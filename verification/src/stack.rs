//! The generated code keeps its stores below the stack pointer: every store
//! relative to `rsp` goes at least one word below it, so the return address
//! at `[rsp]` and the caller's frame above it are never overwritten.
use vstd::prelude::*;
use crate::syntax::{FunDecl, ImmExp, Prim, SeqExp, SeqProg};
use crate::x86::{InstrV, MovArgsV, Offset, Reg};
use crate::codegen::{
    array_elems_code, call_args_code, cg, cg_decls, load_code, prim_code, prim_ok, program_code,
    tail_args_code,
};

verus! {

/// A store relative to `rsp` that is not at least one word below it.
pub open spec fn high_store(i: InstrV) -> bool {
    &&& i matches InstrV::Mov(MovArgsV::ToMem(m, _))
    &&& m.reg == Reg::Rsp
    &&& !(m.offset matches Offset::Constant(c) && c <= -8)
}

/// No instruction of `s` stores at or above `rsp`.
pub open spec fn stack_safe(s: Seq<InstrV>) -> bool {
    forall|k: int| 0 <= k < s.len() ==> !high_store(#[trigger] s[k])
}

pub broadcast proof fn lemma_safe_add(a: Seq<InstrV>, b: Seq<InstrV>)
    requires
        stack_safe(a),
        stack_safe(b),
    ensures
        #[trigger] stack_safe(a + b),
{
    assert forall|k: int| 0 <= k < (a + b).len() implies !high_store(#[trigger] (a + b)[k]) by {
        if k < a.len() {
            assert((a + b)[k] == a[k]);
        } else {
            assert((a + b)[k] == b[k - a.len()]);
        }
    }
}

pub broadcast proof fn lemma_safe_push(s: Seq<InstrV>, x: InstrV)
    requires
        stack_safe(s),
        !high_store(x),
    ensures
        #[trigger] stack_safe(s.push(x)),
{
    assert forall|k: int| 0 <= k < s.push(x).len() implies !high_store(#[trigger] s.push(x)[k]) by {
        if k < s.len() {
            assert(s.push(x)[k] == s[k]);
        }
    }
}

proof fn lemma_empty_safe()
    ensures
        stack_safe(Seq::<InstrV>::empty()),
{
}

proof fn lemma_load_safe(i: ImmExp, env: Seq<(String, i32)>)
    ensures
        stack_safe(load_code(i, env)),
{
    broadcast use lemma_safe_add, lemma_safe_push;
    lemma_empty_safe();
}

proof fn lemma_array_elems_safe(args: Seq<ImmExp>, env: Seq<(String, i32)>, i: int)
    ensures
        stack_safe(array_elems_code(args, env, i)),
    decreases i,
{
    broadcast use lemma_safe_add, lemma_safe_push;
    lemma_empty_safe();
    if i > 0 {
        lemma_array_elems_safe(args, env, i - 1);
        lemma_load_safe(args[i - 1], env);
    }
}

proof fn lemma_tail_args_safe(args: Seq<ImmExp>, env: Seq<(String, i32)>, i: int)
    requires
        i <= 268435456,
    ensures
        stack_safe(tail_args_code(args, env, i)),
    decreases i,
{
    broadcast use lemma_safe_add, lemma_safe_push;
    lemma_empty_safe();
    if i > 0 {
        lemma_tail_args_safe(args, env, i - 1);
        lemma_load_safe(args[i - 1], env);
    }
}

proof fn lemma_call_args_safe(args: Seq<ImmExp>, env: Seq<(String, i32)>, i: int)
    requires
        i + 1 + env.len() <= 268435456,
    ensures
        stack_safe(call_args_code(args, env, i)),
    decreases i,
{
    broadcast use lemma_safe_add, lemma_safe_push;
    lemma_empty_safe();
    if i > 0 {
        lemma_call_args_safe(args, env, i - 1);
        lemma_load_safe(args[i - 1], env);
    }
}

proof fn lemma_add1_sub1_code_safe(op: Prim, args: Seq<ImmExp>, env: Seq<(String, i32)>, ann: u32)
    ensures
        stack_safe(crate::codegen::add1_sub1_code(op, args, env, ann)),
{
    broadcast use lemma_safe_add, lemma_safe_push;
    lemma_empty_safe();
    lemma_load_safe(args[0], env);
    lemma_load_safe(args[1], env);
    lemma_load_safe(args[2], env);
}

proof fn lemma_add_sub_mul_code_safe(op: Prim, args: Seq<ImmExp>, env: Seq<(String, i32)>, ann: u32)
    ensures
        stack_safe(crate::codegen::add_sub_mul_code(op, args, env, ann)),
{
    broadcast use lemma_safe_add, lemma_safe_push;
    lemma_empty_safe();
    lemma_load_safe(args[0], env);
    lemma_load_safe(args[1], env);
    lemma_load_safe(args[2], env);
}

proof fn lemma_not_code_safe(op: Prim, args: Seq<ImmExp>, env: Seq<(String, i32)>, ann: u32)
    ensures
        stack_safe(crate::codegen::not_code(op, args, env, ann)),
{
    broadcast use lemma_safe_add, lemma_safe_push;
    lemma_empty_safe();
    lemma_load_safe(args[0], env);
    lemma_load_safe(args[1], env);
    lemma_load_safe(args[2], env);
}

proof fn lemma_and_or_code_safe(op: Prim, args: Seq<ImmExp>, env: Seq<(String, i32)>, ann: u32)
    ensures
        stack_safe(crate::codegen::and_or_code(op, args, env, ann)),
{
    broadcast use lemma_safe_add, lemma_safe_push;
    lemma_empty_safe();
    lemma_load_safe(args[0], env);
    lemma_load_safe(args[1], env);
    lemma_load_safe(args[2], env);
}

proof fn lemma_eq_code_safe(op: Prim, args: Seq<ImmExp>, env: Seq<(String, i32)>, ann: u32)
    ensures
        stack_safe(crate::codegen::eq_code(op, args, env, ann)),
{
    broadcast use lemma_safe_add, lemma_safe_push;
    lemma_empty_safe();
    lemma_load_safe(args[0], env);
    lemma_load_safe(args[1], env);
    lemma_load_safe(args[2], env);
}

proof fn lemma_print_code_safe(op: Prim, args: Seq<ImmExp>, env: Seq<(String, i32)>, ann: u32)
    ensures
        stack_safe(crate::codegen::print_code(op, args, env, ann)),
{
    broadcast use lemma_safe_add, lemma_safe_push;
    lemma_empty_safe();
    lemma_load_safe(args[0], env);
    lemma_load_safe(args[1], env);
    lemma_load_safe(args[2], env);
}

proof fn lemma_is_bool_code_safe(op: Prim, args: Seq<ImmExp>, env: Seq<(String, i32)>, ann: u32)
    ensures
        stack_safe(crate::codegen::is_bool_code(op, args, env, ann)),
{
    broadcast use lemma_safe_add, lemma_safe_push;
    lemma_empty_safe();
    lemma_load_safe(args[0], env);
    lemma_load_safe(args[1], env);
    lemma_load_safe(args[2], env);
}

proof fn lemma_is_num_code_safe(op: Prim, args: Seq<ImmExp>, env: Seq<(String, i32)>, ann: u32)
    ensures
        stack_safe(crate::codegen::is_num_code(op, args, env, ann)),
{
    broadcast use lemma_safe_add, lemma_safe_push;
    lemma_empty_safe();
    lemma_load_safe(args[0], env);
    lemma_load_safe(args[1], env);
    lemma_load_safe(args[2], env);
}

proof fn lemma_is_array_code_safe(op: Prim, args: Seq<ImmExp>, env: Seq<(String, i32)>, ann: u32)
    ensures
        stack_safe(crate::codegen::is_array_code(op, args, env, ann)),
{
    broadcast use lemma_safe_add, lemma_safe_push;
    lemma_empty_safe();
    lemma_load_safe(args[0], env);
    lemma_load_safe(args[1], env);
    lemma_load_safe(args[2], env);
}

proof fn lemma_is_fun_code_safe(op: Prim, args: Seq<ImmExp>, env: Seq<(String, i32)>, ann: u32)
    ensures
        stack_safe(crate::codegen::is_fun_code(op, args, env, ann)),
{
    broadcast use lemma_safe_add, lemma_safe_push;
    lemma_empty_safe();
    lemma_load_safe(args[0], env);
    lemma_load_safe(args[1], env);
    lemma_load_safe(args[2], env);
}

proof fn lemma_compare_code_safe(op: Prim, args: Seq<ImmExp>, env: Seq<(String, i32)>, ann: u32)
    ensures
        stack_safe(crate::codegen::compare_code(op, args, env, ann)),
{
    broadcast use lemma_safe_add, lemma_safe_push;
    lemma_empty_safe();
    lemma_load_safe(args[0], env);
    lemma_load_safe(args[1], env);
    lemma_load_safe(args[2], env);
}

proof fn lemma_array_get_code_safe(op: Prim, args: Seq<ImmExp>, env: Seq<(String, i32)>, ann: u32)
    ensures
        stack_safe(crate::codegen::array_get_code(op, args, env, ann)),
{
    broadcast use lemma_safe_add, lemma_safe_push;
    lemma_empty_safe();
    lemma_load_safe(args[0], env);
    lemma_load_safe(args[1], env);
    lemma_load_safe(args[2], env);
}

proof fn lemma_array_set_code_safe(op: Prim, args: Seq<ImmExp>, env: Seq<(String, i32)>, ann: u32)
    ensures
        stack_safe(crate::codegen::array_set_code(op, args, env, ann)),
{
    broadcast use lemma_safe_add, lemma_safe_push;
    lemma_empty_safe();
    lemma_load_safe(args[0], env);
    lemma_load_safe(args[1], env);
    lemma_load_safe(args[2], env);
}

proof fn lemma_make_array_code_safe(op: Prim, args: Seq<ImmExp>, env: Seq<(String, i32)>, ann: u32)
    ensures
        stack_safe(crate::codegen::make_array_code(op, args, env, ann)),
{
    broadcast use lemma_safe_add, lemma_safe_push;
    lemma_empty_safe();
    lemma_load_safe(args[0], env);
    lemma_load_safe(args[1], env);
    lemma_load_safe(args[2], env);
        lemma_array_elems_safe(args, env, args.len() as int);
}

proof fn lemma_length_code_safe(op: Prim, args: Seq<ImmExp>, env: Seq<(String, i32)>, ann: u32)
    ensures
        stack_safe(crate::codegen::length_code(op, args, env, ann)),
{
    broadcast use lemma_safe_add, lemma_safe_push;
    lemma_empty_safe();
    lemma_load_safe(args[0], env);
    lemma_load_safe(args[1], env);
    lemma_load_safe(args[2], env);
}

proof fn lemma_check_arity_code_safe(op: Prim, args: Seq<ImmExp>, env: Seq<(String, i32)>, ann: u32)
    ensures
        stack_safe(crate::codegen::check_arity_code(op, args, env, ann)),
{
    broadcast use lemma_safe_add, lemma_safe_push;
    lemma_empty_safe();
    lemma_load_safe(args[0], env);
    lemma_load_safe(args[1], env);
    lemma_load_safe(args[2], env);
}

proof fn lemma_get_code_code_safe(op: Prim, args: Seq<ImmExp>, env: Seq<(String, i32)>, ann: u32)
    ensures
        stack_safe(crate::codegen::get_code_code(op, args, env, ann)),
{
    broadcast use lemma_safe_add, lemma_safe_push;
    lemma_empty_safe();
    lemma_load_safe(args[0], env);
    lemma_load_safe(args[1], env);
    lemma_load_safe(args[2], env);
}

proof fn lemma_get_env_code_safe(op: Prim, args: Seq<ImmExp>, env: Seq<(String, i32)>, ann: u32)
    ensures
        stack_safe(crate::codegen::get_env_code(op, args, env, ann)),
{
    broadcast use lemma_safe_add, lemma_safe_push;
    lemma_empty_safe();
    lemma_load_safe(args[0], env);
    lemma_load_safe(args[1], env);
    lemma_load_safe(args[2], env);
}

proof fn lemma_prim_safe(op: Prim, args: Seq<ImmExp>, env: Seq<(String, i32)>, ann: u32)
    requires
        prim_ok(op, args, env),
    ensures
        stack_safe(prim_code(op, args, env, ann)),
{
    lemma_empty_safe();
    match op {
        Prim::Add1 | Prim::Sub1 => lemma_add1_sub1_code_safe(op, args, env, ann),
        Prim::Add | Prim::Sub | Prim::Mul => lemma_add_sub_mul_code_safe(op, args, env, ann),
        Prim::Not => lemma_not_code_safe(op, args, env, ann),
        Prim::And | Prim::Or => lemma_and_or_code_safe(op, args, env, ann),
        Prim::Eq | Prim::Neq => lemma_eq_code_safe(op, args, env, ann),
        Prim::Print => lemma_print_code_safe(op, args, env, ann),
        Prim::IsBool => lemma_is_bool_code_safe(op, args, env, ann),
        Prim::IsNum => lemma_is_num_code_safe(op, args, env, ann),
        Prim::IsArray => lemma_is_array_code_safe(op, args, env, ann),
        Prim::IsFun => lemma_is_fun_code_safe(op, args, env, ann),
        Prim::Gt | Prim::Lt | Prim::Ge | Prim::Le => lemma_compare_code_safe(op, args, env, ann),
        Prim::ArrayGet => lemma_array_get_code_safe(op, args, env, ann),
        Prim::ArraySet => lemma_array_set_code_safe(op, args, env, ann),
        Prim::MakeArray => lemma_make_array_code_safe(op, args, env, ann),
        Prim::Length => lemma_length_code_safe(op, args, env, ann),
        Prim::CheckArityAndUntag(_) => lemma_check_arity_code_safe(op, args, env, ann),
        Prim::GetCode => lemma_get_code_code_safe(op, args, env, ann),
        Prim::GetEnv => lemma_get_env_code_safe(op, args, env, ann),
        _ => {},
    }
}

/// The code of an expression, and the code it leaves for after its
/// function, store nothing at or above `rsp`.
pub proof fn lemma_cg_stack_safe(e: SeqExp<u32>, env: Seq<(String, i32)>, is_def: bool)
    requires
        cg(e, env, is_def) is Some,
    ensures
        stack_safe(cg(e, env, is_def).unwrap().0),
        stack_safe(cg(e, env, is_def).unwrap().1),
    decreases e, 1nat, 0nat,
{
    broadcast use lemma_safe_add, lemma_safe_push;
    lemma_empty_safe();
    match e {
        SeqExp::Imm(i, _) => lemma_load_safe(i, env),
        SeqExp::Prim(op, args, ann) => lemma_prim_safe(op, args@, env, ann),
        SeqExp::Let { var, bound_exp, body, .. } => {
            lemma_cg_stack_safe(*bound_exp, env, false);
            let env1 = cg(*bound_exp, env, false).unwrap().2;
            let off = (-8 * (env1.len() + 1)) as i32;
            lemma_cg_stack_safe(*body, env1.push((var, off)), false);
        },
        SeqExp::If { cond, thn, els, .. } => {
            lemma_load_safe(cond, env);
            lemma_cg_stack_safe(*thn, env, false);
            let env1 = cg(*thn, env, false).unwrap().2;
            lemma_cg_stack_safe(*els, env1, false);
        },
        SeqExp::FunDefs { decls, body, .. } => {
            lemma_cg_stack_safe(*body, env, false);
            lemma_cg_decls_stack_safe(decls@, decls@.len() as int);
        },
        SeqExp::InternalTailCall(_, args, _) => {
            lemma_tail_args_safe(args@, env, args@.len() as int);
        },
        SeqExp::ExternalCall { args, is_tail, .. } => {
            if is_tail {
                lemma_tail_args_safe(args@, env, args@.len() as int);
            } else {
                lemma_call_args_safe(args@, env, args@.len() as int);
            }
        },
        SeqExp::MakeClosure { env: clo, .. } => {
            lemma_load_safe(clo, env);
        },
        _ => {},
    }
}

/// The code of local function definitions stores nothing at or above `rsp`.
pub proof fn lemma_cg_decls_stack_safe(ds: Seq<FunDecl<SeqExp<u32>, u32>>, i: int)
    requires
        cg_decls(ds, i) is Some,
    ensures
        stack_safe(cg_decls(ds, i).unwrap()),
    decreases ds, 0nat, i,
{
    broadcast use lemma_safe_add, lemma_safe_push;
    lemma_empty_safe();
    if 0 < i <= ds.len() {
        lemma_cg_decls_stack_safe(ds, i - 1);
        let d = ds[i - 1];
        lemma_cg_stack_safe(d.body, crate::codegen::param_scope(d.parameters@, d.parameters@.len() as int), false);
    }
}

/// A compiled program never stores at or above `rsp`: every store relative
/// to `rsp` is at an offset of at most `-8`.
pub proof fn lemma_program_stack_safe(p: SeqProg<u32>)
    requires
        program_code(p) is Some,
    ensures
        stack_safe(program_code(p).unwrap()),
{
    broadcast use lemma_safe_add, lemma_safe_push;
    lemma_empty_safe();
    lemma_cg_decls_stack_safe(p.funs@, p.funs@.len() as int);
    lemma_cg_stack_safe(p.main, Seq::empty(), p.main is FunDefs);
}

} // verus!
