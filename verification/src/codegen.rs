//! Code generation: from numbered sequential expressions to instructions.
//!
//! Values are tagged: a number `n` is `2n`; `true` and `false` are all ones
//! and all ones but the top bit; arrays, closures and floats set the low bits.
//! A variable lives at a constant offset below `rsp`; the heap pointer is `r15`.
use vstd::prelude::*;
use crate::syntax::{FunDecl, ImmExp, Prim, SeqExp, SeqProg, VarOrLabel};
use crate::x86::{Arg32, Arg64, Arg64V, BinArgs, Instr, InstrV, JmpArg, JmpArgV, MemRef, MovArgs, MovArgsV,
    Offset, Reg, Reg32, instrs_view, emit, emit_all};
use crate::check::{env_lookup, env_get};
use crate::text::{dec_nat, push_dec_u64};

verus! {

pub const SNAKE_TRU: u64 = 0xFFFF_FFFF_FFFF_FFFF;
pub const SNAKE_FLS: u64 = 0x7FFF_FFFF_FFFF_FFFF;
pub const BOOL_MASK: u64 = 0x8000_0000_0000_0000;
pub const TAG_MASK: u64 = 0x7FFF_FFFF_FFFF_FFFF;
pub const FLIP_MASK: u64 = 0x8000_0000_0000_0000;

// ---------------------------------------------------------------------------
// Instruction shorthands.

pub open spec fn mov_rr(d: Reg, s: Reg) -> InstrV {
    InstrV::Mov(MovArgsV::ToReg(d, Arg64V::Reg(s)))
}

pub open spec fn mov_ru(d: Reg, u: u64) -> InstrV {
    InstrV::Mov(MovArgsV::ToReg(d, Arg64V::Unsigned(u)))
}

pub open spec fn mov_rm(d: Reg, base: Reg, off: i32) -> InstrV {
    InstrV::Mov(MovArgsV::ToReg(d, Arg64V::Mem(MemRef { reg: base, offset: Offset::Constant(off) })))
}

pub open spec fn store(base: Reg, off: i32, src: Reg32) -> InstrV {
    InstrV::Mov(MovArgsV::ToMem(MemRef { reg: base, offset: Offset::Constant(off) }, src))
}

pub open spec fn ru(r: Reg, u: u32) -> BinArgs {
    BinArgs::ToReg(r, Arg32::Unsigned(u))
}

pub open spec fn rs(r: Reg, i: i32) -> BinArgs {
    BinArgs::ToReg(r, Arg32::Signed(i))
}

pub open spec fn rr(r: Reg, s: Reg) -> BinArgs {
    BinArgs::ToReg(r, Arg32::Reg(s))
}

pub open spec fn to_label(l: Seq<char>) -> JmpArgV {
    JmpArgV::Label(l)
}

// ---------------------------------------------------------------------------
// Run-time checks.

pub open spec fn check_ari_num_code() -> Seq<InstrV> {
    seq![InstrV::Test(ru(Reg::Rax, 1)), InstrV::Jnz(to_label("error_ari_not_number"@))]
}

pub open spec fn check_com_num_code() -> Seq<InstrV> {
    seq![InstrV::Test(ru(Reg::Rax, 1)), InstrV::Jnz(to_label("error_com_not_number"@))]
}

pub open spec fn check_index_num_code() -> Seq<InstrV> {
    seq![InstrV::Test(ru(Reg::R14, 1)), InstrV::Jnz(to_label("error_index_not_number"@))]
}

/// The low three bits of `rax` must be `001`, else a jump to `err`.
pub open spec fn check_array_tag_code(err: Seq<char>) -> Seq<InstrV> {
    seq![
        mov_rr(Reg::R9, Reg::Rax),
        InstrV::Xor(ru(Reg::R9, 1)),
        InstrV::Test(ru(Reg::R9, 7)),
        InstrV::Jnz(to_label(err)),
    ]
}

pub open spec fn check_index_into_array_code() -> Seq<InstrV> {
    check_array_tag_code("error_index_into_nonarray"@)
}

pub open spec fn check_length_into_array_code() -> Seq<InstrV> {
    check_array_tag_code("error_length_into_nonarray"@)
}

pub open spec fn check_index_bound_code() -> Seq<InstrV> {
    seq![
        InstrV::Sar(ru(Reg::R14, 1)),
        InstrV::Cmp(rs(Reg::R14, 0)),
        InstrV::Jl(to_label("error_index_out_of_bound"@)),
        InstrV::Cmp(BinArgs::ToReg(Reg::R14, Arg32::Mem(MemRef { reg: Reg::Rax, offset: Offset::Constant(0) }))),
        InstrV::Jge(to_label("error_index_out_of_bound"@)),
    ]
}

/// The low three bits of `rax` must be `111`, else a jump to `err`.
pub open spec fn check_bool_code(err: Seq<char>) -> Seq<InstrV> {
    seq![
        mov_rr(Reg::R9, Reg::Rax),
        InstrV::Xor(ru(Reg::R9, 7)),
        InstrV::Test(ru(Reg::R9, 7)),
        InstrV::Jnz(to_label(err)),
    ]
}

pub open spec fn check_if_bool_code() -> Seq<InstrV> {
    check_bool_code("error_if_not_boolean"@)
}

pub open spec fn check_logic_bool_code() -> Seq<InstrV> {
    check_bool_code("error_logic_not_boolean"@)
}

pub open spec fn check_overflow_code() -> Seq<InstrV> {
    seq![InstrV::Jo(to_label("error_overflow"@))]
}

/// The arithmetic or comparison core of a binary primitive, with the
/// operands in `rax` and `r10`.
pub open spec fn prim_core_code(op: Prim) -> Seq<InstrV> {
    match op {
        Prim::Add1 => seq![InstrV::Add(rs(Reg::Rax, 2))],
        Prim::Sub1 => seq![InstrV::Sub(rs(Reg::Rax, 2))],
        Prim::Add => seq![InstrV::Add(rr(Reg::Rax, Reg::R10))],
        Prim::Sub => seq![InstrV::Sub(rr(Reg::Rax, Reg::R10))],
        Prim::Mul => seq![InstrV::IMul(rr(Reg::Rax, Reg::R10))],
        Prim::And => seq![InstrV::And(rr(Reg::Rax, Reg::R10))],
        Prim::Or => seq![InstrV::Or(rr(Reg::Rax, Reg::R10))],
        Prim::Gt | Prim::Le => seq![InstrV::Sub(rr(Reg::Rax, Reg::R10))],
        _ => seq![InstrV::Sub(rr(Reg::R10, Reg::Rax)), mov_rr(Reg::Rax, Reg::R10)],
    }
}

/// The primitives that `prim_core_code` handles.
pub open spec fn has_core(op: Prim) -> bool {
    matches!(op, Prim::Add1 | Prim::Sub1 | Prim::Add | Prim::Sub | Prim::Mul | Prim::And | Prim::Or
        | Prim::Gt | Prim::Le | Prim::Lt | Prim::Ge)
}

pub open spec fn rax_flip_code() -> Seq<InstrV> {
    seq![InstrV::Comment("flip"@), mov_ru(Reg::R10, FLIP_MASK), InstrV::Xor(rr(Reg::Rax, Reg::R10))]
}

/// The primitives whose boolean result is computed negated and then flipped.
pub open spec fn need_flip_code(op: Prim) -> Seq<InstrV> {
    match op {
        Prim::IsNum | Prim::Ge | Prim::Le | Prim::Neq => rax_flip_code(),
        _ => Seq::empty(),
    }
}


// ---------------------------------------------------------------------------
// Immediates and primitives.

/// An immediate can be loaded: a variable must be in scope, and floats have no
/// encoding here.
pub open spec fn imm_ok(i: ImmExp, env: Seq<(String, i32)>) -> bool {
    match i {
        ImmExp::Var(x) => env_lookup(env, x@) is Some,
        ImmExp::Float(_) => false,
        _ => true,
    }
}

/// The operand that holds an immediate.
pub open spec fn imm_arg(i: ImmExp, env: Seq<(String, i32)>) -> Arg64V {
    match i {
        ImmExp::Num(n) => Arg64V::Signed(n << 1),
        ImmExp::Bool(b) => Arg64V::Unsigned(if b { SNAKE_TRU } else { SNAKE_FLS }),
        ImmExp::Var(x) => Arg64V::Mem(MemRef { reg: Reg::Rsp, offset: Offset::Constant(env_lookup(env, x@).unwrap()) }),
        ImmExp::Float(_) => Arg64V::Signed(0),
    }
}

/// Loading an immediate into `rax`.
pub open spec fn load_code(i: ImmExp, env: Seq<(String, i32)>) -> Seq<InstrV> {
    seq![InstrV::Mov(MovArgsV::ToReg(Reg::Rax, imm_arg(i, env)))]
}

/// The stack space kept free around a call to the runtime, rounded up to 16 bytes.
pub open spec fn space_needed_of(n: int) -> int {
    if n % 2 == 0 { n * 8 } else { n * 8 + 8 }
}

/// The stack space kept free around a call of a snake function.
pub open spec fn snake_space_needed_of(n: int) -> int {
    n * 8
}

pub open spec fn fits_i32(n: int) -> bool {
    i32::MIN <= n <= i32::MAX
}

/// The number of arguments that a primitive reads.
pub open spec fn prim_arity(op: Prim) -> int {
    match op {
        Prim::Add | Prim::Sub | Prim::Mul | Prim::And | Prim::Or | Prim::Eq | Prim::Neq
            | Prim::Gt | Prim::Lt | Prim::Ge | Prim::Le | Prim::ArrayGet => 2,
        Prim::ArraySet => 3,
        Prim::MakeArray => 0,
        _ => 1,
    }
}

/// A primitive application can be compiled: it has the arguments it reads,
/// they can be loaded, the numbers it puts in its code fit, and it is not a
/// floating-point primitive.
pub open spec fn prim_ok(op: Prim, args: Seq<ImmExp>, env: Seq<(String, i32)>) -> bool {
    &&& !matches!(op, Prim::FAdd | Prim::FSub | Prim::FMul | Prim::FLt | Prim::FGt | Prim::FLe | Prim::FGe | Prim::IsFloat)
    &&& args.len() >= prim_arity(op)
    &&& forall|k: int| 0 <= k < prim_arity(op) ==> imm_ok(#[trigger] args[k], env)
    &&& op is Print ==> env.len() <= i32::MAX && fits_i32(space_needed_of(env.len() as int))
    &&& op is CheckArityAndUntag ==> op->CheckArityAndUntag_0 <= u32::MAX
    &&& op is MakeArray ==> args.len() <= 268435454 && forall|k: int| 0 <= k < args.len() ==> imm_ok(#[trigger] args[k], env)
}

/// The code that stores the first `i` elements of a new array after its length.
pub open spec fn array_elems_code(args: Seq<ImmExp>, env: Seq<(String, i32)>, i: int) -> Seq<InstrV>
    decreases i,
{
    if i <= 0 {
        Seq::empty()
    } else {
        array_elems_code(args, env, i - 1) + load_code(args[i - 1], env)
            + seq![store(Reg::R15, (i * 8) as i32, Reg32::Reg(Reg::Rax))]
    }
}

/// Sets the top bit of `rax` from its lowest bit, then folds in the next two bits.
pub open spec fn tag_test_code(name: Seq<char>, flip_low: bool, flip_mid: bool) -> Seq<InstrV> {
    seq![
        InstrV::Comment(name),
        mov_rr(Reg::R10, Reg::Rax),
        InstrV::Shl(ru(Reg::R10, 63)),
    ] + (if flip_low { seq![mov_ru(Reg::R8, BOOL_MASK), InstrV::Xor(rr(Reg::R10, Reg::R8))] } else { Seq::empty() })
    + seq![
        InstrV::Shl(ru(Reg::Rax, 1)),
        InstrV::Shr(ru(Reg::Rax, 1)),
        InstrV::Or(rr(Reg::Rax, Reg::R10)),
        mov_rr(Reg::R9, Reg::Rax),
        mov_rr(Reg::R10, Reg::Rax),
        InstrV::Shl(ru(Reg::R10, 62)),
    ] + (if flip_mid { seq![mov_ru(Reg::R8, BOOL_MASK), InstrV::Xor(rr(Reg::R10, Reg::R8))] } else { Seq::empty() })
    + seq![
        InstrV::Shl(ru(Reg::Rax, 1)),
        InstrV::Shr(ru(Reg::Rax, 1)),
        InstrV::Or(rr(Reg::Rax, Reg::R10)),
        InstrV::And(rr(Reg::R9, Reg::Rax)),
        mov_rr(Reg::R10, Reg::Rax),
        InstrV::Shl(ru(Reg::R10, 61)),
    ]
}

pub open spec fn add1_sub1_code(op: Prim, args: Seq<ImmExp>, env: Seq<(String, i32)>, ann: u32) -> Seq<InstrV> {
    let fst = load_code(args[0], env);
    let snd_arg = imm_arg(args[1], env);
    
    fst + seq![InstrV::Comment("add1_sub1"@)] + check_ari_num_code()
            + prim_core_code(op) + check_overflow_code()
}

pub open spec fn add_sub_mul_code(op: Prim, args: Seq<ImmExp>, env: Seq<(String, i32)>, ann: u32) -> Seq<InstrV> {
    let fst = load_code(args[0], env);
    let snd_arg = imm_arg(args[1], env);
    
    fst + seq![InstrV::Comment("add_sub_mul"@)] + check_ari_num_code()
            + seq![
                mov_rr(Reg::R10, Reg::Rax),
                InstrV::Sar(ru(Reg::R10, 1)),
                InstrV::Mov(MovArgsV::ToReg(Reg::Rax, snd_arg)),
            ] + check_ari_num_code()
            + seq![
                InstrV::Sar(ru(Reg::Rax, 1)),
                mov_rr(Reg::R11, Reg::Rax),
                mov_rr(Reg::Rax, Reg::R10),
                mov_rr(Reg::R10, Reg::R11),
            ] + prim_core_code(op) + check_overflow_code() + seq![InstrV::Shl(ru(Reg::Rax, 1))]
            + check_overflow_code()
}

pub open spec fn not_code(op: Prim, args: Seq<ImmExp>, env: Seq<(String, i32)>, ann: u32) -> Seq<InstrV> {
    let fst = load_code(args[0], env);
    let snd_arg = imm_arg(args[1], env);
    
    fst + seq![InstrV::Comment("not"@)] + check_logic_bool_code()
            + seq![mov_ru(Reg::R10, BOOL_MASK), InstrV::Xor(rr(Reg::Rax, Reg::R10))]
}

pub open spec fn and_or_code(op: Prim, args: Seq<ImmExp>, env: Seq<(String, i32)>, ann: u32) -> Seq<InstrV> {
    let fst = load_code(args[0], env);
    let snd_arg = imm_arg(args[1], env);
    
    fst + seq![InstrV::Comment("and_or"@)] + check_logic_bool_code()
            + seq![mov_rr(Reg::R10, Reg::Rax), InstrV::Mov(MovArgsV::ToReg(Reg::Rax, snd_arg))]
            + check_logic_bool_code() + prim_core_code(op)
}

pub open spec fn eq_code(op: Prim, args: Seq<ImmExp>, env: Seq<(String, i32)>, ann: u32) -> Seq<InstrV> {
    let fst = load_code(args[0], env);
    let snd_arg = imm_arg(args[1], env);
    
    fst + seq![
                InstrV::Comment("eq or neq"@),
                mov_rr(Reg::R10, Reg::Rax),
                InstrV::Mov(MovArgsV::ToReg(Reg::Rax, snd_arg)),
                InstrV::Cmp(rr(Reg::R10, Reg::Rax)),
                mov_ru(Reg::Rax, SNAKE_TRU),
                InstrV::Jz(to_label("eq_done"@ + dec_nat(ann as nat))),
                mov_ru(Reg::Rax, SNAKE_FLS),
                InstrV::Label("eq_done"@ + dec_nat(ann as nat)),
            ] + need_flip_code(op)
}

pub open spec fn print_code(op: Prim, args: Seq<ImmExp>, env: Seq<(String, i32)>, ann: u32) -> Seq<InstrV> {
    let fst = load_code(args[0], env);
    let snd_arg = imm_arg(args[1], env);
    
    fst + seq![
                InstrV::Comment("print"@),
                mov_rr(Reg::Rdi, Reg::Rax),
                InstrV::Sub(rs(Reg::Rsp, space_needed_of(env.len() as int) as i32)),
                InstrV::Call(to_label("print_snake_val"@)),
                InstrV::Add(rs(Reg::Rsp, space_needed_of(env.len() as int) as i32)),
            ]
}

pub open spec fn is_bool_code(op: Prim, args: Seq<ImmExp>, env: Seq<(String, i32)>, ann: u32) -> Seq<InstrV> {
    let fst = load_code(args[0], env);
    let snd_arg = imm_arg(args[1], env);
    
    fst + tag_test_code("isbool"@, false, false) + seq![
                InstrV::Shl(ru(Reg::Rax, 1)),
                InstrV::Shr(ru(Reg::Rax, 1)),
                InstrV::Or(rr(Reg::Rax, Reg::R10)),
                InstrV::And(rr(Reg::R9, Reg::Rax)),
                mov_ru(Reg::R10, TAG_MASK),
                InstrV::Or(rr(Reg::R9, Reg::R10)),
                mov_rr(Reg::Rax, Reg::R9),
            ]
}

pub open spec fn is_num_code(op: Prim, args: Seq<ImmExp>, env: Seq<(String, i32)>, ann: u32) -> Seq<InstrV> {
    let fst = load_code(args[0], env);
    let snd_arg = imm_arg(args[1], env);
    
    fst + seq![
                InstrV::Comment("isnum"@),
                mov_rr(Reg::R10, Reg::Rax),
                InstrV::Shl(ru(Reg::R10, 63)),
                mov_ru(Reg::R8, BOOL_MASK),
                InstrV::Xor(rr(Reg::R10, Reg::R8)),
                InstrV::Shl(ru(Reg::Rax, 1)),
                InstrV::Shr(ru(Reg::Rax, 1)),
                InstrV::Or(rr(Reg::Rax, Reg::R10)),
                mov_ru(Reg::R10, TAG_MASK),
                InstrV::Or(rr(Reg::Rax, Reg::R10)),
            ]
}

pub open spec fn is_array_code(op: Prim, args: Seq<ImmExp>, env: Seq<(String, i32)>, ann: u32) -> Seq<InstrV> {
    let fst = load_code(args[0], env);
    let snd_arg = imm_arg(args[1], env);
    
    fst + tag_test_code("isarray"@, false, true) + seq![
                mov_ru(Reg::R8, BOOL_MASK),
                InstrV::Xor(rr(Reg::R10, Reg::R8)),
                InstrV::Shl(ru(Reg::Rax, 1)),
                InstrV::Shr(ru(Reg::Rax, 1)),
                InstrV::Or(rr(Reg::Rax, Reg::R10)),
                InstrV::And(rr(Reg::R9, Reg::Rax)),
                mov_ru(Reg::R10, TAG_MASK),
                InstrV::Or(rr(Reg::R9, Reg::R10)),
                mov_rr(Reg::Rax, Reg::R9),
            ]
}

pub open spec fn is_fun_code(op: Prim, args: Seq<ImmExp>, env: Seq<(String, i32)>, ann: u32) -> Seq<InstrV> {
    let fst = load_code(args[0], env);
    let snd_arg = imm_arg(args[1], env);
    
    fst + tag_test_code("isfun"@, false, false) + seq![
                mov_ru(Reg::R8, BOOL_MASK),
                InstrV::Xor(rr(Reg::R10, Reg::R8)),
                InstrV::Shl(ru(Reg::Rax, 1)),
                InstrV::Shr(ru(Reg::Rax, 1)),
                InstrV::Or(rr(Reg::Rax, Reg::R10)),
                InstrV::And(rr(Reg::R9, Reg::Rax)),
                mov_ru(Reg::R10, TAG_MASK),
                InstrV::Or(rr(Reg::R9, Reg::R10)),
                mov_rr(Reg::Rax, Reg::R9),
            ]
}

pub open spec fn compare_code(op: Prim, args: Seq<ImmExp>, env: Seq<(String, i32)>, ann: u32) -> Seq<InstrV> {
    let fst = load_code(args[0], env);
    let snd_arg = imm_arg(args[1], env);
    
    fst + seq![InstrV::Comment("gt_lt_ge_le"@)]
            + check_com_num_code()
            + seq![
                InstrV::Sar(ru(Reg::Rax, 1)),
                mov_rr(Reg::R10, Reg::Rax),
                InstrV::Mov(MovArgsV::ToReg(Reg::Rax, snd_arg)),
            ] + check_com_num_code() + seq![InstrV::Sar(ru(Reg::Rax, 1))] + prim_core_code(op)
            + seq![
                mov_ru(Reg::R11, BOOL_MASK),
                InstrV::And(rr(Reg::Rax, Reg::R11)),
                mov_ru(Reg::R11, TAG_MASK),
                InstrV::Or(rr(Reg::Rax, Reg::R11)),
            ] + need_flip_code(op)
}

pub open spec fn array_get_code(op: Prim, args: Seq<ImmExp>, env: Seq<(String, i32)>, ann: u32) -> Seq<InstrV> {
    let fst = load_code(args[0], env);
    let snd_arg = imm_arg(args[1], env);
    
    seq![InstrV::Comment("array_get"@)] + load_code(args[1], env)
            + seq![mov_rr(Reg::R14, Reg::Rax)] + check_index_num_code() + fst + check_index_into_array_code()
            + seq![InstrV::Sub(rs(Reg::Rax, 1))] + check_index_bound_code()
            + seq![InstrV::Mov(MovArgsV::ToReg(Reg::Rax, Arg64V::Mem(MemRef {
                reg: Reg::Rax,
                offset: Offset::Computed { reg: Reg::R14, factor: 8, constant: 8 },
            })))]
}

pub open spec fn array_set_code(op: Prim, args: Seq<ImmExp>, env: Seq<(String, i32)>, ann: u32) -> Seq<InstrV> {
    let fst = load_code(args[0], env);
    let snd_arg = imm_arg(args[1], env);
    
    seq![InstrV::Comment("array_set"@)] + load_code(args[1], env)
            + seq![mov_rr(Reg::R14, Reg::Rax)] + check_index_num_code() + fst + check_index_into_array_code()
            + seq![InstrV::Sub(rs(Reg::Rax, 1))] + check_index_bound_code()
            + seq![mov_rr(Reg::R9, Reg::Rax)] + load_code(args[2], env)
            + seq![
                InstrV::Mov(MovArgsV::ToMem(MemRef {
                    reg: Reg::R9,
                    offset: Offset::Computed { reg: Reg::R14, factor: 8, constant: 8 },
                }, Reg32::Reg(Reg::Rax))),
                mov_rr(Reg::Rax, Reg::R9),
                InstrV::Add(rs(Reg::Rax, 1)),
            ]
}

pub open spec fn make_array_code(op: Prim, args: Seq<ImmExp>, env: Seq<(String, i32)>, ann: u32) -> Seq<InstrV> {
    let fst = load_code(args[0], env);
    let snd_arg = imm_arg(args[1], env);
    
    seq![
                InstrV::Comment("make_array"@),
                store(Reg::R15, 0, Reg32::Signed(args.len() as i32)),
            ] + array_elems_code(args, env, args.len() as int)
            + seq![
                mov_rr(Reg::Rax, Reg::R15),
                InstrV::Add(rs(Reg::Rax, 1)),
                InstrV::Add(rs(Reg::R15, (8 * (args.len() + 1)) as i32)),
            ]
}

pub open spec fn length_code(op: Prim, args: Seq<ImmExp>, env: Seq<(String, i32)>, ann: u32) -> Seq<InstrV> {
    let fst = load_code(args[0], env);
    let snd_arg = imm_arg(args[1], env);
    
    fst + check_length_into_array_code() + seq![
                InstrV::Sub(rs(Reg::Rax, 1)),
                mov_rm(Reg::Rax, Reg::Rax, 0),
                InstrV::Shl(ru(Reg::Rax, 1)),
            ]
}

pub open spec fn check_arity_code(op: Prim, args: Seq<ImmExp>, env: Seq<(String, i32)>, ann: u32) -> Seq<InstrV> {
    let fst = load_code(args[0], env);
    let snd_arg = imm_arg(args[1], env);
    let count = op->CheckArityAndUntag_0;
    fst + seq![
                mov_rr(Reg::R9, Reg::Rax),
                InstrV::Xor(ru(Reg::R9, 3)),
                InstrV::Test(ru(Reg::R9, 7)),
                InstrV::Jnz(to_label("error_not_closure"@)),
                InstrV::Sub(rs(Reg::Rax, 3)),
                mov_rm(Reg::R10, Reg::Rax, 0),
                InstrV::Cmp(ru(Reg::R10, count as u32)),
                InstrV::Jne(to_label("error_wrong_arity"@)),
                InstrV::Add(rs(Reg::Rax, 3)),
            ]
}

pub open spec fn get_code_code(op: Prim, args: Seq<ImmExp>, env: Seq<(String, i32)>, ann: u32) -> Seq<InstrV> {
    let fst = load_code(args[0], env);
    let snd_arg = imm_arg(args[1], env);
    
    fst + seq![InstrV::Sub(rs(Reg::Rax, 3)), mov_rm(Reg::Rax, Reg::Rax, 8)]
}

pub open spec fn get_env_code(op: Prim, args: Seq<ImmExp>, env: Seq<(String, i32)>, ann: u32) -> Seq<InstrV> {
    let fst = load_code(args[0], env);
    let snd_arg = imm_arg(args[1], env);
    
    fst + seq![InstrV::Sub(rs(Reg::Rax, 3)), mov_rm(Reg::Rax, Reg::Rax, 16)]
}

/// The code of a primitive application, with its arguments loaded from `env`.
pub open spec fn prim_code(op: Prim, args: Seq<ImmExp>, env: Seq<(String, i32)>, ann: u32) -> Seq<InstrV> {
    match op {
        Prim::Add1 | Prim::Sub1 => add1_sub1_code(op, args, env, ann),
        Prim::Add | Prim::Sub | Prim::Mul => add_sub_mul_code(op, args, env, ann),
        Prim::Not => not_code(op, args, env, ann),
        Prim::And | Prim::Or => and_or_code(op, args, env, ann),
        Prim::Eq | Prim::Neq => eq_code(op, args, env, ann),
        Prim::Print => print_code(op, args, env, ann),
        Prim::IsBool => is_bool_code(op, args, env, ann),
        Prim::IsNum => is_num_code(op, args, env, ann),
        Prim::IsArray => is_array_code(op, args, env, ann),
        Prim::IsFun => is_fun_code(op, args, env, ann),
        Prim::Gt | Prim::Lt | Prim::Ge | Prim::Le => compare_code(op, args, env, ann),
        Prim::ArrayGet => array_get_code(op, args, env, ann),
        Prim::ArraySet => array_set_code(op, args, env, ann),
        Prim::MakeArray => make_array_code(op, args, env, ann),
        Prim::Length => length_code(op, args, env, ann),
        Prim::CheckArityAndUntag(_) => check_arity_code(op, args, env, ann),
        Prim::GetCode => get_code_code(op, args, env, ann),
        Prim::GetEnv => get_env_code(op, args, env, ann),
        _ => Seq::empty(),
    }
}

// ---------------------------------------------------------------------------
// Expressions.

/// The scope of a function body: its `i` first parameters at the slots just below `rsp`.
pub open spec fn param_scope(ps: Seq<String>, i: int) -> Seq<(String, i32)>
    decreases i,
{
    if i <= 0 {
        Seq::empty()
    } else {
        param_scope(ps, i - 1).push((ps[i - 1], (-8 * i) as i32))
    }
}

/// Storing the first `i` arguments of a tail call into the parameter slots.
pub open spec fn tail_args_code(args: Seq<ImmExp>, env: Seq<(String, i32)>, i: int) -> Seq<InstrV>
    decreases i,
{
    if i <= 0 {
        Seq::empty()
    } else {
        tail_args_code(args, env, i - 1) + load_code(args[i - 1], env)
            + seq![store(Reg::Rsp, (-8 * i) as i32, Reg32::Reg(Reg::Rax))]
    }
}

/// Storing the first `i` arguments of a call into the slots past the caller's frame.
pub open spec fn call_args_code(args: Seq<ImmExp>, env: Seq<(String, i32)>, i: int) -> Seq<InstrV>
    decreases i,
{
    if i <= 0 {
        Seq::empty()
    } else {
        call_args_code(args, env, i - 1) + load_code(args[i - 1], env)
            + seq![store(Reg::Rsp, (-8 * (i + 1 + env.len())) as i32, Reg32::Reg(Reg::Rax))]
    }
}

pub open spec fn imms_ok(args: Seq<ImmExp>, env: Seq<(String, i32)>) -> bool {
    forall|k: int| 0 <= k < args.len() ==> imm_ok(#[trigger] args[k], env)
}

/// The code of `e` in the scope `env`, if it can be compiled: the instructions
/// in place, the code that goes after the enclosing function (local function
/// definitions), and the scope afterwards. A `let` extends the scope for good.
pub open spec fn cg(e: SeqExp<u32>, env: Seq<(String, i32)>, is_def: bool) -> Option<(Seq<InstrV>, Seq<InstrV>, Seq<(String, i32)>)>
    decreases e, 1nat, 0nat,
{
    match e {
        SeqExp::Imm(i, _) => if imm_ok(i, env) { Some((load_code(i, env), Seq::empty(), env)) } else { None },
        SeqExp::Prim(op, args, ann) => if prim_ok(op, args@, env) {
            Some((prim_code(op, args@, env, ann), Seq::empty(), env))
        } else {
            None
        },
        SeqExp::Let { var, bound_exp, body, .. } => match cg(*bound_exp, env, false) {
            Some((c1, l1, env1)) => if env1.len() <= 268435455 {
                let off = (-8 * (env1.len() + 1)) as i32;
                match cg(*body, env1.push((var, off)), false) {
                    Some((c2, l2, env2)) => Some((
                        seq![InstrV::Comment("let_def"@)] + c1 + seq![
                            store(Reg::Rsp, off, Reg32::Reg(Reg::Rax)),
                            InstrV::Comment("let_def_end"@),
                            InstrV::Comment("let_body"@),
                        ] + c2 + seq![InstrV::Comment("let_body_end"@)],
                        l1 + l2,
                        env2,
                    )),
                    None => None,
                }
            } else {
                None
            },
            None => None,
        },
        SeqExp::If { cond, thn, els, ann } => if !imm_ok(cond, env) { None } else {
            match cg(*thn, env, false) {
                Some((c1, l1, env1)) => match cg(*els, env1, false) {
                    Some((c2, l2, env2)) => {
                        let else_lab = "if_false"@ + dec_nat(ann as nat);
                        let done_lab = "done"@ + dec_nat(ann as nat);
                        Some((
                            load_code(cond, env) + check_if_bool_code() + seq![
                                InstrV::Comment("cond"@),
                                mov_ru(Reg::R10, SNAKE_FLS),
                                InstrV::Cmp(rr(Reg::Rax, Reg::R10)),
                                InstrV::Je(to_label(else_lab)),
                            ] + c1 + seq![InstrV::Jmp(to_label(done_lab)), InstrV::Label(else_lab)]
                            + c2 + seq![InstrV::Label(done_lab)],
                            l1 + l2,
                            env2,
                        ))
                    },
                    None => None,
                },
                None => None,
            }
        },
        SeqExp::FunDefs { decls, body, .. } => match cg(*body, env, false) {
            Some((c, l, env1)) => match cg_decls(decls@, decls@.len() as int) {
                Some(dl) => Some((
                    seq![InstrV::Comment("fun_body"@)] + c + seq![InstrV::Comment("fun_body_end"@)]
                        + (if is_def { seq![InstrV::Ret] } else { Seq::empty() }),
                    l + dl,
                    env1,
                )),
                None => None,
            },
            None => None,
        },
        SeqExp::InternalTailCall(name, args, _) => if imms_ok(args@, env) && args@.len() <= 268435456 {
            Some((tail_args_code(args@, env, args@.len() as int) + seq![InstrV::Jmp(to_label(name@))], Seq::empty(), env))
        } else {
            None
        },
        SeqExp::ExternalCall { fun, args, is_tail, .. } => {
            let fun_ok = match fun {
                VarOrLabel::Var(x) => env_lookup(env, x@) is Some,
                VarOrLabel::Label(_) => true,
            };
            let pre = match fun {
                VarOrLabel::Var(x) => seq![mov_rm(Reg::R8, Reg::Rsp, env_lookup(env, x@).unwrap())],
                VarOrLabel::Label(_) => Seq::empty(),
            };
            let target = match fun {
                VarOrLabel::Var(_) => JmpArgV::Reg(Reg::R8),
                VarOrLabel::Label(l) => to_label(l@),
            };
            if !fun_ok || !imms_ok(args@, env) {
                None
            } else if is_tail {
                if args@.len() <= 268435456 {
                    Some((pre + tail_args_code(args@, env, args@.len() as int) + seq![InstrV::Jmp(target)], Seq::empty(), env))
                } else {
                    None
                }
            } else if args@.len() + 1 + env.len() <= 268435456 {
                let space = snake_space_needed_of(env.len() as int) as i32;
                Some((
                    pre + call_args_code(args@, env, args@.len() as int) + seq![
                        InstrV::Sub(rs(Reg::Rsp, space)),
                        InstrV::Call(target),
                        InstrV::Add(rs(Reg::Rsp, space)),
                    ],
                    Seq::empty(),
                    env,
                ))
            } else {
                None
            }
        },
        SeqExp::MakeClosure { arity, label, env: clo, .. } => if arity <= u32::MAX && imm_ok(clo, env) {
            Some((
                seq![
                    InstrV::Comment("make_closure"@),
                    store(Reg::R15, 0, Reg32::Unsigned(arity as u32)),
                    InstrV::RelativeLoadAddress(Reg::R9, label@),
                    store(Reg::R15, 8, Reg32::Reg(Reg::R9)),
                ] + load_code(clo, env) + seq![
                    store(Reg::R15, 16, Reg32::Reg(Reg::Rax)),
                    mov_rr(Reg::Rax, Reg::R15),
                    InstrV::Add(rs(Reg::Rax, 3)),
                    InstrV::Add(rs(Reg::R15, 24)),
                ],
                Seq::empty(),
                env,
            ))
        } else {
            None
        },
        SeqExp::Semicolon { .. } => None,
    }
}

/// The code of the first `i` local function definitions: each is its label,
/// its body in the scope of its parameters, a return, then the code of the
/// definitions local to it.
pub open spec fn cg_decls(ds: Seq<FunDecl<SeqExp<u32>, u32>>, i: int) -> Option<Seq<InstrV>>
    decreases ds, 0nat, i,
{
    if i <= 0 || i > ds.len() {
        Some(Seq::empty())
    } else {
        match cg_decls(ds, i - 1) {
            Some(prev) => {
                let d = ds[i - 1];
                if d.parameters@.len() <= 268435456 {
                    match cg(d.body, param_scope(d.parameters@, d.parameters@.len() as int), false) {
                        Some((c, l, _)) => Some(prev + seq![InstrV::Label(d.name@)] + c + seq![InstrV::Ret] + l),
                        None => None,
                    }
                } else {
                    None
                }
            },
            None => None,
        }
    }
}

/// The code of a whole program: each top-level function as a local function
/// definition is, then `main`.
pub open spec fn program_code(p: SeqProg<u32>) -> Option<Seq<InstrV>> {
    match cg_decls(p.funs@, p.funs@.len() as int) {
        Some(funs) => match cg(p.main, Seq::empty(), p.main is FunDefs) {
            Some((c, l, _)) => Some(funs + seq![InstrV::Label("main"@)] + c
                + (if p.main is FunDefs { Seq::empty() } else { seq![InstrV::Ret] }) + l),
            None => None,
        },
        None => None,
    }
}


// ---------------------------------------------------------------------------
// Building instruction lists.

/// `a` followed by `b`.
fn cat(a: Vec<Instr>, b: Vec<Instr>) -> (r: Vec<Instr>)
    ensures
        instrs_view(r@) == instrs_view(a@) + instrs_view(b@),
{
    let mut r = a;
    emit_all(&mut r, b);
    r
}

/// A list of one instruction.
fn one(i: Instr) -> (r: Vec<Instr>)
    ensures
        instrs_view(r@) == seq![i@],
{
    vec![i]
}

fn none() -> (r: Vec<Instr>)
    ensures
        instrs_view(r@) == Seq::<InstrV>::empty(),
{
    Vec::new()
}

fn text(s: &str) -> (r: String)
    ensures
        r@ == s@,
{
    String::from_str(s)
}

/// A label made of a prefix and a number.
fn numbered(prefix: &str, n: u32) -> (r: String)
    ensures
        r@ == prefix@ + dec_nat(n as nat),
{
    let mut r = String::from_str(prefix);
    push_dec_u64(&mut r, n as u64);
    r
}

fn jump_to(s: &str) -> (r: JmpArg)
    ensures
        r@ == to_label(s@),
{
    JmpArg::Label(text(s))
}

fn mov_reg(d: Reg, s: Reg) -> (r: Instr)
    ensures
        r@ == mov_rr(d, s),
{
    Instr::Mov(MovArgs::ToReg(d, Arg64::Reg(s)))
}

fn mov_unsigned(d: Reg, u: u64) -> (r: Instr)
    ensures
        r@ == mov_ru(d, u),
{
    Instr::Mov(MovArgs::ToReg(d, Arg64::Unsigned(u)))
}

fn mov_mem(d: Reg, base: Reg, off: i32) -> (r: Instr)
    ensures
        r@ == mov_rm(d, base, off),
{
    Instr::Mov(MovArgs::ToReg(d, Arg64::Mem(MemRef { reg: base, offset: Offset::Constant(off) })))
}

fn store_at(base: Reg, off: i32, src: Reg32) -> (r: Instr)
    ensures
        r@ == store(base, off, src),
{
    Instr::Mov(MovArgs::ToMem(MemRef { reg: base, offset: Offset::Constant(off) }, src))
}

fn comment(s: &str) -> (r: Instr)
    ensures
        r@ == InstrV::Comment(s@),
{
    Instr::Comment(text(s))
}

pub fn check_ari_num() -> (is: Vec<Instr>)
    ensures
        instrs_view(is@) == check_ari_num_code(),
{
    vec![Instr::Test(BinArgs::ToReg(Reg::Rax, Arg32::Unsigned(1))), Instr::Jnz(jump_to("error_ari_not_number"))]
}

pub fn check_com_num() -> (is: Vec<Instr>)
    ensures
        instrs_view(is@) == check_com_num_code(),
{
    vec![Instr::Test(BinArgs::ToReg(Reg::Rax, Arg32::Unsigned(1))), Instr::Jnz(jump_to("error_com_not_number"))]
}

pub fn check_index_num() -> (is: Vec<Instr>)
    ensures
        instrs_view(is@) == check_index_num_code(),
{
    vec![Instr::Test(BinArgs::ToReg(Reg::R14, Arg32::Unsigned(1))), Instr::Jnz(jump_to("error_index_not_number"))]
}

fn check_array_tag(err: &str) -> (is: Vec<Instr>)
    ensures
        instrs_view(is@) == check_array_tag_code(err@),
{
    vec![
        mov_reg(Reg::R9, Reg::Rax),
        Instr::Xor(BinArgs::ToReg(Reg::R9, Arg32::Unsigned(1))),
        Instr::Test(BinArgs::ToReg(Reg::R9, Arg32::Unsigned(7))),
        Instr::Jnz(jump_to(err)),
    ]
}

pub fn check_index_into_array() -> (is: Vec<Instr>)
    ensures
        instrs_view(is@) == check_index_into_array_code(),
{
    check_array_tag("error_index_into_nonarray")
}

pub fn check_length_into_array() -> (is: Vec<Instr>)
    ensures
        instrs_view(is@) == check_length_into_array_code(),
{
    check_array_tag("error_length_into_nonarray")
}

pub fn check_index_bound() -> (is: Vec<Instr>)
    ensures
        instrs_view(is@) == check_index_bound_code(),
{
    vec![
        Instr::Sar(BinArgs::ToReg(Reg::R14, Arg32::Unsigned(1))),
        Instr::Cmp(BinArgs::ToReg(Reg::R14, Arg32::Signed(0))),
        Instr::Jl(jump_to("error_index_out_of_bound")),
        Instr::Cmp(BinArgs::ToReg(Reg::R14, Arg32::Mem(MemRef { reg: Reg::Rax, offset: Offset::Constant(0) }))),
        Instr::Jge(jump_to("error_index_out_of_bound")),
    ]
}

fn check_bool(err: &str) -> (is: Vec<Instr>)
    ensures
        instrs_view(is@) == check_bool_code(err@),
{
    vec![
        mov_reg(Reg::R9, Reg::Rax),
        Instr::Xor(BinArgs::ToReg(Reg::R9, Arg32::Unsigned(7))),
        Instr::Test(BinArgs::ToReg(Reg::R9, Arg32::Unsigned(7))),
        Instr::Jnz(jump_to(err)),
    ]
}

pub fn check_if_bool() -> (is: Vec<Instr>)
    ensures
        instrs_view(is@) == check_if_bool_code(),
{
    check_bool("error_if_not_boolean")
}

pub fn check_logic_bool() -> (is: Vec<Instr>)
    ensures
        instrs_view(is@) == check_logic_bool_code(),
{
    check_bool("error_logic_not_boolean")
}

pub fn check_overflow() -> (is: Vec<Instr>)
    ensures
        instrs_view(is@) == check_overflow_code(),
{
    vec![Instr::Jo(jump_to("error_overflow"))]
}

/// The arithmetic or comparison core of a binary primitive.
pub fn compile_prim(op: &Prim) -> (is: Vec<Instr>)
    requires
        has_core(*op),
    ensures
        instrs_view(is@) == prim_core_code(*op),
{
    match op {
        Prim::Add1 => vec![Instr::Add(BinArgs::ToReg(Reg::Rax, Arg32::Signed(2)))],
        Prim::Sub1 => vec![Instr::Sub(BinArgs::ToReg(Reg::Rax, Arg32::Signed(2)))],
        Prim::Add => vec![Instr::Add(BinArgs::ToReg(Reg::Rax, Arg32::Reg(Reg::R10)))],
        Prim::Sub => vec![Instr::Sub(BinArgs::ToReg(Reg::Rax, Arg32::Reg(Reg::R10)))],
        Prim::Mul => vec![Instr::IMul(BinArgs::ToReg(Reg::Rax, Arg32::Reg(Reg::R10)))],
        Prim::And => vec![Instr::And(BinArgs::ToReg(Reg::Rax, Arg32::Reg(Reg::R10)))],
        Prim::Or => vec![Instr::Or(BinArgs::ToReg(Reg::Rax, Arg32::Reg(Reg::R10)))],
        Prim::Gt | Prim::Le => vec![Instr::Sub(BinArgs::ToReg(Reg::Rax, Arg32::Reg(Reg::R10)))],
        _ => vec![Instr::Sub(BinArgs::ToReg(Reg::R10, Arg32::Reg(Reg::Rax))), rax_equal_r10()],
    }
}

pub fn rax_equal_r10() -> (i: Instr)
    ensures
        i@ == mov_rr(Reg::Rax, Reg::R10),
{
    Instr::Mov(MovArgs::ToReg(Reg::Rax, Arg64::Reg(Reg::R10)))
}

pub fn need_flip(op: &Prim) -> (is: Vec<Instr>)
    ensures
        instrs_view(is@) == need_flip_code(*op),
{
    match op {
        Prim::IsNum | Prim::Ge | Prim::Le | Prim::Neq => rax_flip(),
        _ => none(),
    }
}

pub fn rax_flip() -> (is: Vec<Instr>)
    ensures
        instrs_view(is@) == rax_flip_code(),
{
    vec![
        comment("flip"),
        mov_unsigned(Reg::R10, FLIP_MASK),
        Instr::Xor(BinArgs::ToReg(Reg::Rax, Arg32::Reg(Reg::R10))),
    ]
}

/// A length as a 32-bit number.
pub fn usize_to_i32(x: usize) -> (r: i32)
    requires
        x <= i32::MAX,
    ensures
        r == x,
{
    x as i32
}

pub fn space_needed(env: &Vec<(String, i32)>) -> (r: i32)
    requires
        env@.len() <= i32::MAX,
        fits_i32(space_needed_of(env@.len() as int)),
    ensures
        r == space_needed_of(env@.len() as int),
{
    let res = usize_to_i32(env.len());
    if res % 2 == 0 {
        res * 8
    } else {
        res * 8 + 8
    }
}

pub fn snake_space_needed(env: &Vec<(String, i32)>) -> (r: i32)
    requires
        env@.len() <= i32::MAX,
        fits_i32(snake_space_needed_of(env@.len() as int)),
    ensures
        r == snake_space_needed_of(env@.len() as int),
{
    let res = usize_to_i32(env.len());
    res * 8
}

/// The operand that holds an immediate.
fn imm_to_arg64(i: &ImmExp, env: &Vec<(String, i32)>) -> (r: Arg64)
    requires
        imm_ok(*i, env@),
    ensures
        r@ == imm_arg(*i, env@),
{
    match i {
        ImmExp::Num(n) => Arg64::Signed(*n << 1),
        ImmExp::Bool(b) => if *b { Arg64::Unsigned(SNAKE_TRU) } else { Arg64::Unsigned(SNAKE_FLS) },
        ImmExp::Var(name) => {
            let offset = env_get::<u32>(env, name.as_str()).unwrap();
            Arg64::Mem(MemRef { reg: Reg::Rsp, offset: Offset::Constant(offset) })
        },
        ImmExp::Float(_) => Arg64::Signed(0),
    }
}

/// Loads an immediate into `rax`.
fn load_imm(i: &ImmExp, env: &Vec<(String, i32)>) -> (is: Vec<Instr>)
    requires
        imm_ok(*i, env@),
    ensures
        instrs_view(is@) == load_code(*i, env@),
{
    one(Instr::Mov(MovArgs::ToReg(Reg::Rax, imm_to_arg64(i, env))))
}


fn flip_r10() -> (is: Vec<Instr>)
    ensures
        instrs_view(is@) == seq![mov_ru(Reg::R8, BOOL_MASK), InstrV::Xor(rr(Reg::R10, Reg::R8))],
{
    vec![mov_unsigned(Reg::R8, BOOL_MASK), Instr::Xor(BinArgs::ToReg(Reg::R10, Arg32::Reg(Reg::R8)))]
}

fn tag_test(name: &str, flip_low: bool, flip_mid: bool) -> (is: Vec<Instr>)
    ensures
        instrs_view(is@) == tag_test_code(name@, flip_low, flip_mid),
{
    let a = vec![
        comment(name),
        mov_reg(Reg::R10, Reg::Rax),
        Instr::Shl(BinArgs::ToReg(Reg::R10, Arg32::Unsigned(63))),
    ];
    let b = vec![
        Instr::Shl(BinArgs::ToReg(Reg::Rax, Arg32::Unsigned(1))),
        Instr::Shr(BinArgs::ToReg(Reg::Rax, Arg32::Unsigned(1))),
        Instr::Or(BinArgs::ToReg(Reg::Rax, Arg32::Reg(Reg::R10))),
        mov_reg(Reg::R9, Reg::Rax),
        mov_reg(Reg::R10, Reg::Rax),
        Instr::Shl(BinArgs::ToReg(Reg::R10, Arg32::Unsigned(62))),
    ];
    let c = vec![
        Instr::Shl(BinArgs::ToReg(Reg::Rax, Arg32::Unsigned(1))),
        Instr::Shr(BinArgs::ToReg(Reg::Rax, Arg32::Unsigned(1))),
        Instr::Or(BinArgs::ToReg(Reg::Rax, Arg32::Reg(Reg::R10))),
        Instr::And(BinArgs::ToReg(Reg::R9, Arg32::Reg(Reg::Rax))),
        mov_reg(Reg::R10, Reg::Rax),
        Instr::Shl(BinArgs::ToReg(Reg::R10, Arg32::Unsigned(61))),
    ];
    let low = if flip_low { flip_r10() } else { none() };
    let mid = if flip_mid { flip_r10() } else { none() };
    cat(cat(cat(cat(a, low), b), mid), c)
}

/// The end of the tests for a tag: fold in the last bit, then make a boolean.
fn tag_test_tail(flip: bool) -> (is: Vec<Instr>)
    ensures
        instrs_view(is@) == (if flip { seq![mov_ru(Reg::R8, BOOL_MASK), InstrV::Xor(rr(Reg::R10, Reg::R8))] } else { Seq::empty() })
            + seq![
                InstrV::Shl(ru(Reg::Rax, 1)),
                InstrV::Shr(ru(Reg::Rax, 1)),
                InstrV::Or(rr(Reg::Rax, Reg::R10)),
                InstrV::And(rr(Reg::R9, Reg::Rax)),
                mov_ru(Reg::R10, TAG_MASK),
                InstrV::Or(rr(Reg::R9, Reg::R10)),
                mov_rr(Reg::Rax, Reg::R9),
            ],
{
    let first = if flip { flip_r10() } else { none() };
    cat(first, vec![
        Instr::Shl(BinArgs::ToReg(Reg::Rax, Arg32::Unsigned(1))),
        Instr::Shr(BinArgs::ToReg(Reg::Rax, Arg32::Unsigned(1))),
        Instr::Or(BinArgs::ToReg(Reg::Rax, Arg32::Reg(Reg::R10))),
        Instr::And(BinArgs::ToReg(Reg::R9, Arg32::Reg(Reg::Rax))),
        mov_unsigned(Reg::R10, TAG_MASK),
        Instr::Or(BinArgs::ToReg(Reg::R9, Arg32::Reg(Reg::R10))),
        mov_reg(Reg::Rax, Reg::R9),
    ])
}

fn array_slot() -> (a: Arg64)
    ensures
        a@ == Arg64V::Mem(MemRef { reg: Reg::Rax, offset: Offset::Computed { reg: Reg::R14, factor: 8, constant: 8 } }),
{
    Arg64::Mem(MemRef { reg: Reg::Rax, offset: Offset::Computed { reg: Reg::R14, factor: 8, constant: 8 } })
}

/// The code that stores the elements of a new array after its length.
fn array_elems(args: &Vec<ImmExp>, env: &Vec<(String, i32)>) -> (is: Vec<Instr>)
    requires
        args@.len() <= 268435454,
        forall|k: int| 0 <= k < args@.len() ==> imm_ok(#[trigger] args@[k], env@),
    ensures
        instrs_view(is@) == array_elems_code(args@, env@, args@.len() as int),
{
    let mut is: Vec<Instr> = Vec::new();
    let mut i: i32 = 0;
    let mut k: usize = 0;
    while k < args.len()
        invariant
            k <= args@.len(),
            args@.len() <= 268435454,
            i == k,
            forall|k: int| 0 <= k < args@.len() ==> imm_ok(#[trigger] args@[k], env@),
            instrs_view(is@) == array_elems_code(args@, env@, k as int),
        decreases args@.len() - k,
    {
        i = i + 1;
        let load = load_imm(&args[k], env);
        is = cat(cat(is, load), one(store_at(Reg::R15, i * 8, Reg32::Reg(Reg::Rax))));
        k = k + 1;
    }
    is
}

fn compile_add1_sub1(op: &Prim, exp: &Vec<ImmExp>, env: &Vec<(String, i32)>, ann: u32) -> (is: Vec<Instr>)
    requires
        prim_ok(*op, exp@, env@),
        matches!(*op, Prim::Add1 | Prim::Sub1),
    ensures
        instrs_view(is@) == add1_sub1_code(*op, exp@, env@, ann),
{

        assert(imm_ok(exp@[0], env@));
        let fst = load_imm(&exp[0], env);
        cat(cat(cat(cat(fst, one(comment("add1_sub1"))), check_ari_num()), compile_prim(op)), check_overflow())
}

fn compile_add_sub_mul(op: &Prim, exp: &Vec<ImmExp>, env: &Vec<(String, i32)>, ann: u32) -> (is: Vec<Instr>)
    requires
        prim_ok(*op, exp@, env@),
        matches!(*op, Prim::Add | Prim::Sub | Prim::Mul),
    ensures
        instrs_view(is@) == add_sub_mul_code(*op, exp@, env@, ann),
{

        assert(imm_ok(exp@[0], env@) && imm_ok(exp@[1], env@));
        let fst = load_imm(&exp[0], env);
        let snd = imm_to_arg64(&exp[1], env);
        let mid = vec![
            mov_reg(Reg::R10, Reg::Rax),
            Instr::Sar(BinArgs::ToReg(Reg::R10, Arg32::Unsigned(1))),
            Instr::Mov(MovArgs::ToReg(Reg::Rax, snd)),
        ];
        let swap = vec![
            Instr::Sar(BinArgs::ToReg(Reg::Rax, Arg32::Unsigned(1))),
            mov_reg(Reg::R11, Reg::Rax),
            mov_reg(Reg::Rax, Reg::R10),
            mov_reg(Reg::R10, Reg::R11),
        ];
        let head = cat(cat(cat(cat(fst, one(comment("add_sub_mul"))), check_ari_num()), mid), check_ari_num());
        cat(cat(cat(cat(cat(head, swap), compile_prim(op)), check_overflow()),
            one(Instr::Shl(BinArgs::ToReg(Reg::Rax, Arg32::Unsigned(1))))), check_overflow())
}

fn compile_not(op: &Prim, exp: &Vec<ImmExp>, env: &Vec<(String, i32)>, ann: u32) -> (is: Vec<Instr>)
    requires
        prim_ok(*op, exp@, env@),
        matches!(*op, Prim::Not),
    ensures
        instrs_view(is@) == not_code(*op, exp@, env@, ann),
{

        assert(imm_ok(exp@[0], env@));
        let fst = load_imm(&exp[0], env);
        cat(cat(cat(fst, one(comment("not"))), check_logic_bool()),
            vec![mov_unsigned(Reg::R10, BOOL_MASK), Instr::Xor(BinArgs::ToReg(Reg::Rax, Arg32::Reg(Reg::R10)))])
}

fn compile_and_or(op: &Prim, exp: &Vec<ImmExp>, env: &Vec<(String, i32)>, ann: u32) -> (is: Vec<Instr>)
    requires
        prim_ok(*op, exp@, env@),
        matches!(*op, Prim::And | Prim::Or),
    ensures
        instrs_view(is@) == and_or_code(*op, exp@, env@, ann),
{

        assert(imm_ok(exp@[0], env@) && imm_ok(exp@[1], env@));
        let fst = load_imm(&exp[0], env);
        let snd = imm_to_arg64(&exp[1], env);
        let mid = vec![mov_reg(Reg::R10, Reg::Rax), Instr::Mov(MovArgs::ToReg(Reg::Rax, snd))];
        cat(cat(cat(cat(cat(fst, one(comment("and_or"))), check_logic_bool()), mid), check_logic_bool()), compile_prim(op))
}

fn compile_eq(op: &Prim, exp: &Vec<ImmExp>, env: &Vec<(String, i32)>, ann: u32) -> (is: Vec<Instr>)
    requires
        prim_ok(*op, exp@, env@),
        matches!(*op, Prim::Eq | Prim::Neq),
    ensures
        instrs_view(is@) == eq_code(*op, exp@, env@, ann),
{

        assert(imm_ok(exp@[0], env@) && imm_ok(exp@[1], env@));
        let fst = load_imm(&exp[0], env);
        let snd = imm_to_arg64(&exp[1], env);
        let body = vec![
            comment("eq or neq"),
            mov_reg(Reg::R10, Reg::Rax),
            Instr::Mov(MovArgs::ToReg(Reg::Rax, snd)),
            Instr::Cmp(BinArgs::ToReg(Reg::R10, Arg32::Reg(Reg::Rax))),
            mov_unsigned(Reg::Rax, SNAKE_TRU),
            Instr::Jz(JmpArg::Label(numbered("eq_done", ann))),
            mov_unsigned(Reg::Rax, SNAKE_FLS),
            Instr::Label(numbered("eq_done", ann)),
        ];
        cat(cat(fst, body), need_flip(op))
}

fn compile_print(op: &Prim, exp: &Vec<ImmExp>, env: &Vec<(String, i32)>, ann: u32) -> (is: Vec<Instr>)
    requires
        prim_ok(*op, exp@, env@),
        matches!(*op, Prim::Print),
    ensures
        instrs_view(is@) == print_code(*op, exp@, env@, ann),
{

        assert(imm_ok(exp@[0], env@));
        let fst = load_imm(&exp[0], env);
        let space = space_needed(env);
        cat(fst, vec![
            comment("print"),
            mov_reg(Reg::Rdi, Reg::Rax),
            Instr::Sub(BinArgs::ToReg(Reg::Rsp, Arg32::Signed(space))),
            Instr::Call(jump_to("print_snake_val")),
            Instr::Add(BinArgs::ToReg(Reg::Rsp, Arg32::Signed(space))),
        ])
}

fn compile_is_bool(op: &Prim, exp: &Vec<ImmExp>, env: &Vec<(String, i32)>, ann: u32) -> (is: Vec<Instr>)
    requires
        prim_ok(*op, exp@, env@),
        matches!(*op, Prim::IsBool),
    ensures
        instrs_view(is@) == is_bool_code(*op, exp@, env@, ann),
{

        assert(imm_ok(exp@[0], env@));
        let fst = load_imm(&exp[0], env);
        cat(cat(fst, tag_test("isbool", false, false)), tag_test_tail(false))
}

fn compile_is_num(op: &Prim, exp: &Vec<ImmExp>, env: &Vec<(String, i32)>, ann: u32) -> (is: Vec<Instr>)
    requires
        prim_ok(*op, exp@, env@),
        matches!(*op, Prim::IsNum),
    ensures
        instrs_view(is@) == is_num_code(*op, exp@, env@, ann),
{

        assert(imm_ok(exp@[0], env@));
        let fst = load_imm(&exp[0], env);
        cat(fst, vec![
            comment("isnum"),
            mov_reg(Reg::R10, Reg::Rax),
            Instr::Shl(BinArgs::ToReg(Reg::R10, Arg32::Unsigned(63))),
            mov_unsigned(Reg::R8, BOOL_MASK),
            Instr::Xor(BinArgs::ToReg(Reg::R10, Arg32::Reg(Reg::R8))),
            Instr::Shl(BinArgs::ToReg(Reg::Rax, Arg32::Unsigned(1))),
            Instr::Shr(BinArgs::ToReg(Reg::Rax, Arg32::Unsigned(1))),
            Instr::Or(BinArgs::ToReg(Reg::Rax, Arg32::Reg(Reg::R10))),
            mov_unsigned(Reg::R10, TAG_MASK),
            Instr::Or(BinArgs::ToReg(Reg::Rax, Arg32::Reg(Reg::R10))),
        ])
}

fn compile_is_array(op: &Prim, exp: &Vec<ImmExp>, env: &Vec<(String, i32)>, ann: u32) -> (is: Vec<Instr>)
    requires
        prim_ok(*op, exp@, env@),
        matches!(*op, Prim::IsArray),
    ensures
        instrs_view(is@) == is_array_code(*op, exp@, env@, ann),
{

        assert(imm_ok(exp@[0], env@));
        let fst = load_imm(&exp[0], env);
        cat(cat(fst, tag_test("isarray", false, true)), tag_test_tail(true))
}

fn compile_is_fun(op: &Prim, exp: &Vec<ImmExp>, env: &Vec<(String, i32)>, ann: u32) -> (is: Vec<Instr>)
    requires
        prim_ok(*op, exp@, env@),
        matches!(*op, Prim::IsFun),
    ensures
        instrs_view(is@) == is_fun_code(*op, exp@, env@, ann),
{

        assert(imm_ok(exp@[0], env@));
        let fst = load_imm(&exp[0], env);
        cat(cat(fst, tag_test("isfun", false, false)), tag_test_tail(true))
}

fn compile_compare(op: &Prim, exp: &Vec<ImmExp>, env: &Vec<(String, i32)>, ann: u32) -> (is: Vec<Instr>)
    requires
        prim_ok(*op, exp@, env@),
        matches!(*op, Prim::Gt | Prim::Lt | Prim::Ge | Prim::Le),
    ensures
        instrs_view(is@) == compare_code(*op, exp@, env@, ann),
{

        assert(imm_ok(exp@[0], env@) && imm_ok(exp@[1], env@));
        let fst = load_imm(&exp[0], env);
        let snd = imm_to_arg64(&exp[1], env);
        let mid = vec![
            Instr::Sar(BinArgs::ToReg(Reg::Rax, Arg32::Unsigned(1))),
            mov_reg(Reg::R10, Reg::Rax),
            Instr::Mov(MovArgs::ToReg(Reg::Rax, snd)),
        ];
        let tail = vec![
            mov_unsigned(Reg::R11, BOOL_MASK),
            Instr::And(BinArgs::ToReg(Reg::Rax, Arg32::Reg(Reg::R11))),
            mov_unsigned(Reg::R11, TAG_MASK),
            Instr::Or(BinArgs::ToReg(Reg::Rax, Arg32::Reg(Reg::R11))),
        ];
        let head = cat(cat(cat(cat(fst, one(comment("gt_lt_ge_le"))), check_com_num()), mid), check_com_num());
        cat(cat(cat(cat(head, one(Instr::Sar(BinArgs::ToReg(Reg::Rax, Arg32::Unsigned(1))))), compile_prim(op)), tail), need_flip(op))
}

fn compile_array_get(op: &Prim, exp: &Vec<ImmExp>, env: &Vec<(String, i32)>, ann: u32) -> (is: Vec<Instr>)
    requires
        prim_ok(*op, exp@, env@),
        matches!(*op, Prim::ArrayGet),
    ensures
        instrs_view(is@) == array_get_code(*op, exp@, env@, ann),
{

        assert(imm_ok(exp@[0], env@) && imm_ok(exp@[1], env@));
        let snd = load_imm(&exp[1], env);
        let fst = load_imm(&exp[0], env);
        let a = cat(cat(cat(one(comment("array_get")), snd), one(mov_reg(Reg::R14, Reg::Rax))), check_index_num());
        let b = cat(cat(cat(cat(a, fst), check_index_into_array()), one(Instr::Sub(BinArgs::ToReg(Reg::Rax, Arg32::Signed(1))))), check_index_bound());
        cat(b, one(Instr::Mov(MovArgs::ToReg(Reg::Rax, array_slot()))))
}

fn compile_array_set(op: &Prim, exp: &Vec<ImmExp>, env: &Vec<(String, i32)>, ann: u32) -> (is: Vec<Instr>)
    requires
        prim_ok(*op, exp@, env@),
        matches!(*op, Prim::ArraySet),
    ensures
        instrs_view(is@) == array_set_code(*op, exp@, env@, ann),
{

        assert(imm_ok(exp@[0], env@) && imm_ok(exp@[1], env@) && imm_ok(exp@[2], env@));
        let snd = load_imm(&exp[1], env);
        let fst = load_imm(&exp[0], env);
        let third = load_imm(&exp[2], env);
        let a = cat(cat(cat(one(comment("array_set")), snd), one(mov_reg(Reg::R14, Reg::Rax))), check_index_num());
        let b = cat(cat(cat(cat(a, fst), check_index_into_array()), one(Instr::Sub(BinArgs::ToReg(Reg::Rax, Arg32::Signed(1))))), check_index_bound());
        let c = cat(cat(b, one(mov_reg(Reg::R9, Reg::Rax))), third);
        cat(c, vec![
            Instr::Mov(MovArgs::ToMem(MemRef {
                reg: Reg::R9,
                offset: Offset::Computed { reg: Reg::R14, factor: 8, constant: 8 },
            }, Reg32::Reg(Reg::Rax))),
            mov_reg(Reg::Rax, Reg::R9),
            Instr::Add(BinArgs::ToReg(Reg::Rax, Arg32::Signed(1))),
        ])
}

fn compile_make_array(op: &Prim, exp: &Vec<ImmExp>, env: &Vec<(String, i32)>, ann: u32) -> (is: Vec<Instr>)
    requires
        prim_ok(*op, exp@, env@),
        matches!(*op, Prim::MakeArray),
    ensures
        instrs_view(is@) == make_array_code(*op, exp@, env@, ann),
{

        let n = exp.len() as i32;
        let head = vec![comment("make_array"), store_at(Reg::R15, 0, Reg32::Signed(n))];
        let elems = array_elems(exp, env);
        let i: i32 = n;
        cat(cat(head, elems), vec![
            mov_reg(Reg::Rax, Reg::R15),
            Instr::Add(BinArgs::ToReg(Reg::Rax, Arg32::Signed(1))),
            Instr::Add(BinArgs::ToReg(Reg::R15, Arg32::Signed(8 * (i + 1)))),
        ])
}

fn compile_length(op: &Prim, exp: &Vec<ImmExp>, env: &Vec<(String, i32)>, ann: u32) -> (is: Vec<Instr>)
    requires
        prim_ok(*op, exp@, env@),
        matches!(*op, Prim::Length),
    ensures
        instrs_view(is@) == length_code(*op, exp@, env@, ann),
{

        assert(imm_ok(exp@[0], env@));
        let fst = load_imm(&exp[0], env);
        cat(cat(fst, check_length_into_array()), vec![
            Instr::Sub(BinArgs::ToReg(Reg::Rax, Arg32::Signed(1))),
            mov_mem(Reg::Rax, Reg::Rax, 0),
            Instr::Shl(BinArgs::ToReg(Reg::Rax, Arg32::Unsigned(1))),
        ])
}

fn compile_check_arity(op: &Prim, exp: &Vec<ImmExp>, env: &Vec<(String, i32)>, ann: u32) -> (is: Vec<Instr>)
    requires
        prim_ok(*op, exp@, env@),
        matches!(*op, Prim::CheckArityAndUntag(_)),
    ensures
        instrs_view(is@) == check_arity_code(*op, exp@, env@, ann),
{
    let count = match op { Prim::CheckArityAndUntag(c) => c, _ => &0usize };

        assert(imm_ok(exp@[0], env@));
        let fst = load_imm(&exp[0], env);
        let c = *count as u32;
        cat(fst, vec![
            mov_reg(Reg::R9, Reg::Rax),
            Instr::Xor(BinArgs::ToReg(Reg::R9, Arg32::Unsigned(3))),
            Instr::Test(BinArgs::ToReg(Reg::R9, Arg32::Unsigned(7))),
            Instr::Jnz(jump_to("error_not_closure")),
            Instr::Sub(BinArgs::ToReg(Reg::Rax, Arg32::Signed(3))),
            mov_mem(Reg::R10, Reg::Rax, 0),
            Instr::Cmp(BinArgs::ToReg(Reg::R10, Arg32::Unsigned(c))),
            Instr::Jne(jump_to("error_wrong_arity")),
            Instr::Add(BinArgs::ToReg(Reg::Rax, Arg32::Signed(3))),
        ])
}

fn compile_get_code(op: &Prim, exp: &Vec<ImmExp>, env: &Vec<(String, i32)>, ann: u32) -> (is: Vec<Instr>)
    requires
        prim_ok(*op, exp@, env@),
        matches!(*op, Prim::GetCode),
    ensures
        instrs_view(is@) == get_code_code(*op, exp@, env@, ann),
{

        assert(imm_ok(exp@[0], env@));
        let fst = load_imm(&exp[0], env);
        cat(fst, vec![Instr::Sub(BinArgs::ToReg(Reg::Rax, Arg32::Signed(3))), mov_mem(Reg::Rax, Reg::Rax, 8)])
}

fn compile_get_env(op: &Prim, exp: &Vec<ImmExp>, env: &Vec<(String, i32)>, ann: u32) -> (is: Vec<Instr>)
    requires
        prim_ok(*op, exp@, env@),
        matches!(*op, Prim::GetEnv),
    ensures
        instrs_view(is@) == get_env_code(*op, exp@, env@, ann),
{

        assert(imm_ok(exp@[0], env@));
        let fst = load_imm(&exp[0], env);
        cat(fst, vec![Instr::Sub(BinArgs::ToReg(Reg::Rax, Arg32::Signed(3))), mov_mem(Reg::Rax, Reg::Rax, 16)])
}

/// The code of a primitive application.
fn compile_prim_app(op: &Prim, exp: &Vec<ImmExp>, env: &Vec<(String, i32)>, ann: u32) -> (is: Vec<Instr>)
    requires
        prim_ok(*op, exp@, env@),
    ensures
        instrs_view(is@) == prim_code(*op, exp@, env@, ann),
{
    match op {
        Prim::Add1 | Prim::Sub1 => compile_add1_sub1(op, exp, env, ann),
        Prim::Add | Prim::Sub | Prim::Mul => compile_add_sub_mul(op, exp, env, ann),
        Prim::Not => compile_not(op, exp, env, ann),
        Prim::And | Prim::Or => compile_and_or(op, exp, env, ann),
        Prim::Eq | Prim::Neq => compile_eq(op, exp, env, ann),
        Prim::Print => compile_print(op, exp, env, ann),
        Prim::IsBool => compile_is_bool(op, exp, env, ann),
        Prim::IsNum => compile_is_num(op, exp, env, ann),
        Prim::IsArray => compile_is_array(op, exp, env, ann),
        Prim::IsFun => compile_is_fun(op, exp, env, ann),
        Prim::Gt | Prim::Lt | Prim::Ge | Prim::Le => compile_compare(op, exp, env, ann),
        Prim::ArrayGet => compile_array_get(op, exp, env, ann),
        Prim::ArraySet => compile_array_set(op, exp, env, ann),
        Prim::MakeArray => compile_make_array(op, exp, env, ann),
        Prim::Length => compile_length(op, exp, env, ann),
        Prim::CheckArityAndUntag(_) => compile_check_arity(op, exp, env, ann),
        Prim::GetCode => compile_get_code(op, exp, env, ann),
        Prim::GetEnv => compile_get_env(op, exp, env, ann),
        _ => {
            proof { assert(false); }
            none()
        },
    }
}

/// The scope of a function body: its parameters at the slots just below `rsp`.
fn param_env(ps: &Vec<String>) -> (env: Vec<(String, i32)>)
    requires
        ps@.len() <= 268435456,
    ensures
        env@ == param_scope(ps@, ps@.len() as int),
{
    let mut env: Vec<(String, i32)> = Vec::new();
    let mut offset: i32 = 0;
    let mut k: usize = 0;
    while k < ps.len()
        invariant
            k <= ps@.len(),
            ps@.len() <= 268435456,
            offset == -(k as int),
            env@ == param_scope(ps@, k as int),
        decreases ps@.len() - k,
    {
        offset = offset - 1;
        env.push((ps[k].clone(), offset * 8));
        k = k + 1;
    }
    env
}

/// Stores the arguments of a tail call into the parameter slots.
fn tail_args(args: &Vec<ImmExp>, env: &Vec<(String, i32)>) -> (is: Vec<Instr>)
    requires
        args@.len() <= 268435456,
        imms_ok(args@, env@),
    ensures
        instrs_view(is@) == tail_args_code(args@, env@, args@.len() as int),
{
    let mut is: Vec<Instr> = Vec::new();
    let mut k: usize = 0;
    while k < args.len()
        invariant
            k <= args@.len(),
            args@.len() <= 268435456,
            imms_ok(args@, env@),
            instrs_view(is@) == tail_args_code(args@, env@, k as int),
        decreases args@.len() - k,
    {
        assert(imm_ok(args@[k as int], env@));
        let load = load_imm(&args[k], env);
        let slot: i32 = (k + 1) as i32;
        is = cat(cat(is, load), one(store_at(Reg::Rsp, -8 * slot, Reg32::Reg(Reg::Rax))));
        k = k + 1;
    }
    is
}

/// Stores the arguments of a call into the slots past the caller's frame.
fn call_args(args: &Vec<ImmExp>, env: &Vec<(String, i32)>) -> (is: Vec<Instr>)
    requires
        args@.len() + 1 + env@.len() <= 268435456,
        imms_ok(args@, env@),
    ensures
        instrs_view(is@) == call_args_code(args@, env@, args@.len() as int),
{
    let mut is: Vec<Instr> = Vec::new();
    let mut k: usize = 0;
    while k < args.len()
        invariant
            k <= args@.len(),
            args@.len() + 1 + env@.len() <= 268435456,
            imms_ok(args@, env@),
            instrs_view(is@) == call_args_code(args@, env@, k as int),
        decreases args@.len() - k,
    {
        assert(imm_ok(args@[k as int], env@));
        let load = load_imm(&args[k], env);
        let slot: i32 = (k + 2 + env.len()) as i32;
        is = cat(cat(is, load), one(store_at(Reg::Rsp, -8 * slot, Reg32::Reg(Reg::Rax))));
        k = k + 1;
    }
    is
}

/// Appends the code of local function definitions: each is its label, its
/// body in the scope of its parameters, a return, then the definitions local to it.
fn compile_decls(decls: &Vec<FunDecl<SeqExp<u32>, u32>>, last: &mut Vec<Instr>)
    requires
        cg_decls(decls@, decls@.len() as int) is Some,
    ensures
        instrs_view(final(last)@) == instrs_view(old(last)@) + cg_decls(decls@, decls@.len() as int).unwrap(),
    decreases decls,
{
    let ghost start = instrs_view(last@);
    let mut k: usize = 0;
    while k < decls.len()
        invariant
            k <= decls@.len(),
            cg_decls(decls@, decls@.len() as int) is Some,
            cg_decls(decls@, k as int) is Some,
            instrs_view(last@) == start + cg_decls(decls@, k as int).unwrap(),
        decreases decls@.len() - k,
    {
        proof {
            lemma_decls_settled(decls@, k + 1, decls@.len() as int);
        }
        let decl = &decls[k];
        let mut last2: Vec<Instr> = Vec::new();
        emit(last, Instr::Label(decl.name.clone()));
        let mut fun_env = param_env(&decl.parameters);
        let body = compile_to_instrs_helper(&decl.body, &mut fun_env, false, &mut last2);
        emit_all(last, body);
        emit(last, Instr::Ret);
        emit_all(last, last2);
        proof {
            let prev = cg_decls(decls@, k as int).unwrap();
            let (c, l, _) = cg(decl.body, param_scope(decl.parameters@, decl.parameters@.len() as int), false).unwrap();
            assert(instrs_view(last2@) == l) by {
                assert(instrs_view(Seq::<Instr>::empty()) =~= Seq::<InstrV>::empty());
                assert(Seq::<InstrV>::empty() + l =~= l);
            }
            assert(cg_decls(decls@, k + 1).unwrap() == prev + seq![InstrV::Label(decl.name@)] + c + seq![InstrV::Ret] + l);
            assert(instrs_view(last@) =~= start + cg_decls(decls@, k + 1).unwrap());
        }
        k = k + 1;
    }
}

/// A failed prefix of the definitions fails the whole list.
proof fn lemma_decls_settled(ds: Seq<FunDecl<SeqExp<u32>, u32>>, i: int, j: int)
    requires
        0 <= i <= j <= ds.len(),
        cg_decls(ds, j) is Some,
    ensures
        cg_decls(ds, i) is Some,
    decreases j - i,
{
    if i < j {
        lemma_decls_settled(ds, i, j - 1);
    }
}

/// The code of `e` in the scope `env`; the code of the local function
/// definitions in `e` goes to `last`, and a `let` extends `env` for good.
/// With `is_def`, a group of local definitions ends with a return.
#[verifier::loop_isolation(false)]
#[verifier::rlimit(50)]
fn compile_to_instrs_helper(e: &SeqExp<u32>, env: &mut Vec<(String, i32)>, is_def: bool, last: &mut Vec<Instr>) -> (is: Vec<Instr>)
    requires
        cg(*e, old(env)@, is_def) is Some,
    ensures
        instrs_view(is@) == cg(*e, old(env)@, is_def).unwrap().0,
        instrs_view(final(last)@) == instrs_view(old(last)@) + cg(*e, old(env)@, is_def).unwrap().1,
        final(env)@ == cg(*e, old(env)@, is_def).unwrap().2,
    decreases e,
{
    let ghost env0 = env@;
    let ghost last0 = instrs_view(last@);
    match e {
        SeqExp::Imm(imm, _) => {
            assert(last0 + Seq::<InstrV>::empty() =~= last0);
            load_imm(imm, env)
        },
        SeqExp::Prim(op, exp, ann) => {
            assert(last0 + Seq::<InstrV>::empty() =~= last0);
            compile_prim_app(op, exp, env, *ann)
        },
        SeqExp::Let { var, bound_exp, body, .. } => {
            let c1 = compile_to_instrs_helper(bound_exp, env, false, last);
            let ghost l1 = cg(**bound_exp, env0, false).unwrap().1;
            let offset = usize_to_i32(env.len());
            let slot: i32 = -8 * (offset + 1);
            env.push((var.clone(), slot));
            let c2 = compile_to_instrs_helper(body, env, false, last);
            proof {
                let l2 = cg(**body, cg(**bound_exp, env0, false).unwrap().2.push((*var, slot)), false).unwrap().1;
                assert(last0 + l1 + l2 =~= last0 + (l1 + l2));
            }
            let mid = vec![store_at(Reg::Rsp, slot, Reg32::Reg(Reg::Rax)), comment("let_def_end"), comment("let_body")];
            cat(cat(cat(cat(one(comment("let_def")), c1), mid), c2), one(comment("let_body_end")))
        },
        SeqExp::If { cond, thn, els, ann } => {
            let load = load_imm(cond, env);
            let c1 = compile_to_instrs_helper(thn, env, false, last);
            let ghost l1 = cg(**thn, env0, false).unwrap().1;
            let ghost env1 = cg(**thn, env0, false).unwrap().2;
            let c2 = compile_to_instrs_helper(els, env, false, last);
            proof {
                let l2 = cg(**els, env1, false).unwrap().1;
                assert(last0 + l1 + l2 =~= last0 + (l1 + l2));
            }
            let test = vec![
                comment("cond"),
                mov_unsigned(Reg::R10, SNAKE_FLS),
                Instr::Cmp(BinArgs::ToReg(Reg::Rax, Arg32::Reg(Reg::R10))),
                Instr::Je(JmpArg::Label(numbered("if_false", *ann))),
            ];
            let mid = vec![
                Instr::Jmp(JmpArg::Label(numbered("done", *ann))),
                Instr::Label(numbered("if_false", *ann)),
            ];
            let head = cat(cat(cat(load, check_if_bool()), test), c1);
            cat(cat(cat(head, mid), c2), one(Instr::Label(numbered("done", *ann))))
        },
        SeqExp::FunDefs { decls, body, .. } => {
            let c = compile_to_instrs_helper(body, env, false, last);
            let ghost l = cg(**body, env0, false).unwrap().1;
            compile_decls(decls, last);
            proof {
                let dl = cg_decls(decls@, decls@.len() as int).unwrap();
                assert(last0 + l + dl =~= last0 + (l + dl));
            }
            let ret = if is_def { one(Instr::Ret) } else { none() };
            cat(cat(cat(one(comment("fun_body")), c), one(comment("fun_body_end"))), ret)
        },
        SeqExp::InternalTailCall(name, args, _) => {
            assert(last0 + Seq::<InstrV>::empty() =~= last0);
            cat(tail_args(args, env), one(Instr::Jmp(JmpArg::Label(name.clone()))))
        },
        SeqExp::ExternalCall { fun, args, is_tail, .. } => {
            assert(last0 + Seq::<InstrV>::empty() =~= last0);
            let pre = match fun {
                VarOrLabel::Label(_) => none(),
                VarOrLabel::Var(name) => {
                    let offset = env_get::<u32>(env, name.as_str()).unwrap();
                    one(mov_mem(Reg::R8, Reg::Rsp, offset))
                },
            };
            let target = match fun {
                VarOrLabel::Label(name) => JmpArg::Label(name.clone()),
                VarOrLabel::Var(_) => JmpArg::Reg(Reg::R8),
            };
            if *is_tail {
                cat(cat(pre, tail_args(args, env)), one(Instr::Jmp(target)))
            } else {
                let stores = call_args(args, env);
                let space = snake_space_needed(env);
                cat(cat(pre, stores), vec![
                    Instr::Sub(BinArgs::ToReg(Reg::Rsp, Arg32::Signed(space))),
                    Instr::Call(target),
                    Instr::Add(BinArgs::ToReg(Reg::Rsp, Arg32::Signed(space))),
                ])
            }
        },
        SeqExp::MakeClosure { arity, label, env: clo_env, .. } => {
            assert(last0 + Seq::<InstrV>::empty() =~= last0);
            let head = vec![
                comment("make_closure"),
                store_at(Reg::R15, 0, Reg32::Unsigned(*arity as u32)),
                Instr::RelativeLoadAddress(Reg::R9, label.clone()),
                store_at(Reg::R15, 8, Reg32::Reg(Reg::R9)),
            ];
            let load = load_imm(clo_env, env);
            cat(cat(head, load), vec![
                store_at(Reg::R15, 16, Reg32::Reg(Reg::Rax)),
                mov_reg(Reg::Rax, Reg::R15),
                Instr::Add(BinArgs::ToReg(Reg::Rax, Arg32::Signed(3))),
                Instr::Add(BinArgs::ToReg(Reg::R15, Arg32::Signed(24))),
            ])
        },
        SeqExp::Semicolon { .. } => {
            proof { assert(false); }
            none()
        },
    }
}

/// The code of a whole program: each top-level function, then `main`, then
/// the local function definitions of `main`.
pub fn compile_to_instrs(e: &SeqProg<u32>) -> (res: Vec<Instr>)
    requires
        program_code(*e) is Some,
    ensures
        instrs_view(res@) == program_code(*e).unwrap(),
{
    let mut res: Vec<Instr> = Vec::new();
    compile_decls(&e.funs, &mut res);
    emit(&mut res, Instr::Label(text("main")));
    let mut last: Vec<Instr> = Vec::new();
    let mut env: Vec<(String, i32)> = Vec::new();
    let ghost funs = cg_decls(e.funs@, e.funs@.len() as int).unwrap();
    assert(instrs_view(Seq::<Instr>::empty()) =~= Seq::<InstrV>::empty());
    match &e.main {
        SeqExp::FunDefs { .. } => {
            let main = compile_to_instrs_helper(&e.main, &mut env, true, &mut last);
            emit_all(&mut res, main);
        },
        _ => {
            let main = compile_to_instrs_helper(&e.main, &mut env, false, &mut last);
            emit_all(&mut res, main);
            emit(&mut res, Instr::Ret);
        },
    }
    emit_all(&mut res, last);
    proof {
        let (c, l, _) = cg(e.main, Seq::empty(), e.main is FunDefs).unwrap();
        assert(Seq::<InstrV>::empty() + l =~= l);
        assert(Seq::<InstrV>::empty() + funs =~= funs);
        assert(instrs_view(res@) =~= program_code(*e).unwrap());
    }
    res
}

// ---------------------------------------------------------------------------
// Deciding whether a program can be compiled.

fn imm_ready(i: &ImmExp, env: &Vec<(String, i32)>) -> (r: bool)
    ensures
        r == imm_ok(*i, env@),
{
    match i {
        ImmExp::Var(name) => env_get::<u32>(env, name.as_str()).is_some(),
        ImmExp::Float(_) => false,
        _ => true,
    }
}

fn imms_ready(args: &Vec<ImmExp>, n: usize, env: &Vec<(String, i32)>) -> (r: bool)
    requires
        n <= args@.len(),
    ensures
        r == forall|k: int| 0 <= k < n ==> imm_ok(#[trigger] args@[k], env@),
{
    let mut k: usize = 0;
    while k < n
        invariant
            k <= n <= args@.len(),
            forall|j: int| 0 <= j < k ==> imm_ok(#[trigger] args@[j], env@),
        decreases n - k,
    {
        if !imm_ready(&args[k], env) {
            return false;
        }
        k = k + 1;
    }
    true
}

fn arity_of_prim(op: Prim) -> (r: usize)
    ensures
        r == prim_arity(op),
{
    match op {
        Prim::Add | Prim::Sub | Prim::Mul | Prim::And | Prim::Or | Prim::Eq | Prim::Neq
            | Prim::Gt | Prim::Lt | Prim::Ge | Prim::Le | Prim::ArrayGet => 2,
        Prim::ArraySet => 3,
        Prim::MakeArray => 0,
        _ => 1,
    }
}

fn prim_ready(op: Prim, args: &Vec<ImmExp>, env: &Vec<(String, i32)>) -> (r: bool)
    ensures
        r == prim_ok(op, args@, env@),
{
    match op {
        Prim::FAdd | Prim::FSub | Prim::FMul | Prim::FLt | Prim::FGt | Prim::FLe | Prim::FGe | Prim::IsFloat => {
            return false;
        },
        _ => {},
    }
    let ar = arity_of_prim(op);
    if args.len() < ar || !imms_ready(args, ar, env) {
        return false;
    }
    match op {
        Prim::Print => {
            if env.len() > 2147483647 {
                return false;
            }
            let n = env.len() as i64;
            let space: i64 = if n % 2 == 0 { n * 8 } else { n * 8 + 8 };
            space <= 2147483647
        },
        Prim::CheckArityAndUntag(n) => n <= 4294967295,
        Prim::MakeArray => args.len() <= 268435454 && imms_ready(args, args.len(), env),
        _ => true,
    }
}

/// Whether `e` can be compiled in the scope `env`; if so `env` becomes the
/// scope afterwards.
pub fn cg_ready(e: &SeqExp<u32>, env: &mut Vec<(String, i32)>, is_def: bool) -> (r: bool)
    ensures
        r == cg(*e, old(env)@, is_def) is Some,
        r ==> final(env)@ == cg(*e, old(env)@, is_def).unwrap().2,
    decreases e,
{
    match e {
        SeqExp::Imm(i, _) => imm_ready(i, env),
        SeqExp::Prim(op, args, _) => prim_ready(*op, args, env),
        SeqExp::Let { var, bound_exp, body, .. } => {
            if !cg_ready(bound_exp, env, false) {
                return false;
            }
            if env.len() > 268435455 {
                return false;
            }
            let offset = usize_to_i32(env.len());
            let slot: i32 = -8 * (offset + 1);
            env.push((var.clone(), slot));
            cg_ready(body, env, false)
        },
        SeqExp::If { cond, thn, els, .. } => {
            imm_ready(cond, env) && cg_ready(thn, env, false) && cg_ready(els, env, false)
        },
        SeqExp::FunDefs { decls, body, .. } => cg_ready(body, env, false) && cg_decls_ready(decls),
        SeqExp::InternalTailCall(_, args, _) => imms_ready(args, args.len(), env) && args.len() <= 268435456,
        SeqExp::ExternalCall { fun, args, is_tail, .. } => {
            let fun_ok = match fun {
                VarOrLabel::Var(x) => env_get::<u32>(env, x.as_str()).is_some(),
                VarOrLabel::Label(_) => true,
            };
            if !fun_ok || !imms_ready(args, args.len(), env) {
                false
            } else if *is_tail {
                args.len() <= 268435456
            } else {
                args.len() <= 268435456 && env.len() <= 268435456 && args.len() + 1 + env.len() <= 268435456
            }
        },
        SeqExp::MakeClosure { arity, env: clo, .. } => *arity <= 4294967295 && imm_ready(clo, env),
        SeqExp::Semicolon { .. } => false,
    }
}

fn cg_decls_ready(ds: &Vec<FunDecl<SeqExp<u32>, u32>>) -> (r: bool)
    ensures
        r == cg_decls(ds@, ds@.len() as int) is Some,
    decreases ds,
{
    let mut k: usize = 0;
    while k < ds.len()
        invariant
            k <= ds@.len(),
            cg_decls(ds@, k as int) is Some,
        decreases ds@.len() - k,
    {
        if ds[k].parameters.len() > 268435456 {
            proof {
                lemma_decls_fail_on(ds@, k as int + 1, ds@.len() as int);
            }
            return false;
        }
        let mut env = param_env(&ds[k].parameters);
        if !cg_ready(&ds[k].body, &mut env, false) {
            proof {
                lemma_decls_fail_on(ds@, k as int + 1, ds@.len() as int);
            }
            return false;
        }
        k = k + 1;
    }
    true
}

/// Once a prefix of the definitions cannot be compiled, no longer one can.
proof fn lemma_decls_fail_on(ds: Seq<FunDecl<SeqExp<u32>, u32>>, i: int, j: int)
    requires
        0 <= i <= j <= ds.len(),
        cg_decls(ds, i) is None,
    ensures
        cg_decls(ds, j) is None,
    decreases j - i,
{
    if i < j {
        lemma_decls_fail_on(ds, i + 1, j);
    }
}

/// The code of a whole program, or `None` where it cannot be compiled.
pub fn try_compile_to_instrs(e: &SeqProg<u32>) -> (r: Option<Vec<Instr>>)
    ensures
        r is Some <==> program_code(*e) is Some,
        r matches Some(v) ==> instrs_view(v@) == program_code(*e).unwrap(),
{
    if !cg_decls_ready(&e.funs) {
        return None;
    }
    let mut env: Vec<(String, i32)> = Vec::new();
    let is_def = match &e.main {
        SeqExp::FunDefs { .. } => true,
        _ => false,
    };
    if !cg_ready(&e.main, &mut env, is_def) {
        return None;
    }
    Some(compile_to_instrs(e))
}

} // verus!
