//! Deciding in code whether a pass can handle an expression.
use vstd::prelude::*;
use crate::syntax::{Exp, Prim, SeqExp, VarOrLabel};
use crate::expv::{ExpV, exp_view, exps_view, boxes_view, binds_view, decls_x, lemma_exp_view_lists};
use crate::anf::funs_view;
use crate::freevars::{bvars_ok, enough_params, target_name};

verus! {

fn has_enough_params(funs: &Vec<(String, Vec<String>)>, name: &String, n: usize) -> (r: bool)
    ensures
        r == enough_params(funs_view(funs@), name@, n as int),
{
    let mut k: usize = 0;
    while k < funs.len()
        invariant
            k <= funs@.len(),
            forall|j: int| 0 <= j < k && (#[trigger] funs_view(funs@)[j]).0 == name@
                ==> funs_view(funs@)[j].1.len() >= n,
        decreases funs@.len() - k,
    {
        if funs[k].0 == *name && funs[k].1.len() < n {
            assert(funs_view(funs@)[k as int].0 == name@);
            return false;
        }
        k = k + 1;
    }
    true
}

/// Whether reading the variables of `e` succeeds.
#[verifier::loop_isolation(false)]
pub fn bvars_ready(e: &Exp<bool>, funs: &Vec<(String, Vec<String>)>) -> (r: bool)
    ensures
        r == bvars_ok(exp_view(*e), funs_view(funs@)),
    decreases e,
{
    proof {
        lemma_exp_view_lists(*e);
    }
    match e {
        Exp::Num(..) | Exp::Float(..) | Exp::Bool(..) | Exp::Var(..) => true,
        Exp::Prim(_, args, _) => {
            assert(exp_view(*e)->Prim_1 == boxes_view(args@));
            let mut k: usize = 0;
            while k < args.len()
                invariant
                    k <= args@.len(),
                    forall|j: int| 0 <= j < k ==> bvars_ok(#[trigger] boxes_view(args@)[j], funs_view(funs@)),
                decreases args@.len() - k,
            {
                assert(boxes_view(args@)[k as int] == exp_view(*args@[k as int]));
                if !bvars_ready(&args[k], funs) {
                    return false;
                }
                k = k + 1;
            }
            true
        },
        Exp::Let { bindings, body, .. } => {
            assert(exp_view(*e)->Let_bindings == binds_view(bindings@));
            let mut k: usize = 0;
            while k < bindings.len()
                invariant
                    k <= bindings@.len(),
                    forall|j: int| 0 <= j < k ==> bvars_ok(#[trigger] binds_view(bindings@)[j].1, funs_view(funs@)),
                decreases bindings@.len() - k,
            {
                assert(binds_view(bindings@)[k as int].1 == exp_view(bindings@[k as int].1));
                if !bvars_ready(&bindings[k].1, funs) {
                    return false;
                }
                k = k + 1;
            }
            bvars_ready(body, funs)
        },
        Exp::If { cond, thn, els, .. } => bvars_ready(cond, funs) && bvars_ready(thn, funs) && bvars_ready(els, funs),
        Exp::FunDefs { body, .. } => bvars_ready(body, funs),
        Exp::DirectCall(name, args, _) => {
            assert(exp_view(*e)->DirectCall_1 == exps_view(args@));
            has_enough_params(funs, name, args.len()) && exps_ready(args, funs)
        },
        Exp::ClosureCall(f, args, _) => {
            assert(exp_view(*e)->ClosureCall_1 == exps_view(args@));
            bvars_ready(f, funs) && exps_ready(args, funs)
        },
        Exp::Lambda { body, .. } => bvars_ready(body, funs),
        Exp::ExternalCall { fun, args, .. } => {
            assert(exp_view(*e)->ExternalCall_args == exps_view(args@));
            let name = match fun {
                VarOrLabel::Var(x) => x,
                VarOrLabel::Label(x) => x,
            };
            has_enough_params(funs, name, args.len()) && exps_ready(args, funs)
        },
        Exp::MakeClosure { env, .. } => bvars_ready(env, funs),
        _ => false,
    }
}

fn exps_ready(s: &Vec<Exp<bool>>, funs: &Vec<(String, Vec<String>)>) -> (r: bool)
    ensures
        r == forall|j: int| 0 <= j < s@.len() ==> bvars_ok(#[trigger] exps_view(s@)[j], funs_view(funs@)),
    decreases s,
{
    let mut k: usize = 0;
    while k < s.len()
        invariant
            k <= s@.len(),
            forall|j: int| 0 <= j < k ==> bvars_ok(#[trigger] exps_view(s@)[j], funs_view(funs@)),
        decreases s@.len() - k,
    {
        assert(exps_view(s@)[k as int] == exp_view(s@[k as int]));
        if !bvars_ready(&s[k], funs) {
            return false;
        }
        k = k + 1;
    }
    true
}

// ---------------------------------------------------------------------------
// Forms.

/// Whether `;` can be removed from `e`: it holds only surface forms.
#[verifier::loop_isolation(false)]
pub fn desugar_ready<A>(e: &Exp<A>) -> (r: bool)
    ensures
        r == crate::desugar::desugar_ok(*e),
    decreases e,
{
    match e {
        Exp::Num(..) | Exp::Float(..) | Exp::Bool(..) | Exp::Var(..) => true,
        Exp::Prim(_, args, _) => {
            let mut k: usize = 0;
            while k < args.len()
                invariant
                    k <= args@.len(),
                    forall|j: int| 0 <= j < k ==> crate::desugar::desugar_ok(*#[trigger] args@[j]),
                decreases args@.len() - k,
            {
                if !desugar_ready(&args[k]) {
                    return false;
                }
                k = k + 1;
            }
            true
        },
        Exp::Let { bindings, body, .. } => {
            let mut k: usize = 0;
            while k < bindings.len()
                invariant
                    k <= bindings@.len(),
                    forall|j: int| 0 <= j < k ==> crate::desugar::desugar_ok(#[trigger] bindings@[j].1),
                decreases bindings@.len() - k,
            {
                if !desugar_ready(&bindings[k].1) {
                    return false;
                }
                k = k + 1;
            }
            desugar_ready(body)
        },
        Exp::If { cond, thn, els, .. } => desugar_ready(cond) && desugar_ready(thn) && desugar_ready(els),
        Exp::Semicolon { e1, e2, .. } => desugar_ready(e1) && desugar_ready(e2),
        Exp::FunDefs { decls, body, .. } => {
            let mut k: usize = 0;
            while k < decls.len()
                invariant
                    k <= decls@.len(),
                    forall|j: int| 0 <= j < k ==> crate::desugar::desugar_ok(#[trigger] decls@[j].body),
                decreases decls@.len() - k,
            {
                if !desugar_ready(&decls[k].body) {
                    return false;
                }
                k = k + 1;
            }
            desugar_ready(body)
        },
        Exp::Lambda { body, .. } => desugar_ready(body),
        Exp::Call(_, args, _) => {
            let mut k: usize = 0;
            while k < args.len()
                invariant
                    k <= args@.len(),
                    forall|j: int| 0 <= j < k ==> crate::desugar::desugar_ok(#[trigger] args@[j]),
                decreases args@.len() - k,
            {
                if !desugar_ready(&args[k]) {
                    return false;
                }
                k = k + 1;
            }
            true
        },
        _ => false,
    }
}

fn prim_args_enough(p: Prim, n: usize) -> (r: bool)
    ensures
        r == crate::anf::enough_args(p, n as int),
{
    match p {
        Prim::GetCode | Prim::GetEnv | Prim::CheckArityAndUntag(_) | Prim::Add1 | Prim::Sub1 | Prim::Not
        | Prim::Print | Prim::IsBool | Prim::IsNum | Prim::IsArray | Prim::IsFun | Prim::Length
        | Prim::IsFloat => n >= 1,
        Prim::ArrayGet | Prim::Add | Prim::And | Prim::Eq | Prim::Ge | Prim::Gt | Prim::Le | Prim::Lt
        | Prim::Mul | Prim::Neq | Prim::Or | Prim::Sub | Prim::FAdd | Prim::FSub | Prim::FMul
        | Prim::FLt | Prim::FGt | Prim::FLe | Prim::FGe => n >= 2,
        Prim::ArraySet => n >= 3,
        Prim::MakeArray => true,
    }
}

/// Whether `e` can be sequentialized.
#[verifier::loop_isolation(false)]
pub fn sequentialize_ready(e: &Exp<u32>) -> (r: bool)
    ensures
        r == crate::anf::sequentializable(*e),
    decreases e,
{
    match e {
        Exp::Num(..) | Exp::Float(..) | Exp::Bool(..) | Exp::Var(..) => true,
        Exp::Prim(p, args, _) => {
            if !prim_args_enough(*p, args.len()) {
                return false;
            }
            let mut k: usize = 0;
            while k < args.len()
                invariant
                    k <= args@.len(),
                    forall|j: int| 0 <= j < k ==> crate::anf::sequentializable(*#[trigger] args@[j]),
                decreases args@.len() - k,
            {
                if !sequentialize_ready(&args[k]) {
                    return false;
                }
                k = k + 1;
            }
            true
        },
        Exp::Let { bindings, body, .. } => {
            let mut k: usize = 0;
            while k < bindings.len()
                invariant
                    k <= bindings@.len(),
                    forall|j: int| 0 <= j < k ==> crate::anf::sequentializable(#[trigger] bindings@[j].1),
                decreases bindings@.len() - k,
            {
                if !sequentialize_ready(&bindings[k].1) {
                    return false;
                }
                k = k + 1;
            }
            sequentialize_ready(body)
        },
        Exp::If { cond, thn, els, .. } => sequentialize_ready(cond) && sequentialize_ready(thn) && sequentialize_ready(els),
        Exp::FunDefs { decls, body, .. } => {
            let mut k: usize = 0;
            while k < decls.len()
                invariant
                    k <= decls@.len(),
                    forall|j: int| 0 <= j < k ==> crate::anf::sequentializable(#[trigger] decls@[j].body),
                decreases decls@.len() - k,
            {
                if !sequentialize_ready(&decls[k].body) {
                    return false;
                }
                k = k + 1;
            }
            sequentialize_ready(body)
        },
        Exp::MakeClosure { env, .. } => sequentialize_ready(env),
        Exp::InternalTailCall(_, args, _) | Exp::ExternalCall { args, .. } => {
            let mut k: usize = 0;
            while k < args.len()
                invariant
                    k <= args@.len(),
                    forall|j: int| 0 <= j < k ==> crate::anf::sequentializable(#[trigger] args@[j]),
                decreases args@.len() - k,
            {
                if !sequentialize_ready(&args[k]) {
                    return false;
                }
                k = k + 1;
            }
            true
        },
        _ => false,
    }
}

/// Whether calls can be resolved in `e`.
#[verifier::loop_isolation(false)]
pub fn elim_ready<A>(e: &Exp<A>) -> (r: bool)
    ensures
        r == crate::closures::elim_ok(exp_view(*e)),
    decreases e,
{
    proof {
        lemma_exp_view_lists(*e);
    }
    match e {
        Exp::Num(..) | Exp::Float(..) | Exp::Bool(..) | Exp::Var(..) => true,
        Exp::Prim(_, args, _) => {
            assert(exp_view(*e)->Prim_1 == boxes_view(args@));
            let mut k: usize = 0;
            while k < args.len()
                invariant
                    k <= args@.len(),
                    forall|j: int| 0 <= j < k ==> crate::closures::elim_ok(#[trigger] boxes_view(args@)[j]),
                decreases args@.len() - k,
            {
                assert(boxes_view(args@)[k as int] == exp_view(*args@[k as int]));
                if !elim_ready(&args[k]) {
                    return false;
                }
                k = k + 1;
            }
            true
        },
        Exp::Let { bindings, body, .. } => {
            assert(exp_view(*e)->Let_bindings == binds_view(bindings@));
            let mut k: usize = 0;
            while k < bindings.len()
                invariant
                    k <= bindings@.len(),
                    forall|j: int| 0 <= j < k ==> crate::closures::elim_ok(#[trigger] binds_view(bindings@)[j].1),
                decreases bindings@.len() - k,
            {
                assert(binds_view(bindings@)[k as int].1 == exp_view(bindings@[k as int].1));
                if !elim_ready(&bindings[k].1) {
                    return false;
                }
                k = k + 1;
            }
            elim_ready(body)
        },
        Exp::If { cond, thn, els, .. } => elim_ready(cond) && elim_ready(thn) && elim_ready(els),
        Exp::FunDefs { decls, body, .. } => {
            assert(exp_view(*e)->FunDefs_decls == decls_x(decls@));
            
            let mut k: usize = 0;
            while k < decls.len()
                invariant
                    k <= decls@.len(),
                    
                    forall|j: int| 0 <= j < k ==> crate::closures::elim_ok(#[trigger] decls_x(decls@)[j].body),
                decreases decls@.len() - k,
            {
                assert(decls_x(decls@)[k as int].body == exp_view(decls@[k as int].body));
                if !elim_ready(&decls[k].body) {
                    return false;
                }
                k = k + 1;
            }
            elim_ready(body)
        },
        Exp::Call(f, args, _) => elim_ready(f) && {
            assert(exp_view(*e)->Call_1 == exps_view(args@));
            
            let mut k: usize = 0;
            while k < args.len()
                invariant
                    k <= args@.len(),
                    forall|j: int| 0 <= j < k ==> crate::closures::elim_ok(#[trigger] exps_view(args@)[j]),
                decreases args@.len() - k,
            {
                assert(exps_view(args@)[k as int] == exp_view(args@[k as int]));
                if !elim_ready(&args[k]) {
                    return false;
                }
                k = k + 1;
            }
            true
        },
        Exp::Lambda { body, .. } => elim_ready(body),
        _ => false,
    }
}

/// Whether `e` holds only resolved forms.
#[verifier::loop_isolation(false)]
pub fn resolved_ready<A>(e: &Exp<A>) -> (r: bool)
    ensures
        r == crate::tail::resolved(exp_view(*e)),
    decreases e,
{
    proof {
        lemma_exp_view_lists(*e);
    }
    match e {
        Exp::Num(..) | Exp::Float(..) | Exp::Bool(..) | Exp::Var(..) => true,
        Exp::Prim(_, args, _) => {
            assert(exp_view(*e)->Prim_1 == boxes_view(args@));
            let mut k: usize = 0;
            while k < args.len()
                invariant
                    k <= args@.len(),
                    forall|j: int| 0 <= j < k ==> crate::tail::resolved(#[trigger] boxes_view(args@)[j]),
                decreases args@.len() - k,
            {
                assert(boxes_view(args@)[k as int] == exp_view(*args@[k as int]));
                if !resolved_ready(&args[k]) {
                    return false;
                }
                k = k + 1;
            }
            true
        },
        Exp::Let { bindings, body, .. } => {
            assert(exp_view(*e)->Let_bindings == binds_view(bindings@));
            let mut k: usize = 0;
            while k < bindings.len()
                invariant
                    k <= bindings@.len(),
                    forall|j: int| 0 <= j < k ==> crate::tail::resolved(#[trigger] binds_view(bindings@)[j].1),
                decreases bindings@.len() - k,
            {
                assert(binds_view(bindings@)[k as int].1 == exp_view(bindings@[k as int].1));
                if !resolved_ready(&bindings[k].1) {
                    return false;
                }
                k = k + 1;
            }
            resolved_ready(body)
        },
        Exp::If { cond, thn, els, .. } => resolved_ready(cond) && resolved_ready(thn) && resolved_ready(els),
        Exp::FunDefs { decls, body, .. } => {
            assert(exp_view(*e)->FunDefs_decls == decls_x(decls@));
            
            let mut k: usize = 0;
            while k < decls.len()
                invariant
                    k <= decls@.len(),
                    
                    forall|j: int| 0 <= j < k ==> crate::tail::resolved(#[trigger] decls_x(decls@)[j].body),
                decreases decls@.len() - k,
            {
                assert(decls_x(decls@)[k as int].body == exp_view(decls@[k as int].body));
                if !resolved_ready(&decls[k].body) {
                    return false;
                }
                k = k + 1;
            }
            resolved_ready(body)
        },
        Exp::DirectCall(_, args, _) => {
            assert(exp_view(*e)->DirectCall_1 == exps_view(args@));
            
            let mut k: usize = 0;
            while k < args.len()
                invariant
                    k <= args@.len(),
                    forall|j: int| 0 <= j < k ==> crate::tail::resolved(#[trigger] exps_view(args@)[j]),
                decreases args@.len() - k,
            {
                assert(exps_view(args@)[k as int] == exp_view(args@[k as int]));
                if !resolved_ready(&args[k]) {
                    return false;
                }
                k = k + 1;
            }
            true
        },
        Exp::ClosureCall(f, args, _) => resolved_ready(f) && {
            assert(exp_view(*e)->ClosureCall_1 == exps_view(args@));
            
            let mut k: usize = 0;
            while k < args.len()
                invariant
                    k <= args@.len(),
                    forall|j: int| 0 <= j < k ==> crate::tail::resolved(#[trigger] exps_view(args@)[j]),
                decreases args@.len() - k,
            {
                assert(exps_view(args@)[k as int] == exp_view(args@[k as int]));
                if !resolved_ready(&args[k]) {
                    return false;
                }
                k = k + 1;
            }
            true
        },
        Exp::Lambda { body, .. } => resolved_ready(body),
        _ => false,
    }
}

/// Whether closure conversion handles `e`.
#[verifier::loop_isolation(false)]
pub fn recur_ready(e: &Exp<bool>) -> (r: bool)
    ensures
        r == crate::recur::recur_ok(exp_view(*e)),
    decreases e,
{
    proof {
        lemma_exp_view_lists(*e);
    }
    match e {
        Exp::Num(..) | Exp::Float(..) | Exp::Bool(..) | Exp::Var(..) => true,
        Exp::Prim(_, args, _) => {
            assert(exp_view(*e)->Prim_1 == boxes_view(args@));
            let mut k: usize = 0;
            while k < args.len()
                invariant
                    k <= args@.len(),
                    forall|j: int| 0 <= j < k ==> crate::recur::recur_ok(#[trigger] boxes_view(args@)[j]),
                decreases args@.len() - k,
            {
                assert(boxes_view(args@)[k as int] == exp_view(*args@[k as int]));
                if !recur_ready(&args[k]) {
                    return false;
                }
                k = k + 1;
            }
            true
        },
        Exp::Let { bindings, body, .. } => {
            assert(exp_view(*e)->Let_bindings == binds_view(bindings@));
            let mut k: usize = 0;
            while k < bindings.len()
                invariant
                    k <= bindings@.len(),
                    forall|j: int| 0 <= j < k ==> crate::recur::recur_ok(#[trigger] binds_view(bindings@)[j].1),
                decreases bindings@.len() - k,
            {
                assert(binds_view(bindings@)[k as int].1 == exp_view(bindings@[k as int].1));
                if !recur_ready(&bindings[k].1) {
                    return false;
                }
                k = k + 1;
            }
            recur_ready(body)
        },
        Exp::If { cond, thn, els, .. } => recur_ready(cond) && recur_ready(thn) && recur_ready(els),
        Exp::FunDefs { decls, body, .. } => {
            assert(exp_view(*e)->FunDefs_decls == decls_x(decls@));
            let funs = crate::recur::decl_pairs(decls);
            let mut k: usize = 0;
            while k < decls.len()
                invariant
                    k <= decls@.len(),
                    crate::anf::funs_view(funs@) == crate::recur::decl_funs(decls_x(decls@)),
                    forall|j: int| 0 <= j < k && !crate::recur::mentions_closure(#[trigger] decls_x(decls@)[j].name) ==> crate::recur::recur_ok(decls_x(decls@)[j].body) && bvars_ok(decls_x(decls@)[j].body, crate::recur::decl_funs(decls_x(decls@))),
                decreases decls@.len() - k,
            {
                assert(decls_x(decls@)[k as int].body == exp_view(decls@[k as int].body));
                if !crate::recur::has_closure(&decls[k].name) && (!recur_ready(&decls[k].body) || !bvars_ready(&decls[k].body, &funs)) {
                    return false;
                }
                k = k + 1;
            }
            recur_ready(body)
        },
        Exp::DirectCall(_, args, _) => {
            assert(exp_view(*e)->DirectCall_1 == exps_view(args@));
            
            let mut k: usize = 0;
            while k < args.len()
                invariant
                    k <= args@.len(),
                    forall|j: int| 0 <= j < k ==> crate::recur::recur_ok(#[trigger] exps_view(args@)[j]),
                decreases args@.len() - k,
            {
                assert(exps_view(args@)[k as int] == exp_view(args@[k as int]));
                if !recur_ready(&args[k]) {
                    return false;
                }
                k = k + 1;
            }
            true
        },
        Exp::ClosureCall(f, args, _) => recur_ready(f) && {
            assert(exp_view(*e)->ClosureCall_1 == exps_view(args@));
            
            let mut k: usize = 0;
            while k < args.len()
                invariant
                    k <= args@.len(),
                    forall|j: int| 0 <= j < k ==> crate::recur::recur_ok(#[trigger] exps_view(args@)[j]),
                decreases args@.len() - k,
            {
                assert(exps_view(args@)[k as int] == exp_view(args@[k as int]));
                if !recur_ready(&args[k]) {
                    return false;
                }
                k = k + 1;
            }
            true
        },
        Exp::Lambda { body, .. } => recur_ready(body),
        _ => false,
    }
}

/// Whether a round of variable capture handles `e`.
#[verifier::loop_isolation(false)]
pub fn capture_ready(e: &Exp<bool>) -> (r: bool)
    ensures
        r == crate::capture::vcap_ok(exp_view(*e)),
    decreases e,
{
    proof {
        lemma_exp_view_lists(*e);
    }
    match e {
        Exp::Num(..) | Exp::Float(..) | Exp::Bool(..) | Exp::Var(..) | Exp::MakeClosure { .. } | Exp::ExternalCall { .. } => true,
        Exp::Prim(_, args, _) => {
            assert(exp_view(*e)->Prim_1 == boxes_view(args@));
            let mut k: usize = 0;
            while k < args.len()
                invariant
                    k <= args@.len(),
                    forall|j: int| 0 <= j < k ==> crate::capture::vcap_ok(#[trigger] boxes_view(args@)[j]),
                decreases args@.len() - k,
            {
                assert(boxes_view(args@)[k as int] == exp_view(*args@[k as int]));
                if !capture_ready(&args[k]) {
                    return false;
                }
                k = k + 1;
            }
            true
        },
        Exp::Let { bindings, body, .. } => {
            assert(exp_view(*e)->Let_bindings == binds_view(bindings@));
            let mut k: usize = 0;
            while k < bindings.len()
                invariant
                    k <= bindings@.len(),
                    forall|j: int| 0 <= j < k ==> crate::capture::vcap_ok(#[trigger] binds_view(bindings@)[j].1),
                decreases bindings@.len() - k,
            {
                assert(binds_view(bindings@)[k as int].1 == exp_view(bindings@[k as int].1));
                if !capture_ready(&bindings[k].1) {
                    return false;
                }
                k = k + 1;
            }
            capture_ready(body)
        },
        Exp::If { cond, thn, els, .. } => capture_ready(cond) && capture_ready(thn) && capture_ready(els),
        Exp::FunDefs { decls, body, .. } => {
            assert(exp_view(*e)->FunDefs_decls == decls_x(decls@));
            let funs = crate::recur::decl_pairs(decls);
            let mut k: usize = 0;
            while k < decls.len()
                invariant
                    k <= decls@.len(),
                    crate::anf::funs_view(funs@) == crate::recur::decl_funs(decls_x(decls@)),
                    forall|j: int| 0 <= j < k ==> crate::capture::vcap_ok(#[trigger] decls_x(decls@)[j].body) && bvars_ok(decls_x(decls@)[j].body, crate::recur::decl_funs(decls_x(decls@))),
                decreases decls@.len() - k,
            {
                assert(decls_x(decls@)[k as int].body == exp_view(decls@[k as int].body));
                if !capture_ready(&decls[k].body) || !bvars_ready(&decls[k].body, &funs) {
                    return false;
                }
                k = k + 1;
            }
            capture_ready(body)
        },
        Exp::DirectCall(_, args, _) => {
            assert(exp_view(*e)->DirectCall_1 == exps_view(args@));
            
            let mut k: usize = 0;
            while k < args.len()
                invariant
                    k <= args@.len(),
                    forall|j: int| 0 <= j < k ==> crate::capture::vcap_ok(#[trigger] exps_view(args@)[j]),
                decreases args@.len() - k,
            {
                assert(exps_view(args@)[k as int] == exp_view(args@[k as int]));
                if !capture_ready(&args[k]) {
                    return false;
                }
                k = k + 1;
            }
            true
        },
        Exp::ClosureCall(_, args, _) => {
            assert(exp_view(*e)->ClosureCall_1 == exps_view(args@));
            
            let mut k: usize = 0;
            while k < args.len()
                invariant
                    k <= args@.len(),
                    forall|j: int| 0 <= j < k ==> crate::capture::vcap_ok(#[trigger] exps_view(args@)[j]),
                decreases args@.len() - k,
            {
                assert(exps_view(args@)[k as int] == exp_view(args@[k as int]));
                if !capture_ready(&args[k]) {
                    return false;
                }
                k = k + 1;
            }
            true
        },
        Exp::Lambda { body, .. } => capture_ready(body),
        _ => false,
    }
}

/// Whether no `;` occurs in `e`.
#[verifier::loop_isolation(false)]
pub fn semicolon_ready<A>(e: &Exp<A>) -> (r: bool)
    ensures
        r == crate::shape::semicolon_free(*e),
    decreases e,
{
    match e {
        Exp::Num(..) | Exp::Float(..) | Exp::Bool(..) | Exp::Var(..) => true,
        Exp::Prim(_, args, _) => {
            let mut k: usize = 0;
            while k < args.len()
                invariant
                    k <= args@.len(),
                    forall|j: int| 0 <= j < k ==> crate::shape::semicolon_free(*#[trigger] args@[j]),
                decreases args@.len() - k,
            {
                if !semicolon_ready(&args[k]) {
                    return false;
                }
                k = k + 1;
            }
            true
        },
        Exp::Let { bindings, body, .. } => {
            let mut k: usize = 0;
            while k < bindings.len()
                invariant
                    k <= bindings@.len(),
                    forall|j: int| 0 <= j < k ==> crate::shape::semicolon_free(#[trigger] bindings@[j].1),
                decreases bindings@.len() - k,
            {
                if !semicolon_ready(&bindings[k].1) {
                    return false;
                }
                k = k + 1;
            }
            semicolon_ready(body)
        },
        Exp::If { cond, thn, els, .. } => semicolon_ready(cond) && semicolon_ready(thn) && semicolon_ready(els),
        Exp::Semicolon { .. } => false,
        Exp::FunDefs { decls, body, .. } => {
            let mut k: usize = 0;
            while k < decls.len()
                invariant
                    k <= decls@.len(),
                    forall|j: int| 0 <= j < k ==> crate::shape::semicolon_free(#[trigger] decls@[j].body),
                decreases decls@.len() - k,
            {
                if !semicolon_ready(&decls[k].body) {
                    return false;
                }
                k = k + 1;
            }
            semicolon_ready(body)
        },
        Exp::Lambda { body, .. } => semicolon_ready(body),
        Exp::MakeClosure { env, .. } => semicolon_ready(env),
        Exp::Call(f, args, _) | Exp::ClosureCall(f, args, _) => semicolon_ready(f) && semicolons_ready(args),
        Exp::DirectCall(_, args, _) | Exp::InternalTailCall(_, args, _) | Exp::ExternalCall { args, .. } => semicolons_ready(args),
    }
}

fn semicolons_ready<A>(s: &Vec<Exp<A>>) -> (r: bool)
    ensures
        r == forall|j: int| 0 <= j < s@.len() ==> crate::shape::semicolon_free(#[trigger] s@[j]),
    decreases s,
{
    let mut k: usize = 0;
    while k < s.len()
        invariant
            k <= s@.len(),
            forall|j: int| 0 <= j < k ==> crate::shape::semicolon_free(#[trigger] s@[j]),
        decreases s@.len() - k,
    {
        if !semicolon_ready(&s[k]) {
            return false;
        }
        k = k + 1;
    }
    true
}

/// Whether no `;` occurs in the sequential expression `e`.
#[verifier::loop_isolation(false)]
pub fn seq_semicolon_ready<A>(e: &SeqExp<A>) -> (r: bool)
    ensures
        r == crate::shape::seq_semicolon_free(*e),
    decreases e,
{
    match e {
        SeqExp::Let { bound_exp, body, .. } => seq_semicolon_ready(bound_exp) && seq_semicolon_ready(body),
        SeqExp::If { thn, els, .. } => seq_semicolon_ready(thn) && seq_semicolon_ready(els),
        SeqExp::FunDefs { decls, body, .. } => {
            let mut k: usize = 0;
            while k < decls.len()
                invariant
                    k <= decls@.len(),
                    forall|j: int| 0 <= j < k ==> crate::shape::seq_semicolon_free(#[trigger] decls@[j].body),
                decreases decls@.len() - k,
            {
                if !seq_semicolon_ready(&decls[k].body) {
                    return false;
                }
                k = k + 1;
            }
            seq_semicolon_ready(body)
        },
        SeqExp::Semicolon { .. } => false,
        _ => true,
    }
}

/// Whether the check accepts every form it visits in `e`.
#[verifier::loop_isolation(false)]
pub fn checkable_ready<A>(e: &Exp<A>) -> (r: bool)
    ensures
        r == crate::check::checkable(*e),
    decreases e,
{
    match e {
        Exp::Num(..) | Exp::Bool(..) | Exp::Var(..) => true,
        Exp::Prim(_, args, _) => {
            let mut k: usize = 0;
            while k < args.len()
                invariant
                    k <= args@.len(),
                    forall|j: int| 0 <= j < k ==> crate::check::checkable(*#[trigger] args@[j]),
                decreases args@.len() - k,
            {
                if !checkable_ready(&args[k]) {
                    return false;
                }
                k = k + 1;
            }
            true
        },
        Exp::Let { bindings, body, .. } => {
            let mut k: usize = 0;
            while k < bindings.len()
                invariant
                    k <= bindings@.len(),
                    forall|j: int| 0 <= j < k ==> crate::check::checkable(#[trigger] bindings@[j].1),
                decreases bindings@.len() - k,
            {
                if !checkable_ready(&bindings[k].1) {
                    return false;
                }
                k = k + 1;
            }
            checkable_ready(body)
        },
        Exp::If { cond, thn, els, .. } => checkable_ready(cond) && checkable_ready(thn) && checkable_ready(els),
        Exp::FunDefs { body, .. } => checkable_ready(body),
        Exp::Call(f, args, _) => {
            if !checkable_ready(f) {
                return false;
            }
            let mut k: usize = 0;
            while k < args.len()
                invariant
                    k <= args@.len(),
                    forall|j: int| 0 <= j < k ==> crate::check::checkable(#[trigger] args@[j]),
                decreases args@.len() - k,
            {
                if !checkable_ready(&args[k]) {
                    return false;
                }
                k = k + 1;
            }
            true
        },
        Exp::Lambda { body, .. } => checkable_ready(body),
        _ => false,
    }
}

} // verus!
