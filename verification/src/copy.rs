//! Copies of the small syntax values that hold strings.
use vstd::prelude::*;
use crate::syntax::{Exp, FunDecl, ImmExp, VarOrLabel};
use crate::names::copy_names;

verus! {

/// A copy of a call target.
pub fn copy_target(v: &VarOrLabel) -> (r: VarOrLabel)
    ensures
        r == *v,
{
    match v {
        VarOrLabel::Var(s) => VarOrLabel::Var(s.clone()),
        VarOrLabel::Label(s) => VarOrLabel::Label(s.clone()),
    }
}

/// A copy of an immediate.
pub fn copy_imm(i: &ImmExp) -> (r: ImmExp)
    ensures
        r == *i,
{
    match i {
        ImmExp::Num(n) => ImmExp::Num(*n),
        ImmExp::Float(f) => ImmExp::Float(*f),
        ImmExp::Bool(b) => ImmExp::Bool(*b),
        ImmExp::Var(s) => ImmExp::Var(s.clone()),
    }
}

/// A copy of a list of immediates.
pub fn copy_imms(v: &Vec<ImmExp>) -> (r: Vec<ImmExp>)
    ensures
        r@ == v@,
{
    let mut r: Vec<ImmExp> = Vec::new();
    let mut k: usize = 0;
    while k < v.len()
        invariant
            k <= v@.len(),
            r@ == v@.take(k as int),
        decreases v@.len() - k,
    {
        r.push(copy_imm(&v[k]));
        assert(v@.take(k + 1) =~= v@.take(k as int).push(v@[k as int]));
        k = k + 1;
    }
    assert(v@.take(v@.len() as int) =~= v@);
    r
}


/// `r` is `e`: the same forms, texts, numbers and annotations throughout.
pub open spec fn same_exp<A>(e: Exp<A>, r: Exp<A>) -> bool
    decreases e,
{
    match e {
        Exp::Num(..) | Exp::Float(..) | Exp::Bool(..) | Exp::Var(..) => r == e,
        Exp::Prim(p, args, a) => r matches Exp::Prim(q, ra, b) && p == q && a == b && ra@.len() == args@.len()
            && forall|j: int| 0 <= j < args@.len() ==> same_exp(*args@[j], *ra@[j]),
        Exp::Let { bindings, body, ann } => r matches Exp::Let { bindings: rb, body: rbody, ann: b } && ann == b
            && rb@.len() == bindings@.len()
            && (forall|j: int| 0 <= j < bindings@.len() ==> rb@[j].0 == bindings@[j].0 && same_exp(bindings@[j].1, rb@[j].1))
            && same_exp(*body, *rbody),
        Exp::If { cond, thn, els, ann } => r matches Exp::If { cond: rc, thn: rt, els: re, ann: b } && ann == b
            && same_exp(*cond, *rc) && same_exp(*thn, *rt) && same_exp(*els, *re),
        Exp::Semicolon { e1, e2, ann } => r matches Exp::Semicolon { e1: r1, e2: r2, ann: b } && ann == b
            && same_exp(*e1, *r1) && same_exp(*e2, *r2),
        Exp::FunDefs { decls, body, ann } => r matches Exp::FunDefs { decls: rd, body: rbody, ann: b } && ann == b
            && rd@.len() == decls@.len()
            && (forall|j: int| 0 <= j < decls@.len() ==> rd@[j].name == decls@[j].name
                && rd@[j].parameters@ == decls@[j].parameters@ && rd@[j].ann == decls@[j].ann
                && same_exp(decls@[j].body, rd@[j].body))
            && same_exp(*body, *rbody),
        Exp::Lambda { parameters, body, ann } => r matches Exp::Lambda { parameters: rp, body: rb, ann: b }
            && ann == b && rp@ == parameters@ && same_exp(*body, *rb),
        Exp::MakeClosure { arity, label, env, ann } => r matches Exp::MakeClosure { arity: ra, label: rl, env: renv, ann: b }
            && ann == b && ra == arity && rl == label && same_exp(*env, *renv),
        Exp::Call(f, args, a) => r matches Exp::Call(rf, ra, b) && a == b && same_exp(*f, *rf)
            && ra@.len() == args@.len() && forall|j: int| 0 <= j < args@.len() ==> same_exp(args@[j], ra@[j]),
        Exp::ClosureCall(f, args, a) => r matches Exp::ClosureCall(rf, ra, b) && a == b && same_exp(*f, *rf)
            && ra@.len() == args@.len() && forall|j: int| 0 <= j < args@.len() ==> same_exp(args@[j], ra@[j]),
        Exp::DirectCall(name, args, a) => r matches Exp::DirectCall(rn, ra, b) && a == b && rn == name
            && ra@.len() == args@.len() && forall|j: int| 0 <= j < args@.len() ==> same_exp(args@[j], ra@[j]),
        Exp::InternalTailCall(name, args, a) => r matches Exp::InternalTailCall(rn, ra, b) && a == b && rn == name
            && ra@.len() == args@.len() && forall|j: int| 0 <= j < args@.len() ==> same_exp(args@[j], ra@[j]),
        Exp::ExternalCall { fun, args, is_tail, ann } => r matches Exp::ExternalCall { fun: rf, args: ra, is_tail: rt, ann: b }
            && ann == b && rf == fun && rt == is_tail
            && ra@.len() == args@.len() && forall|j: int| 0 <= j < args@.len() ==> same_exp(args@[j], ra@[j]),
    }
}

/// Copies of a list of expressions.
pub fn copy_exps<A: Copy>(v: &Vec<Exp<A>>) -> (r: Vec<Exp<A>>)
    ensures
        r@.len() == v@.len(),
        forall|j: int| 0 <= j < v@.len() ==> same_exp(v@[j], #[trigger] r@[j]),
    decreases v,
{
    let mut r: Vec<Exp<A>> = Vec::new();
    let mut k: usize = 0;
    while k < v.len()
        invariant
            k <= v@.len(),
            r@.len() == k,
            forall|j: int| 0 <= j < k ==> same_exp(v@[j], #[trigger] r@[j]),
        decreases v@.len() - k,
    {
        r.push(copy_exp(&v[k]));
        k = k + 1;
    }
    r
}

/// A copy of an expression.
#[verifier::loop_isolation(false)]
pub fn copy_exp<A: Copy>(e: &Exp<A>) -> (r: Exp<A>)
    ensures
        same_exp(*e, r),
    decreases e,
{
    match e {
        Exp::Num(n, a) => Exp::Num(*n, *a),
        Exp::Float(f, a) => Exp::Float(*f, *a),
        Exp::Bool(b, a) => Exp::Bool(*b, *a),
        Exp::Var(s, a) => Exp::Var(s.clone(), *a),
        Exp::Prim(p, args, a) => {
            let mut r: Vec<Box<Exp<A>>> = Vec::new();
            let mut k: usize = 0;
            while k < args.len()
                invariant
                    k <= args@.len(),
                    r@.len() == k,
                    forall|j: int| 0 <= j < k ==> same_exp(*args@[j], *#[trigger] r@[j]),
                decreases args@.len() - k,
            {
                r.push(Box::new(copy_exp(&args[k])));
                k = k + 1;
            }
            Exp::Prim(*p, r, *a)
        },
        Exp::Let { bindings, body, ann } => {
            let mut r: Vec<(String, Exp<A>)> = Vec::new();
            let mut k: usize = 0;
            while k < bindings.len()
                invariant
                    k <= bindings@.len(),
                    r@.len() == k,
                    forall|j: int| 0 <= j < k ==> (#[trigger] r@[j]).0 == bindings@[j].0 && same_exp(bindings@[j].1, r@[j].1),
                decreases bindings@.len() - k,
            {
                r.push((bindings[k].0.clone(), copy_exp(&bindings[k].1)));
                k = k + 1;
            }
            Exp::Let { bindings: r, body: Box::new(copy_exp(body)), ann: *ann }
        },
        Exp::If { cond, thn, els, ann } => Exp::If {
            cond: Box::new(copy_exp(cond)),
            thn: Box::new(copy_exp(thn)),
            els: Box::new(copy_exp(els)),
            ann: *ann,
        },
        Exp::Semicolon { e1, e2, ann } => Exp::Semicolon {
            e1: Box::new(copy_exp(e1)),
            e2: Box::new(copy_exp(e2)),
            ann: *ann,
        },
        Exp::FunDefs { decls, body, ann } => {
            let mut r: Vec<FunDecl<Exp<A>, A>> = Vec::new();
            let mut k: usize = 0;
            while k < decls.len()
                invariant
                    k <= decls@.len(),
                    r@.len() == k,
                    forall|j: int| 0 <= j < k ==> (#[trigger] r@[j]).name == decls@[j].name
                        && r@[j].parameters@ == decls@[j].parameters@ && r@[j].ann == decls@[j].ann
                        && same_exp(decls@[j].body, r@[j].body),
                decreases decls@.len() - k,
            {
                let d = &decls[k];
                r.push(FunDecl { name: d.name.clone(), parameters: copy_names(&d.parameters), body: copy_exp(&d.body), ann: d.ann });
                k = k + 1;
            }
            Exp::FunDefs { decls: r, body: Box::new(copy_exp(body)), ann: *ann }
        },
        Exp::Lambda { parameters, body, ann } => Exp::Lambda {
            parameters: copy_names(parameters),
            body: Box::new(copy_exp(body)),
            ann: *ann,
        },
        Exp::MakeClosure { arity, label, env, ann } => Exp::MakeClosure {
            arity: *arity,
            label: label.clone(),
            env: Box::new(copy_exp(env)),
            ann: *ann,
        },
        Exp::Call(f, args, a) => Exp::Call(Box::new(copy_exp(f)), copy_exps(args), *a),
        Exp::ClosureCall(f, args, a) => Exp::ClosureCall(Box::new(copy_exp(f)), copy_exps(args), *a),
        Exp::DirectCall(name, args, a) => Exp::DirectCall(name.clone(), copy_exps(args), *a),
        Exp::InternalTailCall(name, args, a) => Exp::InternalTailCall(name.clone(), copy_exps(args), *a),
        Exp::ExternalCall { fun, args, is_tail, ann } => Exp::ExternalCall {
            fun: copy_target(fun),
            args: copy_exps(args),
            is_tail: *is_tail,
            ann: *ann,
        },
    }
}

} // verus!
