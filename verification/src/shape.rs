//! Structural predicates on expressions: which forms occur, and when two
//! expressions differ only in their annotations.
use vstd::prelude::*;
use crate::syntax::{Exp, SeqExp, ImmExp, VarOrLabel};

verus! {

/// No `;` occurs anywhere in `e`.
pub open spec fn semicolon_free<A>(e: Exp<A>) -> bool
    decreases e,
{
    match e {
        Exp::Num(..) | Exp::Float(..) | Exp::Bool(..) | Exp::Var(..) => true,
        Exp::Prim(_, args, _) => forall|j: int| 0 <= j < args@.len() ==> semicolon_free(*args@[j]),
        Exp::Let { bindings, body, .. } =>
            (forall|j: int| 0 <= j < bindings@.len() ==> semicolon_free(bindings@[j].1)) && semicolon_free(*body),
        Exp::If { cond, thn, els, .. } => semicolon_free(*cond) && semicolon_free(*thn) && semicolon_free(*els),
        Exp::Semicolon { .. } => false,
        Exp::FunDefs { decls, body, .. } =>
            (forall|j: int| 0 <= j < decls@.len() ==> semicolon_free(decls@[j].body)) && semicolon_free(*body),
        Exp::Lambda { body, .. } => semicolon_free(*body),
        Exp::MakeClosure { env, .. } => semicolon_free(*env),
        Exp::Call(f, args, _) => semicolon_free(*f) && forall|j: int| 0 <= j < args@.len() ==> semicolon_free(args@[j]),
        Exp::ClosureCall(f, args, _) => semicolon_free(*f) && forall|j: int| 0 <= j < args@.len() ==> semicolon_free(args@[j]),
        Exp::DirectCall(_, args, _) => forall|j: int| 0 <= j < args@.len() ==> semicolon_free(args@[j]),
        Exp::InternalTailCall(_, args, _) => forall|j: int| 0 <= j < args@.len() ==> semicolon_free(args@[j]),
        Exp::ExternalCall { args, .. } => forall|j: int| 0 <= j < args@.len() ==> semicolon_free(args@[j]),
    }
}

/// No `;` occurs anywhere in the sequential expression `e`.
pub open spec fn seq_semicolon_free<A>(e: SeqExp<A>) -> bool
    decreases e,
{
    match e {
        SeqExp::Let { bound_exp, body, .. } => seq_semicolon_free(*bound_exp) && seq_semicolon_free(*body),
        SeqExp::If { thn, els, .. } => seq_semicolon_free(*thn) && seq_semicolon_free(*els),
        SeqExp::FunDefs { decls, body, .. } =>
            (forall|j: int| 0 <= j < decls@.len() ==> seq_semicolon_free(decls@[j].body)) && seq_semicolon_free(*body),
        SeqExp::Semicolon { .. } => false,
        _ => true,
    }
}

/// Two lists of names hold the same texts.
pub open spec fn same_names(a: Seq<String>, b: Seq<String>) -> bool {
    a.len() == b.len() && forall|j: int| 0 <= j < a.len() ==> a[j]@ == b[j]@
}

/// `e` and `r` are the same expression but for their annotations.
pub open spec fn same_shape<A, B>(e: Exp<A>, r: Exp<B>) -> bool
    decreases e,
{
    match e {
        Exp::Num(x, _) => r matches Exp::Num(y, _) && x == y,
        Exp::Float(x, _) => r matches Exp::Float(y, _) && x == y,
        Exp::Bool(x, _) => r matches Exp::Bool(y, _) && x == y,
        Exp::Var(x, _) => r matches Exp::Var(y, _) && x@ == y@,
        Exp::Prim(p, args, _) => r matches Exp::Prim(q, rargs, _) && p == q && rargs@.len() == args@.len()
            && forall|j: int| 0 <= j < args@.len() ==> same_shape(*args@[j], *rargs@[j]),
        Exp::Let { bindings, body, .. } => r matches Exp::Let { bindings: rb, body: rbody, .. }
            && rb@.len() == bindings@.len()
            && (forall|j: int| 0 <= j < bindings@.len() ==>
                bindings@[j].0@ == rb@[j].0@ && same_shape(bindings@[j].1, rb@[j].1))
            && same_shape(*body, *rbody),
        Exp::If { cond, thn, els, .. } => r matches Exp::If { cond: rc, thn: rt, els: re, .. }
            && same_shape(*cond, *rc) && same_shape(*thn, *rt) && same_shape(*els, *re),
        Exp::Semicolon { e1, e2, .. } => r matches Exp::Semicolon { e1: r1, e2: r2, .. }
            && same_shape(*e1, *r1) && same_shape(*e2, *r2),
        Exp::FunDefs { decls, body, .. } => r matches Exp::FunDefs { decls: rd, body: rbody, .. }
            && rd@.len() == decls@.len()
            && (forall|j: int| 0 <= j < decls@.len() ==>
                decls@[j].name@ == rd@[j].name@
                && same_names(decls@[j].parameters@, rd@[j].parameters@)
                && same_shape(decls@[j].body, rd@[j].body))
            && same_shape(*body, *rbody),
        Exp::Lambda { parameters, body, .. } => r matches Exp::Lambda { parameters: rp, body: rb, .. }
            && same_names(parameters@, rp@) && same_shape(*body, *rb),
        Exp::MakeClosure { arity, label, env, .. } => r matches Exp::MakeClosure { arity: ra, label: rl, env: renv, .. }
            && arity == ra && label@ == rl@ && same_shape(*env, *renv),
        Exp::Call(f, args, _) => r matches Exp::Call(rf, ra, _) && same_shape(*f, *rf) && ra@.len() == args@.len()
            && forall|j: int| 0 <= j < args@.len() ==> same_shape(args@[j], ra@[j]),
        Exp::ClosureCall(f, args, _) => r matches Exp::ClosureCall(rf, ra, _) && same_shape(*f, *rf)
            && ra@.len() == args@.len()
            && forall|j: int| 0 <= j < args@.len() ==> same_shape(args@[j], ra@[j]),
        Exp::DirectCall(name, args, _) => r matches Exp::DirectCall(rn, ra, _) && name@ == rn@
            && ra@.len() == args@.len()
            && forall|j: int| 0 <= j < args@.len() ==> same_shape(args@[j], ra@[j]),
        Exp::InternalTailCall(name, args, _) => r matches Exp::InternalTailCall(rn, ra, _) && name@ == rn@
            && ra@.len() == args@.len()
            && forall|j: int| 0 <= j < args@.len() ==> same_shape(args@[j], ra@[j]),
        Exp::ExternalCall { fun, args, is_tail, .. } => r matches Exp::ExternalCall { fun: rf, args: ra, is_tail: rt, .. }
            && same_target(fun, rf) && is_tail == rt && ra@.len() == args@.len()
            && forall|j: int| 0 <= j < args@.len() ==> same_shape(args@[j], ra@[j]),
    }
}

/// The same variable or the same label.
pub open spec fn same_target(a: VarOrLabel, b: VarOrLabel) -> bool {
    match a {
        VarOrLabel::Var(x) => b matches VarOrLabel::Var(y) && x@ == y@,
        VarOrLabel::Label(x) => b matches VarOrLabel::Label(y) && x@ == y@,
    }
}

/// The same immediate.
pub open spec fn same_imm(a: ImmExp, b: ImmExp) -> bool {
    match a {
        ImmExp::Num(x) => b matches ImmExp::Num(y) && x == y,
        ImmExp::Float(x) => b matches ImmExp::Float(y) && x == y,
        ImmExp::Bool(x) => b matches ImmExp::Bool(y) && x == y,
        ImmExp::Var(x) => b matches ImmExp::Var(y) && x@ == y@,
    }
}

/// Two lists of immediates that agree entry by entry.
pub open spec fn same_imms(a: Seq<ImmExp>, b: Seq<ImmExp>) -> bool {
    a.len() == b.len() && forall|j: int| 0 <= j < a.len() ==> same_imm(a[j], b[j])
}

/// `e` and `r` are the same sequential expression but for their annotations.
pub open spec fn same_seq_shape<A, B>(e: SeqExp<A>, r: SeqExp<B>) -> bool
    decreases e,
{
    match e {
        SeqExp::Imm(i, _) => r matches SeqExp::Imm(j, _) && same_imm(i, j),
        SeqExp::Prim(p, args, _) => r matches SeqExp::Prim(q, ra, _) && p == q && same_imms(args@, ra@),
        SeqExp::MakeClosure { arity, label, env, .. } => r matches SeqExp::MakeClosure { arity: ra, label: rl, env: renv, .. }
            && arity == ra && label@ == rl@ && same_imm(env, renv),
        SeqExp::Let { var, bound_exp, body, .. } => r matches SeqExp::Let { var: rv, bound_exp: rbe, body: rb, .. }
            && var@ == rv@ && same_seq_shape(*bound_exp, *rbe) && same_seq_shape(*body, *rb),
        SeqExp::If { cond, thn, els, .. } => r matches SeqExp::If { cond: rc, thn: rt, els: re, .. }
            && same_imm(cond, rc) && same_seq_shape(*thn, *rt) && same_seq_shape(*els, *re),
        SeqExp::FunDefs { decls, body, .. } => r matches SeqExp::FunDefs { decls: rd, body: rb, .. }
            && rd@.len() == decls@.len()
            && (forall|j: int| 0 <= j < decls@.len() ==>
                decls@[j].name@ == rd@[j].name@
                && same_names(decls@[j].parameters@, rd@[j].parameters@)
                && same_seq_shape(decls@[j].body, rd@[j].body))
            && same_seq_shape(*body, *rb),
        SeqExp::InternalTailCall(name, args, _) => r matches SeqExp::InternalTailCall(rn, ra, _)
            && name@ == rn@ && same_imms(args@, ra@),
        SeqExp::ExternalCall { fun, args, is_tail, .. } => r matches SeqExp::ExternalCall { fun: rf, args: ra, is_tail: rt, .. }
            && same_target(fun, rf) && same_imms(args@, ra@) && is_tail == rt,
        SeqExp::Semicolon { e1, e2, .. } => r matches SeqExp::Semicolon { e1: r1, e2: r2, .. }
            && same_seq_shape(*e1, *r1) && same_seq_shape(*e2, *r2),
    }
}

} // verus!
