//! Expressions as values: the same forms with texts in place of strings and
//! sequences in place of vectors.
use vstd::prelude::*;
use crate::syntax::{Exp, FunDecl, Prim};
use crate::seqview::{TargetV, target_view};
use crate::names::texts;

verus! {

pub enum ExpV<A> {
    Num(i64, A),
    Float(u32, A),
    Bool(bool, A),
    Var(Seq<char>, A),
    Prim(Prim, Seq<ExpV<A>>, A),
    Let { bindings: Seq<(Seq<char>, ExpV<A>)>, body: Box<ExpV<A>>, ann: A },
    If { cond: Box<ExpV<A>>, thn: Box<ExpV<A>>, els: Box<ExpV<A>>, ann: A },
    Semicolon { e1: Box<ExpV<A>>, e2: Box<ExpV<A>>, ann: A },
    FunDefs { decls: Seq<DeclX<A>>, body: Box<ExpV<A>>, ann: A },
    Lambda { parameters: Seq<Seq<char>>, body: Box<ExpV<A>>, ann: A },
    MakeClosure { arity: usize, label: Seq<char>, env: Box<ExpV<A>>, ann: A },
    Call(Box<ExpV<A>>, Seq<ExpV<A>>, A),
    ClosureCall(Box<ExpV<A>>, Seq<ExpV<A>>, A),
    DirectCall(Seq<char>, Seq<ExpV<A>>, A),
    InternalTailCall(Seq<char>, Seq<ExpV<A>>, A),
    ExternalCall { fun: TargetV, args: Seq<ExpV<A>>, is_tail: bool, ann: A },
}

/// A function definition: name, parameters, body and annotation.
pub struct DeclX<A> {
    pub name: Seq<char>,
    pub parameters: Seq<Seq<char>>,
    pub body: ExpV<A>,
    pub ann: A,
}

/// No group of function definitions occurs anywhere in `e`.
pub open spec fn defs_free<A>(e: ExpV<A>) -> bool
    decreases e,
{
    match e {
        ExpV::Num(..) | ExpV::Float(..) | ExpV::Bool(..) | ExpV::Var(..) => true,
        ExpV::Prim(_, args, _) => forall|j: int| 0 <= j < args.len() ==> defs_free(args[j]),
        ExpV::Let { bindings, body, .. } =>
            (forall|j: int| 0 <= j < bindings.len() ==> defs_free(bindings[j].1)) && defs_free(*body),
        ExpV::If { cond, thn, els, .. } => defs_free(*cond) && defs_free(*thn) && defs_free(*els),
        ExpV::Semicolon { e1, e2, .. } => defs_free(*e1) && defs_free(*e2),
        ExpV::FunDefs { .. } => false,
        ExpV::Lambda { body, .. } => defs_free(*body),
        ExpV::MakeClosure { env, .. } => defs_free(*env),
        ExpV::Call(f, args, _) => defs_free(*f) && forall|j: int| 0 <= j < args.len() ==> defs_free(args[j]),
        ExpV::ClosureCall(f, args, _) => defs_free(*f) && forall|j: int| 0 <= j < args.len() ==> defs_free(args[j]),
        ExpV::DirectCall(_, args, _) => forall|j: int| 0 <= j < args.len() ==> defs_free(args[j]),
        ExpV::InternalTailCall(_, args, _) => forall|j: int| 0 <= j < args.len() ==> defs_free(args[j]),
        ExpV::ExternalCall { args, .. } => forall|j: int| 0 <= j < args.len() ==> defs_free(args[j]),
    }
}

/// The value of an expression.
pub open spec fn exp_view<A>(e: Exp<A>) -> ExpV<A>
    decreases e,
{
    match e {
        Exp::Num(n, a) => ExpV::Num(n, a),
        Exp::Float(x, a) => ExpV::Float(x, a),
        Exp::Bool(b, a) => ExpV::Bool(b, a),
        Exp::Var(x, a) => ExpV::Var(x@, a),
        Exp::Prim(p, args, a) => ExpV::Prim(p, Seq::new(args@.len(), |j: int|
            if 0 <= j < args@.len() { exp_view(*args@[j]) } else { ExpV::Num(0, a) }), a),
        Exp::Let { bindings, body, ann } => ExpV::Let {
            bindings: Seq::new(bindings@.len(), |j: int|
                if 0 <= j < bindings@.len() { (bindings@[j].0@, exp_view(bindings@[j].1)) } else { (Seq::empty(), ExpV::Num(0, ann)) }),
            body: Box::new(exp_view(*body)),
            ann,
        },
        Exp::If { cond, thn, els, ann } => ExpV::If {
            cond: Box::new(exp_view(*cond)),
            thn: Box::new(exp_view(*thn)),
            els: Box::new(exp_view(*els)),
            ann,
        },
        Exp::Semicolon { e1, e2, ann } => ExpV::Semicolon { e1: Box::new(exp_view(*e1)), e2: Box::new(exp_view(*e2)), ann },
        Exp::FunDefs { decls, body, ann } => ExpV::FunDefs {
            decls: Seq::new(decls@.len(), |j: int|
                if 0 <= j < decls@.len() {
                    DeclX {
                        name: decls@[j].name@,
                        parameters: texts(decls@[j].parameters@),
                        body: exp_view(decls@[j].body),
                        ann: decls@[j].ann,
                    }
                } else {
                    DeclX { name: Seq::empty(), parameters: Seq::empty(), body: ExpV::Num(0, ann), ann }
                }),
            body: Box::new(exp_view(*body)),
            ann,
        },
        Exp::Lambda { parameters, body, ann } => ExpV::Lambda {
            parameters: texts(parameters@),
            body: Box::new(exp_view(*body)),
            ann,
        },
        Exp::MakeClosure { arity, label, env, ann } => ExpV::MakeClosure { arity, label: label@, env: Box::new(exp_view(*env)), ann },
        Exp::Call(f, args, a) => ExpV::Call(Box::new(exp_view(*f)), Seq::new(args@.len(), |j: int|
            if 0 <= j < args@.len() { exp_view(args@[j]) } else { ExpV::Num(0, a) }), a),
        Exp::ClosureCall(f, args, a) => ExpV::ClosureCall(Box::new(exp_view(*f)), Seq::new(args@.len(), |j: int|
            if 0 <= j < args@.len() { exp_view(args@[j]) } else { ExpV::Num(0, a) }), a),
        Exp::DirectCall(name, args, a) => ExpV::DirectCall(name@, Seq::new(args@.len(), |j: int|
            if 0 <= j < args@.len() { exp_view(args@[j]) } else { ExpV::Num(0, a) }), a),
        Exp::InternalTailCall(name, args, a) => ExpV::InternalTailCall(name@, Seq::new(args@.len(), |j: int|
            if 0 <= j < args@.len() { exp_view(args@[j]) } else { ExpV::Num(0, a) }), a),
        Exp::ExternalCall { fun, args, is_tail, ann } => ExpV::ExternalCall {
            fun: target_view(fun),
            args: Seq::new(args@.len(), |j: int| if 0 <= j < args@.len() { exp_view(args@[j]) } else { ExpV::Num(0, ann) }),
            is_tail,
            ann,
        },
    }
}

/// The values of a list of expressions.
pub open spec fn exps_view<A>(s: Seq<Exp<A>>) -> Seq<ExpV<A>> {
    s.map_values(|x: Exp<A>| exp_view(x))
}

/// The values of a list of boxed expressions.
pub open spec fn boxes_view<A>(s: Seq<Box<Exp<A>>>) -> Seq<ExpV<A>> {
    s.map_values(|x: Box<Exp<A>>| exp_view(*x))
}

/// The values of a list of definitions.
pub open spec fn decls_x<A>(s: Seq<FunDecl<Exp<A>, A>>) -> Seq<DeclX<A>> {
    s.map_values(|d: FunDecl<Exp<A>, A>| DeclX {
        name: d.name@,
        parameters: texts(d.parameters@),
        body: exp_view(d.body),
        ann: d.ann,
    })
}

/// The values of a list of bindings.
pub open spec fn binds_view<A>(s: Seq<(String, Exp<A>)>) -> Seq<(Seq<char>, ExpV<A>)> {
    s.map_values(|b: (String, Exp<A>)| (b.0@, exp_view(b.1)))
}

/// The view of each form with lists, in terms of the list views.
pub proof fn lemma_exp_view_lists<A>(e: Exp<A>)
    ensures
        e matches Exp::Prim(p, args, a) ==> exp_view(e) == ExpV::Prim(p, boxes_view(args@), a),
        e matches Exp::Let { bindings, body, ann } ==> exp_view(e) == (ExpV::Let {
            bindings: binds_view(bindings@), body: Box::new(exp_view(*body)), ann }),
        e matches Exp::FunDefs { decls, body, ann } ==> exp_view(e) == (ExpV::FunDefs {
            decls: decls_x(decls@), body: Box::new(exp_view(*body)), ann }),
        e matches Exp::Call(f, args, a) ==> exp_view(e) == ExpV::Call(Box::new(exp_view(*f)), exps_view(args@), a),
        e matches Exp::ClosureCall(f, args, a) ==> exp_view(e) == ExpV::ClosureCall(Box::new(exp_view(*f)), exps_view(args@), a),
        e matches Exp::DirectCall(x, args, a) ==> exp_view(e) == ExpV::DirectCall(x@, exps_view(args@), a),
        e matches Exp::InternalTailCall(x, args, a) ==> exp_view(e) == ExpV::InternalTailCall(x@, exps_view(args@), a),
        e matches Exp::ExternalCall { fun, args, is_tail, ann } ==> exp_view(e) == (ExpV::ExternalCall {
            fun: target_view(fun), args: exps_view(args@), is_tail, ann }),
{
    match e {
        Exp::Prim(p, args, a) => {
            assert(exp_view(e)->Prim_1 =~= boxes_view(args@));
        },
        Exp::Let { bindings, body, ann } => {
            assert(exp_view(e)->Let_bindings =~= binds_view(bindings@));
        },
        Exp::FunDefs { decls, body, ann } => {
            assert(exp_view(e)->FunDefs_decls =~= decls_x(decls@));
        },
        Exp::Call(f, args, a) => {
            assert(exp_view(e)->Call_1 =~= exps_view(args@));
        },
        Exp::ClosureCall(f, args, a) => {
            assert(exp_view(e)->ClosureCall_1 =~= exps_view(args@));
        },
        Exp::DirectCall(x, args, a) => {
            assert(exp_view(e)->DirectCall_1 =~= exps_view(args@));
        },
        Exp::InternalTailCall(x, args, a) => {
            assert(exp_view(e)->InternalTailCall_1 =~= exps_view(args@));
        },
        Exp::ExternalCall { fun, args, is_tail, ann } => {
            assert(exp_view(e)->ExternalCall_args =~= exps_view(args@));
        },
        _ => {},
    }
}

} // verus!
