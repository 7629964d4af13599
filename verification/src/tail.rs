//! Marking tail positions: each node is annotated with whether it is in
//! tail position of the nearest enclosing function.
use vstd::prelude::*;
use crate::syntax::{Exp, FunDecl};
use crate::expv::{ExpV, DeclX, exp_view, exps_view, boxes_view, binds_view, decls_x, lemma_exp_view_lists};
use crate::names::copy_names;

verus! {

/// `e` holds no `;`, no unresolved call, and none of the forms that lambda
/// lifting introduces.
pub open spec fn resolved<A>(e: ExpV<A>) -> bool
    decreases e,
{
    match e {
        ExpV::Num(..) | ExpV::Float(..) | ExpV::Bool(..) | ExpV::Var(..) => true,
        ExpV::Prim(_, args, _) => forall|j: int| 0 <= j < args.len() ==> resolved(args[j]),
        ExpV::Let { bindings, body, .. } =>
            (forall|j: int| 0 <= j < bindings.len() ==> resolved(bindings[j].1)) && resolved(*body),
        ExpV::If { cond, thn, els, .. } => resolved(*cond) && resolved(*thn) && resolved(*els),
        ExpV::FunDefs { decls, body, .. } =>
            (forall|j: int| 0 <= j < decls.len() ==> resolved(decls[j].body)) && resolved(*body),
        ExpV::DirectCall(_, args, _) => forall|j: int| 0 <= j < args.len() ==> resolved(args[j]),
        ExpV::ClosureCall(f, args, _) => resolved(*f) && forall|j: int| 0 <= j < args.len() ==> resolved(args[j]),
        ExpV::Lambda { body, .. } => resolved(*body),
        _ => false,
    }
}

/// `e` with each node annotated by whether it is in tail position, `t`
/// saying whether `e` itself is. The body of a definition is in tail
/// position; operands, bindings, conditions, callees and arguments are not.
pub open spec fn mark<A>(e: ExpV<A>, t: bool) -> ExpV<bool>
    decreases e,
{
    match e {
        ExpV::Num(n, _) => ExpV::Num(n, false),
        ExpV::Float(x, _) => ExpV::Float(x, false),
        ExpV::Bool(b, _) => ExpV::Bool(b, false),
        ExpV::Var(x, _) => ExpV::Var(x, false),
        ExpV::Prim(p, args, _) => ExpV::Prim(p, Seq::new(args.len(), |j: int|
            if 0 <= j < args.len() { mark(args[j], false) } else { ExpV::Num(0, false) }), t),
        ExpV::Let { bindings, body, .. } => ExpV::Let {
            bindings: Seq::new(bindings.len(), |j: int|
                if 0 <= j < bindings.len() { (bindings[j].0, mark(bindings[j].1, false)) } else { (Seq::empty(), ExpV::Num(0, false)) }),
            body: Box::new(mark(*body, t)),
            ann: t,
        },
        ExpV::If { cond, thn, els, .. } => ExpV::If {
            cond: Box::new(mark(*cond, false)),
            thn: Box::new(mark(*thn, t)),
            els: Box::new(mark(*els, t)),
            ann: t,
        },
        ExpV::FunDefs { decls, body, .. } => ExpV::FunDefs {
            decls: Seq::new(decls.len(), |j: int|
                if 0 <= j < decls.len() {
                    DeclX { name: decls[j].name, parameters: decls[j].parameters, body: mark(decls[j].body, true), ann: t }
                } else {
                    DeclX { name: Seq::empty(), parameters: Seq::empty(), body: ExpV::Num(0, false), ann: t }
                }),
            body: Box::new(mark(*body, t)),
            ann: t,
        },
        ExpV::DirectCall(name, args, _) => ExpV::DirectCall(name, Seq::new(args.len(), |j: int|
            if 0 <= j < args.len() { mark(args[j], false) } else { ExpV::Num(0, false) }), t),
        ExpV::ClosureCall(f, args, _) => ExpV::ClosureCall(Box::new(mark(*f, false)), Seq::new(args.len(), |j: int|
            if 0 <= j < args.len() { mark(args[j], false) } else { ExpV::Num(0, false) }), t),
        ExpV::Lambda { parameters, body, .. } => ExpV::Lambda { parameters, body: Box::new(mark(*body, t)), ann: t },
        _ => ExpV::Num(0, false),
    }
}

pub fn mark_tail<Ann>(p: &Exp<Ann>, is_tail: bool) -> (r: Exp<bool>)
    requires
        resolved(exp_view(*p)),
    ensures
        exp_view(r) == mark(exp_view(*p), is_tail),
    decreases p, 1nat,
{
    proof {
        lemma_exp_view_lists(*p);
    }
    match p {
        Exp::Num(n, _) => Exp::Num(*n, false),
        Exp::Bool(b, _) => Exp::Bool(*b, false),
        Exp::Float(f, _) => Exp::Float(*f, false),
        Exp::Var(name, _) => Exp::Var(name.clone(), false),
        Exp::Prim(pr, args, _) => {
            let new_args = mark_boxes(args);
            let r = Exp::Prim(*pr, new_args, is_tail);
            proof {
                lemma_exp_view_lists(r);
                assert(boxes_view(new_args@) =~= mark(exp_view(*p), is_tail)->Prim_1);
            }
            r
        },
        Exp::Let { bindings, body, .. } => {
            let new_bindings = mark_binds(bindings);
            let new_body = mark_tail(body, is_tail);
            let r = Exp::Let { bindings: new_bindings, body: Box::new(new_body), ann: is_tail };
            proof {
                lemma_exp_view_lists(r);
                assert(binds_view(new_bindings@) =~= mark(exp_view(*p), is_tail)->Let_bindings);
            }
            r
        },
        Exp::If { cond, thn, els, .. } => Exp::If {
            cond: Box::new(mark_tail(cond, false)),
            thn: Box::new(mark_tail(thn, is_tail)),
            els: Box::new(mark_tail(els, is_tail)),
            ann: is_tail,
        },
        Exp::FunDefs { decls, body, .. } => {
            let new_decls = mark_decls(decls, is_tail);
            let new_body = mark_tail(body, is_tail);
            let r = Exp::FunDefs { decls: new_decls, body: Box::new(new_body), ann: is_tail };
            proof {
                lemma_exp_view_lists(r);
                assert(decls_x(new_decls@) =~= mark(exp_view(*p), is_tail)->FunDefs_decls);
            }
            r
        },
        Exp::DirectCall(name, args, _) => {
            let new_args = mark_exps(args);
            let r = Exp::DirectCall(name.clone(), new_args, is_tail);
            proof {
                lemma_exp_view_lists(r);
                assert(exps_view(new_args@) =~= mark(exp_view(*p), is_tail)->DirectCall_1);
            }
            r
        },
        Exp::ClosureCall(fun, args, _) => {
            let new_args = mark_exps(args);
            let new_fun = mark_tail(fun, false);
            let r = Exp::ClosureCall(Box::new(new_fun), new_args, is_tail);
            proof {
                lemma_exp_view_lists(r);
                assert(exps_view(new_args@) =~= mark(exp_view(*p), is_tail)->ClosureCall_1);
            }
            r
        },
        Exp::Lambda { parameters, body, .. } => Exp::Lambda {
            parameters: copy_names(parameters),
            body: Box::new(mark_tail(body, is_tail)),
            ann: is_tail,
        },
        _ => {
            proof {
                assert(false);
            }
            Exp::Num(0, false)
        },
    }
}

fn mark_boxes<Ann>(s: &Vec<Box<Exp<Ann>>>) -> (r: Vec<Box<Exp<bool>>>)
    requires
        forall|j: int| 0 <= j < s@.len() ==> resolved(#[trigger] boxes_view(s@)[j]),
    ensures
        r@.len() == s@.len(),
        forall|j: int| 0 <= j < s@.len() ==> exp_view(*#[trigger] r@[j]) == mark(boxes_view(s@)[j], false),
    decreases s, 0nat,
{
    let mut out: Vec<Box<Exp<bool>>> = Vec::new();
    let mut k: usize = 0;
    while k < s.len()
        invariant
            k <= s@.len(),
            forall|j: int| 0 <= j < s@.len() ==> resolved(#[trigger] boxes_view(s@)[j]),
            out@.len() == k,
            forall|j: int| 0 <= j < k ==> exp_view(*#[trigger] out@[j]) == mark(boxes_view(s@)[j], false),
        decreases s@.len() - k,
    {
        assert(boxes_view(s@)[k as int] == exp_view(*s@[k as int]));
        out.push(Box::new(mark_tail(&s[k], false)));
        k = k + 1;
    }
    out
}

fn mark_exps<Ann>(s: &Vec<Exp<Ann>>) -> (r: Vec<Exp<bool>>)
    requires
        forall|j: int| 0 <= j < s@.len() ==> resolved(#[trigger] exps_view(s@)[j]),
    ensures
        r@.len() == s@.len(),
        forall|j: int| 0 <= j < s@.len() ==> exp_view(#[trigger] r@[j]) == mark(exps_view(s@)[j], false),
    decreases s, 0nat,
{
    let mut out: Vec<Exp<bool>> = Vec::new();
    let mut k: usize = 0;
    while k < s.len()
        invariant
            k <= s@.len(),
            forall|j: int| 0 <= j < s@.len() ==> resolved(#[trigger] exps_view(s@)[j]),
            out@.len() == k,
            forall|j: int| 0 <= j < k ==> exp_view(#[trigger] out@[j]) == mark(exps_view(s@)[j], false),
        decreases s@.len() - k,
    {
        assert(exps_view(s@)[k as int] == exp_view(s@[k as int]));
        out.push(mark_tail(&s[k], false));
        k = k + 1;
    }
    out
}

fn mark_binds<Ann>(s: &Vec<(String, Exp<Ann>)>) -> (r: Vec<(String, Exp<bool>)>)
    requires
        forall|j: int| 0 <= j < s@.len() ==> resolved(#[trigger] binds_view(s@)[j].1),
    ensures
        r@.len() == s@.len(),
        forall|j: int| 0 <= j < s@.len() ==> (#[trigger] r@[j]).0@ == s@[j].0@
            && exp_view(r@[j].1) == mark(binds_view(s@)[j].1, false),
    decreases s, 0nat,
{
    let mut out: Vec<(String, Exp<bool>)> = Vec::new();
    let mut k: usize = 0;
    while k < s.len()
        invariant
            k <= s@.len(),
            forall|j: int| 0 <= j < s@.len() ==> resolved(#[trigger] binds_view(s@)[j].1),
            out@.len() == k,
            forall|j: int| 0 <= j < k ==> (#[trigger] out@[j]).0@ == s@[j].0@
                && exp_view(out@[j].1) == mark(binds_view(s@)[j].1, false),
        decreases s@.len() - k,
    {
        assert(binds_view(s@)[k as int].1 == exp_view(s@[k as int].1));
        let x = mark_tail(&s[k].1, false);
        out.push((s[k].0.clone(), x));
        k = k + 1;
    }
    out
}

fn mark_decls<Ann>(s: &Vec<FunDecl<Exp<Ann>, Ann>>, is_tail: bool) -> (r: Vec<FunDecl<Exp<bool>, bool>>)
    requires
        forall|j: int| 0 <= j < s@.len() ==> resolved(#[trigger] decls_x(s@)[j].body),
    ensures
        r@.len() == s@.len(),
        forall|j: int| 0 <= j < s@.len() ==> (#[trigger] r@[j]).name@ == s@[j].name@
            && r@[j].parameters@ == s@[j].parameters@ && r@[j].ann == is_tail
            && exp_view(r@[j].body) == mark(decls_x(s@)[j].body, true),
    decreases s, 0nat,
{
    let mut out: Vec<FunDecl<Exp<bool>, bool>> = Vec::new();
    let mut k: usize = 0;
    while k < s.len()
        invariant
            k <= s@.len(),
            forall|j: int| 0 <= j < s@.len() ==> resolved(#[trigger] decls_x(s@)[j].body),
            out@.len() == k,
            forall|j: int| 0 <= j < k ==> (#[trigger] out@[j]).name@ == s@[j].name@
                && out@[j].parameters@ == s@[j].parameters@ && out@[j].ann == is_tail
                && exp_view(out@[j].body) == mark(decls_x(s@)[j].body, true),
        decreases s@.len() - k,
    {
        assert(decls_x(s@)[k as int].body == exp_view(s@[k as int].body));
        let b = mark_tail(&s[k].body, true);
        out.push(FunDecl { name: s[k].name.clone(), parameters: copy_names(&s[k].parameters), body: b, ann: is_tail });
        k = k + 1;
    }
    out
}

} // verus!
