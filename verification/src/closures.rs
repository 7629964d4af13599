//! Resolving calls: a call of a name defined by an enclosing group of
//! definitions becomes a direct call; any other call becomes a call of a
//! closure.
use vstd::prelude::*;
use crate::syntax::{Exp, FunDecl, Prim};
use crate::expv::{ExpV, DeclX, exp_view, exps_view, boxes_view, binds_view, decls_x, lemma_exp_view_lists};
use crate::names::{texts, copy_names, contains_text};

verus! {

/// `e` holds only forms of the surface language, `;` excepted.
pub open spec fn elim_ok<A>(e: ExpV<A>) -> bool
    decreases e,
{
    match e {
        ExpV::Num(..) | ExpV::Float(..) | ExpV::Bool(..) | ExpV::Var(..) => true,
        ExpV::Prim(_, args, _) => forall|j: int| 0 <= j < args.len() ==> elim_ok(args[j]),
        ExpV::Let { bindings, body, .. } =>
            (forall|j: int| 0 <= j < bindings.len() ==> elim_ok(bindings[j].1)) && elim_ok(*body),
        ExpV::If { cond, thn, els, .. } => elim_ok(*cond) && elim_ok(*thn) && elim_ok(*els),
        ExpV::FunDefs { decls, body, .. } =>
            (forall|j: int| 0 <= j < decls.len() ==> elim_ok(decls[j].body)) && elim_ok(*body),
        ExpV::Call(f, args, _) => elim_ok(*f) && forall|j: int| 0 <= j < args.len() ==> elim_ok(args[j]),
        ExpV::Lambda { body, .. } => elim_ok(*body),
        _ => false,
    }
}

pub open spec fn decl_names_x<A>(ds: Seq<DeclX<A>>) -> Seq<Seq<char>> {
    ds.map_values(|d: DeclX<A>| d.name)
}

/// The resolved form of `e`, and the names of functions known afterwards,
/// when the names `k` are known before. A group of definitions makes its
/// names known for the rest of the walk; a call first resolves its callee,
/// then its arguments. The callee of a call of a closure is resolved afresh,
/// with no name known.
pub open spec fn elim<A>(e: ExpV<A>, k: Seq<Seq<char>>) -> (ExpV<()>, Seq<Seq<char>>)
    decreases e, 1nat, 0nat,
{
    match e {
        ExpV::Num(n, _) => (ExpV::Num(n, ()), k),
        ExpV::Float(x, _) => (ExpV::Float(x, ()), k),
        ExpV::Bool(b, _) => (ExpV::Bool(b, ()), k),
        ExpV::Var(x, _) => (ExpV::Var(x, ()), k),
        ExpV::Prim(p, args, _) => {
            let (ra, k1) = elim_list(args, args.len() as int, k);
            (ExpV::Prim(p, ra, ()), k1)
        },
        ExpV::Let { bindings, body, .. } => {
            let (rb, k1) = elim_binds(bindings, bindings.len() as int, k);
            let (rbody, k2) = elim(*body, k1);
            (ExpV::Let { bindings: rb, body: Box::new(rbody), ann: () }, k2)
        },
        ExpV::If { cond, thn, els, .. } => {
            let (c, k1) = elim(*cond, k);
            let (t, k2) = elim(*thn, k1);
            let (f, k3) = elim(*els, k2);
            (ExpV::If { cond: Box::new(c), thn: Box::new(t), els: Box::new(f), ann: () }, k3)
        },
        ExpV::FunDefs { decls, body, .. } => {
            let (rd, k1) = elim_decls(decls, decls.len() as int, k + decl_names_x(decls));
            let (rbody, k2) = elim(*body, k1);
            (ExpV::FunDefs { decls: rd, body: Box::new(rbody), ann: () }, k2)
        },
        ExpV::Call(f, args, _) => {
            let (rf, k1) = elim(*f, k);
            let (ra, k2) = elim_list(args, args.len() as int, k1);
            match rf {
                ExpV::Var(x, _) => if k1.contains(x) {
                    (ExpV::DirectCall(x, ra, ()), k2)
                } else {
                    (ExpV::ClosureCall(Box::new(elim(*f, Seq::empty()).0), ra, ()), k2)
                },
                _ => (ExpV::ClosureCall(Box::new(elim(*f, Seq::empty()).0), ra, ()), k2),
            }
        },
        ExpV::Lambda { parameters, body, .. } => {
            let (rbody, k1) = elim(*body, k);
            (ExpV::Lambda { parameters, body: Box::new(rbody), ann: () }, k1)
        },
        _ => (ExpV::Num(0, ()), k),
    }
}

pub open spec fn elim_list<A>(s: Seq<ExpV<A>>, i: int, k: Seq<Seq<char>>) -> (Seq<ExpV<()>>, Seq<Seq<char>>)
    decreases s, 0nat, i,
{
    if i <= 0 || i > s.len() {
        (Seq::empty(), k)
    } else {
        let (p, k1) = elim_list(s, i - 1, k);
        let (x, k2) = elim(s[i - 1], k1);
        (p.push(x), k2)
    }
}

pub open spec fn elim_binds<A>(s: Seq<(Seq<char>, ExpV<A>)>, i: int, k: Seq<Seq<char>>)
    -> (Seq<(Seq<char>, ExpV<()>)>, Seq<Seq<char>>)
    decreases s, 0nat, i,
{
    if i <= 0 || i > s.len() {
        (Seq::empty(), k)
    } else {
        let (p, k1) = elim_binds(s, i - 1, k);
        let (x, k2) = elim(s[i - 1].1, k1);
        (p.push((s[i - 1].0, x)), k2)
    }
}

pub open spec fn elim_decls<A>(s: Seq<DeclX<A>>, i: int, k: Seq<Seq<char>>) -> (Seq<DeclX<()>>, Seq<Seq<char>>)
    decreases s, 0nat, i,
{
    if i <= 0 || i > s.len() {
        (Seq::empty(), k)
    } else {
        let (p, k1) = elim_decls(s, i - 1, k);
        let (x, k2) = elim(s[i - 1].body, k1);
        (p.push(DeclX { name: s[i - 1].name, parameters: s[i - 1].parameters, body: x, ann: () }), k2)
    }
}

// ---------------------------------------------------------------------------
// Resolving in code.

pub fn eliminate_closures_helper<Ann>(e: &Exp<Ann>, fun: &mut Vec<String>) -> (r: Exp<()>)
    requires
        elim_ok(exp_view(*e)),
    ensures
        exp_view(r) == elim(exp_view(*e), texts(old(fun)@)).0,
        texts(final(fun)@) == elim(exp_view(*e), texts(old(fun)@)).1,
    decreases e, 1nat,
{
    proof {
        lemma_exp_view_lists(*e);
    }
    match e {
        Exp::Bool(b, _) => Exp::Bool(*b, ()),
        Exp::Num(n, _) => Exp::Num(*n, ()),
        Exp::Float(f, _) => Exp::Float(*f, ()),
        Exp::Var(name, _) => Exp::Var(name.clone(), ()),
        Exp::Prim(p, args, _) => {
            let new_args = elim_boxes(args, fun);
            let r = Exp::Prim(*p, new_args, ());
            proof {
                lemma_exp_view_lists(r);
            }
            r
        },
        Exp::Let { bindings, body, .. } => {
            let new_bindings = elim_bindings(bindings, fun);
            let new_body = eliminate_closures_helper(body, fun);
            let r = Exp::Let { bindings: new_bindings, body: Box::new(new_body), ann: () };
            proof {
                lemma_exp_view_lists(r);
            }
            r
        },
        Exp::If { cond, thn, els, .. } => {
            let c = eliminate_closures_helper(cond, fun);
            let t = eliminate_closures_helper(thn, fun);
            let f = eliminate_closures_helper(els, fun);
            Exp::If { cond: Box::new(c), thn: Box::new(t), els: Box::new(f), ann: () }
        },
        Exp::FunDefs { decls, body, .. } => {
            let ghost k0 = texts(fun@);
            let mut k: usize = 0;
            while k < decls.len()
                invariant
                    k <= decls@.len(),
                    texts(fun@) == k0 + decl_names_x(decls_x(decls@)).take(k as int),
                decreases decls@.len() - k,
            {
                let ghost before = fun@;
                fun.push(decls[k].name.clone());
                proof {
                    assert(texts(fun@) =~= texts(before).push(decls@[k as int].name@));
                    assert(decl_names_x(decls_x(decls@)).take(k + 1)
                        =~= decl_names_x(decls_x(decls@)).take(k as int).push(decls@[k as int].name@));
                }
                k = k + 1;
            }
            assert(decl_names_x(decls_x(decls@)).take(decls@.len() as int) =~= decl_names_x(decls_x(decls@)));
            let new_decls = elim_fun_decls(decls, fun);
            let new_body = eliminate_closures_helper(body, fun);
            let r = Exp::FunDefs { decls: new_decls, body: Box::new(new_body), ann: () };
            proof {
                lemma_exp_view_lists(r);
            }
            r
        },
        Exp::Call(..) => elim_call(e, fun),
        Exp::Lambda { parameters, body, .. } => {
            let new_body = eliminate_closures_helper(body, fun);
            Exp::Lambda { parameters: copy_names(parameters), body: Box::new(new_body), ann: () }
        },
        _ => {
            proof {
                assert(false);
            }
            Exp::Num(0, ())
        },
    }
}

fn elim_call<Ann>(e: &Exp<Ann>, fun: &mut Vec<String>) -> (r: Exp<()>)
    requires
        elim_ok(exp_view(*e)),
        e is Call,
    ensures
        exp_view(r) == elim(exp_view(*e), texts(old(fun)@)).0,
        texts(final(fun)@) == elim(exp_view(*e), texts(old(fun)@)).1,
    decreases e, 0nat,
{
    proof {
        lemma_exp_view_lists(*e);
    }
    match e {
        Exp::Call(name, args, ..) => {
            let callee = eliminate_closures_helper(name, fun);
            let direct = match &callee {
                Exp::Var(x, _) => contains_text(fun, x),
                _ => false,
            };
            let new_args = elim_exps(args, fun);
            if direct {
                match callee {
                    Exp::Var(x, _) => {
                        let r = Exp::DirectCall(x, new_args, ());
                        proof {
                            lemma_exp_view_lists(r);
                        }
                        r
                    },
                    _ => Exp::Num(0, ()),
                }
            } else {
                let f = eliminate_closures(name);
                let r = Exp::ClosureCall(Box::new(f), new_args, ());
                proof {
                    lemma_exp_view_lists(r);
                }
                r
            }
        },
        _ => Exp::Num(0, ()),
    }
}

fn elim_boxes<Ann>(s: &Vec<Box<Exp<Ann>>>, fun: &mut Vec<String>) -> (r: Vec<Box<Exp<()>>>)
    requires
        forall|j: int| 0 <= j < s@.len() ==> elim_ok(#[trigger] boxes_view(s@)[j]),
    ensures
        boxes_view(r@) == elim_list(boxes_view(s@), s@.len() as int, texts(old(fun)@)).0,
        texts(final(fun)@) == elim_list(boxes_view(s@), s@.len() as int, texts(old(fun)@)).1,
    decreases s, 0nat,
{
    let ghost k0 = texts(fun@);
    let ghost v = boxes_view(s@);
    let mut out: Vec<Box<Exp<()>>> = Vec::new();
    let mut k: usize = 0;
    while k < s.len()
        invariant
            k <= s@.len(),
            v == boxes_view(s@),
            forall|j: int| 0 <= j < s@.len() ==> elim_ok(#[trigger] v[j]),
            out@.len() == k,
            elim_list(v, k as int, k0).0.len() == k,
            forall|j: int| 0 <= j < k ==> exp_view(*#[trigger] out@[j]) == elim_list(v, k as int, k0).0[j],
            texts(fun@) == elim_list(v, k as int, k0).1,
        decreases s@.len() - k,
    {
        assert(v[k as int] == exp_view(*s@[k as int]));
        let x = eliminate_closures_helper(&s[k], fun);
        out.push(Box::new(x));
        k = k + 1;
    }
    assert(boxes_view(out@) =~= elim_list(v, s@.len() as int, k0).0);
    out
}

fn elim_exps<Ann>(s: &Vec<Exp<Ann>>, fun: &mut Vec<String>) -> (r: Vec<Exp<()>>)
    requires
        forall|j: int| 0 <= j < s@.len() ==> elim_ok(#[trigger] exps_view(s@)[j]),
    ensures
        exps_view(r@) == elim_list(exps_view(s@), s@.len() as int, texts(old(fun)@)).0,
        texts(final(fun)@) == elim_list(exps_view(s@), s@.len() as int, texts(old(fun)@)).1,
    decreases s, 0nat,
{
    let ghost k0 = texts(fun@);
    let ghost v = exps_view(s@);
    let mut out: Vec<Exp<()>> = Vec::new();
    let mut k: usize = 0;
    while k < s.len()
        invariant
            k <= s@.len(),
            v == exps_view(s@),
            forall|j: int| 0 <= j < s@.len() ==> elim_ok(#[trigger] v[j]),
            out@.len() == k,
            elim_list(v, k as int, k0).0.len() == k,
            forall|j: int| 0 <= j < k ==> exp_view(#[trigger] out@[j]) == elim_list(v, k as int, k0).0[j],
            texts(fun@) == elim_list(v, k as int, k0).1,
        decreases s@.len() - k,
    {
        assert(v[k as int] == exp_view(s@[k as int]));
        let x = eliminate_closures_helper(&s[k], fun);
        out.push(x);
        k = k + 1;
    }
    assert(exps_view(out@) =~= elim_list(v, s@.len() as int, k0).0);
    out
}

fn elim_bindings<Ann>(s: &Vec<(String, Exp<Ann>)>, fun: &mut Vec<String>) -> (r: Vec<(String, Exp<()>)>)
    requires
        forall|j: int| 0 <= j < s@.len() ==> elim_ok(#[trigger] binds_view(s@)[j].1),
    ensures
        binds_view(r@) == elim_binds(binds_view(s@), s@.len() as int, texts(old(fun)@)).0,
        texts(final(fun)@) == elim_binds(binds_view(s@), s@.len() as int, texts(old(fun)@)).1,
    decreases s, 0nat,
{
    let ghost k0 = texts(fun@);
    let ghost v = binds_view(s@);
    let mut out: Vec<(String, Exp<()>)> = Vec::new();
    let mut k: usize = 0;
    while k < s.len()
        invariant
            k <= s@.len(),
            v == binds_view(s@),
            forall|j: int| 0 <= j < s@.len() ==> elim_ok(#[trigger] v[j].1),
            out@.len() == k,
            elim_binds(v, k as int, k0).0.len() == k,
            forall|j: int| 0 <= j < k ==> ((#[trigger] out@[j]).0@, exp_view(out@[j].1)) == elim_binds(v, k as int, k0).0[j],
            texts(fun@) == elim_binds(v, k as int, k0).1,
        decreases s@.len() - k,
    {
        assert(v[k as int] == (s@[k as int].0@, exp_view(s@[k as int].1)));
        assert(elim_ok(v[k as int].1));
        let x = eliminate_closures_helper(&s[k].1, fun);
        out.push((s[k].0.clone(), x));
        k = k + 1;
    }
    assert(binds_view(out@) =~= elim_binds(v, s@.len() as int, k0).0);
    out
}

fn elim_fun_decls<Ann>(s: &Vec<FunDecl<Exp<Ann>, Ann>>, fun: &mut Vec<String>) -> (r: Vec<FunDecl<Exp<()>, ()>>)
    requires
        forall|j: int| 0 <= j < s@.len() ==> elim_ok(#[trigger] decls_x(s@)[j].body),
    ensures
        decls_x(r@) == elim_decls(decls_x(s@), s@.len() as int, texts(old(fun)@)).0,
        texts(final(fun)@) == elim_decls(decls_x(s@), s@.len() as int, texts(old(fun)@)).1,
    decreases s, 0nat,
{
    let ghost k0 = texts(fun@);
    let ghost v = decls_x(s@);
    let mut out: Vec<FunDecl<Exp<()>, ()>> = Vec::new();
    let mut k: usize = 0;
    while k < s.len()
        invariant
            k <= s@.len(),
            v == decls_x(s@),
            forall|j: int| 0 <= j < s@.len() ==> elim_ok(#[trigger] v[j].body),
            out@.len() == k,
            elim_decls(v, k as int, k0).0.len() == k,
            forall|j: int| 0 <= j < k ==> decls_x(out@)[j] == #[trigger] elim_decls(v, k as int, k0).0[j],
            texts(fun@) == elim_decls(v, k as int, k0).1,
        decreases s@.len() - k,
    {
        assert(v[k as int].body == exp_view(s@[k as int].body));
        assert(elim_ok(v[k as int].body));
        let x = eliminate_closures_helper(&s[k].body, fun);
        let d = FunDecl { name: s[k].name.clone(), parameters: copy_names(&s[k].parameters), body: x, ann: () };
        let ghost before = out@;
        out.push(d);
        proof {
            assert forall|j: int| 0 <= j < k + 1 implies decls_x(out@)[j] == #[trigger] elim_decls(v, k + 1, k0).0[j] by {
                if j < k {
                    assert(out@[j] == before[j]);
                    assert(decls_x(out@)[j] == decls_x(before)[j]);
                }
            }
        }
        k = k + 1;
    }
    assert(decls_x(out@) =~= elim_decls(v, s@.len() as int, k0).0);
    out
}

/// Resolves the calls of `e`, with no function known at first.
pub fn eliminate_closures<Ann>(e: &Exp<Ann>) -> (r: Exp<()>)
    requires
        elim_ok(exp_view(*e)),
    ensures
        exp_view(r) == elim(exp_view(*e), Seq::empty()).0,
    decreases e, 2nat,
{
    let mut fun: Vec<String> = Vec::new();
    assert(texts(fun@) =~= Seq::<Seq<char>>::empty());
    eliminate_closures_helper(e, &mut fun)
}

// ---------------------------------------------------------------------------
// Laws.

/// Resolving a list resolves each element in turn: the result has one
/// entry per element, the `i`-th being the `i`-th element resolved with
/// what the elements before it made known.
pub proof fn lemma_elim_list_each<A>(s: Seq<ExpV<A>>, i: int, k: Seq<Seq<char>>)
    requires
        0 <= i <= s.len(),
    ensures
        elim_list(s, i, k).0.len() == i,
        forall|j: int| 0 <= j < i ==> #[trigger] elim_list(s, i, k).0[j] == elim(s[j], elim_list(s, j, k).1).0,
    decreases i,
{
    if i > 0 {
        lemma_elim_list_each(s, i - 1, k);
        let (p, k1) = elim_list(s, i - 1, k);
        assert forall|j: int| 0 <= j < i implies #[trigger] elim_list(s, i, k).0[j] == elim(s[j], elim_list(s, j, k).1).0 by {
            if j < i - 1 {
                assert(elim_list(s, i, k).0[j] == p[j]);
            }
        }
    }
}

/// A call of a function known at that point becomes a direct call of that
/// function that keeps the call's arguments: one for each argument, in the
/// same order, the `i`-th being the `i`-th argument resolved.
pub proof fn lemma_elim_direct_call<A>(f: ExpV<A>, args: Seq<ExpV<A>>, a: A, k: Seq<Seq<char>>)
    requires
        elim(f, k).0 matches ExpV::Var(x, _) && elim(f, k).1.contains(x),
    ensures
        elim(ExpV::Call(Box::new(f), args, a), k).0 matches ExpV::DirectCall(x, ra, _) && {
            &&& elim(f, k).0 == ExpV::Var(x, ())
            &&& ra.len() == args.len()
            &&& forall|i: int| 0 <= i < args.len() ==>
                #[trigger] ra[i] == elim(args[i], elim_list(args, i, elim(f, k).1).1).0
        },
{
    lemma_elim_list_each(args, args.len() as int, elim(f, k).1);
}


/// A call of anything but a function known at that point becomes a call
/// through a closure that keeps the call's arguments: one for each argument,
/// in the same order, the `i`-th being the `i`-th argument resolved.
pub proof fn lemma_elim_closure_call<A>(f: ExpV<A>, args: Seq<ExpV<A>>, a: A, k: Seq<Seq<char>>)
    requires
        !(elim(f, k).0 matches ExpV::Var(x, _) && elim(f, k).1.contains(x)),
    ensures
        elim(ExpV::Call(Box::new(f), args, a), k).0 matches ExpV::ClosureCall(c, ra, _) && {
            &&& *c == elim(f, Seq::empty()).0
            &&& ra.len() == args.len()
            &&& forall|i: int| 0 <= i < args.len() ==>
                #[trigger] ra[i] == elim(args[i], elim_list(args, i, elim(f, k).1).1).0
        },
{
    lemma_elim_list_each(args, args.len() as int, elim(f, k).1);
}

/// Resolving the operands of an operator keeps them: one for each operand,
/// in the same order, the `i`-th being the `i`-th operand resolved.
pub proof fn lemma_elim_prim_operands<A>(p: Prim, args: Seq<ExpV<A>>, a: A, k: Seq<Seq<char>>)
    ensures
        elim(ExpV::Prim(p, args, a), k).0 matches ExpV::Prim(q, ra, _) && {
            &&& q == p
            &&& ra.len() == args.len()
            &&& forall|i: int| 0 <= i < args.len() ==>
                #[trigger] ra[i] == elim(args[i], elim_list(args, i, k).1).0
        },
{
    lemma_elim_list_each(args, args.len() as int, k);
}

} // verus!
