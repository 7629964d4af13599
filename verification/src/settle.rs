//! Rounds of variable capture always come to rest: every round only adds
//! parameters, each taken from the names the program already holds, so the
//! number of (definition, name) pairs still to add shrinks with each round
//! that changes anything.
use vstd::prelude::*;
use crate::expv::{ExpV, DeclX};
use crate::anf::FunsV;
use crate::freevars::{add_front, add_missing, bvars, bvars_binds, bvars_list, remove_each, remove_first, all_params};
use crate::capture::{capture_fold, vcap, vcap_decls, vcap_iter, vcap_settles};
use crate::recur::decl_funs;

verus! {

// ---------------------------------------------------------------------------
// Names.

/// Every name of `a` is a name of `b`.
pub open spec fn included(a: Seq<Seq<char>>, b: Seq<Seq<char>>) -> bool {
    forall|x: Seq<char>| #[trigger] a.contains(x) ==> b.contains(x)
}

proof fn lemma_contains_add(a: Seq<Seq<char>>, b: Seq<Seq<char>>, x: Seq<char>)
    ensures
        (a + b).contains(x) <==> a.contains(x) || b.contains(x),
{
    if a.contains(x) {
        let i = choose|i: int| 0 <= i < a.len() && a[i] == x;
        assert((a + b)[i] == x);
    }
    if b.contains(x) {
        let i = choose|i: int| 0 <= i < b.len() && b[i] == x;
        assert((a + b)[a.len() + i] == x);
    }
    if (a + b).contains(x) {
        let i = choose|i: int| 0 <= i < (a + b).len() && (a + b)[i] == x;
        if i < a.len() {
            assert(a[i] == x);
        } else {
            assert(b[i - a.len()] == x);
        }
    }
}

proof fn lemma_included_add(a: Seq<Seq<char>>, b: Seq<Seq<char>>, c: Seq<Seq<char>>, d: Seq<Seq<char>>)
    requires
        included(a, c),
        included(b, d),
    ensures
        included(a + b, c + d),
{
    assert forall|x: Seq<char>| #[trigger] (a + b).contains(x) implies (c + d).contains(x) by {
        lemma_contains_add(a, b, x);
        lemma_contains_add(c, d, x);
    }
}

proof fn lemma_included_parts(a: Seq<Seq<char>>, b: Seq<Seq<char>>, u: Seq<Seq<char>>)
    requires
        included(a + b, u),
    ensures
        included(a, u),
        included(b, u),
{
    assert forall|x: Seq<char>| #[trigger] a.contains(x) implies u.contains(x) by {
        lemma_contains_add(a, b, x);
    }
    assert forall|x: Seq<char>| #[trigger] b.contains(x) implies u.contains(x) by {
        lemma_contains_add(a, b, x);
    }
}

/// All names in `e`: variables, bound names and parameters.
pub open spec fn names_of(e: ExpV<bool>) -> Seq<Seq<char>>
    decreases e, 1nat, 0nat,
{
    match e {
        ExpV::Var(x, _) => seq![x],
        ExpV::Prim(_, args, _) => names_list(args, args.len() as int),
        ExpV::Let { bindings, body, .. } => names_binds(bindings, bindings.len() as int) + names_of(*body),
        ExpV::If { cond, thn, els, .. } => names_of(*cond) + names_of(*thn) + names_of(*els),
        ExpV::Semicolon { e1, e2, .. } => names_of(*e1) + names_of(*e2),
        ExpV::FunDefs { decls, body, .. } => names_decls(decls, decls.len() as int) + names_of(*body),
        ExpV::Lambda { parameters, body, .. } => parameters + names_of(*body),
        ExpV::MakeClosure { env, .. } => names_of(*env),
        ExpV::Call(f, args, _) => names_of(*f) + names_list(args, args.len() as int),
        ExpV::ClosureCall(f, args, _) => names_of(*f) + names_list(args, args.len() as int),
        ExpV::DirectCall(_, args, _) => names_list(args, args.len() as int),
        ExpV::InternalTailCall(_, args, _) => names_list(args, args.len() as int),
        ExpV::ExternalCall { args, .. } => names_list(args, args.len() as int),
        _ => Seq::empty(),
    }
}

pub open spec fn names_list(es: Seq<ExpV<bool>>, i: int) -> Seq<Seq<char>>
    decreases es, 0nat, i,
{
    if i <= 0 || i > es.len() { Seq::empty() } else { names_list(es, i - 1) + names_of(es[i - 1]) }
}

pub open spec fn names_binds(bs: Seq<(Seq<char>, ExpV<bool>)>, i: int) -> Seq<Seq<char>>
    decreases bs, 0nat, i,
{
    if i <= 0 || i > bs.len() { Seq::empty() } else { names_binds(bs, i - 1) + seq![bs[i - 1].0] + names_of(bs[i - 1].1) }
}

pub open spec fn names_decls(ds: Seq<DeclX<bool>>, i: int) -> Seq<Seq<char>>
    decreases ds, 0nat, i,
{
    if i <= 0 || i > ds.len() {
        Seq::empty()
    } else {
        names_decls(ds, i - 1) + ds[i - 1].parameters + names_of(ds[i - 1].body)
    }
}

/// A name that some known function takes as a parameter.
pub open spec fn fun_param(funs: FunsV, x: Seq<char>) -> bool {
    exists|j: int| 0 <= j < funs.len() && (#[trigger] funs[j]).1.contains(x)
}

/// Every name of `s` is in `e` or is a parameter of a known function.
pub open spec fn within(s: Seq<Seq<char>>, names: Seq<Seq<char>>, funs: FunsV) -> bool {
    forall|x: Seq<char>| #[trigger] s.contains(x) ==> names.contains(x) || fun_param(funs, x)
}

proof fn lemma_remove_first_included(s: Seq<Seq<char>>, x: Seq<char>)
    ensures
        included(remove_first(s, x), s),
    decreases s.len(),
{
    if s.len() > 0 {
        if s[0] == x {
            assert forall|y: Seq<char>| #[trigger] s.drop_first().contains(y) implies s.contains(y) by {
                let i = choose|i: int| 0 <= i < s.drop_first().len() && s.drop_first()[i] == y;
                assert(s[i + 1] == y);
            }
        } else {
            lemma_remove_first_included(s.drop_first(), x);
            assert forall|y: Seq<char>| #[trigger] (seq![s[0]] + remove_first(s.drop_first(), x)).contains(y)
                implies s.contains(y) by {
                lemma_contains_add(seq![s[0]], remove_first(s.drop_first(), x), y);
                if remove_first(s.drop_first(), x).contains(y) {
                    let i = choose|i: int| 0 <= i < s.drop_first().len() && s.drop_first()[i] == y;
                    assert(s[i + 1] == y);
                } else {
                    assert(seq![s[0]].contains(y));
                    assert(s[0] == y);
                }
            }
        }
    }
}

proof fn lemma_remove_each_included(s: Seq<Seq<char>>, xs: Seq<Seq<char>>, i: int)
    ensures
        included(remove_each(s, xs, i), s),
    decreases i,
{
    if 0 < i <= xs.len() {
        lemma_remove_each_included(s, xs, i - 1);
        lemma_remove_first_included(remove_each(s, xs, i - 1), xs[i - 1]);
    }
}

proof fn lemma_add_front_within(s: Seq<Seq<char>>, ps: Seq<Seq<char>>, i: int)
    ensures
        forall|x: Seq<char>| #[trigger] add_front(s, ps, i).contains(x) ==> s.contains(x) || ps.contains(x),
    decreases i,
{
    if 0 < i <= ps.len() {
        lemma_add_front_within(s, ps, i - 1);
        let t = add_front(s, ps, i - 1);
        assert forall|x: Seq<char>| #[trigger] add_front(s, ps, i).contains(x) implies s.contains(x) || ps.contains(x) by {
            if !t.contains(ps[i - 1]) {
                lemma_contains_add(seq![ps[i - 1]], t, x);
                if seq![ps[i - 1]].contains(x) {
                    assert(seq![ps[i - 1]][0] == x);
                    assert(ps[i - 1] == x);
                }
            }
        }
    }
}

proof fn lemma_add_missing_within(s: Seq<Seq<char>>, funs: FunsV, i: int, name: Seq<char>, n: int)
    ensures
        forall|x: Seq<char>| #[trigger] add_missing(s, funs, i, name, n).contains(x) ==> s.contains(x) || fun_param(funs, x),
    decreases i,
{
    if 0 < i <= funs.len() {
        lemma_add_missing_within(s, funs, i - 1, name, n);
        let t = add_missing(s, funs, i - 1, name, n);
        if funs[i - 1].0 == name {
            lemma_add_front_within(t, funs[i - 1].1, funs[i - 1].1.len() - n);
            assert forall|x: Seq<char>| #[trigger] add_missing(s, funs, i, name, n).contains(x)
                implies s.contains(x) || fun_param(funs, x) by {
                if funs[i - 1].1.contains(x) {
                    assert(funs[i - 1].1.contains(x));
                }
            }
        }
    }
}

/// The variables a body reads are names of the body or parameters of
/// known functions.
proof fn lemma_bvars_within(e: ExpV<bool>, funs: FunsV)
    ensures
        within(bvars(e, funs), names_of(e), funs),
    decreases e, 1nat, 0nat,
{
    match e {
        ExpV::Var(x, _) => {},
        ExpV::Prim(_, args, _) => lemma_bvars_list_within(args, args.len() as int, funs),
        ExpV::Let { bindings, body, .. } => {
            lemma_bvars_within(*body, funs);
            lemma_bvars_binds_within(bindings, bindings.len() as int, funs);
            let s = bvars(*body, funs) + bvars_binds(bindings, bindings.len() as int, funs);
            lemma_remove_each_included(s, bindings.map_values(|b: (Seq<char>, ExpV<bool>)| b.0), bindings.len() as int);
            assert forall|x: Seq<char>| #[trigger] bvars(e, funs).contains(x) implies
                names_of(e).contains(x) || fun_param(funs, x) by {
                assert(s.contains(x));
                lemma_contains_add(bvars(*body, funs), bvars_binds(bindings, bindings.len() as int, funs), x);
                lemma_contains_add(names_binds(bindings, bindings.len() as int), names_of(*body), x);
            }
        },
        ExpV::If { cond, thn, els, .. } => {
            lemma_bvars_within(*cond, funs);
            lemma_bvars_within(*thn, funs);
            lemma_bvars_within(*els, funs);
            assert forall|x: Seq<char>| #[trigger] bvars(e, funs).contains(x) implies
                names_of(e).contains(x) || fun_param(funs, x) by {
                lemma_contains_add(bvars(*cond, funs) + bvars(*thn, funs), bvars(*els, funs), x);
                lemma_contains_add(bvars(*cond, funs), bvars(*thn, funs), x);
                lemma_contains_add(names_of(*cond) + names_of(*thn), names_of(*els), x);
                lemma_contains_add(names_of(*cond), names_of(*thn), x);
            }
        },
        ExpV::FunDefs { decls, body, .. } => {
            lemma_bvars_within(*body, funs);
            let ps = all_params(decls, decls.len() as int);
            lemma_remove_each_included(bvars(*body, funs), ps, ps.len() as int);
            assert forall|x: Seq<char>| #[trigger] bvars(e, funs).contains(x) implies
                names_of(e).contains(x) || fun_param(funs, x) by {
                assert(bvars(*body, funs).contains(x));
                lemma_contains_add(names_decls(decls, decls.len() as int), names_of(*body), x);
            }
        },
        ExpV::Lambda { parameters, body, .. } => {
            lemma_bvars_within(*body, funs);
            lemma_remove_each_included(bvars(*body, funs), parameters, parameters.len() as int);
            assert forall|x: Seq<char>| #[trigger] bvars(e, funs).contains(x) implies
                names_of(e).contains(x) || fun_param(funs, x) by {
                assert(bvars(*body, funs).contains(x));
                lemma_contains_add(parameters, names_of(*body), x);
            }
        },
        ExpV::DirectCall(name, args, _) => {
            lemma_bvars_list_within(args, args.len() as int, funs);
            lemma_add_missing_within(bvars_list(args, args.len() as int, funs), funs, funs.len() as int, name, args.len() as int);
        },
        ExpV::ExternalCall { fun, args, .. } => {
            lemma_bvars_list_within(args, args.len() as int, funs);
            lemma_add_missing_within(bvars_list(args, args.len() as int, funs), funs, funs.len() as int,
                crate::freevars::target_name(fun), args.len() as int);
        },
        ExpV::ClosureCall(f, args, _) => {
            lemma_bvars_within(*f, funs);
            lemma_bvars_list_within(args, args.len() as int, funs);
            assert forall|x: Seq<char>| #[trigger] bvars(e, funs).contains(x) implies
                names_of(e).contains(x) || fun_param(funs, x) by {
                lemma_contains_add(bvars_list(args, args.len() as int, funs), bvars(*f, funs), x);
                lemma_contains_add(names_of(*f), names_list(args, args.len() as int), x);
            }
        },
        ExpV::MakeClosure { env, .. } => lemma_bvars_within(*env, funs),
        _ => {},
    }
}

proof fn lemma_bvars_list_within(es: Seq<ExpV<bool>>, i: int, funs: FunsV)
    ensures
        within(bvars_list(es, i, funs), names_list(es, i), funs),
    decreases es, 0nat, i,
{
    if 0 < i <= es.len() {
        lemma_bvars_list_within(es, i - 1, funs);
        lemma_bvars_within(es[i - 1], funs);
        assert forall|x: Seq<char>| #[trigger] bvars_list(es, i, funs).contains(x) implies
            names_list(es, i).contains(x) || fun_param(funs, x) by {
            lemma_contains_add(bvars_list(es, i - 1, funs), bvars(es[i - 1], funs), x);
            lemma_contains_add(names_list(es, i - 1), names_of(es[i - 1]), x);
        }
    }
}

proof fn lemma_bvars_binds_within(bs: Seq<(Seq<char>, ExpV<bool>)>, i: int, funs: FunsV)
    ensures
        within(bvars_binds(bs, i, funs), names_binds(bs, i), funs),
    decreases bs, 0nat, i,
{
    if 0 < i <= bs.len() {
        lemma_bvars_binds_within(bs, i - 1, funs);
        lemma_bvars_within(bs[i - 1].1, funs);
        assert forall|x: Seq<char>| #[trigger] bvars_binds(bs, i, funs).contains(x) implies
            names_binds(bs, i).contains(x) || fun_param(funs, x) by {
            lemma_contains_add(bvars_binds(bs, i - 1, funs), bvars(bs[i - 1].1, funs), x);
            lemma_contains_add(names_binds(bs, i - 1) + seq![bs[i - 1].0], names_of(bs[i - 1].1), x);
            lemma_contains_add(names_binds(bs, i - 1), seq![bs[i - 1].0], x);
        }
    }
}

// ---------------------------------------------------------------------------
// One round of capture on a definition's parameters.

proof fn lemma_capture_fold(ps: Seq<Seq<char>>, fv: Seq<Seq<char>>, k: int, m: Map<Seq<char>, Seq<char>>, key: Seq<char>)
    ensures
        included(ps, capture_fold(ps, fv, k, m, key).0),
        forall|y: Seq<char>| #[trigger] capture_fold(ps, fv, k, m, key).0.contains(y) ==> ps.contains(y) || fv.contains(y),
        (capture_fold(ps, fv, k, m, key).0 == ps && capture_fold(ps, fv, k, m, key).1 == m)
            || (exists|x: Seq<char>| fv.contains(x) && !ps.contains(x) && #[trigger] capture_fold(ps, fv, k, m, key).0.contains(x)),
        forall|z: Seq<char>| #[trigger] capture_fold(ps, fv, k, m, key).1.contains_key(z) ==>
            (m.contains_key(z) && capture_fold(ps, fv, k, m, key).1[z] == m[z]) || fv.contains(capture_fold(ps, fv, k, m, key).1[z]),
    decreases k,
{
    if 0 < k <= fv.len() {
        lemma_capture_fold(ps, fv, k - 1, m, key);
        let (q, m1) = capture_fold(ps, fv, k - 1, m, key);
        let x = fv[k - 1];
        assert(fv.contains(x));
        if !q.contains(x) {
            let q2 = seq![x] + q;
            assert forall|y: Seq<char>| #[trigger] ps.contains(y) implies q2.contains(y) by {
                assert(q.contains(y));
                lemma_contains_add(seq![x], q, y);
            }
            assert forall|y: Seq<char>| #[trigger] q2.contains(y) implies ps.contains(y) || fv.contains(y) by {
                lemma_contains_add(seq![x], q, y);
                if seq![x].contains(y) {
                    assert(seq![x][0] == y);
                }
            }
            lemma_contains_add(seq![x], q, x);
            assert(seq![x][0] == x);
            assert(!ps.contains(x));
            assert(q2.contains(x));
        }
    }
}

// ---------------------------------------------------------------------------
// The measure.

/// How many entries of `u` are not in `ps`.
pub open spec fn missing_count(u: Seq<Seq<char>>, ps: Seq<Seq<char>>) -> nat
    decreases u.len(),
{
    if u.len() == 0 {
        0
    } else {
        missing_count(u.drop_last(), ps) + if ps.contains(u.last()) { 0nat } else { 1nat }
    }
}

proof fn lemma_missing_count(u: Seq<Seq<char>>, p: Seq<Seq<char>>, q: Seq<Seq<char>>)
    requires
        included(p, q),
    ensures
        missing_count(u, q) <= missing_count(u, p),
        (exists|x: Seq<char>| u.contains(x) && #[trigger] q.contains(x) && !p.contains(x))
            ==> missing_count(u, q) < missing_count(u, p),
    decreases u.len(),
{
    if u.len() > 0 {
        lemma_missing_count(u.drop_last(), p, q);
        if exists|x: Seq<char>| u.contains(x) && #[trigger] q.contains(x) && !p.contains(x) {
            let x = choose|x: Seq<char>| u.contains(x) && #[trigger] q.contains(x) && !p.contains(x);
            if u.last() != x {
                let i = choose|i: int| 0 <= i < u.len() && u[i] == x;
                assert(u.drop_last()[i] == x);
                assert(u.drop_last().contains(x));
            }
        }
    }
}

/// What is left to capture in `e`: for each definition, the names of `u`
/// not among its parameters, and one more where its annotation differs from
/// its group's.
pub open spec fn mu(e: ExpV<bool>, u: Seq<Seq<char>>) -> nat
    decreases e, 1nat, 0nat,
{
    match e {
        ExpV::Prim(_, args, _) => mu_list(args, args.len() as int, u),
        ExpV::Let { bindings, body, .. } => mu_binds(bindings, bindings.len() as int, u) + mu(*body, u),
        ExpV::If { cond, thn, els, .. } => mu(*cond, u) + mu(*thn, u) + mu(*els, u),
        ExpV::FunDefs { decls, body, ann } => mu_decls(decls, decls.len() as int, u, ann) + mu(*body, u),
        ExpV::DirectCall(_, args, _) => mu_list(args, args.len() as int, u),
        ExpV::ClosureCall(_, args, _) => mu_list(args, args.len() as int, u),
        ExpV::Lambda { body, .. } => mu(*body, u),
        _ => 0,
    }
}

pub open spec fn mu_list(es: Seq<ExpV<bool>>, i: int, u: Seq<Seq<char>>) -> nat
    decreases es, 0nat, i,
{
    if i <= 0 || i > es.len() { 0 } else { mu_list(es, i - 1, u) + mu(es[i - 1], u) }
}

pub open spec fn mu_binds(bs: Seq<(Seq<char>, ExpV<bool>)>, i: int, u: Seq<Seq<char>>) -> nat
    decreases bs, 0nat, i,
{
    if i <= 0 || i > bs.len() { 0 } else { mu_binds(bs, i - 1, u) + mu(bs[i - 1].1, u) }
}

pub open spec fn mu_decls(ds: Seq<DeclX<bool>>, i: int, u: Seq<Seq<char>>, a: bool) -> nat
    decreases ds, 0nat, i,
{
    if i <= 0 || i > ds.len() {
        0
    } else {
        mu_decls(ds, i - 1, u, a) + missing_count(u, ds[i - 1].parameters) + mu(ds[i - 1].body, u)
            + if ds[i - 1].ann == a { 0nat } else { 1nat }
    }
}

/// A round took `a` to `b`: nothing more is left to capture, it is left
/// alone where nothing was left less, and it holds no new name.
pub open spec fn stepped(a: ExpV<bool>, b: ExpV<bool>, u: Seq<Seq<char>>) -> bool {
    &&& mu(b, u) <= mu(a, u)
    &&& mu(b, u) == mu(a, u) ==> b == a
    &&& included(names_of(b), names_of(a))
}

// ---------------------------------------------------------------------------
// Parts of lists.

proof fn lemma_names_list_elem(es: Seq<ExpV<bool>>, j: int, i: int)
    requires
        0 <= j < i <= es.len(),
    ensures
        included(names_of(es[j]), names_list(es, i)),
    decreases i,
{
    assert forall|x: Seq<char>| #[trigger] names_of(es[j]).contains(x) implies names_list(es, i).contains(x) by {
        lemma_contains_add(names_list(es, i - 1), names_of(es[i - 1]), x);
        if j < i - 1 {
            lemma_names_list_elem(es, j, i - 1);
        }
    }
}

proof fn lemma_names_binds_elem(bs: Seq<(Seq<char>, ExpV<bool>)>, j: int, i: int)
    requires
        0 <= j < i <= bs.len(),
    ensures
        included(names_of(bs[j].1), names_binds(bs, i)),
    decreases i,
{
    assert forall|x: Seq<char>| #[trigger] names_of(bs[j].1).contains(x) implies names_binds(bs, i).contains(x) by {
        lemma_contains_add(names_binds(bs, i - 1) + seq![bs[i - 1].0], names_of(bs[i - 1].1), x);
        lemma_contains_add(names_binds(bs, i - 1), seq![bs[i - 1].0], x);
        if j < i - 1 {
            lemma_names_binds_elem(bs, j, i - 1);
        }
    }
}

proof fn lemma_names_decls_elem(ds: Seq<DeclX<bool>>, j: int, i: int)
    requires
        0 <= j < i <= ds.len(),
    ensures
        included(names_of(ds[j].body), names_decls(ds, i)),
        included(ds[j].parameters, names_decls(ds, i)),
    decreases i,
{
    assert forall|x: Seq<char>| #[trigger] names_of(ds[j].body).contains(x) implies names_decls(ds, i).contains(x) by {
        lemma_contains_add(names_decls(ds, i - 1) + ds[i - 1].parameters, names_of(ds[i - 1].body), x);
        lemma_contains_add(names_decls(ds, i - 1), ds[i - 1].parameters, x);
        if j < i - 1 {
            lemma_names_decls_elem(ds, j, i - 1);
        }
    }
    assert forall|x: Seq<char>| #[trigger] ds[j].parameters.contains(x) implies names_decls(ds, i).contains(x) by {
        lemma_contains_add(names_decls(ds, i - 1) + ds[i - 1].parameters, names_of(ds[i - 1].body), x);
        lemma_contains_add(names_decls(ds, i - 1), ds[i - 1].parameters, x);
        if j < i - 1 {
            lemma_names_decls_elem(ds, j, i - 1);
        }
    }
}

proof fn lemma_decls_prefix(s: Seq<DeclX<bool>>, x: DeclX<bool>, k: int, u: Seq<Seq<char>>, a: bool)
    requires
        k <= s.len(),
    ensures
        mu_decls(s.push(x), k, u, a) == mu_decls(s, k, u, a),
        names_decls(s.push(x), k) == names_decls(s, k),
    decreases k,
{
    if k > 0 {
        lemma_decls_prefix(s, x, k - 1, u, a);
        assert(s.push(x)[k - 1] == s[k - 1]);
    }
}

proof fn lemma_list_stepped(es: Seq<ExpV<bool>>, fs: Seq<ExpV<bool>>, i: int, u: Seq<Seq<char>>)
    requires
        es.len() == fs.len(),
        0 <= i <= es.len(),
        forall|j: int| 0 <= j < es.len() ==> stepped(es[j], #[trigger] fs[j], u),
    ensures
        mu_list(fs, i, u) <= mu_list(es, i, u),
        mu_list(fs, i, u) == mu_list(es, i, u) ==> forall|j: int| 0 <= j < i ==> #[trigger] fs[j] == es[j],
        included(names_list(fs, i), names_list(es, i)),
    decreases i,
{
    if i > 0 {
        lemma_list_stepped(es, fs, i - 1, u);
        assert(stepped(es[i - 1], fs[i - 1], u));
        lemma_included_add(names_list(fs, i - 1), names_of(fs[i - 1]), names_list(es, i - 1), names_of(es[i - 1]));
    }
}

proof fn lemma_binds_stepped(bs: Seq<(Seq<char>, ExpV<bool>)>, cs: Seq<(Seq<char>, ExpV<bool>)>, i: int, u: Seq<Seq<char>>)
    requires
        bs.len() == cs.len(),
        0 <= i <= bs.len(),
        forall|j: int| 0 <= j < bs.len() ==> (#[trigger] cs[j]).0 == bs[j].0 && stepped(bs[j].1, cs[j].1, u),
    ensures
        mu_binds(cs, i, u) <= mu_binds(bs, i, u),
        mu_binds(cs, i, u) == mu_binds(bs, i, u) ==> forall|j: int| 0 <= j < i ==> #[trigger] cs[j] == bs[j],
        included(names_binds(cs, i), names_binds(bs, i)),
    decreases i,
{
    if i > 0 {
        lemma_binds_stepped(bs, cs, i - 1, u);
        assert(cs[i - 1].0 == bs[i - 1].0 && stepped(bs[i - 1].1, cs[i - 1].1, u));
        assert(seq![cs[i - 1].0] == seq![bs[i - 1].0]);
        lemma_included_add(names_binds(cs, i - 1), seq![cs[i - 1].0], names_binds(bs, i - 1), seq![bs[i - 1].0]);
        lemma_included_add(names_binds(cs, i - 1) + seq![cs[i - 1].0], names_of(cs[i - 1].1),
            names_binds(bs, i - 1) + seq![bs[i - 1].0], names_of(bs[i - 1].1));
    }
}

// ---------------------------------------------------------------------------
// One round.

/// A round of capture adds no name that `e` does not hold, leaves no more
/// to capture, and leaves `e` as it is unless it leaves less to capture.
pub proof fn lemma_vcap_step(e: ExpV<bool>, u: Seq<Seq<char>>)
    requires
        included(names_of(e), u),
    ensures
        stepped(e, vcap(e), u),
    decreases e, 1nat, 0nat,
{
    match e {
        ExpV::Prim(p, args, a) => {
            let fs = vcap(e)->Prim_1;
            assert forall|j: int| 0 <= j < args.len() implies stepped(args[j], #[trigger] fs[j], u) by {
                lemma_names_list_elem(args, j, args.len() as int);
                lemma_vcap_step(args[j], u);
            }
            lemma_list_stepped(args, fs, args.len() as int, u);
            if mu(vcap(e), u) == mu(e, u) {
                assert(fs =~= args);
            }
        },
        ExpV::Let { bindings, body, ann } => {
            let cs = vcap(e)->Let_bindings;
            assert forall|j: int| 0 <= j < bindings.len() implies
                (#[trigger] cs[j]).0 == bindings[j].0 && stepped(bindings[j].1, cs[j].1, u) by {
                lemma_names_binds_elem(bindings, j, bindings.len() as int);
                lemma_contains_add(names_binds(bindings, bindings.len() as int), names_of(*body), Seq::empty());
                assert(included(names_of(bindings[j].1), u)) by {
                    assert forall|x: Seq<char>| #[trigger] names_of(bindings[j].1).contains(x) implies u.contains(x) by {
                        lemma_contains_add(names_binds(bindings, bindings.len() as int), names_of(*body), x);
                    }
                }
                lemma_vcap_step(bindings[j].1, u);
            }
            assert(included(names_of(*body), u)) by {
                assert forall|x: Seq<char>| #[trigger] names_of(*body).contains(x) implies u.contains(x) by {
                    lemma_contains_add(names_binds(bindings, bindings.len() as int), names_of(*body), x);
                }
            }
            lemma_vcap_step(*body, u);
            lemma_binds_stepped(bindings, cs, bindings.len() as int, u);
            lemma_included_add(names_binds(cs, cs.len() as int), names_of(vcap(*body)),
                names_binds(bindings, bindings.len() as int), names_of(*body));
            if mu(vcap(e), u) == mu(e, u) {
                assert(cs =~= bindings);
            }
        },
        ExpV::If { cond, thn, els, .. } => {
            lemma_included_parts(names_of(*cond) + names_of(*thn), names_of(*els), u);
            lemma_included_parts(names_of(*cond), names_of(*thn), u);
            lemma_vcap_step(*cond, u);
            lemma_vcap_step(*thn, u);
            lemma_vcap_step(*els, u);
            lemma_included_add(names_of(vcap(*cond)), names_of(vcap(*thn)), names_of(*cond), names_of(*thn));
            lemma_included_add(names_of(vcap(*cond)) + names_of(vcap(*thn)), names_of(vcap(*els)),
                names_of(*cond) + names_of(*thn), names_of(*els));
        },
        ExpV::FunDefs { decls, body, ann } => {
            let n = decls.len() as int;
            lemma_included_parts(names_decls(decls, n), names_of(*body), u);
            lemma_vcap_decls_step(decls, n, u, ann);
            lemma_vcap_step(*body, u);
            let nd = vcap_decls(decls, n, decl_funs(decls), ann).0;
            lemma_included_add(names_decls(nd, n), names_of(vcap(*body)), names_decls(decls, n), names_of(*body));
            if mu(vcap(e), u) == mu(e, u) {
                assert(nd =~= decls);
            }
        },
        ExpV::DirectCall(name, args, a) => {
            let fs = vcap(e)->DirectCall_1;
            assert forall|j: int| 0 <= j < args.len() implies stepped(args[j], #[trigger] fs[j], u) by {
                lemma_names_list_elem(args, j, args.len() as int);
                lemma_vcap_step(args[j], u);
            }
            lemma_list_stepped(args, fs, args.len() as int, u);
            if mu(vcap(e), u) == mu(e, u) {
                assert(fs =~= args);
            }
        },
        ExpV::ClosureCall(f, args, a) => {
            let fs = vcap(e)->ClosureCall_1;
            assert forall|j: int| 0 <= j < args.len() implies stepped(args[j], #[trigger] fs[j], u) by {
                assert forall|x: Seq<char>| #[trigger] names_list(args, args.len() as int).contains(x) implies u.contains(x) by {
                    lemma_contains_add(names_of(*f), names_list(args, args.len() as int), x);
                }
                lemma_names_list_elem(args, j, args.len() as int);
                lemma_vcap_step(args[j], u);
            }
            lemma_list_stepped(args, fs, args.len() as int, u);
            lemma_included_add(names_of(*f), names_list(fs, fs.len() as int), names_of(*f), names_list(args, args.len() as int));
            if mu(vcap(e), u) == mu(e, u) {
                assert(fs =~= args);
            }
        },
        ExpV::Lambda { parameters, body, .. } => {
            assert(included(names_of(*body), u)) by {
                assert forall|x: Seq<char>| #[trigger] names_of(*body).contains(x) implies u.contains(x) by {
                    lemma_contains_add(parameters, names_of(*body), x);
                }
            }
            lemma_vcap_step(*body, u);
            lemma_included_add(parameters, names_of(vcap(*body)), parameters, names_of(*body));
        },
        _ => {},
    }
}

/// The parameters of a known function of a group are names of the group.
proof fn lemma_fun_param_in(ds: Seq<DeclX<bool>>, x: Seq<char>)
    requires
        fun_param(decl_funs(ds), x),
    ensures
        names_decls(ds, ds.len() as int).contains(x),
{
    let j = choose|j: int| 0 <= j < decl_funs(ds).len() && (#[trigger] decl_funs(ds)[j]).1.contains(x);
    assert(decl_funs(ds)[j].1 == ds[j].parameters);
    lemma_names_decls_elem(ds, j, ds.len() as int);
}

/// The first `i` definitions of a group after a round.
proof fn lemma_vcap_decls_step(ds: Seq<DeclX<bool>>, i: int, u: Seq<Seq<char>>, a: bool)
    requires
        0 <= i <= ds.len(),
        included(names_decls(ds, ds.len() as int), u),
    ensures
        vcap_decls(ds, i, decl_funs(ds), a).0.len() == i,
        mu_decls(vcap_decls(ds, i, decl_funs(ds), a).0, i, u, a) <= mu_decls(ds, i, u, a),
        mu_decls(vcap_decls(ds, i, decl_funs(ds), a).0, i, u, a) == mu_decls(ds, i, u, a) ==>
            (forall|j: int| 0 <= j < i ==> #[trigger] vcap_decls(ds, i, decl_funs(ds), a).0[j] == ds[j])
            && vcap_decls(ds, i, decl_funs(ds), a).1 == Map::<Seq<char>, Seq<char>>::empty(),
        forall|z: Seq<char>| #[trigger] vcap_decls(ds, i, decl_funs(ds), a).1.contains_key(z) ==>
            names_decls(ds, ds.len() as int).contains(vcap_decls(ds, i, decl_funs(ds), a).1[z]),
        included(names_decls(vcap_decls(ds, i, decl_funs(ds), a).0, i), names_decls(ds, ds.len() as int)),
    decreases ds, 0nat, i,
{
    let funs = decl_funs(ds);
    let all = names_decls(ds, ds.len() as int);
    if i == 0 {
        assert(vcap_decls(ds, 0, funs, a).1 =~= Map::<Seq<char>, Seq<char>>::empty());
    } else {
        lemma_vcap_decls_step(ds, i - 1, u, a);
        let (p0, m0) = vcap_decls(ds, i - 1, funs, a);
        let d = ds[i - 1];
        let fv = bvars(d.body, funs);
        let key = crate::recur::closure_name(d.name);
        let (q, m1) = capture_fold(d.parameters, fv, fv.len() as int, m0, key);
        let q1 = if m1.contains_key(d.name) { seq![m1[d.name]] + q } else { q };
        let nd = DeclX { name: d.name, parameters: q1, body: vcap(d.body), ann: a };
        let (p, m) = vcap_decls(ds, i, funs, a);
        assert(p == p0.push(nd));
        assert(m == m1);
        lemma_names_decls_elem(ds, i - 1, ds.len() as int);
        assert(included(names_of(d.body), u));
        lemma_vcap_step(d.body, u);
        lemma_bvars_within(d.body, funs);
        assert forall|x: Seq<char>| #[trigger] fv.contains(x) implies all.contains(x) by {
            if fun_param(funs, x) {
                lemma_fun_param_in(ds, x);
            }
        }
        lemma_capture_fold(d.parameters, fv, fv.len() as int, m0, key);
        assert(included(q, q1)) by {
            assert forall|y: Seq<char>| #[trigger] q.contains(y) implies q1.contains(y) by {
                if m1.contains_key(d.name) {
                    lemma_contains_add(seq![m1[d.name]], q, y);
                }
            }
        }
        assert(included(d.parameters, q1));
        lemma_missing_count(u, d.parameters, q1);
        lemma_decls_prefix(p0, nd, i - 1, u, a);
        assert forall|z: Seq<char>| #[trigger] m1.contains_key(z) implies all.contains(m1[z]) by {}
        assert forall|y: Seq<char>| #[trigger] q1.contains(y) implies all.contains(y) by {
            if m1.contains_key(d.name) {
                lemma_contains_add(seq![m1[d.name]], q, y);
                if seq![m1[d.name]].contains(y) {
                    assert(seq![m1[d.name]][0] == y);
                }
            }
        }
        lemma_included_add(names_decls(p0, i - 1), q1, all, all);
        lemma_included_add(names_decls(p0, i - 1) + q1, names_of(vcap(d.body)), all + all, all);
        assert forall|x: Seq<char>| #[trigger] (all + all).contains(x) implies all.contains(x) by {
            lemma_contains_add(all, all, x);
        }
        assert forall|x: Seq<char>| #[trigger] (all + all + all).contains(x) implies all.contains(x) by {
            lemma_contains_add(all + all, all, x);
            lemma_contains_add(all, all, x);
        }
        assert forall|x: Seq<char>| #[trigger] names_of(vcap(d.body)).contains(x) implies all.contains(x) by {
            assert(names_of(d.body).contains(x));
        }
        assert(included(names_decls(p, i), all)) by {
            assert(names_decls(p, i) == names_decls(p0, i - 1) + q1 + names_of(vcap(d.body)));
            assert forall|x: Seq<char>| #[trigger] names_decls(p, i).contains(x) implies all.contains(x) by {
                lemma_contains_add(names_decls(p0, i - 1) + q1, names_of(vcap(d.body)), x);
                lemma_contains_add(names_decls(p0, i - 1), q1, x);
            }
        }
        if mu_decls(p, i, u, a) == mu_decls(ds, i, u, a) {
            assert(mu_decls(p0, i - 1, u, a) == mu_decls(ds, i - 1, u, a));
            assert(m0 == Map::<Seq<char>, Seq<char>>::empty());
            if !(q == d.parameters && m1 == m0) {
                let x = choose|x: Seq<char>| fv.contains(x) && !d.parameters.contains(x) && #[trigger] q.contains(x);
                assert(all.contains(x));
                assert(u.contains(x));
                assert(q1.contains(x));
                assert(false);
            }
            assert(!m1.contains_key(d.name));
            assert(nd == d);
            assert forall|j: int| 0 <= j < i implies #[trigger] p[j] == ds[j] by {
                if j < i - 1 {
                    assert(p[j] == p0[j]);
                }
            }
        }
    }
}

// ---------------------------------------------------------------------------
// Coming to rest.

proof fn lemma_settles_from(e: ExpV<bool>, k: nat, u: Seq<Seq<char>>)
    requires
        included(names_of(vcap_iter(e, k)), u),
    ensures
        vcap_settles(e),
    decreases mu(vcap_iter(e, k), u),
{
    let x = vcap_iter(e, k);
    lemma_vcap_step(x, u);
    if vcap(x) != x {
        assert(vcap_iter(e, k + 1) == vcap(x));
        assert forall|y: Seq<char>| #[trigger] names_of(vcap_iter(e, k + 1)).contains(y) implies u.contains(y) by {
            assert(names_of(x).contains(y));
        }
        lemma_settles_from(e, k + 1, u);
    } else {
        assert(vcap(vcap_iter(e, k)) == vcap_iter(e, k));
    }
}

/// The rounds of capture from any expression come to rest.
pub proof fn lemma_vcap_always_settles(e: ExpV<bool>)
    ensures
        vcap_settles(e),
{
    lemma_settles_from(e, 0, names_of(e));
}

} // verus!
