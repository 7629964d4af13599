//! Which functions are lifted to the top level: those called other than in
//! tail position, and those called from a function that is lifted, until
//! nothing changes.
use vstd::prelude::*;
use crate::syntax::Exp;
use crate::expv::{ExpV, DeclX, exp_view, exps_view, boxes_view, binds_view, decls_x, lemma_exp_view_lists};
use crate::names::{texts, copy_names, contains_text};
use crate::tail::{resolved, mark, mark_tail};

verus! {

// ---------------------------------------------------------------------------
// One round.

/// The names to lift after one walk over `e` (annotated by tail position)
/// that starts with the names `s`; `inside` says whether the walk is inside a
/// function that is lifted. A call is lifted when it is not a tail call or
/// when it is inside a lifted function; a definition's body is walked as
/// inside a lifted function when its name is lifted already.
pub open spec fn lift_set(e: ExpV<bool>, s: Set<Seq<char>>, inside: bool) -> Set<Seq<char>>
    decreases e, 1nat, 0nat,
{
    match e {
        ExpV::Prim(_, args, _) => lift_set_list(args, args.len() as int, s, inside),
        ExpV::Let { bindings, body, .. } => lift_set(*body, lift_set_binds(bindings, bindings.len() as int, s, inside), inside),
        ExpV::If { cond, thn, els, .. } => lift_set(*els, lift_set(*thn, lift_set(*cond, s, inside), inside), inside),
        ExpV::FunDefs { decls, body, .. } => lift_set(*body, lift_set_decls(decls, decls.len() as int, s, inside), inside),
        ExpV::DirectCall(name, args, is_tail) => {
            let s1 = if !is_tail || inside { s.insert(name) } else { s };
            lift_set_list(args, args.len() as int, s1, inside)
        },
        ExpV::ClosureCall(f, args, _) => lift_set_list(args, args.len() as int, lift_set(*f, s, inside), inside),
        ExpV::Lambda { body, .. } => lift_set(*body, s, inside),
        _ => s,
    }
}

pub open spec fn lift_set_list(es: Seq<ExpV<bool>>, i: int, s: Set<Seq<char>>, inside: bool) -> Set<Seq<char>>
    decreases es, 0nat, i,
{
    if i <= 0 || i > es.len() { s } else { lift_set(es[i - 1], lift_set_list(es, i - 1, s, inside), inside) }
}

pub open spec fn lift_set_binds(bs: Seq<(Seq<char>, ExpV<bool>)>, i: int, s: Set<Seq<char>>, inside: bool) -> Set<Seq<char>>
    decreases bs, 0nat, i,
{
    if i <= 0 || i > bs.len() { s } else { lift_set(bs[i - 1].1, lift_set_binds(bs, i - 1, s, inside), inside) }
}

pub open spec fn lift_set_decls(ds: Seq<DeclX<bool>>, i: int, s: Set<Seq<char>>, inside: bool) -> Set<Seq<char>>
    decreases ds, 0nat, i,
{
    if i <= 0 || i > ds.len() {
        s
    } else {
        let s1 = lift_set_decls(ds, i - 1, s, inside);
        lift_set(ds[i - 1].body, s1, s1.contains(ds[i - 1].name) || inside)
    }
}

/// The rounds, from no name at all.
pub open spec fn lift_iter(e: ExpV<bool>, n: nat) -> Set<Seq<char>>
    decreases n,
{
    if n == 0 { Set::empty() } else { lift_set(e, lift_iter(e, (n - 1) as nat), false) }
}

// ---------------------------------------------------------------------------
// The rounds come to an end: a round only adds names, and only names of
// called functions.

/// The names of the functions that `e` calls directly, as met.
pub open spec fn callees(e: ExpV<bool>) -> Seq<Seq<char>>
    decreases e, 1nat, 0nat,
{
    match e {
        ExpV::Prim(_, args, _) => callees_list(args, args.len() as int),
        ExpV::Let { bindings, body, .. } => callees_binds(bindings, bindings.len() as int) + callees(*body),
        ExpV::If { cond, thn, els, .. } => callees(*cond) + callees(*thn) + callees(*els),
        ExpV::FunDefs { decls, body, .. } => callees_decls(decls, decls.len() as int) + callees(*body),
        ExpV::DirectCall(name, args, _) => seq![name] + callees_list(args, args.len() as int),
        ExpV::ClosureCall(f, args, _) => callees(*f) + callees_list(args, args.len() as int),
        ExpV::Lambda { body, .. } => callees(*body),
        _ => Seq::empty(),
    }
}

pub open spec fn callees_list(es: Seq<ExpV<bool>>, i: int) -> Seq<Seq<char>>
    decreases es, 0nat, i,
{
    if i <= 0 || i > es.len() { Seq::empty() } else { callees_list(es, i - 1) + callees(es[i - 1]) }
}

pub open spec fn callees_binds(bs: Seq<(Seq<char>, ExpV<bool>)>, i: int) -> Seq<Seq<char>>
    decreases bs, 0nat, i,
{
    if i <= 0 || i > bs.len() { Seq::empty() } else { callees_binds(bs, i - 1) + callees(bs[i - 1].1) }
}

pub open spec fn callees_decls(ds: Seq<DeclX<bool>>, i: int) -> Seq<Seq<char>>
    decreases ds, 0nat, i,
{
    if i <= 0 || i > ds.len() { Seq::empty() } else { callees_decls(ds, i - 1) + callees(ds[i - 1].body) }
}

pub open spec fn grows(s: Set<Seq<char>>, t: Set<Seq<char>>, c: Seq<Seq<char>>) -> bool {
    &&& forall|x: Seq<char>| s.contains(x) ==> #[trigger] t.contains(x)
    &&& forall|x: Seq<char>| #[trigger] t.contains(x) && !s.contains(x) ==> c.contains(x)
}

proof fn lemma_concat_contains(a: Seq<Seq<char>>, b: Seq<Seq<char>>)
    ensures
        forall|x: Seq<char>| a.contains(x) ==> #[trigger] (a + b).contains(x),
        forall|x: Seq<char>| b.contains(x) ==> #[trigger] (a + b).contains(x),
{
    assert forall|x: Seq<char>| a.contains(x) implies #[trigger] (a + b).contains(x) by {
        let i = choose|i: int| 0 <= i < a.len() && a[i] == x;
        assert((a + b)[i] == x);
    }
    assert forall|x: Seq<char>| b.contains(x) implies #[trigger] (a + b).contains(x) by {
        let i = choose|i: int| 0 <= i < b.len() && b[i] == x;
        assert((a + b)[a.len() + i] == x);
    }
}

proof fn lemma_lift_grows(e: ExpV<bool>, s: Set<Seq<char>>, inside: bool)
    ensures
        grows(s, lift_set(e, s, inside), callees(e)),
    decreases e, 1nat, 0nat,
{
    match e {
        ExpV::Prim(_, args, _) => lemma_list_grows(args, args.len() as int, s, inside),
        ExpV::Let { bindings, body, .. } => {
            let s1 = lift_set_binds(bindings, bindings.len() as int, s, inside);
            lemma_binds_grows(bindings, bindings.len() as int, s, inside);
            lemma_lift_grows(*body, s1, inside);
            lemma_concat_contains(callees_binds(bindings, bindings.len() as int), callees(*body));
        },
        ExpV::If { cond, thn, els, .. } => {
            let s1 = lift_set(*cond, s, inside);
            let s2 = lift_set(*thn, s1, inside);
            lemma_lift_grows(*cond, s, inside);
            lemma_lift_grows(*thn, s1, inside);
            lemma_lift_grows(*els, s2, inside);
            lemma_concat_contains(callees(*cond), callees(*thn));
            lemma_concat_contains(callees(*cond) + callees(*thn), callees(*els));
        },
        ExpV::FunDefs { decls, body, .. } => {
            let s1 = lift_set_decls(decls, decls.len() as int, s, inside);
            lemma_decls_grows(decls, decls.len() as int, s, inside);
            lemma_lift_grows(*body, s1, inside);
            lemma_concat_contains(callees_decls(decls, decls.len() as int), callees(*body));
        },
        ExpV::DirectCall(name, args, is_tail) => {
            let s1 = if !is_tail || inside { s.insert(name) } else { s };
            lemma_list_grows(args, args.len() as int, s1, inside);
            lemma_concat_contains(seq![name], callees_list(args, args.len() as int));
            assert(seq![name].contains(name)) by {
                assert(seq![name][0] == name);
            }
        },
        ExpV::ClosureCall(f, args, _) => {
            let s1 = lift_set(*f, s, inside);
            lemma_lift_grows(*f, s, inside);
            lemma_list_grows(args, args.len() as int, s1, inside);
            lemma_concat_contains(callees(*f), callees_list(args, args.len() as int));
        },
        ExpV::Lambda { body, .. } => lemma_lift_grows(*body, s, inside),
        _ => {},
    }
}

proof fn lemma_list_grows(es: Seq<ExpV<bool>>, i: int, s: Set<Seq<char>>, inside: bool)
    ensures
        grows(s, lift_set_list(es, i, s, inside), callees_list(es, i)),
    decreases es, 0nat, i,
{
    if 0 < i <= es.len() {
        let s1 = lift_set_list(es, i - 1, s, inside);
        lemma_list_grows(es, i - 1, s, inside);
        lemma_lift_grows(es[i - 1], s1, inside);
        lemma_concat_contains(callees_list(es, i - 1), callees(es[i - 1]));
    }
}

proof fn lemma_binds_grows(bs: Seq<(Seq<char>, ExpV<bool>)>, i: int, s: Set<Seq<char>>, inside: bool)
    ensures
        grows(s, lift_set_binds(bs, i, s, inside), callees_binds(bs, i)),
    decreases bs, 0nat, i,
{
    if 0 < i <= bs.len() {
        let s1 = lift_set_binds(bs, i - 1, s, inside);
        lemma_binds_grows(bs, i - 1, s, inside);
        lemma_lift_grows(bs[i - 1].1, s1, inside);
        lemma_concat_contains(callees_binds(bs, i - 1), callees(bs[i - 1].1));
    }
}

proof fn lemma_decls_grows(ds: Seq<DeclX<bool>>, i: int, s: Set<Seq<char>>, inside: bool)
    ensures
        grows(s, lift_set_decls(ds, i, s, inside), callees_decls(ds, i)),
    decreases ds, 0nat, i,
{
    if 0 < i <= ds.len() {
        let s1 = lift_set_decls(ds, i - 1, s, inside);
        lemma_decls_grows(ds, i - 1, s, inside);
        lemma_lift_grows(ds[i - 1].body, s1, s1.contains(ds[i - 1].name) || inside);
        lemma_concat_contains(callees_decls(ds, i - 1), callees(ds[i - 1].body));
    }
}

/// How many of the names `c` are not in `s`.
pub open spec fn missing(c: Seq<Seq<char>>, s: Set<Seq<char>>) -> nat
    decreases c.len(),
{
    if c.len() == 0 {
        0
    } else {
        missing(c.drop_last(), s) + if s.contains(c.last()) { 0nat } else { 1nat }
    }
}

proof fn lemma_missing_shrinks(c: Seq<Seq<char>>, s: Set<Seq<char>>, t: Set<Seq<char>>, x: Seq<char>)
    requires
        forall|y: Seq<char>| s.contains(y) ==> #[trigger] t.contains(y),
    ensures
        missing(c, t) <= missing(c, s),
        c.contains(x) && t.contains(x) && !s.contains(x) ==> missing(c, t) < missing(c, s),
    decreases c.len(),
{
    if c.len() > 0 {
        lemma_missing_shrinks(c.drop_last(), s, t, x);
        if c.contains(x) && c.last() != x {
            let i = choose|i: int| 0 <= i < c.len() && c[i] == x;
            assert(c.drop_last()[i] == x);
        }
    }
}

// ---------------------------------------------------------------------------
// Sets of names in code.

pub open spec fn name_set(v: Seq<String>) -> Set<Seq<char>> {
    texts(v).to_set()
}

pub(crate) fn set_insert(set: &mut Vec<String>, x: &String)
    ensures
        name_set(final(set)@) == name_set(old(set)@).insert(x@),
{
    if !contains_text(set, x) {
        let ghost before = set@;
        set.push(x.clone());
        assert(texts(set@) =~= texts(before).push(x@));
        assert forall|y: Seq<char>| #[trigger] name_set(set@).contains(y) == name_set(before).insert(x@).contains(y) by {
            if texts(before).contains(y) {
                let i = choose|i: int| 0 <= i < texts(before).len() && texts(before)[i] == y;
                assert(texts(set@)[i] == y);
            }
            if y == x@ {
                assert(texts(set@)[before.len() as int] == y);
            }
            if texts(set@).contains(y) {
                let i = choose|i: int| 0 <= i < texts(set@).len() && texts(set@)[i] == y;
                if i < before.len() {
                    assert(texts(before)[i] == y);
                }
            }
        }
        assert(name_set(set@) =~= name_set(before).insert(x@));
    } else {
        assert(name_set(set@) =~= name_set(set@).insert(x@));
    }
}

fn set_includes(a: &Vec<String>, b: &Vec<String>) -> (r: bool)
    ensures
        r == forall|x: Seq<char>| name_set(a@).contains(x) ==> #[trigger] name_set(b@).contains(x),
{
    let mut k: usize = 0;
    while k < a.len()
        invariant
            k <= a@.len(),
            forall|j: int| 0 <= j < k ==> name_set(b@).contains(#[trigger] texts(a@)[j]),
        decreases a@.len() - k,
    {
        if !contains_text(b, &a[k]) {
            assert(texts(a@)[k as int] == a@[k as int]@);
            assert(texts(a@).contains(a@[k as int]@));
            assert(name_set(a@).contains(a@[k as int]@));
            assert(!name_set(b@).contains(a@[k as int]@));
            return false;
        }
        k = k + 1;
    }
    assert forall|x: Seq<char>| name_set(a@).contains(x) implies #[trigger] name_set(b@).contains(x) by {
        let i = choose|i: int| 0 <= i < texts(a@).len() && texts(a@)[i] == x;
        assert(name_set(b@).contains(texts(a@)[i]));
    }
    true
}

fn same_set(a: &Vec<String>, b: &Vec<String>) -> (r: bool)
    ensures
        r == (name_set(a@) == name_set(b@)),
{
    let ab = set_includes(a, b);
    let ba = set_includes(b, a);
    if ab && ba {
        assert(name_set(a@) =~= name_set(b@));
    }
    ab && ba
}

// ---------------------------------------------------------------------------
// Finding the names to lift.

#[verifier::loop_isolation(false)]
pub fn should_lift_helper(p: &Exp<bool>, set: &mut Vec<String>, inside: bool)
    requires
        resolved(exp_view(*p)),
    ensures
        name_set(final(set)@) == lift_set(exp_view(*p), name_set(old(set)@), inside),
    decreases p, 1nat,
{
    proof {
        lemma_exp_view_lists(*p);
    }
    match p {
        Exp::Prim(pr, args, a) => {
            assert(exp_view(*p)->Prim_1 == boxes_view(args@));
            lift_boxes(args, set, inside)
        },
        Exp::Let { bindings, body, .. } => {
            assert(exp_view(*p)->Let_bindings == binds_view(bindings@));
            lift_binds(bindings, set, inside);
            should_lift_helper(body, set, inside);
        },
        Exp::If { cond, thn, els, .. } => {
            should_lift_helper(cond, set, inside);
            should_lift_helper(thn, set, inside);
            should_lift_helper(els, set, inside);
        },
        Exp::FunDefs { decls, body, .. } => {
            let ghost s0 = name_set(set@);
            let ghost ds = decls_x(decls@);
            let mut k: usize = 0;
            while k < decls.len()
                invariant
                    k <= decls@.len(),
                    ds == decls_x(decls@),
                    forall|j: int| 0 <= j < decls@.len() ==> resolved(#[trigger] ds[j].body),
                    name_set(set@) == lift_set_decls(ds, k as int, s0, inside),
                decreases decls@.len() - k,
            {
                assert(ds[k as int].body == exp_view(decls@[k as int].body));
                assert(resolved(ds[k as int].body));
                let lifted = contains_text(set, &decls[k].name);
                should_lift_helper(&decls[k].body, set, lifted || inside);
                k = k + 1;
            }
            should_lift_helper(body, set, inside);
        },
        Exp::DirectCall(name, args, is_tail) => {
            assert(exp_view(*p)->DirectCall_1 == exps_view(args@));
            if !*is_tail || inside {
                set_insert(set, name);
            }
            lift_exps(args, set, inside);
        },
        Exp::ClosureCall(fun, args, _) => {
            assert(exp_view(*p)->ClosureCall_1 == exps_view(args@));
            should_lift_helper(fun, set, inside);
            lift_exps(args, set, inside);
        },
        Exp::Lambda { body, .. } => should_lift_helper(body, set, inside),
        _ => {},
    }
}

fn lift_boxes(s: &Vec<Box<Exp<bool>>>, set: &mut Vec<String>, inside: bool)
    requires
        forall|j: int| 0 <= j < s@.len() ==> resolved(#[trigger] boxes_view(s@)[j]),
    ensures
        name_set(final(set)@) == lift_set_list(boxes_view(s@), s@.len() as int, name_set(old(set)@), inside),
    decreases s, 0nat,
{
    let ghost s0 = name_set(set@);
    let mut k: usize = 0;
    while k < s.len()
        invariant
            k <= s@.len(),
            forall|j: int| 0 <= j < s@.len() ==> resolved(#[trigger] boxes_view(s@)[j]),
            name_set(set@) == lift_set_list(boxes_view(s@), k as int, s0, inside),
        decreases s@.len() - k,
    {
        assert(boxes_view(s@)[k as int] == exp_view(*s@[k as int]));
        should_lift_helper(&s[k], set, inside);
        k = k + 1;
    }
}

fn lift_exps(s: &Vec<Exp<bool>>, set: &mut Vec<String>, inside: bool)
    requires
        forall|j: int| 0 <= j < s@.len() ==> resolved(#[trigger] exps_view(s@)[j]),
    ensures
        name_set(final(set)@) == lift_set_list(exps_view(s@), s@.len() as int, name_set(old(set)@), inside),
    decreases s, 0nat,
{
    let ghost s0 = name_set(set@);
    let mut k: usize = 0;
    while k < s.len()
        invariant
            k <= s@.len(),
            forall|j: int| 0 <= j < s@.len() ==> resolved(#[trigger] exps_view(s@)[j]),
            name_set(set@) == lift_set_list(exps_view(s@), k as int, s0, inside),
        decreases s@.len() - k,
    {
        assert(exps_view(s@)[k as int] == exp_view(s@[k as int]));
        should_lift_helper(&s[k], set, inside);
        k = k + 1;
    }
}

fn lift_binds(s: &Vec<(String, Exp<bool>)>, set: &mut Vec<String>, inside: bool)
    requires
        forall|j: int| 0 <= j < s@.len() ==> resolved(#[trigger] binds_view(s@)[j].1),
    ensures
        name_set(final(set)@) == lift_set_binds(binds_view(s@), s@.len() as int, name_set(old(set)@), inside),
    decreases s, 0nat,
{
    let ghost s0 = name_set(set@);
    let mut k: usize = 0;
    while k < s.len()
        invariant
            k <= s@.len(),
            forall|j: int| 0 <= j < s@.len() ==> resolved(#[trigger] binds_view(s@)[j].1),
            name_set(set@) == lift_set_binds(binds_view(s@), k as int, s0, inside),
        decreases s@.len() - k,
    {
        assert(binds_view(s@)[k as int].1 == exp_view(s@[k as int].1));
        should_lift_helper(&s[k].1, set, inside);
        k = k + 1;
    }
}

/// The names where the rounds come to rest.
pub open spec fn lift_fix(m: ExpV<bool>) -> Set<Seq<char>> {
    lift_iter(m, choose|n: nat| lift_set(m, #[trigger] lift_iter(m, n), false) == lift_iter(m, n))
}

/// Once a round adds nothing, no later round does.
proof fn lemma_lift_rest(m: ExpV<bool>, n: nat, k: nat)
    requires
        lift_set(m, lift_iter(m, n), false) == lift_iter(m, n),
        n <= k,
    ensures
        lift_iter(m, k) == lift_iter(m, n),
    decreases k,
{
    if k > n {
        lemma_lift_rest(m, n, (k - 1) as nat);
    }
}

proof fn lemma_lift_fix(m: ExpV<bool>, n: nat)
    requires
        lift_set(m, lift_iter(m, n), false) == lift_iter(m, n),
    ensures
        lift_fix(m) == lift_iter(m, n),
{
    let c = choose|c: nat| lift_set(m, #[trigger] lift_iter(m, c), false) == lift_iter(m, c);
    if c <= n {
        lemma_lift_rest(m, c, n);
    } else {
        lemma_lift_rest(m, n, c);
    }
}

/// The names of the functions to lift out of `p`: the rounds are repeated
/// from no name until a round adds nothing.
pub fn should_lift<Ann>(p: &Exp<Ann>) -> (r: Vec<String>)
    requires
        resolved(exp_view(*p)),
    ensures
        name_set(r@) == lift_fix(mark(exp_view(*p), true)),
        lift_set(mark(exp_view(*p), true), name_set(r@), false) == name_set(r@),
        forall|x: Seq<char>| #[trigger] calls_outside_tail(mark(exp_view(*p), true), x) ==> name_set(r@).contains(x),
        forall|x: Seq<char>| #[trigger] lifted_calls(mark(exp_view(*p), true), name_set(r@), x) ==> name_set(r@).contains(x),
{
    let mt = mark_tail(p, true);
    let ghost m = exp_view(mt);
    let ghost c = callees(m);
    proof {
        lemma_resolved_mark(exp_view(*p), true);
    }
    let mut set: Vec<String> = Vec::new();
    let mut new_set: Vec<String> = Vec::new();
    let ghost mut n: nat = 0;
    assert(name_set(set@) =~= lift_iter(m, 0));
    should_lift_helper(&mt, &mut new_set, false);
    assert(name_set(new_set@) == lift_iter(m, 1));
    while !same_set(&new_set, &set)
        invariant
            resolved(exp_view(mt)),
            m == exp_view(mt),
            c == callees(m),
            name_set(set@) == lift_iter(m, n),
            name_set(new_set@) == lift_iter(m, n + 1),
        decreases missing(c, name_set(set@)),
    {
        let ghost old_set = name_set(set@);
        proof {
            lemma_lift_grows(m, old_set, false);
            assert(!(name_set(new_set@) =~= old_set));
            let x = choose|x: Seq<char>| name_set(new_set@).contains(x) != old_set.contains(x);
            lemma_missing_shrinks(c, old_set, name_set(new_set@), x);
        }
        set = new_set;
        new_set = copy_names(&set);
        should_lift_helper(&mt, &mut new_set, false);
        proof {
            n = n + 1;
        }
    }
    proof {
        lemma_lift_fix(m, n);
        assert forall|x: Seq<char>| #[trigger] calls_outside_tail(m, x) implies name_set(set@).contains(x) by {
            lemma_outside_tail_lifted(m, name_set(set@), false, x);
        }
        assert forall|x: Seq<char>| #[trigger] lifted_calls(m, name_set(set@), x) implies name_set(set@).contains(x) by {
            lemma_lifted_body_calls(m, name_set(set@), name_set(set@), false, x);
        }
    }
    set
}

/// Marking keeps an expression resolved.
proof fn lemma_resolved_mark<A>(e: ExpV<A>, t: bool)
    requires
        resolved(e),
    ensures
        resolved(mark(e, t)),
    decreases e,
{
    match e {
        ExpV::Prim(_, args, _) => {
            assert forall|j: int| 0 <= j < args.len() implies resolved(#[trigger] mark(e, t)->Prim_1[j]) by {
                lemma_resolved_mark(args[j], false);
            }
        },
        ExpV::Let { bindings, body, .. } => {
            assert forall|j: int| 0 <= j < bindings.len() implies resolved(#[trigger] mark(e, t)->Let_bindings[j].1) by {
                lemma_resolved_mark(bindings[j].1, false);
            }
            lemma_resolved_mark(*body, t);
        },
        ExpV::If { cond, thn, els, .. } => {
            lemma_resolved_mark(*cond, false);
            lemma_resolved_mark(*thn, t);
            lemma_resolved_mark(*els, t);
        },
        ExpV::FunDefs { decls, body, .. } => {
            assert forall|j: int| 0 <= j < decls.len() implies resolved(#[trigger] mark(e, t)->FunDefs_decls[j].body) by {
                lemma_resolved_mark(decls[j].body, true);
            }
            lemma_resolved_mark(*body, t);
        },
        ExpV::DirectCall(_, args, _) => {
            assert forall|j: int| 0 <= j < args.len() implies resolved(#[trigger] mark(e, t)->DirectCall_1[j]) by {
                lemma_resolved_mark(args[j], false);
            }
        },
        ExpV::ClosureCall(f, args, _) => {
            lemma_resolved_mark(*f, false);
            assert forall|j: int| 0 <= j < args.len() implies resolved(#[trigger] mark(e, t)->ClosureCall_1[j]) by {
                lemma_resolved_mark(args[j], false);
            }
        },
        ExpV::Lambda { body, .. } => lemma_resolved_mark(*body, t),
        _ => {},
    }
}

// ---------------------------------------------------------------------------
// Laws.

/// `e` calls `x` directly somewhere outside tail position, the mark `false`
/// on the call saying so: in any operand, binding, branch, definition body,
/// callee, argument or lambda body.
pub open spec fn calls_outside_tail(e: ExpV<bool>, x: Seq<char>) -> bool
    decreases e, 1nat, 0nat,
{
    match e {
        ExpV::DirectCall(name, args, is_tail) => (name == x && !is_tail) || calls_in_list(args, args.len() as int, x),
        ExpV::Prim(_, args, _) => calls_in_list(args, args.len() as int, x),
        ExpV::Let { bindings, body, .. } => calls_in_binds(bindings, bindings.len() as int, x) || calls_outside_tail(*body, x),
        ExpV::If { cond, thn, els, .. } =>
            calls_outside_tail(*cond, x) || calls_outside_tail(*thn, x) || calls_outside_tail(*els, x),
        ExpV::FunDefs { decls, body, .. } => calls_in_decls(decls, decls.len() as int, x) || calls_outside_tail(*body, x),
        ExpV::ClosureCall(f, args, _) => calls_outside_tail(*f, x) || calls_in_list(args, args.len() as int, x),
        ExpV::Lambda { body, .. } => calls_outside_tail(*body, x),
        _ => false,
    }
}

/// One of the first `i` expressions calls `x` outside tail position.
pub open spec fn calls_in_list(es: Seq<ExpV<bool>>, i: int, x: Seq<char>) -> bool
    decreases es, 0nat, i,
{
    if i <= 0 || i > es.len() { false } else { calls_in_list(es, i - 1, x) || calls_outside_tail(es[i - 1], x) }
}

pub open spec fn calls_in_binds(bs: Seq<(Seq<char>, ExpV<bool>)>, i: int, x: Seq<char>) -> bool
    decreases bs, 0nat, i,
{
    if i <= 0 || i > bs.len() { false } else { calls_in_binds(bs, i - 1, x) || calls_outside_tail(bs[i - 1].1, x) }
}

pub open spec fn calls_in_decls(ds: Seq<DeclX<bool>>, i: int, x: Seq<char>) -> bool
    decreases ds, 0nat, i,
{
    if i <= 0 || i > ds.len() { false } else { calls_in_decls(ds, i - 1, x) || calls_outside_tail(ds[i - 1].body, x) }
}

/// A round of finding the functions to lift finds every function that is
/// called outside tail position, wherever the call stands.
pub proof fn lemma_outside_tail_lifted(e: ExpV<bool>, s: Set<Seq<char>>, inside: bool, x: Seq<char>)
    requires
        calls_outside_tail(e, x),
    ensures
        lift_set(e, s, inside).contains(x),
    decreases e, 1nat, 0nat,
{
    match e {
        ExpV::DirectCall(name, args, is_tail) => {
            let s1 = if !is_tail || inside { s.insert(name) } else { s };
            lemma_list_grows(args, args.len() as int, s1, inside);
            if !(name == x && !is_tail) {
                lemma_list_outside_tail(args, args.len() as int, s1, inside, x);
            }
        },
        ExpV::Prim(_, args, _) => lemma_list_outside_tail(args, args.len() as int, s, inside, x),
        ExpV::Let { bindings, body, .. } => {
            let s1 = lift_set_binds(bindings, bindings.len() as int, s, inside);
            lemma_lift_grows(*body, s1, inside);
            if calls_outside_tail(*body, x) {
                lemma_outside_tail_lifted(*body, s1, inside, x);
            } else {
                lemma_binds_outside_tail(bindings, bindings.len() as int, s, inside, x);
            }
        },
        ExpV::If { cond, thn, els, .. } => {
            let s1 = lift_set(*cond, s, inside);
            let s2 = lift_set(*thn, s1, inside);
            lemma_lift_grows(*thn, s1, inside);
            lemma_lift_grows(*els, s2, inside);
            if calls_outside_tail(*cond, x) {
                lemma_outside_tail_lifted(*cond, s, inside, x);
            } else if calls_outside_tail(*thn, x) {
                lemma_outside_tail_lifted(*thn, s1, inside, x);
            } else {
                lemma_outside_tail_lifted(*els, s2, inside, x);
            }
        },
        ExpV::FunDefs { decls, body, .. } => {
            let s1 = lift_set_decls(decls, decls.len() as int, s, inside);
            lemma_lift_grows(*body, s1, inside);
            if calls_outside_tail(*body, x) {
                lemma_outside_tail_lifted(*body, s1, inside, x);
            } else {
                lemma_decls_outside_tail(decls, decls.len() as int, s, inside, x);
            }
        },
        ExpV::ClosureCall(f, args, _) => {
            let s1 = lift_set(*f, s, inside);
            lemma_list_grows(args, args.len() as int, s1, inside);
            if calls_outside_tail(*f, x) {
                lemma_outside_tail_lifted(*f, s, inside, x);
            } else {
                lemma_list_outside_tail(args, args.len() as int, s1, inside, x);
            }
        },
        ExpV::Lambda { body, .. } => lemma_outside_tail_lifted(*body, s, inside, x),
        _ => {},
    }
}

proof fn lemma_list_outside_tail(es: Seq<ExpV<bool>>, i: int, s: Set<Seq<char>>, inside: bool, x: Seq<char>)
    requires
        calls_in_list(es, i, x),
    ensures
        lift_set_list(es, i, s, inside).contains(x),
    decreases es, 0nat, i,
{
    let s1 = lift_set_list(es, i - 1, s, inside);
    if calls_outside_tail(es[i - 1], x) {
        lemma_outside_tail_lifted(es[i - 1], s1, inside, x);
    } else {
        lemma_list_outside_tail(es, i - 1, s, inside, x);
        lemma_lift_grows(es[i - 1], s1, inside);
    }
}

proof fn lemma_binds_outside_tail(bs: Seq<(Seq<char>, ExpV<bool>)>, i: int, s: Set<Seq<char>>, inside: bool, x: Seq<char>)
    requires
        calls_in_binds(bs, i, x),
    ensures
        lift_set_binds(bs, i, s, inside).contains(x),
    decreases bs, 0nat, i,
{
    let s1 = lift_set_binds(bs, i - 1, s, inside);
    if calls_outside_tail(bs[i - 1].1, x) {
        lemma_outside_tail_lifted(bs[i - 1].1, s1, inside, x);
    } else {
        lemma_binds_outside_tail(bs, i - 1, s, inside, x);
        lemma_lift_grows(bs[i - 1].1, s1, inside);
    }
}

proof fn lemma_decls_outside_tail(ds: Seq<DeclX<bool>>, i: int, s: Set<Seq<char>>, inside: bool, x: Seq<char>)
    requires
        calls_in_decls(ds, i, x),
    ensures
        lift_set_decls(ds, i, s, inside).contains(x),
    decreases ds, 0nat, i,
{
    let s1 = lift_set_decls(ds, i - 1, s, inside);
    let ins = s1.contains(ds[i - 1].name) || inside;
    if calls_outside_tail(ds[i - 1].body, x) {
        lemma_outside_tail_lifted(ds[i - 1].body, s1, ins, x);
    } else {
        lemma_decls_outside_tail(ds, i - 1, s, inside, x);
        lemma_lift_grows(ds[i - 1].body, s1, ins);
    }
}


/// `e` calls `x` directly somewhere, in tail position or not.
pub open spec fn calls_anywhere(e: ExpV<bool>, x: Seq<char>) -> bool
    decreases e, 1nat, 0nat,
{
    match e {
        ExpV::DirectCall(name, args, _) => name == x || calls_any_list(args, args.len() as int, x),
        ExpV::Prim(_, args, _) => calls_any_list(args, args.len() as int, x),
        ExpV::Let { bindings, body, .. } => calls_any_binds(bindings, bindings.len() as int, x) || calls_anywhere(*body, x),
        ExpV::If { cond, thn, els, .. } =>
            calls_anywhere(*cond, x) || calls_anywhere(*thn, x) || calls_anywhere(*els, x),
        ExpV::FunDefs { decls, body, .. } => calls_any_decls(decls, decls.len() as int, x) || calls_anywhere(*body, x),
        ExpV::ClosureCall(f, args, _) => calls_anywhere(*f, x) || calls_any_list(args, args.len() as int, x),
        ExpV::Lambda { body, .. } => calls_anywhere(*body, x),
        _ => false,
    }
}

pub open spec fn calls_any_list(es: Seq<ExpV<bool>>, i: int, x: Seq<char>) -> bool
    decreases es, 0nat, i,
{
    if i <= 0 || i > es.len() { false } else { calls_any_list(es, i - 1, x) || calls_anywhere(es[i - 1], x) }
}

pub open spec fn calls_any_binds(bs: Seq<(Seq<char>, ExpV<bool>)>, i: int, x: Seq<char>) -> bool
    decreases bs, 0nat, i,
{
    if i <= 0 || i > bs.len() { false } else { calls_any_binds(bs, i - 1, x) || calls_anywhere(bs[i - 1].1, x) }
}

pub open spec fn calls_any_decls(ds: Seq<DeclX<bool>>, i: int, x: Seq<char>) -> bool
    decreases ds, 0nat, i,
{
    if i <= 0 || i > ds.len() { false } else { calls_any_decls(ds, i - 1, x) || calls_anywhere(ds[i - 1].body, x) }
}

/// Inside a function that is lifted, every function it calls is lifted, in
/// tail position or not.
pub proof fn lemma_inside_calls_lifted(e: ExpV<bool>, s: Set<Seq<char>>, x: Seq<char>)
    requires
        calls_anywhere(e, x),
    ensures
        lift_set(e, s, true).contains(x),
    decreases e, 1nat, 0nat,
{
    match e {
        ExpV::DirectCall(name, args, is_tail) => {
            let s1 = s.insert(name);
            lemma_list_grows(args, args.len() as int, s1, true);
            if name != x {
                lemma_list_inside(args, args.len() as int, s1, x);
            }
        },
        ExpV::Prim(_, args, _) => lemma_list_inside(args, args.len() as int, s, x),
        ExpV::Let { bindings, body, .. } => {
            let s1 = lift_set_binds(bindings, bindings.len() as int, s, true);
            lemma_lift_grows(*body, s1, true);
            if calls_anywhere(*body, x) {
                lemma_inside_calls_lifted(*body, s1, x);
            } else {
                lemma_binds_inside(bindings, bindings.len() as int, s, x);
            }
        },
        ExpV::If { cond, thn, els, .. } => {
            let s1 = lift_set(*cond, s, true);
            let s2 = lift_set(*thn, s1, true);
            lemma_lift_grows(*thn, s1, true);
            lemma_lift_grows(*els, s2, true);
            if calls_anywhere(*cond, x) {
                lemma_inside_calls_lifted(*cond, s, x);
            } else if calls_anywhere(*thn, x) {
                lemma_inside_calls_lifted(*thn, s1, x);
            } else {
                lemma_inside_calls_lifted(*els, s2, x);
            }
        },
        ExpV::FunDefs { decls, body, .. } => {
            let s1 = lift_set_decls(decls, decls.len() as int, s, true);
            lemma_lift_grows(*body, s1, true);
            if calls_anywhere(*body, x) {
                lemma_inside_calls_lifted(*body, s1, x);
            } else {
                lemma_decls_inside(decls, decls.len() as int, s, x);
            }
        },
        ExpV::ClosureCall(f, args, _) => {
            let s1 = lift_set(*f, s, true);
            lemma_list_grows(args, args.len() as int, s1, true);
            if calls_anywhere(*f, x) {
                lemma_inside_calls_lifted(*f, s, x);
            } else {
                lemma_list_inside(args, args.len() as int, s1, x);
            }
        },
        ExpV::Lambda { body, .. } => lemma_inside_calls_lifted(*body, s, x),
        _ => {},
    }
}

proof fn lemma_list_inside(es: Seq<ExpV<bool>>, i: int, s: Set<Seq<char>>, x: Seq<char>)
    requires
        calls_any_list(es, i, x),
    ensures
        lift_set_list(es, i, s, true).contains(x),
    decreases es, 0nat, i,
{
    let s1 = lift_set_list(es, i - 1, s, true);
    if calls_anywhere(es[i - 1], x) {
        lemma_inside_calls_lifted(es[i - 1], s1, x);
    } else {
        lemma_list_inside(es, i - 1, s, x);
        lemma_lift_grows(es[i - 1], s1, true);
    }
}

proof fn lemma_binds_inside(bs: Seq<(Seq<char>, ExpV<bool>)>, i: int, s: Set<Seq<char>>, x: Seq<char>)
    requires
        calls_any_binds(bs, i, x),
    ensures
        lift_set_binds(bs, i, s, true).contains(x),
    decreases bs, 0nat, i,
{
    let s1 = lift_set_binds(bs, i - 1, s, true);
    if calls_anywhere(bs[i - 1].1, x) {
        lemma_inside_calls_lifted(bs[i - 1].1, s1, x);
    } else {
        lemma_binds_inside(bs, i - 1, s, x);
        lemma_lift_grows(bs[i - 1].1, s1, true);
    }
}

proof fn lemma_decls_inside(ds: Seq<DeclX<bool>>, i: int, s: Set<Seq<char>>, x: Seq<char>)
    requires
        calls_any_decls(ds, i, x),
    ensures
        lift_set_decls(ds, i, s, true).contains(x),
    decreases ds, 0nat, i,
{
    let s1 = lift_set_decls(ds, i - 1, s, true);
    if calls_anywhere(ds[i - 1].body, x) {
        lemma_inside_calls_lifted(ds[i - 1].body, s1, x);
    } else {
        lemma_decls_inside(ds, i - 1, s, x);
        lemma_lift_grows(ds[i - 1].body, s1, true);
    }
}


/// Somewhere in `e` stands a definition of a function named in `t` whose
/// body calls `x` directly.
pub open spec fn lifted_calls(e: ExpV<bool>, t: Set<Seq<char>>, x: Seq<char>) -> bool
    decreases e, 1nat, 0nat,
{
    match e {
        ExpV::DirectCall(_, args, _) => lifted_calls_list(args, args.len() as int, t, x),
        ExpV::Prim(_, args, _) => lifted_calls_list(args, args.len() as int, t, x),
        ExpV::Let { bindings, body, .. } =>
            lifted_calls_binds(bindings, bindings.len() as int, t, x) || lifted_calls(*body, t, x),
        ExpV::If { cond, thn, els, .. } =>
            lifted_calls(*cond, t, x) || lifted_calls(*thn, t, x) || lifted_calls(*els, t, x),
        ExpV::FunDefs { decls, body, .. } =>
            lifted_calls_decls(decls, decls.len() as int, t, x) || lifted_calls(*body, t, x),
        ExpV::ClosureCall(f, args, _) => lifted_calls(*f, t, x) || lifted_calls_list(args, args.len() as int, t, x),
        ExpV::Lambda { body, .. } => lifted_calls(*body, t, x),
        _ => false,
    }
}

pub open spec fn lifted_calls_list(es: Seq<ExpV<bool>>, i: int, t: Set<Seq<char>>, x: Seq<char>) -> bool
    decreases es, 0nat, i,
{
    if i <= 0 || i > es.len() { false } else { lifted_calls_list(es, i - 1, t, x) || lifted_calls(es[i - 1], t, x) }
}

pub open spec fn lifted_calls_binds(bs: Seq<(Seq<char>, ExpV<bool>)>, i: int, t: Set<Seq<char>>, x: Seq<char>) -> bool
    decreases bs, 0nat, i,
{
    if i <= 0 || i > bs.len() { false } else { lifted_calls_binds(bs, i - 1, t, x) || lifted_calls(bs[i - 1].1, t, x) }
}

pub open spec fn lifted_calls_decls(ds: Seq<DeclX<bool>>, i: int, t: Set<Seq<char>>, x: Seq<char>) -> bool
    decreases ds, 0nat, i,
{
    if i <= 0 || i > ds.len() {
        false
    } else {
        ||| lifted_calls_decls(ds, i - 1, t, x)
        ||| (t.contains(ds[i - 1].name) && calls_anywhere(ds[i - 1].body, x))
        ||| lifted_calls(ds[i - 1].body, t, x)
    }
}

/// A round that starts from names that include `t` finds every function
/// called from the body of a definition whose name is in `t`.
pub proof fn lemma_lifted_body_calls(e: ExpV<bool>, t: Set<Seq<char>>, s: Set<Seq<char>>, inside: bool, x: Seq<char>)
    requires
        lifted_calls(e, t, x),
        t.subset_of(s),
    ensures
        lift_set(e, s, inside).contains(x),
    decreases e, 1nat, 0nat,
{
    match e {
        ExpV::DirectCall(name, args, is_tail) => {
            let s1 = if !is_tail || inside { s.insert(name) } else { s };
            lemma_list_lifted_body(args, args.len() as int, t, s1, inside, x);
        },
        ExpV::Prim(_, args, _) => lemma_list_lifted_body(args, args.len() as int, t, s, inside, x),
        ExpV::Let { bindings, body, .. } => {
            let s1 = lift_set_binds(bindings, bindings.len() as int, s, inside);
            lemma_binds_grows(bindings, bindings.len() as int, s, inside);
            lemma_lift_grows(*body, s1, inside);
            if lifted_calls(*body, t, x) {
                lemma_lifted_body_calls(*body, t, s1, inside, x);
            } else {
                lemma_binds_lifted_body(bindings, bindings.len() as int, t, s, inside, x);
            }
        },
        ExpV::If { cond, thn, els, .. } => {
            let s1 = lift_set(*cond, s, inside);
            let s2 = lift_set(*thn, s1, inside);
            lemma_lift_grows(*cond, s, inside);
            lemma_lift_grows(*thn, s1, inside);
            lemma_lift_grows(*els, s2, inside);
            if lifted_calls(*cond, t, x) {
                lemma_lifted_body_calls(*cond, t, s, inside, x);
            } else if lifted_calls(*thn, t, x) {
                lemma_lifted_body_calls(*thn, t, s1, inside, x);
            } else {
                lemma_lifted_body_calls(*els, t, s2, inside, x);
            }
        },
        ExpV::FunDefs { decls, body, .. } => {
            let s1 = lift_set_decls(decls, decls.len() as int, s, inside);
            lemma_decls_grows(decls, decls.len() as int, s, inside);
            lemma_lift_grows(*body, s1, inside);
            if lifted_calls(*body, t, x) {
                lemma_lifted_body_calls(*body, t, s1, inside, x);
            } else {
                lemma_decls_lifted_body(decls, decls.len() as int, t, s, inside, x);
            }
        },
        ExpV::ClosureCall(f, args, _) => {
            let s1 = lift_set(*f, s, inside);
            lemma_lift_grows(*f, s, inside);
            if lifted_calls(*f, t, x) {
                lemma_lifted_body_calls(*f, t, s, inside, x);
                lemma_list_grows(args, args.len() as int, s1, inside);
            } else {
                lemma_list_lifted_body(args, args.len() as int, t, s1, inside, x);
            }
        },
        ExpV::Lambda { body, .. } => lemma_lifted_body_calls(*body, t, s, inside, x),
        _ => {},
    }
}

proof fn lemma_list_lifted_body(es: Seq<ExpV<bool>>, i: int, t: Set<Seq<char>>, s: Set<Seq<char>>, inside: bool, x: Seq<char>)
    requires
        lifted_calls_list(es, i, t, x),
        t.subset_of(s),
    ensures
        lift_set_list(es, i, s, inside).contains(x),
    decreases es, 0nat, i,
{
    let s1 = lift_set_list(es, i - 1, s, inside);
    lemma_list_grows(es, i - 1, s, inside);
    if lifted_calls(es[i - 1], t, x) {
        lemma_lifted_body_calls(es[i - 1], t, s1, inside, x);
    } else {
        lemma_list_lifted_body(es, i - 1, t, s, inside, x);
        lemma_lift_grows(es[i - 1], s1, inside);
    }
}

proof fn lemma_binds_lifted_body(bs: Seq<(Seq<char>, ExpV<bool>)>, i: int, t: Set<Seq<char>>, s: Set<Seq<char>>, inside: bool, x: Seq<char>)
    requires
        lifted_calls_binds(bs, i, t, x),
        t.subset_of(s),
    ensures
        lift_set_binds(bs, i, s, inside).contains(x),
    decreases bs, 0nat, i,
{
    let s1 = lift_set_binds(bs, i - 1, s, inside);
    lemma_binds_grows(bs, i - 1, s, inside);
    if lifted_calls(bs[i - 1].1, t, x) {
        lemma_lifted_body_calls(bs[i - 1].1, t, s1, inside, x);
    } else {
        lemma_binds_lifted_body(bs, i - 1, t, s, inside, x);
        lemma_lift_grows(bs[i - 1].1, s1, inside);
    }
}

proof fn lemma_decls_lifted_body(ds: Seq<DeclX<bool>>, i: int, t: Set<Seq<char>>, s: Set<Seq<char>>, inside: bool, x: Seq<char>)
    requires
        lifted_calls_decls(ds, i, t, x),
        t.subset_of(s),
    ensures
        lift_set_decls(ds, i, s, inside).contains(x),
    decreases ds, 0nat, i,
{
    let s1 = lift_set_decls(ds, i - 1, s, inside);
    let ins = s1.contains(ds[i - 1].name) || inside;
    lemma_decls_grows(ds, i - 1, s, inside);
    if t.contains(ds[i - 1].name) && calls_anywhere(ds[i - 1].body, x) {
        lemma_inside_calls_lifted(ds[i - 1].body, s1, x);
    } else if lifted_calls(ds[i - 1].body, t, x) {
        lemma_lifted_body_calls(ds[i - 1].body, t, s1, ins, x);
    } else {
        lemma_decls_lifted_body(ds, i - 1, t, s, inside, x);
        lemma_lift_grows(ds[i - 1].body, s1, ins);
    }
}

} // verus!
