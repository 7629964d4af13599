//! Renaming every bound name apart: each binding of a name gets the name
//! followed by a counter that grows with each binding of that name.
use vstd::prelude::*;
use crate::syntax::{Exp, FunDecl};
use crate::text::{dec_nat, push_dec_u64};

verus! {

// ---------------------------------------------------------------------------
// The counters.

/// The counters as an association list: a later entry for a name hides the
/// earlier ones.
pub open spec fn counters(s: Seq<(String, u32)>) -> Map<Seq<char>, u32>
    decreases s.len(),
{
    if s.len() == 0 {
        Map::empty()
    } else {
        counters(s.drop_last()).insert(s.last().0@, s.last().1)
    }
}

/// Meeting a binding of `x`: its counter starts at zero, or moves on by one.
pub open spec fn bump(m: Map<Seq<char>, u32>, x: Seq<char>) -> Map<Seq<char>, u32> {
    if m.contains_key(x) {
        m.insert(x, (m[x] + 1) as u32)
    } else {
        m.insert(x, 0)
    }
}

/// The counter of `x` does not overflow when it moves on.
pub open spec fn bump_ok(m: Map<Seq<char>, u32>, x: Seq<char>) -> bool {
    !m.contains_key(x) || m[x] < u32::MAX
}

/// The counters after meeting the first `i` names of `xs`, in order.
pub open spec fn bump_all(m: Map<Seq<char>, u32>, xs: Seq<Seq<char>>, i: int) -> Map<Seq<char>, u32>
    decreases i,
{
    if i <= 0 || i > xs.len() {
        m
    } else {
        bump(bump_all(m, xs, i - 1), xs[i - 1])
    }
}

pub open spec fn bump_all_ok(m: Map<Seq<char>, u32>, xs: Seq<Seq<char>>) -> bool {
    forall|k: int| 0 <= k < xs.len() ==> bump_ok(#[trigger] bump_all(m, xs, k), xs[k])
}

/// The new name of `x`: `x` followed by its counter.
pub open spec fn renamed(x: Seq<char>, m: Map<Seq<char>, u32>) -> Seq<char> {
    x + dec_nat(m[x] as nat)
}

/// The names `xs` as renamed one after another from `m`.
pub open spec fn renamed_all(xs: Seq<Seq<char>>, ys: Seq<String>, m: Map<Seq<char>, u32>) -> bool {
    ys.len() == xs.len() && forall|k: int| 0 <= k < xs.len() ==> (#[trigger] ys[k])@ == renamed(xs[k], bump_all(m, xs, k + 1))
}

pub open spec fn texts_of(v: Seq<String>) -> Seq<Seq<char>> {
    v.map_values(|s: String| s@)
}

pub open spec fn decl_names<A>(ds: Seq<FunDecl<Exp<A>, A>>) -> Seq<Seq<char>> {
    ds.map_values(|d: FunDecl<Exp<A>, A>| d.name@)
}

// ---------------------------------------------------------------------------
// The counters after renaming.

/// The counters after renaming `e` from `m`. The counters leak out of every
/// scope, except that the body of a group of definitions starts and ends
/// with its own copy.
pub open spec fn uniq_map<A>(e: Exp<A>, m: Map<Seq<char>, u32>) -> Map<Seq<char>, u32>
    decreases e, 1nat, 0nat,
{
    match e {
        Exp::Prim(_, args, _) => uniq_map_boxes(args@, args@.len() as int, m),
        Exp::Let { bindings, body, .. } => uniq_map(*body, uniq_map_binds(bindings@, bindings@.len() as int, m)),
        Exp::If { cond, thn, els, .. } => uniq_map(*els, uniq_map(*thn, uniq_map(*cond, m))),
        Exp::FunDefs { decls, body, .. } =>
            uniq_map_decls(decls@, decls@.len() as int, bump_all(m, decl_names(decls@), decls@.len() as int)),
        Exp::Call(f, args, _) => uniq_map(*f, uniq_map_exps(args@, args@.len() as int, m)),
        Exp::Lambda { parameters, body, .. } =>
            uniq_map(*body, bump_all(m, texts_of(parameters@), parameters@.len() as int)),
        _ => m,
    }
}

pub open spec fn uniq_map_boxes<A>(s: Seq<Box<Exp<A>>>, i: int, m: Map<Seq<char>, u32>) -> Map<Seq<char>, u32>
    decreases s, 0nat, i,
{
    if i <= 0 || i > s.len() { m } else { uniq_map(*s[i - 1], uniq_map_boxes(s, i - 1, m)) }
}

pub open spec fn uniq_map_exps<A>(s: Seq<Exp<A>>, i: int, m: Map<Seq<char>, u32>) -> Map<Seq<char>, u32>
    decreases s, 0nat, i,
{
    if i <= 0 || i > s.len() { m } else { uniq_map(s[i - 1], uniq_map_exps(s, i - 1, m)) }
}

/// A binding renames its expression, then meets its name.
pub open spec fn uniq_map_binds<A>(s: Seq<(String, Exp<A>)>, i: int, m: Map<Seq<char>, u32>) -> Map<Seq<char>, u32>
    decreases s, 0nat, i,
{
    if i <= 0 || i > s.len() { m } else { bump(uniq_map(s[i - 1].1, uniq_map_binds(s, i - 1, m)), s[i - 1].0@) }
}

/// A definition meets its parameters, then renames its body.
pub open spec fn uniq_map_decls<A>(s: Seq<FunDecl<Exp<A>, A>>, i: int, m: Map<Seq<char>, u32>) -> Map<Seq<char>, u32>
    decreases s, 0nat, i,
{
    if i <= 0 || i > s.len() {
        m
    } else {
        let p = texts_of(s[i - 1].parameters@);
        uniq_map(s[i - 1].body, bump_all(uniq_map_decls(s, i - 1, m), p, p.len() as int))
    }
}

// ---------------------------------------------------------------------------
// When renaming succeeds.

/// Renaming `e` from `m` meets no unbound variable, no form that only later
/// passes introduce, and no counter overflow.
pub open spec fn uniq_ok<A>(e: Exp<A>, m: Map<Seq<char>, u32>) -> bool
    decreases e, 1nat, 0nat,
{
    match e {
        Exp::Num(..) | Exp::Float(..) | Exp::Bool(..) => true,
        Exp::Var(x, _) => m.contains_key(x@),
        Exp::Prim(_, args, _) => forall|j: int| 0 <= j < args@.len()
            ==> uniq_ok(*args@[j], #[trigger] uniq_map_boxes(args@, j, m)),
        Exp::Let { bindings, body, .. } => {
            &&& forall|j: int| 0 <= j < bindings@.len() ==> {
                &&& uniq_ok(bindings@[j].1, #[trigger] uniq_map_binds(bindings@, j, m))
                &&& bump_ok(uniq_map(bindings@[j].1, uniq_map_binds(bindings@, j, m)), bindings@[j].0@)
            }
            &&& uniq_ok(*body, uniq_map_binds(bindings@, bindings@.len() as int, m))
        },
        Exp::If { cond, thn, els, .. } =>
            uniq_ok(*cond, m) && uniq_ok(*thn, uniq_map(*cond, m)) && uniq_ok(*els, uniq_map(*thn, uniq_map(*cond, m))),
        Exp::FunDefs { decls, body, .. } => {
            let m1 = bump_all(m, decl_names(decls@), decls@.len() as int);
            &&& bump_all_ok(m, decl_names(decls@))
            &&& forall|j: int| 0 <= j < decls@.len() ==> {
                let p = texts_of(decls@[j].parameters@);
                &&& bump_all_ok(#[trigger] uniq_map_decls(decls@, j, m1), p)
                &&& uniq_ok(decls@[j].body, bump_all(uniq_map_decls(decls@, j, m1), p, p.len() as int))
            }
            &&& uniq_ok(*body, m1)
        },
        Exp::Call(f, args, _) => {
            &&& forall|j: int| 0 <= j < args@.len() ==> uniq_ok(args@[j], #[trigger] uniq_map_exps(args@, j, m))
            &&& uniq_ok(*f, uniq_map_exps(args@, args@.len() as int, m))
        },
        Exp::Lambda { parameters, body, .. } => {
            let p = texts_of(parameters@);
            bump_all_ok(m, p) && uniq_ok(*body, bump_all(m, p, p.len() as int))
        },
        _ => false,
    }
}

// ---------------------------------------------------------------------------
// The renamed expression.

/// `r` is `e` renamed from the counters `m`: a variable takes the counter of
/// its name; a binding takes its name's counter after meeting it.
pub open spec fn uniquified<A>(e: Exp<A>, r: Exp<()>, m: Map<Seq<char>, u32>) -> bool
    decreases e, 1nat, 0nat,
{
    match e {
        Exp::Num(x, _) => r matches Exp::Num(y, _) && x == y,
        Exp::Float(x, _) => r matches Exp::Float(y, _) && x == y,
        Exp::Bool(x, _) => r matches Exp::Bool(y, _) && x == y,
        Exp::Var(x, _) => r matches Exp::Var(y, _) && y@ == renamed(x@, m),
        Exp::Prim(p, args, _) => r matches Exp::Prim(q, ra, _) && p == q && ra@.len() == args@.len()
            && forall|j: int| 0 <= j < args@.len()
                ==> uniquified(*args@[j], #[trigger] *ra@[j], uniq_map_boxes(args@, j, m)),
        Exp::Let { bindings, body, .. } => r matches Exp::Let { bindings: rb, body: rbody, .. }
            && rb@.len() == bindings@.len()
            && (forall|j: int| 0 <= j < bindings@.len() ==> {
                &&& uniquified(bindings@[j].1, (#[trigger] rb@[j]).1, uniq_map_binds(bindings@, j, m))
                &&& rb@[j].0@ == renamed(bindings@[j].0@, uniq_map_binds(bindings@, j + 1, m))
            })
            && uniquified(*body, *rbody, uniq_map_binds(bindings@, bindings@.len() as int, m)),
        Exp::If { cond, thn, els, .. } => r matches Exp::If { cond: rc, thn: rt, els: re, .. }
            && uniquified(*cond, *rc, m)
            && uniquified(*thn, *rt, uniq_map(*cond, m))
            && uniquified(*els, *re, uniq_map(*thn, uniq_map(*cond, m))),
        Exp::FunDefs { decls, body, .. } => r matches Exp::FunDefs { decls: rd, body: rbody, .. }
            && rd@.len() == decls@.len()
            && (forall|j: int| 0 <= j < decls@.len() ==> {
                let m1 = bump_all(m, decl_names(decls@), decls@.len() as int);
                let p = texts_of(decls@[j].parameters@);
                let mj = bump_all(uniq_map_decls(decls@, j, m1), p, p.len() as int);
                &&& renamed_all(p, (#[trigger] rd@[j]).parameters@, uniq_map_decls(decls@, j, m1))
                &&& uniquified(decls@[j].body, rd@[j].body, mj)
                &&& rd@[j].name@ == renamed(decls@[j].name@, uniq_map(decls@[j].body, mj))
            })
            && uniquified(*body, *rbody, bump_all(m, decl_names(decls@), decls@.len() as int)),
        Exp::Call(f, args, _) => r matches Exp::Call(rf, ra, _) && ra@.len() == args@.len()
            && (forall|j: int| 0 <= j < args@.len()
                ==> uniquified(args@[j], #[trigger] ra@[j], uniq_map_exps(args@, j, m)))
            && uniquified(*f, *rf, uniq_map_exps(args@, args@.len() as int, m)),
        Exp::Lambda { parameters, body, .. } => r matches Exp::Lambda { parameters: rp, body: rbody, .. }
            && renamed_all(texts_of(parameters@), rp@, m)
            && uniquified(*body, *rbody, bump_all(m, texts_of(parameters@), parameters@.len() as int)),
        _ => false,
    }
}

// ---------------------------------------------------------------------------
// Facts about the counters.

proof fn lemma_counters_push(s: Seq<(String, u32)>, x: String, v: u32)
    ensures
        counters(s.push((x, v))) == counters(s).insert(x@, v),
{
    assert(s.push((x, v)).drop_last() =~= s);
}

/// The names met are all counted.
proof fn lemma_bump_all_has(m: Map<Seq<char>, u32>, xs: Seq<Seq<char>>, i: int)
    requires
        0 <= i <= xs.len(),
    ensures
        forall|k: int| 0 <= k < i ==> bump_all(m, xs, i).contains_key(#[trigger] xs[k]),
        forall|y: Seq<char>| m.contains_key(y) ==> bump_all(m, xs, i).contains_key(y),
    decreases i,
{
    if i > 0 {
        lemma_bump_all_has(m, xs, i - 1);
    }
}

// ---------------------------------------------------------------------------
// Counters in code.

fn counter_get(m: &Vec<(String, u32)>, x: &String) -> (r: Option<u32>)
    ensures
        r == (if counters(m@).contains_key(x@) { Some(counters(m@)[x@]) } else { None }),
{
    let mut k: usize = m.len();
    assert(m@.take(k as int) =~= m@);
    while k > 0
        invariant
            k <= m@.len(),
            counters(m@).contains_key(x@) == counters(m@.take(k as int)).contains_key(x@),
            counters(m@).contains_key(x@) ==> counters(m@)[x@] == counters(m@.take(k as int))[x@],
        decreases k,
    {
        assert(m@.take(k as int).drop_last() =~= m@.take(k - 1));
        if m[k - 1].0 == *x {
            return Some(m[k - 1].1);
        }
        k = k - 1;
    }
    None
}

fn counter_bump(m: &mut Vec<(String, u32)>, x: &String)
    requires
        bump_ok(counters(old(m)@), x@),
    ensures
        counters(final(m)@) == bump(counters(old(m)@), x@),
{
    let c = counter_get(m, x);
    proof {
        lemma_counters_push(m@, *x, 0);
    }
    match c {
        Some(n) => {
            proof {
                lemma_counters_push(m@, *x, (n + 1) as u32);
            }
            m.push((x.clone(), n + 1));
        },
        None => {
            m.push((x.clone(), 0));
        },
    }
}

fn new_name(m: &Vec<(String, u32)>, x: &String) -> (r: String)
    requires
        counters(m@).contains_key(x@),
    ensures
        r@ == renamed(x@, counters(m@)),
{
    let c = counter_get(m, x);
    let mut r = x.clone();
    match c {
        Some(n) => push_dec_u64(&mut r, n as u64),
        None => {},
    }
    r
}

fn bump_ready(m: &Vec<(String, u32)>, x: &String) -> (r: bool)
    ensures
        r == bump_ok(counters(m@), x@),
{
    match counter_get(m, x) {
        Some(n) => n < u32::MAX,
        None => true,
    }
}

/// Meets the names `xs` in order and gives each its new name; `None` where a
/// counter would overflow.
fn bump_names(m: &mut Vec<(String, u32)>, xs: &Vec<String>) -> (r: Option<Vec<String>>)
    ensures
        r is Some <==> bump_all_ok(counters(old(m)@), texts_of(xs@)),
        r matches Some(ys) ==> renamed_all(texts_of(xs@), ys@, counters(old(m)@))
            && counters(final(m)@) == bump_all(counters(old(m)@), texts_of(xs@), xs@.len() as int)
            && keeps_keys(counters(old(m)@), counters(final(m)@)),
{
    let ghost m0 = counters(m@);
    let ghost t = texts_of(xs@);
    let mut r: Vec<String> = Vec::new();
    let mut k: usize = 0;
    while k < xs.len()
        invariant
            k <= xs@.len(),
            m0 == counters(old(m)@),
            t == texts_of(xs@),
            forall|j: int| 0 <= j < k ==> bump_ok(#[trigger] bump_all(m0, t, j), t[j]),
            counters(m@) == bump_all(m0, t, k as int),
            r@.len() == k,
            forall|j: int| 0 <= j < k ==> (#[trigger] r@[j])@ == renamed(t[j], bump_all(m0, t, j + 1)),
        decreases xs@.len() - k,
    {
        if !bump_ready(m, &xs[k]) {
            assert(t[k as int] == xs@[k as int]@);
            assert(!bump_ok(bump_all(m0, t, k as int), t[k as int]));
            return None;
        }
        counter_bump(m, &xs[k]);
        let y = new_name(m, &xs[k]);
        r.push(y);
        k = k + 1;
    }
    proof {
        lemma_bump_all_has(m0, t, xs@.len() as int);
    }
    Some(r)
}

fn copy_counters(m: &Vec<(String, u32)>) -> (r: Vec<(String, u32)>)
    ensures
        r@ == m@,
{
    let mut r: Vec<(String, u32)> = Vec::new();
    let mut k: usize = 0;
    while k < m.len()
        invariant
            k <= m@.len(),
            r@ == m@.take(k as int),
        decreases m@.len() - k,
    {
        r.push((m[k].0.clone(), m[k].1));
        assert(r@ =~= m@.take(k + 1));
        k = k + 1;
    }
    assert(m@.take(m@.len() as int) =~= m@);
    r
}

// ---------------------------------------------------------------------------
// Renaming: `None` where renaming fails.

pub open spec fn keeps_keys(m0: Map<Seq<char>, u32>, m1: Map<Seq<char>, u32>) -> bool {
    forall|y: Seq<char>| m0.contains_key(y) ==> #[trigger] m1.contains_key(y)
}

fn uniquify_helper<A>(e: &Exp<A>, map: &mut Vec<(String, u32)>) -> (r: Option<Exp<()>>)
    ensures
        r is Some <==> uniq_ok(*e, counters(old(map)@)),
        r matches Some(x) ==> uniquified(*e, x, counters(old(map)@))
            && counters(final(map)@) == uniq_map(*e, counters(old(map)@))
            && keeps_keys(counters(old(map)@), counters(final(map)@)),
    decreases e, 1nat,
{
    match e {
        Exp::Num(n, _) => Some(Exp::Num(*n, ())),
        Exp::Bool(b, _) => Some(Exp::Bool(*b, ())),
        Exp::Float(f, _) => Some(Exp::Float(*f, ())),
        Exp::Var(name, _) => match counter_get(map, name) {
            Some(_) => Some(Exp::Var(new_name(map, name), ())),
            None => None,
        },
        Exp::Prim(p, args, _) => {
            let new_args = match uniq_boxes(args, map) { Some(v) => v, None => return None };
            Some(Exp::Prim(*p, new_args, ()))
        },
        Exp::Let { bindings, body, .. } => {
            let new_bindings = match uniq_binds(bindings, map) { Some(v) => v, None => return None };
            let new_body = match uniquify_helper(body, map) { Some(v) => v, None => return None };
            Some(Exp::Let { bindings: new_bindings, body: Box::new(new_body), ann: () })
        },
        Exp::If { cond, thn, els, .. } => {
            let c = match uniquify_helper(cond, map) { Some(v) => v, None => return None };
            let t = match uniquify_helper(thn, map) { Some(v) => v, None => return None };
            let f = match uniquify_helper(els, map) { Some(v) => v, None => return None };
            Some(Exp::If { cond: Box::new(c), thn: Box::new(t), els: Box::new(f), ann: () })
        },
        Exp::FunDefs { .. } => uniq_fun_defs(e, map),
        Exp::Call(f, args, _) => {
            let new_args = match uniq_exps(args, map) { Some(v) => v, None => return None };
            let new_f = match uniquify_helper(f, map) { Some(v) => v, None => return None };
            Some(Exp::Call(Box::new(new_f), new_args, ()))
        },
        Exp::Lambda { parameters, body, .. } => {
            let new_params = match bump_names(map, parameters) { Some(v) => v, None => return None };
            let new_body = match uniquify_helper(body, map) { Some(v) => v, None => return None };
            Some(Exp::Lambda { parameters: new_params, body: Box::new(new_body), ann: () })
        },
        _ => None,
    }
}

#[verifier::loop_isolation(false)]
fn uniq_fun_defs<A>(e: &Exp<A>, map: &mut Vec<(String, u32)>) -> (r: Option<Exp<()>>)
    requires
        e is FunDefs,
    ensures
        r is Some <==> uniq_ok(*e, counters(old(map)@)),
        r matches Some(x) ==> uniquified(*e, x, counters(old(map)@))
            && counters(final(map)@) == uniq_map(*e, counters(old(map)@))
            && keeps_keys(counters(old(map)@), counters(final(map)@)),
    decreases e, 0nat,
{
    match e {
        Exp::FunDefs { decls, body, .. } => {
            let ghost m0 = counters(map@);
            let ghost names = decl_names(decls@);
            let mut k: usize = 0;
            while k < decls.len()
                invariant
                    k <= decls@.len(),
                    names == decl_names(decls@),
                    forall|j: int| 0 <= j < k ==> bump_ok(#[trigger] bump_all(m0, names, j), names[j]),
                    counters(map@) == bump_all(m0, names, k as int),
                decreases decls@.len() - k,
            {
                assert(names[k as int] == decls@[k as int].name@);
                if !bump_ready(map, &decls[k].name) {
                    return None;
                }
                counter_bump(map, &decls[k].name);
                k = k + 1;
            }
            proof {
                lemma_bump_all_has(m0, names, decls@.len() as int);
            }
            assert forall|j: int| 0 <= j < decls@.len() implies counters(map@).contains_key(#[trigger] decls@[j].name@) by {
                assert(names[j] == decls@[j].name@);
            }
            let mut body_map = copy_counters(map);
            let new_decls = match uniq_decls(decls, map) { Some(v) => v, None => return None };
            let new_body = match uniquify_helper(body, &mut body_map) { Some(v) => v, None => return None };
            Some(Exp::FunDefs { decls: new_decls, body: Box::new(new_body), ann: () })
        },
        _ => None,
    }
}

fn uniq_boxes<A>(s: &Vec<Box<Exp<A>>>, map: &mut Vec<(String, u32)>) -> (r: Option<Vec<Box<Exp<()>>>>)
    ensures
        r is Some <==> forall|j: int| 0 <= j < s@.len() ==> uniq_ok(*s@[j], #[trigger] uniq_map_boxes(s@, j, counters(old(map)@))),
        r matches Some(v) ==> v@.len() == s@.len()
            && (forall|j: int| 0 <= j < s@.len() ==> uniquified(*s@[j], #[trigger] *v@[j], uniq_map_boxes(s@, j, counters(old(map)@))))
            && counters(final(map)@) == uniq_map_boxes(s@, s@.len() as int, counters(old(map)@))
            && keeps_keys(counters(old(map)@), counters(final(map)@)),
    decreases s, 0nat,
{
    let ghost m0 = counters(map@);
    let mut out: Vec<Box<Exp<()>>> = Vec::new();
    let mut k: usize = 0;
    while k < s.len()
        invariant
            k <= s@.len(),
            m0 == counters(old(map)@),
            forall|j: int| 0 <= j < k ==> uniq_ok(*s@[j], #[trigger] uniq_map_boxes(s@, j, m0)),
            out@.len() == k,
            forall|j: int| 0 <= j < k ==> uniquified(*s@[j], #[trigger] *out@[j], uniq_map_boxes(s@, j, m0)),
            counters(map@) == uniq_map_boxes(s@, k as int, m0),
            keeps_keys(m0, counters(map@)),
        decreases s@.len() - k,
    {
        let x = match uniquify_helper(&s[k], map) { Some(v) => v, None => return None };
        out.push(Box::new(x));
        k = k + 1;
    }
    Some(out)
}

fn uniq_exps<A>(s: &Vec<Exp<A>>, map: &mut Vec<(String, u32)>) -> (r: Option<Vec<Exp<()>>>)
    ensures
        r is Some <==> forall|j: int| 0 <= j < s@.len() ==> uniq_ok(s@[j], #[trigger] uniq_map_exps(s@, j, counters(old(map)@))),
        r matches Some(v) ==> v@.len() == s@.len()
            && (forall|j: int| 0 <= j < s@.len() ==> uniquified(s@[j], #[trigger] v@[j], uniq_map_exps(s@, j, counters(old(map)@))))
            && counters(final(map)@) == uniq_map_exps(s@, s@.len() as int, counters(old(map)@))
            && keeps_keys(counters(old(map)@), counters(final(map)@)),
    decreases s, 0nat,
{
    let ghost m0 = counters(map@);
    let mut out: Vec<Exp<()>> = Vec::new();
    let mut k: usize = 0;
    while k < s.len()
        invariant
            k <= s@.len(),
            m0 == counters(old(map)@),
            forall|j: int| 0 <= j < k ==> uniq_ok(s@[j], #[trigger] uniq_map_exps(s@, j, m0)),
            out@.len() == k,
            forall|j: int| 0 <= j < k ==> uniquified(s@[j], #[trigger] out@[j], uniq_map_exps(s@, j, m0)),
            counters(map@) == uniq_map_exps(s@, k as int, m0),
            keeps_keys(m0, counters(map@)),
        decreases s@.len() - k,
    {
        let x = match uniquify_helper(&s[k], map) { Some(v) => v, None => return None };
        out.push(x);
        k = k + 1;
    }
    Some(out)
}

fn uniq_binds<A>(s: &Vec<(String, Exp<A>)>, map: &mut Vec<(String, u32)>) -> (r: Option<Vec<(String, Exp<()>)>>)
    ensures
        r is Some <==> forall|j: int| 0 <= j < s@.len() ==> {
            &&& uniq_ok(s@[j].1, #[trigger] uniq_map_binds(s@, j, counters(old(map)@)))
            &&& bump_ok(uniq_map(s@[j].1, uniq_map_binds(s@, j, counters(old(map)@))), s@[j].0@)
        },
        r matches Some(v) ==> v@.len() == s@.len()
            && (forall|j: int| 0 <= j < s@.len() ==> {
                &&& uniquified(s@[j].1, (#[trigger] v@[j]).1, uniq_map_binds(s@, j, counters(old(map)@)))
                &&& v@[j].0@ == renamed(s@[j].0@, uniq_map_binds(s@, j + 1, counters(old(map)@)))
            })
            && counters(final(map)@) == uniq_map_binds(s@, s@.len() as int, counters(old(map)@))
            && keeps_keys(counters(old(map)@), counters(final(map)@)),
    decreases s, 0nat,
{
    let ghost m0 = counters(map@);
    let mut out: Vec<(String, Exp<()>)> = Vec::new();
    let mut k: usize = 0;
    while k < s.len()
        invariant
            k <= s@.len(),
            m0 == counters(old(map)@),
            forall|j: int| 0 <= j < k ==> {
                &&& uniq_ok(s@[j].1, #[trigger] uniq_map_binds(s@, j, m0))
                &&& bump_ok(uniq_map(s@[j].1, uniq_map_binds(s@, j, m0)), s@[j].0@)
            },
            out@.len() == k,
            forall|j: int| 0 <= j < k ==> {
                &&& uniquified(s@[j].1, (#[trigger] out@[j]).1, uniq_map_binds(s@, j, m0))
                &&& out@[j].0@ == renamed(s@[j].0@, uniq_map_binds(s@, j + 1, m0))
            },
            counters(map@) == uniq_map_binds(s@, k as int, m0),
            keeps_keys(m0, counters(map@)),
        decreases s@.len() - k,
    {
        let x = match uniquify_helper(&s[k].1, map) { Some(v) => v, None => return None };
        if !bump_ready(map, &s[k].0) {
            return None;
        }
        counter_bump(map, &s[k].0);
        let y = new_name(map, &s[k].0);
        out.push((y, x));
        k = k + 1;
    }
    Some(out)
}

fn uniq_decls<A>(s: &Vec<FunDecl<Exp<A>, A>>, map: &mut Vec<(String, u32)>) -> (r: Option<Vec<FunDecl<Exp<()>, ()>>>)
    requires
        forall|j: int| 0 <= j < s@.len() ==> counters(old(map)@).contains_key(#[trigger] s@[j].name@),
    ensures
        r is Some <==> forall|j: int| 0 <= j < s@.len() ==> {
            let p = texts_of(s@[j].parameters@);
            &&& bump_all_ok(#[trigger] uniq_map_decls(s@, j, counters(old(map)@)), p)
            &&& uniq_ok(s@[j].body, bump_all(uniq_map_decls(s@, j, counters(old(map)@)), p, p.len() as int))
        },
        r matches Some(v) ==> v@.len() == s@.len()
            && (forall|j: int| 0 <= j < s@.len() ==> {
                let p = texts_of(s@[j].parameters@);
                let mj = bump_all(uniq_map_decls(s@, j, counters(old(map)@)), p, p.len() as int);
                &&& renamed_all(p, (#[trigger] v@[j]).parameters@, uniq_map_decls(s@, j, counters(old(map)@)))
                &&& uniquified(s@[j].body, v@[j].body, mj)
                &&& v@[j].name@ == renamed(s@[j].name@, uniq_map(s@[j].body, mj))
            })
            && counters(final(map)@) == uniq_map_decls(s@, s@.len() as int, counters(old(map)@))
            && keeps_keys(counters(old(map)@), counters(final(map)@)),
    decreases s, 0nat,
{
    let ghost m0 = counters(map@);
    let mut out: Vec<FunDecl<Exp<()>, ()>> = Vec::new();
    let mut k: usize = 0;
    while k < s.len()
        invariant
            k <= s@.len(),
            m0 == counters(old(map)@),
            forall|j: int| 0 <= j < k ==> {
                let p = texts_of(s@[j].parameters@);
                &&& bump_all_ok(#[trigger] uniq_map_decls(s@, j, m0), p)
                &&& uniq_ok(s@[j].body, bump_all(uniq_map_decls(s@, j, m0), p, p.len() as int))
            },
            forall|j: int| 0 <= j < s@.len() ==> m0.contains_key(#[trigger] s@[j].name@),
            out@.len() == k,
            forall|j: int| 0 <= j < k ==> {
                let p = texts_of(s@[j].parameters@);
                let mj = bump_all(uniq_map_decls(s@, j, m0), p, p.len() as int);
                &&& renamed_all(p, (#[trigger] out@[j]).parameters@, uniq_map_decls(s@, j, m0))
                &&& uniquified(s@[j].body, out@[j].body, mj)
                &&& out@[j].name@ == renamed(s@[j].name@, uniq_map(s@[j].body, mj))
            },
            counters(map@) == uniq_map_decls(s@, k as int, m0),
            keeps_keys(m0, counters(map@)),
        decreases s@.len() - k,
    {
        let ghost mk = counters(map@);
        let params = match bump_names(map, &s[k].parameters) { Some(v) => v, None => return None };
        let ghost mp = counters(map@);
        let b = match uniquify_helper(&s[k].body, map) { Some(v) => v, None => return None };
        proof {
            assert(m0.contains_key(s@[k as int].name@));
            assert(mk.contains_key(s@[k as int].name@));
            assert(mp.contains_key(s@[k as int].name@));
            assert(keeps_keys(m0, counters(map@)));
        }
        let n = new_name(map, &s[k].name);
        out.push(FunDecl { name: n, parameters: params, body: b, ann: () });
        k = k + 1;
    }
    Some(out)
}

/// Renames every bound name of `e` apart, starting with no counters; `None`
/// where a variable is unbound, a form is not handled, or a counter would
/// overflow.
pub fn uniquify<A>(e: &Exp<A>) -> (r: Option<Exp<()>>)
    ensures
        r is Some <==> uniq_ok(*e, Map::empty()),
        r matches Some(x) ==> uniquified(*e, x, Map::empty()),
{
    let mut map: Vec<(String, u32)> = Vec::new();
    assert(counters(map@) =~= Map::empty());
    uniquify_helper(e, &mut map)
}

} // verus!
