//! Closures for local functions: each function of a group (but those whose
//! name holds `closure`) takes the variables its body reads as extra
//! parameters, gains a companion `<name>_closure` that takes an environment
//! array and calls it, and is bound in the body of the group to a closure
//! over that companion.
use vstd::prelude::*;
use crate::syntax::{Exp, FunDecl, Prim, VarOrLabel};
use crate::seqview::TargetV;
use crate::expv::{ExpV, DeclX, defs_free, exp_view, exps_view, boxes_view, binds_view, decls_x, lemma_exp_view_lists};
use crate::names::{texts, copy_names, contains_text};
use crate::anf::{FunsV, funs_view};
use crate::freevars::{bvars, bvars_ok, add_front, add_front_names, body_variables};

verus! {

// ---------------------------------------------------------------------------
// Names.

/// The text `closure` starts at position `i` of `x`.
pub open spec fn closure_at(x: Seq<char>, i: int) -> bool {
    &&& x[i] == 'c' &&& x[i + 1] == 'l' &&& x[i + 2] == 'o' &&& x[i + 3] == 's'
    &&& x[i + 4] == 'u' &&& x[i + 5] == 'r' &&& x[i + 6] == 'e'
}

/// `x` holds the text `closure`.
pub open spec fn mentions_closure(x: Seq<char>) -> bool {
    exists|i: int| 0 <= i && i + 7 <= x.len() && #[trigger] closure_at(x, i)
}

pub open spec fn closure_name(x: Seq<char>) -> Seq<char> {
    x + "_closure"@
}

pub(crate) fn has_closure(s: &String) -> (r: bool)
    ensures
        r == mentions_closure(s@),
{
    let t = s.as_str();
    let n = t.unicode_len();
    if n < 7 {
        return false;
    }
    let mut i: usize = 0;
    while i <= n - 7
        invariant
            7 <= n,
            n == s@.len(),
            t@ == s@,
            forall|j: int| 0 <= j < i ==> !#[trigger] closure_at(s@, j),
        decreases n - i,
    {
        if t.get_char(i) == 'c' && t.get_char(i + 1) == 'l' && t.get_char(i + 2) == 'o'
            && t.get_char(i + 3) == 's' && t.get_char(i + 4) == 'u' && t.get_char(i + 5) == 'r'
            && t.get_char(i + 6) == 'e' {
            assert(closure_at(s@, i as int));
            return true;
        }
        i = i + 1;
    }
    false
}

pub(crate) fn closure_label(x: &String) -> (r: String)
    ensures
        r@ == closure_name(x@),
{
    let mut r = x.clone();
    r.append("_closure");
    r
}

// ---------------------------------------------------------------------------
// The model.

/// The functions of a group, with their parameters.
pub open spec fn decl_funs(ds: Seq<DeclX<bool>>) -> FunsV {
    ds.map_values(|d: DeclX<bool>| (d.name, d.parameters))
}

/// The parameters of a function after capture: each variable its body reads
/// that is not among them yet is put in front.
pub open spec fn captured_params(d: DeclX<bool>, funs: FunsV) -> Seq<Seq<char>> {
    let v = bvars(d.body, funs);
    add_front(d.parameters, v, v.len() as int)
}

/// How many of the first `k` names of `np` are not among `ps`.
pub open spec fn n_extra(np: Seq<Seq<char>>, ps: Seq<Seq<char>>, k: int) -> int
    decreases k,
{
    if k <= 0 || k > np.len() { 0 } else { n_extra(np, ps, k - 1) + if ps.contains(np[k - 1]) { 0int } else { 1int } }
}

/// The arguments the companion passes: the environment's slots, last first,
/// then its own parameters.
pub open spec fn closure_args(np: Seq<Seq<char>>, ps: Seq<Seq<char>>, a: bool) -> Seq<ExpV<bool>> {
    let n = n_extra(np, ps, np.len() as int);
    Seq::new(n as nat, |i: int| ExpV::Prim(Prim::ArrayGet, seq![ExpV::Var("env"@, a), ExpV::Num((n - 1 - i) as i64, a)], a))
        + Seq::new(ps.len(), |i: int| ExpV::Var(ps[i], a))
}

/// The variables of `fps` that are not among `ps`, in order.
pub open spec fn env_vars(fps: Seq<Seq<char>>, ps: Seq<Seq<char>>, k: int, a: bool) -> Seq<ExpV<bool>>
    decreases k,
{
    if k <= 0 || k > fps.len() {
        Seq::empty()
    } else {
        let p = env_vars(fps, ps, k - 1, a);
        if ps.contains(fps[k - 1]) { p } else { p.push(ExpV::Var(fps[k - 1], a)) }
    }
}

/// The first definition named `x`.
pub open spec fn first_named(nd: Seq<DeclX<bool>>, x: Seq<char>) -> Option<DeclX<bool>>
    decreases nd.len(),
{
    if nd.len() == 0 { None } else if nd[0].name == x { Some(nd[0]) } else { first_named(nd.drop_first(), x) }
}

/// The number of parameters of the last of the first `i` definitions named
/// `x` that is not skipped.
pub open spec fn arity_of(ds: Seq<DeclX<bool>>, i: int, x: Seq<char>) -> Option<usize>
    decreases i,
{
    if i <= 0 || i > ds.len() {
        None
    } else if ds[i - 1].name == x && !mentions_closure(ds[i - 1].name) {
        Some(ds[i - 1].parameters.len() as usize)
    } else {
        arity_of(ds, i - 1, x)
    }
}

/// `e` with closures made for its local functions.
pub open spec fn recur(e: ExpV<bool>) -> ExpV<bool>
    decreases e, 1nat, 0nat,
{
    match e {
        ExpV::Prim(p, args, a) => ExpV::Prim(p, Seq::new(args.len(), |j: int|
            if 0 <= j < args.len() { recur(args[j]) } else { ExpV::Num(0, a) }), a),
        ExpV::Let { bindings, body, ann } => ExpV::Let {
            bindings: Seq::new(bindings.len(), |j: int|
                if 0 <= j < bindings.len() { (bindings[j].0, recur(bindings[j].1)) } else { (Seq::empty(), ExpV::Num(0, ann)) }),
            body: Box::new(recur(*body)),
            ann,
        },
        ExpV::If { cond, thn, els, ann } => ExpV::If {
            cond: Box::new(recur(*cond)),
            thn: Box::new(recur(*thn)),
            els: Box::new(recur(*els)),
            ann,
        },
        ExpV::FunDefs { decls, body, ann } => {
            let nd = recur_decls(decls, decls.len() as int, decl_funs(decls), ann);
            ExpV::FunDefs { decls: nd, body: Box::new(wrap_closures(decls, decls.len() as int, recur(*body), nd, ann)), ann }
        },
        ExpV::DirectCall(name, args, a) => ExpV::DirectCall(name, Seq::new(args.len(), |j: int|
            if 0 <= j < args.len() { recur(args[j]) } else { ExpV::Num(0, a) }), a),
        ExpV::ClosureCall(f, args, a) => ExpV::ClosureCall(Box::new(recur(*f)), Seq::new(args.len(), |j: int|
            if 0 <= j < args.len() { recur(args[j]) } else { ExpV::Num(0, a) }), a),
        ExpV::Lambda { parameters, body, ann } => ExpV::Lambda { parameters, body: Box::new(recur(*body)), ann },
        _ => e,
    }
}

/// Closure conversion leaves a program without function definitions as it is.
pub proof fn lemma_recur_defs_free(e: ExpV<bool>)
    requires
        defs_free(e),
    ensures
        recur(e) == e,
    decreases e,
{
    match e {
        ExpV::Prim(p, args, a) => {
            assert forall|j: int| 0 <= j < args.len() implies recur(args[j]) == args[j] by {
                lemma_recur_defs_free(args[j]);
            }
            assert(recur(e)->Prim_1 =~= args);
        },
        ExpV::Let { bindings, body, ann } => {
            assert forall|j: int| 0 <= j < bindings.len() implies recur(bindings[j].1) == bindings[j].1 by {
                lemma_recur_defs_free(bindings[j].1);
            }
            lemma_recur_defs_free(*body);
            assert(recur(e)->Let_bindings =~= bindings);
        },
        ExpV::If { cond, thn, els, .. } => {
            lemma_recur_defs_free(*cond);
            lemma_recur_defs_free(*thn);
            lemma_recur_defs_free(*els);
        },
        ExpV::DirectCall(_, args, _) => {
            assert forall|j: int| 0 <= j < args.len() implies recur(args[j]) == args[j] by {
                lemma_recur_defs_free(args[j]);
            }
            assert(recur(e)->DirectCall_1 =~= args);
        },
        ExpV::ClosureCall(f, args, _) => {
            lemma_recur_defs_free(*f);
            assert forall|j: int| 0 <= j < args.len() implies recur(args[j]) == args[j] by {
                lemma_recur_defs_free(args[j]);
            }
            assert(recur(e)->ClosureCall_1 =~= args);
        },
        ExpV::Lambda { body, .. } => {
            lemma_recur_defs_free(*body);
        },
        _ => {},
    }
}

/// The first `i` definitions of a group after closure conversion: each that
/// is not skipped, with its captured parameters, then its companion.
pub open spec fn recur_decls(ds: Seq<DeclX<bool>>, i: int, funs: FunsV, a: bool) -> Seq<DeclX<bool>>
    decreases ds, 0nat, i,
{
    if i <= 0 || i > ds.len() {
        Seq::empty()
    } else {
        let p = recur_decls(ds, i - 1, funs, a);
        let d = ds[i - 1];
        if mentions_closure(d.name) {
            p
        } else {
            let np = captured_params(d, funs);
            p + seq![
                DeclX { name: d.name, parameters: np, body: recur(d.body), ann: a },
                DeclX {
                    name: closure_name(d.name),
                    parameters: seq!["env"@] + d.parameters,
                    body: ExpV::ExternalCall {
                        fun: TargetV::Label(d.name),
                        args: closure_args(np, d.parameters, a),
                        is_tail: false,
                        ann: a,
                    },
                    ann: a,
                },
            ]
        }
    }
}

/// The environment of the closure of `d`: the captured variables of its
/// converted definition.
pub open spec fn closure_env(nd: Seq<DeclX<bool>>, d: DeclX<bool>, a: bool) -> Seq<ExpV<bool>> {
    match first_named(nd, d.name) {
        Some(f) => env_vars(f.parameters, d.parameters, f.parameters.len() as int, a),
        None => Seq::empty(),
    }
}

/// `inner` under a binding of each of the first `i` functions (not skipped)
/// to its closure, the later ones outermost.
pub open spec fn wrap_closures(ds: Seq<DeclX<bool>>, i: int, inner: ExpV<bool>, nd: Seq<DeclX<bool>>, a: bool) -> ExpV<bool>
    decreases i,
{
    if i <= 0 || i > ds.len() {
        inner
    } else {
        let w = wrap_closures(ds, i - 1, inner, nd, a);
        let d = ds[i - 1];
        if mentions_closure(d.name) {
            w
        } else {
            let arity = match arity_of(ds, ds.len() as int, d.name) { Some(n) => n, None => 0 };
            ExpV::Let {
                bindings: seq![(d.name, ExpV::MakeClosure {
                    arity,
                    label: closure_name(d.name),
                    env: Box::new(ExpV::Prim(Prim::MakeArray, closure_env(nd, d, a), a)),
                    ann: a,
                })],
                body: Box::new(w),
                ann: a,
            }
        }
    }
}

/// Closure conversion meets only forms it handles, and each function it
/// converts reads its variables without fault.
pub open spec fn recur_ok(e: ExpV<bool>) -> bool
    decreases e,
{
    match e {
        ExpV::Num(..) | ExpV::Float(..) | ExpV::Bool(..) | ExpV::Var(..) => true,
        ExpV::Prim(_, args, _) => forall|j: int| 0 <= j < args.len() ==> recur_ok(args[j]),
        ExpV::Let { bindings, body, .. } =>
            (forall|j: int| 0 <= j < bindings.len() ==> recur_ok(bindings[j].1)) && recur_ok(*body),
        ExpV::If { cond, thn, els, .. } => recur_ok(*cond) && recur_ok(*thn) && recur_ok(*els),
        ExpV::FunDefs { decls, body, .. } => recur_ok(*body) && forall|j: int| 0 <= j < decls.len()
            && !mentions_closure(decls[j].name) ==> recur_ok(decls[j].body) && bvars_ok(decls[j].body, decl_funs(decls)),
        ExpV::DirectCall(_, args, _) => forall|j: int| 0 <= j < args.len() ==> recur_ok(args[j]),
        ExpV::ClosureCall(f, args, _) => recur_ok(*f) && forall|j: int| 0 <= j < args.len() ==> recur_ok(args[j]),
        ExpV::Lambda { body, .. } => recur_ok(*body),
        _ => false,
    }
}

// ---------------------------------------------------------------------------
// Pieces in code.

/// The functions of a group, with their parameters.
pub(crate) fn decl_pairs(ds: &Vec<FunDecl<Exp<bool>, bool>>) -> (r: Vec<(String, Vec<String>)>)
    ensures
        funs_view(r@) == decl_funs(decls_x(ds@)),
{
    let mut r: Vec<(String, Vec<String>)> = Vec::new();
    let mut k: usize = 0;
    while k < ds.len()
        invariant
            k <= ds@.len(),
            funs_view(r@) =~= decl_funs(decls_x(ds@)).take(k as int),
        decreases ds@.len() - k,
    {
        let ghost before = r@;
        r.push((ds[k].name.clone(), copy_names(&ds[k].parameters)));
        assert(funs_view(r@) =~= funs_view(before).push((ds@[k as int].name@, texts(ds@[k as int].parameters@))));
        assert(decl_funs(decls_x(ds@)).take(k + 1) =~= decl_funs(decls_x(ds@)).take(k as int).push(decl_funs(decls_x(ds@))[k as int]));
        k = k + 1;
    }
    assert(decl_funs(decls_x(ds@)).take(ds@.len() as int) =~= decl_funs(decls_x(ds@)));
    r
}

/// The slot `c` of the environment array.
fn env_slot(c: usize, a: bool) -> (r: Exp<bool>)
    ensures
        exp_view(r) == ExpV::Prim(Prim::ArrayGet, seq![ExpV::Var("env"@, a), ExpV::Num(c as i64, a)], a),
{
    let args = vec![Box::new(Exp::Var(String::from_str("env"), a)), Box::new(Exp::Num(c as i64, a))];
    let r = Exp::Prim(Prim::ArrayGet, args, a);
    proof {
        lemma_exp_view_lists(r);
        assert(boxes_view(args@) =~= seq![ExpV::Var("env"@, a), ExpV::Num(c as i64, a)]);
    }
    r
}

fn closure_call_args(np: &Vec<String>, ps: &Vec<String>, a: bool) -> (r: Vec<Exp<bool>>)
    ensures
        exps_view(r@) == closure_args(texts(np@), texts(ps@), a),
{
    let ghost tn = texts(np@);
    let ghost tp = texts(ps@);
    let mut r: Vec<Exp<bool>> = Vec::new();
    let mut k: usize = 0;
    while k < ps.len()
        invariant
            k <= ps@.len(),
            tp == texts(ps@),
            exps_view(r@) =~= Seq::new(k as nat, |i: int| ExpV::Var(tp[i], a)),
        decreases ps@.len() - k,
    {
        let ghost before = r@;
        r.push(Exp::Var(ps[k].clone(), a));
        assert(exps_view(r@) =~= exps_view(before).push(ExpV::Var(tp[k as int], a)));
        k = k + 1;
    }
    let mut count: usize = 0;
    k = 0;
    while k < np.len()
        invariant
            k <= np@.len(),
            tn == texts(np@),
            tp == texts(ps@),
            count == n_extra(tn, tp, k as int),
            count <= k,
            exps_view(r@) =~= Seq::new(count as nat, |i: int|
                ExpV::Prim(Prim::ArrayGet, seq![ExpV::Var("env"@, a), ExpV::Num((count - 1 - i) as i64, a)], a))
                + Seq::new(tp.len(), |i: int| ExpV::Var(tp[i], a)),
        decreases np@.len() - k,
    {
        if !contains_text(ps, &np[k]) {
            let slot = env_slot(count, a);
            let ghost before = r@;
            r.insert(0, slot);
            assert(exps_view(r@) =~= seq![exp_view(slot)] + exps_view(before));
            count = count + 1;
        }
        k = k + 1;
    }
    r
}

/// The first definition of `nd` named `x`, by position.
proof fn lemma_first_named_at(nd: Seq<DeclX<bool>>, x: Seq<char>, i: int)
    requires
        0 <= i <= nd.len(),
        forall|j: int| 0 <= j < i ==> nd[j].name != x,
    ensures
        i < nd.len() && nd[i].name == x ==> first_named(nd, x) == Some(nd[i]),
        i == nd.len() ==> first_named(nd, x) is None,
    decreases i,
{
    if i > 0 {
        lemma_first_named_at(nd.drop_first(), x, i - 1);
    }
}

fn closure_env_vars(nd: &Vec<FunDecl<Exp<bool>, bool>>, d: &FunDecl<Exp<bool>, bool>, a: bool) -> (r: Vec<Box<Exp<bool>>>)
    ensures
        boxes_view(r@) == closure_env(decls_x(nd@), DeclX { name: d.name@, parameters: texts(d.parameters@), body: exp_view(d.body), ann: d.ann }, a),
{
    let ghost v = decls_x(nd@);
    let ghost dx = DeclX { name: d.name@, parameters: texts(d.parameters@), body: exp_view(d.body), ann: d.ann };
    let mut i: usize = 0;
    while i < nd.len()
        invariant
            i <= nd@.len(),
            v == decls_x(nd@),
            forall|j: int| 0 <= j < i ==> v[j].name != d.name@,
        decreases nd@.len() - i,
    {
        if nd[i].name == d.name {
            proof {
                lemma_first_named_at(v, d.name@, i as int);
            }
            let fps = &nd[i].parameters;
            let ghost tf = texts(fps@);
            let mut r: Vec<Box<Exp<bool>>> = Vec::new();
            let mut k: usize = 0;
            while k < fps.len()
                invariant
                    k <= fps@.len(),
                    tf == texts(fps@),
                    boxes_view(r@) =~= env_vars(tf, texts(d.parameters@), k as int, a),
                decreases fps@.len() - k,
            {
                if !contains_text(&d.parameters, &fps[k]) {
                    let ghost before = r@;
                    r.push(Box::new(Exp::Var(fps[k].clone(), a)));
                    assert(boxes_view(r@) =~= boxes_view(before).push(ExpV::Var(tf[k as int], a)));
                }
                k = k + 1;
            }
            return r;
        }
        i = i + 1;
    }
    proof {
        lemma_first_named_at(v, d.name@, nd@.len() as int);
    }
    let r: Vec<Box<Exp<bool>>> = Vec::new();
    assert(boxes_view(r@) =~= Seq::<ExpV<bool>>::empty());
    r
}

fn arity_lookup(ds: &Vec<FunDecl<Exp<bool>, bool>>, x: &String) -> (r: usize)
    ensures
        r == (match arity_of(decls_x(ds@), ds@.len() as int, x@) { Some(n) => n, None => 0 }),
{
    let ghost v = decls_x(ds@);
    let mut k: usize = ds.len();
    while k > 0
        invariant
            k <= ds@.len(),
            v == decls_x(ds@),
            arity_of(v, ds@.len() as int, x@) == arity_of(v, k as int, x@),
        decreases k,
    {
        if ds[k - 1].name == *x && !has_closure(&ds[k - 1].name) {
            return ds[k - 1].parameters.len();
        }
        k = k - 1;
    }
    0
}

// ---------------------------------------------------------------------------
// Closure conversion in code.

#[verifier::loop_isolation(false)]
pub fn recur_helper(p: &Exp<bool>) -> (r: Exp<bool>)
    requires
        recur_ok(exp_view(*p)),
    ensures
        exp_view(r) == recur(exp_view(*p)),
    decreases p, 1nat,
{
    proof {
        lemma_exp_view_lists(*p);
    }
    match p {
        Exp::Bool(b, ann) => Exp::Bool(*b, *ann),
        Exp::Float(f, ann) => Exp::Float(*f, *ann),
        Exp::Num(n, ann) => Exp::Num(*n, *ann),
        Exp::Var(name, ann) => Exp::Var(name.clone(), *ann),
        Exp::Prim(pr, args, ann) => {
            assert(exp_view(*p)->Prim_1 == boxes_view(args@));
            let mut new_args: Vec<Box<Exp<bool>>> = Vec::new();
            let mut k: usize = 0;
            while k < args.len()
                invariant
                    k <= args@.len(),
                    forall|j: int| 0 <= j < args@.len() ==> recur_ok(#[trigger] boxes_view(args@)[j]),
                    new_args@.len() == k,
                    forall|j: int| 0 <= j < k ==> exp_view(*#[trigger] new_args@[j]) == recur(boxes_view(args@)[j]),
                decreases args@.len() - k,
            {
                assert(boxes_view(args@)[k as int] == exp_view(*args@[k as int]));
                new_args.push(Box::new(recur_helper(&args[k])));
                k = k + 1;
            }
            let r = Exp::Prim(*pr, new_args, *ann);
            proof {
                lemma_exp_view_lists(r);
                assert(boxes_view(new_args@) =~= recur(exp_view(*p))->Prim_1);
            }
            r
        },
        Exp::Let { bindings, body, ann } => {
            assert(exp_view(*p)->Let_bindings == binds_view(bindings@));
            let mut nb: Vec<(String, Exp<bool>)> = Vec::new();
            let mut k: usize = 0;
            while k < bindings.len()
                invariant
                    k <= bindings@.len(),
                    forall|j: int| 0 <= j < bindings@.len() ==> recur_ok(#[trigger] binds_view(bindings@)[j].1),
                    nb@.len() == k,
                    forall|j: int| 0 <= j < k ==> (#[trigger] nb@[j]).0@ == bindings@[j].0@
                        && exp_view(nb@[j].1) == recur(binds_view(bindings@)[j].1),
                decreases bindings@.len() - k,
            {
                assert(binds_view(bindings@)[k as int].1 == exp_view(bindings@[k as int].1));
                let x = recur_helper(&bindings[k].1);
                nb.push((bindings[k].0.clone(), x));
                k = k + 1;
            }
            let new_body = recur_helper(body);
            let r = Exp::Let { bindings: nb, body: Box::new(new_body), ann: *ann };
            proof {
                lemma_exp_view_lists(r);
                assert(binds_view(nb@) =~= recur(exp_view(*p))->Let_bindings);
            }
            r
        },
        Exp::If { cond, thn, els, ann } => Exp::If {
            cond: Box::new(recur_helper(cond)),
            thn: Box::new(recur_helper(thn)),
            els: Box::new(recur_helper(els)),
            ann: *ann,
        },
        Exp::FunDefs { .. } => recur_fun_defs(p),
        Exp::DirectCall(name, args, is_tail) => {
            assert(exp_view(*p)->DirectCall_1 == exps_view(args@));
            let new_args = recur_exps(args);
            let r = Exp::DirectCall(name.clone(), new_args, *is_tail);
            proof {
                lemma_exp_view_lists(r);
                assert(exps_view(new_args@) =~= recur(exp_view(*p))->DirectCall_1);
            }
            r
        },
        Exp::ClosureCall(fun, args, is_tail) => {
            assert(exp_view(*p)->ClosureCall_1 == exps_view(args@));
            let new_args = recur_exps(args);
            let new_fun = recur_helper(fun);
            let r = Exp::ClosureCall(Box::new(new_fun), new_args, *is_tail);
            proof {
                lemma_exp_view_lists(r);
                assert(exps_view(new_args@) =~= recur(exp_view(*p))->ClosureCall_1);
            }
            r
        },
        Exp::Lambda { parameters, body, ann } => Exp::Lambda {
            parameters: copy_names(parameters),
            body: Box::new(recur_helper(body)),
            ann: *ann,
        },
        _ => {
            proof {
                assert(false);
            }
            Exp::Num(0, false)
        },
    }
}

fn recur_exps(s: &Vec<Exp<bool>>) -> (r: Vec<Exp<bool>>)
    requires
        forall|j: int| 0 <= j < s@.len() ==> recur_ok(#[trigger] exps_view(s@)[j]),
    ensures
        r@.len() == s@.len(),
        forall|j: int| 0 <= j < s@.len() ==> exp_view(#[trigger] r@[j]) == recur(exps_view(s@)[j]),
    decreases s, 0nat,
{
    let mut out: Vec<Exp<bool>> = Vec::new();
    let mut k: usize = 0;
    while k < s.len()
        invariant
            k <= s@.len(),
            forall|j: int| 0 <= j < s@.len() ==> recur_ok(#[trigger] exps_view(s@)[j]),
            out@.len() == k,
            forall|j: int| 0 <= j < k ==> exp_view(#[trigger] out@[j]) == recur(exps_view(s@)[j]),
        decreases s@.len() - k,
    {
        assert(exps_view(s@)[k as int] == exp_view(s@[k as int]));
        out.push(recur_helper(&s[k]));
        k = k + 1;
    }
    out
}

/// The converted definition of `d` and its companion.
fn convert_decl(d: &FunDecl<Exp<bool>, bool>, funs: &Vec<(String, Vec<String>)>, a: bool)
    -> (r: (FunDecl<Exp<bool>, bool>, FunDecl<Exp<bool>, bool>))
    requires
        recur_ok(exp_view(d.body)),
        bvars_ok(exp_view(d.body), funs_view(funs@)),
    ensures
        ({
            let dx = DeclX { name: d.name@, parameters: texts(d.parameters@), body: exp_view(d.body), ann: d.ann };
            let np = captured_params(dx, funs_view(funs@));
            &&& decls_x(seq![r.0, r.1]) == seq![
                DeclX { name: dx.name, parameters: np, body: recur(dx.body), ann: a },
                DeclX {
                    name: closure_name(dx.name),
                    parameters: seq!["env"@] + dx.parameters,
                    body: ExpV::ExternalCall {
                        fun: TargetV::Label(dx.name),
                        args: closure_args(np, dx.parameters, a),
                        is_tail: false,
                        ann: a,
                    },
                    ann: a,
                },
            ]
        }),
    decreases d, 0nat,
{
    let new_body = recur_helper(&d.body);
    let fv = body_variables(&d.body, funs);
    let mut np = copy_names(&d.parameters);
    add_front_names(&mut np, &fv, fv.len());
    let args = closure_call_args(&np, &d.parameters, a);
    let mut cp: Vec<String> = vec![String::from_str("env")];
    assert(texts(cp@) =~= seq!["env"@]);
    let ps = copy_names(&d.parameters);
    crate::freevars::append_names(&mut cp, ps);
    assert(texts(cp@) =~= seq!["env"@] + texts(d.parameters@));
    let call = Exp::ExternalCall { fun: VarOrLabel::Label(d.name.clone()), args, is_tail: false, ann: a };
    proof {
        lemma_exp_view_lists(call);
    }
    let d1 = FunDecl { name: d.name.clone(), parameters: np, body: new_body, ann: a };
    let d2 = FunDecl { name: closure_label(&d.name), parameters: cp, body: call, ann: a };
    let ghost pair = seq![d1, d2];
    assert(decls_x(pair)[0] == decls_x(pair)[0]);
    (d1, d2)
}

fn convert_decls(decls: &Vec<FunDecl<Exp<bool>, bool>>, funs: &Vec<(String, Vec<String>)>, a: bool)
    -> (r: Vec<FunDecl<Exp<bool>, bool>>)
    requires
        funs_view(funs@) == decl_funs(decls_x(decls@)),
        forall|j: int| 0 <= j < decls@.len() && !mentions_closure(#[trigger] decls_x(decls@)[j].name)
            ==> recur_ok(decls_x(decls@)[j].body) && bvars_ok(decls_x(decls@)[j].body, decl_funs(decls_x(decls@))),
    ensures
        decls_x(r@) == recur_decls(decls_x(decls@), decls@.len() as int, decl_funs(decls_x(decls@)), a),
    decreases decls, 0nat,
{
    let ghost ds = decls_x(decls@);
    let mut nd: Vec<FunDecl<Exp<bool>, bool>> = Vec::new();
    let mut k: usize = 0;
    while k < decls.len()
        invariant
            k <= decls@.len(),
            ds == decls_x(decls@),
            funs_view(funs@) == decl_funs(ds),
            forall|j: int| 0 <= j < decls@.len() && !mentions_closure(#[trigger] ds[j].name)
                ==> recur_ok(ds[j].body) && bvars_ok(ds[j].body, decl_funs(ds)),
            decls_x(nd@) == recur_decls(ds, k as int, decl_funs(ds), a),
        decreases decls@.len() - k,
    {
        if !has_closure(&decls[k].name) {
            assert(ds[k as int].body == exp_view(decls@[k as int].body));
            assert(!mentions_closure(ds[k as int].name));
            let (d1, d2) = convert_decl(&decls[k], funs, a);
            let ghost before = nd@;
            nd.push(d1);
            nd.push(d2);
            assert(decls_x(nd@) =~= decls_x(before) + decls_x(seq![d1, d2]));
        }
        k = k + 1;
    }
    nd
}

/// Binds each converted function to its closure around `body`.
fn wrap_closure_lets(decls: &Vec<FunDecl<Exp<bool>, bool>>, nd: &Vec<FunDecl<Exp<bool>, bool>>, body: Exp<bool>, a: bool)
    -> (r: Exp<bool>)
    ensures
        exp_view(r) == wrap_closures(decls_x(decls@), decls@.len() as int, exp_view(body), decls_x(nd@), a),
{
    let ghost ds = decls_x(decls@);
    let ghost ndv = decls_x(nd@);
    let ghost inner = exp_view(body);
    let mut new_body = body;
    let mut k: usize = 0;
    while k < decls.len()
        invariant
            k <= decls@.len(),
            ds == decls_x(decls@),
            ndv == decls_x(nd@),
            exp_view(new_body) == wrap_closures(ds, k as int, inner, ndv, a),
        decreases decls@.len() - k,
    {
        if !has_closure(&decls[k].name) {
            let env = closure_env_vars(nd, &decls[k], a);
            let arity = arity_lookup(decls, &decls[k].name);
            let label = closure_label(&decls[k].name);
            let arr = Exp::Prim(Prim::MakeArray, env, a);
            let clo = Exp::MakeClosure { arity, label, env: Box::new(arr), ann: a };
            let binding = vec![(decls[k].name.clone(), clo)];
            proof {
                lemma_exp_view_lists(arr);
                assert(binds_view(binding@) =~= seq![(ds[k as int].name, exp_view(clo))]);
            }
            let nb = Exp::Let { bindings: binding, body: Box::new(new_body), ann: a };
            proof {
                lemma_exp_view_lists(nb);
            }
            new_body = nb;
        }
        k = k + 1;
    }
    new_body
}

fn recur_fun_defs(p: &Exp<bool>) -> (r: Exp<bool>)
    requires
        recur_ok(exp_view(*p)),
        p is FunDefs,
    ensures
        exp_view(r) == recur(exp_view(*p)),
    decreases p, 0nat,
{
    proof {
        lemma_exp_view_lists(*p);
    }
    match p {
        Exp::FunDefs { decls, body, ann } => {
            let ghost ds = decls_x(decls@);
            assert(exp_view(*p)->FunDefs_decls == ds);
            let funs = decl_pairs(decls);
            let nd = convert_decls(decls, &funs, *ann);
            let new_body = recur_helper(body);
            let wrapped = wrap_closure_lets(decls, &nd, new_body, *ann);
            let r = Exp::FunDefs { decls: nd, body: Box::new(wrapped), ann: *ann };
            proof {
                lemma_exp_view_lists(r);
            }
            r
        },
        _ => Exp::Num(0, false),
    }
}

} // verus!
