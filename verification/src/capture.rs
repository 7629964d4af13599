//! Variable capture: each local function takes the variables its body reads
//! as extra parameters, repeated until nothing changes.
use vstd::prelude::*;
use crate::syntax::{Exp, FunDecl, VarOrLabel};
use crate::seqview::target_view;
use crate::expv::{ExpV, DeclX, defs_free, exp_view, exps_view, boxes_view, binds_view, decls_x, lemma_exp_view_lists};
use crate::names::{texts, copy_names, contains_text};
use crate::freevars::{bvars, bvars_ok, body_variables};
use crate::recur::{closure_name, closure_label, decl_funs, decl_pairs};

verus! {

// ---------------------------------------------------------------------------
// One round.

/// The parameters of a definition after putting in front each read variable
/// that is not among them yet, and the last variable so put, noted under the
/// name of its companion.
pub open spec fn capture_fold(ps: Seq<Seq<char>>, fv: Seq<Seq<char>>, k: int, m: Map<Seq<char>, Seq<char>>, key: Seq<char>)
    -> (Seq<Seq<char>>, Map<Seq<char>, Seq<char>>)
    decreases k,
{
    if k <= 0 || k > fv.len() {
        (ps, m)
    } else {
        let (q, m1) = capture_fold(ps, fv, k - 1, m, key);
        if q.contains(fv[k - 1]) { (q, m1) } else { (seq![fv[k - 1]] + q, m1.insert(key, fv[k - 1])) }
    }
}

/// One round of capture over `e`. Within a group, a definition whose name
/// was noted for an earlier definition also takes the noted variable in
/// front, whether or not it has it already.
pub open spec fn vcap(e: ExpV<bool>) -> ExpV<bool>
    decreases e, 1nat, 0nat,
{
    match e {
        ExpV::Prim(p, args, a) => ExpV::Prim(p, Seq::new(args.len(), |j: int|
            if 0 <= j < args.len() { vcap(args[j]) } else { ExpV::Num(0, a) }), a),
        ExpV::Let { bindings, body, ann } => ExpV::Let {
            bindings: Seq::new(bindings.len(), |j: int|
                if 0 <= j < bindings.len() { (bindings[j].0, vcap(bindings[j].1)) } else { (Seq::empty(), ExpV::Num(0, ann)) }),
            body: Box::new(vcap(*body)),
            ann,
        },
        ExpV::If { cond, thn, els, ann } => ExpV::If {
            cond: Box::new(vcap(*cond)),
            thn: Box::new(vcap(*thn)),
            els: Box::new(vcap(*els)),
            ann,
        },
        ExpV::FunDefs { decls, body, ann } => ExpV::FunDefs {
            decls: vcap_decls(decls, decls.len() as int, decl_funs(decls), ann).0,
            body: Box::new(vcap(*body)),
            ann,
        },
        ExpV::DirectCall(name, args, a) => ExpV::DirectCall(name, Seq::new(args.len(), |j: int|
            if 0 <= j < args.len() { vcap(args[j]) } else { ExpV::Num(0, a) }), a),
        ExpV::ClosureCall(f, args, a) => ExpV::ClosureCall(f, Seq::new(args.len(), |j: int|
            if 0 <= j < args.len() { vcap(args[j]) } else { ExpV::Num(0, a) }), a),
        ExpV::Lambda { parameters, body, ann } => ExpV::Lambda { parameters, body: Box::new(vcap(*body)), ann },
        _ => e,
    }
}

pub open spec fn vcap_decls(ds: Seq<DeclX<bool>>, i: int, funs: crate::anf::FunsV, a: bool)
    -> (Seq<DeclX<bool>>, Map<Seq<char>, Seq<char>>)
    decreases ds, 0nat, i,
{
    if i <= 0 || i > ds.len() {
        (Seq::empty(), Map::empty())
    } else {
        let (p, m) = vcap_decls(ds, i - 1, funs, a);
        let d = ds[i - 1];
        let fv = bvars(d.body, funs);
        let (q, m1) = capture_fold(d.parameters, fv, fv.len() as int, m, closure_name(d.name));
        let q1 = if m1.contains_key(d.name) { seq![m1[d.name]] + q } else { q };
        (p.push(DeclX { name: d.name, parameters: q1, body: vcap(d.body), ann: a }), m1)
    }
}

/// A round of capture meets only forms it handles, and reads the variables
/// of every local function without fault.
pub open spec fn vcap_ok(e: ExpV<bool>) -> bool
    decreases e,
{
    match e {
        ExpV::Num(..) | ExpV::Float(..) | ExpV::Bool(..) | ExpV::Var(..) | ExpV::MakeClosure { .. }
        | ExpV::ExternalCall { .. } => true,
        ExpV::Prim(_, args, _) => forall|j: int| 0 <= j < args.len() ==> vcap_ok(args[j]),
        ExpV::Let { bindings, body, .. } =>
            (forall|j: int| 0 <= j < bindings.len() ==> vcap_ok(bindings[j].1)) && vcap_ok(*body),
        ExpV::If { cond, thn, els, .. } => vcap_ok(*cond) && vcap_ok(*thn) && vcap_ok(*els),
        ExpV::FunDefs { decls, body, .. } => vcap_ok(*body) && forall|j: int| 0 <= j < decls.len()
            ==> vcap_ok(decls[j].body) && bvars_ok(decls[j].body, decl_funs(decls)),
        ExpV::DirectCall(_, args, _) => forall|j: int| 0 <= j < args.len() ==> vcap_ok(args[j]),
        ExpV::ClosureCall(_, args, _) => forall|j: int| 0 <= j < args.len() ==> vcap_ok(args[j]),
        ExpV::Lambda { body, .. } => vcap_ok(*body),
        _ => false,
    }
}

/// `n` rounds of capture.
pub open spec fn vcap_iter(e: ExpV<bool>, n: nat) -> ExpV<bool>
    decreases n,
{
    if n == 0 { e } else { vcap(vcap_iter(e, (n - 1) as nat)) }
}

// ---------------------------------------------------------------------------
// Copies keep the value.

pub proof fn lemma_same_exp_view(e: Exp<bool>, r: Exp<bool>)
    requires
        crate::copy::same_exp(e, r),
    ensures
        exp_view(e) == exp_view(r),
    decreases e,
{
    lemma_exp_view_lists(e);
    lemma_exp_view_lists(r);
    match e {
        Exp::Prim(_, args, _) => {
            let ra = r->Prim_1;
            assert forall|j: int| 0 <= j < args@.len() implies exp_view(*args@[j]) == exp_view(*ra@[j]) by {
                lemma_same_exp_view(*args@[j], *ra@[j]);
            }
            assert(boxes_view(args@) =~= boxes_view(ra@));
        },
        Exp::Let { bindings, body, .. } => {
            let rb = r->Let_bindings;
            assert forall|j: int| 0 <= j < bindings@.len() implies exp_view(bindings@[j].1) == exp_view(rb@[j].1) by {
                lemma_same_exp_view(bindings@[j].1, rb@[j].1);
            }
            assert(binds_view(bindings@) =~= binds_view(rb@));
            lemma_same_exp_view(*body, *r->Let_body);
        },
        Exp::If { cond, thn, els, .. } => {
            lemma_same_exp_view(*cond, *r->If_cond);
            lemma_same_exp_view(*thn, *r->If_thn);
            lemma_same_exp_view(*els, *r->If_els);
        },
        Exp::Semicolon { e1, e2, .. } => {
            lemma_same_exp_view(*e1, *r->Semicolon_e1);
            lemma_same_exp_view(*e2, *r->Semicolon_e2);
        },
        Exp::FunDefs { decls, body, .. } => {
            let rd = r->FunDefs_decls;
            assert forall|j: int| 0 <= j < decls@.len() implies exp_view(decls@[j].body) == exp_view(rd@[j].body) by {
                lemma_same_exp_view(decls@[j].body, rd@[j].body);
            }
            assert(decls_x(decls@) =~= decls_x(rd@));
            lemma_same_exp_view(*body, *r->FunDefs_body);
        },
        Exp::Lambda { body, .. } => lemma_same_exp_view(*body, *r->Lambda_body),
        Exp::MakeClosure { env, .. } => lemma_same_exp_view(*env, *r->MakeClosure_env),
        Exp::Call(f, args, _) => {
            let ra = r->Call_1;
            assert forall|j: int| 0 <= j < args@.len() implies exp_view(args@[j]) == exp_view(ra@[j]) by {
                lemma_same_exp_view(args@[j], ra@[j]);
            }
            assert(exps_view(args@) =~= exps_view(ra@));
            lemma_same_exp_view(*f, *r->Call_0);
        },
        Exp::ClosureCall(f, args, _) => {
            let ra = r->ClosureCall_1;
            assert forall|j: int| 0 <= j < args@.len() implies exp_view(args@[j]) == exp_view(ra@[j]) by {
                lemma_same_exp_view(args@[j], ra@[j]);
            }
            assert(exps_view(args@) =~= exps_view(ra@));
            lemma_same_exp_view(*f, *r->ClosureCall_0);
        },
        Exp::DirectCall(_, args, _) => {
            let ra = r->DirectCall_1;
            assert forall|j: int| 0 <= j < args@.len() implies exp_view(args@[j]) == exp_view(ra@[j]) by {
                lemma_same_exp_view(args@[j], ra@[j]);
            }
            assert(exps_view(args@) =~= exps_view(ra@));
        },
        Exp::InternalTailCall(_, args, _) => {
            let ra = r->InternalTailCall_1;
            assert forall|j: int| 0 <= j < args@.len() implies exp_view(args@[j]) == exp_view(ra@[j]) by {
                lemma_same_exp_view(args@[j], ra@[j]);
            }
            assert(exps_view(args@) =~= exps_view(ra@));
        },
        Exp::ExternalCall { args, .. } => {
            let ra = r->ExternalCall_args;
            assert forall|j: int| 0 <= j < args@.len() implies exp_view(args@[j]) == exp_view(ra@[j]) by {
                lemma_same_exp_view(args@[j], ra@[j]);
            }
            assert(exps_view(args@) =~= exps_view(ra@));
        },
        _ => {},
    }
}

fn clone_exp(e: &Exp<bool>) -> (r: Exp<bool>)
    ensures
        exp_view(r) == exp_view(*e),
{
    let r = crate::copy::copy_exp(e);
    proof {
        lemma_same_exp_view(*e, r);
    }
    r
}

// ---------------------------------------------------------------------------
// Notes in code: an association list where a later entry hides earlier ones.

pub open spec fn notes(s: Seq<(String, String)>) -> Map<Seq<char>, Seq<char>>
    decreases s.len(),
{
    if s.len() == 0 { Map::empty() } else { notes(s.drop_last()).insert(s.last().0@, s.last().1@) }
}

fn note_get(m: &Vec<(String, String)>, x: &String) -> (r: Option<String>)
    ensures
        match r {
            Some(v) => notes(m@).contains_key(x@) && v@ == notes(m@)[x@],
            None => !notes(m@).contains_key(x@),
        },
{
    let mut k: usize = m.len();
    assert(m@.take(k as int) =~= m@);
    while k > 0
        invariant
            k <= m@.len(),
            notes(m@).contains_key(x@) == notes(m@.take(k as int)).contains_key(x@),
            notes(m@).contains_key(x@) ==> notes(m@)[x@] == notes(m@.take(k as int))[x@],
        decreases k,
    {
        assert(m@.take(k as int).drop_last() =~= m@.take(k - 1));
        if m[k - 1].0 == *x {
            return Some(m[k - 1].1.clone());
        }
        k = k - 1;
    }
    None
}

// ---------------------------------------------------------------------------
// A round of capture in code.

#[verifier::loop_isolation(false)]
pub fn variable_capture_helper(p: &Exp<bool>) -> (r: Exp<bool>)
    requires
        vcap_ok(exp_view(*p)),
    ensures
        exp_view(r) == vcap(exp_view(*p)),
    decreases p, 1nat,
{
    proof {
        lemma_exp_view_lists(*p);
    }
    match p {
        Exp::Num(n, ann) => Exp::Num(*n, *ann),
        Exp::Bool(b, ann) => Exp::Bool(*b, *ann),
        Exp::Float(f, ann) => Exp::Float(*f, *ann),
        Exp::Var(name, ann) => Exp::Var(name.clone(), *ann),
        Exp::Prim(pr, args, ann) => {
            assert(exp_view(*p)->Prim_1 == boxes_view(args@));
            let mut new_args: Vec<Box<Exp<bool>>> = Vec::new();
            let mut k: usize = 0;
            while k < args.len()
                invariant
                    k <= args@.len(),
                    forall|j: int| 0 <= j < args@.len() ==> vcap_ok(#[trigger] boxes_view(args@)[j]),
                    new_args@.len() == k,
                    forall|j: int| 0 <= j < k ==> exp_view(*#[trigger] new_args@[j]) == vcap(boxes_view(args@)[j]),
                decreases args@.len() - k,
            {
                assert(boxes_view(args@)[k as int] == exp_view(*args@[k as int]));
                new_args.push(Box::new(variable_capture_helper(&args[k])));
                k = k + 1;
            }
            let r = Exp::Prim(*pr, new_args, *ann);
            proof {
                lemma_exp_view_lists(r);
                assert(boxes_view(new_args@) =~= vcap(exp_view(*p))->Prim_1);
            }
            r
        },
        Exp::Let { bindings, body, ann } => {
            assert(exp_view(*p)->Let_bindings == binds_view(bindings@));
            let mut nb: Vec<(String, Exp<bool>)> = Vec::new();
            let mut k: usize = 0;
            while k < bindings.len()
                invariant
                    k <= bindings@.len(),
                    forall|j: int| 0 <= j < bindings@.len() ==> vcap_ok(#[trigger] binds_view(bindings@)[j].1),
                    nb@.len() == k,
                    forall|j: int| 0 <= j < k ==> (#[trigger] nb@[j]).0@ == bindings@[j].0@
                        && exp_view(nb@[j].1) == vcap(binds_view(bindings@)[j].1),
                decreases bindings@.len() - k,
            {
                assert(binds_view(bindings@)[k as int].1 == exp_view(bindings@[k as int].1));
                let x = variable_capture_helper(&bindings[k].1);
                nb.push((bindings[k].0.clone(), x));
                k = k + 1;
            }
            let new_body = variable_capture_helper(body);
            let r = Exp::Let { bindings: nb, body: Box::new(new_body), ann: *ann };
            proof {
                lemma_exp_view_lists(r);
                assert(binds_view(nb@) =~= vcap(exp_view(*p))->Let_bindings);
            }
            r
        },
        Exp::If { cond, thn, els, ann } => Exp::If {
            cond: Box::new(variable_capture_helper(cond)),
            thn: Box::new(variable_capture_helper(thn)),
            els: Box::new(variable_capture_helper(els)),
            ann: *ann,
        },
        Exp::FunDefs { .. } => capture_fun_defs(p),
        Exp::DirectCall(name, args, ann) => {
            assert(exp_view(*p)->DirectCall_1 == exps_view(args@));
            let new_args = capture_exps(args);
            let r = Exp::DirectCall(name.clone(), new_args, *ann);
            proof {
                lemma_exp_view_lists(r);
                assert(exps_view(new_args@) =~= vcap(exp_view(*p))->DirectCall_1);
            }
            r
        },
        Exp::ClosureCall(fun, args, ann) => {
            assert(exp_view(*p)->ClosureCall_1 == exps_view(args@));
            let new_args = capture_exps(args);
            let f = clone_exp(fun);
            let r = Exp::ClosureCall(Box::new(f), new_args, *ann);
            proof {
                lemma_exp_view_lists(r);
                assert(exps_view(new_args@) =~= vcap(exp_view(*p))->ClosureCall_1);
            }
            r
        },
        Exp::Lambda { parameters, body, ann } => Exp::Lambda {
            parameters: copy_names(parameters),
            body: Box::new(variable_capture_helper(body)),
            ann: *ann,
        },
        Exp::MakeClosure { .. } | Exp::ExternalCall { .. } => clone_exp(p),
        _ => {
            proof {
                assert(false);
            }
            Exp::Num(0, false)
        },
    }
}

fn capture_exps(s: &Vec<Exp<bool>>) -> (r: Vec<Exp<bool>>)
    requires
        forall|j: int| 0 <= j < s@.len() ==> vcap_ok(#[trigger] exps_view(s@)[j]),
    ensures
        r@.len() == s@.len(),
        forall|j: int| 0 <= j < s@.len() ==> exp_view(#[trigger] r@[j]) == vcap(exps_view(s@)[j]),
    decreases s, 0nat,
{
    let mut out: Vec<Exp<bool>> = Vec::new();
    let mut k: usize = 0;
    while k < s.len()
        invariant
            k <= s@.len(),
            forall|j: int| 0 <= j < s@.len() ==> vcap_ok(#[trigger] exps_view(s@)[j]),
            out@.len() == k,
            forall|j: int| 0 <= j < k ==> exp_view(#[trigger] out@[j]) == vcap(exps_view(s@)[j]),
        decreases s@.len() - k,
    {
        assert(exps_view(s@)[k as int] == exp_view(s@[k as int]));
        out.push(variable_capture_helper(&s[k]));
        k = k + 1;
    }
    out
}

/// The parameters of one definition after a round, with the notes.
fn capture_params(d: &FunDecl<Exp<bool>, bool>, funs: &Vec<(String, Vec<String>)>, map: &mut Vec<(String, String)>)
    -> (r: Vec<String>)
    requires
        bvars_ok(exp_view(d.body), crate::anf::funs_view(funs@)),
    ensures
        ({
            let fv = bvars(exp_view(d.body), crate::anf::funs_view(funs@));
            let (q, m1) = capture_fold(texts(d.parameters@), fv, fv.len() as int, notes(old(map)@), closure_name(d.name@));
            &&& notes(final(map)@) == m1
            &&& texts(r@) == if m1.contains_key(d.name@) { seq![m1[d.name@]] + q } else { q }
        }),
{
    let ghost m0 = notes(map@);
    let fv = body_variables(&d.body, funs);
    let ghost tf = texts(fv@);
    let ghost key = closure_name(d.name@);
    let mut np = copy_names(&d.parameters);
    let label = closure_label(&d.name);
    let mut k: usize = 0;
    while k < fv.len()
        invariant
            k <= fv@.len(),
            tf == texts(fv@),
            label@ == key,
            (texts(np@), notes(map@)) == capture_fold(texts(d.parameters@), tf, k as int, m0, key),
        decreases fv@.len() - k,
    {
        if !contains_text(&np, &fv[k]) {
            let ghost before = np@;
            np.insert(0, fv[k].clone());
            assert(texts(np@) =~= seq![tf[k as int]] + texts(before));
            let ghost mb = map@;
            map.push((label.clone(), fv[k].clone()));
            assert(map@.drop_last() =~= mb);
        }
        k = k + 1;
    }
    match note_get(map, &d.name) {
        Some(x) => {
            let ghost before = np@;
            np.insert(0, x);
            assert(texts(np@) =~= seq![x@] + texts(before));
        },
        None => {},
    }
    np
}

fn capture_decls(decls: &Vec<FunDecl<Exp<bool>, bool>>, a: bool) -> (r: Vec<FunDecl<Exp<bool>, bool>>)
    requires
        forall|j: int| 0 <= j < decls@.len() ==> vcap_ok(#[trigger] decls_x(decls@)[j].body)
            && bvars_ok(decls_x(decls@)[j].body, decl_funs(decls_x(decls@))),
    ensures
        decls_x(r@) == vcap_decls(decls_x(decls@), decls@.len() as int, decl_funs(decls_x(decls@)), a).0,
    decreases decls, 0nat,
{
    let ghost ds = decls_x(decls@);
    let funs = decl_pairs(decls);
    let mut map: Vec<(String, String)> = Vec::new();
    let mut out: Vec<FunDecl<Exp<bool>, bool>> = Vec::new();
    let mut k: usize = 0;
    assert(notes(map@) =~= Map::<Seq<char>, Seq<char>>::empty());
    while k < decls.len()
        invariant
            k <= decls@.len(),
            ds == decls_x(decls@),
            crate::anf::funs_view(funs@) == decl_funs(ds),
            forall|j: int| 0 <= j < decls@.len() ==> vcap_ok(#[trigger] ds[j].body) && bvars_ok(ds[j].body, decl_funs(ds)),
            out@.len() == k,
            decls_x(out@) == vcap_decls(ds, k as int, decl_funs(ds), a).0,
            notes(map@) == vcap_decls(ds, k as int, decl_funs(ds), a).1,
        decreases decls@.len() - k,
    {
        assert(ds[k as int].body == exp_view(decls@[k as int].body));
        assert(vcap_ok(ds[k as int].body));
        let b = variable_capture_helper(&decls[k].body);
        let ps = capture_params(&decls[k], &funs, &mut map);
        let d = FunDecl { name: decls[k].name.clone(), parameters: ps, body: b, ann: a };
        let ghost before = out@;
        out.push(d);
        assert(decls_x(out@) =~= decls_x(before).push(decls_x(out@)[k as int]));
        k = k + 1;
    }
    out
}

fn capture_fun_defs(p: &Exp<bool>) -> (r: Exp<bool>)
    requires
        vcap_ok(exp_view(*p)),
        p is FunDefs,
    ensures
        exp_view(r) == vcap(exp_view(*p)),
    decreases p, 0nat,
{
    proof {
        lemma_exp_view_lists(*p);
    }
    match p {
        Exp::FunDefs { decls, body, ann } => {
            assert(exp_view(*p)->FunDefs_decls == decls_x(decls@));
            let nd = capture_decls(decls, *ann);
            let nb = variable_capture_helper(body);
            let r = Exp::FunDefs { decls: nd, body: Box::new(nb), ann: *ann };
            proof {
                lemma_exp_view_lists(r);
            }
            r
        },
        _ => Exp::Num(0, false),
    }
}

// ---------------------------------------------------------------------------
// Comparing expressions.

fn names_equal(a: &Vec<String>, b: &Vec<String>) -> (r: bool)
    ensures
        r == (texts(a@) == texts(b@)),
{
    if a.len() != b.len() {
        assert(texts(a@).len() != texts(b@).len());
        return false;
    }
    let mut k: usize = 0;
    while k < a.len()
        invariant
            k <= a@.len() == b@.len(),
            forall|j: int| 0 <= j < k ==> texts(a@)[j] == texts(b@)[j],
        decreases a@.len() - k,
    {
        if a[k] != b[k] {
            assert(texts(a@)[k as int] != texts(b@)[k as int]);
            return false;
        }
        k = k + 1;
    }
    assert(texts(a@) =~= texts(b@));
    true
}

fn target_equal(a: &VarOrLabel, b: &VarOrLabel) -> (r: bool)
    ensures
        r == (target_view(*a) == target_view(*b)),
{
    match (a, b) {
        (VarOrLabel::Var(x), VarOrLabel::Var(y)) => *x == *y,
        (VarOrLabel::Label(x), VarOrLabel::Label(y)) => *x == *y,
        _ => false,
    }
}

/// Whether two expressions have the same value.
pub fn exp_equal(a: &Exp<bool>, b: &Exp<bool>) -> (r: bool)
    ensures
        r == (exp_view(*a) == exp_view(*b)),
    decreases a,
{
    proof {
        lemma_exp_view_lists(*a);
        lemma_exp_view_lists(*b);
    }
    match (a, b) {
        (Exp::Num(x, s), Exp::Num(y, t)) => *x == *y && *s == *t,
        (Exp::Float(x, s), Exp::Float(y, t)) => *x == *y && *s == *t,
        (Exp::Bool(x, s), Exp::Bool(y, t)) => *x == *y && *s == *t,
        (Exp::Var(x, s), Exp::Var(y, t)) => *x == *y && *s == *t,
        (Exp::Prim(p, xs, s), Exp::Prim(q, ys, t)) => *p == *q && *s == *t && boxes_equal(xs, ys),
        (Exp::Let { bindings: xb, body: x, ann: s }, Exp::Let { bindings: yb, body: y, ann: t }) =>
            *s == *t && binds_equal(xb, yb) && exp_equal(x, y),
        (Exp::If { cond: c1, thn: t1, els: e1, ann: s }, Exp::If { cond: c2, thn: t2, els: e2, ann: t }) =>
            *s == *t && exp_equal(c1, c2) && exp_equal(t1, t2) && exp_equal(e1, e2),
        (Exp::Semicolon { e1: x1, e2: x2, ann: s }, Exp::Semicolon { e1: y1, e2: y2, ann: t }) =>
            *s == *t && exp_equal(x1, y1) && exp_equal(x2, y2),
        (Exp::FunDefs { decls: xd, body: x, ann: s }, Exp::FunDefs { decls: yd, body: y, ann: t }) =>
            *s == *t && decls_equal(xd, yd) && exp_equal(x, y),
        (Exp::Lambda { parameters: xp, body: x, ann: s }, Exp::Lambda { parameters: yp, body: y, ann: t }) =>
            *s == *t && names_equal(xp, yp) && exp_equal(x, y),
        (Exp::MakeClosure { arity: n1, label: l1, env: x, ann: s }, Exp::MakeClosure { arity: n2, label: l2, env: y, ann: t }) =>
            *n1 == *n2 && *l1 == *l2 && *s == *t && exp_equal(x, y),
        (Exp::Call(f, xs, s), Exp::Call(g, ys, t)) => *s == *t && exp_equal(f, g) && exps_equal(xs, ys),
        (Exp::ClosureCall(f, xs, s), Exp::ClosureCall(g, ys, t)) => *s == *t && exp_equal(f, g) && exps_equal(xs, ys),
        (Exp::DirectCall(f, xs, s), Exp::DirectCall(g, ys, t)) => *s == *t && *f == *g && exps_equal(xs, ys),
        (Exp::InternalTailCall(f, xs, s), Exp::InternalTailCall(g, ys, t)) => *s == *t && *f == *g && exps_equal(xs, ys),
        (Exp::ExternalCall { fun: f, args: xs, is_tail: i1, ann: s }, Exp::ExternalCall { fun: g, args: ys, is_tail: i2, ann: t }) =>
            *s == *t && *i1 == *i2 && target_equal(f, g) && exps_equal(xs, ys),
        _ => false,
    }
}

fn boxes_equal(a: &Vec<Box<Exp<bool>>>, b: &Vec<Box<Exp<bool>>>) -> (r: bool)
    ensures
        r == (boxes_view(a@) == boxes_view(b@)),
    decreases a,
{
    if a.len() != b.len() {
        assert(boxes_view(a@).len() != boxes_view(b@).len());
        return false;
    }
    let mut k: usize = 0;
    while k < a.len()
        invariant
            k <= a@.len() == b@.len(),
            forall|j: int| 0 <= j < k ==> boxes_view(a@)[j] == boxes_view(b@)[j],
        decreases a@.len() - k,
    {
        if !exp_equal(&a[k], &b[k]) {
            assert(boxes_view(a@)[k as int] != boxes_view(b@)[k as int]);
            return false;
        }
        k = k + 1;
    }
    assert(boxes_view(a@) =~= boxes_view(b@));
    true
}

fn exps_equal(a: &Vec<Exp<bool>>, b: &Vec<Exp<bool>>) -> (r: bool)
    ensures
        r == (exps_view(a@) == exps_view(b@)),
    decreases a,
{
    if a.len() != b.len() {
        assert(exps_view(a@).len() != exps_view(b@).len());
        return false;
    }
    let mut k: usize = 0;
    while k < a.len()
        invariant
            k <= a@.len() == b@.len(),
            forall|j: int| 0 <= j < k ==> exps_view(a@)[j] == exps_view(b@)[j],
        decreases a@.len() - k,
    {
        if !exp_equal(&a[k], &b[k]) {
            assert(exps_view(a@)[k as int] != exps_view(b@)[k as int]);
            return false;
        }
        k = k + 1;
    }
    assert(exps_view(a@) =~= exps_view(b@));
    true
}

fn binds_equal(a: &Vec<(String, Exp<bool>)>, b: &Vec<(String, Exp<bool>)>) -> (r: bool)
    ensures
        r == (binds_view(a@) == binds_view(b@)),
    decreases a,
{
    if a.len() != b.len() {
        assert(binds_view(a@).len() != binds_view(b@).len());
        return false;
    }
    let mut k: usize = 0;
    while k < a.len()
        invariant
            k <= a@.len() == b@.len(),
            forall|j: int| 0 <= j < k ==> binds_view(a@)[j] == binds_view(b@)[j],
        decreases a@.len() - k,
    {
        if a[k].0 != b[k].0 || !exp_equal(&a[k].1, &b[k].1) {
            assert(binds_view(a@)[k as int] != binds_view(b@)[k as int]);
            return false;
        }
        k = k + 1;
    }
    assert(binds_view(a@) =~= binds_view(b@));
    true
}

fn decls_equal(a: &Vec<FunDecl<Exp<bool>, bool>>, b: &Vec<FunDecl<Exp<bool>, bool>>) -> (r: bool)
    ensures
        r == (decls_x(a@) == decls_x(b@)),
    decreases a,
{
    if a.len() != b.len() {
        assert(decls_x(a@).len() != decls_x(b@).len());
        return false;
    }
    let mut k: usize = 0;
    while k < a.len()
        invariant
            k <= a@.len() == b@.len(),
            forall|j: int| 0 <= j < k ==> decls_x(a@)[j] == decls_x(b@)[j],
        decreases a@.len() - k,
    {
        if a[k].name != b[k].name || a[k].ann != b[k].ann || !names_equal(&a[k].parameters, &b[k].parameters)
            || !exp_equal(&a[k].body, &b[k].body) {
            assert(decls_x(a@)[k as int] != decls_x(b@)[k as int]);
            return false;
        }
        k = k + 1;
    }
    assert(decls_x(a@) =~= decls_x(b@));
    true
}

// ---------------------------------------------------------------------------
// A round keeps what the next round needs.

/// `g` lists the same functions as `f`, each with at least as many
/// parameters.
pub open spec fn params_grow(f: crate::anf::FunsV, g: crate::anf::FunsV) -> bool {
    &&& f.len() == g.len()
    &&& forall|j: int| 0 <= j < f.len() ==> (#[trigger] g[j]).0 == f[j].0 && g[j].1.len() >= f[j].1.len()
}

proof fn lemma_fold_grows(ps: Seq<Seq<char>>, fv: Seq<Seq<char>>, k: int, m: Map<Seq<char>, Seq<char>>, key: Seq<char>)
    ensures
        capture_fold(ps, fv, k, m, key).0.len() >= ps.len(),
    decreases k,
{
    if 0 < k <= fv.len() {
        lemma_fold_grows(ps, fv, k - 1, m, key);
    }
}

proof fn lemma_vcap_decls(ds: Seq<DeclX<bool>>, i: int, funs: crate::anf::FunsV, a: bool)
    requires
        0 <= i <= ds.len(),
    ensures
        vcap_decls(ds, i, funs, a).0.len() == i,
        forall|j: int| 0 <= j < i ==> {
            let nd = #[trigger] vcap_decls(ds, i, funs, a).0[j];
            &&& nd.name == ds[j].name
            &&& nd.body == vcap(ds[j].body)
            &&& nd.parameters.len() >= ds[j].parameters.len()
        },
    decreases i,
{
    if i > 0 {
        lemma_vcap_decls(ds, i - 1, funs, a);
        let (p, m) = vcap_decls(ds, i - 1, funs, a);
        let d = ds[i - 1];
        let fv = bvars(d.body, funs);
        lemma_fold_grows(d.parameters, fv, fv.len() as int, m, closure_name(d.name));
        assert forall|j: int| 0 <= j < i - 1 implies #[trigger] vcap_decls(ds, i, funs, a).0[j] == p[j] by {}
    }
}

proof fn lemma_enough_grows(f: crate::anf::FunsV, g: crate::anf::FunsV, name: Seq<char>, n: int)
    requires
        crate::freevars::enough_params(f, name, n),
        params_grow(f, g),
    ensures
        crate::freevars::enough_params(g, name, n),
{
    assert forall|j: int| 0 <= j < g.len() && (#[trigger] g[j]).0 == name implies g[j].1.len() >= n by {
        assert(f[j].0 == name);
    }
}

proof fn lemma_bvars_ok_grows(e: ExpV<bool>, f: crate::anf::FunsV, g: crate::anf::FunsV)
    requires
        bvars_ok(e, f),
        params_grow(f, g),
    ensures
        bvars_ok(e, g),
    decreases e,
{
    match e {
        ExpV::Prim(_, args, _) => {
            assert forall|j: int| 0 <= j < args.len() implies bvars_ok(args[j], g) by {
                lemma_bvars_ok_grows(args[j], f, g);
            }
        },
        ExpV::Let { bindings, body, .. } => {
            assert forall|j: int| 0 <= j < bindings.len() implies bvars_ok(bindings[j].1, g) by {
                lemma_bvars_ok_grows(bindings[j].1, f, g);
            }
            lemma_bvars_ok_grows(*body, f, g);
        },
        ExpV::If { cond, thn, els, .. } => {
            lemma_bvars_ok_grows(*cond, f, g);
            lemma_bvars_ok_grows(*thn, f, g);
            lemma_bvars_ok_grows(*els, f, g);
        },
        ExpV::FunDefs { body, .. } => lemma_bvars_ok_grows(*body, f, g),
        ExpV::DirectCall(name, args, _) => {
            lemma_enough_grows(f, g, name, args.len() as int);
            assert forall|j: int| 0 <= j < args.len() implies bvars_ok(args[j], g) by {
                lemma_bvars_ok_grows(args[j], f, g);
            }
        },
        ExpV::ClosureCall(h, args, _) => {
            lemma_bvars_ok_grows(*h, f, g);
            assert forall|j: int| 0 <= j < args.len() implies bvars_ok(args[j], g) by {
                lemma_bvars_ok_grows(args[j], f, g);
            }
        },
        ExpV::Lambda { body, .. } => lemma_bvars_ok_grows(*body, f, g),
        ExpV::ExternalCall { fun, args, .. } => {
            lemma_enough_grows(f, g, crate::freevars::target_name(fun), args.len() as int);
            assert forall|j: int| 0 <= j < args.len() implies bvars_ok(args[j], g) by {
                lemma_bvars_ok_grows(args[j], f, g);
            }
        },
        ExpV::MakeClosure { env, .. } => lemma_bvars_ok_grows(*env, f, g),
        _ => {},
    }
}

proof fn lemma_bvars_ok_vcap(e: ExpV<bool>, f: crate::anf::FunsV, g: crate::anf::FunsV)
    requires
        bvars_ok(e, f),
        params_grow(f, g),
    ensures
        bvars_ok(vcap(e), g),
    decreases e,
{
    match e {
        ExpV::Prim(_, args, _) => {
            assert forall|j: int| 0 <= j < args.len() implies bvars_ok(#[trigger] vcap(e)->Prim_1[j], g) by {
                lemma_bvars_ok_vcap(args[j], f, g);
            }
        },
        ExpV::Let { bindings, body, .. } => {
            assert forall|j: int| 0 <= j < bindings.len() implies bvars_ok(#[trigger] vcap(e)->Let_bindings[j].1, g) by {
                lemma_bvars_ok_vcap(bindings[j].1, f, g);
            }
            lemma_bvars_ok_vcap(*body, f, g);
        },
        ExpV::If { cond, thn, els, .. } => {
            lemma_bvars_ok_vcap(*cond, f, g);
            lemma_bvars_ok_vcap(*thn, f, g);
            lemma_bvars_ok_vcap(*els, f, g);
        },
        ExpV::FunDefs { body, .. } => lemma_bvars_ok_vcap(*body, f, g),
        ExpV::DirectCall(name, args, _) => {
            lemma_enough_grows(f, g, name, args.len() as int);
            assert forall|j: int| 0 <= j < args.len() implies bvars_ok(#[trigger] vcap(e)->DirectCall_1[j], g) by {
                lemma_bvars_ok_vcap(args[j], f, g);
            }
        },
        ExpV::ClosureCall(h, args, _) => {
            lemma_bvars_ok_grows(*h, f, g);
            assert forall|j: int| 0 <= j < args.len() implies bvars_ok(#[trigger] vcap(e)->ClosureCall_1[j], g) by {
                lemma_bvars_ok_vcap(args[j], f, g);
            }
        },
        ExpV::Lambda { body, .. } => lemma_bvars_ok_vcap(*body, f, g),
        _ => lemma_bvars_ok_grows(e, f, g),
    }
}

/// A round of capture leaves a program without function definitions as it is.
pub proof fn lemma_vcap_defs_free(e: ExpV<bool>)
    requires
        defs_free(e),
    ensures
        vcap(e) == e,
    decreases e,
{
    match e {
        ExpV::Prim(p, args, a) => {
            assert forall|j: int| 0 <= j < args.len() implies vcap(args[j]) == args[j] by {
                lemma_vcap_defs_free(args[j]);
            }
            assert(vcap(e)->Prim_1 =~= args);
        },
        ExpV::Let { bindings, body, ann } => {
            assert forall|j: int| 0 <= j < bindings.len() implies vcap(bindings[j].1) == bindings[j].1 by {
                lemma_vcap_defs_free(bindings[j].1);
            }
            lemma_vcap_defs_free(*body);
            assert(vcap(e)->Let_bindings =~= bindings);
        },
        ExpV::If { cond, thn, els, .. } => {
            lemma_vcap_defs_free(*cond);
            lemma_vcap_defs_free(*thn);
            lemma_vcap_defs_free(*els);
        },
        ExpV::DirectCall(_, args, _) => {
            assert forall|j: int| 0 <= j < args.len() implies vcap(args[j]) == args[j] by {
                lemma_vcap_defs_free(args[j]);
            }
            assert(vcap(e)->DirectCall_1 =~= args);
        },
        ExpV::ClosureCall(f, args, _) => {
            assert forall|j: int| 0 <= j < args.len() implies vcap(args[j]) == args[j] by {
                lemma_vcap_defs_free(args[j]);
            }
            assert(vcap(e)->ClosureCall_1 =~= args);
        },
        ExpV::Lambda { body, .. } => {
            lemma_vcap_defs_free(*body);
        },
        _ => {},
    }
}

/// A round of capture leaves an expression that the next round handles.
proof fn lemma_vcap_ok_kept(e: ExpV<bool>)
    requires
        vcap_ok(e),
    ensures
        vcap_ok(vcap(e)),
    decreases e,
{
    match e {
        ExpV::Prim(_, args, _) => {
            assert forall|j: int| 0 <= j < args.len() implies vcap_ok(#[trigger] vcap(e)->Prim_1[j]) by {
                lemma_vcap_ok_kept(args[j]);
            }
        },
        ExpV::Let { bindings, body, .. } => {
            assert forall|j: int| 0 <= j < bindings.len() implies vcap_ok(#[trigger] vcap(e)->Let_bindings[j].1) by {
                lemma_vcap_ok_kept(bindings[j].1);
            }
            lemma_vcap_ok_kept(*body);
        },
        ExpV::If { cond, thn, els, .. } => {
            lemma_vcap_ok_kept(*cond);
            lemma_vcap_ok_kept(*thn);
            lemma_vcap_ok_kept(*els);
        },
        ExpV::FunDefs { decls, body, ann } => {
            lemma_vcap_ok_kept(*body);
            let f = crate::recur::decl_funs(decls);
            let nd = vcap_decls(decls, decls.len() as int, f, ann).0;
            lemma_vcap_decls(decls, decls.len() as int, f, ann);
            let g = crate::recur::decl_funs(nd);
            assert(params_grow(f, g)) by {
                assert forall|j: int| 0 <= j < f.len() implies (#[trigger] g[j]).0 == f[j].0 && g[j].1.len() >= f[j].1.len() by {
                    assert(nd[j] == vcap_decls(decls, decls.len() as int, f, ann).0[j]);
                }
            }
            assert forall|j: int| 0 <= j < nd.len() implies vcap_ok(#[trigger] nd[j].body) && bvars_ok(nd[j].body, g) by {
                assert(nd[j] == vcap_decls(decls, decls.len() as int, f, ann).0[j]);
                lemma_vcap_ok_kept(decls[j].body);
                lemma_bvars_ok_vcap(decls[j].body, f, g);
            }
            assert(vcap(e)->FunDefs_decls == nd);
        },
        ExpV::DirectCall(_, args, _) => {
            assert forall|j: int| 0 <= j < args.len() implies vcap_ok(#[trigger] vcap(e)->DirectCall_1[j]) by {
                lemma_vcap_ok_kept(args[j]);
            }
        },
        ExpV::ClosureCall(_, args, _) => {
            assert forall|j: int| 0 <= j < args.len() implies vcap_ok(#[trigger] vcap(e)->ClosureCall_1[j]) by {
                lemma_vcap_ok_kept(args[j]);
            }
        },
        ExpV::Lambda { body, .. } => lemma_vcap_ok_kept(*body),
        _ => {},
    }
}

/// The rounds of capture from `e` come to rest.
pub open spec fn vcap_settles(e: ExpV<bool>) -> bool {
    exists|n: nat| vcap(#[trigger] vcap_iter(e, n)) == vcap_iter(e, n)
}

/// Where the rounds of capture come to rest.
pub open spec fn vcap_fix(e: ExpV<bool>) -> ExpV<bool> {
    vcap_iter(e, choose|n: nat| vcap(#[trigger] vcap_iter(e, n)) == vcap_iter(e, n))
}

proof fn lemma_vcap_rest(e: ExpV<bool>, n: nat, k: nat)
    requires
        vcap(vcap_iter(e, n)) == vcap_iter(e, n),
        n <= k,
    ensures
        vcap_iter(e, k) == vcap_iter(e, n),
    decreases k,
{
    if k > n {
        lemma_vcap_rest(e, n, (k - 1) as nat);
    }
}

proof fn lemma_vcap_fix(e: ExpV<bool>, n: nat)
    requires
        vcap(vcap_iter(e, n)) == vcap_iter(e, n),
    ensures
        vcap_fix(e) == vcap_iter(e, n),
{
    let c = choose|c: nat| vcap(#[trigger] vcap_iter(e, c)) == vcap_iter(e, c);
    if c <= n {
        lemma_vcap_rest(e, c, n);
    } else {
        lemma_vcap_rest(e, n, c);
    }
}

/// Every round from an expression that capture handles is handled too.
proof fn lemma_vcap_iter_ok(e: ExpV<bool>, n: nat)
    requires
        vcap_ok(e),
    ensures
        vcap_ok(vcap_iter(e, n)),
    decreases n,
{
    if n > 0 {
        lemma_vcap_iter_ok(e, (n - 1) as nat);
        lemma_vcap_ok_kept(vcap_iter(e, (n - 1) as nat));
    }
}

/// Where the rounds of capture settle, another round gives the same
/// expression back, and capture still handles it.
pub proof fn lemma_vcap_fix_settled(e: ExpV<bool>)
    requires
        vcap_ok(e),
        vcap_settles(e),
    ensures
        vcap_ok(vcap_fix(e)),
        vcap(vcap_fix(e)) == vcap_fix(e),
{
    let n = choose|n: nat| vcap(#[trigger] vcap_iter(e, n)) == vcap_iter(e, n);
    lemma_vcap_fix(e, n);
    lemma_vcap_iter_ok(e, n);
}

/// Rounds of capture until one changes nothing. The rounds always come to
/// rest, so the result is always `Some`.
pub fn variable_capture(e: Exp<bool>) -> (r: Option<Exp<bool>>)
    requires
        vcap_ok(exp_view(e)),
    ensures
        r is Some,
        vcap_settles(exp_view(e)),
        r matches Some(x) ==> exp_view(x) == vcap_fix(exp_view(e)),
        r matches Some(x) ==> vcap_ok(exp_view(x)) && vcap(exp_view(x)) == exp_view(x),
{
    let ghost p0 = exp_view(e);
    let ghost u = crate::settle::names_of(p0);
    let mut p = e;
    let mut new_p = variable_capture_helper(&p);
    let ghost rounds: nat = 0;
    proof {
        assert(crate::settle::included(crate::settle::names_of(p0), u));
        crate::settle::lemma_vcap_step(exp_view(p), u);
    }
    while !exp_equal(&new_p, &p)
        invariant
            p0 == exp_view(e),
            exp_view(p) == vcap_iter(p0, rounds),
            exp_view(new_p) == vcap(exp_view(p)),
            vcap_ok(exp_view(p)),
            crate::settle::included(crate::settle::names_of(exp_view(p)), u),
            crate::settle::stepped(exp_view(p), exp_view(new_p), u),
        decreases crate::settle::mu(exp_view(p), u),
    {
        proof {
            lemma_vcap_ok_kept(exp_view(p));
            assert forall|x: Seq<char>| #[trigger] crate::settle::names_of(exp_view(new_p)).contains(x)
                implies u.contains(x) by {
                assert(crate::settle::names_of(exp_view(p)).contains(x));
            }
            crate::settle::lemma_vcap_step(exp_view(new_p), u);
            rounds = rounds + 1;
        }
        p = new_p;
        new_p = variable_capture_helper(&p);
    }
    proof {
        lemma_vcap_fix(p0, rounds);
        assert(vcap(vcap_iter(p0, rounds)) == vcap_iter(p0, rounds));
    }
    Some(p)
}

} // verus!
