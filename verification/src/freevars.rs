//! The variables that the body of a function reads: the names it uses and
//! does not bind itself, as a list with repeats, in the order met.
use vstd::prelude::*;
use crate::syntax::{Exp, VarOrLabel};
use crate::seqview::TargetV;
use crate::expv::{ExpV, DeclX, exp_view, exps_view, boxes_view, binds_view, decls_x, lemma_exp_view_lists};
use crate::names::{texts, contains_text};
use crate::anf::{FunsV, funs_view};

verus! {

// ---------------------------------------------------------------------------
// Lists of names.

/// `s` without its first `x`, if it holds one.
pub open spec fn remove_first(s: Seq<Seq<char>>, x: Seq<char>) -> Seq<Seq<char>>
    decreases s.len(),
{
    if s.len() == 0 {
        s
    } else if s[0] == x {
        s.drop_first()
    } else {
        seq![s[0]] + remove_first(s.drop_first(), x)
    }
}

/// `s` without the first occurrence of each of the first `i` names of `xs`,
/// taken in order.
pub open spec fn remove_each(s: Seq<Seq<char>>, xs: Seq<Seq<char>>, i: int) -> Seq<Seq<char>>
    decreases i,
{
    if i <= 0 || i > xs.len() { s } else { remove_first(remove_each(s, xs, i - 1), xs[i - 1]) }
}

/// `s` with each of the first `i` names of `ps` put in front, in order,
/// unless it is there already.
pub open spec fn add_front(s: Seq<Seq<char>>, ps: Seq<Seq<char>>, i: int) -> Seq<Seq<char>>
    decreases i,
{
    if i <= 0 || i > ps.len() {
        s
    } else {
        let t = add_front(s, ps, i - 1);
        if t.contains(ps[i - 1]) { t } else { seq![ps[i - 1]] + t }
    }
}

/// For a call of `name` with `n` arguments: for each known function of that
/// name, in order, its first parameters that the call leaves out are put in
/// front.
pub open spec fn add_missing(s: Seq<Seq<char>>, funs: FunsV, i: int, name: Seq<char>, n: int) -> Seq<Seq<char>>
    decreases i,
{
    if i <= 0 || i > funs.len() {
        s
    } else {
        let t = add_missing(s, funs, i - 1, name, n);
        if funs[i - 1].0 == name { add_front(t, funs[i - 1].1, funs[i - 1].1.len() - n) } else { t }
    }
}

/// Every known function named `name` has at least `n` parameters.
pub open spec fn enough_params(funs: FunsV, name: Seq<char>, n: int) -> bool {
    forall|j: int| 0 <= j < funs.len() && (#[trigger] funs[j]).0 == name ==> funs[j].1.len() >= n
}

pub open spec fn target_name(t: TargetV) -> Seq<char> {
    match t {
        TargetV::Var(x) => x,
        TargetV::Label(x) => x,
    }
}

// ---------------------------------------------------------------------------
// The variables read.

/// The variables that `e` reads. A `let` reads what its body and then its
/// bindings read, less one occurrence of each bound name; a group of
/// definitions reads what its body reads, less one occurrence of each
/// parameter; a lambda likewise. A call of a known function also reads the
/// parameters that it leaves out.
pub open spec fn bvars(e: ExpV<bool>, funs: FunsV) -> Seq<Seq<char>>
    decreases e, 1nat, 0nat,
{
    match e {
        ExpV::Var(x, _) => seq![x],
        ExpV::Prim(_, args, _) => bvars_list(args, args.len() as int, funs),
        ExpV::Let { bindings, body, .. } => remove_each(
            bvars(*body, funs) + bvars_binds(bindings, bindings.len() as int, funs),
            bindings.map_values(|b: (Seq<char>, ExpV<bool>)| b.0),
            bindings.len() as int,
        ),
        ExpV::If { cond, thn, els, .. } => bvars(*cond, funs) + bvars(*thn, funs) + bvars(*els, funs),
        ExpV::FunDefs { decls, body, .. } => remove_each(bvars(*body, funs), all_params(decls, decls.len() as int),
            all_params(decls, decls.len() as int).len() as int),
        ExpV::DirectCall(name, args, _) =>
            add_missing(bvars_list(args, args.len() as int, funs), funs, funs.len() as int, name, args.len() as int),
        ExpV::ClosureCall(f, args, _) => bvars_list(args, args.len() as int, funs) + bvars(*f, funs),
        ExpV::Lambda { parameters, body, .. } => remove_each(bvars(*body, funs), parameters, parameters.len() as int),
        ExpV::ExternalCall { fun, args, .. } => add_missing(bvars_list(args, args.len() as int, funs), funs,
            funs.len() as int, target_name(fun), args.len() as int),
        ExpV::MakeClosure { env, .. } => bvars(*env, funs),
        _ => Seq::empty(),
    }
}

pub open spec fn bvars_list(es: Seq<ExpV<bool>>, i: int, funs: FunsV) -> Seq<Seq<char>>
    decreases es, 0nat, i,
{
    if i <= 0 || i > es.len() { Seq::empty() } else { bvars_list(es, i - 1, funs) + bvars(es[i - 1], funs) }
}

pub open spec fn bvars_binds(bs: Seq<(Seq<char>, ExpV<bool>)>, i: int, funs: FunsV) -> Seq<Seq<char>>
    decreases bs, 0nat, i,
{
    if i <= 0 || i > bs.len() { Seq::empty() } else { bvars_binds(bs, i - 1, funs) + bvars(bs[i - 1].1, funs) }
}

/// The parameters of the first `i` definitions, one after another.
pub open spec fn all_params(ds: Seq<DeclX<bool>>, i: int) -> Seq<Seq<char>>
    decreases i,
{
    if i <= 0 || i > ds.len() { Seq::empty() } else { all_params(ds, i - 1) + ds[i - 1].parameters }
}

/// Reading the variables of `e` meets no form it cannot read (`;`, an
/// unresolved call, an internal tail call) and no call of a known function
/// with more arguments than that function has parameters.
pub open spec fn bvars_ok(e: ExpV<bool>, funs: FunsV) -> bool
    decreases e,
{
    match e {
        ExpV::Num(..) | ExpV::Float(..) | ExpV::Bool(..) | ExpV::Var(..) => true,
        ExpV::Prim(_, args, _) => forall|j: int| 0 <= j < args.len() ==> bvars_ok(args[j], funs),
        ExpV::Let { bindings, body, .. } =>
            (forall|j: int| 0 <= j < bindings.len() ==> bvars_ok(bindings[j].1, funs)) && bvars_ok(*body, funs),
        ExpV::If { cond, thn, els, .. } => bvars_ok(*cond, funs) && bvars_ok(*thn, funs) && bvars_ok(*els, funs),
        ExpV::FunDefs { body, .. } => bvars_ok(*body, funs),
        ExpV::DirectCall(name, args, _) => enough_params(funs, name, args.len() as int)
            && forall|j: int| 0 <= j < args.len() ==> bvars_ok(args[j], funs),
        ExpV::ClosureCall(f, args, _) => bvars_ok(*f, funs) && forall|j: int| 0 <= j < args.len() ==> bvars_ok(args[j], funs),
        ExpV::Lambda { body, .. } => bvars_ok(*body, funs),
        ExpV::ExternalCall { fun, args, .. } => enough_params(funs, target_name(fun), args.len() as int)
            && forall|j: int| 0 <= j < args.len() ==> bvars_ok(args[j], funs),
        ExpV::MakeClosure { env, .. } => bvars_ok(*env, funs),
        _ => false,
    }
}

// ---------------------------------------------------------------------------
// Lists of names in code.

proof fn lemma_remove_first_at(s: Seq<Seq<char>>, x: Seq<char>, i: int)
    requires
        0 <= i < s.len(),
        s[i] == x,
        forall|j: int| 0 <= j < i ==> s[j] != x,
    ensures
        remove_first(s, x) == s.remove(i),
    decreases s.len(),
{
    if i == 0 {
        assert(s.drop_first() =~= s.remove(0));
    } else {
        lemma_remove_first_at(s.drop_first(), x, i - 1);
        assert(seq![s[0]] + s.drop_first().remove(i - 1) =~= s.remove(i));
    }
}

proof fn lemma_remove_first_absent(s: Seq<Seq<char>>, x: Seq<char>)
    requires
        !s.contains(x),
    ensures
        remove_first(s, x) == s,
    decreases s.len(),
{
    if s.len() > 0 {
        assert(s[0] != x);
        assert(!s.drop_first().contains(x)) by {
            if s.drop_first().contains(x) {
                let j = choose|j: int| 0 <= j < s.drop_first().len() && s.drop_first()[j] == x;
                assert(s[j + 1] == x);
            }
        }
        lemma_remove_first_absent(s.drop_first(), x);
        assert(seq![s[0]] + s.drop_first() =~= s);
    }
}

fn remove_first_name(v: &mut Vec<String>, x: &String)
    ensures
        texts(final(v)@) == remove_first(texts(old(v)@), x@),
{
    let mut k: usize = 0;
    while k < v.len()
        invariant
            k <= v@.len(),
            v@ == old(v)@,
            forall|j: int| 0 <= j < k ==> texts(v@)[j] != x@,
        decreases v@.len() - k,
    {
        if v[k] == *x {
            proof {
                lemma_remove_first_at(texts(v@), x@, k as int);
            }
            let ghost before = v@;
            v.remove(k);
            assert(texts(v@) =~= texts(before).remove(k as int));
            return;
        }
        k = k + 1;
    }
    proof {
        assert(!texts(v@).contains(x@)) by {
            if texts(v@).contains(x@) {
                let j = choose|j: int| 0 <= j < texts(v@).len() && texts(v@)[j] == x@;
                assert(texts(v@)[j] != x@);
            }
        }
        lemma_remove_first_absent(texts(v@), x@);
    }
}

pub(crate) fn remove_names(v: &mut Vec<String>, xs: &Vec<String>)
    ensures
        texts(final(v)@) == remove_each(texts(old(v)@), texts(xs@), xs@.len() as int),
{
    let ghost s0 = texts(v@);
    let mut k: usize = 0;
    while k < xs.len()
        invariant
            k <= xs@.len(),
            texts(v@) == remove_each(s0, texts(xs@), k as int),
        decreases xs@.len() - k,
    {
        remove_first_name(v, &xs[k]);
        k = k + 1;
    }
}

pub(crate) fn append_names(v: &mut Vec<String>, w: Vec<String>)
    ensures
        texts(final(v)@) == texts(old(v)@) + texts(w@),
{
    let mut w = w;
    let ghost a = v@;
    let ghost b = w@;
    v.append(&mut w);
    assert(texts(v@) =~= texts(a) + texts(b));
}

/// Puts the first `n` parameters in front, each unless it is there already.
pub(crate) fn add_front_names(v: &mut Vec<String>, ps: &Vec<String>, n: usize)
    requires
        n <= ps@.len(),
    ensures
        texts(final(v)@) == add_front(texts(old(v)@), texts(ps@), n as int),
{
    let ghost s0 = texts(v@);
    let mut k: usize = 0;
    while k < n
        invariant
            k <= n <= ps@.len(),
            texts(v@) == add_front(s0, texts(ps@), k as int),
        decreases n - k,
    {
        if !contains_text(v, &ps[k]) {
            let ghost before = v@;
            v.insert(0, ps[k].clone());
            assert(texts(v@) =~= seq![ps@[k as int]@] + texts(before));
        }
        k = k + 1;
    }
}

fn add_missing_names(v: &mut Vec<String>, funs: &Vec<(String, Vec<String>)>, name: &String, n: usize)
    requires
        enough_params(funs_view(funs@), name@, n as int),
    ensures
        texts(final(v)@) == add_missing(texts(old(v)@), funs_view(funs@), funs@.len() as int, name@, n as int),
{
    let ghost s0 = texts(v@);
    let mut k: usize = 0;
    while k < funs.len()
        invariant
            k <= funs@.len(),
            enough_params(funs_view(funs@), name@, n as int),
            texts(v@) == add_missing(s0, funs_view(funs@), k as int, name@, n as int),
        decreases funs@.len() - k,
    {
        if funs[k].0 == *name {
            assert(funs_view(funs@)[k as int].0 == name@);
            add_front_names(v, &funs[k].1, funs[k].1.len() - n);
        }
        k = k + 1;
    }
}

// ---------------------------------------------------------------------------
// Reading the variables.

pub fn body_variables(e: &Exp<bool>, funs: &Vec<(String, Vec<String>)>) -> (r: Vec<String>)
    requires
        bvars_ok(exp_view(*e), funs_view(funs@)),
    ensures
        texts(r@) == bvars(exp_view(*e), funs_view(funs@)),
    decreases e, 1nat,
{
    proof {
        lemma_exp_view_lists(*e);
    }
    match e {
        Exp::Num(..) | Exp::Bool(..) | Exp::Float(..) => {
            let r: Vec<String> = Vec::new();
            assert(texts(r@) =~= Seq::<Seq<char>>::empty());
            r
        },
        Exp::Var(name, _) => {
            let r = vec![name.clone()];
            assert(texts(r@) =~= seq![name@]);
            r
        },
        Exp::Prim(_, args, _) => {
            assert(exp_view(*e)->Prim_1 == boxes_view(args@));
            bvars_boxes(args, funs)
        },
        Exp::Let { bindings, body, .. } => {
            assert(exp_view(*e)->Let_bindings == binds_view(bindings@));
            let mut r = body_variables(body, funs);
            let rest = bvars_bindings(bindings, funs);
            append_names(&mut r, rest);
            let mut names: Vec<String> = Vec::new();
            let mut k: usize = 0;
            while k < bindings.len()
                invariant
                    k <= bindings@.len(),
                    names@.len() == k,
                    forall|j: int| 0 <= j < k ==> (#[trigger] names@[j])@ == bindings@[j].0@,
                decreases bindings@.len() - k,
            {
                names.push(bindings[k].0.clone());
                k = k + 1;
            }
            assert(texts(names@) =~= binds_view(bindings@).map_values(|b: (Seq<char>, ExpV<bool>)| b.0));
            remove_names(&mut r, &names);
            r
        },
        Exp::If { cond, thn, els, .. } => {
            let mut r = body_variables(cond, funs);
            let t = body_variables(thn, funs);
            let f = body_variables(els, funs);
            append_names(&mut r, t);
            append_names(&mut r, f);
            r
        },
        Exp::FunDefs { decls, body, .. } => {
            let mut r = body_variables(body, funs);
            let ghost ds = decls_x(decls@);
            let mut params: Vec<String> = Vec::new();
            let mut k: usize = 0;
            while k < decls.len()
                invariant
                    k <= decls@.len(),
                    ds == decls_x(decls@),
                    texts(params@) == all_params(ds, k as int),
                decreases decls@.len() - k,
            {
                let ps = crate::names::copy_names(&decls[k].parameters);
                append_names(&mut params, ps);
                k = k + 1;
            }
            remove_names(&mut r, &params);
            r
        },
        Exp::DirectCall(name, args, _) => {
            assert(exp_view(*e)->DirectCall_1 == exps_view(args@));
            let mut r = bvars_exps(args, funs);
            add_missing_names(&mut r, funs, name, args.len());
            r
        },
        Exp::ClosureCall(fun, args, _) => {
            assert(exp_view(*e)->ClosureCall_1 == exps_view(args@));
            let mut r = bvars_exps(args, funs);
            let f = body_variables(fun, funs);
            append_names(&mut r, f);
            r
        },
        Exp::Lambda { parameters, body, .. } => {
            let mut r = body_variables(body, funs);
            remove_names(&mut r, parameters);
            r
        },
        Exp::ExternalCall { fun, args, .. } => {
            assert(exp_view(*e)->ExternalCall_args == exps_view(args@));
            let name = match fun {
                VarOrLabel::Label(x) => x.clone(),
                VarOrLabel::Var(x) => x.clone(),
            };
            let mut r = bvars_exps(args, funs);
            add_missing_names(&mut r, funs, &name, args.len());
            r
        },
        Exp::MakeClosure { env, .. } => body_variables(env, funs),
        _ => {
            proof {
                assert(false);
            }
            Vec::new()
        },
    }
}

fn bvars_boxes(s: &Vec<Box<Exp<bool>>>, funs: &Vec<(String, Vec<String>)>) -> (r: Vec<String>)
    requires
        forall|j: int| 0 <= j < s@.len() ==> bvars_ok(#[trigger] boxes_view(s@)[j], funs_view(funs@)),
    ensures
        texts(r@) == bvars_list(boxes_view(s@), s@.len() as int, funs_view(funs@)),
    decreases s, 0nat,
{
    let mut r: Vec<String> = Vec::new();
    let mut k: usize = 0;
    assert(texts(r@) =~= Seq::<Seq<char>>::empty());
    while k < s.len()
        invariant
            k <= s@.len(),
            forall|j: int| 0 <= j < s@.len() ==> bvars_ok(#[trigger] boxes_view(s@)[j], funs_view(funs@)),
            texts(r@) == bvars_list(boxes_view(s@), k as int, funs_view(funs@)),
        decreases s@.len() - k,
    {
        assert(boxes_view(s@)[k as int] == exp_view(*s@[k as int]));
        let x = body_variables(&s[k], funs);
        append_names(&mut r, x);
        k = k + 1;
    }
    r
}

fn bvars_exps(s: &Vec<Exp<bool>>, funs: &Vec<(String, Vec<String>)>) -> (r: Vec<String>)
    requires
        forall|j: int| 0 <= j < s@.len() ==> bvars_ok(#[trigger] exps_view(s@)[j], funs_view(funs@)),
    ensures
        texts(r@) == bvars_list(exps_view(s@), s@.len() as int, funs_view(funs@)),
    decreases s, 0nat,
{
    let mut r: Vec<String> = Vec::new();
    let mut k: usize = 0;
    assert(texts(r@) =~= Seq::<Seq<char>>::empty());
    while k < s.len()
        invariant
            k <= s@.len(),
            forall|j: int| 0 <= j < s@.len() ==> bvars_ok(#[trigger] exps_view(s@)[j], funs_view(funs@)),
            texts(r@) == bvars_list(exps_view(s@), k as int, funs_view(funs@)),
        decreases s@.len() - k,
    {
        assert(exps_view(s@)[k as int] == exp_view(s@[k as int]));
        let x = body_variables(&s[k], funs);
        append_names(&mut r, x);
        k = k + 1;
    }
    r
}

fn bvars_bindings(s: &Vec<(String, Exp<bool>)>, funs: &Vec<(String, Vec<String>)>) -> (r: Vec<String>)
    requires
        forall|j: int| 0 <= j < s@.len() ==> bvars_ok(#[trigger] binds_view(s@)[j].1, funs_view(funs@)),
    ensures
        texts(r@) == bvars_binds(binds_view(s@), s@.len() as int, funs_view(funs@)),
    decreases s, 0nat,
{
    let mut r: Vec<String> = Vec::new();
    let mut k: usize = 0;
    assert(texts(r@) =~= Seq::<Seq<char>>::empty());
    while k < s.len()
        invariant
            k <= s@.len(),
            forall|j: int| 0 <= j < s@.len() ==> bvars_ok(#[trigger] binds_view(s@)[j].1, funs_view(funs@)),
            texts(r@) == bvars_binds(binds_view(s@), k as int, funs_view(funs@)),
        decreases s@.len() - k,
    {
        assert(binds_view(s@)[k as int].1 == exp_view(s@[k as int].1));
        let x = body_variables(&s[k].1, funs);
        append_names(&mut r, x);
        k = k + 1;
    }
    r
}

} // verus!
