//! Lambda lifting: lambdas become top-level functions that take their
//! captured variables from an environment array; lifted local functions
//! become top-level functions; calls become tail calls of local functions,
//! calls of top-level functions, or calls through a closure's code pointer.
use vstd::prelude::*;
use crate::syntax::{Exp, FunDecl, Prim, VarOrLabel};
use crate::seqview::{TargetV, target_view};
use crate::expv::{ExpV, DeclX, exp_view, exps_view, boxes_view, binds_view, decls_x, lemma_exp_view_lists};
use crate::names::{texts, copy_names, contains_text};
use crate::anf::{FunsV, funs_view};
use crate::text::{dec_nat, push_dec_u64};
use crate::freevars::{bvars, bvars_ok, remove_each};
use crate::lift::{name_set, set_insert};

verus! {

// ---------------------------------------------------------------------------
// The model.

/// What lifting carries through the walk: the number of lambdas met, the
/// names in scope (they are never dropped, but for the parameters of local
/// functions), and the local functions met with their parameters.
pub struct LiftState {
    pub count: int,
    pub env: Set<Seq<char>>,
    pub funs: FunsV,
}

/// The functions lifted out of an expression, the expression that stays, and
/// the state afterwards.
pub struct Lifted {
    pub lifted: Seq<DeclX<()>>,
    pub exp: ExpV<()>,
    pub st: LiftState,
}

pub open spec fn lambda_name(n: int) -> Seq<char> {
    "lambda"@ + dec_nat(n as nat)
}

/// The variables of `vars` in scope that are not parameters, in order.
pub open spec fn lambda_env(vars: Seq<Seq<char>>, env: Set<Seq<char>>, ps: Seq<Seq<char>>, k: int) -> Seq<Seq<char>>
    decreases k,
{
    if k <= 0 || k > vars.len() {
        Seq::empty()
    } else {
        let p = lambda_env(vars, env, ps, k - 1);
        if env.contains(vars[k - 1]) && !ps.contains(vars[k - 1]) { p.push(vars[k - 1]) } else { p }
    }
}

/// `body` under bindings of the first `k` captured variables to the slots
/// of the environment, the first innermost.
pub open spec fn env_lets(vs: Seq<Seq<char>>, k: int, body: ExpV<()>) -> ExpV<()>
    decreases k,
{
    if k <= 0 || k > vs.len() {
        body
    } else {
        ExpV::Let {
            bindings: seq![(vs[k - 1], ExpV::Prim(Prim::ArrayGet, seq![ExpV::Var("env"@, ()), ExpV::Num((k - 1) as i64, ())], ()))],
            body: Box::new(env_lets(vs, k - 1, body)),
            ann: (),
        }
    }
}

/// The call through a closure: check its arity and untag it, take its code
/// pointer and its environment, and call the code with the environment first.
pub open spec fn closure_call(f: ExpV<()>, n: usize, args: Seq<ExpV<()>>, is_tail: bool) -> ExpV<()> {
    ExpV::Let {
        bindings: seq![
            ("untagged"@, ExpV::Prim(Prim::CheckArityAndUntag(n), seq![f], ())),
            ("code_ptr"@, ExpV::Prim(Prim::GetCode, seq![ExpV::Var("untagged"@, ()), ExpV::Num(0, ())], ())),
            ("env"@, ExpV::Prim(Prim::GetEnv, seq![ExpV::Var("untagged"@, ()), ExpV::Num(1, ())], ())),
        ],
        body: Box::new(ExpV::ExternalCall {
            fun: TargetV::Var("code_ptr"@),
            args: seq![ExpV::Var("env"@, ())] + args,
            is_tail,
            ann: (),
        }),
        ann: (),
    }
}

/// Lifting `e` with the names `sl` to lift, from state `st`.
pub open spec fn ll(e: ExpV<bool>, sl: Set<Seq<char>>, st: LiftState) -> Lifted
    decreases e, 1nat, 0nat,
{
    match e {
        ExpV::Num(n, _) => Lifted { lifted: Seq::empty(), exp: ExpV::Num(n, ()), st },
        ExpV::Float(x, _) => Lifted { lifted: Seq::empty(), exp: ExpV::Float(x, ()), st },
        ExpV::Bool(b, _) => Lifted { lifted: Seq::empty(), exp: ExpV::Bool(b, ()), st },
        ExpV::Var(x, _) => Lifted { lifted: Seq::empty(), exp: ExpV::Var(x, ()), st },
        ExpV::Prim(p, args, _) => {
            let (l, xs, st1) = ll_list(args, args.len() as int, sl, st);
            Lifted { lifted: l, exp: ExpV::Prim(p, xs, ()), st: st1 }
        },
        ExpV::Let { bindings, body, .. } => {
            let (l, bs, st1) = ll_binds(bindings, bindings.len() as int, sl, st);
            let r = ll(*body, sl, st1);
            Lifted { lifted: l + r.lifted, exp: ExpV::Let { bindings: bs, body: Box::new(r.exp), ann: () }, st: r.st }
        },
        ExpV::If { cond, thn, els, .. } => {
            let c = ll(*cond, sl, st);
            let t = ll(*thn, sl, c.st);
            let f = ll(*els, sl, t.st);
            Lifted {
                lifted: c.lifted + t.lifted + f.lifted,
                exp: ExpV::If { cond: Box::new(c.exp), thn: Box::new(t.exp), els: Box::new(f.exp), ann: () },
                st: f.st,
            }
        },
        ExpV::FunDefs { decls, body, .. } => {
            let st0 = LiftState { funs: st.funs + crate::recur::decl_funs(decls), ..st };
            let (l, kept, st1) = ll_decls(decls, decls.len() as int, sl, st0);
            let r = ll(*body, sl, st1);
            Lifted { lifted: l + r.lifted, exp: ExpV::FunDefs { decls: kept, body: Box::new(r.exp), ann: () }, st: r.st }
        },
        ExpV::DirectCall(name, args, is_tail) => {
            let (l, xs, st1) = ll_list(args, args.len() as int, sl, st);
            let call = if sl.contains(name) {
                ExpV::ExternalCall { fun: TargetV::Label(name), args: xs, is_tail, ann: () }
            } else {
                ExpV::InternalTailCall(name, xs, ())
            };
            Lifted { lifted: l, exp: call, st: st1 }
        },
        ExpV::ClosureCall(f, args, is_tail) => {
            let rf = ll(*f, sl, st);
            let (l, xs, st1) = ll_list(args, args.len() as int, sl, rf.st);
            Lifted { lifted: rf.lifted + l, exp: closure_call(rf.exp, args.len() as usize, xs, is_tail), st: st1 }
        },
        ExpV::Lambda { parameters, body, .. } => {
            let tag = st.count;
            let st0 = LiftState { count: st.count + 1, env: st.env + parameters.to_set(), funs: st.funs };
            let r = ll(*body, sl, st0);
            let vars = bvars(*body, r.st.funs);
            let le = lambda_env(vars, r.st.env, parameters, vars.len() as int);
            let np = seq!["env"@] + remove_each(parameters, le, le.len() as int);
            let decl = DeclX { name: lambda_name(tag), parameters: np, body: env_lets(le, le.len() as int, r.exp), ann: () };
            let arr = ExpV::Prim(Prim::MakeArray, Seq::new(le.len(), |i: int| ExpV::Var(le[i], ())), ());
            Lifted {
                lifted: r.lifted.push(decl),
                exp: ExpV::MakeClosure { arity: (np.len() - 1) as usize, label: lambda_name(tag), env: Box::new(arr), ann: () },
                st: r.st,
            }
        },
        ExpV::ExternalCall { fun, args, is_tail, .. } => {
            let (l, xs, st1) = ll_list(args, args.len() as int, sl, st);
            Lifted { lifted: l, exp: ExpV::ExternalCall { fun, args: xs, is_tail, ann: () }, st: st1 }
        },
        ExpV::MakeClosure { arity, label, env, .. } => {
            let r = ll(*env, sl, st);
            Lifted { lifted: r.lifted, exp: ExpV::MakeClosure { arity, label, env: Box::new(r.exp), ann: () }, st: r.st }
        },
        _ => Lifted { lifted: Seq::empty(), exp: ExpV::Num(0, ()), st },
    }
}

pub open spec fn ll_list(es: Seq<ExpV<bool>>, i: int, sl: Set<Seq<char>>, st: LiftState)
    -> (Seq<DeclX<()>>, Seq<ExpV<()>>, LiftState)
    decreases es, 0nat, i,
{
    if i <= 0 || i > es.len() {
        (Seq::empty(), Seq::empty(), st)
    } else {
        let (l, xs, st1) = ll_list(es, i - 1, sl, st);
        let r = ll(es[i - 1], sl, st1);
        (l + r.lifted, xs.push(r.exp), r.st)
    }
}

/// Each binding puts its name in scope, then is lifted.
pub open spec fn ll_binds(bs: Seq<(Seq<char>, ExpV<bool>)>, i: int, sl: Set<Seq<char>>, st: LiftState)
    -> (Seq<DeclX<()>>, Seq<(Seq<char>, ExpV<()>)>, LiftState)
    decreases bs, 0nat, i,
{
    if i <= 0 || i > bs.len() {
        (Seq::empty(), Seq::empty(), st)
    } else {
        let (l, xs, st1) = ll_binds(bs, i - 1, sl, st);
        let r = ll(bs[i - 1].1, sl, LiftState { env: st1.env.insert(bs[i - 1].0), ..st1 });
        (l + r.lifted, xs.push((bs[i - 1].0, r.exp)), r.st)
    }
}

/// Each definition puts its name in scope; its body is lifted with its
/// parameters in scope too, and what the body puts in scope is dropped. A
/// definition whose name is to be lifted goes after what its body lifted;
/// the others stay.
pub open spec fn ll_decls(ds: Seq<DeclX<bool>>, i: int, sl: Set<Seq<char>>, st: LiftState)
    -> (Seq<DeclX<()>>, Seq<DeclX<()>>, LiftState)
    decreases ds, 0nat, i,
{
    if i <= 0 || i > ds.len() {
        (Seq::empty(), Seq::empty(), st)
    } else {
        let (l, kept, st1) = ll_decls(ds, i - 1, sl, st);
        let d = ds[i - 1];
        let env1 = st1.env.insert(d.name);
        let r = ll(d.body, sl, LiftState { env: env1 + d.parameters.to_set(), ..st1 });
        let nd = DeclX { name: d.name, parameters: d.parameters, body: r.exp, ann: () };
        let st2 = LiftState { count: r.st.count, env: env1, funs: r.st.funs };
        if sl.contains(d.name) {
            (l + r.lifted.push(nd), kept, st2)
        } else {
            (l + r.lifted, kept.push(nd), st2)
        }
    }
}

/// Lifting `e` from `st` meets only forms it handles, reads the variables of
/// each lambda's body without fault, and numbers lambdas without overflow.
pub open spec fn ll_ok(e: ExpV<bool>, sl: Set<Seq<char>>, st: LiftState) -> bool
    decreases e, 1nat, 0nat,
{
    match e {
        ExpV::Num(..) | ExpV::Float(..) | ExpV::Bool(..) | ExpV::Var(..) => true,
        ExpV::Prim(_, args, _) => ll_list_ok(args, args.len() as int, sl, st),
        ExpV::Let { bindings, body, .. } => ll_binds_ok(bindings, bindings.len() as int, sl, st)
            && ll_ok(*body, sl, ll_binds(bindings, bindings.len() as int, sl, st).2),
        ExpV::If { cond, thn, els, .. } => {
            let c = ll(*cond, sl, st);
            let t = ll(*thn, sl, c.st);
            ll_ok(*cond, sl, st) && ll_ok(*thn, sl, c.st) && ll_ok(*els, sl, t.st)
        },
        ExpV::FunDefs { decls, body, .. } => {
            let st0 = LiftState { funs: st.funs + crate::recur::decl_funs(decls), ..st };
            ll_decls_ok(decls, decls.len() as int, sl, st0) && ll_ok(*body, sl, ll_decls(decls, decls.len() as int, sl, st0).2)
        },
        ExpV::DirectCall(_, args, _) => ll_list_ok(args, args.len() as int, sl, st),
        ExpV::ClosureCall(f, args, _) => ll_ok(*f, sl, st) && ll_list_ok(args, args.len() as int, sl, ll(*f, sl, st).st),
        ExpV::Lambda { parameters, body, .. } => {
            let st0 = LiftState { count: st.count + 1, env: st.env + parameters.to_set(), funs: st.funs };
            &&& 0 <= st.count < i32::MAX
            &&& ll_ok(*body, sl, st0)
            &&& bvars_ok(*body, ll(*body, sl, st0).st.funs)
        },
        ExpV::ExternalCall { args, .. } => ll_list_ok(args, args.len() as int, sl, st),
        ExpV::MakeClosure { env, .. } => ll_ok(*env, sl, st),
        _ => false,
    }
}

pub open spec fn ll_list_ok(es: Seq<ExpV<bool>>, i: int, sl: Set<Seq<char>>, st: LiftState) -> bool
    decreases es, 0nat, i,
{
    if i <= 0 || i > es.len() {
        true
    } else {
        ll_list_ok(es, i - 1, sl, st) && ll_ok(es[i - 1], sl, ll_list(es, i - 1, sl, st).2)
    }
}

pub open spec fn ll_binds_ok(bs: Seq<(Seq<char>, ExpV<bool>)>, i: int, sl: Set<Seq<char>>, st: LiftState) -> bool
    decreases bs, 0nat, i,
{
    if i <= 0 || i > bs.len() {
        true
    } else {
        let st1 = ll_binds(bs, i - 1, sl, st).2;
        ll_binds_ok(bs, i - 1, sl, st) && ll_ok(bs[i - 1].1, sl, LiftState { env: st1.env.insert(bs[i - 1].0), ..st1 })
    }
}

pub open spec fn ll_decls_ok(ds: Seq<DeclX<bool>>, i: int, sl: Set<Seq<char>>, st: LiftState) -> bool
    decreases ds, 0nat, i,
{
    if i <= 0 || i > ds.len() {
        true
    } else {
        let st1 = ll_decls(ds, i - 1, sl, st).2;
        let env1 = st1.env.insert(ds[i - 1].name);
        ll_decls_ok(ds, i - 1, sl, st) && ll_ok(ds[i - 1].body, sl, LiftState { env: env1 + ds[i - 1].parameters.to_set(), ..st1 })
    }
}

/// The state that the code holds.
pub open spec fn state_of(count: i32, env: Seq<String>, funs: Seq<(String, Vec<String>)>) -> LiftState {
    LiftState { count: count as int, env: name_set(env), funs: funs_view(funs) }
}

// ---------------------------------------------------------------------------
// Facts about the model.

proof fn lemma_list_ok_prefix(es: Seq<ExpV<bool>>, i: int, k: int, sl: Set<Seq<char>>, st: LiftState)
    requires
        ll_list_ok(es, i, sl, st),
        0 <= k <= i <= es.len(),
    ensures
        ll_list_ok(es, k, sl, st),
    decreases i,
{
    if k < i {
        lemma_list_ok_prefix(es, i - 1, k, sl, st);
    }
}

proof fn lemma_binds_ok_prefix(bs: Seq<(Seq<char>, ExpV<bool>)>, i: int, k: int, sl: Set<Seq<char>>, st: LiftState)
    requires
        ll_binds_ok(bs, i, sl, st),
        0 <= k <= i <= bs.len(),
    ensures
        ll_binds_ok(bs, k, sl, st),
    decreases i,
{
    if k < i {
        lemma_binds_ok_prefix(bs, i - 1, k, sl, st);
    }
}

proof fn lemma_decls_ok_prefix(ds: Seq<DeclX<bool>>, i: int, k: int, sl: Set<Seq<char>>, st: LiftState)
    requires
        ll_decls_ok(ds, i, sl, st),
        0 <= k <= i <= ds.len(),
    ensures
        ll_decls_ok(ds, k, sl, st),
    decreases i,
{
    if k < i {
        lemma_decls_ok_prefix(ds, i - 1, k, sl, st);
    }
}

// ---------------------------------------------------------------------------
// Pieces in code.

fn insert_names(env: &mut Vec<String>, xs: &Vec<String>)
    ensures
        name_set(final(env)@) == name_set(old(env)@) + texts(xs@).to_set(),
{
    let ghost e0 = name_set(env@);
    let mut k: usize = 0;
    while k < xs.len()
        invariant
            k <= xs@.len(),
            name_set(env@) == e0 + texts(xs@).take(k as int).to_set(),
        decreases xs@.len() - k,
    {
        set_insert(env, &xs[k]);
        proof {
            let t = texts(xs@).take(k as int);
            let t1 = texts(xs@).take(k + 1);
            let x = xs@[k as int]@;
            assert(t1 =~= t.push(x));
            assert forall|y: Seq<char>| #[trigger] t1.to_set().contains(y) == t.to_set().insert(x).contains(y) by {
                if t.contains(y) {
                    let i = choose|i: int| 0 <= i < t.len() && t[i] == y;
                    assert(t1[i] == y);
                }
                if y == x {
                    assert(t1[t.len() as int] == y);
                }
                if t1.contains(y) {
                    let i = choose|i: int| 0 <= i < t1.len() && t1[i] == y;
                    if i < t.len() {
                        assert(t[i] == y);
                    }
                }
            }
            assert(t1.to_set() =~= t.to_set().insert(x));
        }
        k = k + 1;
    }
    assert(texts(xs@).take(xs@.len() as int) =~= texts(xs@));
    assert(name_set(env@) =~= e0 + texts(xs@).to_set());
}

fn lambda_label(tag: i32) -> (r: String)
    requires
        tag >= 0,
    ensures
        r@ == lambda_name(tag as int),
{
    let mut r = String::from_str("lambda");
    push_dec_u64(&mut r, tag as u64);
    r
}

fn append_decls(a: &mut Vec<FunDecl<Exp<()>, ()>>, b: Vec<FunDecl<Exp<()>, ()>>)
    ensures
        decls_x(final(a)@) == decls_x(old(a)@) + decls_x(b@),
{
    let mut b = b;
    let ghost a0 = a@;
    let ghost b0 = b@;
    a.append(&mut b);
    assert(decls_x(a@) =~= decls_x(a0) + decls_x(b0));
}

fn push_decl(a: &mut Vec<FunDecl<Exp<()>, ()>>, d: FunDecl<Exp<()>, ()>)
    ensures
        decls_x(final(a)@) == decls_x(old(a)@).push(decls_x(seq![d])[0]),
{
    let ghost a0 = a@;
    a.push(d);
    assert(decls_x(a@) =~= decls_x(a0).push(decls_x(seq![d])[0]));
}

/// The variable `x`.
fn var(x: &str) -> (r: Exp<()>)
    ensures
        exp_view(r) == ExpV::<()>::Var(x@, ()),
{
    Exp::Var(String::from_str(x), ())
}

/// The primitive `p` on two arguments.
fn prim2(p: Prim, a: Exp<()>, b: Exp<()>) -> (r: Exp<()>)
    ensures
        exp_view(r) == ExpV::Prim(p, seq![exp_view(a), exp_view(b)], ()),
{
    let args = vec![Box::new(a), Box::new(b)];
    let r = Exp::Prim(p, args, ());
    proof {
        lemma_exp_view_lists(r);
        assert(boxes_view(args@) =~= seq![exp_view(a), exp_view(b)]);
    }
    r
}

// ---------------------------------------------------------------------------
// Lifting in code: `None` where lifting meets what it cannot handle.

/// The state of the code is the state of the model.
pub open spec fn holds_state(count: i32, env: Seq<String>, funs: Seq<(String, Vec<String>)>, st: LiftState) -> bool {
    &&& count as int == st.count
    &&& name_set(env) =~= st.env
    &&& funs_view(funs) =~= st.funs
}

pub fn lambda_lift_helper(p: &Exp<bool>, sl: &Vec<String>, count: &mut i32, env: &mut Vec<String>, funs: &mut Vec<(String, Vec<String>)>) -> (r: Option<(Vec<FunDecl<Exp<()>, ()>>, Exp<()>)>)
    ensures
        r is Some <==> ll_ok(exp_view(*p), name_set(sl@), state_of(*old(count), old(env)@, old(funs)@)),
        r matches Some(x) ==> decls_x(x.0@) =~= ll(exp_view(*p), name_set(sl@), state_of(*old(count), old(env)@, old(funs)@)).lifted && exp_view(x.1) == ll(exp_view(*p), name_set(sl@), state_of(*old(count), old(env)@, old(funs)@)).exp
            && holds_state(*final(count), final(env)@, final(funs)@, ll(exp_view(*p), name_set(sl@), state_of(*old(count), old(env)@, old(funs)@)).st),
    decreases p, 1nat,
{
    proof {
        lemma_exp_view_lists(*p);
    }
    match p {
        Exp::Num(n, _) => Some((Vec::new(), Exp::Num(*n, ()))),
        Exp::Bool(b, _) => Some((Vec::new(), Exp::Bool(*b, ()))),
        Exp::Float(f, _) => Some((Vec::new(), Exp::Float(*f, ()))),
        Exp::Var(name, _) => Some((Vec::new(), Exp::Var(name.clone(), ()))),
        Exp::Prim(pr, args, _) => {
            assert(exp_view(*p)->Prim_1 == boxes_view(args@));
            let (l, xs) = match ll_boxes(args, sl, count, env, funs) { Some(v) => v, None => return None };
            let r = Exp::Prim(*pr, xs, ());
            proof {
                lemma_exp_view_lists(r);
            }
            Some((l, r))
        },
        Exp::Let { .. } => ll_let(p, sl, count, env, funs),
        Exp::If { cond, thn, els, .. } => {
            let (mut l, c) = match lambda_lift_helper(cond, sl, count, env, funs) { Some(v) => v, None => return None };
            let (l2, t) = match lambda_lift_helper(thn, sl, count, env, funs) { Some(v) => v, None => return None };
            let (l3, f) = match lambda_lift_helper(els, sl, count, env, funs) { Some(v) => v, None => return None };
            append_decls(&mut l, l2);
            append_decls(&mut l, l3);
            Some((l, Exp::If { cond: Box::new(c), thn: Box::new(t), els: Box::new(f), ann: () }))
        },
        Exp::FunDefs { .. } => ll_fun_defs(p, sl, count, env, funs),
        Exp::DirectCall(name, args, is_tail) => {
            assert(exp_view(*p)->DirectCall_1 == exps_view(args@));
            let (l, xs) = match ll_exps(args, sl, count, env, funs) { Some(v) => v, None => return None };
            if contains_text(sl, name) {
                let r = Exp::ExternalCall { fun: VarOrLabel::Label(name.clone()), args: xs, is_tail: *is_tail, ann: () };
                proof {
                    lemma_exp_view_lists(r);
                }
                Some((l, r))
            } else {
                let r = Exp::InternalTailCall(name.clone(), xs, ());
                proof {
                    lemma_exp_view_lists(r);
                }
                Some((l, r))
            }
        },
        Exp::ClosureCall(..) => ll_closure_call(p, sl, count, env, funs),
        Exp::Lambda { .. } => ll_lambda(p, sl, count, env, funs),
        Exp::ExternalCall { fun, args, is_tail, .. } => {
            assert(exp_view(*p)->ExternalCall_args == exps_view(args@));
            let (l, xs) = match ll_exps(args, sl, count, env, funs) { Some(v) => v, None => return None };
            let r = Exp::ExternalCall { fun: crate::copy::copy_target(fun), args: xs, is_tail: *is_tail, ann: () };
            proof {
                lemma_exp_view_lists(r);
            }
            Some((l, r))
        },
        Exp::MakeClosure { arity, label, env: clo_env, .. } => {
            let (l, x) = match lambda_lift_helper(clo_env, sl, count, env, funs) { Some(v) => v, None => return None };
            Some((l, Exp::MakeClosure { arity: *arity, label: label.clone(), env: Box::new(x), ann: () }))
        },
        _ => None,
    }
}

fn ll_boxes(s: &Vec<Box<Exp<bool>>>, sl: &Vec<String>, count: &mut i32, env: &mut Vec<String>, funs: &mut Vec<(String, Vec<String>)>) -> (r: Option<(Vec<FunDecl<Exp<()>, ()>>, Vec<Box<Exp<()>>>)>)
    ensures
        r is Some <==> ll_list_ok(boxes_view(s@), s@.len() as int, name_set(sl@), state_of(*old(count), old(env)@, old(funs)@)),
        r matches Some(x) ==> decls_x(x.0@) =~= ll_list(boxes_view(s@), s@.len() as int, name_set(sl@), state_of(*old(count), old(env)@, old(funs)@)).0
            && boxes_view(x.1@) =~= ll_list(boxes_view(s@), s@.len() as int, name_set(sl@), state_of(*old(count), old(env)@, old(funs)@)).1
            && holds_state(*final(count), final(env)@, final(funs)@, ll_list(boxes_view(s@), s@.len() as int, name_set(sl@), state_of(*old(count), old(env)@, old(funs)@)).2),
    decreases s, 0nat,
{
    let ghost v = boxes_view(s@);
    let ghost st0 = state_of(*count, env@, funs@);
    let ghost sls = name_set(sl@);
    let mut l: Vec<FunDecl<Exp<()>, ()>> = Vec::new();
    let mut xs: Vec<Box<Exp<()>>> = Vec::new();
    let mut k: usize = 0;
    assert(decls_x(l@) =~= Seq::<DeclX<()>>::empty());
    assert(boxes_view(xs@) =~= Seq::<ExpV<()>>::empty());
    while k < s.len()
        invariant
            k <= s@.len(),
            v == boxes_view(s@),
            sls == name_set(sl@),
            st0 == state_of(*old(count), old(env)@, old(funs)@),
            ll_list_ok(v, k as int, sls, st0),
            decls_x(l@) =~= ll_list(v, k as int, sls, st0).0,
            boxes_view(xs@) =~= ll_list(v, k as int, sls, st0).1,
            holds_state(*count, env@, funs@, ll_list(v, k as int, sls, st0).2),
        decreases s@.len() - k,
    {
        proof {
            assert(v[k as int] == exp_view(*s@[k as int]));
            assert(state_of(*count, env@, funs@) =~= ll_list(v, k as int, sls, st0).2);
        }
        let (l1, x) = match lambda_lift_helper(&s[k], sl, count, env, funs) {
            Some(v) => v,
            None => {
                proof {
                    if ll_list_ok(v, s@.len() as int, sls, st0) {
                        lemma_list_ok_prefix(v, s@.len() as int, k + 1, sls, st0);
                    }
                }
                return None;
            },
        };
        append_decls(&mut l, l1);
        let ghost before = xs@;
        xs.push(Box::new(x));
        assert(boxes_view(xs@) =~= boxes_view(before).push(exp_view(x)));
        k = k + 1;
    }
    Some((l, xs))
}

fn ll_exps(s: &Vec<Exp<bool>>, sl: &Vec<String>, count: &mut i32, env: &mut Vec<String>, funs: &mut Vec<(String, Vec<String>)>) -> (r: Option<(Vec<FunDecl<Exp<()>, ()>>, Vec<Exp<()>>)>)
    ensures
        r is Some <==> ll_list_ok(exps_view(s@), s@.len() as int, name_set(sl@), state_of(*old(count), old(env)@, old(funs)@)),
        r matches Some(x) ==> decls_x(x.0@) =~= ll_list(exps_view(s@), s@.len() as int, name_set(sl@), state_of(*old(count), old(env)@, old(funs)@)).0
            && exps_view(x.1@) =~= ll_list(exps_view(s@), s@.len() as int, name_set(sl@), state_of(*old(count), old(env)@, old(funs)@)).1
            && holds_state(*final(count), final(env)@, final(funs)@, ll_list(exps_view(s@), s@.len() as int, name_set(sl@), state_of(*old(count), old(env)@, old(funs)@)).2),
    decreases s, 0nat,
{
    let ghost v = exps_view(s@);
    let ghost st0 = state_of(*count, env@, funs@);
    let ghost sls = name_set(sl@);
    let mut l: Vec<FunDecl<Exp<()>, ()>> = Vec::new();
    let mut xs: Vec<Exp<()>> = Vec::new();
    let mut k: usize = 0;
    assert(decls_x(l@) =~= Seq::<DeclX<()>>::empty());
    assert(exps_view(xs@) =~= Seq::<ExpV<()>>::empty());
    while k < s.len()
        invariant
            k <= s@.len(),
            v == exps_view(s@),
            sls == name_set(sl@),
            st0 == state_of(*old(count), old(env)@, old(funs)@),
            ll_list_ok(v, k as int, sls, st0),
            decls_x(l@) =~= ll_list(v, k as int, sls, st0).0,
            exps_view(xs@) =~= ll_list(v, k as int, sls, st0).1,
            holds_state(*count, env@, funs@, ll_list(v, k as int, sls, st0).2),
        decreases s@.len() - k,
    {
        proof {
            assert(v[k as int] == exp_view(s@[k as int]));
            assert(state_of(*count, env@, funs@) =~= ll_list(v, k as int, sls, st0).2);
        }
        let (l1, x) = match lambda_lift_helper(&s[k], sl, count, env, funs) {
            Some(v) => v,
            None => {
                proof {
                    if ll_list_ok(v, s@.len() as int, sls, st0) {
                        lemma_list_ok_prefix(v, s@.len() as int, k + 1, sls, st0);
                    }
                }
                return None;
            },
        };
        append_decls(&mut l, l1);
        let ghost before = xs@;
        xs.push(x);
        assert(exps_view(xs@) =~= exps_view(before).push(exp_view(x)));
        k = k + 1;
    }
    Some((l, xs))
}

#[verifier::loop_isolation(false)]
fn ll_let(p: &Exp<bool>, sl: &Vec<String>, count: &mut i32, env: &mut Vec<String>, funs: &mut Vec<(String, Vec<String>)>) -> (r: Option<(Vec<FunDecl<Exp<()>, ()>>, Exp<()>)>)
    requires
        p is Let,
    ensures
        r is Some <==> ll_ok(exp_view(*p), name_set(sl@), state_of(*old(count), old(env)@, old(funs)@)),
        r matches Some(x) ==> decls_x(x.0@) =~= ll(exp_view(*p), name_set(sl@), state_of(*old(count), old(env)@, old(funs)@)).lifted && exp_view(x.1) == ll(exp_view(*p), name_set(sl@), state_of(*old(count), old(env)@, old(funs)@)).exp
            && holds_state(*final(count), final(env)@, final(funs)@, ll(exp_view(*p), name_set(sl@), state_of(*old(count), old(env)@, old(funs)@)).st),
    decreases p, 0nat,
{
    proof {
        lemma_exp_view_lists(*p);
    }
    match p {
        Exp::Let { bindings, body, .. } => {
            let ghost v = binds_view(bindings@);
            assert(exp_view(*p)->Let_bindings == v);
            let ghost st0 = state_of(*count, env@, funs@);
            let ghost sls = name_set(sl@);
            let mut l: Vec<FunDecl<Exp<()>, ()>> = Vec::new();
            let mut nb: Vec<(String, Exp<()>)> = Vec::new();
            let mut k: usize = 0;
            assert(decls_x(l@) =~= Seq::<DeclX<()>>::empty());
            assert(binds_view(nb@) =~= Seq::<(Seq<char>, ExpV<()>)>::empty());
            while k < bindings.len()
                invariant
                    k <= bindings@.len(),
                    v == binds_view(bindings@),
                    sls == name_set(sl@),
                    ll_binds_ok(v, k as int, sls, st0),
                    decls_x(l@) =~= ll_binds(v, k as int, sls, st0).0,
                    binds_view(nb@) =~= ll_binds(v, k as int, sls, st0).1,
                    holds_state(*count, env@, funs@, ll_binds(v, k as int, sls, st0).2),
                decreases bindings@.len() - k,
            {
                proof {
                    assert(v[k as int] == (bindings@[k as int].0@, exp_view(bindings@[k as int].1)));
                }
                set_insert(env, &bindings[k].0);
                proof {
                    let st1 = ll_binds(v, k as int, sls, st0).2;
                    assert(state_of(*count, env@, funs@) =~= LiftState { env: st1.env.insert(v[k as int].0), ..st1 });
                }
                let (l1, x) = match lambda_lift_helper(&bindings[k].1, sl, count, env, funs) {
                    Some(v) => v,
                    None => {
                        proof {
                            if ll_binds_ok(v, bindings@.len() as int, sls, st0) {
                                lemma_binds_ok_prefix(v, bindings@.len() as int, k + 1, sls, st0);
                            }
                        }
                        return None;
                    },
                };
                append_decls(&mut l, l1);
                let ghost before = nb@;
                nb.push((bindings[k].0.clone(), x));
                assert(binds_view(nb@) =~= binds_view(before).push((bindings@[k as int].0@, exp_view(x))));
                k = k + 1;
            }
            proof {
                assert(state_of(*count, env@, funs@) =~= ll_binds(v, bindings@.len() as int, sls, st0).2);
            }
            let (l2, b) = match lambda_lift_helper(body, sl, count, env, funs) { Some(v) => v, None => return None };
            append_decls(&mut l, l2);
            let r = Exp::Let { bindings: nb, body: Box::new(b), ann: () };
            proof {
                lemma_exp_view_lists(r);
            }
            Some((l, r))
        },
        _ => None,
    }
}

#[verifier::loop_isolation(false)]
fn ll_fun_defs(p: &Exp<bool>, sl: &Vec<String>, count: &mut i32, env: &mut Vec<String>, funs: &mut Vec<(String, Vec<String>)>) -> (r: Option<(Vec<FunDecl<Exp<()>, ()>>, Exp<()>)>)
    requires
        p is FunDefs,
    ensures
        r is Some <==> ll_ok(exp_view(*p), name_set(sl@), state_of(*old(count), old(env)@, old(funs)@)),
        r matches Some(x) ==> decls_x(x.0@) =~= ll(exp_view(*p), name_set(sl@), state_of(*old(count), old(env)@, old(funs)@)).lifted && exp_view(x.1) == ll(exp_view(*p), name_set(sl@), state_of(*old(count), old(env)@, old(funs)@)).exp
            && holds_state(*final(count), final(env)@, final(funs)@, ll(exp_view(*p), name_set(sl@), state_of(*old(count), old(env)@, old(funs)@)).st),
    decreases p, 0nat,
{
    proof {
        lemma_exp_view_lists(*p);
    }
    match p {
        Exp::FunDefs { decls, body, .. } => {
            let ghost ds = decls_x(decls@);
            assert(exp_view(*p)->FunDefs_decls == ds);
            let ghost sls = name_set(sl@);
            let ghost st = state_of(*count, env@, funs@);
            let ghost f0 = funs_view(funs@);
            let mut k: usize = 0;
            while k < decls.len()
                invariant
                    k <= decls@.len(),
                    ds == decls_x(decls@),
                    funs_view(funs@) =~= f0 + crate::recur::decl_funs(ds).take(k as int),
                    *count as int == st.count,
                    name_set(env@) == st.env,
                decreases decls@.len() - k,
            {
                let ghost before = funs@;
                funs.push((decls[k].name.clone(), copy_names(&decls[k].parameters)));
                proof {
                    assert(funs_view(funs@) =~= funs_view(before).push((ds[k as int].name, ds[k as int].parameters)));
                    assert(crate::recur::decl_funs(ds).take(k + 1)
                        =~= crate::recur::decl_funs(ds).take(k as int).push((ds[k as int].name, ds[k as int].parameters)));
                }
                k = k + 1;
            }
            assert(crate::recur::decl_funs(ds).take(decls@.len() as int) =~= crate::recur::decl_funs(ds));
            let ghost st0 = LiftState { funs: st.funs + crate::recur::decl_funs(ds), ..st };
            assert(state_of(*count, env@, funs@) =~= st0);
            let mut l: Vec<FunDecl<Exp<()>, ()>> = Vec::new();
            let mut kept: Vec<FunDecl<Exp<()>, ()>> = Vec::new();
            assert(decls_x(l@) =~= Seq::<DeclX<()>>::empty());
            assert(decls_x(kept@) =~= Seq::<DeclX<()>>::empty());
            k = 0;
            while k < decls.len()
                invariant
                    k <= decls@.len(),
                    ds == decls_x(decls@),
                    sls == name_set(sl@),
                    ll_decls_ok(ds, k as int, sls, st0),
                    decls_x(l@) =~= ll_decls(ds, k as int, sls, st0).0,
                    decls_x(kept@) =~= ll_decls(ds, k as int, sls, st0).1,
                    holds_state(*count, env@, funs@, ll_decls(ds, k as int, sls, st0).2),
                decreases decls@.len() - k,
            {
                proof {
                    assert(ds[k as int].body == exp_view(decls@[k as int].body));
                }
                let d = &decls[k];
                set_insert(env, &d.name);
                let mut new_env = copy_names(env);
                insert_names(&mut new_env, &d.parameters);
                proof {
                    let st1 = ll_decls(ds, k as int, sls, st0).2;
                    assert(state_of(*count, new_env@, funs@)
                        =~= LiftState { env: st1.env.insert(ds[k as int].name) + ds[k as int].parameters.to_set(), ..st1 });
                }
                let (l1, nb) = match lambda_lift_helper(&d.body, sl, count, &mut new_env, funs) {
                    Some(v) => v,
                    None => {
                        proof {
                            if ll_decls_ok(ds, decls@.len() as int, sls, st0) {
                                lemma_decls_ok_prefix(ds, decls@.len() as int, k + 1, sls, st0);
                            }
                        }
                        return None;
                    },
                };
                let nd = FunDecl { name: d.name.clone(), parameters: copy_names(&d.parameters), body: nb, ann: () };
                append_decls(&mut l, l1);
                if contains_text(sl, &d.name) {
                    push_decl(&mut l, nd);
                } else {
                    push_decl(&mut kept, nd);
                }
                k = k + 1;
            }
            proof {
                assert(state_of(*count, env@, funs@) =~= ll_decls(ds, decls@.len() as int, sls, st0).2);
            }
            let (l2, b) = match lambda_lift_helper(body, sl, count, env, funs) { Some(v) => v, None => return None };
            append_decls(&mut l, l2);
            let r = Exp::FunDefs { decls: kept, body: Box::new(b), ann: () };
            proof {
                lemma_exp_view_lists(r);
            }
            Some((l, r))
        },
        _ => None,
    }
}

fn ll_closure_call(p: &Exp<bool>, sl: &Vec<String>, count: &mut i32, env: &mut Vec<String>, funs: &mut Vec<(String, Vec<String>)>) -> (r: Option<(Vec<FunDecl<Exp<()>, ()>>, Exp<()>)>)
    requires
        p is ClosureCall,
    ensures
        r is Some <==> ll_ok(exp_view(*p), name_set(sl@), state_of(*old(count), old(env)@, old(funs)@)),
        r matches Some(x) ==> decls_x(x.0@) =~= ll(exp_view(*p), name_set(sl@), state_of(*old(count), old(env)@, old(funs)@)).lifted && exp_view(x.1) == ll(exp_view(*p), name_set(sl@), state_of(*old(count), old(env)@, old(funs)@)).exp
            && holds_state(*final(count), final(env)@, final(funs)@, ll(exp_view(*p), name_set(sl@), state_of(*old(count), old(env)@, old(funs)@)).st),
    decreases p, 0nat,
{
    proof {
        lemma_exp_view_lists(*p);
    }
    match p {
        Exp::ClosureCall(fun, args, is_tail) => {
            assert(exp_view(*p)->ClosureCall_1 == exps_view(args@));
            let (mut l, f) = match lambda_lift_helper(fun, sl, count, env, funs) { Some(v) => v, None => return None };
            let (l2, xs) = match ll_exps(args, sl, count, env, funs) { Some(v) => v, None => return None };
            append_decls(&mut l, l2);
            let ghost fv = exp_view(f);
            let untag_args = vec![Box::new(f)];
            let untagged = Exp::Prim(Prim::CheckArityAndUntag(args.len()), untag_args, ());
            proof {
                lemma_exp_view_lists(untagged);
                assert(boxes_view(untag_args@) =~= seq![fv]);
            }
            let code = prim2(Prim::GetCode, var("untagged"), Exp::Num(0, ()));
            let envp = prim2(Prim::GetEnv, var("untagged"), Exp::Num(1, ()));
            let ghost uv = exp_view(untagged);
            let ghost cv = exp_view(code);
            let ghost ev = exp_view(envp);
            let bindings = vec![
                (String::from_str("untagged"), untagged),
                (String::from_str("code_ptr"), code),
                (String::from_str("env"), envp),
            ];
            assert(binds_view(bindings@) =~= seq![("untagged"@, uv), ("code_ptr"@, cv), ("env"@, ev)]);
            let mut cargs = vec![var("env")];
            assert(exps_view(cargs@) =~= seq![ExpV::<()>::Var("env"@, ())]);
            let mut xs = xs;
            let ghost c0 = cargs@;
            let ghost x0 = xs@;
            cargs.append(&mut xs);
            assert(exps_view(cargs@) =~= exps_view(c0) + exps_view(x0));
            let call = Exp::ExternalCall {
                fun: VarOrLabel::Var(String::from_str("code_ptr")),
                args: cargs,
                is_tail: *is_tail,
                ann: (),
            };
            proof {
                lemma_exp_view_lists(call);
            }
            let r = Exp::Let { bindings, body: Box::new(call), ann: () };
            proof {
                lemma_exp_view_lists(r);
            }
            Some((l, r))
        },
        _ => None,
    }
}

#[verifier::loop_isolation(false)]
fn ll_lambda(p: &Exp<bool>, sl: &Vec<String>, count: &mut i32, env: &mut Vec<String>, funs: &mut Vec<(String, Vec<String>)>) -> (r: Option<(Vec<FunDecl<Exp<()>, ()>>, Exp<()>)>)
    requires
        p is Lambda,
    ensures
        r is Some <==> ll_ok(exp_view(*p), name_set(sl@), state_of(*old(count), old(env)@, old(funs)@)),
        r matches Some(x) ==> decls_x(x.0@) =~= ll(exp_view(*p), name_set(sl@), state_of(*old(count), old(env)@, old(funs)@)).lifted && exp_view(x.1) == ll(exp_view(*p), name_set(sl@), state_of(*old(count), old(env)@, old(funs)@)).exp
            && holds_state(*final(count), final(env)@, final(funs)@, ll(exp_view(*p), name_set(sl@), state_of(*old(count), old(env)@, old(funs)@)).st),
    decreases p, 0nat,
{
    match p {
        Exp::Lambda { parameters, body, .. } => {
            let ghost ps = texts(parameters@);
            if *count < 0 || *count == i32::MAX {
                return None;
            }
            let tag = *count;
            *count = *count + 1;
            insert_names(env, parameters);
            let (mut l, nb) = match lambda_lift_helper(body, sl, count, env, funs) { Some(v) => v, None => return None };
            if !crate::checks::bvars_ready(body, funs) {
                return None;
            }
            let vars = crate::freevars::body_variables(body, funs);
            let ghost tv = texts(vars@);
            let mut le: Vec<String> = Vec::new();
            let mut k: usize = 0;
            assert(texts(le@) =~= lambda_env(tv, name_set(env@), ps, 0));
            while k < vars.len()
                invariant
                    k <= vars@.len(),
                    tv == texts(vars@),
                    ps == texts(parameters@),
                    texts(le@) == lambda_env(tv, name_set(env@), ps, k as int),
                decreases vars@.len() - k,
            {
                if contains_text(env, &vars[k]) && !contains_text(parameters, &vars[k]) {
                    let ghost before = le@;
                    le.push(vars[k].clone());
                    assert(texts(le@) =~= texts(before).push(tv[k as int]));
                }
                k = k + 1;
            }
            let ghost tle = texts(le@);
            let mut np = copy_names(parameters);
            crate::freevars::remove_names(&mut np, &le);
            let ghost np0 = np@;
            np.insert(0, String::from_str("env"));
            assert(texts(np@) =~= seq!["env"@] + texts(np0));
            let mut ib = nb;
            let ghost nbv = exp_view(nb);
            let mut c: usize = 0;
            while c < le.len()
                invariant
                    c <= le@.len(),
                    tle == texts(le@),
                    exp_view(ib) == env_lets(tle, c as int, nbv),
                decreases le@.len() - c,
            {
                let slot = prim2(Prim::ArrayGet, var("env"), Exp::Num(c as i64, ()));
                let binding = vec![(le[c].clone(), slot)];
                assert(binds_view(binding@) =~= seq![(tle[c as int], exp_view(slot))]);
                let next = Exp::Let { bindings: binding, body: Box::new(ib), ann: () };
                proof {
                    lemma_exp_view_lists(next);
                }
                ib = next;
                c = c + 1;
            }
            let mut arr_args: Vec<Box<Exp<()>>> = Vec::new();
            c = 0;
            while c < le.len()
                invariant
                    c <= le@.len(),
                    tle == texts(le@),
                    boxes_view(arr_args@) =~= Seq::new(c as nat, |i: int| ExpV::<()>::Var(tle[i], ())),
                decreases le@.len() - c,
            {
                let ghost before = arr_args@;
                arr_args.push(Box::new(Exp::Var(le[c].clone(), ())));
                assert(boxes_view(arr_args@) =~= boxes_view(before).push(ExpV::<()>::Var(tle[c as int], ())));
                c = c + 1;
            }
            let arr = Exp::Prim(Prim::MakeArray, arr_args, ());
            proof {
                lemma_exp_view_lists(arr);
            }
            let arity = np.len() - 1;
            let d = FunDecl { name: lambda_label(tag), parameters: np, body: ib, ann: () };
            push_decl(&mut l, d);
            Some((l, Exp::MakeClosure { arity, label: lambda_label(tag), env: Box::new(arr), ann: () }))
        },
        _ => None,
    }
}

// ---------------------------------------------------------------------------
// The whole pass.

/// The names to lift with the names of their companions.
pub open spec fn lift_targets(s: Set<Seq<char>>) -> Set<Seq<char>> {
    s + s.map(|x: Seq<char>| crate::recur::closure_name(x))
}

pub open spec fn initial_state() -> LiftState {
    LiftState { count: 0, env: Set::empty(), funs: Seq::empty() }
}

/// Lambda lifting of `p`, where every step handles what it meets: the
/// functions to lift are found, closures are made for local functions,
/// variables are captured until nothing changes, and the result is lifted.
pub open spec fn lambda_lifted<A>(p: ExpV<A>) -> Option<Lifted> {
    let m = crate::tail::mark(p, true);
    if !crate::tail::resolved(p) || !crate::recur::recur_ok(m) || !crate::capture::vcap_ok(crate::recur::recur(m)) {
        None
    } else {
        let v = crate::capture::vcap_fix(crate::recur::recur(m));
        let sl = lift_targets(crate::lift::lift_fix(m));
        if ll_ok(v, sl, initial_state()) { Some(ll(v, sl, initial_state())) } else { None }
    }
}

/// The functions to lift with their companions, as names in code.
fn with_companions(sl: &Vec<String>) -> (r: Vec<String>)
    ensures
        name_set(r@) == lift_targets(name_set(sl@)),
{
    let mut r = copy_names(sl);
    let mut k: usize = 0;
    while k < sl.len()
        invariant
            k <= sl@.len(),
            name_set(r@) =~= name_set(sl@) + Set::new(|y: Seq<char>| exists|j: int| 0 <= j < k
                && y == crate::recur::closure_name(#[trigger] texts(sl@)[j])),
        decreases sl@.len() - k,
    {
        let c = crate::recur::closure_label(&sl[k]);
        let ghost before = name_set(r@);
        set_insert(&mut r, &c);
        proof {
            assert forall|y: Seq<char>| #[trigger] name_set(r@).contains(y) == (name_set(sl@) + Set::new(|y: Seq<char>| exists|j: int| 0 <= j < k + 1
                && y == crate::recur::closure_name(#[trigger] texts(sl@)[j]))).contains(y) by {
                if y == c@ {
                    assert(texts(sl@)[k as int] == sl@[k as int]@);
                }
            }
        }
        k = k + 1;
    }
    proof {
        let s = name_set(sl@);
        assert forall|y: Seq<char>| #[trigger] name_set(r@).contains(y) == lift_targets(s).contains(y) by {
            if s.map(|x: Seq<char>| crate::recur::closure_name(x)).contains(y) {
                let x = choose|x: Seq<char>| s.contains(x) && y == crate::recur::closure_name(x);
                let j = choose|j: int| 0 <= j < texts(sl@).len() && texts(sl@)[j] == x;
                assert(y == crate::recur::closure_name(texts(sl@)[j]));
            }
            if (exists|j: int| 0 <= j < sl@.len() && y == crate::recur::closure_name(#[trigger] texts(sl@)[j])) {
                let j = choose|j: int| 0 <= j < sl@.len() && y == crate::recur::closure_name(#[trigger] texts(sl@)[j]);
                assert(s.contains(texts(sl@)[j]));
            }
        }
        assert(name_set(r@) =~= lift_targets(s));
    }
    r
}

/// Lambda lifting: the functions lifted to the top level and the program
/// that stays, or `None` where a step cannot handle what it meets.
pub fn lambda_lift<Ann>(p: &Exp<Ann>) -> (r: Option<(Vec<FunDecl<Exp<()>, ()>>, Exp<()>)>)
    ensures
        r is Some <==> lambda_lifted(exp_view(*p)) is Some,
        r matches Some(x) ==> decls_x(x.0@) == lambda_lifted(exp_view(*p)).unwrap().lifted
            && exp_view(x.1) == lambda_lifted(exp_view(*p)).unwrap().exp,
{
    if !crate::checks::resolved_ready(p) {
        return None;
    }
    let sl0 = crate::lift::should_lift(p);
    let sl = with_companions(&sl0);
    let mt = crate::tail::mark_tail(p, true);
    if !crate::checks::recur_ready(&mt) {
        return None;
    }
    let re_p = crate::recur::recur_helper(&mt);
    if !crate::checks::capture_ready(&re_p) {
        return None;
    }
    let var_cap = match crate::capture::variable_capture(re_p) {
        Some(v) => v,
        None => {
            assert(false);
            return None;
        },
    };
    let mut count: i32 = 0;
    let mut env: Vec<String> = Vec::new();
    let mut funs: Vec<(String, Vec<String>)> = Vec::new();
    proof {
        assert(state_of(count, env@, funs@) =~= initial_state()) by {
            assert(name_set(env@) =~= Set::<Seq<char>>::empty());
            assert(funs_view(funs@) =~= Seq::<(Seq<char>, Seq<Seq<char>>)>::empty());
        }
    }
    lambda_lift_helper(&var_cap, &sl, &mut count, &mut env, &mut funs)
}

// ---------------------------------------------------------------------------
// Laws.

/// The bindings of the first `n` nested single-binding `let`s of `e`,
/// outermost first.
pub open spec fn lets_prefix(e: ExpV<()>, n: nat) -> Option<Seq<(Seq<char>, ExpV<()>)>>
    decreases n,
{
    if n == 0 {
        Some(Seq::empty())
    } else {
        match e {
            ExpV::Let { bindings, body, .. } => if bindings.len() == 1 {
                match lets_prefix(*body, (n - 1) as nat) {
                    Some(bs) => Some(seq![bindings[0]] + bs),
                    None => None,
                }
            } else {
                None
            },
            _ => None,
        }
    }
}

/// `b` reads slot `m` of the environment array, and the closure's
/// environment `items` holds, at that slot, the variable `b` binds.
pub open spec fn reads_own_slot(b: (Seq<char>, ExpV<()>), items: Seq<ExpV<()>>) -> bool {
    &&& b.1 matches ExpV::Prim(Prim::ArrayGet, gs, _)
    &&& gs.len() == 2
    &&& gs[0] == ExpV::Var("env"@, ())
    &&& gs[1] matches ExpV::Num(m, _) && 0 <= m < items.len() && items[m as int] == ExpV::Var(b.0, ())
}

proof fn lemma_env_lets_prefix(vs: Seq<Seq<char>>, k: int, body: ExpV<()>)
    requires
        0 <= k <= vs.len(),
        vs.len() <= i64::MAX,
    ensures
        lets_prefix(env_lets(vs, k, body), k as nat) matches Some(bs) && bs.len() == k && forall|i: int| 0 <= i < k ==>
            #[trigger] bs[i] == (vs[k - 1 - i], ExpV::Prim(Prim::ArrayGet,
                seq![ExpV::Var("env"@, ()), ExpV::Num((k - 1 - i) as i64, ())], ())),
    decreases k,
{
    if k > 0 {
        lemma_env_lets_prefix(vs, k - 1, body);
        let bs0 = lets_prefix(env_lets(vs, k - 1, body), (k - 1) as nat).unwrap();
        let b = (vs[k - 1], ExpV::Prim(Prim::ArrayGet, seq![ExpV::Var("env"@, ()), ExpV::Num((k - 1) as i64, ())], ()));
        assert(lets_prefix(env_lets(vs, k, body), k as nat) == Some(seq![b] + bs0));
        assert forall|i: int| 0 <= i < k implies #[trigger] (seq![b] + bs0)[i] == (vs[k - 1 - i], ExpV::Prim(Prim::ArrayGet,
                seq![ExpV::Var("env"@, ()), ExpV::Num((k - 1 - i) as i64, ())], ())) by {
            if i > 0 {
                assert((seq![b] + bs0)[i] == bs0[i - 1]);
            }
        }
    }
}

/// A lifted lambda reads each captured variable from the slot of the
/// environment array where its closure stores that variable: the lambda
/// becomes a closure over an array of its captured variables and a new
/// top-level function of the closure's label, whose body first binds, one
/// per slot, each variable to the slot that holds it.
pub proof fn lemma_lambda_reads_env(e: ExpV<bool>, sl: Set<Seq<char>>, st: LiftState)
    requires
        e is Lambda,
    ensures
        ll(e, sl, st).exp matches ExpV::MakeClosure { label, env, .. }
            && *env matches ExpV::Prim(Prim::MakeArray, items, _)
            && ll(e, sl, st).lifted.len() > 0
            && ll(e, sl, st).lifted.last().name == label
            && ll(e, sl, st).lifted.last().parameters[0] == "env"@
            && (items.len() <= i64::MAX ==> (lets_prefix(ll(e, sl, st).lifted.last().body, items.len()) matches Some(bs)
                && bs.len() == items.len()
                && (forall|i: int| 0 <= i < bs.len() ==> reads_own_slot(#[trigger] bs[i], items))
                && (forall|j: int| 0 <= j < items.len() ==> #[trigger] items[j] == ExpV::Var(bs[items.len() - 1 - j].0, ())))),
{
    match e {
        ExpV::Lambda { parameters, body, .. } => {
            let st0 = LiftState { count: st.count + 1, env: st.env + parameters.to_set(), funs: st.funs };
            let r = ll(*body, sl, st0);
            let vars = bvars(*body, r.st.funs);
            let le = lambda_env(vars, r.st.env, parameters, vars.len() as int);
            let items = Seq::new(le.len(), |i: int| ExpV::Var(le[i], ()));
            if le.len() <= i64::MAX {
                lemma_env_lets_prefix(le, le.len() as int, r.exp);
                let bs = lets_prefix(env_lets(le, le.len() as int, r.exp), le.len()).unwrap();
                assert forall|i: int| 0 <= i < bs.len() implies reads_own_slot(#[trigger] bs[i], items) by {
                    let m = le.len() - 1 - i;
                    assert(bs[i].1->Prim_1[1] == ExpV::Num(m as i64, ()));
                    assert(items[m] == ExpV::Var(le[m], ()));
                }
                assert forall|j: int| 0 <= j < items.len() implies #[trigger] items[j] == ExpV::Var(bs[items.len() - 1 - j].0, ()) by {
                    assert(bs[le.len() - 1 - j].0 == le[j]);
                }
            }
        },
        _ => {},
    }
}


/// Lifting a list lifts each element in turn.
proof fn lemma_ll_list_each(es: Seq<ExpV<bool>>, i: int, sl: Set<Seq<char>>, st: LiftState)
    requires
        0 <= i <= es.len(),
    ensures
        ll_list(es, i, sl, st).1.len() == i,
        forall|j: int| 0 <= j < i ==> #[trigger] ll_list(es, i, sl, st).1[j] == ll(es[j], sl, ll_list(es, j, sl, st).2).exp,
    decreases i,
{
    if i > 0 {
        lemma_ll_list_each(es, i - 1, sl, st);
        assert forall|j: int| 0 <= j < i implies #[trigger] ll_list(es, i, sl, st).1[j] == ll(es[j], sl, ll_list(es, j, sl, st).2).exp by {
            if j < i - 1 {
                assert(ll_list(es, i, sl, st).1[j] == ll_list(es, i - 1, sl, st).1[j]);
            }
        }
    }
}

/// A direct call keeps its arguments, one for each, in the same order, each
/// lifted: the call of a lifted function becomes a call of its label, any
/// other stays a jump within its group.
pub proof fn lemma_ll_direct_call(name: Seq<char>, args: Seq<ExpV<bool>>, is_tail: bool, sl: Set<Seq<char>>, st: LiftState)
    ensures
        ({
            let r = ll(ExpV::DirectCall(name, args, is_tail), sl, st).exp;
            let xs = if sl.contains(name) { r->ExternalCall_args } else { r->InternalTailCall_1 };
            &&& sl.contains(name) ==> r == (ExpV::ExternalCall { fun: TargetV::Label(name), args: xs, is_tail, ann: () })
            &&& !sl.contains(name) ==> r == ExpV::InternalTailCall(name, xs, ())
            &&& xs.len() == args.len()
            &&& forall|i: int| 0 <= i < args.len() ==>
                #[trigger] xs[i] == ll(args[i], sl, ll_list(args, i, sl, st).2).exp
        }),
{
    lemma_ll_list_each(args, args.len() as int, sl, st);
}

/// A call through a closure checks the closure's arity against the number of
/// arguments, takes its code and its environment, and calls the code with the
/// environment first and then the arguments, one for each, in the same
/// order, each lifted.
pub proof fn lemma_ll_closure_call(f: ExpV<bool>, args: Seq<ExpV<bool>>, is_tail: bool, sl: Set<Seq<char>>, st: LiftState)
    ensures
        ll(ExpV::ClosureCall(Box::new(f), args, is_tail), sl, st).exp matches ExpV::Let { bindings, body, .. } && {
            &&& bindings.len() == 3
            &&& bindings[0] == ("untagged"@, ExpV::Prim(Prim::CheckArityAndUntag(args.len() as usize), seq![ll(f, sl, st).exp], ()))
            &&& bindings[1].0 == "code_ptr"@
            &&& bindings[1].1 == ExpV::Prim(Prim::GetCode, seq![ExpV::Var("untagged"@, ()), ExpV::Num(0, ())], ())
            &&& bindings[2].0 == "env"@
            &&& bindings[2].1 == ExpV::Prim(Prim::GetEnv, seq![ExpV::Var("untagged"@, ()), ExpV::Num(1, ())], ())
            &&& (*body matches ExpV::ExternalCall { fun: TargetV::Var(c), args: xs, is_tail: t, .. } && {
                &&& c == "code_ptr"@
                &&& t == is_tail
                &&& xs.len() == args.len() + 1
                &&& xs[0] == ExpV::Var("env"@, ())
                &&& forall|i: int| 0 <= i < args.len() ==>
                    #[trigger] xs[i + 1] == ll(args[i], sl, ll_list(args, i, sl, ll(f, sl, st).st).2).exp
            })
        },
{
    let rf = ll(f, sl, st);
    lemma_ll_list_each(args, args.len() as int, sl, rf.st);
    let xs = ll_list(args, args.len() as int, sl, rf.st).1;
    assert forall|i: int| 0 <= i < args.len() implies #[trigger] (seq![ExpV::Var("env"@, ())] + xs)[i + 1] == xs[i] by {}
}

} // verus!
