//! Numbering the nodes of a program: each node gets the value of a counter
//! that the numbering carries through the program in evaluation order.
use vstd::prelude::*;
use crate::syntax::{Exp, FunDecl, SeqExp, SeqProg};
use crate::shape::{semicolon_free, seq_semicolon_free, same_shape, same_names, same_seq_shape, same_imm, same_imms, same_target};
use crate::names::copy_names;
use crate::copy::{copy_target, copy_imm, copy_imms};

verus! {

// ---------------------------------------------------------------------------
// The counter after numbering.

/// The counter after numbering `e` from `n`.
pub open spec fn tag_end<T>(e: Exp<T>, n: int) -> int
    decreases e, 1nat, 0nat,
{
    match e {
        Exp::Num(..) | Exp::Float(..) | Exp::Bool(..) | Exp::Var(..) => n,
        Exp::Prim(_, args, _) => tag_end_boxes(args@, args@.len() as int, n + 1),
        Exp::Let { bindings, body, .. } => tag_end(*body, tag_end_binds(bindings@, bindings@.len() as int, n + 1)),
        Exp::If { cond, thn, els, .. } => tag_end(*els, tag_end(*thn, tag_end(*cond, n + 1))),
        Exp::Semicolon { .. } => n,
        Exp::FunDefs { decls, body, .. } => tag_end(*body, tag_end_decls(decls@, decls@.len() as int, n + 1)),
        Exp::Lambda { body, .. } => tag_end(*body, n + 1),
        Exp::MakeClosure { env, .. } => tag_end(*env, n + 1),
        Exp::Call(f, args, _) => tag_end(*f, tag_end_exps(args@, args@.len() as int, n + 1) + 1),
        Exp::ClosureCall(f, args, _) => tag_end(*f, tag_end_exps(args@, args@.len() as int, n + 1)),
        Exp::DirectCall(_, args, _) => tag_end_exps(args@, args@.len() as int, n + 1),
        Exp::InternalTailCall(_, args, _) => tag_end_exps(args@, args@.len() as int, n + 1),
        Exp::ExternalCall { args, .. } => tag_end_exps(args@, args@.len() as int, n + 1),
    }
}

/// The counter after numbering the first `i` expressions of `s` from `n`.
pub open spec fn tag_end_exps<T>(s: Seq<Exp<T>>, i: int, n: int) -> int
    decreases s, 0nat, i,
{
    if i <= 0 || i > s.len() { n } else { tag_end(s[i - 1], tag_end_exps(s, i - 1, n)) }
}

pub open spec fn tag_end_boxes<T>(s: Seq<Box<Exp<T>>>, i: int, n: int) -> int
    decreases s, 0nat, i,
{
    if i <= 0 || i > s.len() { n } else { tag_end(*s[i - 1], tag_end_boxes(s, i - 1, n)) }
}

pub open spec fn tag_end_binds<T>(s: Seq<(String, Exp<T>)>, i: int, n: int) -> int
    decreases s, 0nat, i,
{
    if i <= 0 || i > s.len() { n } else { tag_end(s[i - 1].1, tag_end_binds(s, i - 1, n)) }
}

/// Each definition takes the counter after its body, then the counter moves on.
pub open spec fn tag_end_decls<T>(s: Seq<FunDecl<Exp<T>, T>>, i: int, n: int) -> int
    decreases s, 0nat, i,
{
    if i <= 0 || i > s.len() { n } else { tag_end(s[i - 1].body, tag_end_decls(s, i - 1, n)) + 1 }
}

// ---------------------------------------------------------------------------
// The numbered expression.

/// `r` is `e` numbered from `n`: every node but a leaf takes the counter and
/// moves it on by one before its parts are numbered; a leaf takes the counter
/// and leaves it.
pub open spec fn tagged<T>(e: Exp<T>, r: Exp<u32>, n: int) -> bool
    decreases e, 1nat, 0nat,
{
    match e {
        Exp::Num(x, _) => r matches Exp::Num(y, t) && x == y && t == n,
        Exp::Float(x, _) => r matches Exp::Float(y, t) && x == y && t == n,
        Exp::Bool(x, _) => r matches Exp::Bool(y, t) && x == y && t == n,
        Exp::Var(x, _) => r matches Exp::Var(y, t) && x == y && t == n,
        Exp::Prim(p, args, _) => r matches Exp::Prim(q, ra, t) && p == q && t == n
            && tagged_boxes(args@, ra@, n + 1),
        Exp::Let { bindings, body, .. } => r matches Exp::Let { bindings: rb, body: rbody, ann } && ann == n
            && tagged_binds(bindings@, rb@, n + 1)
            && tagged(*body, *rbody, tag_end_binds(bindings@, bindings@.len() as int, n + 1)),
        Exp::If { cond, thn, els, .. } => r matches Exp::If { cond: rc, thn: rt, els: re, ann } && ann == n
            && tagged(*cond, *rc, n + 1)
            && tagged(*thn, *rt, tag_end(*cond, n + 1))
            && tagged(*els, *re, tag_end(*thn, tag_end(*cond, n + 1))),
        Exp::Semicolon { .. } => false,
        Exp::FunDefs { decls, body, .. } => r matches Exp::FunDefs { decls: rd, body: rbody, ann } && ann == n
            && tagged_decls(decls@, rd@, n + 1)
            && tagged(*body, *rbody, tag_end_decls(decls@, decls@.len() as int, n + 1)),
        Exp::Lambda { parameters, body, .. } => r matches Exp::Lambda { parameters: rp, body: rb, ann } && ann == n
            && rp@ == parameters@ && tagged(*body, *rb, n + 1),
        Exp::MakeClosure { arity, label, env, .. } => r matches Exp::MakeClosure { arity: ra, label: rl, env: renv, ann }
            && ann == n && ra == arity && rl == label && tagged(*env, *renv, n + 1),
        Exp::Call(f, args, _) => r matches Exp::Call(rf, ra, t) && t == n
            && tagged_exps(args@, ra@, n + 1)
            && tagged(*f, *rf, tag_end_exps(args@, args@.len() as int, n + 1) + 1),
        Exp::ClosureCall(f, args, _) => r matches Exp::ClosureCall(rf, ra, t) && t == n
            && tagged_exps(args@, ra@, n + 1)
            && tagged(*f, *rf, tag_end_exps(args@, args@.len() as int, n + 1)),
        Exp::DirectCall(name, args, _) => r matches Exp::DirectCall(rn, ra, t) && t == n && rn == name
            && tagged_exps(args@, ra@, n + 1),
        Exp::InternalTailCall(name, args, _) => r matches Exp::InternalTailCall(rn, ra, t) && t == n && rn == name
            && tagged_exps(args@, ra@, n + 1),
        Exp::ExternalCall { fun, args, is_tail, .. } => r matches Exp::ExternalCall { fun: rf, args: ra, is_tail: rt, ann }
            && ann == n && rf == fun && rt == is_tail && tagged_exps(args@, ra@, n + 1),
    }
}

/// The expressions of `rs` are those of `s` numbered one after another from `n`.
pub open spec fn tagged_exps<T>(s: Seq<Exp<T>>, rs: Seq<Exp<u32>>, n: int) -> bool
    decreases s, 0nat, 0nat,
{
    rs.len() == s.len() && forall|j: int| 0 <= j < s.len() ==> tagged(s[j], rs[j], tag_end_exps(s, j, n))
}

pub open spec fn tagged_boxes<T>(s: Seq<Box<Exp<T>>>, rs: Seq<Box<Exp<u32>>>, n: int) -> bool
    decreases s, 0nat, 0nat,
{
    rs.len() == s.len() && forall|j: int| 0 <= j < s.len() ==> tagged(*s[j], *rs[j], tag_end_boxes(s, j, n))
}

pub open spec fn tagged_binds<T>(s: Seq<(String, Exp<T>)>, rs: Seq<(String, Exp<u32>)>, n: int) -> bool
    decreases s, 0nat, 0nat,
{
    rs.len() == s.len() && forall|j: int| 0 <= j < s.len() ==>
        rs[j].0 == s[j].0 && tagged(s[j].1, rs[j].1, tag_end_binds(s, j, n))
}

/// Each definition keeps its name and parameters, has its body numbered, and
/// is annotated with the counter after its body.
pub open spec fn tagged_decls<T>(s: Seq<FunDecl<Exp<T>, T>>, rs: Seq<FunDecl<Exp<u32>, u32>>, n: int) -> bool
    decreases s, 0nat, 0nat,
{
    rs.len() == s.len() && forall|j: int| 0 <= j < s.len() ==> {
        &&& rs[j].name == s[j].name
        &&& rs[j].parameters@ == s[j].parameters@
        &&& tagged(s[j].body, rs[j].body, tag_end_decls(s, j, n))
        &&& rs[j].ann == tag_end(s[j].body, tag_end_decls(s, j, n))
    }
}

// ---------------------------------------------------------------------------
// The counter only grows.

pub proof fn lemma_tag_end_grows<T>(e: Exp<T>, n: int)
    ensures
        tag_end(e, n) >= n,
    decreases e, 1nat, 0nat,
{
    match e {
        Exp::Prim(_, args, _) => lemma_boxes_grow(args@, args@.len() as int, n + 1),
        Exp::Let { bindings, body, .. } => {
            lemma_binds_grow(bindings@, bindings@.len() as int, n + 1);
            lemma_tag_end_grows(*body, tag_end_binds(bindings@, bindings@.len() as int, n + 1));
        },
        Exp::If { cond, thn, els, .. } => {
            lemma_tag_end_grows(*cond, n + 1);
            lemma_tag_end_grows(*thn, tag_end(*cond, n + 1));
            lemma_tag_end_grows(*els, tag_end(*thn, tag_end(*cond, n + 1)));
        },
        Exp::FunDefs { decls, body, .. } => {
            lemma_decls_grow(decls@, decls@.len() as int, n + 1);
            lemma_tag_end_grows(*body, tag_end_decls(decls@, decls@.len() as int, n + 1));
        },
        Exp::Lambda { body, .. } => lemma_tag_end_grows(*body, n + 1),
        Exp::MakeClosure { env, .. } => lemma_tag_end_grows(*env, n + 1),
        Exp::Call(f, args, _) => {
            lemma_exps_grow(args@, args@.len() as int, n + 1);
            lemma_tag_end_grows(*f, tag_end_exps(args@, args@.len() as int, n + 1) + 1);
        },
        Exp::ClosureCall(f, args, _) => {
            lemma_exps_grow(args@, args@.len() as int, n + 1);
            lemma_tag_end_grows(*f, tag_end_exps(args@, args@.len() as int, n + 1));
        },
        Exp::DirectCall(_, args, _) => lemma_exps_grow(args@, args@.len() as int, n + 1),
        Exp::InternalTailCall(_, args, _) => lemma_exps_grow(args@, args@.len() as int, n + 1),
        Exp::ExternalCall { args, .. } => lemma_exps_grow(args@, args@.len() as int, n + 1),
        _ => {},
    }
}

/// Along a list the counter grows, so every prefix ends below the whole list.
pub proof fn lemma_exps_grow<T>(s: Seq<Exp<T>>, i: int, n: int)
    ensures
        tag_end_exps(s, i, n) >= n,
        forall|j: int| 0 <= j <= i && i <= s.len() ==> tag_end_exps(s, j, n) <= tag_end_exps(s, i, n),
    decreases s, 0nat, i,
{
    if 0 < i <= s.len() {
        lemma_exps_grow(s, i - 1, n);
        lemma_tag_end_grows(s[i - 1], tag_end_exps(s, i - 1, n));
    }
}

pub proof fn lemma_boxes_grow<T>(s: Seq<Box<Exp<T>>>, i: int, n: int)
    ensures
        tag_end_boxes(s, i, n) >= n,
        forall|j: int| 0 <= j <= i && i <= s.len() ==> tag_end_boxes(s, j, n) <= tag_end_boxes(s, i, n),
    decreases s, 0nat, i,
{
    if 0 < i <= s.len() {
        lemma_boxes_grow(s, i - 1, n);
        lemma_tag_end_grows(*s[i - 1], tag_end_boxes(s, i - 1, n));
    }
}

pub proof fn lemma_binds_grow<T>(s: Seq<(String, Exp<T>)>, i: int, n: int)
    ensures
        tag_end_binds(s, i, n) >= n,
        forall|j: int| 0 <= j <= i && i <= s.len() ==> tag_end_binds(s, j, n) <= tag_end_binds(s, i, n),
    decreases s, 0nat, i,
{
    if 0 < i <= s.len() {
        lemma_binds_grow(s, i - 1, n);
        lemma_tag_end_grows(s[i - 1].1, tag_end_binds(s, i - 1, n));
    }
}

pub proof fn lemma_decls_grow<T>(s: Seq<FunDecl<Exp<T>, T>>, i: int, n: int)
    ensures
        tag_end_decls(s, i, n) >= n,
        forall|j: int| 0 <= j <= i && i <= s.len() ==> tag_end_decls(s, j, n) <= tag_end_decls(s, i, n),
    decreases s, 0nat, i,
{
    if 0 < i <= s.len() {
        lemma_decls_grow(s, i - 1, n);
        lemma_tag_end_grows(s[i - 1].body, tag_end_decls(s, i - 1, n));
    }
}

// ---------------------------------------------------------------------------
// Numbering.

fn tag_exps<T>(s: &Vec<Exp<T>>, num: &mut u32) -> (r: Vec<Exp<u32>>)
    requires
        forall|j: int| 0 <= j < s@.len() ==> semicolon_free(#[trigger] s@[j]),
        tag_end_exps(s@, s@.len() as int, *old(num) as int) <= u32::MAX,
    ensures
        tagged_exps(s@, r@, *old(num) as int),
        *final(num) == tag_end_exps(s@, s@.len() as int, *old(num) as int),
    decreases s,
{
    let ghost n0 = *num as int;
    let mut out: Vec<Exp<u32>> = Vec::new();
    let mut k: usize = 0;
    while k < s.len()
        invariant
            k <= s@.len(),
            forall|j: int| 0 <= j < s@.len() ==> semicolon_free(#[trigger] s@[j]),
            tag_end_exps(s@, s@.len() as int, n0) <= u32::MAX,
            *num == tag_end_exps(s@, k as int, n0),
            out@.len() == k,
            forall|j: int| 0 <= j < k ==> tagged(s@[j], #[trigger] out@[j], tag_end_exps(s@, j, n0)),
        decreases s@.len() - k,
    {
        proof {
            lemma_exps_grow(s@, s@.len() as int, n0);
            lemma_exps_grow(s@, k + 1, n0);
        }
        let x = tag_exp_helper(&s[k], num);
        out.push(x);
        k = k + 1;
    }
    out
}

fn tag_boxes<T>(s: &Vec<Box<Exp<T>>>, num: &mut u32) -> (r: Vec<Box<Exp<u32>>>)
    requires
        forall|j: int| 0 <= j < s@.len() ==> semicolon_free(*#[trigger] s@[j]),
        tag_end_boxes(s@, s@.len() as int, *old(num) as int) <= u32::MAX,
    ensures
        tagged_boxes(s@, r@, *old(num) as int),
        *final(num) == tag_end_boxes(s@, s@.len() as int, *old(num) as int),
    decreases s,
{
    let ghost n0 = *num as int;
    let mut out: Vec<Box<Exp<u32>>> = Vec::new();
    let mut k: usize = 0;
    while k < s.len()
        invariant
            k <= s@.len(),
            forall|j: int| 0 <= j < s@.len() ==> semicolon_free(*#[trigger] s@[j]),
            tag_end_boxes(s@, s@.len() as int, n0) <= u32::MAX,
            *num == tag_end_boxes(s@, k as int, n0),
            out@.len() == k,
            forall|j: int| 0 <= j < k ==> tagged(*s@[j], *#[trigger] out@[j], tag_end_boxes(s@, j, n0)),
        decreases s@.len() - k,
    {
        proof {
            lemma_boxes_grow(s@, s@.len() as int, n0);
            lemma_boxes_grow(s@, k + 1, n0);
        }
        let x = tag_exp_helper(&s[k], num);
        out.push(Box::new(x));
        k = k + 1;
    }
    out
}

fn tag_binds<T>(s: &Vec<(String, Exp<T>)>, num: &mut u32) -> (r: Vec<(String, Exp<u32>)>)
    requires
        forall|j: int| 0 <= j < s@.len() ==> semicolon_free(#[trigger] s@[j].1),
        tag_end_binds(s@, s@.len() as int, *old(num) as int) <= u32::MAX,
    ensures
        tagged_binds(s@, r@, *old(num) as int),
        *final(num) == tag_end_binds(s@, s@.len() as int, *old(num) as int),
    decreases s,
{
    let ghost n0 = *num as int;
    let mut out: Vec<(String, Exp<u32>)> = Vec::new();
    let mut k: usize = 0;
    while k < s.len()
        invariant
            k <= s@.len(),
            forall|j: int| 0 <= j < s@.len() ==> semicolon_free(#[trigger] s@[j].1),
            tag_end_binds(s@, s@.len() as int, n0) <= u32::MAX,
            *num == tag_end_binds(s@, k as int, n0),
            out@.len() == k,
            forall|j: int| 0 <= j < k ==> (#[trigger] out@[j]).0 == s@[j].0
                && tagged(s@[j].1, out@[j].1, tag_end_binds(s@, j, n0)),
        decreases s@.len() - k,
    {
        proof {
            lemma_binds_grow(s@, s@.len() as int, n0);
            lemma_binds_grow(s@, k + 1, n0);
        }
        let x = tag_exp_helper(&s[k].1, num);
        out.push((s[k].0.clone(), x));
        k = k + 1;
    }
    out
}

fn tag_decls<T>(s: &Vec<FunDecl<Exp<T>, T>>, num: &mut u32) -> (r: Vec<FunDecl<Exp<u32>, u32>>)
    requires
        forall|j: int| 0 <= j < s@.len() ==> semicolon_free(#[trigger] s@[j].body),
        tag_end_decls(s@, s@.len() as int, *old(num) as int) <= u32::MAX,
    ensures
        tagged_decls(s@, r@, *old(num) as int),
        *final(num) == tag_end_decls(s@, s@.len() as int, *old(num) as int),
    decreases s,
{
    let ghost n0 = *num as int;
    let mut out: Vec<FunDecl<Exp<u32>, u32>> = Vec::new();
    let mut k: usize = 0;
    while k < s.len()
        invariant
            k <= s@.len(),
            forall|j: int| 0 <= j < s@.len() ==> semicolon_free(#[trigger] s@[j].body),
            tag_end_decls(s@, s@.len() as int, n0) <= u32::MAX,
            *num == tag_end_decls(s@, k as int, n0),
            out@.len() == k,
            forall|j: int| 0 <= j < k ==> {
                &&& (#[trigger] out@[j]).name == s@[j].name
                &&& out@[j].parameters@ == s@[j].parameters@
                &&& tagged(s@[j].body, out@[j].body, tag_end_decls(s@, j, n0))
                &&& out@[j].ann == tag_end(s@[j].body, tag_end_decls(s@, j, n0))
            },
        decreases s@.len() - k,
    {
        proof {
            lemma_decls_grow(s@, s@.len() as int, n0);
            lemma_decls_grow(s@, k + 1, n0);
        }
        let decl = &s[k];
        let body = tag_exp_helper(&decl.body, num);
        let ann = *num;
        *num = *num + 1;
        out.push(FunDecl { name: decl.name.clone(), parameters: copy_names(&decl.parameters), body, ann });
        k = k + 1;
    }
    out
}

#[verifier::loop_isolation(false)]
fn tag_exp_helper<T>(e: &Exp<T>, num: &mut u32) -> (r: Exp<u32>)
    requires
        semicolon_free(*e),
        tag_end(*e, *old(num) as int) <= u32::MAX,
    ensures
        tagged(*e, r, *old(num) as int),
        *final(num) == tag_end(*e, *old(num) as int),
    decreases e,
{
    proof {
        lemma_tag_end_grows(*e, *num as int);
    }
    match e {
        Exp::Num(n, _) => Exp::Num(*n, *num),
        Exp::Float(f, _) => Exp::Float(*f, *num),
        Exp::Var(name, _) => Exp::Var(name.clone(), *num),
        Exp::Bool(b, _) => Exp::Bool(*b, *num),
        Exp::Prim(pr, exp_lst, _) => {
            proof { lemma_boxes_grow(exp_lst@, exp_lst@.len() as int, *num + 1); }
            let tag = *num;
            *num = *num + 1;
            let tag_exp_lst = tag_boxes(exp_lst, num);
            Exp::Prim(*pr, tag_exp_lst, tag)
        },
        Exp::Let { bindings, body, .. } => {
            proof {
                lemma_binds_grow(bindings@, bindings@.len() as int, *num + 1);
                lemma_tag_end_grows(**body, tag_end_binds(bindings@, bindings@.len() as int, *num + 1));
            }
            let tag = *num;
            *num = *num + 1;
            let tag_bindings = tag_binds(bindings, num);
            let new_body = tag_exp_helper(body, num);
            Exp::Let { bindings: tag_bindings, body: Box::new(new_body), ann: tag }
        },
        Exp::If { cond, thn, els, .. } => {
            proof {
                lemma_tag_end_grows(**cond, *num + 1);
                lemma_tag_end_grows(**thn, tag_end(**cond, *num + 1));
                lemma_tag_end_grows(**els, tag_end(**thn, tag_end(**cond, *num + 1)));
            }
            let tag = *num;
            *num = *num + 1;
            let c = tag_exp_helper(cond, num);
            let t = tag_exp_helper(thn, num);
            let f = tag_exp_helper(els, num);
            Exp::If { cond: Box::new(c), thn: Box::new(t), els: Box::new(f), ann: tag }
        },
        Exp::FunDefs { decls, body, .. } => {
            proof {
                lemma_decls_grow(decls@, decls@.len() as int, *num + 1);
                lemma_tag_end_grows(**body, tag_end_decls(decls@, decls@.len() as int, *num + 1));
            }
            let tag = *num;
            *num = *num + 1;
            let tag_ds = tag_decls(decls, num);
            let new_body = tag_exp_helper(body, num);
            Exp::FunDefs { decls: tag_ds, body: Box::new(new_body), ann: tag }
        },
        Exp::Call(name, args, ..) => {
            proof {
                lemma_exps_grow(args@, args@.len() as int, *num + 1);
                lemma_tag_end_grows(**name, tag_end_exps(args@, args@.len() as int, *num + 1) + 1);
            }
            let tag = *num;
            *num = *num + 1;
            let tag_args = tag_exps(args, num);
            *num = *num + 1;
            let f = tag_exp_helper(name, num);
            Exp::Call(Box::new(f), tag_args, tag)
        },
        Exp::ExternalCall { fun, args, is_tail, .. } => {
            proof { lemma_exps_grow(args@, args@.len() as int, *num + 1); }
            let tag = *num;
            *num = *num + 1;
            let tag_args = tag_exps(args, num);
            Exp::ExternalCall { fun: copy_target(fun), args: tag_args, is_tail: *is_tail, ann: tag }
        },
        Exp::InternalTailCall(name, args, ..) => {
            proof { lemma_exps_grow(args@, args@.len() as int, *num + 1); }
            let tag = *num;
            *num = *num + 1;
            let tag_args = tag_exps(args, num);
            Exp::InternalTailCall(name.clone(), tag_args, tag)
        },
        Exp::ClosureCall(fun, args, ..) => {
            proof {
                lemma_exps_grow(args@, args@.len() as int, *num + 1);
                lemma_tag_end_grows(**fun, tag_end_exps(args@, args@.len() as int, *num + 1));
            }
            let tag = *num;
            *num = *num + 1;
            let tag_args = tag_exps(args, num);
            let f = tag_exp_helper(fun, num);
            Exp::ClosureCall(Box::new(f), tag_args, tag)
        },
        Exp::DirectCall(fun, args, ..) => {
            proof { lemma_exps_grow(args@, args@.len() as int, *num + 1); }
            let tag = *num;
            *num = *num + 1;
            let tag_args = tag_exps(args, num);
            Exp::DirectCall(fun.clone(), tag_args, tag)
        },
        Exp::Lambda { parameters, body, .. } => {
            proof { lemma_tag_end_grows(**body, *num + 1); }
            let tag = *num;
            *num = *num + 1;
            let new_body = tag_exp_helper(body, num);
            Exp::Lambda { parameters: copy_names(parameters), body: Box::new(new_body), ann: tag }
        },
        Exp::MakeClosure { arity, label, env, .. } => {
            proof { lemma_tag_end_grows(**env, *num + 1); }
            let tag = *num;
            *num = *num + 1;
            let new_env = tag_exp_helper(env, num);
            Exp::MakeClosure { arity: *arity, label: label.clone(), env: Box::new(new_env), ann: tag }
        },
        Exp::Semicolon { .. } => {
            proof { assert(false); }
            Exp::Num(0, 0)
        },
    }
}

/// Numbers `e` from zero.
pub fn tag_exp<T>(e: &Exp<T>) -> (r: Exp<u32>)
    requires
        semicolon_free(*e),
        tag_end(*e, 0) <= u32::MAX,
    ensures
        tagged(*e, r, 0),
{
    let mut num: u32 = 0;
    tag_exp_helper(e, &mut num)
}


// ---------------------------------------------------------------------------
// Numbering sequential expressions: here every node, leaves too, moves the
// counter on by one.

/// The counter after numbering the sequential expression `e` from `n`.
pub open spec fn seq_tag_end<T>(e: SeqExp<T>, n: int) -> int
    decreases e, 1nat, 0nat,
{
    match e {
        SeqExp::Let { bound_exp, body, .. } => seq_tag_end(*body, seq_tag_end(*bound_exp, n + 1)),
        SeqExp::If { thn, els, .. } => seq_tag_end(*els, seq_tag_end(*thn, n + 1)),
        SeqExp::FunDefs { decls, body, .. } => seq_tag_end(*body, seq_tag_end_decls(decls@, decls@.len() as int, n + 1)),
        SeqExp::Semicolon { .. } => n,
        _ => n + 1,
    }
}

/// Each definition takes the counter after its body, then the counter moves on.
pub open spec fn seq_tag_end_decls<T>(s: Seq<FunDecl<SeqExp<T>, T>>, i: int, n: int) -> int
    decreases s, 0nat, i,
{
    if i <= 0 || i > s.len() { n } else { seq_tag_end(s[i - 1].body, seq_tag_end_decls(s, i - 1, n)) + 1 }
}

/// `r` is the sequential expression `e` numbered from `n`.
pub open spec fn seq_tagged<T>(e: SeqExp<T>, r: SeqExp<u32>, n: int) -> bool
    decreases e, 1nat, 0nat,
{
    match e {
        SeqExp::Imm(i, _) => r matches SeqExp::Imm(j, t) && i == j && t == n,
        SeqExp::Prim(p, args, _) => r matches SeqExp::Prim(q, ra, t) && p == q && ra@ == args@ && t == n,
        SeqExp::MakeClosure { arity, label, env, .. } => r matches SeqExp::MakeClosure { arity: ra, label: rl, env: renv, ann }
            && ra == arity && rl == label && renv == env && ann == n,
        SeqExp::Let { var, bound_exp, body, .. } => r matches SeqExp::Let { var: rv, bound_exp: rbe, body: rb, ann }
            && rv == var && ann == n && seq_tagged(*bound_exp, *rbe, n + 1)
            && seq_tagged(*body, *rb, seq_tag_end(*bound_exp, n + 1)),
        SeqExp::If { cond, thn, els, .. } => r matches SeqExp::If { cond: rc, thn: rt, els: re, ann }
            && rc == cond && ann == n && seq_tagged(*thn, *rt, n + 1)
            && seq_tagged(*els, *re, seq_tag_end(*thn, n + 1)),
        SeqExp::FunDefs { decls, body, .. } => r matches SeqExp::FunDefs { decls: rd, body: rb, ann } && ann == n
            && seq_tagged_decls(decls@, rd@, n + 1)
            && seq_tagged(*body, *rb, seq_tag_end_decls(decls@, decls@.len() as int, n + 1)),
        SeqExp::InternalTailCall(name, args, _) => r matches SeqExp::InternalTailCall(rn, ra, t)
            && rn == name && ra@ == args@ && t == n,
        SeqExp::ExternalCall { fun, args, is_tail, .. } => r matches SeqExp::ExternalCall { fun: rf, args: ra, is_tail: rt, ann }
            && rf == fun && ra@ == args@ && rt == is_tail && ann == n,
        SeqExp::Semicolon { .. } => false,
    }
}

/// Each definition keeps its name and parameters, has its body numbered, and
/// is annotated with the counter after its body.
pub open spec fn seq_tagged_decls<T>(s: Seq<FunDecl<SeqExp<T>, T>>, rs: Seq<FunDecl<SeqExp<u32>, u32>>, n: int) -> bool
    decreases s, 0nat, 0nat,
{
    rs.len() == s.len() && forall|j: int| 0 <= j < s.len() ==> {
        &&& rs[j].name == s[j].name
        &&& rs[j].parameters@ == s[j].parameters@
        &&& seq_tagged(s[j].body, rs[j].body, seq_tag_end_decls(s, j, n))
        &&& rs[j].ann == seq_tag_end(s[j].body, seq_tag_end_decls(s, j, n))
    }
}

pub proof fn lemma_seq_tag_end_grows<T>(e: SeqExp<T>, n: int)
    ensures
        seq_tag_end(e, n) >= n,
        !(e is Semicolon) ==> seq_tag_end(e, n) > n,
    decreases e, 1nat, 0nat,
{
    match e {
        SeqExp::Let { bound_exp, body, .. } => {
            lemma_seq_tag_end_grows(*bound_exp, n + 1);
            lemma_seq_tag_end_grows(*body, seq_tag_end(*bound_exp, n + 1));
        },
        SeqExp::If { thn, els, .. } => {
            lemma_seq_tag_end_grows(*thn, n + 1);
            lemma_seq_tag_end_grows(*els, seq_tag_end(*thn, n + 1));
        },
        SeqExp::FunDefs { decls, body, .. } => {
            lemma_seq_decls_grow(decls@, decls@.len() as int, n + 1);
            lemma_seq_tag_end_grows(*body, seq_tag_end_decls(decls@, decls@.len() as int, n + 1));
        },
        _ => {},
    }
}

pub proof fn lemma_seq_decls_grow<T>(s: Seq<FunDecl<SeqExp<T>, T>>, i: int, n: int)
    ensures
        seq_tag_end_decls(s, i, n) >= n,
        forall|j: int| 0 <= j <= i && i <= s.len() ==> seq_tag_end_decls(s, j, n) <= seq_tag_end_decls(s, i, n),
    decreases s, 0nat, i,
{
    if 0 < i <= s.len() {
        lemma_seq_decls_grow(s, i - 1, n);
        lemma_seq_tag_end_grows(s[i - 1].body, seq_tag_end_decls(s, i - 1, n));
    }
}

fn tag_seq_decls<T>(s: &Vec<FunDecl<SeqExp<T>, T>>, num: &mut u32) -> (r: Vec<FunDecl<SeqExp<u32>, u32>>)
    requires
        forall|j: int| 0 <= j < s@.len() ==> seq_semicolon_free(#[trigger] s@[j].body),
        seq_tag_end_decls(s@, s@.len() as int, *old(num) as int) <= u32::MAX,
    ensures
        seq_tagged_decls(s@, r@, *old(num) as int),
        *final(num) == seq_tag_end_decls(s@, s@.len() as int, *old(num) as int),
    decreases s,
{
    let ghost n0 = *num as int;
    let mut out: Vec<FunDecl<SeqExp<u32>, u32>> = Vec::new();
    let mut k: usize = 0;
    while k < s.len()
        invariant
            k <= s@.len(),
            forall|j: int| 0 <= j < s@.len() ==> seq_semicolon_free(#[trigger] s@[j].body),
            seq_tag_end_decls(s@, s@.len() as int, n0) <= u32::MAX,
            *num == seq_tag_end_decls(s@, k as int, n0),
            out@.len() == k,
            forall|j: int| 0 <= j < k ==> {
                &&& (#[trigger] out@[j]).name == s@[j].name
                &&& out@[j].parameters@ == s@[j].parameters@
                &&& seq_tagged(s@[j].body, out@[j].body, seq_tag_end_decls(s@, j, n0))
                &&& out@[j].ann == seq_tag_end(s@[j].body, seq_tag_end_decls(s@, j, n0))
            },
        decreases s@.len() - k,
    {
        proof {
            lemma_seq_decls_grow(s@, s@.len() as int, n0);
            lemma_seq_decls_grow(s@, k + 1, n0);
        }
        let decl = &s[k];
        let body = tag_seqexp_helper(&decl.body, num);
        let ann = *num;
        *num = *num + 1;
        out.push(FunDecl { name: decl.name.clone(), parameters: copy_names(&decl.parameters), body, ann });
        k = k + 1;
    }
    out
}

fn tag_seqexp_helper<T>(e: &SeqExp<T>, num: &mut u32) -> (r: SeqExp<u32>)
    requires
        seq_semicolon_free(*e),
        seq_tag_end(*e, *old(num) as int) <= u32::MAX,
    ensures
        seq_tagged(*e, r, *old(num) as int),
        *final(num) == seq_tag_end(*e, *old(num) as int),
    decreases e,
{
    proof {
        lemma_seq_tag_end_grows(*e, *num as int);
    }
    match e {
        SeqExp::Imm(imm, _) => {
            let tag = *num;
            *num = *num + 1;
            SeqExp::Imm(copy_imm(imm), tag)
        },
        SeqExp::Prim(pr, exp_lst, _) => {
            let tag = *num;
            *num = *num + 1;
            SeqExp::Prim(*pr, copy_imms(exp_lst), tag)
        },
        SeqExp::Let { var, bound_exp, body, .. } => {
            proof {
                lemma_seq_tag_end_grows(**bound_exp, *num + 1);
                lemma_seq_tag_end_grows(**body, seq_tag_end(**bound_exp, *num + 1));
            }
            let tag = *num;
            *num = *num + 1;
            let b = tag_seqexp_helper(bound_exp, num);
            let rest = tag_seqexp_helper(body, num);
            SeqExp::Let { var: var.clone(), bound_exp: Box::new(b), body: Box::new(rest), ann: tag }
        },
        SeqExp::If { cond, thn, els, .. } => {
            proof {
                lemma_seq_tag_end_grows(**thn, *num + 1);
                lemma_seq_tag_end_grows(**els, seq_tag_end(**thn, *num + 1));
            }
            let tag = *num;
            *num = *num + 1;
            let t = tag_seqexp_helper(thn, num);
            let f = tag_seqexp_helper(els, num);
            SeqExp::If { cond: copy_imm(cond), thn: Box::new(t), els: Box::new(f), ann: tag }
        },
        SeqExp::FunDefs { decls, body, .. } => {
            proof {
                lemma_seq_decls_grow(decls@, decls@.len() as int, *num + 1);
                lemma_seq_tag_end_grows(**body, seq_tag_end_decls(decls@, decls@.len() as int, *num + 1));
            }
            let tag = *num;
            *num = *num + 1;
            let ds = tag_seq_decls(decls, num);
            let rest = tag_seqexp_helper(body, num);
            SeqExp::FunDefs { decls: ds, body: Box::new(rest), ann: tag }
        },
        SeqExp::ExternalCall { fun, args, is_tail, .. } => {
            let tag = *num;
            *num = *num + 1;
            SeqExp::ExternalCall { fun: copy_target(fun), args: copy_imms(args), is_tail: *is_tail, ann: tag }
        },
        SeqExp::InternalTailCall(name, args, ..) => {
            let tag = *num;
            *num = *num + 1;
            SeqExp::InternalTailCall(name.clone(), copy_imms(args), tag)
        },
        SeqExp::MakeClosure { arity, label, env, .. } => {
            let tag = *num;
            *num = *num + 1;
            SeqExp::MakeClosure { arity: *arity, label: label.clone(), env: copy_imm(env), ann: tag }
        },
        SeqExp::Semicolon { .. } => {
            proof { assert(false); }
            SeqExp::Imm(crate::syntax::ImmExp::Num(0), 0)
        },
    }
}

/// Numbers the sequential expression `e` from zero.
pub fn tag_seqexp<T>(e: &SeqExp<T>) -> (r: SeqExp<u32>)
    requires
        seq_semicolon_free(*e),
        seq_tag_end(*e, 0) <= u32::MAX,
    ensures
        seq_tagged(*e, r, 0),
{
    let mut num: u32 = 0;
    tag_seqexp_helper(e, &mut num)
}

/// The counter after numbering the functions of `p` and then its main body.
pub open spec fn prog_tag_end<T>(p: SeqProg<T>) -> int {
    seq_tag_end(p.main, seq_tag_end_decls(p.funs@, p.funs@.len() as int, 0))
}

/// Numbers a program: its functions in order, then its main body; the
/// program itself takes the final counter.
pub fn tag_prog<T>(p: SeqProg<T>) -> (r: SeqProg<u32>)
    requires
        forall|j: int| 0 <= j < p.funs@.len() ==> seq_semicolon_free(#[trigger] p.funs@[j].body),
        seq_semicolon_free(p.main),
        prog_tag_end(p) <= u32::MAX,
    ensures
        seq_tagged_decls(p.funs@, r.funs@, 0),
        seq_tagged(p.main, r.main, seq_tag_end_decls(p.funs@, p.funs@.len() as int, 0)),
        r.ann == prog_tag_end(p),
{
    proof {
        lemma_seq_decls_grow(p.funs@, p.funs@.len() as int, 0);
        lemma_seq_tag_end_grows(p.main, seq_tag_end_decls(p.funs@, p.funs@.len() as int, 0));
    }
    let mut num: u32 = 0;
    let tag_funs = tag_seq_decls(&p.funs, &mut num);
    let main = tag_seqexp_helper(&p.main, &mut num);
    SeqProg { funs: tag_funs, main, ann: num }
}


// ---------------------------------------------------------------------------
// Laws.

/// Numbering changes nothing but the annotations: the numbered expression
/// has the shape of the expression it numbers.
pub proof fn lemma_tag_keeps_shape<T>(e: Exp<T>, r: Exp<u32>, n: int)
    requires
        tagged(e, r, n),
    ensures
        same_shape(e, r),
    decreases e,
{
    match e {
        Exp::Prim(_, args, _) => {
            let ra = r->Prim_1;
            assert(tagged_boxes(args@, ra@, n + 1));
            assert forall|j: int| 0 <= j < args@.len() implies same_shape(*args@[j], *ra@[j]) by {
                lemma_tag_keeps_shape(*args@[j], *ra@[j], tag_end_boxes(args@, j, n + 1));
            }
        },
        Exp::Let { bindings, body, .. } => {
            let rb = r->Let_bindings;
            assert(tagged_binds(bindings@, rb@, n + 1));
            assert forall|j: int| 0 <= j < bindings@.len() implies
                bindings@[j].0@ == rb@[j].0@ && same_shape(bindings@[j].1, rb@[j].1) by {
                lemma_tag_keeps_shape(bindings@[j].1, rb@[j].1, tag_end_binds(bindings@, j, n + 1));
            }
            lemma_tag_keeps_shape(*body, *r->Let_body, tag_end_binds(bindings@, bindings@.len() as int, n + 1));
        },
        Exp::If { cond, thn, els, .. } => {
            lemma_tag_keeps_shape(*cond, *r->If_cond, n + 1);
            lemma_tag_keeps_shape(*thn, *r->If_thn, tag_end(*cond, n + 1));
            lemma_tag_keeps_shape(*els, *r->If_els, tag_end(*thn, tag_end(*cond, n + 1)));
        },
        Exp::FunDefs { decls, body, .. } => {
            let rd = r->FunDefs_decls;
            assert(tagged_decls(decls@, rd@, n + 1));
            assert forall|j: int| 0 <= j < decls@.len() implies
                decls@[j].name@ == rd@[j].name@
                && same_names(decls@[j].parameters@, rd@[j].parameters@)
                && same_shape(decls@[j].body, rd@[j].body) by {
                lemma_tag_keeps_shape(decls@[j].body, rd@[j].body, tag_end_decls(decls@, j, n + 1));
            }
            lemma_tag_keeps_shape(*body, *r->FunDefs_body, tag_end_decls(decls@, decls@.len() as int, n + 1));
        },
        Exp::Lambda { body, .. } => lemma_tag_keeps_shape(*body, *r->Lambda_body, n + 1),
        Exp::MakeClosure { env, .. } => lemma_tag_keeps_shape(*env, *r->MakeClosure_env, n + 1),
        Exp::Call(f, args, _) => {
            let ra = r->Call_1;
            assert(tagged_exps(args@, ra@, n + 1));
            assert forall|j: int| 0 <= j < args@.len() implies same_shape(args@[j], ra@[j]) by {
                lemma_tag_keeps_shape(args@[j], ra@[j], tag_end_exps(args@, j, n + 1));
            }
            lemma_tag_keeps_shape(*f, *r->Call_0, tag_end_exps(args@, args@.len() as int, n + 1) + 1);
        },
        Exp::ClosureCall(f, args, _) => {
            let ra = r->ClosureCall_1;
            assert(tagged_exps(args@, ra@, n + 1));
            assert forall|j: int| 0 <= j < args@.len() implies same_shape(args@[j], ra@[j]) by {
                lemma_tag_keeps_shape(args@[j], ra@[j], tag_end_exps(args@, j, n + 1));
            }
            lemma_tag_keeps_shape(*f, *r->ClosureCall_0, tag_end_exps(args@, args@.len() as int, n + 1));
        },
        Exp::DirectCall(_, args, _) => {
            let ra = r->DirectCall_1;
            assert(tagged_exps(args@, ra@, n + 1));
            assert forall|j: int| 0 <= j < args@.len() implies same_shape(args@[j], ra@[j]) by {
                lemma_tag_keeps_shape(args@[j], ra@[j], tag_end_exps(args@, j, n + 1));
            }
        },
        Exp::InternalTailCall(_, args, _) => {
            let ra = r->InternalTailCall_1;
            assert(tagged_exps(args@, ra@, n + 1));
            assert forall|j: int| 0 <= j < args@.len() implies same_shape(args@[j], ra@[j]) by {
                lemma_tag_keeps_shape(args@[j], ra@[j], tag_end_exps(args@, j, n + 1));
            }
        },
        Exp::ExternalCall { fun, args, .. } => {
            let ra = r->ExternalCall_args;
            assert(tagged_exps(args@, ra@, n + 1));
            assert forall|j: int| 0 <= j < args@.len() implies same_shape(args@[j], ra@[j]) by {
                lemma_tag_keeps_shape(args@[j], ra@[j], tag_end_exps(args@, j, n + 1));
            }
        },
        _ => {},
    }
}

/// Numbering a sequential expression changes nothing but the annotations.
pub proof fn lemma_seq_tag_keeps_shape<T>(e: SeqExp<T>, r: SeqExp<u32>, n: int)
    requires
        seq_tagged(e, r, n),
    ensures
        same_seq_shape(e, r),
    decreases e,
{
    match e {
        SeqExp::Let { bound_exp, body, .. } => {
            lemma_seq_tag_keeps_shape(*bound_exp, *r->Let_bound_exp, n + 1);
            lemma_seq_tag_keeps_shape(*body, *r->Let_body, seq_tag_end(*bound_exp, n + 1));
        },
        SeqExp::If { thn, els, .. } => {
            lemma_seq_tag_keeps_shape(*thn, *r->If_thn, n + 1);
            lemma_seq_tag_keeps_shape(*els, *r->If_els, seq_tag_end(*thn, n + 1));
        },
        SeqExp::FunDefs { decls, body, .. } => {
            let rd = r->FunDefs_decls;
            assert(seq_tagged_decls(decls@, rd@, n + 1));
            assert forall|j: int| 0 <= j < decls@.len() implies
                decls@[j].name@ == rd@[j].name@
                && same_names(decls@[j].parameters@, rd@[j].parameters@)
                && same_seq_shape(decls@[j].body, rd@[j].body) by {
                lemma_seq_tag_keeps_shape(decls@[j].body, rd@[j].body, seq_tag_end_decls(decls@, j, n + 1));
            }
            lemma_seq_tag_keeps_shape(*body, *r->FunDefs_body, seq_tag_end_decls(decls@, decls@.len() as int, n + 1));
        },
        _ => {},
    }
}

// ---------------------------------------------------------------------------
// Whether numbering stays within the counter's range.

pub open spec fn within_u32(x: int) -> Option<u32> {
    if 0 <= x <= u32::MAX { Some(x as u32) } else { None }
}

fn next_tag(n: u32) -> (r: Option<u32>)
    ensures
        r == within_u32(n + 1),
{
    if n < u32::MAX { Some(n + 1) } else { None }
}

/// The counter after numbering `e` from `n`, if it stays within `u32`.
pub fn tag_end_within<T>(e: &Exp<T>, n: u32) -> (r: Option<u32>)
    ensures
        r == within_u32(tag_end(*e, n as int)),
    decreases e, 1nat,
{
    proof {
        lemma_tag_end_grows(*e, n as int);
    }
    match e {
        Exp::Num(..) | Exp::Float(..) | Exp::Bool(..) | Exp::Var(..) | Exp::Semicolon { .. } => Some(n),
        Exp::Prim(_, args, _) => {
            let m = match next_tag(n) { Some(m) => m, None => { proof { lemma_boxes_grow(args@, args@.len() as int, n + 1); } return None } };
            boxes_end_within(args, m)
        },
        Exp::Let { bindings, body, .. } => {
            let m = match next_tag(n) { Some(m) => m, None => {
                proof {
                    lemma_binds_grow(bindings@, bindings@.len() as int, n + 1);
                    lemma_tag_end_grows(**body, tag_end_binds(bindings@, bindings@.len() as int, n + 1));
                }
                return None
            } };
            let b = match binds_end_within(bindings, m) { Some(b) => b, None => {
                proof {
                    lemma_binds_grow(bindings@, bindings@.len() as int, n + 1);
                    lemma_tag_end_grows(**body, tag_end_binds(bindings@, bindings@.len() as int, n + 1));
                }
                return None
            } };
            tag_end_within(body, b)
        },
        Exp::If { cond, thn, els, .. } => {
            let m = match next_tag(n) { Some(m) => m, None => {
                proof {
                    lemma_tag_end_grows(**cond, n + 1);
                    lemma_tag_end_grows(**thn, tag_end(**cond, n + 1));
                    lemma_tag_end_grows(**els, tag_end(**thn, tag_end(**cond, n + 1)));
                }
                return None
            } };
            let c = match tag_end_within(cond, m) { Some(c) => c, None => {
                proof {
                    lemma_tag_end_grows(**cond, n + 1);
                    lemma_tag_end_grows(**thn, tag_end(**cond, n + 1));
                    lemma_tag_end_grows(**els, tag_end(**thn, tag_end(**cond, n + 1)));
                }
                return None
            } };
            let t = match tag_end_within(thn, c) { Some(t) => t, None => {
                proof {
                    lemma_tag_end_grows(**cond, n + 1);
                    lemma_tag_end_grows(**thn, tag_end(**cond, n + 1));
                    lemma_tag_end_grows(**els, tag_end(**thn, tag_end(**cond, n + 1)));
                }
                return None
            } };
            tag_end_within(els, t)
        },
        Exp::FunDefs { decls, body, .. } => {
            let m = match next_tag(n) { Some(m) => m, None => {
                proof {
                    lemma_decls_grow(decls@, decls@.len() as int, n + 1);
                    lemma_tag_end_grows(**body, tag_end_decls(decls@, decls@.len() as int, n + 1));
                }
                return None
            } };
            let d = match decls_end_within(decls, m) { Some(d) => d, None => {
                proof {
                    lemma_decls_grow(decls@, decls@.len() as int, n + 1);
                    lemma_tag_end_grows(**body, tag_end_decls(decls@, decls@.len() as int, n + 1));
                }
                return None
            } };
            tag_end_within(body, d)
        },
        Exp::Lambda { body, .. } => {
            let m = match next_tag(n) { Some(m) => m, None => { proof { lemma_tag_end_grows(**body, n + 1); } return None } };
            tag_end_within(body, m)
        },
        Exp::MakeClosure { env, .. } => {
            let m = match next_tag(n) { Some(m) => m, None => { proof { lemma_tag_end_grows(**env, n + 1); } return None } };
            tag_end_within(env, m)
        },
        Exp::Call(f, args, _) => {
            let m = match next_tag(n) { Some(m) => m, None => {
                proof {
                    lemma_exps_grow(args@, args@.len() as int, n + 1);
                    lemma_tag_end_grows(**f, tag_end_exps(args@, args@.len() as int, n + 1) + 1);
                }
                return None
            } };
            let a = match exps_end_within(args, m) { Some(a) => a, None => {
                proof {
                    lemma_exps_grow(args@, args@.len() as int, n + 1);
                    lemma_tag_end_grows(**f, tag_end_exps(args@, args@.len() as int, n + 1) + 1);
                }
                return None
            } };
            let a1 = match next_tag(a) { Some(a1) => a1, None => {
                proof { lemma_tag_end_grows(**f, tag_end_exps(args@, args@.len() as int, n + 1) + 1); }
                return None
            } };
            tag_end_within(f, a1)
        },
        Exp::ClosureCall(f, args, _) => {
            let m = match next_tag(n) { Some(m) => m, None => {
                proof {
                    lemma_exps_grow(args@, args@.len() as int, n + 1);
                    lemma_tag_end_grows(**f, tag_end_exps(args@, args@.len() as int, n + 1));
                }
                return None
            } };
            let a = match exps_end_within(args, m) { Some(a) => a, None => {
                proof {
                    lemma_exps_grow(args@, args@.len() as int, n + 1);
                    lemma_tag_end_grows(**f, tag_end_exps(args@, args@.len() as int, n + 1));
                }
                return None
            } };
            tag_end_within(f, a)
        },
        Exp::DirectCall(_, args, _) | Exp::InternalTailCall(_, args, _) | Exp::ExternalCall { args, .. } => {
            let m = match next_tag(n) { Some(m) => m, None => { proof { lemma_exps_grow(args@, args@.len() as int, n + 1); } return None } };
            exps_end_within(args, m)
        },
    }
}

fn boxes_end_within<T>(s: &Vec<Box<Exp<T>>>, n: u32) -> (r: Option<u32>)
    ensures
        r == within_u32(tag_end_boxes(s@, s@.len() as int, n as int)),
    decreases s, 0nat,
{
    proof { lemma_boxes_grow(s@, s@.len() as int, n as int); }
    let mut cur = n;
    let mut k: usize = 0;
    while k < s.len()
        invariant
            k <= s@.len(),
            cur == tag_end_boxes(s@, k as int, n as int),
            forall|j: int| 0 <= j <= s@.len() ==> #[trigger] tag_end_boxes(s@, j, n as int) <= tag_end_boxes(s@, s@.len() as int, n as int),
        decreases s@.len() - k,
    {
        proof { lemma_tag_end_grows(*s@[k as int], cur as int); }
        cur = match tag_end_within(&s[k], cur) { Some(c) => c, None => {
            proof { assert(tag_end_boxes(s@, k + 1, n as int) > u32::MAX); }
            return None
        } };
        k = k + 1;
    }
    Some(cur)
}

fn exps_end_within<T>(s: &Vec<Exp<T>>, n: u32) -> (r: Option<u32>)
    ensures
        r == within_u32(tag_end_exps(s@, s@.len() as int, n as int)),
    decreases s, 0nat,
{
    proof { lemma_exps_grow(s@, s@.len() as int, n as int); }
    let mut cur = n;
    let mut k: usize = 0;
    while k < s.len()
        invariant
            k <= s@.len(),
            cur == tag_end_exps(s@, k as int, n as int),
            forall|j: int| 0 <= j <= s@.len() ==> #[trigger] tag_end_exps(s@, j, n as int) <= tag_end_exps(s@, s@.len() as int, n as int),
        decreases s@.len() - k,
    {
        proof { lemma_tag_end_grows(s@[k as int], cur as int); }
        cur = match tag_end_within(&s[k], cur) { Some(c) => c, None => {
            proof { assert(tag_end_exps(s@, k + 1, n as int) > u32::MAX); }
            return None
        } };
        k = k + 1;
    }
    Some(cur)
}

fn binds_end_within<T>(s: &Vec<(String, Exp<T>)>, n: u32) -> (r: Option<u32>)
    ensures
        r == within_u32(tag_end_binds(s@, s@.len() as int, n as int)),
    decreases s, 0nat,
{
    proof { lemma_binds_grow(s@, s@.len() as int, n as int); }
    let mut cur = n;
    let mut k: usize = 0;
    while k < s.len()
        invariant
            k <= s@.len(),
            cur == tag_end_binds(s@, k as int, n as int),
            forall|j: int| 0 <= j <= s@.len() ==> #[trigger] tag_end_binds(s@, j, n as int) <= tag_end_binds(s@, s@.len() as int, n as int),
        decreases s@.len() - k,
    {
        proof { lemma_tag_end_grows(s@[k as int].1, cur as int); }
        cur = match tag_end_within(&s[k].1, cur) { Some(c) => c, None => {
            proof { assert(tag_end_binds(s@, k + 1, n as int) > u32::MAX); }
            return None
        } };
        k = k + 1;
    }
    Some(cur)
}

pub(crate) fn decls_end_within<T>(s: &Vec<FunDecl<Exp<T>, T>>, n: u32) -> (r: Option<u32>)
    ensures
        r == within_u32(tag_end_decls(s@, s@.len() as int, n as int)),
    decreases s, 0nat,
{
    proof { lemma_decls_grow(s@, s@.len() as int, n as int); }
    let mut cur = n;
    let mut k: usize = 0;
    while k < s.len()
        invariant
            k <= s@.len(),
            cur == tag_end_decls(s@, k as int, n as int),
            forall|j: int| 0 <= j <= s@.len() ==> #[trigger] tag_end_decls(s@, j, n as int) <= tag_end_decls(s@, s@.len() as int, n as int),
        decreases s@.len() - k,
    {
        proof { lemma_tag_end_grows(s@[k as int].body, cur as int); }
        let c = match tag_end_within(&s[k].body, cur) { Some(c) => c, None => {
            proof { assert(tag_end_decls(s@, k + 1, n as int) > u32::MAX); }
            return None
        } };
        cur = match next_tag(c) { Some(c1) => c1, None => {
            proof { assert(tag_end_decls(s@, k + 1, n as int) > u32::MAX); }
            return None
        } };
        k = k + 1;
    }
    Some(cur)
}

/// The counter after numbering the sequential expression `e` from `n`, if
/// it stays within `u32`.
pub fn seq_tag_end_within<T>(e: &SeqExp<T>, n: u32) -> (r: Option<u32>)
    ensures
        r == within_u32(seq_tag_end(*e, n as int)),
    decreases e, 1nat,
{
    proof {
        lemma_seq_tag_end_grows(*e, n as int);
    }
    match e {
        SeqExp::Let { bound_exp, body, .. } => {
            let m = match next_tag(n) { Some(m) => m, None => {
                proof {
                    lemma_seq_tag_end_grows(**bound_exp, n + 1);
                    lemma_seq_tag_end_grows(**body, seq_tag_end(**bound_exp, n + 1));
                }
                return None
            } };
            let b = match seq_tag_end_within(bound_exp, m) { Some(b) => b, None => {
                proof {
                    lemma_seq_tag_end_grows(**bound_exp, n + 1);
                    lemma_seq_tag_end_grows(**body, seq_tag_end(**bound_exp, n + 1));
                }
                return None
            } };
            seq_tag_end_within(body, b)
        },
        SeqExp::If { thn, els, .. } => {
            let m = match next_tag(n) { Some(m) => m, None => {
                proof {
                    lemma_seq_tag_end_grows(**thn, n + 1);
                    lemma_seq_tag_end_grows(**els, seq_tag_end(**thn, n + 1));
                }
                return None
            } };
            let t = match seq_tag_end_within(thn, m) { Some(t) => t, None => {
                proof {
                    lemma_seq_tag_end_grows(**thn, n + 1);
                    lemma_seq_tag_end_grows(**els, seq_tag_end(**thn, n + 1));
                }
                return None
            } };
            seq_tag_end_within(els, t)
        },
        SeqExp::FunDefs { decls, body, .. } => {
            let m = match next_tag(n) { Some(m) => m, None => {
                proof {
                    lemma_seq_decls_grow(decls@, decls@.len() as int, n + 1);
                    lemma_seq_tag_end_grows(**body, seq_tag_end_decls(decls@, decls@.len() as int, n + 1));
                }
                return None
            } };
            let d = match seq_decls_end_within(decls, m) { Some(d) => d, None => {
                proof {
                    lemma_seq_decls_grow(decls@, decls@.len() as int, n + 1);
                    lemma_seq_tag_end_grows(**body, seq_tag_end_decls(decls@, decls@.len() as int, n + 1));
                }
                return None
            } };
            seq_tag_end_within(body, d)
        },
        SeqExp::Semicolon { .. } => Some(n),
        _ => next_tag(n),
    }
}

pub fn seq_decls_end_within<T>(s: &Vec<FunDecl<SeqExp<T>, T>>, n: u32) -> (r: Option<u32>)
    ensures
        r == within_u32(seq_tag_end_decls(s@, s@.len() as int, n as int)),
    decreases s, 0nat,
{
    proof { lemma_seq_decls_grow(s@, s@.len() as int, n as int); }
    let mut cur = n;
    let mut k: usize = 0;
    while k < s.len()
        invariant
            k <= s@.len(),
            cur == seq_tag_end_decls(s@, k as int, n as int),
            forall|j: int| 0 <= j <= s@.len() ==> #[trigger] seq_tag_end_decls(s@, j, n as int) <= seq_tag_end_decls(s@, s@.len() as int, n as int),
        decreases s@.len() - k,
    {
        proof { lemma_seq_tag_end_grows(s@[k as int].body, cur as int); }
        let c = match seq_tag_end_within(&s[k].body, cur) { Some(c) => c, None => {
            proof { assert(seq_tag_end_decls(s@, k + 1, n as int) > u32::MAX); }
            return None
        } };
        cur = match next_tag(c) { Some(c1) => c1, None => {
            proof { assert(seq_tag_end_decls(s@, k + 1, n as int) > u32::MAX); }
            return None
        } };
        k = k + 1;
    }
    Some(cur)
}

/// Numbers a group of definitions as a group of definitions is numbered:
/// its node takes the counter 0, its definitions follow from 1.
pub fn tag_fun_decls<T>(s: &Vec<FunDecl<Exp<T>, T>>) -> (r: Vec<FunDecl<Exp<u32>, u32>>)
    requires
        forall|j: int| 0 <= j < s@.len() ==> semicolon_free(#[trigger] s@[j].body),
        tag_end_decls(s@, s@.len() as int, 1) <= u32::MAX,
    ensures
        tagged_decls(s@, r@, 1),
{
    let mut num: u32 = 1;
    tag_decls(s, &mut num)
}

} // verus!
