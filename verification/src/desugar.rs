//! Replacing `e1; e2` by a `let` that binds the value of `e1` to the name `()`.
use vstd::prelude::*;
use crate::syntax::{Exp, FunDecl, SurfProg};
use crate::shape::semicolon_free;
use crate::copy::{same_exp, copy_exp};
use crate::names::copy_names;

verus! {

/// Every form that desugaring visits is a surface form. The function part of
/// a call is copied as it is, not visited.
pub open spec fn desugar_ok<A>(e: Exp<A>) -> bool
    decreases e,
{
    match e {
        Exp::Num(..) | Exp::Float(..) | Exp::Bool(..) | Exp::Var(..) => true,
        Exp::Prim(_, args, _) => forall|j: int| 0 <= j < args@.len() ==> desugar_ok(*args@[j]),
        Exp::Let { bindings, body, .. } =>
            (forall|j: int| 0 <= j < bindings@.len() ==> desugar_ok(bindings@[j].1)) && desugar_ok(*body),
        Exp::If { cond, thn, els, .. } => desugar_ok(*cond) && desugar_ok(*thn) && desugar_ok(*els),
        Exp::Semicolon { e1, e2, .. } => desugar_ok(*e1) && desugar_ok(*e2),
        Exp::FunDefs { decls, body, .. } =>
            (forall|j: int| 0 <= j < decls@.len() ==> desugar_ok(decls@[j].body)) && desugar_ok(*body),
        Exp::Lambda { body, .. } => desugar_ok(*body),
        Exp::Call(_, args, _) => forall|j: int| 0 <= j < args@.len() ==> desugar_ok(args@[j]),
        _ => false,
    }
}

/// `r` is `e` with every visited `e1; e2` replaced by `let () = e1 in e2`.
/// Each definition keeps its own annotation.
pub open spec fn desugared<A>(e: Exp<A>, r: Exp<A>) -> bool
    decreases e,
{
    match e {
        Exp::Num(..) | Exp::Float(..) | Exp::Bool(..) | Exp::Var(..) => r == e,
        Exp::Prim(p, args, a) => r matches Exp::Prim(q, ra, b) && p == q && a == b && ra@.len() == args@.len()
            && forall|j: int| 0 <= j < args@.len() ==> desugared(*args@[j], *ra@[j]),
        Exp::Let { bindings, body, ann } => r matches Exp::Let { bindings: rb, body: rbody, ann: b } && ann == b
            && rb@.len() == bindings@.len()
            && (forall|j: int| 0 <= j < bindings@.len() ==> rb@[j].0 == bindings@[j].0 && desugared(bindings@[j].1, rb@[j].1))
            && desugared(*body, *rbody),
        Exp::If { cond, thn, els, ann } => r matches Exp::If { cond: rc, thn: rt, els: re, ann: b } && ann == b
            && desugared(*cond, *rc) && desugared(*thn, *rt) && desugared(*els, *re),
        Exp::Semicolon { e1, e2, ann } => r matches Exp::Let { bindings: rb, body: rbody, ann: b } && ann == b
            && rb@.len() == 1 && rb@[0].0@ == "()"@ && desugared(*e1, rb@[0].1) && desugared(*e2, *rbody),
        Exp::FunDefs { decls, body, ann } => r matches Exp::FunDefs { decls: rd, body: rbody, ann: b } && ann == b
            && rd@.len() == decls@.len()
            && (forall|j: int| 0 <= j < decls@.len() ==> rd@[j].name == decls@[j].name
                && rd@[j].parameters@ == decls@[j].parameters@ && rd@[j].ann == decls@[j].ann
                && desugared(decls@[j].body, rd@[j].body))
            && desugared(*body, *rbody),
        Exp::Lambda { parameters, body, ann } => r matches Exp::Lambda { parameters: rp, body: rb, ann: b }
            && ann == b && rp@ == parameters@ && desugared(*body, *rb),
        Exp::Call(f, args, a) => r matches Exp::Call(rf, ra, b) && a == b && same_exp(*f, *rf)
            && ra@.len() == args@.len() && forall|j: int| 0 <= j < args@.len() ==> desugared(args@[j], ra@[j]),
        _ => false,
    }
}

/// Replaces every `e1; e2` that it visits by `let () = e1 in e2`.
#[verifier::loop_isolation(false)]
pub fn desugar_semicolon<Ann: Copy>(p: &SurfProg<Ann>) -> (r: SurfProg<Ann>)
    requires
        desugar_ok(*p),
    ensures
        desugared(*p, r),
    decreases p,
{
    match p {
        Exp::Bool(b, ann) => Exp::Bool(*b, *ann),
        Exp::Num(n, ann) => Exp::Num(*n, *ann),
        Exp::Float(f, ann) => Exp::Float(*f, *ann),
        Exp::Var(name, ann) => Exp::Var(name.clone(), *ann),
        Exp::Prim(op, args, ann) => {
            let mut new_args: Vec<Box<Exp<Ann>>> = Vec::new();
            let mut k: usize = 0;
            while k < args.len()
                invariant
                    k <= args@.len(),
                    new_args@.len() == k,
                    forall|j: int| 0 <= j < k ==> desugared(*args@[j], *#[trigger] new_args@[j]),
                decreases args@.len() - k,
            {
                new_args.push(Box::new(desugar_semicolon(&args[k])));
                k = k + 1;
            }
            Exp::Prim(*op, new_args, *ann)
        },
        Exp::Let { bindings, body, ann } => {
            let mut new_bindings: Vec<(String, Exp<Ann>)> = Vec::new();
            let mut k: usize = 0;
            while k < bindings.len()
                invariant
                    k <= bindings@.len(),
                    new_bindings@.len() == k,
                    forall|j: int| 0 <= j < k ==> (#[trigger] new_bindings@[j]).0 == bindings@[j].0
                        && desugared(bindings@[j].1, new_bindings@[j].1),
                decreases bindings@.len() - k,
            {
                let new_exp = desugar_semicolon(&bindings[k].1);
                new_bindings.push((bindings[k].0.clone(), new_exp));
                k = k + 1;
            }
            let new_body = desugar_semicolon(body);
            Exp::Let { bindings: new_bindings, body: Box::new(new_body), ann: *ann }
        },
        Exp::If { cond, thn, els, ann } => {
            let new_cond = desugar_semicolon(cond);
            let new_then = desugar_semicolon(thn);
            let new_else = desugar_semicolon(els);
            Exp::If { cond: Box::new(new_cond), thn: Box::new(new_then), els: Box::new(new_else), ann: *ann }
        },
        Exp::FunDefs { decls, body, ann } => {
            let mut new_decls: Vec<FunDecl<Exp<Ann>, Ann>> = Vec::new();
            let mut k: usize = 0;
            while k < decls.len()
                invariant
                    k <= decls@.len(),
                    new_decls@.len() == k,
                    forall|j: int| 0 <= j < k ==> (#[trigger] new_decls@[j]).name == decls@[j].name
                        && new_decls@[j].parameters@ == decls@[j].parameters@ && new_decls@[j].ann == decls@[j].ann
                        && desugared(decls@[j].body, new_decls@[j].body),
                decreases decls@.len() - k,
            {
                let decl = &decls[k];
                let new_body = desugar_semicolon(&decl.body);
                new_decls.push(FunDecl { name: decl.name.clone(), parameters: copy_names(&decl.parameters), body: new_body, ann: decl.ann });
                k = k + 1;
            }
            let new_body = desugar_semicolon(body);
            Exp::FunDefs { decls: new_decls, body: Box::new(new_body), ann: *ann }
        },
        Exp::Call(name, args, is_tail) => {
            let mut new_args: Vec<Exp<Ann>> = Vec::new();
            let mut k: usize = 0;
            while k < args.len()
                invariant
                    k <= args@.len(),
                    new_args@.len() == k,
                    forall|j: int| 0 <= j < k ==> desugared(args@[j], #[trigger] new_args@[j]),
                decreases args@.len() - k,
            {
                new_args.push(desugar_semicolon(&args[k]));
                k = k + 1;
            }
            Exp::Call(Box::new(copy_exp(name)), new_args, *is_tail)
        },
        Exp::Lambda { parameters, body, ann } => {
            let new_body = desugar_semicolon(body);
            Exp::Lambda { parameters: copy_names(parameters), body: Box::new(new_body), ann: *ann }
        },
        Exp::Semicolon { e1, e2, ann } => {
            let first = desugar_semicolon(e1);
            let rest = desugar_semicolon(e2);
            let mut bindings: Vec<(String, Exp<Ann>)> = Vec::new();
            bindings.push((String::from_str("()"), first));
            Exp::Let { bindings, body: Box::new(rest), ann: *ann }
        },
        _ => {
            proof { assert(false); }
            Exp::Num(0, p.ann())
        },
    }
}


/// The function part of every call that desugaring visits is free of `;`.
pub open spec fn call_heads_semicolon_free<A>(e: Exp<A>) -> bool
    decreases e,
{
    match e {
        Exp::Prim(_, args, _) => forall|j: int| 0 <= j < args@.len() ==> call_heads_semicolon_free(*args@[j]),
        Exp::Let { bindings, body, .. } =>
            (forall|j: int| 0 <= j < bindings@.len() ==> call_heads_semicolon_free(bindings@[j].1))
            && call_heads_semicolon_free(*body),
        Exp::If { cond, thn, els, .. } =>
            call_heads_semicolon_free(*cond) && call_heads_semicolon_free(*thn) && call_heads_semicolon_free(*els),
        Exp::Semicolon { e1, e2, .. } => call_heads_semicolon_free(*e1) && call_heads_semicolon_free(*e2),
        Exp::FunDefs { decls, body, .. } =>
            (forall|j: int| 0 <= j < decls@.len() ==> call_heads_semicolon_free(decls@[j].body))
            && call_heads_semicolon_free(*body),
        Exp::Lambda { body, .. } => call_heads_semicolon_free(*body),
        Exp::Call(f, args, _) => semicolon_free(*f)
            && forall|j: int| 0 <= j < args@.len() ==> call_heads_semicolon_free(args@[j]),
        _ => true,
    }
}

/// A copy is free of `;` exactly when the expression it copies is.
pub proof fn lemma_copy_semicolon_free<A>(e: Exp<A>, r: Exp<A>)
    requires
        same_exp(e, r),
        semicolon_free(e),
    ensures
        semicolon_free(r),
    decreases e,
{
    match e {
        Exp::Prim(_, args, _) => {
            let ra = r->Prim_1;
            assert forall|j: int| 0 <= j < ra@.len() implies semicolon_free(*ra@[j]) by {
                lemma_copy_semicolon_free(*args@[j], *ra@[j]);
            }
        },
        Exp::Let { bindings, body, .. } => {
            let rb = r->Let_bindings;
            assert forall|j: int| 0 <= j < rb@.len() implies semicolon_free(rb@[j].1) by {
                lemma_copy_semicolon_free(bindings@[j].1, rb@[j].1);
            }
            lemma_copy_semicolon_free(*body, *r->Let_body);
        },
        Exp::If { cond, thn, els, .. } => {
            lemma_copy_semicolon_free(*cond, *r->If_cond);
            lemma_copy_semicolon_free(*thn, *r->If_thn);
            lemma_copy_semicolon_free(*els, *r->If_els);
        },
        Exp::FunDefs { decls, body, .. } => {
            let rd = r->FunDefs_decls;
            assert forall|j: int| 0 <= j < rd@.len() implies semicolon_free(rd@[j].body) by {
                lemma_copy_semicolon_free(decls@[j].body, rd@[j].body);
            }
            lemma_copy_semicolon_free(*body, *r->FunDefs_body);
        },
        Exp::Lambda { body, .. } => lemma_copy_semicolon_free(*body, *r->Lambda_body),
        Exp::MakeClosure { env, .. } => lemma_copy_semicolon_free(*env, *r->MakeClosure_env),
        Exp::Call(f, args, _) => {
            let ra = r->Call_1;
            assert forall|j: int| 0 <= j < ra@.len() implies semicolon_free(ra@[j]) by {
                lemma_copy_semicolon_free(args@[j], ra@[j]);
            }
            lemma_copy_semicolon_free(*f, *r->Call_0);
        },
        Exp::ClosureCall(f, args, _) => {
            let ra = r->ClosureCall_1;
            assert forall|j: int| 0 <= j < ra@.len() implies semicolon_free(ra@[j]) by {
                lemma_copy_semicolon_free(args@[j], ra@[j]);
            }
            lemma_copy_semicolon_free(*f, *r->ClosureCall_0);
        },
        Exp::DirectCall(_, args, _) => {
            let ra = r->DirectCall_1;
            assert forall|j: int| 0 <= j < ra@.len() implies semicolon_free(ra@[j]) by {
                lemma_copy_semicolon_free(args@[j], ra@[j]);
            }
        },
        Exp::InternalTailCall(_, args, _) => {
            let ra = r->InternalTailCall_1;
            assert forall|j: int| 0 <= j < ra@.len() implies semicolon_free(ra@[j]) by {
                lemma_copy_semicolon_free(args@[j], ra@[j]);
            }
        },
        Exp::ExternalCall { args, .. } => {
            let ra = r->ExternalCall_args;
            assert forall|j: int| 0 <= j < ra@.len() implies semicolon_free(ra@[j]) by {
                lemma_copy_semicolon_free(args@[j], ra@[j]);
            }
        },
        _ => {},
    }
}

/// Desugaring leaves no `;` behind, provided that none hides in the
/// function part of a call, which desugaring copies without visiting.
pub proof fn lemma_desugar_removes_semicolons<A>(e: Exp<A>, r: Exp<A>)
    requires
        desugared(e, r),
        call_heads_semicolon_free(e),
    ensures
        semicolon_free(r),
    decreases e,
{
    match e {
        Exp::Prim(_, args, _) => {
            let ra = r->Prim_1;
            assert forall|j: int| 0 <= j < ra@.len() implies semicolon_free(*ra@[j]) by {
                lemma_desugar_removes_semicolons(*args@[j], *ra@[j]);
            }
        },
        Exp::Let { bindings, body, .. } => {
            let rb = r->Let_bindings;
            assert forall|j: int| 0 <= j < rb@.len() implies semicolon_free(rb@[j].1) by {
                lemma_desugar_removes_semicolons(bindings@[j].1, rb@[j].1);
            }
            lemma_desugar_removes_semicolons(*body, *r->Let_body);
        },
        Exp::If { cond, thn, els, .. } => {
            lemma_desugar_removes_semicolons(*cond, *r->If_cond);
            lemma_desugar_removes_semicolons(*thn, *r->If_thn);
            lemma_desugar_removes_semicolons(*els, *r->If_els);
        },
        Exp::Semicolon { e1, e2, .. } => {
            let rb = r->Let_bindings;
            lemma_desugar_removes_semicolons(*e1, rb@[0].1);
            lemma_desugar_removes_semicolons(*e2, *r->Let_body);
        },
        Exp::FunDefs { decls, body, .. } => {
            let rd = r->FunDefs_decls;
            assert forall|j: int| 0 <= j < rd@.len() implies semicolon_free(rd@[j].body) by {
                lemma_desugar_removes_semicolons(decls@[j].body, rd@[j].body);
            }
            lemma_desugar_removes_semicolons(*body, *r->FunDefs_body);
        },
        Exp::Lambda { body, .. } => lemma_desugar_removes_semicolons(*body, *r->Lambda_body),
        Exp::Call(f, args, _) => {
            let ra = r->Call_1;
            assert forall|j: int| 0 <= j < ra@.len() implies semicolon_free(ra@[j]) by {
                lemma_desugar_removes_semicolons(args@[j], ra@[j]);
            }
            lemma_copy_semicolon_free(*f, *r->Call_0);
        },
        _ => {},
    }
}

} // verus!
