//! Programs that the check cannot tell apart: a copy and what it copies,
//! and any two desugarings of one program.
use vstd::prelude::*;
use crate::syntax::{Exp, FunDecl};
use crate::compile::CompileErr;
use crate::check::{
    binding_names, check_args_outcome, check_bindings_outcome, check_outcome, checkable, decl_names,
    duplicate_binding_err, duplicate_function_err, duplicate_param_err, env_lookup, fun_scope, let_scope,
    param_scope,
};
use crate::copy::same_exp;
use crate::desugar::desugared;
use crate::names::{first_repeat, texts};

verus! {

// ---------------------------------------------------------------------------
// Scopes.

/// Two scopes that bind the same texts to the same entries, in the same order.
pub open spec fn same_scope(a: Seq<(String, i32)>, b: Seq<(String, i32)>) -> bool {
    a.len() == b.len() && forall|j: int| 0 <= j < a.len() ==> (#[trigger] a[j]).0@ == b[j].0@ && a[j].1 == b[j].1
}

proof fn lemma_lookup_alike(a: Seq<(String, i32)>, b: Seq<(String, i32)>, name: Seq<char>)
    requires
        same_scope(a, b),
    ensures
        env_lookup(a, name) == env_lookup(b, name),
    decreases a.len(),
{
    if a.len() > 0 {
        assert(a.last() == a[a.len() - 1]);
        assert(b.last() == b[b.len() - 1]);
        assert(same_scope(a.drop_last(), b.drop_last())) by {
            assert forall|j: int| 0 <= j < a.drop_last().len() implies
                (#[trigger] a.drop_last()[j]).0@ == b.drop_last()[j].0@ && a.drop_last()[j].1 == b.drop_last()[j].1 by {
                assert(a.drop_last()[j] == a[j]);
                assert(b.drop_last()[j] == b[j]);
            }
        }
        lemma_lookup_alike(a.drop_last(), b.drop_last(), name);
    }
}

proof fn lemma_push_alike(a: Seq<(String, i32)>, b: Seq<(String, i32)>, p: (String, i32), q: (String, i32))
    requires
        same_scope(a, b),
        p.0@ == q.0@,
        p.1 == q.1,
    ensures
        same_scope(a.push(p), b.push(q)),
{
    assert forall|j: int| 0 <= j < a.push(p).len() implies
        (#[trigger] a.push(p)[j]).0@ == b.push(q)[j].0@ && a.push(p)[j].1 == b.push(q)[j].1 by {
        if j < a.len() {
            assert(a.push(p)[j] == a[j]);
            assert(b.push(q)[j] == b[j]);
        }
    }
}

proof fn lemma_let_scope_alike<A>(b1: Seq<(String, Exp<A>)>, b2: Seq<(String, Exp<A>)>, i: int,
    x: Seq<(String, i32)>, y: Seq<(String, i32)>)
    requires
        same_scope(x, y),
        i <= b1.len(),
        i <= b2.len(),
        forall|j: int| 0 <= j < i ==> (#[trigger] b1[j]).0@ == b2[j].0@,
    ensures
        same_scope(let_scope(b1, i, x), let_scope(b2, i, y)),
    decreases i,
{
    if i > 0 {
        lemma_let_scope_alike(b1, b2, i - 1, x, y);
        assert(b1[i - 1].0@ == b2[i - 1].0@);
        lemma_push_alike(let_scope(b1, i - 1, x), let_scope(b2, i - 1, y), (b1[i - 1].0, -1i32), (b2[i - 1].0, -1i32));
    }
}

/// Two lists of definitions with the same names, parameters and annotations.
pub open spec fn decls_alike<A>(d1: Seq<FunDecl<Exp<A>, A>>, d2: Seq<FunDecl<Exp<A>, A>>) -> bool {
    d1.len() == d2.len() && forall|j: int| 0 <= j < d1.len() ==> {
        &&& (#[trigger] d1[j]).name == d2[j].name
        &&& d1[j].parameters@ == d2[j].parameters@
        &&& d1[j].ann == d2[j].ann
    }
}

proof fn lemma_fun_scope_alike<A>(d1: Seq<FunDecl<Exp<A>, A>>, d2: Seq<FunDecl<Exp<A>, A>>, i: int,
    x: Seq<(String, i32)>, y: Seq<(String, i32)>)
    requires
        same_scope(x, y),
        decls_alike(d1, d2),
        i <= d1.len(),
    ensures
        same_scope(fun_scope(d1, i, x), fun_scope(d2, i, y)),
    decreases i,
{
    if i > 0 {
        lemma_fun_scope_alike(d1, d2, i - 1, x, y);
        assert(d1[i - 1].name == d2[i - 1].name);
        lemma_push_alike(fun_scope(d1, i - 1, x), fun_scope(d2, i - 1, y),
            (d1[i - 1].name, d1[i - 1].parameters@.len() as i32), (d2[i - 1].name, d2[i - 1].parameters@.len() as i32));
    }
}

proof fn lemma_param_scope_alike(ps: Seq<String>, i: int, x: Seq<(String, i32)>, y: Seq<(String, i32)>)
    requires
        same_scope(x, y),
    ensures
        same_scope(param_scope(ps, i, x), param_scope(ps, i, y)),
    decreases i,
{
    if i > 0 {
        lemma_param_scope_alike(ps, i - 1, x, y);
        lemma_push_alike(param_scope(ps, i - 1, x), param_scope(ps, i - 1, y), (ps[i - 1], -1i32), (ps[i - 1], -1i32));
    }
}

proof fn lemma_decls_errors_alike<A>(d1: Seq<FunDecl<Exp<A>, A>>, d2: Seq<FunDecl<Exp<A>, A>>)
    requires
        decls_alike(d1, d2),
    ensures
        duplicate_function_err(d1) == duplicate_function_err(d2),
        duplicate_param_err(d1) == duplicate_param_err(d2),
    decreases d1.len(),
{
    assert(decl_names(d1) =~= decl_names(d2)) by {
        assert forall|j: int| 0 <= j < d1.len() implies decl_names(d1)[j] == decl_names(d2)[j] by {
            assert(d1[j].name == d2[j].name);
        }
    }
    match first_repeat(decl_names(d1)) {
        Some(j) => {
            crate::names::lemma_first_repeat_bounds(decl_names(d1));
            assert(d1[j].name == d2[j].name);
        },
        None => {},
    }
    if d1.len() > 0 {
        assert(decls_alike(d1.drop_last(), d2.drop_last())) by {
            assert forall|j: int| 0 <= j < d1.drop_last().len() implies {
                &&& (#[trigger] d1.drop_last()[j]).name == d2.drop_last()[j].name
                &&& d1.drop_last()[j].parameters@ == d2.drop_last()[j].parameters@
                &&& d1.drop_last()[j].ann == d2.drop_last()[j].ann
            } by {
                assert(d1.drop_last()[j] == d1[j]);
                assert(d2.drop_last()[j] == d2[j]);
            }
        }
        lemma_decls_errors_alike(d1.drop_last(), d2.drop_last());
        assert(d1.last() == d1[d1.len() - 1]);
        assert(d2.last() == d2[d2.len() - 1]);
    }
}

proof fn lemma_binding_errs_alike<A>(b1: Seq<(String, Exp<A>)>, b2: Seq<(String, Exp<A>)>, a: A)
    requires
        b1.len() == b2.len(),
        forall|j: int| 0 <= j < b1.len() ==> (#[trigger] b1[j]).0 == b2[j].0,
    ensures
        duplicate_binding_err(b1, a) == duplicate_binding_err(b2, a),
{
    assert(binding_names(b1) =~= binding_names(b2)) by {
        assert forall|j: int| 0 <= j < b1.len() implies binding_names(b1)[j] == binding_names(b2)[j] by {
            assert(b1[j].0 == b2[j].0);
        }
    }
    match first_repeat(binding_names(b1)) {
        Some(j) => {
            crate::names::lemma_first_repeat_bounds(binding_names(b1));
            assert(b1[j].0 == b2[j].0);
        },
        None => {},
    }
}

// ---------------------------------------------------------------------------
// Expressions checked alike.

/// `a` and `b` are checked alike: one is checkable exactly when the other
/// is, and in scopes that bind the same texts both checks have one outcome.
pub open spec fn checked_alike<Span>(a: Exp<Span>, b: Exp<Span>) -> bool {
    &&& checkable(a) == checkable(b)
    &&& forall|x: Seq<(String, i32)>, y: Seq<(String, i32)>|
        same_scope(x, y) ==> #[trigger] check_outcome(a, x) == #[trigger] check_outcome(b, y)
}

proof fn lemma_same_scope_refl(x: Seq<(String, i32)>)
    ensures
        same_scope(x, x),
{
}

/// Two expressions checked alike with a third are checked alike.
proof fn lemma_alike_through<Span>(a: Exp<Span>, b: Exp<Span>, c: Exp<Span>)
    requires
        checked_alike(a, b),
        checked_alike(a, c),
    ensures
        checked_alike(b, c),
{
    assert forall|x: Seq<(String, i32)>, y: Seq<(String, i32)>| same_scope(x, y) implies
        #[trigger] check_outcome(b, x) == #[trigger] check_outcome(c, y) by {
        lemma_same_scope_refl(x);
        assert(check_outcome(a, x) == check_outcome(b, x));
        assert(check_outcome(a, x) == check_outcome(c, y));
    }
}

/// The arguments of two primitives, or of two calls, are pairwise checked alike.
pub open spec fn args_alike<Span>(e1: Exp<Span>, e2: Exp<Span>) -> bool {
    ||| e1 matches Exp::Prim(_, a1, _) && e2 matches Exp::Prim(_, a2, _) && a1@.len() == a2@.len()
        && forall|j: int| 0 <= j < a1@.len() ==> checked_alike(*a1@[j], #[trigger] *a2@[j])
    ||| e1 matches Exp::Call(_, a1, _) && e2 matches Exp::Call(_, a2, _) && a1@.len() == a2@.len()
        && forall|j: int| 0 <= j < a1@.len() ==> checked_alike(a1@[j], #[trigger] a2@[j])
}

proof fn lemma_args_alike<Span>(e1: Exp<Span>, e2: Exp<Span>, i: int, x: Seq<(String, i32)>, y: Seq<(String, i32)>)
    requires
        args_alike(e1, e2),
        same_scope(x, y),
    ensures
        check_args_outcome(e1, i, x) == check_args_outcome(e2, i, y),
    decreases i,
{
    if i > 0 {
        lemma_args_alike(e1, e2, i - 1, x, y);
        match e1 {
            Exp::Prim(_, a1, _) => {
                let a2 = e2->Prim_1;
                if i <= a1@.len() {
                    assert(checked_alike(*a1@[i - 1], *a2@[i - 1]));
                    assert(check_outcome(*a1@[i - 1], x) == check_outcome(*a2@[i - 1], y));
                }
            },
            Exp::Call(_, a1, _) => {
                let a2 = e2->Call_1;
                if i <= a1@.len() {
                    assert(checked_alike(a1@[i - 1], a2@[i - 1]));
                    assert(check_outcome(a1@[i - 1], x) == check_outcome(a2@[i - 1], y));
                }
            },
            _ => {},
        }
    }
}

/// The bindings of two `let`s bind the same texts, and their bound
/// expressions are pairwise checked alike.
pub open spec fn binds_alike<Span>(e1: Exp<Span>, e2: Exp<Span>) -> bool {
    e1 matches Exp::Let { bindings: b1, .. } && e2 matches Exp::Let { bindings: b2, .. } && b1@.len() == b2@.len()
        && forall|j: int| 0 <= j < b1@.len() ==> (#[trigger] b1@[j]).0@ == b2@[j].0@ && checked_alike(b1@[j].1, b2@[j].1)
}

proof fn lemma_binds_alike<Span>(e1: Exp<Span>, e2: Exp<Span>, i: int, x: Seq<(String, i32)>, y: Seq<(String, i32)>)
    requires
        binds_alike(e1, e2),
        same_scope(x, y),
    ensures
        check_bindings_outcome(e1, i, x) == check_bindings_outcome(e2, i, y),
    decreases i,
{
    if i > 0 {
        lemma_binds_alike(e1, e2, i - 1, x, y);
        let b1 = e1->Let_bindings;
        let b2 = e2->Let_bindings;
        if i <= b1@.len() {
            assert(b1@[i - 1].0@ == b2@[i - 1].0@);
            lemma_let_scope_alike(b1@, b2@, i - 1, x, y);
            let xs = let_scope(b1@, i - 1, x);
            let ys = let_scope(b2@, i - 1, y);
            assert(checked_alike(b1@[i - 1].1, b2@[i - 1].1));
            assert(check_outcome(b1@[i - 1].1, xs) == check_outcome(b2@[i - 1].1, ys));
        }
    }
}

/// Forms that the check does not take are checked alike with each other.
proof fn lemma_refused_alike<Span>(a: Exp<Span>, b: Exp<Span>)
    requires
        !checkable(a),
        !checkable(b),
        check_outcome(a, Seq::empty()) is None,
        a is Semicolon || a is MakeClosure || a is ClosureCall || a is DirectCall || a is InternalTailCall
            || a is ExternalCall || a is Float,
        b is Semicolon || b is MakeClosure || b is ClosureCall || b is DirectCall || b is InternalTailCall
            || b is ExternalCall || b is Float,
    ensures
        checked_alike(a, b),
{
}

/// A copy is checked alike with what it copies.
pub proof fn lemma_copy_alike<Span>(e: Exp<Span>, r: Exp<Span>)
    requires
        same_exp(e, r),
    ensures
        checked_alike(e, r),
    decreases e,
{
    match e {
        Exp::Var(name, _) => {
            assert forall|x: Seq<(String, i32)>, y: Seq<(String, i32)>| same_scope(x, y) implies
                #[trigger] check_outcome(e, x) == #[trigger] check_outcome(r, y) by {
                lemma_lookup_alike(x, y, name@);
            }
        },
        Exp::Prim(_, args, _) => {
            let ra = r->Prim_1;
            assert forall|j: int| 0 <= j < args@.len() implies checked_alike(*args@[j], #[trigger] *ra@[j]) by {
                lemma_copy_alike(*args@[j], *ra@[j]);
            }
            assert(args_alike(e, r));
            lemma_prim_alike(e, r);
        },
        Exp::Let { bindings, body, .. } => {
            let rb = r->Let_bindings;
            let rbody = r->Let_body;
            lemma_copy_alike(*body, *rbody);
            assert forall|j: int| 0 <= j < bindings@.len() implies
                (#[trigger] bindings@[j]).0@ == rb@[j].0@ && checked_alike(bindings@[j].1, rb@[j].1) by {
                lemma_copy_alike(bindings@[j].1, rb@[j].1);
            }
            assert(binds_alike(e, r));
            lemma_binding_errs_alike(bindings@, rb@, r->Let_ann);
            lemma_let_alike(e, r);
        },
        Exp::If { cond, thn, els, .. } => {
            lemma_copy_alike(*cond, *r->If_cond);
            lemma_copy_alike(*thn, *r->If_thn);
            lemma_copy_alike(*els, *r->If_els);
            lemma_if_alike(e, r);
        },
        Exp::FunDefs { decls, body, .. } => {
            lemma_copy_alike(*body, *r->FunDefs_body);
            let rd = r->FunDefs_decls;
            assert(decls_alike(decls@, rd@)) by {
                assert forall|j: int| 0 <= j < decls@.len() implies {
                    &&& (#[trigger] decls@[j]).name == rd@[j].name
                    &&& decls@[j].parameters@ == rd@[j].parameters@
                    &&& decls@[j].ann == rd@[j].ann
                } by {
                    assert(rd@[j].name == decls@[j].name);
                }
            }
            lemma_fun_defs_alike(e, r);
        },
        Exp::Lambda { body, .. } => {
            lemma_copy_alike(*body, *r->Lambda_body);
            lemma_lambda_alike(e, r);
        },
        Exp::Call(f, args, _) => {
            lemma_copy_alike(*f, *r->Call_0);
            let ra = r->Call_1;
            assert forall|j: int| 0 <= j < args@.len() implies checked_alike(args@[j], #[trigger] ra@[j]) by {
                lemma_copy_alike(args@[j], ra@[j]);
            }
            assert(args_alike(e, r));
            lemma_call_alike(e, r);
        },
        Exp::Num(..) | Exp::Bool(..) => {},
        _ => {
            lemma_refused_alike(e, r);
        },
    }
}

proof fn lemma_prim_alike<Span>(e: Exp<Span>, r: Exp<Span>)
    requires
        e is Prim,
        r is Prim,
        args_alike(e, r),
    ensures
        checked_alike(e, r),
{
    let a1 = e->Prim_1;
    let a2 = r->Prim_1;
    assert forall|x: Seq<(String, i32)>, y: Seq<(String, i32)>| same_scope(x, y) implies
        #[trigger] check_outcome(e, x) == #[trigger] check_outcome(r, y) by {
        lemma_args_alike(e, r, a1@.len() as int, x, y);
    }
    assert(checkable(e) == checkable(r)) by {
        if checkable(e) {
            assert forall|j: int| 0 <= j < a2@.len() implies checkable(*a2@[j]) by {
                assert(checked_alike(*a1@[j], *a2@[j]));
            }
        }
        if checkable(r) {
            assert forall|j: int| 0 <= j < a1@.len() implies checkable(*a1@[j]) by {
                assert(checked_alike(*a1@[j], *a2@[j]));
            }
        }
    }
}

proof fn lemma_let_alike<Span>(e: Exp<Span>, r: Exp<Span>)
    requires
        e is Let,
        binds_alike(e, r),
        r is Let,
        e->Let_ann == r->Let_ann,
        duplicate_binding_err(e->Let_bindings@, e->Let_ann) == duplicate_binding_err(r->Let_bindings@, e->Let_ann),
        checked_alike(*e->Let_body, *r->Let_body),
    ensures
        checked_alike(e, r),
{
    let b1 = e->Let_bindings;
    let b2 = r->Let_bindings;
    let n = b1@.len() as int;
    assert forall|x: Seq<(String, i32)>, y: Seq<(String, i32)>| same_scope(x, y) implies
        #[trigger] check_outcome(e, x) == #[trigger] check_outcome(r, y) by {
        lemma_binds_alike(e, r, n, x, y);
        assert forall|j: int| 0 <= j < n implies (#[trigger] b1@[j]).0@ == b2@[j].0@ by {}
        lemma_let_scope_alike(b1@, b2@, n, x, y);
        let xs = let_scope(b1@, n, x);
        let ys = let_scope(b2@, n, y);
        assert(check_outcome(*e->Let_body, xs) == check_outcome(*r->Let_body, ys));
    }
    assert(checkable(e) == checkable(r)) by {
        if checkable(e) {
            assert forall|j: int| 0 <= j < b2@.len() implies checkable(b2@[j].1) by {
                assert(checked_alike(b1@[j].1, b2@[j].1));
            }
        }
        if checkable(r) {
            assert forall|j: int| 0 <= j < b1@.len() implies checkable(b1@[j].1) by {
                assert(checked_alike(b1@[j].1, b2@[j].1));
            }
        }
    }
}

proof fn lemma_if_alike<Span>(e: Exp<Span>, r: Exp<Span>)
    requires
        e is If,
        r is If,
        checked_alike(*e->If_cond, *r->If_cond),
        checked_alike(*e->If_thn, *r->If_thn),
        checked_alike(*e->If_els, *r->If_els),
    ensures
        checked_alike(e, r),
{
    assert forall|x: Seq<(String, i32)>, y: Seq<(String, i32)>| same_scope(x, y) implies
        #[trigger] check_outcome(e, x) == #[trigger] check_outcome(r, y) by {
        assert(check_outcome(*e->If_cond, x) == check_outcome(*r->If_cond, y));
        assert(check_outcome(*e->If_thn, x) == check_outcome(*r->If_thn, y));
        assert(check_outcome(*e->If_els, x) == check_outcome(*r->If_els, y));
    }
}

proof fn lemma_fun_defs_alike<Span>(e: Exp<Span>, r: Exp<Span>)
    requires
        e is FunDefs,
        r is FunDefs,
        decls_alike(e->FunDefs_decls@, r->FunDefs_decls@),
        checked_alike(*e->FunDefs_body, *r->FunDefs_body),
    ensures
        checked_alike(e, r),
{
    let d1 = e->FunDefs_decls@;
    let d2 = r->FunDefs_decls@;
    lemma_decls_errors_alike(d1, d2);
    assert forall|x: Seq<(String, i32)>, y: Seq<(String, i32)>| same_scope(x, y) implies
        #[trigger] check_outcome(e, x) == #[trigger] check_outcome(r, y) by {
        lemma_fun_scope_alike(d1, d2, d1.len() as int, x, y);
        let xs = fun_scope(d1, d1.len() as int, x);
        let ys = fun_scope(d2, d2.len() as int, y);
        assert(check_outcome(*e->FunDefs_body, xs) == check_outcome(*r->FunDefs_body, ys));
    }
}

proof fn lemma_lambda_alike<Span>(e: Exp<Span>, r: Exp<Span>)
    requires
        e is Lambda,
        r is Lambda,
        e->Lambda_parameters@ == r->Lambda_parameters@,
        e->Lambda_ann == r->Lambda_ann,
        checked_alike(*e->Lambda_body, *r->Lambda_body),
    ensures
        checked_alike(e, r),
{
    let ps = e->Lambda_parameters@;
    assert forall|x: Seq<(String, i32)>, y: Seq<(String, i32)>| same_scope(x, y) implies
        #[trigger] check_outcome(e, x) == #[trigger] check_outcome(r, y) by {
        lemma_param_scope_alike(ps, ps.len() as int, x, y);
        let xs = param_scope(ps, ps.len() as int, x);
        let ys = param_scope(ps, ps.len() as int, y);
        assert(check_outcome(*e->Lambda_body, xs) == check_outcome(*r->Lambda_body, ys));
    }
}

proof fn lemma_call_alike<Span>(e: Exp<Span>, r: Exp<Span>)
    requires
        e is Call,
        r is Call,
        args_alike(e, r),
        checked_alike(*e->Call_0, *r->Call_0),
    ensures
        checked_alike(e, r),
{
    let a1 = e->Call_1;
    let a2 = r->Call_1;
    assert forall|x: Seq<(String, i32)>, y: Seq<(String, i32)>| same_scope(x, y) implies
        #[trigger] check_outcome(e, x) == #[trigger] check_outcome(r, y) by {
        lemma_args_alike(e, r, a1@.len() as int, x, y);
        assert(check_outcome(*e->Call_0, x) == check_outcome(*r->Call_0, y));
    }
    assert(checkable(e) == checkable(r)) by {
        if checkable(e) {
            assert forall|j: int| 0 <= j < a2@.len() implies checkable(a2@[j]) by {
                assert(checked_alike(a1@[j], a2@[j]));
            }
        }
        if checkable(r) {
            assert forall|j: int| 0 <= j < a1@.len() implies checkable(a1@[j]) by {
                assert(checked_alike(a1@[j], a2@[j]));
            }
        }
    }
}

// ---------------------------------------------------------------------------
// Larger scopes.

/// Every name that the scope `a` binds, the scope `b` binds too.
pub open spec fn scope_covers(a: Seq<(String, i32)>, b: Seq<(String, i32)>) -> bool {
    forall|name: Seq<char>| #[trigger] env_lookup(a, name) is Some ==> env_lookup(b, name) is Some
}

proof fn lemma_push_covers(a: Seq<(String, i32)>, b: Seq<(String, i32)>, p: (String, i32))
    requires
        scope_covers(a, b),
    ensures
        scope_covers(a.push(p), b.push(p)),
{
    assert(a.push(p).drop_last() =~= a);
    assert(b.push(p).drop_last() =~= b);
    assert forall|name: Seq<char>| #[trigger] env_lookup(a.push(p), name) is Some implies
        env_lookup(b.push(p), name) is Some by {
        if p.0@ != name {
            assert(env_lookup(a.push(p), name) == env_lookup(a, name));
            assert(env_lookup(b.push(p), name) == env_lookup(b, name));
        }
    }
}

proof fn lemma_let_scope_covers<A>(bs: Seq<(String, Exp<A>)>, i: int, a: Seq<(String, i32)>, b: Seq<(String, i32)>)
    requires
        scope_covers(a, b),
    ensures
        scope_covers(let_scope(bs, i, a), let_scope(bs, i, b)),
    decreases i,
{
    if i > 0 {
        lemma_let_scope_covers(bs, i - 1, a, b);
        lemma_push_covers(let_scope(bs, i - 1, a), let_scope(bs, i - 1, b), (bs[i - 1].0, -1i32));
    }
}

proof fn lemma_fun_scope_covers<A>(ds: Seq<FunDecl<Exp<A>, A>>, i: int, a: Seq<(String, i32)>, b: Seq<(String, i32)>)
    requires
        scope_covers(a, b),
    ensures
        scope_covers(fun_scope(ds, i, a), fun_scope(ds, i, b)),
    decreases i,
{
    if i > 0 {
        lemma_fun_scope_covers(ds, i - 1, a, b);
        lemma_push_covers(fun_scope(ds, i - 1, a), fun_scope(ds, i - 1, b),
            (ds[i - 1].name, ds[i - 1].parameters@.len() as i32));
    }
}

proof fn lemma_param_scope_covers(ps: Seq<String>, i: int, a: Seq<(String, i32)>, b: Seq<(String, i32)>)
    requires
        scope_covers(a, b),
    ensures
        scope_covers(param_scope(ps, i, a), param_scope(ps, i, b)),
    decreases i,
{
    if i > 0 {
        lemma_param_scope_covers(ps, i - 1, a, b);
        lemma_push_covers(param_scope(ps, i - 1, a), param_scope(ps, i - 1, b), (ps[i - 1], -1i32));
    }
}

/// A program that passes the check in a scope passes it in every scope that
/// binds at least the same names.
pub proof fn lemma_check_widen<Span>(e: Exp<Span>, a: Seq<(String, i32)>, b: Seq<(String, i32)>)
    requires
        scope_covers(a, b),
        check_outcome(e, a) matches Some(Ok(_)),
    ensures
        check_outcome(e, b) matches Some(Ok(_)),
    decreases e, 1nat, 0nat,
{
    match e {
        Exp::Var(name, _) => {
            assert(env_lookup(a, name@) is Some);
        },
        Exp::Prim(_, args, _) => lemma_args_widen(e, args@.len() as int, a, b),
        Exp::Let { bindings, body, .. } => {
            lemma_binds_widen(e, bindings@.len() as int, a, b);
            lemma_let_scope_covers(bindings@, bindings@.len() as int, a, b);
            lemma_check_widen(*body, let_scope(bindings@, bindings@.len() as int, a),
                let_scope(bindings@, bindings@.len() as int, b));
        },
        Exp::If { cond, thn, els, .. } => {
            lemma_check_widen(*cond, a, b);
            lemma_check_widen(*thn, a, b);
            lemma_check_widen(*els, a, b);
        },
        Exp::FunDefs { decls, body, .. } => {
            lemma_fun_scope_covers(decls@, decls@.len() as int, a, b);
            lemma_check_widen(*body, fun_scope(decls@, decls@.len() as int, a), fun_scope(decls@, decls@.len() as int, b));
        },
        Exp::Call(f, args, _) => {
            lemma_check_widen(*f, a, b);
            lemma_args_widen(e, args@.len() as int, a, b);
        },
        Exp::Lambda { parameters, body, .. } => {
            lemma_param_scope_covers(parameters@, parameters@.len() as int, a, b);
            lemma_check_widen(*body, param_scope(parameters@, parameters@.len() as int, a),
                param_scope(parameters@, parameters@.len() as int, b));
        },
        _ => {},
    }
}

proof fn lemma_args_widen<Span>(e: Exp<Span>, i: int, a: Seq<(String, i32)>, b: Seq<(String, i32)>)
    requires
        scope_covers(a, b),
        check_args_outcome(e, i, a) matches Some(Ok(_)),
    ensures
        check_args_outcome(e, i, b) matches Some(Ok(_)),
    decreases e, 0nat, i,
{
    if i > 0 {
        match e {
            Exp::Prim(_, args, _) => {
                lemma_args_widen(e, i - 1, a, b);
                lemma_check_widen(*args@[i - 1], a, b);
            },
            Exp::Call(_, args, _) => {
                lemma_args_widen(e, i - 1, a, b);
                lemma_check_widen(args@[i - 1], a, b);
            },
            _ => {},
        }
    }
}

proof fn lemma_binds_widen<Span>(e: Exp<Span>, i: int, a: Seq<(String, i32)>, b: Seq<(String, i32)>)
    requires
        scope_covers(a, b),
        check_bindings_outcome(e, i, a) matches Some(Ok(_)),
    ensures
        check_bindings_outcome(e, i, b) matches Some(Ok(_)),
    decreases e, 0nat, i,
{
    if i > 0 {
        match e {
            Exp::Let { bindings, .. } => {
                lemma_binds_widen(e, i - 1, a, b);
                lemma_let_scope_covers(bindings@, i - 1, a, b);
                lemma_check_widen(bindings@[i - 1].1, let_scope(bindings@, i - 1, a), let_scope(bindings@, i - 1, b));
            },
            _ => {},
        }
    }
}

// ---------------------------------------------------------------------------
// Desugarings.

/// Desugaring is determined as far as the check can tell: any two
/// desugarings of one program are checked alike.
pub proof fn lemma_desugar_alike<Span>(p: Exp<Span>, d1: Exp<Span>, d2: Exp<Span>)
    requires
        desugared(p, d1),
        desugared(p, d2),
    ensures
        checked_alike(d1, d2),
    decreases p,
{
    match p {
        Exp::Var(name, _) => {
            assert forall|x: Seq<(String, i32)>, y: Seq<(String, i32)>| same_scope(x, y) implies
                #[trigger] check_outcome(d1, x) == #[trigger] check_outcome(d2, y) by {
                lemma_lookup_alike(x, y, name@);
            }
        },
        Exp::Num(..) | Exp::Bool(..) => {},
        Exp::Float(..) => {
            lemma_refused_alike(d1, d2);
        },
        Exp::Prim(_, args, _) => {
            let r1 = d1->Prim_1;
            let r2 = d2->Prim_1;
            assert forall|j: int| 0 <= j < r1@.len() implies checked_alike(*r1@[j], #[trigger] *r2@[j]) by {
                lemma_desugar_alike(*args@[j], *r1@[j], *r2@[j]);
            }
            assert(args_alike(d1, d2));
            lemma_prim_alike(d1, d2);
        },
        Exp::Let { bindings, body, .. } => {
            let b1 = d1->Let_bindings;
            let b2 = d2->Let_bindings;
            lemma_desugar_alike(*body, *d1->Let_body, *d2->Let_body);
            assert forall|j: int| 0 <= j < b1@.len() implies
                (#[trigger] b1@[j]).0@ == b2@[j].0@ && checked_alike(b1@[j].1, b2@[j].1) by {
                lemma_desugar_alike(bindings@[j].1, b1@[j].1, b2@[j].1);
            }
            assert(binds_alike(d1, d2));
            lemma_binding_errs_alike(b1@, b2@, d1->Let_ann);
            lemma_let_alike(d1, d2);
        },
        Exp::If { cond, thn, els, .. } => {
            lemma_desugar_alike(*cond, *d1->If_cond, *d2->If_cond);
            lemma_desugar_alike(*thn, *d1->If_thn, *d2->If_thn);
            lemma_desugar_alike(*els, *d1->If_els, *d2->If_els);
            lemma_if_alike(d1, d2);
        },
        Exp::Semicolon { e1, e2, .. } => {
            let b1 = d1->Let_bindings;
            let b2 = d2->Let_bindings;
            lemma_desugar_alike(*e1, b1@[0].1, b2@[0].1);
            lemma_desugar_alike(*e2, *d1->Let_body, *d2->Let_body);
            assert forall|j: int| 0 <= j < b1@.len() implies
                (#[trigger] b1@[j]).0@ == b2@[j].0@ && checked_alike(b1@[j].1, b2@[j].1) by {
                assert(j == 0);
            }
            assert(binds_alike(d1, d2));
            assert(duplicate_binding_err(b1@, d1->Let_ann) is None && duplicate_binding_err(b2@, d1->Let_ann) is None) by {
                reveal_with_fuel(first_repeat, 2);
                assert(binding_names(b1@).drop_last() =~= Seq::<Seq<char>>::empty());
                assert(binding_names(b2@).drop_last() =~= Seq::<Seq<char>>::empty());
            }
            lemma_let_alike(d1, d2);
        },
        Exp::FunDefs { decls, body, ann } => {
            let r1 = d1->FunDefs_decls;
            let r2 = d2->FunDefs_decls;
            lemma_desugar_alike(*body, *d1->FunDefs_body, *d2->FunDefs_body);
            assert(decls_alike(r1@, r2@)) by {
                assert forall|j: int| 0 <= j < r1@.len() implies {
                    &&& (#[trigger] r1@[j]).name == r2@[j].name
                    &&& r1@[j].parameters@ == r2@[j].parameters@
                    &&& r1@[j].ann == r2@[j].ann
                } by {
                    assert(r1@[j].name == decls@[j].name);
                    assert(r2@[j].name == decls@[j].name);
                }
            }
            lemma_fun_defs_alike(d1, d2);
        },
        Exp::Lambda { body, .. } => {
            lemma_desugar_alike(*body, *d1->Lambda_body, *d2->Lambda_body);
            lemma_lambda_alike(d1, d2);
        },
        Exp::Call(f, args, _) => {
            lemma_copy_alike(*f, *d1->Call_0);
            lemma_copy_alike(*f, *d2->Call_0);
            lemma_alike_through(*f, *d1->Call_0, *d2->Call_0);
            let r1 = d1->Call_1;
            let r2 = d2->Call_1;
            assert forall|j: int| 0 <= j < r1@.len() implies checked_alike(r1@[j], #[trigger] r2@[j]) by {
                lemma_desugar_alike(args@[j], r1@[j], r2@[j]);
            }
            assert(args_alike(d1, d2));
            lemma_call_alike(d1, d2);
        },
        _ => {},
    }
}

} // verus!
