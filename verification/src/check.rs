//! The well-formedness check of a surface program: scoping, duplicates, and
//! the range of number literals.
use vstd::prelude::*;
use crate::syntax::{Exp, FunDecl};
use crate::compile::CompileErr;
use crate::names::{texts, first_repeat, contains_text, lemma_texts_push, lemma_first_repeat_push};

verus! {

/// The largest number a snake value can hold.
pub const MAX_SNAKE_INT: i64 = 4611686018427387903;

/// The smallest number a snake value can hold.
pub const MIN_SNAKE_INT: i64 = -4611686018427387904;

/// The annotation at the root of an expression.
pub open spec fn ann_of<Ann>(e: Exp<Ann>) -> Ann {
    match e {
        Exp::Num(_, a) => a,
        Exp::Float(_, a) => a,
        Exp::Bool(_, a) => a,
        Exp::Var(_, a) => a,
        Exp::Prim(_, _, a) => a,
        Exp::Let { ann, .. } => ann,
        Exp::If { ann, .. } => ann,
        Exp::Semicolon { ann, .. } => ann,
        Exp::FunDefs { ann, .. } => ann,
        Exp::Lambda { ann, .. } => ann,
        Exp::MakeClosure { ann, .. } => ann,
        Exp::Call(_, _, a) => a,
        Exp::ClosureCall(_, _, a) => a,
        Exp::DirectCall(_, _, a) => a,
        Exp::InternalTailCall(_, _, a) => a,
        Exp::ExternalCall { ann, .. } => ann,
    }
}

impl<Ann> Exp<Ann> {
    /// The annotation at the root of the expression.
    pub fn ann(&self) -> (a: Ann)
        where Ann: Copy,
        ensures
            a == ann_of(*self),
    {
        match self {
            Exp::Num(_, a) => *a,
            Exp::Float(_, a) => *a,
            Exp::Var(_, a) => *a,
            Exp::Prim(_, _, a) => *a,
            Exp::Let { ann: a, .. } => *a,
            Exp::If { ann: a, .. } => *a,
            Exp::Bool(_, a) => *a,
            Exp::Call(_, _, a) => *a,
            Exp::FunDefs { ann: a, .. } => *a,
            Exp::ExternalCall { ann: a, .. } => *a,
            Exp::InternalTailCall(_, _, a) => *a,
            Exp::ClosureCall(_, _, a) => *a,
            Exp::Semicolon { ann: a, .. } => *a,
            Exp::Lambda { ann: a, .. } => *a,
            Exp::MakeClosure { ann: a, .. } => *a,
            Exp::DirectCall(_, _, a) => *a,
        }
    }
}

/// The entry of the innermost binding of `name` in a scope listed outermost first.
pub open spec fn env_lookup(env: Seq<(String, i32)>, name: Seq<char>) -> Option<i32>
    decreases env.len(),
{
    if env.len() == 0 {
        None
    } else if env.last().0@ == name {
        Some(env.last().1)
    } else {
        env_lookup(env.drop_last(), name)
    }
}

/// The entry of the innermost binding of `name`.
pub fn env_get<Span>(env: &Vec<(String, i32)>, name: &str) -> (r: Option<i32>)
    ensures
        r == env_lookup(env@, name@),
{
    let target = String::from_str(name);
    let mut k: usize = env.len();
    assert(env@.take(k as int) =~= env@);
    while k > 0
        invariant
            k <= env@.len(),
            target@ == name@,
            env_lookup(env@, name@) == env_lookup(env@.take(k as int), name@),
        decreases k,
    {
        assert(env@.take(k as int).drop_last() =~= env@.take(k - 1));
        assert(env@.take(k as int).last() == env@[k - 1]);
        let entry = &env[k - 1];
        if entry.0 == target {
            assert(entry.0@ == name@);
            return Some(entry.1);
        }
        assert(entry.0@ != name@);
        k = k - 1;
    }
    None
}

/// A copy of a scope.
pub fn copy_env(env: &Vec<(String, i32)>) -> (r: Vec<(String, i32)>)
    ensures
        r@ == env@,
{
    let mut r: Vec<(String, i32)> = Vec::new();
    let mut k: usize = 0;
    while k < env.len()
        invariant
            k <= env@.len(),
            r@ == env@.take(k as int),
        decreases env@.len() - k,
    {
        let entry = (env[k].0.clone(), env[k].1);
        r.push(entry);
        assert(env@.take(k + 1) =~= env@.take(k as int).push(env@[k as int]));
        k = k + 1;
    }
    assert(env@.take(env@.len() as int) =~= env@);
    r
}

/// The names bound by a list of bindings.
pub open spec fn binding_names<Ann>(bs: Seq<(String, Exp<Ann>)>) -> Seq<Seq<char>> {
    bs.map_values(|b: (String, Exp<Ann>)| b.0@)
}

/// The names of a list of function definitions.
pub open spec fn decl_names<E, Ann>(ds: Seq<FunDecl<E, Ann>>) -> Seq<Seq<char>> {
    ds.map_values(|d: FunDecl<E, Ann>| d.name@)
}

/// The error for the first binding that repeats an earlier name, if any,
/// located at the `let` that holds the bindings, whose annotation is `ann`.
pub open spec fn duplicate_binding_err<Span>(bs: Seq<(String, Exp<Span>)>, ann: Span) -> Option<CompileErr<Span>> {
    match first_repeat(binding_names(bs)) {
        Some(j) => Some(CompileErr::DuplicateBinding { duplicated_name: bs[j].0, location: ann }),
        None => None,
    }
}

/// The error for the first function definition that repeats an earlier name, if any.
pub open spec fn duplicate_function_err<Ann>(ds: Seq<FunDecl<Exp<Ann>, Ann>>) -> Option<CompileErr<Ann>> {
    match first_repeat(decl_names(ds)) {
        Some(j) => Some(CompileErr::DuplicateFunName { duplicated_name: ds[j].name, location: ds[j].ann }),
        None => None,
    }
}

/// The error for the first repeated parameter of the first definition, in order,
/// that repeats one, if any.
pub open spec fn duplicate_param_err<Ann>(ds: Seq<FunDecl<Exp<Ann>, Ann>>) -> Option<CompileErr<Ann>>
    decreases ds.len(),
{
    if ds.len() == 0 {
        None
    } else {
        match duplicate_param_err(ds.drop_last()) {
            Some(err) => Some(err),
            None => {
                let d = ds.last();
                match first_repeat(texts(d.parameters@)) {
                    Some(j) => Some(CompileErr::DuplicateArgName {
                        duplicated_name: d.parameters@[j],
                        location: d.ann,
                    }),
                    None => None,
                }
            },
        }
    }
}

/// The scope after the first `i` bindings of a `let`, each marked as a variable.
pub open spec fn let_scope<Ann>(bs: Seq<(String, Exp<Ann>)>, i: int, env: Seq<(String, i32)>) -> Seq<(String, i32)>
    decreases i,
{
    if i <= 0 {
        env
    } else {
        let_scope(bs, i - 1, env).push((bs[i - 1].0, -1i32))
    }
}

/// The scope after the first `i` function definitions, each with its arity.
pub open spec fn fun_scope<Ann>(ds: Seq<FunDecl<Exp<Ann>, Ann>>, i: int, env: Seq<(String, i32)>) -> Seq<(String, i32)>
    decreases i,
{
    if i <= 0 {
        env
    } else {
        fun_scope(ds, i - 1, env).push((ds[i - 1].name, ds[i - 1].parameters@.len() as i32))
    }
}

/// The scope after the first `i` parameters of a lambda, each marked as a variable.
pub open spec fn param_scope(ps: Seq<String>, i: int, env: Seq<(String, i32)>) -> Seq<(String, i32)>
    decreases i,
{
    if i <= 0 {
        env
    } else {
        param_scope(ps, i - 1, env).push((ps[i - 1], -1i32))
    }
}

/// Whether `r` is the result that the outcome `o` stands for.
pub open spec fn reports<Span>(o: Option<Result<(), CompileErr<Span>>>, r: Result<(), CompileErr<Span>>) -> bool {
    match r {
        Ok(_) => o matches Some(Ok(_)),
        Err(err) => o matches Some(Err(e2)) && e2 == err,
    }
}

/// Whether a check went through without an error.
pub open spec fn passes<Span>(o: Option<Result<(), CompileErr<Span>>>) -> bool {
    o matches Some(Ok(_))
}

/// The outcome of checking `e` in the scope `env`: `None` where the check
/// meets a form that it does not accept (a `;`, a float, or a form that only
/// later passes introduce), else the check's result. Errors are reported in
/// the order the check visits the program; function bodies are not visited.
pub open spec fn check_outcome<Span>(e: Exp<Span>, env: Seq<(String, i32)>) -> Option<Result<(), CompileErr<Span>>>
    decreases e, 1nat, 0nat,
{
    match e {
        Exp::Num(n, a) => if n > MAX_SNAKE_INT || n < MIN_SNAKE_INT {
            Some(Err(CompileErr::Overflow { num: n, location: a }))
        } else {
            Some(Ok(()))
        },
        Exp::Bool(..) => Some(Ok(())),
        Exp::Var(name, span) => if env_lookup(env, name@) is None {
            Some(Err(CompileErr::UnboundVariable { unbound: name, location: span }))
        } else {
            Some(Ok(()))
        },
        Exp::Prim(_, args, _) => check_args_outcome(e, args@.len() as int, env),
        Exp::Let { bindings, body, ann } => match duplicate_binding_err(bindings@, ann) {
            Some(err) => Some(Err(err)),
            None => match check_bindings_outcome(e, bindings@.len() as int, env) {
                Some(Ok(_)) => check_outcome(*body, let_scope(bindings@, bindings@.len() as int, env)),
                other => other,
            },
        },
        Exp::If { cond, thn, els, .. } => match check_outcome(*cond, env) {
            Some(Ok(_)) => match check_outcome(*thn, env) {
                Some(Ok(_)) => check_outcome(*els, env),
                other => other,
            },
            other => other,
        },
        Exp::FunDefs { decls, body, .. } => match duplicate_function_err(decls@) {
            Some(err) => Some(Err(err)),
            None => match duplicate_param_err(decls@) {
                Some(err) => Some(Err(err)),
                None => check_outcome(*body, fun_scope(decls@, decls@.len() as int, env)),
            },
        },
        Exp::Call(fun, args, _) => match check_outcome(*fun, env) {
            Some(Ok(_)) => check_args_outcome(e, args@.len() as int, env),
            other => other,
        },
        Exp::Lambda { parameters, body, ann } => match first_repeat(texts(parameters@)) {
            Some(j) => Some(Err(CompileErr::DuplicateArgName { duplicated_name: parameters@[j], location: ann })),
            None => check_outcome(*body, param_scope(parameters@, parameters@.len() as int, env)),
        },
        _ => None,
    }
}

/// The outcome of checking the first `i` arguments of a primitive or a call, in order.
pub open spec fn check_args_outcome<Span>(e: Exp<Span>, i: int, env: Seq<(String, i32)>) -> Option<Result<(), CompileErr<Span>>>
    decreases e, 0nat, i,
{
    if i <= 0 {
        Some(Ok(()))
    } else {
        match e {
            Exp::Prim(_, args, _) => if i > args@.len() { None } else {
                match check_args_outcome(e, i - 1, env) {
                    Some(Ok(_)) => check_outcome(*args@[i - 1], env),
                    other => other,
                }
            },
            Exp::Call(_, args, _) => if i > args@.len() { None } else {
                match check_args_outcome(e, i - 1, env) {
                    Some(Ok(_)) => check_outcome(args@[i - 1], env),
                    other => other,
                }
            },
            _ => None,
        }
    }
}

/// The outcome of checking the first `i` bound expressions of a `let`,
/// each in the scope of the bindings before it.
pub open spec fn check_bindings_outcome<Span>(e: Exp<Span>, i: int, env: Seq<(String, i32)>) -> Option<Result<(), CompileErr<Span>>>
    decreases e, 0nat, i,
{
    if i <= 0 {
        Some(Ok(()))
    } else {
        match e {
            Exp::Let { bindings, .. } => if i > bindings@.len() { None } else {
                match check_bindings_outcome(e, i - 1, env) {
                    Some(Ok(_)) => check_outcome(bindings@[i - 1].1, let_scope(bindings@, i - 1, env)),
                    other => other,
                }
            },
            _ => None,
        }
    }
}

fn check_duplicate_binding<Span: Copy>(bindings: &Vec<(String, Exp<Span>)>, ann: Span) -> (r: Result<(), CompileErr<Span>>)
    ensures
        r == (match duplicate_binding_err(bindings@, ann) {
            Some(err) => Err(err),
            None => Ok(()),
        }),
{
    let mut names: Vec<String> = Vec::new();
    let mut k: usize = 0;
    while k < bindings.len()
        invariant
            k <= bindings@.len(),
            texts(names@) == binding_names(bindings@).take(k as int),
            first_repeat(binding_names(bindings@).take(k as int)) is None,
        decreases bindings@.len() - k,
    {
        let ghost ns = binding_names(bindings@);
        proof {
            assert(ns.take(k + 1) =~= ns.take(k as int).push(ns[k as int]));
            lemma_first_repeat_push(ns.take(k as int), ns[k as int]);
        }
        if contains_text(&names, &bindings[k].0) {
            proof {
                let rest = ns.take(k + 1);
                assert forall|j: int| 0 <= j <= k implies #[trigger] rest[j] == ns[j] by {}
                lemma_prefix_repeat(ns, k + 1);
            }
            return Err(CompileErr::DuplicateBinding {
                duplicated_name: bindings[k].0.clone(),
                location: ann,
            });
        }
        proof {
            lemma_texts_push(names@, bindings@[k as int].0);
        }
        names.push(bindings[k].0.clone());
        k = k + 1;
    }
    assert(binding_names(bindings@).take(bindings@.len() as int) =~= binding_names(bindings@));
    Ok(())
}

/// A repeat found in a prefix is the first repeat of the whole list.
pub proof fn lemma_prefix_repeat(ns: Seq<Seq<char>>, k: int)
    requires
        0 <= k <= ns.len(),
        first_repeat(ns.take(k)) is Some,
    ensures
        first_repeat(ns) == first_repeat(ns.take(k)),
    decreases ns.len() - k,
{
    if k < ns.len() {
        lemma_prefix_repeat_step(ns, k);
        lemma_prefix_repeat(ns, k + 1);
    } else {
        assert(ns.take(k) =~= ns);
    }
}

proof fn lemma_prefix_repeat_step(ns: Seq<Seq<char>>, k: int)
    requires
        0 <= k < ns.len(),
        first_repeat(ns.take(k)) is Some,
    ensures
        first_repeat(ns.take(k + 1)) == first_repeat(ns.take(k)),
{
    assert(ns.take(k + 1).drop_last() =~= ns.take(k));
}

fn check_duplicate_functions<Ann: Copy>(decls: &Vec<FunDecl<Exp<Ann>, Ann>>) -> (r: Result<(), CompileErr<Ann>>)
    ensures
        r == (match duplicate_function_err(decls@) {
            Some(err) => Err(err),
            None => Ok(()),
        }),
{
    let mut names: Vec<String> = Vec::new();
    let mut k: usize = 0;
    while k < decls.len()
        invariant
            k <= decls@.len(),
            texts(names@) == decl_names(decls@).take(k as int),
            first_repeat(decl_names(decls@).take(k as int)) is None,
        decreases decls@.len() - k,
    {
        let ghost ns = decl_names(decls@);
        proof {
            assert(ns.take(k + 1) =~= ns.take(k as int).push(ns[k as int]));
            lemma_first_repeat_push(ns.take(k as int), ns[k as int]);
        }
        if contains_text(&names, &decls[k].name) {
            proof {
                lemma_prefix_repeat(ns, k + 1);
            }
            return Err(CompileErr::DuplicateFunName {
                duplicated_name: decls[k].name.clone(),
                location: decls[k].ann,
            });
        }
        proof {
            lemma_texts_push(names@, decls@[k as int].name);
        }
        names.push(decls[k].name.clone());
        k = k + 1;
    }
    assert(decl_names(decls@).take(decls@.len() as int) =~= decl_names(decls@));
    Ok(())
}

/// The first repeated parameter of a list of parameters, as its index.
fn first_repeated_param(params: &Vec<String>) -> (r: Option<usize>)
    ensures
        r matches Some(j) ==> first_repeat(texts(params@)) == Some(j as int) && j < params@.len(),
        r is None ==> first_repeat(texts(params@)) is None,
{
    let mut names: Vec<String> = Vec::new();
    let mut k: usize = 0;
    while k < params.len()
        invariant
            k <= params@.len(),
            texts(names@) == texts(params@).take(k as int),
            first_repeat(texts(params@).take(k as int)) is None,
        decreases params@.len() - k,
    {
        let ghost ns = texts(params@);
        proof {
            assert(ns.take(k + 1) =~= ns.take(k as int).push(ns[k as int]));
            lemma_first_repeat_push(ns.take(k as int), ns[k as int]);
        }
        if contains_text(&names, &params[k]) {
            proof {
                lemma_prefix_repeat(ns, k + 1);
            }
            return Some(k);
        }
        proof {
            lemma_texts_push(names@, params@[k as int]);
        }
        names.push(params[k].clone());
        k = k + 1;
    }
    assert(texts(params@).take(params@.len() as int) =~= texts(params@));
    None
}

/// Checks `e` in the scope `env` (outermost binding first): every variable
/// bound, no repeated name in a `let`, among the definitions of one group or
/// among the parameters of one function, and every number literal in range.
#[verifier::loop_isolation(false)]
pub fn check_prog_helper<Span: Copy>(e: &Exp<Span>, env: Vec<(String, i32)>) -> (r: Result<(), CompileErr<Span>>)
    requires
        check_outcome(*e, env@) is Some,
    ensures
        reports(check_outcome(*e, env@), r),
    decreases e,
{
    let ghost env0 = env@;
    let mut env = env;
    match e {
        Exp::Num(n, _) => {
            if *n > MAX_SNAKE_INT || *n < MIN_SNAKE_INT {
                Err(CompileErr::Overflow { num: *n, location: e.ann() })
            } else {
                Ok(())
            }
        },
        Exp::Bool(..) => Ok(()),
        Exp::Var(name, span) => {
            if env_get::<Span>(&env, name.as_str()).is_none() {
                Err(CompileErr::UnboundVariable { unbound: name.clone(), location: *span })
            } else {
                Ok(())
            }
        },
        Exp::Prim(_, args, _) => {
            let mut k: usize = 0;
            while k < args.len()
                invariant
                    k <= args@.len(),
                    env@ == env0,
                    check_outcome(*e, env@) is Some,
                    *e matches Exp::Prim(_, a, _) && a == *args,
                    passes(check_args_outcome(*e, k as int, env@)),
                decreases args@.len() - k,
            {
                proof {
                    if check_outcome(*args@[k as int], env@) is None {
                        lemma_args_settled(*e, k + 1, args@.len() as int, env@);
                    }
                }
                let r = check_prog_helper(&args[k], copy_env(&env));
                if r.is_err() {
                    proof {
                        assert(reports(check_args_outcome(*e, k + 1, env@), r));
                        lemma_args_settled(*e, k + 1, args@.len() as int, env@);
                        assert(check_outcome(*e, env0) == check_args_outcome(*e, args@.len() as int, env0));
                    }
                    return r;
                }
                k = k + 1;
            }
            assert(check_outcome(*e, env0) == check_args_outcome(*e, args@.len() as int, env0));
            Ok(())
        },
        Exp::Let { bindings, body, ann } => {
            let r = check_duplicate_binding(bindings, *ann);
            if r.is_err() {
                return r;
            }
            let mut k: usize = 0;
            while k < bindings.len()
                invariant
                    k <= bindings@.len(),
                    check_outcome(*e, env0) is Some,
                    *e matches Exp::Let { bindings: b, .. } && b == *bindings,
                    duplicate_binding_err(bindings@, *ann) is None,
                    passes(check_bindings_outcome(*e, k as int, env0)),
                    env@ == let_scope(bindings@, k as int, env0),
                decreases bindings@.len() - k,
            {
                proof {
                    if check_outcome(bindings@[k as int].1, env@) is None {
                        lemma_bindings_settled(*e, k + 1, bindings@.len() as int, env0);
                    }
                }
                let r = check_prog_helper(&bindings[k].1, copy_env(&env));
                if r.is_err() {
                    proof {
                        assert(reports(check_bindings_outcome(*e, k + 1, env0), r));
                        lemma_bindings_settled(*e, k + 1, bindings@.len() as int, env0);
                        assert(check_outcome(*e, env0) == check_bindings_outcome(*e, bindings@.len() as int, env0));
                    }
                    return r;
                }
                env.push((bindings[k].0.clone(), -1));
                k = k + 1;
            }
            assert(check_outcome(*e, env0) == check_outcome(**body, env@));
            check_prog_helper(body, env)
        },
        Exp::If { cond, thn, els, .. } => {
            let r = check_prog_helper(cond, copy_env(&env));
            if r.is_err() {
                return r;
            }
            let r = check_prog_helper(thn, copy_env(&env));
            if r.is_err() {
                return r;
            }
            check_prog_helper(els, env)
        },
        Exp::FunDefs { decls, body, .. } => {
            let r = check_duplicate_functions(decls);
            if r.is_err() {
                return r;
            }
            let mut k: usize = 0;
            while k < decls.len()
                invariant
                    k <= decls@.len(),
                    check_outcome(*e, env0) is Some,
                    *e matches Exp::FunDefs { decls: d, .. } && d == *decls,
                    duplicate_function_err(decls@) is None,
                    duplicate_param_err(decls@.take(k as int)) is None,
                    env@ == fun_scope(decls@, k as int, env0),
                decreases decls@.len() - k,
            {
                let decl = &decls[k];
                proof {
                    assert(decls@.take(k + 1).drop_last() =~= decls@.take(k as int));
                    assert(decls@.take(k + 1).last() == decls@[k as int]);
                }
                match first_repeated_param(&decl.parameters) {
                    Some(j) => {
                        proof {
                            lemma_param_err_prefix(decls@, k + 1);
                            lemma_param_err_settled(decls@, k + 1);
                        }
                        return Err(CompileErr::DuplicateArgName {
                            duplicated_name: decl.parameters[j].clone(),
                            location: decl.ann,
                        });
                    },
                    None => {},
                }
                let args_num = decl.parameters.len();
                env.push((decl.name.clone(), #[verifier::truncate] (args_num as i32)));
                k = k + 1;
            }
            proof {
                assert(decls@.take(decls@.len() as int) =~= decls@);
            }
            assert(check_outcome(*e, env0) == check_outcome(**body, env@));
            check_prog_helper(body, env)
        },
        Exp::Call(fun, args, ..) => {
            let r = check_prog_helper(fun, copy_env(&env));
            if r.is_err() {
                return r;
            }
            let mut k: usize = 0;
            while k < args.len()
                invariant
                    k <= args@.len(),
                    env@ == env0,
                    check_outcome(*e, env@) is Some,
                    *e matches Exp::Call(f, a, _) && a == *args && f == *fun,
                    passes(check_outcome(**fun, env@)),
                    passes(check_args_outcome(*e, k as int, env@)),
                decreases args@.len() - k,
            {
                proof {
                    if check_outcome(args@[k as int], env@) is None {
                        lemma_args_settled(*e, k + 1, args@.len() as int, env@);
                    }
                }
                let r = check_prog_helper(&args[k], copy_env(&env));
                if r.is_err() {
                    proof {
                        assert(reports(check_args_outcome(*e, k + 1, env@), r));
                        lemma_args_settled(*e, k + 1, args@.len() as int, env@);
                        assert(check_outcome(*e, env0) == check_args_outcome(*e, args@.len() as int, env0));
                    }
                    return r;
                }
                k = k + 1;
            }
            Ok(())
        },
        Exp::Lambda { parameters, body, .. } => {
            match first_repeated_param(parameters) {
                Some(j) => {
                    return Err(CompileErr::DuplicateArgName {
                        duplicated_name: parameters[j].clone(),
                        location: e.ann(),
                    });
                },
                None => {},
            }
            let mut k: usize = 0;
            while k < parameters.len()
                invariant
                    k <= parameters@.len(),
                    env@ == param_scope(parameters@, k as int, env0),
                decreases parameters@.len() - k,
            {
                env.push((parameters[k].clone(), -1));
                k = k + 1;
            }
            assert(check_outcome(*e, env0) == check_outcome(**body, env@));
            check_prog_helper(body, env)
        },
        _ => {
            proof {
                assert(false);
            }
            Ok(())
        },
    }
}

/// Once a prefix of the arguments has failed, the outcome no longer changes.
proof fn lemma_args_settled<Span>(e: Exp<Span>, i: int, j: int, env: Seq<(String, i32)>)
    requires
        0 <= i <= j,
        !passes(check_args_outcome(e, i, env)),
        e is Prim ==> j <= e->Prim_1@.len(),
        e is Call ==> j <= e->Call_1@.len(),
    ensures
        check_args_outcome(e, j, env) == check_args_outcome(e, i, env),
    decreases j - i,
{
    if j > i {
        lemma_args_settled(e, i, j - 1, env);
        match e {
            Exp::Prim(_, args, _) => {
                assert(j > 0);
                assert(!(j > args@.len()));
                let prev = check_args_outcome(e, j - 1, env);
                assert(!passes(prev));
                assert(check_args_outcome(e, j, env) == (match prev {
                    Some(Ok(_)) => check_outcome(*args@[j - 1], env),
                    other => other,
                }));
                assert(check_args_outcome(e, j, env) == check_args_outcome(e, j - 1, env));
            },
            Exp::Call(_, args, _) => {
                assert(check_args_outcome(e, j, env) == check_args_outcome(e, j - 1, env));
            },
            _ => {},
        }
    }
}

/// Once a prefix of the bindings has failed, the outcome no longer changes.
proof fn lemma_bindings_settled<Span>(e: Exp<Span>, i: int, j: int, env: Seq<(String, i32)>)
    requires
        0 <= i <= j,
        !passes(check_bindings_outcome(e, i, env)),
        e is Let ==> j <= e->bindings@.len(),
    ensures
        check_bindings_outcome(e, j, env) == check_bindings_outcome(e, i, env),
    decreases j - i,
{
    if j > i {
        lemma_bindings_settled(e, i, j - 1, env);
        match e {
            Exp::Let { bindings, .. } => {
                assert(check_bindings_outcome(e, j, env) == check_bindings_outcome(e, j - 1, env));
            },
            _ => {},
        }
    }
}

/// Once a prefix of the definitions has a repeated parameter, so has the whole list.
proof fn lemma_param_err_settled<Ann>(ds: Seq<FunDecl<Exp<Ann>, Ann>>, k: int)
    requires
        0 <= k <= ds.len(),
        duplicate_param_err(ds.take(k)) is Some,
    ensures
        duplicate_param_err(ds) == duplicate_param_err(ds.take(k)),
    decreases ds.len() - k,
{
    if k < ds.len() {
        assert(ds.take(k + 1).drop_last() =~= ds.take(k));
        lemma_param_err_settled(ds, k + 1);
    } else {
        assert(ds.take(k) =~= ds);
    }
}

/// A repeated parameter in the last of a list of definitions that has none
/// before it is the first one of the list.
proof fn lemma_param_err_prefix<Ann>(ds: Seq<FunDecl<Exp<Ann>, Ann>>, k: int)
    requires
        0 < k <= ds.len(),
        duplicate_param_err(ds.take(k - 1)) is None,
        first_repeat(texts(ds[k - 1].parameters@)) is Some,
    ensures
        duplicate_param_err(ds.take(k)) is Some,
{
    assert(ds.take(k).drop_last() =~= ds.take(k - 1));
}

// ---------------------------------------------------------------------------
// When the check has an outcome.

/// Outside function bodies, `e` holds only forms that the check accepts: no
/// float, no `;`, no form that only later passes introduce.
pub open spec fn checkable<Span>(e: Exp<Span>) -> bool
    decreases e,
{
    match e {
        Exp::Num(..) | Exp::Bool(..) | Exp::Var(..) => true,
        Exp::Prim(_, args, _) => forall|j: int| 0 <= j < args@.len() ==> checkable(*args@[j]),
        Exp::Let { bindings, body, .. } =>
            (forall|j: int| 0 <= j < bindings@.len() ==> checkable(bindings@[j].1)) && checkable(*body),
        Exp::If { cond, thn, els, .. } => checkable(*cond) && checkable(*thn) && checkable(*els),
        Exp::FunDefs { body, .. } => checkable(*body),
        Exp::Call(f, args, _) => checkable(*f) && forall|j: int| 0 <= j < args@.len() ==> checkable(args@[j]),
        Exp::Lambda { body, .. } => checkable(*body),
        _ => false,
    }
}

pub proof fn lemma_checkable_outcome<Span>(e: Exp<Span>, env: Seq<(String, i32)>)
    requires
        checkable(e),
    ensures
        check_outcome(e, env) is Some,
    decreases e, 1nat, 0nat,
{
    match e {
        Exp::Prim(_, args, _) => lemma_checkable_args(e, args@.len() as int, env),
        Exp::Let { bindings, body, .. } => {
            lemma_checkable_bindings(e, bindings@.len() as int, env);
            lemma_checkable_outcome(*body, let_scope(bindings@, bindings@.len() as int, env));
        },
        Exp::If { cond, thn, els, .. } => {
            lemma_checkable_outcome(*cond, env);
            lemma_checkable_outcome(*thn, env);
            lemma_checkable_outcome(*els, env);
        },
        Exp::FunDefs { decls, body, .. } => lemma_checkable_outcome(*body, fun_scope(decls@, decls@.len() as int, env)),
        Exp::Call(f, args, _) => {
            lemma_checkable_outcome(*f, env);
            lemma_checkable_args(e, args@.len() as int, env);
        },
        Exp::Lambda { parameters, body, .. } =>
            lemma_checkable_outcome(*body, param_scope(parameters@, parameters@.len() as int, env)),
        _ => {},
    }
}

proof fn lemma_checkable_args<Span>(e: Exp<Span>, i: int, env: Seq<(String, i32)>)
    requires
        checkable(e),
        e is Prim || e is Call,
        i <= (match e { Exp::Prim(_, args, _) => args@.len() as int, Exp::Call(_, args, _) => args@.len() as int, _ => 0 }),
    ensures
        check_args_outcome(e, i, env) is Some,
    decreases e, 0nat, i,
{
    if i > 0 {
        lemma_checkable_args(e, i - 1, env);
        match e {
            Exp::Prim(_, args, _) => lemma_checkable_outcome(*args@[i - 1], env),
            Exp::Call(_, args, _) => lemma_checkable_outcome(args@[i - 1], env),
            _ => {},
        }
    }
}

proof fn lemma_checkable_bindings<Span>(e: Exp<Span>, i: int, env: Seq<(String, i32)>)
    requires
        checkable(e),
        e is Let,
        i <= e->Let_bindings@.len(),
    ensures
        check_bindings_outcome(e, i, env) is Some,
    decreases e, 0nat, i,
{
    if i > 0 {
        lemma_checkable_bindings(e, i - 1, env);
        lemma_checkable_outcome(e->Let_bindings@[i - 1].1, let_scope(e->Let_bindings@, i - 1, env));
    }
}

} // verus!
