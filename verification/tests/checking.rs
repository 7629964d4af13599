use lib::check::{check_prog_helper, env_get, MAX_SNAKE_INT, MIN_SNAKE_INT};
use lib::compile::{check_prog, CompileErr};
use lib::syntax::{Exp, FunDecl, Prim};

fn num(n: i64, a: u32) -> Exp<u32> {
    Exp::Num(n, a)
}

fn var(x: &str, a: u32) -> Exp<u32> {
    Exp::Var(x.to_string(), a)
}

#[test]
fn closed_program_passes() {
    let p = Exp::Let {
        bindings: vec![("x".to_string(), num(1, 1)), ("y".to_string(), var("x", 2))],
        body: Box::new(Exp::Prim(Prim::Add, vec![Box::new(var("x", 4)), Box::new(var("y", 5))], 3)),
        ann: 0,
    };
    assert_eq!(check_prog(&p), Ok(()));
}

#[test]
fn unbound_variable_is_reported() {
    let p = Exp::Prim(Prim::Add1, vec![Box::new(var("z", 7))], 6);
    assert_eq!(check_prog(&p), Err(CompileErr::UnboundVariable { unbound: "z".to_string(), location: 7 }));
}

#[test]
fn later_binding_sees_earlier_one_but_not_the_reverse() {
    let p = Exp::Let {
        bindings: vec![("x".to_string(), var("y", 1)), ("y".to_string(), num(2, 2))],
        body: Box::new(var("x", 3)),
        ann: 0,
    };
    assert_eq!(check_prog(&p), Err(CompileErr::UnboundVariable { unbound: "y".to_string(), location: 1 }));
}

#[test]
fn duplicate_binding_is_reported_at_the_let() {
    let p = Exp::Let {
        bindings: vec![("x".to_string(), num(1, 1)), ("x".to_string(), num(2, 2))],
        body: Box::new(var("x", 3)),
        ann: 9,
    };
    assert_eq!(check_prog(&p), Err(CompileErr::DuplicateBinding { duplicated_name: "x".to_string(), location: 9 }));
}

#[test]
fn overflow_at_both_ends() {
    assert_eq!(check_prog(&num(MAX_SNAKE_INT, 0)), Ok(()));
    assert_eq!(check_prog(&num(MIN_SNAKE_INT, 0)), Ok(()));
    assert_eq!(check_prog(&num(MAX_SNAKE_INT + 1, 4)), Err(CompileErr::Overflow { num: MAX_SNAKE_INT + 1, location: 4 }));
    assert_eq!(check_prog(&num(MIN_SNAKE_INT - 1, 5)), Err(CompileErr::Overflow { num: MIN_SNAKE_INT - 1, location: 5 }));
}

fn decl(name: &str, params: &[&str], body: Exp<u32>, a: u32) -> FunDecl<Exp<u32>, u32> {
    FunDecl { name: name.to_string(), parameters: params.iter().map(|p| p.to_string()).collect(), body, ann: a }
}

#[test]
fn duplicate_function_is_reported_at_the_second_definition() {
    let p = Exp::FunDefs {
        decls: vec![decl("f", &["a"], var("a", 1), 2), decl("f", &["b"], var("b", 3), 4)],
        body: Box::new(num(0, 5)),
        ann: 0,
    };
    assert_eq!(check_prog(&p), Err(CompileErr::DuplicateFunName { duplicated_name: "f".to_string(), location: 4 }));
}

#[test]
fn duplicate_parameter_of_a_function() {
    let p = Exp::FunDefs {
        decls: vec![decl("f", &["a", "b", "a"], var("a", 1), 2)],
        body: Box::new(num(0, 5)),
        ann: 0,
    };
    assert_eq!(check_prog(&p), Err(CompileErr::DuplicateArgName { duplicated_name: "a".to_string(), location: 2 }));
}

#[test]
fn duplicate_parameter_of_a_lambda() {
    let p = Exp::Lambda { parameters: vec!["x".to_string(), "x".to_string()], body: Box::new(var("x", 1)), ann: 9 };
    assert_eq!(check_prog(&p), Err(CompileErr::DuplicateArgName { duplicated_name: "x".to_string(), location: 9 }));
}

#[test]
fn functions_are_in_scope_in_the_body_and_calls_are_checked() {
    let p = Exp::FunDefs {
        decls: vec![decl("f", &["a"], var("a", 1), 2)],
        body: Box::new(Exp::Call(Box::new(var("f", 4)), vec![var("q", 5)], 3)),
        ann: 0,
    };
    assert_eq!(check_prog(&p), Err(CompileErr::UnboundVariable { unbound: "q".to_string(), location: 5 }));
}

#[test]
fn conditional_checks_in_order() {
    let p = Exp::If { cond: Box::new(Exp::Bool(true, 1)), thn: Box::new(var("a", 2)), els: Box::new(var("b", 3)), ann: 0 };
    assert_eq!(check_prog(&p), Err(CompileErr::UnboundVariable { unbound: "a".to_string(), location: 2 }));
}

#[test]
fn helper_uses_the_given_scope() {
    let env = vec![("k".to_string(), -1)];
    assert_eq!(check_prog_helper(&var("k", 1), env), Ok(()));
}

#[test]
fn env_lookup_finds_the_latest_entry() {
    let env = vec![("x".to_string(), -1), ("f".to_string(), 2), ("x".to_string(), 3)];
    assert_eq!(env_get::<u32>(&env, "x"), Some(3));
    assert_eq!(env_get::<u32>(&env, "f"), Some(2));
    assert_eq!(env_get::<u32>(&env, "g"), None);
}

#[test]
fn annotations_of_each_form() {
    assert_eq!(num(1, 3).ann(), 3);
    assert_eq!(var("x", 4).ann(), 4);
    assert_eq!(Exp::Bool(false, 5u32).ann(), 5);
    assert_eq!(Exp::Prim(Prim::Not, vec![Box::new(Exp::Bool(true, 0u32))], 6).ann(), 6);
    assert_eq!(Exp::Lambda { parameters: vec![], body: Box::new(num(0, 0)), ann: 7 }.ann(), 7);
}

#[test]
fn a_larger_scope_keeps_a_pass() {
    let e = Exp::Prim(Prim::Add, vec![Box::new(var("x", 1)), Box::new(var("y", 2))], 0);
    let small = vec![("x".to_string(), -1), ("y".to_string(), -1)];
    let large = vec![("z".to_string(), 2), ("y".to_string(), -1), ("x".to_string(), 3)];
    assert_eq!(check_prog_helper(&e, small), Ok(()));
    assert_eq!(check_prog_helper(&e, large), Ok(()));
}
