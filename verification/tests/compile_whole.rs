use lib::compile::{compile_to_string, CompileErr};
use lib::syntax::{Exp, FunDecl, Prim};

const PRELUDE: &str = "section .data
        HEAP:    times 1024 dq 0
section .text
        global start_here
        extern snake_error
        extern print_snake_val
start_here:
        push R15
        sub RSP, 8
        lea r15, [rel HEAP]
        call main
        add rsp, 8
        pop r15
        ret
";

fn b(e: Exp<u32>) -> Box<Exp<u32>> {
    Box::new(e)
}

#[test]
fn a_constant_program() {
    let out = compile_to_string(&Exp::Num(7, 0u32)).unwrap().unwrap();
    let body = "main:\n        mov rax, 14\n        ret\n";
    assert!(out.starts_with(PRELUDE));
    assert!(out[PRELUDE.len()..].starts_with(body));
    let rest = &out[PRELUDE.len() + body.len()..];
    assert!(rest.starts_with("\nerror_ari_not_number:\n        mov rsi, rax\n        mov rdi, 1\n        call snake_error\n"));
    assert!(rest.ends_with("error_fcom_not_float:\n        mov RSI, R10\n        mov RDI, 13\n        call snake_error\n"));
    assert_eq!(rest.matches("call snake_error").count(), 13);
}

#[test]
fn a_boolean_program() {
    let out = compile_to_string(&Exp::Bool(true, 0u32)).unwrap().unwrap();
    assert!(out.contains("main:\n        mov rax, 0xffffffffffffffff\n        ret\n"));
    let out2 = compile_to_string(&Exp::Bool(false, 0u32)).unwrap().unwrap();
    assert!(out2.contains("main:\n        mov rax, 0x7fffffffffffffff\n        ret\n"));
}

#[test]
fn the_check_error_comes_back() {
    let p = Exp::Prim(Prim::Add1, vec![b(Exp::Var("x".to_string(), 3))], 2);
    assert_eq!(compile_to_string(&p), Some(Err(CompileErr::UnboundVariable { unbound: "x".to_string(), location: 3 })));
}

#[test]
fn the_check_sees_the_desugared_program() {
    let p = Exp::Semicolon { e1: b(Exp::Num(1, 1)), e2: b(Exp::Var("y".to_string(), 2)), ann: 0 };
    assert_eq!(compile_to_string(&p), Some(Err(CompileErr::UnboundVariable { unbound: "y".to_string(), location: 2 })));
}

#[test]
fn an_overflowing_literal_is_refused() {
    let n: i64 = 1 << 62;
    assert_eq!(compile_to_string(&Exp::Num(n, 5u32)), Some(Err(CompileErr::Overflow { num: n, location: 5 })));
}

#[test]
fn a_float_is_not_compiled() {
    assert_eq!(compile_to_string(&Exp::Float(0x3f80_0000, 0u32)), None);
}

#[test]
fn an_internal_form_is_not_compiled() {
    let p = Exp::DirectCall("f".to_string(), vec![], 0u32);
    assert_eq!(compile_to_string(&p), None);
}

#[test]
fn arithmetic_checks_its_operands() {
    let p = Exp::Let {
        bindings: vec![("x".to_string(), Exp::Num(3, 1))],
        body: b(Exp::Prim(Prim::Add, vec![b(Exp::Var("x".to_string(), 3)), b(Exp::Num(4, 4))], 2)),
        ann: 0,
    };
    let out = compile_to_string(&p).unwrap().unwrap();
    assert!(out.starts_with(PRELUDE));
    assert!(out.contains("main:\n"));
    assert!(out.contains("        jnz error_ari_not_number\n"));
    assert!(out.contains("        jo error_overflow\n"));
}

#[test]
fn a_program_with_a_function_and_a_lambda() {
    let f = FunDecl {
        name: "f".to_string(),
        parameters: vec!["a".to_string()],
        body: Exp::Prim(Prim::Add1, vec![b(Exp::Var("a".to_string(), 2))], 1),
        ann: 0,
    };
    let g = Exp::Lambda { parameters: vec!["y".to_string()], body: b(Exp::Var("y".to_string(), 5)), ann: 4 };
    let p = Exp::FunDefs {
        decls: vec![f],
        body: b(Exp::Let {
            bindings: vec![("g".to_string(), g)],
            body: b(Exp::Prim(
                Prim::Add,
                vec![
                    b(Exp::Call(b(Exp::Var("f".to_string(), 8)), vec![Exp::Num(1, 9)], 7)),
                    b(Exp::Call(b(Exp::Var("g".to_string(), 11)), vec![Exp::Num(2, 12)], 10)),
                ],
                6,
            )),
            ann: 3,
        }),
        ann: 0,
    };
    let out = compile_to_string(&p).unwrap().unwrap();
    assert!(out.starts_with(PRELUDE));
    assert!(out.contains("main:\n"));
    assert!(out.contains("lambda"));
}

#[test]
fn a_duplicate_function_is_reported_at_the_second_definition() {
    let f = |a: u32, b: u32| FunDecl { name: "f".to_string(), parameters: vec![], body: Exp::Num(0, a), ann: b };
    let p = Exp::FunDefs { decls: vec![f(1, 2), f(3, 4)], body: b(Exp::Num(0, 5)), ann: 0 };
    assert_eq!(
        compile_to_string(&p),
        Some(Err(CompileErr::DuplicateFunName { duplicated_name: "f".to_string(), location: 4 }))
    );
}

#[test]
fn a_duplicate_binding_is_reported_at_the_let() {
    let p = Exp::Let {
        bindings: vec![("x".to_string(), Exp::Num(1, 1)), ("x".to_string(), Exp::Num(2, 2))],
        body: b(Exp::Var("x".to_string(), 3)),
        ann: 7,
    };
    assert_eq!(
        compile_to_string(&p),
        Some(Err(CompileErr::DuplicateBinding { duplicated_name: "x".to_string(), location: 7 }))
    );
}

#[test]
fn no_store_at_or_above_the_stack_pointer() {
    let p = Exp::Let {
        bindings: vec![("x".to_string(), Exp::Num(3, 1)), ("y".to_string(), Exp::Num(4, 2))],
        body: b(Exp::Prim(Prim::Add, vec![b(Exp::Var("x".to_string(), 4)), b(Exp::Var("y".to_string(), 5))], 3)),
        ann: 0,
    };
    let out = compile_to_string(&p).unwrap().unwrap();
    let mut stores = 0;
    for line in out.lines() {
        if let Some(rest) = line.trim().strip_prefix("mov QWORD [rsp + ") {
            let off: i64 = rest.split(']').next().unwrap().parse().unwrap();
            assert!(off <= -8);
            stores += 1;
        }
    }
    assert!(stores >= 2);
}
