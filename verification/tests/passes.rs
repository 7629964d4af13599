use lib::anf::{seq_prog, sequentialize};
use lib::closures::eliminate_closures;
use lib::desugar::desugar_semicolon;
use lib::lambda::lambda_lift;
use lib::lift::should_lift;
use lib::pretty::seq_exp_to_string;
use lib::syntax::{Exp, FunDecl, ImmExp, Prim, SeqExp, SeqProg, VarOrLabel};
use lib::tag::{tag_exp, tag_prog, tag_seqexp};
use lib::tail::mark_tail;
use lib::uniquify::uniquify;

fn b<T>(e: Exp<T>) -> Box<Exp<T>> {
    Box::new(e)
}

#[test]
fn semicolon_becomes_a_unit_binding() {
    let p = Exp::Semicolon { e1: b(Exp::Num(1, 7u32)), e2: b(Exp::Num(2, 8)), ann: 9 };
    let d = desugar_semicolon(&p);
    assert_eq!(d, Exp::Let { bindings: vec![("()".to_string(), Exp::Num(1, 7))], body: b(Exp::Num(2, 8)), ann: 9 });
}

#[test]
fn desugaring_reaches_inside_forms() {
    let p = Exp::If {
        cond: b(Exp::Bool(true, ())),
        thn: b(Exp::Semicolon { e1: b(Exp::Num(1, ())), e2: b(Exp::Num(2, ())), ann: () }),
        els: b(Exp::Num(3, ())),
        ann: (),
    };
    let d = desugar_semicolon(&p);
    let expected = Exp::If {
        cond: b(Exp::Bool(true, ())),
        thn: b(Exp::Let { bindings: vec![("()".to_string(), Exp::Num(1, ()))], body: b(Exp::Num(2, ())), ann: () }),
        els: b(Exp::Num(3, ())),
        ann: (),
    };
    assert_eq!(d, expected);
}

#[test]
fn numbering_in_evaluation_order() {
    let p = Exp::Let {
        bindings: vec![("x".to_string(), Exp::Num(5, ()))],
        body: b(Exp::Prim(Prim::Add1, vec![b(Exp::Var("x".to_string(), ()))], ())),
        ann: (),
    };
    let t = tag_exp(&p);
    let expected = Exp::Let {
        bindings: vec![("x".to_string(), Exp::Num(5, 1u32))],
        body: b(Exp::Prim(Prim::Add1, vec![b(Exp::Var("x".to_string(), 2))], 1)),
        ann: 0,
    };
    assert_eq!(t, expected);
}

#[test]
fn numbering_a_sequential_expression() {
    let e: SeqExp<()> = SeqExp::Let {
        var: "a".to_string(),
        bound_exp: Box::new(SeqExp::Imm(ImmExp::Num(1), ())),
        body: Box::new(SeqExp::Prim(Prim::Add1, vec![ImmExp::Var("a".to_string())], ())),
        ann: (),
    };
    let t = tag_seqexp(&e);
    let expected: SeqExp<u32> = SeqExp::Let {
        var: "a".to_string(),
        bound_exp: Box::new(SeqExp::Imm(ImmExp::Num(1), 1)),
        body: Box::new(SeqExp::Prim(Prim::Add1, vec![ImmExp::Var("a".to_string())], 2)),
        ann: 0,
    };
    assert_eq!(t, expected);
}

#[test]
fn numbering_a_program_continues_from_the_functions() {
    let p: SeqProg<()> = SeqProg {
        funs: vec![FunDecl {
            name: "f".to_string(),
            parameters: vec!["a".to_string()],
            body: SeqExp::Imm(ImmExp::Var("a".to_string()), ()),
            ann: (),
        }],
        main: SeqExp::Imm(ImmExp::Num(3), ()),
        ann: (),
    };
    let t = tag_prog(p);
    assert_eq!(t.funs[0].body, SeqExp::Imm(ImmExp::Var("a".to_string()), 0));
    assert_eq!(t.funs[0].ann, 1);
    assert_eq!(t.main, SeqExp::Imm(ImmExp::Num(3), 2));
    assert_eq!(t.ann, 3);
}

#[test]
fn unique_names_count_rebindings() {
    let p = Exp::Let {
        bindings: vec![("x".to_string(), Exp::Num(1, 0u32))],
        body: b(Exp::Let {
            bindings: vec![("x".to_string(), Exp::Var("x".to_string(), 2))],
            body: b(Exp::Var("x".to_string(), 3)),
            ann: 1,
        }),
        ann: 0,
    };
    let expected = Exp::Let {
        bindings: vec![("x0".to_string(), Exp::Num(1, ()))],
        body: b(Exp::Let {
            bindings: vec![("x1".to_string(), Exp::Var("x0".to_string(), ()))],
            body: b(Exp::Var("x1".to_string(), ())),
            ann: (),
        }),
        ann: (),
    };
    assert_eq!(uniquify(&p), Some(expected));
}

#[test]
fn unique_names_refuse_an_unbound_name() {
    assert_eq!(uniquify(&Exp::Var("y".to_string(), 0u32)), None);
}

fn fdecl<T>(name: &str, params: &[&str], body: Exp<T>, a: T) -> FunDecl<Exp<T>, T> {
    FunDecl { name: name.to_string(), parameters: params.iter().map(|p| p.to_string()).collect(), body, ann: a }
}

#[test]
fn calls_of_known_functions_become_direct() {
    let p = Exp::FunDefs {
        decls: vec![fdecl("f", &["a"], Exp::Var("a".to_string(), ()), ())],
        body: b(Exp::Call(b(Exp::Var("f".to_string(), ())), vec![Exp::Num(1, ())], ())),
        ann: (),
    };
    let expected = Exp::FunDefs {
        decls: vec![fdecl("f", &["a"], Exp::Var("a".to_string(), ()), ())],
        body: b(Exp::DirectCall("f".to_string(), vec![Exp::Num(1, ())], ())),
        ann: (),
    };
    assert_eq!(eliminate_closures(&p), expected);
}

#[test]
fn calls_of_other_values_go_through_closures() {
    let p = Exp::Let {
        bindings: vec![(
            "g".to_string(),
            Exp::Lambda { parameters: vec!["x".to_string()], body: b(Exp::Var("x".to_string(), ())), ann: () },
        )],
        body: b(Exp::Call(b(Exp::Var("g".to_string(), ())), vec![Exp::Num(2, ())], ())),
        ann: (),
    };
    let expected = Exp::Let {
        bindings: vec![(
            "g".to_string(),
            Exp::Lambda { parameters: vec!["x".to_string()], body: b(Exp::Var("x".to_string(), ())), ann: () },
        )],
        body: b(Exp::ClosureCall(b(Exp::Var("g".to_string(), ())), vec![Exp::Num(2, ())], ())),
        ann: (),
    };
    assert_eq!(eliminate_closures(&p), expected);
}

#[test]
fn tail_positions_are_marked() {
    let p = Exp::Let {
        bindings: vec![("x".to_string(), Exp::Prim(Prim::Add1, vec![b(Exp::Num(1, ()))], ()))],
        body: b(Exp::Prim(Prim::Sub1, vec![b(Exp::Var("x".to_string(), ()))], ())),
        ann: (),
    };
    let expected = Exp::Let {
        bindings: vec![("x".to_string(), Exp::Prim(Prim::Add1, vec![b(Exp::Num(1, false))], false))],
        body: b(Exp::Prim(Prim::Sub1, vec![b(Exp::Var("x".to_string(), false))], true)),
        ann: true,
    };
    assert_eq!(mark_tail(&p, true), expected);
}

#[test]
fn a_function_called_outside_tail_position_is_lifted() {
    let p = Exp::FunDefs {
        decls: vec![fdecl("f", &["a"], Exp::Var("a".to_string(), ()), ())],
        body: b(Exp::Prim(Prim::Add1, vec![b(Exp::DirectCall("f".to_string(), vec![Exp::Num(1, ())], ()))], ())),
        ann: (),
    };
    assert_eq!(should_lift(&p), vec!["f".to_string()]);
}

#[test]
fn a_function_called_only_in_tail_position_stays() {
    let p = Exp::FunDefs {
        decls: vec![fdecl("f", &["a"], Exp::Var("a".to_string(), ()), ())],
        body: b(Exp::DirectCall("f".to_string(), vec![Exp::Num(1, ())], ())),
        ann: (),
    };
    assert_eq!(should_lift(&p), Vec::<String>::new());
}

#[test]
fn lifting_a_program_without_functions_keeps_it() {
    let (funs, main) = lambda_lift(&Exp::Prim(Prim::Add1, vec![b(Exp::Num(3, ()))], ())).unwrap();
    assert!(funs.is_empty());
    assert_eq!(main, Exp::Prim(Prim::Add1, vec![b(Exp::Num(3, ()))], ()));
}

#[test]
fn a_lambda_becomes_a_top_level_function() {
    let p = Exp::Let {
        bindings: vec![(
            "g".to_string(),
            Exp::Lambda { parameters: vec!["x".to_string()], body: b(Exp::Var("x".to_string(), ())), ann: () },
        )],
        body: b(Exp::ClosureCall(b(Exp::Var("g".to_string(), ())), vec![Exp::Num(2, ())], ())),
        ann: (),
    };
    let (funs, _main) = lambda_lift(&p).unwrap();
    assert_eq!(funs.len(), 1);
    assert!(funs[0].name.starts_with("lambda"));
}

#[test]
fn unary_operator_binds_its_argument() {
    let p = Exp::Prim(Prim::Add1, vec![b(Exp::Num(3, 1u32))], 0);
    let mut funs = vec![];
    let s = sequentialize(&p, &mut funs);
    let expected: SeqExp<()> = SeqExp::Let {
        var: "#prim1_0".to_string(),
        bound_exp: Box::new(SeqExp::Imm(ImmExp::Num(3), ())),
        body: Box::new(SeqExp::Prim(Prim::Add1, vec![ImmExp::Var("#prim1_0".to_string())], ())),
        ann: (),
    };
    assert_eq!(s, expected);
    assert_eq!(seq_exp_to_string(&s), Some("(let ([#prim1_0 3]) in \n(+1 #prim1_0))".to_string()));
}

#[test]
fn binary_operator_binds_both_arguments() {
    let p = Exp::Prim(Prim::Add, vec![b(Exp::Num(1, 1u32)), b(Exp::Bool(true, 2))], 0);
    let mut funs = vec![];
    let s = sequentialize(&p, &mut funs);
    assert_eq!(
        seq_exp_to_string(&s),
        Some("(let ([#prim2_1_0 1]) in \n(let ([#prim2_2_0 true]) in \n(+ #prim2_1_0 #prim2_2_0)))".to_string())
    );
}

#[test]
fn sequential_program_of_a_constant() {
    let sp = seq_prog(&vec![], &Exp::Num(4, 0u32)).unwrap();
    assert!(sp.funs.is_empty());
    assert_eq!(sp.main, SeqExp::Imm(ImmExp::Num(4), ()));
}

#[test]
fn rendering_of_each_form() {
    let e: SeqExp<()> = SeqExp::FunDefs {
        decls: vec![FunDecl {
            name: "f".to_string(),
            parameters: vec!["a".to_string(), "b".to_string()],
            body: SeqExp::If {
                cond: ImmExp::Var("a".to_string()),
                thn: Box::new(SeqExp::InternalTailCall("f".to_string(), vec![ImmExp::Num(-1), ImmExp::Bool(false)], ())),
                els: Box::new(SeqExp::Imm(ImmExp::Var("b".to_string()), ())),
                ann: (),
            },
            ann: (),
        }],
        body: Box::new(SeqExp::Semicolon {
            e1: Box::new(SeqExp::ExternalCall {
                fun: VarOrLabel::Label("g".to_string()),
                args: vec![ImmExp::Num(1)],
                is_tail: false,
                ann: (),
            }),
            e2: Box::new(SeqExp::MakeClosure { arity: 2, label: "lambda0".to_string(), env: ImmExp::Var("e".to_string()), ann: () }),
            ann: (),
        }),
        ann: (),
    };
    let expected = "(letrec ((f (a b ) -> (if a (tail-call f -1 false ) b)) ) in \n\
                    (external-call Label(\"g\") 1 );\ne(make-closure 2 lambda0 ())";
    assert_eq!(seq_exp_to_string(&e), Some(expected.to_string()));
}

#[test]
fn floats_have_no_rendering() {
    let e: SeqExp<()> = SeqExp::Imm(ImmExp::Float(0x3f80_0000), ());
    assert_eq!(seq_exp_to_string(&e), None);
    let e2: SeqExp<()> = SeqExp::Prim(Prim::FAdd, vec![ImmExp::Num(1), ImmExp::Num(2)], ());
    assert_eq!(seq_exp_to_string(&e2), None);
}

#[test]
fn sequential_program_refuses_what_cannot_be_sequentialized() {
    let lam = Exp::Lambda { parameters: vec![], body: Box::new(Exp::Num(1, 1u32)), ann: 0 };
    assert!(seq_prog(&vec![], &lam).is_none());
    let bad = FunDecl {
        name: "f".to_string(),
        parameters: vec![],
        body: Exp::Semicolon { e1: Box::new(Exp::Num(1, ())), e2: Box::new(Exp::Num(2, ())), ann: () },
        ann: (),
    };
    assert!(seq_prog(&vec![bad], &Exp::Num(0, 0u32)).is_none());
}

#[test]
fn sequential_program_with_a_function() {
    let f = FunDecl { name: "f".to_string(), parameters: vec!["a".to_string()], body: Exp::Var("a".to_string(), ()), ann: () };
    let sp = seq_prog(&vec![f], &Exp::Num(4, 0u32)).unwrap();
    assert_eq!(sp.funs.len(), 1);
    assert_eq!(sp.funs[0].name, "f");
    assert_eq!(sp.funs[0].parameters, vec!["a".to_string()]);
    assert_eq!(sp.funs[0].body, SeqExp::Imm(ImmExp::Var("a".to_string()), ()));
}

#[test]
fn desugaring_keeps_each_definition_annotation() {
    let d = |n: &str, a: u32| FunDecl { name: n.to_string(), parameters: vec![], body: Exp::Num(0, a), ann: a + 1 };
    let p = Exp::FunDefs { decls: vec![d("f", 2), d("g", 4)], body: b(Exp::Num(0, 6)), ann: 0 };
    let r = desugar_semicolon(&p);
    assert_eq!(r, p);
}

#[test]
fn closure_conversion_keeps_a_program_without_definitions() {
    let p = Exp::Let {
        bindings: vec![("x".to_string(), Exp::Num(1, false))],
        body: b(Exp::Prim(Prim::Add1, vec![b(Exp::Var("x".to_string(), false))], true)),
        ann: true,
    };
    let q = Exp::Let {
        bindings: vec![("x".to_string(), Exp::Num(1, false))],
        body: b(Exp::Prim(Prim::Add1, vec![b(Exp::Var("x".to_string(), false))], true)),
        ann: true,
    };
    assert_eq!(lib::recur::recur_helper(&p), q);
    assert_eq!(lib::capture::variable_capture_helper(&p), q);
}

#[test]
fn capture_settles_on_its_result() {
    let p = Exp::FunDefs {
        decls: vec![fdecl("f", &["a"], Exp::Prim(Prim::Add, vec![b(Exp::Var("a".to_string(), false)), b(Exp::Var("y".to_string(), false))], true), false)],
        body: b(Exp::Let {
            bindings: vec![("y".to_string(), Exp::Num(2, false))],
            body: b(Exp::InternalTailCall("f".to_string(), vec![Exp::Num(1, false)], true)),
            ann: true,
        }),
        ann: true,
    };
    let r = lib::capture::variable_capture(p).unwrap();
    assert_eq!(lib::capture::variable_capture_helper(&r), r);
}
