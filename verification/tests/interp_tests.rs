//! End-to-end tests of the evaluator: whole programs as syntax trees, run
//! through `Program::run_loop`, with the printed lines and the exit value
//! checked.

use teolang::ast::Ast;
use teolang::data::Data;
use teolang::errors::Error;
use teolang::interp::Program;
use teolang::eval::ReturnType;
use teolang::num::Num;

fn n(m: i128, s: u32) -> Ast {
    Ast::Int(Num { mantissa: m, scale: s })
}

fn ident(x: &str) -> Ast {
    Ast::Identifier(String::from(x))
}

fn call(name: &str, args: Vec<Ast>) -> Ast {
    Ast::FunctionCall { id: String::from(name), args }
}

fn binop(op: &str, l: Ast, r: Ast) -> Ast {
    Ast::BinaryOp { op: String::from(op), left: Box::new(l), right: Box::new(r) }
}

fn assign(target: Ast, e: Ast) -> Ast {
    Ast::Assign { id: Box::new(target), expr: Box::new(e) }
}

fn block(stmts: Vec<Ast>) -> Ast {
    Ast::Block(stmts)
}

fn features() -> Vec<String> {
    vec![
        String::from("return"),
        String::from("print"),
        String::from("input"),
        String::from("inputf"),
        String::from("split"),
        String::from("join"),
    ]
}

fn run(prog: Ast, input: Vec<String>) -> (Vec<String>, Result<ReturnType, Error>) {
    let mut p = Program::new(prog, features(), input);
    let r = p.run_loop();
    (p.output, r)
}

fn exit_number(r: &Result<ReturnType, Error>) -> Num {
    match r {
        Ok(ReturnType::Return(Data::Number(k))) => *k,
        other => panic!("expected a numeric exit, got {:?}", other),
    }
}

fn num_is(k: &Num, mantissa: i128, scale: u32) -> bool {
    let a = k.normalize();
    let b = Num { mantissa, scale }.normalize();
    a.mantissa == b.mantissa && a.scale == b.scale
}

#[test]
fn arithmetic_and_print() {
    // print(1 + 2 * 3); return(0);
    let prog = block(vec![
        call("print", vec![binop("+", n(1, 0), binop("*", n(2, 0), n(3, 0)))]),
        call("return", vec![n(0, 0)]),
    ]);
    let (out, r) = run(prog, vec![]);
    assert_eq!(out, vec![String::from("7")]);
    assert!(num_is(&exit_number(&r), 0, 0));
}

#[test]
fn variables_and_conditional() {
    // n = 10; if (n > 5) { print("big"); }; return(n);
    let prog = block(vec![
        assign(ident("n"), n(10, 0)),
        Ast::If {
            condition: Box::new(binop(">", ident("n"), n(5, 0))),
            block: Box::new(block(vec![call(
                "print",
                vec![Ast::String(String::from("big"))],
            )])),
        },
        call("return", vec![ident("n")]),
    ]);
    let (out, r) = run(prog, vec![]);
    assert_eq!(out, vec![String::from("big")]);
    assert!(num_is(&exit_number(&r), 10, 0));
}

#[test]
fn array_mutation_via_indexed_assignment() {
    // x = [5, 7, 3]; x[1] = 9; print(x[0]); print(x[1]); print(x[2]); return(0);
    let x_at = |i: i128| Ast::ArrayAccess {
        expr: Box::new(ident("x")),
        whereto: Box::new(n(i, 0)),
    };
    let prog = block(vec![
        assign(ident("x"), Ast::Array(vec![n(5, 0), n(7, 0), n(3, 0)])),
        assign(x_at(1), n(9, 0)),
        call("print", vec![x_at(0)]),
        call("print", vec![x_at(1)]),
        call("print", vec![x_at(2)]),
        call("return", vec![n(0, 0)]),
    ]);
    let (out, r) = run(prog, vec![]);
    assert_eq!(out, vec!["5".to_string(), "9".to_string(), "3".to_string()]);
    assert!(num_is(&exit_number(&r), 0, 0));
}

#[test]
fn user_function_with_typed_parameters() {
    // def pow2(b: Number, e: Number) { r = 1; for i in [1,2,3,4] { r = r * b; };
    //   return(r); }; print(pow2(3, 4)); return(0);
    let body = block(vec![
        assign(ident("r"), n(1, 0)),
        Ast::ForLoop {
            element: Box::new(ident("i")),
            elements: Box::new(Ast::Array(vec![n(1, 0), n(2, 0), n(3, 0), n(4, 0)])),
            block: Box::new(block(vec![assign(
                ident("r"),
                binop("*", ident("r"), ident("b")),
            )])),
        },
        call("return", vec![ident("r")]),
    ]);
    let prog = block(vec![
        Ast::FunctionDefinition {
            id: String::from("pow2"),
            params: vec![
                (String::from("b"), String::from("Number")),
                (String::from("e"), String::from("Number")),
            ],
            body: Box::new(body),
        },
        call("print", vec![call("pow2", vec![n(3, 0), n(4, 0)])]),
        call("return", vec![n(0, 0)]),
    ]);
    let (out, r) = run(prog, vec![]);
    assert_eq!(out, vec![String::from("81")]);
    assert!(num_is(&exit_number(&r), 0, 0));
}

#[test]
fn for_loop_accumulator() {
    // s = 0; for v in [1, 2, 3, 4] { s = s + v; }; return(s);
    let prog = block(vec![
        assign(ident("s"), n(0, 0)),
        Ast::ForLoop {
            element: Box::new(ident("v")),
            elements: Box::new(Ast::Array(vec![n(1, 0), n(2, 0), n(3, 0), n(4, 0)])),
            block: Box::new(block(vec![assign(
                ident("s"),
                binop("+", ident("s"), ident("v")),
            )])),
        },
        call("return", vec![ident("s")]),
    ]);
    let (out, r) = run(prog, vec![]);
    assert_eq!(out.len(), 0);
    assert!(num_is(&exit_number(&r), 10, 0));
}

#[test]
fn early_return_from_function() {
    // def first(a: Array) { for v in a { return(v); }; return(0); };
    // print(first([42, 1, 2])); return(0);
    let body = block(vec![
        Ast::ForLoop {
            element: Box::new(ident("v")),
            elements: Box::new(ident("a")),
            block: Box::new(block(vec![call("return", vec![ident("v")])])),
        },
        call("return", vec![n(0, 0)]),
    ]);
    let prog = block(vec![
        Ast::FunctionDefinition {
            id: String::from("first"),
            params: vec![(String::from("a"), String::from("Array"))],
            body: Box::new(body),
        },
        call(
            "print",
            vec![call("first", vec![Ast::Array(vec![n(42, 0), n(1, 0), n(2, 0)])])],
        ),
        call("return", vec![n(0, 0)]),
    ]);
    let (out, r) = run(prog, vec![]);
    assert_eq!(out, vec![String::from("42")]);
    assert!(num_is(&exit_number(&r), 0, 0));
}

#[test]
fn decimal_exactness() {
    // x = 0.1 + 0.2 == 0.3; return(x);
    let prog = block(vec![
        assign(
            ident("x"),
            binop("==", binop("+", n(1, 1), n(2, 1)), n(3, 1)),
        ),
        call("return", vec![ident("x")]),
    ]);
    let (_, r) = run(prog, vec![]);
    match r {
        Ok(ReturnType::Return(Data::Bool(b))) => assert!(b),
        other => panic!("expected a boolean exit, got {:?}", other),
    }
}

#[test]
fn factorial_domain() {
    // (-1)! fails with a domain error
    let neg_fac = block(vec![call(
        "return",
        vec![binop("!", n(-1, 0), n(0, 0))],
    )]);
    let (_, r) = run(neg_fac, vec![]);
    match r {
        Err(Error::DomainError(_)) => {}
        other => panic!("expected a domain error, got {:?}", other),
    }
    // 0! is 1
    let zero_fac = block(vec![call("return", vec![binop("!", n(0, 0), n(0, 0))])]);
    let (_, r) = run(zero_fac, vec![]);
    assert!(num_is(&exit_number(&r), 1, 0));
    // 5! is 120
    let five_fac = block(vec![call("return", vec![binop("!", n(5, 0), n(0, 0))])]);
    let (_, r) = run(five_fac, vec![]);
    assert!(num_is(&exit_number(&r), 120, 0));
}

#[test]
fn array_write_of_same_value_keeps_array() {
    // a = [4, 6]; a[1] = a[1]; print(a[0]); print(a[1]); return(0);
    let a_at = |i: i128| Ast::ArrayAccess {
        expr: Box::new(ident("a")),
        whereto: Box::new(n(i, 0)),
    };
    let prog = block(vec![
        assign(ident("a"), Ast::Array(vec![n(4, 0), n(6, 0)])),
        assign(a_at(1), a_at(1)),
        call("print", vec![a_at(0)]),
        call("print", vec![a_at(1)]),
        call("return", vec![n(0, 0)]),
    ]);
    let (out, _) = run(prog, vec![]);
    assert_eq!(out, vec!["4".to_string(), "6".to_string()]);
}

#[test]
fn full_slice_equals_array() {
    // a = [1, 2, 3]; b = a[0..2]; print(b[0]); print(b[1]); print(b[2]); return(0);
    let prog = block(vec![
        assign(ident("a"), Ast::Array(vec![n(1, 0), n(2, 0), n(3, 0)])),
        assign(
            ident("b"),
            Ast::ArrayAccess {
                expr: Box::new(ident("a")),
                whereto: Box::new(Ast::AstSlice {
                    from: Some(Box::new(n(0, 0))),
                    to: Some(Box::new(n(2, 0))),
                }),
            },
        ),
        call(
            "print",
            vec![Ast::ArrayAccess {
                expr: Box::new(ident("b")),
                whereto: Box::new(n(0, 0)),
            }],
        ),
        call(
            "print",
            vec![Ast::ArrayAccess {
                expr: Box::new(ident("b")),
                whereto: Box::new(n(2, 0)),
            }],
        ),
        call("return", vec![n(0, 0)]),
    ]);
    let (out, _) = run(prog, vec![]);
    assert_eq!(out, vec!["1".to_string(), "3".to_string()]);
}

#[test]
fn open_ended_slices() {
    // a = [1, 2, 3]; b = a[1..]; c = a[..1]; print(b[0]); print(c[1]); return(0);
    let prog = block(vec![
        assign(ident("a"), Ast::Array(vec![n(1, 0), n(2, 0), n(3, 0)])),
        assign(
            ident("b"),
            Ast::ArrayAccess {
                expr: Box::new(ident("a")),
                whereto: Box::new(Ast::AstSlice {
                    from: Some(Box::new(n(1, 0))),
                    to: None,
                }),
            },
        ),
        assign(
            ident("c"),
            Ast::ArrayAccess {
                expr: Box::new(ident("a")),
                whereto: Box::new(Ast::AstSlice {
                    from: None,
                    to: Some(Box::new(n(1, 0))),
                }),
            },
        ),
        call(
            "print",
            vec![Ast::ArrayAccess {
                expr: Box::new(ident("b")),
                whereto: Box::new(n(0, 0)),
            }],
        ),
        call(
            "print",
            vec![Ast::ArrayAccess {
                expr: Box::new(ident("c")),
                whereto: Box::new(n(1, 0)),
            }],
        ),
        call("return", vec![n(0, 0)]),
    ]);
    let (out, _) = run(prog, vec![]);
    assert_eq!(out, vec!["2".to_string(), "2".to_string()]);
}

#[test]
fn frame_isolation_of_user_calls() {
    // x = 5; def f(x: Number) { x = x + 1; return(x); }; y = f(5); print(x);
    // print(y); return(0);
    let body = block(vec![
        assign(ident("x"), binop("+", ident("x"), n(1, 0))),
        call("return", vec![ident("x")]),
    ]);
    let prog = block(vec![
        assign(ident("x"), n(5, 0)),
        Ast::FunctionDefinition {
            id: String::from("f"),
            params: vec![(String::from("x"), String::from("Number"))],
            body: Box::new(body),
        },
        assign(ident("y"), call("f", vec![n(5, 0)])),
        call("print", vec![ident("x")]),
        call("print", vec![ident("y")]),
        call("return", vec![n(0, 0)]),
    ]);
    let (out, _) = run(prog, vec![]);
    assert_eq!(out, vec!["5".to_string(), "6".to_string()]);
}

#[test]
fn left_to_right_argument_marks() {
    // def f(a: Number, b: Number) { return(0); };
    // f(print("l"), print("r")) evaluates its arguments left to right, but
    // print returns a number, so use prints as the argument expressions.
    let prog = block(vec![
        Ast::FunctionDefinition {
            id: String::from("f"),
            params: vec![
                (String::from("a"), String::from("Number")),
                (String::from("b"), String::from("Number")),
            ],
            body: Box::new(block(vec![call("return", vec![n(0, 0)])])),
        },
        call(
            "f",
            vec![
                call("print", vec![Ast::String(String::from("l"))]),
                call("print", vec![Ast::String(String::from("r"))]),
            ],
        ),
        call("return", vec![n(0, 0)]),
    ]);
    let (out, _) = run(prog, vec![]);
    assert_eq!(out, vec!["l".to_string(), "r".to_string()]);
}

#[test]
fn split_and_join_builtins() {
    // r = split(" 1 true foo "); print(r[0]); print(r[1]); print(r[2]);
    // j = join([7], [8]); print(j[0]); print(j[1]); return(0);
    let r_at = |i: i128| Ast::ArrayAccess {
        expr: Box::new(ident("r")),
        whereto: Box::new(n(i, 0)),
    };
    let j_at = |i: i128| Ast::ArrayAccess {
        expr: Box::new(ident("j")),
        whereto: Box::new(n(i, 0)),
    };
    let prog = block(vec![
        assign(
            ident("r"),
            call("split", vec![Ast::String(String::from(" 1 true foo "))]),
        ),
        call("print", vec![r_at(0)]),
        call("print", vec![r_at(1)]),
        call("print", vec![r_at(2)]),
        assign(
            ident("j"),
            call(
                "join",
                vec![Ast::Array(vec![n(7, 0)]), Ast::Array(vec![n(8, 0)])],
            ),
        ),
        call("print", vec![j_at(0)]),
        call("print", vec![j_at(1)]),
        call("return", vec![n(0, 0)]),
    ]);
    let (out, _) = run(prog, vec![]);
    assert_eq!(
        out,
        vec![
            "1".to_string(),
            "true".to_string(),
            "foo".to_string(),
            "7".to_string(),
            "8".to_string()
        ]
    );
}

#[test]
fn input_and_inputf_builtins() {
    // a = input(); print(a); b = inputf("%Number %Bool"); print(b[0]);
    // print(b[1]); return(0);
    let b_at = |i: i128| Ast::ArrayAccess {
        expr: Box::new(ident("b")),
        whereto: Box::new(n(i, 0)),
    };
    let prog = block(vec![
        assign(ident("a"), call("input", vec![])),
        call("print", vec![ident("a")]),
        assign(
            ident("b"),
            call("inputf", vec![Ast::String(String::from("%Number %Bool"))]),
        ),
        call("print", vec![b_at(0)]),
        call("print", vec![b_at(1)]),
        call("return", vec![n(0, 0)]),
    ]);
    let (out, _) = run(
        prog,
        vec![String::from("hello"), String::from("3.5 true")],
    );
    assert_eq!(
        out,
        vec!["hello".to_string(), "3.5".to_string(), "true".to_string()]
    );
}

#[test]
fn errors_are_reported() {
    // an unknown variable
    let (_, r) = run(block(vec![call("return", vec![ident("nope")])]), vec![]);
    assert!(matches!(r, Err(Error::VariableNotFound(_))));
    // an unknown function
    let (_, r) = run(block(vec![call("nope", vec![])]), vec![]);
    assert!(matches!(r, Err(Error::UndefinedFunction(_))));
    // division by zero
    let (_, r) = run(
        block(vec![call("return", vec![binop("/", n(1, 0), n(0, 0))])]),
        vec![],
    );
    assert!(matches!(r, Err(Error::DivisionByZero)));
    // an index outside the array
    let prog = block(vec![
        assign(ident("a"), Ast::Array(vec![n(1, 0)])),
        call(
            "return",
            vec![Ast::ArrayAccess {
                expr: Box::new(ident("a")),
                whereto: Box::new(n(4, 0)),
            }],
        ),
    ]);
    let (_, r) = run(prog, vec![]);
    assert!(matches!(r, Err(Error::IndexOutOfBounds)));
    // redefinition of an enabled built-in
    let prog = block(vec![Ast::FunctionDefinition {
        id: String::from("print"),
        params: vec![],
        body: Box::new(block(vec![])),
    }]);
    let (_, r) = run(prog, vec![]);
    assert!(matches!(r, Err(Error::FunctionRedefinition(_))));
    // a wrong argument count
    let prog = block(vec![
        Ast::FunctionDefinition {
            id: String::from("f"),
            params: vec![(String::from("a"), String::from("Number"))],
            body: Box::new(block(vec![])),
        },
        call("f", vec![]),
    ]);
    let (_, r) = run(prog, vec![]);
    assert!(matches!(r, Err(Error::ArityMismatch(1, 0))));
    // a wrong argument kind
    let prog = block(vec![
        Ast::FunctionDefinition {
            id: String::from("g"),
            params: vec![(String::from("a"), String::from("Number"))],
            body: Box::new(block(vec![])),
        },
        call("g", vec![Ast::String(String::from("x"))]),
    ]);
    let (_, r) = run(prog, vec![]);
    assert!(matches!(r, Err(Error::TypeError(_))));
    // a disabled feature
    let mut p = Program::new(
        block(vec![call("split", vec![Ast::String(String::from("x"))])]),
        vec![String::from("return"), String::from("print"), String::from("split")],
        vec![],
    );
    // `split` enabled works; an enabled but unknown name is FeatureDisabled
    let _ = p.run_loop();
    let mut p2 = Program::new(
        block(vec![call("custom", vec![])]),
        vec![
            String::from("return"),
            String::from("print"),
            String::from("custom"),
        ],
        vec![],
    );
    let r2 = p2.run_loop();
    assert!(matches!(r2, Err(Error::FeatureDisabled(_))));
}

#[test]
fn number_text_is_canonical() {
    let d = Data::Number(Num { mantissa: 1500, scale: 2 });
    assert_eq!(d.as_string().unwrap(), "15");
    let d = Data::Number(Num { mantissa: -1500, scale: 3 });
    assert_eq!(d.as_string().unwrap(), "-1.5");
    let d = Data::Number(Num { mantissa: 0, scale: 5 });
    assert_eq!(d.as_string().unwrap(), "0");
    let d = Data::Number(Num { mantissa: 105, scale: 2 });
    assert_eq!(d.as_string().unwrap(), "1.05");
    let d = Data::Bool(true);
    assert_eq!(d.as_string().unwrap(), "true");
}

#[test]
fn bool_coerces_in_arithmetic() {
    // return(true + 2);
    let prog = block(vec![call(
        "return",
        vec![binop("+", Ast::Bool(true), n(2, 0))],
    )]);
    let (_, r) = run(prog, vec![]);
    assert!(num_is(&exit_number(&r), 3, 0));
}
