//! Tests of the parser: source text through `Ast::parse_code`, executed with
//! `Program::run_loop`, with printed lines, exit values and error kinds
//! checked; plus literal round trips between printing and reparsing.

use teolang::ast::Ast;
use teolang::data::Data;
use teolang::errors::Error;
use teolang::eval::ReturnType;
use teolang::interp::Program;
use teolang::num::Num;

fn features() -> Vec<String> {
    vec![
        String::from("return"),
        String::from("print"),
        String::from("input"),
        String::from("inputf"),
        String::from("split"),
        String::from("join"),
    ]
}

fn run_src(src: &str, input: Vec<String>) -> (Vec<String>, Result<ReturnType, Error>) {
    let ast = Ast::parse_code(src).expect("the program should parse");
    let mut p = Program::new(ast, features(), input);
    let r = p.run_loop();
    (p.output, r)
}

fn exit_number(r: &Result<ReturnType, Error>) -> Num {
    match r {
        Ok(ReturnType::Return(Data::Number(k))) => *k,
        other => panic!("expected a numeric exit, got {:?}", other),
    }
}

fn num_is(k: &Num, mantissa: i128, scale: u32) -> bool {
    let a = k.normalize();
    let b = Num { mantissa, scale }.normalize();
    a.mantissa == b.mantissa && a.scale == b.scale
}

#[test]
fn src_arithmetic_and_print() {
    let (out, r) = run_src("print(1 + 2 * 3); return(0);", vec![]);
    assert_eq!(out, vec![String::from("7")]);
    assert!(num_is(&exit_number(&r), 0, 0));
}

#[test]
fn src_variables_and_conditional() {
    let (out, r) = run_src("n = 10; if (n > 5) { print(\"big\"); }; return(n);", vec![]);
    assert_eq!(out, vec![String::from("big")]);
    assert!(num_is(&exit_number(&r), 10, 0));
}

#[test]
fn src_array_mutation() {
    let (out, r) = run_src(
        "x = [5, 7, 3]; x[1] = 9; print(x[0]); print(x[1]); print(x[2]); return(0);",
        vec![],
    );
    assert_eq!(out, vec![String::from("5"), String::from("9"), String::from("3")]);
    assert!(num_is(&exit_number(&r), 0, 0));
}

#[test]
fn src_user_function_typed_params() {
    let (out, r) = run_src(
        "def pow2(b: Number, e: Number) { r = 1; for i in [1,2,3,4] { r = r * b; }; return(r); }; print(pow2(3, 4)); return(0);",
        vec![],
    );
    assert_eq!(out, vec![String::from("81")]);
    assert!(num_is(&exit_number(&r), 0, 0));
}

#[test]
fn src_for_loop_accumulator() {
    let (_, r) = run_src("s = 0; for v in [1, 2, 3, 4] { s = s + v; }; return(s);", vec![]);
    assert!(num_is(&exit_number(&r), 10, 0));
}

#[test]
fn src_early_return_from_function() {
    let (out, r) = run_src(
        "def first(a: Array) { for v in a { return(v); }; return(0); }; print(first([42, 1, 2])); return(0);",
        vec![],
    );
    assert_eq!(out, vec![String::from("42")]);
    assert!(num_is(&exit_number(&r), 0, 0));
}

#[test]
fn src_decimal_exactness() {
    let (out, _) = run_src("print(0.1 + 0.2 == 0.3); return(0);", vec![]);
    assert_eq!(out, vec![String::from("true")]);
}

#[test]
fn src_power_right_associative() {
    let (_, r) = run_src("return(2 ^ 3 ^ 2);", vec![]);
    assert!(num_is(&exit_number(&r), 512, 0));
}

#[test]
fn src_unary_minus_and_factorial() {
    let (out, r) = run_src("print(-3 + 5); print(5!); return(0);", vec![]);
    assert_eq!(out, vec![String::from("2"), String::from("120")]);
    assert!(num_is(&exit_number(&r), 0, 0));
}

#[test]
fn src_comparisons() {
    let (out, _) = run_src(
        "print(1 <= 1); print(2 < 1); print(2 >= 3); print(1 != 2); return(0);",
        vec![],
    );
    assert_eq!(
        out,
        vec![
            String::from("true"),
            String::from("false"),
            String::from("false"),
            String::from("true"),
        ]
    );
}

#[test]
fn src_slices() {
    let (out, r) = run_src(
        "a = [1, 2, 3, 4]; b = a[1..2]; print(b[0]); print(b[1]); c = a[2..]; print(c[0]); d = a[..0]; print(d[0]); print(a[3]); return(0);",
        vec![],
    );
    assert_eq!(
        out,
        vec![
            String::from("2"),
            String::from("3"),
            String::from("3"),
            String::from("1"),
            String::from("4"),
        ]
    );
    assert!(num_is(&exit_number(&r), 0, 0));
}

#[test]
fn src_string_escapes() {
    let (out, _) = run_src("print(\"a\\x21b\"); print(\"\\u0041\"); print(\"q\\x22q\"); return(0);", vec![]);
    assert_eq!(
        out,
        vec![String::from("a!b"), String::from("A"), String::from("q\"q")]
    );
}

#[test]
fn src_frame_isolation() {
    let (_, r) = run_src(
        "x = 5; def f(x: Number) { x = x + 1; return(x); }; f(5); return(x);",
        vec![],
    );
    assert!(num_is(&exit_number(&r), 5, 0));
}

#[test]
fn src_redefinition_fails() {
    let (_, r) = run_src("def print(a: Number) { return(a); }; return(0);", vec![]);
    match r {
        Err(Error::FunctionRedefinition(name)) => assert_eq!(name, String::from("print")),
        other => panic!("expected a redefinition error, got {:?}", other),
    }
}

#[test]
fn src_arity_mismatch() {
    let (_, r) = run_src("def g(a: Number) { return(a); }; g(1, 2); return(0);", vec![]);
    match r {
        Err(Error::ArityMismatch(want, got)) => {
            assert_eq!(want, 1);
            assert_eq!(got, 2);
        },
        other => panic!("expected an arity error, got {:?}", other),
    }
}

#[test]
fn parse_error_reports_position() {
    match Ast::parse_code("n = ;") {
        Err(Error::ParseError(p)) => assert_eq!(p, 4),
        other => panic!("expected a parse error, got {:?}", other),
    }
    match Ast::parse_code("print(1 +") {
        Err(Error::ParseError(_)) => {},
        other => panic!("expected a parse error, got {:?}", other),
    }
    match Ast::parse_code("x = \"unterminated") {
        Err(Error::ParseError(_)) => {},
        other => panic!("expected a parse error, got {:?}", other),
    }
}

#[test]
fn roundtrip_numbers() {
    for (lit, m, s) in [
        ("12.50", 125i128, 1u32),
        ("0", 0, 0),
        ("100", 100, 0),
        ("-3.07", -307, 2),
        ("0.0010", 1, 3),
    ] {
        let (out, _) = run_src(&format!("print({});", lit), vec![]);
        let back = format!("return({});", out[0]);
        let (_, r) = run_src(&back, vec![]);
        assert!(num_is(&exit_number(&r), m, s), "round trip of {} via {:?}", lit, out);
    }
}

#[test]
fn roundtrip_bool_and_string() {
    let (out, _) = run_src("print(true); print(false);", vec![]);
    assert_eq!(out, vec![String::from("true"), String::from("false")]);
    let (_, r) = run_src("return(true);", vec![]);
    match r {
        Ok(ReturnType::Return(Data::Bool(true))) => {},
        other => panic!("expected true, got {:?}", other),
    }
    let (out2, _) = run_src("print(\"hello world\");", vec![]);
    let back = format!("print(\"{}\");", out2[0]);
    let (out3, _) = run_src(&back, vec![]);
    assert_eq!(out2, out3);
}

#[test]
fn roundtrip_array_of_literals() {
    let (_, r) = run_src("return([1, \"a\", true]);", vec![]);
    match r {
        Ok(ReturnType::Return(Data::Array(items))) => {
            assert_eq!(items.len(), 3);
            match &items[0] {
                Data::Number(k) => assert!(num_is(k, 1, 0)),
                other => panic!("expected a number, got {:?}", other),
            }
            match &items[1] {
                Data::String(s) => assert_eq!(s, &String::from("a")),
                other => panic!("expected a string, got {:?}", other),
            }
            match &items[2] {
                Data::Bool(true) => {},
                other => panic!("expected true, got {:?}", other),
            }
        },
        other => panic!("expected an array exit, got {:?}", other),
    }
}

#[test]
fn src_parenthesised_expression() {
    let (_, r) = run_src("return((1 + 2) * 3);", vec![]);
    assert!(num_is(&exit_number(&r), 9, 0));
}

#[test]
fn src_definitions_inside_if_persist() {
    let (out, r) = run_src(
        "if (true) { def h(a: Number) { return(a + 1); }; }; print(h(4)); return(0);",
        vec![],
    );
    assert_eq!(out, vec![String::from("5")]);
    assert!(num_is(&exit_number(&r), 0, 0));
}
