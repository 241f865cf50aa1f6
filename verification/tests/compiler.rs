use velra::ast::{BinaryOp, Expr, Program, Stmt};
use velra::compiler::encode;
use velra::{artifact, check, compile, load_artifact};

#[test]
fn artifact_round_trips_program() {
    let source = r#"
add(a: Int, b: Int) => a + b
value = if true { add(1, 2) } else { 0 }
when value {
    3 => "ok"
    else => "bad"
}
"#;
    let program = check(source).unwrap();
    let artifact = encode(&program);
    assert_eq!(artifact::decode(&artifact).unwrap(), program);
}

#[test]
fn encodes_a_small_program_exactly() {
    let program = check("x = 1 + 2.5\nprint \"hi\\n\"").unwrap();
    assert_eq!(
        encode(&program),
        "VELRA-AST-1\n(program (assign (ident \"x\") (binary add (int 1) (float 2.5))) \
         (expr (call (ident \"print\") (args (string \"hi\\n\")))))"
    );
}

#[test]
fn encodes_negative_integers_and_empty_programs() {
    let program = Program {
        statements: vec![Stmt::Expr(Expr::Int(-42))],
    };
    assert_eq!(encode(&program), "VELRA-AST-1\n(program (expr (int -42)))");
    assert_eq!(encode(&Program { statements: vec![] }), "VELRA-AST-1\n(program)");
}

#[test]
fn compiled_programs_load_back() {
    let source = "value = \"é🙂\\n\\\"ok\\\"\"\nvalue";
    let encoded = compile(source).unwrap();
    let loaded = load_artifact(&encoded).unwrap();
    assert_eq!(loaded, check(source).unwrap());
    assert!(matches!(
        &loaded.statements[0],
        Stmt::Assign { value: Expr::String(text), .. } if text == "é🙂\n\"ok\""
    ));
}

#[test]
fn round_trip_keeps_operators_and_nesting() {
    let source = "f(x) {\n  when x {\n    1, 2 if x > 0 => [x, -x]\n    else => { return !x }\n  }\n}\ny = a?.b[0] ?: c(d) % 3";
    let program = check(source).unwrap();
    let loaded = load_artifact(&compile(source).unwrap()).unwrap();
    assert_eq!(loaded, program);
    assert!(matches!(
        &program.statements[1],
        Stmt::Assign { value: Expr::Binary { op: BinaryOp::Elvis, .. }, .. }
    ));
}
