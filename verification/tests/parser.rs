use velra::ast::{Expr, Program, Stmt};
use velra::parser::Parser;
use velra::{check, Error};

fn parse_ok(source: &str) -> Program {
    Parser::from_source(source)
        .unwrap()
        .parse_program()
        .unwrap()
}

#[test]
fn parses_minimal_declarations() {
    let program = parse_ok("name = \"Velra\"\nvar count: Int = 1\nadd(a, b) => a + b");
    assert_eq!(program.statements.len(), 3);
    assert!(matches!(program.statements[1], Stmt::Var { .. }));
    assert!(matches!(program.statements[2], Stmt::Function(_)));
}

#[test]
fn parses_data_when_and_safe_access() {
    let source = r#"
User(name: String) {
    label => name
}
user = User("Ada")
when user?.label {
    "Ada" => true
    else => false
}
"#;
    assert_eq!(parse_ok(source).statements.len(), 3);
}

#[test]
fn parses_command_style_calls() {
    let program = parse_ok("print \"hello\", 42");
    assert!(matches!(
        program.statements[0],
        Stmt::Expr(Expr::Call { .. })
    ));
}

#[test]
fn adjacent_indexing_is_not_a_command_call() {
    let program = parse_ok("value = [1]\nvalue[0]");
    assert!(matches!(
        program.statements[1],
        Stmt::Expr(Expr::Index { .. })
    ));
}

#[test]
fn rejects_reserved_keywords_and_misplaced_pub() {
    match check("async work() => 1") {
        Err(Error::Parse(e)) => {
            assert_eq!(e.message, "keyword is reserved for a future language feature");
            assert_eq!(e.offset, 0);
        }
        other => panic!("unexpected {:?}", other.map(|_| ())),
    }
    match check("x = try") {
        Err(Error::Parse(e)) => {
            assert_eq!(e.message, "keyword is reserved for a future language feature");
            assert_eq!(e.offset, 4);
        }
        other => panic!("unexpected {:?}", other.map(|_| ())),
    }
    match check("pub print 1") {
        Err(Error::Parse(e)) => assert_eq!(e.message, "'pub' is only valid on declarations"),
        other => panic!("unexpected {:?}", other.map(|_| ())),
    }
    match check("pub pub x = 1") {
        Err(Error::Parse(e)) => assert_eq!(e.describe(), "duplicate 'pub' modifier at byte 4"),
        other => panic!("unexpected {:?}", other.map(|_| ())),
    }
}

#[test]
fn reports_missing_separators_and_unterminated_blocks() {
    match check("f() {\n  x = 1\n") {
        Err(Error::Parse(e)) => assert_eq!(e.message, "unterminated block"),
        other => panic!("unexpected {:?}", other.map(|_| ())),
    }
    match check("x = 1 y = 2") {
        Err(Error::Parse(e)) => assert_eq!(e.message, "expected a newline or ';' between statements"),
        other => panic!("unexpected {:?}", other.map(|_| ())),
    }
    match check("x = \"open") {
        Err(Error::Lex(e)) => assert_eq!(e.message, "unterminated string literal"),
        other => panic!("unexpected {:?}", other.map(|_| ())),
    }
}

#[test]
fn else_may_follow_newlines_and_if_chains() {
    let program = parse_ok("v = if a { 1 }\nelse if b { 2 } else { 3 }");
    assert!(matches!(
        &program.statements[0],
        Stmt::Assign { value: Expr::If { else_branch: Some(_), .. }, .. }
    ));
    let program = parse_ok("v = if a { 1 }\nw = 2");
    assert_eq!(program.statements.len(), 2);
}

#[test]
fn nullable_annotations_keep_their_question_mark() {
    let program = check("var x: Int? = null\nf(a: String?) => a").unwrap();
    match &program.statements[0] {
        Stmt::Var { type_annotation, .. } => assert_eq!(type_annotation.as_deref(), Some("Int?")),
        other => panic!("unexpected {other:?}"),
    }
    match &program.statements[1] {
        Stmt::Function(f) => assert_eq!(f.params[0].type_annotation.as_deref(), Some("String?")),
        other => panic!("unexpected {other:?}"),
    }
}
