use velra::ast::{Expr, Stmt};
use velra::{artifact, check, compile, lexer, load_artifact};

#[test]
fn rejects_reserved_features_cleanly() {
    let error = check("async work() => 1").unwrap_err().describe();
    assert!(error.contains("reserved"));
}

#[test]
fn artifact_round_trip_preserves_unicode_and_escapes() {
    let source = "value = \"é🙂\\n\\\"ok\\\"\"\nvalue";
    let encoded = compile(source).unwrap();

    let program = load_artifact(&encoded).unwrap();
    assert_eq!(program, check(source).unwrap());
    match &program.statements[0] {
        Stmt::Assign { value: Expr::String(text), .. } => assert_eq!(text, "é🙂\n\"ok\""),
        other => panic!("unexpected {other:?}"),
    }
}

#[test]
fn artifact_errors_report_utf8_byte_offsets() {
    const HEADER: &str = "VELRA-AST-1\n";
    let artifact = format!("{HEADER}(\"é\\x\")");
    let error = artifact::decode(&artifact).unwrap_err();

    assert_eq!(error.offset, HEADER.len() + 5);
}

#[test]
fn lexer_errors_cover_the_full_multibyte_character() {
    let error = lexer::lex("🙂").unwrap_err();

    assert_eq!(error.span.start, 0);
    assert_eq!(error.span.end, "🙂".len());
}

#[test]
fn names_missing_at_the_end_are_reported_at_the_token_before() {
    // `for` needs a loop variable; at the end of input the parser points at
    // the token before the end.
    match check("x = 1\nfor") {
        Err(velra::Error::Parse(e)) => {
            assert_eq!(e.message, "expected identifier");
            assert_eq!(e.offset, 6);
        }
        other => panic!("unexpected {:?}", other.map(|_| ())),
    }
}
