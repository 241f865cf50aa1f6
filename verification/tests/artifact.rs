use velra::artifact::{decode, decode_binary, decode_unary, FormParser, HEADER};
use velra::ast::{BinaryOp, Expr, Stmt, UnaryOp};

#[test]
fn decodes_minimal_program() {
    let artifact = "VELRA-AST-1\n(program (assign (ident \"x\") (int 42)) (expr (ident \"x\")))";
    let program = decode(artifact).unwrap();
    assert_eq!(program.statements.len(), 2);
}

#[test]
fn decodes_escaped_strings() {
    let artifact = "VELRA-AST-1\n(program (expr (string \"a\\n\\\"b\")))";
    let program = decode(artifact).unwrap();
    assert!(matches!(
        &program.statements[0],
        Stmt::Expr(Expr::String(value)) if value == "a\n\"b"
    ));
}

#[test]
fn reports_unicode_string_escape_offsets_in_bytes() {
    let body = "(\"é\\x\")";
    let mut parser = FormParser::new(body, HEADER.len());
    let error = parser.parse_form().unwrap_err();
    assert_eq!(error.offset, HEADER.len() + 5);
}

#[test]
fn rejects_a_missing_header() {
    let error = decode("(program)").unwrap_err();
    assert_eq!(error.message, "invalid Velra artifact header");
    assert_eq!(error.offset, 0);
}

#[test]
fn rejects_trailing_data_at_its_byte() {
    let error = decode("VELRA-AST-1\n(program)  x").unwrap_err();
    assert_eq!(error.message, "unexpected trailing artifact data");
    assert_eq!(error.offset, 12 + 11);
}

#[test]
fn reports_unterminated_lists_and_strings() {
    let error = decode("VELRA-AST-1\n(program").unwrap_err();
    assert_eq!(error.message, "unterminated artifact list");
    assert_eq!(error.offset, 20);
    let error = decode("VELRA-AST-1\n(program (expr (string \"ab").unwrap_err();
    assert_eq!(error.message, "unterminated artifact string");
    let error = decode("VELRA-AST-1\n").unwrap_err();
    assert_eq!(error.message, "expected artifact form");
    assert_eq!(error.offset, 12);
}

#[test]
fn reports_shape_errors_without_an_offset() {
    let error = decode("VELRA-AST-1\n(module)").unwrap_err();
    assert_eq!(error.message, "expected 'program' artifact tag");
    assert_eq!(error.offset, 0);
    let error = decode("VELRA-AST-1\n(program (jump))").unwrap_err();
    assert_eq!(error.message, "unknown statement tag 'jump'");
    let error = decode("VELRA-AST-1\n(program (var \"x\" (none)))").unwrap_err();
    assert_eq!(error.message, "var expects 3 fields, got 2");
    let error = decode("VELRA-AST-1\n(program (expr (int 99999999999999999999)))").unwrap_err();
    assert_eq!(error.message, "invalid Int artifact value");
    let error = decode("VELRA-AST-1\n(program (expr (float 1.2.3)))").unwrap_err();
    assert_eq!(error.message, "invalid Float artifact value");
    let error = decode("VELRA-AST-1\n(program (expr (bool maybe)))").unwrap_err();
    assert_eq!(error.message, "invalid bool 'maybe'");
    let error = decode("VELRA-AST-1\n(program (expr (binary power (int 1) (int 2))))").unwrap_err();
    assert_eq!(error.message, "unknown binary operator 'power'");
    let error = decode("VELRA-AST-1\n(program ())").unwrap_err();
    assert_eq!(error.message, "empty statement list");
    let error = decode("VELRA-AST-1\n(program (expr nil))").unwrap_err();
    assert_eq!(error.message, "expected expression list");
    let error = decode("VELRA-AST-1\n(program (use x))").unwrap_err();
    assert_eq!(error.message, "expected artifact string");
}

#[test]
fn decodes_the_newer_statement_forms() {
    let artifact = "VELRA-AST-1\n(program (while (bool true) (block (break) (continue))) \
        (enum \"Shape\" (variants (variant \"Dot\" (params)))) \
        (expr (when (some \"x\") (none) (cases (case (patterns (rest \"r\")) (none) (when-expr null) true)))))";
    let program = decode(artifact).unwrap();
    assert_eq!(program.statements.len(), 3);
    assert!(matches!(&program.statements[0], Stmt::While { .. }));
    assert!(matches!(&program.statements[1], Stmt::Enum(decl) if decl.name == "Shape"));
}

#[test]
fn artifact_error_describes_itself() {
    let error = decode("nope").unwrap_err();
    assert_eq!(error.describe(), "invalid Velra artifact header at byte 0");
}

#[test]
fn operator_names_decode_to_their_operators() {
    assert_eq!(decode_binary("less-equal").unwrap(), BinaryOp::LessEqual);
    assert_eq!(decode_binary("remainder").unwrap(), BinaryOp::Remainder);
    let e = decode_binary("power").unwrap_err();
    assert_eq!(e.message, "unknown binary operator 'power'");
    assert_eq!(e.offset, 0);
    assert_eq!(decode_unary("not").unwrap(), UnaryOp::Not);
    assert_eq!(decode_unary("neg").unwrap_err().message, "unknown unary operator 'neg'");
}
