use velra::diagnostics::{line_column, render_error};
use velra::parser::ParseError;
use velra::runtime::RuntimeError;
use velra::{check, compile, load_artifact, Error};

#[test]
fn line_column_counts_lines_and_characters() {
    assert_eq!(line_column("abc", 0), (1, 1));
    assert_eq!(line_column("abc", 2), (1, 3));
    assert_eq!(line_column("a\nbc", 3), (2, 2));
    assert_eq!(line_column("a\n\nb", 3), (3, 1));
}

#[test]
fn line_column_counts_characters_not_bytes() {
    // "é" takes two bytes; the column after it is the second character.
    assert_eq!(line_column("é=1", 2), (1, 2));
    assert_eq!(line_column("x\nΔy", 4), (2, 2));
}

#[test]
fn line_column_clamps_offsets_past_the_end() {
    assert_eq!(line_column("ab\nc", 99), (2, 2));
    assert_eq!(line_column("", 5), (1, 1));
}

#[test]
fn render_error_names_file_line_and_column() {
    let source = "x = 1\ny = )";
    let error = check(source).unwrap_err();
    assert!(matches!(error, Error::Parse(_)));
    let text = render_error("main.vel", source, &error);
    assert!(text.starts_with("main.vel:2:5: "), "{text}");
}

#[test]
fn render_error_reports_parse_errors_at_their_offset() {
    let error = Error::Parse(ParseError { message: "boom".to_string(), offset: 4 });
    assert_eq!(render_error("f.vel", "ab\ncd", &error), "f.vel:2:2: boom");
}

#[test]
fn render_error_reports_runtime_errors_without_position() {
    let error = Error::Runtime(RuntimeError::new("division by zero"));
    assert_eq!(
        render_error("f.vel", "1 / 0", &error),
        "f.vel: compile/runtime error: division by zero"
    );
}

#[test]
fn render_error_reports_artifact_errors() {
    let error = load_artifact("nope").unwrap_err();
    let text = render_error("a.velc", "nope", &error);
    assert!(text.starts_with("a.velc:1:1: "), "{text}");
}

#[test]
fn cloned_programs_compile_to_the_same_artifact() {
    let program = check("f(x) => when x {\n  1 => [x, x?.y]\n  else => -x\n}\nf(2)").unwrap();
    let copy = program.clone();
    assert_eq!(copy, program);
    let source = "P(a: Int) {\n  b => a + 1\n}\nfor i in 3 {\n  print(i)\n}";
    let first = check(source).unwrap();
    assert_eq!(first.clone(), first);
    assert!(compile(source).is_ok());
}

#[test]
fn reported_errors_render_at_character_positions() {
    let source = "é = )";
    let error = check(source).unwrap_err();
    assert_eq!(render_error("u.vel", source, &error), "u.vel:1:5: expected expression");
    let source = "x = \"é";
    let error = check(source).unwrap_err();
    assert_eq!(render_error("s.vel", source, &error), "s.vel:1:5: unterminated string literal");
}
