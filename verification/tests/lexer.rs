use velra::ast::Span;
use velra::lexer::{lex, TokenKind};

#[test]
fn lexes_unicode_identifiers_and_escapes() {
    let tokens = lex("Δelta = \"a\\n\"").unwrap();
    assert!(matches!(&tokens[0].kind, TokenKind::DataIdent(name) if name == "Δelta"));
    assert!(matches!(&tokens[2].kind, TokenKind::String(value) if value == "a\n"));
}

#[test]
fn keeps_newlines_but_skips_comments() {
    let tokens = lex("a = 1 // comment\nb = 2").unwrap();
    assert_eq!(
        tokens
            .iter()
            .filter(|token| token.kind == TokenKind::Newline)
            .count(),
        1
    );
}

#[test]
fn tracks_byte_spans_for_unicode_without_preindexing() {
    let tokens = lex("Δ = \"é\"").unwrap();

    assert_eq!(tokens[0].span, Span::new(0, 2));
    assert_eq!(tokens[1].span, Span::new(3, 4));
    assert_eq!(tokens[2].span, Span::new(5, 9));
    assert_eq!(tokens[3].span, Span::new(9, 9));
}

#[test]
fn reports_full_utf8_width_for_unexpected_characters() {
    let error = lex("🙂").unwrap_err();
    assert_eq!(error.span, Span::new(0, 4));
}

#[test]
fn lexes_numbers_and_reports_out_of_range_integers() {
    let tokens = lex("12 3.25 4.").unwrap();
    assert_eq!(tokens[0].kind, TokenKind::Int(12));
    assert_eq!(tokens[1].kind, TokenKind::Float("3.25".to_string()));
    assert_eq!(tokens[2].kind, TokenKind::Int(4));
    assert_eq!(tokens[3].kind, TokenKind::Dot);
    assert_eq!(tokens[4].kind, TokenKind::Eof);
    let error = lex("99999999999999999999").unwrap_err();
    assert_eq!(error.message, "integer literal is out of range");
    assert_eq!(error.describe(), "integer literal is out of range at byte 0");
}

#[test]
fn reports_unterminated_strings() {
    let error = lex("x = \"abc").unwrap_err();
    assert_eq!(error.message, "unterminated string literal");
    assert_eq!(error.span, Span::new(4, 8));
}

#[test]
fn span_merge_keeps_outer_ends() {
    assert_eq!(Span::new(2, 5).merge(Span::new(7, 9)), Span::new(2, 9));
}

#[test]
fn token_spans_are_ordered_byte_ranges() {
    let source = "Δx = \"é\" // note\nfoo(1.5, 2)";
    let tokens = lex(source).unwrap();
    let mut last_end = 0;
    for token in &tokens {
        assert!(last_end <= token.span.start);
        assert!(token.span.start <= token.span.end);
        assert!(token.span.end <= source.len());
        last_end = token.span.end;
    }
    assert_eq!(tokens.last().unwrap().span.start, source.len());
}
