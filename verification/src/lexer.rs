//! The stage-0 lexer: turns Velra source text into tokens.
//!
//! `lex_spec` is the lexical grammar written as a function from the source's
//! characters to tokens (or the first error); `lex` computes it.  Spans are
//! byte offsets into the UTF-8 encoding of the source.
use vstd::prelude::*;
use crate::ast::Span;
use crate::numbers::{
    decimal_text, float_text_ok, is_digit, is_exp_mark, is_sign, mantissa_ok, number_ok, parse_i64,
    parse_i64_text, push_decimal,
};
use crate::text::{
    byte_offset, char_width, chars_eq_str, chars_of, chars_range, is_alphabetic, is_alphanumeric,
    is_uppercase, lemma_byte_offset_monotonic, offsets_fit, on_boundary, push_str, string_from, char_alphabetic,
    char_alphanumeric, char_uppercase, utf8_width,
};

verus! {

#[derive(Debug, Clone, PartialEq)]
pub struct Token {
    pub kind: TokenKind,
    pub span: Span,
}

#[derive(Debug, Clone, PartialEq)]
pub enum TokenKind {
    Ident(String),
    DataIdent(String),
    Int(i64),
    Float(String),
    String(String),
    True,
    False,
    Null,
    Use,
    Pub,
    Var,
    If,
    Else,
    For,
    While,
    Break,
    Continue,
    In,
    When,
    Return,
    Require,
    Enum,
    Object,
    Extend,
    Shape,
    Async,
    Await,
    Try,
    Throw,
    FatArrow,
    Arrow,
    Eq,
    Neq,
    Lte,
    Gte,
    And,
    Or,
    SafeDot,
    Elvis,
    Range,
    RangeInclusive,
    Ellipsis,
    PipeForward,
    Pipe,
    Assign,
    PlusAssign,
    MinusAssign,
    StarAssign,
    SlashAssign,
    PercentAssign,
    Plus,
    Minus,
    Star,
    Slash,
    Percent,
    Lt,
    Gt,
    Bang,
    Dot,
    Comma,
    Colon,
    Semi,
    Question,
    Hash,
    LParen,
    RParen,
    LBrace,
    RBrace,
    LBracket,
    RBracket,
    Newline,
    Eof,
}

/// The model of a token kind: payload strings become `Seq<char>`.
pub enum TokenKindV {
    Ident(Seq<char>),
    DataIdent(Seq<char>),
    Int(i64),
    Float(Seq<char>),
    Str(Seq<char>),
    True,
    False,
    Null,
    Use,
    Pub,
    Var,
    If,
    Else,
    For,
    While,
    Break,
    Continue,
    In,
    When,
    Return,
    Require,
    Enum,
    Object,
    Extend,
    Shape,
    Async,
    Await,
    Try,
    Throw,
    FatArrow,
    Arrow,
    Eq,
    Neq,
    Lte,
    Gte,
    And,
    Or,
    SafeDot,
    Elvis,
    Range,
    RangeInclusive,
    Ellipsis,
    PipeForward,
    Pipe,
    Assign,
    PlusAssign,
    MinusAssign,
    StarAssign,
    SlashAssign,
    PercentAssign,
    Plus,
    Minus,
    Star,
    Slash,
    Percent,
    Lt,
    Gt,
    Bang,
    Dot,
    Comma,
    Colon,
    Semi,
    Question,
    Hash,
    LParen,
    RParen,
    LBrace,
    RBrace,
    LBracket,
    RBracket,
    Newline,
    Eof,
}

pub open spec fn view_kind(k: TokenKind) -> TokenKindV {
    match k {
        TokenKind::Ident(x) => TokenKindV::Ident(x@),
        TokenKind::DataIdent(x) => TokenKindV::DataIdent(x@),
        TokenKind::Int(x) => TokenKindV::Int(x),
        TokenKind::Float(x) => TokenKindV::Float(x@),
        TokenKind::String(x) => TokenKindV::Str(x@),
        TokenKind::True => TokenKindV::True,
        TokenKind::False => TokenKindV::False,
        TokenKind::Null => TokenKindV::Null,
        TokenKind::Use => TokenKindV::Use,
        TokenKind::Pub => TokenKindV::Pub,
        TokenKind::Var => TokenKindV::Var,
        TokenKind::If => TokenKindV::If,
        TokenKind::Else => TokenKindV::Else,
        TokenKind::For => TokenKindV::For,
        TokenKind::While => TokenKindV::While,
        TokenKind::Break => TokenKindV::Break,
        TokenKind::Continue => TokenKindV::Continue,
        TokenKind::In => TokenKindV::In,
        TokenKind::When => TokenKindV::When,
        TokenKind::Return => TokenKindV::Return,
        TokenKind::Require => TokenKindV::Require,
        TokenKind::Enum => TokenKindV::Enum,
        TokenKind::Object => TokenKindV::Object,
        TokenKind::Extend => TokenKindV::Extend,
        TokenKind::Shape => TokenKindV::Shape,
        TokenKind::Async => TokenKindV::Async,
        TokenKind::Await => TokenKindV::Await,
        TokenKind::Try => TokenKindV::Try,
        TokenKind::Throw => TokenKindV::Throw,
        TokenKind::FatArrow => TokenKindV::FatArrow,
        TokenKind::Arrow => TokenKindV::Arrow,
        TokenKind::Eq => TokenKindV::Eq,
        TokenKind::Neq => TokenKindV::Neq,
        TokenKind::Lte => TokenKindV::Lte,
        TokenKind::Gte => TokenKindV::Gte,
        TokenKind::And => TokenKindV::And,
        TokenKind::Or => TokenKindV::Or,
        TokenKind::SafeDot => TokenKindV::SafeDot,
        TokenKind::Elvis => TokenKindV::Elvis,
        TokenKind::Range => TokenKindV::Range,
        TokenKind::RangeInclusive => TokenKindV::RangeInclusive,
        TokenKind::Ellipsis => TokenKindV::Ellipsis,
        TokenKind::PipeForward => TokenKindV::PipeForward,
        TokenKind::Pipe => TokenKindV::Pipe,
        TokenKind::Assign => TokenKindV::Assign,
        TokenKind::PlusAssign => TokenKindV::PlusAssign,
        TokenKind::MinusAssign => TokenKindV::MinusAssign,
        TokenKind::StarAssign => TokenKindV::StarAssign,
        TokenKind::SlashAssign => TokenKindV::SlashAssign,
        TokenKind::PercentAssign => TokenKindV::PercentAssign,
        TokenKind::Plus => TokenKindV::Plus,
        TokenKind::Minus => TokenKindV::Minus,
        TokenKind::Star => TokenKindV::Star,
        TokenKind::Slash => TokenKindV::Slash,
        TokenKind::Percent => TokenKindV::Percent,
        TokenKind::Lt => TokenKindV::Lt,
        TokenKind::Gt => TokenKindV::Gt,
        TokenKind::Bang => TokenKindV::Bang,
        TokenKind::Dot => TokenKindV::Dot,
        TokenKind::Comma => TokenKindV::Comma,
        TokenKind::Colon => TokenKindV::Colon,
        TokenKind::Semi => TokenKindV::Semi,
        TokenKind::Question => TokenKindV::Question,
        TokenKind::Hash => TokenKindV::Hash,
        TokenKind::LParen => TokenKindV::LParen,
        TokenKind::RParen => TokenKindV::RParen,
        TokenKind::LBrace => TokenKindV::LBrace,
        TokenKind::RBrace => TokenKindV::RBrace,
        TokenKind::LBracket => TokenKindV::LBracket,
        TokenKind::RBracket => TokenKindV::RBracket,
        TokenKind::Newline => TokenKindV::Newline,
        TokenKind::Eof => TokenKindV::Eof,
    }
}

impl TokenKind {
    /// A copy of this kind.
    pub fn duplicate(&self) -> (r: TokenKind)
        ensures
            view_kind(r) == view_kind(*self),
    {
        match self {
            TokenKind::Ident(x) => TokenKind::Ident(x.clone()),
            TokenKind::DataIdent(x) => TokenKind::DataIdent(x.clone()),
            TokenKind::Int(x) => TokenKind::Int(*x),
            TokenKind::Float(x) => TokenKind::Float(x.clone()),
            TokenKind::String(x) => TokenKind::String(x.clone()),
            TokenKind::True => TokenKind::True,
            TokenKind::False => TokenKind::False,
            TokenKind::Null => TokenKind::Null,
            TokenKind::Use => TokenKind::Use,
            TokenKind::Pub => TokenKind::Pub,
            TokenKind::Var => TokenKind::Var,
            TokenKind::If => TokenKind::If,
            TokenKind::Else => TokenKind::Else,
            TokenKind::For => TokenKind::For,
            TokenKind::While => TokenKind::While,
            TokenKind::Break => TokenKind::Break,
            TokenKind::Continue => TokenKind::Continue,
            TokenKind::In => TokenKind::In,
            TokenKind::When => TokenKind::When,
            TokenKind::Return => TokenKind::Return,
            TokenKind::Require => TokenKind::Require,
            TokenKind::Enum => TokenKind::Enum,
            TokenKind::Object => TokenKind::Object,
            TokenKind::Extend => TokenKind::Extend,
            TokenKind::Shape => TokenKind::Shape,
            TokenKind::Async => TokenKind::Async,
            TokenKind::Await => TokenKind::Await,
            TokenKind::Try => TokenKind::Try,
            TokenKind::Throw => TokenKind::Throw,
            TokenKind::FatArrow => TokenKind::FatArrow,
            TokenKind::Arrow => TokenKind::Arrow,
            TokenKind::Eq => TokenKind::Eq,
            TokenKind::Neq => TokenKind::Neq,
            TokenKind::Lte => TokenKind::Lte,
            TokenKind::Gte => TokenKind::Gte,
            TokenKind::And => TokenKind::And,
            TokenKind::Or => TokenKind::Or,
            TokenKind::SafeDot => TokenKind::SafeDot,
            TokenKind::Elvis => TokenKind::Elvis,
            TokenKind::Range => TokenKind::Range,
            TokenKind::RangeInclusive => TokenKind::RangeInclusive,
            TokenKind::Ellipsis => TokenKind::Ellipsis,
            TokenKind::PipeForward => TokenKind::PipeForward,
            TokenKind::Pipe => TokenKind::Pipe,
            TokenKind::Assign => TokenKind::Assign,
            TokenKind::PlusAssign => TokenKind::PlusAssign,
            TokenKind::MinusAssign => TokenKind::MinusAssign,
            TokenKind::StarAssign => TokenKind::StarAssign,
            TokenKind::SlashAssign => TokenKind::SlashAssign,
            TokenKind::PercentAssign => TokenKind::PercentAssign,
            TokenKind::Plus => TokenKind::Plus,
            TokenKind::Minus => TokenKind::Minus,
            TokenKind::Star => TokenKind::Star,
            TokenKind::Slash => TokenKind::Slash,
            TokenKind::Percent => TokenKind::Percent,
            TokenKind::Lt => TokenKind::Lt,
            TokenKind::Gt => TokenKind::Gt,
            TokenKind::Bang => TokenKind::Bang,
            TokenKind::Dot => TokenKind::Dot,
            TokenKind::Comma => TokenKind::Comma,
            TokenKind::Colon => TokenKind::Colon,
            TokenKind::Semi => TokenKind::Semi,
            TokenKind::Question => TokenKind::Question,
            TokenKind::Hash => TokenKind::Hash,
            TokenKind::LParen => TokenKind::LParen,
            TokenKind::RParen => TokenKind::RParen,
            TokenKind::LBrace => TokenKind::LBrace,
            TokenKind::RBrace => TokenKind::RBrace,
            TokenKind::LBracket => TokenKind::LBracket,
            TokenKind::RBracket => TokenKind::RBracket,
            TokenKind::Newline => TokenKind::Newline,
            TokenKind::Eof => TokenKind::Eof,
        }
    }
}

/// The reserved word spelled by `t`, if any.
pub open spec fn keyword_spec(t: Seq<char>) -> Option<TokenKindV> {
    if t == "true"@ {
        Some(TokenKindV::True)
    } else if t == "false"@ {
        Some(TokenKindV::False)
    } else if t == "null"@ {
        Some(TokenKindV::Null)
    } else if t == "use"@ {
        Some(TokenKindV::Use)
    } else if t == "pub"@ {
        Some(TokenKindV::Pub)
    } else if t == "var"@ {
        Some(TokenKindV::Var)
    } else if t == "if"@ {
        Some(TokenKindV::If)
    } else if t == "else"@ {
        Some(TokenKindV::Else)
    } else if t == "for"@ {
        Some(TokenKindV::For)
    } else if t == "while"@ {
        Some(TokenKindV::While)
    } else if t == "break"@ {
        Some(TokenKindV::Break)
    } else if t == "continue"@ {
        Some(TokenKindV::Continue)
    } else if t == "in"@ {
        Some(TokenKindV::In)
    } else if t == "when"@ {
        Some(TokenKindV::When)
    } else if t == "return"@ {
        Some(TokenKindV::Return)
    } else if t == "require"@ {
        Some(TokenKindV::Require)
    } else if t == "enum"@ {
        Some(TokenKindV::Enum)
    } else if t == "object"@ {
        Some(TokenKindV::Object)
    } else if t == "extend"@ {
        Some(TokenKindV::Extend)
    } else if t == "shape"@ {
        Some(TokenKindV::Shape)
    } else if t == "async"@ {
        Some(TokenKindV::Async)
    } else if t == "await"@ {
        Some(TokenKindV::Await)
    } else if t == "try"@ {
        Some(TokenKindV::Try)
    } else if t == "throw"@ {
        Some(TokenKindV::Throw)
    } else {
        None
    }
}

fn keyword(t: &[char]) -> (r: Option<TokenKind>)
    ensures
        match r {
            Some(k) => keyword_spec(t@) == Some(view_kind(k)),
            None => keyword_spec(t@) is None,
        },
{
    if chars_eq_str(t, "true") {
        Some(TokenKind::True)
    } else if chars_eq_str(t, "false") {
        Some(TokenKind::False)
    } else if chars_eq_str(t, "null") {
        Some(TokenKind::Null)
    } else if chars_eq_str(t, "use") {
        Some(TokenKind::Use)
    } else if chars_eq_str(t, "pub") {
        Some(TokenKind::Pub)
    } else if chars_eq_str(t, "var") {
        Some(TokenKind::Var)
    } else if chars_eq_str(t, "if") {
        Some(TokenKind::If)
    } else if chars_eq_str(t, "else") {
        Some(TokenKind::Else)
    } else if chars_eq_str(t, "for") {
        Some(TokenKind::For)
    } else if chars_eq_str(t, "while") {
        Some(TokenKind::While)
    } else if chars_eq_str(t, "break") {
        Some(TokenKind::Break)
    } else if chars_eq_str(t, "continue") {
        Some(TokenKind::Continue)
    } else if chars_eq_str(t, "in") {
        Some(TokenKind::In)
    } else if chars_eq_str(t, "when") {
        Some(TokenKind::When)
    } else if chars_eq_str(t, "return") {
        Some(TokenKind::Return)
    } else if chars_eq_str(t, "require") {
        Some(TokenKind::Require)
    } else if chars_eq_str(t, "enum") {
        Some(TokenKind::Enum)
    } else if chars_eq_str(t, "object") {
        Some(TokenKind::Object)
    } else if chars_eq_str(t, "extend") {
        Some(TokenKind::Extend)
    } else if chars_eq_str(t, "shape") {
        Some(TokenKind::Shape)
    } else if chars_eq_str(t, "async") {
        Some(TokenKind::Async)
    } else if chars_eq_str(t, "await") {
        Some(TokenKind::Await)
    } else if chars_eq_str(t, "try") {
        Some(TokenKind::Try)
    } else if chars_eq_str(t, "throw") {
        Some(TokenKind::Throw)
    } else {
        None
    }
}

/// The punctuation token that starts at `i`, with its width in characters.
pub open spec fn symbol_spec(cs: Seq<char>, i: int) -> Option<(TokenKindV, int)> {
    if char_at(cs, i + 0) == Some('.') && char_at(cs, i + 1) == Some('.') && char_at(cs, i + 2) == Some('=') {
        Some((TokenKindV::RangeInclusive, 3))
    } else if char_at(cs, i + 0) == Some('.') && char_at(cs, i + 1) == Some('.') && char_at(cs, i + 2) == Some('.') {
        Some((TokenKindV::Ellipsis, 3))
    } else if char_at(cs, i + 0) == Some('=') && char_at(cs, i + 1) == Some('=') {
        Some((TokenKindV::Eq, 2))
    } else if char_at(cs, i + 0) == Some('!') && char_at(cs, i + 1) == Some('=') {
        Some((TokenKindV::Neq, 2))
    } else if char_at(cs, i + 0) == Some('<') && char_at(cs, i + 1) == Some('=') {
        Some((TokenKindV::Lte, 2))
    } else if char_at(cs, i + 0) == Some('>') && char_at(cs, i + 1) == Some('=') {
        Some((TokenKindV::Gte, 2))
    } else if char_at(cs, i + 0) == Some('&') && char_at(cs, i + 1) == Some('&') {
        Some((TokenKindV::And, 2))
    } else if char_at(cs, i + 0) == Some('|') && char_at(cs, i + 1) == Some('|') {
        Some((TokenKindV::Or, 2))
    } else if char_at(cs, i + 0) == Some('|') && char_at(cs, i + 1) == Some('>') {
        Some((TokenKindV::PipeForward, 2))
    } else if char_at(cs, i + 0) == Some('.') && char_at(cs, i + 1) == Some('.') {
        Some((TokenKindV::Range, 2))
    } else if char_at(cs, i + 0) == Some('?') && char_at(cs, i + 1) == Some('.') {
        Some((TokenKindV::SafeDot, 2))
    } else if char_at(cs, i + 0) == Some('?') && char_at(cs, i + 1) == Some(':') {
        Some((TokenKindV::Elvis, 2))
    } else if char_at(cs, i + 0) == Some('=') && char_at(cs, i + 1) == Some('>') {
        Some((TokenKindV::FatArrow, 2))
    } else if char_at(cs, i + 0) == Some('-') && char_at(cs, i + 1) == Some('>') {
        Some((TokenKindV::Arrow, 2))
    } else if char_at(cs, i + 0) == Some('+') && char_at(cs, i + 1) == Some('=') {
        Some((TokenKindV::PlusAssign, 2))
    } else if char_at(cs, i + 0) == Some('-') && char_at(cs, i + 1) == Some('=') {
        Some((TokenKindV::MinusAssign, 2))
    } else if char_at(cs, i + 0) == Some('*') && char_at(cs, i + 1) == Some('=') {
        Some((TokenKindV::StarAssign, 2))
    } else if char_at(cs, i + 0) == Some('/') && char_at(cs, i + 1) == Some('=') {
        Some((TokenKindV::SlashAssign, 2))
    } else if char_at(cs, i + 0) == Some('%') && char_at(cs, i + 1) == Some('=') {
        Some((TokenKindV::PercentAssign, 2))
    } else if char_at(cs, i + 0) == Some('=') {
        Some((TokenKindV::Assign, 1))
    } else if char_at(cs, i + 0) == Some('+') {
        Some((TokenKindV::Plus, 1))
    } else if char_at(cs, i + 0) == Some('-') {
        Some((TokenKindV::Minus, 1))
    } else if char_at(cs, i + 0) == Some('*') {
        Some((TokenKindV::Star, 1))
    } else if char_at(cs, i + 0) == Some('/') {
        Some((TokenKindV::Slash, 1))
    } else if char_at(cs, i + 0) == Some('%') {
        Some((TokenKindV::Percent, 1))
    } else if char_at(cs, i + 0) == Some('<') {
        Some((TokenKindV::Lt, 1))
    } else if char_at(cs, i + 0) == Some('>') {
        Some((TokenKindV::Gt, 1))
    } else if char_at(cs, i + 0) == Some('!') {
        Some((TokenKindV::Bang, 1))
    } else if char_at(cs, i + 0) == Some('.') {
        Some((TokenKindV::Dot, 1))
    } else if char_at(cs, i + 0) == Some(',') {
        Some((TokenKindV::Comma, 1))
    } else if char_at(cs, i + 0) == Some(':') {
        Some((TokenKindV::Colon, 1))
    } else if char_at(cs, i + 0) == Some(';') {
        Some((TokenKindV::Semi, 1))
    } else if char_at(cs, i + 0) == Some('?') {
        Some((TokenKindV::Question, 1))
    } else if char_at(cs, i + 0) == Some('#') {
        Some((TokenKindV::Hash, 1))
    } else if char_at(cs, i + 0) == Some('|') {
        Some((TokenKindV::Pipe, 1))
    } else if char_at(cs, i + 0) == Some('(') {
        Some((TokenKindV::LParen, 1))
    } else if char_at(cs, i + 0) == Some(')') {
        Some((TokenKindV::RParen, 1))
    } else if char_at(cs, i + 0) == Some('{') {
        Some((TokenKindV::LBrace, 1))
    } else if char_at(cs, i + 0) == Some('}') {
        Some((TokenKindV::RBrace, 1))
    } else if char_at(cs, i + 0) == Some('[') {
        Some((TokenKindV::LBracket, 1))
    } else if char_at(cs, i + 0) == Some(']') {
        Some((TokenKindV::RBracket, 1))
    } else {
        None
    }
}

fn symbol(cs: &[char], i: usize) -> (r: Option<(TokenKind, usize)>)
    requires
        i < cs@.len(),
    ensures
        match r {
            Some((k, w)) => symbol_spec(cs@, i as int) == Some((view_kind(k), w as int)),
            None => symbol_spec(cs@, i as int) is None,
        },
{
    let c0 = get_char(cs, i, 0);
    let c1 = get_char(cs, i, 1);
    let c2 = get_char(cs, i, 2);
    if c0 == Some('.') && c1 == Some('.') && c2 == Some('=') {
        Some((TokenKind::RangeInclusive, 3))
    } else if c0 == Some('.') && c1 == Some('.') && c2 == Some('.') {
        Some((TokenKind::Ellipsis, 3))
    } else if c0 == Some('=') && c1 == Some('=') {
        Some((TokenKind::Eq, 2))
    } else if c0 == Some('!') && c1 == Some('=') {
        Some((TokenKind::Neq, 2))
    } else if c0 == Some('<') && c1 == Some('=') {
        Some((TokenKind::Lte, 2))
    } else if c0 == Some('>') && c1 == Some('=') {
        Some((TokenKind::Gte, 2))
    } else if c0 == Some('&') && c1 == Some('&') {
        Some((TokenKind::And, 2))
    } else if c0 == Some('|') && c1 == Some('|') {
        Some((TokenKind::Or, 2))
    } else if c0 == Some('|') && c1 == Some('>') {
        Some((TokenKind::PipeForward, 2))
    } else if c0 == Some('.') && c1 == Some('.') {
        Some((TokenKind::Range, 2))
    } else if c0 == Some('?') && c1 == Some('.') {
        Some((TokenKind::SafeDot, 2))
    } else if c0 == Some('?') && c1 == Some(':') {
        Some((TokenKind::Elvis, 2))
    } else if c0 == Some('=') && c1 == Some('>') {
        Some((TokenKind::FatArrow, 2))
    } else if c0 == Some('-') && c1 == Some('>') {
        Some((TokenKind::Arrow, 2))
    } else if c0 == Some('+') && c1 == Some('=') {
        Some((TokenKind::PlusAssign, 2))
    } else if c0 == Some('-') && c1 == Some('=') {
        Some((TokenKind::MinusAssign, 2))
    } else if c0 == Some('*') && c1 == Some('=') {
        Some((TokenKind::StarAssign, 2))
    } else if c0 == Some('/') && c1 == Some('=') {
        Some((TokenKind::SlashAssign, 2))
    } else if c0 == Some('%') && c1 == Some('=') {
        Some((TokenKind::PercentAssign, 2))
    } else if c0 == Some('=') {
        Some((TokenKind::Assign, 1))
    } else if c0 == Some('+') {
        Some((TokenKind::Plus, 1))
    } else if c0 == Some('-') {
        Some((TokenKind::Minus, 1))
    } else if c0 == Some('*') {
        Some((TokenKind::Star, 1))
    } else if c0 == Some('/') {
        Some((TokenKind::Slash, 1))
    } else if c0 == Some('%') {
        Some((TokenKind::Percent, 1))
    } else if c0 == Some('<') {
        Some((TokenKind::Lt, 1))
    } else if c0 == Some('>') {
        Some((TokenKind::Gt, 1))
    } else if c0 == Some('!') {
        Some((TokenKind::Bang, 1))
    } else if c0 == Some('.') {
        Some((TokenKind::Dot, 1))
    } else if c0 == Some(',') {
        Some((TokenKind::Comma, 1))
    } else if c0 == Some(':') {
        Some((TokenKind::Colon, 1))
    } else if c0 == Some(';') {
        Some((TokenKind::Semi, 1))
    } else if c0 == Some('?') {
        Some((TokenKind::Question, 1))
    } else if c0 == Some('#') {
        Some((TokenKind::Hash, 1))
    } else if c0 == Some('|') {
        Some((TokenKind::Pipe, 1))
    } else if c0 == Some('(') {
        Some((TokenKind::LParen, 1))
    } else if c0 == Some(')') {
        Some((TokenKind::RParen, 1))
    } else if c0 == Some('{') {
        Some((TokenKind::LBrace, 1))
    } else if c0 == Some('}') {
        Some((TokenKind::RBrace, 1))
    } else if c0 == Some('[') {
        Some((TokenKind::LBracket, 1))
    } else if c0 == Some(']') {
        Some((TokenKind::RBracket, 1))
    } else {
        None
    }
}
impl TokenKind {
    pub open spec fn separator(&self) -> bool {
        *self is Newline || *self is Semi
    }

    pub open spec fn identifier(&self) -> bool {
        *self is Ident || *self is DataIdent
    }

    /// Whether this token ends a statement.
    pub fn is_separator(&self) -> (r: bool)
        ensures
            r == self.separator(),
    {
        matches!(self, TokenKind::Newline | TokenKind::Semi)
    }

    /// Whether this token is a name.
    pub fn is_identifier(&self) -> (r: bool)
        ensures
            r == self.identifier(),
    {
        matches!(self, TokenKind::Ident(_) | TokenKind::DataIdent(_))
    }
}

impl Token {
    /// A copy of this token.
    pub fn duplicate(&self) -> (r: Token)
        ensures
            view_token(r) == view_token(*self),
    {
        Token { kind: self.kind.duplicate(), span: self.span }
    }
}

#[derive(Debug, Clone, PartialEq, Eq)]
pub struct LexError {
    pub message: String,
    pub span: Span,
}

impl LexError {
    /// The error as text: the message and the byte at which it starts.
    pub fn describe(&self) -> (r: String)
        ensures
            r@ == self.message@ + " at byte "@ + decimal_text(self.span.start as nat),
    {
        let mut out = chars_of(self.message.as_str());
        push_str(&mut out, " at byte ");
        push_decimal(&mut out, self.span.start as u64);
        string_from(&out)
    }
}

// ---------------------------------------------------------------------------
// The lexical grammar.
// ---------------------------------------------------------------------------
pub struct TokenV {
    pub kind: TokenKindV,
    pub span: Span,
}

pub struct LexErrorV {
    pub message: Seq<char>,
    pub span: Span,
}

pub open spec fn view_token(t: Token) -> TokenV {
    TokenV { kind: view_kind(t.kind), span: t.span }
}

pub open spec fn view_tokens(ts: Seq<Token>) -> Seq<TokenV> {
    ts.map_values(|t: Token| view_token(t))
}

pub open spec fn view_lex_error(e: LexError) -> LexErrorV {
    LexErrorV { message: e.message@, span: e.span }
}

pub open spec fn view_lex_result(r: Result<Vec<Token>, LexError>) -> Result<Seq<TokenV>, LexErrorV> {
    match r {
        Ok(ts) => Ok(view_tokens(ts@)),
        Err(e) => Err(view_lex_error(e)),
    }
}

pub open spec fn char_at(cs: Seq<char>, i: int) -> Option<char> {
    if 0 <= i < cs.len() {
        Some(cs[i])
    } else {
        None
    }
}

/// The span between character positions `a` and `b`, in bytes.
pub open spec fn span_of(cs: Seq<char>, a: int, b: int) -> Span {
    Span { start: byte_offset(cs, a) as usize, end: byte_offset(cs, b) as usize }
}

/// The first position at or after `i` whose character fails `p`.
pub open spec fn scan_while(cs: Seq<char>, i: int, p: spec_fn(char) -> bool) -> int
    decreases cs.len() - i,
{
    if 0 <= i < cs.len() && p(cs[i]) {
        scan_while(cs, i + 1, p)
    } else {
        i
    }
}

pub proof fn lemma_scan_while(cs: Seq<char>, i: int, p: spec_fn(char) -> bool)
    requires
        0 <= i <= cs.len(),
    ensures
        i <= scan_while(cs, i, p) <= cs.len(),
        forall|k: int| i <= k < scan_while(cs, i, p) ==> p(#[trigger] cs[k]),
        scan_while(cs, i, p) < cs.len() ==> !p(cs[scan_while(cs, i, p)]),
    decreases cs.len() - i,
{
    if i < cs.len() && p(cs[i]) {
        lemma_scan_while(cs, i + 1, p);
    }
}

pub open spec fn digit_pred() -> spec_fn(char) -> bool {
    |c: char| is_digit(c)
}

pub open spec fn not_newline() -> spec_fn(char) -> bool {
    |c: char| c != '\n'
}

pub open spec fn is_hws(c: char) -> bool {
    c == ' ' || c == '\t' || c == '\r'
}

pub open spec fn ident_start(c: char) -> bool {
    c == '_' || char_alphabetic(c)
}

pub open spec fn ident_continue(c: char) -> bool {
    c == '_' || char_alphanumeric(c)
}

pub open spec fn ident_pred() -> spec_fn(char) -> bool {
    |c: char| ident_continue(c)
}

/// The character a string escape `\c` stands for.
pub open spec fn unescape(c: char) -> char {
    if c == 'n' {
        '\n'
    } else if c == 't' {
        '\t'
    } else if c == 'r' {
        '\r'
    } else if c == '0' {
        '\0'
    } else {
        c
    }
}

/// A numeric literal starting at digit position `i`, with the position after it.
pub open spec fn number_spec(cs: Seq<char>, i: int) -> Result<(TokenV, int), LexErrorV> {
    let e1 = scan_while(cs, i, digit_pred());
    let is_float = char_at(cs, e1) == Some('.') && match char_at(cs, e1 + 1) {
        Some(c) => is_digit(c),
        None => false,
    };
    let end = if is_float {
        scan_while(cs, e1 + 1, digit_pred())
    } else {
        e1
    };
    let text = cs.subrange(i, end);
    let span = span_of(cs, i, end);
    if is_float {
        Ok((TokenV { kind: TokenKindV::Float(text), span }, end))
    } else {
        match parse_i64_text(text) {
            Some(v) => Ok((TokenV { kind: TokenKindV::Int(v), span }, end)),
            None => Err(LexErrorV { message: "integer literal is out of range"@, span }),
        }
    }
}

/// The rest of a string literal opened at `start`, scanning from `j` with
/// `acc` decoded so far: the value and the position after the closing quote.
pub open spec fn string_spec(cs: Seq<char>, start: int, j: int, acc: Seq<char>) -> Result<
    (Seq<char>, int),
    LexErrorV,
>
    decreases cs.len() - j,
{
    if j < 0 || j >= cs.len() {
        Err(
            LexErrorV {
                message: "unterminated string literal"@,
                span: span_of(cs, start, cs.len() as int),
            },
        )
    } else if cs[j] == '"' {
        Ok((acc, j + 1))
    } else if cs[j] == '\n' {
        Err(LexErrorV { message: "unterminated string literal"@, span: span_of(cs, start, j) })
    } else if cs[j] == '\\' {
        if j + 1 >= cs.len() {
            Err(
                LexErrorV {
                    message: "unterminated string escape"@,
                    span: span_of(cs, start, cs.len() as int),
                },
            )
        } else {
            string_spec(cs, start, j + 2, acc.push(unescape(cs[j + 1])))
        }
    } else {
        string_spec(cs, start, j + 1, acc.push(cs[j]))
    }
}

pub proof fn lemma_string_spec_end(cs: Seq<char>, start: int, j: int, acc: Seq<char>)
    requires
        0 <= j,
    ensures
        string_spec(cs, start, j, acc) matches Ok((_, e)) ==> j < e <= cs.len(),
    decreases cs.len() - j,
{
    if 0 <= j < cs.len() && cs[j] != '"' && cs[j] != '\n' {
        if cs[j] == '\\' {
            if j + 1 < cs.len() {
                lemma_string_spec_end(cs, start, j + 2, acc.push(unescape(cs[j + 1])));
            }
        } else {
            lemma_string_spec_end(cs, start, j + 1, acc.push(cs[j]));
        }
    }
}

/// Inside a string literal a quote closes it, a line break leaves it
/// unterminated, each other character stands for itself, and a backslash
/// escape stands for its character: `\n` a line break, `\t` a tab, `\r` a
/// carriage return, `\0` the null character, and `\\`, `\"`, `\$` or any
/// other character after the backslash for that character itself.
pub proof fn lemma_string_characters(cs: Seq<char>, start: int, j: int, acc: Seq<char>)
    requires
        0 <= j < cs.len(),
    ensures
        cs[j] == '"' ==> string_spec(cs, start, j, acc) == Ok::<(Seq<char>, int), LexErrorV>(
            (acc, j + 1),
        ),
        cs[j] == '\n' ==> string_spec(cs, start, j, acc) is Err,
        cs[j] != '"' && cs[j] != '\n' && cs[j] != '\\' ==> string_spec(cs, start, j, acc)
            == string_spec(cs, start, j + 1, acc.push(cs[j])),
        cs[j] == '\\' && j + 1 == cs.len() ==> string_spec(cs, start, j, acc) is Err,
        cs[j] == '\\' && j + 1 < cs.len() && cs[j + 1] == 'n' ==> string_spec(cs, start, j, acc)
            == string_spec(cs, start, j + 2, acc.push('\n')),
        cs[j] == '\\' && j + 1 < cs.len() && cs[j + 1] == 't' ==> string_spec(cs, start, j, acc)
            == string_spec(cs, start, j + 2, acc.push('\t')),
        cs[j] == '\\' && j + 1 < cs.len() && cs[j + 1] == 'r' ==> string_spec(cs, start, j, acc)
            == string_spec(cs, start, j + 2, acc.push('\r')),
        cs[j] == '\\' && j + 1 < cs.len() && cs[j + 1] == '0' ==> string_spec(cs, start, j, acc)
            == string_spec(cs, start, j + 2, acc.push('\0')),
        cs[j] == '\\' && j + 1 < cs.len() && !(cs[j + 1] == 'n' || cs[j + 1] == 't' || cs[j + 1]
            == 'r' || cs[j + 1] == '0') ==> string_spec(cs, start, j, acc) == string_spec(
            cs,
            start,
            j + 2,
            acc.push(cs[j + 1]),
        ),
{
}

/// The name or reserved word starting at position `i`.
pub open spec fn ident_spec(cs: Seq<char>, i: int) -> (TokenV, int) {
    let end = scan_while(cs, i + 1, ident_pred());
    let text = cs.subrange(i, end);
    let kind = match keyword_spec(text) {
        Some(k) => k,
        None => if char_uppercase(cs[i]) {
            TokenKindV::DataIdent(text)
        } else {
            TokenKindV::Ident(text)
        },
    };
    (TokenV { kind, span: span_of(cs, i, end) }, end)
}

/// `first` followed by the tokens of `rest`, or the error of `rest`.
pub open spec fn glue(first: Seq<TokenV>, rest: Result<Seq<TokenV>, LexErrorV>) -> Result<
    Seq<TokenV>,
    LexErrorV,
> {
    match rest {
        Ok(ts) => Ok(first + ts),
        Err(e) => Err(e),
    }
}

/// The tokens of `cs` from position `i` on, ending with `Eof`, or the first
/// lexical error.
#[verifier::opaque]
pub open spec fn lex_from(cs: Seq<char>, i: int) -> Result<Seq<TokenV>, LexErrorV>
    decreases cs.len() - i,
{
    if i < 0 || i >= cs.len() {
        Ok(
            seq![
                TokenV {
                    kind: TokenKindV::Eof,
                    span: span_of(cs, cs.len() as int, cs.len() as int),
                },
            ],
        )
    } else {
        let c = cs[i];
        if is_hws(c) {
            lex_from(cs, i + 1)
        } else if c == '\n' {
            glue(seq![TokenV { kind: TokenKindV::Newline, span: span_of(cs, i, i + 1) }], lex_from(cs, i + 1))
        } else if c == '/' && char_at(cs, i + 1) == Some('/') {
            let e = scan_while(cs, i, not_newline());
            proof {
                lemma_scan_while(cs, i, not_newline());
            }
            lex_from(cs, e)
        } else if is_digit(c) {
            proof {
                lemma_scan_while(cs, i, digit_pred());
                let e1 = scan_while(cs, i, digit_pred());
                if e1 + 1 < cs.len() {
                    lemma_scan_while(cs, e1 + 1, digit_pred());
                }
            }
            match number_spec(cs, i) {
                Ok((t, e)) => glue(seq![t], lex_from(cs, e)),
                Err(x) => Err(x),
            }
        } else if c == '"' {
            proof {
                lemma_string_spec_end(cs, i, i + 1, Seq::empty());
            }
            match string_spec(cs, i, i + 1, Seq::empty()) {
                Ok((v, e)) => glue(
                    seq![TokenV { kind: TokenKindV::Str(v), span: span_of(cs, i, e) }],
                    lex_from(cs, e),
                ),
                Err(x) => Err(x),
            }
        } else if ident_start(c) {
            proof {
                lemma_scan_while(cs, i + 1, ident_pred());
            }
            let (t, e) = ident_spec(cs, i);
            glue(seq![t], lex_from(cs, e))
        } else {
            match symbol_spec(cs, i) {
                Some((k, w)) => if w > 0 {
                    glue(seq![TokenV { kind: k, span: span_of(cs, i, i + w) }], lex_from(cs, i + w))
                } else {
                    Err(LexErrorV { message: Seq::empty(), span: span_of(cs, i, i) })
                },
                None => Err(
                    LexErrorV {
                        message: "unexpected character '"@ + seq![c] + "'"@,
                        span: span_of(cs, i, i + 1),
                    },
                ),
            }
        }
    }
}


proof fn lemma_lex_end(cs: Seq<char>, i: int)
    requires
        i >= cs.len(),
    ensures
        lex_from(cs, i) == Ok::<Seq<TokenV>, LexErrorV>(
            seq![
                TokenV {
                    kind: TokenKindV::Eof,
                    span: span_of(cs, cs.len() as int, cs.len() as int),
                },
            ],
        ),
{
    reveal(lex_from);
}

proof fn lemma_lex_hws(cs: Seq<char>, i: int)
    requires
        0 <= i < cs.len(),
        is_hws(cs[i]),
    ensures
        lex_from(cs, i) == lex_from(cs, i + 1),
{
    reveal(lex_from);
}

proof fn lemma_lex_newline(cs: Seq<char>, i: int)
    requires
        0 <= i < cs.len(),
        cs[i] == '\n',
    ensures
        lex_from(cs, i) == glue(
            seq![TokenV { kind: TokenKindV::Newline, span: span_of(cs, i, i + 1) }],
            lex_from(cs, i + 1),
        ),
{
    reveal(lex_from);
}

proof fn lemma_lex_comment(cs: Seq<char>, i: int)
    requires
        0 <= i < cs.len(),
        cs[i] == '/',
        char_at(cs, i + 1) == Some('/'),
    ensures
        lex_from(cs, i) == lex_from(cs, scan_while(cs, i, not_newline())),
{
    reveal(lex_from);
}

proof fn lemma_lex_number(cs: Seq<char>, i: int)
    requires
        0 <= i < cs.len(),
        is_digit(cs[i]),
    ensures
        lex_from(cs, i) == match number_spec(cs, i) {
            Ok((t, e)) => glue(seq![t], lex_from(cs, e)),
            Err(x) => Err(x),
        },
{
    reveal(lex_from);
}

proof fn lemma_lex_string(cs: Seq<char>, i: int)
    requires
        0 <= i < cs.len(),
        cs[i] == '"',
    ensures
        lex_from(cs, i) == match string_spec(cs, i, i + 1, Seq::empty()) {
            Ok((v, e)) => glue(
                seq![TokenV { kind: TokenKindV::Str(v), span: span_of(cs, i, e) }],
                lex_from(cs, e),
            ),
            Err(x) => Err(x),
        },
{
    reveal(lex_from);
}

proof fn lemma_lex_name(cs: Seq<char>, i: int)
    requires
        0 <= i < cs.len(),
        !is_hws(cs[i]),
        cs[i] != '\n',
        !(cs[i] == '/' && char_at(cs, i + 1) == Some('/')),
        !is_digit(cs[i]),
        cs[i] != '"',
        ident_start(cs[i]),
    ensures
        lex_from(cs, i) == glue(seq![ident_spec(cs, i).0], lex_from(cs, ident_spec(cs, i).1)),
{
    reveal(lex_from);
}

proof fn lemma_lex_symbol(cs: Seq<char>, i: int)
    requires
        0 <= i < cs.len(),
        !is_hws(cs[i]),
        cs[i] != '\n',
        !(cs[i] == '/' && char_at(cs, i + 1) == Some('/')),
        !is_digit(cs[i]),
        cs[i] != '"',
        !ident_start(cs[i]),
    ensures
        lex_from(cs, i) == match symbol_spec(cs, i) {
            Some((k, w)) => if w > 0 {
                glue(seq![TokenV { kind: k, span: span_of(cs, i, i + w) }], lex_from(cs, i + w))
            } else {
                Err(LexErrorV { message: Seq::empty(), span: span_of(cs, i, i) })
            },
            None => Err(
                LexErrorV {
                    message: "unexpected character '"@ + seq![cs[i]] + "'"@,
                    span: span_of(cs, i, i + 1),
                },
            ),
        },
{
    reveal(lex_from);
}

/// Characters `a` then `b` at positions `i` and `i + 1`.
pub open spec fn pair_at(cs: Seq<char>, i: int, a: char, b: char) -> bool {
    0 <= i && i + 1 < cs.len() && cs[i] == a && cs[i + 1] == b
}

/// The character at `i` stands alone: nothing that could extend a
/// punctuation token follows it.
pub open spec fn lone_symbol(cs: Seq<char>, i: int) -> bool {
    match char_at(cs, i + 1) {
        None => true,
        Some(c) => !(c == '=' || c == '.' || c == '>' || c == ':' || c == '&' || c == '|' || c == '/'),
    }
}

/// A token of kind `k` covering the `w` characters from `i`, followed by
/// the tokens after them.
pub open spec fn symbol_then(cs: Seq<char>, i: int, k: TokenKindV, w: int) -> Result<
    Seq<TokenV>,
    LexErrorV,
> {
    glue(seq![TokenV { kind: k, span: span_of(cs, i, i + w) }], lex_from(cs, i + w))
}

/// Each punctuation spelling lexes to its own token: `==` to `Eq`, `<=` to
/// `Lte`, `>=` to `Gte` and so on through the two- and three-character
/// operators, and each single punctuation character, standing alone, to its
/// token.
pub proof fn lemma_punctuation_tokens(cs: Seq<char>, i: int)
    ensures
        pair_at(cs, i, '=', '=') ==> lex_from(cs, i) == symbol_then(cs, i, TokenKindV::Eq, 2),
        pair_at(cs, i, '!', '=') ==> lex_from(cs, i) == symbol_then(cs, i, TokenKindV::Neq, 2),
        pair_at(cs, i, '<', '=') ==> lex_from(cs, i) == symbol_then(cs, i, TokenKindV::Lte, 2),
        pair_at(cs, i, '>', '=') ==> lex_from(cs, i) == symbol_then(cs, i, TokenKindV::Gte, 2),
        pair_at(cs, i, '&', '&') ==> lex_from(cs, i) == symbol_then(cs, i, TokenKindV::And, 2),
        pair_at(cs, i, '|', '|') ==> lex_from(cs, i) == symbol_then(cs, i, TokenKindV::Or, 2),
        pair_at(cs, i, '|', '>') ==> lex_from(cs, i) == symbol_then(cs, i, TokenKindV::PipeForward, 2),
        pair_at(cs, i, '?', '.') ==> lex_from(cs, i) == symbol_then(cs, i, TokenKindV::SafeDot, 2),
        pair_at(cs, i, '?', ':') ==> lex_from(cs, i) == symbol_then(cs, i, TokenKindV::Elvis, 2),
        pair_at(cs, i, '=', '>') ==> lex_from(cs, i) == symbol_then(cs, i, TokenKindV::FatArrow, 2),
        pair_at(cs, i, '-', '>') ==> lex_from(cs, i) == symbol_then(cs, i, TokenKindV::Arrow, 2),
        pair_at(cs, i, '+', '=') ==> lex_from(cs, i) == symbol_then(cs, i, TokenKindV::PlusAssign, 2),
        pair_at(cs, i, '-', '=') ==> lex_from(cs, i) == symbol_then(cs, i, TokenKindV::MinusAssign, 2),
        pair_at(cs, i, '*', '=') ==> lex_from(cs, i) == symbol_then(cs, i, TokenKindV::StarAssign, 2),
        pair_at(cs, i, '/', '=') ==> lex_from(cs, i) == symbol_then(cs, i, TokenKindV::SlashAssign, 2),
        pair_at(cs, i, '%', '=') ==> lex_from(cs, i) == symbol_then(cs, i, TokenKindV::PercentAssign, 2),
        pair_at(cs, i, '.', '.') && char_at(cs, i + 2) == Some('=') ==> lex_from(cs, i) == symbol_then(cs, i, TokenKindV::RangeInclusive, 3),
        pair_at(cs, i, '.', '.') && char_at(cs, i + 2) == Some('.') ==> lex_from(cs, i) == symbol_then(cs, i, TokenKindV::Ellipsis, 3),
        pair_at(cs, i, '.', '.') && char_at(cs, i + 2) != Some('=') && char_at(cs, i + 2) != Some('.') ==> lex_from(cs, i) == symbol_then(cs, i, TokenKindV::Range, 2),
        0 <= i < cs.len() && cs[i] == '=' && lone_symbol(cs, i) ==> lex_from(cs, i) == symbol_then(cs, i, TokenKindV::Assign, 1),
        0 <= i < cs.len() && cs[i] == '+' && lone_symbol(cs, i) ==> lex_from(cs, i) == symbol_then(cs, i, TokenKindV::Plus, 1),
        0 <= i < cs.len() && cs[i] == '-' && lone_symbol(cs, i) ==> lex_from(cs, i) == symbol_then(cs, i, TokenKindV::Minus, 1),
        0 <= i < cs.len() && cs[i] == '*' && lone_symbol(cs, i) ==> lex_from(cs, i) == symbol_then(cs, i, TokenKindV::Star, 1),
        0 <= i < cs.len() && cs[i] == '/' && lone_symbol(cs, i) ==> lex_from(cs, i) == symbol_then(cs, i, TokenKindV::Slash, 1),
        0 <= i < cs.len() && cs[i] == '%' && lone_symbol(cs, i) ==> lex_from(cs, i) == symbol_then(cs, i, TokenKindV::Percent, 1),
        0 <= i < cs.len() && cs[i] == '<' && lone_symbol(cs, i) ==> lex_from(cs, i) == symbol_then(cs, i, TokenKindV::Lt, 1),
        0 <= i < cs.len() && cs[i] == '>' && lone_symbol(cs, i) ==> lex_from(cs, i) == symbol_then(cs, i, TokenKindV::Gt, 1),
        0 <= i < cs.len() && cs[i] == '!' && lone_symbol(cs, i) ==> lex_from(cs, i) == symbol_then(cs, i, TokenKindV::Bang, 1),
        0 <= i < cs.len() && cs[i] == '.' && lone_symbol(cs, i) ==> lex_from(cs, i) == symbol_then(cs, i, TokenKindV::Dot, 1),
        0 <= i < cs.len() && cs[i] == ',' && lone_symbol(cs, i) ==> lex_from(cs, i) == symbol_then(cs, i, TokenKindV::Comma, 1),
        0 <= i < cs.len() && cs[i] == ':' && lone_symbol(cs, i) ==> lex_from(cs, i) == symbol_then(cs, i, TokenKindV::Colon, 1),
        0 <= i < cs.len() && cs[i] == ';' && lone_symbol(cs, i) ==> lex_from(cs, i) == symbol_then(cs, i, TokenKindV::Semi, 1),
        0 <= i < cs.len() && cs[i] == '?' && lone_symbol(cs, i) ==> lex_from(cs, i) == symbol_then(cs, i, TokenKindV::Question, 1),
        0 <= i < cs.len() && cs[i] == '#' && lone_symbol(cs, i) ==> lex_from(cs, i) == symbol_then(cs, i, TokenKindV::Hash, 1),
        0 <= i < cs.len() && cs[i] == '|' && lone_symbol(cs, i) ==> lex_from(cs, i) == symbol_then(cs, i, TokenKindV::Pipe, 1),
        0 <= i < cs.len() && cs[i] == '(' && lone_symbol(cs, i) ==> lex_from(cs, i) == symbol_then(cs, i, TokenKindV::LParen, 1),
        0 <= i < cs.len() && cs[i] == ')' && lone_symbol(cs, i) ==> lex_from(cs, i) == symbol_then(cs, i, TokenKindV::RParen, 1),
        0 <= i < cs.len() && cs[i] == '{' && lone_symbol(cs, i) ==> lex_from(cs, i) == symbol_then(cs, i, TokenKindV::LBrace, 1),
        0 <= i < cs.len() && cs[i] == '}' && lone_symbol(cs, i) ==> lex_from(cs, i) == symbol_then(cs, i, TokenKindV::RBrace, 1),
        0 <= i < cs.len() && cs[i] == '[' && lone_symbol(cs, i) ==> lex_from(cs, i) == symbol_then(cs, i, TokenKindV::LBracket, 1),
        0 <= i < cs.len() && cs[i] == ']' && lone_symbol(cs, i) ==> lex_from(cs, i) == symbol_then(cs, i, TokenKindV::RBracket, 1),
{
    if 0 <= i < cs.len() && punctuation(cs[i]) && !(cs[i] == '/' && char_at(cs, i + 1) == Some('/')) {
        lemma_lex_symbol(cs, i);
    }
}

/// The word `w` stands at position `i` on its own: no name character
/// follows it.
pub open spec fn word_at(cs: Seq<char>, i: int, w: Seq<char>) -> bool {
    &&& 0 <= i
    &&& i + w.len() <= cs.len()
    &&& cs.subrange(i, i + w.len()) == w
    &&& (i + w.len() == cs.len() || !ident_continue(cs[i + w.len() as int]))
}

spec fn lower_word(w: Seq<char>) -> bool {
    w.len() > 0 && forall|k: int| 0 <= k < w.len() ==> 'a' <= #[trigger] w[k] <= 'z'
}

proof fn lemma_lower_word(cs: Seq<char>, i: int, w: Seq<char>)
    requires
        word_at(cs, i, w),
        lower_word(w),
    ensures
        lex_from(cs, i) == symbol_then(
            cs,
            i,
            match keyword_spec(w) {
                Some(k) => k,
                None => TokenKindV::Ident(w),
            },
            w.len() as int,
        ),
{
    let n = w.len() as int;
    assert(cs[i] == w[0]);
    lemma_lex_name(cs, i);
    lemma_scan_while(cs, i + 1, ident_pred());
    let end = scan_while(cs, i + 1, ident_pred());
    assert forall|k: int| i <= k < i + n implies ident_continue(cs[k]) by {
        assert(cs[k] == w[k - i]);
    }
    if end < i + n {
        assert(ident_pred()(cs[end]));
    }
    if end > i + n {
        assert(ident_pred()(cs[i + n]));
    }
    assert(end == i + n);
    assert(cs.subrange(i, end) == w);
}

proof fn lemma_keyword_word(cs: Seq<char>, i: int, w: Seq<char>)
    requires
        word_at(cs, i, w),
        w.len() > 0,
        forall|k: int| 0 <= k < w.len() ==> 'a' <= #[trigger] w[k] <= 'z',
        keyword_spec(w) is Some,
    ensures
        lex_from(cs, i) == symbol_then(cs, i, keyword_spec(w)->0, w.len() as int),
{
    lemma_lower_word(cs, i, w);
}

/// Each reserved word, standing on its own, lexes to its keyword token:
/// `if` to `If`, `else` to `Else`, `when` to `When` and so on through the
/// whole list.
pub proof fn lemma_keyword_tokens(cs: Seq<char>, i: int)
    ensures
        word_at(cs, i, "true"@) ==> lex_from(cs, i) == symbol_then(cs, i, TokenKindV::True, 4),
        word_at(cs, i, "false"@) ==> lex_from(cs, i) == symbol_then(cs, i, TokenKindV::False, 5),
        word_at(cs, i, "null"@) ==> lex_from(cs, i) == symbol_then(cs, i, TokenKindV::Null, 4),
        word_at(cs, i, "use"@) ==> lex_from(cs, i) == symbol_then(cs, i, TokenKindV::Use, 3),
        word_at(cs, i, "pub"@) ==> lex_from(cs, i) == symbol_then(cs, i, TokenKindV::Pub, 3),
        word_at(cs, i, "var"@) ==> lex_from(cs, i) == symbol_then(cs, i, TokenKindV::Var, 3),
        word_at(cs, i, "if"@) ==> lex_from(cs, i) == symbol_then(cs, i, TokenKindV::If, 2),
        word_at(cs, i, "else"@) ==> lex_from(cs, i) == symbol_then(cs, i, TokenKindV::Else, 4),
        word_at(cs, i, "for"@) ==> lex_from(cs, i) == symbol_then(cs, i, TokenKindV::For, 3),
        word_at(cs, i, "while"@) ==> lex_from(cs, i) == symbol_then(cs, i, TokenKindV::While, 5),
        word_at(cs, i, "break"@) ==> lex_from(cs, i) == symbol_then(cs, i, TokenKindV::Break, 5),
        word_at(cs, i, "continue"@) ==> lex_from(cs, i) == symbol_then(cs, i, TokenKindV::Continue, 8),
        word_at(cs, i, "in"@) ==> lex_from(cs, i) == symbol_then(cs, i, TokenKindV::In, 2),
        word_at(cs, i, "when"@) ==> lex_from(cs, i) == symbol_then(cs, i, TokenKindV::When, 4),
        word_at(cs, i, "return"@) ==> lex_from(cs, i) == symbol_then(cs, i, TokenKindV::Return, 6),
        word_at(cs, i, "require"@) ==> lex_from(cs, i) == symbol_then(cs, i, TokenKindV::Require, 7),
        word_at(cs, i, "enum"@) ==> lex_from(cs, i) == symbol_then(cs, i, TokenKindV::Enum, 4),
        word_at(cs, i, "object"@) ==> lex_from(cs, i) == symbol_then(cs, i, TokenKindV::Object, 6),
        word_at(cs, i, "extend"@) ==> lex_from(cs, i) == symbol_then(cs, i, TokenKindV::Extend, 6),
        word_at(cs, i, "shape"@) ==> lex_from(cs, i) == symbol_then(cs, i, TokenKindV::Shape, 5),
        word_at(cs, i, "async"@) ==> lex_from(cs, i) == symbol_then(cs, i, TokenKindV::Async, 5),
        word_at(cs, i, "await"@) ==> lex_from(cs, i) == symbol_then(cs, i, TokenKindV::Await, 5),
        word_at(cs, i, "try"@) ==> lex_from(cs, i) == symbol_then(cs, i, TokenKindV::Try, 3),
        word_at(cs, i, "throw"@) ==> lex_from(cs, i) == symbol_then(cs, i, TokenKindV::Throw, 5),
{
    assert(word_at(cs, i, "true"@) ==> lex_from(cs, i) == symbol_then(cs, i, TokenKindV::True, 4)) by {
        reveal_strlit("true");
        if word_at(cs, i, "true"@) {
            lemma_keyword_word(cs, i, "true"@);
        }
    }
    assert(word_at(cs, i, "false"@) ==> lex_from(cs, i) == symbol_then(cs, i, TokenKindV::False, 5)) by {
        reveal_strlit("true");
        reveal_strlit("false");
        if word_at(cs, i, "false"@) {
            lemma_keyword_word(cs, i, "false"@);
        }
    }
    assert(word_at(cs, i, "null"@) ==> lex_from(cs, i) == symbol_then(cs, i, TokenKindV::Null, 4)) by {
        reveal_strlit("true");
        reveal_strlit("false");
        reveal_strlit("null");
        assert("null"@[0] != "true"@[0]);
        if word_at(cs, i, "null"@) {
            lemma_keyword_word(cs, i, "null"@);
        }
    }
    assert(word_at(cs, i, "use"@) ==> lex_from(cs, i) == symbol_then(cs, i, TokenKindV::Use, 3)) by {
        reveal_strlit("true");
        reveal_strlit("false");
        reveal_strlit("null");
        reveal_strlit("use");
        if word_at(cs, i, "use"@) {
            lemma_keyword_word(cs, i, "use"@);
        }
    }
    assert(word_at(cs, i, "pub"@) ==> lex_from(cs, i) == symbol_then(cs, i, TokenKindV::Pub, 3)) by {
        reveal_strlit("true");
        reveal_strlit("false");
        reveal_strlit("null");
        reveal_strlit("use");
        reveal_strlit("pub");
        assert("pub"@[0] != "use"@[0]);
        if word_at(cs, i, "pub"@) {
            lemma_keyword_word(cs, i, "pub"@);
        }
    }
    assert(word_at(cs, i, "var"@) ==> lex_from(cs, i) == symbol_then(cs, i, TokenKindV::Var, 3)) by {
        reveal_strlit("true");
        reveal_strlit("false");
        reveal_strlit("null");
        reveal_strlit("use");
        reveal_strlit("pub");
        reveal_strlit("var");
        assert("var"@[0] != "use"@[0]);
        assert("var"@[0] != "pub"@[0]);
        if word_at(cs, i, "var"@) {
            lemma_keyword_word(cs, i, "var"@);
        }
    }
    assert(word_at(cs, i, "if"@) ==> lex_from(cs, i) == symbol_then(cs, i, TokenKindV::If, 2)) by {
        reveal_strlit("true");
        reveal_strlit("false");
        reveal_strlit("null");
        reveal_strlit("use");
        reveal_strlit("pub");
        reveal_strlit("var");
        reveal_strlit("if");
        if word_at(cs, i, "if"@) {
            lemma_keyword_word(cs, i, "if"@);
        }
    }
    assert(word_at(cs, i, "else"@) ==> lex_from(cs, i) == symbol_then(cs, i, TokenKindV::Else, 4)) by {
        reveal_strlit("true");
        reveal_strlit("false");
        reveal_strlit("null");
        reveal_strlit("use");
        reveal_strlit("pub");
        reveal_strlit("var");
        reveal_strlit("if");
        reveal_strlit("else");
        assert("else"@[0] != "true"@[0]);
        assert("else"@[0] != "null"@[0]);
        if word_at(cs, i, "else"@) {
            lemma_keyword_word(cs, i, "else"@);
        }
    }
    assert(word_at(cs, i, "for"@) ==> lex_from(cs, i) == symbol_then(cs, i, TokenKindV::For, 3)) by {
        reveal_strlit("true");
        reveal_strlit("false");
        reveal_strlit("null");
        reveal_strlit("use");
        reveal_strlit("pub");
        reveal_strlit("var");
        reveal_strlit("if");
        reveal_strlit("else");
        reveal_strlit("for");
        assert("for"@[0] != "use"@[0]);
        assert("for"@[0] != "pub"@[0]);
        assert("for"@[0] != "var"@[0]);
        if word_at(cs, i, "for"@) {
            lemma_keyword_word(cs, i, "for"@);
        }
    }
    assert(word_at(cs, i, "while"@) ==> lex_from(cs, i) == symbol_then(cs, i, TokenKindV::While, 5)) by {
        reveal_strlit("true");
        reveal_strlit("false");
        reveal_strlit("null");
        reveal_strlit("use");
        reveal_strlit("pub");
        reveal_strlit("var");
        reveal_strlit("if");
        reveal_strlit("else");
        reveal_strlit("for");
        reveal_strlit("while");
        assert("while"@[0] != "false"@[0]);
        if word_at(cs, i, "while"@) {
            lemma_keyword_word(cs, i, "while"@);
        }
    }
    assert(word_at(cs, i, "break"@) ==> lex_from(cs, i) == symbol_then(cs, i, TokenKindV::Break, 5)) by {
        reveal_strlit("true");
        reveal_strlit("false");
        reveal_strlit("null");
        reveal_strlit("use");
        reveal_strlit("pub");
        reveal_strlit("var");
        reveal_strlit("if");
        reveal_strlit("else");
        reveal_strlit("for");
        reveal_strlit("while");
        reveal_strlit("break");
        assert("break"@[0] != "false"@[0]);
        assert("break"@[0] != "while"@[0]);
        if word_at(cs, i, "break"@) {
            lemma_keyword_word(cs, i, "break"@);
        }
    }
    assert(word_at(cs, i, "continue"@) ==> lex_from(cs, i) == symbol_then(cs, i, TokenKindV::Continue, 8)) by {
        reveal_strlit("true");
        reveal_strlit("false");
        reveal_strlit("null");
        reveal_strlit("use");
        reveal_strlit("pub");
        reveal_strlit("var");
        reveal_strlit("if");
        reveal_strlit("else");
        reveal_strlit("for");
        reveal_strlit("while");
        reveal_strlit("break");
        reveal_strlit("continue");
        if word_at(cs, i, "continue"@) {
            lemma_keyword_word(cs, i, "continue"@);
        }
    }
    assert(word_at(cs, i, "in"@) ==> lex_from(cs, i) == symbol_then(cs, i, TokenKindV::In, 2)) by {
        reveal_strlit("true");
        reveal_strlit("false");
        reveal_strlit("null");
        reveal_strlit("use");
        reveal_strlit("pub");
        reveal_strlit("var");
        reveal_strlit("if");
        reveal_strlit("else");
        reveal_strlit("for");
        reveal_strlit("while");
        reveal_strlit("break");
        reveal_strlit("continue");
        reveal_strlit("in");
        assert("in"@[1] != "if"@[1]);
        if word_at(cs, i, "in"@) {
            lemma_keyword_word(cs, i, "in"@);
        }
    }
    assert(word_at(cs, i, "when"@) ==> lex_from(cs, i) == symbol_then(cs, i, TokenKindV::When, 4)) by {
        reveal_strlit("true");
        reveal_strlit("false");
        reveal_strlit("null");
        reveal_strlit("use");
        reveal_strlit("pub");
        reveal_strlit("var");
        reveal_strlit("if");
        reveal_strlit("else");
        reveal_strlit("for");
        reveal_strlit("while");
        reveal_strlit("break");
        reveal_strlit("continue");
        reveal_strlit("in");
        reveal_strlit("when");
        assert("when"@[0] != "true"@[0]);
        assert("when"@[0] != "null"@[0]);
        assert("when"@[0] != "else"@[0]);
        if word_at(cs, i, "when"@) {
            lemma_keyword_word(cs, i, "when"@);
        }
    }
    assert(word_at(cs, i, "return"@) ==> lex_from(cs, i) == symbol_then(cs, i, TokenKindV::Return, 6)) by {
        reveal_strlit("true");
        reveal_strlit("false");
        reveal_strlit("null");
        reveal_strlit("use");
        reveal_strlit("pub");
        reveal_strlit("var");
        reveal_strlit("if");
        reveal_strlit("else");
        reveal_strlit("for");
        reveal_strlit("while");
        reveal_strlit("break");
        reveal_strlit("continue");
        reveal_strlit("in");
        reveal_strlit("when");
        reveal_strlit("return");
        if word_at(cs, i, "return"@) {
            lemma_keyword_word(cs, i, "return"@);
        }
    }
    assert(word_at(cs, i, "require"@) ==> lex_from(cs, i) == symbol_then(cs, i, TokenKindV::Require, 7)) by {
        reveal_strlit("true");
        reveal_strlit("false");
        reveal_strlit("null");
        reveal_strlit("use");
        reveal_strlit("pub");
        reveal_strlit("var");
        reveal_strlit("if");
        reveal_strlit("else");
        reveal_strlit("for");
        reveal_strlit("while");
        reveal_strlit("break");
        reveal_strlit("continue");
        reveal_strlit("in");
        reveal_strlit("when");
        reveal_strlit("return");
        reveal_strlit("require");
        if word_at(cs, i, "require"@) {
            lemma_keyword_word(cs, i, "require"@);
        }
    }
    assert(word_at(cs, i, "enum"@) ==> lex_from(cs, i) == symbol_then(cs, i, TokenKindV::Enum, 4)) by {
        reveal_strlit("true");
        reveal_strlit("false");
        reveal_strlit("null");
        reveal_strlit("use");
        reveal_strlit("pub");
        reveal_strlit("var");
        reveal_strlit("if");
        reveal_strlit("else");
        reveal_strlit("for");
        reveal_strlit("while");
        reveal_strlit("break");
        reveal_strlit("continue");
        reveal_strlit("in");
        reveal_strlit("when");
        reveal_strlit("return");
        reveal_strlit("require");
        reveal_strlit("enum");
        assert("enum"@[0] != "true"@[0]);
        assert("enum"@[0] != "null"@[0]);
        assert("enum"@[1] != "else"@[1]);
        assert("enum"@[0] != "when"@[0]);
        if word_at(cs, i, "enum"@) {
            lemma_keyword_word(cs, i, "enum"@);
        }
    }
    assert(word_at(cs, i, "object"@) ==> lex_from(cs, i) == symbol_then(cs, i, TokenKindV::Object, 6)) by {
        reveal_strlit("true");
        reveal_strlit("false");
        reveal_strlit("null");
        reveal_strlit("use");
        reveal_strlit("pub");
        reveal_strlit("var");
        reveal_strlit("if");
        reveal_strlit("else");
        reveal_strlit("for");
        reveal_strlit("while");
        reveal_strlit("break");
        reveal_strlit("continue");
        reveal_strlit("in");
        reveal_strlit("when");
        reveal_strlit("return");
        reveal_strlit("require");
        reveal_strlit("enum");
        reveal_strlit("object");
        assert("object"@[0] != "return"@[0]);
        if word_at(cs, i, "object"@) {
            lemma_keyword_word(cs, i, "object"@);
        }
    }
    assert(word_at(cs, i, "extend"@) ==> lex_from(cs, i) == symbol_then(cs, i, TokenKindV::Extend, 6)) by {
        reveal_strlit("true");
        reveal_strlit("false");
        reveal_strlit("null");
        reveal_strlit("use");
        reveal_strlit("pub");
        reveal_strlit("var");
        reveal_strlit("if");
        reveal_strlit("else");
        reveal_strlit("for");
        reveal_strlit("while");
        reveal_strlit("break");
        reveal_strlit("continue");
        reveal_strlit("in");
        reveal_strlit("when");
        reveal_strlit("return");
        reveal_strlit("require");
        reveal_strlit("enum");
        reveal_strlit("object");
        reveal_strlit("extend");
        assert("extend"@[0] != "return"@[0]);
        assert("extend"@[0] != "object"@[0]);
        if word_at(cs, i, "extend"@) {
            lemma_keyword_word(cs, i, "extend"@);
        }
    }
    assert(word_at(cs, i, "shape"@) ==> lex_from(cs, i) == symbol_then(cs, i, TokenKindV::Shape, 5)) by {
        reveal_strlit("true");
        reveal_strlit("false");
        reveal_strlit("null");
        reveal_strlit("use");
        reveal_strlit("pub");
        reveal_strlit("var");
        reveal_strlit("if");
        reveal_strlit("else");
        reveal_strlit("for");
        reveal_strlit("while");
        reveal_strlit("break");
        reveal_strlit("continue");
        reveal_strlit("in");
        reveal_strlit("when");
        reveal_strlit("return");
        reveal_strlit("require");
        reveal_strlit("enum");
        reveal_strlit("object");
        reveal_strlit("extend");
        reveal_strlit("shape");
        assert("shape"@[0] != "false"@[0]);
        assert("shape"@[0] != "while"@[0]);
        assert("shape"@[0] != "break"@[0]);
        if word_at(cs, i, "shape"@) {
            lemma_keyword_word(cs, i, "shape"@);
        }
    }
    assert(word_at(cs, i, "async"@) ==> lex_from(cs, i) == symbol_then(cs, i, TokenKindV::Async, 5)) by {
        reveal_strlit("true");
        reveal_strlit("false");
        reveal_strlit("null");
        reveal_strlit("use");
        reveal_strlit("pub");
        reveal_strlit("var");
        reveal_strlit("if");
        reveal_strlit("else");
        reveal_strlit("for");
        reveal_strlit("while");
        reveal_strlit("break");
        reveal_strlit("continue");
        reveal_strlit("in");
        reveal_strlit("when");
        reveal_strlit("return");
        reveal_strlit("require");
        reveal_strlit("enum");
        reveal_strlit("object");
        reveal_strlit("extend");
        reveal_strlit("shape");
        reveal_strlit("async");
        assert("async"@[0] != "false"@[0]);
        assert("async"@[0] != "while"@[0]);
        assert("async"@[0] != "break"@[0]);
        assert("async"@[0] != "shape"@[0]);
        if word_at(cs, i, "async"@) {
            lemma_keyword_word(cs, i, "async"@);
        }
    }
    assert(word_at(cs, i, "await"@) ==> lex_from(cs, i) == symbol_then(cs, i, TokenKindV::Await, 5)) by {
        reveal_strlit("true");
        reveal_strlit("false");
        reveal_strlit("null");
        reveal_strlit("use");
        reveal_strlit("pub");
        reveal_strlit("var");
        reveal_strlit("if");
        reveal_strlit("else");
        reveal_strlit("for");
        reveal_strlit("while");
        reveal_strlit("break");
        reveal_strlit("continue");
        reveal_strlit("in");
        reveal_strlit("when");
        reveal_strlit("return");
        reveal_strlit("require");
        reveal_strlit("enum");
        reveal_strlit("object");
        reveal_strlit("extend");
        reveal_strlit("shape");
        reveal_strlit("async");
        reveal_strlit("await");
        assert("await"@[0] != "false"@[0]);
        assert("await"@[0] != "while"@[0]);
        assert("await"@[0] != "break"@[0]);
        assert("await"@[0] != "shape"@[0]);
        assert("await"@[1] != "async"@[1]);
        if word_at(cs, i, "await"@) {
            lemma_keyword_word(cs, i, "await"@);
        }
    }
    assert(word_at(cs, i, "try"@) ==> lex_from(cs, i) == symbol_then(cs, i, TokenKindV::Try, 3)) by {
        reveal_strlit("true");
        reveal_strlit("false");
        reveal_strlit("null");
        reveal_strlit("use");
        reveal_strlit("pub");
        reveal_strlit("var");
        reveal_strlit("if");
        reveal_strlit("else");
        reveal_strlit("for");
        reveal_strlit("while");
        reveal_strlit("break");
        reveal_strlit("continue");
        reveal_strlit("in");
        reveal_strlit("when");
        reveal_strlit("return");
        reveal_strlit("require");
        reveal_strlit("enum");
        reveal_strlit("object");
        reveal_strlit("extend");
        reveal_strlit("shape");
        reveal_strlit("async");
        reveal_strlit("await");
        reveal_strlit("try");
        assert("try"@[0] != "use"@[0]);
        assert("try"@[0] != "pub"@[0]);
        assert("try"@[0] != "var"@[0]);
        assert("try"@[0] != "for"@[0]);
        if word_at(cs, i, "try"@) {
            lemma_keyword_word(cs, i, "try"@);
        }
    }
    assert(word_at(cs, i, "throw"@) ==> lex_from(cs, i) == symbol_then(cs, i, TokenKindV::Throw, 5)) by {
        reveal_strlit("true");
        reveal_strlit("false");
        reveal_strlit("null");
        reveal_strlit("use");
        reveal_strlit("pub");
        reveal_strlit("var");
        reveal_strlit("if");
        reveal_strlit("else");
        reveal_strlit("for");
        reveal_strlit("while");
        reveal_strlit("break");
        reveal_strlit("continue");
        reveal_strlit("in");
        reveal_strlit("when");
        reveal_strlit("return");
        reveal_strlit("require");
        reveal_strlit("enum");
        reveal_strlit("object");
        reveal_strlit("extend");
        reveal_strlit("shape");
        reveal_strlit("async");
        reveal_strlit("await");
        reveal_strlit("try");
        reveal_strlit("throw");
        assert("throw"@[0] != "false"@[0]);
        assert("throw"@[0] != "while"@[0]);
        assert("throw"@[0] != "break"@[0]);
        assert("throw"@[0] != "shape"@[0]);
        assert("throw"@[0] != "async"@[0]);
        assert("throw"@[0] != "await"@[0]);
        if word_at(cs, i, "throw"@) {
            lemma_keyword_word(cs, i, "throw"@);
        }
    }
}

spec fn punctuation(c: char) -> bool {
    c == '=' || c == '!' || c == '<' || c == '>' || c == '&' || c == '|' || c == '?' || c == '-'
        || c == '+' || c == '*' || c == '/' || c == '%' || c == '.' || c == ',' || c == ':' || c
        == ';' || c == '#' || c == '(' || c == ')' || c == '{' || c == '}' || c == '[' || c == ']'
}

/// The tokens of `source`, or its first lexical error.
pub open spec fn lex_spec(cs: Seq<char>) -> Result<Seq<TokenV>, LexErrorV> {
    lex_from(cs, 0)
}

// ---------------------------------------------------------------------------
// The lexer.
// ---------------------------------------------------------------------------
fn get_char(cs: &[char], i: usize, k: usize) -> (r: Option<char>)
    ensures
        r == char_at(cs@, i + k),
{
    if i < cs.len() && k < cs.len() - i {
        Some(cs[i + k])
    } else {
        None
    }
}

proof fn lemma_symbol_width(cs: Seq<char>, i: int)
    ensures
        symbol_spec(cs, i) matches Some((_, w)) ==> 1 <= w <= 3,
        0 <= i ==> (symbol_spec(cs, i) matches Some((_, w)) ==> i + w <= cs.len()),
{
}

/// The byte offset of position `j`, given that of position `i`.
fn offset_at(cs: &[char], i: usize, b: usize, j: usize) -> (r: usize)
    requires
        i <= j <= cs@.len(),
        b == byte_offset(cs@, i as int),
        byte_offset(cs@, cs@.len() as int) <= usize::MAX,
    ensures
        r == byte_offset(cs@, j as int),
{
    let mut k = i;
    let mut r = b;
    while k < j
        invariant
            i <= k <= j <= cs@.len(),
            r == byte_offset(cs@, k as int),
            byte_offset(cs@, cs@.len() as int) <= usize::MAX,
        decreases j - k,
    {
        proof {
            lemma_byte_offset_monotonic(cs@, k + 1, cs@.len() as int);
        }
        r = r + char_width(cs[k]);
        k = k + 1;
    }
    r
}

fn span_between(cs: &[char], i: usize, b: usize, j: usize) -> (r: (Span, usize))
    requires
        i <= j <= cs@.len(),
        b == byte_offset(cs@, i as int),
        byte_offset(cs@, cs@.len() as int) <= usize::MAX,
    ensures
        r.0 == span_of(cs@, i as int, j as int),
        r.1 == byte_offset(cs@, j as int),
{
    let e = offset_at(cs, i, b, j);
    (Span::new(b, e), e)
}

fn scan_digits(cs: &[char], i: usize) -> (e: usize)
    requires
        i <= cs@.len(),
    ensures
        e == scan_while(cs@, i as int, digit_pred()),
{
    let mut k = i;
    while k < cs.len() && '0' <= cs[k] && cs[k] <= '9'
        invariant
            i <= k <= cs@.len(),
            scan_while(cs@, k as int, digit_pred()) == scan_while(cs@, i as int, digit_pred()),
        decreases cs.len() - k,
    {
        k = k + 1;
    }
    k
}

fn scan_name(cs: &[char], i: usize) -> (e: usize)
    requires
        i <= cs@.len(),
    ensures
        e == scan_while(cs@, i as int, ident_pred()),
{
    let mut k = i;
    while k < cs.len() && (cs[k] == '_' || is_alphanumeric(cs[k]))
        invariant
            i <= k <= cs@.len(),
            scan_while(cs@, k as int, ident_pred()) == scan_while(cs@, i as int, ident_pred()),
        decreases cs.len() - k,
    {
        k = k + 1;
    }
    k
}

fn scan_line(cs: &[char], i: usize) -> (e: usize)
    requires
        i <= cs@.len(),
    ensures
        e == scan_while(cs@, i as int, not_newline()),
{
    let mut k = i;
    while k < cs.len() && cs[k] != '\n'
        invariant
            i <= k <= cs@.len(),
            scan_while(cs@, k as int, not_newline()) == scan_while(cs@, i as int, not_newline()),
        decreases cs.len() - k,
    {
        k = k + 1;
    }
    k
}

fn lex_error(message: &str, span: Span) -> (e: LexError)
    ensures
        e.message@ == message@,
        e.span == span,
{
    LexError { message: message.to_owned(), span }
}

fn lex_number(cs: &[char], i: usize, b: usize) -> (r: Result<(Token, usize, usize), LexError>)
    requires
        i < cs@.len(),
        is_digit(cs@[i as int]),
        b == byte_offset(cs@, i as int),
        byte_offset(cs@, cs@.len() as int) <= usize::MAX,
    ensures
        match (r, number_spec(cs@, i as int)) {
            (Ok((t, e, be)), Ok((st, se))) => view_token(t) == st && e == se && be
                == byte_offset(cs@, e as int) && i < e <= cs@.len(),
            (Err(x), Err(sx)) => view_lex_error(x) == sx,
            _ => false,
        },
{
    proof {
        lemma_scan_while(cs@, i as int, digit_pred());
    }
    let e1 = scan_digits(cs, i);
    let is_float = e1 < cs.len() && cs[e1] == '.' && e1 + 1 < cs.len() && '0' <= cs[e1 + 1] && cs[e1
        + 1] <= '9';
    let end = if is_float {
        proof {
            lemma_scan_while(cs@, e1 + 1, digit_pred());
        }
        scan_digits(cs, e1 + 1)
    } else {
        e1
    };
    let text = chars_range(cs, i, end);
    let (span, be) = span_between(cs, i, b, end);
    if is_float {
        Ok((Token { kind: TokenKind::Float(string_from(&text)), span }, end, be))
    } else {
        match parse_i64(&text) {
            Some(v) => Ok((Token { kind: TokenKind::Int(v), span }, end, be)),
            None => Err(lex_error("integer literal is out of range", span)),
        }
    }
}

fn lex_string(cs: &[char], i: usize, b: usize) -> (r: Result<(Token, usize, usize), LexError>)
    requires
        i < cs@.len(),
        cs@[i as int] == '"',
        b == byte_offset(cs@, i as int),
        byte_offset(cs@, cs@.len() as int) <= usize::MAX,
    ensures
        match (r, string_spec(cs@, i as int, i + 1, Seq::empty())) {
            (Ok((t, e, be)), Ok((v, se))) => view_token(t) == (TokenV {
                kind: TokenKindV::Str(v),
                span: span_of(cs@, i as int, se),
            }) && e == se && be == byte_offset(cs@, e as int) && i < e <= cs@.len(),
            (Err(x), Err(sx)) => view_lex_error(x) == sx,
            _ => false,
        },
{
    proof {
        lemma_byte_offset_monotonic(cs@, 0, cs@.len() as int);
    }
    let mut value: Vec<char> = Vec::new();
    let mut j = i + 1;
    proof {
        lemma_string_spec_end(cs@, i as int, i + 1, Seq::empty());
    }
    while j < cs.len()
        invariant
            i < j <= cs@.len(),
            b == byte_offset(cs@, i as int),
            byte_offset(cs@, cs@.len() as int) <= usize::MAX,
            string_spec(cs@, i as int, j as int, value@) == string_spec(
                cs@,
                i as int,
                i + 1,
                Seq::empty(),
            ),
        decreases cs.len() - j,
    {
        let c = cs[j];
        if c == '"' {
            let (span, _) = span_between(cs, i, b, j + 1);
            let be = offset_at(cs, i, b, j + 1);
            let t = Token { kind: TokenKind::String(string_from(&value)), span };
            return Ok((t, j + 1, be));
        } else if c == '\n' {
            let (span, _) = span_between(cs, i, b, j);
            return Err(lex_error("unterminated string literal", span));
        } else if c == '\\' {
            if j + 1 >= cs.len() {
                let (span, _) = span_between(cs, i, b, cs.len());
                return Err(lex_error("unterminated string escape", span));
            }
            let escape = cs[j + 1];
            let decoded = if escape == 'n' {
                '\n'
            } else if escape == 't' {
                '\t'
            } else if escape == 'r' {
                '\r'
            } else if escape == '0' {
                '\0'
            } else {
                escape
            };
            value.push(decoded);
            j = j + 2;
        } else {
            value.push(c);
            j = j + 1;
        }
    }
    let (span, _) = span_between(cs, i, b, cs.len());
    Err(lex_error("unterminated string literal", span))
}

fn lex_name(cs: &[char], i: usize, b: usize) -> (r: (Token, usize, usize))
    requires
        i < cs@.len(),
        b == byte_offset(cs@, i as int),
        byte_offset(cs@, cs@.len() as int) <= usize::MAX,
    ensures
        view_token(r.0) == ident_spec(cs@, i as int).0,
        r.1 == ident_spec(cs@, i as int).1,
        r.2 == byte_offset(cs@, r.1 as int),
        i < r.1 <= cs@.len(),
{
    proof {
        lemma_byte_offset_monotonic(cs@, 0, cs@.len() as int);
        lemma_scan_while(cs@, i + 1, ident_pred());
    }
    let end = scan_name(cs, i + 1);
    let text = chars_range(cs, i, end);
    let (span, be) = span_between(cs, i, b, end);
    let kind = match keyword(&text) {
        Some(k) => k,
        None => if is_uppercase(cs[i]) {
            TokenKind::DataIdent(string_from(&text))
        } else {
            TokenKind::Ident(string_from(&text))
        },
    };
    (Token { kind, span }, end, be)
}

pub proof fn lemma_skip_hws(cs: Seq<char>, i: int, j: int)
    requires
        0 <= i <= j <= cs.len(),
        forall|k: int| i <= k < j ==> is_hws(#[trigger] cs[k]),
    ensures
        lex_from(cs, i) == lex_from(cs, j),
    decreases j - i,
{
    if i < j {
        lemma_skip_hws(cs, i + 1, j);
        assert(is_hws(cs[i]));
        lemma_lex_hws(cs, i);
    }
}

proof fn lemma_glue_push(ts: Seq<TokenV>, t: TokenV, rest: Result<Seq<TokenV>, LexErrorV>)
    ensures
        glue(ts.push(t), rest) == glue(ts, glue(seq![t], rest)),
{
    match rest {
        Ok(r) => {
            assert(ts.push(t) + r =~= ts + (seq![t] + r));
        },
        Err(_) => {},
    }
}

/// Proves that the UTF-8 encoding of `cs` has `byte_offset(cs, len)` bytes.
pub proof fn lemma_encoded_len(cs: Seq<char>)
    ensures
        vstd::utf8::encode_utf8(cs).len() == byte_offset(cs, cs.len() as int),
    decreases cs.len(),
{
    if cs.len() > 0 {
        lemma_encoded_len(cs.drop_first());
        vstd::utf8::char_is_scalar(cs[0]);
        lemma_byte_offset_shift(cs, cs.len() as int);
    }
}

proof fn lemma_byte_offset_shift(cs: Seq<char>, i: int)
    requires
        1 <= i <= cs.len(),
    ensures
        byte_offset(cs, i) == utf8_width(cs[0]) + byte_offset(cs.drop_first(), i - 1),
    decreases i,
{
    if i > 1 {
        lemma_byte_offset_shift(cs, i - 1);
        assert(cs.drop_first()[i - 2] == cs[i - 1]);
    } else {
        assert(byte_offset(cs, 0) == 0);
        assert(byte_offset(cs.drop_first(), 0) == 0);
    }
}

/// Lexes `source` into tokens ending with `Eof`.
pub fn lex(source: &str) -> (r: Result<Vec<Token>, LexError>)
    ensures
        view_lex_result(r) == lex_spec(source@),
{
    let cs = chars_of(source);
    let total = source.as_bytes().len();
    proof {
        lemma_encoded_len(cs@);
        lemma_byte_offset_monotonic(cs@, 0, cs@.len() as int);
    }
    let mut tokens: Vec<Token> = Vec::new();
    let mut i: usize = 0;
    let mut b: usize = 0;
    while i < cs.len()
        invariant
            i <= cs@.len(),
            cs@ == source@,
            b == byte_offset(cs@, i as int),
            byte_offset(cs@, cs@.len() as int) <= usize::MAX,
            glue(view_tokens(tokens@), lex_from(cs@, i as int)) == lex_spec(cs@),
        decreases cs.len() - i,
    {
        let c = cs[i];
        let ghost before = view_tokens(tokens@);
        if c == ' ' || c == '\t' || c == '\r' {
            let mut j = i;
            while j < cs.len() && (cs[j] == ' ' || cs[j] == '\t' || cs[j] == '\r')
                invariant
                    i <= j <= cs@.len(),
                    forall|k: int| i <= k < j ==> is_hws(#[trigger] cs@[k]),
                decreases cs.len() - j,
            {
                j = j + 1;
            }
            proof {
                lemma_skip_hws(cs@, i as int, j as int);
            }
            b = offset_at(&cs, i, b, j);
            i = j;
        } else if c == '\n' {
            let (span, be) = span_between(&cs, i, b, i + 1);
            let t = Token { kind: TokenKind::Newline, span };
            proof {
                lemma_lex_newline(cs@, i as int);
                lemma_glue_push(before, view_token(t), lex_from(cs@, i + 1));
            }
            tokens.push(t);
            assert(view_tokens(tokens@) =~= before.push(view_token(t)));
            i = i + 1;
            b = be;
        } else if c == '/' && get_char(&cs, i, 1) == Some('/') {
            proof {
                lemma_scan_while(cs@, i as int, not_newline());
                lemma_lex_comment(cs@, i as int);
            }
            let e = scan_line(&cs, i);
            b = offset_at(&cs, i, b, e);
            i = e;
        } else if '0' <= c && c <= '9' {
            proof {
                lemma_lex_number(cs@, i as int);
            }
            match lex_number(&cs, i, b) {
                Ok((t, e, be)) => {
                    proof {
                        lemma_glue_push(before, view_token(t), lex_from(cs@, e as int));
                    }
                    tokens.push(t);
                    assert(view_tokens(tokens@) =~= before.push(view_token(t)));
                    i = e;
                    b = be;
                },
                Err(x) => {
                    return Err(x);
                },
            }
        } else if c == '"' {
            proof {
                lemma_lex_string(cs@, i as int);
            }
            match lex_string(&cs, i, b) {
                Ok((t, e, be)) => {
                    proof {
                        lemma_glue_push(before, view_token(t), lex_from(cs@, e as int));
                    }
                    tokens.push(t);
                    assert(view_tokens(tokens@) =~= before.push(view_token(t)));
                    i = e;
                    b = be;
                },
                Err(x) => {
                    return Err(x);
                },
            }
        } else if c == '_' || is_alphabetic(c) {
            let (t, e, be) = lex_name(&cs, i, b);
            proof {
                lemma_lex_name(cs@, i as int);
                lemma_glue_push(before, view_token(t), lex_from(cs@, e as int));
            }
            tokens.push(t);
            assert(view_tokens(tokens@) =~= before.push(view_token(t)));
            i = e;
            b = be;
        } else {
            proof {
                lemma_symbol_width(cs@, i as int);
                lemma_lex_symbol(cs@, i as int);
            }
            match symbol(&cs, i) {
                Some((k, w)) => {
                    let (span, be) = span_between(&cs, i, b, i + w);
                    let t = Token { kind: k, span };
                    proof {
                        lemma_glue_push(before, view_token(t), lex_from(cs@, i + w));
                    }
                    tokens.push(t);
                    assert(view_tokens(tokens@) =~= before.push(view_token(t)));
                    i = i + w;
                    b = be;
                },
                None => {
                    let (span, _) = span_between(&cs, i, b, i + 1);
                    let mut message: Vec<char> = Vec::new();
                    push_str(&mut message, "unexpected character '");
                    message.push(c);
                    push_str(&mut message, "'");
                    assert(message@ =~= "unexpected character '"@ + seq![c] + "'"@);
                    return Err(LexError { message: string_from(&message), span });
                },
            }
        }
    }
    let t = Token { kind: TokenKind::Eof, span: Span::new(b, b) };
    let ghost before = view_tokens(tokens@);
    proof {
        lemma_lex_end(cs@, i as int);
    }
    tokens.push(t);
    assert(view_tokens(tokens@) =~= before + seq![view_token(t)]);
    Ok(tokens)
}

// ---------------------------------------------------------------------------
// What the lexer guarantees of its tokens.
// ---------------------------------------------------------------------------
pub open spec fn float_token_ok(k: TokenKindV) -> bool {
    match k {
        TokenKindV::Float(t) => float_text_ok(t),
        _ => true,
    }
}

/// Tokens a parser can read: at least one, the last `Eof`, and the text of
/// every float literal one that `f64` parsing accepts.
pub open spec fn tokens_ok(ts: Seq<TokenV>) -> bool {
    &&& ts.len() > 0
    &&& ts.last().kind is Eof
    &&& forall|i: int| 0 <= i < ts.len() ==> #[trigger] float_token_ok(ts[i].kind)
}

proof fn lemma_number_token(cs: Seq<char>, i: int)
    requires
        0 <= i < cs.len(),
        is_digit(cs[i]),
    ensures
        number_spec(cs, i) matches Ok((t, e)) ==> float_token_ok(t.kind) && i < e <= cs.len(),
{
    lemma_scan_while(cs, i, digit_pred());
    let e1 = scan_while(cs, i, digit_pred());
    assert(is_digit(cs[i]) ==> digit_pred()(cs[i]));
    if char_at(cs, e1) == Some('.') && e1 + 1 < cs.len() && is_digit(cs[e1 + 1]) {
        lemma_scan_while(cs, e1 + 1, digit_pred());
        let end = scan_while(cs, e1 + 1, digit_pred());
        let text = cs.subrange(i, end);
        assert(e1 + 1 < end) by {
            assert(digit_pred()(cs[e1 + 1]));
        }
        assert forall|k: int| 0 <= k < text.len() implies (#[trigger] is_digit(text[k]) || text[k] == '.')
            && !is_exp_mark(text[k]) && (text[k] == '.' <==> k == e1 - i) by {
            assert(text[k] == cs[i + k]);
            if i + k < e1 {
                assert(digit_pred()(cs[i + k]));
            } else if i + k > e1 {
                assert(digit_pred()(cs[i + k]));
            }
        }
        assert(is_digit(text[0]));
        assert(!is_sign(text[0]));
        assert(mantissa_ok(text));
        assert(number_ok(text));
    }
}

proof fn lemma_glue_ok(first: Seq<TokenV>, rest: Result<Seq<TokenV>, LexErrorV>)
    requires
        forall|i: int| 0 <= i < first.len() ==> #[trigger] float_token_ok(first[i].kind),
        rest matches Ok(rs) ==> tokens_ok(rs),
    ensures
        glue(first, rest) matches Ok(ts) ==> tokens_ok(ts),
{
    if let Ok(rs) = rest {
        let ts = first + rs;
        assert(ts.last() == rs.last());
        assert forall|i: int| 0 <= i < ts.len() implies #[trigger] float_token_ok(ts[i].kind) by {
            if i < first.len() {
                assert(ts[i] == first[i]);
                assert(float_token_ok(first[i].kind));
            } else {
                assert(ts[i] == rs[i - first.len()]);
                assert(float_token_ok(rs[i - first.len()].kind));
            }
        }
    }
}

proof fn lemma_lex_from_ok(cs: Seq<char>, i: int)
    requires
        0 <= i,
    ensures
        lex_from(cs, i) matches Ok(ts) ==> tokens_ok(ts),
    decreases cs.len() - i,
{
    reveal(lex_from);
    if i < cs.len() {
        let c = cs[i];
        if is_hws(c) {
            lemma_lex_from_ok(cs, i + 1);
        } else if c == '\n' {
            lemma_lex_from_ok(cs, i + 1);
            lemma_glue_ok(
                seq![TokenV { kind: TokenKindV::Newline, span: span_of(cs, i, i + 1) }],
                lex_from(cs, i + 1),
            );
        } else if c == '/' && char_at(cs, i + 1) == Some('/') {
            lemma_scan_while(cs, i, not_newline());
            assert(not_newline()(cs[i]));
            lemma_scan_while(cs, i + 1, not_newline());
            lemma_lex_from_ok(cs, scan_while(cs, i, not_newline()));
        } else if is_digit(c) {
            lemma_number_token(cs, i);
            if let Ok((t, e)) = number_spec(cs, i) {
                lemma_lex_from_ok(cs, e);
                lemma_glue_ok(seq![t], lex_from(cs, e));
            }
        } else if c == '"' {
            lemma_string_spec_end(cs, i, i + 1, Seq::empty());
            if let Ok((v, e)) = string_spec(cs, i, i + 1, Seq::empty()) {
                lemma_lex_from_ok(cs, e);
                lemma_glue_ok(
                    seq![TokenV { kind: TokenKindV::Str(v), span: span_of(cs, i, e) }],
                    lex_from(cs, e),
                );
            }
        } else if ident_start(c) {
            lemma_scan_while(cs, i + 1, ident_pred());
            let (t, e) = ident_spec(cs, i);
            lemma_lex_from_ok(cs, e);
            lemma_glue_ok(seq![t], lex_from(cs, e));
        } else {
            if let Some((k, w)) = symbol_spec(cs, i) {
                if w > 0 {
                    lemma_lex_from_ok(cs, i + w);
                    lemma_glue_ok(seq![TokenV { kind: k, span: span_of(cs, i, i + w) }], lex_from(cs, i + w));
                }
            }
        }
    }
}

/// The tokens of any source that lexes end with `Eof` and hold float
/// literals that `f64` parsing accepts.
pub proof fn lemma_lex_tokens_ok(cs: Seq<char>)
    ensures
        lex_spec(cs) matches Ok(ts) ==> tokens_ok(ts),
{
    lemma_lex_from_ok(cs, 0);
}


// ---------------------------------------------------------------------------
// Spans.
// ---------------------------------------------------------------------------
/// Spans that lie between byte offsets `lo` and `hi`, each token's span
/// ending no later than any later token's starts.
pub open spec fn spans_in_order(ts: Seq<TokenV>, lo: nat, hi: nat) -> bool {
    &&& forall|k: int| 0 <= k < ts.len() ==> lo <= #[trigger] ts[k].span.start && ts[k].span.start <= ts[k].span.end && ts[k].span.end <= hi
    &&& forall|j: int, k: int| 0 <= j < k < ts.len() ==> #[trigger] ts[j].span.end <= #[trigger] ts[k].span.start
}

proof fn lemma_span_of(cs: Seq<char>, a: int, b: int)
    requires
        0 <= a <= b <= cs.len(),
        offsets_fit(cs),
    ensures
        span_of(cs, a, b).start == byte_offset(cs, a),
        span_of(cs, a, b).end == byte_offset(cs, b),
        byte_offset(cs, a) <= byte_offset(cs, b) <= byte_offset(cs, cs.len() as int),
{
    lemma_byte_offset_monotonic(cs, a, b);
    lemma_byte_offset_monotonic(cs, b, cs.len() as int);
}

proof fn lemma_glue_spans(t: TokenV, rest: Result<Seq<TokenV>, LexErrorV>, lo: nat, mid: nat, hi: nat)
    requires
        lo <= t.span.start <= t.span.end <= mid <= hi,
        rest matches Ok(rs) ==> spans_in_order(rs, mid, hi),
    ensures
        glue(seq![t], rest) matches Ok(ts) ==> spans_in_order(ts, lo, hi),
{
    if let Ok(rs) = rest {
        let ts = seq![t] + rs;
        assert forall|k: int| 0 <= k < ts.len() implies lo <= #[trigger] ts[k].span.start && ts[k].span.start
            <= ts[k].span.end && ts[k].span.end <= hi by {
            if k > 0 {
                assert(ts[k] == rs[k - 1]);
            } else {
                assert(ts[0] == t);
            }
        }
        assert forall|j: int, k: int| 0 <= j < k < ts.len() implies #[trigger] ts[j].span.end
            <= #[trigger] ts[k].span.start by {
            assert(ts[k] == rs[k - 1]);
            assert(mid <= rs[k - 1].span.start);
            if j > 0 {
                assert(ts[j] == rs[j - 1]);
            } else {
                assert(ts[0] == t);
            }
        }
    }
}

proof fn lemma_lex_from_spans(cs: Seq<char>, i: int)
    requires
        0 <= i <= cs.len(),
        offsets_fit(cs),
    ensures
        lex_from(cs, i) matches Ok(ts) ==> spans_in_order(
            ts,
            byte_offset(cs, i),
            byte_offset(cs, cs.len() as int),
        ),
    decreases cs.len() - i,
{
    reveal(lex_from);
    let hi = byte_offset(cs, cs.len() as int);
    lemma_byte_offset_monotonic(cs, i, cs.len() as int);
    if i == cs.len() {
        lemma_span_of(cs, i, i);
    } else {
        let c = cs[i];
        if is_hws(c) {
            lemma_lex_from_spans(cs, i + 1);
            lemma_byte_offset_monotonic(cs, i, i + 1);
        } else if c == '\n' {
            lemma_lex_from_spans(cs, i + 1);
            lemma_span_of(cs, i, i + 1);
            lemma_glue_spans(
                TokenV { kind: TokenKindV::Newline, span: span_of(cs, i, i + 1) },
                lex_from(cs, i + 1),
                byte_offset(cs, i),
                byte_offset(cs, i + 1),
                hi,
            );
        } else if c == '/' && char_at(cs, i + 1) == Some('/') {
            lemma_scan_while(cs, i, not_newline());
            let e = scan_while(cs, i, not_newline());
            lemma_lex_from_spans(cs, e);
            lemma_byte_offset_monotonic(cs, i, e);
        } else if is_digit(c) {
            lemma_number_token(cs, i);
            if let Ok((t, e)) = number_spec(cs, i) {
                lemma_lex_from_spans(cs, e);
                lemma_span_of(cs, i, e);
                lemma_glue_spans(t, lex_from(cs, e), byte_offset(cs, i), byte_offset(cs, e), hi);
            }
        } else if c == '"' {
            lemma_string_spec_end(cs, i, i + 1, Seq::empty());
            if let Ok((v, e)) = string_spec(cs, i, i + 1, Seq::empty()) {
                lemma_lex_from_spans(cs, e);
                lemma_span_of(cs, i, e);
                lemma_glue_spans(
                    TokenV { kind: TokenKindV::Str(v), span: span_of(cs, i, e) },
                    lex_from(cs, e),
                    byte_offset(cs, i),
                    byte_offset(cs, e),
                    hi,
                );
            }
        } else if ident_start(c) {
            lemma_scan_while(cs, i + 1, ident_pred());
            let (t, e) = ident_spec(cs, i);
            lemma_lex_from_spans(cs, e);
            lemma_span_of(cs, i, e);
            lemma_glue_spans(t, lex_from(cs, e), byte_offset(cs, i), byte_offset(cs, e), hi);
        } else {
            lemma_symbol_width(cs, i);
            if let Some((k, w)) = symbol_spec(cs, i) {
                if w > 0 {
                    lemma_lex_from_spans(cs, i + w);
                    lemma_span_of(cs, i, i + w);
                    lemma_glue_spans(
                        TokenV { kind: k, span: span_of(cs, i, i + w) },
                        lex_from(cs, i + w),
                        byte_offset(cs, i),
                        byte_offset(cs, i + w),
                        hi,
                    );
                }
            }
        }
    }
}

/// Token spans are byte ranges of the source, in order: each lies within the
/// source's UTF-8 encoding, and each ends no later than any later one starts.
pub proof fn lemma_lex_spans_in_order(cs: Seq<char>)
    requires
        offsets_fit(cs),
    ensures
        lex_spec(cs) matches Ok(ts) ==> spans_in_order(ts, 0, byte_offset(cs, cs.len() as int)),
{
    lemma_lex_from_spans(cs, 0);
}


/// Every token of `ts` starts on a character boundary of `cs`.
pub open spec fn starts_on_boundaries(cs: Seq<char>, ts: Seq<TokenV>) -> bool {
    forall|k: int| 0 <= k < ts.len() ==> on_boundary(cs, #[trigger] ts[k].span.start as nat)
}

proof fn lemma_span_start_on_boundary(cs: Seq<char>, a: int, b: int)
    requires
        0 <= a <= b <= cs.len(),
        offsets_fit(cs),
    ensures
        on_boundary(cs, span_of(cs, a, b).start as nat),
{
    lemma_span_of(cs, a, b);
    assert(0 <= a <= cs.len() && byte_offset(cs, a) == span_of(cs, a, b).start as nat);
}

proof fn lemma_glue_boundaries(cs: Seq<char>, t: TokenV, rest: Result<Seq<TokenV>, LexErrorV>)
    requires
        on_boundary(cs, t.span.start as nat),
        rest matches Ok(rs) ==> starts_on_boundaries(cs, rs),
    ensures
        glue(seq![t], rest) matches Ok(ts) ==> starts_on_boundaries(cs, ts),
{
    if let Ok(rs) = rest {
        let ts = seq![t] + rs;
        assert forall|k: int| 0 <= k < ts.len() implies on_boundary(cs, #[trigger] ts[k].span.start as nat) by {
            if k > 0 {
                assert(ts[k] == rs[k - 1]);
            } else {
                assert(ts[0] == t);
            }
        }
    }
}

proof fn lemma_lex_from_boundaries(cs: Seq<char>, i: int)
    requires
        0 <= i <= cs.len(),
        offsets_fit(cs),
    ensures
        lex_from(cs, i) matches Ok(ts) ==> starts_on_boundaries(cs, ts),
        lex_from(cs, i) matches Err(e) ==> on_boundary(cs, e.span.start as nat),
    decreases cs.len() - i,
{
    reveal(lex_from);
    if i == cs.len() {
        lemma_span_start_on_boundary(cs, i, i);
        let ts = seq![TokenV { kind: TokenKindV::Eof, span: span_of(cs, i, i) }];
        assert(ts[0].span == span_of(cs, i, i));
    } else {
        let c = cs[i];
        if is_hws(c) {
            lemma_lex_from_boundaries(cs, i + 1);
        } else if c == '\n' {
            lemma_lex_from_boundaries(cs, i + 1);
            lemma_span_start_on_boundary(cs, i, i + 1);
            lemma_glue_boundaries(
                cs,
                TokenV { kind: TokenKindV::Newline, span: span_of(cs, i, i + 1) },
                lex_from(cs, i + 1),
            );
        } else if c == '/' && char_at(cs, i + 1) == Some('/') {
            lemma_scan_while(cs, i, not_newline());
            lemma_lex_from_boundaries(cs, scan_while(cs, i, not_newline()));
        } else if is_digit(c) {
            lemma_number_token(cs, i);
            lemma_span_start_on_boundary(cs, i, i);
            match number_spec(cs, i) {
                Ok((t, e)) => {
                    lemma_lex_from_boundaries(cs, e);
                    lemma_glue_boundaries(cs, t, lex_from(cs, e));
                },
                Err(_) => {},
            }
        } else if c == '"' {
            lemma_string_spec_end(cs, i, i + 1, Seq::empty());
            lemma_string_error_start(cs, i, i + 1, Seq::empty());
            lemma_span_start_on_boundary(cs, i, i);
            if let Ok((v, e)) = string_spec(cs, i, i + 1, Seq::empty()) {
                lemma_lex_from_boundaries(cs, e);
                lemma_span_start_on_boundary(cs, i, e);
                lemma_glue_boundaries(
                    cs,
                    TokenV { kind: TokenKindV::Str(v), span: span_of(cs, i, e) },
                    lex_from(cs, e),
                );
            }
        } else if ident_start(c) {
            lemma_scan_while(cs, i + 1, ident_pred());
            let (t, e) = ident_spec(cs, i);
            lemma_lex_from_boundaries(cs, e);
            lemma_span_start_on_boundary(cs, i, e);
            lemma_glue_boundaries(cs, t, lex_from(cs, e));
        } else {
            lemma_symbol_width(cs, i);
            lemma_span_start_on_boundary(cs, i, i);
            lemma_span_start_on_boundary(cs, i, i + 1);
            if let Some((k, w)) = symbol_spec(cs, i) {
                if w > 0 {
                    lemma_lex_from_boundaries(cs, i + w);
                    lemma_span_start_on_boundary(cs, i, i + w);
                    lemma_glue_boundaries(
                        cs,
                        TokenV { kind: k, span: span_of(cs, i, i + w) },
                        lex_from(cs, i + w),
                    );
                }
            }
        }
    }
}

/// A string literal's errors start at its opening quote.
proof fn lemma_string_error_start(cs: Seq<char>, start: int, j: int, acc: Seq<char>)
    requires
        0 <= j,
    ensures
        string_spec(cs, start, j, acc) matches Err(e) ==> e.span.start == span_of(cs, start, start).start,
    decreases cs.len() - j,
{
    if 0 <= j < cs.len() && cs[j] != '"' && cs[j] != '\n' {
        if cs[j] == '\\' {
            if j + 1 < cs.len() {
                lemma_string_error_start(cs, start, j + 2, acc.push(unescape(cs[j + 1])));
            }
        } else {
            lemma_string_error_start(cs, start, j + 1, acc.push(cs[j]));
        }
    }
}

/// Every position the lexer reports, for a token or an error, is a
/// character boundary of the source.
pub proof fn lemma_lex_positions_on_boundaries(cs: Seq<char>)
    requires
        offsets_fit(cs),
    ensures
        lex_spec(cs) matches Ok(ts) ==> starts_on_boundaries(cs, ts),
        lex_spec(cs) matches Err(e) ==> on_boundary(cs, e.span.start as nat),
{
    lemma_lex_from_boundaries(cs, 0);
}

} // verus!
