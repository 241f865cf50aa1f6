//! The stage-0 parser: recursive descent from tokens to a syntax tree.
//!
//! A parser holds a token sequence that ends with `Eof` and a cursor that
//! never passes it.  Each parsing method computes exactly the function of
//! `grammar` for its part of the language: the same tree and next position, or the
//! same message at the same offset.  Each consumes at least one token when it
//! succeeds, so parsing always ends; the trees it builds hold only float
//! literals taken from the tokens (`literals_ok_*`), and every error it
//! reports is placed at the start of a token.
use vstd::prelude::*;
use crate::ast::{
    view_param, view_params, view_strings, BlockV, ExprV, ParamV, StmtV, WhenBodyV, WhenCaseV,
    lemma_view_cases_push, lemma_view_exprs_push, lemma_view_fields_push, lemma_view_stmts_push,
    view_block, view_case, view_cases, view_expr, view_exprs, view_fbody, view_fields,
    view_program, view_stmt, view_stmts, view_wbody, BinaryOp, Block, DataDecl, ElseBranch, Expr,
    FunctionBody, FunctionDecl, Param, Program, Stmt, UnaryOp, WhenBody, WhenCase,
};
use crate::lexer::{
    float_token_ok, lex, lex_spec, tokens_ok, view_kind, view_token, view_tokens, LexError, Token, TokenKind, TokenKindV,
    TokenV,
};
use crate::numbers::{decimal_text, push_decimal};
use crate::roundtrip::{
    lemma_literals_ok_cases_push, lemma_literals_ok_exprs_push, lemma_literals_ok_fields_push,
    lemma_literals_ok_stmts_push, literals_ok_block, literals_ok_case, literals_ok_cases,
    literals_ok_expr, literals_ok_exprs, literals_ok_fbody, literals_ok_fields,
    literals_ok_program, literals_ok_stmt, literals_ok_stmts, literals_ok_wbody,
};
use crate::text::{chars_of, push_str, string_from};
use crate::grammar::{
    after_parameters, annotation, token_start, arguments, binary_level, binary_tail, block, block_statements,
    case_patterns, close_paren, command_args, command_call, data_decl, data_fields, expression,
    fail_at, for_stmt, function_decl, if_expr, kind_at, list, looks_like_command,
    looks_like_data, looks_like_function, param_list, params, postfix, postfix_tail, primary,
    program_from, program_statements, return_stmt, skip_newlines, skip_separators,
    starts_argument, statement, take_data_name, take_function_name, take_name, typed_parameter,
    unary, use_path, use_stmt, var_stmt, when_body, when_case, when_cases, when_expr, Failure,
    Parsed,
};

verus! {

/// Why a token sequence is not a program, and the byte at which the parser
/// stopped.
#[derive(Debug, Clone, PartialEq, Eq)]
pub struct ParseError {
    pub message: String,
    pub offset: usize,
}

impl ParseError {
    /// The error as text: the message and the byte at which it occurred.
    pub fn describe(&self) -> (r: String)
        ensures
            r@ == self.message@ + " at byte "@ + decimal_text(self.offset as nat),
    {
        let mut out = chars_of(self.message.as_str());
        push_str(&mut out, " at byte ");
        push_decimal(&mut out, self.offset as u64);
        string_from(&out)
    }
}

/// An error in the terms of `grammar`: its message and offset.
pub open spec fn failure(e: ParseError) -> Failure {
    (e.message@, e.offset as nat)
}

/// What a parsing method gave, in the terms of `grammar`: the tree's view
/// with the parser's position after it, or the failure.
pub open spec fn expr_outcome(r: Result<Expr, ParseError>, c: usize) -> Parsed<ExprV> {
    match r {
        Ok(x) => Ok((view_expr(x), c as int)),
        Err(e) => Err(failure(e)),
    }
}

pub open spec fn exprs_outcome(r: Result<Vec<Expr>, ParseError>, c: usize) -> Parsed<Seq<ExprV>> {
    match r {
        Ok(x) => Ok((view_exprs(x@), c as int)),
        Err(e) => Err(failure(e)),
    }
}

pub open spec fn program_outcome(r: Result<Program, ParseError>) -> Result<Seq<StmtV>, Failure> {
    match r {
        Ok(x) => Ok(view_program(x).statements),
        Err(e) => Err(failure(e)),
    }
}

pub open spec fn stmt_outcome(r: Result<Stmt, ParseError>, c: usize) -> Parsed<StmtV> {
    match r {
        Ok(x) => Ok((view_stmt(x), c as int)),
        Err(e) => Err(failure(e)),
    }
}

pub open spec fn block_outcome(r: Result<Block, ParseError>, c: usize) -> Parsed<BlockV> {
    match r {
        Ok(x) => Ok((view_block(x), c as int)),
        Err(e) => Err(failure(e)),
    }
}

pub open spec fn case_outcome(r: Result<WhenCase, ParseError>, c: usize) -> Parsed<WhenCaseV> {
    match r {
        Ok(x) => Ok((view_case(x), c as int)),
        Err(e) => Err(failure(e)),
    }
}

pub open spec fn wbody_outcome(r: Result<WhenBody, ParseError>, c: usize) -> Parsed<WhenBodyV> {
    match r {
        Ok(x) => Ok((view_wbody(x), c as int)),
        Err(e) => Err(failure(e)),
    }
}

pub open spec fn string_outcome(r: Result<String, ParseError>, c: usize) -> Parsed<Seq<char>> {
    match r {
        Ok(x) => Ok((x@, c as int)),
        Err(e) => Err(failure(e)),
    }
}

pub open spec fn params_outcome(r: Result<Vec<Param>, ParseError>, c: usize) -> Parsed<Seq<ParamV>> {
    match r {
        Ok(x) => Ok((view_params(x@), c as int)),
        Err(e) => Err(failure(e)),
    }
}

pub open spec fn function_outcome(r: Result<FunctionDecl, ParseError>, c: usize) -> Parsed<StmtV> {
    match r {
        Ok(f) => Ok(
            (StmtV::Function { name: f.name@, params: view_params(f.params@), body: view_fbody(f.body) }, c as int),
        ),
        Err(e) => Err(failure(e)),
    }
}

pub open spec fn data_outcome(r: Result<DataDecl, ParseError>, c: usize) -> Parsed<StmtV> {
    match r {
        Ok(d) => Ok(
            (StmtV::Data { name: d.name@, params: view_params(d.params@), computed: view_fields(d.computed@) }, c as int),
        ),
        Err(e) => Err(failure(e)),
    }
}

/// The position of a kind in the list of kinds: two kinds are the same
/// variant exactly when their positions agree.
pub open spec fn variant_of(k: TokenKindV) -> nat {
    match k {
        TokenKindV::Ident(_) => 0,
        TokenKindV::DataIdent(_) => 1,
        TokenKindV::Int(_) => 2,
        TokenKindV::Float(_) => 3,
        TokenKindV::Str(_) => 4,
        TokenKindV::True => 5,
        TokenKindV::False => 6,
        TokenKindV::Null => 7,
        TokenKindV::Use => 8,
        TokenKindV::Pub => 9,
        TokenKindV::Var => 10,
        TokenKindV::If => 11,
        TokenKindV::Else => 12,
        TokenKindV::For => 13,
        TokenKindV::While => 14,
        TokenKindV::Break => 15,
        TokenKindV::Continue => 16,
        TokenKindV::In => 17,
        TokenKindV::When => 18,
        TokenKindV::Return => 19,
        TokenKindV::Require => 20,
        TokenKindV::Enum => 21,
        TokenKindV::Object => 22,
        TokenKindV::Extend => 23,
        TokenKindV::Shape => 24,
        TokenKindV::Async => 25,
        TokenKindV::Await => 26,
        TokenKindV::Try => 27,
        TokenKindV::Throw => 28,
        TokenKindV::FatArrow => 29,
        TokenKindV::Arrow => 30,
        TokenKindV::Eq => 31,
        TokenKindV::Neq => 32,
        TokenKindV::Lte => 33,
        TokenKindV::Gte => 34,
        TokenKindV::And => 35,
        TokenKindV::Or => 36,
        TokenKindV::SafeDot => 37,
        TokenKindV::Elvis => 38,
        TokenKindV::Range => 39,
        TokenKindV::RangeInclusive => 40,
        TokenKindV::Ellipsis => 41,
        TokenKindV::PipeForward => 42,
        TokenKindV::Pipe => 43,
        TokenKindV::Assign => 44,
        TokenKindV::PlusAssign => 45,
        TokenKindV::MinusAssign => 46,
        TokenKindV::StarAssign => 47,
        TokenKindV::SlashAssign => 48,
        TokenKindV::PercentAssign => 49,
        TokenKindV::Plus => 50,
        TokenKindV::Minus => 51,
        TokenKindV::Star => 52,
        TokenKindV::Slash => 53,
        TokenKindV::Percent => 54,
        TokenKindV::Lt => 55,
        TokenKindV::Gt => 56,
        TokenKindV::Bang => 57,
        TokenKindV::Dot => 58,
        TokenKindV::Comma => 59,
        TokenKindV::Colon => 60,
        TokenKindV::Semi => 61,
        TokenKindV::Question => 62,
        TokenKindV::Hash => 63,
        TokenKindV::LParen => 64,
        TokenKindV::RParen => 65,
        TokenKindV::LBrace => 66,
        TokenKindV::RBrace => 67,
        TokenKindV::LBracket => 68,
        TokenKindV::RBracket => 69,
        TokenKindV::Newline => 70,
        TokenKindV::Eof => 71,
    }
}

fn variant_index(k: &TokenKind) -> (r: u8)
    ensures
        r == variant_of(view_kind(*k)),
{
    match k {
        TokenKind::Ident(_) => 0,
        TokenKind::DataIdent(_) => 1,
        TokenKind::Int(_) => 2,
        TokenKind::Float(_) => 3,
        TokenKind::String(_) => 4,
        TokenKind::True => 5,
        TokenKind::False => 6,
        TokenKind::Null => 7,
        TokenKind::Use => 8,
        TokenKind::Pub => 9,
        TokenKind::Var => 10,
        TokenKind::If => 11,
        TokenKind::Else => 12,
        TokenKind::For => 13,
        TokenKind::While => 14,
        TokenKind::Break => 15,
        TokenKind::Continue => 16,
        TokenKind::In => 17,
        TokenKind::When => 18,
        TokenKind::Return => 19,
        TokenKind::Require => 20,
        TokenKind::Enum => 21,
        TokenKind::Object => 22,
        TokenKind::Extend => 23,
        TokenKind::Shape => 24,
        TokenKind::Async => 25,
        TokenKind::Await => 26,
        TokenKind::Try => 27,
        TokenKind::Throw => 28,
        TokenKind::FatArrow => 29,
        TokenKind::Arrow => 30,
        TokenKind::Eq => 31,
        TokenKind::Neq => 32,
        TokenKind::Lte => 33,
        TokenKind::Gte => 34,
        TokenKind::And => 35,
        TokenKind::Or => 36,
        TokenKind::SafeDot => 37,
        TokenKind::Elvis => 38,
        TokenKind::Range => 39,
        TokenKind::RangeInclusive => 40,
        TokenKind::Ellipsis => 41,
        TokenKind::PipeForward => 42,
        TokenKind::Pipe => 43,
        TokenKind::Assign => 44,
        TokenKind::PlusAssign => 45,
        TokenKind::MinusAssign => 46,
        TokenKind::StarAssign => 47,
        TokenKind::SlashAssign => 48,
        TokenKind::PercentAssign => 49,
        TokenKind::Plus => 50,
        TokenKind::Minus => 51,
        TokenKind::Star => 52,
        TokenKind::Slash => 53,
        TokenKind::Percent => 54,
        TokenKind::Lt => 55,
        TokenKind::Gt => 56,
        TokenKind::Bang => 57,
        TokenKind::Dot => 58,
        TokenKind::Comma => 59,
        TokenKind::Colon => 60,
        TokenKind::Semi => 61,
        TokenKind::Question => 62,
        TokenKind::Hash => 63,
        TokenKind::LParen => 64,
        TokenKind::RParen => 65,
        TokenKind::LBrace => 66,
        TokenKind::RBrace => 67,
        TokenKind::LBracket => 68,
        TokenKind::RBracket => 69,
        TokenKind::Newline => 70,
        TokenKind::Eof => 71,
    }
}

pub struct Parser {
    tokens: Vec<Token>,
    cursor: usize,
}

impl Parser {
    pub closed spec fn wf(&self) -> bool {
        tokens_ok(view_tokens(self.tokens@)) && self.cursor < self.tokens.len()
    }

    /// The tokens being parsed.
    pub closed spec fn tokens_view(&self) -> Seq<TokenV> {
        view_tokens(self.tokens@)
    }

    /// The position of the next token.
    pub closed spec fn position(&self) -> int {
        self.cursor as int
    }

    spec fn kind_at(&self, i: int) -> TokenKindV {
        view_kind(self.tokens@[i].kind)
    }

    spec fn cur(&self) -> TokenKindV {
        self.kind_at(self.cursor as int)
    }

    proof fn lemma_wf(&self)
        requires
            self.wf(),
        ensures
            self.tokens.len() > 0,
            self.cursor < self.tokens.len(),
            self.kind_at(self.tokens.len() - 1) is Eof,
            forall|i: int| 0 <= i < self.tokens.len() ==> float_token_ok(#[trigger] self.kind_at(i)),
    {
        let ts = view_tokens(self.tokens@);
        assert(ts.last() == view_token(self.tokens@[self.tokens.len() - 1]));
        assert forall|i: int| 0 <= i < self.tokens.len() implies float_token_ok(#[trigger] self.kind_at(i)) by {
            assert(ts[i] == view_token(self.tokens@[i]));
            assert(float_token_ok(ts[i].kind));
        }
    }

    /// A parser at the first of `tokens`.
    ///
    /// The tokens must be such as `lex` gives: they end with `Eof`, and each
    /// float literal's text is one that `f64` parsing accepts.  Without a
    /// final `Eof`, reading past the last token would have to repeat it, and
    /// skipping separators over a final line break or `;` would never end.
    pub fn new(tokens: Vec<Token>) -> (p: Self)
        requires
            tokens_ok(view_tokens(tokens@)),
        ensures
            p.wf(),
            p.tokens_view() == view_tokens(tokens@),
            p.position() == 0,
    {
        Parser { tokens, cursor: 0 }
    }

    /// A parser over the tokens of `source`, or the lexical error.
    pub fn from_source(source: &str) -> (r: Result<Self, LexError>)
        ensures
            r matches Ok(p) ==> p.wf() && p.position() == 0 && lex_spec(source@) == Ok::<
                Seq<TokenV>,
                crate::lexer::LexErrorV,
            >(p.tokens_view()),
            r matches Err(e) ==> lex_spec(source@) == Err::<Seq<TokenV>, crate::lexer::LexErrorV>(
                crate::lexer::view_lex_error(e),
            ),
    {
        match lex(source) {
            Ok(tokens) => {
                proof {
                    crate::lexer::lemma_lex_tokens_ok(source@);
                }
                Ok(Parser::new(tokens))
            },
            Err(e) => Err(e),
        }
    }

    fn current(&self) -> (t: &Token)
        requires
            self.wf(),
        ensures
            *t == self.tokens@[self.cursor as int],
    {
        &self.tokens[self.cursor]
    }

    fn at(&self, kind: &TokenKind) -> (r: bool)
        requires
            self.wf(),
        ensures
            r == (variant_of(self.cur()) == variant_of(view_kind(*kind))),
    {
        same_variant(&self.current().kind, kind)
    }

    fn eat(&mut self, kind: &TokenKind) -> (r: bool)
        requires
            old(self).wf(),
            !(view_kind(*kind) is Eof),
        ensures
            final(self).wf(),
            final(self).tokens@ == old(self).tokens@,
            r == (variant_of(old(self).cur()) == variant_of(view_kind(*kind))),
            final(self).cursor == old(self).cursor + if r { 1int } else { 0int },
    {
        proof {
            self.lemma_wf();
        }
        if self.at(kind) {
            self.cursor = self.cursor + 1;
            true
        } else {
            false
        }
    }

    fn advance(&mut self) -> (t: Token)
        requires
            old(self).wf(),
        ensures
            final(self).wf(),
            final(self).tokens@ == old(self).tokens@,
            view_token(t) == view_token(old(self).tokens@[old(self).cursor as int]),
            final(self).cursor == old(self).cursor + if old(self).cur() is Eof { 0int } else { 1int },
    {
        proof {
            self.lemma_wf();
        }
        let index = self.cursor;
        if !self.at(&TokenKind::Eof) {
            self.cursor = self.cursor + 1;
        }
        self.tokens[index].duplicate()
    }

    fn error(&self, message: &str) -> (e: ParseError)
        requires
            self.wf(),
        ensures
            e.message@ == message@,
            e.offset == self.tokens@[self.cursor as int].span.start,
            token_start(self.tokens_view(), e.offset as nat),
    {
        proof {
            assert(self.tokens_view()[self.cursor as int] == view_token(self.tokens@[self.cursor as int]));
        }
        ParseError { message: string_from(&chars_of(message)), offset: self.current().span.start }
    }

    fn consume_separators(&mut self) -> (r: bool)
        requires
            old(self).wf(),
        ensures
            final(self).wf(),
            final(self).tokens@ == old(self).tokens@,
            old(self).cursor <= final(self).cursor,
            r == (final(self).cursor != old(self).cursor),
            final(self).cursor as int == skip_separators(old(self).tokens_view(), old(self).cursor as int),
    {
        let start = self.cursor;
        while self.current().kind.is_separator()
            invariant
                self.wf(),
                self.tokens@ == old(self).tokens@,
                start == old(self).cursor,
                start <= self.cursor,
                skip_separators(self.tokens_view(), start as int) == skip_separators(
                    self.tokens_view(),
                    self.cursor as int,
                ),
            decreases self.tokens.len() - self.cursor,
        {
            proof {
                self.lemma_wf();
            }
            self.cursor = self.cursor + 1;
        }
        self.cursor != start
    }

    fn expect(&mut self, kind: &TokenKind, message: &str) -> (r: Result<(), ParseError>)
        requires
            old(self).wf(),
            !(view_kind(*kind) is Eof),
        ensures
            r matches Err(e) ==> token_start(old(self).tokens_view(), e.offset as nat),
            final(self).wf(),
            final(self).tokens@ == old(self).tokens@,
            r is Ok ==> final(self).cursor == old(self).cursor + 1,
            r is Ok <==> variant_of(old(self).cur()) == variant_of(view_kind(*kind)),
            r matches Err(e) ==> failure(e) == fail_at(
                old(self).tokens_view(),
                old(self).cursor as int,
                message@,
            ),
    {
        if self.eat(kind) {
            Ok(())
        } else {
            Err(self.error(message))
        }
    }

    fn take_identifier(&mut self) -> (r: Result<String, ParseError>)
        requires
            old(self).wf(),
        ensures
            r matches Err(e) ==> token_start(old(self).tokens_view(), e.offset as nat),
            final(self).wf(),
            final(self).tokens@ == old(self).tokens@,
            r is Ok ==> final(self).cursor == old(self).cursor + 1,
            string_outcome(r, final(self).cursor) == take_name(
                old(self).tokens_view(),
                old(self).cursor as int,
            ),
    {
        let t = self.advance();
        match t.kind {
            TokenKind::Ident(name) => Ok(name),
            TokenKind::DataIdent(name) => Ok(name),
            _ => {
                if self.cursor > 0 {
                    self.cursor = self.cursor - 1;
                }
                Err(self.error("expected identifier"))
            },
        }
    }

    fn take_lower_identifier(&mut self) -> (r: Result<String, ParseError>)
        requires
            old(self).wf(),
        ensures
            r matches Err(e) ==> token_start(old(self).tokens_view(), e.offset as nat),
            final(self).wf(),
            final(self).tokens@ == old(self).tokens@,
            r is Ok ==> final(self).cursor == old(self).cursor + 1,
            string_outcome(r, final(self).cursor) == take_function_name(
                old(self).tokens_view(),
                old(self).cursor as int,
            ),
    {
        let t = self.advance();
        match t.kind {
            TokenKind::Ident(name) => Ok(name),
            _ => {
                if self.cursor > 0 {
                    self.cursor = self.cursor - 1;
                }
                Err(self.error("function names must begin with a lowercase letter or '_'"))
            },
        }
    }

    fn take_data_identifier(&mut self) -> (r: Result<String, ParseError>)
        requires
            old(self).wf(),
        ensures
            r matches Err(e) ==> token_start(old(self).tokens_view(), e.offset as nat),
            final(self).wf(),
            final(self).tokens@ == old(self).tokens@,
            r is Ok ==> final(self).cursor == old(self).cursor + 1,
            string_outcome(r, final(self).cursor) == take_data_name(
                old(self).tokens_view(),
                old(self).cursor as int,
            ),
    {
        let t = self.advance();
        match t.kind {
            TokenKind::DataIdent(name) => Ok(name),
            _ => {
                if self.cursor > 0 {
                    self.cursor = self.cursor - 1;
                }
                Err(self.error("data type names must begin with an uppercase letter"))
            },
        }
    }

    /// Parses the whole token sequence as a program.
    #[verifier::loop_isolation(false)]
    #[verifier::spinoff_prover]
    #[verifier::rlimit(30)]
    pub fn parse_program(self) -> (r: Result<Program, ParseError>)
        requires
            self.wf(),
        ensures
            r matches Err(e) ==> token_start(self.tokens_view(), e.offset as nat),
            r matches Ok(p) ==> literals_ok_program(view_program(p)),
            program_outcome(r) == program_from(self.tokens_view(), self.position()),
    {
        let ghost ts = self.tokens_view();
        let mut parser = self;
        let mut statements: Vec<Stmt> = Vec::new();
        assert(view_stmts(statements@) =~= Seq::<StmtV>::empty());
        parser.consume_separators();
        let ghost q0 = parser.cursor as int;
        while !parser.at(&TokenKind::Eof)
            invariant
                parser.wf(),
                parser.tokens_view() == ts,
                literals_ok_stmts(view_stmts(statements@)),
                q0 <= parser.cursor,
                program_statements(ts, q0, Seq::empty()) == program_statements(
                    ts,
                    parser.cursor as int,
                    view_stmts(statements@),
                ),
            decreases parser.tokens.len() - parser.cursor,
        {
            let s = match parser.parse_statement() {
                Ok(x) => x,
                Err(e) => return Err(e),
            };
            proof {
                lemma_view_stmts_push(statements@, s);
                lemma_literals_ok_stmts_push(view_stmts(statements@), view_stmt(s));
            }
            statements.push(s);
            if parser.at(&TokenKind::Eof) {
                return Ok(Program { statements });
            }
            if !parser.consume_separators() && !parser.at(&TokenKind::RBrace) {
                return Err(parser.error("expected a newline or ';' between statements"));
            }
        }
        Ok(Program { statements })
    }

    #[verifier::spinoff_prover]
    #[verifier::rlimit(30)]
    fn parse_statement(&mut self) -> (r: Result<Stmt, ParseError>)
        requires
            old(self).wf(),
        ensures
            r matches Err(e) ==> token_start(old(self).tokens_view(), e.offset as nat),
            final(self).wf(),
            final(self).tokens@ == old(self).tokens@,
            r is Ok ==> old(self).cursor < final(self).cursor,
            r matches Ok(s) ==> literals_ok_stmt(view_stmt(s)),
            stmt_outcome(r, final(self).cursor) == statement(old(self).tokens_view(), old(self).cursor as int),
        decreases old(self).tokens.len() - old(self).cursor, 30nat,
    {
        proof {
            reveal_with_fuel(literals_ok_stmt, 2);
            reveal_with_fuel(literals_ok_expr, 2);
        }
        if self.eat(&TokenKind::Pub) {
            if self.at(&TokenKind::Pub) {
                return Err(self.error("duplicate 'pub' modifier"));
            }
            let statement = match self.parse_statement() {
                Ok(x) => x,
                Err(e) => return Err(e),
            };
            if !matches!(
                statement,
                Stmt::Function(_) | Stmt::Var { .. } | Stmt::Assign { .. } | Stmt::Data(_)
            ) {
                return Err(self.error("'pub' is only valid on declarations"));
            }
            return Ok(Stmt::Pub(Box::new(statement)));
        }
        if self.eat(&TokenKind::Use) {
            return self.parse_use();
        }
        if self.eat(&TokenKind::Var) {
            return self.parse_var();
        }
        if self.eat(&TokenKind::Return) {
            return self.parse_return();
        }
        if self.eat(&TokenKind::For) {
            return self.parse_for();
        }
        if self.at(&TokenKind::If) {
            let e = match self.parse_if() {
                Ok(x) => x,
                Err(e) => return Err(e),
            };
            return Ok(Stmt::Expr(e));
        }
        if self.at(&TokenKind::When) {
            let e = match self.parse_when() {
                Ok(x) => x,
                Err(e) => return Err(e),
            };
            return Ok(Stmt::Expr(e));
        }
        if self.looks_like_data_decl() {
            let d = match self.parse_data() {
                Ok(x) => x,
                Err(e) => return Err(e),
            };
            return Ok(Stmt::Data(d));
        }
        if self.looks_like_function_decl() {
            let f = match self.parse_function() {
                Ok(x) => x,
                Err(e) => return Err(e),
            };
            return Ok(Stmt::Function(f));
        }
        if self.looks_like_command_call() {
            let e = match self.parse_command_call() {
                Ok(x) => x,
                Err(e) => return Err(e),
            };
            return Ok(Stmt::Expr(e));
        }
        let target = match self.parse_expression() {
            Ok(x) => x,
            Err(e) => return Err(e),
        };
        if self.eat(&TokenKind::Assign) {
            let value = match self.parse_expression() {
                Ok(x) => x,
                Err(e) => return Err(e),
            };
            return Ok(Stmt::Assign { target, value });
        }
        Ok(Stmt::Expr(target))
    }

    #[verifier::loop_isolation(false)]
    fn parse_use(&mut self) -> (r: Result<Stmt, ParseError>)
        requires
            old(self).wf(),
        ensures
            r matches Err(e) ==> token_start(old(self).tokens_view(), e.offset as nat),
            final(self).wf(),
            final(self).tokens@ == old(self).tokens@,
            r is Ok ==> old(self).cursor < final(self).cursor,
            r matches Ok(s) ==> literals_ok_stmt(view_stmt(s)),
            stmt_outcome(r, final(self).cursor) == use_stmt(old(self).tokens_view(), old(self).cursor as int),
        decreases old(self).tokens.len() - old(self).cursor, 28nat,
    {
        let first = match self.take_identifier() {
            Ok(x) => x,
            Err(e) => return Err(e),
        };
        let ghost q0 = self.cursor as int;
        let ghost first_view = first@;
        let mut path: Vec<String> = Vec::new();
        path.push(first);
        assert(view_strings(path@) =~= seq![first_view]);
        while self.eat(&TokenKind::Dot)
            invariant
                self.wf(),
                self.tokens@ == old(self).tokens@,
                old(self).cursor < self.cursor,
                q0 <= self.cursor,
                use_path(old(self).tokens_view(), q0, seq![first_view]) == use_path(
                    old(self).tokens_view(),
                    self.cursor as int,
                    view_strings(path@),
                ),
            decreases self.tokens.len() - self.cursor,
        {
            let part = match self.take_identifier() {
                Ok(x) => x,
                Err(e) => return Err(e),
            };
            proof {
                assert(view_strings(path@.push(part)) =~= view_strings(path@).push(part@));
            }
            path.push(part);
        }
        Ok(Stmt::Use { path })
    }

    #[verifier::spinoff_prover]
    #[verifier::rlimit(30)]
    fn parse_var(&mut self) -> (r: Result<Stmt, ParseError>)
        requires
            old(self).wf(),
        ensures
            r matches Err(e) ==> token_start(old(self).tokens_view(), e.offset as nat),
            final(self).wf(),
            final(self).tokens@ == old(self).tokens@,
            r is Ok ==> old(self).cursor < final(self).cursor,
            r matches Ok(s) ==> literals_ok_stmt(view_stmt(s)),
            stmt_outcome(r, final(self).cursor) == var_stmt(old(self).tokens_view(), old(self).cursor as int),
        decreases old(self).tokens.len() - old(self).cursor, 28nat,
    {
        let name = match self.take_identifier() {
            Ok(x) => x,
            Err(e) => return Err(e),
        };
        let type_annotation = if self.eat(&TokenKind::Colon) {
            let t = match self.parse_type_name() {
                Ok(x) => x,
                Err(e) => return Err(e),
            };
            Some(t)
        } else {
            None
        };
        if let Err(e) = self.expect(&TokenKind::Assign, "expected '=' in variable declaration") {
            return Err(e);
        }
        let value = match self.parse_expression() {
            Ok(x) => x,
            Err(e) => return Err(e),
        };
        Ok(Stmt::Var { name, type_annotation, value })
    }

    fn parse_return(&mut self) -> (r: Result<Stmt, ParseError>)
        requires
            old(self).wf(),
        ensures
            r matches Err(e) ==> token_start(old(self).tokens_view(), e.offset as nat),
            final(self).wf(),
            final(self).tokens@ == old(self).tokens@,
            r is Ok ==> old(self).cursor <= final(self).cursor,
            r matches Ok(s) ==> literals_ok_stmt(view_stmt(s)),
            stmt_outcome(r, final(self).cursor) == return_stmt(old(self).tokens_view(), old(self).cursor as int),
        decreases old(self).tokens.len() - old(self).cursor, 28nat,
    {
        proof {
            reveal_with_fuel(literals_ok_stmt, 2);
            reveal_with_fuel(literals_ok_expr, 2);
        }
        if self.current().kind.is_separator() || self.at(&TokenKind::RBrace) || self.at(
            &TokenKind::Eof,
        ) {
            Ok(Stmt::Return(None))
        } else {
            let e = match self.parse_expression() {
                Ok(x) => x,
                Err(e) => return Err(e),
            };
            Ok(Stmt::Return(Some(e)))
        }
    }

    #[verifier::spinoff_prover]
    #[verifier::rlimit(30)]
    fn parse_for(&mut self) -> (r: Result<Stmt, ParseError>)
        requires
            old(self).wf(),
        ensures
            r matches Err(e) ==> token_start(old(self).tokens_view(), e.offset as nat),
            final(self).wf(),
            final(self).tokens@ == old(self).tokens@,
            r is Ok ==> old(self).cursor < final(self).cursor,
            r matches Ok(s) ==> literals_ok_stmt(view_stmt(s)),
            stmt_outcome(r, final(self).cursor) == for_stmt(old(self).tokens_view(), old(self).cursor as int),
        decreases old(self).tokens.len() - old(self).cursor, 28nat,
    {
        let name = match self.take_identifier() {
            Ok(x) => x,
            Err(e) => return Err(e),
        };
        if let Err(e) = self.expect(&TokenKind::In, "expected 'in' after loop variable") {
            return Err(e);
        }
        let iterable = match self.parse_expression() {
            Ok(x) => x,
            Err(e) => return Err(e),
        };
        let body = match self.parse_block() {
            Ok(x) => x,
            Err(e) => return Err(e),
        };
        Ok(Stmt::For { name, iterable, body })
    }

    #[verifier::spinoff_prover]
    #[verifier::rlimit(30)]
    fn parse_function(&mut self) -> (r: Result<FunctionDecl, ParseError>)
        requires
            old(self).wf(),
        ensures
            r matches Err(e) ==> token_start(old(self).tokens_view(), e.offset as nat),
            final(self).wf(),
            final(self).tokens@ == old(self).tokens@,
            r is Ok ==> old(self).cursor < final(self).cursor,
            r matches Ok(f) ==> literals_ok_fbody(view_fbody(f.body)),
            function_outcome(r, final(self).cursor) == function_decl(old(self).tokens_view(), old(self).cursor as int),
        decreases old(self).tokens.len() - old(self).cursor, 28nat,
    {
        let name = match self.take_lower_identifier() {
            Ok(x) => x,
            Err(e) => return Err(e),
        };
        let params = match self.parse_params() {
            Ok(x) => x,
            Err(e) => return Err(e),
        };
        let body = if self.eat(&TokenKind::FatArrow) {
            let e = match self.parse_expression() {
                Ok(x) => x,
                Err(e) => return Err(e),
            };
            FunctionBody::Expr(e)
        } else {
            let b = match self.parse_block() {
                Ok(x) => x,
                Err(e) => return Err(e),
            };
            FunctionBody::Block(b)
        };
        Ok(FunctionDecl { name, params, body })
    }

    #[verifier::loop_isolation(false)]
    #[verifier::spinoff_prover]
    #[verifier::rlimit(30)]
    fn parse_data(&mut self) -> (r: Result<DataDecl, ParseError>)
        requires
            old(self).wf(),
        ensures
            r matches Err(e) ==> token_start(old(self).tokens_view(), e.offset as nat),
            final(self).wf(),
            final(self).tokens@ == old(self).tokens@,
            r is Ok ==> old(self).cursor < final(self).cursor,
            r matches Ok(d) ==> literals_ok_fields(view_fields(d.computed@)),
            data_outcome(r, final(self).cursor) == data_decl(old(self).tokens_view(), old(self).cursor as int),
        decreases old(self).tokens.len() - old(self).cursor, 28nat,
    {
        let name = match self.take_data_identifier() {
            Ok(x) => x,
            Err(e) => return Err(e),
        };
        let params = match self.parse_params() {
            Ok(x) => x,
            Err(e) => return Err(e),
        };
        let mut computed: Vec<(String, Expr)> = Vec::new();
        assert(view_fields(computed@) =~= Seq::<(Seq<char>, ExprV)>::empty());
        if self.eat(&TokenKind::LBrace) {
            self.consume_separators();
            let ghost s0 = self.cursor as int;
            while !self.at(&TokenKind::RBrace)
                invariant
                self.wf(),
                self.tokens@ == old(self).tokens@,
                old(self).cursor < self.cursor,
                    literals_ok_fields(view_fields(computed@)),
                    s0 <= self.cursor,
                    data_fields(old(self).tokens_view(), s0, Seq::empty()) == data_fields(
                        old(self).tokens_view(),
                        self.cursor as int,
                        view_fields(computed@),
                    ),
                decreases self.tokens.len() - self.cursor,
            {
                if self.at(&TokenKind::Eof) {
                    return Err(self.error("unterminated data body"));
                }
                let field = match self.take_identifier() {
                    Ok(x) => x,
                    Err(e) => return Err(e),
                };
                if !(self.eat(&TokenKind::Assign) || self.eat(&TokenKind::FatArrow)) {
                    return Err(self.error("expected '=' or '=>' after computed field name"));
                }
                let value = match self.parse_expression() {
                    Ok(x) => x,
                    Err(e) => return Err(e),
                };
                proof {
                    lemma_view_fields_push(computed@, (field, value));
                    lemma_literals_ok_fields_push(view_fields(computed@), (field@, view_expr(value)));
                }
                computed.push((field, value));
                if !self.at(&TokenKind::RBrace) && !self.consume_separators() {
                    return Err(self.error("expected a newline or ';' between data fields"));
                }
            }
            if let Err(e) = self.expect(&TokenKind::RBrace, "expected '}' after data body") {
                return Err(e);
            }
        }
        Ok(DataDecl { name, params, computed })
    }

    #[verifier::loop_isolation(false)]
    #[verifier::spinoff_prover]
    #[verifier::rlimit(30)]
    fn parse_params(&mut self) -> (r: Result<Vec<Param>, ParseError>)
        requires
            old(self).wf(),
        ensures
            r matches Err(e) ==> token_start(old(self).tokens_view(), e.offset as nat),
            final(self).wf(),
            final(self).tokens@ == old(self).tokens@,
            r is Ok ==> old(self).cursor < final(self).cursor,
            params_outcome(r, final(self).cursor) == params(old(self).tokens_view(), old(self).cursor as int),
    {
        let ghost ts = self.tokens_view();
        let ghost p0 = self.cursor as int;
        if let Err(e) = self.expect(&TokenKind::LParen, "expected '('") {
            return Err(e);
        }
        self.consume_separators();
        let ghost q0 = self.cursor as int;
        let mut params: Vec<Param> = Vec::new();
        assert(view_params(params@) =~= Seq::<ParamV>::empty());
        if !self.at(&TokenKind::RParen) {
            loop
                invariant
                    self.wf(),
                    self.tokens@ == old(self).tokens@,
                    old(self).cursor < self.cursor,
                    q0 <= self.cursor,
                    param_list(ts, q0, Seq::empty()) == param_list(
                        ts,
                        self.cursor as int,
                        view_params(params@),
                    ),
                decreases self.tokens.len() - self.cursor,
            {
                let ghost c = self.cursor as int;
                let name = match self.take_identifier() {
                    Ok(x) => x,
                    Err(e) => return Err(e),
                };
                let type_annotation = if self.eat(&TokenKind::Colon) {
                    let t = match self.parse_type_name() {
                        Ok(x) => x,
                        Err(e) => return Err(e),
                    };
                    Some(t)
                } else {
                    None
                };
                let ghost acc = view_params(params@);
                let param = Param { name, type_annotation };
                proof {
                    assert(view_params(params@.push(param)) =~= acc.push(view_param(param)));
                }
                params.push(param);
                self.consume_separators();
                if !self.eat(&TokenKind::Comma) {
                    break;
                }
                self.consume_separators();
            }
        }
        if let Err(e) = self.expect(&TokenKind::RParen, "expected ')' after parameters") {
            return Err(e);
        }
        Ok(params)
    }

    fn parse_type_name(&mut self) -> (r: Result<String, ParseError>)
        requires
            old(self).wf(),
        ensures
            r matches Err(e) ==> token_start(old(self).tokens_view(), e.offset as nat),
            final(self).wf(),
            final(self).tokens@ == old(self).tokens@,
            r is Ok ==> old(self).cursor < final(self).cursor,
            string_outcome(r, final(self).cursor) == annotation(old(self).tokens_view(), old(self).cursor as int),
    {
        let name = match self.take_identifier() {
            Ok(x) => x,
            Err(e) => return Err(e),
        };
        let mut name = name;
        if self.eat(&TokenKind::Question) {
            crate::text::push_char(&mut name, '?');
        }
        Ok(name)
    }

    #[verifier::loop_isolation(false)]
    #[verifier::spinoff_prover]
    #[verifier::rlimit(30)]
    fn parse_block(&mut self) -> (r: Result<Block, ParseError>)
        requires
            old(self).wf(),
        ensures
            r matches Err(e) ==> token_start(old(self).tokens_view(), e.offset as nat),
            final(self).wf(),
            final(self).tokens@ == old(self).tokens@,
            r is Ok ==> old(self).cursor < final(self).cursor,
            r matches Ok(b) ==> literals_ok_block(view_block(b)),
            block_outcome(r, final(self).cursor) == block(old(self).tokens_view(), old(self).cursor as int),
        decreases old(self).tokens.len() - old(self).cursor, 5nat,
    {
        if let Err(e) = self.expect(&TokenKind::LBrace, "expected '{'") {
            return Err(e);
        }
        self.consume_separators();
        let ghost q0 = self.cursor as int;
        let mut statements: Vec<Stmt> = Vec::new();
        assert(view_stmts(statements@) =~= Seq::<StmtV>::empty());
        while !self.at(&TokenKind::RBrace)
            invariant
                self.wf(),
                self.tokens@ == old(self).tokens@,
                old(self).cursor < self.cursor,
                literals_ok_stmts(view_stmts(statements@)),
                q0 <= self.cursor,
                block_statements(old(self).tokens_view(), q0, Seq::empty()) == block_statements(
                    old(self).tokens_view(),
                    self.cursor as int,
                    view_stmts(statements@),
                ),
            decreases self.tokens.len() - self.cursor,
        {
            if self.at(&TokenKind::Eof) {
                return Err(self.error("unterminated block"));
            }
            let s = match self.parse_statement() {
                Ok(x) => x,
                Err(e) => return Err(e),
            };
            proof {
                lemma_view_stmts_push(statements@, s);
                lemma_literals_ok_stmts_push(view_stmts(statements@), view_stmt(s));
            }
            statements.push(s);
            if !self.at(&TokenKind::RBrace) && !self.consume_separators() {
                return Err(self.error("expected a newline or ';' between statements"));
            }
        }
        if let Err(e) = self.expect(&TokenKind::RBrace, "expected '}'") {
            return Err(e);
        }
        Ok(Block { statements })
    }

    #[verifier::loop_isolation(false)]
    #[verifier::spinoff_prover]
    #[verifier::rlimit(30)]
    fn parse_if(&mut self) -> (r: Result<Expr, ParseError>)
        requires
            old(self).wf(),
        ensures
            r matches Err(e) ==> token_start(old(self).tokens_view(), e.offset as nat),
            final(self).wf(),
            final(self).tokens@ == old(self).tokens@,
            r is Ok ==> old(self).cursor < final(self).cursor,
            r matches Ok(e) ==> literals_ok_expr(view_expr(e)),
            expr_outcome(r, final(self).cursor) == if_expr(old(self).tokens_view(), old(self).cursor as int),
        decreases old(self).tokens.len() - old(self).cursor, 9nat,
    {
        proof {
            reveal_with_fuel(literals_ok_stmt, 2);
            reveal_with_fuel(literals_ok_expr, 2);
        }
        if let Err(e) = self.expect(&TokenKind::If, "expected 'if'") {
            return Err(e);
        }
        let condition = match self.parse_expression() {
            Ok(x) => x,
            Err(e) => return Err(e),
        };
        let then_branch = match self.parse_block() {
            Ok(x) => x,
            Err(e) => return Err(e),
        };
        let before_newlines = self.cursor;
        while self.eat(&TokenKind::Newline)
            invariant
                self.wf(),
                self.tokens@ == old(self).tokens@,
                old(self).cursor < self.cursor,
                before_newlines <= self.cursor,
                skip_newlines(old(self).tokens_view(), before_newlines as int) == skip_newlines(
                    old(self).tokens_view(),
                    self.cursor as int,
                ),
            decreases self.tokens.len() - self.cursor,
        {
        }
        let else_branch = if self.eat(&TokenKind::Else) {
            if self.at(&TokenKind::If) {
                let x = match self.parse_if() {
                    Ok(x) => x,
                    Err(e) => return Err(e),
                };
                Some(ElseBranch::If(Box::new(x)))
            } else {
                let b = match self.parse_block() {
                    Ok(x) => x,
                    Err(e) => return Err(e),
                };
                Some(ElseBranch::Block(b))
            }
        } else {
            self.cursor = before_newlines;
            None
        };
        Ok(Expr::If { condition: Box::new(condition), then_branch, else_branch })
    }

    #[verifier::loop_isolation(false)]
    #[verifier::spinoff_prover]
    #[verifier::rlimit(30)]
    fn parse_when(&mut self) -> (r: Result<Expr, ParseError>)
        requires
            old(self).wf(),
        ensures
            r matches Err(e) ==> token_start(old(self).tokens_view(), e.offset as nat),
            final(self).wf(),
            final(self).tokens@ == old(self).tokens@,
            r is Ok ==> old(self).cursor < final(self).cursor,
            r matches Ok(e) ==> literals_ok_expr(view_expr(e)),
            expr_outcome(r, final(self).cursor) == when_expr(old(self).tokens_view(), old(self).cursor as int),
        decreases old(self).tokens.len() - old(self).cursor, 9nat,
    {
        proof {
            reveal_with_fuel(literals_ok_stmt, 2);
            reveal_with_fuel(literals_ok_expr, 2);
        }
        if let Err(e) = self.expect(&TokenKind::When, "expected 'when'") {
            return Err(e);
        }
        let subject = if self.at(&TokenKind::LBrace) {
            None
        } else {
            let s = match self.parse_expression() {
                Ok(x) => x,
                Err(e) => return Err(e),
            };
            Some(Box::new(s))
        };
        if let Err(e) = self.expect(&TokenKind::LBrace, "expected '{' after when subject") {
            return Err(e);
        }
        self.consume_separators();
        let ghost r0 = self.cursor as int;
        let mut cases: Vec<WhenCase> = Vec::new();
        assert(view_cases(cases@) =~= Seq::<WhenCaseV>::empty());
        while !self.at(&TokenKind::RBrace)
            invariant
                self.wf(),
                self.tokens@ == old(self).tokens@,
                old(self).cursor < self.cursor,
                literals_ok_cases(view_cases(cases@)),
                r0 <= self.cursor,
                when_cases(old(self).tokens_view(), r0, Seq::empty()) == when_cases(
                    old(self).tokens_view(),
                    self.cursor as int,
                    view_cases(cases@),
                ),
            decreases self.tokens.len() - self.cursor,
        {
            if self.at(&TokenKind::Eof) {
                return Err(self.error("unterminated when expression"));
            }
            let c = match self.parse_when_case() {
                Ok(x) => x,
                Err(e) => return Err(e),
            };
            proof {
                lemma_view_cases_push(cases@, c);
                lemma_literals_ok_cases_push(view_cases(cases@), view_case(c));
            }
            cases.push(c);
            if !self.at(&TokenKind::RBrace) && !self.consume_separators() {
                return Err(self.error("expected a newline or ';' between when cases"));
            }
        }
        if let Err(e) = self.expect(&TokenKind::RBrace, "expected '}' after when cases") {
            return Err(e);
        }
        Ok(Expr::When { binding: None, subject, cases })
    }

    #[verifier::loop_isolation(false)]
    #[verifier::spinoff_prover]
    #[verifier::rlimit(30)]
    fn parse_when_case(&mut self) -> (r: Result<WhenCase, ParseError>)
        requires
            old(self).wf(),
        ensures
            r matches Err(e) ==> token_start(old(self).tokens_view(), e.offset as nat),
            final(self).wf(),
            final(self).tokens@ == old(self).tokens@,
            r is Ok ==> old(self).cursor < final(self).cursor,
            r matches Ok(c) ==> literals_ok_case(view_case(c)),
            case_outcome(r, final(self).cursor) == when_case(old(self).tokens_view(), old(self).cursor as int),
        decreases old(self).tokens.len() - old(self).cursor, 27nat,
    {
        proof {
            reveal_with_fuel(literals_ok_stmt, 2);
            reveal_with_fuel(literals_ok_expr, 2);
        }
        if self.eat(&TokenKind::Else) {
            if let Err(e) = self.expect(&TokenKind::FatArrow, "expected '=>' after else") {
                return Err(e);
            }
            let body = match self.parse_when_body() {
                Ok(x) => x,
                Err(e) => return Err(e),
            };
            let patterns: Vec<Expr> = Vec::new();
            assert(view_exprs(patterns@) =~= Seq::<ExprV>::empty());
            return Ok(WhenCase { patterns, guard: None, body, is_else: true });
        }
        let first = match self.parse_expression() {
            Ok(x) => x,
            Err(e) => return Err(e),
        };
        let ghost q0 = self.cursor as int;
        let ghost first_view = view_expr(first);
        let mut patterns: Vec<Expr> = Vec::new();
        proof {
            lemma_view_exprs_push(patterns@, first);
            lemma_literals_ok_exprs_push(view_exprs(patterns@), view_expr(first));
        }
        patterns.push(first);
        assert(view_exprs(patterns@) =~= seq![first_view]);
        while self.eat(&TokenKind::Comma)
            invariant
                self.wf(),
                self.tokens@ == old(self).tokens@,
                old(self).cursor < self.cursor,
                literals_ok_exprs(view_exprs(patterns@)),
                q0 <= self.cursor,
                case_patterns(old(self).tokens_view(), q0, seq![first_view]) == case_patterns(
                    old(self).tokens_view(),
                    self.cursor as int,
                    view_exprs(patterns@),
                ),
            decreases self.tokens.len() - self.cursor,
        {
            self.consume_separators();
            let p = match self.parse_expression() {
                Ok(x) => x,
                Err(e) => return Err(e),
            };
            proof {
                lemma_view_exprs_push(patterns@, p);
                lemma_literals_ok_exprs_push(view_exprs(patterns@), view_expr(p));
            }
            patterns.push(p);
        }
        let guard = if self.eat(&TokenKind::If) {
            let g = match self.parse_expression() {
                Ok(x) => x,
                Err(e) => return Err(e),
            };
            Some(g)
        } else {
            None
        };
        if let Err(e) = self.expect(&TokenKind::FatArrow, "expected '=>' after when pattern") {
            return Err(e);
        }
        let body = match self.parse_when_body() {
            Ok(x) => x,
            Err(e) => return Err(e),
        };
        Ok(WhenCase { patterns, guard, body, is_else: false })
    }

    fn parse_when_body(&mut self) -> (r: Result<WhenBody, ParseError>)
        requires
            old(self).wf(),
        ensures
            r matches Err(e) ==> token_start(old(self).tokens_view(), e.offset as nat),
            final(self).wf(),
            final(self).tokens@ == old(self).tokens@,
            r is Ok ==> old(self).cursor < final(self).cursor,
            r matches Ok(b) ==> literals_ok_wbody(view_wbody(b)),
            wbody_outcome(r, final(self).cursor) == when_body(old(self).tokens_view(), old(self).cursor as int),
        decreases old(self).tokens.len() - old(self).cursor, 26nat,
    {
        if self.at(&TokenKind::LBrace) {
            let b = match self.parse_block() {
                Ok(x) => x,
                Err(e) => return Err(e),
            };
            Ok(WhenBody::Block(b))
        } else {
            let e = match self.parse_expression() {
                Ok(x) => x,
                Err(e) => return Err(e),
            };
            Ok(WhenBody::Expr(e))
        }
    }

    #[verifier::loop_isolation(false)]
    #[verifier::spinoff_prover]
    #[verifier::rlimit(30)]
    fn parse_command_call(&mut self) -> (r: Result<Expr, ParseError>)
        requires
            old(self).wf(),
        ensures
            r matches Err(e) ==> token_start(old(self).tokens_view(), e.offset as nat),
            final(self).wf(),
            final(self).tokens@ == old(self).tokens@,
            r is Ok ==> old(self).cursor < final(self).cursor,
            r matches Ok(e) ==> literals_ok_expr(view_expr(e)),
            expr_outcome(r, final(self).cursor) == command_call(old(self).tokens_view(), old(self).cursor as int),
        decreases old(self).tokens.len() - old(self).cursor, 28nat,
    {
        proof {
            reveal_with_fuel(literals_ok_stmt, 2);
            reveal_with_fuel(literals_ok_expr, 2);
            reveal_with_fuel(crate::ast::view_expr, 2);
        }
        let name = match self.take_identifier() {
            Ok(x) => x,
            Err(e) => return Err(e),
        };
        let first = match self.parse_expression() {
            Ok(x) => x,
            Err(e) => return Err(e),
        };
        let callee = Expr::Ident(name);
        let ghost r0 = self.cursor as int;
        let ghost first_view = view_expr(first);
        let mut args: Vec<Expr> = Vec::new();
        proof {
            lemma_view_exprs_push(args@, first);
            lemma_literals_ok_exprs_push(view_exprs(args@), view_expr(first));
        }
        args.push(first);
        assert(view_exprs(args@) =~= seq![first_view]);
        while self.eat(&TokenKind::Comma)
            invariant
                self.wf(),
                self.tokens@ == old(self).tokens@,
                old(self).cursor < self.cursor,
                literals_ok_exprs(view_exprs(args@)),
                r0 <= self.cursor,
                command_args(old(self).tokens_view(), r0, seq![first_view]) == command_args(
                    old(self).tokens_view(),
                    self.cursor as int,
                    view_exprs(args@),
                ),
            decreases self.tokens.len() - self.cursor,
        {
            let a = match self.parse_expression() {
                Ok(x) => x,
                Err(e) => return Err(e),
            };
            proof {
                lemma_view_exprs_push(args@, a);
                lemma_literals_ok_exprs_push(view_exprs(args@), view_expr(a));
            }
            args.push(a);
        }
        Ok(Expr::Call { callee: Box::new(callee), args })
    }

    fn parse_expression(&mut self) -> (r: Result<Expr, ParseError>)
        requires
            old(self).wf(),
        ensures
            r matches Err(e) ==> token_start(old(self).tokens_view(), e.offset as nat),
            final(self).wf(),
            final(self).tokens@ == old(self).tokens@,
            r is Ok ==> old(self).cursor < final(self).cursor,
            r matches Ok(e) ==> literals_ok_expr(view_expr(e)),
            expr_outcome(r, final(self).cursor) == expression(
                old(self).tokens_view(),
                old(self).cursor as int,
            ),
        decreases old(self).tokens.len() - old(self).cursor, 20nat,
    {
        self.parse_elvis()
    }

    #[verifier::loop_isolation(false)]
    fn parse_elvis(&mut self) -> (r: Result<Expr, ParseError>)
        requires
            old(self).wf(),
        ensures
            r matches Err(e) ==> token_start(old(self).tokens_view(), e.offset as nat),
            final(self).wf(),
            final(self).tokens@ == old(self).tokens@,
            r is Ok ==> old(self).cursor < final(self).cursor,
            r matches Ok(e) ==> literals_ok_expr(view_expr(e)),
            expr_outcome(r, final(self).cursor) == binary_level(
                old(self).tokens_view(),
                old(self).cursor as int,
                0,
            ),
        decreases old(self).tokens.len() - old(self).cursor, 19nat,
    {
        let first = match self.parse_or() {
            Ok(x) => x,
            Err(e) => return Err(e),
        };
        let mut expr = first;
        loop
            invariant
                self.wf(),
                self.tokens@ == old(self).tokens@,
                old(self).cursor < self.cursor,
                literals_ok_expr(view_expr(expr)),
                binary_level(old(self).tokens_view(), old(self).cursor as int, 0) == binary_tail(
                    old(self).tokens_view(),
                    self.cursor as int,
                    0,
                    view_expr(expr),
                ),
            decreases self.tokens.len() - self.cursor,
        {
            let next = if self.eat(&TokenKind::Elvis) {
                Some(BinaryOp::Elvis)
            } else {
                None
            };
            let op = match next {
                Some(op) => op,
                None => break,
            };
            let right = match self.parse_or() {
                Ok(x) => x,
                Err(e) => return Err(e),
            };
            expr = binary(expr, op, right);
        }
        Ok(expr)
    }

    #[verifier::loop_isolation(false)]
    fn parse_or(&mut self) -> (r: Result<Expr, ParseError>)
        requires
            old(self).wf(),
        ensures
            r matches Err(e) ==> token_start(old(self).tokens_view(), e.offset as nat),
            final(self).wf(),
            final(self).tokens@ == old(self).tokens@,
            r is Ok ==> old(self).cursor < final(self).cursor,
            r matches Ok(e) ==> literals_ok_expr(view_expr(e)),
            expr_outcome(r, final(self).cursor) == binary_level(
                old(self).tokens_view(),
                old(self).cursor as int,
                1,
            ),
        decreases old(self).tokens.len() - old(self).cursor, 18nat,
    {
        let first = match self.parse_and() {
            Ok(x) => x,
            Err(e) => return Err(e),
        };
        let mut expr = first;
        loop
            invariant
                self.wf(),
                self.tokens@ == old(self).tokens@,
                old(self).cursor < self.cursor,
                literals_ok_expr(view_expr(expr)),
                binary_level(old(self).tokens_view(), old(self).cursor as int, 1) == binary_tail(
                    old(self).tokens_view(),
                    self.cursor as int,
                    1,
                    view_expr(expr),
                ),
            decreases self.tokens.len() - self.cursor,
        {
            let next = if self.eat(&TokenKind::Or) {
                Some(BinaryOp::Or)
            } else {
                None
            };
            let op = match next {
                Some(op) => op,
                None => break,
            };
            let right = match self.parse_and() {
                Ok(x) => x,
                Err(e) => return Err(e),
            };
            expr = binary(expr, op, right);
        }
        Ok(expr)
    }

    #[verifier::loop_isolation(false)]
    fn parse_and(&mut self) -> (r: Result<Expr, ParseError>)
        requires
            old(self).wf(),
        ensures
            r matches Err(e) ==> token_start(old(self).tokens_view(), e.offset as nat),
            final(self).wf(),
            final(self).tokens@ == old(self).tokens@,
            r is Ok ==> old(self).cursor < final(self).cursor,
            r matches Ok(e) ==> literals_ok_expr(view_expr(e)),
            expr_outcome(r, final(self).cursor) == binary_level(
                old(self).tokens_view(),
                old(self).cursor as int,
                2,
            ),
        decreases old(self).tokens.len() - old(self).cursor, 17nat,
    {
        let first = match self.parse_equality() {
            Ok(x) => x,
            Err(e) => return Err(e),
        };
        let mut expr = first;
        loop
            invariant
                self.wf(),
                self.tokens@ == old(self).tokens@,
                old(self).cursor < self.cursor,
                literals_ok_expr(view_expr(expr)),
                binary_level(old(self).tokens_view(), old(self).cursor as int, 2) == binary_tail(
                    old(self).tokens_view(),
                    self.cursor as int,
                    2,
                    view_expr(expr),
                ),
            decreases self.tokens.len() - self.cursor,
        {
            let next = if self.eat(&TokenKind::And) {
                Some(BinaryOp::And)
            } else {
                None
            };
            let op = match next {
                Some(op) => op,
                None => break,
            };
            let right = match self.parse_equality() {
                Ok(x) => x,
                Err(e) => return Err(e),
            };
            expr = binary(expr, op, right);
        }
        Ok(expr)
    }

    #[verifier::loop_isolation(false)]
    fn parse_equality(&mut self) -> (r: Result<Expr, ParseError>)
        requires
            old(self).wf(),
        ensures
            r matches Err(e) ==> token_start(old(self).tokens_view(), e.offset as nat),
            final(self).wf(),
            final(self).tokens@ == old(self).tokens@,
            r is Ok ==> old(self).cursor < final(self).cursor,
            r matches Ok(e) ==> literals_ok_expr(view_expr(e)),
            expr_outcome(r, final(self).cursor) == binary_level(
                old(self).tokens_view(),
                old(self).cursor as int,
                3,
            ),
        decreases old(self).tokens.len() - old(self).cursor, 16nat,
    {
        let first = match self.parse_comparison() {
            Ok(x) => x,
            Err(e) => return Err(e),
        };
        let mut expr = first;
        loop
            invariant
                self.wf(),
                self.tokens@ == old(self).tokens@,
                old(self).cursor < self.cursor,
                literals_ok_expr(view_expr(expr)),
                binary_level(old(self).tokens_view(), old(self).cursor as int, 3) == binary_tail(
                    old(self).tokens_view(),
                    self.cursor as int,
                    3,
                    view_expr(expr),
                ),
            decreases self.tokens.len() - self.cursor,
        {
            let next = if self.eat(&TokenKind::Eq) {
                Some(BinaryOp::Equal)
            } else if self.eat(&TokenKind::Neq) {
                Some(BinaryOp::NotEqual)
            } else {
                None
            };
            let op = match next {
                Some(op) => op,
                None => break,
            };
            let right = match self.parse_comparison() {
                Ok(x) => x,
                Err(e) => return Err(e),
            };
            expr = binary(expr, op, right);
        }
        Ok(expr)
    }

    #[verifier::loop_isolation(false)]
    fn parse_comparison(&mut self) -> (r: Result<Expr, ParseError>)
        requires
            old(self).wf(),
        ensures
            r matches Err(e) ==> token_start(old(self).tokens_view(), e.offset as nat),
            final(self).wf(),
            final(self).tokens@ == old(self).tokens@,
            r is Ok ==> old(self).cursor < final(self).cursor,
            r matches Ok(e) ==> literals_ok_expr(view_expr(e)),
            expr_outcome(r, final(self).cursor) == binary_level(
                old(self).tokens_view(),
                old(self).cursor as int,
                4,
            ),
        decreases old(self).tokens.len() - old(self).cursor, 15nat,
    {
        let first = match self.parse_additive() {
            Ok(x) => x,
            Err(e) => return Err(e),
        };
        let mut expr = first;
        loop
            invariant
                self.wf(),
                self.tokens@ == old(self).tokens@,
                old(self).cursor < self.cursor,
                literals_ok_expr(view_expr(expr)),
                binary_level(old(self).tokens_view(), old(self).cursor as int, 4) == binary_tail(
                    old(self).tokens_view(),
                    self.cursor as int,
                    4,
                    view_expr(expr),
                ),
            decreases self.tokens.len() - self.cursor,
        {
            let next = if self.eat(&TokenKind::Lt) {
                Some(BinaryOp::Less)
            } else if self.eat(&TokenKind::Lte) {
                Some(BinaryOp::LessEqual)
            } else if self.eat(&TokenKind::Gt) {
                Some(BinaryOp::Greater)
            } else if self.eat(&TokenKind::Gte) {
                Some(BinaryOp::GreaterEqual)
            } else {
                None
            };
            let op = match next {
                Some(op) => op,
                None => break,
            };
            let right = match self.parse_additive() {
                Ok(x) => x,
                Err(e) => return Err(e),
            };
            expr = binary(expr, op, right);
        }
        Ok(expr)
    }

    #[verifier::loop_isolation(false)]
    fn parse_additive(&mut self) -> (r: Result<Expr, ParseError>)
        requires
            old(self).wf(),
        ensures
            r matches Err(e) ==> token_start(old(self).tokens_view(), e.offset as nat),
            final(self).wf(),
            final(self).tokens@ == old(self).tokens@,
            r is Ok ==> old(self).cursor < final(self).cursor,
            r matches Ok(e) ==> literals_ok_expr(view_expr(e)),
            expr_outcome(r, final(self).cursor) == binary_level(
                old(self).tokens_view(),
                old(self).cursor as int,
                5,
            ),
        decreases old(self).tokens.len() - old(self).cursor, 14nat,
    {
        let first = match self.parse_multiplicative() {
            Ok(x) => x,
            Err(e) => return Err(e),
        };
        let mut expr = first;
        loop
            invariant
                self.wf(),
                self.tokens@ == old(self).tokens@,
                old(self).cursor < self.cursor,
                literals_ok_expr(view_expr(expr)),
                binary_level(old(self).tokens_view(), old(self).cursor as int, 5) == binary_tail(
                    old(self).tokens_view(),
                    self.cursor as int,
                    5,
                    view_expr(expr),
                ),
            decreases self.tokens.len() - self.cursor,
        {
            let next = if self.eat(&TokenKind::Plus) {
                Some(BinaryOp::Add)
            } else if self.eat(&TokenKind::Minus) {
                Some(BinaryOp::Subtract)
            } else {
                None
            };
            let op = match next {
                Some(op) => op,
                None => break,
            };
            let right = match self.parse_multiplicative() {
                Ok(x) => x,
                Err(e) => return Err(e),
            };
            expr = binary(expr, op, right);
        }
        Ok(expr)
    }

    #[verifier::loop_isolation(false)]
    fn parse_multiplicative(&mut self) -> (r: Result<Expr, ParseError>)
        requires
            old(self).wf(),
        ensures
            r matches Err(e) ==> token_start(old(self).tokens_view(), e.offset as nat),
            final(self).wf(),
            final(self).tokens@ == old(self).tokens@,
            r is Ok ==> old(self).cursor < final(self).cursor,
            r matches Ok(e) ==> literals_ok_expr(view_expr(e)),
            expr_outcome(r, final(self).cursor) == binary_level(
                old(self).tokens_view(),
                old(self).cursor as int,
                6,
            ),
        decreases old(self).tokens.len() - old(self).cursor, 13nat,
    {
        let first = match self.parse_unary() {
            Ok(x) => x,
            Err(e) => return Err(e),
        };
        let mut expr = first;
        loop
            invariant
                self.wf(),
                self.tokens@ == old(self).tokens@,
                old(self).cursor < self.cursor,
                literals_ok_expr(view_expr(expr)),
                binary_level(old(self).tokens_view(), old(self).cursor as int, 6) == binary_tail(
                    old(self).tokens_view(),
                    self.cursor as int,
                    6,
                    view_expr(expr),
                ),
            decreases self.tokens.len() - self.cursor,
        {
            let next = if self.eat(&TokenKind::Star) {
                Some(BinaryOp::Multiply)
            } else if self.eat(&TokenKind::Slash) {
                Some(BinaryOp::Divide)
            } else if self.eat(&TokenKind::Percent) {
                Some(BinaryOp::Remainder)
            } else {
                None
            };
            let op = match next {
                Some(op) => op,
                None => break,
            };
            let right = match self.parse_unary() {
                Ok(x) => x,
                Err(e) => return Err(e),
            };
            expr = binary(expr, op, right);
        }
        Ok(expr)
    }

    fn parse_unary(&mut self) -> (r: Result<Expr, ParseError>)
        requires
            old(self).wf(),
        ensures
            r matches Err(e) ==> token_start(old(self).tokens_view(), e.offset as nat),
            final(self).wf(),
            final(self).tokens@ == old(self).tokens@,
            r is Ok ==> old(self).cursor < final(self).cursor,
            r matches Ok(e) ==> literals_ok_expr(view_expr(e)),
            expr_outcome(r, final(self).cursor) == unary(old(self).tokens_view(), old(self).cursor as int),
        decreases old(self).tokens.len() - old(self).cursor, 12nat,
    {
        proof {
            reveal_with_fuel(literals_ok_stmt, 2);
            reveal_with_fuel(literals_ok_expr, 2);
        }
        if self.eat(&TokenKind::Minus) {
            let e = match self.parse_unary() {
                Ok(x) => x,
                Err(e) => return Err(e),
            };
            return Ok(Expr::Unary { op: UnaryOp::Negate, expr: Box::new(e) });
        }
        if self.eat(&TokenKind::Bang) {
            let e = match self.parse_unary() {
                Ok(x) => x,
                Err(e) => return Err(e),
            };
            return Ok(Expr::Unary { op: UnaryOp::Not, expr: Box::new(e) });
        }
        self.parse_postfix()
    }

    #[verifier::loop_isolation(false)]
    #[verifier::spinoff_prover]
    #[verifier::rlimit(50)]
    fn parse_postfix(&mut self) -> (r: Result<Expr, ParseError>)
        requires
            old(self).wf(),
        ensures
            r matches Err(e) ==> token_start(old(self).tokens_view(), e.offset as nat),
            final(self).wf(),
            final(self).tokens@ == old(self).tokens@,
            r is Ok ==> old(self).cursor < final(self).cursor,
            r matches Ok(e) ==> literals_ok_expr(view_expr(e)),
            expr_outcome(r, final(self).cursor) == postfix(old(self).tokens_view(), old(self).cursor as int),
        decreases old(self).tokens.len() - old(self).cursor, 11nat,
    {
        proof {
            reveal_with_fuel(literals_ok_stmt, 2);
            reveal_with_fuel(literals_ok_expr, 2);
        }
        let first = match self.parse_primary() {
            Ok(x) => x,
            Err(e) => return Err(e),
        };
        let mut expr = first;
        loop
            invariant
                self.wf(),
                self.tokens@ == old(self).tokens@,
                old(self).cursor < self.cursor,
                literals_ok_expr(view_expr(expr)),
                postfix(old(self).tokens_view(), old(self).cursor as int) == postfix_tail(
                    old(self).tokens_view(),
                    self.cursor as int,
                    view_expr(expr),
                ),
            decreases self.tokens.len() - self.cursor,
        {
            if self.eat(&TokenKind::LParen) {
                self.consume_separators();
                let args = if self.at(&TokenKind::RParen) {
                    let v: Vec<Expr> = Vec::new();
                    assert(view_exprs(v@) =~= Seq::<ExprV>::empty());
                    v
                } else {
                    match self.parse_arguments() {
                        Ok(v) => v,
                        Err(e) => return Err(e),
                    }
                };
                if let Err(e) = self.expect(&TokenKind::RParen, "expected ')' after arguments") {
                    return Err(e);
                }
                expr = Expr::Call { callee: Box::new(expr), args };
            } else if self.eat(&TokenKind::Dot) {
                let name = match self.take_identifier() {
                    Ok(x) => x,
                    Err(e) => return Err(e),
                };
                expr = Expr::Member { object: Box::new(expr), name, safe: false };
            } else if self.eat(&TokenKind::SafeDot) {
                let name = match self.take_identifier() {
                    Ok(x) => x,
                    Err(e) => return Err(e),
                };
                expr = Expr::Member { object: Box::new(expr), name, safe: true };
            } else if self.eat(&TokenKind::LBracket) {
                let index = match self.parse_expression() {
                    Ok(x) => x,
                    Err(e) => return Err(e),
                };
                if let Err(e) = self.expect(&TokenKind::RBracket, "expected ']' after index") {
                    return Err(e);
                }
                expr = Expr::Index { object: Box::new(expr), index: Box::new(index) };
            } else {
                break;
            }
        }
        Ok(expr)
    }

    #[verifier::spinoff_prover]
    #[verifier::rlimit(30)]
    fn parse_primary(&mut self) -> (r: Result<Expr, ParseError>)
        requires
            old(self).wf(),
        ensures
            r matches Err(e) ==> token_start(old(self).tokens_view(), e.offset as nat),
            final(self).wf(),
            final(self).tokens@ == old(self).tokens@,
            r is Ok ==> old(self).cursor < final(self).cursor,
            r matches Ok(e) ==> literals_ok_expr(view_expr(e)),
            expr_outcome(r, final(self).cursor) == primary(old(self).tokens_view(), old(self).cursor as int),
        decreases old(self).tokens.len() - old(self).cursor, 10nat,
    {
        proof {
            reveal_with_fuel(literals_ok_stmt, 2);
            reveal_with_fuel(literals_ok_expr, 2);
        }
        proof {
            self.lemma_wf();
        }
        proof {
            assert(self.tokens_view()[self.cursor as int] == view_token(self.tokens@[self.cursor as int]));
        }
        let token = self.advance();
        match token.kind {
            TokenKind::Null => Ok(Expr::Null),
            TokenKind::True => Ok(Expr::Bool(true)),
            TokenKind::False => Ok(Expr::Bool(false)),
            TokenKind::Int(value) => Ok(Expr::Int(value)),
            TokenKind::Float(value) => Ok(Expr::Float(value)),
            TokenKind::String(value) => Ok(Expr::String(value)),
            TokenKind::Ident(name) => Ok(Expr::Ident(name)),
            TokenKind::DataIdent(name) => Ok(Expr::Ident(name)),
            TokenKind::LParen => {
                self.consume_separators();
                let expr = match self.parse_expression() {
                    Ok(x) => x,
                    Err(e) => return Err(e),
                };
                self.consume_separators();
                if let Err(e) = self.expect(&TokenKind::RParen, "expected ')' after expression") {
                    return Err(e);
                }
                Ok(expr)
            },
            TokenKind::LBracket => self.parse_list(),
            TokenKind::If => {
                self.cursor = self.cursor - 1;
                self.parse_if()
            },
            TokenKind::When => {
                self.cursor = self.cursor - 1;
                self.parse_when()
            },
            TokenKind::Object | TokenKind::Extend | TokenKind::Shape | TokenKind::Async
            | TokenKind::Await | TokenKind::Try | TokenKind::Throw => Err(
                ParseError {
                    message: string_from(&chars_of("keyword is reserved for a future language feature")),
                    offset: token.span.start,
                },
            ),
            _ => Err(
                ParseError {
                    message: string_from(&chars_of("expected expression")),
                    offset: token.span.start,
                },
            ),
        }
    }

    /// Expressions separated by commas, with separators allowed around each;
    /// it stops before the first token after the last one that is neither.
    #[verifier::loop_isolation(false)]
    fn parse_arguments(&mut self) -> (r: Result<Vec<Expr>, ParseError>)
        requires
            old(self).wf(),
        ensures
            r matches Err(e) ==> token_start(old(self).tokens_view(), e.offset as nat),
            final(self).wf(),
            final(self).tokens@ == old(self).tokens@,
            r is Ok ==> old(self).cursor < final(self).cursor,
            r matches Ok(v) ==> literals_ok_exprs(view_exprs(v@)),
            exprs_outcome(r, final(self).cursor) == arguments(
                old(self).tokens_view(),
                old(self).cursor as int,
                Seq::empty(),
            ),
        decreases old(self).tokens.len() - old(self).cursor, 22nat,
    {
        let mut items: Vec<Expr> = Vec::new();
        assert(view_exprs(items@) =~= Seq::<ExprV>::empty());
        loop
            invariant
                self.wf(),
                self.tokens@ == old(self).tokens@,
                old(self).cursor <= self.cursor,
                items.len() > 0 ==> old(self).cursor < self.cursor,
                literals_ok_exprs(view_exprs(items@)),
                arguments(old(self).tokens_view(), old(self).cursor as int, Seq::empty()) == arguments(
                    old(self).tokens_view(),
                    self.cursor as int,
                    view_exprs(items@),
                ),
            decreases self.tokens.len() - self.cursor,
        {
            let item = match self.parse_expression() {
                Ok(x) => x,
                Err(e) => return Err(e),
            };
            proof {
                lemma_view_exprs_push(items@, item);
                lemma_literals_ok_exprs_push(view_exprs(items@), view_expr(item));
            }
            items.push(item);
            self.consume_separators();
            if !self.eat(&TokenKind::Comma) {
                break;
            }
            self.consume_separators();
        }
        Ok(items)
    }

    #[verifier::loop_isolation(false)]
    fn parse_list(&mut self) -> (r: Result<Expr, ParseError>)
        requires
            old(self).wf(),
        ensures
            r matches Err(e) ==> token_start(old(self).tokens_view(), e.offset as nat),
            final(self).wf(),
            final(self).tokens@ == old(self).tokens@,
            r is Ok ==> old(self).cursor <= final(self).cursor,
            r matches Ok(e) ==> literals_ok_expr(view_expr(e)),
            expr_outcome(r, final(self).cursor) == list(old(self).tokens_view(), old(self).cursor as int),
        decreases old(self).tokens.len() - old(self).cursor, 25nat,
    {
        proof {
            reveal_with_fuel(literals_ok_stmt, 2);
            reveal_with_fuel(literals_ok_expr, 2);
        }
        let ghost start = self.cursor;
        self.consume_separators();
        let ghost q0 = self.cursor as int;
        let items = if self.at(&TokenKind::RBracket) {
            let v: Vec<Expr> = Vec::new();
            assert(view_exprs(v@) =~= Seq::<ExprV>::empty());
            v
        } else {
            match self.parse_arguments() {
                Ok(v) => v,
                Err(e) => return Err(e),
            }
        };
        if let Err(e) = self.expect(&TokenKind::RBracket, "expected ']' after list") {
            return Err(e);
        }
        Ok(Expr::List(items))
    }

    #[verifier::loop_isolation(false)]
    fn after_parameter_clause(&self) -> (r: Option<usize>)
        requires
            self.wf(),
        ensures
            r matches Some(i) ==> self.cursor + 1 < i < self.tokens.len(),
            match r {
                Some(i) => after_parameters(self.tokens_view(), self.cursor as int) == Some(i as int),
                None => after_parameters(self.tokens_view(), self.cursor as int) is None,
            },
    {
        let ghost ts = self.tokens_view();
        proof {
            self.lemma_wf();
        }
        if !(self.cursor + 1 < self.tokens.len() && matches!(
            self.tokens[self.cursor + 1].kind,
            TokenKind::LParen
        )) {
            return None;
        }
        let mut depth: usize = 0;
        let mut index = self.cursor + 1;
        while index < self.tokens.len()
            invariant
                self.wf(),
                self.cursor + 1 <= index <= self.tokens.len(),
                depth <= index - (self.cursor + 1),
                self.kind_at(self.tokens.len() - 1) is Eof,
                close_paren(ts, self.cursor + 1, 0) == close_paren(ts, index as int, depth as nat),
            decreases self.tokens.len() - index,
        {
            match self.tokens[index].kind {
                TokenKind::LParen => {
                    depth = depth + 1;
                },
                TokenKind::RParen => {
                    if depth == 0 {
                        return None;
                    }
                    depth = depth - 1;
                    if depth == 0 {
                        return Some(index + 1);
                    }
                },
                _ => {},
            }
            index = index + 1;
        }
        None
    }

    fn looks_like_function_decl(&self) -> (r: bool)
        requires
            self.wf(),
        ensures
            r == looks_like_function(self.tokens_view(), self.cursor as int),
    {
        if !matches!(self.current().kind, TokenKind::Ident(_)) {
            return false;
        }
        match self.after_parameter_clause() {
            Some(index) => matches!(self.tokens[index].kind, TokenKind::FatArrow | TokenKind::LBrace),
            None => false,
        }
    }

    #[verifier::loop_isolation(false)]
    fn looks_like_data_decl(&self) -> (r: bool)
        requires
            self.wf(),
        ensures
            r == looks_like_data(self.tokens_view(), self.cursor as int),
    {
        let ghost ts = self.tokens_view();
        if !matches!(self.current().kind, TokenKind::DataIdent(_)) {
            return false;
        }
        let after = match self.after_parameter_clause() {
            Some(a) => a,
            None => return false,
        };
        if matches!(self.tokens[after].kind, TokenKind::LBrace) {
            return true;
        }
        let mut depth: usize = 0;
        let mut saw_type = false;
        let mut i = self.cursor + 1;
        while i < after
            invariant
                self.wf(),
                self.cursor + 1 <= i <= after,
                after < self.tokens.len(),
                depth <= i - (self.cursor + 1),
                typed_parameter(ts, self.cursor + 1, after as int, 0) == (saw_type || typed_parameter(
                    ts,
                    i as int,
                    after as int,
                    depth as nat,
                )),
            decreases after - i,
        {
            match self.tokens[i].kind {
                TokenKind::LParen => {
                    depth = depth + 1;
                },
                TokenKind::RParen => {
                    depth = if depth > 0 {
                        depth - 1
                    } else {
                        0
                    };
                },
                TokenKind::Colon => {
                    if depth == 1 {
                        saw_type = true;
                    }
                },
                _ => {},
            }
            i = i + 1;
        }
        saw_type && (self.tokens[after].kind.is_separator() || matches!(
            self.tokens[after].kind,
            TokenKind::Eof | TokenKind::RBrace
        ))
    }

    fn looks_like_command_call(&self) -> (r: bool)
        requires
            self.wf(),
        ensures
            r == looks_like_command(self.tokens_view(), self.cursor as int),
    {
        if !self.current().kind.is_identifier() {
            return false;
        }
        if self.cursor + 1 >= self.tokens.len() {
            return false;
        }
        let next = &self.tokens[self.cursor + 1];
        self.current().span.end < next.span.start && can_start_command_argument(&next.kind)
    }
}

/// Lexes and parses `source`; the same as `check`.
pub fn parse(source: &str) -> (r: Result<Program, crate::Error>)
    ensures
        lex_spec(source@) matches Err(x) ==> (r matches Err(crate::Error::Lex(e))
            && crate::lexer::view_lex_error(e) == x),
        crate::checked(source@) matches Some(c) ==> match r {
            Ok(p) => c == Ok::<Seq<StmtV>, Failure>(view_program(p).statements),
            Err(crate::Error::Parse(e)) => c == Err::<Seq<StmtV>, Failure>(failure(e)),
            Err(_) => false,
        },
        r matches Ok(p) ==> literals_ok_program(view_program(p)),
{
    crate::check(source)
}

fn same_variant(left: &TokenKind, right: &TokenKind) -> (r: bool)
    ensures
        r == (variant_of(view_kind(*left)) == variant_of(view_kind(*right))),
{
    variant_index(left) == variant_index(right)
}

fn binary(left: Expr, op: BinaryOp, right: Expr) -> (e: Expr)
    ensures
        e == (Expr::Binary { left: Box::new(left), op, right: Box::new(right) }),
{
    Expr::Binary { left: Box::new(left), op, right: Box::new(right) }
}

fn can_start_command_argument(kind: &TokenKind) -> (r: bool)
    ensures
        r == starts_argument(view_kind(*kind)),
{
    matches!(
        kind,
        TokenKind::Int(_) | TokenKind::Float(_) | TokenKind::String(_) | TokenKind::True
            | TokenKind::False | TokenKind::Null | TokenKind::Ident(_) | TokenKind::DataIdent(_)
            | TokenKind::LBracket | TokenKind::Minus | TokenKind::Bang | TokenKind::If
            | TokenKind::When
    )
}

} // verus!
