//! The stage-0 grammar as functions on token sequences.
//!
//! Each function reads the tokens from a position and gives either the tree
//! it recognises together with the position after it, or the failure the
//! parser reports: a message and the byte offset of the token it stopped at.
//! The parser's methods are proved to compute exactly these functions.
//!
//! Positions only move forward; the checks `forward(ts, p, q)` say so where
//! a later step starts at a position an earlier step returned, which is what
//! makes every recursion here end.  On the parser's own inputs they always
//! hold.
use vstd::prelude::*;
use crate::ast::{
    BinaryOp, BlockV, ElseBranchV, ExprV, FunctionBodyV, ParamV, StmtV, UnaryOp, WhenBodyV,
    WhenCaseV,
};
use crate::lexer::{TokenKindV, TokenV};

verus! {

/// A failure: the message and the byte offset at which it is reported.
pub type Failure = (Seq<char>, nat);

/// What parsing from a position gives: a value and the next position, or a
/// failure.
pub type Parsed<T> = Result<(T, int), Failure>;

pub open spec fn kind_at(ts: Seq<TokenV>, p: int) -> TokenKindV {
    ts[p].kind
}

pub open spec fn fail_at(ts: Seq<TokenV>, p: int, message: Seq<char>) -> Failure {
    (message, ts[p].span.start as nat)
}

/// The failure given for a position outside the tokens, which the parser
/// never reaches.
pub open spec fn stuck() -> Failure {
    (Seq::empty(), 0)
}

/// Whether `offset` is where one of the tokens starts.
pub open spec fn token_start(ts: Seq<TokenV>, offset: nat) -> bool {
    exists|q: int| 0 <= q < ts.len() && ts[q].span.start == offset
}

pub open spec fn inside(ts: Seq<TokenV>, p: int) -> bool {
    0 <= p < ts.len()
}

pub open spec fn forward(ts: Seq<TokenV>, p: int, q: int) -> bool {
    p < q < ts.len()
}

pub open spec fn separator(k: TokenKindV) -> bool {
    k is Newline || k is Semi
}

/// The first position at or after `p` that holds no separator.
pub open spec fn skip_separators(ts: Seq<TokenV>, p: int) -> int
    decreases ts.len() - p,
{
    if 0 <= p < ts.len() && separator(kind_at(ts, p)) {
        skip_separators(ts, p + 1)
    } else {
        p
    }
}

/// The first position at or after `p` that holds no line break.
pub open spec fn skip_newlines(ts: Seq<TokenV>, p: int) -> int
    decreases ts.len() - p,
{
    if 0 <= p < ts.len() && kind_at(ts, p) is Newline {
        skip_newlines(ts, p + 1)
    } else {
        p
    }
}

// ---------------------------------------------------------------------------
// Names, types and parameters.
// ---------------------------------------------------------------------------
/// Where a missing name is reported: at the token found, or, at the end of
/// input, at the token before it.
pub open spec fn name_failure_at(ts: Seq<TokenV>, p: int) -> int {
    if kind_at(ts, p) is Eof {
        if p > 0 {
            p - 1
        } else {
            0
        }
    } else {
        p
    }
}

pub open spec fn take_name(ts: Seq<TokenV>, p: int) -> Parsed<Seq<char>> {
    match kind_at(ts, p) {
        TokenKindV::Ident(n) => Ok((n, p + 1)),
        TokenKindV::DataIdent(n) => Ok((n, p + 1)),
        _ => Err(fail_at(ts, name_failure_at(ts, p), "expected identifier"@)),
    }
}

pub open spec fn take_function_name(ts: Seq<TokenV>, p: int) -> Parsed<Seq<char>> {
    match kind_at(ts, p) {
        TokenKindV::Ident(n) => Ok((n, p + 1)),
        _ => Err(
            fail_at(
                ts,
                name_failure_at(ts, p),
                "function names must begin with a lowercase letter or '_'"@,
            ),
        ),
    }
}

pub open spec fn take_data_name(ts: Seq<TokenV>, p: int) -> Parsed<Seq<char>> {
    match kind_at(ts, p) {
        TokenKindV::DataIdent(n) => Ok((n, p + 1)),
        _ => Err(
            fail_at(
                ts,
                name_failure_at(ts, p),
                "data type names must begin with an uppercase letter"@,
            ),
        ),
    }
}

/// A type name, with `?` appended when one follows it.
pub open spec fn annotation(ts: Seq<TokenV>, p: int) -> Parsed<Seq<char>> {
    match take_name(ts, p) {
        Err(e) => Err(e),
        Ok((n, q)) => if kind_at(ts, q) is Question {
            Ok((n.push('?'), q + 1))
        } else {
            Ok((n, q))
        },
    }
}

pub open spec fn param(ts: Seq<TokenV>, p: int) -> Parsed<ParamV> {
    match take_name(ts, p) {
        Err(e) => Err(e),
        Ok((name, q)) => if kind_at(ts, q) is Colon {
            match annotation(ts, q + 1) {
                Err(e) => Err(e),
                Ok((t, r)) => Ok((ParamV { name, type_annotation: Some(t) }, r)),
            }
        } else {
            Ok((ParamV { name, type_annotation: None }, q))
        },
    }
}

/// Parameters separated by commas, after those in `acc`; it stops before the
/// first token after the last parameter that is not a separator.
pub open spec fn param_list(ts: Seq<TokenV>, p: int, acc: Seq<ParamV>) -> Parsed<Seq<ParamV>>
    decreases ts.len() - p,
{
    if !inside(ts, p) {
        Err(stuck())
    } else {
        match param(ts, p) {
            Err(e) => Err(e),
            Ok((x, q)) => {
                let r = skip_separators(ts, q);
                if kind_at(ts, r) is Comma {
                    let s = skip_separators(ts, r + 1);
                    if forward(ts, p, s) {
                        param_list(ts, s, acc.push(x))
                    } else {
                        Err(stuck())
                    }
                } else {
                    Ok((acc.push(x), r))
                }
            },
        }
    }
}

/// `( name[: Type], ... )`
pub open spec fn params(ts: Seq<TokenV>, p: int) -> Parsed<Seq<ParamV>> {
    if !(kind_at(ts, p) is LParen) {
        Err(fail_at(ts, p, "expected '('"@))
    } else {
        let q = skip_separators(ts, p + 1);
        let list = if kind_at(ts, q) is RParen {
            Ok((Seq::<ParamV>::empty(), q))
        } else {
            param_list(ts, q, Seq::empty())
        };
        match list {
            Err(e) => Err(e),
            Ok((ps, r)) => if kind_at(ts, r) is RParen {
                Ok((ps, r + 1))
            } else {
                Err(fail_at(ts, r, "expected ')' after parameters"@))
            },
        }
    }
}

/// `name(.name)*`, after the names in `acc`.
pub open spec fn use_path(ts: Seq<TokenV>, p: int, acc: Seq<Seq<char>>) -> Parsed<Seq<Seq<char>>>
    decreases ts.len() - p,
{
    if !inside(ts, p) {
        Err(stuck())
    } else if kind_at(ts, p) is Dot {
        match take_name(ts, p + 1) {
            Err(e) => Err(e),
            Ok((n, q)) => if forward(ts, p, q) {
                use_path(ts, q, acc.push(n))
            } else {
                Err(stuck())
            },
        }
    } else {
        Ok((acc, p))
    }
}

pub open spec fn use_stmt(ts: Seq<TokenV>, p: int) -> Parsed<StmtV> {
    match take_name(ts, p) {
        Err(e) => Err(e),
        Ok((first, q)) => match use_path(ts, q, seq![first]) {
            Err(e) => Err(e),
            Ok((path, r)) => Ok((StmtV::Use { path }, r)),
        },
    }
}

// ---------------------------------------------------------------------------
// Lookahead.
// ---------------------------------------------------------------------------
/// From `i`, at parenthesis depth `depth`: the position after the parenthesis
/// that closes depth one, if any.
pub open spec fn close_paren(ts: Seq<TokenV>, i: int, depth: nat) -> Option<int>
    decreases ts.len() - i,
{
    if !(0 <= i < ts.len()) {
        None
    } else {
        match kind_at(ts, i) {
            TokenKindV::LParen => close_paren(ts, i + 1, depth + 1),
            TokenKindV::RParen => if depth == 0 {
                None
            } else if depth == 1 {
                Some(i + 1)
            } else {
                close_paren(ts, i + 1, (depth - 1) as nat)
            },
            _ => close_paren(ts, i + 1, depth),
        }
    }
}

/// When a parenthesised clause follows position `p`, the position after it.
pub open spec fn after_parameters(ts: Seq<TokenV>, p: int) -> Option<int> {
    if p + 1 < ts.len() && kind_at(ts, p + 1) is LParen {
        close_paren(ts, p + 1, 0)
    } else {
        None
    }
}

pub open spec fn looks_like_function(ts: Seq<TokenV>, p: int) -> bool {
    kind_at(ts, p) is Ident && match after_parameters(ts, p) {
        Some(i) => kind_at(ts, i) is FatArrow || kind_at(ts, i) is LBrace,
        None => false,
    }
}

/// Whether a `:` stands at parenthesis depth one in positions `i..end`,
/// counting depth from `depth` and never below zero.
pub open spec fn typed_parameter(ts: Seq<TokenV>, i: int, end: int, depth: nat) -> bool
    decreases end - i,
{
    if i >= end {
        false
    } else {
        match kind_at(ts, i) {
            TokenKindV::LParen => typed_parameter(ts, i + 1, end, depth + 1),
            TokenKindV::RParen => typed_parameter(
                ts,
                i + 1,
                end,
                if depth > 0 {
                    (depth - 1) as nat
                } else {
                    0
                },
            ),
            TokenKindV::Colon => depth == 1 || typed_parameter(ts, i + 1, end, depth),
            _ => typed_parameter(ts, i + 1, end, depth),
        }
    }
}

pub open spec fn looks_like_data(ts: Seq<TokenV>, p: int) -> bool {
    kind_at(ts, p) is DataIdent && match after_parameters(ts, p) {
        Some(a) => kind_at(ts, a) is LBrace || (typed_parameter(ts, p + 1, a, 0) && (separator(
            kind_at(ts, a),
        ) || kind_at(ts, a) is Eof || kind_at(ts, a) is RBrace)),
        None => false,
    }
}

pub open spec fn starts_argument(k: TokenKindV) -> bool {
    k is Int || k is Float || k is Str || k is True || k is False || k is Null || k is Ident
        || k is DataIdent || k is LBracket || k is Minus || k is Bang || k is If || k is When
}

/// A name followed, after a gap, by the start of an argument.
pub open spec fn looks_like_command(ts: Seq<TokenV>, p: int) -> bool {
    (kind_at(ts, p) is Ident || kind_at(ts, p) is DataIdent) && p + 1 < ts.len()
        && ts[p].span.end < ts[p + 1].span.start && starts_argument(kind_at(ts, p + 1))
}

// ---------------------------------------------------------------------------
// Operators.
// ---------------------------------------------------------------------------
pub open spec fn binary(left: ExprV, op: BinaryOp, right: ExprV) -> ExprV {
    ExprV::Binary { left: Box::new(left), op, right: Box::new(right) }
}

/// The operator of a precedence level (0: `?:`, 1: `||`, 2: `&&`, 3:
/// equality, 4: comparison, 5: additive, 6: multiplicative) that a token
/// stands for.
pub open spec fn level_op(level: nat, k: TokenKindV) -> Option<BinaryOp> {
    if level == 0 {
        if k is Elvis {
            Some(BinaryOp::Elvis)
        } else {
            None
        }
    } else if level == 1 {
        if k is Or {
            Some(BinaryOp::Or)
        } else {
            None
        }
    } else if level == 2 {
        if k is And {
            Some(BinaryOp::And)
        } else {
            None
        }
    } else if level == 3 {
        if k is Eq {
            Some(BinaryOp::Equal)
        } else if k is Neq {
            Some(BinaryOp::NotEqual)
        } else {
            None
        }
    } else if level == 4 {
        if k is Lt {
            Some(BinaryOp::Less)
        } else if k is Lte {
            Some(BinaryOp::LessEqual)
        } else if k is Gt {
            Some(BinaryOp::Greater)
        } else if k is Gte {
            Some(BinaryOp::GreaterEqual)
        } else {
            None
        }
    } else if level == 5 {
        if k is Plus {
            Some(BinaryOp::Add)
        } else if k is Minus {
            Some(BinaryOp::Subtract)
        } else {
            None
        }
    } else {
        if k is Star {
            Some(BinaryOp::Multiply)
        } else if k is Slash {
            Some(BinaryOp::Divide)
        } else if k is Percent {
            Some(BinaryOp::Remainder)
        } else {
            None
        }
    }
}

pub open spec fn pub_target(s: StmtV) -> bool {
    s is Function || s is Var || s is Assign || s is Data
}

pub open spec fn reserved(k: TokenKindV) -> bool {
    k is Object || k is Extend || k is Shape || k is Async || k is Await || k is Try || k is Throw
}

// ---------------------------------------------------------------------------
// Statements and expressions.  The second component of each `decreases` is a
// rank: a function calls another at its own position only if that one has a
// lower rank.
// ---------------------------------------------------------------------------
pub open spec fn statement(ts: Seq<TokenV>, p: int) -> Parsed<StmtV>
    decreases ts.len() - p, 40nat,
{
    if !inside(ts, p) {
        Err(stuck())
    } else if kind_at(ts, p) is Pub {
        if kind_at(ts, p + 1) is Pub {
            Err(fail_at(ts, p + 1, "duplicate 'pub' modifier"@))
        } else {
            match statement(ts, p + 1) {
                Err(e) => Err(e),
                Ok((s, q)) => if pub_target(s) {
                    Ok((StmtV::Pub(Box::new(s)), q))
                } else {
                    Err(fail_at(ts, q, "'pub' is only valid on declarations"@))
                },
            }
        }
    } else if kind_at(ts, p) is Use {
        use_stmt(ts, p + 1)
    } else if kind_at(ts, p) is Var {
        var_stmt(ts, p + 1)
    } else if kind_at(ts, p) is Return {
        return_stmt(ts, p + 1)
    } else if kind_at(ts, p) is For {
        for_stmt(ts, p + 1)
    } else if kind_at(ts, p) is If {
        match if_expr(ts, p) {
            Err(e) => Err(e),
            Ok((e, q)) => Ok((StmtV::Expr(e), q)),
        }
    } else if kind_at(ts, p) is When {
        match when_expr(ts, p) {
            Err(e) => Err(e),
            Ok((e, q)) => Ok((StmtV::Expr(e), q)),
        }
    } else if looks_like_data(ts, p) {
        data_decl(ts, p)
    } else if looks_like_function(ts, p) {
        function_decl(ts, p)
    } else if looks_like_command(ts, p) {
        match command_call(ts, p) {
            Err(e) => Err(e),
            Ok((e, q)) => Ok((StmtV::Expr(e), q)),
        }
    } else {
        match expression(ts, p) {
            Err(e) => Err(e),
            Ok((target, q)) => if kind_at(ts, q) is Assign {
                if forward(ts, p, q) {
                    match expression(ts, q + 1) {
                        Err(e) => Err(e),
                        Ok((value, r)) => Ok((StmtV::Assign { target, value }, r)),
                    }
                } else {
                    Err(stuck())
                }
            } else {
                Ok((StmtV::Expr(target), q))
            },
        }
    }
}

pub open spec fn var_stmt(ts: Seq<TokenV>, p: int) -> Parsed<StmtV>
    decreases ts.len() - p, 13nat,
{
    if !inside(ts, p) {
        Err(stuck())
    } else {
        match take_name(ts, p) {
            Err(e) => Err(e),
            Ok((name, q)) => {
                let annotation = if kind_at(ts, q) is Colon {
                    match annotation(ts, q + 1) {
                        Err(e) => Err(e),
                        Ok((t, r)) => Ok((Some(t), r)),
                    }
                } else {
                    Ok((None::<Seq<char>>, q))
                };
                match annotation {
                    Err(e) => Err(e),
                    Ok((type_annotation, r)) => if !(kind_at(ts, r) is Assign) {
                        Err(fail_at(ts, r, "expected '=' in variable declaration"@))
                    } else if forward(ts, p, r) {
                        match expression(ts, r + 1) {
                            Err(e) => Err(e),
                            Ok((value, s)) => Ok((StmtV::Var { name, type_annotation, value }, s)),
                        }
                    } else {
                        Err(stuck())
                    },
                }
            },
        }
    }
}

pub open spec fn return_stmt(ts: Seq<TokenV>, p: int) -> Parsed<StmtV>
    decreases ts.len() - p, 13nat,
{
    if !inside(ts, p) {
        Err(stuck())
    } else if separator(kind_at(ts, p)) || kind_at(ts, p) is RBrace || kind_at(ts, p) is Eof {
        Ok((StmtV::Return(None), p))
    } else {
        match expression(ts, p) {
            Err(e) => Err(e),
            Ok((e, q)) => Ok((StmtV::Return(Some(e)), q)),
        }
    }
}

pub open spec fn for_stmt(ts: Seq<TokenV>, p: int) -> Parsed<StmtV>
    decreases ts.len() - p, 13nat,
{
    if !inside(ts, p) {
        Err(stuck())
    } else {
        match take_name(ts, p) {
            Err(e) => Err(e),
            Ok((name, q)) => if !(kind_at(ts, q) is In) {
                Err(fail_at(ts, q, "expected 'in' after loop variable"@))
            } else if forward(ts, p, q) {
                match expression(ts, q + 1) {
                    Err(e) => Err(e),
                    Ok((iterable, r)) => if forward(ts, p, r) {
                        match block(ts, r) {
                            Err(e) => Err(e),
                            Ok((body, s)) => Ok((StmtV::For { name, iterable, body }, s)),
                        }
                    } else {
                        Err(stuck())
                    },
                }
            } else {
                Err(stuck())
            },
        }
    }
}

pub open spec fn function_decl(ts: Seq<TokenV>, p: int) -> Parsed<StmtV>
    decreases ts.len() - p, 13nat,
{
    if !inside(ts, p) {
        Err(stuck())
    } else {
        match take_function_name(ts, p) {
            Err(e) => Err(e),
            Ok((name, q)) => match params(ts, q) {
                Err(e) => Err(e),
                Ok((params, r)) => if !forward(ts, p, r) {
                    Err(stuck())
                } else if kind_at(ts, r) is FatArrow {
                    match expression(ts, r + 1) {
                        Err(e) => Err(e),
                        Ok((e, s)) => Ok(
                            (StmtV::Function { name, params, body: FunctionBodyV::Expr(e) }, s),
                        ),
                    }
                } else {
                    match block(ts, r) {
                        Err(e) => Err(e),
                        Ok((b, s)) => Ok(
                            (StmtV::Function { name, params, body: FunctionBodyV::Block(b) }, s),
                        ),
                    }
                },
            },
        }
    }
}

/// Computed fields `name = expr` or `name => expr` up to the closing `}`,
/// after those in `acc`.
pub open spec fn data_fields(ts: Seq<TokenV>, p: int, acc: Seq<(Seq<char>, ExprV)>) -> Parsed<
    Seq<(Seq<char>, ExprV)>,
>
    decreases ts.len() - p, 13nat,
{
    if !inside(ts, p) {
        Err(stuck())
    } else if kind_at(ts, p) is RBrace {
        Ok((acc, p + 1))
    } else if kind_at(ts, p) is Eof {
        Err(fail_at(ts, p, "unterminated data body"@))
    } else {
        match take_name(ts, p) {
            Err(e) => Err(e),
            Ok((field, q)) => if !(kind_at(ts, q) is Assign || kind_at(ts, q) is FatArrow) {
                Err(fail_at(ts, q, "expected '=' or '=>' after computed field name"@))
            } else if forward(ts, p, q) {
                match expression(ts, q + 1) {
                    Err(e) => Err(e),
                    Ok((value, r)) => if !forward(ts, p, r) {
                        Err(stuck())
                    } else if kind_at(ts, r) is RBrace {
                        data_fields(ts, r, acc.push((field, value)))
                    } else {
                        let s = skip_separators(ts, r);
                        if s == r {
                            Err(fail_at(ts, r, "expected a newline or ';' between data fields"@))
                        } else if forward(ts, p, s) {
                            data_fields(ts, s, acc.push((field, value)))
                        } else {
                            Err(stuck())
                        }
                    },
                }
            } else {
                Err(stuck())
            },
        }
    }
}

pub open spec fn data_decl(ts: Seq<TokenV>, p: int) -> Parsed<StmtV>
    decreases ts.len() - p, 13nat,
{
    if !inside(ts, p) {
        Err(stuck())
    } else {
        match take_data_name(ts, p) {
            Err(e) => Err(e),
            Ok((name, q)) => match params(ts, q) {
                Err(e) => Err(e),
                Ok((params, r)) => if kind_at(ts, r) is LBrace {
                    let s = skip_separators(ts, r + 1);
                    if forward(ts, p, s) {
                        match data_fields(ts, s, Seq::empty()) {
                            Err(e) => Err(e),
                            Ok((computed, t)) => Ok((StmtV::Data { name, params, computed }, t)),
                        }
                    } else {
                        Err(stuck())
                    }
                } else {
                    Ok((StmtV::Data { name, params, computed: Seq::empty() }, r))
                },
            },
        }
    }
}

/// Statements up to the closing `}`, after those in `acc`.
pub open spec fn block_statements(ts: Seq<TokenV>, p: int, acc: Seq<StmtV>) -> Parsed<Seq<StmtV>>
    decreases ts.len() - p, 41nat,
{
    if !inside(ts, p) {
        Err(stuck())
    } else if kind_at(ts, p) is RBrace {
        Ok((acc, p + 1))
    } else if kind_at(ts, p) is Eof {
        Err(fail_at(ts, p, "unterminated block"@))
    } else {
        match statement(ts, p) {
            Err(e) => Err(e),
            Ok((s, q)) => if !forward(ts, p, q) {
                Err(stuck())
            } else if kind_at(ts, q) is RBrace {
                block_statements(ts, q, acc.push(s))
            } else {
                let r = skip_separators(ts, q);
                if r == q {
                    Err(fail_at(ts, q, "expected a newline or ';' between statements"@))
                } else if forward(ts, p, r) {
                    block_statements(ts, r, acc.push(s))
                } else {
                    Err(stuck())
                }
            },
        }
    }
}

pub open spec fn block(ts: Seq<TokenV>, p: int) -> Parsed<BlockV>
    decreases ts.len() - p, 0nat,
{
    if !inside(ts, p) {
        Err(stuck())
    } else if !(kind_at(ts, p) is LBrace) {
        Err(fail_at(ts, p, "expected '{'"@))
    } else {
        let q = skip_separators(ts, p + 1);
        if forward(ts, p, q) {
            match block_statements(ts, q, Seq::empty()) {
                Err(e) => Err(e),
                Ok((statements, r)) => Ok((BlockV { statements }, r)),
            }
        } else {
            Err(stuck())
        }
    }
}

pub open spec fn if_expr(ts: Seq<TokenV>, p: int) -> Parsed<ExprV>
    decreases ts.len() - p, 1nat,
{
    if !inside(ts, p) {
        Err(stuck())
    } else if !(kind_at(ts, p) is If) {
        Err(fail_at(ts, p, "expected 'if'"@))
    } else {
        match expression(ts, p + 1) {
            Err(e) => Err(e),
            Ok((condition, q)) => if !forward(ts, p, q) {
                Err(stuck())
            } else {
                match block(ts, q) {
                    Err(e) => Err(e),
                    Ok((then_branch, r)) => {
                        let s = skip_newlines(ts, r);
                        if !(kind_at(ts, s) is Else) {
                            Ok(
                                (
                                    ExprV::If {
                                        condition: Box::new(condition),
                                        then_branch,
                                        else_branch: None,
                                    },
                                    r,
                                ),
                            )
                        } else if !forward(ts, p, s) {
                            Err(stuck())
                        } else if kind_at(ts, s + 1) is If {
                            match if_expr(ts, s + 1) {
                                Err(e) => Err(e),
                                Ok((x, t)) => Ok(
                                    (
                                        ExprV::If {
                                            condition: Box::new(condition),
                                            then_branch,
                                            else_branch: Some(ElseBranchV::If(Box::new(x))),
                                        },
                                        t,
                                    ),
                                ),
                            }
                        } else {
                            match block(ts, s + 1) {
                                Err(e) => Err(e),
                                Ok((b, t)) => Ok(
                                    (
                                        ExprV::If {
                                            condition: Box::new(condition),
                                            then_branch,
                                            else_branch: Some(ElseBranchV::Block(b)),
                                        },
                                        t,
                                    ),
                                ),
                            }
                        }
                    },
                }
            },
        }
    }
}

pub open spec fn when_expr(ts: Seq<TokenV>, p: int) -> Parsed<ExprV>
    decreases ts.len() - p, 1nat,
{
    if !inside(ts, p) {
        Err(stuck())
    } else if !(kind_at(ts, p) is When) {
        Err(fail_at(ts, p, "expected 'when'"@))
    } else {
        let subject = if kind_at(ts, p + 1) is LBrace {
            Ok((None::<ExprV>, p + 1))
        } else {
            match expression(ts, p + 1) {
                Err(e) => Err(e),
                Ok((s, q)) => Ok((Some(s), q)),
            }
        };
        match subject {
            Err(e) => Err(e),
            Ok((subject, q)) => if !(kind_at(ts, q) is LBrace) {
                Err(fail_at(ts, q, "expected '{' after when subject"@))
            } else {
                let r = skip_separators(ts, q + 1);
                if forward(ts, p, r) {
                    match when_cases(ts, r, Seq::empty()) {
                        Err(e) => Err(e),
                        Ok((cases, t)) => Ok(
                            (
                                ExprV::When {
                                    binding: None,
                                    subject: match subject {
                                        Some(s) => Some(Box::new(s)),
                                        None => None,
                                    },
                                    cases,
                                },
                                t,
                            ),
                        ),
                    }
                } else {
                    Err(stuck())
                }
            },
        }
    }
}

/// Cases up to the closing `}`, after those in `acc`.
pub open spec fn when_cases(ts: Seq<TokenV>, p: int, acc: Seq<WhenCaseV>) -> Parsed<Seq<WhenCaseV>>
    decreases ts.len() - p, 15nat,
{
    if !inside(ts, p) {
        Err(stuck())
    } else if kind_at(ts, p) is RBrace {
        Ok((acc, p + 1))
    } else if kind_at(ts, p) is Eof {
        Err(fail_at(ts, p, "unterminated when expression"@))
    } else {
        match when_case(ts, p) {
            Err(e) => Err(e),
            Ok((c, q)) => if !forward(ts, p, q) {
                Err(stuck())
            } else if kind_at(ts, q) is RBrace {
                when_cases(ts, q, acc.push(c))
            } else {
                let r = skip_separators(ts, q);
                if r == q {
                    Err(fail_at(ts, q, "expected a newline or ';' between when cases"@))
                } else if forward(ts, p, r) {
                    when_cases(ts, r, acc.push(c))
                } else {
                    Err(stuck())
                }
            },
        }
    }
}

pub open spec fn when_case(ts: Seq<TokenV>, p: int) -> Parsed<WhenCaseV>
    decreases ts.len() - p, 14nat,
{
    if !inside(ts, p) {
        Err(stuck())
    } else if kind_at(ts, p) is Else {
        if !(kind_at(ts, p + 1) is FatArrow) {
            Err(fail_at(ts, p + 1, "expected '=>' after else"@))
        } else if forward(ts, p, p + 1) {
            match when_body(ts, p + 2) {
                Err(e) => Err(e),
                Ok((body, q)) => Ok(
                    (WhenCaseV { patterns: Seq::empty(), guard: None, body, is_else: true }, q),
                ),
            }
        } else {
            Err(stuck())
        }
    } else {
        match expression(ts, p) {
            Err(e) => Err(e),
            Ok((first, q)) => if !forward(ts, p, q) {
                Err(stuck())
            } else {
                match case_patterns(ts, q, seq![first]) {
                    Err(e) => Err(e),
                    Ok((patterns, r)) => if !forward(ts, p, r) {
                        Err(stuck())
                    } else {
                        let guard = if kind_at(ts, r) is If {
                            match expression(ts, r + 1) {
                                Err(e) => Err(e),
                                Ok((g, s)) => Ok((Some(g), s)),
                            }
                        } else {
                            Ok((None::<ExprV>, r))
                        };
                        match guard {
                            Err(e) => Err(e),
                            Ok((guard, s)) => if !(kind_at(ts, s) is FatArrow) {
                                Err(fail_at(ts, s, "expected '=>' after when pattern"@))
                            } else if forward(ts, p, s) {
                                match when_body(ts, s + 1) {
                                    Err(e) => Err(e),
                                    Ok((body, t)) => Ok(
                                        (WhenCaseV { patterns, guard, body, is_else: false }, t),
                                    ),
                                }
                            } else {
                                Err(stuck())
                            },
                        }
                    },
                }
            },
        }
    }
}

/// Further patterns `, pattern`, after those in `acc`.
pub open spec fn case_patterns(ts: Seq<TokenV>, p: int, acc: Seq<ExprV>) -> Parsed<Seq<ExprV>>
    decreases ts.len() - p, 13nat,
{
    if !inside(ts, p) {
        Err(stuck())
    } else if kind_at(ts, p) is Comma {
        let q = skip_separators(ts, p + 1);
        if forward(ts, p, q) {
            match expression(ts, q) {
                Err(e) => Err(e),
                Ok((e, r)) => if forward(ts, p, r) {
                    case_patterns(ts, r, acc.push(e))
                } else {
                    Err(stuck())
                },
            }
        } else {
            Err(stuck())
        }
    } else {
        Ok((acc, p))
    }
}

pub open spec fn when_body(ts: Seq<TokenV>, p: int) -> Parsed<WhenBodyV>
    decreases ts.len() - p, 13nat,
{
    if !inside(ts, p) {
        Err(stuck())
    } else if kind_at(ts, p) is LBrace {
        match block(ts, p) {
            Err(e) => Err(e),
            Ok((b, q)) => Ok((WhenBodyV::Block(b), q)),
        }
    } else {
        match expression(ts, p) {
            Err(e) => Err(e),
            Ok((e, q)) => Ok((WhenBodyV::Expr(e), q)),
        }
    }
}

pub open spec fn command_call(ts: Seq<TokenV>, p: int) -> Parsed<ExprV>
    decreases ts.len() - p, 13nat,
{
    if !inside(ts, p) {
        Err(stuck())
    } else {
        match take_name(ts, p) {
            Err(e) => Err(e),
            Ok((name, q)) => if forward(ts, p, q) {
                match expression(ts, q) {
                    Err(e) => Err(e),
                    Ok((first, r)) => if forward(ts, p, r) {
                        match command_args(ts, r, seq![first]) {
                            Err(e) => Err(e),
                            Ok((args, s)) => Ok(
                                (ExprV::Call { callee: Box::new(ExprV::Ident(name)), args }, s),
                            ),
                        }
                    } else {
                        Err(stuck())
                    },
                }
            } else {
                Err(stuck())
            },
        }
    }
}

/// Further arguments `, expr` of a command call, after those in `acc`.
pub open spec fn command_args(ts: Seq<TokenV>, p: int, acc: Seq<ExprV>) -> Parsed<Seq<ExprV>>
    decreases ts.len() - p, 13nat,
{
    if !inside(ts, p) {
        Err(stuck())
    } else if kind_at(ts, p) is Comma {
        match expression(ts, p + 1) {
            Err(e) => Err(e),
            Ok((e, q)) => if forward(ts, p, q) {
                command_args(ts, q, acc.push(e))
            } else {
                Err(stuck())
            },
        }
    } else {
        Ok((acc, p))
    }
}

pub open spec fn expression(ts: Seq<TokenV>, p: int) -> Parsed<ExprV>
    decreases ts.len() - p, 12nat,
{
    if !inside(ts, p) {
        Err(stuck())
    } else {
        binary_level(ts, p, 0)
    }
}

/// The rank of a precedence level: a level calls the next one at its own
/// position.
pub open spec fn level_rank(level: nat) -> nat {
    if level <= 6 {
        (11 - level) as nat
    } else {
        0
    }
}

/// A left-associative chain of the operators of `level`; its operands are
/// chains of the next level, or at the last level unary expressions.
pub open spec fn binary_level(ts: Seq<TokenV>, p: int, level: nat) -> Parsed<ExprV>
    decreases ts.len() - p, level_rank(level),
{
    if !inside(ts, p) || level > 6 {
        Err(stuck())
    } else {
        let first = if level < 6 {
            binary_level(ts, p, level + 1)
        } else {
            unary(ts, p)
        };
        match first {
            Err(e) => Err(e),
            Ok((first, q)) => if forward(ts, p, q) {
                binary_tail(ts, q, level, first)
            } else {
                Err(stuck())
            },
        }
    }
}

/// More operators of `level`, each with its operand, folded onto `left`.
pub open spec fn binary_tail(ts: Seq<TokenV>, p: int, level: nat, left: ExprV) -> Parsed<ExprV>
    decreases ts.len() - p, level_rank(level),
{
    if !inside(ts, p) || level > 6 {
        Err(stuck())
    } else {
        match level_op(level, kind_at(ts, p)) {
            None => Ok((left, p)),
            Some(op) => {
                let right = if level < 6 {
                    binary_level(ts, p + 1, level + 1)
                } else {
                    unary(ts, p + 1)
                };
                match right {
                    Err(e) => Err(e),
                    Ok((right, q)) => if forward(ts, p, q) {
                        binary_tail(ts, q, level, binary(left, op, right))
                    } else {
                        Err(stuck())
                    },
                }
            },
        }
    }
}

pub open spec fn unary(ts: Seq<TokenV>, p: int) -> Parsed<ExprV>
    decreases ts.len() - p, 4nat,
{
    if !inside(ts, p) {
        Err(stuck())
    } else if kind_at(ts, p) is Minus {
        match unary(ts, p + 1) {
            Err(e) => Err(e),
            Ok((e, q)) => Ok((ExprV::Unary { op: UnaryOp::Negate, expr: Box::new(e) }, q)),
        }
    } else if kind_at(ts, p) is Bang {
        match unary(ts, p + 1) {
            Err(e) => Err(e),
            Ok((e, q)) => Ok((ExprV::Unary { op: UnaryOp::Not, expr: Box::new(e) }, q)),
        }
    } else {
        postfix(ts, p)
    }
}

pub open spec fn postfix(ts: Seq<TokenV>, p: int) -> Parsed<ExprV>
    decreases ts.len() - p, 3nat,
{
    if !inside(ts, p) {
        Err(stuck())
    } else {
        match primary(ts, p) {
            Err(e) => Err(e),
            Ok((e, q)) => if forward(ts, p, q) {
                postfix_tail(ts, q, e)
            } else {
                Err(stuck())
            },
        }
    }
}

/// Calls, member accesses and indexing applied to `e`, left to right.
pub open spec fn postfix_tail(ts: Seq<TokenV>, p: int, e: ExprV) -> Parsed<ExprV>
    decreases ts.len() - p, 3nat,
{
    if !inside(ts, p) {
        Err(stuck())
    } else if kind_at(ts, p) is LParen {
        let q = skip_separators(ts, p + 1);
        if !forward(ts, p, q) {
            Err(stuck())
        } else {
            let args = if kind_at(ts, q) is RParen {
                Ok((Seq::<ExprV>::empty(), q))
            } else {
                arguments(ts, q, Seq::empty())
            };
            match args {
                Err(x) => Err(x),
                Ok((args, r)) => if !(kind_at(ts, r) is RParen) {
                    Err(fail_at(ts, r, "expected ')' after arguments"@))
                } else if forward(ts, p, r) {
                    postfix_tail(ts, r + 1, ExprV::Call { callee: Box::new(e), args })
                } else {
                    Err(stuck())
                },
            }
        }
    } else if kind_at(ts, p) is Dot || kind_at(ts, p) is SafeDot {
        match take_name(ts, p + 1) {
            Err(x) => Err(x),
            Ok((name, q)) => if forward(ts, p, q) {
                postfix_tail(
                    ts,
                    q,
                    ExprV::Member { object: Box::new(e), name, safe: kind_at(ts, p) is SafeDot },
                )
            } else {
                Err(stuck())
            },
        }
    } else if kind_at(ts, p) is LBracket {
        match expression(ts, p + 1) {
            Err(x) => Err(x),
            Ok((index, q)) => if !(kind_at(ts, q) is RBracket) {
                Err(fail_at(ts, q, "expected ']' after index"@))
            } else if forward(ts, p, q) {
                postfix_tail(ts, q + 1, ExprV::Index { object: Box::new(e), index: Box::new(index) })
            } else {
                Err(stuck())
            },
        }
    } else {
        Ok((e, p))
    }
}

/// Expressions separated by commas (and any separators around them), after
/// those in `acc`; it stops before the first token after the last one that is
/// neither a comma nor a separator.
pub open spec fn arguments(ts: Seq<TokenV>, p: int, acc: Seq<ExprV>) -> Parsed<Seq<ExprV>>
    decreases ts.len() - p, 13nat,
{
    if !inside(ts, p) {
        Err(stuck())
    } else {
        match expression(ts, p) {
            Err(e) => Err(e),
            Ok((a, q)) => {
                let r = skip_separators(ts, q);
                if kind_at(ts, r) is Comma {
                    let s = skip_separators(ts, r + 1);
                    if forward(ts, p, s) {
                        arguments(ts, s, acc.push(a))
                    } else {
                        Err(stuck())
                    }
                } else {
                    Ok((acc.push(a), r))
                }
            },
        }
    }
}

pub open spec fn primary(ts: Seq<TokenV>, p: int) -> Parsed<ExprV>
    decreases ts.len() - p, 2nat,
{
    if !inside(ts, p) {
        Err(stuck())
    } else {
        match kind_at(ts, p) {
            TokenKindV::Null => Ok((ExprV::Null, p + 1)),
            TokenKindV::True => Ok((ExprV::Bool(true), p + 1)),
            TokenKindV::False => Ok((ExprV::Bool(false), p + 1)),
            TokenKindV::Int(v) => Ok((ExprV::Int(v), p + 1)),
            TokenKindV::Float(t) => Ok((ExprV::Float(t), p + 1)),
            TokenKindV::Str(s) => Ok((ExprV::Str(s), p + 1)),
            TokenKindV::Ident(n) => Ok((ExprV::Ident(n), p + 1)),
            TokenKindV::DataIdent(n) => Ok((ExprV::Ident(n), p + 1)),
            TokenKindV::LParen => {
                let q = skip_separators(ts, p + 1);
                if forward(ts, p, q) {
                    match expression(ts, q) {
                        Err(e) => Err(e),
                        Ok((e, r)) => {
                            let s = skip_separators(ts, r);
                            if kind_at(ts, s) is RParen {
                                Ok((e, s + 1))
                            } else {
                                Err(fail_at(ts, s, "expected ')' after expression"@))
                            }
                        },
                    }
                } else {
                    Err(stuck())
                }
            },
            TokenKindV::LBracket => list(ts, p + 1),
            TokenKindV::If => if_expr(ts, p),
            TokenKindV::When => when_expr(ts, p),
            k => if reserved(k) {
                Err(fail_at(ts, p, "keyword is reserved for a future language feature"@))
            } else {
                Err(fail_at(ts, p, "expected expression"@))
            },
        }
    }
}

/// A list's items and its closing `]`, from just after its `[`.
pub open spec fn list(ts: Seq<TokenV>, p: int) -> Parsed<ExprV>
    decreases ts.len() - p, 14nat,
{
    if !inside(ts, p) {
        Err(stuck())
    } else {
        let q = skip_separators(ts, p);
        if !(p <= q < ts.len()) {
            Err(stuck())
        } else {
            let items = if kind_at(ts, q) is RBracket {
                Ok((Seq::<ExprV>::empty(), q))
            } else {
                arguments(ts, q, Seq::empty())
            };
            match items {
                Err(e) => Err(e),
                Ok((items, r)) => if kind_at(ts, r) is RBracket {
                    Ok((ExprV::List(items), r + 1))
                } else {
                    Err(fail_at(ts, r, "expected ']' after list"@))
                },
            }
        }
    }
}

// ---------------------------------------------------------------------------
// Precedence.
// ---------------------------------------------------------------------------
/// `k` is the token of the additive operator `op`.
pub open spec fn additive_token(k: TokenKindV, op: BinaryOp) -> bool {
    (k is Plus && op == BinaryOp::Add) || (k is Minus && op == BinaryOp::Subtract)
}

/// `k` is the token of the multiplicative operator `op`.
pub open spec fn multiplicative_token(k: TokenKindV, op: BinaryOp) -> bool {
    (k is Star && op == BinaryOp::Multiply) || (k is Slash && op == BinaryOp::Divide) || (k is Percent
        && op == BinaryOp::Remainder)
}

/// A token after which an expression cannot go on.
pub open spec fn expression_end(k: TokenKindV) -> bool {
    k is Eof || k is Newline || k is Semi || k is RParen || k is RBrace || k is RBracket || k is Comma
}

proof fn lemma_int_operand(ts: Seq<TokenV>, q: int, v: i64)
    requires
        0 <= q,
        q + 1 < ts.len(),
        kind_at(ts, q) == TokenKindV::Int(v),
        !(kind_at(ts, q + 1) is LParen || kind_at(ts, q + 1) is Dot || kind_at(ts, q + 1) is SafeDot
            || kind_at(ts, q + 1) is LBracket),
    ensures
        unary(ts, q) == Ok::<(ExprV, int), Failure>((ExprV::Int(v), q + 1)),
{
    assert(primary(ts, q) == Ok::<(ExprV, int), Failure>((ExprV::Int(v), q + 1)));
    assert(postfix_tail(ts, q + 1, ExprV::Int(v)) == Ok::<(ExprV, int), Failure>(
        (ExprV::Int(v), q + 1),
    ));
    assert(postfix(ts, q) == Ok::<(ExprV, int), Failure>((ExprV::Int(v), q + 1)));
}

proof fn lemma_tail_stops(ts: Seq<TokenV>, q: int, level: nat, left: ExprV)
    requires
        0 <= q < ts.len(),
        level <= 6,
        level_op(level, kind_at(ts, q)) is None,
    ensures
        binary_tail(ts, q, level, left) == Ok::<(ExprV, int), Failure>((left, q)),
{
}

proof fn lemma_outer_levels(ts: Seq<TokenV>, p: int, level: nat, e: ExprV, q: int)
    requires
        0 <= p < q < ts.len(),
        level <= 5,
        binary_level(ts, p, 5) == Ok::<(ExprV, int), Failure>((e, q)),
        expression_end(kind_at(ts, q)),
    ensures
        binary_level(ts, p, level) == Ok::<(ExprV, int), Failure>((e, q)),
    decreases 5 - level,
{
    if level < 5 {
        lemma_outer_levels(ts, p, level + 1, e, q);
        lemma_tail_stops(ts, q, level, e);
    }
}

/// Multiplicative operators bind tighter than additive ones: the tokens
/// `a + b * c` (any of `+ -` then any of `* / %`, with integer operands)
/// make the expression `a + (b * c)`.
pub proof fn lemma_product_binds_inside_sum(
    ts: Seq<TokenV>,
    p: int,
    a: i64,
    k1: TokenKindV,
    op1: BinaryOp,
    b: i64,
    k2: TokenKindV,
    op2: BinaryOp,
    c: i64,
)
    requires
        0 <= p,
        p + 5 < ts.len(),
        kind_at(ts, p) == TokenKindV::Int(a),
        kind_at(ts, p + 1) == k1,
        additive_token(k1, op1),
        kind_at(ts, p + 2) == TokenKindV::Int(b),
        kind_at(ts, p + 3) == k2,
        multiplicative_token(k2, op2),
        kind_at(ts, p + 4) == TokenKindV::Int(c),
        expression_end(kind_at(ts, p + 5)),
    ensures
        expression(ts, p) == Ok::<(ExprV, int), Failure>(
            (
                binary(ExprV::Int(a), op1, binary(ExprV::Int(b), op2, ExprV::Int(c))),
                p + 5,
            ),
        ),
{
    let e = binary(ExprV::Int(a), op1, binary(ExprV::Int(b), op2, ExprV::Int(c)));
    lemma_int_operand(ts, p, a);
    lemma_int_operand(ts, p + 2, b);
    lemma_int_operand(ts, p + 4, c);
    lemma_tail_stops(ts, p + 1, 6, ExprV::Int(a));
    assert(binary_level(ts, p, 6) == Ok::<(ExprV, int), Failure>((ExprV::Int(a), p + 1)));
    lemma_tail_stops(ts, p + 5, 6, binary(ExprV::Int(b), op2, ExprV::Int(c)));
    assert(binary_tail(ts, p + 3, 6, ExprV::Int(b)) == Ok::<(ExprV, int), Failure>(
        (binary(ExprV::Int(b), op2, ExprV::Int(c)), p + 5),
    ));
    assert(binary_level(ts, p + 2, 6) == Ok::<(ExprV, int), Failure>(
        (binary(ExprV::Int(b), op2, ExprV::Int(c)), p + 5),
    ));
    lemma_tail_stops(ts, p + 5, 5, e);
    assert(binary_tail(ts, p + 1, 5, ExprV::Int(a)) == Ok::<(ExprV, int), Failure>((e, p + 5)));
    assert(binary_level(ts, p, 5) == Ok::<(ExprV, int), Failure>((e, p + 5)));
    lemma_outer_levels(ts, p, 0, e, p + 5);
}

/// And the other way round: the tokens `a * b + c` make `(a * b) + c`.
pub proof fn lemma_product_binds_before_sum(
    ts: Seq<TokenV>,
    p: int,
    a: i64,
    k1: TokenKindV,
    op1: BinaryOp,
    b: i64,
    k2: TokenKindV,
    op2: BinaryOp,
    c: i64,
)
    requires
        0 <= p,
        p + 5 < ts.len(),
        kind_at(ts, p) == TokenKindV::Int(a),
        kind_at(ts, p + 1) == k1,
        multiplicative_token(k1, op1),
        kind_at(ts, p + 2) == TokenKindV::Int(b),
        kind_at(ts, p + 3) == k2,
        additive_token(k2, op2),
        kind_at(ts, p + 4) == TokenKindV::Int(c),
        expression_end(kind_at(ts, p + 5)),
    ensures
        expression(ts, p) == Ok::<(ExprV, int), Failure>(
            (
                binary(binary(ExprV::Int(a), op1, ExprV::Int(b)), op2, ExprV::Int(c)),
                p + 5,
            ),
        ),
{
    let ab = binary(ExprV::Int(a), op1, ExprV::Int(b));
    let e = binary(ab, op2, ExprV::Int(c));
    lemma_int_operand(ts, p, a);
    lemma_int_operand(ts, p + 2, b);
    lemma_int_operand(ts, p + 4, c);
    lemma_tail_stops(ts, p + 3, 6, ab);
    assert(binary_tail(ts, p + 1, 6, ExprV::Int(a)) == Ok::<(ExprV, int), Failure>((ab, p + 3)));
    assert(binary_level(ts, p, 6) == Ok::<(ExprV, int), Failure>((ab, p + 3)));
    lemma_tail_stops(ts, p + 5, 6, ExprV::Int(c));
    assert(binary_level(ts, p + 4, 6) == Ok::<(ExprV, int), Failure>((ExprV::Int(c), p + 5)));
    lemma_tail_stops(ts, p + 5, 5, e);
    assert(binary_tail(ts, p + 3, 5, ab) == Ok::<(ExprV, int), Failure>((e, p + 5)));
    assert(binary_level(ts, p, 5) == Ok::<(ExprV, int), Failure>((e, p + 5)));
    lemma_outer_levels(ts, p, 0, e, p + 5);
}

/// How tightly a binary operator binds, from `?:` (loosest) to the
/// multiplicative operators (tightest).
pub open spec fn binding_power(op: BinaryOp) -> nat {
    match op {
        BinaryOp::Elvis => 0,
        BinaryOp::Or => 1,
        BinaryOp::And => 2,
        BinaryOp::Equal | BinaryOp::NotEqual => 3,
        BinaryOp::Less | BinaryOp::LessEqual | BinaryOp::Greater | BinaryOp::GreaterEqual => 4,
        BinaryOp::Add | BinaryOp::Subtract => 5,
        BinaryOp::Multiply | BinaryOp::Divide | BinaryOp::Remainder => 6,
    }
}

/// `k` is the token that spells the binary operator `op`.
pub open spec fn operator_token(k: TokenKindV, op: BinaryOp) -> bool {
    ||| k is Elvis && op == BinaryOp::Elvis
    ||| k is Or && op == BinaryOp::Or
    ||| k is And && op == BinaryOp::And
    ||| k is Eq && op == BinaryOp::Equal
    ||| k is Neq && op == BinaryOp::NotEqual
    ||| k is Lt && op == BinaryOp::Less
    ||| k is Lte && op == BinaryOp::LessEqual
    ||| k is Gt && op == BinaryOp::Greater
    ||| k is Gte && op == BinaryOp::GreaterEqual
    ||| additive_token(k, op)
    ||| multiplicative_token(k, op)
}

proof fn lemma_operator_level(k: TokenKindV, op: BinaryOp)
    requires
        operator_token(k, op),
    ensures
        forall|m: nat|
            m <= 6 ==> #[trigger] level_op(m, k) == if m == binding_power(op) {
                Some(op)
            } else {
                None::<BinaryOp>
            },
{
}

proof fn lemma_end_level(k: TokenKindV)
    requires
        expression_end(k),
    ensures
        forall|m: nat| #[trigger] level_op(m, k) is None,
{
}

proof fn lemma_operand(ts: Seq<TokenV>, q: int, v: i64, level: nat)
    requires
        0 <= q,
        q + 1 < ts.len(),
        level <= 6,
        kind_at(ts, q) == TokenKindV::Int(v),
        !(kind_at(ts, q + 1) is LParen || kind_at(ts, q + 1) is Dot || kind_at(ts, q + 1) is SafeDot
            || kind_at(ts, q + 1) is LBracket),
        forall|m: nat| level <= m <= 6 ==> #[trigger] level_op(m, kind_at(ts, q + 1)) is None,
    ensures
        binary_level(ts, q, level) == Ok::<(ExprV, int), Failure>((ExprV::Int(v), q + 1)),
    decreases 6 - level,
{
    lemma_int_operand(ts, q, v);
    if level < 6 {
        lemma_operand(ts, q, v, level + 1);
    }
    lemma_tail_stops(ts, q + 1, level, ExprV::Int(v));
}

proof fn lemma_lift(ts: Seq<TokenV>, p: int, e: ExprV, q: int, low: nat, level: nat)
    requires
        0 <= p < q < ts.len(),
        low <= level <= 6,
        binary_level(ts, p, level) == Ok::<(ExprV, int), Failure>((e, q)),
        forall|m: nat| low <= m < level ==> #[trigger] level_op(m, kind_at(ts, q)) is None,
    ensures
        binary_level(ts, p, low) == Ok::<(ExprV, int), Failure>((e, q)),
    decreases level - low,
{
    if low < level {
        lemma_lift(ts, p, e, q, low + 1, level);
        lemma_tail_stops(ts, q, low, e);
    }
}

/// Precedence and associativity of the binary operators: for the tokens
/// `a op1 b op2 c` with integer operands, the operator that binds tighter
/// takes `b`, and of two operators that bind alike the left one does, so
/// the expression is `a op1 (b op2 c)` when `op2` binds tighter than `op1`
/// and `(a op1 b) op2 c` otherwise.
pub proof fn lemma_operator_precedence(
    ts: Seq<TokenV>,
    p: int,
    a: i64,
    k1: TokenKindV,
    op1: BinaryOp,
    b: i64,
    k2: TokenKindV,
    op2: BinaryOp,
    c: i64,
)
    requires
        0 <= p,
        p + 5 < ts.len(),
        kind_at(ts, p) == TokenKindV::Int(a),
        kind_at(ts, p + 1) == k1,
        operator_token(k1, op1),
        kind_at(ts, p + 2) == TokenKindV::Int(b),
        kind_at(ts, p + 3) == k2,
        operator_token(k2, op2),
        kind_at(ts, p + 4) == TokenKindV::Int(c),
        expression_end(kind_at(ts, p + 5)),
    ensures
        expression(ts, p) == Ok::<(ExprV, int), Failure>(
            (
                if binding_power(op1) < binding_power(op2) {
                    binary(ExprV::Int(a), op1, binary(ExprV::Int(b), op2, ExprV::Int(c)))
                } else {
                    binary(binary(ExprV::Int(a), op1, ExprV::Int(b)), op2, ExprV::Int(c))
                },
                p + 5,
            ),
        ),
{
    let lo = binding_power(op1);
    let hi = binding_power(op2);
    let ia = ExprV::Int(a);
    let ib = ExprV::Int(b);
    let ic = ExprV::Int(c);
    lemma_operator_level(k1, op1);
    lemma_operator_level(k2, op2);
    lemma_end_level(kind_at(ts, p + 5));
    lemma_int_operand(ts, p, a);
    lemma_int_operand(ts, p + 2, b);
    lemma_int_operand(ts, p + 4, c);
    if lo < hi {
        let bc = binary(ib, op2, ic);
        let e = binary(ia, op1, bc);
        if hi < 6 {
            lemma_operand(ts, p + 4, c, hi + 1);
            lemma_operand(ts, p + 2, b, hi + 1);
        }
        lemma_tail_stops(ts, p + 5, hi, bc);
        assert(binary_tail(ts, p + 3, hi, ib) == Ok::<(ExprV, int), Failure>((bc, p + 5)));
        assert(binary_level(ts, p + 2, hi) == Ok::<(ExprV, int), Failure>((bc, p + 5)));
        lemma_lift(ts, p + 2, bc, p + 5, lo + 1, hi);
        lemma_operand(ts, p, a, lo + 1);
        lemma_tail_stops(ts, p + 5, lo, e);
        assert(binary_tail(ts, p + 1, lo, ia) == Ok::<(ExprV, int), Failure>((e, p + 5)));
        assert(binary_level(ts, p, lo) == Ok::<(ExprV, int), Failure>((e, p + 5)));
        lemma_lift(ts, p, e, p + 5, 0, lo);
    } else {
        let ab = binary(ia, op1, ib);
        let e = binary(ab, op2, ic);
        if lo < 6 {
            lemma_operand(ts, p, a, lo + 1);
            lemma_operand(ts, p + 2, b, lo + 1);
        }
        if hi == lo {
            if lo < 6 {
                lemma_operand(ts, p + 4, c, lo + 1);
            }
            lemma_tail_stops(ts, p + 5, lo, e);
            assert(binary_tail(ts, p + 3, lo, ab) == Ok::<(ExprV, int), Failure>((e, p + 5)));
            assert(binary_tail(ts, p + 1, lo, ia) == Ok::<(ExprV, int), Failure>((e, p + 5)));
            assert(binary_level(ts, p, lo) == Ok::<(ExprV, int), Failure>((e, p + 5)));
            lemma_lift(ts, p, e, p + 5, 0, lo);
        } else {
            lemma_tail_stops(ts, p + 3, lo, ab);
            assert(binary_tail(ts, p + 1, lo, ia) == Ok::<(ExprV, int), Failure>((ab, p + 3)));
            assert(binary_level(ts, p, lo) == Ok::<(ExprV, int), Failure>((ab, p + 3)));
            lemma_lift(ts, p, ab, p + 3, hi + 1, lo);
            lemma_operand(ts, p + 4, c, hi + 1);
            lemma_tail_stops(ts, p + 5, hi, e);
            assert(binary_tail(ts, p + 3, hi, ab) == Ok::<(ExprV, int), Failure>((e, p + 5)));
            assert(binary_level(ts, p, hi) == Ok::<(ExprV, int), Failure>((e, p + 5)));
            lemma_lift(ts, p, e, p + 5, 0, hi);
        }
    }
}

proof fn lemma_unary_levels(ts: Seq<TokenV>, q: int, x: ExprV, r: int, level: nat)
    requires
        0 <= q < r < ts.len(),
        level <= 6,
        unary(ts, q) == Ok::<(ExprV, int), Failure>((x, r)),
        forall|m: nat| level <= m <= 6 ==> #[trigger] level_op(m, kind_at(ts, r)) is None,
    ensures
        binary_level(ts, q, level) == Ok::<(ExprV, int), Failure>((x, r)),
    decreases 6 - level,
{
    if level < 6 {
        lemma_unary_levels(ts, q, x, r, level + 1);
    }
    lemma_tail_stops(ts, r, level, x);
}

/// A prefix `-` negates and a prefix `!` inverts, and either binds tighter
/// than any binary operator: the tokens `-a op b` make `(-a) op b`.
pub proof fn lemma_prefix_operators(
    ts: Seq<TokenV>,
    p: int,
    k0: TokenKindV,
    uop: UnaryOp,
    a: i64,
    k: TokenKindV,
    op: BinaryOp,
    b: i64,
)
    requires
        0 <= p,
        p + 4 < ts.len(),
        kind_at(ts, p) == k0,
        (k0 is Minus && uop == UnaryOp::Negate) || (k0 is Bang && uop == UnaryOp::Not),
        kind_at(ts, p + 1) == TokenKindV::Int(a),
        kind_at(ts, p + 2) == k,
        operator_token(k, op),
        kind_at(ts, p + 3) == TokenKindV::Int(b),
        expression_end(kind_at(ts, p + 4)),
    ensures
        expression(ts, p) == Ok::<(ExprV, int), Failure>(
            (
                binary(ExprV::Unary { op: uop, expr: Box::new(ExprV::Int(a)) }, op, ExprV::Int(b)),
                p + 4,
            ),
        ),
{
    let neg = ExprV::Unary { op: uop, expr: Box::new(ExprV::Int(a)) };
    let e = binary(neg, op, ExprV::Int(b));
    let lv = binding_power(op);
    lemma_operator_level(k, op);
    lemma_end_level(kind_at(ts, p + 4));
    lemma_int_operand(ts, p + 1, a);
    lemma_int_operand(ts, p + 3, b);
    assert(unary(ts, p) == Ok::<(ExprV, int), Failure>((neg, p + 2)));
    if lv < 6 {
        lemma_unary_levels(ts, p, neg, p + 2, lv + 1);
        lemma_operand(ts, p + 3, b, lv + 1);
    }
    lemma_tail_stops(ts, p + 4, lv, e);
    assert(binary_tail(ts, p + 2, lv, neg) == Ok::<(ExprV, int), Failure>((e, p + 4)));
    assert(binary_level(ts, p, lv) == Ok::<(ExprV, int), Failure>((e, p + 4)));
    lemma_lift(ts, p, e, p + 4, 0, lv);
}

// ---------------------------------------------------------------------------
// Programs.
// ---------------------------------------------------------------------------
/// Statements up to the end of input, after those in `acc`.
pub open spec fn program_statements(ts: Seq<TokenV>, p: int, acc: Seq<StmtV>) -> Result<
    Seq<StmtV>,
    Failure,
>
    decreases ts.len() - p,
{
    if !inside(ts, p) {
        Err(stuck())
    } else if kind_at(ts, p) is Eof {
        Ok(acc)
    } else {
        match statement(ts, p) {
            Err(e) => Err(e),
            Ok((s, q)) => if !forward(ts, p, q) {
                Err(stuck())
            } else if kind_at(ts, q) is Eof {
                Ok(acc.push(s))
            } else {
                let r = skip_separators(ts, q);
                if r == q && !(kind_at(ts, q) is RBrace) {
                    Err(fail_at(ts, q, "expected a newline or ';' between statements"@))
                } else if forward(ts, p, r) {
                    program_statements(ts, r, acc.push(s))
                } else {
                    Err(stuck())
                }
            },
        }
    }
}

/// The statements of a program that starts at position `p`.
pub open spec fn program_from(ts: Seq<TokenV>, p: int) -> Result<Seq<StmtV>, Failure> {
    program_statements(ts, skip_separators(ts, p), Seq::empty())
}

/// The statements of a whole token sequence.
pub open spec fn program(ts: Seq<TokenV>) -> Result<Seq<StmtV>, Failure> {
    program_from(ts, 0)
}

} // verus!
