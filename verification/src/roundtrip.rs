//! Loading an encoded program gives it back: the artifact format round trip.
//!
//! A program round-trips when each of its float literals is text that
//! `f64` parsing accepts, since loading checks exactly that
//! (`literals_ok_program`).
use vstd::prelude::*;
use crate::artifact::{
    HEADER, dec_block, dec_case, dec_cases, dec_else, dec_entries, dec_entry, dec_expr, dec_flag,
    dec_expr_group, dec_exprs, dec_fbody, dec_field, dec_fields, dec_opt_expr, dec_opt_string,
    dec_param, dec_param_list, dec_params, dec_program, dec_stmt, dec_stmts, dec_strs,
    dec_variant, dec_variant_list, dec_variants, dec_wbody, dec_when_cases, decode_text,
};
use crate::ast::{
    BinaryOp, BlockV, ElseBranchV, ExprV, FunctionBodyV, ParamV, ProgramV, StmtV, UnaryOp,
    VariantV, WhenBodyV, WhenCaseV,
};
use crate::compiler::{
    binary_name, block_form, case_form, case_forms, else_form, encode_text, entry_forms,
    expr_form, expr_forms, fbody_form, field_forms, flag_form, node, opt_expr_form,
    opt_string_form, param_form, param_forms, params_form, variant_forms, program_form, stmt_form, stmt_forms,
    str_forms, subject_form, unary_name, variant_form, variants_form, wbody_form,
};
use crate::form::{
    atom_char, atom_safe, delim_at, holds_at, lemma_read_printed_form, print_form,
    read_form, skip_ws, wf_form, wf_forms, FormV,
};
use crate::numbers::{
    decimal_text, exponent_ok, float_text_ok, int_text, is_digit, is_exp_mark, is_sign,
    lemma_decimal_text, lemma_parse_int_text, lower_eq, mantissa_ok, number_ok, ascii_lower,
};

verus! {

// ---------------------------------------------------------------------------
// Programs whose literals load back.
// ---------------------------------------------------------------------------
pub open spec fn literals_ok_stmt(s: StmtV) -> bool
    decreases s,
{
    match s {
        StmtV::Var { value, .. } => literals_ok_expr(value),
        StmtV::Assign { target, value } => literals_ok_expr(target) && literals_ok_expr(value),
        StmtV::Return(value) => literals_ok_opt(value),
        StmtV::While { condition, body } => literals_ok_expr(condition) && literals_ok_block(body),
        StmtV::For { iterable, body, .. } => literals_ok_expr(iterable) && literals_ok_block(body),
        StmtV::Function { body, .. } => literals_ok_fbody(body),
        StmtV::Data { computed, .. } => literals_ok_fields(computed),
        StmtV::Expr(e) => literals_ok_expr(e),
        StmtV::Pub(inner) => literals_ok_stmt(*inner),
        _ => true,
    }
}

pub open spec fn literals_ok_stmts(s: Seq<StmtV>) -> bool
    decreases s,
{
    s.len() == 0 || (literals_ok_stmt(s[0]) && literals_ok_stmts(s.subrange(1, s.len() as int)))
}

pub open spec fn literals_ok_block(b: BlockV) -> bool
    decreases b,
{
    literals_ok_stmts(b.statements)
}

pub open spec fn literals_ok_expr(e: ExprV) -> bool
    decreases e,
{
    match e {
        ExprV::Float(t) => float_text_ok(t),
        ExprV::List(items) => literals_ok_exprs(items),
        ExprV::MapLiteral(entries) => literals_ok_entries(entries),
        ExprV::SetLiteral(items) => literals_ok_exprs(items),
        ExprV::Unary { expr, .. } => literals_ok_expr(*expr),
        ExprV::Binary { left, right, .. } => literals_ok_expr(*left) && literals_ok_expr(*right),
        ExprV::Call { callee, args } => literals_ok_expr(*callee) && literals_ok_exprs(args),
        ExprV::Member { object, .. } => literals_ok_expr(*object),
        ExprV::Index { object, index } => literals_ok_expr(*object) && literals_ok_expr(*index),
        ExprV::Propagate { expr } => literals_ok_expr(*expr),
        ExprV::Lambda { body, .. } => literals_ok_expr(*body),
        ExprV::If { condition, then_branch, else_branch } => literals_ok_expr(*condition)
            && literals_ok_block(then_branch) && literals_ok_else(else_branch),
        ExprV::When { subject, cases, .. } => literals_ok_subject(subject) && literals_ok_cases(cases),
        _ => true,
    }
}

pub open spec fn literals_ok_exprs(s: Seq<ExprV>) -> bool
    decreases s,
{
    s.len() == 0 || (literals_ok_expr(s[0]) && literals_ok_exprs(s.subrange(1, s.len() as int)))
}

pub open spec fn literals_ok_entries(s: Seq<(ExprV, ExprV)>) -> bool
    decreases s,
{
    s.len() == 0 || (literals_ok_expr(s[0].0) && literals_ok_expr(s[0].1) && literals_ok_entries(
        s.subrange(1, s.len() as int),
    ))
}

pub open spec fn literals_ok_fields(s: Seq<(Seq<char>, ExprV)>) -> bool
    decreases s,
{
    s.len() == 0 || (literals_ok_expr(s[0].1) && literals_ok_fields(s.subrange(1, s.len() as int)))
}

pub open spec fn literals_ok_cases(s: Seq<WhenCaseV>) -> bool
    decreases s,
{
    s.len() == 0 || (literals_ok_case(s[0]) && literals_ok_cases(s.subrange(1, s.len() as int)))
}

pub open spec fn literals_ok_case(c: WhenCaseV) -> bool
    decreases c,
{
    literals_ok_exprs(c.patterns) && literals_ok_opt(c.guard) && literals_ok_wbody(c.body)
}

pub open spec fn literals_ok_opt(o: Option<ExprV>) -> bool
    decreases o,
{
    match o {
        Some(e) => literals_ok_expr(e),
        None => true,
    }
}

pub open spec fn literals_ok_subject(o: Option<Box<ExprV>>) -> bool
    decreases o,
{
    match o {
        Some(e) => literals_ok_expr(*e),
        None => true,
    }
}

pub open spec fn literals_ok_fbody(b: FunctionBodyV) -> bool
    decreases b,
{
    match b {
        FunctionBodyV::Expr(e) => literals_ok_expr(e),
        FunctionBodyV::Block(bl) => literals_ok_block(bl),
    }
}

pub open spec fn literals_ok_wbody(b: WhenBodyV) -> bool
    decreases b,
{
    match b {
        WhenBodyV::Expr(e) => literals_ok_expr(e),
        WhenBodyV::Block(bl) => literals_ok_block(bl),
    }
}

pub open spec fn literals_ok_else(b: Option<ElseBranchV>) -> bool
    decreases b,
{
    match b {
        Some(ElseBranchV::Block(bl)) => literals_ok_block(bl),
        Some(ElseBranchV::If(x)) => literals_ok_expr(*x),
        None => true,
    }
}

/// Every float literal of `p` is text that `f64` parsing accepts.
pub open spec fn literals_ok_program(p: ProgramV) -> bool {
    literals_ok_stmts(p.statements)
}

// ---------------------------------------------------------------------------
// Atoms.
// ---------------------------------------------------------------------------
pub open spec fn plain_char(c: char) -> bool {
    is_digit(c) || c == '.' || c == '+' || c == '-' || ('a' <= c && c <= 'z') || ('A' <= c && c
        <= 'Z')
}

proof fn lemma_plain_atom(a: Seq<char>)
    requires
        a.len() > 0,
        forall|i: int| 0 <= i < a.len() ==> #[trigger] plain_char(a[i]),
    ensures
        atom_safe(a),
{
    assert forall|i: int| 0 <= i < a.len() implies #[trigger] atom_char(a[i]) by {
        assert(plain_char(a[i]));
        assert((a[i] as u32) < 128);
    }
    assert(plain_char(a[0]));
}

/// A word of lowercase letters and dashes is an atom.
pub proof fn lemma_word_atom(w: Seq<char>)
    requires
        w.len() > 0,
        forall|i: int| 0 <= i < w.len() ==> ('a' <= #[trigger] w[i] && w[i] <= 'z') || w[i] == '-',
    ensures
        atom_safe(w),
{
    assert forall|i: int| 0 <= i < w.len() implies #[trigger] plain_char(w[i]) by {}
    lemma_plain_atom(w);
}

/// The text of an integer is an atom.
pub proof fn lemma_int_atom(v: int)
    ensures
        atom_safe(int_text(v)),
{
    let n: nat = if v < 0 { (-v) as nat } else { v as nat };
    lemma_decimal_text(n);
    let d = decimal_text(n);
    let t = int_text(v);
    assert forall|i: int| 0 <= i < t.len() implies #[trigger] plain_char(t[i]) by {
        if v < 0 {
            if i > 0 {
                assert(t[i] == d[i - 1]);
                assert(is_digit(d[i - 1]));
            }
        } else {
            assert(is_digit(d[i]));
        }
    }
    lemma_plain_atom(t);
}

proof fn lemma_lower_plain(b: Seq<char>, w: Seq<char>)
    requires
        lower_eq(b, w),
        forall|i: int| 0 <= i < w.len() ==> 'a' <= #[trigger] w[i] && w[i] <= 'z',
    ensures
        forall|i: int| 0 <= i < b.len() ==> #[trigger] plain_char(b[i]),
{
    assert forall|i: int| 0 <= i < b.len() implies #[trigger] plain_char(b[i]) by {
        assert(ascii_lower(b[i]) == w[i]);
        assert('a' <= w[i] && w[i] <= 'z');
    }
}

/// Text that `f64` parsing accepts is an atom.
pub proof fn lemma_float_atom(t: Seq<char>)
    requires
        float_text_ok(t),
    ensures
        atom_safe(t),
{
    let signed = t.len() > 0 && is_sign(t[0]);
    let b = if signed { t.drop_first() } else { t };
    let inf = seq!['i', 'n', 'f'];
    let infinity = seq!['i', 'n', 'f', 'i', 'n', 'i', 't', 'y'];
    let nan = seq!['n', 'a', 'n'];
    if lower_eq(b, inf) {
        lemma_lower_plain(b, inf);
    } else if lower_eq(b, infinity) {
        lemma_lower_plain(b, infinity);
    } else if lower_eq(b, nan) {
        lemma_lower_plain(b, nan);
    } else {
        assert(number_ok(b));
        if forall|i: int| 0 <= i < b.len() ==> !#[trigger] is_exp_mark(b[i]) {
            assert(mantissa_ok(b));
            assert forall|i: int| 0 <= i < b.len() implies #[trigger] plain_char(b[i]) by {
                assert(is_digit(b[i]) || b[i] == '.');
            }
            let k = choose|k: int| 0 <= k < b.len() && #[trigger] is_digit(b[k]);
            assert(b.len() > 0);
        } else {
            let k = choose|k: int|
                0 <= k < b.len() && #[trigger] is_exp_mark(b[k]) && (forall|i: int|
                    0 <= i < k ==> !#[trigger] is_exp_mark(b[i])) && mantissa_ok(b.take(k))
                    && exponent_ok(b.skip(k + 1));
            let m = b.take(k);
            let x = b.skip(k + 1);
            assert forall|i: int| 0 <= i < b.len() implies #[trigger] plain_char(b[i]) by {
                if i < k {
                    assert(m[i] == b[i]);
                    assert(is_digit(m[i]) || m[i] == '.');
                } else if i > k {
                    assert(x[i - k - 1] == b[i]);
                    let ds = if x.len() > 0 && is_sign(x[0]) { x.drop_first() } else { x };
                    if x.len() > 0 && is_sign(x[0]) && i - k - 1 == 0 {
                    } else if x.len() > 0 && is_sign(x[0]) {
                        assert(ds[i - k - 2] == x[i - k - 1]);
                        assert(is_digit(ds[i - k - 2]));
                    } else {
                        assert(is_digit(ds[i - k - 1]));
                    }
                }
            }
        }
    }
    assert forall|i: int| 0 <= i < t.len() implies #[trigger] plain_char(t[i]) by {
        if signed {
            if i > 0 {
                assert(t[i] == b[i - 1]);
            }
        } else {
            assert(t[i] == b[i]);
        }
    }
    lemma_plain_atom(t);
}

// ---------------------------------------------------------------------------
// The tags of the format.
// ---------------------------------------------------------------------------
/// The statement tags differ from one another.
pub proof fn lemma_stmt_tags()
    ensures
        "use"@ != "var"@,
        "use"@ != "assign"@,
        "use"@ != "return"@,
        "use"@ != "while"@,
        "use"@ != "break"@,
        "use"@ != "continue"@,
        "use"@ != "for"@,
        "use"@ != "function"@,
        "use"@ != "data"@,
        "use"@ != "enum"@,
        "use"@ != "expr"@,
        "use"@ != "pub"@,
        "var"@ != "assign"@,
        "var"@ != "return"@,
        "var"@ != "while"@,
        "var"@ != "break"@,
        "var"@ != "continue"@,
        "var"@ != "for"@,
        "var"@ != "function"@,
        "var"@ != "data"@,
        "var"@ != "enum"@,
        "var"@ != "expr"@,
        "var"@ != "pub"@,
        "assign"@ != "return"@,
        "assign"@ != "while"@,
        "assign"@ != "break"@,
        "assign"@ != "continue"@,
        "assign"@ != "for"@,
        "assign"@ != "function"@,
        "assign"@ != "data"@,
        "assign"@ != "enum"@,
        "assign"@ != "expr"@,
        "assign"@ != "pub"@,
        "return"@ != "while"@,
        "return"@ != "break"@,
        "return"@ != "continue"@,
        "return"@ != "for"@,
        "return"@ != "function"@,
        "return"@ != "data"@,
        "return"@ != "enum"@,
        "return"@ != "expr"@,
        "return"@ != "pub"@,
        "while"@ != "break"@,
        "while"@ != "continue"@,
        "while"@ != "for"@,
        "while"@ != "function"@,
        "while"@ != "data"@,
        "while"@ != "enum"@,
        "while"@ != "expr"@,
        "while"@ != "pub"@,
        "break"@ != "continue"@,
        "break"@ != "for"@,
        "break"@ != "function"@,
        "break"@ != "data"@,
        "break"@ != "enum"@,
        "break"@ != "expr"@,
        "break"@ != "pub"@,
        "continue"@ != "for"@,
        "continue"@ != "function"@,
        "continue"@ != "data"@,
        "continue"@ != "enum"@,
        "continue"@ != "expr"@,
        "continue"@ != "pub"@,
        "for"@ != "function"@,
        "for"@ != "data"@,
        "for"@ != "enum"@,
        "for"@ != "expr"@,
        "for"@ != "pub"@,
        "function"@ != "data"@,
        "function"@ != "enum"@,
        "function"@ != "expr"@,
        "function"@ != "pub"@,
        "data"@ != "enum"@,
        "data"@ != "expr"@,
        "data"@ != "pub"@,
        "enum"@ != "expr"@,
        "enum"@ != "pub"@,
        "expr"@ != "pub"@,
{
    reveal_strlit("use");
    assert("use"@ =~= seq!['u', 's', 'e']);
    reveal_strlit("var");
    assert("var"@ =~= seq!['v', 'a', 'r']);
    reveal_strlit("assign");
    assert("assign"@ =~= seq!['a', 's', 's', 'i', 'g', 'n']);
    reveal_strlit("return");
    assert("return"@ =~= seq!['r', 'e', 't', 'u', 'r', 'n']);
    reveal_strlit("while");
    assert("while"@ =~= seq!['w', 'h', 'i', 'l', 'e']);
    reveal_strlit("break");
    assert("break"@ =~= seq!['b', 'r', 'e', 'a', 'k']);
    reveal_strlit("continue");
    assert("continue"@ =~= seq!['c', 'o', 'n', 't', 'i', 'n', 'u', 'e']);
    reveal_strlit("for");
    assert("for"@ =~= seq!['f', 'o', 'r']);
    reveal_strlit("function");
    assert("function"@ =~= seq!['f', 'u', 'n', 'c', 't', 'i', 'o', 'n']);
    reveal_strlit("data");
    assert("data"@ =~= seq!['d', 'a', 't', 'a']);
    reveal_strlit("enum");
    assert("enum"@ =~= seq!['e', 'n', 'u', 'm']);
    reveal_strlit("expr");
    assert("expr"@ =~= seq!['e', 'x', 'p', 'r']);
    reveal_strlit("pub");
    assert("pub"@ =~= seq!['p', 'u', 'b']);
    assert("use"@[0] != "var"@[0]);
    assert("use"@.len() != "assign"@.len());
    assert("use"@.len() != "return"@.len());
    assert("use"@.len() != "while"@.len());
    assert("use"@.len() != "break"@.len());
    assert("use"@.len() != "continue"@.len());
    assert("use"@[0] != "for"@[0]);
    assert("use"@.len() != "function"@.len());
    assert("use"@.len() != "data"@.len());
    assert("use"@.len() != "enum"@.len());
    assert("use"@.len() != "expr"@.len());
    assert("use"@[0] != "pub"@[0]);
    assert("var"@.len() != "assign"@.len());
    assert("var"@.len() != "return"@.len());
    assert("var"@.len() != "while"@.len());
    assert("var"@.len() != "break"@.len());
    assert("var"@.len() != "continue"@.len());
    assert("var"@[0] != "for"@[0]);
    assert("var"@.len() != "function"@.len());
    assert("var"@.len() != "data"@.len());
    assert("var"@.len() != "enum"@.len());
    assert("var"@.len() != "expr"@.len());
    assert("var"@[0] != "pub"@[0]);
    assert("assign"@[0] != "return"@[0]);
    assert("assign"@.len() != "while"@.len());
    assert("assign"@.len() != "break"@.len());
    assert("assign"@.len() != "continue"@.len());
    assert("assign"@.len() != "for"@.len());
    assert("assign"@.len() != "function"@.len());
    assert("assign"@.len() != "data"@.len());
    assert("assign"@.len() != "enum"@.len());
    assert("assign"@.len() != "expr"@.len());
    assert("assign"@.len() != "pub"@.len());
    assert("return"@.len() != "while"@.len());
    assert("return"@.len() != "break"@.len());
    assert("return"@.len() != "continue"@.len());
    assert("return"@.len() != "for"@.len());
    assert("return"@.len() != "function"@.len());
    assert("return"@.len() != "data"@.len());
    assert("return"@.len() != "enum"@.len());
    assert("return"@.len() != "expr"@.len());
    assert("return"@.len() != "pub"@.len());
    assert("while"@[0] != "break"@[0]);
    assert("while"@.len() != "continue"@.len());
    assert("while"@.len() != "for"@.len());
    assert("while"@.len() != "function"@.len());
    assert("while"@.len() != "data"@.len());
    assert("while"@.len() != "enum"@.len());
    assert("while"@.len() != "expr"@.len());
    assert("while"@.len() != "pub"@.len());
    assert("break"@.len() != "continue"@.len());
    assert("break"@.len() != "for"@.len());
    assert("break"@.len() != "function"@.len());
    assert("break"@.len() != "data"@.len());
    assert("break"@.len() != "enum"@.len());
    assert("break"@.len() != "expr"@.len());
    assert("break"@.len() != "pub"@.len());
    assert("continue"@.len() != "for"@.len());
    assert("continue"@[0] != "function"@[0]);
    assert("continue"@.len() != "data"@.len());
    assert("continue"@.len() != "enum"@.len());
    assert("continue"@.len() != "expr"@.len());
    assert("continue"@.len() != "pub"@.len());
    assert("for"@.len() != "function"@.len());
    assert("for"@.len() != "data"@.len());
    assert("for"@.len() != "enum"@.len());
    assert("for"@.len() != "expr"@.len());
    assert("for"@[0] != "pub"@[0]);
    assert("function"@.len() != "data"@.len());
    assert("function"@.len() != "enum"@.len());
    assert("function"@.len() != "expr"@.len());
    assert("function"@.len() != "pub"@.len());
    assert("data"@[0] != "enum"@[0]);
    assert("data"@[0] != "expr"@[0]);
    assert("data"@.len() != "pub"@.len());
    assert("enum"@[1] != "expr"@[1]);
    assert("enum"@.len() != "pub"@.len());
    assert("expr"@.len() != "pub"@.len());
}

/// The expression tags differ from one another, and from `null`.
pub proof fn lemma_expr_tags()
    ensures
        "bool"@ != "int"@,
        "bool"@ != "float"@,
        "bool"@ != "string"@,
        "bool"@ != "ident"@,
        "bool"@ != "list"@,
        "bool"@ != "map"@,
        "bool"@ != "set"@,
        "bool"@ != "rest"@,
        "bool"@ != "unary"@,
        "bool"@ != "binary"@,
        "bool"@ != "call"@,
        "bool"@ != "member"@,
        "bool"@ != "index"@,
        "bool"@ != "propagate"@,
        "bool"@ != "lambda"@,
        "bool"@ != "if"@,
        "bool"@ != "when"@,
        "bool"@ != "null"@,
        "int"@ != "float"@,
        "int"@ != "string"@,
        "int"@ != "ident"@,
        "int"@ != "list"@,
        "int"@ != "map"@,
        "int"@ != "set"@,
        "int"@ != "rest"@,
        "int"@ != "unary"@,
        "int"@ != "binary"@,
        "int"@ != "call"@,
        "int"@ != "member"@,
        "int"@ != "index"@,
        "int"@ != "propagate"@,
        "int"@ != "lambda"@,
        "int"@ != "if"@,
        "int"@ != "when"@,
        "int"@ != "null"@,
        "float"@ != "string"@,
        "float"@ != "ident"@,
        "float"@ != "list"@,
        "float"@ != "map"@,
        "float"@ != "set"@,
        "float"@ != "rest"@,
        "float"@ != "unary"@,
        "float"@ != "binary"@,
        "float"@ != "call"@,
        "float"@ != "member"@,
        "float"@ != "index"@,
        "float"@ != "propagate"@,
        "float"@ != "lambda"@,
        "float"@ != "if"@,
        "float"@ != "when"@,
        "float"@ != "null"@,
        "string"@ != "ident"@,
        "string"@ != "list"@,
        "string"@ != "map"@,
        "string"@ != "set"@,
        "string"@ != "rest"@,
        "string"@ != "unary"@,
        "string"@ != "binary"@,
        "string"@ != "call"@,
        "string"@ != "member"@,
        "string"@ != "index"@,
        "string"@ != "propagate"@,
        "string"@ != "lambda"@,
        "string"@ != "if"@,
        "string"@ != "when"@,
        "string"@ != "null"@,
        "ident"@ != "list"@,
        "ident"@ != "map"@,
        "ident"@ != "set"@,
        "ident"@ != "rest"@,
        "ident"@ != "unary"@,
        "ident"@ != "binary"@,
        "ident"@ != "call"@,
        "ident"@ != "member"@,
        "ident"@ != "index"@,
        "ident"@ != "propagate"@,
        "ident"@ != "lambda"@,
        "ident"@ != "if"@,
        "ident"@ != "when"@,
        "ident"@ != "null"@,
        "list"@ != "map"@,
        "list"@ != "set"@,
        "list"@ != "rest"@,
        "list"@ != "unary"@,
        "list"@ != "binary"@,
        "list"@ != "call"@,
        "list"@ != "member"@,
        "list"@ != "index"@,
        "list"@ != "propagate"@,
        "list"@ != "lambda"@,
        "list"@ != "if"@,
        "list"@ != "when"@,
        "list"@ != "null"@,
        "map"@ != "set"@,
        "map"@ != "rest"@,
        "map"@ != "unary"@,
        "map"@ != "binary"@,
        "map"@ != "call"@,
        "map"@ != "member"@,
        "map"@ != "index"@,
        "map"@ != "propagate"@,
        "map"@ != "lambda"@,
        "map"@ != "if"@,
        "map"@ != "when"@,
        "map"@ != "null"@,
        "set"@ != "rest"@,
        "set"@ != "unary"@,
        "set"@ != "binary"@,
        "set"@ != "call"@,
        "set"@ != "member"@,
        "set"@ != "index"@,
        "set"@ != "propagate"@,
        "set"@ != "lambda"@,
        "set"@ != "if"@,
        "set"@ != "when"@,
        "set"@ != "null"@,
        "rest"@ != "unary"@,
        "rest"@ != "binary"@,
        "rest"@ != "call"@,
        "rest"@ != "member"@,
        "rest"@ != "index"@,
        "rest"@ != "propagate"@,
        "rest"@ != "lambda"@,
        "rest"@ != "if"@,
        "rest"@ != "when"@,
        "rest"@ != "null"@,
        "unary"@ != "binary"@,
        "unary"@ != "call"@,
        "unary"@ != "member"@,
        "unary"@ != "index"@,
        "unary"@ != "propagate"@,
        "unary"@ != "lambda"@,
        "unary"@ != "if"@,
        "unary"@ != "when"@,
        "unary"@ != "null"@,
        "binary"@ != "call"@,
        "binary"@ != "member"@,
        "binary"@ != "index"@,
        "binary"@ != "propagate"@,
        "binary"@ != "lambda"@,
        "binary"@ != "if"@,
        "binary"@ != "when"@,
        "binary"@ != "null"@,
        "call"@ != "member"@,
        "call"@ != "index"@,
        "call"@ != "propagate"@,
        "call"@ != "lambda"@,
        "call"@ != "if"@,
        "call"@ != "when"@,
        "call"@ != "null"@,
        "member"@ != "index"@,
        "member"@ != "propagate"@,
        "member"@ != "lambda"@,
        "member"@ != "if"@,
        "member"@ != "when"@,
        "member"@ != "null"@,
        "index"@ != "propagate"@,
        "index"@ != "lambda"@,
        "index"@ != "if"@,
        "index"@ != "when"@,
        "index"@ != "null"@,
        "propagate"@ != "lambda"@,
        "propagate"@ != "if"@,
        "propagate"@ != "when"@,
        "propagate"@ != "null"@,
        "lambda"@ != "if"@,
        "lambda"@ != "when"@,
        "lambda"@ != "null"@,
        "if"@ != "when"@,
        "if"@ != "null"@,
        "when"@ != "null"@,
{
    reveal_strlit("bool");
    assert("bool"@ =~= seq!['b', 'o', 'o', 'l']);
    reveal_strlit("int");
    assert("int"@ =~= seq!['i', 'n', 't']);
    reveal_strlit("float");
    assert("float"@ =~= seq!['f', 'l', 'o', 'a', 't']);
    reveal_strlit("string");
    assert("string"@ =~= seq!['s', 't', 'r', 'i', 'n', 'g']);
    reveal_strlit("ident");
    assert("ident"@ =~= seq!['i', 'd', 'e', 'n', 't']);
    reveal_strlit("list");
    assert("list"@ =~= seq!['l', 'i', 's', 't']);
    reveal_strlit("map");
    assert("map"@ =~= seq!['m', 'a', 'p']);
    reveal_strlit("set");
    assert("set"@ =~= seq!['s', 'e', 't']);
    reveal_strlit("rest");
    assert("rest"@ =~= seq!['r', 'e', 's', 't']);
    reveal_strlit("unary");
    assert("unary"@ =~= seq!['u', 'n', 'a', 'r', 'y']);
    reveal_strlit("binary");
    assert("binary"@ =~= seq!['b', 'i', 'n', 'a', 'r', 'y']);
    reveal_strlit("call");
    assert("call"@ =~= seq!['c', 'a', 'l', 'l']);
    reveal_strlit("member");
    assert("member"@ =~= seq!['m', 'e', 'm', 'b', 'e', 'r']);
    reveal_strlit("index");
    assert("index"@ =~= seq!['i', 'n', 'd', 'e', 'x']);
    reveal_strlit("propagate");
    assert("propagate"@ =~= seq!['p', 'r', 'o', 'p', 'a', 'g', 'a', 't', 'e']);
    reveal_strlit("lambda");
    assert("lambda"@ =~= seq!['l', 'a', 'm', 'b', 'd', 'a']);
    reveal_strlit("if");
    assert("if"@ =~= seq!['i', 'f']);
    reveal_strlit("when");
    assert("when"@ =~= seq!['w', 'h', 'e', 'n']);
    reveal_strlit("null");
    assert("null"@ =~= seq!['n', 'u', 'l', 'l']);
    assert("bool"@.len() != "int"@.len());
    assert("bool"@.len() != "float"@.len());
    assert("bool"@.len() != "string"@.len());
    assert("bool"@.len() != "ident"@.len());
    assert("bool"@[0] != "list"@[0]);
    assert("bool"@.len() != "map"@.len());
    assert("bool"@.len() != "set"@.len());
    assert("bool"@[0] != "rest"@[0]);
    assert("bool"@.len() != "unary"@.len());
    assert("bool"@.len() != "binary"@.len());
    assert("bool"@[0] != "call"@[0]);
    assert("bool"@.len() != "member"@.len());
    assert("bool"@.len() != "index"@.len());
    assert("bool"@.len() != "propagate"@.len());
    assert("bool"@.len() != "lambda"@.len());
    assert("bool"@.len() != "if"@.len());
    assert("bool"@[0] != "when"@[0]);
    assert("bool"@[0] != "null"@[0]);
    assert("int"@.len() != "float"@.len());
    assert("int"@.len() != "string"@.len());
    assert("int"@.len() != "ident"@.len());
    assert("int"@.len() != "list"@.len());
    assert("int"@[0] != "map"@[0]);
    assert("int"@[0] != "set"@[0]);
    assert("int"@.len() != "rest"@.len());
    assert("int"@.len() != "unary"@.len());
    assert("int"@.len() != "binary"@.len());
    assert("int"@.len() != "call"@.len());
    assert("int"@.len() != "member"@.len());
    assert("int"@.len() != "index"@.len());
    assert("int"@.len() != "propagate"@.len());
    assert("int"@.len() != "lambda"@.len());
    assert("int"@.len() != "if"@.len());
    assert("int"@.len() != "when"@.len());
    assert("int"@.len() != "null"@.len());
    assert("float"@.len() != "string"@.len());
    assert("float"@[0] != "ident"@[0]);
    assert("float"@.len() != "list"@.len());
    assert("float"@.len() != "map"@.len());
    assert("float"@.len() != "set"@.len());
    assert("float"@.len() != "rest"@.len());
    assert("float"@[0] != "unary"@[0]);
    assert("float"@.len() != "binary"@.len());
    assert("float"@.len() != "call"@.len());
    assert("float"@.len() != "member"@.len());
    assert("float"@[0] != "index"@[0]);
    assert("float"@.len() != "propagate"@.len());
    assert("float"@.len() != "lambda"@.len());
    assert("float"@.len() != "if"@.len());
    assert("float"@.len() != "when"@.len());
    assert("float"@.len() != "null"@.len());
    assert("string"@.len() != "ident"@.len());
    assert("string"@.len() != "list"@.len());
    assert("string"@.len() != "map"@.len());
    assert("string"@.len() != "set"@.len());
    assert("string"@.len() != "rest"@.len());
    assert("string"@.len() != "unary"@.len());
    assert("string"@[0] != "binary"@[0]);
    assert("string"@.len() != "call"@.len());
    assert("string"@[0] != "member"@[0]);
    assert("string"@.len() != "index"@.len());
    assert("string"@.len() != "propagate"@.len());
    assert("string"@[0] != "lambda"@[0]);
    assert("string"@.len() != "if"@.len());
    assert("string"@.len() != "when"@.len());
    assert("string"@.len() != "null"@.len());
    assert("ident"@.len() != "list"@.len());
    assert("ident"@.len() != "map"@.len());
    assert("ident"@.len() != "set"@.len());
    assert("ident"@.len() != "rest"@.len());
    assert("ident"@[0] != "unary"@[0]);
    assert("ident"@.len() != "binary"@.len());
    assert("ident"@.len() != "call"@.len());
    assert("ident"@.len() != "member"@.len());
    assert("ident"@[1] != "index"@[1]);
    assert("ident"@.len() != "propagate"@.len());
    assert("ident"@.len() != "lambda"@.len());
    assert("ident"@.len() != "if"@.len());
    assert("ident"@.len() != "when"@.len());
    assert("ident"@.len() != "null"@.len());
    assert("list"@.len() != "map"@.len());
    assert("list"@.len() != "set"@.len());
    assert("list"@[0] != "rest"@[0]);
    assert("list"@.len() != "unary"@.len());
    assert("list"@.len() != "binary"@.len());
    assert("list"@[0] != "call"@[0]);
    assert("list"@.len() != "member"@.len());
    assert("list"@.len() != "index"@.len());
    assert("list"@.len() != "propagate"@.len());
    assert("list"@.len() != "lambda"@.len());
    assert("list"@.len() != "if"@.len());
    assert("list"@[0] != "when"@[0]);
    assert("list"@[0] != "null"@[0]);
    assert("map"@[0] != "set"@[0]);
    assert("map"@.len() != "rest"@.len());
    assert("map"@.len() != "unary"@.len());
    assert("map"@.len() != "binary"@.len());
    assert("map"@.len() != "call"@.len());
    assert("map"@.len() != "member"@.len());
    assert("map"@.len() != "index"@.len());
    assert("map"@.len() != "propagate"@.len());
    assert("map"@.len() != "lambda"@.len());
    assert("map"@.len() != "if"@.len());
    assert("map"@.len() != "when"@.len());
    assert("map"@.len() != "null"@.len());
    assert("set"@.len() != "rest"@.len());
    assert("set"@.len() != "unary"@.len());
    assert("set"@.len() != "binary"@.len());
    assert("set"@.len() != "call"@.len());
    assert("set"@.len() != "member"@.len());
    assert("set"@.len() != "index"@.len());
    assert("set"@.len() != "propagate"@.len());
    assert("set"@.len() != "lambda"@.len());
    assert("set"@.len() != "if"@.len());
    assert("set"@.len() != "when"@.len());
    assert("set"@.len() != "null"@.len());
    assert("rest"@.len() != "unary"@.len());
    assert("rest"@.len() != "binary"@.len());
    assert("rest"@[0] != "call"@[0]);
    assert("rest"@.len() != "member"@.len());
    assert("rest"@.len() != "index"@.len());
    assert("rest"@.len() != "propagate"@.len());
    assert("rest"@.len() != "lambda"@.len());
    assert("rest"@.len() != "if"@.len());
    assert("rest"@[0] != "when"@[0]);
    assert("rest"@[0] != "null"@[0]);
    assert("unary"@.len() != "binary"@.len());
    assert("unary"@.len() != "call"@.len());
    assert("unary"@.len() != "member"@.len());
    assert("unary"@[0] != "index"@[0]);
    assert("unary"@.len() != "propagate"@.len());
    assert("unary"@.len() != "lambda"@.len());
    assert("unary"@.len() != "if"@.len());
    assert("unary"@.len() != "when"@.len());
    assert("unary"@.len() != "null"@.len());
    assert("binary"@.len() != "call"@.len());
    assert("binary"@[0] != "member"@[0]);
    assert("binary"@.len() != "index"@.len());
    assert("binary"@.len() != "propagate"@.len());
    assert("binary"@[0] != "lambda"@[0]);
    assert("binary"@.len() != "if"@.len());
    assert("binary"@.len() != "when"@.len());
    assert("binary"@.len() != "null"@.len());
    assert("call"@.len() != "member"@.len());
    assert("call"@.len() != "index"@.len());
    assert("call"@.len() != "propagate"@.len());
    assert("call"@.len() != "lambda"@.len());
    assert("call"@.len() != "if"@.len());
    assert("call"@[0] != "when"@[0]);
    assert("call"@[0] != "null"@[0]);
    assert("member"@.len() != "index"@.len());
    assert("member"@.len() != "propagate"@.len());
    assert("member"@[0] != "lambda"@[0]);
    assert("member"@.len() != "if"@.len());
    assert("member"@.len() != "when"@.len());
    assert("member"@.len() != "null"@.len());
    assert("index"@.len() != "propagate"@.len());
    assert("index"@.len() != "lambda"@.len());
    assert("index"@.len() != "if"@.len());
    assert("index"@.len() != "when"@.len());
    assert("index"@.len() != "null"@.len());
    assert("propagate"@.len() != "lambda"@.len());
    assert("propagate"@.len() != "if"@.len());
    assert("propagate"@.len() != "when"@.len());
    assert("propagate"@.len() != "null"@.len());
    assert("lambda"@.len() != "if"@.len());
    assert("lambda"@.len() != "when"@.len());
    assert("lambda"@.len() != "null"@.len());
    assert("if"@.len() != "when"@.len());
    assert("if"@.len() != "null"@.len());
    assert("when"@[0] != "null"@[0]);
}

/// The binary operator names differ from one another.
pub proof fn lemma_binary_names()
    ensures
        "elvis"@ != "or"@,
        "elvis"@ != "and"@,
        "elvis"@ != "equal"@,
        "elvis"@ != "not-equal"@,
        "elvis"@ != "less"@,
        "elvis"@ != "less-equal"@,
        "elvis"@ != "greater"@,
        "elvis"@ != "greater-equal"@,
        "elvis"@ != "add"@,
        "elvis"@ != "subtract"@,
        "elvis"@ != "multiply"@,
        "elvis"@ != "divide"@,
        "elvis"@ != "remainder"@,
        "or"@ != "and"@,
        "or"@ != "equal"@,
        "or"@ != "not-equal"@,
        "or"@ != "less"@,
        "or"@ != "less-equal"@,
        "or"@ != "greater"@,
        "or"@ != "greater-equal"@,
        "or"@ != "add"@,
        "or"@ != "subtract"@,
        "or"@ != "multiply"@,
        "or"@ != "divide"@,
        "or"@ != "remainder"@,
        "and"@ != "equal"@,
        "and"@ != "not-equal"@,
        "and"@ != "less"@,
        "and"@ != "less-equal"@,
        "and"@ != "greater"@,
        "and"@ != "greater-equal"@,
        "and"@ != "add"@,
        "and"@ != "subtract"@,
        "and"@ != "multiply"@,
        "and"@ != "divide"@,
        "and"@ != "remainder"@,
        "equal"@ != "not-equal"@,
        "equal"@ != "less"@,
        "equal"@ != "less-equal"@,
        "equal"@ != "greater"@,
        "equal"@ != "greater-equal"@,
        "equal"@ != "add"@,
        "equal"@ != "subtract"@,
        "equal"@ != "multiply"@,
        "equal"@ != "divide"@,
        "equal"@ != "remainder"@,
        "not-equal"@ != "less"@,
        "not-equal"@ != "less-equal"@,
        "not-equal"@ != "greater"@,
        "not-equal"@ != "greater-equal"@,
        "not-equal"@ != "add"@,
        "not-equal"@ != "subtract"@,
        "not-equal"@ != "multiply"@,
        "not-equal"@ != "divide"@,
        "not-equal"@ != "remainder"@,
        "less"@ != "less-equal"@,
        "less"@ != "greater"@,
        "less"@ != "greater-equal"@,
        "less"@ != "add"@,
        "less"@ != "subtract"@,
        "less"@ != "multiply"@,
        "less"@ != "divide"@,
        "less"@ != "remainder"@,
        "less-equal"@ != "greater"@,
        "less-equal"@ != "greater-equal"@,
        "less-equal"@ != "add"@,
        "less-equal"@ != "subtract"@,
        "less-equal"@ != "multiply"@,
        "less-equal"@ != "divide"@,
        "less-equal"@ != "remainder"@,
        "greater"@ != "greater-equal"@,
        "greater"@ != "add"@,
        "greater"@ != "subtract"@,
        "greater"@ != "multiply"@,
        "greater"@ != "divide"@,
        "greater"@ != "remainder"@,
        "greater-equal"@ != "add"@,
        "greater-equal"@ != "subtract"@,
        "greater-equal"@ != "multiply"@,
        "greater-equal"@ != "divide"@,
        "greater-equal"@ != "remainder"@,
        "add"@ != "subtract"@,
        "add"@ != "multiply"@,
        "add"@ != "divide"@,
        "add"@ != "remainder"@,
        "subtract"@ != "multiply"@,
        "subtract"@ != "divide"@,
        "subtract"@ != "remainder"@,
        "multiply"@ != "divide"@,
        "multiply"@ != "remainder"@,
        "divide"@ != "remainder"@,
{
    reveal_strlit("elvis");
    assert("elvis"@ =~= seq!['e', 'l', 'v', 'i', 's']);
    reveal_strlit("or");
    assert("or"@ =~= seq!['o', 'r']);
    reveal_strlit("and");
    assert("and"@ =~= seq!['a', 'n', 'd']);
    reveal_strlit("equal");
    assert("equal"@ =~= seq!['e', 'q', 'u', 'a', 'l']);
    reveal_strlit("not-equal");
    assert("not-equal"@ =~= seq!['n', 'o', 't', '-', 'e', 'q', 'u', 'a', 'l']);
    reveal_strlit("less");
    assert("less"@ =~= seq!['l', 'e', 's', 's']);
    reveal_strlit("less-equal");
    assert("less-equal"@ =~= seq!['l', 'e', 's', 's', '-', 'e', 'q', 'u', 'a', 'l']);
    reveal_strlit("greater");
    assert("greater"@ =~= seq!['g', 'r', 'e', 'a', 't', 'e', 'r']);
    reveal_strlit("greater-equal");
    assert("greater-equal"@ =~= seq!['g', 'r', 'e', 'a', 't', 'e', 'r', '-', 'e', 'q', 'u', 'a', 'l']);
    reveal_strlit("add");
    assert("add"@ =~= seq!['a', 'd', 'd']);
    reveal_strlit("subtract");
    assert("subtract"@ =~= seq!['s', 'u', 'b', 't', 'r', 'a', 'c', 't']);
    reveal_strlit("multiply");
    assert("multiply"@ =~= seq!['m', 'u', 'l', 't', 'i', 'p', 'l', 'y']);
    reveal_strlit("divide");
    assert("divide"@ =~= seq!['d', 'i', 'v', 'i', 'd', 'e']);
    reveal_strlit("remainder");
    assert("remainder"@ =~= seq!['r', 'e', 'm', 'a', 'i', 'n', 'd', 'e', 'r']);
    assert("elvis"@.len() != "or"@.len());
    assert("elvis"@.len() != "and"@.len());
    assert("elvis"@[1] != "equal"@[1]);
    assert("elvis"@.len() != "not-equal"@.len());
    assert("elvis"@.len() != "less"@.len());
    assert("elvis"@.len() != "less-equal"@.len());
    assert("elvis"@.len() != "greater"@.len());
    assert("elvis"@.len() != "greater-equal"@.len());
    assert("elvis"@.len() != "add"@.len());
    assert("elvis"@.len() != "subtract"@.len());
    assert("elvis"@.len() != "multiply"@.len());
    assert("elvis"@.len() != "divide"@.len());
    assert("elvis"@.len() != "remainder"@.len());
    assert("or"@.len() != "and"@.len());
    assert("or"@.len() != "equal"@.len());
    assert("or"@.len() != "not-equal"@.len());
    assert("or"@.len() != "less"@.len());
    assert("or"@.len() != "less-equal"@.len());
    assert("or"@.len() != "greater"@.len());
    assert("or"@.len() != "greater-equal"@.len());
    assert("or"@.len() != "add"@.len());
    assert("or"@.len() != "subtract"@.len());
    assert("or"@.len() != "multiply"@.len());
    assert("or"@.len() != "divide"@.len());
    assert("or"@.len() != "remainder"@.len());
    assert("and"@.len() != "equal"@.len());
    assert("and"@.len() != "not-equal"@.len());
    assert("and"@.len() != "less"@.len());
    assert("and"@.len() != "less-equal"@.len());
    assert("and"@.len() != "greater"@.len());
    assert("and"@.len() != "greater-equal"@.len());
    assert("and"@[1] != "add"@[1]);
    assert("and"@.len() != "subtract"@.len());
    assert("and"@.len() != "multiply"@.len());
    assert("and"@.len() != "divide"@.len());
    assert("and"@.len() != "remainder"@.len());
    assert("equal"@.len() != "not-equal"@.len());
    assert("equal"@.len() != "less"@.len());
    assert("equal"@.len() != "less-equal"@.len());
    assert("equal"@.len() != "greater"@.len());
    assert("equal"@.len() != "greater-equal"@.len());
    assert("equal"@.len() != "add"@.len());
    assert("equal"@.len() != "subtract"@.len());
    assert("equal"@.len() != "multiply"@.len());
    assert("equal"@.len() != "divide"@.len());
    assert("equal"@.len() != "remainder"@.len());
    assert("not-equal"@.len() != "less"@.len());
    assert("not-equal"@.len() != "less-equal"@.len());
    assert("not-equal"@.len() != "greater"@.len());
    assert("not-equal"@.len() != "greater-equal"@.len());
    assert("not-equal"@.len() != "add"@.len());
    assert("not-equal"@.len() != "subtract"@.len());
    assert("not-equal"@.len() != "multiply"@.len());
    assert("not-equal"@.len() != "divide"@.len());
    assert("not-equal"@[0] != "remainder"@[0]);
    assert("less"@.len() != "less-equal"@.len());
    assert("less"@.len() != "greater"@.len());
    assert("less"@.len() != "greater-equal"@.len());
    assert("less"@.len() != "add"@.len());
    assert("less"@.len() != "subtract"@.len());
    assert("less"@.len() != "multiply"@.len());
    assert("less"@.len() != "divide"@.len());
    assert("less"@.len() != "remainder"@.len());
    assert("less-equal"@.len() != "greater"@.len());
    assert("less-equal"@.len() != "greater-equal"@.len());
    assert("less-equal"@.len() != "add"@.len());
    assert("less-equal"@.len() != "subtract"@.len());
    assert("less-equal"@.len() != "multiply"@.len());
    assert("less-equal"@.len() != "divide"@.len());
    assert("less-equal"@.len() != "remainder"@.len());
    assert("greater"@.len() != "greater-equal"@.len());
    assert("greater"@.len() != "add"@.len());
    assert("greater"@.len() != "subtract"@.len());
    assert("greater"@.len() != "multiply"@.len());
    assert("greater"@.len() != "divide"@.len());
    assert("greater"@.len() != "remainder"@.len());
    assert("greater-equal"@.len() != "add"@.len());
    assert("greater-equal"@.len() != "subtract"@.len());
    assert("greater-equal"@.len() != "multiply"@.len());
    assert("greater-equal"@.len() != "divide"@.len());
    assert("greater-equal"@.len() != "remainder"@.len());
    assert("add"@.len() != "subtract"@.len());
    assert("add"@.len() != "multiply"@.len());
    assert("add"@.len() != "divide"@.len());
    assert("add"@.len() != "remainder"@.len());
    assert("subtract"@[0] != "multiply"@[0]);
    assert("subtract"@.len() != "divide"@.len());
    assert("subtract"@.len() != "remainder"@.len());
    assert("multiply"@.len() != "divide"@.len());
    assert("multiply"@.len() != "remainder"@.len());
    assert("divide"@.len() != "remainder"@.len());
}

/// The tags that choose between alternatives differ from one another.
pub proof fn lemma_choice_tags()
    ensures
        "none"@ != "some"@,
        "none"@ != "else-block"@,
        "none"@ != "else-if"@,
        "none"@ != "true"@,
        "none"@ != "false"@,
        "none"@ != "negate"@,
        "none"@ != "not"@,
        "none"@ != "body-expr"@,
        "none"@ != "body-block"@,
        "none"@ != "when-expr"@,
        "none"@ != "when-block"@,
        "some"@ != "else-block"@,
        "some"@ != "else-if"@,
        "some"@ != "true"@,
        "some"@ != "false"@,
        "some"@ != "negate"@,
        "some"@ != "not"@,
        "some"@ != "body-expr"@,
        "some"@ != "body-block"@,
        "some"@ != "when-expr"@,
        "some"@ != "when-block"@,
        "else-block"@ != "else-if"@,
        "else-block"@ != "true"@,
        "else-block"@ != "false"@,
        "else-block"@ != "negate"@,
        "else-block"@ != "not"@,
        "else-block"@ != "body-expr"@,
        "else-block"@ != "body-block"@,
        "else-block"@ != "when-expr"@,
        "else-block"@ != "when-block"@,
        "else-if"@ != "true"@,
        "else-if"@ != "false"@,
        "else-if"@ != "negate"@,
        "else-if"@ != "not"@,
        "else-if"@ != "body-expr"@,
        "else-if"@ != "body-block"@,
        "else-if"@ != "when-expr"@,
        "else-if"@ != "when-block"@,
        "true"@ != "false"@,
        "true"@ != "negate"@,
        "true"@ != "not"@,
        "true"@ != "body-expr"@,
        "true"@ != "body-block"@,
        "true"@ != "when-expr"@,
        "true"@ != "when-block"@,
        "false"@ != "negate"@,
        "false"@ != "not"@,
        "false"@ != "body-expr"@,
        "false"@ != "body-block"@,
        "false"@ != "when-expr"@,
        "false"@ != "when-block"@,
        "negate"@ != "not"@,
        "negate"@ != "body-expr"@,
        "negate"@ != "body-block"@,
        "negate"@ != "when-expr"@,
        "negate"@ != "when-block"@,
        "not"@ != "body-expr"@,
        "not"@ != "body-block"@,
        "not"@ != "when-expr"@,
        "not"@ != "when-block"@,
        "body-expr"@ != "body-block"@,
        "body-expr"@ != "when-expr"@,
        "body-expr"@ != "when-block"@,
        "body-block"@ != "when-expr"@,
        "body-block"@ != "when-block"@,
        "when-expr"@ != "when-block"@,
{
    reveal_strlit("none");
    assert("none"@ =~= seq!['n', 'o', 'n', 'e']);
    reveal_strlit("some");
    assert("some"@ =~= seq!['s', 'o', 'm', 'e']);
    reveal_strlit("else-block");
    assert("else-block"@ =~= seq!['e', 'l', 's', 'e', '-', 'b', 'l', 'o', 'c', 'k']);
    reveal_strlit("else-if");
    assert("else-if"@ =~= seq!['e', 'l', 's', 'e', '-', 'i', 'f']);
    reveal_strlit("true");
    assert("true"@ =~= seq!['t', 'r', 'u', 'e']);
    reveal_strlit("false");
    assert("false"@ =~= seq!['f', 'a', 'l', 's', 'e']);
    reveal_strlit("negate");
    assert("negate"@ =~= seq!['n', 'e', 'g', 'a', 't', 'e']);
    reveal_strlit("not");
    assert("not"@ =~= seq!['n', 'o', 't']);
    reveal_strlit("body-expr");
    assert("body-expr"@ =~= seq!['b', 'o', 'd', 'y', '-', 'e', 'x', 'p', 'r']);
    reveal_strlit("body-block");
    assert("body-block"@ =~= seq!['b', 'o', 'd', 'y', '-', 'b', 'l', 'o', 'c', 'k']);
    reveal_strlit("when-expr");
    assert("when-expr"@ =~= seq!['w', 'h', 'e', 'n', '-', 'e', 'x', 'p', 'r']);
    reveal_strlit("when-block");
    assert("when-block"@ =~= seq!['w', 'h', 'e', 'n', '-', 'b', 'l', 'o', 'c', 'k']);
    assert("none"@[0] != "some"@[0]);
    assert("none"@.len() != "else-block"@.len());
    assert("none"@.len() != "else-if"@.len());
    assert("none"@[0] != "true"@[0]);
    assert("none"@.len() != "false"@.len());
    assert("none"@.len() != "negate"@.len());
    assert("none"@.len() != "not"@.len());
    assert("none"@.len() != "body-expr"@.len());
    assert("none"@.len() != "body-block"@.len());
    assert("none"@.len() != "when-expr"@.len());
    assert("none"@.len() != "when-block"@.len());
    assert("some"@.len() != "else-block"@.len());
    assert("some"@.len() != "else-if"@.len());
    assert("some"@[0] != "true"@[0]);
    assert("some"@.len() != "false"@.len());
    assert("some"@.len() != "negate"@.len());
    assert("some"@.len() != "not"@.len());
    assert("some"@.len() != "body-expr"@.len());
    assert("some"@.len() != "body-block"@.len());
    assert("some"@.len() != "when-expr"@.len());
    assert("some"@.len() != "when-block"@.len());
    assert("else-block"@.len() != "else-if"@.len());
    assert("else-block"@.len() != "true"@.len());
    assert("else-block"@.len() != "false"@.len());
    assert("else-block"@.len() != "negate"@.len());
    assert("else-block"@.len() != "not"@.len());
    assert("else-block"@.len() != "body-expr"@.len());
    assert("else-block"@[0] != "body-block"@[0]);
    assert("else-block"@.len() != "when-expr"@.len());
    assert("else-block"@[0] != "when-block"@[0]);
    assert("else-if"@.len() != "true"@.len());
    assert("else-if"@.len() != "false"@.len());
    assert("else-if"@.len() != "negate"@.len());
    assert("else-if"@.len() != "not"@.len());
    assert("else-if"@.len() != "body-expr"@.len());
    assert("else-if"@.len() != "body-block"@.len());
    assert("else-if"@.len() != "when-expr"@.len());
    assert("else-if"@.len() != "when-block"@.len());
    assert("true"@.len() != "false"@.len());
    assert("true"@.len() != "negate"@.len());
    assert("true"@.len() != "not"@.len());
    assert("true"@.len() != "body-expr"@.len());
    assert("true"@.len() != "body-block"@.len());
    assert("true"@.len() != "when-expr"@.len());
    assert("true"@.len() != "when-block"@.len());
    assert("false"@.len() != "negate"@.len());
    assert("false"@.len() != "not"@.len());
    assert("false"@.len() != "body-expr"@.len());
    assert("false"@.len() != "body-block"@.len());
    assert("false"@.len() != "when-expr"@.len());
    assert("false"@.len() != "when-block"@.len());
    assert("negate"@.len() != "not"@.len());
    assert("negate"@.len() != "body-expr"@.len());
    assert("negate"@.len() != "body-block"@.len());
    assert("negate"@.len() != "when-expr"@.len());
    assert("negate"@.len() != "when-block"@.len());
    assert("not"@.len() != "body-expr"@.len());
    assert("not"@.len() != "body-block"@.len());
    assert("not"@.len() != "when-expr"@.len());
    assert("not"@.len() != "when-block"@.len());
    assert("body-expr"@.len() != "body-block"@.len());
    assert("body-expr"@[0] != "when-expr"@[0]);
    assert("body-expr"@.len() != "when-block"@.len());
    assert("body-block"@.len() != "when-expr"@.len());
    assert("body-block"@[0] != "when-block"@[0]);
    assert("when-expr"@.len() != "when-block"@.len());
}

/// The tags and fixed atoms of the format.
pub open spec fn is_tag(t: Seq<char>) -> bool {
    ||| t == "program"@
    ||| t == "use"@
    ||| t == "var"@
    ||| t == "assign"@
    ||| t == "return"@
    ||| t == "while"@
    ||| t == "break"@
    ||| t == "continue"@
    ||| t == "for"@
    ||| t == "function"@
    ||| t == "data"@
    ||| t == "enum"@
    ||| t == "variants"@
    ||| t == "variant"@
    ||| t == "expr"@
    ||| t == "pub"@
    ||| t == "block"@
    ||| t == "params"@
    ||| t == "param"@
    ||| t == "computed"@
    ||| t == "field"@
    ||| t == "body-expr"@
    ||| t == "body-block"@
    ||| t == "null"@
    ||| t == "bool"@
    ||| t == "int"@
    ||| t == "float"@
    ||| t == "string"@
    ||| t == "ident"@
    ||| t == "list"@
    ||| t == "map"@
    ||| t == "entry"@
    ||| t == "set"@
    ||| t == "rest"@
    ||| t == "unary"@
    ||| t == "binary"@
    ||| t == "call"@
    ||| t == "args"@
    ||| t == "member"@
    ||| t == "index"@
    ||| t == "propagate"@
    ||| t == "lambda"@
    ||| t == "if"@
    ||| t == "when"@
    ||| t == "cases"@
    ||| t == "none"@
    ||| t == "else-block"@
    ||| t == "else-if"@
    ||| t == "case"@
    ||| t == "patterns"@
    ||| t == "when-expr"@
    ||| t == "when-block"@
    ||| t == "some"@
    ||| t == "true"@
    ||| t == "false"@
    ||| t == "negate"@
    ||| t == "not"@
    ||| t == "elvis"@
    ||| t == "or"@
    ||| t == "and"@
    ||| t == "equal"@
    ||| t == "not-equal"@
    ||| t == "less"@
    ||| t == "less-equal"@
    ||| t == "greater"@
    ||| t == "greater-equal"@
    ||| t == "add"@
    ||| t == "subtract"@
    ||| t == "multiply"@
    ||| t == "divide"@
    ||| t == "remainder"@
}

/// Every tag of the format is an atom.
pub proof fn lemma_tag_atom(t: Seq<char>)
    requires
        is_tag(t),
    ensures
        atom_safe(t),
{
    if t == "program"@ {
        reveal_strlit("program");
        assert("program"@ =~= seq!['p', 'r', 'o', 'g', 'r', 'a', 'm']);
        lemma_word_atom(t);
    }
    if t == "use"@ {
        reveal_strlit("use");
        assert("use"@ =~= seq!['u', 's', 'e']);
        lemma_word_atom(t);
    }
    if t == "var"@ {
        reveal_strlit("var");
        assert("var"@ =~= seq!['v', 'a', 'r']);
        lemma_word_atom(t);
    }
    if t == "assign"@ {
        reveal_strlit("assign");
        assert("assign"@ =~= seq!['a', 's', 's', 'i', 'g', 'n']);
        lemma_word_atom(t);
    }
    if t == "return"@ {
        reveal_strlit("return");
        assert("return"@ =~= seq!['r', 'e', 't', 'u', 'r', 'n']);
        lemma_word_atom(t);
    }
    if t == "while"@ {
        reveal_strlit("while");
        assert("while"@ =~= seq!['w', 'h', 'i', 'l', 'e']);
        lemma_word_atom(t);
    }
    if t == "break"@ {
        reveal_strlit("break");
        assert("break"@ =~= seq!['b', 'r', 'e', 'a', 'k']);
        lemma_word_atom(t);
    }
    if t == "continue"@ {
        reveal_strlit("continue");
        assert("continue"@ =~= seq!['c', 'o', 'n', 't', 'i', 'n', 'u', 'e']);
        lemma_word_atom(t);
    }
    if t == "for"@ {
        reveal_strlit("for");
        assert("for"@ =~= seq!['f', 'o', 'r']);
        lemma_word_atom(t);
    }
    if t == "function"@ {
        reveal_strlit("function");
        assert("function"@ =~= seq!['f', 'u', 'n', 'c', 't', 'i', 'o', 'n']);
        lemma_word_atom(t);
    }
    if t == "data"@ {
        reveal_strlit("data");
        assert("data"@ =~= seq!['d', 'a', 't', 'a']);
        lemma_word_atom(t);
    }
    if t == "enum"@ {
        reveal_strlit("enum");
        assert("enum"@ =~= seq!['e', 'n', 'u', 'm']);
        lemma_word_atom(t);
    }
    if t == "variants"@ {
        reveal_strlit("variants");
        assert("variants"@ =~= seq!['v', 'a', 'r', 'i', 'a', 'n', 't', 's']);
        lemma_word_atom(t);
    }
    if t == "variant"@ {
        reveal_strlit("variant");
        assert("variant"@ =~= seq!['v', 'a', 'r', 'i', 'a', 'n', 't']);
        lemma_word_atom(t);
    }
    if t == "expr"@ {
        reveal_strlit("expr");
        assert("expr"@ =~= seq!['e', 'x', 'p', 'r']);
        lemma_word_atom(t);
    }
    if t == "pub"@ {
        reveal_strlit("pub");
        assert("pub"@ =~= seq!['p', 'u', 'b']);
        lemma_word_atom(t);
    }
    if t == "block"@ {
        reveal_strlit("block");
        assert("block"@ =~= seq!['b', 'l', 'o', 'c', 'k']);
        lemma_word_atom(t);
    }
    if t == "params"@ {
        reveal_strlit("params");
        assert("params"@ =~= seq!['p', 'a', 'r', 'a', 'm', 's']);
        lemma_word_atom(t);
    }
    if t == "param"@ {
        reveal_strlit("param");
        assert("param"@ =~= seq!['p', 'a', 'r', 'a', 'm']);
        lemma_word_atom(t);
    }
    if t == "computed"@ {
        reveal_strlit("computed");
        assert("computed"@ =~= seq!['c', 'o', 'm', 'p', 'u', 't', 'e', 'd']);
        lemma_word_atom(t);
    }
    if t == "field"@ {
        reveal_strlit("field");
        assert("field"@ =~= seq!['f', 'i', 'e', 'l', 'd']);
        lemma_word_atom(t);
    }
    if t == "body-expr"@ {
        reveal_strlit("body-expr");
        assert("body-expr"@ =~= seq!['b', 'o', 'd', 'y', '-', 'e', 'x', 'p', 'r']);
        lemma_word_atom(t);
    }
    if t == "body-block"@ {
        reveal_strlit("body-block");
        assert("body-block"@ =~= seq!['b', 'o', 'd', 'y', '-', 'b', 'l', 'o', 'c', 'k']);
        lemma_word_atom(t);
    }
    if t == "null"@ {
        reveal_strlit("null");
        assert("null"@ =~= seq!['n', 'u', 'l', 'l']);
        lemma_word_atom(t);
    }
    if t == "bool"@ {
        reveal_strlit("bool");
        assert("bool"@ =~= seq!['b', 'o', 'o', 'l']);
        lemma_word_atom(t);
    }
    if t == "int"@ {
        reveal_strlit("int");
        assert("int"@ =~= seq!['i', 'n', 't']);
        lemma_word_atom(t);
    }
    if t == "float"@ {
        reveal_strlit("float");
        assert("float"@ =~= seq!['f', 'l', 'o', 'a', 't']);
        lemma_word_atom(t);
    }
    if t == "string"@ {
        reveal_strlit("string");
        assert("string"@ =~= seq!['s', 't', 'r', 'i', 'n', 'g']);
        lemma_word_atom(t);
    }
    if t == "ident"@ {
        reveal_strlit("ident");
        assert("ident"@ =~= seq!['i', 'd', 'e', 'n', 't']);
        lemma_word_atom(t);
    }
    if t == "list"@ {
        reveal_strlit("list");
        assert("list"@ =~= seq!['l', 'i', 's', 't']);
        lemma_word_atom(t);
    }
    if t == "map"@ {
        reveal_strlit("map");
        assert("map"@ =~= seq!['m', 'a', 'p']);
        lemma_word_atom(t);
    }
    if t == "entry"@ {
        reveal_strlit("entry");
        assert("entry"@ =~= seq!['e', 'n', 't', 'r', 'y']);
        lemma_word_atom(t);
    }
    if t == "set"@ {
        reveal_strlit("set");
        assert("set"@ =~= seq!['s', 'e', 't']);
        lemma_word_atom(t);
    }
    if t == "rest"@ {
        reveal_strlit("rest");
        assert("rest"@ =~= seq!['r', 'e', 's', 't']);
        lemma_word_atom(t);
    }
    if t == "unary"@ {
        reveal_strlit("unary");
        assert("unary"@ =~= seq!['u', 'n', 'a', 'r', 'y']);
        lemma_word_atom(t);
    }
    if t == "binary"@ {
        reveal_strlit("binary");
        assert("binary"@ =~= seq!['b', 'i', 'n', 'a', 'r', 'y']);
        lemma_word_atom(t);
    }
    if t == "call"@ {
        reveal_strlit("call");
        assert("call"@ =~= seq!['c', 'a', 'l', 'l']);
        lemma_word_atom(t);
    }
    if t == "args"@ {
        reveal_strlit("args");
        assert("args"@ =~= seq!['a', 'r', 'g', 's']);
        lemma_word_atom(t);
    }
    if t == "member"@ {
        reveal_strlit("member");
        assert("member"@ =~= seq!['m', 'e', 'm', 'b', 'e', 'r']);
        lemma_word_atom(t);
    }
    if t == "index"@ {
        reveal_strlit("index");
        assert("index"@ =~= seq!['i', 'n', 'd', 'e', 'x']);
        lemma_word_atom(t);
    }
    if t == "propagate"@ {
        reveal_strlit("propagate");
        assert("propagate"@ =~= seq!['p', 'r', 'o', 'p', 'a', 'g', 'a', 't', 'e']);
        lemma_word_atom(t);
    }
    if t == "lambda"@ {
        reveal_strlit("lambda");
        assert("lambda"@ =~= seq!['l', 'a', 'm', 'b', 'd', 'a']);
        lemma_word_atom(t);
    }
    if t == "if"@ {
        reveal_strlit("if");
        assert("if"@ =~= seq!['i', 'f']);
        lemma_word_atom(t);
    }
    if t == "when"@ {
        reveal_strlit("when");
        assert("when"@ =~= seq!['w', 'h', 'e', 'n']);
        lemma_word_atom(t);
    }
    if t == "cases"@ {
        reveal_strlit("cases");
        assert("cases"@ =~= seq!['c', 'a', 's', 'e', 's']);
        lemma_word_atom(t);
    }
    if t == "none"@ {
        reveal_strlit("none");
        assert("none"@ =~= seq!['n', 'o', 'n', 'e']);
        lemma_word_atom(t);
    }
    if t == "else-block"@ {
        reveal_strlit("else-block");
        assert("else-block"@ =~= seq!['e', 'l', 's', 'e', '-', 'b', 'l', 'o', 'c', 'k']);
        lemma_word_atom(t);
    }
    if t == "else-if"@ {
        reveal_strlit("else-if");
        assert("else-if"@ =~= seq!['e', 'l', 's', 'e', '-', 'i', 'f']);
        lemma_word_atom(t);
    }
    if t == "case"@ {
        reveal_strlit("case");
        assert("case"@ =~= seq!['c', 'a', 's', 'e']);
        lemma_word_atom(t);
    }
    if t == "patterns"@ {
        reveal_strlit("patterns");
        assert("patterns"@ =~= seq!['p', 'a', 't', 't', 'e', 'r', 'n', 's']);
        lemma_word_atom(t);
    }
    if t == "when-expr"@ {
        reveal_strlit("when-expr");
        assert("when-expr"@ =~= seq!['w', 'h', 'e', 'n', '-', 'e', 'x', 'p', 'r']);
        lemma_word_atom(t);
    }
    if t == "when-block"@ {
        reveal_strlit("when-block");
        assert("when-block"@ =~= seq!['w', 'h', 'e', 'n', '-', 'b', 'l', 'o', 'c', 'k']);
        lemma_word_atom(t);
    }
    if t == "some"@ {
        reveal_strlit("some");
        assert("some"@ =~= seq!['s', 'o', 'm', 'e']);
        lemma_word_atom(t);
    }
    if t == "true"@ {
        reveal_strlit("true");
        assert("true"@ =~= seq!['t', 'r', 'u', 'e']);
        lemma_word_atom(t);
    }
    if t == "false"@ {
        reveal_strlit("false");
        assert("false"@ =~= seq!['f', 'a', 'l', 's', 'e']);
        lemma_word_atom(t);
    }
    if t == "negate"@ {
        reveal_strlit("negate");
        assert("negate"@ =~= seq!['n', 'e', 'g', 'a', 't', 'e']);
        lemma_word_atom(t);
    }
    if t == "not"@ {
        reveal_strlit("not");
        assert("not"@ =~= seq!['n', 'o', 't']);
        lemma_word_atom(t);
    }
    if t == "elvis"@ {
        reveal_strlit("elvis");
        assert("elvis"@ =~= seq!['e', 'l', 'v', 'i', 's']);
        lemma_word_atom(t);
    }
    if t == "or"@ {
        reveal_strlit("or");
        assert("or"@ =~= seq!['o', 'r']);
        lemma_word_atom(t);
    }
    if t == "and"@ {
        reveal_strlit("and");
        assert("and"@ =~= seq!['a', 'n', 'd']);
        lemma_word_atom(t);
    }
    if t == "equal"@ {
        reveal_strlit("equal");
        assert("equal"@ =~= seq!['e', 'q', 'u', 'a', 'l']);
        lemma_word_atom(t);
    }
    if t == "not-equal"@ {
        reveal_strlit("not-equal");
        assert("not-equal"@ =~= seq!['n', 'o', 't', '-', 'e', 'q', 'u', 'a', 'l']);
        lemma_word_atom(t);
    }
    if t == "less"@ {
        reveal_strlit("less");
        assert("less"@ =~= seq!['l', 'e', 's', 's']);
        lemma_word_atom(t);
    }
    if t == "less-equal"@ {
        reveal_strlit("less-equal");
        assert("less-equal"@ =~= seq!['l', 'e', 's', 's', '-', 'e', 'q', 'u', 'a', 'l']);
        lemma_word_atom(t);
    }
    if t == "greater"@ {
        reveal_strlit("greater");
        assert("greater"@ =~= seq!['g', 'r', 'e', 'a', 't', 'e', 'r']);
        lemma_word_atom(t);
    }
    if t == "greater-equal"@ {
        reveal_strlit("greater-equal");
        assert("greater-equal"@ =~= seq!['g', 'r', 'e', 'a', 't', 'e', 'r', '-', 'e', 'q', 'u', 'a', 'l']);
        lemma_word_atom(t);
    }
    if t == "add"@ {
        reveal_strlit("add");
        assert("add"@ =~= seq!['a', 'd', 'd']);
        lemma_word_atom(t);
    }
    if t == "subtract"@ {
        reveal_strlit("subtract");
        assert("subtract"@ =~= seq!['s', 'u', 'b', 't', 'r', 'a', 'c', 't']);
        lemma_word_atom(t);
    }
    if t == "multiply"@ {
        reveal_strlit("multiply");
        assert("multiply"@ =~= seq!['m', 'u', 'l', 't', 'i', 'p', 'l', 'y']);
        lemma_word_atom(t);
    }
    if t == "divide"@ {
        reveal_strlit("divide");
        assert("divide"@ =~= seq!['d', 'i', 'v', 'i', 'd', 'e']);
        lemma_word_atom(t);
    }
    if t == "remainder"@ {
        reveal_strlit("remainder");
        assert("remainder"@ =~= seq!['r', 'e', 'm', 'a', 'i', 'n', 'd', 'e', 'r']);
        lemma_word_atom(t);
    }
}

// ---------------------------------------------------------------------------
// Node forms.
// ---------------------------------------------------------------------------
pub proof fn lemma_node(t: Seq<char>, fs: Seq<FormV>)
    ensures
        node(t, fs) is List,
        node(t, fs)->List_0.len() == fs.len() + 1,
        node(t, fs)->List_0[0] == FormV::Atom(t),
        forall|i: int| 1 <= i <= fs.len() ==> #[trigger] node(t, fs)->List_0[i] == fs[i - 1],
        node(t, fs)->List_0.subrange(1, fs.len() as int + 1) == fs,
{
    let l = seq![FormV::Atom(t)] + fs;
    assert(l.subrange(1, fs.len() as int + 1) =~= fs);
}

proof fn lemma_wf_forms_all(l: Seq<FormV>)
    requires
        forall|i: int| 0 <= i < l.len() ==> #[trigger] wf_form(l[i]),
    ensures
        wf_forms(l),
    decreases l.len(),
{
    if l.len() > 0 {
        assert forall|i: int| 0 <= i < l.drop_first().len() implies #[trigger] wf_form(
            l.drop_first()[i],
        ) by {
            assert(l.drop_first()[i] == l[i + 1]);
        }
        lemma_wf_forms_all(l.drop_first());
        assert(wf_form(l[0]));
    }
}

pub proof fn lemma_node_wf(t: Seq<char>, fs: Seq<FormV>)
    requires
        atom_safe(t),
        forall|i: int| 0 <= i < fs.len() ==> #[trigger] wf_form(fs[i]),
    ensures
        wf_form(node(t, fs)),
{
    lemma_node(t, fs);
    let l = seq![FormV::Atom(t)] + fs;
    assert forall|i: int| 0 <= i < l.len() implies #[trigger] wf_form(l[i]) by {
        if i > 0 {
            assert(l[i] == fs[i - 1]);
        }
    }
    lemma_wf_forms_all(l);
}

/// A form made of the atom `t` and then `fs` both decodes as the node and is
/// well formed.
proof fn lemma_node_all(t: Seq<char>, fs: Seq<FormV>)
    requires
        is_tag(t),
        forall|i: int| 0 <= i < fs.len() ==> #[trigger] wf_form(fs[i]),
    ensures
        node(t, fs) is List,
        node(t, fs)->List_0.len() == fs.len() + 1,
        node(t, fs)->List_0[0] == FormV::Atom(t),
        forall|i: int| 1 <= i <= fs.len() ==> #[trigger] node(t, fs)->List_0[i] == fs[i - 1],
        node(t, fs)->List_0.subrange(1, fs.len() as int + 1) == fs,
        wf_form(node(t, fs)),
{
    lemma_tag_atom(t);
    lemma_node(t, fs);
    lemma_node_wf(t, fs);
}

// ---------------------------------------------------------------------------
// Leaves.
// ---------------------------------------------------------------------------
pub proof fn lemma_rt_opt_string(o: Option<Seq<char>>)
    ensures
        dec_opt_string(opt_string_form(o)) == Ok::<Option<Seq<char>>, Seq<char>>(o),
        wf_form(opt_string_form(o)),
{
    lemma_choice_tags();
    match o {
        Some(s) => lemma_node_all("some"@, seq![FormV::Str(s)]),
        None => lemma_node_all("none"@, Seq::empty()),
    }
}

pub proof fn lemma_rt_flag(b: bool, prefix: Seq<char>)
    ensures
        dec_flag(flag_form(b), prefix) == Ok::<bool, Seq<char>>(b),
        wf_form(flag_form(b)),
{
    lemma_choice_tags();
    lemma_tag_atom("true"@);
    lemma_tag_atom("false"@);
}

pub proof fn lemma_rt_param(p: ParamV)
    ensures
        dec_param(param_form(p)) == Ok::<ParamV, Seq<char>>(p),
        wf_form(param_form(p)),
{
    lemma_rt_opt_string(p.type_annotation);
    lemma_node_all("param"@, seq![FormV::Str(p.name), opt_string_form(p.type_annotation)]);
}

pub proof fn lemma_rt_param_list(ps: Seq<ParamV>)
    ensures
        dec_param_list(param_forms(ps)) == Ok::<Seq<ParamV>, Seq<char>>(ps),
        forall|i: int| 0 <= i < ps.len() ==> #[trigger] wf_form(param_forms(ps)[i]),
    decreases ps.len(),
{
    let fs = param_forms(ps);
    if ps.len() == 0 {
        assert(ps =~= Seq::<ParamV>::empty());
    } else {
        let rest = ps.subrange(1, ps.len() as int);
        lemma_rt_param(ps[0]);
        lemma_rt_param_list(rest);
        assert(fs.subrange(1, fs.len() as int) =~= param_forms(rest));
        assert(seq![ps[0]] + rest =~= ps);
        assert forall|i: int| 0 <= i < ps.len() implies #[trigger] wf_form(fs[i]) by {
            lemma_rt_param(ps[i]);
        }
    }
}

pub proof fn lemma_rt_params(ps: Seq<ParamV>)
    ensures
        dec_params(params_form(ps)) == Ok::<Seq<ParamV>, Seq<char>>(ps),
        wf_form(params_form(ps)),
{
    lemma_rt_param_list(ps);
    lemma_node_all("params"@, param_forms(ps));
}

pub proof fn lemma_rt_variant(v: VariantV)
    ensures
        dec_variant(variant_form(v)) == Ok::<VariantV, Seq<char>>(v),
        wf_form(variant_form(v)),
{
    lemma_rt_params(v.params);
    lemma_node_all("variant"@, seq![FormV::Str(v.name), params_form(v.params)]);
}

pub proof fn lemma_rt_variant_list(vs: Seq<VariantV>)
    ensures
        dec_variant_list(variant_forms(vs)) == Ok::<Seq<VariantV>, Seq<char>>(vs),
        forall|i: int| 0 <= i < vs.len() ==> #[trigger] wf_form(variant_forms(vs)[i]),
    decreases vs.len(),
{
    let fs = variant_forms(vs);
    if vs.len() == 0 {
        assert(vs =~= Seq::<VariantV>::empty());
    } else {
        let rest = vs.subrange(1, vs.len() as int);
        lemma_rt_variant(vs[0]);
        lemma_rt_variant_list(rest);
        assert(fs.subrange(1, fs.len() as int) =~= variant_forms(rest));
        assert(seq![vs[0]] + rest =~= vs);
        assert forall|i: int| 0 <= i < vs.len() implies #[trigger] wf_form(fs[i]) by {
            lemma_rt_variant(vs[i]);
        }
    }
}

pub proof fn lemma_rt_variants(vs: Seq<VariantV>)
    ensures
        dec_variants(variants_form(vs)) == Ok::<Seq<VariantV>, Seq<char>>(vs),
        wf_form(variants_form(vs)),
{
    lemma_rt_variant_list(vs);
    lemma_node_all("variants"@, variant_forms(vs));
}

pub proof fn lemma_rt_strs(path: Seq<Seq<char>>)
    ensures
        dec_strs(str_forms(path)) == Ok::<Seq<Seq<char>>, Seq<char>>(path),
        forall|i: int| 0 <= i < path.len() ==> #[trigger] wf_form(str_forms(path)[i]),
    decreases path.len(),
{
    let fs = str_forms(path);
    if path.len() == 0 {
        assert(path =~= Seq::<Seq<char>>::empty());
    } else {
        let rest = path.subrange(1, path.len() as int);
        lemma_rt_strs(rest);
        assert(fs.subrange(1, fs.len() as int) =~= str_forms(rest));
        assert(seq![path[0]] + rest =~= path);
    }
}

/// Decoding the name of a unary operator gives that operator back.
pub proof fn lemma_rt_unary(op: UnaryOp)
    ensures
        crate::artifact::dec_unary_op(FormV::Atom(unary_name(op))) == Ok::<UnaryOp, Seq<char>>(op),
        atom_safe(unary_name(op)),
{
    lemma_choice_tags();
    lemma_tag_atom(unary_name(op));
}

/// Decoding the name of a binary operator gives that operator back.
pub proof fn lemma_rt_binary(op: BinaryOp)
    ensures
        crate::artifact::dec_binary_op(FormV::Atom(binary_name(op))) == Ok::<BinaryOp, Seq<char>>(op),
        atom_safe(binary_name(op)),
{
    lemma_binary_names();
    lemma_tag_atom(binary_name(op));
}


/// Operator names in artifacts: decoding the name of an operator gives that
/// operator back, and an atom that names no operator is refused as unknown.
pub proof fn lemma_operator_names(u: UnaryOp, b: BinaryOp, a: Seq<char>)
    ensures
        crate::artifact::dec_unary_op(FormV::Atom(unary_name(u))) == Ok::<UnaryOp, Seq<char>>(u),
        crate::artifact::dec_binary_op(FormV::Atom(binary_name(b))) == Ok::<BinaryOp, Seq<char>>(b),
        (forall|o: UnaryOp| #[trigger] unary_name(o) != a) ==> crate::artifact::dec_unary_op(
            FormV::Atom(a),
        ) == Err::<UnaryOp, Seq<char>>(crate::artifact::quoted_msg("unknown unary operator '"@, a)),
        (forall|o: BinaryOp| #[trigger] binary_name(o) != a) ==> crate::artifact::dec_binary_op(
            FormV::Atom(a),
        ) == Err::<BinaryOp, Seq<char>>(crate::artifact::quoted_msg("unknown binary operator '"@, a)),
{
    lemma_rt_unary(u);
    lemma_rt_binary(b);
    if forall|o: UnaryOp| #[trigger] unary_name(o) != a {
        assert(unary_name(UnaryOp::Negate) != a);
        assert(unary_name(UnaryOp::Not) != a);
    }
    if forall|o: BinaryOp| #[trigger] binary_name(o) != a {
        assert(binary_name(BinaryOp::Elvis) != a);
        assert(binary_name(BinaryOp::Or) != a);
        assert(binary_name(BinaryOp::And) != a);
        assert(binary_name(BinaryOp::Equal) != a);
        assert(binary_name(BinaryOp::NotEqual) != a);
        assert(binary_name(BinaryOp::Less) != a);
        assert(binary_name(BinaryOp::LessEqual) != a);
        assert(binary_name(BinaryOp::Greater) != a);
        assert(binary_name(BinaryOp::GreaterEqual) != a);
        assert(binary_name(BinaryOp::Add) != a);
        assert(binary_name(BinaryOp::Subtract) != a);
        assert(binary_name(BinaryOp::Multiply) != a);
        assert(binary_name(BinaryOp::Divide) != a);
        assert(binary_name(BinaryOp::Remainder) != a);
    }
}

/// The atom that names a node: the first item of a list form.
pub open spec fn form_tag(f: FormV) -> Option<Seq<char>> {
    match f {
        FormV::List(items) => if items.len() > 0 && items[0] is Atom {
            Some(items[0]->Atom_0)
        } else {
            None
        },
        _ => None,
    }
}

/// The VELRA-AST-1 name of each kind of node: every statement, expression
/// and program is written as a list led by the fixed atom of its kind (the
/// `null` literal as the bare atom `null`).
pub proof fn lemma_node_tags(s: StmtV, e: ExprV, b: BlockV, p: ProgramV)
    ensures
        form_tag(program_form(p)) == Some("program"@),
        form_tag(block_form(b)) == Some("block"@),
        e is Null ==> expr_form(e) == FormV::Atom("null"@),
        e is Bool ==> form_tag(expr_form(e)) == Some("bool"@),
        e is Int ==> form_tag(expr_form(e)) == Some("int"@),
        e is Float ==> form_tag(expr_form(e)) == Some("float"@),
        e is Str ==> form_tag(expr_form(e)) == Some("string"@),
        e is Ident ==> form_tag(expr_form(e)) == Some("ident"@),
        e is List ==> form_tag(expr_form(e)) == Some("list"@),
        e is MapLiteral ==> form_tag(expr_form(e)) == Some("map"@),
        e is SetLiteral ==> form_tag(expr_form(e)) == Some("set"@),
        e is Rest ==> form_tag(expr_form(e)) == Some("rest"@),
        e is Unary ==> form_tag(expr_form(e)) == Some("unary"@),
        e is Binary ==> form_tag(expr_form(e)) == Some("binary"@),
        e is Call ==> form_tag(expr_form(e)) == Some("call"@),
        e is Member ==> form_tag(expr_form(e)) == Some("member"@),
        e is Index ==> form_tag(expr_form(e)) == Some("index"@),
        e is Propagate ==> form_tag(expr_form(e)) == Some("propagate"@),
        e is Lambda ==> form_tag(expr_form(e)) == Some("lambda"@),
        e is If ==> form_tag(expr_form(e)) == Some("if"@),
        e is When ==> form_tag(expr_form(e)) == Some("when"@),
        s is Use ==> form_tag(stmt_form(s)) == Some("use"@),
        s is Var ==> form_tag(stmt_form(s)) == Some("var"@),
        s is Assign ==> form_tag(stmt_form(s)) == Some("assign"@),
        s is Return ==> form_tag(stmt_form(s)) == Some("return"@),
        s is While ==> form_tag(stmt_form(s)) == Some("while"@),
        s is Break ==> form_tag(stmt_form(s)) == Some("break"@),
        s is Continue ==> form_tag(stmt_form(s)) == Some("continue"@),
        s is For ==> form_tag(stmt_form(s)) == Some("for"@),
        s is Function ==> form_tag(stmt_form(s)) == Some("function"@),
        s is Data ==> form_tag(stmt_form(s)) == Some("data"@),
        s is Enum ==> form_tag(stmt_form(s)) == Some("enum"@),
        s is Expr ==> form_tag(stmt_form(s)) == Some("expr"@),
        s is Pub ==> form_tag(stmt_form(s)) == Some("pub"@),
{
}

/// The VELRA-AST-1 spelling of each operator, as the format fixes it: the
/// writer names each operator so, the reader maps each of these names back
/// to its operator, and a binary node holds the operator's name before its
/// two operands.
pub proof fn lemma_operator_spellings(left: ExprV, op: BinaryOp, right: ExprV)
    ensures
        unary_name(UnaryOp::Negate) == "negate"@,
        unary_name(UnaryOp::Not) == "not"@,
        binary_name(BinaryOp::Elvis) == "elvis"@,
        binary_name(BinaryOp::Or) == "or"@,
        binary_name(BinaryOp::And) == "and"@,
        binary_name(BinaryOp::Equal) == "equal"@,
        binary_name(BinaryOp::NotEqual) == "not-equal"@,
        binary_name(BinaryOp::Less) == "less"@,
        binary_name(BinaryOp::LessEqual) == "less-equal"@,
        binary_name(BinaryOp::Greater) == "greater"@,
        binary_name(BinaryOp::GreaterEqual) == "greater-equal"@,
        binary_name(BinaryOp::Add) == "add"@,
        binary_name(BinaryOp::Subtract) == "subtract"@,
        binary_name(BinaryOp::Multiply) == "multiply"@,
        binary_name(BinaryOp::Divide) == "divide"@,
        binary_name(BinaryOp::Remainder) == "remainder"@,
        crate::artifact::dec_unary_op(FormV::Atom("negate"@)) == Ok::<UnaryOp, Seq<char>>(UnaryOp::Negate),
        crate::artifact::dec_unary_op(FormV::Atom("not"@)) == Ok::<UnaryOp, Seq<char>>(UnaryOp::Not),
        crate::artifact::dec_binary_op(FormV::Atom("elvis"@)) == Ok::<BinaryOp, Seq<char>>(BinaryOp::Elvis),
        crate::artifact::dec_binary_op(FormV::Atom("or"@)) == Ok::<BinaryOp, Seq<char>>(BinaryOp::Or),
        crate::artifact::dec_binary_op(FormV::Atom("and"@)) == Ok::<BinaryOp, Seq<char>>(BinaryOp::And),
        crate::artifact::dec_binary_op(FormV::Atom("equal"@)) == Ok::<BinaryOp, Seq<char>>(BinaryOp::Equal),
        crate::artifact::dec_binary_op(FormV::Atom("not-equal"@)) == Ok::<BinaryOp, Seq<char>>(BinaryOp::NotEqual),
        crate::artifact::dec_binary_op(FormV::Atom("less"@)) == Ok::<BinaryOp, Seq<char>>(BinaryOp::Less),
        crate::artifact::dec_binary_op(FormV::Atom("less-equal"@)) == Ok::<BinaryOp, Seq<char>>(BinaryOp::LessEqual),
        crate::artifact::dec_binary_op(FormV::Atom("greater"@)) == Ok::<BinaryOp, Seq<char>>(BinaryOp::Greater),
        crate::artifact::dec_binary_op(FormV::Atom("greater-equal"@)) == Ok::<BinaryOp, Seq<char>>(BinaryOp::GreaterEqual),
        crate::artifact::dec_binary_op(FormV::Atom("add"@)) == Ok::<BinaryOp, Seq<char>>(BinaryOp::Add),
        crate::artifact::dec_binary_op(FormV::Atom("subtract"@)) == Ok::<BinaryOp, Seq<char>>(BinaryOp::Subtract),
        crate::artifact::dec_binary_op(FormV::Atom("multiply"@)) == Ok::<BinaryOp, Seq<char>>(BinaryOp::Multiply),
        crate::artifact::dec_binary_op(FormV::Atom("divide"@)) == Ok::<BinaryOp, Seq<char>>(BinaryOp::Divide),
        crate::artifact::dec_binary_op(FormV::Atom("remainder"@)) == Ok::<BinaryOp, Seq<char>>(BinaryOp::Remainder),
        expr_form(ExprV::Binary { left: Box::new(left), op, right: Box::new(right) }) == node(
            "binary"@,
            seq![FormV::Atom(binary_name(op)), expr_form(left), expr_form(right)],
        ),
{
    lemma_rt_unary(UnaryOp::Negate);
    lemma_rt_unary(UnaryOp::Not);
    lemma_rt_binary(BinaryOp::Elvis);
    lemma_rt_binary(BinaryOp::Or);
    lemma_rt_binary(BinaryOp::And);
    lemma_rt_binary(BinaryOp::Equal);
    lemma_rt_binary(BinaryOp::NotEqual);
    lemma_rt_binary(BinaryOp::Less);
    lemma_rt_binary(BinaryOp::LessEqual);
    lemma_rt_binary(BinaryOp::Greater);
    lemma_rt_binary(BinaryOp::GreaterEqual);
    lemma_rt_binary(BinaryOp::Add);
    lemma_rt_binary(BinaryOp::Subtract);
    lemma_rt_binary(BinaryOp::Multiply);
    lemma_rt_binary(BinaryOp::Divide);
    lemma_rt_binary(BinaryOp::Remainder);
}

// ---------------------------------------------------------------------------
// What round-tripping means for each kind of node.
// ---------------------------------------------------------------------------
pub open spec fn stmt_rt(s: StmtV) -> bool {
    dec_stmt(stmt_form(s)) == Ok::<StmtV, Seq<char>>(s) && wf_form(stmt_form(s))
}

pub open spec fn expr_rt(e: ExprV) -> bool {
    dec_expr(expr_form(e)) == Ok::<ExprV, Seq<char>>(e) && wf_form(expr_form(e))
}

pub open spec fn block_rt(b: BlockV) -> bool {
    dec_block(block_form(b)) == Ok::<BlockV, Seq<char>>(b) && wf_form(block_form(b))
}

pub open spec fn case_rt(c: WhenCaseV) -> bool {
    dec_case(case_form(c)) == Ok::<WhenCaseV, Seq<char>>(c) && wf_form(case_form(c))
}

pub open spec fn opt_rt(o: Option<ExprV>) -> bool {
    dec_opt_expr(opt_expr_form(o)) == Ok::<Option<ExprV>, Seq<char>>(o) && wf_form(opt_expr_form(o))
}

pub open spec fn fbody_rt(b: FunctionBodyV) -> bool {
    dec_fbody(fbody_form(b)) == Ok::<FunctionBodyV, Seq<char>>(b) && wf_form(fbody_form(b))
}

pub open spec fn wbody_rt(b: WhenBodyV) -> bool {
    dec_wbody(wbody_form(b)) == Ok::<WhenBodyV, Seq<char>>(b) && wf_form(wbody_form(b))
}

pub open spec fn else_rt(b: Option<ElseBranchV>) -> bool {
    dec_else(else_form(b)) == Ok::<Option<ElseBranchV>, Seq<char>>(b) && wf_form(else_form(b))
}

pub open spec fn all_wf(fs: Seq<FormV>) -> bool {
    forall|i: int| 0 <= i < fs.len() ==> #[trigger] wf_form(fs[i])
}

pub open spec fn stmts_rt(s: Seq<StmtV>) -> bool {
    dec_stmts(stmt_forms(s)) == Ok::<Seq<StmtV>, Seq<char>>(s) && stmt_forms(s).len() == s.len()
        && all_wf(stmt_forms(s))
}

pub open spec fn exprs_rt(s: Seq<ExprV>) -> bool {
    dec_exprs(expr_forms(s)) == Ok::<Seq<ExprV>, Seq<char>>(s) && expr_forms(s).len() == s.len()
        && all_wf(expr_forms(s))
}

pub open spec fn entries_rt(s: Seq<(ExprV, ExprV)>) -> bool {
    dec_entries(entry_forms(s)) == Ok::<Seq<(ExprV, ExprV)>, Seq<char>>(s) && entry_forms(s).len()
        == s.len() && all_wf(entry_forms(s))
}

#[verifier::opaque]
pub open spec fn fields_rt(s: Seq<(Seq<char>, ExprV)>) -> bool {
    dec_fields(field_forms(s)) == Ok::<Seq<(Seq<char>, ExprV)>, Seq<char>>(s) && field_forms(s).len()
        == s.len() && all_wf(field_forms(s))
}

pub open spec fn cases_rt(s: Seq<WhenCaseV>) -> bool {
    dec_cases(case_forms(s)) == Ok::<Seq<WhenCaseV>, Seq<char>>(s) && case_forms(s).len() == s.len()
        && all_wf(case_forms(s))
}

proof fn lemma_args_node(s: Seq<ExprV>, name: Seq<char>)
    requires
        exprs_rt(s),
        is_tag(name),
    ensures
        dec_expr_group(node(name, expr_forms(s)), name) == Ok::<Seq<ExprV>, Seq<char>>(s) && wf_form(node(name, expr_forms(s))),
{
    lemma_node_all(name, expr_forms(s));
}

proof fn lemma_cases_node(s: Seq<WhenCaseV>)
    requires
        cases_rt(s),
    ensures
        dec_when_cases(node("cases"@, case_forms(s))) == Ok::<Seq<WhenCaseV>, Seq<char>>(s) && wf_form(node("cases"@, case_forms(s))),
{
    lemma_node_all("cases"@, case_forms(s));
}

proof fn lemma_computed_node(s: Seq<(Seq<char>, ExprV)>)
    requires
        fields_rt(s),
    ensures
        crate::artifact::dec_computed(node("computed"@, field_forms(s))) == Ok::<Seq<(Seq<char>, ExprV)>, Seq<char>>(s) && wf_form(node("computed"@, field_forms(s))),
{
    reveal(fields_rt);
    lemma_node_all("computed"@, field_forms(s));
}

proof fn lemma_entry_node(k: ExprV, v: ExprV)
    requires
        expr_rt(k),
        expr_rt(v),
    ensures
        dec_entry(node("entry"@, seq![expr_form(k), expr_form(v)])) == Ok::<(ExprV, ExprV), Seq<char>>((k, v)) && wf_form(node("entry"@, seq![expr_form(k), expr_form(v)])),
{
    lemma_node_all("entry"@, seq![expr_form(k), expr_form(v)]);
}

#[verifier::spinoff_prover]
#[verifier::rlimit(100)]
proof fn lemma_field_node(n: Seq<char>, v: ExprV)
    requires
        expr_rt(v),
    ensures
        dec_field(node("field"@, seq![FormV::Str(n), expr_form(v)])) == Ok::<(Seq<char>, ExprV), Seq<char>>((n, v)) && wf_form(node("field"@, seq![FormV::Str(n), expr_form(v)])),
{
    lemma_node_all("field"@, seq![FormV::Str(n), expr_form(v)]);
}

proof fn lemma_stmt_use(path: Seq<Seq<char>>)
    ensures
        stmt_rt(StmtV::Use { path }),
{
    lemma_stmt_tags();
    lemma_rt_strs(path);
    lemma_node_all("use"@, str_forms(path));
}

proof fn lemma_stmt_var(name: Seq<char>, t: Option<Seq<char>>, value: ExprV)
    requires
        expr_rt(value),
    ensures
        stmt_rt(StmtV::Var { name, type_annotation: t, value }),
{
    lemma_stmt_tags();
    lemma_rt_opt_string(t);
    lemma_node_all("var"@, seq![FormV::Str(name), opt_string_form(t), expr_form(value)]);
}

proof fn lemma_stmt_assign(target: ExprV, value: ExprV)
    requires
        expr_rt(target),
        expr_rt(value),
    ensures
        stmt_rt(StmtV::Assign { target, value }),
{
    lemma_stmt_tags();
    lemma_node_all("assign"@, seq![expr_form(target), expr_form(value)]);
}

proof fn lemma_stmt_return(value: Option<ExprV>)
    requires
        opt_rt(value),
    ensures
        stmt_rt(StmtV::Return(value)),
{
    lemma_stmt_tags();
    lemma_node_all("return"@, seq![opt_expr_form(value)]);
}

proof fn lemma_stmt_while(condition: ExprV, body: BlockV)
    requires
        expr_rt(condition),
        block_rt(body),
    ensures
        stmt_rt(StmtV::While { condition, body }),
{
    lemma_stmt_tags();
    lemma_node_all("while"@, seq![expr_form(condition), block_form(body)]);
}

proof fn lemma_stmt_break()
    ensures
        stmt_rt(StmtV::Break),
{
    lemma_stmt_tags();
    lemma_node_all("break"@, Seq::empty());
}

proof fn lemma_stmt_continue()
    ensures
        stmt_rt(StmtV::Continue),
{
    lemma_stmt_tags();
    lemma_node_all("continue"@, Seq::empty());
}

proof fn lemma_stmt_for(name: Seq<char>, iterable: ExprV, body: BlockV)
    requires
        expr_rt(iterable),
        block_rt(body),
    ensures
        stmt_rt(StmtV::For { name, iterable, body }),
{
    lemma_stmt_tags();
    lemma_node_all("for"@, seq![FormV::Str(name), expr_form(iterable), block_form(body)]);
}

proof fn lemma_stmt_function(name: Seq<char>, params: Seq<ParamV>, body: FunctionBodyV)
    requires
        fbody_rt(body),
    ensures
        stmt_rt(StmtV::Function { name, params, body }),
{
    lemma_stmt_tags();
    lemma_rt_params(params);
    lemma_node_all("function"@, seq![FormV::Str(name), params_form(params), fbody_form(body)]);
}

#[verifier::spinoff_prover]
#[verifier::rlimit(100)]
proof fn lemma_stmt_data(name: Seq<char>, params: Seq<ParamV>, computed: Seq<(Seq<char>, ExprV)>)
    requires
        fields_rt(computed),
    ensures
        stmt_rt(StmtV::Data { name, params, computed }),
{
    lemma_stmt_tags();
    lemma_rt_params(params);
    lemma_computed_node(computed);
    lemma_node_all("data"@, seq![FormV::Str(name), params_form(params), node("computed"@, field_forms(computed))]);
}

proof fn lemma_stmt_enum(name: Seq<char>, variants: Seq<VariantV>)
    ensures
        stmt_rt(StmtV::Enum { name, variants }),
{
    lemma_stmt_tags();
    lemma_rt_variants(variants);
    lemma_node_all("enum"@, seq![FormV::Str(name), variants_form(variants)]);
}

proof fn lemma_stmt_expr(e: ExprV)
    requires
        expr_rt(e),
    ensures
        stmt_rt(StmtV::Expr(e)),
{
    lemma_stmt_tags();
    lemma_node_all("expr"@, seq![expr_form(e)]);
}

proof fn lemma_stmt_pub(inner: StmtV)
    requires
        stmt_rt(inner),
    ensures
        stmt_rt(StmtV::Pub(Box::new(inner))),
{
    lemma_stmt_tags();
    lemma_node_all("pub"@, seq![stmt_form(inner)]);
}

proof fn lemma_expr_bool(b: bool)
    ensures
        expr_rt(ExprV::Bool(b)),
{
    lemma_expr_tags();
    lemma_rt_flag(b, "invalid bool '"@);
    lemma_node_all("bool"@, seq![flag_form(b)]);
}

proof fn lemma_expr_int(v: i64)
    ensures
        expr_rt(ExprV::Int(v)),
{
    lemma_expr_tags();
    lemma_parse_int_text(v);
    lemma_int_atom(v as int);
    lemma_node_all("int"@, seq![FormV::Atom(int_text(v as int))]);
}

proof fn lemma_expr_float(t: Seq<char>)
    requires
        float_text_ok(t),
    ensures
        expr_rt(ExprV::Float(t)),
{
    lemma_expr_tags();
    lemma_float_atom(t);
    lemma_node_all("float"@, seq![FormV::Atom(t)]);
}

proof fn lemma_expr_string(s: Seq<char>)
    ensures
        expr_rt(ExprV::Str(s)),
{
    lemma_expr_tags();
    lemma_node_all("string"@, seq![FormV::Str(s)]);
}

proof fn lemma_expr_ident(s: Seq<char>)
    ensures
        expr_rt(ExprV::Ident(s)),
{
    lemma_expr_tags();
    lemma_node_all("ident"@, seq![FormV::Str(s)]);
}

proof fn lemma_expr_list(items: Seq<ExprV>)
    requires
        exprs_rt(items),
    ensures
        expr_rt(ExprV::List(items)),
{
    lemma_expr_tags();
    lemma_node_all("list"@, expr_forms(items));
}

proof fn lemma_expr_map(entries: Seq<(ExprV, ExprV)>)
    requires
        entries_rt(entries),
    ensures
        expr_rt(ExprV::MapLiteral(entries)),
{
    lemma_expr_tags();
    lemma_node_all("map"@, entry_forms(entries));
}

proof fn lemma_expr_set(items: Seq<ExprV>)
    requires
        exprs_rt(items),
    ensures
        expr_rt(ExprV::SetLiteral(items)),
{
    lemma_expr_tags();
    lemma_node_all("set"@, expr_forms(items));
}

proof fn lemma_expr_rest(s: Seq<char>)
    ensures
        expr_rt(ExprV::Rest(s)),
{
    lemma_expr_tags();
    lemma_node_all("rest"@, seq![FormV::Str(s)]);
}

proof fn lemma_expr_unary(op: UnaryOp, e: ExprV)
    requires
        expr_rt(e),
    ensures
        expr_rt(ExprV::Unary { op, expr: Box::new(e) }),
{
    lemma_expr_tags();
    lemma_rt_unary(op);
    lemma_node_all("unary"@, seq![FormV::Atom(unary_name(op)), expr_form(e)]);
}

proof fn lemma_expr_binary(left: ExprV, op: BinaryOp, right: ExprV)
    requires
        expr_rt(left),
        expr_rt(right),
    ensures
        expr_rt(ExprV::Binary { left: Box::new(left), op, right: Box::new(right) }),
{
    lemma_expr_tags();
    lemma_rt_binary(op);
    lemma_node_all("binary"@, seq![FormV::Atom(binary_name(op)), expr_form(left), expr_form(right)]);
}

proof fn lemma_expr_call(callee: ExprV, args: Seq<ExprV>)
    requires
        expr_rt(callee),
        exprs_rt(args),
    ensures
        expr_rt(ExprV::Call { callee: Box::new(callee), args }),
{
    lemma_expr_tags();
    lemma_args_node(args, "args"@);
    lemma_node_all("call"@, seq![expr_form(callee), node("args"@, expr_forms(args))]);
}

proof fn lemma_expr_member(object: ExprV, name: Seq<char>, safe: bool)
    requires
        expr_rt(object),
    ensures
        expr_rt(ExprV::Member { object: Box::new(object), name, safe }),
{
    lemma_expr_tags();
    lemma_rt_flag(safe, "invalid member safety flag '"@);
    lemma_node_all("member"@, seq![expr_form(object), FormV::Str(name), flag_form(safe)]);
}

proof fn lemma_expr_index(object: ExprV, index: ExprV)
    requires
        expr_rt(object),
        expr_rt(index),
    ensures
        expr_rt(ExprV::Index { object: Box::new(object), index: Box::new(index) }),
{
    lemma_expr_tags();
    lemma_node_all("index"@, seq![expr_form(object), expr_form(index)]);
}

proof fn lemma_expr_propagate(e: ExprV)
    requires
        expr_rt(e),
    ensures
        expr_rt(ExprV::Propagate { expr: Box::new(e) }),
{
    lemma_expr_tags();
    lemma_node_all("propagate"@, seq![expr_form(e)]);
}

proof fn lemma_expr_lambda(params: Seq<ParamV>, body: ExprV)
    requires
        expr_rt(body),
    ensures
        expr_rt(ExprV::Lambda { params, body: Box::new(body) }),
{
    lemma_expr_tags();
    lemma_rt_params(params);
    lemma_node_all("lambda"@, seq![params_form(params), expr_form(body)]);
}

proof fn lemma_expr_if(condition: ExprV, then_branch: BlockV, else_branch: Option<ElseBranchV>)
    requires
        expr_rt(condition),
        block_rt(then_branch),
        else_rt(else_branch),
    ensures
        expr_rt(ExprV::If { condition: Box::new(condition), then_branch, else_branch }),
{
    lemma_expr_tags();
    lemma_node_all("if"@, seq![expr_form(condition), block_form(then_branch), else_form(else_branch)]);
}

proof fn lemma_expr_when(binding: Option<Seq<char>>, subject: Option<Box<ExprV>>, cases: Seq<WhenCaseV>)
    requires
        dec_opt_expr(subject_form(subject)) == Ok::<Option<ExprV>, Seq<char>>(match subject { Some(e) => Some(*e), None => None }),
        wf_form(subject_form(subject)),
        cases_rt(cases),
    ensures
        expr_rt(ExprV::When { binding, subject, cases }),
{
    lemma_expr_tags();
    lemma_rt_opt_string(binding);
    lemma_cases_node(cases);
    lemma_node_all("when"@, seq![opt_string_form(binding), subject_form(subject), node("cases"@, case_forms(cases))]);
}

pub proof fn lemma_rt_stmt(s: StmtV)
    requires
        literals_ok_stmt(s),
    ensures
        stmt_rt(s),
    decreases s,
{
    match s {
        StmtV::Use { path } => {
            lemma_stmt_use(path);
        },
        StmtV::Var { name, type_annotation, value } => {
            lemma_rt_expr(value);
            lemma_stmt_var(name, type_annotation, value);
        },
        StmtV::Assign { target, value } => {
            lemma_rt_expr(target);
            lemma_rt_expr(value);
            lemma_stmt_assign(target, value);
        },
        StmtV::Return(value) => {
            lemma_rt_opt(value);
            lemma_stmt_return(value);
        },
        StmtV::While { condition, body } => {
            lemma_rt_expr(condition);
            lemma_rt_block(body);
            lemma_stmt_while(condition, body);
        },
        StmtV::Break => {
            lemma_stmt_break();
        },
        StmtV::Continue => {
            lemma_stmt_continue();
        },
        StmtV::For { name, iterable, body } => {
            lemma_rt_expr(iterable);
            lemma_rt_block(body);
            lemma_stmt_for(name, iterable, body);
        },
        StmtV::Function { name, params, body } => {
            lemma_rt_fbody(body);
            lemma_stmt_function(name, params, body);
        },
        StmtV::Data { name, params, computed } => {
            lemma_rt_fields(computed);
            lemma_stmt_data(name, params, computed);
        },
        StmtV::Enum { name, variants } => {
            lemma_stmt_enum(name, variants);
        },
        StmtV::Expr(e) => {
            lemma_rt_expr(e);
            lemma_stmt_expr(e);
        },
        StmtV::Pub(inner) => {
            lemma_rt_stmt(*inner);
            lemma_stmt_pub(*inner);
        },
    }
}

pub proof fn lemma_rt_expr(e: ExprV)
    requires
        literals_ok_expr(e),
    ensures
        expr_rt(e),
    decreases e,
{
    match e {
        ExprV::Null => {
            lemma_tag_atom("null"@);
        },
        ExprV::Bool(b) => {
            lemma_expr_bool(b);
        },
        ExprV::Int(v) => {
            lemma_expr_int(v);
        },
        ExprV::Float(t) => {
            lemma_expr_float(t);
        },
        ExprV::Str(s) => {
            lemma_expr_string(s);
        },
        ExprV::Ident(s) => {
            lemma_expr_ident(s);
        },
        ExprV::List(items) => {
            lemma_rt_exprs(items);
            lemma_expr_list(items);
        },
        ExprV::MapLiteral(entries) => {
            lemma_rt_entries(entries);
            lemma_expr_map(entries);
        },
        ExprV::SetLiteral(items) => {
            lemma_rt_exprs(items);
            lemma_expr_set(items);
        },
        ExprV::Rest(s) => {
            lemma_expr_rest(s);
        },
        ExprV::Unary { op, expr } => {
            lemma_rt_expr(*expr);
            lemma_expr_unary(op, *expr);
        },
        ExprV::Binary { left, op, right } => {
            lemma_rt_expr(*left);
            lemma_rt_expr(*right);
            lemma_expr_binary(*left, op, *right);
        },
        ExprV::Call { callee, args } => {
            lemma_rt_expr(*callee);
            lemma_rt_exprs(args);
            lemma_expr_call(*callee, args);
        },
        ExprV::Member { object, name, safe } => {
            lemma_rt_expr(*object);
            lemma_expr_member(*object, name, safe);
        },
        ExprV::Index { object, index } => {
            lemma_rt_expr(*object);
            lemma_rt_expr(*index);
            lemma_expr_index(*object, *index);
        },
        ExprV::Propagate { expr } => {
            lemma_rt_expr(*expr);
            lemma_expr_propagate(*expr);
        },
        ExprV::Lambda { params, body } => {
            lemma_rt_expr(*body);
            lemma_expr_lambda(params, *body);
        },
        ExprV::If { condition, then_branch, else_branch } => {
            lemma_rt_expr(*condition);
            lemma_rt_block(then_branch);
            lemma_rt_else(else_branch);
            lemma_expr_if(*condition, then_branch, else_branch);
        },
        ExprV::When { binding, subject, cases } => {
            lemma_rt_subject(subject);
            lemma_rt_cases(cases);
            lemma_expr_when(binding, subject, cases);
        },
    }
}

#[verifier::spinoff_prover]
#[verifier::rlimit(40)]
proof fn lemma_case_node(c: WhenCaseV)
    requires
        exprs_rt(c.patterns),
        opt_rt(c.guard),
        wbody_rt(c.body),
    ensures
        case_rt(c),
{
    lemma_args_node(c.patterns, "patterns"@);
    lemma_rt_flag(c.is_else, "invalid when else flag '"@);
    lemma_node_all(
        "case"@,
        seq![
            node("patterns"@, expr_forms(c.patterns)),
            opt_expr_form(c.guard),
            wbody_form(c.body),
            flag_form(c.is_else),
        ],
    );
}

// ---------------------------------------------------------------------------
// Sequences and the smaller nodes.
// ---------------------------------------------------------------------------
pub proof fn lemma_rt_stmts(s: Seq<StmtV>)
    requires
        literals_ok_stmts(s),
    ensures
        stmts_rt(s),
    decreases s,
{
    if s.len() == 0 {
        assert(s =~= Seq::<StmtV>::empty());
    } else {
        let rest = s.subrange(1, s.len() as int);
        lemma_rt_stmt(s[0]);
        lemma_rt_stmts(rest);
        let fs = stmt_forms(s);
        assert(fs.subrange(1, fs.len() as int) =~= stmt_forms(rest));
        assert(seq![s[0]] + rest =~= s);
        assert forall|i: int| 0 <= i < s.len() implies #[trigger] wf_form(fs[i]) by {
            if i > 0 {
                assert(fs[i] == stmt_forms(rest)[i - 1]);
            }
        }
    }
}

pub proof fn lemma_rt_block(b: BlockV)
    requires
        literals_ok_block(b),
    ensures
        block_rt(b),
    decreases b,
{
    lemma_rt_stmts(b.statements);
    lemma_node_all("block"@, stmt_forms(b.statements));
}

pub proof fn lemma_rt_opt(o: Option<ExprV>)
    requires
        literals_ok_opt(o),
    ensures
        opt_rt(o),
    decreases o,
{
    lemma_choice_tags();
    match o {
        Some(e) => {
            lemma_rt_expr(e);
            lemma_node_all("some"@, seq![expr_form(e)]);
        },
        None => {
            lemma_node_all("none"@, Seq::empty());
        },
    }
}

pub proof fn lemma_rt_subject(o: Option<Box<ExprV>>)
    requires
        literals_ok_subject(o),
    ensures
        dec_opt_expr(subject_form(o)) == Ok::<Option<ExprV>, Seq<char>>(
            match o {
                Some(e) => Some(*e),
                None => None,
            },
        ),
        wf_form(subject_form(o)),
    decreases o,
{
    lemma_choice_tags();
    match o {
        Some(e) => {
            lemma_rt_expr(*e);
            lemma_node_all("some"@, seq![expr_form(*e)]);
        },
        None => {
            lemma_node_all("none"@, Seq::empty());
        },
    }
}

pub proof fn lemma_rt_fbody(b: FunctionBodyV)
    requires
        literals_ok_fbody(b),
    ensures
        fbody_rt(b),
    decreases b,
{
    lemma_choice_tags();
    match b {
        FunctionBodyV::Expr(e) => {
            lemma_rt_expr(e);
            lemma_node_all("body-expr"@, seq![expr_form(e)]);
        },
        FunctionBodyV::Block(bl) => {
            lemma_rt_block(bl);
            lemma_node_all("body-block"@, seq![block_form(bl)]);
        },
    }
}

pub proof fn lemma_rt_wbody(b: WhenBodyV)
    requires
        literals_ok_wbody(b),
    ensures
        wbody_rt(b),
    decreases b,
{
    lemma_choice_tags();
    match b {
        WhenBodyV::Expr(e) => {
            lemma_rt_expr(e);
            lemma_node_all("when-expr"@, seq![expr_form(e)]);
        },
        WhenBodyV::Block(bl) => {
            lemma_rt_block(bl);
            lemma_node_all("when-block"@, seq![block_form(bl)]);
        },
    }
}

pub proof fn lemma_rt_else(b: Option<ElseBranchV>)
    requires
        literals_ok_else(b),
    ensures
        else_rt(b),
    decreases b,
{
    lemma_choice_tags();
    match b {
        None => {
            lemma_node_all("none"@, Seq::empty());
        },
        Some(ElseBranchV::Block(bl)) => {
            lemma_rt_block(bl);
            lemma_node_all("else-block"@, seq![block_form(bl)]);
        },
        Some(ElseBranchV::If(x)) => {
            lemma_rt_expr(*x);
            lemma_node_all("else-if"@, seq![expr_form(*x)]);
        },
    }
}

pub proof fn lemma_rt_exprs(s: Seq<ExprV>)
    requires
        literals_ok_exprs(s),
    ensures
        exprs_rt(s),
    decreases s,
{
    if s.len() == 0 {
        assert(s =~= Seq::<ExprV>::empty());
    } else {
        let rest = s.subrange(1, s.len() as int);
        lemma_rt_expr(s[0]);
        lemma_rt_exprs(rest);
        let fs = expr_forms(s);
        assert(fs.subrange(1, fs.len() as int) =~= expr_forms(rest));
        assert(seq![s[0]] + rest =~= s);
        assert forall|i: int| 0 <= i < s.len() implies #[trigger] wf_form(fs[i]) by {
            if i > 0 {
                assert(fs[i] == expr_forms(rest)[i - 1]);
            }
        }
    }
}

pub proof fn lemma_rt_entries(s: Seq<(ExprV, ExprV)>)
    requires
        literals_ok_entries(s),
    ensures
        entries_rt(s),
    decreases s,
{
    if s.len() == 0 {
        assert(s =~= Seq::<(ExprV, ExprV)>::empty());
    } else {
        let rest = s.subrange(1, s.len() as int);
        lemma_rt_expr(s[0].0);
        lemma_rt_expr(s[0].1);
        lemma_entry_node(s[0].0, s[0].1);
        lemma_rt_entries(rest);
        let fs = entry_forms(s);
        assert(fs[0] == node("entry"@, seq![expr_form(s[0].0), expr_form(s[0].1)]));
        assert(fs.subrange(1, fs.len() as int) =~= entry_forms(rest));
        assert(seq![(s[0].0, s[0].1)] + rest =~= s);
        assert forall|i: int| 0 <= i < s.len() implies #[trigger] wf_form(fs[i]) by {
            if i > 0 {
                assert(fs[i] == entry_forms(rest)[i - 1]);
            }
        }
    }
}

#[verifier::spinoff_prover]
#[verifier::rlimit(100)]
pub proof fn lemma_rt_fields(s: Seq<(Seq<char>, ExprV)>)
    requires
        literals_ok_fields(s),
    ensures
        fields_rt(s),
    decreases s,
{
    reveal(fields_rt);
    if s.len() == 0 {
        assert(s =~= Seq::<(Seq<char>, ExprV)>::empty());
    } else {
        let rest = s.subrange(1, s.len() as int);
        lemma_rt_expr(s[0].1);
        lemma_field_node(s[0].0, s[0].1);
        lemma_rt_fields(rest);
        let fs = field_forms(s);
        assert(fs[0] == node("field"@, seq![FormV::Str(s[0].0), expr_form(s[0].1)]));
        assert(fs.subrange(1, fs.len() as int) =~= field_forms(rest));
        assert(seq![(s[0].0, s[0].1)] + rest =~= s);
        assert forall|i: int| 0 <= i < s.len() implies #[trigger] wf_form(fs[i]) by {
            if i > 0 {
                assert(fs[i] == field_forms(rest)[i - 1]);
            }
        }
    }
}

pub proof fn lemma_rt_cases(s: Seq<WhenCaseV>)
    requires
        literals_ok_cases(s),
    ensures
        cases_rt(s),
    decreases s,
{
    if s.len() == 0 {
        assert(s =~= Seq::<WhenCaseV>::empty());
    } else {
        let rest = s.subrange(1, s.len() as int);
        lemma_rt_case(s[0]);
        lemma_rt_cases(rest);
        let fs = case_forms(s);
        assert(fs.subrange(1, fs.len() as int) =~= case_forms(rest));
        assert(seq![s[0]] + rest =~= s);
        assert forall|i: int| 0 <= i < s.len() implies #[trigger] wf_form(fs[i]) by {
            if i > 0 {
                assert(fs[i] == case_forms(rest)[i - 1]);
            }
        }
    }
}

pub proof fn lemma_rt_case(c: WhenCaseV)
    requires
        literals_ok_case(c),
    ensures
        case_rt(c),
    decreases c,
{
    lemma_rt_exprs(c.patterns);
    lemma_rt_opt(c.guard);
    lemma_rt_wbody(c.body);
    lemma_case_node(c);
}

// ---------------------------------------------------------------------------
// The law.
// ---------------------------------------------------------------------------
/// The form of a program decodes to the program, and reads back from its
/// printed text.
pub proof fn lemma_program_form(p: ProgramV)
    requires
        literals_ok_program(p),
    ensures
        dec_program(program_form(p)) == Ok::<ProgramV, Seq<char>>(p),
        wf_form(program_form(p)),
{
    lemma_rt_stmts(p.statements);
    lemma_node_all("program"@, stmt_forms(p.statements));
}

/// Loading the artifact text of a program gives the same program back, for
/// every program whose float literals are text that `f64` parsing accepts.
pub proof fn lemma_artifact_round_trip(p: ProgramV)
    requires
        literals_ok_program(p),
    ensures
        decode_text(encode_text(p)) == Ok::<ProgramV, (Seq<char>, nat)>(p),
{
    let f = program_form(p);
    lemma_program_form(p);
    let body = print_form(f);
    let h = HEADER@;
    let src = encode_text(p);
    assert(src == h + body);
    assert(src.subrange(0, h.len() as int) =~= h);
    assert(src.subrange(h.len() as int, src.len() as int) =~= body);
    assert(body.subrange(0, body.len() as int) =~= body);
    assert(holds_at(body, 0, body));
    assert(delim_at(body, body.len() as int));
    lemma_read_printed_form(body, 0, f);
    assert(read_form(body, 0) == Ok::<(FormV, int), crate::form::ReadErr>((f, body.len() as int)));
    assert(skip_ws(body, body.len() as int) == body.len());
}

// ---------------------------------------------------------------------------
// Literals of sequences, item by item.
// ---------------------------------------------------------------------------

pub proof fn lemma_literals_ok_stmts(s: Seq<StmtV>)
    ensures
        literals_ok_stmts(s) <==> forall|i: int| 0 <= i < s.len() ==> #[trigger] literals_ok_stmt(s[i]),
    decreases s.len(),
{
    if s.len() > 0 {
        let rest = s.subrange(1, s.len() as int);
        lemma_literals_ok_stmts(rest);
        if forall|i: int| 0 <= i < s.len() ==> #[trigger] literals_ok_stmt(s[i]) {
            assert(literals_ok_stmt(s[0]));
            assert forall|i: int| 0 <= i < rest.len() implies #[trigger] literals_ok_stmt(rest[i]) by {
                assert(rest[i] == s[i + 1]);
                assert(literals_ok_stmt(s[i + 1]));
            }
            assert(literals_ok_stmts(rest));
            assert(literals_ok_stmts(s));
        }
        if literals_ok_stmts(s) {
            assert(literals_ok_stmt(s[0]) && literals_ok_stmts(rest));
            assert forall|i: int| 0 <= i < s.len() implies #[trigger] literals_ok_stmt(s[i]) by {
                if i > 0 {
                    assert(rest[i - 1] == s[i]);
                    assert(literals_ok_stmt(rest[i - 1]));
                }
            }
        }
    }
}

pub proof fn lemma_literals_ok_stmts_push(s: Seq<StmtV>, x: StmtV)
    requires
        literals_ok_stmts(s),
        literals_ok_stmt(x),
    ensures
        literals_ok_stmts(s.push(x)),
{
    lemma_literals_ok_stmts(s);
    lemma_literals_ok_stmts(s.push(x));
    assert forall|i: int| 0 <= i < s.push(x).len() implies #[trigger] literals_ok_stmt(s.push(x)[i]) by {
        if i < s.len() {
            assert(s.push(x)[i] == s[i]);
            assert(literals_ok_stmt(s[i]));
        }
    }
}

pub proof fn lemma_literals_ok_exprs(s: Seq<ExprV>)
    ensures
        literals_ok_exprs(s) <==> forall|i: int| 0 <= i < s.len() ==> #[trigger] literals_ok_expr(s[i]),
    decreases s.len(),
{
    if s.len() > 0 {
        let rest = s.subrange(1, s.len() as int);
        lemma_literals_ok_exprs(rest);
        if forall|i: int| 0 <= i < s.len() ==> #[trigger] literals_ok_expr(s[i]) {
            assert(literals_ok_expr(s[0]));
            assert forall|i: int| 0 <= i < rest.len() implies #[trigger] literals_ok_expr(rest[i]) by {
                assert(rest[i] == s[i + 1]);
                assert(literals_ok_expr(s[i + 1]));
            }
            assert(literals_ok_exprs(rest));
            assert(literals_ok_exprs(s));
        }
        if literals_ok_exprs(s) {
            assert(literals_ok_expr(s[0]) && literals_ok_exprs(rest));
            assert forall|i: int| 0 <= i < s.len() implies #[trigger] literals_ok_expr(s[i]) by {
                if i > 0 {
                    assert(rest[i - 1] == s[i]);
                    assert(literals_ok_expr(rest[i - 1]));
                }
            }
        }
    }
}

pub proof fn lemma_literals_ok_exprs_push(s: Seq<ExprV>, x: ExprV)
    requires
        literals_ok_exprs(s),
        literals_ok_expr(x),
    ensures
        literals_ok_exprs(s.push(x)),
{
    lemma_literals_ok_exprs(s);
    lemma_literals_ok_exprs(s.push(x));
    assert forall|i: int| 0 <= i < s.push(x).len() implies #[trigger] literals_ok_expr(s.push(x)[i]) by {
        if i < s.len() {
            assert(s.push(x)[i] == s[i]);
            assert(literals_ok_expr(s[i]));
        }
    }
}

pub proof fn lemma_literals_ok_fields(s: Seq<(Seq<char>, ExprV)>)
    ensures
        literals_ok_fields(s) <==> forall|i: int| 0 <= i < s.len() ==> #[trigger] literals_ok_expr(s[i].1),
    decreases s.len(),
{
    if s.len() > 0 {
        let rest = s.subrange(1, s.len() as int);
        lemma_literals_ok_fields(rest);
        if forall|i: int| 0 <= i < s.len() ==> #[trigger] literals_ok_expr(s[i].1) {
            assert(literals_ok_expr(s[0].1));
            assert forall|i: int| 0 <= i < rest.len() implies #[trigger] literals_ok_expr(rest[i].1) by {
                assert(rest[i] == s[i + 1]);
                assert(literals_ok_expr(s[i + 1].1));
            }
            assert(literals_ok_fields(rest));
            assert(literals_ok_fields(s));
        }
        if literals_ok_fields(s) {
            assert(literals_ok_expr(s[0].1) && literals_ok_fields(rest));
            assert forall|i: int| 0 <= i < s.len() implies #[trigger] literals_ok_expr(s[i].1) by {
                if i > 0 {
                    assert(rest[i - 1] == s[i]);
                    assert(literals_ok_expr(rest[i - 1].1));
                }
            }
        }
    }
}

pub proof fn lemma_literals_ok_fields_push(s: Seq<(Seq<char>, ExprV)>, x: (Seq<char>, ExprV))
    requires
        literals_ok_fields(s),
        literals_ok_expr(x.1),
    ensures
        literals_ok_fields(s.push(x)),
{
    lemma_literals_ok_fields(s);
    lemma_literals_ok_fields(s.push(x));
    assert forall|i: int| 0 <= i < s.push(x).len() implies #[trigger] literals_ok_expr(s.push(x)[i].1) by {
        if i < s.len() {
            assert(s.push(x)[i] == s[i]);
            assert(literals_ok_expr(s[i].1));
        }
    }
}

pub proof fn lemma_literals_ok_cases(s: Seq<WhenCaseV>)
    ensures
        literals_ok_cases(s) <==> forall|i: int| 0 <= i < s.len() ==> #[trigger] literals_ok_case(s[i]),
    decreases s.len(),
{
    if s.len() > 0 {
        let rest = s.subrange(1, s.len() as int);
        lemma_literals_ok_cases(rest);
        if forall|i: int| 0 <= i < s.len() ==> #[trigger] literals_ok_case(s[i]) {
            assert(literals_ok_case(s[0]));
            assert forall|i: int| 0 <= i < rest.len() implies #[trigger] literals_ok_case(rest[i]) by {
                assert(rest[i] == s[i + 1]);
                assert(literals_ok_case(s[i + 1]));
            }
            assert(literals_ok_cases(rest));
            assert(literals_ok_cases(s));
        }
        if literals_ok_cases(s) {
            assert(literals_ok_case(s[0]) && literals_ok_cases(rest));
            assert forall|i: int| 0 <= i < s.len() implies #[trigger] literals_ok_case(s[i]) by {
                if i > 0 {
                    assert(rest[i - 1] == s[i]);
                    assert(literals_ok_case(rest[i - 1]));
                }
            }
        }
    }
}

pub proof fn lemma_literals_ok_cases_push(s: Seq<WhenCaseV>, x: WhenCaseV)
    requires
        literals_ok_cases(s),
        literals_ok_case(x),
    ensures
        literals_ok_cases(s.push(x)),
{
    lemma_literals_ok_cases(s);
    lemma_literals_ok_cases(s.push(x));
    assert forall|i: int| 0 <= i < s.push(x).len() implies #[trigger] literals_ok_case(s.push(x)[i]) by {
        if i < s.len() {
            assert(s.push(x)[i] == s[i]);
            assert(literals_ok_case(s[i]));
        }
    }
}

} // verus!
