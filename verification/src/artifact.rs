//! Loading `VELRA-AST-1` artifacts: the header, the form reader with byte
//! offsets, and the decoding of forms into a syntax tree.
//!
//! `decode_text` says what `decode` returns; `dec_*` say what each form
//! stands for, or which error comes first when it stands for nothing.
use vstd::prelude::*;
use crate::ast::{
    boxed, view_block, view_case, view_cases, view_else, view_entries, view_expr, view_exprs,
    view_fbody, view_fields, view_opt_expr, view_opt_string, view_param, view_params,
    view_program, view_stmt, view_stmts, view_strings, view_variant, view_variants, view_wbody,
    lemma_view_cases_push, lemma_view_entries_push, lemma_view_exprs_push, lemma_view_fields_push,
    lemma_view_stmts_push, BinaryOp, Block, BlockV, DataDecl, ElseBranch, ElseBranchV, EnumDecl,
    EnumVariantDecl, Expr, ExprV, FunctionBody, FunctionBodyV, FunctionDecl, Param, ParamV,
    Program, ProgramV, Stmt, StmtV, UnaryOp, VariantV, WhenBody, WhenBodyV, WhenCase, WhenCaseV,
};
use crate::form::{
    fits, lemma_child, lemma_read_form_end, lemma_skip_ws, lemma_view_forms, read_form, read_form_at,
    skip_spaces, skip_ws, view_form, view_forms, Form, FormV,
};
use crate::numbers::{decimal_text, float_text_check, float_text_ok, parse_i64, parse_i64_text, push_decimal};
use crate::text::{
    byte_offset, chars_eq, chars_eq_str, chars_of, chars_range, lemma_byte_offset_monotonic,
    lemma_byte_offset_prefix, lemma_byte_offset_suffix, on_boundary, push_all, push_str, string_from,
    utf8_len,
};
use crate::lexer::lemma_encoded_len;
use crate::compiler::{binary_name, unary_name};
use crate::roundtrip::lemma_operator_names;

verus! {

/// The first line of every artifact.
pub const HEADER: &'static str = "VELRA-AST-1\n";

/// Why an artifact could not be loaded, and the byte of the artifact text
/// the reader had reached (0 for errors in the shape of the tree).
#[derive(Debug, Clone, PartialEq, Eq)]
pub struct ArtifactError {
    pub message: String,
    pub offset: usize,
}

impl ArtifactError {
    /// The error as text: the message and the byte at which it occurred.
    pub fn describe(&self) -> (r: String)
        ensures
            r@ == self.message@ + " at byte "@ + decimal_text(self.offset as nat),
    {
        let mut out = chars_of(self.message.as_str());
        push_str(&mut out, " at byte ");
        push_decimal(&mut out, self.offset as u64);
        string_from(&out)
    }
}

// ---------------------------------------------------------------------------
// Error messages.
// ---------------------------------------------------------------------------
pub open spec fn expected_list_msg(context: Seq<char>) -> Seq<char> {
    "expected "@ + context + " list"@
}

pub open spec fn empty_list_msg(context: Seq<char>) -> Seq<char> {
    "empty "@ + context + " list"@
}

pub open spec fn tag_msg(tag: Seq<char>) -> Seq<char> {
    "expected '"@ + tag + "' artifact tag"@
}

/// `n - 1`, or 0 when `n` is 0: the number of fields after a tag.
pub open spec fn fields_after_tag(n: nat) -> nat {
    if n == 0 {
        0
    } else {
        (n - 1) as nat
    }
}

pub open spec fn len_msg(context: Seq<char>, expected: nat, got: nat) -> Seq<char> {
    context + " expects "@ + decimal_text(fields_after_tag(expected)) + " fields, got "@
        + decimal_text(fields_after_tag(got))
}

/// A message that ends with a value in single quotes; `prefix` holds the
/// opening quote.
pub open spec fn quoted_msg(prefix: Seq<char>, value: Seq<char>) -> Seq<char> {
    prefix + value + "'"@
}

pub open spec fn atom_msg() -> Seq<char> {
    "expected artifact atom"@
}

pub open spec fn string_msg() -> Seq<char> {
    "expected artifact string"@
}

fn shape_error(message: Vec<char>) -> (e: ArtifactError)
    ensures
        e.message@ == message@,
        e.offset == 0,
{
    ArtifactError { message: string_from(&message), offset: 0 }
}

fn error3(a: &str, b: &str, c: &str) -> (e: ArtifactError)
    ensures
        e.message@ == a@ + b@ + c@,
        e.offset == 0,
{
    let mut m = chars_of(a);
    push_str(&mut m, b);
    push_str(&mut m, c);
    shape_error(m)
}

fn quoted_error(prefix: &str, value: &[char]) -> (e: ArtifactError)
    ensures
        e.message@ == quoted_msg(prefix@, value@),
        e.offset == 0,
{
    let mut m = chars_of(prefix);
    push_all(&mut m, value);
    push_str(&mut m, "'");
    shape_error(m)
}

// ---------------------------------------------------------------------------
// Shape checks.
// ---------------------------------------------------------------------------
pub open spec fn atom_of(f: FormV) -> Result<Seq<char>, Seq<char>> {
    match f {
        FormV::Atom(a) => Ok(a),
        _ => Err(atom_msg()),
    }
}

pub open spec fn string_of(f: FormV) -> Result<Seq<char>, Seq<char>> {
    match f {
        FormV::Str(s) => Ok(s),
        _ => Err(string_msg()),
    }
}

pub open spec fn nonempty_list(f: FormV, context: Seq<char>) -> Result<Seq<FormV>, Seq<char>> {
    match f {
        FormV::List(l) => if l.len() == 0 {
            Err(empty_list_msg(context))
        } else {
            Ok(l)
        },
        _ => Err(expected_list_msg(context)),
    }
}

/// A list whose first item is the atom `tag`.
pub open spec fn tagged(l: Seq<FormV>, tag: Seq<char>) -> bool {
    l.len() > 0 && l[0] == FormV::Atom(tag)
}

/// `p` followed by what `r` holds, or the error of `r`.
pub open spec fn prepend<V>(p: Seq<V>, r: Result<Seq<V>, Seq<char>>) -> Result<Seq<V>, Seq<char>> {
    match r {
        Ok(xs) => Ok(p + xs),
        Err(m) => Err(m),
    }
}

/// One decoded item followed by the rest, or the first error.
pub open spec fn cons<V>(first: Result<V, Seq<char>>, rest: Result<Seq<V>, Seq<char>>) -> Result<Seq<V>, Seq<char>> {
    match first {
        Err(m) => Err(m),
        Ok(x) => match rest {
            Err(m) => Err(m),
            Ok(xs) => Ok(seq![x] + xs),
        },
    }
}

proof fn lemma_prepend_step<V>(p: Seq<V>, x: V, rest: Result<Seq<V>, Seq<char>>)
    ensures
        prepend(p.push(x), rest) == prepend(p, cons(Ok::<V, Seq<char>>(x), rest)),
{
    if let Ok(xs) = rest {
        assert(p.push(x) + xs =~= p + (seq![x] + xs));
    }
}

fn expect_list<'a>(f: &'a Form, context: &str) -> (r: Result<&'a Vec<Form>, ArtifactError>)
    ensures
        r matches Ok(l) ==> *f == Form::List(*l),
        r matches Err(e) ==> !(*f is List) && e.message@ == expected_list_msg(context@) && e.offset
            == 0,
{
    match f {
        Form::List(l) => Ok(l),
        _ => Err(error3("expected ", context, " list")),
    }
}

fn expect_nonempty_list<'a>(f: &'a Form, context: &str) -> (r: Result<&'a Vec<Form>, ArtifactError>)
    ensures
        r matches Ok(l) ==> *f == Form::List(*l) && l.len() > 0,
        r matches Err(e) ==> nonempty_list(view_form(*f), context@) == Err::<Seq<FormV>, Seq<char>>(
            e.message@,
        ) && e.offset == 0,
{
    match f {
        Form::List(l) => {
            if l.len() == 0 {
                proof {
                    lemma_view_forms(l@);
                }
                Err(error3("empty ", context, " list"))
            } else {
                Ok(l)
            }
        },
        _ => Err(error3("expected ", context, " list")),
    }
}

fn expect_tag(l: &Vec<Form>, tag: &str) -> (r: Result<(), ArtifactError>)
    ensures
        r is Ok <==> tagged(view_forms(l@), tag@),
        r matches Err(e) ==> e.message@ == tag_msg(tag@) && e.offset == 0,
{
    proof {
        lemma_view_forms(l@);
    }
    if l.len() > 0 {
        if let Form::Atom(a) = &l[0] {
            if chars_eq_str(a, tag) {
                return Ok(());
            }
        }
    }
    Err(error3("expected '", tag, "' artifact tag"))
}

fn expect_len(l: &Vec<Form>, expected: usize, context: &str) -> (r: Result<(), ArtifactError>)
    ensures
        r is Ok <==> l.len() == expected,
        r matches Err(e) ==> e.message@ == len_msg(context@, expected as nat, l.len() as nat)
            && e.offset == 0,
{
    if l.len() == expected {
        return Ok(());
    }
    let mut m = chars_of(context);
    push_str(&mut m, " expects ");
    let e: u64 = if expected == 0 { 0 } else { (expected - 1) as u64 };
    push_decimal(&mut m, e);
    push_str(&mut m, " fields, got ");
    let g: u64 = if l.len() == 0 { 0 } else { (l.len() - 1) as u64 };
    push_decimal(&mut m, g);
    Err(shape_error(m))
}

fn atom(f: &Form) -> (r: Result<&Vec<char>, ArtifactError>)
    ensures
        r matches Ok(a) ==> *f == Form::Atom(*a),
        r matches Err(e) ==> atom_of(view_form(*f)) == Err::<Seq<char>, Seq<char>>(e.message@)
            && e.offset == 0,
{
    match f {
        Form::Atom(a) => Ok(a),
        _ => Err(shape_error(chars_of("expected artifact atom"))),
    }
}

fn string(f: &Form) -> (r: Result<String, ArtifactError>)
    ensures
        r matches Ok(s) ==> string_of(view_form(*f)) == Ok::<Seq<char>, Seq<char>>(s@),
        r matches Err(e) ==> string_of(view_form(*f)) == Err::<Seq<char>, Seq<char>>(e.message@)
            && e.offset == 0,
{
    match f {
        Form::Str(s) => Ok(string_from(s)),
        _ => Err(shape_error(chars_of("expected artifact string"))),
    }
}


// ---------------------------------------------------------------------------
// Leaves: optional strings, parameters, variants, flags, numbers, operators.
// ---------------------------------------------------------------------------
pub open spec fn dec_opt_string(f: FormV) -> Result<Option<Seq<char>>, Seq<char>> {
    match nonempty_list(f, "optional string"@) {
        Err(m) => Err(m),
        Ok(l) => match atom_of(l[0]) {
            Err(m) => Err(m),
            Ok(t) => if t == "none"@ {
                if l.len() != 1 {
                    Err(len_msg("none"@, 1, l.len()))
                } else {
                    Ok(None)
                }
            } else if t == "some"@ {
                if l.len() != 2 {
                    Err(len_msg("some"@, 2, l.len()))
                } else {
                    match string_of(l[1]) {
                        Err(m) => Err(m),
                        Ok(s) => Ok(Some(s)),
                    }
                }
            } else {
                Err(quoted_msg("unknown optional string tag '"@, t))
            },
        },
    }
}

pub open spec fn dec_param(f: FormV) -> Result<ParamV, Seq<char>> {
    match nonempty_list(f, "param"@) {
        Err(m) => Err(m),
        Ok(l) => if !tagged(l, "param"@) {
            Err(tag_msg("param"@))
        } else if l.len() != 3 {
            Err(len_msg("param"@, 3, l.len()))
        } else {
            match string_of(l[1]) {
                Err(m) => Err(m),
                Ok(name) => match dec_opt_string(l[2]) {
                    Err(m) => Err(m),
                    Ok(t) => Ok(ParamV { name, type_annotation: t }),
                },
            }
        },
    }
}

pub open spec fn dec_param_list(s: Seq<FormV>) -> Result<Seq<ParamV>, Seq<char>>
    decreases s.len(),
{
    if s.len() == 0 {
        Ok(Seq::empty())
    } else {
        cons(dec_param(s[0]), dec_param_list(s.subrange(1, s.len() as int)))
    }
}

pub open spec fn dec_params(f: FormV) -> Result<Seq<ParamV>, Seq<char>> {
    match nonempty_list(f, "params"@) {
        Err(m) => Err(m),
        Ok(l) => if !tagged(l, "params"@) {
            Err(tag_msg("params"@))
        } else {
            dec_param_list(l.subrange(1, l.len() as int))
        },
    }
}

pub open spec fn dec_variant(f: FormV) -> Result<VariantV, Seq<char>> {
    match nonempty_list(f, "enum variant"@) {
        Err(m) => Err(m),
        Ok(l) => if !tagged(l, "variant"@) {
            Err(tag_msg("variant"@))
        } else if l.len() != 3 {
            Err(len_msg("enum variant"@, 3, l.len()))
        } else {
            match string_of(l[1]) {
                Err(m) => Err(m),
                Ok(name) => match dec_params(l[2]) {
                    Err(m) => Err(m),
                    Ok(params) => Ok(VariantV { name, params }),
                },
            }
        },
    }
}

pub open spec fn dec_variant_list(s: Seq<FormV>) -> Result<Seq<VariantV>, Seq<char>>
    decreases s.len(),
{
    if s.len() == 0 {
        Ok(Seq::empty())
    } else {
        cons(dec_variant(s[0]), dec_variant_list(s.subrange(1, s.len() as int)))
    }
}

pub open spec fn dec_variants(f: FormV) -> Result<Seq<VariantV>, Seq<char>> {
    match nonempty_list(f, "enum variants"@) {
        Err(m) => Err(m),
        Ok(l) => if !tagged(l, "variants"@) {
            Err(tag_msg("variants"@))
        } else {
            dec_variant_list(l.subrange(1, l.len() as int))
        },
    }
}

pub open spec fn dec_strs(s: Seq<FormV>) -> Result<Seq<Seq<char>>, Seq<char>>
    decreases s.len(),
{
    if s.len() == 0 {
        Ok(Seq::empty())
    } else {
        cons(string_of(s[0]), dec_strs(s.subrange(1, s.len() as int)))
    }
}

/// The atom `true` or `false`; `prefix` starts the message for other atoms.
pub open spec fn dec_flag(f: FormV, prefix: Seq<char>) -> Result<bool, Seq<char>> {
    match atom_of(f) {
        Err(m) => Err(m),
        Ok(a) => if a == "true"@ {
            Ok(true)
        } else if a == "false"@ {
            Ok(false)
        } else {
            Err(quoted_msg(prefix, a))
        },
    }
}

pub open spec fn dec_int(f: FormV) -> Result<i64, Seq<char>> {
    match atom_of(f) {
        Err(m) => Err(m),
        Ok(a) => match parse_i64_text(a) {
            Some(v) => Ok(v),
            None => Err("invalid Int artifact value"@),
        },
    }
}

pub open spec fn dec_float(f: FormV) -> Result<Seq<char>, Seq<char>> {
    match atom_of(f) {
        Err(m) => Err(m),
        Ok(a) => if float_text_ok(a) {
            Ok(a)
        } else {
            Err("invalid Float artifact value"@)
        },
    }
}

pub open spec fn dec_unary_op(f: FormV) -> Result<UnaryOp, Seq<char>> {
    match atom_of(f) {
        Err(m) => Err(m),
        Ok(a) => if a == "negate"@ {
            Ok(UnaryOp::Negate)
        } else if a == "not"@ {
            Ok(UnaryOp::Not)
        } else {
            Err(quoted_msg("unknown unary operator '"@, a))
        },
    }
}

pub open spec fn dec_binary_op(f: FormV) -> Result<BinaryOp, Seq<char>> {
    match atom_of(f) {
        Err(m) => Err(m),
        Ok(a) => if a == "elvis"@ {
            Ok(BinaryOp::Elvis)
        } else if a == "or"@ {
            Ok(BinaryOp::Or)
        } else if a == "and"@ {
            Ok(BinaryOp::And)
        } else if a == "equal"@ {
            Ok(BinaryOp::Equal)
        } else if a == "not-equal"@ {
            Ok(BinaryOp::NotEqual)
        } else if a == "less"@ {
            Ok(BinaryOp::Less)
        } else if a == "less-equal"@ {
            Ok(BinaryOp::LessEqual)
        } else if a == "greater"@ {
            Ok(BinaryOp::Greater)
        } else if a == "greater-equal"@ {
            Ok(BinaryOp::GreaterEqual)
        } else if a == "add"@ {
            Ok(BinaryOp::Add)
        } else if a == "subtract"@ {
            Ok(BinaryOp::Subtract)
        } else if a == "multiply"@ {
            Ok(BinaryOp::Multiply)
        } else if a == "divide"@ {
            Ok(BinaryOp::Divide)
        } else if a == "remainder"@ {
            Ok(BinaryOp::Remainder)
        } else {
            Err(quoted_msg("unknown binary operator '"@, a))
        },
    }
}

fn decode_optional_string(f: &Form) -> (r: Result<Option<String>, ArtifactError>)
    ensures
        r matches Ok(x) ==> dec_opt_string(view_form(*f)) == Ok::<Option<Seq<char>>, Seq<char>>(
            view_opt_string(x),
        ),
        r matches Err(e) ==> dec_opt_string(view_form(*f)) == Err::<Option<Seq<char>>, Seq<char>>(
            e.message@,
        ) && e.offset == 0,
{
    let l = match expect_nonempty_list(f, "optional string") {
        Ok(l) => l,
        Err(e) => return Err(e),
    };
    proof {
        lemma_view_forms(l@);
    }
    let t = match atom(&l[0]) {
        Ok(t) => t,
        Err(e) => return Err(e),
    };
    if chars_eq_str(t, "none") {
        if let Err(e) = expect_len(l, 1, "none") {
            return Err(e);
        }
        Ok(None)
    } else if chars_eq_str(t, "some") {
        if let Err(e) = expect_len(l, 2, "some") {
            return Err(e);
        }
        match string(&l[1]) {
            Ok(s) => Ok(Some(s)),
            Err(e) => Err(e),
        }
    } else {
        Err(quoted_error("unknown optional string tag '", t))
    }
}

fn decode_param(f: &Form) -> (r: Result<Param, ArtifactError>)
    ensures
        r matches Ok(x) ==> dec_param(view_form(*f)) == Ok::<ParamV, Seq<char>>(view_param(x)),
        r matches Err(e) ==> dec_param(view_form(*f)) == Err::<ParamV, Seq<char>>(e.message@)
            && e.offset == 0,
{
    let l = match expect_nonempty_list(f, "param") {
        Ok(l) => l,
        Err(e) => return Err(e),
    };
    proof {
        lemma_view_forms(l@);
    }
    if let Err(e) = expect_tag(l, "param") {
        return Err(e);
    }
    if let Err(e) = expect_len(l, 3, "param") {
        return Err(e);
    }
    let name = match string(&l[1]) {
        Ok(x) => x,
        Err(e) => return Err(e),
    };
    let type_annotation = match decode_optional_string(&l[2]) {
        Ok(x) => x,
        Err(e) => return Err(e),
    };
    Ok(Param { name, type_annotation })
}

fn decode_params(f: &Form) -> (r: Result<Vec<Param>, ArtifactError>)
    ensures
        r matches Ok(x) ==> dec_params(view_form(*f)) == Ok::<Seq<ParamV>, Seq<char>>(view_params(x@)),
        r matches Err(e) ==> dec_params(view_form(*f)) == Err::<Seq<ParamV>, Seq<char>>(e.message@)
            && e.offset == 0,
{
    let l = match expect_nonempty_list(f, "params") {
        Ok(l) => l,
        Err(e) => return Err(e),
    };
    if let Err(e) = expect_tag(l, "params") {
        return Err(e);
    }
    let ghost lv = view_forms(l@);
    proof {
        lemma_view_forms(l@);
    }
    let mut out: Vec<Param> = Vec::new();
    let mut k: usize = 1;
    while k < l.len()
        invariant
            1 <= k <= l.len(),
            lv == view_forms(l@),
            lv.len() == l.len(),
            forall|i: int| 0 <= i < l.len() ==> #[trigger] lv[i] == view_form(l@[i]),
                *f == Form::List(*l),
                tagged(view_forms(l@), "params"@),
            prepend(view_params(out@), dec_param_list(lv.subrange(k as int, lv.len() as int))) == dec_param_list(
                lv.subrange(1, lv.len() as int),
            ),
        decreases l.len() - k,
    {
        proof {
            assert(lv.subrange(k as int, lv.len() as int).subrange(1, lv.len() - k) =~= lv.subrange(
                k + 1,
                lv.len() as int,
            ));
            assert(lv.subrange(k as int, lv.len() as int)[0] == lv[k as int]);
        }
        match decode_param(&l[k]) {
            Ok(x) => {
                let ghost before = out@;
                proof {
                    lemma_prepend_step(
                        view_params(out@),
                        view_param(x),
                        dec_param_list(lv.subrange(k + 1, lv.len() as int)),
                    );
                }
                out.push(x);
                    proof {
                        assert(view_params(out@) =~= view_params(before).push(view_param(x)));
                    }
            },
            Err(e) => return Err(e),
        }
        k = k + 1;
    }
    proof {
        assert(lv.subrange(k as int, lv.len() as int) =~= Seq::<FormV>::empty());
        assert(view_params(out@) + Seq::empty() =~= view_params(out@));
    }
    Ok(out)
}

fn decode_variant(f: &Form) -> (r: Result<EnumVariantDecl, ArtifactError>)
    ensures
        r matches Ok(x) ==> dec_variant(view_form(*f)) == Ok::<VariantV, Seq<char>>(view_variant(x)),
        r matches Err(e) ==> dec_variant(view_form(*f)) == Err::<VariantV, Seq<char>>(e.message@)
            && e.offset == 0,
{
    let l = match expect_nonempty_list(f, "enum variant") {
        Ok(l) => l,
        Err(e) => return Err(e),
    };
    proof {
        lemma_view_forms(l@);
    }
    if let Err(e) = expect_tag(l, "variant") {
        return Err(e);
    }
    if let Err(e) = expect_len(l, 3, "enum variant") {
        return Err(e);
    }
    let name = match string(&l[1]) {
        Ok(x) => x,
        Err(e) => return Err(e),
    };
    let params = match decode_params(&l[2]) {
        Ok(x) => x,
        Err(e) => return Err(e),
    };
    Ok(EnumVariantDecl { name, params })
}

fn decode_variants(f: &Form) -> (r: Result<Vec<EnumVariantDecl>, ArtifactError>)
    ensures
        r matches Ok(x) ==> dec_variants(view_form(*f)) == Ok::<Seq<VariantV>, Seq<char>>(
            view_variants(x@),
        ),
        r matches Err(e) ==> dec_variants(view_form(*f)) == Err::<Seq<VariantV>, Seq<char>>(
            e.message@,
        ) && e.offset == 0,
{
    let l = match expect_nonempty_list(f, "enum variants") {
        Ok(l) => l,
        Err(e) => return Err(e),
    };
    if let Err(e) = expect_tag(l, "variants") {
        return Err(e);
    }
    let ghost lv = view_forms(l@);
    proof {
        lemma_view_forms(l@);
    }
    let mut out: Vec<EnumVariantDecl> = Vec::new();
    let mut k: usize = 1;
    while k < l.len()
        invariant
            1 <= k <= l.len(),
            lv == view_forms(l@),
            lv.len() == l.len(),
            forall|i: int| 0 <= i < l.len() ==> #[trigger] lv[i] == view_form(l@[i]),
                *f == Form::List(*l),
                tagged(view_forms(l@), "variants"@),
            prepend(view_variants(out@), dec_variant_list(lv.subrange(k as int, lv.len() as int))) == dec_variant_list(
                lv.subrange(1, lv.len() as int),
            ),
        decreases l.len() - k,
    {
        proof {
            assert(lv.subrange(k as int, lv.len() as int).subrange(1, lv.len() - k) =~= lv.subrange(
                k + 1,
                lv.len() as int,
            ));
            assert(lv.subrange(k as int, lv.len() as int)[0] == lv[k as int]);
        }
        match decode_variant(&l[k]) {
            Ok(x) => {
                let ghost before = out@;
                proof {
                    lemma_prepend_step(
                        view_variants(out@),
                        view_variant(x),
                        dec_variant_list(lv.subrange(k + 1, lv.len() as int)),
                    );
                }
                out.push(x);
                    proof {
                        assert(view_variants(out@) =~= view_variants(before).push(view_variant(x)));
                    }
            },
            Err(e) => return Err(e),
        }
        k = k + 1;
    }
    proof {
        assert(lv.subrange(k as int, lv.len() as int) =~= Seq::<FormV>::empty());
        assert(view_variants(out@) + Seq::empty() =~= view_variants(out@));
    }
    Ok(out)
}

fn decode_string_list(l: &Vec<Form>) -> (r: Result<Vec<String>, ArtifactError>)
    requires
        l.len() > 0,
    ensures
        r matches Ok(x) ==> dec_strs(view_forms(l@).subrange(1, l.len() as int)) == Ok::<
            Seq<Seq<char>>,
            Seq<char>,
        >(view_strings(x@)),
        r matches Err(e) ==> dec_strs(view_forms(l@).subrange(1, l.len() as int)) == Err::<
            Seq<Seq<char>>,
            Seq<char>,
        >(e.message@) && e.offset == 0,
{
    let ghost lv = view_forms(l@);
    proof {
        lemma_view_forms(l@);
    }
    let mut out: Vec<String> = Vec::new();
    let mut k: usize = 1;
    while k < l.len()
        invariant
            1 <= k <= l.len(),
            lv == view_forms(l@),
            lv.len() == l.len(),
            forall|i: int| 0 <= i < l.len() ==> #[trigger] lv[i] == view_form(l@[i]),
            prepend(view_strings(out@), dec_strs(lv.subrange(k as int, lv.len() as int))) == dec_strs(
                lv.subrange(1, lv.len() as int),
            ),
        decreases l.len() - k,
    {
        proof {
            assert(lv.subrange(k as int, lv.len() as int).subrange(1, lv.len() - k) =~= lv.subrange(
                k + 1,
                lv.len() as int,
            ));
            assert(lv.subrange(k as int, lv.len() as int)[0] == lv[k as int]);
        }
        match string(&l[k]) {
            Ok(x) => {
                let ghost before = out@;
                proof {
                    lemma_prepend_step(
                        view_strings(out@),
                        x@,
                        dec_strs(lv.subrange(k + 1, lv.len() as int)),
                    );
                }
                out.push(x);
                    proof {
                        assert(view_strings(out@) =~= view_strings(before).push(x@));
                    }
            },
            Err(e) => return Err(e),
        }
        k = k + 1;
    }
    proof {
        assert(lv.subrange(k as int, lv.len() as int) =~= Seq::<FormV>::empty());
        assert(view_strings(out@) + Seq::empty() =~= view_strings(out@));
    }
    Ok(out)
}

fn decode_flag(f: &Form, prefix: &str) -> (r: Result<bool, ArtifactError>)
    ensures
        r matches Ok(x) ==> dec_flag(view_form(*f), prefix@) == Ok::<bool, Seq<char>>(x),
        r matches Err(e) ==> dec_flag(view_form(*f), prefix@) == Err::<bool, Seq<char>>(e.message@)
            && e.offset == 0,
{
    let a = match atom(f) {
        Ok(a) => a,
        Err(e) => return Err(e),
    };
    if chars_eq_str(a, "true") {
        Ok(true)
    } else if chars_eq_str(a, "false") {
        Ok(false)
    } else {
        Err(quoted_error(prefix, a))
    }
}

fn decode_int(f: &Form) -> (r: Result<i64, ArtifactError>)
    ensures
        r matches Ok(x) ==> dec_int(view_form(*f)) == Ok::<i64, Seq<char>>(x),
        r matches Err(e) ==> dec_int(view_form(*f)) == Err::<i64, Seq<char>>(e.message@) && e.offset
            == 0,
{
    let a = match atom(f) {
        Ok(a) => a,
        Err(e) => return Err(e),
    };
    match parse_i64(a) {
        Some(v) => Ok(v),
        None => Err(shape_error(chars_of("invalid Int artifact value"))),
    }
}

fn decode_float(f: &Form) -> (r: Result<String, ArtifactError>)
    ensures
        r matches Ok(x) ==> dec_float(view_form(*f)) == Ok::<Seq<char>, Seq<char>>(x@),
        r matches Err(e) ==> dec_float(view_form(*f)) == Err::<Seq<char>, Seq<char>>(e.message@)
            && e.offset == 0,
{
    let a = match atom(f) {
        Ok(a) => a,
        Err(e) => return Err(e),
    };
    if float_text_check(a) {
        Ok(string_from(a))
    } else {
        Err(shape_error(chars_of("invalid Float artifact value")))
    }
}

fn decode_unary_form(f: &Form) -> (r: Result<UnaryOp, ArtifactError>)
    ensures
        r matches Ok(x) ==> dec_unary_op(view_form(*f)) == Ok::<UnaryOp, Seq<char>>(x),
        r matches Err(e) ==> dec_unary_op(view_form(*f)) == Err::<UnaryOp, Seq<char>>(e.message@)
            && e.offset == 0,
{
    let a = match atom(f) {
        Ok(a) => a,
        Err(e) => return Err(e),
    };
    decode_unary_chars(a)
}

fn decode_unary_chars(a: &[char]) -> (r: Result<UnaryOp, ArtifactError>)
    ensures
        r matches Ok(x) ==> dec_unary_op(FormV::Atom(a@)) == Ok::<UnaryOp, Seq<char>>(x),
        r matches Err(e) ==> dec_unary_op(FormV::Atom(a@)) == Err::<UnaryOp, Seq<char>>(e.message@)
            && e.offset == 0,
{
    if chars_eq_str(a, "negate") {
        Ok(UnaryOp::Negate)
    } else if chars_eq_str(a, "not") {
        Ok(UnaryOp::Not)
    } else {
        Err(quoted_error("unknown unary operator '", a))
    }
}

fn decode_binary_form(f: &Form) -> (r: Result<BinaryOp, ArtifactError>)
    ensures
        r matches Ok(x) ==> dec_binary_op(view_form(*f)) == Ok::<BinaryOp, Seq<char>>(x),
        r matches Err(e) ==> dec_binary_op(view_form(*f)) == Err::<BinaryOp, Seq<char>>(e.message@)
            && e.offset == 0,
{
    let a = match atom(f) {
        Ok(a) => a,
        Err(e) => return Err(e),
    };
    decode_binary_chars(a)
}

fn decode_binary_chars(a: &[char]) -> (r: Result<BinaryOp, ArtifactError>)
    ensures
        r matches Ok(x) ==> dec_binary_op(FormV::Atom(a@)) == Ok::<BinaryOp, Seq<char>>(x),
        r matches Err(e) ==> dec_binary_op(FormV::Atom(a@)) == Err::<BinaryOp, Seq<char>>(e.message@)
            && e.offset == 0,
{
    if chars_eq_str(a, "elvis") {
        Ok(BinaryOp::Elvis)
    } else if chars_eq_str(a, "or") {
        Ok(BinaryOp::Or)
    } else if chars_eq_str(a, "and") {
        Ok(BinaryOp::And)
    } else if chars_eq_str(a, "equal") {
        Ok(BinaryOp::Equal)
    } else if chars_eq_str(a, "not-equal") {
        Ok(BinaryOp::NotEqual)
    } else if chars_eq_str(a, "less") {
        Ok(BinaryOp::Less)
    } else if chars_eq_str(a, "less-equal") {
        Ok(BinaryOp::LessEqual)
    } else if chars_eq_str(a, "greater") {
        Ok(BinaryOp::Greater)
    } else if chars_eq_str(a, "greater-equal") {
        Ok(BinaryOp::GreaterEqual)
    } else if chars_eq_str(a, "add") {
        Ok(BinaryOp::Add)
    } else if chars_eq_str(a, "subtract") {
        Ok(BinaryOp::Subtract)
    } else if chars_eq_str(a, "multiply") {
        Ok(BinaryOp::Multiply)
    } else if chars_eq_str(a, "divide") {
        Ok(BinaryOp::Divide)
    } else if chars_eq_str(a, "remainder") {
        Ok(BinaryOp::Remainder)
    } else {
        Err(quoted_error("unknown binary operator '", a))
    }
}

/// The unary operator an artifact names: decoding the name of an operator
/// gives that operator, and any other name is refused as unknown.
pub fn decode_unary(value: &str) -> (r: Result<UnaryOp, ArtifactError>)
    ensures
        r matches Ok(x) ==> dec_unary_op(FormV::Atom(value@)) == Ok::<UnaryOp, Seq<char>>(x),
        r matches Err(e) ==> dec_unary_op(FormV::Atom(value@)) == Err::<UnaryOp, Seq<char>>(e.message@)
            && e.offset == 0,
        forall|op: UnaryOp| value@ == #[trigger] unary_name(op) ==> (r matches Ok(x) && x == op),
        (forall|op: UnaryOp| #[trigger] unary_name(op) != value@) ==> (r matches Err(e)
            && e.message@ == quoted_msg("unknown unary operator '"@, value@) && e.offset == 0),
{
    let cs = chars_of(value);
    let r = decode_unary_chars(&cs);
    proof {
        assert forall|op: UnaryOp| value@ == #[trigger] unary_name(op) implies (r matches Ok(x) && x
            == op) by {
            lemma_operator_names(op, BinaryOp::Add, value@);
        }
        lemma_operator_names(UnaryOp::Not, BinaryOp::Add, value@);
    }
    r
}

/// The binary operator an artifact names: decoding the name of an operator
/// gives that operator, and any other name is refused as unknown.
pub fn decode_binary(value: &str) -> (r: Result<BinaryOp, ArtifactError>)
    ensures
        r matches Ok(x) ==> dec_binary_op(FormV::Atom(value@)) == Ok::<BinaryOp, Seq<char>>(x),
        r matches Err(e) ==> dec_binary_op(FormV::Atom(value@)) == Err::<BinaryOp, Seq<char>>(e.message@)
            && e.offset == 0,
        forall|op: BinaryOp| value@ == #[trigger] binary_name(op) ==> (r matches Ok(x) && x == op),
        (forall|op: BinaryOp| #[trigger] binary_name(op) != value@) ==> (r matches Err(e)
            && e.message@ == quoted_msg("unknown binary operator '"@, value@) && e.offset == 0),
{
    let cs = chars_of(value);
    let r = decode_binary_chars(&cs);
    proof {
        assert forall|op: BinaryOp| value@ == #[trigger] binary_name(op) implies (r matches Ok(x) && x
            == op) by {
            lemma_operator_names(UnaryOp::Not, op, value@);
        }
        lemma_operator_names(UnaryOp::Not, BinaryOp::Add, value@);
    }
    r
}

pub open spec fn dec_block(f: FormV) -> Result<BlockV, Seq<char>>
    decreases f,
{
    match f {
        FormV::List(l) => if l.len() == 0 {
            Err(empty_list_msg("block"@))
        } else {
            if !tagged(l, "block"@) {
                Err(tag_msg("block"@))
            } else {
                match dec_stmts(l.subrange(1, l.len() as int)) {
                    Err(m) => Err(m),
                    Ok(xs) => Ok(BlockV { statements: xs }),
                }
            }
        },
        _ => Err(expected_list_msg("block"@)),
    }
}

pub open spec fn dec_stmts(s: Seq<FormV>) -> Result<Seq<StmtV>, Seq<char>>
    decreases s,
{
    if s.len() == 0 {
        Ok(Seq::empty())
    } else {
        cons(dec_stmt(s[0]), dec_stmts(s.subrange(1, s.len() as int)))
    }
}

pub open spec fn dec_exprs(s: Seq<FormV>) -> Result<Seq<ExprV>, Seq<char>>
    decreases s,
{
    if s.len() == 0 {
        Ok(Seq::empty())
    } else {
        cons(dec_expr(s[0]), dec_exprs(s.subrange(1, s.len() as int)))
    }
}

pub open spec fn dec_expr_group(f: FormV, name: Seq<char>) -> Result<Seq<ExprV>, Seq<char>>
    decreases f,
{
    match f {
        FormV::List(l) => if l.len() == 0 {
            Err(empty_list_msg(name))
        } else {
            if !tagged(l, name) {
                Err(tag_msg(name))
            } else {
                match dec_exprs(l.subrange(1, l.len() as int)) {
                    Err(m) => Err(m),
                    Ok(xs) => Ok(xs),
                }
            }
        },
        _ => Err(expected_list_msg(name)),
    }
}

pub open spec fn dec_computed(f: FormV) -> Result<Seq<(Seq<char>, ExprV)>, Seq<char>>
    decreases f,
{
    match f {
        FormV::List(l) => if l.len() == 0 {
            Err(empty_list_msg("computed fields"@))
        } else {
            if !tagged(l, "computed"@) {
                Err(tag_msg("computed"@))
            } else {
                match dec_fields(l.subrange(1, l.len() as int)) {
                    Err(m) => Err(m),
                    Ok(xs) => Ok(xs),
                }
            }
        },
        _ => Err(expected_list_msg("computed fields"@)),
    }
}

pub open spec fn dec_fields(s: Seq<FormV>) -> Result<Seq<(Seq<char>, ExprV)>, Seq<char>>
    decreases s,
{
    if s.len() == 0 {
        Ok(Seq::empty())
    } else {
        cons(dec_field(s[0]), dec_fields(s.subrange(1, s.len() as int)))
    }
}

pub open spec fn dec_field(f: FormV) -> Result<(Seq<char>, ExprV), Seq<char>>
    decreases f,
{
    match f {
        FormV::List(l) => if l.len() == 0 {
            Err(empty_list_msg("computed field"@))
        } else {
            if !tagged(l, "field"@) {
                Err(tag_msg("field"@))
            } else if l.len() != 3 {
                Err(len_msg("computed field"@, 3, l.len()))
            } else {
                match string_of(l[1]) {
                    Err(m) => Err(m),
                    Ok(name) => match dec_expr(l[2]) {
                        Err(m) => Err(m),
                        Ok(e) => Ok((name, e)),
                    },
                }
            }
        },
        _ => Err(expected_list_msg("computed field"@)),
    }
}

pub open spec fn dec_entries(s: Seq<FormV>) -> Result<Seq<(ExprV, ExprV)>, Seq<char>>
    decreases s,
{
    if s.len() == 0 {
        Ok(Seq::empty())
    } else {
        cons(dec_entry(s[0]), dec_entries(s.subrange(1, s.len() as int)))
    }
}

pub open spec fn dec_entry(f: FormV) -> Result<(ExprV, ExprV), Seq<char>>
    decreases f,
{
    match f {
        FormV::List(l) => if l.len() == 0 {
            Err(empty_list_msg("map entry"@))
        } else {
            if !tagged(l, "entry"@) {
                Err(tag_msg("entry"@))
            } else if l.len() != 3 {
                Err(len_msg("map entry"@, 3, l.len()))
            } else {
                match dec_expr(l[1]) {
                    Err(m) => Err(m),
                    Ok(k) => match dec_expr(l[2]) {
                        Err(m) => Err(m),
                        Ok(v) => Ok((k, v)),
                    },
                }
            }
        },
        _ => Err(expected_list_msg("map entry"@)),
    }
}

pub open spec fn dec_when_cases(f: FormV) -> Result<Seq<WhenCaseV>, Seq<char>>
    decreases f,
{
    match f {
        FormV::List(l) => if l.len() == 0 {
            Err(empty_list_msg("when cases"@))
        } else {
            if !tagged(l, "cases"@) {
                Err(tag_msg("cases"@))
            } else {
                match dec_cases(l.subrange(1, l.len() as int)) {
                    Err(m) => Err(m),
                    Ok(xs) => Ok(xs),
                }
            }
        },
        _ => Err(expected_list_msg("when cases"@)),
    }
}

pub open spec fn dec_cases(s: Seq<FormV>) -> Result<Seq<WhenCaseV>, Seq<char>>
    decreases s,
{
    if s.len() == 0 {
        Ok(Seq::empty())
    } else {
        cons(dec_case(s[0]), dec_cases(s.subrange(1, s.len() as int)))
    }
}

pub open spec fn dec_case(f: FormV) -> Result<WhenCaseV, Seq<char>>
    decreases f,
{
    match f {
        FormV::List(l) => if l.len() == 0 {
            Err(empty_list_msg("when case"@))
        } else {
            if !tagged(l, "case"@) {
                Err(tag_msg("case"@))
            } else if l.len() != 5 {
                Err(len_msg("when case"@, 5, l.len()))
            } else {
                match dec_expr_group(l[1], "patterns"@) {
                    Err(m) => Err(m),
                    Ok(patterns) => match dec_flag(l[4], "invalid when else flag '"@) {
                        Err(m) => Err(m),
                        Ok(is_else) => match dec_opt_expr(l[2]) {
                            Err(m) => Err(m),
                            Ok(guard) => match dec_wbody(l[3]) {
                                Err(m) => Err(m),
                                Ok(body) => Ok(WhenCaseV { patterns, guard, body, is_else }),
                            },
                        },
                    },
                }
            }
        },
        _ => Err(expected_list_msg("when case"@)),
    }
}

pub open spec fn dec_wbody(f: FormV) -> Result<WhenBodyV, Seq<char>>
    decreases f,
{
    match f {
        FormV::List(l) => if l.len() == 0 {
            Err(empty_list_msg("when body"@))
        } else {
            if l.len() != 2 {
                Err(len_msg("when body"@, 2, l.len()))
            } else {
                match l[0] {
                    FormV::Atom(t) => if t == "when-expr"@ {
                        match dec_expr(l[1]) { Err(m) => Err(m), Ok(e) => Ok(WhenBodyV::Expr(e)) }
                    } else if t == "when-block"@ {
                        match dec_block(l[1]) { Err(m) => Err(m), Ok(b) => Ok(WhenBodyV::Block(b)) }
                    } else {
                        Err(quoted_msg("unknown when body tag '"@, t))
                    },
                    _ => Err(atom_msg()),
                }
            }
        },
        _ => Err(expected_list_msg("when body"@)),
    }
}

pub open spec fn dec_fbody(f: FormV) -> Result<FunctionBodyV, Seq<char>>
    decreases f,
{
    match f {
        FormV::List(l) => if l.len() == 0 {
            Err(empty_list_msg("function body"@))
        } else {
            if l.len() != 2 {
                Err(len_msg("function body"@, 2, l.len()))
            } else {
                match l[0] {
                    FormV::Atom(t) => if t == "body-expr"@ {
                        match dec_expr(l[1]) { Err(m) => Err(m), Ok(e) => Ok(FunctionBodyV::Expr(e)) }
                    } else if t == "body-block"@ {
                        match dec_block(l[1]) { Err(m) => Err(m), Ok(b) => Ok(FunctionBodyV::Block(b)) }
                    } else {
                        Err(quoted_msg("unknown function body tag '"@, t))
                    },
                    _ => Err(atom_msg()),
                }
            }
        },
        _ => Err(expected_list_msg("function body"@)),
    }
}

pub open spec fn dec_else(f: FormV) -> Result<Option<ElseBranchV>, Seq<char>>
    decreases f,
{
    match f {
        FormV::List(l) => if l.len() == 0 {
            Err(empty_list_msg("else branch"@))
        } else {
            match l[0] {
                FormV::Atom(t) => if t == "none"@ {
                    if l.len() != 1 {
                        Err(len_msg("none"@, 1, l.len()))
                    } else {
                        Ok(None)
                    }
                } else if t == "else-block"@ {
                    if l.len() != 2 {
                        Err(len_msg("else-block"@, 2, l.len()))
                    } else {
                        match dec_block(l[1]) {
                            Err(m) => Err(m),
                            Ok(b) => Ok(Some(ElseBranchV::Block(b))),
                        }
                    }
                } else if t == "else-if"@ {
                    if l.len() != 2 {
                        Err(len_msg("else-if"@, 2, l.len()))
                    } else {
                        match dec_expr(l[1]) {
                            Err(m) => Err(m),
                            Ok(e) => Ok(Some(ElseBranchV::If(Box::new(e)))),
                        }
                    }
                } else {
                    Err(quoted_msg("unknown else branch tag '"@, t))
                },
                _ => Err(atom_msg()),
            }
        },
        _ => Err(expected_list_msg("else branch"@)),
    }
}

pub open spec fn dec_opt_expr(f: FormV) -> Result<Option<ExprV>, Seq<char>>
    decreases f,
{
    match f {
        FormV::List(l) => if l.len() == 0 {
            Err(empty_list_msg("optional expression"@))
        } else {
            match l[0] {
                FormV::Atom(t) => if t == "none"@ {
                    if l.len() != 1 {
                        Err(len_msg("none"@, 1, l.len()))
                    } else {
                        Ok(None)
                    }
                } else if t == "some"@ {
                    if l.len() != 2 {
                        Err(len_msg("some"@, 2, l.len()))
                    } else {
                        match dec_expr(l[1]) {
                            Err(m) => Err(m),
                            Ok(e) => Ok(Some(e)),
                        }
                    }
                } else {
                    Err(quoted_msg("unknown optional expression tag '"@, t))
                },
                _ => Err(atom_msg()),
            }
        },
        _ => Err(expected_list_msg("optional expression"@)),
    }
}

/// The statement a form stands for, or the first error in it.
pub open spec fn dec_stmt(f: FormV) -> Result<StmtV, Seq<char>>
    decreases f,
{
    match f {
        FormV::List(l) => if l.len() == 0 {
            Err(empty_list_msg("statement"@))
        } else {
            match l[0] {
                FormV::Atom(t) => {
            if t == "use"@ {
                match dec_strs(l.subrange(1, l.len() as int)) { Err(m) => Err(m), Ok(path) => Ok(StmtV::Use { path }) }
            } else if t == "var"@ {
                if l.len() != 4 { Err(len_msg("var"@, 4, l.len())) } else { match string_of(l[1]) { Err(m) => Err(m), Ok(name) => match dec_opt_string(l[2]) { Err(m) => Err(m), Ok(ty) => match dec_expr(l[3]) { Err(m) => Err(m), Ok(value) => Ok(StmtV::Var { name, type_annotation: ty, value }) } } } }
            } else if t == "assign"@ {
                if l.len() != 3 { Err(len_msg("assign"@, 3, l.len())) } else { match dec_expr(l[1]) { Err(m) => Err(m), Ok(target) => match dec_expr(l[2]) { Err(m) => Err(m), Ok(value) => Ok(StmtV::Assign { target, value }) } } }
            } else if t == "return"@ {
                if l.len() != 2 { Err(len_msg("return"@, 2, l.len())) } else { match dec_opt_expr(l[1]) { Err(m) => Err(m), Ok(value) => Ok(StmtV::Return(value)) } }
            } else if t == "while"@ {
                if l.len() != 3 { Err(len_msg("while"@, 3, l.len())) } else { match dec_expr(l[1]) { Err(m) => Err(m), Ok(condition) => match dec_block(l[2]) { Err(m) => Err(m), Ok(body) => Ok(StmtV::While { condition, body }) } } }
            } else if t == "break"@ {
                if l.len() != 1 { Err(len_msg("break"@, 1, l.len())) } else { Ok(StmtV::Break) }
            } else if t == "continue"@ {
                if l.len() != 1 { Err(len_msg("continue"@, 1, l.len())) } else { Ok(StmtV::Continue) }
            } else if t == "for"@ {
                if l.len() != 4 { Err(len_msg("for"@, 4, l.len())) } else { match string_of(l[1]) { Err(m) => Err(m), Ok(name) => match dec_expr(l[2]) { Err(m) => Err(m), Ok(iterable) => match dec_block(l[3]) { Err(m) => Err(m), Ok(body) => Ok(StmtV::For { name, iterable, body }) } } } }
            } else if t == "function"@ {
                if l.len() != 4 { Err(len_msg("function"@, 4, l.len())) } else { match string_of(l[1]) { Err(m) => Err(m), Ok(name) => match dec_params(l[2]) { Err(m) => Err(m), Ok(params) => match dec_fbody(l[3]) { Err(m) => Err(m), Ok(body) => Ok(StmtV::Function { name, params, body }) } } } }
            } else if t == "data"@ {
                if l.len() != 4 { Err(len_msg("data"@, 4, l.len())) } else { match string_of(l[1]) { Err(m) => Err(m), Ok(name) => match dec_params(l[2]) { Err(m) => Err(m), Ok(params) => match dec_computed(l[3]) { Err(m) => Err(m), Ok(computed) => Ok(StmtV::Data { name, params, computed }) } } } }
            } else if t == "enum"@ {
                if l.len() != 3 { Err(len_msg("enum"@, 3, l.len())) } else { match dec_variants(l[2]) { Err(m) => Err(m), Ok(variants) => match string_of(l[1]) { Err(m) => Err(m), Ok(name) => Ok(StmtV::Enum { name, variants }) } } }
            } else if t == "expr"@ {
                if l.len() != 2 { Err(len_msg("expr"@, 2, l.len())) } else { match dec_expr(l[1]) { Err(m) => Err(m), Ok(e) => Ok(StmtV::Expr(e)) } }
            } else if t == "pub"@ {
                if l.len() != 2 { Err(len_msg("pub"@, 2, l.len())) } else { match dec_stmt(l[1]) { Err(m) => Err(m), Ok(s) => Ok(StmtV::Pub(Box::new(s))) } }
            } else {
                Err(quoted_msg("unknown statement tag '"@, t))
            }
                },
                _ => Err(atom_msg()),
            }
        },
        _ => Err(expected_list_msg("statement"@)),
    }
}

/// The expression a form stands for, or the first error in it.
pub open spec fn dec_expr(f: FormV) -> Result<ExprV, Seq<char>>
    decreases f,
{
    match f {
        FormV::Atom(a) => if a == "null"@ {
            Ok(ExprV::Null)
        } else {
            Err(expected_list_msg("expression"@))
        },
        FormV::List(l) => if l.len() == 0 {
            Err(empty_list_msg("expression"@))
        } else {
            match l[0] {
                FormV::Atom(t) => {
            if t == "bool"@ {
                if l.len() != 2 { Err(len_msg("bool"@, 2, l.len())) } else { match dec_flag(l[1], "invalid bool '"@) { Err(m) => Err(m), Ok(v) => Ok(ExprV::Bool(v)) } }
            } else if t == "int"@ {
                if l.len() != 2 { Err(len_msg("int"@, 2, l.len())) } else { match dec_int(l[1]) { Err(m) => Err(m), Ok(v) => Ok(ExprV::Int(v)) } }
            } else if t == "float"@ {
                if l.len() != 2 { Err(len_msg("float"@, 2, l.len())) } else { match dec_float(l[1]) { Err(m) => Err(m), Ok(v) => Ok(ExprV::Float(v)) } }
            } else if t == "string"@ {
                if l.len() != 2 { Err(len_msg("string"@, 2, l.len())) } else { match string_of(l[1]) { Err(m) => Err(m), Ok(v) => Ok(ExprV::Str(v)) } }
            } else if t == "ident"@ {
                if l.len() != 2 { Err(len_msg("ident"@, 2, l.len())) } else { match string_of(l[1]) { Err(m) => Err(m), Ok(v) => Ok(ExprV::Ident(v)) } }
            } else if t == "list"@ {
                match dec_exprs(l.subrange(1, l.len() as int)) { Err(m) => Err(m), Ok(items) => Ok(ExprV::List(items)) }
            } else if t == "map"@ {
                match dec_entries(l.subrange(1, l.len() as int)) { Err(m) => Err(m), Ok(entries) => Ok(ExprV::MapLiteral(entries)) }
            } else if t == "set"@ {
                match dec_exprs(l.subrange(1, l.len() as int)) { Err(m) => Err(m), Ok(items) => Ok(ExprV::SetLiteral(items)) }
            } else if t == "rest"@ {
                if l.len() != 2 { Err(len_msg("rest"@, 2, l.len())) } else { match string_of(l[1]) { Err(m) => Err(m), Ok(v) => Ok(ExprV::Rest(v)) } }
            } else if t == "unary"@ {
                if l.len() != 3 { Err(len_msg("unary"@, 3, l.len())) } else { match dec_unary_op(l[1]) { Err(m) => Err(m), Ok(op) => match dec_expr(l[2]) { Err(m) => Err(m), Ok(e) => Ok(ExprV::Unary { op, expr: Box::new(e) }) } } }
            } else if t == "binary"@ {
                if l.len() != 4 { Err(len_msg("binary"@, 4, l.len())) } else { match dec_binary_op(l[1]) { Err(m) => Err(m), Ok(op) => match dec_expr(l[2]) { Err(m) => Err(m), Ok(left) => match dec_expr(l[3]) { Err(m) => Err(m), Ok(right) => Ok(ExprV::Binary { left: Box::new(left), op, right: Box::new(right) }) } } } }
            } else if t == "call"@ {
                if l.len() != 3 { Err(len_msg("call"@, 3, l.len())) } else { match dec_expr_group(l[2], "args"@) { Err(m) => Err(m), Ok(args) => match dec_expr(l[1]) { Err(m) => Err(m), Ok(callee) => Ok(ExprV::Call { callee: Box::new(callee), args }) } } }
            } else if t == "member"@ {
                if l.len() != 4 { Err(len_msg("member"@, 4, l.len())) } else { match dec_flag(l[3], "invalid member safety flag '"@) { Err(m) => Err(m), Ok(safe) => match dec_expr(l[1]) { Err(m) => Err(m), Ok(object) => match string_of(l[2]) { Err(m) => Err(m), Ok(name) => Ok(ExprV::Member { object: Box::new(object), name, safe }) } } } }
            } else if t == "index"@ {
                if l.len() != 3 { Err(len_msg("index"@, 3, l.len())) } else { match dec_expr(l[1]) { Err(m) => Err(m), Ok(object) => match dec_expr(l[2]) { Err(m) => Err(m), Ok(index) => Ok(ExprV::Index { object: Box::new(object), index: Box::new(index) }) } } }
            } else if t == "propagate"@ {
                if l.len() != 2 { Err(len_msg("propagate"@, 2, l.len())) } else { match dec_expr(l[1]) { Err(m) => Err(m), Ok(e) => Ok(ExprV::Propagate { expr: Box::new(e) }) } }
            } else if t == "lambda"@ {
                if l.len() != 3 { Err(len_msg("lambda"@, 3, l.len())) } else { match dec_params(l[1]) { Err(m) => Err(m), Ok(params) => match dec_expr(l[2]) { Err(m) => Err(m), Ok(body) => Ok(ExprV::Lambda { params, body: Box::new(body) }) } } }
            } else if t == "if"@ {
                if l.len() != 4 { Err(len_msg("if"@, 4, l.len())) } else { match dec_expr(l[1]) { Err(m) => Err(m), Ok(condition) => match dec_block(l[2]) { Err(m) => Err(m), Ok(then_branch) => match dec_else(l[3]) { Err(m) => Err(m), Ok(else_branch) => Ok(ExprV::If { condition: Box::new(condition), then_branch, else_branch }) } } } }
            } else if t == "when"@ {
                if l.len() != 4 { Err(len_msg("when"@, 4, l.len())) } else { match dec_when_cases(l[3]) { Err(m) => Err(m), Ok(cases) => match dec_opt_string(l[1]) { Err(m) => Err(m), Ok(binding) => match dec_opt_expr(l[2]) { Err(m) => Err(m), Ok(subject) => Ok(ExprV::When { binding, subject: boxed(subject), cases }) } } } }
            } else {
                Err(quoted_msg("unknown expression tag '"@, t))
            }
                },
                _ => Err(atom_msg()),
            }
        },
        _ => Err(expected_list_msg("expression"@)),
    }
}

// ---------------------------------------------------------------------------
// Programs and artifact text.
// ---------------------------------------------------------------------------
/// The program a form stands for, or the first error in it.
pub open spec fn dec_program(f: FormV) -> Result<ProgramV, Seq<char>> {
    match f {
        FormV::List(l) => if !tagged(l, "program"@) {
            Err(tag_msg("program"@))
        } else {
            match dec_stmts(l.subrange(1, l.len() as int)) {
                Err(m) => Err(m),
                Ok(xs) => Ok(ProgramV { statements: xs }),
            }
        },
        _ => Err(expected_list_msg("program"@)),
    }
}

/// What loading the artifact text `src` gives: the program, or the error
/// message with its byte offset.
pub open spec fn decode_text(src: Seq<char>) -> Result<ProgramV, (Seq<char>, nat)> {
    let h = HEADER@;
    if !(h.len() <= src.len() && src.subrange(0, h.len() as int) == h) {
        Err(("invalid Velra artifact header"@, 0))
    } else {
        let body = src.subrange(h.len() as int, src.len() as int);
        let base = byte_offset(h, h.len() as int);
        match read_form(body, 0) {
            Err(x) => Err((x.message, base + byte_offset(body, x.pos))),
            Ok((f, e)) => {
                let j = skip_ws(body, e);
                if j < body.len() {
                    Err(("unexpected trailing artifact data"@, base + byte_offset(body, j)))
                } else {
                    match dec_program(f) {
                        Ok(p) => Ok(p),
                        Err(m) => Err((m, 0)),
                    }
                }
            },
        }
    }
}

fn decode_program(f: &Form) -> (r: Result<Program, ArtifactError>)
    ensures
        r matches Ok(x) ==> dec_program(view_form(*f)) == Ok::<ProgramV, Seq<char>>(view_program(x)),
        r matches Err(e) ==> dec_program(view_form(*f)) == Err::<ProgramV, Seq<char>>(e.message@)
            && e.offset == 0,
{
    let l = match expect_list(f, "program") {
        Ok(l) => l,
        Err(e) => return Err(e),
    };
    if let Err(e) = expect_tag(l, "program") {
        return Err(e);
    }
    let ghost lv = view_forms(l@);
    proof {
        lemma_view_forms(l@);
    }
    let mut out: Vec<Stmt> = Vec::new();
    let mut k: usize = 1;
    while k < l.len()
        invariant
            1 <= k <= l.len(),
            lv == view_forms(l@),
            lv.len() == l.len(),
            forall|i: int| 0 <= i < l.len() ==> #[trigger] lv[i] == view_form(l@[i]),
                *f == Form::List(*l),
                tagged(view_forms(l@), "program"@),
            prepend(view_stmts(out@), dec_stmts(lv.subrange(k as int, lv.len() as int))) == dec_stmts(
                lv.subrange(1, lv.len() as int),
            ),
        decreases l.len() - k,
    {
        proof {
            assert(lv.subrange(k as int, lv.len() as int).subrange(1, lv.len() - k) =~= lv.subrange(
                k + 1,
                lv.len() as int,
            ));
            assert(lv.subrange(k as int, lv.len() as int)[0] == lv[k as int]);
        }
        match decode_stmt(&l[k]) {
            Ok(x) => {
                let ghost before = out@;
                proof {
                        lemma_view_stmts_push(out@, x);
                    lemma_prepend_step(
                        view_stmts(out@),
                        view_stmt(x),
                        dec_stmts(lv.subrange(k + 1, lv.len() as int)),
                    );
                }
                out.push(x);
            },
            Err(e) => return Err(e),
        }
        k = k + 1;
    }
    proof {
        assert(lv.subrange(k as int, lv.len() as int) =~= Seq::<FormV>::empty());
        assert(view_stmts(out@) + Seq::empty() =~= view_stmts(out@));
    }
    Ok(Program { statements: out })
}

/// A reader of artifact forms over a text whose byte offsets start at a
/// given base.
pub struct FormParser {
    source: Vec<char>,
    cursor: usize,
    byte: usize,
    offset_base: usize,
}

impl FormParser {
    /// The characters being read.
    pub closed spec fn text(&self) -> Seq<char> {
        self.source@
    }

    /// The character position reached.
    pub closed spec fn position(&self) -> int {
        self.cursor as int
    }

    /// The byte offset of the start of the text.
    pub closed spec fn base(&self) -> nat {
        self.offset_base as nat
    }

    pub closed spec fn wf(&self) -> bool {
        &&& self.cursor <= self.source@.len()
        &&& self.byte == byte_offset(self.source@, self.cursor as int)
        &&& fits(self.source@)
        &&& self.offset_base + byte_offset(self.source@, self.source@.len() as int) <= usize::MAX
    }

    fn from_chars(source: Vec<char>, offset_base: usize) -> (p: Self)
        requires
            offset_base + byte_offset(source@, source@.len() as int) <= usize::MAX,
        ensures
            p.wf(),
            p.text() == source@,
            p.position() == 0,
            p.base() == offset_base,
    {
        FormParser { source, cursor: 0, byte: 0, offset_base }
    }

    /// A reader at the start of `source`, whose first byte is at
    /// `offset_base` of the whole text.
    pub fn new(source: &str, offset_base: usize) -> (p: Self)
        requires
            offset_base + byte_offset(source@, source@.len() as int) <= usize::MAX,
        ensures
            p.wf(),
            p.text() == source@,
            p.position() == 0,
            p.base() == offset_base,
    {
        let cs = chars_of(source);
        Self::from_chars(cs, offset_base)
    }

    /// Reads one form after any whitespace; an error carries the byte
    /// offset, from the base, at which the reader stopped.
    pub fn parse_form(&mut self) -> (r: Result<Form, ArtifactError>)
        requires
            old(self).wf(),
        ensures
            final(self).wf(),
            final(self).text() == old(self).text(),
            final(self).base() == old(self).base(),
            read_form(old(self).text(), old(self).position()) matches Ok((g, e)) ==> r matches Ok(
                x,
            ) && view_form(x) == g && final(self).position() == e,
            read_form(old(self).text(), old(self).position()) matches Err(x) ==> r matches Err(err)
                && err.message@ == x.message && err.offset == old(self).base() + byte_offset(
                old(self).text(),
                x.pos,
            ),
    {
        proof {
            lemma_read_form_end(self.source@, self.cursor as int);
            lemma_byte_offset_monotonic(self.source@, 0, self.source@.len() as int);
        }
        match read_form_at(&self.source, self.cursor, self.byte) {
            Ok((f, e, be)) => {
                self.cursor = e;
                self.byte = be;
                Ok(f)
            },
            Err(x) => {
                proof {
                    lemma_byte_offset_monotonic(self.source@, x.pos as int, self.source@.len() as int);
                }
                Err(ArtifactError { message: string_from(&x.message), offset: self.offset_base + x.byte })
            },
        }
    }

    /// Moves past whitespace.
    pub fn skip_whitespace(&mut self)
        requires
            old(self).wf(),
        ensures
            final(self).wf(),
            final(self).text() == old(self).text(),
            final(self).base() == old(self).base(),
            final(self).position() == skip_ws(old(self).text(), old(self).position()),
    {
        proof {
            lemma_skip_ws(self.source@, self.cursor as int);
            lemma_byte_offset_monotonic(self.source@, 0, self.source@.len() as int);
        }
        let j = skip_spaces(&self.source, self.cursor);
        let mut b = self.byte;
        let mut k = self.cursor;
        while k < j
            invariant
                self.cursor <= k <= j <= self.source@.len(),
                b == byte_offset(self.source@, k as int),
                fits(self.source@),
            decreases j - k,
        {
            proof {
                lemma_byte_offset_monotonic(self.source@, k + 1, self.source@.len() as int);
            }
            b = b + crate::text::char_width(self.source[k]);
            k = k + 1;
        }
        self.cursor = j;
        self.byte = b;
    }

    /// Whether the whole text has been read.
    pub fn is_eof(&self) -> (r: bool)
        requires
            self.wf(),
        ensures
            r == (self.position() >= self.text().len()),
    {
        self.cursor >= self.source.len()
    }

    /// An error at the position reached.
    fn error(&self, message: &str) -> (e: ArtifactError)
        requires
            self.wf(),
        ensures
            e.message@ == message@,
            e.offset == self.base() + byte_offset(self.text(), self.position()),
    {
        proof {
            lemma_byte_offset_monotonic(self.source@, self.cursor as int, self.source@.len() as int);
        }
        ArtifactError { message: string_from(&chars_of(message)), offset: self.offset_base + self.byte }
    }
}

/// Loads an artifact: the header line, then exactly one program form.
pub fn decode(source: &str) -> (r: Result<Program, ArtifactError>)
    ensures
        r matches Ok(p) ==> decode_text(source@) == Ok::<ProgramV, (Seq<char>, nat)>(view_program(p)),
        r matches Err(e) ==> decode_text(source@) == Err::<ProgramV, (Seq<char>, nat)>(
            (e.message@, e.offset as nat),
        ),
{
    let cs = chars_of(source);
    let h = chars_of(HEADER);
    let _total = source.as_bytes().len();
    proof {
        lemma_encoded_len(cs@);
        lemma_byte_offset_monotonic(cs@, 0, cs@.len() as int);
    }
    if cs.len() < h.len() || !chars_eq(&chars_range(&cs, 0, h.len()), &h) {
        return Err(shape_error(chars_of("invalid Velra artifact header")));
    }
    let body = chars_range(&cs, h.len(), cs.len());
    proof {
        lemma_byte_offset_monotonic(h@, 0, h@.len() as int);
        assert(cs@.subrange(0, h@.len() as int) == h@);
        lemma_byte_offset_prefix(cs@, h@.len() as int, h@.len() as int);
        lemma_byte_offset_suffix(cs@, h@.len() as int, cs@.len() - h@.len());
        assert forall|j: int| 0 <= j <= body@.len() implies #[trigger] byte_offset(body@, j) + byte_offset(h@, h@.len() as int)
            == byte_offset(cs@, h@.len() + j) by {
            lemma_byte_offset_suffix(cs@, h@.len() as int, j);
        }
    }
    let base = utf8_len(&h);
    let mut parser = FormParser::from_chars(body, base);
    let form = match parser.parse_form() {
        Ok(f) => f,
        Err(e) => return Err(e),
    };
    parser.skip_whitespace();
    if !parser.is_eof() {
        return Err(parser.error("unexpected trailing artifact data"));
    }
    decode_program(&form)
}


fn decode_block(f: &Form) -> (r: Result<Block, ArtifactError>)
    ensures
        r matches Ok(x) ==> dec_block(view_form(*f)) == Ok::<BlockV, Seq<char>>(view_block(x)),
        r matches Err(e) ==> dec_block(view_form(*f)) == Err::<BlockV, Seq<char>>(e.message@) && e.offset == 0,
    decreases f, 1nat,
{
    let l = match expect_nonempty_list(f, "block") {
        Ok(l) => l,
        Err(e) => return Err(e),
    };
    proof {
        lemma_view_forms(l@);
    }
    if let Err(e) = expect_tag(l, "block") {
        return Err(e);
    }
    let ghost lv = view_forms(l@);
    proof {
        lemma_view_forms(l@);
    }
    let mut out: Vec<Stmt> = Vec::new();
    let mut k: usize = 1;
    while k < l.len()
        invariant
            1 <= k <= l.len(),
            lv == view_forms(l@),
            lv.len() == l.len(),
            forall|i: int| 0 <= i < l.len() ==> #[trigger] lv[i] == view_form(l@[i]),
                *f == Form::List(*l),
                tagged(view_forms(l@), "block"@),
            prepend(view_stmts(out@), dec_stmts(lv.subrange(k as int, lv.len() as int))) == dec_stmts(
                lv.subrange(1, lv.len() as int),
            ),
        decreases l.len() - k,
    {
        proof {
            lemma_child(*f, *l, k as int);
            assert(lv.subrange(k as int, lv.len() as int).subrange(1, lv.len() - k) =~= lv.subrange(
                k + 1,
                lv.len() as int,
            ));
            assert(lv.subrange(k as int, lv.len() as int)[0] == lv[k as int]);
        }
        match decode_stmt(&l[k]) {
            Ok(x) => {
                let ghost before = out@;
                proof {
                        lemma_view_stmts_push(out@, x);
                    lemma_prepend_step(
                        view_stmts(out@),
                        view_stmt(x),
                        dec_stmts(lv.subrange(k + 1, lv.len() as int)),
                    );
                }
                out.push(x);
            },
            Err(e) => return Err(e),
        }
        k = k + 1;
    }
    proof {
        assert(lv.subrange(k as int, lv.len() as int) =~= Seq::<FormV>::empty());
        assert(view_stmts(out@) + Seq::empty() =~= view_stmts(out@));
    }
    Ok(Block { statements: out })
}

fn decode_expr_list(f: &Form, l: &Vec<Form>) -> (r: Result<Vec<Expr>, ArtifactError>)
    requires
        *f == Form::List(*l),
        l.len() > 0,
    ensures
        r matches Ok(x) ==> dec_exprs(view_forms(l@).subrange(1, l.len() as int)) == Ok::<Seq<ExprV>, Seq<char>>(view_exprs(x@)),
        r matches Err(e) ==> dec_exprs(view_forms(l@).subrange(1, l.len() as int)) == Err::<Seq<ExprV>, Seq<char>>(e.message@) && e.offset == 0,
    decreases f, 0nat,
{
    let ghost lv = view_forms(l@);
    proof {
        lemma_view_forms(l@);
    }
    let mut out: Vec<Expr> = Vec::new();
    let mut k: usize = 1;
    while k < l.len()
        invariant
            1 <= k <= l.len(),
            lv == view_forms(l@),
            lv.len() == l.len(),
            forall|i: int| 0 <= i < l.len() ==> #[trigger] lv[i] == view_form(l@[i]),
                *f == Form::List(*l),
            prepend(view_exprs(out@), dec_exprs(lv.subrange(k as int, lv.len() as int))) == dec_exprs(
                lv.subrange(1, lv.len() as int),
            ),
        decreases l.len() - k,
    {
        proof {
            lemma_child(*f, *l, k as int);
            assert(lv.subrange(k as int, lv.len() as int).subrange(1, lv.len() - k) =~= lv.subrange(
                k + 1,
                lv.len() as int,
            ));
            assert(lv.subrange(k as int, lv.len() as int)[0] == lv[k as int]);
        }
        match decode_expr(&l[k]) {
            Ok(x) => {
                let ghost before = out@;
                proof {
                        lemma_view_exprs_push(out@, x);
                    lemma_prepend_step(
                        view_exprs(out@),
                        view_expr(x),
                        dec_exprs(lv.subrange(k + 1, lv.len() as int)),
                    );
                }
                out.push(x);
            },
            Err(e) => return Err(e),
        }
        k = k + 1;
    }
    proof {
        assert(lv.subrange(k as int, lv.len() as int) =~= Seq::<FormV>::empty());
        assert(view_exprs(out@) + Seq::empty() =~= view_exprs(out@));
    }
    Ok(out)
}

fn decode_entry_list(f: &Form, l: &Vec<Form>) -> (r: Result<Vec<(Expr, Expr)>, ArtifactError>)
    requires
        *f == Form::List(*l),
        l.len() > 0,
    ensures
        r matches Ok(x) ==> dec_entries(view_forms(l@).subrange(1, l.len() as int)) == Ok::<Seq<(ExprV, ExprV)>, Seq<char>>(view_entries(x@)),
        r matches Err(e) ==> dec_entries(view_forms(l@).subrange(1, l.len() as int)) == Err::<Seq<(ExprV, ExprV)>, Seq<char>>(e.message@) && e.offset == 0,
    decreases f, 0nat,
{
    let ghost lv = view_forms(l@);
    proof {
        lemma_view_forms(l@);
    }
    let mut out: Vec<(Expr, Expr)> = Vec::new();
    let mut k: usize = 1;
    while k < l.len()
        invariant
            1 <= k <= l.len(),
            lv == view_forms(l@),
            lv.len() == l.len(),
            forall|i: int| 0 <= i < l.len() ==> #[trigger] lv[i] == view_form(l@[i]),
                *f == Form::List(*l),
            prepend(view_entries(out@), dec_entries(lv.subrange(k as int, lv.len() as int))) == dec_entries(
                lv.subrange(1, lv.len() as int),
            ),
        decreases l.len() - k,
    {
        proof {
            lemma_child(*f, *l, k as int);
            assert(lv.subrange(k as int, lv.len() as int).subrange(1, lv.len() - k) =~= lv.subrange(
                k + 1,
                lv.len() as int,
            ));
            assert(lv.subrange(k as int, lv.len() as int)[0] == lv[k as int]);
        }
        match decode_entry(&l[k]) {
            Ok(x) => {
                let ghost before = out@;
                proof {
                        lemma_view_entries_push(out@, x);
                    lemma_prepend_step(
                        view_entries(out@),
                        (view_expr(x.0), view_expr(x.1)),
                        dec_entries(lv.subrange(k + 1, lv.len() as int)),
                    );
                }
                out.push(x);
            },
            Err(e) => return Err(e),
        }
        k = k + 1;
    }
    proof {
        assert(lv.subrange(k as int, lv.len() as int) =~= Seq::<FormV>::empty());
        assert(view_entries(out@) + Seq::empty() =~= view_entries(out@));
    }
    Ok(out)
}

fn decode_expr_group(f: &Form, name: &str) -> (r: Result<Vec<Expr>, ArtifactError>)
    ensures
        r matches Ok(x) ==> dec_expr_group(view_form(*f), name@) == Ok::<Seq<ExprV>, Seq<char>>(view_exprs(x@)),
        r matches Err(e) ==> dec_expr_group(view_form(*f), name@) == Err::<Seq<ExprV>, Seq<char>>(e.message@) && e.offset == 0,
    decreases f, 1nat,
{
    let l = match expect_nonempty_list(f, name) {
        Ok(l) => l,
        Err(e) => return Err(e),
    };
    proof {
        lemma_view_forms(l@);
    }
    if let Err(e) = expect_tag(l, name) {
        return Err(e);
    }
    decode_expr_list(f, l)
}

fn decode_computed(f: &Form) -> (r: Result<Vec<(String, Expr)>, ArtifactError>)
    ensures
        r matches Ok(x) ==> dec_computed(view_form(*f)) == Ok::<Seq<(Seq<char>, ExprV)>, Seq<char>>(view_fields(x@)),
        r matches Err(e) ==> dec_computed(view_form(*f)) == Err::<Seq<(Seq<char>, ExprV)>, Seq<char>>(e.message@) && e.offset == 0,
    decreases f, 1nat,
{
    let l = match expect_nonempty_list(f, "computed fields") {
        Ok(l) => l,
        Err(e) => return Err(e),
    };
    proof {
        lemma_view_forms(l@);
    }
    if let Err(e) = expect_tag(l, "computed") {
        return Err(e);
    }
    let ghost lv = view_forms(l@);
    proof {
        lemma_view_forms(l@);
    }
    let mut out: Vec<(String, Expr)> = Vec::new();
    let mut k: usize = 1;
    while k < l.len()
        invariant
            1 <= k <= l.len(),
            lv == view_forms(l@),
            lv.len() == l.len(),
            forall|i: int| 0 <= i < l.len() ==> #[trigger] lv[i] == view_form(l@[i]),
                *f == Form::List(*l),
                tagged(view_forms(l@), "computed"@),
            prepend(view_fields(out@), dec_fields(lv.subrange(k as int, lv.len() as int))) == dec_fields(
                lv.subrange(1, lv.len() as int),
            ),
        decreases l.len() - k,
    {
        proof {
            lemma_child(*f, *l, k as int);
            assert(lv.subrange(k as int, lv.len() as int).subrange(1, lv.len() - k) =~= lv.subrange(
                k + 1,
                lv.len() as int,
            ));
            assert(lv.subrange(k as int, lv.len() as int)[0] == lv[k as int]);
        }
        match decode_field(&l[k]) {
            Ok(x) => {
                let ghost before = out@;
                proof {
                        lemma_view_fields_push(out@, x);
                    lemma_prepend_step(
                        view_fields(out@),
                        (x.0@, view_expr(x.1)),
                        dec_fields(lv.subrange(k + 1, lv.len() as int)),
                    );
                }
                out.push(x);
            },
            Err(e) => return Err(e),
        }
        k = k + 1;
    }
    proof {
        assert(lv.subrange(k as int, lv.len() as int) =~= Seq::<FormV>::empty());
        assert(view_fields(out@) + Seq::empty() =~= view_fields(out@));
    }
    Ok(out)
}

fn decode_field(f: &Form) -> (r: Result<(String, Expr), ArtifactError>)
    ensures
        r matches Ok(x) ==> dec_field(view_form(*f)) == Ok::<(Seq<char>, ExprV), Seq<char>>((x.0@, view_expr(x.1))),
        r matches Err(e) ==> dec_field(view_form(*f)) == Err::<(Seq<char>, ExprV), Seq<char>>(e.message@) && e.offset == 0,
    decreases f, 1nat,
{
    let l = match expect_nonempty_list(f, "computed field") {
        Ok(l) => l,
        Err(e) => return Err(e),
    };
    proof {
        lemma_view_forms(l@);
    }
    if let Err(e) = expect_tag(l, "field") {
        return Err(e);
    }
    if let Err(e) = expect_len(l, 3, "computed field") {
        return Err(e);
    }
    let name = match string(&l[1]) {
        Ok(x) => x,
        Err(e) => return Err(e),
    };
    proof {
        lemma_child(*f, *l, 2);
    }
    let value = match decode_expr(&l[2]) {
        Ok(x) => x,
        Err(e) => return Err(e),
    };
    Ok((name, value))
}

fn decode_entry(f: &Form) -> (r: Result<(Expr, Expr), ArtifactError>)
    ensures
        r matches Ok(x) ==> dec_entry(view_form(*f)) == Ok::<(ExprV, ExprV), Seq<char>>((view_expr(x.0), view_expr(x.1))),
        r matches Err(e) ==> dec_entry(view_form(*f)) == Err::<(ExprV, ExprV), Seq<char>>(e.message@) && e.offset == 0,
    decreases f, 1nat,
{
    let l = match expect_nonempty_list(f, "map entry") {
        Ok(l) => l,
        Err(e) => return Err(e),
    };
    proof {
        lemma_view_forms(l@);
    }
    if let Err(e) = expect_tag(l, "entry") {
        return Err(e);
    }
    if let Err(e) = expect_len(l, 3, "map entry") {
        return Err(e);
    }
    proof {
        lemma_child(*f, *l, 1);
    }
    let key = match decode_expr(&l[1]) {
        Ok(x) => x,
        Err(e) => return Err(e),
    };
    proof {
        lemma_child(*f, *l, 2);
    }
    let value = match decode_expr(&l[2]) {
        Ok(x) => x,
        Err(e) => return Err(e),
    };
    Ok((key, value))
}

fn decode_when_cases(f: &Form) -> (r: Result<Vec<WhenCase>, ArtifactError>)
    ensures
        r matches Ok(x) ==> dec_when_cases(view_form(*f)) == Ok::<Seq<WhenCaseV>, Seq<char>>(view_cases(x@)),
        r matches Err(e) ==> dec_when_cases(view_form(*f)) == Err::<Seq<WhenCaseV>, Seq<char>>(e.message@) && e.offset == 0,
    decreases f, 1nat,
{
    let l = match expect_nonempty_list(f, "when cases") {
        Ok(l) => l,
        Err(e) => return Err(e),
    };
    proof {
        lemma_view_forms(l@);
    }
    if let Err(e) = expect_tag(l, "cases") {
        return Err(e);
    }
    let ghost lv = view_forms(l@);
    proof {
        lemma_view_forms(l@);
    }
    let mut out: Vec<WhenCase> = Vec::new();
    let mut k: usize = 1;
    while k < l.len()
        invariant
            1 <= k <= l.len(),
            lv == view_forms(l@),
            lv.len() == l.len(),
            forall|i: int| 0 <= i < l.len() ==> #[trigger] lv[i] == view_form(l@[i]),
                *f == Form::List(*l),
                tagged(view_forms(l@), "cases"@),
            prepend(view_cases(out@), dec_cases(lv.subrange(k as int, lv.len() as int))) == dec_cases(
                lv.subrange(1, lv.len() as int),
            ),
        decreases l.len() - k,
    {
        proof {
            lemma_child(*f, *l, k as int);
            assert(lv.subrange(k as int, lv.len() as int).subrange(1, lv.len() - k) =~= lv.subrange(
                k + 1,
                lv.len() as int,
            ));
            assert(lv.subrange(k as int, lv.len() as int)[0] == lv[k as int]);
        }
        match decode_when_case(&l[k]) {
            Ok(x) => {
                let ghost before = out@;
                proof {
                        lemma_view_cases_push(out@, x);
                    lemma_prepend_step(
                        view_cases(out@),
                        view_case(x),
                        dec_cases(lv.subrange(k + 1, lv.len() as int)),
                    );
                }
                out.push(x);
            },
            Err(e) => return Err(e),
        }
        k = k + 1;
    }
    proof {
        assert(lv.subrange(k as int, lv.len() as int) =~= Seq::<FormV>::empty());
        assert(view_cases(out@) + Seq::empty() =~= view_cases(out@));
    }
    Ok(out)
}

fn decode_when_case(f: &Form) -> (r: Result<WhenCase, ArtifactError>)
    ensures
        r matches Ok(x) ==> dec_case(view_form(*f)) == Ok::<WhenCaseV, Seq<char>>(view_case(x)),
        r matches Err(e) ==> dec_case(view_form(*f)) == Err::<WhenCaseV, Seq<char>>(e.message@) && e.offset == 0,
    decreases f, 1nat,
{
    let l = match expect_nonempty_list(f, "when case") {
        Ok(l) => l,
        Err(e) => return Err(e),
    };
    proof {
        lemma_view_forms(l@);
    }
    if let Err(e) = expect_tag(l, "case") {
        return Err(e);
    }
    if let Err(e) = expect_len(l, 5, "when case") {
        return Err(e);
    }
    proof {
        lemma_child(*f, *l, 1);
    }
    let patterns = match decode_expr_group(&l[1], "patterns") {
        Ok(x) => x,
        Err(e) => return Err(e),
    };
    let is_else = match decode_flag(&l[4], "invalid when else flag '") {
        Ok(x) => x,
        Err(e) => return Err(e),
    };
    proof {
        lemma_child(*f, *l, 2);
    }
    let guard = match decode_optional_expr(&l[2]) {
        Ok(x) => x,
        Err(e) => return Err(e),
    };
    proof {
        lemma_child(*f, *l, 3);
    }
    let body = match decode_when_body(&l[3]) {
        Ok(x) => x,
        Err(e) => return Err(e),
    };
    Ok(WhenCase { patterns, guard, body, is_else })
}

fn decode_when_body(f: &Form) -> (r: Result<WhenBody, ArtifactError>)
    ensures
        r matches Ok(x) ==> dec_wbody(view_form(*f)) == Ok::<WhenBodyV, Seq<char>>(view_wbody(x)),
        r matches Err(e) ==> dec_wbody(view_form(*f)) == Err::<WhenBodyV, Seq<char>>(e.message@) && e.offset == 0,
    decreases f, 1nat,
{
    let l = match expect_nonempty_list(f, "when body") {
        Ok(l) => l,
        Err(e) => return Err(e),
    };
    proof {
        lemma_view_forms(l@);
    }
    if let Err(e) = expect_len(l, 2, "when body") {
        return Err(e);
    }
    let t = match atom(&l[0]) {
        Ok(t) => t,
        Err(e) => return Err(e),
    };
    proof {
        lemma_child(*f, *l, 1);
    }
    if chars_eq_str(t, "when-expr") {
        match decode_expr(&l[1]) {
            Ok(x) => Ok(WhenBody::Expr(x)),
            Err(e) => Err(e),
        }
    } else if chars_eq_str(t, "when-block") {
        match decode_block(&l[1]) {
            Ok(x) => Ok(WhenBody::Block(x)),
            Err(e) => Err(e),
        }
    } else {
        Err(quoted_error("unknown when body tag '", t))
    }
}

fn decode_function_body(f: &Form) -> (r: Result<FunctionBody, ArtifactError>)
    ensures
        r matches Ok(x) ==> dec_fbody(view_form(*f)) == Ok::<FunctionBodyV, Seq<char>>(view_fbody(x)),
        r matches Err(e) ==> dec_fbody(view_form(*f)) == Err::<FunctionBodyV, Seq<char>>(e.message@) && e.offset == 0,
    decreases f, 1nat,
{
    let l = match expect_nonempty_list(f, "function body") {
        Ok(l) => l,
        Err(e) => return Err(e),
    };
    proof {
        lemma_view_forms(l@);
    }
    if let Err(e) = expect_len(l, 2, "function body") {
        return Err(e);
    }
    let t = match atom(&l[0]) {
        Ok(t) => t,
        Err(e) => return Err(e),
    };
    proof {
        lemma_child(*f, *l, 1);
    }
    if chars_eq_str(t, "body-expr") {
        match decode_expr(&l[1]) {
            Ok(x) => Ok(FunctionBody::Expr(x)),
            Err(e) => Err(e),
        }
    } else if chars_eq_str(t, "body-block") {
        match decode_block(&l[1]) {
            Ok(x) => Ok(FunctionBody::Block(x)),
            Err(e) => Err(e),
        }
    } else {
        Err(quoted_error("unknown function body tag '", t))
    }
}

fn decode_else(f: &Form) -> (r: Result<Option<ElseBranch>, ArtifactError>)
    ensures
        r matches Ok(x) ==> dec_else(view_form(*f)) == Ok::<Option<ElseBranchV>, Seq<char>>(view_else(x)),
        r matches Err(e) ==> dec_else(view_form(*f)) == Err::<Option<ElseBranchV>, Seq<char>>(e.message@) && e.offset == 0,
    decreases f, 1nat,
{
    let l = match expect_nonempty_list(f, "else branch") {
        Ok(l) => l,
        Err(e) => return Err(e),
    };
    proof {
        lemma_view_forms(l@);
    }
    let t = match atom(&l[0]) {
        Ok(t) => t,
        Err(e) => return Err(e),
    };
    if chars_eq_str(t, "none") {
        if let Err(e) = expect_len(l, 1, "none") {
            return Err(e);
        }
        Ok(None)
    } else if chars_eq_str(t, "else-block") {
        if let Err(e) = expect_len(l, 2, "else-block") {
            return Err(e);
        }
        proof {
            lemma_child(*f, *l, 1);
        }
        let b = match decode_block(&l[1]) {
            Ok(x) => x,
            Err(e) => return Err(e),
        };
        Ok(Some(ElseBranch::Block(b)))
    } else if chars_eq_str(t, "else-if") {
        if let Err(e) = expect_len(l, 2, "else-if") {
            return Err(e);
        }
        proof {
            lemma_child(*f, *l, 1);
        }
        let e = match decode_expr(&l[1]) {
            Ok(x) => x,
            Err(e) => return Err(e),
        };
        Ok(Some(ElseBranch::If(Box::new(e))))
    } else {
        Err(quoted_error("unknown else branch tag '", t))
    }
}

fn decode_optional_expr(f: &Form) -> (r: Result<Option<Expr>, ArtifactError>)
    ensures
        r matches Ok(x) ==> dec_opt_expr(view_form(*f)) == Ok::<Option<ExprV>, Seq<char>>(view_opt_expr(x)),
        r matches Err(e) ==> dec_opt_expr(view_form(*f)) == Err::<Option<ExprV>, Seq<char>>(e.message@) && e.offset == 0,
    decreases f, 1nat,
{
    let l = match expect_nonempty_list(f, "optional expression") {
        Ok(l) => l,
        Err(e) => return Err(e),
    };
    proof {
        lemma_view_forms(l@);
    }
    let t = match atom(&l[0]) {
        Ok(t) => t,
        Err(e) => return Err(e),
    };
    if chars_eq_str(t, "none") {
        if let Err(e) = expect_len(l, 1, "none") {
            return Err(e);
        }
        Ok(None)
    } else if chars_eq_str(t, "some") {
        if let Err(e) = expect_len(l, 2, "some") {
            return Err(e);
        }
        proof {
            lemma_child(*f, *l, 1);
        }
        let e = match decode_expr(&l[1]) {
            Ok(x) => x,
            Err(e) => return Err(e),
        };
        Ok(Some(e))
    } else {
        Err(quoted_error("unknown optional expression tag '", t))
    }
}

fn decode_stmt(f: &Form) -> (r: Result<Stmt, ArtifactError>)
    ensures
        r matches Ok(x) ==> dec_stmt(view_form(*f)) == Ok::<StmtV, Seq<char>>(view_stmt(x)),
        r matches Err(e) ==> dec_stmt(view_form(*f)) == Err::<StmtV, Seq<char>>(e.message@) && e.offset == 0,
    decreases f, 1nat,
{
    let l = match expect_nonempty_list(f, "statement") {
        Ok(l) => l,
        Err(e) => return Err(e),
    };
    proof {
        lemma_view_forms(l@);
    }
    let t = match atom(&l[0]) {
        Ok(t) => t,
        Err(e) => return Err(e),
    };
    if chars_eq_str(t, "use") {
        let path = match decode_string_list(l) {
            Ok(x) => x,
            Err(e) => return Err(e),
        };
        Ok(Stmt::Use { path })
    } else if chars_eq_str(t, "var") {
        if let Err(e) = expect_len(l, 4, "var") {
            return Err(e);
        }
        let name = match string(&l[1]) {
            Ok(x) => x,
            Err(e) => return Err(e),
        };
        let ty = match decode_optional_string(&l[2]) {
            Ok(x) => x,
            Err(e) => return Err(e),
        };
        proof {
            lemma_child(*f, *l, 3);
        }
        let value = match decode_expr(&l[3]) {
            Ok(x) => x,
            Err(e) => return Err(e),
        };
        Ok(Stmt::Var { name, type_annotation: ty, value })
    } else if chars_eq_str(t, "assign") {
        if let Err(e) = expect_len(l, 3, "assign") {
            return Err(e);
        }
        proof {
            lemma_child(*f, *l, 1);
        }
        let target = match decode_expr(&l[1]) {
            Ok(x) => x,
            Err(e) => return Err(e),
        };
        proof {
            lemma_child(*f, *l, 2);
        }
        let value = match decode_expr(&l[2]) {
            Ok(x) => x,
            Err(e) => return Err(e),
        };
        Ok(Stmt::Assign { target, value })
    } else if chars_eq_str(t, "return") {
        if let Err(e) = expect_len(l, 2, "return") {
            return Err(e);
        }
        proof {
            lemma_child(*f, *l, 1);
        }
        let value = match decode_optional_expr(&l[1]) {
            Ok(x) => x,
            Err(e) => return Err(e),
        };
        Ok(Stmt::Return(value))
    } else if chars_eq_str(t, "while") {
        if let Err(e) = expect_len(l, 3, "while") {
            return Err(e);
        }
        proof {
            lemma_child(*f, *l, 1);
        }
        let condition = match decode_expr(&l[1]) {
            Ok(x) => x,
            Err(e) => return Err(e),
        };
        proof {
            lemma_child(*f, *l, 2);
        }
        let body = match decode_block(&l[2]) {
            Ok(x) => x,
            Err(e) => return Err(e),
        };
        Ok(Stmt::While { condition, body })
    } else if chars_eq_str(t, "break") {
        if let Err(e) = expect_len(l, 1, "break") {
            return Err(e);
        }
        Ok(Stmt::Break)
    } else if chars_eq_str(t, "continue") {
        if let Err(e) = expect_len(l, 1, "continue") {
            return Err(e);
        }
        Ok(Stmt::Continue)
    } else if chars_eq_str(t, "for") {
        if let Err(e) = expect_len(l, 4, "for") {
            return Err(e);
        }
        let name = match string(&l[1]) {
            Ok(x) => x,
            Err(e) => return Err(e),
        };
        proof {
            lemma_child(*f, *l, 2);
        }
        let iterable = match decode_expr(&l[2]) {
            Ok(x) => x,
            Err(e) => return Err(e),
        };
        proof {
            lemma_child(*f, *l, 3);
        }
        let body = match decode_block(&l[3]) {
            Ok(x) => x,
            Err(e) => return Err(e),
        };
        Ok(Stmt::For { name, iterable, body })
    } else if chars_eq_str(t, "function") {
        if let Err(e) = expect_len(l, 4, "function") {
            return Err(e);
        }
        let name = match string(&l[1]) {
            Ok(x) => x,
            Err(e) => return Err(e),
        };
        let params = match decode_params(&l[2]) {
            Ok(x) => x,
            Err(e) => return Err(e),
        };
        proof {
            lemma_child(*f, *l, 3);
        }
        let body = match decode_function_body(&l[3]) {
            Ok(x) => x,
            Err(e) => return Err(e),
        };
        Ok(Stmt::Function(FunctionDecl { name, params, body }))
    } else if chars_eq_str(t, "data") {
        if let Err(e) = expect_len(l, 4, "data") {
            return Err(e);
        }
        let name = match string(&l[1]) {
            Ok(x) => x,
            Err(e) => return Err(e),
        };
        let params = match decode_params(&l[2]) {
            Ok(x) => x,
            Err(e) => return Err(e),
        };
        proof {
            lemma_child(*f, *l, 3);
        }
        let computed = match decode_computed(&l[3]) {
            Ok(x) => x,
            Err(e) => return Err(e),
        };
        Ok(Stmt::Data(DataDecl { name, params, computed }))
    } else if chars_eq_str(t, "enum") {
        if let Err(e) = expect_len(l, 3, "enum") {
            return Err(e);
        }
        let variants = match decode_variants(&l[2]) {
            Ok(x) => x,
            Err(e) => return Err(e),
        };
        let name = match string(&l[1]) {
            Ok(x) => x,
            Err(e) => return Err(e),
        };
        Ok(Stmt::Enum(EnumDecl { name, variants }))
    } else if chars_eq_str(t, "expr") {
        if let Err(e) = expect_len(l, 2, "expr") {
            return Err(e);
        }
        proof {
            lemma_child(*f, *l, 1);
        }
        let e = match decode_expr(&l[1]) {
            Ok(x) => x,
            Err(e) => return Err(e),
        };
        Ok(Stmt::Expr(e))
    } else if chars_eq_str(t, "pub") {
        if let Err(e) = expect_len(l, 2, "pub") {
            return Err(e);
        }
        proof {
            lemma_child(*f, *l, 1);
        }
        let s = match decode_stmt(&l[1]) {
            Ok(x) => x,
            Err(e) => return Err(e),
        };
        Ok(Stmt::Pub(Box::new(s)))
    } else {
        Err(quoted_error("unknown statement tag '", t))
    }
}

fn decode_expr(f: &Form) -> (r: Result<Expr, ArtifactError>)
    ensures
        r matches Ok(x) ==> dec_expr(view_form(*f)) == Ok::<ExprV, Seq<char>>(view_expr(x)),
        r matches Err(e) ==> dec_expr(view_form(*f)) == Err::<ExprV, Seq<char>>(e.message@) && e.offset == 0,
    decreases f, 1nat,
{
    if let Form::Atom(a) = f {
        if chars_eq_str(a, "null") {
            return Ok(Expr::Null);
        }
    }
    let l = match expect_nonempty_list(f, "expression") {
        Ok(l) => l,
        Err(e) => return Err(e),
    };
    proof {
        lemma_view_forms(l@);
    }
    let t = match atom(&l[0]) {
        Ok(t) => t,
        Err(e) => return Err(e),
    };
    if chars_eq_str(t, "bool") {
        if let Err(e) = expect_len(l, 2, "bool") {
            return Err(e);
        }
        let v = match decode_flag(&l[1], "invalid bool '") {
            Ok(x) => x,
            Err(e) => return Err(e),
        };
        Ok(Expr::Bool(v))
    } else if chars_eq_str(t, "int") {
        if let Err(e) = expect_len(l, 2, "int") {
            return Err(e);
        }
        let v = match decode_int(&l[1]) {
            Ok(x) => x,
            Err(e) => return Err(e),
        };
        Ok(Expr::Int(v))
    } else if chars_eq_str(t, "float") {
        if let Err(e) = expect_len(l, 2, "float") {
            return Err(e);
        }
        let v = match decode_float(&l[1]) {
            Ok(x) => x,
            Err(e) => return Err(e),
        };
        Ok(Expr::Float(v))
    } else if chars_eq_str(t, "string") {
        if let Err(e) = expect_len(l, 2, "string") {
            return Err(e);
        }
        let v = match string(&l[1]) {
            Ok(x) => x,
            Err(e) => return Err(e),
        };
        Ok(Expr::String(v))
    } else if chars_eq_str(t, "ident") {
        if let Err(e) = expect_len(l, 2, "ident") {
            return Err(e);
        }
        let v = match string(&l[1]) {
            Ok(x) => x,
            Err(e) => return Err(e),
        };
        Ok(Expr::Ident(v))
    } else if chars_eq_str(t, "list") {
        let items = match decode_expr_list(f, l) {
            Ok(x) => x,
            Err(e) => return Err(e),
        };
        Ok(Expr::List(items))
    } else if chars_eq_str(t, "map") {
        let entries = match decode_entry_list(f, l) {
            Ok(x) => x,
            Err(e) => return Err(e),
        };
        Ok(Expr::MapLiteral(entries))
    } else if chars_eq_str(t, "set") {
        let items = match decode_expr_list(f, l) {
            Ok(x) => x,
            Err(e) => return Err(e),
        };
        Ok(Expr::SetLiteral(items))
    } else if chars_eq_str(t, "rest") {
        if let Err(e) = expect_len(l, 2, "rest") {
            return Err(e);
        }
        let v = match string(&l[1]) {
            Ok(x) => x,
            Err(e) => return Err(e),
        };
        Ok(Expr::Rest(v))
    } else if chars_eq_str(t, "unary") {
        if let Err(e) = expect_len(l, 3, "unary") {
            return Err(e);
        }
        let op = match decode_unary_form(&l[1]) {
            Ok(x) => x,
            Err(e) => return Err(e),
        };
        proof {
            lemma_child(*f, *l, 2);
        }
        let e = match decode_expr(&l[2]) {
            Ok(x) => x,
            Err(e) => return Err(e),
        };
        Ok(Expr::Unary { op, expr: Box::new(e) })
    } else if chars_eq_str(t, "binary") {
        if let Err(e) = expect_len(l, 4, "binary") {
            return Err(e);
        }
        let op = match decode_binary_form(&l[1]) {
            Ok(x) => x,
            Err(e) => return Err(e),
        };
        proof {
            lemma_child(*f, *l, 2);
        }
        let left = match decode_expr(&l[2]) {
            Ok(x) => x,
            Err(e) => return Err(e),
        };
        proof {
            lemma_child(*f, *l, 3);
        }
        let right = match decode_expr(&l[3]) {
            Ok(x) => x,
            Err(e) => return Err(e),
        };
        Ok(Expr::Binary { left: Box::new(left), op, right: Box::new(right) })
    } else if chars_eq_str(t, "call") {
        if let Err(e) = expect_len(l, 3, "call") {
            return Err(e);
        }
        proof {
            lemma_child(*f, *l, 2);
        }
        let args = match decode_expr_group(&l[2], "args") {
            Ok(x) => x,
            Err(e) => return Err(e),
        };
        proof {
            lemma_child(*f, *l, 1);
        }
        let callee = match decode_expr(&l[1]) {
            Ok(x) => x,
            Err(e) => return Err(e),
        };
        Ok(Expr::Call { callee: Box::new(callee), args })
    } else if chars_eq_str(t, "member") {
        if let Err(e) = expect_len(l, 4, "member") {
            return Err(e);
        }
        let safe = match decode_flag(&l[3], "invalid member safety flag '") {
            Ok(x) => x,
            Err(e) => return Err(e),
        };
        proof {
            lemma_child(*f, *l, 1);
        }
        let object = match decode_expr(&l[1]) {
            Ok(x) => x,
            Err(e) => return Err(e),
        };
        let name = match string(&l[2]) {
            Ok(x) => x,
            Err(e) => return Err(e),
        };
        Ok(Expr::Member { object: Box::new(object), name, safe })
    } else if chars_eq_str(t, "index") {
        if let Err(e) = expect_len(l, 3, "index") {
            return Err(e);
        }
        proof {
            lemma_child(*f, *l, 1);
        }
        let object = match decode_expr(&l[1]) {
            Ok(x) => x,
            Err(e) => return Err(e),
        };
        proof {
            lemma_child(*f, *l, 2);
        }
        let index = match decode_expr(&l[2]) {
            Ok(x) => x,
            Err(e) => return Err(e),
        };
        Ok(Expr::Index { object: Box::new(object), index: Box::new(index) })
    } else if chars_eq_str(t, "propagate") {
        if let Err(e) = expect_len(l, 2, "propagate") {
            return Err(e);
        }
        proof {
            lemma_child(*f, *l, 1);
        }
        let e = match decode_expr(&l[1]) {
            Ok(x) => x,
            Err(e) => return Err(e),
        };
        Ok(Expr::Propagate { expr: Box::new(e) })
    } else if chars_eq_str(t, "lambda") {
        if let Err(e) = expect_len(l, 3, "lambda") {
            return Err(e);
        }
        let params = match decode_params(&l[1]) {
            Ok(x) => x,
            Err(e) => return Err(e),
        };
        proof {
            lemma_child(*f, *l, 2);
        }
        let body = match decode_expr(&l[2]) {
            Ok(x) => x,
            Err(e) => return Err(e),
        };
        Ok(Expr::Lambda { params, body: Box::new(body) })
    } else if chars_eq_str(t, "if") {
        if let Err(e) = expect_len(l, 4, "if") {
            return Err(e);
        }
        proof {
            lemma_child(*f, *l, 1);
        }
        let condition = match decode_expr(&l[1]) {
            Ok(x) => x,
            Err(e) => return Err(e),
        };
        proof {
            lemma_child(*f, *l, 2);
        }
        let then_branch = match decode_block(&l[2]) {
            Ok(x) => x,
            Err(e) => return Err(e),
        };
        proof {
            lemma_child(*f, *l, 3);
        }
        let else_branch = match decode_else(&l[3]) {
            Ok(x) => x,
            Err(e) => return Err(e),
        };
        Ok(Expr::If { condition: Box::new(condition), then_branch, else_branch })
    } else if chars_eq_str(t, "when") {
        if let Err(e) = expect_len(l, 4, "when") {
            return Err(e);
        }
        proof {
            lemma_child(*f, *l, 3);
        }
        let cases = match decode_when_cases(&l[3]) {
            Ok(x) => x,
            Err(e) => return Err(e),
        };
        let binding = match decode_optional_string(&l[1]) {
            Ok(x) => x,
            Err(e) => return Err(e),
        };
        proof {
            lemma_child(*f, *l, 2);
        }
        let subject = match decode_optional_expr(&l[2]) {
            Ok(x) => x,
            Err(e) => return Err(e),
        };
        Ok(Expr::When { binding, subject: match subject { Some(s) => Some(Box::new(s)), None => None }, cases })
    } else {
        Err(quoted_error("unknown expression tag '", t))
    }
}


/// Every offset at which loading an artifact fails is a character boundary
/// of the artifact's text.
pub proof fn lemma_decode_offsets_on_boundaries(src: Seq<char>)
    ensures
        decode_text(src) matches Err((_, offset)) ==> on_boundary(src, offset),
{
    let h = HEADER@;
    if h.len() <= src.len() && src.subrange(0, h.len() as int) == h {
        let body = src.subrange(h.len() as int, src.len() as int);
        let base = byte_offset(h, h.len() as int);
        lemma_byte_offset_prefix(src, h.len() as int, h.len() as int);
        lemma_read_form_end(body, 0);
        match read_form(body, 0) {
            Err(x) => {
                lemma_byte_offset_suffix(src, h.len() as int, x.pos);
                assert(body =~= src.subrange(h.len() as int, src.len() as int));
                assert(0 <= h.len() + x.pos <= src.len() && byte_offset(src, h.len() + x.pos)
                    == base + byte_offset(body, x.pos));
            },
            Ok((f, e)) => {
                lemma_skip_ws(body, e);
                let j = skip_ws(body, e);
                if j < body.len() {
                    lemma_byte_offset_suffix(src, h.len() as int, j);
                    assert(0 <= h.len() + j <= src.len() && byte_offset(src, h.len() + j) == base
                        + byte_offset(body, j));
                } else {
                    assert(0 <= 0 <= src.len() && byte_offset(src, 0) == 0);
                }
            },
        }
    } else {
        assert(0 <= 0 <= src.len() && byte_offset(src, 0) == 0);
    }
}

} // verus!
