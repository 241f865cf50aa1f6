//! Writing syntax trees as `VELRA-AST-1` artifacts.
//!
//! `stmt_form`, `expr_form` and their companions say which form stands for
//! each node; `encode_text` is the artifact text of a program: the header,
//! then the printed program form.  The laws at the end say that loading an
//! encoded program gives it back.
use vstd::prelude::*;
use crate::artifact::HEADER;
use crate::ast::{
    lemma_view_cases, lemma_view_entries, lemma_view_exprs, lemma_view_fields, lemma_view_stmts,
    boxed, view_block, view_case, view_cases, view_else, view_fbody, view_opt_expr, view_wbody, view_entries, view_expr, view_exprs, view_fields,
    view_opt_string, view_param, view_params, view_program, view_stmt, view_stmts, view_strings,
    view_variant, view_variants, BinaryOp, Block, BlockV, ElseBranch, ElseBranchV, EnumVariantDecl,
    Expr, ExprV, FunctionBody, FunctionBodyV, Param, ParamV, Program, ProgramV, Stmt, StmtV,
    UnaryOp, VariantV, WhenBody, WhenBodyV, WhenCase, WhenCaseV,
};
use crate::form::{lemma_view_forms, lemma_view_forms_push, print_form, print_into, view_form, view_forms, Form, FormV};
use crate::numbers::{int_text, push_int};
use crate::text::{chars_of, string_from};

verus! {

// ---------------------------------------------------------------------------
// The form of each node.
// ---------------------------------------------------------------------------
/// A list form: the atom `tag`, then `fields`.
pub open spec fn node(tag: Seq<char>, fields: Seq<FormV>) -> FormV {
    FormV::List(seq![FormV::Atom(tag)] + fields)
}

pub open spec fn none_form() -> FormV {
    node("none"@, Seq::empty())
}

pub open spec fn some_form(f: FormV) -> FormV {
    node("some"@, seq![f])
}

pub open spec fn opt_string_form(o: Option<Seq<char>>) -> FormV {
    match o {
        Some(s) => some_form(FormV::Str(s)),
        None => none_form(),
    }
}

pub open spec fn str_forms(s: Seq<Seq<char>>) -> Seq<FormV> {
    s.map_values(|p: Seq<char>| FormV::Str(p))
}

pub open spec fn flag_form(b: bool) -> FormV {
    FormV::Atom(if b { "true"@ } else { "false"@ })
}

pub open spec fn param_form(p: ParamV) -> FormV {
    node("param"@, seq![FormV::Str(p.name), opt_string_form(p.type_annotation)])
}

pub open spec fn param_forms(ps: Seq<ParamV>) -> Seq<FormV> {
    ps.map_values(|p: ParamV| param_form(p))
}

pub open spec fn params_form(ps: Seq<ParamV>) -> FormV {
    node("params"@, param_forms(ps))
}

pub open spec fn variant_form(v: VariantV) -> FormV {
    node("variant"@, seq![FormV::Str(v.name), params_form(v.params)])
}

pub open spec fn variant_forms(vs: Seq<VariantV>) -> Seq<FormV> {
    vs.map_values(|v: VariantV| variant_form(v))
}

pub open spec fn variants_form(vs: Seq<VariantV>) -> FormV {
    node("variants"@, variant_forms(vs))
}

pub open spec fn unary_name(op: UnaryOp) -> Seq<char> {
    match op {
        UnaryOp::Negate => "negate"@,
        UnaryOp::Not => "not"@,
    }
}

pub open spec fn binary_name(op: BinaryOp) -> Seq<char> {
    match op {
        BinaryOp::Elvis => "elvis"@,
        BinaryOp::Or => "or"@,
        BinaryOp::And => "and"@,
        BinaryOp::Equal => "equal"@,
        BinaryOp::NotEqual => "not-equal"@,
        BinaryOp::Less => "less"@,
        BinaryOp::LessEqual => "less-equal"@,
        BinaryOp::Greater => "greater"@,
        BinaryOp::GreaterEqual => "greater-equal"@,
        BinaryOp::Add => "add"@,
        BinaryOp::Subtract => "subtract"@,
        BinaryOp::Multiply => "multiply"@,
        BinaryOp::Divide => "divide"@,
        BinaryOp::Remainder => "remainder"@,
    }
}

pub open spec fn stmt_form(s: StmtV) -> FormV
    decreases s,
{
    match s {
        StmtV::Use { path } => node("use"@, str_forms(path)),
        StmtV::Var { name, type_annotation, value } => node(
            "var"@,
            seq![FormV::Str(name), opt_string_form(type_annotation), expr_form(value)],
        ),
        StmtV::Assign { target, value } => node("assign"@, seq![expr_form(target), expr_form(value)]),
        StmtV::Return(value) => node("return"@, seq![opt_expr_form(value)]),
        StmtV::While { condition, body } => node("while"@, seq![expr_form(condition), block_form(body)]),
        StmtV::Break => node("break"@, Seq::empty()),
        StmtV::Continue => node("continue"@, Seq::empty()),
        StmtV::For { name, iterable, body } => node(
            "for"@,
            seq![FormV::Str(name), expr_form(iterable), block_form(body)],
        ),
        StmtV::Function { name, params, body } => node(
            "function"@,
            seq![FormV::Str(name), params_form(params), fbody_form(body)],
        ),
        StmtV::Data { name, params, computed } => node(
            "data"@,
            seq![FormV::Str(name), params_form(params), node("computed"@, field_forms(computed))],
        ),
        StmtV::Enum { name, variants } => node("enum"@, seq![FormV::Str(name), variants_form(variants)]),
        StmtV::Expr(e) => node("expr"@, seq![expr_form(e)]),
        StmtV::Pub(inner) => node("pub"@, seq![stmt_form(*inner)]),
    }
}

pub open spec fn block_form(b: BlockV) -> FormV
    decreases b,
{
    node("block"@, stmt_forms(b.statements))
}

pub open spec fn expr_form(e: ExprV) -> FormV
    decreases e,
{
    match e {
        ExprV::Null => FormV::Atom("null"@),
        ExprV::Bool(b) => node("bool"@, seq![flag_form(b)]),
        ExprV::Int(v) => node("int"@, seq![FormV::Atom(int_text(v as int))]),
        // A float is written as the text of its literal, which reads back
        // as the same number.
        ExprV::Float(t) => node("float"@, seq![FormV::Atom(t)]),
        ExprV::Str(s) => node("string"@, seq![FormV::Str(s)]),
        ExprV::Ident(s) => node("ident"@, seq![FormV::Str(s)]),
        ExprV::List(items) => node("list"@, expr_forms(items)),
        ExprV::MapLiteral(entries) => node("map"@, entry_forms(entries)),
        ExprV::SetLiteral(items) => node("set"@, expr_forms(items)),
        ExprV::Rest(s) => node("rest"@, seq![FormV::Str(s)]),
        ExprV::Unary { op, expr } => node("unary"@, seq![FormV::Atom(unary_name(op)), expr_form(*expr)]),
        ExprV::Binary { left, op, right } => node(
            "binary"@,
            seq![FormV::Atom(binary_name(op)), expr_form(*left), expr_form(*right)],
        ),
        ExprV::Call { callee, args } => node(
            "call"@,
            seq![expr_form(*callee), node("args"@, expr_forms(args))],
        ),
        ExprV::Member { object, name, safe } => node(
            "member"@,
            seq![expr_form(*object), FormV::Str(name), flag_form(safe)],
        ),
        ExprV::Index { object, index } => node("index"@, seq![expr_form(*object), expr_form(*index)]),
        ExprV::Propagate { expr } => node("propagate"@, seq![expr_form(*expr)]),
        ExprV::Lambda { params, body } => node("lambda"@, seq![params_form(params), expr_form(*body)]),
        ExprV::If { condition, then_branch, else_branch } => node(
            "if"@,
            seq![expr_form(*condition), block_form(then_branch), else_form(else_branch)],
        ),
        ExprV::When { binding, subject, cases } => node(
            "when"@,
            seq![opt_string_form(binding), subject_form(subject), node("cases"@, case_forms(cases))],
        ),
    }
}

pub open spec fn case_form(c: WhenCaseV) -> FormV
    decreases c,
{
    node(
        "case"@,
        seq![
            node("patterns"@, expr_forms(c.patterns)),
            opt_expr_form(c.guard),
            wbody_form(c.body),
            flag_form(c.is_else),
        ],
    )
}

pub open spec fn opt_expr_form(o: Option<ExprV>) -> FormV
    decreases o,
{
    match o {
        Some(e) => some_form(expr_form(e)),
        None => none_form(),
    }
}

pub open spec fn subject_form(o: Option<Box<ExprV>>) -> FormV
    decreases o,
{
    match o {
        Some(e) => some_form(expr_form(*e)),
        None => none_form(),
    }
}

pub open spec fn fbody_form(b: FunctionBodyV) -> FormV
    decreases b,
{
    match b {
        FunctionBodyV::Expr(e) => node("body-expr"@, seq![expr_form(e)]),
        FunctionBodyV::Block(bl) => node("body-block"@, seq![block_form(bl)]),
    }
}

pub open spec fn wbody_form(b: WhenBodyV) -> FormV
    decreases b,
{
    match b {
        WhenBodyV::Expr(e) => node("when-expr"@, seq![expr_form(e)]),
        WhenBodyV::Block(bl) => node("when-block"@, seq![block_form(bl)]),
    }
}

pub open spec fn else_form(b: Option<ElseBranchV>) -> FormV
    decreases b,
{
    match b {
        None => none_form(),
        Some(ElseBranchV::Block(bl)) => node("else-block"@, seq![block_form(bl)]),
        Some(ElseBranchV::If(x)) => node("else-if"@, seq![expr_form(*x)]),
    }
}

pub open spec fn stmt_forms(s: Seq<StmtV>) -> Seq<FormV>
    decreases s,
{
    if s.len() == 0 {
        Seq::empty()
    } else {
        seq![stmt_form(s[0])] + stmt_forms(s.subrange(1, s.len() as int))
    }
}

pub open spec fn expr_forms(s: Seq<ExprV>) -> Seq<FormV>
    decreases s,
{
    if s.len() == 0 {
        Seq::empty()
    } else {
        seq![expr_form(s[0])] + expr_forms(s.subrange(1, s.len() as int))
    }
}

pub open spec fn entry_forms(s: Seq<(ExprV, ExprV)>) -> Seq<FormV>
    decreases s,
{
    if s.len() == 0 {
        Seq::empty()
    } else {
        seq![node("entry"@, seq![expr_form(s[0].0), expr_form(s[0].1)])] + entry_forms(s.subrange(1, s.len() as int))
    }
}

pub open spec fn field_forms(s: Seq<(Seq<char>, ExprV)>) -> Seq<FormV>
    decreases s,
{
    if s.len() == 0 {
        Seq::empty()
    } else {
        seq![node("field"@, seq![FormV::Str(s[0].0), expr_form(s[0].1)])] + field_forms(s.subrange(1, s.len() as int))
    }
}

pub open spec fn case_forms(s: Seq<WhenCaseV>) -> Seq<FormV>
    decreases s,
{
    if s.len() == 0 {
        Seq::empty()
    } else {
        seq![case_form(s[0])] + case_forms(s.subrange(1, s.len() as int))
    }
}

/// The form of a program.
pub open spec fn program_form(p: ProgramV) -> FormV {
    node("program"@, stmt_forms(p.statements))
}

/// The artifact text of a program.
pub open spec fn encode_text(p: ProgramV) -> Seq<char> {
    HEADER@ + print_form(program_form(p))
}

pub proof fn lemma_stmt_forms(s: Seq<StmtV>)
    ensures
        stmt_forms(s).len() == s.len(),
        forall|i: int| 0 <= i < s.len() ==> #[trigger] stmt_forms(s)[i] == stmt_form(s[i]),
    decreases s.len(),
{
    if s.len() > 0 {
        lemma_stmt_forms(s.subrange(1, s.len() as int));
        assert forall|i: int| 0 <= i < s.len() implies #[trigger] stmt_forms(s)[i] == stmt_form(s[i]) by {
            if i > 0 {
                assert(s.subrange(1, s.len() as int)[i - 1] == s[i]);
            }
        }
    }
}

pub proof fn lemma_expr_forms(s: Seq<ExprV>)
    ensures
        expr_forms(s).len() == s.len(),
        forall|i: int| 0 <= i < s.len() ==> #[trigger] expr_forms(s)[i] == expr_form(s[i]),
    decreases s.len(),
{
    if s.len() > 0 {
        lemma_expr_forms(s.subrange(1, s.len() as int));
        assert forall|i: int| 0 <= i < s.len() implies #[trigger] expr_forms(s)[i] == expr_form(s[i]) by {
            if i > 0 {
                assert(s.subrange(1, s.len() as int)[i - 1] == s[i]);
            }
        }
    }
}

pub proof fn lemma_entry_forms(s: Seq<(ExprV, ExprV)>)
    ensures
        entry_forms(s).len() == s.len(),
        forall|i: int| 0 <= i < s.len() ==> #[trigger] entry_forms(s)[i] == node("entry"@, seq![expr_form(s[i].0), expr_form(s[i].1)]),
    decreases s.len(),
{
    if s.len() > 0 {
        lemma_entry_forms(s.subrange(1, s.len() as int));
        assert forall|i: int| 0 <= i < s.len() implies #[trigger] entry_forms(s)[i] == node("entry"@, seq![expr_form(s[i].0), expr_form(s[i].1)]) by {
            if i > 0 {
                assert(s.subrange(1, s.len() as int)[i - 1] == s[i]);
            }
        }
    }
}

pub proof fn lemma_field_forms(s: Seq<(Seq<char>, ExprV)>)
    ensures
        field_forms(s).len() == s.len(),
        forall|i: int| 0 <= i < s.len() ==> #[trigger] field_forms(s)[i] == node("field"@, seq![FormV::Str(s[i].0), expr_form(s[i].1)]),
    decreases s.len(),
{
    if s.len() > 0 {
        lemma_field_forms(s.subrange(1, s.len() as int));
        assert forall|i: int| 0 <= i < s.len() implies #[trigger] field_forms(s)[i] == node("field"@, seq![FormV::Str(s[i].0), expr_form(s[i].1)]) by {
            if i > 0 {
                assert(s.subrange(1, s.len() as int)[i - 1] == s[i]);
            }
        }
    }
}

pub proof fn lemma_case_forms(s: Seq<WhenCaseV>)
    ensures
        case_forms(s).len() == s.len(),
        forall|i: int| 0 <= i < s.len() ==> #[trigger] case_forms(s)[i] == case_form(s[i]),
    decreases s.len(),
{
    if s.len() > 0 {
        lemma_case_forms(s.subrange(1, s.len() as int));
        assert forall|i: int| 0 <= i < s.len() implies #[trigger] case_forms(s)[i] == case_form(s[i]) by {
            if i > 0 {
                assert(s.subrange(1, s.len() as int)[i - 1] == s[i]);
            }
        }
    }
}

// ---------------------------------------------------------------------------
// Building the forms.
// ---------------------------------------------------------------------------
fn tag_atom(tag: &str) -> (r: Form)
    ensures
        view_form(r) == FormV::Atom(tag@),
{
    Form::Atom(chars_of(tag))
}

fn str_form(s: &String) -> (r: Form)
    ensures
        view_form(r) == FormV::Str(s@),
{
    Form::Str(chars_of(s.as_str()))
}

fn node0(tag: &str) -> (r: Form)
    ensures
        view_form(r) == node(tag@, Seq::empty()),
{
    let mut v: Vec<Form> = Vec::new();
    v.push(tag_atom(tag));
    proof {
        lemma_view_forms(v@);
        assert(view_forms(v@) =~= seq![FormV::Atom(tag@)] + Seq::empty());
    }
    Form::List(v)
}

fn node1(tag: &str, f0: Form) -> (r: Form)
    ensures
        view_form(r) == node(tag@, seq![view_form(f0)]),
{
    let ghost g0 = view_form(f0);
    let mut v: Vec<Form> = Vec::new();
    v.push(tag_atom(tag));
    v.push(f0);
    proof {
        lemma_view_forms(v@);
        assert(view_forms(v@) =~= seq![FormV::Atom(tag@)] + seq![g0]);
    }
    Form::List(v)
}

fn node2(tag: &str, f0: Form, f1: Form) -> (r: Form)
    ensures
        view_form(r) == node(tag@, seq![view_form(f0), view_form(f1)]),
{
    let ghost g0 = view_form(f0);
    let ghost g1 = view_form(f1);
    let mut v: Vec<Form> = Vec::new();
    v.push(tag_atom(tag));
    v.push(f0);
    v.push(f1);
    proof {
        lemma_view_forms(v@);
        assert(view_forms(v@) =~= seq![FormV::Atom(tag@)] + seq![g0, g1]);
    }
    Form::List(v)
}

fn node3(tag: &str, f0: Form, f1: Form, f2: Form) -> (r: Form)
    ensures
        view_form(r) == node(tag@, seq![view_form(f0), view_form(f1), view_form(f2)]),
{
    let ghost g0 = view_form(f0);
    let ghost g1 = view_form(f1);
    let ghost g2 = view_form(f2);
    let mut v: Vec<Form> = Vec::new();
    v.push(tag_atom(tag));
    v.push(f0);
    v.push(f1);
    v.push(f2);
    proof {
        lemma_view_forms(v@);
        assert(view_forms(v@) =~= seq![FormV::Atom(tag@)] + seq![g0, g1, g2]);
    }
    Form::List(v)
}

fn node4(tag: &str, f0: Form, f1: Form, f2: Form, f3: Form) -> (r: Form)
    ensures
        view_form(r) == node(tag@, seq![view_form(f0), view_form(f1), view_form(f2), view_form(f3)]),
{
    let ghost g0 = view_form(f0);
    let ghost g1 = view_form(f1);
    let ghost g2 = view_form(f2);
    let ghost g3 = view_form(f3);
    let mut v: Vec<Form> = Vec::new();
    v.push(tag_atom(tag));
    v.push(f0);
    v.push(f1);
    v.push(f2);
    v.push(f3);
    proof {
        lemma_view_forms(v@);
        assert(view_forms(v@) =~= seq![FormV::Atom(tag@)] + seq![g0, g1, g2, g3]);
    }
    Form::List(v)
}

/// A list form: the atom `tag`, then `fields`.
fn node_with(tag: &str, fields: Vec<Form>) -> (r: Form)
    ensures
        view_form(r) == node(tag@, view_forms(fields@)),
{
    let ghost old_fields = fields@;
    let mut v = fields;
    v.insert(0, tag_atom(tag));
    proof {
        lemma_view_forms(v@);
        lemma_view_forms(old_fields);
        assert(view_forms(v@) =~= seq![FormV::Atom(tag@)] + view_forms(old_fields));
    }
    Form::List(v)
}

fn flag(b: bool) -> (r: Form)
    ensures
        view_form(r) == flag_form(b),
{
    if b {
        tag_atom("true")
    } else {
        tag_atom("false")
    }
}

fn encode_optional_string(value: &Option<String>) -> (r: Form)
    ensures
        view_form(r) == opt_string_form(view_opt_string(*value)),
{
    match value {
        Some(s) => node1("some", str_form(s)),
        None => node0("none"),
    }
}

fn encode_param(p: &Param) -> (r: Form)
    ensures
        view_form(r) == param_form(view_param(*p)),
{
    node2("param", str_form(&p.name), encode_optional_string(&p.type_annotation))
}

fn encode_params(ps: &Vec<Param>) -> (r: Form)
    ensures
        view_form(r) == params_form(view_params(ps@)),
{
    let ghost want = param_forms(view_params(ps@));
    let mut out: Vec<Form> = Vec::new();
    let mut k: usize = 0;
    while k < ps.len()
        invariant
            k <= ps.len(),
            want == param_forms(view_params(ps@)),
            view_forms(out@) == want.take(k as int),
        decreases ps.len() - k,
    {
        let f = encode_param(&ps[k]);
        proof {
            lemma_view_forms_push(out@, f);
            assert(want.take(k + 1) =~= want.take(k as int).push(want[k as int]));
        }
        out.push(f);
        k = k + 1;
    }
    assert(want.take(k as int) =~= want);
    node_with("params", out)
}

fn encode_variant(v: &EnumVariantDecl) -> (r: Form)
    ensures
        view_form(r) == variant_form(view_variant(*v)),
{
    node2("variant", str_form(&v.name), encode_params(&v.params))
}

fn encode_variants(vs: &Vec<EnumVariantDecl>) -> (r: Form)
    ensures
        view_form(r) == variants_form(view_variants(vs@)),
{
    let ghost want = variant_forms(view_variants(vs@));
    let mut out: Vec<Form> = Vec::new();
    let mut k: usize = 0;
    while k < vs.len()
        invariant
            k <= vs.len(),
            want == variant_forms(view_variants(vs@)),
            view_forms(out@) == want.take(k as int),
        decreases vs.len() - k,
    {
        let f = encode_variant(&vs[k]);
        proof {
            lemma_view_forms_push(out@, f);
            assert(want.take(k + 1) =~= want.take(k as int).push(want[k as int]));
        }
        out.push(f);
        k = k + 1;
    }
    assert(want.take(k as int) =~= want);
    node_with("variants", out)
}

fn encode_path(path: &Vec<String>) -> (r: Vec<Form>)
    ensures
        view_forms(r@) == str_forms(view_strings(path@)),
{
    let ghost want = str_forms(view_strings(path@));
    let mut out: Vec<Form> = Vec::new();
    let mut k: usize = 0;
    while k < path.len()
        invariant
            k <= path.len(),
            want == str_forms(view_strings(path@)),
            view_forms(out@) == want.take(k as int),
        decreases path.len() - k,
    {
        let f = str_form(&path[k]);
        proof {
            lemma_view_forms_push(out@, f);
            assert(want.take(k + 1) =~= want.take(k as int).push(want[k as int]));
        }
        out.push(f);
        k = k + 1;
    }
    assert(want.take(k as int) =~= want);
    out
}

fn unary_atom(op: UnaryOp) -> (r: Form)
    ensures
        view_form(r) == FormV::Atom(unary_name(op)),
{
    match op {
        UnaryOp::Negate => tag_atom("negate"),
        UnaryOp::Not => tag_atom("not"),
    }
}

fn binary_atom(op: BinaryOp) -> (r: Form)
    ensures
        view_form(r) == FormV::Atom(binary_name(op)),
{
    match op {
        BinaryOp::Elvis => tag_atom("elvis"),
        BinaryOp::Or => tag_atom("or"),
        BinaryOp::And => tag_atom("and"),
        BinaryOp::Equal => tag_atom("equal"),
        BinaryOp::NotEqual => tag_atom("not-equal"),
        BinaryOp::Less => tag_atom("less"),
        BinaryOp::LessEqual => tag_atom("less-equal"),
        BinaryOp::Greater => tag_atom("greater"),
        BinaryOp::GreaterEqual => tag_atom("greater-equal"),
        BinaryOp::Add => tag_atom("add"),
        BinaryOp::Subtract => tag_atom("subtract"),
        BinaryOp::Multiply => tag_atom("multiply"),
        BinaryOp::Divide => tag_atom("divide"),
        BinaryOp::Remainder => tag_atom("remainder"),
    }
}

fn encode_stmts(xs: &Vec<Stmt>) -> (r: Vec<Form>)
    ensures
        view_forms(r@) == stmt_forms(view_stmts(xs@)),
    decreases xs,
{
    let ghost vs = view_stmts(xs@);
    proof {
        lemma_view_stmts(xs@);
        lemma_stmt_forms(vs);
    }
    let mut out: Vec<Form> = Vec::new();
    let mut k: usize = 0;
    while k < xs.len()
        invariant
            k <= xs.len(),
            vs == view_stmts(xs@),
            vs.len() == xs.len(),
            forall|i: int| 0 <= i < xs.len() ==> #[trigger] vs[i] == view_stmt(xs@[i]),
            stmt_forms(vs).len() == vs.len(),
            forall|i: int| 0 <= i < vs.len() ==> #[trigger] stmt_forms(vs)[i] == stmt_form(vs[i]),
            view_forms(out@) == stmt_forms(vs).take(k as int),
        decreases xs.len() - k,
    {
        proof {
            broadcast use vstd::std_specs::vec::axiom_vec_decreases_to_view;

            assert(decreases_to!(xs => xs@));
            assert(decreases_to!(xs@ => xs@[k as int]));
        }
        let f = encode_stmt(&xs[k]);
        proof {
            lemma_view_forms_push(out@, f);
            assert(stmt_forms(vs).take(k + 1) =~= stmt_forms(vs).take(k as int).push(stmt_forms(vs)[k as int]));
        }
        out.push(f);
        k = k + 1;
    }
    assert(stmt_forms(vs).take(k as int) =~= stmt_forms(vs));
    out
}

fn encode_exprs(xs: &Vec<Expr>) -> (r: Vec<Form>)
    ensures
        view_forms(r@) == expr_forms(view_exprs(xs@)),
    decreases xs,
{
    let ghost vs = view_exprs(xs@);
    proof {
        lemma_view_exprs(xs@);
        lemma_expr_forms(vs);
    }
    let mut out: Vec<Form> = Vec::new();
    let mut k: usize = 0;
    while k < xs.len()
        invariant
            k <= xs.len(),
            vs == view_exprs(xs@),
            vs.len() == xs.len(),
            forall|i: int| 0 <= i < xs.len() ==> #[trigger] vs[i] == view_expr(xs@[i]),
            expr_forms(vs).len() == vs.len(),
            forall|i: int| 0 <= i < vs.len() ==> #[trigger] expr_forms(vs)[i] == expr_form(vs[i]),
            view_forms(out@) == expr_forms(vs).take(k as int),
        decreases xs.len() - k,
    {
        proof {
            broadcast use vstd::std_specs::vec::axiom_vec_decreases_to_view;

            assert(decreases_to!(xs => xs@));
            assert(decreases_to!(xs@ => xs@[k as int]));
        }
        let f = encode_expr(&xs[k]);
        proof {
            lemma_view_forms_push(out@, f);
            assert(expr_forms(vs).take(k + 1) =~= expr_forms(vs).take(k as int).push(expr_forms(vs)[k as int]));
        }
        out.push(f);
        k = k + 1;
    }
    assert(expr_forms(vs).take(k as int) =~= expr_forms(vs));
    out
}

fn encode_entries(xs: &Vec<(Expr, Expr)>) -> (r: Vec<Form>)
    ensures
        view_forms(r@) == entry_forms(view_entries(xs@)),
    decreases xs,
{
    let ghost vs = view_entries(xs@);
    proof {
        lemma_view_entries(xs@);
        lemma_entry_forms(vs);
    }
    let mut out: Vec<Form> = Vec::new();
    let mut k: usize = 0;
    while k < xs.len()
        invariant
            k <= xs.len(),
            vs == view_entries(xs@),
            vs.len() == xs.len(),
            forall|i: int| 0 <= i < xs.len() ==> #[trigger] vs[i] == (view_expr(xs@[i].0), view_expr(xs@[i].1)),
            entry_forms(vs).len() == vs.len(),
            forall|i: int| 0 <= i < vs.len() ==> #[trigger] entry_forms(vs)[i] == node("entry"@, seq![expr_form(vs[i].0), expr_form(vs[i].1)]),
            view_forms(out@) == entry_forms(vs).take(k as int),
        decreases xs.len() - k,
    {
        proof {
            broadcast use vstd::std_specs::vec::axiom_vec_decreases_to_view;

            assert(decreases_to!(xs => xs@));
            assert(decreases_to!(xs@ => xs@[k as int]));
        }
        let f = node2("entry", encode_expr(&xs[k].0), encode_expr(&xs[k].1));
        proof {
            lemma_view_forms_push(out@, f);
            assert(entry_forms(vs).take(k + 1) =~= entry_forms(vs).take(k as int).push(entry_forms(vs)[k as int]));
        }
        out.push(f);
        k = k + 1;
    }
    assert(entry_forms(vs).take(k as int) =~= entry_forms(vs));
    out
}

fn encode_fields(xs: &Vec<(String, Expr)>) -> (r: Vec<Form>)
    ensures
        view_forms(r@) == field_forms(view_fields(xs@)),
    decreases xs,
{
    let ghost vs = view_fields(xs@);
    proof {
        lemma_view_fields(xs@);
        lemma_field_forms(vs);
    }
    let mut out: Vec<Form> = Vec::new();
    let mut k: usize = 0;
    while k < xs.len()
        invariant
            k <= xs.len(),
            vs == view_fields(xs@),
            vs.len() == xs.len(),
            forall|i: int| 0 <= i < xs.len() ==> #[trigger] vs[i] == (xs@[i].0@, view_expr(xs@[i].1)),
            field_forms(vs).len() == vs.len(),
            forall|i: int| 0 <= i < vs.len() ==> #[trigger] field_forms(vs)[i] == node("field"@, seq![FormV::Str(vs[i].0), expr_form(vs[i].1)]),
            view_forms(out@) == field_forms(vs).take(k as int),
        decreases xs.len() - k,
    {
        proof {
            broadcast use vstd::std_specs::vec::axiom_vec_decreases_to_view;

            assert(decreases_to!(xs => xs@));
            assert(decreases_to!(xs@ => xs@[k as int]));
        }
        let f = node2("field", str_form(&xs[k].0), encode_expr(&xs[k].1));
        proof {
            lemma_view_forms_push(out@, f);
            assert(field_forms(vs).take(k + 1) =~= field_forms(vs).take(k as int).push(field_forms(vs)[k as int]));
        }
        out.push(f);
        k = k + 1;
    }
    assert(field_forms(vs).take(k as int) =~= field_forms(vs));
    out
}

fn encode_cases(xs: &Vec<WhenCase>) -> (r: Vec<Form>)
    ensures
        view_forms(r@) == case_forms(view_cases(xs@)),
    decreases xs,
{
    let ghost vs = view_cases(xs@);
    proof {
        lemma_view_cases(xs@);
        lemma_case_forms(vs);
    }
    let mut out: Vec<Form> = Vec::new();
    let mut k: usize = 0;
    while k < xs.len()
        invariant
            k <= xs.len(),
            vs == view_cases(xs@),
            vs.len() == xs.len(),
            forall|i: int| 0 <= i < xs.len() ==> #[trigger] vs[i] == view_case(xs@[i]),
            case_forms(vs).len() == vs.len(),
            forall|i: int| 0 <= i < vs.len() ==> #[trigger] case_forms(vs)[i] == case_form(vs[i]),
            view_forms(out@) == case_forms(vs).take(k as int),
        decreases xs.len() - k,
    {
        proof {
            broadcast use vstd::std_specs::vec::axiom_vec_decreases_to_view;

            assert(decreases_to!(xs => xs@));
            assert(decreases_to!(xs@ => xs@[k as int]));
        }
        let f = encode_when_case(&xs[k]);
        proof {
            lemma_view_forms_push(out@, f);
            assert(case_forms(vs).take(k + 1) =~= case_forms(vs).take(k as int).push(case_forms(vs)[k as int]));
        }
        out.push(f);
        k = k + 1;
    }
    assert(case_forms(vs).take(k as int) =~= case_forms(vs));
    out
}

fn encode_block(b: &Block) -> (r: Form)
    ensures
        view_form(r) == block_form(view_block(*b)),
    decreases b,
{
    node_with("block", encode_stmts(&b.statements))
}

fn encode_optional_expr(e: &Option<Expr>) -> (r: Form)
    ensures
        view_form(r) == opt_expr_form(view_opt_expr(*e)),
    decreases e,
{
    match e {
        Some(x) => node1("some", encode_expr(x)),
        None => node0("none"),
    }
}

#[verifier::spinoff_prover]
#[verifier::rlimit(40)]
fn encode_stmt(s: &Stmt) -> (r: Form)
    ensures
        view_form(r) == stmt_form(view_stmt(*s)),
    decreases s,
{
    match s {
        Stmt::Use { path } => node_with("use", encode_path(path)),
        Stmt::Var { name, type_annotation, value } => node3(
            "var",
            str_form(name),
            encode_optional_string(type_annotation),
            encode_expr(value),
        ),
        Stmt::Assign { target, value } => node2("assign", encode_expr(target), encode_expr(value)),
        Stmt::Return(value) => node1("return", encode_optional_expr(value)),
        Stmt::While { condition, body } => node2("while", encode_expr(condition), encode_block(body)),
        Stmt::Break => node0("break"),
        Stmt::Continue => node0("continue"),
        Stmt::For { name, iterable, body } => node3(
            "for",
            str_form(name),
            encode_expr(iterable),
            encode_block(body),
        ),
        Stmt::Function(function) => node3(
            "function",
            str_form(&function.name),
            encode_params(&function.params),
            encode_function_body(&function.body),
        ),
        Stmt::Data(data) => node3(
            "data",
            str_form(&data.name),
            encode_params(&data.params),
            node_with("computed", encode_fields(&data.computed)),
        ),
        Stmt::Enum(decl) => node2("enum", str_form(&decl.name), encode_variants(&decl.variants)),
        Stmt::Expr(e) => node1("expr", encode_expr(e)),
        Stmt::Pub(inner) => node1("pub", encode_stmt(inner)),
    }
}

fn encode_when_case(c: &WhenCase) -> (r: Form)
    ensures
        view_form(r) == case_form(view_case(*c)),
    decreases c,
{
    let patterns = node_with("patterns", encode_exprs(&c.patterns));
    node4("case", patterns, encode_optional_expr(&c.guard), encode_when_body(&c.body), flag(c.is_else))
}

fn encode_function_body(b: &FunctionBody) -> (r: Form)
    ensures
        view_form(r) == fbody_form(view_fbody(*b)),
    decreases b,
{
    match b {
        FunctionBody::Expr(e) => node1("body-expr", encode_expr(e)),
        FunctionBody::Block(bl) => node1("body-block", encode_block(bl)),
    }
}

fn encode_when_body(b: &WhenBody) -> (r: Form)
    ensures
        view_form(r) == wbody_form(view_wbody(*b)),
    decreases b,
{
    match b {
        WhenBody::Expr(e) => node1("when-expr", encode_expr(e)),
        WhenBody::Block(bl) => node1("when-block", encode_block(bl)),
    }
}

fn encode_else(b: &Option<ElseBranch>) -> (r: Form)
    ensures
        view_form(r) == else_form(view_else(*b)),
    decreases b,
{
    match b {
        None => node0("none"),
        Some(ElseBranch::Block(bl)) => node1("else-block", encode_block(bl)),
        Some(ElseBranch::If(x)) => node1("else-if", encode_expr(x)),
    }
}

#[verifier::spinoff_prover]
#[verifier::rlimit(60)]
fn encode_expr(e: &Expr) -> (r: Form)
    ensures
        view_form(r) == expr_form(view_expr(*e)),
    decreases e,
{
    match e {
        Expr::Null => tag_atom("null"),
        Expr::Bool(b) => node1("bool", flag(*b)),
        Expr::Int(v) => {
            let mut text: Vec<char> = Vec::new();
            push_int(&mut text, *v);
            assert(text@ =~= int_text(*v as int));
            node1("int", Form::Atom(text))
        },
        Expr::Float(t) => node1("float", Form::Atom(chars_of(t.as_str()))),
        Expr::String(s) => node1("string", str_form(s)),
        Expr::Ident(s) => node1("ident", str_form(s)),
        Expr::List(items) => node_with("list", encode_exprs(items)),
        Expr::MapLiteral(entries) => node_with("map", encode_entries(entries)),
        Expr::SetLiteral(items) => node_with("set", encode_exprs(items)),
        Expr::Rest(s) => node1("rest", str_form(s)),
        Expr::Unary { op, expr } => node2("unary", unary_atom(*op), encode_expr(expr)),
        Expr::Binary { left, op, right } => node3(
            "binary",
            binary_atom(*op),
            encode_expr(left),
            encode_expr(right),
        ),
        Expr::Call { callee, args } => node2(
            "call",
            encode_expr(callee),
            node_with("args", encode_exprs(args)),
        ),
        Expr::Member { object, name, safe } => node3(
            "member",
            encode_expr(object),
            str_form(name),
            flag(*safe),
        ),
        Expr::Index { object, index } => node2("index", encode_expr(object), encode_expr(index)),
        Expr::Propagate { expr } => node1("propagate", encode_expr(expr)),
        Expr::Lambda { params, body } => node2("lambda", encode_params(params), encode_expr(body)),
        Expr::If { condition, then_branch, else_branch } => node3(
            "if",
            encode_expr(condition),
            encode_block(then_branch),
            encode_else(else_branch),
        ),
        Expr::When { binding, subject, cases } => {
            let subject_code = match subject {
                Some(x) => node1("some", encode_expr(x)),
                None => node0("none"),
            };
            assert(view_form(subject_code) == subject_form(boxed(view_opt_expr(
                match subject {
                    Some(x) => Some(**x),
                    None => None,
                },
            ))));
            node3(
                "when",
                encode_optional_string(binding),
                subject_code,
                node_with("cases", encode_cases(cases)),
            )
        },
    }
}

fn encode_program(program: &Program) -> (r: Form)
    ensures
        view_form(r) == program_form(view_program(*program)),
{
    node_with("program", encode_stmts(&program.statements))
}

/// The artifact text of `program`: the header line, then its form.
pub fn encode(program: &Program) -> (r: String)
    ensures
        r@ == encode_text(view_program(*program)),
{
    let f = encode_program(program);
    let mut out = chars_of(HEADER);
    print_into(&f, &mut out);
    string_from(&out)
}

} // verus!
