//! The Velra syntax tree and its mathematical model.
//!
//! Every executable node has a spec counterpart (suffix `V`) in which
//! strings are `Seq<char>` and vectors are `Seq`; the `view_*` functions map
//! the former to the latter.  Float literals are kept as their decimal text.
use vstd::prelude::*;

verus! {

/// A half-open byte range into the source text.
#[derive(Debug, Clone, Copy, PartialEq, Eq, Default)]
pub struct Span {
    pub start: usize,
    pub end: usize,
}

impl Span {
    pub fn new(start: usize, end: usize) -> (span: Self)
        ensures
            span.start == start,
            span.end == end,
    {
        Span { start, end }
    }

    /// The span from the start of `self` to the end of `other`.
    pub fn merge(self, other: Self) -> (span: Self)
        ensures
            span.start == self.start,
            span.end == other.end,
    {
        Self::new(self.start, other.end)
    }
}

#[derive(Debug, PartialEq)]
pub struct Program {
    pub statements: Vec<Stmt>,
}

#[derive(Debug, PartialEq)]
pub enum Stmt {
    Use { path: Vec<String> },
    Var { name: String, type_annotation: Option<String>, value: Expr },
    Assign { target: Expr, value: Expr },
    Return(Option<Expr>),
    While { condition: Expr, body: Block },
    Break,
    Continue,
    For { name: String, iterable: Expr, body: Block },
    Function(FunctionDecl),
    Data(DataDecl),
    Enum(EnumDecl),
    Expr(Expr),
    Pub(Box<Stmt>),
}

#[derive(Debug, PartialEq)]
pub struct FunctionDecl {
    pub name: String,
    pub params: Vec<Param>,
    pub body: FunctionBody,
}

#[derive(Debug, PartialEq)]
pub enum FunctionBody {
    Expr(Expr),
    Block(Block),
}

#[derive(Debug, Clone, PartialEq)]
pub struct Param {
    pub name: String,
    pub type_annotation: Option<String>,
}

#[derive(Debug, PartialEq)]
pub struct DataDecl {
    pub name: String,
    pub params: Vec<Param>,
    pub computed: Vec<(String, Expr)>,
}

#[derive(Debug, PartialEq)]
pub struct EnumDecl {
    pub name: String,
    pub variants: Vec<EnumVariantDecl>,
}

#[derive(Debug, PartialEq)]
pub struct EnumVariantDecl {
    pub name: String,
    pub params: Vec<Param>,
}

#[derive(Debug, PartialEq)]
pub struct Block {
    pub statements: Vec<Stmt>,
}

#[derive(Debug, PartialEq)]
pub enum Expr {
    Null,
    Bool(bool),
    Int(i64),
    /// A floating-point literal, held as its decimal text.
    Float(String),
    String(String),
    Ident(String),
    List(Vec<Expr>),
    MapLiteral(Vec<(Expr, Expr)>),
    SetLiteral(Vec<Expr>),
    Rest(String),
    Unary { op: UnaryOp, expr: Box<Expr> },
    Binary { left: Box<Expr>, op: BinaryOp, right: Box<Expr> },
    Call { callee: Box<Expr>, args: Vec<Expr> },
    Member { object: Box<Expr>, name: String, safe: bool },
    Index { object: Box<Expr>, index: Box<Expr> },
    Propagate { expr: Box<Expr> },
    Lambda { params: Vec<Param>, body: Box<Expr> },
    If { condition: Box<Expr>, then_branch: Block, else_branch: Option<ElseBranch> },
    When { binding: Option<String>, subject: Option<Box<Expr>>, cases: Vec<WhenCase> },
}

#[derive(Debug, PartialEq)]
pub enum ElseBranch {
    Block(Block),
    If(Box<Expr>),
}

#[derive(Debug, PartialEq)]
pub struct WhenCase {
    pub patterns: Vec<Expr>,
    pub guard: Option<Expr>,
    pub body: WhenBody,
    pub is_else: bool,
}

#[derive(Debug, PartialEq)]
pub enum WhenBody {
    Expr(Expr),
    Block(Block),
}

#[derive(Debug, Clone, Copy, PartialEq, Eq)]
pub enum UnaryOp {
    Negate,
    Not,
}

#[derive(Debug, Clone, Copy, PartialEq, Eq)]
pub enum BinaryOp {
    Elvis,
    Or,
    And,
    Equal,
    NotEqual,
    Less,
    LessEqual,
    Greater,
    GreaterEqual,
    Add,
    Subtract,
    Multiply,
    Divide,
    Remainder,
}

// ---------------------------------------------------------------------------
// The mathematical model.
// ---------------------------------------------------------------------------

pub struct ProgramV {
    pub statements: Seq<StmtV>,
}

pub enum StmtV {
    Use { path: Seq<Seq<char>> },
    Var { name: Seq<char>, type_annotation: Option<Seq<char>>, value: ExprV },
    Assign { target: ExprV, value: ExprV },
    Return(Option<ExprV>),
    While { condition: ExprV, body: BlockV },
    Break,
    Continue,
    For { name: Seq<char>, iterable: ExprV, body: BlockV },
    Function { name: Seq<char>, params: Seq<ParamV>, body: FunctionBodyV },
    Data { name: Seq<char>, params: Seq<ParamV>, computed: Seq<(Seq<char>, ExprV)> },
    Enum { name: Seq<char>, variants: Seq<VariantV> },
    Expr(ExprV),
    Pub(Box<StmtV>),
}

pub enum FunctionBodyV {
    Expr(ExprV),
    Block(BlockV),
}

pub struct ParamV {
    pub name: Seq<char>,
    pub type_annotation: Option<Seq<char>>,
}

pub struct VariantV {
    pub name: Seq<char>,
    pub params: Seq<ParamV>,
}

pub struct BlockV {
    pub statements: Seq<StmtV>,
}

pub enum ExprV {
    Null,
    Bool(bool),
    Int(i64),
    Float(Seq<char>),
    Str(Seq<char>),
    Ident(Seq<char>),
    List(Seq<ExprV>),
    MapLiteral(Seq<(ExprV, ExprV)>),
    SetLiteral(Seq<ExprV>),
    Rest(Seq<char>),
    Unary { op: UnaryOp, expr: Box<ExprV> },
    Binary { left: Box<ExprV>, op: BinaryOp, right: Box<ExprV> },
    Call { callee: Box<ExprV>, args: Seq<ExprV> },
    Member { object: Box<ExprV>, name: Seq<char>, safe: bool },
    Index { object: Box<ExprV>, index: Box<ExprV> },
    Propagate { expr: Box<ExprV> },
    Lambda { params: Seq<ParamV>, body: Box<ExprV> },
    If { condition: Box<ExprV>, then_branch: BlockV, else_branch: Option<ElseBranchV> },
    When { binding: Option<Seq<char>>, subject: Option<Box<ExprV>>, cases: Seq<WhenCaseV> },
}

pub enum ElseBranchV {
    Block(BlockV),
    If(Box<ExprV>),
}

pub struct WhenCaseV {
    pub patterns: Seq<ExprV>,
    pub guard: Option<ExprV>,
    pub body: WhenBodyV,
    pub is_else: bool,
}

pub enum WhenBodyV {
    Expr(ExprV),
    Block(BlockV),
}

pub open spec fn view_opt_string(s: Option<String>) -> Option<Seq<char>> {
    match s {
        Some(s) => Some(s@),
        None => None,
    }
}

pub open spec fn view_strings(s: Seq<String>) -> Seq<Seq<char>> {
    s.map_values(|x: String| x@)
}

pub open spec fn view_param(p: Param) -> ParamV {
    ParamV { name: p.name@, type_annotation: view_opt_string(p.type_annotation) }
}

pub open spec fn view_params(ps: Seq<Param>) -> Seq<ParamV> {
    ps.map_values(|p: Param| view_param(p))
}

pub open spec fn view_variant(v: EnumVariantDecl) -> VariantV {
    VariantV { name: v.name@, params: view_params(v.params@) }
}

pub open spec fn view_variants(vs: Seq<EnumVariantDecl>) -> Seq<VariantV> {
    vs.map_values(|v: EnumVariantDecl| view_variant(v))
}

pub open spec fn view_program(p: Program) -> ProgramV {
    ProgramV { statements: view_stmts(p.statements@) }
}

pub open spec fn view_block(b: Block) -> BlockV
    decreases b, 2nat,
{
    BlockV { statements: view_stmts(b.statements@) }
}

pub open spec fn view_stmts(s: Seq<Stmt>) -> Seq<StmtV>
    decreases s, 1nat,
{
    if s.len() == 0 {
        Seq::empty()
    } else {
        seq![view_stmt(s[0])] + view_stmts(s.subrange(1, s.len() as int))
    }
}

pub open spec fn view_stmt(s: Stmt) -> StmtV
    decreases s, 0nat,
{
    match s {
        Stmt::Use { path } => StmtV::Use { path: view_strings(path@) },
        Stmt::Var { name, type_annotation, value } => StmtV::Var {
            name: name@,
            type_annotation: view_opt_string(type_annotation),
            value: view_expr(value),
        },
        Stmt::Assign { target, value } => StmtV::Assign {
            target: view_expr(target),
            value: view_expr(value),
        },
        Stmt::Return(value) => StmtV::Return(
            match value {
                Some(e) => Some(view_expr(e)),
                None => None,
            },
        ),
        Stmt::While { condition, body } => StmtV::While {
            condition: view_expr(condition),
            body: view_block(body),
        },
        Stmt::Break => StmtV::Break,
        Stmt::Continue => StmtV::Continue,
        Stmt::For { name, iterable, body } => StmtV::For {
            name: name@,
            iterable: view_expr(iterable),
            body: view_block(body),
        },
        Stmt::Function(f) => StmtV::Function {
            name: f.name@,
            params: view_params(f.params@),
            body: match f.body {
                FunctionBody::Expr(e) => FunctionBodyV::Expr(view_expr(e)),
                FunctionBody::Block(b) => FunctionBodyV::Block(view_block(b)),
            },
        },
        Stmt::Data(d) => StmtV::Data {
            name: d.name@,
            params: view_params(d.params@),
            computed: view_fields(d.computed@),
        },
        Stmt::Enum(e) => StmtV::Enum { name: e.name@, variants: view_variants(e.variants@) },
        Stmt::Expr(e) => StmtV::Expr(view_expr(e)),
        Stmt::Pub(inner) => StmtV::Pub(Box::new(view_stmt(*inner))),
    }
}

pub open spec fn view_fields(s: Seq<(String, Expr)>) -> Seq<(Seq<char>, ExprV)>
    decreases s, 1nat,
{
    if s.len() == 0 {
        Seq::empty()
    } else {
        seq![(s[0].0@, view_expr(s[0].1))] + view_fields(s.subrange(1, s.len() as int))
    }
}

pub open spec fn view_exprs(s: Seq<Expr>) -> Seq<ExprV>
    decreases s, 1nat,
{
    if s.len() == 0 {
        Seq::empty()
    } else {
        seq![view_expr(s[0])] + view_exprs(s.subrange(1, s.len() as int))
    }
}

pub open spec fn view_entries(s: Seq<(Expr, Expr)>) -> Seq<(ExprV, ExprV)>
    decreases s, 1nat,
{
    if s.len() == 0 {
        Seq::empty()
    } else {
        seq![(view_expr(s[0].0), view_expr(s[0].1))] + view_entries(
            s.subrange(1, s.len() as int),
        )
    }
}

pub open spec fn view_cases(s: Seq<WhenCase>) -> Seq<WhenCaseV>
    decreases s, 1nat,
{
    if s.len() == 0 {
        Seq::empty()
    } else {
        seq![view_case(s[0])] + view_cases(s.subrange(1, s.len() as int))
    }
}

pub open spec fn view_case(c: WhenCase) -> WhenCaseV
    decreases c, 0nat,
{
    WhenCaseV {
        patterns: view_exprs(c.patterns@),
        guard: match c.guard {
            Some(g) => Some(view_expr(g)),
            None => None,
        },
        body: match c.body {
            WhenBody::Expr(e) => WhenBodyV::Expr(view_expr(e)),
            WhenBody::Block(b) => WhenBodyV::Block(view_block(b)),
        },
        is_else: c.is_else,
    }
}

pub open spec fn view_expr(e: Expr) -> ExprV
    decreases e, 0nat,
{
    match e {
        Expr::Null => ExprV::Null,
        Expr::Bool(b) => ExprV::Bool(b),
        Expr::Int(v) => ExprV::Int(v),
        Expr::Float(t) => ExprV::Float(t@),
        Expr::String(s) => ExprV::Str(s@),
        Expr::Ident(s) => ExprV::Ident(s@),
        Expr::List(items) => ExprV::List(view_exprs(items@)),
        Expr::MapLiteral(entries) => ExprV::MapLiteral(view_entries(entries@)),
        Expr::SetLiteral(items) => ExprV::SetLiteral(view_exprs(items@)),
        Expr::Rest(s) => ExprV::Rest(s@),
        Expr::Unary { op, expr } => ExprV::Unary { op, expr: Box::new(view_expr(*expr)) },
        Expr::Binary { left, op, right } => ExprV::Binary {
            left: Box::new(view_expr(*left)),
            op,
            right: Box::new(view_expr(*right)),
        },
        Expr::Call { callee, args } => ExprV::Call {
            callee: Box::new(view_expr(*callee)),
            args: view_exprs(args@),
        },
        Expr::Member { object, name, safe } => ExprV::Member {
            object: Box::new(view_expr(*object)),
            name: name@,
            safe,
        },
        Expr::Index { object, index } => ExprV::Index {
            object: Box::new(view_expr(*object)),
            index: Box::new(view_expr(*index)),
        },
        Expr::Propagate { expr } => ExprV::Propagate { expr: Box::new(view_expr(*expr)) },
        Expr::Lambda { params, body } => ExprV::Lambda {
            params: view_params(params@),
            body: Box::new(view_expr(*body)),
        },
        Expr::If { condition, then_branch, else_branch } => ExprV::If {
            condition: Box::new(view_expr(*condition)),
            then_branch: view_block(then_branch),
            else_branch: match else_branch {
                Some(ElseBranch::Block(b)) => Some(ElseBranchV::Block(view_block(b))),
                Some(ElseBranch::If(x)) => Some(ElseBranchV::If(Box::new(view_expr(*x)))),
                None => None,
            },
        },
        Expr::When { binding, subject, cases } => ExprV::When {
            binding: view_opt_string(binding),
            subject: match subject {
                Some(s) => Some(Box::new(view_expr(*s))),
                None => None,
            },
            cases: view_cases(cases@),
        },
    }
}


pub open spec fn view_fbody(b: FunctionBody) -> FunctionBodyV {
    match b {
        FunctionBody::Expr(e) => FunctionBodyV::Expr(view_expr(e)),
        FunctionBody::Block(bl) => FunctionBodyV::Block(view_block(bl)),
    }
}

pub open spec fn view_wbody(b: WhenBody) -> WhenBodyV {
    match b {
        WhenBody::Expr(e) => WhenBodyV::Expr(view_expr(e)),
        WhenBody::Block(bl) => WhenBodyV::Block(view_block(bl)),
    }
}

pub open spec fn view_else(b: Option<ElseBranch>) -> Option<ElseBranchV> {
    match b {
        Some(ElseBranch::Block(bl)) => Some(ElseBranchV::Block(view_block(bl))),
        Some(ElseBranch::If(x)) => Some(ElseBranchV::If(Box::new(view_expr(*x)))),
        None => None,
    }
}

pub open spec fn view_opt_expr(e: Option<Expr>) -> Option<ExprV> {
    match e {
        Some(x) => Some(view_expr(x)),
        None => None,
    }
}

/// An optional expression, boxed.
pub open spec fn boxed(e: Option<ExprV>) -> Option<Box<ExprV>> {
    match e {
        Some(x) => Some(Box::new(x)),
        None => None,
    }
}

// ---------------------------------------------------------------------------
// Views of sequences, element by element.
// ---------------------------------------------------------------------------
pub proof fn lemma_view_stmts(s: Seq<Stmt>)
    ensures
        view_stmts(s).len() == s.len(),
        forall|i: int| 0 <= i < s.len() ==> #[trigger] view_stmts(s)[i] == view_stmt(s[i]),
    decreases s.len(),
{
    if s.len() > 0 {
        lemma_view_stmts(s.subrange(1, s.len() as int));
        assert forall|i: int| 0 <= i < s.len() implies #[trigger] view_stmts(s)[i] == view_stmt(s[i]) by {
            if i > 0 {
                assert(s.subrange(1, s.len() as int)[i - 1] == s[i]);
            }
        }
    }
}

pub proof fn lemma_view_stmts_push(s: Seq<Stmt>, x: Stmt)
    ensures
        view_stmts(s.push(x)) == view_stmts(s).push(view_stmt(x)),
{
    lemma_view_stmts(s.push(x));
    lemma_view_stmts(s);
    assert(s.push(x)[s.len() as int] == x);
    assert(view_stmts(s.push(x)) =~= view_stmts(s).push(view_stmt(x)));
}

pub proof fn lemma_view_exprs(s: Seq<Expr>)
    ensures
        view_exprs(s).len() == s.len(),
        forall|i: int| 0 <= i < s.len() ==> #[trigger] view_exprs(s)[i] == view_expr(s[i]),
    decreases s.len(),
{
    if s.len() > 0 {
        lemma_view_exprs(s.subrange(1, s.len() as int));
        assert forall|i: int| 0 <= i < s.len() implies #[trigger] view_exprs(s)[i] == view_expr(s[i]) by {
            if i > 0 {
                assert(s.subrange(1, s.len() as int)[i - 1] == s[i]);
            }
        }
    }
}

pub proof fn lemma_view_exprs_push(s: Seq<Expr>, x: Expr)
    ensures
        view_exprs(s.push(x)) == view_exprs(s).push(view_expr(x)),
{
    lemma_view_exprs(s.push(x));
    lemma_view_exprs(s);
    assert(s.push(x)[s.len() as int] == x);
    assert(view_exprs(s.push(x)) =~= view_exprs(s).push(view_expr(x)));
}

pub proof fn lemma_view_fields(s: Seq<(String, Expr)>)
    ensures
        view_fields(s).len() == s.len(),
        forall|i: int| 0 <= i < s.len() ==> #[trigger] view_fields(s)[i] == (s[i].0@, view_expr(s[i].1)),
    decreases s.len(),
{
    if s.len() > 0 {
        lemma_view_fields(s.subrange(1, s.len() as int));
        assert forall|i: int| 0 <= i < s.len() implies #[trigger] view_fields(s)[i] == (s[i].0@, view_expr(s[i].1)) by {
            if i > 0 {
                assert(s.subrange(1, s.len() as int)[i - 1] == s[i]);
            }
        }
    }
}

pub proof fn lemma_view_fields_push(s: Seq<(String, Expr)>, x: (String, Expr))
    ensures
        view_fields(s.push(x)) == view_fields(s).push((x.0@, view_expr(x.1))),
{
    lemma_view_fields(s.push(x));
    lemma_view_fields(s);
    assert(s.push(x)[s.len() as int] == x);
    assert(view_fields(s.push(x)) =~= view_fields(s).push((x.0@, view_expr(x.1))));
}

pub proof fn lemma_view_entries(s: Seq<(Expr, Expr)>)
    ensures
        view_entries(s).len() == s.len(),
        forall|i: int| 0 <= i < s.len() ==> #[trigger] view_entries(s)[i] == (view_expr(s[i].0), view_expr(s[i].1)),
    decreases s.len(),
{
    if s.len() > 0 {
        lemma_view_entries(s.subrange(1, s.len() as int));
        assert forall|i: int| 0 <= i < s.len() implies #[trigger] view_entries(s)[i] == (view_expr(s[i].0), view_expr(s[i].1)) by {
            if i > 0 {
                assert(s.subrange(1, s.len() as int)[i - 1] == s[i]);
            }
        }
    }
}

pub proof fn lemma_view_entries_push(s: Seq<(Expr, Expr)>, x: (Expr, Expr))
    ensures
        view_entries(s.push(x)) == view_entries(s).push((view_expr(x.0), view_expr(x.1))),
{
    lemma_view_entries(s.push(x));
    lemma_view_entries(s);
    assert(s.push(x)[s.len() as int] == x);
    assert(view_entries(s.push(x)) =~= view_entries(s).push((view_expr(x.0), view_expr(x.1))));
}

pub proof fn lemma_view_cases(s: Seq<WhenCase>)
    ensures
        view_cases(s).len() == s.len(),
        forall|i: int| 0 <= i < s.len() ==> #[trigger] view_cases(s)[i] == view_case(s[i]),
    decreases s.len(),
{
    if s.len() > 0 {
        lemma_view_cases(s.subrange(1, s.len() as int));
        assert forall|i: int| 0 <= i < s.len() implies #[trigger] view_cases(s)[i] == view_case(s[i]) by {
            if i > 0 {
                assert(s.subrange(1, s.len() as int)[i - 1] == s[i]);
            }
        }
    }
}

pub proof fn lemma_view_cases_push(s: Seq<WhenCase>, x: WhenCase)
    ensures
        view_cases(s.push(x)) == view_cases(s).push(view_case(x)),
{
    lemma_view_cases(s.push(x));
    lemma_view_cases(s);
    assert(s.push(x)[s.len() as int] == x);
    assert(view_cases(s.push(x)) =~= view_cases(s).push(view_case(x)));
}

impl View for Program {
    type V = ProgramV;

    open spec fn view(&self) -> ProgramV {
        view_program(*self)
    }
}

impl View for Expr {
    type V = ExprV;

    open spec fn view(&self) -> ExprV {
        view_expr(*self)
    }
}

impl View for Stmt {
    type V = StmtV;

    open spec fn view(&self) -> StmtV {
        view_stmt(*self)
    }
}

impl View for Block {
    type V = BlockV;

    open spec fn view(&self) -> BlockV {
        view_block(*self)
    }
}


// ---------------------------------------------------------------------------
// Copies: a syntax tree is copied node by node, and the copy has the same view.
// ---------------------------------------------------------------------------
fn copy_opt_string(s: &Option<String>) -> (r: Option<String>)
    ensures
        view_opt_string(r) == view_opt_string(*s),
{
    match s {
        Some(x) => Some(x.clone()),
        None => None,
    }
}

fn copy_strings(xs: &Vec<String>) -> (r: Vec<String>)
    ensures
        view_strings(r@) == view_strings(xs@),
{
    let mut out: Vec<String> = Vec::new();
    let mut k: usize = 0;
    while k < xs.len()
        invariant
            k <= xs.len(),
            out@.len() == k,
            forall|i: int| 0 <= i < k ==> (#[trigger] out@[i])@ == xs@[i]@,
        decreases xs.len() - k,
    {
        out.push(xs[k].clone());
        k = k + 1;
    }
    assert(view_strings(out@) =~= view_strings(xs@));
    out
}

fn copy_params(xs: &Vec<Param>) -> (r: Vec<Param>)
    ensures
        view_params(r@) == view_params(xs@),
{
    let mut out: Vec<Param> = Vec::new();
    let mut k: usize = 0;
    while k < xs.len()
        invariant
            k <= xs.len(),
            out@.len() == k,
            forall|i: int| 0 <= i < k ==> view_param(#[trigger] out@[i]) == view_param(xs@[i]),
        decreases xs.len() - k,
    {
        let p = Param { name: xs[k].name.clone(), type_annotation: copy_opt_string(&xs[k].type_annotation) };
        out.push(p);
        k = k + 1;
    }
    assert(view_params(out@) =~= view_params(xs@));
    out
}

fn copy_variants(xs: &Vec<EnumVariantDecl>) -> (r: Vec<EnumVariantDecl>)
    ensures
        view_variants(r@) == view_variants(xs@),
{
    let mut out: Vec<EnumVariantDecl> = Vec::new();
    let mut k: usize = 0;
    while k < xs.len()
        invariant
            k <= xs.len(),
            out@.len() == k,
            forall|i: int| 0 <= i < k ==> view_variant(#[trigger] out@[i]) == view_variant(xs@[i]),
        decreases xs.len() - k,
    {
        let v = EnumVariantDecl { name: xs[k].name.clone(), params: copy_params(&xs[k].params) };
        out.push(v);
        k = k + 1;
    }
    assert(view_variants(out@) =~= view_variants(xs@));
    out
}

fn copy_block(b: &Block) -> (r: Block)
    ensures
        view_block(r) == view_block(*b),
    decreases b,
{
    Block { statements: copy_stmts(&b.statements) }
}

fn copy_opt_expr(e: &Option<Expr>) -> (r: Option<Expr>)
    ensures
        view_opt_expr(r) == view_opt_expr(*e),
    decreases e,
{
    match e {
        Some(x) => Some(copy_expr(x)),
        None => None,
    }
}

fn copy_fbody(b: &FunctionBody) -> (r: FunctionBody)
    ensures
        view_fbody(r) == view_fbody(*b),
    decreases b,
{
    match b {
        FunctionBody::Expr(e) => FunctionBody::Expr(copy_expr(e)),
        FunctionBody::Block(bl) => FunctionBody::Block(copy_block(bl)),
    }
}

fn copy_wbody(b: &WhenBody) -> (r: WhenBody)
    ensures
        view_wbody(r) == view_wbody(*b),
    decreases b,
{
    match b {
        WhenBody::Expr(e) => WhenBody::Expr(copy_expr(e)),
        WhenBody::Block(bl) => WhenBody::Block(copy_block(bl)),
    }
}

fn copy_else(b: &Option<ElseBranch>) -> (r: Option<ElseBranch>)
    ensures
        view_else(r) == view_else(*b),
    decreases b,
{
    match b {
        None => None,
        Some(ElseBranch::Block(bl)) => Some(ElseBranch::Block(copy_block(bl))),
        Some(ElseBranch::If(x)) => Some(ElseBranch::If(Box::new(copy_expr(x)))),
    }
}

fn copy_case(c: &WhenCase) -> (r: WhenCase)
    ensures
        view_case(r) == view_case(*c),
    decreases c,
{
    WhenCase {
        patterns: copy_exprs(&c.patterns),
        guard: copy_opt_expr(&c.guard),
        body: copy_wbody(&c.body),
        is_else: c.is_else,
    }
}

#[verifier::spinoff_prover]
fn copy_stmt(s: &Stmt) -> (r: Stmt)
    ensures
        view_stmt(r) == view_stmt(*s),
    decreases s,
{
    match s {
        Stmt::Use { path } => Stmt::Use { path: copy_strings(path) },
        Stmt::Var { name, type_annotation, value } => Stmt::Var {
            name: name.clone(),
            type_annotation: copy_opt_string(type_annotation),
            value: copy_expr(value),
        },
        Stmt::Assign { target, value } => Stmt::Assign { target: copy_expr(target), value: copy_expr(value) },
        Stmt::Return(value) => Stmt::Return(copy_opt_expr(value)),
        Stmt::While { condition, body } => Stmt::While { condition: copy_expr(condition), body: copy_block(body) },
        Stmt::Break => Stmt::Break,
        Stmt::Continue => Stmt::Continue,
        Stmt::For { name, iterable, body } => Stmt::For {
            name: name.clone(),
            iterable: copy_expr(iterable),
            body: copy_block(body),
        },
        Stmt::Function(f) => Stmt::Function(
            FunctionDecl { name: f.name.clone(), params: copy_params(&f.params), body: copy_fbody(&f.body) },
        ),
        Stmt::Data(d) => Stmt::Data(
            DataDecl { name: d.name.clone(), params: copy_params(&d.params), computed: copy_fields(&d.computed) },
        ),
        Stmt::Enum(e) => Stmt::Enum(EnumDecl { name: e.name.clone(), variants: copy_variants(&e.variants) }),
        Stmt::Expr(e) => Stmt::Expr(copy_expr(e)),
        Stmt::Pub(inner) => Stmt::Pub(Box::new(copy_stmt(inner))),
    }
}

#[verifier::spinoff_prover]
#[verifier::rlimit(40)]
fn copy_expr(e: &Expr) -> (r: Expr)
    ensures
        view_expr(r) == view_expr(*e),
    decreases e,
{
    match e {
        Expr::Null => Expr::Null,
        Expr::Bool(b) => Expr::Bool(*b),
        Expr::Int(v) => Expr::Int(*v),
        Expr::Float(t) => Expr::Float(t.clone()),
        Expr::String(s) => Expr::String(s.clone()),
        Expr::Ident(s) => Expr::Ident(s.clone()),
        Expr::List(items) => Expr::List(copy_exprs(items)),
        Expr::MapLiteral(entries) => Expr::MapLiteral(copy_entries(entries)),
        Expr::SetLiteral(items) => Expr::SetLiteral(copy_exprs(items)),
        Expr::Rest(s) => Expr::Rest(s.clone()),
        Expr::Unary { op, expr } => Expr::Unary { op: *op, expr: Box::new(copy_expr(expr)) },
        Expr::Binary { left, op, right } => Expr::Binary {
            left: Box::new(copy_expr(left)),
            op: *op,
            right: Box::new(copy_expr(right)),
        },
        Expr::Call { callee, args } => Expr::Call { callee: Box::new(copy_expr(callee)), args: copy_exprs(args) },
        Expr::Member { object, name, safe } => Expr::Member {
            object: Box::new(copy_expr(object)),
            name: name.clone(),
            safe: *safe,
        },
        Expr::Index { object, index } => Expr::Index {
            object: Box::new(copy_expr(object)),
            index: Box::new(copy_expr(index)),
        },
        Expr::Propagate { expr } => Expr::Propagate { expr: Box::new(copy_expr(expr)) },
        Expr::Lambda { params, body } => Expr::Lambda { params: copy_params(params), body: Box::new(copy_expr(body)) },
        Expr::If { condition, then_branch, else_branch } => Expr::If {
            condition: Box::new(copy_expr(condition)),
            then_branch: copy_block(then_branch),
            else_branch: copy_else(else_branch),
        },
        Expr::When { binding, subject, cases } => {
            let subject_copy = match subject {
                Some(x) => Some(Box::new(copy_expr(x))),
                None => None,
            };
            Expr::When { binding: copy_opt_string(binding), subject: subject_copy, cases: copy_cases(cases) }
        },
    }
}

impl Clone for Expr {
    /// A copy of the expression, node by node.
    fn clone(&self) -> (r: Self)
        ensures
            view_expr(r) == view_expr(*self),
    {
        copy_expr(self)
    }
}

impl Clone for Stmt {
    /// A copy of the statement, node by node.
    fn clone(&self) -> (r: Self)
        ensures
            view_stmt(r) == view_stmt(*self),
    {
        copy_stmt(self)
    }
}

impl Clone for Block {
    /// A copy of the block, node by node.
    fn clone(&self) -> (r: Self)
        ensures
            view_block(r) == view_block(*self),
    {
        copy_block(self)
    }
}

impl Clone for FunctionBody {
    /// A copy of the body, node by node.
    fn clone(&self) -> (r: Self)
        ensures
            view_fbody(r) == view_fbody(*self),
    {
        copy_fbody(self)
    }
}

impl Clone for Program {
    /// A copy of the program, node by node.
    fn clone(&self) -> (r: Self)
        ensures
            view_program(r) == view_program(*self),
    {
        Program { statements: copy_stmts(&self.statements) }
    }
}

fn copy_exprs(xs: &Vec<Expr>) -> (r: Vec<Expr>)
    ensures
        view_exprs(r@) == view_exprs(xs@),
    decreases xs,
{
    let mut out: Vec<Expr> = Vec::new();
    let mut k: usize = 0;
    while k < xs.len()
        invariant
            k <= xs.len(),
            out@.len() == k,
            forall|i: int| 0 <= i < k ==> view_expr(#[trigger] out@[i]) == view_expr(xs@[i]),
        decreases xs.len() - k,
    {
        proof {
            broadcast use vstd::std_specs::vec::axiom_vec_decreases_to_view;

            assert(decreases_to!(xs => xs@));
            assert(decreases_to!(xs@ => xs@[k as int]));
        }
        let x = copy_expr(&xs[k]);
        out.push(x);
        k = k + 1;
    }
    proof {
        lemma_view_exprs(out@);
        lemma_view_exprs(xs@);
        assert(view_exprs(out@) =~= view_exprs(xs@));
    }
    out
}

fn copy_stmts(xs: &Vec<Stmt>) -> (r: Vec<Stmt>)
    ensures
        view_stmts(r@) == view_stmts(xs@),
    decreases xs,
{
    let mut out: Vec<Stmt> = Vec::new();
    let mut k: usize = 0;
    while k < xs.len()
        invariant
            k <= xs.len(),
            out@.len() == k,
            forall|i: int| 0 <= i < k ==> view_stmt(#[trigger] out@[i]) == view_stmt(xs@[i]),
        decreases xs.len() - k,
    {
        proof {
            broadcast use vstd::std_specs::vec::axiom_vec_decreases_to_view;

            assert(decreases_to!(xs => xs@));
            assert(decreases_to!(xs@ => xs@[k as int]));
        }
        let x = copy_stmt(&xs[k]);
        out.push(x);
        k = k + 1;
    }
    proof {
        lemma_view_stmts(out@);
        lemma_view_stmts(xs@);
        assert(view_stmts(out@) =~= view_stmts(xs@));
    }
    out
}

fn copy_cases(xs: &Vec<WhenCase>) -> (r: Vec<WhenCase>)
    ensures
        view_cases(r@) == view_cases(xs@),
    decreases xs,
{
    let mut out: Vec<WhenCase> = Vec::new();
    let mut k: usize = 0;
    while k < xs.len()
        invariant
            k <= xs.len(),
            out@.len() == k,
            forall|i: int| 0 <= i < k ==> view_case(#[trigger] out@[i]) == view_case(xs@[i]),
        decreases xs.len() - k,
    {
        proof {
            broadcast use vstd::std_specs::vec::axiom_vec_decreases_to_view;

            assert(decreases_to!(xs => xs@));
            assert(decreases_to!(xs@ => xs@[k as int]));
        }
        let x = copy_case(&xs[k]);
        out.push(x);
        k = k + 1;
    }
    proof {
        lemma_view_cases(out@);
        lemma_view_cases(xs@);
        assert(view_cases(out@) =~= view_cases(xs@));
    }
    out
}

fn copy_entries(xs: &Vec<(Expr, Expr)>) -> (r: Vec<(Expr, Expr)>)
    ensures
        view_entries(r@) == view_entries(xs@),
    decreases xs,
{
    let mut out: Vec<(Expr, Expr)> = Vec::new();
    let mut k: usize = 0;
    while k < xs.len()
        invariant
            k <= xs.len(),
            out@.len() == k,
            forall|i: int| 0 <= i < k ==> (view_expr((#[trigger] out@[i]).0), view_expr(out@[i].1)) == (view_expr(xs@[i].0), view_expr(xs@[i].1)),
        decreases xs.len() - k,
    {
        proof {
            broadcast use vstd::std_specs::vec::axiom_vec_decreases_to_view;

            assert(decreases_to!(xs => xs@));
            assert(decreases_to!(xs@ => xs@[k as int]));
        }
        let x = (copy_expr(&xs[k].0), copy_expr(&xs[k].1));
        out.push(x);
        k = k + 1;
    }
    proof {
        lemma_view_entries(out@);
        lemma_view_entries(xs@);
        assert(view_entries(out@) =~= view_entries(xs@));
    }
    out
}

fn copy_fields(xs: &Vec<(String, Expr)>) -> (r: Vec<(String, Expr)>)
    ensures
        view_fields(r@) == view_fields(xs@),
    decreases xs,
{
    let mut out: Vec<(String, Expr)> = Vec::new();
    let mut k: usize = 0;
    while k < xs.len()
        invariant
            k <= xs.len(),
            out@.len() == k,
            forall|i: int| 0 <= i < k ==> ((#[trigger] out@[i]).0@, view_expr(out@[i].1)) == (xs@[i].0@, view_expr(xs@[i].1)),
        decreases xs.len() - k,
    {
        proof {
            broadcast use vstd::std_specs::vec::axiom_vec_decreases_to_view;

            assert(decreases_to!(xs => xs@));
            assert(decreases_to!(xs@ => xs@[k as int]));
        }
        let x = (xs[k].0.clone(), copy_expr(&xs[k].1));
        out.push(x);
        k = k + 1;
    }
    proof {
        lemma_view_fields(out@);
        lemma_view_fields(xs@);
        assert(view_fields(out@) =~= view_fields(xs@));
    }
    out
}

} // verus!
