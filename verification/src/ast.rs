//! Abstract syntax of AIRL declarations and types, and the printer that turns
//! a type back into AIRL source text.
use vstd::prelude::*;
use crate::span::Span;
use crate::text::{decimal, u64_to_string};

verus! {

// ── Top-level forms ─────────────────────────────────────────────────

/// One top-level form of a source file.
#[derive(Debug, PartialEq)]
pub enum TopLevel {
    Module(ModuleDef),
    Defn(FnDef),
    /// `(define name (params) body)`: a function without contracts.
    Define(SimpleFnDef),
    DefType(TypeDef),
    Task(TaskDef),
    UseDecl(UseDef),
    Import {
        path: String,
        alias: Option<String>,
        only: Option<Vec<String>>,
        span: Span,
    },
    /// `(extern-c "name" [sig])`: a C function made callable.
    ExternC(ExternCDecl),
    /// A bare expression (as typed at a prompt).
    Expr(Expr),
}

/// `(module name :version v :requires [..] :provides [..] ... forms)`.
#[derive(Debug, PartialEq)]
pub struct ModuleDef {
    pub name: String,
    pub version: Option<Version>,
    pub requires: Vec<String>,
    pub provides: Vec<String>,
    pub verify: VerifyLevel,
    pub execute_on: Option<ExecTarget>,
    pub body: Vec<TopLevel>,
    pub span: Span,
}

/// `(defn name :sig [...] :requires [...] :ensures [...] :body e ...)`.
#[derive(Debug, PartialEq)]
pub struct FnDef {
    pub name: String,
    pub params: Vec<Param>,
    pub return_type: AstType,
    pub intent: Option<String>,
    pub requires: Vec<Expr>,
    pub ensures: Vec<Expr>,
    pub invariants: Vec<Expr>,
    pub is_pure: bool,
    pub is_total: bool,
    pub body: Expr,
    pub execute_on: Option<ExecTarget>,
    pub priority: Option<Priority>,
    pub is_public: bool,
    pub span: Span,
}

/// `(define name (p1 p2 ...) body)`.
#[derive(Debug, PartialEq)]
pub struct SimpleFnDef {
    pub name: String,
    pub params: Vec<String>,
    pub body: Expr,
    pub span: Span,
}

/// `(extern-c "c_name" [params -> Ret])`.
#[derive(Debug, PartialEq)]
pub struct ExternCDecl {
    pub c_name: String,
    pub params: Vec<Param>,
    pub return_type: AstType,
    pub span: Span,
}

/// `(task "id" :from .. :to .. ...)`.
#[derive(Debug, PartialEq)]
pub struct TaskDef {
    pub id: String,
    pub from: Expr,
    pub to: Expr,
    pub deadline: Option<Expr>,
    pub intent: Option<String>,
    pub input: Vec<Param>,
    pub expected_output: Option<ExpectedOutput>,
    pub constraints: Vec<Constraint>,
    pub on_success: Option<Expr>,
    pub on_failure: Option<Expr>,
    pub on_timeout: Option<Expr>,
    pub span: Span,
}

#[derive(Debug, PartialEq)]
pub struct ExpectedOutput {
    pub params: Vec<Param>,
    pub ensures: Vec<Expr>,
    pub span: Span,
}

#[derive(Debug, PartialEq)]
pub struct Constraint {
    pub kind: ConstraintKind,
    pub span: Span,
}

#[derive(Debug, PartialEq)]
pub enum ConstraintKind {
    MaxMemory(Expr),
    MaxTokens(Expr),
    NoNetwork(bool),
    Custom(String, Expr),
}

// ── Module header pieces ────────────────────────────────────────────

/// A `major.minor.patch` module version.
#[derive(Debug, Clone, Copy, PartialEq, Eq, Structural)]
pub struct Version {
    pub major: u32,
    pub minor: u32,
    pub patch: u32,
}

/// How strongly a module's contracts are checked.
#[derive(Debug, Clone, Copy, PartialEq, Eq, Structural)]
pub enum VerifyLevel {
    Checked,
    Proven,
    Trusted,
}

impl Default for VerifyLevel {
    /// Contracts are checked at run time unless a module asks for more.
    fn default() -> (v: VerifyLevel)
        ensures
            v == VerifyLevel::Checked,
    {
        VerifyLevel::Checked
    }
}

/// Where a module or function is meant to run.
#[derive(Debug, Clone, PartialEq)]
pub enum ExecTarget {
    Cpu,
    Gpu,
    Any,
    Agent(String),
}

/// Scheduling priority of a function.
#[derive(Debug, Clone, Copy, PartialEq, Eq, Structural)]
pub enum Priority {
    Low,
    Normal,
    High,
    Critical,
}

/// Ownership annotation of a parameter; no annotation means `Own`.
#[derive(Debug, Clone, Copy, PartialEq, Eq, Structural)]
pub enum Ownership {
    Own,
    Ref,
    Mut,
    Copy,
    Default,
}

// ── Type definitions ────────────────────────────────────────────────

/// `(deftype Name [params] body)`.
#[derive(Debug, Clone, PartialEq)]
pub struct TypeDef {
    pub name: String,
    pub type_params: Vec<TypeParam>,
    pub body: TypeDefBody,
    pub is_public: bool,
    pub span: Span,
}

/// A type parameter with its bound.
#[derive(Debug, Clone, PartialEq)]
pub struct TypeParam {
    pub name: String,
    pub bound: AstType,
    pub span: Span,
}

/// The three shapes of a type definition.
#[derive(Debug, Clone, PartialEq)]
pub enum TypeDefBody {
    Sum(Vec<Variant>),
    Product(Vec<Field>),
    Alias(AstType),
}

/// One constructor of a sum type.
#[derive(Debug, Clone, PartialEq)]
pub struct Variant {
    pub name: String,
    pub fields: Vec<AstType>,
    pub span: Span,
}

/// One field of a product type.
#[derive(Debug, Clone, PartialEq)]
pub struct Field {
    pub name: String,
    pub ty: AstType,
    pub span: Span,
}

// ── Types as written ────────────────────────────────────────────────

/// A type as written in the source.
#[derive(Debug, PartialEq)]
pub struct AstType {
    pub kind: AstTypeKind,
    pub span: Span,
}

#[derive(Debug, PartialEq)]
pub enum AstTypeKind {
    /// `i32`, `bool`, `String`
    Named(String),
    /// `Result[i32, DivError]`, `tensor[f32, 64, 64]`
    App(String, Vec<AstType>),
    /// `(-> [i32 i32] i32)`
    Func(Vec<AstType>, Box<AstType>),
    /// A type-level number.
    Nat(NatExpr),
}

/// Type-level natural-number expressions.
#[derive(Debug, PartialEq)]
pub enum NatExpr {
    Lit(u64),
    Var(String),
    BinOp(NatOp, Box<NatExpr>, Box<NatExpr>),
}

#[derive(Debug, Clone, Copy, PartialEq, Eq, Structural)]
pub enum NatOp {
    Add,
    Sub,
    Mul,
}

fn clone_nat(n: &NatExpr) -> (r: NatExpr)
    ensures
        r == *n,
    decreases n,
{
    match n {
        NatExpr::Lit(v) => NatExpr::Lit(*v),
        NatExpr::Var(s) => NatExpr::Var(s.clone()),
        NatExpr::BinOp(op, l, r) => NatExpr::BinOp(*op, Box::new(clone_nat(l)), Box::new(clone_nat(r))),
    }
}

impl Clone for NatExpr {
    fn clone(&self) -> (r: NatExpr)
        ensures
            r == *self,
    {
        clone_nat(self)
    }
}

fn clone_type(t: &AstType) -> (r: AstType)
    ensures
        type_text(r) == type_text(*t),
        ast_type_view(r) == ast_type_view(*t),
    decreases t,
{
    let kind = match &t.kind {
        AstTypeKind::Named(s) => AstTypeKind::Named(s.clone()),
        AstTypeKind::App(name, args) => AstTypeKind::App(name.clone(), clone_types(args)),
        AstTypeKind::Func(params, ret) => AstTypeKind::Func(clone_types(params), Box::new(clone_type(ret))),
        AstTypeKind::Nat(n) => AstTypeKind::Nat(clone_nat(n)),
    };
    let r = AstType { kind, span: t.span };
    proof {
        match &t.kind {
            AstTypeKind::App(name, args) => {
                lemma_types_joined_congruent(args@, r.kind->App_1@, ", "@);
            },
            AstTypeKind::Func(params, ret) => {
                lemma_types_joined_congruent(params@, r.kind->Func_0@, " "@);
            },
            _ => {},
        }
    }
    r
}

fn clone_types(ts: &Vec<AstType>) -> (r: Vec<AstType>)
    ensures
        r@.len() == ts@.len(),
        forall|i: int| 0 <= i < ts@.len() ==> type_text(#[trigger] r@[i]) == type_text(ts@[i]),
        ast_types_view(r@) == ast_types_view(ts@),
    decreases ts,
{
    let mut out: Vec<AstType> = Vec::new();
    let mut i: usize = 0;
    assert(ts@.take(0) =~= Seq::<AstType>::empty());
    while i < ts.len()
        invariant
            i <= ts@.len(),
            out@.len() == i,
            forall|j: int| 0 <= j < i ==> type_text(#[trigger] out@[j]) == type_text(ts@[j]),
            ast_types_view(out@) == ast_types_view(ts@.take(i as int)),
        decreases ts@.len() - i,
    {
        proof {
            assert(decreases_to!(ts => ts@));
            assert(decreases_to!(ts@ => ts@[i as int]));
        }
        let c = clone_type(&ts[i]);
        let ghost prev = out@;
        out.push(c);
        proof {
            assert(out@.drop_last() =~= prev);
            assert(ts@.take(i + 1).drop_last() =~= ts@.take(i as int));
        }
        i += 1;
    }
    assert(ts@.take(i as int) =~= ts@);
    out
}

/// Types that print alike, joined alike.
pub proof fn lemma_types_joined_congruent(a: Seq<AstType>, b: Seq<AstType>, sep: Seq<char>)
    requires
        a.len() == b.len(),
        forall|i: int| 0 <= i < a.len() ==> type_text(#[trigger] b[i]) == type_text(a[i]),
    ensures
        types_joined(b, sep) == types_joined(a, sep),
    decreases a.len(),
{
    if a.len() > 1 {
        lemma_types_joined_congruent(a.drop_last(), b.drop_last(), sep);
        assert(type_text(b.last()) == type_text(a.last()));
    } else if a.len() == 1 {
        assert(type_text(b[0]) == type_text(a[0]));
    }
}

impl Clone for AstType {
    /// A copy that prints the same.
    fn clone(&self) -> (r: AstType)
        ensures
            type_text(r) == type_text(*self),
            ast_type_view(r) == ast_type_view(*self),
    {
        clone_type(self)
    }
}

// ── Expressions ─────────────────────────────────────────────────────

/// An expression with the span it was read from.
#[derive(Debug, PartialEq)]
pub struct Expr {
    pub kind: ExprKind,
    pub span: Span,
}

/// The forms of an expression. A float literal keeps the text it was
/// written with.
#[derive(Debug, PartialEq)]
pub enum ExprKind {
    IntLit(i64),
    FloatLit(String),
    StrLit(String),
    BoolLit(bool),
    NilLit,
    SymbolRef(String),
    KeywordLit(String),
    /// `(if cond then else)`
    If(Box<Expr>, Box<Expr>, Box<Expr>),
    /// `(let (x : T v) ... body)`
    Let(Vec<LetBinding>, Box<Expr>),
    /// `(do e1 ... en)`
    Do(Vec<Expr>),
    /// `(match e pat body ...)`
    Match(Box<Expr>, Vec<MatchArm>),
    /// `(fn [params] body)`
    Lambda(Vec<Param>, Box<Expr>),
    /// `(f a b c)`
    FnCall(Box<Expr>, Vec<Expr>),
    /// `(try e)`
    Try(Box<Expr>),
    /// `(forall [i : T] (where guard) body)`
    Forall(Box<Param>, Option<Box<Expr>>, Box<Expr>),
    /// `(exists [i : T] (where guard) body)`
    Exists(Box<Param>, Option<Box<Expr>>, Box<Expr>),
    /// `(Ok v)`
    VariantCtor(String, Vec<Expr>),
    /// `(Name :field v ...)`
    StructLit(String, Vec<(String, Expr)>),
    /// `[1 2 3]`
    ListLit(Vec<Expr>),
}

/// One binding of a `let`.
#[derive(Debug, PartialEq)]
pub struct LetBinding {
    pub name: String,
    pub ty: AstType,
    pub value: Expr,
    pub span: Span,
}

/// One arm of a `match`.
#[derive(Debug, PartialEq)]
pub struct MatchArm {
    pub pattern: Pattern,
    pub body: Expr,
    pub span: Span,
}

/// A parameter of a function, a lambda or a quantifier.
#[derive(Debug, PartialEq)]
pub struct Param {
    pub ownership: Ownership,
    pub name: String,
    pub ty: AstType,
    pub default: Option<Expr>,
    pub span: Span,
}

// ── Patterns ────────────────────────────────────────────────────────

/// A `match` pattern as written.
#[derive(Debug, PartialEq)]
pub struct Pattern {
    pub kind: PatternKind,
    pub span: Span,
}

#[derive(Debug, PartialEq)]
pub enum PatternKind {
    /// `_`
    Wildcard,
    /// `x`
    Binding(String),
    /// `42`, `"hello"`
    Literal(LitPattern),
    /// `(Ok x)`, `(Err _)`
    Variant(String, Vec<Pattern>),
}

/// A literal in a pattern. A float literal is held as its IEEE-754 bits.
#[derive(Debug, PartialEq)]
pub enum LitPattern {
    Int(i64),
    Float(u64),
    Str(String),
    Bool(bool),
    Nil,
}

// ── Use declarations ────────────────────────────────────────────────

/// `(use module ...)`.
#[derive(Debug, Clone, PartialEq)]
pub struct UseDef {
    pub module: String,
    pub kind: UseKind,
    pub span: Span,
}

#[derive(Debug, Clone, PartialEq)]
pub enum UseKind {
    Symbols(Vec<String>),
    Prefixed(String),
    All,
}

// ── Printing types back as source ───────────────────────────────────

/// What `{:?}` writes for a string: the text in double quotes, with quotes,
/// backslashes and non-printable characters escaped.
pub uninterp spec fn str_debug(s: Seq<char>) -> Seq<char>;

/// Printable ASCII other than `"` and `\`: the characters `{:?}` leaves alone.
pub open spec fn debug_plain(s: Seq<char>) -> bool {
    forall|i: int| 0 <= i < s.len() ==> ' ' <= #[trigger] s[i] <= '~' && s[i] != '"' && s[i] != '\\'
}

/// `<str as Debug>::fmt`, through `format!("{:?}", ..)`: the result is the
/// string's debug form; for printable ASCII without quotes or backslashes that
/// is the text itself between double quotes (std's documented escaping).
/// Which escape each other character gets is left unsaid.
#[verifier::external_body]
pub(crate) fn debug_str(s: &str) -> (r: String)
    ensures
        r@ == str_debug(s@),
        debug_plain(s@) ==> r@ == seq!['"'] + s@ + seq!['"'],
{
    format!("{:?}", s)
}

pub open spec fn nat_op_name(op: NatOp) -> Seq<char> {
    match op {
        NatOp::Add => "Add"@,
        NatOp::Sub => "Sub"@,
        NatOp::Mul => "Mul"@,
    }
}

pub open spec fn nat_op_symbol(op: NatOp) -> Seq<char> {
    match op {
        NatOp::Add => "+"@,
        NatOp::Sub => "-"@,
        NatOp::Mul => "*"@,
    }
}

/// A type-level expression as AIRL source: a literal or a variable as
/// itself, an operation as `(op L R)` with each operand written the same way.
pub open spec fn nat_text(n: NatExpr) -> Seq<char>
    decreases n,
{
    match n {
        NatExpr::Lit(v) => decimal(v as nat),
        NatExpr::Var(s) => s@,
        NatExpr::BinOp(op, l, r) => "("@ + nat_op_symbol(op) + " "@ + nat_text(*l) + " "@ + nat_text(*r) + ")"@,
    }
}

/// A type written back as AIRL source.
pub open spec fn type_text(t: AstType) -> Seq<char>
    decreases t,
{
    match t.kind {
        AstTypeKind::Named(s) => s@,
        AstTypeKind::App(name, args) => name@ + "["@ + types_joined(args@, ", "@) + "]"@,
        AstTypeKind::Func(params, ret) => "(-> ["@ + types_joined(params@, " "@) + "] "@ + type_text(*ret) + ")"@,
        AstTypeKind::Nat(n) => nat_text(n),
    }
}

/// Several types written back, separated by `sep`.
pub open spec fn types_joined(ts: Seq<AstType>, sep: Seq<char>) -> Seq<char>
    decreases ts,
{
    if ts.len() == 0 {
        Seq::empty()
    } else if ts.len() == 1 {
        type_text(ts[0])
    } else {
        types_joined(ts.drop_last(), sep) + sep + type_text(ts.last())
    }
}

impl AstType {
    /// The type written back as AIRL source: a name as itself, an application
    /// as `Name[A, B]`, a function type as `(-> [A B] R)`.
    pub fn to_airl(&self) -> (s: String)
        ensures
            s@ == type_text(*self),
        decreases self,
    {
        match &self.kind {
            AstTypeKind::Named(name) => name.clone(),
            AstTypeKind::App(name, args) => {
                let mut s = name.clone();
                s.append("[");
                let body = join_types(args, ", ");
                s.append(body.as_str());
                s.append("]");
                s
            },
            AstTypeKind::Func(params, ret) => {
                let mut s = String::from_str("(-> [");
                let body = join_types(params, " ");
                s.append(body.as_str());
                s.append("] ");
                let r = ret.to_airl();
                s.append(r.as_str());
                s.append(")");
                s
            },
            AstTypeKind::Nat(n) => nat_text_exec(n),
        }
    }
}

fn nat_op_symbol_exec(op: NatOp) -> (s: &'static str)
    ensures
        s@ == nat_op_symbol(op),
{
    match op {
        NatOp::Add => "+",
        NatOp::Sub => "-",
        NatOp::Mul => "*",
    }
}

fn nat_text_exec(n: &NatExpr) -> (s: String)
    ensures
        s@ == nat_text(*n),
    decreases n,
{
    match n {
        NatExpr::Lit(v) => u64_to_string(*v),
        NatExpr::Var(name) => name.clone(),
        NatExpr::BinOp(op, l, r) => {
            let mut s = String::from_str("(");
            s.append(nat_op_symbol_exec(*op));
            s.append(" ");
            let ls = nat_text_exec(l);
            s.append(ls.as_str());
            s.append(" ");
            let rs = nat_text_exec(r);
            s.append(rs.as_str());
            s.append(")");
            s
        },
    }
}

fn join_types(ts: &Vec<AstType>, sep: &str) -> (s: String)
    ensures
        s@ == types_joined(ts@, sep@),
    decreases ts,
{
    let mut out = String::new();
    let mut i: usize = 0;
    while i < ts.len()
        invariant
            i <= ts@.len(),
            out@ == types_joined(ts@.take(i as int), sep@),
        decreases ts@.len() - i,
    {
        assert(ts@.take(i + 1).drop_last() =~= ts@.take(i as int));
        if i > 0 {
            out.append(sep);
        }
        proof {
            assert(decreases_to!(ts => ts@));
            assert(decreases_to!(ts@ => ts@[i as int]));
        }
        let t = ts[i].to_airl();
        out.append(t.as_str());
        i += 1;
    }
    assert(ts@.take(ts@.len() as int) =~= ts@);
    out
}


// ── Abstract views ──────────────────────────────────────────────────

pub enum SpecNat {
    Lit(u64),
    Var(Seq<char>),
    BinOp(NatOp, Box<SpecNat>, Box<SpecNat>),
}

pub enum SpecTypeKind {
    Named(Seq<char>),
    App(Seq<char>, Seq<SpecAstType>),
    Func(Seq<SpecAstType>, Box<SpecAstType>),
    Nat(SpecNat),
}

pub struct SpecAstType {
    pub kind: SpecTypeKind,
    pub span: Span,
}

pub open spec fn nat_view(n: NatExpr) -> SpecNat
    decreases n,
{
    match n {
        NatExpr::Lit(v) => SpecNat::Lit(v),
        NatExpr::Var(s) => SpecNat::Var(s@),
        NatExpr::BinOp(op, l, r) => SpecNat::BinOp(op, Box::new(nat_view(*l)), Box::new(nat_view(*r))),
    }
}

pub open spec fn ast_type_view(t: AstType) -> SpecAstType
    decreases t, 1nat,
{
    SpecAstType {
        kind: match t.kind {
            AstTypeKind::Named(s) => SpecTypeKind::Named(s@),
            AstTypeKind::App(n, args) => SpecTypeKind::App(n@, ast_types_view(args@)),
            AstTypeKind::Func(ps, r) => SpecTypeKind::Func(ast_types_view(ps@), Box::new(ast_type_view(*r))),
            AstTypeKind::Nat(n) => SpecTypeKind::Nat(nat_view(n)),
        },
        span: t.span,
    }
}

pub open spec fn ast_types_view(s: Seq<AstType>) -> Seq<SpecAstType>
    decreases s, 0nat,
{
    if s.len() == 0 {
        Seq::empty()
    } else {
        ast_types_view(s.drop_last()).push(ast_type_view(s.last()))
    }
}

pub struct SpecTypeParam {
    pub name: Seq<char>,
    pub bound: SpecAstType,
    pub span: Span,
}

pub struct SpecVariant {
    pub name: Seq<char>,
    pub fields: Seq<SpecAstType>,
    pub span: Span,
}

pub struct SpecField {
    pub name: Seq<char>,
    pub ty: SpecAstType,
    pub span: Span,
}

pub enum SpecTypeDefBody {
    Sum(Seq<SpecVariant>),
    Product(Seq<SpecField>),
    Alias(SpecAstType),
}

pub struct SpecTypeDef {
    pub name: Seq<char>,
    pub type_params: Seq<SpecTypeParam>,
    pub body: SpecTypeDefBody,
    pub is_public: bool,
    pub span: Span,
}

pub open spec fn type_param_view(p: TypeParam) -> SpecTypeParam {
    SpecTypeParam { name: p.name@, bound: ast_type_view(p.bound), span: p.span }
}

pub open spec fn variant_view(v: Variant) -> SpecVariant {
    SpecVariant { name: v.name@, fields: ast_types_view(v.fields@), span: v.span }
}

pub open spec fn field_view(f: Field) -> SpecField {
    SpecField { name: f.name@, ty: ast_type_view(f.ty), span: f.span }
}

pub open spec fn type_def_body_view(b: TypeDefBody) -> SpecTypeDefBody {
    match b {
        TypeDefBody::Sum(vs) => SpecTypeDefBody::Sum(Seq::new(vs@.len(), |i: int| variant_view(vs@[i]))),
        TypeDefBody::Product(fs) => SpecTypeDefBody::Product(Seq::new(fs@.len(), |i: int| field_view(fs@[i]))),
        TypeDefBody::Alias(t) => SpecTypeDefBody::Alias(ast_type_view(t)),
    }
}

pub open spec fn type_def_view(d: TypeDef) -> SpecTypeDef {
    SpecTypeDef {
        name: d.name@,
        type_params: Seq::new(d.type_params@.len(), |i: int| type_param_view(d.type_params@[i])),
        body: type_def_body_view(d.body),
        is_public: d.is_public,
        span: d.span,
    }
}


// ── Expressions as mathematical values ──────────────────────────────

pub enum SpecExprKind {
    IntLit(i64),
    FloatLit(Seq<char>),
    StrLit(Seq<char>),
    BoolLit(bool),
    NilLit,
    SymbolRef(Seq<char>),
    KeywordLit(Seq<char>),
    If(Box<SpecExpr>, Box<SpecExpr>, Box<SpecExpr>),
    Let(Seq<SpecLetBinding>, Box<SpecExpr>),
    Do(Seq<SpecExpr>),
    Match(Box<SpecExpr>, Seq<SpecMatchArm>),
    Lambda(Seq<SpecParam>, Box<SpecExpr>),
    FnCall(Box<SpecExpr>, Seq<SpecExpr>),
    Try(Box<SpecExpr>),
    Forall(Box<SpecParam>, Option<Box<SpecExpr>>, Box<SpecExpr>),
    Exists(Box<SpecParam>, Option<Box<SpecExpr>>, Box<SpecExpr>),
    VariantCtor(Seq<char>, Seq<SpecExpr>),
    StructLit(Seq<char>, Seq<(Seq<char>, SpecExpr)>),
    ListLit(Seq<SpecExpr>),
}

pub struct SpecExpr {
    pub kind: SpecExprKind,
    pub span: Span,
}

pub struct SpecLetBinding {
    pub name: Seq<char>,
    pub ty: SpecAstType,
    pub value: SpecExpr,
    pub span: Span,
}

pub struct SpecMatchArm {
    pub pattern: SpecPattern,
    pub body: SpecExpr,
    pub span: Span,
}

pub struct SpecParam {
    pub ownership: Ownership,
    pub name: Seq<char>,
    pub ty: SpecAstType,
    pub default: Option<SpecExpr>,
    pub span: Span,
}

pub enum SpecLitPattern {
    Int(i64),
    Float(u64),
    Str(Seq<char>),
    Bool(bool),
    Nil,
}

pub enum SpecPatternKind {
    Wildcard,
    Binding(Seq<char>),
    Literal(SpecLitPattern),
    Variant(Seq<char>, Seq<SpecPattern>),
}

pub struct SpecPattern {
    pub kind: SpecPatternKind,
    pub span: Span,
}

pub open spec fn pattern_view(p: Pattern) -> SpecPattern
    decreases p, 1nat,
{
    SpecPattern {
        kind: match p.kind {
            PatternKind::Wildcard => SpecPatternKind::Wildcard,
            PatternKind::Binding(s) => SpecPatternKind::Binding(s@),
            PatternKind::Literal(l) => SpecPatternKind::Literal(match l {
                LitPattern::Int(v) => SpecLitPattern::Int(v),
                LitPattern::Float(v) => SpecLitPattern::Float(v),
                LitPattern::Str(v) => SpecLitPattern::Str(v@),
                LitPattern::Bool(v) => SpecLitPattern::Bool(v),
                LitPattern::Nil => SpecLitPattern::Nil,
            }),
            PatternKind::Variant(n, subs) => SpecPatternKind::Variant(n@, patterns_view(subs@)),
        },
        span: p.span,
    }
}

pub open spec fn patterns_view(s: Seq<Pattern>) -> Seq<SpecPattern>
    decreases s, 0nat,
{
    if s.len() == 0 {
        Seq::empty()
    } else {
        patterns_view(s.drop_last()).push(pattern_view(s.last()))
    }
}

pub open spec fn expr_view(e: Expr) -> SpecExpr
    decreases e, 1nat,
{
    SpecExpr {
        kind: match e.kind {
            ExprKind::IntLit(v) => SpecExprKind::IntLit(v),
            ExprKind::FloatLit(t) => SpecExprKind::FloatLit(t@),
            ExprKind::StrLit(s) => SpecExprKind::StrLit(s@),
            ExprKind::BoolLit(b) => SpecExprKind::BoolLit(b),
            ExprKind::NilLit => SpecExprKind::NilLit,
            ExprKind::SymbolRef(s) => SpecExprKind::SymbolRef(s@),
            ExprKind::KeywordLit(s) => SpecExprKind::KeywordLit(s@),
            ExprKind::If(c, t, f) => SpecExprKind::If(Box::new(expr_view(*c)), Box::new(expr_view(*t)), Box::new(expr_view(*f))),
            ExprKind::Let(bs, body) => SpecExprKind::Let(bindings_view(bs@), Box::new(expr_view(*body))),
            ExprKind::Do(es) => SpecExprKind::Do(exprs_view(es@)),
            ExprKind::Match(s, arms) => SpecExprKind::Match(Box::new(expr_view(*s)), arms_view(arms@)),
            ExprKind::Lambda(ps, body) => SpecExprKind::Lambda(params_view(ps@), Box::new(expr_view(*body))),
            ExprKind::FnCall(f, args) => SpecExprKind::FnCall(Box::new(expr_view(*f)), exprs_view(args@)),
            ExprKind::Try(x) => SpecExprKind::Try(Box::new(expr_view(*x))),
            ExprKind::Forall(p, g, b) => SpecExprKind::Forall(Box::new(param_view(*p)), opt_expr_box_view(g), Box::new(expr_view(*b))),
            ExprKind::Exists(p, g, b) => SpecExprKind::Exists(Box::new(param_view(*p)), opt_expr_box_view(g), Box::new(expr_view(*b))),
            ExprKind::VariantCtor(n, args) => SpecExprKind::VariantCtor(n@, exprs_view(args@)),
            ExprKind::StructLit(n, fs) => SpecExprKind::StructLit(n@, field_inits_view(fs@)),
            ExprKind::ListLit(es) => SpecExprKind::ListLit(exprs_view(es@)),
        },
        span: e.span,
    }
}

pub open spec fn opt_expr_box_view(g: Option<Box<Expr>>) -> Option<Box<SpecExpr>>
    decreases g, 0nat,
{
    match g {
        Some(x) => Some(Box::new(expr_view(*x))),
        None => None,
    }
}

pub open spec fn opt_expr_view(g: Option<Expr>) -> Option<SpecExpr>
    decreases g, 0nat,
{
    match g {
        Some(x) => Some(expr_view(x)),
        None => None,
    }
}

pub open spec fn exprs_view(s: Seq<Expr>) -> Seq<SpecExpr>
    decreases s, 0nat,
{
    if s.len() == 0 {
        Seq::empty()
    } else {
        exprs_view(s.drop_last()).push(expr_view(s.last()))
    }
}

pub open spec fn field_inits_view(s: Seq<(String, Expr)>) -> Seq<(Seq<char>, SpecExpr)>
    decreases s, 0nat,
{
    if s.len() == 0 {
        Seq::empty()
    } else {
        field_inits_view(s.drop_last()).push((s.last().0@, expr_view(s.last().1)))
    }
}

pub open spec fn binding_view(b: LetBinding) -> SpecLetBinding
    decreases b, 1nat,
{
    SpecLetBinding { name: b.name@, ty: ast_type_view(b.ty), value: expr_view(b.value), span: b.span }
}

pub open spec fn bindings_view(s: Seq<LetBinding>) -> Seq<SpecLetBinding>
    decreases s, 0nat,
{
    if s.len() == 0 {
        Seq::empty()
    } else {
        bindings_view(s.drop_last()).push(binding_view(s.last()))
    }
}

pub open spec fn arm_view(a: MatchArm) -> SpecMatchArm
    decreases a, 1nat,
{
    SpecMatchArm { pattern: pattern_view(a.pattern), body: expr_view(a.body), span: a.span }
}

pub open spec fn arms_view(s: Seq<MatchArm>) -> Seq<SpecMatchArm>
    decreases s, 0nat,
{
    if s.len() == 0 {
        Seq::empty()
    } else {
        arms_view(s.drop_last()).push(arm_view(s.last()))
    }
}

pub open spec fn param_view(p: Param) -> SpecParam
    decreases p, 1nat,
{
    SpecParam { ownership: p.ownership, name: p.name@, ty: ast_type_view(p.ty), default: opt_expr_view(p.default), span: p.span }
}

pub open spec fn params_view(s: Seq<Param>) -> Seq<SpecParam>
    decreases s, 0nat,
{
    if s.len() == 0 {
        Seq::empty()
    } else {
        params_view(s.drop_last()).push(param_view(s.last()))
    }
}


// ── Copies ──────────────────────────────────────────────────────────

fn clone_pattern(p: &Pattern) -> (r: Pattern)
    ensures
        pattern_view(r) == pattern_view(*p),
    decreases p, 1nat,
{
    let kind = match &p.kind {
        PatternKind::Wildcard => PatternKind::Wildcard,
        PatternKind::Binding(s) => PatternKind::Binding(s.clone()),
        PatternKind::Literal(l) => PatternKind::Literal(match l {
            LitPattern::Int(v) => LitPattern::Int(*v),
            LitPattern::Float(v) => LitPattern::Float(*v),
            LitPattern::Str(v) => LitPattern::Str(v.clone()),
            LitPattern::Bool(v) => LitPattern::Bool(*v),
            LitPattern::Nil => LitPattern::Nil,
        }),
        PatternKind::Variant(n, subs) => PatternKind::Variant(n.clone(), clone_patterns(subs)),
    };
    Pattern { kind, span: p.span }
}

fn clone_patterns(v: &Vec<Pattern>) -> (r: Vec<Pattern>)
    ensures
        patterns_view(r@) == patterns_view(v@),
    decreases v, 0nat,
{
    let mut out: Vec<Pattern> = Vec::new();
    let mut i: usize = 0;
    assert(v@.take(0) =~= Seq::<Pattern>::empty());
    while i < v.len()
        invariant
            i <= v@.len(),
            patterns_view(out@) == patterns_view(v@.take(i as int)),
        decreases v@.len() - i,
    {
        proof {
            assert(decreases_to!(v => v@));
            assert(decreases_to!(v@ => v@[i as int]));
        }
        let c = clone_pattern(&v[i]);
        let ghost prev = out@;
        out.push(c);
        proof {
            assert(out@.drop_last() =~= prev);
            assert(v@.take(i + 1).drop_last() =~= v@.take(i as int));
        }
        i += 1;
    }
    assert(v@.take(i as int) =~= v@);
    out
}

fn clone_expr(e: &Expr) -> (r: Expr)
    ensures
        expr_view(r) == expr_view(*e),
    decreases e, 1nat,
{
    let kind = match &e.kind {
        ExprKind::IntLit(v) => ExprKind::IntLit(*v),
        ExprKind::FloatLit(t) => ExprKind::FloatLit(t.clone()),
        ExprKind::StrLit(t) => ExprKind::StrLit(t.clone()),
        ExprKind::BoolLit(b) => ExprKind::BoolLit(*b),
        ExprKind::NilLit => ExprKind::NilLit,
        ExprKind::SymbolRef(t) => ExprKind::SymbolRef(t.clone()),
        ExprKind::KeywordLit(t) => ExprKind::KeywordLit(t.clone()),
        ExprKind::If(c, t, f) => ExprKind::If(Box::new(clone_expr(c)), Box::new(clone_expr(t)), Box::new(clone_expr(f))),
        ExprKind::Let(bs, body) => ExprKind::Let(clone_bindings(bs), Box::new(clone_expr(body))),
        ExprKind::Do(es) => ExprKind::Do(clone_exprs(es)),
        ExprKind::Match(x, arms) => ExprKind::Match(Box::new(clone_expr(x)), clone_arms(arms)),
        ExprKind::Lambda(ps, body) => ExprKind::Lambda(clone_params(ps), Box::new(clone_expr(body))),
        ExprKind::FnCall(f, args) => ExprKind::FnCall(Box::new(clone_expr(f)), clone_exprs(args)),
        ExprKind::Try(x) => ExprKind::Try(Box::new(clone_expr(x))),
        ExprKind::Forall(p, g, b) => ExprKind::Forall(Box::new(clone_param(p)), clone_guard(g), Box::new(clone_expr(b))),
        ExprKind::Exists(p, g, b) => ExprKind::Exists(Box::new(clone_param(p)), clone_guard(g), Box::new(clone_expr(b))),
        ExprKind::VariantCtor(n, args) => ExprKind::VariantCtor(n.clone(), clone_exprs(args)),
        ExprKind::StructLit(n, fs) => ExprKind::StructLit(n.clone(), clone_field_inits(fs)),
        ExprKind::ListLit(es) => ExprKind::ListLit(clone_exprs(es)),
    };
    Expr { kind, span: e.span }
}

fn clone_guard(g: &Option<Box<Expr>>) -> (r: Option<Box<Expr>>)
    ensures
        opt_expr_box_view(r) == opt_expr_box_view(*g),
    decreases g, 0nat,
{
    match g {
        Some(x) => Some(Box::new(clone_expr(x))),
        None => None,
    }
}

pub(crate) fn clone_exprs(v: &Vec<Expr>) -> (r: Vec<Expr>)
    ensures
        exprs_view(r@) == exprs_view(v@),
    decreases v, 0nat,
{
    let mut out: Vec<Expr> = Vec::new();
    let mut i: usize = 0;
    assert(v@.take(0) =~= Seq::<Expr>::empty());
    while i < v.len()
        invariant
            i <= v@.len(),
            exprs_view(out@) == exprs_view(v@.take(i as int)),
        decreases v@.len() - i,
    {
        proof {
            assert(decreases_to!(v => v@));
            assert(decreases_to!(v@ => v@[i as int]));
        }
        let c = clone_expr(&v[i]);
        let ghost prev = out@;
        out.push(c);
        proof {
            assert(out@.drop_last() =~= prev);
            assert(v@.take(i + 1).drop_last() =~= v@.take(i as int));
        }
        i += 1;
    }
    assert(v@.take(i as int) =~= v@);
    out
}

fn clone_field_inits(v: &Vec<(String, Expr)>) -> (r: Vec<(String, Expr)>)
    ensures
        field_inits_view(r@) == field_inits_view(v@),
    decreases v, 0nat,
{
    let mut out: Vec<(String, Expr)> = Vec::new();
    let mut i: usize = 0;
    assert(v@.take(0) =~= Seq::<(String, Expr)>::empty());
    while i < v.len()
        invariant
            i <= v@.len(),
            field_inits_view(out@) == field_inits_view(v@.take(i as int)),
        decreases v@.len() - i,
    {
        proof {
            assert(decreases_to!(v => v@));
            assert(decreases_to!(v@ => v@[i as int]));
            assert(decreases_to!(v@[i as int] => v@[i as int].1));
        }
        let c = (v[i].0.clone(), clone_expr(&v[i].1));
        let ghost prev = out@;
        out.push(c);
        proof {
            assert(out@.drop_last() =~= prev);
            assert(v@.take(i + 1).drop_last() =~= v@.take(i as int));
        }
        i += 1;
    }
    assert(v@.take(i as int) =~= v@);
    out
}

fn clone_binding(b: &LetBinding) -> (r: LetBinding)
    ensures
        binding_view(r) == binding_view(*b),
    decreases b, 1nat,
{
    LetBinding { name: b.name.clone(), ty: clone_type(&b.ty), value: clone_expr(&b.value), span: b.span }
}

fn clone_bindings(v: &Vec<LetBinding>) -> (r: Vec<LetBinding>)
    ensures
        bindings_view(r@) == bindings_view(v@),
    decreases v, 0nat,
{
    let mut out: Vec<LetBinding> = Vec::new();
    let mut i: usize = 0;
    assert(v@.take(0) =~= Seq::<LetBinding>::empty());
    while i < v.len()
        invariant
            i <= v@.len(),
            bindings_view(out@) == bindings_view(v@.take(i as int)),
        decreases v@.len() - i,
    {
        proof {
            assert(decreases_to!(v => v@));
            assert(decreases_to!(v@ => v@[i as int]));
        }
        let c = clone_binding(&v[i]);
        let ghost prev = out@;
        out.push(c);
        proof {
            assert(out@.drop_last() =~= prev);
            assert(v@.take(i + 1).drop_last() =~= v@.take(i as int));
        }
        i += 1;
    }
    assert(v@.take(i as int) =~= v@);
    out
}

fn clone_arm(a: &MatchArm) -> (r: MatchArm)
    ensures
        arm_view(r) == arm_view(*a),
    decreases a, 1nat,
{
    MatchArm { pattern: clone_pattern(&a.pattern), body: clone_expr(&a.body), span: a.span }
}

fn clone_arms(v: &Vec<MatchArm>) -> (r: Vec<MatchArm>)
    ensures
        arms_view(r@) == arms_view(v@),
    decreases v, 0nat,
{
    let mut out: Vec<MatchArm> = Vec::new();
    let mut i: usize = 0;
    assert(v@.take(0) =~= Seq::<MatchArm>::empty());
    while i < v.len()
        invariant
            i <= v@.len(),
            arms_view(out@) == arms_view(v@.take(i as int)),
        decreases v@.len() - i,
    {
        proof {
            assert(decreases_to!(v => v@));
            assert(decreases_to!(v@ => v@[i as int]));
        }
        let c = clone_arm(&v[i]);
        let ghost prev = out@;
        out.push(c);
        proof {
            assert(out@.drop_last() =~= prev);
            assert(v@.take(i + 1).drop_last() =~= v@.take(i as int));
        }
        i += 1;
    }
    assert(v@.take(i as int) =~= v@);
    out
}

fn clone_param(p: &Param) -> (r: Param)
    ensures
        param_view(r) == param_view(*p),
    decreases p, 1nat,
{
    let default = match &p.default {
        Some(d) => Some(clone_expr(d)),
        None => None,
    };
    Param { ownership: p.ownership, name: p.name.clone(), ty: clone_type(&p.ty), default, span: p.span }
}

pub(crate) fn clone_params(v: &Vec<Param>) -> (r: Vec<Param>)
    ensures
        params_view(r@) == params_view(v@),
    decreases v, 0nat,
{
    let mut out: Vec<Param> = Vec::new();
    let mut i: usize = 0;
    assert(v@.take(0) =~= Seq::<Param>::empty());
    while i < v.len()
        invariant
            i <= v@.len(),
            params_view(out@) == params_view(v@.take(i as int)),
        decreases v@.len() - i,
    {
        proof {
            assert(decreases_to!(v => v@));
            assert(decreases_to!(v@ => v@[i as int]));
        }
        let c = clone_param(&v[i]);
        let ghost prev = out@;
        out.push(c);
        proof {
            assert(out@.drop_last() =~= prev);
            assert(v@.take(i + 1).drop_last() =~= v@.take(i as int));
        }
        i += 1;
    }
    assert(v@.take(i as int) =~= v@);
    out
}

impl Clone for Expr {
    /// A copy with the same view.
    fn clone(&self) -> (r: Expr)
        ensures
            expr_view(r) == expr_view(*self),
    {
        clone_expr(self)
    }
}

impl Clone for Pattern {
    fn clone(&self) -> (r: Pattern)
        ensures
            pattern_view(r) == pattern_view(*self),
    {
        clone_pattern(self)
    }
}

impl Clone for Param {
    fn clone(&self) -> (r: Param)
        ensures
            param_view(r) == param_view(*self),
    {
        clone_param(self)
    }
}

} // verus!
