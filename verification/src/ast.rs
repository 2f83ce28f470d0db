//! The Nyra syntax tree.
use vstd::prelude::*;
use crate::span::Span;
use crate::text::str_eq;

verus! {

/// Width and signedness of a fixed-width integer type.
#[derive(Debug, PartialEq, Eq, Copy, Structural)]
pub enum IntKind {
    I8,
    I16,
    I32,
    I64,
    I128,
    Isize,
    U8,
    U16,
    U32,
    U64,
    U128,
    Usize,
}

impl Clone for IntKind {
    fn clone(&self) -> (r: Self)
        ensures
            r == *self,
    {
        *self
    }
}

/// The integer kind written as `name` (`i8` … `u128`, `isize`, `usize`).
pub open spec fn spec_int_kind_of_name(name: Seq<char>) -> Option<IntKind> {
    if name == "i8"@ {
        Some(IntKind::I8)
    } else if name == "i16"@ {
        Some(IntKind::I16)
    } else if name == "i32"@ {
        Some(IntKind::I32)
    } else if name == "i64"@ {
        Some(IntKind::I64)
    } else if name == "i128"@ {
        Some(IntKind::I128)
    } else if name == "isize"@ {
        Some(IntKind::Isize)
    } else if name == "u8"@ {
        Some(IntKind::U8)
    } else if name == "u16"@ {
        Some(IntKind::U16)
    } else if name == "u32"@ {
        Some(IntKind::U32)
    } else if name == "u64"@ {
        Some(IntKind::U64)
    } else if name == "u128"@ {
        Some(IntKind::U128)
    } else if name == "usize"@ {
        Some(IntKind::Usize)
    } else {
        None
    }
}

impl IntKind {
    /// The integer kind written as `name`, if it is one.
    pub fn parse_name(name: &str) -> (r: Option<IntKind>)
        ensures
            r == spec_int_kind_of_name(name@),
    {
        if str_eq(name, "i8") {
            Some(IntKind::I8)
        } else if str_eq(name, "i16") {
            Some(IntKind::I16)
        } else if str_eq(name, "i32") {
            Some(IntKind::I32)
        } else if str_eq(name, "i64") {
            Some(IntKind::I64)
        } else if str_eq(name, "i128") {
            Some(IntKind::I128)
        } else if str_eq(name, "isize") {
            Some(IntKind::Isize)
        } else if str_eq(name, "u8") {
            Some(IntKind::U8)
        } else if str_eq(name, "u16") {
            Some(IntKind::U16)
        } else if str_eq(name, "u32") {
            Some(IntKind::U32)
        } else if str_eq(name, "u64") {
            Some(IntKind::U64)
        } else if str_eq(name, "u128") {
            Some(IntKind::U128)
        } else if str_eq(name, "usize") {
            Some(IntKind::Usize)
        } else {
            None
        }
    }
}

/// Width of a floating-point literal.
#[derive(Debug, PartialEq, Eq, Copy, Structural)]
pub enum FloatKind {
    F32,
    F64,
}

impl Clone for FloatKind {
    fn clone(&self) -> (r: Self)
        ensures
            r == *self,
    {
        *self
    }
}

/// Struct attributes (`Send`, `Sync`, `repr(C)`, `Copy`).
#[derive(Debug, PartialEq, Eq)]
pub struct StructAttrs {
    pub send: bool,
    pub sync: bool,
    /// `repr(C)`: C-compatible field layout at FFI boundaries.
    pub repr_c: bool,
    /// Explicit `Copy`: all fields must be Copy.
    pub copy: bool,
}

impl Clone for StructAttrs {
    fn clone(&self) -> (r: Self)
        ensures
            r == *self,
    {
        StructAttrs { send: self.send, sync: self.sync, repr_c: self.repr_c, copy: self.copy }
    }
}

impl Default for StructAttrs {
    fn default() -> (r: Self)
        ensures
            r == (StructAttrs { send: false, sync: false, repr_c: false, copy: false }),
    {
        StructAttrs { send: false, sync: false, repr_c: false, copy: false }
    }
}

/// A type as written in source.
#[derive(Debug, PartialEq, Eq)]
pub enum TypeAnnotation {
    /// Fixed-width integer: `i8`…`i128`, `u8`…`u128`, `isize`, `usize`.
    Integer(IntKind),
    F32,
    F64,
    Char,
    Bool,
    String,
    /// Split result: `let parts: VecStr = s.split(",")`.
    VecStr,
    Ptr,
    /// Typed raw pointer `*T`.
    RawPtr { inner: Box<TypeAnnotation> },
    Void,
    Struct(String),
    /// `Vec<i32>`: generic type application.
    Applied { base: String, args: Vec<TypeAnnotation> },
    Enum(String),
    Array { elem: Box<TypeAnnotation>, len: Option<usize> },
    Tuple(Vec<TypeAnnotation>),
    Ref { inner: Box<TypeAnnotation>, mutable: bool, lifetime: Option<String> },
    Generic(String),
    Lifetime(String),
    /// `for<'a, 'b> T`: higher-ranked lifetime binder.
    ForAll { lifetimes: Vec<String>, inner: Box<TypeAnnotation> },
    /// Function pointer type.
    FnPtr {
        lifetime_params: Vec<String>,
        params: Vec<TypeAnnotation>,
        return_type: Option<Box<TypeAnnotation>>,
    },
    /// Trait object type: `dyn Trait` or `dyn Trait + Send + Sync`.
    DynTrait { trait_name: String, bounds: Vec<String> },
}

/// `import "path.ny" [as alias]`.
#[derive(Debug, PartialEq)]
pub struct ImportDecl {
    pub path: String,
    pub alias: Option<String>,
    pub span: Span,
}

/// Explicit monomorph export (`export inst id<i32>`).
#[derive(Debug, PartialEq)]
pub struct ExportInstance {
    pub fn_name: String,
    pub type_args: Vec<TypeAnnotation>,
}

/// A trait declaration.
#[derive(Debug, PartialEq)]
pub struct TraitDef {
    pub name: String,
    pub methods: Vec<TraitMethodSig>,
}

/// A method signature inside a trait.
#[derive(Debug, PartialEq)]
pub struct TraitMethodSig {
    pub name: String,
    pub params: Vec<Param>,
    pub return_type: Option<TypeAnnotation>,
}

/// `impl Trait for Type { ... }`.
#[derive(Debug, PartialEq)]
pub struct TraitImpl {
    pub self_type: String,
    pub trait_name: String,
    pub methods: Vec<Function>,
}

/// An expression macro.
#[derive(Debug, PartialEq)]
pub struct MacroDef {
    pub name: String,
    pub params: Vec<String>,
    pub body: Expression,
}

/// A top-level `const`.
#[derive(Debug, PartialEq)]
pub struct ConstDef {
    pub name: String,
    pub ty: Option<TypeAnnotation>,
    pub value: Expression,
    /// Visible to importers (`priv const` hides from other files).
    pub public: bool,
}

/// Inherent `impl Type { ... }`.
#[derive(Debug, PartialEq)]
pub struct ImplDef {
    pub self_type: String,
    pub methods: Vec<Function>,
}

/// `extern fn` declaration.
#[derive(Debug, PartialEq)]
pub struct ExternFn {
    pub name: String,
    pub params: Vec<Param>,
    pub return_type: Option<TypeAnnotation>,
}

/// A struct declaration.
#[derive(Debug, PartialEq)]
pub struct StructDef {
    pub name: String,
    pub type_params: Vec<String>,
    pub attrs: StructAttrs,
    pub fields: Vec<StructField>,
    pub doc: Option<String>,
    /// Visible to importers (`priv struct` hides from other files).
    pub public: bool,
}

/// One field of a struct declaration.
#[derive(Debug, PartialEq)]
pub struct StructField {
    pub name: String,
    pub ty: TypeAnnotation,
}

/// One variant of an enum declaration.
#[derive(Debug, PartialEq)]
pub struct EnumVariantDef {
    pub name: String,
    pub fields: Vec<TypeAnnotation>,
}

/// An enum declaration.
#[derive(Debug, PartialEq)]
pub struct EnumDef {
    pub name: String,
    pub type_params: Vec<String>,
    pub variants: Vec<EnumVariantDef>,
    /// Visible to importers (`priv enum` hides from other files).
    pub public: bool,
}

/// A function or method definition.
#[derive(Debug, PartialEq)]
pub struct Function {
    pub name: String,
    pub is_test: bool,
    pub ignore_test: bool,
    pub should_fail_test: bool,
    pub is_async: bool,
    pub exported: bool,
    /// Visible to importers (`priv fn` hides from other files).
    pub public: bool,
    pub span: Span,
    pub type_params: Vec<String>,
    /// Trait bounds per type parameter (`T: Greet` gives `("T", ["Greet"])`).
    pub type_param_bounds: Vec<(String, Vec<String>)>,
    pub lifetime_params: Vec<String>,
    pub params: Vec<Param>,
    pub return_type: Option<TypeAnnotation>,
    pub body: Block,
    /// `#[inline]`.
    pub inline: bool,
    /// `#[hot]`.
    pub hot: bool,
    /// `#[cold]`.
    pub cold: bool,
    /// `#[comptime]`.
    pub comptime: bool,
    /// Leading doc comment lines joined with newlines.
    pub doc: Option<String>,
}

/// A function or arrow-function parameter.
#[derive(Debug, PartialEq)]
pub struct Param {
    pub name: String,
    pub ty: TypeAnnotation,
    /// Tuple-destructure names for `((a, b)) =>` arrow params.
    pub destructure: Vec<String>,
    /// `#[no_escape]`: the borrow must not escape.
    pub no_escape: bool,
    /// `mut x`: the parameter may be reassigned.
    pub mutable: bool,
}

/// A whole compilation unit.
#[derive(Debug, PartialEq)]
pub struct Program {
    pub module: Option<String>,
    pub no_std: bool,
    pub comptime: bool,
    pub allow_extended: bool,
    pub imports: Vec<ImportDecl>,
    pub consts: Vec<ConstDef>,
    pub structs: Vec<StructDef>,
    pub enums: Vec<EnumDef>,
    pub traits: Vec<TraitDef>,
    pub trait_impls: Vec<TraitImpl>,
    pub macros: Vec<MacroDef>,
    pub impls: Vec<ImplDef>,
    pub externs: Vec<ExternFn>,
    pub functions: Vec<Function>,
    pub export_instances: Vec<ExportInstance>,
}

/// A brace-delimited statement list.
#[derive(Debug, PartialEq)]
pub struct Block {
    pub statements: Vec<Statement>,
}

/// `print(args...)` with an optional color.
#[derive(Debug, PartialEq)]
pub struct PrintStmt {
    pub args: Vec<Expression>,
    pub color: Option<Expression>,
}

/// A statement.
#[derive(Debug, PartialEq)]
pub enum Statement {
    Let(LetStmt),
    Const(LetStmt),
    Assign(AssignStmt),
    Return(ReturnStmt),
    If(IfStmt),
    While(WhileStmt),
    For(ForStmt),
    Break { span: Span },
    Continue { span: Span },
    Expression(Expression),
    Print(PrintStmt),
    Defer(Expression),
    Spawn(Block),
    Benchmark(Block),
    Unsafe(Block),
    /// `asm "template"`.
    Asm { template: String, span: Span },
    Import(String),
}

/// Range or iterable form of a `for` loop.
#[derive(Debug, PartialEq)]
pub enum ForKind {
    /// `for i in start..end`
    Range { start: Expression, end: Expression },
    /// `for x in arr` / `for c in str`
    Iterable { iterable: Expression },
}

/// Scheduling mode of a `parallel for`.
#[derive(Debug, PartialEq, Eq, Copy, Structural)]
pub enum ParallelMode {
    Auto,
    Balanced,
    MaxPerformance,
    Background,
}

impl Clone for ParallelMode {
    fn clone(&self) -> (r: Self)
        ensures
            r == *self,
    {
        *self
    }
}

impl Default for ParallelMode {
    fn default() -> (r: Self)
        ensures
            r == ParallelMode::Auto,
    {
        ParallelMode::Auto
    }
}

/// Worker-count request of a `parallel for`.
#[derive(Debug, PartialEq)]
pub enum ParallelThreads {
    /// Runtime picks the worker count.
    Auto,
    /// `max_threads = N`.
    Max(Expression),
    /// `threads = N`.
    Exact(Expression),
    /// `cpu = 80%`.
    CpuPercent(Expression),
}

/// `parallel(...)` configuration.
#[derive(Debug, PartialEq)]
pub struct ParallelConfig {
    pub mode: ParallelMode,
    pub threads: ParallelThreads,
}

/// `progress(...)` configuration.
#[derive(Debug, PartialEq)]
pub struct ProgressConfig {
    /// Optional status label.
    pub label: Option<Expression>,
}

/// A `for` loop.
#[derive(Debug, PartialEq)]
pub struct ForStmt {
    pub var: String,
    pub kind: ForKind,
    pub body: Block,
    pub parallel: Option<ParallelConfig>,
    pub progress: Option<ProgressConfig>,
}

/// Assignment to a place (variable, `*ptr`, field or index).
#[derive(Debug, PartialEq)]
pub struct AssignStmt {
    pub target: Expression,
    pub span: Span,
    pub value: Expression,
}

/// `let` / `mut` / `const` binding.
#[derive(Debug, PartialEq)]
pub struct LetStmt {
    pub mutable: bool,
    pub name: String,
    pub destructure: Vec<String>,
    pub span: Span,
    pub ty: Option<TypeAnnotation>,
    pub value: Expression,
}

/// `return [value]`.
#[derive(Debug, PartialEq)]
pub struct ReturnStmt {
    pub value: Option<Expression>,
}

/// `if` statement.
#[derive(Debug, PartialEq)]
pub struct IfStmt {
    pub condition: Expression,
    pub then_block: Block,
    pub else_block: Option<Block>,
}

/// `while` loop.
#[derive(Debug, PartialEq)]
pub struct WhileStmt {
    pub condition: Expression,
    pub body: Block,
}

/// An expression.
#[derive(Debug, PartialEq)]
pub enum Expression {
    Literal(Literal),
    Variable { name: String, span: Span },
    Binary(Box<BinaryExpr>),
    Unary(Box<UnaryExpr>),
    Call(CallExpr),
    MethodCall(Box<MethodCallExpr>),
    FieldAccess(Box<FieldAccessExpr>),
    StructLiteral(StructLiteralExpr),
    EnumVariant(EnumVariantExpr),
    Match(Box<MatchExpr>),
    If(Box<IfExpr>),
    Index(Box<IndexExpr>),
    ArrayLiteral(ArrayLiteralExpr),
    /// `[expr; N]`.
    ArrayRepeat {
        element: Box<Expression>,
        count: usize,
        count_from: Option<String>,
        count_expr: Option<Box<Expression>>,
        span: Span,
    },
    TupleLiteral(Vec<Expression>),
    Grouped(Box<Expression>),
    Await(Box<Expression>),
    TemplateLiteral(TemplateLiteralExpr),
    /// `expr as Type`.
    Cast(Box<CastExpr>),
    /// `(x: T) => expr` / `(x: T) => { ... }`.
    ArrowFn(Box<ArrowFnExpr>),
    /// `comptime { ... }`.
    ComptimeBlock { body: Block, span: Span },
    Invalid,
}

/// Arrow function.
#[derive(Debug, PartialEq)]
pub struct ArrowFnExpr {
    pub params: Vec<Param>,
    pub body: ArrowBody,
    pub span: Span,
}

/// Body of an arrow function.
#[derive(Debug, PartialEq)]
pub enum ArrowBody {
    Expr(Expression),
    Block(Block),
}

/// `expr as Type`.
#[derive(Debug, PartialEq)]
pub struct CastExpr {
    pub expr: Expression,
    pub target_type: TypeAnnotation,
    pub span: Span,
}

/// Template literal with interpolations.
#[derive(Debug, PartialEq)]
pub struct TemplateLiteralExpr {
    pub parts: Vec<TemplatePart>,
    pub span: Span,
}

/// One piece of a template literal.
#[derive(Debug, PartialEq)]
pub enum TemplatePart {
    Static(String),
    Interpolation(Box<Expression>),
}

/// `object.method(args)`.
#[derive(Debug, PartialEq)]
pub struct MethodCallExpr {
    pub object: Expression,
    pub method: String,
    pub span: Span,
    pub args: Vec<Expression>,
    /// `?.method()` optional chaining.
    pub optional: bool,
}

/// `Enum.Variant(args)`.
#[derive(Debug, PartialEq)]
pub struct EnumVariantExpr {
    pub enum_name: Option<String>,
    pub variant: String,
    pub args: Vec<Expression>,
    pub span: Span,
}

/// `object[index]`.
#[derive(Debug, PartialEq)]
pub struct IndexExpr {
    pub object: Expression,
    pub index: Expression,
    pub span: Span,
}

/// `if` expression.
#[derive(Debug, PartialEq)]
pub struct IfExpr {
    pub condition: Expression,
    pub then_block: Block,
    pub else_block: Block,
    pub span: Span,
}

/// `match` expression.
#[derive(Debug, PartialEq)]
pub struct MatchExpr {
    pub scrutinee: Box<Expression>,
    pub arms: Vec<MatchArm>,
    pub span: Span,
}

/// One `match` arm.
#[derive(Debug, PartialEq)]
pub struct MatchArm {
    pub pattern: MatchPattern,
    pub guard: Option<Expression>,
    pub body: Block,
}

/// A `match` arm pattern.
#[derive(Debug, PartialEq, Eq)]
pub enum MatchPattern {
    Wildcard,
    /// String literal arm.
    Literal(String),
    Variant(String),
    Qualified(String, String),
    /// `Type.Variant(payload)`.
    QualifiedBind(String, String, MatchPayloadPattern),
    /// `A | B | C`.
    Or(Vec<MatchPattern>),
    /// `Point { x, y }` / `Point { x: a }`.
    Struct(String, Vec<StructMatchField>),
    /// `(a, b, _)` on a tuple scrutinee.
    Tuple(Vec<MatchPayloadPattern>),
}

/// Field pattern inside `MatchPattern::Struct`.
#[derive(Debug, PartialEq, Eq)]
pub struct StructMatchField {
    pub field: String,
    /// `None` binds the field name; `Some("_")` ignores; `Some(name)` renames.
    pub bind: Option<String>,
}

/// Payload sub-pattern inside `QualifiedBind`.
#[derive(Debug, PartialEq, Eq)]
pub enum MatchPayloadPattern {
    Bind(String),
    Wildcard,
    Nested(Box<MatchPattern>),
}

/// `object.field` / `object?.field`.
#[derive(Debug, PartialEq)]
pub struct FieldAccessExpr {
    pub object: Expression,
    pub field: String,
    pub optional: bool,
    pub span: Span,
}

/// `[spreads..., elems...]`.
#[derive(Debug, PartialEq)]
pub struct ArrayLiteralExpr {
    /// `...expr`: copy elements from an array value.
    pub spreads: Vec<Expression>,
    pub elems: Vec<Expression>,
    pub span: Span,
}

/// `Name { ..spread, field: value }`.
#[derive(Debug, PartialEq)]
pub struct StructLiteralExpr {
    pub name: String,
    pub spreads: Vec<Expression>,
    pub fields: Vec<(String, Expression)>,
    pub span: Span,
}

/// `left op right`.
#[derive(Debug, PartialEq)]
pub struct BinaryExpr {
    pub left: Expression,
    pub op: BinaryOp,
    pub right: Expression,
    pub span: Span,
}

/// `op operand`.
#[derive(Debug, PartialEq)]
pub struct UnaryExpr {
    pub op: UnaryOp,
    pub operand: Expression,
    pub span: Span,
}

/// `callee<type_args>(args)`.
#[derive(Debug, PartialEq)]
pub struct CallExpr {
    pub callee: String,
    pub type_args: Vec<TypeAnnotation>,
    pub args: Vec<Expression>,
    pub span: Span,
}

/// A literal value.
#[derive(Debug, PartialEq)]
pub enum Literal {
    Int(i64),
    /// Integer with explicit suffix (`255u8`).
    IntKind(i64, IntKind),
    /// IEEE-754 literal, held as its 64-bit pattern, with its written width.
    Float(u64, FloatKind),
    /// Unicode scalar value.
    Char(u32),
    Bool(bool),
    String(String),
}

/// Binary operators.
#[derive(Debug, PartialEq, Eq, Copy, Hash, Structural)]
pub enum BinaryOp {
    Add,
    Sub,
    Mul,
    Div,
    Mod,
    Eq,
    Ne,
    Lt,
    Gt,
    Le,
    Ge,
    And,
    Or,
    /// `<<`
    Shl,
    /// `>>`
    Shr,
    /// `&`
    BitAnd,
    /// `|`
    BitOr,
    /// `^`
    BitXor,
    /// `??`
    NullishCoalesce,
}

impl Clone for BinaryOp {
    fn clone(&self) -> (r: Self)
        ensures
            r == *self,
    {
        *self
    }
}

/// Unary operators.
#[derive(Debug, PartialEq, Eq, Copy, Structural)]
pub enum UnaryOp {
    Neg,
    Not,
    Ref,
    RefMut,
    Deref,
    /// Explicit ownership transfer (`move user`).
    Move,
    /// Explicit clone before use (`clone user`).
    Clone,
    /// `expr?`.
    Try,
}

impl Clone for UnaryOp {
    fn clone(&self) -> (r: Self)
        ensures
            r == *self,
    {
        *self
    }
}

} // verus!

verus! {

/// Binding named by an expression, looking through `move x` / `clone x`.
pub open spec fn spec_binding_name(expr: &Expression) -> Option<Seq<char>>
    decreases expr,
{
    match expr {
        Expression::Variable { name, .. } => Some(name@),
        Expression::Unary(u) => {
            if u.op == UnaryOp::Move || u.op == UnaryOp::Clone {
                spec_binding_name(&u.operand)
            } else {
                None
            }
        },
        _ => None,
    }
}

/// Binding named by an expression, including `move x` / `clone x` wrappers.
pub fn binding_name(expr: &Expression) -> (r: Option<&str>)
    ensures
        match r {
            Some(n) => spec_binding_name(expr) == Some(n@),
            None => spec_binding_name(expr) is None,
        },
    decreases expr,
{
    match expr {
        Expression::Variable { name, .. } => Some(name.as_str()),
        Expression::Unary(u) => {
            if u.op == UnaryOp::Move || u.op == UnaryOp::Clone {
                binding_name(&u.operand)
            } else {
                None
            }
        },
        _ => None,
    }
}

/// Same as [`binding_name`].
pub fn variable_name(expr: &Expression) -> (r: Option<&str>)
    ensures
        match r {
            Some(n) => spec_binding_name(expr) == Some(n@),
            None => spec_binding_name(expr) is None,
        },
{
    binding_name(expr)
}

/// Is `expr` an explicit `move x` transfer?
pub fn is_explicit_move(expr: &Expression) -> (r: bool)
    ensures
        r == (expr matches Expression::Unary(u) && u.op == UnaryOp::Move),
{
    match expr {
        Expression::Unary(u) => u.op == UnaryOp::Move,
        _ => false,
    }
}

/// Source span recorded on an expression; `None` when the expression carries
/// no span (its span is then the default one).
pub open spec fn spec_expr_span(expr: &Expression) -> Option<Span>
    decreases expr,
{
    match expr {
        Expression::Variable { span, .. } => Some(*span),
        Expression::Binary(b) => Some(b.span),
        Expression::Unary(u) => Some(u.span),
        Expression::Call(c) => Some(c.span),
        Expression::FieldAccess(f) => Some(f.span),
        Expression::StructLiteral(s) => Some(s.span),
        Expression::MethodCall(m) => Some(m.span),
        Expression::Match(m) => Some(m.span),
        Expression::If(i) => Some(i.span),
        Expression::Index(ix) => Some(ix.span),
        Expression::EnumVariant(e) => Some(e.span),
        Expression::Grouped(inner) => spec_expr_span(inner),
        Expression::Await(inner) => spec_expr_span(inner),
        Expression::TemplateLiteral(t) => Some(t.span),
        Expression::Cast(c) => Some(c.span),
        Expression::ArrowFn(a) => Some(a.span),
        Expression::ComptimeBlock { span, .. } => Some(*span),
        Expression::ArrayLiteral(al) => {
            if al.spreads@.len() > 0 {
                spec_expr_span(&al.spreads@[0])
            } else if al.elems@.len() > 0 {
                spec_expr_span(&al.elems@[0])
            } else {
                Some(al.span)
            }
        },
        Expression::ArrayRepeat { span, .. } => Some(*span),
        Expression::TupleLiteral(elems) => {
            if elems@.len() > 0 {
                spec_expr_span(&elems@[0])
            } else {
                None
            }
        },
        Expression::Literal(_) => None,
        Expression::Invalid => None,
    }
}

/// `r` is the span that `spec` describes (`None`: the default span).
pub open spec fn span_matches(r: Span, spec: Option<Span>) -> bool {
    match spec {
        Some(s) => r == s,
        None => r.is_default(),
    }
}

/// Source span of an expression (the default span when it carries none).
pub fn expr_span(expr: &Expression) -> (r: Span)
    ensures
        span_matches(r, spec_expr_span(expr)),
    decreases expr,
{
    match expr {
        Expression::Variable { span, .. } => span.clone(),
        Expression::Binary(b) => b.span.clone(),
        Expression::Unary(u) => u.span.clone(),
        Expression::Call(c) => c.span.clone(),
        Expression::FieldAccess(f) => f.span.clone(),
        Expression::StructLiteral(s) => s.span.clone(),
        Expression::MethodCall(m) => m.span.clone(),
        Expression::Match(m) => m.span.clone(),
        Expression::If(i) => i.span.clone(),
        Expression::Index(ix) => ix.span.clone(),
        Expression::EnumVariant(e) => e.span.clone(),
        Expression::Grouped(inner) => expr_span(inner),
        Expression::Await(inner) => expr_span(inner),
        Expression::TemplateLiteral(t) => t.span.clone(),
        Expression::Cast(c) => c.span.clone(),
        Expression::ArrowFn(a) => a.span.clone(),
        Expression::ComptimeBlock { span, .. } => span.clone(),
        Expression::ArrayLiteral(al) => {
            if al.spreads.len() > 0 {
                expr_span(&al.spreads[0])
            } else if al.elems.len() > 0 {
                expr_span(&al.elems[0])
            } else {
                al.span.clone()
            }
        },
        Expression::ArrayRepeat { span, .. } => span.clone(),
        Expression::TupleLiteral(elems) => {
            if elems.len() > 0 {
                expr_span(&elems[0])
            } else {
                Span::none()
            }
        },
        Expression::Literal(_) => Span::none(),
        Expression::Invalid => Span::none(),
    }
}

/// Source span recorded on a statement; `None` means the default span.
pub open spec fn spec_stmt_span(stmt: &Statement) -> Option<Span>
    decreases stmt,
{
    match stmt {
        Statement::Let(l) => Some(l.span),
        Statement::Const(l) => Some(l.span),
        Statement::Assign(a) => Some(a.span),
        Statement::Return(r) => match &r.value {
            Some(v) => spec_expr_span(v),
            None => None,
        },
        Statement::If(i) => spec_expr_span(&i.condition),
        Statement::While(w) => spec_expr_span(&w.condition),
        Statement::Break { span } => Some(*span),
        Statement::Continue { span } => Some(*span),
        Statement::For(f) => match &f.kind {
            ForKind::Range { start, .. } => spec_expr_span(start),
            ForKind::Iterable { iterable } => spec_expr_span(iterable),
        },
        Statement::Print(p) => {
            if p.args@.len() > 0 {
                spec_expr_span(&p.args@[0])
            } else {
                match &p.color {
                    Some(c) => spec_expr_span(c),
                    None => None,
                }
            }
        },
        Statement::Expression(e) => spec_expr_span(e),
        Statement::Defer(e) => spec_expr_span(e),
        Statement::Spawn(b) => first_stmt_span(b),
        Statement::Unsafe(b) => first_stmt_span(b),
        Statement::Benchmark(b) => first_stmt_span(b),
        Statement::Asm { span, .. } => Some(*span),
        Statement::Import(_) => None,
    }
}

/// Span of the first statement of a block (`None` for an empty block).
pub open spec fn first_stmt_span(b: &Block) -> Option<Span>
    decreases b,
{
    if b.statements@.len() > 0 {
        spec_stmt_span(&b.statements@[0])
    } else {
        None
    }
}

/// Source span of a statement (the default span when it carries none).
pub fn stmt_span(stmt: &Statement) -> (r: Span)
    ensures
        span_matches(r, spec_stmt_span(stmt)),
    decreases stmt,
{
    match stmt {
        Statement::Let(l) => l.span.clone(),
        Statement::Const(l) => l.span.clone(),
        Statement::Assign(a) => a.span.clone(),
        Statement::Return(r) => match &r.value {
            Some(v) => expr_span(v),
            None => Span::none(),
        },
        Statement::If(i) => expr_span(&i.condition),
        Statement::While(w) => expr_span(&w.condition),
        Statement::Break { span } => span.clone(),
        Statement::Continue { span } => span.clone(),
        Statement::For(f) => match &f.kind {
            ForKind::Range { start, .. } => expr_span(start),
            ForKind::Iterable { iterable } => expr_span(iterable),
        },
        Statement::Print(p) => {
            if p.args.len() > 0 {
                expr_span(&p.args[0])
            } else {
                match &p.color {
                    Some(c) => expr_span(c),
                    None => Span::none(),
                }
            }
        },
        Statement::Expression(e) => expr_span(e),
        Statement::Defer(e) => expr_span(e),
        Statement::Spawn(b) => block_first_span(b),
        Statement::Unsafe(b) => block_first_span(b),
        Statement::Benchmark(b) => block_first_span(b),
        Statement::Asm { span, .. } => span.clone(),
        Statement::Import(_) => Span::none(),
    }
}

fn block_first_span(b: &Block) -> (r: Span)
    ensures
        span_matches(r, first_stmt_span(b)),
    decreases b,
{
    if b.statements.len() > 0 {
        stmt_span(&b.statements[0])
    } else {
        Span::none()
    }
}

/// Wrap a single expression as a one-statement block.
pub fn block_from_expr(expr: Expression) -> (r: Block)
    ensures
        r.statements@ == seq![Statement::Expression(expr)],
{
    let mut statements: Vec<Statement> = Vec::new();
    statements.push(Statement::Expression(expr));
    Block { statements }
}

impl ArrayLiteralExpr {
    /// An array literal with the given elements and no spreads; its span is
    /// that of the first element.
    pub fn from_elems(elems: Vec<Expression>) -> (r: Self)
        ensures
            r.spreads@.len() == 0,
            r.elems@ == elems@,
            span_matches(
                r.span,
                if elems@.len() > 0 { spec_expr_span(&elems@[0]) } else { None },
            ),
    {
        let span = if elems.len() > 0 { expr_span(&elems[0]) } else { Span::none() };
        ArrayLiteralExpr { spreads: Vec::new(), elems, span }
    }

    /// No spreads and no elements.
    pub fn is_empty(&self) -> (r: bool)
        ensures
            r == (self.spreads@.len() == 0 && self.elems@.len() == 0),
    {
        self.spreads.len() == 0 && self.elems.len() == 0
    }

    /// The spreads, then the elements.
    pub fn all_exprs(&self) -> (r: Vec<&Expression>)
        ensures
            r@.len() == self.spreads@.len() + self.elems@.len(),
            forall|i: int| 0 <= i < r@.len() ==> *(#[trigger] r@[i]) == (self.spreads@ + self.elems@)[i],
    {
        let mut r: Vec<&Expression> = Vec::new();
        let mut i: usize = 0;
        while i < self.spreads.len()
            invariant
                i <= self.spreads@.len(),
                r@.len() == i,
                forall|k: int| 0 <= k < i ==> *(#[trigger] r@[k]) == self.spreads@[k],
            decreases self.spreads@.len() - i,
        {
            r.push(&self.spreads[i]);
            i = i + 1;
        }
        let mut j: usize = 0;
        while j < self.elems.len()
            invariant
                j <= self.elems@.len(),
                r@.len() == self.spreads@.len() + j,
                forall|k: int| 0 <= k < r@.len() ==> *(#[trigger] r@[k]) == (self.spreads@ + self.elems@)[k],
            decreases self.elems@.len() - j,
        {
            r.push(&self.elems[j]);
            j = j + 1;
        }
        r
    }
}

/// The value a block yields: looking from its end, the first expression
/// statement, or the value of the first `return` (none for a bare `return`).
pub open spec fn spec_trailing(s: Seq<Statement>) -> Option<Expression>
    decreases s.len(),
{
    if s.len() == 0 {
        None
    } else {
        match s.last() {
            Statement::Expression(e) => Some(e),
            Statement::Return(r) => r.value,
            _ => spec_trailing(s.drop_last()),
        }
    }
}

pub fn block_trailing_expression(block: &Block) -> (r: Option<&Expression>)
    ensures
        match r {
            Some(e) => spec_trailing(block.statements@) == Some(*e),
            None => spec_trailing(block.statements@) is None,
        },
{
    let v = &block.statements;
    let mut i: usize = v.len();
    assert(v@.take(i as int) =~= v@);
    while i > 0
        invariant
            v == &block.statements,
            i <= v@.len(),
            spec_trailing(v@) == spec_trailing(v@.take(i as int)),
        decreases i,
    {
        proof {
            assert(v@.take(i as int).drop_last() =~= v@.take(i - 1));
        }
        match &v[i - 1] {
            Statement::Expression(e) => {
                return Some(e);
            },
            Statement::Return(ret) => {
                return match &ret.value {
                    Some(x) => Some(x),
                    None => None,
                };
            },
            _ => {},
        }
        i = i - 1;
    }
    None
}

impl ParallelThreads {
    /// The thread-count expression, when there is one (what `for_each_expr` visits).
    pub fn for_each_expr(&self) -> (r: Option<&Expression>)
        ensures
            match self {
                ParallelThreads::Auto => r is None,
                ParallelThreads::Max(e) => r == Some(e),
                ParallelThreads::Exact(e) => r == Some(e),
                ParallelThreads::CpuPercent(e) => r == Some(e),
            },
    {
        match self {
            ParallelThreads::Auto => None,
            ParallelThreads::Max(e) => Some(e),
            ParallelThreads::Exact(e) => Some(e),
            ParallelThreads::CpuPercent(e) => Some(e),
        }
    }
}

impl ParallelConfig {
    /// The expressions of the configuration (its thread count, if any).
    pub fn for_each_expr(&self) -> (r: Option<&Expression>)
        ensures
            match &self.threads {
                ParallelThreads::Auto => r is None,
                ParallelThreads::Max(e) => r == Some(e),
                ParallelThreads::Exact(e) => r == Some(e),
                ParallelThreads::CpuPercent(e) => r == Some(e),
            },
    {
        self.threads.for_each_expr()
    }
}

impl ProgressConfig {
    /// The label expression, if any.
    pub fn for_each_expr(&self) -> (r: Option<&Expression>)
        ensures
            match &self.label {
                Some(l) => r == Some(l),
                None => r is None,
            },
    {
        match &self.label {
            Some(l) => Some(l),
            None => None,
        }
    }
}

/// The expressions of a `for` header, in visiting order: the range bounds or
/// the iterable, the `parallel(...)` thread count, the `progress(...)` label.
pub open spec fn for_header_exprs(f: &ForStmt) -> Seq<Expression> {
    (match &f.kind {
        ForKind::Range { start, end } => seq![*start, *end],
        ForKind::Iterable { iterable } => seq![*iterable],
    }) + (match &f.parallel {
        Some(cfg) => match &cfg.threads {
            ParallelThreads::Auto => seq![],
            ParallelThreads::Max(e) => seq![*e],
            ParallelThreads::Exact(e) => seq![*e],
            ParallelThreads::CpuPercent(e) => seq![*e],
        },
        None => seq![],
    }) + match &f.progress {
        Some(p) => match &p.label {
            Some(l) => seq![*l],
            None => seq![],
        },
        None => seq![],
    }
}

impl ForStmt {
    /// The header expressions (see [`for_header_exprs`]).
    pub fn for_each_expr(&self) -> (r: Vec<&Expression>)
        ensures
            r@.len() == for_header_exprs(self).len(),
            forall|i: int| 0 <= i < r@.len() ==> *(#[trigger] r@[i]) == for_header_exprs(self)[i],
    {
        let mut r: Vec<&Expression> = Vec::new();
        match &self.kind {
            ForKind::Range { start, end } => {
                r.push(start);
                r.push(end);
            },
            ForKind::Iterable { iterable } => {
                r.push(iterable);
            },
        }
        if let Some(cfg) = &self.parallel {
            if let Some(e) = cfg.for_each_expr() {
                r.push(e);
            }
        }
        if let Some(p) = &self.progress {
            if let Some(l) = p.for_each_expr() {
                r.push(l);
            }
        }
        r
    }
}

impl PrintStmt {
    /// Applies `f` to every argument and to the color.
    pub fn map_expressions<F: Fn(Expression) -> Expression>(self, f: F) -> (r: Self)
        requires
            forall|e: Expression| #[trigger] call_requires(f, (e,)),
        ensures
            r.args@.len() == self.args@.len(),
            forall|i: int| 0 <= i < r.args@.len() ==> call_ensures(f, (self.args@[i],), #[trigger] r.args@[i]),
            match self.color {
                Some(c) => r.color matches Some(rc) && call_ensures(f, (c,), rc),
                None => r.color is None,
            },
    {
        let ghost old_args = self.args@;
        let mut args = self.args;
        let mut out: Vec<Expression> = Vec::new();
        let mut rev: Vec<Expression> = Vec::new();
        while args.len() > 0
            invariant
                forall|e: Expression| #[trigger] call_requires(f, (e,)),
                rev@.len() + args@.len() == old_args.len(),
                args@ == old_args.take(args@.len() as int),
                forall|k: int| 0 <= k < rev@.len() ==> call_ensures(f, (old_args[old_args.len() - 1 - k],), #[trigger] rev@[k]),
            decreases args@.len(),
        {
            let e = args.pop().unwrap();
            let m = f(e);
            rev.push(m);
            proof {
                assert(args@ =~= old_args.take(args@.len() as int));
            }
        }
        while rev.len() > 0
            invariant
                rev@.len() + out@.len() == old_args.len(),
                forall|k: int| 0 <= k < rev@.len() ==> call_ensures(f, (old_args[old_args.len() - 1 - k],), #[trigger] rev@[k]),
                forall|k: int| 0 <= k < out@.len() ==> call_ensures(f, (old_args[k],), #[trigger] out@[k]),
            decreases rev@.len(),
        {
            let m = rev.pop().unwrap();
            out.push(m);
        }
        let color = match self.color {
            Some(c) => Some(f(c)),
            None => None,
        };
        PrintStmt { args: out, color }
    }
}

} // verus!
