//! The part of the Vex syntax tree that the code generator's analyses read:
//! types, expressions, statements, blocks and patterns.
use vstd::prelude::*;

verus! {

/// A Vex type.
#[derive(Debug)]
#[allow(inconsistent_fields)]
pub enum Type {
    Unknown,
    I8,
    I16,
    I32,
    I64,
    I128,
    U8,
    U16,
    U32,
    U64,
    U128,
    F16,
    F32,
    F64,
    Bool,
    String,
    Byte,
    /// A struct, enum, alias or type parameter, by name.
    Named(String),
    /// A named type applied to type arguments: `Map<K, V>`.
    Generic { name: String, type_args: Vec<Type> },
    /// `&T` (false) or `&T!` (true).
    Reference(Box<Type>, bool),
    /// `[T; n]`.
    Array(Box<Type>, usize),
    /// `[T; N]` with a const parameter `N`.
    ConstArray { elem_type: Box<Type>, size_param: String },
    /// `&[T]` (false) or `&[T]!` (true).
    Slice(Box<Type>, bool),
    Tuple(Vec<Type>),
    Function { params: Vec<Type>, return_type: Box<Type> },
    Union(Vec<Type>),
    Intersection(Vec<Type>),
    RawPtr { inner: Box<Type>, is_const: bool },
    Option(Box<Type>),
    Result(Box<Type>, Box<Type>),
    Vec(Box<Type>),
    Box(Box<Type>),
    Channel(Box<Type>),
    Future(Box<Type>),
    Unit,
    Never,
    Any,
    SelfType,
    Error,
    Nil,
    /// `Self::Item`.
    AssociatedType { self_type: Box<Type>, name: String },
    /// `T extends U ? X : Y`.
    Conditional { check_type: Box<Type>, extends_type: Box<Type>, true_type: Box<Type>, false_type: Box<Type> },
    /// `infer T`.
    Infer(String),
    /// `typeof(expr)`, with the expression kept as its source text.
    Typeof(String),
}

/// A function or closure parameter.
#[derive(Debug)]
pub struct Param {
    pub name: String,
    pub ty: Type,
}

/// Binary operators.
#[derive(Debug)]
pub enum BinaryOp {
    Add,
    Sub,
    Mul,
    Div,
    Mod,
    Pow,
    Eq,
    NotEq,
    Lt,
    LtEq,
    Gt,
    GtEq,
    And,
    Or,
    BitAnd,
    BitOr,
    BitXor,
    Shl,
    Shr,
}

/// Prefix operators.
#[derive(Debug)]
pub enum UnaryOp {
    Neg,
    Not,
    BitNot,
    PreInc,
    PreDec,
}

/// Postfix operators.
#[derive(Debug)]
pub enum PostfixOp {
    PostInc,
    PostDec,
}

/// How a closure holds what it captures.
#[derive(Debug, Clone, Copy, PartialEq, Eq, Structural)]
pub enum CaptureMode {
    Immutable,
    Mutable,
    Once,
    Infer,
}

/// A pattern of a `match` arm or a `let`.
#[derive(Debug)]
pub enum Pattern {
    Wildcard,
    Literal(Expression),
    Ident(String),
    Tuple(Vec<Pattern>),
    Struct { name: String, fields: Vec<(String, Pattern)> },
    Enum { name: String, variant: String, data: Vec<Pattern> },
    Or(Vec<Pattern>),
    Array { elements: Vec<Pattern>, rest: Option<String> },
}

/// One arm of a `match` expression.
#[derive(Debug)]
pub struct MatchArm {
    pub pattern: Pattern,
    pub guard: Option<Expression>,
    pub body: Expression,
}

/// A Vex expression. Number literals keep their source text.
#[allow(inconsistent_fields)]
#[derive(Debug)]
pub enum Expression {
    IntLiteral(i64),
    TypedIntLiteral { value: i64, type_suffix: String },
    BigIntLiteral(String),
    TypedBigIntLiteral { value: String, type_suffix: String },
    FloatLiteral(String),
    StringLiteral(String),
    FStringLiteral(String),
    BoolLiteral(bool),
    Nil,
    Ident(String),
    Await(Box<Expression>),
    Binary { span_id: Option<usize>, left: Box<Expression>, op: BinaryOp, right: Box<Expression> },
    Unary { span_id: Option<usize>, op: UnaryOp, expr: Box<Expression> },
    Deref(Box<Expression>),
    Reference { is_mutable: bool, expr: Box<Expression> },
    Call { span_id: Option<usize>, func: Box<Expression>, type_args: Vec<Type>, args: Vec<Expression> },
    MethodCall {
        receiver: Box<Expression>,
        method: String,
        type_args: Vec<Type>,
        args: Vec<Expression>,
        is_mutable_call: bool,
    },
    FieldAccess { object: Box<Expression>, field: String },
    Index { object: Box<Expression>, index: Box<Expression> },
    Array(Vec<Expression>),
    ArrayRepeat(Box<Expression>, Box<Expression>),
    MapLiteral(Vec<(Expression, Expression)>),
    TupleLiteral(Vec<Expression>),
    StructLiteral { name: String, type_args: Vec<Type>, fields: Vec<(String, Expression)> },
    EnumLiteral { enum_name: String, variant: String, data: Vec<Expression> },
    Range { start: Option<Box<Expression>>, end: Option<Box<Expression>> },
    RangeInclusive { start: Option<Box<Expression>>, end: Option<Box<Expression>> },
    Match { value: Box<Expression>, arms: Vec<MatchArm> },
    Block { statements: Vec<Statement>, return_expr: Option<Box<Expression>> },
    AsyncBlock { statements: Vec<Statement>, return_expr: Option<Box<Expression>> },
    Cast { expr: Box<Expression>, target_type: Type },
    TryOp { expr: Box<Expression> },
    Typeof(Box<Expression>),
    PostfixOp { expr: Box<Expression>, op: PostfixOp },
    ErrorNew(Box<Expression>),
    New(Box<Expression>),
    Make { ty: Type, size: Box<Expression> },
    Launch { kernel: String, grid: Vec<Expression>, args: Vec<Expression> },
    Closure { params: Vec<Param>, return_type: Option<Type>, body: Box<Expression> },
    ChannelReceive(Box<Expression>),
    TypeConstructor { name: String, type_args: Vec<Type>, args: Vec<Expression> },
}

/// A sequence of statements.
#[derive(Debug)]
pub struct Block {
    pub statements: Vec<Statement>,
}

/// One case of a `switch` statement.
#[derive(Debug)]
pub struct SwitchCase {
    pub patterns: Vec<Expression>,
    pub body: Block,
}

/// One case of a `select` statement.
#[derive(Debug)]
pub struct SelectCase {
    pub body: Block,
}

/// A Vex statement.
#[allow(inconsistent_fields)]
#[derive(Debug)]
pub enum Statement {
    Let { name: String, ty: Option<Type>, value: Expression, is_mutable: bool },
    LetPattern { is_mutable: bool, pattern: Pattern, ty: Option<Type>, value: Expression },
    Assign { span_id: Option<usize>, target: Expression, value: Expression },
    CompoundAssign { span_id: Option<usize>, target: Expression, op: BinaryOp, value: Expression },
    Return { span_id: Option<usize>, value: Option<Expression> },
    Break { span_id: Option<usize> },
    Continue { span_id: Option<usize> },
    Expression(Expression),
    If {
        span_id: Option<usize>,
        condition: Expression,
        then_block: Block,
        elif_branches: Vec<(Expression, Block)>,
        else_block: Option<Block>,
    },
    While { span_id: Option<usize>, condition: Expression, body: Block },
    For {
        span_id: Option<usize>,
        init: Option<Box<Statement>>,
        condition: Option<Expression>,
        post: Option<Box<Statement>>,
        body: Block,
    },
    ForIn { span_id: Option<usize>, variable: String, iterable: Expression, body: Block },
    Defer(Box<Statement>),
    Loop { span_id: Option<usize>, body: Block },
    Switch { span_id: Option<usize>, value: Option<Expression>, cases: Vec<SwitchCase>, default_case: Option<Block> },
    Select { span_id: Option<usize>, cases: Vec<SelectCase> },
    Go { span_id: Option<usize>, expr: Expression },
    Unsafe { span_id: Option<usize>, block: Block },
}

} // verus!

verus! {

/// The mathematical value of a `Type`: strings as character sequences,
/// vectors as sequences.
#[allow(inconsistent_fields)]
pub ghost enum TypeView {
    Unknown,
    I8,
    I16,
    I32,
    I64,
    I128,
    U8,
    U16,
    U32,
    U64,
    U128,
    F16,
    F32,
    F64,
    Bool,
    String,
    Byte,
    Named(Seq<char>),
    Generic { name: Seq<char>, type_args: Seq<TypeView> },
    Reference(Box<TypeView>, bool),
    Array(Box<TypeView>, nat),
    ConstArray { elem_type: Box<TypeView>, size_param: Seq<char> },
    Slice(Box<TypeView>, bool),
    Tuple(Seq<TypeView>),
    Function { params: Seq<TypeView>, return_type: Box<TypeView> },
    Union(Seq<TypeView>),
    Intersection(Seq<TypeView>),
    RawPtr { inner: Box<TypeView>, is_const: bool },
    Option(Box<TypeView>),
    Result(Box<TypeView>, Box<TypeView>),
    Vec(Box<TypeView>),
    Box(Box<TypeView>),
    Channel(Box<TypeView>),
    Future(Box<TypeView>),
    Unit,
    Never,
    Any,
    SelfType,
    Error,
    Nil,
    AssociatedType { self_type: Box<TypeView>, name: Seq<char> },
    Conditional { check_type: Box<TypeView>, extends_type: Box<TypeView>, true_type: Box<TypeView>, false_type: Box<TypeView> },
    Infer(Seq<char>),
    Typeof(Seq<char>),
}

/// The value of a type.
pub open spec fn type_view(t: Type) -> TypeView
    decreases t,
{
    match t {
        Type::Unknown => TypeView::Unknown,
        Type::I8 => TypeView::I8,
        Type::I16 => TypeView::I16,
        Type::I32 => TypeView::I32,
        Type::I64 => TypeView::I64,
        Type::I128 => TypeView::I128,
        Type::U8 => TypeView::U8,
        Type::U16 => TypeView::U16,
        Type::U32 => TypeView::U32,
        Type::U64 => TypeView::U64,
        Type::U128 => TypeView::U128,
        Type::F16 => TypeView::F16,
        Type::F32 => TypeView::F32,
        Type::F64 => TypeView::F64,
        Type::Bool => TypeView::Bool,
        Type::String => TypeView::String,
        Type::Byte => TypeView::Byte,
        Type::Named(n) => TypeView::Named(n@),
        Type::Generic { name, type_args } => TypeView::Generic { name: name@, type_args: type_views(type_args@) },
        Type::Reference(inner, m) => TypeView::Reference(Box::new(type_view(*inner)), m),
        Type::Array(inner, n) => TypeView::Array(Box::new(type_view(*inner)), n as nat),
        Type::ConstArray { elem_type, size_param } => TypeView::ConstArray {
            elem_type: Box::new(type_view(*elem_type)),
            size_param: size_param@,
        },
        Type::Slice(inner, m) => TypeView::Slice(Box::new(type_view(*inner)), m),
        Type::Tuple(ts) => TypeView::Tuple(type_views(ts@)),
        Type::Function { params, return_type } => TypeView::Function {
            params: type_views(params@),
            return_type: Box::new(type_view(*return_type)),
        },
        Type::Union(ts) => TypeView::Union(type_views(ts@)),
        Type::Intersection(ts) => TypeView::Intersection(type_views(ts@)),
        Type::RawPtr { inner, is_const } => TypeView::RawPtr { inner: Box::new(type_view(*inner)), is_const },
        Type::Option(inner) => TypeView::Option(Box::new(type_view(*inner))),
        Type::Result(ok, err) => TypeView::Result(Box::new(type_view(*ok)), Box::new(type_view(*err))),
        Type::Vec(inner) => TypeView::Vec(Box::new(type_view(*inner))),
        Type::Box(inner) => TypeView::Box(Box::new(type_view(*inner))),
        Type::Channel(inner) => TypeView::Channel(Box::new(type_view(*inner))),
        Type::Future(inner) => TypeView::Future(Box::new(type_view(*inner))),
        Type::Unit => TypeView::Unit,
        Type::Never => TypeView::Never,
        Type::Any => TypeView::Any,
        Type::SelfType => TypeView::SelfType,
        Type::Error => TypeView::Error,
        Type::Nil => TypeView::Nil,
        Type::AssociatedType { self_type, name } => TypeView::AssociatedType {
            self_type: Box::new(type_view(*self_type)),
            name: name@,
        },
        Type::Conditional { check_type, extends_type, true_type, false_type } => TypeView::Conditional {
            check_type: Box::new(type_view(*check_type)),
            extends_type: Box::new(type_view(*extends_type)),
            true_type: Box::new(type_view(*true_type)),
            false_type: Box::new(type_view(*false_type)),
        },
        Type::Infer(n) => TypeView::Infer(n@),
        Type::Typeof(n) => TypeView::Typeof(n@),
    }
}

/// The values of a list of types.
pub open spec fn type_views(ts: Seq<Type>) -> Seq<TypeView>
    decreases ts,
{
    if ts.len() == 0 {
        Seq::empty()
    } else {
        type_views(ts.drop_last()).push(type_view(ts.last()))
    }
}

impl View for Type {
    type V = TypeView;

    open spec fn view(&self) -> TypeView {
        type_view(*self)
    }
}

pub proof fn lemma_type_views_len(ts: Seq<Type>)
    ensures
        type_views(ts).len() == ts.len(),
        forall|i: int| #![trigger type_views(ts)[i]] 0 <= i < ts.len() ==> type_views(ts)[i] == type_view(ts[i]),
    decreases ts.len(),
{
    if ts.len() > 0 {
        lemma_type_views_len(ts.drop_last());
        assert forall|i: int| #![trigger type_views(ts)[i]] 0 <= i < ts.len() implies type_views(ts)[i] == type_view(ts[i]) by {
            if i < ts.len() - 1 {
                assert(type_views(ts.drop_last())[i] == type_view(ts.drop_last()[i]));
            }
        }
    }
}

} // verus!

verus! {

/// A type parameter of a generic function or struct.
#[derive(Debug)]
pub struct TypeParam {
    pub name: String,
    /// The type used when a use gives no argument for this parameter.
    pub default_type: Option<Type>,
}

/// The explicit receiver of a method: `fn (self: &T) m()`.
#[derive(Debug)]
pub struct Receiver {
    pub ty: Type,
}

/// A function or method definition.
#[derive(Debug)]
pub struct Function {
    pub name: String,
    pub type_params: Vec<TypeParam>,
    pub params: Vec<Param>,
    pub return_type: Option<Type>,
    pub receiver: Option<Receiver>,
    pub body: Block,
    pub is_mutable: bool,
    /// A static method `fn Type.name()`, with the type it belongs to.
    pub is_static: bool,
    pub static_type: Option<String>,
}

} // verus!

verus! {

/// A field of a struct declaration, with its inline metadata string if any.
#[derive(Debug)]
pub struct Field {
    pub name: String,
    pub ty: Type,
    pub metadata: Option<String>,
}

/// A trait that a struct declares it implements: `impl Add<i32>`.
#[derive(Debug)]
pub struct TraitRef {
    pub name: String,
    pub type_args: Vec<Type>,
}

/// A struct declaration.
#[derive(Debug)]
pub struct Struct {
    pub name: String,
    pub type_params: Vec<TypeParam>,
    pub fields: Vec<Field>,
    pub methods: Vec<Function>,
    pub impl_traits: Vec<TraitRef>,
    pub policies: Vec<String>,
}

/// A variant of an enum declaration.
#[derive(Debug)]
pub struct EnumVariant {
    pub name: String,
}

/// An enum declaration.
#[derive(Debug)]
pub struct Enum {
    pub name: String,
    pub type_params: Vec<TypeParam>,
    pub variants: Vec<EnumVariant>,
}

/// A method declared by a trait.
#[derive(Debug)]
pub struct TraitMethod {
    pub name: String,
}

/// A trait declaration.
#[derive(Debug)]
pub struct Trait {
    pub name: String,
    pub methods: Vec<TraitMethod>,
}

/// A trait implementation block: `impl Trait for Type { ... }`.
#[derive(Debug)]
pub struct TraitImpl {
    pub trait_name: String,
    pub for_type: Type,
    pub methods: Vec<Function>,
}

} // verus!

verus! {

/// A constant declaration.
#[derive(Debug)]
pub struct ConstDecl {
    pub name: String,
    pub ty: Option<Type>,
    pub value: Expression,
}

/// A function declared in an `extern` block.
#[derive(Debug)]
pub struct ExternFunction {
    pub name: String,
    pub params: Vec<Param>,
    pub return_type: Option<Type>,
    pub is_variadic: bool,
}

/// An `extern "abi" { ... }` block.
#[derive(Debug)]
pub struct ExternBlock {
    pub abi: String,
    pub functions: Vec<ExternFunction>,
}

/// A name in an `export { ... }` list, possibly renamed: `x as y`.
#[derive(Debug)]
pub struct ExportItem {
    pub name: String,
    pub alias: Option<String>,
}

/// An export declaration: `export { x, y }`, `export { x } from "m"` or
/// `export * from "m"`.
#[derive(Debug)]
pub struct Export {
    pub items: Vec<ExportItem>,
    pub from_module: Option<String>,
    pub is_wildcard: bool,
}

/// A name in an `import { ... }` list, possibly renamed.
#[derive(Debug)]
pub struct ImportItem {
    pub name: String,
    pub alias: Option<String>,
}

/// How a module is imported.
#[derive(Debug)]
pub enum ImportKind {
    /// `import { x, y } from "m"` (or every exported name when none is listed).
    Named,
    /// `import * as alias from "m"`.
    Namespace(String),
    /// `import "m"`.
    Module,
}

/// An import declaration.
#[derive(Debug)]
pub struct Import {
    pub module: String,
    pub kind: ImportKind,
    pub items: Vec<ImportItem>,
}

/// A top-level item of a program or module.
#[derive(Debug)]
pub enum Item {
    Function(Function),
    Struct(Struct),
    Enum(Enum),
    Contract(Trait),
    TraitImpl(TraitImpl),
    Policy(crate::policy::Policy),
    Const(ConstDecl),
    ExternBlock(ExternBlock),
    Export(Export),
}

} // verus!
