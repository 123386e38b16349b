//! The syntax tree of a `#[parallel]` function.
//!
//! The tree holds what the compiler of device code reads of a function's Rust syntax. Every node
//! that a diagnostic can point at carries a [`Span`], which names the tokens the node was read
//! from.
use vstd::prelude::*;

verus! {

/// The tokens of a node, by their place in a table that the owner of the tokens keeps.
#[derive(Debug, Clone, Copy, PartialEq, Eq, Structural)]
pub struct Span {
    pub index: usize,
}

#[derive(Debug)]
pub struct Ident {
    pub name: String,
    pub span: Span,
}

/// A path such as `value` or `module::value`.
#[derive(Debug)]
pub struct SourcePath {
    /// Whether the path starts from a qualified self type, as in `<T>::value`.
    pub qualified: bool,
    pub segments: Vec<Ident>,
}

#[derive(Debug)]
pub struct Literal {
    pub span: Span,
    pub kind: LiteralKind,
}

#[derive(Debug)]
pub enum LiteralKind {
    /// An integer, by its digits in base ten.
    Int(String),
    /// A floating-point number, by its digits in base ten.
    Float(String),
    Bool(bool),
    Other,
}

#[derive(Debug, Clone, Copy, PartialEq, Eq, Structural)]
pub enum SourceUnaryOp {
    Deref,
    Neg,
    Other,
}

#[derive(Debug, Clone, Copy, PartialEq, Eq, Structural)]
pub enum SourceBinaryOp {
    Add,
    Sub,
    Mul,
    Div,
    Rem,
    BitXor,
    BitAnd,
    BitOr,
    Shl,
    Shr,
    Eq,
    Ne,
    Lt,
    Le,
    Gt,
    Ge,
    And,
    Or,
    AddAssign,
    SubAssign,
    MulAssign,
    DivAssign,
    Other,
}

#[derive(Debug)]
pub struct SourceExpr {
    pub span: Span,
    pub kind: ExprKind,
}

#[allow(inconsistent_fields)]
#[derive(Debug)]
pub enum ExprKind {
    Path(SourcePath),
    Index { base: Box<SourceExpr>, index: Box<SourceExpr> },
    Call { function: Box<SourceExpr>, arguments: Vec<SourceExpr> },
    MethodCall {
        receiver: Box<SourceExpr>,
        method: String,
        arguments: Vec<SourceExpr>,
        arguments_span: Span,
    },
    Lit(Literal),
    Paren(Box<SourceExpr>),
    Group(Box<SourceExpr>),
    Unary { op: SourceUnaryOp, operand: Box<SourceExpr> },
    Binary { op: SourceBinaryOp, op_span: Span, left: Box<SourceExpr>, right: Box<SourceExpr> },
    Assign { left: Box<SourceExpr>, right: Box<SourceExpr> },
    Cast { operand: Box<SourceExpr>, ty: SourceType },
    If {
        condition: Box<SourceExpr>,
        then_branch: SourceBlock,
        else_branch: Option<Box<SourceExpr>>,
    },
    Block(SourceBlock),
    ForLoop { pattern: SourcePattern, range: Box<SourceExpr>, body: SourceBlock },
    Range { start: Option<Box<SourceExpr>>, end: Option<Box<SourceExpr>>, closed: bool },
    Closure(SourceClosure),
    Tuple(Vec<SourceExpr>),
    Other,
}

#[derive(Debug)]
pub struct SourceClosure {
    pub inputs: Vec<SourcePattern>,
    pub inputs_span: Span,
    pub body: Box<SourceExpr>,
}

#[derive(Debug)]
pub struct SourceBlock {
    pub span: Span,
    pub statements: Vec<SourceStatement>,
}

#[derive(Debug)]
pub enum SourceStatement {
    Local(SourceLocal),
    Expr { expression: SourceExpr, semicolon: bool },
    Item(Span),
    Macro(Span),
}

/// A `let` statement.
#[derive(Debug)]
pub struct SourceLocal {
    pub span: Span,
    pub pattern: SourcePattern,
    pub initializer: Option<SourceInitializer>,
}

#[derive(Debug)]
pub struct SourceInitializer {
    pub value: SourceExpr,
    /// Whether an `else` block follows the value.
    pub diverges: bool,
}

#[derive(Debug)]
pub struct SourcePattern {
    pub span: Span,
    pub kind: PatternKind,
}

#[allow(inconsistent_fields)]
#[derive(Debug)]
pub enum PatternKind {
    Ident { ident: Ident, mutable: bool, subpattern: Option<Box<SourcePattern>> },
    Reference(Box<SourcePattern>),
    Paren(Box<SourcePattern>),
    Typed { pattern: Box<SourcePattern>, ty: SourceType },
    Tuple(Vec<SourcePattern>),
    Wild,
    /// Another pattern, by the patterns that it holds.
    Other(Vec<SourcePattern>),
}

#[derive(Debug)]
pub struct SourceType {
    pub span: Span,
    pub kind: TypeKind,
}

#[allow(inconsistent_fields)]
#[derive(Debug)]
pub enum TypeKind {
    Reference(Box<SourceType>),
    /// A path, by its last segment.
    Path { qualified: bool, last: Option<Box<TypeSegment>> },
    Other,
}

#[derive(Debug)]
pub struct TypeSegment {
    pub span: Span,
    pub name: String,
    pub arguments: TypeArguments,
}

#[derive(Debug)]
pub enum TypeArguments {
    Absent,
    AngleBracketed { span: Span, arguments: Vec<TypeArgument> },
    Parenthesized,
}

#[derive(Debug)]
pub enum TypeArgument {
    Type(SourceType),
    Const(RankExpr),
    Other,
}

/// A constant that gives the rank of a tensor or of an extent.
#[derive(Debug)]
pub struct RankExpr {
    pub expression: SourceExpr,
    /// The text of the constant's tokens: two ranks are the same where their texts are.
    pub text: String,
}

#[allow(inconsistent_fields)]
#[derive(Debug)]
pub enum SourceArgument {
    Receiver(Span),
    Typed { pattern: SourcePattern, ty: SourceType },
}

#[derive(Debug)]
pub enum SourceOutput {
    Unit,
    Type(SourceType),
}

#[derive(Debug)]
pub struct SourceFunction {
    pub ident: Ident,
    /// The `const` keyword, where there is one.
    pub constness: Option<Span>,
    /// The `async` keyword, where there is one.
    pub asyncness: Option<Span>,
    pub signature_span: Span,
    pub inputs: Vec<SourceArgument>,
    pub output: SourceOutput,
    pub output_span: Span,
    pub block: SourceBlock,
}

} // verus!
