//! The syntax tree of a Lua/Luau chunk, with every token, span and flag
//! held as plain values.

use vstd::prelude::*;
use crate::punctuated::Punctuated;
use crate::synth::Span;

verus! {

/// What a token is, as far as the tree's leaves need to tell: a name, a
/// literal, or one piece of an interpolated string (the text before the
/// first interpolation, between two, or after the last).
#[derive(Debug, Clone, Copy, PartialEq, Eq, Hash, Structural)]
pub enum TokenKind {
    Identifier,
    StringLiteral,
    True,
    False,
    Nil,
    InterpBegin,
    InterpMid,
    InterpEnd,
}

/// A token of source text: its kind, its spelling and where it stands.
#[derive(Debug, PartialEq, Eq)]
pub struct Token {
    pub kind: TokenKind,
    pub text: String,
    pub span: Span,
}

/// A literal leaf: the exact source spelling plus its span.
#[derive(Debug, PartialEq, Eq)]
pub struct Literal {
    pub text: String,
    pub span: Span,
}

// ----- operators -----

/// A binary operator of Lua 5.1-5.4 or Luau.
#[derive(Debug, Clone, Copy, PartialEq, Eq, Hash, Structural)]
pub enum BinOp {
    Or,
    And,
    Lt,
    Gt,
    Le,
    Ge,
    Ne,
    Eq,
    BitOr,
    BitXor,
    BitAnd,
    Shl,
    Shr,
    Concat,
    Add,
    Sub,
    Mul,
    Div,
    FloorDiv,
    Mod,
    Pow,
}

/// A unary operator: `-`, `not`, `#` or `~`.
#[derive(Debug, Clone, Copy, PartialEq, Eq, Hash, Structural)]
pub enum UnOp {
    Neg,
    Not,
    Len,
    BitNot,
}

/// A Luau compound-assignment operator: `+=`, `-=`, `*=`, `/=`, `//=`,
/// `%=`, `^=` or `..=`.
#[derive(Debug, Clone, Copy, PartialEq, Eq, Hash, Structural)]
pub enum CompoundOp {
    AddAssign,
    SubAssign,
    MulAssign,
    DivAssign,
    FloorDivAssign,
    ModAssign,
    PowAssign,
    ConcatAssign,
}

/// How a chain of equal-precedence binary operators groups.
#[derive(Debug, Clone, Copy, PartialEq, Eq, Structural)]
pub enum Assoc {
    Left,
    Right,
}

/// Binding power of the unary operators: above every binary operator but `^`.
pub const UNARY_PRECEDENCE: u8 = 11;

/// Binding power and grouping of `op`, from loosest (`or`) to tightest
/// (`^`), as the Lua reference manual orders them.
pub open spec fn binop_precedence(op: BinOp) -> (u8, Assoc) {
    match op {
        BinOp::Or => (1, Assoc::Left),
        BinOp::And => (2, Assoc::Left),
        BinOp::Lt | BinOp::Gt | BinOp::Le | BinOp::Ge | BinOp::Ne | BinOp::Eq => (3, Assoc::Left),
        BinOp::BitOr => (4, Assoc::Left),
        BinOp::BitXor => (5, Assoc::Left),
        BinOp::BitAnd => (6, Assoc::Left),
        BinOp::Shl | BinOp::Shr => (7, Assoc::Left),
        BinOp::Concat => (8, Assoc::Right),
        BinOp::Add | BinOp::Sub => (9, Assoc::Left),
        BinOp::Mul | BinOp::Div | BinOp::FloorDiv | BinOp::Mod => (10, Assoc::Left),
        BinOp::Pow => (12, Assoc::Right),
    }
}

/// The Lua reference manual's binding powers, loosest to tightest: `or`;
/// `and`; the comparisons; `|`; `~`; `&`; the shifts; `..`; `+` and `-`;
/// `*`, `/`, `//` and `%`; the unary operators; `^`. Operators listed
/// together bind equally; `..` and `^` group to the right, the rest to the
/// left.
pub proof fn law_binding_powers_follow_the_manual()
    ensures
        binop_precedence(BinOp::Or).0 < binop_precedence(BinOp::And).0,
        binop_precedence(BinOp::And).0 < binop_precedence(BinOp::Lt).0,
        binop_precedence(BinOp::Lt).0 == binop_precedence(BinOp::Gt).0,
        binop_precedence(BinOp::Lt).0 == binop_precedence(BinOp::Le).0,
        binop_precedence(BinOp::Lt).0 == binop_precedence(BinOp::Ge).0,
        binop_precedence(BinOp::Lt).0 == binop_precedence(BinOp::Ne).0,
        binop_precedence(BinOp::Lt).0 == binop_precedence(BinOp::Eq).0,
        binop_precedence(BinOp::Lt).0 < binop_precedence(BinOp::BitOr).0,
        binop_precedence(BinOp::BitOr).0 < binop_precedence(BinOp::BitXor).0,
        binop_precedence(BinOp::BitXor).0 < binop_precedence(BinOp::BitAnd).0,
        binop_precedence(BinOp::BitAnd).0 < binop_precedence(BinOp::Shl).0,
        binop_precedence(BinOp::Shl).0 == binop_precedence(BinOp::Shr).0,
        binop_precedence(BinOp::Shl).0 < binop_precedence(BinOp::Concat).0,
        binop_precedence(BinOp::Concat).0 < binop_precedence(BinOp::Add).0,
        binop_precedence(BinOp::Add).0 == binop_precedence(BinOp::Sub).0,
        binop_precedence(BinOp::Add).0 < binop_precedence(BinOp::Mul).0,
        binop_precedence(BinOp::Mul).0 == binop_precedence(BinOp::Div).0,
        binop_precedence(BinOp::Mul).0 == binop_precedence(BinOp::FloorDiv).0,
        binop_precedence(BinOp::Mul).0 == binop_precedence(BinOp::Mod).0,
        binop_precedence(BinOp::Mul).0 < UNARY_PRECEDENCE,
        UNARY_PRECEDENCE < binop_precedence(BinOp::Pow).0,
        forall|op: BinOp|
            (#[trigger] binop_precedence(op)).1 == (if op == BinOp::Concat || op == BinOp::Pow {
                Assoc::Right
            } else {
                Assoc::Left
            }),
{
}

impl BinOp {
    /// Binding power and grouping of this operator.
    pub fn precedence(self) -> (r: (u8, Assoc))
        ensures
            r == binop_precedence(self),
    {
        match self {
            BinOp::Or => (1, Assoc::Left),
            BinOp::And => (2, Assoc::Left),
            BinOp::Lt | BinOp::Gt | BinOp::Le | BinOp::Ge | BinOp::Ne | BinOp::Eq => (3, Assoc::Left),
            BinOp::BitOr => (4, Assoc::Left),
            BinOp::BitXor => (5, Assoc::Left),
            BinOp::BitAnd => (6, Assoc::Left),
            BinOp::Shl | BinOp::Shr => (7, Assoc::Left),
            BinOp::Concat => (8, Assoc::Right),
            BinOp::Add | BinOp::Sub => (9, Assoc::Left),
            BinOp::Mul | BinOp::Div | BinOp::FloorDiv | BinOp::Mod => (10, Assoc::Left),
            BinOp::Pow => (12, Assoc::Right),
        }
    }
}

// ----- expressions -----

/// A Lua expression node.
#[derive(Debug, PartialEq, Eq)]
pub enum Expression {
    Nil(Span),
    False(Span),
    True(Span),
    Number(Literal),
    StringLiteral(Literal),
    VarArg(Span),
    FunctionDef(Box<FunctionDef>),
    Var(Box<Var>),
    FunctionCall(Box<FunctionCall>),
    Parenthesized(Box<ParenExpression>),
    TableConstructor(Box<TableConstructor>),
    BinaryOp(Box<BinaryOp>),
    UnaryOp(Box<UnaryOp>),
    IfExpression(Box<IfExpression>),
    InterpolatedString(Box<InterpolatedString>),
    TypeCast(Box<TypeCast>),
    Error(Span),
}

/// A variable reference: simple name, index expression, or field access.
#[derive(Debug, PartialEq, Eq)]
pub enum Var {
    Name(Token),
    Index(Box<IndexExpression>),
    FieldAccess(Box<FieldAccess>),
}

/// A function call: `callee(args)` or `callee:method(args)`.
#[derive(Debug, PartialEq, Eq)]
pub struct FunctionCall {
    pub span: Span,
    pub callee: Expression,
    pub args: FunctionArgs,
    /// `:method` name.
    pub method: Option<Token>,
}

/// Function call arguments: parenthesized list, table literal, or string literal.
#[derive(Debug, PartialEq, Eq)]
pub enum FunctionArgs {
    Parenthesized { span: Span, args: Punctuated<Expression> },
    TableConstructor(Box<TableConstructor>),
    StringLiteral(Literal),
}

/// Binary operator expression: `left op right`.
#[derive(Debug, PartialEq, Eq)]
pub struct BinaryOp {
    pub span: Span,
    pub left: Expression,
    pub op: BinOp,
    pub right: Expression,
}

/// Unary operator expression: `op operand`.
#[derive(Debug, PartialEq, Eq)]
pub struct UnaryOp {
    pub span: Span,
    pub op: UnOp,
    pub operand: Expression,
}

/// Parenthesized expression: `(expr)`.
#[derive(Debug, PartialEq, Eq)]
pub struct ParenExpression {
    pub span: Span,
    pub expr: Expression,
}

/// Table constructor: `{ fields }`.
#[derive(Debug, PartialEq, Eq)]
pub struct TableConstructor {
    pub span: Span,
    pub fields: Punctuated<Field>,
}

/// Index expression: `prefix[index]`.
#[derive(Debug, PartialEq, Eq)]
pub struct IndexExpression {
    pub span: Span,
    pub prefix: Expression,
    pub index: Expression,
}

/// Field access: `prefix.name`.
#[derive(Debug, PartialEq, Eq)]
pub struct FieldAccess {
    pub span: Span,
    pub prefix: Expression,
    pub name: Token,
}

/// Anonymous function definition: `function(params) body end`.
#[derive(Debug, PartialEq, Eq)]
pub struct FunctionDef {
    pub span: Span,
    /// Luau: `@attr` list preceding `function`.
    pub attributes: Vec<FunctionAttribute>,
    pub body: FunctionBody,
}

/// Luau if-expression: `if cond then expr {elseif cond then expr} else expr`.
#[derive(Debug, PartialEq, Eq)]
pub struct IfExpression {
    pub span: Span,
    pub condition: Expression,
    pub then_expr: Expression,
    pub elseif_clauses: Vec<ElseIfExprClause>,
    pub else_expr: Expression,
}

/// An `elseif` clause within a Luau if-expression.
#[derive(Debug, PartialEq, Eq)]
pub struct ElseIfExprClause {
    pub span: Span,
    pub condition: Expression,
    pub expr: Expression,
}

/// Luau interpolated string: `` `text{expr}text` ``.
#[derive(Debug, PartialEq, Eq)]
pub struct InterpolatedString {
    pub span: Span,
    pub segments: Vec<InterpSegment>,
}

/// A segment of an interpolated string: literal text followed by an optional expression.
#[derive(Debug, PartialEq, Eq)]
pub struct InterpSegment {
    pub literal: Token,
    pub expr: Option<Expression>,
}

/// Luau type cast (`expr :: Type`).
#[derive(Debug, PartialEq, Eq)]
pub struct TypeCast {
    pub span: Span,
    pub expr: Expression,
    pub type_annotation: Type,
}

// ----- shared -----

/// Function body: params + optional return type + block, closed by `end`.
#[derive(Debug, PartialEq, Eq)]
pub struct FunctionBody {
    pub span: Span,
    /// Luau: `<T, U...>` generic list before the parameter parens.
    pub generics: Option<Box<GenericTypeList>>,
    pub params: Punctuated<Parameter>,
    pub vararg: Option<VarArgParam>,
    /// Luau: `: T` return annotation after `)`.
    pub return_type: Option<Type>,
    pub block: Block,
}

/// A typed name: function parameter or generic-for loop binding.
#[derive(Debug, PartialEq, Eq)]
pub struct Parameter {
    pub span: Span,
    pub name: Token,
    /// Luau: `: T`.
    pub type_annotation: Option<Type>,
}

/// Vararg parameter (`...` or `...name` in Lua 5.5).
#[derive(Debug, PartialEq, Eq)]
pub struct VarArgParam {
    pub span: Span,
    pub name: Option<Token>,
    /// Luau: `: T`. The type may be a pack (`...number`).
    pub type_annotation: Option<Type>,
}

/// Block of statements with optional last statement.
#[derive(Debug, PartialEq, Eq)]
pub struct Block {
    pub span: Span,
    pub stmts: Vec<Statement>,
    pub last_stmt: Option<Box<LastStatement>>,
}

/// A table field.
#[derive(Debug, PartialEq, Eq)]
pub enum Field {
    Bracketed { span: Span, key: Expression, value: Expression },
    Named { span: Span, name: Token, value: Expression },
    Positional { span: Span, value: Expression },
}

// ----- statements -----

/// A Lua statement node.
#[derive(Debug, PartialEq, Eq)]
pub enum Statement {
    Assignment(Box<Assignment>),
    FunctionCall(Box<FunctionCallStmt>),
    DoBlock(Box<DoBlock>),
    WhileLoop(Box<WhileLoop>),
    RepeatLoop(Box<RepeatLoop>),
    IfStatement(Box<IfStatement>),
    NumericFor(Box<NumericFor>),
    GenericFor(Box<GenericFor>),
    FunctionDecl(Box<FunctionDecl>),
    LocalFunction(Box<LocalFunction>),
    LocalAssignment(Box<LocalAssignment>),
    EmptyStatement(Span),
    Goto(Box<GotoStatement>),
    Label(Box<LabelStatement>),
    GlobalDeclaration(Box<GlobalDeclaration>),
    GlobalFunction(Box<GlobalFunction>),
    GlobalStar(Box<GlobalStar>),
    Break(Span),
    CompoundAssignment(Box<CompoundAssignment>),
    TypeDeclaration(Box<TypeDeclaration>),
    Error(Span),
}

/// The statement that may end a block.
#[derive(Debug, PartialEq, Eq)]
pub enum LastStatement {
    Return(Box<ReturnStatement>),
    Break(Span),
    Continue(Span),
    Error(Span),
}

/// `targets = values`.
#[derive(Debug, PartialEq, Eq)]
pub struct Assignment {
    pub span: Span,
    pub targets: Punctuated<Var>,
    pub values: Punctuated<Expression>,
}

/// A function call used as a statement.
#[derive(Debug, PartialEq, Eq)]
pub struct FunctionCallStmt {
    pub span: Span,
    pub call: FunctionCall,
}

/// `do block end`.
#[derive(Debug, PartialEq, Eq)]
pub struct DoBlock {
    pub span: Span,
    pub block: Block,
}

/// `while condition do block end`.
#[derive(Debug, PartialEq, Eq)]
pub struct WhileLoop {
    pub span: Span,
    pub condition: Expression,
    pub block: Block,
}

/// `repeat block until condition`.
#[derive(Debug, PartialEq, Eq)]
pub struct RepeatLoop {
    pub span: Span,
    pub block: Block,
    pub condition: Expression,
}

/// `if condition then block {elseif ...} [else ...] end`.
#[derive(Debug, PartialEq, Eq)]
pub struct IfStatement {
    pub span: Span,
    pub condition: Expression,
    pub block: Block,
    pub elseif_clauses: Vec<ElseIfClause>,
    pub else_clause: Option<ElseClause>,
}

/// An `elseif` clause of an if statement.
#[derive(Debug, PartialEq, Eq)]
pub struct ElseIfClause {
    pub span: Span,
    pub condition: Expression,
    pub block: Block,
}

/// The `else` clause of an if statement.
#[derive(Debug, PartialEq, Eq)]
pub struct ElseClause {
    pub span: Span,
    pub block: Block,
}

/// `for name = start, limit [, step] do block end`.
#[derive(Debug, PartialEq, Eq)]
pub struct NumericFor {
    pub span: Span,
    pub name: Token,
    pub type_annotation: Option<Type>,
    pub start: Expression,
    pub limit: Expression,
    pub step: Option<Expression>,
    pub block: Block,
}

/// `for names in exprs do block end`.
#[derive(Debug, PartialEq, Eq)]
pub struct GenericFor {
    pub span: Span,
    pub names: Punctuated<Parameter>,
    pub exprs: Punctuated<Expression>,
    pub block: Block,
}

/// The dotted name of a declared function: `a.b.c:m`.
#[derive(Debug, PartialEq, Eq)]
pub struct FuncName {
    pub span: Span,
    pub names: Vec<Token>,
    pub method: Option<Token>,
}

/// A Luau `@name` or `@[name(args)]` function attribute.
#[derive(Debug, PartialEq, Eq)]
pub struct FunctionAttribute {
    pub span: Span,
    pub name: Token,
    pub args: Option<Punctuated<Expression>>,
}

/// `function name(params) body end`.
#[derive(Debug, PartialEq, Eq)]
pub struct FunctionDecl {
    pub span: Span,
    pub attributes: Vec<FunctionAttribute>,
    pub name: FuncName,
    pub body: FunctionBody,
}

/// `local function name(params) body end`.
#[derive(Debug, PartialEq, Eq)]
pub struct LocalFunction {
    pub span: Span,
    pub attributes: Vec<FunctionAttribute>,
    pub name: Token,
    pub body: FunctionBody,
    pub is_const: bool,
}

/// A Lua 5.4 `<const>`/`<close>` attribute.
#[derive(Debug, PartialEq, Eq)]
pub struct Attribute {
    pub span: Span,
    pub name: Token,
}

/// A name bound by a local or global declaration.
#[derive(Debug, PartialEq, Eq)]
pub struct AttributedName {
    pub name: Token,
    pub type_annotation: Option<Type>,
    pub attrib: Option<Attribute>,
}

/// `local names [= exprs]`.
#[derive(Debug, PartialEq, Eq)]
pub struct LocalAssignment {
    pub span: Span,
    pub names: Punctuated<AttributedName>,
    pub exprs: Option<Punctuated<Expression>>,
    pub is_const: bool,
}

/// `goto name`.
#[derive(Debug, PartialEq, Eq)]
pub struct GotoStatement {
    pub span: Span,
    pub name: Token,
}

/// `::name::`.
#[derive(Debug, PartialEq, Eq)]
pub struct LabelStatement {
    pub span: Span,
    pub name: Token,
}

/// `return exprs`.
#[derive(Debug, PartialEq, Eq)]
pub struct ReturnStatement {
    pub span: Span,
    pub exprs: Punctuated<Expression>,
}

/// `var op= expr`.
#[derive(Debug, PartialEq, Eq)]
pub struct CompoundAssignment {
    pub span: Span,
    pub var: Var,
    pub op: CompoundOp,
    pub expr: Expression,
}

/// Luau `[export] type name<generics> = value`.
#[derive(Debug, PartialEq, Eq)]
pub struct TypeDeclaration {
    pub span: Span,
    pub is_exported: bool,
    pub name: Token,
    pub generics: Option<Box<GenericTypeList>>,
    pub type_value: TypeDeclarationValue,
}

/// What a type declaration declares: an alias or a type function.
#[derive(Debug, PartialEq, Eq)]
pub enum TypeDeclarationValue {
    Alias(Type),
    TypeFunction(Box<FunctionBody>),
}

/// Lua 5.5 `global names [= exprs]`.
#[derive(Debug, PartialEq, Eq)]
pub struct GlobalDeclaration {
    pub span: Span,
    pub names: Punctuated<AttributedName>,
    pub exprs: Option<Punctuated<Expression>>,
}

/// Lua 5.5 `global function name(params) body end`.
#[derive(Debug, PartialEq, Eq)]
pub struct GlobalFunction {
    pub span: Span,
    pub name: Token,
    pub body: FunctionBody,
}

/// Lua 5.5 `global *`.
#[derive(Debug, PartialEq, Eq)]
pub struct GlobalStar {
    pub span: Span,
    pub attrib: Option<Attribute>,
}

// ----- Luau types -----

/// A Luau type.
#[derive(Debug, PartialEq, Eq)]
pub enum Type {
    Named(Box<NamedType>),
    Typeof(Box<TypeofType>),
    Table(Box<TableType>),
    Function(Box<FunctionType>),
    Optional(Box<OptionalType>),
    Union(Box<UnionType>),
    Intersection(Box<IntersectionType>),
    Negation(Box<NegationType>),
    Parenthesized(Box<ParenType>),
    Pack(Box<TypePack>),
    Singleton(Token),
    Variadic(Box<VariadicType>),
    GenericPack(Box<GenericPackType>),
    Error(Span),
}

/// `[prefix.]name[<args>]`.
#[derive(Debug, PartialEq, Eq)]
pub struct NamedType {
    pub span: Span,
    pub prefix: Option<Token>,
    pub name: Token,
    pub generics: Option<TypeArgs>,
}

/// `<args>` of a named type.
#[derive(Debug, PartialEq, Eq)]
pub struct TypeArgs {
    pub span: Span,
    pub args: Punctuated<Type>,
}

/// `typeof(expr)`.
#[derive(Debug, PartialEq, Eq)]
pub struct TypeofType {
    pub span: Span,
    pub expr: Expression,
}

/// `{ fields }` as a type.
#[derive(Debug, PartialEq, Eq)]
pub struct TableType {
    pub span: Span,
    pub fields: Punctuated<TypeField>,
}

/// A field of a table type.
#[derive(Debug, PartialEq, Eq)]
pub enum TypeField {
    Named { span: Span, access: Option<Token>, name: Token, value: Type },
    Indexer { span: Span, access: Option<Token>, key: Type, value: Type },
    Array { span: Span, value: Type },
}

/// `<generics>(params) -> return_type`.
#[derive(Debug, PartialEq, Eq)]
pub struct FunctionType {
    pub span: Span,
    pub generics: Option<GenericTypeList>,
    pub params: Punctuated<FunctionTypeParam>,
    pub return_type: Type,
}

/// A parameter of a function type, optionally named.
#[derive(Debug, PartialEq, Eq)]
pub struct FunctionTypeParam {
    pub span: Span,
    pub name: Option<Token>,
    pub type_value: Type,
}

/// `T?`.
#[derive(Debug, PartialEq, Eq)]
pub struct OptionalType {
    pub span: Span,
    pub type_value: Type,
}

/// `A | B`.
#[derive(Debug, PartialEq, Eq)]
pub struct UnionType {
    pub span: Span,
    pub has_leading_pipe: bool,
    pub types: Punctuated<Type>,
}

/// `A & B`.
#[derive(Debug, PartialEq, Eq)]
pub struct IntersectionType {
    pub span: Span,
    pub has_leading_ampersand: bool,
    pub types: Punctuated<Type>,
}

/// `~T`.
#[derive(Debug, PartialEq, Eq)]
pub struct NegationType {
    pub span: Span,
    pub type_value: Type,
}

/// `(T)`.
#[derive(Debug, PartialEq, Eq)]
pub struct ParenType {
    pub span: Span,
    pub type_value: Type,
}

/// `(A, B, ...C)`.
#[derive(Debug, PartialEq, Eq)]
pub struct TypePack {
    pub span: Span,
    pub types: Punctuated<Type>,
}

/// `...T`.
#[derive(Debug, PartialEq, Eq)]
pub struct VariadicType {
    pub span: Span,
    pub type_value: Type,
}

/// `T...`.
#[derive(Debug, PartialEq, Eq)]
pub struct GenericPackType {
    pub span: Span,
    pub name: Token,
}

/// `<T, U...>`.
#[derive(Debug, PartialEq, Eq)]
pub struct GenericTypeList {
    pub span: Span,
    pub params: Punctuated<GenericTypeParam>,
}

/// One generic parameter, with its default.
#[derive(Debug, PartialEq, Eq)]
pub struct GenericTypeParam {
    pub span: Span,
    pub name: Token,
    pub is_pack: bool,
    pub default: Option<Type>,
}

// ----- spans -----

/// The span of a statement.
pub open spec fn stmt_span(node: Statement) -> Span {
    match node {
        Statement::Assignment(n) => n.span,
        Statement::FunctionCall(n) => n.span,
        Statement::DoBlock(n) => n.span,
        Statement::WhileLoop(n) => n.span,
        Statement::RepeatLoop(n) => n.span,
        Statement::IfStatement(n) => n.span,
        Statement::NumericFor(n) => n.span,
        Statement::GenericFor(n) => n.span,
        Statement::FunctionDecl(n) => n.span,
        Statement::LocalFunction(n) => n.span,
        Statement::LocalAssignment(n) => n.span,
        Statement::Goto(n) => n.span,
        Statement::Label(n) => n.span,
        Statement::GlobalDeclaration(n) => n.span,
        Statement::GlobalFunction(n) => n.span,
        Statement::GlobalStar(n) => n.span,
        Statement::CompoundAssignment(n) => n.span,
        Statement::TypeDeclaration(n) => n.span,
        Statement::EmptyStatement(span) => span,
        Statement::Break(span) => span,
        Statement::Error(span) => span,
    }
}

impl Statement {
    pub fn span(&self) -> (s: Span)
        ensures
            s == stmt_span(*self),
    {
        match self {
            Statement::Assignment(n) => n.span,
            Statement::FunctionCall(n) => n.span,
            Statement::DoBlock(n) => n.span,
            Statement::WhileLoop(n) => n.span,
            Statement::RepeatLoop(n) => n.span,
            Statement::IfStatement(n) => n.span,
            Statement::NumericFor(n) => n.span,
            Statement::GenericFor(n) => n.span,
            Statement::FunctionDecl(n) => n.span,
            Statement::LocalFunction(n) => n.span,
            Statement::LocalAssignment(n) => n.span,
            Statement::Goto(n) => n.span,
            Statement::Label(n) => n.span,
            Statement::GlobalDeclaration(n) => n.span,
            Statement::GlobalFunction(n) => n.span,
            Statement::GlobalStar(n) => n.span,
            Statement::CompoundAssignment(n) => n.span,
            Statement::TypeDeclaration(n) => n.span,
            Statement::EmptyStatement(span) => *span,
            Statement::Break(span) => *span,
            Statement::Error(span) => *span,
        }
    }
}

/// The span of a block's final statement.
pub open spec fn last_stmt_span(node: LastStatement) -> Span {
    match node {
        LastStatement::Return(n) => n.span,
        LastStatement::Break(span) => span,
        LastStatement::Continue(span) => span,
        LastStatement::Error(span) => span,
    }
}

impl LastStatement {
    pub fn span(&self) -> (s: Span)
        ensures
            s == last_stmt_span(*self),
    {
        match self {
            LastStatement::Return(n) => n.span,
            LastStatement::Break(span) => *span,
            LastStatement::Continue(span) => *span,
            LastStatement::Error(span) => *span,
        }
    }
}

/// The span of a variable reference.
pub open spec fn var_span(node: Var) -> Span {
    match node {
        Var::Index(n) => n.span,
        Var::FieldAccess(n) => n.span,
        Var::Name(t) => t.span,
    }
}

impl Var {
    pub fn span(&self) -> (s: Span)
        ensures
            s == var_span(*self),
    {
        match self {
            Var::Index(n) => n.span,
            Var::FieldAccess(n) => n.span,
            Var::Name(t) => t.span,
        }
    }
}

/// The span of an expression.
pub open spec fn expr_span(node: Expression) -> Span {
    match node {
        Expression::FunctionDef(n) => n.span,
        Expression::FunctionCall(n) => n.span,
        Expression::Parenthesized(n) => n.span,
        Expression::TableConstructor(n) => n.span,
        Expression::BinaryOp(n) => n.span,
        Expression::UnaryOp(n) => n.span,
        Expression::IfExpression(n) => n.span,
        Expression::InterpolatedString(n) => n.span,
        Expression::TypeCast(n) => n.span,
        Expression::Nil(span) => span,
        Expression::False(span) => span,
        Expression::True(span) => span,
        Expression::VarArg(span) => span,
        Expression::Error(span) => span,
        Expression::Number(l) => l.span,
        Expression::StringLiteral(l) => l.span,
        Expression::Var(v) => var_span(*v),
    }
}

impl Expression {
    pub fn span(&self) -> (s: Span)
        ensures
            s == expr_span(*self),
    {
        match self {
            Expression::FunctionDef(n) => n.span,
            Expression::FunctionCall(n) => n.span,
            Expression::Parenthesized(n) => n.span,
            Expression::TableConstructor(n) => n.span,
            Expression::BinaryOp(n) => n.span,
            Expression::UnaryOp(n) => n.span,
            Expression::IfExpression(n) => n.span,
            Expression::InterpolatedString(n) => n.span,
            Expression::TypeCast(n) => n.span,
            Expression::Nil(span) => *span,
            Expression::False(span) => *span,
            Expression::True(span) => *span,
            Expression::VarArg(span) => *span,
            Expression::Error(span) => *span,
            Expression::Number(l) => l.span,
            Expression::StringLiteral(l) => l.span,
            Expression::Var(v) => v.span(),
        }
    }
}

/// The span of a type annotation.
pub open spec fn type_span(node: Type) -> Span {
    match node {
        Type::Named(n) => n.span,
        Type::Typeof(n) => n.span,
        Type::Table(n) => n.span,
        Type::Function(n) => n.span,
        Type::Optional(n) => n.span,
        Type::Union(n) => n.span,
        Type::Intersection(n) => n.span,
        Type::Negation(n) => n.span,
        Type::Parenthesized(n) => n.span,
        Type::Pack(n) => n.span,
        Type::Variadic(n) => n.span,
        Type::GenericPack(n) => n.span,
        Type::Error(span) => span,
        Type::Singleton(t) => t.span,
    }
}

impl Type {
    pub fn span(&self) -> (s: Span)
        ensures
            s == type_span(*self),
    {
        match self {
            Type::Named(n) => n.span,
            Type::Typeof(n) => n.span,
            Type::Table(n) => n.span,
            Type::Function(n) => n.span,
            Type::Optional(n) => n.span,
            Type::Union(n) => n.span,
            Type::Intersection(n) => n.span,
            Type::Negation(n) => n.span,
            Type::Parenthesized(n) => n.span,
            Type::Pack(n) => n.span,
            Type::Variadic(n) => n.span,
            Type::GenericPack(n) => n.span,
            Type::Error(span) => *span,
            Type::Singleton(t) => t.span,
        }
    }
}

/// The span of a table field.
pub open spec fn field_span(node: Field) -> Span {
    match node {
        Field::Bracketed { span, .. } => span,
        Field::Named { span, .. } => span,
        Field::Positional { span, .. } => span,
    }
}

impl Field {
    pub fn span(&self) -> (s: Span)
        ensures
            s == field_span(*self),
    {
        match self {
            Field::Bracketed { span, .. } => *span,
            Field::Named { span, .. } => *span,
            Field::Positional { span, .. } => *span,
        }
    }
}

impl FunctionBody {
    /// The span of the closing `end` keyword: the last three bytes of the
    /// body's span. Meaningful only for parsed trees; a synthesized body's
    /// single-point span has no `end` in any source.
    pub fn end_keyword_span(&self) -> (s: Span)
        ensures
            s.start == (if self.span.end >= 3 { self.span.end - 3 } else { 0 }),
            s.end == self.span.end,
    {
        let start = if self.span.end >= 3 { self.span.end - 3 } else { 0 };
        Span { start, end: self.span.end }
    }
}

} // verus!
