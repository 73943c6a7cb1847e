//! Span allocation and the plain data of programmatic AST synthesis.
//!
//! Every synthesized node gets a fresh single-point span `Span::new(n, n)`
//! with `n` strictly increasing. The spans do not index into any source;
//! they keep nodes distinguishable for comment anchoring and diagnostics.
//! Spans are unique only within one `Synth`; give several synthesizers
//! disjoint ranges via [`Synth::starting_at`].

use vstd::prelude::*;
use crate::ast::{
    stmt_span,
    binop_precedence, Assignment, Assoc, TableType, TypeField, InterpSegment, InterpolatedString, CompoundAssignment, CompoundOp, FunctionType, FunctionTypeParam, TypeDeclaration, TypeDeclarationValue, GenericTypeParam, FuncName, FunctionDecl, FunctionAttribute, FunctionBody, FunctionDef, GenericTypeList,
    GlobalFunction, LocalFunction, Attribute, AttributedName, GenericPackType, GlobalDeclaration,
    GlobalStar, IntersectionType, LocalAssignment, OptionalType, ParenType, TypeArgs, TypePack, TypeofType,
    UnionType, VariadicType, BinOp, BinaryOp, Block, DoBlock, ElseClause, ElseIfClause,
    ElseIfExprClause, Expression, Field, FieldAccess, FunctionArgs, FunctionCall, FunctionCallStmt, GenericFor,
    GotoStatement, IfExpression, IfStatement, IndexExpression, LabelStatement, LastStatement, Literal, NamedType, TokenKind,
    NumericFor, Parameter, ParenExpression, RepeatLoop, ReturnStatement, Statement, TableConstructor, Token, Type,
    TypeCast, UnOp, UnaryOp, Var, VarArgParam, WhileLoop, UNARY_PRECEDENCE,
};
use crate::transform::reversed;
use crate::ident::{is_safe_field_name, spec_is_safe_field_name, spec_is_valid_identifier};
use crate::literal::{interp_body, interp_text, bytes_body, closes_early, long_bracket, long_string_text, quote_bytes, quote_utf8, quoted, utf8_body};
use crate::punctuated::Punctuated;
use crate::text::{decimal, push_decimal_u64};

verus! {

/// A byte range `start..end` of source text.
#[derive(Debug, Clone, Copy, PartialEq, Eq, Hash, Structural)]
pub struct Span {
    pub start: u32,
    pub end: u32,
}

impl Span {
    pub fn new(start: u32, end: u32) -> (s: Span)
        ensures
            s.start == start,
            s.end == end,
    {
        Span { start, end }
    }
}

// ----- what the constructors build -----

/// The single-point span at offset `o`.
pub open spec fn point(o: int) -> Span {
    Span { start: o as u32, end: o as u32 }
}

/// `(expr)`, its span at offset `o`.
pub open spec fn parenthesized(expr: Expression, o: int) -> Expression {
    Expression::Parenthesized(Box::new(ParenExpression { span: point(o), expr }))
}

/// A token spelled `text` at offset `o`.
pub open spec fn names_token(t: Token, text: Seq<char>, o: int) -> bool {
    is_token(t, TokenKind::Identifier, text, o)
}

/// A token of kind `kind` spelled `text` at offset `o`.
pub open spec fn is_token(t: Token, kind: TokenKind, text: Seq<char>, o: int) -> bool {
    t.kind == kind && t.text@ == text && t.span == point(o)
}

/// A literal spelled `text` at offset `o`.
pub open spec fn is_literal(l: Literal, text: Seq<char>, o: int) -> bool {
    l.text@ == text && l.span == point(o)
}

/// A number literal spelled `text` at offset `o`.
pub open spec fn is_number(e: Expression, text: Seq<char>, o: int) -> bool {
    match e {
        Expression::Number(l) => is_literal(l, text, o),
        _ => false,
    }
}

/// The double-quoted literal of `content` at offset `o`.
pub open spec fn is_quoted_string(e: Expression, content: Seq<char>, o: int) -> bool {
    match e {
        Expression::StringLiteral(l) => is_literal(l, quoted(utf8_body(content)), o),
        _ => false,
    }
}

/// Whether `e` can stand, unwrapped, as a call callee, a method receiver or
/// an index or field prefix: a variable, a call, or a parenthesized form.
pub open spec fn stands_in_prefix(e: Expression) -> bool {
    e is Var || e is FunctionCall || e is Parenthesized
}

/// Spans that putting `e` in prefix position takes: one for added parentheses.
pub open spec fn prefix_cost(e: Expression) -> int {
    if stands_in_prefix(e) { 0 } else { 1 }
}

/// `e` as it stands in prefix position, parenthesized at `o` where it must be.
pub open spec fn in_prefix(e: Expression, o: int) -> Expression {
    if stands_in_prefix(e) { e } else { parenthesized(e, o) }
}

/// `prefix.name`, the access's span at `o`, the prefix placed from `o + 1`.
pub open spec fn is_field_var(v: Var, prefix: Expression, name: Seq<char>, o: int) -> bool {
    match v {
        Var::FieldAccess(f) => f.span == point(o) && f.prefix == in_prefix(prefix, o + 1)
            && names_token(f.name, name, o + 1 + prefix_cost(prefix)),
        _ => false,
    }
}

/// `prefix[index]`, the index node's span at `o`, the prefix placed from `o + 1`.
pub open spec fn index_var_of(prefix: Expression, index: Expression, o: int) -> Var {
    Var::Index(Box::new(IndexExpression { span: point(o), prefix: in_prefix(prefix, o + 1), index }))
}

/// Whether `operand`, printed bare next to a binary operator of binding
/// `precedence` and grouping `assoc` (on its left side when `left`), would
/// be read back as a different tree.
pub open spec fn operand_needs_parens(operand: Expression, precedence: u8, assoc: Assoc, left: bool) -> bool {
    match operand {
        Expression::BinaryOp(inner) => {
            let inner_precedence = binop_precedence(inner.op).0;
            inner_precedence < precedence || (inner_precedence == precedence && assoc == (if left {
                Assoc::Right
            } else {
                Assoc::Left
            }))
        },
        Expression::UnaryOp(_) => left && precedence > UNARY_PRECEDENCE,
        Expression::IfExpression(_) => true,
        _ => false,
    }
}

/// Whether `operand` must be parenthesized on the given side of `op`.
pub open spec fn wraps_operand(operand: Expression, op: BinOp, left: bool) -> bool {
    operand_needs_parens(operand, binop_precedence(op).0, binop_precedence(op).1, left)
}

pub open spec fn operand_cost(operand: Expression, op: BinOp, left: bool) -> int {
    if wraps_operand(operand, op, left) { 1 } else { 0 }
}

/// `operand` as it stands on the given side of `op`, parenthesized at `o` where it must be.
pub open spec fn as_operand(operand: Expression, op: BinOp, left: bool, o: int) -> Expression {
    if wraps_operand(operand, op, left) { parenthesized(operand, o) } else { operand }
}

/// Spans that `lhs op rhs` takes: the node's own, and one per parenthesized operand.
pub open spec fn binop_cost(lhs: Expression, op: BinOp, rhs: Expression) -> int {
    operand_cost(lhs, op, true) + operand_cost(rhs, op, false) + 1
}

/// `lhs op rhs` built from offset `o`: the left operand's parentheses first,
/// then the right's, then the node itself.
pub open spec fn built_binop(lhs: Expression, op: BinOp, rhs: Expression, o: int) -> Expression {
    let c1 = operand_cost(lhs, op, true);
    let c2 = operand_cost(rhs, op, false);
    Expression::BinaryOp(
        Box::new(BinaryOp {
            span: point(o + c1 + c2),
            left: as_operand(lhs, op, true, o),
            op,
            right: as_operand(rhs, op, false, o + c1),
        }),
    )
}

/// A binary node whose operands, printed bare, read back as the same tree.
pub open spec fn operands_read_back(e: Expression) -> bool {
    match e {
        Expression::BinaryOp(b) => !wraps_operand(b.left, b.op, true) && !wraps_operand(b.right, b.op, false),
        _ => true,
    }
}

/// A unary operator takes a binary or if-expression operand only in parentheses.
pub open spec fn unop_wraps(operand: Expression) -> bool {
    operand is BinaryOp || operand is IfExpression
}

pub open spec fn built_unop(op: UnOp, operand: Expression, o: int) -> Expression {
    let c = if unop_wraps(operand) { 1int } else { 0int };
    Expression::UnaryOp(
        Box::new(UnaryOp {
            span: point(o + c),
            op,
            operand: if unop_wraps(operand) { parenthesized(operand, o) } else { operand },
        }),
    )
}

/// A cast binds to a simple expression: binary, unary and if-expression operands take parentheses.
pub open spec fn cast_wraps(expr: Expression) -> bool {
    expr is BinaryOp || expr is UnaryOp || expr is IfExpression
}

pub open spec fn built_cast(expr: Expression, type_value: Type, o: int) -> Expression {
    let c = if cast_wraps(expr) { 1int } else { 0int };
    Expression::TypeCast(
        Box::new(TypeCast {
            span: point(o + c),
            expr: if cast_wraps(expr) { parenthesized(expr, o) } else { expr },
            type_annotation: type_value,
        }),
    )
}

/// What `number_int(value)` builds from offset `o`: `i64::MIN` as its hex
/// form, another negative as `-` applied to its magnitude, the rest as decimals.
pub open spec fn renders_int(e: Expression, value: i64, o: int) -> bool {
    if value == i64::MIN {
        is_number(e, "0x8000000000000000"@, o)
    } else if value < 0 {
        match e {
            Expression::UnaryOp(u) => u.op == UnOp::Neg && u.span == point(o + 1) && is_number(
                u.operand,
                decimal((0 - value) as nat),
                o,
            ),
            _ => false,
        }
    } else {
        is_number(e, decimal(value as nat), o)
    }
}

/// A call node with its span at `o`, the callee placed from `o + 1`, and the
/// method name, if any, right after the callee. Its arguments are stated apart.
pub open spec fn is_call_shape(e: Expression, callee: Expression, method: Option<Seq<char>>, o: int) -> bool {
    match e {
        Expression::FunctionCall(c) => c.span == point(o) && c.callee == in_prefix(callee, o + 1) && match (
            method,
            c.method,
        ) {
            (Some(name), Some(t)) => names_token(t, name, o + 1 + prefix_cost(callee)),
            (None, None) => true,
            _ => false,
        },
        _ => false,
    }
}

/// The arguments of a call expression.
pub open spec fn call_args(e: Expression) -> FunctionArgs {
    match e {
        Expression::FunctionCall(c) => c.args,
        _ => arbitrary(),
    }
}

/// `(args)`, its span at `o`, with no trailing separator.
pub open spec fn is_paren_args(a: FunctionArgs, args: Seq<Expression>, o: int) -> bool {
    match a {
        FunctionArgs::Parenthesized { span, args: list } => span == point(o) && list@ == args
            && !list.has_trailing_separator,
        _ => false,
    }
}

/// The call inside a call expression.
pub open spec fn called(e: Expression) -> FunctionCall {
    match e {
        Expression::FunctionCall(c) => *c,
        _ => arbitrary(),
    }
}

pub open spec fn method_cost(method: Option<&str>) -> int {
    if method is Some { 1 } else { 0 }
}

pub open spec fn method_name(method: Option<&str>) -> Option<Seq<char>> {
    match method {
        Some(name) => Some(name@),
        None => None,
    }
}

/// A table field handed to [`Synth::table`], before the span the real
/// [`Field`] carries is filled in.
pub enum SynthField<'a> {
    Positional(Expression),
    Named(&'a str, Expression),
    Bracketed(Expression, Expression),
}

/// Spans one synthesized table field takes: its own, and its name's.
pub open spec fn field_cost(f: SynthField) -> int {
    if f is Named { 2 } else { 1 }
}

/// Spans the fields `fs` take, in order.
pub open spec fn fields_cost(fs: Seq<SynthField>) -> int
    decreases fs.len(),
{
    if fs.len() == 0 { 0 } else { fields_cost(fs.drop_last()) + field_cost(fs.last()) }
}

/// Every named field's name lexes as an identifier.
pub open spec fn field_names_valid(fs: Seq<SynthField>) -> bool {
    forall|i: int| 0 <= i < fs.len() ==> (#[trigger] fs[i] matches SynthField::Named(name, _) ==> spec_is_valid_identifier(name@))
}

/// `b` is the field `f` built from offset `o`.
pub open spec fn built_field(b: Field, f: SynthField, o: int) -> bool {
    match f {
        SynthField::Positional(value) => b == Field::Positional { span: point(o), value },
        SynthField::Named(name, value) => b matches Field::Named { span, name: t, value: v } && span == point(o)
            && names_token(t, name@, o + 1) && v == value,
        SynthField::Bracketed(key, value) => b == Field::Bracketed { span: point(o), key, value },
    }
}

/// The first `k` of `bs` are the fields `fs` built one after another from offset `o`.
pub open spec fn built_fields(bs: Seq<Field>, fs: Seq<SynthField>, o: int, k: int) -> bool {
    &&& bs.len() == k
    &&& forall|i: int| 0 <= i < k ==> built_field(#[trigger] bs[i], fs[i], o + fields_cost(fs.take(i)))
}

/// `{ fields }` built from offset `o`: the constructor's span, then each field's.
pub open spec fn is_table_ctor(t: TableConstructor, fs: Seq<SynthField>, o: int) -> bool {
    &&& t.span == point(o)
    &&& built_fields(t.fields@, fs, o + 1, fs.len() as int)
    &&& !t.fields.has_trailing_separator
}

pub proof fn lemma_fields_cost_prefix(fs: Seq<SynthField>, i: int)
    requires
        0 <= i < fs.len(),
    ensures
        fields_cost(fs.take(i + 1)) == fields_cost(fs.take(i)) + field_cost(fs[i]),
        fields_cost(fs.take(i + 1)) <= fields_cost(fs),
        fields_cost(fs.take(i)) >= 0,
    decreases fs.len(),
{
    assert(fs.take(i + 1).drop_last() =~= fs.take(i));
    if i + 1 < fs.len() {
        lemma_fields_cost_prefix(fs.drop_last(), i);
        assert(fs.drop_last().take(i + 1) =~= fs.take(i + 1));
        assert(fs.drop_last().take(i) =~= fs.take(i));
    } else {
        assert(fs.take(i + 1) =~= fs);
    }
    lemma_fields_cost_nonneg(fs.take(i));
}

pub proof fn lemma_fields_cost_nonneg(fs: Seq<SynthField>)
    ensures
        fields_cost(fs) >= 0,
    decreases fs.len(),
{
    if fs.len() > 0 {
        lemma_fields_cost_nonneg(fs.drop_last());
    }
}

/// The `elseif` clauses of an if-expression, built one span each from offset `o`.
pub open spec fn built_elseifs(cs: Seq<ElseIfExprClause>, es: Seq<(Expression, Expression)>, o: int, k: int) -> bool {
    &&& cs.len() == k
    &&& forall|i: int| 0 <= i < k ==> #[trigger] cs[i] == ElseIfExprClause { span: point(o + i), condition: es[i].0, expr: es[i].1 }
}

/// The `elseif` clauses of an if statement, built one span each from offset `o`.
pub open spec fn built_elseif_blocks(cs: Seq<ElseIfClause>, es: Seq<(Expression, Block)>, o: int, k: int) -> bool {
    &&& cs.len() == k
    &&& forall|i: int| 0 <= i < k ==> #[trigger] cs[i] == ElseIfClause { span: point(o + i), condition: es[i].0, block: es[i].1 }
}

/// A declared name spelled `name` at offset `o`, with no annotation and no attribute.
pub open spec fn is_plain_name(a: AttributedName, name: Seq<char>, o: int) -> bool {
    names_token(a.name, name, o) && a.type_annotation is None && a.attrib is None
}

/// `Some(list)` of `exprs` when there are any, `None` otherwise.
pub open spec fn optional_list(p: Option<Punctuated<Expression>>, exprs: Seq<Expression>) -> bool {
    if exprs.len() == 0 {
        p is None
    } else {
        p matches Some(list) && list@ == exprs && !list.has_trailing_separator
    }
}

/// A full function signature for the `*_full` constructors. The default is
/// an empty, untyped `()` signature.
#[derive(Debug)]
pub struct FnSig {
    /// Luau `<T, U...>` list before the parameter parens.
    pub generics: Option<GenericTypeList>,
    pub params: Vec<Parameter>,
    /// Trailing `...`, optionally typed.
    pub vararg: Option<VarArgParam>,
    /// Luau `: T` return annotation.
    pub return_type: Option<Type>,
}

impl Default for FnSig {
    fn default() -> (s: Self)
        ensures
            s.generics is None,
            s.params@.len() == 0,
            s.vararg is None,
            s.return_type is None,
    {
        FnSig { generics: None, params: Vec::new(), vararg: None, return_type: None }
    }
}

/// The function body of signature `sig` around `block`, its span at `o`.
pub open spec fn is_fn_body(b: FunctionBody, sig: FnSig, block: Block, o: int) -> bool {
    &&& b.span == point(o)
    &&& b.generics == match sig.generics {
        Some(g) => Some(Box::new(g)),
        None => None,
    }
    &&& b.params@ == sig.params@
    &&& !b.params.has_trailing_separator
    &&& b.vararg == sig.vararg
    &&& b.return_type == sig.return_type
    &&& b.block == block
}

/// The first `k` of `ps` are plain parameters named `names`, two spans each from offset `o`.
pub open spec fn built_params(ps: Seq<Parameter>, names: Seq<&str>, o: int, k: int) -> bool {
    &&& ps.len() == k
    &&& forall|i: int|
        0 <= i < k ==> (#[trigger] ps[i]).span == point(o + 2 * i) && names_token(ps[i].name, names[i]@, o + 2 * i + 1)
            && ps[i].type_annotation is None
}

/// The first `k` of `attrs` are `@name` attributes named `names`, two spans each from offset `o`.
pub open spec fn built_attributes(attrs: Seq<FunctionAttribute>, names: Seq<&str>, o: int, k: int) -> bool {
    &&& attrs.len() == k
    &&& forall|i: int|
        0 <= i < k ==> (#[trigger] attrs[i]).span == point(o + 2 * i) && names_token(
            attrs[i].name,
            names[i]@,
            o + 2 * i + 1,
        ) && attrs[i].args is None
}

/// Every name lexes as an identifier.
pub open spec fn all_identifiers(names: Seq<&str>) -> bool {
    forall|i: int| 0 <= i < names.len() ==> spec_is_valid_identifier(#[trigger] names[i]@)
}

/// The first `k` of `ts` are identifier tokens spelling `names`, one span each from offset `o`.
pub open spec fn built_idents(ts: Seq<Token>, names: Seq<&str>, o: int, k: int) -> bool {
    &&& ts.len() == k
    &&& forall|i: int| 0 <= i < k ==> names_token(#[trigger] ts[i], names[i]@, o + i)
}

/// `a.b.c[:m]` built from offset `o`: one span per path part, then the
/// name's own, then the method's.
pub open spec fn is_func_name(f: FuncName, path: Seq<&str>, method: Option<&str>, o: int) -> bool {
    &&& built_idents(f.names@, path, o, path.len() as int)
    &&& f.span == point(o + path.len())
    &&& match (method, f.method) {
        (Some(m), Some(t)) => names_token(t, m@, o + path.len() + 1),
        (None, None) => true,
        _ => false,
    }
}

/// Spans one function-type parameter takes: its own, and its name's if named.
pub open spec fn fn_param_cost(p: (Option<&str>, Type)) -> int {
    if p.0 is Some { 2 } else { 1 }
}

/// Spans the function-type parameters `ps` take, in order.
pub open spec fn fn_params_cost(ps: Seq<(Option<&str>, Type)>) -> int
    decreases ps.len(),
{
    if ps.len() == 0 { 0 } else { fn_params_cost(ps.drop_last()) + fn_param_cost(ps.last()) }
}

pub proof fn lemma_fn_params_cost_prefix(ps: Seq<(Option<&str>, Type)>, i: int)
    requires
        0 <= i < ps.len(),
    ensures
        fn_params_cost(ps.take(i + 1)) == fn_params_cost(ps.take(i)) + fn_param_cost(ps[i]),
        fn_params_cost(ps.take(i + 1)) <= fn_params_cost(ps),
        fn_params_cost(ps.take(i)) >= 0,
    decreases ps.len(),
{
    assert(ps.take(i + 1).drop_last() =~= ps.take(i));
    if i + 1 < ps.len() {
        lemma_fn_params_cost_prefix(ps.drop_last(), i);
        assert(ps.drop_last().take(i + 1) =~= ps.take(i + 1));
        assert(ps.drop_last().take(i) =~= ps.take(i));
    } else {
        assert(ps.take(i + 1) =~= ps);
    }
    lemma_fn_params_cost_nonneg(ps.take(i));
}

pub proof fn lemma_fn_params_cost_nonneg(ps: Seq<(Option<&str>, Type)>)
    ensures
        fn_params_cost(ps) >= 0,
    decreases ps.len(),
{
    if ps.len() > 0 {
        lemma_fn_params_cost_nonneg(ps.drop_last());
    }
}

/// `b` is the function-type parameter `p` built from offset `o`.
pub open spec fn built_fn_param(b: FunctionTypeParam, p: (Option<&str>, Type), o: int) -> bool {
    &&& b.span == point(o)
    &&& b.type_value == p.1
    &&& match (p.0, b.name) {
        (Some(name), Some(t)) => names_token(t, name@, o + 1),
        (None, None) => true,
        _ => false,
    }
}

/// The first `k` of `bs` are the parameters `ps` built one after another from offset `o`.
pub open spec fn built_fn_params(bs: Seq<FunctionTypeParam>, ps: Seq<(Option<&str>, Type)>, o: int, k: int) -> bool {
    &&& bs.len() == k
    &&& forall|i: int| 0 <= i < k ==> built_fn_param(#[trigger] bs[i], ps[i], o + fn_params_cost(ps.take(i)))
}

/// Every named parameter's name lexes as an identifier.
pub open spec fn fn_param_names_valid(ps: Seq<(Option<&str>, Type)>) -> bool {
    forall|i: int|
        0 <= i < ps.len() ==> match (#[trigger] ps[i]).0 {
            Some(name) => spec_is_valid_identifier(name@),
            None => true,
        }
}

/// A table-type field handed to [`Synth::ty_table`], before the spans the
/// real [`TypeField`] carries are filled in.
pub enum SynthTypeField<'a> {
    Named { access: Option<TypeFieldAccess>, name: &'a str, value: Type },
    Indexer { access: Option<TypeFieldAccess>, key: Type, value: Type },
    Array(Type),
}

/// The keyword of an access modifier.
pub open spec fn access_word(access: TypeFieldAccess) -> Seq<char> {
    match access {
        TypeFieldAccess::Read => "read"@,
        TypeFieldAccess::Write => "write"@,
    }
}

pub open spec fn access_cost(access: Option<TypeFieldAccess>) -> int {
    if access is Some { 1 } else { 0 }
}

/// Spans one synthesized table-type field takes.
pub open spec fn type_field_cost(f: SynthTypeField) -> int {
    match f {
        SynthTypeField::Named { access, .. } => 2 + access_cost(access),
        SynthTypeField::Indexer { access, .. } => 1 + access_cost(access),
        SynthTypeField::Array(_) => 1,
    }
}

pub open spec fn type_fields_cost(fs: Seq<SynthTypeField>) -> int
    decreases fs.len(),
{
    if fs.len() == 0 { 0 } else { type_fields_cost(fs.drop_last()) + type_field_cost(fs.last()) }
}

pub proof fn lemma_type_fields_cost_prefix(fs: Seq<SynthTypeField>, i: int)
    requires
        0 <= i < fs.len(),
    ensures
        type_fields_cost(fs.take(i + 1)) == type_fields_cost(fs.take(i)) + type_field_cost(fs[i]),
        type_fields_cost(fs.take(i + 1)) <= type_fields_cost(fs),
        type_fields_cost(fs.take(i)) >= 0,
    decreases fs.len(),
{
    assert(fs.take(i + 1).drop_last() =~= fs.take(i));
    if i + 1 < fs.len() {
        lemma_type_fields_cost_prefix(fs.drop_last(), i);
        assert(fs.drop_last().take(i + 1) =~= fs.take(i + 1));
        assert(fs.drop_last().take(i) =~= fs.take(i));
    } else {
        assert(fs.take(i + 1) =~= fs);
    }
    lemma_type_fields_cost_nonneg(fs.take(i));
}

pub proof fn lemma_type_fields_cost_nonneg(fs: Seq<SynthTypeField>)
    ensures
        type_fields_cost(fs) >= 0,
    decreases fs.len(),
{
    if fs.len() > 0 {
        lemma_type_fields_cost_nonneg(fs.drop_last());
    }
}

/// The access token built at offset `o`, if there is an access modifier.
pub open spec fn built_access(t: Option<Token>, access: Option<TypeFieldAccess>, o: int) -> bool {
    match (access, t) {
        (Some(a), Some(tok)) => names_token(tok, access_word(a), o),
        (None, None) => true,
        _ => false,
    }
}

/// `b` is the table-type field `f` built from offset `o`.
pub open spec fn built_type_field(b: TypeField, f: SynthTypeField, o: int) -> bool {
    match (f, b) {
        (SynthTypeField::Named { access, name, value }, TypeField::Named { span, access: a, name: n, value: v }) =>
            span == point(o) && built_access(a, access, o + 1) && names_token(n, name@, o + 1 + access_cost(access))
            && v == value,
        (SynthTypeField::Indexer { access, key, value }, TypeField::Indexer { span, access: a, key: k, value: v }) =>
            span == point(o) && built_access(a, access, o + 1) && k == key && v == value,
        (SynthTypeField::Array(value), TypeField::Array { span, value: v }) => span == point(o) && v == value,
        _ => false,
    }
}

pub open spec fn built_type_fields(bs: Seq<TypeField>, fs: Seq<SynthTypeField>, o: int, k: int) -> bool {
    &&& bs.len() == k
    &&& forall|i: int| 0 <= i < k ==> built_type_field(#[trigger] bs[i], fs[i], o + type_fields_cost(fs.take(i)))
}

/// Every named field's name lexes as an identifier.
pub open spec fn type_field_names_valid(fs: Seq<SynthTypeField>) -> bool {
    forall|i: int|
        0 <= i < fs.len() ==> match #[trigger] fs[i] {
            SynthTypeField::Named { name, .. } => spec_is_valid_identifier(name@),
            _ => true,
        }
}

/// The kind of segment `i` of an interpolated string of `n` segments: the
/// first opens it, the last (when there is more than one) closes it, the
/// others stand between two interpolations.
pub open spec fn interp_kind(i: int, n: int) -> TokenKind {
    if i == 0 {
        TokenKind::InterpBegin
    } else if i == n - 1 {
        TokenKind::InterpEnd
    } else {
        TokenKind::InterpMid
    }
}

/// Spans a synthesizer hands out are single points that strictly increase
/// over any number of calls: every allocation returns the point at the
/// current offset and moves the offset forward, so the offsets at which
/// successive nodes are built form a strictly increasing run, and so do
/// their spans.
pub proof fn law_spans_strictly_increase(offsets: Seq<int>)
    requires
        forall|i: int| 0 <= i < offsets.len() ==> 0 <= #[trigger] offsets[i] <= u32::MAX,
        forall|i: int| 0 <= i && i + 1 < offsets.len() ==> #[trigger] offsets[i] < offsets[i + 1],
    ensures
        forall|i: int| 0 <= i < offsets.len() ==> (#[trigger] point(offsets[i])).start == point(offsets[i]).end,
        forall|i: int, j: int|
            0 <= i < j < offsets.len() ==> (#[trigger] point(offsets[i])).start < (#[trigger] point(offsets[j])).start,
    decreases offsets.len(),
{
    if offsets.len() > 0 {
        let rest = offsets.drop_last();
        law_spans_strictly_increase(rest);
        assert forall|i: int, j: int| 0 <= i < j < offsets.len() implies (#[trigger] point(offsets[i])).start < (
        #[trigger] point(offsets[j])).start by {
            if j < offsets.len() - 1 {
                assert(rest[i] == offsets[i] && rest[j] == offsets[j]);
                assert(point(rest[i]).start < point(rest[j]).start);
            } else {
                assert(offsets[i] < offsets[j]) by {
                    lemma_run_increases(offsets, i, j);
                }
            }
        }
    }
}

proof fn lemma_run_increases(offsets: Seq<int>, i: int, j: int)
    requires
        forall|k: int| 0 <= k && k + 1 < offsets.len() ==> #[trigger] offsets[k] < offsets[k + 1],
        0 <= i < j < offsets.len(),
    ensures
        offsets[i] < offsets[j],
    decreases j - i,
{
    if j > i + 1 {
        lemma_run_increases(offsets, i, j - 1);
        assert(offsets[j - 1] < offsets[j]);
    } else {
        assert(offsets[i] < offsets[i + 1]);
    }
}

/// An operand that binds more loosely than the operator is parenthesized on
/// either side; in particular a sum or difference under `*`, `/`, `//` or
/// `%` is wrapped, so `(lo + hi) // 2` never prints as `lo + hi // 2`.
pub proof fn law_looser_operands_are_parenthesized(lhs: Expression, op: BinOp, rhs: Expression, o: int)
    ensures
        (lhs matches Expression::BinaryOp(inner) && binop_precedence(inner.op).0 < binop_precedence(op).0) ==> (
        built_binop(lhs, op, rhs, o) matches Expression::BinaryOp(b) && b.left is Parenthesized),
        (rhs matches Expression::BinaryOp(inner) && binop_precedence(inner.op).0 < binop_precedence(op).0) ==> (
        built_binop(lhs, op, rhs, o) matches Expression::BinaryOp(b) && b.right is Parenthesized),
        ((lhs matches Expression::BinaryOp(inner) && (inner.op == BinOp::Add || inner.op == BinOp::Sub)) && (op
            == BinOp::Mul || op == BinOp::Div || op == BinOp::FloorDiv || op == BinOp::Mod)) ==> (built_binop(
            lhs,
            op,
            rhs,
            o,
        ) matches Expression::BinaryOp(b) && b.left is Parenthesized),
{
    crate::ast::law_binding_powers_follow_the_manual();
}

/// Operand position relative to a binary operator.
#[derive(Clone, Copy, PartialEq, Eq)]
enum Side {
    Left,
    Right,
}

/// Monotonic span allocator behind the node constructors.
#[derive(Debug)]
pub struct Synth {
    pub next_offset: u32,
}

/// Luau `read`/`write` access modifier on a table-type field.
#[derive(Debug, Clone, Copy, PartialEq, Eq, Structural)]
pub enum TypeFieldAccess {
    Read,
    Write,
}

/// A comment to attach during a later formatting pass. Comments live in a
/// side table keyed by `attached_to`, so synthesis returns this as data for
/// the formatter to consume.
#[derive(Debug, Clone, PartialEq, Eq)]
pub struct SyntheticComment {
    pub attached_to: u32,
    pub text: String,
    pub is_leading: bool,
}

impl Synth {
    /// A synthesizer whose spans start at offset 0.
    pub fn new() -> (s: Self)
        ensures
            s.next_offset == 0,
    {
        Synth { next_offset: 0 }
    }

    /// A synthesizer whose spans start at `offset`. Use disjoint ranges when
    /// several synthesizers contribute to one tree, or when synthetic nodes
    /// are spliced into a parsed AST whose byte offsets they must not shadow.
    pub fn starting_at(offset: u32) -> (s: Self)
        ensures
            s.next_offset == offset,
    {
        Synth { next_offset: offset }
    }

    /// A fresh single-point span, one past the previous one. The offset
    /// counter must not be exhausted.
    pub fn next_span(&mut self) -> (span: Span)
        requires
            old(self).next_offset < u32::MAX,
        ensures
            span.start == old(self).next_offset,
            span.end == old(self).next_offset,
            final(self).next_offset == old(self).next_offset + 1,
    {
        let offset = self.next_offset;
        self.next_offset = offset + 1;
        Span::new(offset, offset)
    }

    /// An identifier token. The name must lex as an identifier.
    pub fn ident(&mut self, name: &str) -> (t: Token)
        requires
            old(self).next_offset < u32::MAX,
            spec_is_valid_identifier(name@),
        ensures
            names_token(t, name@, old(self).next_offset as int),
            final(self).next_offset == old(self).next_offset + 1,
    {
        let text = name.to_owned();
        Token { kind: TokenKind::Identifier, text, span: self.next_span() }
    }

    // ----- variables -----

    pub fn name_var(&mut self, name: &str) -> (v: Var)
        requires
            old(self).next_offset < u32::MAX,
            spec_is_valid_identifier(name@),
        ensures
            v matches Var::Name(t) && names_token(t, name@, old(self).next_offset as int),
            final(self).next_offset == old(self).next_offset + 1,
    {
        Var::Name(self.ident(name))
    }

    /// `prefix[index]`; a prefix that cannot stand bare is parenthesized.
    pub fn index_var(&mut self, prefix: Expression, index: Expression) -> (v: Var)
        requires
            old(self).next_offset + 1 + prefix_cost(prefix) <= u32::MAX,
        ensures
            v == index_var_of(prefix, index, old(self).next_offset as int),
            final(self).next_offset == old(self).next_offset + 1 + prefix_cost(prefix),
    {
        let span = self.next_span();
        let prefix = self.wrap_prefix(prefix);
        Var::Index(Box::new(IndexExpression { span, prefix, index }))
    }

    /// `prefix.name`; a prefix that cannot stand bare is parenthesized.
    pub fn field_var(&mut self, prefix: Expression, name: &str) -> (v: Var)
        requires
            old(self).next_offset + 2 + prefix_cost(prefix) <= u32::MAX,
            spec_is_valid_identifier(name@),
        ensures
            is_field_var(v, prefix, name@, old(self).next_offset as int),
            final(self).next_offset == old(self).next_offset + 2 + prefix_cost(prefix),
    {
        let span = self.next_span();
        let prefix = self.wrap_prefix(prefix);
        let name = self.ident(name);
        Var::FieldAccess(Box::new(FieldAccess { span, prefix, name }))
    }

    pub fn var_expr(&self, var: Var) -> (e: Expression)
        ensures
            e == Expression::Var(Box::new(var)),
    {
        Expression::Var(Box::new(var))
    }

    pub fn name_expr(&mut self, name: &str) -> (e: Expression)
        requires
            old(self).next_offset < u32::MAX,
            spec_is_valid_identifier(name@),
        ensures
            e matches Expression::Var(v) && *v matches Var::Name(t) && names_token(
                t,
                name@,
                old(self).next_offset as int,
            ),
            final(self).next_offset == old(self).next_offset + 1,
    {
        let var = self.name_var(name);
        self.var_expr(var)
    }

    pub fn index(&mut self, prefix: Expression, index: Expression) -> (e: Expression)
        requires
            old(self).next_offset + 1 + prefix_cost(prefix) <= u32::MAX,
        ensures
            e == Expression::Var(Box::new(index_var_of(prefix, index, old(self).next_offset as int))),
            final(self).next_offset == old(self).next_offset + 1 + prefix_cost(prefix),
    {
        let var = self.index_var(prefix, index);
        self.var_expr(var)
    }

    pub fn field(&mut self, prefix: Expression, name: &str) -> (e: Expression)
        requires
            old(self).next_offset + 2 + prefix_cost(prefix) <= u32::MAX,
            spec_is_valid_identifier(name@),
        ensures
            e matches Expression::Var(v) && is_field_var(*v, prefix, name@, old(self).next_offset as int),
            final(self).next_offset == old(self).next_offset + 2 + prefix_cost(prefix),
    {
        let var = self.field_var(prefix, name);
        self.var_expr(var)
    }

    /// `prefix.name` when `name` is a safe field name in every dialect,
    /// `prefix["name"]` otherwise.
    pub fn field_or_index(&mut self, prefix: Expression, name: &str) -> (e: Expression)
        requires
            old(self).next_offset + 2 + prefix_cost(prefix) <= u32::MAX,
        ensures
            ({
                let o = old(self).next_offset as int;
                if spec_is_safe_field_name(name@) {
                    e matches Expression::Var(v) && is_field_var(*v, prefix, name@, o)
                } else {
                    e matches Expression::Var(v) && *v matches Var::Index(ix) && ix.span == point(o + 1)
                        && ix.prefix == in_prefix(prefix, o + 2) && is_quoted_string(ix.index, name@, o)
                }
            }),
            final(self).next_offset == old(self).next_offset + 2 + prefix_cost(prefix),
    {
        if is_safe_field_name(name) {
            self.field(prefix, name)
        } else {
            let key = self.string(name);
            self.index(prefix, key)
        }
    }

    // ----- literals -----

    /// A number from already-formatted literal text.
    pub fn number(&mut self, text: &str) -> (e: Expression)
        requires
            old(self).next_offset < u32::MAX,
        ensures
            is_number(e, text@, old(self).next_offset as int),
            final(self).next_offset == old(self).next_offset + 1,
    {
        let text = text.to_owned();
        Expression::Number(Literal { text, span: self.next_span() })
    }

    /// Any `i64` as an expression that evaluates back to exactly `value`.
    pub fn number_int(&mut self, value: i64) -> (e: Expression)
        requires
            old(self).next_offset + (if i64::MIN < value < 0 { 2int } else { 1int }) <= u32::MAX,
        ensures
            renders_int(e, value, old(self).next_offset as int),
            final(self).next_offset == old(self).next_offset + (if i64::MIN < value < 0 {
                2int
            } else {
                1int
            }),
    {
        if value == i64::MIN {
            // The magnitude overflows a Lua 5.3+ integer literal and would
            // silently become a float; the hex form wraps to the intended value.
            return self.number("0x8000000000000000");
        }
        let negative = value < 0;
        let magnitude: u64 = if negative { (0 - value) as u64 } else { value as u64 };
        let mut text = String::new();
        push_decimal_u64(&mut text, magnitude);
        let literal = self.number(text.as_str());
        if negative {
            self.unop(UnOp::Neg, literal)
        } else {
            literal
        }
    }

    /// String literal from unquoted content; the stored token text is the
    /// raw double-quoted form.
    pub fn string(&mut self, content: &str) -> (e: Expression)
        requires
            old(self).next_offset < u32::MAX,
        ensures
            is_quoted_string(e, content@, old(self).next_offset as int),
            final(self).next_offset == old(self).next_offset + 1,
    {
        let text = quote_utf8(content);
        Expression::StringLiteral(Literal { text, span: self.next_span() })
    }

    pub fn nil(&mut self) -> (e: Expression)
        requires
            old(self).next_offset < u32::MAX,
        ensures
            e == Expression::Nil(point(old(self).next_offset as int)),
            final(self).next_offset == old(self).next_offset + 1,
    {
        Expression::Nil(self.next_span())
    }

    pub fn boolean(&mut self, value: bool) -> (e: Expression)
        requires
            old(self).next_offset < u32::MAX,
        ensures
            e == (if value {
                Expression::True(point(old(self).next_offset as int))
            } else {
                Expression::False(point(old(self).next_offset as int))
            }),
            final(self).next_offset == old(self).next_offset + 1,
    {
        if value {
            Expression::True(self.next_span())
        } else {
            Expression::False(self.next_span())
        }
    }

    // ----- operators -----

    /// `lhs op rhs`, parenthesizing either operand when precedence,
    /// associativity, or a greedy if-expression would otherwise change the
    /// parse.
    pub fn binop(&mut self, lhs: Expression, op: BinOp, rhs: Expression) -> (e: Expression)
        requires
            old(self).next_offset + binop_cost(lhs, op, rhs) <= u32::MAX,
        ensures
            e == built_binop(lhs, op, rhs, old(self).next_offset as int),
            operands_read_back(e),
            final(self).next_offset == old(self).next_offset + binop_cost(lhs, op, rhs),
    {
        let (precedence, assoc) = op.precedence();
        let lhs = self.wrap_binop_operand(lhs, precedence, assoc, Side::Left);
        let rhs = self.wrap_binop_operand(rhs, precedence, assoc, Side::Right);
        let span = self.next_span();
        Expression::BinaryOp(Box::new(BinaryOp { span, left: lhs, op, right: rhs }))
    }

    /// `op operand`, parenthesizing a binary or if-expression operand.
    pub fn unop(&mut self, op: UnOp, operand: Expression) -> (e: Expression)
        requires
            old(self).next_offset + (if unop_wraps(operand) { 2int } else { 1int }) <= u32::MAX,
        ensures
            e == built_unop(op, operand, old(self).next_offset as int),
            final(self).next_offset == old(self).next_offset + (if unop_wraps(operand) {
                2int
            } else {
                1int
            }),
    {
        let wrap = match &operand {
            Expression::BinaryOp(_) | Expression::IfExpression(_) => true,
            _ => false,
        };
        let operand = if wrap {
            self.paren(operand)
        } else {
            operand
        };
        let span = self.next_span();
        Expression::UnaryOp(Box::new(UnaryOp { span, op, operand }))
    }

    pub fn paren(&mut self, expr: Expression) -> (e: Expression)
        requires
            old(self).next_offset < u32::MAX,
        ensures
            e == parenthesized(expr, old(self).next_offset as int),
            final(self).next_offset == old(self).next_offset + 1,
    {
        let span = self.next_span();
        Expression::Parenthesized(Box::new(ParenExpression { span, expr }))
    }

    /// Luau type cast: `expr :: T`. The cast binds to a simple expression, so
    /// binary, unary, and if-expression operands are parenthesized.
    pub fn type_cast(&mut self, expr: Expression, type_value: Type) -> (e: Expression)
        requires
            old(self).next_offset + (if cast_wraps(expr) { 2int } else { 1int }) <= u32::MAX,
        ensures
            e == built_cast(expr, type_value, old(self).next_offset as int),
            final(self).next_offset == old(self).next_offset + (if cast_wraps(expr) {
                2int
            } else {
                1int
            }),
    {
        let wrap = match &expr {
            Expression::BinaryOp(_) | Expression::UnaryOp(_) | Expression::IfExpression(_) => true,
            _ => false,
        };
        let expr = if wrap {
            self.paren(expr)
        } else {
            expr
        };
        let span = self.next_span();
        Expression::TypeCast(Box::new(TypeCast { span, expr, type_annotation: type_value }))
    }

    fn wrap_binop_operand(
        &mut self,
        operand: Expression,
        parent_precedence: u8,
        parent_assoc: Assoc,
        side: Side,
    ) -> (e: Expression)
        requires
            old(self).next_offset + (if operand_needs_parens(
                operand,
                parent_precedence,
                parent_assoc,
                side == Side::Left,
            ) {
                1int
            } else {
                0int
            }) <= u32::MAX,
        ensures
            e == (if operand_needs_parens(operand, parent_precedence, parent_assoc, side == Side::Left) {
                parenthesized(operand, old(self).next_offset as int)
            } else {
                operand
            }),
            final(self).next_offset == old(self).next_offset + (if operand_needs_parens(
                operand,
                parent_precedence,
                parent_assoc,
                side == Side::Left,
            ) {
                1int
            } else {
                0int
            }),
    {
        let needs_parens = match &operand {
            Expression::BinaryOp(inner) => {
                let (inner_precedence, _) = inner.op.precedence();
                inner_precedence < parent_precedence || (inner_precedence == parent_precedence
                    && match side {
                    Side::Left => parent_assoc == Assoc::Right,
                    Side::Right => parent_assoc == Assoc::Left,
                })
            },
            // Only `^` binds tighter than unary; `a ^ -b` needs no parens
            // because a unary operator is always accepted after a binop.
            Expression::UnaryOp(_) => match side {
                Side::Left => parent_precedence > UNARY_PRECEDENCE,
                Side::Right => false,
            },
            // An if-expression extends greedily rightward; anything printed
            // after one would be swallowed into its else branch.
            Expression::IfExpression(_) => true,
            _ => false,
        };
        if needs_parens {
            self.paren(operand)
        } else {
            operand
        }
    }

    /// Parenthesize expressions that cannot stand in prefix position
    /// (call callee, method receiver, index/field prefix).
    fn wrap_prefix(&mut self, prefix: Expression) -> (e: Expression)
        requires
            old(self).next_offset + prefix_cost(prefix) <= u32::MAX,
        ensures
            e == in_prefix(prefix, old(self).next_offset as int),
            final(self).next_offset == old(self).next_offset + prefix_cost(prefix),
    {
        let stands = match &prefix {
            Expression::Var(_) | Expression::FunctionCall(_) | Expression::Parenthesized(_) => true,
            _ => false,
        };
        if stands {
            prefix
        } else {
            self.paren(prefix)
        }
    }

    // ----- calls -----

    pub fn call(&mut self, callee: Expression, args: Vec<Expression>) -> (e: Expression)
        requires
            old(self).next_offset + 2 + prefix_cost(callee) <= u32::MAX,
        ensures
            is_call_shape(e, callee, None, old(self).next_offset + 1),
            is_paren_args(call_args(e), args@, old(self).next_offset as int),
            final(self).next_offset == old(self).next_offset + 2 + prefix_cost(callee),
    {
        let args = self.paren_args(args);
        self.call_node(callee, None, args)
    }

    /// `receiver:name(args)`.
    pub fn method_call(&mut self, receiver: Expression, name: &str, args: Vec<Expression>) -> (e: Expression)
        requires
            old(self).next_offset + 3 + prefix_cost(receiver) <= u32::MAX,
            spec_is_valid_identifier(name@),
        ensures
            is_call_shape(e, receiver, Some(name@), old(self).next_offset + 1),
            is_paren_args(call_args(e), args@, old(self).next_offset as int),
            final(self).next_offset == old(self).next_offset + 3 + prefix_cost(receiver),
    {
        let args = self.paren_args(args);
        self.call_node(receiver, Some(name), args)
    }

    /// `callee"content"`: string argument form (content is unquoted).
    pub fn call_string(&mut self, callee: Expression, content: &str) -> (e: Expression)
        requires
            old(self).next_offset + 2 + prefix_cost(callee) <= u32::MAX,
        ensures
            is_call_shape(e, callee, None, old(self).next_offset + 1),
            call_args(e) matches FunctionArgs::StringLiteral(l) && is_literal(
                l,
                quoted(utf8_body(content@)),
                old(self).next_offset as int,
            ),
            final(self).next_offset == old(self).next_offset + 2 + prefix_cost(callee),
    {
        let text = quote_utf8(content);
        let args = FunctionArgs::StringLiteral(Literal { text, span: self.next_span() });
        self.call_node(callee, None, args)
    }

    /// `receiver:name"content"`.
    pub fn method_call_string(&mut self, receiver: Expression, name: &str, content: &str) -> (e: Expression)
        requires
            old(self).next_offset + 3 + prefix_cost(receiver) <= u32::MAX,
            spec_is_valid_identifier(name@),
        ensures
            is_call_shape(e, receiver, Some(name@), old(self).next_offset + 1),
            call_args(e) matches FunctionArgs::StringLiteral(l) && is_literal(
                l,
                quoted(utf8_body(content@)),
                old(self).next_offset as int,
            ),
            final(self).next_offset == old(self).next_offset + 3 + prefix_cost(receiver),
    {
        let text = quote_utf8(content);
        let args = FunctionArgs::StringLiteral(Literal { text, span: self.next_span() });
        self.call_node(receiver, Some(name), args)
    }

    fn call_node(&mut self, callee: Expression, method: Option<&str>, args: FunctionArgs) -> (e: Expression)
        requires
            old(self).next_offset + 1 + prefix_cost(callee) + method_cost(method) <= u32::MAX,
            method matches Some(name) ==> spec_is_valid_identifier(name@),
        ensures
            is_call_shape(e, callee, method_name(method), old(self).next_offset as int),
            call_args(e) == args,
            final(self).next_offset == old(self).next_offset + 1 + prefix_cost(callee) + method_cost(method),
    {
        let span = self.next_span();
        let callee = self.wrap_prefix(callee);
        let method = match method {
            Some(name) => Some(self.ident(name)),
            None => None,
        };
        Expression::FunctionCall(Box::new(FunctionCall { span, callee, args, method }))
    }

    /// A call expression as a statement; the expression must be a call.
    pub fn call_stmt(&mut self, call_expr: Expression) -> (s: Statement)
        requires
            old(self).next_offset < u32::MAX,
            call_expr is FunctionCall,
        ensures
            s == Statement::FunctionCall(
                Box::new(FunctionCallStmt { span: point(old(self).next_offset as int), call: called(call_expr) }),
            ),
            final(self).next_offset == old(self).next_offset + 1,
    {
        match call_expr {
            Expression::FunctionCall(call) => {
                let span = self.next_span();
                Statement::FunctionCall(Box::new(FunctionCallStmt { span, call: *call }))
            },
            _ => vstd::pervasive::unreached(),
        }
    }

    fn paren_args(&mut self, args: Vec<Expression>) -> (a: FunctionArgs)
        requires
            old(self).next_offset < u32::MAX,
        ensures
            is_paren_args(a, args@, old(self).next_offset as int),
            final(self).next_offset == old(self).next_offset + 1,
    {
        let span = self.next_span();
        FunctionArgs::Parenthesized { span, args: self.punctuated(args) }
    }

    // ----- tables -----

    pub fn table(&mut self, fields: Vec<SynthField<'_>>) -> (e: Expression)
        requires
            old(self).next_offset + 1 + fields_cost(fields@) <= u32::MAX,
            field_names_valid(fields@),
        ensures
            e matches Expression::TableConstructor(t) && is_table_ctor(*t, fields@, old(self).next_offset as int),
            final(self).next_offset == old(self).next_offset + 1 + fields_cost(fields@),
    {
        let ctor = self.table_ctor(fields);
        Expression::TableConstructor(Box::new(ctor))
    }

    /// `callee{ fields }`: table-constructor argument form.
    pub fn call_table(&mut self, callee: Expression, fields: Vec<SynthField<'_>>) -> (e: Expression)
        requires
            old(self).next_offset + 2 + fields_cost(fields@) + prefix_cost(callee) <= u32::MAX,
            field_names_valid(fields@),
        ensures
            is_call_shape(e, callee, None, old(self).next_offset + 1 + fields_cost(fields@)),
            call_args(e) matches FunctionArgs::TableConstructor(t) && is_table_ctor(
                *t,
                fields@,
                old(self).next_offset as int,
            ),
            final(self).next_offset == old(self).next_offset + 2 + fields_cost(fields@) + prefix_cost(callee),
    {
        let ctor = self.table_ctor(fields);
        let args = FunctionArgs::TableConstructor(Box::new(ctor));
        self.call_node(callee, None, args)
    }

    fn table_ctor(&mut self, fields: Vec<SynthField<'_>>) -> (t: TableConstructor)
        requires
            old(self).next_offset + 1 + fields_cost(fields@) <= u32::MAX,
            field_names_valid(fields@),
        ensures
            is_table_ctor(t, fields@, old(self).next_offset as int),
            final(self).next_offset == old(self).next_offset + 1 + fields_cost(fields@),
    {
        let ghost o = self.next_offset as int;
        let ghost fs = fields@;
        proof {
            lemma_fields_cost_nonneg(fs);
        }
        let n = fields.len();
        let span = self.next_span();
        let mut rest = reversed(fields);
        let mut built: Vec<Field> = Vec::new();
        proof {
            assert(fs.take(0) =~= Seq::<SynthField>::empty());
        }
        while rest.len() > 0
            invariant
                n == fs.len(),
                built@.len() + rest@.len() == n,
                forall|k: int| 0 <= k < rest@.len() ==> rest@[k] == fs[n - 1 - k],
                built_fields(built@, fs, o + 1, built@.len() as int),
                self.next_offset == o + 1 + fields_cost(fs.take(built@.len() as int)),
                o + 1 + fields_cost(fs) <= u32::MAX,
                field_names_valid(fs),
            decreases rest@.len(),
        {
            let ghost i = built@.len() as int;
            let ghost before = rest@;
            let f = rest.pop().unwrap();
            proof {
                assert(f == fs[i]);
                lemma_fields_cost_prefix(fs, i);
            }
            let field = match f {
                SynthField::Positional(value) => Field::Positional { span: self.next_span(), value },
                SynthField::Named(name, value) => {
                    let span = self.next_span();
                    let name = self.ident(name);
                    Field::Named { span, name, value }
                },
                SynthField::Bracketed(key, value) => Field::Bracketed { span: self.next_span(), key, value },
            };
            built.push(field);
            proof {
                assert forall|k: int| 0 <= k < rest@.len() implies rest@[k] == fs[n - 1 - k] by {
                    assert(rest@[k] == before[k]);
                }
            }
        }
        proof {
            assert(fs.take(n as int) =~= fs);
        }
        TableConstructor { span, fields: Punctuated::from_items(built) }
    }

    // ----- if-expressions -----

    /// Luau `if c then a {elseif c2 then b} else z` expression.
    pub fn if_expr(
        &mut self,
        cond: Expression,
        then_expr: Expression,
        elseifs: Vec<(Expression, Expression)>,
        else_expr: Expression,
    ) -> (e: Expression)
        requires
            old(self).next_offset + 1 + elseifs@.len() <= u32::MAX,
        ensures
            e matches Expression::IfExpression(x) && x.span == point(old(self).next_offset as int)
                && x.condition == cond && x.then_expr == then_expr && x.else_expr == else_expr
                && built_elseifs(x.elseif_clauses@, elseifs@, old(self).next_offset + 1, elseifs@.len() as int),
            final(self).next_offset == old(self).next_offset + 1 + elseifs@.len(),
    {
        let ghost o = self.next_offset as int;
        let ghost es = elseifs@;
        let n = elseifs.len();
        let span = self.next_span();
        let mut rest = reversed(elseifs);
        let mut elseif_clauses: Vec<ElseIfExprClause> = Vec::new();
        while rest.len() > 0
            invariant
                n == es.len(),
                elseif_clauses@.len() + rest@.len() == n,
                forall|k: int| 0 <= k < rest@.len() ==> rest@[k] == es[n - 1 - k],
                built_elseifs(elseif_clauses@, es, o + 1, elseif_clauses@.len() as int),
                self.next_offset == o + 1 + elseif_clauses@.len(),
                o + 1 + n <= u32::MAX,
            decreases rest@.len(),
        {
            let ghost before = rest@;
            let (condition, expr) = rest.pop().unwrap();
            let clause = ElseIfExprClause { span: self.next_span(), condition, expr };
            elseif_clauses.push(clause);
            proof {
                assert forall|k: int| 0 <= k < rest@.len() implies rest@[k] == es[n - 1 - k] by {
                    assert(rest@[k] == before[k]);
                }
            }
        }
        Expression::IfExpression(
            Box::new(IfExpression { span, condition: cond, then_expr, elseif_clauses, else_expr }),
        )
    }

    // ----- types -----

    /// The named type `name`.
    pub fn ty_named(&mut self, name: &str) -> (t: Type)
        requires
            old(self).next_offset + 2 <= u32::MAX,
            spec_is_valid_identifier(name@),
        ensures
            t matches Type::Named(n) && n.span == point(old(self).next_offset as int) && n.prefix is None
                && names_token(n.name, name@, old(self).next_offset + 1) && n.generics is None,
            final(self).next_offset == old(self).next_offset + 2,
    {
        let span = self.next_span();
        let name = self.ident(name);
        Type::Named(Box::new(NamedType { span, prefix: None, name, generics: None }))
    }

    // ----- statements -----

    /// `targets = values`.
    pub fn assign(&mut self, targets: Vec<Var>, values: Vec<Expression>) -> (s: Statement)
        requires
            old(self).next_offset < u32::MAX,
        ensures
            s matches Statement::Assignment(a) && a.span == point(old(self).next_offset as int) && a.targets@
                == targets@ && !a.targets.has_trailing_separator && a.values@ == values@
                && !a.values.has_trailing_separator,
            final(self).next_offset == old(self).next_offset + 1,
    {
        let span = self.next_span();
        Statement::Assignment(
            Box::new(Assignment { span, targets: self.punctuated(targets), values: self.punctuated(values) }),
        )
    }

    pub fn do_block(&mut self, block: Block) -> (s: Statement)
        requires
            old(self).next_offset < u32::MAX,
        ensures
            s == Statement::DoBlock(Box::new(DoBlock { span: point(old(self).next_offset as int), block })),
            final(self).next_offset == old(self).next_offset + 1,
    {
        let span = self.next_span();
        Statement::DoBlock(Box::new(DoBlock { span, block }))
    }

    pub fn while_(&mut self, cond: Expression, block: Block) -> (s: Statement)
        requires
            old(self).next_offset < u32::MAX,
        ensures
            s == Statement::WhileLoop(
                Box::new(WhileLoop { span: point(old(self).next_offset as int), condition: cond, block }),
            ),
            final(self).next_offset == old(self).next_offset + 1,
    {
        let span = self.next_span();
        Statement::WhileLoop(Box::new(WhileLoop { span, condition: cond, block }))
    }

    pub fn repeat_(&mut self, block: Block, cond: Expression) -> (s: Statement)
        requires
            old(self).next_offset < u32::MAX,
        ensures
            s == Statement::RepeatLoop(
                Box::new(RepeatLoop { span: point(old(self).next_offset as int), block, condition: cond }),
            ),
            final(self).next_offset == old(self).next_offset + 1,
    {
        let span = self.next_span();
        Statement::RepeatLoop(Box::new(RepeatLoop { span, block, condition: cond }))
    }

    /// `if cond then .. {elseif ..} [else ..] end`: the statement's span,
    /// then one per `elseif` clause, then the `else` clause's.
    pub fn if_(
        &mut self,
        cond: Expression,
        then_block: Block,
        elseifs: Vec<(Expression, Block)>,
        else_block: Option<Block>,
    ) -> (s: Statement)
        requires
            old(self).next_offset + 1 + elseifs@.len() + (if else_block is Some { 1int } else { 0int }) <= u32::MAX,
        ensures
            s matches Statement::IfStatement(x) && x.span == point(old(self).next_offset as int) && x.condition
                == cond && x.block == then_block && built_elseif_blocks(
                x.elseif_clauses@,
                elseifs@,
                old(self).next_offset + 1,
                elseifs@.len() as int,
            ) && x.else_clause == match else_block {
                Some(block) => Some(ElseClause { span: point(old(self).next_offset + 1 + elseifs@.len()), block }),
                None => None,
            },
            final(self).next_offset == old(self).next_offset + 1 + elseifs@.len() + (if else_block is Some {
                1int
            } else {
                0int
            }),
    {
        let ghost o = self.next_offset as int;
        let ghost es = elseifs@;
        let n = elseifs.len();
        let span = self.next_span();
        let mut rest = reversed(elseifs);
        let mut elseif_clauses: Vec<ElseIfClause> = Vec::new();
        while rest.len() > 0
            invariant
                n == es.len(),
                elseif_clauses@.len() + rest@.len() == n,
                forall|k: int| 0 <= k < rest@.len() ==> rest@[k] == es[n - 1 - k],
                built_elseif_blocks(elseif_clauses@, es, o + 1, elseif_clauses@.len() as int),
                self.next_offset == o + 1 + elseif_clauses@.len(),
                o + 1 + n <= u32::MAX,
            decreases rest@.len(),
        {
            let ghost before = rest@;
            let (condition, block) = rest.pop().unwrap();
            let clause = ElseIfClause { span: self.next_span(), condition, block };
            elseif_clauses.push(clause);
            proof {
                assert forall|k: int| 0 <= k < rest@.len() implies rest@[k] == es[n - 1 - k] by {
                    assert(rest@[k] == before[k]);
                }
            }
        }
        let else_clause = match else_block {
            Some(block) => Some(ElseClause { span: self.next_span(), block }),
            None => None,
        };
        Statement::IfStatement(
            Box::new(IfStatement { span, condition: cond, block: then_block, elseif_clauses, else_clause }),
        )
    }

    /// `for var = start, limit [, step] do block end`.
    pub fn numeric_for(
        &mut self,
        var: Parameter,
        start: Expression,
        limit: Expression,
        step: Option<Expression>,
        block: Block,
    ) -> (s: Statement)
        requires
            old(self).next_offset < u32::MAX,
        ensures
            s == Statement::NumericFor(
                Box::new(NumericFor {
                    span: point(old(self).next_offset as int),
                    name: var.name,
                    type_annotation: var.type_annotation,
                    start,
                    limit,
                    step,
                    block,
                }),
            ),
            final(self).next_offset == old(self).next_offset + 1,
    {
        let span = self.next_span();
        let Parameter { span: _, name, type_annotation } = var;
        Statement::NumericFor(Box::new(NumericFor { span, name, type_annotation, start, limit, step, block }))
    }

    /// `for names in exprs do block end`.
    pub fn generic_for(&mut self, names: Vec<Parameter>, exprs: Vec<Expression>, block: Block) -> (s: Statement)
        requires
            old(self).next_offset < u32::MAX,
        ensures
            s matches Statement::GenericFor(f) && f.span == point(old(self).next_offset as int) && f.names@
                == names@ && !f.names.has_trailing_separator && f.exprs@ == exprs@
                && !f.exprs.has_trailing_separator && f.block == block,
            final(self).next_offset == old(self).next_offset + 1,
    {
        let span = self.next_span();
        Statement::GenericFor(
            Box::new(GenericFor { span, names: self.punctuated(names), exprs: self.punctuated(exprs), block }),
        )
    }

    /// `goto label` (Lua 5.2+).
    pub fn goto_(&mut self, label: &str) -> (s: Statement)
        requires
            old(self).next_offset + 2 <= u32::MAX,
            spec_is_valid_identifier(label@),
        ensures
            s matches Statement::Goto(g) && g.span == point(old(self).next_offset as int) && names_token(
                g.name,
                label@,
                old(self).next_offset + 1,
            ),
            final(self).next_offset == old(self).next_offset + 2,
    {
        let span = self.next_span();
        let name = self.ident(label);
        Statement::Goto(Box::new(GotoStatement { span, name }))
    }

    /// `::name::` label (Lua 5.2+).
    pub fn label(&mut self, name: &str) -> (s: Statement)
        requires
            old(self).next_offset + 2 <= u32::MAX,
            spec_is_valid_identifier(name@),
        ensures
            s matches Statement::Label(l) && l.span == point(old(self).next_offset as int) && names_token(
                l.name,
                name@,
                old(self).next_offset + 1,
            ),
            final(self).next_offset == old(self).next_offset + 2,
    {
        let span = self.next_span();
        let name = self.ident(name);
        Statement::Label(Box::new(LabelStatement { span, name }))
    }

    /// Mid-block `break` (Lua 5.2+; 5.1 and Luau restrict `break` to the
    /// last statement, where [`Synth::break_`] builds it).
    pub fn break_stmt(&mut self) -> (s: Statement)
        requires
            old(self).next_offset < u32::MAX,
        ensures
            s == Statement::Break(point(old(self).next_offset as int)),
            final(self).next_offset == old(self).next_offset + 1,
    {
        Statement::Break(self.next_span())
    }

    /// Bare `;` (Lua 5.2+).
    pub fn empty_stmt(&mut self) -> (s: Statement)
        requires
            old(self).next_offset < u32::MAX,
        ensures
            s == Statement::EmptyStatement(point(old(self).next_offset as int)),
            final(self).next_offset == old(self).next_offset + 1,
    {
        Statement::EmptyStatement(self.next_span())
    }

    pub fn return_(&mut self, exprs: Vec<Expression>) -> (s: LastStatement)
        requires
            old(self).next_offset < u32::MAX,
        ensures
            s matches LastStatement::Return(r) && r.span == point(old(self).next_offset as int) && r.exprs@
                == exprs@ && !r.exprs.has_trailing_separator,
            final(self).next_offset == old(self).next_offset + 1,
    {
        let span = self.next_span();
        LastStatement::Return(Box::new(ReturnStatement { span, exprs: self.punctuated(exprs) }))
    }

    pub fn break_(&mut self) -> (s: LastStatement)
        requires
            old(self).next_offset < u32::MAX,
        ensures
            s == LastStatement::Break(point(old(self).next_offset as int)),
            final(self).next_offset == old(self).next_offset + 1,
    {
        LastStatement::Break(self.next_span())
    }

    /// Luau `continue`.
    pub fn continue_(&mut self) -> (s: LastStatement)
        requires
            old(self).next_offset < u32::MAX,
        ensures
            s == LastStatement::Continue(point(old(self).next_offset as int)),
            final(self).next_offset == old(self).next_offset + 1,
    {
        LastStatement::Continue(self.next_span())
    }

    pub fn block(&mut self, stmts: Vec<Statement>, last: Option<LastStatement>) -> (b: Block)
        requires
            old(self).next_offset < u32::MAX,
        ensures
            b.span == point(old(self).next_offset as int),
            b.stmts@ == stmts@,
            b.last_stmt == match last {
                Some(l) => Some(Box::new(l)),
                None => None,
            },
            final(self).next_offset == old(self).next_offset + 1,
    {
        let span = self.next_span();
        let last_stmt = match last {
            Some(l) => Some(Box::new(l)),
            None => None,
        };
        Block { span, stmts, last_stmt }
    }

    // ----- parameters -----

    pub fn param(&mut self, name: &str) -> (p: Parameter)
        requires
            old(self).next_offset + 2 <= u32::MAX,
            spec_is_valid_identifier(name@),
        ensures
            p.span == point(old(self).next_offset as int),
            names_token(p.name, name@, old(self).next_offset + 1),
            p.type_annotation is None,
            final(self).next_offset == old(self).next_offset + 2,
    {
        let span = self.next_span();
        let name = self.ident(name);
        Parameter { span, name, type_annotation: None }
    }

    pub fn param_typed(&mut self, name: &str, ty: Type) -> (p: Parameter)
        requires
            old(self).next_offset + 2 <= u32::MAX,
            spec_is_valid_identifier(name@),
        ensures
            p.span == point(old(self).next_offset as int),
            names_token(p.name, name@, old(self).next_offset + 1),
            p.type_annotation == Some(ty),
            final(self).next_offset == old(self).next_offset + 2,
    {
        let span = self.next_span();
        let name = self.ident(name);
        Parameter { span, name, type_annotation: Some(ty) }
    }

    /// A trailing `...` parameter, optionally with a Luau pack annotation.
    pub fn vararg_param(&mut self, type_annotation: Option<Type>) -> (p: VarArgParam)
        requires
            old(self).next_offset < u32::MAX,
        ensures
            p == (VarArgParam { span: point(old(self).next_offset as int), name: None, type_annotation }),
            final(self).next_offset == old(self).next_offset + 1,
    {
        let span = self.next_span();
        VarArgParam { span, name: None, type_annotation }
    }

    pub fn vararg(&mut self) -> (e: Expression)
        requires
            old(self).next_offset < u32::MAX,
        ensures
            e == Expression::VarArg(point(old(self).next_offset as int)),
            final(self).next_offset == old(self).next_offset + 1,
    {
        Expression::VarArg(self.next_span())
    }

    // ----- declarations -----

    /// `local names = exprs` with plain untyped names: one span per name,
    /// then the statement's.
    pub fn local(&mut self, names: &[&str], exprs: Vec<Expression>) -> (s: Statement)
        requires
            old(self).next_offset + names@.len() + 1 <= u32::MAX,
            forall|i: int| 0 <= i < names@.len() ==> spec_is_valid_identifier(#[trigger] names@[i]@),
        ensures
            s matches Statement::LocalAssignment(l) && l.span == point(old(self).next_offset + names@.len())
                && l.names@.len() == names@.len() && !l.names.has_trailing_separator && (forall|i: int|
                0 <= i < names@.len() ==> is_plain_name(#[trigger] l.names@[i], names@[i]@, old(self).next_offset + i))
                && optional_list(l.exprs, exprs@) && !l.is_const,
            final(self).next_offset == old(self).next_offset + names@.len() + 1,
    {
        let ghost o = self.next_offset as int;
        let mut built: Vec<AttributedName> = Vec::new();
        let mut i: usize = 0;
        while i < names.len()
            invariant
                i <= names@.len(),
                built@.len() == i,
                self.next_offset == o + i,
                o + names@.len() + 1 <= u32::MAX,
                forall|j: int| 0 <= j < names@.len() ==> spec_is_valid_identifier(#[trigger] names@[j]@),
                forall|j: int| 0 <= j < i ==> is_plain_name(#[trigger] built@[j], names@[j]@, o + j),
            decreases names@.len() - i,
        {
            let name = self.attributed_name(names[i], None, None);
            built.push(name);
            i = i + 1;
        }
        self.local_full(built, exprs)
    }

    /// `local names [= exprs]` from prepared names.
    pub fn local_full(&mut self, names: Vec<AttributedName>, exprs: Vec<Expression>) -> (s: Statement)
        requires
            old(self).next_offset < u32::MAX,
        ensures
            s matches Statement::LocalAssignment(l) && l.span == point(old(self).next_offset as int) && l.names@
                == names@ && !l.names.has_trailing_separator && optional_list(l.exprs, exprs@) && !l.is_const,
            final(self).next_offset == old(self).next_offset + 1,
    {
        let span = self.next_span();
        let names = self.punctuated(names);
        let exprs = if exprs.len() == 0 {
            None
        } else {
            Some(self.punctuated(exprs))
        };
        Statement::LocalAssignment(Box::new(LocalAssignment { span, names, exprs, is_const: false }))
    }

    /// One declared name: an optional Luau type annotation and an optional
    /// Lua 5.4 attribute keyword (`"const"` / `"close"`). The name's token
    /// comes first, then the attribute's span and keyword.
    pub fn attributed_name(&mut self, name: &str, ty: Option<Type>, attrib: Option<&str>) -> (a: AttributedName)
        requires
            old(self).next_offset + 1 + 2 * method_cost(attrib) <= u32::MAX,
            spec_is_valid_identifier(name@),
            attrib matches Some(word) ==> spec_is_valid_identifier(word@),
        ensures
            names_token(a.name, name@, old(self).next_offset as int),
            a.type_annotation == ty,
            match attrib {
                Some(word) => a.attrib matches Some(at) && at.span == point(old(self).next_offset + 1)
                    && names_token(at.name, word@, old(self).next_offset + 2),
                None => a.attrib is None,
            },
            final(self).next_offset == old(self).next_offset + 1 + 2 * method_cost(attrib),
    {
        let name = self.ident(name);
        let attrib = match attrib {
            Some(word) => {
                let span = self.next_span();
                Some(Attribute { span, name: self.ident(word) })
            },
            None => None,
        };
        AttributedName { name, type_annotation: ty, attrib }
    }

    /// Lua 5.5 `global names [= exprs]` declaration.
    pub fn global_decl(&mut self, names: Vec<AttributedName>, exprs: Vec<Expression>) -> (s: Statement)
        requires
            old(self).next_offset < u32::MAX,
        ensures
            s matches Statement::GlobalDeclaration(g) && g.span == point(old(self).next_offset as int) && g.names@
                == names@ && !g.names.has_trailing_separator && optional_list(g.exprs, exprs@),
            final(self).next_offset == old(self).next_offset + 1,
    {
        let span = self.next_span();
        let names = self.punctuated(names);
        let exprs = if exprs.len() == 0 {
            None
        } else {
            Some(self.punctuated(exprs))
        };
        Statement::GlobalDeclaration(Box::new(GlobalDeclaration { span, names, exprs }))
    }

    /// Lua 5.5 `global *` / `global <attrib> *`.
    pub fn global_star(&mut self, attrib: Option<&str>) -> (s: Statement)
        requires
            old(self).next_offset + 1 + 2 * method_cost(attrib) <= u32::MAX,
            attrib matches Some(word) ==> spec_is_valid_identifier(word@),
        ensures
            s matches Statement::GlobalStar(g) && g.span == point(old(self).next_offset as int) && match attrib {
                Some(word) => g.attrib matches Some(at) && at.span == point(old(self).next_offset + 1)
                    && names_token(at.name, word@, old(self).next_offset + 2),
                None => g.attrib is None,
            },
            final(self).next_offset == old(self).next_offset + 1 + 2 * method_cost(attrib),
    {
        let span = self.next_span();
        let attrib = match attrib {
            Some(word) => {
                let span = self.next_span();
                Some(Attribute { span, name: self.ident(word) })
            },
            None => None,
        };
        Statement::GlobalStar(Box::new(GlobalStar { span, attrib }))
    }

    // ----- more types -----

    /// `module.name`.
    pub fn ty_qualified(&mut self, module: &str, name: &str) -> (t: Type)
        requires
            old(self).next_offset + 3 <= u32::MAX,
            spec_is_valid_identifier(module@),
            spec_is_valid_identifier(name@),
        ensures
            t matches Type::Named(n) && n.span == point(old(self).next_offset as int) && match n.prefix {
                Some(p) => names_token(p, module@, old(self).next_offset + 1),
                None => false,
            } && names_token(n.name, name@, old(self).next_offset + 2) && n.generics is None,
            final(self).next_offset == old(self).next_offset + 3,
    {
        let span = self.next_span();
        let prefix = Some(self.ident(module));
        let name = self.ident(name);
        Type::Named(Box::new(NamedType { span, prefix, name, generics: None }))
    }

    /// `name<args>`.
    pub fn ty_generic(&mut self, name: &str, args: Vec<Type>) -> (t: Type)
        requires
            old(self).next_offset + 3 <= u32::MAX,
            spec_is_valid_identifier(name@),
        ensures
            t matches Type::Named(n) && n.span == point(old(self).next_offset as int) && n.prefix is None
                && names_token(n.name, name@, old(self).next_offset + 1) && match n.generics {
                Some(g) => g.span == point(old(self).next_offset + 2) && g.args@ == args@
                    && !g.args.has_trailing_separator,
                None => false,
            },
            final(self).next_offset == old(self).next_offset + 3,
    {
        let span = self.next_span();
        let name = self.ident(name);
        let generics_span = self.next_span();
        let generics = TypeArgs { span: generics_span, args: self.punctuated(args) };
        Type::Named(Box::new(NamedType { span, prefix: None, name, generics: Some(generics) }))
    }

    /// `typeof(expr)`.
    pub fn ty_typeof(&mut self, expr: Expression) -> (t: Type)
        requires
            old(self).next_offset < u32::MAX,
        ensures
            t == Type::Typeof(Box::new(TypeofType { span: point(old(self).next_offset as int), expr })),
            final(self).next_offset == old(self).next_offset + 1,
    {
        let span = self.next_span();
        Type::Typeof(Box::new(TypeofType { span, expr }))
    }

    /// `T?`.
    pub fn ty_optional(&mut self, inner: Type) -> (t: Type)
        requires
            old(self).next_offset < u32::MAX,
        ensures
            t == Type::Optional(Box::new(OptionalType { span: point(old(self).next_offset as int), type_value: inner })),
            final(self).next_offset == old(self).next_offset + 1,
    {
        let span = self.next_span();
        Type::Optional(Box::new(OptionalType { span, type_value: inner }))
    }

    /// `A | B | ...`, with no leading `|`.
    pub fn ty_union(&mut self, types: Vec<Type>) -> (t: Type)
        requires
            old(self).next_offset < u32::MAX,
        ensures
            t matches Type::Union(u) && u.span == point(old(self).next_offset as int) && !u.has_leading_pipe
                && u.types@ == types@ && !u.types.has_trailing_separator,
            final(self).next_offset == old(self).next_offset + 1,
    {
        let span = self.next_span();
        Type::Union(Box::new(UnionType { span, has_leading_pipe: false, types: self.punctuated(types) }))
    }

    /// `A & B & ...`, with no leading `&`.
    pub fn ty_intersection(&mut self, types: Vec<Type>) -> (t: Type)
        requires
            old(self).next_offset < u32::MAX,
        ensures
            t matches Type::Intersection(x) && x.span == point(old(self).next_offset as int)
                && !x.has_leading_ampersand && x.types@ == types@ && !x.types.has_trailing_separator,
            final(self).next_offset == old(self).next_offset + 1,
    {
        let span = self.next_span();
        Type::Intersection(
            Box::new(IntersectionType { span, has_leading_ampersand: false, types: self.punctuated(types) }),
        )
    }

    /// `(T)`.
    pub fn ty_paren(&mut self, inner: Type) -> (t: Type)
        requires
            old(self).next_offset < u32::MAX,
        ensures
            t == Type::Parenthesized(Box::new(ParenType { span: point(old(self).next_offset as int), type_value: inner })),
            final(self).next_offset == old(self).next_offset + 1,
    {
        let span = self.next_span();
        Type::Parenthesized(Box::new(ParenType { span, type_value: inner }))
    }

    /// A string singleton type: the double-quoted literal of `content`.
    pub fn ty_singleton_string(&mut self, content: &str) -> (t: Type)
        requires
            old(self).next_offset < u32::MAX,
        ensures
            t matches Type::Singleton(tok) && is_token(
                tok,
                TokenKind::StringLiteral,
                quoted(utf8_body(content@)),
                old(self).next_offset as int,
            ),
            final(self).next_offset == old(self).next_offset + 1,
    {
        let text = quote_utf8(content);
        Type::Singleton(Token { kind: TokenKind::StringLiteral, text, span: self.next_span() })
    }

    /// `true` / `false` singleton type.
    pub fn ty_singleton_bool(&mut self, value: bool) -> (t: Type)
        requires
            old(self).next_offset < u32::MAX,
        ensures
            t matches Type::Singleton(tok) && is_token(
                tok,
                if value { TokenKind::True } else { TokenKind::False },
                if value { "true"@ } else { "false"@ },
                old(self).next_offset as int,
            ),
            final(self).next_offset == old(self).next_offset + 1,
    {
        let text = if value { "true".to_owned() } else { "false".to_owned() };
        let kind = if value { TokenKind::True } else { TokenKind::False };
        Type::Singleton(Token { kind, text, span: self.next_span() })
    }

    /// `nil` singleton type.
    pub fn ty_singleton_nil(&mut self) -> (t: Type)
        requires
            old(self).next_offset < u32::MAX,
        ensures
            t matches Type::Singleton(tok) && is_token(tok, TokenKind::Nil, "nil"@, old(self).next_offset as int),
            final(self).next_offset == old(self).next_offset + 1,
    {
        let text = "nil".to_owned();
        Type::Singleton(Token { kind: TokenKind::Nil, text, span: self.next_span() })
    }

    /// `(A, B, ...)` type pack.
    pub fn ty_pack(&mut self, types: Vec<Type>) -> (t: Type)
        requires
            old(self).next_offset < u32::MAX,
        ensures
            t matches Type::Pack(p) && p.span == point(old(self).next_offset as int) && p.types@ == types@
                && !p.types.has_trailing_separator,
            final(self).next_offset == old(self).next_offset + 1,
    {
        let span = self.next_span();
        Type::Pack(Box::new(TypePack { span, types: self.punctuated(types) }))
    }

    /// `...T` variadic pack element.
    pub fn ty_variadic(&mut self, element: Type) -> (t: Type)
        requires
            old(self).next_offset < u32::MAX,
        ensures
            t == Type::Variadic(Box::new(VariadicType { span: point(old(self).next_offset as int), type_value: element })),
            final(self).next_offset == old(self).next_offset + 1,
    {
        let span = self.next_span();
        Type::Variadic(Box::new(VariadicType { span, type_value: element }))
    }

    /// `T...` generic pack reference.
    pub fn ty_generic_pack(&mut self, name: &str) -> (t: Type)
        requires
            old(self).next_offset + 2 <= u32::MAX,
            spec_is_valid_identifier(name@),
        ensures
            t matches Type::GenericPack(g) && g.span == point(old(self).next_offset as int) && names_token(
                g.name,
                name@,
                old(self).next_offset + 1,
            ),
            final(self).next_offset == old(self).next_offset + 2,
    {
        let span = self.next_span();
        let name = self.ident(name);
        Type::GenericPack(Box::new(GenericPackType { span, name }))
    }

    // ----- functions -----

    /// `function(params) body end` with plain untyped parameters: the
    /// parameters' spans first, then the definition's, then the body's.
    pub fn function_def(&mut self, params: &[&str], body: Block) -> (e: Expression)
        requires
            old(self).next_offset + 2 * params@.len() + 2 <= u32::MAX,
            all_identifiers(params@),
        ensures
            e matches Expression::FunctionDef(f) && f.span == point(old(self).next_offset + 2 * params@.len())
                && f.attributes@.len() == 0 && f.body.span == point(old(self).next_offset + 2 * params@.len() + 1)
                && f.body.generics is None && built_params(
                f.body.params@,
                params@,
                old(self).next_offset as int,
                params@.len() as int,
            ) && !f.body.params.has_trailing_separator && f.body.vararg is None && f.body.return_type is None
                && f.body.block == body,
            final(self).next_offset == old(self).next_offset + 2 * params@.len() + 2,
    {
        let params = self.params(params);
        let sig = FnSig { generics: None, params, vararg: None, return_type: None };
        self.function_def_full(sig, body)
    }

    pub fn function_def_full(&mut self, sig: FnSig, body: Block) -> (e: Expression)
        requires
            old(self).next_offset + 2 <= u32::MAX,
        ensures
            e matches Expression::FunctionDef(f) && f.span == point(old(self).next_offset as int)
                && f.attributes@.len() == 0 && is_fn_body(f.body, sig, body, old(self).next_offset + 1),
            final(self).next_offset == old(self).next_offset + 2,
    {
        let span = self.next_span();
        let body = self.function_body(sig, body);
        Expression::FunctionDef(Box::new(FunctionDef { span, attributes: Vec::new(), body }))
    }

    /// `local function name(params) body end` with plain untyped parameters.
    pub fn local_function(&mut self, name: &str, params: &[&str], body: Block) -> (s: Statement)
        requires
            old(self).next_offset + 2 * params@.len() + 3 <= u32::MAX,
            spec_is_valid_identifier(name@),
            all_identifiers(params@),
        ensures
            s matches Statement::LocalFunction(f) && f.span == point(old(self).next_offset + 2 * params@.len())
                && f.attributes@.len() == 0 && names_token(f.name, name@, old(self).next_offset + 2 * params@.len() + 1)
                && f.body.span == point(old(self).next_offset + 2 * params@.len() + 2) && built_params(
                f.body.params@,
                params@,
                old(self).next_offset as int,
                params@.len() as int,
            ) && f.body.block == body && !f.is_const,
            final(self).next_offset == old(self).next_offset + 2 * params@.len() + 3,
    {
        let params = self.params(params);
        let sig = FnSig { generics: None, params, vararg: None, return_type: None };
        self.local_function_full(name, &[], sig, body)
    }

    /// `[@attrs] local function name<sig> body end`: the statement's span,
    /// the attributes', the name's, then the body's.
    pub fn local_function_full(&mut self, name: &str, attributes: &[&str], sig: FnSig, body: Block) -> (s: Statement)
        requires
            old(self).next_offset + 2 * attributes@.len() + 3 <= u32::MAX,
            spec_is_valid_identifier(name@),
            all_identifiers(attributes@),
        ensures
            s matches Statement::LocalFunction(f) && f.span == point(old(self).next_offset as int) && built_attributes(
                f.attributes@,
                attributes@,
                old(self).next_offset + 1,
                attributes@.len() as int,
            ) && names_token(f.name, name@, old(self).next_offset + 2 * attributes@.len() + 1) && is_fn_body(
                f.body,
                sig,
                body,
                old(self).next_offset + 2 * attributes@.len() + 2,
            ) && !f.is_const,
            final(self).next_offset == old(self).next_offset + 2 * attributes@.len() + 3,
    {
        let span = self.next_span();
        let attributes = self.function_attributes(attributes);
        let name = self.ident(name);
        let body = self.function_body(sig, body);
        Statement::LocalFunction(Box::new(LocalFunction { span, attributes, name, body, is_const: false }))
    }

    /// Lua 5.5 `global function name(params) body end`.
    pub fn global_function(&mut self, name: &str, sig: FnSig, body: Block) -> (s: Statement)
        requires
            old(self).next_offset + 3 <= u32::MAX,
            spec_is_valid_identifier(name@),
        ensures
            s matches Statement::GlobalFunction(g) && g.span == point(old(self).next_offset as int) && names_token(
                g.name,
                name@,
                old(self).next_offset + 1,
            ) && is_fn_body(g.body, sig, body, old(self).next_offset + 2),
            final(self).next_offset == old(self).next_offset + 3,
    {
        let span = self.next_span();
        let name = self.ident(name);
        let body = self.function_body(sig, body);
        Statement::GlobalFunction(Box::new(GlobalFunction { span, name, body }))
    }

    /// `function a.b.c(params) body end` / `function a.b:m(params) body end`
    /// with plain untyped parameters.
    pub fn function_decl(&mut self, name_path: &[&str], method: Option<&str>, params: &[&str], body: Block) -> (s: Statement)
        requires
            old(self).next_offset + 2 * params@.len() + name_path@.len() + method_cost(method) + 3 <= u32::MAX,
            all_identifiers(name_path@),
            all_identifiers(params@),
            method matches Some(m) ==> spec_is_valid_identifier(m@),
        ensures
            s matches Statement::FunctionDecl(f) && f.span == point(old(self).next_offset + 2 * params@.len())
                && f.attributes@.len() == 0 && is_func_name(
                f.name,
                name_path@,
                method,
                old(self).next_offset + 2 * params@.len() + 1,
            ) && f.body.span == point(
                old(self).next_offset + 2 * params@.len() + name_path@.len() + method_cost(method) + 2,
            ) && built_params(f.body.params@, params@, old(self).next_offset as int, params@.len() as int)
                && f.body.block == body,
            final(self).next_offset == old(self).next_offset + 2 * params@.len() + name_path@.len() + method_cost(
                method,
            ) + 3,
    {
        let params = self.params(params);
        let sig = FnSig { generics: None, params, vararg: None, return_type: None };
        self.function_decl_full(name_path, method, &[], sig, body)
    }

    /// Full-fidelity function declaration; `attributes` are Luau `@attr`
    /// names (`"native"`, `"checked"`, ...). Spans: the statement's, the
    /// attributes', the name's, then the body's.
    pub fn function_decl_full(
        &mut self,
        name_path: &[&str],
        method: Option<&str>,
        attributes: &[&str],
        sig: FnSig,
        body: Block,
    ) -> (s: Statement)
        requires
            old(self).next_offset + 2 * attributes@.len() + name_path@.len() + method_cost(method) + 3 <= u32::MAX,
            all_identifiers(name_path@),
            all_identifiers(attributes@),
            method matches Some(m) ==> spec_is_valid_identifier(m@),
        ensures
            s matches Statement::FunctionDecl(f) && f.span == point(old(self).next_offset as int) && built_attributes(
                f.attributes@,
                attributes@,
                old(self).next_offset + 1,
                attributes@.len() as int,
            ) && is_func_name(f.name, name_path@, method, old(self).next_offset + 2 * attributes@.len() + 1)
                && is_fn_body(
                f.body,
                sig,
                body,
                old(self).next_offset + 2 * attributes@.len() + name_path@.len() + method_cost(method) + 2,
            ),
            final(self).next_offset == old(self).next_offset + 2 * attributes@.len() + name_path@.len() + method_cost(
                method,
            ) + 3,
    {
        let span = self.next_span();
        let attributes = self.function_attributes(attributes);
        let name = self.func_name(name_path, method);
        let body = self.function_body(sig, body);
        Statement::FunctionDecl(Box::new(FunctionDecl { span, attributes, name, body }))
    }

    fn func_name(&mut self, name_path: &[&str], method: Option<&str>) -> (f: FuncName)
        requires
            old(self).next_offset + name_path@.len() + 1 + method_cost(method) <= u32::MAX,
            all_identifiers(name_path@),
            method matches Some(m) ==> spec_is_valid_identifier(m@),
        ensures
            is_func_name(f, name_path@, method, old(self).next_offset as int),
            final(self).next_offset == old(self).next_offset + name_path@.len() + 1 + method_cost(method),
    {
        let ghost o = self.next_offset as int;
        let mut names: Vec<Token> = Vec::new();
        let mut i: usize = 0;
        while i < name_path.len()
            invariant
                i <= name_path@.len(),
                self.next_offset == o + i,
                o + name_path@.len() + 1 + method_cost(method) <= u32::MAX,
                all_identifiers(name_path@),
                built_idents(names@, name_path@, o, i as int),
            decreases name_path@.len() - i,
        {
            let token = self.ident(name_path[i]);
            names.push(token);
            i = i + 1;
        }
        let span = self.next_span();
        let method = match method {
            Some(name) => Some(self.ident(name)),
            None => None,
        };
        FuncName { span, names, method }
    }

    /// A declaration-site generic list `<T, U...>`: each pair is a name and
    /// whether it is a pack; defaults are not synthesized. The list's span,
    /// then two per parameter.
    pub fn generic_type_list(&mut self, params: Vec<(&str, bool)>) -> (g: GenericTypeList)
        requires
            old(self).next_offset + 1 + 2 * params@.len() <= u32::MAX,
            forall|i: int| 0 <= i < params@.len() ==> spec_is_valid_identifier(#[trigger] params@[i].0@),
        ensures
            g.span == point(old(self).next_offset as int),
            g.params@.len() == params@.len(),
            !g.params.has_trailing_separator,
            forall|i: int|
                0 <= i < params@.len() ==> (#[trigger] g.params@[i]).span == point(old(self).next_offset + 1 + 2 * i)
                    && names_token(g.params@[i].name, params@[i].0@, old(self).next_offset + 2 + 2 * i)
                    && g.params@[i].is_pack == params@[i].1 && g.params@[i].default is None,
            final(self).next_offset == old(self).next_offset + 1 + 2 * params@.len(),
    {
        let ghost o = self.next_offset as int;
        let span = self.next_span();
        let mut built: Vec<GenericTypeParam> = Vec::new();
        let mut i: usize = 0;
        while i < params.len()
            invariant
                i <= params@.len(),
                built@.len() == i,
                self.next_offset == o + 1 + 2 * i,
                o + 1 + 2 * params@.len() <= u32::MAX,
                forall|j: int| 0 <= j < params@.len() ==> spec_is_valid_identifier(#[trigger] params@[j].0@),
                forall|j: int|
                    0 <= j < i ==> (#[trigger] built@[j]).span == point(o + 1 + 2 * j) && names_token(
                        built@[j].name,
                        params@[j].0@,
                        o + 2 + 2 * j,
                    ) && built@[j].is_pack == params@[j].1 && built@[j].default is None,
            decreases params@.len() - i,
        {
            let (name, is_pack) = params[i];
            let param_span = self.next_span();
            let name = self.ident(name);
            built.push(GenericTypeParam { span: param_span, name, is_pack, default: None });
            i = i + 1;
        }
        GenericTypeList { span, params: self.punctuated(built) }
    }

    /// String literal from arbitrary bytes: bytes outside printable ASCII
    /// render as decimal escapes, so the token text is valid UTF-8.
    pub fn string_bytes(&mut self, content: &[u8]) -> (e: Expression)
        requires
            old(self).next_offset < u32::MAX,
        ensures
            e matches Expression::StringLiteral(l) && is_literal(
                l,
                quoted(bytes_body(content@)),
                old(self).next_offset as int,
            ),
            final(self).next_offset == old(self).next_offset + 1,
    {
        let text = quote_bytes(content);
        Expression::StringLiteral(Literal { text, span: self.next_span() })
    }

    /// `[[...]]` long-bracket string at the smallest `=` level whose closer
    /// cannot occur early. Long brackets cannot hold `\r` (Lua normalizes
    /// line endings inside them).
    pub fn long_string(&mut self, content: &str) -> (e: Expression)
        requires
            old(self).next_offset < u32::MAX,
            !content@.contains('\r'),
        ensures
            e matches Expression::StringLiteral(l) && l.span == point(old(self).next_offset as int) && exists|
                level: nat,
            |
                !closes_early(content@, level) && (forall|k: nat| k < level ==> closes_early(content@, k))
                    && l.text@ == long_bracket(content@, level),
            final(self).next_offset == old(self).next_offset + 1,
    {
        let text = long_string_text(content);
        Expression::StringLiteral(Literal { text, span: self.next_span() })
    }

    /// `receiver:name{ fields }`.
    pub fn method_call_table(&mut self, receiver: Expression, name: &str, fields: Vec<SynthField<'_>>) -> (e: Expression)
        requires
            old(self).next_offset + 3 + fields_cost(fields@) + prefix_cost(receiver) <= u32::MAX,
            field_names_valid(fields@),
            spec_is_valid_identifier(name@),
        ensures
            is_call_shape(e, receiver, Some(name@), old(self).next_offset + 1 + fields_cost(fields@)),
            call_args(e) matches FunctionArgs::TableConstructor(t) && is_table_ctor(
                *t,
                fields@,
                old(self).next_offset as int,
            ),
            final(self).next_offset == old(self).next_offset + 3 + fields_cost(fields@) + prefix_cost(receiver),
    {
        let ctor = self.table_ctor(fields);
        let args = FunctionArgs::TableConstructor(Box::new(ctor));
        self.call_node(receiver, Some(name), args)
    }

    // ----- comments -----

    /// A comment printed on its own line before `stmt`.
    pub fn leading_comment(&self, stmt: &Statement, text: &str) -> (c: SyntheticComment)
        ensures
            c.attached_to == stmt_span(*stmt).start,
            c.text@ == text@,
            c.is_leading,
    {
        SyntheticComment { attached_to: stmt.span().start, text: text.to_owned(), is_leading: true }
    }

    /// A comment printed as a suffix on `stmt`'s line.
    pub fn trailing_comment(&self, stmt: &Statement, text: &str) -> (c: SyntheticComment)
        ensures
            c.attached_to == stmt_span(*stmt).start,
            c.text@ == text@,
            !c.is_leading,
    {
        SyntheticComment { attached_to: stmt.span().start, text: text.to_owned(), is_leading: false }
    }

    /// A comment printed inside `block` when it is an empty function body;
    /// anchored on the block, since no statement is there to hold it.
    pub fn dangling_comment(&self, block: &Block, text: &str) -> (c: SyntheticComment)
        ensures
            c.attached_to == block.span.start,
            c.text@ == text@,
            c.is_leading,
    {
        SyntheticComment { attached_to: block.span.start, text: text.to_owned(), is_leading: true }
    }

    /// `(T, U) -> R` with unnamed parameters: the type's span, then one per parameter.
    pub fn ty_function(&mut self, params: Vec<Type>, return_type: Type) -> (t: Type)
        requires
            old(self).next_offset + 1 + params@.len() <= u32::MAX,
        ensures
            t matches Type::Function(f) && f.span == point(old(self).next_offset as int) && f.generics is None
                && f.params@.len() == params@.len() && !f.params.has_trailing_separator && (forall|i: int|
                0 <= i < params@.len() ==> (#[trigger] f.params@[i]).span == point(old(self).next_offset + 1 + i)
                    && f.params@[i].name is None && f.params@[i].type_value == params@[i]) && f.return_type
                == return_type,
            final(self).next_offset == old(self).next_offset + 1 + params@.len(),
    {
        let ghost o = self.next_offset as int;
        let span = self.next_span();
        let ghost ps = params@;
        let n = params.len();
        let mut rest = reversed(params);
        let mut built: Vec<FunctionTypeParam> = Vec::new();
        while rest.len() > 0
            invariant
                n == ps.len(),
                built@.len() + rest@.len() == n,
                forall|k: int| 0 <= k < rest@.len() ==> rest@[k] == ps[n - 1 - k],
                forall|i: int|
                    0 <= i < built@.len() ==> (#[trigger] built@[i]).span == point(o + 1 + i) && built@[i].name is None
                        && built@[i].type_value == ps[i],
                self.next_offset == o + 1 + built@.len(),
                o + 1 + n <= u32::MAX,
            decreases rest@.len(),
        {
            let ghost before = rest@;
            let type_value = rest.pop().unwrap();
            let param_span = self.next_span();
            built.push(FunctionTypeParam { span: param_span, name: None, type_value });
            proof {
                assert forall|k: int| 0 <= k < rest@.len() implies rest@[k] == ps[n - 1 - k] by {
                    assert(rest@[k] == before[k]);
                }
            }
        }
        Type::Function(Box::new(FunctionType { span, generics: None, params: self.punctuated(built), return_type }))
    }

    /// `<T...>(name: T, U) -> R`: each parameter is an optional name and a
    /// type. The type's span, then each parameter's and its name's.
    pub fn ty_function_full(
        &mut self,
        generics: Option<GenericTypeList>,
        params: Vec<(Option<&str>, Type)>,
        return_type: Type,
    ) -> (t: Type)
        requires
            old(self).next_offset + 1 + fn_params_cost(params@) <= u32::MAX,
            fn_param_names_valid(params@),
        ensures
            t matches Type::Function(f) && f.span == point(old(self).next_offset as int) && f.generics == generics
                && built_fn_params(f.params@, params@, old(self).next_offset + 1, params@.len() as int)
                && !f.params.has_trailing_separator && f.return_type == return_type,
            final(self).next_offset == old(self).next_offset + 1 + fn_params_cost(params@),
    {
        let ghost o = self.next_offset as int;
        let ghost ps = params@;
        proof {
            lemma_fn_params_cost_nonneg(ps);
            assert(ps.take(0) =~= Seq::<(Option<&str>, Type)>::empty());
        }
        let n = params.len();
        let span = self.next_span();
        let mut rest = reversed(params);
        let mut built: Vec<FunctionTypeParam> = Vec::new();
        while rest.len() > 0
            invariant
                n == ps.len(),
                built@.len() + rest@.len() == n,
                forall|k: int| 0 <= k < rest@.len() ==> rest@[k] == ps[n - 1 - k],
                built_fn_params(built@, ps, o + 1, built@.len() as int),
                self.next_offset == o + 1 + fn_params_cost(ps.take(built@.len() as int)),
                o + 1 + fn_params_cost(ps) <= u32::MAX,
                fn_param_names_valid(ps),
            decreases rest@.len(),
        {
            let ghost i = built@.len() as int;
            let ghost before = rest@;
            let (name, type_value) = rest.pop().unwrap();
            proof {
                assert((name, type_value) == ps[i]);
                lemma_fn_params_cost_prefix(ps, i);
            }
            let param_span = self.next_span();
            let name = match name {
                Some(name) => Some(self.ident(name)),
                None => None,
            };
            built.push(FunctionTypeParam { span: param_span, name, type_value });
            proof {
                assert forall|k: int| 0 <= k < rest@.len() implies rest@[k] == ps[n - 1 - k] by {
                    assert(rest@[k] == before[k]);
                }
            }
        }
        proof {
            assert(ps.take(n as int) =~= ps);
        }
        Type::Function(Box::new(FunctionType { span, generics, params: self.punctuated(built), return_type }))
    }

    /// Luau alias `[export] type Name [<generics>] = T`.
    pub fn type_declaration(&mut self, export: bool, name: &str, generics: Option<GenericTypeList>, value: Type) -> (s: Statement)
        requires
            old(self).next_offset + 2 <= u32::MAX,
            spec_is_valid_identifier(name@),
        ensures
            s matches Statement::TypeDeclaration(d) && d.span == point(old(self).next_offset as int) && d.is_exported
                == export && names_token(d.name, name@, old(self).next_offset + 1) && d.generics == match generics {
                Some(g) => Some(Box::new(g)),
                None => None,
            } && d.type_value == TypeDeclarationValue::Alias(value),
            final(self).next_offset == old(self).next_offset + 2,
    {
        let span = self.next_span();
        let name = self.ident(name);
        let generics = match generics {
            Some(g) => Some(Box::new(g)),
            None => None,
        };
        Statement::TypeDeclaration(
            Box::new(TypeDeclaration { span, is_exported: export, name, generics, type_value: TypeDeclarationValue::Alias(value) }),
        )
    }

    /// Luau `[export] type function Name(params) body end`.
    pub fn type_function(&mut self, export: bool, name: &str, sig: FnSig, body: Block) -> (s: Statement)
        requires
            old(self).next_offset + 3 <= u32::MAX,
            spec_is_valid_identifier(name@),
        ensures
            s matches Statement::TypeDeclaration(d) && d.span == point(old(self).next_offset as int) && d.is_exported
                == export && names_token(d.name, name@, old(self).next_offset + 1) && d.generics is None && match d.type_value {
                TypeDeclarationValue::TypeFunction(b) => is_fn_body(*b, sig, body, old(self).next_offset + 2),
                _ => false,
            },
            final(self).next_offset == old(self).next_offset + 3,
    {
        let span = self.next_span();
        let name = self.ident(name);
        let function_body = self.function_body(sig, body);
        Statement::TypeDeclaration(
            Box::new(
                TypeDeclaration {
                    span,
                    is_exported: export,
                    name,
                    generics: None,
                    type_value: TypeDeclarationValue::TypeFunction(Box::new(function_body)),
                },
            ),
        )
    }

    /// Luau compound assignment: `target op= value`.
    pub fn compound_assign(&mut self, target: Var, op: CompoundOp, value: Expression) -> (s: Statement)
        requires
            old(self).next_offset < u32::MAX,
        ensures
            s == Statement::CompoundAssignment(
                Box::new(CompoundAssignment { span: point(old(self).next_offset as int), var: target, op, expr: value }),
            ),
            final(self).next_offset == old(self).next_offset + 1,
    {
        let span = self.next_span();
        Statement::CompoundAssignment(Box::new(CompoundAssignment { span, var: target, op, expr: value }))
    }

    /// `{ v1, v2, ... }`: an all-positional table; the table's span, then one per value.
    pub fn array(&mut self, values: Vec<Expression>) -> (e: Expression)
        requires
            old(self).next_offset + 1 + values@.len() <= u32::MAX,
        ensures
            e matches Expression::TableConstructor(t) && t.span == point(old(self).next_offset as int)
                && t.fields@.len() == values@.len() && !t.fields.has_trailing_separator && forall|i: int|
                0 <= i < values@.len() ==> #[trigger] t.fields@[i] == (Field::Positional {
                    span: point(old(self).next_offset + 1 + i),
                    value: values@[i],
                }),
            final(self).next_offset == old(self).next_offset + 1 + values@.len(),
    {
        let ghost o = self.next_offset as int;
        let ghost vs = values@;
        let n = values.len();
        let span = self.next_span();
        let mut rest = reversed(values);
        let mut built: Vec<Field> = Vec::new();
        while rest.len() > 0
            invariant
                n == vs.len(),
                built@.len() + rest@.len() == n,
                forall|k: int| 0 <= k < rest@.len() ==> rest@[k] == vs[n - 1 - k],
                forall|i: int|
                    0 <= i < built@.len() ==> #[trigger] built@[i] == (Field::Positional { span: point(o + 1 + i), value: vs[i] }),
                self.next_offset == o + 1 + built@.len(),
                o + 1 + n <= u32::MAX,
            decreases rest@.len(),
        {
            let ghost before = rest@;
            let value = rest.pop().unwrap();
            let field_span = self.next_span();
            built.push(Field::Positional { span: field_span, value });
            proof {
                assert forall|k: int| 0 <= k < rest@.len() implies rest@[k] == vs[n - 1 - k] by {
                    assert(rest@[k] == before[k]);
                }
            }
        }
        Expression::TableConstructor(Box::new(TableConstructor { span, fields: Punctuated::from_items(built) }))
    }

    /// Luau backtick string. Each pair is one segment: its literal text,
    /// unescaped (`` ` ``, `{` and `\` are escaped here), and an optional
    /// interpolated expression after it. The string's span, then one per segment.
    pub fn interpolated_string(&mut self, segments: Vec<(&str, Option<Expression>)>) -> (e: Expression)
        requires
            old(self).next_offset + 1 + segments@.len() <= u32::MAX,
        ensures
            e matches Expression::InterpolatedString(x) && x.span == point(old(self).next_offset as int)
                && x.segments@.len() == segments@.len() && forall|i: int|
                0 <= i < segments@.len() ==> is_token(
                    (#[trigger] x.segments@[i]).literal,
                    interp_kind(i, segments@.len() as int),
                    interp_body(segments@[i].0@),
                    old(self).next_offset + 1 + i,
                ) && x.segments@[i].expr == segments@[i].1,
            final(self).next_offset == old(self).next_offset + 1 + segments@.len(),
    {
        let ghost o = self.next_offset as int;
        let ghost ss = segments@;
        let n = segments.len();
        let span = self.next_span();
        let mut rest = reversed(segments);
        let mut built: Vec<InterpSegment> = Vec::new();
        while rest.len() > 0
            invariant
                n == ss.len(),
                built@.len() + rest@.len() == n,
                forall|k: int| 0 <= k < rest@.len() ==> rest@[k] == ss[n - 1 - k],
                forall|i: int|
                    0 <= i < built@.len() ==> is_token(
                        (#[trigger] built@[i]).literal,
                        interp_kind(i, n as int),
                        interp_body(ss[i].0@),
                        o + 1 + i,
                    ) && built@[i].expr == ss[i].1,
                self.next_offset == o + 1 + built@.len(),
                o + 1 + n <= u32::MAX,
            decreases rest@.len(),
        {
            let ghost before = rest@;
            let index = built.len();
            let (text, expr) = rest.pop().unwrap();
            let literal_text = interp_text(text);
            let kind = if index == 0 {
                TokenKind::InterpBegin
            } else if index == n - 1 {
                TokenKind::InterpEnd
            } else {
                TokenKind::InterpMid
            };
            let literal = Token { kind, text: literal_text, span: self.next_span() };
            built.push(InterpSegment { literal, expr });
            proof {
                assert forall|k: int| 0 <= k < rest@.len() implies rest@[k] == ss[n - 1 - k] by {
                    assert(rest@[k] == before[k]);
                }
            }
        }
        Expression::InterpolatedString(Box::new(InterpolatedString { span, segments: built }))
    }

    /// A full table type: named fields, indexers and the array element in
    /// any mix, each with an optional `read`/`write` access modifier. The
    /// type's span, then each field's, its modifier's and its name's.
    pub fn ty_table(&mut self, fields: Vec<SynthTypeField<'_>>) -> (t: Type)
        requires
            old(self).next_offset + 1 + type_fields_cost(fields@) <= u32::MAX,
            type_field_names_valid(fields@),
        ensures
            t matches Type::Table(x) && x.span == point(old(self).next_offset as int) && built_type_fields(
                x.fields@,
                fields@,
                old(self).next_offset + 1,
                fields@.len() as int,
            ) && !x.fields.has_trailing_separator,
            final(self).next_offset == old(self).next_offset + 1 + type_fields_cost(fields@),
    {
        let ghost o = self.next_offset as int;
        let ghost fs = fields@;
        proof {
            lemma_type_fields_cost_nonneg(fs);
            assert(fs.take(0) =~= Seq::<SynthTypeField>::empty());
        }
        let n = fields.len();
        let span = self.next_span();
        let mut rest = reversed(fields);
        let mut built: Vec<TypeField> = Vec::new();
        while rest.len() > 0
            invariant
                n == fs.len(),
                built@.len() + rest@.len() == n,
                forall|k: int| 0 <= k < rest@.len() ==> rest@[k] == fs[n - 1 - k],
                built_type_fields(built@, fs, o + 1, built@.len() as int),
                self.next_offset == o + 1 + type_fields_cost(fs.take(built@.len() as int)),
                o + 1 + type_fields_cost(fs) <= u32::MAX,
                type_field_names_valid(fs),
            decreases rest@.len(),
        {
            let ghost i = built@.len() as int;
            let ghost before = rest@;
            let f = rest.pop().unwrap();
            proof {
                assert(f == fs[i]);
                lemma_type_fields_cost_prefix(fs, i);
            }
            let field = match f {
                SynthTypeField::Named { access, name, value } => {
                    let span = self.next_span();
                    let access = match access {
                        Some(a) => Some(self.access_token(a)),
                        None => None,
                    };
                    let name = self.ident(name);
                    TypeField::Named { span, access, name, value }
                },
                SynthTypeField::Indexer { access, key, value } => {
                    let span = self.next_span();
                    let access = match access {
                        Some(a) => Some(self.access_token(a)),
                        None => None,
                    };
                    TypeField::Indexer { span, access, key, value }
                },
                SynthTypeField::Array(value) => TypeField::Array { span: self.next_span(), value },
            };
            built.push(field);
            proof {
                assert forall|k: int| 0 <= k < rest@.len() implies rest@[k] == fs[n - 1 - k] by {
                    assert(rest@[k] == before[k]);
                }
            }
        }
        proof {
            assert(fs.take(n as int) =~= fs);
        }
        Type::Table(Box::new(TableType { span, fields: Punctuated::from_items(built) }))
    }

    /// `{ T }` array shorthand.
    pub fn ty_table_array(&mut self, element: Type) -> (t: Type)
        requires
            old(self).next_offset + 2 <= u32::MAX,
        ensures
            t matches Type::Table(x) && x.span == point(old(self).next_offset as int) && x.fields@.len() == 1
                && x.fields@[0] == (TypeField::Array { span: point(old(self).next_offset + 1), value: element })
                && !x.fields.has_trailing_separator,
            final(self).next_offset == old(self).next_offset + 2,
    {
        let ghost fs = seq![SynthTypeField::Array(element)];
        let fields = vec![SynthTypeField::Array(element)];
        proof {
            assert(fields@ == fs);
            assert(fs.take(0) =~= Seq::<SynthTypeField>::empty());
            assert(fs.drop_last() =~= Seq::<SynthTypeField>::empty());
            assert(type_fields_cost(fs.drop_last()) == 0);
            assert(type_field_cost(fs.last()) == 1);
            assert(type_fields_cost(fs) == 1);
        }
        self.ty_table(fields)
    }

    fn access_token(&mut self, access: TypeFieldAccess) -> (t: Token)
        requires
            old(self).next_offset < u32::MAX,
        ensures
            names_token(t, access_word(access), old(self).next_offset as int),
            final(self).next_offset == old(self).next_offset + 1,
    {
        proof {
            reveal_strlit("read");
            reveal_strlit("write");
        }
        let text = match access {
            TypeFieldAccess::Read => "read".to_owned(),
            TypeFieldAccess::Write => "write".to_owned(),
        };
        Token { kind: TokenKind::Identifier, text, span: self.next_span() }
    }

    /// `{ name: T, ... }` named-field table type: the type's span, then each
    /// field's and its name's.
    pub fn ty_record(&mut self, fields: Vec<(&str, Type)>) -> (t: Type)
        requires
            old(self).next_offset + 1 + 2 * fields@.len() <= u32::MAX,
            forall|i: int| 0 <= i < fields@.len() ==> spec_is_valid_identifier(#[trigger] fields@[i].0@),
        ensures
            t matches Type::Table(x) && x.span == point(old(self).next_offset as int) && x.fields@.len()
                == fields@.len() && !x.fields.has_trailing_separator && forall|i: int|
                0 <= i < fields@.len() ==> match #[trigger] x.fields@[i] {
                    TypeField::Named { span, access, name, value } => span == point(old(self).next_offset + 1 + 2 * i)
                        && access is None && names_token(name, fields@[i].0@, old(self).next_offset + 2 + 2 * i)
                        && value == fields@[i].1,
                    _ => false,
                },
            final(self).next_offset == old(self).next_offset + 1 + 2 * fields@.len(),
    {
        let ghost o = self.next_offset as int;
        let ghost fs = fields@;
        let n = fields.len();
        let span = self.next_span();
        let mut rest = reversed(fields);
        let mut built: Vec<TypeField> = Vec::new();
        while rest.len() > 0
            invariant
                n == fs.len(),
                built@.len() + rest@.len() == n,
                forall|k: int| 0 <= k < rest@.len() ==> rest@[k] == fs[n - 1 - k],
                forall|j: int| 0 <= j < n ==> spec_is_valid_identifier(#[trigger] fs[j].0@),
                forall|i: int|
                    0 <= i < built@.len() ==> match #[trigger] built@[i] {
                        TypeField::Named { span, access, name, value } => span == point(o + 1 + 2 * i) && access is None
                            && names_token(name, fs[i].0@, o + 2 + 2 * i) && value == fs[i].1,
                        _ => false,
                    },
                self.next_offset == o + 1 + 2 * built@.len(),
                o + 1 + 2 * n <= u32::MAX,
            decreases rest@.len(),
        {
            let ghost i = built@.len() as int;
            let ghost before = rest@;
            let (name, value) = rest.pop().unwrap();
            proof {
                assert((name, value) == fs[i]);
            }
            let field_span = self.next_span();
            let name = self.ident(name);
            built.push(TypeField::Named { span: field_span, access: None, name, value });
            proof {
                assert forall|k: int| 0 <= k < rest@.len() implies rest@[k] == fs[n - 1 - k] by {
                    assert(rest@[k] == before[k]);
                }
            }
        }
        Type::Table(Box::new(TableType { span, fields: Punctuated::from_items(built) }))
    }

    fn function_attributes(&mut self, names: &[&str]) -> (attrs: Vec<FunctionAttribute>)
        requires
            old(self).next_offset + 2 * names@.len() <= u32::MAX,
            all_identifiers(names@),
        ensures
            built_attributes(attrs@, names@, old(self).next_offset as int, names@.len() as int),
            final(self).next_offset == old(self).next_offset + 2 * names@.len(),
    {
        let ghost o = self.next_offset as int;
        let mut attrs: Vec<FunctionAttribute> = Vec::new();
        let mut i: usize = 0;
        while i < names.len()
            invariant
                i <= names@.len(),
                self.next_offset == o + 2 * i,
                o + 2 * names@.len() <= u32::MAX,
                all_identifiers(names@),
                built_attributes(attrs@, names@, o, i as int),
            decreases names@.len() - i,
        {
            let span = self.next_span();
            let name = self.ident(names[i]);
            attrs.push(FunctionAttribute { span, name, args: None });
            i = i + 1;
        }
        attrs
    }

    fn params(&mut self, names: &[&str]) -> (ps: Vec<Parameter>)
        requires
            old(self).next_offset + 2 * names@.len() <= u32::MAX,
            all_identifiers(names@),
        ensures
            built_params(ps@, names@, old(self).next_offset as int, names@.len() as int),
            final(self).next_offset == old(self).next_offset + 2 * names@.len(),
    {
        let ghost o = self.next_offset as int;
        let mut ps: Vec<Parameter> = Vec::new();
        let mut i: usize = 0;
        while i < names.len()
            invariant
                i <= names@.len(),
                self.next_offset == o + 2 * i,
                o + 2 * names@.len() <= u32::MAX,
                all_identifiers(names@),
                built_params(ps@, names@, o, i as int),
            decreases names@.len() - i,
        {
            let p = self.param(names[i]);
            ps.push(p);
            i = i + 1;
        }
        ps
    }

    fn function_body(&mut self, sig: FnSig, block: Block) -> (b: FunctionBody)
        requires
            old(self).next_offset < u32::MAX,
        ensures
            is_fn_body(b, sig, block, old(self).next_offset as int),
            final(self).next_offset == old(self).next_offset + 1,
    {
        let span = self.next_span();
        let FnSig { generics, params, vararg, return_type } = sig;
        let generics = match generics {
            Some(g) => Some(Box::new(g)),
            None => None,
        };
        FunctionBody { span, generics, params: self.punctuated(params), vararg, return_type, block }
    }

    /// Wraps `items` as a separator list with no trailing separator.
    pub fn punctuated<T>(&self, items: Vec<T>) -> (p: Punctuated<T>)
        ensures
            p@ == items@,
            !p.has_trailing_separator,
    {
        Punctuated::from_items(items)
    }
}

impl Default for Synth {
    fn default() -> (s: Self)
        ensures
            s.next_offset == 0,
    {
        Synth::new()
    }
}

} // verus!
