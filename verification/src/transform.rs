//! Ownership-based rewriting of the syntax tree: a transform rewrites the
//! nodes it is handed, and the walkers here rebuild one node around what
//! the transform returns for each of its children, in source order. Each
//! walker states both halves: the rebuilt node keeps the original's shape,
//! and its children are exactly what the transform handed back, call by
//! call, as the transform's record of rewrites shows.

use vstd::prelude::*;
use crate::ast::{ElseIfExprClause, InterpSegment, InterpolatedString, IndexExpression, FieldAccess, ParenExpression, BinaryOp, UnaryOp, TypeCast, FunctionDef, IfExpression, ReturnStatement, Expression, Var, FunctionCall, FunctionArgs, TableConstructor, FunctionBody, Parameter, VarArgParam, Block, Field, Statement, LastStatement, Assignment, FunctionCallStmt, DoBlock, WhileLoop, RepeatLoop, IfStatement, ElseIfClause, ElseClause, NumericFor, GenericFor, FunctionDecl, LocalFunction, AttributedName, LocalAssignment, CompoundAssignment, TypeDeclaration, TypeDeclarationValue, GlobalDeclaration, GlobalFunction, GlobalStar, Type, NamedType, TypeArgs, TypeofType, TableType, TypeField, FunctionType, FunctionTypeParam, OptionalType, UnionType, IntersectionType, NegationType, ParenType, TypePack, VariadicType, GenericTypeList, GenericTypeParam};
use crate::punctuated::Punctuated;

verus! {

/// A node handed to a transform, or handed back by it.
pub enum Slot {
    Block(Block),
    Statement(Statement),
    Expression(Expression),
    Var(Var),
    LastStatement(LastStatement),
    Type(Type),
}

/// A rewrite of syntax-tree nodes. An implementation rewrites the nodes it
/// cares about and hands the others to [`walk_statement_mut`],
/// [`walk_type_mut`] and the other walkers for default recursion.
///
/// `rewrites` is the record of the calls made so far: each the node handed
/// in and the node handed back, in call order. It is ghost state, for
/// stating what a walker did.
pub trait AstTransform {
    spec fn rewrites(&self) -> Seq<(Slot, Slot)>;

    fn transform_block(&mut self, block: Block) -> (r: Block)
        ensures
            logged(old(self).rewrites(), final(self).rewrites(), seq![Slot::Block(block)], seq![Slot::Block(r)]),
    ;

    fn transform_statement(&mut self, stmt: Statement) -> (r: Statement)
        ensures
            logged(
                old(self).rewrites(),
                final(self).rewrites(),
                seq![Slot::Statement(stmt)],
                seq![Slot::Statement(r)],
            ),
    ;

    fn transform_expression(&mut self, expr: Expression) -> (r: Expression)
        ensures
            logged(
                old(self).rewrites(),
                final(self).rewrites(),
                seq![Slot::Expression(expr)],
                seq![Slot::Expression(r)],
            ),
    ;

    fn transform_var(&mut self, var: Var) -> (r: Var)
        ensures
            logged(old(self).rewrites(), final(self).rewrites(), seq![Slot::Var(var)], seq![Slot::Var(r)]),
    ;

    fn transform_last_statement(&mut self, last: LastStatement) -> (r: LastStatement)
        ensures
            logged(
                old(self).rewrites(),
                final(self).rewrites(),
                seq![Slot::LastStatement(last)],
                seq![Slot::LastStatement(r)],
            ),
    ;

    fn transform_type(&mut self, type_value: Type) -> (r: Type)
        ensures
            logged(old(self).rewrites(), final(self).rewrites(), seq![Slot::Type(type_value)], seq![Slot::Type(r)]),
    ;
}

// ----- the record of rewrites -----

/// `after` is `before` followed by one call per input: input `ins[i]` was
/// handed in and `outs[i]` handed back.
pub open spec fn logged(before: Seq<(Slot, Slot)>, after: Seq<(Slot, Slot)>, ins: Seq<Slot>, outs: Seq<Slot>) -> bool {
    &&& ins.len() == outs.len()
    &&& after.len() == before.len() + ins.len()
    &&& forall|i: int| 0 <= i < before.len() ==> after[i] == before[i]
    &&& forall|i: int| 0 <= i < ins.len() ==> #[trigger] after[before.len() + i] == (ins[i], outs[i])
}

pub proof fn lemma_logged_none(log: Seq<(Slot, Slot)>)
    ensures
        logged(log, log, Seq::empty(), Seq::empty()),
{
}

pub proof fn lemma_logged_then(
    a: Seq<(Slot, Slot)>,
    b: Seq<(Slot, Slot)>,
    c: Seq<(Slot, Slot)>,
    i1: Seq<Slot>,
    o1: Seq<Slot>,
    i2: Seq<Slot>,
    o2: Seq<Slot>,
)
    requires
        logged(a, b, i1, o1),
        logged(b, c, i2, o2),
    ensures
        logged(a, c, i1 + i2, o1 + o2),
{
    assert forall|i: int| 0 <= i < (i1 + i2).len() implies #[trigger] c[a.len() + i] == ((i1 + i2)[i], (o1 + o2)[i]) by {
        if i < i1.len() {
            assert(c[a.len() + i] == b[a.len() + i]);
        } else {
            assert(c[a.len() + i] == c[b.len() + (i - i1.len())]);
        }
    }
}

pub proof fn lemma_logged_pair(
    a: Seq<(Slot, Slot)>,
    b: Seq<(Slot, Slot)>,
    c: Seq<(Slot, Slot)>,
    x1: Slot,
    y1: Slot,
    x2: Slot,
    y2: Slot,
)
    requires
        logged(a, b, seq![x1], seq![y1]),
        logged(b, c, seq![x2], seq![y2]),
    ensures
        logged(a, c, seq![x1, x2], seq![y1, y2]),
{
    lemma_logged_then(a, b, c, seq![x1], seq![y1], seq![x2], seq![y2]);
    assert(seq![x1] + seq![x2] =~= seq![x1, x2]);
    assert(seq![y1] + seq![y2] =~= seq![y1, y2]);
}

/// Every call recorded after `before` handed back the node it was handed.
pub open spec fn unchanged(before: Seq<(Slot, Slot)>, after: Seq<(Slot, Slot)>) -> bool {
    forall|i: int| before.len() <= i < after.len() ==> (#[trigger] after[i]).0 == after[i].1
}

/// A transform that hands every node back as it was handed (one that
/// rewrites nothing) makes a walker hand back the same children in every
/// slot: combined with each walker's shape clause, the node is rebuilt as
/// it was.
pub proof fn law_unchanged_rewrites_keep_children(
    before: Seq<(Slot, Slot)>,
    after: Seq<(Slot, Slot)>,
    ins: Seq<Slot>,
    outs: Seq<Slot>,
)
    requires
        logged(before, after, ins, outs),
        unchanged(before, after),
    ensures
        outs == ins,
{
    assert forall|i: int| 0 <= i < ins.len() implies outs[i] == ins[i] by {
        assert(after[before.len() + i] == (ins[i], outs[i]));
    }
    assert(outs =~= ins);
}

/// The slots of the items of `s`, each item's through `f`, in order.
pub open spec fn flat<A>(s: Seq<A>, f: spec_fn(A) -> Seq<Slot>) -> Seq<Slot>
    decreases s.len(),
{
    if s.len() == 0 {
        Seq::empty()
    } else {
        flat(s.drop_last(), f) + f(s.last())
    }
}

pub proof fn lemma_flat_push<A>(s: Seq<A>, x: A, f: spec_fn(A) -> Seq<Slot>)
    ensures
        flat(s.push(x), f) == flat(s, f) + f(x),
{
    assert(s.push(x).drop_last() =~= s);
}

pub proof fn lemma_flat_take<A>(s: Seq<A>, k: int, f: spec_fn(A) -> Seq<Slot>)
    requires
        0 <= k < s.len(),
    ensures
        flat(s.take(k + 1), f) == flat(s.take(k), f) + f(s[k]),
{
    assert(s.take(k + 1) =~= s.take(k).push(s[k]));
    lemma_flat_push(s.take(k), s[k], f);
}

pub open spec fn expr_fn() -> spec_fn(Expression) -> Seq<Slot> {
    |e: Expression| seq![Slot::Expression(e)]
}

pub open spec fn var_fn() -> spec_fn(Var) -> Seq<Slot> {
    |v: Var| seq![Slot::Var(v)]
}

pub open spec fn type_fn() -> spec_fn(Type) -> Seq<Slot> {
    |t: Type| seq![Slot::Type(t)]
}

pub open spec fn stmt_fn() -> spec_fn(Statement) -> Seq<Slot> {
    |s: Statement| seq![Slot::Statement(s)]
}

/// A present child type's slot.
pub open spec fn opt_type_slots(ty: Option<Type>) -> Seq<Slot> {
    match ty {
        Some(t) => seq![Slot::Type(t)],
        None => Seq::empty(),
    }
}

pub open spec fn param_fn() -> spec_fn(Parameter) -> Seq<Slot> {
    |p: Parameter| opt_type_slots(p.type_annotation)
}

pub open spec fn name_fn() -> spec_fn(AttributedName) -> Seq<Slot> {
    |a: AttributedName| opt_type_slots(a.type_annotation)
}

pub open spec fn generic_param_fn() -> spec_fn(GenericTypeParam) -> Seq<Slot> {
    |g: GenericTypeParam| opt_type_slots(g.default)
}

pub open spec fn generics_slots(g: GenericTypeList) -> Seq<Slot> {
    flat(g.params.items@, generic_param_fn())
}

pub open spec fn boxed_generics_slots(g: Option<Box<GenericTypeList>>) -> Seq<Slot> {
    match g {
        Some(g) => generics_slots(*g),
        None => Seq::empty(),
    }
}

pub open spec fn vararg_slots(v: Option<VarArgParam>) -> Seq<Slot> {
    match v {
        Some(va) => opt_type_slots(va.type_annotation),
        None => Seq::empty(),
    }
}

/// The slots of a function body: generic defaults, parameter types, the
/// vararg's type, the return type, then the block.
pub open spec fn body_slots(b: FunctionBody) -> Seq<Slot> {
    boxed_generics_slots(b.generics) + flat(b.params.items@, param_fn()) + vararg_slots(b.vararg) + opt_type_slots(
        b.return_type,
    ) + seq![Slot::Block(b.block)]
}

pub open spec fn field_fn() -> spec_fn(Field) -> Seq<Slot> {
    |f: Field|
        match f {
            Field::Bracketed { key, value, .. } => seq![Slot::Expression(key), Slot::Expression(value)],
            Field::Named { value, .. } => seq![Slot::Expression(value)],
            Field::Positional { value, .. } => seq![Slot::Expression(value)],
        }
}

pub open spec fn table_slots(t: TableConstructor) -> Seq<Slot> {
    flat(t.fields.items@, field_fn())
}

pub open spec fn args_slots(a: FunctionArgs) -> Seq<Slot> {
    match a {
        FunctionArgs::Parenthesized { args, .. } => flat(args.items@, expr_fn()),
        FunctionArgs::TableConstructor(t) => table_slots(*t),
        FunctionArgs::StringLiteral(_) => Seq::empty(),
    }
}

pub open spec fn call_slots(c: FunctionCall) -> Seq<Slot> {
    seq![Slot::Expression(c.callee)] + args_slots(c.args)
}

pub open spec fn opt_exprs_slots(e: Option<Punctuated<Expression>>) -> Seq<Slot> {
    match e {
        Some(p) => flat(p.items@, expr_fn()),
        None => Seq::empty(),
    }
}

pub open spec fn elseif_fn() -> spec_fn(ElseIfClause) -> Seq<Slot> {
    |c: ElseIfClause| seq![Slot::Expression(c.condition), Slot::Block(c.block)]
}

pub open spec fn else_slots(e: Option<ElseClause>) -> Seq<Slot> {
    match e {
        Some(e) => seq![Slot::Block(e.block)],
        None => Seq::empty(),
    }
}

pub open spec fn opt_expr_slots(e: Option<Expression>) -> Seq<Slot> {
    match e {
        Some(e) => seq![Slot::Expression(e)],
        None => Seq::empty(),
    }
}

pub open spec fn type_value_slots(v: TypeDeclarationValue) -> Seq<Slot> {
    match v {
        TypeDeclarationValue::Alias(t) => seq![Slot::Type(t)],
        TypeDeclarationValue::TypeFunction(b) => body_slots(*b),
    }
}

/// The children of a statement that go through the transform, in source order.
pub open spec fn statement_slots(s: Statement) -> Seq<Slot> {
    match s {
        Statement::Assignment(a) => flat(a.targets.items@, var_fn()) + flat(a.values.items@, expr_fn()),
        Statement::FunctionCall(c) => call_slots(c.call),
        Statement::DoBlock(d) => seq![Slot::Block(d.block)],
        Statement::WhileLoop(w) => seq![Slot::Expression(w.condition), Slot::Block(w.block)],
        Statement::RepeatLoop(r) => seq![Slot::Block(r.block), Slot::Expression(r.condition)],
        Statement::IfStatement(i) => seq![Slot::Expression(i.condition), Slot::Block(i.block)] + flat(
            i.elseif_clauses@,
            elseif_fn(),
        ) + else_slots(i.else_clause),
        Statement::NumericFor(f) => opt_type_slots(f.type_annotation) + seq![Slot::Expression(f.start)] + seq![
            Slot::Expression(f.limit),
        ] + opt_expr_slots(f.step) + seq![Slot::Block(f.block)],
        Statement::GenericFor(f) => flat(f.names.items@, param_fn()) + flat(f.exprs.items@, expr_fn()) + seq![
            Slot::Block(f.block),
        ],
        Statement::FunctionDecl(f) => body_slots(f.body),
        Statement::LocalFunction(f) => body_slots(f.body),
        Statement::LocalAssignment(l) => flat(l.names.items@, name_fn()) + opt_exprs_slots(l.exprs),
        Statement::CompoundAssignment(c) => seq![Slot::Var(c.var), Slot::Expression(c.expr)],
        Statement::GlobalFunction(g) => body_slots(g.body),
        Statement::GlobalDeclaration(g) => flat(g.names.items@, name_fn()) + opt_exprs_slots(g.exprs),
        Statement::TypeDeclaration(d) => boxed_generics_slots(d.generics) + type_value_slots(d.type_value),
        _ => Seq::empty(),
    }
}

/// The children of a block that go through the transform: its statements, then its last statement.
pub open spec fn block_slots(b: Block) -> Seq<Slot> {
    flat(b.stmts@, stmt_fn()) + last_slots(b.last_stmt)
}

pub open spec fn last_slots(l: Option<Box<LastStatement>>) -> Seq<Slot> {
    match l {
        Some(l) => seq![Slot::LastStatement(*l)],
        None => Seq::empty(),
    }
}

pub open spec fn type_field_fn() -> spec_fn(TypeField) -> Seq<Slot> {
    |f: TypeField|
        match f {
            TypeField::Named { value, .. } => seq![Slot::Type(value)],
            TypeField::Indexer { key, value, .. } => seq![Slot::Type(key), Slot::Type(value)],
            TypeField::Array { value, .. } => seq![Slot::Type(value)],
        }
}

pub open spec fn fn_type_param_fn() -> spec_fn(FunctionTypeParam) -> Seq<Slot> {
    |p: FunctionTypeParam| seq![Slot::Type(p.type_value)]
}

pub open spec fn type_args_slots(g: Option<TypeArgs>) -> Seq<Slot> {
    match g {
        Some(g) => flat(g.args.items@, type_fn()),
        None => Seq::empty(),
    }
}

pub open spec fn opt_generics_slots(g: Option<GenericTypeList>) -> Seq<Slot> {
    match g {
        Some(g) => generics_slots(g),
        None => Seq::empty(),
    }
}

/// The children of a type that go through the transform, in source order.
pub open spec fn type_slots(ty: Type) -> Seq<Slot> {
    match ty {
        Type::Named(n) => type_args_slots(n.generics),
        Type::Typeof(t) => seq![Slot::Expression(t.expr)],
        Type::Table(t) => flat(t.fields.items@, type_field_fn()),
        Type::Function(f) => opt_generics_slots(f.generics) + flat(f.params.items@, fn_type_param_fn()) + seq![
            Slot::Type(f.return_type),
        ],
        Type::Optional(o) => seq![Slot::Type(o.type_value)],
        Type::Union(u) => flat(u.types.items@, type_fn()),
        Type::Intersection(i) => flat(i.types.items@, type_fn()),
        Type::Negation(n) => seq![Slot::Type(n.type_value)],
        Type::Parenthesized(p) => seq![Slot::Type(p.type_value)],
        Type::Pack(p) => flat(p.types.items@, type_fn()),
        Type::Variadic(v) => seq![Slot::Type(v.type_value)],
        _ => Seq::empty(),
    }
}

pub open spec fn elseif_expr_fn() -> spec_fn(ElseIfExprClause) -> Seq<Slot> {
    |c: ElseIfExprClause| seq![Slot::Expression(c.condition), Slot::Expression(c.expr)]
}

pub open spec fn segment_fn() -> spec_fn(InterpSegment) -> Seq<Slot> {
    |s: InterpSegment|
        match s.expr {
            Some(e) => seq![Slot::Expression(e)],
            None => Seq::empty(),
        }
}

/// The children of an expression that go through the transform, in source order.
pub open spec fn expression_slots(e: Expression) -> Seq<Slot> {
    match e {
        Expression::FunctionDef(f) => body_slots(f.body),
        Expression::Var(v) => seq![Slot::Var(*v)],
        Expression::FunctionCall(c) => call_slots(*c),
        Expression::Parenthesized(p) => seq![Slot::Expression(p.expr)],
        Expression::TableConstructor(t) => table_slots(*t),
        Expression::BinaryOp(b) => seq![Slot::Expression(b.left), Slot::Expression(b.right)],
        Expression::UnaryOp(u) => seq![Slot::Expression(u.operand)],
        Expression::IfExpression(i) => seq![Slot::Expression(i.condition), Slot::Expression(i.then_expr)] + flat(
            i.elseif_clauses@,
            elseif_expr_fn(),
        ) + seq![Slot::Expression(i.else_expr)],
        Expression::InterpolatedString(s) => flat(s.segments@, segment_fn()),
        Expression::TypeCast(c) => seq![Slot::Expression(c.expr), Slot::Type(c.type_annotation)],
        _ => Seq::empty(),
    }
}

pub open spec fn var_slots(v: Var) -> Seq<Slot> {
    match v {
        Var::Name(_) => Seq::empty(),
        Var::Index(i) => seq![Slot::Expression(i.prefix), Slot::Expression(i.index)],
        Var::FieldAccess(f) => seq![Slot::Expression(f.prefix)],
    }
}

pub open spec fn last_statement_slots(l: LastStatement) -> Seq<Slot> {
    match l {
        LastStatement::Return(r) => flat(r.exprs.items@, expr_fn()),
        _ => Seq::empty(),
    }
}

// ----- shapes -----

/// Both or neither are present.
pub open spec fn same_presence<A>(a: Option<A>, b: Option<A>) -> bool {
    a.is_some() == b.is_some()
}

/// Same number of items and the same trailing separator.
pub open spec fn same_list<A>(a: Punctuated<A>, b: Punctuated<A>) -> bool {
    a.items@.len() == b.items@.len() && a.has_trailing_separator == b.has_trailing_separator
}

pub open spec fn same_param(a: Parameter, b: Parameter) -> bool {
    a.span == b.span && a.name == b.name && same_presence(a.type_annotation, b.type_annotation)
}

pub open spec fn same_params(a: Punctuated<Parameter>, b: Punctuated<Parameter>) -> bool {
    same_list(a, b) && forall|k: int| 0 <= k < a.items@.len() ==> same_param(#[trigger] a.items@[k], b.items@[k])
}

pub open spec fn same_attributed_name(a: AttributedName, b: AttributedName) -> bool {
    a.name == b.name && a.attrib == b.attrib && same_presence(a.type_annotation, b.type_annotation)
}

pub open spec fn same_attributed_names(a: Punctuated<AttributedName>, b: Punctuated<AttributedName>) -> bool {
    same_list(a, b) && forall|k: int|
        0 <= k < a.items@.len() ==> same_attributed_name(#[trigger] a.items@[k], b.items@[k])
}

pub open spec fn same_generic_param(a: GenericTypeParam, b: GenericTypeParam) -> bool {
    a.span == b.span && a.name == b.name && a.is_pack == b.is_pack && same_presence(a.default, b.default)
}

pub open spec fn same_generics(a: GenericTypeList, b: GenericTypeList) -> bool {
    a.span == b.span && same_list(a.params, b.params) && forall|k: int|
        0 <= k < a.params.items@.len() ==> same_generic_param(#[trigger] a.params.items@[k], b.params.items@[k])
}

pub open spec fn same_boxed_generics(a: Option<Box<GenericTypeList>>, b: Option<Box<GenericTypeList>>) -> bool {
    match (a, b) {
        (Some(x), Some(y)) => same_generics(*x, *y),
        (None, None) => true,
        _ => false,
    }
}

pub open spec fn same_vararg(a: Option<VarArgParam>, b: Option<VarArgParam>) -> bool {
    match (a, b) {
        (Some(x), Some(y)) => x.span == y.span && x.name == y.name && same_presence(x.type_annotation, y.type_annotation),
        (None, None) => true,
        _ => false,
    }
}

/// Same function body but for the annotation types and the block.
pub open spec fn same_body(a: FunctionBody, b: FunctionBody) -> bool {
    &&& a.span == b.span
    &&& same_boxed_generics(a.generics, b.generics)
    &&& same_params(a.params, b.params)
    &&& same_vararg(a.vararg, b.vararg)
    &&& same_presence(a.return_type, b.return_type)
}

pub open spec fn same_field(a: Field, b: Field) -> bool {
    match (a, b) {
        (Field::Bracketed { span: s1, .. }, Field::Bracketed { span: s2, .. }) => s1 == s2,
        (Field::Named { span: s1, name: n1, .. }, Field::Named { span: s2, name: n2, .. }) => s1 == s2 && n1 == n2,
        (Field::Positional { span: s1, .. }, Field::Positional { span: s2, .. }) => s1 == s2,
        _ => false,
    }
}

pub open spec fn same_table(a: TableConstructor, b: TableConstructor) -> bool {
    a.span == b.span && same_list(a.fields, b.fields) && forall|k: int|
        0 <= k < a.fields.items@.len() ==> same_field(#[trigger] a.fields.items@[k], b.fields.items@[k])
}

pub open spec fn same_args(a: FunctionArgs, b: FunctionArgs) -> bool {
    match (a, b) {
        (FunctionArgs::Parenthesized { span: s1, args: a1 }, FunctionArgs::Parenthesized { span: s2, args: a2 }) => s1
            == s2 && same_list(a1, a2),
        (FunctionArgs::TableConstructor(t1), FunctionArgs::TableConstructor(t2)) => same_table(*t1, *t2),
        (FunctionArgs::StringLiteral(l1), FunctionArgs::StringLiteral(l2)) => l1 == l2,
        _ => false,
    }
}

/// Same call but for the callee and the argument expressions.
pub open spec fn same_call(a: FunctionCall, b: FunctionCall) -> bool {
    a.span == b.span && a.method == b.method && same_args(a.args, b.args)
}

pub open spec fn same_elseif(a: ElseIfClause, b: ElseIfClause) -> bool {
    a.span == b.span
}

pub open spec fn same_type_decl_value(a: TypeDeclarationValue, b: TypeDeclarationValue) -> bool {
    match (a, b) {
        (TypeDeclarationValue::Alias(_), TypeDeclarationValue::Alias(_)) => true,
        (TypeDeclarationValue::TypeFunction(x), TypeDeclarationValue::TypeFunction(y)) => same_body(*x, *y),
        _ => false,
    }
}

/// `r` is `s` with its direct children rewritten: the same variant, spans,
/// tokens, flags and attributes, the same number and order of children in
/// every list, each optional child present in both or in neither, and
/// nested calls, function bodies, tables and generic lists of the same
/// shape. Only expressions, variables, types and blocks may differ.
pub open spec fn same_statement_shape(r: Statement, s: Statement) -> bool {
    match (r, s) {
        (Statement::Assignment(a), Statement::Assignment(b)) => a.span == b.span && same_list(a.targets, b.targets)
            && same_list(a.values, b.values),
        (Statement::FunctionCall(a), Statement::FunctionCall(b)) => a.span == b.span && same_call(a.call, b.call),
        (Statement::DoBlock(a), Statement::DoBlock(b)) => a.span == b.span,
        (Statement::WhileLoop(a), Statement::WhileLoop(b)) => a.span == b.span,
        (Statement::RepeatLoop(a), Statement::RepeatLoop(b)) => a.span == b.span,
        (Statement::IfStatement(a), Statement::IfStatement(b)) => {
            &&& a.span == b.span
            &&& a.elseif_clauses@.len() == b.elseif_clauses@.len()
            &&& forall|k: int|
                0 <= k < a.elseif_clauses@.len() ==> same_elseif(#[trigger] a.elseif_clauses@[k], b.elseif_clauses@[k])
            &&& match (a.else_clause, b.else_clause) {
                (Some(x), Some(y)) => x.span == y.span,
                (None, None) => true,
                _ => false,
            }
        },
        (Statement::NumericFor(a), Statement::NumericFor(b)) => a.span == b.span && a.name == b.name && same_presence(
            a.type_annotation,
            b.type_annotation,
        ) && same_presence(a.step, b.step),
        (Statement::GenericFor(a), Statement::GenericFor(b)) => a.span == b.span && same_params(a.names, b.names)
            && same_list(a.exprs, b.exprs),
        (Statement::FunctionDecl(a), Statement::FunctionDecl(b)) => a.span == b.span && a.attributes == b.attributes
            && a.name == b.name && same_body(a.body, b.body),
        (Statement::LocalFunction(a), Statement::LocalFunction(b)) => a.span == b.span && a.attributes == b.attributes
            && a.name == b.name && a.is_const == b.is_const && same_body(a.body, b.body),
        (Statement::LocalAssignment(a), Statement::LocalAssignment(b)) => {
            &&& a.span == b.span
            &&& a.is_const == b.is_const
            &&& same_attributed_names(a.names, b.names)
            &&& match (a.exprs, b.exprs) {
                (Some(x), Some(y)) => same_list(x, y),
                (None, None) => true,
                _ => false,
            }
        },
        (Statement::EmptyStatement(a), Statement::EmptyStatement(b)) => a == b,
        (Statement::Goto(a), Statement::Goto(b)) => a == b,
        (Statement::Label(a), Statement::Label(b)) => a == b,
        (Statement::GlobalDeclaration(a), Statement::GlobalDeclaration(b)) => {
            &&& a.span == b.span
            &&& same_attributed_names(a.names, b.names)
            &&& match (a.exprs, b.exprs) {
                (Some(x), Some(y)) => same_list(x, y),
                (None, None) => true,
                _ => false,
            }
        },
        (Statement::GlobalFunction(a), Statement::GlobalFunction(b)) => a.span == b.span && a.name == b.name
            && same_body(a.body, b.body),
        (Statement::GlobalStar(a), Statement::GlobalStar(b)) => a == b,
        (Statement::Break(a), Statement::Break(b)) => a == b,
        (Statement::CompoundAssignment(a), Statement::CompoundAssignment(b)) => a.span == b.span && a.op == b.op,
        (Statement::TypeDeclaration(a), Statement::TypeDeclaration(b)) => a.span == b.span && a.is_exported
            == b.is_exported && a.name == b.name && same_boxed_generics(a.generics, b.generics)
            && same_type_decl_value(a.type_value, b.type_value),
        (Statement::Error(a), Statement::Error(b)) => a == b,
        _ => false,
    }
}

pub open spec fn same_type_field(a: TypeField, b: TypeField) -> bool {
    match (a, b) {
        (TypeField::Named { span: s1, access: a1, name: n1, .. }, TypeField::Named { span: s2, access: a2, name: n2, .. }) =>
            s1 == s2 && a1 == a2 && n1 == n2,
        (TypeField::Indexer { span: s1, access: a1, .. }, TypeField::Indexer { span: s2, access: a2, .. }) => s1 == s2
            && a1 == a2,
        (TypeField::Array { span: s1, .. }, TypeField::Array { span: s2, .. }) => s1 == s2,
        _ => false,
    }
}

pub open spec fn same_function_type_param(a: FunctionTypeParam, b: FunctionTypeParam) -> bool {
    a.span == b.span && a.name == b.name
}

/// `r` is `ty` with its direct children rewritten: the same variant,
/// spans, tokens and flags, and the same number and order of children in
/// every list; only the child types and the `typeof` expression may
/// differ.
pub open spec fn same_type_shape(r: Type, ty: Type) -> bool {
    match (r, ty) {
        (Type::Named(a), Type::Named(b)) => a.span == b.span && a.prefix == b.prefix && a.name == b.name && match (
            a.generics,
            b.generics,
        ) {
            (Some(x), Some(y)) => x.span == y.span && same_list(x.args, y.args),
            (None, None) => true,
            _ => false,
        },
        (Type::Typeof(a), Type::Typeof(b)) => a.span == b.span,
        (Type::Table(a), Type::Table(b)) => a.span == b.span && same_list(a.fields, b.fields) && forall|k: int|
            0 <= k < a.fields.items@.len() ==> same_type_field(#[trigger] a.fields.items@[k], b.fields.items@[k]),
        (Type::Function(a), Type::Function(b)) => {
            &&& a.span == b.span
            &&& match (a.generics, b.generics) {
                (Some(x), Some(y)) => same_generics(x, y),
                (None, None) => true,
                _ => false,
            }
            &&& same_list(a.params, b.params)
            &&& forall|k: int|
                0 <= k < a.params.items@.len() ==> same_function_type_param(
                    #[trigger] a.params.items@[k],
                    b.params.items@[k],
                )
        },
        (Type::Optional(a), Type::Optional(b)) => a.span == b.span,
        (Type::Union(a), Type::Union(b)) => a.span == b.span && a.has_leading_pipe == b.has_leading_pipe && same_list(
            a.types,
            b.types,
        ),
        (Type::Intersection(a), Type::Intersection(b)) => a.span == b.span && a.has_leading_ampersand
            == b.has_leading_ampersand && same_list(a.types, b.types),
        (Type::Negation(a), Type::Negation(b)) => a.span == b.span,
        (Type::Parenthesized(a), Type::Parenthesized(b)) => a.span == b.span,
        (Type::Pack(a), Type::Pack(b)) => a.span == b.span && same_list(a.types, b.types),
        (Type::Singleton(a), Type::Singleton(b)) => a == b,
        (Type::Variadic(a), Type::Variadic(b)) => a.span == b.span,
        (Type::GenericPack(a), Type::GenericPack(b)) => a == b,
        (Type::Error(a), Type::Error(b)) => a == b,
        _ => false,
    }
}

// ----- lists -----

/// `v` in reverse order.
pub(crate) fn reversed<A>(v: Vec<A>) -> (r: Vec<A>)
    ensures
        r@.len() == v@.len(),
        forall|i: int| 0 <= i < v@.len() ==> r@[i] == v@[v@.len() - 1 - i],
{
    let ghost orig = v@;
    let mut v = v;
    let mut r: Vec<A> = Vec::new();
    while v.len() > 0
        invariant
            v@ == orig.take(v@.len() as int),
            v@.len() <= orig.len(),
            r@.len() + v@.len() == orig.len(),
            forall|i: int| 0 <= i < r@.len() ==> r@[i] == orig[orig.len() - 1 - i],
        decreases v@.len(),
    {
        let ghost before = v@;
        match v.pop() {
            Some(x) => {
                proof {
                    assert(x == orig[before.len() - 1]);
                }
                r.push(x);
                proof {
                    assert(v@ =~= orig.take(v@.len() as int));
                }
            },
            None => {},
        }
    }
    r
}

/// Rewrites each expression of `p`, in order.
pub fn walk_punctuated_exprs_mut<T: AstTransform>(t: &mut T, p: Punctuated<Expression>) -> (r: Punctuated<Expression>)
    ensures
        same_list(r, p),
        logged(old(t).rewrites(), final(t).rewrites(), flat(p.items@, expr_fn()), flat(r.items@, expr_fn())),
{
    let ghost l0 = t.rewrites();
    let ghost orig = p.items@;
    let Punctuated { items, has_trailing_separator } = p;
    let n = items.len();
    let mut rest = reversed(items);
    let mut out: Vec<Expression> = Vec::new();
    proof {
        lemma_logged_none(l0);
        assert(orig.take(0) =~= Seq::<Expression>::empty());
    }
    while rest.len() > 0
        invariant
            n == orig.len(),
            out@.len() + rest@.len() == n,
            forall|j: int| 0 <= j < rest@.len() ==> rest@[j] == orig[n - 1 - j],
            logged(l0, t.rewrites(), flat(orig.take(out@.len() as int), expr_fn()), flat(out@, expr_fn())),
        decreases rest@.len(),
    {
        let ghost k = out@.len() as int;
        let ghost before = rest@;
        let ghost out0 = out@;
        let ghost l1 = t.rewrites();
        if let Some(item) = rest.pop() {
            proof {
                assert(item == orig[k]);
            }
            let x = t.transform_expression(item);
            out.push(x);
            proof {
                lemma_logged_then(l0, l1, t.rewrites(), flat(orig.take(k), expr_fn()), flat(out0, expr_fn()), seq![Slot::Expression(item)], seq![Slot::Expression(x)]);
                lemma_flat_take(orig, k, expr_fn());
                lemma_flat_push(out0, x, expr_fn());
                assert forall|j: int| 0 <= j < rest@.len() implies rest@[j] == orig[n - 1 - j] by {
                    assert(rest@[j] == before[j]);
                }
            }
        }
    }
    proof {
        assert(orig.take(n as int) =~= orig);
    }
    Punctuated { items: out, has_trailing_separator }
}

/// Rewrites each variable of `p`, in order.
pub fn walk_punctuated_vars_mut<T: AstTransform>(t: &mut T, p: Punctuated<Var>) -> (r: Punctuated<Var>)
    ensures
        same_list(r, p),
        logged(old(t).rewrites(), final(t).rewrites(), flat(p.items@, var_fn()), flat(r.items@, var_fn())),
{
    let ghost l0 = t.rewrites();
    let ghost orig = p.items@;
    let Punctuated { items, has_trailing_separator } = p;
    let n = items.len();
    let mut rest = reversed(items);
    let mut out: Vec<Var> = Vec::new();
    proof {
        lemma_logged_none(l0);
        assert(orig.take(0) =~= Seq::<Var>::empty());
    }
    while rest.len() > 0
        invariant
            n == orig.len(),
            out@.len() + rest@.len() == n,
            forall|j: int| 0 <= j < rest@.len() ==> rest@[j] == orig[n - 1 - j],
            logged(l0, t.rewrites(), flat(orig.take(out@.len() as int), var_fn()), flat(out@, var_fn())),
        decreases rest@.len(),
    {
        let ghost k = out@.len() as int;
        let ghost before = rest@;
        let ghost out0 = out@;
        let ghost l1 = t.rewrites();
        if let Some(item) = rest.pop() {
            proof {
                assert(item == orig[k]);
            }
            let x = t.transform_var(item);
            out.push(x);
            proof {
                lemma_logged_then(l0, l1, t.rewrites(), flat(orig.take(k), var_fn()), flat(out0, var_fn()), seq![Slot::Var(item)], seq![Slot::Var(x)]);
                lemma_flat_take(orig, k, var_fn());
                lemma_flat_push(out0, x, var_fn());
                assert forall|j: int| 0 <= j < rest@.len() implies rest@[j] == orig[n - 1 - j] by {
                    assert(rest@[j] == before[j]);
                }
            }
        }
    }
    proof {
        assert(orig.take(n as int) =~= orig);
    }
    Punctuated { items: out, has_trailing_separator }
}

/// Rewrites each type of `p`, in order.
pub fn walk_punctuated_types_mut<T: AstTransform>(t: &mut T, p: Punctuated<Type>) -> (r: Punctuated<Type>)
    ensures
        same_list(r, p),
        logged(old(t).rewrites(), final(t).rewrites(), flat(p.items@, type_fn()), flat(r.items@, type_fn())),
{
    let ghost l0 = t.rewrites();
    let ghost orig = p.items@;
    let Punctuated { items, has_trailing_separator } = p;
    let n = items.len();
    let mut rest = reversed(items);
    let mut out: Vec<Type> = Vec::new();
    proof {
        lemma_logged_none(l0);
        assert(orig.take(0) =~= Seq::<Type>::empty());
    }
    while rest.len() > 0
        invariant
            n == orig.len(),
            out@.len() + rest@.len() == n,
            forall|j: int| 0 <= j < rest@.len() ==> rest@[j] == orig[n - 1 - j],
            logged(l0, t.rewrites(), flat(orig.take(out@.len() as int), type_fn()), flat(out@, type_fn())),
        decreases rest@.len(),
    {
        let ghost k = out@.len() as int;
        let ghost before = rest@;
        let ghost out0 = out@;
        let ghost l1 = t.rewrites();
        if let Some(item) = rest.pop() {
            proof {
                assert(item == orig[k]);
            }
            let x = t.transform_type(item);
            out.push(x);
            proof {
                lemma_logged_then(l0, l1, t.rewrites(), flat(orig.take(k), type_fn()), flat(out0, type_fn()), seq![Slot::Type(item)], seq![Slot::Type(x)]);
                lemma_flat_take(orig, k, type_fn());
                lemma_flat_push(out0, x, type_fn());
                assert forall|j: int| 0 <= j < rest@.len() implies rest@[j] == orig[n - 1 - j] by {
                    assert(rest@[j] == before[j]);
                }
            }
        }
    }
    proof {
        assert(orig.take(n as int) =~= orig);
    }
    Punctuated { items: out, has_trailing_separator }
}

/// Rewrites the type of an optional child.
fn walk_opt_type<T: AstTransform>(t: &mut T, ty: Option<Type>) -> (r: Option<Type>)
    ensures
        same_presence(r, ty),
        logged(old(t).rewrites(), final(t).rewrites(), opt_type_slots(ty), opt_type_slots(r)),
{
    match ty {
        Some(ty) => Some(t.transform_type(ty)),
        None => {
            proof {
                lemma_logged_none(t.rewrites());
            }
            None
        },
    }
}

/// Rewrites the type annotation of each parameter of `p`, in order.
pub fn walk_punctuated_params_mut<T: AstTransform>(t: &mut T, p: Punctuated<Parameter>) -> (r: Punctuated<Parameter>)
    ensures
        same_params(r, p),
        logged(old(t).rewrites(), final(t).rewrites(), flat(p.items@, param_fn()), flat(r.items@, param_fn())),
{
    let ghost l0 = t.rewrites();
    let ghost orig = p.items@;
    let Punctuated { items, has_trailing_separator } = p;
    let n = items.len();
    let mut rest = reversed(items);
    let mut out: Vec<Parameter> = Vec::new();
    proof {
        lemma_logged_none(l0);
        assert(orig.take(0) =~= Seq::<Parameter>::empty());
    }
    while rest.len() > 0
        invariant
            n == orig.len(),
            out@.len() + rest@.len() == n,
            forall|j: int| 0 <= j < rest@.len() ==> rest@[j] == orig[n - 1 - j],
            logged(l0, t.rewrites(), flat(orig.take(out@.len() as int), param_fn()), flat(out@, param_fn())),
            forall|i: int| 0 <= i < out@.len() ==> same_param(#[trigger] out@[i], orig[i]),
        decreases rest@.len(),
    {
        let ghost k = out@.len() as int;
        let ghost before = rest@;
        let ghost out0 = out@;
        let ghost l1 = t.rewrites();
        if let Some(item) = rest.pop() {
            proof {
                assert(item == orig[k]);
            }
            let ghost item0 = item;
            let Parameter { span, name, type_annotation } = item;
            let type_annotation = walk_opt_type(t, type_annotation);
            let x = Parameter { span, name, type_annotation };
            out.push(x);
            proof {
                lemma_logged_then(l0, l1, t.rewrites(), flat(orig.take(k), param_fn()), flat(out0, param_fn()), param_fn()(item0), param_fn()(x));
                lemma_flat_take(orig, k, param_fn());
                lemma_flat_push(out0, x, param_fn());
                assert forall|j: int| 0 <= j < rest@.len() implies rest@[j] == orig[n - 1 - j] by {
                    assert(rest@[j] == before[j]);
                }
            }
        }
    }
    proof {
        assert(orig.take(n as int) =~= orig);
    }
    Punctuated { items: out, has_trailing_separator }
}

/// Rewrites the type annotation of each bound name of `p`, in order.
pub fn walk_attributed_names_mut<T: AstTransform>(t: &mut T, p: Punctuated<AttributedName>) -> (r: Punctuated<
    AttributedName,
>)
    ensures
        same_attributed_names(r, p),
        logged(old(t).rewrites(), final(t).rewrites(), flat(p.items@, name_fn()), flat(r.items@, name_fn())),
{
    let ghost l0 = t.rewrites();
    let ghost orig = p.items@;
    let Punctuated { items, has_trailing_separator } = p;
    let n = items.len();
    let mut rest = reversed(items);
    let mut out: Vec<AttributedName> = Vec::new();
    proof {
        lemma_logged_none(l0);
        assert(orig.take(0) =~= Seq::<AttributedName>::empty());
    }
    while rest.len() > 0
        invariant
            n == orig.len(),
            out@.len() + rest@.len() == n,
            forall|j: int| 0 <= j < rest@.len() ==> rest@[j] == orig[n - 1 - j],
            logged(l0, t.rewrites(), flat(orig.take(out@.len() as int), name_fn()), flat(out@, name_fn())),
            forall|i: int| 0 <= i < out@.len() ==> same_attributed_name(#[trigger] out@[i], orig[i]),
        decreases rest@.len(),
    {
        let ghost k = out@.len() as int;
        let ghost before = rest@;
        let ghost out0 = out@;
        let ghost l1 = t.rewrites();
        if let Some(item) = rest.pop() {
            proof {
                assert(item == orig[k]);
            }
            let ghost item0 = item;
            let AttributedName { name, type_annotation, attrib } = item;
            let type_annotation = walk_opt_type(t, type_annotation);
            let x = AttributedName { name, type_annotation, attrib };
            out.push(x);
            proof {
                lemma_logged_then(l0, l1, t.rewrites(), flat(orig.take(k), name_fn()), flat(out0, name_fn()), name_fn()(item0), name_fn()(x));
                lemma_flat_take(orig, k, name_fn());
                lemma_flat_push(out0, x, name_fn());
                assert forall|j: int| 0 <= j < rest@.len() implies rest@[j] == orig[n - 1 - j] by {
                    assert(rest@[j] == before[j]);
                }
            }
        }
    }
    proof {
        assert(orig.take(n as int) =~= orig);
    }
    Punctuated { items: out, has_trailing_separator }
}

/// Rewrites the default of each generic parameter, in order.
pub fn walk_generic_type_list_mut<T: AstTransform>(t: &mut T, generics: GenericTypeList) -> (r: GenericTypeList)
    ensures
        same_generics(r, generics),
        logged(old(t).rewrites(), final(t).rewrites(), generics_slots(generics), generics_slots(r)),
{
    let ghost l0 = t.rewrites();
    let ghost orig = generics.params.items@;
    let GenericTypeList { span, params } = generics;
    let Punctuated { items, has_trailing_separator } = params;
    let n = items.len();
    let mut rest = reversed(items);
    let mut out: Vec<GenericTypeParam> = Vec::new();
    proof {
        lemma_logged_none(l0);
        assert(orig.take(0) =~= Seq::<GenericTypeParam>::empty());
    }
    while rest.len() > 0
        invariant
            n == orig.len(),
            out@.len() + rest@.len() == n,
            forall|j: int| 0 <= j < rest@.len() ==> rest@[j] == orig[n - 1 - j],
            logged(l0, t.rewrites(), flat(orig.take(out@.len() as int), generic_param_fn()), flat(out@, generic_param_fn())),
            forall|i: int| 0 <= i < out@.len() ==> same_generic_param(#[trigger] out@[i], orig[i]),
        decreases rest@.len(),
    {
        let ghost k = out@.len() as int;
        let ghost before = rest@;
        let ghost out0 = out@;
        let ghost l1 = t.rewrites();
        if let Some(item) = rest.pop() {
            proof {
                assert(item == orig[k]);
            }
            let ghost item0 = item;
            let GenericTypeParam { span, name, is_pack, default } = item;
            let default = walk_opt_type(t, default);
            let x = GenericTypeParam { span, name, is_pack, default };
            out.push(x);
            proof {
                lemma_logged_then(l0, l1, t.rewrites(), flat(orig.take(k), generic_param_fn()), flat(out0, generic_param_fn()), generic_param_fn()(item0), generic_param_fn()(x));
                lemma_flat_take(orig, k, generic_param_fn());
                lemma_flat_push(out0, x, generic_param_fn());
                assert forall|j: int| 0 <= j < rest@.len() implies rest@[j] == orig[n - 1 - j] by {
                    assert(rest@[j] == before[j]);
                }
            }
        }
    }
    proof {
        assert(orig.take(n as int) =~= orig);
    }
    GenericTypeList { span, params: Punctuated { items: out, has_trailing_separator } }
}

fn walk_boxed_generics<T: AstTransform>(t: &mut T, generics: Option<Box<GenericTypeList>>) -> (r: Option<
    Box<GenericTypeList>,
>)
    ensures
        same_boxed_generics(r, generics),
        logged(old(t).rewrites(), final(t).rewrites(), boxed_generics_slots(generics), boxed_generics_slots(r)),
{
    match generics {
        Some(g) => Some(Box::new(walk_generic_type_list_mut(t, *g))),
        None => {
            proof {
                lemma_logged_none(t.rewrites());
            }
            None
        },
    }
}

/// Rewrites the annotation types of `body`, then its block.
pub fn walk_function_body_mut<T: AstTransform>(t: &mut T, body: FunctionBody) -> (r: FunctionBody)
    ensures
        same_body(r, body),
        logged(old(t).rewrites(), final(t).rewrites(), body_slots(body), body_slots(r)),
{
    let ghost l0 = t.rewrites();
    let ghost b0 = body;
    let FunctionBody { span, generics, params, vararg, return_type, block } = body;
    let generics = walk_boxed_generics(t, generics);
    let ghost l1 = t.rewrites();
    let params = walk_punctuated_params_mut(t, params);
    let ghost l2 = t.rewrites();
    let vararg = match vararg {
        Some(VarArgParam { span, name, type_annotation }) => {
            let type_annotation = walk_opt_type(t, type_annotation);
            Some(VarArgParam { span, name, type_annotation })
        },
        None => {
            proof {
                lemma_logged_none(t.rewrites());
            }
            None
        },
    };
    let ghost l3 = t.rewrites();
    let return_type = walk_opt_type(t, return_type);
    let ghost l4 = t.rewrites();
    let block = t.transform_block(block);
    let r = FunctionBody { span, generics, params, vararg, return_type, block };
    proof {
        lemma_logged_then(l0, l1, l2, boxed_generics_slots(b0.generics), boxed_generics_slots(r.generics), flat(b0.params.items@, param_fn()), flat(r.params.items@, param_fn()));
        lemma_logged_then(l0, l2, l3, boxed_generics_slots(b0.generics) + flat(b0.params.items@, param_fn()), boxed_generics_slots(r.generics) + flat(r.params.items@, param_fn()), vararg_slots(b0.vararg), vararg_slots(r.vararg));
        lemma_logged_then(l0, l3, l4, boxed_generics_slots(b0.generics) + flat(b0.params.items@, param_fn()) + vararg_slots(b0.vararg), boxed_generics_slots(r.generics) + flat(r.params.items@, param_fn()) + vararg_slots(r.vararg), opt_type_slots(b0.return_type), opt_type_slots(r.return_type));
        lemma_logged_then(l0, l4, t.rewrites(), boxed_generics_slots(b0.generics) + flat(b0.params.items@, param_fn()) + vararg_slots(b0.vararg) + opt_type_slots(b0.return_type), boxed_generics_slots(r.generics) + flat(r.params.items@, param_fn()) + vararg_slots(r.vararg) + opt_type_slots(r.return_type), seq![Slot::Block(b0.block)], seq![Slot::Block(r.block)]);
    }
    r
}

/// Rewrites the keys and values of each field of `table`, in order.
pub fn walk_table_constructor_mut<T: AstTransform>(t: &mut T, table: TableConstructor) -> (r: TableConstructor)
    ensures
        same_table(r, table),
        logged(old(t).rewrites(), final(t).rewrites(), table_slots(table), table_slots(r)),
{
    let ghost l0 = t.rewrites();
    let ghost orig = table.fields.items@;
    let TableConstructor { span, fields } = table;
    let Punctuated { items, has_trailing_separator } = fields;
    let n = items.len();
    let mut rest = reversed(items);
    let mut out: Vec<Field> = Vec::new();
    proof {
        lemma_logged_none(l0);
        assert(orig.take(0) =~= Seq::<Field>::empty());
    }
    while rest.len() > 0
        invariant
            n == orig.len(),
            out@.len() + rest@.len() == n,
            forall|j: int| 0 <= j < rest@.len() ==> rest@[j] == orig[n - 1 - j],
            logged(l0, t.rewrites(), flat(orig.take(out@.len() as int), field_fn()), flat(out@, field_fn())),
            forall|i: int| 0 <= i < out@.len() ==> same_field(#[trigger] out@[i], orig[i]),
        decreases rest@.len(),
    {
        let ghost k = out@.len() as int;
        let ghost before = rest@;
        let ghost out0 = out@;
        let ghost l1 = t.rewrites();
        if let Some(item) = rest.pop() {
            proof {
                assert(item == orig[k]);
            }
            let ghost item0 = item;
            let x = match item {
                Field::Bracketed { span, key, value } => {
                    let ghost la = t.rewrites();
                    let key2 = t.transform_expression(key);
                    let ghost lb = t.rewrites();
                    let value2 = t.transform_expression(value);
                    proof {
                        lemma_logged_pair(la, lb, t.rewrites(), Slot::Expression(key), Slot::Expression(key2), Slot::Expression(value), Slot::Expression(value2));
                    }
                    Field::Bracketed { span, key: key2, value: value2 }
                },
                Field::Named { span, name, value } => {
                    let value = t.transform_expression(value);
                    Field::Named { span, name, value }
                },
                Field::Positional { span, value } => {
                    let value = t.transform_expression(value);
                    Field::Positional { span, value }
                },
            };
            out.push(x);
            proof {
                lemma_logged_then(l0, l1, t.rewrites(), flat(orig.take(k), field_fn()), flat(out0, field_fn()), field_fn()(item0), field_fn()(x));
                lemma_flat_take(orig, k, field_fn());
                lemma_flat_push(out0, x, field_fn());
                assert forall|j: int| 0 <= j < rest@.len() implies rest@[j] == orig[n - 1 - j] by {
                    assert(rest@[j] == before[j]);
                }
            }
        }
    }
    proof {
        assert(orig.take(n as int) =~= orig);
    }
    TableConstructor { span, fields: Punctuated { items: out, has_trailing_separator } }
}

/// Rewrites the arguments of a call.
pub fn walk_function_args_mut<T: AstTransform>(t: &mut T, args: FunctionArgs) -> (r: FunctionArgs)
    ensures
        same_args(r, args),
        logged(old(t).rewrites(), final(t).rewrites(), args_slots(args), args_slots(r)),
{
    match args {
        FunctionArgs::Parenthesized { span, args } => {
            let args = walk_punctuated_exprs_mut(t, args);
            FunctionArgs::Parenthesized { span, args }
        },
        FunctionArgs::TableConstructor(table) => {
            let table = walk_table_constructor_mut(t, *table);
            FunctionArgs::TableConstructor(Box::new(table))
        },
        FunctionArgs::StringLiteral(literal) => {
            proof {
                lemma_logged_none(t.rewrites());
            }
            FunctionArgs::StringLiteral(literal)
        },
    }
}

/// Rewrites the callee, then the arguments, of a call.
pub fn walk_function_call_mut<T: AstTransform>(t: &mut T, call: FunctionCall) -> (r: FunctionCall)
    ensures
        same_call(r, call),
        logged(old(t).rewrites(), final(t).rewrites(), call_slots(call), call_slots(r)),
{
    let ghost l0 = t.rewrites();
    let ghost c0 = call;
    let FunctionCall { span, callee, args, method } = call;
    let callee = t.transform_expression(callee);
    let ghost l1 = t.rewrites();
    let args = walk_function_args_mut(t, args);
    let r = FunctionCall { span, callee, args, method };
    proof {
        lemma_logged_then(l0, l1, t.rewrites(), seq![Slot::Expression(c0.callee)], seq![Slot::Expression(r.callee)], args_slots(c0.args), args_slots(r.args));
    }
    r
}

fn walk_opt_exprs<T: AstTransform>(t: &mut T, exprs: Option<Punctuated<Expression>>) -> (r: Option<
    Punctuated<Expression>,
>)
    ensures
        match (r, exprs) {
            (Some(x), Some(y)) => same_list(x, y),
            (None, None) => true,
            _ => false,
        },
        logged(old(t).rewrites(), final(t).rewrites(), opt_exprs_slots(exprs), opt_exprs_slots(r)),
{
    match exprs {
        Some(e) => Some(walk_punctuated_exprs_mut(t, e)),
        None => {
            proof {
                lemma_logged_none(t.rewrites());
            }
            None
        },
    }
}

/// Rewrites the children of `stmt` in source order, each through the
/// transform, and rebuilds the statement around them.
pub fn walk_statement_mut<T: AstTransform>(t: &mut T, stmt: Statement) -> (r: Statement)
    ensures
        same_statement_shape(r, stmt),
        logged(old(t).rewrites(), final(t).rewrites(), statement_slots(stmt), statement_slots(r)),
{
    let ghost l0 = t.rewrites();
    match stmt {
        Statement::Assignment(a) => {
            let Assignment { span, targets, values } = *a;
            let ghost t0 = targets;
            let ghost v0 = values;
            let targets = walk_punctuated_vars_mut(t, targets);
            let ghost l1 = t.rewrites();
            let values = walk_punctuated_exprs_mut(t, values);
            proof {
                lemma_logged_then(l0, l1, t.rewrites(), flat(t0.items@, var_fn()), flat(targets.items@, var_fn()), flat(v0.items@, expr_fn()), flat(values.items@, expr_fn()));
            }
            Statement::Assignment(Box::new(Assignment { span, targets, values }))
        },
        Statement::FunctionCall(c) => {
            let FunctionCallStmt { span, call } = *c;
            let call = walk_function_call_mut(t, call);
            Statement::FunctionCall(Box::new(FunctionCallStmt { span, call }))
        },
        Statement::DoBlock(d) => {
            let DoBlock { span, block } = *d;
            let block = t.transform_block(block);
            Statement::DoBlock(Box::new(DoBlock { span, block }))
        },
        Statement::WhileLoop(w) => {
            let WhileLoop { span, condition, block } = *w;
            let condition2 = t.transform_expression(condition);
            let ghost l1 = t.rewrites();
            let block2 = t.transform_block(block);
            proof {
                lemma_logged_pair(l0, l1, t.rewrites(), Slot::Expression(condition), Slot::Expression(condition2), Slot::Block(block), Slot::Block(block2));
            }
            Statement::WhileLoop(Box::new(WhileLoop { span, condition: condition2, block: block2 }))
        },
        Statement::RepeatLoop(rl) => {
            let RepeatLoop { span, block, condition } = *rl;
            let block2 = t.transform_block(block);
            let ghost l1 = t.rewrites();
            let condition2 = t.transform_expression(condition);
            proof {
                lemma_logged_pair(l0, l1, t.rewrites(), Slot::Block(block), Slot::Block(block2), Slot::Expression(condition), Slot::Expression(condition2));
            }
            Statement::RepeatLoop(Box::new(RepeatLoop { span, block: block2, condition: condition2 }))
        },
        Statement::IfStatement(i) => {
            let IfStatement { span, condition, block, elseif_clauses, else_clause } = *i;
            let condition2 = t.transform_expression(condition);
            let ghost l1 = t.rewrites();
            let block2 = t.transform_block(block);
            proof {
                lemma_logged_pair(l0, l1, t.rewrites(), Slot::Expression(condition), Slot::Expression(condition2), Slot::Block(block), Slot::Block(block2));
            }
            let ghost l2 = t.rewrites();
            let ghost orig = elseif_clauses@;
            let items = elseif_clauses;
            let n = items.len();
            let mut rest = reversed(items);
            let mut out: Vec<ElseIfClause> = Vec::new();
            proof {
                lemma_logged_none(t.rewrites());
                assert(orig.take(0) =~= Seq::<ElseIfClause>::empty());
            }
            let ghost lstart = t.rewrites();
            while rest.len() > 0
                invariant
                    n == orig.len(),
                    out@.len() + rest@.len() == n,
                    forall|j: int| 0 <= j < rest@.len() ==> rest@[j] == orig[n - 1 - j],
                    logged(lstart, t.rewrites(), flat(orig.take(out@.len() as int), elseif_fn()), flat(out@, elseif_fn())),
                            forall|i: int| 0 <= i < out@.len() ==> same_elseif(#[trigger] out@[i], orig[i]),
                decreases rest@.len(),
            {
                let ghost k = out@.len() as int;
                let ghost before = rest@;
                let ghost out0 = out@;
                let ghost l1 = t.rewrites();
                if let Some(item) = rest.pop() {
                    proof {
                        assert(item == orig[k]);
                    }
                    let ghost item0 = item;
                            let ElseIfClause { span, condition, block } = item;
                            let ghost la = t.rewrites();
                            let condition2 = t.transform_expression(condition);
                            let ghost lb = t.rewrites();
                            let block2 = t.transform_block(block);
                            proof {
                                lemma_logged_pair(la, lb, t.rewrites(), Slot::Expression(condition), Slot::Expression(condition2), Slot::Block(block), Slot::Block(block2));
                            }
                            let x = ElseIfClause { span, condition: condition2, block: block2 };
                    out.push(x);
                    proof {
                        lemma_logged_then(lstart, l1, t.rewrites(), flat(orig.take(k), elseif_fn()), flat(out0, elseif_fn()), elseif_fn()(item0), elseif_fn()(x));
                        lemma_flat_take(orig, k, elseif_fn());
                        lemma_flat_push(out0, x, elseif_fn());
                        assert forall|j: int| 0 <= j < rest@.len() implies rest@[j] == orig[n - 1 - j] by {
                            assert(rest@[j] == before[j]);
                        }
                    }
                }
            }
            proof {
                assert(orig.take(n as int) =~= orig);
            }
            let ghost l3 = t.rewrites();
            let ghost e0 = else_clause;
            let else_clause = match else_clause {
                Some(ElseClause { span, block }) => {
                    let block = t.transform_block(block);
                    Some(ElseClause { span, block })
                },
                None => {
                    proof {
                        lemma_logged_none(t.rewrites());
                    }
                    None
                },
            };
            proof {
                lemma_logged_then(l0, l2, l3, seq![Slot::Expression(condition), Slot::Block(block)], seq![Slot::Expression(condition2), Slot::Block(block2)], flat(orig, elseif_fn()), flat(out@, elseif_fn()));
                lemma_logged_then(l0, l3, t.rewrites(), seq![Slot::Expression(condition), Slot::Block(block)] + flat(orig, elseif_fn()), seq![Slot::Expression(condition2), Slot::Block(block2)] + flat(out@, elseif_fn()), else_slots(e0), else_slots(else_clause));
            }
            Statement::IfStatement(Box::new(IfStatement { span, condition: condition2, block: block2, elseif_clauses: out, else_clause }))
        },
        Statement::NumericFor(f) => {
            let NumericFor { span, name, type_annotation, start, limit, step, block } = *f;
            let ghost ta0 = type_annotation;
            let ghost step0 = step;
            let type_annotation = walk_opt_type(t, type_annotation);
            let ghost l1 = t.rewrites();
            let start2 = t.transform_expression(start);
            let ghost l2 = t.rewrites();
            let limit2 = t.transform_expression(limit);
            let ghost l3 = t.rewrites();
            let step = match step {
                Some(s) => Some(t.transform_expression(s)),
                None => {
                    proof {
                        lemma_logged_none(t.rewrites());
                    }
                    None
                },
            };
            let ghost l4 = t.rewrites();
            let block2 = t.transform_block(block);
            proof {
                let i1 = opt_type_slots(ta0);
                let o1 = opt_type_slots(type_annotation);
                lemma_logged_then(l0, l1, l2, i1, o1, seq![Slot::Expression(start)], seq![Slot::Expression(start2)]);
                let i2 = i1 + seq![Slot::Expression(start)];
                let o2 = o1 + seq![Slot::Expression(start2)];
                lemma_logged_then(l0, l2, l3, i2, o2, seq![Slot::Expression(limit)], seq![Slot::Expression(limit2)]);
                let i3 = i2 + seq![Slot::Expression(limit)];
                let o3 = o2 + seq![Slot::Expression(limit2)];
                lemma_logged_then(l0, l3, l4, i3, o3, opt_expr_slots(step0), opt_expr_slots(step));
                lemma_logged_then(l0, l4, t.rewrites(), i3 + opt_expr_slots(step0), o3 + opt_expr_slots(step), seq![Slot::Block(block)], seq![Slot::Block(block2)]);
            }
            Statement::NumericFor(Box::new(NumericFor { span, name, type_annotation, start: start2, limit: limit2, step, block: block2 }))
        },
        Statement::GenericFor(f) => {
            let GenericFor { span, names, exprs, block } = *f;
            let ghost n0 = names;
            let ghost x0 = exprs;
            let names = walk_punctuated_params_mut(t, names);
            let ghost l1 = t.rewrites();
            let exprs = walk_punctuated_exprs_mut(t, exprs);
            let ghost l2 = t.rewrites();
            let block2 = t.transform_block(block);
            proof {
                lemma_logged_then(l0, l1, l2, flat(n0.items@, param_fn()), flat(names.items@, param_fn()), flat(x0.items@, expr_fn()), flat(exprs.items@, expr_fn()));
                lemma_logged_then(l0, l2, t.rewrites(), flat(n0.items@, param_fn()) + flat(x0.items@, expr_fn()), flat(names.items@, param_fn()) + flat(exprs.items@, expr_fn()), seq![Slot::Block(block)], seq![Slot::Block(block2)]);
            }
            Statement::GenericFor(Box::new(GenericFor { span, names, exprs, block: block2 }))
        },
        Statement::FunctionDecl(f) => {
            let FunctionDecl { span, attributes, name, body } = *f;
            let body = walk_function_body_mut(t, body);
            Statement::FunctionDecl(Box::new(FunctionDecl { span, attributes, name, body }))
        },
        Statement::LocalFunction(f) => {
            let LocalFunction { span, attributes, name, body, is_const } = *f;
            let body = walk_function_body_mut(t, body);
            Statement::LocalFunction(Box::new(LocalFunction { span, attributes, name, body, is_const }))
        },
        Statement::LocalAssignment(l) => {
            let LocalAssignment { span, names, exprs, is_const } = *l;
            let ghost n0 = names;
            let ghost x0 = exprs;
            let names = walk_attributed_names_mut(t, names);
            let ghost l1 = t.rewrites();
            let exprs = walk_opt_exprs(t, exprs);
            proof {
                lemma_logged_then(l0, l1, t.rewrites(), flat(n0.items@, name_fn()), flat(names.items@, name_fn()), opt_exprs_slots(x0), opt_exprs_slots(exprs));
            }
            Statement::LocalAssignment(Box::new(LocalAssignment { span, names, exprs, is_const }))
        },
        Statement::CompoundAssignment(c) => {
            let CompoundAssignment { span, var, op, expr } = *c;
            let var2 = t.transform_var(var);
            let ghost l1 = t.rewrites();
            let expr2 = t.transform_expression(expr);
            proof {
                lemma_logged_pair(l0, l1, t.rewrites(), Slot::Var(var), Slot::Var(var2), Slot::Expression(expr), Slot::Expression(expr2));
            }
            Statement::CompoundAssignment(Box::new(CompoundAssignment { span, var: var2, op, expr: expr2 }))
        },
        Statement::GlobalFunction(g) => {
            let GlobalFunction { span, name, body } = *g;
            let body = walk_function_body_mut(t, body);
            Statement::GlobalFunction(Box::new(GlobalFunction { span, name, body }))
        },
        Statement::GlobalDeclaration(g) => {
            let GlobalDeclaration { span, names, exprs } = *g;
            let ghost n0 = names;
            let ghost x0 = exprs;
            let names = walk_attributed_names_mut(t, names);
            let ghost l1 = t.rewrites();
            let exprs = walk_opt_exprs(t, exprs);
            proof {
                lemma_logged_then(l0, l1, t.rewrites(), flat(n0.items@, name_fn()), flat(names.items@, name_fn()), opt_exprs_slots(x0), opt_exprs_slots(exprs));
            }
            Statement::GlobalDeclaration(Box::new(GlobalDeclaration { span, names, exprs }))
        },
        Statement::TypeDeclaration(d) => {
            let TypeDeclaration { span, is_exported, name, generics, type_value } = *d;
            let ghost g0 = generics;
            let ghost v0 = type_value;
            let generics = walk_boxed_generics(t, generics);
            let ghost l1 = t.rewrites();
            let type_value = match type_value {
                TypeDeclarationValue::Alias(alias) => TypeDeclarationValue::Alias(t.transform_type(alias)),
                TypeDeclarationValue::TypeFunction(body) => TypeDeclarationValue::TypeFunction(
                    Box::new(walk_function_body_mut(t, *body)),
                ),
            };
            proof {
                lemma_logged_then(l0, l1, t.rewrites(), boxed_generics_slots(g0), boxed_generics_slots(generics), type_value_slots(v0), type_value_slots(type_value));
            }
            Statement::TypeDeclaration(Box::new(TypeDeclaration { span, is_exported, name, generics, type_value }))
        },
        _ => {
            proof {
                lemma_logged_none(t.rewrites());
            }
            stmt
        },
    }
}

/// Rewrites the statements of `block` in order, then its last statement.
pub fn walk_block_mut<T: AstTransform>(t: &mut T, block: Block) -> (r: Block)
    ensures
        r.span == block.span,
        r.stmts@.len() == block.stmts@.len(),
        same_presence(r.last_stmt, block.last_stmt),
        logged(old(t).rewrites(), final(t).rewrites(), block_slots(block), block_slots(r)),
{
    let ghost l0 = t.rewrites();
    let ghost b0 = block;
    let ghost orig = block.stmts@;
    let Block { span, stmts, last_stmt } = block;
    let items = stmts;
    let n = items.len();
    let mut rest = reversed(items);
    let mut out: Vec<Statement> = Vec::new();
    proof {
        lemma_logged_none(t.rewrites());
        assert(orig.take(0) =~= Seq::<Statement>::empty());
    }
    let ghost lstart = t.rewrites();
    while rest.len() > 0
        invariant
            n == orig.len(),
            out@.len() + rest@.len() == n,
            forall|j: int| 0 <= j < rest@.len() ==> rest@[j] == orig[n - 1 - j],
            logged(lstart, t.rewrites(), flat(orig.take(out@.len() as int), stmt_fn()), flat(out@, stmt_fn())),
        decreases rest@.len(),
    {
        let ghost k = out@.len() as int;
        let ghost before = rest@;
        let ghost out0 = out@;
        let ghost l1 = t.rewrites();
        if let Some(item) = rest.pop() {
            proof {
                assert(item == orig[k]);
            }
            let ghost item0 = item;
            let x = t.transform_statement(item);
            out.push(x);
            proof {
                lemma_logged_then(lstart, l1, t.rewrites(), flat(orig.take(k), stmt_fn()), flat(out0, stmt_fn()), stmt_fn()(item0), stmt_fn()(x));
                lemma_flat_take(orig, k, stmt_fn());
                lemma_flat_push(out0, x, stmt_fn());
                assert forall|j: int| 0 <= j < rest@.len() implies rest@[j] == orig[n - 1 - j] by {
                    assert(rest@[j] == before[j]);
                }
            }
        }
    }
    proof {
        assert(orig.take(n as int) =~= orig);
    }
    let ghost l2 = t.rewrites();
    let last_stmt = match last_stmt {
        Some(last) => Some(Box::new(t.transform_last_statement(*last))),
        None => {
            proof {
                lemma_logged_none(t.rewrites());
            }
            None
        },
    };
    let r = Block { span, stmts: out, last_stmt };
    proof {
        lemma_logged_then(l0, l2, t.rewrites(), flat(b0.stmts@, stmt_fn()), flat(r.stmts@, stmt_fn()), last_slots(b0.last_stmt), last_slots(r.last_stmt));
    }
    r
}

/// Rewrites the children of `ty` in source order, each through the
/// transform, and rebuilds the type around them. Leaves without children
/// come back unchanged.
pub fn walk_type_mut<T: AstTransform>(t: &mut T, ty: Type) -> (r: Type)
    ensures
        same_type_shape(r, ty),
        (ty is Singleton || ty is GenericPack || ty is Error) ==> r == ty,
        logged(old(t).rewrites(), final(t).rewrites(), type_slots(ty), type_slots(r)),
{
    let ghost l0 = t.rewrites();
    match ty {
        Type::Named(named) => {
            let NamedType { span, prefix, name, generics } = *named;
            let generics = match generics {
                Some(TypeArgs { span, args }) => Some(TypeArgs { span, args: walk_punctuated_types_mut(t, args) }),
                None => {
                    proof {
                        lemma_logged_none(t.rewrites());
                    }
                    None
                },
            };
            Type::Named(Box::new(NamedType { span, prefix, name, generics }))
        },
        Type::Typeof(typeof_type) => {
            let TypeofType { span, expr } = *typeof_type;
            let expr = t.transform_expression(expr);
            Type::Typeof(Box::new(TypeofType { span, expr }))
        },
        Type::Table(table) => {
            let ghost orig = table.fields.items@;
            let TableType { span, fields } = *table;
            let Punctuated { items, has_trailing_separator } = fields;
            let n = items.len();
            let mut rest = reversed(items);
            let mut out: Vec<TypeField> = Vec::new();
            proof {
                lemma_logged_none(t.rewrites());
                assert(orig.take(0) =~= Seq::<TypeField>::empty());
            }
            let ghost lstart = t.rewrites();
            while rest.len() > 0
                invariant
                    n == orig.len(),
                    out@.len() + rest@.len() == n,
                    forall|j: int| 0 <= j < rest@.len() ==> rest@[j] == orig[n - 1 - j],
                    logged(lstart, t.rewrites(), flat(orig.take(out@.len() as int), type_field_fn()), flat(out@, type_field_fn())),
                            forall|i: int| 0 <= i < out@.len() ==> same_type_field(#[trigger] out@[i], orig[i]),
                decreases rest@.len(),
            {
                let ghost k = out@.len() as int;
                let ghost before = rest@;
                let ghost out0 = out@;
                let ghost l1 = t.rewrites();
                if let Some(item) = rest.pop() {
                    proof {
                        assert(item == orig[k]);
                    }
                    let ghost item0 = item;
                            let x = match item {
                                TypeField::Named { span, access, name, value } => {
                                    let value = t.transform_type(value);
                                    TypeField::Named { span, access, name, value }
                                },
                                TypeField::Indexer { span, access, key, value } => {
                                    let ghost la = t.rewrites();
                                    let key2 = t.transform_type(key);
                                    let ghost lb = t.rewrites();
                                    let value2 = t.transform_type(value);
                                    proof {
                                        lemma_logged_pair(la, lb, t.rewrites(), Slot::Type(key), Slot::Type(key2), Slot::Type(value), Slot::Type(value2));
                                    }
                                    TypeField::Indexer { span, access, key: key2, value: value2 }
                                },
                                TypeField::Array { span, value } => {
                                    let value = t.transform_type(value);
                                    TypeField::Array { span, value }
                                },
                            };
                    out.push(x);
                    proof {
                        lemma_logged_then(lstart, l1, t.rewrites(), flat(orig.take(k), type_field_fn()), flat(out0, type_field_fn()), type_field_fn()(item0), type_field_fn()(x));
                        lemma_flat_take(orig, k, type_field_fn());
                        lemma_flat_push(out0, x, type_field_fn());
                        assert forall|j: int| 0 <= j < rest@.len() implies rest@[j] == orig[n - 1 - j] by {
                            assert(rest@[j] == before[j]);
                        }
                    }
                }
            }
            proof {
                assert(orig.take(n as int) =~= orig);
            }
            Type::Table(Box::new(TableType { span, fields: Punctuated { items: out, has_trailing_separator } }))
        },
        Type::Function(function_type) => {
            let ghost orig = function_type.params.items@;
            let FunctionType { span, generics, params, return_type } = *function_type;
            let ghost g0 = generics;
            let generics = match generics {
                Some(g) => Some(walk_generic_type_list_mut(t, g)),
                None => {
                    proof {
                        lemma_logged_none(t.rewrites());
                    }
                    None
                },
            };
            let ghost l1 = t.rewrites();
            let Punctuated { items, has_trailing_separator } = params;
            let n = items.len();
            let mut rest = reversed(items);
            let mut out: Vec<FunctionTypeParam> = Vec::new();
            proof {
                lemma_logged_none(t.rewrites());
                assert(orig.take(0) =~= Seq::<FunctionTypeParam>::empty());
            }
            let ghost lstart = t.rewrites();
            while rest.len() > 0
                invariant
                    n == orig.len(),
                    out@.len() + rest@.len() == n,
                    forall|j: int| 0 <= j < rest@.len() ==> rest@[j] == orig[n - 1 - j],
                    logged(lstart, t.rewrites(), flat(orig.take(out@.len() as int), fn_type_param_fn()), flat(out@, fn_type_param_fn())),
                            forall|i: int| 0 <= i < out@.len() ==> same_function_type_param(#[trigger] out@[i], orig[i]),
                decreases rest@.len(),
            {
                let ghost k = out@.len() as int;
                let ghost before = rest@;
                let ghost out0 = out@;
                let ghost l1 = t.rewrites();
                if let Some(item) = rest.pop() {
                    proof {
                        assert(item == orig[k]);
                    }
                    let ghost item0 = item;
                            let FunctionTypeParam { span, name, type_value } = item;
                            let type_value = t.transform_type(type_value);
                            let x = FunctionTypeParam { span, name, type_value };
                    out.push(x);
                    proof {
                        lemma_logged_then(lstart, l1, t.rewrites(), flat(orig.take(k), fn_type_param_fn()), flat(out0, fn_type_param_fn()), fn_type_param_fn()(item0), fn_type_param_fn()(x));
                        lemma_flat_take(orig, k, fn_type_param_fn());
                        lemma_flat_push(out0, x, fn_type_param_fn());
                        assert forall|j: int| 0 <= j < rest@.len() implies rest@[j] == orig[n - 1 - j] by {
                            assert(rest@[j] == before[j]);
                        }
                    }
                }
            }
            proof {
                assert(orig.take(n as int) =~= orig);
            }
            let ghost l2 = t.rewrites();
            let return_type2 = t.transform_type(return_type);
            proof {
                lemma_logged_then(l0, l1, l2, opt_generics_slots(g0), opt_generics_slots(generics), flat(orig, fn_type_param_fn()), flat(out@, fn_type_param_fn()));
                lemma_logged_then(l0, l2, t.rewrites(), opt_generics_slots(g0) + flat(orig, fn_type_param_fn()), opt_generics_slots(generics) + flat(out@, fn_type_param_fn()), seq![Slot::Type(return_type)], seq![Slot::Type(return_type2)]);
            }
            Type::Function(
                Box::new(
                    FunctionType {
                        span,
                        generics,
                        params: Punctuated { items: out, has_trailing_separator },
                        return_type: return_type2,
                    },
                ),
            )
        },
        Type::Optional(o) => {
            let OptionalType { span, type_value } = *o;
            let type_value = t.transform_type(type_value);
            Type::Optional(Box::new(OptionalType { span, type_value }))
        },
        Type::Union(u) => {
            let UnionType { span, has_leading_pipe, types } = *u;
            let types = walk_punctuated_types_mut(t, types);
            Type::Union(Box::new(UnionType { span, has_leading_pipe, types }))
        },
        Type::Intersection(i) => {
            let IntersectionType { span, has_leading_ampersand, types } = *i;
            let types = walk_punctuated_types_mut(t, types);
            Type::Intersection(Box::new(IntersectionType { span, has_leading_ampersand, types }))
        },
        Type::Negation(neg) => {
            let NegationType { span, type_value } = *neg;
            let type_value = t.transform_type(type_value);
            Type::Negation(Box::new(NegationType { span, type_value }))
        },
        Type::Parenthesized(p) => {
            let ParenType { span, type_value } = *p;
            let type_value = t.transform_type(type_value);
            Type::Parenthesized(Box::new(ParenType { span, type_value }))
        },
        Type::Pack(p) => {
            let TypePack { span, types } = *p;
            let types = walk_punctuated_types_mut(t, types);
            Type::Pack(Box::new(TypePack { span, types }))
        },
        Type::Variadic(v) => {
            let VariadicType { span, type_value } = *v;
            let type_value = t.transform_type(type_value);
            Type::Variadic(Box::new(VariadicType { span, type_value }))
        },
        _ => {
            proof {
                lemma_logged_none(t.rewrites());
            }
            ty
        },
    }
}

/// `r` is `e` with its direct children rewritten: the same variant,
/// spans, tokens and attributes, and the same number and order of
/// children; leaves without children are unchanged.
pub open spec fn same_expression_shape(r: Expression, e: Expression) -> bool {
    match (r, e) {
        (Expression::FunctionDef(a), Expression::FunctionDef(b)) => a.span == b.span && a.attributes == b.attributes
            && same_body(a.body, b.body),
        (Expression::Var(_), Expression::Var(_)) => true,
        (Expression::FunctionCall(a), Expression::FunctionCall(b)) => same_call(*a, *b),
        (Expression::Parenthesized(a), Expression::Parenthesized(b)) => a.span == b.span,
        (Expression::TableConstructor(a), Expression::TableConstructor(b)) => same_table(*a, *b),
        (Expression::BinaryOp(a), Expression::BinaryOp(b)) => a.span == b.span && a.op == b.op,
        (Expression::UnaryOp(a), Expression::UnaryOp(b)) => a.span == b.span && a.op == b.op,
        (Expression::IfExpression(a), Expression::IfExpression(b)) => a.span == b.span && a.elseif_clauses@.len()
            == b.elseif_clauses@.len() && forall|k: int|
            0 <= k < a.elseif_clauses@.len() ==> (#[trigger] a.elseif_clauses@[k]).span == b.elseif_clauses@[k].span,
        (Expression::InterpolatedString(a), Expression::InterpolatedString(b)) => a.span == b.span && a.segments@.len()
            == b.segments@.len() && forall|k: int|
            0 <= k < a.segments@.len() ==> (#[trigger] a.segments@[k]).literal == b.segments@[k].literal
                && same_presence(a.segments@[k].expr, b.segments@[k].expr),
        (Expression::TypeCast(a), Expression::TypeCast(b)) => a.span == b.span,
        _ => r == e,
    }
}

/// Rewrites the children of `expr` in source order, each through the
/// transform, and rebuilds the expression around them.
pub fn walk_expression_mut<T: AstTransform>(t: &mut T, expr: Expression) -> (r: Expression)
    ensures
        same_expression_shape(r, expr),
        logged(old(t).rewrites(), final(t).rewrites(), expression_slots(expr), expression_slots(r)),
{
    let ghost l0 = t.rewrites();
    match expr {
        Expression::FunctionDef(f) => {
            let FunctionDef { span, attributes, body } = *f;
            let body = walk_function_body_mut(t, body);
            Expression::FunctionDef(Box::new(FunctionDef { span, attributes, body }))
        },
        Expression::Var(v) => Expression::Var(Box::new(t.transform_var(*v))),
        Expression::FunctionCall(c) => Expression::FunctionCall(Box::new(walk_function_call_mut(t, *c))),
        Expression::Parenthesized(p) => {
            let ParenExpression { span, expr } = *p;
            let expr = t.transform_expression(expr);
            Expression::Parenthesized(Box::new(ParenExpression { span, expr }))
        },
        Expression::TableConstructor(table) => Expression::TableConstructor(
            Box::new(walk_table_constructor_mut(t, *table)),
        ),
        Expression::BinaryOp(b) => {
            let BinaryOp { span, left, op, right } = *b;
            let left2 = t.transform_expression(left);
            let ghost l1 = t.rewrites();
            let right2 = t.transform_expression(right);
            proof {
                lemma_logged_pair(l0, l1, t.rewrites(), Slot::Expression(left), Slot::Expression(left2), Slot::Expression(right), Slot::Expression(right2));
            }
            Expression::BinaryOp(Box::new(BinaryOp { span, left: left2, op, right: right2 }))
        },
        Expression::UnaryOp(u) => {
            let UnaryOp { span, op, operand } = *u;
            let operand = t.transform_expression(operand);
            Expression::UnaryOp(Box::new(UnaryOp { span, op, operand }))
        },
        Expression::IfExpression(i) => {
            let IfExpression { span, condition, then_expr, elseif_clauses, else_expr } = *i;
            let condition2 = t.transform_expression(condition);
            let ghost l1 = t.rewrites();
            let then2 = t.transform_expression(then_expr);
            proof {
                lemma_logged_pair(l0, l1, t.rewrites(), Slot::Expression(condition), Slot::Expression(condition2), Slot::Expression(then_expr), Slot::Expression(then2));
            }
            let ghost l2 = t.rewrites();
            let ghost orig = elseif_clauses@;
            let items = elseif_clauses;
            let n = items.len();
            let mut rest = reversed(items);
            let mut out: Vec<ElseIfExprClause> = Vec::new();
            proof {
                lemma_logged_none(t.rewrites());
                assert(orig.take(0) =~= Seq::<ElseIfExprClause>::empty());
            }
            let ghost lstart = t.rewrites();
            while rest.len() > 0
                invariant
                    n == orig.len(),
                    out@.len() + rest@.len() == n,
                    forall|j: int| 0 <= j < rest@.len() ==> rest@[j] == orig[n - 1 - j],
                    logged(lstart, t.rewrites(), flat(orig.take(out@.len() as int), elseif_expr_fn()), flat(out@, elseif_expr_fn())),
                            forall|i: int| 0 <= i < out@.len() ==> (#[trigger] out@[i]).span == orig[i].span,
                decreases rest@.len(),
            {
                let ghost k = out@.len() as int;
                let ghost before = rest@;
                let ghost out0 = out@;
                let ghost l1 = t.rewrites();
                if let Some(item) = rest.pop() {
                    proof {
                        assert(item == orig[k]);
                    }
                    let ghost item0 = item;
                            let ElseIfExprClause { span, condition, expr } = item;
                            let ghost la = t.rewrites();
                            let condition2 = t.transform_expression(condition);
                            let ghost lb = t.rewrites();
                            let expr2 = t.transform_expression(expr);
                            proof {
                                lemma_logged_pair(la, lb, t.rewrites(), Slot::Expression(condition), Slot::Expression(condition2), Slot::Expression(expr), Slot::Expression(expr2));
                            }
                            let x = ElseIfExprClause { span, condition: condition2, expr: expr2 };
                    out.push(x);
                    proof {
                        lemma_logged_then(lstart, l1, t.rewrites(), flat(orig.take(k), elseif_expr_fn()), flat(out0, elseif_expr_fn()), elseif_expr_fn()(item0), elseif_expr_fn()(x));
                        lemma_flat_take(orig, k, elseif_expr_fn());
                        lemma_flat_push(out0, x, elseif_expr_fn());
                        assert forall|j: int| 0 <= j < rest@.len() implies rest@[j] == orig[n - 1 - j] by {
                            assert(rest@[j] == before[j]);
                        }
                    }
                }
            }
            proof {
                assert(orig.take(n as int) =~= orig);
            }
            let ghost l3 = t.rewrites();
            let else2 = t.transform_expression(else_expr);
            proof {
                lemma_logged_then(l0, l2, l3, seq![Slot::Expression(condition), Slot::Expression(then_expr)], seq![Slot::Expression(condition2), Slot::Expression(then2)], flat(orig, elseif_expr_fn()), flat(out@, elseif_expr_fn()));
                lemma_logged_then(l0, l3, t.rewrites(), seq![Slot::Expression(condition), Slot::Expression(then_expr)] + flat(orig, elseif_expr_fn()), seq![Slot::Expression(condition2), Slot::Expression(then2)] + flat(out@, elseif_expr_fn()), seq![Slot::Expression(else_expr)], seq![Slot::Expression(else2)]);
            }
            Expression::IfExpression(
                Box::new(IfExpression { span, condition: condition2, then_expr: then2, elseif_clauses: out, else_expr: else2 }),
            )
        },
        Expression::InterpolatedString(s) => {
            let InterpolatedString { span, segments } = *s;
            let ghost orig = segments@;
            let items = segments;
            let n = items.len();
            let mut rest = reversed(items);
            let mut out: Vec<InterpSegment> = Vec::new();
            proof {
                lemma_logged_none(t.rewrites());
                assert(orig.take(0) =~= Seq::<InterpSegment>::empty());
            }
            let ghost lstart = t.rewrites();
            while rest.len() > 0
                invariant
                    n == orig.len(),
                    out@.len() + rest@.len() == n,
                    forall|j: int| 0 <= j < rest@.len() ==> rest@[j] == orig[n - 1 - j],
                    logged(lstart, t.rewrites(), flat(orig.take(out@.len() as int), segment_fn()), flat(out@, segment_fn())),
                            forall|i: int|
                                0 <= i < out@.len() ==> (#[trigger] out@[i]).literal == orig[i].literal && same_presence(
                                    out@[i].expr,
                                    orig[i].expr,
                                ),
                decreases rest@.len(),
            {
                let ghost k = out@.len() as int;
                let ghost before = rest@;
                let ghost out0 = out@;
                let ghost l1 = t.rewrites();
                if let Some(item) = rest.pop() {
                    proof {
                        assert(item == orig[k]);
                    }
                    let ghost item0 = item;
                            let InterpSegment { literal, expr } = item;
                            let expr = match expr {
                                Some(e) => Some(t.transform_expression(e)),
                                None => {
                                    proof {
                                        lemma_logged_none(t.rewrites());
                                    }
                                    None
                                },
                            };
                            let x = InterpSegment { literal, expr };
                    out.push(x);
                    proof {
                        lemma_logged_then(lstart, l1, t.rewrites(), flat(orig.take(k), segment_fn()), flat(out0, segment_fn()), segment_fn()(item0), segment_fn()(x));
                        lemma_flat_take(orig, k, segment_fn());
                        lemma_flat_push(out0, x, segment_fn());
                        assert forall|j: int| 0 <= j < rest@.len() implies rest@[j] == orig[n - 1 - j] by {
                            assert(rest@[j] == before[j]);
                        }
                    }
                }
            }
            proof {
                assert(orig.take(n as int) =~= orig);
            }
            Expression::InterpolatedString(Box::new(InterpolatedString { span, segments: out }))
        },
        Expression::TypeCast(c) => {
            let TypeCast { span, expr, type_annotation } = *c;
            let expr2 = t.transform_expression(expr);
            let ghost l1 = t.rewrites();
            let type2 = t.transform_type(type_annotation);
            proof {
                lemma_logged_pair(l0, l1, t.rewrites(), Slot::Expression(expr), Slot::Expression(expr2), Slot::Type(type_annotation), Slot::Type(type2));
            }
            Expression::TypeCast(Box::new(TypeCast { span, expr: expr2, type_annotation: type2 }))
        },
        _ => {
            proof {
                lemma_logged_none(t.rewrites());
            }
            expr
        },
    }
}

/// Rewrites the expressions a variable reference holds; a plain name
/// comes back unchanged.
pub fn walk_var_mut<T: AstTransform>(t: &mut T, var: Var) -> (r: Var)
    ensures
        match (r, var) {
            (Var::Index(a), Var::Index(b)) => a.span == b.span,
            (Var::FieldAccess(a), Var::FieldAccess(b)) => a.span == b.span && a.name == b.name,
            (Var::Name(a), Var::Name(b)) => a == b,
            _ => false,
        },
        logged(old(t).rewrites(), final(t).rewrites(), var_slots(var), var_slots(r)),
{
    match var {
        Var::Name(name) => {
            proof {
                lemma_logged_none(t.rewrites());
            }
            Var::Name(name)
        },
        Var::Index(i) => {
            let IndexExpression { span, prefix, index } = *i;
            let ghost la = t.rewrites();
            let prefix2 = t.transform_expression(prefix);
            let ghost lb = t.rewrites();
            let index2 = t.transform_expression(index);
            proof {
                lemma_logged_pair(la, lb, t.rewrites(), Slot::Expression(prefix), Slot::Expression(prefix2), Slot::Expression(index), Slot::Expression(index2));
            }
            Var::Index(Box::new(IndexExpression { span, prefix: prefix2, index: index2 }))
        },
        Var::FieldAccess(f) => {
            let FieldAccess { span, prefix, name } = *f;
            let prefix = t.transform_expression(prefix);
            Var::FieldAccess(Box::new(FieldAccess { span, prefix, name }))
        },
    }
}

/// Rewrites the returned expressions of a `return`; the other last
/// statements come back unchanged.
pub fn walk_last_statement_mut<T: AstTransform>(t: &mut T, last: LastStatement) -> (r: LastStatement)
    ensures
        match (r, last) {
            (LastStatement::Return(a), LastStatement::Return(b)) => a.span == b.span && same_list(a.exprs, b.exprs),
            (LastStatement::Break(a), LastStatement::Break(b)) => a == b,
            (LastStatement::Continue(a), LastStatement::Continue(b)) => a == b,
            (LastStatement::Error(a), LastStatement::Error(b)) => a == b,
            _ => false,
        },
        logged(old(t).rewrites(), final(t).rewrites(), last_statement_slots(last), last_statement_slots(r)),
{
    match last {
        LastStatement::Return(ret) => {
            let ReturnStatement { span, exprs } = *ret;
            let exprs = walk_punctuated_exprs_mut(t, exprs);
            LastStatement::Return(Box::new(ReturnStatement { span, exprs }))
        },
        _ => {
            proof {
                lemma_logged_none(t.rewrites());
            }
            last
        },
    }
}

} // verus!
