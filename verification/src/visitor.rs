//! Read-only traversal of the syntax tree: a visitor is handed nodes, and
//! the walkers here hand it the direct children of one node, in source
//! order, each exactly once and nothing else. A visitor keeps a ghost record
//! of its visits, each call's entries bracketed by the node it opens with
//! and a closing `Done`; the walkers' contracts say exactly which top-level
//! calls they add to it.

use vstd::prelude::*;
use crate::ast::{ElseIfExprClause, InterpSegment, TypeField, FunctionTypeParam, VarArgParam, Expression, Var, FunctionCall, FunctionArgs, TableConstructor, FunctionBody, Parameter, Block, Field, Statement, LastStatement, Assignment, DoBlock, WhileLoop, RepeatLoop, IfStatement, ElseIfClause, ElseClause, NumericFor, GenericFor, FunctionDecl, LocalFunction, AttributedName, LocalAssignment, CompoundAssignment, TypeDeclaration, TypeDeclarationValue, GlobalDeclaration, GlobalFunction, Type, GenericTypeList, GenericTypeParam};
use crate::punctuated::Punctuated;

verus! {

/// An entry of a visitor's record: a node handed to it, or the end of the
/// visit that a node opened.
pub enum Visited {
    Block(Block),
    Statement(Statement),
    Expression(Expression),
    Var(Var),
    FunctionBody(FunctionBody),
    LastStatement(LastStatement),
    Type(Type),
    /// The visit opened by the matching earlier entry is over.
    Done,
}

/// How many visits are open at the end of `s`: each node entry opens one,
/// each `Done` closes one.
pub open spec fn depth(s: Seq<Visited>) -> int
    decreases s.len(),
{
    if s.len() == 0 {
        0
    } else {
        depth(s.drop_last()) + if s.last() is Done {
            -1int
        } else {
            1int
        }
    }
}

/// The entries of `s` made at depth zero: the nodes handed over directly,
/// not from inside another visit.
pub open spec fn tops(s: Seq<Visited>) -> Seq<Visited>
    decreases s.len(),
{
    if s.len() == 0 {
        Seq::empty()
    } else {
        tops(s.drop_last()) + if depth(s.drop_last()) == 0 && !(s.last() is Done) {
            seq![s.last()]
        } else {
            Seq::empty()
        }
    }
}

/// `s` is what one visit call recorded: it opens with `x`, stays open
/// until its last entry, and closes there.
pub open spec fn one_visit(s: Seq<Visited>, x: Visited) -> bool {
    &&& s.len() >= 1
    &&& s[0] == x
    &&& !(x is Done)
    &&& depth(s) == 0
    &&& forall|i: int| 1 <= i < s.len() ==> depth(#[trigger] s.take(i)) >= 1
}

/// `s` is a run of whole visits, one after another.
pub open spec fn whole_visits(s: Seq<Visited>) -> bool {
    &&& depth(s) == 0
    &&& forall|i: int| 0 <= i <= s.len() ==> depth(#[trigger] s.take(i)) >= 0
}

/// `after` is `before` followed by the record of exactly one visit call,
/// opened by `x`.
pub open spec fn visit_recorded(before: Seq<Visited>, after: Seq<Visited>, x: Visited) -> bool {
    &&& after.len() > before.len()
    &&& after.take(before.len() as int) == before
    &&& one_visit(after.skip(before.len() as int), x)
}

/// A read-only traversal. Each `visit_*` records the node it is handed,
/// then whatever the visit records inside it (such as the visits of that
/// node's own children, each a whole visit), then `Done`.
pub trait Visitor {
    /// The record of this visitor's visits, in order.
    spec fn visited(&self) -> Seq<Visited>;

    fn visit_block(&mut self, block: &Block)
        ensures
            visit_recorded(old(self).visited(), final(self).visited(), Visited::Block(*block)),
    ;

    fn visit_statement(&mut self, stmt: &Statement)
        ensures
            visit_recorded(old(self).visited(), final(self).visited(), Visited::Statement(*stmt)),
    ;

    fn visit_expression(&mut self, expr: &Expression)
        ensures
            visit_recorded(old(self).visited(), final(self).visited(), Visited::Expression(*expr)),
    ;

    fn visit_var(&mut self, var: &Var)
        ensures
            visit_recorded(old(self).visited(), final(self).visited(), Visited::Var(*var)),
    ;

    fn visit_function_body(&mut self, body: &FunctionBody)
        ensures
            visit_recorded(old(self).visited(), final(self).visited(), Visited::FunctionBody(*body)),
    ;

    fn visit_last_statement(&mut self, last: &LastStatement)
        ensures
            visit_recorded(old(self).visited(), final(self).visited(), Visited::LastStatement(*last)),
    ;

    fn visit_type(&mut self, type_value: &Type)
        ensures
            visit_recorded(old(self).visited(), final(self).visited(), Visited::Type(*type_value)),
    ;
}

/// `after` is `before` followed by one whole visit call per node of
/// `targets`, in order, and nothing else: each call opens with its node
/// and holds only what that call recorded.
pub open spec fn visits_exactly(before: Seq<Visited>, after: Seq<Visited>, targets: Seq<Visited>) -> bool {
    &&& before.len() <= after.len()
    &&& after.take(before.len() as int) == before
    &&& whole_visits(after.skip(before.len() as int))
    &&& tops(after.skip(before.len() as int)) == targets
}

pub proof fn lemma_depth_concat(a: Seq<Visited>, b: Seq<Visited>)
    ensures
        depth(a + b) == depth(a) + depth(b),
    decreases b.len(),
{
    if b.len() == 0 {
        assert(a + b =~= a);
    } else {
        assert((a + b).drop_last() =~= a + b.drop_last());
        lemma_depth_concat(a, b.drop_last());
    }
}

pub proof fn lemma_tops_concat(a: Seq<Visited>, b: Seq<Visited>)
    requires
        depth(a) == 0,
    ensures
        tops(a + b) == tops(a) + tops(b),
    decreases b.len(),
{
    if b.len() == 0 {
        assert(a + b =~= a);
        assert(tops(a) + tops(b) =~= tops(a));
    } else {
        assert((a + b).drop_last() =~= a + b.drop_last());
        lemma_tops_concat(a, b.drop_last());
        lemma_depth_concat(a, b.drop_last());
        assert(tops(a) + tops(b.drop_last()) + (if depth(b.drop_last()) == 0 && !(b.last() is Done) {
            seq![b.last()]
        } else {
            Seq::empty()
        }) =~= tops(a) + tops(b));
    }
}

proof fn lemma_visits_none(l: Seq<Visited>)
    ensures
        visits_exactly(l, l, Seq::empty()),
{
    assert(l.take(l.len() as int) =~= l);
    let d = l.skip(l.len() as int);
    assert(d =~= Seq::<Visited>::empty());
    assert forall|i: int| 0 <= i <= d.len() implies depth(#[trigger] d.take(i)) >= 0 by {
        assert(d.take(i) =~= Seq::<Visited>::empty());
    }
}

proof fn lemma_visits_then(a: Seq<Visited>, b: Seq<Visited>, c: Seq<Visited>, s1: Seq<Visited>, s2: Seq<Visited>)
    requires
        visits_exactly(a, b, s1),
        visits_exactly(b, c, s2),
    ensures
        visits_exactly(a, c, s1 + s2),
{
    let d1 = b.skip(a.len() as int);
    let d2 = c.skip(b.len() as int);
    let d = c.skip(a.len() as int);
    assert(c.take(a.len() as int) =~= b.take(a.len() as int)) by {
        assert forall|i: int| 0 <= i < a.len() implies c.take(a.len() as int)[i] == b.take(a.len() as int)[i] by {
            assert(c.take(b.len() as int)[i] == b[i]);
        }
    }
    assert(d =~= d1 + d2) by {
        assert forall|i: int| 0 <= i < d.len() implies d[i] == (d1 + d2)[i] by {
            if i < d1.len() {
                assert(c.take(b.len() as int)[a.len() + i] == b[a.len() + i]);
            }
        }
    }
    lemma_depth_concat(d1, d2);
    lemma_tops_concat(d1, d2);
    assert forall|i: int| 0 <= i <= d.len() implies depth(#[trigger] d.take(i)) >= 0 by {
        if i <= d1.len() {
            assert(d.take(i) =~= d1.take(i));
        } else {
            assert(d.take(i) =~= d1 + d2.take(i - d1.len()));
            lemma_depth_concat(d1, d2.take(i - d1.len()));
        }
    }
}

proof fn lemma_one_visit_tops(s: Seq<Visited>, x: Visited, k: int)
    requires
        one_visit(s, x),
        1 <= k <= s.len(),
    ensures
        tops(s.take(k)) == seq![x],
    decreases k,
{
    if k == 1 {
        assert(s.take(1).drop_last() =~= Seq::<Visited>::empty());
        assert(tops(Seq::<Visited>::empty()) + seq![x] =~= seq![x]);
    } else {
        lemma_one_visit_tops(s, x, k - 1);
        assert(s.take(k).drop_last() =~= s.take(k - 1));
        assert(depth(s.take(k - 1)) >= 1);
        assert(seq![x] + Seq::<Visited>::empty() =~= seq![x]);
    }
}

proof fn lemma_visits_one(before: Seq<Visited>, after: Seq<Visited>, x: Visited)
    requires
        visit_recorded(before, after, x),
    ensures
        visits_exactly(before, after, seq![x]),
{
    let d = after.skip(before.len() as int);
    lemma_one_visit_tops(d, x, d.len() as int);
    assert(d.take(d.len() as int) =~= d);
    assert forall|i: int| 0 <= i <= d.len() implies depth(#[trigger] d.take(i)) >= 0 by {
        if i == 0 {
            assert(d.take(0) =~= Seq::<Visited>::empty());
        } else if i == d.len() {
        } else {
        }
    }
}

// ----- what each node hands on -----

pub open spec fn expression_visit(e: Expression) -> Seq<Visited> {
    seq![Visited::Expression(e)]
}

pub open spec fn var_visit(v: Var) -> Seq<Visited> {
    seq![Visited::Var(v)]
}

/// The visit of an optional type, if present.
pub open spec fn optional_type_visit(ty: Option<Type>) -> Seq<Visited> {
    match ty {
        Some(t) => seq![Visited::Type(t)],
        None => Seq::empty(),
    }
}

/// The visit of an optional expression, if present.
pub open spec fn optional_expression_visit(e: Option<Expression>) -> Seq<Visited> {
    match e {
        Some(x) => seq![Visited::Expression(x)],
        None => Seq::empty(),
    }
}

pub open spec fn param_visit(p: Parameter) -> Seq<Visited> {
    optional_type_visit(p.type_annotation)
}

pub open spec fn attributed_name_visit(n: AttributedName) -> Seq<Visited> {
    optional_type_visit(n.type_annotation)
}

pub open spec fn generic_param_visit(g: GenericTypeParam) -> Seq<Visited> {
    optional_type_visit(g.default)
}

/// A table field hands on its key (if bracketed), then its value.
pub open spec fn field_visits(f: Field) -> Seq<Visited> {
    match f {
        Field::Bracketed { key, value, .. } => seq![Visited::Expression(key), Visited::Expression(value)],
        Field::Named { value, .. } => seq![Visited::Expression(value)],
        Field::Positional { value, .. } => seq![Visited::Expression(value)],
    }
}

/// An `elseif` clause hands on its condition, then its block.
pub open spec fn elseif_visits(c: ElseIfClause) -> Seq<Visited> {
    seq![Visited::Expression(c.condition), Visited::Block(c.block)]
}

/// What the items of `s` hand on, in order.
pub open spec fn expression_list(s: Seq<Expression>) -> Seq<Visited>
    decreases s.len(),
{
    if s.len() == 0 {
        Seq::empty()
    } else {
        expression_list(s.drop_last()) + expression_visit(s.last())
    }
}

/// What the items of `s` hand on, in order.
pub open spec fn var_list(s: Seq<Var>) -> Seq<Visited>
    decreases s.len(),
{
    if s.len() == 0 {
        Seq::empty()
    } else {
        var_list(s.drop_last()) + var_visit(s.last())
    }
}

/// What the items of `s` hand on, in order.
pub open spec fn param_list(s: Seq<Parameter>) -> Seq<Visited>
    decreases s.len(),
{
    if s.len() == 0 {
        Seq::empty()
    } else {
        param_list(s.drop_last()) + param_visit(s.last())
    }
}

/// What the items of `s` hand on, in order.
pub open spec fn attributed_name_list(s: Seq<AttributedName>) -> Seq<Visited>
    decreases s.len(),
{
    if s.len() == 0 {
        Seq::empty()
    } else {
        attributed_name_list(s.drop_last()) + attributed_name_visit(s.last())
    }
}

/// What the items of `s` hand on, in order.
pub open spec fn generic_param_list(s: Seq<GenericTypeParam>) -> Seq<Visited>
    decreases s.len(),
{
    if s.len() == 0 {
        Seq::empty()
    } else {
        generic_param_list(s.drop_last()) + generic_param_visit(s.last())
    }
}

/// What the items of `s` hand on, in order.
pub open spec fn field_list(s: Seq<Field>) -> Seq<Visited>
    decreases s.len(),
{
    if s.len() == 0 {
        Seq::empty()
    } else {
        field_list(s.drop_last()) + field_visits(s.last())
    }
}

/// What the items of `s` hand on, in order.
pub open spec fn elseif_list(s: Seq<ElseIfClause>) -> Seq<Visited>
    decreases s.len(),
{
    if s.len() == 0 {
        Seq::empty()
    } else {
        elseif_list(s.drop_last()) + elseif_visits(s.last())
    }
}

// ----- handing on -----

fn visit_one_expression<V: Visitor>(v: &mut V, e: &Expression)
    ensures
        visits_exactly(old(v).visited(), final(v).visited(), expression_visit(*e)),
{
    let ghost start = v.visited();
    v.visit_expression(e);
    proof {
        lemma_visits_one(start, v.visited(), Visited::Expression(*e));
    }
}

fn visit_one_var<V: Visitor>(v: &mut V, x: &Var)
    ensures
        visits_exactly(old(v).visited(), final(v).visited(), var_visit(*x)),
{
    let ghost start = v.visited();
    v.visit_var(x);
    proof {
        lemma_visits_one(start, v.visited(), Visited::Var(*x));
    }
}

fn visit_one_block<V: Visitor>(v: &mut V, b: &Block)
    ensures
        visits_exactly(old(v).visited(), final(v).visited(), seq![Visited::Block(*b)]),
{
    let ghost start = v.visited();
    v.visit_block(b);
    proof {
        lemma_visits_one(start, v.visited(), Visited::Block(*b));
    }
}

fn visit_one_body<V: Visitor>(v: &mut V, b: &FunctionBody)
    ensures
        visits_exactly(old(v).visited(), final(v).visited(), seq![Visited::FunctionBody(*b)]),
{
    let ghost start = v.visited();
    v.visit_function_body(b);
    proof {
        lemma_visits_one(start, v.visited(), Visited::FunctionBody(*b));
    }
}

fn visit_one_type<V: Visitor>(v: &mut V, t: &Type)
    ensures
        visits_exactly(old(v).visited(), final(v).visited(), seq![Visited::Type(*t)]),
{
    let ghost start = v.visited();
    v.visit_type(t);
    proof {
        lemma_visits_one(start, v.visited(), Visited::Type(*t));
    }
}

fn visit_opt_type<V: Visitor>(v: &mut V, t: &Option<Type>)
    ensures
        visits_exactly(old(v).visited(), final(v).visited(), optional_type_visit(*t)),
{
    match t {
        Some(ty) => visit_one_type(v, ty),
        None => {
            proof {
                lemma_visits_none(v.visited());
            }
        },
    }
}

fn visit_opt_expression<V: Visitor>(v: &mut V, e: &Option<Expression>)
    ensures
        visits_exactly(old(v).visited(), final(v).visited(), optional_expression_visit(*e)),
{
    match e {
        Some(x) => visit_one_expression(v, x),
        None => {
            proof {
                lemma_visits_none(v.visited());
            }
        },
    }
}

fn visit_param<V: Visitor>(v: &mut V, p: &Parameter)
    ensures
        visits_exactly(old(v).visited(), final(v).visited(), param_visit(*p)),
{
    visit_opt_type(v, &p.type_annotation);
}

fn visit_attributed_name<V: Visitor>(v: &mut V, n: &AttributedName)
    ensures
        visits_exactly(old(v).visited(), final(v).visited(), attributed_name_visit(*n)),
{
    visit_opt_type(v, &n.type_annotation);
}

fn visit_generic_param<V: Visitor>(v: &mut V, g: &GenericTypeParam)
    ensures
        visits_exactly(old(v).visited(), final(v).visited(), generic_param_visit(*g)),
{
    visit_opt_type(v, &g.default);
}

fn visit_field<V: Visitor>(v: &mut V, f: &Field)
    ensures
        visits_exactly(old(v).visited(), final(v).visited(), field_visits(*f)),
{
    match f {
        Field::Bracketed { key, value, .. } => {
            let ghost a = v.visited();
            visit_one_expression(v, key);
            let ghost b = v.visited();
            visit_one_expression(v, value);
            proof {
                lemma_visits_then(a, b, v.visited(), expression_visit(*key), expression_visit(*value));
                assert(expression_visit(*key) + expression_visit(*value) =~= field_visits(*f));
            }
        },
        Field::Named { value, .. } => visit_one_expression(v, value),
        Field::Positional { value, .. } => visit_one_expression(v, value),
    }
}

fn visit_elseif<V: Visitor>(v: &mut V, c: &ElseIfClause)
    ensures
        visits_exactly(old(v).visited(), final(v).visited(), elseif_visits(*c)),
{
    let ghost a = v.visited();
    visit_one_expression(v, &c.condition);
    let ghost b = v.visited();
    visit_one_block(v, &c.block);
    proof {
        lemma_visits_then(a, b, v.visited(), expression_visit(c.condition), seq![Visited::Block(c.block)]);
        assert(expression_visit(c.condition) + seq![Visited::Block(c.block)] =~= elseif_visits(*c));
    }
}

fn visit_expressions<V: Visitor>(v: &mut V, items: &Vec<Expression>)
    ensures
        visits_exactly(old(v).visited(), final(v).visited(), expression_list(items@)),
{
    let ghost start = v.visited();
    proof {
        lemma_visits_none(start);
        assert(items@.take(0) =~= Seq::<Expression>::empty());
    }
    let mut i: usize = 0;
    while i < items.len()
        invariant
            i <= items@.len(),
            visits_exactly(start, v.visited(), expression_list(items@.take(i as int))),
        decreases items@.len() - i,
    {
        let ghost mid = v.visited();
        visit_one_expression(v, &items[i]);
        proof {
            lemma_visits_then(start, mid, v.visited(), expression_list(items@.take(i as int)), expression_visit(items@[i as int]));
            assert(items@.take(i + 1).drop_last() =~= items@.take(i as int));
        }
        i += 1;
    }
    proof {
        assert(items@.take(i as int) =~= items@);
    }
}

fn visit_vars<V: Visitor>(v: &mut V, items: &Vec<Var>)
    ensures
        visits_exactly(old(v).visited(), final(v).visited(), var_list(items@)),
{
    let ghost start = v.visited();
    proof {
        lemma_visits_none(start);
        assert(items@.take(0) =~= Seq::<Var>::empty());
    }
    let mut i: usize = 0;
    while i < items.len()
        invariant
            i <= items@.len(),
            visits_exactly(start, v.visited(), var_list(items@.take(i as int))),
        decreases items@.len() - i,
    {
        let ghost mid = v.visited();
        visit_one_var(v, &items[i]);
        proof {
            lemma_visits_then(start, mid, v.visited(), var_list(items@.take(i as int)), var_visit(items@[i as int]));
            assert(items@.take(i + 1).drop_last() =~= items@.take(i as int));
        }
        i += 1;
    }
    proof {
        assert(items@.take(i as int) =~= items@);
    }
}

fn visit_params<V: Visitor>(v: &mut V, items: &Vec<Parameter>)
    ensures
        visits_exactly(old(v).visited(), final(v).visited(), param_list(items@)),
{
    let ghost start = v.visited();
    proof {
        lemma_visits_none(start);
        assert(items@.take(0) =~= Seq::<Parameter>::empty());
    }
    let mut i: usize = 0;
    while i < items.len()
        invariant
            i <= items@.len(),
            visits_exactly(start, v.visited(), param_list(items@.take(i as int))),
        decreases items@.len() - i,
    {
        let ghost mid = v.visited();
        visit_param(v, &items[i]);
        proof {
            lemma_visits_then(start, mid, v.visited(), param_list(items@.take(i as int)), param_visit(items@[i as int]));
            assert(items@.take(i + 1).drop_last() =~= items@.take(i as int));
        }
        i += 1;
    }
    proof {
        assert(items@.take(i as int) =~= items@);
    }
}

fn visit_attributed_names<V: Visitor>(v: &mut V, items: &Vec<AttributedName>)
    ensures
        visits_exactly(old(v).visited(), final(v).visited(), attributed_name_list(items@)),
{
    let ghost start = v.visited();
    proof {
        lemma_visits_none(start);
        assert(items@.take(0) =~= Seq::<AttributedName>::empty());
    }
    let mut i: usize = 0;
    while i < items.len()
        invariant
            i <= items@.len(),
            visits_exactly(start, v.visited(), attributed_name_list(items@.take(i as int))),
        decreases items@.len() - i,
    {
        let ghost mid = v.visited();
        visit_attributed_name(v, &items[i]);
        proof {
            lemma_visits_then(start, mid, v.visited(), attributed_name_list(items@.take(i as int)), attributed_name_visit(items@[i as int]));
            assert(items@.take(i + 1).drop_last() =~= items@.take(i as int));
        }
        i += 1;
    }
    proof {
        assert(items@.take(i as int) =~= items@);
    }
}

fn visit_generic_params<V: Visitor>(v: &mut V, items: &Vec<GenericTypeParam>)
    ensures
        visits_exactly(old(v).visited(), final(v).visited(), generic_param_list(items@)),
{
    let ghost start = v.visited();
    proof {
        lemma_visits_none(start);
        assert(items@.take(0) =~= Seq::<GenericTypeParam>::empty());
    }
    let mut i: usize = 0;
    while i < items.len()
        invariant
            i <= items@.len(),
            visits_exactly(start, v.visited(), generic_param_list(items@.take(i as int))),
        decreases items@.len() - i,
    {
        let ghost mid = v.visited();
        visit_generic_param(v, &items[i]);
        proof {
            lemma_visits_then(start, mid, v.visited(), generic_param_list(items@.take(i as int)), generic_param_visit(items@[i as int]));
            assert(items@.take(i + 1).drop_last() =~= items@.take(i as int));
        }
        i += 1;
    }
    proof {
        assert(items@.take(i as int) =~= items@);
    }
}

fn visit_fields<V: Visitor>(v: &mut V, items: &Vec<Field>)
    ensures
        visits_exactly(old(v).visited(), final(v).visited(), field_list(items@)),
{
    let ghost start = v.visited();
    proof {
        lemma_visits_none(start);
        assert(items@.take(0) =~= Seq::<Field>::empty());
    }
    let mut i: usize = 0;
    while i < items.len()
        invariant
            i <= items@.len(),
            visits_exactly(start, v.visited(), field_list(items@.take(i as int))),
        decreases items@.len() - i,
    {
        let ghost mid = v.visited();
        visit_field(v, &items[i]);
        proof {
            lemma_visits_then(start, mid, v.visited(), field_list(items@.take(i as int)), field_visits(items@[i as int]));
            assert(items@.take(i + 1).drop_last() =~= items@.take(i as int));
        }
        i += 1;
    }
    proof {
        assert(items@.take(i as int) =~= items@);
    }
}

fn visit_elseif_clauses<V: Visitor>(v: &mut V, items: &Vec<ElseIfClause>)
    ensures
        visits_exactly(old(v).visited(), final(v).visited(), elseif_list(items@)),
{
    let ghost start = v.visited();
    proof {
        lemma_visits_none(start);
        assert(items@.take(0) =~= Seq::<ElseIfClause>::empty());
    }
    let mut i: usize = 0;
    while i < items.len()
        invariant
            i <= items@.len(),
            visits_exactly(start, v.visited(), elseif_list(items@.take(i as int))),
        decreases items@.len() - i,
    {
        let ghost mid = v.visited();
        visit_elseif(v, &items[i]);
        proof {
            lemma_visits_then(start, mid, v.visited(), elseif_list(items@.take(i as int)), elseif_visits(items@[i as int]));
            assert(items@.take(i + 1).drop_last() =~= items@.take(i as int));
        }
        i += 1;
    }
    proof {
        assert(items@.take(i as int) =~= items@);
    }
}

pub open spec fn args_visits(a: FunctionArgs) -> Seq<Visited> {
    match a {
        FunctionArgs::Parenthesized { args, .. } => expression_list(args.items@),
        FunctionArgs::TableConstructor(t) => field_list(t.fields.items@),
        FunctionArgs::StringLiteral(_) => Seq::empty(),
    }
}

/// A call hands on its callee, then its arguments.
pub open spec fn call_visits(c: FunctionCall) -> Seq<Visited> {
    expression_visit(c.callee) + args_visits(c.args)
}

pub open spec fn optional_expressions_visits(e: Option<Punctuated<Expression>>) -> Seq<Visited> {
    match e {
        Some(p) => expression_list(p.items@),
        None => Seq::empty(),
    }
}

pub open spec fn else_visits(e: Option<ElseClause>) -> Seq<Visited> {
    match e {
        Some(c) => seq![Visited::Block(c.block)],
        None => Seq::empty(),
    }
}

pub open spec fn generics_visits(g: Option<Box<GenericTypeList>>) -> Seq<Visited> {
    match g {
        Some(list) => generic_param_list(list.params.items@),
        None => Seq::empty(),
    }
}

pub open spec fn type_value_visits(value: TypeDeclarationValue) -> Seq<Visited> {
    match value {
        TypeDeclarationValue::Alias(t) => seq![Visited::Type(t)],
        TypeDeclarationValue::TypeFunction(body) => seq![Visited::FunctionBody(*body)],
    }
}

/// What a statement hands on, in source order: its direct child
/// expressions, variables, blocks, function bodies and annotation types,
/// looking through calls, argument lists, tables, bound names, parameters
/// and generic lists.
pub open spec fn statement_visits(s: Statement) -> Seq<Visited> {
    match s {
        Statement::Assignment(a) => var_list(a.targets.items@) + expression_list(a.values.items@),
        Statement::FunctionCall(c) => call_visits(c.call),
        Statement::DoBlock(d) => seq![Visited::Block(d.block)],
        Statement::WhileLoop(w) => seq![Visited::Expression(w.condition), Visited::Block(w.block)],
        Statement::RepeatLoop(r) => seq![Visited::Block(r.block), Visited::Expression(r.condition)],
        Statement::IfStatement(i) => seq![Visited::Expression(i.condition), Visited::Block(i.block)] + elseif_list(
            i.elseif_clauses@,
        ) + else_visits(i.else_clause),
        Statement::NumericFor(f) => optional_type_visit(f.type_annotation) + seq![
            Visited::Expression(f.start),
            Visited::Expression(f.limit),
        ] + optional_expression_visit(f.step) + seq![Visited::Block(f.block)],
        Statement::GenericFor(f) => param_list(f.names.items@) + expression_list(f.exprs.items@) + seq![
            Visited::Block(f.block),
        ],
        Statement::FunctionDecl(f) => seq![Visited::FunctionBody(f.body)],
        Statement::LocalFunction(f) => seq![Visited::FunctionBody(f.body)],
        Statement::LocalAssignment(l) => attributed_name_list(l.names.items@) + optional_expressions_visits(l.exprs),
        Statement::CompoundAssignment(c) => seq![Visited::Var(c.var), Visited::Expression(c.expr)],
        Statement::GlobalFunction(g) => seq![Visited::FunctionBody(g.body)],
        Statement::GlobalDeclaration(g) => attributed_name_list(g.names.items@) + optional_expressions_visits(
            g.exprs,
        ),
        Statement::TypeDeclaration(d) => generics_visits(d.generics) + type_value_visits(d.type_value),
        _ => Seq::empty(),
    }
}

fn visit_args<V: Visitor>(v: &mut V, args: &FunctionArgs)
    ensures
        visits_exactly(old(v).visited(), final(v).visited(), args_visits(*args)),
{
    match args {
        FunctionArgs::Parenthesized { args, .. } => visit_expressions(v, &args.items),
        FunctionArgs::TableConstructor(t) => visit_fields(v, &t.fields.items),
        FunctionArgs::StringLiteral(_) => {
            proof {
                lemma_visits_none(v.visited());
            }
        },
    }
}

/// Hands `v` the callee of `call`, then its arguments.
pub fn walk_function_call<V: Visitor>(v: &mut V, call: &FunctionCall)
    ensures
        visits_exactly(old(v).visited(), final(v).visited(), call_visits(*call)),
{
    let ghost a = v.visited();
    visit_one_expression(v, &call.callee);
    let ghost b = v.visited();
    visit_args(v, &call.args);
    proof {
        lemma_visits_then(a, b, v.visited(), expression_visit(call.callee), args_visits(call.args));
    }
}

fn visit_opt_expressions<V: Visitor>(v: &mut V, e: &Option<Punctuated<Expression>>)
    ensures
        visits_exactly(old(v).visited(), final(v).visited(), optional_expressions_visits(*e)),
{
    match e {
        Some(p) => visit_expressions(v, &p.items),
        None => {
            proof {
                lemma_visits_none(v.visited());
            }
        },
    }
}

fn visit_else<V: Visitor>(v: &mut V, e: &Option<ElseClause>)
    ensures
        visits_exactly(old(v).visited(), final(v).visited(), else_visits(*e)),
{
    match e {
        Some(c) => visit_one_block(v, &c.block),
        None => {
            proof {
                lemma_visits_none(v.visited());
            }
        },
    }
}

fn visit_generics<V: Visitor>(v: &mut V, g: &Option<Box<GenericTypeList>>)
    ensures
        visits_exactly(old(v).visited(), final(v).visited(), generics_visits(*g)),
{
    match g {
        Some(list) => visit_generic_params(v, &list.params.items),
        None => {
            proof {
                lemma_visits_none(v.visited());
            }
        },
    }
}

fn visit_type_value<V: Visitor>(v: &mut V, value: &TypeDeclarationValue)
    ensures
        visits_exactly(old(v).visited(), final(v).visited(), type_value_visits(*value)),
{
    match value {
        TypeDeclarationValue::Alias(t) => visit_one_type(v, t),
        TypeDeclarationValue::TypeFunction(body) => visit_one_body(v, body),
    }
}

/// Hands `v` the direct children of `stmt`, in source order: the
/// visitor's log records them as [`statement_visits`] lists them.
pub fn walk_statement<V: Visitor>(v: &mut V, stmt: &Statement)
    ensures
        visits_exactly(old(v).visited(), final(v).visited(), statement_visits(*stmt)),
{
    match stmt {
        Statement::Assignment(a) => {
            let ghost l0 = v.visited();
            let ghost m0 = v.visited();
            visit_vars(v, &a.targets.items);
            let ghost m1 = v.visited();
            visit_expressions(v, &a.values.items);
            proof {
                lemma_visits_then(l0, m1, v.visited(), var_list(a.targets.items@), expression_list(a.values.items@));
            }
            proof {
                assert(var_list(a.targets.items@) + expression_list(a.values.items@) =~= statement_visits(*stmt));
            }
        },
        Statement::FunctionCall(c) => {
            walk_function_call(v, &c.call);
            proof {
                assert(call_visits(c.call) =~= statement_visits(*stmt));
            }
        },
        Statement::DoBlock(d) => {
            visit_one_block(v, &d.block);
            proof {
                assert(seq![Visited::Block(d.block)] =~= statement_visits(*stmt));
            }
        },
        Statement::WhileLoop(w) => {
            let ghost l0 = v.visited();
            let ghost m0 = v.visited();
            visit_one_expression(v, &w.condition);
            let ghost m1 = v.visited();
            visit_one_block(v, &w.block);
            proof {
                lemma_visits_then(l0, m1, v.visited(), expression_visit(w.condition), seq![Visited::Block(w.block)]);
            }
            proof {
                assert(expression_visit(w.condition) + seq![Visited::Block(w.block)] =~= statement_visits(*stmt));
            }
        },
        Statement::RepeatLoop(r) => {
            let ghost l0 = v.visited();
            let ghost m0 = v.visited();
            visit_one_block(v, &r.block);
            let ghost m1 = v.visited();
            visit_one_expression(v, &r.condition);
            proof {
                lemma_visits_then(l0, m1, v.visited(), seq![Visited::Block(r.block)], expression_visit(r.condition));
            }
            proof {
                assert(seq![Visited::Block(r.block)] + expression_visit(r.condition) =~= statement_visits(*stmt));
            }
        },
        Statement::IfStatement(i) => {
            let ghost l0 = v.visited();
            let ghost m0 = v.visited();
            visit_one_expression(v, &i.condition);
            let ghost m1 = v.visited();
            visit_one_block(v, &i.block);
            proof {
                lemma_visits_then(l0, m1, v.visited(), expression_visit(i.condition), seq![Visited::Block(i.block)]);
            }
            let ghost m2 = v.visited();
            visit_elseif_clauses(v, &i.elseif_clauses);
            proof {
                lemma_visits_then(l0, m2, v.visited(), expression_visit(i.condition) + seq![Visited::Block(i.block)], elseif_list(i.elseif_clauses@));
            }
            let ghost m3 = v.visited();
            visit_else(v, &i.else_clause);
            proof {
                lemma_visits_then(l0, m3, v.visited(), expression_visit(i.condition) + seq![Visited::Block(i.block)] + elseif_list(i.elseif_clauses@), else_visits(i.else_clause));
            }
            proof {
                assert(expression_visit(i.condition) + seq![Visited::Block(i.block)] + elseif_list(i.elseif_clauses@) + else_visits(i.else_clause) =~= statement_visits(*stmt));
            }
        },
        Statement::NumericFor(f) => {
            let ghost l0 = v.visited();
            let ghost m0 = v.visited();
            visit_opt_type(v, &f.type_annotation);
            let ghost m1 = v.visited();
            visit_one_expression(v, &f.start);
            proof {
                lemma_visits_then(l0, m1, v.visited(), optional_type_visit(f.type_annotation), expression_visit(f.start));
            }
            let ghost m2 = v.visited();
            visit_one_expression(v, &f.limit);
            proof {
                lemma_visits_then(l0, m2, v.visited(), optional_type_visit(f.type_annotation) + expression_visit(f.start), expression_visit(f.limit));
            }
            let ghost m3 = v.visited();
            visit_opt_expression(v, &f.step);
            proof {
                lemma_visits_then(l0, m3, v.visited(), optional_type_visit(f.type_annotation) + expression_visit(f.start) + expression_visit(f.limit), optional_expression_visit(f.step));
            }
            let ghost m4 = v.visited();
            visit_one_block(v, &f.block);
            proof {
                lemma_visits_then(l0, m4, v.visited(), optional_type_visit(f.type_annotation) + expression_visit(f.start) + expression_visit(f.limit) + optional_expression_visit(f.step), seq![Visited::Block(f.block)]);
            }
            proof {
                assert(optional_type_visit(f.type_annotation) + expression_visit(f.start) + expression_visit(f.limit) + optional_expression_visit(f.step) + seq![Visited::Block(f.block)] =~= statement_visits(*stmt));
            }
        },
        Statement::GenericFor(f) => {
            let ghost l0 = v.visited();
            let ghost m0 = v.visited();
            visit_params(v, &f.names.items);
            let ghost m1 = v.visited();
            visit_expressions(v, &f.exprs.items);
            proof {
                lemma_visits_then(l0, m1, v.visited(), param_list(f.names.items@), expression_list(f.exprs.items@));
            }
            let ghost m2 = v.visited();
            visit_one_block(v, &f.block);
            proof {
                lemma_visits_then(l0, m2, v.visited(), param_list(f.names.items@) + expression_list(f.exprs.items@), seq![Visited::Block(f.block)]);
            }
            proof {
                assert(param_list(f.names.items@) + expression_list(f.exprs.items@) + seq![Visited::Block(f.block)] =~= statement_visits(*stmt));
            }
        },
        Statement::FunctionDecl(f) => {
            visit_one_body(v, &f.body);
            proof {
                assert(seq![Visited::FunctionBody(f.body)] =~= statement_visits(*stmt));
            }
        },
        Statement::LocalFunction(f) => {
            visit_one_body(v, &f.body);
            proof {
                assert(seq![Visited::FunctionBody(f.body)] =~= statement_visits(*stmt));
            }
        },
        Statement::LocalAssignment(l) => {
            let ghost l0 = v.visited();
            let ghost m0 = v.visited();
            visit_attributed_names(v, &l.names.items);
            let ghost m1 = v.visited();
            visit_opt_expressions(v, &l.exprs);
            proof {
                lemma_visits_then(l0, m1, v.visited(), attributed_name_list(l.names.items@), optional_expressions_visits(l.exprs));
            }
            proof {
                assert(attributed_name_list(l.names.items@) + optional_expressions_visits(l.exprs) =~= statement_visits(*stmt));
            }
        },
        Statement::CompoundAssignment(c) => {
            let ghost l0 = v.visited();
            let ghost m0 = v.visited();
            visit_one_var(v, &c.var);
            let ghost m1 = v.visited();
            visit_one_expression(v, &c.expr);
            proof {
                lemma_visits_then(l0, m1, v.visited(), var_visit(c.var), expression_visit(c.expr));
            }
            proof {
                assert(var_visit(c.var) + expression_visit(c.expr) =~= statement_visits(*stmt));
            }
        },
        Statement::GlobalFunction(g) => {
            visit_one_body(v, &g.body);
            proof {
                assert(seq![Visited::FunctionBody(g.body)] =~= statement_visits(*stmt));
            }
        },
        Statement::GlobalDeclaration(g) => {
            let ghost l0 = v.visited();
            let ghost m0 = v.visited();
            visit_attributed_names(v, &g.names.items);
            let ghost m1 = v.visited();
            visit_opt_expressions(v, &g.exprs);
            proof {
                lemma_visits_then(l0, m1, v.visited(), attributed_name_list(g.names.items@), optional_expressions_visits(g.exprs));
            }
            proof {
                assert(attributed_name_list(g.names.items@) + optional_expressions_visits(g.exprs) =~= statement_visits(*stmt));
            }
        },
        Statement::TypeDeclaration(d) => {
            let ghost l0 = v.visited();
            let ghost m0 = v.visited();
            visit_generics(v, &d.generics);
            let ghost m1 = v.visited();
            visit_type_value(v, &d.type_value);
            proof {
                lemma_visits_then(l0, m1, v.visited(), generics_visits(d.generics), type_value_visits(d.type_value));
            }
            proof {
                assert(generics_visits(d.generics) + type_value_visits(d.type_value) =~= statement_visits(*stmt));
            }
        },
        _ => {
            proof {
                lemma_visits_none(v.visited());
            }
        },
    }
}


// ----- blocks, expressions, variables, bodies and types -----

pub open spec fn statement_visit(s: Statement) -> Seq<Visited> {
    seq![Visited::Statement(s)]
}

pub open spec fn type_visit(t: Type) -> Seq<Visited> {
    seq![Visited::Type(t)]
}

/// An `elseif` clause of an if-expression hands on its condition, then
/// its expression.
pub open spec fn elseif_expr_visits(c: ElseIfExprClause) -> Seq<Visited> {
    seq![Visited::Expression(c.condition), Visited::Expression(c.expr)]
}

pub open spec fn segment_visit(s: InterpSegment) -> Seq<Visited> {
    optional_expression_visit(s.expr)
}

/// A table-type field hands on its key type (if an indexer), then its
/// value type.
pub open spec fn type_field_visits(f: TypeField) -> Seq<Visited> {
    match f {
        TypeField::Named { value, .. } => seq![Visited::Type(value)],
        TypeField::Indexer { key, value, .. } => seq![Visited::Type(key), Visited::Type(value)],
        TypeField::Array { value, .. } => seq![Visited::Type(value)],
    }
}

pub open spec fn function_type_param_visit(p: FunctionTypeParam) -> Seq<Visited> {
    seq![Visited::Type(p.type_value)]
}

/// What the items of `s` hand on, in order.
pub open spec fn statement_list(s: Seq<Statement>) -> Seq<Visited>
    decreases s.len(),
{
    if s.len() == 0 {
        Seq::empty()
    } else {
        statement_list(s.drop_last()) + statement_visit(s.last())
    }
}

/// What the items of `s` hand on, in order.
pub open spec fn elseif_expr_list(s: Seq<ElseIfExprClause>) -> Seq<Visited>
    decreases s.len(),
{
    if s.len() == 0 {
        Seq::empty()
    } else {
        elseif_expr_list(s.drop_last()) + elseif_expr_visits(s.last())
    }
}

/// What the items of `s` hand on, in order.
pub open spec fn segment_list(s: Seq<InterpSegment>) -> Seq<Visited>
    decreases s.len(),
{
    if s.len() == 0 {
        Seq::empty()
    } else {
        segment_list(s.drop_last()) + segment_visit(s.last())
    }
}

/// What the items of `s` hand on, in order.
pub open spec fn type_list(s: Seq<Type>) -> Seq<Visited>
    decreases s.len(),
{
    if s.len() == 0 {
        Seq::empty()
    } else {
        type_list(s.drop_last()) + type_visit(s.last())
    }
}

/// What the items of `s` hand on, in order.
pub open spec fn type_field_list(s: Seq<TypeField>) -> Seq<Visited>
    decreases s.len(),
{
    if s.len() == 0 {
        Seq::empty()
    } else {
        type_field_list(s.drop_last()) + type_field_visits(s.last())
    }
}

/// What the items of `s` hand on, in order.
pub open spec fn function_type_param_list(s: Seq<FunctionTypeParam>) -> Seq<Visited>
    decreases s.len(),
{
    if s.len() == 0 {
        Seq::empty()
    } else {
        function_type_param_list(s.drop_last()) + function_type_param_visit(s.last())
    }
}

/// What a block hands on: its statements in order, then its last statement.
pub open spec fn block_visits(b: Block) -> Seq<Visited> {
    statement_list(b.stmts@) + optional_last_visit(b.last_stmt)
}

/// The visit of an optional last statement, if present.
pub open spec fn optional_last_visit(l: Option<Box<LastStatement>>) -> Seq<Visited> {
    match l {
        Some(last) => seq![Visited::LastStatement(*last)],
        None => Seq::empty(),
    }
}

/// What an expression hands on, in source order.
pub open spec fn expression_visits(e: Expression) -> Seq<Visited> {
    match e {
        Expression::FunctionDef(f) => seq![Visited::FunctionBody(f.body)],
        Expression::Var(v) => seq![Visited::Var(*v)],
        Expression::FunctionCall(c) => call_visits(*c),
        Expression::Parenthesized(p) => seq![Visited::Expression(p.expr)],
        Expression::TableConstructor(t) => field_list(t.fields.items@),
        Expression::BinaryOp(b) => seq![Visited::Expression(b.left), Visited::Expression(b.right)],
        Expression::UnaryOp(u) => seq![Visited::Expression(u.operand)],
        Expression::IfExpression(i) => seq![Visited::Expression(i.condition), Visited::Expression(i.then_expr)]
            + elseif_expr_list(i.elseif_clauses@) + seq![Visited::Expression(i.else_expr)],
        Expression::InterpolatedString(s) => segment_list(s.segments@),
        Expression::TypeCast(c) => seq![Visited::Expression(c.expr), Visited::Type(c.type_annotation)],
        _ => Seq::empty(),
    }
}

/// What a variable reference hands on: the prefix, then the index.
pub open spec fn var_visits(v: Var) -> Seq<Visited> {
    match v {
        Var::Name(_) => Seq::empty(),
        Var::Index(i) => seq![Visited::Expression(i.prefix), Visited::Expression(i.index)],
        Var::FieldAccess(f) => seq![Visited::Expression(f.prefix)],
    }
}

pub open spec fn vararg_visits(v: Option<VarArgParam>) -> Seq<Visited> {
    match v {
        Some(p) => optional_type_visit(p.type_annotation),
        None => Seq::empty(),
    }
}

/// What a function body hands on: the generic defaults, the parameter,
/// vararg and return types, then the block.
pub open spec fn function_body_visits(b: FunctionBody) -> Seq<Visited> {
    generics_visits(b.generics) + param_list(b.params.items@) + vararg_visits(b.vararg) + optional_type_visit(
        b.return_type,
    ) + seq![Visited::Block(b.block)]
}

/// What a last statement hands on: the returned expressions.
pub open spec fn last_statement_visits(l: LastStatement) -> Seq<Visited> {
    match l {
        LastStatement::Return(r) => expression_list(r.exprs.items@),
        _ => Seq::empty(),
    }
}

pub open spec fn function_type_generics_visits(g: Option<GenericTypeList>) -> Seq<Visited> {
    match g {
        Some(list) => generic_param_list(list.params.items@),
        None => Seq::empty(),
    }
}

/// What a type hands on, in source order.
pub open spec fn type_visits(t: Type) -> Seq<Visited> {
    match t {
        Type::Named(n) => match n.generics {
            Some(args) => type_list(args.args.items@),
            None => Seq::empty(),
        },
        Type::Typeof(t) => seq![Visited::Expression(t.expr)],
        Type::Table(t) => type_field_list(t.fields.items@),
        Type::Function(f) => function_type_generics_visits(f.generics) + function_type_param_list(f.params.items@)
            + seq![Visited::Type(f.return_type)],
        Type::Optional(o) => seq![Visited::Type(o.type_value)],
        Type::Union(u) => type_list(u.types.items@),
        Type::Intersection(i) => type_list(i.types.items@),
        Type::Negation(n) => seq![Visited::Type(n.type_value)],
        Type::Parenthesized(p) => seq![Visited::Type(p.type_value)],
        Type::Pack(p) => type_list(p.types.items@),
        Type::Variadic(v) => seq![Visited::Type(v.type_value)],
        _ => Seq::empty(),
    }
}

fn visit_one_statement<V: Visitor>(v: &mut V, s: &Statement)
    ensures
        visits_exactly(old(v).visited(), final(v).visited(), statement_visit(*s)),
{
    let ghost start = v.visited();
    v.visit_statement(s);
    proof {
        lemma_visits_one(start, v.visited(), Visited::Statement(*s));
    }
}

fn visit_one_last<V: Visitor>(v: &mut V, l: &LastStatement)
    ensures
        visits_exactly(old(v).visited(), final(v).visited(), seq![Visited::LastStatement(*l)]),
{
    let ghost start = v.visited();
    v.visit_last_statement(l);
    proof {
        lemma_visits_one(start, v.visited(), Visited::LastStatement(*l));
    }
}

fn visit_elseif_expr<V: Visitor>(v: &mut V, c: &ElseIfExprClause)
    ensures
        visits_exactly(old(v).visited(), final(v).visited(), elseif_expr_visits(*c)),
{
    let ghost a = v.visited();
    visit_one_expression(v, &c.condition);
    let ghost b = v.visited();
    visit_one_expression(v, &c.expr);
    proof {
        lemma_visits_then(a, b, v.visited(), expression_visit(c.condition), expression_visit(c.expr));
        assert(expression_visit(c.condition) + expression_visit(c.expr) =~= elseif_expr_visits(*c));
    }
}

fn visit_segment<V: Visitor>(v: &mut V, s: &InterpSegment)
    ensures
        visits_exactly(old(v).visited(), final(v).visited(), segment_visit(*s)),
{
    visit_opt_expression(v, &s.expr);
}

fn visit_type_field<V: Visitor>(v: &mut V, f: &TypeField)
    ensures
        visits_exactly(old(v).visited(), final(v).visited(), type_field_visits(*f)),
{
    match f {
        TypeField::Indexer { key, value, .. } => {
            let ghost a = v.visited();
            visit_one_type(v, key);
            let ghost b = v.visited();
            visit_one_type(v, value);
            proof {
                lemma_visits_then(a, b, v.visited(), seq![Visited::Type(*key)], seq![Visited::Type(*value)]);
                assert(seq![Visited::Type(*key)] + seq![Visited::Type(*value)] =~= type_field_visits(*f));
            }
        },
        TypeField::Named { value, .. } => visit_one_type(v, value),
        TypeField::Array { value, .. } => visit_one_type(v, value),
    }
}

fn visit_function_type_param<V: Visitor>(v: &mut V, p: &FunctionTypeParam)
    ensures
        visits_exactly(old(v).visited(), final(v).visited(), function_type_param_visit(*p)),
{
    visit_one_type(v, &p.type_value);
}

fn visit_vararg<V: Visitor>(v: &mut V, p: &Option<VarArgParam>)
    ensures
        visits_exactly(old(v).visited(), final(v).visited(), vararg_visits(*p)),
{
    match p {
        Some(param) => visit_opt_type(v, &param.type_annotation),
        None => {
            proof {
                lemma_visits_none(v.visited());
            }
        },
    }
}

fn visit_opt_last<V: Visitor>(v: &mut V, l: &Option<Box<LastStatement>>)
    ensures
        visits_exactly(
            old(v).visited(),
            final(v).visited(),
            optional_last_visit(*l),
        ),
{
    match l {
        Some(last) => visit_one_last(v, last),
        None => {
            proof {
                lemma_visits_none(v.visited());
            }
        },
    }
}

fn visit_function_type_generics<V: Visitor>(v: &mut V, g: &Option<GenericTypeList>)
    ensures
        visits_exactly(old(v).visited(), final(v).visited(), function_type_generics_visits(*g)),
{
    match g {
        Some(list) => visit_generic_params(v, &list.params.items),
        None => {
            proof {
                lemma_visits_none(v.visited());
            }
        },
    }
}

fn visit_statements<V: Visitor>(v: &mut V, items: &Vec<Statement>)
    ensures
        visits_exactly(old(v).visited(), final(v).visited(), statement_list(items@)),
{
    let ghost start = v.visited();
    proof {
        lemma_visits_none(start);
        assert(items@.take(0) =~= Seq::<Statement>::empty());
    }
    let mut i: usize = 0;
    while i < items.len()
        invariant
            i <= items@.len(),
            visits_exactly(start, v.visited(), statement_list(items@.take(i as int))),
        decreases items@.len() - i,
    {
        let ghost mid = v.visited();
        visit_one_statement(v, &items[i]);
        proof {
            lemma_visits_then(start, mid, v.visited(), statement_list(items@.take(i as int)), statement_visit(items@[i as int]));
            assert(items@.take(i + 1).drop_last() =~= items@.take(i as int));
        }
        i += 1;
    }
    proof {
        assert(items@.take(i as int) =~= items@);
    }
}

fn visit_elseif_exprs<V: Visitor>(v: &mut V, items: &Vec<ElseIfExprClause>)
    ensures
        visits_exactly(old(v).visited(), final(v).visited(), elseif_expr_list(items@)),
{
    let ghost start = v.visited();
    proof {
        lemma_visits_none(start);
        assert(items@.take(0) =~= Seq::<ElseIfExprClause>::empty());
    }
    let mut i: usize = 0;
    while i < items.len()
        invariant
            i <= items@.len(),
            visits_exactly(start, v.visited(), elseif_expr_list(items@.take(i as int))),
        decreases items@.len() - i,
    {
        let ghost mid = v.visited();
        visit_elseif_expr(v, &items[i]);
        proof {
            lemma_visits_then(start, mid, v.visited(), elseif_expr_list(items@.take(i as int)), elseif_expr_visits(items@[i as int]));
            assert(items@.take(i + 1).drop_last() =~= items@.take(i as int));
        }
        i += 1;
    }
    proof {
        assert(items@.take(i as int) =~= items@);
    }
}

fn visit_segments<V: Visitor>(v: &mut V, items: &Vec<InterpSegment>)
    ensures
        visits_exactly(old(v).visited(), final(v).visited(), segment_list(items@)),
{
    let ghost start = v.visited();
    proof {
        lemma_visits_none(start);
        assert(items@.take(0) =~= Seq::<InterpSegment>::empty());
    }
    let mut i: usize = 0;
    while i < items.len()
        invariant
            i <= items@.len(),
            visits_exactly(start, v.visited(), segment_list(items@.take(i as int))),
        decreases items@.len() - i,
    {
        let ghost mid = v.visited();
        visit_segment(v, &items[i]);
        proof {
            lemma_visits_then(start, mid, v.visited(), segment_list(items@.take(i as int)), segment_visit(items@[i as int]));
            assert(items@.take(i + 1).drop_last() =~= items@.take(i as int));
        }
        i += 1;
    }
    proof {
        assert(items@.take(i as int) =~= items@);
    }
}

fn visit_types<V: Visitor>(v: &mut V, items: &Vec<Type>)
    ensures
        visits_exactly(old(v).visited(), final(v).visited(), type_list(items@)),
{
    let ghost start = v.visited();
    proof {
        lemma_visits_none(start);
        assert(items@.take(0) =~= Seq::<Type>::empty());
    }
    let mut i: usize = 0;
    while i < items.len()
        invariant
            i <= items@.len(),
            visits_exactly(start, v.visited(), type_list(items@.take(i as int))),
        decreases items@.len() - i,
    {
        let ghost mid = v.visited();
        visit_one_type(v, &items[i]);
        proof {
            lemma_visits_then(start, mid, v.visited(), type_list(items@.take(i as int)), type_visit(items@[i as int]));
            assert(items@.take(i + 1).drop_last() =~= items@.take(i as int));
        }
        i += 1;
    }
    proof {
        assert(items@.take(i as int) =~= items@);
    }
}

fn visit_type_fields<V: Visitor>(v: &mut V, items: &Vec<TypeField>)
    ensures
        visits_exactly(old(v).visited(), final(v).visited(), type_field_list(items@)),
{
    let ghost start = v.visited();
    proof {
        lemma_visits_none(start);
        assert(items@.take(0) =~= Seq::<TypeField>::empty());
    }
    let mut i: usize = 0;
    while i < items.len()
        invariant
            i <= items@.len(),
            visits_exactly(start, v.visited(), type_field_list(items@.take(i as int))),
        decreases items@.len() - i,
    {
        let ghost mid = v.visited();
        visit_type_field(v, &items[i]);
        proof {
            lemma_visits_then(start, mid, v.visited(), type_field_list(items@.take(i as int)), type_field_visits(items@[i as int]));
            assert(items@.take(i + 1).drop_last() =~= items@.take(i as int));
        }
        i += 1;
    }
    proof {
        assert(items@.take(i as int) =~= items@);
    }
}

fn visit_function_type_params<V: Visitor>(v: &mut V, items: &Vec<FunctionTypeParam>)
    ensures
        visits_exactly(old(v).visited(), final(v).visited(), function_type_param_list(items@)),
{
    let ghost start = v.visited();
    proof {
        lemma_visits_none(start);
        assert(items@.take(0) =~= Seq::<FunctionTypeParam>::empty());
    }
    let mut i: usize = 0;
    while i < items.len()
        invariant
            i <= items@.len(),
            visits_exactly(start, v.visited(), function_type_param_list(items@.take(i as int))),
        decreases items@.len() - i,
    {
        let ghost mid = v.visited();
        visit_function_type_param(v, &items[i]);
        proof {
            lemma_visits_then(start, mid, v.visited(), function_type_param_list(items@.take(i as int)), function_type_param_visit(items@[i as int]));
            assert(items@.take(i + 1).drop_last() =~= items@.take(i as int));
        }
        i += 1;
    }
    proof {
        assert(items@.take(i as int) =~= items@);
    }
}

/// Hands `v` the statements of `block` in order, then its last statement.
pub fn walk_block<V: Visitor>(v: &mut V, block: &Block)
    ensures
        visits_exactly(old(v).visited(), final(v).visited(), block_visits(*block)),
{
    let ghost l0 = v.visited();
    let ghost m0 = v.visited();
    visit_statements(v, &block.stmts);
    let ghost m1 = v.visited();
    visit_opt_last(v, &block.last_stmt);
    proof {
        lemma_visits_then(l0, m1, v.visited(), statement_list(block.stmts@), optional_last_visit(block.last_stmt));
    }
    proof {
        assert(statement_list(block.stmts@) + optional_last_visit(block.last_stmt) =~= block_visits(*block));
    }
}

/// Hands `v` the direct children of `expr`, in source order.
pub fn walk_expression<V: Visitor>(v: &mut V, expr: &Expression)
    ensures
        visits_exactly(old(v).visited(), final(v).visited(), expression_visits(*expr)),
{
    match expr {
        Expression::FunctionDef(f) => {
            visit_one_body(v, &f.body);
            proof {
                assert(seq![Visited::FunctionBody(f.body)] =~= expression_visits(*expr));
            }
        },
        Expression::Var(x) => {
            visit_one_var(v, x);
            proof {
                assert(var_visit(**x) =~= expression_visits(*expr));
            }
        },
        Expression::FunctionCall(c) => {
            walk_function_call(v, c);
            proof {
                assert(call_visits(**c) =~= expression_visits(*expr));
            }
        },
        Expression::Parenthesized(p) => {
            visit_one_expression(v, &p.expr);
            proof {
                assert(expression_visit(p.expr) =~= expression_visits(*expr));
            }
        },
        Expression::TableConstructor(t) => {
            visit_fields(v, &t.fields.items);
            proof {
                assert(field_list(t.fields.items@) =~= expression_visits(*expr));
            }
        },
        Expression::BinaryOp(b) => {
            let ghost l0 = v.visited();
            let ghost m0 = v.visited();
            visit_one_expression(v, &b.left);
            let ghost m1 = v.visited();
            visit_one_expression(v, &b.right);
            proof {
                lemma_visits_then(l0, m1, v.visited(), expression_visit(b.left), expression_visit(b.right));
            }
            proof {
                assert(expression_visit(b.left) + expression_visit(b.right) =~= expression_visits(*expr));
            }
        },
        Expression::UnaryOp(u) => {
            visit_one_expression(v, &u.operand);
            proof {
                assert(expression_visit(u.operand) =~= expression_visits(*expr));
            }
        },
        Expression::IfExpression(i) => {
            let ghost l0 = v.visited();
            let ghost m0 = v.visited();
            visit_one_expression(v, &i.condition);
            let ghost m1 = v.visited();
            visit_one_expression(v, &i.then_expr);
            proof {
                lemma_visits_then(l0, m1, v.visited(), expression_visit(i.condition), expression_visit(i.then_expr));
            }
            let ghost m2 = v.visited();
            visit_elseif_exprs(v, &i.elseif_clauses);
            proof {
                lemma_visits_then(l0, m2, v.visited(), expression_visit(i.condition) + expression_visit(i.then_expr), elseif_expr_list(i.elseif_clauses@));
            }
            let ghost m3 = v.visited();
            visit_one_expression(v, &i.else_expr);
            proof {
                lemma_visits_then(l0, m3, v.visited(), expression_visit(i.condition) + expression_visit(i.then_expr) + elseif_expr_list(i.elseif_clauses@), expression_visit(i.else_expr));
            }
            proof {
                assert(expression_visit(i.condition) + expression_visit(i.then_expr) + elseif_expr_list(i.elseif_clauses@) + expression_visit(i.else_expr) =~= expression_visits(*expr));
            }
        },
        Expression::InterpolatedString(s) => {
            visit_segments(v, &s.segments);
            proof {
                assert(segment_list(s.segments@) =~= expression_visits(*expr));
            }
        },
        Expression::TypeCast(c) => {
            let ghost l0 = v.visited();
            let ghost m0 = v.visited();
            visit_one_expression(v, &c.expr);
            let ghost m1 = v.visited();
            visit_one_type(v, &c.type_annotation);
            proof {
                lemma_visits_then(l0, m1, v.visited(), expression_visit(c.expr), seq![Visited::Type(c.type_annotation)]);
            }
            proof {
                assert(expression_visit(c.expr) + seq![Visited::Type(c.type_annotation)] =~= expression_visits(*expr));
            }
        },
        _ => {
            proof {
                lemma_visits_none(v.visited());
            }
        },
    }
}

/// Hands `v` the expressions a variable reference holds.
pub fn walk_var<V: Visitor>(v: &mut V, var: &Var)
    ensures
        visits_exactly(old(v).visited(), final(v).visited(), var_visits(*var)),
{
    match var {
        Var::Name(_) => {
            proof {
                lemma_visits_none(v.visited());
            }
        },
        Var::Index(i) => {
            let ghost l0 = v.visited();
            let ghost m0 = v.visited();
            visit_one_expression(v, &i.prefix);
            let ghost m1 = v.visited();
            visit_one_expression(v, &i.index);
            proof {
                lemma_visits_then(l0, m1, v.visited(), expression_visit(i.prefix), expression_visit(i.index));
            }
            proof {
                assert(expression_visit(i.prefix) + expression_visit(i.index) =~= var_visits(*var));
            }
        },
        Var::FieldAccess(f) => {
            visit_one_expression(v, &f.prefix);
            proof {
                assert(expression_visit(f.prefix) =~= var_visits(*var));
            }
        },
    }
}

/// Hands `v` the annotation types of `body`, then its block.
pub fn walk_function_body<V: Visitor>(v: &mut V, body: &FunctionBody)
    ensures
        visits_exactly(old(v).visited(), final(v).visited(), function_body_visits(*body)),
{
    let ghost l0 = v.visited();
    let ghost m0 = v.visited();
    visit_generics(v, &body.generics);
    let ghost m1 = v.visited();
    visit_params(v, &body.params.items);
    proof {
        lemma_visits_then(l0, m1, v.visited(), generics_visits(body.generics), param_list(body.params.items@));
    }
    let ghost m2 = v.visited();
    visit_vararg(v, &body.vararg);
    proof {
        lemma_visits_then(l0, m2, v.visited(), generics_visits(body.generics) + param_list(body.params.items@), vararg_visits(body.vararg));
    }
    let ghost m3 = v.visited();
    visit_opt_type(v, &body.return_type);
    proof {
        lemma_visits_then(l0, m3, v.visited(), generics_visits(body.generics) + param_list(body.params.items@) + vararg_visits(body.vararg), optional_type_visit(body.return_type));
    }
    let ghost m4 = v.visited();
    visit_one_block(v, &body.block);
    proof {
        lemma_visits_then(l0, m4, v.visited(), generics_visits(body.generics) + param_list(body.params.items@) + vararg_visits(body.vararg) + optional_type_visit(body.return_type), seq![Visited::Block(body.block)]);
    }
    proof {
        assert(generics_visits(body.generics) + param_list(body.params.items@) + vararg_visits(body.vararg) + optional_type_visit(body.return_type) + seq![Visited::Block(body.block)] =~= function_body_visits(*body));
    }
}

/// Hands `v` the returned expressions of a `return`.
pub fn walk_last_statement<V: Visitor>(v: &mut V, last: &LastStatement)
    ensures
        visits_exactly(old(v).visited(), final(v).visited(), last_statement_visits(*last)),
{
    match last {
        LastStatement::Return(r) => {
            visit_expressions(v, &r.exprs.items);
            proof {
                assert(expression_list(r.exprs.items@) =~= last_statement_visits(*last));
            }
        },
        _ => {
            proof {
                lemma_visits_none(v.visited());
            }
        },
    }
}

/// Hands `v` the direct children of `type_value`, in source order.
pub fn walk_type<V: Visitor>(v: &mut V, type_value: &Type)
    ensures
        visits_exactly(old(v).visited(), final(v).visited(), type_visits(*type_value)),
{
    match type_value {
        Type::Named(n) => {
            match &n.generics {
                Some(args) => visit_types(v, &args.args.items),
                None => {
                    proof {
                        lemma_visits_none(v.visited());
                    }
                },
            }
        },
        Type::Typeof(t) => {
            visit_one_expression(v, &t.expr);
            proof {
                assert(expression_visit(t.expr) =~= type_visits(*type_value));
            }
        },
        Type::Table(t) => {
            visit_type_fields(v, &t.fields.items);
            proof {
                assert(type_field_list(t.fields.items@) =~= type_visits(*type_value));
            }
        },
        Type::Function(f) => {
            let ghost l0 = v.visited();
            let ghost m0 = v.visited();
            visit_function_type_generics(v, &f.generics);
            let ghost m1 = v.visited();
            visit_function_type_params(v, &f.params.items);
            proof {
                lemma_visits_then(l0, m1, v.visited(), function_type_generics_visits(f.generics), function_type_param_list(f.params.items@));
            }
            let ghost m2 = v.visited();
            visit_one_type(v, &f.return_type);
            proof {
                lemma_visits_then(l0, m2, v.visited(), function_type_generics_visits(f.generics) + function_type_param_list(f.params.items@), seq![Visited::Type(f.return_type)]);
            }
            proof {
                assert(function_type_generics_visits(f.generics) + function_type_param_list(f.params.items@) + seq![Visited::Type(f.return_type)] =~= type_visits(*type_value));
            }
        },
        Type::Optional(o) => {
            visit_one_type(v, &o.type_value);
            proof {
                assert(seq![Visited::Type(o.type_value)] =~= type_visits(*type_value));
            }
        },
        Type::Union(u) => {
            visit_types(v, &u.types.items);
            proof {
                assert(type_list(u.types.items@) =~= type_visits(*type_value));
            }
        },
        Type::Intersection(i) => {
            visit_types(v, &i.types.items);
            proof {
                assert(type_list(i.types.items@) =~= type_visits(*type_value));
            }
        },
        Type::Negation(n) => {
            visit_one_type(v, &n.type_value);
            proof {
                assert(seq![Visited::Type(n.type_value)] =~= type_visits(*type_value));
            }
        },
        Type::Parenthesized(p) => {
            visit_one_type(v, &p.type_value);
            proof {
                assert(seq![Visited::Type(p.type_value)] =~= type_visits(*type_value));
            }
        },
        Type::Pack(p) => {
            visit_types(v, &p.types.items);
            proof {
                assert(type_list(p.types.items@) =~= type_visits(*type_value));
            }
        },
        Type::Variadic(x) => {
            visit_one_type(v, &x.type_value);
            proof {
                assert(seq![Visited::Type(x.type_value)] =~= type_visits(*type_value));
            }
        },
        _ => {
            proof {
                lemma_visits_none(v.visited());
            }
        },
    }
}

} // verus!
