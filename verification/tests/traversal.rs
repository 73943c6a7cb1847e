use luck::ast::{BinOp, TokenKind, 
    Assignment, AttributedName, BinaryOp, Block, ElseClause, Expression, Field, FunctionArgs, FunctionBody,
    FunctionCall, FunctionCallStmt, IfStatement, LastStatement, Literal, LocalAssignment, LocalFunction, NumericFor,
    Parameter, RepeatLoop, ReturnStatement, Statement, TableConstructor, Token, Type, Var, WhileLoop,
};
use luck::punctuated::Punctuated;
use luck::synth::Span;
use luck::transform::{
    walk_block_mut, walk_expression_mut, walk_last_statement_mut, walk_statement_mut, walk_type_mut, walk_var_mut,
    AstTransform, Slot,
};
use luck::visitor::{
    walk_block, walk_expression, walk_function_body, walk_last_statement, walk_statement, walk_type, walk_var, Visited,
    Visitor,
};

fn span() -> Span {
    Span::new(0, 0)
}

fn token(text: &str) -> Token {
    Token { kind: TokenKind::Identifier, text: text.to_string(), span: span() }
}

fn string_token(text: &str) -> Token {
    Token { kind: TokenKind::StringLiteral, text: text.to_string(), span: span() }
}

fn num_expr() -> Expression {
    Expression::Number(Literal { text: "1".to_string(), span: span() })
}

fn nil_expr() -> Expression {
    Expression::Nil(span())
}

fn name_expr(name: &str) -> Expression {
    Expression::Var(Box::new(Var::Name(token(name))))
}

fn binop_expr(left: Expression, right: Expression) -> Expression {
    Expression::BinaryOp(Box::new(BinaryOp { span: span(), left, op: BinOp::Add, right }))
}

fn empty_block() -> Block {
    Block { span: span(), stmts: Vec::new(), last_stmt: None }
}

fn local(name: &str, value: Expression) -> Statement {
    Statement::LocalAssignment(Box::new(LocalAssignment {
        span: span(),
        is_const: false,
        names: Punctuated::from_item(AttributedName { name: token(name), type_annotation: None, attrib: None }),
        exprs: Some(Punctuated::from_item(value)),
    }))
}

fn block_of(stmts: Vec<Statement>) -> Block {
    Block { span: span(), stmts, last_stmt: None }
}

/// Counts the expressions it is handed that `pick` selects, and every
/// expression or statement it is handed.
struct Counter {
    pick: fn(&Expression) -> bool,
    picked: usize,
    expressions: usize,
    statements: usize,
}

impl Counter {
    fn new(pick: fn(&Expression) -> bool) -> Counter {
        Counter { pick, picked: 0, expressions: 0, statements: 0 }
    }
}

impl Visitor for Counter {
    fn visited(&self) -> vstd::seq::Seq<Visited> {
        panic!("the visit log is ghost")
    }

    fn visit_block(&mut self, block: &Block) {
        walk_block(self, block);
    }

    fn visit_statement(&mut self, stmt: &Statement) {
        self.statements += 1;
        walk_statement(self, stmt);
    }

    fn visit_expression(&mut self, expr: &Expression) {
        self.expressions += 1;
        if (self.pick)(expr) {
            self.picked += 1;
        }
        walk_expression(self, expr);
    }

    fn visit_var(&mut self, var: &Var) {
        walk_var(self, var);
    }

    fn visit_function_body(&mut self, body: &FunctionBody) {
        walk_function_body(self, body);
    }

    fn visit_last_statement(&mut self, last: &LastStatement) {
        walk_last_statement(self, last);
    }

    fn visit_type(&mut self, type_value: &Type) {
        walk_type(self, type_value);
    }
}

fn count(block: &Block, pick: fn(&Expression) -> bool) -> Counter {
    let mut counter = Counter::new(pick);
    counter.visit_block(block);
    counter
}

fn is_nil(e: &Expression) -> bool {
    matches!(e, Expression::Nil(_))
}

fn is_false(e: &Expression) -> bool {
    matches!(e, Expression::False(_))
}

fn any(_: &Expression) -> bool {
    true
}

/// Rewrites every `nil` to `false`.
struct NilToFalse;

impl AstTransform for NilToFalse {
    fn rewrites(&self) -> vstd::seq::Seq<(Slot, Slot)> {
        panic!("the rewrite record is ghost")
    }

    fn transform_block(&mut self, block: Block) -> Block {
        walk_block_mut(self, block)
    }

    fn transform_statement(&mut self, stmt: Statement) -> Statement {
        walk_statement_mut(self, stmt)
    }

    fn transform_expression(&mut self, expr: Expression) -> Expression {
        match walk_expression_mut(self, expr) {
            Expression::Nil(s) => Expression::False(s),
            other => other,
        }
    }

    fn transform_var(&mut self, var: Var) -> Var {
        walk_var_mut(self, var)
    }

    fn transform_last_statement(&mut self, last: LastStatement) -> LastStatement {
        walk_last_statement_mut(self, last)
    }

    fn transform_type(&mut self, type_value: Type) -> Type {
        walk_type_mut(self, type_value)
    }
}

/// Rewrites nothing of its own.
struct Identity;

impl AstTransform for Identity {
    fn rewrites(&self) -> vstd::seq::Seq<(Slot, Slot)> {
        panic!("the rewrite record is ghost")
    }

    fn transform_block(&mut self, block: Block) -> Block {
        walk_block_mut(self, block)
    }

    fn transform_statement(&mut self, stmt: Statement) -> Statement {
        walk_statement_mut(self, stmt)
    }

    fn transform_expression(&mut self, expr: Expression) -> Expression {
        walk_expression_mut(self, expr)
    }

    fn transform_var(&mut self, var: Var) -> Var {
        walk_var_mut(self, var)
    }

    fn transform_last_statement(&mut self, last: LastStatement) -> LastStatement {
        walk_last_statement_mut(self, last)
    }

    fn transform_type(&mut self, type_value: Type) -> Type {
        walk_type_mut(self, type_value)
    }
}

fn assert_no_nil_and_false_count(block: Block, falses: usize) {
    let block = NilToFalse.transform_block(block);
    assert_eq!(count(&block, is_nil).picked, 0);
    assert_eq!(count(&block, is_false).picked, falses);
}

#[test]
fn nil_to_false_in_local_assignment() {
    // local x = nil => local x = false
    assert_no_nil_and_false_count(block_of(vec![local("x", nil_expr())]), 1);
}

#[test]
fn nil_to_false_in_table() {
    // {nil, nil} => {false, false}
    let table = Expression::TableConstructor(Box::new(TableConstructor {
        span: span(),
        fields: Punctuated::from_items(vec![
            Field::Positional { span: span(), value: nil_expr() },
            Field::Positional { span: span(), value: nil_expr() },
        ]),
    }));
    assert_no_nil_and_false_count(block_of(vec![local("t", table)]), 2);
}

#[test]
fn nil_to_false_in_function_return() {
    // local function f() return nil end => return false
    let body = FunctionBody {
        span: span(),
        generics: None,
        params: Punctuated::empty(),
        vararg: None,
        return_type: None,
        block: Block {
            span: span(),
            stmts: Vec::new(),
            last_stmt: Some(Box::new(LastStatement::Return(Box::new(ReturnStatement {
                span: span(),
                exprs: Punctuated::from_item(nil_expr()),
            })))),
        },
    };
    let block = block_of(vec![Statement::LocalFunction(Box::new(LocalFunction {
        span: span(),
        attributes: Vec::new(),
        is_const: false,
        name: token("f"),
        body,
    }))]);
    assert_no_nil_and_false_count(block, 1);
}

fn assign(name: &str, value: Expression) -> Statement {
    Statement::Assignment(Box::new(Assignment {
        span: span(),
        targets: Punctuated::from_item(Var::Name(token(name))),
        values: Punctuated::from_item(value),
    }))
}

#[test]
fn nil_to_false_in_if_statement() {
    // if nil then x = nil else y = nil end => all nils become false
    let block = block_of(vec![Statement::IfStatement(Box::new(IfStatement {
        span: span(),
        condition: nil_expr(),
        block: block_of(vec![assign("x", nil_expr())]),
        elseif_clauses: Vec::new(),
        else_clause: Some(ElseClause { span: span(), block: block_of(vec![assign("y", nil_expr())]) }),
    }))]);
    assert_no_nil_and_false_count(block, 3);
}

#[test]
fn identity_transform_preserves_structure() {
    // local x = 1 + 2
    let build = || block_of(vec![local("x", binop_expr(num_expr(), num_expr()))]);
    let transformed = Identity.transform_block(build());
    assert_eq!(build(), transformed);
}

#[test]
fn transform_while_loop_condition() {
    // while nil do end => while false do end
    let block = block_of(vec![Statement::WhileLoop(Box::new(WhileLoop {
        span: span(),
        condition: nil_expr(),
        block: empty_block(),
    }))]);
    let block = NilToFalse.transform_block(block);
    assert_eq!(count(&block, is_nil).picked, 0);
}

#[test]
fn transform_repeat_loop_condition() {
    // repeat until nil => repeat until false
    let block = block_of(vec![Statement::RepeatLoop(Box::new(RepeatLoop {
        span: span(),
        block: empty_block(),
        condition: nil_expr(),
    }))]);
    let block = NilToFalse.transform_block(block);
    assert_eq!(count(&block, is_nil).picked, 0);
}

fn numeric_for(start: Expression, limit: Expression, step: Expression) -> Statement {
    Statement::NumericFor(Box::new(NumericFor {
        span: span(),
        name: token("i"),
        type_annotation: None,
        start,
        limit,
        step: Some(step),
        block: empty_block(),
    }))
}

#[test]
fn transform_numeric_for_step() {
    // for i = nil, nil, nil do end => all become false
    assert_no_nil_and_false_count(block_of(vec![numeric_for(nil_expr(), nil_expr(), nil_expr())]), 3);
}

#[test]
fn count_expressions_in_binary_op() {
    // local x = 1 + 2 => 3 expressions (1, 2, 1+2)
    let block = block_of(vec![local("x", binop_expr(num_expr(), num_expr()))]);
    assert_eq!(count(&block, any).expressions, 3);
}

#[test]
fn count_expressions_in_table() {
    // {1, 2, 3} => table constructor + 3 values = 4
    let table = Expression::TableConstructor(Box::new(TableConstructor {
        span: span(),
        fields: Punctuated::from_items(vec![
            Field::Positional { span: span(), value: num_expr() },
            Field::Positional { span: span(), value: num_expr() },
            Field::Positional { span: span(), value: num_expr() },
        ]),
    }));
    assert_eq!(count(&block_of(vec![local("t", table)]), any).expressions, 4);
}

#[test]
fn count_statements() {
    let block = Block {
        span: span(),
        stmts: vec![local("x", num_expr()), local("y", num_expr())],
        last_stmt: Some(Box::new(LastStatement::Return(Box::new(ReturnStatement {
            span: span(),
            exprs: Punctuated::from_item(name_expr("x")),
        })))),
    };
    assert_eq!(count(&block, any).statements, 2);
}

#[test]
fn visit_function_body() {
    // local function f(a) return a + 1 end => 3 expressions (a, 1, a+1)
    let body = FunctionBody {
        span: span(),
        generics: None,
        params: Punctuated::from_item(Parameter { span: span(), name: token("a"), type_annotation: None }),
        vararg: None,
        return_type: None,
        block: Block {
            span: span(),
            stmts: Vec::new(),
            last_stmt: Some(Box::new(LastStatement::Return(Box::new(ReturnStatement {
                span: span(),
                exprs: Punctuated::from_item(binop_expr(name_expr("a"), num_expr())),
            })))),
        },
    };
    let block = block_of(vec![Statement::LocalFunction(Box::new(LocalFunction {
        span: span(),
        attributes: Vec::new(),
        is_const: false,
        name: token("f"),
        body,
    }))]);
    assert_eq!(count(&block, any).expressions, 3);
}

#[test]
fn visit_if_statement() {
    // if x then y = 1 else y = nil end => x, 1, nil = 3 expressions
    let block = block_of(vec![Statement::IfStatement(Box::new(IfStatement {
        span: span(),
        condition: name_expr("x"),
        block: block_of(vec![assign("y", num_expr())]),
        elseif_clauses: Vec::new(),
        else_clause: Some(ElseClause { span: span(), block: block_of(vec![assign("y", nil_expr())]) }),
    }))]);
    assert_eq!(count(&block, any).expressions, 3);
}

#[test]
fn visit_numeric_for() {
    // for i = 1, 10, 2 do end => 3 expressions (1, 10, 2)
    assert_eq!(count(&block_of(vec![numeric_for(num_expr(), num_expr(), num_expr())]), any).expressions, 3);
}

#[test]
fn visit_nested_function_call() {
    // f(x) as a statement: callee f + argument x = 2 expressions
    let call = FunctionCall {
        span: span(),
        callee: name_expr("f"),
        args: FunctionArgs::Parenthesized { span: span(), args: Punctuated::from_item(name_expr("x")) },
        method: None,
    };
    let block = block_of(vec![Statement::FunctionCall(Box::new(FunctionCallStmt { span: span(), call }))]);
    assert_eq!(count(&block, any).expressions, 2);
}

/// Records the kinds of the nodes it is handed, without recursing.
struct Recorder(Vec<&'static str>);

impl Visitor for Recorder {
    fn visited(&self) -> vstd::seq::Seq<Visited> {
        panic!("the visit log is ghost")
    }

    fn visit_block(&mut self, _: &Block) {
        self.0.push("block");
    }

    fn visit_statement(&mut self, _: &Statement) {
        self.0.push("statement");
    }

    fn visit_expression(&mut self, _: &Expression) {
        self.0.push("expression");
    }

    fn visit_var(&mut self, _: &Var) {
        self.0.push("var");
    }

    fn visit_function_body(&mut self, _: &FunctionBody) {
        self.0.push("body");
    }

    fn visit_last_statement(&mut self, _: &LastStatement) {
        self.0.push("last");
    }

    fn visit_type(&mut self, _: &Type) {
        self.0.push("type");
    }
}

#[test]
fn walk_statement_hands_on_children_in_source_order() {
    let mut recorder = Recorder(Vec::new());
    walk_statement(&mut recorder, &numeric_for(num_expr(), num_expr(), num_expr()));
    assert_eq!(recorder.0, vec!["expression", "expression", "expression", "block"]);
    let mut recorder = Recorder(Vec::new());
    let repeat = Statement::RepeatLoop(Box::new(RepeatLoop { span: span(), block: empty_block(), condition: nil_expr() }));
    walk_statement(&mut recorder, &repeat);
    assert_eq!(recorder.0, vec!["block", "expression"]);
    let mut recorder = Recorder(Vec::new());
    walk_statement(&mut recorder, &assign("y", num_expr()));
    assert_eq!(recorder.0, vec!["var", "expression"]);
}

#[test]
fn type_walkers_keep_leaves_and_rewrite_children() {
    let leaf = Type::Singleton(string_token("\"x\""));
    assert_eq!(walk_type_mut(&mut NilToFalse, leaf), Type::Singleton(string_token("\"x\"")));
    let mut recorder = Recorder(Vec::new());
    let optional = Type::Optional(Box::new(luck::ast::OptionalType { span: span(), type_value: Type::Error(span()) }));
    walk_type(&mut recorder, &optional);
    assert_eq!(recorder.0, vec!["type"]);
    let mut recorder = Recorder(Vec::new());
    walk_expression(&mut recorder, &binop_expr(nil_expr(), num_expr()));
    assert_eq!(recorder.0, vec!["expression", "expression"]);
}
