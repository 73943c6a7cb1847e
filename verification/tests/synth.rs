use luck::ast::{BinOp, CompoundOp, Expression, Token, TokenKind, FunctionArgs, LastStatement, Statement, Type, TypeDeclarationValue, UnOp, Var};
use luck::query::{expr_starts_with_brace, expr_starts_with_paren, stmt_starts_with_paren, var_starts_with_paren};
use luck::synth::{FnSig, Synth, SynthField, SynthTypeField, TypeFieldAccess};

#[test]
fn binop_parenthesizes_lower_precedence_operands() {
    let mut synth = Synth::new();
    // (a + b) * c: the additive LHS must gain parens under `*`.
    let a = synth.name_expr("a");
    let b = synth.name_expr("b");
    let sum = synth.binop(a, BinOp::Add, b);
    let c = synth.name_expr("c");
    let product = synth.binop(sum, BinOp::Mul, c);

    let Expression::BinaryOp(product) = &product else {
        panic!("expected binop");
    };
    assert!(
        matches!(product.left, Expression::Parenthesized(_)),
        "lower-precedence LHS not parenthesized"
    );
}

#[test]
fn binop_keeps_higher_precedence_operands_bare() {
    let mut synth = Synth::new();
    // a * b + c: the multiplicative LHS needs no parens under `+`.
    let a = synth.name_expr("a");
    let b = synth.name_expr("b");
    let product = synth.binop(a, BinOp::Mul, b);
    let c = synth.name_expr("c");
    let sum = synth.binop(product, BinOp::Add, c);

    let Expression::BinaryOp(sum) = &sum else {
        panic!("expected binop");
    };
    assert!(matches!(sum.left, Expression::BinaryOp(_)));
}

#[test]
fn binop_honors_associativity() {
    let mut synth = Synth::new();
    // Left-nested concat needs parens: (a .. b) .. c is not a .. b .. c.
    let a = synth.name_expr("a");
    let b = synth.name_expr("b");
    let inner = synth.binop(a, BinOp::Concat, b);
    let c = synth.name_expr("c");
    let outer = synth.binop(inner, BinOp::Concat, c);
    let Expression::BinaryOp(outer) = &outer else {
        panic!("expected binop");
    };
    assert!(matches!(outer.left, Expression::Parenthesized(_)));

    // Right-nested subtraction needs parens: a - (b - c).
    let b = synth.name_expr("b");
    let c = synth.name_expr("c");
    let inner = synth.binop(b, BinOp::Sub, c);
    let a = synth.name_expr("a");
    let outer = synth.binop(a, BinOp::Sub, inner);
    let Expression::BinaryOp(outer) = &outer else {
        panic!("expected binop");
    };
    assert!(matches!(outer.right, Expression::Parenthesized(_)));
}

#[test]
fn caret_parenthesizes_unary_lhs() {
    let mut synth = Synth::new();
    // (-a)^b: without parens this would re-parse as -(a^b).
    let a = synth.name_expr("a");
    let negated = synth.unop(UnOp::Neg, a);
    let b = synth.name_expr("b");
    let power = synth.binop(negated, BinOp::Pow, b);
    let Expression::BinaryOp(power) = &power else {
        panic!("expected binop");
    };
    assert!(matches!(power.left, Expression::Parenthesized(_)));

    // a * -b stays bare: unary is always accepted after a binop.
    let b = synth.name_expr("b");
    let negated = synth.unop(UnOp::Neg, b);
    let a = synth.name_expr("a");
    let product = synth.binop(a, BinOp::Mul, negated);
    let Expression::BinaryOp(product) = &product else {
        panic!("expected binop");
    };
    assert!(matches!(product.right, Expression::UnaryOp(_)));
}

#[test]
fn if_expression_operands_always_parenthesized() {
    let mut synth = Synth::new();
    let cond = synth.boolean(true);
    let then_expr = synth.number("1");
    let else_expr = synth.number("2");
    let if_expr = synth.if_expr(cond, then_expr, vec![], else_expr);
    let a = synth.name_expr("a");
    let sum = synth.binop(a, BinOp::Add, if_expr);
    let Expression::BinaryOp(sum) = &sum else {
        panic!("expected binop");
    };
    assert!(
        matches!(sum.right, Expression::Parenthesized(_)),
        "greedy if-expression must be parenthesized as an operand"
    );
}

#[test]
fn unop_parenthesizes_binop_operand() {
    let mut synth = Synth::new();
    // -(a + b): without parens this would re-parse as (-a) + b.
    let a = synth.name_expr("a");
    let b = synth.name_expr("b");
    let sum = synth.binop(a, BinOp::Add, b);
    let negated = synth.unop(UnOp::Neg, sum);
    let Expression::UnaryOp(negated) = &negated else {
        panic!("expected unop");
    };
    assert!(matches!(negated.operand, Expression::Parenthesized(_)));
}

#[test]
fn type_cast_parenthesizes_compound_operand() {
    let mut synth = Synth::new();
    let a = synth.name_expr("a");
    let b = synth.name_expr("b");
    let sum = synth.binop(a, BinOp::Add, b);
    let ty = synth.ty_named("number");
    let cast = synth.type_cast(sum, ty);
    let Expression::TypeCast(cast) = &cast else {
        panic!("expected type cast");
    };
    assert!(matches!(cast.expr, Expression::Parenthesized(_)));
}

#[test]
fn prefix_positions_wrap_non_prefix_expressions() {
    let mut synth = Synth::new();
    // ("s"):rep(2) - a string receiver must be parenthesized.
    let receiver = synth.string("s");
    let two = synth.number("2");
    let called = synth.method_call(receiver, "rep", vec![two]);
    let Expression::FunctionCall(call) = &called else {
        panic!("expected call");
    };
    assert!(matches!(call.callee, Expression::Parenthesized(_)));

    // ({}).x - a table prefix must be parenthesized.
    let table = synth.table(vec![]);
    let accessed = synth.field(table, "x");
    let Expression::Var(var) = &accessed else {
        panic!("expected var");
    };
    let Var::FieldAccess(access) = var.as_ref() else {
        panic!("expected field access");
    };
    assert!(matches!(access.prefix, Expression::Parenthesized(_)));

    // f().x - a call prefix stays bare.
    let f = synth.name_expr("f");
    let call = synth.call(f, vec![]);
    let chained = synth.field(call, "x");
    let Expression::Var(var) = &chained else {
        panic!("expected var");
    };
    let Var::FieldAccess(access) = var.as_ref() else {
        panic!("expected field access");
    };
    assert!(matches!(access.prefix, Expression::FunctionCall(_)));
}

#[test]
fn field_or_index_picks_form_by_name() {
    let mut synth = Synth::new();
    let table = synth.name_expr("t");
    assert!(matches!(
        synth.field_or_index(table, "valid_name"),
        Expression::Var(var) if matches!(*var, Var::FieldAccess(_))
    ));
    for bad in ["not an ident", "1st", "", "end", "goto"] {
        let table = synth.name_expr("t");
        assert!(
            matches!(
                synth.field_or_index(table, bad),
                Expression::Var(var) if matches!(*var, Var::Index(_))
            ),
            "{bad:?} should use the bracketed form"
        );
    }
}

#[test]
fn number_int_handles_extremes() {
    let mut synth = Synth::new();
    let Expression::Number(literal) = synth.number_int(42) else {
        panic!("expected number");
    };
    assert_eq!(literal.text.as_str(), "42");

    assert!(matches!(synth.number_int(-7), Expression::UnaryOp(_)));

    // i64::MIN has no decimal literal; the hex form wraps to it.
    let Expression::Number(literal) = synth.number_int(i64::MIN) else {
        panic!("expected number");
    };
    assert_eq!(literal.text.as_str(), "0x8000000000000000");
}

#[test]
fn string_escaping_is_raw() {
    let mut synth = Synth::new();
    let Expression::StringLiteral(literal) = synth.string("a\"b\n") else {
        panic!("expected string literal");
    };
    assert_eq!(literal.text.as_str(), "\"a\\\"b\\n\"");
}

#[test]
fn builds_if_expr_with_elseif() {
    let mut synth = Synth::new();
    let cond = synth.boolean(true);
    let then_expr = synth.number("1");
    let elseif_cond = synth.boolean(false);
    let elseif_expr = synth.number("2");
    let else_expr = synth.number("3");
    let expr = synth.if_expr(cond, then_expr, vec![(elseif_cond, elseif_expr)], else_expr);
    let Expression::IfExpression(if_expr) = &expr else {
        panic!("expected if expression");
    };
    assert_eq!(if_expr.elseif_clauses.len(), 1);
}

#[test]
fn builds_sugar_call_forms() {
    let mut synth = Synth::new();
    let require = synth.name_expr("require");
    let Expression::FunctionCall(call) = synth.call_string(require, "module") else {
        panic!("expected call");
    };
    assert!(matches!(call.args, FunctionArgs::StringLiteral(_)));

    let configure = synth.name_expr("configure");
    let debug = synth.boolean(true);
    let Expression::FunctionCall(call) = synth.call_table(configure, vec![SynthField::Named("debug", debug)]) else {
        panic!("expected call");
    };
    assert!(matches!(call.args, FunctionArgs::TableConstructor(_)));

    let s = synth.name_expr("s");
    let Expression::FunctionCall(call) = synth.method_call_string(s, "gsub", "pattern") else {
        panic!("expected call");
    };
    assert!(call.method.is_some());
    assert!(matches!(call.args, FunctionArgs::StringLiteral(_)));
}

#[test]
fn spans_are_monotonic() {
    let mut synth = Synth::new();
    let first = synth.nil();
    let second = synth.nil();
    let third = synth.number("3");
    assert!(second.span().start > first.span().start);
    assert!(third.span().start > second.span().start);
}

#[test]
fn starting_at_offsets_spans() {
    let mut synth = Synth::starting_at(1000);
    assert_eq!(synth.nil().span().start, 1000);
}

#[test]
fn binop_spans_follow_construction_order() {
    let mut synth = Synth::starting_at(10);
    let a = synth.name_expr("a");
    let b = synth.name_expr("b");
    let sum = synth.binop(a, BinOp::Add, b);
    let c = synth.name_expr("c");
    let product = synth.binop(sum, BinOp::Mul, c);
    // a=10, b=11, sum=12, c=13, parens=14, product=15.
    let Expression::BinaryOp(product) = &product else {
        panic!("expected binop");
    };
    assert_eq!(product.span.start, 15);
    let Expression::Parenthesized(paren) = &product.left else {
        panic!("expected parentheses");
    };
    assert_eq!(paren.span.start, 14);
    assert_eq!(paren.expr.span().start, 12);
    assert_eq!(synth.next_offset, 16);
}

#[test]
fn number_int_renders_negative_magnitude() {
    let mut synth = Synth::new();
    let Expression::UnaryOp(negated) = synth.number_int(-1234) else {
        panic!("expected unop");
    };
    assert_eq!(negated.op, UnOp::Neg);
    let Expression::Number(literal) = &negated.operand else {
        panic!("expected number");
    };
    assert_eq!(literal.text.as_str(), "1234");
    assert_eq!(literal.span.start, 0);
    assert_eq!(negated.span.start, 1);
}

#[test]
fn precedence_orders_operators() {
    assert!(BinOp::Or.precedence().0 < BinOp::And.precedence().0);
    assert!(BinOp::Concat.precedence().0 < BinOp::Add.precedence().0);
    assert!(BinOp::Mul.precedence().0 < BinOp::Pow.precedence().0);
    assert!(luck::ast::UNARY_PRECEDENCE < BinOp::Pow.precedence().0);
    assert!(luck::ast::UNARY_PRECEDENCE > BinOp::Mod.precedence().0);
}

#[test]
fn builds_if_with_elseif() {
    let mut synth = Synth::new();
    let cond = synth.boolean(true);
    let then_block = synth.block(vec![], None);
    let elseif_cond = synth.boolean(false);
    let elseif_block = synth.block(vec![], None);
    let stmt = synth.if_(cond, then_block, vec![(elseif_cond, elseif_block)], None);

    let Statement::IfStatement(if_stmt) = &stmt else {
        panic!("expected if statement");
    };
    assert_eq!(if_stmt.elseif_clauses.len(), 1);
    assert!(if_stmt.else_clause.is_none());
}

#[test]
fn builds_generic_for() {
    let mut synth = Synth::new();
    let pairs = synth.name_expr("pairs");
    let t = synth.name_expr("t");
    let call = synth.call(pairs, vec![t]);
    let k = synth.param("k");
    let v = synth.param("v");
    let block = synth.block(vec![], None);
    let stmt = synth.generic_for(vec![k, v], vec![call], block);

    let Statement::GenericFor(generic) = &stmt else {
        panic!("expected generic for");
    };
    assert_eq!(generic.names.len(), 2);
    assert_eq!(generic.exprs.len(), 1);
}

#[test]
fn builds_typed_numeric_for() {
    let mut synth = Synth::new();
    let ty = synth.ty_named("number");
    let var = synth.param_typed("i", ty);
    let start = synth.number("1");
    let limit = synth.number("10");
    let block = synth.block(vec![], None);
    let stmt = synth.numeric_for(var, start, limit, None, block);
    let Statement::NumericFor(numeric) = &stmt else {
        panic!("expected numeric for");
    };
    assert!(numeric.type_annotation.is_some());
}

#[test]
fn builds_typed_vararg_param() {
    let mut synth = Synth::new();
    let ty = synth.ty_named("number");
    let vararg = synth.vararg_param(Some(ty));
    assert!(vararg.name.is_none());
    assert!(vararg.type_annotation.is_some());
}

#[test]
fn builds_continue_and_breaks() {
    let mut synth = Synth::new();
    assert!(matches!(synth.continue_(), LastStatement::Continue(_)));
    assert!(matches!(synth.break_(), LastStatement::Break(_)));
    assert!(matches!(synth.break_stmt(), Statement::Break(_)));
    assert!(matches!(synth.empty_stmt(), Statement::EmptyStatement(_)));
}

#[test]
fn builds_goto_and_label() {
    let mut synth = Synth::new();
    assert!(matches!(synth.goto_("done"), Statement::Goto(_)));
    assert!(matches!(synth.label("done"), Statement::Label(_)));
}

#[test]
fn if_statement_spans_follow_clause_order() {
    let mut synth = Synth::starting_at(5);
    let cond = synth.boolean(true); // 5
    let then_block = synth.block(vec![], None); // 6
    let c1 = synth.boolean(false); // 7
    let b1 = synth.block(vec![], None); // 8
    let else_block = synth.block(vec![], None); // 9
    let stmt = synth.if_(cond, then_block, vec![(c1, b1)], Some(else_block));
    let Statement::IfStatement(if_stmt) = &stmt else {
        panic!("expected if statement");
    };
    assert_eq!(if_stmt.span.start, 10);
    assert_eq!(if_stmt.elseif_clauses[0].span.start, 11);
    assert_eq!(if_stmt.else_clause.as_ref().unwrap().span.start, 12);
    assert_eq!(stmt.span().start, 10);
    assert_eq!(synth.next_offset, 13);
}

#[test]
fn queries_find_leading_parenthesis_and_brace() {
    let mut synth = Synth::new();
    // ("s"):rep(2) starts with `(`; a statement of it must be guarded.
    let receiver = synth.string("s");
    let two = synth.number("2");
    let call = synth.method_call(receiver, "rep", vec![two]);
    assert!(expr_starts_with_paren(&call));
    let stmt = synth.call_stmt(call);
    assert!(stmt_starts_with_paren(&stmt));
    // f(x) does not.
    let f = synth.name_expr("f");
    let x = synth.name_expr("x");
    let plain = synth.call(f, vec![x]);
    assert!(!expr_starts_with_paren(&plain));
    // ({}).x as a prefix starts with `(`, not `{`; a bare table starts with `{`.
    let table = synth.table(vec![]);
    assert!(expr_starts_with_brace(&table));
    let accessed = synth.field(table, "x");
    assert!(expr_starts_with_paren(&accessed));
    assert!(!expr_starts_with_brace(&accessed));
    // a.b = 1 does not; (f()).b = 1 does.
    let a = synth.name_expr("a");
    let target = synth.field_var(a, "b");
    let one = synth.number("1");
    let assign = synth.assign(vec![target], vec![one]);
    assert!(!stmt_starts_with_paren(&assign));
    let g = synth.name_expr("g");
    let g_call = synth.call(g, vec![]);
    let wrapped = synth.paren(g_call);
    let target = synth.field_var(wrapped, "b");
    let one = synth.number("1");
    let assign = synth.assign(vec![target], vec![one]);
    assert!(stmt_starts_with_paren(&assign));
    let nil = synth.nil();
    let wrapped = synth.paren(nil);
    let one = synth.number("1");
    let var = synth.index_var(wrapped, one);
    assert!(var_starts_with_paren(&var));
}

#[test]
fn end_keyword_span_covers_last_three_bytes() {
    let body_span = luck::synth::Span { start: 10, end: 40 };
    let mut synth = Synth::new();
    let block = synth.block(vec![], None);
    let body = luck::ast::FunctionBody {
        span: body_span,
        generics: None,
        params: luck::punctuated::Punctuated::empty(),
        vararg: None,
        return_type: None,
        block,
    };
    let end = body.end_keyword_span();
    assert_eq!((end.start, end.end), (37, 40));
    let short = luck::ast::FunctionBody { span: luck::synth::Span { start: 0, end: 2 }, ..body };
    assert_eq!(short.end_keyword_span().start, 0);
}

#[test]
fn builds_local_with_binop() {
    let mut synth = Synth::new();
    let one = synth.number("1");
    let two = synth.number("2");
    let sum = synth.binop(one, BinOp::Add, two);
    let stmt = synth.local(&["x"], vec![sum]);

    let Statement::LocalAssignment(local) = &stmt else {
        panic!("expected local assignment");
    };
    assert_eq!(local.names.len(), 1);
    let exprs = local.exprs.as_ref().unwrap();
    assert!(matches!(exprs.first().unwrap(), Expression::BinaryOp(_)));
}

#[test]
fn builds_typed_local() {
    let mut synth = Synth::new();
    let number = synth.ty_named("number");
    let optional = synth.ty_optional(number);
    let name = synth.attributed_name("x", Some(optional), None);
    let nil = synth.nil();
    let stmt = synth.local_full(vec![name], vec![nil]);

    let Statement::LocalAssignment(local) = &stmt else {
        panic!("expected local assignment");
    };
    let first = local.names.first().unwrap();
    let ty = first.type_annotation.as_ref().unwrap();
    assert!(matches!(ty, Type::Optional(_)));
}

#[test]
fn builds_global_declaration_and_star() {
    let mut synth = Synth::new();
    let name = synth.attributed_name("shared", None, Some("const"));
    let decl = synth.global_decl(vec![name], vec![]);
    let Statement::GlobalDeclaration(decl) = &decl else {
        panic!("expected global declaration");
    };
    assert!(decl.names.first().unwrap().attrib.is_some());
    assert!(decl.exprs.is_none());

    let Statement::GlobalStar(star) = synth.global_star(Some("const")) else {
        panic!("expected global star");
    };
    assert!(star.attrib.is_some());
}

#[test]
fn builds_type_forms() {
    let mut synth = Synth::new();
    let x = synth.name_expr("x");
    assert!(matches!(synth.ty_typeof(x), Type::Typeof(_)));
    let t = synth.ty_named("T");
    assert!(matches!(synth.ty_paren(t), Type::Parenthesized(_)));
    assert!(matches!(synth.ty_generic_pack("T"), Type::GenericPack(_)));
    let Type::Singleton(token) = synth.ty_singleton_bool(true) else {
        panic!("expected singleton");
    };
    assert_eq!(token.text, "true");
    let Type::Singleton(token) = synth.ty_singleton_nil() else {
        panic!("expected singleton");
    };
    assert_eq!(token.text, "nil");
    let Type::Singleton(token) = synth.ty_singleton_string("a\"b") else {
        panic!("expected singleton");
    };
    assert_eq!(token.text, "\"a\\\"b\"");
    let Type::Named(named) = synth.ty_qualified("mod", "Name") else {
        panic!("expected named type");
    };
    assert_eq!(named.prefix.as_ref().unwrap().text, "mod");
    assert_eq!(named.name.text, "Name");
    let number = synth.ty_named("number");
    let Type::Named(generic) = synth.ty_generic("Array", vec![number]) else {
        panic!("expected named type");
    };
    assert_eq!(generic.generics.as_ref().unwrap().args.len(), 1);
    let a = synth.ty_named("A");
    let b = synth.ty_named("B");
    let Type::Union(union) = synth.ty_union(vec![a, b]) else {
        panic!("expected union");
    };
    assert!(!union.has_leading_pipe);
    assert_eq!(union.types.len(), 2);
    let a = synth.ty_named("A");
    let b = synth.ty_named("B");
    assert!(matches!(synth.ty_intersection(vec![a, b]), Type::Intersection(_)));
    assert!(matches!(synth.ty_pack(vec![]), Type::Pack(_)));
    let n = synth.ty_named("number");
    assert!(matches!(synth.ty_variadic(n), Type::Variadic(_)));
}

#[test]
fn builds_typed_function() {
    let mut synth = Synth::new();
    let number = synth.ty_named("number");
    let param = synth.param_typed("n", number);
    let return_type = synth.ty_named("number");
    let sig = FnSig { params: vec![param], return_type: Some(return_type), ..FnSig::default() };
    let n = synth.name_expr("n");
    let ret = synth.return_(vec![n]);
    let block = synth.block(vec![], Some(ret));
    let func = synth.function_def_full(sig, block);

    let Expression::FunctionDef(def) = &func else {
        panic!("expected function def");
    };
    assert_eq!(def.body.params.len(), 1);
    assert!(def.body.params.first().unwrap().type_annotation.is_some());
    assert!(def.body.return_type.is_some());
}

#[test]
fn builds_generic_function_with_attributes() {
    let mut synth = Synth::new();
    let generics = synth.generic_type_list(vec![("T", false)]);
    let t = synth.ty_named("T");
    let param = synth.param_typed("value", t);
    let return_type = synth.ty_named("T");
    let sig = FnSig { generics: Some(generics), params: vec![param], return_type: Some(return_type), ..FnSig::default() };
    let block = synth.block(vec![], None);
    let stmt = synth.local_function_full("id", &["native"], sig, block);

    let Statement::LocalFunction(func) = &stmt else {
        panic!("expected local function");
    };
    assert_eq!(func.attributes.len(), 1);
    assert!(func.body.generics.is_some());
}

#[test]
fn builds_variadic_function() {
    let mut synth = Synth::new();
    let first = synth.param("first");
    let vararg = synth.vararg_param(None);
    let sig = FnSig { params: vec![first], vararg: Some(vararg), ..FnSig::default() };
    let block = synth.block(vec![], None);
    let func = synth.function_def_full(sig, block);

    let Expression::FunctionDef(def) = &func else {
        panic!("expected function def");
    };
    assert_eq!(def.body.params.len(), 1);
    let vararg = def.body.vararg.as_ref().expect("vararg present");
    assert!(vararg.name.is_none());
    assert!(vararg.type_annotation.is_none());
}

#[test]
fn builds_function_declaration_with_method() {
    let mut synth = Synth::new();
    let block = synth.block(vec![], None);
    let stmt = synth.function_decl(&["a", "b"], Some("greet"), &["self"], block);

    let Statement::FunctionDecl(decl) = &stmt else {
        panic!("expected function declaration");
    };
    assert_eq!(decl.name.names.len(), 2);
    assert!(decl.name.method.is_some());
}

#[test]
fn builds_globals() {
    let mut synth = Synth::new();
    let name = synth.attributed_name("shared", None, Some("const"));
    let decl = synth.global_decl(vec![name], vec![]);
    let Statement::GlobalDeclaration(decl) = &decl else {
        panic!("expected global declaration");
    };
    assert!(decl.names.first().unwrap().attrib.is_some());

    let block = synth.block(vec![], None);
    let func = synth.global_function("main", FnSig::default(), block);
    assert!(matches!(func, Statement::GlobalFunction(_)));

    let Statement::GlobalStar(star) = synth.global_star(Some("const")) else {
        panic!("expected global star");
    };
    assert!(star.attrib.is_some());
}

#[test]
fn function_decl_spans_follow_construction_order() {
    let mut synth = Synth::starting_at(100);
    let block = synth.block(vec![], None); // 100
    let stmt = synth.function_decl(&["a", "b"], Some("m"), &["x"], block);
    // param x: 101 (param), 102 (name); decl 103; path a 104, b 105; name 106; method 107; body 108.
    let Statement::FunctionDecl(decl) = &stmt else {
        panic!("expected function declaration");
    };
    assert_eq!(decl.span.start, 103);
    assert_eq!(decl.name.names[0].span.start, 104);
    assert_eq!(decl.name.names[1].span.start, 105);
    assert_eq!(decl.name.span.start, 106);
    assert_eq!(decl.name.method.as_ref().unwrap().span.start, 107);
    assert_eq!(decl.body.span.start, 108);
    assert_eq!(decl.body.params.first().unwrap().span.start, 101);
    assert_eq!(synth.next_offset, 109);
}

#[test]
fn string_bytes_escapes_non_utf8() {
    let mut synth = Synth::new();
    let Expression::StringLiteral(literal) = synth.string_bytes(&[0xff, b'a', 0x01, b'7']) else {
        panic!("expected string literal");
    };
    // Escapes are zero-padded to three digits so the following literal
    // digit `7` cannot extend them.
    assert_eq!(literal.text.as_str(), "\"\\255a\\0017\"");
}

#[test]
fn long_string_picks_collision_free_level() {
    let mut synth = Synth::new();
    let Expression::StringLiteral(literal) = synth.long_string("plain text") else {
        panic!("expected string literal");
    };
    assert_eq!(literal.text.as_str(), "[[plain text]]");

    let Expression::StringLiteral(literal) = synth.long_string("has ]] inside") else {
        panic!("expected string literal");
    };
    assert_eq!(literal.text.as_str(), "[=[has ]] inside]=]");

    // A leading newline would be swallowed; it gets doubled.
    let Expression::StringLiteral(literal) = synth.long_string("\ntext") else {
        panic!("expected string literal");
    };
    assert_eq!(literal.text.as_str(), "[[\n\ntext]]");

    // A trailing `]` at level 0 would merge with the closer.
    let Expression::StringLiteral(literal) = synth.long_string("x]") else {
        panic!("expected string literal");
    };
    assert_eq!(literal.text.as_str(), "[=[x]]=]");
}

#[test]
fn comment_helpers_anchor_on_statements() {
    let mut synth = Synth::new();
    let one = synth.number("1");
    let stmt = synth.local(&["x"], vec![one]);
    let leading = synth.leading_comment(&stmt, "before");
    let trailing = synth.trailing_comment(&stmt, "after");
    assert_eq!(leading.attached_to, stmt.span().start);
    assert!(leading.is_leading);
    assert_eq!(trailing.attached_to, stmt.span().start);
    assert!(!trailing.is_leading);

    let block = synth.block(vec![], None);
    let dangling = synth.dangling_comment(&block, "unreachable");
    assert_eq!(dangling.attached_to, block.span.start);
}

#[test]
fn method_call_table_builds_table_argument() {
    let mut synth = Synth::new();
    let receiver = synth.name_expr("obj");
    let one = synth.number("1");
    let Expression::FunctionCall(call) = synth.method_call_table(receiver, "set", vec![SynthField::Positional(one)]) else {
        panic!("expected call");
    };
    assert_eq!(call.method.as_ref().unwrap().text, "set");
    let FunctionArgs::TableConstructor(table) = &call.args else {
        panic!("expected table argument");
    };
    assert_eq!(table.fields.len(), 1);
}

#[test]
fn builds_type_declaration_with_generics() {
    let mut synth = Synth::new();
    let generics = synth.generic_type_list(vec![("T", false), ("Rest", true)]);
    let t = synth.ty_named("T");
    let stmt = synth.type_declaration(true, "Alias", Some(generics), t);

    let Statement::TypeDeclaration(decl) = &stmt else {
        panic!("expected type declaration");
    };
    assert!(decl.is_exported);
    assert!(matches!(decl.type_value, TypeDeclarationValue::Alias(_)));
    let generics = decl.generics.as_ref().expect("generics present");
    assert_eq!(generics.params.len(), 2);
    assert!(generics.params.last_item().unwrap().is_pack);
}

#[test]
fn builds_type_function() {
    let mut synth = Synth::new();
    let ty = synth.param("ty");
    let sig = FnSig { params: vec![ty], ..FnSig::default() };
    let block = synth.block(vec![], None);
    let stmt = synth.type_function(false, "Partial", sig, block);
    let Statement::TypeDeclaration(decl) = &stmt else {
        panic!("expected type declaration");
    };
    assert!(!decl.is_exported);
    assert!(matches!(decl.type_value, TypeDeclarationValue::TypeFunction(_)));
}

#[test]
fn builds_function_types() {
    let mut synth = Synth::new();
    let generics = synth.generic_type_list(vec![("T", true)]);
    let number = synth.ty_named("number");
    let pack = synth.ty_pack(vec![]);
    let named_param = synth.ty_function_full(Some(generics), vec![(Some("x"), number)], pack);
    let Type::Function(function) = &named_param else {
        panic!("expected function type");
    };
    assert!(function.generics.is_some());
    assert_eq!(function.params.first().unwrap().name.as_ref().unwrap().text, "x");
    assert!(matches!(function.return_type, Type::Pack(_)));

    let a = synth.ty_named("A");
    let b = synth.ty_named("B");
    let r = synth.ty_named("R");
    let Type::Function(function) = synth.ty_function(vec![a, b], r) else {
        panic!("expected function type");
    };
    assert_eq!(function.params.len(), 2);
    assert!(function.params.first().unwrap().name.is_none());
}

#[test]
fn builds_compound_assignment() {
    let mut synth = Synth::new();
    let counter = synth.name_var("counter");
    let one = synth.number("1");
    let stmt = synth.compound_assign(counter, CompoundOp::AddAssign, one);

    let Statement::CompoundAssignment(compound) = &stmt else {
        panic!("expected compound assignment");
    };
    assert!(matches!(compound.var, Var::Name(_)));
    assert_eq!(compound.op, CompoundOp::AddAssign);
}

#[test]
fn array_builds_positional_fields() {
    let mut synth = Synth::new();
    let one = synth.number("1");
    let two = synth.number("2");
    let Expression::TableConstructor(array) = synth.array(vec![one, two]) else {
        panic!("expected table");
    };
    assert!(array.fields.iter().all(|field| matches!(field, luck::ast::Field::Positional { .. })));
    assert_eq!(array.fields.len(), 2);
    assert_eq!(array.span.start, 2);
}

#[test]
fn builds_interpolated_string_with_escapes() {
    let mut synth = Synth::new();
    let inner = synth.name_expr("value");
    // `a{value}b` -> InterpBegin("a") + expr, then InterpEnd("b") terminator.
    let string = synth.interpolated_string(vec![("a", Some(inner)), ("b{`", None)]);

    let Expression::InterpolatedString(interp) = &string else {
        panic!("expected interpolated string");
    };
    assert_eq!(interp.segments.len(), 2);
    assert!(matches!(interp.segments[0].literal.kind, TokenKind::InterpBegin));
    assert!(interp.segments[0].expr.is_some());
    let Token { kind: TokenKind::InterpEnd, text, .. } = &interp.segments[1].literal else {
        panic!("expected InterpEnd");
    };
    // `{` and backtick carry their escapes, as the lexer stores them.
    assert_eq!(text.as_str(), "b\\{\\`");
    assert!(interp.segments[1].expr.is_none());
}

#[test]
fn interpolated_string_middle_segments_are_marked() {
    let mut synth = Synth::new();
    let a = synth.name_expr("a");
    let b = synth.name_expr("b");
    let string = synth.interpolated_string(vec![("x=", Some(a)), (", y=", Some(b)), ("", None)]);
    let Expression::InterpolatedString(interp) = &string else {
        panic!("expected interpolated string");
    };
    let kinds: Vec<TokenKind> = interp.segments.iter().map(|s| s.literal.kind).collect();
    assert_eq!(kinds, vec![TokenKind::InterpBegin, TokenKind::InterpMid, TokenKind::InterpEnd]);
}

#[test]
fn builds_remaining_type_forms() {
    let mut synth = Synth::new();
    let x = synth.name_expr("x");
    assert!(matches!(synth.ty_typeof(x), Type::Typeof(_)));
    let t = synth.ty_named("T");
    assert!(matches!(synth.ty_paren(t), Type::Parenthesized(_)));
    assert!(matches!(synth.ty_generic_pack("T"), Type::GenericPack(_)));
    assert!(matches!(synth.ty_singleton_bool(true), Type::Singleton(Token { kind: TokenKind::True, .. })));
    assert!(matches!(synth.ty_singleton_nil(), Type::Singleton(Token { kind: TokenKind::Nil, .. })));

    let generics = synth.generic_type_list(vec![("T", true)]);
    let number = synth.ty_named("number");
    let pack = synth.ty_pack(vec![]);
    let named_param = synth.ty_function_full(Some(generics), vec![(Some("x"), number)], pack);
    let Type::Function(function) = &named_param else {
        panic!("expected function type");
    };
    assert!(function.generics.is_some());
    assert!(function.params.first().unwrap().name.is_some());
    assert!(matches!(function.return_type, Type::Pack(_)));
}

#[test]
fn builds_full_table_type() {
    let mut synth = Synth::new();
    let number = synth.ty_named("number");
    let string = synth.ty_named("string");
    let boolean = synth.ty_named("boolean");
    let ty = synth.ty_table(vec![
        SynthTypeField::Named { access: Some(TypeFieldAccess::Read), name: "id", value: number },
        SynthTypeField::Indexer { access: None, key: string, value: boolean },
    ]);
    let Type::Table(table) = &ty else {
        panic!("expected table type");
    };
    assert!(matches!(&table.fields.items[0], luck::ast::TypeField::Named { access: Some(_), .. }));
    assert!(matches!(&table.fields.items[1], luck::ast::TypeField::Indexer { .. }));
}

#[test]
fn table_type_spans_and_access_keyword() {
    let mut synth = Synth::starting_at(20);
    let number = synth.ty_named("number"); // 20, 21
    let ty = synth.ty_table(vec![SynthTypeField::Named { access: Some(TypeFieldAccess::Write), name: "id", value: number }]);
    let Type::Table(table) = &ty else {
        panic!("expected table type");
    };
    assert_eq!(table.span.start, 22);
    let luck::ast::TypeField::Named { span, access, name, .. } = &table.fields.items[0] else {
        panic!("expected named field");
    };
    assert_eq!(span.start, 23);
    assert_eq!(access.as_ref().unwrap().text, "write");
    assert_eq!(access.as_ref().unwrap().span.start, 24);
    assert_eq!(name.text, "id");
    assert_eq!(name.span.start, 25);
    let element = synth.ty_named("T");
    let Type::Table(array) = synth.ty_table_array(element) else {
        panic!("expected table type");
    };
    assert!(matches!(&array.fields.items[0], luck::ast::TypeField::Array { .. }));
}

#[test]
fn builds_record_type() {
    let mut synth = Synth::new();
    let number = synth.ty_named("number");
    let string = synth.ty_named("string");
    let Type::Table(table) = synth.ty_record(vec![("id", number), ("name", string)]) else {
        panic!("expected table type");
    };
    assert_eq!(table.fields.len(), 2);
    let luck::ast::TypeField::Named { access, name, .. } = &table.fields.items[1] else {
        panic!("expected named field");
    };
    assert!(access.is_none());
    assert_eq!(name.text, "name");
}
