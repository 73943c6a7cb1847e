use luck::ident::{is_base_keyword, is_safe_field_name, is_valid_identifier};
use luck::literal::{interp_text, long_bracket_level, long_string_text, quote_bytes, quote_utf8};
use luck::ast::{Expression, LastStatement, Statement};
use luck::node::{AstTypesBitset, NodeKind, NodeType};
use luck::punctuated::Punctuated;
use luck::synth::{Span, Synth};

#[test]
fn bitset_set_and_intersect() {
    let binops = AstTypesBitset::from_types(&[NodeType::BinaryOp]);
    assert!(binops.has(NodeType::BinaryOp));
    assert!(!binops.has(NodeType::UnaryOp));

    let mut present = AstTypesBitset::new();
    present.set(NodeType::ErrorExpr);
    assert!(!present.intersects(&binops));
    present.set(NodeType::BinaryOp);
    assert!(present.intersects(&binops));
}

#[test]
fn bitset_index_queries_match_type_queries() {
    let set = AstTypesBitset::from_types(&[NodeType::Assignment, NodeType::ErrorExpr]);
    assert!(set.has_index(NodeType::Assignment.index()));
    assert!(set.has_index(NodeType::ErrorExpr.index()));
    assert!(!set.has_index(NodeType::BinaryOp.index()));
    let empty = AstTypesBitset::new();
    assert!(!empty.intersects(&set));
    assert!(!set.intersects(&empty));
    assert!(set.intersects(&set));
}

#[test]
fn identifier_validity() {
    assert!(is_valid_identifier("x"));
    assert!(is_valid_identifier("_private"));
    assert!(is_valid_identifier("snake_case2"));
    // Context-sensitive words are identifiers.
    assert!(is_valid_identifier("type"));
    assert!(is_valid_identifier("continue"));
    assert!(is_valid_identifier("goto"));
    assert!(!is_valid_identifier(""));
    assert!(!is_valid_identifier("1st"));
    assert!(!is_valid_identifier("has space"));
    assert!(!is_valid_identifier("end"));
    assert!(!is_valid_identifier("Ünicode"));
}

#[test]
fn base_keywords_and_field_names() {
    assert!(is_base_keyword("local"));
    assert!(is_base_keyword("nil"));
    assert!(!is_base_keyword("continue"));
    assert!(!is_base_keyword("Local"));
    // goto and global are reserved in some dialects, so they never name a
    // field without brackets.
    assert!(!is_safe_field_name("goto"));
    assert!(!is_safe_field_name("global"));
    assert!(is_safe_field_name("value"));
    assert!(!is_safe_field_name("and"));
}

#[test]
fn punctuated_containers() {
    let mut p: Punctuated<u32> = Punctuated::empty();
    assert!(p.is_empty());
    assert_eq!(p.first(), None);
    p.push(1);
    p.push(2);
    assert_eq!(p.len(), 2);
    assert_eq!(p.first(), Some(&1));
    assert_eq!(p.last_item(), Some(&2));
    assert_eq!(p.get(1), Some(&2));
    assert_eq!(p.get(2), None);
    let collected: Vec<u32> = p.iter().copied().collect();
    assert_eq!(collected, vec![1, 2]);
    for item in p.iter_mut() {
        *item *= 10;
    }
    assert_eq!(p.into_items(), vec![10, 20]);
    let single = Punctuated::from_item("a");
    assert_eq!(single.len(), 1);
    let many = Punctuated::from_items(vec![3, 4, 5]);
    assert_eq!(many.last_item(), Some(&5));
}

#[test]
fn synth_spans_are_monotonic_from_the_start_offset() {
    let mut synth = Synth::starting_at(100);
    let a = synth.next_span();
    let b = synth.next_span();
    assert_eq!(a, Span::new(100, 100));
    assert!(b.start > a.start);
    let fresh = Synth::new();
    assert_eq!(fresh.next_offset, 0);
    let list = fresh.punctuated(vec![1, 2, 3]);
    assert_eq!(list.len(), 3);
}

#[test]
fn quoted_literals_escape_what_they_must() {
    assert_eq!(quote_bytes(&[0x41, 0x00, 0xff]), "\"A\\000\\255\"");
    assert_eq!(quote_utf8("é\n\"x\""), "\"é\\n\\\"x\\\"\"");
    assert_eq!(interp_text("a{b}`c"), "a\\{b}\\`c");
}

#[test]
fn long_string_picks_a_collision_free_level() {
    let plain: Vec<char> = "abc".chars().collect();
    assert_eq!(long_bracket_level(&plain), 0);
    let closes: Vec<char> = "a]]b".chars().collect();
    assert_eq!(long_bracket_level(&closes), 1);
    let both: Vec<char> = "a]]b]=]c".chars().collect();
    assert_eq!(long_bracket_level(&both), 2);
    assert_eq!(long_string_text("x]]y"), "[=[x]]y]=]");
}

#[test]
fn node_kind_classifies_nodes() {
    let mut synth = Synth::new();
    let call_target = synth.name_expr("f");
    let call = synth.call(call_target, vec![]);
    assert_eq!(NodeType::of_expr(&call), NodeType::FunctionCallExpr);
    let stmt = synth.call_stmt(call);
    assert_eq!(NodeKind::Statement(&stmt).node_type(), NodeType::FunctionCallStmt);
    assert!(matches!(stmt, Statement::FunctionCall(_)));
    let nil = synth.nil();
    assert_eq!(NodeKind::Expression(&nil).node_type(), NodeType::Nil);
    let last = LastStatement::Continue(nil.span());
    assert_eq!(NodeKind::LastStatement(&last).node_type(), NodeType::LastContinue);
    assert_eq!(NodeType::of_expr(&Expression::Error(nil.span())), NodeType::ErrorExpr);
}
