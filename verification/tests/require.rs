use luck::cli::DynamicRequire;
use luck::require::{dynamic_require_action, repeated_requires, require_callee_span, require_literal, DynamicRequireNotice};
use luck::ast::Expression;
use luck::synth::Synth;

fn call_of(expr: Expression) -> luck::ast::FunctionCall {
    match expr {
        Expression::FunctionCall(call) => *call,
        _ => panic!("expected call"),
    }
}

#[test]
fn direct_require_calls_are_recognized() {
    let mut synth = Synth::new();
    let callee = synth.name_expr("require");
    let arg = synth.string("mod.a");
    let call = call_of(synth.call(callee, vec![arg]));
    assert_eq!(require_callee_span(&call).map(|s| s.start), Some(0));
    assert_eq!(require_literal(&call).map(|l| l.text.as_str()), Some("\"mod.a\""));

    let callee = synth.name_expr("require");
    let sugar = call_of(synth.call_string(callee, "b"));
    assert!(require_callee_span(&sugar).is_some());
    assert_eq!(require_literal(&sugar).map(|l| l.text.as_str()), Some("\"b\""));
}

#[test]
fn other_calls_are_not_requires() {
    let mut synth = Synth::new();
    // A method call named require, and a call of another name.
    let receiver = synth.name_expr("obj");
    let arg = synth.string("x");
    let method = call_of(synth.method_call(receiver, "require", vec![arg]));
    assert!(require_callee_span(&method).is_none());
    let callee = synth.name_expr("requires");
    let arg = synth.string("x");
    let other = call_of(synth.call(callee, vec![arg]));
    assert!(require_callee_span(&other).is_none());
    // A computed argument, or two arguments, is no literal require.
    let callee = synth.name_expr("require");
    let name = synth.name_expr("name");
    let dynamic = call_of(synth.call(callee, vec![name]));
    assert!(require_callee_span(&dynamic).is_some());
    assert!(require_literal(&dynamic).is_none());
    let callee = synth.name_expr("require");
    let a = synth.string("a");
    let b = synth.string("b");
    let two = call_of(synth.call(callee, vec![a, b]));
    assert!(require_literal(&two).is_none());
}

#[test]
fn repeated_require_strings_are_marked() {
    let names = vec!["a".to_string(), "b".to_string(), "a".to_string(), "b".to_string(), "c".to_string()];
    assert_eq!(repeated_requires(&names), vec![false, false, true, true, false]);
    assert!(repeated_requires(&Vec::new()).is_empty());
}

#[test]
fn dynamic_require_actions_follow_mode_and_dialect() {
    assert_eq!(dynamic_require_action(DynamicRequire::Error, false), (Some(DynamicRequireNotice::Refused), false));
    assert_eq!(dynamic_require_action(DynamicRequire::Error, true), (Some(DynamicRequireNotice::Refused), false));
    assert_eq!(
        dynamic_require_action(DynamicRequire::Warn, true),
        (Some(DynamicRequireNotice::ResolvedAtRuntime), false)
    );
    assert_eq!(
        dynamic_require_action(DynamicRequire::Warn, false),
        (Some(DynamicRequireNotice::LoaderFallback), true)
    );
    assert_eq!(dynamic_require_action(DynamicRequire::Allow, false), (None, true));
    assert_eq!(dynamic_require_action(DynamicRequire::Allow, true), (None, false));
}
