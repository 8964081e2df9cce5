use tinyscript::context::Context;
use tinyscript::ast::RuntimeValue;
use tinyscript::numbers::parse_i32;

#[test]
fn set_then_get_in_global_scope() {
    let mut context = Context::new();
    context.set_variable("x".to_string(), RuntimeValue::INTEGER(7));
    match context.get_variable(&"x".to_string()) {
        Some(RuntimeValue::INTEGER(7)) => {},
        other => panic!("expected INTEGER(7), got {:?}", other),
    }
}

#[test]
fn lookup_missing_name_is_none() {
    let context = Context::new();
    assert!(context.get_variable(&"missing".to_string()).is_none());
}

#[test]
fn overwriting_rebinds_in_place() {
    let mut context = Context::new();
    context.set_variable("x".to_string(), RuntimeValue::INTEGER(1));
    context.set_variable("x".to_string(), RuntimeValue::INTEGER(2));
    assert!(matches!(
        context.get_variable(&"x".to_string()),
        Some(RuntimeValue::INTEGER(2))
    ));
}

#[test]
fn inner_scope_shadows_and_pops() {
    let mut context = Context::new();
    context.set_variable("x".to_string(), RuntimeValue::INTEGER(1));
    context.push_scope();
    context.set_variable("x".to_string(), RuntimeValue::INTEGER(2));
    assert!(matches!(
        context.get_variable(&"x".to_string()),
        Some(RuntimeValue::INTEGER(2))
    ));
    context.pop_scope();
    assert!(matches!(
        context.get_variable(&"x".to_string()),
        Some(RuntimeValue::INTEGER(1))
    ));
}

#[test]
fn outer_bindings_stay_visible_from_inner_scopes() {
    let mut context = Context::new();
    context.set_variable("y".to_string(), RuntimeValue::BOOL(true));
    context.push_scope();
    assert!(matches!(
        context.get_variable(&"y".to_string()),
        Some(RuntimeValue::BOOL(true))
    ));
}

#[test]
fn scope_depth_tracks_push_and_pop() {
    let mut context = Context::new();
    assert_eq!(context.depth(), 1);
    context.push_scope();
    context.push_scope();
    assert_eq!(context.depth(), 3);
    context.pop_scope();
    assert_eq!(context.depth(), 2);
}

#[test]
fn parse_i32_accepts_plain_and_signed_literals() {
    assert_eq!(parse_i32("123"), Some(123));
    assert_eq!(parse_i32("+5"), Some(5));
    assert_eq!(parse_i32("-5"), Some(-5));
    assert_eq!(parse_i32("0"), Some(0));
    assert_eq!(parse_i32("007"), Some(7));
    assert_eq!(parse_i32("2147483647"), Some(i32::MAX));
    assert_eq!(parse_i32("-2147483648"), Some(i32::MIN));
}

#[test]
fn parse_i32_rejects_malformed_and_out_of_range_text() {
    assert_eq!(parse_i32(""), None);
    assert_eq!(parse_i32("-"), None);
    assert_eq!(parse_i32("+"), None);
    assert_eq!(parse_i32("12a"), None);
    assert_eq!(parse_i32(" 1"), None);
    assert_eq!(parse_i32("2147483648"), None);
    assert_eq!(parse_i32("-2147483649"), None);
    assert_eq!(parse_i32("99999999999999999999"), None);
}
