use chromist::evaluate::{
    is_likely_js_function, EvaluateResponse, EvaluationResult, JsValue, RemoteObject, RemoteObjectType,
};

#[test]
fn recognises_named_function() {
    assert!(is_likely_js_function("function foo() { return 1; }"));
}

#[test]
fn recognises_async_function() {
    assert!(is_likely_js_function("async function f(){}"));
}

#[test]
fn recognises_async_arrow() {
    assert!(is_likely_js_function("async () => 1"));
}

#[test]
fn recognises_arrow_with_parens() {
    assert!(is_likely_js_function("(a, b) => a + b"));
}

#[test]
fn recognises_block_comment_then_arrow() {
    assert!(is_likely_js_function("/* doc */ (x) => x"));
}

#[test]
fn rejects_bare_expression() {
    assert!(!is_likely_js_function("document.title"));
    assert!(!is_likely_js_function("1 + 2"));
    assert!(!is_likely_js_function("window.location.href"));
}

#[test]
fn rejects_arrow_without_leading_paren() {
    assert!(!is_likely_js_function("x => x + 1"));
}

#[test]
fn handles_leading_whitespace() {
    assert!(is_likely_js_function("   function foo(){}"));
    assert!(is_likely_js_function("\n\tasync function x(){}"));
}

#[test]
fn empty_string_is_not_function() {
    assert!(!is_likely_js_function(""));
    assert!(!is_likely_js_function("   "));
}

fn result(t: RemoteObjectType, subtype: Option<&str>, value: Option<JsValue>) -> EvaluationResult {
    EvaluationResult::new(EvaluateResponse {
        result: RemoteObject {
            object_type: t,
            subtype: subtype.map(|s| s.to_string()),
            value,
            unserializable_value: None,
            object_id: None,
            description: None,
        },
        exception_details: None,
    })
}

#[test]
fn truthiness_follows_javascript() {
    assert!(!result(RemoteObjectType::Undefined, None, None).is_truthy());
    assert!(result(RemoteObjectType::Boolean, None, Some(JsValue::Bool(true))).is_truthy());
    assert!(!result(RemoteObjectType::Boolean, None, Some(JsValue::Bool(false))).is_truthy());
    assert!(!result(RemoteObjectType::Number, None, Some(JsValue::Number { nonzero: false })).is_truthy());
    assert!(result(RemoteObjectType::Number, None, Some(JsValue::Number { nonzero: true })).is_truthy());
    assert!(!result(RemoteObjectType::String, None, Some(JsValue::String(String::new()))).is_truthy());
    assert!(result(RemoteObjectType::String, None, Some(JsValue::String("x".into()))).is_truthy());
    assert!(!result(RemoteObjectType::Object, Some("null"), None).is_truthy());
    assert!(result(RemoteObjectType::Object, Some("array"), None).is_truthy());
    assert!(result(RemoteObjectType::Object, None, None).is_truthy());
    assert!(result(RemoteObjectType::Function, None, None).is_truthy());
    assert!(!result(RemoteObjectType::String, None, None).is_truthy());
}

#[test]
fn object_and_into_inner_expose_the_answer() {
    let r = result(RemoteObjectType::Symbol, None, None);
    assert_eq!(r.object().object_type, RemoteObjectType::Symbol);
    let inner = r.into_inner();
    assert!(inner.exception_details.is_none());
}

fn unserializable(t: RemoteObjectType, text: &str) -> EvaluationResult {
    EvaluationResult::new(EvaluateResponse {
        result: RemoteObject {
            object_type: t,
            subtype: None,
            value: None,
            unserializable_value: Some(text.to_string()),
            object_id: None,
            description: None,
        },
        exception_details: None,
    })
}

#[test]
fn numbers_json_cannot_carry_follow_javascript() {
    assert!(unserializable(RemoteObjectType::Number, "Infinity").is_truthy());
    assert!(unserializable(RemoteObjectType::Number, "-Infinity").is_truthy());
    assert!(!unserializable(RemoteObjectType::Number, "NaN").is_truthy());
    assert!(!unserializable(RemoteObjectType::Number, "-0").is_truthy());
    assert!(!unserializable(RemoteObjectType::Bigint, "0n").is_truthy());
    assert!(unserializable(RemoteObjectType::Bigint, "12n").is_truthy());
    assert!(result(RemoteObjectType::Bigint, None, None).is_truthy());
}
