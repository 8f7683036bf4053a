use std::collections::HashMap;

use rocket_dyn_templates::tera::{Context, Error as TeraError, Tera, Value as TeraValue};
use web_backend::{add_builtin, Builtin, ExtensionKind, Member, TemplateError, Value};

fn value_from(value: &TeraValue) -> Value {
    match value {
        TeraValue::Null => Value::Null,
        TeraValue::Bool(flag) => Value::Bool(*flag),
        TeraValue::Number(number) => Value::Number(number.to_string()),
        TeraValue::String(text) => Value::Text(text.clone()),
        TeraValue::Array(items) => Value::Array(items.iter().map(value_from).collect()),
        TeraValue::Object(members) => Value::Object(
            members
                .iter()
                .map(|(key, value)| Member { key: key.clone(), value: value_from(value) })
                .collect(),
        ),
    }
}

fn members_from(args: &HashMap<String, TeraValue>) -> Vec<Member> {
    args.iter().map(|(key, value)| Member { key: key.clone(), value: value_from(value) }).collect()
}

fn outcome(result: Result<Value, TemplateError>) -> Result<TeraValue, TeraError> {
    match result {
        Ok(Value::Text(text)) => Ok(TeraValue::String(text)),
        Ok(other) => panic!("a helper returned {other:?}"),
        Err(error) => Err(TeraError::msg(error.message())),
    }
}

/// An engine without autoescaping that knows the built-in helpers and the given template.
fn engine(template: &str) -> Tera {
    let mut tera = Tera::default();
    let mut builtins = Vec::new();
    add_builtin(&mut builtins);
    for builtin in builtins {
        match builtin.kind() {
            ExtensionKind::Function => tera.register_function(
                builtin.name(),
                move |args: &HashMap<String, TeraValue>| -> Result<TeraValue, TeraError> {
                    outcome(builtin.call(&Value::Null, &members_from(args)))
                },
            ),
            ExtensionKind::Filter => tera.register_filter(
                builtin.name(),
                move |value: &TeraValue,
                      args: &HashMap<String, TeraValue>|
                      -> Result<TeraValue, TeraError> {
                    outcome(builtin.call(&value_from(value), &members_from(args)))
                },
            ),
        }
    }
    tera.autoescape_on(vec![]);
    tera.add_raw_template("page", template).unwrap();
    tera
}

fn object(pairs: &[(&str, &str)]) -> TeraValue {
    let mut map = rocket_dyn_templates::tera::Map::new();
    for (key, value) in pairs {
        map.insert(key.to_string(), TeraValue::String(value.to_string()));
    }
    TeraValue::Object(map)
}

#[test]
fn the_engine_calls_js_global_as_a_function() {
    let tera = engine("{{ js_global(id=\"x\", a=text) }}");
    let mut context = Context::new();
    context.insert("text", "hello \"world\"\n");
    assert_eq!(
        tera.render("page", &context).unwrap(),
        "<script>window[\"x\"]={\"a\":\"hello \\\"world\\\"\\n\"}</script>"
    );
}

#[test]
fn the_engine_applies_js_global_as_a_filter() {
    let tera = engine("{{ one | js_global }}{{ many | js_global }}");
    let mut context = Context::new();
    context.insert("one", &object(&[("id", "x"), ("a", "1")]));
    context.insert(
        "many",
        &TeraValue::Array(vec![
            object(&[("id", "a"), ("k", "1")]),
            object(&[("id", "b"), ("k", "2")]),
        ]),
    );
    assert_eq!(
        tera.render("page", &context).unwrap(),
        "<script>window[\"x\"]={\"a\":\"1\"}</script>\
         <script>window[\"a\"]={\"k\":\"1\"};window[\"b\"]={\"k\":\"2\"};</script>"
    );
}

#[test]
fn the_engine_applies_the_text_filters() {
    let tera = engine("{{ code | wrap_script }}|{{ lines | newline_to_br }}");
    let mut context = Context::new();
    context.insert("code", "alert(1)");
    context.insert("lines", "a\nb\nc");
    assert_eq!(
        tera.render("page", &context).unwrap(),
        "<script>alert(1)</script>|a<br/>b<br/>c"
    );
}

#[test]
fn a_failure_of_a_helper_fails_the_render() {
    let mut context = Context::new();
    context.insert("number", &5);
    let wrapped = engine("{{ number | wrap_script }}").render("page", &context);
    assert!(format!("{:?}", wrapped.unwrap_err()).contains("Inner value should be string"));
    let broken = engine("{{ number | newline_to_br }}").render("page", &context);
    assert!(format!("{:?}", broken.unwrap_err()).contains("Inner value should be string"));
    let no_id = engine("{{ js_global(a=\"1\") }}").render("page", &context);
    assert!(format!("{:?}", no_id.unwrap_err()).contains("js_global: missing id argument"));
    let filtered = engine("{{ number | js_global }}").render("page", &context);
    assert!(format!("{:?}", filtered.unwrap_err())
        .contains("filter - js_global: value must be object or array of objects"));
}

#[test]
fn every_builtin_is_a_function_or_a_filter_of_the_engine() {
    assert_eq!(Builtin::JsGlobalFunction.kind(), ExtensionKind::Function);
    let tera = engine("{{ js_global(id=\"only\") }}{{ \"x\" | wrap_script | newline_to_br }}");
    assert_eq!(
        tera.render("page", &Context::new()).unwrap(),
        "<script>window[\"only\"]={}</script><script>x</script>"
    );
}
