use copilot_core::template::{extract_templates, find_closing, is_whole_template, split_path};
use copilot_core::context::{ContextError, ExecutionContext};
use copilot_core::json::Json;

fn s(text: &str) -> Json {
    Json::Str(text.to_string())
}

fn num(text: &str) -> Json {
    Json::Number(text.to_string())
}

fn obj(members: Vec<(&str, Json)>) -> Json {
    Json::Object(members.into_iter().map(|(k, v)| (k.to_string(), v)).collect())
}

fn arr(items: Vec<Json>) -> Json {
    Json::Array(items)
}

fn field<'a>(value: &'a Json, key: &str) -> Option<&'a Json> {
    match value {
        Json::Object(members) => members.iter().rev().find(|(k, _)| k == key).map(|(_, v)| v),
        _ => None,
    }
}

fn context() -> ExecutionContext {
    ExecutionContext::new(Some(uuid::Uuid::new_v4().as_u128()), "resume focus".to_string())
}

fn is_str(value: &Json, expected: &str) -> bool {
    matches!(value, Json::Str(text) if text == expected)
}

#[test]
fn stores_and_reads_step_outputs() {
    let mut ctx = context();
    ctx.set_step_output(
        0,
        Some("list_workspaces"),
        obj(vec![
            ("active", obj(vec![("id", s("w1"))])),
            ("workspaces", arr(vec![obj(vec![("id", s("w1")), ("path", s("/one"))])])),
        ]),
    );
    assert!(ctx.has_step("list_workspaces"));
    let output = ctx.step_output("list_workspaces").unwrap();
    let active = field(output, "active").unwrap();
    assert!(is_str(field(active, "id").unwrap(), "w1"));
    assert!(ctx.has_step("0"));
}

#[test]
fn variable_substitution_returns_scalar() {
    let ctx = context();
    let resolved = ctx.resolve_string("{{goal}}").ok().expect("goal resolves");
    assert!(is_str(&resolved, "resume focus"));

    let ws = ctx
        .resolve_string("{{workspace.id}}")
        .ok()
        .expect("workspace resolves");
    assert!(matches!(&ws, Json::Str(text) if !text.is_empty()));
}

#[test]
fn nested_json_lookup_resolves() {
    let mut ctx = context();
    ctx.set_step_output(
        0,
        Some("search"),
        obj(vec![("results", arr(vec![obj(vec![("path", s("/src/main.rs"))])]))]),
    );
    let resolved = ctx
        .resolve_string("{{steps.search.results[0].path}}")
        .ok()
        .expect("nested lookup resolves");
    assert!(is_str(&resolved, "/src/main.rs"));
}

#[test]
fn array_index_into_step_output() {
    let mut ctx = context();
    ctx.set_step_output(
        0,
        Some("list_workspaces"),
        obj(vec![("workspaces", arr(vec![obj(vec![("id", s("w1"))])]))]),
    );
    let resolved = ctx
        .resolve_string("{{steps.list_workspaces.workspaces[0].id}}")
        .ok()
        .expect("array index resolves");
    assert!(is_str(&resolved, "w1"));
}

#[test]
fn missing_variable_errors_are_structured() {
    let ctx = context();
    let error = ctx.resolve_string("{{steps.never_ran.output}}").err().unwrap();
    assert!(error.is_unresolved());
    assert!(matches!(error, ContextError::MissingStep(_)));

    let error = ctx.resolve_string("{{unknown.path}}").err().unwrap();
    assert!(error.is_unresolved());

    let error = ctx.resolve_string("{{steps.search.missing.deep}}").err().unwrap();
    assert!(error.is_unresolved());
}

#[test]
fn embedded_template_substitutes_text() {
    let ctx = context();
    let resolved = ctx
        .resolve_string("goal is {{goal}} today")
        .ok()
        .expect("embedded substitution");
    assert!(is_str(&resolved, "goal is resume focus today"));
}

#[test]
fn resolves_whole_argument_objects() {
    let mut ctx = context();
    ctx.set_step_output(
        0,
        Some("list_workspaces"),
        obj(vec![("workspaces", arr(vec![obj(vec![("id", s("w1"))])]))]),
    );
    let args = obj(vec![
        ("limit", num("5")),
        ("workspace_id", s("{{steps.list_workspaces.workspaces[0].id}}")),
    ]);
    let resolved = ctx.resolve(&args).ok().expect("args resolve");
    assert!(is_str(field(&resolved, "workspace_id").unwrap(), "w1"));
    assert!(matches!(field(&resolved, "limit").unwrap(), Json::Number(n) if n == "5"));
}

#[test]
fn error_messages_name_what_was_missing() {
    let mut ctx = context();
    ctx.set_step_output(3, Some("search"), obj(vec![("hits", arr(vec![]))]));
    let missing_step = ctx.resolve_template("steps.nope.x").err().unwrap();
    assert_eq!(missing_step.message(), "unresolved variable: step 'nope' has no stored output");
    let missing_field = ctx.resolve_template(" steps.search.hits[2] ").err().unwrap();
    assert_eq!(
        missing_field.message(),
        "unresolved variable: missing field '[2]' in 'steps.search.hits[2]'"
    );
    let unknown = ctx.resolve_template("nothing").err().unwrap();
    assert_eq!(unknown.message(), "unresolved variable: nothing");
    let empty = ctx.resolve_template("   ").err().unwrap();
    assert_eq!(empty.message(), "invalid template: empty template");
    assert!(!empty.is_unresolved());
    let dots = ctx.resolve_template("..").err().unwrap();
    assert!(matches!(dots, ContextError::Malformed(ref m) if m == ".."));
    let bare_steps = ctx.resolve_template("steps").err().unwrap();
    assert!(matches!(bare_steps, ContextError::Malformed(ref m) if m == "steps"));
    assert!(ctx.has_step("3"));
}

#[test]
fn non_string_values_embed_as_json_text() {
    let mut ctx = context();
    ctx.set_variable("count", num("3"));
    ctx.set_variable("flags", arr(vec![Json::Bool(true), Json::Null, s("a\"b")]));
    let text = ctx.resolve_string("n={{count}} f={{flags}}").ok().unwrap();
    assert!(is_str(&text, "n=3 f=[true,null,\"a\\\"b\"]"));
    let spaced = ctx.resolve_string("{{ count }}").ok().unwrap();
    assert!(matches!(spaced, Json::Number(ref n) if n == "3"));
    let plain = ctx.resolve_string("no templates here").ok().unwrap();
    assert!(is_str(&plain, "no templates here"));
}

#[test]
fn later_bindings_overwrite_earlier_ones() {
    let mut ctx = ExecutionContext::new(None, "g".to_string());
    ctx.set_variable("x", s("one"));
    ctx.set_variable("x", s("two"));
    assert!(is_str(&ctx.resolve_string("{{x}}").ok().unwrap(), "two"));
    assert!(ctx.resolve_string("{{workspace}}").is_err());
    ctx.save_step_output("k".to_string(), s("v1"));
    ctx.save_step_output("k".to_string(), s("v2"));
    let snapshot = ctx.snapshot();
    assert_eq!(snapshot.len(), 1);
    assert!(is_str(&snapshot[0].1, "v2"));
}

#[test]
fn template_helpers_find_and_split_references() {
    assert_eq!(extract_templates("a {{ x }} b {{y}} {{z"), vec!["x".to_string(), "y".to_string()]);
    assert!(is_whole_template("  {{ x }} "));
    assert!(!is_whole_template("a {{x}}"));
    assert_eq!(
        split_path("steps.search.results[0][1].path"),
        vec!["steps", "search", "results", "[0]", "[1]", "path"]
    );
    assert_eq!(split_path("a..b[x"), vec!["a", "b", "[x"]);
    let chars: Vec<char> = "ab}}c".chars().collect();
    assert_eq!(find_closing(&chars, 0), Some(("ab".to_string(), 4)));
    assert_eq!(find_closing(&chars, 3), None);
}

#[test]
fn spaced_references_inside_text_are_substituted() {
    let ctx = ExecutionContext::new(None, "resume focus".to_string());
    let resolved = ctx.resolve_string("goal is {{ goal }} today").ok().expect("spaced reference");
    assert!(is_str(&resolved, "goal is resume focus today"));
    let resolved = ctx.resolve_string("[{{  goal}}] and [{{goal   }}]").ok().unwrap();
    assert!(is_str(&resolved, "[resume focus] and [resume focus]"));
}

#[test]
fn any_single_reference_alone_is_whole() {
    assert!(is_whole_template("{{goal}}"));
    assert!(is_whole_template(" {{ goal }} "));
    assert!(is_whole_template("{{  goal}}"));
    assert!(!is_whole_template("goal is {{goal}}"));
    assert!(!is_whole_template("{{a}}{{b}}"));
    let ctx = ExecutionContext::new(None, "resume focus".to_string());
    let resolved = ctx.resolve_string("{{  goal}}").ok().unwrap();
    assert!(is_str(&resolved, "resume focus"));
}
