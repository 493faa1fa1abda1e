use debugger_core::console::Console;
use debugger_core::evaluate::{
    parse_assignment_target, EvalDisposition, EvaluationCoordinator,
};
use debugger_core::protocol::{AdapterRequest, EvaluateContext};
use debugger_core::variables::{Scope, Variable, VariableTreeEntry, VariableTreeManager};

fn scope(name: &str, container_ref: u64) -> Scope {
    Scope { name: name.to_string(), container_ref, expensive: false }
}

fn var(name: &str, value: &str, container_ref: u64) -> Variable {
    Variable { name: name.to_string(), value: value.to_string(), container_ref }
}

fn loaded_manager() -> VariableTreeManager {
    let mut m = VariableTreeManager::new();
    m.on_stopped(1);
    let gen = m.generation();
    m.on_scopes_response(gen, 1, 1, Ok(vec![scope("Scope 1", 2), scope("Scope 2", 3)]));
    m.on_variables_response(
        gen,
        2,
        Ok(vec![
            var("variable1", "{nested1: \"Nested 1\", nested2: \"Nested 2\"}", 4),
            var("variable2", "Value 2", 0),
        ]),
    )
    .unwrap();
    m.on_variables_response(gen, 3, Ok(vec![var("variable3", "Value 3", 0)])).unwrap();
    m
}

fn value_of(m: &VariableTreeManager, name: &str) -> String {
    for e in m.entries(1, 1) {
        if let VariableTreeEntry::Variable { variable, .. } = e {
            if variable.name == name {
                return variable.value;
            }
        }
    }
    panic!("no row named {name}");
}

#[test]
fn test_parse_assignment_target() {
    assert_eq!(parse_assignment_target("$variable1 = 5"), Some("variable1".to_string()));
    assert_eq!(parse_assignment_target("$x=3"), Some("x".to_string()));
    assert_eq!(parse_assignment_target("$a_1  =  b"), Some("a_1".to_string()));
    assert_eq!(parse_assignment_target("1 + 2"), None);
    assert_eq!(parse_assignment_target("$ = 5"), None);
    assert_eq!(parse_assignment_target("$x"), None);
    assert_eq!(parse_assignment_target("$x 5"), None);
    assert_eq!(parse_assignment_target(""), None);
    assert_eq!(parse_assignment_target("x = 5"), None);
}

#[test]
fn test_evaluate_builds_request_by_form() {
    let mut ev = EvaluationCoordinator::new();
    match ev.evaluate("$variable1 = 5".to_string(), 1, 1) {
        AdapterRequest::Evaluate { expression, frame_id, context } => {
            assert_eq!(expression, "$variable1 = 5");
            assert_eq!(frame_id, 1);
            assert_eq!(context, EvaluateContext::Variables);
        }
        _ => panic!("expected an evaluate request"),
    }
    match ev.evaluate("variable1 + 1".to_string(), 1, 1) {
        AdapterRequest::Evaluate { context, .. } => {
            assert_eq!(context, EvaluateContext::Repl);
        }
        _ => panic!("expected an evaluate request"),
    }
}

#[test]
fn test_assignment_patches_cached_row_without_refetch() {
    let mut m = loaded_manager();
    let mut c = Console::new();
    let mut ev = EvaluationCoordinator::new();
    let req = ev.evaluate("$variable1 = 5".to_string(), 1, 1);
    assert!(matches!(req, AdapterRequest::Evaluate { .. }));
    let lines_before = c.transcript().len();
    let disposition = ev.on_evaluate_response(&mut c, &mut m, Ok("5".to_string()));
    assert_eq!(disposition, EvalDisposition::Routed);
    // the cached entry now holds the new value, with no variables re-fetch
    assert_eq!(value_of(&m, "variable1"), "5");
    assert_eq!(value_of(&m, "variable2"), "Value 2");
    // exactly one transcript line was appended, containing the result
    assert_eq!(c.transcript().len(), lines_before + 1);
    assert_eq!(c.transcript()[lines_before].text, "5");
    assert_eq!(c.transcript()[lines_before].depth, 0);
}

#[test]
fn test_evaluate_expression() {
    let mut m = loaded_manager();
    let mut c = Console::new();
    let mut ev = EvaluationCoordinator::new();
    ev.evaluate("$variable1 = {}".to_string(), 1, 1);
    let disposition = ev.on_evaluate_response(&mut c, &mut m, Ok("{}\n".to_string()));
    assert_eq!(disposition, EvalDisposition::Routed);
    assert_eq!(value_of(&m, "variable1"), "{}\n");
    assert_eq!(value_of(&m, "variable2"), "Value 2");
    assert_eq!(value_of(&m, "variable3"), "Value 3");
    assert_eq!(c.transcript().len(), 1);
    assert_eq!(c.transcript()[0].text, "{}\n");
}

#[test]
fn test_plain_result_goes_to_transcript() {
    let mut m = loaded_manager();
    let mut c = Console::new();
    let mut ev = EvaluationCoordinator::new();
    ev.evaluate("variable2".to_string(), 1, 1);
    let disposition = ev.on_evaluate_response(&mut c, &mut m, Ok("Value 2".to_string()));
    assert_eq!(disposition, EvalDisposition::Routed);
    assert_eq!(c.transcript().len(), 1);
    assert_eq!(c.transcript()[0].text, "Value 2");
    assert_eq!(c.transcript()[0].depth, 0);
    assert_eq!(value_of(&m, "variable2"), "Value 2");
}

#[test]
fn test_failed_evaluation_appends_error_line() {
    let mut m = loaded_manager();
    let mut c = Console::new();
    let mut ev = EvaluationCoordinator::new();
    ev.evaluate("$variable1 = oops".to_string(), 1, 1);
    let disposition =
        ev.on_evaluate_response(&mut c, &mut m, Err("cannot evaluate".to_string()));
    assert_eq!(disposition, EvalDisposition::Routed);
    // the error is one transcript line; the cached value is untouched
    assert_eq!(c.transcript().len(), 1);
    assert_eq!(c.transcript()[0].text, "cannot evaluate");
    assert_eq!(value_of(&m, "variable1"), "{nested1: \"Nested 1\", nested2: \"Nested 2\"}");
}

#[test]
fn test_unresolved_assignment_target_is_reported() {
    let mut m = loaded_manager();
    let mut c = Console::new();
    let mut ev = EvaluationCoordinator::new();
    ev.evaluate("$nosuch = 1".to_string(), 1, 1);
    let disposition = ev.on_evaluate_response(&mut c, &mut m, Ok("1".to_string()));
    assert_eq!(disposition, EvalDisposition::TargetNotFound);
    // the result line still appears; nothing was patched
    assert_eq!(c.transcript().len(), 1);
    assert_eq!(value_of(&m, "variable1"), "{nested1: \"Nested 1\", nested2: \"Nested 2\"}");
}

#[test]
fn test_response_without_pending_evaluation_is_dropped() {
    let mut m = loaded_manager();
    let mut c = Console::new();
    let mut ev = EvaluationCoordinator::new();
    let disposition = ev.on_evaluate_response(&mut c, &mut m, Ok("5".to_string()));
    assert_eq!(disposition, EvalDisposition::NoPending);
    assert_eq!(c.transcript().len(), 0);
    assert_eq!(value_of(&m, "variable1"), "{nested1: \"Nested 1\", nested2: \"Nested 2\"}");
}

#[test]
fn test_first_matching_scope_wins() {
    // the same name cached under both scopes: the topmost scope's row is
    // patched, the other stands
    let mut m = VariableTreeManager::new();
    m.on_stopped(1);
    let gen = m.generation();
    m.on_scopes_response(gen, 1, 1, Ok(vec![scope("Locals", 2), scope("Globals", 3)]));
    m.on_variables_response(gen, 2, Ok(vec![var("shadowed", "local", 0)])).unwrap();
    m.on_variables_response(gen, 3, Ok(vec![var("shadowed", "global", 0)])).unwrap();
    let mut c = Console::new();
    let mut ev = EvaluationCoordinator::new();
    ev.evaluate("$shadowed = changed".to_string(), 1, 1);
    assert_eq!(
        ev.on_evaluate_response(&mut c, &mut m, Ok("changed".to_string())),
        EvalDisposition::Routed
    );
    let values: Vec<String> = m
        .entries(1, 1)
        .into_iter()
        .filter_map(|e| match e {
            VariableTreeEntry::Variable { variable, .. } => Some(variable.value),
            _ => None,
        })
        .collect();
    assert_eq!(values, vec!["changed".to_string(), "global".to_string()]);
}
