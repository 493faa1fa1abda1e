use debugger_core::console::{GroupMarker, OutputNotification};
use debugger_core::debug_core::{DebugCore, DebugEvent};
use debugger_core::evaluate::EvalDisposition;
use debugger_core::protocol::AdapterRequest;
use debugger_core::variables::{Scope, TreeError, Variable, VariableTreeEntry};

fn plain(text: &str) -> DebugEvent {
    DebugEvent::Output(OutputNotification { text: text.to_string(), marker: None, category: None })
}

fn marked(text: &str, marker: GroupMarker) -> DebugEvent {
    DebugEvent::Output(OutputNotification {
        text: text.to_string(),
        marker: Some(marker),
        category: None,
    })
}

fn scope(name: &str, container_ref: u64) -> Scope {
    Scope { name: name.to_string(), container_ref, expensive: false }
}

fn var(name: &str, value: &str, container_ref: u64) -> Variable {
    Variable { name: name.to_string(), value: value.to_string(), container_ref }
}

#[test]
fn test_events_route_to_console_and_tree() {
    let mut core = DebugCore::new();
    assert!(core.handle_event(plain("First line")).is_none());
    assert!(core.handle_event(marked("group", GroupMarker::Start)).is_none());
    assert!(core.handle_event(plain("inside")).is_none());
    let stack_req = core.handle_event(DebugEvent::Stopped { thread_id: 1 });
    assert!(matches!(stack_req, Some(AdapterRequest::StackTrace { thread_id: 1 })));
    // the transcript is untouched by the stop
    assert_eq!(core.transcript().len(), 3);
    assert_eq!(core.transcript()[2].text, "inside");
    assert_eq!(core.transcript()[2].depth, 1);

    // load a frame through the core
    let sel = core.select_frame(1, 1);
    let gen = match sel {
        Some(AdapterRequest::Scopes { generation, .. }) => generation,
        _ => panic!("expected a scopes request"),
    };
    let reqs = core.on_scopes_response(gen, 1, 1, Ok(vec![scope("Locals", 2)]));
    assert_eq!(reqs.len(), 1);
    assert_eq!(core.on_variables_response(gen, 2, Ok(vec![var("a", "1", 0)])), Ok(()));
    assert_eq!(core.entries(1, 1).len(), 2);

    // a resume invalidates just like a stop, but asks for nothing
    assert!(core.handle_event(DebugEvent::Continued { thread_id: 1 }).is_none());
    assert!(core.entries(1, 1).is_empty());
    assert!(core.select_frame(1, 1).is_some());
    // and the superseded generation is now ignored
    assert_eq!(
        core.on_variables_response(gen, 2, Ok(vec![var("late", "x", 0)])),
        Err(TreeError::StaleContainerReference)
    );
}

#[test]
fn test_termination_stops_all_mutation() {
    let mut core = DebugCore::new();
    core.handle_event(plain("before the end"));
    core.handle_event(DebugEvent::Stopped { thread_id: 1 });
    let gen = match core.select_frame(1, 1) {
        Some(AdapterRequest::Scopes { generation, .. }) => generation,
        _ => panic!("expected a scopes request"),
    };
    assert!(core.handle_event(DebugEvent::Terminated).is_none());
    // every later event, response and command is dropped whole
    assert!(core.handle_event(plain("after the end")).is_none());
    assert_eq!(core.transcript().len(), 1);
    assert!(core.handle_event(DebugEvent::Stopped { thread_id: 2 }).is_none());
    assert!(core.on_scopes_response(gen, 1, 1, Ok(vec![scope("Locals", 2)])).is_empty());
    assert_eq!(
        core.on_variables_response(gen, 2, Ok(vec![var("a", "1", 0)])),
        Err(TreeError::StaleContainerReference)
    );
    assert!(core.select_frame(1, 1).is_none());
    assert!(core.evaluate("$a = 1".to_string(), 1, 1).is_none());
    assert_eq!(
        core.on_evaluate_response(Ok("1".to_string())),
        EvalDisposition::NoPending
    );
    assert_eq!(core.transcript().len(), 1);
    assert!(core.entries(1, 1).is_empty());
}

#[test]
fn test_evaluation_through_the_core() {
    let mut core = DebugCore::new();
    core.handle_event(DebugEvent::Stopped { thread_id: 1 });
    let gen = match core.select_frame(1, 1) {
        Some(AdapterRequest::Scopes { generation, .. }) => generation,
        _ => panic!("expected a scopes request"),
    };
    core.on_scopes_response(gen, 1, 1, Ok(vec![scope("Locals", 2)]));
    core.on_variables_response(gen, 2, Ok(vec![var("counter", "41", 0)])).unwrap();
    let req = core.evaluate("$counter = 42".to_string(), 1, 1);
    assert!(matches!(req, Some(AdapterRequest::Evaluate { .. })));
    assert_eq!(core.on_evaluate_response(Ok("42".to_string())), EvalDisposition::Routed);
    assert_eq!(core.transcript().len(), 1);
    assert_eq!(core.transcript()[0].text, "42");
    match &core.entries(1, 1)[1] {
        VariableTreeEntry::Variable { variable, .. } => {
            assert_eq!(variable.name, "counter");
            assert_eq!(variable.value, "42");
        }
        _ => panic!("expected a variable row"),
    }
}
