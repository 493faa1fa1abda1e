use debugger_core::console::{Console, ConsoleError, GroupMarker, OutputNotification};

fn plain(text: &str) -> OutputNotification {
    OutputNotification { text: text.to_string(), marker: None, category: None }
}

fn marked(text: &str, marker: GroupMarker) -> OutputNotification {
    OutputNotification { text: text.to_string(), marker: Some(marker), category: None }
}

fn line(console: &Console, i: usize) -> (String, usize, bool) {
    let l = &console.transcript()[i];
    (l.text.clone(), l.depth, l.hidden_marker)
}

#[test]
fn test_grouped_output() {
    let mut c = Console::new();
    assert_eq!(c.handle_output(plain("First line")), Ok(()));
    assert_eq!(c.handle_output(marked("First group", GroupMarker::Start)), Ok(()));
    assert_eq!(c.handle_output(plain("item1")), Ok(()));
    assert_eq!(c.handle_output(plain("item2")), Ok(()));
    assert_eq!(c.handle_output(marked("Second group", GroupMarker::Start)), Ok(()));
    assert_eq!(c.handle_output(plain("x")), Ok(()));
    assert_eq!(c.handle_output(marked("End group2", GroupMarker::End)), Ok(()));
    assert_eq!(c.handle_output(marked("Third group", GroupMarker::StartCollapsed)), Ok(()));
    assert_eq!(c.handle_output(plain("hidden1")), Ok(()));
    assert_eq!(c.handle_output(marked("End group3", GroupMarker::End)), Ok(()));
    assert_eq!(c.handle_output(plain("tail")), Ok(()));
    assert_eq!(c.handle_output(marked("closer", GroupMarker::End)), Ok(()));

    let expected: Vec<(&str, usize, bool)> = vec![
        ("First line", 0, false),
        ("First group", 0, false),
        ("item1", 1, false),
        ("item2", 1, false),
        ("Second group", 1, false),
        ("x", 2, false),
        ("End group2", 1, false),
        ("End group3", 1, true),
        ("tail", 1, false),
        ("closer", 0, false),
    ];
    assert_eq!(c.transcript().len(), expected.len());
    for (i, (text, depth, hidden)) in expected.iter().enumerate() {
        assert_eq!(line(&c, i), (text.to_string(), *depth, *hidden));
    }
    assert_eq!(c.open_group_count(), 0);
}

#[test]
fn test_handle_output_event() {
    let mut c = Console::new();
    assert_eq!(c.handle_output(plain("First console output line before thread stopped!")), Ok(()));
    assert_eq!(c.handle_output(plain("First output line before thread stopped!")), Ok(()));
    assert_eq!(c.handle_output(plain("Second output line after thread stopped!")), Ok(()));
    assert_eq!(c.handle_output(plain("Second console output line after thread stopped!")), Ok(()));
    assert_eq!(c.transcript().len(), 4);
    assert_eq!(
        line(&c, 0),
        ("First console output line before thread stopped!".to_string(), 0, false)
    );
    assert_eq!(line(&c, 1), ("First output line before thread stopped!".to_string(), 0, false));
    assert_eq!(line(&c, 2), ("Second output line after thread stopped!".to_string(), 0, false));
    assert_eq!(
        line(&c, 3),
        ("Second console output line after thread stopped!".to_string(), 0, false)
    );
}

#[test]
fn test_empty_collapsed_group_keeps_one_marked_line() {
    let mut c = Console::new();
    assert_eq!(c.handle_output(marked("collapsed", GroupMarker::StartCollapsed)), Ok(()));
    assert_eq!(c.transcript().len(), 0);
    assert_eq!(c.handle_output(marked("end of collapsed", GroupMarker::End)), Ok(()));
    assert_eq!(c.transcript().len(), 1);
    assert_eq!(line(&c, 0), ("end of collapsed".to_string(), 0, true));
    assert_eq!(c.open_group_count(), 0);
}

#[test]
fn test_outer_collapse_dominates_inner_group() {
    let mut c = Console::new();
    assert_eq!(c.handle_output(marked("outer", GroupMarker::StartCollapsed)), Ok(()));
    assert_eq!(c.handle_output(marked("inner", GroupMarker::Start)), Ok(()));
    assert_eq!(c.handle_output(plain("invisible")), Ok(()));
    // the inner header and the plain line are both suppressed by the
    // collapsed ancestor
    assert_eq!(c.transcript().len(), 0);
    assert_eq!(c.open_group_count(), 2);
}

#[test]
fn test_unmatched_end_is_dropped() {
    let mut c = Console::new();
    assert_eq!(c.handle_output(plain("before")), Ok(()));
    assert_eq!(
        c.handle_output(marked("stray end", GroupMarker::End)),
        Err(ConsoleError::MalformedGroupSequence)
    );
    assert_eq!(c.transcript().len(), 1);
    assert_eq!(line(&c, 0), ("before".to_string(), 0, false));
    assert_eq!(c.open_group_count(), 0);
    // the engine keeps working after the dropped event
    assert_eq!(c.handle_output(plain("after")), Ok(()));
    assert_eq!(c.transcript().len(), 2);
}

#[test]
fn test_balanced_markers_close_all_groups() {
    let mut c = Console::new();
    assert_eq!(c.handle_output(marked("a", GroupMarker::Start)), Ok(()));
    assert_eq!(c.handle_output(marked("b", GroupMarker::StartCollapsed)), Ok(()));
    assert_eq!(c.handle_output(marked("end b", GroupMarker::End)), Ok(()));
    assert_eq!(c.handle_output(marked("c", GroupMarker::Start)), Ok(()));
    assert_eq!(c.handle_output(marked("end c", GroupMarker::End)), Ok(()));
    assert_eq!(c.handle_output(marked("end a", GroupMarker::End)), Ok(()));
    assert_eq!(c.open_group_count(), 0);
    // no line is deeper than the deepest nesting reached
    assert!(c.transcript().iter().all(|l| l.depth <= 2));
}

#[test]
fn test_category_is_not_filtered() {
    let mut c = Console::new();
    let n = OutputNotification {
        text: "telemetry line".to_string(),
        marker: None,
        category: Some("telemetry".to_string()),
    };
    assert_eq!(c.handle_output(n), Ok(()));
    assert_eq!(c.transcript().len(), 1);
    assert_eq!(line(&c, 0), ("telemetry line".to_string(), 0, false));
}
