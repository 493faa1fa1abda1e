use debugger_core::protocol::AdapterRequest;
use debugger_core::variables::{
    AdapterError, ExpansionKey, Scope, TreeError, Variable, VariableTreeEntry, VariableTreeManager,
};

fn scope(name: &str, container_ref: u64) -> Scope {
    Scope { name: name.to_string(), container_ref, expensive: false }
}

fn var(name: &str, value: &str, container_ref: u64) -> Variable {
    Variable { name: name.to_string(), value: value.to_string(), container_ref }
}

fn key(scope_ref: u64, path: &[&str], depth: usize) -> ExpansionKey {
    ExpansionKey {
        scope_ref,
        path: path.iter().map(|p| p.to_string()).collect(),
        depth,
    }
}

/// One stop of thread 1, frame 1 loaded with two scopes and their
/// children cached, mirroring a small stopped program.
fn loaded_manager() -> VariableTreeManager {
    let mut m = VariableTreeManager::new();
    let r = m.on_stopped(1);
    assert!(matches!(r, AdapterRequest::StackTrace { thread_id: 1 }));
    let gen = m.generation();
    let sel = m.select_frame(1, 1);
    assert!(matches!(sel, Some(AdapterRequest::Scopes { thread_id: 1, frame_id: 1, .. })));
    let reqs = m.on_scopes_response(gen, 1, 1, Ok(vec![scope("Scope 1", 2), scope("Scope 2", 3)]));
    // both scope containers are fetched eagerly, each once
    assert_eq!(reqs.len(), 2);
    assert!(matches!(reqs[0], AdapterRequest::Variables { container_ref: 2, .. }));
    assert!(matches!(reqs[1], AdapterRequest::Variables { container_ref: 3, .. }));
    assert_eq!(
        m.on_variables_response(
            gen,
            2,
            Ok(vec![
                var("variable1", "{nested1: \"Nested 1\", nested2: \"Nested 2\"}", 4),
                var("variable2", "Value 2", 0),
            ]),
        ),
        Ok(())
    );
    assert_eq!(m.on_variables_response(gen, 3, Ok(vec![var("variable3", "Value 3", 0)])), Ok(()));
    m
}

fn entry_names(entries: &[VariableTreeEntry]) -> Vec<String> {
    entries
        .iter()
        .map(|e| match e {
            VariableTreeEntry::Scope(s) => s.name.clone(),
            VariableTreeEntry::Variable { variable, .. } => variable.name.clone(),
        })
        .collect()
}

#[test]
fn test_select_frame_is_idempotent_once_loaded() {
    let m = loaded_manager();
    assert!(m.select_frame(1, 1).is_none());
    assert!(m.select_frame(1, 7).is_some());
}

#[test]
fn test_entries_flatten_scopes_and_children() {
    let m = loaded_manager();
    let entries = m.entries(1, 1);
    assert_eq!(
        entry_names(&entries),
        vec!["Scope 1", "variable1", "variable2", "Scope 2", "variable3"]
    );
    match &entries[1] {
        VariableTreeEntry::Variable { variable, container_ref_of_parent, depth, has_children } => {
            assert_eq!(variable.name, "variable1");
            assert_eq!(*container_ref_of_parent, 2);
            assert_eq!(*depth, 1);
            assert!(*has_children);
        }
        _ => panic!("expected a variable row"),
    }
    match &entries[2] {
        VariableTreeEntry::Variable { has_children, .. } => assert!(!*has_children),
        _ => panic!("expected a variable row"),
    }
    // an unknown frame shows nothing
    assert!(m.entries(1, 9).is_empty());
}

#[test]
fn test_expand_fetches_once_and_reexpand_is_free() {
    let mut m = loaded_manager();
    let gen = m.generation();
    // expanding variable1 asks for its children, exactly once
    let req = m.toggle_entry(key(2, &["variable1"], 1), 4);
    assert!(matches!(req, Some(AdapterRequest::Variables { container_ref: 4, .. })));
    // a second toggle-on while the fetch is in flight asks nothing
    assert!(m.toggle_entry(key(2, &["variable1"], 1), 4).is_none());
    assert!(m.toggle_entry(key(2, &["variable1"], 1), 4).is_none());
    assert_eq!(
        m.on_variables_response(
            gen,
            4,
            Ok(vec![var("nested1", "Nested 1", 0), var("nested2", "Nested 2", 0)]),
        ),
        Ok(())
    );
    let expanded = m.entries(1, 1);
    assert_eq!(
        entry_names(&expanded),
        vec!["Scope 1", "variable1", "nested1", "nested2", "variable2", "Scope 2", "variable3"]
    );
    match &expanded[2] {
        VariableTreeEntry::Variable { variable, container_ref_of_parent, depth, .. } => {
            assert_eq!(variable.value, "Nested 1");
            assert_eq!(*container_ref_of_parent, 4);
            assert_eq!(*depth, 2);
        }
        _ => panic!("expected a variable row"),
    }
    // collapse, then re-expand: no request either time, identical rows
    assert!(m.toggle_entry(key(2, &["variable1"], 1), 4).is_none());
    assert_eq!(entry_names(&m.entries(1, 1)), entry_names(&loaded_manager().entries(1, 1)));
    assert!(m.toggle_entry(key(2, &["variable1"], 1), 4).is_none());
    let reexpanded = m.entries(1, 1);
    assert_eq!(entry_names(&reexpanded), entry_names(&expanded));
    for (a, b) in expanded.iter().zip(reexpanded.iter()) {
        match (a, b) {
            (
                VariableTreeEntry::Variable { variable: va, depth: da, .. },
                VariableTreeEntry::Variable { variable: vb, depth: db, .. },
            ) => {
                assert_eq!(va.name, vb.name);
                assert_eq!(va.value, vb.value);
                assert_eq!(va.container_ref, vb.container_ref);
                assert_eq!(da, db);
            }
            (VariableTreeEntry::Scope(sa), VariableTreeEntry::Scope(sb)) => {
                assert_eq!(sa.name, sb.name);
                assert_eq!(sa.container_ref, sb.container_ref);
            }
            _ => panic!("row kinds differ"),
        }
    }
}

#[test]
fn test_second_stop_discards_first_generation() {
    let mut m = loaded_manager();
    let first_gen = m.generation();
    m.on_stopped(1);
    m.on_stopped(1);
    // everything of the first stop is gone
    assert!(m.entries(1, 1).is_empty());
    assert!(m.select_frame(1, 1).is_some());
    // a late response of the first generation is ignored
    assert_eq!(
        m.on_variables_response(first_gen, 2, Ok(vec![var("ghostly", "stale", 0)])),
        Err(TreeError::StaleContainerReference)
    );
    assert!(m.entries(1, 1).is_empty());
    // frames of another thread survive a stop, their cache does not
    let mut m2 = loaded_manager();
    let g2 = m2.generation();
    m2.on_scopes_response(g2, 7, 70, Ok(vec![scope("Other", 9)]));
    m2.on_stopped(1);
    assert!(m2.select_frame(7, 70).is_none());
    assert!(m2.select_frame(1, 1).is_some());
}

#[test]
fn test_failed_fetch_marks_error_and_stays_contained() {
    let mut m = VariableTreeManager::new();
    m.on_stopped(1);
    let gen = m.generation();
    let reqs = m.on_scopes_response(gen, 1, 1, Ok(vec![scope("Scope 1", 2)]));
    assert_eq!(reqs.len(), 1);
    assert_eq!(
        m.on_variables_response(gen, 2, Err(AdapterError { message: "gone".to_string() })),
        Ok(())
    );
    assert!(m.container_error(2));
    assert!(!m.container_error(3));
    // the scope row still renders, with no children
    assert_eq!(entry_names(&m.entries(1, 1)), vec!["Scope 1"]);
    // a failed scopes fetch loads the frame as empty rather than crashing
    let mut m2 = VariableTreeManager::new();
    m2.on_stopped(1);
    let g2 = m2.generation();
    let r2 = m2.on_scopes_response(g2, 1, 1, Err(AdapterError { message: "gone".to_string() }));
    assert!(r2.is_empty());
    assert!(m2.select_frame(1, 1).is_none());
    assert!(m2.entries(1, 1).is_empty());
}

#[test]
fn test_patch_variable_changes_value_in_place() {
    let mut m = loaded_manager();
    assert_eq!(
        m.patch_variable(2, &"variable2".to_string(), "patched".to_string()),
        Ok(())
    );
    let entries = m.entries(1, 1);
    match &entries[2] {
        VariableTreeEntry::Variable { variable, .. } => {
            assert_eq!(variable.name, "variable2");
            assert_eq!(variable.value, "patched");
        }
        _ => panic!("expected a variable row"),
    }
    // a miss changes nothing and says so
    assert_eq!(
        m.patch_variable(2, &"missing".to_string(), "x".to_string()),
        Err(TreeError::UnresolvedPatchTarget)
    );
    assert_eq!(
        m.patch_variable(99, &"variable2".to_string(), "x".to_string()),
        Err(TreeError::UnresolvedPatchTarget)
    );
}

#[test]
fn test_scopes_response_deduplicates_fetches() {
    let mut m = VariableTreeManager::new();
    m.on_stopped(1);
    let gen = m.generation();
    // two scopes share a container, a third is a leaf: one fetch results
    let reqs = m.on_scopes_response(
        gen,
        1,
        1,
        Ok(vec![scope("A", 2), scope("B", 2), scope("C", 0)]),
    );
    assert_eq!(reqs.len(), 1);
    assert!(matches!(reqs[0], AdapterRequest::Variables { container_ref: 2, .. }));
    // a stale scopes response is ignored whole
    let stale = m.on_scopes_response(0, 1, 5, Ok(vec![scope("Old", 8)]));
    assert!(stale.is_empty());
    assert!(m.select_frame(1, 5).is_some());
}
