use judge_core::cache::{BeginAction, CompileCache, CompileOutcome};

#[test]
fn first_caller_launches() {
    let mut cache = CompileCache::new();
    assert_eq!(cache.begin("py-abc"), BeginAction::Launch);
}

#[test]
fn second_caller_waits_while_in_flight() {
    let mut cache = CompileCache::new();
    assert_eq!(cache.begin("py-abc"), BeginAction::Launch);
    assert_eq!(cache.begin("py-abc"), BeginAction::Wait);
    assert_eq!(cache.begin("py-abc"), BeginAction::Wait);
}

#[test]
fn distinct_ids_launch_independently() {
    let mut cache = CompileCache::new();
    assert_eq!(cache.begin("py-abc"), BeginAction::Launch);
    assert_eq!(cache.begin("py-def"), BeginAction::Launch);
}

#[test]
fn success_is_served_without_recompiling() {
    let mut cache = CompileCache::new();
    assert_eq!(cache.begin("py-abc"), BeginAction::Launch);
    assert!(cache.finish("py-abc", 0, String::new()));
    assert_eq!(cache.begin("py-abc"), BeginAction::Ready(CompileOutcome::Compiled));
    assert_eq!(cache.begin("py-abc"), BeginAction::Ready(CompileOutcome::Compiled));
}

#[test]
fn failure_is_served_verbatim_to_all_later_callers() {
    let mut cache = CompileCache::new();
    assert_eq!(cache.begin("c-bad"), BeginAction::Launch);
    assert!(cache.finish("c-bad", 1, "main.c:1: error".to_string()));
    let expected = BeginAction::Ready(CompileOutcome::Failed("main.c:1: error".to_string()));
    assert_eq!(cache.begin("c-bad"), expected);
    assert_eq!(cache.begin("c-bad"), expected);
}

#[test]
fn poll_reports_only_terminal_states() {
    let mut cache = CompileCache::new();
    assert_eq!(cache.poll("py-abc"), None);
    assert_eq!(cache.begin("py-abc"), BeginAction::Launch);
    assert_eq!(cache.poll("py-abc"), None);
    assert!(cache.finish("py-abc", 0, String::new()));
    assert_eq!(cache.poll("py-abc"), Some(CompileOutcome::Compiled));
}

#[test]
fn exit_status_zero_is_compiled_anything_else_failed() {
    let mut cache = CompileCache::new();
    assert_eq!(cache.begin("a"), BeginAction::Launch);
    assert!(cache.finish("a", 0, "ignored".to_string()));
    assert_eq!(cache.poll("a"), Some(CompileOutcome::Compiled));

    assert_eq!(cache.begin("b"), BeginAction::Launch);
    assert!(cache.finish("b", 2, "boom".to_string()));
    assert_eq!(cache.poll("b"), Some(CompileOutcome::Failed("boom".to_string())));
}

#[test]
fn a_recorded_outcome_cannot_be_overwritten() {
    let mut cache = CompileCache::new();
    assert_eq!(cache.begin("a"), BeginAction::Launch);
    assert!(cache.finish("a", 1, "first".to_string()));
    // neither a second record nor one for an unknown id changes anything
    assert!(!cache.finish("a", 0, "second".to_string()));
    assert!(!cache.finish("never-begun", 0, String::new()));
    assert_eq!(cache.poll("a"), Some(CompileOutcome::Failed("first".to_string())));
}
