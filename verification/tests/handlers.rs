// Routing of requests to question ids.

use asqu::ipc::handlers::resolve_ids;
use asqu::ipc::types::AskItem;
use asqu::state::AppState;
use asqu::types::Priority;

fn ask_item(text: &str) -> AskItem {
    AskItem {
        text: text.to_string(),
        header: None,
        choices: None,
        allow_other: true,
        multi_select: false,
        instant: false,
        context: None,
        category: None,
        priority: Priority::Normal,
    }
}

#[test]
fn test_resolve_ids_explicit() {
    let mut st = AppState::new();
    st.add_question_to_session("s", None, ask_item("Q?"));

    let ids = resolve_ids(&st, "s", vec!["99".to_string()]);
    assert_eq!(ids, vec!["99"], "explicit ids must be returned as-is");
}

#[test]
fn test_resolve_ids_from_session() {
    let mut st = AppState::new();
    let q = st.add_question_to_session("s", None, ask_item("Q?"));

    let ids = resolve_ids(&st, "s", vec![]);
    assert_eq!(ids, vec![q.id], "should return session question ids");
}

#[test]
fn test_resolve_ids_fallback_after_session_removed() {
    let mut st = AppState::new();
    let q = st.add_question_to_session("s", None, ask_item("Q?"));

    st.apply_denied(&[q.id.clone()], "test");
    assert!(!st.has_session("s"), "session should be auto-cleaned");
    assert!(st.question(&q.id).is_some(), "question must be preserved after auto-cleanup");

    let ids = resolve_ids(&st, "s", vec![]);
    assert_eq!(ids, vec![q.id], "fallback search must find question by session_id field");
}

#[test]
fn test_resolve_ids_unknown_session() {
    let st = AppState::new();
    let ids = resolve_ids(&st, "nonexistent", vec![]);
    assert!(ids.is_empty(), "unknown session with no questions must return empty");
}

#[test]
fn test_resolve_ids_multiple_fallback() {
    let mut st = AppState::new();
    let q1 = st.add_question_to_session("s", None, ask_item("Q1"));
    let q2 = st.add_question_to_session("s", None, ask_item("Q2"));

    st.apply_denied(&[q1.id.clone(), q2.id.clone()], "done");

    let mut ids = resolve_ids(&st, "s", vec![]);
    ids.sort();
    let mut expected = vec![q1.id.clone(), q2.id.clone()];
    expected.sort();
    assert_eq!(ids, expected, "all questions must be found via fallback");
}
