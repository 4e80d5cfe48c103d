// Session life cycle, answering and dismissing, and the decisions of a wait.

use std::collections::HashMap;

use asqu::ipc::types::AskItem;
use asqu::question_store::WaitEvent;
use asqu::state::AppState;
use asqu::types::{Priority, QuestionAnswer, QuestionStatus, SelectionDetail};

fn ask_item(text: &str) -> AskItem {
    AskItem {
        text: text.to_string(),
        header: None,
        choices: None,
        allow_other: true,
        multi_select: false,
        instant: false,
        context: None,
        category: None,
        priority: Priority::Normal,
    }
}

fn answer() -> QuestionAnswer {
    let mut selections = HashMap::new();
    selections.insert("0".to_string(), SelectionDetail { confidence_bits: None, note: None });
    QuestionAnswer { selections, text: None }
}

#[test]
fn test_ensure_session_creates_once() {
    let mut st = AppState::new();
    st.ensure_session("s1", None);
    st.ensure_session("s1", None);
    assert_eq!(st.session_order().len(), 1);
}

#[test]
fn test_add_question_links_to_session() {
    let mut st = AppState::new();
    let q = st.add_question_to_session("s1", None, ask_item("Q?"));
    assert_eq!(q.session_id, "s1");
    assert_eq!(q.status, QuestionStatus::Pending);
    assert!(st.session("s1").unwrap().question_ids.contains(&q.id));
}

#[test]
fn test_cleanup_removes_session_keeps_questions() {
    let mut st = AppState::new();
    let q1 = st.add_question_to_session("cleanup", None, ask_item("Q1"));
    let q2 = st.add_question_to_session("cleanup", None, ask_item("Q2"));
    st.apply_answer(&q1.id, answer());
    assert!(st.has_session("cleanup"), "session still active");

    st.apply_answer(&q2.id, answer());
    assert!(!st.has_session("cleanup"), "session should be auto-removed");
    assert!(st.question(&q1.id).is_some(), "q1 must be preserved");
    assert!(st.question(&q2.id).is_some(), "q2 must be preserved");
}

#[test]
fn test_remove_session_with_questions_dismisses_pending() {
    let mut st = AppState::new();
    let q = st.add_question_to_session("rm", None, ask_item("Q?"));
    st.remove_session_with_questions("rm");
    assert!(!st.has_session("rm"), "session must be removed");
    assert!(st.question(&q.id).is_some(), "question must be preserved for in-flight waits");
    assert_eq!(st.question(&q.id).unwrap().status, QuestionStatus::Dismissed, "pending question must be dismissed");
    assert_eq!(
        st.question(&q.id).unwrap().dismiss_reason.as_deref(),
        Some("session removed"),
        "dismiss reason must identify session removal"
    );
}

#[test]
fn test_multi_session_isolation() {
    let mut st = AppState::new();
    st.add_question_to_session("a", None, ask_item("A1"));
    st.add_question_to_session("b", None, ask_item("B1"));
    st.add_question_to_session("b", None, ask_item("B2"));
    assert_eq!(st.get_session_question_ids("a").len(), 1);
    assert_eq!(st.get_session_question_ids("b").len(), 2);
    assert_eq!(st.get_session_question_ids("c").len(), 0);
}

#[test]
fn test_apply_answer_sets_status() {
    let mut st = AppState::new();
    let q = st.add_question_to_session("s", None, ask_item("Q?"));
    let ok = st.apply_answer(&q.id, answer());
    assert!(ok);
    assert_eq!(st.question(&q.id).unwrap().status, QuestionStatus::Answered);
}

#[test]
fn test_apply_answer_rejects_non_pending() {
    let mut st = AppState::new();
    let q = st.add_question_to_session("s", None, ask_item("Q?"));
    st.apply_answer(&q.id, answer());
    let ok = st.apply_answer(&q.id, answer());
    assert!(!ok);
}

#[test]
fn test_dismiss_questions_sets_dismissed() {
    let mut st = AppState::new();
    let q = st.add_question_to_session("s", None, ask_item("Q?"));
    let dismissed = st.dismiss_questions(&[q.id.clone()], Some("test"));
    assert_eq!(dismissed, vec![q.id.clone()]);
    assert_eq!(st.question(&q.id).unwrap().status, QuestionStatus::Dismissed);
}

#[test]
fn test_apply_denied_sets_denied() {
    let mut st = AppState::new();
    let q = st.add_question_to_session("s", None, ask_item("Q?"));
    let denied = st.apply_denied(&[q.id.clone()], "denied by user");
    assert_eq!(denied, vec![q.id.clone()]);
    assert_eq!(st.question(&q.id).unwrap().status, QuestionStatus::Denied);
}

#[test]
fn test_get_answers_all_buckets() {
    let mut st = AppState::new();
    let q1 = st.add_question_to_session("s", None, ask_item("Q1"));
    let q2 = st.add_question_to_session("s", None, ask_item("Q2"));
    let q3 = st.add_question_to_session("s", None, ask_item("Q3"));
    st.apply_answer(&q1.id, answer());
    st.apply_denied(&[q2.id.clone()], "denied");

    let result = st.get_answers(&[q1.id.clone(), q2.id.clone(), q3.id.clone()]);
    assert_eq!(result.answered.len(), 1);
    assert_eq!(result.denied.len(), 1);
    assert_eq!(result.pending, vec![q3.id.clone()]);
    assert!(!result.timed_out);
}

#[test]
fn test_get_answers_dismissed_maps_to_denied() {
    let mut st = AppState::new();
    let q = st.add_question_to_session("s", None, ask_item("Q?"));
    st.dismiss_questions(&[q.id.clone()], None);
    let result = st.get_answers(&[q.id.clone()]);
    assert_eq!(result.denied.len(), 1);
    assert!(result.answered.is_empty());
}

// The blocking wait itself runs in the application; these tests drive its
// decisions through the same sequence of events.

#[test]
fn test_wait_resolves_on_answer() {
    let mut st = AppState::new();
    let q = st.add_question_to_session("s", None, ask_item("Q?"));
    let ids = [q.id.clone()];
    assert!(st.wait_decision(&ids, false, WaitEvent::Start).is_none());
    st.apply_answer(&q.id, answer());
    let result = st.wait_decision(&ids, false, WaitEvent::Wake).unwrap();
    assert_eq!(result.answered.len(), 1);
    assert!(!result.timed_out);
}

#[test]
fn test_wait_resolves_on_dismiss() {
    let mut st = AppState::new();
    let q = st.add_question_to_session("s", None, ask_item("Q?"));
    let ids = [q.id.clone()];
    assert!(st.wait_decision(&ids, false, WaitEvent::Start).is_none());
    st.dismiss_questions(&[q.id.clone()], None);
    let result = st.wait_decision(&ids, false, WaitEvent::Wake).unwrap();
    assert_eq!(result.denied.len(), 1);
    assert!(!result.timed_out);
}

#[test]
fn test_wait_timeout() {
    let mut st = AppState::new();
    let q = st.add_question_to_session("s", None, ask_item("Q?"));
    let result = st.wait_decision(&[q.id.clone()], false, WaitEvent::Deadline).unwrap();
    assert!(result.timed_out);
    assert!(result.answered.is_empty());
}

#[test]
fn test_wait_require_all_waits_for_every_question() {
    let mut st = AppState::new();
    let q1 = st.add_question_to_session("s", None, ask_item("Q1"));
    let q2 = st.add_question_to_session("s", None, ask_item("Q2"));
    let ids = [q1.id.clone(), q2.id.clone()];
    assert!(st.wait_decision(&ids, true, WaitEvent::Start).is_none());
    st.apply_answer(&q1.id, answer());
    assert!(st.wait_decision(&ids, true, WaitEvent::Wake).is_none());
    st.apply_answer(&q2.id, answer());
    let result = st.wait_decision(&ids, true, WaitEvent::Wake).unwrap();
    assert_eq!(result.answered.len(), 2);
    assert!(result.pending.is_empty());
}

#[test]
fn test_wait_already_answered_returns_immediately() {
    let mut st = AppState::new();
    let q = st.add_question_to_session("s", None, ask_item("Q?"));
    st.apply_answer(&q.id, answer());
    let result = st.wait_decision(&[q.id.clone()], false, WaitEvent::Start).unwrap();
    assert_eq!(result.answered.len(), 1);
    assert!(!result.timed_out);
}

#[test]
fn test_instant_answer_resolves_require_all_early() {
    let mut st = AppState::new();
    let mut item = ask_item("Instant Q?");
    item.instant = true;
    let q_instant = st.add_question_to_session("s", None, item);
    let q_normal = st.add_question_to_session("s", None, ask_item("Normal Q?"));
    let ids = [q_instant.id.clone(), q_normal.id.clone()];
    assert!(st.wait_decision(&ids, true, WaitEvent::Start).is_none());
    st.apply_answer(&q_instant.id, answer());
    let result = st.wait_decision(&ids, true, WaitEvent::Wake).unwrap();
    assert!(!result.timed_out, "must not time out");
    assert_eq!(result.answered.len(), 1, "instant question is answered");
    assert_eq!(result.pending, vec![q_normal.id.clone()], "normal question still pending");
}

#[test]
fn test_shutdown_unblocks_wait() {
    let mut st = AppState::new();
    let q = st.add_question_to_session("s", None, ask_item("Q?"));
    let ids = [q.id.clone()];
    assert!(st.wait_decision(&ids, false, WaitEvent::Start).is_none());
    st.begin_shutdown();
    let result = st.wait_decision(&ids, false, WaitEvent::Wake).unwrap();
    assert!(result.shutdown, "shutdown flag must be set");
    assert!(!result.timed_out, "must not time out");
    assert_eq!(result.denied.len(), 1, "dismissed question appears in denied");
    assert_eq!(result.denied[0].reason, "app shutdown");
}

#[test]
fn test_display_name_short_id() {
    let mut st = AppState::new();
    let name = st.ensure_session("short", None);
    assert_eq!(name, "short");
}

#[test]
fn test_display_name_long_ascii() {
    let mut st = AppState::new();
    let name = st.ensure_session("abcdef-1234-5678-90ab", None);
    assert_eq!(name.len(), 8);
    assert_eq!(name, "678-90ab");
}

#[test]
fn test_display_name_multibyte_no_panic() {
    let mut st = AppState::new();
    let name = st.ensure_session("세션안녕하세요테스트하나셋", None);
    assert_eq!(name.chars().count(), 8, "must return last 8 characters, not bytes");
}
