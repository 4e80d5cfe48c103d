// The store's promises on concrete values: what is written is read back,
// settled questions stay settled, sessions are kept apart, and the shutdown
// ends every wait.

use std::collections::HashMap;

use asqu::ipc::types::AskItem;
use asqu::question_store::{is_resolved_closable, ClosableWaitEvent, WaitEvent};
use asqu::state::{millis_from_elapsed, now_millis, AppState};
use asqu::ui::{notify_ready, WebviewReadyState};
use asqu::types::{IpcToUiEvent, Priority, QuestionAnswer, QuestionChoice, QuestionStatus, SelectionDetail};

fn item(text: &str, instant: bool) -> AskItem {
    AskItem {
        text: text.to_string(),
        header: Some("H".to_string()),
        choices: Some(vec![QuestionChoice { label: "A".to_string(), description: None }]),
        allow_other: false,
        multi_select: true,
        instant,
        context: Some("ctx".to_string()),
        category: Some("cat".to_string()),
        priority: Priority::High,
    }
}

fn answer_with(label: &str, text: Option<&str>) -> QuestionAnswer {
    let mut selections = HashMap::new();
    selections.insert(label.to_string(), SelectionDetail { confidence_bits: Some(0.5f64.to_bits()), note: Some("n".to_string()) });
    QuestionAnswer { selections, text: text.map(|t| t.to_string()) }
}

#[test]
fn ids_are_issued_in_order_from_one() {
    let mut st = AppState::new();
    let a = st.add_question_to_session("s", None, item("A", false));
    let b = st.add_question_to_session("t", None, item("B", false));
    let c = st.add_question_to_session("s", None, item("C", false));
    assert_eq!(a.id, "1");
    assert_eq!(b.id, "2");
    assert_eq!(c.id, "3");
    assert_eq!(st.ids_remaining(), u32::MAX - 3);
}

#[test]
fn new_question_keeps_the_submitted_fields() {
    let mut st = AppState::new();
    let q = st.add_question_to_session_at("s", Some("Title".to_string()), item("Q?", true), 1234);
    assert_eq!(q.text, "Q?");
    assert_eq!(q.header.as_deref(), Some("H"));
    assert_eq!(q.choices.as_ref().map(|c| c.len()), Some(1));
    assert!(!q.allow_other);
    assert!(q.multi_select);
    assert!(q.instant);
    assert_eq!(q.context.as_deref(), Some("ctx"));
    assert_eq!(q.category.as_deref(), Some("cat"));
    assert_eq!(q.priority, Priority::High);
    assert_eq!(q.status, QuestionStatus::Pending);
    assert_eq!(q.created_at, 1234);
    assert!(q.answer.is_none() && q.answered_at.is_none() && q.dismiss_reason.is_none());
    let s = st.session("s").unwrap();
    assert_eq!(s.display_name, "Title");
    assert_eq!(s.created_at, 1234);
    assert_eq!(s.question_ids, vec![q.id.clone()]);
}

#[test]
fn answer_is_read_back() {
    let mut st = AppState::new();
    let q = st.add_question_to_session("s", None, item("Q", false));
    let other = st.add_question_to_session("s", None, item("R", false));
    assert!(st.apply_answer_at(&q.id, answer_with("A", Some("free text")), 99));
    let r = st.get_answers(&[q.id.clone()]);
    assert_eq!(r.answered.len(), 1);
    assert_eq!(r.answered[0].id, q.id);
    assert_eq!(r.answered[0].answer.text.as_deref(), Some("free text"));
    assert!(r.answered[0].answer.selections.contains_key("A"));
    assert!(r.denied.is_empty() && r.pending.is_empty());
    assert!(!r.timed_out && !r.shutdown);
    let stored = st.question(&q.id).unwrap();
    assert_eq!(stored.status, QuestionStatus::Answered);
    assert_eq!(stored.answered_at, Some(99));
    assert_eq!(st.question(&other.id).unwrap().status, QuestionStatus::Pending);
}

#[test]
fn settled_question_refuses_a_second_answer() {
    let mut st = AppState::new();
    let q = st.add_question_to_session("s", None, item("Q", false));
    assert!(st.apply_answer(&q.id, answer_with("A", None)));
    assert!(!st.apply_answer(&q.id, answer_with("B", None)));
    let r = st.get_answers(&[q.id.clone()]);
    assert!(r.answered[0].answer.selections.contains_key("A"));
    assert_eq!(st.apply_denied(&[q.id.clone()], "late"), Vec::<String>::new());
    assert_eq!(st.dismiss_questions(&[q.id.clone()], None), Vec::<String>::new());
    assert_eq!(st.question(&q.id).unwrap().status, QuestionStatus::Answered);
}

#[test]
fn unknown_ids_are_ignored() {
    let mut st = AppState::new();
    assert!(!st.apply_answer("42", answer_with("A", None)));
    assert!(st.dismiss_questions(&["42".to_string()], Some("x")).is_empty());
    assert!(st.apply_denied(&["42".to_string()], "x").is_empty());
    let r = st.get_answers(&["42".to_string()]);
    assert!(r.answered.is_empty() && r.denied.is_empty() && r.pending.is_empty());
}

#[test]
fn dismissal_is_read_back_with_reason() {
    let mut st = AppState::new();
    let q1 = st.add_question_to_session("s", None, item("Q1", false));
    let q2 = st.add_question_to_session("s", None, item("Q2", false));
    let d = st.dismiss_questions(&[q2.id.clone(), q1.id.clone(), q2.id.clone()], Some("not needed"));
    assert_eq!(d, vec![q2.id.clone(), q1.id.clone()]);
    let r = st.get_answers(&[q1.id.clone(), q2.id.clone()]);
    assert_eq!(r.denied.len(), 2);
    assert_eq!(r.denied[0].id, q1.id);
    assert_eq!(r.denied[0].reason, "not needed");
    assert_eq!(st.question(&q1.id).unwrap().status, QuestionStatus::Dismissed);
}

#[test]
fn dismissal_without_reason_reads_back_empty_reason() {
    let mut st = AppState::new();
    let q = st.add_question_to_session("s", None, item("Q", false));
    st.dismiss_questions(&[q.id.clone()], None);
    let r = st.get_answers(&[q.id.clone()]);
    assert_eq!(r.denied[0].reason, "");
    assert!(st.question(&q.id).unwrap().dismiss_reason.is_none());
}

#[test]
fn denial_is_read_back() {
    let mut st = AppState::new();
    let q = st.add_question_to_session("s", None, item("Q", false));
    assert_eq!(st.apply_denied(&[q.id.clone()], "no"), vec![q.id.clone()]);
    let r = st.get_answers(&[q.id.clone()]);
    assert_eq!(r.denied[0].reason, "no");
    assert_eq!(st.question(&q.id).unwrap().status, QuestionStatus::Denied);
}

#[test]
fn ensure_session_is_idempotent_and_renames() {
    let mut st = AppState::new();
    assert_eq!(st.ensure_session_at("abcdef-1234-5678-90ab", None, 5), "678-90ab");
    assert_eq!(st.ensure_session_at("abcdef-1234-5678-90ab", None, 6), "678-90ab");
    assert_eq!(st.session_order(), vec!["abcdef-1234-5678-90ab"]);
    assert_eq!(st.session("abcdef-1234-5678-90ab").unwrap().created_at, 5);
    assert_eq!(st.ensure_session("abcdef-1234-5678-90ab", Some("Named".to_string())), "Named");
    assert_eq!(st.session("abcdef-1234-5678-90ab").unwrap().display_name, "Named");
    let events = st.take_events();
    assert_eq!(events.len(), 2);
    assert!(matches!(events[0], IpcToUiEvent::SessionAdded { .. }));
    assert!(matches!(events[1], IpcToUiEvent::SessionUpdated { .. }));
    assert!(st.take_events().is_empty());
}

#[test]
fn sessions_are_kept_apart() {
    let mut st = AppState::new();
    let a = st.add_question_to_session("a", None, item("A", false));
    let b = st.add_question_to_session("b", None, item("B", false));
    assert_eq!(st.get_session_question_ids("a"), vec![a.id.clone()]);
    assert_eq!(st.get_session_question_ids("b"), vec![b.id.clone()]);
    assert!(st.remove_session_with_questions("a"));
    assert_eq!(st.question(&a.id).unwrap().status, QuestionStatus::Dismissed);
    assert_eq!(st.question(&a.id).unwrap().dismiss_reason.as_deref(), Some("session removed"));
    assert_eq!(st.question(&b.id).unwrap().status, QuestionStatus::Pending);
    assert!(!st.remove_session_with_questions("a"));
    assert!(!st.remove_session("zzz"));
}

#[test]
fn plain_remove_session_leaves_questions_pending() {
    let mut st = AppState::new();
    let a = st.add_question_to_session("a", None, item("A", false));
    assert!(st.remove_session("a"));
    assert!(!st.has_session("a"));
    assert_eq!(st.question(&a.id).unwrap().status, QuestionStatus::Pending);
    assert_eq!(st.resolve_question_ids("a", vec![]), vec![a.id.clone()]);
}

#[test]
fn pending_count_counts_pending_only() {
    let mut st = AppState::new();
    let a = st.add_question_to_session("a", None, item("A", false));
    st.add_question_to_session("a", None, item("B", false));
    st.add_question_to_session("b", None, item("C", false));
    assert_eq!(st.get_pending_count(), 3);
    st.apply_answer(&a.id, answer_with("A", None));
    assert_eq!(st.get_pending_count(), 2);
}

#[test]
fn shutdown_settles_everything_and_ends_waits() {
    let mut st = AppState::new();
    let a = st.add_question_to_session("a", None, item("A", false));
    let b = st.add_question_to_session("b", None, item("B", false));
    st.apply_answer(&b.id, answer_with("A", None));
    st.take_events();
    st.take_wake_request();
    st.begin_shutdown();
    assert!(st.shutting_down());
    assert_eq!(st.get_pending_count(), 0);
    assert_eq!(st.question(&a.id).unwrap().dismiss_reason.as_deref(), Some("app shutdown"));
    assert_eq!(st.question(&b.id).unwrap().status, QuestionStatus::Answered);
    assert!(st.take_wake_request());
    assert!(!st.take_wake_request());
    match &st.take_events()[..] {
        [IpcToUiEvent::QuestionsDismissed { question_ids }] => assert_eq!(question_ids, &vec![a.id.clone()]),
        other => panic!("unexpected {:?}", other),
    }
    let r = st.wait_decision(&[a.id.clone()], true, WaitEvent::Wake).unwrap();
    assert!(r.shutdown && !r.timed_out);
    assert_eq!(r.denied[0].reason, "app shutdown");
}

#[test]
fn wait_decisions() {
    let mut st = AppState::new();
    let a = st.add_question_to_session("a", None, item("A", false));
    let b = st.add_question_to_session("a", None, item("B", false));
    let ids = vec![a.id.clone(), b.id.clone()];
    assert!(st.wait_decision(&ids, true, WaitEvent::Start).is_none());
    assert!(st.wait_decision(&ids, false, WaitEvent::Start).is_none());
    st.apply_denied(&[a.id.clone()], "no");
    assert!(st.wait_decision(&ids, true, WaitEvent::Wake).is_none());
    let any = st.wait_decision(&ids, false, WaitEvent::Wake).unwrap();
    assert_eq!(any.denied.len(), 1);
    assert_eq!(any.pending, vec![b.id.clone()]);
    let late = st.wait_decision(&ids, true, WaitEvent::Deadline).unwrap();
    assert!(late.timed_out && !late.shutdown);
    assert_eq!(late.pending, vec![b.id.clone()]);
}

#[test]
fn answer_requests_a_wake_up() {
    let mut st = AppState::new();
    let a = st.add_question_to_session("a", None, item("A", false));
    st.take_wake_request();
    assert!(!st.take_wake_request());
    st.apply_answer(&a.id, answer_with("A", None));
    assert!(st.take_wake_request());
}

#[test]
fn instant_answers_are_collected_once() {
    let mut st = AppState::new();
    let i1 = st.add_question("s", "I1".to_string(), None, None, true, false, true, None, None, Priority::Normal);
    let i2 = st.add_question("s", "I2".to_string(), None, None, true, false, true, None, None, Priority::Normal);
    let n = st.add_question("s", "N".to_string(), None, None, true, false, false, None, None, Priority::Normal);
    assert_eq!(i1.id, "1");
    for q in [&i1, &i2, &n] {
        st.apply_answer(&q.id, answer_with("A", None));
    }
    let excluded = vec![i2.id.clone()];
    let got = st.collect_instant_answers(Some(&excluded));
    assert_eq!(got.iter().map(|a| a.id.clone()).collect::<Vec<_>>(), vec![i1.id.clone()]);
    let again = st.collect_instant_answers(None);
    assert_eq!(again.iter().map(|a| a.id.clone()).collect::<Vec<_>>(), vec![i2.id.clone()]);
    assert!(st.collect_instant_answers(None).is_empty());
    st.mark_instant_delivered(&[i1.id.clone(), i1.id.clone()]);
    assert!(st.collect_instant_answers(None).is_empty());
}

#[test]
fn questions_by_status() {
    let mut st = AppState::new();
    let a = st.add_question("s", "A".to_string(), None, None, true, false, false, None, None, Priority::Low);
    let b = st.add_question("s", "B".to_string(), None, None, true, false, false, None, None, Priority::Low);
    st.apply_answer(&a.id, answer_with("A", None));
    let pending: Vec<String> = st.get_questions_by_status(Some(QuestionStatus::Pending)).iter().map(|q| q.id.clone()).collect();
    assert_eq!(pending, vec![b.id.clone()]);
    let all: Vec<String> = st.get_questions_by_status(None).iter().map(|q| q.id.clone()).collect();
    assert_eq!(all, vec![a.id.clone(), b.id.clone()]);
    assert!(!st.has_session("s"));
}

#[test]
fn emitted_events_carry_the_questions() {
    let mut st = AppState::new();
    let a = st.add_question_to_session("a", None, item("A", false));
    let b = st.add_question_to_session("a", None, item("B", false));
    st.take_events();
    st.emit_question_added(&a);
    st.emit_questions_batch(&[a, b]);
    match &st.take_events()[..] {
        [IpcToUiEvent::QuestionAdded { question }, IpcToUiEvent::QuestionsBatch { questions }] => {
            assert_eq!(question.id, "1");
            assert_eq!(questions.iter().map(|q| q.id.as_str()).collect::<Vec<_>>(), vec!["1", "2"]);
        }
        other => panic!("unexpected {:?}", other),
    }
}

#[test]
fn clock_readings() {
    assert_eq!(millis_from_elapsed(None), 0);
    assert_eq!(millis_from_elapsed(Some(1_700_000_000_123)), 1_700_000_000_123);
    assert_eq!(millis_from_elapsed(Some(u64::MAX as u128 + 6)), 5);
    assert!(now_millis() > 1_600_000_000_000);
}

#[test]
fn closable_wait_decisions() {
    let mut st = AppState::new();
    let inst = st.add_question_to_session("a", None, item("I", true));
    let plain = st.add_question_to_session("a", None, item("P", false));
    let ids = vec![inst.id.clone(), plain.id.clone()];
    assert!(st.closable_wait_decision(&ids, true, false, ClosableWaitEvent::Start).is_none());
    let closed = st.closable_wait_decision(&ids, true, true, ClosableWaitEvent::Start).unwrap();
    assert_eq!(closed.pending.len(), 2);
    assert!(!closed.timed_out);
    assert!(st.closable_wait_decision(&ids, true, false, ClosableWaitEvent::WindowClosed).is_some());
    assert!(st.closable_wait_decision(&ids, false, false, ClosableWaitEvent::Deadline).unwrap().timed_out);
    st.apply_denied(&[inst.id.clone()], "no");
    let early = st.closable_wait_decision(&ids, true, false, ClosableWaitEvent::Wake).unwrap();
    assert_eq!(early.denied.len(), 1);
    assert_eq!(early.pending, vec![plain.id.clone()]);
    assert!(is_resolved_closable(&early, true, &st));
    assert!(st.wait_decision(&ids, true, WaitEvent::Wake).is_none(), "a cancelled instant question does not end the other wait");
}

#[test]
fn page_ready_takes_a_pending_show() {
    let mut w = WebviewReadyState::new();
    assert!(!w.ready && !w.pending_show);
    assert!(!notify_ready(&mut w));
    assert!(w.ready);
    w.pending_show = true;
    assert!(notify_ready(&mut w));
    assert!(!w.pending_show);
}

#[test]
fn closable_wait_leaves_dismissed_questions_out() {
    let mut st = AppState::new();
    let a = st.add_question_to_session("a", None, item("A", false));
    let b = st.add_question_to_session("a", None, item("B", false));
    let c = st.add_question_to_session("a", None, item("C", false));
    st.dismiss_questions(&[a.id.clone()], Some("gone"));
    st.apply_denied(&[b.id.clone()], "no");
    let ids = vec![a.id.clone(), b.id.clone(), c.id.clone()];
    let r = st.closable_wait_decision(&ids, true, false, ClosableWaitEvent::WindowClosed).unwrap();
    assert_eq!(r.denied.len(), 1);
    assert_eq!(r.denied[0].id, b.id);
    assert!(r.answered.is_empty());
    assert_eq!(r.pending, vec![c.id.clone()]);
    let direct = st.get_closable_answers(&ids);
    assert_eq!(direct.denied.iter().map(|d| d.id.clone()).collect::<Vec<_>>(), vec![b.id.clone()]);
    assert_eq!(st.get_answers(&ids).denied.len(), 2);
}
