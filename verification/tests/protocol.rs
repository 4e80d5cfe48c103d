// Requests from clients, actions of the user interface, and the text
// helpers they rest on.

use std::collections::HashMap;

use asqu::ipc::handlers::{dispatch, dispatch_at, handle_ask, handle_ask_at, handle_dismiss, handle_get, handle_open_ui, handle_shutdown, Dispatched};
use asqu::ipc::types::{AskItem, IpcRequest, IpcResponse};
use asqu::state::AppState;
use asqu::text::{chars_of, decimal_string, derive_display_name, lex_le_exec, list_contains, sort_strings, string_of};
use asqu::types::{default_true, GetAnswersResult, IpcToUiEvent, Priority, QuestionAnswer, QuestionStatus, SelectionDetail};
use asqu::ui::{dismiss_question, get_state, remove_session, submit_answer};

fn item(text: &str) -> AskItem {
    AskItem {
        text: text.to_string(),
        header: None,
        choices: None,
        allow_other: true,
        multi_select: false,
        instant: false,
        context: None,
        category: None,
        priority: Priority::Normal,
    }
}

fn answer() -> QuestionAnswer {
    let mut selections = HashMap::new();
    selections.insert("0".to_string(), SelectionDetail { confidence_bits: None, note: None });
    QuestionAnswer { selections, text: None }
}

#[test]
fn ask_one_question_then_read_it_pending() {
    let mut st = AppState::new();
    match handle_ask_at(&mut st, "s", Some("Chat".to_string()), vec![item("Q?")], 7) {
        IpcResponse::AskOk { ids, pending } => {
            assert_eq!(ids, vec!["1"]);
            assert_eq!(pending, 1);
        }
        other => panic!("unexpected {:?}", other),
    }
    match &st.take_events()[..] {
        [IpcToUiEvent::SessionAdded { session }, IpcToUiEvent::QuestionAdded { question }] => {
            assert_eq!(session.display_name, "Chat");
            assert_eq!(question.id, "1");
            assert_eq!(question.created_at, 7);
        }
        other => panic!("unexpected {:?}", other),
    }
    match handle_get(&st, "s", vec![]) {
        IpcResponse::AnswersOk { answered, denied, pending, timed_out, shutdown } => {
            assert!(answered.is_empty() && denied.is_empty());
            assert_eq!(pending, vec!["1"]);
            assert!(!timed_out && !shutdown);
        }
        other => panic!("unexpected {:?}", other),
    }
}

#[test]
fn ask_a_batch() {
    let mut st = AppState::new();
    match handle_ask(&mut st, "s", None, vec![item("A"), item("B")]) {
        IpcResponse::AskOk { ids, pending } => {
            assert_eq!(ids, vec!["1", "2"]);
            assert_eq!(pending, 2);
        }
        other => panic!("unexpected {:?}", other),
    }
    let events = st.take_events();
    match events.last() {
        Some(IpcToUiEvent::QuestionsBatch { questions }) => assert_eq!(questions.len(), 2),
        other => panic!("unexpected {:?}", other),
    }
    assert_eq!(st.session("s").unwrap().display_name, "s");
}

#[test]
fn dismiss_request_names_what_it_settled() {
    let mut st = AppState::new();
    handle_ask_at(&mut st, "s", None, vec![item("A"), item("B")], 1);
    st.apply_answer("1", answer());
    match handle_dismiss(&mut st, "s", vec![], Some("enough")) {
        IpcResponse::DismissOk { dismissed } => assert_eq!(dismissed, vec!["2"]),
        other => panic!("unexpected {:?}", other),
    }
    assert_eq!(st.question("2").unwrap().dismiss_reason.as_deref(), Some("enough"));
    assert_eq!(st.question("1").unwrap().status, QuestionStatus::Answered);
}

#[test]
fn open_and_shutdown_requests() {
    let mut st = AppState::new();
    handle_ask_at(&mut st, "s", None, vec![item("A")], 1);
    st.take_events();
    assert!(matches!(handle_open_ui(&mut st), IpcResponse::UiOk));
    assert!(matches!(st.take_events()[..], [IpcToUiEvent::ShowWindow]));
    assert!(matches!(handle_shutdown(&mut st), IpcResponse::Pong));
    let events = st.take_events();
    assert!(matches!(events[..], [IpcToUiEvent::QuestionsDismissed { .. }, IpcToUiEvent::Shutdown]));
    assert!(st.shutting_down());
    assert_eq!(st.get_pending_count(), 0);
}

#[test]
fn dispatch_routes_each_request() {
    let mut st = AppState::new();
    let asked = dispatch_at(
        &mut st,
        IpcRequest::Ask { session_id: "s".to_string(), display_name: None, questions: vec![item("A")] },
        3,
    );
    assert!(matches!(asked, Dispatched::Reply(IpcResponse::AskOk { .. })));
    match dispatch(&mut st, IpcRequest::Wait { session_id: "s".to_string(), ids: vec![], require_all: false, timeout_secs: Some(9) }) {
        Dispatched::Wait { ids, require_all, timeout_secs } => {
            assert_eq!(ids, vec!["1"]);
            assert!(!require_all);
            assert_eq!(timeout_secs, Some(9));
        }
        other => panic!("unexpected {:?}", other),
    }
    assert!(matches!(dispatch(&mut st, IpcRequest::Ping), Dispatched::Reply(IpcResponse::Pong)));
    match dispatch(&mut st, IpcRequest::Get { session_id: "other".to_string(), ids: vec![] }) {
        Dispatched::Reply(IpcResponse::AnswersOk { pending, .. }) => assert!(pending.is_empty()),
        other => panic!("unexpected {:?}", other),
    }
    match dispatch(&mut st, IpcRequest::Dismiss { session_id: "s".to_string(), ids: vec!["1".to_string()], reason: None }) {
        Dispatched::Reply(IpcResponse::DismissOk { dismissed }) => assert_eq!(dismissed, vec!["1"]),
        other => panic!("unexpected {:?}", other),
    }
}

#[test]
fn response_from_result() {
    let r = GetAnswersResult { answered: vec![], denied: vec![], pending: vec!["4".to_string()], timed_out: true, shutdown: false };
    match IpcResponse::from_answers_result(r) {
        IpcResponse::AnswersOk { pending, timed_out, shutdown, .. } => {
            assert_eq!(pending, vec!["4"]);
            assert!(timed_out && !shutdown);
        }
        other => panic!("unexpected {:?}", other),
    }
}

#[test]
fn user_interface_actions() {
    let mut st = AppState::new();
    handle_ask_at(&mut st, "a", None, vec![item("A"), item("B")], 1);
    handle_ask_at(&mut st, "b", None, vec![item("C")], 2);
    assert!(submit_answer(&mut st, "1".to_string(), answer()));
    assert!(!submit_answer(&mut st, "1".to_string(), answer()));
    assert_eq!(dismiss_question(&mut st, "2".to_string(), None), vec!["2"]);
    assert_eq!(st.question("2").unwrap().dismiss_reason.as_deref(), Some("dismissed by user"));
    assert!(dismiss_question(&mut st, "2".to_string(), Some("again".to_string())).is_empty());
    assert!(!st.has_session("a"), "a session with nothing pending is cleaned up");
    let snapshot = get_state(&st);
    assert_eq!(snapshot.sessions.iter().map(|s| s.id.as_str()).collect::<Vec<_>>(), vec!["b"]);
    assert_eq!(snapshot.questions.iter().map(|q| q.id.as_str()).collect::<Vec<_>>(), vec!["3"]);
    assert!(remove_session(&mut st, "b".to_string()));
    assert_eq!(st.question("3").unwrap().status, QuestionStatus::Dismissed);
    assert!(!remove_session(&mut st, "b".to_string()));
}

#[test]
fn state_lists_sessions_in_creation_order() {
    let mut st = AppState::new();
    handle_ask_at(&mut st, "z", None, vec![item("A")], 1);
    handle_ask_at(&mut st, "a", None, vec![item("B"), item("C")], 2);
    handle_ask_at(&mut st, "z", None, vec![item("D")], 3);
    let snapshot = get_state(&st);
    assert_eq!(snapshot.sessions.iter().map(|s| s.id.as_str()).collect::<Vec<_>>(), vec!["z", "a"]);
    assert_eq!(snapshot.questions.iter().map(|q| q.id.as_str()).collect::<Vec<_>>(), vec!["1", "4", "2", "3"]);
}

#[test]
fn decimal_text() {
    assert_eq!(decimal_string(0), "0");
    assert_eq!(decimal_string(7), "7");
    assert_eq!(decimal_string(1204), "1204");
    assert_eq!(decimal_string(u32::MAX), "4294967295");
}

#[test]
fn display_names() {
    assert_eq!(derive_display_name(""), "");
    assert_eq!(derive_display_name("123456789012"), "123456789012");
    assert_eq!(derive_display_name("1234567890123"), "67890123");
}

#[test]
fn string_helpers() {
    assert_eq!(chars_of("héllo"), vec!['h', 'é', 'l', 'l', 'o']);
    assert_eq!(string_of(&vec!['a', 'ß']), "aß");
    let list = vec!["x".to_string(), "y".to_string()];
    assert!(list_contains(&list, "y"));
    assert!(!list_contains(&list, "z"));
    assert!(lex_le_exec("ab", "abc"));
    assert!(lex_le_exec("ab", "ab"));
    assert!(!lex_le_exec("b", "abc"));
    assert!(lex_le_exec("", ""));
    assert!(default_true());
}

#[test]
fn sort_orders_by_characters() {
    let v = vec!["b".to_string(), "a10".to_string(), "a2".to_string(), "a".to_string(), "b".to_string()];
    assert_eq!(sort_strings(v), vec!["a", "a10", "a2", "b", "b"]);
}

#[test]
fn ask_reports_the_sessions_pending_count() {
    let mut st = AppState::new();
    handle_ask_at(&mut st, "a", None, vec![item("A1"), item("A2")], 1);
    st.apply_answer("1", answer());
    match handle_ask_at(&mut st, "b", None, vec![item("B1")], 2) {
        IpcResponse::AskOk { ids, pending } => {
            assert_eq!(ids, vec!["3"]);
            assert_eq!(pending, 1);
        }
        other => panic!("unexpected {:?}", other),
    }
    match handle_ask_at(&mut st, "a", None, vec![item("A3")], 3) {
        IpcResponse::AskOk { pending, .. } => assert_eq!(pending, 2),
        other => panic!("unexpected {:?}", other),
    }
    assert_eq!(st.get_session_pending_count("a"), 2);
    assert_eq!(st.get_pending_count(), 3);
}

#[test]
fn dismiss_without_ids_covers_what_the_session_lists() {
    let mut st = AppState::new();
    handle_ask_at(&mut st, "s", None, vec![item("A"), item("B")], 1);
    match handle_dismiss(&mut st, "s", vec![], None) {
        IpcResponse::DismissOk { dismissed } => assert_eq!(dismissed, vec!["1", "2"]),
        other => panic!("unexpected {:?}", other),
    }
    assert_eq!(st.get_session_pending_count("s"), 0);

    // A session removed without its questions, then asked in again, lists
    // only the new question; the older pending one is not reached.
    let mut st = AppState::new();
    handle_ask_at(&mut st, "s", None, vec![item("Old")], 1);
    assert!(st.remove_session("s"));
    handle_ask_at(&mut st, "s", None, vec![item("New")], 2);
    match handle_dismiss(&mut st, "s", vec![], None) {
        IpcResponse::DismissOk { dismissed } => assert_eq!(dismissed, vec!["2"]),
        other => panic!("unexpected {:?}", other),
    }
    assert_eq!(st.question("1").unwrap().status, QuestionStatus::Pending);
}
