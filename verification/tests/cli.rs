// The client: argument handling, the session id, the conversation title and
// the steps of a run.

use asqu::cli::{
    build_request, encode_cwd_to_project_dir, get_session_id, is_ai_title_type, is_white_space_char,
    last_ai_title, parse_ids, post_spawn_timeout_ms, project_dir_from_parts, run_cli, session_env_vars,
    trim_chars, ai_title_of_line, CliAction, CliArgs, CliEvent, CliState,
};
use asqu::ipc::types::{AskItem, IpcRequest};
use asqu::types::Priority;

fn strings(v: &[&str]) -> Vec<String> {
    v.iter().map(|s| s.to_string()).collect()
}

fn args(positionals: &[&str], any: bool, timeout: i64, reason: Option<&str>) -> CliArgs {
    CliArgs { positionals: strings(positionals), any, timeout, reason: reason.map(|r| r.to_string()) }
}

fn ask_item(text: &str) -> AskItem {
    AskItem {
        text: text.to_string(),
        header: None,
        choices: None,
        allow_other: true,
        multi_select: false,
        instant: false,
        context: None,
        category: None,
        priority: Priority::Normal,
    }
}

fn is_uuid_text(s: &str) -> bool {
    s.len() == 36
        && s.chars().enumerate().all(|(i, c)| {
            if i == 8 || i == 13 || i == 18 || i == 23 {
                c == '-'
            } else {
                c.is_ascii_digit() || ('a'..='f').contains(&c)
            }
        })
}

#[test]
fn parse_ids_splits_commas_and_trims() {
    let ids = parse_ids(&strings(&["1, 2,,3", " 4 ", ",", "5,"]));
    assert_eq!(ids, vec!["1", "2", "3", "4", "5"]);
}

#[test]
fn parse_ids_of_nothing_is_empty() {
    assert!(parse_ids(&Vec::new()).is_empty());
    assert!(parse_ids(&strings(&["", " , ,"])).is_empty());
}

#[test]
fn parse_ids_trims_unicode_white_space() {
    let ids = parse_ids(&strings(&["\u{3000}7\u{a0},\t8\n"]));
    assert_eq!(ids, vec!["7", "8"]);
}

#[test]
fn white_space_matches_std() {
    for c in [' ', '\t', '\n', '\r', '\u{b}', '\u{c}', '\u{85}', '\u{a0}', '\u{2000}', '\u{2028}', '\u{3000}', 'a', '0', ',', '\u{200b}'] {
        assert_eq!(is_white_space_char(c), c.is_whitespace(), "char {:?}", c);
    }
}

#[test]
fn trim_chars_keeps_inner_space() {
    let t = trim_chars(&"  a b  ".chars().collect());
    assert_eq!(t.into_iter().collect::<String>(), "a b");
    assert!(trim_chars(&"   ".chars().collect()).is_empty());
}

#[test]
fn build_request_for_each_command() {
    let a = args(&["1,2", "3"], false, 30, Some("done"));
    match build_request("wait", &a, "s", None, None) {
        Some(IpcRequest::Wait { session_id, ids, require_all, timeout_secs }) => {
            assert_eq!(session_id, "s");
            assert_eq!(ids, vec!["1", "2", "3"]);
            assert!(require_all);
            assert_eq!(timeout_secs, Some(30));
        }
        other => panic!("unexpected {:?}", other),
    }
    match build_request("get", &a, "s", None, None) {
        Some(IpcRequest::Get { session_id, ids }) => {
            assert_eq!(session_id, "s");
            assert_eq!(ids, vec!["1", "2", "3"]);
        }
        other => panic!("unexpected {:?}", other),
    }
    match build_request("dismiss", &a, "s", None, None) {
        Some(IpcRequest::Dismiss { ids, reason, .. }) => {
            assert_eq!(ids, vec!["1", "2", "3"]);
            assert_eq!(reason.as_deref(), Some("done"));
        }
        other => panic!("unexpected {:?}", other),
    }
    assert!(matches!(build_request("open", &a, "s", None, None), Some(IpcRequest::OpenUi)));
    assert!(matches!(build_request("shutdown", &a, "s", None, None), Some(IpcRequest::Shutdown)));
    assert!(build_request("frobnicate", &a, "s", None, None).is_none());
}

#[test]
fn build_request_wait_any_without_timeout() {
    let a = args(&["9"], true, 0, None);
    match build_request("wait", &a, "s", None, None) {
        Some(IpcRequest::Wait { require_all, timeout_secs, .. }) => {
            assert!(!require_all);
            assert_eq!(timeout_secs, None);
        }
        other => panic!("unexpected {:?}", other),
    }
    let negative = args(&["9"], false, -5, None);
    match build_request("wait", &negative, "s", None, None) {
        Some(IpcRequest::Wait { timeout_secs, .. }) => assert_eq!(timeout_secs, None),
        other => panic!("unexpected {:?}", other),
    }
}

#[test]
fn build_request_ask_needs_questions() {
    let a = args(&[], false, 0, None);
    assert!(build_request("ask", &a, "s", None, Some("t".to_string())).is_none());
    match build_request("ask", &a, "s", Some(vec![ask_item("Q?")]), Some("t".to_string())) {
        Some(IpcRequest::Ask { session_id, display_name, questions }) => {
            assert_eq!(session_id, "s");
            assert_eq!(display_name.as_deref(), Some("t"));
            assert_eq!(questions.len(), 1);
            assert_eq!(questions[0].text, "Q?");
        }
        other => panic!("unexpected {:?}", other),
    }
}

#[test]
fn post_spawn_timeouts() {
    assert_eq!(post_spawn_timeout_ms("wait"), 300_000);
    assert_eq!(post_spawn_timeout_ms("get"), 15_000);
    assert_eq!(post_spawn_timeout_ms("ask"), 15_000);
}

#[test]
fn session_env_var_order() {
    assert_eq!(session_env_vars(), vec!["CLAUDE_SESSION_ID", "CLAUDE_CODE_SESSION_ID", "ANTHROPIC_SESSION_ID"]);
}

#[test]
fn session_id_explicit_wins() {
    let env = vec![Some("env".to_string()), None, None];
    assert_eq!(get_session_id(Some("given".to_string()), &env, [7u8; 16]), "given");
}

#[test]
fn session_id_first_nonempty_env_value() {
    let env = vec![Some(String::new()), None, Some("third".to_string())];
    assert_eq!(get_session_id(None, &env, [7u8; 16]), "third");
    let env = vec![None, Some("second".to_string()), Some("third".to_string())];
    assert_eq!(get_session_id(None, &env, [7u8; 16]), "second");
}

#[test]
fn session_id_falls_back_to_a_uuid_of_the_random_bytes() {
    let env = vec![None, Some(String::new()), None];
    let zero = get_session_id(None, &env, [0u8; 16]);
    assert_eq!(zero, "00000000-0000-4000-8000-000000000000");
    let bytes = [0x12, 0x34, 0x56, 0x78, 0x9a, 0xbc, 0xde, 0xf0, 0xff, 0xee, 0xdd, 0xcc, 0xbb, 0xaa, 0x99, 0x88];
    let id = get_session_id(None, &env, bytes);
    assert_eq!(id, "12345678-9abc-4ef0-bfee-ddccbbaa9988");
    assert!(is_uuid_text(&id), "{}", id);
    assert!(is_uuid_text(&get_session_id(None, &env, [0xffu8; 16])));
}

#[test]
fn ai_title_type_check() {
    assert!(is_ai_title_type(&Some("ai-title".to_string())));
    assert!(!is_ai_title_type(&Some("user".to_string())));
    assert!(!is_ai_title_type(&None));
}

#[test]
fn ai_title_of_one_line() {
    assert_eq!(ai_title_of_line(r#"{"type":"ai-title","aiTitle":"Plan"}"#).as_deref(), Some("Plan"));
    assert_eq!(ai_title_of_line(r#"{"type":"user","aiTitle":"Plan"}"#), None);
    assert_eq!(ai_title_of_line(r#"{"type":"ai-title","aiTitle":5}"#), None);
    assert_eq!(ai_title_of_line("not json"), None);
    assert_eq!(ai_title_of_line(r#"["ai-title"]"#), None);
}

#[test]
fn last_ai_title_takes_the_last_one() {
    let content = [
        r#"{"type":"ai-title","aiTitle":"First"}"#,
        "\r\n",
        r#"{"type":"message","text":"hi"}"#,
        "\n",
        "garbage\n",
        r#"{"type":"ai-title","aiTitle":"Second"}"#,
        "\r\n",
        r#"{"type":"message"}"#,
        "\n",
    ]
    .join("");
    let content = content.as_str();
    assert_eq!(last_ai_title(content).as_deref(), Some("Second"));
}

#[test]
fn last_ai_title_without_final_newline() {
    let content = [r#"{"type":"message"}"#, "\n", r#"{"type":"ai-title","aiTitle":"Only"}"#].join("");
    let content = content.as_str();
    assert_eq!(last_ai_title(content).as_deref(), Some("Only"));
    assert_eq!(last_ai_title(""), None);
    assert_eq!(last_ai_title("\n\n"), None);
}

#[test]
fn encode_windows_path() {
    assert_eq!(encode_cwd_to_project_dir("C:\\Users\\me\\.x y").as_deref(), Some("c--Users-me--x-y"));
    assert_eq!(encode_cwd_to_project_dir("D:/work/proj").as_deref(), Some("d--work-proj"));
}

#[test]
fn encode_unix_path() {
    assert_eq!(encode_cwd_to_project_dir("/home/me/.config/my app").as_deref(), Some("home-me--config-my-app"));
    assert_eq!(encode_cwd_to_project_dir("/"), None);
    assert_eq!(encode_cwd_to_project_dir(""), None);
}

#[test]
fn project_dir_parts() {
    assert_eq!(project_dir_from_parts(Some("c"), "/a/b").as_deref(), Some("c--a-b"));
    assert_eq!(project_dir_from_parts(None, "/a/.b c").as_deref(), Some("a--b-c"));
    assert_eq!(project_dir_from_parts(None, "///"), None);
}

#[test]
fn run_parse_failure_ends_with_message() {
    let (st, act) = run_cli(CliState::Start, CliEvent::ParseFailed { message: "bad flag".to_string() });
    assert!(matches!(st, CliState::Done));
    match act {
        CliAction::Fail { message: Some(m) } => assert_eq!(m, "asqu: parse error: bad flag"),
        other => panic!("unexpected {:?}", other),
    }
}

#[test]
fn run_unknown_command_prints_usage() {
    let (st, act) = run_cli(CliState::Start, CliEvent::UnknownCommand);
    assert!(matches!(st, CliState::Done));
    match act {
        CliAction::Fail { message: Some(m) } => {
            assert_eq!(m, "asqu: unknown command. Usage: asqu <ask|wait|get|dismiss|open> [args]")
        }
        other => panic!("unexpected {:?}", other),
    }
}

#[test]
fn run_ask_reads_title_then_sends() {
    let ev = CliEvent::Parsed {
        command: "ask".to_string(),
        args: args(&[], false, 0, None),
        explicit_session: Some("s1".to_string()),
        env_values: vec![None, None, None],
        random_bytes: [1u8; 16],
        ask_items: Ok(vec![ask_item("Q?")]),
    };
    let (st, act) = run_cli(CliState::Start, ev);
    match act {
        CliAction::ReadTitle { session_id } => assert_eq!(session_id, "s1"),
        other => panic!("unexpected {:?}", other),
    }
    let (st, act) = run_cli(st, CliEvent::Title { display_name: Some("My chat".to_string()) });
    match act {
        CliAction::Send { request: IpcRequest::Ask { session_id, display_name, questions }, timeout_ms, retry_ms } => {
            assert_eq!(session_id, "s1");
            assert_eq!(display_name.as_deref(), Some("My chat"));
            assert_eq!(questions.len(), 1);
            assert_eq!(timeout_ms, 500);
            assert_eq!(retry_ms, 50);
        }
        other => panic!("unexpected {:?}", other),
    }
    let (st, act) = run_cli(st, CliEvent::Unreachable { message: "refused".to_string() });
    match act {
        CliAction::SpawnAndResend { timeout_ms, retry_ms } => {
            assert_eq!(timeout_ms, 15_000);
            assert_eq!(retry_ms, 50);
        }
        other => panic!("unexpected {:?}", other),
    }
    let (st, act) = run_cli(st, CliEvent::Replied { response: "{\"status\":\"ask_ok\"}".to_string() });
    assert!(matches!(st, CliState::Done));
    match act {
        CliAction::Print { output } => assert_eq!(output, "{\"status\":\"ask_ok\"}"),
        other => panic!("unexpected {:?}", other),
    }
}

#[test]
fn run_ask_with_bad_argument() {
    let parsed = |items| CliEvent::Parsed {
        command: "ask".to_string(),
        args: args(&[], false, 0, None),
        explicit_session: Some("s1".to_string()),
        env_values: vec![],
        random_bytes: [1u8; 16],
        ask_items: items,
    };
    match run_cli(CliState::Start, parsed(Err(Some("expected value".to_string())))).1 {
        CliAction::Fail { message: Some(m) } => {
            assert_eq!(m, "asqu ask: argument must be a JSON array: expected value")
        }
        other => panic!("unexpected {:?}", other),
    }
    match run_cli(CliState::Start, parsed(Err(None))).1 {
        CliAction::Fail { message: Some(m) } => assert!(m.starts_with("asqu ask: argument must be a JSON array (e.g.")),
        other => panic!("unexpected {:?}", other),
    }
}

#[test]
fn run_wait_gets_long_second_attempt_then_fails() {
    let ev = CliEvent::Parsed {
        command: "wait".to_string(),
        args: args(&["1"], false, 0, None),
        explicit_session: None,
        env_values: vec![Some("envsid".to_string()), None, None],
        random_bytes: [1u8; 16],
        ask_items: Err(None),
    };
    let (st, act) = run_cli(CliState::Start, ev);
    match act {
        CliAction::Send { request: IpcRequest::Wait { session_id, ids, require_all, timeout_secs }, timeout_ms, .. } => {
            assert_eq!(session_id, "envsid");
            assert_eq!(ids, vec!["1"]);
            assert!(require_all);
            assert_eq!(timeout_secs, None);
            assert_eq!(timeout_ms, 500);
        }
        other => panic!("unexpected {:?}", other),
    }
    let (st, act) = run_cli(st, CliEvent::Unreachable { message: "x".to_string() });
    match act {
        CliAction::SpawnAndResend { timeout_ms, .. } => assert_eq!(timeout_ms, 300_000),
        other => panic!("unexpected {:?}", other),
    }
    let (st, act) = run_cli(st, CliEvent::Unreachable { message: "timed out".to_string() });
    assert!(matches!(st, CliState::Done));
    match act {
        CliAction::Fail { message: Some(m) } => assert_eq!(m, "asqu: IPC error: timed out"),
        other => panic!("unexpected {:?}", other),
    }
}

#[test]
fn run_unknown_parsed_command() {
    let ev = CliEvent::Parsed {
        command: "frob".to_string(),
        args: args(&[], false, 0, None),
        explicit_session: Some("s".to_string()),
        env_values: vec![],
        random_bytes: [1u8; 16],
        ask_items: Err(None),
    };
    match run_cli(CliState::Start, ev).1 {
        CliAction::Fail { message: Some(m) } => assert_eq!(m, "asqu: unknown command: frob"),
        other => panic!("unexpected {:?}", other),
    }
}

#[test]
fn run_serialization_failure_and_stray_events() {
    let (st, act) = run_cli(
        CliState::FirstAttempt { command: "get".to_string() },
        CliEvent::SerializeFailed { message: "boom".to_string() },
    );
    assert!(matches!(st, CliState::Done));
    match act {
        CliAction::Fail { message: Some(m) } => assert_eq!(m, "asqu: serialization error: boom"),
        other => panic!("unexpected {:?}", other),
    }
    let (st, act) = run_cli(CliState::Done, CliEvent::UnknownCommand);
    assert!(matches!(st, CliState::Done));
    assert!(matches!(act, CliAction::Fail { message: None }));
}
