use axon::daemon::cursor::SessionCursor;
use axon::daemon::entitlement::{me_status_error, Me};
use axon::daemon::policy::{confine, is_under, jail, parent_path, relative_parts};
use axon::daemon::tool_render::{detail, head_lines, one_line, preview, unwrap_stdout, ToolArgs};
use axon::daemon::wire::{for_turn, parse_frame, UiEvent};
use axon::domain::money::Money;

#[test]
fn for_turn_filters_foreign_passes_bare() {
    assert!(!for_turn(&Some("old".into()), "cur"));
    assert!(for_turn(&Some("cur".into()), "cur"));
    assert!(for_turn(&None, "cur"));
}

#[test]
fn ui_event_carries_fields() {
    let e = UiEvent::Tool {
        tool: "bash".into(),
        ok: true,
        detail: "ls".into(),
        preview: "a".into(),
    };
    match e {
        UiEvent::Tool { tool, ok, .. } => {
            assert_eq!(tool, "bash");
            assert!(ok);
        }
        _ => panic!("wrong variant"),
    }
}

#[test]
fn cursor_is_monotonic_per_session() {
    let mut c = SessionCursor::new();
    assert_eq!(c.get("s1"), None);
    c.set("s1", 5);
    assert_eq!(c.get("s1"), Some(5));
    c.set("s1", 3);
    assert_eq!(c.get("s1"), Some(5));
    c.set("s1", 9);
    assert_eq!(c.get("s1"), Some(9));
    c.set("s2", 0);
    assert_eq!(c.get("s2"), Some(0));
    assert_eq!(c.get("s1"), Some(9));
}

#[test]
fn me_status_mapping() {
    assert_eq!(me_status_error(200), None);
    assert_eq!(
        me_status_error(401),
        Some("인증 만료 — 다시 로그인하세요.".to_string())
    );
    assert_eq!(me_status_error(503), Some("/me 오류 (503)".to_string()));
    let me = Me { org: "o".into(), plan: "pro".into(), features: vec!["x".into()] };
    assert_eq!(me.features.len(), 1);
}

#[test]
fn rejects_parent_traversal() {
    assert_eq!(
        jail("/", "../escape.txt"),
        Err("'..' 경로 거부: ../escape.txt".to_string())
    );
    assert!(jail("/", "sub/../../escape.txt").is_err());
}

#[test]
fn rejects_absolute_path() {
    assert_eq!(
        jail("/", "/etc/passwd"),
        Err("절대경로 거부: /etc/passwd".to_string())
    );
}

#[test]
fn accepts_inside_workspace() {
    assert_eq!(jail("/", "."), Ok("/".to_string()));
    assert_eq!(jail("/", ""), Ok("/".to_string()));
    assert_eq!(jail("/", "y.txt"), Ok("/y.txt".to_string()));
    assert_eq!(jail("/", "./y.txt"), Ok("/y.txt".to_string()));
    assert_eq!(jail("/", "tmp/x.txt"), Ok("/tmp/x.txt".to_string()));
    assert_eq!(jail("/", "./tmp/x.txt"), Ok("/tmp/x.txt".to_string()));
    assert_eq!(jail("/tmp", "."), Ok("/tmp".to_string()));
}

#[test]
fn windows_paths_are_read_with_both_separators() {
    let w = '\\';
    assert_eq!(
        relative_parts("a\\b/c", w),
        Ok(vec!["a".to_string(), "b".to_string(), "c".to_string()])
    );
    assert_eq!(relative_parts("..\\x", w), Err("'..' 경로 거부: ..\\x".to_string()));
    assert_eq!(relative_parts("C:\\x", w), Err("절대경로 거부: C:\\x".to_string()));
    assert_eq!(relative_parts("\\\\srv\\share\\x", w), Err("절대경로 거부: \\\\srv\\share\\x".to_string()));
    assert_eq!(relative_parts("C:x", w), Err("허용되지 않는 경로 컴포넌트: C:x".to_string()));
    assert_eq!(relative_parts("\\x", w), Err("허용되지 않는 경로 컴포넌트: \\x".to_string()));
    // On Unix a backslash is an ordinary character of a name.
    assert_eq!(relative_parts("a\\b", '/'), Ok(vec!["a\\b".to_string()]));
    assert!(is_under("\\\\?\\C:\\ws\\sub", "\\\\?\\C:\\ws", w));
    assert!(!is_under("\\\\?\\C:\\other", "\\\\?\\C:\\ws", w));
    assert_eq!(
        confine("\\\\?\\C:\\ws", "\\\\?\\C:\\ws\\sub", "x.txt", "sub/x.txt", w),
        Ok("\\\\?\\C:\\ws\\sub\\x.txt".to_string())
    );
}

#[test]
fn missing_parent_is_refused() {
    let r = jail("/", "no_such_dir_for_axon_tests/x.txt");
    assert!(r.unwrap_err().starts_with("상위 디렉터리 없음(/no_such_dir_for_axon_tests): "));
}

#[test]
fn lexical_parts_drop_dots_and_empty() {
    assert_eq!(
        relative_parts("./a//b/./c", '/'),
        Ok(vec!["a".to_string(), "b".to_string(), "c".to_string()])
    );
    assert_eq!(relative_parts("...", '/'), Ok(vec!["...".to_string()]));
}

#[test]
fn parent_path_joins_all_but_the_file() {
    let parts = vec!["a".to_string(), "b".to_string(), "x.txt".to_string()];
    assert_eq!(parent_path("/ws", &parts, 2, '/'), "/ws/a/b");
    assert_eq!(parent_path("/", &parts, 1, '/'), "/a");
    assert_eq!(parent_path("C:\\ws", &parts, 2, '\\'), "C:\\ws\\a\\b");
}

#[test]
fn confine_checks_components() {
    assert!(is_under("/ws/sub", "/ws", '/'));
    assert!(!is_under("/wsx", "/ws", '/'));
    assert!(!is_under("/other", "/ws", '/'));
    assert_eq!(confine("/ws", "/ws/sub", "x.txt", "sub/x.txt", '/'), Ok("/ws/sub/x.txt".to_string()));
    assert_eq!(
        confine("/ws", "/etc", "x.txt", "link/x.txt", '/'),
        Err("워크스페이스 밖 거부: link/x.txt".to_string())
    );
}

#[test]
fn one_line_flattens_and_cuts() {
    assert_eq!(one_line("  a\nb\r\nc  ", 120), "a b  c");
    assert_eq!(one_line("가나다라마", 3), "가나다…");
    assert_eq!(one_line("abc", 3), "abc");
}

#[test]
fn head_lines_counts_the_rest() {
    assert_eq!(head_lines("a\nb\nc\nd\n", 2), "a\nb\n…(2줄 더)");
    assert_eq!(head_lines("a\r\nb", 3), "a\nb\n");
}

#[test]
fn preview_unwraps_stdout_and_picks_length() {
    assert_eq!(unwrap_stdout(r#"{"stdout":"hi\nthere"}"#), "hi\nthere");
    assert_eq!(unwrap_stdout("plain"), "plain");
    assert_eq!(preview("bash", r#"{"stdout":"hi\nthere"}"#), "hi\nthere\n");
    assert_eq!(preview("bash", "1\n2\n3\n4\n5"), "1\n2\n3\n…(2줄 더)");
    assert_eq!(preview("read_file", "1\n2\n3\n4\n5"), "1\n2\n3\n4\n5\n");
    assert_eq!(preview("bash", "   "), "");
    assert_eq!(preview("bash", " one line "), "one line");
}

#[test]
fn detail_prefers_tool_argument() {
    let args = ToolArgs {
        members: vec![
            ("url".to_string(), Some("http://x".to_string())),
            ("command".to_string(), Some("ls -la".to_string())),
        ],
    };
    assert_eq!(detail("bash", &args), "ls -la");
    assert_eq!(detail("fetch", &args), "http://x");
    assert_eq!(detail("unknown", &args), "http://x");
    let odd = ToolArgs { members: vec![("path".to_string(), None)] };
    assert_eq!(detail("read_file", &odd), "");
    let none = ToolArgs { members: vec![] };
    assert_eq!(detail("bash", &none), "");
}

#[test]
fn parses_wrapped_and_bare() {
    let wrapped = r#"{"seq":5,"request_id":"r","payload":{"type":"chunk","content":"안녕"}}"#;
    let bare = r#"{"type":"error","message":"x"}"#;
    let w = parse_frame(wrapped).unwrap();
    assert_eq!(w.seq, Some(5));
    assert_eq!(w.request_id.as_deref(), Some("r"));
    assert_eq!(w.payload.kind, "chunk");
    assert_eq!(w.payload.content, "안녕"); // multi-byte text kept
    let b = parse_frame(bare).unwrap();
    assert_eq!(b.seq, None);
    assert_eq!(b.request_id, None);
    assert_eq!(b.payload.kind, "error");
}

#[test]
fn garbage_is_none() {
    assert!(parse_frame(":keep-alive").is_none());
    assert!(parse_frame("").is_none());
}

#[test]
fn frame_payload_fields_flags_and_args() {
    let text = r#"{"seq":7,"payload":{"type":"tool_execute","call_id":"c1","tool":"read_file","success":true,"args":{"path":"a.txt","n":3}}}"#;
    let f = parse_frame(text).unwrap();
    assert_eq!(f.seq, Some(7));
    assert_eq!(f.request_id, None);
    assert_eq!(f.payload.kind, "tool_execute");
    assert_eq!(f.payload.call_id, "c1");
    assert_eq!(f.payload.tool, "read_file");
    assert_eq!(f.payload.session_id, "");
    assert_eq!(f.payload.success, Some(true));
    assert_eq!(
        f.payload.args.members,
        vec![("n".to_string(), None), ("path".to_string(), Some("a.txt".to_string()))]
    );
    assert!(f.payload_text.contains("\"path\":\"a.txt\""));
    // A bare frame ignores seq and request_id, and is its own payload.
    let b = parse_frame(r#"{"seq":3,"request_id":"r","type":"done"}"#).unwrap();
    assert_eq!(b.seq, None);
    assert_eq!(b.request_id, None);
    assert_eq!(b.payload.kind, "done");
    // A JSON value that is no object is a bare frame with empty fields.
    let n = parse_frame("5").unwrap();
    assert_eq!(n.payload.kind, "");
    assert_eq!(n.payload.success, None);
    assert!(n.payload.args.members.is_empty());
}

#[test]
fn money_comma_format_parses_back() {
    for raw in ["-1234567.50", "0.00", "455905980000000", "-0.5", "12"] {
        let m = Money::parse(raw);
        assert_eq!(Money::parse(&m.fmt_comma()).fmt_comma(), m.fmt_comma());
        assert_eq!(Money::parse(&m.fmt_comma()).0, m.0);
    }
}
