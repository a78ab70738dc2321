use axon::daemon::approvals::Approvals;
use axon::daemon::audit::audit_line;
use axon::daemon::auth::{browser_allowed, login_timeout, poll_step, start_fields, PollStep};
use axon::daemon::client::session_url;
use axon::daemon::config::{expiry_at, normalize_daemon_url, pick_bearer, ping_outcome};
use axon::daemon::entitlement::token_claims_bytes;
use axon::daemon::exec::{blank_command, cap_output, shell_result, MAX_OUT};
use axon::daemon::fetch_tools::{company_answer, company_query, load_answer, load_request, LoadRequest};
use axon::daemon::fin_context::FinContext;
use axon::daemon::fs_tools::{edit_text, empty_old, written_text};
use axon::daemon::tool_render::ToolArgs;
use axon::daemon::tools::{route_tool, ToolRoute};
use axon::daemon::turn::{route, shell_refusal, tool_done, Payload, SseDecoder, Step};
use axon::daemon::wire::UiEvent;
use axon::daemon::workpaper::{no_target, render_footing};
use axon::dart::corp::Corp;
use axon::domain::fact::Fact;
use axon::domain::footing::FootingCheck;
use axon::domain::money::Money;
use axon::domain::statement::Statement;

#[test]
fn insert_take_clear() {
    let a: Approvals<std::sync::mpsc::Sender<bool>> = Approvals::new();
    let mut a = a;
    let (tx, _rx) = std::sync::mpsc::channel::<bool>();
    a.insert("c1".into(), tx);
    assert!(a.take("c1").is_some());
    assert!(a.take("c1").is_none());
    let (tx2, _rx2) = std::sync::mpsc::channel::<bool>();
    a.insert("c2".into(), tx2);
    a.clear();
    assert!(a.take("c2").is_none());
}

#[test]
fn approvals_keep_other_ids() {
    let mut a: Approvals<u32> = Approvals::new();
    a.insert("a".into(), 1);
    a.insert("b".into(), 2);
    a.insert("a".into(), 3);
    assert_eq!(a.take("a"), Some(3));
    assert_eq!(a.take("b"), Some(2));
    assert_eq!(a.take("a"), None);
}

#[test]
fn empty_rejected() {
    assert_eq!(blank_command("   ").as_deref(), Some("빈 명령"));
    assert_eq!(blank_command("echo usix"), None);
}

#[test]
fn shell_output_joins_streams() {
    assert_eq!(shell_result(b"usix\n", b"", true), ("usix\n".to_string(), true));
    assert_eq!(shell_result(b"out", b"err", false), ("out\nerr".to_string(), false));
    assert_eq!(shell_result(b"", b"err", false), ("err".to_string(), false));
}

#[test]
fn output_is_cut_on_char_boundary() {
    let short = "가".repeat(10);
    assert_eq!(cap_output(short.clone()), short);
    // 21846 three-byte characters: 65538 bytes, past the limit.
    let long = "가".repeat(21846);
    let cut = cap_output(long);
    assert!(cut.ends_with("\n…(절단됨)"));
    let kept = cut.trim_end_matches("\n…(절단됨)");
    assert_eq!(kept.len(), 65535);
    assert!(kept.len() <= MAX_OUT);
    assert_eq!(kept.chars().count(), 21845);
    let exact = "a".repeat(MAX_OUT);
    assert_eq!(cap_output(exact.clone()), exact);
}

#[test]
fn edit_replaces_unique_occurrence() {
    assert_eq!(edit_text("a b c", "b", "X"), Ok("a X c".to_string()));
    assert_eq!(edit_text("abc", "z", "X"), Err("old_string 을 찾지 못했습니다.".to_string()));
    assert_eq!(edit_text("aXbXc", "X", "Y"), Err("old_string 이 2곳에 중복 — 고유해야 합니다.".to_string()));
    assert_eq!(edit_text("aaaa", "aa", "b"), Err("old_string 이 2곳에 중복 — 고유해야 합니다.".to_string()));
    assert_eq!(edit_text("aaa", "aa", "b"), Ok("ba".to_string()));
    assert_eq!(edit_text("abc", "", "b"), Err("old_string 이 비어있습니다.".to_string()));
    assert_eq!(empty_old("").as_deref(), Some("old_string 이 비어있습니다."));
    assert_eq!(empty_old("x"), None);
}

#[test]
fn write_reports_bytes() {
    assert_eq!(written_text("가나"), "6바이트 기록 완료");
    assert_eq!(written_text(""), "0바이트 기록 완료");
}

#[test]
fn tools_route_by_name_and_workspace() {
    assert!(matches!(route_tool("read_file", true), Ok(ToolRoute::ReadFile)));
    assert!(matches!(route_tool("load_financials", false), Ok(ToolRoute::LoadFinancials)));
    assert_eq!(
        route_tool("edit_file", false).err().unwrap(),
        "워크스페이스 미설정 — 폴더를 먼저 지정하세요(설정)."
    );
    assert_eq!(
        route_tool("bash", true).err().unwrap(),
        "도구 'bash' 는 이 클라이언트에서 지원하지 않습니다."
    );
}

#[test]
fn audit_line_is_one_line() {
    assert_eq!(audit_line(1700000000, "ls\n-la", true), "1700000000\tok\tls -la");
    assert_eq!(audit_line(5, "rm x", false), "5\tfail\trm x");
}

fn corp(code: &str, name: &str, stock: &str) -> Corp {
    Corp { code: code.to_string(), name: name.to_string(), stock: stock.to_string() }
}

#[test]
fn company_search_answers() {
    assert_eq!(company_query(Some("  삼성 ")), Ok("삼성".to_string()));
    assert_eq!(company_query(None), Err("query(회사명)가 비었습니다.".to_string()));
    let found = Ok(vec![corp("00126380", "삼성전자", "005930"), corp("00000001", "삼성기계", " ")]);
    assert_eq!(
        company_answer("삼성", &found),
        (
            "회사 검색 '삼성' → 2건:\n00126380 · 삼성전자 (005930)\n00000001 · 삼성기계 (비상장)".to_string(),
            true
        )
    );
    assert_eq!(company_answer("없음", &Ok(vec![])), ("'없음' 검색 결과 없음.".to_string(), true));
    assert_eq!(
        company_answer("x", &Err("boom".to_string())),
        ("회사 검색 실패: boom".to_string(), false)
    );
    let many: Vec<Corp> = (0..25).map(|i| corp(&format!("{i}"), "가", "1")).collect();
    let (text, ok) = company_answer("가", &Ok(many));
    assert!(ok);
    assert!(text.starts_with("회사 검색 '가' → 25건:"));
    assert_eq!(text.lines().count(), 21);
}

fn request() -> LoadRequest {
    load_request(Some(" 00126380 "), Some(2021), Some(2023), None, Some("11011".into()), Some("삼성전자"))
        .ok()
        .unwrap()
}

#[test]
fn load_request_validates() {
    let q = request();
    assert_eq!(q.corp_code, "00126380");
    assert_eq!((q.start, q.end), (2021, 2023));
    assert_eq!(q.reprt.as_deref(), Some("11011"));
    assert_eq!(
        load_request(Some(" "), Some(1), Some(2), None, None, None).err().unwrap(),
        "corp_code 가 필요합니다 (search_company 로 먼저 찾으세요)."
    );
    assert_eq!(
        load_request(Some("1"), None, Some(2), None, None, None).err().unwrap(),
        "start·end(연도)가 필요합니다."
    );
}

#[test]
fn load_answer_reports_outcome() {
    let q = request();
    let a = load_answer(&q, Err("timeout".into()));
    assert!(!a.ok && a.table.is_none() && a.target.is_none());
    assert_eq!(a.message, "재무제표 조회 실패: timeout");
    let a = load_answer(&q, Ok(vec![]));
    assert!(a.ok && a.table.is_none());
    assert_eq!(a.message, "[00126380 2021~2023] 조회된 데이터가 없습니다.");
    let facts = vec![
        Fact {
            statement: Statement::Bs,
            concept_id: String::new(),
            account_nm: "자산총계".into(),
            period: 2023,
            value: Money::parse("10"),
        },
        Fact {
            statement: Statement::Is,
            concept_id: String::new(),
            account_nm: "매출액".into(),
            period: 2023,
            value: Money::parse("5"),
        },
    ];
    let a = load_answer(&q, Ok(facts));
    assert!(a.ok);
    assert_eq!(a.table.unwrap().rows.len(), 2);
    let t = a.target.unwrap();
    assert_eq!((t.corp_code.as_str(), t.start, t.end), ("00126380", 2021, 2023));
    assert_eq!(
        a.message,
        "[삼성전자(00126380) 2021~2023] 재무제표 2개 계정 로드 완료 — 화면에 표시했고 분석 대상으로 설정했습니다."
    );
}

#[test]
fn fin_context_set_get_clear() {
    let mut c = FinContext::new();
    assert!(c.get().is_none());
    c.set("00126380".into(), 2021, 2023, None, None);
    assert_eq!(c.get().unwrap().corp_code, "00126380");
    c.clear();
    assert!(c.get().is_none());
}

#[test]
fn footing_report_lists_checks() {
    let q = axon::daemon::fin_context::FinQuery {
        corp_code: "0001".into(),
        start: 2022,
        end: 2023,
        basis: None,
        reprt: None,
    };
    let checks = vec![
        FootingCheck {
            name: "자산=부채+자본",
            period: 2023,
            computed: Money::parse("100"),
            expected: Money::parse("100"),
            ok: true,
        },
        FootingCheck {
            name: "자산=부채+자본",
            period: 2022,
            computed: Money::parse("90"),
            expected: Money::parse("100"),
            ok: false,
        },
    ];
    assert_eq!(
        render_footing(&checks, &q),
        "[합계검증 · 0001 · 2022~2023]\n2023 · 자산=부채+자본 → 일치\n2022 · 자산=부채+자본 → 불일치 (차이 -10)\n\n검증 2건 중 1건 일치."
    );
    assert_eq!(
        render_footing(&[], &q),
        "[합계검증 · 0001 · 2022~2023]\n검증 가능한 항목이 없습니다 (필요 계정 누락)."
    );
    assert!(no_target().starts_with("분석 대상이 없습니다"));
}

fn payload(kind: &str) -> Payload {
    Payload {
        kind: kind.into(),
        session_id: "s1".into(),
        content: "안녕".into(),
        tool: "read_file".into(),
        output: "body".into(),
        call_id: "c9".into(),
        reason: "why".into(),
        message: "bad".into(),
        success: Some(false),
        args: ToolArgs { members: vec![("path".into(), Some("a.txt".into()))] },
    }
}

#[test]
fn route_maps_event_types() {
    assert!(matches!(route(&payload("chunk")), Step::Show(UiEvent::Chunk { content }) if content == "안녕"));
    assert!(matches!(route(&payload("welcome")), Step::Show(UiEvent::Welcome { session_id }) if session_id == "s1"));
    assert!(matches!(route(&payload("done")), Step::Finish(UiEvent::Done)));
    assert!(matches!(route(&payload("error")), Step::Finish(UiEvent::Error { message }) if message == "bad"));
    assert!(matches!(route(&payload("tool_execute")), Step::Execute { call_id, tool, .. } if call_id == "c9" && tool == "read_file"));
    assert!(matches!(route(&payload("permission_request")), Step::Decline { call_id, .. } if call_id == "c9"));
    assert!(matches!(route(&payload("tool_result")), Step::Show(UiEvent::ToolResult { ok: false, .. })));
    assert!(matches!(route(&payload("heartbeat")), Step::Skip));
}

#[test]
fn tool_done_and_refusals() {
    assert!(matches!(tool_done("read_file", true, "a.txt", "x"), UiEvent::Tool { ok: true, .. }));
    assert_eq!(
        shell_refusal(false, true).as_deref(),
        Some("셸 실행 비활성 — 설정에서 실험기능(C)에 동의해야 합니다.")
    );
    assert_eq!(shell_refusal(true, false).as_deref(), Some("사용자가 명령 실행을 거부했습니다."));
    assert_eq!(shell_refusal(true, true), None);
}

#[test]
fn sse_decoder_cuts_events() {
    let mut d = SseDecoder::new();
    assert_eq!(d.feed(b"data: hello\n\ndata: a\n"), vec!["hello".to_string()]);
    assert_eq!(d.feed(b"data: b\r\n\r\n: keep-alive\n\n"), vec!["a\nb".to_string()]);
    assert!(d.feed(b"data: x").is_empty());
    assert_eq!(d.feed(b"\n\n"), vec!["x".to_string()]);
}

#[test]
fn daemon_settings_and_login() {
    assert_eq!(normalize_daemon_url(" https://d.example/ "), Ok("https://d.example".to_string()));
    assert!(normalize_daemon_url("ftp://x").is_err());
    assert_eq!(pick_bearer(Some(String::new()), Some("acc".into())), Ok("acc".to_string()));
    assert_eq!(pick_bearer(Some("id".into()), Some("acc".into())), Ok("id".to_string()));
    assert!(pick_bearer(None, None).is_err());
    assert_eq!(expiry_at(10, 5), 15);
    assert_eq!(expiry_at(u64::MAX, 5), u64::MAX);
    assert_eq!(ping_outcome(true, "200", ""), Ok("ok".to_string()));
    assert_eq!(ping_outcome(false, "500", "x"), Err("데몬 응답 500: x".to_string()));
    assert!(matches!(poll_step(200, ""), PollStep::Done));
    assert!(matches!(poll_step(202, ""), PollStep::Wait));
    assert!(matches!(poll_step(418, ""), PollStep::Fail(m) if m == "예상치 못한 응답(418)"));
    assert_eq!(start_fields(Some("u".into()), None), Err("poll_token 없음".to_string()));
    assert!(browser_allowed("https://login"));
    assert!(!browser_allowed("http://login"));
    assert!(login_timeout().contains("5분"));
    assert_eq!(
        session_url("http://d", "abc-1", "events"),
        Ok("http://d/api/v1/sessions/abc-1/events".to_string())
    );
    assert_eq!(session_url("http://d", "a/b", "events"), Err("잘못된 세션 ID".to_string()));
}

#[test]
fn token_claims_are_the_second_part() {
    assert_eq!(token_claims_bytes("h.eyJzdWIiOiJ4In0.s").unwrap(), br#"{"sub":"x"}"#.to_vec());
    assert_eq!(token_claims_bytes("abc").err().unwrap(), "JWT 형식이 아닙니다");
    assert!(token_claims_bytes("h.!!!.s").err().unwrap().starts_with("base64 디코드 실패: "));
}
