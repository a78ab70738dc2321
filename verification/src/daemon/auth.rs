//! Daemon login through the browser: the daemon starts an OpenID login and
//! hands back the page to open and a poll token; the app polls until the
//! tokens are ready.

use vstd::prelude::*;
use crate::daemon::config::starts_with;
use crate::text::{chars_of, nat_text, push_str, to_string, u64_text};

verus! {

broadcast use vstd::string::group_string_axioms;

/// Seconds between polls.
pub const POLL_INTERVAL_SECS: u64 = 2;

/// Polls before giving up (2 s × 150 = 5 minutes).
pub const POLL_MAX_TRIES: u32 = 150;

/// What one poll answer means.
pub enum PollStep {
    /// The tokens are in the body.
    Done,
    /// The user is still logging in; poll again.
    Wait,
    /// The login failed with this message.
    Fail(String),
}

/// The meaning of a poll's HTTP status (`body` is the answer's text).
pub fn poll_step(status: u16, body: &str) -> (r: PollStep)
    ensures
        status == 200 ==> r is Done,
        status == 202 ==> r is Wait,
        status == 400 ==> (r matches PollStep::Fail(m) && m@ == "로그인 실패: "@ + body@),
        status == 410 ==> (r matches PollStep::Fail(m) && m@
            == "로그인 세션이 만료됐습니다 — 다시 시도하세요."@),
        status != 200 && status != 202 && status != 400 && status != 410 ==> (r matches PollStep::Fail(
            m,
        ) && m@ == "예상치 못한 응답("@ + nat_text(status as nat) + ")"@),
{
    if status == 200 {
        PollStep::Done
    } else if status == 202 {
        PollStep::Wait
    } else if status == 400 {
        let mut m = to_string("로그인 실패: ");
        push_str(&mut m, body);
        PollStep::Fail(m)
    } else if status == 410 {
        PollStep::Fail(to_string("로그인 세션이 만료됐습니다 — 다시 시도하세요."))
    } else {
        let mut m = to_string("예상치 못한 응답(");
        let code = u64_text(status as u64);
        push_str(&mut m, code.as_str());
        push_str(&mut m, ")");
        PollStep::Fail(m)
    }
}

/// The login start's answer: the page to open and the poll token, or the
/// error for the first that is missing.
pub fn start_fields(authorize_url: Option<String>, poll_token: Option<String>) -> (r: Result<
    (String, String),
    String,
>)
    ensures
        match (authorize_url, poll_token) {
            (Some(u), Some(p)) => r is Ok && r->Ok_0.0@ == u@ && r->Ok_0.1@ == p@,
            (None, _) => r is Err && r->Err_0@
                == "authorize_url 없음 — 데몬이 broker 미지원(구버전)일 수 있습니다."@,
            (Some(_), None) => r is Err && r->Err_0@ == "poll_token 없음"@,
        },
{
    match authorize_url {
        None => Err(to_string("authorize_url 없음 — 데몬이 broker 미지원(구버전)일 수 있습니다.")),
        Some(u) => match poll_token {
            None => Err(to_string("poll_token 없음")),
            Some(p) => Ok((u, p)),
        },
    }
}

/// Only `https://` pages are opened in the browser.
pub fn browser_allowed(url: &str) -> (r: bool)
    ensures
        r == starts_with(url@, "https://"@),
{
    let cs = chars_of(url);
    let p = chars_of("https://");
    if p.len() > cs.len() {
        return false;
    }
    let mut i: usize = 0;
    while i < p.len()
        invariant
            i <= p@.len() <= cs@.len(),
            p@ == "https://"@,
            cs@ == url@,
            forall|k: int| 0 <= k < i ==> cs@[k] == p@[k],
        decreases p@.len() - i,
    {
        if cs[i] != p[i] {
            assert(cs@.take(p@.len() as int)[i as int] != p@[i as int]);
            return false;
        }
        i += 1;
    }
    assert(cs@.take(p@.len() as int) =~= p@);
    true
}

/// The error after the last poll.
pub fn login_timeout() -> (r: String)
    ensures
        r@ == "로그인 시간 초과(5분) — 다시 시도하세요."@,
{
    to_string("로그인 시간 초과(5분) — 다시 시도하세요.")
}

} // verus!
