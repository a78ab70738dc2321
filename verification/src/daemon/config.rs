//! Daemon connection settings: the base URL and the bearer token kept in
//! the OS keychain, and the answers of the daemon's health check.

use vstd::prelude::*;
use crate::text::{chars_of, push_str, string_from, to_string, trim, trim_chars};

verus! {

broadcast use vstd::string::group_string_axioms;

/// `s` without its trailing `/` characters.
pub open spec fn strip_slashes(s: Seq<char>) -> Seq<char>
    decreases s.len(),
{
    if s.len() > 0 && s.last() == '/' {
        strip_slashes(s.drop_last())
    } else {
        s
    }
}

pub open spec fn starts_with(s: Seq<char>, p: Seq<char>) -> bool {
    p.len() <= s.len() && s.take(p.len() as int) == p
}

fn has_prefix(cs: &Vec<char>, p: &str) -> (r: bool)
    ensures
        r == starts_with(cs@, p@),
{
    let pc = chars_of(p);
    if pc.len() > cs.len() {
        return false;
    }
    let mut i: usize = 0;
    while i < pc.len()
        invariant
            i <= pc@.len() <= cs@.len(),
            pc@ == p@,
            forall|k: int| 0 <= k < i ==> cs@[k] == pc@[k],
        decreases pc@.len() - i,
    {
        if cs[i] != pc[i] {
            assert(cs@.take(pc@.len() as int)[i as int] != pc@[i as int]);
            return false;
        }
        i += 1;
    }
    assert(cs@.take(pc@.len() as int) =~= pc@);
    true
}

/// The daemon URL as stored: trimmed, without trailing slashes; refused
/// unless it starts with `http://` or `https://`.
pub fn normalize_daemon_url(url: &str) -> (r: Result<String, String>)
    ensures
        starts_with(strip_slashes(trim(url@)), "http://"@) || starts_with(
            strip_slashes(trim(url@)),
            "https://"@,
        ) ==> r is Ok && r->Ok_0@ == strip_slashes(trim(url@)),
        !(starts_with(strip_slashes(trim(url@)), "http://"@) || starts_with(
            strip_slashes(trim(url@)),
            "https://"@,
        )) ==> r is Err && r->Err_0@ == "URL 은 http:// 또는 https:// 로 시작해야 합니다."@,
{
    let cs = chars_of(url);
    let t = trim_chars(&cs);
    let mut n = t.len();
    assert(t@.take(t@.len() as int) =~= t@);
    while n > 0 && t[n - 1] == '/'
        invariant
            n <= t@.len(),
            strip_slashes(t@) == strip_slashes(t@.take(n as int)),
        decreases n,
    {
        assert(t@.take(n as int).drop_last() =~= t@.take(n - 1));
        n -= 1;
    }
    proof {
        if n > 0 {
            assert(t@.take(n as int).last() == t@[n - 1]);
        }
    }
    let s = string_from(&t, 0, n);
    assert(t@.subrange(0, n as int) =~= t@.take(n as int));
    let sc = chars_of(s.as_str());
    if has_prefix(&sc, "http://") || has_prefix(&sc, "https://") {
        Ok(s)
    } else {
        Err(to_string("URL 은 http:// 또는 https:// 로 시작해야 합니다."))
    }
}

pub open spec fn nonempty_text(o: Option<String>) -> Option<Seq<char>> {
    match o {
        Some(s) => if s@.len() > 0 {
            Some(s@)
        } else {
            None
        },
        None => None,
    }
}

/// The bearer token kept from the identity provider's answer: the ID token
/// when there is a non-empty one (the daemon verifies it against its keys),
/// else the access token; an error when both are missing or empty.
pub fn pick_bearer(id_token: Option<String>, access_token: Option<String>) -> (r: Result<
    String,
    String,
>)
    ensures
        match nonempty_text(id_token) {
            Some(t) => r is Ok && r->Ok_0@ == t,
            None => match nonempty_text(access_token) {
                Some(t) => r is Ok && r->Ok_0@ == t,
                None => r is Err && r->Err_0@ == "토큰 응답에 access_token/id_token 이 없습니다."@,
            },
        },
{
    match id_token {
        Some(t) => {
            if t.as_str().unicode_len() > 0 {
                return Ok(t);
            }
        },
        None => {},
    }
    match access_token {
        Some(a) => {
            if a.as_str().unicode_len() > 0 {
                return Ok(a);
            }
        },
        None => {},
    }
    Err(to_string("토큰 응답에 access_token/id_token 이 없습니다."))
}

/// When the token expires: now plus its lifetime, saturating.
pub fn expiry_at(now: u64, expires_in: u64) -> (r: u64)
    ensures
        r == if now + expires_in > u64::MAX {
            u64::MAX as int
        } else {
            now + expires_in
        },
{
    now.saturating_add(expires_in)
}

/// The health check's answer: the body (or "ok" when empty) on success,
/// else `데몬 응답 {status}: {body}`.
pub fn ping_outcome(success: bool, status: &str, body: &str) -> (r: Result<String, String>)
    ensures
        success && body@.len() == 0 ==> r is Ok && r->Ok_0@ == "ok"@,
        success && body@.len() > 0 ==> r is Ok && r->Ok_0@ == body@,
        !success ==> r is Err && r->Err_0@ == "데몬 응답 "@ + status@ + ": "@ + body@,
{
    if success {
        if body.unicode_len() == 0 {
            Ok(to_string("ok"))
        } else {
            Ok(to_string(body))
        }
    } else {
        let mut e = to_string("데몬 응답 ");
        push_str(&mut e, status);
        push_str(&mut e, ": ");
        push_str(&mut e, body);
        Err(e)
    }
}

} // verus!
