//! Daemon HTTP endpoints of a chat session.

use vstd::prelude::*;
use crate::text::{chars_of, push_str, to_string};

verus! {

broadcast use vstd::string::group_string_axioms;

/// A session id may hold only ASCII letters, digits, `-` and `_`.
pub open spec fn id_char(c: char) -> bool {
    ('a' <= c && c <= 'z') || ('A' <= c && c <= 'Z') || ('0' <= c && c <= '9') || c == '-' || c == '_'
}

pub open spec fn valid_session_id(sid: Seq<char>) -> bool {
    sid.len() > 0 && forall|i: int| 0 <= i < sid.len() ==> id_char(#[trigger] sid[i])
}

/// `{base}/api/v1/sessions/{sid}/{suffix}`; a malformed session id is
/// refused (it would let a path escape the session).
pub fn session_url(base: &str, sid: &str, suffix: &str) -> (r: Result<String, String>)
    ensures
        valid_session_id(sid@) ==> r is Ok && r->Ok_0@ == base@ + "/api/v1/sessions/"@ + sid@ + "/"@
            + suffix@,
        !valid_session_id(sid@) ==> r is Err && r->Err_0@ == "잘못된 세션 ID"@,
{
    let cs = chars_of(sid);
    if cs.len() == 0 {
        return Err(to_string("잘못된 세션 ID"));
    }
    let mut i: usize = 0;
    while i < cs.len()
        invariant
            i <= cs@.len(),
            cs@ == sid@,
            forall|k: int| 0 <= k < i ==> id_char(#[trigger] cs@[k]),
        decreases cs@.len() - i,
    {
        let c = cs[i];
        let ok = ('a' <= c && c <= 'z') || ('A' <= c && c <= 'Z') || ('0' <= c && c <= '9') || c
            == '-' || c == '_';
        if !ok {
            assert(!id_char(sid@[i as int]));
            return Err(to_string("잘못된 세션 ID"));
        }
        i += 1;
    }
    let mut u = to_string(base);
    push_str(&mut u, "/api/v1/sessions/");
    push_str(&mut u, sid);
    push_str(&mut u, "/");
    push_str(&mut u, suffix);
    Ok(u)
}

} // verus!
