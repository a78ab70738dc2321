//! Subscription entitlement as the daemon's `/me` endpoint reports it, and
//! the claims carried by the stored login token.

use vstd::prelude::*;
use base64::Engine;
use crate::text::{chars_of, nat_text, pieces, push_str, split_on, to_string, u64_text};

verus! {

/// The signed-in user's organisation, plan and enabled features.
pub struct Me {
    pub org: String,
    pub plan: String,
    pub features: Vec<String>,
}

/// What `/me` answered with this HTTP status means: `None` for 200 (the
/// body is the entitlement), else the error shown to the user: an expired
/// login for 401, otherwise the status code.
pub fn me_status_error(status: u16) -> (r: Option<String>)
    ensures
        status == 200 ==> r is None,
        status == 401 ==> r is Some && r->0@ == "인증 만료 — 다시 로그인하세요."@,
        status != 200 && status != 401 ==> r is Some && r->0@ == "/me 오류 ("@ + nat_text(
            status as nat,
        ) + ")"@,
{
    if status == 200 {
        None
    } else if status == 401 {
        Some(to_string("인증 만료 — 다시 로그인하세요."))
    } else {
        let mut s = to_string("/me 오류 (");
        let code = u64_text(status as u64);
        push_str(&mut s, code.as_str());
        push_str(&mut s, ")");
        Some(s)
    }
}

/// What `base64`'s URL-safe, unpadded engine decodes from a text: the
/// bytes, or its error message.
pub uninterp spec fn base64url_decoded(s: Seq<char>) -> Result<Seq<u8>, Seq<char>>;

/// `URL_SAFE_NO_PAD.decode` of the `base64` crate. Only the result is
/// named; the alphabet and padding rules are the crate's.
#[verifier::external_body]
fn decode_base64url(s: &str) -> (r: Result<Vec<u8>, String>)
    ensures
        match r {
            Ok(b) => base64url_decoded(s@) == Ok::<Seq<u8>, Seq<char>>(b@),
            Err(e) => base64url_decoded(s@) == Err::<Seq<u8>, Seq<char>>(e@),
        },
{
    base64::engine::general_purpose::URL_SAFE_NO_PAD.decode(s).map_err(|e| e.to_string())
}

/// The claims segment of a token: the second of its dot-separated parts.
pub open spec fn claims_segment(token: Seq<char>) -> Option<Seq<char>> {
    if pieces(token, '.').len() >= 2 {
        Some(pieces(token, '.')[1])
    } else {
        None
    }
}

/// The bytes of a token's claims (its JWT payload, still JSON): an error
/// when the token has no second part or that part is not URL-safe base64.
pub fn token_claims_bytes(token: &str) -> (r: Result<Vec<u8>, String>)
    ensures
        match claims_segment(token@) {
            None => r is Err && r->Err_0@ == "JWT 형식이 아닙니다"@,
            Some(seg) => match base64url_decoded(seg) {
                Ok(b) => r is Ok && r->Ok_0@ == b,
                Err(e) => r is Err && r->Err_0@ == "base64 디코드 실패: "@ + e,
            },
        },
{
    let cs = chars_of(token);
    let parts = split_on(&cs, '.');
    if parts.len() < 2 {
        return Err(to_string("JWT 형식이 아닙니다"));
    }
    match decode_base64url(parts[1].as_str()) {
        Ok(b) => Ok(b),
        Err(e) => {
            let mut m = to_string("base64 디코드 실패: ");
            push_str(&mut m, e.as_str());
            Err(m)
        },
    }
}

} // verus!
