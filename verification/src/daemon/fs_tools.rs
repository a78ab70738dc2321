//! File tools confined to the workspace (every path passes the jail
//! first): what an edit makes of a file's text, and the answers the tools
//! give. An edit replaces a unique occurrence only: none found and several
//! found are both refused.

use vstd::prelude::*;
use crate::text::{chars_of, nat_text, push_str, string_from, to_string, u64_text};

verus! {

broadcast use vstd::string::group_string_axioms;

/// `pat` occurs in `s` at `i`.
pub open spec fn occurs_at(s: Seq<char>, pat: Seq<char>, i: int) -> bool {
    0 <= i && i + pat.len() <= s.len() && s.subrange(i, i + pat.len()) == pat
}

/// Occurrences of a non-empty `pat` in `s` from `i` on, found left to right
/// without overlap (`str::matches`).
pub open spec fn count_from(s: Seq<char>, pat: Seq<char>, i: int) -> nat
    decreases s.len() - i,
{
    if pat.len() == 0 || i < 0 || i + pat.len() > s.len() {
        0
    } else if occurs_at(s, pat, i) {
        1 + count_from(s, pat, i + pat.len())
    } else {
        count_from(s, pat, i + 1)
    }
}

/// The first place at or after `i` where a non-empty `pat` occurs, or -1.
pub open spec fn first_from(s: Seq<char>, pat: Seq<char>, i: int) -> int
    decreases s.len() - i,
{
    if pat.len() == 0 || i < 0 || i + pat.len() > s.len() {
        -1
    } else if occurs_at(s, pat, i) {
        i
    } else {
        first_from(s, pat, i + 1)
    }
}

/// "old_string 이 {n}곳에 중복 — 고유해야 합니다." — the text occurs `n`
/// times.
pub open spec fn ambiguous_text(n: nat) -> Seq<char> {
    "old_string 이 "@ + nat_text(n) + "곳에 중복 — 고유해야 합니다."@
}

/// What an edit of `body` makes: an error for an empty `old`; for `old`
/// found nowhere; for `old` found more than once; else `body` with that one
/// occurrence replaced by `new`.
pub open spec fn edited(body: Seq<char>, old: Seq<char>, new: Seq<char>) -> Result<
    Seq<char>,
    Seq<char>,
> {
    if old.len() == 0 {
        Err("old_string 이 비어있습니다."@)
    } else if count_from(body, old, 0) == 0 {
        Err("old_string 을 찾지 못했습니다."@)
    } else if count_from(body, old, 0) == 1 {
        let p = first_from(body, old, 0);
        Ok(body.take(p) + new + body.skip(p + old.len()))
    } else {
        Err(ambiguous_text(count_from(body, old, 0)))
    }
}

fn occurs_here(s: &Vec<char>, pat: &Vec<char>, i: usize) -> (r: bool)
    requires
        i + pat@.len() <= s@.len(),
    ensures
        r == occurs_at(s@, pat@, i as int),
{
    let sl = s.len();
    let mut k: usize = 0;
    while k < pat.len()
        invariant
            sl == s@.len(),
            i + pat@.len() <= s@.len(),
            k <= pat@.len(),
            forall|q: int| 0 <= q < k ==> s@[i + q] == pat@[q],
        decreases pat@.len() - k,
    {
        if s[i + k] != pat[k] {
            assert(s@.subrange(i as int, i + pat@.len())[k as int] != pat@[k as int]);
            return false;
        }
        k += 1;
    }
    assert(s@.subrange(i as int, i + pat@.len()) =~= pat@);
    true
}

/// The edit of `body` replacing the one occurrence of `old` by `new` (see
/// [`edited`]).
pub fn edit_text(body: &str, old: &str, new: &str) -> (r: Result<String, String>)
    ensures
        match r {
            Ok(t) => edited(body@, old@, new@) == Ok::<Seq<char>, Seq<char>>(t@),
            Err(e) => edited(body@, old@, new@) == Err::<Seq<char>, Seq<char>>(e@),
        },
{
    let s = chars_of(body);
    let pat = chars_of(old);
    if pat.len() == 0 {
        return Err(to_string("old_string 이 비어있습니다."));
    }
    let n = s.len();
    let m = pat.len();
    let mut i: usize = 0;
    let mut count: usize = 0;
    let mut first: usize = 0;
    while m <= n - i
        invariant
            n == s@.len(),
            m == pat@.len(),
            m > 0,
            s@ == body@,
            pat@ == old@,
            i <= n,
            count <= i,
            count + count_from(s@, pat@, i as int) == count_from(s@, pat@, 0),
            count == 0 ==> first_from(s@, pat@, i as int) == first_from(s@, pat@, 0),
            count > 0 ==> first_from(s@, pat@, 0) == first as int,
        decreases n - i,
    {
        if occurs_here(&s, &pat, i) {
            if count == 0 {
                first = i;
            }
            count += 1;
            i += m;
        } else {
            i += 1;
        }
    }
    if count == 0 {
        return Err(to_string("old_string 을 찾지 못했습니다."));
    }
    if count > 1 {
        let mut e = to_string("old_string 이 ");
        let t = u64_text(count as u64);
        push_str(&mut e, t.as_str());
        push_str(&mut e, "곳에 중복 — 고유해야 합니다.");
        return Err(e);
    }
    proof {
        lemma_first_occurs(s@, pat@, 0);
    }
    let mut out = string_from(&s, 0, first);
    push_str(&mut out, new);
    let tail = string_from(&s, first + m, n);
    push_str(&mut out, tail.as_str());
    assert(s@.subrange(0, first as int) =~= s@.take(first as int));
    assert(s@.subrange(first + m, n as int) =~= s@.skip(first + m));
    Ok(out)
}

proof fn lemma_first_occurs(s: Seq<char>, pat: Seq<char>, i: int)
    ensures
        first_from(s, pat, i) >= 0 ==> occurs_at(s, pat, first_from(s, pat, i)),
    decreases s.len() - i,
{
    if !(pat.len() == 0 || i < 0 || i + pat.len() > s.len()) && !occurs_at(s, pat, i) {
        lemma_first_occurs(s, pat, i + 1);
    }
}

/// Refuses an edit whose text to replace is empty, before anything is
/// read.
pub fn empty_old(old: &str) -> (r: Option<String>)
    ensures
        old@.len() == 0 ==> r is Some && r->0@ == "old_string 이 비어있습니다."@,
        old@.len() > 0 ==> r is None,
{
    if old.unicode_len() == 0 {
        Some(to_string("old_string 이 비어있습니다."))
    } else {
        None
    }
}

/// The answer of a write: "{n}바이트 기록 완료", `n` the bytes written.
pub fn written_text(content: &str) -> (r: String)
    ensures
        r@ == nat_text(content.len() as nat) + "바이트 기록 완료"@,
{
    let n = content.len();
    let mut s = u64_text(n as u64);
    push_str(&mut s, "바이트 기록 완료");
    s
}

/// A successful edit replaced the only occurrence of `old`: the result is
/// the text before it, `new`, and the text after it.
pub proof fn law_edit_replaces_the_one_occurrence(body: Seq<char>, old: Seq<char>, new: Seq<char>)
    requires
        edited(body, old, new) is Ok,
    ensures
        count_from(body, old, 0) == 1,
        exists|p: int|
            occurs_at(body, old, p) && #[trigger] edited(body, old, new) == Ok::<Seq<char>, Seq<char>>(
                body.take(p) + new + body.skip(p + old.len()),
            ),
{
    lemma_first_occurs(body, old, 0);
    lemma_count_first(body, old, 0);
    let p = first_from(body, old, 0);
    assert(occurs_at(body, old, p));
}

proof fn lemma_count_first(s: Seq<char>, pat: Seq<char>, i: int)
    ensures
        count_from(s, pat, i) > 0 ==> first_from(s, pat, i) >= 0,
    decreases s.len() - i,
{
    if !(pat.len() == 0 || i < 0 || i + pat.len() > s.len()) && !occurs_at(s, pat, i) {
        lemma_count_first(s, pat, i + 1);
    }
}

} // verus!
