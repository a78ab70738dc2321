//! Account names: normalisation and the merge key.
//!
//! `account_nm` wobbles between companies and years (numbering, bracketed
//! notes, spacing), so direct comparison is unreliable. Merging goes by
//! `concept_id` first, the alias dictionary second, and the normalised name
//! only as the last fallback.

use vstd::prelude::*;
use crate::text::{is_ws, is_whitespace, chars_of, string_of, to_string};
use crate::domain::alias::{resolve, alias_of};

verus! {

broadcast use vstd::string::group_string_axioms;

/// Characters that open a bracketed note: `( [ < （ 【`.
pub open spec fn is_open(c: char) -> bool {
    c == '(' || c == '[' || c == '<' || c == '（' || c == '【'
}

/// Characters that close a bracketed note: `) ] > ） 】`.
pub open spec fn is_close(c: char) -> bool {
    c == ')' || c == ']' || c == '>' || c == '）' || c == '】'
}

/// Left-to-right scan that drops bracketed notes and white space. `depth` is
/// the bracket nesting at the start of `s`; a stray closer never drives it
/// below zero.
pub open spec fn scan(s: Seq<char>, depth: nat) -> Seq<char>
    decreases s.len(),
{
    if s.len() == 0 {
        Seq::empty()
    } else {
        let c = s[0];
        let rest = s.drop_first();
        if is_open(c) {
            scan(rest, depth + 1)
        } else if is_close(c) {
            scan(rest, if depth > 0 { (depth - 1) as nat } else { 0 })
        } else if depth == 0 && !is_ws(c) {
            seq![c] + scan(rest, depth)
        } else {
            scan(rest, depth)
        }
    }
}

/// Enumeration characters of a leading numbering: ASCII digits and the Roman
/// numerals Ⅰ..Ⅹ (U+2160..U+2169).
pub open spec fn is_enum_char(c: char) -> bool {
    ('0' <= c && c <= '9') || (0x2160 <= (c as u32) && (c as u32) <= 0x2169)
}

pub open spec fn is_enum_sep(c: char) -> bool {
    c == '.' || c == ')'
}

/// Length of the leading run of enumeration characters.
pub open spec fn enum_run(s: Seq<char>) -> nat
    decreases s.len(),
{
    if s.len() > 0 && is_enum_char(s[0]) {
        1 + enum_run(s.drop_first())
    } else {
        0
    }
}

/// Drops a leading numbering: a run of digits or Roman numerals followed by
/// `.` or `)`, or any single character followed by `.` or `)`. A name that
/// merely starts with a Korean syllable ("가지급금") is left alone.
pub open spec fn strip_enum(s: Seq<char>) -> Seq<char> {
    let i = enum_run(s) as int;
    if i > 0 && i < s.len() && is_enum_sep(s[i]) {
        s.skip(i + 1 as int)
    } else if s.len() >= 2 && is_enum_sep(s[1]) {
        s.skip(2)
    } else {
        s
    }
}

/// The matching key of an account name.
pub open spec fn normalized(s: Seq<char>) -> Seq<char> {
    strip_enum(scan(s, 0))
}

/// The merge key of a fact: its concept id when it has one, else the standard
/// concept id of a known alias, else the normalised name.
pub open spec fn merge_key_of(concept_id: Seq<char>, account_nm: Seq<char>) -> Seq<char> {
    if concept_id.len() > 0 {
        concept_id
    } else if alias_of(normalized(account_nm)) is Some {
        alias_of(normalized(account_nm))->0
    } else {
        normalized(account_nm)
    }
}

proof fn lemma_enum_run(s: Seq<char>, i: int)
    requires
        0 <= i <= s.len(),
        forall|j: int| 0 <= j < i ==> is_enum_char(#[trigger] s[j]),
        i < s.len() ==> !is_enum_char(s[i]),
    ensures
        enum_run(s) == i,
    decreases s.len(),
{
    if i > 0 {
        assert(is_enum_char(s[0]));
        assert forall|j: int| 0 <= j < i - 1 implies is_enum_char(#[trigger] s.drop_first()[j]) by {
            assert(s.drop_first()[j] == s[j + 1]);
        }
        lemma_enum_run(s.drop_first(), i - 1);
    }
}

fn is_enum_char_exec(c: char) -> (r: bool)
    ensures
        r == is_enum_char(c),
{
    ('0' <= c && c <= '9') || (0x2160 <= (c as u32) && (c as u32) <= 0x2169)
}

/// Removes a leading numbering ("1." "12)" "Ⅰ." "가."), see [`strip_enum`].
fn strip_enum_prefix(s: &Vec<char>) -> (r: Vec<char>)
    ensures
        r@ == strip_enum(s@),
{
    let mut i: usize = 0;
    while i < s.len() && is_enum_char_exec(s[i])
        invariant
            i <= s.len(),
            forall|j: int| 0 <= j < i ==> is_enum_char(#[trigger] s@[j]),
        decreases s.len() - i,
    {
        i += 1;
    }
    proof {
        lemma_enum_run(s@, i as int);
    }
    let start: usize = if i > 0 && i < s.len() && (s[i] == '.' || s[i] == ')') {
        i + 1
    } else if s.len() >= 2 && (s[1] == '.' || s[1] == ')') {
        2
    } else {
        0
    };
    let mut out: Vec<char> = Vec::new();
    let mut k = start;
    while k < s.len()
        invariant
            start <= k <= s.len(),
            out@ == s@.subrange(start as int, k as int),
        decreases s.len() - k,
    {
        out.push(s[k]);
        k += 1;
        assert(out@ =~= s@.subrange(start as int, k as int));
    }
    assert(s@.skip(0) =~= s@);
    assert(out@ =~= s@.skip(start as int));
    out
}

/// Normalises an account name for matching: removes bracketed notes
/// (`[…]`, `(…)`, `<…>`, `（…）`, `【…】`), all white space, and a leading
/// numbering. A matching key, not a display name.
pub fn normalize(name: &str) -> (r: String)
    ensures
        r@ == normalized(name@),
{
    let cs = chars_of(name);
    let mut s: Vec<char> = Vec::new();
    let mut depth: usize = 0;
    let mut i: usize = 0;
    proof {
        assert(name@.skip(0) =~= name@);
        assert(s@ + scan(name@, 0) =~= scan(name@, 0));
    }
    while i < cs.len()
        invariant
            cs@ == name@,
            i <= cs.len(),
            depth <= i,
            scan(name@, 0) == s@ + scan(name@.skip(i as int), depth as nat),
        decreases cs.len() - i,
    {
        let c = cs[i];
        proof {
            let t = name@.skip(i as int);
            assert(t[0] == c);
            assert(t.drop_first() =~= name@.skip(i + 1));
        }
        if c == '(' || c == '[' || c == '<' || c == '（' || c == '【' {
            depth += 1;
        } else if c == ')' || c == ']' || c == '>' || c == '）' || c == '】' {
            if depth > 0 {
                depth -= 1;
            }
        } else if depth == 0 && !is_whitespace(c) {
            s.push(c);
            proof {
                assert(s@ + scan(name@.skip(i + 1), 0) =~= s@.drop_last() + (seq![c] + scan(
                    name@.skip(i + 1),
                    0,
                )));
            }
        }
        i += 1;
    }
    proof {
        assert(name@.skip(cs.len() as int).len() == 0);
        assert(s@ + Seq::<char>::empty() =~= s@);
    }
    string_of(&strip_enum_prefix(&s))
}

/// Merge key across years and companies: `concept_id` when present (trusted),
/// else the alias dictionary, else the normalised account name.
pub fn merge_key(concept_id: &str, account_nm: &str) -> (r: String)
    ensures
        r@ == merge_key_of(concept_id@, account_nm@),
{
    if !concept_id.is_empty() {
        return to_string(concept_id);
    }
    match resolve(account_nm) {
        Some(canonical) => to_string(canonical),
        None => normalize(account_nm),
    }
}

} // verus!
