//! Shell execution (an experimental feature the user must switch on): what
//! the daemon is told after a command ran. The output is stdout and stderr
//! joined, cut at 64 KiB on a character boundary.

use vstd::prelude::*;
use vstd::utf8::{char_is_scalar, encode_scalar, encode_utf8};
use crate::daemon::turn::{lossy, lossy_text};
use crate::text::{chars_of, push_char, push_str, string_of, to_string, trim, trim_str};

verus! {

broadcast use vstd::string::group_string_axioms;

/// Most bytes of output passed on.
pub const MAX_OUT: usize = 64 * 1024;

/// Bytes of a character in UTF-8.
pub open spec fn width(c: char) -> nat {
    encode_scalar(c as u32).len()
}

/// How many leading characters of `s` fit in `budget` bytes of UTF-8.
pub open spec fn fit_prefix(s: Seq<char>, budget: int) -> nat
    decreases s.len(),
{
    if s.len() == 0 || width(s[0]) > budget {
        0
    } else {
        1 + fit_prefix(s.drop_first(), budget - width(s[0]))
    }
}

/// Output past [`MAX_OUT`] bytes: the longest prefix that fits (so never
/// a split character), then a truncation mark.
pub open spec fn capped(s: Seq<char>) -> Seq<char> {
    if encode_utf8(s).len() > MAX_OUT {
        s.take(fit_prefix(s, MAX_OUT as int) as int) + "\n…(절단됨)"@
    } else {
        s
    }
}

/// stdout and stderr joined by a line break (stderr only when there is
/// any; no break after an empty stdout).
pub open spec fn joined(out: Seq<char>, err_bytes: Seq<u8>, err: Seq<char>) -> Seq<char> {
    if err_bytes.len() == 0 {
        out
    } else if out.len() == 0 {
        err
    } else {
        out + "\n"@ + err
    }
}

fn char_width(c: char) -> (r: usize)
    ensures
        r == width(c),
{
    proof {
        char_is_scalar(c);
    }
    let u = c as u32;
    if u <= 0x7f {
        1
    } else if u <= 0x7ff {
        2
    } else if u <= 0xffff {
        3
    } else {
        4
    }
}

/// All of `s` fits in `budget` bytes exactly when its UTF-8 encoding does.
proof fn lemma_fit(s: Seq<char>, budget: int)
    requires
        budget >= 0,
    ensures
        fit_prefix(s, budget) <= s.len(),
        (fit_prefix(s, budget) == s.len()) <==> encode_utf8(s).len() <= budget,
    decreases s.len(),
{
    if s.len() > 0 {
        if width(s[0]) <= budget {
            lemma_fit(s.drop_first(), budget - width(s[0]));
        }
    }
}

/// Cuts text past [`MAX_OUT`] bytes (see [`capped`]).
pub fn cap_output(s: String) -> (r: String)
    ensures
        r@ == capped(s@),
{
    let cs = chars_of(s.as_str());
    let ghost all = cs@;
    let mut used: usize = 0;
    let mut k: usize = 0;
    assert(all.skip(0) =~= all);
    while k < cs.len()
        invariant_except_break
            k <= cs@.len(),
            all == cs@,
            used <= MAX_OUT,
            fit_prefix(all, MAX_OUT as int) == k + fit_prefix(all.skip(k as int), MAX_OUT - used),
        ensures
            k <= cs@.len(),
            all == cs@,
            fit_prefix(all, MAX_OUT as int) == k,
        decreases cs@.len() - k,
    {
        let w = char_width(cs[k]);
        assert(all.skip(k as int)[0] == all[k as int]);
        assert(all.skip(k as int).drop_first() =~= all.skip(k + 1));
        if w > MAX_OUT - used {
            break;
        }
        used = used + w;
        k += 1;
    }
    proof {
        lemma_fit(all, MAX_OUT as int);
    }
    if k == cs.len() {
        return s;
    }
    let mut r = crate::text::string_from(&cs, 0, k);
    push_str(&mut r, "\n…(절단됨)");
    r
}

/// The command line is blank: it is refused with "빈 명령".
pub fn blank_command(command: &str) -> (r: Option<String>)
    ensures
        trim(command@).len() == 0 ==> r is Some && r->0@ == "빈 명령"@,
        trim(command@).len() > 0 ==> r is None,
{
    let t = trim_str(command);
    if t.as_str().unicode_len() == 0 {
        Some(to_string("빈 명령"))
    } else {
        None
    }
}

/// What a finished command reports: stdout and stderr decoded (invalid
/// UTF-8 replaced), joined, and capped; and whether it exited successfully.
pub fn shell_result(stdout: &[u8], stderr: &[u8], success: bool) -> (r: (String, bool))
    ensures
        r.0@ == capped(joined(lossy_text(stdout@), stderr@, lossy_text(stderr@))),
        r.1 == success,
{
    proof {
        reveal_strlit("\n");
    }
    let mut s = lossy(stdout);
    let ghost out = s@;
    if stderr.len() > 0 {
        let nonempty = s.as_str().unicode_len() > 0;
        if nonempty {
            push_char(&mut s, '\n');
        }
        let e = lossy(stderr);
        push_str(&mut s, e.as_str());
        assert(nonempty ==> s@ =~= out + "\n"@ + e@);
        assert(!nonempty ==> s@ =~= e@);
    }
    (cap_output(s), success)
}

/// Capped output keeps at most `budget` bytes of UTF-8, and the longest
/// such prefix of whole characters: one more character would not fit.
pub proof fn law_cap_keeps_longest_fit(s: Seq<char>, budget: int)
    requires
        budget >= 0,
    ensures
        fit_prefix(s, budget) <= s.len(),
        encode_utf8(s.take(fit_prefix(s, budget) as int)).len() <= budget,
        fit_prefix(s, budget) < s.len() ==> encode_utf8(s.take(fit_prefix(s, budget) + 1int)).len()
            > budget,
    decreases s.len(),
{
    if s.len() == 0 {
        assert(s.take(0) =~= Seq::<char>::empty());
    } else if width(s[0]) > budget {
        assert(s.take(0) =~= Seq::<char>::empty());
        assert(s.take(1).drop_first() =~= Seq::<char>::empty());
        assert(s.take(1)[0] == s[0]);
    } else {
        let t = s.drop_first();
        law_cap_keeps_longest_fit(t, budget - width(s[0]));
        let k = fit_prefix(s, budget) as int;
        assert(s.take(k).drop_first() =~= t.take(k - 1));
        assert(s.take(k)[0] == s[0]);
        if k < s.len() {
            assert(s.take(k + 1).drop_first() =~= t.take(k));
            assert(s.take(k + 1)[0] == s[0]);
        }
    }
}

} // verus!
