//! The shell audit log: one line per approved and executed command,
//! `<unix_ts>\t<ok|fail>\t<command>`, line breaks in the command replaced by
//! spaces so that a command is always one line.

use vstd::prelude::*;
use crate::text::{chars_of, nat_text, push_char, push_str, u64_text};

verus! {

broadcast use vstd::string::group_string_axioms;

/// `s` with every line break replaced by a space.
pub open spec fn one_line(s: Seq<char>) -> Seq<char> {
    s.map_values(|c: char| if c == '\n' { ' ' } else { c })
}

/// The audit line of a command run at `ts` (seconds since the epoch).
pub open spec fn audit_text(ts: u64, command: Seq<char>, ok: bool) -> Seq<char> {
    nat_text(ts as nat) + "\t"@ + (if ok { "ok"@ } else { "fail"@ }) + "\t"@ + one_line(command)
}

/// The audit line of a command (see [`audit_text`]), without the final
/// line break.
pub fn audit_line(ts: u64, command: &str, ok: bool) -> (r: String)
    ensures
        r@ == audit_text(ts, command@, ok),
{
    let mut s = u64_text(ts);
    push_str(&mut s, "\t");
    if ok {
        push_str(&mut s, "ok");
    } else {
        push_str(&mut s, "fail");
    }
    push_str(&mut s, "\t");
    let ghost head = s@;
    let cs = chars_of(command);
    let mut i: usize = 0;
    while i < cs.len()
        invariant
            i <= cs@.len(),
            cs@ == command@,
            s@ == head + one_line(cs@.take(i as int)),
        decreases cs@.len() - i,
    {
        let c = cs[i];
        if c == '\n' {
            push_char(&mut s, ' ');
        } else {
            push_char(&mut s, c);
        }
        assert(one_line(cs@.take(i + 1)) =~= one_line(cs@.take(i as int)).push(
            if c == '\n' { ' ' } else { c },
        ));
        i += 1;
    }
    assert(cs@.take(cs@.len() as int) =~= cs@);
    s
}

} // verus!
