//! Text layout of the printed table: a cell that does not fit its column
//! is cut and ends with an ellipsis.

use vstd::prelude::*;
use crate::text::{chars_of, push_char, string_from, to_string};

verus! {

broadcast use vstd::string::group_string_axioms;

/// A cell cut to `max` characters: unchanged when it fits, else its first
/// `max - 1` characters (none when `max` is 0) and `…`.
pub open spec fn fitted(s: Seq<char>, max: nat) -> Seq<char> {
    if s.len() <= max {
        s
    } else {
        s.take(if max > 0 { max - 1 } else { 0 }) + seq!['…']
    }
}

/// Cuts a cell to `max` characters (see [`fitted`]).
pub fn truncate(s: &str, max: usize) -> (r: String)
    ensures
        r@ == fitted(s@, max as nat),
{
    let cs = chars_of(s);
    if cs.len() <= max {
        return to_string(s);
    }
    let keep = max.saturating_sub(1);
    let mut t = string_from(&cs, 0, keep);
    push_char(&mut t, '…');
    assert(cs@.subrange(0, keep as int) =~= cs@.take(keep as int));
    t
}

} // verus!
