//! Per-session event cursor: the highest event sequence number seen in each
//! chat session. A follow-up turn sends it as `Last-Event-ID`, so the daemon
//! replays only newer events instead of its whole buffer.

use vstd::prelude::*;
use crate::strmap::StrMap;

verus! {

/// The high-water mark after seeing `seq`: a missing session counts as 0,
/// and a lower number never lowers the mark.
pub open spec fn raised(m: Map<Seq<char>, u64>, session: Seq<char>, seq: u64) -> Map<Seq<char>, u64> {
    let cur: u64 = if m.contains_key(session) { m[session] } else { 0 };
    m.insert(session, if seq > cur { seq } else { cur })
}

/// Session id → last sequence number seen.
pub struct SessionCursor(StrMap<u64>);

impl View for SessionCursor {
    type V = Map<Seq<char>, u64>;

    closed spec fn view(&self) -> Map<Seq<char>, u64> {
        self.0@
    }
}

impl SessionCursor {
    pub closed spec fn wf(&self) -> bool {
        self.0.wf()
    }

    /// A cursor that has seen no session.
    pub fn new() -> (r: SessionCursor)
        ensures
            r.wf(),
            r@ == Map::<Seq<char>, u64>::empty(),
    {
        SessionCursor(StrMap::new())
    }

    /// The last sequence number seen in this session; `None` on the first
    /// connection (the daemon then replays from the start).
    pub fn get(&self, session_id: &str) -> (r: Option<u64>)
        requires
            self.wf(),
        ensures
            r == if self@.contains_key(session_id@) {
                Some(self@[session_id@])
            } else {
                None::<u64>
            },
    {
        match self.0.get(session_id) {
            Some(v) => Some(*v),
            None => None,
        }
    }

    /// Raises the session's high-water mark to `seq`; a lower `seq` is
    /// ignored (the mark only grows).
    pub fn set(&mut self, session_id: &str, seq: u64)
        requires
            old(self).wf(),
        ensures
            final(self).wf(),
            final(self)@ == raised(old(self)@, session_id@, seq),
    {
        let cur: u64 = match self.0.get(session_id) {
            Some(v) => *v,
            None => 0,
        };
        let next: u64 = if seq > cur { seq } else { cur };
        self.0.insert(session_id.to_string(), next);
    }
}

/// After `set`, the session's mark is at least `seq` and at least what it
/// was; every other session keeps its mark.
pub proof fn lemma_cursor_monotonic(m: Map<Seq<char>, u64>, session: Seq<char>, seq: u64, other: Seq<char>)
    ensures
        raised(m, session, seq).contains_key(session),
        raised(m, session, seq)[session] >= seq,
        m.contains_key(session) ==> raised(m, session, seq)[session] >= m[session],
        other != session ==> (raised(m, session, seq).contains_key(other) == m.contains_key(other)),
        other != session && m.contains_key(other) ==> raised(m, session, seq)[other] == m[other],
{
}

} // verus!
