//! Shell commands waiting for the user's approval. While the turn loop
//! waits on a command it keeps the reply channel under the call id; the
//! approval takes it out to answer, and a cancel drops every one of them,
//! which refuses all pending commands.

use vstd::prelude::*;
use crate::strmap::StrMap;

verus! {

/// A reply channel as held by the table (compared as a value).
pub struct Held<T>(pub T);

impl<T> View for Held<T> {
    type V = Held<T>;

    open spec fn view(&self) -> Held<T> {
        *self
    }
}

/// Pending approvals by call id.
pub struct Approvals<T> {
    pending: StrMap<Held<T>>,
}

impl<T> Approvals<T> {
    /// The reply channels waiting, by call id.
    pub closed spec fn waiting(&self) -> Map<Seq<char>, Held<T>> {
        self.pending@
    }

    pub closed spec fn wf(&self) -> bool {
        self.pending.wf()
    }

    /// Nothing waiting.
    pub fn new() -> (r: Approvals<T>)
        ensures
            r.wf(),
            r.waiting() == Map::<Seq<char>, Held<T>>::empty(),
    {
        Approvals { pending: StrMap::new() }
    }

    /// Registers the reply channel of `call_id` (replacing an earlier one
    /// under the same id).
    pub fn insert(&mut self, call_id: String, tx: T)
        requires
            old(self).wf(),
        ensures
            final(self).wf(),
            final(self).waiting() == old(self).waiting().insert(call_id@, Held(tx)),
    {
        self.pending.insert(call_id, Held(tx));
    }

    /// Takes out the reply channel of `call_id`: a second take finds
    /// nothing.
    pub fn take(&mut self, call_id: &str) -> (r: Option<T>)
        requires
            old(self).wf(),
        ensures
            final(self).wf(),
            final(self).waiting() == old(self).waiting().remove(call_id@),
            match r {
                Some(tx) => old(self).waiting().contains_key(call_id@) && old(self).waiting()[call_id@]
                    == Held(tx),
                None => !old(self).waiting().contains_key(call_id@),
            },
    {
        match self.pending.remove(call_id) {
            Some(h) => Some(h.0),
            None => None,
        }
    }

    /// Drops every waiting channel: every pending command is refused.
    pub fn clear(&mut self)
        requires
            old(self).wf(),
        ensures
            final(self).wf(),
            final(self).waiting() == Map::<Seq<char>, Held<T>>::empty(),
    {
        self.pending = StrMap::new();
    }
}

/// After a take, the same call id finds nothing; a cleared table finds
/// nothing either.
pub proof fn lemma_take_once<T>(before: Map<Seq<char>, Held<T>>, id: Seq<char>)
    ensures
        !before.remove(id).contains_key(id),
{
}

} // verus!
