//! Coalescing of interface-preference writes: rapid edits of one scratch
//! record are buffered, a single delayed flush is started for each burst,
//! and that flush writes the last edit.
use vstd::prelude::*;
use std::collections::HashMap;

verus! {

/// The latest unflushed edit of each scratch record, by record id.
pub struct UiPreferencesWriteBuffer {
    pending: HashMap<u128, String>,
}

/// Pending edits as plain values.
pub open spec fn text_map(m: Map<u128, String>) -> Map<u128, Seq<char>> {
    m.map_values(|v: String| v@)
}

impl UiPreferencesWriteBuffer {
    /// The edits waiting to be flushed.
    pub closed spec fn pending(&self) -> Map<u128, Seq<char>> {
        text_map(self.pending@)
    }

    /// Nothing pending.
    pub fn new() -> (r: UiPreferencesWriteBuffer)
        ensures
            r.pending() == Map::<u128, Seq<char>>::empty(),
    {
        let r = UiPreferencesWriteBuffer { pending: HashMap::new() };
        proof {
            assert(r.pending() =~= Map::<u128, Seq<char>>::empty());
        }
        r
    }

    /// Records an edit of a record; returns whether a flush must be started
    /// for it (none is pending yet). A later edit replaces an earlier one.
    pub fn record(&mut self, id: u128, payload: String) -> (start_flush: bool)
        ensures
            start_flush == !old(self).pending().contains_key(id),
            final(self).pending() == old(self).pending().insert(id, payload@),
    {
        let ghost pv = payload@;
        let start_flush = !self.pending.contains_key(&id);
        self.pending.insert(id, payload);
        proof {
            assert(self.pending() =~= old(self).pending().insert(id, pv));
        }
        start_flush
    }

    /// Takes the edit a flush writes for a record, if one is pending.
    pub fn take(&mut self, id: u128) -> (r: Option<String>)
        ensures
            match r {
                Some(v) => old(self).pending().contains_key(id) && old(self).pending()[id] == v@,
                None => !old(self).pending().contains_key(id),
            },
            final(self).pending() == old(self).pending().remove(id),
    {
        let r = self.pending.remove(&id);
        proof {
            assert(self.pending() =~= old(self).pending().remove(id));
        }
        r
    }
}

/// A burst of edits is flushed once, with its last edit: after edits `a`
/// then `b` of a record with nothing pending, only the first asks for a
/// flush, and the flush takes `b` and leaves the buffer as it was before
/// the burst.
pub proof fn lemma_burst_flushes_last_edit(pending: Map<u128, Seq<char>>, id: u128, a: Seq<char>, b: Seq<char>)
    requires
        !pending.contains_key(id),
    ensures
        !pending.contains_key(id),
        pending.insert(id, a).contains_key(id),
        pending.insert(id, a).insert(id, b)[id] == b,
        pending.insert(id, a).insert(id, b).remove(id) == pending,
{
    assert(pending.insert(id, a).insert(id, b).remove(id) =~= pending);
}

} // verus!
