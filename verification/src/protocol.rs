//! Request correlation for the line-oriented remote-call protocol: ids are
//! handed out monotonically, never reused, and a reply is delivered to
//! exactly the call that registered its id.
use vstd::prelude::*;

verus! {

/// The pending-request table: one slot per in-flight call, keyed by the
/// request id. The slot type is whatever the transport uses to wake the
/// caller.
pub struct PendingTable<T> {
    /// In-flight entries, in registration order.
    pub entries: Vec<(u64, T)>,
    /// The id the next call will use; starts at 1 and only grows.
    pub next_id: u64,
}

/// The ids of a table's entries, in order.
pub open spec fn ids<T>(entries: Seq<(u64, T)>) -> Seq<u64> {
    entries.map_values(|e: (u64, T)| e.0)
}

/// Index of the entry with the given id, or the length when absent.
pub open spec fn find_id<T>(entries: Seq<(u64, T)>, id: u64, i: int) -> int
    decreases entries.len() - i,
{
    if i < 0 || i >= entries.len() {
        entries.len() as int
    } else if entries[i].0 == id {
        i
    } else {
        find_id(entries, id, i + 1)
    }
}

impl<T> PendingTable<T> {
    /// Table discipline: every pending id was handed out before `next_id`,
    /// and no id occurs twice.
    pub open spec fn wf(self) -> bool {
        &&& self.next_id >= 1
        &&& forall|i: int| 0 <= i < self.entries@.len() ==> (#[trigger] self.entries@[i].0)
            < self.next_id
        &&& forall|i: int, j: int|
            0 <= i < j < self.entries@.len() ==> (#[trigger] self.entries@[i].0) != (
            #[trigger] self.entries@[j].0)
    }

    /// A fresh table; the first call gets id 1.
    pub fn new() -> (r: PendingTable<T>)
        ensures
            r.wf(),
            r.entries@.len() == 0,
            r.next_id == 1,
    {
        PendingTable { entries: Vec::new(), next_id: 1 }
    }

    /// Register one in-flight call: it gets the next id, which is returned
    /// and never handed out again.
    pub fn register(&mut self, slot: T) -> (id: u64)
        requires
            old(self).wf(),
            old(self).next_id < u64::MAX,
        ensures
            final(self).wf(),
            id == old(self).next_id,
            final(self).next_id == old(self).next_id + 1,
            final(self).entries@ == old(self).entries@.push((id, slot)),
            forall|i: int|
                0 <= i < old(self).entries@.len() ==> (#[trigger] old(
                    self,
                ).entries@[i].0) != id,
    {
        let id = self.next_id;
        self.entries.push((id, slot));
        self.next_id = self.next_id + 1;
        id
    }

    /// Deliver a reply: remove and return the slot registered under this
    /// id, or `None` (table unchanged) when no call is waiting on it — a
    /// reply to an abandoned or duplicate id is dropped silently.
    pub fn resolve(&mut self, id: u64) -> (r: Option<T>)
        requires
            old(self).wf(),
        ensures
            final(self).wf(),
            final(self).next_id == old(self).next_id,
            ({
                let k = find_id(old(self).entries@, id, 0);
                if k < old(self).entries@.len() {
                    &&& (r matches Some(slot) && (id, slot) == old(self).entries@[k])
                    &&& final(self).entries@ == old(self).entries@.remove(k)
                } else {
                    r is None && final(self).entries@ == old(self).entries@
                }
            }),
    {
        let ghost evs = self.entries@;
        let n = self.entries.len();
        let mut i: usize = 0;
        while i < n
            invariant
                i <= n == evs.len(),
                evs == self.entries@,
                evs == old(self).entries@,
                self.next_id == old(self).next_id,
                old(self).wf(),
                find_id(evs, id, 0) == find_id(evs, id, i as int),
            decreases n - i,
        {
            if self.entries[i].0 == id {
                proof {
                    assert(find_id(evs, id, i as int) == i);
                }
                let e = self.entries.remove(i);
                proof {
                    assert forall|a: int, b: int|
                        0 <= a < b < self.entries@.len() implies (#[trigger] self.entries@[a].0)
                        != (#[trigger] self.entries@[b].0) by {
                        let ea = if a < i {
                            a
                        } else {
                            a + 1
                        };
                        let eb = if b < i {
                            b
                        } else {
                            b + 1
                        };
                        assert(evs[ea].0 != evs[eb].0);
                    }
                }
                return Some(e.1);
            }
            i = i + 1;
        }
        proof {
            assert(find_id(evs, id, n as int) == evs.len());
        }
        None
    }
}

/// Law: out-of-order replies are routed to the calls that issued their
/// ids, never to another pending call. Two calls registered one after the
/// other get distinct ids, and resolving each id yields exactly the slot
/// registered under it, in either arrival order.
pub proof fn lemma_reply_routing<T>(entries: Seq<(u64, T)>, id: u64)
    requires
        forall|i: int, j: int|
            0 <= i < j < entries.len() ==> (#[trigger] entries[i].0) != (#[trigger] entries[j].0),
    ensures
        ({
            let k = find_id(entries, id, 0);
            &&& 0 <= k <= entries.len()
            &&& (k < entries.len() ==> entries[k].0 == id)
            &&& forall|m: int| 0 <= m < entries.len() && entries[m].0 == id ==> m == k
        }),
{
    lemma_find_id_range(entries, id, 0);
    let k = find_id(entries, id, 0);
    assert forall|m: int| 0 <= m < entries.len() && entries[m].0 == id implies m == k by {
        if m < k {
            assert(entries[m].0 != id);
        } else if m > k {
            assert(entries[k].0 != entries[m].0);
        }
    }
}

/// The found index is in range and is the first hit.
pub proof fn lemma_find_id_range<T>(entries: Seq<(u64, T)>, id: u64, i: int)
    requires
        0 <= i <= entries.len(),
    ensures
        i <= find_id(entries, id, i) <= entries.len(),
        find_id(entries, id, i) < entries.len() ==> entries[find_id(entries, id, i)].0 == id,
        forall|k: int| i <= k < find_id(entries, id, i) ==> entries[k].0 != id,
    decreases entries.len() - i,
{
    if i < entries.len() && entries[i].0 != id {
        lemma_find_id_range(entries, id, i + 1);
    }
}

} // verus!
