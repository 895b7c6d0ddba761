//! The client's correlation table: each in-flight request identifier is
//! bound to the single waiter that issued it. The background reader
//! resolves entries; each caller registers once and waits once.

use vstd::prelude::*;
use crate::table::StrMap;

verus! {

/// Maps each in-flight request identifier to its one waiter. The waiter
/// type is the caller's: the table itself never looks inside it.
pub struct CorrelationTable<W> {
    entries: StrMap<W>,
}

impl<W> CorrelationTable<W> {
    /// The identifiers currently awaiting a response, each with its
    /// waiter.
    pub closed spec fn waiting(self) -> Map<Seq<char>, W> {
        self.entries.as_map()
    }

    /// The table's internal invariant.
    pub closed spec fn wf(self) -> bool {
        self.entries.wf()
    }

    /// A table with nothing in flight.
    pub fn new() -> (r: CorrelationTable<W>)
        ensures
            r.wf(),
            r.waiting() == Map::<Seq<char>, W>::empty(),
    {
        CorrelationTable { entries: StrMap::new() }
    }

    /// Enter a waiter for a fresh identifier. Reports whether the
    /// identifier was fresh; a duplicate changes nothing, so no earlier
    /// waiter can ever be displaced.
    pub fn register(&mut self, id: String, waiter: W) -> (r: bool)
        requires
            old(self).wf(),
        ensures
            final(self).wf(),
            r == !old(self).waiting().contains_key(id@),
            r ==> final(self).waiting() == old(self).waiting().insert(id@, waiter),
            !r ==> *final(self) == *old(self),
    {
        self.entries.insert_fresh(id, waiter)
    }

    /// Take the waiter registered under `id`, removing its entry in the
    /// same step, so that each entry is resolved at most once: a
    /// duplicate or late response for the same identifier finds nothing.
    pub fn resolve(&mut self, id: &String) -> (r: Option<W>)
        requires
            old(self).wf(),
        ensures
            final(self).wf(),
            (match r {
                Some(w) => old(self).waiting().contains_key(id@) && w == old(self).waiting()[id@]
                    && final(self).waiting() == old(self).waiting().remove(id@),
                None => !old(self).waiting().contains_key(id@) && *final(self) == *old(self),
            }),
    {
        self.entries.remove(id)
    }

    /// Drop the entry registered under `id`, if any, without handing the
    /// waiter out; reports whether one existed.
    pub fn forget(&mut self, id: &String) -> (r: bool)
        requires
            old(self).wf(),
        ensures
            final(self).wf(),
            r == old(self).waiting().contains_key(id@),
            final(self).waiting() == old(self).waiting().remove(id@),
    {
        let ghost pre = self.entries.as_map();
        match self.entries.remove(id) {
            Some(_) => true,
            None => {
                proof {
                    assert(pre.remove(id@) =~= pre);
                }
                false
            },
        }
    }
}

/// Correlation isolation: after two waiters register under distinct
/// identifiers, resolving the later identifier first still hands each
/// waiter exactly its own entry, and once an identifier is resolved a
/// duplicate response for it finds no waiter at all.
pub proof fn lemma_correlation_isolation<W>(
    m: Map<Seq<char>, W>,
    id1: Seq<char>,
    id2: Seq<char>,
    w1: W,
    w2: W,
)
    requires
        id1 != id2,
    ensures
        ({
            let after = m.insert(id1, w1).insert(id2, w2);
            &&& after.contains_key(id2) && after[id2] == w2
            &&& after.remove(id2).contains_key(id1) && after.remove(id2)[id1] == w1
            &&& !after.remove(id2).remove(id1).contains_key(id1)
            &&& !after.remove(id2).remove(id1).contains_key(id2)
        }),
{
}

} // verus!
