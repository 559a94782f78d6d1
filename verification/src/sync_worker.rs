//! One sync pass: the replay of pending offline events against the server,
//! in FIFO order, with the per-event disposition policy.
//!
//! The worker walks a snapshot of the pending queue front to back. A reply
//! decides each event's fate: success marks it synced and counts it; a
//! transient failure halts the pass (the server is still unreachable, and
//! halting preserves order for the next pass); any other error discards the
//! event — marks it synced without counting it — so one poisoned event can
//! never block the queue. The transport drives the loop from outside:
//! [`SyncPass::next_request`] names the event to send, and
//! [`SyncPass::note`] consumes the outcome and says which record to mark.

use vstd::prelude::*;

use crate::api::{spec_is_transient, ApiError, ClockResponse};
use crate::buffer::{pending_of, BufferedEvent, EventModel};

verus! {

/// Strictly ascending record ids, the order the buffer keeps.
pub open spec fn sorted_by_id(s: Seq<EventModel>) -> bool {
    forall|i: int, j: int| 0 <= i < j < s.len() ==> #[trigger] s[i].id < #[trigger] s[j].id
}

/// The pending queue of an id-sorted record list is itself id-sorted, and
/// no pending record's id falls below the head's.
pub proof fn lemma_pending_sorted(s: Seq<EventModel>)
    requires
        sorted_by_id(s),
    ensures
        sorted_by_id(pending_of(s)),
        s.len() > 0 ==> forall|k: int|
            0 <= k < pending_of(s).len() ==> #[trigger] pending_of(s)[k].id >= s[0].id,
    decreases s.len(),
{
    if s.len() > 0 {
        let s1 = s.drop_first();
        assert forall|i: int, j: int|
            0 <= i < j < s1.len() implies #[trigger] s1[i].id < #[trigger] s1[j].id by {
            assert(s1[i] == s[i + 1]);
            assert(s1[j] == s[j + 1]);
        }
        lemma_pending_sorted(s1);
        if !s[0].synced {
            let p = pending_of(s);
            assert(p == seq![s[0]] + pending_of(s1));
            assert forall|i: int, j: int|
                0 <= i < j < p.len() implies #[trigger] p[i].id < #[trigger] p[j].id by {
                if i == 0 {
                    assert(p[j] == pending_of(s1)[j - 1]);
                    if s1.len() > 0 {
                        assert(pending_of(s1)[j - 1].id >= s1[0].id);
                        assert(s1[0] == s[1]);
                    }
                } else {
                    assert(p[i] == pending_of(s1)[i - 1]);
                    assert(p[j] == pending_of(s1)[j - 1]);
                }
            }
            assert forall|k: int|
                0 <= k < p.len() implies #[trigger] p[k].id >= s[0].id by {
                if k > 0 {
                    assert(p[k] == pending_of(s1)[k - 1]);
                    if s1.len() > 0 {
                        assert(pending_of(s1)[k - 1].id >= s1[0].id);
                        assert(s1[0] == s[1]);
                    }
                }
            }
        } else {
            let p = pending_of(s);
            assert(p == pending_of(s1));
            assert forall|k: int|
                0 <= k < p.len() implies #[trigger] p[k].id >= s[0].id by {
                if s1.len() > 0 {
                    assert(pending_of(s1)[k].id >= s1[0].id);
                    assert(s1[0] == s[1]);
                }
            }
        }
    }
}

/// In an id-sorted snapshot, the event replayed earlier has the smaller
/// id: together with [`SyncPass::next_request`] — whose contract says the
/// k-th request of a pass carries the k-th snapshot entry — this is the
/// FIFO replay guarantee: of two buffered events, the one with the smaller
/// id reaches the server first.
pub proof fn lemma_replay_fifo(events: Seq<EventModel>, i: int, j: int)
    requires
        sorted_by_id(events),
        0 <= i < j < events.len(),
    ensures
        events[i].id < events[j].id,
{
}

/// One sync pass over a snapshot of the pending queue.
pub struct SyncPass {
    events: Vec<BufferedEvent>,
    idx: usize,
    synced: u32,
    halted: bool,
}

impl SyncPass {
    /// The snapshot being replayed, in order.
    pub closed spec fn spec_events(&self) -> Seq<EventModel> {
        self.events@.map(|i: int, e: BufferedEvent| e@)
    }

    /// How many snapshot entries have been decided (sent and not halted).
    pub closed spec fn spec_idx(&self) -> int {
        self.idx as int
    }

    /// How many events the server accepted in this pass.
    pub closed spec fn spec_synced(&self) -> u32 {
        self.synced
    }

    /// Whether the pass stopped early on a transient failure.
    pub closed spec fn spec_halted(&self) -> bool {
        self.halted
    }

    pub open spec fn wf(&self) -> bool {
        0 <= self.spec_idx() <= self.spec_events().len() && self.spec_synced()
            <= self.spec_idx()
    }

    /// A pass over this snapshot of pending events (oldest first, as
    /// `get_pending` returns them).
    pub fn new(pending: Vec<BufferedEvent>) -> (r: SyncPass)
        ensures
            r.wf(),
            r.spec_events() == pending@.map(|i: int, e: BufferedEvent| e@),
            r.spec_idx() == 0,
            r.spec_synced() == 0,
            !r.spec_halted(),
    {
        SyncPass { events: pending, idx: 0, synced: 0, halted: false }
    }

    /// The next event to send, if the pass is still running: the k-th
    /// request of a pass is exactly the k-th snapshot entry, so events go
    /// out strictly in snapshot order.
    pub fn next_request(&self) -> (r: Option<BufferedEvent>)
        requires
            self.wf(),
        ensures
            if self.spec_halted() || self.spec_idx() == self.spec_events().len() {
                r is None
            } else {
                r matches Option::Some(ev) && ev@ == self.spec_events()[self.spec_idx()]
            },
    {
        if self.halted || self.idx >= self.events.len() {
            Option::None
        } else {
            Option::Some(self.events[self.idx].copy_of())
        }
    }

    /// Consumes the outcome of the event just sent and returns the id to
    /// mark synced, if any: a success marks and counts it; a transient
    /// failure halts the pass and marks nothing; any other error discards
    /// the event by marking it without counting it.
    pub fn note(&mut self, outcome: &Result<ClockResponse, ApiError>) -> (mark: Option<i64>)
        requires
            old(self).wf(),
            !old(self).spec_halted(),
            old(self).spec_idx() < old(self).spec_events().len(),
            old(self).spec_synced() < u32::MAX,
        ensures
            final(self).wf(),
            final(self).spec_events() == old(self).spec_events(),
            ({
                let ev = old(self).spec_events()[old(self).spec_idx()];
                match *outcome {
                    Result::Ok(_) => {
                        &&& final(self).spec_idx() == old(self).spec_idx() + 1
                        &&& final(self).spec_synced() == old(self).spec_synced() + 1
                        &&& !final(self).spec_halted()
                        &&& mark matches Option::Some(id) && id == ev.id
                    },
                    Result::Err(e) => {
                        if spec_is_transient(e) {
                            &&& final(self).spec_idx() == old(self).spec_idx()
                            &&& final(self).spec_synced() == old(self).spec_synced()
                            &&& final(self).spec_halted()
                            &&& mark is None
                        } else {
                            &&& final(self).spec_idx() == old(self).spec_idx() + 1
                            &&& final(self).spec_synced() == old(self).spec_synced()
                            &&& !final(self).spec_halted()
                            &&& mark matches Option::Some(id) && id == ev.id
                        }
                    },
                }
            }),
    {
        let n = self.events.len();
        proof {
            assert(self.spec_events().len() == self.events@.len());
            assert(self.idx < n);
        }
        let id = self.events[self.idx].id;
        match outcome {
            Result::Ok(_) => {
                self.idx = self.idx + 1;
                self.synced = self.synced + 1;
                Option::Some(id)
            },
            Result::Err(e) => {
                if e.is_transient() {
                    self.halted = true;
                    Option::None
                } else {
                    self.idx = self.idx + 1;
                    Option::Some(id)
                }
            },
        }
    }

    /// How many events the server accepted in this pass; what
    /// `SyncComplete` reports.
    pub fn synced_count(&self) -> (n: u32)
        ensures
            n == self.spec_synced(),
    {
        self.synced
    }

    /// Whether the pass is over, by halt or by exhaustion.
    pub fn done(&self) -> (b: bool)
        requires
            self.wf(),
        ensures
            b == (self.spec_halted() || self.spec_idx() == self.spec_events().len()),
    {
        self.halted || self.idx >= self.events.len()
    }
}

} // verus!
