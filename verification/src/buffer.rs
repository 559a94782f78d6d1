//! The offline event buffer: a durable, bounded, strictly FIFO queue of scan
//! events that were accepted while the attendance server was unreachable.
//!
//! This is the verified queue itself; a process shell mirrors every operation
//! into an on-disk store and reloads the queue through
//! [`restore_event`] on startup. Records are ordered by a strictly
//! increasing local id; a record is only ever changed by setting its synced
//! flag, and when the pending count has reached the configured maximum a
//! push first drops the oldest unsynced record.

use vstd::prelude::*;

use crate::timestamp::{restore_timestamp, valid_rfc3339};

verus! {

/// One buffered scan: local id, badge tag, terminal id, the RFC 3339 text of
/// the instant the scan was accepted, and whether the server has seen it.
pub struct BufferedEvent {
    pub id: i64,
    pub rfid_tag_id: String,
    pub terminal_id: String,
    pub timestamp: String,
    pub synced: bool,
}

/// The mathematical shadow of a buffered scan.
pub ghost struct EventModel {
    pub id: int,
    pub tag: Seq<char>,
    pub terminal: Seq<char>,
    pub timestamp: Seq<char>,
    pub synced: bool,
}

impl View for BufferedEvent {
    type V = EventModel;

    open spec fn view(&self) -> EventModel {
        EventModel {
            id: self.id as int,
            tag: self.rfid_tag_id@,
            terminal: self.terminal_id@,
            timestamp: self.timestamp@,
            synced: self.synced,
        }
    }
}

impl BufferedEvent {
    /// A field-for-field copy.
    pub fn copy_of(&self) -> (r: BufferedEvent)
        ensures
            r@ == self@,
    {
        BufferedEvent {
            id: self.id,
            rfid_tag_id: self.rfid_tag_id.clone(),
            terminal_id: self.terminal_id.clone(),
            timestamp: self.timestamp.clone(),
            synced: self.synced,
        }
    }
}

/// The events of `s` that the server has not seen yet, in order.
pub open spec fn pending_of(s: Seq<EventModel>) -> Seq<EventModel>
    decreases s.len(),
{
    if s.len() == 0 {
        Seq::empty()
    } else if s[0].synced {
        pending_of(s.drop_first())
    } else {
        seq![s[0]] + pending_of(s.drop_first())
    }
}

/// Taking pending events distributes over concatenation.
pub proof fn lemma_pending_concat(a: Seq<EventModel>, b: Seq<EventModel>)
    ensures
        pending_of(a + b) == pending_of(a) + pending_of(b),
    decreases a.len(),
{
    if a.len() == 0 {
        assert(a + b =~= b);
        assert(pending_of(a) + pending_of(b) =~= pending_of(b));
    } else {
        assert((a + b).drop_first() =~= a.drop_first() + b);
        lemma_pending_concat(a.drop_first(), b);
        if !a[0].synced {
            assert(seq![a[0]] + (pending_of(a.drop_first()) + pending_of(b)) =~= (seq![a[0]]
                + pending_of(a.drop_first())) + pending_of(b));
        }
    }
}

/// Pending events of a single record.
pub proof fn lemma_pending_single(e: EventModel)
    ensures
        pending_of(seq![e]) == if e.synced {
            Seq::<EventModel>::empty()
        } else {
            seq![e]
        },
{
    reveal_with_fuel(pending_of, 3);
    assert(seq![e].drop_first() =~= Seq::<EventModel>::empty());
    if !e.synced {
        assert(seq![e] + Seq::<EventModel>::empty() =~= seq![e]);
    }
}

/// Nothing in the pending queue carries a set synced flag.
pub proof fn lemma_pending_unsynced(s: Seq<EventModel>)
    ensures
        forall|k: int| 0 <= k < pending_of(s).len() ==> !(#[trigger] pending_of(s)[k].synced),
    decreases s.len(),
{
    if s.len() > 0 {
        lemma_pending_unsynced(s.drop_first());
        assert forall|k: int|
            0 <= k < pending_of(s).len() implies !(#[trigger] pending_of(s)[k].synced) by {
            if !s[0].synced {
                if k > 0 {
                    assert(pending_of(s)[k] == pending_of(s.drop_first())[k - 1]);
                } else {
                    assert(pending_of(s)[0] == s[0]);
                }
            } else {
                assert(pending_of(s) == pending_of(s.drop_first()));
            }
        }
    }
}

/// Once a record's synced flag is set it is never observed as pending
/// again: the flag is set only by [`EventBuffer::mark_synced`], which never
/// clears one, and a record with the flag set is absent from every later
/// pending queue.
pub proof fn lemma_synced_never_pending(s: Seq<EventModel>, i: int)
    requires
        0 <= i < s.len(),
        s[i].synced,
    ensures
        forall|k: int| 0 <= k < pending_of(s).len() ==> #[trigger] pending_of(s)[k] != s[i],
{
    lemma_pending_unsynced(s);
}

/// The index of the oldest (first, smallest-id) unsynced record.
pub open spec fn first_pending_index(s: Seq<EventModel>) -> int
    decreases s.len(),
{
    if s.len() == 0 {
        0
    } else if !s[0].synced {
        0
    } else {
        1 + first_pending_index(s.drop_first())
    }
}

pub proof fn lemma_first_pending_index(s: Seq<EventModel>)
    requires
        pending_of(s).len() > 0,
    ensures
        0 <= first_pending_index(s) < s.len(),
        !s[first_pending_index(s)].synced,
        forall|i: int| 0 <= i < first_pending_index(s) ==> s[i].synced,
        pending_of(s)[0] == s[first_pending_index(s)],
    decreases s.len(),
{
    if s.len() > 0 && s[0].synced {
        lemma_first_pending_index(s.drop_first());
        assert forall|i: int| 0 <= i < first_pending_index(s) implies s[i].synced by {
            if i > 0 {
                assert(s.drop_first()[i - 1] == s[i]);
            }
        }
        assert(s[first_pending_index(s)] == s.drop_first()[first_pending_index(s.drop_first())]);
    }
}

/// The record at the first pending index carries the smallest id of any
/// unsynced record, so an overflowing push drops exactly the oldest
/// pending scan.
pub proof fn lemma_first_pending_smallest(s: Seq<EventModel>)
    requires
        pending_of(s).len() > 0,
        forall|i: int, j: int| 0 <= i < j < s.len() ==> #[trigger] s[i].id < #[trigger] s[j].id,
    ensures
        forall|j: int|
            0 <= j < s.len() && !s[j].synced ==> s[first_pending_index(s)].id <= #[trigger] s[j].id,
{
    lemma_first_pending_index(s);
    assert forall|j: int|
        0 <= j < s.len() && !s[j].synced implies s[first_pending_index(s)].id
        <= #[trigger] s[j].id by {
        if j < first_pending_index(s) {
            assert(s[j].synced);
        }
    }
}

/// Dropping the oldest unsynced record drops the head of the pending queue.
pub proof fn lemma_remove_first_pending(s: Seq<EventModel>)
    requires
        pending_of(s).len() > 0,
    ensures
        pending_of(s.remove(first_pending_index(s))) == pending_of(s).drop_first(),
    decreases s.len(),
{
    let k = first_pending_index(s);
    lemma_first_pending_index(s);
    if s[0].synced {
        lemma_remove_first_pending(s.drop_first());
        assert(s.remove(k).drop_first() =~= s.drop_first().remove(k - 1));
        assert(!s.remove(k)[0].synced == !s[0].synced);
    } else {
        assert(s.remove(0) =~= s.drop_first());
        assert(pending_of(s).drop_first() =~= pending_of(s.drop_first()));
    }
}

/// The verified offline queue. `max_size` bounds the pending count; ids are
/// handed out from `next_id` and never reused.
pub struct EventBuffer {
    events: Vec<BufferedEvent>,
    next_id: i64,
    max_size: u32,
}

impl View for EventBuffer {
    type V = Seq<EventModel>;

    closed spec fn view(&self) -> Seq<EventModel> {
        self.events@.map(|i: int, e: BufferedEvent| e@)
    }
}

impl EventBuffer {
    /// The effective pending capacity: a maximum of zero still admits the
    /// record just pushed, so it acts like a capacity of one.
    pub open spec fn spec_cap(&self) -> int {
        if self.spec_max_size() == 0 {
            1
        } else {
            self.spec_max_size() as int
        }
    }

    pub closed spec fn spec_max_size(&self) -> u32 {
        self.max_size
    }

    pub closed spec fn spec_next_id(&self) -> int {
        self.next_id as int
    }

    /// Well-formedness: ids are strictly increasing (so FIFO order is id
    /// order), ids stay below `next_id`, and the pending count never exceeds
    /// the effective capacity.
    pub open spec fn wf(&self) -> bool {
        &&& forall|i: int, j: int|
            0 <= i < j < self@.len() ==> #[trigger] self@[i].id < #[trigger] self@[j].id
        &&& forall|i: int| 0 <= i < self@.len() ==> 1 <= #[trigger] self@[i].id < self.spec_next_id()
        &&& 1 <= self.spec_next_id()
        &&& pending_of(self@).len() <= self.spec_cap()
    }

    /// A fresh, empty buffer with the given pending bound.
    pub fn new(max_size: u32) -> (r: EventBuffer)
        ensures
            r.wf(),
            r@ =~= Seq::<EventModel>::empty(),
            r.spec_max_size() == max_size,
            r.spec_next_id() == 1,
    {
        let r = EventBuffer { events: Vec::new(), next_id: 1, max_size };
        proof {
            assert(r@ =~= Seq::<EventModel>::empty());
        }
        r
    }

    /// The number of records the server has not seen yet.
    pub fn pending_count(&self) -> (n: u32)
        requires
            self.wf(),
        ensures
            n as int == pending_of(self@).len(),
    {
        let mut i: usize = 0;
        let mut n: u32 = 0;
        proof {
            assert(self@.take(0) =~= Seq::<EventModel>::empty());
        }
        while i < self.events.len()
            invariant
                0 <= i <= self.events.len(),
                self.wf(),
                n as int == pending_of(self@.take(i as int)).len(),
                n as int <= self.spec_cap(),
            decreases self.events.len() - i,
        {
            proof {
                assert(self@.take(i + 1) =~= self@.take(i as int) + seq![self@[i as int]]);
                lemma_pending_concat(self@.take(i as int), seq![self@[i as int]]);
                lemma_pending_single(self@[i as int]);
                assert(self@.take(self.events.len() as int) =~= self@);
                lemma_pending_prefix_bound(self@, i + 1);
            }
            if !self.events[i].synced {
                n = n + 1;
            }
            i = i + 1;
        }
        proof {
            assert(self@.take(self.events.len() as int) =~= self@);
        }
        n
    }

    /// Accepts a scan into the buffer and returns its id. If the pending
    /// count has reached the configured maximum, the oldest unsynced record
    /// is dropped first, so the pending queue keeps its newest entries.
    pub fn push(&mut self, rfid_tag_id: &str, terminal_id: &str, timestamp: &str) -> (id: i64)
        requires
            old(self).wf(),
            old(self).spec_next_id() < i64::MAX,
        ensures
            final(self).wf(),
            id == old(self).spec_next_id(),
            final(self).spec_next_id() == old(self).spec_next_id() + 1,
            final(self).spec_max_size() == old(self).spec_max_size(),
            ({
                let new_ev = EventModel {
                    id: old(self).spec_next_id(),
                    tag: rfid_tag_id@,
                    terminal: terminal_id@,
                    timestamp: timestamp@,
                    synced: false,
                };
                if pending_of(old(self)@).len() < old(self).spec_max_size() {
                    final(self)@ == old(self)@.push(new_ev)
                } else if pending_of(old(self)@).len() > 0 {
                    final(self)@ == old(self)@.remove(first_pending_index(old(self)@)).push(
                        new_ev,
                    )
                } else {
                    final(self)@ == old(self)@.push(new_ev)
                }
            }),
            pending_of(final(self)@).len() <= final(self).spec_cap(),
    {
        let count = self.pending_count();
        if count >= self.max_size {
            self.drop_oldest_pending();
        }
        let id = self.next_id;
        let ev = BufferedEvent {
            id,
            rfid_tag_id: rfid_tag_id.to_owned(),
            terminal_id: terminal_id.to_owned(),
            timestamp: timestamp.to_owned(),
            synced: false,
        };
        let ghost pre = self@;
        self.events.push(ev);
        self.next_id = id + 1;
        proof {
            assert(self@ =~= pre.push(ev@));
            lemma_pending_concat(pre, seq![ev@]);
            lemma_pending_single(ev@);
            assert(pre.push(ev@) =~= pre + seq![ev@]);
            if pending_of(old(self)@).len() >= old(self).spec_max_size()
                && pending_of(old(self)@).len() > 0 {
                lemma_first_pending_index(old(self)@);
                lemma_remove_first_pending(old(self)@);
            }
            assert forall|a: int, b: int|
                0 <= a < b < self@.len() implies #[trigger] self@[a].id
                < #[trigger] self@[b].id by {
                if b < pre.len() {
                } else {
                    assert(self@[b] == ev@);
                }
            }
            assert(pending_of(self@).len() == pending_of(pre).len() + 1);
        }
        id
    }

    /// Removes the record with the smallest unsynced id, if one exists.
    fn drop_oldest_pending(&mut self)
        requires
            old(self).wf(),
        ensures
            final(self).spec_next_id() == old(self).spec_next_id(),
            final(self).spec_max_size() == old(self).spec_max_size(),
            if pending_of(old(self)@).len() > 0 {
                final(self)@ == old(self)@.remove(first_pending_index(old(self)@))
            } else {
                final(self)@ == old(self)@
            },
            final(self).wf(),
            pending_of(final(self)@).len() == if pending_of(old(self)@).len() > 0 {
                pending_of(old(self)@).len() - 1
            } else {
                0
            },
    {
        let ghost pre = self@;
        let mut i: usize = 0;
        while i < self.events.len()
            invariant
                0 <= i <= self.events.len(),
                self.wf(),
                self@ == pre,
                pre == old(self)@,
                self.spec_next_id() == old(self).spec_next_id(),
                self.spec_max_size() == old(self).spec_max_size(),
                forall|j: int| 0 <= j < i ==> pre[j].synced,
            decreases self.events.len() - i,
        {
            if !self.events[i].synced {
                proof {
                    lemma_first_pending_is(pre, i as int);
                    assert(pending_of(pre).len() > 0) by {
                        lemma_pending_nonempty(pre, i as int);
                    }
                }
                self.events.remove(i);
                proof {
                    assert(self@ =~= pre.remove(i as int));
                    lemma_remove_first_pending(pre);
                    lemma_first_pending_index(pre);
                    assert(forall|x: int| 0 <= x < i ==> #[trigger] self@[x] == pre[x]);
                    assert(forall|x: int|
                        i <= x < self@.len() ==> #[trigger] self@[x] == pre[x + 1]);
                    assert forall|a: int, b: int|
                        0 <= a < b < self@.len() implies #[trigger] self@[a].id
                        < #[trigger] self@[b].id by {
                    }
                }
                return ;
            }
            i = i + 1;
        }
        proof {
            lemma_all_synced_no_pending(pre);
        }
    }

    /// Marks the record with this id as seen by the server. Idempotent; any
    /// other record is untouched, and no synced flag is ever cleared.
    pub fn mark_synced(&mut self, id: i64)
        requires
            old(self).wf(),
        ensures
            final(self).wf(),
            final(self).spec_next_id() == old(self).spec_next_id(),
            final(self).spec_max_size() == old(self).spec_max_size(),
            final(self)@.len() == old(self)@.len(),
            forall|j: int|
                0 <= j < old(self)@.len() ==> #[trigger] final(self)@[j] == (EventModel {
                    synced: old(self)@[j].synced || old(self)@[j].id == id,
                    ..old(self)@[j]
                }),
    {
        let ghost pre = self@;
        let mut i: usize = 0;
        while i < self.events.len()
            invariant
                0 <= i <= self.events.len(),
                pre == old(self)@,
                self@.len() == pre.len(),
                self.spec_next_id() == old(self).spec_next_id(),
                self.spec_max_size() == old(self).spec_max_size(),
                forall|j: int|
                    0 <= j < i ==> #[trigger] self@[j] == (EventModel {
                        synced: pre[j].synced || pre[j].id == id,
                        ..pre[j]
                    }),
                forall|j: int| i <= j < pre.len() ==> #[trigger] self@[j] == pre[j],
            decreases self.events.len() - i,
        {
            let ghost prev = self@;
            if self.events[i].id == id {
                self.events[i].synced = true;
                proof {
                    assert(self@ =~= prev.update(
                        i as int,
                        EventModel { synced: true, ..prev[i as int] },
                    ));
                }
            }
            i = i + 1;
        }
        proof {
            lemma_mark_keeps_bound(pre, self@);
            assert forall|a: int, b: int|
                0 <= a < b < self@.len() implies #[trigger] self@[a].id
                < #[trigger] self@[b].id by {
                assert(self@[a].id == pre[a].id);
                assert(self@[b].id == pre[b].id);
            }
            assert forall|a: int|
                0 <= a < self@.len() implies 1 <= #[trigger] self@[a].id
                < self.spec_next_id() by {
                assert(self@[a].id == pre[a].id);
            }
        }
    }

    /// All records the server has not seen, oldest first. The caller gets
    /// copies; the buffer itself is untouched.
    pub fn get_pending(&self) -> (r: Vec<BufferedEvent>)
        requires
            self.wf(),
        ensures
            r@.map(|i: int, e: BufferedEvent| e@) == pending_of(self@),
    {
        let mut r: Vec<BufferedEvent> = Vec::new();
        let mut i: usize = 0;
        proof {
            assert(self@.take(0) =~= Seq::<EventModel>::empty());
            assert(r@.map(|i: int, e: BufferedEvent| e@) =~= pending_of(self@.take(0)));
        }
        while i < self.events.len()
            invariant
                0 <= i <= self.events.len(),
                self.wf(),
                r@.map(|i: int, e: BufferedEvent| e@) == pending_of(self@.take(i as int)),
            decreases self.events.len() - i,
        {
            proof {
                assert(self@.take(i + 1) =~= self@.take(i as int) + seq![self@[i as int]]);
                lemma_pending_concat(self@.take(i as int), seq![self@[i as int]]);
                lemma_pending_single(self@[i as int]);
            }
            let ghost rpre = r@;
            if !self.events[i].synced {
                r.push(self.events[i].copy_of());
                proof {
                    assert(r@.map(|i: int, e: BufferedEvent| e@) =~= rpre.map(
                        |i: int, e: BufferedEvent| e@,
                    ) + seq![self@[i as int]]);
                }
            } else {
                proof {
                    assert(pending_of(self@.take(i + 1)) =~= pending_of(self@.take(i as int)));
                }
            }
            i = i + 1;
        }
        proof {
            assert(self@.take(self.events.len() as int) =~= self@);
        }
        r
    }
}

proof fn lemma_pending_prefix_bound(s: Seq<EventModel>, i: int)
    requires
        0 <= i <= s.len(),
    ensures
        pending_of(s.take(i)).len() <= pending_of(s).len(),
    decreases s.len() - i,
{
    if i < s.len() {
        assert(s.take(i + 1) =~= s.take(i) + seq![s[i]]);
        lemma_pending_concat(s.take(i), seq![s[i]]);
        lemma_pending_prefix_bound(s, i + 1);
        assert(s.take(s.len() as int) =~= s);
    } else {
        assert(s.take(i) =~= s);
    }
}

/// If every record before `k` is synced and `s[k]` is not, `k` is the first
/// pending index.
proof fn lemma_first_pending_is(s: Seq<EventModel>, k: int)
    requires
        0 <= k < s.len(),
        !s[k].synced,
        forall|j: int| 0 <= j < k ==> s[j].synced,
    ensures
        first_pending_index(s) == k,
    decreases k,
{
    if k > 0 {
        lemma_first_pending_is(s.drop_first(), k - 1);
    }
}

/// An unsynced record means a nonempty pending queue.
proof fn lemma_pending_nonempty(s: Seq<EventModel>, k: int)
    requires
        0 <= k < s.len(),
        !s[k].synced,
    ensures
        pending_of(s).len() > 0,
    decreases s.len(),
{
    if s.len() > 0 && s[0].synced {
        lemma_pending_nonempty(s.drop_first(), k - 1);
    }
}

/// With every record synced, nothing is pending.
proof fn lemma_all_synced_no_pending(s: Seq<EventModel>)
    requires
        forall|j: int| 0 <= j < s.len() ==> s[j].synced,
    ensures
        pending_of(s).len() == 0,
    decreases s.len(),
{
    if s.len() > 0 {
        lemma_all_synced_no_pending(s.drop_first());
    }
}

/// Marking records synced never grows the pending queue.
proof fn lemma_mark_keeps_bound(pre: Seq<EventModel>, post: Seq<EventModel>)
    requires
        pre.len() == post.len(),
        forall|j: int| 0 <= j < pre.len() ==> (pre[j].synced ==> #[trigger] post[j].synced),
    ensures
        pending_of(post).len() <= pending_of(pre).len(),
    decreases pre.len(),
{
    if pre.len() > 0 {
        assert forall|j: int|
            0 <= j < pre.drop_first().len() implies (pre.drop_first()[j].synced
            ==> #[trigger] post.drop_first()[j].synced) by {
            assert(post.drop_first()[j] == post[j + 1]);
            assert(pre.drop_first()[j] == pre[j + 1]);
        }
        lemma_mark_keeps_bound(pre.drop_first(), post.drop_first());
    }
}

/// What a reloaded record list must satisfy to become a buffer again:
/// strictly increasing ids starting at one or later, headroom for new ids,
/// and a pending count within the effective capacity.
pub open spec fn spec_restorable(s: Seq<EventModel>, max_size: u32) -> bool {
    &&& forall|i: int, j: int| 0 <= i < j < s.len() ==> #[trigger] s[i].id < #[trigger] s[j].id
    &&& forall|i: int| 0 <= i < s.len() ==> 1 <= #[trigger] s[i].id < i64::MAX
    &&& pending_of(s).len() <= if max_size == 0 {
        1int
    } else {
        max_size as int
    }
}

impl EventBuffer {
    /// Rebuilds a buffer from records read back from the durable store,
    /// oldest first. Succeeds exactly on record lists a buffer could have
    /// written: anything else leaves the store's contents to the caller.
    pub fn restore(events: Vec<BufferedEvent>, max_size: u32) -> (r: Option<EventBuffer>)
        ensures
            match r {
                Option::Some(b) => {
                    &&& spec_restorable(events@.map(|i: int, e: BufferedEvent| e@), max_size)
                    &&& b.wf()
                    &&& b@ == events@.map(|i: int, e: BufferedEvent| e@)
                    &&& b.spec_max_size() == max_size
                    &&& b.spec_next_id() == if events@.len() == 0 {
                        1int
                    } else {
                        events@.map(|i: int, e: BufferedEvent| e@).last().id + 1
                    }
                },
                Option::None => !spec_restorable(
                    events@.map(|i: int, e: BufferedEvent| e@),
                    max_size,
                ),
            },
    {
        let ghost model = events@.map(|i: int, e: BufferedEvent| e@);
        let n = events.len();
        let mut i: usize = 0;
        let mut pending: u64 = 0;
        let mut last_id: i64 = 0;
        proof {
            assert(model.take(0) =~= Seq::<EventModel>::empty());
        }
        while i < n
            invariant
                0 <= i <= n,
                n == events@.len(),
                model == events@.map(|i: int, e: BufferedEvent| e@),
                forall|a: int, b: int| 0 <= a < b < i ==> #[trigger] model[a].id
                    < #[trigger] model[b].id,
                forall|a: int| 0 <= a < i ==> 1 <= #[trigger] model[a].id < i64::MAX,
                i > 0 ==> last_id == model[i - 1].id,
                i == 0 ==> last_id == 0,
                pending as int == pending_of(model.take(i as int)).len(),
                pending <= i,
            decreases n - i,
        {
            let ev = &events[i];
            if ev.id < 1 || ev.id >= i64::MAX {
                proof {
                    assert(model[i as int] == events@[i as int]@);
                    assert(!(1 <= model[i as int].id < i64::MAX));
                }
                return Option::None;
            }
            if i > 0 && ev.id <= last_id {
                proof {
                    assert(model[i as int] == events@[i as int]@);
                    assert(model[i - 1].id == last_id);
                    assert(!(model[i - 1].id < model[i as int].id));
                }
                return Option::None;
            }
            proof {
                assert(model.take(i + 1) =~= model.take(i as int) + seq![model[i as int]]);
                lemma_pending_concat(model.take(i as int), seq![model[i as int]]);
                lemma_pending_single(model[i as int]);
            }
            if !ev.synced {
                pending = pending + 1;
            }
            last_id = ev.id;
            i = i + 1;
        }
        proof {
            assert(model.take(n as int) =~= model);
        }
        let cap: u64 = if max_size == 0 {
            1
        } else {
            max_size as u64
        };
        if pending > cap {
            return Option::None;
        }
        let next_id: i64 = if n == 0 {
            1
        } else {
            last_id + 1
        };
        let r = EventBuffer { events, next_id, max_size };
        proof {
            assert(r@ == model);
            assert forall|a: int| 0 <= a < r@.len() implies 1 <= #[trigger] r@[a].id
                < r.spec_next_id() by {
                if a < r@.len() - 1 {
                    assert(r@[a].id < r@[r@.len() - 1].id);
                }
            }
        }
        Option::Some(r)
    }
}

/// Rebuilds one buffered record as read back from the durable store. A
/// stored timestamp that no longer reads as a well-formed instant is
/// replaced by the current clock reading, so a damaged row never fails the
/// reload.
pub fn restore_event(
    id: i64,
    rfid_tag_id: &str,
    terminal_id: &str,
    stored_timestamp: &str,
    synced: bool,
    now: &str,
) -> (r: BufferedEvent)
    ensures
        r@ == (EventModel {
            id: id as int,
            tag: rfid_tag_id@,
            terminal: terminal_id@,
            timestamp: if valid_rfc3339(stored_timestamp@) {
                stored_timestamp@
            } else {
                now@
            },
            synced: synced,
        }),
{
    BufferedEvent {
        id,
        rfid_tag_id: rfid_tag_id.to_owned(),
        terminal_id: terminal_id.to_owned(),
        timestamp: restore_timestamp(stored_timestamp, now),
        synced,
    }
}

} // verus!
