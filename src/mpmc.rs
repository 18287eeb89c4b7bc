//! A multiple producer, multiple consumer broadcast queue.
//!
//! Every item that is published is delivered once to each subscriber that was
//! registered when it was published, in publish order. An item is kept only as
//! long as some live subscriber still owes it a delivery.
use vstd::prelude::*;

verus! {

/// The shared lock guarding a queue was poisoned by an aborted critical section:
/// the queue is unavailable from then on.
#[derive(Debug, PartialEq, Eq, Structural)]
pub struct Poisoned;

/// Bookkeeping for one subscriber.
struct Slot<T, W> {
    /// Number of items published before the next one this subscriber will receive.
    last: u64,
    /// Wake handle registered by a poll that found nothing to deliver.
    waker: Option<W>,
    /// Number of items published before this subscriber joined.
    joined: Ghost<nat>,
    /// Items handed to this subscriber so far, in the order they were handed out.
    delivered: Ghost<Seq<T>>,
}

/// The receiving end of a subscription; it names one slot of one queue.
pub struct MpmcStream {
    id: usize,
}

impl MpmcStream {
    pub closed spec fn id(&self) -> usize {
        self.id
    }
}

/// Whether a slot is live and has not yet received the item at `k`
/// (0-based position in publish order).
spec fn owes<T, W>(slot: Option<Slot<T, W>>, k: int) -> bool {
    slot is Some && slot->0.last as int <= k
}

/// Number of live slots that still owe the item at position `k`.
spec fn owing<T, W>(slots: Seq<Option<Slot<T, W>>>, k: int) -> nat
    decreases slots.len(),
{
    if slots.len() == 0 {
        0
    } else {
        owing(slots.drop_last(), k) + if owes(slots.last(), k) {
            1nat
        } else {
            0nat
        }
    }
}

/// The wake handles held by the slots, in slot order.
spec fn wakers<T, W>(slots: Seq<Option<Slot<T, W>>>) -> Seq<W>
    decreases slots.len(),
{
    if slots.len() == 0 {
        Seq::empty()
    } else {
        let rest = wakers(slots.drop_last());
        match slots.last() {
            Some(s) => match s.waker {
                Some(w) => rest.push(w),
                None => rest,
            },
            None => rest,
        }
    }
}

proof fn lemma_owing_update<T, W>(slots: Seq<Option<Slot<T, W>>>, j: int, v: Option<Slot<T, W>>, k: int)
    requires
        0 <= j < slots.len(),
    ensures
        owing(slots.update(j, v), k) + (if owes(slots[j], k) { 1nat } else { 0nat })
            == owing(slots, k) + (if owes(v, k) { 1nat } else { 0nat }),
    decreases slots.len(),
{
    let u = slots.update(j, v);
    if j == slots.len() - 1 {
        assert(u.drop_last() =~= slots.drop_last());
    } else {
        assert(u.drop_last() =~= slots.drop_last().update(j, v));
        lemma_owing_update(slots.drop_last(), j, v, k);
    }
}

proof fn lemma_owing_mono<T, W>(slots: Seq<Option<Slot<T, W>>>, k1: int, k2: int)
    requires
        k1 <= k2,
    ensures
        owing(slots, k1) <= owing(slots, k2),
    decreases slots.len(),
{
    if slots.len() > 0 {
        lemma_owing_mono(slots.drop_last(), k1, k2);
    }
}

proof fn lemma_owing_bound<T, W>(slots: Seq<Option<Slot<T, W>>>, k: int)
    ensures
        owing(slots, k) <= slots.len(),
    decreases slots.len(),
{
    if slots.len() > 0 {
        lemma_owing_bound(slots.drop_last(), k);
    }
}

/// `owing` is positive exactly when some slot owes the item.
proof fn lemma_owing_pos<T, W>(slots: Seq<Option<Slot<T, W>>>, k: int)
    ensures
        owing(slots, k) > 0 <==> exists|j: int| 0 <= j < slots.len() && owes(#[trigger] slots[j], k),
    decreases slots.len(),
{
    if slots.len() > 0 {
        let d = slots.drop_last();
        lemma_owing_pos(d, k);
        if owing(slots, k) > 0 {
            if !owes(slots.last(), k) {
                let j = choose|j: int| 0 <= j < d.len() && owes(#[trigger] d[j], k);
                assert(slots[j] == d[j]);
            }
        } else {
            assert forall|j: int| 0 <= j < slots.len() implies !owes(#[trigger] slots[j], k) by {
                if j < d.len() {
                    assert(slots[j] == d[j]);
                }
            }
        }
    }
}

/// Slots that all sit at or before `k1`, or after `k2`, owe the same number of items
/// at both positions.
proof fn lemma_owing_flat<T, W>(slots: Seq<Option<Slot<T, W>>>, k1: int, k2: int)
    requires
        k1 <= k2,
        forall|j: int|
            0 <= j < slots.len() && (#[trigger] slots[j]) is Some ==> slots[j]->0.last as int <= k1
                || slots[j]->0.last as int > k2,
    ensures
        owing(slots, k1) == owing(slots, k2),
    decreases slots.len(),
{
    if slots.len() > 0 {
        let d = slots.drop_last();
        assert forall|j: int| 0 <= j < d.len() && (#[trigger] d[j]) is Some implies d[j]->0.last
            as int <= k1 || d[j]->0.last as int > k2 by {
            assert(d[j] == slots[j]);
        }
        lemma_owing_flat(d, k1, k2);
        assert(slots.last() == slots[slots.len() - 1]);
    }
}

/// A broadcast queue holding items of type `T` and wake handles of type `W`.
pub struct Mpmc<T, W> {
    /// Number of items published so far.
    last_added: u64,
    /// Items still owed to some subscriber, oldest first; they are the last
    /// `items.len()` items published.
    items: Vec<T>,
    /// For each stored item, the number of live subscribers that still owe it.
    pending: Vec<usize>,
    /// Subscriber slots, indexed by subscription id; `None` once unsubscribed.
    slots: Vec<Option<Slot<T, W>>>,
    /// Number of live subscribers.
    live: usize,
    /// Every item published so far, in publish order.
    history: Ghost<Seq<T>>,
}

impl<T, W> Mpmc<T, W> {
    /// Every item published so far, in publish order.
    pub closed spec fn history(&self) -> Seq<T> {
        self.history@
    }

    /// Position in `history` of the oldest stored item.
    pub closed spec fn base(&self) -> int {
        self.last_added - self.items@.len()
    }

    /// Whether the item at position `k` of `history` is held in storage.
    pub open spec fn stores(&self, k: int) -> bool {
        self.base() <= k < self.history().len()
    }

    /// Whether `id` names a live subscription.
    pub closed spec fn subscribed(&self, id: usize) -> bool {
        id < self.slots@.len() && self.slots@[id as int] is Some
    }

    /// Position in `history` of the next item the subscriber will receive.
    pub closed spec fn cursor(&self, id: usize) -> nat {
        self.slots@[id as int]->0.last as nat
    }

    /// Length of `history` when the subscriber joined.
    pub closed spec fn joined(&self, id: usize) -> nat {
        self.slots@[id as int]->0.joined@
    }

    /// Items handed to the subscriber so far.
    pub closed spec fn delivered(&self, id: usize) -> Seq<T> {
        self.slots@[id as int]->0.delivered@
    }

    /// The wake handle the subscriber registered, if any.
    pub closed spec fn waker(&self, id: usize) -> Option<W> {
        self.slots@[id as int]->0.waker
    }

    /// Number of subscription ids handed out so far; every live id is below it.
    pub closed spec fn issued(&self) -> nat {
        self.slots@.len()
    }

    /// The live subscribers below `n` that hold a wake handle, in increasing id order.
    pub open spec fn waiting_below(&self, n: nat) -> Seq<usize>
        decreases n,
    {
        if n == 0 {
            Seq::empty()
        } else {
            let rest = self.waiting_below((n - 1) as nat);
            let id = (n - 1) as usize;
            if self.subscribed(id) && self.waker(id) is Some {
                rest.push(id)
            } else {
                rest
            }
        }
    }

    /// The wake handles held by live subscribers, one per subscriber, in id order.
    pub open spec fn waiting_handles(&self) -> Seq<W> {
        self.waiting_below(self.issued()).map_values(|id: usize| self.waker(id)->0)
    }

    /// Whether the subscriber still owes the item at position `k`: it was
    /// registered when the item was published and has not received it yet.
    pub open spec fn owes_item(&self, id: usize, k: int) -> bool {
        self.subscribed(id) && self.joined(id) <= k && self.cursor(id) <= k
    }

    pub closed spec fn wf(&self) -> bool {
        &&& self.wf_except_pending()
        &&& forall|i: int|
            0 <= i < self.pending@.len() ==> #[trigger] self.pending@[i] == owing(
                self.slots@,
                self.base() + i,
            ) && self.pending@[i] > 0
    }

    closed spec fn wf_except_pending(&self) -> bool {
        &&& self.history@.len() == self.last_added
        &&& self.items@.len() == self.pending@.len()
        &&& self.items@.len() <= self.last_added
        &&& self.items@ =~= self.history@.subrange(self.base(), self.last_added as int)
        &&& self.live == owing(self.slots@, self.last_added as int)
        &&& self.slots@.len() <= usize::MAX
        &&& forall|j: int|
            0 <= j < self.slots@.len() && (#[trigger] self.slots@[j]) is Some ==> {
                let s = self.slots@[j]->0;
                &&& self.base() <= s.last <= self.last_added
                &&& s.joined@ <= s.last
                &&& s.delivered@ =~= self.history@.subrange(s.joined@ as int, s.last as int)
            }
    }
}

impl<T, W> Mpmc<T, W> {
    /// Create an empty queue with no subscribers.
    pub fn new() -> (r: Self)
        ensures
            r.wf(),
            r.history() == Seq::<T>::empty(),
            forall|id: usize| !r.subscribed(id),
    {
        Mpmc {
            last_added: 0,
            items: Vec::new(),
            pending: Vec::new(),
            slots: Vec::new(),
            live: 0,
            history: Ghost(Seq::empty()),
        }
    }

    /// Number of items published so far.
    pub fn published(&self) -> (r: u64)
        requires
            self.wf(),
        ensures
            r == self.history().len(),
    {
        self.last_added
    }

    /// Whether `stream` names a live subscription of this queue.
    pub fn is_subscribed(&self, stream: &MpmcStream) -> (r: bool)
        ensures
            r == self.subscribed(stream.id()),
    {
        stream.id < self.slots.len() && self.slots[stream.id].is_some()
    }

    /// Register a new subscriber. It will receive every item published from now on.
    pub fn stream(&mut self) -> (r: MpmcStream)
        requires
            old(self).wf(),
        ensures
            final(self).wf(),
            !old(self).subscribed(r.id()),
            final(self).subscribed(r.id()),
            final(self).history() == old(self).history(),
            final(self).joined(r.id()) == old(self).history().len(),
            final(self).cursor(r.id()) == old(self).history().len(),
            final(self).delivered(r.id()) == Seq::<T>::empty(),
            final(self).waker(r.id()) is None,
            forall|k: int| #[trigger] final(self).stores(k) <==> old(self).stores(k),
            forall|id: usize|
                id != r.id() ==> (#[trigger] final(self).subscribed(id) <==> old(self).subscribed(id)),
            forall|id: usize|
                #[trigger] old(self).subscribed(id) ==> final(self).cursor(id) == old(self).cursor(id)
                    && final(self).joined(id) == old(self).joined(id) && final(self).delivered(id)
                    == old(self).delivered(id) && final(self).waker(id) == old(self).waker(id),
    {
        let ghost old_slots = self.slots@;
        let id = self.slots.len();
        let slot = Slot {
            last: self.last_added,
            waker: None,
            joined: Ghost(self.last_added as nat),
            delivered: Ghost(Seq::empty()),
        };
        proof {
            lemma_owing_bound(old_slots, self.last_added as int);
        }
        self.slots.push(Some(slot));
        let n = self.slots.len();
        assert(n == old_slots.len() + 1);
        self.live = self.live + 1;
        proof {
            let s = self.slots@;
            assert(s.drop_last() =~= old_slots);
            assert forall|i: int| 0 <= i < self.pending@.len() implies #[trigger] self.pending@[i]
                == owing(s, self.base() + i) && self.pending@[i] > 0 by {
                assert(s.drop_last() =~= old_slots);
            }
            assert forall|j: int| 0 <= j < s.len() && (#[trigger] s[j]) is Some implies {
                let sl = s[j]->0;
                &&& self.base() <= sl.last <= self.last_added
                &&& sl.joined@ <= sl.last
                &&& sl.delivered@ =~= self.history@.subrange(sl.joined@ as int, sl.last as int)
            } by {
                if j < old_slots.len() {
                    assert(s[j] == old_slots[j]);
                }
            }
        }
        MpmcStream { id }
    }

    /// Publish an item. Every subscriber registered now will receive it. The wake
    /// handles of the subscribers that were waiting are taken out of their slots and
    /// returned, in subscription order, for the caller to invoke once each.
    pub fn send(&mut self, item: T) -> (r: Vec<W>)
        requires
            old(self).wf(),
            old(self).history().len() < u64::MAX,
        ensures
            final(self).wf(),
            final(self).history() == old(self).history().push(item),
            r@ == old(self).waiting_handles(),
            forall|id: usize| #[trigger] old(self).subscribed(id) ==> id < old(self).issued(),
            forall|id: usize| #[trigger] final(self).subscribed(id) <==> old(self).subscribed(id),
            forall|id: usize|
                #[trigger] old(self).subscribed(id) ==> final(self).cursor(id) == old(self).cursor(id)
                    && final(self).joined(id) == old(self).joined(id) && final(self).delivered(id)
                    == old(self).delivered(id) && final(self).waker(id) is None,
            forall|k: int|
                0 <= k < old(self).history().len() ==> (#[trigger] final(self).stores(k)
                    <==> old(self).stores(k)),
            final(self).stores(old(self).history().len() as int) <==> exists|id: usize|
                #[trigger] old(self).subscribed(id),
    {
        let ghost old_self = *self;
        let k = self.last_added;
        let nslots = self.slots.len();
        proof {
            assert forall|j: int| 0 <= j < self.slots@.len() && (#[trigger] self.slots@[j]) is Some implies
                self.slots@[j]->0.last as int <= k || self.slots@[j]->0.last as int > k + 1 by {}
            lemma_owing_flat(self.slots@, k as int, k + 1);
            lemma_owing_pos(self.slots@, k as int);
        }
        if self.live > 0 {
            self.items.push(item);
            self.pending.push(self.live);
        } else {
            proof {
                // Nobody is registered: the item is owed to no one and is not kept,
                // and nothing older is kept either.
                if self.items@.len() > 0 {
                    assert(self.pending@[0] == owing(self.slots@, self.base()));
                    lemma_owing_mono(self.slots@, self.base(), k as int);
                }
                assert forall|id: usize| !old_self.subscribed(id) by {
                    if old_self.subscribed(id) {
                        assert(owes(old_self.slots@[id as int], k as int));
                    }
                }
            }
        }
        self.last_added = k + 1;
        self.history = Ghost(self.history@.push(item));
        proof {
            assert(self.items@ =~= self.history@.subrange(self.base(), self.last_added as int)) by {
                assert(old_self.items@ =~= old_self.history@.subrange(old_self.base(), k as int));
            }
            if old_self.live > 0 {
                let j = choose|j: int| 0 <= j < old_self.slots@.len() && owes(#[trigger] old_self.slots@[j], k as int);
                assert(j < nslots);
                assert(old_self.subscribed(j as usize));
            }
            assert forall|j: int| 0 <= j < self.slots@.len() && (#[trigger] self.slots@[j]) is Some implies {
                let sl = self.slots@[j]->0;
                &&& self.base() <= sl.last <= self.last_added
                &&& sl.joined@ <= sl.last
                &&& sl.delivered@ =~= self.history@.subrange(sl.joined@ as int, sl.last as int)
            } by {
                let sl = self.slots@[j]->0;
                assert(old_self.history@.subrange(sl.joined@ as int, sl.last as int)
                    =~= self.history@.subrange(sl.joined@ as int, sl.last as int));
            }
            assert forall|i: int| 0 <= i < self.pending@.len() implies #[trigger] self.pending@[i]
                == owing(self.slots@, self.base() + i) && self.pending@[i] > 0 by {
                if i < old_self.pending@.len() {
                    assert(self.pending@[i] == old_self.pending@[i]);
                }
            }
        }
        let r = self.take_wakers();
        proof {
            lemma_wakers_waiting(old_self, old_self.slots@.len() as nat);
            assert(old_self.slots@.subrange(0, old_self.slots@.len() as int) =~= old_self.slots@);
        }
        r
    }

    /// Empty every slot's wake handle, returning the handles in slot order.
    fn take_wakers(&mut self) -> (r: Vec<W>)
        requires
            old(self).wf(),
        ensures
            final(self).wf(),
            r@ == wakers(old(self).slots@),
            wakers(final(self).slots@) == Seq::<W>::empty(),
            final(self).history@ == old(self).history@,
            final(self).last_added == old(self).last_added,
            final(self).items@ == old(self).items@,
            final(self).pending@ == old(self).pending@,
            final(self).live == old(self).live,
            final(self).slots@.len() == old(self).slots@.len(),
            forall|j: int|
                0 <= j < final(self).slots@.len() ==> (#[trigger] final(self).slots@[j] is Some
                    <==> old(self).slots@[j] is Some) && (final(self).slots@[j] is Some ==> {
                    let a = final(self).slots@[j]->0;
                    let b = old(self).slots@[j]->0;
                    a.last == b.last && a.joined == b.joined && a.delivered == b.delivered
                        && a.waker is None
                }),
    {
        let ghost old_slots = self.slots@;
        let mut r: Vec<W> = Vec::new();
        let mut j: usize = 0;
        while j < self.slots.len()
            invariant
                0 <= j <= self.slots@.len(),
                self.slots@.len() == old_slots.len(),
                self.history@ == old(self).history@,
                self.last_added == old(self).last_added,
                self.items@ == old(self).items@,
                self.pending@ == old(self).pending@,
                self.live == old(self).live,
                r@ == wakers(old_slots.subrange(0, j as int)),
                forall|i: int|
                    j <= i < self.slots@.len() ==> #[trigger] self.slots@[i] == old_slots[i],
                forall|i: int|
                    0 <= i < self.slots@.len() ==> (#[trigger] self.slots@[i] is Some
                        <==> old_slots[i] is Some) && (self.slots@[i] is Some ==> {
                        let a = self.slots@[i]->0;
                        let b = old_slots[i]->0;
                        a.last == b.last && a.joined == b.joined && a.delivered == b.delivered
                            && (i < j ==> a.waker is None)
                    }),
                forall|k: int| #[trigger] owing(self.slots@, k) == owing(old_slots, k),
            decreases self.slots@.len() - j,
        {
            let ghost before = self.slots@;
            let taken = match &mut self.slots[j] {
                Some(slot) => slot.waker.take(),
                None => None,
            };
            proof {
                assert forall|k: int| #[trigger] owing(self.slots@, k) == owing(old_slots, k) by {
                    lemma_owing_update(before, j as int, self.slots@[j as int], k);
                    assert(self.slots@ =~= before.update(j as int, self.slots@[j as int]));
                }
                assert(old_slots.subrange(0, j + 1).drop_last() =~= old_slots.subrange(0, j as int));
            }
            match taken {
                Some(w) => r.push(w),
                None => {},
            }
            j = j + 1;
        }
        proof {
            assert(old_slots.subrange(0, j as int) =~= old_slots);
            lemma_wakers_none(self.slots@);
        }
        r
    }
}

impl<T: Clone, W> Mpmc<T, W> {
    /// Take the subscriber's next item. If it has received everything published
    /// so far, `waker` is kept in its slot (replacing any earlier one) and `None`
    /// is returned; otherwise the next item is handed out (as a clone), the slot's
    /// wake handle is dropped, and the item is evicted if no one else owes it.
    pub fn poll(&mut self, stream: &MpmcStream, waker: W) -> (r: Option<T>)
        requires
            old(self).wf(),
            old(self).subscribed(stream.id()),
        ensures
            final(self).wf(),
            final(self).history() == old(self).history(),
            final(self).joined(stream.id()) == old(self).joined(stream.id()),
            forall|id: usize| #[trigger] final(self).subscribed(id) <==> old(self).subscribed(id),
            forall|id: usize|
                #[trigger] old(self).subscribed(id) && id != stream.id() ==> final(self).cursor(id)
                    == old(self).cursor(id) && final(self).joined(id) == old(self).joined(id)
                    && final(self).delivered(id) == old(self).delivered(id) && final(self).waker(id)
                    == old(self).waker(id),
            old(self).cursor(stream.id()) == old(self).history().len() ==> {
                &&& r is None
                &&& final(self).cursor(stream.id()) == old(self).cursor(stream.id())
                &&& final(self).delivered(stream.id()) == old(self).delivered(stream.id())
                &&& final(self).waker(stream.id()) == Some(waker)
            },
            old(self).cursor(stream.id()) < old(self).history().len() ==> {
                let x = old(self).history()[old(self).cursor(stream.id()) as int];
                &&& r is Some
                &&& cloned(x, r->0)
                &&& final(self).cursor(stream.id()) == old(self).cursor(stream.id()) + 1
                &&& final(self).delivered(stream.id()) == old(self).delivered(stream.id()).push(x)
                &&& final(self).waker(stream.id()) is None
            },
    {
        let ghost old_self = *self;
        let id = stream.id;
        let c = match &self.slots[id] {
            Some(slot) => slot.last,
            None => self.last_added,
        };
        if c == self.last_added {
            let ghost before = self.slots@;
            match &mut self.slots[id] {
                Some(slot) => {
                    slot.waker = Some(waker);
                },
                None => {},
            }
            proof {
                assert forall|k: int| #[trigger] owing(self.slots@, k) == owing(before, k) by {
                    lemma_owing_update(before, id as int, self.slots@[id as int], k);
                    assert(self.slots@ =~= before.update(id as int, self.slots@[id as int]));
                }
                assert forall|j: int| 0 <= j < self.slots@.len() && (#[trigger] self.slots@[j]) is Some implies {
                    let sl = self.slots@[j]->0;
                    &&& self.base() <= sl.last <= self.last_added
                    &&& sl.joined@ <= sl.last
                    &&& sl.delivered@ =~= self.history@.subrange(sl.joined@ as int, sl.last as int)
                } by {
                    assert(before[j] is Some);
                }
            }
            return None;
        }
        let base = self.last_added - self.items.len() as u64;
        let i = (c - base) as usize;
        let item = self.items[i].clone();
        let p = self.pending[i];
        self.pending[i] = p - 1;
        let ghost before = self.slots@;
        let ghost x = self.history@[c as int];
        match &mut self.slots[id] {
            Some(slot) => {
                slot.last = c + 1;
                slot.waker = None;
                slot.delivered = Ghost(slot.delivered@.push(x));
            },
            None => {},
        }
        proof {
            assert(self.slots@ =~= before.update(id as int, self.slots@[id as int]));
            assert forall|k: int| #[trigger] owing(self.slots@, k) + (if c <= k { 1nat } else { 0nat })
                == owing(before, k) + (if c + 1 <= k { 1nat } else { 0nat }) by {
                lemma_owing_update(before, id as int, self.slots@[id as int], k);
            }
            assert(owing(self.slots@, self.last_added as int) == owing(before, self.last_added as int));
            assert forall|i2: int| 0 <= i2 < self.pending@.len() implies #[trigger] self.pending@[i2]
                == owing(self.slots@, base + i2) && (i2 > 0 ==> self.pending@[i2] > 0) by {
                let k = base + i2;
                if k > c {
                    lemma_owing_pos(self.slots@, k);
                    assert(owes(self.slots@[id as int], k));
                } else if k < c {
                } else if i2 > 0 {
                    lemma_owing_mono(self.slots@, k - 1, k);
                    assert(self.pending@[i2 - 1] == old_self.pending@[i2 - 1]);
                }
            }
            assert forall|j: int| 0 <= j < self.slots@.len() && (#[trigger] self.slots@[j]) is Some implies {
                let sl = self.slots@[j]->0;
                &&& base <= sl.last <= self.last_added
                &&& sl.joined@ <= sl.last
                &&& sl.delivered@ =~= self.history@.subrange(sl.joined@ as int, sl.last as int)
            } by {
                assert(before[j] is Some);
                if j == id {
                    assert(self.history@.subrange(sl_joined(before[j]), c + 1)
                        =~= self.history@.subrange(sl_joined(before[j]), c as int).push(x));
                }
            }
        }
        if self.pending[0] == 0 {
            self.items.remove(0);
            self.pending.remove(0);
            proof {
                lemma_owing_pos(self.slots@, base as int);
                assert forall|j: int| 0 <= j < self.slots@.len() && (#[trigger] self.slots@[j]) is Some implies
                    self.slots@[j]->0.last > base by {
                    if self.slots@[j]->0.last <= base {
                        assert(owes(self.slots@[j], base as int));
                    }
                }
                assert forall|i2: int| 0 <= i2 < self.pending@.len() implies #[trigger] self.pending@[i2]
                    == owing(self.slots@, self.base() + i2) && self.pending@[i2] > 0 by {
                    assert(self.pending@[i2] == old_self.pending@[i2 + 1] || i2 + 1 == i);
                }
                assert(self.items@ =~= self.history@.subrange(self.base(), self.last_added as int));
            }
        } else {
            proof {
                assert(self.items@ =~= self.history@.subrange(self.base(), self.last_added as int));
            }
        }
        Some(item)
    }

    /// Remove a subscription. Items it still owed are no longer kept for it, and
    /// those that no live subscriber owes any more are evicted.
    pub fn unsubscribe(&mut self, stream: MpmcStream)
        requires
            old(self).wf(),
            old(self).subscribed(stream.id()),
        ensures
            final(self).wf(),
            final(self).history() == old(self).history(),
            !final(self).subscribed(stream.id()),
            forall|id: usize|
                id != stream.id() ==> (#[trigger] final(self).subscribed(id) <==> old(self).subscribed(id)),
            forall|id: usize|
                #[trigger] old(self).subscribed(id) && id != stream.id() ==> final(self).cursor(id)
                    == old(self).cursor(id) && final(self).joined(id) == old(self).joined(id)
                    && final(self).delivered(id) == old(self).delivered(id) && final(self).waker(id)
                    == old(self).waker(id),
    {
        let ghost old_self = *self;
        let id = stream.id;
        let c = match &self.slots[id] {
            Some(slot) => slot.last,
            None => self.last_added,
        };
        let ghost before = self.slots@;
        self.slots[id] = None;
        proof {
            assert(self.slots@ =~= before.update(id as int, None));
            assert forall|k: int| #[trigger] owing(self.slots@, k) + (if c <= k { 1nat } else { 0nat })
                == owing(before, k) by {
                lemma_owing_update(before, id as int, None, k);
            }
            assert(owing(self.slots@, self.last_added as int) + 1 == old_self.live);
        }
        self.live = self.live - 1;
        let base = self.last_added - self.items.len() as u64;
        let mut i = (c - base) as usize;
        while i < self.pending.len()
            invariant
                self.wf_except_pending(),
                old_self.wf(),
                before == old_self.slots@,
                0 <= id < before.len(),
                before[id as int] is Some,
                c == before[id as int]->0.last,
                self.history@ == old_self.history@,
                self.items@ == old_self.items@,
                self.last_added == old_self.last_added,
                base == self.base(),
                self.pending@.len() == old_self.pending@.len(),
                c - base <= i <= self.pending@.len(),
                self.slots@ == before.update(id as int, None),
                forall|i2: int| 0 <= i2 < self.pending@.len() ==> #[trigger] self.pending@[i2] + (if
                    i2 < i && c <= base + i2 { 1nat } else { 0nat }) == old_self.pending@[i2],
                forall|k: int| #[trigger] owing(self.slots@, k) + (if c <= k { 1nat } else { 0nat })
                    == owing(before, k),
            decreases self.pending@.len() - i,
        {
            assert(old_self.pending@[i as int] == owing(before, base + i));
            let p = self.pending[i];
            self.pending[i] = p - 1;
            i = i + 1;
        }
        self.evict_front();
    }

    /// Evict stored items from the front for as long as no live subscriber owes them.
    fn evict_front(&mut self)
        requires
            old(self).wf_except_pending(),
            forall|i: int|
                0 <= i < old(self).pending@.len() ==> #[trigger] old(self).pending@[i] == owing(
                    old(self).slots@,
                    old(self).base() + i,
                ),
        ensures
            final(self).wf(),
            final(self).slots@ == old(self).slots@,
            final(self).history@ == old(self).history@,
    {
        while self.pending.len() > 0 && self.pending[0] == 0
            invariant
                self.wf_except_pending(),
                self.slots@ == old(self).slots@,
                self.history@ == old(self).history@,
                forall|i: int|
                    0 <= i < self.pending@.len() ==> #[trigger] self.pending@[i] == owing(
                        self.slots@,
                        self.base() + i,
                    ),
            decreases self.pending@.len(),
        {
            let ghost b = self.base();
            let ghost old_items = self.items@;
            let ghost old_pending = self.pending@;
            self.items.remove(0);
            self.pending.remove(0);
            proof {
                lemma_owing_pos(self.slots@, b);
                assert forall|j: int| 0 <= j < self.slots@.len() && (#[trigger] self.slots@[j]) is Some implies
                    self.slots@[j]->0.last > b by {
                    if self.slots@[j]->0.last <= b {
                        assert(owes(self.slots@[j], b));
                    }
                }
                assert forall|i: int| 0 <= i < self.pending@.len() implies #[trigger] self.pending@[i]
                    == owing(self.slots@, self.base() + i) by {
                    assert(self.pending@[i] == old_pending[i + 1]);
                }
                assert(self.items@ =~= self.history@.subrange(self.base(), self.last_added as int));
            }
        }
        proof {
            if self.pending@.len() > 0 {
                assert forall|i: int| 0 <= i < self.pending@.len() implies #[trigger] self.pending@[i] > 0 by {
                    lemma_owing_mono(self.slots@, self.base(), self.base() + i);
                }
            }
        }
    }
}

/// Delivery is exact and ordered: what a live subscriber has been handed is
/// precisely the run of items published after it joined, in publish order, up to
/// its cursor; the cursor never passes the end of what was published. A poll that
/// returns nothing leaves the cursor at the end, so by then every item published
/// since the subscriber joined has been handed to it once.
pub proof fn lemma_delivery_exact<T, W>(q: &Mpmc<T, W>, id: usize)
    requires
        q.wf(),
        q.subscribed(id),
    ensures
        q.joined(id) <= q.cursor(id) <= q.history().len(),
        q.delivered(id) == q.history().subrange(q.joined(id) as int, q.cursor(id) as int),
{
    assert(q.slots@[id as int] is Some);
}

/// An item is held in storage exactly while some live subscriber that was
/// registered when it was published has not yet received it.
pub proof fn lemma_stored_iff_owed<T, W>(q: &Mpmc<T, W>, k: int)
    requires
        q.wf(),
        0 <= k < q.history().len(),
    ensures
        q.stores(k) <==> exists|id: usize| #[trigger] q.owes_item(id, k),
{
    if q.stores(k) {
        let i = k - q.base();
        assert(q.pending@[i] == owing(q.slots@, k));
        lemma_owing_pos(q.slots@, k);
        let j = choose|j: int| 0 <= j < q.slots@.len() && owes(#[trigger] q.slots@[j], k);
        assert(q.slots@[j]->0.joined@ <= q.slots@[j]->0.last);
        assert(q.owes_item(j as usize, k));
    }
    if exists|id: usize| #[trigger] q.owes_item(id, k) {
        let id = choose|id: usize| #[trigger] q.owes_item(id, k);
        assert(q.slots@[id as int] is Some);
    }
}

/// A subscriber that has never received anything keeps the items published since
/// it joined in storage, and has no say over the items published before it joined:
/// those are kept only if some other live subscriber still owes them.
pub proof fn lemma_idle_subscriber<T, W>(q: &Mpmc<T, W>, id: usize)
    requires
        q.wf(),
        q.subscribed(id),
        q.cursor(id) == q.joined(id),
    ensures
        forall|k: int| q.joined(id) <= k < q.history().len() ==> #[trigger] q.stores(k),
        forall|k: int|
            0 <= k < q.joined(id) ==> (#[trigger] q.stores(k) <==> exists|other: usize|
                other != id && #[trigger] q.owes_item(other, k)),
{
    lemma_delivery_exact(q, id);
    assert forall|k: int| q.joined(id) <= k < q.history().len() implies #[trigger] q.stores(k) by {
        lemma_stored_iff_owed(q, k);
        assert(q.owes_item(id, k));
    }
    assert forall|k: int| 0 <= k < q.joined(id) implies (#[trigger] q.stores(k) <==> exists|
        other: usize,
    | other != id && #[trigger] q.owes_item(other, k)) by {
        lemma_stored_iff_owed(q, k);
        assert(!q.owes_item(id, k));
    }
}

spec fn sl_joined<T, W>(s: Option<Slot<T, W>>) -> int {
    s->0.joined@ as int
}

proof fn lemma_wakers_waiting<T, W>(q: Mpmc<T, W>, n: nat)
    requires
        n <= q.slots@.len(),
        q.slots@.len() <= usize::MAX,
    ensures
        wakers(q.slots@.subrange(0, n as int)) == q.waiting_below(n).map_values(
            |id: usize| q.waker(id)->0,
        ),
    decreases n,
{
    let f = |id: usize| q.waker(id)->0;
    if n == 0 {
        assert(q.waiting_below(0).map_values(f) =~= Seq::<W>::empty());
    } else {
        lemma_wakers_waiting(q, (n - 1) as nat);
        let s = q.slots@.subrange(0, n as int);
        assert(s.drop_last() =~= q.slots@.subrange(0, n - 1));
        assert(s.last() == q.slots@[n - 1]);
        let rest = q.waiting_below((n - 1) as nat);
        let id = (n - 1) as usize;
        assert(rest.push(id).map_values(f) =~= rest.map_values(f).push(f(id)));
    }
}

/// Slots that hold no wake handle yield none.
proof fn lemma_wakers_none<T, W>(slots: Seq<Option<Slot<T, W>>>)
    requires
        forall|i: int| 0 <= i < slots.len() && (#[trigger] slots[i]) is Some ==> slots[i]->0.waker is None,
    ensures
        wakers(slots) == Seq::<W>::empty(),
    decreases slots.len(),
{
    if slots.len() > 0 {
        let d = slots.drop_last();
        assert forall|i: int| 0 <= i < d.len() && (#[trigger] d[i]) is Some implies d[i]->0.waker is None by {
            assert(d[i] == slots[i]);
        }
        lemma_wakers_none(d);
    }
}

} // verus!
