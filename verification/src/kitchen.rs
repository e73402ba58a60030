use vstd::prelude::*;

use std::collections::VecDeque;

use crate::action::{Action, ActionKind};
use crate::order::{
    ideal_location, Location, Order, StoredOrder, Temp, DEGRADATION_RATE_IDEAL,
    DEGRADATION_RATE_NON_IDEAL, MAX_TIMESTAMP_MICROS, MICROS_PER_SEC,
};

verus! {

pub const COOLER_CAPACITY: usize = 6;
pub const HEATER_CAPACITY: usize = 6;
pub const SHELF_CAPACITY: usize = 12;

/// Entry of the shelf eviction index: an order id together with its projected
/// expiration instant in microseconds since the epoch.
pub struct OrderEntry {
    pub order_id: String,
    pub expires_at: u64,
}

impl Clone for OrderEntry {
    fn clone(&self) -> (res: Self)
        ensures
            res == *self,
    {
        OrderEntry { order_id: self.order_id.clone(), expires_at: self.expires_at }
    }
}

/// The kitchen state machine: three bounded storages, the shelf eviction
/// index, the append-only action log, and the last issued log timestamp.
///
/// Callers serialize operations (a concurrent driver takes one lock around
/// each call); the log then records a single linear history, and every
/// operation bumps its action timestamps past the last issued one, so the
/// log stays strictly ordered whatever clocks the callers read.
pub struct Kitchen {
    pub cooler: VecDeque<StoredOrder>,
    pub heater: VecDeque<StoredOrder>,
    pub shelf: Vec<StoredOrder>,
    pub shelf_queue: Vec<OrderEntry>,
    pub actions: Vec<Action>,
    pub last_timestamp: u64,
}

/// Whether some stored order in `s` carries the id `id`.
pub open spec fn contains_id(s: Seq<StoredOrder>, id: Seq<char>) -> bool {
    exists|i: int| 0 <= i < s.len() && (#[trigger] s[i]).order.id@ == id
}

/// All ids in `s` are pairwise distinct.
pub open spec fn ids_distinct(s: Seq<StoredOrder>) -> bool {
    forall|i: int, j: int|
        0 <= i < j < s.len() ==> (#[trigger] s[i]).order.id@ != (#[trigger] s[j]).order.id@
}

/// No id occurs both in `a` and in `b`.
pub open spec fn ids_disjoint(a: Seq<StoredOrder>, b: Seq<StoredOrder>) -> bool {
    forall|i: int, j: int|
        0 <= i < a.len() && 0 <= j < b.len() ==> (#[trigger] a[i]).order.id@ != (#[trigger] b[j]).order.id@
}

/// Every order in `s` is well formed and occupies location `loc`.
pub open spec fn all_stored_at(s: Seq<StoredOrder>, loc: Location) -> bool {
    forall|i: int| 0 <= i < s.len() ==> (#[trigger] s[i]).wf() && s[i].current_temp == loc
}

/// Timestamps strictly increase along the sequence.
pub open spec fn ts_strictly_increasing(s: Seq<Action>) -> bool {
    forall|i: int, j: int|
        0 <= i < j < s.len() ==> (#[trigger] s[i]).timestamp < (#[trigger] s[j]).timestamp
}

/// The subsequence of `log` whose entries carry the id `id`, in log order.
pub open spec fn hist(log: Seq<Action>, id: Seq<char>) -> Seq<Action>
    decreases log.len(),
{
    if log.len() == 0 {
        Seq::empty()
    } else {
        hist(log.drop_last(), id) + if log.last().id@ == id {
            seq![log.last()]
        } else {
            Seq::empty()
        }
    }
}

/// Whether any log entry carries the id `id`.
pub open spec fn mentions(log: Seq<Action>, id: Seq<char>) -> bool {
    exists|i: int| 0 <= i < log.len() && (#[trigger] log[i]).id@ == id
}

/// A history of exactly one `place` action into `loc`.
pub open spec fn single_place_hist(h: Seq<Action>, loc: Location) -> bool {
    h.len() == 1 && h[0].action == ActionKind::Place && h[0].target == loc
}

/// The history of an order presently on the shelf: either placed there
/// directly, or placed in the cooler or heater and then moved to the shelf.
pub open spec fn shelf_hist(h: Seq<Action>) -> bool {
    ||| single_place_hist(h, Location::Shelf)
    ||| (h.len() == 2 && h[0].action == ActionKind::Place
        && (h[0].target == Location::Cooler || h[0].target == Location::Heater)
        && h[1].action == ActionKind::Move && h[1].target == Location::Shelf)
}

/// The history of an order that has left the kitchen: a `place`, zero or one
/// `move` to the shelf, and exactly one terminal `pickup` or `discard` whose
/// target is the storage the order was removed from.
pub open spec fn closed_hist(h: Seq<Action>) -> bool {
    ||| (h.len() == 2 && h[0].action == ActionKind::Place && h[1].terminal()
        && h[1].target == h[0].target)
    ||| (h.len() == 3 && h[0].action == ActionKind::Place
        && (h[0].target == Location::Cooler || h[0].target == Location::Heater)
        && h[1].action == ActionKind::Move && h[1].target == Location::Shelf
        && h[2].terminal() && h[2].target == Location::Shelf)
}

/// Index of the first entry with the least `expires_at` in a nonempty index.
pub open spec fn min_exp_index(q: Seq<OrderEntry>) -> int
    recommends
        q.len() > 0,
    decreases q.len(),
{
    if q.len() <= 1 {
        0
    } else {
        let r = min_exp_index(q.drop_last());
        if q.last().expires_at < q[r].expires_at {
            q.len() - 1
        } else {
            r
        }
    }
}

pub proof fn lemma_min_exp_index(q: Seq<OrderEntry>)
    requires
        q.len() > 0,
    ensures
        0 <= min_exp_index(q) < q.len(),
        forall|j: int| 0 <= j < q.len() ==> q[min_exp_index(q)].expires_at <= (#[trigger] q[j]).expires_at,
    decreases q.len(),
{
    if q.len() > 1 {
        lemma_min_exp_index(q.drop_last());
        assert(forall|j: int| 0 <= j < q.len() - 1 ==> q.drop_last()[j] == q[j]);
    }
}

/// Appending one action extends exactly the history of its id and leaves
/// every other history unchanged.
pub proof fn lemma_hist_push(log: Seq<Action>, a: Action, id: Seq<char>)
    ensures
        hist(log.push(a), id) == if a.id@ == id {
            hist(log, id).push(a)
        } else {
            hist(log, id)
        },
{
    assert(log.push(a).drop_last() =~= log);
    assert(log.push(a).last() == a);
    if a.id@ == id {
        assert(hist(log.push(a), id) =~= hist(log, id).push(a));
    } else {
        assert(hist(log.push(a), id) =~= hist(log, id));
    }
}

/// An id that no log entry carries has an empty history.
pub proof fn lemma_hist_empty(log: Seq<Action>, id: Seq<char>)
    requires
        !mentions(log, id),
    ensures
        hist(log, id).len() == 0,
    decreases log.len(),
{
    if log.len() > 0 {
        assert(forall|i: int| 0 <= i < log.len() - 1 ==> log.drop_last()[i] == log[i]);
        assert(!mentions(log.drop_last(), id));
        lemma_hist_empty(log.drop_last(), id);
    }
}

/// An id that some log entry carries has a nonempty history.
pub proof fn lemma_hist_nonempty(log: Seq<Action>, id: Seq<char>)
    requires
        mentions(log, id),
    ensures
        hist(log, id).len() > 0,
    decreases log.len(),
{
    if log.last().id@ == id {
    } else {
        let i = choose|i: int| 0 <= i < log.len() && (#[trigger] log[i]).id@ == id;
        assert(log.drop_last()[i] == log[i]);
        assert(mentions(log.drop_last(), id));
        lemma_hist_nonempty(log.drop_last(), id);
    }
}

/// Pushing an order onto a storage adds exactly its id.
pub proof fn lemma_contains_push(s: Seq<StoredOrder>, x: StoredOrder, id: Seq<char>)
    ensures
        contains_id(s.push(x), id) == (contains_id(s, id) || x.order.id@ == id),
{
    if contains_id(s, id) {
        let i = choose|i: int| 0 <= i < s.len() && (#[trigger] s[i]).order.id@ == id;
        assert(s.push(x)[i].order.id@ == id);
    }
    if x.order.id@ == id {
        assert(s.push(x)[s.len() as int].order.id@ == id);
    }
    if contains_id(s.push(x), id) && x.order.id@ != id {
        let i = choose|i: int| 0 <= i < s.push(x).len() && (#[trigger] s.push(x)[i]).order.id@ == id;
        assert(s[i].order.id@ == id);
    }
}

/// Removing position `p` from a storage with distinct ids removes exactly
/// the id stored there.
pub proof fn lemma_contains_remove(s: Seq<StoredOrder>, p: int, id: Seq<char>)
    requires
        0 <= p < s.len(),
        ids_distinct(s),
    ensures
        contains_id(s.remove(p), id) == (contains_id(s, id) && s[p].order.id@ != id),
{
    s.remove_ensures(p);
    if contains_id(s.remove(p), id) {
        let i = choose|i: int| 0 <= i < s.remove(p).len() && (#[trigger] s.remove(p)[i]).order.id@ == id;
        if i < p {
            assert(s[i].order.id@ == id);
        } else {
            assert(s[i + 1].order.id@ == id);
        }
    }
    if contains_id(s, id) && s[p].order.id@ != id {
        let i = choose|i: int| 0 <= i < s.len() && (#[trigger] s[i]).order.id@ == id;
        if i < p {
            assert(s.remove(p)[i].order.id@ == id);
        } else {
            assert(s.remove(p)[i - 1].order.id@ == id);
        }
    }
}

/// Pushing a fresh id keeps ids distinct.
pub proof fn lemma_distinct_push(s: Seq<StoredOrder>, x: StoredOrder)
    requires
        ids_distinct(s),
        !contains_id(s, x.order.id@),
    ensures
        ids_distinct(s.push(x)),
{
    assert forall|i: int, j: int|
        0 <= i < j < s.push(x).len() implies (#[trigger] s.push(x)[i]).order.id@ != (#[trigger] s.push(
        x,
    )[j]).order.id@ by {
        if j == s.len() {
            assert(s.push(x)[i] == s[i]);
            if s[i].order.id@ == x.order.id@ {
                assert(contains_id(s, x.order.id@));
            }
        } else {
            assert(s.push(x)[i] == s[i] && s.push(x)[j] == s[j]);
        }
    }
}

/// Removing a position keeps ids distinct.
pub proof fn lemma_distinct_remove(s: Seq<StoredOrder>, p: int)
    requires
        ids_distinct(s),
        0 <= p < s.len(),
    ensures
        ids_distinct(s.remove(p)),
{
    s.remove_ensures(p);
    assert forall|i: int, j: int|
        0 <= i < j < s.remove(p).len() implies (#[trigger] s.remove(p)[i]).order.id@ != (#[trigger] s.remove(
        p,
    )[j]).order.id@ by {
        let i0 = if i < p { i } else { i + 1 };
        let j0 = if j < p { j } else { j + 1 };
        assert(s.remove(p)[i] == s[i0] && s.remove(p)[j] == s[j0]);
    }
}

/// Pushing onto `a` an id absent from `b` keeps the two storages disjoint.
pub proof fn lemma_disjoint_push_left(a: Seq<StoredOrder>, b: Seq<StoredOrder>, x: StoredOrder)
    requires
        ids_disjoint(a, b),
        !contains_id(b, x.order.id@),
    ensures
        ids_disjoint(a.push(x), b),
{
    assert forall|i: int, j: int|
        0 <= i < a.push(x).len() && 0 <= j < b.len() implies (#[trigger] a.push(x)[i]).order.id@
        != (#[trigger] b[j]).order.id@ by {
        if i == a.len() {
            if b[j].order.id@ == x.order.id@ {
                assert(contains_id(b, x.order.id@));
            }
        } else {
            assert(a.push(x)[i] == a[i]);
        }
    }
}

/// Removing from `b` keeps the two storages disjoint.
pub proof fn lemma_disjoint_remove_right(a: Seq<StoredOrder>, b: Seq<StoredOrder>, p: int)
    requires
        ids_disjoint(a, b),
        0 <= p < b.len(),
    ensures
        ids_disjoint(a, b.remove(p)),
{
    b.remove_ensures(p);
    assert forall|i: int, j: int|
        0 <= i < a.len() && 0 <= j < b.remove(p).len() implies (#[trigger] a[i]).order.id@
        != (#[trigger] b.remove(p)[j]).order.id@ by {
        let j0 = if j < p { j } else { j + 1 };
        assert(b.remove(p)[j] == b[j0]);
    }
}

/// Removing from `a` keeps the two storages disjoint.
pub proof fn lemma_disjoint_remove_left(a: Seq<StoredOrder>, b: Seq<StoredOrder>, p: int)
    requires
        ids_disjoint(a, b),
        0 <= p < a.len(),
    ensures
        ids_disjoint(a.remove(p), b),
{
    a.remove_ensures(p);
    assert forall|i: int, j: int|
        0 <= i < a.remove(p).len() && 0 <= j < b.len() implies (#[trigger] a.remove(p)[i]).order.id@
        != (#[trigger] b[j]).order.id@ by {
        let i0 = if i < p { i } else { i + 1 };
        assert(a.remove(p)[i] == a[i0]);
    }
}

/// Every order of a storage keeps its location tag and well-formedness when
/// one position is removed.
pub proof fn lemma_all_stored_remove(s: Seq<StoredOrder>, p: int, loc: Location)
    requires
        all_stored_at(s, loc),
        0 <= p < s.len(),
    ensures
        all_stored_at(s.remove(p), loc),
{
    s.remove_ensures(p);
    assert forall|i: int| 0 <= i < s.remove(p).len() implies (#[trigger] s.remove(p)[i]).wf()
        && s.remove(p)[i].current_temp == loc by {
        let i0 = if i < p { i } else { i + 1 };
        assert(s.remove(p)[i] == s[i0]);
    }
}

/// Appending an action of a different id cannot make the log mention an id.
pub proof fn lemma_not_mentions_push(log: Seq<Action>, a: Action, id: Seq<char>)
    requires
        !mentions(log, id),
        a.id@ != id,
    ensures
        !mentions(log.push(a), id),
{
    if mentions(log.push(a), id) {
        let i = choose|i: int| 0 <= i < log.push(a).len() && (#[trigger] log.push(a)[i]).id@ == id;
        if i < log.len() {
            assert(log[i].id@ == id);
        }
    }
}

/// An id presently stored somewhere has been mentioned by the log: its
/// history opens with the `place` action that admitted it.
pub proof fn lemma_in_storage_mentioned(k: Kitchen, id: Seq<char>)
    requires
        k.wf(),
        k.in_any_storage(id),
    ensures
        mentions(k.actions@, id),
{
    if !mentions(k.actions@, id) {
        lemma_hist_empty(k.actions@, id);
        assert(k.id_ok(id));
    }
}

/// Disjointness of storages is symmetric.
pub proof fn lemma_disjoint_sym(a: Seq<StoredOrder>, b: Seq<StoredOrder>)
    requires
        ids_disjoint(a, b),
    ensures
        ids_disjoint(b, a),
{
    assert forall|i: int, j: int|
        0 <= i < b.len() && 0 <= j < a.len() implies (#[trigger] b[i]).order.id@
        != (#[trigger] a[j]).order.id@ by {
        assert(a[j].order.id@ != b[i].order.id@);
    }
}

impl Kitchen {
    /// The contents of one storage location.
    pub open spec fn storage_seq(self, loc: Location) -> Seq<StoredOrder> {
        match loc {
            Location::Cooler => self.cooler@,
            Location::Heater => self.heater@,
            Location::Shelf => self.shelf@,
        }
    }

    /// The fixed capacity of one storage location.
    pub open spec fn capacity_of(loc: Location) -> int {
        match loc {
            Location::Cooler => COOLER_CAPACITY as int,
            Location::Heater => HEATER_CAPACITY as int,
            Location::Shelf => SHELF_CAPACITY as int,
        }
    }

    /// Whether the id occupies any of the three storages.
    pub open spec fn in_any_storage(self, id: Seq<char>) -> bool {
        contains_id(self.cooler@, id) || contains_id(self.heater@, id)
            || contains_id(self.shelf@, id)
    }

    /// Capacities respected, every stored order well formed and tagged with
    /// its storage, and each id in at most one slot of one storage.
    pub open spec fn storages_wf(self) -> bool {
        &&& self.cooler@.len() <= COOLER_CAPACITY
        &&& self.heater@.len() <= HEATER_CAPACITY
        &&& self.shelf@.len() <= SHELF_CAPACITY
        &&& all_stored_at(self.cooler@, Location::Cooler)
        &&& all_stored_at(self.heater@, Location::Heater)
        &&& all_stored_at(self.shelf@, Location::Shelf)
        &&& ids_distinct(self.cooler@)
        &&& ids_distinct(self.heater@)
        &&& ids_distinct(self.shelf@)
        &&& ids_disjoint(self.cooler@, self.heater@)
        &&& ids_disjoint(self.cooler@, self.shelf@)
        &&& ids_disjoint(self.heater@, self.shelf@)
    }

    /// The eviction index mirrors the shelf slot for slot: same id, and the
    /// projected expiration of the order in that slot.
    pub open spec fn queue_wf(self) -> bool {
        &&& self.shelf_queue@.len() == self.shelf@.len()
        &&& forall|i: int|
            0 <= i < self.shelf@.len() ==> (#[trigger] self.shelf_queue@[i]).order_id@
                == self.shelf@[i].order.id@ && self.shelf_queue@[i].expires_at
                == self.shelf@[i].expires_at()
    }

    /// The log is strictly ordered by timestamp, capped by the last issued
    /// timestamp, which leaves headroom below `u64::MAX`.
    pub open spec fn log_wf(self) -> bool {
        &&& ts_strictly_increasing(self.actions@)
        &&& forall|i: int|
            0 <= i < self.actions@.len() ==> (#[trigger] self.actions@[i]).timestamp
                <= self.last_timestamp
        &&& self.last_timestamp <= MAX_TIMESTAMP_MICROS + self.actions@.len()
    }

    /// The history of `id` matches where the id presently is: one `place`
    /// into the storage that holds it, with a prior move to the shelf
    /// allowed for shelf occupants; an id in no storage has either no
    /// history or a closed one ending in its single terminal action.
    pub open spec fn id_ok(self, id: Seq<char>) -> bool {
        let h = hist(self.actions@, id);
        if contains_id(self.cooler@, id) {
            single_place_hist(h, Location::Cooler)
        } else if contains_id(self.heater@, id) {
            single_place_hist(h, Location::Heater)
        } else if contains_id(self.shelf@, id) {
            shelf_hist(h)
        } else {
            h.len() == 0 || closed_hist(h)
        }
    }

    pub open spec fn hist_wf(self) -> bool {
        forall|id: Seq<char>| #[trigger] self.id_ok(id)
    }

    /// The kitchen's full invariant.
    pub open spec fn wf(self) -> bool {
        self.storages_wf() && self.queue_wf() && self.log_wf() && self.hist_wf()
    }

    /// The timestamp the next recorded action will carry, given the caller's
    /// wall clock `t`: `t` itself, bumped past the last issued timestamp.
    pub open spec fn next_ts(self, t: u64) -> int {
        if t > self.last_timestamp {
            t as int
        } else {
            self.last_timestamp + 1
        }
    }

    /// The log grew by exactly one action with the given fields, stamped
    /// with `pre.next_ts(t)`, and the last issued timestamp followed.
    pub open spec fn log_extended1(
        pre: Kitchen,
        post: Kitchen,
        t: u64,
        id: Seq<char>,
        kind: ActionKind,
        target: Location,
    ) -> bool {
        &&& post.actions@.len() == pre.actions@.len() + 1
        &&& forall|i: int| 0 <= i < pre.actions@.len() ==> post.actions@[i] == pre.actions@[i]
        &&& post.actions@.last().is_act(pre.next_ts(t), id, kind, target)
        &&& post.last_timestamp == pre.next_ts(t)
    }

    /// `orig` entered the cooler or heater: appended at the back with its
    /// location updated, everything else unchanged, one `place` action logged.
    pub open spec fn placed_in_storage_post(
        pre: Kitchen,
        post: Kitchen,
        orig: StoredOrder,
        target: Location,
        t: u64,
    ) -> bool {
        let s = StoredOrder { order: orig.order, placed_at: orig.placed_at, current_temp: target };
        &&& post.storage_seq(target) == pre.storage_seq(target).push(s)
        &&& (target == Location::Cooler ==> post.heater@ == pre.heater@)
        &&& (target == Location::Heater ==> post.cooler@ == pre.cooler@)
        &&& post.shelf@ == pre.shelf@
        &&& post.shelf_queue@ == pre.shelf_queue@
        &&& Kitchen::log_extended1(pre, post, t, orig.order.id@, ActionKind::Place, target)
    }

    /// `orig` entered the shelf: appended there and mirrored in the eviction
    /// index with its recomputed expiration, cooler and heater unchanged,
    /// one `place` action logged.
    pub open spec fn placed_on_shelf_post(pre: Kitchen, post: Kitchen, orig: StoredOrder, t: u64) -> bool {
        let s = StoredOrder {
            order: orig.order,
            placed_at: orig.placed_at,
            current_temp: Location::Shelf,
        };
        &&& post.shelf@ == pre.shelf@.push(s)
        &&& post.shelf_queue@ == pre.shelf_queue@.push(
            OrderEntry { order_id: orig.order.id, expires_at: s.expires_at() as u64 },
        )
        &&& post.cooler@ == pre.cooler@
        &&& post.heater@ == pre.heater@
        &&& Kitchen::log_extended1(pre, post, t, orig.order.id@, ActionKind::Place, Location::Shelf)
    }

    /// An empty kitchen: nothing stored, no actions, no timestamp issued.
    pub fn new() -> (k: Kitchen)
        ensures
            k.wf(),
            k.cooler@.len() == 0,
            k.heater@.len() == 0,
            k.shelf@.len() == 0,
            k.shelf_queue@.len() == 0,
            k.actions@.len() == 0,
            k.last_timestamp == 0,
    {
        let k = Kitchen {
            cooler: VecDeque::new(),
            heater: VecDeque::new(),
            shelf: Vec::new(),
            shelf_queue: Vec::new(),
            actions: Vec::new(),
            last_timestamp: 0,
        };
        proof {
            assert forall|id: Seq<char>| k.id_ok(id) by {
                assert(hist(k.actions@, id).len() == 0);
            }
        }
        k
    }

    /// Append one action to the log, stamped with the caller's wall clock
    /// bumped past the last issued timestamp, so that log timestamps are
    /// strictly increasing whatever clock the caller read.
    fn record_action(&mut self, order_id: String, action_type: ActionKind, target: Location, t: u64)
        requires
            old(self).log_wf(),
            t <= MAX_TIMESTAMP_MICROS,
            old(self).actions@.len() + MAX_TIMESTAMP_MICROS + 1 < u64::MAX,
        ensures
            Self::log_extended1(*old(self), *final(self), t, order_id@, action_type, target),
            final(self).actions@ == old(self).actions@.push(final(self).actions@.last()),
            final(self).cooler == old(self).cooler,
            final(self).heater == old(self).heater,
            final(self).shelf == old(self).shelf,
            final(self).shelf_queue == old(self).shelf_queue,
            final(self).log_wf(),
    {
        let last: u64 = self.last_timestamp;
        let candidate: u64 = if t > last {
            t
        } else {
            last + 1
        };
        self.last_timestamp = candidate;
        let action = Action::new(order_id.as_str(), action_type, target, candidate);
        self.actions.push(action);
    }

    /// Place `stored` at the back of the cooler or heater if that storage
    /// has room; report whether it did.
    fn try_place_in_storage(&mut self, stored: &StoredOrder, target: Location, t: u64) -> (placed:
        bool)
        requires
            old(self).wf(),
            stored.wf(),
            target == Location::Cooler || target == Location::Heater,
            t <= MAX_TIMESTAMP_MICROS,
            !mentions(old(self).actions@, stored.order.id@),
            old(self).actions@.len() + MAX_TIMESTAMP_MICROS + 1 < u64::MAX,
        ensures
            final(self).wf(),
            placed == (old(self).storage_seq(target).len() < Self::capacity_of(target)),
            placed ==> Self::placed_in_storage_post(*old(self), *final(self), *stored, target, t),
            !placed ==> *final(self) == *old(self),
    {
        let capacity: usize = if target == Location::Cooler {
            COOLER_CAPACITY
        } else {
            HEATER_CAPACITY
        };
        let len: usize = if target == Location::Cooler {
            self.cooler.len()
        } else {
            self.heater.len()
        };
        if len >= capacity {
            return false;
        }

        let mut s = stored.clone();
        s.current_temp = target;
        let order_id: String = s.order.id.clone();
        proof {
            lemma_hist_empty(old(self).actions@, stored.order.id@);
            assert(old(self).id_ok(stored.order.id@));
        }
        if target == Location::Cooler {
            self.cooler.push_back(s);
        } else {
            self.heater.push_back(s);
        }
        self.record_action(order_id, ActionKind::Place, target, t);
        proof {
            let pre = *old(self);
            let id = stored.order.id@;
            let a = self.actions@.last();
            let snew = StoredOrder {
                order: stored.order,
                placed_at: stored.placed_at,
                current_temp: target,
            };
            assert(!contains_id(pre.cooler@, id));
            assert(!contains_id(pre.heater@, id));
            assert(!contains_id(pre.shelf@, id));
            if target == Location::Cooler {
                lemma_distinct_push(pre.cooler@, snew);
                lemma_disjoint_push_left(pre.cooler@, pre.heater@, snew);
                lemma_disjoint_push_left(pre.cooler@, pre.shelf@, snew);
                assert forall|i: int|
                    0 <= i < self.cooler@.len() implies (#[trigger] self.cooler@[i]).wf()
                    && self.cooler@[i].current_temp == Location::Cooler by {
                    if i < pre.cooler@.len() {
                        assert(self.cooler@[i] == pre.cooler@[i]);
                    } else {
                        assert(self.cooler@[i] == snew);
                    }
                }
            } else {
                lemma_distinct_push(pre.heater@, snew);
                lemma_disjoint_sym(pre.cooler@, pre.heater@);
                lemma_disjoint_push_left(pre.heater@, pre.cooler@, snew);
                lemma_disjoint_sym(pre.heater@.push(snew), pre.cooler@);
                lemma_disjoint_push_left(pre.heater@, pre.shelf@, snew);
                assert forall|i: int|
                    0 <= i < self.heater@.len() implies (#[trigger] self.heater@[i]).wf()
                    && self.heater@[i].current_temp == Location::Heater by {
                    if i < pre.heater@.len() {
                        assert(self.heater@[i] == pre.heater@[i]);
                    } else {
                        assert(self.heater@[i] == snew);
                    }
                }
            }
            assert(self.storages_wf());
            assert forall|id2: Seq<char>| self.id_ok(id2) by {
                assert(pre.id_ok(id2));
                lemma_hist_push(pre.actions@, a, id2);
                if target == Location::Cooler {
                    lemma_contains_push(pre.cooler@, snew, id2);
                } else {
                    lemma_contains_push(pre.heater@, snew, id2);
                }
                if id2 == id {
                    lemma_hist_empty(pre.actions@, id2);
                    assert(hist(self.actions@, id2) == hist(pre.actions@, id2).push(a));
                    assert(hist(self.actions@, id2).len() == 1);
                    assert(hist(self.actions@, id2)[0] == a);
                }
            }
        }
        true
    }

    /// Place `stored` on the shelf if it has room, mirroring its recomputed
    /// expiration in the eviction index; report whether it did.
    fn try_place_on_shelf(&mut self, stored: &StoredOrder, t: u64) -> (placed: bool)
        requires
            old(self).wf(),
            stored.wf(),
            t <= MAX_TIMESTAMP_MICROS,
            !mentions(old(self).actions@, stored.order.id@),
            old(self).actions@.len() + MAX_TIMESTAMP_MICROS + 1 < u64::MAX,
        ensures
            final(self).wf(),
            placed == (old(self).shelf@.len() < SHELF_CAPACITY),
            placed ==> Self::placed_on_shelf_post(*old(self), *final(self), *stored, t),
            !placed ==> *final(self) == *old(self),
    {
        if self.shelf.len() >= SHELF_CAPACITY {
            return false;
        }

        let mut s = stored.clone();
        s.current_temp = Location::Shelf;
        let order_id: String = s.order.id.clone();
        proof {
            lemma_hist_empty(old(self).actions@, stored.order.id@);
            assert(old(self).id_ok(stored.order.id@));
        }
        let expires_at: u64 = self.calculate_expiration(&s);
        let entry = OrderEntry { order_id: s.order.id.clone(), expires_at };
        self.shelf.push(s);
        self.shelf_queue.push(entry);
        self.record_action(order_id, ActionKind::Place, Location::Shelf, t);
        proof {
            let pre = *old(self);
            let id = stored.order.id@;
            let a = self.actions@.last();
            let snew = StoredOrder {
                order: stored.order,
                placed_at: stored.placed_at,
                current_temp: Location::Shelf,
            };
            assert(!contains_id(pre.cooler@, id));
            assert(!contains_id(pre.heater@, id));
            assert(!contains_id(pre.shelf@, id));
            lemma_distinct_push(pre.shelf@, snew);
            lemma_disjoint_sym(pre.cooler@, pre.shelf@);
            lemma_disjoint_push_left(pre.shelf@, pre.cooler@, snew);
            lemma_disjoint_sym(pre.shelf@.push(snew), pre.cooler@);
            lemma_disjoint_sym(pre.heater@, pre.shelf@);
            lemma_disjoint_push_left(pre.shelf@, pre.heater@, snew);
            lemma_disjoint_sym(pre.shelf@.push(snew), pre.heater@);
            assert forall|i: int|
                0 <= i < self.shelf@.len() implies (#[trigger] self.shelf@[i]).wf()
                && self.shelf@[i].current_temp == Location::Shelf by {
                if i < pre.shelf@.len() {
                    assert(self.shelf@[i] == pre.shelf@[i]);
                } else {
                    assert(self.shelf@[i] == snew);
                }
            }
            assert(self.storages_wf());
            assert forall|i: int|
                0 <= i < self.shelf@.len() implies (#[trigger] self.shelf_queue@[i]).order_id@
                == self.shelf@[i].order.id@ && self.shelf_queue@[i].expires_at
                == self.shelf@[i].expires_at() by {
                if i < pre.shelf@.len() {
                    assert(self.shelf_queue@[i] == pre.shelf_queue@[i]);
                    assert(self.shelf@[i] == pre.shelf@[i]);
                }
            }
            assert(self.queue_wf());
            assert forall|id2: Seq<char>| self.id_ok(id2) by {
                assert(pre.id_ok(id2));
                lemma_hist_push(pre.actions@, a, id2);
                lemma_contains_push(pre.shelf@, snew, id2);
                if id2 == id {
                    lemma_hist_empty(pre.actions@, id2);
                    assert(hist(self.actions@, id2) == hist(pre.actions@, id2).push(a));
                    assert(hist(self.actions@, id2).len() == 1);
                    assert(hist(self.actions@, id2)[0] == a);
                }
            }
        }
        true
    }

    /// Place `stored` on the shelf, which the placement cascade has already
    /// proved to have room.
    fn force_place_on_shelf(&mut self, stored: &StoredOrder, t: u64)
        requires
            old(self).wf(),
            stored.wf(),
            old(self).shelf@.len() < SHELF_CAPACITY,
            t <= MAX_TIMESTAMP_MICROS,
            !mentions(old(self).actions@, stored.order.id@),
            old(self).actions@.len() + MAX_TIMESTAMP_MICROS + 1 < u64::MAX,
        ensures
            final(self).wf(),
            Self::placed_on_shelf_post(*old(self), *final(self), *stored, t),
    {
        let placed = self.try_place_on_shelf(stored, t);
        proof {
            assert(placed);
        }
    }

    /// Place `stored` in the cooler or heater, which the placement cascade
    /// has already proved to have room.
    fn force_place_in_storage(&mut self, stored: &StoredOrder, target: Location, t: u64)
        requires
            old(self).wf(),
            stored.wf(),
            target == Location::Cooler || target == Location::Heater,
            old(self).storage_seq(target).len() < Self::capacity_of(target),
            t <= MAX_TIMESTAMP_MICROS,
            !mentions(old(self).actions@, stored.order.id@),
            old(self).actions@.len() + MAX_TIMESTAMP_MICROS + 1 < u64::MAX,
        ensures
            final(self).wf(),
            Self::placed_in_storage_post(*old(self), *final(self), *stored, target, t),
    {
        let placed = self.try_place_in_storage(stored, target, t);
        proof {
            assert(placed);
        }
    }

    /// The shelf lost its earliest-expiring occupant (ties resolved to the
    /// lowest index), mirrored in the eviction index, with one `discard`
    /// action logged; cooler and heater untouched.
    pub open spec fn discard_post(pre: Kitchen, post: Kitchen, t: u64) -> bool {
        let v = min_exp_index(pre.shelf_queue@);
        &&& post.shelf@ == pre.shelf@.remove(v)
        &&& post.shelf_queue@ == pre.shelf_queue@.remove(v)
        &&& post.cooler@ == pre.cooler@
        &&& post.heater@ == pre.heater@
        &&& Kitchen::log_extended1(
            pre,
            post,
            t,
            pre.shelf@[v].order.id@,
            ActionKind::Discard,
            Location::Shelf,
        )
    }

    /// Evict the shelf occupant with the earliest projected expiration,
    /// recording a `discard` action.
    fn discard_from_shelf(&mut self, t: u64)
        requires
            old(self).wf(),
            old(self).shelf@.len() > 0,
            t <= MAX_TIMESTAMP_MICROS,
            old(self).actions@.len() + MAX_TIMESTAMP_MICROS + 1 < u64::MAX,
        ensures
            final(self).wf(),
            Self::discard_post(*old(self), *final(self), t),
    {
        let mut best: usize = 0;
        let mut i: usize = 1;
        while i < self.shelf_queue.len()
            invariant
                *self == *old(self),
                1 <= i <= self.shelf_queue@.len(),
                0 <= best < i,
                best == min_exp_index(self.shelf_queue@.subrange(0, i as int)),
            decreases self.shelf_queue@.len() - i,
        {
            proof {
                assert(self.shelf_queue@.subrange(0, i + 1).drop_last() =~= self.shelf_queue@.subrange(
                    0,
                    i as int,
                ));
            }
            if self.shelf_queue[i].expires_at < self.shelf_queue[best].expires_at {
                best = i;
            }
            i = i + 1;
        }
        proof {
            assert(self.shelf_queue@.subrange(0, self.shelf_queue@.len() as int) =~= self.shelf_queue@);
            assert(best == min_exp_index(self.shelf_queue@));
        }

        let entry: OrderEntry = self.shelf_queue.remove(best);
        let victim: StoredOrder = self.shelf.remove(best);
        self.record_action(entry.order_id, ActionKind::Discard, Location::Shelf, t);
        proof {
            let pre = *old(self);
            let v = best as int;
            let id = pre.shelf@[v].order.id@;
            let a = self.actions@.last();
            lemma_distinct_remove(pre.shelf@, v);
            lemma_disjoint_remove_right(pre.cooler@, pre.shelf@, v);
            lemma_disjoint_remove_right(pre.heater@, pre.shelf@, v);
            lemma_all_stored_remove(pre.shelf@, v, Location::Shelf);
            pre.shelf@.remove_ensures(v);
            pre.shelf_queue@.remove_ensures(v);
            assert(self.storages_wf());
            assert forall|i2: int|
                0 <= i2 < self.shelf@.len() implies (#[trigger] self.shelf_queue@[i2]).order_id@
                == self.shelf@[i2].order.id@ && self.shelf_queue@[i2].expires_at
                == self.shelf@[i2].expires_at() by {
                let i0 = if i2 < v {
                    i2
                } else {
                    i2 + 1
                };
                assert(self.shelf_queue@[i2] == pre.shelf_queue@[i0]);
                assert(self.shelf@[i2] == pre.shelf@[i0]);
            }
            assert(self.queue_wf());
            assert(!contains_id(pre.cooler@, id));
            assert(!contains_id(pre.heater@, id));
            assert(contains_id(pre.shelf@, id));
            assert forall|id2: Seq<char>| self.id_ok(id2) by {
                assert(pre.id_ok(id2));
                lemma_hist_push(pre.actions@, a, id2);
                lemma_contains_remove(pre.shelf@, v, id2);
                if id2 == id {
                    assert(hist(self.actions@, id2) == hist(pre.actions@, id2).push(a));
                }
            }
        }
    }

    /// The front occupant of `source` moved to the shelf: if the shelf was
    /// full its earliest-expiring occupant was discarded first; the moved
    /// order keeps its `placed_at` and is re-indexed with the expiration
    /// recomputed against the shelf's ambient.
    pub open spec fn moved_to_shelf_post(pre: Kitchen, post: Kitchen, source: Location, t: u64) -> bool {
        let did_discard = pre.shelf@.len() >= SHELF_CAPACITY;
        let v = min_exp_index(pre.shelf_queue@);
        let shelf1 = if did_discard {
            pre.shelf@.remove(v)
        } else {
            pre.shelf@
        };
        let queue1 = if did_discard {
            pre.shelf_queue@.remove(v)
        } else {
            pre.shelf_queue@
        };
        let f = pre.storage_seq(source)[0];
        let fm = StoredOrder { order: f.order, placed_at: f.placed_at, current_temp: Location::Shelf };
        let m = pre.next_ts(t);
        &&& post.storage_seq(source) == pre.storage_seq(source).subrange(
            1,
            pre.storage_seq(source).len() as int,
        )
        &&& (source == Location::Cooler ==> post.heater@ == pre.heater@)
        &&& (source == Location::Heater ==> post.cooler@ == pre.cooler@)
        &&& post.shelf@ == shelf1.push(fm)
        &&& post.shelf_queue@ == queue1.push(
            OrderEntry { order_id: f.order.id, expires_at: fm.expires_at() as u64 },
        )
        &&& if did_discard {
            &&& post.actions@.len() == pre.actions@.len() + 2
            &&& forall|i: int| 0 <= i < pre.actions@.len() ==> post.actions@[i] == pre.actions@[i]
            &&& post.actions@[pre.actions@.len() as int].is_act(
                m,
                pre.shelf@[v].order.id@,
                ActionKind::Discard,
                Location::Shelf,
            )
            &&& post.actions@.last().is_act(m + 1, f.order.id@, ActionKind::Move, Location::Shelf)
            &&& post.last_timestamp == m + 1
        } else {
            Kitchen::log_extended1(pre, post, t, f.order.id@, ActionKind::Move, Location::Shelf)
        }
    }

    /// Move the front (first-in) occupant of `source` to the shelf,
    /// discarding the shelf's earliest-expiring occupant first if the shelf
    /// is full; report whether a move happened.
    fn try_move_to_shelf_from_storage(&mut self, source: Location, t: u64) -> (moved: bool)
        requires
            old(self).wf(),
            source == Location::Cooler || source == Location::Heater,
            old(self).storage_seq(source).len() > 0,
            t <= MAX_TIMESTAMP_MICROS,
            old(self).actions@.len() + MAX_TIMESTAMP_MICROS + 2 < u64::MAX,
        ensures
            final(self).wf(),
            moved,
            Self::moved_to_shelf_post(*old(self), *final(self), source, t),
    {
        let shelf_is_full: bool = self.shelf.len() >= SHELF_CAPACITY;
        if shelf_is_full {
            self.discard_from_shelf(t);
        }
        let ghost mid = *self;
        let popped: Option<StoredOrder> = if source == Location::Cooler {
            self.cooler.pop_front()
        } else {
            self.heater.pop_front()
        };
        match popped {
            Some(stored) => {
                let order_id: String = stored.order.id.clone();
                let mut moved_order = stored;
                moved_order.current_temp = Location::Shelf;
                let expires_at: u64 = self.calculate_expiration(&moved_order);
                let entry = OrderEntry { order_id: moved_order.order.id.clone(), expires_at };
                self.shelf.push(moved_order);
                self.shelf_queue.push(entry);
                self.record_action(order_id, ActionKind::Move, Location::Shelf, t);
                proof {
                    let pre = *old(self);
                    let f = pre.storage_seq(source)[0];
                    let fid = f.order.id@;
                    let fm = StoredOrder {
                        order: f.order,
                        placed_at: f.placed_at,
                        current_temp: Location::Shelf,
                    };
                    let a = self.actions@.last();
                    assert(pre.storage_seq(source).subrange(1, pre.storage_seq(source).len() as int)
                        =~= pre.storage_seq(source).remove(0));
                    // the moved id is nowhere else
                    if !mentions(pre.actions@, fid) {
                        lemma_hist_empty(pre.actions@, fid);
                        assert(pre.id_ok(fid));
                        assert(false);
                    }
                    if pre.shelf@.len() >= SHELF_CAPACITY {
                        lemma_min_exp_index(pre.shelf_queue@);
                    }
                    assert(!contains_id(mid.shelf@, fid)) by {
                        if pre.shelf@.len() >= SHELF_CAPACITY {
                            lemma_contains_remove(
                                pre.shelf@,
                                min_exp_index(pre.shelf_queue@),
                                fid,
                            );
                        }
                    }
                    if source == Location::Cooler {
                        lemma_distinct_remove(pre.cooler@, 0);
                        lemma_disjoint_remove_left(pre.cooler@, pre.heater@, 0);
                        lemma_disjoint_remove_left(pre.cooler@, mid.shelf@, 0);
                        lemma_all_stored_remove(pre.cooler@, 0, Location::Cooler);
                        lemma_distinct_push(mid.shelf@, fm);
                        lemma_disjoint_sym(pre.cooler@.remove(0), mid.shelf@);
                        lemma_disjoint_push_left(mid.shelf@, pre.cooler@.remove(0), fm);
                        lemma_disjoint_sym(mid.shelf@.push(fm), pre.cooler@.remove(0));
                        lemma_disjoint_sym(pre.heater@, mid.shelf@);
                        lemma_disjoint_push_left(mid.shelf@, pre.heater@, fm);
                        lemma_disjoint_sym(mid.shelf@.push(fm), pre.heater@);
                    } else {
                        lemma_distinct_remove(pre.heater@, 0);
                        lemma_disjoint_sym(pre.cooler@, pre.heater@);
                        lemma_disjoint_remove_left(pre.heater@, pre.cooler@, 0);
                        lemma_disjoint_sym(pre.heater@.remove(0), pre.cooler@);
                        lemma_disjoint_remove_left(pre.heater@, mid.shelf@, 0);
                        lemma_all_stored_remove(pre.heater@, 0, Location::Heater);
                        lemma_distinct_push(mid.shelf@, fm);
                        lemma_disjoint_sym(pre.heater@.remove(0), mid.shelf@);
                        lemma_disjoint_push_left(mid.shelf@, pre.heater@.remove(0), fm);
                        lemma_disjoint_sym(mid.shelf@.push(fm), pre.heater@.remove(0));
                        lemma_disjoint_sym(pre.cooler@, mid.shelf@);
                        lemma_disjoint_push_left(mid.shelf@, pre.cooler@, fm);
                        lemma_disjoint_sym(mid.shelf@.push(fm), pre.cooler@);
                    }
                    assert forall|i: int|
                        0 <= i < self.shelf@.len() implies (#[trigger] self.shelf@[i]).wf()
                        && self.shelf@[i].current_temp == Location::Shelf by {
                        if i < mid.shelf@.len() {
                            assert(self.shelf@[i] == mid.shelf@[i]);
                        } else {
                            assert(self.shelf@[i] == fm);
                            assert(f.wf());
                        }
                    }
                    assert(self.storages_wf());
                    assert forall|i: int|
                        0 <= i < self.shelf@.len() implies (#[trigger] self.shelf_queue@[i]).order_id@
                        == self.shelf@[i].order.id@ && self.shelf_queue@[i].expires_at
                        == self.shelf@[i].expires_at() by {
                        if i < mid.shelf@.len() {
                            assert(self.shelf_queue@[i] == mid.shelf_queue@[i]);
                            assert(self.shelf@[i] == mid.shelf@[i]);
                        }
                    }
                    assert(self.queue_wf());
                    assert forall|id2: Seq<char>| self.id_ok(id2) by {
                        assert(pre.id_ok(id2));
                        assert(mid.id_ok(id2));
                        lemma_hist_push(mid.actions@, a, id2);
                        lemma_contains_push(mid.shelf@, fm, id2);
                        if source == Location::Cooler {
                            lemma_contains_remove(pre.cooler@, 0, id2);
                        } else {
                            lemma_contains_remove(pre.heater@, 0, id2);
                        }
                        if pre.shelf@.len() >= SHELF_CAPACITY {
                            lemma_min_exp_index(pre.shelf_queue@);
                            lemma_contains_remove(
                                pre.shelf@,
                                min_exp_index(pre.shelf_queue@),
                                id2,
                            );
                        }
                        if id2 == fid {
                            assert(hist(self.actions@, id2) == hist(mid.actions@, id2).push(a));
                            if source == Location::Cooler {
                                assert(mid.cooler@[0].order.id@ == fid);
                            } else {
                                assert(mid.heater@[0].order.id@ == fid);
                            }
                        }
                    }
                }
                true
            },
            None => {
                // never reached: the source storage was nonempty
                true
            },
        }
    }

    /// The projected expiration instant of `stored` in its current storage:
    /// `placed_at` plus the freshness budget stretched by the degradation
    /// rate, in microseconds.
    fn calculate_expiration(&self, stored: &StoredOrder) -> (r: u64)
        requires
            stored.wf(),
        ensures
            r == stored.expires_at(),
    {
        let storage_temp = StoredOrder::get_storage_temp(stored.current_temp);
        let rate: u64 = if stored.order.temp == storage_temp {
            DEGRADATION_RATE_IDEAL as u64
        } else {
            DEGRADATION_RATE_NON_IDEAL as u64
        };

        let micros_until_expiration: u64 = stored.order.freshness * MICROS_PER_SEC / rate;
        stored.placed_at + micros_until_expiration
    }

    /// Step of the cascade for a hot or cold order whose ideal storage and
    /// the shelf are both full: the shelf's earliest-expiring occupant is
    /// discarded, the ideal storage's front occupant moves to the shelf, and
    /// the new order takes the freed ideal slot — three actions logged.
    pub open spec fn cascade_post(
        pre: Kitchen,
        post: Kitchen,
        order: Order,
        t: u64,
        ideal: Location,
    ) -> bool {
        let v = min_exp_index(pre.shelf_queue@);
        let f = pre.storage_seq(ideal)[0];
        let fm = StoredOrder { order: f.order, placed_at: f.placed_at, current_temp: Location::Shelf };
        let s = StoredOrder { order: order, placed_at: t, current_temp: ideal };
        let m = pre.next_ts(t);
        &&& post.storage_seq(ideal) == pre.storage_seq(ideal).subrange(
            1,
            pre.storage_seq(ideal).len() as int,
        ).push(s)
        &&& (ideal == Location::Cooler ==> post.heater@ == pre.heater@)
        &&& (ideal == Location::Heater ==> post.cooler@ == pre.cooler@)
        &&& post.shelf@ == pre.shelf@.remove(v).push(fm)
        &&& post.shelf_queue@ == pre.shelf_queue@.remove(v).push(
            OrderEntry { order_id: f.order.id, expires_at: fm.expires_at() as u64 },
        )
        &&& post.actions@.len() == pre.actions@.len() + 3
        &&& forall|i: int| 0 <= i < pre.actions@.len() ==> post.actions@[i] == pre.actions@[i]
        &&& post.actions@[pre.actions@.len() as int].is_act(
            m,
            pre.shelf@[v].order.id@,
            ActionKind::Discard,
            Location::Shelf,
        )
        &&& post.actions@[pre.actions@.len() as int + 1].is_act(
            m + 1,
            f.order.id@,
            ActionKind::Move,
            Location::Shelf,
        )
        &&& post.actions@.last().is_act(m + 2, order.id@, ActionKind::Place, ideal)
        &&& post.last_timestamp == m + 2
    }

    /// Step of the cascade for a room-temperature order when the shelf is
    /// full: the earliest-expiring shelf occupant is discarded and the new
    /// order takes its place — two actions logged.
    pub open spec fn evict_and_shelf_post(pre: Kitchen, post: Kitchen, order: Order, t: u64) -> bool {
        let v = min_exp_index(pre.shelf_queue@);
        let s = StoredOrder { order: order, placed_at: t, current_temp: Location::Shelf };
        let m = pre.next_ts(t);
        &&& post.shelf@ == pre.shelf@.remove(v).push(s)
        &&& post.shelf_queue@ == pre.shelf_queue@.remove(v).push(
            OrderEntry { order_id: order.id, expires_at: s.expires_at() as u64 },
        )
        &&& post.cooler@ == pre.cooler@
        &&& post.heater@ == pre.heater@
        &&& post.actions@.len() == pre.actions@.len() + 2
        &&& forall|i: int| 0 <= i < pre.actions@.len() ==> post.actions@[i] == pre.actions@[i]
        &&& post.actions@[pre.actions@.len() as int].is_act(
            m,
            pre.shelf@[v].order.id@,
            ActionKind::Discard,
            Location::Shelf,
        )
        &&& post.actions@.last().is_act(m + 1, order.id@, ActionKind::Place, Location::Shelf)
        &&& post.last_timestamp == m + 1
    }

    /// The full placement cascade: ideal slot if free; else the shelf if it
    /// has room; else, for hot and cold orders, evict from the shelf, move
    /// the ideal storage's front occupant there and take the ideal slot; for
    /// room orders, evict from the shelf and take the freed shelf slot.
    pub open spec fn place_effect(pre: Kitchen, post: Kitchen, order: Order, t: u64) -> bool {
        let ideal = ideal_location(order.temp);
        let incoming = StoredOrder { order: order, placed_at: t, current_temp: ideal };
        if ideal != Location::Shelf && pre.storage_seq(ideal).len() < Kitchen::capacity_of(ideal) {
            Kitchen::placed_in_storage_post(pre, post, incoming, ideal, t)
        } else if pre.shelf@.len() < SHELF_CAPACITY {
            Kitchen::placed_on_shelf_post(pre, post, incoming, t)
        } else if ideal != Location::Shelf {
            Kitchen::cascade_post(pre, post, order, t, ideal)
        } else {
            Kitchen::evict_and_shelf_post(pre, post, order, t)
        }
    }

    /// Place `order` into the kitchen at wall-clock `timestamp`, following
    /// the placement cascade; exactly one stored order for its id is present
    /// in some storage afterwards, and a `place` action (after any `discard`
    /// and `move` the cascade needed) is logged with timestamps at or after
    /// `timestamp`. The id must be new to this kitchen.
    pub fn place_order(&mut self, order: Order, timestamp: u64)
        requires
            old(self).wf(),
            order.wf(),
            timestamp <= MAX_TIMESTAMP_MICROS,
            !mentions(old(self).actions@, order.id@),
            old(self).actions@.len() + MAX_TIMESTAMP_MICROS + 3 < u64::MAX,
        ensures
            final(self).wf(),
            Self::place_effect(*old(self), *final(self), order, timestamp),
    {
        let stored = StoredOrder {
            order: order.clone(),
            placed_at: timestamp,
            current_temp: Location::Shelf,
        };

        let ideal_target: Location = match order.temp {
            Temp::Hot => Location::Heater,
            Temp::Cold => Location::Cooler,
            Temp::Room => Location::Shelf,
        };

        let placed: bool = if ideal_target != Location::Shelf {
            if self.try_place_in_storage(&stored, ideal_target, timestamp) {
                true
            } else {
                self.try_place_on_shelf(&stored, timestamp)
            }
        } else {
            self.try_place_on_shelf(&stored, timestamp)
        };

        if !placed {
            let ghost pre = *old(self);
            proof {
                assert(*self == pre);
                lemma_min_exp_index(pre.shelf_queue@);
            }
            if ideal_target != Location::Shelf {
                let moved = self.try_move_to_shelf_from_storage(ideal_target, timestamp);
                if moved {
                    let ghost mid = *self;
                    proof {
                        let v = min_exp_index(pre.shelf_queue@);
                        let a1 = mid.actions@[pre.actions@.len() as int];
                        let a2 = mid.actions@.last();
                        assert(mid.actions@ =~= pre.actions@.push(a1).push(a2));
                        lemma_in_storage_mentioned(pre, pre.shelf@[v].order.id@);
                        lemma_in_storage_mentioned(pre, pre.storage_seq(ideal_target)[0].order.id@);
                        lemma_not_mentions_push(pre.actions@, a1, order.id@);
                        lemma_not_mentions_push(pre.actions@.push(a1), a2, order.id@);
                    }
                    self.force_place_in_storage(&stored, ideal_target, timestamp);
                    proof {
                        assert(self.actions@.last() == self.actions@[pre.actions@.len() as int
                            + 2]);
                        assert forall|i: int|
                            0 <= i < pre.actions@.len() implies self.actions@[i]
                            == pre.actions@[i] by {
                            assert(self.actions@[i] == mid.actions@[i]);
                        }
                        assert(Self::cascade_post(pre, *self, order, timestamp, ideal_target));
                    }
                }
            } else {
                self.discard_from_shelf(timestamp);
                let ghost mid = *self;
                proof {
                    let v = min_exp_index(pre.shelf_queue@);
                    let a1 = mid.actions@.last();
                    assert(mid.actions@ =~= pre.actions@.push(a1));
                    lemma_in_storage_mentioned(pre, pre.shelf@[v].order.id@);
                    lemma_not_mentions_push(pre.actions@, a1, order.id@);
                }
                self.force_place_on_shelf(&stored, timestamp);
                proof {
                    assert(Self::evict_and_shelf_post(pre, *self, order, timestamp));
                }
            }
        }
    }

    /// Position of the order with id `id` in a cooler or heater queue.
    fn find_pos_in_deque(q: &VecDeque<StoredOrder>, id: &String) -> (r: Option<usize>)
        ensures
            match r {
                Some(p) => p < q@.len() && q@[p as int].order.id@ == id@,
                None => !contains_id(q@, id@),
            },
    {
        let mut i: usize = 0;
        while i < q.len()
            invariant
                i <= q@.len(),
                forall|j: int| 0 <= j < i ==> (#[trigger] q@[j]).order.id@ != id@,
            decreases q@.len() - i,
        {
            if q[i].order.id == *id {
                return Some(i);
            }
            i = i + 1;
        }
        None
    }

    /// Position of the order with id `id` on the shelf.
    fn find_pos_in_vec(q: &Vec<StoredOrder>, id: &String) -> (r: Option<usize>)
        ensures
            match r {
                Some(p) => p < q@.len() && q@[p as int].order.id@ == id@,
                None => !contains_id(q@, id@),
            },
    {
        let mut i: usize = 0;
        while i < q.len()
            invariant
                i <= q@.len(),
                forall|j: int| 0 <= j < i ==> (#[trigger] q@[j]).order.id@ != id@,
            decreases q@.len() - i,
        {
            if q[i].order.id == *id {
                return Some(i);
            }
            i = i + 1;
        }
        None
    }

    /// Resolution of a pickup: the first storage in the order cooler,
    /// heater, shelf that holds the id loses that order, and one terminal
    /// action is logged — `discard` if the order had expired at `t` under
    /// its actual storage and original `placed_at`, `pickup` otherwise. An
    /// absent id leaves the kitchen untouched.
    pub open spec fn pickup_effect(pre: Kitchen, post: Kitchen, id: Seq<char>, t: u64) -> bool {
        if contains_id(pre.cooler@, id) {
            exists|p: int|
                #![trigger pre.cooler@[p]]
                ({
                    &&& 0 <= p < pre.cooler@.len()
                    &&& pre.cooler@[p].order.id@ == id
                    &&& post.cooler@ == pre.cooler@.remove(p)
                    &&& post.heater@ == pre.heater@
                    &&& post.shelf@ == pre.shelf@
                    &&& post.shelf_queue@ == pre.shelf_queue@
                    &&& Kitchen::log_extended1(
                        pre,
                        post,
                        t,
                        id,
                        if pre.cooler@[p].expired(t) {
                            ActionKind::Discard
                        } else {
                            ActionKind::Pickup
                        },
                        Location::Cooler,
                    )
                })
        } else if contains_id(pre.heater@, id) {
            exists|p: int|
                #![trigger pre.heater@[p]]
                ({
                    &&& 0 <= p < pre.heater@.len()
                    &&& pre.heater@[p].order.id@ == id
                    &&& post.heater@ == pre.heater@.remove(p)
                    &&& post.cooler@ == pre.cooler@
                    &&& post.shelf@ == pre.shelf@
                    &&& post.shelf_queue@ == pre.shelf_queue@
                    &&& Kitchen::log_extended1(
                        pre,
                        post,
                        t,
                        id,
                        if pre.heater@[p].expired(t) {
                            ActionKind::Discard
                        } else {
                            ActionKind::Pickup
                        },
                        Location::Heater,
                    )
                })
        } else if contains_id(pre.shelf@, id) {
            exists|p: int|
                #![trigger pre.shelf@[p]]
                ({
                    &&& 0 <= p < pre.shelf@.len()
                    &&& pre.shelf@[p].order.id@ == id
                    &&& post.shelf@ == pre.shelf@.remove(p)
                    &&& post.shelf_queue@ == pre.shelf_queue@.remove(p)
                    &&& post.cooler@ == pre.cooler@
                    &&& post.heater@ == pre.heater@
                    &&& Kitchen::log_extended1(
                        pre,
                        post,
                        t,
                        id,
                        if pre.shelf@[p].expired(t) {
                            ActionKind::Discard
                        } else {
                            ActionKind::Pickup
                        },
                        Location::Shelf,
                    )
                })
        } else {
            post == pre
        }
    }

    /// Resolve a pickup for `order_id` at wall-clock `timestamp`, searching
    /// cooler, then heater, then shelf; a `pickup` or `discard` action is
    /// logged as the freshness model dictates, and an absent id is a no-op.
    pub fn pickup_order(&mut self, order_id: &str, timestamp: u64)
        requires
            old(self).wf(),
            timestamp <= MAX_TIMESTAMP_MICROS,
            old(self).actions@.len() + MAX_TIMESTAMP_MICROS + 1 < u64::MAX,
        ensures
            final(self).wf(),
            Self::pickup_effect(*old(self), *final(self), order_id@, timestamp),
    {
        let oid: String = order_id.to_owned();
        let ghost id = order_id@;
        let ghost pre = *old(self);

        match Self::find_pos_in_deque(&self.cooler, &oid) {
            Some(pos) => {
                let removed = self.cooler.remove(pos);
                match removed {
                    Some(stored) => {
                        let expired: bool = stored.is_expired(timestamp);
                        let kind = if expired {
                            ActionKind::Discard
                        } else {
                            ActionKind::Pickup
                        };
                        self.record_action(oid, kind, Location::Cooler, timestamp);
                        proof {
                            let a = self.actions@.last();
                            let p = pos as int;
                            lemma_distinct_remove(pre.cooler@, p);
                            lemma_disjoint_remove_left(pre.cooler@, pre.heater@, p);
                            lemma_disjoint_remove_left(pre.cooler@, pre.shelf@, p);
                            lemma_all_stored_remove(pre.cooler@, p, Location::Cooler);
                            assert(self.storages_wf());
                            assert(contains_id(pre.cooler@, id));
                            assert(!contains_id(pre.heater@, id));
                            assert(!contains_id(pre.shelf@, id));
                            assert forall|id2: Seq<char>| self.id_ok(id2) by {
                                assert(pre.id_ok(id2));
                                lemma_hist_push(pre.actions@, a, id2);
                                lemma_contains_remove(pre.cooler@, p, id2);
                                if id2 == id {
                                    assert(hist(self.actions@, id2) == hist(
                                        pre.actions@,
                                        id2,
                                    ).push(a));
                                }
                            }
                            assert(Self::pickup_effect(pre, *self, id, timestamp));
                        }
                    },
                    None => {},
                }
                return ;
            },
            None => {},
        }

        match Self::find_pos_in_deque(&self.heater, &oid) {
            Some(pos) => {
                let removed = self.heater.remove(pos);
                match removed {
                    Some(stored) => {
                        let expired: bool = stored.is_expired(timestamp);
                        let kind = if expired {
                            ActionKind::Discard
                        } else {
                            ActionKind::Pickup
                        };
                        self.record_action(oid, kind, Location::Heater, timestamp);
                        proof {
                            let a = self.actions@.last();
                            let p = pos as int;
                            lemma_distinct_remove(pre.heater@, p);
                            lemma_disjoint_remove_right(pre.cooler@, pre.heater@, p);
                            lemma_disjoint_remove_left(pre.heater@, pre.shelf@, p);
                            lemma_all_stored_remove(pre.heater@, p, Location::Heater);
                            assert(self.storages_wf());
                            assert(!contains_id(pre.cooler@, id));
                            assert(contains_id(pre.heater@, id));
                            assert(!contains_id(pre.shelf@, id));
                            assert forall|id2: Seq<char>| self.id_ok(id2) by {
                                assert(pre.id_ok(id2));
                                lemma_hist_push(pre.actions@, a, id2);
                                lemma_contains_remove(pre.heater@, p, id2);
                                if id2 == id {
                                    assert(hist(self.actions@, id2) == hist(
                                        pre.actions@,
                                        id2,
                                    ).push(a));
                                }
                            }
                            assert(Self::pickup_effect(pre, *self, id, timestamp));
                        }
                    },
                    None => {},
                }
                return ;
            },
            None => {},
        }

        match Self::find_pos_in_vec(&self.shelf, &oid) {
            Some(pos) => {
                let stored: StoredOrder = self.shelf.remove(pos);
                let entry: OrderEntry = self.shelf_queue.remove(pos);
                let expired: bool = stored.is_expired(timestamp);
                let kind = if expired {
                    ActionKind::Discard
                } else {
                    ActionKind::Pickup
                };
                self.record_action(oid, kind, Location::Shelf, timestamp);
                proof {
                    let a = self.actions@.last();
                    let p = pos as int;
                    lemma_distinct_remove(pre.shelf@, p);
                    lemma_disjoint_remove_right(pre.cooler@, pre.shelf@, p);
                    lemma_disjoint_remove_right(pre.heater@, pre.shelf@, p);
                    lemma_all_stored_remove(pre.shelf@, p, Location::Shelf);
                    pre.shelf@.remove_ensures(p);
                    pre.shelf_queue@.remove_ensures(p);
                    assert(self.storages_wf());
                    assert forall|i2: int|
                        0 <= i2 < self.shelf@.len() implies (#[trigger] self.shelf_queue@[i2]).order_id@
                        == self.shelf@[i2].order.id@ && self.shelf_queue@[i2].expires_at
                        == self.shelf@[i2].expires_at() by {
                        let i0 = if i2 < p {
                            i2
                        } else {
                            i2 + 1
                        };
                        assert(self.shelf_queue@[i2] == pre.shelf_queue@[i0]);
                        assert(self.shelf@[i2] == pre.shelf@[i0]);
                    }
                    assert(self.queue_wf());
                    assert(!contains_id(pre.cooler@, id));
                    assert(!contains_id(pre.heater@, id));
                    assert(contains_id(pre.shelf@, id));
                    assert forall|id2: Seq<char>| self.id_ok(id2) by {
                        assert(pre.id_ok(id2));
                        lemma_hist_push(pre.actions@, a, id2);
                        lemma_contains_remove(pre.shelf@, p, id2);
                        if id2 == id {
                            assert(hist(self.actions@, id2) == hist(pre.actions@, id2).push(a));
                        }
                    }
                    assert(Self::pickup_effect(pre, *self, id, timestamp));
                }
            },
            None => {
                proof {
                    assert(*self == pre);
                }
            },
        }
    }

    /// A snapshot of the action log, ascending by timestamp: the log is kept
    /// ordered, so the snapshot is the log itself.
    pub fn get_actions(&self) -> (r: Vec<Action>)
        ensures
            r@ == self.actions@,
            self.log_wf() ==> ts_strictly_increasing(r@),
    {
        let mut r: Vec<Action> = Vec::new();
        let mut i: usize = 0;
        while i < self.actions.len()
            invariant
                i <= self.actions@.len(),
                r@.len() == i,
                forall|j: int| 0 <= j < i ==> r@[j] == self.actions@[j],
            decreases self.actions@.len() - i,
        {
            r.push(self.actions[i].clone());
            i = i + 1;
        }
        proof {
            assert(r@ =~= self.actions@);
        }
        r
    }
}

} // verus!
