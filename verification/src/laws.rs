use vstd::prelude::*;

use crate::action::{Action, ActionKind};
use crate::kitchen::{
    closed_hist, contains_id, hist, mentions, shelf_hist, single_place_hist, ts_strictly_increasing,
    Kitchen, COOLER_CAPACITY, HEATER_CAPACITY, SHELF_CAPACITY,
};
use crate::order::Location;

verus! {

/// Number of terminal (`pickup` or `discard`) actions in a history.
pub open spec fn terminal_count(h: Seq<Action>) -> int
    decreases h.len(),
{
    if h.len() == 0 {
        0
    } else {
        terminal_count(h.drop_last()) + if h.last().terminal() {
            1int
        } else {
            0int
        }
    }
}

/// Number of `place` actions in a history.
pub open spec fn place_count(h: Seq<Action>) -> int
    decreases h.len(),
{
    if h.len() == 0 {
        0
    } else {
        place_count(h.drop_last()) + if h.last().action == ActionKind::Place {
            1int
        } else {
            0int
        }
    }
}

/// Every shape a single order's history can take: one `place`, then at most
/// one `move` (always into the shelf, always out of the cooler or heater),
/// then at most one terminal `pickup` or `discard`.
pub open spec fn valid_id_hist(h: Seq<Action>) -> bool {
    ||| single_place_hist(h, Location::Cooler)
    ||| single_place_hist(h, Location::Heater)
    ||| single_place_hist(h, Location::Shelf)
    ||| shelf_hist(h)
    ||| closed_hist(h)
}

/// Storage capacities are never exceeded: in every well-formed kitchen —
/// and every kitchen operation preserves well-formedness — the cooler and
/// heater hold at most six orders and the shelf at most twelve.
pub proof fn lemma_capacities_respected(k: Kitchen)
    requires
        k.wf(),
    ensures
        k.cooler@.len() <= COOLER_CAPACITY,
        k.heater@.len() <= HEATER_CAPACITY,
        k.shelf@.len() <= SHELF_CAPACITY,
{
}

/// Each order id occupies at most one storage at any instant.
pub proof fn lemma_id_in_at_most_one_storage(k: Kitchen, id: Seq<char>)
    requires
        k.wf(),
    ensures
        !(contains_id(k.cooler@, id) && contains_id(k.heater@, id)),
        !(contains_id(k.cooler@, id) && contains_id(k.shelf@, id)),
        !(contains_id(k.heater@, id) && contains_id(k.shelf@, id)),
{
    if contains_id(k.cooler@, id) && contains_id(k.heater@, id) {
        let i = choose|i: int| 0 <= i < k.cooler@.len() && (#[trigger] k.cooler@[i]).order.id@ == id;
        let j = choose|j: int| 0 <= j < k.heater@.len() && (#[trigger] k.heater@[j]).order.id@ == id;
        assert(k.cooler@[i].order.id@ != k.heater@[j].order.id@);
    }
    if contains_id(k.cooler@, id) && contains_id(k.shelf@, id) {
        let i = choose|i: int| 0 <= i < k.cooler@.len() && (#[trigger] k.cooler@[i]).order.id@ == id;
        let j = choose|j: int| 0 <= j < k.shelf@.len() && (#[trigger] k.shelf@[j]).order.id@ == id;
        assert(k.cooler@[i].order.id@ != k.shelf@[j].order.id@);
    }
    if contains_id(k.heater@, id) && contains_id(k.shelf@, id) {
        let i = choose|i: int| 0 <= i < k.heater@.len() && (#[trigger] k.heater@[i]).order.id@ == id;
        let j = choose|j: int| 0 <= j < k.shelf@.len() && (#[trigger] k.shelf@[j]).order.id@ == id;
        assert(k.heater@[i].order.id@ != k.shelf@[j].order.id@);
    }
}

/// Every order id's history has a valid shape: it opens with its single
/// `place` action, moves at most once and only from the cooler or heater to
/// the shelf, and closes with at most one terminal action.
pub proof fn lemma_history_shape(k: Kitchen, id: Seq<char>)
    requires
        k.wf(),
        mentions(k.actions@, id),
    ensures
        valid_id_hist(hist(k.actions@, id)),
{
    assert(k.id_ok(id));
    if !k.in_any_storage(id) && hist(k.actions@, id).len() == 0 {
        crate::kitchen::lemma_hist_nonempty(k.actions@, id);
    }
}

/// Each placed order is removed at most once: its history holds at most one
/// `place` action and at most one terminal `pickup` or `discard` action.
pub proof fn lemma_removed_at_most_once(k: Kitchen, id: Seq<char>)
    requires
        k.wf(),
    ensures
        place_count(hist(k.actions@, id)) <= 1,
        terminal_count(hist(k.actions@, id)) <= 1,
{
    assert(k.id_ok(id));
    let h = hist(k.actions@, id);
    if h.len() == 0 {
        assert(place_count(h) == 0);
        assert(terminal_count(h) == 0);
    } else {
        lemma_counts_of_valid_hist(h);
    }
}

/// One unfolding step of both counters.
proof fn lemma_counts_unfold(h: Seq<Action>)
    requires
        h.len() > 0,
    ensures
        place_count(h) == place_count(h.drop_last()) + if h.last().action == ActionKind::Place {
            1int
        } else {
            0int
        },
        terminal_count(h) == terminal_count(h.drop_last()) + if h.last().terminal() {
            1int
        } else {
            0int
        },
{
}

/// Counts for each valid history shape.
proof fn lemma_counts_of_valid_hist(h: Seq<Action>)
    requires
        valid_id_hist(h) || h.len() == 0,
    ensures
        place_count(h) <= 1,
        terminal_count(h) <= 1,
{
    if h.len() == 0 {
    } else {
        lemma_counts_unfold(h);
        let h2 = h.drop_last();
        if h2.len() > 0 {
            lemma_counts_unfold(h2);
            let h1 = h2.drop_last();
            if h1.len() > 0 {
                lemma_counts_unfold(h1);
                assert(h1.drop_last().len() == 0);
                assert(h1.last() == h[0]);
            }
            assert(h2.last() == h[h.len() - 2]);
        }
        assert(place_count(Seq::<Action>::empty()) == 0);
        assert(terminal_count(Seq::<Action>::empty()) == 0);
    }
}

/// Placement never fails observably: after `place_order`, the order's id
/// occupies some storage, and the log has grown and ends with a `place`
/// action for that id stamped at or after the caller's clock.
pub proof fn lemma_place_admits_order(pre: Kitchen, post: Kitchen, order: crate::order::Order, t: u64)
    requires
        Kitchen::place_effect(pre, post, order, t),
    ensures
        post.in_any_storage(order.id@),
        post.actions@.len() > pre.actions@.len(),
        post.actions@.last().action == ActionKind::Place,
        post.actions@.last().id@ == order.id@,
        post.actions@.last().timestamp >= t,
{
    let ideal = crate::order::ideal_location(order.temp);
    if ideal != Location::Shelf && pre.storage_seq(ideal).len() < Kitchen::capacity_of(ideal) {
        let n = pre.storage_seq(ideal).len() as int;
        assert(post.storage_seq(ideal)[n].order.id@ == order.id@);
    } else if pre.shelf@.len() < SHELF_CAPACITY {
        let n = pre.shelf@.len() as int;
        assert(post.shelf@[n].order.id@ == order.id@);
    } else if ideal != Location::Shelf {
        let n = post.storage_seq(ideal).len() as int - 1;
        assert(post.storage_seq(ideal)[n].order.id@ == order.id@);
    } else {
        let n = post.shelf@.len() as int - 1;
        assert(post.shelf@[n].order.id@ == order.id@);
    }
}

/// Action timestamps strictly increase across the entire log, so the log is
/// already sorted ascending by timestamp.
pub proof fn lemma_log_timestamps_strictly_increase(k: Kitchen)
    requires
        k.wf(),
    ensures
        ts_strictly_increasing(k.actions@),
{
}

/// The stored order that carries `id`, in whichever storage holds it.
pub open spec fn stored_with_id(k: Kitchen, id: Seq<char>) -> crate::order::StoredOrder
    recommends
        k.in_any_storage(id),
{
    if contains_id(k.cooler@, id) {
        k.cooler@[choose|i: int| 0 <= i < k.cooler@.len() && (#[trigger] k.cooler@[i]).order.id@ == id]
    } else if contains_id(k.heater@, id) {
        k.heater@[choose|i: int| 0 <= i < k.heater@.len() && (#[trigger] k.heater@[i]).order.id@ == id]
    } else {
        k.shelf@[choose|i: int| 0 <= i < k.shelf@.len() && (#[trigger] k.shelf@[i]).order.id@ == id]
    }
}

/// A pickup of a present order logs `pickup` exactly when the order's
/// remaining freshness at `t` — computed from its original `placed_at` and
/// the storage it actually occupies — is still positive, and `discard`
/// exactly when it has run out.
pub proof fn lemma_pickup_decides_by_freshness(pre: Kitchen, post: Kitchen, id: Seq<char>, t: u64)
    requires
        pre.wf(),
        Kitchen::pickup_effect(pre, post, id, t),
        pre.in_any_storage(id),
    ensures
        post.actions@.len() == pre.actions@.len() + 1,
        post.actions@.last().terminal(),
        post.actions@.last().action == ActionKind::Pickup <==> !stored_with_id(pre, id).expired(t),
{
    if contains_id(pre.cooler@, id) {
        let p = choose|p: int|
            #![trigger pre.cooler@[p]]
            {
                &&& 0 <= p < pre.cooler@.len()
                &&& pre.cooler@[p].order.id@ == id
                &&& post.cooler@ == pre.cooler@.remove(p)
                &&& post.heater@ == pre.heater@
                &&& post.shelf@ == pre.shelf@
                &&& post.shelf_queue@ == pre.shelf_queue@
                &&& Kitchen::log_extended1(
                    pre,
                    post,
                    t,
                    id,
                    if pre.cooler@[p].expired(t) {
                        ActionKind::Discard
                    } else {
                        ActionKind::Pickup
                    },
                    Location::Cooler,
                )
            };
        let i = choose|i: int| 0 <= i < pre.cooler@.len() && (#[trigger] pre.cooler@[i]).order.id@
            == id;
        assert(i == p);
    } else if contains_id(pre.heater@, id) {
        let p = choose|p: int|
            #![trigger pre.heater@[p]]
            {
                &&& 0 <= p < pre.heater@.len()
                &&& pre.heater@[p].order.id@ == id
                &&& post.heater@ == pre.heater@.remove(p)
                &&& post.cooler@ == pre.cooler@
                &&& post.shelf@ == pre.shelf@
                &&& post.shelf_queue@ == pre.shelf_queue@
                &&& Kitchen::log_extended1(
                    pre,
                    post,
                    t,
                    id,
                    if pre.heater@[p].expired(t) {
                        ActionKind::Discard
                    } else {
                        ActionKind::Pickup
                    },
                    Location::Heater,
                )
            };
        let i = choose|i: int| 0 <= i < pre.heater@.len() && (#[trigger] pre.heater@[i]).order.id@
            == id;
        assert(i == p);
    } else {
        let p = choose|p: int|
            #![trigger pre.shelf@[p]]
            {
                &&& 0 <= p < pre.shelf@.len()
                &&& pre.shelf@[p].order.id@ == id
                &&& post.shelf@ == pre.shelf@.remove(p)
                &&& post.shelf_queue@ == pre.shelf_queue@.remove(p)
                &&& post.cooler@ == pre.cooler@
                &&& post.heater@ == pre.heater@
                &&& Kitchen::log_extended1(
                    pre,
                    post,
                    t,
                    id,
                    if pre.shelf@[p].expired(t) {
                        ActionKind::Discard
                    } else {
                        ActionKind::Pickup
                    },
                    Location::Shelf,
                )
            };
        let i = choose|i: int| 0 <= i < pre.shelf@.len() && (#[trigger] pre.shelf@[i]).order.id@
            == id;
        assert(i == p);
    }
}

/// A pickup for an id in no storage is a no-op: the whole kitchen state,
/// the log included, is unchanged.
pub proof fn lemma_pickup_absent_noop(pre: Kitchen, post: Kitchen, id: Seq<char>, t: u64)
    requires
        Kitchen::pickup_effect(pre, post, id, t),
        !pre.in_any_storage(id),
    ensures
        post == pre,
{
}

/// Reading the log is pure: two snapshots taken with no mutation in between
/// are identical sequences.
pub proof fn lemma_get_actions_pure(k: Kitchen, r1: Seq<Action>, r2: Seq<Action>)
    requires
        r1 == k.actions@,
        r2 == k.actions@,
    ensures
        r1 == r2,
{
}

} // verus!
