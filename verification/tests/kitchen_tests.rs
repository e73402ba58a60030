use kitchen_sim::action::ActionKind;
use kitchen_sim::kitchen::Kitchen;
use kitchen_sim::order::{Location, Order, StoredOrder, Temp};

fn order(id: &str, temp: Temp, freshness: u64) -> Order {
    Order {
        id: id.to_string(),
        name: format!("dish {}", id),
        temp,
        price: 100,
        freshness,
    }
}

const SEC: u64 = 1_000_000;

#[test]
fn ideal_placement_succeeds() {
    let mut k = Kitchen::new();
    k.place_order(order("A", Temp::Cold, 100), 1_000_000);
    let log = k.get_actions();
    assert_eq!(log.len(), 1);
    assert!(log[0].timestamp >= 1_000_000);
    assert_eq!(log[0].id, "A");
    assert_eq!(log[0].action, ActionKind::Place);
    assert_eq!(log[0].target, Location::Cooler);
    assert_eq!(k.cooler.len(), 1);
    assert_eq!(k.cooler[0].order.id, "A");
}

#[test]
fn shelf_fallback_when_ideal_full() {
    let mut k = Kitchen::new();
    for i in 1..=6u64 {
        k.place_order(order(&format!("C{}", i), Temp::Cold, 100), i * SEC);
    }
    k.place_order(order("C7", Temp::Cold, 100), 7 * SEC);
    let log = k.get_actions();
    let last = log.last().unwrap();
    assert_eq!(last.id, "C7");
    assert_eq!(last.action, ActionKind::Place);
    assert_eq!(last.target, Location::Shelf);
    assert_eq!(k.cooler.len(), 6);
    assert_eq!(k.shelf.len(), 1);
}

#[test]
fn shelf_fallback_without_move_when_shelf_has_room() {
    let mut k = Kitchen::new();
    for i in 1..=6u64 {
        k.place_order(order(&format!("C{}", i), Temp::Cold, 100), 0);
    }
    for i in 1..=11u64 {
        k.place_order(order(&format!("R{}", i), Temp::Room, 100), 0);
    }
    k.place_order(order("C7", Temp::Cold, 100), 0);
    let log = k.get_actions();
    let last = log.last().unwrap();
    assert_eq!(last.id, "C7");
    assert_eq!(last.action, ActionKind::Place);
    assert_eq!(last.target, Location::Shelf);
    assert!(log.iter().all(|a| a.action != ActionKind::Move));
    assert_eq!(k.shelf.len(), 12);
}

#[test]
fn evict_to_make_room() {
    let mut k = Kitchen::new();
    for i in 1..=6u64 {
        k.place_order(order(&format!("C{}", i), Temp::Cold, 100), 0);
    }
    for i in 1..=12u64 {
        // R3 gets the shortest freshness, hence the earliest projected expiration
        let freshness = if i == 3 { 10 } else { 100 };
        k.place_order(order(&format!("R{}", i), Temp::Room, freshness), 0);
    }
    k.place_order(order("C7", Temp::Cold, 100), 1000);
    let log = k.get_actions();
    let n = log.len();
    assert_eq!(n, 18 + 3);
    assert_eq!(log[n - 3].id, "R3");
    assert_eq!(log[n - 3].action, ActionKind::Discard);
    assert_eq!(log[n - 3].target, Location::Shelf);
    assert_eq!(log[n - 2].id, "C1");
    assert_eq!(log[n - 2].action, ActionKind::Move);
    assert_eq!(log[n - 2].target, Location::Shelf);
    assert_eq!(log[n - 1].id, "C7");
    assert_eq!(log[n - 1].action, ActionKind::Place);
    assert_eq!(log[n - 1].target, Location::Cooler);
    assert!(log[n - 3].timestamp < log[n - 2].timestamp);
    assert!(log[n - 2].timestamp < log[n - 1].timestamp);
    assert_eq!(k.cooler.len(), 6);
    assert_eq!(k.shelf.len(), 12);
}

#[test]
fn expired_pickup_becomes_discard() {
    let mut k = Kitchen::new();
    k.place_order(order("X", Temp::Hot, 2), 0);
    k.pickup_order("X", 3 * SEC);
    let log = k.get_actions();
    assert_eq!(log.len(), 2);
    assert_eq!(log[0].action, ActionKind::Place);
    assert_eq!(log[0].target, Location::Heater);
    assert_eq!(log[1].id, "X");
    assert_eq!(log[1].action, ActionKind::Discard);
    assert_eq!(log[1].target, Location::Heater);
    assert!(log.iter().all(|a| a.action != ActionKind::Pickup));
}

#[test]
fn non_ideal_degradation_still_fresh() {
    let mut k = Kitchen::new();
    for i in 1..=6u64 {
        k.place_order(order(&format!("H{}", i), Temp::Hot, 100), 0);
    }
    k.place_order(order("Y", Temp::Hot, 10), 0);
    k.pickup_order("Y", 4 * SEC);
    let log = k.get_actions();
    let last = log.last().unwrap();
    assert_eq!(last.id, "Y");
    assert_eq!(last.action, ActionKind::Pickup);
    assert_eq!(last.target, Location::Shelf);
}

#[test]
fn pickup_of_absent_id_is_noop() {
    let mut k = Kitchen::new();
    k.place_order(order("A", Temp::Cold, 100), 1_000_000);
    let before = k.get_actions();
    k.pickup_order("nobody", 2_000_000);
    let after = k.get_actions();
    assert_eq!(before, after);
    assert_eq!(k.cooler.len(), 1);
}

#[test]
fn pickup_twice_second_is_noop() {
    let mut k = Kitchen::new();
    k.place_order(order("A", Temp::Cold, 100), 1_000_000);
    k.pickup_order("A", 2_000_000);
    let before = k.get_actions();
    k.pickup_order("A", 3_000_000);
    let after = k.get_actions();
    assert_eq!(before, after);
    assert_eq!(before.len(), 2);
}

#[test]
fn get_actions_is_pure() {
    let mut k = Kitchen::new();
    k.place_order(order("A", Temp::Cold, 100), 1_000_000);
    k.place_order(order("B", Temp::Hot, 100), 2_000_000);
    let first = k.get_actions();
    let second = k.get_actions();
    assert_eq!(first, second);
}

#[test]
fn timestamps_strictly_increase_and_absorb_clock_skew() {
    let mut k = Kitchen::new();
    k.place_order(order("A", Temp::Room, 100), 5);
    k.place_order(order("B", Temp::Room, 100), 5);
    k.place_order(order("C", Temp::Room, 100), 2);
    let log = k.get_actions();
    assert_eq!(log[0].timestamp, 5);
    assert_eq!(log[1].timestamp, 6);
    assert_eq!(log[2].timestamp, 7);
}

#[test]
fn log_sorted_over_busy_run() {
    let mut k = Kitchen::new();
    for i in 0..30u64 {
        let temp = match i % 3 {
            0 => Temp::Hot,
            1 => Temp::Cold,
            _ => Temp::Room,
        };
        k.place_order(order(&format!("O{}", i), temp, 5 + i), i * 100_000);
    }
    for i in 0..30u64 {
        k.pickup_order(&format!("O{}", i), 4 * SEC + i);
    }
    let log = k.get_actions();
    for w in log.windows(2) {
        assert!(w[0].timestamp < w[1].timestamp);
    }
    assert!(k.cooler.len() <= 6 && k.heater.len() <= 6 && k.shelf.len() <= 12);
}

#[test]
fn capacities_never_exceeded() {
    let mut k = Kitchen::new();
    for i in 0..40u64 {
        k.place_order(order(&format!("R{}", i), Temp::Room, 100), i);
        assert!(k.shelf.len() <= 12);
        assert!(k.cooler.len() <= 6);
        assert!(k.heater.len() <= 6);
    }
    assert_eq!(k.shelf.len(), 12);
    let log = k.get_actions();
    let discards = log.iter().filter(|a| a.action == ActionKind::Discard).count();
    assert_eq!(discards, 40 - 12);
}

#[test]
fn each_id_has_one_terminal_action() {
    let mut k = Kitchen::new();
    for i in 0..20u64 {
        let temp = if i % 2 == 0 { Temp::Hot } else { Temp::Cold };
        k.place_order(order(&format!("O{}", i), temp, 50), i * 100_000);
    }
    for i in 0..20u64 {
        k.pickup_order(&format!("O{}", i), 3 * SEC);
    }
    let log = k.get_actions();
    for i in 0..20u64 {
        let id = format!("O{}", i);
        let terminals = log
            .iter()
            .filter(|a| {
                a.id == id && (a.action == ActionKind::Pickup || a.action == ActionKind::Discard)
            })
            .count();
        assert_eq!(terminals, 1);
        let places = log.iter().filter(|a| a.id == id && a.action == ActionKind::Place).count();
        assert_eq!(places, 1);
    }
}

#[test]
fn move_preserves_placed_at_for_freshness() {
    let mut k = Kitchen::new();
    // fill the cooler, then the shelf, so placing one more cold order moves
    // the cooler's front occupant C1 to the shelf
    for i in 1..=6u64 {
        k.place_order(order(&format!("C{}", i), Temp::Cold, 10), 0);
    }
    for i in 1..=12u64 {
        k.place_order(order(&format!("R{}", i), Temp::Room, 100), 0);
    }
    k.place_order(order("C7", Temp::Cold, 100), 0);
    // C1 sat since t=0; on the shelf it degrades at rate 2. At t=6s its
    // remaining freshness is 10 - 2*6 < 0, so the pickup surfaces a discard.
    k.pickup_order("C1", 6 * SEC);
    let log = k.get_actions();
    let last = log.last().unwrap();
    assert_eq!(last.id, "C1");
    assert_eq!(last.action, ActionKind::Discard);
    assert_eq!(last.target, Location::Shelf);
}

#[test]
fn remaining_freshness_exact_values() {
    let ideal = StoredOrder {
        order: Order {
            id: "A".to_string(),
            name: "a".to_string(),
            temp: Temp::Cold,
            price: 0,
            freshness: 10,
        },
        placed_at: 0,
        current_temp: Location::Cooler,
    };
    assert_eq!(ideal.remaining_freshness(3 * SEC), 7);
    let shelved = StoredOrder {
        order: Order {
            id: "B".to_string(),
            name: "b".to_string(),
            temp: Temp::Cold,
            price: 0,
            freshness: 10,
        },
        placed_at: 0,
        current_temp: Location::Shelf,
    };
    assert_eq!(shelved.remaining_freshness(3 * SEC), 4);
    // a clock reading before placement counts as zero elapsed time
    assert_eq!(shelved.remaining_freshness(0), 10);
    assert!(!shelved.is_expired(4 * SEC));
    assert!(shelved.is_expired(5 * SEC));
}

#[test]
fn eviction_picks_earliest_expiration_across_rates() {
    let mut k = Kitchen::new();
    // "slow" is room-temperature on the shelf: rate 1, expires at 20s.
    // "fast" is hot but lands on the shelf after the heater is full: rate 2,
    // expires at 15s despite its larger budget.
    for i in 1..=6u64 {
        k.place_order(order(&format!("H{}", i), Temp::Hot, 100), 0);
    }
    k.place_order(order("slow", Temp::Room, 20), 0);
    k.place_order(order("fast", Temp::Hot, 30), 0);
    for i in 1..=10u64 {
        k.place_order(order(&format!("R{}", i), Temp::Room, 100), 0);
    }
    // shelf now full; one more room order evicts the earliest-expiring: fast
    k.place_order(order("straw", Temp::Room, 100), 0);
    let log = k.get_actions();
    let n = log.len();
    assert_eq!(log[n - 2].id, "fast");
    assert_eq!(log[n - 2].action, ActionKind::Discard);
    assert_eq!(log[n - 2].target, Location::Shelf);
    assert_eq!(log[n - 1].id, "straw");
    assert_eq!(log[n - 1].action, ActionKind::Place);
}

#[test]
fn pickup_searches_cooler_then_heater_then_shelf() {
    let mut k = Kitchen::new();
    k.place_order(order("cold1", Temp::Cold, 100), 0);
    k.place_order(order("hot1", Temp::Hot, 100), 0);
    k.place_order(order("room1", Temp::Room, 100), 0);
    k.pickup_order("hot1", SEC);
    k.pickup_order("room1", 2 * SEC);
    k.pickup_order("cold1", 3 * SEC);
    let log = k.get_actions();
    assert_eq!(log[3].target, Location::Heater);
    assert_eq!(log[4].target, Location::Shelf);
    assert_eq!(log[5].target, Location::Cooler);
    assert!(log[3..].iter().all(|a| a.action == ActionKind::Pickup));
    assert_eq!(k.cooler.len(), 0);
    assert_eq!(k.heater.len(), 0);
    assert_eq!(k.shelf.len(), 0);
}

#[test]
fn freshness_boundary_zero_is_expired() {
    let mut k = Kitchen::new();
    k.place_order(order("Z", Temp::Hot, 3), 0);
    // at exactly 3s the remaining freshness is 3 - 1*3 = 0, which counts as expired
    k.pickup_order("Z", 3 * SEC);
    let log = k.get_actions();
    assert_eq!(log.last().unwrap().action, ActionKind::Discard);
    assert_eq!(log.last().unwrap().target, Location::Heater);
}

#[test]
fn eviction_tie_breaks_to_earliest_placed() {
    let mut k = Kitchen::new();
    for i in 1..=12u64 {
        // every shelf occupant shares one projected expiration
        k.place_order(order(&format!("R{}", i), Temp::Room, 50), 0);
    }
    k.place_order(order("extra", Temp::Room, 50), 0);
    let log = k.get_actions();
    let n = log.len();
    assert_eq!(log[n - 2].id, "R1");
    assert_eq!(log[n - 2].action, ActionKind::Discard);
    assert_eq!(log[n - 1].id, "extra");
}
