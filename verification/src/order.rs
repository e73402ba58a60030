use vstd::prelude::*;

verus! {

/// Temperature class: an order's ideal class, or a storage's ambient class.
#[derive(Clone, Copy, PartialEq, Eq, Structural, Debug)]
pub enum Temp {
    Hot,
    Cold,
    Room,
}

/// One of the kitchen's three storage locations.
#[derive(Clone, Copy, PartialEq, Eq, Structural, Debug)]
pub enum Location {
    Cooler,
    Heater,
    Shelf,
}

/// Latest wall-clock instant (microseconds since the epoch) the kitchen accepts.
/// Keeps every timestamp and projected expiration within `u64`.
pub const MAX_TIMESTAMP_MICROS: u64 = 4_000_000_000_000_000_000;

/// Largest freshness budget (seconds) an order may carry; a machine limit so
/// that projected expirations fit in `u64`.
pub const MAX_FRESHNESS_SECS: u64 = 1_000_000_000_000;

/// Freshness units consumed per second when an order sits at its ideal ambient.
pub const DEGRADATION_RATE_IDEAL: i64 = 1;

/// Freshness units consumed per second at any other ambient.
pub const DEGRADATION_RATE_NON_IDEAL: i64 = 2;

pub const MICROS_PER_SEC: u64 = 1_000_000;

/// The ambient temperature class of a storage location.
pub open spec fn ambient(loc: Location) -> Temp {
    match loc {
        Location::Heater => Temp::Hot,
        Location::Cooler => Temp::Cold,
        Location::Shelf => Temp::Room,
    }
}

/// The storage whose ambient matches the given temperature class.
pub open spec fn ideal_location(temp: Temp) -> Location {
    match temp {
        Temp::Hot => Location::Heater,
        Temp::Cold => Location::Cooler,
        Temp::Room => Location::Shelf,
    }
}

/// Freshness units consumed per elapsed second by an order of class
/// `order_temp` stored at `loc`: 1 under the ideal ambient, 2 otherwise.
pub open spec fn degradation_rate(order_temp: Temp, loc: Location) -> int {
    if ambient(loc) == order_temp {
        DEGRADATION_RATE_IDEAL as int
    } else {
        DEGRADATION_RATE_NON_IDEAL as int
    }
}

/// An order as handed to the kitchen: immutable identity, display name,
/// ideal temperature class, price (forwarded only), and a freshness budget
/// in seconds of ideal storage.
pub struct Order {
    pub id: String,
    pub name: String,
    pub temp: Temp,
    pub price: u64,
    pub freshness: u64,
}

impl Order {
    /// A positive freshness budget, small enough for expiration arithmetic.
    pub open spec fn wf(self) -> bool {
        1 <= self.freshness <= MAX_FRESHNESS_SECS
    }
}

impl Clone for Order {
    fn clone(&self) -> (res: Self)
        ensures
            res == *self,
    {
        Order {
            id: self.id.clone(),
            name: self.name.clone(),
            temp: self.temp,
            price: self.price,
            freshness: self.freshness,
        }
    }
}

/// The in-kitchen record of an order: the order itself, the instant it first
/// entered the kitchen (never changed by later moves), and the storage
/// location it presently occupies.
pub struct StoredOrder {
    pub order: Order,
    pub placed_at: u64,
    pub current_temp: Location,
}

impl Clone for StoredOrder {
    fn clone(&self) -> (res: Self)
        ensures
            res == *self,
    {
        StoredOrder {
            order: self.order.clone(),
            placed_at: self.placed_at,
            current_temp: self.current_temp,
        }
    }
}

impl StoredOrder {
    pub open spec fn wf(self) -> bool {
        self.order.wf() && self.placed_at <= MAX_TIMESTAMP_MICROS
    }

    /// The degradation rate the order suffers in its current storage.
    pub open spec fn rate(self) -> int {
        degradation_rate(self.order.temp, self.current_temp)
    }

    /// Whole seconds elapsed since the order entered the kitchen; a clock
    /// reading earlier than `placed_at` counts as zero elapsed time.
    pub open spec fn elapsed_secs(self, now: u64) -> int {
        if now <= self.placed_at {
            0
        } else {
            (now - self.placed_at) / (MICROS_PER_SEC as int)
        }
    }

    /// Remaining freshness at `now`: the budget less rate times elapsed seconds.
    pub open spec fn remaining(self, now: u64) -> int {
        self.order.freshness - self.rate() * self.elapsed_secs(now)
    }

    /// An order is expired once its remaining freshness reaches zero.
    pub open spec fn expired(self, now: u64) -> bool {
        self.remaining(now) <= 0
    }

    /// The projected instant (microseconds since the epoch) at which the
    /// order's freshness runs out if it stays in its current storage.
    pub open spec fn expires_at(self) -> int {
        self.placed_at + self.order.freshness * (MICROS_PER_SEC as int) / self.rate()
    }

    /// The ambient temperature class of a storage location.
    pub fn get_storage_temp(storage_location: Location) -> (t: Temp)
        ensures
            t == ambient(storage_location),
    {
        match storage_location {
            Location::Heater => Temp::Hot,
            Location::Cooler => Temp::Cold,
            Location::Shelf => Temp::Room,
        }
    }

    /// Remaining freshness at `now` under the two-rate degradation model.
    pub fn remaining_freshness(&self, now: u64) -> (r: i64)
        requires
            self.wf(),
            now <= MAX_TIMESTAMP_MICROS,
        ensures
            r == self.remaining(now),
    {
        let elapsed: u64 = if now <= self.placed_at {
            0
        } else {
            (now - self.placed_at) / MICROS_PER_SEC
        };
        proof {
            if now > self.placed_at {
                vstd::arithmetic::div_mod::lemma_div_nonincreasing(
                    now - self.placed_at,
                    MICROS_PER_SEC as int,
                );
            }
            assert(elapsed <= MAX_TIMESTAMP_MICROS);
        }

        let storage_temp = Self::get_storage_temp(self.current_temp);
        let rate: i64 = if self.order.temp == storage_temp {
            DEGRADATION_RATE_IDEAL
        } else {
            DEGRADATION_RATE_NON_IDEAL
        };

        proof {
            assert((elapsed as int) * (rate as int) <= 2 * (MAX_TIMESTAMP_MICROS as int))
                by (nonlinear_arith)
                requires
                    0 <= elapsed as int <= MAX_TIMESTAMP_MICROS as int,
                    1 <= rate as int <= 2,
            ;
        }
        let degraded_freshness: i64 = (elapsed as i64) * rate;
        proof {
            assert(rate as int == self.rate());
            assert(elapsed as int == self.elapsed_secs(now));
            assert((elapsed as int) * (rate as int) == self.rate() * self.elapsed_secs(now))
                by (nonlinear_arith)
                requires
                    rate as int == self.rate(),
                    elapsed as int == self.elapsed_secs(now),
            ;
            assert(degraded_freshness as int == self.rate() * self.elapsed_secs(now));
        }
        (self.order.freshness as i64) - degraded_freshness
    }

    /// Whether the order is expired at `now`.
    pub fn is_expired(&self, now: u64) -> (b: bool)
        requires
            self.wf(),
            now <= MAX_TIMESTAMP_MICROS,
        ensures
            b == self.expired(now),
    {
        self.remaining_freshness(now) <= 0
    }
}

} // verus!
