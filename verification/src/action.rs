use vstd::prelude::*;

use crate::order::Location;

verus! {

/// The four kinds of transition the kitchen records.
#[derive(Clone, Copy, PartialEq, Eq, Structural, Debug)]
pub enum ActionKind {
    Place,
    Move,
    Pickup,
    Discard,
}

/// One entry of the action log: what happened to which order, where, and when
/// (microseconds since the epoch, strictly increasing across the log).
#[derive(Debug, PartialEq, Eq)]
pub struct Action {
    pub timestamp: u64,
    pub id: String,
    pub action: ActionKind,
    pub target: Location,
}

impl Clone for Action {
    fn clone(&self) -> (res: Self)
        ensures
            res == *self,
    {
        Action {
            timestamp: self.timestamp,
            id: self.id.clone(),
            action: self.action,
            target: self.target,
        }
    }
}

impl Action {
    /// Whether this action has exactly the given timestamp, order id, kind
    /// and target.
    pub open spec fn is_act(self, ts: int, id: Seq<char>, kind: ActionKind, target: Location) -> bool {
        self.timestamp == ts && self.id@ == id && self.action == kind && self.target == target
    }

    /// A terminal action removes its order from the kitchen for good.
    pub open spec fn terminal(self) -> bool {
        self.action == ActionKind::Pickup || self.action == ActionKind::Discard
    }

    pub fn new(id: &str, action_type: ActionKind, target: Location, timestamp: u64) -> (a: Action)
        ensures
            a.is_act(timestamp as int, id@, action_type, target),
    {
        Action { timestamp, id: id.to_owned(), action: action_type, target }
    }
}

} // verus!
