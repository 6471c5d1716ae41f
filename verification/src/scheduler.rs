//! The three lanes and the fixed rotation in which they are served.

use vstd::prelude::*;
use crate::text::{lowercase, to_lowercase};

verus! {

/// A priority class.
#[derive(Debug, Clone, Copy, PartialEq, Eq, Structural)]
pub enum Lane {
    Gold,
    Silver,
    Bronze,
}

/// How many work items a lane's queue holds at most.
pub const LANE_CAPACITY: usize = 256;

/// How long the dispatcher rests when the lane that it serves gave it
/// nothing, in milliseconds.
pub const IDLE_SLEEP_MS: u64 = 5;

/// The number of slots of the rotation.
pub const SLOTS: u8 = 9;

/// The lane of a class of service that is written in lowercase already.
pub open spec fn lane_of(qos: Seq<char>) -> Lane {
    if qos == "gold"@ {
        Lane::Gold
    } else if qos == "silver"@ {
        Lane::Silver
    } else {
        Lane::Bronze
    }
}

/// The lane of a class of service in lowercase: `gold` and `silver` have
/// their own, everything else is bronze.
pub fn lane_of_lowercase(qos: &String) -> (r: Lane)
    ensures
        r == lane_of(qos@),
{
    let gold = String::from_str("gold");
    let silver = String::from_str("silver");
    if *qos == gold {
        Lane::Gold
    } else if *qos == silver {
        Lane::Silver
    } else {
        Lane::Bronze
    }
}

/// The lane of a class of service, whatever its case.
pub fn lane_from_qos(q: &str) -> (r: Lane)
    ensures
        r == lane_of(lowercase(q@)),
{
    let lower = to_lowercase(q);
    lane_of_lowercase(&lower)
}

/// The lane that is served at a slot: five times gold, three times silver,
/// once bronze.
pub open spec fn lane_at(slot: int) -> Lane {
    if slot < 5 {
        Lane::Gold
    } else if slot < 8 {
        Lane::Silver
    } else {
        Lane::Bronze
    }
}

/// The lane that is served at a tick, counted from the start of a rotation.
pub open spec fn lane_at_tick(tick: int) -> Lane {
    lane_at(tick % 9)
}

/// How often `lane` is served in `ticks` ticks from tick `from` on.
pub open spec fn served(from: int, ticks: nat, lane: Lane) -> nat
    decreases ticks,
{
    if ticks == 0 {
        0
    } else {
        served(from, (ticks - 1) as nat, lane) + if lane_at_tick(from + ticks - 1) == lane {
            1nat
        } else {
            0nat
        }
    }
}

/// The position in the rotation. Every tick serves the lane of the slot and
/// moves on, whether or not the lane has work.
#[derive(Debug)]
pub struct Rotation {
    slot: u8,
}

impl View for Rotation {
    type V = int;

    closed spec fn view(&self) -> int {
        self.slot as int
    }
}

impl Rotation {
    #[verifier::type_invariant]
    spec fn in_cycle(self) -> bool {
        self.slot < 9
    }

    /// The rotation at its start.
    pub fn new() -> (r: Rotation)
        ensures
            r@ == 0,
    {
        Rotation { slot: 0 }
    }

    /// The slot at which the rotation stands.
    pub fn slot(&self) -> (r: u8)
        ensures
            r == self@,
            r < 9,
    {
        proof {
            use_type_invariant(self);
        }
        self.slot
    }

    /// The lane to serve now; the rotation moves to the next slot.
    pub fn next_lane(&mut self) -> (r: Lane)
        ensures
            0 <= old(self)@ < 9,
            r == lane_at(old(self)@),
            final(self)@ == (old(self)@ + 1) % 9,
    {
        proof {
            use_type_invariant(&*self);
        }
        let slot = self.slot;
        let lane = if slot < 5 {
            Lane::Gold
        } else if slot < 8 {
            Lane::Silver
        } else {
            Lane::Bronze
        };
        self.slot = if slot == 8 {
            0
        } else {
            slot + 1
        };
        lane
    }
}

impl Default for Rotation {
    fn default() -> (r: Rotation)
        ensures
            r@ == 0,
    {
        Rotation::new()
    }
}

/// Counting over a stretch of ticks is counting over its two parts.
pub proof fn lemma_served_split(from: int, a: nat, b: nat, lane: Lane)
    ensures
        served(from, a + b, lane) == served(from, a, lane) + served(from + a, b, lane),
    decreases b,
{
    if b > 0 {
        lemma_served_split(from, a, (b - 1) as nat, lane);
        assert(a + b - 1 == a + (b - 1) as nat);
    }
}

/// One if `lane` is served at the tick, else nothing.
pub open spec fn hit(tick: int, lane: Lane) -> nat {
    if lane_at_tick(tick) == lane {
        1
    } else {
        0
    }
}

proof fn lemma_nine_ticks(from: int, lane: Lane)
    ensures
        served(from, 9, lane) == hit(from, lane) + hit(from + 1, lane) + hit(from + 2, lane) + hit(
            from + 3,
            lane,
        ) + hit(from + 4, lane) + hit(from + 5, lane) + hit(from + 6, lane) + hit(from + 7, lane)
            + hit(from + 8, lane),
{
    assert(served(from, 0, lane) == 0);
    assert(served(from, 1, lane) == served(from, 0, lane) + hit(from, lane));
    assert(served(from, 2, lane) == served(from, 1, lane) + hit(from + 1, lane));
    assert(served(from, 3, lane) == served(from, 2, lane) + hit(from + 2, lane));
    assert(served(from, 4, lane) == served(from, 3, lane) + hit(from + 3, lane));
    assert(served(from, 5, lane) == served(from, 4, lane) + hit(from + 4, lane));
    assert(served(from, 6, lane) == served(from, 5, lane) + hit(from + 5, lane));
    assert(served(from, 7, lane) == served(from, 6, lane) + hit(from + 6, lane));
    assert(served(from, 8, lane) == served(from, 7, lane) + hit(from + 7, lane));
    assert(served(from, 9, lane) == served(from, 8, lane) + hit(from + 8, lane));
}

/// The slots of nine ticks in a row are the nine slots, each once, from the
/// slot of the first tick on.
proof fn lemma_slots(from: int, k: int)
    requires
        0 <= from,
        0 <= k < 9,
    ensures
        (from + k) % 9 == if from % 9 + k < 9 {
            from % 9 + k
        } else {
            from % 9 + k - 9
        },
{
}

/// Any nine ticks in a row serve gold five times, silver three times and
/// bronze once.
pub proof fn lemma_one_rotation(from: int)
    requires
        0 <= from,
    ensures
        served(from, 9, Lane::Gold) == 5,
        served(from, 9, Lane::Silver) == 3,
        served(from, 9, Lane::Bronze) == 1,
{
    lemma_nine_ticks(from, Lane::Gold);
    lemma_nine_ticks(from, Lane::Silver);
    lemma_nine_ticks(from, Lane::Bronze);
    lemma_slots(from, 0);
    lemma_slots(from, 1);
    lemma_slots(from, 2);
    lemma_slots(from, 3);
    lemma_slots(from, 4);
    lemma_slots(from, 5);
    lemma_slots(from, 6);
    lemma_slots(from, 7);
    lemma_slots(from, 8);
}

/// Any stretch of whole rotations serves the lanes in the ratio five to three
/// to one.
pub proof fn lemma_service_ratio(from: int, rounds: nat)
    requires
        0 <= from,
    ensures
        served(from, 9 * rounds, Lane::Gold) == 5 * rounds,
        served(from, 9 * rounds, Lane::Silver) == 3 * rounds,
        served(from, 9 * rounds, Lane::Bronze) == 1 * rounds,
    decreases rounds,
{
    if rounds > 0 {
        let before = (rounds - 1) as nat;
        lemma_service_ratio(from, before);
        lemma_one_rotation(from + 9 * before);
        lemma_served_split(from, 9 * before, 9, Lane::Gold);
        lemma_served_split(from, 9 * before, 9, Lane::Silver);
        lemma_served_split(from, 9 * before, 9, Lane::Bronze);
        assert(9 * before + 9 == 9 * rounds);
    }
}

} // verus!
