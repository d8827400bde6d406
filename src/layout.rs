use vstd::prelude::*;

use crate::geometry::{sum_fits, Point};
use crate::graph_store::TOPOLOGY_LIMIT;

verus! {

/// An angle of `numer / denom` degrees, turning from due east toward
/// increasing y (clockwise on a screen whose y axis points down).
#[derive(Debug, Clone, Copy, PartialEq, Eq, Structural)]
pub struct Angle {
    pub numer: u64,
    pub denom: u64,
}

/// The angle of slot `i` of an orbit with `k` evenly spaced slots, the first
/// one due east: `360 * i / k` degrees.
pub open spec fn slot_angle_spec(i: nat, k: nat) -> Angle {
    Angle { numer: (360 * i) as u64, denom: k as u64 }
}

/// `b` lies `numer / denom` degrees further round than `a`, compared as exact
/// fractions.
pub open spec fn gap_is(a: Angle, b: Angle, numer: int, denom: int) -> bool {
    (b.numer * a.denom - a.numer * b.denom) * denom == numer * a.denom * b.denom
}

/// The angle of slot `i` of an orbit with `k` slots.
pub fn slot_angle(i: usize, k: usize) -> (a: Angle)
    requires
        i < k <= TOPOLOGY_LIMIT,
    ensures
        a == slot_angle_spec(i as nat, k as nat),
        a.numer == 360 * i,
        a.denom == k,
{
    Angle { numer: 360 * (i as u64), denom: k as u64 }
}

/// Consecutive slots of an orbit with `k` slots lie exactly `360 / k` degrees
/// apart, and so do the last slot and the first one, a full turn later.
pub proof fn lemma_even_spacing(i: nat, k: nat)
    requires
        i + 1 < k <= TOPOLOGY_LIMIT,
    ensures
        gap_is(slot_angle_spec(i, k), slot_angle_spec(i + 1, k), 360, k as int),
        gap_is(
            slot_angle_spec((k - 1) as nat, k),
            Angle { numer: (360 * k) as u64, denom: k as u64 },
            360,
            k as int,
        ),
{
    let a = slot_angle_spec(i, k);
    let b = slot_angle_spec(i + 1, k);
    let l = slot_angle_spec((k - 1) as nat, k);
    assert(a.numer == 360 * i && b.numer == 360 * (i + 1) && a.denom == k && b.denom == k);
    assert((b.numer * a.denom - a.numer * b.denom) * k == 360 * a.denom * b.denom)
        by (nonlinear_arith)
        requires
            a.numer == 360 * i,
            b.numer == 360 * (i + 1),
            a.denom == k,
            b.denom == k,
    ;
    assert(l.numer == 360 * (k - 1) && l.denom == k);
    assert(((360 * k) * l.denom - l.numer * k) * k == 360 * l.denom * k) by (nonlinear_arith)
        requires
            l.numer == 360 * (k - 1),
            l.denom == k,
    ;
}

/// `orbit` holds the offsets from the focus of the `k` slots of an orbit of
/// radius `r`: one per slot, slot 0 due east at distance `r`.
pub open spec fn is_orbit(orbit: Seq<Point>, k: nat, r: int) -> bool {
    &&& orbit.len() == k
    &&& k > 0 ==> orbit[0] == Point { x: r as i32, y: 0 }
}

/// Every slot of `orbit`, placed around `center`, lies in coordinate range.
pub open spec fn orbit_fits(center: Point, orbit: Seq<Point>) -> bool {
    forall|i: int| 0 <= i < orbit.len() ==> sum_fits(center, #[trigger] orbit[i])
}

} // verus!
