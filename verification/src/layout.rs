use vstd::prelude::*;

use vstd::arithmetic::div_mod::lemma_div_by_multiple;
use vstd::arithmetic::div_mod::lemma_div_is_ordered;
use vstd::arithmetic::div_mod::lemma_fundamental_div_mod;
use vstd::arithmetic::div_mod::lemma_mod_bound;
use vstd::arithmetic::div_mod::lemma_mod_multiples_vanish;
use vstd::arithmetic::mul::lemma_mul_inequality;
use vstd::arithmetic::mul::lemma_mul_upper_bound;

use crate::automatons::Automaton;
use crate::automatons::Pos3;
use crate::automatons::fresh_unit;
use crate::config::spec_stats;
use crate::variant::AutomatonVariant;

verus! {

/// One full turn, in thousandths of a radian, rounded down.
pub const TAU_MRAD: u64 = 6283;

/// The angular position of one unit on its variant's ring: the unit sits
/// at the fraction `index / count` of a full turn, facing the center.
#[derive(Clone, Copy, Debug, PartialEq, Eq, Structural)]
pub struct RingSlot {
    pub index: u64,
    pub count: u64,
}

/// The evenly spaced ring layout of a population of `count` units: unit
/// `i` — indices are stable, in purchase order — sits at the fraction
/// `i / count` of a full turn.
pub fn ring_slots(count: usize) -> (slots: Vec<RingSlot>)
    ensures
        slots@.len() == count,
        forall|i: int|
            0 <= i < count ==> slots@[i] == (RingSlot { index: i as u64, count: count as u64 }),
{
    let mut slots: Vec<RingSlot> = Vec::new();
    let mut placed: usize = 0;
    while placed < count
        invariant
            placed <= count,
            slots@.len() == placed,
            forall|i: int|
                0 <= i < placed ==> slots@[i] == (RingSlot {
                    index: i as u64,
                    count: count as u64,
                }),
        decreases count - placed,
    {
        slots.push(RingSlot { index: placed as u64, count: count as u64 });
        placed = placed + 1;
    }
    slots
}

/// Even spacing law: immediately after any population change, the set of
/// angular positions of `count` units laid out by `ring_slots` is exactly
/// the set of fractions `{ i / count : 0 <= i < count }` of a full turn —
/// every fraction occurs, and no two units share one. The layout is a full
/// recomputation from the count alone, so it cannot depend on the order in
/// which the population reached that count.
pub proof fn lemma_ring_even_spacing(slots: Seq<RingSlot>, count: int)
    requires
        0 <= count <= u64::MAX,
        slots.len() == count,
        forall|i: int|
            0 <= i < count ==> #[trigger] slots[i] == (RingSlot {
                index: i as u64,
                count: count as u64,
            }),
    ensures
        forall|i: int|
            0 <= i < count ==> (#[trigger] slots[i]).index < count && slots[i].count == count,
        forall|j: int| 0 <= j < count ==> (#[trigger] slots[j]).index == j,
        forall|a: int, b: int|
            0 <= a < count && 0 <= b < count && a != b ==> (#[trigger] slots[a]).index != (
            #[trigger] slots[b]).index,
{
}

/// Radius of a unit shortly after its most recent production tick: pulled
/// inward by the full `nudge` at the tick itself and eased back linearly
/// to the resting `distance` over `recovery` milliseconds. Purely
/// cosmetic: nothing of the production schedule depends on it.
pub fn nudged_radius(distance: u64, nudge: u64, recovery: u64, since_tick: u64) -> (radius: u64)
    requires
        nudge <= distance,
        recovery > 0,
    ensures
        since_tick < recovery ==> radius == distance - nudge * (recovery - since_tick) as int
            / recovery as int,
        since_tick >= recovery ==> radius == distance,
        since_tick == 0 ==> radius == distance - nudge,
        distance - nudge <= radius <= distance,
{
    if since_tick < recovery {
        let remaining = recovery - since_tick;
        proof {
            lemma_mul_upper_bound(nudge as int, u64::MAX as int, remaining as int, u64::MAX as int);
            lemma_mul_inequality(remaining as int, recovery as int, nudge as int);
            assert(nudge * remaining == remaining * nudge) by (nonlinear_arith);
            assert(nudge * recovery == recovery * nudge) by (nonlinear_arith);
            lemma_div_is_ordered(nudge * remaining, nudge * recovery, recovery as int);
            lemma_div_by_multiple(nudge as int, recovery as int);
            lemma_div_pos(nudge as int, remaining as int, recovery as int);
            if since_tick == 0 {
                assert(nudge as int * remaining as int / recovery as int == nudge);
            }
        }
        let offset = (nudge as u128 * remaining as u128 / recovery as u128) as u64;
        distance - offset
    } else {
        distance
    }
}

proof fn lemma_div_pos(a: int, b: int, d: int)
    requires
        0 <= a,
        0 <= b,
        0 < d,
    ensures
        a * b / d >= 0,
{
    assert(a * b >= 0) by (nonlinear_arith)
        requires
            0 <= a,
            0 <= b,
    ;
    vstd::arithmetic::div_mod::lemma_div_pos_is_pos(a * b, d);
}

/// Advance the orbital angle of a formation by `dt` milliseconds at the
/// signed rate `rate` (thousandths of a radian per second), wrapping
/// within one full turn. The slow orbital drift composes with the ring
/// position and is independent of any re-layout.
pub fn advance_rotation(angle: u64, rate: i64, dt: u64) -> (turned: u64)
    requires
        angle < TAU_MRAD,
        rate > i64::MIN,
    ensures
        turned < TAU_MRAD,
        ({
            let swept = (if rate >= 0 {
                rate as int
            } else {
                -rate as int
            }) * dt as int / 1000;
            turned == if rate >= 0 {
                (angle + swept) % (TAU_MRAD as int)
            } else {
                (angle - swept) % (TAU_MRAD as int)
            }
        }),
{
    let magnitude: u64 = if rate >= 0 {
        rate as u64
    } else {
        (-rate) as u64
    };
    proof {
        lemma_mul_upper_bound(magnitude as int, u64::MAX as int, dt as int, u64::MAX as int);
        lemma_div_pos(magnitude as int, dt as int, 1000);
    }
    let swept_wide = magnitude as u128 * dt as u128 / 1000;
    let swept_mod = (swept_wide % TAU_MRAD as u128) as u64;
    let ghost swept = magnitude as int * dt as int / 1000;
    proof {
        lemma_mod_bound(swept, TAU_MRAD as int);
        lemma_fundamental_div_mod(swept, TAU_MRAD as int);
        // swept == TAU * (swept / TAU) + swept_mod, so adding or
        // subtracting swept is adding or subtracting swept_mod, up to a
        // multiple of the turn that the final remainder discards.
        lemma_mod_multiples_vanish(
            swept / TAU_MRAD as int,
            angle + swept_mod as int,
            TAU_MRAD as int,
        );
        lemma_mod_multiples_vanish(
            -(swept / TAU_MRAD as int) + 1,
            angle - swept_mod as int,
            TAU_MRAD as int,
        );
        lemma_mod_bound(angle + swept, TAU_MRAD as int);
        lemma_mod_bound(angle - swept, TAU_MRAD as int);
    }
    if rate >= 0 {
        let turned = (angle + swept_mod) % TAU_MRAD;
        proof {
            assert(angle + swept == TAU_MRAD as int * (swept / TAU_MRAD as int) + (angle
                + swept_mod as int));
        }
        turned
    } else {
        let turned = (angle + TAU_MRAD - swept_mod) % TAU_MRAD;
        proof {
            assert(angle - swept == TAU_MRAD as int * (-(swept / TAU_MRAD as int) + 1) + (angle
                - swept_mod as int) - TAU_MRAD);
            assert(TAU_MRAD as int * (-(swept / TAU_MRAD as int) + 1) + (angle - swept_mod as int)
                - TAU_MRAD == TAU_MRAD as int * (-(swept / TAU_MRAD as int)) + (angle
                - swept_mod as int)) by (nonlinear_arith);
            lemma_mod_multiples_vanish(
                -(swept / TAU_MRAD as int),
                angle - swept_mod as int,
                TAU_MRAD as int,
            );
            lemma_mod_multiples_vanish(1, angle - swept_mod as int, TAU_MRAD as int);
            assert((angle + TAU_MRAD - swept_mod) as int == TAU_MRAD as int * 1 + (angle
                - swept_mod as int));
        }
        turned
    }
}

/// Grow one variant's formation by one unit after a successful purchase:
/// the fresh unit — with a randomized countdown — is appended at the next
/// stable index, and the whole ring is re-spaced evenly, as a full
/// re-layout: the spacing depends on the new total, so every unit moves.
/// The returned slots give the new angular position of every unit,
/// including the appended one.
pub fn grow_formation(units: &mut Vec<Automaton>, source: AutomatonVariant, position: Pos3) -> (slots: Vec<
    RingSlot,
>)
    requires
        old(units)@.len() < usize::MAX,
    ensures
        final(units)@.len() == old(units)@.len() + 1,
        forall|i: int| 0 <= i < old(units)@.len() ==> final(units)@[i] == old(units)@[i],
        ({
            let unit = final(units)@.last();
            unit.source == source && unit.cooldown == spec_stats(source).cooldown
                && unit.currency_per_tick == spec_stats(source).currency_per_tick && unit.position
                == position && unit.time_left < unit.cooldown
        }),
        slots@.len() == final(units)@.len(),
        forall|i: int|
            0 <= i < slots@.len() ==> slots@[i] == (RingSlot {
                index: i as u64,
                count: final(units)@.len() as u64,
            }),
{
    units.push(fresh_unit(source, position));
    ring_slots(units.len())
}

} // verus!
