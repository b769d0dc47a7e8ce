use vstd::prelude::*;

use vstd::arithmetic::div_mod::lemma_div_basics;
use vstd::arithmetic::div_mod::lemma_div_is_ordered;
use vstd::arithmetic::div_mod::lemma_fundamental_div_mod;
use vstd::arithmetic::mul::lemma_mul_inequality;

use crate::config::get_stats;
use crate::config::spec_stats;
use crate::cost::sat_add64;
use crate::cost::sat_sub64;
use crate::data::GameData;
use crate::data::LedgerView;
use crate::data::ledger_wf;
use crate::data::spec_add_income;
use crate::variant::AutomatonVariant;

verus! {

/// Travel time of a feedback orb from its anchor to the origin, in
/// milliseconds.
pub const ORB_TRAVEL_MS: u64 = 500;

/// Size of the feedback orb pool.
pub const ORB_POOL_SIZE: usize = 50;

/// A point of the scene, in thousandths of a world unit per axis. The core
/// never computes with coordinates; it carries them from the unit that
/// fired to the orb that animates.
#[derive(Clone, Copy, Debug, PartialEq, Eq, Structural)]
pub struct Pos3 {
    pub x: i64,
    pub y: i64,
    pub z: i64,
}

/// One owned production unit: its variant, its per-tick yield and cooldown
/// as drawn from the catalog, the milliseconds left until its next
/// production tick, and its current place in the scene.
#[derive(Clone, Copy, Debug, PartialEq, Eq, Structural)]
pub struct Automaton {
    pub source: AutomatonVariant,
    pub currency_per_tick: u64,
    pub cooldown: u64,
    pub time_left: u64,
    pub position: Pos3,
}

/// One reusable visual feedback token: claimed by at most one production
/// tick at a time, it travels from `start` to the origin over
/// `ORB_TRAVEL_MS` and then returns to the pool.
#[derive(Clone, Copy, Debug, PartialEq, Eq, Structural)]
pub struct AutomatonOrb {
    pub start: Pos3,
    pub progress: u64,
    pub active: bool,
}

impl Default for AutomatonOrb {
    /// An orb at rest in the pool.
    fn default() -> (orb: Self)
        ensures
            orb == (AutomatonOrb {
                start: Pos3 { x: 0, y: 0, z: 0 },
                progress: ORB_TRAVEL_MS,
                active: false,
            }),
    {
        AutomatonOrb { start: Pos3 { x: 0, y: 0, z: 0 }, progress: ORB_TRAVEL_MS, active: false }
    }
}

impl AutomatonOrb {
    /// An orb freshly claimed at `start`.
    pub fn new(start: Pos3) -> (orb: Self)
        ensures
            orb == claimed_orb(start),
    {
        AutomatonOrb { start, progress: 0, active: true }
    }

    /// Advance the orb's flight clock.
    pub fn update(&mut self, time: u64)
        ensures
            final(self).progress == sat_add64(old(self).progress, time),
            final(self).start == old(self).start,
            final(self).active == old(self).active,
    {
        self.progress = self.progress.saturating_add(time);
    }
}

/// A unit fires exactly when its countdown has expired.
pub open spec fn unit_fires(unit: Automaton) -> bool {
    unit.time_left == 0
}

/// Countdown value after one simulation step of `dt` milliseconds: an
/// expired countdown rewinds to the full cooldown (the step in which the
/// unit fires), any other counts down, stopping at zero. A unit therefore
/// fires at most once per step, however large `dt` is.
pub open spec fn next_time_left(time_left: u64, cooldown: u64, dt: u64) -> u64 {
    if time_left == 0 {
        cooldown
    } else {
        sat_sub64(time_left, dt)
    }
}

/// One simulation step of a single unit.
pub open spec fn step_unit(unit: Automaton, dt: u64) -> Automaton {
    Automaton { time_left: next_time_left(unit.time_left, unit.cooldown, dt), ..unit }
}

/// The orb state a claim produces.
pub open spec fn claimed_orb(at: Pos3) -> AutomatonOrb {
    AutomatonOrb { start: at, progress: 0, active: true }
}

/// Index of the first orb at rest, or the pool size if all are in flight.
pub open spec fn first_free(orbs: Seq<AutomatonOrb>) -> int
    decreases orbs.len(),
{
    if orbs.len() == 0 {
        0
    } else if !orbs[0].active {
        0
    } else {
        1 + first_free(orbs.drop_first())
    }
}

/// The pool after a claim at `at`: the first orb at rest is restarted
/// there; if every orb is in flight the claim is dropped and the pool is
/// untouched.
pub open spec fn spec_claim(orbs: Seq<AutomatonOrb>, at: Pos3) -> Seq<AutomatonOrb> {
    if first_free(orbs) < orbs.len() {
        orbs.update(first_free(orbs), claimed_orb(at))
    } else {
        orbs
    }
}

/// One animation step of a single orb: an orb in flight advances its
/// clock and lands — returning to the pool — once it has flown for the
/// full travel time; an orb at rest is untouched.
pub open spec fn advance_orb(orb: AutomatonOrb, dt: u64) -> AutomatonOrb {
    if orb.active {
        let progress = sat_add64(orb.progress, dt);
        AutomatonOrb { start: orb.start, progress, active: progress < ORB_TRAVEL_MS }
    } else {
        orb
    }
}

proof fn lemma_first_free_props(orbs: Seq<AutomatonOrb>)
    ensures
        0 <= first_free(orbs) <= orbs.len(),
        forall|j: int| 0 <= j < first_free(orbs) ==> orbs[j].active,
        first_free(orbs) < orbs.len() ==> !orbs[first_free(orbs)].active,
    decreases orbs.len(),
{
    if orbs.len() > 0 && orbs[0].active {
        lemma_first_free_props(orbs.drop_first());
        assert forall|j: int| 0 <= j < first_free(orbs) implies orbs[j].active by {
            if j > 0 {
                assert(orbs.drop_first()[j - 1].active);
            }
        }
    }
}

/// Claim the first orb at rest and restart it at `at`; return its index,
/// or nothing — leaving every orb in flight untouched — when the pool is
/// exhausted.
pub fn claim_orb(orbs: &mut Vec<AutomatonOrb>, at: Pos3) -> (claimed: Option<usize>)
    ensures
        final(orbs)@ == spec_claim(old(orbs)@, at),
        match claimed {
            Some(index) => index == first_free(old(orbs)@) && index < old(orbs)@.len(),
            None => first_free(old(orbs)@) == old(orbs)@.len(),
        },
{
    let count = orbs.len();
    let mut index: usize = 0;
    while index < count
        invariant
            index <= count,
            count == orbs@.len(),
            orbs@ == old(orbs)@,
            forall|j: int| 0 <= j < index ==> orbs@[j].active,
        decreases count - index,
    {
        if !orbs[index].active {
            proof {
                lemma_first_free_props(orbs@);
            }
            orbs[index] = AutomatonOrb { start: at, progress: 0, active: true };
            return Some(index);
        }
        index = index + 1;
    }
    proof {
        lemma_first_free_props(orbs@);
    }
    None
}

/// The population, the ledger, and the orb pool part-way through the
/// production phase of one simulation step.
pub struct TickState {
    pub units: Seq<Automaton>,
    pub ledger: LedgerView,
    pub orbs: Seq<AutomatonOrb>,
}

/// The production phase of one simulation step, restricted to the first
/// `steps` units: each unit in turn counts down or fires, and each firing
/// unit credits its yield to the ledger and claims one feedback orb at its
/// own position, best-effort.
pub open spec fn tick_prefix(
    units0: Seq<Automaton>,
    led0: LedgerView,
    orbs0: Seq<AutomatonOrb>,
    dt: u64,
    steps: nat,
) -> TickState
    decreases steps,
{
    if steps == 0 {
        TickState { units: units0, ledger: led0, orbs: orbs0 }
    } else {
        let prev = tick_prefix(units0, led0, orbs0, dt, (steps - 1) as nat);
        let unit = units0[steps - 1];
        if unit_fires(unit) {
            TickState {
                units: prev.units.update(steps - 1, step_unit(unit, dt)),
                ledger: spec_add_income(prev.ledger, unit.source, unit.currency_per_tick),
                orbs: spec_claim(prev.orbs, unit.position),
            }
        } else {
            TickState {
                units: prev.units.update(steps - 1, step_unit(unit, dt)),
                ledger: prev.ledger,
                orbs: prev.orbs,
            }
        }
    }
}

/// One whole simulation step: the production phase over every unit, then
/// one animation step of every orb.
pub open spec fn spec_tick(
    units0: Seq<Automaton>,
    led0: LedgerView,
    orbs0: Seq<AutomatonOrb>,
    dt: u64,
) -> TickState {
    let fired = tick_prefix(units0, led0, orbs0, dt, units0.len());
    TickState {
        units: fired.units,
        ledger: fired.ledger,
        orbs: Seq::new(fired.orbs.len(), |j: int| advance_orb(fired.orbs[j], dt)),
    }
}

proof fn lemma_tick_prefix_frame(
    units0: Seq<Automaton>,
    led0: LedgerView,
    orbs0: Seq<AutomatonOrb>,
    dt: u64,
    steps: nat,
)
    requires
        steps <= units0.len(),
        ledger_wf(led0),
    ensures
        tick_prefix(units0, led0, orbs0, dt, steps).units.len() == units0.len(),
        forall|j: int|
            steps <= j < units0.len() ==> tick_prefix(units0, led0, orbs0, dt, steps).units[j]
                == units0[j],
        tick_prefix(units0, led0, orbs0, dt, steps).orbs.len() == orbs0.len(),
        tick_prefix(units0, led0, orbs0, dt, steps).ledger.owned == led0.owned,
        ledger_wf(tick_prefix(units0, led0, orbs0, dt, steps).ledger),
    decreases steps,
{
    if steps > 0 {
        lemma_tick_prefix_frame(units0, led0, orbs0, dt, (steps - 1) as nat);
        let prev = tick_prefix(units0, led0, orbs0, dt, (steps - 1) as nat);
        let cur = tick_prefix(units0, led0, orbs0, dt, steps);
        lemma_first_free_props(prev.orbs);
        assert forall|j: int| steps <= j < units0.len() implies cur.units[j] == units0[j] by {
            assert(prev.units[j] == units0[j]);
        }
    }
}

/// One whole simulation step over the live population: every unit counts
/// down or fires; each firing unit credits `currency_per_tick` of income
/// from its variant to the ledger and claims one feedback orb anchored at
/// its own position (skipped silently if the pool is exhausted — the
/// income is credited regardless); finally every orb in flight advances.
pub fn update_automatons(
    automatons: &mut Vec<Automaton>,
    orbs: &mut Vec<AutomatonOrb>,
    data: &mut GameData,
    dt: u64,
)
    requires
        old(data).well_formed(),
    ensures
        final(data).well_formed(),
        final(automatons)@ == spec_tick(old(automatons)@, old(data)@, old(orbs)@, dt).units,
        final(data)@ == spec_tick(old(automatons)@, old(data)@, old(orbs)@, dt).ledger,
        final(orbs)@ == spec_tick(old(automatons)@, old(data)@, old(orbs)@, dt).orbs,
{
    let ghost units0 = automatons@;
    let ghost led0 = data@;
    let ghost orbs0 = orbs@;
    let count = automatons.len();
    let mut index: usize = 0;
    while index < count
        invariant
            index <= count,
            count == units0.len(),
            ledger_wf(led0),
            data.well_formed(),
            automatons@ == tick_prefix(units0, led0, orbs0, dt, index as nat).units,
            data@ == tick_prefix(units0, led0, orbs0, dt, index as nat).ledger,
            orbs@ == tick_prefix(units0, led0, orbs0, dt, index as nat).orbs,
        decreases count - index,
    {
        proof {
            lemma_tick_prefix_frame(units0, led0, orbs0, dt, index as nat);
        }
        let unit = automatons[index];
        assert(unit == units0[index as int]);
        if unit.time_left == 0 {
            data.add_income(unit.source, unit.currency_per_tick);
            claim_orb(orbs, unit.position);
            let mut updated = unit;
            updated.time_left = unit.cooldown;
            automatons[index] = updated;
        } else {
            let mut updated = unit;
            updated.time_left = unit.time_left.saturating_sub(dt);
            automatons[index] = updated;
        }
        index = index + 1;
    }
    let ghost orbs_mid = orbs@;
    let orb_count = orbs.len();
    let mut orb_index: usize = 0;
    while orb_index < orb_count
        invariant
            orb_index <= orb_count,
            orb_count == orbs_mid.len(),
            orbs@.len() == orbs_mid.len(),
            forall|k: int| 0 <= k < orb_index ==> orbs@[k] == advance_orb(orbs_mid[k], dt),
            forall|k: int| orb_index <= k < orb_count ==> orbs@[k] == orbs_mid[k],
        decreases orb_count - orb_index,
    {
        let orb = orbs[orb_index];
        if orb.active {
            let mut advanced = orb;
            advanced.update(dt);
            if advanced.progress >= ORB_TRAVEL_MS {
                advanced.active = false;
            }
            orbs[orb_index] = advanced;
        }
        orb_index = orb_index + 1;
    }
    proof {
        assert(orbs@ =~= Seq::new(orbs_mid.len(), |j: int| advance_orb(orbs_mid[j], dt)));
    }
}

/// Countdown value of one unit after `steps` simulation steps.
pub open spec fn time_left_after(time_left: u64, cooldown: u64, dt: u64, steps: nat) -> u64
    decreases steps,
{
    if steps == 0 {
        time_left
    } else {
        time_left_after(next_time_left(time_left, cooldown, dt), cooldown, dt, (steps - 1) as nat)
    }
}

/// How often one unit fires over `steps` simulation steps.
pub open spec fn fires_within(time_left: u64, cooldown: u64, dt: u64, steps: nat) -> nat
    decreases steps,
{
    if steps == 0 {
        0
    } else {
        (if time_left == 0 {
            1nat
        } else {
            0nat
        }) + fires_within(next_time_left(time_left, cooldown, dt), cooldown, dt, (steps - 1) as nat)
    }
}

/// A unit never fires twice in a single step, however large the step is.
pub proof fn lemma_no_double_fire(time_left: u64, cooldown: u64, dt: u64)
    ensures
        fires_within(time_left, cooldown, dt, 1) <= 1,
{
    assert(fires_within(next_time_left(time_left, cooldown, dt), cooldown, dt, 0) == 0);
}

proof fn lemma_countdown(cooldown: u64, dt: u64, laps: nat)
    requires
        dt > 0,
        laps * dt <= u64::MAX,
    ensures
        time_left_after((laps * dt) as u64, cooldown, dt, laps) == 0,
        fires_within((laps * dt) as u64, cooldown, dt, laps) == 0,
    decreases laps,
{
    if laps > 0 {
        lemma_mul_inequality(1, laps as int, dt as int);
        assert((laps * dt) as u64 > 0);
        assert(laps * dt - dt == (laps - 1) * dt) by (nonlinear_arith);
        assert(sat_sub64((laps * dt) as u64, dt) == ((laps - 1) * dt) as u64);
        lemma_countdown(cooldown, dt, (laps - 1) as nat);
    } else {
        assert(laps * dt == 0) by (nonlinear_arith)
            requires
                laps == 0,
        ;
    }
}

proof fn lemma_one_period(cooldown: u64, dt: u64, laps: nat)
    requires
        dt > 0,
        laps >= 1,
        cooldown == laps * dt,
    ensures
        time_left_after(0, cooldown, dt, laps + 1) == 0,
        fires_within(0, cooldown, dt, laps + 1) == 1,
{
    lemma_countdown(cooldown, dt, laps);
}

proof fn lemma_run_split(time_left: u64, cooldown: u64, dt: u64, first: nat, second: nat)
    ensures
        time_left_after(time_left, cooldown, dt, first + second) == time_left_after(
            time_left_after(time_left, cooldown, dt, first),
            cooldown,
            dt,
            second,
        ),
        fires_within(time_left, cooldown, dt, first + second) == fires_within(
            time_left,
            cooldown,
            dt,
            first,
        ) + fires_within(time_left_after(time_left, cooldown, dt, first), cooldown, dt, second),
    decreases first,
{
    if first > 0 {
        lemma_run_split(
            next_time_left(time_left, cooldown, dt),
            cooldown,
            dt,
            (first - 1) as nat,
            second,
        );
    }
}

/// Production rate law: a unit whose countdown starts expired fires exactly
/// once per simulated cooldown duration, for any step size that evenly
/// divides the cooldown. One cooldown duration is simulated by the firing
/// step followed by `cooldown / dt` countdown steps; over `periods` such
/// rounds the unit fires exactly `periods` times — sub-stepping neither
/// double-fires nor under-fires — and its countdown ends expired again.
pub proof fn lemma_fire_rate(cooldown: u64, dt: u64, periods: nat)
    requires
        0 < dt <= cooldown,
        cooldown % dt == 0,
    ensures
        fires_within(0, cooldown, dt, periods * ((cooldown / dt) as nat + 1)) == periods,
        time_left_after(0, cooldown, dt, periods * ((cooldown / dt) as nat + 1)) == 0,
    decreases periods,
{
    let laps = (cooldown / dt) as nat;
    lemma_fundamental_div_mod(cooldown as int, dt as int);
    lemma_div_is_ordered(dt as int, cooldown as int, dt as int);
    lemma_div_basics(dt as int);
    assert(cooldown == laps * dt) by (nonlinear_arith)
        requires
            cooldown as int == dt as int * ((cooldown as int) / (dt as int)) + cooldown as int
                % dt as int,
            cooldown % dt == 0,
            laps == cooldown / dt,
    ;
    if periods > 0 {
        lemma_fire_rate(cooldown, dt, (periods - 1) as nat);
        lemma_one_period(cooldown, dt, laps);
        assert((periods - 1) * (laps + 1) >= 0) by (nonlinear_arith)
            requires
                periods >= 1,
                laps >= 0,
        ;
        lemma_run_split(0, cooldown, dt, ((periods - 1) * (laps + 1)) as nat, laps + 1);
        assert(periods * (laps + 1) == (periods - 1) * (laps + 1) + (laps + 1)) by (nonlinear_arith);
    } else {
        assert(periods * (laps + 1) == 0) by (nonlinear_arith)
            requires
                periods == 0,
        ;
    }
}

/// Relies on `rand::random_range` over the range `0..cooldown`: the result
/// is drawn uniformly from that half-open range, so it is strictly below
/// `cooldown`; the range is non-empty by the precondition, so the call
/// cannot panic.
#[verifier::external_body]
fn random_time_left(cooldown: u64) -> (time_left: u64)
    requires
        cooldown > 0,
    ensures
        time_left < cooldown,
{
    rand::random_range(0..cooldown)
}

/// A production unit fresh from a purchase or a restore, with the catalog
/// statistics of its variant and a randomized initial countdown in
/// `[0, cooldown)` so that restored populations do not tick in unison.
pub fn fresh_unit(source: AutomatonVariant, position: Pos3) -> (unit: Automaton)
    ensures
        unit.source == source,
        unit.cooldown == spec_stats(source).cooldown,
        unit.currency_per_tick == spec_stats(source).currency_per_tick,
        unit.position == position,
        unit.time_left < unit.cooldown,
{
    let stats = get_stats(source);
    proof {
        crate::config::lemma_catalog_well_formed(source);
    }
    Automaton {
        source,
        currency_per_tick: stats.currency_per_tick,
        cooldown: stats.cooldown,
        time_left: random_time_left(stats.cooldown),
        position,
    }
}

/// How far along its straight flight from `start` to the origin an orb
/// is, in thousandths of the whole distance: the flight interpolates
/// linearly over the fixed travel duration, and an orb that has flown the
/// full duration has arrived.
pub fn travel_fraction_milli(orb: &AutomatonOrb) -> (fraction: u64)
    ensures
        fraction == if orb.progress >= ORB_TRAVEL_MS {
            1000int
        } else {
            orb.progress * 1000 / ORB_TRAVEL_MS as int
        },
        fraction <= 1000,
{
    if orb.progress >= ORB_TRAVEL_MS {
        1000
    } else {
        orb.progress * 1000 / ORB_TRAVEL_MS
    }
}

/// A full pool of orbs at rest.
pub fn orb_pool() -> (orbs: Vec<AutomatonOrb>)
    ensures
        orbs@.len() == ORB_POOL_SIZE,
        forall|j: int| 0 <= j < ORB_POOL_SIZE ==> !orbs@[j].active,
{
    let mut orbs: Vec<AutomatonOrb> = Vec::new();
    let mut filled: usize = 0;
    while filled < ORB_POOL_SIZE
        invariant
            filled <= ORB_POOL_SIZE,
            orbs@.len() == filled,
            forall|j: int| 0 <= j < filled ==> !orbs@[j].active,
        decreases ORB_POOL_SIZE - filled,
    {
        orbs.push(AutomatonOrb::default());
        filled = filled + 1;
    }
    orbs
}

} // verus!
