use fever_dream::Automaton;
use fever_dream::AutomatonOrb;
use fever_dream::AutomatonVariant;
use fever_dream::GameData;
use fever_dream::Pos3;
use fever_dream::claim_orb;
use fever_dream::fresh_unit;
use fever_dream::orb_pool;
use fever_dream::update_automatons;

fn unit_at(time_left: u64, position: Pos3) -> Automaton {
    Automaton {
        source: AutomatonVariant::Hellmite,
        currency_per_tick: 1,
        cooldown: 2500,
        time_left,
        position,
    }
}

const ORIGIN: Pos3 = Pos3 { x: 0, y: 0, z: 0 };

#[test]
fn expired_unit_fires_on_its_first_step() {
    let mut units = vec![unit_at(0, ORIGIN)];
    let mut orbs = orb_pool();
    let mut data = GameData::default();
    update_automatons(&mut units, &mut orbs, &mut data, 500);
    assert_eq!(data.get_currency(), 1);
    assert_eq!(data.get_currency_by_source(AutomatonVariant::Hellmite), 1);
    assert_eq!(units[0].time_left, 2500);
}

#[test]
fn counting_unit_does_not_fire() {
    let mut units = vec![unit_at(600, ORIGIN)];
    let mut orbs = orb_pool();
    let mut data = GameData::default();
    update_automatons(&mut units, &mut orbs, &mut data, 500);
    assert_eq!(data.get_currency(), 0);
    assert_eq!(units[0].time_left, 100);
}

#[test]
fn oversized_step_fires_at_most_once() {
    let mut units = vec![unit_at(0, ORIGIN)];
    let mut orbs = orb_pool();
    let mut data = GameData::default();
    // dt far above the cooldown: the firing step credits once and rewinds
    // the countdown to the full cooldown.
    update_automatons(&mut units, &mut orbs, &mut data, 1_000_000);
    assert_eq!(data.get_currency(), 1);
    assert_eq!(units[0].time_left, 2500);
    // The next step exhausts the countdown in one go, without firing.
    update_automatons(&mut units, &mut orbs, &mut data, 1_000_000);
    assert_eq!(data.get_currency(), 1);
    assert_eq!(units[0].time_left, 0);
}

#[test]
fn unit_credits_exactly_once_per_cooldown_duration() {
    // cooldown 2500, dt 500: one period is the firing step plus 5
    // countdown steps; over 8 periods the unit credits exactly 8 times.
    let mut units = vec![unit_at(0, ORIGIN)];
    let mut orbs = orb_pool();
    let mut data = GameData::default();
    let laps = 2500 / 500;
    for _ in 0..8 * (laps + 1) {
        update_automatons(&mut units, &mut orbs, &mut data, 500);
    }
    assert_eq!(data.get_currency(), 8);
    assert_eq!(units[0].time_left, 0);
}

#[test]
fn every_fired_unit_credits_its_own_source() {
    let wooly = Automaton {
        source: AutomatonVariant::WoolyChionoescent,
        currency_per_tick: 150_000,
        cooldown: 120_000,
        time_left: 0,
        position: ORIGIN,
    };
    let mut units = vec![unit_at(0, ORIGIN), unit_at(700, ORIGIN), wooly];
    let mut orbs = orb_pool();
    let mut data = GameData::default();
    update_automatons(&mut units, &mut orbs, &mut data, 500);
    assert_eq!(data.get_currency(), 150_001);
    assert_eq!(data.get_currency_by_source(AutomatonVariant::Hellmite), 1);
    assert_eq!(
        data.get_currency_by_source(AutomatonVariant::WoolyChionoescent),
        150_000
    );
    assert_eq!(units[1].time_left, 200);
}

#[test]
fn firing_unit_claims_an_orb_at_its_position() {
    let anchor = Pos3 { x: 2500, y: 0, z: -1300 };
    let mut units = vec![unit_at(0, anchor)];
    let mut orbs = orb_pool();
    let mut data = GameData::default();
    update_automatons(&mut units, &mut orbs, &mut data, 100);
    let in_flight: Vec<&AutomatonOrb> = orbs.iter().filter(|orb| orb.active).collect();
    assert_eq!(in_flight.len(), 1);
    assert_eq!(in_flight[0].start, anchor);
    assert_eq!(in_flight[0].progress, 100);
}

#[test]
fn orb_lands_after_the_travel_duration() {
    let mut orbs = vec![AutomatonOrb::default()];
    let claimed = claim_orb(&mut orbs, ORIGIN);
    assert_eq!(claimed, Some(0));
    let mut units: Vec<Automaton> = Vec::new();
    let mut data = GameData::default();
    update_automatons(&mut units, &mut orbs, &mut data, 499);
    assert!(orbs[0].active);
    update_automatons(&mut units, &mut orbs, &mut data, 1);
    assert!(!orbs[0].active);
    assert_eq!(orbs[0].progress, 500);
}

#[test]
fn exhausted_pool_drops_the_claim_and_keeps_flights_intact() {
    // A pool of capacity 2 with both orbs in flight: the third claim
    // returns no handle and leaves the two trajectories untouched.
    let mut orbs = vec![AutomatonOrb::default(), AutomatonOrb::default()];
    let first_anchor = Pos3 { x: 1, y: 2, z: 3 };
    let second_anchor = Pos3 { x: 4, y: 5, z: 6 };
    assert_eq!(claim_orb(&mut orbs, first_anchor), Some(0));
    assert_eq!(claim_orb(&mut orbs, second_anchor), Some(1));
    let snapshot = orbs.clone();
    assert_eq!(claim_orb(&mut orbs, Pos3 { x: 7, y: 8, z: 9 }), None);
    assert_eq!(orbs, snapshot);
    assert_eq!(orbs[0].start, first_anchor);
    assert_eq!(orbs[1].start, second_anchor);
}

#[test]
fn claim_takes_the_first_orb_at_rest() {
    let mut orbs = vec![AutomatonOrb::default(), AutomatonOrb::default(), AutomatonOrb::default()];
    assert_eq!(claim_orb(&mut orbs, ORIGIN), Some(0));
    assert_eq!(claim_orb(&mut orbs, ORIGIN), Some(1));
    orbs[0].active = false;
    assert_eq!(claim_orb(&mut orbs, ORIGIN), Some(0));
}

#[test]
fn fresh_units_start_inside_the_cooldown_window() {
    for _ in 0..50 {
        let unit = fresh_unit(AutomatonVariant::Abyssopod, ORIGIN);
        assert_eq!(unit.source, AutomatonVariant::Abyssopod);
        assert_eq!(unit.cooldown, 7500);
        assert_eq!(unit.currency_per_tick, 20);
        assert!(unit.time_left < unit.cooldown);
    }
}

#[test]
fn orb_pool_starts_fully_at_rest() {
    let orbs = orb_pool();
    assert_eq!(orbs.len(), 50);
    assert!(orbs.iter().all(|orb| !orb.active));
}

#[test]
fn travel_fraction_tracks_the_flight_linearly() {
    let mut orbs = vec![AutomatonOrb::default()];
    assert_eq!(fever_dream::travel_fraction_milli(&orbs[0]), 1000);
    claim_orb(&mut orbs, ORIGIN);
    assert_eq!(fever_dream::travel_fraction_milli(&orbs[0]), 0);
    let mut units: Vec<Automaton> = Vec::new();
    let mut data = GameData::default();
    update_automatons(&mut units, &mut orbs, &mut data, 125);
    assert_eq!(fever_dream::travel_fraction_milli(&orbs[0]), 250);
    update_automatons(&mut units, &mut orbs, &mut data, 250);
    assert_eq!(fever_dream::travel_fraction_milli(&orbs[0]), 750);
}
