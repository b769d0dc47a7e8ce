use fever_dream::Automaton;
use fever_dream::AutomatonVariant;
use fever_dream::Pos3;
use fever_dream::RingSlot;
use fever_dream::advance_rotation;
use fever_dream::grow_formation;
use fever_dream::nudged_radius;
use fever_dream::ring_slots;

const ORIGIN: Pos3 = Pos3 { x: 0, y: 0, z: 0 };

#[test]
fn ring_slots_space_units_evenly() {
    let slots = ring_slots(4);
    assert_eq!(slots.len(), 4);
    for (position, slot) in slots.iter().enumerate() {
        assert_eq!(*slot, RingSlot { index: position as u64, count: 4 });
    }
}

#[test]
fn ring_angles_cover_every_fraction_exactly_once() {
    let slots = ring_slots(7);
    let mut seen = [false; 7];
    for slot in &slots {
        assert_eq!(slot.count, 7);
        assert!(slot.index < 7);
        assert!(!seen[slot.index as usize]);
        seen[slot.index as usize] = true;
    }
    assert!(seen.iter().all(|&occupied| occupied));
}

#[test]
fn ring_layout_depends_only_on_the_count() {
    // The layout is a full recomputation from the population count, so two
    // populations that reached the same size along different orders of
    // operations get identical spacing.
    let a = ring_slots(5);
    let b = ring_slots(5);
    assert_eq!(a, b);
}

#[test]
fn growth_appends_one_unit_and_respaces_the_whole_ring() {
    let mut units: Vec<Automaton> = Vec::new();
    let slots = grow_formation(&mut units, AutomatonVariant::Hellmite, ORIGIN);
    assert_eq!(units.len(), 1);
    assert_eq!(slots, vec![RingSlot { index: 0, count: 1 }]);
    let anchor = Pos3 { x: 2500, y: 0, z: 0 };
    let slots = grow_formation(&mut units, AutomatonVariant::Hellmite, anchor);
    assert_eq!(units.len(), 2);
    assert_eq!(units[1].position, anchor);
    assert_eq!(units[1].source, AutomatonVariant::Hellmite);
    assert!(units[1].time_left < units[1].cooldown);
    assert_eq!(
        slots,
        vec![RingSlot { index: 0, count: 2 }, RingSlot { index: 1, count: 2 }]
    );
}

#[test]
fn nudge_pulls_the_radius_in_and_eases_it_back() {
    // Resting radius 2500 thousandths, nudge 100, recovery 500 ms.
    assert_eq!(nudged_radius(2500, 100, 500, 0), 2400);
    assert_eq!(nudged_radius(2500, 100, 500, 250), 2450);
    assert_eq!(nudged_radius(2500, 100, 500, 499), 2500 - 100 * 1 / 500);
    assert_eq!(nudged_radius(2500, 100, 500, 500), 2500);
    assert_eq!(nudged_radius(2500, 100, 500, 90_000), 2500);
}

#[test]
fn rotation_advances_by_rate_times_time() {
    // 50 thousandths of a radian per second for one second.
    assert_eq!(advance_rotation(0, 50, 1000), 50);
    assert_eq!(advance_rotation(100, 50, 500), 125);
}

#[test]
fn rotation_wraps_at_a_full_turn() {
    assert_eq!(advance_rotation(6280, 50, 1000), 47);
    assert_eq!(advance_rotation(0, 50, 0), 0);
}

#[test]
fn negative_rotation_runs_the_other_way() {
    assert_eq!(advance_rotation(100, -50, 1000), 50);
    assert_eq!(advance_rotation(0, -50, 1000), 6233);
}
