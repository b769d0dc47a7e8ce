use fever_dream::AutomatonVariant;
use fever_dream::GameData;
use fever_dream::cost::cost_curve;
use fever_dream::get_stats;
use fever_dream::prerequisites_met;

#[test]
fn cost_of_first_unit_is_base_cost() {
    let curve_start = cost_curve(25, 125, 0);
    assert_eq!(curve_start, 25);
}

#[test]
fn cost_after_one_purchase_floors_the_ratio() {
    // base 25, ratio 1.25, one owned: floor(25 * 1.25) == 31.
    assert_eq!(cost_curve(25, 125, 1), 31);
    assert_eq!(cost_curve(25, 125, 2), 38);
}

#[test]
fn cost_is_monotone_in_owned_count() {
    let mut previous: u64 = 0;
    for owned in 0..40 {
        let cost = cost_curve(25, 105, owned);
        assert!(cost >= previous);
        previous = cost;
    }
}

#[test]
fn cost_strictly_increases_for_catalog_variants() {
    for owned in 0..30 {
        let stats = get_stats(AutomatonVariant::Hellmite);
        assert!(cost_curve(stats.base_cost, stats.ratio, owned + 1)
            > cost_curve(stats.base_cost, stats.ratio, owned));
    }
}

#[test]
fn ledger_cost_follows_the_curve() {
    let mut data = GameData::default();
    let stats = get_stats(AutomatonVariant::Hellmite);
    assert_eq!(data.get_cost_to_add_source(AutomatonVariant::Hellmite), stats.base_cost);
    data.increase_quantity_owned_by_source(AutomatonVariant::Hellmite);
    // base 25, ratio 1.05, one owned: floor(25 * 1.05) == 26.
    assert_eq!(data.get_cost_to_add_source(AutomatonVariant::Hellmite), 26);
}

#[test]
fn purchase_debits_the_quoted_cost_exactly() {
    let mut data = GameData::default();
    data.add_income(AutomatonVariant::Portal, 100);
    let cost = data.get_cost_to_add_source(AutomatonVariant::Hellmite);
    assert_eq!(cost, 25);
    let before = data.get_currency();
    assert!(data.purchase_source(AutomatonVariant::Hellmite));
    assert_eq!(data.get_currency(), before - cost);
    assert_eq!(data.get_quantity_owned_by_source(AutomatonVariant::Hellmite), 1);
}

#[test]
fn failed_purchase_changes_nothing() {
    let mut data = GameData::default();
    data.add_income(AutomatonVariant::Portal, 30);
    // Prerequisite met (30 >= 25) but the second unit is unaffordable
    // after the first purchase.
    assert!(data.purchase_source(AutomatonVariant::Hellmite));
    let currency = data.get_currency();
    assert!(!data.purchase_source(AutomatonVariant::Hellmite));
    assert_eq!(data.get_currency(), currency);
    assert_eq!(data.get_quantity_owned_by_source(AutomatonVariant::Hellmite), 1);
}

#[test]
fn portal_is_never_purchasable() {
    let mut data = GameData::default();
    data.add_income(AutomatonVariant::Portal, 1_000_000);
    assert!(!prerequisites_met(AutomatonVariant::Portal, &data));
    assert!(!data.purchase_source(AutomatonVariant::Portal));
    assert_eq!(data.get_currency(), 1_000_000);
}

#[test]
fn first_chain_variant_unlocks_on_currency_threshold() {
    let mut data = GameData::default();
    data.add_income(AutomatonVariant::Portal, 24);
    assert!(!prerequisites_met(AutomatonVariant::Hellmite, &data));
    data.add_income(AutomatonVariant::Portal, 1);
    assert!(prerequisites_met(AutomatonVariant::Hellmite, &data));
}

#[test]
fn first_chain_variant_stays_unlocked_once_owned() {
    let mut data = GameData::default();
    data.increase_quantity_owned_by_source(AutomatonVariant::Hellmite);
    assert!(prerequisites_met(AutomatonVariant::Hellmite, &data));
}

#[test]
fn prerequisite_boundary_is_met_exactly_at_the_threshold() {
    // Struthios requires exactly 5 of its predecessor, Pelte Lacerte.
    let mut data = GameData::default();
    assert_eq!(get_stats(AutomatonVariant::Struthios).required_previous, 5);
    for _ in 0..4 {
        data.increase_quantity_owned_by_source(AutomatonVariant::PelteLacerte);
    }
    assert!(!prerequisites_met(AutomatonVariant::Struthios, &data));
    data.increase_quantity_owned_by_source(AutomatonVariant::PelteLacerte);
    assert!(prerequisites_met(AutomatonVariant::Struthios, &data));
}

#[test]
fn purchase_gated_by_unmet_prerequisite_changes_nothing() {
    let mut data = GameData::default();
    data.add_income(AutomatonVariant::Portal, 1_000_000);
    for _ in 0..4 {
        data.increase_quantity_owned_by_source(AutomatonVariant::PelteLacerte);
    }
    let currency = data.get_currency();
    assert!(!data.purchase_source(AutomatonVariant::Struthios));
    assert_eq!(data.get_currency(), currency);
    assert_eq!(data.get_quantity_owned_by_source(AutomatonVariant::Struthios), 0);
    data.increase_quantity_owned_by_source(AutomatonVariant::PelteLacerte);
    assert!(data.purchase_source(AutomatonVariant::Struthios));
    assert_eq!(data.get_quantity_owned_by_source(AutomatonVariant::Struthios), 1);
    assert_eq!(data.get_currency(), currency - 62_500);
}

#[test]
fn income_is_tracked_per_source() {
    let mut data = GameData::default();
    data.add_income(AutomatonVariant::Hellmite, 7);
    data.add_income(AutomatonVariant::Abyssopod, 20);
    data.add_income(AutomatonVariant::Hellmite, 3);
    assert_eq!(data.get_currency(), 30);
    assert_eq!(data.get_currency_by_source(AutomatonVariant::Hellmite), 10);
    assert_eq!(data.get_currency_by_source(AutomatonVariant::Abyssopod), 20);
    assert_eq!(data.get_currency_by_source(AutomatonVariant::Portal), 0);
}

#[test]
fn income_saturates_instead_of_wrapping() {
    let mut data = GameData::default();
    data.add_income(AutomatonVariant::Portal, u64::MAX);
    data.add_income(AutomatonVariant::Portal, 5);
    assert_eq!(data.get_currency(), u64::MAX);
    assert_eq!(data.get_currency_by_source(AutomatonVariant::Portal), u64::MAX);
}

#[test]
fn catalog_is_total_and_sane() {
    for index in 0..fever_dream::VARIANT_COUNT {
        let variant = AutomatonVariant::from_index(index);
        assert_eq!(variant.index(), index);
        let stats = get_stats(variant);
        assert!(stats.cooldown > 0);
        assert!(stats.ratio >= 100);
        if variant != AutomatonVariant::Portal {
            assert!(stats.ratio > 100);
        }
    }
}

#[test]
fn predecessors_form_the_declaration_chain() {
    assert_eq!(AutomatonVariant::Portal.predecessor(), None);
    assert_eq!(
        AutomatonVariant::Hellmite.predecessor(),
        Some(AutomatonVariant::Portal)
    );
    assert_eq!(
        AutomatonVariant::WoolyChionoescent.predecessor(),
        Some(AutomatonVariant::Struthios)
    );
    for index in 1..fever_dream::VARIANT_COUNT {
        let variant = AutomatonVariant::from_index(index);
        let predecessor = variant.predecessor().unwrap();
        assert_eq!(predecessor.index(), index - 1);
    }
}

#[test]
fn display_rate_scales_with_owned_units() {
    let mut data = GameData::default();
    assert_eq!(data.income_rate_milli(AutomatonVariant::Hellmite), 0);
    for _ in 0..5 {
        data.increase_quantity_owned_by_source(AutomatonVariant::Hellmite);
    }
    // 1 currency per 2.5 s tick, 5 units: 2 currency per second.
    assert_eq!(data.income_rate_milli(AutomatonVariant::Hellmite), 2000);
}
