use fever_dream::AutomatonVariant;
use fever_dream::GameData;

fn sample_ledger() -> GameData {
    let mut data = GameData::default();
    data.add_income(AutomatonVariant::Portal, 12_345);
    data.add_income(AutomatonVariant::Hellmite, 678);
    for _ in 0..3 {
        data.increase_quantity_owned_by_source(AutomatonVariant::Hellmite);
    }
    data.increase_quantity_owned_by_source(AutomatonVariant::Abyssopod);
    data
}

fn ledgers_agree(a: &GameData, b: &GameData) -> bool {
    if a.get_currency() != b.get_currency() {
        return false;
    }
    for index in 0..fever_dream::VARIANT_COUNT {
        let variant = AutomatonVariant::from_index(index);
        if a.get_quantity_owned_by_source(variant) != b.get_quantity_owned_by_source(variant) {
            return false;
        }
        if a.get_currency_by_source(variant) != b.get_currency_by_source(variant) {
            return false;
        }
    }
    true
}

#[test]
fn save_then_restore_yields_the_identical_ledger() {
    let data = sample_ledger();
    let restored = GameData::restore(Some(data.save()));
    assert!(ledgers_agree(&data, &restored));
}

#[test]
fn restore_save_restore_is_idempotent() {
    let first = GameData::restore(Some(sample_ledger().save()));
    let second = GameData::restore(Some(first.save()));
    assert!(ledgers_agree(&first, &second));
}

#[test]
fn restore_without_a_snapshot_yields_defaults() {
    let data = GameData::restore(None);
    assert_eq!(data.get_currency(), 0);
    for index in 0..fever_dream::VARIANT_COUNT {
        let variant = AutomatonVariant::from_index(index);
        assert_eq!(data.get_quantity_owned_by_source(variant), 0);
        assert_eq!(data.get_currency_by_source(variant), 0);
    }
}

#[test]
fn restore_of_garbage_falls_back_to_defaults() {
    let data = GameData::restore(Some(b"not a snapshot".to_vec()));
    assert_eq!(data.get_currency(), 0);
    assert_eq!(data.get_quantity_owned_by_source(AutomatonVariant::Hellmite), 0);
}

#[test]
fn restore_of_a_truncated_snapshot_falls_back_to_defaults() {
    let mut bytes = sample_ledger().save();
    bytes.pop();
    let data = GameData::restore(Some(bytes));
    assert_eq!(data.get_currency(), 0);
}

#[test]
fn restore_of_a_corrupted_digit_falls_back_to_defaults() {
    let mut bytes = sample_ledger().save();
    bytes[0] = b'x';
    let data = GameData::restore(Some(bytes));
    assert_eq!(data.get_currency(), 0);
}

#[test]
fn restore_of_an_overflowing_counter_falls_back_to_defaults() {
    let mut bytes = GameData::default().save();
    // Overwrite the first counter with a 20-digit value above u64::MAX.
    for position in 0..20 {
        bytes[position] = b'9';
    }
    let data = GameData::restore(Some(bytes));
    assert_eq!(data.get_currency(), 0);
}

#[test]
fn snapshot_has_one_padded_line_per_counter() {
    let bytes = sample_ledger().save();
    let expected_lines = 1 + 2 * fever_dream::VARIANT_COUNT;
    assert_eq!(bytes.len(), expected_lines * 21);
    let text = String::from_utf8(bytes).unwrap();
    let lines: Vec<&str> = text.lines().collect();
    assert_eq!(lines.len(), expected_lines);
    for line in &lines {
        assert_eq!(line.len(), 20);
        assert!(line.bytes().all(|b| b.is_ascii_digit()));
    }
    assert_eq!(lines[0], "00000000000000013023");
}

#[test]
fn extreme_counters_survive_the_round_trip() {
    let mut data = GameData::default();
    data.add_income(AutomatonVariant::WoolyChionoescent, u64::MAX);
    let restored = GameData::restore(Some(data.save()));
    assert!(ledgers_agree(&data, &restored));
    assert_eq!(
        restored.get_currency_by_source(AutomatonVariant::WoolyChionoescent),
        u64::MAX
    );
}
