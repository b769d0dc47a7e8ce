use vstd::prelude::*;

use vstd::arithmetic::div_mod::lemma_basic_div;
use vstd::arithmetic::div_mod::lemma_div_basics;
use vstd::arithmetic::div_mod::lemma_div_denominator;
use vstd::arithmetic::div_mod::lemma_div_pos_is_pos;
use vstd::arithmetic::div_mod::lemma_fundamental_div_mod;
use vstd::arithmetic::div_mod::lemma_mod_bound;

use crate::data::GameData;
use crate::data::LedgerView;
use crate::data::default_ledger;
use crate::data::ledger_wf;
use crate::variant::AutomatonVariant;
use crate::variant::VARIANT_COUNT;

verus! {

/// Counters in one snapshot: the balance, then one owned count and one
/// lifetime income total per variant.
pub const FIELD_COUNT: usize = 1 + 2 * VARIANT_COUNT;

/// Width of one printed counter: every value is zero-padded to the full
/// width of the type.
pub const FIELD_DIGITS: usize = 20;

/// One snapshot line: the digits of one counter and a line feed.
pub const LINE_BYTES: usize = 21;

/// Total size of a well-formed snapshot.
pub const SNAPSHOT_SIZE: usize = FIELD_COUNT * LINE_BYTES;

/// Powers of ten.
pub open spec fn pow10(exp: nat) -> int
    decreases exp,
{
    if exp == 0 {
        1
    } else {
        10 * pow10((exp - 1) as nat)
    }
}

/// ASCII decimal digit.
pub open spec fn is_digit(byte: u8) -> bool {
    48 <= byte && byte <= 57
}

/// The `position`-th digit byte of `value` printed at full width, most
/// significant digit first.
pub open spec fn digit_byte(value: u64, position: int) -> u8 {
    ((value as int / pow10((FIELD_DIGITS - 1 - position) as nat)) % 10 + 48) as u8
}

/// All digit bytes of one counter.
pub open spec fn digit_seq(value: u64) -> Seq<u8> {
    Seq::new(FIELD_DIGITS as nat, |position: int| digit_byte(value, position))
}

/// One snapshot line for one counter.
pub open spec fn line_of(value: u64) -> Seq<u8> {
    digit_seq(value).push(10u8)
}

/// The snapshot lines of a sequence of counters, in order.
pub open spec fn lines_of(values: Seq<u64>) -> Seq<u8>
    decreases values.len(),
{
    if values.len() == 0 {
        Seq::empty()
    } else {
        lines_of(values.drop_last()) + line_of(values.last())
    }
}

/// The counters of a ledger in snapshot order: the balance first, then the
/// owned counts, then the lifetime income totals.
pub open spec fn field_values(led: LedgerView) -> Seq<u64> {
    seq![led.currency] + led.owned + led.income
}

/// The canonical snapshot of a ledger.
pub open spec fn snapshot_bytes(led: LedgerView) -> Seq<u8> {
    lines_of(field_values(led))
}

/// Value of a sequence of digit bytes read in base ten.
pub open spec fn digits_val(digits: Seq<u8>) -> int
    decreases digits.len(),
{
    if digits.len() == 0 {
        0
    } else {
        digits_val(digits.drop_last()) * 10 + (digits.last() - 48)
    }
}

/// The `index`-th line of a snapshot.
pub open spec fn line_at(bytes: Seq<u8>, index: int) -> Seq<u8> {
    bytes.subrange(LINE_BYTES * index, LINE_BYTES * index + LINE_BYTES)
}

/// A well-formed snapshot line: the full digit width, a closing line feed,
/// and a value that fits the counter type.
pub open spec fn wf_line(line: Seq<u8>) -> bool {
    &&& line.len() == LINE_BYTES
    &&& forall|j: int| 0 <= j < FIELD_DIGITS ==> is_digit(#[trigger] line[j])
    &&& line[FIELD_DIGITS as int] == 10u8
    &&& digits_val(line.take(FIELD_DIGITS as int)) <= u64::MAX
}

/// A well-formed snapshot: exactly one well-formed line per counter.
pub open spec fn wf_snapshot(bytes: Seq<u8>) -> bool {
    &&& bytes.len() == SNAPSHOT_SIZE
    &&& forall|i: int| 0 <= i < FIELD_COUNT ==> wf_line(#[trigger] line_at(bytes, i))
}

/// The counter held by the `index`-th line of a snapshot.
pub open spec fn value_at(bytes: Seq<u8>, index: int) -> u64 {
    digits_val(line_at(bytes, index).take(FIELD_DIGITS as int)) as u64
}

/// The ledger a well-formed snapshot denotes.
pub open spec fn parsed_ledger(bytes: Seq<u8>) -> LedgerView {
    LedgerView {
        currency: value_at(bytes, 0),
        owned: Seq::new(VARIANT_COUNT as nat, |i: int| value_at(bytes, 1 + i)),
        income: Seq::new(VARIANT_COUNT as nat, |i: int| value_at(bytes, 1 + VARIANT_COUNT + i)),
    }
}

proof fn lemma_pow10_pos(exp: nat)
    ensures
        pow10(exp) >= 1,
    decreases exp,
{
    if exp > 0 {
        lemma_pow10_pos((exp - 1) as nat);
    }
}

proof fn lemma_pow10_mono(lo: nat, hi: nat)
    requires
        lo <= hi,
    ensures
        pow10(lo) <= pow10(hi),
    decreases hi,
{
    if lo < hi {
        lemma_pow10_mono(lo, (hi - 1) as nat);
        lemma_pow10_pos((hi - 1) as nat);
    }
}

proof fn lemma_pow10_vals()
    ensures
        pow10(19) == 0x8ac7230489e80000,
        pow10((FIELD_DIGITS - 1) as nat) == 0x8ac7230489e80000,
        pow10(FIELD_DIGITS as nat) == 10 * 0x8ac7230489e80000,
        u64::MAX < pow10(FIELD_DIGITS as nat),
{
    reveal_with_fuel(pow10, 21);
}

/// The digits of a counter printed at full width read back as the counter
/// itself: reading the first `prefix` digits yields the counter shifted
/// right by the unread digit positions.
proof fn lemma_digit_seq_val(value: u64, prefix: int)
    requires
        0 <= prefix <= FIELD_DIGITS,
    ensures
        digits_val(digit_seq(value).take(prefix)) == value as int / pow10(
            (FIELD_DIGITS - prefix) as nat,
        ),
    decreases prefix,
{
    if prefix == 0 {
        lemma_pow10_vals();
        lemma_basic_div(value as int, pow10(FIELD_DIGITS as nat));
    } else {
        lemma_digit_seq_val(value, prefix - 1);
        let shift = pow10((FIELD_DIGITS - prefix) as nat);
        lemma_pow10_pos((FIELD_DIGITS - prefix) as nat);
        let quotient = value as int / shift;
        lemma_div_denominator(value as int, shift, 10);
        lemma_fundamental_div_mod(quotient, 10);
        assert(digit_seq(value).take(prefix).drop_last() =~= digit_seq(value).take(prefix - 1));
        assert(digit_seq(value).take(prefix).last() == digit_byte(value, prefix - 1));
    }
}

/// The snapshot line of any counter is well formed and reads back as the
/// counter itself.
proof fn lemma_line_round_trip(value: u64)
    ensures
        wf_line(line_of(value)),
        digits_val(line_of(value).take(FIELD_DIGITS as int)) == value,
{
    assert forall|j: int| 0 <= j < FIELD_DIGITS implies is_digit(#[trigger] line_of(value)[j]) by {
        let shift = pow10((FIELD_DIGITS - 1 - j) as nat);
        lemma_pow10_pos((FIELD_DIGITS - 1 - j) as nat);
        lemma_div_pos_is_pos(value as int, shift);
        lemma_mod_bound(value as int / shift, 10);
    }
    assert(line_of(value).take(FIELD_DIGITS as int) =~= digit_seq(value));
    lemma_digit_seq_val(value, FIELD_DIGITS as int);
    assert(digit_seq(value).take(FIELD_DIGITS as int) =~= digit_seq(value));
    lemma_div_basics(value as int);
}

proof fn lemma_lines_len(values: Seq<u64>)
    ensures
        lines_of(values).len() == LINE_BYTES * values.len(),
    decreases values.len(),
{
    if values.len() > 0 {
        lemma_lines_len(values.drop_last());
    }
}

/// Concatenating the lines of a sequence of counters puts the line of
/// counter `index` exactly at its slot.
proof fn lemma_lines_at(values: Seq<u64>, index: int)
    requires
        0 <= index < values.len(),
    ensures
        line_at(lines_of(values), index) == line_of(values[index]),
    decreases values.len(),
{
    lemma_lines_len(values);
    lemma_lines_len(values.drop_last());
    if index == values.len() - 1 {
        assert(line_at(lines_of(values), index) =~= line_of(values.last()));
    } else {
        lemma_lines_at(values.drop_last(), index);
        assert(line_at(lines_of(values), index) =~= line_at(lines_of(values.drop_last()), index));
    }
}

/// Saving a ledger and restoring the snapshot yields the identical ledger:
/// the canonical snapshot of any well-formed ledger satisfies the snapshot
/// format and parses back to exactly that ledger. In particular a
/// restore–save–restore cycle on an unmodified snapshot is idempotent.
pub proof fn lemma_save_restore_round_trip(led: LedgerView)
    requires
        ledger_wf(led),
    ensures
        wf_snapshot(snapshot_bytes(led)),
        parsed_ledger(snapshot_bytes(led)) == led,
{
    let values = field_values(led);
    let bytes = snapshot_bytes(led);
    lemma_lines_len(values);
    assert forall|i: int| 0 <= i < FIELD_COUNT implies wf_line(#[trigger] line_at(bytes, i)) by {
        lemma_lines_at(values, i);
        lemma_line_round_trip(values[i]);
    }
    assert forall|i: int| 0 <= i < FIELD_COUNT implies value_at(bytes, i) == values[i] by {
        lemma_lines_at(values, i);
        lemma_line_round_trip(values[i]);
    }
    assert(parsed_ledger(bytes).owned =~= led.owned);
    assert(parsed_ledger(bytes).income =~= led.income);
    assert(parsed_ledger(bytes) =~= led);
}

fn pow10_exec(exp: usize) -> (power: u64)
    requires
        exp < FIELD_DIGITS,
    ensures
        power as int == pow10(exp as nat),
{
    let mut power: u64 = 1;
    let mut step: usize = 0;
    while step < exp
        invariant
            step <= exp,
            exp < FIELD_DIGITS,
            power as int == pow10(step as nat),
        decreases exp - step,
    {
        proof {
            lemma_pow10_vals();
            lemma_pow10_mono((step + 1) as nat, (FIELD_DIGITS - 1) as nat);
        }
        power = power * 10;
        step = step + 1;
    }
    power
}

/// Append the snapshot line of one counter.
fn push_line(out: &mut Vec<u8>, value: u64)
    ensures
        final(out)@ == old(out)@ + line_of(value),
{
    let ghost base = old(out)@;
    let mut position: usize = 0;
    while position < FIELD_DIGITS
        invariant
            position <= FIELD_DIGITS,
            out@ == base + digit_seq(value).take(position as int),
        decreases FIELD_DIGITS - position,
    {
        let shift = pow10_exec(FIELD_DIGITS - 1 - position);
        proof {
            lemma_pow10_pos((FIELD_DIGITS - 1 - position) as nat);
            lemma_mod_bound(value as int / shift as int, 10);
        }
        let digit = ((value / shift) % 10) as u8 + 48;
        proof {
            assert(digit_seq(value).take(position + 1) =~= digit_seq(value).take(
                position as int,
            ).push(digit_byte(value, position as int)));
        }
        out.push(digit);
        position = position + 1;
    }
    proof {
        assert(digit_seq(value).take(FIELD_DIGITS as int) =~= digit_seq(value));
    }
    out.push(10);
    proof {
        assert(out@ =~= base + line_of(value));
    }
}

/// Parse the `index`-th snapshot line. Returns the counter exactly when the
/// line is well formed.
fn parse_line(bytes: &Vec<u8>, index: usize) -> (parsed: Option<u64>)
    requires
        bytes@.len() == SNAPSHOT_SIZE,
        index < FIELD_COUNT,
    ensures
        match parsed {
            Some(value) => wf_line(line_at(bytes@, index as int)) && value as int == digits_val(
                line_at(bytes@, index as int).take(FIELD_DIGITS as int),
            ),
            None => !wf_line(line_at(bytes@, index as int)),
        },
{
    let ghost line = line_at(bytes@, index as int);
    let offset = index * LINE_BYTES;
    let mut accumulated: u64 = 0;
    let mut position: usize = 0;
    while position < FIELD_DIGITS
        invariant
            position <= FIELD_DIGITS,
            index < FIELD_COUNT,
            offset == index * LINE_BYTES,
            bytes@.len() == SNAPSHOT_SIZE,
            line == line_at(bytes@, index as int),
            accumulated as int == digits_val(line.take(position as int)),
            forall|j: int| 0 <= j < position ==> is_digit(#[trigger] line[j]),
        ensures
            position == FIELD_DIGITS,
            accumulated as int == digits_val(line.take(FIELD_DIGITS as int)),
            forall|j: int| 0 <= j < FIELD_DIGITS ==> is_digit(#[trigger] line[j]),
        decreases FIELD_DIGITS - position,
    {
        let byte = bytes[offset + position];
        assert(byte == line[position as int]);
        if byte < 48 || byte > 57 {
            return None;
        }
        let digit = (byte - 48) as u64;
        proof {
            assert(line.take(position + 1).drop_last() =~= line.take(position as int));
            assert(line.take(position + 1).last() == line[position as int]);
        }
        let widened = match accumulated.checked_mul(10) {
            Some(wide) => wide,
            None => {
                proof {
                    if wf_line(line) {
                        lemma_digits_val_grows(line.take(FIELD_DIGITS as int), position + 1);
                        assert(line.take(FIELD_DIGITS as int).take(position + 1) =~= line.take(
                            position + 1,
                        ));
                    }
                }
                return None;
            },
        };
        let extended = match widened.checked_add(digit) {
            Some(total) => total,
            None => {
                proof {
                    if wf_line(line) {
                        lemma_digits_val_grows(line.take(FIELD_DIGITS as int), position + 1);
                        assert(line.take(FIELD_DIGITS as int).take(position + 1) =~= line.take(
                            position + 1,
                        ));
                    }
                }
                return None;
            },
        };
        accumulated = extended;
        position = position + 1;
    }
    if bytes[offset + FIELD_DIGITS] != 10 {
        assert(line[FIELD_DIGITS as int] != 10u8);
        return None;
    }
    assert(line.len() == LINE_BYTES);
    Some(accumulated)
}

proof fn lemma_digits_val_nonneg(digits: Seq<u8>)
    requires
        forall|j: int| 0 <= j < digits.len() ==> is_digit(#[trigger] digits[j]),
    ensures
        digits_val(digits) >= 0,
    decreases digits.len(),
{
    if digits.len() > 0 {
        lemma_digits_val_nonneg(digits.drop_last());
    }
}

/// Reading more digits never shrinks the value.
proof fn lemma_digits_val_grows(digits: Seq<u8>, prefix: int)
    requires
        0 <= prefix <= digits.len(),
        forall|j: int| 0 <= j < digits.len() ==> is_digit(#[trigger] digits[j]),
    ensures
        digits_val(digits.take(prefix)) <= digits_val(digits),
    decreases digits.len(),
{
    if prefix == digits.len() {
        assert(digits.take(prefix) =~= digits);
    } else {
        assert(digits.drop_last().take(prefix) =~= digits.take(prefix));
        lemma_digits_val_grows(digits.drop_last(), prefix);
        lemma_digits_val_nonneg(digits.drop_last());
    }
}

/// Parse a full snapshot. Returns a ledger exactly when the snapshot is
/// well formed.
fn parse_snapshot(bytes: &Vec<u8>) -> (parsed: Option<GameData>)
    ensures
        match parsed {
            Some(data) => wf_snapshot(bytes@) && data.well_formed() && data@ == parsed_ledger(
                bytes@,
            ),
            None => !wf_snapshot(bytes@),
        },
{
    if bytes.len() != SNAPSHOT_SIZE {
        return None;
    }
    let currency = match parse_line(bytes, 0) {
        Some(value) => value,
        None => { return None },
    };
    let mut owned: Vec<u64> = Vec::new();
    let mut slot: usize = 0;
    while slot < VARIANT_COUNT
        invariant
            slot <= VARIANT_COUNT,
            bytes@.len() == SNAPSHOT_SIZE,
            owned@.len() == slot,
            forall|k: int|
                0 <= k < slot ==> wf_line(#[trigger] line_at(bytes@, 1 + k)) && owned@[k]
                    == value_at(bytes@, 1 + k),
        decreases VARIANT_COUNT - slot,
    {
        match parse_line(bytes, 1 + slot) {
            Some(value) => { owned.push(value) },
            None => { return None },
        }
        slot = slot + 1;
    }
    let mut income: Vec<u64> = Vec::new();
    slot = 0;
    while slot < VARIANT_COUNT
        invariant
            slot <= VARIANT_COUNT,
            bytes@.len() == SNAPSHOT_SIZE,
            income@.len() == slot,
            forall|k: int|
                0 <= k < slot ==> wf_line(#[trigger] line_at(bytes@, 1 + VARIANT_COUNT + k))
                    && income@[k] == value_at(bytes@, 1 + VARIANT_COUNT + k),
        decreases VARIANT_COUNT - slot,
    {
        match parse_line(bytes, 1 + VARIANT_COUNT + slot) {
            Some(value) => { income.push(value) },
            None => { return None },
        }
        slot = slot + 1;
    }
    let data = GameData::from_parts(currency, owned, income);
    proof {
        assert forall|i: int| 0 <= i < FIELD_COUNT implies wf_line(
            #[trigger] line_at(bytes@, i),
        ) by {
            if i == 0 {
            } else if i < 1 + VARIANT_COUNT {
                assert(wf_line(line_at(bytes@, 1 + (i - 1))));
            } else {
                assert(wf_line(line_at(bytes@, 1 + VARIANT_COUNT + (i - 1 - VARIANT_COUNT))));
            }
        }
        assert(data@.owned =~= parsed_ledger(bytes@).owned);
        assert(data@.income =~= parsed_ledger(bytes@).income);
        assert(data@ =~= parsed_ledger(bytes@));
    }
    Some(data)
}

impl GameData {
    /// Serialize the full ledger as its canonical plain-text snapshot: one
    /// zero-padded decimal counter per line — the balance first, then each
    /// variant's owned count, then each variant's lifetime income, both in
    /// declaration order.
    pub fn save(&self) -> (out: Vec<u8>)
        requires
            self.well_formed(),
        ensures
            out@ == snapshot_bytes(self@),
    {
        let mut out: Vec<u8> = Vec::new();
        push_line(&mut out, self.get_currency());
        proof {
            reveal_with_fuel(lines_of, 3);
            assert(seq![self@.currency].drop_last() =~= Seq::<u64>::empty());
            assert(out@ =~= lines_of(seq![self@.currency]));
        }
        let mut slot: usize = 0;
        while slot < VARIANT_COUNT
            invariant
                slot <= VARIANT_COUNT,
                self.well_formed(),
                out@ == lines_of(seq![self@.currency] + self@.owned.take(slot as int)),
            decreases VARIANT_COUNT - slot,
        {
            let variant = AutomatonVariant::from_index(slot);
            let ghost values = seq![self@.currency] + self@.owned.take(slot as int);
            push_line(&mut out, self.get_quantity_owned_by_source(variant));
            proof {
                let grown = seq![self@.currency] + self@.owned.take(slot + 1);
                assert(grown.drop_last() =~= values);
                assert(grown.last() == self@.owned[slot as int]);
                assert(out@ =~= lines_of(grown));
            }
            slot = slot + 1;
        }
        proof {
            assert(self@.owned.take(VARIANT_COUNT as int) =~= self@.owned);
        }
        slot = 0;
        while slot < VARIANT_COUNT
            invariant
                slot <= VARIANT_COUNT,
                self.well_formed(),
                out@ == lines_of(seq![self@.currency] + self@.owned + self@.income.take(slot as int)),
            decreases VARIANT_COUNT - slot,
        {
            let variant = AutomatonVariant::from_index(slot);
            let ghost values = seq![self@.currency] + self@.owned + self@.income.take(slot as int);
            push_line(&mut out, self.get_currency_by_source(variant));
            proof {
                let grown = seq![self@.currency] + self@.owned + self@.income.take(slot + 1);
                assert(grown.drop_last() =~= values);
                assert(grown.last() == self@.income[slot as int]);
                assert(out@ =~= lines_of(grown));
            }
            slot = slot + 1;
        }
        proof {
            assert(seq![self@.currency] + self@.owned + self@.income.take(VARIANT_COUNT as int)
                =~= field_values(self@));
        }
        out
    }

    /// Load the ledger from a persisted snapshot, if one is present. Absence
    /// of a snapshot, or any deviation from the snapshot format, falls back
    /// silently to the all-zero default ledger.
    pub fn restore(saved: Option<Vec<u8>>) -> (data: GameData)
        ensures
            data.well_formed(),
            match saved {
                Some(bytes) => if wf_snapshot(bytes@) {
                    data@ == parsed_ledger(bytes@)
                } else {
                    data@ == default_ledger()
                },
                None => data@ == default_ledger(),
            },
    {
        match saved {
            None => GameData::default(),
            Some(bytes) => match parse_snapshot(&bytes) {
                Some(data) => data,
                None => GameData::default(),
            },
        }
    }
}

} // verus!
