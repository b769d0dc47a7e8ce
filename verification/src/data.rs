use vstd::prelude::*;

use vstd::arithmetic::mul::lemma_mul_upper_bound;

use crate::config::get_stats;
use crate::config::spec_stats;
use crate::cost::cost_curve;
use crate::cost::cost_spec;
use crate::cost::sat_add64;
use crate::variant::AutomatonVariant;
use crate::variant::VARIANT_COUNT;

verus! {

/// Mathematical model of the ledger: the currency balance and, indexed by
/// variant ordinal, the owned count and the lifetime income of each variant.
#[verifier::ext_equal]
pub struct LedgerView {
    pub currency: u64,
    pub owned: Seq<u64>,
    pub income: Seq<u64>,
}

/// The authoritative economic state: currency balance, owned quantity per
/// variant, and lifetime income credited per variant.
#[derive(Debug, Clone)]
pub struct GameData {
    currency: u64,
    owned_by_type: Vec<u64>,
    income_by_type: Vec<u64>,
}

impl View for GameData {
    type V = LedgerView;

    closed spec fn view(&self) -> LedgerView {
        LedgerView {
            currency: self.currency,
            owned: self.owned_by_type@,
            income: self.income_by_type@,
        }
    }
}

/// A ledger is well formed when it has one owned count and one income total
/// per declared variant.
pub open spec fn ledger_wf(led: LedgerView) -> bool {
    led.owned.len() == VARIANT_COUNT && led.income.len() == VARIANT_COUNT
}

/// The all-zero ledger a fresh process starts from.
pub open spec fn default_ledger() -> LedgerView {
    LedgerView {
        currency: 0,
        owned: Seq::new(VARIANT_COUNT as nat, |i: int| 0u64),
        income: Seq::new(VARIANT_COUNT as nat, |i: int| 0u64),
    }
}

/// Crediting income: the currency balance and the source's lifetime income
/// both grow by the amount, saturating; nothing else moves.
pub open spec fn spec_add_income(led: LedgerView, source: AutomatonVariant, amount: u64) -> LedgerView {
    LedgerView {
        currency: sat_add64(led.currency, amount),
        owned: led.owned,
        income: led.income.update(
            source.ordinal(),
            sat_add64(led.income[source.ordinal()], amount),
        ),
    }
}

/// Price of the next unit of a variant under a given ledger.
pub open spec fn spec_cost_to_add(source: AutomatonVariant, led: LedgerView) -> u64 {
    cost_spec(spec_stats(source).base_cost, spec_stats(source).ratio, led.owned[source.ordinal()] as nat)
}

/// Income rate of a variant for display, in thousandths of currency per
/// second: the per-tick yield divided by the cooldown, times the owned
/// count, saturating at the ceiling of the counter.
pub open spec fn spec_income_rate_milli(source: AutomatonVariant, led: LedgerView) -> u64 {
    let exact = spec_stats(source).currency_per_tick as int * led.owned[source.ordinal()] as int
        * 1000000 / spec_stats(source).cooldown as int;
    if exact > u64::MAX {
        u64::MAX
    } else {
        exact as u64
    }
}

/// Whether the unlock requirement of a variant is satisfied under a ledger:
/// the Portal is never purchasable, the first chain variant unlocks on a
/// currency threshold (or stays unlocked once one is owned), and every later
/// variant requires enough owned units of its immediate predecessor.
pub open spec fn spec_prerequisites_met(variant: AutomatonVariant, led: LedgerView) -> bool {
    match variant {
        AutomatonVariant::Portal => false,
        AutomatonVariant::Hellmite => led.currency >= spec_stats(AutomatonVariant::Hellmite).required_previous
            || led.owned[AutomatonVariant::Hellmite.ordinal()] > 0,
        _ => led.owned[variant.spec_predecessor().unwrap().ordinal()]
            >= spec_stats(variant).required_previous,
    }
}

/// Build one zeroed per-variant table.
fn zeroed_table() -> (table: Vec<u64>)
    ensures
        table@ == Seq::new(VARIANT_COUNT as nat, |i: int| 0u64),
{
    let mut table: Vec<u64> = Vec::new();
    let mut filled: usize = 0;
    while filled < VARIANT_COUNT
        invariant
            filled <= VARIANT_COUNT,
            table@ =~= Seq::new(filled as nat, |i: int| 0u64),
        decreases VARIANT_COUNT - filled,
    {
        table.push(0);
        filled = filled + 1;
        assert(table@ =~= Seq::new(filled as nat, |i: int| 0u64));
    }
    assert(table@ =~= Seq::new(VARIANT_COUNT as nat, |i: int| 0u64));
    table
}

impl Default for GameData {
    /// The all-zero ledger.
    fn default() -> (data: Self)
        ensures
            ledger_wf(data@),
            data@ == default_ledger(),
    {
        GameData { currency: 0, owned_by_type: zeroed_table(), income_by_type: zeroed_table() }
    }
}

impl GameData {
    /// The ledger has one slot per declared variant.
    pub open spec fn well_formed(&self) -> bool {
        ledger_wf(self@)
    }

    /// Assemble a ledger from its parts.
    pub(crate) fn from_parts(currency: u64, owned_by_type: Vec<u64>, income_by_type: Vec<u64>) -> (data: Self)
        requires
            owned_by_type@.len() == VARIANT_COUNT,
            income_by_type@.len() == VARIANT_COUNT,
        ensures
            data.well_formed(),
            data@.currency == currency,
            data@.owned == owned_by_type@,
            data@.income == income_by_type@,
    {
        GameData { currency, owned_by_type, income_by_type }
    }

    /// Current currency balance.
    pub fn get_currency(&self) -> (currency: u64)
        ensures
            currency == self@.currency,
    {
        self.currency
    }

    /// Lifetime income credited by one variant; zero if never credited.
    pub fn get_currency_by_source(&self, source: AutomatonVariant) -> (income: u64)
        requires
            self.well_formed(),
        ensures
            income == self@.income[source.ordinal()],
    {
        self.income_by_type[source.index()]
    }

    /// Owned count of one variant; zero if never purchased.
    pub fn get_quantity_owned_by_source(&self, source: AutomatonVariant) -> (owned: u64)
        requires
            self.well_formed(),
        ensures
            owned == self@.owned[source.ordinal()],
    {
        self.owned_by_type[source.index()]
    }

    /// Credit `amount` of income generated by `source`: the balance and the
    /// source's lifetime income both grow by `amount`, saturating at the
    /// ceiling of the counter as a defensive policy.
    pub fn add_income(&mut self, source: AutomatonVariant, amount: u64)
        requires
            old(self).well_formed(),
        ensures
            final(self).well_formed(),
            final(self)@ == spec_add_income(old(self)@, source, amount),
    {
        let index = source.index();
        self.currency = self.currency.saturating_add(amount);
        self.income_by_type[index] = self.income_by_type[index].saturating_add(amount);
    }

    /// Price of the next unit of `source` under the current ledger.
    pub fn get_cost_to_add_source(&self, source: AutomatonVariant) -> (cost: u64)
        requires
            self.well_formed(),
        ensures
            cost == spec_cost_to_add(source, self@),
    {
        let stats = get_stats(source);
        let quantity_owned = self.get_quantity_owned_by_source(source);
        cost_curve(stats.base_cost, stats.ratio, quantity_owned)
    }

    /// Whether the balance covers the next unit of `source`.
    pub fn can_afford_source(&self, source: AutomatonVariant) -> (affordable: bool)
        requires
            self.well_formed(),
        ensures
            affordable == (self@.currency >= spec_cost_to_add(source, self@)),
    {
        self.get_currency() >= self.get_cost_to_add_source(source)
    }

    /// Income rate of a variant for display, in thousandths of currency
    /// per second across all its owned units.
    pub fn income_rate_milli(&self, source: AutomatonVariant) -> (rate: u64)
        requires
            self.well_formed(),
        ensures
            rate == spec_income_rate_milli(source, self@),
    {
        let stats = get_stats(source);
        let owned = self.get_quantity_owned_by_source(source);
        proof {
            crate::config::lemma_catalog_well_formed(source);
            lemma_mul_upper_bound(
                stats.currency_per_tick as int,
                150000,
                owned as int,
                u64::MAX as int,
            );
            lemma_mul_upper_bound(
                stats.currency_per_tick * owned,
                150000 * (u64::MAX as int),
                1000000,
                1000000,
            );
        }
        let wide = stats.currency_per_tick as u128 * owned as u128 * 1000000u128
            / stats.cooldown as u128;
        if wide > u64::MAX as u128 {
            u64::MAX
        } else {
            wide as u64
        }
    }

    /// Record one more owned unit of `source`, saturating at the ceiling of
    /// the counter.
    pub fn increase_quantity_owned_by_source(&mut self, source: AutomatonVariant)
        requires
            old(self).well_formed(),
        ensures
            final(self).well_formed(),
            final(self)@.owned == old(self)@.owned.update(
                source.ordinal(),
                sat_add64(old(self)@.owned[source.ordinal()], 1),
            ),
            final(self)@.currency == old(self)@.currency,
            final(self)@.income == old(self)@.income,
    {
        let index = source.index();
        self.owned_by_type[index] = self.owned_by_type[index].saturating_add(1);
    }

    /// Attempt to buy one unit of `source`. The purchase succeeds exactly
    /// when the prerequisite is met and the balance covers the price, and it
    /// is atomic: on success the balance drops by exactly the price that was
    /// quoted before the purchase while the owned count grows by one, and on
    /// failure nothing changes.
    pub fn purchase_source(&mut self, source: AutomatonVariant) -> (purchased: bool)
        requires
            old(self).well_formed(),
        ensures
            final(self).well_formed(),
            purchased == (spec_prerequisites_met(source, old(self)@) && old(self)@.currency
                >= spec_cost_to_add(source, old(self)@)),
            purchased ==> final(self)@.currency == old(self)@.currency - spec_cost_to_add(
                source,
                old(self)@,
            ) && final(self)@.owned == old(self)@.owned.update(
                source.ordinal(),
                sat_add64(old(self)@.owned[source.ordinal()], 1),
            ) && final(self)@.income == old(self)@.income,
            !purchased ==> final(self)@ == old(self)@,
    {
        if !prerequisites_met(source, self) {
            return false;
        }
        let cost = self.get_cost_to_add_source(source);
        if self.can_afford_source(source) {
            self.currency = self.currency - cost;
            self.increase_quantity_owned_by_source(source);
            true
        } else {
            false
        }
    }
}

/// Whether the unlock requirement of `variant` is satisfied under the
/// current ledger. The chain is linear and only the immediate predecessor is
/// consulted.
pub fn prerequisites_met(variant: AutomatonVariant, game_data: &GameData) -> (met: bool)
    requires
        game_data.well_formed(),
    ensures
        met == spec_prerequisites_met(variant, game_data@),
{
    match variant {
        AutomatonVariant::Portal => false,
        AutomatonVariant::Hellmite => {
            game_data.get_currency() >= get_stats(AutomatonVariant::Hellmite).required_previous
                || game_data.get_quantity_owned_by_source(AutomatonVariant::Hellmite) > 0
        },
        _ => {
            let predecessor = match variant.predecessor() {
                Some(p) => p,
                None => variant,
            };
            game_data.get_quantity_owned_by_source(predecessor)
                >= get_stats(variant).required_previous
        },
    }
}

/// Prerequisite chain law: for every ownership-gated variant (all of them
/// but the Portal and the first chain variant), the prerequisite is not met
/// while the predecessor's owned count is below the requirement, and is met
/// exactly from the threshold on.
pub proof fn lemma_prerequisite_threshold(variant: AutomatonVariant, led: LedgerView)
    requires
        ledger_wf(led),
        variant.ordinal() >= 2,
    ensures
        led.owned[variant.spec_predecessor().unwrap().ordinal()] < spec_stats(
            variant,
        ).required_previous ==> !spec_prerequisites_met(variant, led),
        led.owned[variant.spec_predecessor().unwrap().ordinal()] >= spec_stats(
            variant,
        ).required_previous ==> spec_prerequisites_met(variant, led),
{
}

} // verus!
