use vstd::prelude::*;

use crate::variant::AutomatonVariant;

verus! {

/// Per-variant statistics, immutable for the life of the process.
///
/// All quantities are fixed-point integers so that the whole table and the
/// cost curve stay in exact integer arithmetic: distances and scales are in
/// thousandths of a world unit, times are in milliseconds, rotation rates are
/// in signed thousandths of a radian per second, and the cost ratio is in
/// hundredths (so `ratio == 125` multiplies the cost by 1.25 per owned unit).
#[derive(Clone, Copy, Debug, PartialEq, Eq, Structural)]
pub struct AutomatonStats {
    /// Distance from the origin at which units of this variant orbit,
    /// in thousandths of a world unit.
    pub distance_from_origin: u64,
    /// Cooldown between two tick activations of one unit, in milliseconds.
    pub cooldown: u64,
    /// Currency credited per tick activation.
    pub currency_per_tick: u64,
    /// Scale of the model and of its info ring, in thousandths.
    pub scale: u64,
    /// Cost of the first unit of this variant.
    pub base_cost: u64,
    /// Cost growth per owned unit, in hundredths: each owned unit multiplies
    /// the next unit's cost by `ratio / 100`.
    pub ratio: u64,
    /// For the first chain variant, the currency required to unlock it; for
    /// every later variant, the owned count of the predecessor required.
    pub required_previous: u64,
    /// Orbital rotation rate, in signed thousandths of a radian per second.
    pub rotation: i64,
}

/// The statistics table as a function of the variant.
pub open spec fn spec_stats(variant: AutomatonVariant) -> AutomatonStats {
    match variant {
        AutomatonVariant::Hellmite => AutomatonStats {
            distance_from_origin: 2500,
            cooldown: 2500,
            currency_per_tick: 1,
            scale: 250,
            base_cost: 25,
            ratio: 105,
            required_previous: 25,
            rotation: 50,
        },
        AutomatonVariant::Abyssopod => AutomatonStats {
            distance_from_origin: 3500,
            cooldown: 7500,
            currency_per_tick: 20,
            scale: 350,
            base_cost: 100,
            ratio: 110,
            required_previous: 20,
            rotation: -50i64,
        },
        AutomatonVariant::GapingDubine => AutomatonStats {
            distance_from_origin: 5000,
            cooldown: 15000,
            currency_per_tick: 45,
            scale: 500,
            base_cost: 500,
            ratio: 125,
            required_previous: 15,
            rotation: 50,
        },
        AutomatonVariant::GazingHoku => AutomatonStats {
            distance_from_origin: 7000,
            cooldown: 30000,
            currency_per_tick: 120,
            scale: 600,
            base_cost: 2500,
            ratio: 145,
            required_previous: 10,
            rotation: -50i64,
        },
        AutomatonVariant::Lorgner => AutomatonStats {
            distance_from_origin: 10000,
            cooldown: 50000,
            currency_per_tick: 625,
            scale: 750,
            base_cost: 12500,
            ratio: 160,
            required_previous: 8,
            rotation: 50,
        },
        AutomatonVariant::PelteLacerte => AutomatonStats {
            distance_from_origin: 13000,
            cooldown: 60000,
            currency_per_tick: 1500,
            scale: 800,
            base_cost: 62500,
            ratio: 175,
            required_previous: 6,
            rotation: -50i64,
        },
        AutomatonVariant::Struthios => AutomatonStats {
            distance_from_origin: 16000,
            cooldown: 90000,
            currency_per_tick: 5000,
            scale: 900,
            base_cost: 62500,
            ratio: 180,
            required_previous: 5,
            rotation: 50,
        },
        AutomatonVariant::WoolyChionoescent => AutomatonStats {
            distance_from_origin: 20000,
            cooldown: 120000,
            currency_per_tick: 150000,
            scale: 1000,
            base_cost: 1562500,
            ratio: 200,
            required_previous: 2,
            rotation: -50i64,
        },
        // Not automated, but present in the table so that every consumer can
        // look any variant up; its cost curve is constant at zero.
        AutomatonVariant::Portal => AutomatonStats {
            distance_from_origin: 0,
            cooldown: 1000,
            currency_per_tick: 0,
            scale: 0,
            base_cost: 0,
            ratio: 100,
            required_previous: 0,
            rotation: 0,
        },
    }
}

/// Look the statistics of a variant up. The table is total by construction:
/// every declared variant has exactly one entry.
pub fn get_stats(variant: AutomatonVariant) -> (stats: AutomatonStats)
    ensures
        stats == spec_stats(variant),
{
    match variant {
        AutomatonVariant::Hellmite => AutomatonStats {
            distance_from_origin: 2500,
            cooldown: 2500,
            currency_per_tick: 1,
            scale: 250,
            base_cost: 25,
            ratio: 105,
            required_previous: 25,
            rotation: 50,
        },
        AutomatonVariant::Abyssopod => AutomatonStats {
            distance_from_origin: 3500,
            cooldown: 7500,
            currency_per_tick: 20,
            scale: 350,
            base_cost: 100,
            ratio: 110,
            required_previous: 20,
            rotation: -50,
        },
        AutomatonVariant::GapingDubine => AutomatonStats {
            distance_from_origin: 5000,
            cooldown: 15000,
            currency_per_tick: 45,
            scale: 500,
            base_cost: 500,
            ratio: 125,
            required_previous: 15,
            rotation: 50,
        },
        AutomatonVariant::GazingHoku => AutomatonStats {
            distance_from_origin: 7000,
            cooldown: 30000,
            currency_per_tick: 120,
            scale: 600,
            base_cost: 2500,
            ratio: 145,
            required_previous: 10,
            rotation: -50,
        },
        AutomatonVariant::Lorgner => AutomatonStats {
            distance_from_origin: 10000,
            cooldown: 50000,
            currency_per_tick: 625,
            scale: 750,
            base_cost: 12500,
            ratio: 160,
            required_previous: 8,
            rotation: 50,
        },
        AutomatonVariant::PelteLacerte => AutomatonStats {
            distance_from_origin: 13000,
            cooldown: 60000,
            currency_per_tick: 1500,
            scale: 800,
            base_cost: 62500,
            ratio: 175,
            required_previous: 6,
            rotation: -50,
        },
        AutomatonVariant::Struthios => AutomatonStats {
            distance_from_origin: 16000,
            cooldown: 90000,
            currency_per_tick: 5000,
            scale: 900,
            base_cost: 62500,
            ratio: 180,
            required_previous: 5,
            rotation: 50,
        },
        AutomatonVariant::WoolyChionoescent => AutomatonStats {
            distance_from_origin: 20000,
            cooldown: 120000,
            currency_per_tick: 150000,
            scale: 1000,
            base_cost: 1562500,
            ratio: 200,
            required_previous: 2,
            rotation: -50,
        },
        AutomatonVariant::Portal => AutomatonStats {
            distance_from_origin: 0,
            cooldown: 1000,
            currency_per_tick: 0,
            scale: 0,
            base_cost: 0,
            ratio: 100,
            required_previous: 0,
            rotation: 0,
        },
    }
}

/// Facts about the table that the rest of the library leans on: every
/// cooldown is positive, every per-tick yield is modest, every ratio is at
/// least 1, and every variant but the Portal has a ratio above 1 with a
/// base cost large enough that the cost curve strictly increases.
pub proof fn lemma_catalog_well_formed(variant: AutomatonVariant)
    ensures
        spec_stats(variant).cooldown > 0,
        spec_stats(variant).currency_per_tick <= 150000,
        spec_stats(variant).ratio >= 100,
        variant != AutomatonVariant::Portal ==> spec_stats(variant).ratio > 100
            && spec_stats(variant).base_cost * (spec_stats(variant).ratio - 100) >= 100,
{
}

} // verus!
