use vstd::prelude::*;

verus! {

/// One kind of production unit. Declaration order defines the unlock chain:
/// every variant after `Portal` has the variant declared immediately before
/// it as its designated predecessor.
#[derive(Clone, Copy, Debug, PartialEq, Eq, Structural)]
pub enum AutomatonVariant {
    Portal,
    Hellmite,
    Abyssopod,
    GapingDubine,
    GazingHoku,
    Lorgner,
    PelteLacerte,
    Struthios,
    WoolyChionoescent,
}

/// How many variants exist, the Portal included.
pub const VARIANT_COUNT: usize = 9;

impl AutomatonVariant {
    /// Position of the variant in declaration order; the Portal is 0.
    pub open spec fn ordinal(self) -> int {
        match self {
            AutomatonVariant::Portal => 0,
            AutomatonVariant::Hellmite => 1,
            AutomatonVariant::Abyssopod => 2,
            AutomatonVariant::GapingDubine => 3,
            AutomatonVariant::GazingHoku => 4,
            AutomatonVariant::Lorgner => 5,
            AutomatonVariant::PelteLacerte => 6,
            AutomatonVariant::Struthios => 7,
            AutomatonVariant::WoolyChionoescent => 8,
        }
    }

    /// The variant declared immediately before this one, if any.
    pub open spec fn spec_predecessor(self) -> Option<AutomatonVariant> {
        match self {
            AutomatonVariant::Portal => None,
            AutomatonVariant::Hellmite => Some(AutomatonVariant::Portal),
            AutomatonVariant::Abyssopod => Some(AutomatonVariant::Hellmite),
            AutomatonVariant::GapingDubine => Some(AutomatonVariant::Abyssopod),
            AutomatonVariant::GazingHoku => Some(AutomatonVariant::GapingDubine),
            AutomatonVariant::Lorgner => Some(AutomatonVariant::GazingHoku),
            AutomatonVariant::PelteLacerte => Some(AutomatonVariant::Lorgner),
            AutomatonVariant::Struthios => Some(AutomatonVariant::PelteLacerte),
            AutomatonVariant::WoolyChionoescent => Some(AutomatonVariant::Struthios),
        }
    }

    /// Index of the variant in declaration order.
    pub fn index(self) -> (i: usize)
        ensures
            i == self.ordinal(),
            i < VARIANT_COUNT,
    {
        match self {
            AutomatonVariant::Portal => 0,
            AutomatonVariant::Hellmite => 1,
            AutomatonVariant::Abyssopod => 2,
            AutomatonVariant::GapingDubine => 3,
            AutomatonVariant::GazingHoku => 4,
            AutomatonVariant::Lorgner => 5,
            AutomatonVariant::PelteLacerte => 6,
            AutomatonVariant::Struthios => 7,
            AutomatonVariant::WoolyChionoescent => 8,
        }
    }

    /// The variant at a given position in declaration order.
    pub fn from_index(i: usize) -> (v: AutomatonVariant)
        requires
            i < VARIANT_COUNT,
        ensures
            v.ordinal() == i,
    {
        match i {
            0 => AutomatonVariant::Portal,
            1 => AutomatonVariant::Hellmite,
            2 => AutomatonVariant::Abyssopod,
            3 => AutomatonVariant::GapingDubine,
            4 => AutomatonVariant::GazingHoku,
            5 => AutomatonVariant::Lorgner,
            6 => AutomatonVariant::PelteLacerte,
            7 => AutomatonVariant::Struthios,
            _ => AutomatonVariant::WoolyChionoescent,
        }
    }

    /// The variant declared immediately before this one, if any.
    pub fn predecessor(self) -> (p: Option<AutomatonVariant>)
        ensures
            p == self.spec_predecessor(),
    {
        match self {
            AutomatonVariant::Portal => None,
            AutomatonVariant::Hellmite => Some(AutomatonVariant::Portal),
            AutomatonVariant::Abyssopod => Some(AutomatonVariant::Hellmite),
            AutomatonVariant::GapingDubine => Some(AutomatonVariant::Abyssopod),
            AutomatonVariant::GazingHoku => Some(AutomatonVariant::GapingDubine),
            AutomatonVariant::Lorgner => Some(AutomatonVariant::GazingHoku),
            AutomatonVariant::PelteLacerte => Some(AutomatonVariant::Lorgner),
            AutomatonVariant::Struthios => Some(AutomatonVariant::PelteLacerte),
            AutomatonVariant::WoolyChionoescent => Some(AutomatonVariant::Struthios),
        }
    }
}

} // verus!
