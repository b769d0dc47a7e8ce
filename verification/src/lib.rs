//! Progression and economy core of an incremental simulation: a catalog of
//! production-unit variants, a currency/ownership ledger with a plain-text
//! snapshot codec, an exponential cost curve with prerequisite gating, a
//! tick-driven production loop, and the circular formation layout and
//! feedback-token pool for the owned units.

pub mod automatons;
pub mod config;
pub mod cost;
pub mod data;
pub mod layout;
pub mod persist;
pub mod variant;

pub use automatons::Automaton;
pub use automatons::AutomatonOrb;
pub use automatons::Pos3;
pub use automatons::claim_orb;
pub use automatons::fresh_unit;
pub use automatons::orb_pool;
pub use automatons::travel_fraction_milli;
pub use automatons::update_automatons;
pub use config::AutomatonStats;
pub use config::get_stats;
pub use data::GameData;
pub use data::prerequisites_met;
pub use layout::RingSlot;
pub use layout::advance_rotation;
pub use layout::grow_formation;
pub use layout::nudged_radius;
pub use layout::ring_slots;
pub use variant::AutomatonVariant;
pub use variant::VARIANT_COUNT;
