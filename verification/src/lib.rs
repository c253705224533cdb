//! A deterministic asset registry: uniquely identified records ("kitties"),
//! a per-owner index bounded by a configured capacity, and ownership
//! transfer, with every operation committing all-or-nothing.

pub mod identity;
pub mod laws;
pub mod pallet;
pub mod types;
