//! Per-process bookkeeping of free, held and awaited resource units.
pub mod banker;
pub mod class;
pub mod matrices;
pub mod sums;
