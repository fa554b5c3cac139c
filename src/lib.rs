//! Reconciliation of two fleet snapshots into a per-sled, per-category diff.
//!
//! - `order`: lists in ascending order.
//! - `sled_map`: maps keyed by sled id.
//! - `zones`, `disks`, `datasets`: the diff of each category, sled by sled.
//! - `diff`: the aggregate diff and the classification of sleds.
//! - `laws`: properties proved of every diff.
//! - `report`, `display`: what a report of a diff shows, in its order.
//! - `zfs`: ZFS property values and dataset listings.
//! - `text`: text forms of ids and addresses.

pub mod order;
pub mod sled_map;
pub mod text;
pub mod zones;
pub mod disks;
pub mod datasets;
pub mod diff;
pub mod laws;
pub mod report;
pub mod display;
pub mod zfs;
