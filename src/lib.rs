//! Builds an index from project names to candidate README locations for the
//! registry entries that changed between two snapshots of a registry tree.

pub mod text;
pub mod changes;
pub mod candidate;
pub mod entry;
pub mod index;
pub mod pipeline;
pub mod session;
