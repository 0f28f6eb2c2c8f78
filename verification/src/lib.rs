//! A point-in-time snapshot of a Linux host's storage and CPU topology,
//! built by parsing kernel-exposed text interfaces: the per-process mount
//! table, per-block-device attribute files, and the CPU descriptor table.
//!
//! The parsing and classification logic lives here, fully specified and
//! verified; reading the pseudo-files themselves is left to the caller.

pub mod cpu;
pub mod disk;
pub mod filesystem;
pub mod text;
