//! Presence snapshots for a small peer-to-peer overlay: the fixed-size wire
//! format, the per-peer ring buffer and the table of known peers, and the
//! decisions of the send and receive loops.
//!
//! Floating-point fields (position, facing) are carried as their IEEE-754 bit
//! patterns; the byte layout on the wire is identical either way.

pub mod wire;
pub mod ring;
pub mod clock;
pub mod table;
pub mod sender;
