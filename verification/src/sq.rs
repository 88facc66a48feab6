//! The NRPN dialect of a mixing console: commands that travel as runs of
//! Control Change messages on channel 0.

pub mod message;
pub mod events;
