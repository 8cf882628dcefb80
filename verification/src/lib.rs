//! A GPU monitoring and control library: the verified core of a privileged
//! daemon that samples hardware sensors exposed as plain-text control
//! files and applies operator policies — a fan curve and a power cap —
//! back onto the hardware.
//!
//! The library owns every decision: reading a control file's text as a
//! value, converting firmware units, interpolating the fan curve into a
//! duty value each tick, validating a requested power cap, the idempotent
//! start/stop protocol of the per-device loop worker, device identity
//! across re-enumeration, and the persisted configuration document with
//! its proved save/load round trip.  An unverified rim around it performs
//! the file reads and writes, the timing, and the client channel, handing
//! the library plain values and carrying its answers back to the hardware.

pub mod codec;
pub mod config;
pub mod curve;
pub mod dispatch;
pub mod hw_mon;
pub mod numtext;
