//! Receiver for delimited, byte-stuffed telemetry frames.
//!
//! A remote sender emits measurement frames over a byte link. Each frame is a
//! byte-stuffed sequence ending in a reserved delimiter byte; the payload is a
//! compact self-describing binary map. This crate recovers frame boundaries
//! (`unframe`), decodes the payload into a generic value tree (`cbor`),
//! projects that tree into a typed record (`frame`), classifies every failure
//! (`error`), and decides the per-failure policy of the driver loop
//! (`driver`). All of it is verified; the surrounding I/O lives outside.

pub mod cbor;
pub mod driver;
pub mod error;
pub mod frame;
pub mod unframe;
