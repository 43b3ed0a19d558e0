//! A transport-agnostic event observation library.
//!
//! The library contains the verified core of a small event server: a
//! wire-level HTTP codec, peer-provenance resolution, event-envelope
//! enrichment, output formatting, and bookkeeping for fanning lines out to
//! broadcast readers.  The surrounding process (sockets, signals, the clock
//! consumer) lives outside and hands the library plain values.

pub mod bytes;
pub mod clock;
pub mod envelope;
pub mod fanout;
pub mod format;
pub mod server;
pub mod json;
pub mod wire;
