//! Capability and progress-accounting core of a streaming dataflow runtime.
//!
//! Operators exchange timestamped batches of records over channels. To let a
//! worker decide when no further data at or before some timestamp can ever
//! arrive, every right to produce output at a timestamp is tracked as an
//! outstanding obligation in a per-operator ledger. This crate provides the
//! ledger ([`progress::CountMap`]), the permission token that mutates it
//! ([`capability::Capability`]), counting adapters for the pull and push
//! sides of a channel ([`channels`]), and the input/output facades that
//! operator logic calls ([`handles`]). The accounting laws that the whole
//! layer obeys are stated and proved in [`laws`].

pub mod capability;
pub mod channels;
pub mod handles;
pub mod laws;
pub mod progress;
