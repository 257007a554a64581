//! A deterministic, manually stepped simulation of a pool of message-driven
//! participants exchanging the envelopes of a three-phase agreement protocol.
//!
//! * [`dto`] holds the payload records and the per-participant store.
//! * [`node`] holds the envelope, the participant and its controller.
//! * [`network`] holds the dispatcher: registry, pending queue and single-step
//!   delivery.
pub mod dto;
pub mod node;
pub mod network;
