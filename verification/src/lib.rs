//! Ordered, resumable retrieval of an exchange's trade history.
//!
//! The exchange serves its history in pages behind a cursor. This crate holds
//! everything about that protocol that can be decided without touching the
//! network: how a request is spelled, how a response body is decoded, how a
//! wire trade becomes a [`trade::Trade`], and the state machine that turns
//! pages into a stream of trades. All of it is verified against the
//! contracts written on it, but for the call into `serde_json` that reads
//! JSON: what that call gives is taken on trust and given a name.

pub mod api;
pub mod decimal;
pub mod error;
pub mod json;
pub mod kraken;
pub mod pagination;
pub mod text;
pub mod trade;
