//! Credit-spread candidates from an options-chain snapshot: selection of
//! eligible strikes, pairing, scoring, filtering and ordering.
pub mod chain;
pub mod ranking;
pub mod scoring;
pub mod engine;
pub mod laws;
