//! axon — deterministic financial-statement and audit analysis core.
//!
//! Every figure, total and check here is computed by plain, deterministic
//! code and carries a machine-checked contract.

pub mod text;
pub mod seqs;
pub mod strmap;
pub mod domain;
pub mod export;
pub mod port;
pub mod service;
pub mod daemon;
pub mod ledger;
pub mod dart;
