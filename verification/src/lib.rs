//! Esclusa gate: policy gate, tamper-evident ledger and topology reconciliation
//! for agent-driven infrastructure.

pub mod clock;
pub mod db;
pub mod demo;
pub mod evaluation;
pub mod http;
pub mod json;
pub mod ledger;
pub mod lists;
pub mod policy;
pub mod probe;
pub mod rate_limit;
pub mod reconcile;
pub mod state;
pub mod sync;
pub mod text;
pub mod topology;
pub mod watch;
