//! Pari-mutuel race wagering: a verified settlement state machine.
//!
//! A race ledger accumulates stakes per outcome into a shared pool; once the
//! race authority fixes the winning outcome, each winning wager is paid
//! `floor(amount * total_pool / total_on_winner)` exactly once. The modules
//! prove the accounting invariants: the pool always equals the sum of the
//! per-outcome totals, the pool never shrinks before finalization, a race is
//! finalized at most once, and a wager record is paid out at most once.

pub mod engine;
pub mod laws;
pub mod state;
pub mod store;
