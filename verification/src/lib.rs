//! Verified core of a small event-booking backend: an in-memory wallet
//! ledger with an append-only transaction history, a per-user event
//! registration store, a payment-gateway signature check, and the
//! orchestration rules that tie them together.

pub mod auth;
pub mod catalog;
pub mod wallet;
pub mod ids;
pub mod leaderboard;
pub mod orchestrator;
pub mod orders;
pub mod payment;
pub mod registry;
pub mod wallet_store;
