//! A three-party battle arena: deterministic randomness, battle resolution,
//! per-player statistics, bounded leaderboards and ledger migration.
pub mod arena;
pub mod battle;
pub mod bullpen;
pub mod bytes;
pub mod leaderboard;
pub mod migration;
pub mod queries;
pub mod rng;
pub mod stats;
pub mod store;
pub mod viewing_key;
