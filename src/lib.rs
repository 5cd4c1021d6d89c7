//! Tracks a ranked, paginated list of board games: plans which remote pages
//! cover a range of positions, drives page-by-page retrieval, and reconciles
//! the ranking against a set of entries that were already seen.

pub mod bgg_api;
pub mod error;
pub mod game;
pub mod number;
pub mod pagination;
pub mod progress;
pub mod reconcile;
