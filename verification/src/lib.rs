//! Aggregate win-rate statistics for one player's match history.
//!
//! The library accumulates per-matchup win/match counts, derives a
//! confidence-adjusted "win chance" as an exact rational number, ranks
//! matchups into summary reports, and scores candidate team compositions
//! against the player's history, resolving misspelled champion names by
//! fuzzy matching.

pub mod analyze;
pub mod champion_info;
pub mod ratio;
pub mod sorting;
pub mod table;
pub mod text;
pub mod win_rate_info;

pub use ratio::Ratio;
pub use win_rate_info::WinRateInfo;
