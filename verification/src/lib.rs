//! Leaderboard tracking for a yearly puzzle event that unlocks one puzzle per
//! day: the event calendar, the freshness policy of the leaderboard cache,
//! member ranking, and the comparison of successive snapshots.

pub mod api;
pub mod cache;
pub mod commands;
pub mod day;
pub mod diff;
pub mod fmt;
pub mod listing;
pub mod login;
pub mod mastodon;
pub mod messages;
pub mod models;
pub mod parser;
pub mod patterns;
pub mod ranking;
pub mod replacer;
pub mod scheduler;
pub mod text;
pub mod time;
pub mod ttl;
pub mod users;
