//! The logic of a Discord bot that runs majority judgment polls: the text
//! forms of poll options and votes, the reading of the options a reply adds,
//! the vote bars and texts of options, and the decisions taken on events.

pub mod text;
pub mod decimal;
pub mod split;
pub mod utils;
pub mod config;
pub mod poll_display;
pub mod pollopt_to_sql;
pub mod dtos;
pub mod majority_commands;
pub mod majority_events;
pub mod discord_utils;
