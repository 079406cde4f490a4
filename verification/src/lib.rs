//! The rules of a Discord bot that tells a channel when a link has been posted before.
//!
//! The crate holds what the bot decides and computes; talking to Discord and to the database is
//! left to the program around it.

pub mod answers;
pub mod conduct;
pub mod counting;
pub mod discord_handler;
pub mod domains;
pub mod laws;
pub mod links;
pub mod migration;
pub mod moment;
pub mod order;
pub mod posts;
pub mod ranking;
pub mod reports;
pub mod repost_checker;
pub mod sorted_texts;
pub mod text;
pub mod users;
