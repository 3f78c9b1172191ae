//! A verified core for a subreddit digest bot.
//!
//! Users register, pick subreddits together with a weekday and an hour, and
//! receive a digest of top posts on that schedule, at most once per calendar
//! day. The crate verifies the pieces that carry the bot's logic: the
//! in-memory store semantics, the multi-step dialogs, the command handlers,
//! the due computation of the delivery task, and the message formatting.
//! Network transport and the clock live outside; they hand this crate plain
//! values and perform the messages and deliveries it decides on.

pub mod commands;
pub mod dialogs;
pub mod errors;
pub mod models;
pub mod reddit;
pub mod store;
pub mod subreddits;
pub mod task;
pub mod telegram;
pub mod textfmt;
pub mod time;

use vstd::prelude::*;

verus! {

} // verus!
