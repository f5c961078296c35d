//! A chat bot's core logic: parsing what Twitch sends, building what the bot answers,
//! and the small games and polls it runs.

pub mod builtin;
pub mod clock;
pub mod color;
pub mod currentsong;
pub mod idlething;
pub mod invest;
pub mod poll;
pub mod queue;
pub mod relay;
pub mod request;
pub mod response;
pub mod rust_stuff;
pub mod shakespeare;
pub mod sort;
pub mod state;
pub mod tags;
pub mod template;
pub mod text;
pub mod twitch;
pub mod twitchpoll;
pub mod user;
pub mod util;

use vstd::prelude::*;

verus! {

} // verus!
