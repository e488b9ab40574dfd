//! The logic of the Moblin remote control assistant: who may connect, what is kept for a
//! streamer, and how chat messages from Twitch and YouTube reach it.

use vstd::prelude::*;

pub mod assistant;
pub mod laws;
pub mod model;
pub mod protocol;
pub mod segments;
pub mod streamer;
pub mod streamer_laws;
pub mod streamers;
pub mod text;
pub mod time;
pub mod twitch;
pub mod twitch_laws;
pub mod utils;
pub mod youtube;
pub mod youtube_laws;

verus! {

} // verus!
