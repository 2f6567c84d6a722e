//! A playback-queue engine for a media player.
//!
//! The queue holds an ordered store of playable items, tracks the currently
//! playing position, supports shuffling by an index permutation, several
//! un-shuffle reconciliation strategies, a short-term "play next" queue, and
//! a repeat policy applied at the end of the queue.

pub mod item;
pub mod laws;
pub mod queue;
pub mod util;
