use vstd::prelude::*;

verus! {

/// The state that the audio backend and the player share.
#[derive(Clone, Copy, Debug)]
pub struct PlayerStatus {
    /// Non-zero while a song is loaded.
    pub playing: i32,
    /// Non-zero once the song has ended.
    pub ended: i32,
    /// Non-zero while playback is paused.
    pub pause: i32,
}

} // verus!
