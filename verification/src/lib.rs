//! The core of a terminal music player: the list of audio files, the
//! shuffled playlist, the play queue, the history of played songs and the
//! command language typed at the prompt, with what each command does.
//!
//! The audio backend, the terminal and the file system stay with the
//! program around this library; the library tells it, through
//! [`player::Effect`], what to show and what to ask of the backend.

pub mod clock;
pub mod filelist;
pub mod history;
pub mod ma_wrapper;
pub mod player;
pub mod playlist;
pub mod queue;
pub mod text;
