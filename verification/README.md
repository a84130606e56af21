# Terminal music player, verified core

A terminal music player: it plays the audio files found under the paths
given on its command line, in a shuffled order, and takes commands at a
prompt (play, pause, seek, next, previous, a play queue, the history of
played songs, and editing of the file list).

## Layout

- `src/` is the library, verified with Verus:
  - `filelist.rs`: the numbered list of audio files, its sorting and
    removal by id or by path pattern, and the extension check for scanned
    files;
  - `playlist.rs`: the shuffled playlist: the placement of the songs by
    the clock's draws (`place_by_draws`, `playlist_by_draws`) and the proof
    that a shuffle holds every file exactly once, whatever the draws;
  - `queue.rs`, `history.rs`: the play queue and the history;
  - `player.rs`: the command language and what each command does to the
    player's state (`command_outcome`), the choice of the next song, and
    how the end of a song is recorded in the history (`finish_song`);
  - `text.rs`: the text operations the parser needs (splitting, trimming,
    decimal numbers, substring search, string order), each with its
    contract;
  - `clock.rs`: the reading of the system clock that drives the shuffle.
- `tests/` runs the library on concrete values.
- `app/` is the program: argument handling, the directory scan, the audio
  backend (a C library reached through FFI), the prompt thread and the
  printing of what the library reports.
