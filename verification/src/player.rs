use std::collections::BTreeMap;
use std::collections::VecDeque;
use vstd::prelude::*;
use vstd::string::StringExecFns;
use crate::filelist::{FileInfo, first_with_listing, lemma_first_with_listing, lemma_ids_are_ordered};
use crate::ma_wrapper::PlayerStatus;
use crate::queue::{dequeue_at, enqueue_at, enqueue_many, enqueued_at, lemma_dequeue_undoes_enqueue};
use crate::history::get_and_pop;
use crate::playlist::{next as playlist_next, retain_listed, update};
use crate::queue::next as queue_next;
use crate::filelist::{path_matches, remove, remove_by_pattern};
use crate::text::{
    decimal_of, decimal_string, i32_of, leading_whitespace, parse_i32, parse_usize, same_text,
    split_at_each, split_on, split_once, split_once_at, trim_start, usize_of, views,
};

verus! {

/// A command typed at the player's prompt.
pub enum Command {
    // player
    Play,
    Pause,
    TogglePause,
    Seek { target_sec: i32 },
    Info,
    Quit,
    // queue
    QueueAdd { file_idxs: Vec<usize> },
    QueueRemove { with_index: bool, index: usize },
    QueueMove { from: usize, to: usize },
    ViewQueue,
    // history
    Next,
    Previous,
    ViewHistory,
    // playlist and files
    ViewPlaylist,
    ViewFiles { full_path: bool },
    RemoveFileById { id: usize },
    RemoveByPattern { pattern: String },
    // other
    Unknown { cmd: String },
    Error { msg: String },
    Empty,
}

/// The mathematical value of a `Command`: its texts and lists as sequences.
pub enum CommandModel {
    Play,
    Pause,
    TogglePause,
    Seek { target_sec: i32 },
    Info,
    Quit,
    QueueAdd { file_idxs: Seq<usize> },
    QueueRemove { with_index: bool, index: usize },
    QueueMove { from: usize, to: usize },
    ViewQueue,
    Next,
    Previous,
    ViewHistory,
    ViewPlaylist,
    ViewFiles { full_path: bool },
    RemoveFileById { id: usize },
    RemoveByPattern { pattern: Seq<char> },
    Unknown { cmd: Seq<char> },
    Error { msg: Seq<char> },
    Empty,
}

impl View for Command {
    type V = CommandModel;

    open spec fn view(&self) -> CommandModel {
        match self {
            Command::Play => CommandModel::Play,
            Command::Pause => CommandModel::Pause,
            Command::TogglePause => CommandModel::TogglePause,
            Command::Seek { target_sec } => CommandModel::Seek { target_sec: *target_sec },
            Command::Info => CommandModel::Info,
            Command::Quit => CommandModel::Quit,
            Command::QueueAdd { file_idxs } => CommandModel::QueueAdd { file_idxs: file_idxs@ },
            Command::QueueRemove { with_index, index } => CommandModel::QueueRemove {
                with_index: *with_index,
                index: *index,
            },
            Command::QueueMove { from, to } => CommandModel::QueueMove { from: *from, to: *to },
            Command::ViewQueue => CommandModel::ViewQueue,
            Command::Next => CommandModel::Next,
            Command::Previous => CommandModel::Previous,
            Command::ViewHistory => CommandModel::ViewHistory,
            Command::ViewPlaylist => CommandModel::ViewPlaylist,
            Command::ViewFiles { full_path } => CommandModel::ViewFiles { full_path: *full_path },
            Command::RemoveFileById { id } => CommandModel::RemoveFileById { id: *id },
            Command::RemoveByPattern { pattern } => CommandModel::RemoveByPattern {
                pattern: pattern@,
            },
            Command::Unknown { cmd } => CommandModel::Unknown { cmd: cmd@ },
            Command::Error { msg } => CommandModel::Error { msg: msg@ },
            Command::Empty => CommandModel::Empty,
        }
    }
}

/// The message for a command that needs an argument and got none.
pub open spec fn no_argument_msg() -> Seq<char> {
    "Expect at least one argument, but nothing is provided."@
}

/// The message for an argument that is no number.
pub open spec fn not_number_msg(arg: Seq<char>) -> Seq<char> {
    "Expect number but got `"@ + arg + "`"@
}

/// What `remove` and `r` mean, given the command split at its first space.
pub open spec fn remove_command(cmd: Seq<Seq<char>>) -> CommandModel {
    if cmd.len() < 2 {
        CommandModel::Error { msg: no_argument_msg() }
    } else {
        match usize_of(cmd[1]) {
            Some(id) => CommandModel::RemoveFileById { id },
            None => CommandModel::Error { msg: not_number_msg(cmd[1]) },
        }
    }
}

/// What `remove_pattern` and `rp` mean: the whole rest of the line is the
/// case sensitive pattern.
pub open spec fn remove_pattern_command(cmd: Seq<Seq<char>>) -> CommandModel {
    if cmd.len() < 2 {
        CommandModel::Error { msg: no_argument_msg() }
    } else {
        CommandModel::RemoveByPattern { pattern: cmd[1] }
    }
}

/// What `seek` means, given the command split at its first space.
pub open spec fn seek_command(cmd: Seq<Seq<char>>) -> CommandModel {
    if cmd.len() < 2 {
        CommandModel::Error { msg: no_argument_msg() }
    } else {
        match i32_of(cmd[1]) {
            Some(target_sec) => CommandModel::Seek { target_sec },
            None => CommandModel::Error { msg: not_number_msg(cmd[1]) },
        }
    }
}

/// What `dequeue` and `deq` mean: without an argument the front of the
/// queue; with one, the position that its first word gives.
pub open spec fn dequeue_command(cmd: Seq<Seq<char>>) -> CommandModel {
    if cmd.len() < 2 {
        CommandModel::QueueRemove { with_index: false, index: 0 }
    } else {
        let args = split_on(cmd[1], ' ');
        match usize_of(args[0]) {
            Some(n) => CommandModel::QueueRemove { with_index: true, index: n },
            None => CommandModel::Error { msg: not_number_msg(args[0]) },
        }
    }
}

/// The numbers that the words `args` write, or the first word that writes
/// none.
pub open spec fn numbers_of(args: Seq<Seq<char>>) -> Result<Seq<usize>, Seq<char>>
    decreases args.len(),
{
    if args.len() == 0 {
        Ok(Seq::empty())
    } else {
        match usize_of(args[0]) {
            None => Err(args[0]),
            Some(v) => match numbers_of(args.drop_first()) {
                Ok(rest) => Ok(seq![v] + rest),
                Err(e) => Err(e),
            },
        }
    }
}

/// What `enqueue` and `enq` mean: each space-separated word is a file id.
pub open spec fn enqueue_command(cmd: Seq<Seq<char>>) -> CommandModel {
    if cmd.len() < 2 {
        CommandModel::Error { msg: no_argument_msg() }
    } else {
        match numbers_of(split_on(cmd[1], ' ')) {
            Ok(file_idxs) => CommandModel::QueueAdd { file_idxs },
            Err(arg) => CommandModel::Error { msg: not_number_msg(arg) },
        }
    }
}

/// What `movequeue` and `mvq` mean: exactly two space-separated positions.
/// A second argument that is no number is reported with the first one.
pub open spec fn movequeue_command(cmd: Seq<Seq<char>>) -> CommandModel {
    if cmd.len() != 2 {
        CommandModel::Error { msg: "Expect 2 argument, but nothing provided."@ }
    } else {
        let args = split_on(cmd[1], ' ');
        if args.len() != 2 {
            CommandModel::Error {
                msg: "Expect 2 argument, but "@ + decimal_of(args.len()) + " is given."@,
            }
        } else {
            match (usize_of(args[0]), usize_of(args[1])) {
                (None, _) => CommandModel::Error { msg: not_number_msg(args[0]) },
                (Some(_), None) => CommandModel::Error { msg: not_number_msg(args[0]) },
                (Some(from), Some(to)) => CommandModel::QueueMove { from, to },
            }
        }
    }
}

/// What a line typed at the prompt means: leading whitespace is skipped, the
/// first word up to a space names the command, the rest is its argument.
pub open spec fn command_of(input: Seq<char>) -> CommandModel {
    let cmd = split_once(input.skip(leading_whitespace(input) as int), ' ');
    let word = cmd[0];
    if word == "play"@ {
        CommandModel::Play
    } else if word == "pause"@ {
        CommandModel::Pause
    } else if word == "p"@ {
        CommandModel::TogglePause
    } else if word == "seek"@ {
        seek_command(cmd)
    } else if word == "info"@ {
        CommandModel::Info
    } else if word == "q"@ || word == "quit"@ || word == "exit"@ {
        CommandModel::Quit
    } else if word == "enqueue"@ || word == "enq"@ {
        enqueue_command(cmd)
    } else if word == "dequeue"@ || word == "deq"@ {
        dequeue_command(cmd)
    } else if word == "movequeue"@ || word == "mvq"@ {
        movequeue_command(cmd)
    } else if word == "queue"@ {
        CommandModel::ViewQueue
    } else if word == "next"@ || word == "n"@ {
        CommandModel::Next
    } else if word == "previous"@ || word == "prev"@ {
        CommandModel::Previous
    } else if word == "history"@ || word == "hist"@ {
        CommandModel::ViewHistory
    } else if word == "playlist"@ {
        CommandModel::ViewPlaylist
    } else if word == "files"@ {
        CommandModel::ViewFiles { full_path: true }
    } else if word == "f"@ {
        CommandModel::ViewFiles { full_path: false }
    } else if word == "remove"@ || word == "r"@ {
        remove_command(cmd)
    } else if word == "remove_pattern"@ || word == "rp"@ {
        remove_pattern_command(cmd)
    } else if word == ""@ {
        CommandModel::Empty
    } else {
        CommandModel::Unknown { cmd: word }
    }
}

fn no_argument_error() -> (c: Command)
    ensures
        c@ == (CommandModel::Error { msg: no_argument_msg() }),
{
    Command::Error {
        msg: String::from_str("Expect at least one argument, but nothing is provided."),
    }
}

fn not_number_error(arg: &str) -> (c: Command)
    ensures
        c@ == (CommandModel::Error { msg: not_number_msg(arg@) }),
{
    let msg = String::from_str("Expect number but got `").concat(arg).concat("`");
    Command::Error { msg }
}

fn parse_remove_command(cmd: &Vec<&str>) -> (c: Command)
    requires
        cmd@.len() >= 1,
    ensures
        c@ == remove_command(views(cmd@)),
{
    if cmd.len() < 2 {
        return no_argument_error();
    }
    match parse_usize(cmd[1]) {
        Some(id) => Command::RemoveFileById { id },
        None => not_number_error(cmd[1]),
    }
}

fn parse_remove_pattern_command(cmd: &Vec<&str>) -> (c: Command)
    requires
        cmd@.len() >= 1,
    ensures
        c@ == remove_pattern_command(views(cmd@)),
{
    if cmd.len() < 2 {
        return no_argument_error();
    }
    Command::RemoveByPattern { pattern: String::from_str(cmd[1]) }
}

fn parse_seek_command(cmd: &Vec<&str>) -> (c: Command)
    requires
        cmd@.len() >= 1,
    ensures
        c@ == seek_command(views(cmd@)),
{
    if cmd.len() < 2 {
        return no_argument_error();
    }
    match parse_i32(cmd[1]) {
        Some(target_sec) => Command::Seek { target_sec },
        None => not_number_error(cmd[1]),
    }
}

proof fn lemma_split_on_nonempty(s: Seq<char>, c: char)
    ensures
        split_on(s, c).len() >= 1,
{
    reveal_with_fuel(split_on, 1);
}

fn parse_dequeue_command(cmd: &Vec<&str>) -> (c: Command)
    requires
        cmd@.len() >= 1,
    ensures
        c@ == dequeue_command(views(cmd@)),
{
    let mut queue_idx: usize = 0;
    let mut with_index = false;
    if cmd.len() < 2 {
        return Command::QueueRemove { with_index, index: queue_idx };
    }
    with_index = true;
    let args = split_at_each(cmd[1], ' ');
    proof {
        lemma_split_on_nonempty(cmd@[1]@, ' ');
    }
    match parse_usize(args[0]) {
        Some(n) => queue_idx = n,
        None => return not_number_error(args[0]),
    }
    return Command::QueueRemove { with_index, index: queue_idx };
}

fn parse_enqueue_command(cmd: &Vec<&str>) -> (c: Command)
    requires
        cmd@.len() >= 1,
    ensures
        c@ == enqueue_command(views(cmd@)),
{
    if cmd.len() < 2 {
        return no_argument_error();
    }
    let args = split_at_each(cmd[1], ' ');
    let ghost words = views(args@);
    let mut files: Vec<usize> = Vec::new();
    assert(words.skip(0) =~= words);
    for k in 0..args.len()
        invariant
            cmd@.len() >= 2,
            words == views(args@),
            words == split_on(cmd@[1]@, ' '),
            numbers_of(words) == match numbers_of(words.skip(k as int)) {
                Ok(rest) => Ok(files@ + rest),
                Err(e) => Err(e),
            },
    {
        let arg = args[k];
        assert(words.skip(k as int).drop_first() =~= words.skip(k + 1));
        assert(words.skip(k as int)[0] == arg@);
        let ghost before = files@;
        match parse_usize(arg) {
            Some(n) => {
                files.push(n);
                proof {
                    match numbers_of(words.skip(k + 1)) {
                        Ok(rest) => {
                            assert(before + (seq![n] + rest) =~= files@ + rest);
                        },
                        Err(e) => {},
                    }
                }
            },
            None => {
                return not_number_error(arg);
            },
        }
    }
    assert(words.skip(args@.len() as int) =~= Seq::<Seq<char>>::empty());
    Command::QueueAdd { file_idxs: files }
}

fn parse_movequeue_command(cmd: &Vec<&str>) -> (c: Command)
    requires
        cmd@.len() >= 1,
    ensures
        c@ == movequeue_command(views(cmd@)),
{
    if cmd.len() != 2 {
        return Command::Error { msg: String::from_str("Expect 2 argument, but nothing provided.") };
    }
    let from;
    let to;
    {
        let args = split_at_each(cmd[1], ' ');
        if args.len() != 2 {
            let msg = String::from_str("Expect 2 argument, but ").concat(
                decimal_string(args.len()).as_str(),
            ).concat(" is given.");
            return Command::Error { msg };
        }
        match parse_usize(args[0]) {
            Some(n) => from = n,
            None => return not_number_error(args[0]),
        }
        match parse_usize(args[1]) {
            Some(n) => to = n,
            None => return not_number_error(args[0]),
        }
    }
    Command::QueueMove { from, to }
}

/// Reads a line typed at the prompt as a command.
pub fn parse_command(user_input: String) -> (c: Command)
    ensures
        c@ == command_of(user_input@),
{
    let cmd = split_once_at(trim_start(user_input.as_str()), ' ');
    let word = cmd[0];
    if same_text(word, "play") {
        Command::Play
    } else if same_text(word, "pause") {
        Command::Pause
    } else if same_text(word, "p") {
        Command::TogglePause
    } else if same_text(word, "seek") {
        parse_seek_command(&cmd)
    } else if same_text(word, "info") {
        Command::Info
    } else if same_text(word, "q") || same_text(word, "quit") || same_text(word, "exit") {
        Command::Quit
    } else if same_text(word, "enqueue") || same_text(word, "enq") {
        parse_enqueue_command(&cmd)
    } else if same_text(word, "dequeue") || same_text(word, "deq") {
        parse_dequeue_command(&cmd)
    } else if same_text(word, "movequeue") || same_text(word, "mvq") {
        parse_movequeue_command(&cmd)
    } else if same_text(word, "queue") {
        Command::ViewQueue
    } else if same_text(word, "next") || same_text(word, "n") {
        Command::Next
    } else if same_text(word, "previous") || same_text(word, "prev") {
        Command::Previous
    } else if same_text(word, "history") || same_text(word, "hist") {
        Command::ViewHistory
    } else if same_text(word, "playlist") {
        Command::ViewPlaylist
    } else if same_text(word, "files") {
        Command::ViewFiles { full_path: true }
    } else if same_text(word, "f") {
        Command::ViewFiles { full_path: false }
    } else if same_text(word, "remove") || same_text(word, "r") {
        parse_remove_command(&cmd)
    } else if same_text(word, "remove_pattern") || same_text(word, "rp") {
        parse_remove_pattern_command(&cmd)
    } else if same_text(word, "") {
        Command::Empty
    } else {
        Command::Unknown { cmd: String::from_str(word) }
    }
}

/// How a command bears on the song that is playing.
#[derive(PartialEq, Eq, Structural, Clone, Copy, Debug)]
pub enum CommandInterrupt {
    /// Skip to the next song.
    Next,
    /// Go back to the song played before.
    Previous,
    /// Leave the player.
    Quit,
    /// Keep playing.
    Continue,
}

/// Something the player has to do or to tell its user after a command.
#[derive(Debug)]
pub enum Effect {
    /// Move the playing song to `target_sec`.
    SeekTo { target_sec: i32 },
    /// Show the state of the player and the song `file_idx`.
    ShowInfo { file_idx: usize },
    /// Show the queue.
    ShowQueue,
    /// Show the history.
    ShowHistory,
    /// Show the playlist.
    ShowPlaylist,
    /// Show the file list, with full paths or with names.
    ShowFiles { full_path: bool },
    /// The file `file_idx` is not on the file list.
    FileNotListed { file_idx: usize },
    /// The playing song `file_idx` could not be put back into the queue:
    /// it is no longer on the file list.
    PlayingFileNotListed { file_idx: usize },
    /// There is nothing at `queue_index` to take out of the queue.
    CannotDequeue { queue_index: usize },
    /// A move within an empty queue.
    MoveInEmptyQueue { from: usize, to: usize },
    /// A move within a queue of one song.
    MoveInSingleQueue { from: usize, to: usize },
    /// A move from a position past the queue's end.
    MoveFromOutOfRange { from: usize },
    /// A move to a position past the queue's end.
    MoveToOutOfRange { to: usize },
    /// There is no song to go back to.
    HistoryEmpty,
    /// The file called `name` was taken off the list.
    FileRemoved { name: String },
    /// There is no file `id` to take off the list.
    NoSuchFile { id: usize },
    /// The command word `cmd` means nothing.
    UnknownCommand { cmd: String },
    /// The command could not be read.
    CommandError { msg: String },
}

/// The mathematical value of an `Effect`.
pub enum EffectModel {
    SeekTo { target_sec: i32 },
    ShowInfo { file_idx: usize },
    ShowQueue,
    ShowHistory,
    ShowPlaylist,
    ShowFiles { full_path: bool },
    FileNotListed { file_idx: usize },
    PlayingFileNotListed { file_idx: usize },
    CannotDequeue { queue_index: usize },
    MoveInEmptyQueue { from: usize, to: usize },
    MoveInSingleQueue { from: usize, to: usize },
    MoveFromOutOfRange { from: usize },
    MoveToOutOfRange { to: usize },
    HistoryEmpty,
    FileRemoved { name: Seq<char> },
    NoSuchFile { id: usize },
    UnknownCommand { cmd: Seq<char> },
    CommandError { msg: Seq<char> },
}

impl View for Effect {
    type V = EffectModel;

    open spec fn view(&self) -> EffectModel {
        match self {
            Effect::SeekTo { target_sec } => EffectModel::SeekTo { target_sec: *target_sec },
            Effect::ShowInfo { file_idx } => EffectModel::ShowInfo { file_idx: *file_idx },
            Effect::ShowQueue => EffectModel::ShowQueue,
            Effect::ShowHistory => EffectModel::ShowHistory,
            Effect::ShowPlaylist => EffectModel::ShowPlaylist,
            Effect::ShowFiles { full_path } => EffectModel::ShowFiles { full_path: *full_path },
            Effect::FileNotListed { file_idx } => EffectModel::FileNotListed { file_idx: *file_idx },
            Effect::PlayingFileNotListed { file_idx } => EffectModel::PlayingFileNotListed {
                file_idx: *file_idx,
            },
            Effect::CannotDequeue { queue_index } => EffectModel::CannotDequeue {
                queue_index: *queue_index,
            },
            Effect::MoveInEmptyQueue { from, to } => EffectModel::MoveInEmptyQueue {
                from: *from,
                to: *to,
            },
            Effect::MoveInSingleQueue { from, to } => EffectModel::MoveInSingleQueue {
                from: *from,
                to: *to,
            },
            Effect::MoveFromOutOfRange { from } => EffectModel::MoveFromOutOfRange { from: *from },
            Effect::MoveToOutOfRange { to } => EffectModel::MoveToOutOfRange { to: *to },
            Effect::HistoryEmpty => EffectModel::HistoryEmpty,
            Effect::FileRemoved { name } => EffectModel::FileRemoved { name: name@ },
            Effect::NoSuchFile { id } => EffectModel::NoSuchFile { id: *id },
            Effect::UnknownCommand { cmd } => EffectModel::UnknownCommand { cmd: cmd@ },
            Effect::CommandError { msg } => EffectModel::CommandError { msg: msg@ },
        }
    }
}

/// The values of a list of effects.
pub open spec fn effect_models(effects: Seq<Effect>) -> Seq<EffectModel> {
    effects.map_values(|e: Effect| e@)
}

/// Everything a command may change: the player's status, the playlist, the
/// queue, the history and the file list.
pub struct PlayerState {
    pub status: PlayerStatus,
    pub playlist: Seq<usize>,
    pub queue: Seq<usize>,
    pub history: Seq<usize>,
    pub files: Map<usize, FileInfo>,
}

/// What a command leaves behind.
pub struct Outcome {
    pub state: PlayerState,
    pub interrupt: CommandInterrupt,
    pub effects: Seq<EffectModel>,
}

/// The outcome that changes nothing but reports `effects`.
pub open spec fn report(s: PlayerState, interrupt: CommandInterrupt, effects: Seq<EffectModel>) -> Outcome {
    Outcome { state: s, interrupt, effects }
}

/// `s` with the pause flag set to `pause`.
pub open spec fn with_pause(s: PlayerState, pause: i32) -> PlayerState {
    PlayerState { status: PlayerStatus { pause, ..s.status }, ..s }
}

/// `ids` with the first entry that is not on the file list dropped.
pub open spec fn without_first_unlisted(ids: Seq<usize>, files: Map<usize, FileInfo>) -> Seq<usize> {
    let j = first_with_listing(ids, files, false);
    if j < ids.len() {
        ids.remove(j)
    } else {
        ids
    }
}

/// The queue after `enqueue_at` with `file_idx` at `queue_idx`.
pub open spec fn queued_if_listed(
    q: Seq<usize>,
    queue_idx: usize,
    file_idx: usize,
    files: Map<usize, FileInfo>,
) -> Seq<usize> {
    if files.contains_key(file_idx) {
        enqueued_at(q, queue_idx, file_idx)
    } else {
        q
    }
}

/// What `movequeue from to` does.
pub open spec fn move_in_queue(s: PlayerState, from: usize, to: usize) -> Outcome {
    let q = s.queue;
    if q.len() == 0 {
        report(s, CommandInterrupt::Continue, seq![EffectModel::MoveInEmptyQueue { from, to }])
    } else if q.len() == 1 {
        report(s, CommandInterrupt::Continue, seq![EffectModel::MoveInSingleQueue { from, to }])
    } else if q.len() <= from {
        report(s, CommandInterrupt::Continue, seq![EffectModel::MoveFromOutOfRange { from }])
    } else if q.len() <= to {
        report(s, CommandInterrupt::Continue, seq![EffectModel::MoveToOutOfRange { to }])
    } else {
        let moved = q[from as int];
        report(
            PlayerState { queue: queued_if_listed(q.remove(from as int), to, moved, s.files), ..s },
            CommandInterrupt::Continue,
            Seq::empty(),
        )
    }
}

/// What `previous` does while `current` is playing: the last song of the
/// history goes to the front of the queue, followed by `current`, and the
/// playing song is interrupted. A song that is no longer on the file list is
/// reported and not queued; when that is the last song of the history, the
/// command is ignored but for the history losing that song.
pub open spec fn go_previous(s: PlayerState, current: usize) -> Outcome {
    let h = s.history;
    if h.len() == 0 {
        report(s, CommandInterrupt::Continue, seq![EffectModel::HistoryEmpty])
    } else {
        let last = h.last();
        let current_listed = s.files.contains_key(current);
        let q1 = queued_if_listed(s.queue, 0, current, s.files);
        let e1: Seq<EffectModel> = if current_listed {
            Seq::empty()
        } else {
            seq![EffectModel::PlayingFileNotListed { file_idx: current }]
        };
        if !s.files.contains_key(last) {
            report(
                PlayerState { history: h.drop_last(), ..s },
                CommandInterrupt::Continue,
                e1.push(EffectModel::FileNotListed { file_idx: last }),
            )
        } else {
            report(
                PlayerState {
                    history: h.drop_last(),
                    queue: enqueued_at(q1, 0, last),
                    status: PlayerStatus { pause: 1, ..s.status },
                    ..s
                },
                CommandInterrupt::Previous,
                e1,
            )
        }
    }
}

/// What taking the file `id` off the list does: the playlist and the queue
/// each lose their first entry that is no longer listed.
pub open spec fn remove_file(s: PlayerState, id: usize) -> Outcome {
    let files = s.files.remove(id);
    let e = if s.files.contains_key(id) {
        EffectModel::FileRemoved { name: s.files[id].name@ }
    } else {
        EffectModel::NoSuchFile { id }
    };
    report(
        PlayerState {
            files,
            playlist: without_first_unlisted(s.playlist, files),
            queue: without_first_unlisted(s.queue, files),
            ..s
        },
        CommandInterrupt::Continue,
        seq![e],
    )
}

/// The file list without the files whose path contains `pattern`.
pub open spec fn without_matching(files: Map<usize, FileInfo>, pattern: Seq<char>) -> Map<
    usize,
    FileInfo,
> {
    files.restrict(files.dom().filter(|k: usize| !path_matches(files[k], pattern)))
}

/// What taking off the list the files whose path contains `pattern` does:
/// the playlist and the queue lose every song that is no longer listed.
pub open spec fn remove_matching(s: PlayerState, pattern: Seq<char>) -> Outcome {
    let files = without_matching(s.files, pattern);
    report(
        PlayerState {
            files,
            playlist: s.playlist.filter(|i: usize| files.contains_key(i)),
            queue: s.queue.filter(|i: usize| files.contains_key(i)),
            ..s
        },
        CommandInterrupt::Continue,
        Seq::empty(),
    )
}

/// What the command `cmd` does to the state `s` while the song `current` is
/// playing.
pub open spec fn command_outcome(cmd: CommandModel, s: PlayerState, current: usize) -> Outcome {
    match cmd {
        CommandModel::Play => report(with_pause(s, 0), CommandInterrupt::Continue, Seq::empty()),
        CommandModel::Pause => report(with_pause(s, 1), CommandInterrupt::Continue, Seq::empty()),
        CommandModel::TogglePause => report(
            with_pause(
                s,
                if s.status.pause != 0 {
                    0
                } else {
                    -1i32
                },
            ),
            CommandInterrupt::Continue,
            Seq::empty(),
        ),
        CommandModel::Seek { target_sec } => report(
            s,
            CommandInterrupt::Continue,
            seq![EffectModel::SeekTo { target_sec }],
        ),
        CommandModel::Info => report(
            s,
            CommandInterrupt::Continue,
            seq![EffectModel::ShowInfo { file_idx: current }],
        ),
        CommandModel::Quit => report(s, CommandInterrupt::Quit, Seq::empty()),
        CommandModel::QueueAdd { file_idxs } => report(
            PlayerState {
                queue: s.queue + file_idxs.filter(|i: usize| s.files.contains_key(i)),
                ..s
            },
            CommandInterrupt::Continue,
            file_idxs.filter(|i: usize| !s.files.contains_key(i)).map_values(
                |i: usize| EffectModel::FileNotListed { file_idx: i },
            ),
        ),
        CommandModel::QueueRemove { with_index, index } => {
            let queue_index = if with_index {
                index
            } else {
                0
            };
            if queue_index < s.queue.len() {
                report(
                    PlayerState { queue: s.queue.remove(queue_index as int), ..s },
                    CommandInterrupt::Continue,
                    Seq::empty(),
                )
            } else {
                report(s, CommandInterrupt::Continue, seq![EffectModel::CannotDequeue { queue_index }])
            }
        },
        CommandModel::QueueMove { from, to } => move_in_queue(s, from, to),
        CommandModel::ViewQueue => report(s, CommandInterrupt::Continue, seq![EffectModel::ShowQueue]),
        CommandModel::Next => report(with_pause(s, 1), CommandInterrupt::Next, Seq::empty()),
        CommandModel::Previous => go_previous(s, current),
        CommandModel::ViewHistory => report(s, CommandInterrupt::Continue, seq![EffectModel::ShowHistory]),
        CommandModel::ViewPlaylist => report(
            s,
            CommandInterrupt::Continue,
            seq![EffectModel::ShowPlaylist],
        ),
        CommandModel::ViewFiles { full_path } => report(
            s,
            CommandInterrupt::Continue,
            seq![EffectModel::ShowFiles { full_path }],
        ),
        CommandModel::RemoveFileById { id } => remove_file(s, id),
        CommandModel::RemoveByPattern { pattern } => remove_matching(s, pattern),
        CommandModel::Unknown { cmd } => report(
            s,
            CommandInterrupt::Continue,
            seq![EffectModel::UnknownCommand { cmd }],
        ),
        CommandModel::Error { msg } => report(
            s,
            CommandInterrupt::Continue,
            seq![EffectModel::CommandError { msg }],
        ),
        CommandModel::Empty => report(s, CommandInterrupt::Continue, Seq::empty()),
    }
}

/// The state made of the player's parts.
pub open spec fn state_of(
    ps: PlayerStatus,
    pl: Seq<usize>,
    q: Seq<usize>,
    hist: Seq<usize>,
    files: Map<usize, FileInfo>,
) -> PlayerState {
    PlayerState { status: ps, playlist: pl, queue: q, history: hist, files }
}

fn single(e: Effect) -> (v: Vec<Effect>)
    ensures
        effect_models(v@) == seq![e@],
{
    let mut v: Vec<Effect> = Vec::new();
    v.push(e);
    assert(effect_models(v@) =~= seq![e@]);
    v
}

fn nothing() -> (v: Vec<Effect>)
    ensures
        effect_models(v@) == Seq::<EffectModel>::empty(),
{
    let v: Vec<Effect> = Vec::new();
    assert(effect_models(v@) =~= Seq::<EffectModel>::empty());
    v
}

/// Carries out `cmd` while the song `current_file_idx` is playing: changes
/// the player's state, and hands back how the playing song is interrupted
/// and what is left for the caller to do or to tell.
pub fn execute_command(
    cmd: Command,
    ps: &mut PlayerStatus,
    pl: &mut VecDeque<usize>,
    q: &mut VecDeque<usize>,
    hist: &mut VecDeque<usize>,
    files: &mut BTreeMap<usize, FileInfo>,
    current_file_idx: usize,
) -> (r: (CommandInterrupt, Vec<Effect>))
    ensures
        ({
            let o = command_outcome(
                cmd@,
                state_of(*old(ps), old(pl)@, old(q)@, old(hist)@, old(files)@),
                current_file_idx,
            );
            &&& state_of(*final(ps), final(pl)@, final(q)@, final(hist)@, final(files)@) == o.state
            &&& r.0 == o.interrupt
            &&& effect_models(r.1@) == o.effects
        }),
{
    match cmd {
        Command::Play => {
            ps.pause = 0;
            (CommandInterrupt::Continue, nothing())
        },
        Command::Pause => {
            ps.pause = 1;
            (CommandInterrupt::Continue, nothing())
        },
        Command::TogglePause => {
            ps.pause = if ps.pause != 0 {
                0
            } else {
                -1
            };
            (CommandInterrupt::Continue, nothing())
        },
        Command::Seek { target_sec } => {
            (CommandInterrupt::Continue, single(Effect::SeekTo { target_sec }))
        },
        Command::Info => {
            (CommandInterrupt::Continue, single(Effect::ShowInfo { file_idx: current_file_idx }))
        },
        Command::Quit => (CommandInterrupt::Quit, nothing()),
        Command::QueueAdd { file_idxs } => {
            let ghost ids = file_idxs@;
            let missing = enqueue_many(q, file_idxs, files);
            let mut effects: Vec<Effect> = Vec::new();
            for k in 0..missing.len()
                invariant
                    effect_models(effects@) == missing@.take(k as int).map_values(
                        |i: usize| EffectModel::FileNotListed { file_idx: i },
                    ),
            {
                let ghost before = effects@;
                effects.push(Effect::FileNotListed { file_idx: missing[k] });
                assert(effect_models(effects@) =~= effect_models(before).push(
                    EffectModel::FileNotListed { file_idx: missing@[k as int] },
                ));
                assert(effect_models(effects@) =~= missing@.take(k + 1).map_values(
                    |i: usize| EffectModel::FileNotListed { file_idx: i },
                ));
            }
            assert(missing@.take(missing@.len() as int) =~= missing@);
            (CommandInterrupt::Continue, effects)
        },
        Command::QueueRemove { with_index, index } => {
            let mut queue_index: usize = 0;
            if with_index {
                queue_index = index;
            }
            match dequeue_at(q, queue_index) {
                Some(_) => (CommandInterrupt::Continue, nothing()),
                None => (CommandInterrupt::Continue, single(Effect::CannotDequeue { queue_index })),
            }
        },
        Command::QueueMove { from, to } => {
            let len = q.len();
            if len == 0 {
                (CommandInterrupt::Continue, single(Effect::MoveInEmptyQueue { from, to }))
            } else if len == 1 {
                (CommandInterrupt::Continue, single(Effect::MoveInSingleQueue { from, to }))
            } else if len <= from {
                (CommandInterrupt::Continue, single(Effect::MoveFromOutOfRange { from }))
            } else if len <= to {
                (CommandInterrupt::Continue, single(Effect::MoveToOutOfRange { to }))
            } else {
                match dequeue_at(q, from) {
                    Some(file_idx) => {
                        enqueue_at(q, to, file_idx, files);
                    },
                    None => {},
                }
                (CommandInterrupt::Continue, nothing())
            }
        },
        Command::ViewQueue => (CommandInterrupt::Continue, single(Effect::ShowQueue)),
        Command::Next => {
            ps.pause = 1;
            (CommandInterrupt::Next, nothing())
        },
        Command::Previous => {
            let mut last_file_idx: usize = 0;
            if !get_and_pop(hist, &mut last_file_idx) {
                (CommandInterrupt::Continue, single(Effect::HistoryEmpty))
            } else {
                let ghost q0 = q@;
                let current_queued = enqueue_at(q, 0, current_file_idx, files);
                let mut effects: Vec<Effect> = Vec::new();
                if !current_queued {
                    effects.push(Effect::PlayingFileNotListed { file_idx: current_file_idx });
                }
                let ghost e1 = effect_models(effects@);
                if !enqueue_at(q, 0, last_file_idx, files) {
                    effects.push(Effect::FileNotListed { file_idx: last_file_idx });
                    assert(effect_models(effects@) =~= e1.push(
                        EffectModel::FileNotListed { file_idx: last_file_idx },
                    ));
                    if current_queued {
                        proof {
                            lemma_dequeue_undoes_enqueue(q0, 0, current_file_idx);
                        }
                        dequeue_at(q, 0);
                    }
                    (CommandInterrupt::Continue, effects)
                } else {
                    ps.pause = 1;
                    (CommandInterrupt::Previous, effects)
                }
            }
        },
        Command::ViewHistory => (CommandInterrupt::Continue, single(Effect::ShowHistory)),
        Command::ViewPlaylist => (CommandInterrupt::Continue, single(Effect::ShowPlaylist)),
        Command::ViewFiles { full_path } => {
            (CommandInterrupt::Continue, single(Effect::ShowFiles { full_path }))
        },
        Command::RemoveFileById { id } => {
            let e = match remove(files, id) {
                Some(file) => Effect::FileRemoved { name: file.name },
                None => Effect::NoSuchFile { id },
            };
            update(pl, files);
            update(q, files);
            (CommandInterrupt::Continue, single(e))
        },
        Command::RemoveByPattern { pattern } => {
            let ghost old_files = files@;
            remove_by_pattern(files, pattern);
            assert(files@ =~= without_matching(old_files, pattern@));
            retain_listed(pl, files);
            retain_listed(q, files);
            (CommandInterrupt::Continue, nothing())
        },
        Command::Unknown { cmd } => {
            (CommandInterrupt::Continue, single(Effect::UnknownCommand { cmd }))
        },
        Command::Error { msg } => {
            (CommandInterrupt::Continue, single(Effect::CommandError { msg }))
        },
        Command::Empty => (CommandInterrupt::Continue, nothing()),
    }
}

/// Picks the song to play next: the first song of the queue that is on the
/// file list, or, when the queue holds none, the first such song of the
/// playlist. The unlisted songs passed over are dropped, and the whole queue
/// is used up before the playlist is touched. Returns `false`, with both
/// lists emptied, when neither holds a listed song.
pub fn next(
    files: &BTreeMap<usize, FileInfo>,
    out_file: &mut FileInfo,
    out_file_idx: &mut usize,
    pl: &mut VecDeque<usize>,
    q: &mut VecDeque<usize>,
) -> (found: bool)
    ensures
        ({
            let jq = first_with_listing(old(q)@, files@, true);
            let jp = first_with_listing(old(pl)@, files@, true);
            if jq < old(q)@.len() {
                &&& found
                &&& *final(out_file_idx) == old(q)@[jq]
                &&& *final(out_file) == files@[old(q)@[jq]]
                &&& final(q)@ == old(q)@.skip(jq + 1)
                &&& final(pl)@ == old(pl)@
            } else {
                &&& final(q)@ == Seq::<usize>::empty()
                &&& found == (jp < old(pl)@.len())
                &&& found ==> *final(out_file_idx) == old(pl)@[jp] && *final(out_file)
                    == files@[old(pl)@[jp]] && final(pl)@ == old(pl)@.skip(jp + 1)
                &&& !found ==> *final(out_file_idx) == *old(out_file_idx) && *final(out_file)
                    == *old(out_file) && final(pl)@ == Seq::<usize>::empty()
            }
        }),
{
    proof {
        lemma_ids_are_ordered();
    }
    let mut file_idx: usize = 0;
    let ghost qstart = q@;
    let ghost qskipped: int = 0;
    assert(qstart.skip(0) =~= qstart);
    while queue_next(q, &mut file_idx)
        invariant
            qstart == old(q)@,
            pl@ == old(pl)@,
            0 <= qskipped <= qstart.len(),
            q@ == qstart.skip(qskipped),
            forall|j: int| 0 <= j < qskipped ==> !files@.contains_key(#[trigger] qstart[j]),
            *out_file_idx == *old(out_file_idx),
            *out_file == *old(out_file),
        decreases q@.len(),
    {
        proof {
            lemma_ids_are_ordered();
            assert(qstart.skip(qskipped).drop_first() =~= qstart.skip(qskipped + 1));
        }
        match files.get(&file_idx) {
            Some(file) => {
                proof {
                    lemma_first_with_listing(qstart, files@, true, qskipped);
                }
                *out_file = file.clone();
                *out_file_idx = file_idx;
                return true;
            },
            None => {},
        }
        proof {
            qskipped = qskipped + 1;
        }
    }
    proof {
        lemma_first_with_listing(qstart, files@, true, qskipped);
    }
    let ghost start = pl@;
    let ghost skipped: int = 0;
    assert(start.skip(0) =~= start);
    while playlist_next(pl, &mut file_idx)
        invariant
            start == old(pl)@,
            q@ == Seq::<usize>::empty(),
            first_with_listing(old(q)@, files@, true) >= old(q)@.len(),
            0 <= skipped <= start.len(),
            pl@ == start.skip(skipped),
            forall|j: int| 0 <= j < skipped ==> !files@.contains_key(#[trigger] start[j]),
            *out_file_idx == *old(out_file_idx),
            *out_file == *old(out_file),
        decreases pl@.len(),
    {
        proof {
            lemma_ids_are_ordered();
            assert(start.skip(skipped).drop_first() =~= start.skip(skipped + 1));
        }
        match files.get(&file_idx) {
            Some(file) => {
                proof {
                    lemma_first_with_listing(start, files@, true, skipped);
                }
                *out_file = file.clone();
                *out_file_idx = file_idx;
                return true;
            },
            None => {},
        }
        proof {
            skipped = skipped + 1;
        }
    }
    proof {
        lemma_first_with_listing(start, files@, true, skipped);
    }
    return false;
}

/// How the playing song came to an end.
#[derive(PartialEq, Eq, Structural, Clone, Copy, Debug)]
pub enum SongEnd {
    /// It played to its end.
    Finished,
    /// The user skipped to the next song.
    Skipped,
    /// The user went back to the song before.
    Back,
    /// The user left the player.
    Quit,
}

/// Closes the song `current_file_idx`: a song that finished or was skipped
/// enters the played history, one left by going back or by quitting does
/// not. Returns whether the player goes on to the next song.
pub fn finish_song(history: &mut VecDeque<usize>, current_file_idx: usize, end: SongEnd) -> (go_on:
    bool)
    ensures
        go_on == !(end is Quit),
        (end is Finished || end is Skipped) ==> final(history)@ == old(history)@.push(
            current_file_idx,
        ),
        (end is Back || end is Quit) ==> final(history)@ == old(history)@,
{
    match end {
        SongEnd::Finished | SongEnd::Skipped => {
            crate::history::add(history, current_file_idx);
            true
        },
        SongEnd::Back => true,
        SongEnd::Quit => false,
    }
}

/// How a command that interrupts the playing song ends it.
pub fn song_end_of(interrupt: CommandInterrupt) -> (end: Option<SongEnd>)
    ensures
        end == match interrupt {
            CommandInterrupt::Next => Some(SongEnd::Skipped),
            CommandInterrupt::Previous => Some(SongEnd::Back),
            CommandInterrupt::Quit => Some(SongEnd::Quit),
            CommandInterrupt::Continue => None,
        },
{
    match interrupt {
        CommandInterrupt::Next => Some(SongEnd::Skipped),
        CommandInterrupt::Previous => Some(SongEnd::Back),
        CommandInterrupt::Quit => Some(SongEnd::Quit),
        CommandInterrupt::Continue => None,
    }
}

/// Toggling pauses a playing player (with the flag `!0`, that is -1) and
/// resumes a paused one, changing nothing else; toggling twice from a pause
/// flag of 0 or -1 gives back the state it started from.
pub proof fn lemma_toggle_flips(s: PlayerState, current: usize)
    ensures
        ({
            let o = command_outcome(CommandModel::TogglePause, s, current);
            &&& (o.state.status.pause != 0) == (s.status.pause == 0)
            &&& o.state == with_pause(s, o.state.status.pause)
            &&& o.interrupt == CommandInterrupt::Continue
            &&& o.effects.len() == 0
        }),
        s.status.pause == 0 || s.status.pause == -1 ==> command_outcome(
            CommandModel::TogglePause,
            command_outcome(CommandModel::TogglePause, s, current).state,
            current,
        ).state == s,
{
}

/// Moving a listed song within a queue of two or more puts it at the target
/// position and keeps every other song, in order.
pub proof fn lemma_move_places_song(s: PlayerState, from: usize, to: usize, current: usize)
    requires
        2 <= s.queue.len(),
        from < s.queue.len(),
        to < s.queue.len(),
        s.files.contains_key(s.queue[from as int]),
    ensures
        ({
            let moved = command_outcome(CommandModel::QueueMove { from, to }, s, current).state.queue;
            &&& moved.len() == s.queue.len()
            &&& moved[to as int] == s.queue[from as int]
            &&& moved.remove(to as int) == s.queue.remove(from as int)
        }),
{
    let q1 = s.queue.remove(from as int);
    let moved = command_outcome(CommandModel::QueueMove { from, to }, s, current).state.queue;
    assert(moved == enqueued_at(q1, to, s.queue[from as int]));
    lemma_dequeue_undoes_enqueue(q1, to, s.queue[from as int]);
}

/// Going back to a song that is still listed interrupts the playing song
/// and puts the last song of the history at the front of the queue, with
/// the interrupted song right behind it when that one is listed too; the
/// history loses its last song.
pub proof fn lemma_previous_queues_last_song(s: PlayerState, current: usize)
    requires
        s.history.len() > 0,
        s.files.contains_key(s.history.last()),
    ensures
        ({
            let o = command_outcome(CommandModel::Previous, s, current);
            &&& o.interrupt == CommandInterrupt::Previous
            &&& o.state.queue.len() > 0
            &&& o.state.queue[0] == s.history.last()
            &&& o.state.history == s.history.drop_last()
            &&& s.files.contains_key(current) ==> o.state.queue.len() > 1 && o.state.queue[1]
                == current
        }),
{
}

/// Going back to a song that is no longer listed is ignored: the history
/// loses that song, the queue and everything else stay as they were, and the
/// songs that could not be queued are reported.
pub proof fn lemma_previous_ignored_when_unlisted(s: PlayerState, current: usize)
    requires
        s.history.len() > 0,
        !s.files.contains_key(s.history.last()),
    ensures
        ({
            let o = command_outcome(CommandModel::Previous, s, current);
            &&& o.interrupt == CommandInterrupt::Continue
            &&& o.state == PlayerState { history: s.history.drop_last(), ..s }
            &&& o.effects == (if s.files.contains_key(current) {
                Seq::<EffectModel>::empty()
            } else {
                seq![EffectModel::PlayingFileNotListed { file_idx: current }]
            }).push(EffectModel::FileNotListed { file_idx: s.history.last() })
        }),
{
}

/// The view commands change nothing, do not interrupt the song, and ask to
/// show exactly what they name; the file view passes its flag on, so
/// `files` shows full paths and `f` shows names.
pub proof fn lemma_views_show_and_keep_state(s: PlayerState, current: usize, full_path: bool)
    ensures
        command_outcome(CommandModel::ViewFiles { full_path }, s, current) == (Outcome {
            state: s,
            interrupt: CommandInterrupt::Continue,
            effects: seq![EffectModel::ShowFiles { full_path }],
        }),
        command_outcome(CommandModel::ViewQueue, s, current) == (Outcome {
            state: s,
            interrupt: CommandInterrupt::Continue,
            effects: seq![EffectModel::ShowQueue],
        }),
        command_outcome(CommandModel::ViewHistory, s, current) == (Outcome {
            state: s,
            interrupt: CommandInterrupt::Continue,
            effects: seq![EffectModel::ShowHistory],
        }),
        command_outcome(CommandModel::ViewPlaylist, s, current) == (Outcome {
            state: s,
            interrupt: CommandInterrupt::Continue,
            effects: seq![EffectModel::ShowPlaylist],
        }),
{
}

} // verus!
