use std::collections::{BTreeMap, VecDeque};
use lib::filelist::FileInfo;
use lib::ma_wrapper::PlayerStatus;
use lib::player::{
    execute_command, finish_song, next, parse_command, song_end_of, Command, CommandInterrupt, Effect,
    SongEnd,
};

fn files_with(ids: &[usize]) -> BTreeMap<usize, FileInfo> {
    let mut files = BTreeMap::new();
    for &id in ids {
        files.insert(id, FileInfo::new(format!("/music/song{}.mp3", id)));
    }
    files
}

fn parse(s: &str) -> Command {
    parse_command(s.to_string())
}

fn error_msg(c: Command) -> String {
    match c {
        Command::Error { msg } => msg,
        _ => panic!("expected an error"),
    }
}

#[test]
fn parse_plain_commands() {
    assert!(matches!(parse("play"), Command::Play));
    assert!(matches!(parse("  \tplay"), Command::Play));
    assert!(matches!(parse("pause"), Command::Pause));
    assert!(matches!(parse("p"), Command::TogglePause));
    assert!(matches!(parse("info"), Command::Info));
    assert!(matches!(parse("q"), Command::Quit));
    assert!(matches!(parse("quit"), Command::Quit));
    assert!(matches!(parse("exit"), Command::Quit));
    assert!(matches!(parse("queue"), Command::ViewQueue));
    assert!(matches!(parse("next"), Command::Next));
    assert!(matches!(parse("n"), Command::Next));
    assert!(matches!(parse("previous"), Command::Previous));
    assert!(matches!(parse("prev"), Command::Previous));
    assert!(matches!(parse("history"), Command::ViewHistory));
    assert!(matches!(parse("hist"), Command::ViewHistory));
    assert!(matches!(parse("playlist"), Command::ViewPlaylist));
    assert!(matches!(parse("files"), Command::ViewFiles { full_path: true }));
    assert!(matches!(parse("f"), Command::ViewFiles { full_path: false }));
    assert!(matches!(parse(""), Command::Empty));
    assert!(matches!(parse("   "), Command::Empty));
    assert!(matches!(parse("play now"), Command::Play));
}

#[test]
fn parse_unknown_command_keeps_the_word() {
    match parse("dance all night") {
        Command::Unknown { cmd } => assert_eq!(cmd, "dance"),
        _ => panic!("expected an unknown command"),
    }
    match parse("PLAY") {
        Command::Unknown { cmd } => assert_eq!(cmd, "PLAY"),
        _ => panic!("expected an unknown command"),
    }
}

#[test]
fn parse_seek() {
    assert!(matches!(parse("seek 90"), Command::Seek { target_sec: 90 }));
    assert!(matches!(parse("seek -5"), Command::Seek { target_sec: -5 }));
    assert_eq!(error_msg(parse("seek")), "Expect at least one argument, but nothing is provided.");
    assert_eq!(error_msg(parse("seek 1m")), "Expect number but got `1m`");
    assert_eq!(error_msg(parse("seek 1 2")), "Expect number but got `1 2`");
}

#[test]
fn parse_remove() {
    assert!(matches!(parse("remove 3"), Command::RemoveFileById { id: 3 }));
    assert!(matches!(parse("r 0"), Command::RemoveFileById { id: 0 }));
    assert_eq!(error_msg(parse("r")), "Expect at least one argument, but nothing is provided.");
    assert_eq!(error_msg(parse("r x")), "Expect number but got `x`");
}

#[test]
fn parse_enqueue() {
    match parse("enqueue 1 2 30") {
        Command::QueueAdd { file_idxs } => assert_eq!(file_idxs, vec![1, 2, 30]),
        _ => panic!("expected queue add"),
    }
    match parse("enq 4") {
        Command::QueueAdd { file_idxs } => assert_eq!(file_idxs, vec![4]),
        _ => panic!("expected queue add"),
    }
    assert_eq!(error_msg(parse("enq")), "Expect at least one argument, but nothing is provided.");
    assert_eq!(error_msg(parse("enq 1 x 2")), "Expect number but got `x`");
    assert_eq!(error_msg(parse("enq 1  2")), "Expect number but got ``");
}

#[test]
fn parse_dequeue() {
    assert!(matches!(parse("dequeue"), Command::QueueRemove { with_index: false, index: 0 }));
    assert!(matches!(parse("deq 3"), Command::QueueRemove { with_index: true, index: 3 }));
    assert!(matches!(parse("deq 3 9"), Command::QueueRemove { with_index: true, index: 3 }));
    assert_eq!(error_msg(parse("deq y")), "Expect number but got `y`");
}

#[test]
fn parse_movequeue() {
    assert!(matches!(parse("movequeue 1 2"), Command::QueueMove { from: 1, to: 2 }));
    assert!(matches!(parse("mvq 0 5"), Command::QueueMove { from: 0, to: 5 }));
    assert_eq!(error_msg(parse("mvq")), "Expect 2 argument, but nothing provided.");
    assert_eq!(error_msg(parse("mvq 1")), "Expect 2 argument, but 1 is given.");
    assert_eq!(error_msg(parse("mvq 1 2 3")), "Expect 2 argument, but 3 is given.");
    assert_eq!(error_msg(parse("mvq a 2")), "Expect number but got `a`");
    assert_eq!(error_msg(parse("mvq 1 b")), "Expect number but got `1`");
}

struct State {
    ps: PlayerStatus,
    pl: VecDeque<usize>,
    q: VecDeque<usize>,
    hist: VecDeque<usize>,
    files: BTreeMap<usize, FileInfo>,
}

fn state(pl: &[usize], q: &[usize], hist: &[usize], files: &[usize]) -> State {
    State {
        ps: PlayerStatus { playing: 1, ended: 0, pause: 0 },
        pl: pl.iter().copied().collect(),
        q: q.iter().copied().collect(),
        hist: hist.iter().copied().collect(),
        files: files_with(files),
    }
}

fn run(s: &mut State, cmd: Command, current: usize) -> (CommandInterrupt, Vec<Effect>) {
    execute_command(cmd, &mut s.ps, &mut s.pl, &mut s.q, &mut s.hist, &mut s.files, current)
}

#[test]
fn execute_play_pause_toggle() {
    let mut s = state(&[], &[], &[], &[1]);
    let (i, e) = run(&mut s, Command::Pause, 1);
    assert_eq!(i, CommandInterrupt::Continue);
    assert!(e.is_empty());
    assert_eq!(s.ps.pause, 1);
    run(&mut s, Command::Play, 1);
    assert_eq!(s.ps.pause, 0);
    run(&mut s, Command::TogglePause, 1);
    assert_eq!(s.ps.pause, -1);
    run(&mut s, Command::TogglePause, 1);
    assert_eq!(s.ps.pause, 0);
    run(&mut s, Command::Pause, 1);
    run(&mut s, Command::TogglePause, 1);
    assert_eq!(s.ps.pause, 0);
    s.ps.pause = 5;
    run(&mut s, Command::TogglePause, 1);
    assert_eq!(s.ps.pause, 0);
    assert_eq!(s.ps.playing, 1);
    assert_eq!(s.ps.ended, 0);
}

#[test]
fn execute_reports_and_interrupts() {
    let mut s = state(&[], &[], &[], &[1]);
    let (i, e) = run(&mut s, Command::Seek { target_sec: 12 }, 1);
    assert_eq!(i, CommandInterrupt::Continue);
    assert!(matches!(e[..], [Effect::SeekTo { target_sec: 12 }]));
    let (_, e) = run(&mut s, Command::Info, 1);
    assert!(matches!(e[..], [Effect::ShowInfo { file_idx: 1 }]));
    let (i, e) = run(&mut s, Command::Quit, 1);
    assert_eq!(i, CommandInterrupt::Quit);
    assert!(e.is_empty());
    let (i, _) = run(&mut s, Command::Next, 1);
    assert_eq!(i, CommandInterrupt::Next);
    assert_eq!(s.ps.pause, 1);
    let (_, e) = run(&mut s, Command::ViewQueue, 1);
    assert!(matches!(e[..], [Effect::ShowQueue]));
    let (_, e) = run(&mut s, Command::ViewHistory, 1);
    assert!(matches!(e[..], [Effect::ShowHistory]));
    let (_, e) = run(&mut s, Command::ViewPlaylist, 1);
    assert!(matches!(e[..], [Effect::ShowPlaylist]));
    let (_, e) = run(&mut s, Command::ViewFiles { full_path: false }, 1);
    assert!(matches!(e[..], [Effect::ShowFiles { full_path: false }]));
    let (_, e) = run(&mut s, Command::Empty, 1);
    assert!(e.is_empty());
    match &run(&mut s, Command::Unknown { cmd: "zz".to_string() }, 1).1[..] {
        [Effect::UnknownCommand { cmd }] => assert_eq!(cmd, "zz"),
        _ => panic!("expected an unknown command report"),
    }
    match &run(&mut s, Command::Error { msg: "bad".to_string() }, 1).1[..] {
        [Effect::CommandError { msg }] => assert_eq!(msg, "bad"),
        _ => panic!("expected an error report"),
    }
}

#[test]
fn execute_queue_add_and_remove() {
    let mut s = state(&[], &[5], &[], &[1, 2, 5]);
    let (_, e) = run(&mut s, Command::QueueAdd { file_idxs: vec![2, 9, 1] }, 5);
    assert_eq!(s.q, VecDeque::from(vec![5, 2, 1]));
    assert!(matches!(e[..], [Effect::FileNotListed { file_idx: 9 }]));
    let (_, e) = run(&mut s, Command::QueueRemove { with_index: true, index: 1 }, 5);
    assert!(e.is_empty());
    assert_eq!(s.q, VecDeque::from(vec![5, 1]));
    let (_, e) = run(&mut s, Command::QueueRemove { with_index: false, index: 7 }, 5);
    assert!(e.is_empty());
    assert_eq!(s.q, VecDeque::from(vec![1]));
    let (_, e) = run(&mut s, Command::QueueRemove { with_index: true, index: 4 }, 5);
    assert!(matches!(e[..], [Effect::CannotDequeue { queue_index: 4 }]));
    assert_eq!(s.q, VecDeque::from(vec![1]));
}

#[test]
fn execute_queue_move() {
    let mut s = state(&[], &[], &[], &[1, 2, 3]);
    let (_, e) = run(&mut s, Command::QueueMove { from: 0, to: 1 }, 1);
    assert!(matches!(e[..], [Effect::MoveInEmptyQueue { from: 0, to: 1 }]));
    s.q = VecDeque::from(vec![1]);
    let (_, e) = run(&mut s, Command::QueueMove { from: 0, to: 1 }, 1);
    assert!(matches!(e[..], [Effect::MoveInSingleQueue { from: 0, to: 1 }]));
    s.q = VecDeque::from(vec![1, 2, 3]);
    let (_, e) = run(&mut s, Command::QueueMove { from: 3, to: 0 }, 1);
    assert!(matches!(e[..], [Effect::MoveFromOutOfRange { from: 3 }]));
    let (_, e) = run(&mut s, Command::QueueMove { from: 0, to: 3 }, 1);
    assert!(matches!(e[..], [Effect::MoveToOutOfRange { to: 3 }]));
    let (_, e) = run(&mut s, Command::QueueMove { from: 0, to: 2 }, 1);
    assert!(e.is_empty());
    assert_eq!(s.q, VecDeque::from(vec![2, 3, 1]));
    run(&mut s, Command::QueueMove { from: 2, to: 0 }, 1);
    assert_eq!(s.q, VecDeque::from(vec![1, 2, 3]));
}

#[test]
fn execute_queue_move_drops_unlisted_song() {
    let mut s = state(&[], &[7, 2], &[], &[2]);
    run(&mut s, Command::QueueMove { from: 0, to: 1 }, 2);
    assert_eq!(s.q, VecDeque::from(vec![2]));
}

#[test]
fn execute_previous_with_empty_history() {
    let mut s = state(&[], &[4], &[], &[1, 4]);
    let (i, e) = run(&mut s, Command::Previous, 1);
    assert_eq!(i, CommandInterrupt::Continue);
    assert!(matches!(e[..], [Effect::HistoryEmpty]));
    assert_eq!(s.q, VecDeque::from(vec![4]));
}

#[test]
fn execute_previous_requeues_current_after_last() {
    let mut s = state(&[], &[4], &[2, 3], &[1, 2, 3, 4]);
    let (i, e) = run(&mut s, Command::Previous, 1);
    assert_eq!(i, CommandInterrupt::Previous);
    assert_eq!(s.q, VecDeque::from(vec![3, 1, 4]));
    assert_eq!(s.hist, VecDeque::from(vec![2]));
    assert_eq!(s.ps.pause, 1);
    assert!(e.is_empty());
}

#[test]
fn execute_previous_with_unlisted_current_song() {
    let mut s = state(&[], &[4], &[2], &[2, 4]);
    let (i, e) = run(&mut s, Command::Previous, 7);
    assert_eq!(i, CommandInterrupt::Previous);
    assert_eq!(s.q, VecDeque::from(vec![2, 4]));
    assert!(matches!(e[..], [Effect::PlayingFileNotListed { file_idx: 7 }]));
}

#[test]
fn execute_previous_with_unlisted_last_song() {
    let mut s = state(&[], &[4], &[9], &[1, 4]);
    let (i, e) = run(&mut s, Command::Previous, 1);
    assert_eq!(i, CommandInterrupt::Continue);
    assert_eq!(s.q, VecDeque::from(vec![4]));
    assert!(s.hist.is_empty());
    assert_eq!(s.ps.pause, 0);
    assert!(matches!(e[..], [Effect::FileNotListed { file_idx: 9 }]));
}

#[test]
fn execute_previous_with_both_unlisted_keeps_queue() {
    let mut s = state(&[], &[4, 1], &[9], &[1, 4]);
    let (i, e) = run(&mut s, Command::Previous, 7);
    assert_eq!(i, CommandInterrupt::Continue);
    assert_eq!(s.q, VecDeque::from(vec![4, 1]));
    assert!(matches!(
        e[..],
        [Effect::PlayingFileNotListed { file_idx: 7 }, Effect::FileNotListed { file_idx: 9 }]
    ));
}

#[test]
fn execute_remove_file_updates_lists() {
    let mut s = state(&[3, 2, 1], &[2, 2], &[], &[1, 2, 3]);
    let (_, e) = run(&mut s, Command::RemoveFileById { id: 2 }, 1);
    match &e[..] {
        [Effect::FileRemoved { name }] => assert_eq!(name, "song2.mp3"),
        _ => panic!("expected a removal report"),
    }
    assert!(!s.files.contains_key(&2));
    assert_eq!(s.pl, VecDeque::from(vec![3, 1]));
    assert_eq!(s.q, VecDeque::from(vec![2]));
    let (_, e) = run(&mut s, Command::RemoveFileById { id: 2 }, 1);
    assert!(matches!(e[..], [Effect::NoSuchFile { id: 2 }]));
    assert_eq!(s.q, VecDeque::new());
}

#[test]
fn next_prefers_the_queue() {
    let files = files_with(&[1, 2, 3]);
    let mut out = FileInfo::new(String::new());
    let mut idx = 0;
    let mut pl: VecDeque<usize> = VecDeque::from(vec![1, 2]);
    let mut q: VecDeque<usize> = VecDeque::from(vec![3, 2]);
    assert!(next(&files, &mut out, &mut idx, &mut pl, &mut q));
    assert_eq!(idx, 3);
    assert_eq!(out.path, "/music/song3.mp3");
    assert_eq!(q, VecDeque::from(vec![2]));
    assert_eq!(pl, VecDeque::from(vec![1, 2]));
}

#[test]
fn next_skips_unlisted_queued_songs() {
    let files = files_with(&[0, 1]);
    let mut out = FileInfo::new(String::new());
    let mut idx = 5;
    let mut pl: VecDeque<usize> = VecDeque::from(vec![0]);
    let mut q: VecDeque<usize> = VecDeque::from(vec![9, 1]);
    assert!(next(&files, &mut out, &mut idx, &mut pl, &mut q));
    assert_eq!(idx, 1);
    assert_eq!(out.path, "/music/song1.mp3");
    assert!(q.is_empty());
    assert_eq!(pl, VecDeque::from(vec![0]));
}

#[test]
fn next_skips_unlisted_songs() {
    let files = files_with(&[2]);
    let mut out = FileInfo::new(String::new());
    let mut idx = 0;
    let mut pl: VecDeque<usize> = VecDeque::from(vec![7, 2, 8]);
    let mut q: VecDeque<usize> = VecDeque::from(vec![9, 3]);
    assert!(next(&files, &mut out, &mut idx, &mut pl, &mut q));
    assert_eq!(idx, 2);
    assert_eq!(out.name, "song2.mp3");
    assert!(q.is_empty());
    assert_eq!(pl, VecDeque::from(vec![8]));
}

#[test]
fn next_at_the_end() {
    let files = files_with(&[2]);
    let mut out = FileInfo::new("keep".to_string());
    let mut idx = 5;
    let mut pl: VecDeque<usize> = VecDeque::from(vec![7, 8]);
    let mut q: VecDeque<usize> = VecDeque::from(vec![3]);
    assert!(!next(&files, &mut out, &mut idx, &mut pl, &mut q));
    assert_eq!(idx, 5);
    assert_eq!(out.path, "keep");
    assert!(pl.is_empty());
    assert!(q.is_empty());
}

#[test]
fn parse_remove_pattern() {
    match parse("rp rock") {
        Command::RemoveByPattern { pattern } => assert_eq!(pattern, "rock"),
        _ => panic!("expected a removal by pattern"),
    }
    match parse("remove_pattern New Wave") {
        Command::RemoveByPattern { pattern } => assert_eq!(pattern, "New Wave"),
        _ => panic!("expected a removal by pattern"),
    }
    assert_eq!(error_msg(parse("rp")), "Expect at least one argument, but nothing is provided.");
}

#[test]
fn execute_remove_by_pattern_updates_lists() {
    let mut s = state(&[3, 1, 2], &[2, 1, 2], &[], &[1, 2, 3]);
    s.files.insert(4, FileInfo::new("/other/track.mp3".to_string()));
    let (i, e) = run(&mut s, Command::RemoveByPattern { pattern: "song".to_string() }, 1);
    assert_eq!(i, CommandInterrupt::Continue);
    assert!(e.is_empty());
    assert_eq!(s.files.keys().copied().collect::<Vec<usize>>(), vec![4]);
    assert!(s.pl.is_empty());
    assert!(s.q.is_empty());
}

#[test]
fn finish_song_records_history() {
    let mut h: VecDeque<usize> = VecDeque::from(vec![1]);
    assert!(finish_song(&mut h, 4, SongEnd::Finished));
    assert_eq!(h, VecDeque::from(vec![1, 4]));
    assert!(finish_song(&mut h, 5, SongEnd::Skipped));
    assert_eq!(h, VecDeque::from(vec![1, 4, 5]));
    assert!(finish_song(&mut h, 6, SongEnd::Back));
    assert_eq!(h, VecDeque::from(vec![1, 4, 5]));
    assert!(!finish_song(&mut h, 7, SongEnd::Quit));
    assert_eq!(h, VecDeque::from(vec![1, 4, 5]));
}

#[test]
fn song_end_of_interrupts() {
    assert_eq!(song_end_of(CommandInterrupt::Next), Some(SongEnd::Skipped));
    assert_eq!(song_end_of(CommandInterrupt::Previous), Some(SongEnd::Back));
    assert_eq!(song_end_of(CommandInterrupt::Quit), Some(SongEnd::Quit));
    assert_eq!(song_end_of(CommandInterrupt::Continue), None);
}
