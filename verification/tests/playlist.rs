use std::collections::{BTreeMap, BTreeSet, VecDeque};
use lib::filelist::FileInfo;
use lib::playlist::{
    next, pick_slots, place_by_draws, playlist_by_draws, playlist_shuffle, re_shuffle,
    retain_listed, shuffle, update, PlaylistItem,
};

fn files_with(ids: &[usize]) -> BTreeMap<usize, FileInfo> {
    let mut files = BTreeMap::new();
    for &id in ids {
        files.insert(id, FileInfo::new(format!("/music/{}.mp3", id)));
    }
    files
}

#[test]
fn pick_slots_follows_the_draws() {
    // free 0 1 2: 5 % 3 = 2 takes slot 2; free 0 1: 0 % 2 = 0 takes 0; free 1: 7 % 1 takes 1
    assert_eq!(pick_slots(3, &vec![5, 0, 7]), vec![2, 0, 1]);
    assert_eq!(pick_slots(0, &vec![]), Vec::<usize>::new());
    assert_eq!(pick_slots(4, &vec![0, 0, 0, 0]), vec![0, 1, 2, 3]);
    assert_eq!(pick_slots(4, &vec![3, 2, 1, 0]), vec![3, 2, 1, 0]);
}

#[test]
fn pick_slots_is_always_a_permutation() {
    for seed in 0..50usize {
        let n = seed % 7;
        let draws: Vec<usize> = (0..n).map(|i| seed * 31 + i * 17).collect();
        let mut slots = pick_slots(n, &draws);
        slots.sort();
        assert_eq!(slots, (0..n).collect::<Vec<usize>>());
    }
}

#[test]
fn shuffle_holds_each_file_once() {
    let mut files = files_with(&[3, 8, 10, 42]);
    let pl = shuffle(&mut files);
    assert_eq!(pl.len(), 4);
    let set: BTreeSet<usize> = pl.iter().copied().collect();
    assert_eq!(set, BTreeSet::from([3, 8, 10, 42]));
    assert_eq!(files.len(), 4);
}

#[test]
fn re_shuffle_writes_over_the_front() {
    let mut files = files_with(&[1, 2]);
    let mut pl: VecDeque<usize> = VecDeque::from(vec![7, 7, 7]);
    re_shuffle(&mut files, &mut pl);
    assert_eq!(pl.len(), 5);
    let front: BTreeSet<usize> = pl.iter().take(2).copied().collect();
    assert_eq!(front, BTreeSet::from([1, 2]));
    assert_eq!(pl[2], 7);
    assert_eq!(pl[3], 0);
    assert_eq!(pl[4], 0);
}

#[test]
fn shuffle_of_no_files_is_empty() {
    let mut files = files_with(&[]);
    assert!(shuffle(&mut files).is_empty());
}

#[test]
fn playlist_next_pops_front() {
    let mut pl: VecDeque<usize> = VecDeque::from(vec![2, 1]);
    let mut idx = 0;
    assert!(next(&mut pl, &mut idx));
    assert_eq!(idx, 2);
    assert!(next(&mut pl, &mut idx));
    assert_eq!(idx, 1);
    assert!(!next(&mut pl, &mut idx));
    assert_eq!(idx, 1);
}

#[test]
fn update_drops_only_the_first_unlisted() {
    let files = files_with(&[1, 3]);
    let mut pl: VecDeque<usize> = VecDeque::from(vec![1, 2, 3, 4]);
    update(&mut pl, &files);
    assert_eq!(pl, VecDeque::from(vec![1, 3, 4]));
    let mut all_listed: VecDeque<usize> = VecDeque::from(vec![3, 1]);
    update(&mut all_listed, &files);
    assert_eq!(all_listed, VecDeque::from(vec![3, 1]));
}

#[test]
fn playlist_items() {
    let e = PlaylistItem::new_empty();
    assert_eq!(e.file, "");
    assert_eq!(e.file_idx, 0);
    assert!(!e.played);
    let i = PlaylistItem::new(4, "x.ogg".to_string());
    assert_eq!(i.file, "x.ogg");
    assert_eq!(i.file_idx, 4);
    assert!(!i.played);
}

#[test]
fn playlist_shuffle_holds_each_file_once() {
    let files: Vec<String> = vec!["a.mp3".to_string(), "b.mp3".to_string(), "c.mp3".to_string()];
    let pl = playlist_shuffle(&files);
    assert_eq!(pl.len(), 3);
    let mut seen: Vec<usize> = pl.iter().map(|it| it.file_idx).collect();
    seen.sort();
    assert_eq!(seen, vec![0, 1, 2]);
    for item in &pl {
        assert_eq!(item.file, files[item.file_idx]);
        assert!(!item.played);
    }
}

#[test]
fn place_by_draws_puts_ids_into_drawn_slots() {
    // the slots drawn are 2, 0, 1
    assert_eq!(place_by_draws(&vec![10, 20, 30], &vec![5, 0, 7]), vec![20, 30, 10]);
    assert_eq!(place_by_draws(&vec![4, 5], &vec![0, 0]), vec![4, 5]);
    assert_eq!(place_by_draws(&vec![4, 5], &vec![1, 0]), vec![5, 4]);
}

#[test]
fn playlist_by_draws_puts_items_into_drawn_slots() {
    let files: Vec<String> = vec!["a.mp3".to_string(), "b.mp3".to_string(), "c.mp3".to_string()];
    let pl = playlist_by_draws(&files, &vec![5, 0, 7]);
    let order: Vec<usize> = pl.iter().map(|it| it.file_idx).collect();
    assert_eq!(order, vec![1, 2, 0]);
    assert_eq!(pl[0].file, "b.mp3");
    assert!(pl.iter().all(|it| !it.played));
}

#[test]
fn retain_listed_drops_every_unlisted_song() {
    let files = files_with(&[1, 3]);
    let mut pl: VecDeque<usize> = VecDeque::from(vec![1, 2, 3, 4, 1]);
    retain_listed(&mut pl, &files);
    assert_eq!(pl, VecDeque::from(vec![1, 3, 1]));
}
