use std::collections::{BTreeMap, VecDeque};
use lib::filelist::FileInfo;
use lib::queue::{dequeue_at, enqueue_at, enqueue_many, next};

fn files_with(ids: &[usize]) -> BTreeMap<usize, FileInfo> {
    let mut files = BTreeMap::new();
    for &id in ids {
        files.insert(id, FileInfo::new(format!("/music/{}.mp3", id)));
    }
    files
}

#[test]
fn next_takes_the_front() {
    let mut q: VecDeque<usize> = VecDeque::from(vec![4, 5]);
    let mut idx = 0;
    assert!(next(&mut q, &mut idx));
    assert_eq!(idx, 4);
    assert_eq!(q, VecDeque::from(vec![5]));
    let mut empty: VecDeque<usize> = VecDeque::new();
    let mut idx2 = 8;
    assert!(!next(&mut empty, &mut idx2));
    assert_eq!(idx2, 8);
}

#[test]
fn enqueue_at_inserts_listed_files_only() {
    let files = files_with(&[1, 2, 3]);
    let mut q: VecDeque<usize> = VecDeque::from(vec![1, 2]);
    assert!(enqueue_at(&mut q, 1, 3, &files));
    assert_eq!(q, VecDeque::from(vec![1, 3, 2]));
    assert!(enqueue_at(&mut q, 10, 1, &files));
    assert_eq!(q, VecDeque::from(vec![1, 3, 2, 1]));
    assert!(!enqueue_at(&mut q, 0, 7, &files));
    assert_eq!(q, VecDeque::from(vec![1, 3, 2, 1]));
}

#[test]
fn enqueue_many_reports_missing_ids_in_order() {
    let files = files_with(&[1, 2]);
    let mut q: VecDeque<usize> = VecDeque::from(vec![2]);
    let missing = enqueue_many(&mut q, vec![1, 9, 2, 8], &files);
    assert_eq!(q, VecDeque::from(vec![2, 1, 2]));
    assert_eq!(missing, vec![9, 8]);
}

#[test]
fn dequeue_at_removes_or_refuses() {
    let mut q: VecDeque<usize> = VecDeque::from(vec![5, 6, 7]);
    assert_eq!(dequeue_at(&mut q, 1), Some(6));
    assert_eq!(q, VecDeque::from(vec![5, 7]));
    assert_eq!(dequeue_at(&mut q, 0), Some(5));
    assert_eq!(q, VecDeque::from(vec![7]));
    assert_eq!(dequeue_at(&mut q, 1), None);
    assert_eq!(q, VecDeque::from(vec![7]));
    let mut empty: VecDeque<usize> = VecDeque::new();
    assert_eq!(dequeue_at(&mut empty, 0), None);
}

#[test]
fn dequeue_undoes_enqueue() {
    let files = files_with(&[1, 2, 3]);
    for pos in 0..5 {
        let start: VecDeque<usize> = VecDeque::from(vec![1, 2]);
        let mut q = start.clone();
        assert!(enqueue_at(&mut q, pos, 3, &files));
        let at = if pos >= start.len() { start.len() } else { pos };
        assert_eq!(dequeue_at(&mut q, at), Some(3));
        assert_eq!(q, start);
    }
}
