use std::collections::BTreeMap;
use std::collections::VecDeque;
use vstd::prelude::*;
use crate::filelist::{FileInfo, lemma_ids_are_ordered};

verus! {

/// Takes the next song off the front of the queue.
///
/// Returns `false` and changes nothing when the queue is empty; otherwise
/// writes the song's id to `file_idx`, removes it and returns `true`.
pub fn next(queue: &mut VecDeque<usize>, file_idx: &mut usize) -> (found: bool)
    ensures
        found == (old(queue)@.len() > 0),
        found ==> *final(file_idx) == old(queue)@[0] && final(queue)@ == old(queue)@.drop_first(),
        !found ==> *final(file_idx) == *old(file_idx) && final(queue)@ == old(queue)@,
{
    match queue.pop_front() {
        Some(item) => {
            *file_idx = item;
            true
        },
        None => false,
    }
}

/// What `enqueue_at` makes of the queue `q`.
pub open spec fn enqueued_at(q: Seq<usize>, queue_idx: usize, file_idx: usize) -> Seq<usize> {
    if queue_idx >= q.len() {
        q.push(file_idx)
    } else {
        q.insert(queue_idx as int, file_idx)
    }
}

/// Puts the file `file_idx` into the queue at `queue_idx`, or at the back
/// when `queue_idx` lies past the end. A file that is not on the list is
/// not queued: the result says whether the file was queued.
pub fn enqueue_at(
    queue: &mut VecDeque<usize>,
    queue_idx: usize,
    file_idx: usize,
    files: &BTreeMap<usize, FileInfo>,
) -> (queued: bool)
    ensures
        queued == files@.contains_key(file_idx),
        queued ==> final(queue)@ == enqueued_at(old(queue)@, queue_idx, file_idx),
        !queued ==> final(queue)@ == old(queue)@,
{
    proof {
        lemma_ids_are_ordered();
    }
    if !files.contains_key(&file_idx) {
        return false;
    }
    if queue_idx >= queue.len() {
        queue.push_back(file_idx);
    } else {
        queue.insert(queue_idx, file_idx);
    }
    true
}

/// Puts at the back of the queue, in order, each of `file_idxs` that is on
/// the file list, and hands back, in order, those that are not.
pub fn enqueue_many(
    queue: &mut VecDeque<usize>,
    file_idxs: Vec<usize>,
    files: &BTreeMap<usize, FileInfo>,
) -> (missing: Vec<usize>)
    ensures
        final(queue)@ == old(queue)@ + file_idxs@.filter(|i: usize| files@.contains_key(i)),
        missing@ == file_idxs@.filter(|i: usize| !files@.contains_key(i)),
{
    let ghost listed = |i: usize| files@.contains_key(i);
    let ghost unlisted = |i: usize| !files@.contains_key(i);
    let ghost start = queue@;
    let mut missing: Vec<usize> = Vec::new();
    for k in 0..file_idxs.len()
        invariant
            listed == (|i: usize| files@.contains_key(i)),
            unlisted == (|i: usize| !files@.contains_key(i)),
            queue@ == start + file_idxs@.take(k as int).filter(listed),
            missing@ == file_idxs@.take(k as int).filter(unlisted),
    {
        proof {
            lemma_ids_are_ordered();
        }
        let file_idx = file_idxs[k];
        let ghost q0 = queue@;
        let ghost m0 = missing@;
        if files.contains_key(&file_idx) {
            assert(listed(file_idx));
            queue.push_back(file_idx);
            assert(queue@ == q0.push(file_idx));
        } else {
            assert(unlisted(file_idx));
            missing.push(file_idx);
            assert(missing@ == m0.push(file_idx));
        }
        proof {
            reveal_with_fuel(Seq::<_>::filter, 1);
            let t1 = file_idxs@.take(k + 1);
            assert(t1.drop_last() =~= file_idxs@.take(k as int));
            assert(t1.last() == file_idx);
            assert(t1.filter(listed) == if listed(file_idx) {
                file_idxs@.take(k as int).filter(listed).push(file_idx)
            } else {
                file_idxs@.take(k as int).filter(listed)
            });
            assert(t1.filter(unlisted) == if unlisted(file_idx) {
                file_idxs@.take(k as int).filter(unlisted).push(file_idx)
            } else {
                file_idxs@.take(k as int).filter(unlisted)
            });
        }
        assert(queue@ =~= start + file_idxs@.take(k + 1).filter(listed));
    }
    assert(file_idxs@.take(file_idxs@.len() as int) =~= file_idxs@);
    missing
}

/// Takes the song at `queue_idx` out of the queue and hands back its id;
/// `None`, with the queue unchanged, when there is no such position.
pub fn dequeue_at(queue: &mut VecDeque<usize>, queue_idx: usize) -> (removed: Option<usize>)
    ensures
        queue_idx < old(queue)@.len() ==> removed == Some(old(queue)@[queue_idx as int])
            && final(queue)@ == old(queue)@.remove(queue_idx as int),
        queue_idx >= old(queue)@.len() ==> removed is None && final(queue)@ == old(queue)@,
{
    if queue.len() == 0 || queue_idx >= queue.len() {
        return None;
    }
    Some(
        if queue_idx == 0 {
            let r = queue.pop_front();
            assert(queue@ =~= old(queue)@.remove(0));
            r.unwrap()
        } else {
            queue.remove(queue_idx).unwrap()
        },
    )
}

/// Where `enqueue_at` puts a song: at `queue_idx`, or at the back when
/// `queue_idx` lies past the end.
pub open spec fn enqueue_position(q: Seq<usize>, queue_idx: usize) -> int {
    if queue_idx >= q.len() {
        q.len() as int
    } else {
        queue_idx as int
    }
}

/// A song queued by `enqueue_at` stands where it was put, and taking it out
/// again by `dequeue_at` at that position gives it back and leaves the queue
/// as it was.
pub proof fn lemma_dequeue_undoes_enqueue(q: Seq<usize>, queue_idx: usize, file_idx: usize)
    ensures
        ({
            let p = enqueue_position(q, queue_idx);
            &&& 0 <= p < enqueued_at(q, queue_idx, file_idx).len()
            &&& enqueued_at(q, queue_idx, file_idx)[p] == file_idx
            &&& enqueued_at(q, queue_idx, file_idx).remove(p) == q
        }),
{
    let p = enqueue_position(q, queue_idx);
    assert(enqueued_at(q, queue_idx, file_idx).remove(p) =~= q);
}

} // verus!
