use std::collections::VecDeque;
use vstd::prelude::*;

verus! {

/// Records `file_idx` as the most recently played song.
pub fn add(history: &mut VecDeque<usize>, file_idx: usize)
    ensures
        final(history)@ == old(history)@.push(file_idx),
{
    history.push_back(file_idx)
}

/// Takes the most recently played song off the history.
///
/// Returns `false` and changes nothing when the history is empty; otherwise
/// writes the last entry to `file_idx`, removes it and returns `true`.
pub fn get_and_pop(history: &mut VecDeque<usize>, file_idx: &mut usize) -> (found: bool)
    ensures
        found == (old(history)@.len() > 0),
        found ==> *final(file_idx) == old(history)@.last(),
        found ==> final(history)@ == old(history)@.drop_last(),
        !found ==> *final(file_idx) == *old(file_idx) && final(history)@ == old(history)@,
{
    match history.pop_back() {
        Some(index) => {
            *file_idx = index;
            true
        },
        None => false,
    }
}

/// Taking the last song off the history gives back the song just added, and
/// leaves the history as it was before the addition.
pub proof fn lemma_pop_undoes_add(history: Seq<usize>, file_idx: usize)
    ensures
        history.push(file_idx).len() > 0,
        history.push(file_idx).last() == file_idx,
        history.push(file_idx).drop_last() == history,
{
    assert(history.push(file_idx).drop_last() =~= history);
}

} // verus!
