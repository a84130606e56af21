use std::collections::BTreeMap;
use std::collections::VecDeque;
use vstd::prelude::*;
use crate::clock::{ClockReading, clock_micros, reading_values};
use crate::filelist::{
    FileInfo, first_with_listing, ids_in_order, lemma_first_with_listing, lemma_ids_are_ordered,
};

verus! {

/// The slots `0 .. n` that are still free after `k` picks, in order. The
/// pick number `k` takes the free slot at `draws[k]` modulo the number of
/// free slots.
pub open spec fn free_slots(n: nat, draws: Seq<usize>, k: nat) -> Seq<usize>
    decreases k,
{
    if k == 0 {
        Seq::new(n, |i: int| i as usize)
    } else {
        let a = free_slots(n, draws, (k - 1) as nat);
        if a.len() == 0 {
            a
        } else {
            a.remove(draws[k - 1] as int % a.len() as int)
        }
    }
}

/// The slot that the pick number `k` takes.
pub open spec fn slot_of(n: nat, draws: Seq<usize>, k: nat) -> usize {
    let a = free_slots(n, draws, k);
    a[draws[k as int] as int % a.len() as int]
}

/// The slots that `n` picks take, one after the other.
pub open spec fn shuffled_slots(n: nat, draws: Seq<usize>) -> Seq<usize> {
    Seq::new(n, |k: int| slot_of(n, draws, k as nat))
}

proof fn lemma_free_slots(n: nat, draws: Seq<usize>, k: nat)
    requires
        n <= usize::MAX,
        k <= n,
    ensures
        free_slots(n, draws, k).len() == n - k,
        free_slots(n, draws, k).no_duplicates(),
        forall|x: usize|
            #[trigger] free_slots(n, draws, k).contains(x) <==> (x < n && forall|j: nat|
                j < k ==> slot_of(n, draws, j) != x),
    decreases k,
{
    if k == 0 {
        let a = free_slots(n, draws, 0);
        assert forall|x: usize| a.contains(x) <==> (x < n && forall|j: nat|
            j < 0 ==> slot_of(n, draws, j) != x) by {
            if x < n {
                assert(a[x as int] == x);
            }
        }
    } else {
        let k1 = (k - 1) as nat;
        lemma_free_slots(n, draws, k1);
        let a = free_slots(n, draws, k1);
        let idx = draws[k1 as int] as int % a.len() as int;
        let r = a.remove(idx);
        assert(free_slots(n, draws, k) == r);
        assert(slot_of(n, draws, k1) == a[idx]);
        assert forall|i: int, j: int| 0 <= i < r.len() && 0 <= j < r.len() && i != j implies r[i]
            != r[j] by {
            let ai = if i < idx { i } else { i + 1 };
            let aj = if j < idx { j } else { j + 1 };
            assert(r[i] == a[ai] && r[j] == a[aj]);
        }
        assert forall|x: usize| #[trigger] r.contains(x) <==> (x < n && forall|j: nat|
            j < k ==> slot_of(n, draws, j) != x) by {
            if r.contains(x) {
                let i = choose|i: int| 0 <= i < r.len() && r[i] == x;
                let ai = if i < idx { i } else { i + 1 };
                assert(r[i] == a[ai]);
                assert(a.contains(x));
                assert forall|j: nat| j < k implies slot_of(n, draws, j) != x by {
                    if j == k1 {
                        assert(ai != idx);
                    }
                }
            }
            if x < n && forall|j: nat| j < k ==> slot_of(n, draws, j) != x {
                assert(forall|j: nat| j < k1 ==> slot_of(n, draws, j) != x);
                assert(a.contains(x));
                let i = choose|i: int| 0 <= i < a.len() && a[i] == x;
                assert(slot_of(n, draws, k1) != x);
                assert(i != idx);
                if i < idx {
                    assert(r[i] == x);
                } else {
                    assert(r[i - 1] == x);
                }
            }
        }
    }
}

/// Whatever the draws, the `n` picks take each of the slots `0 .. n`
/// exactly once: every playlist built from them holds each song once.
pub proof fn lemma_shuffled_slots_permutation(n: nat, draws: Seq<usize>)
    requires
        n <= usize::MAX,
    ensures
        forall|k: int| 0 <= k < n ==> #[trigger] shuffled_slots(n, draws)[k] < n,
        forall|j: int, k: int|
            0 <= j < k < n ==> #[trigger] shuffled_slots(n, draws)[j] != #[trigger] shuffled_slots(
                n,
                draws,
            )[k],
        forall|x: usize| x < n ==> #[trigger] shuffled_slots(n, draws).contains(x),
{
    let s = shuffled_slots(n, draws);
    assert forall|k: int| 0 <= k < n implies #[trigger] s[k] < n && forall|j: int|
        0 <= j < k ==> s[j] != s[k] by {
        lemma_free_slots(n, draws, k as nat);
        let a = free_slots(n, draws, k as nat);
        let idx = draws[k] as int % a.len() as int;
        assert(a.contains(a[idx]));
        assert forall|j: int| 0 <= j < k implies s[j] != s[k] by {
            assert(slot_of(n, draws, j as nat) != a[idx]);
        }
    }
    assert forall|x: usize| x < n implies #[trigger] s.contains(x) by {
        lemma_free_slots(n, draws, n);
        if !s.contains(x) {
            assert forall|j: nat| j < n implies slot_of(n, draws, j) != x by {
                assert(s[j as int] == slot_of(n, draws, j));
            }
            assert(free_slots(n, draws, n).contains(x));
        }
    }
}

/// The slots that `n` picks take, each pick choosing among the slots still
/// free by its draw, as the playlists are shuffled.
pub fn pick_slots(n: usize, draws: &Vec<usize>) -> (slots: Vec<usize>)
    requires
        draws@.len() >= n,
    ensures
        slots@ == shuffled_slots(n as nat, draws@),
{
    let mut free: Vec<usize> = Vec::new();
    for i in 0..n
        invariant
            free@ == Seq::new(i as nat, |j: int| j as usize),
    {
        free.push(i);
        assert(free@ =~= Seq::new((i + 1) as nat, |j: int| j as usize));
    }
    let mut slots: Vec<usize> = Vec::new();
    for k in 0..n
        invariant
            draws@.len() >= n,
            free@ == free_slots(n as nat, draws@, k as nat),
            slots@ == shuffled_slots(n as nat, draws@).take(k as int),
    {
        proof {
            lemma_free_slots(n as nat, draws@, k as nat);
        }
        let idx = draws[k] % free.len();
        let s = free.remove(idx);
        slots.push(s);
        assert(slots@ =~= shuffled_slots(n as nat, draws@).take(k + 1));
    }
    assert(slots@ =~= shuffled_slots(n as nat, draws@));
    slots
}

/// `result` holds `items` put by the draws: the item number `k` stands at
/// the slot that the pick number `k` takes.
pub open spec fn placed_by<A>(items: Seq<A>, draws: Seq<usize>, result: Seq<A>) -> bool {
    &&& result.len() == items.len()
    &&& forall|k: int|
        0 <= k < items.len() ==> #[trigger] result[shuffled_slots(items.len(), draws)[k] as int]
            == items[k]
}

/// The pick that took the slot `p` among `n` slots.
pub open spec fn slot_owner(n: nat, draws: Seq<usize>, p: int) -> int {
    choose|k: int| 0 <= k < n && shuffled_slots(n, draws)[k] == p
}

/// Every slot is taken by exactly one pick, its owner.
pub proof fn lemma_slot_owner(n: nat, draws: Seq<usize>, p: int)
    requires
        n <= usize::MAX,
        0 <= p < n,
    ensures
        0 <= slot_owner(n, draws, p) < n,
        shuffled_slots(n, draws)[slot_owner(n, draws, p)] == p,
{
    lemma_shuffled_slots_permutation(n, draws);
    assert(shuffled_slots(n, draws).contains(p as usize));
    let k = choose|k: int|
        0 <= k < shuffled_slots(n, draws).len() && shuffled_slots(n, draws)[k] == p as usize;
    assert(0 <= k < n && shuffled_slots(n, draws)[k] == p);
}

/// Every position of a placement holds the item of the pick that took it.
pub proof fn lemma_placed_positions<A>(items: Seq<A>, draws: Seq<usize>, result: Seq<A>)
    requires
        items.len() <= usize::MAX,
        placed_by(items, draws, result),
    ensures
        forall|p: int|
            #![trigger result[p]]
            #![trigger slot_owner(items.len(), draws, p)]
            0 <= p < result.len() ==> {
                let k = slot_owner(items.len(), draws, p);
                &&& 0 <= k < items.len()
                &&& shuffled_slots(items.len(), draws)[k] == p
                &&& result[p] == items[k]
            },
{
    assert forall|p: int|
        #![trigger result[p]]
        #![trigger slot_owner(items.len(), draws, p)]
        0 <= p < result.len() implies {
        let k = slot_owner(items.len(), draws, p);
        &&& 0 <= k < items.len()
        &&& shuffled_slots(items.len(), draws)[k] == p
        &&& result[p] == items[k]
    } by {
        lemma_slot_owner(items.len(), draws, p);
        let k = slot_owner(items.len(), draws, p);
        assert(result[shuffled_slots(items.len(), draws)[k] as int] == items[k]);
    }
}

/// The first draw decides where the first item lands: at the draw modulo
/// the number of items; and a placement by given draws is the only one.
pub proof fn lemma_placement_follows_draws<A>(items: Seq<A>, draws: Seq<usize>, r1: Seq<A>, r2: Seq<A>)
    requires
        0 < items.len() <= usize::MAX,
        placed_by(items, draws, r1),
        placed_by(items, draws, r2),
    ensures
        r1[draws[0] as int % items.len() as int] == items[0],
        r1 == r2,
{
    let n = items.len();
    assert(free_slots(n, draws, 0)[draws[0] as int % n as int] == (draws[0] as int % n as int) as usize);
    assert(shuffled_slots(n, draws)[0] == slot_of(n, draws, 0));
    lemma_placed_positions(items, draws, r1);
    lemma_placed_positions(items, draws, r2);
    assert forall|p: int| 0 <= p < r1.len() implies r1[p] == r2[p] by {
        let k = slot_owner(n, draws, p);
        assert(r1[p] == items[k]);
        assert(r2[p] == items[k]);
    }
    assert(r1 =~= r2);
}

/// Puts `ids` into the slots that `draws` pick, as a shuffle does with the
/// draws it reads off the clock.
pub fn place_by_draws(ids: &Vec<usize>, draws: &Vec<usize>) -> (placed: Vec<usize>)
    requires
        draws@.len() >= ids@.len(),
    ensures
        placed_by(ids@, draws@, placed@),
{
    let n = ids.len();
    let slots = pick_slots(n, draws);
    proof {
        lemma_shuffled_slots_permutation(n as nat, draws@);
    }
    let mut placed: Vec<usize> = Vec::new();
    for i in 0..n
        invariant
            placed@.len() == i,
    {
        placed.push(0);
    }
    for k in 0..n
        invariant
            n == ids@.len(),
            n == slots@.len(),
            placed@.len() == n,
            slots@ == shuffled_slots(n as nat, draws@),
            forall|j: int| 0 <= j < n ==> #[trigger] slots@[j] < n,
            forall|j: int, l: int| 0 <= j < l < n ==> #[trigger] slots@[j] != #[trigger] slots@[l],
            forall|j: int| 0 <= j < k ==> #[trigger] placed@[slots@[j] as int] == ids@[j],
    {
        let s = slots[k];
        placed.set(s, ids[k]);
        assert forall|j: int| 0 <= j < k + 1 implies #[trigger] placed@[slots@[j] as int]
            == ids@[j] by {
            if j < k {
                assert(slots@[j] != slots@[k as int]);
            }
        }
    }
    placed
}

/// Ids in increasing order, as `BTreeMap::keys` walks them.
pub open spec fn increasing_ids(ids: Seq<usize>) -> bool {
    forall|i: int, j: int| 0 <= i < j < ids.len() ==> ids[i] < ids[j]
}

/// Shuffles the ids of `files` into the front of `playlist`: first `n`
/// zeros are added at the back, where `n` is the number of files, then the
/// ids, in increasing order, are written each to a slot among the first `n`
/// positions that the system clock picks among those still free.
pub fn re_shuffle(files: &mut BTreeMap<usize, FileInfo>, playlist: &mut VecDeque<usize>)
    ensures
        final(files)@ == old(files)@,
        final(playlist)@.len() == old(playlist)@.len() + old(files)@.len(),
        exists|ids: Seq<usize>, readings: Seq<ClockReading>|
            #![trigger placed_by(ids, reading_values(readings), final(playlist)@.take(old(files)@.len() as int))]
            {
                &&& increasing_ids(ids)
                &&& ids.to_set() == old(files)@.dom()
                &&& ids.len() == old(files)@.len()
                &&& readings.len() == ids.len()
                &&& placed_by(
                    ids,
                    reading_values(readings),
                    final(playlist)@.take(old(files)@.len() as int),
                )
            },
        final(playlist)@.take(old(files)@.len() as int).no_duplicates(),
        final(playlist)@.take(old(files)@.len() as int).to_set() == old(files)@.dom(),
        final(playlist)@.skip(old(files)@.len() as int) == (old(playlist)@ + Seq::new(
            old(files)@.len(),
            |i: int| 0usize,
        )).skip(old(files)@.len() as int),
{
    let ids = ids_in_order(files);
    let n = ids.len();
    let ghost start = playlist@;
    let ghost base = start + Seq::new(n as nat, |i: int| 0usize);
    for i in 0..n
        invariant
            playlist@ == start + Seq::new(i as nat, |j: int| 0usize),
    {
        playlist.push_back(0);
        assert(playlist@ =~= start + Seq::new((i + 1) as nat, |j: int| 0usize));
    }
    let mut draws: Vec<usize> = Vec::new();
    let ghost mut readings: Seq<ClockReading> = Seq::empty();
    for i in 0..n
        invariant
            draws@.len() == i,
            draws@ == reading_values(readings),
    {
        let reading = clock_micros();
        draws.push(reading.value());
        proof {
            readings = readings.push(reading);
            assert(reading_values(readings) =~= draws@);
        }
    }
    let placed = place_by_draws(&ids, &draws);
    let ghost len = playlist@.len();
    for p in 0..n
        invariant
            n == placed@.len(),
            len == base.len(),
            len == start.len() + n,
            playlist@.len() == len,
            forall|j: int| 0 <= j < p ==> #[trigger] playlist@[j] == placed@[j],
            forall|j: int| p <= j < len ==> #[trigger] playlist@[j] == base[j],
    {
        let ghost before = playlist@;
        playlist.remove(p);
        playlist.insert(p, placed[p]);
        assert(playlist@ =~= before.update(p as int, placed@[p as int]));
    }
    proof {
        let listed = playlist@.take(n as int);
        assert(listed =~= placed@);
        lemma_placed_positions(ids@, draws@, placed@);
        let slots = shuffled_slots(n as nat, draws@);
        assert forall|i: int, j: int| 0 <= i < listed.len() && 0 <= j < listed.len() && i != j implies
            listed[i] != listed[j] by {
            let ki = slot_owner(n as nat, draws@, i);
            let kj = slot_owner(n as nat, draws@, j);
            assert(placed@[i] == ids@[ki] && placed@[j] == ids@[kj]);
            assert(ki != kj);
            if ki < kj {
                assert(ids@[ki] < ids@[kj]);
            } else {
                assert(ids@[kj] < ids@[ki]);
            }
        }
        assert forall|x: usize| #[trigger] listed.to_set().contains(x) <==> files@.dom().contains(x) by {
            if listed.to_set().contains(x) {
                let p = choose|p: int| 0 <= p < listed.len() && listed[p] == x;
                let k = slot_owner(n as nat, draws@, p);
                assert(placed@[p] == ids@[k]);
                assert(ids@.to_set().contains(ids@[k]));
            }
            if files@.dom().contains(x) {
                assert(ids@.to_set().contains(x));
                let k = choose|k: int| 0 <= k < ids@.len() && ids@[k] == x;
                lemma_shuffled_slots_permutation(n as nat, draws@);
                let p = slots[k] as int;
                assert(placed@[p] == x);
                assert(listed[p] == x);
                assert(listed.contains(x));
            }
        }
        assert(listed.to_set() =~= files@.dom());
        assert forall|p: int| 0 <= p < len - n implies #[trigger] playlist@.skip(n as int)[p] == base.skip(
            n as int,
        )[p] by {
            assert(playlist@[p + n] == base[p + n]);
        }
        assert(playlist@.skip(n as int) =~= base.skip(n as int));
        assert(files@.len() == n);
        assert(placed_by(ids@, reading_values(readings), playlist@.take(files@.len() as int)));
    }
}

/// A freshly shuffled playlist of all the ids of `files`: each id once, in
/// an order that the system clock picks.
pub fn shuffle(files: &mut BTreeMap<usize, FileInfo>) -> (playlist: VecDeque<usize>)
    ensures
        final(files)@ == old(files)@,
        playlist@.len() == old(files)@.len(),
        exists|ids: Seq<usize>, readings: Seq<ClockReading>|
            #![trigger placed_by(ids, reading_values(readings), playlist@)]
            {
                &&& increasing_ids(ids)
                &&& ids.to_set() == old(files)@.dom()
                &&& ids.len() == old(files)@.len()
                &&& readings.len() == ids.len()
                &&& placed_by(ids, reading_values(readings), playlist@)
            },
        playlist@.no_duplicates(),
        playlist@.to_set() == old(files)@.dom(),
{
    let mut playlist: VecDeque<usize> = VecDeque::new();
    re_shuffle(files, &mut playlist);
    assert(playlist@.take(files@.len() as int) =~= playlist@);
    playlist
}

/// Takes the next song off the front of the playlist.
///
/// Returns `false` and changes nothing when the playlist has ended;
/// otherwise writes the song's id to `file_idx`, removes it and returns
/// `true`.
pub fn next(playlist: &mut VecDeque<usize>, file_idx: &mut usize) -> (found: bool)
    ensures
        found == (old(playlist)@.len() > 0),
        found ==> *final(file_idx) == old(playlist)@[0] && final(playlist)@ == old(
            playlist,
        )@.drop_first(),
        !found ==> *final(file_idx) == *old(file_idx) && final(playlist)@ == old(playlist)@,
{
    match playlist.pop_front() {
        Some(idx) => {
            *file_idx = idx;
            true
        },
        None => false,
    }
}

/// Drops from the playlist the first song that is no longer on the file
/// list, if there is one; only that one.
pub fn update(playlist: &mut VecDeque<usize>, files: &BTreeMap<usize, FileInfo>)
    ensures
        ({
            let j = first_with_listing(old(playlist)@, files@, false);
            if j < old(playlist)@.len() {
                final(playlist)@ == old(playlist)@.remove(j)
            } else {
                final(playlist)@ == old(playlist)@
            }
        }),
{
    let n = playlist.len();
    let mut i: usize = 0;
    while i < n && files.contains_key(&playlist[i])
        invariant
            n == playlist@.len(),
            0 <= i <= n,
            forall|j: int| 0 <= j < i ==> files@.contains_key(#[trigger] playlist@[j]) != false,
        decreases n - i,
    {
        proof {
            lemma_ids_are_ordered();
        }
        i = i + 1;
    }
    proof {
        lemma_first_with_listing(playlist@, files@, false, i as int);
    }
    if i < n {
        playlist.remove(i);
    }
}

/// Drops from `ids` every song that is no longer on the file list, keeping
/// the others in order.
pub fn retain_listed(ids: &mut VecDeque<usize>, files: &BTreeMap<usize, FileInfo>)
    ensures
        final(ids)@ == old(ids)@.filter(|i: usize| files@.contains_key(i)),
{
    let ghost listed = |i: usize| files@.contains_key(i);
    let ghost start = ids@;
    let mut kept: VecDeque<usize> = VecDeque::new();
    let n = ids.len();
    for k in 0..n
        invariant
            listed == (|i: usize| files@.contains_key(i)),
            ids@ == start,
            n == start.len(),
            kept@ == start.take(k as int).filter(listed),
    {
        proof {
            lemma_ids_are_ordered();
        }
        let id = ids[k];
        let ghost before = kept@;
        if files.contains_key(&id) {
            kept.push_back(id);
        }
        proof {
            reveal_with_fuel(Seq::<_>::filter, 1);
            let t1 = start.take(k + 1);
            assert(t1.drop_last() =~= start.take(k as int));
            assert(t1.last() == id);
        }
    }
    assert(start.take(n as int) =~= start);
    *ids = kept;
}

/// A song in a playlist of file names.
#[derive(Debug, Clone)]
pub struct PlaylistItem {
    /// The file of the song.
    pub file: String,
    /// Its position in the list of files the playlist was made from.
    pub file_idx: usize,
    /// Whether it has been played.
    pub played: bool,
}

impl PlaylistItem {
    /// A placeholder item: no file, position 0, not played.
    pub fn new_empty() -> (item: Self)
        ensures
            item.file@ == Seq::<char>::empty(),
            item.file_idx == 0,
            !item.played,
    {
        Self { file: String::new(), file_idx: 0, played: false }
    }

    /// The item for `file` at position `idx`, not played yet.
    pub fn new(idx: usize, file: String) -> (item: Self)
        ensures
            item.file == file,
            item.file_idx == idx,
            !item.played,
    {
        Self { file: file, file_idx: idx, played: false }
    }
}

/// The unplayed item for position `j` of `files`.
pub open spec fn fresh_item(files: Seq<String>, j: int) -> PlaylistItem {
    PlaylistItem { file: files[j], file_idx: j as usize, played: false }
}

/// The unplayed items of `files`, in order.
pub open spec fn fresh_items(files: Seq<String>) -> Seq<PlaylistItem> {
    Seq::new(files.len(), |j: int| fresh_item(files, j))
}

/// The playlist of `files` that `draws` shuffle: the unplayed item of the
/// file number `k` stands at the slot that the pick number `k` takes.
pub fn playlist_by_draws(files: &Vec<String>, draws: &Vec<usize>) -> (playlist: Vec<PlaylistItem>)
    requires
        draws@.len() >= files@.len(),
    ensures
        placed_by(fresh_items(files@), draws@, playlist@),
{
    let n = files.len();
    let mut indices: Vec<usize> = Vec::new();
    for i in 0..n
        invariant
            indices@ == Seq::new(i as nat, |j: int| j as usize),
    {
        indices.push(i);
        assert(indices@ =~= Seq::new((i + 1) as nat, |j: int| j as usize));
    }
    let order = place_by_draws(&indices, draws);
    let mut playlist: Vec<PlaylistItem> = Vec::new();
    proof {
        lemma_placed_positions(indices@, draws@, order@);
    }
    for p in 0..n
        invariant
            n == files@.len(),
            n == order@.len(),
            indices@ == Seq::new(n as nat, |j: int| j as usize),
            forall|q: int|
                #![trigger order@[q]]
                #![trigger slot_owner(n as nat, draws@, q)]
                0 <= q < n ==> {
                    let k = slot_owner(n as nat, draws@, q);
                    &&& 0 <= k < n
                    &&& shuffled_slots(n as nat, draws@)[k] == q
                    &&& order@[q] == indices@[k]
                },
            playlist@.len() == p,
            forall|q: int| 0 <= q < p ==> #[trigger] playlist@[q] == fresh_item(files@, order@[q] as int),
    {
        let i = order[p];
        assert(i < n) by {
            assert(order@[p as int] == indices@[slot_owner(n as nat, draws@, p as int)]);
        }
        playlist.push(PlaylistItem::new(i, files[i].clone()));
    }
    proof {
        let items = fresh_items(files@);
        assert forall|k: int| 0 <= k < items.len() implies #[trigger] playlist@[shuffled_slots(
            items.len(),
            draws@,
        )[k] as int] == items[k] by {
            assert(order@[shuffled_slots(n as nat, draws@)[k] as int] == indices@[k]);
            lemma_shuffled_slots_permutation(n as nat, draws@);
        }
    }
    playlist
}

/// A shuffled playlist of `files`: each file once, as an unplayed item that
/// records its position in `files`, in an order that the system clock picks.
pub fn playlist_shuffle(files: &Vec<String>) -> (playlist: Vec<PlaylistItem>)
    ensures
        exists|readings: Seq<ClockReading>|
            #![trigger placed_by(fresh_items(files@), reading_values(readings), playlist@)]
            readings.len() == files@.len() && placed_by(
                fresh_items(files@),
                reading_values(readings),
                playlist@,
            ),
        playlist@.len() == files@.len(),
        forall|p: int|
            0 <= p < playlist@.len() ==> #[trigger] playlist@[p].file_idx < files@.len()
                && playlist@[p].file == files@[playlist@[p].file_idx as int] && !playlist@[p].played,
        forall|p: int, q: int|
            0 <= p < q < playlist@.len() ==> #[trigger] playlist@[p].file_idx
                != #[trigger] playlist@[q].file_idx,
{
    let n = files.len();
    let mut draws: Vec<usize> = Vec::new();
    let ghost mut readings: Seq<ClockReading> = Seq::empty();
    for i in 0..n
        invariant
            draws@.len() == i,
            draws@ == reading_values(readings),
    {
        let reading = clock_micros();
        draws.push(reading.value());
        proof {
            readings = readings.push(reading);
            assert(reading_values(readings) =~= draws@);
        }
    }
    let playlist = playlist_by_draws(files, &draws);
    proof {
        let items = fresh_items(files@);
        lemma_placed_positions(items, draws@, playlist@);
        lemma_shuffled_slots_permutation(n as nat, draws@);
        assert forall|p: int| 0 <= p < playlist@.len() implies #[trigger] playlist@[p].file_idx
            < files@.len() && playlist@[p].file == files@[playlist@[p].file_idx as int]
            && !playlist@[p].played by {
            assert(playlist@[p] == items[slot_owner(n as nat, draws@, p)]);
        }
        assert forall|p: int, q: int| 0 <= p < q < playlist@.len() implies #[trigger] playlist@[p].file_idx
            != #[trigger] playlist@[q].file_idx by {
            let kp = slot_owner(n as nat, draws@, p);
            let kq = slot_owner(n as nat, draws@, q);
            assert(playlist@[p] == items[kp] && playlist@[q] == items[kq]);
        }
        assert(placed_by(items, reading_values(readings), playlist@));
    }
    playlist
}

} // verus!
