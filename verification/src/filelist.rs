use std::collections::BTreeMap;
use vstd::prelude::*;
use vstd::string::StringExecFns;
use vstd::std_specs::btree::{spec_keys_iter, increasing_seq};
use vstd::std_specs::iter::IteratorSpec;
use vstd::std_specs::cmp::OrdSpec;
use vstd::laws_cmp::obeys_cmp;
use crate::text::{
    chars_of, contains_text, last_index_of, lemma_contains_text_is_substring,
    lemma_last_index_of_unique, lemma_text_le_total, lemma_text_le_transitive, same_text,
    text_contains, text_le, text_le_exec,
};

verus! {

broadcast use vstd::laws_cmp::group_laws_cmp;

/// An audio file known to the player.
#[derive(Debug)]
pub struct FileInfo {
    /// Where the file is.
    pub path: String,
    /// The last component of `path`.
    pub name: String,
    /// The length in seconds; 0 until the player has measured it.
    pub length: i32,
}

/// The part of `path` after its last `/`: the whole path when it has none.
pub open spec fn name_of(path: Seq<char>) -> Seq<char> {
    path.skip(last_index_of(path, '/') + 1)
}

impl FileInfo {
    /// A file entry for `path`, with its name taken from the path and an
    /// unknown length.
    pub fn new(path: String) -> (r: Self)
        ensures
            r.path == path,
            r.name@ == name_of(path@),
            r.length == 0,
    {
        let chars = chars_of(path.as_str());
        let n = chars.len();
        let mut i: usize = n;
        while i > 0 && chars[i - 1] != '/'
            invariant
                chars@ == path@,
                n == path@.len(),
                0 <= i <= n,
                forall|j: int| i <= j < n ==> path@[j] != '/',
            decreases i,
        {
            i = i - 1;
        }
        proof {
            lemma_last_index_of_unique(path@, '/', i - 1);
        }
        let name = String::from_str(path.as_str().substring_char(i, n));
        assert(name@ =~= name_of(path@));
        FileInfo { path: path.clone(), name, length: 0 }
    }
}

impl Clone for FileInfo {
    fn clone(&self) -> (r: Self)
        ensures
            r == *self,
    {
        FileInfo { path: self.path.clone(), name: self.name.clone(), length: self.length }
    }
}

/// `usize` ids are ordered as the ordered maps of std expect.
pub proof fn lemma_ids_are_ordered()
    ensures
        obeys_cmp::<usize>(),
{
}

proof fn lemma_increasing_ids(keys: Seq<&usize>)
    requires
        increasing_seq(keys),
    ensures
        forall|i: int, j: int| 0 <= i < j < keys.len() ==> *keys[i] < *keys[j],
{
    assert(obeys_cmp::<usize>());
    assert(obeys_cmp::<&usize>());
    assert forall|i: int, j: int| 0 <= i < j < keys.len() implies *keys[i] < *keys[j] by {
        let a: &usize = keys[i];
        let b: &usize = keys[j];
        assert((&a).cmp_spec(&b) is Less);
    }
}

/// The ids of `files`, from the smallest up, as `BTreeMap::keys` walks them.
pub fn ids_in_order(files: &BTreeMap<usize, FileInfo>) -> (ids: Vec<usize>)
    ensures
        ids@.to_set() == files@.dom(),
        ids@.len() == files@.dom().len(),
        forall|i: int, j: int| 0 <= i < j < ids@.len() ==> ids@[i] < ids@[j],
{
    let mut ids: Vec<usize> = Vec::new();
    for k in it: files.keys()
        invariant
            ids@ == it.seq().take(it.index() as int).map_values(|r: &usize| *r),
            it.seq() == spec_keys_iter(files).remaining(),
    {
        ids.push(*k);
    }
    let ghost keys = spec_keys_iter(files).remaining();
    proof {
        assert(keys.take(keys.len() as int) =~= keys);
        assert(ids@ =~= keys.map_values(|r: &usize| *r));
        assert(keys.unref() =~= ids@);
        lemma_increasing_ids(keys);
    }
    ids
}

/// Takes the file `id` off the list and hands it back; `None` when the list
/// holds no such file.
pub fn remove(files: &mut BTreeMap<usize, FileInfo>, id: usize) -> (removed: Option<FileInfo>)
    ensures
        final(files)@ == old(files)@.remove(id),
        removed == (if old(files)@.contains_key(id) {
            Some(old(files)@[id])
        } else {
            None
        }),
{
    files.remove(&id)
}

/// The file list once `measured` is kept as the length of the file
/// `file_idx`: only a listed file whose length is still unknown takes it.
pub open spec fn with_length(files: Map<usize, FileInfo>, file_idx: usize, measured: i32) -> Map<
    usize,
    FileInfo,
> {
    if files.contains_key(file_idx) && files[file_idx].length == 0 {
        files.insert(file_idx, FileInfo { length: measured, ..files[file_idx] })
    } else {
        files
    }
}

/// Keeps the length in seconds that the player measured for the file
/// `file_idx`, unless a length is known for it already.
pub fn record_length(files: &mut BTreeMap<usize, FileInfo>, file_idx: usize, measured: i32)
    ensures
        final(files)@ == with_length(old(files)@, file_idx, measured),
{
    proof {
        lemma_ids_are_ordered();
    }
    let updated = match files.get(&file_idx) {
        Some(file) => {
            if file.length == 0 {
                let mut f = file.clone();
                f.length = measured;
                Some(f)
            } else {
                None
            }
        },
        None => None,
    };
    match updated {
        Some(f) => {
            files.insert(file_idx, f);
        },
        None => {},
    }
}

/// The path of `file` contains `pattern`.
pub open spec fn path_matches(file: FileInfo, pattern: Seq<char>) -> bool {
    contains_text(file.path@, pattern)
}

/// A file matches a pattern exactly when the pattern stands somewhere in its
/// path.
pub proof fn lemma_path_matches_substring(file: FileInfo, pattern: Seq<char>)
    ensures
        path_matches(file, pattern) <==> exists|i: int|
            0 <= i && i + pattern.len() <= file.path@.len() && #[trigger] file.path@.subrange(
                i,
                i + pattern.len(),
            ) == pattern,
{
    lemma_contains_text_is_substring(file.path@, pattern);
}

/// Tests whether the path of `file` contains `pattern`, case sensitively.
fn path_match(file: FileInfo, pattern: String) -> (r: bool)
    ensures
        r == path_matches(file, pattern@),
{
    let path = chars_of(file.path.as_str());
    let pat = chars_of(pattern.as_str());
    text_contains(&path, &pat)
}

/// Takes off the list every file whose path contains `pattern`.
pub fn remove_by_pattern(files: &mut BTreeMap<usize, FileInfo>, pattern: String)
    ensures
        forall|k: usize|
            #![trigger final(files)@.contains_key(k)]
            final(files)@.contains_key(k) <==> (old(files)@.contains_key(k) && !path_matches(
                old(files)@[k],
                pattern@,
            )),
        forall|k: usize| #[trigger]
            final(files)@.contains_key(k) ==> final(files)@[k] == old(files)@[k],
{
    let ghost start = files@;
    let ids = ids_in_order(files);
    let mut to_be_remove: Vec<usize> = Vec::new();
    for i in 0..ids.len()
        invariant
            files@ == start,
            ids@.to_set() == start.dom(),
            forall|x: usize|
                to_be_remove@.contains(x) ==> start.contains_key(x) && path_matches(
                    start[x],
                    pattern@,
                ),
            forall|j: int|
                0 <= j < i && path_matches(start[ids@[j]], pattern@) ==> to_be_remove@.contains(
                    ids@[j],
                ),
    {
        let id = ids[i];
        assert(ids@.to_set().contains(id));
        let file = files.get(&id).unwrap();
        let ghost before = to_be_remove@;
        if path_match(file.clone(), pattern.clone()) {
            to_be_remove.push(id);
            assert(to_be_remove@[before.len() as int] == id);
        }
        assert forall|j: int|
            0 <= j < i + 1 && path_matches(start[ids@[j]], pattern@) implies to_be_remove@.contains(
            ids@[j],
        ) by {
            if j < i {
                let w = choose|w: int| 0 <= w < before.len() && before[w] == ids@[j];
                assert(to_be_remove@[w] == ids@[j]);
            }
        }
        assert forall|x: usize| to_be_remove@.contains(x) implies start.contains_key(x)
            && path_matches(start[x], pattern@) by {
            let w = choose|w: int| 0 <= w < to_be_remove@.len() && to_be_remove@[w] == x;
            if w < before.len() {
                assert(before[w] == x);
            }
        }
    }
    assert forall|k: usize| start.contains_key(k) && path_matches(start[k], pattern@) implies
        to_be_remove@.contains(k) by {
        assert(ids@.to_set().contains(k));
        let j = choose|j: int| 0 <= j < ids@.len() && ids@[j] == k;
    }
    for t in 0..to_be_remove.len()
        invariant
            forall|x: usize|
                to_be_remove@.contains(x) ==> start.contains_key(x) && path_matches(
                    start[x],
                    pattern@,
                ),
            forall|k: usize|
                start.contains_key(k) && path_matches(start[k], pattern@) ==> to_be_remove@.contains(k),
            forall|k: usize|
                #![trigger files@.contains_key(k)]
                files@.contains_key(k) <==> (start.contains_key(k) && !to_be_remove@.take(
                    t as int,
                ).contains(k)),
            forall|k: usize| #[trigger] files@.contains_key(k) ==> files@[k] == start[k],
    {
        let id = to_be_remove[t];
        files.remove(&id);
        assert forall|k: usize|
            #![trigger files@.contains_key(k)]
            files@.contains_key(k) <==> (start.contains_key(k) && !to_be_remove@.take(
                t + 1,
            ).contains(k)) by {
            let a = to_be_remove@.take(t as int);
            let b = to_be_remove@.take(t + 1);
            assert(b =~= a.push(id));
            if a.contains(k) {
                let w = choose|w: int| 0 <= w < a.len() && a[w] == k;
                assert(b[w] == k);
            }
            if b.contains(k) && k != id {
                let w = choose|w: int| 0 <= w < b.len() && b[w] == k;
                assert(a[w] == k);
            }
            if k == id {
                assert(b[t as int] == k);
            }
        }
    }
    assert(to_be_remove@.take(to_be_remove@.len() as int) =~= to_be_remove@);
}

/// The texts of a sequence of strings.
pub open spec fn path_views(paths: Seq<String>) -> Seq<Seq<char>> {
    paths.map_values(|p: String| p@)
}

/// Each text comes no later than the ones after it.
pub open spec fn texts_sorted(s: Seq<Seq<char>>) -> bool {
    forall|i: int, j: int| 0 <= i < j < s.len() ==> text_le(#[trigger] s[i], #[trigger] s[j])
}

/// The paths of the files numbered `0 .. n`.
pub open spec fn listed_paths(files: Map<usize, FileInfo>, n: nat) -> Seq<Seq<char>> {
    Seq::new(n, |id: int| files[id as usize].path@)
}

proof fn lemma_insert_to_multiset<A>(s: Seq<A>, i: int, x: A)
    requires
        0 <= i <= s.len(),
    ensures
        s.insert(i, x).to_multiset() =~= s.to_multiset().insert(x),
{
    broadcast use vstd::seq_lib::group_to_multiset_ensures;

    let t = s.insert(i, x);
    assert(t.remove(i) =~= s);
    assert(t[i] == x);
    assert(t.contains(x));
    assert(t.to_multiset().count(x) > 0);
    assert(s.to_multiset() =~= t.to_multiset().remove(x));
}

proof fn lemma_insert_sorted(s: Seq<Seq<char>>, j: int, x: Seq<char>)
    requires
        texts_sorted(s),
        0 <= j <= s.len(),
        forall|t: int| 0 <= t < j ==> text_le(#[trigger] s[t], x),
        j < s.len() ==> !text_le(s[j], x),
    ensures
        texts_sorted(s.insert(j, x)),
{
    let r = s.insert(j, x);
    if j < s.len() {
        lemma_text_le_total(s[j], x);
    }
    assert forall|a: int, b: int| 0 <= a < b < r.len() implies text_le(
        #[trigger] r[a],
        #[trigger] r[b],
    ) by {
        if b < j {
            assert(r[a] == s[a] && r[b] == s[b]);
        } else if b == j {
            assert(r[a] == s[a]);
        } else if a == j {
            assert(r[b] == s[b - 1]);
            if b - 1 > j {
                lemma_text_le_transitive(x, s[j], s[b - 1]);
            }
        } else if a < j {
            assert(r[a] == s[a] && r[b] == s[b - 1]);
        } else {
            assert(r[a] == s[a - 1] && r[b] == s[b - 1]);
        }
    }
}

/// `paths` put in the order of `String`.
fn sort_paths(paths: &Vec<String>) -> (sorted: Vec<String>)
    ensures
        path_views(sorted@).to_multiset() == path_views(paths@).to_multiset(),
        texts_sorted(path_views(sorted@)),
{
    broadcast use vstd::seq_lib::group_to_multiset_ensures;

    let n = paths.len();
    let mut sorted: Vec<String> = Vec::new();
    let mut keys: Vec<Vec<char>> = Vec::new();
    assert(path_views(paths@.take(0)) =~= Seq::<Seq<char>>::empty());
    assert(path_views(sorted@) =~= Seq::<Seq<char>>::empty());
    for i in 0..n
        invariant
            n == paths@.len(),
            sorted@.len() == keys@.len(),
            forall|t: int| 0 <= t < keys@.len() ==> #[trigger] keys@[t]@ == sorted@[t]@,
            texts_sorted(path_views(sorted@)),
            path_views(sorted@).to_multiset() == path_views(paths@.take(i as int)).to_multiset(),
    {
        let s = paths[i].clone();
        let k = chars_of(s.as_str());
        let mut j: usize = 0;
        while j < keys.len() && text_le_exec(&keys[j], &k)
            invariant
                sorted@.len() == keys@.len(),
                forall|t: int| 0 <= t < keys@.len() ==> #[trigger] keys@[t]@ == sorted@[t]@,
                k@ == s@,
                0 <= j <= keys@.len(),
                forall|t: int| 0 <= t < j ==> text_le(#[trigger] path_views(sorted@)[t], s@),
            decreases keys@.len() - j,
        {
            j = j + 1;
        }
        let ghost old_views = path_views(sorted@);
        proof {
            lemma_insert_sorted(old_views, j as int, s@);
            lemma_insert_to_multiset(old_views, j as int, s@);
            assert(path_views(paths@.take(i + 1)) =~= path_views(paths@.take(i as int)).push(
                paths@[i as int]@,
            ));
        }
        sorted.insert(j, s);
        keys.insert(j, k);
        proof {
            assert(path_views(sorted@) =~= old_views.insert(j as int, paths@[i as int]@));
            assert(path_views(sorted@).to_multiset() =~= old_views.to_multiset().insert(
                paths@[i as int]@,
            ));
            let v0 = path_views(paths@.take(i as int));
            let v1 = path_views(paths@.take(i + 1));
            assert(v1 =~= v0.push(paths@[i as int]@));
            vstd::seq_lib::to_multiset_build(v0, paths@[i as int]@);
            assert forall|t: int| 0 <= t < keys@.len() implies #[trigger] keys@[t]@ == sorted@[t]@ by {
                if t < j {
                } else if t > j {
                }
            }
        }
    }
    assert(paths@.take(n as int) =~= paths@);
    sorted
}

/// Numbers the audio files that a scan found: their paths are sorted in the
/// order of `String`, and the file with the i-th path gets the id `i`.
/// Ids from the number of paths up keep what they had.
pub fn scan_and_sort_path(paths: Vec<String>, files: &mut BTreeMap<usize, FileInfo>)
    ensures
        forall|id: usize|
            #![trigger final(files)@[id]]
            #![trigger final(files)@.contains_key(id)]
            id < paths@.len() ==> final(files)@.contains_key(id) && final(files)@[id].name@
                == name_of(final(files)@[id].path@) && final(files)@[id].length == 0,
        listed_paths(final(files)@, paths@.len()).to_multiset() == path_views(
            paths@,
        ).to_multiset(),
        texts_sorted(listed_paths(final(files)@, paths@.len())),
        forall|id: usize|
            #![trigger final(files)@.contains_key(id)]
            id >= paths@.len() ==> (final(files)@.contains_key(id) == old(files)@.contains_key(id)
                && (final(files)@.contains_key(id) ==> final(files)@[id] == old(files)@[id])),
{
    let files_str = sort_paths(&paths);
    let n = files_str.len();
    proof {
        lemma_ids_are_ordered();
    }
    proof {
        broadcast use vstd::seq_lib::group_to_multiset_ensures;
        assert(path_views(files_str@).to_multiset().len() == path_views(files_str@).len());
        assert(path_views(paths@).to_multiset().len() == path_views(paths@).len());
        assert(path_views(files_str@).len() == path_views(paths@).len());
    }
    let mut id: usize = 0;
    while id < n
        invariant
            n == files_str@.len(),
            id <= n,
            forall|k: usize|
                #![trigger files@[k]]
                #![trigger files@.contains_key(k)]
                k < id ==> files@.contains_key(k) && files@[k].path == files_str@[k as int]
                    && files@[k].name@ == name_of(files@[k].path@) && files@[k].length == 0,
            forall|k: usize|
                #![trigger files@.contains_key(k)]
                k >= id ==> (files@.contains_key(k) == old(files)@.contains_key(k) && (
                files@.contains_key(k) ==> files@[k] == old(files)@[k])),
        decreases n - id,
    {
        proof {
            lemma_ids_are_ordered();
        }
        let info = FileInfo::new(files_str[id].clone());
        let ghost before = files@;
        files.insert(id, info);
        assert(files@ == before.insert(id, info));
        assert(files@.contains_key(id));
        assert(files@[id] == info);
        assert(info.path == files_str@[id as int]);
        assert(info.name@ == name_of(info.path@));
        assert forall|k: usize|
            #![trigger files@[k]]
            #![trigger files@.contains_key(k)]
            k < id + 1 implies files@.contains_key(k) && files@[k].path
            == files_str@[k as int] && files@[k].name@ == name_of(files@[k].path@)
            && files@[k].length == 0 by {
            if k < id {
                assert(before[k] == files@[k]);
            }
        }
        id = id + 1;
    }
    assert(listed_paths(files@, n as nat) =~= path_views(files_str@));
}

/// What a scanned file's extension makes of it.
#[derive(Debug)]
pub enum AudioFileKind {
    /// One of the extensions the player plays.
    Supported,
    /// An extension the player does not play.
    Unsupported { ext: String },
    /// No `.` in the path at all.
    NoExtension,
}

/// The extensions the player plays.
pub open spec fn supported_extension(ext: Seq<char>) -> bool {
    ext == "mp3"@ || ext == "flac"@ || ext == "ogg"@ || ext == "wav"@
}

/// The extensions the player plays are exactly `mp3`, `flac`, `ogg` and
/// `wav`.
pub proof fn lemma_supported_extensions(ext: Seq<char>)
    ensures
        supported_extension(ext) <==> (ext == "mp3"@ || ext == "flac"@ || ext == "ogg"@ || ext
            == "wav"@),
{
}

/// Sorts a scanned file by the text after the last `.` of its path.
pub fn audio_file_kind(path: &str) -> (kind: AudioFileKind)
    ensures
        last_index_of(path@, '.') < 0 ==> kind is NoExtension,
        last_index_of(path@, '.') >= 0 ==> {
            let ext = path@.skip(last_index_of(path@, '.') + 1);
            if ext == "mp3"@ || ext == "flac"@ || ext == "ogg"@ || ext == "wav"@ {
                kind is Supported
            } else {
                kind matches AudioFileKind::Unsupported { ext: e } && e@ == ext
            }
        },
{
    let chars = chars_of(path);
    let n = chars.len();
    let mut i: usize = n;
    while i > 0 && chars[i - 1] != '.'
        invariant
            chars@ == path@,
            n == path@.len(),
            0 <= i <= n,
            forall|j: int| i <= j < n ==> path@[j] != '.',
        decreases i,
    {
        i = i - 1;
    }
    proof {
        lemma_last_index_of_unique(path@, '.', i - 1);
    }
    if i == 0 {
        return AudioFileKind::NoExtension;
    }
    let ext = path.substring_char(i, n);
    assert(ext@ =~= path@.skip(i as int));
    if same_text(ext, "mp3") || same_text(ext, "flac") || same_text(ext, "ogg") || same_text(
        ext,
        "wav",
    ) {
        AudioFileKind::Supported
    } else {
        AudioFileKind::Unsupported { ext: String::from_str(ext) }
    }
}

/// The first position in `ids` whose file is on the list (`listed`) or off
/// it (`!listed`); `ids.len()` when there is none.
pub open spec fn first_with_listing(ids: Seq<usize>, files: Map<usize, FileInfo>, listed: bool) -> int
    decreases ids.len(),
{
    if ids.len() == 0 {
        0
    } else if files.contains_key(ids[0]) == listed {
        0
    } else {
        1 + first_with_listing(ids.drop_first(), files, listed)
    }
}

pub proof fn lemma_first_with_listing(
    ids: Seq<usize>,
    files: Map<usize, FileInfo>,
    listed: bool,
    i: int,
)
    requires
        0 <= i <= ids.len(),
        forall|j: int| 0 <= j < i ==> files.contains_key(#[trigger] ids[j]) != listed,
        i < ids.len() ==> files.contains_key(ids[i]) == listed,
    ensures
        first_with_listing(ids, files, listed) == i,
    decreases i,
{
    if i > 0 {
        assert forall|j: int| 0 <= j < i - 1 implies files.contains_key(
            #[trigger] ids.drop_first()[j],
        ) != listed by {
            assert(ids.drop_first()[j] == ids[j + 1]);
        }
        assert(files.contains_key(ids[0]) != listed);
        lemma_first_with_listing(ids.drop_first(), files, listed, i - 1);
    }
}

} // verus!
