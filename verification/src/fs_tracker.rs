//! The monitor's record of known files and of their digests, and how
//! file-system events change it.
//!
//! The record is changed here; the work the change calls for (hashing a
//! file, walking a directory, updating the key-value store) is returned as
//! a list of `FsAction`s, and its outcome is handed back by the callers.

use vstd::prelude::*;
use dashmap::DashMap;
use crate::deps::str_views;
use crate::fs_watch::{bytes_to_hex, hex_of, FileInfo, FileState, FileType, IgnoreList};
use crate::text::concat3;
use crate::textscan::chars_of;
use sha3::Digest;

verus! {

#[verifier::external_type_specification]
#[verifier::external_body]
#[verifier::reject_recursive_types(K)]
#[verifier::reject_recursive_types(V)]
#[verifier::reject_recursive_types(S)]
pub struct ExDashMap<K, V, S>(DashMap<K, V, S>);

/// A concurrent map from known paths to their records.
pub type FileMap = DashMap<String, FileInfo>;

/// What a map of known files holds: for each path, its record.
pub uninterp spec fn file_entries(m: FileMap) -> Map<Seq<char>, FileInfo>;

/// The map with no entry.
pub open spec fn no_files() -> Map<Seq<char>, FileInfo> {
    Map::empty()
}

/// `DashMap::new`: an empty map.
#[verifier::external_body]
fn file_map_new() -> (r: FileMap)
    ensures
        file_entries(r) == no_files(),
{
    DashMap::new()
}

/// `DashMap::insert`: sets the record of `key`, replacing any earlier one.
#[verifier::external_body]
fn file_map_insert(m: &mut FileMap, key: String, info: FileInfo)
    ensures
        file_entries(*final(m)) == file_entries(*old(m)).insert(key@, info),
{
    m.insert(key, info);
}

/// `DashMap::remove`: removes the record of `key`; answers it, if there was one.
#[verifier::external_body]
fn file_map_remove(m: &mut FileMap, key: &str) -> (r: Option<FileInfo>)
    ensures
        file_entries(*final(m)) == file_entries(*old(m)).remove(key@),
        r == (if file_entries(*old(m)).dom().contains(key@) {
            Some(file_entries(*old(m))[key@])
        } else {
            None
        }),
{
    match m.remove(key) {
        Some((_, info)) => Some(info),
        None => None,
    }
}

/// `DashMap::get`: a copy of the record of `key`, if there is one.
#[verifier::external_body]
fn file_map_get(m: &FileMap, key: &str) -> (r: Option<FileInfo>)
    ensures
        r == (if file_entries(*m).dom().contains(key@) {
            Some(file_entries(*m)[key@])
        } else {
            None
        }),
{
    match m.get(key) {
        Some(entry) => Some(*entry),
        None => None,
    }
}

/// `DashMap::iter`: the known paths, each once, in the map's own order.
#[verifier::external_body]
fn file_map_keys(m: &FileMap) -> (r: Vec<String>)
    ensures
        str_views(r@).no_duplicates(),
        forall|k: Seq<char>| str_views(r@).contains(k) <==> file_entries(*m).dom().contains(k),
{
    let mut keys: Vec<String> = Vec::new();
    for entry in m.iter() {
        keys.push(entry.key().clone());
    }
    keys
}

/// What a file-system event is, as the watcher reports it.
#[derive(Debug, Clone, Copy, PartialEq, Eq, Structural)]
pub enum FsEventKind {
    CreateFile,
    CreateFolder,
    RemoveFile,
    RemoveFolder,
    /// A file opened for writing was closed.
    CloseWrite,
    ModifyData,
    /// Something was moved into the watched tree.
    RenameTo,
    /// Something was moved out of the watched tree.
    RenameFrom,
    /// Something was moved within the watched tree (from, to).
    RenameBoth,
    Other,
}

/// Outside work that a change of the record calls for.
#[derive(Debug, Clone, PartialEq, Eq)]
pub enum FsAction {
    /// Compute the digest of the file; hand it back with `digest_ready`.
    Hash(String),
    /// List the files under the directory; hand them back with `track_walked`.
    WalkDirectory(String),
    /// Store the file's latest digest in the key-value store.
    KvPut(String, Vec<u8>),
    /// Delete the file's digest from the key-value store.
    KvDelete(String),
}

/// An action as plain values: its kind (0 hash, 1 walk, 2 put, 3 delete),
/// its path and its digest.
pub open spec fn action_view(a: FsAction) -> (int, Seq<char>, Seq<u8>) {
    match a {
        FsAction::Hash(p) => (0, p@, Seq::empty()),
        FsAction::WalkDirectory(p) => (1, p@, Seq::empty()),
        FsAction::KvPut(p, d) => (2, p@, d@),
        FsAction::KvDelete(p) => (3, p@, Seq::empty()),
    }
}

/// The actions as plain values.
pub open spec fn actions_view(v: Seq<FsAction>) -> Seq<(int, Seq<char>, Seq<u8>)> {
    v.map_values(|a: FsAction| action_view(a))
}

/// The digests of a history, oldest first.
pub open spec fn digests_view(v: Seq<Vec<u8>>) -> Seq<Seq<u8>> {
    v.map_values(|d: Vec<u8>| d@)
}

/// The monitor's model: the known files, the digest history of each
/// path, and the paths whose digest is being computed.
pub type FsModel = (Map<Seq<char>, FileInfo>, Map<Seq<char>, Seq<Seq<u8>>>, Set<Seq<char>>);

/// A new file's record.
pub open spec fn created() -> FileInfo {
    FileInfo { file_type: FileType::File, state: FileState::Created, version: 0 }
}

/// The paths of `files` under `dir` (that start with it).
pub open spec fn under(files: Map<Seq<char>, FileInfo>, dir: Seq<char>) -> Set<Seq<char>> {
    files.dom().filter(|k: Seq<char>| k.len() >= dir.len() && k.take(dir.len() as int) == dir)
}

/// Moving the history of `from` to `to`, if it has one; the key-value
/// store then loses `from` and gets the latest digest under `to`.
pub open spec fn move_history(h: Map<Seq<char>, Seq<Seq<u8>>>, from: Seq<char>, to: Seq<char>) -> (
    Map<Seq<char>, Seq<Seq<u8>>>,
    Seq<(int, Seq<char>, Seq<u8>)>,
) {
    if h.dom().contains(from) {
        let hist = h[from];
        (
            h.remove(from).insert(to, hist),
            if hist.len() > 0 {
                seq![(3int, from, Seq::<u8>::empty()), (2int, to, hist.last())]
            } else {
                Seq::empty()
            },
        )
    } else {
        (h, Seq::empty())
    }
}

/// The path a file under `from` gets when `from` is renamed to `to`.
pub open spec fn renamed(k: Seq<char>, from: Seq<char>, to: Seq<char>) -> Seq<char> {
    to + k.skip(from.len() as int)
}

/// Moving the files `ord`, in that order, from under `from` to under `to`,
/// with their histories; and the key-value updates this calls for.
pub open spec fn move_all(m: FsModel, ord: Seq<Seq<char>>, from: Seq<char>, to: Seq<char>) -> (
    FsModel,
    Seq<(int, Seq<char>, Seq<u8>)>,
)
    decreases ord.len(),
{
    if ord.len() == 0 {
        (m, Seq::empty())
    } else {
        let (m1, a1) = move_all(m, ord.drop_last(), from, to);
        let k = ord.last();
        let files = if m1.0.dom().contains(k) {
            m1.0.remove(k).insert(renamed(k, from, to), m1.0[k])
        } else {
            m1.0
        };
        let (h, a2) = move_history(m1.1, k, renamed(k, from, to));
        ((files, h, m1.2), a1 + a2)
    }
}

/// Errors of digest queries.
#[derive(Debug, Clone, PartialEq, Eq)]
pub enum FsError {
    NotFound(String),
    Other(String),
}


/// A copy of a byte string.
pub fn copy_bytes(v: &Vec<u8>) -> (r: Vec<u8>)
    ensures
        r@ == v@,
{
    let mut r: Vec<u8> = Vec::new();
    let mut i: usize = 0;
    while i < v.len()
        invariant
            i <= v@.len(),
            r@ == v@.take(i as int),
        decreases v@.len() - i,
    {
        r.push(v[i]);
        proof {
            assert(v@.take(i + 1) =~= v@.take(i as int).push(v@[i as int]));
        }
        i = i + 1;
    }
    proof {
        assert(v@.take(i as int) =~= v@);
    }
    r
}

/// The paths of a history table, in order.
pub open spec fn hist_keys(v: Seq<(String, Vec<Vec<u8>>)>) -> Seq<Seq<char>> {
    v.map_values(|e: (String, Vec<Vec<u8>>)| e.0@)
}

/// The histories of a table whose paths are distinct, by path.
pub open spec fn hist_map(v: Seq<(String, Vec<Vec<u8>>)>) -> Map<Seq<char>, Seq<Seq<u8>>> {
    Map::new(
        |k: Seq<char>| hist_keys(v).contains(k),
        |k: Seq<char>| digests_view(v[hist_keys(v).index_of(k)].1@),
    )
}

/// The digests computed for each path, oldest first.
pub struct HistoryTable {
    entries: Vec<(String, Vec<Vec<u8>>)>,
}

impl HistoryTable {
    #[verifier::type_invariant]
    spec fn keys_unique(self) -> bool {
        hist_keys(self.entries@).no_duplicates()
    }

    /// The histories, by path.
    pub closed spec fn map(self) -> Map<Seq<char>, Seq<Seq<u8>>> {
        hist_map(self.entries@)
    }

    pub fn new() -> (t: Self)
        ensures
            t.map() == Map::<Seq<char>, Seq<Seq<u8>>>::empty(),
    {
        let t = HistoryTable { entries: Vec::new() };
        proof {
            assert(hist_keys(t.entries@) =~= Seq::<Seq<char>>::empty());
            assert(t.map() =~= Map::<Seq<char>, Seq<Seq<u8>>>::empty());
        }
        t
    }

    fn find(&self, path: &str) -> (r: Option<usize>)
        ensures
            match r {
                Some(i) => i < self.entries@.len() && self.entries@[i as int].0@ == path@
                    && hist_keys(self.entries@).index_of(path@) == i && self.map().dom().contains(path@),
                None => !self.map().dom().contains(path@),
            },
    {
        broadcast use vstd::string::group_string_axioms;

        proof {
            use_type_invariant(self);
        }
        let target = path.to_string();
        let ghost keys = hist_keys(self.entries@);
        let mut i: usize = 0;
        while i < self.entries.len()
            invariant
                i <= self.entries@.len(),
                keys == hist_keys(self.entries@),
                keys.no_duplicates(),
                target@ == path@,
                forall|j: int| 0 <= j < i ==> keys[j] != path@,
            decreases self.entries@.len() - i,
        {
            if self.entries[i].0 == target {
                proof {
                    assert(keys[i as int] == path@);
                    assert(keys.contains(path@));
                    let k = keys.index_of(path@);
                    assert(keys[k] == path@);
                }
                return Some(i);
            }
            i = i + 1;
        }
        None
    }

    /// The history of a path, if it has one.
    pub fn get(&self, path: &str) -> (r: Option<Vec<Vec<u8>>>)
        ensures
            match r {
                Some(h) => self.map().dom().contains(path@) && digests_view(h@) == self.map()[path@],
                None => !self.map().dom().contains(path@),
            },
    {
        match self.find(path) {
            None => None,
            Some(i) => {
                let src = &self.entries[i].1;
                let mut h: Vec<Vec<u8>> = Vec::new();
                let mut k: usize = 0;
                while k < src.len()
                    invariant
                        k <= src@.len(),
                        digests_view(h@) == digests_view(src@.take(k as int)),
                    decreases src@.len() - k,
                {
                    let ghost before = h@;
                    h.push(copy_bytes(&src[k]));
                    proof {
                        assert(digests_view(h@) =~= digests_view(before).push(src@[k as int]@));
                        assert(digests_view(src@.take(k + 1)) =~= digests_view(src@.take(k as int)).push(src@[k as int]@));
                    }
                    k = k + 1;
                }
                proof {
                    assert(src@.take(k as int) =~= src@);
                }
                Some(h)
            },
        }
    }

    /// Removes the history of a path; answers it, if there was one.
    pub fn remove(&mut self, path: &str) -> (r: Option<Vec<Vec<u8>>>)
        ensures
            final(self).map() == old(self).map().remove(path@),
            match r {
                Some(h) => old(self).map().dom().contains(path@) && digests_view(h@) == old(self).map()[path@],
                None => !old(self).map().dom().contains(path@),
            },
    {
        proof {
            use_type_invariant(&*self);
        }
        match self.find(path) {
            None => {
                proof {
                    assert(self.map() =~= self.map().remove(path@));
                }
                None
            },
            Some(i) => {
                let ghost old_map = self.map();
                let mut v: Vec<(String, Vec<Vec<u8>>)> = Vec::new();
                proof {
                    assert(hist_keys(v@) =~= Seq::<Seq<char>>::empty());
                }
                std::mem::swap(&mut v, &mut self.entries);
                let ghost before = v@;
                let ghost keys = hist_keys(before);
                let (_, h) = v.remove(i);
                proof {
                    let nk = hist_keys(v@);
                    assert(nk =~= keys.remove(i as int));
                    assert(nk.no_duplicates()) by {
                        assert forall|a: int, b: int| 0 <= a < nk.len() && 0 <= b < nk.len() && a != b implies nk[a] != nk[b] by {
                            let a2 = if a < i { a } else { a + 1 };
                            let b2 = if b < i { b } else { b + 1 };
                            assert(nk[a] == keys[a2]);
                            assert(nk[b] == keys[b2]);
                        }
                    }
                    assert(hist_map(v@) =~= old_map.remove(path@)) by {
                        assert forall|k: Seq<char>| hist_map(v@).dom().contains(k) <==> old_map.remove(path@).dom().contains(k) by {
                            if nk.contains(k) {
                                let j = choose|j: int| 0 <= j < nk.len() && nk[j] == k;
                                let j2 = if j < i { j } else { j + 1 };
                                assert(keys[j2] == k);
                                assert(k != path@);
                            }
                            if old_map.remove(path@).dom().contains(k) {
                                let j = choose|j: int| 0 <= j < keys.len() && keys[j] == k;
                                assert(j != i);
                                let j2 = if j < i { j } else { j - 1 };
                                assert(nk[j2] == k);
                            }
                        }
                        assert forall|k: Seq<char>| #[trigger] hist_map(v@).dom().contains(k) implies hist_map(v@)[k] == old_map.remove(path@)[k] by {
                            let j = nk.index_of(k);
                            let j2 = if j < i { j } else { j + 1 };
                            assert(keys[j2] == k);
                            assert(keys.index_of(k) == j2) by {
                                let q = keys.index_of(k);
                                assert(keys[q] == k);
                            }
                            assert(v@[j] == before[j2]);
                        }
                    }
                }
                self.entries = v;
                Some(h)
            },
        }
    }

    /// Sets the history of a path, replacing any earlier one.
    pub fn insert(&mut self, path: String, hist: Vec<Vec<u8>>)
        ensures
            final(self).map() == old(self).map().insert(path@, digests_view(hist@)),
    {
        proof {
            use_type_invariant(&*self);
        }
        let found = self.find(path.as_str());
        let ghost old_map = self.map();
        let ghost p = path@;
        let ghost hv = digests_view(hist@);
        let mut v: Vec<(String, Vec<Vec<u8>>)> = Vec::new();
        proof {
            assert(hist_keys(v@) =~= Seq::<Seq<char>>::empty());
        }
        std::mem::swap(&mut v, &mut self.entries);
        let ghost before = v@;
        let ghost keys = hist_keys(before);
        match found {
            Some(i) => {
                v.set(i, (path, hist));
                proof {
                    let nk = hist_keys(v@);
                    assert(nk =~= keys);
                    assert(hist_map(v@) =~= old_map.insert(p, hv)) by {
                        assert forall|k: Seq<char>| #[trigger] hist_map(v@).dom().contains(k) implies hist_map(v@)[k] == old_map.insert(p, hv)[k] by {
                            let j = nk.index_of(k);
                            assert(keys[j] == k);
                            if j == i {
                            } else {
                                assert(v@[j] == before[j]);
                            }
                        }
                    }
                }
            },
            None => {
                v.push((path, hist));
                proof {
                    let nk = hist_keys(v@);
                    assert(nk =~= keys.push(p));
                    assert(!keys.contains(p));
                    assert(nk.no_duplicates()) by {
                        assert forall|a: int, b: int| 0 <= a < nk.len() && 0 <= b < nk.len() && a != b implies nk[a] != nk[b] by {
                            if a < keys.len() && b < keys.len() {
                                assert(nk[a] == keys[a]);
                                assert(nk[b] == keys[b]);
                            } else if a < keys.len() {
                                assert(nk[a] == keys[a]);
                            } else if b < keys.len() {
                                assert(nk[b] == keys[b]);
                            }
                        }
                    }
                    assert(hist_map(v@) =~= old_map.insert(p, hv)) by {
                        assert forall|k: Seq<char>| #[trigger] hist_map(v@).dom().contains(k) implies hist_map(v@)[k] == old_map.insert(p, hv)[k] by {
                            let j = nk.index_of(k);
                            assert(nk[j] == k);
                            if j == keys.len() {
                            } else {
                                assert(keys[j] == k);
                                assert(keys.index_of(k) == j) by {
                                    let q = keys.index_of(k);
                                    assert(keys[q] == k);
                                }
                                assert(v@[j] == before[j]);
                            }
                        }
                        assert forall|k: Seq<char>| hist_map(v@).dom().contains(k) <==> old_map.insert(p, hv).dom().contains(k) by {
                            if keys.contains(k) {
                                let j = choose|j: int| 0 <= j < keys.len() && keys[j] == k;
                                assert(nk[j] == k);
                            }
                            if k == p {
                                assert(nk[keys.len() as int] == p);
                            }
                            if nk.contains(k) {
                                let j = choose|j: int| 0 <= j < nk.len() && nk[j] == k;
                                if j < keys.len() {
                                    assert(keys[j] == k);
                                }
                            }
                        }
                    }
                }
            },
        }
        self.entries = v;
    }

    /// Appends a digest to the history of a path, starting one if needed.
    pub fn push(&mut self, path: String, digest: Vec<u8>)
        ensures
            final(self).map() == old(self).map().insert(
                path@,
                (if old(self).map().dom().contains(path@) {
                    old(self).map()[path@]
                } else {
                    Seq::empty()
                }).push(digest@),
            ),
    {
        let ghost old_map = self.map();
        let ghost p = path@;
        let mut hist = match self.remove(path.as_str()) {
            Some(h) => h,
            None => Vec::new(),
        };
        let ghost before = hist@;
        let ghost d = digest@;
        hist.push(digest);
        proof {
            assert(digests_view(hist@) =~= digests_view(before).push(d));
            if !old_map.dom().contains(p) {
                assert(digests_view(before) =~= Seq::<Seq<u8>>::empty());
            }
        }
        self.insert(path, hist);
        proof {
            assert(old_map.remove(p).insert(p, digests_view(hist@)) =~= old_map.insert(p, digests_view(hist@)));
        }
    }
}

/// Paths whose digest is being computed.
pub struct PendingSet {
    paths: Vec<String>,
}

impl PendingSet {
    #[verifier::type_invariant]
    spec fn distinct(self) -> bool {
        str_views(self.paths@).no_duplicates()
    }

    /// The paths.
    pub closed spec fn set(self) -> Set<Seq<char>> {
        str_views(self.paths@).to_set()
    }

    pub fn new() -> (p: Self)
        ensures
            p.set() == Set::<Seq<char>>::empty(),
    {
        let p = PendingSet { paths: Vec::new() };
        proof {
            assert(str_views(p.paths@) =~= Seq::<Seq<char>>::empty());
            assert(p.set() =~= Set::<Seq<char>>::empty());
        }
        p
    }

    fn find(&self, path: &str) -> (r: Option<usize>)
        ensures
            match r {
                Some(i) => i < self.paths@.len() && self.paths@[i as int]@ == path@ && self.set().contains(path@),
                None => !self.set().contains(path@),
            },
    {
        broadcast use vstd::string::group_string_axioms;

        let target = path.to_string();
        let mut i: usize = 0;
        while i < self.paths.len()
            invariant
                i <= self.paths@.len(),
                target@ == path@,
                forall|j: int| 0 <= j < i ==> self.paths@[j]@ != path@,
            decreases self.paths@.len() - i,
        {
            if self.paths[i] == target {
                proof {
                    assert(str_views(self.paths@)[i as int] == path@);
                }
                return Some(i);
            }
            i = i + 1;
        }
        proof {
            if self.set().contains(path@) {
                let j = choose|j: int| 0 <= j < str_views(self.paths@).len() && str_views(self.paths@)[j] == path@;
                assert(self.paths@[j]@ == path@);
            }
        }
        None
    }

    /// Whether the digest of the path is being computed.
    pub fn contains(&self, path: &str) -> (b: bool)
        ensures
            b == self.set().contains(path@),
    {
        self.find(path).is_some()
    }

    /// Adds a path.
    pub fn add(&mut self, path: String)
        ensures
            final(self).set() == old(self).set().insert(path@),
    {
        proof {
            use_type_invariant(&*self);
        }
        if self.find(path.as_str()).is_some() {
            proof {
                assert(self.set() =~= self.set().insert(path@));
            }
            return;
        }
        let mut v: Vec<String> = Vec::new();
        proof {
            assert(str_views(v@) =~= Seq::<Seq<char>>::empty());
        }
        std::mem::swap(&mut v, &mut self.paths);
        let ghost before = str_views(v@);
        let ghost p = path@;
        v.push(path);
        proof {
            let nv = str_views(v@);
            assert(nv =~= before.push(p));
            assert(nv.no_duplicates()) by {
                assert forall|a: int, b: int| 0 <= a < nv.len() && 0 <= b < nv.len() && a != b implies nv[a] != nv[b] by {
                    if a < before.len() && b < before.len() {
                        assert(nv[a] == before[a]);
                        assert(nv[b] == before[b]);
                    } else if a < before.len() {
                        assert(nv[a] == before[a]);
                        assert(!before.contains(p));
                    } else if b < before.len() {
                        assert(nv[b] == before[b]);
                        assert(!before.contains(p));
                    }
                }
            }
            assert(nv.to_set() =~= before.to_set().insert(p)) by {
                assert forall|k: Seq<char>| nv.to_set().contains(k) <==> before.to_set().insert(p).contains(k) by {
                    if nv.contains(k) {
                        let j = choose|j: int| 0 <= j < nv.len() && nv[j] == k;
                        if j < before.len() {
                            assert(before[j] == k);
                        }
                    }
                    if before.contains(k) {
                        let j = choose|j: int| 0 <= j < before.len() && before[j] == k;
                        assert(nv[j] == k);
                    }
                    if k == p {
                        assert(nv[before.len() as int] == p);
                    }
                }
            }
        }
        self.paths = v;
    }

    /// Removes a path.
    pub fn remove(&mut self, path: &str)
        ensures
            final(self).set() == old(self).set().remove(path@),
    {
        proof {
            use_type_invariant(&*self);
        }
        match self.find(path) {
            None => {
                proof {
                    assert(self.set() =~= self.set().remove(path@));
                }
            },
            Some(i) => {
                let mut v: Vec<String> = Vec::new();
                proof {
                    assert(str_views(v@) =~= Seq::<Seq<char>>::empty());
                }
                std::mem::swap(&mut v, &mut self.paths);
                let ghost before = str_views(v@);
                v.remove(i);
                proof {
                    let nv = str_views(v@);
                    assert(nv =~= before.remove(i as int));
                    assert(nv.no_duplicates()) by {
                        assert forall|a: int, b: int| 0 <= a < nv.len() && 0 <= b < nv.len() && a != b implies nv[a] != nv[b] by {
                            let a2 = if a < i { a } else { a + 1 };
                            let b2 = if b < i { b } else { b + 1 };
                            assert(nv[a] == before[a2]);
                            assert(nv[b] == before[b2]);
                        }
                    }
                    assert(nv.to_set() =~= before.to_set().remove(path@)) by {
                        assert forall|k: Seq<char>| nv.to_set().contains(k) <==> before.to_set().remove(path@).contains(k) by {
                            if nv.contains(k) {
                                let j = choose|j: int| 0 <= j < nv.len() && nv[j] == k;
                                let j2 = if j < i { j } else { j + 1 };
                                assert(before[j2] == k);
                                assert(before[i as int] == path@);
                            }
                            if before.contains(k) && k != path@ {
                                let j = choose|j: int| 0 <= j < before.len() && before[j] == k;
                                assert(j != i);
                                let j2 = if j < i { j } else { j - 1 };
                                assert(nv[j2] == k);
                            }
                        }
                    }
                }
                self.paths = v;
            },
        }
    }
}


/// The record of a file closed after writing, once `bumps` more digests
/// were started for it.
pub open spec fn closed_after(info: FileInfo) -> FileInfo {
    FileInfo { state: FileState::Closed, version: (info.version + 1) as usize, ..info }
}

/// The record of a file whose digest was started as it came into the tree.
pub open spec fn arrived() -> FileInfo {
    FileInfo { file_type: FileType::File, state: FileState::Closed, version: 1 }
}

/// The record of a file found under a directory that came into the tree.
pub open spec fn walked() -> FileInfo {
    FileInfo { file_type: FileType::File, state: FileState::Closed, version: 0 }
}

/// `p` was deleted: its record and history are gone, and the store loses it.
pub open spec fn file_deleted(old: FsModel, new: FsModel, acts: Seq<(int, Seq<char>, Seq<u8>)>, p: Seq<char>) -> bool {
    &&& new == (old.0.remove(p), old.1.remove(p), old.2)
    &&& acts == seq![(3int, p, Seq::<u8>::empty())]
}

/// Everything under `d` was deleted, in some order `ord` of its files.
pub open spec fn dir_deleted(old: FsModel, new: FsModel, acts: Seq<(int, Seq<char>, Seq<u8>)>, d: Seq<char>) -> bool {
    &&& new == (old.0.remove_keys(under(old.0, d)), old.1.remove_keys(under(old.0, d)), old.2)
    &&& exists|ord: Seq<Seq<char>>|
        #![trigger ord.to_set()]
        ord.no_duplicates() && ord.to_set() == under(old.0, d) && acts == ord.map_values(
            |k: Seq<char>| (3int, k, Seq::<u8>::empty()),
        )
}

/// `p` came into the tree: a directory is to be walked; a file is known
/// and its digest started.
pub open spec fn arrived_in_tree(old: FsModel, new: FsModel, acts: Seq<(int, Seq<char>, Seq<u8>)>, p: Seq<char>, is_dir: bool) -> bool {
    if is_dir {
        new == old && acts == seq![(1int, p, Seq::<u8>::empty())]
    } else {
        new == (old.0.insert(p, arrived()), old.1, old.2.insert(p)) && acts == seq![(0int, p, Seq::<u8>::empty())]
    }
}

/// The file `from` was renamed to `to`.
pub open spec fn file_renamed(old: FsModel, new: FsModel, acts: Seq<(int, Seq<char>, Seq<u8>)>, from: Seq<char>, to: Seq<char>) -> bool {
    if old.0.dom().contains(from) {
        let (h, a) = move_history(old.1, from, to);
        new == (old.0.remove(from).insert(to, old.0[from]), h, old.2) && acts == a
    } else {
        arrived_in_tree(old, new, acts, to, false)
    }
}

/// The directory `from` was renamed to `to`: its files were moved in some
/// order `ord`, with their histories.
pub open spec fn dir_renamed(old: FsModel, new: FsModel, acts: Seq<(int, Seq<char>, Seq<u8>)>, from: Seq<char>, to: Seq<char>) -> bool {
    exists|ord: Seq<Seq<char>>|
        #![trigger ord.to_set()]
        ord.no_duplicates() && ord.to_set() == under(old.0, from) && (new, acts) == move_all(old, ord, from, to)
}

/// What an event does to the model, and the outside work it calls for;
/// `ign` tells which paths are ignored and `is_dir` whether the path that
/// the event brings into the tree (the first for `RenameTo`, the second for
/// `RenameBoth`) is a directory.
pub open spec fn event_outcome(
    old: FsModel,
    new: FsModel,
    acts: Seq<(int, Seq<char>, Seq<u8>)>,
    kind: FsEventKind,
    paths: Seq<Seq<char>>,
    ign: IgnoreList,
    is_dir: bool,
) -> bool {
    let unchanged = new == old && acts.len() == 0;
    if paths.len() == 0 || (forall|i: int| 0 <= i < paths.len() ==> ign.ignores(#[trigger] paths[i])) {
        unchanged
    } else {
        let p = paths[0];
        match kind {
            FsEventKind::CreateFile => if paths.len() == 1 {
                new == (old.0.insert(p, created()), old.1, old.2) && acts.len() == 0
            } else {
                unchanged
            },
            FsEventKind::RemoveFile => file_deleted(old, new, acts, p),
            FsEventKind::RemoveFolder => dir_deleted(old, new, acts, p),
            FsEventKind::RenameFrom => dir_deleted(old, new, acts, p),
            FsEventKind::CloseWrite => if paths.len() == 1 && old.0.dom().contains(p) {
                new == (old.0.insert(p, closed_after(old.0[p])), old.1, old.2.insert(p)) && acts == seq![
                    (0int, p, Seq::<u8>::empty()),
                ]
            } else {
                unchanged
            },
            FsEventKind::ModifyData => if paths.len() == 1 && old.0.dom().contains(p) {
                new == (old.0.insert(p, FileInfo { state: FileState::Modified, ..old.0[p] }), old.1, old.2)
                    && acts.len() == 0
            } else {
                unchanged
            },
            FsEventKind::RenameTo => arrived_in_tree(old, new, acts, p, is_dir),
            FsEventKind::RenameBoth => if paths.len() == 2 {
                let from = paths[0];
                let to = paths[1];
                if !ign.ignores(from) && !ign.ignores(to) {
                    if is_dir {
                        dir_renamed(old, new, acts, from, to)
                    } else {
                        file_renamed(old, new, acts, from, to)
                    }
                } else if ign.ignores(from) {
                    arrived_in_tree(old, new, acts, to, is_dir)
                } else {
                    if is_dir {
                        dir_deleted(old, new, acts, from)
                    } else {
                        file_deleted(old, new, acts, from)
                    }
                }
            } else {
                unchanged
            },
            _ => unchanged,
        }
    }
}

/// The monitor's state: known files, digest histories and the digests
/// being computed.
pub struct FsState {
    files: FileMap,
    history: HistoryTable,
    pending: PendingSet,
}

impl FsState {
    /// The state as a model.
    pub closed spec fn model(self) -> FsModel {
        (file_entries(self.files), self.history.map(), self.pending.set())
    }

    pub fn new() -> (s: Self)
        ensures
            s.model() == (no_files(), Map::<Seq<char>, Seq<Seq<u8>>>::empty(), Set::<Seq<char>>::empty()),
    {
        FsState { files: file_map_new(), history: HistoryTable::new(), pending: PendingSet::new() }
    }

    /// The record of a path, if it is known.
    pub fn info(&self, path: &str) -> (r: Option<FileInfo>)
        ensures
            r == (if self.model().0.dom().contains(path@) {
                Some(self.model().0[path@])
            } else {
                None
            }),
    {
        file_map_get(&self.files, path)
    }

    /// Whether the digest of a path is being computed.
    pub fn is_pending(&self, path: &str) -> (b: bool)
        ensures
            b == self.model().2.contains(path@),
    {
        self.pending.contains(path)
    }

    fn delete_file(&mut self, p: &String) -> (acts: Vec<FsAction>)
        ensures
            file_deleted(old(self).model(), final(self).model(), actions_view(acts@), p@),
    {
        file_map_remove(&mut self.files, p.as_str());
        self.history.remove(p.as_str());
        let mut acts: Vec<FsAction> = Vec::new();
        acts.push(FsAction::KvDelete(p.clone()));
        proof {
            assert(actions_view(acts@) =~= seq![(3int, p@, Seq::<u8>::empty())]);
        }
        acts
    }

    /// The known paths under `d`, each once.
    fn paths_under(&self, d: &String) -> (r: Vec<String>)
        ensures
            str_views(r@).no_duplicates(),
            str_views(r@).to_set() == under(self.model().0, d@),
    {
        let keys = file_map_keys(&self.files);
        let dn = d.as_str().unicode_len();
        let mut r: Vec<String> = Vec::new();
        let mut i: usize = 0;
        let ghost m = self.model().0;
        while i < keys.len()
            invariant
                i <= keys@.len(),
                dn == d@.len(),
                m == self.model().0,
                str_views(keys@).no_duplicates(),
                forall|k: Seq<char>| str_views(keys@).contains(k) <==> m.dom().contains(k),
                str_views(r@).no_duplicates(),
                forall|k: Seq<char>| str_views(r@).contains(k) <==> (exists|j: int| 0 <= j < i && str_views(keys@)[j] == k && k.len() >= dn && k.take(dn as int) == d@),
            decreases keys@.len() - i,
        {
            let k = &keys[i];
            let kn = k.as_str().unicode_len();
            let take = kn >= dn && crate::textscan::starts_with(k.as_str(), d.as_str());
            let ghost before = str_views(r@);
            if take {
                r.push(k.clone());
            }
            proof {
                let kv = str_views(keys@)[i as int];
                assert(kv == k@);
                if take {
                    assert(str_views(r@) =~= before.push(k@));
                    assert(!before.contains(k@)) by {
                        if before.contains(k@) {
                            let j = choose|j: int| 0 <= j < i && str_views(keys@)[j] == k@ && k@.len() >= dn && k@.take(dn as int) == d@;
                            assert(str_views(keys@)[j] == str_views(keys@)[i as int]);
                        }
                    }
                    assert forall|a: int, b: int| 0 <= a < str_views(r@).len() && 0 <= b < str_views(r@).len() && a != b implies str_views(r@)[a] != str_views(r@)[b] by {
                        if a < before.len() && b < before.len() {
                            assert(str_views(r@)[a] == before[a]);
                            assert(str_views(r@)[b] == before[b]);
                        } else if a < before.len() {
                            assert(str_views(r@)[a] == before[a]);
                        } else if b < before.len() {
                            assert(str_views(r@)[b] == before[b]);
                        }
                    }
                    assert forall|q: Seq<char>| str_views(r@).contains(q) <==> (exists|j: int| 0 <= j < i + 1 && str_views(keys@)[j] == q && q.len() >= dn && q.take(dn as int) == d@) by {
                        if str_views(r@).contains(q) {
                            let a = choose|a: int| 0 <= a < str_views(r@).len() && str_views(r@)[a] == q;
                            if a < before.len() {
                                assert(before.contains(q));
                            }
                        }
                        if exists|j: int| 0 <= j < i + 1 && str_views(keys@)[j] == q && q.len() >= dn && q.take(dn as int) == d@ {
                            let j = choose|j: int| 0 <= j < i + 1 && str_views(keys@)[j] == q && q.len() >= dn && q.take(dn as int) == d@;
                            if j < i {
                                assert(before.contains(q));
                                let a = choose|a: int| 0 <= a < before.len() && before[a] == q;
                                assert(str_views(r@)[a] == q);
                            } else {
                                assert(str_views(r@)[before.len() as int] == q);
                            }
                        }
                    }
                } else {
                    assert forall|q: Seq<char>| str_views(r@).contains(q) <==> (exists|j: int| 0 <= j < i + 1 && str_views(keys@)[j] == q && q.len() >= dn && q.take(dn as int) == d@) by {
                        if exists|j: int| 0 <= j < i + 1 && str_views(keys@)[j] == q && q.len() >= dn && q.take(dn as int) == d@ {
                            let j = choose|j: int| 0 <= j < i + 1 && str_views(keys@)[j] == q && q.len() >= dn && q.take(dn as int) == d@;
                            if j == i {
                                assert(false);
                            }
                        }
                    }
                }
            }
            i = i + 1;
        }
        proof {
            assert(str_views(r@).to_set() =~= under(m, d@)) by {
                assert forall|q: Seq<char>| str_views(r@).to_set().contains(q) <==> under(m, d@).contains(q) by {
                    if under(m, d@).contains(q) {
                        assert(str_views(keys@).contains(q));
                        let j = choose|j: int| 0 <= j < str_views(keys@).len() && str_views(keys@)[j] == q;
                    }
                    if str_views(r@).contains(q) {
                        let j = choose|j: int| 0 <= j < i && str_views(keys@)[j] == q && q.len() >= dn && q.take(dn as int) == d@;
                        assert(str_views(keys@).contains(q));
                    }
                }
            }
        }
        r
    }
}


impl FsState {
    fn delete_dir(&mut self, d: &String) -> (acts: Vec<FsAction>)
        ensures
            dir_deleted(old(self).model(), final(self).model(), actions_view(acts@), d@),
    {
        let victims = self.paths_under(d);
        let ghost old_m = self.model();
        let ghost ord = str_views(victims@);
        let mut acts: Vec<FsAction> = Vec::new();
        let mut i: usize = 0;
        while i < victims.len()
            invariant
                i <= victims@.len(),
                ord == str_views(victims@),
                ord.no_duplicates(),
                ord.to_set() == under(old_m.0, d@),
                self.model() == (
                    old_m.0.remove_keys(ord.take(i as int).to_set()),
                    old_m.1.remove_keys(ord.take(i as int).to_set()),
                    old_m.2,
                ),
                actions_view(acts@) == ord.take(i as int).map_values(|k: Seq<char>| (3int, k, Seq::<u8>::empty())),
            decreases victims@.len() - i,
        {
            let k = &victims[i];
            let ghost before_acts = actions_view(acts@);
            file_map_remove(&mut self.files, k.as_str());
            self.history.remove(k.as_str());
            acts.push(FsAction::KvDelete(k.clone()));
            proof {
                let s0 = ord.take(i as int).to_set();
                let s1 = ord.take(i + 1).to_set();
                assert(ord.take(i + 1) =~= ord.take(i as int).push(k@));
                assert(s1 =~= s0.insert(k@)) by {
                    assert forall|q: Seq<char>| s1.contains(q) <==> s0.insert(k@).contains(q) by {
                        let t1 = ord.take(i + 1);
                        let t0 = ord.take(i as int);
                        if t1.contains(q) {
                            let j = choose|j: int| 0 <= j < t1.len() && t1[j] == q;
                            if j < t0.len() {
                                assert(t0[j] == q);
                            }
                        }
                        if t0.contains(q) {
                            let j = choose|j: int| 0 <= j < t0.len() && t0[j] == q;
                            assert(t1[j] == q);
                        }
                        if q == k@ {
                            assert(t1[i as int] == q);
                        }
                    }
                }
                assert(old_m.0.remove_keys(s0).remove(k@) =~= old_m.0.remove_keys(s1));
                assert(old_m.1.remove_keys(s0).remove(k@) =~= old_m.1.remove_keys(s1));
                assert(actions_view(acts@) =~= before_acts.push((3int, k@, Seq::<u8>::empty())));
                assert(ord.take(i + 1).map_values(|q: Seq<char>| (3int, q, Seq::<u8>::empty())) =~= ord.take(
                    i as int,
                ).map_values(|q: Seq<char>| (3int, q, Seq::<u8>::empty())).push((3int, k@, Seq::<u8>::empty())));
            }
            i = i + 1;
        }
        proof {
            assert(ord.take(i as int) =~= ord);
        }
        acts
    }

    fn arrive(&mut self, p: &String, is_dir: bool) -> (acts: Vec<FsAction>)
        ensures
            arrived_in_tree(old(self).model(), final(self).model(), actions_view(acts@), p@, is_dir),
    {
        let mut acts: Vec<FsAction> = Vec::new();
        if is_dir {
            acts.push(FsAction::WalkDirectory(p.clone()));
            proof {
                assert(actions_view(acts@) =~= seq![(1int, p@, Seq::<u8>::empty())]);
            }
            return acts;
        }
        file_map_insert(
            &mut self.files,
            p.clone(),
            FileInfo { file_type: FileType::File, state: FileState::Closed, version: 1 },
        );
        self.pending.add(p.clone());
        acts.push(FsAction::Hash(p.clone()));
        proof {
            assert(actions_view(acts@) =~= seq![(0int, p@, Seq::<u8>::empty())]);
        }
        acts
    }

    /// Moves the history of `from` to `to`, with the store updates this calls for.
    fn move_hist(&mut self, from: &String, to: &String, acts: &mut Vec<FsAction>)
        ensures
            ({
                let (h, a) = move_history(old(self).model().1, from@, to@);
                &&& final(self).model() == (old(self).model().0, h, old(self).model().2)
                &&& actions_view(final(acts)@) == actions_view(old(acts)@) + a
            }),
    {
        let ghost before_acts = actions_view(acts@);
        let ghost old_h = self.model().1;
        match self.history.remove(from.as_str()) {
            None => {
                proof {
                    assert(old_h.remove(from@) =~= old_h);
                    assert(actions_view(acts@) =~= before_acts + Seq::<(int, Seq<char>, Seq<u8>)>::empty());
                }
            },
            Some(h) => {
                let latest = if h.len() > 0 {
                    Some(copy_bytes(&h[h.len() - 1]))
                } else {
                    None
                };
                let ghost hv = digests_view(h@);
                self.history.insert(to.clone(), h);
                match latest {
                    Some(l) => {
                        let ghost lv = l@;
                        acts.push(FsAction::KvDelete(from.clone()));
                        acts.push(FsAction::KvPut(to.clone(), l));
                        proof {
                            assert(hv.last() == lv);
                            assert(actions_view(acts@) =~= before_acts + seq![
                                (3int, from@, Seq::<u8>::empty()),
                                (2int, to@, lv),
                            ]);
                        }
                    },
                    None => {
                        proof {
                            assert(actions_view(acts@) =~= before_acts + Seq::<(int, Seq<char>, Seq<u8>)>::empty());
                        }
                    },
                }
            },
        }
    }

    fn rename_file(&mut self, from: &String, to: &String) -> (acts: Vec<FsAction>)
        ensures
            file_renamed(old(self).model(), final(self).model(), actions_view(acts@), from@, to@),
    {
        match file_map_remove(&mut self.files, from.as_str()) {
            Some(info) => {
                file_map_insert(&mut self.files, to.clone(), info);
                let mut acts: Vec<FsAction> = Vec::new();
                proof {
                    assert(actions_view(acts@) =~= Seq::<(int, Seq<char>, Seq<u8>)>::empty());
                }
                self.move_hist(from, to, &mut acts);
                proof {
                    let a = move_history(old(self).model().1, from@, to@).1;
                    assert(Seq::<(int, Seq<char>, Seq<u8>)>::empty() + a =~= a);
                }
                acts
            },
            None => {
                proof {
                    assert(old(self).model().0.remove(from@) =~= old(self).model().0);
                }
                self.arrive(to, false)
            },
        }
    }

    fn rename_dir(&mut self, from: &String, to: &String) -> (acts: Vec<FsAction>)
        ensures
            dir_renamed(old(self).model(), final(self).model(), actions_view(acts@), from@, to@),
    {
        let victims = self.paths_under(from);
        let ghost old_m = self.model();
        let ghost ord = str_views(victims@);
        let fl = from.as_str().unicode_len();
        let mut acts: Vec<FsAction> = Vec::new();
        proof {
            assert(ord.take(0) =~= Seq::<Seq<char>>::empty());
            assert(actions_view(acts@) =~= Seq::<(int, Seq<char>, Seq<u8>)>::empty());
        }
        let mut i: usize = 0;
        while i < victims.len()
            invariant
                i <= victims@.len(),
                fl == from@.len(),
                ord == str_views(victims@),
                ord.no_duplicates(),
                ord.to_set() == under(old_m.0, from@),
                (self.model(), actions_view(acts@)) == move_all(old_m, ord.take(i as int), from@, to@),
            decreases victims@.len() - i,
        {
            let k = &victims[i];
            proof {
                assert(ord[i as int] == k@);
                assert(under(old_m.0, from@).contains(k@)) by {
                    assert(ord.contains(k@));
                }
            }
            let kl = k.as_str().unicode_len();
            let rest = k.as_str().substring_char(fl, kl);
            let new_path = crate::text::concat2(to.as_str(), rest);
            proof {
                assert(rest@ =~= k@.skip(from@.len() as int));
                assert(new_path@ == renamed(k@, from@, to@));
                assert(ord.take(i + 1).drop_last() =~= ord.take(i as int));
                assert(ord.take(i + 1).last() == k@);
            }
            match file_map_remove(&mut self.files, k.as_str()) {
                Some(info) => {
                    file_map_insert(&mut self.files, new_path.clone(), info);
                },
                None => {},
            }
            self.move_hist(k, &new_path, &mut acts);
            i = i + 1;
        }
        proof {
            assert(ord.take(i as int) =~= ord);
        }
        acts
    }
}


/// The records of the files found by a directory walk.
pub open spec fn walked_files(fs: Seq<Seq<char>>) -> Map<Seq<char>, FileInfo> {
    Map::new(|k: Seq<char>| fs.contains(k), |k: Seq<char>| walked())
}

/// There is room to count one more digest of the file an event saves; an
/// event on an ignored path counts nothing and needs no room.
pub open spec fn version_room(m: FsModel, kind: FsEventKind, paths: Seq<Seq<char>>, ign: IgnoreList) -> bool {
    kind == FsEventKind::CloseWrite && paths.len() == 1 && !ign.ignores(paths[0]) && m.0.dom().contains(paths[0])
        ==> m.0[paths[0]].version < usize::MAX
}

impl FsState {
    /// Applies a file-system event to the record; answers the outside work
    /// it calls for. `is_dir` tells whether the path the event brings into
    /// the tree (the first for `RenameTo`, the second for `RenameBoth`) is a
    /// directory.
    pub fn handle_event(&mut self, kind: FsEventKind, paths: &Vec<String>, ignore: &IgnoreList, is_dir: bool) -> (acts: Vec<FsAction>)
        requires
            version_room(old(self).model(), kind, str_views(paths@), *ignore),
        ensures
            event_outcome(old(self).model(), final(self).model(), actions_view(acts@), kind, str_views(paths@), *ignore, is_dir),
    {
        let ghost ps = str_views(paths@);
        let mut none: Vec<FsAction> = Vec::new();
        proof {
            assert(actions_view(none@) =~= Seq::<(int, Seq<char>, Seq<u8>)>::empty());
        }
        if paths.len() == 0 {
            return none;
        }
        let mut all_ignored = true;
        let mut i: usize = 0;
        while i < paths.len()
            invariant
                i <= paths@.len(),
                ps == str_views(paths@),
                all_ignored == (forall|j: int| 0 <= j < i ==> ignore.ignores(#[trigger] ps[j])),
            decreases paths@.len() - i,
        {
            if !ignore.is_ignored(paths[i].as_str()) {
                all_ignored = false;
            }
            proof {
                assert(ps[i as int] == paths@[i as int]@);
            }
            i = i + 1;
        }
        if all_ignored {
            return none;
        }
        let p = &paths[0];
        proof {
            assert(ps[0] == p@);
        }
        match kind {
            FsEventKind::CreateFile => {
                if paths.len() == 1 {
                    file_map_insert(
                        &mut self.files,
                        p.clone(),
                        FileInfo { file_type: FileType::File, state: FileState::Created, version: 0 },
                    );
                }
                none
            },
            FsEventKind::RemoveFile => self.delete_file(p),
            FsEventKind::RemoveFolder => self.delete_dir(p),
            FsEventKind::RenameFrom => self.delete_dir(p),
            FsEventKind::CloseWrite => {
                if paths.len() != 1 {
                    return none;
                }
                match file_map_get(&self.files, p.as_str()) {
                    None => none,
                    Some(info) => {
                        self.pending.add(p.clone());
                        file_map_insert(
                            &mut self.files,
                            p.clone(),
                            FileInfo { state: FileState::Closed, version: info.version + 1, ..info },
                        );
                        let mut acts: Vec<FsAction> = Vec::new();
                        acts.push(FsAction::Hash(p.clone()));
                        proof {
                            assert(actions_view(acts@) =~= seq![(0int, p@, Seq::<u8>::empty())]);
                        }
                        acts
                    },
                }
            },
            FsEventKind::ModifyData => {
                if paths.len() != 1 {
                    return none;
                }
                match file_map_get(&self.files, p.as_str()) {
                    None => none,
                    Some(info) => {
                        file_map_insert(&mut self.files, p.clone(), FileInfo { state: FileState::Modified, ..info });
                        none
                    },
                }
            },
            FsEventKind::RenameTo => self.arrive(p, is_dir),
            FsEventKind::RenameBoth => {
                if paths.len() != 2 {
                    return none;
                }
                let from = &paths[0];
                let to = &paths[1];
                proof {
                    assert(ps[1] == to@);
                }
                let from_ignored = ignore.is_ignored(from.as_str());
                let to_ignored = ignore.is_ignored(to.as_str());
                if !from_ignored && !to_ignored {
                    if is_dir {
                        self.rename_dir(from, to)
                    } else {
                        self.rename_file(from, to)
                    }
                } else if from_ignored {
                    self.arrive(to, is_dir)
                } else if is_dir {
                    self.delete_dir(from)
                } else {
                    self.delete_file(from)
                }
            },
            _ => none,
        }
    }

    /// Tracks the files found under a directory that came into the tree and
    /// starts their digests.
    pub fn track_walked(&mut self, files: &Vec<String>) -> (acts: Vec<FsAction>)
        ensures
            final(self).model() == (
                old(self).model().0.union_prefer_right(walked_files(str_views(files@))),
                old(self).model().1,
                old(self).model().2.union(str_views(files@).to_set()),
            ),
            actions_view(acts@) == str_views(files@).map_values(|k: Seq<char>| (0int, k, Seq::<u8>::empty())),
    {
        let ghost old_m = self.model();
        let ghost fs = str_views(files@);
        let mut acts: Vec<FsAction> = Vec::new();
        let mut i: usize = 0;
        proof {
            assert(old_m.0.union_prefer_right(walked_files(fs.take(0))) =~= old_m.0);
            assert(old_m.2.union(fs.take(0).to_set()) =~= old_m.2);
            assert(actions_view(acts@) =~= fs.take(0).map_values(|k: Seq<char>| (0int, k, Seq::<u8>::empty())));
        }
        while i < files.len()
            invariant
                i <= files@.len(),
                fs == str_views(files@),
                self.model() == (
                    old_m.0.union_prefer_right(walked_files(fs.take(i as int))),
                    old_m.1,
                    old_m.2.union(fs.take(i as int).to_set()),
                ),
                actions_view(acts@) == fs.take(i as int).map_values(|k: Seq<char>| (0int, k, Seq::<u8>::empty())),
            decreases files@.len() - i,
        {
            let f = &files[i];
            let ghost before = actions_view(acts@);
            file_map_insert(
                &mut self.files,
                f.clone(),
                FileInfo { file_type: FileType::File, state: FileState::Closed, version: 0 },
            );
            self.pending.add(f.clone());
            acts.push(FsAction::Hash(f.clone()));
            proof {
                let t0 = fs.take(i as int);
                let t1 = fs.take(i + 1);
                assert(t1 =~= t0.push(f@));
                assert(fs[i as int] == f@);
                assert(old_m.0.union_prefer_right(walked_files(t0)).insert(f@, walked()) =~= old_m.0.union_prefer_right(
                    walked_files(t1),
                )) by {
                    assert forall|q: Seq<char>| t1.contains(q) <==> (t0.contains(q) || q == f@) by {
                        if t1.contains(q) {
                            let j = choose|j: int| 0 <= j < t1.len() && t1[j] == q;
                            if j < t0.len() {
                                assert(t0[j] == q);
                            }
                        }
                        if t0.contains(q) {
                            let j = choose|j: int| 0 <= j < t0.len() && t0[j] == q;
                            assert(t1[j] == q);
                        }
                        if q == f@ {
                            assert(t1[i as int] == q);
                        }
                    }
                }
                assert(old_m.2.union(t0.to_set()).insert(f@) =~= old_m.2.union(t1.to_set())) by {
                    assert forall|q: Seq<char>| t1.contains(q) <==> (t0.contains(q) || q == f@) by {
                        if t1.contains(q) {
                            let j = choose|j: int| 0 <= j < t1.len() && t1[j] == q;
                            if j < t0.len() {
                                assert(t0[j] == q);
                            }
                        }
                        if t0.contains(q) {
                            let j = choose|j: int| 0 <= j < t0.len() && t0[j] == q;
                            assert(t1[j] == q);
                        }
                        if q == f@ {
                            assert(t1[i as int] == q);
                        }
                    }
                }
                assert(actions_view(acts@) =~= before.push((0int, f@, Seq::<u8>::empty())));
                assert(t1.map_values(|k: Seq<char>| (0int, k, Seq::<u8>::empty())) =~= t0.map_values(
                    |k: Seq<char>| (0int, k, Seq::<u8>::empty()),
                ).push((0int, f@, Seq::<u8>::empty())));
            }
            i = i + 1;
        }
        proof {
            assert(fs.take(i as int) =~= fs);
        }
        acts
    }

    /// The digest of a file was computed (`Some`) or failed (`None`); the
    /// digest joins the file's history and goes to the store.
    pub fn digest_ready(&mut self, path: String, digest: Option<Vec<u8>>) -> (acts: Vec<FsAction>)
        ensures
            match digest {
                Some(d) => {
                    &&& final(self).model() == (
                        old(self).model().0,
                        old(self).model().1.insert(
                            path@,
                            (if old(self).model().1.dom().contains(path@) {
                                old(self).model().1[path@]
                            } else {
                                Seq::empty()
                            }).push(d@),
                        ),
                        old(self).model().2.remove(path@),
                    )
                    &&& actions_view(acts@) == seq![(2int, path@, d@)]
                },
                None => final(self).model() == (old(self).model().0, old(self).model().1, old(self).model().2.remove(path@))
                    && acts@.len() == 0,
            },
    {
        let mut acts: Vec<FsAction> = Vec::new();
        match digest {
            Some(d) => {
                let kept = copy_bytes(&d);
                self.history.push(path.clone(), d);
                self.pending.remove(path.as_str());
                let ghost dv = kept@;
                acts.push(FsAction::KvPut(path, kept));
                proof {
                    assert(actions_view(acts@) =~= seq![(2int, path@, dv)]);
                }
            },
            None => {
                self.pending.remove(path.as_str());
            },
        }
        acts
    }
}

/// The latest digest of a known, closed file whose digest is not being
/// computed; otherwise whether the failure is "not found" and its message.
pub open spec fn digest_lookup(m: FsModel, p: Seq<char>) -> Result<Seq<u8>, (bool, Seq<char>)> {
    if !m.0.dom().contains(p) {
        Err((true, "File "@ + p + " is not track"@ + "ed"@))
    } else if m.0[p].state != FileState::Closed {
        Err((false, "File "@ + p + " is yet to be closed"@))
    } else if m.2.contains(p) {
        Err((false, "Hashing for "@ + p + " is yet to complete"@))
    } else if !m.1.dom().contains(p) {
        Err((true, "No hashes recorded for "@ + p))
    } else if m.1[p].len() == 0 {
        Err((true, "No hash available for "@ + p))
    } else {
        Ok(m.1[p].last())
    }
}

/// `r` reports the outcome `o`.
pub open spec fn reports<T>(r: Result<T, FsError>, o: Result<Seq<u8>, (bool, Seq<char>)>, view: spec_fn(T) -> Seq<u8>) -> bool {
    match o {
        Ok(d) => r matches Ok(v) && view(v) == d,
        Err((nf, msg)) => if nf {
            r matches Err(FsError::NotFound(m)) && m@ == msg
        } else {
            r matches Err(FsError::Other(m)) && m@ == msg
        },
    }
}

/// SHA3-512 of a byte string (`sha3::Sha3_512`); a function of the bytes alone.
pub uninterp spec fn sha3_512_of(data: Seq<u8>) -> Seq<u8>;

/// `Sha3_512::digest`: the SHA3-512 digest of the bytes, 64 bytes long.
#[verifier::external_body]
fn sha3_512(data: &[u8]) -> (r: Vec<u8>)
    ensures
        r@ == sha3_512_of(data@),
        r@.len() == 64,
{
    sha3::Sha3_512::digest(data).to_vec()
}

/// The SHA3-512 digest of a file's content.
pub fn content_digest(content: &[u8]) -> (r: Vec<u8>)
    ensures
        r@ == sha3_512_of(content@),
        r@.len() == 64,
{
    sha3_512(content)
}

/// `a` comes before `b`, or equals it, in the order of their characters.
pub open spec fn lex_le(a: Seq<char>, b: Seq<char>) -> bool
    decreases a.len(),
{
    if a.len() == 0 {
        true
    } else if b.len() == 0 {
        false
    } else if a[0] != b[0] {
        (a[0] as int) < (b[0] as int)
    } else {
        lex_le(a.drop_first(), b.drop_first())
    }
}

proof fn lemma_lex_total(a: Seq<char>, b: Seq<char>)
    ensures
        lex_le(a, b) || lex_le(b, a),
    decreases a.len(),
{
    if a.len() > 0 && b.len() > 0 && a[0] == b[0] {
        lemma_lex_total(a.drop_first(), b.drop_first());
    }
}

proof fn lemma_lex_trans(a: Seq<char>, b: Seq<char>, c: Seq<char>)
    requires
        lex_le(a, b),
        lex_le(b, c),
    ensures
        lex_le(a, c),
    decreases a.len(),
{
    if a.len() > 0 && b.len() > 0 && c.len() > 0 && a[0] == b[0] && b[0] == c[0] {
        lemma_lex_trans(a.drop_first(), b.drop_first(), c.drop_first());
    }
}

/// Whether `a` comes before `b` or equals it.
fn lex_le_exec(a: &str, b: &str) -> (r: bool)
    ensures
        r == lex_le(a@, b@),
{
    let x = chars_of(a);
    let y = chars_of(b);
    let mut i: usize = 0;
    proof {
        assert(a@.skip(0) =~= a@);
        assert(b@.skip(0) =~= b@);
    }
    while i < x.len() && i < y.len()
        invariant
            x@ == a@,
            y@ == b@,
            i <= x@.len(),
            i <= y@.len(),
            lex_le(a@, b@) == lex_le(a@.skip(i as int), b@.skip(i as int)),
        decreases x@.len() - i,
    {
        proof {
            assert(a@.skip(i as int)[0] == x@[i as int]);
            assert(b@.skip(i as int)[0] == y@[i as int]);
            assert(a@.skip(i as int).drop_first() =~= a@.skip(i + 1));
            assert(b@.skip(i as int).drop_first() =~= b@.skip(i + 1));
        }
        if x[i] != y[i] {
            proof {
                assert(lex_le(a@.skip(i as int), b@.skip(i as int)) == ((x@[i as int] as int) < (y@[i as int] as int)));
            }
            return x[i] < y[i];
        }
        i = i + 1;
    }
    proof {
        assert(a@.skip(i as int).len() == 0 || b@.skip(i as int).len() == 0);
    }
    i == x.len()
}

/// Sorted by `lex_le`.
pub open spec fn lex_sorted(s: Seq<Seq<char>>) -> bool {
    forall|i: int, j: int| 0 <= i < j < s.len() ==> lex_le(#[trigger] s[i], #[trigger] s[j])
}

/// Paths are ordered by their first differing character, by code point:
/// after a common prefix `p`, the one whose next character is smaller comes
/// first, whatever follows.
pub proof fn lemma_lex_first_difference(p: Seq<char>, c: char, d: char, x: Seq<char>, y: Seq<char>)
    requires
        (c as int) < (d as int),
    ensures
        lex_le(p + seq![c] + x, p + seq![d] + y),
        !lex_le(p + seq![d] + y, p + seq![c] + x),
    decreases p.len(),
{
    let a = p + seq![c] + x;
    let b = p + seq![d] + y;
    if p.len() == 0 {
        assert(a[0] == c && b[0] == d);
    } else {
        lemma_lex_first_difference(p.drop_first(), c, d, x, y);
        assert(a[0] == p[0] && b[0] == p[0]);
        assert(a.drop_first() =~= p.drop_first() + seq![c] + x);
        assert(b.drop_first() =~= p.drop_first() + seq![d] + y);
    }
}

/// A path comes before every longer path that starts with it.
pub proof fn lemma_lex_prefix_first(p: Seq<char>, x: Seq<char>)
    ensures
        lex_le(p, p + x),
    decreases p.len(),
{
    if p.len() > 0 {
        lemma_lex_prefix_first(p.drop_first(), x);
        assert((p + x)[0] == p[0]);
        assert((p + x).drop_first() =~= p.drop_first() + x);
    }
}

/// In sorted paths (as `sort_paths` returns them), two paths that first
/// differ by a smaller and a larger character stand in that order.
pub proof fn lemma_sorted_by_first_difference(
    r: Seq<Seq<char>>,
    i: int,
    j: int,
    p: Seq<char>,
    c: char,
    d: char,
    x: Seq<char>,
    y: Seq<char>,
)
    requires
        lex_sorted(r),
        0 <= i < r.len(),
        0 <= j < r.len(),
        r[i] == p + seq![c] + x,
        r[j] == p + seq![d] + y,
        (c as int) < (d as int),
    ensures
        i < j,
{
    lemma_lex_first_difference(p, c, d, x, y);
    if j < i {
        assert(lex_le(r[j], r[i]));
    }
    if i == j {
        assert(r[i][p.len() as int] == c);
        assert(r[j][p.len() as int] == d);
    }
}

/// The paths in order, as sorting strings orders them.
pub fn sort_paths(v: Vec<String>) -> (r: Vec<String>)
    ensures
        lex_sorted(str_views(r@)),
        str_views(r@).to_multiset() == str_views(v@).to_multiset(),
{
    let mut r: Vec<String> = Vec::new();
    let mut i: usize = 0;
    proof {
        assert(str_views(r@) =~= str_views(v@).take(0));
    }
    while i < v.len()
        invariant
            i <= v@.len(),
            lex_sorted(str_views(r@)),
            str_views(r@).to_multiset() == str_views(v@).take(i as int).to_multiset(),
        decreases v@.len() - i,
    {
        let x = v[i].clone();
        let mut k: usize = r.len();
        while k > 0 && !lex_le_exec(r[k - 1].as_str(), x.as_str())
            invariant
                k <= r@.len(),
                lex_sorted(str_views(r@)),
                forall|j: int| k <= j < r@.len() ==> !lex_le(#[trigger] str_views(r@)[j], x@),
            decreases k,
        {
            k = k - 1;
        }
        let ghost old_r = str_views(r@);
        r.insert(k, x);
        proof {
            let nr = str_views(r@);
            assert(nr =~= old_r.insert(k as int, x@));
            assert forall|a: int, b: int| 0 <= a < b < nr.len() implies lex_le(#[trigger] nr[a], #[trigger] nr[b]) by {
                if a < k && b < k {
                    assert(nr[a] == old_r[a] && nr[b] == old_r[b]);
                } else if a < k && b == k {
                    assert(nr[a] == old_r[a]);
                    if a == k - 1 {
                    } else {
                        assert(lex_le(old_r[a], old_r[k - 1]));
                        lemma_lex_trans(old_r[a], old_r[k - 1], x@);
                    }
                } else if a < k && b > k {
                    assert(nr[a] == old_r[a] && nr[b] == old_r[b - 1]);
                } else if a == k {
                    assert(nr[b] == old_r[b - 1]);
                    assert(!lex_le(old_r[b - 1], x@));
                    lemma_lex_total(old_r[b - 1], x@);
                } else {
                    assert(nr[a] == old_r[a - 1] && nr[b] == old_r[b - 1]);
                }
            }
            assert(str_views(v@).take(i + 1) =~= str_views(v@).take(i as int).push(x@));
            vstd::seq_lib::to_multiset_insert(old_r, k as int, x@);
            str_views(v@).take(i as int).to_multiset_ensures();
        }
        i = i + 1;
    }
    proof {
        assert(str_views(v@).take(i as int) =~= str_views(v@));
    }
    r
}


/// The paths of `fs` that are known, in order.
pub open spec fn known_of(m: FsModel, fs: Seq<Seq<char>>) -> Seq<Seq<char>>
    decreases fs.len(),
{
    if fs.len() == 0 {
        Seq::empty()
    } else {
        let r = known_of(m, fs.drop_last());
        if m.0.dom().contains(fs.last()) {
            r.push(fs.last())
        } else {
            r
        }
    }
}

/// The digests of the files `ord`, one after the other, after `acc`; or the
/// failure of the first file without one.
pub open spec fn digests_in_order(m: FsModel, ord: Seq<Seq<char>>) -> Result<Seq<u8>, (bool, Seq<char>)>
    decreases ord.len(),
{
    if ord.len() == 0 {
        Ok(Seq::empty())
    } else {
        match digests_in_order(m, ord.drop_last()) {
            Err(e) => Err(e),
            Ok(acc) => match digest_lookup(m, ord.last()) {
                Err(e) => Err(e),
                Ok(d) => Ok(acc + d),
            },
        }
    }
}

/// The digest of a directory: SHA3-512 over the digests of its known
/// files in sorted order, in hexadecimal.
pub open spec fn directory_outcome(m: FsModel, ord: Seq<Seq<char>>) -> Result<Seq<u8>, (bool, Seq<char>)> {
    match digests_in_order(m, ord) {
        Ok(bytes) => Ok(sha3_512_of(bytes)),
        Err(e) => Err(e),
    }
}

fn fs_error(not_found: bool, msg: String) -> (e: FsError)
    ensures
        not_found ==> e == FsError::NotFound(msg),
        !not_found ==> e == FsError::Other(msg),
{
    if not_found {
        FsError::NotFound(msg)
    } else {
        FsError::Other(msg)
    }
}

impl FsState {
    /// The latest digest of a file, if it is known, closed, not being
    /// digested, and has one.
    pub fn file_digest(&self, path: &str) -> (r: Result<Vec<u8>, FsError>)
        ensures
            reports(r, digest_lookup(self.model(), path@), |v: Vec<u8>| v@),
    {
        match file_map_get(&self.files, path) {
            None => {
                let mut m = concat3("File ", path, " is not track");
                m.append("ed");
                return Err(fs_error(true, m));
            },
            Some(info) => {
                if info.state != FileState::Closed {
                    return Err(fs_error(false, concat3("File ", path, " is yet to be closed")));
                }
            },
        }
        if self.pending.contains(path) {
            return Err(fs_error(false, concat3("Hashing for ", path, " is yet to complete")));
        }
        match self.history.get(path) {
            None => Err(fs_error(true, crate::text::concat2("No hashes recorded for ", path))),
            Some(h) => {
                if h.len() == 0 {
                    proof {
                        assert(digests_view(h@).len() == 0);
                    }
                    Err(fs_error(true, crate::text::concat2("No hash available for ", path)))
                } else {
                    let d = copy_bytes(&h[h.len() - 1]);
                    proof {
                        assert(digests_view(h@).last() == h@[h@.len() - 1]@);
                    }
                    Ok(d)
                }
            },
        }
    }

    /// The latest digest of a file, in hexadecimal.
    pub fn file_digest_hex(&self, path: &str) -> (r: Result<String, FsError>)
        ensures
            match digest_lookup(self.model(), path@) {
                Ok(d) => r matches Ok(s) && s@ == hex_of(d),
                Err(e) => reports(r, Err(e), |s: String| Seq::<u8>::empty()),
            },
    {
        match self.file_digest(path) {
            Ok(d) => Ok(bytes_to_hex(d.as_slice())),
            Err(e) => Err(e),
        }
    }

    /// The digest of a directory, from the files a walk of it found:
    /// SHA3-512 over the latest digests of its known files in sorted
    /// order, in hexadecimal; or the failure of the first file without one.
    pub fn directory_digest(&self, walked: &Vec<String>) -> (r: Result<String, FsError>)
        ensures
            exists|ord: Seq<Seq<char>>|
                #![trigger ord.to_multiset()]
                lex_sorted(ord) && ord.to_multiset() == known_of(self.model(), str_views(walked@)).to_multiset()
                    && match directory_outcome(self.model(), ord) {
                    Ok(d) => r matches Ok(s) && s@ == hex_of(d),
                    Err(e) => reports(r, Err(e), |s: String| Seq::<u8>::empty()),
                },
    {
        let ghost m = self.model();
        let ghost fs = str_views(walked@);
        let mut known: Vec<String> = Vec::new();
        let mut i: usize = 0;
        while i < walked.len()
            invariant
                i <= walked@.len(),
                m == self.model(),
                fs == str_views(walked@),
                str_views(known@) == known_of(m, fs.take(i as int)),
            decreases walked@.len() - i,
        {
            proof {
                assert(fs.take(i + 1).drop_last() =~= fs.take(i as int));
                assert(fs.take(i + 1).last() == walked@[i as int]@);
            }
            if file_map_get(&self.files, walked[i].as_str()).is_some() {
                let ghost before = str_views(known@);
                known.push(walked[i].clone());
                proof {
                    assert(str_views(known@) =~= before.push(walked@[i as int]@));
                }
            }
            i = i + 1;
        }
        proof {
            assert(fs.take(i as int) =~= fs);
        }
        let sorted = sort_paths(known);
        let ghost ord = str_views(sorted@);
        let mut bytes: Vec<u8> = Vec::new();
        let mut k: usize = 0;
        proof {
            assert(ord.take(0) =~= Seq::<Seq<char>>::empty());
            assert(bytes@ =~= Seq::<u8>::empty());
        }
        while k < sorted.len()
            invariant
                k <= sorted@.len(),
                m == self.model(),
                ord == str_views(sorted@),
                fs == str_views(walked@),
                lex_sorted(ord),
                ord.to_multiset() == known_of(m, fs).to_multiset(),
                digests_in_order(m, ord.take(k as int)) == Ok::<Seq<u8>, (bool, Seq<char>)>(bytes@),
            decreases sorted@.len() - k,
        {
            proof {
                assert(ord.take(k + 1).drop_last() =~= ord.take(k as int));
                assert(ord.take(k + 1).last() == sorted@[k as int]@);
            }
            match self.file_digest(sorted[k].as_str()) {
                Err(e) => {
                    proof {
                        assert(digests_in_order(m, ord.take(k + 1)) is Err);
                        assert(directory_outcome(m, ord) == digests_in_order(m, ord.take(k + 1))) by {
                            lemma_first_error(m, ord, k + 1);
                        }
                        assert(ord.to_multiset() == known_of(m, fs).to_multiset());
                    }
                    return Err(e);
                },
                Ok(d) => {
                    let mut d2 = d;
                    bytes.append(&mut d2);
                },
            }
            k = k + 1;
        }
        proof {
            assert(ord.take(k as int) =~= ord);
        }
        let digest = sha3_512(bytes.as_slice());
        proof {
            assert(ord.to_multiset() == known_of(m, fs).to_multiset());
        }
        Ok(bytes_to_hex(digest.as_slice()))
    }
}

/// Once the digests of a prefix fail, the digests of the whole fail the
/// same way.
proof fn lemma_first_error(m: FsModel, ord: Seq<Seq<char>>, n: int)
    requires
        0 <= n <= ord.len(),
        digests_in_order(m, ord.take(n)) is Err,
    ensures
        digests_in_order(m, ord) == digests_in_order(m, ord.take(n)),
    decreases ord.len() - n,
{
    if n < ord.len() {
        assert(ord.take(n + 1).drop_last() =~= ord.take(n));
        lemma_first_error(m, ord, n + 1);
    } else {
        assert(ord.take(n) =~= ord);
    }
}


/// A file that is saved (closed after writing) and whose digest then comes
/// back is served with that digest.
pub proof fn lemma_digest_after_save(
    m0: FsModel,
    m1: FsModel,
    m2: FsModel,
    acts: Seq<(int, Seq<char>, Seq<u8>)>,
    p: Seq<char>,
    d: Seq<u8>,
    ign: IgnoreList,
)
    requires
        m0.0.dom().contains(p),
        !ign.ignores(p),
        event_outcome(m0, m1, acts, FsEventKind::CloseWrite, seq![p], ign, false),
        m2 == (
            m1.0,
            m1.1.insert(p, (if m1.1.dom().contains(p) { m1.1[p] } else { Seq::empty() }).push(d)),
            m1.2.remove(p),
        ),
    ensures
        digest_lookup(m2, p) == Ok::<Seq<u8>, (bool, Seq<char>)>(d),
        acts == seq![(0int, p, Seq::<u8>::empty())],
{
    assert(!(forall|i: int| 0 <= i < seq![p].len() ==> ign.ignores(#[trigger] seq![p][i]))) by {
        assert(seq![p][0] == p);
    }
}

/// A file renamed within the tree keeps its digest under its new name.
pub proof fn lemma_rename_keeps_digest(
    m0: FsModel,
    m1: FsModel,
    acts: Seq<(int, Seq<char>, Seq<u8>)>,
    from: Seq<char>,
    to: Seq<char>,
    d: Seq<u8>,
    ign: IgnoreList,
)
    requires
        !ign.ignores(from),
        !ign.ignores(to),
        !m0.2.contains(to),
        digest_lookup(m0, from) == Ok::<Seq<u8>, (bool, Seq<char>)>(d),
        event_outcome(m0, m1, acts, FsEventKind::RenameBoth, seq![from, to], ign, false),
    ensures
        digest_lookup(m1, to) == Ok::<Seq<u8>, (bool, Seq<char>)>(d),
        acts == seq![(3int, from, Seq::<u8>::empty()), (2int, to, d)],
{
    let ps = seq![from, to];
    assert(ps[0] == from && ps[1] == to);
    assert(!(forall|i: int| 0 <= i < ps.len() ==> ign.ignores(#[trigger] ps[i])));
}

/// A deleted file is no longer served.
pub proof fn lemma_deleted_not_served(
    m0: FsModel,
    m1: FsModel,
    acts: Seq<(int, Seq<char>, Seq<u8>)>,
    p: Seq<char>,
    ign: IgnoreList,
)
    requires
        !ign.ignores(p),
        event_outcome(m0, m1, acts, FsEventKind::RemoveFile, seq![p], ign, false),
    ensures
        !m1.0.dom().contains(p),
        !m1.1.dom().contains(p),
        digest_lookup(m1, p) matches Err((not_found, _)) && not_found,
{
    assert(seq![p][0] == p);
    assert(!(forall|i: int| 0 <= i < seq![p].len() ==> ign.ignores(#[trigger] seq![p][i])));
}

/// An event whose paths are all ignored (or that has none) changes nothing
/// and asks for no outside work.
pub proof fn lemma_ignored_event_changes_nothing(
    m0: FsModel,
    m1: FsModel,
    acts: Seq<(int, Seq<char>, Seq<u8>)>,
    kind: FsEventKind,
    paths: Seq<Seq<char>>,
    ign: IgnoreList,
    is_dir: bool,
)
    requires
        forall|i: int| 0 <= i < paths.len() ==> ign.ignores(#[trigger] paths[i]),
        event_outcome(m0, m1, acts, kind, paths, ign, is_dir),
    ensures
        m1 == m0,
        acts.len() == 0,
{
}

/// Renaming a known file within the tree to another name moves its digest
/// history with it: the new name has the whole history and the old name
/// none, and the store drops the old name and gets the latest digest under
/// the new one. A file without a history leaves the histories as they were.
pub proof fn lemma_rename_moves_history(
    m0: FsModel,
    m1: FsModel,
    acts: Seq<(int, Seq<char>, Seq<u8>)>,
    from: Seq<char>,
    to: Seq<char>,
    ign: IgnoreList,
)
    requires
        !ign.ignores(from),
        !ign.ignores(to),
        from != to,
        m0.0.dom().contains(from),
        event_outcome(m0, m1, acts, FsEventKind::RenameBoth, seq![from, to], ign, false),
    ensures
        m0.1.dom().contains(from) ==> m1.1.dom().contains(to) && m1.1[to] == m0.1[from] && !m1.1.dom().contains(from),
        m0.1.dom().contains(from) && m0.1[from].len() > 0 ==> acts == seq![
            (3int, from, Seq::<u8>::empty()),
            (2int, to, m0.1[from].last()),
        ],
        !m0.1.dom().contains(from) ==> m1.1 == m0.1 && acts.len() == 0,
        m1.0.dom().contains(to) && m1.0[to] == m0.0[from] && !m1.0.dom().contains(from),
{
    let ps = seq![from, to];
    assert(ps[0] == from && ps[1] == to);
    assert(!(forall|i: int| 0 <= i < ps.len() ==> ign.ignores(#[trigger] ps[i])));
}

} // verus!
