//! The persistent store: the in-memory map, the mutation counter with its
//! autosave threshold policy, and the crash-safe save protocol.

use vstd::prelude::*;
use vstd::string::StrSliceExecFns;
use vstd::string::StringExecFns;

use crate::codec::{
    decode_entries, decoding_of, encode_entries, encoding_of, entry_map, entry_views, has_key,
    keys_unique, lemma_entry_map_dom, lemma_entry_map_index, lemma_entry_map_len,
    lemma_entry_map_remove, lemma_entry_map_update, Entry,
};
use crate::errors::{
    deserialization_error_for, io_error_for, io_error_with, key_missing_for,
    serialization_error_with, FsCacheErrorKind, FsCacheResult,
};

verus! {

/// What reading the cache file produced, handed to [`BaseFsCache::new`] by
/// the caller that performed the read: the file was absent, its full
/// contents, or the cause of a failed open or read.
pub enum DiskImage {
    Missing,
    Present(Vec<u8>),
    Unreadable(String),
}

/// The bytes held in a [`DiskImage`], if any.
pub open spec fn image_bytes(disk: DiskImage) -> Option<Seq<u8>> {
    match disk {
        DiskImage::Present(b) => Some(b@),
        _ => None,
    }
}

/// The disk image holds bytes that the snapshot decoder reads as `e`.
pub open spec fn image_decodes_to(disk: DiskImage, e: Seq<(Seq<char>, u64)>) -> bool {
    disk matches DiskImage::Present(b) && decoding_of(b@) == Some(e)
}

/// The disk image holds bytes that the snapshot decoder rejects.
pub open spec fn image_undecodable(disk: DiskImage) -> bool {
    disk matches DiskImage::Present(b) && decoding_of(b@) is None
}

/// A pending snapshot write, to be performed by the caller: write `bytes`
/// into a freshly created file at `temp_path`, then atomically rename
/// `temp_path` over `target_path`. The ordering is the crash-safety
/// guarantee: a crash before the rename leaves the target untouched.
pub struct SavePlan {
    pub target_path: String,
    pub temp_path: String,
    pub bytes: Vec<u8>,
}

/// Where the path's final slash-separated component begins: right after the
/// last `/`, or at the start when there is none.
pub open spec fn file_name_start(p: Seq<char>) -> int
    decreases p.len(),
{
    if p.len() == 0 {
        0
    } else if p.last() == '/' {
        p.len() as int
    } else {
        file_name_start(p.drop_last())
    }
}

/// Where the final component's stem ends: the index of the dot that begins
/// its extension, or the path's length when it has none. A dot at the
/// component's first position — a hidden file — begins no extension.
pub open spec fn stem_end(p: Seq<char>) -> int
    decreases p.len(),
{
    if p.len() == 0 {
        0
    } else if p.last() == '.' && p.len() - 1 > file_name_start(p) {
        p.len() - 1
    } else if p.last() == '/' {
        p.len() as int
    } else {
        let s = stem_end(p.drop_last());
        if s == p.len() - 1 {
            p.len() as int
        } else {
            s
        }
    }
}

/// The sibling temporary path used while saving: the target path with its
/// final component's extension replaced by `tmp` — `.tmp` is appended when
/// it has none.
pub open spec fn temp_path_view(p: Seq<char>) -> Seq<char> {
    p.take(stem_end(p)) + ".tmp"@
}

/// The split points lie within the path.
pub proof fn lemma_path_split_bounds(p: Seq<char>)
    ensures
        0 <= file_name_start(p) <= p.len(),
        0 <= stem_end(p) <= p.len(),
    decreases p.len(),
{
    if p.len() > 0 {
        lemma_path_split_bounds(p.drop_last());
    }
}

/// The target path's extension is already `tmp`: the one family of paths on
/// which the derived temporary path coincides with the target itself.
pub open spec fn extension_is_tmp(p: Seq<char>) -> bool {
    stem_end(p) + 4 == p.len() && p.subrange(stem_end(p), p.len() as int) == ".tmp"@
}

/// Unless the target's extension is already `tmp`, the temporary path
/// differs from the target path it was derived from.
pub proof fn lemma_temp_path_ne(p: Seq<char>)
    requires
        !extension_is_tmp(p),
    ensures
        temp_path_view(p) != p,
{
    lemma_path_split_bounds(p);
    reveal_strlit(".tmp");
    if temp_path_view(p) == p {
        assert(p.len() == stem_end(p) + 4);
        assert(p.subrange(stem_end(p), p.len() as int) =~= ".tmp"@) by {
            assert forall|j: int| 0 <= j < 4 implies p[stem_end(p) + j] == ".tmp"@[j] by {
                assert(p[stem_end(p) + j] == temp_path_view(p)[stem_end(p) + j]);
            }
        }
    }
}

/// The plan saves `entries` at `path` through the sibling temporary file.
pub open spec fn plan_for(p: SavePlan, path: Seq<char>, entries: Seq<(Seq<char>, u64)>) -> bool {
    &&& p.target_path@ == path
    &&& p.temp_path@ == temp_path_view(path)
    &&& p.bytes@ == encoding_of(entries)
}

/// How the caller's execution of a [`SavePlan`] ended.
pub enum SaveOutcome {
    /// The temporary file was written and renamed over the target.
    Saved,
    /// Creating the target's parent directory tree failed.
    DirCreateFailed(String),
    /// Creating the temporary file failed.
    FileCreateFailed(String),
    /// Writing the encoded snapshot into the temporary file failed.
    WriteFailed(String),
    /// Renaming the temporary file over the target failed.
    RenameFailed(String),
}

fn temp_path_for(path: &String) -> (r: String)
    ensures
        r@ == temp_path_view(path@),
{
    let s = path.as_str();
    let n = s.unicode_len();
    let mut fns: usize = 0;
    let mut se: usize = 0;
    let mut i: usize = 0;
    while i < n
        invariant
            i <= n,
            n == s@.len(),
            s@ == path@,
            fns <= i,
            se <= i,
            fns == file_name_start(s@.take(i as int)),
            se == stem_end(s@.take(i as int)),
        decreases n - i,
    {
        let c = s.get_char(i);
        proof {
            assert(s@.take(i as int + 1).drop_last() =~= s@.take(i as int));
            assert(s@.take(i as int + 1).last() == s@[i as int]);
        }
        if c == '/' {
            fns = i + 1;
            se = i + 1;
        } else if c == '.' && i > fns {
            se = i;
        } else if se == i {
            se = i + 1;
        }
        i = i + 1;
    }
    proof {
        assert(s@.take(n as int) =~= s@);
    }
    let stem = s.substring_char(0, se);
    proof {
        assert(stem@ =~= s@.take(se as int));
    }
    let mut t = stem.to_owned();
    t.append(".tmp");
    t
}

/// Maps the outcome of an executed save plan for the file at `path` into the
/// error taxonomy: directory-creation, file-creation and rename failures are
/// I/O errors; a failure while writing the encoded snapshot surfaces as a
/// serialization error.
pub fn save_result(path: &String, outcome: SaveOutcome) -> (r: FsCacheResult<()>)
    ensures
        outcome is Saved <==> r is Ok,
        outcome matches SaveOutcome::DirCreateFailed(c) ==> r matches Err(e) && io_error_with(
            e,
            c@,
            path@,
        ),
        outcome matches SaveOutcome::FileCreateFailed(c) ==> r matches Err(e) && io_error_with(
            e,
            c@,
            path@,
        ),
        outcome matches SaveOutcome::RenameFailed(c) ==> r matches Err(e) && io_error_with(
            e,
            c@,
            path@,
        ),
        outcome matches SaveOutcome::WriteFailed(c) ==> r matches Err(e)
            && serialization_error_with(e, c@, path@),
{
    match outcome {
        SaveOutcome::Saved => Ok(()),
        SaveOutcome::DirCreateFailed(c) => Err(
            FsCacheErrorKind::CacheFileIoError { src: c, path: path.clone() },
        ),
        SaveOutcome::FileCreateFailed(c) => Err(
            FsCacheErrorKind::CacheFileIoError { src: c, path: path.clone() },
        ),
        SaveOutcome::WriteFailed(c) => Err(
            FsCacheErrorKind::SerializationError { src: c, path: path.clone() },
        ),
        SaveOutcome::RenameFailed(c) => Err(
            FsCacheErrorKind::CacheFileIoError { src: c, path: path.clone() },
        ),
    }
}

/// The index of the entry holding `key`, if any.
fn find_key(cache: &Vec<Entry>, key: &String) -> (r: Option<usize>)
    ensures
        r matches Some(i) ==> i < cache@.len() && cache@[i as int].0@ == key@,
        r is None ==> forall|j: int| 0 <= j < cache@.len() ==> cache@[j].0@ != key@,
{
    let mut i: usize = 0;
    while i < cache.len()
        invariant
            i <= cache@.len(),
            forall|j: int| 0 <= j < i ==> cache@[j].0@ != key@,
        decreases cache@.len() - i,
    {
        if cache[i].0 == *key {
            return Some(i);
        }
        i = i + 1;
    }
    None
}

/// Inserts or overwrites one entry, keeping keys unique.
fn put_entry(cache: &mut Vec<Entry>, key: String, item: u64)
    requires
        keys_unique(entry_views(old(cache)@)),
    ensures
        keys_unique(entry_views(final(cache)@)),
        entry_map(entry_views(final(cache)@)) == entry_map(entry_views(old(cache)@)).insert(
            key@,
            item,
        ),
{
    proof {
        lemma_entry_map_dom(entry_views(cache@));
    }
    match find_key(cache, &key) {
        Some(i) => {
            let ghost s = entry_views(cache@);
            cache.remove(i);
            cache.insert(i, (key, item));
            proof {
                assert(entry_views(cache@) =~= s.update(i as int, (s[i as int].0, item)));
                lemma_entry_map_update(s, i as int, item);
            }
        },
        None => {
            let ghost s = entry_views(cache@);
            cache.push((key, item));
            proof {
                assert(entry_views(cache@) =~= s.push((key@, item)));
                assert(entry_views(cache@).drop_last() =~= s);
            }
        },
    }
}

/// The persistent store: the in-memory map (the sole source of truth while
/// the process lives), the configured autosave threshold, and the counter of
/// mutations since it was last reset to zero.
pub struct BaseFsCache {
    loaded_from_disk: bool,
    cache_save_threshold: u32,
    cache_modified_count: u32,
    cache_path: String,
    cache: Vec<Entry>,
}

impl View for BaseFsCache {
    type V = Map<Seq<char>, u64>;

    closed spec fn view(&self) -> Map<Seq<char>, u64> {
        entry_map(entry_views(self.cache@))
    }
}

impl BaseFsCache {
    /// The store holds a valid threshold, a counter strictly below it, and
    /// one entry per key.
    pub closed spec fn wf(self) -> bool {
        &&& self.cache_save_threshold >= 1
        &&& self.cache_modified_count < self.cache_save_threshold
        &&& keys_unique(entry_views(self.cache@))
    }

    /// The configured autosave threshold.
    pub closed spec fn threshold(self) -> u32 {
        self.cache_save_threshold
    }

    /// Mutations observed since the counter was last reset to zero.
    pub closed spec fn modified_count(self) -> u32 {
        self.cache_modified_count
    }

    /// The cache file path this store persists to.
    pub closed spec fn path(self) -> Seq<char> {
        self.cache_path@
    }

    /// The entries currently held, one per key.
    pub closed spec fn entries(self) -> Seq<(Seq<char>, u64)> {
        entry_views(self.cache@)
    }

    /// The store was seeded from the disk image it was built with.
    pub closed spec fn loaded(self) -> bool {
        self.loaded_from_disk
    }
}

/// A save was performed for the store at `path` holding `entries`: the
/// result carries the plan for exactly those entries.
pub open spec fn save_performed(
    r: FsCacheResult<Option<SavePlan>>,
    path: Seq<char>,
    entries: Seq<(Seq<char>, u64)>,
) -> bool {
    r matches Ok(p) && p matches Some(plan) && plan_for(plan, path, entries)
}

impl BaseFsCache {
    /// Builds the store for the cache file at `cache_path`, seeded from what
    /// the caller read there. An absent file is not an error: the store
    /// starts empty. Bytes that decode as a snapshot seed the map with
    /// exactly that snapshot's entries; bytes that do not decode are a
    /// `DeserializationError`, never a silently empty store; a failed read
    /// is a `CacheFileIoError`.
    pub fn new(cache_save_threshold: u32, cache_path: String, disk: DiskImage) -> (r: FsCacheResult<
        Self,
    >)
        requires
            cache_save_threshold >= 1,
        ensures
            r matches Ok(c) ==> c.wf() && c.threshold() == cache_save_threshold && c.path()
                == cache_path@ && c.modified_count() == 0 && c.loaded(),
            disk is Missing ==> (r matches Ok(c) && c@ == Map::<Seq<char>, u64>::empty()),
            forall|e: Seq<(Seq<char>, u64)>|
                image_bytes(disk) == Some(#[trigger] encoding_of(e)) ==> (r matches Ok(c) && c@
                    == entry_map(e)),
            forall|e: Seq<(Seq<char>, u64)>|
                #[trigger] image_decodes_to(disk, e) ==> (r matches Ok(c) && c@ == entry_map(e)),
            image_undecodable(disk) ==> (r matches Err(e) && deserialization_error_for(
                e,
                cache_path@,
            )),
            disk matches DiskImage::Unreadable(cause) ==> (r matches Err(e) && io_error_with(
                e,
                cause@,
                cache_path@,
            )),
            r matches Err(e) ==> (disk is Unreadable && io_error_for(e, cache_path@)) || (
            image_undecodable(disk) && deserialization_error_for(e, cache_path@)),
    {
        let mut ret = BaseFsCache {
            loaded_from_disk: false,
            cache_save_threshold,
            cache_modified_count: 0,
            cache_path,
            cache: Vec::new(),
        };
        match ret.load_cache_from_disk(disk) {
            Ok(()) => Ok(ret),
            Err(e) => Err(e),
        }
    }

    /// Seeds the map from the given disk image, as `new` describes.
    fn load_cache_from_disk(&mut self, disk: DiskImage) -> (r: FsCacheResult<()>)
        ensures
            final(self).cache_save_threshold == old(self).cache_save_threshold,
            final(self).cache_path == old(self).cache_path,
            r is Ok ==> keys_unique(final(self).entries()) && final(self).cache_modified_count == 0
                && final(self).loaded_from_disk,
            disk is Missing ==> r is Ok && final(self)@ == Map::<Seq<char>, u64>::empty(),
            forall|e: Seq<(Seq<char>, u64)>|
                image_bytes(disk) == Some(#[trigger] encoding_of(e)) ==> r is Ok && final(self)@
                    == entry_map(e),
            forall|e: Seq<(Seq<char>, u64)>|
                #[trigger] image_decodes_to(disk, e) ==> r is Ok && final(self)@ == entry_map(e),
            image_undecodable(disk) ==> (r matches Err(e) && deserialization_error_for(
                e,
                old(self).cache_path@,
            )),
            disk matches DiskImage::Unreadable(cause) ==> (r matches Err(e) && io_error_with(
                e,
                cause@,
                old(self).cache_path@,
            )),
            r matches Err(e) ==> (disk is Unreadable && io_error_for(e, old(self).cache_path@)) || (
            image_undecodable(disk) && deserialization_error_for(e, old(self).cache_path@)),
    {
        match disk {
            DiskImage::Missing => {
                self.cache = Vec::new();
                self.cache_modified_count = 0;
                self.loaded_from_disk = true;
                proof {
                    assert(entry_views(self.cache@) =~= Seq::<(Seq<char>, u64)>::empty());
                    assert(self@ =~= Map::<Seq<char>, u64>::empty());
                }
                Ok(())
            },
            DiskImage::Unreadable(cause) => Err(
                FsCacheErrorKind::CacheFileIoError { src: cause, path: self.cache_path.clone() },
            ),
            DiskImage::Present(bytes) => {
                match decode_entries(&bytes) {
                    Ok(v) => {
                        let ghost dv = entry_views(v@);
                        let mut c: Vec<Entry> = Vec::new();
                        proof {
                            assert(entry_views(c@) =~= Seq::<(Seq<char>, u64)>::empty());
                            assert(dv.take(0) =~= Seq::<(Seq<char>, u64)>::empty());
                        }
                        let mut i: usize = 0;
                        while i < v.len()
                            invariant
                                i <= v@.len(),
                                dv == entry_views(v@),
                                keys_unique(entry_views(c@)),
                                entry_map(entry_views(c@)) == entry_map(dv.take(i as int)),
                            decreases v@.len() - i,
                        {
                            let key = v[i].0.clone();
                            let item = v[i].1;
                            proof {
                                assert(dv[i as int] == (v@[i as int].0@, v@[i as int].1));
                            }
                            put_entry(&mut c, key, item);
                            proof {
                                assert(dv.take(i as int + 1).drop_last() =~= dv.take(i as int));
                                assert(dv.take(i as int + 1).last() == dv[i as int]);
                            }
                            i = i + 1;
                        }
                        proof {
                            assert(dv.take(v@.len() as int) =~= dv);
                        }
                        self.cache = c;
                        self.cache_modified_count = 0;
                        self.loaded_from_disk = true;
                        Ok(())
                    },
                    Err(cause) => Err(
                        FsCacheErrorKind::DeserializationError {
                            src: cause,
                            path: self.cache_path.clone(),
                        },
                    ),
                }
            },
        }
    }

    /// Builds the crash-safe write plan for the current entries: the full
    /// snapshot encoded in one pass, addressed to the sibling temporary path
    /// and the target path.
    fn save_inner(&self) -> (r: SavePlan)
        ensures
            plan_for(r, self.path(), self.entries()),
    {
        let temp_store_path = temp_path_for(&self.cache_path);
        let bytes = encode_entries(&self.cache);
        SavePlan { target_path: self.cache_path.clone(), temp_path: temp_store_path, bytes }
    }

    /// Requests an explicit save: produces the write plan only if unsaved
    /// mutations are believed to exist (the counter is non-zero); otherwise a
    /// no-op. The counter is deliberately not reset, so a later threshold
    /// crossing can still trigger a save of its own.
    pub fn save(&self) -> (r: FsCacheResult<Option<SavePlan>>)
        ensures
            self.modified_count() == 0 ==> (r matches Ok(p) && p is None),
            self.modified_count() != 0 ==> save_performed(r, self.path(), self.entries()),
    {
        let modified_count = self.cache_modified_count;
        if modified_count != 0 {
            Ok(Some(self.save_inner()))
        } else {
            Ok(None)
        }
    }

    /// The threshold policy: if the count observed immediately before this
    /// mutation was the threshold's predecessor — this mutation is the
    /// threshold-th since the last reset — the counter resets to zero and a
    /// save is triggered; otherwise nothing happens.
    fn update_transaction_count_and_save_if_necessary(&mut self, prev_count: u32) -> (r:
        FsCacheResult<Option<SavePlan>>)
        requires
            old(self).cache_save_threshold >= 1,
        ensures
            final(self).cache == old(self).cache,
            final(self).cache_path == old(self).cache_path,
            final(self).cache_save_threshold == old(self).cache_save_threshold,
            final(self).loaded_from_disk == old(self).loaded_from_disk,
            prev_count != old(self).cache_save_threshold - 1 ==> (r matches Ok(p) && p is None
                && final(self).cache_modified_count == old(self).cache_modified_count),
            prev_count == old(self).cache_save_threshold - 1 ==> final(self).cache_modified_count
                == 0 && save_performed(r, final(self).path(), final(self).entries()),
    {
        if prev_count == self.cache_save_threshold - 1 {
            self.cache_modified_count = 0;
            Ok(Some(self.save_inner()))
        } else {
            Ok(None)
        }
    }

    /// Inserts or overwrites; the mutation always takes effect in memory and
    /// counts towards the threshold, even if the save it triggers fails.
    pub fn insert(&mut self, key: String, item: u64) -> (r: FsCacheResult<Option<SavePlan>>)
        requires
            old(self).wf(),
        ensures
            final(self).wf(),
            final(self)@ == old(self)@.insert(key@, item),
            final(self).path() == old(self).path(),
            final(self).threshold() == old(self).threshold(),
            final(self).loaded() == old(self).loaded(),
            old(self).modified_count() + 1 < old(self).threshold() ==> (r matches Ok(p) && p
                is None && final(self).modified_count() == old(self).modified_count() + 1),
            old(self).modified_count() + 1 == old(self).threshold() ==> final(self).modified_count()
                == 0 && save_performed(r, final(self).path(), final(self).entries()),
    {
        let prev = self.cache_modified_count;
        self.cache_modified_count = prev + 1;
        put_entry(&mut self.cache, key, item);
        self.update_transaction_count_and_save_if_necessary(prev)
    }

    /// Removes if present — no error if absent; either way the call counts
    /// towards the threshold, as in the original policy.
    pub fn remove(&mut self, key: &String) -> (r: FsCacheResult<Option<SavePlan>>)
        requires
            old(self).wf(),
        ensures
            final(self).wf(),
            final(self)@ == old(self)@.remove(key@),
            final(self).path() == old(self).path(),
            final(self).threshold() == old(self).threshold(),
            final(self).loaded() == old(self).loaded(),
            old(self).modified_count() + 1 < old(self).threshold() ==> (r matches Ok(p) && p
                is None && final(self).modified_count() == old(self).modified_count() + 1),
            old(self).modified_count() + 1 == old(self).threshold() ==> final(self).modified_count()
                == 0 && save_performed(r, final(self).path(), final(self).entries()),
    {
        proof {
            lemma_entry_map_dom(entry_views(self.cache@));
        }
        match find_key(&self.cache, key) {
            Some(i) => {
                let ghost s = entry_views(self.cache@);
                self.cache.remove(i);
                proof {
                    assert(entry_views(self.cache@) =~= s.remove(i as int));
                    lemma_entry_map_remove(s, i as int);
                }
            },
            None => {
                proof {
                    assert(!has_key(entry_views(self.cache@), key@));
                    assert(self@ =~= self@.remove(key@));
                }
            },
        }
        let prev = self.cache_modified_count;
        self.cache_modified_count = prev + 1;
        self.update_transaction_count_and_save_if_necessary(prev)
    }

    /// A copy of the stored value, or the recoverable missing-key condition
    /// carrying the probed key; the store is never mutated.
    pub fn get(&self, key: &String) -> (r: Result<u64, FsCacheErrorKind>)
        requires
            self.wf(),
        ensures
            self@.contains_key(key@) ==> (r matches Ok(v) && v == self@[key@]),
            !self@.contains_key(key@) ==> (r matches Err(e) && key_missing_for(e, key@)),
    {
        proof {
            lemma_entry_map_dom(entry_views(self.cache@));
        }
        match find_key(&self.cache, key) {
            Some(i) => {
                proof {
                    assert(entry_views(self.cache@)[i as int] == (
                        self.cache@[i as int].0@,
                        self.cache@[i as int].1,
                    ));
                    lemma_entry_map_index(entry_views(self.cache@), i as int);
                }
                Ok(self.cache[i].1)
            },
            None => {
                proof {
                    assert(!has_key(entry_views(self.cache@), key@));
                }
                Err(FsCacheErrorKind::KeyMissingError(key.clone()))
            },
        }
    }

    /// Whether the key is present.
    pub fn contains_key(&self, key: &String) -> (r: bool)
        ensures
            r == self@.contains_key(key@),
    {
        proof {
            lemma_entry_map_dom(entry_views(self.cache@));
        }
        match find_key(&self.cache, key) {
            Some(i) => {
                proof {
                    assert(entry_views(self.cache@)[i as int].0 == self.cache@[i as int].0@);
                    assert(has_key(entry_views(self.cache@), key@));
                }
                true
            },
            None => {
                proof {
                    assert(!has_key(entry_views(self.cache@), key@));
                }
                false
            },
        }
    }

    /// A point-in-time snapshot copy of all current keys; re-calling returns
    /// the state at that later moment.
    pub fn keys(&self) -> (r: Vec<String>)
        ensures
            r@.len() == self.entries().len(),
            forall|i: int| 0 <= i < r@.len() ==> r@[i]@ == self.entries()[i].0,
            forall|i: int| 0 <= i < r@.len() ==> self@.contains_key(#[trigger] r@[i]@),
            forall|k: Seq<char>|
                #[trigger] self@.contains_key(k) ==> exists|i: int|
                    0 <= i < r@.len() && r@[i]@ == k,
    {
        let mut out: Vec<String> = Vec::new();
        let mut i: usize = 0;
        while i < self.cache.len()
            invariant
                i <= self.cache@.len(),
                out@.len() == i,
                forall|j: int| 0 <= j < i ==> out@[j]@ == entry_views(self.cache@)[j].0,
            decreases self.cache@.len() - i,
        {
            out.push(self.cache[i].0.clone());
            i = i + 1;
        }
        proof {
            lemma_entry_map_dom(entry_views(self.cache@));
            assert forall|j: int| 0 <= j < out@.len() implies self@.contains_key(
                #[trigger] out@[j]@,
            ) by {
                assert(entry_views(self.cache@)[j].0 == out@[j]@);
                assert(has_key(entry_views(self.cache@), out@[j]@));
            }
            assert forall|k: Seq<char>| #[trigger] self@.contains_key(k) implies exists|i: int|
                0 <= i < out@.len() && out@[i]@ == k by {
                assert(has_key(entry_views(self.cache@), k));
                let j = choose|j: int|
                    0 <= j < entry_views(self.cache@).len() && #[trigger] entry_views(
                        self.cache@,
                    )[j].0 == k;
                assert(out@[j]@ == k);
            }
        }
        out
    }

    /// The number of entries.
    pub fn len(&self) -> (r: usize)
        requires
            self.wf(),
        ensures
            r == self@.dom().len(),
            r == self.entries().len(),
    {
        proof {
            lemma_entry_map_len(entry_views(self.cache@));
        }
        self.cache.len()
    }
}

/// Round trip: `save` hands out the encoding of exactly `self.entries()`,
/// and `new`, given an image holding those bytes, yields a store whose map
/// is `entry_map` of those entries. This lemma closes the loop: that map is
/// the saved store's own map, so a fresh load reproduces an equivalent map.
pub proof fn lemma_round_trip(c: BaseFsCache)
    requires
        c.wf(),
    ensures
        entry_map(c.entries()) == c@,
{
}

/// Crash safety: the save protocol's write step touches only the sibling
/// temporary path, which differs from the target path whenever the target's
/// own extension is not already `tmp`; a crash after the temporary file is
/// fully written but before the atomic rename leaves the target path's
/// contents — or its absence — exactly as they were.
pub proof fn lemma_crash_before_rename(
    disk: Map<Seq<char>, Seq<u8>>,
    target: Seq<char>,
    bytes: Seq<u8>,
)
    requires
        !extension_is_tmp(target),
    ensures
        disk.insert(temp_path_view(target), bytes).contains_key(target) == disk.contains_key(
            target,
        ),
        disk.contains_key(target) ==> disk.insert(temp_path_view(target), bytes)[target]
            == disk[target],
{
    lemma_temp_path_ne(target);
}

} // verus!
