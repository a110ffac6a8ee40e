//! The keyed record store: which record bytes live at which resolved path,
//! and the save/load operations over them.
//!
//! The store keeps one byte record per resolved file path, exactly the
//! layout the on-disk format prescribes: a record for key `k` under base
//! directory `b` lives at the path [`crate::paths::file_path_spec`]`(b, k)`.
//! A save overwrites the whole record for its key; a load never changes
//! anything and reports a missing record as `NotFound`. An embedding that
//! persists records as files writes the same bytes at the same paths; this
//! type carries the state those files hold.

use crate::codec::{decoded_pairs, encoded_pairs, load_from_bytes, save_to_bytes};
use crate::errors::PreferencesError;
use crate::paths::{compute_file_path, file_path_spec};
use vstd::prelude::*;
use vstd::slice::slice_to_vec;

verus! {

/// No resolved path occurs twice among the entries.
pub open spec fn unique_paths(entries: Seq<(String, Vec<u8>)>) -> bool {
    forall|i: int, j: int|
        0 <= i < j < entries.len() ==> (#[trigger] entries[i]).0@ != (#[trigger] entries[j]).0@
}

/// The contents of a record table: each entry's path mapped to its bytes.
pub open spec fn table_map(entries: Seq<(String, Vec<u8>)>) -> Map<Seq<char>, Seq<u8>>
    decreases entries.len(),
{
    if entries.len() == 0 {
        Map::empty()
    } else {
        table_map(entries.drop_last()).insert(entries.last().0@, entries.last().1@)
    }
}

proof fn lemma_table_map_contains(entries: Seq<(String, Vec<u8>)>, p: Seq<char>)
    ensures
        table_map(entries).contains_key(p) <==> exists|i: int|
            0 <= i < entries.len() && (#[trigger] entries[i]).0@ == p,
    decreases entries.len(),
{
    if entries.len() > 0 {
        lemma_table_map_contains(entries.drop_last(), p);
        if entries.last().0@ == p {
            assert(entries[entries.len() - 1].0@ == p);
        } else {
            if table_map(entries).contains_key(p) {
                let i = choose|i: int|
                    0 <= i < entries.drop_last().len() && (#[trigger] entries.drop_last()[i]).0@
                        == p;
                assert(entries[i].0@ == p);
            }
            if exists|i: int| 0 <= i < entries.len() && (#[trigger] entries[i]).0@ == p {
                let i = choose|i: int| 0 <= i < entries.len() && (#[trigger] entries[i]).0@ == p;
                assert(entries.drop_last()[i].0@ == p);
            }
        }
    }
}

proof fn lemma_table_map_index(entries: Seq<(String, Vec<u8>)>, i: int)
    requires
        unique_paths(entries),
        0 <= i < entries.len(),
    ensures
        table_map(entries).contains_key(entries[i].0@),
        table_map(entries)[entries[i].0@] == entries[i].1@,
    decreases entries.len(),
{
    if i == entries.len() - 1 {
    } else {
        assert(unique_paths(entries.drop_last())) by {
            assert(forall|a: int, b: int|
                0 <= a < b < entries.drop_last().len() ==> (#[trigger] entries.drop_last()[a]).0@
                    != (#[trigger] entries.drop_last()[b]).0@);
        }
        lemma_table_map_index(entries.drop_last(), i);
        assert(entries[i].0@ != entries.last().0@);
    }
}

proof fn lemma_table_map_push(entries: Seq<(String, Vec<u8>)>, e: (String, Vec<u8>))
    ensures
        table_map(entries.push(e)) == table_map(entries).insert(e.0@, e.1@),
{
    assert(entries.push(e).drop_last() =~~= entries);
}

proof fn lemma_table_map_update(entries: Seq<(String, Vec<u8>)>, i: int, e: (String, Vec<u8>))
    requires
        unique_paths(entries),
        0 <= i < entries.len(),
        e.0@ == entries[i].0@,
    ensures
        table_map(entries.update(i, e)) == table_map(entries).insert(e.0@, e.1@),
    decreases entries.len(),
{
    let upd = entries.update(i, e);
    if i == entries.len() - 1 {
        assert(upd.drop_last() =~~= entries.drop_last());
        assert(upd.last() == e);
        assert(table_map(upd) =~= table_map(entries).insert(e.0@, e.1@));
    } else {
        assert(unique_paths(entries.drop_last())) by {
            assert(forall|a: int, b: int|
                0 <= a < b < entries.drop_last().len() ==> (#[trigger] entries.drop_last()[a]).0@
                    != (#[trigger] entries.drop_last()[b]).0@);
        }
        assert(entries.drop_last()[i] == entries[i]);
        lemma_table_map_update(entries.drop_last(), i, e);
        assert(upd.drop_last() =~~= entries.drop_last().update(i, e));
        assert(upd.last() == entries.last());
        assert(e.0@ != entries.last().0@);
        assert(table_map(upd) =~= table_map(entries).insert(e.0@, e.1@));
    }
}

/// A store of saved records under one base directory.
///
/// Every record lives at the resolved path of its key; saving replaces a
/// key's record in full, loading leaves the store untouched.
pub struct KeyedStore {
    base: String,
    files: Vec<(String, Vec<u8>)>,
}

impl KeyedStore {
    /// The base directory all of the store's records live under.
    pub closed spec fn base_dir(self) -> Seq<char> {
        self.base@
    }

    /// The store's contents: a map from resolved file path to record bytes.
    pub closed spec fn records(self) -> Map<Seq<char>, Seq<u8>> {
        table_map(self.files@)
    }

    /// Well-formedness: the record table holds each path at most once.
    pub closed spec fn wf(self) -> bool {
        unique_paths(self.files@)
    }

    /// The resolved path of a key's record in this store.
    pub open spec fn path_of(self, key: Seq<char>) -> Seq<char> {
        file_path_spec(self.base_dir(), key)
    }

    /// Opens an empty store over the given base directory.
    pub fn open(base: String) -> (s: KeyedStore)
        ensures
            s.wf(),
            s.base_dir() == base@,
            s.records() == Map::<Seq<char>, Seq<u8>>::empty(),
    {
        KeyedStore { base, files: Vec::new() }
    }

    /// The index of the entry holding `path`, if any.
    fn find(&self, path: &String) -> (r: Option<usize>)
        requires
            self.wf(),
        ensures
            match r {
                Some(i) => i < self.files@.len() && self.files@[i as int].0@ == path@
                    && self.records().contains_key(path@) && self.records()[path@]
                    == self.files@[i as int].1@,
                None => !self.records().contains_key(path@),
            },
    {
        let mut j: usize = 0;
        while j < self.files.len()
            invariant
                self.wf(),
                j <= self.files@.len(),
                forall|k: int| 0 <= k < j ==> (#[trigger] self.files@[k]).0@ != path@,
            decreases self.files@.len() - j,
        {
            if self.files[j].0 == *path {
                proof {
                    lemma_table_map_index(self.files@, j as int);
                }
                return Some(j);
            }
            j += 1;
        }
        proof {
            lemma_table_map_contains(self.files@, path@);
        }
        None
    }

    /// Stores `bytes` as the record for `key`, replacing any record the key
    /// had: afterwards the records are exactly the old records with the
    /// key's path mapped to these bytes.
    pub fn save_raw(&mut self, key: &str, bytes: Vec<u8>)
        requires
            old(self).wf(),
        ensures
            final(self).wf(),
            final(self).base_dir() == old(self).base_dir(),
            final(self).records() == old(self).records().insert(
                old(self).path_of(key@),
                bytes@,
            ),
    {
        let path = compute_file_path(self.base.as_str(), key);
        let ghost entries = self.files@;
        let ghost bv = bytes@;
        match self.find(&path) {
            Some(i) => {
                proof {
                    lemma_table_map_update(entries, i as int, (path, bytes));
                }
                self.files.set(i, (path, bytes));
                proof {
                    assert forall|a: int, b: int|
                        0 <= a < b < self.files@.len() implies (#[trigger] self.files@[a]).0@
                        != (#[trigger] self.files@[b]).0@ by {
                        assert(entries[a].0@ != entries[b].0@);
                    }
                }
            },
            None => {
                proof {
                    lemma_table_map_push(entries, (path, bytes));
                    lemma_table_map_contains(entries, path@);
                }
                self.files.push((path, bytes));
                proof {
                    assert forall|a: int, b: int|
                        0 <= a < b < self.files@.len() implies (#[trigger] self.files@[a]).0@
                        != (#[trigger] self.files@[b]).0@ by {
                        if b < entries.len() {
                            assert(entries[a].0@ != entries[b].0@);
                        } else {
                            assert(entries[a].0@ != path@);
                        }
                    }
                }
            },
        }
    }

    /// Returns a copy of the record bytes stored for `key`, or `NotFound`
    /// exactly when the key has no record. Never creates or changes a
    /// record.
    pub fn load_raw(&self, key: &str) -> (r: Result<Vec<u8>, PreferencesError>)
        requires
            self.wf(),
        ensures
            match r {
                Ok(b) => self.records().contains_key(self.path_of(key@)) && b@ == self.records()[
                    self.path_of(key@)],
                Err(e) => e is NotFound && !self.records().contains_key(self.path_of(key@)),
            },
    {
        let path = compute_file_path(self.base.as_str(), key);
        match self.find(&path) {
            Some(i) => Ok(slice_to_vec(self.files[i].1.as_slice())),
            None => Err(PreferencesError::NotFound),
        }
    }

    /// Whether a record exists for `key`.
    pub fn contains_record(&self, key: &str) -> (r: bool)
        requires
            self.wf(),
        ensures
            r == self.records().contains_key(self.path_of(key@)),
    {
        let path = compute_file_path(self.base.as_str(), key);
        match self.find(&path) {
            Some(_) => true,
            None => false,
        }
    }

    /// Saves `value` under `key`: encodes it and stores the bytes as the
    /// key's record, overwriting in full any record the key had. The stored
    /// record decodes back to exactly the saved value.
    pub fn save(&mut self, key: &str, value: &Vec<(String, String)>)
        requires
            old(self).wf(),
        ensures
            final(self).wf(),
            final(self).base_dir() == old(self).base_dir(),
            final(self).records() == old(self).records().insert(
                old(self).path_of(key@),
                encoded_pairs(value.deep_view()),
            ),
            decoded_pairs(final(self).records()[final(self).path_of(key@)]) == Some(
                value.deep_view(),
            ),
    {
        let bytes = save_to_bytes(value);
        self.save_raw(key, bytes);
    }

    /// Loads the value saved under `key`: `NotFound` exactly when the key
    /// has no record; otherwise the record's bytes are decoded, a
    /// well-formed record giving its value and a corrupt one a `Json`
    /// error. Never creates or changes a record.
    pub fn load(&self, key: &str) -> (r: Result<Vec<(String, String)>, PreferencesError>)
        requires
            self.wf(),
        ensures
            (r matches Err(e) && e is NotFound) <==> !self.records().contains_key(
                self.path_of(key@),
            ),
            self.records().contains_key(self.path_of(key@)) ==> (match decoded_pairs(
                self.records()[self.path_of(key@)],
            ) {
                Some(s) => r matches Ok(v) && v.deep_view() == s,
                None => r matches Err(e) && e is Json,
            }),
    {
        match self.load_raw(key) {
            Ok(bytes) => load_from_bytes(&bytes),
            Err(e) => Err(e),
        }
    }
}

/// The round-trip law: loading a key immediately after saving a value under
/// it returns exactly that value, for every well-formed store, every key,
/// and every value.
pub fn save_then_load(store: &mut KeyedStore, key: &str, value: &Vec<(String, String)>) -> (r: Vec<
    (String, String),
>)
    requires
        old(store).wf(),
    ensures
        final(store).wf(),
        r.deep_view() == value.deep_view(),
{
    store.save(key, value);
    let loaded = store.load(key);
    match loaded {
        Ok(v) => v,
        Err(_) => {
            proof {
                assert(false);
            }
            Vec::new()
        },
    }
}

/// Overwrite idempotence: repeating an identical save leaves the records
/// exactly as one save leaves them, for every store state, base directory,
/// key and value.
pub proof fn lemma_overwrite_idempotent(
    records: Map<Seq<char>, Seq<u8>>,
    base: Seq<char>,
    key: Seq<char>,
    pairs: Seq<(Seq<char>, Seq<char>)>,
)
    ensures
        records.insert(file_path_spec(base, key), encoded_pairs(pairs)).insert(
            file_path_spec(base, key),
            encoded_pairs(pairs),
        ) == records.insert(file_path_spec(base, key), encoded_pairs(pairs)),
{
    assert(records.insert(file_path_spec(base, key), encoded_pairs(pairs)).insert(
        file_path_spec(base, key),
        encoded_pairs(pairs),
    ) =~= records.insert(file_path_spec(base, key), encoded_pairs(pairs)));
}

} // verus!
