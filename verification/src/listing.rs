//! Gathering the selected keys of a paginated remote listing, and walking the local directory.
use vstd::prelude::*;
use vstd::string::*;

use crate::filter::{regex_finds, NameFilter};
use crate::paths::{file_name_of, path_file_name};
use crate::text::{last_segment, texts};

verus! {

broadcast use vstd::seq_lib::group_filter_ensures, vstd::seq_lib::group_seq_properties;

/// The key of a listed object; an object without a key counts as the empty key.
pub open spec fn listed_key(entry: Option<String>) -> Seq<char> {
    match entry {
        Some(k) => k@,
        None => Seq::empty(),
    }
}

/// The keys of a page that the pattern selects: those whose part after the last `/` the
/// pattern matches, in page order.
pub open spec fn selected_keys(pattern: Seq<char>, page: Seq<Option<String>>) -> Seq<Seq<char>> {
    page.map_values(|e: Option<String>| listed_key(e)).filter(
        |k: Seq<char>| regex_finds(pattern, last_segment(k)),
    )
}

/// The keys gathered so far from the pages of a listing.
pub struct KeyListing {
    /// The selected keys, in listing order.
    pub keys: Vec<String>,
}

impl KeyListing {
    /// A listing that has seen no page yet.
    pub fn new() -> (l: KeyListing)
        ensures
            l.keys@.len() == 0,
    {
        KeyListing { keys: Vec::new() }
    }

    /// Takes in one page of the listing: its selected keys are added, in order, after those
    /// of the earlier pages.
    pub fn absorb_page(&mut self, filter: &NameFilter, page: &Vec<Option<String>>)
        ensures
            texts(final(self).keys@) == texts(old(self).keys@) + selected_keys(filter@, page@),
    {
        let ghost start = texts(self.keys@);
        let ghost entries = page@.map_values(|e: Option<String>| listed_key(e));
        let ghost pred = |k: Seq<char>| regex_finds(filter@, last_segment(k));
        let n = page.len();
        let mut i: usize = 0;
        while i < n
            invariant
                n == page@.len(),
                i <= n,
                entries == page@.map_values(|e: Option<String>| listed_key(e)),
                pred == (|k: Seq<char>| regex_finds(filter@, last_segment(k))),
                texts(self.keys@) == start + entries.take(i as int).filter(pred),
            decreases n - i,
        {
            let key = match &page[i] {
                Some(k) => k.clone(),
                None => String::new(),
            };
            proof {
                assert(key@ == entries[i as int]);
                assert(entries.take(i + 1) =~= entries.take(i as int).push(key@));
                entries.take(i as int).lemma_filter_push(key@, pred);
            }
            let ghost before = texts(self.keys@);
            if filter.matches_key(key.as_str()) {
                self.keys.push(key);
                assert(texts(self.keys@) =~= before.push(entries[i as int]));
            }
            i = i + 1;
        }
        assert(entries.take(n as int) =~= entries);
    }
}

/// The name a walked path is filtered by: its file name, or the empty name when it has none.
pub open spec fn entry_name(path: Seq<char>) -> Seq<char> {
    match path_file_name(path) {
        Some(name) => name,
        None => Seq::empty(),
    }
}

/// A walked entry takes part in the scan: it is a regular file and the pattern matches
/// somewhere in its name.
pub open spec fn scan_admits(pattern: Seq<char>, path: Seq<char>, is_file: bool) -> bool {
    is_file && regex_finds(pattern, entry_name(path))
}

/// A file is deleted for being too old: deleting old files is on, its age is known (its
/// modification time is not in the future) and exceeds the maximum age, in milliseconds.
pub open spec fn too_old(delete_old: bool, age_ms: Option<u128>, max_age_ms: u64) -> bool {
    delete_old && match age_ms {
        Some(age) => age > max_age_ms,
        None => false,
    }
}

/// The state of a walk over the local directory: the files kept so far, in walk order.
///
/// For each walked entry the walker asks `admits`; for an admitted one it reads the file's age
/// and hands it to `settle`, which says whether to delete the file and otherwise keeps it.
pub struct LocalScan {
    /// The kept files, in walk order.
    pub kept: Vec<String>,
}

impl LocalScan {
    /// A walk that has met no entry yet.
    pub fn new() -> (scan: LocalScan)
        ensures
            scan.kept@.len() == 0,
    {
        LocalScan { kept: Vec::new() }
    }

    /// Whether the walked entry at `path` takes part: a regular file whose name the filter
    /// selects. Other entries are passed over.
    pub fn admits(filter: &NameFilter, path: &str, is_file: bool) -> (b: bool)
        ensures
            b == scan_admits(filter@, path@, is_file),
    {
        if !is_file {
            return false;
        }
        let name = match file_name_of(path) {
            Some(name) => name,
            None => String::new(),
        };
        filter.matches_file_name(name.as_str())
    }

    /// Settles an admitted file of the given age: when it is too old it is to be deleted
    /// (the answer is `true`) and is not kept; otherwise it is kept, after the earlier ones.
    pub fn settle(&mut self, path: &str, delete_old: bool, age_ms: Option<u128>, max_age_ms: u64) -> (delete: bool)
        ensures
            delete == too_old(delete_old, age_ms, max_age_ms),
            texts(final(self).kept@) == if delete {
                texts(old(self).kept@)
            } else {
                texts(old(self).kept@).push(path@)
            },
    {
        let delete = should_delete_old_file(delete_old, age_ms, max_age_ms);
        if !delete {
            let ghost before = texts(self.kept@);
            self.kept.push(String::from_str(path));
            assert(texts(self.kept@) =~= before.push(path@));
        }
        delete
    }
}

/// Whether a scanned local file is deleted for being too old: only when deleting old files is
/// on, the file's age is known (its modification time is not in the future) and exceeds the
/// maximum age, all in milliseconds.
pub fn should_delete_old_file(delete_old: bool, age_ms: Option<u128>, max_age_ms: u64) -> (b: bool)
    ensures
        b == too_old(delete_old, age_ms, max_age_ms),
{
    if delete_old {
        match age_ms {
            Some(age) => age > max_age_ms as u128,
            None => false,
        }
    } else {
        false
    }
}

} // verus!
