//! Enumerating the candidate data files of a dataset root: a single file is
//! taken as it stands, a directory is walked recursively and only files
//! carrying the dataset suffix are kept (partition subdirectories are
//! entered, never yielded).

use vstd::prelude::*;
use crate::strutil::strs_view;

verus! {

/// Relies on `walkdir::WalkDir`: every entry under the root, recursively,
/// as `(path, file name, is a file)` triples in traversal order; entries
/// that cannot be read are skipped.
#[verifier::external_body]
fn walk_entries(root: &String) -> (r: Vec<(String, String, bool)>) {
    walkdir::WalkDir::new(root.as_str())
        .contents_first(true)
        .into_iter()
        .filter_map(|e| e.ok())
        .map(
            |e| (
                e.path().to_string_lossy().into_owned(),
                e.file_name().to_string_lossy().into_owned(),
                e.path().is_file(),
            ),
        )
        .collect()
}

/// Relies on `std::path::Path::is_file`: whether the path names a regular
/// file (rather than a directory).
#[verifier::external_body]
pub(crate) fn path_is_file(path: &String) -> bool {
    std::path::Path::new(path.as_str()).is_file()
}

/// Whether a file name ends with the dataset suffix `.parquet`.
pub open spec fn has_parquet_suffix(name: Seq<char>) -> bool {
    name.len() >= 8 && name.skip(name.len() - 8) == ".parquet"@
}

/// Checks a file name for the dataset suffix.
pub fn is_parquet_name(name: &str) -> (r: bool)
    ensures
        r == has_parquet_suffix(name@),
{
    let n = name.unicode_len();
    proof {
        reveal_strlit(".parquet");
    }
    if n < 8 {
        return false;
    }
    let suffix = ".parquet";
    let mut k: usize = 0;
    while k < 8
        invariant
            k <= 8,
            n == name@.len(),
            n >= 8,
            suffix@ == ".parquet"@,
            suffix@.len() == 8,
            forall|j: int| 0 <= j < k ==> name@[n - 8 + j] == ".parquet"@[j],
        decreases 8 - k,
    {
        let c = name.get_char(n - 8 + k);
        let d = suffix.get_char(k);
        if c != d {
            proof {
                assert(name@.skip(n - 8 as int)[k as int] == name@[n - 8 + k]);
            }
            return false;
        }
        k = k + 1;
    }
    proof {
        assert(name@.skip(n - 8 as int) =~= ".parquet"@);
    }
    true
}

/// Whether one walked entry is kept: every file when the root itself is a
/// file, otherwise only a file whose name carries the dataset suffix.
pub open spec fn sel_pred(root_is_file: bool, e: (String, String, bool)) -> bool {
    if root_is_file {
        e.2
    } else {
        e.2 && has_parquet_suffix(e.1@)
    }
}

/// The candidate files among the walked entries, in traversal order.
pub open spec fn selected_paths(
    entries: Seq<(String, String, bool)>,
    root_is_file: bool,
) -> Seq<Seq<char>>
    decreases entries.len(),
{
    if entries.len() == 0 {
        Seq::empty()
    } else {
        let rest = selected_paths(entries.drop_last(), root_is_file);
        if sel_pred(root_is_file, entries.last()) {
            rest.push(entries.last().0@)
        } else {
            rest
        }
    }
}

/// Keeps the candidate files among the walked entries.
pub fn filter_parquet_paths(entries: Vec<(String, String, bool)>, root_is_file: bool) -> (r: Vec<
    String,
>)
    ensures
        strs_view(r@) == selected_paths(entries@, root_is_file),
{
    let mut r: Vec<String> = Vec::new();
    let mut k: usize = 0;
    proof {
        assert(entries@.take(0) =~= Seq::<(String, String, bool)>::empty());
        assert(strs_view(r@) =~= selected_paths(entries@.take(0), root_is_file));
    }
    while k < entries.len()
        invariant
            k <= entries@.len(),
            strs_view(r@) == selected_paths(entries@.take(k as int), root_is_file),
        decreases entries@.len() - k,
    {
        let keep = if root_is_file {
            entries[k].2
        } else {
            entries[k].2 && is_parquet_name(entries[k].1.as_str())
        };
        proof {
            assert(entries@.take(k + 1 as int).drop_last() =~= entries@.take(k as int));
            assert(entries@.take(k + 1 as int).last() == entries@[k as int]);
            assert(keep == sel_pred(root_is_file, entries@[k as int]));
        }
        if keep {
            r.push(entries[k].0.clone());
        }
        proof {
            assert(strs_view(r@) =~= selected_paths(entries@.take(k + 1 as int), root_is_file));
        }
        k = k + 1;
    }
    proof {
        assert(entries@.take(entries@.len() as int) =~= entries@);
    }
    r
}

/// The candidate data files of a root path, in traversal order.
pub(crate) fn enumerate_paths(root: &String) -> Vec<String> {
    let entries = walk_entries(root);
    let root_file = path_is_file(root);
    filter_parquet_paths(entries, root_file)
}

/// Walks a root path and yields its candidate data files one by one.
pub struct ParquetPathIterator {
    paths: Vec<String>,
    pos: usize,
}

impl ParquetPathIterator {
    /// The enumerated candidate paths.
    pub closed spec fn paths_spec(&self) -> Seq<Seq<char>> {
        strs_view(self.paths@)
    }

    /// How many paths have been handed out.
    pub closed spec fn pos_spec(&self) -> nat {
        self.pos as nat
    }

    /// The iterator never stands past its path list.
    pub open spec fn wf(&self) -> bool {
        self.pos_spec() <= self.paths_spec().len()
    }

    /// Enumerates the candidate data files under `path`.
    pub fn new(path: &String) -> (r: ParquetPathIterator)
        ensures
            r.wf(),
            r.pos_spec() == 0,
    {
        ParquetPathIterator { paths: crate::paths::enumerate_paths(path), pos: 0 }
    }

    /// The next candidate path, in traversal order.
    pub fn next(&mut self) -> (r: Option<String>)
        requires
            old(self).wf(),
        ensures
            final(self).wf(),
            final(self).paths_spec() == old(self).paths_spec(),
            match r {
                Some(p) => {
                    &&& old(self).pos_spec() < old(self).paths_spec().len()
                    &&& p@ == old(self).paths_spec()[old(self).pos_spec() as int]
                    &&& final(self).pos_spec() == old(self).pos_spec() + 1
                },
                None => {
                    &&& old(self).pos_spec() == old(self).paths_spec().len()
                    &&& final(self).pos_spec() == old(self).pos_spec()
                },
            },
    {
        if self.pos < self.paths.len() {
            let p = self.paths[self.pos].clone();
            self.pos = self.pos + 1;
            Some(p)
        } else {
            None
        }
    }
}

} // verus!
