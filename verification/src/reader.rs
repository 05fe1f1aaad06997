//! Reading datasets: opening files through the columnar decoder, resolving
//! the projection and filters once per file, and streaming projected,
//! filtered, rendered rows across all files of a dataset. A file that
//! cannot be decoded contributes exactly one in-band error item and the
//! scan continues with the next file.

use vstd::prelude::*;
use crate::error::Error;
use crate::fields::{proj_view, req_view, resolve_fields, resolve_spec};
use crate::filters::{
    pairs_view, resolve_filters, resolved_view, row_matches, row_matches_spec, CompiledFilter,
};
use crate::paths::enumerate_paths;
use crate::strutil::strs_view;

verus! {

#[verifier::external_type_specification]
#[verifier::external_body]
pub struct ExParquetMetaData(parquet::file::metadata::ParquetMetaData);

/// An opened data file: the decoder's file reader, ready to report its
/// schema and metadata or be consumed into rows.
#[verifier::external_body]
pub struct DataFile {
    reader: Box<dyn parquet::file::reader::FileReader>,
}

/// Relies on `SerializedFileReader::try_from`: opens the file at `path` as
/// a data file, or reports the decoder's message.
#[verifier::external_body]
fn open_data_file(path: &String) -> (r: Result<DataFile, String>) {
    match parquet::file::serialized_reader::SerializedFileReader::try_from(std::path::Path::new(
        path.as_str(),
    )) {
        Ok(reader) => Ok(DataFile { reader: Box::new(reader) }),
        Err(e) => Err(format!("{}", e)),
    }
}

/// Relies on the decoder's file metadata: the schema's field names, in
/// schema order.
#[verifier::external_body]
fn file_field_names(df: &DataFile) -> (r: Vec<String>) {
    df.reader.metadata().file_metadata().schema().get_fields().iter().map(
        |f| f.name().to_string(),
    ).collect()
}

/// Relies on the decoder's file metadata: the row count the file header
/// claims (which may be absent or unreliable at this layer).
#[verifier::external_body]
fn file_meta_num_rows(df: &DataFile) -> (r: i64) {
    df.reader.metadata().file_metadata().num_rows()
}

/// Relies on the decoder's file metadata: a copy of the file's metadata.
#[verifier::external_body]
fn file_metadata(df: &DataFile) -> (r: parquet::file::metadata::ParquetMetaData) {
    df.reader.metadata().clone()
}

/// Relies on `RowIter::from_file_into` and the field values' rendering:
/// every row of the file in physical order, each as its cells' display
/// strings in schema order, or the decoder's message for a row it failed
/// on.
#[verifier::external_body]
fn read_rendered_rows(df: DataFile) -> (r: Vec<Result<Vec<String>, String>>) {
    parquet::record::reader::RowIter::from_file_into(df.reader).map(
        |item| match item {
            Ok(row) => Ok(row.get_column_iter().map(|(_, f)| format!("{}", f)).collect()),
            Err(e) => Err(format!("{}", e)),
        },
    ).collect()
}

/// The cells of one projected row: the rendered cell at each projected
/// source index (an empty string standing in for an index the row lacks).
pub open spec fn project_row_spec(cells: Seq<Seq<char>>, proj: Seq<(nat, Seq<char>)>) -> Seq<
    Seq<char>,
> {
    Seq::new(
        proj.len(),
        |j: int|
            if proj[j].0 < cells.len() {
                cells[proj[j].0 as int]
            } else {
                Seq::empty()
            },
    )
}

/// Projects one rendered row onto the resolved field indices.
pub fn project_row(cells: &Vec<String>, proj: &Vec<(usize, String)>) -> (r: Vec<String>)
    ensures
        strs_view(r@) == project_row_spec(strs_view(cells@), proj_view(proj@)),
        r@.len() == proj@.len(),
{
    let ghost cv = strs_view(cells@);
    let ghost pv = proj_view(proj@);
    let mut r: Vec<String> = Vec::new();
    let mut j: usize = 0;
    while j < proj.len()
        invariant
            j <= proj@.len(),
            r@.len() == j,
            cv == strs_view(cells@),
            pv == proj_view(proj@),
            forall|i: int| 0 <= i < j ==> strs_view(r@)[i] == project_row_spec(cv, pv)[i],
        decreases proj@.len() - j,
    {
        let idx = proj[j].0;
        if idx < cells.len() {
            r.push(cells[idx].clone());
        } else {
            r.push(String::new());
        }
        j = j + 1;
    }
    proof {
        assert(strs_view(r@) =~= project_row_spec(cv, pv));
    }
    r
}

/// The view of one stream item: the projected cells of a row, or the
/// decoder's message of an error item.
pub open spec fn item_view(it: Result<Vec<String>, Error>) -> Result<Seq<Seq<char>>, Seq<char>> {
    match it {
        Ok(v) => Ok(strs_view(v@)),
        Err(e) => match e {
            Error::Parquet(p, m) => Err(m@),
            Error::InvalidParquet(p) => Err(p@),
            Error::IO(m) => Err(m@),
            Error::Filter(m) => Err(m@),
            Error::InvalidArgument(m) => Err(m@),
        },
    }
}

/// The views of a list of stream items.
pub open spec fn items_view(items: Seq<Result<Vec<String>, Error>>) -> Seq<
    Result<Seq<Seq<char>>, Seq<char>>,
> {
    items.map_values(|it: Result<Vec<String>, Error>| item_view(it))
}

/// What one decoded file contributes to the stream: its rows in physical
/// order, each projected and kept only when every resolved filter matches;
/// the first row the decoder failed on contributes one error item and ends
/// the file.
pub open spec fn file_items_spec(
    raw: Seq<Result<Vec<String>, String>>,
    proj: Seq<(nat, Seq<char>)>,
    resolved: Seq<(nat, Seq<char>)>,
) -> Seq<Result<Seq<Seq<char>>, Seq<char>>>
    decreases raw.len(),
{
    if raw.len() == 0 {
        Seq::empty()
    } else {
        match raw[0] {
            Err(msg) => seq![Result::<Seq<Seq<char>>, Seq<char>>::Err(msg@)],
            Ok(cells) => {
                let p = project_row_spec(strs_view(cells@), proj);
                let rest = file_items_spec(raw.skip(1), proj, resolved);
                if row_matches_spec(p, resolved) {
                    seq![Result::<Seq<Seq<char>>, Seq<char>>::Ok(p)] + rest
                } else {
                    rest
                }
            },
        }
    }
}

/// Turns the decoder's raw rows of one file into stream items: project,
/// filter, and stop the file at its first decode failure, whose error item
/// carries the file's path.
pub fn file_items(
    raw: Vec<Result<Vec<String>, String>>,
    path: &String,
    proj: &Vec<(usize, String)>,
    resolved: &Vec<(usize, usize)>,
    filters: &Vec<(String, CompiledFilter)>,
) -> (r: Vec<Result<Vec<String>, Error>>)
    requires
        forall|k: int|
            0 <= k < resolved@.len() ==> (#[trigger] resolved@[k]).0 < proj@.len()
                && resolved@[k].1 < filters@.len(),
    ensures
        items_view(r@) == file_items_spec(
            raw@,
            proj_view(proj@),
            resolved_view(resolved@, filters@),
        ),
        forall|k: int|
            0 <= k < r@.len() ==> match #[trigger] r@[k] {
                Ok(_) => true,
                Err(e) => e matches Error::Parquet(p, m) && p@ == path@,
            },
{
    let ghost raw0 = raw@;
    let ghost pv = proj_view(proj@);
    let ghost rv = resolved_view(resolved@, filters@);
    let mut raw = raw;
    let mut r: Vec<Result<Vec<String>, Error>> = Vec::new();
    proof {
        assert(items_view(r@) =~= Seq::<Result<Seq<Seq<char>>, Seq<char>>>::empty());
        assert(items_view(r@) + file_items_spec(raw@, pv, rv) =~= file_items_spec(raw@, pv, rv));
    }
    while raw.len() > 0
        invariant
            pv == proj_view(proj@),
            rv == resolved_view(resolved@, filters@),
            forall|k: int|
                0 <= k < resolved@.len() ==> (#[trigger] resolved@[k]).0 < proj@.len()
                    && resolved@[k].1 < filters@.len(),
            file_items_spec(raw0, pv, rv) == items_view(r@) + file_items_spec(raw@, pv, rv),
            forall|k: int|
                0 <= k < r@.len() ==> match #[trigger] r@[k] {
                    Ok(_) => true,
                    Err(e) => e matches Error::Parquet(p, m) && p@ == path@,
                },
        decreases raw@.len(),
    {
        let ghost rawpre = raw@;
        let item = raw.remove(0);
        proof {
            assert(raw@ =~= rawpre.skip(1));
        }
        match item {
            Err(msg) => {
                let ghost r0 = r@;
                r.push(Err(Error::Parquet(path.clone(), msg)));
                raw.clear();
                proof {
                    assert(items_view(r@) =~= items_view(r0).push(
                        Result::<Seq<Seq<char>>, Seq<char>>::Err(msg@),
                    ));
                    assert(items_view(r0) + file_items_spec(rawpre, pv, rv) =~= items_view(r@)
                        + file_items_spec(raw@, pv, rv));
                }
            },
            Ok(cells) => {
                let projected = project_row(&cells, proj);
                if row_matches(&projected, resolved, filters) {
                    let ghost r0 = r@;
                    r.push(Ok(projected));
                    proof {
                        assert(items_view(r@) =~= items_view(r0).push(
                            Result::<Seq<Seq<char>>, Seq<char>>::Ok(
                                project_row_spec(strs_view(cells@), pv),
                            ),
                        ));
                        assert(items_view(r0) + file_items_spec(rawpre, pv, rv) =~= items_view(r@)
                            + file_items_spec(raw@, pv, rv));
                    }
                } else {
                }
            },
        }
    }
    proof {
        assert(file_items_spec(raw@, pv, rv) =~= Seq::<Result<Seq<Seq<char>>, Seq<char>>>::empty());
        assert(items_view(r@) + Seq::<Result<Seq<Seq<char>>, Seq<char>>>::empty() =~= items_view(
            r@,
        ));
    }
    r
}

/// A dataset rooted at one path, with an optional ordered column request
/// and optional per-field filters.
pub struct ParquetFile {
    path: String,
    fields: Option<Vec<String>>,
    filters: Option<Vec<(String, CompiledFilter)>>,
}

/// The filter pairs a dataset carries.
pub open spec fn filters_opt_view(filters: Option<Vec<(String, CompiledFilter)>>) -> Option<
    Seq<(Seq<char>, Seq<char>)>,
> {
    match filters {
        Option::None => Option::None,
        Option::Some(fs) => Option::Some(pairs_view(fs@)),
    }
}

impl ParquetFile {
    /// The dataset's root path.
    pub closed spec fn path_spec(&self) -> Seq<char> {
        self.path@
    }

    /// The requested column subset, if any.
    pub closed spec fn fields_spec(&self) -> Option<Seq<Seq<char>>> {
        req_view(self.fields)
    }

    /// The filters, if any, as name and pattern pairs.
    pub closed spec fn filters_spec(&self) -> Option<Seq<(Seq<char>, Seq<char>)>> {
        filters_opt_view(self.filters)
    }

    /// A dataset at `path`, with no column request and no filters.
    pub fn new(path: String) -> (r: Self)
        ensures
            r.path_spec() == path@,
            r.fields_spec() is None,
            r.filters_spec() is None,
    {
        Self { path, fields: None, filters: None }
    }

    /// The same dataset with a column request.
    pub fn with_fields(self, fields: Option<Vec<String>>) -> (r: Self)
        ensures
            r.path_spec() == self.path_spec(),
            r.fields_spec() == req_view(fields),
            r.filters_spec() == self.filters_spec(),
    {
        Self { fields, path: self.path, filters: self.filters }
    }

    /// The same dataset with filters.
    pub fn with_filters(self, filters: Option<Vec<(String, CompiledFilter)>>) -> (r: Self)
        ensures
            r.path_spec() == self.path_spec(),
            r.fields_spec() == self.fields_spec(),
            r.filters_spec() == filters_opt_view(filters),
    {
        Self { filters, path: self.path, fields: self.fields }
    }

    /// The dataset's first candidate file among the enumerated paths, or
    /// the empty-dataset error: a dataset that resolved to no files at all
    /// has no knowable schema or metadata, which is distinct from an empty
    /// row stream.
    pub fn first_candidate<'p>(paths: &'p Vec<String>, root: &String) -> (r: Result<
        &'p String,
        Error,
    >)
        ensures
            match r {
                Ok(p) => paths@.len() > 0 && p == &paths@[0],
                Err(e) => paths@.len() == 0 && e == Error::InvalidParquet(*root),
            },
    {
        if paths.len() == 0 {
            Err(Error::InvalidParquet(root.clone()))
        } else {
            Ok(&paths[0])
        }
    }

    /// The display names of the resolved projection of this dataset's first
    /// file. With no files at all the dataset has no knowable schema, which
    /// is an error distinct from an empty row stream; a first file the
    /// decoder refuses reports the decoder's message. Whatever schema the
    /// first file declares, the names are exactly the resolved projection's
    /// display names for this dataset's column request.
    pub fn field_names(&self) -> (r: Result<Vec<String>, Error>)
        ensures
            match r {
                Ok(names) => exists|schema: Seq<Seq<char>>|
                    strs_view(names@) == proj_display(
                        resolve_spec(schema, self.fields_spec()),
                    ),
                Err(e) => match e {
                    Error::InvalidParquet(p) => p@ == self.path_spec(),
                    Error::Parquet(_, _) => true,
                    _ => false,
                },
            },
    {
        let paths = enumerate_paths(&self.path);
        let first = match Self::first_candidate(&paths, &self.path) {
            Ok(p) => p,
            Err(e) => {
                return Err(e);
            },
        };
        match open_data_file(first) {
            Err(msg) => Err(Error::Parquet(first.clone(), msg)),
            Ok(df) => {
                let names = file_field_names(&df);
                let proj = resolve_fields(&names, &self.fields);
                let ghost schema = strs_view(names@);
                let mut out: Vec<String> = Vec::new();
                let mut j: usize = 0;
                while j < proj.len()
                    invariant
                        j <= proj@.len(),
                        forall|i: int|
                            0 <= i < j ==> strs_view(out@)[i] == proj_view(proj@)[i].1,
                        out@.len() == j,
                    decreases proj@.len() - j,
                {
                    let ghost o0 = out@;
                    out.push(proj[j].1.clone());
                    proof {
                        assert forall|i: int| 0 <= i < j + 1 implies strs_view(out@)[i]
                            == proj_view(proj@)[i].1 by {
                            assert(strs_view(out@)[i] == out@[i]@);
                            assert(proj_view(proj@)[i].1 == proj@[i].1@);
                            if i < j {
                                assert(out@[i] == o0[i]);
                                assert(strs_view(o0)[i] == o0[i]@);
                            }
                        }
                    }
                    j = j + 1;
                }
                proof {
                    assert(strs_view(out@) =~= proj_display(
                        resolve_spec(schema, self.fields_spec()),
                    ));
                }
                Ok(out)
            },
        }
    }

    /// The metadata of the dataset's first file; with no files at all the
    /// dataset has none, which is an error.
    pub fn metadata(&self) -> (r: Result<parquet::file::metadata::ParquetMetaData, Error>)
        ensures
            match r {
                Ok(_) => true,
                Err(e) => match e {
                    Error::InvalidParquet(p) => p@ == self.path_spec(),
                    Error::Parquet(_, _) => true,
                    _ => false,
                },
            },
    {
        let paths = enumerate_paths(&self.path);
        let first = match Self::first_candidate(&paths, &self.path) {
            Ok(p) => p,
            Err(e) => {
                return Err(e);
            },
        };
        match open_data_file(first) {
            Err(msg) => Err(Error::Parquet(first.clone(), msg)),
            Ok(df) => Ok(file_metadata(&df)),
        }
    }

    /// The total row count across all files of the dataset: the saturating
    /// sum, over the files that open, of each file's effective count
    /// (`effective_count` below); files the decoder refuses count as zero
    /// rows, and an empty dataset counts zero. The per-file counts come
    /// from disk, so only the chooser and the sum carry contracts.
    pub fn num_rows(&self) -> (r: usize) {
        let paths = enumerate_paths(&self.path);
        let mut total: usize = 0;
        let mut k: usize = 0;
        while k < paths.len()
            invariant
                k <= paths@.len(),
            decreases paths@.len() - k,
        {
            match open_data_file(&paths[k]) {
                Err(_) => {},
                Ok(df) => {
                    let meta = file_meta_num_rows(&df);
                    let n: usize = if meta > 0 {
                        effective_count(meta, 0)
                    } else {
                        effective_count(meta, read_rendered_rows(df).len())
                    };
                    total = sat_add(total, n);
                },
            }
            k = k + 1;
        }
        total
    }

    /// The lazily evaluated stream of this dataset's projected, filtered,
    /// rendered rows: files are opened only as the stream is pulled.
    pub fn iter(&self) -> (r: DatasetRows<'_>)
        ensures
            r.wf(),
    {
        DatasetRows {
            pf: self,
            paths: enumerate_paths(&self.path),
            next_path: 0,
            pending: Vec::new(),
        }
    }
}

/// One file's effective row count: a positive header claim is trusted
/// (saturated at the machine word); an absent or non-positive claim falls
/// back to the count obtained by iterating the rows.
pub open spec fn chosen_count(meta: int, fallback: nat) -> nat {
    if meta > 0 {
        if meta > usize::MAX {
            usize::MAX as nat
        } else {
            meta as nat
        }
    } else {
        fallback
    }
}

/// Chooses one file's effective row count from the header's claim and the
/// iterated fallback.
pub fn effective_count(meta: i64, fallback: usize) -> (r: usize)
    ensures
        r == chosen_count(meta as int, fallback as nat),
{
    if meta > 0 {
        if meta as u64 > usize::MAX as u64 {
            usize::MAX
        } else {
            meta as usize
        }
    } else {
        fallback
    }
}

/// Addition saturated at the machine word.
pub fn sat_add(a: usize, b: usize) -> (r: usize)
    ensures
        r == if a + b > usize::MAX {
            usize::MAX as nat
        } else {
            (a + b) as nat
        },
{
    if a > usize::MAX - b {
        usize::MAX
    } else {
        a + b
    }
}

/// The display names of a projection.
pub open spec fn proj_display(p: Seq<(nat, Seq<char>)>) -> Seq<Seq<char>> {
    Seq::new(p.len(), |i: int| p[i].1)
}

/// Whether a stream item is a row or carries a dataset error.
pub open spec fn stream_item_ok(item: Result<Vec<String>, Error>) -> bool {
    match item {
        Ok(_) => true,
        Err(e) => crate::error::dataset_error(e),
    }
}

/// The row stream of a dataset: one flat sequence of row results spanning
/// all files in enumeration order, rows within a file in physical order. A
/// file the decoder refuses contributes exactly one error item and the
/// stream moves on to the next file.
pub struct DatasetRows<'a> {
    pf: &'a ParquetFile,
    paths: Vec<String>,
    next_path: usize,
    /// The remaining items of the file being drained, in reverse order.
    pending: Vec<Result<Vec<String>, Error>>,
}

impl<'a> DatasetRows<'a> {
    /// The stream never stands past its file list, and holds only rows and
    /// dataset errors.
    pub open spec fn wf(&self) -> bool {
        self.next_path_spec() <= self.paths_spec().len() && self.pending_ok()
    }

    /// Every buffered item is a row or a dataset error.
    pub closed spec fn pending_ok(&self) -> bool {
        forall|k: int| 0 <= k < self.pending@.len() ==> stream_item_ok(#[trigger] self.pending@[k])
    }

    /// The items of the file being drained that are still to come, next
    /// one first.
    pub closed spec fn buffered_spec(&self) -> Seq<Result<Vec<String>, Error>> {
        Seq::new(self.pending@.len(), |i: int| self.pending@[self.pending@.len() - 1 - i])
    }

    /// The enumerated candidate paths.
    pub closed spec fn paths_spec(&self) -> Seq<Seq<char>> {
        strs_view(self.paths@)
    }

    /// How many files have been opened or given up on.
    pub closed spec fn next_path_spec(&self) -> nat {
        self.next_path as nat
    }

    /// The next row result, pulled lazily: opening a file, resolving its
    /// projection and filters, and draining its items happen only here.
    /// While the current file's buffer is non-empty, its first item is
    /// returned and removed with no file touched; otherwise files are
    /// opened in enumeration order until one yields an item (a refused
    /// file yields its single error item at once). `None` comes exactly
    /// when the buffer is empty and every file has been consumed, and the
    /// stream then stays exhausted.
    pub fn next(&mut self) -> (r: Option<Result<Vec<String>, Error>>)
        requires
            old(self).wf(),
        ensures
            final(self).wf(),
            final(self).paths_spec() == old(self).paths_spec(),
            old(self).next_path_spec() <= final(self).next_path_spec(),
            r matches Some(item) ==> stream_item_ok(item),
            old(self).buffered_spec().len() > 0 ==> {
                &&& r == Some(old(self).buffered_spec()[0])
                &&& final(self).buffered_spec() == old(self).buffered_spec().skip(1)
                &&& final(self).next_path_spec() == old(self).next_path_spec()
            },
            r is None ==> {
                &&& old(self).buffered_spec().len() == 0
                &&& final(self).buffered_spec().len() == 0
                &&& final(self).next_path_spec() == old(self).paths_spec().len()
            },
            r is Some && old(self).buffered_spec().len() == 0 ==> final(self).next_path_spec()
                > old(self).next_path_spec(),
    {
        loop
            invariant
                self.wf(),
                self.paths_spec() == old(self).paths_spec(),
                old(self).next_path_spec() <= self.next_path_spec(),
                (self.buffered_spec() == old(self).buffered_spec() && self.next_path_spec()
                    == old(self).next_path_spec()) || (old(self).buffered_spec().len() == 0
                    && self.buffered_spec().len() == 0 && self.next_path_spec() == old(
                    self,
                ).next_path_spec()) || (old(self).buffered_spec().len() == 0
                    && self.next_path_spec() > old(self).next_path_spec()),
            decreases self.paths_spec().len() - self.next_path_spec(),
        {
            let ghost pending0 = self.pending@;
            let ghost buffered0 = self.buffered_spec();
            match self.pending.pop() {
                Some(item) => {
                    proof {
                        assert(item == pending0[pending0.len() - 1]);
                        assert(stream_item_ok(item));
                        assert(buffered0[0] == pending0[pending0.len() - 1]);
                        assert(self.buffered_spec() =~= buffered0.skip(1));
                        if old(self).buffered_spec().len() > 0 {
                            assert(buffered0 == old(self).buffered_spec());
                        }
                    }
                    return Some(item);
                },
                None => {},
            }
            if self.next_path >= self.paths.len() {
                return None;
            }
            let path = self.paths[self.next_path].clone();
            self.next_path = self.next_path + 1;
            match open_data_file(&path) {
                Err(msg) => {
                    return Some(Err(Error::Parquet(path, msg)));
                },
                Ok(df) => {
                    let names = file_field_names(&df);
                    let proj = resolve_fields(&names, &self.pf.fields);
                    let raw = read_rendered_rows(df);
                    let mut items = match &self.pf.filters {
                        Some(fs) => {
                            let resolved = resolve_filters(&proj, fs);
                            file_items(raw, &path, &proj, &resolved, fs)
                        },
                        None => {
                            let no_resolved: Vec<(usize, usize)> = Vec::new();
                            let no_filters: Vec<(String, CompiledFilter)> = Vec::new();
                            file_items(raw, &path, &proj, &no_resolved, &no_filters)
                        },
                    };
                    proof {
                        assert forall|k: int| 0 <= k < items@.len() implies stream_item_ok(
                            #[trigger] items@[k],
                        ) by {
                            assert(match items@[k] {
                                Ok(_) => true,
                                Err(e) => e matches Error::Parquet(p, m) && p@ == path@,
                            });
                        }
                    }
                    let ghost snap_paths = self.paths_spec();
                    let ghost snap_next = self.next_path_spec();
                    loop
                        invariant
                            self.paths_spec() == snap_paths,
                            self.next_path_spec() == snap_next,
                            self.pending_ok(),
                            forall|k: int|
                                0 <= k < items@.len() ==> stream_item_ok(#[trigger] items@[k]),
                        ensures
                            self.paths_spec() == snap_paths,
                            self.next_path_spec() == snap_next,
                            self.pending_ok(),
                        decreases items@.len(),
                    {
                        let ghost items0 = items@;
                        let ghost p0 = self.pending@;
                        match items.pop() {
                            Some(it) => {
                                proof {
                                    assert(it == items0[items0.len() - 1]);
                                    assert(stream_item_ok(it));
                                }
                                self.pending.push(it);
                                proof {
                                    assert forall|k: int|
                                        0 <= k < self.pending@.len() implies stream_item_ok(
                                        #[trigger] self.pending@[k],
                                    ) by {
                                        if k < p0.len() {
                                            assert(self.pending@[k] == p0[k]);
                                        }
                                    }
                                }
                            },
                            None => {
                                break ;
                            },
                        }
                    }
                },
            }
        }
    }
}

/// What the scan of one file looked like: refused outright by the decoder,
/// or decoded into raw rows that flow through a resolved projection and
/// filters.
pub enum FileScan {
    /// The decoder refused the whole file; holds its message.
    Corrupt(Seq<char>),
    /// The decoder produced raw rows for this file.
    Decoded(Seq<Result<Vec<String>, String>>, Seq<(nat, Seq<char>)>, Seq<(nat, Seq<char>)>),
}

/// The items one scanned file contributes to the stream.
pub open spec fn scan_items(scan: FileScan) -> Seq<Result<Seq<Seq<char>>, Seq<char>>> {
    match scan {
        FileScan::Corrupt(msg) => seq![Result::<Seq<Seq<char>>, Seq<char>>::Err(msg)],
        FileScan::Decoded(raw, proj, resolved) => file_items_spec(raw, proj, resolved),
    }
}

/// The whole stream of a dataset scan: each file's items, in file order.
pub open spec fn dataset_items(scans: Seq<FileScan>) -> Seq<Result<Seq<Seq<char>>, Seq<char>>>
    decreases scans.len(),
{
    if scans.len() == 0 {
        Seq::empty()
    } else {
        dataset_items(scans.drop_last()) + scan_items(scans.last())
    }
}

/// How many items of a stream are error items.
pub open spec fn count_errors(items: Seq<Result<Seq<Seq<char>>, Seq<char>>>) -> nat
    decreases items.len(),
{
    if items.len() == 0 {
        0
    } else {
        count_errors(items.drop_last()) + if items.last() is Err {
            1nat
        } else {
            0nat
        }
    }
}

/// The data rows of a stream, in order, error items left out.
pub open spec fn ok_items(items: Seq<Result<Seq<Seq<char>>, Seq<char>>>) -> Seq<Seq<Seq<char>>>
    decreases items.len(),
{
    if items.len() == 0 {
        Seq::empty()
    } else {
        let rest = ok_items(items.drop_last());
        match items.last() {
            Ok(p) => rest.push(p),
            Err(_) => rest,
        }
    }
}

/// How many scans are corrupt files.
pub open spec fn count_corrupt(scans: Seq<FileScan>) -> nat
    decreases scans.len(),
{
    if scans.len() == 0 {
        0
    } else {
        count_corrupt(scans.drop_last()) + if scans.last() is Corrupt {
            1nat
        } else {
            0nat
        }
    }
}

/// The rows that the decoded files alone contribute, in file order.
pub open spec fn good_rows(scans: Seq<FileScan>) -> Seq<Seq<Seq<char>>>
    decreases scans.len(),
{
    if scans.len() == 0 {
        Seq::empty()
    } else {
        good_rows(scans.drop_last()) + match scans.last() {
            FileScan::Corrupt(_) => Seq::<Seq<Seq<char>>>::empty(),
            FileScan::Decoded(raw, proj, resolved) => ok_items(
                file_items_spec(raw, proj, resolved),
            ),
        }
    }
}

/// Whether a scan had no row-level decode failures (a corrupt file fails
/// as a whole, not row by row).
pub open spec fn clean_rows(scan: FileScan) -> bool {
    match scan {
        FileScan::Corrupt(_) => true,
        FileScan::Decoded(raw, _, _) => forall|i: int| 0 <= i < raw.len() ==> raw[i] is Ok,
    }
}

/// Error counting distributes over concatenation.
proof fn lemma_count_errors_concat(
    a: Seq<Result<Seq<Seq<char>>, Seq<char>>>,
    b: Seq<Result<Seq<Seq<char>>, Seq<char>>>,
)
    ensures
        count_errors(a + b) == count_errors(a) + count_errors(b),
    decreases b.len(),
{
    if b.len() == 0 {
        assert(a + b =~= a);
    } else {
        assert((a + b).drop_last() =~= a + b.drop_last());
        lemma_count_errors_concat(a, b.drop_last());
    }
}

/// Row collection distributes over concatenation.
proof fn lemma_ok_items_concat(
    a: Seq<Result<Seq<Seq<char>>, Seq<char>>>,
    b: Seq<Result<Seq<Seq<char>>, Seq<char>>>,
)
    ensures
        ok_items(a + b) == ok_items(a) + ok_items(b),
    decreases b.len(),
{
    if b.len() == 0 {
        assert(a + b =~= a);
        assert(ok_items(a) + ok_items(b) =~= ok_items(a));
    } else {
        assert((a + b).drop_last() =~= a + b.drop_last());
        lemma_ok_items_concat(a, b.drop_last());
        match b.last() {
            Ok(p) => {
                assert(ok_items(a + b) =~= ok_items(a) + ok_items(b));
            },
            Err(_) => {},
        }
    }
}

/// A file whose rows all decoded contributes no error items.
proof fn lemma_file_items_clean(
    raw: Seq<Result<Vec<String>, String>>,
    proj: Seq<(nat, Seq<char>)>,
    resolved: Seq<(nat, Seq<char>)>,
)
    requires
        forall|i: int| 0 <= i < raw.len() ==> raw[i] is Ok,
    ensures
        count_errors(file_items_spec(raw, proj, resolved)) == 0,
    decreases raw.len(),
{
    if raw.len() > 0 {
        assert forall|i: int| 0 <= i < raw.skip(1).len() implies raw.skip(1)[i] is Ok by {
            assert(raw.skip(1)[i] == raw[i + 1]);
        }
        lemma_file_items_clean(raw.skip(1), proj, resolved);
        assert(raw[0] is Ok);
        let cells = raw[0]->Ok_0;
        assert(raw[0] == Result::<Vec<String>, String>::Ok(cells));
        let p = project_row_spec(strs_view(cells@), proj);
        let rest = file_items_spec(raw.skip(1), proj, resolved);
        if row_matches_spec(p, resolved) {
            let one = seq![Result::<Seq<Seq<char>>, Seq<char>>::Ok(p)];
            assert(file_items_spec(raw, proj, resolved) == one + rest) by {
                reveal_with_fuel(file_items_spec, 2);
            };
            lemma_count_errors_concat(one, rest);
            assert(one.drop_last() =~= Seq::<Result<Seq<Seq<char>>, Seq<char>>>::empty());
            assert(one.last() == Result::<Seq<Seq<char>>, Seq<char>>::Ok(p));
            assert(count_errors(one) == 0) by {
                reveal_with_fuel(count_errors, 2);
                assert(one.drop_last() =~= Seq::<Result<Seq<Seq<char>>, Seq<char>>>::empty());
                assert(one.last() == Result::<Seq<Seq<char>>, Seq<char>>::Ok(p));
            };
        } else {
            assert(file_items_spec(raw, proj, resolved) == rest);
        }
    }
}

/// Fault isolation across a dataset: when every decoded file is row-clean,
/// the stream holds exactly one error item per corrupt file, and its data
/// rows are exactly the surviving rows of the decoded files in file order —
/// so neither the error count nor the rows depend on where the corrupt
/// files stand.
pub proof fn lemma_fault_isolation(scans: Seq<FileScan>)
    requires
        forall|k: int| 0 <= k < scans.len() ==> clean_rows(#[trigger] scans[k]),
    ensures
        count_errors(dataset_items(scans)) == count_corrupt(scans),
        ok_items(dataset_items(scans)) == good_rows(scans),
    decreases scans.len(),
{
    if scans.len() > 0 {
        assert forall|k: int| 0 <= k < scans.drop_last().len() implies clean_rows(
            #[trigger] scans.drop_last()[k],
        ) by {
            assert(scans.drop_last()[k] == scans[k]);
        }
        lemma_fault_isolation(scans.drop_last());
        let last = scans.last();
        lemma_count_errors_concat(dataset_items(scans.drop_last()), scan_items(last));
        lemma_ok_items_concat(dataset_items(scans.drop_last()), scan_items(last));
        match last {
            FileScan::Corrupt(msg) => {
                let one = seq![Result::<Seq<Seq<char>>, Seq<char>>::Err(msg)];
                assert(one.drop_last() =~= Seq::<Result<Seq<Seq<char>>, Seq<char>>>::empty());
                assert(one.last() == Result::<Seq<Seq<char>>, Seq<char>>::Err(msg));
                assert(count_errors(one) == 1) by {
                    reveal_with_fuel(count_errors, 2);
                    assert(one.drop_last() =~= Seq::<Result<Seq<Seq<char>>, Seq<char>>>::empty());
                };
                assert(ok_items(one) =~= Seq::<Seq<Seq<char>>>::empty()) by {
                    reveal_with_fuel(ok_items, 2);
                    assert(one.drop_last() =~= Seq::<Result<Seq<Seq<char>>, Seq<char>>>::empty());
                };
                assert(ok_items(dataset_items(scans)) =~= good_rows(scans));
            },
            FileScan::Decoded(raw, proj, resolved) => {
                assert(clean_rows(last));
                lemma_file_items_clean(raw, proj, resolved);
                assert(ok_items(dataset_items(scans)) =~= good_rows(scans));
            },
        }
    }
}

/// Putting one more corrupt file anywhere into a scan leaves the stream's
/// data rows unchanged.
pub proof fn lemma_corrupt_position_irrelevant(scans: Seq<FileScan>, i: int, msg: Seq<char>)
    requires
        0 <= i <= scans.len(),
    ensures
        good_rows(scans.insert(i, FileScan::Corrupt(msg))) == good_rows(scans),
    decreases scans.len(),
{
    let ext = scans.insert(i, FileScan::Corrupt(msg));
    if i == scans.len() {
        assert(ext.drop_last() =~= scans);
        assert(ext.last() == FileScan::Corrupt(msg));
        assert(good_rows(ext) =~= good_rows(scans));
    } else {
        assert(ext.drop_last() =~= scans.drop_last().insert(i, FileScan::Corrupt(msg)));
        assert(ext.last() == scans.last());
        lemma_corrupt_position_irrelevant(scans.drop_last(), i, msg);
    }
}

} // verus!
