//! Rendering rows as text: the output formats, adaptive column widths
//! sampled over a leading window of rows, and the writer that turns a header
//! and a list of row results into one of three textual renderings.

use vstd::prelude::*;
use std::io::Write;
use crate::error::Error;
use crate::strutil::{lower_of, strs_view, to_lowercase};
use crate::width::{cell_spec, display_width, format_cell, sat_width};

verus! {

/// The selectable output renderings.
#[derive(Copy, Clone, PartialEq, Eq, Debug)]
pub enum OutputFormat {
    /// Header and rows as a tab-aligned table.
    Tabular,
    /// One block of `name: value` lines per row.
    Vertical,
    /// Header and rows as comma-joined lines.
    Csv,
}

/// The format a textual name denotes, case-insensitively.
pub open spec fn format_of(s: Seq<char>) -> Option<OutputFormat> {
    let l = lower_of(s);
    if l == "vertical"@ || l == "v"@ {
        Some(OutputFormat::Vertical)
    } else if l == "tabular"@ || l == "table"@ || l == "t"@ {
        Some(OutputFormat::Tabular)
    } else if l == "csv"@ || l == "c"@ {
        Some(OutputFormat::Csv)
    } else {
        None
    }
}

impl OutputFormat {
    /// The format names offered to the command line.
    pub fn values() -> (r: Vec<&'static str>)
        ensures
            r@.len() == 5,
            r@[0]@ == "t"@,
            r@[1]@ == "table"@,
            r@[2]@ == "tabular"@,
            r@[3]@ == "v"@,
            r@[4]@ == "vertical"@,
    {
        let mut v: Vec<&'static str> = Vec::new();
        v.push("t");
        v.push("table");
        v.push("tabular");
        v.push("v");
        v.push("vertical");
        v
    }

    /// Parses a format name, case-insensitively; an unknown name is an
    /// invalid argument carrying the offending value.
    pub fn try_from(value: String) -> (r: Result<OutputFormat, Error>)
        ensures
            match r {
                Ok(f) => format_of(value@) == Some(f),
                Err(e) => format_of(value@) is None && e == Error::InvalidArgument(value),
            },
    {
        let l = to_lowercase(value.as_str());
        if l.eq(&String::from_str("vertical")) || l.eq(&String::from_str("v")) {
            Ok(OutputFormat::Vertical)
        } else if l.eq(&String::from_str("tabular")) || l.eq(&String::from_str("table")) || l.eq(
            &String::from_str("t"),
        ) {
            Ok(OutputFormat::Tabular)
        } else if l.eq(&String::from_str("csv")) || l.eq(&String::from_str("c")) {
            Ok(OutputFormat::Csv)
        } else {
            Err(Error::InvalidArgument(value))
        }
    }
}

/// How the writer renders: the minimum column width handed to the aligner,
/// the number of leading rows that the width sample covers, and the format.
#[derive(Copy, Clone)]
pub struct OutputConfig {
    /// Minimum column width for tab alignment.
    pub minwidth: usize,
    /// Rows sampled for column widths; later rows use the frozen widths.
    pub batch_size: usize,
    /// The selected rendering.
    pub format: OutputFormat,
}

impl Default for OutputConfig {
    /// Four columns minimum, a five-hundred-row sample window, tabular.
    fn default() -> (r: Self)
        ensures
            r.minwidth == 4,
            r.batch_size == 500,
            r.format == OutputFormat::Tabular,
    {
        OutputConfig { minwidth: 4, batch_size: 500, format: OutputFormat::Tabular }
    }
}

/// The pieces joined by `sep`.
pub open spec fn join_with(cs: Seq<Seq<char>>, sep: char) -> Seq<char>
    decreases cs.len(),
{
    if cs.len() == 0 {
        Seq::empty()
    } else if cs.len() == 1 {
        cs[0]
    } else {
        join_with(cs.drop_last(), sep) + seq![sep] + cs.last()
    }
}

/// The column widths after one row of the sample window: while `index` lies
/// inside the window each tracked column grows to its cell's display width;
/// afterwards the widths are frozen.
pub open spec fn widths_after(
    index: nat,
    batch: nat,
    cells: Seq<Seq<char>>,
    w: Seq<usize>,
) -> Seq<usize> {
    if index < batch {
        Seq::new(
            w.len(),
            |j: int|
                if 0 <= j < cells.len() {
                    if sat_width(cells[j]) > w[j] {
                        sat_width(cells[j]) as usize
                    } else {
                        w[j]
                    }
                } else {
                    w[j]
                },
        )
    } else {
        w
    }
}

/// The text of each cell of one row: unchanged inside the sample window,
/// formatted to the frozen column width after it (cells beyond the tracked
/// columns stay unchanged).
pub open spec fn cell_outs(
    index: nat,
    batch: nat,
    cells: Seq<Seq<char>>,
    w: Seq<usize>,
) -> Seq<Seq<char>> {
    Seq::new(
        cells.len(),
        |j: int|
            if index < batch {
                cells[j]
            } else if 0 <= j < w.len() {
                cell_spec(cells[j], w[j] as nat)
            } else {
                cells[j]
            },
    )
}

/// One rendered row: its cells joined by tabs, with a trailing newline.
pub open spec fn row_text(index: nat, batch: nat, cells: Seq<Seq<char>>, w: Seq<usize>) -> Seq<
    char,
> {
    join_with(cell_outs(index, batch, cells, w), '\t').push('\n')
}

/// Renders one row and, while `index` lies inside the sample window, grows
/// the column widths to cover it.
pub fn format_row(index: usize, batch_size: usize, cells: &Vec<String>, width: &mut Vec<usize>) -> (r:
    String)
    ensures
        r@ == row_text(index as nat, batch_size as nat, strs_view(cells@), old(width)@),
        final(width)@ == widths_after(
            index as nat,
            batch_size as nat,
            strs_view(cells@),
            old(width)@,
        ),
{
    let ghost cv = strs_view(cells@);
    let ghost w0 = old(width)@;
    let mut out = String::new();
    let mut j: usize = 0;
    while j < cells.len()
        invariant
            j <= cells@.len(),
            cv == strs_view(cells@),
            width@.len() == w0.len(),
            width@ == widths_after(index as nat, batch_size as nat, cv.take(j as int), w0),
            out@ == join_with(cell_outs(index as nat, batch_size as nat, cv, w0).take(j as int), '\t'),
        decreases cells@.len() - j,
    {
        let ghost outs = cell_outs(index as nat, batch_size as nat, cv, w0);
        if j > 0 {
            crate::strutil::push_char(&mut out, '\t');
        }
        if (index < batch_size) {
            if j < width.len() {
                let dw = display_width(cells[j].as_str());
                if dw > width[j] {
                    width[j] = dw;
                }
            }
            out.append(cells[j].as_str());
        } else {
            if j < width.len() {
                let cell = format_cell(cells[j].as_str(), width[j]);
                out.append(cell.as_str());
            } else {
                out.append(cells[j].as_str());
            }
        }
        proof {
            assert(outs[j as int] == (if index < batch_size {
                cv[j as int]
            } else if (j as int) < w0.len() {
                cell_spec(cv[j as int], w0[j as int] as nat)
            } else {
                cv[j as int]
            }));
            assert(outs.take(j + 1 as int).drop_last() =~= outs.take(j as int));
            assert(outs.take(j + 1 as int).last() == outs[j as int]);
            if j == 0 {
                assert(outs.take(1).len() == 1);
                assert(out@ =~= join_with(outs.take(1), '\t'));
            } else {
                assert(out@ =~= join_with(outs.take(j + 1 as int), '\t'));
            }
            assert(width@ =~= widths_after(
                index as nat,
                batch_size as nat,
                cv.take(j + 1 as int),
                w0,
            ));
        }
        j = j + 1;
    }
    crate::strutil::push_char(&mut out, '\n');
    proof {
        let outs = cell_outs(index as nat, batch_size as nat, cv, w0);
        assert(outs.take(cells@.len() as int) =~= outs);
        assert(cv.take(cells@.len() as int) =~= cv);
    }
    out
}

/// What the column aligner produces from tab-separated text with a given
/// minimum column width.
pub uninterp spec fn tab_aligned(text: Seq<char>, minwidth: nat) -> Seq<char>;

/// Relies on `tabwriter::TabWriter`: elastic alignment of tab-separated
/// columns with the given minimum column width; the output depends on the
/// text and the minimum width alone.
#[verifier::external_body]
fn align_tabs(text: &str, minwidth: usize) -> (r: Result<String, String>)
    ensures
        r matches Ok(s) ==> s@ == tab_aligned(text@, minwidth as nat),
{
    let mut tw = tabwriter::TabWriter::new(Vec::new()).minwidth(minwidth);
    let written = tw.write_all(text.as_bytes()).and_then(|_| tw.flush());
    if let Err(e) = written {
        return Err(format!("{}", e));
    }
    match tw.into_inner() {
        Ok(bytes) => String::from_utf8(bytes).map_err(|e| format!("{}", e)),
        Err(e) => Err(format!("{}", e)),
    }
}

/// Whether every row result is a row, not an error.
pub open spec fn all_ok(vals: Seq<Result<Vec<String>, Error>>) -> bool {
    forall|k: int| 0 <= k < vals.len() ==> (#[trigger] vals[k]) is Ok
}

/// The cell texts of every row result (meaningful when all are rows).
pub open spec fn ok_rows(vals: Seq<Result<Vec<String>, Error>>) -> Seq<Seq<Seq<char>>> {
    vals.map_values(|v: Result<Vec<String>, Error>| strs_view(v->Ok_0@))
}

/// The tabular body: each row rendered in turn while the widths evolve.
pub open spec fn tab_body(rows: Seq<Seq<Seq<char>>>, index: nat, batch: nat, w: Seq<usize>) -> Seq<
    char,
>
    decreases rows.len(),
{
    if rows.len() == 0 {
        Seq::empty()
    } else {
        row_text(index, batch, rows[0], w) + tab_body(
            rows.skip(1),
            index + 1,
            batch,
            widths_after(index, batch, rows[0], w),
        )
    }
}

/// The tabular rendering before alignment: the header row, then every data
/// row; the header and the first data row both stand at sample index zero.
pub open spec fn tabular_text(
    headers: Seq<Seq<char>>,
    rows: Seq<Seq<Seq<char>>>,
    batch: nat,
    minwidth: usize,
) -> Seq<char> {
    let w0 = Seq::new(headers.len(), |i: int| minwidth);
    row_text(0, batch, headers, w0) + tab_body(rows, 0, batch, widths_after(0, batch, headers, w0))
}

/// The label of column `j` in vertical mode: the header name with a
/// trailing colon (a bare colon for cells beyond the headers).
pub open spec fn colon_name(headers: Seq<Seq<char>>, j: int) -> Seq<char> {
    if 0 <= j < headers.len() {
        headers[j].push(':')
    } else {
        seq![':']
    }
}

/// The lines of one vertical block from field `j` on: one `name: value`
/// two-cell row per field, the widths evolving across them.
pub open spec fn vert_fields(
    headers: Seq<Seq<char>>,
    row: Seq<Seq<char>>,
    j: nat,
    index: nat,
    batch: nat,
    w: Seq<usize>,
) -> (Seq<char>, Seq<usize>)
    decreases row.len() - j,
{
    if j >= row.len() {
        (Seq::empty(), w)
    } else {
        let pair = seq![colon_name(headers, j as int), row[j as int]];
        let t = row_text(index, batch, pair, w);
        let w2 = widths_after(index, batch, pair, w);
        let rest = vert_fields(headers, row, j + 1, index, batch, w2);
        (t + rest.0, rest.1)
    }
}

/// The vertical body: for each row a blank separator line, then its block.
pub open spec fn vert_body(
    headers: Seq<Seq<char>>,
    rows: Seq<Seq<Seq<char>>>,
    index: nat,
    batch: nat,
    w: Seq<usize>,
) -> (Seq<char>, Seq<usize>)
    decreases rows.len(),
{
    if rows.len() == 0 {
        (Seq::empty(), w)
    } else {
        let fr = vert_fields(headers, rows[0], 0, index, batch, w);
        let rest = vert_body(headers, rows.skip(1), index + 1, batch, fr.1);
        (seq!['\n'] + fr.0 + rest.0, rest.1)
    }
}

/// The vertical rendering before alignment.
pub open spec fn vertical_text(
    headers: Seq<Seq<char>>,
    rows: Seq<Seq<Seq<char>>>,
    batch: nat,
    minwidth: usize,
) -> Seq<char> {
    vert_body(headers, rows, 0, batch, Seq::new(headers.len(), |i: int| minwidth)).0
}

/// The comma-joined data lines.
pub open spec fn csv_rows(rows: Seq<Seq<Seq<char>>>) -> Seq<char>
    decreases rows.len(),
{
    if rows.len() == 0 {
        Seq::empty()
    } else {
        join_with(rows[0], ',').push('\n') + csv_rows(rows.skip(1))
    }
}

/// The comma-joined rendering: header line, then one line per row.
pub open spec fn csv_text(headers: Seq<Seq<char>>, rows: Seq<Seq<Seq<char>>>) -> Seq<char> {
    join_with(headers, ',').push('\n') + csv_rows(rows)
}

/// What rendering a header and data rows under the default configuration
/// (five-hundred-row sample window, minimum width four) produces in each
/// format.
pub open spec fn rendered_spec(
    headers: Seq<Seq<char>>,
    rows: Seq<Seq<Seq<char>>>,
    format: OutputFormat,
    s: Seq<char>,
) -> bool {
    match format {
        OutputFormat::Tabular => s == tab_aligned(tabular_text(headers, rows, 500, 4), 4),
        OutputFormat::Vertical => s == tab_aligned(vertical_text(headers, rows, 500, 4), 4),
        OutputFormat::Csv => s == csv_text(headers, rows),
    }
}

/// Whether `e` is the first error among the row results.
pub open spec fn first_error_is(values: Seq<Result<Vec<String>, Error>>, e: Error) -> bool {
    exists|k: int|
        #![trigger values[k]]
        {
            &&& 0 <= k < values.len()
            &&& values[k] matches Err(e2) && e2 == e
            &&& forall|j: int| 0 <= j < k ==> (#[trigger] values[j]) is Ok
        }
}

/// Renders a header and a list of row results in a configured format.
pub struct OutputWriter {
    headers: Vec<String>,
    values: Vec<Result<Vec<String>, Error>>,
    config: OutputConfig,
}

impl OutputWriter {
    /// The header names.
    pub closed spec fn headers_spec(&self) -> Seq<Seq<char>> {
        strs_view(self.headers@)
    }

    /// The row results.
    pub closed spec fn values_spec(&self) -> Seq<Result<Vec<String>, Error>> {
        self.values@
    }

    /// The configuration.
    pub closed spec fn config_spec(&self) -> OutputConfig {
        self.config
    }

    /// A writer over the given header and row results, with the default
    /// configuration.
    pub fn new(headers: Vec<String>, values: Vec<Result<Vec<String>, Error>>) -> (r: OutputWriter)
        ensures
            r.headers_spec() == strs_view(headers@),
            r.values_spec() == values@,
            r.config_spec().minwidth == 4,
            r.config_spec().batch_size == 500,
            r.config_spec().format == OutputFormat::Tabular,
    {
        OutputWriter { headers, values, config: OutputConfig::default() }
    }

    /// The same writer with another output format.
    pub fn format(self, format: OutputFormat) -> (r: OutputWriter)
        ensures
            r.headers_spec() == self.headers_spec(),
            r.values_spec() == self.values_spec(),
            r.config_spec().minwidth == self.config_spec().minwidth,
            r.config_spec().batch_size == self.config_spec().batch_size,
            r.config_spec().format == format,
    {
        OutputWriter {
            headers: self.headers,
            values: self.values,
            config: OutputConfig {
                format,
                minwidth: self.config.minwidth,
                batch_size: self.config.batch_size,
            },
        }
    }

    /// What a successful rendering looks like for this writer.
    pub open spec fn output_spec(&self, s: Seq<char>) -> bool {
        let c = self.config_spec();
        let rows = ok_rows(self.values_spec());
        match c.format {
            OutputFormat::Tabular => s == tab_aligned(
                tabular_text(self.headers_spec(), rows, c.batch_size as nat, c.minwidth),
                c.minwidth as nat,
            ),
            OutputFormat::Vertical => s == tab_aligned(
                vertical_text(self.headers_spec(), rows, c.batch_size as nat, c.minwidth),
                c.minwidth as nat,
            ),
            OutputFormat::Csv => s == csv_text(self.headers_spec(), rows),
        }
    }

    /// What a failed rendering means: the first error of the row stream, or
    /// a sink failure in an aligned format.
    pub open spec fn error_spec(&self, e: Error) -> bool {
        ||| exists|k: int|
            #![trigger self.values_spec()[k]]
            {
                &&& 0 <= k < self.values_spec().len()
                &&& self.values_spec()[k] matches Err(e2) && e2 == e
                &&& forall|j: int| 0 <= j < k ==> (#[trigger] self.values_spec()[j]) is Ok
            }
        ||| (e matches Error::IO(_) && self.config_spec().format != OutputFormat::Csv && all_ok(
            self.values_spec(),
        ))
    }

    /// Renders the rows. Rendering stops at the first error of the stream,
    /// which propagates; in the comma-joined format success is owed whenever
    /// every row result is a row.
    pub fn write(&self) -> (r: Result<String, Error>)
        ensures
            match r {
                Ok(s) => all_ok(self.values_spec()) && self.output_spec(s@),
                Err(e) => self.error_spec(e),
            },
            self.config_spec().format == OutputFormat::Csv && all_ok(self.values_spec())
                ==> r is Ok,
    {
        match self.config.format {
            OutputFormat::Tabular => self.write_tabular(),
            OutputFormat::Vertical => self.write_vertical(),
            OutputFormat::Csv => self.write_csv(),
        }
    }

    fn write_tabular(&self) -> (r: Result<String, Error>)
        requires
            self.config_spec().format == OutputFormat::Tabular,
        ensures
            match r {
                Ok(s) => all_ok(self.values_spec()) && self.output_spec(s@),
                Err(e) => self.error_spec(e),
            },
    {
        let ghost vals = self.values@;
        let ghost hv = strs_view(self.headers@);
        let ghost rows = ok_rows(vals);
        let batch = self.config.batch_size;
        let mut w: Vec<usize> = vec![self.config.minwidth; self.headers.len()];
        proof {
            assert(w@ =~= Seq::new(hv.len(), |i: int| self.config_spec().minwidth));
        }
        let mut out = format_row(0, batch, &self.headers, &mut w);
        let ghost full = tabular_text(hv, rows, batch as nat, self.config.minwidth);
        let mut k: usize = 0;
        proof {
            assert(rows.skip(0) =~= rows);
        }
        while k < self.values.len()
            invariant
                k <= vals.len(),
                vals == self.values@,
                hv == strs_view(self.headers@),
                rows == ok_rows(vals),
                batch == self.config_spec().batch_size,
                full == tabular_text(hv, rows, batch as nat, self.config_spec().minwidth),
                forall|j: int| 0 <= j < k ==> (#[trigger] vals[j]) is Ok,
                full == out@ + tab_body(rows.skip(k as int), k as nat, batch as nat, w@),
            decreases vals.len() - k,
        {
            proof {
                assert(rows.skip(k as int)[0] == rows[k as int]);
                assert(rows.skip(k as int).skip(1) =~= rows.skip(k + 1 as int));
            }
            match &self.values[k] {
                Err(e) => {
                    return Err(e.duplicate());
                },
                Ok(row) => {
                    proof {
                        assert(rows[k as int] == strs_view(row@));
                    }
                    let t = format_row(k, batch, row, &mut w);
                    out.append(t.as_str());
                },
            }
            k = k + 1;
        }
        proof {
            assert(rows.skip(vals.len() as int) =~= Seq::<Seq<Seq<char>>>::empty());
            assert(out@ =~= full);
        }
        match align_tabs(out.as_str(), self.config.minwidth) {
            Ok(s) => Ok(s),
            Err(m) => Err(Error::IO(m)),
        }
    }

    fn write_vertical(&self) -> (r: Result<String, Error>)
        requires
            self.config_spec().format == OutputFormat::Vertical,
        ensures
            match r {
                Ok(s) => all_ok(self.values_spec()) && self.output_spec(s@),
                Err(e) => self.error_spec(e),
            },
    {
        let ghost vals = self.values@;
        let ghost hv = strs_view(self.headers@);
        let ghost rows = ok_rows(vals);
        let batch = self.config.batch_size;
        let mut w: Vec<usize> = vec![self.config.minwidth; self.headers.len()];
        let ghost w0 = w@;
        proof {
            assert(w0 =~= Seq::new(hv.len(), |i: int| self.config_spec().minwidth));
        }
        let mut out = String::new();
        let mut k: usize = 0;
        proof {
            assert(rows.skip(0) =~= rows);
        }
        while k < self.values.len()
            invariant
                k <= vals.len(),
                vals == self.values@,
                hv == strs_view(self.headers@),
                rows == ok_rows(vals),
                batch == self.config_spec().batch_size,
                w0 == Seq::new(hv.len(), |i: int| self.config_spec().minwidth),
                forall|j: int| 0 <= j < k ==> (#[trigger] vals[j]) is Ok,
                vert_body(hv, rows, 0, batch as nat, w0).0 == out@ + vert_body(
                    hv,
                    rows.skip(k as int),
                    k as nat,
                    batch as nat,
                    w@,
                ).0,
                vert_body(hv, rows, 0, batch as nat, w0).1 == vert_body(
                    hv,
                    rows.skip(k as int),
                    k as nat,
                    batch as nat,
                    w@,
                ).1,
            decreases vals.len() - k,
        {
            proof {
                assert(rows.skip(k as int)[0] == rows[k as int]);
                assert(rows.skip(k as int).skip(1) =~= rows.skip(k + 1 as int));
            }
            match &self.values[k] {
                Err(e) => {
                    return Err(e.duplicate());
                },
                Ok(row) => {
                    proof {
                        assert(rows[k as int] == strs_view(row@));
                    }
                    crate::strutil::push_char(&mut out, '\n');
                    Self::write_vert_row(&mut out, &self.headers, row, k, batch, &mut w);
                },
            }
            k = k + 1;
        }
        proof {
            assert(rows.skip(vals.len() as int) =~= Seq::<Seq<Seq<char>>>::empty());
            assert(out@ =~= vertical_text(hv, rows, batch as nat, self.config_spec().minwidth));
        }
        match align_tabs(out.as_str(), self.config.minwidth) {
            Ok(s) => Ok(s),
            Err(m) => Err(Error::IO(m)),
        }
    }

    /// Appends one vertical block (without its leading separator line).
    fn write_vert_row(
        out: &mut String,
        headers: &Vec<String>,
        row: &Vec<String>,
        index: usize,
        batch: usize,
        w: &mut Vec<usize>,
    )
        ensures
            ({
                let fr = vert_fields(
                    strs_view(headers@),
                    strs_view(row@),
                    0,
                    index as nat,
                    batch as nat,
                    old(w)@,
                );
                final(out)@ == old(out)@ + fr.0 && final(w)@ == fr.1
            }),
    {
        let ghost hv = strs_view(headers@);
        let ghost rv = strs_view(row@);
        let ghost w0 = old(w)@;
        let ghost base = old(out)@;
        let mut j: usize = 0;
        proof {
            assert(base + vert_fields(hv, rv, 0, index as nat, batch as nat, w0).0 =~= out@
                + vert_fields(hv, rv, 0, index as nat, batch as nat, w@).0);
        }
        while j < row.len()
            invariant
                j <= rv.len(),
                hv == strs_view(headers@),
                rv == strs_view(row@),
                base + vert_fields(hv, rv, 0, index as nat, batch as nat, w0).0 == out@
                    + vert_fields(hv, rv, j as nat, index as nat, batch as nat, w@).0,
                vert_fields(hv, rv, 0, index as nat, batch as nat, w0).1 == vert_fields(
                    hv,
                    rv,
                    j as nat,
                    index as nat,
                    batch as nat,
                    w@,
                ).1,
            decreases rv.len() - j,
        {
            let mut name = if j < headers.len() {
                headers[j].clone()
            } else {
                String::new()
            };
            crate::strutil::push_char(&mut name, ':');
            let mut pair: Vec<String> = Vec::new();
            pair.push(name);
            pair.push(row[j].clone());
            proof {
                assert(strs_view(pair@) =~= seq![colon_name(hv, j as int), rv[j as int]]);
                if j >= hv.len() {
                    assert(Seq::<char>::empty().push(':') =~= seq![':']);
                }
            }
            let t = format_row(index, batch, &pair, w);
            out.append(t.as_str());
            j = j + 1;
        }
        proof {
            assert(vert_fields(hv, rv, rv.len(), index as nat, batch as nat, w@).0
                =~= Seq::<char>::empty());
            assert(out@ =~= base + vert_fields(hv, rv, 0, index as nat, batch as nat, w0).0);
        }
    }

    fn write_csv(&self) -> (r: Result<String, Error>)
        requires
            self.config_spec().format == OutputFormat::Csv,
        ensures
            match r {
                Ok(s) => all_ok(self.values_spec()) && self.output_spec(s@),
                Err(e) => self.error_spec(e),
            },
            all_ok(self.values_spec()) ==> r is Ok,
    {
        let ghost vals = self.values@;
        let ghost hv = strs_view(self.headers@);
        let ghost rows = ok_rows(vals);
        let mut out = Self::join_commas(&self.headers);
        let mut k: usize = 0;
        proof {
            assert(rows.skip(0) =~= rows);
        }
        while k < self.values.len()
            invariant
                k <= vals.len(),
                vals == self.values@,
                hv == strs_view(self.headers@),
                rows == ok_rows(vals),
                forall|j: int| 0 <= j < k ==> (#[trigger] vals[j]) is Ok,
                csv_text(hv, rows) == out@ + csv_rows(rows.skip(k as int)),
            decreases vals.len() - k,
        {
            proof {
                assert(rows.skip(k as int)[0] == rows[k as int]);
                assert(rows.skip(k as int).skip(1) =~= rows.skip(k + 1 as int));
            }
            match &self.values[k] {
                Err(e) => {
                    return Err(e.duplicate());
                },
                Ok(row) => {
                    proof {
                        assert(rows[k as int] == strs_view(row@));
                    }
                    let t = Self::join_commas(row);
                    out.append(t.as_str());
                },
            }
            k = k + 1;
        }
        proof {
            assert(rows.skip(vals.len() as int) =~= Seq::<Seq<Seq<char>>>::empty());
            assert(out@ =~= csv_text(hv, rows));
        }
        Ok(out)
    }

    /// One comma-joined line with a trailing newline.
    fn join_commas(cells: &Vec<String>) -> (r: String)
        ensures
            r@ == join_with(strs_view(cells@), ',').push('\n'),
    {
        let ghost cv = strs_view(cells@);
        let mut out = String::new();
        let mut j: usize = 0;
        while j < cells.len()
            invariant
                j <= cv.len(),
                cv == strs_view(cells@),
                out@ == join_with(cv.take(j as int), ','),
            decreases cv.len() - j,
        {
            if j > 0 {
                crate::strutil::push_char(&mut out, ',');
            }
            out.append(cells[j].as_str());
            proof {
                assert(cv.take(j + 1 as int).drop_last() =~= cv.take(j as int));
                assert(cv.take(j + 1 as int).last() == cv[j as int]);
                if j == 0 {
                    assert(cv.take(1).len() == 1);
                    assert(out@ =~= join_with(cv.take(1), ','));
                } else {
                    assert(out@ =~= join_with(cv.take(j + 1 as int), ','));
                }
            }
            j = j + 1;
        }
        proof {
            assert(cv.take(cv.len() as int) =~= cv);
        }
        crate::strutil::push_char(&mut out, '\n');
        out
    }
}

} // verus!
