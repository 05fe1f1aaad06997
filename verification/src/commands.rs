//! The command cores: each one turns plain inputs and a dataset into the
//! rendered output text of one command, leaving argument gathering and the
//! output sink to the caller.

use vstd::prelude::*;
use crate::error::Error;
use crate::fields::resolve_spec;
use crate::freq::{column_multiset, counts_of, freq_rows_view, frequency_rows};
use crate::output::{all_ok, first_error_is, ok_rows, rendered_spec};
use crate::reader::proj_display;
use crate::sample::{count_true, selected_rows};
use crate::output::{csv_text, tab_aligned, tabular_text, vertical_text, OutputFormat, OutputWriter};
use crate::error::dataset_error;
use crate::reader::{stream_item_ok, ParquetFile};
use crate::sample::{sample_indexes, select_rows};
use crate::strutil::{dec_str, strs_view, u64_to_string};

verus! {

/// The output of the row-count command: a one-column `COUNT` table holding
/// the decimal row count, rendered in the chosen format.
pub fn count_output(count: usize, format: OutputFormat) -> (r: Result<String, Error>)
    ensures
        match r {
            Ok(s) => ({
                let headers = seq!["COUNT"@];
                let rows = seq![seq![dec_str(count as nat)]];
                match format {
                    OutputFormat::Tabular => s@ == tab_aligned(
                        tabular_text(headers, rows, 500, 4),
                        4,
                    ),
                    OutputFormat::Vertical => s@ == tab_aligned(
                        vertical_text(headers, rows, 500, 4),
                        4,
                    ),
                    OutputFormat::Csv => s@ == csv_text(headers, rows),
                }
            }),
            Err(e) => e matches Error::IO(_) && format != OutputFormat::Csv,
        },
        format == OutputFormat::Csv ==> r is Ok,
{
    let mut headers: Vec<String> = Vec::new();
    headers.push(String::from_str("COUNT"));
    let mut row: Vec<String> = Vec::new();
    row.push(u64_to_string(count as u64));
    let mut values: Vec<Result<Vec<String>, Error>> = Vec::new();
    values.push(Ok(row));
    let ghost vv = values@;
    let writer = OutputWriter::new(headers, values).format(format);
    proof {
        assert(writer.headers_spec() =~= seq!["COUNT"@]);
        assert(ok_rows(writer.values_spec()) =~~= seq![seq![dec_str(
            count as nat,
        )]]);
        assert(all_ok(writer.values_spec()));
    }
    let r = writer.write();
    proof {
        if r is Err {
            let e = r->Err_0;
            assert(writer.error_spec(e));
            if exists|k: int|
                #![trigger writer.values_spec()[k]]
                {
                    &&& 0 <= k < writer.values_spec().len()
                    &&& writer.values_spec()[k] is Err
                } {
                let k = choose|k: int|
                    #![trigger writer.values_spec()[k]]
                    0 <= k < writer.values_spec().len() && writer.values_spec()[k] is Err;
                assert(writer.values_spec()[k] == vv[k]);
                assert(false);
            }
        }
    }
    r
}

/// Reads up to `limit` projected, filtered rows of the dataset and renders
/// them; the first in-band stream error inside the window aborts the
/// rendering and propagates. On success the text is the configured
/// rendering, under the resolved projection's display names of the first
/// file's schema, of the row results the stream yielded. Only dataset or
/// sink errors can come back.
pub fn read_output(parquet: &ParquetFile, limit: usize, format: OutputFormat) -> (r: Result<
    String,
    Error,
>)
    ensures
        r matches Err(e) ==> dataset_error(e),
        r matches Ok(s) ==> exists|schema: Seq<Seq<char>>, items: Seq<Result<Vec<String>, Error>>|
            {
                &&& all_ok(items)
                &&& rendered_spec(
                    proj_display(resolve_spec(schema, parquet.fields_spec())),
                    ok_rows(items),
                    format,
                    s@,
                )
            },
{
    let headers = match parquet.field_names() {
        Ok(h) => h,
        Err(e) => {
            return Err(e);
        },
    };
    let ghost schema = choose|sch: Seq<Seq<char>>|
        strs_view(headers@) == proj_display(
            resolve_spec(sch, parquet.fields_spec()),
        );
    let ghost hv = strs_view(headers@);
    let mut it = parquet.iter();
    let mut values: Vec<Result<Vec<String>, Error>> = Vec::new();
    let mut k: usize = 0;
    let mut done = false;
    while k < limit && !done
        invariant
            it.wf(),
            forall|i: int|
                0 <= i < values@.len() ==> stream_item_ok(#[trigger] values@[i]),
        decreases limit - k,
    {
        match it.next() {
            Some(item) => {
                values.push(item);
            },
            None => {
                done = true;
            },
        }
        k = k + 1;
    }
    let ghost vv = values@;
    let r = render(headers, values, format);
    proof {
        if r is Ok {
            assert(all_ok(vv) && rendered_spec(
                proj_display(resolve_spec(schema, parquet.fields_spec())),
                ok_rows(vv),
                format,
                r->Ok_0@,
            ));
        }
    }
    r
}

/// Renders gathered row results under a header with the default
/// configuration: on success the text is exactly the configured rendering
/// of the header and the data rows; on failure the first error of the row
/// results propagates, or the aligner failed in an aligned format. In the
/// comma-joined format success is owed whenever every result is a row.
pub fn render(
    headers: Vec<String>,
    values: Vec<Result<Vec<String>, Error>>,
    format: OutputFormat,
) -> (r: Result<String, Error>)
    requires
        forall|i: int| 0 <= i < values@.len() ==> stream_item_ok(#[trigger] values@[i]),
    ensures
        match r {
            Ok(s) => all_ok(values@) && rendered_spec(
                strs_view(headers@),
                ok_rows(values@),
                format,
                s@,
            ),
            Err(e) => dataset_error(e) && (first_error_is(values@, e) || (
            e matches Error::IO(_) && format != OutputFormat::Csv && all_ok(
                values@,
            ))),
        },
        format == OutputFormat::Csv && all_ok(values@) ==> r is Ok,
{
    let ghost vv = values@;
    let ghost hv = strs_view(headers@);
    let writer = OutputWriter::new(headers, values).format(format);
    let r = writer.write();
    proof {
        if r is Err {
            let e = r->Err_0;
            assert(writer.error_spec(e));
            if !(e matches Error::IO(_)) {
                let k = choose|k: int|
                    #![trigger writer.values_spec()[k]]
                    {
                        &&& 0 <= k < writer.values_spec().len()
                        &&& writer.values_spec()[k] matches Err(e2) && e2 == e
                        &&& forall|j: int|
                            0 <= j < k ==> (#[trigger] writer.values_spec()[j]) is Ok
                    };
                assert(stream_item_ok(vv[k]));
                assert(vv[k] matches Err(e2) && e2 == e);
                assert(first_error_is(vv, e));
            } else {
                if first_error_is(writer.values_spec(), e) {
                    let k = choose|k: int|
                        #![trigger writer.values_spec()[k]]
                        {
                            &&& 0 <= k < writer.values_spec().len()
                            &&& writer.values_spec()[k] matches Err(e2) && e2 == e
                            &&& forall|j: int|
                                0 <= j < k ==> (#[trigger] writer.values_spec()[j]) is Ok
                        };
                    assert(first_error_is(vv, e));
                }
            }
        }
    }
    r
}

/// Uniformly samples row indices across the whole dataset and renders the
/// selected row results in their original order: the sample marks indices
/// and never reorders, a sample covering the dataset keeps every result
/// and a sample of zero keeps none. Only dataset or sink errors can come
/// back.
pub fn sample_output(parquet: &ParquetFile, sample: usize, format: OutputFormat) -> (r: Result<
    String,
    Error,
>)
    ensures
        r matches Err(e) ==> dataset_error(e),
        r matches Ok(s) ==> exists|
            schema: Seq<Seq<char>>,
            items: Seq<Result<Vec<String>, Error>>,
            flags: Seq<bool>,
        |
            {
                &&& all_ok(selected_rows(items, flags))
                &&& rendered_spec(
                    proj_display(resolve_spec(schema, parquet.fields_spec())),
                    ok_rows(selected_rows(items, flags)),
                    format,
                    s@,
                )
                &&& count_true(flags) == if sample < flags.len() {
                    sample as nat
                } else {
                    flags.len()
                }
                &&& sample >= flags.len() ==> forall|i: int| 0 <= i < flags.len() ==> flags[i]
                &&& sample == 0 ==> forall|i: int| 0 <= i < flags.len() ==> !flags[i]
            },
{
    let headers = match parquet.field_names() {
        Ok(h) => h,
        Err(e) => {
            return Err(e);
        },
    };
    let ghost schema = choose|sch: Seq<Seq<char>>|
        strs_view(headers@) == proj_display(
            resolve_spec(sch, parquet.fields_spec()),
        );
    let size = parquet.num_rows();
    let flags = sample_indexes(sample, size);
    let mut it = parquet.iter();
    let mut items: Vec<Result<Vec<String>, Error>> = Vec::new();
    let mut k: usize = 0;
    let mut done = false;
    while k < size && !done
        invariant
            it.wf(),
            forall|i: int|
                0 <= i < items@.len() ==> stream_item_ok(#[trigger] items@[i]),
        decreases size - k,
    {
        match it.next() {
            Some(item) => {
                items.push(item);
            },
            None => {
                done = true;
            },
        }
        k = k + 1;
    }
    let ghost items0 = items@;
    let ghost flags0 = flags@;
    let values = select_rows(items, &flags);
    proof {
        lemma_selected_sub(items0, flags@);
    }
    let ghost vv = values@;
    let r = render(headers, values, format);
    proof {
        if r is Ok {
            assert(all_ok(selected_rows(items0, flags0)) && rendered_spec(
                proj_display(resolve_spec(schema, parquet.fields_spec())),
                ok_rows(selected_rows(items0, flags0)),
                format,
                r->Ok_0@,
            ));
        }
    }
    r
}

/// Every selected item comes from the input items.
proof fn lemma_selected_sub(items: Seq<Result<Vec<String>, Error>>, flags: Seq<bool>)
    requires
        forall|i: int| 0 <= i < items.len() ==> stream_item_ok(#[trigger] items[i]),
    ensures
        forall|i: int|
            0 <= i < selected_rows(items, flags).len() ==> stream_item_ok(
                #[trigger] selected_rows(items, flags)[i],
            ),
{
    lemma_selected_from_sub(items, flags, 0);
}

/// The generalisation of `lemma_selected_sub` to any starting position.
proof fn lemma_selected_from_sub(items: Seq<Result<Vec<String>, Error>>, flags: Seq<bool>, k: int)
    requires
        forall|i: int| 0 <= i < items.len() ==> stream_item_ok(#[trigger] items[i]),
    ensures
        forall|i: int|
            0 <= i < crate::sample::selected_from(items, flags, k).len() ==> stream_item_ok(
                #[trigger] crate::sample::selected_from(items, flags, k)[i],
            ),
    decreases items.len(),
{
    if items.len() > 0 {
        assert forall|i: int| 0 <= i < items.skip(1).len() implies stream_item_ok(
            #[trigger] items.skip(1)[i],
        ) by {
            assert(items.skip(1)[i] == items[i + 1]);
        }
        lemma_selected_from_sub(items.skip(1), flags, k + 1);
        let sel = crate::sample::selected_from(items, flags, k);
        let rest = crate::sample::selected_from(items.skip(1), flags, k + 1);
        if 0 <= k < flags.len() && flags[k] {
            assert forall|i: int| 0 <= i < sel.len() implies stream_item_ok(
                #[trigger] sel[i],
            ) by {
                if i == 0 {
                    assert(sel[0] == items[0]);
                } else {
                    assert(sel[i] == rest[i - 1]);
                }
            }
        }
    }
}

/// Counts value frequencies per selected field over up to `limit` rows and
/// renders the `(FIELD, VALUE, COUNT)` triples, least frequent first within
/// each field (ties ordered as the engine's hash map iterates). An in-band
/// stream error inside the window propagates before anything is rendered,
/// discarding the partial counts. On success the text is the configured
/// rendering of exact ascending frequency triples of the gathered rows'
/// columns. Only dataset or sink errors can come back.
pub fn frequency_output(parquet: &ParquetFile, limit: usize, format: OutputFormat) -> (r: Result<
    String,
    Error,
>)
    ensures
        r matches Err(e) ==> dataset_error(e),
        r matches Ok(s) ==> exists|
            schema: Seq<Seq<char>>,
            gathered: Seq<Vec<String>>,
            countss: Seq<Seq<(String, u64)>>,
        |
            #![trigger resolve_spec(schema, parquet.fields_spec()), column_multiset(gathered, 0), freq_rows_view(proj_display(resolve_spec(schema, parquet.fields_spec())), countss)]
            {
                let names = proj_display(resolve_spec(schema, parquet.fields_spec()));
                &&& countss.len() == names.len()
                &&& forall|f: int|
                    0 <= f < names.len() ==> counts_of(
                        #[trigger] countss[f],
                        column_multiset(gathered, f),
                    )
                &&& rendered_spec(
                    seq!["FIELD"@, "VALUE"@, "COUNT"@],
                    freq_rows_view(names, countss),
                    format,
                    s@,
                )
            },
{
    let fields = match parquet.field_names() {
        Ok(h) => h,
        Err(e) => {
            return Err(e);
        },
    };
    let ghost schema = choose|sch: Seq<Seq<char>>|
        strs_view(fields@) == proj_display(
            resolve_spec(sch, parquet.fields_spec()),
        );
    let mut it = parquet.iter();
    let mut rows: Vec<Vec<String>> = Vec::new();
    let mut k: usize = 0;
    let mut done = false;
    while k < limit && !done
        invariant
            it.wf(),
        decreases limit - k,
    {
        match it.next() {
            Some(item) => {
                match item {
                    Ok(row) => {
                        rows.push(row);
                    },
                    Err(e) => {
                        return Err(e);
                    },
                }
            },
            None => {
                done = true;
            },
        }
        k = k + 1;
    }
    let values = frequency_rows(&fields, &rows);
    let ghost countss = choose|c: Seq<Seq<(String, u64)>>|
        {
            &&& c.len() == fields@.len()
            &&& forall|f: int|
                0 <= f < fields@.len() ==> counts_of(#[trigger] c[f], column_multiset(rows@, f))
            &&& all_ok(values@)
            &&& ok_rows(values@) == freq_rows_view(strs_view(fields@), c)
        };
    proof {
        assert forall|i: int| 0 <= i < values@.len() implies stream_item_ok(
            #[trigger] values@[i],
        ) by {
            assert(values@[i] is Ok);
        }
    }
    let mut headers: Vec<String> = Vec::new();
    headers.push(String::from_str("FIELD"));
    headers.push(String::from_str("VALUE"));
    headers.push(String::from_str("COUNT"));
    proof {
        assert(strs_view(headers@) =~= seq!["FIELD"@, "VALUE"@, "COUNT"@]);
    }
    let ghost vv = values@;
    let ghost rows0 = rows@;
    let r = render(headers, values, format);
    proof {
        if r is Ok {
            let names = proj_display(resolve_spec(schema, parquet.fields_spec()));
            let trig_rows = column_multiset(rows0, 0);
            let trig_view = freq_rows_view(names, countss);
            assert(strs_view(fields@) == names);
            assert(countss.len() == names.len());
            assert forall|f: int| 0 <= f < names.len() implies counts_of(
                #[trigger] countss[f],
                column_multiset(rows0, f),
            ) by {
                assert(counts_of(countss[f], column_multiset(rows@, f)));
            }
            assert(rendered_spec(
                seq!["FIELD"@, "VALUE"@, "COUNT"@],
                freq_rows_view(names, countss),
                format,
                r->Ok_0@,
            ));
        }
    }
    r
}

} // verus!
