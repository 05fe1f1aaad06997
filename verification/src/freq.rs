//! Value frequencies per selected field: filling one frequency table per
//! column from a list of rows, and shaping the ascending counts into
//! `(field, value, count)` output rows.

use vstd::prelude::*;
use crate::strutil::{dec_str, u64_to_string};
use vstd::multiset::Multiset;

verus! {

#[verifier::external_type_specification]
#[verifier::external_body]
#[verifier::reject_recursive_types(T)]
pub struct ExFrequencies<T>(stats::Frequencies<T>);

/// What a frequency table holds: every added value, with multiplicity.
pub uninterp spec fn freq_contents(f: stats::Frequencies<String>) -> Multiset<Seq<char>>;

/// Relies on `Frequencies::new`: a table with no samples.
#[verifier::external_body]
pub fn freq_new() -> (r: stats::Frequencies<String>)
    ensures
        freq_contents(r) == Multiset::<Seq<char>>::empty(),
{
    stats::Frequencies::new()
}

/// Relies on `Frequencies::add`: records one more occurrence of the value.
#[verifier::external_body]
pub fn freq_add(f: &mut stats::Frequencies<String>, v: String)
    requires
        freq_contents(*old(f)).count(v@) < u64::MAX,
    ensures
        freq_contents(*final(f)) == freq_contents(*old(f)).insert(v@),
{
    f.add(v);
}

/// Whether `counts` lists the contents of `m` in ascending frequency:
/// one entry per distinct value with its exact positive count, counts
/// never decreasing along the list.
pub open spec fn counts_of(counts: Seq<(String, u64)>, m: Multiset<Seq<char>>) -> bool {
    &&& forall|i: int|
        0 <= i < counts.len() ==> m.count((#[trigger] counts[i]).0@) == counts[i].1
            && counts[i].1 > 0
    &&& forall|v: Seq<char>|
        m.count(v) > 0 ==> exists|i: int| 0 <= i < counts.len() && (#[trigger] counts[i]).0@ == v
    &&& forall|i: int, j: int|
        0 <= i < j < counts.len() ==> (#[trigger] counts[i]).1 <= (#[trigger] counts[j]).1
    &&& forall|i: int, j: int|
        0 <= i < j < counts.len() ==> (#[trigger] counts[i]).0@ != (#[trigger] counts[j]).0@
}

/// Relies on `Frequencies::least_frequent`: one entry per distinct value
/// with its exact positive count, in ascending count order; among equal
/// counts the order follows the underlying hash map's iteration and is not
/// specified.
#[verifier::external_body]
pub fn freq_least(f: &stats::Frequencies<String>) -> (r: Vec<(String, u64)>)
    ensures
        counts_of(r@, freq_contents(*f)),
{
    f.least_frequent().into_iter().map(|(k, c)| (k.clone(), c)).collect()
}

/// The values standing in column `i` of the rows, with multiplicity (rows
/// too short to have that column contribute nothing).
pub open spec fn column_multiset(rows: Seq<Vec<String>>, i: int) -> Multiset<Seq<char>>
    decreases rows.len(),
{
    if rows.len() == 0 {
        Multiset::empty()
    } else {
        let rest = column_multiset(rows.drop_last(), i);
        if 0 <= i < rows.last()@.len() {
            rest.insert(rows.last()@[i]@)
        } else {
            rest
        }
    }
}

/// No value occurs in a column more often than there are rows.
proof fn lemma_column_count_bound(rows: Seq<Vec<String>>, i: int, v: Seq<char>)
    ensures
        column_multiset(rows, i).count(v) <= rows.len(),
    decreases rows.len(),
{
    if rows.len() > 0 {
        lemma_column_count_bound(rows.drop_last(), i, v);
    }
}

/// Fills one frequency table per selected field: row by row, each row adds
/// its cell `i` to table `i`.
pub fn compute_tables(num_fields: usize, rows: &Vec<Vec<String>>) -> (r: Vec<
    stats::Frequencies<String>,
>)
    ensures
        r@.len() == num_fields,
        forall|i: int|
            0 <= i < num_fields ==> freq_contents(#[trigger] r@[i]) == column_multiset(rows@, i),
{
    let mut tables: Vec<stats::Frequencies<String>> = Vec::new();
    let mut i: usize = 0;
    while i < num_fields
        invariant
            i <= num_fields,
            tables@.len() == i,
            forall|j: int|
                0 <= j < i ==> freq_contents(#[trigger] tables@[j]) == Multiset::<
                    Seq<char>,
                >::empty(),
        decreases num_fields - i,
    {
        tables.push(freq_new());
        i = i + 1;
    }
    let mut k: usize = 0;
    proof {
        assert forall|j: int| 0 <= j < num_fields implies freq_contents(#[trigger] tables@[j])
            == column_multiset(rows@.take(0), j) by {
            assert(rows@.take(0) =~= Seq::<Vec<String>>::empty());
        }
    }
    while k < rows.len()
        invariant
            k <= rows@.len(),
            tables@.len() == num_fields,
            forall|j: int|
                0 <= j < num_fields ==> freq_contents(#[trigger] tables@[j]) == column_multiset(
                    rows@.take(k as int),
                    j,
                ),
        decreases rows@.len() - k,
    {
        proof {
            assert(rows@.take(k + 1 as int).drop_last() =~= rows@.take(k as int));
            assert(rows@.take(k + 1 as int).last() == rows@[k as int]);
        }
        let row = &rows[k];
        let mut j: usize = 0;
        while j < num_fields
            invariant
                j <= num_fields,
                k < rows@.len(),
                rows@.len() <= usize::MAX,
                tables@.len() == num_fields,
                row == &rows@[k as int],
                forall|jj: int|
                    0 <= jj < num_fields ==> freq_contents(#[trigger] tables@[jj])
                        == column_multiset(rows@.take(k + 1 as int), jj) || freq_contents(
                        tables@[jj],
                    ) == column_multiset(rows@.take(k as int), jj),
                forall|jj: int|
                    0 <= jj < j ==> freq_contents(#[trigger] tables@[jj]) == column_multiset(
                        rows@.take(k + 1 as int),
                        jj,
                    ),
                forall|jj: int|
                    j <= jj < num_fields ==> freq_contents(#[trigger] tables@[jj])
                        == column_multiset(rows@.take(k as int), jj),
            decreases num_fields - j,
        {
            proof {
                assert(rows@.take(k + 1 as int).drop_last() =~= rows@.take(k as int));
                assert(rows@.take(k + 1 as int).last() == rows@[k as int]);
            }
            if j < row.len() {
                proof {
                    lemma_column_count_bound(rows@.take(k as int), j as int, rows@[k as int]@[j as int]@);
                    assert(rows@.take(k as int).len() == k);
                    assert(column_multiset(rows@.take(k as int), j as int).count(
                        rows@[k as int]@[j as int]@,
                    ) <= k);
                    assert(k < u64::MAX);
                }
                let cell = row[j].clone();
                freq_add(&mut tables[j], cell);
            }
            j = j + 1;
        }
        k = k + 1;
    }
    proof {
        assert(rows@.take(rows@.len() as int) =~= rows@);
    }
    tables
}

/// The `(field, value, count)` triples for one field's ascending counts:
/// one output row per distinct value, count rendered in decimal.
pub fn field_triples(field: &String, counts: &Vec<(String, u64)>) -> (r: Vec<Vec<String>>)
    ensures
        r@.len() == counts@.len(),
        forall|i: int| 0 <= i < counts@.len() ==> (#[trigger] r@[i])@.len() == 3,
        forall|i: int| 0 <= i < counts@.len() ==> (#[trigger] r@[i])@[0]@ == field@,
        forall|i: int| 0 <= i < counts@.len() ==> (#[trigger] r@[i])@[1]@ == counts@[i].0@,
        forall|i: int|
            0 <= i < counts@.len() ==> (#[trigger] r@[i])@[2]@ == dec_str(counts@[i].1 as nat),
{
    let mut r: Vec<Vec<String>> = Vec::new();
    let mut i: usize = 0;
    while i < counts.len()
        invariant
            i <= counts@.len(),
            r@.len() == i,
            forall|ii: int| 0 <= ii < i ==> (#[trigger] r@[ii])@.len() == 3,
            forall|ii: int| 0 <= ii < i ==> (#[trigger] r@[ii])@[0]@ == field@,
            forall|ii: int| 0 <= ii < i ==> (#[trigger] r@[ii])@[1]@ == counts@[ii].0@,
            forall|ii: int|
                0 <= ii < i ==> (#[trigger] r@[ii])@[2]@ == dec_str(counts@[ii].1 as nat),
        decreases counts@.len() - i,
    {
        let mut row: Vec<String> = Vec::new();
        row.push(field.clone());
        row.push(counts[i].0.clone());
        row.push(u64_to_string(counts[i].1));
        let ghost rowv = row@;
        r.push(row);
        proof {
            assert(r@[i as int]@ == rowv);
            assert(rowv.len() == 3);
        }
        i = i + 1;
    }
    r
}

/// The `(field, value, count)` rows of one field's counts.
pub open spec fn triples_view(field: Seq<char>, counts: Seq<(String, u64)>) -> Seq<Seq<Seq<char>>> {
    Seq::new(counts.len(), |i: int| seq![field, counts[i].0@, dec_str(counts[i].1 as nat)])
}

/// The frequency output rows of all fields, in field order.
pub open spec fn freq_rows_view(fields: Seq<Seq<char>>, countss: Seq<Seq<(String, u64)>>) -> Seq<
    Seq<Seq<char>>,
>
    recommends
        fields.len() == countss.len(),
    decreases countss.len(),
{
    if countss.len() == 0 {
        Seq::empty()
    } else {
        freq_rows_view(fields.drop_last(), countss.drop_last()) + triples_view(
            fields.last(),
            countss.last(),
        )
    }
}

/// The frequency rows of the selected fields over the gathered rows: for
/// each field, in field order, one `(field, value, count)` row per
/// distinct value of that column, counts exact and ascending (ties
/// ordered as the engine's hash map happens to iterate).
pub fn frequency_rows(fields: &Vec<String>, rows: &Vec<Vec<String>>) -> (values: Vec<
    Result<Vec<String>, crate::error::Error>,
>)
    ensures
        exists|countss: Seq<Seq<(String, u64)>>|
            {
                &&& countss.len() == fields@.len()
                &&& forall|f: int|
                    0 <= f < fields@.len() ==> counts_of(
                        #[trigger] countss[f],
                        column_multiset(rows@, f),
                    )
                &&& crate::output::all_ok(values@)
                &&& crate::output::ok_rows(values@) == freq_rows_view(
                    crate::strutil::strs_view(fields@),
                    countss,
                )
            },
{
    let ghost fv = crate::strutil::strs_view(fields@);
    let tables = compute_tables(fields.len(), rows);
    let mut values: Vec<Result<Vec<String>, crate::error::Error>> = Vec::new();
    let ghost mut countss: Seq<Seq<(String, u64)>> = Seq::empty();
    let mut f: usize = 0;
    proof {
        assert(crate::output::ok_rows(values@) =~= freq_rows_view(fv.take(0), countss));
    }
    while f < fields.len()
        invariant
            f <= fields@.len(),
            fv == crate::strutil::strs_view(fields@),
            tables@.len() == fields@.len(),
            forall|i: int|
                0 <= i < fields@.len() ==> freq_contents(#[trigger] tables@[i])
                    == column_multiset(rows@, i),
            countss.len() == f,
            forall|i: int|
                0 <= i < f ==> counts_of(#[trigger] countss[i], column_multiset(rows@, i)),
            crate::output::all_ok(values@),
            crate::output::ok_rows(values@) == freq_rows_view(fv.take(f as int), countss),
        decreases fields@.len() - f,
    {
        let counts = freq_least(&tables[f]);
        let mut triples = field_triples(&fields[f], &counts);
        let ghost countss0 = countss;
        let ghost base = crate::output::ok_rows(values@);
        let ghost tv = triples_view(fv[f as int], counts@);
        proof {
            countss = countss.push(counts@);
            assert(fv.take(f + 1 as int).drop_last() =~= fv.take(f as int));
            assert(fv.take(f + 1 as int).last() == fv[f as int]);
            assert(countss.drop_last() =~= countss0);
            assert(freq_rows_view(fv.take(f + 1 as int), countss) == base + tv);
            assert(triples@.len() == tv.len());
            assert forall|i: int| 0 <= i < triples@.len() implies crate::strutil::strs_view(
                (#[trigger] triples@[i])@,
            ) == tv[i] by {
                assert(triples@[i]@.len() == 3);
                assert(triples@[i]@[0]@ == fv[f as int]);
                assert(triples@[i]@[1]@ == counts@[i].0@);
                assert(triples@[i]@[2]@ == dec_str(counts@[i].1 as nat));
                assert(crate::strutil::strs_view(triples@[i]@) =~= tv[i]);
            }
        }
        let ghost triples0 = triples@;
        proof {
            assert(tv.take(0) =~= Seq::<Seq<Seq<char>>>::empty());
            assert(crate::output::ok_rows(values@) + tv.take(0) =~= crate::output::ok_rows(
                values@,
            ));
        }
        while triples.len() > 0
            invariant
                triples@.len() <= triples0.len(),
                tv.len() == triples0.len(),
                triples@ == triples0.skip(triples0.len() - triples@.len()),
                forall|i: int|
                    0 <= i < triples0.len() ==> crate::strutil::strs_view(
                        (#[trigger] triples0[i])@,
                    ) == tv[i],
                crate::output::all_ok(values@),
                crate::output::ok_rows(values@) == base + tv.take(
                    triples0.len() - triples@.len(),
                ),
            decreases triples@.len(),
        {
            let ghost k = triples0.len() - triples@.len();
            let ghost pre = triples@;
            let row = triples.remove(0);
            proof {
                assert(triples@ =~= triples0.skip(k + 1));
                assert(row == pre[0]);
                assert(pre[0] == triples0[k]);
            }
            let ghost v0 = values@;
            let ghost rowv = row@;
            values.push(Ok(row));
            proof {
                assert forall|i: int|
                    0 <= i < values@.len() implies (#[trigger] values@[i]) is Ok by {
                    if i < v0.len() {
                        assert(values@[i] == v0[i]);
                    }
                }
                assert(values@.len() == v0.len() + 1);
                assert(values@[v0.len() as int] is Ok);
                assert(values@[v0.len() as int]->Ok_0@ == rowv);
                assert(rowv == triples0[k]@);
                assert(crate::output::ok_rows(values@)[v0.len() as int] == crate::strutil::strs_view(
                    triples0[k]@,
                ));
                assert(tv.take(k + 1).drop_last() =~= tv.take(k));
                assert(tv.take(k + 1).last() == tv[k]);
                assert forall|j: int| 0 <= j < v0.len() implies crate::output::ok_rows(values@)[j]
                    == crate::output::ok_rows(v0)[j] by {
                    assert(values@[j] == v0[j]);
                }
                assert(crate::output::ok_rows(v0).len() == v0.len());
                assert(tv.take(k).len() == k);
                assert(v0.len() == base.len() + k);
                assert(tv.take(k + 1).len() == k + 1);
                assert(crate::output::ok_rows(values@).len() == v0.len() + 1);
                assert forall|j: int|
                    0 <= j < v0.len() + 1 implies crate::output::ok_rows(values@)[j] == (base
                    + tv.take(k + 1))[j] by {
                    if j < base.len() {
                        assert(crate::output::ok_rows(v0)[j] == (base + tv.take(k))[j]);
                        assert((base + tv.take(k))[j] == base[j]);
                        assert((base + tv.take(k + 1))[j] == base[j]);
                    } else if j < v0.len() {
                        assert(crate::output::ok_rows(v0)[j] == (base + tv.take(k))[j]);
                        assert((base + tv.take(k))[j] == tv.take(k)[j - base.len()]);
                        assert(tv.take(k)[j - base.len()] == tv[j - base.len()]);
                        assert((base + tv.take(k + 1))[j] == tv.take(k + 1)[j - base.len()]);
                        assert(tv.take(k + 1)[j - base.len()] == tv[j - base.len()]);
                    } else {
                        assert(crate::output::ok_rows(values@)[j] == crate::strutil::strs_view(
                            triples0[k]@,
                        ));
                        assert(crate::strutil::strs_view(triples0[k]@) == tv[k]);
                        assert((base + tv.take(k + 1))[j] == tv.take(k + 1)[k]);
                        assert(tv.take(k + 1)[k] == tv[k]);
                    }
                }
                assert(crate::output::ok_rows(values@) =~= base + tv.take(k + 1));
            }
        }
        proof {
            assert(tv.take(triples0.len() as int) =~= tv);
            assert(crate::output::ok_rows(values@) =~= base + tv);
        }
        f = f + 1;
    }
    proof {
        assert(fv.take(fields@.len() as int) =~= fv);
    }
    values
}

} // verus!
