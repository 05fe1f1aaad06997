//! Validating and splitting command-line values: numbers, paths, filter
//! expressions, and comma-separated column lists.

use vstd::prelude::*;
use crate::filters::{find_char, lemma_find_char_prefix, lemma_find_char_props};
use crate::strutil::{digits_value, is_dec_digit, num_body, parse_usize, strs_view, NumError};

verus! {

/// Relies on `std::path::Path::exists`: whether the value names an existing
/// filesystem entry.
#[verifier::external_body]
fn path_exists(value: &str) -> bool {
    std::path::Path::new(value).exists()
}

/// Checks that a value parses as a non-negative number: accepted exactly
/// when the digits after an optional leading `'+'` are non-empty, all
/// decimal, and denote a value that fits the machine word; rejected with
/// the standard parse failure wording for the failing case.
pub fn validate_number(value: &str) -> (r: Result<(), String>)
    ensures
        r is Ok <==> {
            &&& num_body(value@).len() > 0
            &&& forall|i: int|
                0 <= i < num_body(value@).len() ==> is_dec_digit(#[trigger] num_body(value@)[i])
            &&& digits_value(num_body(value@)) <= usize::MAX
        },
        match r {
            Ok(u) => true,
            Err(m) => {
                if value@.len() == 0 {
                    m@ == "cannot parse integer from empty string"@
                } else if num_body(value@).len() == 0 || exists|i: int|
                    0 <= i < num_body(value@).len() && !is_dec_digit(
                        #[trigger] num_body(value@)[i],
                    ) {
                    m@ == "invalid digit found in string"@
                } else {
                    m@ == "number too large to fit in target type"@
                }
            },
        },
{
    match parse_usize(value) {
        Ok(_) => Ok(()),
        Err(NumError::Empty) => Err(String::from_str("cannot parse integer from empty string")),
        Err(NumError::Digit) => Err(String::from_str("invalid digit found in string")),
        Err(NumError::Range) => Err(String::from_str("number too large to fit in target type")),
    }
}

/// Checks that a value names an existing path; the failure message embeds
/// the value.
pub fn validate_path(value: &str) -> (r: Result<(), String>)
    ensures
        r matches Err(m) ==> m@ == "Path '"@ + value@ + "' does not exist"@,
{
    if path_exists(value) {
        Ok(())
    } else {
        let mut m = String::from_str("Path '");
        m.append(value);
        m.append("' does not exist");
        Err(m)
    }
}

/// Checks that a value is a `<column>:<regex>` filter: accepted exactly
/// when it splits at its first `':'` into a non-empty column and a
/// non-empty pattern the regular expression engine accepts; the failure
/// message embeds the value.
pub fn validate_filter(value: &str) -> (r: Result<(), String>)
    ensures
        r is Ok <==> crate::filters::valid_filter_value(value@),
        r matches Err(m) ==> m@ == "Invalid filter expression. Expected '<column>:<regex>' got '"@
            + value@ + "'"@,
{
    let ok = match crate::filters::parse_filter_expr(value) {
        Some(p) => crate::filters::CompiledFilter::compile(&p.1).is_ok(),
        None => false,
    };
    if ok {
        Ok(())
    } else {
        let mut m = String::from_str("Invalid filter expression. Expected '<column>:<regex>' got '");
        m.append(value);
        m.append("'");
        Err(m)
    }
}

/// What splitting a string at every occurrence of `sep` yields: at least one
/// piece, none containing `sep`, with the separators dropped.
pub open spec fn split_on(s: Seq<char>, sep: char) -> Seq<Seq<char>>
    decreases s.len(),
    via split_on_dec
{
    let i = find_char(s, sep);
    if i < 0 {
        seq![s]
    } else {
        seq![s.take(i)] + split_on(s.skip(i + 1), sep)
    }
}

#[via_fn]
proof fn split_on_dec(s: Seq<char>, sep: char) {
    lemma_find_char_props(s, sep);
}

/// Splits a string at every occurrence of `sep`.
pub fn split_str(s: &str, sep: char) -> (r: Vec<String>)
    ensures
        strs_view(r@) == split_on(s@, sep),
{
    let n = s.unicode_len();
    let mut r: Vec<String> = Vec::new();
    let mut start: usize = 0;
    let mut i: usize = 0;
    proof {
        assert(s@.skip(0) =~= s@);
        assert(strs_view(r@) =~= Seq::<Seq<char>>::empty());
    }
    while i < n
        invariant
            start <= i <= n,
            n == s@.len(),
            forall|j: int| start <= j < i ==> s@[j] != sep,
            split_on(s@, sep) == strs_view(r@) + split_on(s@.skip(start as int), sep),
        decreases n - i,
    {
        if s.get_char(i) == sep {
            let ghost rest = s@.skip(start as int);
            proof {
                assert forall|j: int| 0 <= j < i - start implies rest[j] != sep by {
                    assert(rest[j] == s@[j + start]);
                }
                assert(rest[i - start as int] == s@[i as int]);
                lemma_find_char_prefix(rest, sep, i - start as int);
                assert(rest.take(i - start as int) =~= s@.subrange(start as int, i as int));
                assert(rest.skip(i - start + 1) =~= s@.skip(i + 1));
            }
            let tok = s.substring_char(start, i).to_owned();
            r.push(tok);
            proof {
                assert(strs_view(r@) =~= strs_view(r@).drop_last().push(
                    s@.subrange(start as int, i as int),
                ));
                assert(strs_view(r@) + split_on(s@.skip(i + 1), sep) =~= strs_view(r@).drop_last()
                    + (seq![s@.subrange(start as int, i as int)] + split_on(s@.skip(i + 1), sep)));
            }
            start = i + 1;
        }
        i = i + 1;
    }
    let ghost rest = s@.skip(start as int);
    proof {
        assert forall|j: int| 0 <= j < rest.len() implies rest[j] != sep by {
            assert(rest[j] == s@[j + start]);
        }
        lemma_find_char_props(rest, sep);
    }
    let tok = s.substring_char(start, n).to_owned();
    r.push(tok);
    proof {
        assert(tok@ =~= rest);
        assert(strs_view(r@) =~= strs_view(r@).drop_last().push(rest));
        assert(strs_view(r@) =~= strs_view(r@).drop_last() + seq![rest]);
    }
    r
}

/// The concatenation of splitting every value at commas.
pub open spec fn split_all(vs: Seq<Seq<char>>) -> Seq<Seq<char>>
    decreases vs.len(),
{
    if vs.len() == 0 {
        Seq::empty()
    } else {
        split_on(vs[0], ',') + split_all(vs.skip(1))
    }
}

/// Splits every value at commas and concatenates the pieces in order.
pub fn split_commas(values: &Vec<String>) -> (r: Vec<String>)
    ensures
        strs_view(r@) == split_all(strs_view(values@)),
{
    let ghost vv = strs_view(values@);
    let mut r: Vec<String> = Vec::new();
    let mut k: usize = 0;
    proof {
        assert(vv.skip(0) =~= vv);
        assert(strs_view(r@) =~= Seq::<Seq<char>>::empty());
    }
    while k < values.len()
        invariant
            k <= vv.len(),
            vv == strs_view(values@),
            split_all(vv) == strs_view(r@) + split_all(vv.skip(k as int)),
        decreases vv.len() - k,
    {
        proof {
            assert(vv.skip(k as int)[0] == vv[k as int]);
            assert(vv.skip(k as int).skip(1) =~= vv.skip(k + 1 as int));
            assert(vv[k as int] == values@[k as int]@);
        }
        let mut pieces = split_str(values[k].as_str(), ',');
        let ghost r0 = strs_view(r@);
        let ghost p0 = strs_view(pieces@);
        r.append(&mut pieces);
        proof {
            assert(strs_view(r@) =~= r0 + p0);
            assert(r0 + p0 + split_all(vv.skip(k + 1 as int)) =~= r0 + (p0 + split_all(
                vv.skip(k + 1 as int),
            )));
        }
        k = k + 1;
    }
    proof {
        assert(vv.skip(vv.len() as int) =~= Seq::<Seq<char>>::empty());
        assert(strs_view(r@) + Seq::<Seq<char>>::empty() =~= strs_view(r@));
    }
    r
}

/// Turns an optional list of column arguments into the requested column
/// names: each value split at commas, an absent or empty request collapsed
/// to none.
pub fn columns_arg(values: &Option<Vec<String>>) -> (r: Option<Vec<String>>)
    ensures
        match values {
            Option::None => r is None,
            Option::Some(vs) => if split_all(strs_view(vs@)).len() == 0 {
                r is None
            } else {
                r matches Some(c) && strs_view(c@) == split_all(strs_view(vs@))
            },
        },
{
    match values {
        Option::None => Option::None,
        Option::Some(vs) => {
            let split = split_commas(vs);
            if split.len() == 0 {
                Option::None
            } else {
                Option::Some(split)
            }
        },
    }
}

} // verus!
