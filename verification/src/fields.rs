//! Resolving a requested column subset against a file's schema: the ordered
//! projection of `(source index, display name)` pairs.
//!
//! Matching is case-insensitive (by Unicode lowercase). An absent or
//! empty request
//! yields the identity projection; otherwise entries follow the order of the
//! request, requested names missing from the schema are silently dropped,
//! and the schema's own spelling is used as the display name.

use vstd::prelude::*;
use crate::strutil::{lower_of, strs_view, to_lowercase};

verus! {

/// The index of the last schema field whose name equals `name`
/// case-insensitively, or `-1` when no field matches.
pub open spec fn find_field(schema: Seq<Seq<char>>, name: Seq<char>) -> int
    decreases schema.len(),
{
    if schema.len() == 0 {
        -1
    } else if lower_of(schema.last()) == lower_of(name) {
        schema.len() - 1
    } else {
        find_field(schema.drop_last(), name)
    }
}

/// `find_field` stays in range, finds only case-insensitive matches, and
/// reports `-1` exactly when no field matches.
pub proof fn lemma_find_field_props(schema: Seq<Seq<char>>, name: Seq<char>)
    ensures
        -1 <= find_field(schema, name) < schema.len(),
        find_field(schema, name) >= 0 ==> lower_of(schema[find_field(schema, name)]) == lower_of(name),
        find_field(schema, name) == -1 ==> forall|i: int|
            0 <= i < schema.len() ==> lower_of(#[trigger] schema[i]) != lower_of(name),
    decreases schema.len(),
{
    if schema.len() > 0 {
        lemma_find_field_props(schema.drop_last(), name);
        if find_field(schema, name) == -1 {
            assert forall|i: int| 0 <= i < schema.len() implies lower_of(#[trigger] schema[i])
                != lower_of(name) by {
                if i < schema.len() - 1 {
                    assert(schema.drop_last()[i] == schema[i]);
                }
            }
        }
    }
}

/// The identity projection: every schema field, in schema order.
pub open spec fn identity_proj(schema: Seq<Seq<char>>) -> Seq<(nat, Seq<char>)> {
    Seq::new(schema.len(), |i: int| (i as nat, schema[i]))
}

/// The projection for a non-empty request: for each requested name in
/// request order, the last case-insensitive schema match, absent names
/// dropped.
pub open spec fn resolve_requested(schema: Seq<Seq<char>>, req: Seq<Seq<char>>) -> Seq<
    (nat, Seq<char>),
>
    decreases req.len(),
{
    if req.len() == 0 {
        Seq::empty()
    } else {
        let rest = resolve_requested(schema, req.drop_last());
        let i = find_field(schema, req.last());
        if i >= 0 {
            rest.push((i as nat, schema[i]))
        } else {
            rest
        }
    }
}

/// The resolved projection for an optional request.
pub open spec fn resolve_spec(schema: Seq<Seq<char>>, req: Option<Seq<Seq<char>>>) -> Seq<
    (nat, Seq<char>),
> {
    match req {
        Option::None => identity_proj(schema),
        Option::Some(names) => if names.len() == 0 {
            identity_proj(schema)
        } else {
            resolve_requested(schema, names)
        },
    }
}

/// The mathematical value of a projection: indices as naturals, names as
/// character sequences.
pub open spec fn proj_view(p: Seq<(usize, String)>) -> Seq<(nat, Seq<char>)> {
    p.map_values(|e: (usize, String)| (e.0 as nat, e.1@))
}

/// The view of an optional request.
pub open spec fn req_view(req: Option<Vec<String>>) -> Option<Seq<Seq<char>>> {
    match req {
        Option::None => Option::None,
        Option::Some(names) => Option::Some(strs_view(names@)),
    }
}

/// Scans the schema backwards for the last case-insensitive match of `name`.
/// `lows` must hold the lower-cased schema names.
pub fn find_last(schema: &Vec<String>, lows: &Vec<String>, name: &String) -> (r: Option<usize>)
    requires
        lows@.len() == schema@.len(),
        forall|i: int| 0 <= i < schema@.len() ==> lows@[i]@ == lower_of(#[trigger] schema@[i]@),
    ensures
        match r {
            Option::Some(j) => j < schema@.len() && j == find_field(strs_view(schema@), name@),
            Option::None => find_field(strs_view(schema@), name@) == -1,
        },
{
    let ghost sv = strs_view(schema@);
    let lname = to_lowercase(name.as_str());
    let mut j: usize = schema.len();
    proof {
        assert(sv.take(j as int) =~= sv);
    }
    while j > 0
        invariant
            j <= schema@.len(),
            lows@.len() == schema@.len(),
            forall|i: int| 0 <= i < schema@.len() ==> lows@[i]@ == lower_of(#[trigger] schema@[i]@),
            sv == strs_view(schema@),
            lname@ == lower_of(name@),
            find_field(sv, name@) == find_field(sv.take(j as int), name@),
        decreases j,
    {
        let jm = j - 1;
        if lows[jm].eq(&lname) {
            proof {
                assert(sv.take(jm + 1 as int).last() == sv[jm as int]);
                assert(sv[jm as int] == schema@[jm as int]@);
            }
            return Some(jm);
        }
        proof {
            assert(sv.take(jm + 1 as int).last() == sv[jm as int]);
            assert(sv.take(jm + 1 as int).drop_last() =~= sv.take(jm as int));
        }
        j = jm;
    }
    proof {
        assert(sv.take(0) =~= Seq::<Seq<char>>::empty());
    }
    None
}

/// Resolves the projection of an optional, ordered request against a
/// schema's ordered field names.
pub fn resolve_fields(schema: &Vec<String>, requested: &Option<Vec<String>>) -> (r: Vec<
    (usize, String),
>)
    ensures
        proj_view(r@) == resolve_spec(strs_view(schema@), req_view(*requested)),
{
    let ghost sv = strs_view(schema@);
    let use_identity = match requested {
        Option::None => true,
        Option::Some(names) => names.len() == 0,
    };
    if use_identity {
        let mut r: Vec<(usize, String)> = Vec::new();
        let mut i: usize = 0;
        while i < schema.len()
            invariant
                i <= schema@.len(),
                sv == strs_view(schema@),
                proj_view(r@) == identity_proj(sv).take(i as int),
            decreases schema@.len() - i,
        {
            let entry = (i, schema[i].clone());
            let ghost r0 = r@;
            r.push(entry);
            proof {
                assert(r@ == r0.push((i, schema@[i as int])));
                assert(identity_proj(sv).len() == schema@.len());
                assert(proj_view(r0).len() == identity_proj(sv).take(i as int).len());
                assert(r0.len() == i);
                assert(proj_view(r@) =~~= identity_proj(sv).take(i + 1 as int));
            }
            i = i + 1;
        }
        proof {
            assert(identity_proj(sv).take(schema@.len() as int) =~= identity_proj(sv));
        }
        r
    } else {
        let names = match requested {
            Option::Some(names) => names,
            Option::None => unreached(),
        };
        let ghost rv = strs_view(names@);
        let mut lows: Vec<String> = Vec::new();
        let mut i: usize = 0;
        while i < schema.len()
            invariant
                i <= schema@.len(),
                lows@.len() == i,
                forall|k: int| 0 <= k < i ==> lows@[k]@ == lower_of(#[trigger] schema@[k]@),
            decreases schema@.len() - i,
        {
            lows.push(to_lowercase(schema[i].as_str()));
            i = i + 1;
        }
        let mut r: Vec<(usize, String)> = Vec::new();
        let mut k: usize = 0;
        proof {
            assert(rv.take(0) =~= Seq::<Seq<char>>::empty());
        }
        while k < names.len()
            invariant
                k <= names@.len(),
                sv == strs_view(schema@),
                rv == strs_view(names@),
                lows@.len() == schema@.len(),
                forall|i: int| 0 <= i < schema@.len() ==> lows@[i]@ == lower_of(
                    #[trigger] schema@[i]@,
                ),
                proj_view(r@) == resolve_requested(sv, rv.take(k as int)),
            decreases names@.len() - k,
        {
            proof {
                assert(rv.take(k + 1 as int).drop_last() =~= rv.take(k as int));
                assert(rv.take(k + 1 as int).last() == rv[k as int]);
                assert(rv[k as int] == names@[k as int]@);
            }
            match find_last(schema, &lows, &names[k]) {
                Option::Some(j) => {
                    let entry = (j, schema[j].clone());
                    r.push(entry);
                    proof {
                        assert(proj_view(r@) =~= resolve_requested(sv, rv.take(k + 1 as int)));
                    }
                },
                Option::None => {
                    proof {
                        assert(proj_view(r@) =~= resolve_requested(sv, rv.take(k + 1 as int)));
                    }
                },
            }
            k = k + 1;
        }
        proof {
            assert(rv.take(names@.len() as int) =~= rv);
            assert(rv.len() > 0);
        }
        r
    }
}

/// The requested names that the schema knows, in request order.
pub open spec fn known_names(schema: Seq<Seq<char>>, req: Seq<Seq<char>>) -> Seq<Seq<char>> {
    req.filter(|n: Seq<char>| find_field(schema, n) >= 0)
}

/// For every schema and non-empty request, the projection has exactly one
/// entry per requested name that occurs in the schema (case-insensitively),
/// in request order; absent names are dropped, and each entry carries the
/// matched schema index and that field's original spelling.
pub proof fn lemma_resolve_requested_is_filter(schema: Seq<Seq<char>>, req: Seq<Seq<char>>)
    ensures
        resolve_requested(schema, req).len() == known_names(schema, req).len(),
        forall|k: int|
            0 <= k < resolve_requested(schema, req).len() ==> #[trigger] resolve_requested(
                schema,
                req,
            )[k] == ((
                find_field(schema, known_names(schema, req)[k]) as nat,
                schema[find_field(schema, known_names(schema, req)[k])],
            )),
    decreases req.len(),
{
    reveal(Seq::filter);
    if req.len() > 0 {
        lemma_resolve_requested_is_filter(schema, req.drop_last());
        lemma_find_field_props(schema, req.last());
        if find_field(schema, req.last()) >= 0 {
            assert(known_names(schema, req) == known_names(schema, req.drop_last()).push(
                req.last(),
            ));
        } else {
            assert(known_names(schema, req) == known_names(schema, req.drop_last()));
        }
    }
}

/// Every projection entry for a requested subset points into the schema,
/// shows the schema's own spelling, and answers to some requested name
/// case-insensitively.
pub proof fn lemma_resolve_requested_entries(schema: Seq<Seq<char>>, req: Seq<Seq<char>>)
    ensures
        forall|k: int|
            0 <= k < resolve_requested(schema, req).len() ==> {
                let e = #[trigger] resolve_requested(schema, req)[k];
                &&& 0 <= e.0 < schema.len()
                &&& e.1 == schema[e.0 as int]
                &&& exists|j: int| 0 <= j < req.len() && lower_of(#[trigger] req[j]) == lower_of(e.1)
            },
{
    lemma_resolve_requested_is_filter(schema, req);
    let known = known_names(schema, req);
    assert forall|k: int|
        #![trigger resolve_requested(schema, req)[k]]
        0 <= k < resolve_requested(schema, req).len() implies {
        let e = resolve_requested(schema, req)[k];
        &&& 0 <= e.0 < schema.len()
        &&& e.1 == schema[e.0 as int]
        &&& exists|j: int| 0 <= j < req.len() && lower_of(#[trigger] req[j]) == lower_of(e.1)
    } by {
        let e = resolve_requested(schema, req)[k];
        req.lemma_filter_pred(|n: Seq<char>| find_field(schema, n) >= 0, k);
        lemma_filter_elements_from(req, |n: Seq<char>| find_field(schema, n) >= 0, k);
        let j = choose|j: int| 0 <= j < req.len() && req[j] == known[k];
        lemma_find_field_props(schema, known[k]);
        assert(lower_of(req[j]) == lower_of(e.1));
    }
}

/// Every element of a filtered sequence comes from the original sequence.
proof fn lemma_filter_elements_from<A>(s: Seq<A>, pred: spec_fn(A) -> bool, k: int)
    requires
        0 <= k < s.filter(pred).len(),
    ensures
        exists|j: int| 0 <= j < s.len() && s[j] == s.filter(pred)[k],
    decreases s.len(),
{
    reveal(Seq::filter);
    if s.len() > 0 {
        if k < s.drop_last().filter(pred).len() {
            lemma_filter_elements_from(s.drop_last(), pred, k);
            let j = choose|j: int|
                0 <= j < s.drop_last().len() && s.drop_last()[j] == s.drop_last().filter(pred)[k];
            assert(s[j] == s.filter(pred)[k]);
        } else {
            assert(s[s.len() - 1] == s.filter(pred)[k]);
        }
    }
}

} // verus!
