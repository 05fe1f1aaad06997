//! Per-field regular-expression filters: parsing `<column>:<pattern>`
//! expressions, compiling them, resolving them against a projection, and
//! evaluating the conjunction over a rendered row.

use vstd::prelude::*;
use crate::error::Error;
use crate::strutil::{lower_of, strs_view, to_lowercase};
use crate::fields::find_field;

verus! {

#[verifier::external_type_specification]
#[verifier::external_body]
pub struct ExRegex(regex::Regex);

/// Whether `pattern`, compiled as a regular expression, finds a match
/// anywhere inside `text` (search semantics, not a full match).
pub uninterp spec fn regex_match(pattern: Seq<char>, text: Seq<char>) -> bool;

/// Whether the regular expression engine accepts `pattern` — a function of
/// the pattern alone.
pub uninterp spec fn regex_valid(pattern: Seq<char>) -> bool;

/// A filter pattern together with its compiled regular expression. The
/// compiled form always comes from the stored pattern, because
/// `CompiledFilter::compile` is the only constructor.
pub struct CompiledFilter {
    pattern: String,
    re: regex::Regex,
}

impl CompiledFilter {
    /// The pattern this filter was compiled from.
    pub closed spec fn pattern_spec(&self) -> Seq<char> {
        self.pattern@
    }

    /// Relies on `regex::Regex::new`: whether a pattern compiles depends on
    /// the pattern alone; on success the result is the compiled form of
    /// exactly the given pattern, on failure the crate's error message is
    /// returned.
    #[verifier::external_body]
    pub fn compile(pattern: &String) -> (r: Result<CompiledFilter, String>)
        ensures
            r matches Ok(f) ==> f.pattern_spec() == pattern@,
            r is Ok <==> regex_valid(pattern@),
    {
        match regex::Regex::new(pattern.as_str()) {
            Ok(re) => Ok(CompiledFilter { pattern: pattern.clone(), re }),
            Err(e) => Err(format!("{}", e)),
        }
    }

    /// Relies on `regex::Regex::is_match`: searches `text` for the compiled
    /// pattern; the result depends on the pattern and the text alone.
    #[verifier::external_body]
    pub fn is_match(&self, text: &String) -> (r: bool)
        ensures
            r == regex_match(self.pattern_spec(), text@),
    {
        self.re.is_match(text.as_str())
    }

    /// The stored pattern.
    pub fn pattern(&self) -> (r: &String)
        ensures
            r@ == self.pattern_spec(),
    {
        &self.pattern
    }
}

/// The index of the first occurrence of `c` in `s`, or `-1`.
pub open spec fn find_char(s: Seq<char>, c: char) -> int
    decreases s.len(),
{
    if s.len() == 0 {
        -1
    } else if s[0] == c {
        0
    } else {
        let r = find_char(s.skip(1), c);
        if r < 0 {
            -1
        } else {
            r + 1
        }
    }
}

/// `find_char` stays in range, lands on an occurrence, and reports `-1`
/// exactly when there is none.
pub proof fn lemma_find_char_props(s: Seq<char>, c: char)
    ensures
        -1 <= find_char(s, c) < s.len(),
        find_char(s, c) >= 0 ==> s[find_char(s, c)] == c,
        find_char(s, c) == -1 ==> forall|j: int| 0 <= j < s.len() ==> s[j] != c,
    decreases s.len(),
{
    if s.len() > 0 && s[0] != c {
        lemma_find_char_props(s.skip(1), c);
        if find_char(s, c) == -1 {
            assert forall|j: int| 0 <= j < s.len() implies s[j] != c by {
                if j > 0 {
                    assert(s.skip(1)[j - 1] == s[j]);
                }
            }
        } else {
            assert(s.skip(1)[find_char(s.skip(1), c)] == s[find_char(s, c)]);
        }
    }
}

/// If no occurrence of `c` lies before `i`, then `find_char` reports `i`
/// when `s[i] == c`, and `-1` when the whole string was scanned.
pub proof fn lemma_find_char_prefix(s: Seq<char>, c: char, i: int)
    requires
        0 <= i <= s.len(),
        forall|j: int| 0 <= j < i ==> s[j] != c,
    ensures
        i < s.len() && s[i] == c ==> find_char(s, c) == i,
        i == s.len() ==> find_char(s, c) == -1,
    decreases i,
{
    if i == 0 {
    } else {
        assert(s[0] != c);
        assert forall|j: int| 0 <= j < i - 1 implies s.skip(1)[j] != c by {
            assert(s.skip(1)[j] == s[j + 1]);
        }
        lemma_find_char_prefix(s.skip(1), c, i - 1);
        if i < s.len() {
            assert(s.skip(1)[i - 1] == s[i]);
        }
    }
}

/// Splits a filter expression `<column>:<pattern>` at its first `':'`;
/// `None` unless both halves are non-empty.
pub open spec fn split_filter(s: Seq<char>) -> Option<(Seq<char>, Seq<char>)> {
    let i = find_char(s, ':');
    if 1 <= i < s.len() - 1 {
        Some((s.take(i), s.skip(i + 1)))
    } else {
        None
    }
}

/// Whether a filter expression is well formed and carries a pattern the
/// regular expression engine accepts.
pub open spec fn valid_filter_value(s: Seq<char>) -> bool {
    match split_filter(s) {
        Some(kv) => regex_valid(kv.1),
        None => false,
    }
}

/// Splits one filter expression into its column name and pattern.
pub fn parse_filter_expr(s: &str) -> (r: Option<(String, String)>)
    ensures
        match r {
            Some(p) => split_filter(s@) == Some((p.0@, p.1@)),
            None => split_filter(s@) is None,
        },
{
    let n = s.unicode_len();
    let mut i: usize = 0;
    while i < n
        invariant
            i <= n,
            n == s@.len(),
            forall|j: int| 0 <= j < i ==> s@[j] != ':',
        decreases n - i,
    {
        if s.get_char(i) == ':' {
            proof {
                lemma_find_char_prefix(s@, ':', i as int);
            }
            if i >= 1 && i < n - 1 {
                let col = s.substring_char(0, i).to_owned();
                let pat = s.substring_char(i + 1, n).to_owned();
                proof {
                    assert(col@ =~= s@.take(i as int));
                    assert(pat@ =~= s@.skip(i + 1));
                }
                return Some((col, pat));
            } else {
                return None;
            }
        }
        i = i + 1;
    }
    proof {
        lemma_find_char_prefix(s@, ':', n as int);
    }
    None
}

/// Replaces the value of the first pair whose key equals `k`, or appends the
/// pair when the key is absent.
pub open spec fn upsert<K, V>(m: Seq<(K, V)>, k: K, v: V) -> Seq<(K, V)>
    decreases m.len(),
{
    if m.len() == 0 {
        seq![(k, v)]
    } else if m[0].0 == k {
        seq![(k, v)] + m.skip(1)
    } else {
        seq![m[0]] + upsert(m.skip(1), k, v)
    }
}

/// When the first occurrence of `k` is at `j`, `upsert` updates index `j`.
pub proof fn lemma_upsert_at<K, V>(m: Seq<(K, V)>, k: K, v: V, j: int)
    requires
        0 <= j < m.len(),
        m[j].0 == k,
        forall|jj: int| 0 <= jj < j ==> (#[trigger] m[jj]).0 != k,
    ensures
        upsert(m, k, v) == m.update(j, (k, v)),
    decreases m.len(),
{
    if j == 0 {
        assert(upsert(m, k, v) =~= m.update(0, (k, v)));
    } else {
        assert forall|jj: int| 0 <= jj < j - 1 implies (#[trigger] m.skip(1)[jj]).0 != k by {
            assert(m.skip(1)[jj] == m[jj + 1]);
        }
        assert(m.skip(1)[j - 1] == m[j]);
        lemma_upsert_at(m.skip(1), k, v, j - 1);
        assert(upsert(m, k, v) =~= m.update(j, (k, v)));
    }
}

/// When `k` is absent, `upsert` appends.
pub proof fn lemma_upsert_absent<K, V>(m: Seq<(K, V)>, k: K, v: V)
    requires
        forall|jj: int| 0 <= jj < m.len() ==> (#[trigger] m[jj]).0 != k,
    ensures
        upsert(m, k, v) == m.push((k, v)),
    decreases m.len(),
{
    if m.len() == 0 {
        assert(upsert(m, k, v) =~= m.push((k, v)));
    } else {
        assert forall|jj: int| 0 <= jj < m.skip(1).len() implies (#[trigger] m.skip(1)[jj]).0
            != k by {
            assert(m.skip(1)[jj] == m[jj + 1]);
        }
        lemma_upsert_absent(m.skip(1), k, v);
        assert(upsert(m, k, v) =~= m.push((k, v)));
    }
}

/// The name-to-pattern pairs that a list of filter expressions denotes,
/// processed in order with later patterns replacing earlier ones of the same
/// (exactly spelled) name; `None` when some expression is malformed.
pub open spec fn filters_model_acc(
    values: Seq<Seq<char>>,
    acc: Seq<(Seq<char>, Seq<char>)>,
) -> Option<Seq<(Seq<char>, Seq<char>)>>
    decreases values.len(),
{
    if values.len() == 0 {
        Some(acc)
    } else {
        match split_filter(values[0]) {
            None => None,
            Some(kv) => filters_model_acc(values.skip(1), upsert(acc, kv.0, kv.1)),
        }
    }
}

/// The name-to-pattern mapping of a list of filter expressions.
pub open spec fn filters_model(values: Seq<Seq<char>>) -> Option<Seq<(Seq<char>, Seq<char>)>> {
    filters_model_acc(values, Seq::empty())
}

/// The name and pattern of each compiled filter.
pub open spec fn pairs_view(fs: Seq<(String, CompiledFilter)>) -> Seq<(Seq<char>, Seq<char>)> {
    fs.map_values(|e: (String, CompiledFilter)| (e.0@, e.1.pattern_spec()))
}

/// The index of the first pair whose key (viewed) equals `key`, if any.
fn find_key_string(fs: &Vec<(String, CompiledFilter)>, key: &String) -> (r: Option<usize>)
    ensures
        match r {
            Some(j) => j < fs@.len() && fs@[j as int].0@ == key@ && forall|jj: int|
                0 <= jj < j ==> (#[trigger] fs@[jj]).0@ != key@,
            None => forall|jj: int| 0 <= jj < fs@.len() ==> (#[trigger] fs@[jj]).0@ != key@,
        },
{
    let mut j: usize = 0;
    while j < fs.len()
        invariant
            j <= fs@.len(),
            forall|jj: int| 0 <= jj < j ==> (#[trigger] fs@[jj]).0@ != key@,
        decreases fs@.len() - j,
    {
        if fs[j].0.eq(key) {
            return Some(j);
        }
        j = j + 1;
    }
    None
}

/// The index of the first pair whose cell position equals `pos`, if any.
fn find_key_pos(r: &Vec<(usize, usize)>, pos: usize) -> (res: Option<usize>)
    ensures
        match res {
            Some(j) => j < r@.len() && r@[j as int].0 == pos && forall|jj: int|
                0 <= jj < j ==> (#[trigger] r@[jj]).0 != pos,
            None => forall|jj: int| 0 <= jj < r@.len() ==> (#[trigger] r@[jj]).0 != pos,
        },
{
    let mut j: usize = 0;
    while j < r.len()
        invariant
            j <= r@.len(),
            forall|jj: int| 0 <= jj < j ==> (#[trigger] r@[jj]).0 != pos,
        decreases r@.len() - j,
    {
        if r[j].0 == pos {
            return Some(j);
        }
        j = j + 1;
    }
    None
}

/// Parses and compiles a list of filter expressions. Success is owed
/// exactly when every expression splits into a non-empty column and a
/// pattern the engine accepts; a malformed expression yields
/// `InvalidArgument` with the argument's name, and the first well-split
/// but rejected pattern yields `Filter` with the engine's message.
pub fn parse_filters(values: &Vec<String>, name: &str) -> (r: Result<
    Vec<(String, CompiledFilter)>,
    Error,
>)
    ensures
        match r {
            Ok(fs) => {
                &&& filters_model(strs_view(values@)) == Some(pairs_view(fs@))
                &&& forall|k: int|
                    0 <= k < values@.len() ==> valid_filter_value(#[trigger] values@[k]@)
            },
            Err(e) => match e {
                Error::InvalidArgument(n) => n@ == name@ && filters_model(strs_view(values@))
                    is None,
                Error::Filter(_) => exists|k: int|
                    #![trigger values@[k]]
                    {
                        &&& 0 <= k < values@.len()
                        &&& split_filter(values@[k]@) is Some
                        &&& !valid_filter_value(values@[k]@)
                        &&& forall|j: int| 0 <= j < k ==> valid_filter_value(#[trigger] values@[j]@)
                    },
                _ => false,
            },
        },
        (forall|k: int| 0 <= k < values@.len() ==> valid_filter_value(#[trigger] values@[k]@))
            ==> r is Ok,
{
    let ghost vals = strs_view(values@);
    let mut fs: Vec<(String, CompiledFilter)> = Vec::new();
    let mut k: usize = 0;
    proof {
        assert(vals.skip(0) =~= vals);
        assert(pairs_view(fs@) =~= Seq::<(Seq<char>, Seq<char>)>::empty());
    }
    while k < values.len()
        invariant
            k <= values@.len(),
            vals == strs_view(values@),
            filters_model(vals) == filters_model_acc(vals.skip(k as int), pairs_view(fs@)),
            forall|j: int| 0 <= j < k ==> valid_filter_value(#[trigger] values@[j]@),
        decreases values@.len() - k,
    {
        proof {
            assert(vals.skip(k as int)[0] == vals[k as int]);
            assert(vals[k as int] == values@[k as int]@);
            assert(vals.skip(k as int).skip(1) =~= vals.skip(k + 1 as int));
        }
        match parse_filter_expr(values[k].as_str()) {
            None => {
                return Err(Error::InvalidArgument(name.to_owned()));
            },
            Some((col, pat)) => {
                match CompiledFilter::compile(&pat) {
                    Err(msg) => {
                        proof {
                            assert(!valid_filter_value(values@[k as int]@));
                        }
                        return Err(Error::Filter(msg));
                    },
                    Ok(cf) => {
                        let ghost m0 = pairs_view(fs@);
                        match find_key_string(&fs, &col) {
                            Some(j) => {
                                proof {
                                    assert forall|jj: int| 0 <= jj < j implies (
                                    #[trigger] m0[jj]).0 != col@ by {
                                        assert(m0[jj].0 == fs@[jj].0@);
                                    }
                                    lemma_upsert_at(m0, col@, pat@, j as int);
                                }
                                fs[j] = (col, cf);
                                proof {
                                    assert(pairs_view(fs@) =~= upsert(m0, col@, pat@));
                                }
                            },
                            None => {
                                proof {
                                    assert forall|jj: int| 0 <= jj < m0.len() implies (
                                    #[trigger] m0[jj]).0 != col@ by {
                                        assert(m0[jj].0 == fs@[jj].0@);
                                    }
                                    lemma_upsert_absent(m0, col@, pat@);
                                }
                                fs.push((col, cf));
                                proof {
                                    assert(pairs_view(fs@) =~= upsert(m0, col@, pat@));
                                }
                            },
                        }
                    },
                }
            },
        }
        k = k + 1;
    }
    proof {
        assert(vals.skip(values@.len() as int) =~= Seq::<Seq<char>>::empty());
    }
    Ok(fs)
}

/// The display names of a projection.
pub open spec fn proj_names(proj: Seq<(usize, String)>) -> Seq<Seq<char>> {
    proj.map_values(|e: (usize, String)| e.1@)
}

/// Resolving filters against a projection: each filter name is looked up
/// case-insensitively among the projection's display names (the last match
/// wins, as for schema fields); names absent from the projection are
/// silently dropped; a later filter landing on the same cell replaces an
/// earlier one. The pairs are `(cell position, pattern)`.
pub open spec fn resolve_filters_acc(
    names: Seq<Seq<char>>,
    filters: Seq<(Seq<char>, Seq<char>)>,
    acc: Seq<(nat, Seq<char>)>,
) -> Seq<(nat, Seq<char>)>
    decreases filters.len(),
{
    if filters.len() == 0 {
        acc
    } else {
        let i = find_field(names, filters[0].0);
        let acc2 = if i >= 0 {
            upsert(acc, i as nat, filters[0].1)
        } else {
            acc
        };
        resolve_filters_acc(names, filters.skip(1), acc2)
    }
}

/// The resolved `(cell position, pattern)` pairs of a filter list.
pub open spec fn resolve_filters_spec(
    names: Seq<Seq<char>>,
    filters: Seq<(Seq<char>, Seq<char>)>,
) -> Seq<(nat, Seq<char>)> {
    resolve_filters_acc(names, filters, Seq::empty())
}

/// The `(cell position, pattern)` pairs that a resolved index list denotes.
pub open spec fn resolved_view(
    r: Seq<(usize, usize)>,
    filters: Seq<(String, CompiledFilter)>,
) -> Seq<(nat, Seq<char>)> {
    r.map_values(|e: (usize, usize)| (e.0 as nat, filters[e.1 as int].1.pattern_spec()))
}

/// Resolves compiled filters against a projection's display names. Each
/// returned pair holds a cell position of the projection and the index of
/// the filter that applies there.
pub fn resolve_filters(proj: &Vec<(usize, String)>, filters: &Vec<(String, CompiledFilter)>) -> (r:
    Vec<(usize, usize)>)
    ensures
        resolved_view(r@, filters@) == resolve_filters_spec(
            proj_names(proj@),
            pairs_view(filters@),
        ),
        forall|k: int|
            0 <= k < r@.len() ==> (#[trigger] r@[k]).0 < proj@.len() && r@[k].1 < filters@.len(),
{
    let ghost names = proj_names(proj@);
    let ghost pv = pairs_view(filters@);
    let mut disp: Vec<String> = Vec::new();
    let mut lows: Vec<String> = Vec::new();
    let mut i: usize = 0;
    while i < proj.len()
        invariant
            i <= proj@.len(),
            disp@.len() == i,
            lows@.len() == i,
            forall|k: int| 0 <= k < i ==> disp@[k]@ == (#[trigger] proj@[k]).1@,
            forall|k: int| 0 <= k < i ==> lows@[k]@ == lower_of((#[trigger] disp@[k])@),
        decreases proj@.len() - i,
    {
        let d = proj[i].1.clone();
        lows.push(to_lowercase(d.as_str()));
        disp.push(d);
        i = i + 1;
    }
    proof {
        assert(strs_view(disp@) =~= names);
    }
    let mut r: Vec<(usize, usize)> = Vec::new();
    let mut f: usize = 0;
    proof {
        assert(pv.skip(0) =~= pv);
        assert(resolved_view(r@, filters@) =~= Seq::<(nat, Seq<char>)>::empty());
    }
    while f < filters.len()
        invariant
            f <= filters@.len(),
            names == proj_names(proj@),
            pv == pairs_view(filters@),
            disp@.len() == proj@.len(),
            lows@.len() == proj@.len(),
            strs_view(disp@) == names,
            forall|k: int| 0 <= k < proj@.len() ==> lows@[k]@ == lower_of((#[trigger] disp@[k])@),
            resolve_filters_spec(names, pv) == resolve_filters_acc(
                names,
                pv.skip(f as int),
                resolved_view(r@, filters@),
            ),
            forall|k: int|
                0 <= k < r@.len() ==> (#[trigger] r@[k]).0 < proj@.len() && r@[k].1
                    < filters@.len(),
        decreases filters@.len() - f,
    {
        proof {
            assert(pv.skip(f as int)[0] == pv[f as int]);
            assert(pv.skip(f as int).skip(1) =~= pv.skip(f + 1 as int));
        }
        let ghost acc0 = resolved_view(r@, filters@);
        match crate::fields::find_last(&disp, &lows, &filters[f].0) {
            Some(pos) => {
                match find_key_pos(&r, pos) {
                    Some(j) => {
                        proof {
                            assert forall|jj: int| 0 <= jj < j implies (#[trigger] acc0[jj]).0
                                != pos as nat by {
                                assert(acc0[jj].0 == r@[jj].0 as nat);
                            }
                            assert(acc0[j as int].0 == pos as nat);
                            lemma_upsert_at(acc0, pos as nat, pv[f as int].1, j as int);
                        }
                        r[j] = (pos, f);
                        proof {
                            assert(resolved_view(r@, filters@) =~= upsert(
                                acc0,
                                pos as nat,
                                pv[f as int].1,
                            ));
                        }
                    },
                    None => {
                        proof {
                            assert forall|jj: int| 0 <= jj < acc0.len() implies (
                            #[trigger] acc0[jj]).0 != pos as nat by {
                                assert(acc0[jj].0 == r@[jj].0 as nat);
                            }
                            lemma_upsert_absent(acc0, pos as nat, pv[f as int].1);
                        }
                        r.push((pos, f));
                        proof {
                            assert(resolved_view(r@, filters@) =~= upsert(
                                acc0,
                                pos as nat,
                                pv[f as int].1,
                            ));
                        }
                    },
                }
            },
            None => {
            },
        }
        f = f + 1;
    }
    proof {
        assert(pv.skip(filters@.len() as int) =~= Seq::<(Seq<char>, Seq<char>)>::empty());
    }
    r
}

/// Filter composition is a conjunction: a row passes exactly when every
/// resolved filter matches the cell it points at, and with no filters at all
/// every row passes.
pub open spec fn row_matches_spec(cells: Seq<Seq<char>>, resolved: Seq<(nat, Seq<char>)>) -> bool {
    forall|k: int|
        0 <= k < resolved.len() ==> regex_match(
            (#[trigger] resolved[k]).1,
            cells[resolved[k].0 as int],
        )
}

/// Evaluates the resolved filters over one rendered row: the conjunction of
/// all of them, vacuously true without filters.
pub fn row_matches(
    cells: &Vec<String>,
    resolved: &Vec<(usize, usize)>,
    filters: &Vec<(String, CompiledFilter)>,
) -> (r: bool)
    requires
        forall|k: int|
            0 <= k < resolved@.len() ==> (#[trigger] resolved@[k]).0 < cells@.len()
                && resolved@[k].1 < filters@.len(),
    ensures
        r == row_matches_spec(strs_view(cells@), resolved_view(resolved@, filters@)),
{
    let ghost rv = resolved_view(resolved@, filters@);
    let mut k: usize = 0;
    while k < resolved.len()
        invariant
            k <= resolved@.len(),
            rv == resolved_view(resolved@, filters@),
            forall|j: int|
                0 <= j < resolved@.len() ==> (#[trigger] resolved@[j]).0 < cells@.len()
                    && resolved@[j].1 < filters@.len(),
            forall|j: int|
                0 <= j < k ==> regex_match(
                    (#[trigger] rv[j]).1,
                    strs_view(cells@)[rv[j].0 as int],
                ),
        decreases resolved@.len() - k,
    {
        let (pos, fi) = (resolved[k].0, resolved[k].1);
        if !filters[fi].1.is_match(&cells[pos]) {
            proof {
                assert(!regex_match(rv[k as int].1, strs_view(cells@)[rv[k as int].0 as int]));
            }
            return false;
        }
        k = k + 1;
    }
    true
}

} // verus!
