//! Display widths of characters and strings, and exact-width cell
//! formatting: padding short values, truncating long ones with a trailing
//! marker, always producing exactly the requested number of columns.

use vstd::prelude::*;

verus! {

/// The number of terminal columns of a non-ASCII character, as the
/// `unicode-width` crate reports it (with control characters counted as 0).
pub uninterp spec fn ext_char_width(c: char) -> nat;

/// The number of terminal columns one character occupies: printable ASCII is
/// one column wide, anything else is as the `unicode-width` crate reports.
pub open spec fn char_width(c: char) -> nat {
    if ' ' <= c && c <= '~' {
        1
    } else {
        ext_char_width(c)
    }
}

/// Relies on `unicode_width::UnicodeWidthChar::width`: printable ASCII
/// characters are one column wide, widths never exceed 3, and control
/// characters (`None`) count as 0.
#[verifier::external_body]
fn char_display_width(c: char) -> (r: usize)
    ensures
        r == char_width(c),
        !(' ' <= c && c <= '~') ==> r == ext_char_width(c),
        r <= 3,
{
    unicode_width::UnicodeWidthChar::width(c).unwrap_or(0)
}

/// The number of terminal columns a character sequence occupies.
pub open spec fn str_width(s: Seq<char>) -> nat
    decreases s.len(),
{
    if s.len() == 0 {
        0
    } else {
        char_width(s[0]) + str_width(s.skip(1))
    }
}

/// `str_width`, saturated at the machine word.
pub open spec fn sat_width(s: Seq<char>) -> nat {
    if str_width(s) > usize::MAX {
        usize::MAX as nat
    } else {
        str_width(s)
    }
}

/// The width of a one-character sequence is that character's width.
pub proof fn lemma_str_width_single(c: char)
    ensures
        str_width(seq![c]) == char_width(c),
{
    assert(seq![c][0] == c);
    assert(seq![c].skip(1) =~= Seq::<char>::empty());
    assert(str_width(seq![c].skip(1)) == 0);
}

/// Width distributes over concatenation.
pub proof fn lemma_str_width_concat(a: Seq<char>, b: Seq<char>)
    ensures
        str_width(a + b) == str_width(a) + str_width(b),
    decreases a.len(),
{
    if a.len() == 0 {
        assert(a + b =~= b);
    } else {
        assert((a + b).skip(1) =~= a.skip(1) + b);
        lemma_str_width_concat(a.skip(1), b);
    }
}

/// `n` spaces.
pub open spec fn spaces(n: nat) -> Seq<char> {
    Seq::new(n, |i: int| ' ')
}

/// Spaces are one column wide each.
pub proof fn lemma_spaces_width(n: nat)
    ensures
        str_width(spaces(n)) == n,
    decreases n,
{
    if n > 0 {
        assert(spaces(n).skip(1) =~= spaces((n - 1) as nat));
        lemma_spaces_width((n - 1) as nat);
    }
}

/// Appends `n` spaces.
pub fn push_spaces(s: &mut String, n: usize)
    ensures
        final(s)@ == old(s)@ + spaces(n as nat),
{
    let mut i: usize = 0;
    while i < n
        invariant
            i <= n,
            s@ == old(s)@ + spaces(i as nat),
        decreases n - i,
    {
        crate::strutil::push_char(s, ' ');
        proof {
            assert(old(s)@ + spaces((i + 1) as nat) =~= (old(s)@ + spaces(i as nat)).push(' '));
        }
        i = i + 1;
    }
}

/// The display width of `s`, saturated at `usize::MAX`.
pub fn display_width(s: &str) -> (r: usize)
    ensures
        r == sat_width(s@),
{
    let n = s.unicode_len();
    let mut r: usize = 0;
    let mut i: usize = 0;
    while i < n
        invariant
            i <= n,
            n == s@.len(),
            r == sat_width(s@.take(i as int)),
        decreases n - i,
    {
        let c = s.get_char(i);
        let w = char_display_width(c);
        proof {
            assert(s@.take(i + 1 as int) =~= s@.take(i as int) + seq![s@[i as int]]);
            lemma_str_width_concat(s@.take(i as int), seq![s@[i as int]]);
            lemma_str_width_single(s@[i as int]);
        }
        if r > usize::MAX - w {
            r = usize::MAX;
        } else {
            r = r + w;
        }
        i = i + 1;
    }
    proof {
        assert(s@.take(n as int) =~= s@);
    }
    r
}

/// The longest prefix of `s` whose display width stays within `budget`,
/// taking characters greedily from the front.
pub open spec fn take_width(s: Seq<char>, budget: nat) -> Seq<char>
    decreases s.len(),
{
    if s.len() == 0 {
        s
    } else if char_width(s[0]) <= budget {
        seq![s[0]] + take_width(s.skip(1), (budget - char_width(s[0])) as nat)
    } else {
        Seq::<char>::empty()
    }
}

/// Computes the greedy prefix of `s` for `budget` columns, together with its
/// display width.
fn take_prefix(s: &str, budget: usize) -> (r: (String, usize))
    ensures
        r.0@ == take_width(s@, budget as nat),
        r.1 == str_width(take_width(s@, budget as nat)),
        r.1 <= budget,
{
    let n = s.unicode_len();
    let mut out = String::new();
    let mut tw: usize = 0;
    let mut i: usize = 0;
    proof {
        assert(s@.take(0) =~= Seq::<char>::empty());
        assert(s@.skip(0) =~= s@);
        assert(Seq::<char>::empty() + take_width(s@, budget as nat) =~= take_width(
            s@,
            budget as nat,
        ));
    }
    loop
        invariant
            i <= n,
            n == s@.len(),
            tw <= budget,
            out@ == s@.take(i as int),
            tw == str_width(s@.take(i as int)),
            take_width(s@, budget as nat) == s@.take(i as int) + take_width(
                s@.skip(i as int),
                (budget - tw) as nat,
            ),
        ensures
            out@ == take_width(s@, budget as nat),
            tw == str_width(take_width(s@, budget as nat)),
            tw <= budget,
        decreases n - i,
    {
        if i == n {
            proof {
                assert(s@.skip(n as int) =~= Seq::<char>::empty());
                assert(s@.take(i as int) + Seq::<char>::empty() =~= s@.take(i as int));
            }
            break ;
        }
        let c = s.get_char(i);
        let w = char_display_width(c);
        proof {
            assert(s@.skip(i as int)[0] == s@[i as int]);
        }
        if w > budget - tw {
            proof {
                assert(take_width(s@.skip(i as int), (budget - tw) as nat)
                    =~= Seq::<char>::empty());
                assert(s@.take(i as int) + Seq::<char>::empty() =~= s@.take(i as int));
            }
            break ;
        }
        proof {
            let rest = s@.skip(i as int);
            assert(rest.skip(1) =~= s@.skip(i + 1 as int));
            assert(seq![rest[0]] + take_width(rest.skip(1), (budget - tw - w) as nat) == take_width(
                rest,
                (budget - tw) as nat,
            ));
            assert(s@.take(i + 1 as int) =~= s@.take(i as int) + seq![s@[i as int]]);
            assert(s@.take(i as int) + (seq![rest[0]] + take_width(
                s@.skip(i + 1 as int),
                (budget - tw - w) as nat,
            )) =~= s@.take(i + 1 as int) + take_width(s@.skip(i + 1 as int), (budget - tw - w) as nat));
            lemma_str_width_concat(s@.take(i as int), seq![s@[i as int]]);
            lemma_str_width_single(s@[i as int]);
        }
        crate::strutil::push_char(&mut out, c);
        proof {
            assert(s@.take(i as int).push(s@[i as int]) =~= s@.take(i + 1 as int));
        }
        tw = tw + w;
        i = i + 1;
    }
    (out, tw)
}

/// The three-column truncation marker for unquoted values.
pub open spec fn dots() -> Seq<char> {
    seq!['.', '.', '.']
}

/// The four-column truncation marker for quote-delimited values.
pub open spec fn dots_quote() -> Seq<char> {
    seq!['.', '.', '.', '"']
}

/// The truncation markers occupy three and four columns.
pub proof fn lemma_marker_widths()
    ensures
        str_width(dots()) == 3,
        str_width(dots_quote()) == 4,
{
    reveal_with_fuel(str_width, 5);
    assert(dots().skip(1) =~= seq!['.', '.']);
    assert(seq!['.', '.'].skip(1) =~= seq!['.']);
    assert(seq!['.'].skip(1) =~= Seq::<char>::empty());
    assert(dots_quote().skip(1) =~= seq!['.', '.', '"']);
    assert(seq!['.', '.', '"'].skip(1) =~= seq!['.', '"']);
    assert(seq!['.', '"'].skip(1) =~= seq!['"']);
    assert(seq!['"'].skip(1) =~= Seq::<char>::empty());
}

/// What `format_cell` returns: the value itself when it already fills
/// `width` columns; the value right-padded with spaces when narrower; and a
/// truncation otherwise. A truncated quote-delimited value (one starting
/// with `'"'`) ends in `..."` over its last four columns, any other
/// truncated value ends in `...` over its last three; when `width` is too
/// narrow for a marker, the value is simply cut and padded. Widths wider
/// than the machine word saturate.
pub open spec fn cell_spec(s: Seq<char>, width: nat) -> Seq<char> {
    let d = sat_width(s);
    if d == width {
        s
    } else if d < width {
        s + spaces((width - d) as nat)
    } else {
        let quoted = s.len() > 0 && s[0] == '"';
        let reserve: nat = if quoted {
            4
        } else {
            3
        };
        let marker = if quoted {
            dots_quote()
        } else {
            dots()
        };
        if width >= reserve {
            let t = take_width(s, (width - reserve) as nat);
            t + spaces((width - reserve - str_width(t)) as nat) + marker
        } else {
            let t = take_width(s, width);
            t + spaces((width - str_width(t)) as nat)
        }
    }
}

/// Formats one cell to exactly `width` display columns.
#[verifier::rlimit(60)]
pub fn format_cell(value: &str, width: usize) -> (r: String)
    ensures
        r@ == cell_spec(value@, width as nat),
        str_width(value@) <= usize::MAX ==> str_width(r@) == width as nat,
{
    let d = display_width(value);
    if d == width {
        value.to_owned()
    } else if d < width {
        let mut r = value.to_owned();
        push_spaces(&mut r, width - d);
        proof {
            lemma_str_width_concat(value@, spaces((width - d) as nat));
            lemma_spaces_width((width - d) as nat);
        }
        r
    } else {
        let quoted = if value.unicode_len() > 0 {
            value.get_char(0) == '"'
        } else {
            false
        };
        let reserve: usize = if quoted {
            4
        } else {
            3
        };
        if width >= reserve {
            let (mut r, tw) = take_prefix(value, width - reserve);
            push_spaces(&mut r, width - reserve - tw);
            if quoted {
                crate::strutil::push_char(&mut r, '.');
                crate::strutil::push_char(&mut r, '.');
                crate::strutil::push_char(&mut r, '.');
                crate::strutil::push_char(&mut r, '"');
            } else {
                crate::strutil::push_char(&mut r, '.');
                crate::strutil::push_char(&mut r, '.');
                crate::strutil::push_char(&mut r, '.');
            }
            proof {
                let t = take_width(value@, (width - reserve) as nat);
                let pad = spaces((width - reserve - str_width(t)) as nat);
                let marker = if quoted {
                    dots_quote()
                } else {
                    dots()
                };
                assert(r@ =~= t + pad + marker);
                lemma_str_width_concat(t, pad);
                lemma_str_width_concat(t + pad, marker);
                lemma_spaces_width((width - reserve - str_width(t)) as nat);
                lemma_marker_widths();
            }
            r
        } else {
            let (mut r, tw) = take_prefix(value, width);
            push_spaces(&mut r, width - tw);
            proof {
                let t = take_width(value@, width as nat);
                lemma_str_width_concat(t, spaces((width - str_width(t)) as nat));
                lemma_spaces_width((width - str_width(t)) as nat);
            }
            r
        }
    }
}

} // verus!
