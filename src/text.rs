//! Character-level helpers over the views of `str` and `String`.

use vstd::prelude::*;

verus! {

/// The characters that `str::trim` removes: Unicode `White_Space`.
pub open spec fn is_space(c: char) -> bool {
    ||| c == ' ' || c == '\t' || c == '\n' || c == '\r'
    ||| c == '\u{0B}' || c == '\u{0C}' || c == '\u{85}' || c == '\u{A0}'
    ||| c == '\u{1680}' || ('\u{2000}' <= c && c <= '\u{200A}')
    ||| c == '\u{2028}' || c == '\u{2029}' || c == '\u{202F}' || c == '\u{205F}'
    ||| c == '\u{3000}'
}

pub fn is_space_char(c: char) -> (r: bool)
    ensures
        r == is_space(c),
{
    c == ' ' || c == '\t' || c == '\n' || c == '\r' || c == '\u{0B}' || c == '\u{0C}'
        || c == '\u{85}' || c == '\u{A0}' || c == '\u{1680}' || ('\u{2000}' <= c && c
        <= '\u{200A}') || c == '\u{2028}' || c == '\u{2029}' || c == '\u{202F}' || c
        == '\u{205F}' || c == '\u{3000}'
}

/// Number of leading space characters.
pub open spec fn lead_spaces(s: Seq<char>) -> int
    decreases s.len(),
{
    if s.len() == 0 || !is_space(s[0]) {
        0
    } else {
        1 + lead_spaces(s.drop_first())
    }
}

/// Number of trailing space characters.
pub open spec fn trail_spaces(s: Seq<char>) -> int
    decreases s.len(),
{
    if s.len() == 0 || !is_space(s.last()) {
        0
    } else {
        1 + trail_spaces(s.drop_last())
    }
}

/// `s` without its leading and trailing spaces.
pub open spec fn trim(s: Seq<char>) -> Seq<char> {
    let front = s.skip(lead_spaces(s));
    front.take(front.len() - trail_spaces(front))
}

/// Index of the first `c` in `s`, or `s.len()` when there is none.
pub open spec fn first_index(s: Seq<char>, c: char) -> int
    decreases s.len(),
{
    if s.len() == 0 {
        0
    } else if s[0] == c {
        0
    } else {
        1 + first_index(s.drop_first(), c)
    }
}

/// `s` cut at every `sep`, as `str::split` does: one more piece than separators.
pub open spec fn split_on(s: Seq<char>, sep: char) -> Seq<Seq<char>>
    decreases s.len(),
    via split_on_decreases
{
    let i = first_index(s, sep);
    if i >= s.len() {
        seq![s]
    } else {
        seq![s.take(i)] + split_on(s.skip(i + 1), sep)
    }
}

#[via_fn]
proof fn split_on_decreases(s: Seq<char>, sep: char) {
    lemma_first_index_bounds(s, sep);
}

proof fn lemma_first_index_bounds(s: Seq<char>, c: char)
    ensures
        0 <= first_index(s, c) <= s.len(),
        first_index(s, c) < s.len() ==> s[first_index(s, c)] == c,
        forall|k: int| 0 <= k < first_index(s, c) ==> s[k] != c,
    decreases s.len(),
{
    if s.len() > 0 && s[0] != c {
        lemma_first_index_bounds(s.drop_first(), c);
        assert forall|k: int| 0 <= k < first_index(s, c) implies s[k] != c by {
            if k > 0 {
                assert(s[k] == s.drop_first()[k - 1]);
            }
        }
    }
}

pub proof fn lemma_first_index_is(s: Seq<char>, c: char, i: int)
    requires
        0 <= i <= s.len(),
        i < s.len() ==> s[i] == c,
        forall|k: int| 0 <= k < i ==> s[k] != c,
    ensures
        first_index(s, c) == i,
    decreases s.len(),
{
    if s.len() > 0 && i > 0 {
        assert forall|k: int| 0 <= k < i - 1 implies s.drop_first()[k] != c by {
            assert(s.drop_first()[k] == s[k + 1]);
        }
        lemma_first_index_is(s.drop_first(), c, i - 1);
    }
}

proof fn lemma_lead_spaces_is(s: Seq<char>, i: int)
    requires
        0 <= i <= s.len(),
        i < s.len() ==> !is_space(s[i]),
        forall|k: int| 0 <= k < i ==> is_space(s[k]),
    ensures
        lead_spaces(s) == i,
    decreases s.len(),
{
    if s.len() > 0 && i > 0 {
        assert forall|k: int| 0 <= k < i - 1 implies is_space(s.drop_first()[k]) by {
            assert(s.drop_first()[k] == s[k + 1]);
        }
        lemma_lead_spaces_is(s.drop_first(), i - 1);
    }
}

proof fn lemma_trail_spaces_is(s: Seq<char>, i: int)
    requires
        0 <= i <= s.len(),
        i < s.len() ==> !is_space(s[s.len() - 1 - i]),
        forall|k: int| s.len() - i <= k < s.len() ==> is_space(s[k]),
    ensures
        trail_spaces(s) == i,
    decreases s.len(),
{
    if s.len() > 0 && i > 0 {
        assert forall|k: int| s.len() - 1 - (i - 1) <= k < s.len() - 1 implies is_space(
            s.drop_last()[k],
        ) by {
            assert(s.drop_last()[k] == s[k]);
        }
        lemma_trail_spaces_is(s.drop_last(), i - 1);
    }
}

/// Splitting always gives at least one piece.
pub proof fn lemma_split_nonempty(s: Seq<char>, sep: char)
    ensures
        split_on(s, sep).len() >= 1,
    decreases s.len(),
{
    lemma_first_index_bounds(s, sep);
    let i = first_index(s, sep);
    if i < s.len() {
        lemma_split_nonempty(s.skip(i + 1), sep);
    }
}

/// `pat` occurs in `s` at `i`.
pub open spec fn occurs_at(s: Seq<char>, pat: Seq<char>, i: int) -> bool {
    0 <= i && i + pat.len() <= s.len() && s.subrange(i, i + pat.len()) == pat
}

/// `i` is the first place where `pat` occurs in `s`.
pub open spec fn is_first_occurrence(s: Seq<char>, pat: Seq<char>, i: int) -> bool {
    occurs_at(s, pat, i) && forall|j: int| 0 <= j < i ==> !occurs_at(s, pat, j)
}

/// Where `pat` first occurs in `s`, as `str::find` reports it.
pub open spec fn find_sub(s: Seq<char>, pat: Seq<char>) -> Option<int> {
    if exists|i: int| is_first_occurrence(s, pat, i) {
        Some(choose|i: int| is_first_occurrence(s, pat, i))
    } else {
        None
    }
}

/// Whether `pat` occurs in `cs` at `i`.
pub fn occurs_at_index(cs: &Vec<char>, pat: &Vec<char>, i: usize) -> (r: bool)
    ensures
        r == occurs_at(cs@, pat@, i as int),
{
    if i > cs.len() || pat.len() > cs.len() - i {
        return false;
    }
    let mut k: usize = 0;
    while k < pat.len()
        invariant
            i + pat.len() <= cs.len(),
            k <= pat.len(),
            forall|j: int| 0 <= j < k ==> cs@[i + j] == pat@[j],
        decreases pat.len() - k,
    {
        if cs[i + k] != pat[k] {
            assert(cs@.subrange(i as int, i + pat.len())[k as int] != pat@[k as int]);
            return false;
        }
        k = k + 1;
    }
    assert(cs@.subrange(i as int, i + pat.len()) =~= pat@);
    true
}

/// Where `pat` first occurs in `cs`.
pub fn find_chars(cs: &Vec<char>, pat: &Vec<char>) -> (r: Option<usize>)
    ensures
        r matches Some(i) ==> find_sub(cs@, pat@) == Some(i as int),
        r is None ==> find_sub(cs@, pat@) is None,
{
    let mut i: usize = 0;
    loop
        invariant
            i <= cs.len(),
            forall|j: int| 0 <= j < i ==> !occurs_at(cs@, pat@, j),
        ensures
            forall|j: int| 0 <= j <= cs.len() ==> !occurs_at(cs@, pat@, j),
        decreases cs.len() - i,
    {
        if occurs_at_index(cs, pat, i) {
            proof {
                assert(is_first_occurrence(cs@, pat@, i as int));
                let c = choose|c: int| is_first_occurrence(cs@, pat@, c);
                assert(c == i);
            }
            return Some(i);
        }
        if i == cs.len() {
            break;
        }
        i = i + 1;
    }
    assert forall|c: int| !is_first_occurrence(cs@, pat@, c) by {
        if c > cs.len() {
            assert(!occurs_at(cs@, pat@, c));
        }
    }
    None
}

/// The characters of `s`.
pub fn chars_of(s: &str) -> (r: Vec<char>)
    ensures
        r@ == s@,
{
    let mut out: Vec<char> = Vec::new();
    for c in it: s.chars()
        invariant
            out@ == it.seq().take(it.index() as int),
    {
        assert(it.seq().take(it.index() + 1) =~= out@.push(c));
        out.push(c);
    }
    out
}

/// Bounds `(lo, hi)` within `cs[from..to]` of that range with its leading and
/// trailing spaces removed.
pub fn trim_range(cs: &Vec<char>, from: usize, to: usize) -> (r: (usize, usize))
    requires
        from <= to <= cs.len(),
    ensures
        from <= r.0 <= r.1 <= to,
        cs@.subrange(r.0 as int, r.1 as int) == trim(cs@.subrange(from as int, to as int)),
{
    let ghost s = cs@.subrange(from as int, to as int);
    let mut lo = from;
    while lo < to && is_space_char(cs[lo])
        invariant
            from <= lo <= to <= cs.len(),
            forall|k: int| from <= k < lo ==> is_space(cs@[k]),
        decreases to - lo,
    {
        lo = lo + 1;
    }
    proof {
        lemma_lead_spaces_is(s, lo - from);
    }
    let ghost front = s.skip(lo - from);
    assert(front =~= cs@.subrange(lo as int, to as int));
    let mut hi = to;
    while hi > lo && is_space_char(cs[hi - 1])
        invariant
            from <= lo <= hi <= to <= cs.len(),
            forall|k: int| hi <= k < to ==> is_space(cs@[k]),
        decreases hi - lo,
    {
        hi = hi - 1;
    }
    proof {
        lemma_trail_spaces_is(front, to - hi);
    }
    assert(cs@.subrange(lo as int, hi as int) =~= front.take(front.len() - (to - hi)));
    (lo, hi)
}

/// The pieces of `cs` that a list of bounds marks out.
pub open spec fn pieces(cs: Seq<char>, bounds: Seq<(usize, usize)>) -> Seq<Seq<char>> {
    bounds.map_values(|b: (usize, usize)| cs.subrange(b.0 as int, b.1 as int))
}

/// Bounds of the pieces of `cs[from..to]` cut at every `sep`.
pub fn split_range(cs: &Vec<char>, from: usize, to: usize, sep: char) -> (r: Vec<(usize, usize)>)
    requires
        from <= to <= cs.len(),
    ensures
        pieces(cs@, r@) == split_on(cs@.subrange(from as int, to as int), sep),
        forall|i: int| 0 <= i < r.len() ==> from <= #[trigger] r@[i].0 <= r@[i].1 <= to,
{
    let mut out: Vec<(usize, usize)> = Vec::new();
    let mut start = from;
    let mut j = from;
    while j < to
        invariant
            from <= start <= j <= to <= cs.len(),
            forall|k: int| start <= k < j ==> cs@[k] != sep,
            split_on(cs@.subrange(from as int, to as int), sep) == pieces(cs@, out@) + split_on(
                cs@.subrange(start as int, to as int),
                sep,
            ),
            forall|i: int| 0 <= i < out.len() ==> from <= #[trigger] out@[i].0 <= out@[i].1 <= to,
        decreases to - j,
    {
        if cs[j] == sep {
            proof {
                let rest = cs@.subrange(start as int, to as int);
                lemma_first_index_is(rest, sep, j - start);
                assert(rest.take(j - start) =~= cs@.subrange(start as int, j as int));
                assert(rest.skip(j - start + 1) =~= cs@.subrange(j + 1, to as int));
                assert(pieces(cs@, out@.push((start, j))) =~= pieces(cs@, out@) + seq![
                    cs@.subrange(start as int, j as int),
                ]);
                assert(split_on(rest, sep) == seq![cs@.subrange(start as int, j as int)]
                    + split_on(cs@.subrange(j + 1, to as int), sep));
                assert(pieces(cs@, out@) + split_on(rest, sep) =~= pieces(cs@, out@.push((start, j)))
                    + split_on(cs@.subrange(j + 1, to as int), sep));
            }
            out.push((start, j));
            start = j + 1;
        }
        j = j + 1;
    }
    proof {
        let rest = cs@.subrange(start as int, to as int);
        lemma_first_index_is(rest, sep, rest.len() as int);
        assert(pieces(cs@, out@.push((start, to))) =~= pieces(cs@, out@) + seq![rest]);
    }
    out.push((start, to));
    out
}

} // verus!
