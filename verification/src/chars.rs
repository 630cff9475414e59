//! Character classes and the scanning primitives of the inventory grammar.
//!
//! Text is modelled as `Seq<char>`; a position is an index into that sequence.
//! Every scanner has a recursive definition that walks forward from a position
//! and an executable twin that computes the same index.

use vstd::prelude::*;

verus! {

/// Whitespace as Unicode defines it (the `White_Space` property).
pub open spec fn is_space(c: char) -> bool {
    let u = c as u32;
    ||| 0x09 <= u <= 0x0D
    ||| u == 0x20
    ||| u == 0x85
    ||| u == 0xA0
    ||| u == 0x1680
    ||| 0x2000 <= u <= 0x200A
    ||| u == 0x2028
    ||| u == 0x2029
    ||| u == 0x202F
    ||| u == 0x205F
    ||| u == 0x3000
}

/// An ASCII decimal digit.
pub open spec fn is_digit(c: char) -> bool {
    '0' <= c <= '9'
}

/// What separates slots inside a section: whitespace or a comma.
pub open spec fn is_separator(c: char) -> bool {
    is_space(c) || c == ','
}

/// The first position at or after `i` that holds no whitespace; `s.len()` if
/// only whitespace follows.
pub open spec fn skip_spaces(s: Seq<char>, i: int) -> int
    decreases s.len() - i,
{
    if 0 <= i < s.len() && is_space(s[i]) {
        skip_spaces(s, i + 1)
    } else {
        i
    }
}

/// The first position at or after `i` that holds neither whitespace nor a comma.
pub open spec fn skip_separators(s: Seq<char>, i: int) -> int
    decreases s.len() - i,
{
    if 0 <= i < s.len() && is_separator(s[i]) {
        skip_separators(s, i + 1)
    } else {
        i
    }
}

/// The end of the maximal run of digits that starts at `i` (`i` itself where
/// no digit stands there).
pub open spec fn digits_end(s: Seq<char>, i: int) -> int
    decreases s.len() - i,
{
    if 0 <= i < s.len() && is_digit(s[i]) {
        digits_end(s, i + 1)
    } else {
        i
    }
}

/// `pat` stands in `s` at position `i`.
pub open spec fn has_at(s: Seq<char>, pat: Seq<char>, i: int) -> bool {
    0 <= i && i + pat.len() <= s.len() && s.subrange(i, i + pat.len()) == pat
}

/// The first position at or after `i` where `pat` stands in `s`.
pub open spec fn find_from(s: Seq<char>, pat: Seq<char>, i: int) -> Option<int>
    decreases s.len() + 1 - i,
{
    if i < 0 || i + pat.len() > s.len() {
        None
    } else if has_at(s, pat, i) {
        Some(i)
    } else {
        find_from(s, pat, i + 1)
    }
}

/// `s` holds nothing but whitespace.
pub open spec fn is_blank(s: Seq<char>) -> bool {
    skip_spaces(s, 0) == s.len()
}

pub proof fn lemma_skip_spaces_bounds(s: Seq<char>, i: int)
    requires
        0 <= i <= s.len(),
    ensures
        i <= skip_spaces(s, i) <= s.len(),
        skip_spaces(s, i) < s.len() ==> !is_space(s[skip_spaces(s, i)]),
        forall|j: int| i <= j < skip_spaces(s, i) ==> is_space(#[trigger] s[j]),
    decreases s.len() - i,
{
    if i < s.len() && is_space(s[i]) {
        lemma_skip_spaces_bounds(s, i + 1);
    }
}

pub proof fn lemma_skip_separators_bounds(s: Seq<char>, i: int)
    requires
        0 <= i <= s.len(),
    ensures
        i <= skip_separators(s, i) <= s.len(),
        skip_separators(s, i) < s.len() ==> !is_separator(s[skip_separators(s, i)]),
    decreases s.len() - i,
{
    if i < s.len() && is_separator(s[i]) {
        lemma_skip_separators_bounds(s, i + 1);
    }
}

pub proof fn lemma_digits_end_bounds(s: Seq<char>, i: int)
    requires
        0 <= i <= s.len(),
    ensures
        i <= digits_end(s, i) <= s.len(),
        digits_end(s, i) < s.len() ==> !is_digit(s[digits_end(s, i)]),
        forall|j: int| i <= j < digits_end(s, i) ==> is_digit(#[trigger] s[j]),
    decreases s.len() - i,
{
    if i < s.len() && is_digit(s[i]) {
        lemma_digits_end_bounds(s, i + 1);
    }
}

/// What `find_from` returns is the least position from `i` on where the
/// pattern stands, and it returns `None` only where there is none.
pub proof fn lemma_find_from_least(s: Seq<char>, pat: Seq<char>, i: int)
    requires
        0 <= i,
    ensures
        match find_from(s, pat, i) {
            Some(k) => i <= k && has_at(s, pat, k) && forall|j: int|
                i <= j < k ==> !has_at(s, pat, j),
            None => forall|j: int| i <= j ==> !has_at(s, pat, j),
        },
    decreases s.len() + 1 - i,
{
    if i + pat.len() <= s.len() && !has_at(s, pat, i) {
        lemma_find_from_least(s, pat, i + 1);
    }
}

pub(crate) fn char_is_space(c: char) -> (r: bool)
    ensures
        r == is_space(c),
{
    let u: u32 = c as u32;
    (0x09 <= u && u <= 0x0D) || u == 0x20 || u == 0x85 || u == 0xA0 || u == 0x1680 || (0x2000 <= u
        && u <= 0x200A) || u == 0x2028 || u == 0x2029 || u == 0x202F || u == 0x205F || u == 0x3000
}

pub(crate) fn char_is_digit(c: char) -> (r: bool)
    ensures
        r == is_digit(c),
{
    '0' <= c && c <= '9'
}

/// The characters of a string slice, in order.
pub(crate) fn to_chars(s: &str) -> (r: Vec<char>)
    ensures
        r@ == s@,
{
    let mut out: Vec<char> = Vec::new();
    for c in it: s.chars()
        invariant
            it.seq() == s@,
            out@ == it.seq().take(it.index()),
    {
        out.push(c);
    }
    out
}

pub(crate) fn scan_spaces(s: &[char], start: usize) -> (r: usize)
    requires
        start <= s@.len(),
    ensures
        r == skip_spaces(s@, start as int),
        start <= r <= s@.len(),
{
    let mut i: usize = start;
    while i < s.len() && char_is_space(s[i])
        invariant
            start <= i <= s@.len(),
            skip_spaces(s@, start as int) == skip_spaces(s@, i as int),
        decreases s@.len() - i,
    {
        i += 1;
    }
    i
}

pub(crate) fn scan_separators(s: &[char], start: usize) -> (r: usize)
    requires
        start <= s@.len(),
    ensures
        r == skip_separators(s@, start as int),
        start <= r <= s@.len(),
{
    let mut i: usize = start;
    while i < s.len() && (char_is_space(s[i]) || s[i] == ',')
        invariant
            start <= i <= s@.len(),
            skip_separators(s@, start as int) == skip_separators(s@, i as int),
        decreases s@.len() - i,
    {
        i += 1;
    }
    i
}

pub(crate) fn scan_digits(s: &[char], start: usize) -> (r: usize)
    requires
        start <= s@.len(),
    ensures
        r == digits_end(s@, start as int),
        start <= r <= s@.len(),
{
    let mut i: usize = start;
    while i < s.len() && char_is_digit(s[i])
        invariant
            start <= i <= s@.len(),
            digits_end(s@, start as int) == digits_end(s@, i as int),
        decreases s@.len() - i,
    {
        i += 1;
    }
    i
}

/// Whether `pat` stands in `s` at position `i`.
pub(crate) fn starts_with_at(s: &[char], pat: &[char], i: usize) -> (r: bool)
    requires
        i <= s@.len(),
    ensures
        r == has_at(s@, pat@, i as int),
{
    if pat.len() > s.len() - i {
        return false;
    }
    let mut j: usize = 0;
    while j < pat.len()
        invariant
            j <= pat@.len(),
            i + pat@.len() <= s@.len() <= usize::MAX,
            forall|k: int| 0 <= k < j ==> s@[i + k] == pat@[k],
        decreases pat@.len() - j,
    {
        if s[i + j] != pat[j] {
            assert(s@.subrange(i as int, i + pat@.len())[j as int] != pat@[j as int]);
            return false;
        }
        j += 1;
    }
    assert(s@.subrange(i as int, i + pat@.len()) =~= pat@);
    true
}

/// The first position at or after `start` where `pat` stands in `s`.
pub(crate) fn find_pattern(s: &[char], pat: &[char], start: usize) -> (r: Option<usize>)
    requires
        start <= s@.len(),
    ensures
        match r {
            Some(k) => find_from(s@, pat@, start as int) == Some(k as int) && start <= k && k
                + pat@.len() <= s@.len(),
            None => find_from(s@, pat@, start as int).is_none(),
        },
{
    let n: usize = s.len();
    let mut i: usize = start;
    while i <= n && pat.len() <= n - i
        invariant
            start <= i,
            n == s@.len(),
            find_from(s@, pat@, start as int) == find_from(s@, pat@, i as int),
        decreases s@.len() + 1 - i,
    {
        if starts_with_at(s, pat, i) {
            return Some(i);
        }
        assert(i < s@.len()) by {
            if pat@.len() == 0 {
                assert(s@.subrange(i as int, i as int) =~= pat@);
            }
        }
        i += 1;
    }
    None
}

} // verus!
