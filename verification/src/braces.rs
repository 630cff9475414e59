//! Brace matching: from a position inside a block, where does the block end?
//!
//! One scanner serves the section locator, the slots of a section and the
//! nested contents of an item.

use vstd::prelude::*;

verus! {

/// What a character does to the brace depth.
pub open spec fn brace_delta(c: char) -> int {
    if c == '{' {
        1
    } else if c == '}' {
        -1
    } else {
        0
    }
}

/// The position of the `}` at which the depth first reaches zero, scanning
/// forward from `i` with `depth` blocks open; `None` where the text ends
/// before that.
pub open spec fn closing_from(s: Seq<char>, i: int, depth: int) -> Option<int>
    decreases s.len() - i,
{
    if i < 0 || i >= s.len() {
        None
    } else if depth + brace_delta(s[i]) == 0 {
        Some(i)
    } else {
        closing_from(s, i + 1, depth + brace_delta(s[i]))
    }
}

/// The brace that closes the block whose content starts at `i`.
pub open spec fn closing_brace(s: Seq<char>, i: int) -> Option<int> {
    closing_from(s, i, 1)
}

pub proof fn lemma_closing_from_bounds(s: Seq<char>, i: int, depth: int)
    requires
        0 <= i,
        depth >= 1,
    ensures
        closing_from(s, i, depth) matches Some(e) ==> i <= e < s.len() && s[e] == '}',
    decreases s.len() - i,
{
    if i < s.len() && depth + brace_delta(s[i]) != 0 {
        lemma_closing_from_bounds(s, i + 1, depth + brace_delta(s[i]));
    }
}

/// The position of the brace that closes the block whose content starts at
/// `start`, or `None` where the braces never balance.
pub(crate) fn find_closing(s: &[char], start: usize) -> (r: Option<usize>)
    requires
        start <= s@.len(),
    ensures
        match r {
            Some(e) => closing_brace(s@, start as int) == Some(e as int) && start <= e < s@.len()
                && s@[e as int] == '}',
            None => closing_brace(s@, start as int).is_none(),
        },
{
    let n: usize = s.len();
    let mut depth: u128 = 1;
    let mut i: usize = start;
    while i < n
        invariant
            start <= i <= n,
            n == s@.len(),
            1 <= depth <= 1 + (i - start),
            closing_brace(s@, start as int) == closing_from(s@, i as int, depth as int),
        decreases n - i,
    {
        let c: char = s[i];
        if c == '{' {
            depth += 1;
        } else if c == '}' {
            if depth == 1 {
                return Some(i);
            }
            depth -= 1;
        }
        i += 1;
    }
    None
}

} // verus!
