//! The inventory section inside a whole player file: where it lies, and how
//! a span of the file is replaced while the rest stays as it is.

use crate::braces::{closing_brace, find_closing, lemma_closing_from_bounds};
use crate::chars::{
    has_at, lemma_skip_spaces_bounds, scan_spaces, skip_spaces, starts_with_at, to_chars,
};
use crate::error::DemonaxError;
use crate::offsets::{
    byte_len, byte_offset, lemma_encode_concat, lemma_encode_injective, lemma_encode_split,
    lemma_offset_is_boundary, offset_of,
};
use vstd::prelude::*;
use vstd::string::{StrSliceExecFns, StringExecFns};
use vstd::utf8::{encode_utf8, is_char_boundary};

verus! {

pub open spec fn introducer_key() -> Seq<char> {
    "Inventory"@
}

/// Where the content of the section starts, if its introducer stands at `i`:
/// the key, `=`, `{`, with optional whitespace between them.
pub open spec fn introducer_at(s: Seq<char>, i: int) -> Option<int> {
    if has_at(s, introducer_key(), i) {
        let eq = skip_spaces(s, i + introducer_key().len());
        if eq < s.len() && s[eq] == '=' {
            let open = skip_spaces(s, eq + 1);
            if open < s.len() && s[open] == '{' {
                Some(open + 1)
            } else {
                None
            }
        } else {
            None
        }
    } else {
        None
    }
}

/// The first introducer at or after `i`: where it starts and where the
/// content behind it starts.
pub open spec fn find_introducer(s: Seq<char>, i: int) -> Option<(int, int)>
    decreases s.len() - i,
{
    if i < 0 || i >= s.len() {
        None
    } else if let Some(from) = introducer_at(s, i) {
        Some((i, from))
    } else {
        find_introducer(s, i + 1)
    }
}

/// Where the inventory section lies in a document, in characters.
pub struct Located {
    /// The position of the `I` of the key.
    pub start: int,
    /// The position behind the opening brace.
    pub content_start: int,
    /// The position of the closing brace.
    pub close: int,
}

/// The section of the first introducer of `s`, closed by the brace that
/// matches its opening brace.
pub open spec fn locate_spec(s: Seq<char>) -> Result<Located, DemonaxError> {
    match find_introducer(s, 0) {
        None => Err(DemonaxError::SectionNotFound),
        Some((start, content_start)) => match closing_brace(s, content_start) {
            None => Err(DemonaxError::UnbalancedSection),
            Some(close) => Ok(Located { start, content_start, close }),
        },
    }
}

pub proof fn lemma_introducer_bounds(s: Seq<char>, i: int)
    requires
        0 <= i,
    ensures
        find_introducer(s, i) matches Some((start, from)) ==> i <= start < from <= s.len()
            && introducer_at(s, start) == Some(from),
    decreases s.len() - i,
{
    if i < s.len() {
        if introducer_at(s, i).is_some() {
            lemma_skip_spaces_bounds(s, i + introducer_key().len());
            lemma_skip_spaces_bounds(s, skip_spaces(s, i + introducer_key().len()) + 1);
        } else {
            lemma_introducer_bounds(s, i + 1);
        }
    }
}

/// A located section lies inside its document.
pub proof fn lemma_locate_bounds(s: Seq<char>)
    ensures
        locate_spec(s) matches Ok(at) ==> 0 <= at.start < at.content_start <= at.close < s.len()
            && s[at.close] == '}',
{
    lemma_introducer_bounds(s, 0);
    if let Some((start, from)) = find_introducer(s, 0) {
        lemma_closing_from_bounds(s, from, 1);
    }
}

/// What `splice` makes of a document, in bytes: the bytes before `start`,
/// the replacement, the bytes from `end` on.
pub open spec fn spliced_bytes(document: Seq<u8>, start: int, end: int, replacement: Seq<u8>) -> Seq<
    u8,
> {
    document.subrange(0, start) + replacement + document.subrange(end, document.len() as int)
}

/// `start..end` is a span of `document` that cuts no character.
pub open spec fn valid_span(document: Seq<u8>, start: int, end: int) -> bool {
    &&& 0 <= start <= end <= document.len()
    &&& is_char_boundary(document, start)
    &&& is_char_boundary(document, end)
}

/// Where the content of the section starts, if its introducer stands at `i`.
fn match_introducer(s: &[char], key: &[char], i: usize) -> (r: Option<usize>)
    requires
        i <= s@.len(),
        key@ == introducer_key(),
    ensures
        match r {
            Some(from) => introducer_at(s@, i as int) == Some(from as int) && from <= s@.len(),
            None => introducer_at(s@, i as int).is_none(),
        },
{
    let n: usize = s.len();
    if !starts_with_at(s, key, i) {
        return None;
    }
    let eq: usize = scan_spaces(s, i + key.len());
    if !(eq < n && s[eq] == '=') {
        return None;
    }
    let open: usize = scan_spaces(s, eq + 1);
    if !(open < n && s[open] == '{') {
        return None;
    }
    Some(open + 1)
}

/// Finds the inventory section of a player file: the first
/// `Inventory = {`, up to the brace that closes it. Returns the text between
/// the braces, the byte offset of the key and the byte offset behind the
/// closing brace.
pub fn extract_inventory_section(file_content: &str) -> (r: Result<
    (String, usize, usize),
    DemonaxError,
>)
    ensures
        match locate_spec(file_content@) {
            Err(e) => r == Err::<(String, usize, usize), DemonaxError>(e),
            Ok(at) => r matches Ok((content, start, end)) && content@ == file_content@.subrange(
                at.content_start,
                at.close,
            ) && start == byte_offset(file_content@, at.start) && end == byte_offset(
                file_content@,
                at.close + 1,
            ),
        },
{
    let chars = to_chars(file_content);
    let s = chars.as_slice();
    let key = to_chars("Inventory");
    let n: usize = s.len();
    let total: usize = file_content.as_bytes().len();
    let mut i: usize = 0;
    while i < n
        invariant
            i <= n,
            n == s@.len(),
            s@ == file_content@,
            key@ == introducer_key(),
            total == byte_len(s@),
            find_introducer(s@, 0) == find_introducer(s@, i as int),
        decreases n - i,
    {
        if let Some(from) = match_introducer(s, key.as_slice(), i) {
            return match find_closing(s, from) {
                None => Err(DemonaxError::UnbalancedSection),
                Some(close) => {
                    let content = file_content.substring_char(from, close);
                    let start = offset_of(s, i, total);
                    let end = offset_of(s, close + 1, total);
                    Ok((String::from_str(content), start, end))
                },
            };
        }
        i += 1;
    }
    Err(DemonaxError::SectionNotFound)
}

/// Replaces the bytes `start..end` of `document` by `replacement` and
/// leaves every other byte as it is. Fails where the span does not lie
/// inside the document or cuts a character.
pub fn splice(document: &str, start: usize, end: usize, replacement: &str) -> (r: Result<
    String,
    DemonaxError,
>)
    ensures
        match r {
            Ok(text) => valid_span(encode_utf8(document@), start as int, end as int)
                && encode_utf8(text@) == spliced_bytes(
                encode_utf8(document@),
                start as int,
                end as int,
                encode_utf8(replacement@),
            ),
            Err(e) => e == DemonaxError::SpanOutOfRange && !valid_span(
                encode_utf8(document@),
                start as int,
                end as int,
            ),
        },
{
    if start > end || end > document.as_bytes().len() || !document.is_char_boundary(start)
        || !document.is_char_boundary(end) {
        return Err(DemonaxError::SpanOutOfRange);
    }
    let (head, _) = document.split_at(start);
    let (_, tail) = document.split_at(end);
    let mut text = String::from_str(head);
    text.append(replacement);
    text.append(tail);
    proof {
        lemma_encode_concat(head@ + replacement@, tail@);
        lemma_encode_concat(head@, replacement@);
    }
    Ok(text)
}

/// Replaces the inventory section of a player file, wrapper included, by
/// `new_inventory`. Everything before the key and everything behind the
/// closing brace stays as it is.
pub fn replace_inventory_section(file_content: &str, new_inventory: &str) -> (r: Result<
    String,
    DemonaxError,
>)
    ensures
        match locate_spec(file_content@) {
            Err(e) => r == Err::<String, DemonaxError>(e),
            Ok(at) => r matches Ok(text) && text@ == file_content@.take(at.start) + new_inventory@
                + file_content@.skip(at.close + 1),
        },
{
    let (_, start, end) = match extract_inventory_section(file_content) {
        Ok(found) => found,
        Err(e) => {
            return Err(e);
        },
    };
    proof {
        let at = locate_spec(file_content@).unwrap();
        lemma_locate_bounds(file_content@);
        lemma_offset_is_boundary(file_content@, at.start);
        lemma_offset_is_boundary(file_content@, at.close + 1);
        lemma_encode_split(file_content@, at.start);
        lemma_encode_split(file_content@, at.close + 1);
        lemma_byte_offset_monotone(file_content@, at.start, at.close + 1);
    }
    match splice(file_content, start, end, new_inventory) {
        Ok(text) => {
            proof {
                let at = locate_spec(file_content@).unwrap();
                let head = file_content@.take(at.start);
                let tail = file_content@.skip(at.close + 1);
                lemma_encode_concat(head + new_inventory@, tail);
                lemma_encode_concat(head, new_inventory@);
                lemma_encode_injective(text@, head + new_inventory@ + tail);
            }
            Ok(text)
        },
        Err(e) => Err(e),
    }
}

/// A later position has no smaller byte offset.
pub proof fn lemma_byte_offset_monotone(s: Seq<char>, i: int, j: int)
    requires
        0 <= i <= j <= s.len(),
    ensures
        byte_offset(s, i) <= byte_offset(s, j),
{
    assert(s.take(j).take(i) =~= s.take(i));
    lemma_encode_split(s.take(j), i);
}

} // verus!
