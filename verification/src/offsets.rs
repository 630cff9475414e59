//! Byte offsets of positions in text: a document is addressed by
//! characters while it is read and by bytes when a span of it is replaced.

use vstd::prelude::*;
use vstd::utf8::{
    encode_scalar, encode_utf8, encode_utf8_decode_utf8, encode_utf8_first_scalar,
    encode_utf8_valid_utf8, is_char_boundary, length_of_first_scalar, pop_first_scalar,
};

verus! {

/// The number of bytes that `s` takes in UTF-8.
pub open spec fn byte_len(s: Seq<char>) -> nat {
    encode_utf8(s).len()
}

/// The byte offset of the character position `k` of `s`.
pub open spec fn byte_offset(s: Seq<char>, k: int) -> nat {
    byte_len(s.take(k))
}

/// The bytes of a concatenation are the bytes of its parts.
pub proof fn lemma_encode_concat(a: Seq<char>, b: Seq<char>)
    ensures
        encode_utf8(a + b) == encode_utf8(a) + encode_utf8(b),
    decreases a.len(),
{
    if a.len() == 0 {
        assert(a + b =~= b);
        assert(encode_utf8(a) + encode_utf8(b) =~= encode_utf8(b));
    } else {
        assert((a + b).drop_first() =~= a.drop_first() + b);
        lemma_encode_concat(a.drop_first(), b);
        assert(encode_utf8(a + b) =~= encode_utf8(a) + encode_utf8(b));
    }
}

/// Every character takes between one and four bytes.
pub proof fn lemma_scalar_width(c: char)
    ensures
        1 <= encode_scalar(c as u32).len() <= 4,
{
}

/// The bytes of `s` split at the byte offset of `k` into the bytes of the
/// first `k` characters and the bytes of the rest.
pub proof fn lemma_encode_split(s: Seq<char>, k: int)
    requires
        0 <= k <= s.len(),
    ensures
        byte_offset(s, k) <= byte_len(s),
        encode_utf8(s).subrange(0, byte_offset(s, k) as int) == encode_utf8(s.take(k)),
        encode_utf8(s).subrange(byte_offset(s, k) as int, byte_len(s) as int) == encode_utf8(
            s.skip(k),
        ),
{
    assert(s.take(k) + s.skip(k) =~= s);
    lemma_encode_concat(s.take(k), s.skip(k));
    let head = encode_utf8(s.take(k));
    let tail = encode_utf8(s.skip(k));
    assert((head + tail).subrange(0, head.len() as int) =~= head);
    assert((head + tail).subrange(head.len() as int, (head + tail).len() as int) =~= tail);
}

/// One character further on, the offset has grown by that character's bytes.
pub proof fn lemma_byte_offset_step(s: Seq<char>, k: int)
    requires
        0 <= k < s.len(),
    ensures
        byte_offset(s, k + 1) == byte_offset(s, k) + encode_scalar(s[k] as u32).len(),
        byte_offset(s, k + 1) <= byte_len(s),
{
    assert(s.take(k + 1) =~= s.take(k) + seq![s[k]]);
    lemma_encode_concat(s.take(k), seq![s[k]]);
    assert(seq![s[k]].drop_first() =~= Seq::<char>::empty());
    assert(encode_utf8(seq![s[k]]) =~= encode_scalar(s[k] as u32)) by {
        reveal_with_fuel(encode_utf8, 2);
    }
    lemma_encode_split(s, k + 1);
}

/// The byte offset of a character position is a character boundary.
pub proof fn lemma_offset_is_boundary(s: Seq<char>, k: int)
    requires
        0 <= k <= s.len(),
    ensures
        is_char_boundary(encode_utf8(s), byte_offset(s, k) as int),
    decreases k,
{
    let bytes = encode_utf8(s);
    encode_utf8_valid_utf8(s);
    if k == 0 {
        assert(s.take(0) =~= Seq::<char>::empty());
    } else {
        encode_utf8_first_scalar(s);
        lemma_scalar_width(s[0]);
        let first = encode_scalar(s[0] as u32);
        assert(pop_first_scalar(bytes) =~= encode_utf8(s.drop_first()));
        assert(s.take(k) =~= seq![s[0]] + s.drop_first().take(k - 1));
        lemma_encode_concat(seq![s[0]], s.drop_first().take(k - 1));
        assert(seq![s[0]].drop_first() =~= Seq::<char>::empty());
        assert(encode_utf8(seq![s[0]]) =~= first) by {
            reveal_with_fuel(encode_utf8, 2);
        }
        lemma_encode_split(s, k);
        lemma_offset_is_boundary(s.drop_first(), k - 1);
        assert(byte_offset(s, k) - length_of_first_scalar(bytes) == byte_offset(
            s.drop_first(),
            k - 1,
        ));
    }
}

/// Texts with the same bytes are the same text.
pub proof fn lemma_encode_injective(a: Seq<char>, b: Seq<char>)
    requires
        encode_utf8(a) == encode_utf8(b),
    ensures
        a == b,
{
    encode_utf8_decode_utf8(a);
    encode_utf8_decode_utf8(b);
}

/// The number of bytes that `c` takes in UTF-8.
pub(crate) fn utf8_width(c: char) -> (w: usize)
    ensures
        w == encode_scalar(c as u32).len(),
        1 <= w <= 4,
{
    let u: u32 = c as u32;
    if u < 0x80 {
        1
    } else if u < 0x800 {
        2
    } else if u < 0x10000 {
        3
    } else {
        4
    }
}

/// The byte offset of the character position `k`, `total` being the number
/// of bytes of the whole text.
pub(crate) fn offset_of(s: &[char], k: usize, total: usize) -> (r: usize)
    requires
        k <= s@.len(),
        total == byte_len(s@),
    ensures
        r == byte_offset(s@, k as int),
        r <= total,
{
    let mut at: usize = 0;
    let mut i: usize = 0;
    assert(s@.take(0) =~= Seq::<char>::empty());
    while i < k
        invariant
            i <= k <= s@.len(),
            total == byte_len(s@),
            at == byte_offset(s@, i as int),
        decreases k - i,
    {
        proof {
            lemma_byte_offset_step(s@, i as int);
        }
        at += utf8_width(s[i]);
        i += 1;
    }
    proof {
        lemma_encode_split(s@, k as int);
    }
    at
}

} // verus!
