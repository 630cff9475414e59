//! Player files are kept in a single-byte legacy code page, Windows-1252.
//! The conversion itself is the work of the `encoding_rs` crate.

use crate::error::DemonaxError;
use crate::offsets::byte_len;
use vstd::prelude::*;

verus! {

/// The text that `encoding_rs` decodes `bytes` to as Windows-1252, a byte
/// order mark at the start taken into account; `None` where it reports a
/// malformed sequence.
pub uninterp spec fn windows_1252_decoded(bytes: Seq<u8>) -> Option<Seq<char>>;

/// The bytes that `encoding_rs` encodes `text` to as Windows-1252; `None`
/// where it reports a character that the code page lacks.
pub uninterp spec fn windows_1252_encoded(text: Seq<char>) -> Option<Seq<u8>>;

/// The most bytes that are handed to the decoder, which sizes its buffer at
/// three times the input and panics where that size overflows.
pub open spec fn decode_limit() -> int {
    (usize::MAX / 8) as int
}

/// The most bytes of text that are handed to the encoder, which writes up
/// to ten bytes for a character, rounds its buffer up to a power of two and
/// panics where that size overflows.
pub open spec fn encode_limit() -> int {
    (usize::MAX / 64) as int
}

pub open spec fn text_view(o: Option<String>) -> Option<Seq<char>> {
    match o {
        Some(s) => Some(s@),
        None => None,
    }
}

pub open spec fn bytes_view(o: Option<Vec<u8>>) -> Option<Seq<u8>> {
    match o {
        Some(b) => Some(b@),
        None => None,
    }
}

/// Calls `encoding_rs::WINDOWS_1252.decode` and keeps the text unless the
/// call reports errors. The contract gives the outcome its name; the size
/// bound keeps the call clear of the overflow that it panics on.
#[verifier::external_body]
fn decode_windows_1252(bytes: &[u8]) -> (r: Option<String>)
    requires
        bytes@.len() <= decode_limit(),
    ensures
        text_view(r) == windows_1252_decoded(bytes@),
{
    let (text, _, had_errors) = encoding_rs::WINDOWS_1252.decode(bytes);
    if had_errors {
        None
    } else {
        Some(text.into_owned())
    }
}

/// Calls `encoding_rs::WINDOWS_1252.encode` and keeps the bytes unless the
/// call reports errors. The contract gives the outcome its name; the size
/// bound keeps the call clear of the overflow that it panics on.
#[verifier::external_body]
fn encode_windows_1252(text: &str) -> (r: Option<Vec<u8>>)
    requires
        byte_len(text@) <= encode_limit(),
    ensures
        bytes_view(r) == windows_1252_encoded(text@),
{
    let (bytes, _, had_errors) = encoding_rs::WINDOWS_1252.encode(text);
    if had_errors {
        None
    } else {
        Some(bytes.into_owned())
    }
}

/// What decoding gives for bytes whose decoded form is `decoded`.
pub open spec fn decode_outcome(len: nat, decoded: Option<Seq<char>>) -> Result<
    Seq<char>,
    DemonaxError,
> {
    if len > decode_limit() {
        Err(DemonaxError::TooLarge)
    } else {
        match decoded {
            Some(text) => Ok(text),
            None => Err(DemonaxError::Undecodable),
        }
    }
}

/// What encoding gives for a text whose encoded form is `encoded`.
pub open spec fn encode_outcome(len: nat, encoded: Option<Seq<u8>>) -> Result<
    Seq<u8>,
    DemonaxError,
> {
    if len > encode_limit() {
        Err(DemonaxError::TooLarge)
    } else {
        match encoded {
            Some(bytes) => Ok(bytes),
            None => Err(DemonaxError::Unencodable),
        }
    }
}

pub open spec fn text_result(r: Result<String, DemonaxError>) -> Result<Seq<char>, DemonaxError> {
    match r {
        Ok(s) => Ok(s@),
        Err(e) => Err(e),
    }
}

pub open spec fn bytes_result(r: Result<Vec<u8>, DemonaxError>) -> Result<Seq<u8>, DemonaxError> {
    match r {
        Ok(b) => Ok(b@),
        Err(e) => Err(e),
    }
}

/// The text of a player file, from its bytes.
pub fn decode_latin1(bytes: &[u8]) -> (r: Result<String, DemonaxError>)
    ensures
        text_result(r) == decode_outcome(bytes@.len(), windows_1252_decoded(bytes@)),
{
    if bytes.len() > usize::MAX / 8 {
        return Err(DemonaxError::TooLarge);
    }
    match decode_windows_1252(bytes) {
        Some(text) => Ok(text),
        None => Err(DemonaxError::Undecodable),
    }
}

/// The bytes of a player file, from its text.
pub fn encode_latin1(text: &str) -> (r: Result<Vec<u8>, DemonaxError>)
    ensures
        bytes_result(r) == encode_outcome(byte_len(text@), windows_1252_encoded(text@)),
{
    if text.as_bytes().len() > usize::MAX / 64 {
        return Err(DemonaxError::TooLarge);
    }
    match encode_windows_1252(text) {
        Some(bytes) => Ok(bytes),
        None => Err(DemonaxError::Unencodable),
    }
}

} // verus!
