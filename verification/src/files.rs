//! From the bytes of a file to an entry: whether the file fits the limit,
//! whether its bytes are text, and what the text stands for.

use crate::entry::Entry;
use crate::grammar::{parse_text, reads_back, EntryView, ParseError};
use crate::parser::parse;
use vstd::prelude::*;
use vstd::string::StringSliceAdditionalSpecFns;
use vstd::utf8::{decode_utf8, encode_utf8_decode_utf8, valid_utf8};

verus! {

/// Why the bytes of a file give no entry.
#[derive(Debug, Clone, Copy, PartialEq, Eq)]
pub enum LoadError {
    /// The file is as long as the limit or longer.
    TooLong,
    /// The bytes are not UTF-8.
    NotUtf8,
    /// The text is no entry.
    Parse(ParseError),
}

/// `core::str::from_utf8`: the string slice over the bytes, where they are
/// valid UTF-8, and nothing where they are not.
#[verifier::external_body]
fn utf8_text(bytes: &[u8]) -> (text: Option<&str>)
    ensures
        text is Some <==> valid_utf8(bytes@),
        text is Some ==> text->0.spec_bytes() == bytes@,
{
    core::str::from_utf8(bytes).ok()
}

/// The text of a file that was read into a buffer of `max_length` bytes and
/// gave `bytes`. A file that filled the buffer counts as too long.
pub fn bounded_text(bytes: &[u8], max_length: usize) -> (r: Result<&str, LoadError>)
    ensures
        match r {
            Ok(text) => bytes@.len() < max_length && valid_utf8(bytes@) && text@ == decode_utf8(
                bytes@,
            ),
            Err(LoadError::TooLong) => bytes@.len() >= max_length,
            Err(LoadError::NotUtf8) => bytes@.len() < max_length && !valid_utf8(bytes@),
            Err(LoadError::Parse(_)) => false,
        },
{
    if bytes.len() >= max_length {
        return Err(LoadError::TooLong);
    }
    match utf8_text(bytes) {
        Some(text) => {
            proof {
                encode_utf8_decode_utf8(text@);
            }
            Ok(text)
        },
        None => Err(LoadError::NotUtf8),
    }
}

/// The entry that the bytes of a file stand for, where the file was read
/// into a buffer of `max_size` bytes.
pub fn entry_from_bytes(bytes: &[u8], max_size: usize) -> (r: Result<Entry, LoadError>)
    ensures
        match r {
            Ok(e) => {
                &&& bytes@.len() < max_size
                &&& valid_utf8(bytes@)
                &&& parse_text(decode_utf8(bytes@)) == Ok::<EntryView, ParseError>(e@)
                &&& reads_back(e@)
            },
            Err(LoadError::TooLong) => bytes@.len() >= max_size,
            Err(LoadError::NotUtf8) => bytes@.len() < max_size && !valid_utf8(bytes@),
            Err(LoadError::Parse(err)) => {
                &&& bytes@.len() < max_size
                &&& valid_utf8(bytes@)
                &&& parse_text(decode_utf8(bytes@)) == Err::<EntryView, ParseError>(err)
            },
        },
{
    let text = match bounded_text(bytes, max_size) {
        Ok(text) => text,
        Err(err) => {
            return Err(err);
        },
    };
    match parse(text) {
        Ok(e) => Ok(e),
        Err(err) => Err(LoadError::Parse(err)),
    }
}

} // verus!
