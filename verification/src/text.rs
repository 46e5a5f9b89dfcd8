//! Small verified helpers for working with `String` values, together with
//! the trusted bridges between byte buffers, character vectors and strings.

use vstd::prelude::*;
use vstd::utf8::{decode_utf8, valid_utf8};

verus! {

/// The character sequence an asset-code byte buffer decodes to: its UTF-8
/// decoding when the bytes are valid UTF-8, and a fixed placeholder text
/// otherwise.
pub open spec fn decoded_or_placeholder(bytes: Seq<u8>) -> Seq<char> {
    if valid_utf8(bytes) {
        decode_utf8(bytes)
    } else {
        "Unreadable"@
    }
}

/// Compares two strings by content.
pub fn string_eq(a: &String, b: &String) -> (r: bool)
    ensures
        r == (a@ == b@),
{
    *a == *b
}

/// Builds an owned `String` from a string slice.
pub fn make_string(s: &str) -> (r: String)
    ensures
        r@ == s@,
{
    String::from_str(s)
}

/// Relies on `std::str::from_utf8`, whose acceptance and decoding agree
/// with the UTF-8 specification, and on `str::to_owned`: decodes the bytes
/// when they are valid UTF-8 and falls back to a placeholder otherwise.
#[verifier::external_body]
pub fn bytes_to_string(bytes: &Vec<u8>) -> (r: String)
    ensures
        r@ == decoded_or_placeholder(bytes@),
{
    match std::str::from_utf8(bytes) {
        Ok(s) => s.to_owned(),
        Err(_) => "Unreadable".to_owned(),
    }
}

/// Relies on `str::chars`, which yields the string's characters in order.
#[verifier::external_body]
pub fn string_chars(s: &String) -> (r: Vec<char>)
    ensures
        r@ == s@,
{
    s.chars().collect()
}

/// Relies on `String::from_iter` over `char`, which concatenates the
/// characters in order.
#[verifier::external_body]
pub fn chars_to_string(chars: &Vec<char>) -> (r: String)
    ensures
        r@ == chars@,
{
    chars.iter().collect()
}

} // verus!
