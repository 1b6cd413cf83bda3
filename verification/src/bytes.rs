//! Byte strings that are borrowed from a buffer or owned.
//!
//! An event parsed from a buffer borrows its handles and names, so parsing
//! copies nothing; one built by hand owns them.  `Cow` holds either, and its view
//! is the bytes themselves.
use std::borrow::Cow;
use vstd::prelude::*;
use vstd::utf8::{decode_utf8, valid_utf8};

use crate::wire::{same_bytes, to_bytes};

verus! {

/// The bytes of an optional byte string.
pub open spec fn opt_bytes(bytes: Option<Cow<'_, [u8]>>) -> Option<Seq<u8>> {
    match bytes {
        Some(bytes) => Some(bytes@),
        None => None,
    }
}

/// The bytes of an optional owned byte string.
pub open spec fn opt_vec(bytes: Option<Vec<u8>>) -> Option<Seq<u8>> {
    match bytes {
        Some(bytes) => Some(bytes@),
        None => None,
    }
}

/// The bytes of an optional slice.
pub open spec fn opt_slice(bytes: Option<&[u8]>) -> Option<Seq<u8>> {
    match bytes {
        Some(bytes) => Some(bytes@),
        None => None,
    }
}

/// Whether an optional byte string is a borrow, if it is there.
pub open spec fn opt_borrowed(bytes: Option<Cow<'_, [u8]>>) -> bool {
    bytes matches Some(bytes) ==> bytes is Borrowed
}

/// Whether an optional byte string is owned, if it is there.
pub open spec fn opt_owned(bytes: Option<Cow<'_, [u8]>>) -> bool {
    bytes matches Some(bytes) ==> bytes is Owned
}

/// Borrow the bytes.
pub fn as_bytes<'a>(bytes: &'a Cow<'_, [u8]>) -> (r: &'a [u8])
    ensures
        r@ == bytes@,
{
    match bytes {
        Cow::Borrowed(borrowed) => borrowed,
        Cow::Owned(owned) => owned.as_slice(),
    }
}

/// Take the bytes, copying them only if they were borrowed.
pub fn into_vec(bytes: Cow<'_, [u8]>) -> (r: Vec<u8>)
    ensures
        r@ == bytes@,
{
    match bytes {
        Cow::Borrowed(borrowed) => to_bytes(borrowed),
        Cow::Owned(owned) => owned,
    }
}

/// The same bytes, no longer tied to a buffer.
pub fn into_static(bytes: Cow<'_, [u8]>) -> (r: Cow<'static, [u8]>)
    ensures
        r@ == bytes@,
        r is Owned,
{
    Cow::Owned(into_vec(bytes))
}

/// The same optional bytes, no longer tied to a buffer.
pub fn opt_into_static(bytes: Option<Cow<'_, [u8]>>) -> (r: Option<Cow<'static, [u8]>>)
    ensures
        opt_bytes(r) == opt_bytes(bytes),
        opt_owned(r),
{
    match bytes {
        Some(bytes) => Some(into_static(bytes)),
        None => None,
    }
}

/// A second byte string with the same bytes: a borrow stays one.
pub fn duplicate<'a>(bytes: &Cow<'a, [u8]>) -> (r: Cow<'a, [u8]>)
    ensures
        r@ == bytes@,
        r is Borrowed == bytes is Borrowed,
{
    match bytes {
        Cow::Borrowed(borrowed) => Cow::Borrowed(*borrowed),
        Cow::Owned(owned) => Cow::Owned(to_bytes(owned.as_slice())),
    }
}

/// A second optional byte string with the same bytes.
pub fn opt_duplicate<'a>(bytes: &Option<Cow<'a, [u8]>>) -> (r: Option<Cow<'a, [u8]>>)
    ensures
        opt_bytes(r) == opt_bytes(*bytes),
        opt_borrowed(r) == opt_borrowed(*bytes),
        opt_owned(r) == opt_owned(*bytes),
{
    match bytes {
        Some(bytes) => Some(duplicate(bytes)),
        None => None,
    }
}

/// Whether two optional byte strings hold the same bytes.
pub fn opt_same(a: &Option<Cow<'_, [u8]>>, b: &Option<Cow<'_, [u8]>>) -> (r: bool)
    ensures
        r == (opt_bytes(*a) == opt_bytes(*b)),
{
    match (a, b) {
        (Some(x), Some(y)) => same_bytes(as_bytes(x), as_bytes(y)),
        (None, None) => true,
        _ => false,
    }
}

/// Borrow optional bytes.
pub fn opt_as_bytes<'a>(bytes: &'a Option<Cow<'_, [u8]>>) -> (r: Option<&'a [u8]>)
    ensures
        opt_slice(r) == opt_bytes(*bytes),
{
    match bytes {
        Some(bytes) => Some(as_bytes(bytes)),
        None => None,
    }
}

/// `std::str::from_utf8`, with its error dropped: the bytes as text if they are
/// well-formed UTF-8, and `None` if they are not.
#[verifier::external_body]
pub(crate) fn text_of<'a>(bytes: &'a [u8]) -> (r: Option<&'a str>)
    ensures
        r is Some <==> valid_utf8(bytes@),
        r matches Some(text) ==> text@ == decode_utf8(bytes@),
{
    std::str::from_utf8(bytes).ok()
}

/// The text that `String::from_utf8_lossy` makes of bytes that are not UTF-8.
pub uninterp spec fn lossy_text(bytes: Seq<u8>) -> Seq<char>;

/// `String::from_utf8_lossy`: well-formed UTF-8 as the text it encodes.  Of other
/// bytes it puts U+FFFD in place of what is ill-formed; how many of them is left
/// unsaid, and the text has a name.
#[verifier::external_body]
pub(crate) fn lossy_text_of(bytes: &[u8]) -> (r: String)
    ensures
        valid_utf8(bytes@) ==> r@ == decode_utf8(bytes@),
        !valid_utf8(bytes@) ==> r@ == lossy_text(bytes@),
{
    String::from_utf8_lossy(bytes).into_owned()
}

/// The text that stands for a name: what it encodes, or else what a lossy
/// decoding makes of it.
pub open spec fn name_text(bytes: Seq<u8>) -> Seq<char> {
    if valid_utf8(bytes) {
        decode_utf8(bytes)
    } else {
        lossy_text(bytes)
    }
}

/// The text that bytes hold, if they are UTF-8.
pub open spec fn utf8_text(bytes: Seq<u8>) -> Option<Seq<char>> {
    if valid_utf8(bytes) {
        Some(decode_utf8(bytes))
    } else {
        None
    }
}

/// The characters of an optional string slice.
pub open spec fn opt_text(text: Option<&str>) -> Option<Seq<char>> {
    match text {
        Some(text) => Some(text@),
        None => None,
    }
}

/// Bytes are text exactly if they are UTF-8, and then they are the text that they
/// encode, for a record and for an event alike.
pub proof fn utf8_is_read_as_it_stands(bytes: Seq<u8>)
    ensures
        utf8_text(bytes) is Some <==> valid_utf8(bytes),
        valid_utf8(bytes) ==> utf8_text(bytes) == Some(decode_utf8(bytes)) && name_text(bytes)
            == decode_utf8(bytes),
        !valid_utf8(bytes) ==> name_text(bytes) == lossy_text(bytes),
{
}

/// What is there is taken by its bytes, and what is not there is not.
pub proof fn what_is_there_is_taken_by_its_bytes(
    borrowed: &[u8],
    owned: Vec<u8>,
    either: Cow<'_, [u8]>,
    text: &str,
)
    ensures
        opt_slice(Some(borrowed)) == Some(borrowed@),
        opt_vec(Some(owned)) == Some(owned@),
        opt_bytes(Some(either)) == Some(either@),
        opt_text(Some(text)) == Some(text@),
        opt_slice(None) is None,
        opt_vec(None) is None,
        opt_bytes(None) is None,
        opt_text(None) is None,
{
}

} // verus!
