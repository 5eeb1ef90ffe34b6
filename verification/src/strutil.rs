//! The one step of string handling the verifier cannot see through:
//! building an owned `String` from UTF-8 bytes.

use vstd::prelude::*;
use vstd::utf8::{valid_utf8, decode_utf8};

verus! {

/// Relies on `String::from_utf8`: it returns `Ok` exactly when the bytes
/// are valid UTF-8, and the resulting string's characters are the decoding
/// of those bytes.
#[verifier::external_body]
pub(crate) fn string_from_utf8(v: Vec<u8>) -> (r: Option<String>)
    ensures
        r is Some ==> valid_utf8(v@) && r->0@ == decode_utf8(v@),
        r is None ==> !valid_utf8(v@),
{
    String::from_utf8(v).ok()
}


/// The decimal rendering of a signed 64-bit value.
pub uninterp spec fn decimal_i64(v: i64) -> Seq<char>;

/// Relies on std's decimal `Display` formatting of `i64` (via `format!`):
/// the rendering depends on the value alone.
#[verifier::external_body]
pub(crate) fn i64_to_string(v: i64) -> (r: String)
    ensures
        r@ == decimal_i64(v),
{
    format!("{}", v)
}

/// The decimal rendering of an unsigned 64-bit value.
pub uninterp spec fn decimal_u64(v: u64) -> Seq<char>;

/// Relies on std's decimal `Display` formatting of `u64` (via `format!`):
/// the rendering depends on the value alone.
#[verifier::external_body]
pub(crate) fn u64_to_string(v: u64) -> (r: String)
    ensures
        r@ == decimal_u64(v),
{
    format!("{}", v)
}

} // verus!
