//! Case folding, delegated to the standard library.

use vstd::prelude::*;

verus! {

/// The lower-cased form of a character sequence: the sequence of characters
/// that `str::to_lowercase` produces for a string with those characters.
pub uninterp spec fn lower_of(s: Seq<char>) -> Seq<char>;

/// Relies on `str::to_lowercase`: its result is a function of the
/// characters of `s` alone, and lower-casing the empty string yields
/// the empty string.
#[verifier::external_body]
pub(crate) fn to_lowercase_string(s: &str) -> (r: String)
    ensures
        r@ == lower_of(s@),
        s@.len() == 0 ==> r@.len() == 0,
{
    s.to_lowercase()
}

} // verus!
