//! Case operations that lean on the standard library's Unicode tables.
//! The results are given names here; everything downstream is stated
//! over those names.

use vstd::prelude::*;

verus! {

/// The Unicode lowercasing of `s`, as `str::to_lowercase` computes it.
/// It depends on the characters of `s` alone.
pub uninterp spec fn lower_of(s: Seq<char>) -> Seq<char>;

/// Whether `c` has the Unicode `Uppercase` property, as
/// `char::is_uppercase` reports it.
pub uninterp spec fn is_upper_of(c: char) -> bool;

/// Relies on `str::to_lowercase`: the result is a function of the
/// characters alone, and an empty string lowercases to itself.
#[verifier::external_body]
pub fn lowercase(s: &str) -> (r: String)
    ensures
        r@ == lower_of(s@),
        s@.len() == 0 ==> r@.len() == 0,
{
    s.to_lowercase()
}

/// Relies on `char::is_uppercase`: ASCII letters `A`-`Z` are uppercase
/// and ASCII letters `a`-`z` are not, per the documented Unicode
/// `Uppercase` property.
#[verifier::external_body]
pub fn char_is_uppercase(c: char) -> (r: bool)
    ensures
        r == is_upper_of(c),
        'A' as u32 <= c as u32 && c as u32 <= 'Z' as u32 ==> r,
        'a' as u32 <= c as u32 && c as u32 <= 'z' as u32 ==> !r,
{
    c.is_uppercase()
}

} // verus!
