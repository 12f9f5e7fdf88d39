//! What this crate takes on trust of the text functions of `std` that
//! `vstd` does not specify.

use vstd::prelude::*;

verus! {

/// Whether `c` has the Unicode property `White_Space`. The property is laid
/// down in the Unicode Character Database, to which the documentation of
/// `char::is_whitespace` refers without listing its members.
pub uninterp spec fn is_space(c: char) -> bool;

/// `char::is_whitespace` says whether the character has the Unicode property
/// `White_Space`, by which `str::trim` goes too.
pub assume_specification[ char::is_whitespace ](c: char) -> (space: bool)
    ensures
        space == is_space(c),
;

/// The upper case of `s` under the Unicode case mapping.
pub uninterp spec fn uppercase(s: Seq<char>) -> Seq<char>;

/// The upper case of `s`, through `str::to_uppercase`: what comes back
/// depends on the characters of `s` alone.
#[verifier::external_body]
pub(crate) fn to_upper(s: &str) -> (upper: String)
    ensures
        upper@ == uppercase(s@),
{
    s.to_uppercase()
}

/// `String::push` appends the character to the end of the string.
pub assume_specification[ String::push ](s: &mut String, c: char)
    ensures
        final(s)@ == old(s)@.push(c),
;

} // verus!
