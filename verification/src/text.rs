//! Text primitives that the standard library provides and the rest of the crate builds on.

use vstd::prelude::*;

verus! {

/// Appends one character to `s`.
///
/// Stands for `String::push`; the contract is that method's documented effect.
#[verifier::external_body]
pub(crate) fn push_char(s: &mut String, c: char)
    ensures
        final(s)@ == old(s)@.push(c),
{
    s.push(c)
}

/// The lower-case form of a text, as Unicode defines it.
pub uninterp spec fn lowercase_of(s: Seq<char>) -> Seq<char>;

/// Lower-cases `s`.
///
/// Stands for `str::to_lowercase`. The result depends on the characters of `s`
/// alone; which characters it holds is Unicode's business and is not spelled
/// out here.
#[verifier::external_body]
pub(crate) fn to_lowercase(s: &str) -> (res: String)
    ensures
        res@ == lowercase_of(s@),
{
    s.to_lowercase()
}

} // verus!
