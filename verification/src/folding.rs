//! Case folding, as the standard library performs it.

use vstd::prelude::*;

verus! {

/// The lowercase form of a text, as `str::to_lowercase` computes it.
///
/// The mapping follows the Unicode character database and is not spelled
/// out here; it is a function of the text alone.
pub uninterp spec fn lowercase_of(text: Seq<char>) -> Seq<char>;

/// Calls `str::to_lowercase`.
///
/// Unverified: the contract gives the returned string the name
/// [`lowercase_of`] applied to the argument, and claims nothing else of it.
#[verifier::external_body]
pub(crate) fn lowercase(text: &str) -> (folded: String)
    ensures
        folded@ == lowercase_of(text@),
{
    text.to_lowercase()
}

} // verus!
