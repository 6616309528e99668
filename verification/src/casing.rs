//! Case-folding strategies: the normalization applied to the query and to
//! every candidate window before the containment test.

use vstd::prelude::*;
use vstd::string::StringExecFns;

verus! {

/// The two folding strategies: the identity for case-sensitive search,
/// lowercasing for case-insensitive search.
#[derive(Clone, Copy, Debug, PartialEq, Eq, Structural)]
pub enum CaseFold {
    Sensitive,
    Insensitive,
}

/// The character sequence that lowercasing produces for `s`.
pub uninterp spec fn lower_of(s: Seq<char>) -> Seq<char>;

/// Relies on str::to_lowercase: the result is a function of the input
/// characters alone, and an empty string stays empty.
#[verifier::external_body]
pub(crate) fn lowercase(s: &str) -> (r: String)
    ensures
        r@ == lower_of(s@),
        s@.len() == 0 ==> r@.len() == 0,
{
    s.to_lowercase()
}

/// What a folding strategy does to a sequence of characters.
pub open spec fn fold_spec(fold: CaseFold, s: Seq<char>) -> Seq<char> {
    match fold {
        CaseFold::Sensitive => s,
        CaseFold::Insensitive => lower_of(s),
    }
}

/// Applies a folding strategy to a string.
pub fn apply_fold(fold: CaseFold, s: &str) -> (r: String)
    ensures
        r@ == fold_spec(fold, s@),
        s@.len() == 0 ==> r@.len() == 0,
{
    match fold {
        CaseFold::Sensitive => String::from_str(s),
        CaseFold::Insensitive => lowercase(s),
    }
}

} // verus!
