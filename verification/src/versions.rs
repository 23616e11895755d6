//! Comparison of free-form version strings (`version_compare`).
use vstd::prelude::*;

verus! {

/// Whether `version_compare::Version::from` accepts `v` (it refuses a string
/// whose parts hold no number).
pub uninterp spec fn version_parses(v: Seq<char>) -> bool;

/// Whether version `a` is greater than version `b` by
/// `version_compare::Version::compare_to` with `Cmp::Gt`.
pub uninterp spec fn version_greater(a: Seq<char>, b: Seq<char>) -> bool;

/// Parses `a` and `b` with `version_compare::Version::from` and, when both
/// parse, tells whether `a` is greater (`compare_to(&b, Cmp::Gt)`). The
/// contract claims that the answer is `None` exactly when one of them does not
/// parse, and otherwise the one named `version_greater` for these strings;
/// it says nothing of how versions are ordered.
#[verifier::external_body]
pub(crate) fn version_is_greater(a: &str, b: &str) -> (r: Option<bool>)
    ensures
        r is Some <==> (version_parses(a@) && version_parses(b@)),
        r matches Some(g) ==> g == version_greater(a@, b@),
{
    match (version_compare::Version::from(a), version_compare::Version::from(b)) {
        (Some(x), Some(y)) => Some(x.compare_to(&y, version_compare::Cmp::Gt)),
        _ => None,
    }
}

} // verus!
