//! Collation of tag names (Unicode collation, numeric, secondary strength).
use vstd::prelude::*;

verus! {

/// How `a` collates against `b` under the root-locale collator with
/// secondary strength and numeric ordering: `-1` before, `0` equal, `1` after.
pub uninterp spec fn collation_order(a: Seq<char>, b: Seq<char>) -> int;

/// Collates `a` against `b` with `icu::collator::Collator::compare`, for a
/// collator built by `Collator::try_new` for the default (root) locale with
/// strength `Secondary` and numeric ordering on. The contract claims only
/// that the answer is the one named `collation_order` for these two strings
/// (the collator reads no other input: no locale of the machine, no time)
/// and that it is one of the three orderings.
#[verifier::external_body]
pub(crate) fn collate(a: &str, b: &str) -> (r: i8)
    ensures
        r == collation_order(a@, b@),
        -1 <= r <= 1,
{
    let mut options = icu::collator::CollatorOptions::new();
    options.strength = Some(icu::collator::Strength::Secondary);
    options.numeric = Some(icu::collator::Numeric::On);
    let collator = icu::collator::Collator::try_new(&Default::default(), options).unwrap();
    match collator.compare(a, b) {
        std::cmp::Ordering::Less => -1,
        std::cmp::Ordering::Equal => 0,
        std::cmp::Ordering::Greater => 1,
    }
}

} // verus!
