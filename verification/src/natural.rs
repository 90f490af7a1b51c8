//! The natural order of names, as the `natord` crate compares them.
use vstd::prelude::*;
use std::cmp::Ordering;

verus! {

/// How `natord::compare` orders `a` against `b`: below zero when `a` comes
/// first, zero when they tie, above zero when `b` comes first.
pub uninterp spec fn natural_order(a: Seq<char>, b: Seq<char>) -> i8;

/// `natord::compare`: compares two strings case-sensitively, skipping
/// whitespace and reading each run of decimal digits as one number. Its
/// result is named here, a function of the two strings alone; nothing is
/// stated of the order it gives (not even that it is total).
#[verifier::external_body]
pub(crate) fn natural_compare(a: &str, b: &str) -> (r: i8)
    ensures
        r == natural_order(a@, b@),
{
    match natord::compare(a, b) {
        Ordering::Less => -1,
        Ordering::Equal => 0,
        Ordering::Greater => 1,
    }
}

} // verus!
