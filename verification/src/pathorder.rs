//! How the standard library orders two paths.

use std::cmp::Ordering;
use std::path::Path;
use vstd::prelude::*;

verus! {

/// How the path `a` stands to the path `b` when the two are compared
/// component by component: `-1` where `a` comes first, `0` where neither
/// does, `1` where `b` comes first.
pub uninterp spec fn path_order(a: Seq<char>, b: Seq<char>) -> int;

/// Compares two paths with `Path::cmp`. The outcome depends on the two
/// texts alone; the contract names it, with the three outcomes told apart
/// as `-1`, `0` and `1`.
#[verifier::external_body]
pub(crate) fn compare_paths(a: &str, b: &str) -> (r: i8)
    ensures
        r == path_order(a@, b@),
        -1 <= r <= 1,
{
    match Path::new(a).cmp(Path::new(b)) {
        Ordering::Less => -1,
        Ordering::Equal => 0,
        Ordering::Greater => 1,
    }
}

} // verus!
