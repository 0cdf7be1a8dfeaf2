//! Compact human-readable rendering of large counts for axis tick labels.

use human_repr::HumanCount;
use vstd::prelude::*;

verus! {

/// What human_repr's bare count formatter prints for an integer count.
pub uninterp spec fn human_count_of(n: int) -> Seq<char>;

/// Relies on human_repr's HumanCount::human_count_bare: it compacts an
/// integer into a short magnitude label such as `21.1M`, and the result
/// depends on the count alone.
#[verifier::external_body]
pub(crate) fn human_count(n: i64) -> (r: String)
    ensures
        r@ == human_count_of(n as int),
{
    n.human_count_bare().to_string()
}

} // verus!
