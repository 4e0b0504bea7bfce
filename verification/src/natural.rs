//! The order in which a person reads names: `2.png` before `10.png`.

use vstd::prelude::*;

verus! {

/// How one name stands to another.
#[derive(Clone, Copy, Debug, PartialEq, Eq, Structural)]
pub enum Order {
    Less,
    Equal,
    Greater,
}

/// What `natord::compare` says of two texts: it skips white space and
/// compares runs of decimal digits as numbers.
pub uninterp spec fn natural_order(a: Seq<char>, b: Seq<char>) -> Order;

/// Compares two texts by `natord::compare`. The answer depends on the two
/// texts alone; nothing more is claimed of it.
#[verifier::external_body]
pub(crate) fn compare_naturally(a: &str, b: &str) -> (order: Order)
    ensures
        order == natural_order(a@, b@),
{
    match natord::compare(a, b) {
        std::cmp::Ordering::Less => Order::Less,
        std::cmp::Ordering::Equal => Order::Equal,
        std::cmp::Ordering::Greater => Order::Greater,
    }
}

/// `a` may stand directly before `b`: it is less than `b`, or at least `b`
/// is not less than `a`. (For a comparison that never calls each of two
/// texts less than the other, the two say the same.)
pub open spec fn in_natural_order(a: Seq<char>, b: Seq<char>) -> bool {
    natural_order(a, b) == Order::Less || natural_order(b, a) != Order::Less
}

/// Every name may stand directly before the next one.
pub open spec fn naturally_sorted(names: Seq<Seq<char>>) -> bool {
    forall|i: int|
        0 <= i && i + 1 < names.len() ==> in_natural_order(#[trigger] names[i], names[i + 1])
}

} // verus!
