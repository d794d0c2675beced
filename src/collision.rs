//! The rule that accepts or rejects a contact between two bodies.

use core::cmp::Ordering;
use vstd::prelude::*;

verus! {

/// Whether two bodies whose boundaries overlap are colliding, rather than
/// grazing or already moving apart.
///
/// `a_facing` says that body `a` moves toward `b` (its velocity makes an angle
/// under a right angle with the direction from the contact point to `b`'s
/// center), `b_facing` the same of `b`, and `speeds` compares `a`'s speed with
/// `b`'s. The contact counts when both face each other, or when one faces the
/// other and is the faster of the two.
pub fn is_collision(a_facing: bool, b_facing: bool, speeds: Ordering) -> (r: bool)
    ensures
        r == (a_facing && b_facing || a_facing && speeds == Ordering::Greater || b_facing
            && speeds == Ordering::Less),
{
    let a_faster = match speeds {
        Ordering::Greater => true,
        _ => false,
    };
    let b_faster = match speeds {
        Ordering::Less => true,
        _ => false,
    };
    a_facing && b_facing || a_facing && a_faster || b_facing && b_faster
}

} // verus!
