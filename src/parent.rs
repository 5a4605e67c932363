//! Selection rule of the orbital-parent classifier.
use vstd::prelude::*;

verus! {

/// The first body, in list order and other than `child`, that `accepts`
/// admits as the one causing the child's acceleration; `None` when no body
/// passes. `accepts(b)` holds the tolerance tests on body `b`.
pub fn first_parent_candidate<F: Fn(usize) -> bool>(count: usize, child: usize, accepts: &F) -> (r:
    Option<usize>)
    requires
        forall|b: usize| b < count ==> #[trigger] accepts.requires((b,)),
    ensures
        r matches Some(p) ==> p < count && p != child && accepts.ensures((p,), true),
        forall|b: usize|
            b < count && b != child && (r matches Some(p) ==> b < p) ==> #[trigger] accepts.ensures(
                (b,),
                false,
            ),
{
    let mut b: usize = 0;
    while b < count
        invariant
            b <= count,
            forall|b: usize| b < count ==> #[trigger] accepts.requires((b,)),
            forall|k: usize| k < b && k != child ==> #[trigger] accepts.ensures((k,), false),
        decreases count - b,
    {
        if b != child {
            let ok = accepts(b);
            if ok {
                return Some(b);
            }
        }
        b = b + 1;
    }
    None
}

} // verus!
