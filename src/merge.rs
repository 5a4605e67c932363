//! Bookkeeping of a perfectly inelastic merge on the body list, and the
//! choice of which collision to resolve first.
use vstd::prelude::*;

verus! {

/// The indices `(heavy, light)` of two colliding bodies: the heavier one
/// survives, and `first` survives a tie.
pub open spec fn spec_merge_roles(first: usize, second: usize, first_not_lighter: bool) -> (
    usize,
    usize,
) {
    if first_not_lighter {
        (first, second)
    } else {
        (second, first)
    }
}

/// Index of the survivor once the light body has been taken out.
pub open spec fn survivor_index(heavy: int, light: int) -> int {
    if light < heavy {
        heavy - 1
    } else {
        heavy
    }
}

/// The body list after `heavy` became `merged` and `light` left it.
pub open spec fn merged_list<T>(bodies: Seq<T>, heavy: int, light: int, merged: T) -> Seq<T> {
    bodies.update(heavy, merged).remove(light)
}

/// Roles of a collided pair; `first_not_lighter` tells whether the mass of
/// `first` is at least that of `second`.
pub fn merge_roles(first: usize, second: usize, first_not_lighter: bool) -> (r: (usize, usize))
    ensures
        r == spec_merge_roles(first, second, first_not_lighter),
{
    if first_not_lighter {
        (first, second)
    } else {
        (second, first)
    }
}

/// Replaces the heavy body by the merged record and removes the light one;
/// returns where the merged record now stands.
pub fn absorb<T>(bodies: &mut Vec<T>, heavy: usize, light: usize, merged: T) -> (r: usize)
    requires
        heavy < old(bodies)@.len(),
        light < old(bodies)@.len(),
        heavy != light,
    ensures
        final(bodies)@ == merged_list(old(bodies)@, heavy as int, light as int, merged),
        final(bodies)@.len() == old(bodies)@.len() - 1,
        r == survivor_index(heavy as int, light as int),
        final(bodies)@[r as int] == merged,
        forall|k: int|
            0 <= k < old(bodies)@.len() && k != heavy && k != light ==> final(bodies)@.contains(
                #[trigger] old(bodies)@[k],
            ),
{
    bodies[heavy] = merged;
    bodies.remove(light);
    let r = if light < heavy {
        heavy - 1
    } else {
        heavy
    };
    assert forall|k: int|
        0 <= k < old(bodies)@.len() && k != heavy && k != light implies bodies@.contains(
            #[trigger] old(bodies)@[k],
        ) by {
        let at = if k < light {
            k
        } else {
            k - 1
        };
        assert(bodies@[at] == old(bodies)@[k]);
    }
    r
}

/// The collision that the driver resolves out of the workers' reports, in
/// worker order: the first reported one, or `None` when none collided.
pub fn first_collision(reports: &Vec<Option<(usize, usize)>>) -> (r: Option<(usize, usize)>)
    ensures
        r is None <==> forall|i: int| 0 <= i < reports@.len() ==> (#[trigger] reports@[i]) is None,
        r is Some ==> exists|i: int|
            0 <= i < reports@.len() && #[trigger] reports@[i] == r && forall|j: int|
                0 <= j < i ==> (#[trigger] reports@[j]) is None,
{
    let mut i: usize = 0;
    while i < reports.len()
        invariant
            i <= reports@.len(),
            forall|j: int| 0 <= j < i ==> (#[trigger] reports@[j]) is None,
        decreases reports@.len() - i,
    {
        if reports[i].is_some() {
            return reports[i];
        }
        i = i + 1;
    }
    None
}

/// Sum of a per-body quantity over the list.
pub open spec fn total(q: Seq<int>) -> int
    decreases q.len(),
{
    if q.len() == 0 {
        0
    } else {
        total(q.drop_last()) + q.last()
    }
}

proof fn lemma_total_update(q: Seq<int>, i: int, x: int)
    requires
        0 <= i < q.len(),
    ensures
        total(q.update(i, x)) == total(q) - q[i] + x,
    decreases q.len(),
{
    if i == q.len() - 1 {
        assert(q.update(i, x).drop_last() =~= q.drop_last());
    } else {
        assert(q.update(i, x).drop_last() =~= q.drop_last().update(i, x));
        lemma_total_update(q.drop_last(), i, x);
    }
}

proof fn lemma_total_remove(q: Seq<int>, i: int)
    requires
        0 <= i < q.len(),
    ensures
        total(q.remove(i)) == total(q) - q[i],
    decreases q.len(),
{
    if i == q.len() - 1 {
        assert(q.remove(i) =~= q.drop_last());
    } else {
        assert(q.remove(i).drop_last() =~= q.drop_last().remove(i));
        lemma_total_remove(q.drop_last(), i);
    }
}

/// A merge whose record carries the sum of the two bodies' quantity (mass,
/// or one component of momentum, in exact arithmetic) keeps the list's
/// total of that quantity.
pub proof fn lemma_merge_keeps_total(q: Seq<int>, heavy: int, light: int)
    requires
        0 <= heavy < q.len(),
        0 <= light < q.len(),
        heavy != light,
    ensures
        total(merged_list(q, heavy, light, q[heavy] + q[light])) == total(q),
{
    let x = q[heavy] + q[light];
    lemma_total_update(q, heavy, x);
    lemma_total_remove(q.update(heavy, x), light);
}

} // verus!
