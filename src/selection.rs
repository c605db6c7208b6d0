use vstd::prelude::*;

use rand::seq::SliceRandom;

verus! {

/// Relies on rand's SliceRandom::shuffle with the thread-local generator:
/// it only swaps elements, so the same values come back in some order.
#[verifier::external_body]
fn shuffle(values: &mut Vec<usize>)
    ensures
        final(values)@.to_multiset() == old(values)@.to_multiset(),
{
    values.shuffle(&mut rand::thread_rng());
}

/// The values `0..n` in order.
pub open spec fn indices(n: nat) -> Seq<usize> {
    Seq::new(n, |i: int| i as usize)
}

/// The indices `0..n` in a random order: each exactly once.
pub fn shuffled_indices(n: usize) -> (r: Vec<usize>)
    ensures
        r@.to_multiset() == indices(n as nat).to_multiset(),
        r@.len() == n,
{
    let mut values: Vec<usize> = Vec::new();
    let mut i: usize = 0;
    while i < n
        invariant
            i <= n,
            values@ == indices(n as nat).take(i as int),
        decreases n - i,
    {
        values.push(i);
        assert(values@ =~= indices(n as nat).take(i + 1));
        i = i + 1;
    }
    assert(values@ =~= indices(n as nat));
    shuffle(&mut values);
    proof {
        values@.to_multiset_ensures();
        indices(n as nat).to_multiset_ensures();
    }
    values
}

/// The first position in `order` naming a collection that holds strips,
/// where there is one.
pub fn first_filled(strip_counts: &Vec<usize>, order: &Vec<usize>) -> (r: Option<usize>)
    ensures
        match r {
            Some(c) => exists|k: int|
                0 <= k < order@.len() && order@[k] == c && c < strip_counts@.len()
                    && strip_counts@[c as int] > 0 && forall|j: int|
                    0 <= j < k ==> !(#[trigger] order@[j] < strip_counts@.len()
                        && strip_counts@[order@[j] as int] > 0),
            None => forall|j: int|
                0 <= j < order@.len() ==> !(#[trigger] order@[j] < strip_counts@.len()
                    && strip_counts@[order@[j] as int] > 0),
        },
{
    let mut k: usize = 0;
    while k < order.len()
        invariant
            k <= order@.len(),
            forall|j: int|
                0 <= j < k ==> !(#[trigger] order@[j] < strip_counts@.len() && strip_counts@[order@[j] as int] > 0),
        decreases order@.len() - k,
    {
        let c = order[k];
        if c < strip_counts.len() && strip_counts[c] > 0 {
            assert(order@[k as int] == c);
            return Some(c);
        }
        k = k + 1;
    }
    None
}

/// Picks a collection that holds strips, visiting the collections in a
/// random order, and a random order of its strips. `None` where every
/// collection is empty.
pub fn random_comic_strips(strip_counts: &Vec<usize>) -> (r: Option<(usize, Vec<usize>)>)
    ensures
        match r {
            Some((c, order)) => {
                &&& c < strip_counts@.len()
                &&& strip_counts@[c as int] > 0
                &&& order@.len() == strip_counts@[c as int]
                &&& order@.to_multiset() == indices(strip_counts@[c as int] as nat).to_multiset()
            },
            None => forall|c: int| 0 <= c < strip_counts@.len() ==> strip_counts@[c] == 0,
        },
{
    let order = shuffled_indices(strip_counts.len());
    match first_filled(strip_counts, &order) {
        Some(c) => {
            let strips = shuffled_indices(strip_counts[c]);
            Some((c, strips))
        },
        None => {
            assert forall|c: int| 0 <= c < strip_counts@.len() implies strip_counts@[c] == 0 by {
                assert(indices(strip_counts@.len()).to_multiset().count(c as usize) > 0) by {
                    indices(strip_counts@.len()).to_multiset_ensures();
                    assert(indices(strip_counts@.len())[c] == c as usize);
                }
                order@.to_multiset_ensures();
                assert(order@.contains(c as usize));
                let k = choose|k: int| 0 <= k < order@.len() && order@[k] == c as usize;
                assert(!(order@[k] < strip_counts@.len() && strip_counts@[order@[k] as int] > 0));
            }
            None
        },
    }
}

} // verus!
