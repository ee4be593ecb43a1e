//! Finding the first or the last place where something holds.

use vstd::prelude::*;

verus! {

/// The index of the first `true` in `hits`.
pub open spec fn first_hit(hits: Seq<bool>) -> Option<int>
    decreases hits.len(),
{
    if hits.len() == 0 {
        None
    } else if hits[0] {
        Some(0)
    } else {
        match first_hit(hits.drop_first()) {
            Some(i) => Some(i + 1),
            None => None,
        }
    }
}

/// What `first_hit` returns is the least index that holds `true`, and it
/// returns nothing only where no index does.
pub proof fn lemma_first_hit(hits: Seq<bool>)
    ensures
        match first_hit(hits) {
            Some(i) => 0 <= i < hits.len() && hits[i] && forall|j: int| 0 <= j < i ==> !hits[j],
            None => forall|j: int| 0 <= j < hits.len() ==> !hits[j],
        },
    decreases hits.len(),
{
    if hits.len() > 0 && !hits[0] {
        let rest = hits.drop_first();
        lemma_first_hit(rest);
        match first_hit(rest) {
            Some(i) => {
                assert forall|j: int| 0 <= j < i + 1 implies !hits[j] by {
                    if j > 0 {
                        assert(hits[j] == rest[j - 1]);
                    }
                }
            },
            None => {
                assert forall|j: int| 0 <= j < hits.len() implies !hits[j] by {
                    if j > 0 {
                        assert(hits[j] == rest[j - 1]);
                    }
                }
            },
        }
    }
}

/// The index of the first `true` in `hits`.
pub fn first_true(hits: &[bool]) -> (r: Option<usize>)
    ensures
        match r {
            Some(i) => first_hit(hits@) == Some(i as int),
            None => first_hit(hits@) is None,
        },
{
    let mut i: usize = 0;
    while i < hits.len()
        invariant
            i <= hits.len(),
            forall|j: int| 0 <= j < i ==> !hits@[j],
        decreases hits.len() - i,
    {
        if hits[i] {
            proof {
                lemma_first_hit(hits@);
            }
            return Some(i);
        }
        i += 1;
    }
    proof {
        lemma_first_hit(hits@);
    }
    None
}

/// The index of the last `true` in `hits`.
pub open spec fn last_hit(hits: Seq<bool>) -> Option<int>
    decreases hits.len(),
{
    if hits.len() == 0 {
        None
    } else if hits.last() {
        Some(hits.len() - 1)
    } else {
        last_hit(hits.drop_last())
    }
}

/// What `last_hit` returns is the greatest index that holds `true`, and it
/// returns nothing only where no index does.
pub proof fn lemma_last_hit(hits: Seq<bool>)
    ensures
        match last_hit(hits) {
            Some(i) => 0 <= i < hits.len() && hits[i] && forall|j: int|
                i < j < hits.len() ==> !hits[j],
            None => forall|j: int| 0 <= j < hits.len() ==> !hits[j],
        },
    decreases hits.len(),
{
    if hits.len() > 0 && !hits.last() {
        let rest = hits.drop_last();
        lemma_last_hit(rest);
        assert forall|j: int| 0 <= j < rest.len() implies rest[j] == hits[j] by {}
    }
}

/// The index of the last `true` in `hits`.
pub fn last_true(hits: &[bool]) -> (r: Option<usize>)
    ensures
        match r {
            Some(i) => last_hit(hits@) == Some(i as int),
            None => last_hit(hits@) is None,
        },
{
    let mut i: usize = hits.len();
    while i > 0
        invariant
            i <= hits.len(),
            forall|j: int| i <= j < hits.len() ==> !hits@[j],
        decreases i,
    {
        i -= 1;
        if hits[i] {
            proof {
                lemma_last_hit(hits@);
            }
            return Some(i);
        }
    }
    proof {
        lemma_last_hit(hits@);
    }
    None
}

} // verus!
