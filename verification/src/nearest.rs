//! Choosing the nearest candidate.
//!
//! Candidates come with an optional rank: `None` when the candidate does not
//! qualify, otherwise a number that orders candidates by distance. The
//! nearest qualifying candidate wins; among equally near ones, the first.

use vstd::prelude::*;

verus! {

/// The winner among the candidates of `s`, scanning in order and replacing
/// the current winner only by a strictly nearer one.
pub open spec fn spec_first_nearest(s: Seq<Option<u64>>) -> Option<int>
    decreases s.len(),
{
    if s.len() == 0 {
        None
    } else {
        let prev = spec_first_nearest(s.drop_last());
        match s.last() {
            None => prev,
            Some(r) => match prev {
                None => Some(s.len() - 1),
                Some(p) => if r < s[p].unwrap() { Some(s.len() - 1) } else { prev },
            },
        }
    }
}

/// `i` qualifies, no qualifying candidate is nearer, and every equally near
/// one comes after it.
pub open spec fn is_first_nearest(s: Seq<Option<u64>>, i: int) -> bool {
    &&& 0 <= i < s.len()
    &&& s[i] is Some
    &&& forall|j: int| 0 <= j < s.len() && #[trigger] s[j] is Some ==> s[i].unwrap() <= s[j].unwrap()
    &&& forall|j: int| 0 <= j < i && #[trigger] s[j] is Some ==> s[i].unwrap() < s[j].unwrap()
}

/// The scan picks the nearest qualifying candidate, the first of equally near
/// ones, and picks nothing only when no candidate qualifies.
pub proof fn lemma_first_nearest(s: Seq<Option<u64>>)
    ensures
        match spec_first_nearest(s) {
            Some(i) => is_first_nearest(s, i),
            None => forall|j: int| 0 <= j < s.len() ==> #[trigger] s[j] is None,
        },
    decreases s.len(),
{
    if s.len() > 0 {
        let d = s.drop_last();
        let n = s.len() - 1;
        lemma_first_nearest(d);
        assert forall|j: int| 0 <= j < d.len() implies #[trigger] d[j] == s[j] by {}
        match spec_first_nearest(d) {
            None => {
                assert forall|j: int| 0 <= j < n implies #[trigger] s[j] is None by {
                    assert(d[j] is None);
                }
            },
            Some(p) => {
                assert forall|j: int| 0 <= j < n && #[trigger] s[j] is Some implies s[p].unwrap()
                    <= s[j].unwrap() by {
                    assert(d[j] is Some);
                }
                assert forall|j: int| 0 <= j < p && #[trigger] s[j] is Some implies s[p].unwrap()
                    < s[j].unwrap() by {
                    assert(d[j] is Some);
                }
                match s.last() {
                    None => {},
                    Some(r) => {
                        if r < s[p].unwrap() {
                            assert forall|j: int| 0 <= j < n && #[trigger] s[j] is Some implies r
                                < s[j].unwrap() by {
                                assert(d[j] is Some);
                            }
                        }
                    },
                }
            },
        }
    }
}

/// Index of the nearest qualifying candidate, the first of equally near ones.
pub fn first_nearest(s: &Vec<Option<u64>>) -> (r: Option<usize>)
    ensures
        match r {
            Some(i) => spec_first_nearest(s@) == Some(i as int),
            None => spec_first_nearest(s@) is None,
        },
        match r {
            Some(i) => is_first_nearest(s@, i as int),
            None => forall|j: int| 0 <= j < s@.len() ==> #[trigger] s@[j] is None,
        },
{
    let mut best: Option<usize> = None;
    let mut best_rank: u64 = 0;
    let mut i: usize = 0;
    while i < s.len()
        invariant
            i <= s@.len(),
            match best {
                Some(b) => spec_first_nearest(s@.take(i as int)) == Some(b as int)
                    && b < i && s@[b as int] == Some(best_rank),
                None => spec_first_nearest(s@.take(i as int)) is None,
            },
        decreases s@.len() - i,
    {
        proof {
            assert(s@.take(i + 1).drop_last() =~= s@.take(i as int));
        }
        match s[i] {
            Some(r) => {
                match best {
                    None => {
                        best = Some(i);
                        best_rank = r;
                    },
                    Some(_) => {
                        if r < best_rank {
                            best = Some(i);
                            best_rank = r;
                        }
                    },
                }
            },
            None => {},
        }
        i = i + 1;
    }
    proof {
        assert(s@.take(s@.len() as int) =~= s@);
        lemma_first_nearest(s@);
    }
    best
}

} // verus!
