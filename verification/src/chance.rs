//! Random rolls and percentage tables.
//!
//! A percentage table lists outcomes with cumulative thresholds: a roll in
//! `0..100` yields the first outcome whose threshold is above the roll, so
//! each outcome comes up for as many rolls as its threshold exceeds the
//! previous one.

use rand::Rng;
use vstd::prelude::*;

use crate::world::tiles::TileType;

verus! {

/// A uniformly random number in `0..bound`.
///
/// Calls `rand::Rng::gen_range` on the thread-local generator of
/// `rand::thread_rng`. What is claimed: the result lies in `0..bound`, as
/// `gen_range` documents for a non-empty range (it panics on an empty one,
/// which the `requires` rules out). Which number comes is left open.
#[verifier::external_body]
pub fn random_below(bound: u32) -> (r: u32)
    requires
        bound > 0,
    ensures
        r < bound,
{
    rand::thread_rng().gen_range(0..bound)
}

/// A random percentage roll, in `0..100`.
pub fn roll_percent() -> (r: u32)
    ensures
        r < 100,
{
    random_below(100)
}

/// Threshold below which entry `i` cannot come up: the previous threshold.
pub open spec fn prev_threshold(t: Seq<(TileType, u32)>, i: int) -> int {
    if i == 0 { 0 } else { t[i - 1].1 as int }
}

/// A percentage table: thresholds strictly increase from above 0 up to 100,
/// and no outcome is listed twice.
pub open spec fn table_wf(t: Seq<(TileType, u32)>) -> bool {
    &&& t.len() > 0
    &&& t[0].1 > 0
    &&& t[t.len() - 1].1 == 100
    &&& forall|i: int, j: int| 0 <= i < j < t.len() ==> #[trigger] t[i].1 < #[trigger] t[j].1
    &&& forall|i: int, j: int| 0 <= i < j < t.len() ==> #[trigger] t[i].0 != #[trigger] t[j].0
}

/// Outcome of `roll` looking from entry `i` on: the first entry whose threshold
/// is above the roll, or the last entry when none is.
pub open spec fn pick_from(t: Seq<(TileType, u32)>, roll: int, i: int) -> TileType
    decreases t.len() - i,
{
    if i >= t.len() - 1 {
        t[t.len() - 1].0
    } else if roll < t[i].1 {
        t[i].0
    } else {
        pick_from(t, roll, i + 1)
    }
}

/// Outcome of `roll` in table `t`.
pub open spec fn spec_pick(t: Seq<(TileType, u32)>, roll: int) -> TileType {
    pick_from(t, roll, 0)
}

/// How many of the rolls `0..n` yield `item`.
pub open spec fn count_rolls(t: Seq<(TileType, u32)>, item: TileType, n: nat) -> nat
    decreases n,
{
    if n == 0 {
        0
    } else {
        count_rolls(t, item, (n - 1) as nat) + if spec_pick(t, n - 1) == item { 1nat } else { 0nat }
    }
}

/// The outcome of `roll` in table `t`.
pub fn pick_from_table(t: &Vec<(TileType, u32)>, roll: u32) -> (r: TileType)
    requires
        t@.len() > 0,
    ensures
        r == spec_pick(t@, roll as int),
{
    let n = t.len();
    let mut i: usize = 0;
    while i + 1 < n
        invariant
            n == t@.len(),
            i < n,
            spec_pick(t@, roll as int) == pick_from(t@, roll as int, i as int),
        decreases n - i,
    {
        if roll < t[i].1 {
            return t[i].0;
        }
        i = i + 1;
    }
    t[n - 1].0
}

proof fn lemma_pick_in_interval(t: Seq<(TileType, u32)>, roll: int, i: int, j: int)
    requires
        table_wf(t),
        0 <= i <= j < t.len(),
        prev_threshold(t, j) <= roll < t[j].1,
    ensures
        pick_from(t, roll, i) == t[j].0,
    decreases j - i,
{
    if i < j {
        assert(t[i].1 <= t[j - 1].1) by {
            if i < j - 1 {
                assert(t[i].1 < t[j - 1].1);
            }
        }
        lemma_pick_in_interval(t, roll, i + 1, j);
    }
}

proof fn interval_of(t: Seq<(TileType, u32)>, roll: int, i: int) -> (j: int)
    requires
        table_wf(t),
        0 <= i < t.len(),
        prev_threshold(t, i) <= roll < 100,
    ensures
        i <= j < t.len(),
        prev_threshold(t, j) <= roll < t[j].1,
    decreases t.len() - i,
{
    if roll < t[i].1 {
        i
    } else {
        interval_of(t, roll, i + 1)
    }
}

/// For a roll in `0..100`, entry `i` comes up exactly when the roll lies
/// between the previous threshold and its own.
pub proof fn lemma_pick_is_entry(t: Seq<(TileType, u32)>, roll: int, i: int)
    requires
        table_wf(t),
        0 <= i < t.len(),
        0 <= roll < 100,
    ensures
        (spec_pick(t, roll) == t[i].0) <==> (prev_threshold(t, i) <= roll < t[i].1),
{
    let j = interval_of(t, roll, 0);
    lemma_pick_in_interval(t, roll, 0, j);
    if j != i {
        if i < j {
            assert(t[i].0 != t[j].0);
            assert(t[i].1 <= prev_threshold(t, j)) by {
                if i < j - 1 {
                    assert(t[i].1 < t[j - 1].1);
                }
            }
        } else {
            assert(t[j].0 != t[i].0);
            assert(t[j].1 <= prev_threshold(t, i)) by {
                if j < i - 1 {
                    assert(t[j].1 < t[i - 1].1);
                }
            }
        }
    }
}

/// Every roll in `0..100` yields one of the listed outcomes.
pub proof fn lemma_pick_is_listed(t: Seq<(TileType, u32)>, roll: int)
    requires
        table_wf(t),
        0 <= roll < 100,
    ensures
        exists|i: int| 0 <= i < t.len() && #[trigger] t[i].0 == spec_pick(t, roll),
{
    let j = interval_of(t, roll, 0);
    lemma_pick_in_interval(t, roll, 0, j);
    assert(t[j].0 == spec_pick(t, roll));
}

/// Frequencies: out of the hundred rolls `0..100`, entry `i` of a percentage
/// table comes up for exactly as many rolls as its threshold exceeds the
/// previous one, i.e. with the percentage the table announces.
pub proof fn lemma_table_frequency(t: Seq<(TileType, u32)>, i: int)
    requires
        table_wf(t),
        0 <= i < t.len(),
    ensures
        count_rolls(t, t[i].0, 100) == t[i].1 - prev_threshold(t, i),
{
    lemma_count_prefix(t, i, 100);
    assert(prev_threshold(t, i) < t[i].1 <= 100) by {
        if i > 0 {
            assert(t[i - 1].1 < t[i].1);
        }
        if i < t.len() - 1 {
            assert(t[i].1 < t[t.len() - 1].1);
        }
    }
}

proof fn lemma_count_prefix(t: Seq<(TileType, u32)>, i: int, n: nat)
    requires
        table_wf(t),
        0 <= i < t.len(),
        n <= 100,
    ensures
        count_rolls(t, t[i].0, n) == (if n <= prev_threshold(t, i) {
            0
        } else if n <= t[i].1 {
            n - prev_threshold(t, i)
        } else {
            t[i].1 - prev_threshold(t, i)
        }),
    decreases n,
{
    assert(prev_threshold(t, i) < t[i].1) by {
        if i > 0 {
            assert(t[i - 1].1 < t[i].1);
        }
    }
    if n > 0 {
        lemma_count_prefix(t, i, (n - 1) as nat);
        lemma_pick_is_entry(t, n - 1, i);
    }
}

} // verus!
