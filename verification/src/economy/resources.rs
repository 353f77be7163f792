use vstd::prelude::*;

use crate::world::tiles::{spec_all_ordered, spec_tile_index, spec_value, TileType, TILE_KINDS};

verus! {

/// Sum of a sequence of counters.
pub open spec fn seq_sum(s: Seq<u32>) -> int
    decreases s.len(),
{
    if s.len() == 0 {
        0
    } else {
        seq_sum(s.drop_last()) + s.last()
    }
}

/// Coin value of a sequence of counters, the counter at index `i` holding
/// units of the ore kind at position `i` of the display order.
pub open spec fn seq_value(s: Seq<u32>) -> int
    decreases s.len(),
{
    if s.len() == 0 {
        0
    } else {
        seq_value(s.drop_last()) + s.last() * spec_value(spec_all_ordered()[s.len() - 1])
    }
}

pub proof fn lemma_seq_sum_nonneg(s: Seq<u32>)
    ensures
        seq_sum(s) >= 0,
        seq_sum(s) <= s.len() * u32::MAX,
    decreases s.len(),
{
    if s.len() > 0 {
        lemma_seq_sum_nonneg(s.drop_last());
    }
}

pub proof fn lemma_seq_sum_update(s: Seq<u32>, i: int, v: u32)
    requires
        0 <= i < s.len(),
    ensures
        seq_sum(s.update(i, v)) == seq_sum(s) - s[i] + v,
    decreases s.len(),
{
    if i == s.len() - 1 {
        assert(s.update(i, v).drop_last() =~= s.drop_last());
    } else {
        lemma_seq_sum_update(s.drop_last(), i, v);
        assert(s.update(i, v).drop_last() =~= s.drop_last().update(i, v));
    }
}

pub proof fn lemma_seq_value_update(s: Seq<u32>, i: int, v: u32)
    requires
        0 <= i < s.len() <= TILE_KINDS,
    ensures
        seq_value(s.update(i, v)) == seq_value(s) + (v - s[i]) * spec_value(spec_all_ordered()[i]),
    decreases s.len(),
{
    if i == s.len() - 1 {
        assert(s.update(i, v).drop_last() =~= s.drop_last());
        assert((v - s[i]) * spec_value(spec_all_ordered()[i]) == v * spec_value(spec_all_ordered()[i])
            - s[i] * spec_value(spec_all_ordered()[i])) by (nonlinear_arith);
    } else {
        lemma_seq_value_update(s.drop_last(), i, v);
        assert(s.update(i, v).drop_last() =~= s.drop_last().update(i, v));
    }
}

pub proof fn lemma_seq_sum_take_step(s: Seq<u32>, i: int)
    requires
        0 <= i < s.len(),
    ensures
        seq_sum(s.take(i + 1)) == seq_sum(s.take(i)) + s[i],
        seq_value(s.take(i + 1)) == seq_value(s.take(i)) + s[i] * spec_value(spec_all_ordered()[i]),
{
    assert(s.take(i + 1).drop_last() =~= s.take(i));
}

pub proof fn lemma_seq_sum_zero(s: Seq<u32>)
    requires
        forall|i: int| 0 <= i < s.len() ==> s[i] == 0,
    ensures
        seq_sum(s) == 0,
        seq_value(s) == 0,
    decreases s.len(),
{
    if s.len() > 0 {
        lemma_seq_sum_zero(s.drop_last());
    }
}

pub proof fn lemma_seq_sum_zero_means_empty(s: Seq<u32>)
    requires
        seq_sum(s) == 0,
    ensures
        forall|i: int| 0 <= i < s.len() ==> s[i] == 0,
    decreases s.len(),
{
    if s.len() > 0 {
        lemma_seq_sum_nonneg(s.drop_last());
        lemma_seq_sum_zero_means_empty(s.drop_last());
        assert forall|i: int| 0 <= i < s.len() implies s[i] == 0 by {
            if i < s.len() - 1 {
                assert(s[i] == s.drop_last()[i]);
            }
        }
    }
}

/// The first kind, from position `k` of the display order on, of which the
/// counters `s` hold at least one unit.
pub open spec fn first_held_from(s: Seq<u32>, k: int) -> Option<TileType>
    decreases TILE_KINDS - k,
{
    if k < 0 || k >= TILE_KINDS {
        None
    } else if s[k] > 0 {
        Some(spec_all_ordered()[k])
    } else {
        first_held_from(s, k + 1)
    }
}

/// The first kind, in display order, of which `s` holds at least one unit.
pub open spec fn spec_first_held(s: Seq<u32>) -> Option<TileType> {
    first_held_from(s, 0)
}

/// How many units of each ore kind a container holds.
///
/// Counter `i` holds the units of the ore kind at position `i` of the
/// display order, so walking the counters walks the kinds in that order.
#[derive(Clone, Copy, Debug)]
pub struct ItemCounts {
    pub counts: [u32; 11],
}

impl ItemCounts {
    /// Units of `t` held.
    pub open spec fn qty(self, t: TileType) -> nat {
        self.counts@[spec_tile_index(t)] as nat
    }

    /// Units held, all kinds together.
    pub open spec fn spec_total(self) -> int {
        seq_sum(self.counts@)
    }

    /// Coin value of everything held.
    pub open spec fn spec_value(self) -> int {
        seq_value(self.counts@)
    }

    /// Nothing is held.
    pub open spec fn spec_is_empty(self) -> bool {
        forall|i: int| 0 <= i < TILE_KINDS ==> self.counts@[i] == 0
    }

    /// An empty container.
    pub fn new() -> (c: ItemCounts)
        ensures
            c.spec_is_empty(),
            c.spec_total() == 0,
            c.spec_value() == 0,
            c.counts@ == Seq::new(11, |i: int| 0u32),
    {
        let c = ItemCounts { counts: [0u32; 11] };
        proof {
            assert(c.counts@.len() == TILE_KINDS);
            lemma_seq_sum_zero(c.counts@);
            assert(c.counts@ =~= Seq::new(11, |i: int| 0u32));
        }
        c
    }

    /// Units of `t` held.
    pub fn get(&self, t: TileType) -> (n: u32)
        ensures
            n == self.qty(t),
    {
        self.counts[t.index()]
    }

    /// Adds `n` units of `t`.
    pub fn add(&mut self, t: TileType, n: u32)
        requires
            old(self).qty(t) + n <= u32::MAX,
        ensures
            final(self).counts@ == old(self).counts@.update(spec_tile_index(t), (old(self).qty(t) + n) as u32),
            final(self).spec_total() == old(self).spec_total() + n,
            final(self).spec_value() == old(self).spec_value() + n * spec_value(t),
    {
        let i = t.index();
        let cur = self.counts[i];
        self.counts[i] = cur + n;
        proof {
            assert(old(self).counts@.len() == TILE_KINDS);
            lemma_seq_sum_update(old(self).counts@, i as int, (cur + n) as u32);
            lemma_seq_value_update(old(self).counts@, i as int, (cur + n) as u32);
            assert(self.counts@ =~= old(self).counts@.update(i as int, (cur + n) as u32));
            assert(spec_all_ordered()[i as int] == t);
        }
    }

    /// Removes `n` units of `t`.
    pub fn remove(&mut self, t: TileType, n: u32)
        requires
            n <= old(self).qty(t),
        ensures
            final(self).counts@ == old(self).counts@.update(spec_tile_index(t), (old(self).qty(t) - n) as u32),
            final(self).spec_total() == old(self).spec_total() - n,
            final(self).spec_value() == old(self).spec_value() - n * spec_value(t),
    {
        let i = t.index();
        let cur = self.counts[i];
        self.counts[i] = cur - n;
        proof {
            assert(old(self).counts@.len() == TILE_KINDS);
            lemma_seq_sum_update(old(self).counts@, i as int, (cur - n) as u32);
            lemma_seq_value_update(old(self).counts@, i as int, (cur - n) as u32);
            assert(self.counts@ =~= old(self).counts@.update(i as int, (cur - n) as u32));
            assert(spec_all_ordered()[i as int] == t);
            let unit = spec_value(t) as int;
            assert(((cur - n) - cur) * unit == -(n * unit)) by (nonlinear_arith);
        }
    }

    /// Units held, all kinds together (never overflows: at most 11 counters).
    pub fn total(&self) -> (n: u64)
        ensures
            n == self.spec_total(),
    {
        let mut acc: u64 = 0;
        let mut i: usize = 0;
        while i < TILE_KINDS
            invariant
                i <= TILE_KINDS,
                self.counts@.len() == TILE_KINDS,
                acc == seq_sum(self.counts@.take(i as int)),
                acc <= i * u32::MAX,
            decreases TILE_KINDS - i,
        {
            proof {
                lemma_seq_sum_take_step(self.counts@, i as int);
            }
            acc = acc + self.counts[i] as u64;
            i = i + 1;
        }
        assert(self.counts@.take(TILE_KINDS as int) =~= self.counts@);
        acc
    }

    /// Coin value of everything held.
    pub fn value(&self) -> (v: u64)
        ensures
            v == self.spec_value(),
    {
        let mut acc: u64 = 0;
        let mut i: usize = 0;
        while i < TILE_KINDS
            invariant
                i <= TILE_KINDS,
                self.counts@.len() == TILE_KINDS,
                acc == seq_value(self.counts@.take(i as int)),
                acc <= i * 750 * u32::MAX,
            decreases TILE_KINDS - i,
        {
            proof {
                lemma_seq_sum_take_step(self.counts@, i as int);
            }
            let t = TileType::from_index(i);
            let c = self.counts[i] as u64;
            let unit = t.value();
            assert(c * unit <= 750 * u32::MAX) by (nonlinear_arith)
                requires
                    c <= u32::MAX,
                    unit <= 750,
            ;
            acc = acc + c * unit;
            i = i + 1;
        }
        assert(self.counts@.take(TILE_KINDS as int) =~= self.counts@);
        acc
    }

    /// Nothing is held.
    pub fn is_empty(&self) -> (b: bool)
        ensures
            b == self.spec_is_empty(),
            b == (self.spec_total() == 0),
    {
        let n = self.total();
        proof {
            if n == 0 {
                lemma_seq_sum_zero_means_empty(self.counts@);
            } else if self.spec_is_empty() {
                lemma_seq_sum_zero(self.counts@);
            }
        }
        n == 0
    }

    /// Empties the container.
    pub fn clear(&mut self)
        ensures
            final(self).spec_is_empty(),
            final(self).spec_total() == 0,
            final(self).spec_value() == 0,
    {
        *self = ItemCounts::new();
    }

    /// The first kind, in display order, of which at least one unit is held.
    pub fn first_held(&self) -> (r: Option<TileType>)
        ensures
            r == spec_first_held(self.counts@),
            match r {
                Some(t) => self.qty(t) > 0 && forall|j: int| 0 <= j < spec_tile_index(t) ==> self.counts@[j] == 0,
                None => self.spec_is_empty(),
            },
    {
        let mut i: usize = 0;
        while i < TILE_KINDS
            invariant
                i <= TILE_KINDS,
                forall|j: int| 0 <= j < i ==> self.counts@[j] == 0,
                spec_first_held(self.counts@) == first_held_from(self.counts@, i as int),
            decreases TILE_KINDS - i,
        {
            if self.counts[i] > 0 {
                return Some(TileType::from_index(i));
            }
            i = i + 1;
        }
        None
    }
}

pub proof fn lemma_seq_sum_bounds_element(s: Seq<u32>, i: int)
    requires
        0 <= i < s.len(),
    ensures
        s[i] <= seq_sum(s),
    decreases s.len(),
{
    lemma_seq_sum_nonneg(s.drop_last());
    if i < s.len() - 1 {
        lemma_seq_sum_bounds_element(s.drop_last(), i);
    }
}

pub proof fn lemma_seq_sum_take_monotone(s: Seq<u32>, i: int, j: int)
    requires
        0 <= i <= j <= s.len(),
    ensures
        seq_sum(s.take(i)) <= seq_sum(s.take(j)),
    decreases j - i,
{
    if i < j {
        lemma_seq_sum_take_step(s, j - 1);
        lemma_seq_sum_take_monotone(s, i, j - 1);
    }
}

/// Units moved out of counter `k` when a container `s` is emptied, counter by
/// counter in display order, into a space that has room for `room` units:
/// each counter gives as much as still fits.
pub open spec fn spec_moved_at(s: Seq<u32>, room: int, k: int) -> int {
    min(room, seq_sum(s.take(k + 1))) - min(room, seq_sum(s.take(k)))
}

pub open spec fn min(a: int, b: int) -> int {
    if a <= b { a } else { b }
}

/// What the player carries.
#[derive(Clone, Copy, Debug)]
pub struct Inventory {
    pub items: ItemCounts,
}

/// The player's coins.
#[derive(Clone, Copy, Debug)]
pub struct Wallet {
    pub money: u64,
}

/// Whether the shop menu is open.
#[derive(Clone, Copy, Debug)]
pub struct ShopOpen(pub bool);

/// The player's upgradable characteristics.
#[derive(Clone, Copy, Debug)]
pub struct PlayerStats {
    /// Damage dealt to a tile per second of contact.
    pub mining_power: u32,
    /// Pixels walked per second.
    pub walk_speed: u32,
    /// Units the player can carry.
    pub inventory_capacity: u32,
}

impl Default for PlayerStats {
    fn default() -> (s: PlayerStats)
        ensures
            s.mining_power == 5,
            s.walk_speed == 250,
            s.inventory_capacity == 50,
    {
        PlayerStats { mining_power: 5, walk_speed: 250, inventory_capacity: 50 }
    }
}

impl Default for Wallet {
    fn default() -> (w: Wallet)
        ensures
            w.money == 0,
    {
        Wallet { money: 0 }
    }
}

impl Default for ShopOpen {
    fn default() -> (s: ShopOpen)
        ensures
            !s.0,
    {
        ShopOpen(false)
    }
}

impl Default for Inventory {
    fn default() -> (inv: Inventory)
        ensures
            inv.items.spec_is_empty(),
            inv.items.spec_total() == 0,
    {
        Inventory { items: ItemCounts::new() }
    }
}

impl Inventory {
    /// Units carried, all kinds together.
    pub fn total_count(&self) -> (n: u32)
        requires
            self.items.spec_total() <= u32::MAX,
        ensures
            n == self.items.spec_total(),
    {
        self.items.total() as u32
    }

    /// Stores one unit of a freshly mined tile, unless the bag is full.
    pub fn add_mined(&mut self, t: TileType, capacity: u32)
        requires
            old(self).items.spec_total() <= u32::MAX,
        ensures
            old(self).items.spec_total() < capacity ==>
                final(self).items.counts@ == old(self).items.counts@.update(
                    spec_tile_index(t), (old(self).items.qty(t) + 1) as u32),
            old(self).items.spec_total() >= capacity ==> *final(self) == *old(self),
            final(self).items.spec_total() == old(self).items.spec_total()
                + if old(self).items.spec_total() < capacity { 1int } else { 0int },
            old(self).items.spec_total() <= capacity ==> final(self).items.spec_total() <= capacity,
    {
        let n = self.total_count();
        if n < capacity {
            proof {
                assert(self.items.counts@.len() == TILE_KINDS);
                lemma_seq_sum_bounds_element(self.items.counts@, spec_tile_index(t));
            }
            self.items.add(t, 1);
        }
    }

    /// Moves as many units from `source` as the bag still has room for,
    /// emptying the source counter by counter in display order.
    ///
    /// The room is `capacity` minus what is already carried, or nothing when
    /// the bag already holds `capacity` units or more.
    pub fn take_from(&mut self, source: &mut ItemCounts, capacity: u32)
        requires
            old(self).items.spec_total() <= u32::MAX,
        ensures
            ({
                let room = if old(self).items.spec_total() <= capacity {
                    capacity - old(self).items.spec_total()
                } else {
                    0
                };
                &&& forall|k: int| 0 <= k < TILE_KINDS ==>
                    #[trigger] final(source).counts@[k] == old(source).counts@[k]
                        - spec_moved_at(old(source).counts@, room, k)
                &&& forall|k: int| 0 <= k < TILE_KINDS ==>
                    #[trigger] final(self).items.counts@[k] == old(self).items.counts@[k]
                        + spec_moved_at(old(source).counts@, room, k)
                &&& final(self).items.spec_total() == old(self).items.spec_total()
                    + min(room, old(source).spec_total())
                &&& final(source).spec_total() == old(source).spec_total()
                    - min(room, old(source).spec_total())
            }),
            forall|k: int| 0 <= k < TILE_KINDS ==>
                #[trigger] final(source).counts@[k] + final(self).items.counts@[k]
                    == old(source).counts@[k] + old(self).items.counts@[k],
            old(self).items.spec_total() <= capacity ==> final(self).items.spec_total() <= capacity,
    {
        let carried = self.total_count();
        let room: u32 = if carried <= capacity { capacity - carried } else { 0 };
        let ghost s0 = source.counts@;
        let ghost i0 = self.items.counts@;
        let mut transferred: u32 = 0;
        let mut k: usize = 0;
        proof {
            assert(s0.take(0) =~= Seq::<u32>::empty());
        }
        while k < TILE_KINDS
            invariant
                k <= TILE_KINDS,
                s0.len() == TILE_KINDS,
                i0.len() == TILE_KINDS,
                source.counts@.len() == TILE_KINDS,
                self.items.counts@.len() == TILE_KINDS,
                carried == seq_sum(i0),
                room == (if carried <= capacity { capacity - carried } else { 0 }),
                transferred == min(room as int, seq_sum(s0.take(k as int))),
                forall|j: int| 0 <= j < k ==>
                    #[trigger] source.counts@[j] == s0[j] - spec_moved_at(s0, room as int, j),
                forall|j: int| 0 <= j < k ==>
                    #[trigger] self.items.counts@[j] == i0[j] + spec_moved_at(s0, room as int, j),
                forall|j: int| k <= j < TILE_KINDS ==> #[trigger] source.counts@[j] == s0[j],
                forall|j: int| k <= j < TILE_KINDS ==> #[trigger] self.items.counts@[j] == i0[j],
                self.items.spec_total() == carried + transferred,
                source.spec_total() == seq_sum(s0) - transferred,
                carried + room <= u32::MAX,
            decreases TILE_KINDS - k,
        {
            proof {
                lemma_seq_sum_take_step(s0, k as int);
                lemma_seq_sum_nonneg(s0.take(k as int));
            }
            let qty = source.counts[k];
            if transferred < room {
                let left = room - transferred;
                let can_take = if qty < left { qty } else { left };
                let t = TileType::from_index(k);
                proof {
                    lemma_seq_sum_bounds_element(self.items.counts@, k as int);
                }
                self.items.add(t, can_take);
                source.remove(t, can_take);
                transferred = transferred + can_take;
            }
            k = k + 1;
        }
        proof {
            assert(s0.take(TILE_KINDS as int) =~= s0);
        }
    }
}

} // verus!
