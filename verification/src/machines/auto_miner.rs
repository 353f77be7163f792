use vstd::prelude::*;

use crate::chance::{roll_percent, spec_pick};
use crate::economy::resources::{Inventory, ItemCounts};
use crate::nearest::{first_nearest, spec_first_nearest};
use crate::world::deposits::{spec_drop_table, Deposit, DepositType};
use crate::world::tiles::{spec_tile_index, GridPos};

verus! {

/// An auto miner stops producing once it holds this many units.
pub const MAX_MINER_STORAGE: u32 = 50;

/// Auto miners bought and not yet placed.
#[derive(Clone, Copy, Debug)]
pub struct MinerInventory {
    pub count: u32,
}

impl Default for MinerInventory {
    fn default() -> (m: MinerInventory)
        ensures
            m.count == 0,
    {
        MinerInventory { count: 0 }
    }
}

/// A machine placed on a deposit tile that produces the deposit's ores.
#[derive(Clone, Copy, Debug)]
pub struct AutoMiner {
    pub deposit_type: DepositType,
    pub storage: ItemCounts,
}

/// How close a candidate is to the player: whether it is within reach, and a
/// number that orders candidates as their distances do.
#[derive(Clone, Copy, Debug)]
pub struct Nearby {
    pub in_reach: bool,
    pub distance_rank: u64,
}

/// What a press of the B key does.
#[derive(Clone, Copy, PartialEq, Eq, Structural, Debug)]
pub enum BKeyAction {
    Nothing,
    /// Place a miner on the deposit at this index of the candidates.
    Place(usize),
    /// Collect from the miner at this index of the candidates.
    Collect(usize),
}

/// Some miner stands on `pos`.
pub open spec fn has_miner_at(miners: Seq<(GridPos, AutoMiner, Nearby)>, pos: GridPos) -> bool {
    exists|j: int| 0 <= j < miners.len() && #[trigger] miners[j].0 == pos
}

/// Ranks of the deposits a miner can be placed on: revealed, free, in reach.
pub open spec fn placement_ranks(
    deposits: Seq<(GridPos, Deposit, Nearby)>,
    miners: Seq<(GridPos, AutoMiner, Nearby)>,
) -> Seq<Option<u64>> {
    Seq::new(
        deposits.len(),
        |i: int|
            if deposits[i].1.revealed && !has_miner_at(miners, deposits[i].0) && deposits[i].2.in_reach {
                Some(deposits[i].2.distance_rank)
            } else {
                None
            },
    )
}

/// Ranks of the miners the player can collect from: holding stock, in reach.
pub open spec fn collect_ranks(miners: Seq<(GridPos, AutoMiner, Nearby)>) -> Seq<Option<u64>> {
    Seq::new(
        miners.len(),
        |i: int|
            if miners[i].1.storage.spec_total() > 0 && miners[i].2.in_reach {
                Some(miners[i].2.distance_rank)
            } else {
                None
            },
    )
}

/// The B key: place a miner on the nearest free revealed deposit in reach if
/// the player has one, otherwise collect from the nearest stocked miner in
/// reach, otherwise nothing.
pub open spec fn spec_b_key_action(
    pressed: bool,
    shop_open: bool,
    miner_count: u32,
    deposits: Seq<(GridPos, Deposit, Nearby)>,
    miners: Seq<(GridPos, AutoMiner, Nearby)>,
) -> BKeyAction {
    if !pressed || shop_open {
        BKeyAction::Nothing
    } else if miner_count > 0 && spec_first_nearest(placement_ranks(deposits, miners)) is Some {
        BKeyAction::Place(spec_first_nearest(placement_ranks(deposits, miners)).unwrap() as usize)
    } else if spec_first_nearest(collect_ranks(miners)) is Some {
        BKeyAction::Collect(spec_first_nearest(collect_ranks(miners)).unwrap() as usize)
    } else {
        BKeyAction::Nothing
    }
}

fn miner_at(miners: &Vec<(GridPos, AutoMiner, Nearby)>, pos: GridPos) -> (b: bool)
    ensures
        b == has_miner_at(miners@, pos),
{
    let mut j: usize = 0;
    while j < miners.len()
        invariant
            j <= miners@.len(),
            forall|k: int| 0 <= k < j ==> miners@[k].0 != pos,
        decreases miners@.len() - j,
    {
        if miners[j].0 == pos {
            return true;
        }
        j = j + 1;
    }
    false
}

/// Decides what a press of the B key does.
pub fn handle_b_key(
    pressed: bool,
    shop_open: bool,
    miner_count: u32,
    deposits: &Vec<(GridPos, Deposit, Nearby)>,
    miners: &Vec<(GridPos, AutoMiner, Nearby)>,
) -> (a: BKeyAction)
    ensures
        a == spec_b_key_action(pressed, shop_open, miner_count, deposits@, miners@),
{
    if !pressed || shop_open {
        return BKeyAction::Nothing;
    }
    if miner_count > 0 {
        let mut ranks: Vec<Option<u64>> = Vec::new();
        let mut i: usize = 0;
        while i < deposits.len()
            invariant
                i <= deposits@.len(),
                ranks@ =~= placement_ranks(deposits@, miners@).take(i as int),
            decreases deposits@.len() - i,
        {
            let (pos, deposit, near) = deposits[i];
            if deposit.revealed && !miner_at(miners, pos) && near.in_reach {
                ranks.push(Some(near.distance_rank));
            } else {
                ranks.push(None);
            }
            i = i + 1;
        }
        assert(ranks@ =~= placement_ranks(deposits@, miners@));
        match first_nearest(&ranks) {
            Some(i) => {
                return BKeyAction::Place(i);
            },
            None => {},
        }
    }
    let mut ranks: Vec<Option<u64>> = Vec::new();
    let mut i: usize = 0;
    while i < miners.len()
        invariant
            i <= miners@.len(),
            ranks@ =~= collect_ranks(miners@).take(i as int),
        decreases miners@.len() - i,
    {
        let (_, miner, near) = miners[i];
        if miner.storage.total() > 0 && near.in_reach {
            ranks.push(Some(near.distance_rank));
        } else {
            ranks.push(None);
        }
        i = i + 1;
    }
    assert(ranks@ =~= collect_ranks(miners@));
    match first_nearest(&ranks) {
        Some(i) => BKeyAction::Collect(i),
        None => BKeyAction::Nothing,
    }
}

/// Deposit `i` is revealed, within reach, and no miner stands on it.
pub open spec fn free_deposit(
    deposits: Seq<(GridPos, Deposit, Nearby)>,
    miners: Seq<(GridPos, AutoMiner, Nearby)>,
    i: int,
) -> bool {
    &&& deposits[i].1.revealed
    &&& deposits[i].2.in_reach
    &&& forall|j: int| 0 <= j < miners.len() ==> #[trigger] miners[j].0 != deposits[i].0
}

/// Miner `j` holds stock and is within reach.
pub open spec fn stocked_miner(miners: Seq<(GridPos, AutoMiner, Nearby)>, j: int) -> bool {
    miners[j].1.storage.spec_total() > 0 && miners[j].2.in_reach
}

proof fn lemma_placement_ranks(
    deposits: Seq<(GridPos, Deposit, Nearby)>,
    miners: Seq<(GridPos, AutoMiner, Nearby)>,
)
    ensures
        placement_ranks(deposits, miners).len() == deposits.len(),
        forall|i: int| 0 <= i < deposits.len() ==> (#[trigger] placement_ranks(deposits, miners)[i] is Some
            <==> free_deposit(deposits, miners, i)),
        forall|i: int| 0 <= i < deposits.len() && placement_ranks(deposits, miners)[i] is Some
            ==> #[trigger] placement_ranks(deposits, miners)[i].unwrap() == deposits[i].2.distance_rank,
{
    assert forall|i: int| 0 <= i < deposits.len() implies (#[trigger] placement_ranks(deposits, miners)[i] is Some
        <==> free_deposit(deposits, miners, i)) by {
        if has_miner_at(miners, deposits[i].0) {
            let j = choose|j: int| 0 <= j < miners.len() && #[trigger] miners[j].0 == deposits[i].0;
            assert(!(miners[j].0 != deposits[i].0));
        }
    }
}

/// With B pressed outside the shop and a miner in stock, B places the miner
/// as soon as some revealed deposit within reach is free of miners,
/// whatever the stock of the miners around: on the nearest such deposit,
/// the first of equally near ones.
pub proof fn lemma_b_key_places_first(
    pressed: bool,
    shop_open: bool,
    miner_count: u32,
    deposits: Seq<(GridPos, Deposit, Nearby)>,
    miners: Seq<(GridPos, AutoMiner, Nearby)>,
)
    requires
        deposits.len() <= usize::MAX,
        pressed,
        !shop_open,
        miner_count > 0,
        exists|i: int| 0 <= i < deposits.len() && #[trigger] free_deposit(deposits, miners, i),
    ensures
        spec_b_key_action(pressed, shop_open, miner_count, deposits, miners) matches BKeyAction::Place(p) && {
            &&& p < deposits.len()
            &&& free_deposit(deposits, miners, p as int)
            &&& forall|i: int| 0 <= i < deposits.len() && #[trigger] free_deposit(deposits, miners, i)
                ==> deposits[p as int].2.distance_rank <= deposits[i].2.distance_rank
            &&& forall|i: int| 0 <= i < p && #[trigger] free_deposit(deposits, miners, i)
                ==> deposits[p as int].2.distance_rank < deposits[i].2.distance_rank
        },
{
    let r = placement_ranks(deposits, miners);
    lemma_placement_ranks(deposits, miners);
    crate::nearest::lemma_first_nearest(r);
    let i0 = choose|i: int| 0 <= i < deposits.len() && #[trigger] free_deposit(deposits, miners, i);
    assert(r[i0] is Some);
    let p = spec_first_nearest(r).unwrap();
    assert((p as usize) as int == p);
    assert forall|i: int| 0 <= i < deposits.len() && #[trigger] free_deposit(deposits, miners, i)
        implies deposits[p].2.distance_rank <= deposits[i].2.distance_rank by {
        assert(r[i] is Some);
    }
    assert forall|i: int| 0 <= i < p && #[trigger] free_deposit(deposits, miners, i)
        implies deposits[p].2.distance_rank < deposits[i].2.distance_rank by {
        assert(r[i] is Some);
    }
}

/// When B cannot place a miner (no miner in stock, or no free revealed
/// deposit within reach), it collects from the nearest miner within reach
/// that holds stock, the first of equally near ones, and does nothing only
/// when no such miner exists. Outside the shop only; elsewhere, or without
/// a press, B does nothing.
pub proof fn lemma_b_key_collects_otherwise(
    pressed: bool,
    shop_open: bool,
    miner_count: u32,
    deposits: Seq<(GridPos, Deposit, Nearby)>,
    miners: Seq<(GridPos, AutoMiner, Nearby)>,
)
    requires
        miners.len() <= usize::MAX,
    ensures
        !pressed || shop_open ==> spec_b_key_action(pressed, shop_open, miner_count, deposits, miners)
            == BKeyAction::Nothing,
        pressed && !shop_open && (miner_count == 0
            || forall|i: int| 0 <= i < deposits.len() ==> !#[trigger] free_deposit(deposits, miners, i)) ==> {
            match spec_b_key_action(pressed, shop_open, miner_count, deposits, miners) {
                BKeyAction::Collect(c) => {
                    &&& c < miners.len()
                    &&& stocked_miner(miners, c as int)
                    &&& forall|j: int| 0 <= j < miners.len() && #[trigger] stocked_miner(miners, j)
                        ==> miners[c as int].2.distance_rank <= miners[j].2.distance_rank
                    &&& forall|j: int| 0 <= j < c && #[trigger] stocked_miner(miners, j)
                        ==> miners[c as int].2.distance_rank < miners[j].2.distance_rank
                },
                BKeyAction::Nothing => forall|j: int| 0 <= j < miners.len() ==> !#[trigger] stocked_miner(miners, j),
                BKeyAction::Place(_) => false,
            }
        },
{
    let pr = placement_ranks(deposits, miners);
    let cr = collect_ranks(miners);
    lemma_placement_ranks(deposits, miners);
    crate::nearest::lemma_first_nearest(pr);
    crate::nearest::lemma_first_nearest(cr);
    if pressed && !shop_open && (miner_count == 0
        || forall|i: int| 0 <= i < deposits.len() ==> !#[trigger] free_deposit(deposits, miners, i)) {
        if miner_count > 0 {
            if spec_first_nearest(pr) is Some {
                let p = spec_first_nearest(pr).unwrap();
                assert(free_deposit(deposits, miners, p));
            }
        }
        match spec_first_nearest(cr) {
            Some(c) => {
                assert((c as usize) as int == c);
                assert forall|j: int| 0 <= j < miners.len() && #[trigger] stocked_miner(miners, j)
                    implies miners[c].2.distance_rank <= miners[j].2.distance_rank by {
                    assert(cr[j] is Some);
                }
                assert forall|j: int| 0 <= j < c && #[trigger] stocked_miner(miners, j)
                    implies miners[c].2.distance_rank < miners[j].2.distance_rank by {
                    assert(cr[j] is Some);
                }
            },
            None => {
                assert forall|j: int| 0 <= j < miners.len() implies !#[trigger] stocked_miner(miners, j) by {
                    assert(cr[j] is None);
                }
            },
        }
    }
}

/// Takes one miner out of the player's stock and sets it on a deposit of kind
/// `deposit_type`, empty.
pub fn place_miner(miner_inv: &mut MinerInventory, deposit_type: DepositType) -> (m: AutoMiner)
    requires
        old(miner_inv).count > 0,
    ensures
        final(miner_inv).count == old(miner_inv).count - 1,
        m.deposit_type == deposit_type,
        m.storage.spec_is_empty(),
{
    miner_inv.count = miner_inv.count - 1;
    AutoMiner { deposit_type, storage: ItemCounts::new() }
}

impl AutoMiner {
    /// A fresh, empty miner on a deposit of kind `deposit_type`.
    pub fn new(deposit_type: DepositType) -> (m: AutoMiner)
        ensures
            m.deposit_type == deposit_type,
            m.storage.spec_is_empty(),
            m.storage.spec_total() == 0,
    {
        AutoMiner { deposit_type, storage: ItemCounts::new() }
    }

    /// The storage is full: production is paused.
    pub fn is_full(&self) -> (b: bool)
        ensures
            b == (self.storage.spec_total() >= MAX_MINER_STORAGE),
    {
        self.storage.total() >= MAX_MINER_STORAGE as u64
    }

    /// One production cycle with the given percentage roll: a full miner
    /// produces nothing, otherwise it stores one unit of the ore the roll
    /// picks from its deposit's drop table.
    pub fn produce(&mut self, roll: u32)
        requires
            roll < 100,
        ensures
            final(self).deposit_type == old(self).deposit_type,
            old(self).storage.spec_total() >= MAX_MINER_STORAGE ==> final(self).storage == old(self).storage,
            old(self).storage.spec_total() < MAX_MINER_STORAGE ==> {
                let t = spec_pick(spec_drop_table(old(self).deposit_type), roll as int);
                &&& final(self).storage.counts@ == old(self).storage.counts@.update(
                    spec_tile_index(t), (old(self).storage.qty(t) + 1) as u32)
                &&& final(self).storage.spec_total() == old(self).storage.spec_total() + 1
            },
            final(self).storage.spec_total() <= MAX_MINER_STORAGE || final(self).storage == old(self).storage,
    {
        if self.is_full() {
            return;
        }
        let t = self.deposit_type.roll_drop(roll);
        proof {
            assert(self.storage.counts@.len() == 11);
            crate::economy::resources::lemma_seq_sum_bounds_element(self.storage.counts@, spec_tile_index(t));
        }
        self.storage.add(t, 1);
    }

    /// One production cycle with a random roll.
    pub fn produce_random(&mut self)
        ensures
            final(self).deposit_type == old(self).deposit_type,
            old(self).storage.spec_total() >= MAX_MINER_STORAGE ==> final(self).storage == old(self).storage,
            old(self).storage.spec_total() < MAX_MINER_STORAGE ==> exists|roll: int| 0 <= roll < 100 && {
                let t = #[trigger] spec_pick(spec_drop_table(old(self).deposit_type), roll);
                final(self).storage.counts@ == old(self).storage.counts@.update(
                    spec_tile_index(t), (old(self).storage.qty(t) + 1) as u32)
            },
    {
        let roll = roll_percent();
        self.produce(roll);
    }

    /// The player collects from this miner: as much of its stock as fits in
    /// the bag moves over, kind by kind in display order.
    pub fn collect_into(&mut self, inventory: &mut Inventory, capacity: u32)
        requires
            old(inventory).items.spec_total() <= u32::MAX,
        ensures
            final(self).deposit_type == old(self).deposit_type,
            ({
                let room = if old(inventory).items.spec_total() <= capacity {
                    capacity - old(inventory).items.spec_total()
                } else {
                    0
                };
                &&& forall|k: int| 0 <= k < 11 ==>
                    #[trigger] final(self).storage.counts@[k] == old(self).storage.counts@[k]
                        - crate::economy::resources::spec_moved_at(old(self).storage.counts@, room, k)
                &&& forall|k: int| 0 <= k < 11 ==>
                    #[trigger] final(inventory).items.counts@[k] == old(inventory).items.counts@[k]
                        + crate::economy::resources::spec_moved_at(old(self).storage.counts@, room, k)
                &&& final(inventory).items.spec_total() == old(inventory).items.spec_total()
                    + crate::economy::resources::min(room, old(self).storage.spec_total())
            }),
    {
        inventory.take_from(&mut self.storage, capacity);
    }
}

} // verus!
