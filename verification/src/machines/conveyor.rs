use vstd::prelude::*;

use crate::economy::resources::{Inventory, ItemCounts, Wallet};
use crate::economy::resources::{min, seq_sum, seq_value, spec_first_held, spec_moved_at};
use crate::machines::auto_miner::AutoMiner;
use crate::world::tiles::{abs, manhattan, spec_tile_index, GridPos, TileType, TILE_KINDS};

verus! {

/// Coins charged for each belt tile laid.
pub const CONVEYOR_COST: u64 = 10;

/// A belt ending within this Manhattan distance of the sell tile sells what
/// it carries.
pub const SELL_ZONE_PROXIMITY: i32 = 3;

/// The player collects a belt's end stock from within this Manhattan distance.
pub const COLLECT_DISTANCE: i64 = 2;

/// Why a traced belt was not built.
#[derive(Clone, Copy, PartialEq, Eq, Structural, Debug)]
pub enum BuildError {
    TooShort,
    NoMinerAdjacent,
    OutOfMoney,
}

impl BuildError {
    /// Message shown to the player.
    pub fn message(&self) -> (s: &'static str)
        ensures
            s@ == match *self {
                BuildError::TooShort => "Tapis trop court (min 2 tiles)"@,
                BuildError::NoMinerAdjacent => "Aucun mineur adjacent au tapis !"@,
                BuildError::OutOfMoney => "Plus assez d'argent !"@,
            },
    {
        match self {
            BuildError::TooShort => "Tapis trop court (min 2 tiles)",
            BuildError::NoMinerAdjacent => "Aucun mineur adjacent au tapis !",
            BuildError::OutOfMoney => "Plus assez d'argent !",
        }
    }
}

/// The tracing mode: the path being laid and how the last attempt ended.
#[derive(Debug)]
pub struct ConveyorState {
    pub tracing: bool,
    pub current_path: Vec<GridPos>,
    pub build_error: Option<BuildError>,
    /// Cell where the player stood when the path last grew.
    pub last_grid: Option<GridPos>,
    /// Belt and tile index where the path being traced ran into an existing belt.
    pub merge_target: Option<(u32, usize)>,
}

impl Default for ConveyorState {
    fn default() -> (s: ConveyorState)
        ensures
            !s.tracing,
            s.current_path@.len() == 0,
            s.build_error is None,
            s.last_grid is None,
            s.merge_target is None,
    {
        ConveyorState {
            tracing: false,
            current_path: Vec::new(),
            build_error: None,
            last_grid: None,
            merge_target: None,
        }
    }
}

/// A conveyor belt: tiles from source to end, one slot per tile.
#[derive(Debug)]
pub struct Belt {
    pub id: u32,
    pub path: Vec<GridPos>,
    pub slots: Vec<Option<TileType>>,
    /// What reached the end and was neither sold nor passed on.
    pub end_storage: ItemCounts,
    pub sells_at_end: bool,
    /// Belt id and tile index this belt pours into.
    pub feeds_into: Option<(u32, usize)>,
}

/// A belt as plain values.
pub struct BeltView {
    pub id: u32,
    pub path: Seq<GridPos>,
    pub slots: Seq<Option<TileType>>,
    pub end_storage: Seq<u32>,
    pub sells_at_end: bool,
    pub feeds_into: Option<(u32, usize)>,
}

impl View for Belt {
    type V = BeltView;

    open spec fn view(&self) -> BeltView {
        BeltView {
            id: self.id,
            path: self.path@,
            slots: self.slots@,
            end_storage: self.end_storage.counts@,
            sells_at_end: self.sells_at_end,
            feeds_into: self.feeds_into,
        }
    }
}

/// Every belt has at least one tile and one slot per tile.
pub open spec fn belt_wf(b: BeltView) -> bool {
    &&& b.path.len() >= 1
    &&& b.slots.len() == b.path.len()
    &&& b.end_storage.len() == TILE_KINDS
}

/// All the belts built so far.
#[derive(Debug)]
pub struct ConveyorBelts {
    pub belts: Vec<Belt>,
    pub next_id: u32,
}

impl Default for ConveyorBelts {
    fn default() -> (c: ConveyorBelts)
        ensures
            c.view().len() == 0,
            c.next_id == 0,
            c.wf(),
    {
        ConveyorBelts { belts: Vec::new(), next_id: 0 }
    }
}

impl ConveyorBelts {
    pub open spec fn view(&self) -> Seq<BeltView> {
        self.belts@.map_values(|b: Belt| b@)
    }

    /// Each belt is well formed; ids are distinct and below `next_id`.
    pub open spec fn wf(&self) -> bool {
        &&& forall|i: int| 0 <= i < self.view().len() ==> belt_wf(#[trigger] self.view()[i])
        &&& forall|i: int| 0 <= i < self.view().len() ==> #[trigger] self.view()[i].id < self.next_id
        &&& forall|i: int, j: int| 0 <= i < j < self.view().len() ==>
            #[trigger] self.view()[i].id != #[trigger] self.view()[j].id
    }
}

/// Two cells are the same or share an edge.
pub open spec fn spec_touches(a: GridPos, b: GridPos) -> bool {
    manhattan(a, b) <= 1
}

/// Some tile of `path` touches some miner.
pub open spec fn spec_connects(path: Seq<GridPos>, miners: Seq<GridPos>) -> bool {
    exists|i: int, j: int| 0 <= i < path.len() && 0 <= j < miners.len()
        && spec_touches(#[trigger] path[i], #[trigger] miners[j])
}

/// The cell lies near enough to the sell tile `(0, -2)` to sell.
pub open spec fn spec_near_sell_zone(p: GridPos) -> bool {
    abs(p.x as int) + abs(p.y + 2) <= SELL_ZONE_PROXIMITY
}

fn manhattan_i64(a: GridPos, b: GridPos) -> (d: i64)
    ensures
        d == manhattan(a, b),
{
    let dx: i64 = a.x as i64 - b.x as i64;
    let dy: i64 = a.y as i64 - b.y as i64;
    let ax: i64 = if dx < 0 { -dx } else { dx };
    let ay: i64 = if dy < 0 { -dy } else { dy };
    ax + ay
}

/// The cell lies near enough to the sell tile `(0, -2)` to sell.
pub fn is_near_sell_zone(pos: &GridPos) -> (b: bool)
    ensures
        b == spec_near_sell_zone(*pos),
{
    manhattan_i64(*pos, GridPos { x: 0, y: -2 }) <= SELL_ZONE_PROXIMITY as i64
}

/// Some tile of `path` is a miner's cell or shares an edge with one.
pub fn path_connects_to_miner(path: &Vec<GridPos>, miner_positions: &Vec<GridPos>) -> (b: bool)
    ensures
        b == spec_connects(path@, miner_positions@),
{
    let mut i: usize = 0;
    while i < path.len()
        invariant
            i <= path@.len(),
            forall|a: int, c: int| 0 <= a < i && 0 <= c < miner_positions@.len()
                ==> !spec_touches(#[trigger] path@[a], #[trigger] miner_positions@[c]),
        decreases path@.len() - i,
    {
        let mut j: usize = 0;
        while j < miner_positions.len()
            invariant
                i < path@.len(),
                j <= miner_positions@.len(),
                forall|a: int, c: int| 0 <= a < i && 0 <= c < miner_positions@.len()
                    ==> !spec_touches(#[trigger] path@[a], #[trigger] miner_positions@[c]),
                forall|c: int| 0 <= c < j ==> !spec_touches(path@[i as int], #[trigger] miner_positions@[c]),
            decreases miner_positions@.len() - j,
        {
            if manhattan_i64(path[i], miner_positions[j]) <= 1 {
                assert(spec_touches(path@[i as int], miner_positions@[j as int]));
                return true;
            }
            j = j + 1;
        }
        i = i + 1;
    }
    false
}

/// First index of `g` in `path` from `i` on.
pub open spec fn index_in(path: Seq<GridPos>, g: GridPos, i: int) -> Option<int>
    decreases path.len() - i,
{
    if i < 0 || i >= path.len() {
        None
    } else if path[i] == g {
        Some(i)
    } else {
        index_in(path, g, i + 1)
    }
}

/// The belt tile lying on `g`, looking at belts from `b` on: the first belt
/// that covers it, and its first tile there.
pub open spec fn tile_at_from(belts: Seq<BeltView>, g: GridPos, b: int) -> Option<(u32, usize)>
    decreases belts.len() - b,
{
    if b < 0 || b >= belts.len() {
        None
    } else {
        match index_in(belts[b].path, g, 0) {
            Some(i) => Some((belts[b].id, i as usize)),
            None => tile_at_from(belts, g, b + 1),
        }
    }
}

pub open spec fn spec_tile_at(belts: Seq<BeltView>, g: GridPos) -> Option<(u32, usize)> {
    tile_at_from(belts, g, 0)
}

impl ConveyorBelts {
    /// The belt tile lying on `g`: belt id and tile index.
    pub fn tile_at(&self, g: GridPos) -> (r: Option<(u32, usize)>)
        ensures
            r == spec_tile_at(self.view(), g),
    {
        let mut b: usize = 0;
        while b < self.belts.len()
            invariant
                b <= self.belts@.len(),
                self.view().len() == self.belts@.len(),
                spec_tile_at(self.view(), g) == tile_at_from(self.view(), g, b as int),
            decreases self.belts@.len() - b,
        {
            let belt = &self.belts[b];
            assert(self.view()[b as int] == belt@);
            let mut i: usize = 0;
            while i < belt.path.len()
                invariant
                    i <= belt.path@.len(),
                    b < self.belts@.len(),
                    self.view()[b as int] == belt@,
                    spec_tile_at(self.view(), g) == tile_at_from(self.view(), g, b as int),
                    index_in(belt.path@, g, 0) == index_in(belt.path@, g, i as int),
                decreases belt.path@.len() - i,
            {
                if belt.path[i] == g {
                    assert(index_in(belt.path@, g, i as int) == Some(i as int));
                    assert(tile_at_from(self.view(), g, b as int) == Some((belt.id, i)));
                    return Some((belt.id, i));
                }
                i = i + 1;
            }
            b = b + 1;
        }
        None
    }
}

/// A freshly built belt: empty slots, empty end stock.
pub open spec fn spec_new_belt(
    id: u32,
    path: Seq<GridPos>,
    sells_at_end: bool,
    feeds_into: Option<(u32, usize)>,
) -> BeltView {
    BeltView {
        id,
        path,
        slots: Seq::new(path.len(), |i: int| None),
        end_storage: Seq::new(11, |i: int| 0u32),
        sells_at_end,
        feeds_into,
    }
}

impl ConveyorBelts {
    /// Builds a new belt along `path` under the next free id, and returns that id.
    fn add_belt(&mut self, path: Vec<GridPos>, sells_at_end: bool, feeds_into: Option<(u32, usize)>) -> (id: u32)
        requires
            old(self).wf(),
            old(self).next_id < u32::MAX,
            path@.len() >= 1,
        ensures
            id == old(self).next_id,
            final(self).next_id == old(self).next_id + 1,
            final(self).view() == old(self).view().push(spec_new_belt(id, path@, sells_at_end, feeds_into)),
            final(self).wf(),
    {
        let n = path.len();
        let mut slots: Vec<Option<TileType>> = Vec::new();
        let mut i: usize = 0;
        while i < n
            invariant
                i <= n,
                slots@ =~= Seq::new(i as nat, |k: int| None::<TileType>),
            decreases n - i,
        {
            slots.push(None);
            i = i + 1;
        }
        let id = self.next_id;
        let belt = Belt { id, path, slots, end_storage: ItemCounts::new(), sells_at_end, feeds_into };
        assert(belt@ == spec_new_belt(id, belt.path@, sells_at_end, feeds_into));
        self.belts.push(belt);
        self.next_id = id + 1;
        assert(self.view() =~= old(self).view().push(spec_new_belt(id, belt.path@, sells_at_end, feeds_into)));
        id
    }
}

/// Coins paid for the path being traced: `CONVEYOR_COST` for every cell
/// laid, that is every cell but the free cell of a belt the path ran into.
pub open spec fn traced_cost(s: ConveyorState) -> int {
    let n = s.current_path@.len() as int;
    CONVEYOR_COST * (if s.merge_target is Some && n > 0 { n - 1 } else { n })
}

/// What a press of T did.
#[derive(Clone, Copy, PartialEq, Eq, Structural, Debug)]
pub enum ToggleOutcome {
    /// The key was not pressed, or the shop is open.
    Ignored,
    /// Tracing started on the player's cell, which was paid for.
    Started,
    /// Tracing could not start: the player cannot pay for the first cell.
    OutOfMoney,
    /// Tracing ended without a belt; the path was refunded.
    Cancelled,
    /// Tracing ended and the belt with this id was built.
    Built(u32),
}

impl ConveyorState {
    /// The T key: starts tracing on the player's cell, paying `CONVEYOR_COST`
    /// for it, or ends tracing and builds the traced belt.
    ///
    /// Ending fails, refunding what the path cost (`CONVEYOR_COST` per path
    /// tile), when the path has fewer than 2 tiles or no tile touches a
    /// miner. A built belt sells what it carries when its last tile is near
    /// the sell zone.
    pub fn toggle_tracing(
        &mut self,
        belts: &mut ConveyorBelts,
        wallet: &mut Wallet,
        pressed: bool,
        shop_open: bool,
        player_grid: GridPos,
        miner_positions: &Vec<GridPos>,
    ) -> (o: ToggleOutcome)
        requires
            old(belts).wf(),
            pressed && !shop_open && old(self).tracing && old(self).current_path@.len() >= 2
                && spec_connects(old(self).current_path@, miner_positions@) ==> old(belts).next_id < u32::MAX,
            pressed && !shop_open && old(self).tracing && (old(self).current_path@.len() < 2
                || !spec_connects(old(self).current_path@, miner_positions@))
                ==> old(wallet).money + old(self).current_path@.len() * CONVEYOR_COST <= u64::MAX,
        ensures
            final(belts).wf(),
            final(self).merge_target == old(self).merge_target,
            !pressed || shop_open ==> {
                &&& o == ToggleOutcome::Ignored
                &&& *final(wallet) == *old(wallet)
                &&& final(belts).view() == old(belts).view()
                &&& final(belts).next_id == old(belts).next_id
                &&& final(self).tracing == old(self).tracing
                &&& final(self).current_path@ == old(self).current_path@
                &&& final(self).last_grid == old(self).last_grid
                &&& final(self).build_error == old(self).build_error
            },
            pressed && !shop_open && !old(self).tracing && old(wallet).money < CONVEYOR_COST ==> {
                &&& o == ToggleOutcome::OutOfMoney
                &&& !final(self).tracing
                &&& final(self).current_path@ == old(self).current_path@
                &&& final(self).last_grid == old(self).last_grid
                &&& final(self).build_error == Some(BuildError::OutOfMoney)
                &&& *final(wallet) == *old(wallet)
                &&& final(belts).view() == old(belts).view()
                &&& final(belts).next_id == old(belts).next_id
            },
            pressed && !shop_open && !old(self).tracing && old(wallet).money >= CONVEYOR_COST ==> {
                &&& o == ToggleOutcome::Started
                &&& final(self).tracing
                &&& final(self).current_path@ == seq![player_grid]
                &&& final(self).last_grid == Some(player_grid)
                &&& final(self).build_error is None
                &&& final(wallet).money == old(wallet).money - CONVEYOR_COST
                &&& final(belts).view() == old(belts).view()
                &&& final(belts).next_id == old(belts).next_id
                &&& old(self).merge_target is None ==> final(wallet).money + traced_cost(*final(self)) == old(wallet).money
            },
            pressed && !shop_open && old(self).tracing ==> {
                let path = old(self).current_path@;
                let refund = path.len() * CONVEYOR_COST;
                &&& old(self).merge_target is None ==> refund == traced_cost(*old(self))
                &&& !final(self).tracing
                &&& final(self).current_path@.len() == 0
                &&& final(self).last_grid is None
                &&& if path.len() < 2 {
                    &&& o == ToggleOutcome::Cancelled
                    &&& final(self).build_error == Some(BuildError::TooShort)
                    &&& final(wallet).money == old(wallet).money + refund
                    &&& final(belts).view() == old(belts).view()
                    &&& final(belts).next_id == old(belts).next_id
                } else if !spec_connects(path, miner_positions@) {
                    &&& o == ToggleOutcome::Cancelled
                    &&& final(self).build_error == Some(BuildError::NoMinerAdjacent)
                    &&& final(wallet).money == old(wallet).money + refund
                    &&& final(belts).view() == old(belts).view()
                    &&& final(belts).next_id == old(belts).next_id
                } else {
                    &&& o == ToggleOutcome::Built(old(belts).next_id)
                    &&& final(self).build_error is None
                    &&& *final(wallet) == *old(wallet)
                    &&& final(belts).next_id == old(belts).next_id + 1
                    &&& final(belts).view() == old(belts).view().push(spec_new_belt(
                        old(belts).next_id, path, spec_near_sell_zone(path.last()), None))
                }
            },
    {
        if !pressed || shop_open {
            return ToggleOutcome::Ignored;
        }
        self.build_error = None;
        if self.tracing {
            self.tracing = false;
            let mut path: Vec<GridPos> = Vec::new();
            std::mem::swap(&mut path, &mut self.current_path);
            self.last_grid = None;
            if path.len() < 2 {
                let refund = path.len() as u64 * CONVEYOR_COST;
                wallet.money = wallet.money + refund;
                self.build_error = Some(BuildError::TooShort);
                return ToggleOutcome::Cancelled;
            }
            if !path_connects_to_miner(&path, miner_positions) {
                let refund = path.len() as u64 * CONVEYOR_COST;
                wallet.money = wallet.money + refund;
                self.build_error = Some(BuildError::NoMinerAdjacent);
                return ToggleOutcome::Cancelled;
            }
            let sells_at_end = is_near_sell_zone(&path[path.len() - 1]);
            let id = belts.add_belt(path, sells_at_end, None);
            ToggleOutcome::Built(id)
        } else {
            if wallet.money < CONVEYOR_COST {
                self.build_error = Some(BuildError::OutOfMoney);
                return ToggleOutcome::OutOfMoney;
            }
            wallet.money = wallet.money - CONVEYOR_COST;
            self.tracing = true;
            self.current_path = Vec::new();
            self.current_path.push(player_grid);
            self.last_grid = Some(player_grid);
            assert(self.current_path@ =~= seq![player_grid]);
            ToggleOutcome::Started
        }
    }
}

/// What one frame of tracing did.
#[derive(Clone, Copy, PartialEq, Eq, Structural, Debug)]
pub enum TraceOutcome {
    /// Nothing: not tracing, or the player's cell is already on the path.
    Idle,
    /// The path reached an existing belt; tracing stopped to merge into it.
    Merged,
    /// The player could not pay for the next tile; tracing stopped.
    OutOfMoney,
    /// A tile was paid for and added to the path.
    Placed,
}

/// What finishing a merge did.
#[derive(Clone, Copy, PartialEq, Eq, Structural, Debug)]
pub enum MergeOutcome {
    /// No merge was pending.
    Idle,
    /// The merging path was dropped.
    Cancelled,
    /// The belt with this id was built; it pours into the belt it reached.
    Built(u32),
}

fn path_contains(path: &Vec<GridPos>, g: GridPos) -> (b: bool)
    ensures
        b == path@.contains(g),
{
    let mut i: usize = 0;
    while i < path.len()
        invariant
            i <= path@.len(),
            forall|k: int| 0 <= k < i ==> path@[k] != g,
        decreases path@.len() - i,
    {
        if path[i] == g {
            assert(path@[i as int] == g);
            return true;
        }
        i = i + 1;
    }
    false
}

impl ConveyorState {
    /// One frame of tracing with the player standing on `player_grid`.
    ///
    /// A new cell is added to the path for `CONVEYOR_COST` coins; stepping
    /// onto an existing belt adds that cell for free and stops tracing with a
    /// pending merge into that belt tile; not being able to pay stops tracing.
    pub fn trace_path(&mut self, belts: &ConveyorBelts, wallet: &mut Wallet, player_grid: GridPos) -> (o: TraceOutcome)
        ensures
            final(self).build_error == (if o == TraceOutcome::OutOfMoney {
                Some(BuildError::OutOfMoney)
            } else {
                old(self).build_error
            }),
            old(self).merge_target is None ==> final(wallet).money + traced_cost(*final(self))
                == old(wallet).money + traced_cost(*old(self)),
            ({
                let idle = !old(self).tracing || old(self).last_grid == Some(player_grid)
                    || old(self).current_path@.contains(player_grid);
                if idle {
                    &&& o == TraceOutcome::Idle
                    &&& final(self).tracing == old(self).tracing
                    &&& final(self).current_path@ == old(self).current_path@
                    &&& final(self).last_grid == old(self).last_grid
                    &&& final(self).merge_target == old(self).merge_target
                    &&& *final(wallet) == *old(wallet)
                } else if spec_tile_at(belts.view(), player_grid) is Some {
                    &&& o == TraceOutcome::Merged
                    &&& !final(self).tracing
                    &&& final(self).current_path@ == old(self).current_path@.push(player_grid)
                    &&& final(self).last_grid == Some(player_grid)
                    &&& final(self).merge_target == spec_tile_at(belts.view(), player_grid)
                    &&& *final(wallet) == *old(wallet)
                } else if old(wallet).money < CONVEYOR_COST {
                    &&& o == TraceOutcome::OutOfMoney
                    &&& !final(self).tracing
                    &&& final(self).current_path@ == old(self).current_path@
                    &&& final(self).last_grid == old(self).last_grid
                    &&& final(self).merge_target == old(self).merge_target
                    &&& *final(wallet) == *old(wallet)
                } else {
                    &&& o == TraceOutcome::Placed
                    &&& final(self).tracing
                    &&& final(self).current_path@ == old(self).current_path@.push(player_grid)
                    &&& final(self).last_grid == Some(player_grid)
                    &&& final(self).merge_target == old(self).merge_target
                    &&& final(wallet).money == old(wallet).money - CONVEYOR_COST
                }
            }),
    {
        if !self.tracing {
            return TraceOutcome::Idle;
        }
        match self.last_grid {
            Some(last) => {
                if last == player_grid {
                    return TraceOutcome::Idle;
                }
            },
            None => {},
        }
        if path_contains(&self.current_path, player_grid) {
            return TraceOutcome::Idle;
        }
        match belts.tile_at(player_grid) {
            Some(target) => {
                self.current_path.push(player_grid);
                self.last_grid = Some(player_grid);
                self.tracing = false;
                self.merge_target = Some(target);
                return TraceOutcome::Merged;
            },
            None => {},
        }
        if wallet.money < CONVEYOR_COST {
            self.tracing = false;
            self.build_error = Some(BuildError::OutOfMoney);
            return TraceOutcome::OutOfMoney;
        }
        wallet.money = wallet.money - CONVEYOR_COST;
        self.current_path.push(player_grid);
        self.last_grid = Some(player_grid);
        TraceOutcome::Placed
    }

    /// Completes a pending merge: builds the traced belt, minus the cell of
    /// the belt it reached, pouring into that belt tile.
    ///
    /// The merge is dropped, refunding what the path cost (every cell but
    /// the free one of the reached belt), when the path has fewer than 2
    /// cells or when no cell of it touches a miner.
    pub fn finalize_merge(
        &mut self,
        belts: &mut ConveyorBelts,
        wallet: &mut Wallet,
        miner_positions: &Vec<GridPos>,
    ) -> (o: MergeOutcome)
        requires
            old(belts).wf(),
            old(self).merge_target is Some && old(self).current_path@.len() >= 2
                && spec_connects(old(self).current_path@, miner_positions@) ==> old(belts).next_id < u32::MAX,
            old(self).merge_target is Some && !(old(self).current_path@.len() >= 2
                && spec_connects(old(self).current_path@, miner_positions@))
                ==> old(wallet).money + traced_cost(*old(self)) <= u64::MAX,
        ensures
            final(belts).wf(),
            final(self).tracing == old(self).tracing,
            old(self).merge_target is None ==> {
                &&& o == MergeOutcome::Idle
                &&& final(self).current_path@ == old(self).current_path@
                &&& final(self).last_grid == old(self).last_grid
                &&& final(self).build_error == old(self).build_error
                &&& final(self).merge_target is None
                &&& *final(wallet) == *old(wallet)
                &&& final(belts).view() == old(belts).view()
                &&& final(belts).next_id == old(belts).next_id
            },
            old(self).merge_target is Some ==> {
                let path = old(self).current_path@;
                &&& final(self).merge_target is None
                &&& final(self).current_path@.len() == 0
                &&& final(self).last_grid is None
                &&& if path.len() < 2 {
                    &&& o == MergeOutcome::Cancelled
                    &&& final(self).build_error == Some(BuildError::TooShort)
                    &&& final(wallet).money == old(wallet).money + traced_cost(*old(self))
                    &&& final(wallet).money == old(wallet).money
                    &&& final(belts).view() == old(belts).view()
                    &&& final(belts).next_id == old(belts).next_id
                } else if !spec_connects(path, miner_positions@) {
                    &&& o == MergeOutcome::Cancelled
                    &&& final(self).build_error == Some(BuildError::NoMinerAdjacent)
                    &&& final(wallet).money == old(wallet).money + (path.len() - 1) * CONVEYOR_COST
                    &&& final(wallet).money == old(wallet).money + traced_cost(*old(self))
                    &&& final(belts).view() == old(belts).view()
                    &&& final(belts).next_id == old(belts).next_id
                } else {
                    &&& o == MergeOutcome::Built(old(belts).next_id)
                    &&& final(self).build_error == old(self).build_error
                    &&& *final(wallet) == *old(wallet)
                    &&& traced_cost(*old(self)) == (path.len() - 1) * CONVEYOR_COST
                    &&& final(belts).next_id == old(belts).next_id + 1
                    &&& final(belts).view() == old(belts).view().push(spec_new_belt(
                        old(belts).next_id, path.drop_last(), false, old(self).merge_target))
                }
            },
    {
        let target = match self.merge_target {
            Some(t) => t,
            None => {
                return MergeOutcome::Idle;
            },
        };
        self.merge_target = None;
        let mut path: Vec<GridPos> = Vec::new();
        std::mem::swap(&mut path, &mut self.current_path);
        self.last_grid = None;
        if path.len() < 2 {
            self.build_error = Some(BuildError::TooShort);
            return MergeOutcome::Cancelled;
        }
        if !path_connects_to_miner(&path, miner_positions) {
            let refund = (path.len() - 1) as u64 * CONVEYOR_COST;
            wallet.money = wallet.money + refund;
            self.build_error = Some(BuildError::NoMinerAdjacent);
            return MergeOutcome::Cancelled;
        }
        let keep = path.len() - 1;
        path.truncate(keep);
        assert(path@ =~= old(self).current_path@.drop_last());
        let id = belts.add_belt(path, false, Some(target));
        MergeOutcome::Built(id)
    }
}

/// A belt after one transport step: every slot moves one tile toward the
/// end, the first slot empties, and what sat on the last tile lands in the
/// end stock.
pub open spec fn spec_transported(b: BeltView) -> BeltView {
    let n = b.slots.len();
    BeltView {
        slots: seq![None] + b.slots.take(n - 1),
        end_storage: match b.slots[n - 1] {
            Some(t) => b.end_storage.update(spec_tile_index(t), (b.end_storage[spec_tile_index(t)] + 1) as u32),
            None => b.end_storage,
        },
        ..b
    }
}

/// The end stock can take what sits on the last tile without overflowing.
pub open spec fn transport_fits(b: BeltView) -> bool {
    b.slots.last() matches Some(t) ==> b.end_storage[spec_tile_index(t)] < u32::MAX
}

/// Total coin value of the end stocks of the belts that sell at their end.
pub open spec fn selling_value(belts: Seq<BeltView>) -> int
    decreases belts.len(),
{
    if belts.len() == 0 {
        0
    } else {
        selling_value(belts.drop_last()) + if belts.last().sells_at_end {
            seq_value(belts.last().end_storage)
        } else {
            0
        }
    }
}

/// Whole stock is sold: a selling belt's end stock empties.
pub open spec fn spec_delivered(b: BeltView) -> BeltView {
    if b.sells_at_end {
        BeltView { end_storage: Seq::new(11, |i: int| 0u32), ..b }
    } else {
        b
    }
}

impl Belt {
    /// One transport step (see `spec_transported`).
    pub fn transport(&mut self)
        requires
            belt_wf(old(self)@),
            old(self).slots@.last() matches Some(t) ==> old(self).end_storage.qty(t) < u32::MAX,
        ensures
            final(self)@ == spec_transported(old(self)@),
    {
        let n = self.slots.len();
        let last = self.slots[n - 1];
        assert(last == old(self)@.slots[n - 1]);
        self.slots[n - 1] = None;
        match last {
            Some(t) => {
                self.end_storage.add(t, 1);
                assert(self.end_storage.counts@ == old(self).end_storage.counts@.update(
                    spec_tile_index(t), (old(self).end_storage.counts@[spec_tile_index(t)] + 1) as u32));
            },
            None => {},
        }
        let ghost s0 = old(self).slots@;
        let ghost e1 = self.end_storage;
        let mut k: usize = n - 1;
        while k >= 1
            invariant
                self.end_storage == e1,
                self.id == old(self).id,
                self.path == old(self).path,
                self.sells_at_end == old(self).sells_at_end,
                self.feeds_into == old(self).feeds_into,
                n == s0.len(),
                n >= 1,
                k < n,
                self.slots@.len() == n,
                self.slots@[k as int] is None,
                forall|j: int| 0 <= j < k ==> self.slots@[j] == s0[j],
                forall|j: int| k < j < n ==> self.slots@[j] == s0[j - 1],
            decreases k,
        {
            if self.slots[k].is_none() {
                let prev = self.slots[k - 1];
                self.slots[k] = prev;
                self.slots[k - 1] = None;
            }
            k = k - 1;
        }
        assert(self.slots@ =~= seq![None] + s0.take(n - 1));
        assert(self@.end_storage =~= spec_transported(old(self)@).end_storage);
    }
}

impl ConveyorBelts {
    /// Moves the belts whose transport timer fired (`finished[i]` for belt `i`).
    pub fn conveyor_transport(&mut self, finished: &Vec<bool>)
        requires
            old(self).wf(),
            finished@.len() == old(self).view().len(),
            forall|i: int| 0 <= i < old(self).view().len() ==>
                transport_fits(#[trigger] old(self).view()[i]),
        ensures
            final(self).wf(),
            final(self).next_id == old(self).next_id,
            final(self).view() == Seq::new(
                old(self).view().len(),
                |i: int| if finished@[i] { spec_transported(old(self).view()[i]) } else { old(self).view()[i] },
            ),
    {
        let n = self.belts.len();
        let mut i: usize = 0;
        assert forall|j: int| 0 <= j < n implies belt_wf(#[trigger] old(self).belts@[j]@)
            && transport_fits(old(self).belts@[j]@) by {
            assert(old(self).view()[j] == old(self).belts@[j]@);
        }
        while i < n
            invariant
                i <= n,
                n == old(self).belts@.len(),
                finished@.len() == n,
                self.next_id == old(self).next_id,
                self.belts@.len() == n,
                forall|j: int| 0 <= j < i ==> (#[trigger] self.belts@[j])@ == (if finished@[j] {
                    spec_transported(old(self).belts@[j]@)
                } else {
                    old(self).belts@[j]@
                }),
                forall|j: int| i <= j < n ==> #[trigger] self.belts@[j] == old(self).belts@[j],
                forall|j: int| 0 <= j < n ==> belt_wf(#[trigger] old(self).belts@[j]@),
                forall|j: int| 0 <= j < n ==> transport_fits(#[trigger] old(self).belts@[j]@),
            decreases n - i,
        {
            if finished[i] {
                self.belts[i].transport();
            }
            i = i + 1;
        }
        proof {
            assert forall|j: int| 0 <= j < n implies belt_wf(#[trigger] self.view()[j]) by {
                assert(belt_wf(old(self).belts@[j]@));
            }
            assert(self.view() =~= Seq::new(
                old(self).view().len(),
                |i: int| if finished@[i] { spec_transported(old(self).view()[i]) } else { old(self).view()[i] },
            ));
        }
    }

    /// Sells the end stock of every belt that ends near the sell zone.
    pub fn conveyor_deliver(&mut self, wallet: &mut Wallet)
        requires
            old(self).wf(),
            old(wallet).money + selling_value(old(self).view()) <= u64::MAX,
        ensures
            final(self).wf(),
            final(self).next_id == old(self).next_id,
            final(self).view() == old(self).view().map_values(|b: BeltView| spec_delivered(b)),
            final(wallet).money == old(wallet).money + selling_value(old(self).view()),
    {
        let n = self.belts.len();
        let mut i: usize = 0;
        while i < n
            invariant
                i <= n,
                n == old(self).belts@.len(),
                self.next_id == old(self).next_id,
                self.belts@.len() == n,
                forall|j: int| 0 <= j < i ==> (#[trigger] self.belts@[j])@ == spec_delivered(old(self).belts@[j]@),
                forall|j: int| i <= j < n ==> #[trigger] self.belts@[j] == old(self).belts@[j],
                wallet.money == old(wallet).money + selling_value(old(self).view().take(i as int)),
                old(wallet).money + selling_value(old(self).view()) <= u64::MAX,
                old(self).view().len() == n,
            decreases n - i,
        {
            proof {
                assert(old(self).view().take(i + 1).drop_last() =~= old(self).view().take(i as int));
                lemma_selling_value_prefix(old(self).view(), i as int + 1);
                lemma_seq_value_nonneg(old(self).view()[i as int].end_storage);
                assert(old(self).view()[i as int] == old(self).belts@[i as int]@);
            }
            if self.belts[i].sells_at_end && !self.belts[i].end_storage.is_empty() {
                let v = self.belts[i].end_storage.value();
                wallet.money = wallet.money + v;
                self.belts[i].end_storage.clear();
                assert(self.belts@[i as int]@.end_storage =~= Seq::new(11, |k: int| 0u32));
            } else if self.belts[i].sells_at_end {
                proof {
                    crate::economy::resources::lemma_seq_sum_zero(self.belts@[i as int].end_storage.counts@);
                }
                assert(self.belts@[i as int]@.end_storage =~= Seq::new(11, |k: int| 0u32));
            }
            i = i + 1;
        }
        proof {
            assert(old(self).view().take(n as int) =~= old(self).view());
            assert(self.view() =~= old(self).view().map_values(|b: BeltView| spec_delivered(b)));
            assert forall|j: int| 0 <= j < n implies belt_wf(#[trigger] self.view()[j]) by {
                assert(belt_wf(old(self).view()[j]));
            }
        }
    }

    /// What the belt tile `index` of belt `belt_id` carries, or `None` when
    /// there is no such tile (its look then stays as it is).
    pub fn slot_content(&self, belt_id: u32, index: usize) -> (r: Option<Option<TileType>>)
        ensures
            match r {
                Some(c) => exists|b: int| 0 <= b < self.view().len() && #[trigger] self.view()[b].id == belt_id
                    && index < self.view()[b].slots.len() && self.view()[b].slots[index as int] == c
                    && forall|a: int| 0 <= a < b ==> #[trigger] self.view()[a].id != belt_id,
                None => forall|b: int| 0 <= b < self.view().len() && #[trigger] self.view()[b].id == belt_id
                    ==> index >= self.view()[b].slots.len() || exists|a: int| 0 <= a < b && #[trigger] self.view()[a].id == belt_id,
            },
    {
        let mut b: usize = 0;
        while b < self.belts.len()
            invariant
                b <= self.belts@.len(),
                self.view().len() == self.belts@.len(),
                forall|a: int| 0 <= a < b ==> #[trigger] self.view()[a].id != belt_id,
            decreases self.belts@.len() - b,
        {
            assert(self.view()[b as int] == self.belts@[b as int]@);
            if self.belts[b].id == belt_id {
                if index < self.belts[b].slots.len() {
                    let c = self.belts[b].slots[index];
                    assert(self.view()[b as int].id == belt_id && index < self.view()[b as int].slots.len()
                        && self.view()[b as int].slots[index as int] == c);
                    return Some(c);
                }
                assert forall|c: int| 0 <= c < self.view().len() && #[trigger] self.view()[c].id == belt_id
                    implies index >= self.view()[c].slots.len() || exists|a: int| 0 <= a < c
                        && #[trigger] self.view()[a].id == belt_id by {
                    if c > b {
                        assert(self.view()[b as int].id == belt_id);
                    }
                }
                return None;
            }
            b = b + 1;
        }
        None
    }
}

/// Position and stock of each miner.
pub open spec fn miner_views(m: Seq<(GridPos, AutoMiner)>) -> Seq<(GridPos, Seq<u32>)> {
    m.map_values(|p: (GridPos, AutoMiner)| (p.0, p.1.storage.counts@))
}

/// First miner, from index `j` on, that touches `start` and holds something.
pub open spec fn supplier_from(start: GridPos, m: Seq<(GridPos, Seq<u32>)>, j: int) -> Option<int>
    decreases m.len() - j,
{
    if j < 0 || j >= m.len() {
        None
    } else if spec_touches(start, m[j].0) && spec_first_held(m[j].1) is Some {
        Some(j)
    } else {
        supplier_from(start, m, j + 1)
    }
}

/// A belt with an empty first slot takes one unit from the first miner
/// touching its first tile that holds something: the first kind it holds.
pub open spec fn pull_belt(b: BeltView, m: Seq<(GridPos, Seq<u32>)>) -> (BeltView, Seq<(GridPos, Seq<u32>)>) {
    if b.slots[0] is Some {
        (b, m)
    } else {
        match supplier_from(b.path[0], m, 0) {
            None => (b, m),
            Some(j) => {
                let t = spec_first_held(m[j].1).unwrap();
                let k = spec_tile_index(t);
                (
                    BeltView { slots: b.slots.update(0, Some(t)), ..b },
                    m.update(j, (m[j].0, m[j].1.update(k, (m[j].1[k] - 1) as u32))),
                )
            },
        }
    }
}

/// Belts `0..i` pull in turn, each seeing the miners as the previous ones
/// left them.
pub open spec fn pull_all(belts: Seq<BeltView>, m: Seq<(GridPos, Seq<u32>)>, i: int) -> (Seq<BeltView>, Seq<(GridPos, Seq<u32>)>)
    decreases i,
{
    if i <= 0 {
        (belts, m)
    } else {
        let prev = pull_all(belts, m, i - 1);
        let step = pull_belt(prev.0[i - 1], prev.1);
        (prev.0.update(i - 1, step.0), step.1)
    }
}

proof fn lemma_supplier_from(start: GridPos, m: Seq<(GridPos, Seq<u32>)>, j: int)
    requires
        0 <= j,
    ensures
        supplier_from(start, m, j) matches Some(r) ==> j <= r < m.len() && spec_touches(start, m[r].0)
            && spec_first_held(m[r].1) is Some,
    decreases m.len() - j,
{
    if j < m.len() {
        lemma_supplier_from(start, m, j + 1);
    }
}

proof fn lemma_pull_all_shape(belts: Seq<BeltView>, m: Seq<(GridPos, Seq<u32>)>, i: int)
    requires
        0 <= i <= belts.len(),
        forall|k: int| 0 <= k < belts.len() ==> belt_wf(#[trigger] belts[k]),
    ensures
        pull_all(belts, m, i).0.len() == belts.len(),
        pull_all(belts, m, i).1.len() == m.len(),
        forall|k: int| 0 <= k < belts.len() ==> belt_wf(#[trigger] pull_all(belts, m, i).0[k]),
        forall|k: int| 0 <= k < belts.len() ==> (#[trigger] pull_all(belts, m, i).0[k]).id == belts[k].id,
        forall|k: int| 0 <= k < m.len() ==> (#[trigger] pull_all(belts, m, i).1[k]).0 == m[k].0,
        forall|k: int| i <= k < belts.len() ==> #[trigger] pull_all(belts, m, i).0[k] == belts[k],
    decreases i,
{
    if i > 0 {
        lemma_pull_all_shape(belts, m, i - 1);
        let prev = pull_all(belts, m, i - 1);
        lemma_supplier_from(prev.0[i - 1].path[0], prev.1, 0);
    }
}

fn find_supplier(start: GridPos, miners: &Vec<(GridPos, AutoMiner)>) -> (r: Option<usize>)
    ensures
        match r {
            Some(j) => supplier_from(start, miner_views(miners@), 0) == Some(j as int)
                && j < miners@.len() && spec_first_held(miners@[j as int].1.storage.counts@) is Some,
            None => supplier_from(start, miner_views(miners@), 0) is None,
        },
{
    proof {
        lemma_supplier_from(start, miner_views(miners@), 0);
    }
    let ghost mv = miner_views(miners@);
    let mut j: usize = 0;
    while j < miners.len()
        invariant
            j <= miners@.len(),
            mv == miner_views(miners@),
            supplier_from(start, mv, 0) == supplier_from(start, mv, j as int),
        decreases miners@.len() - j,
    {
        assert(mv[j as int] == (miners@[j as int].0, miners@[j as int].1.storage.counts@));
        if manhattan_i64(start, miners[j].0) <= 1 && miners[j].1.storage.first_held().is_some() {
            return Some(j);
        }
        j = j + 1;
    }
    None
}

impl ConveyorBelts {
    /// Every belt whose first slot is empty takes one unit from a miner next to
    /// its first tile (see `pull_belt`), belts taking their turn in order.
    pub fn conveyor_pull(&mut self, miners: &mut Vec<(GridPos, AutoMiner)>)
        requires
            old(self).wf(),
        ensures
            final(self).wf(),
            final(self).next_id == old(self).next_id,
            final(miners)@.len() == old(miners)@.len(),
            forall|j: int| 0 <= j < old(miners)@.len() ==>
                (#[trigger] final(miners)@[j]).1.deposit_type == old(miners)@[j].1.deposit_type,
            (final(self).view(), miner_views(final(miners)@))
                == pull_all(old(self).view(), miner_views(old(miners)@), old(self).view().len() as int),
    {
        let n = self.belts.len();
        let ghost b0 = old(self).view();
        let ghost m0 = miner_views(old(miners)@);
        proof {
            lemma_pull_all_shape(b0, m0, 0);
        }
        let mut i: usize = 0;
        while i < n
            invariant
                i <= n,
                n == b0.len(),
                b0 == old(self).view(),
                m0 == miner_views(old(miners)@),
                forall|k: int| 0 <= k < n ==> belt_wf(#[trigger] b0[k]),
                self.next_id == old(self).next_id,
                miners@.len() == old(miners)@.len(),
                forall|j: int| 0 <= j < miners@.len() ==>
                    (#[trigger] miners@[j]).1.deposit_type == old(miners)@[j].1.deposit_type,
                self.view() == pull_all(b0, m0, i as int).0,
                miner_views(miners@) == pull_all(b0, m0, i as int).1,
            decreases n - i,
        {
            proof {
                lemma_pull_all_shape(b0, m0, i as int);
                lemma_pull_all_shape(b0, m0, i as int + 1);
                assert(self.view()[i as int] == self.belts@[i as int]@);
            }
            let ghost prev_b = self.view();
            let ghost prev_m = miner_views(miners@);
            if self.belts[i].slots[0].is_none() {
                let start = self.belts[i].path[0];
                match find_supplier(start, miners) {
                    Some(j) => {
                        let t = miners[j].1.storage.first_held().unwrap();
                        proof {
                            assert(prev_m[j as int] == (miners@[j as int].0, miners@[j as int].1.storage.counts@));
                        }
                        let ghost before_m = miners@;
                        miners[j].1.storage.remove(t, 1);
                        let ghost before_b = self.belts@;
                        self.belts[i].slots[0] = Some(t);
                        proof {
                            assert(miner_views(miners@) =~= prev_m.update(j as int, (prev_m[j as int].0,
                                prev_m[j as int].1.update(spec_tile_index(t), (prev_m[j as int].1[spec_tile_index(t)] - 1) as u32))));
                            assert(self.view() =~= prev_b.update(i as int, pull_belt(prev_b[i as int], prev_m).0));
                            assert forall|k: int| 0 <= k < miners@.len() implies
                                (#[trigger] miners@[k]).1.deposit_type == old(miners)@[k].1.deposit_type by {
                                assert(before_m[k].1.deposit_type == old(miners)@[k].1.deposit_type);
                            }
                        }
                    },
                    None => {
                        assert(self.view() =~= prev_b.update(i as int, pull_belt(prev_b[i as int], prev_m).0));
                    },
                }
            } else {
                assert(self.view() =~= prev_b.update(i as int, pull_belt(prev_b[i as int], prev_m).0));
            }
            i = i + 1;
        }
        proof {
            lemma_pull_all_shape(b0, m0, n as int);
            assert forall|k: int| 0 <= k < n implies belt_wf(#[trigger] self.view()[k]) by {}
            assert forall|k: int| 0 <= k < n implies #[trigger] self.view()[k].id < self.next_id by {
                assert(old(self).view()[k].id < self.next_id);
            }
            assert forall|a: int, c: int| 0 <= a < c < n implies
                #[trigger] self.view()[a].id != #[trigger] self.view()[c].id by {
                assert(old(self).view()[a].id != old(self).view()[c].id);
            }
        }
    }
}

/// First belt, from index `i` on, with id `id`.
pub open spec fn first_with_id(belts: Seq<BeltView>, id: u32, i: int) -> Option<int>
    decreases belts.len() - i,
{
    if i < 0 || i >= belts.len() {
        None
    } else if belts[i].id == id {
        Some(i)
    } else {
        first_with_id(belts, id, i + 1)
    }
}

/// Belt `s` takes its turn at handing over: a belt that pours into tile
/// `tidx` of belt `tid` and holds end stock moves one unit of the first kind
/// it holds onto that tile, when that belt exists and the tile is free;
/// otherwise nothing moves.
pub open spec fn transfer_step(belts: Seq<BeltView>, s: int) -> Seq<BeltView> {
    let b = belts[s];
    match b.feeds_into {
        Some(target) => match spec_first_held(b.end_storage) {
            Some(t) => match first_with_id(belts, target.0, 0) {
                Some(d) => if target.1 < belts[d].slots.len() && belts[d].slots[target.1 as int] is None {
                    let k = spec_tile_index(t);
                    let debited = belts.update(s, BeltView {
                        end_storage: b.end_storage.update(k, (b.end_storage[k] - 1) as u32),
                        ..b
                    });
                    debited.update(d, BeltView { slots: debited[d].slots.update(target.1 as int, Some(t)), ..debited[d] })
                } else {
                    belts
                },
                None => belts,
            },
            None => belts,
        },
        None => belts,
    }
}

/// Belts `0..i` take their turn at handing over.
pub open spec fn transfer_all(belts: Seq<BeltView>, i: int) -> Seq<BeltView>
    decreases i,
{
    if i <= 0 {
        belts
    } else {
        transfer_step(transfer_all(belts, i - 1), i - 1)
    }
}

proof fn lemma_first_with_id(belts: Seq<BeltView>, id: u32, i: int)
    requires
        0 <= i,
    ensures
        first_with_id(belts, id, i) matches Some(r) ==> i <= r < belts.len() && belts[r].id == id,
    decreases belts.len() - i,
{
    if i < belts.len() {
        lemma_first_with_id(belts, id, i + 1);
    }
}

/// Hand-overs keep every belt's id, path, slot count, selling and pouring.
pub open spec fn same_layout(a: Seq<BeltView>, b: Seq<BeltView>) -> bool {
    &&& a.len() == b.len()
    &&& forall|i: int| 0 <= i < a.len() ==> {
        &&& (#[trigger] a[i]).id == b[i].id
        &&& a[i].path == b[i].path
        &&& a[i].slots.len() == b[i].slots.len()
        &&& a[i].end_storage.len() == b[i].end_storage.len()
        &&& a[i].sells_at_end == b[i].sells_at_end
        &&& a[i].feeds_into == b[i].feeds_into
    }
}

proof fn lemma_transfer_step(belts: Seq<BeltView>, s: int)
    requires
        0 <= s < belts.len(),
        forall|i: int| 0 <= i < belts.len() ==> belt_wf(#[trigger] belts[i]),
    ensures
        same_layout(transfer_step(belts, s), belts),
        forall|i: int| 0 <= i < belts.len() ==> belt_wf(#[trigger] transfer_step(belts, s)[i]),
        belts_riding(transfer_step(belts, s)) + ends_total(transfer_step(belts, s))
            == belts_riding(belts) + ends_total(belts),
{
    let b = belts[s];
    match b.feeds_into {
        Some(target) => match spec_first_held(b.end_storage) {
            Some(t) => {
                lemma_first_with_id(belts, target.0, 0);
                match first_with_id(belts, target.0, 0) {
                    Some(d) => if target.1 < belts[d].slots.len() && belts[d].slots[target.1 as int] is None {
                        let k = spec_tile_index(t);
                        lemma_first_held_from(b.end_storage, 0);
                        let nb = BeltView { end_storage: b.end_storage.update(k, (b.end_storage[k] - 1) as u32), ..b };
                        let debited = belts.update(s, nb);
                        crate::economy::resources::lemma_seq_sum_update(b.end_storage, k, (b.end_storage[k] - 1) as u32);
                        lemma_ends_total_update(belts, s, nb);
                        lemma_belts_riding_update(belts, s, nb);
                        let nd = BeltView { slots: debited[d].slots.update(target.1 as int, Some(t)), ..debited[d] };
                        lemma_count_some_fill(debited[d].slots, target.1 as int, t);
                        lemma_ends_total_update(debited, d, nd);
                        lemma_belts_riding_update(debited, d, nd);
                    } else {
                    },
                    None => {},
                }
            },
            None => {},
        },
        None => {},
    }
}

proof fn lemma_transfer_all(belts: Seq<BeltView>, i: int)
    requires
        0 <= i <= belts.len(),
        forall|j: int| 0 <= j < belts.len() ==> belt_wf(#[trigger] belts[j]),
    ensures
        same_layout(transfer_all(belts, i), belts),
        forall|j: int| 0 <= j < belts.len() ==> belt_wf(#[trigger] transfer_all(belts, i)[j]),
        belts_riding(transfer_all(belts, i)) + ends_total(transfer_all(belts, i))
            == belts_riding(belts) + ends_total(belts),
    decreases i,
{
    if i > 0 {
        lemma_transfer_all(belts, i - 1);
        lemma_transfer_step(transfer_all(belts, i - 1), i - 1);
    }
}

/// Handing over between merged belts moves units, one for one, from the end
/// stock of a belt onto a free tile of the belt it pours into: the units
/// riding all the belts plus those in their end stocks stay the same.
pub proof fn lemma_transfer_conserves(belts: Seq<BeltView>)
    requires
        forall|j: int| 0 <= j < belts.len() ==> belt_wf(#[trigger] belts[j]),
    ensures
        belts_riding(transfer_all(belts, belts.len() as int)) + ends_total(transfer_all(belts, belts.len() as int))
            == belts_riding(belts) + ends_total(belts),
{
    lemma_transfer_all(belts, belts.len() as int);
}

fn find_belt(belts: &Vec<Belt>, id: u32) -> (r: Option<usize>)
    ensures
        match r {
            Some(d) => first_with_id(belts@.map_values(|b: Belt| b@), id, 0) == Some(d as int) && d < belts@.len(),
            None => first_with_id(belts@.map_values(|b: Belt| b@), id, 0) is None,
        },
{
    let ghost v = belts@.map_values(|b: Belt| b@);
    proof {
        lemma_first_with_id(v, id, 0);
    }
    let mut i: usize = 0;
    while i < belts.len()
        invariant
            i <= belts@.len(),
            v == belts@.map_values(|b: Belt| b@),
            first_with_id(v, id, 0) == first_with_id(v, id, i as int),
        decreases belts@.len() - i,
    {
        assert(v[i as int] == belts@[i as int]@);
        if belts[i].id == id {
            return Some(i);
        }
        i = i + 1;
    }
    None
}

impl ConveyorBelts {
    /// Belts that pour into another belt hand over one unit each, in turn
    /// (see `transfer_step`): a unit leaves a belt's end stock only when the
    /// tile it pours into exists and is free, so none is lost.
    pub fn transfer_between_belts(&mut self)
        requires
            old(self).wf(),
        ensures
            final(self).wf(),
            final(self).next_id == old(self).next_id,
            final(self).view() == transfer_all(old(self).view(), old(self).view().len() as int),
            belts_riding(final(self).view()) + ends_total(final(self).view())
                == belts_riding(old(self).view()) + ends_total(old(self).view()),
    {
        let ghost b0 = old(self).view();
        let n = self.belts.len();
        let mut s: usize = 0;
        while s < n
            invariant
                s <= n,
                n == b0.len(),
                b0 == old(self).view(),
                forall|j: int| 0 <= j < n ==> belt_wf(#[trigger] b0[j]),
                self.next_id == old(self).next_id,
                self.view() == transfer_all(b0, s as int),
            decreases n - s,
        {
            proof {
                lemma_transfer_all(b0, s as int);
            }
            let ghost cur = self.view();
            assert(cur[s as int] == self.belts@[s as int]@);
            match self.belts[s].feeds_into {
                Some(target) => {
                    match self.belts[s].end_storage.first_held() {
                        Some(t) => {
                            match find_belt(&self.belts, target.0) {
                                Some(d) => {
                                    assert(cur[d as int] == self.belts@[d as int]@);
                                    if target.1 < self.belts[d].slots.len() && self.belts[d].slots[target.1].is_none() {
                                        self.belts[s].end_storage.remove(t, 1);
                                        let ghost debited = self.view();
                                        assert(debited =~= cur.update(s as int, BeltView {
                                            end_storage: cur[s as int].end_storage.update(spec_tile_index(t),
                                                (cur[s as int].end_storage[spec_tile_index(t)] - 1) as u32),
                                            ..cur[s as int]
                                        }));
                                        self.belts[d].slots[target.1] = Some(t);
                                        assert(self.view() =~= debited.update(d as int, BeltView {
                                            slots: debited[d as int].slots.update(target.1 as int, Some(t)),
                                            ..debited[d as int]
                                        }));
                                    } else {
                                        assert(self.view() =~= cur);
                                    }
                                },
                                None => {
                                    assert(self.view() =~= cur);
                                },
                            }
                        },
                        None => {
                            assert(self.view() =~= cur);
                        },
                    }
                },
                None => {
                    assert(self.view() =~= cur);
                },
            }
            assert(self.view() == transfer_step(cur, s as int));
            s = s + 1;
        }
        proof {
            lemma_transfer_all(b0, n as int);
            assert forall|j: int| 0 <= j < n implies #[trigger] self.view()[j].id < self.next_id by {
                assert(old(self).view()[j].id < self.next_id);
            }
            assert forall|a: int, c: int| 0 <= a < c < n implies
                #[trigger] self.view()[a].id != #[trigger] self.view()[c].id by {
                assert(old(self).view()[a].id != old(self).view()[c].id);
            }
        }
    }
}

/// Room left in a bag holding `carried` units out of `capacity`.
pub open spec fn bag_room(carried: int, capacity: int) -> int {
    if carried <= capacity { capacity - carried } else { 0 }
}

/// The player, standing on `player`, collects from belt `b` into a bag
/// holding `inv`: a belt that does not sell and holds end stock gives, when
/// its last tile is within `COLLECT_DISTANCE`, as much as fits, kind by kind
/// in display order.
pub open spec fn collect_step(b: BeltView, inv: Seq<u32>, capacity: u32, player: GridPos) -> (BeltView, Seq<u32>) {
    if b.sells_at_end || seq_sum(b.end_storage) == 0 || manhattan(player, b.path.last()) > COLLECT_DISTANCE {
        (b, inv)
    } else {
        let room = bag_room(seq_sum(inv), capacity as int);
        (
            BeltView {
                end_storage: Seq::new(11, |k: int| (b.end_storage[k] - spec_moved_at(b.end_storage, room, k)) as u32),
                ..b
            },
            Seq::new(11, |k: int| (inv[k] + spec_moved_at(b.end_storage, room, k)) as u32),
        )
    }
}

/// Belts `0..i` are collected from in turn.
pub open spec fn collect_all(belts: Seq<BeltView>, inv: Seq<u32>, capacity: u32, player: GridPos, i: int) -> (Seq<BeltView>, Seq<u32>)
    decreases i,
{
    if i <= 0 {
        (belts, inv)
    } else {
        let prev = collect_all(belts, inv, capacity, player, i - 1);
        let step = collect_step(prev.0[i - 1], prev.1, capacity, player);
        (prev.0.update(i - 1, step.0), step.1)
    }
}

/// Units waiting in the end storage of all the belts.
pub open spec fn ends_total(b: Seq<BeltView>) -> int
    decreases b.len(),
{
    if b.len() == 0 {
        0
    } else {
        ends_total(b.drop_last()) + seq_sum(b.last().end_storage)
    }
}

proof fn lemma_ends_total_update(b: Seq<BeltView>, i: int, v: BeltView)
    requires
        0 <= i < b.len(),
    ensures
        ends_total(b.update(i, v)) == ends_total(b) - seq_sum(b[i].end_storage) + seq_sum(v.end_storage),
    decreases b.len(),
{
    if i == b.len() - 1 {
        assert(b.update(i, v).drop_last() =~= b.drop_last());
    } else {
        lemma_ends_total_update(b.drop_last(), i, v);
        assert(b.update(i, v).drop_last() =~= b.drop_last().update(i, v));
    }
}

proof fn lemma_collect_all_shape(belts: Seq<BeltView>, inv: Seq<u32>, capacity: u32, player: GridPos, i: int)
    requires
        0 <= i <= belts.len(),
        forall|k: int| 0 <= k < belts.len() ==> belt_wf(#[trigger] belts[k]),
    ensures
        same_layout(collect_all(belts, inv, capacity, player, i).0, belts),
        forall|k: int| i <= k < belts.len() ==> #[trigger] collect_all(belts, inv, capacity, player, i).0[k] == belts[k],
    decreases i,
{
    if i > 0 {
        lemma_collect_all_shape(belts, inv, capacity, player, i - 1);
    }
}

proof fn lemma_moved_sums(a: Seq<u32>, st: Seq<u32>, r: int, n: int)
    requires
        a.len() == TILE_KINDS,
        st.len() == TILE_KINDS,
        0 <= n <= TILE_KINDS,
        0 <= r,
        seq_sum(a) + r <= u32::MAX,
    ensures
        seq_sum(Seq::new(11, |k: int| (a[k] + spec_moved_at(st, r, k)) as u32).take(n))
            == seq_sum(a.take(n)) + min(r, seq_sum(st.take(n))),
    decreases n,
{
    let t = Seq::new(11, |k: int| (a[k] + spec_moved_at(st, r, k)) as u32);
    if n == 0 {
        assert(t.take(0) =~= Seq::<u32>::empty());
        assert(a.take(0) =~= Seq::<u32>::empty());
        assert(st.take(0) =~= Seq::<u32>::empty());
    } else {
        lemma_moved_sums(a, st, r, n - 1);
        crate::economy::resources::lemma_seq_sum_take_step(a, n - 1);
        crate::economy::resources::lemma_seq_sum_take_step(st, n - 1);
        crate::economy::resources::lemma_seq_sum_nonneg(st.take(n - 1));
        crate::economy::resources::lemma_seq_sum_bounds_element(a, n - 1);
        assert(0 <= spec_moved_at(st, r, n - 1) <= r);
        assert(t[n - 1] == a[n - 1] + spec_moved_at(st, r, n - 1));
        crate::economy::resources::lemma_seq_sum_take_step(t, n - 1);
    }
}

proof fn lemma_collect_step_gain(b: BeltView, inv: Seq<u32>, capacity: u32, player: GridPos)
    requires
        belt_wf(b),
        inv.len() == TILE_KINDS,
        seq_sum(inv) <= u32::MAX,
    ensures
        collect_step(b, inv, capacity, player).1.len() == TILE_KINDS,
        collect_step(b, inv, capacity, player).0.path == b.path,
        seq_sum(collect_step(b, inv, capacity, player).1) == seq_sum(inv) + (
            if !b.sells_at_end && manhattan(player, b.path.last()) <= COLLECT_DISTANCE {
                min(bag_room(seq_sum(inv), capacity as int), seq_sum(b.end_storage))
            } else {
                0
            }),
{
    let room = bag_room(seq_sum(inv), capacity as int);
    crate::economy::resources::lemma_seq_sum_nonneg(b.end_storage);
    if !b.sells_at_end && seq_sum(b.end_storage) != 0 && manhattan(player, b.path.last()) <= COLLECT_DISTANCE {
        lemma_moved_sums(inv, b.end_storage, room, 11);
        assert(inv.take(11) =~= inv);
        assert(b.end_storage.take(11) =~= b.end_storage);
        let t = Seq::new(11, |k: int| (inv[k] + spec_moved_at(b.end_storage, room, k)) as u32);
        assert(t.take(11) =~= t);
    }
}

/// Units in the end stocks that a player standing on `player` can reach,
/// belts `0..i`: those of belts that do not sell and whose last tile lies
/// within `COLLECT_DISTANCE` of the player.
pub open spec fn reachable_stock(belts: Seq<BeltView>, player: GridPos, i: int) -> int
    decreases i,
{
    if i <= 0 {
        0
    } else {
        let b = belts[i - 1];
        reachable_stock(belts, player, i - 1) + if !b.sells_at_end
            && manhattan(player, b.path[b.path.len() - 1]) <= COLLECT_DISTANCE {
            seq_sum(b.end_storage)
        } else {
            0
        }
    }
}

/// Collecting at belt ends fills the bag with the stock within reach of the
/// player, up to the bag's room: the bag gains exactly as many units as the
/// smaller of its room and the stock at the ends of the belts that do not
/// sell and end within `COLLECT_DISTANCE` of the player. A belt that sells,
/// or whose last tile is farther away, keeps its stock.
pub proof fn lemma_collect_takes_reachable_stock(
    belts: Seq<BeltView>,
    inv: Seq<u32>,
    capacity: u32,
    player: GridPos,
    i: int,
)
    requires
        0 <= i <= belts.len(),
        forall|k: int| 0 <= k < belts.len() ==> belt_wf(#[trigger] belts[k]),
        inv.len() == TILE_KINDS,
        seq_sum(inv) <= u32::MAX,
    ensures
        seq_sum(collect_all(belts, inv, capacity, player, i).1) == seq_sum(inv) + min(
            if seq_sum(inv) <= capacity { capacity - seq_sum(inv) } else { 0 },
            reachable_stock(belts, player, i),
        ),
        forall|j: int| 0 <= j < belts.len() && (belts[j].sells_at_end
            || manhattan(player, belts[j].path[belts[j].path.len() - 1]) > COLLECT_DISTANCE)
            ==> #[trigger] collect_all(belts, inv, capacity, player, i).0[j] == belts[j],
        collect_all(belts, inv, capacity, player, i).1.len() == TILE_KINDS,
    decreases i,
{
    let room0 = if seq_sum(inv) <= capacity { capacity - seq_sum(inv) } else { 0 };
    if i > 0 {
        lemma_collect_takes_reachable_stock(belts, inv, capacity, player, i - 1);
        lemma_collect_all_shape(belts, inv, capacity, player, i - 1);
        lemma_reachable_stock_nonneg(belts, player, i - 1);
        let prev = collect_all(belts, inv, capacity, player, i - 1);
        let b = prev.0[i - 1];
        assert(b == belts[i - 1]);
        crate::economy::resources::lemma_seq_sum_nonneg(inv);
        crate::economy::resources::lemma_seq_sum_nonneg(b.end_storage);
        lemma_collect_step_gain(b, prev.1, capacity, player);
        assert forall|j: int| 0 <= j < belts.len() && (belts[j].sells_at_end
            || manhattan(player, belts[j].path[belts[j].path.len() - 1]) > COLLECT_DISTANCE)
            implies #[trigger] collect_all(belts, inv, capacity, player, i).0[j] == belts[j] by {
            if j == i - 1 {
                assert(b.path.last() == b.path[b.path.len() - 1]);
            }
        }
    } else {
        crate::economy::resources::lemma_seq_sum_nonneg(inv);
    }
}

proof fn lemma_reachable_stock_nonneg(belts: Seq<BeltView>, player: GridPos, i: int)
    ensures
        reachable_stock(belts, player, i) >= 0,
    decreases i,
{
    if i > 0 {
        lemma_reachable_stock_nonneg(belts, player, i - 1);
        crate::economy::resources::lemma_seq_sum_nonneg(belts[i - 1].end_storage);
    }
}

impl ConveyorBelts {
    /// The B key also collects from the ends of belts that do not sell
    /// (see `collect_step`), belts taking their turn in order.
    pub fn collect_conveyor_end(
        &mut self,
        inventory: &mut Inventory,
        capacity: u32,
        pressed: bool,
        shop_open: bool,
        player_grid: GridPos,
    )
        requires
            old(self).wf(),
            old(inventory).items.spec_total() <= u32::MAX,
        ensures
            final(self).wf(),
            final(self).next_id == old(self).next_id,
            !pressed || shop_open ==> final(self).view() == old(self).view() && *final(inventory) == *old(inventory),
            pressed && !shop_open ==> (final(self).view(), final(inventory).items.counts@) == collect_all(
                old(self).view(), old(inventory).items.counts@, capacity, player_grid, old(self).view().len() as int),
            final(inventory).items.spec_total() <= u32::MAX,
            final(inventory).items.spec_total() + ends_total(final(self).view())
                == old(inventory).items.spec_total() + ends_total(old(self).view()),
            old(inventory).items.spec_total() <= capacity ==> final(inventory).items.spec_total() <= capacity,
            pressed && !shop_open ==> final(inventory).items.spec_total() == old(inventory).items.spec_total() + min(
                if old(inventory).items.spec_total() <= capacity {
                    capacity - old(inventory).items.spec_total()
                } else {
                    0
                },
                reachable_stock(old(self).view(), player_grid, old(self).view().len() as int),
            ),
    {
        if !pressed || shop_open {
            return;
        }
        proof {
            lemma_collect_takes_reachable_stock(old(self).view(), old(inventory).items.counts@, capacity,
                player_grid, old(self).view().len() as int);
        }
        let ghost b0 = old(self).view();
        let ghost i0 = old(inventory).items.counts@;
        let n = self.belts.len();
        let mut i: usize = 0;
        proof {
            lemma_collect_all_shape(b0, i0, capacity, player_grid, 0);
        }
        while i < n
            invariant
                i <= n,
                n == b0.len(),
                b0 == old(self).view(),
                forall|j: int| 0 <= j < n ==> belt_wf(#[trigger] b0[j]),
                self.next_id == old(self).next_id,
                (self.view(), inventory.items.counts@) == collect_all(b0, i0, capacity, player_grid, i as int),
                inventory.items.spec_total() <= u32::MAX,
                inventory.items.spec_total() + ends_total(self.view())
                    == old(inventory).items.spec_total() + ends_total(b0),
                old(inventory).items.spec_total() <= capacity ==> inventory.items.spec_total() <= capacity,
            decreases n - i,
        {
            proof {
                lemma_collect_all_shape(b0, i0, capacity, player_grid, i as int);
                lemma_collect_all_shape(b0, i0, capacity, player_grid, i as int + 1);
                assert(self.view()[i as int] == self.belts@[i as int]@);
            }
            let ghost cur = self.view();
            let ghost inv_before = inventory.items.counts@;
            let last = self.belts[i].path.len() - 1;
            let end = self.belts[i].path[last];
            if !self.belts[i].sells_at_end && !self.belts[i].end_storage.is_empty()
                && manhattan_i64(player_grid, end) <= COLLECT_DISTANCE {
                inventory.take_from(&mut self.belts[i].end_storage, capacity);
                proof {
                    lemma_ends_total_update(cur, i as int, self.view()[i as int]);
                    let room = bag_room(seq_sum(inv_before), capacity as int);
                    assert(inventory.items.counts@ =~= Seq::new(11, |k: int|
                        (inv_before[k] + spec_moved_at(cur[i as int].end_storage, room, k)) as u32));
                    assert(self.view()[i as int].end_storage =~= Seq::new(11, |k: int|
                        (cur[i as int].end_storage[k] - spec_moved_at(cur[i as int].end_storage, room, k)) as u32));
                    assert(self.view() =~= cur.update(i as int, collect_step(cur[i as int], inv_before, capacity, player_grid).0));
                }
            } else {
                proof {
                    if !self.belts@[i as int].sells_at_end && self.belts@[i as int].end_storage.spec_is_empty() {
                        crate::economy::resources::lemma_seq_sum_zero(self.belts@[i as int].end_storage.counts@);
                    }
                }
                assert(self.view() =~= cur.update(i as int, collect_step(cur[i as int], inv_before, capacity, player_grid).0));
            }
            i = i + 1;
        }
        proof {
            lemma_collect_all_shape(b0, i0, capacity, player_grid, n as int);
            assert forall|j: int| 0 <= j < n implies belt_wf(#[trigger] self.view()[j]) by {}
            assert forall|j: int| 0 <= j < n implies #[trigger] self.view()[j].id < self.next_id by {
                assert(old(self).view()[j].id < self.next_id);
            }
            assert forall|a: int, c: int| 0 <= a < c < n implies
                #[trigger] self.view()[a].id != #[trigger] self.view()[c].id by {
                assert(old(self).view()[a].id != old(self).view()[c].id);
            }
        }
    }
}

/// Number of occupied slots.
pub open spec fn count_some(s: Seq<Option<TileType>>) -> int
    decreases s.len(),
{
    if s.len() == 0 {
        0
    } else {
        count_some(s.drop_last()) + if s.last() is Some { 1int } else { 0int }
    }
}

/// Units on a belt: those riding its slots and those in its end stock.
pub open spec fn items_on(b: BeltView) -> int {
    count_some(b.slots) + seq_sum(b.end_storage)
}

proof fn lemma_count_some_concat(a: Seq<Option<TileType>>, b: Seq<Option<TileType>>)
    ensures
        count_some(a + b) == count_some(a) + count_some(b),
    decreases b.len(),
{
    if b.len() == 0 {
        assert(a + b =~= a);
    } else {
        lemma_count_some_concat(a, b.drop_last());
        assert((a + b).drop_last() =~= a + b.drop_last());
    }
}

/// Transport moves units along a belt and into its end stock without
/// creating or losing any.
pub proof fn lemma_transport_conserves(b: BeltView)
    requires
        belt_wf(b),
        transport_fits(b),
    ensures
        items_on(spec_transported(b)) == items_on(b),
{
    let n = b.slots.len();
    let t = spec_transported(b);
    assert(b.slots.take(n - 1) =~= b.slots.drop_last());
    lemma_count_some_concat(seq![None], b.slots.take(n - 1));
    assert(count_some(seq![None::<TileType>]) == 0) by {
        assert(seq![None::<TileType>].drop_last() =~= Seq::<Option<TileType>>::empty());
        assert(count_some(Seq::<Option<TileType>>::empty()) == 0);
        assert(seq![None::<TileType>].last() is None);
    }
    match b.slots[n - 1] {
        Some(tt) => {
            crate::economy::resources::lemma_seq_sum_update(b.end_storage, spec_tile_index(tt),
                (b.end_storage[spec_tile_index(tt)] + 1) as u32);
        },
        None => {},
    }
}

/// Units stored in all the miners.
pub open spec fn miners_total(m: Seq<(GridPos, Seq<u32>)>) -> int
    decreases m.len(),
{
    if m.len() == 0 {
        0
    } else {
        miners_total(m.drop_last()) + seq_sum(m.last().1)
    }
}

/// Units riding the slots of all the belts.
pub open spec fn belts_riding(b: Seq<BeltView>) -> int
    decreases b.len(),
{
    if b.len() == 0 {
        0
    } else {
        belts_riding(b.drop_last()) + count_some(b.last().slots)
    }
}

proof fn lemma_miners_total_update(m: Seq<(GridPos, Seq<u32>)>, j: int, e: (GridPos, Seq<u32>))
    requires
        0 <= j < m.len(),
    ensures
        miners_total(m.update(j, e)) == miners_total(m) - seq_sum(m[j].1) + seq_sum(e.1),
    decreases m.len(),
{
    if j == m.len() - 1 {
        assert(m.update(j, e).drop_last() =~= m.drop_last());
    } else {
        lemma_miners_total_update(m.drop_last(), j, e);
        assert(m.update(j, e).drop_last() =~= m.drop_last().update(j, e));
    }
}

proof fn lemma_belts_riding_update(b: Seq<BeltView>, i: int, v: BeltView)
    requires
        0 <= i < b.len(),
    ensures
        belts_riding(b.update(i, v)) == belts_riding(b) - count_some(b[i].slots) + count_some(v.slots),
    decreases b.len(),
{
    if i == b.len() - 1 {
        assert(b.update(i, v).drop_last() =~= b.drop_last());
    } else {
        lemma_belts_riding_update(b.drop_last(), i, v);
        assert(b.update(i, v).drop_last() =~= b.drop_last().update(i, v));
    }
}

proof fn lemma_count_some_fill(s: Seq<Option<TileType>>, i: int, t: TileType)
    requires
        0 <= i < s.len(),
        s[i] is None,
    ensures
        count_some(s.update(i, Some(t))) == count_some(s) + 1,
    decreases s.len(),
{
    if i == s.len() - 1 {
        assert(s.update(i, Some(t)).drop_last() =~= s.drop_last());
    } else {
        lemma_count_some_fill(s.drop_last(), i, t);
        assert(s.update(i, Some(t)).drop_last() =~= s.drop_last().update(i, Some(t)));
    }
}

proof fn lemma_first_held_from(s: Seq<u32>, k: int)
    requires
        0 <= k,
        s.len() == TILE_KINDS,
    ensures
        crate::economy::resources::first_held_from(s, k) matches Some(t) ==> s[spec_tile_index(t)] > 0,
    decreases TILE_KINDS - k,
{
    if k < TILE_KINDS {
        lemma_first_held_from(s, k + 1);
        crate::world::tiles::lemma_all_ordered_is_index_order();
    }
}

/// Pulling moves units from miners onto belts one for one: the units in
/// the miners plus those riding the belts stay the same.
pub proof fn lemma_pull_conserves(belts: Seq<BeltView>, m: Seq<(GridPos, Seq<u32>)>, i: int)
    requires
        0 <= i <= belts.len(),
        forall|k: int| 0 <= k < belts.len() ==> belt_wf(#[trigger] belts[k]),
        forall|j: int| 0 <= j < m.len() ==> (#[trigger] m[j]).1.len() == TILE_KINDS,
    ensures
        miners_total(pull_all(belts, m, i).1) + belts_riding(pull_all(belts, m, i).0)
            == miners_total(m) + belts_riding(belts),
        forall|j: int| 0 <= j < m.len() ==> (#[trigger] pull_all(belts, m, i).1[j]).1.len() == TILE_KINDS,
    decreases i,
{
    if i > 0 {
        lemma_pull_conserves(belts, m, i - 1);
        lemma_pull_all_shape(belts, m, i - 1);
        let prev = pull_all(belts, m, i - 1);
        let b = prev.0[i - 1];
        let step = pull_belt(b, prev.1);
        lemma_supplier_from(b.path[0], prev.1, 0);
        if b.slots[0] is None {
            match supplier_from(b.path[0], prev.1, 0) {
                Some(j) => {
                    let t = spec_first_held(prev.1[j].1).unwrap();
                    let k = spec_tile_index(t);
                    lemma_first_held_from(prev.1[j].1, 0);
                    crate::economy::resources::lemma_seq_sum_update(prev.1[j].1, k, (prev.1[j].1[k] - 1) as u32);
                    lemma_miners_total_update(prev.1, j, (prev.1[j].0, prev.1[j].1.update(k, (prev.1[j].1[k] - 1) as u32)));
                    lemma_count_some_fill(b.slots, 0, t);
                    lemma_belts_riding_update(prev.0, i - 1, step.0);
                },
                None => {
                    assert(prev.0.update(i - 1, step.0) =~= prev.0);
                },
            }
        } else {
            assert(prev.0.update(i - 1, step.0) =~= prev.0);
        }
    }
}

pub proof fn lemma_seq_value_nonneg(s: Seq<u32>)
    ensures
        seq_value(s) >= 0,
    decreases s.len(),
{
    if s.len() > 0 {
        lemma_seq_value_nonneg(s.drop_last());
    }
}

proof fn lemma_selling_value_prefix(belts: Seq<BeltView>, i: int)
    requires
        0 <= i <= belts.len(),
    ensures
        0 <= selling_value(belts.take(i)) <= selling_value(belts),
    decreases belts.len(),
{
    if i == belts.len() {
        assert(belts.take(i) =~= belts);
        lemma_selling_value_nonneg(belts);
    } else {
        lemma_selling_value_prefix(belts.drop_last(), i);
        assert(belts.drop_last().take(i) =~= belts.take(i));
        lemma_seq_value_nonneg(belts.last().end_storage);
    }
}

proof fn lemma_selling_value_nonneg(belts: Seq<BeltView>)
    ensures
        selling_value(belts) >= 0,
    decreases belts.len(),
{
    if belts.len() > 0 {
        lemma_selling_value_nonneg(belts.drop_last());
        lemma_seq_value_nonneg(belts.last().end_storage);
    }
}

} // verus!
