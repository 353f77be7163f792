use vstd::prelude::*;

use crate::chance::{random_below, roll_percent, spec_pick, table_wf};
use crate::world::tiles::{
    manhattan, spec_distance_from_center, spec_neighbors, GridPos, TileType, BASE_RADIUS, GRID_SIZE,
};

verus! {

/// The kinds of ore deposit hidden under the terrain.
#[derive(Clone, Copy, PartialEq, Eq, Structural, Hash, Debug)]
pub enum DepositType {
    Ferrous,
    Precious,
    Gems,
    Mythic,
}

/// Name shown to the player.
pub open spec fn spec_deposit_label(d: DepositType) -> Seq<char> {
    match d {
        DepositType::Ferrous => "Gisement ferreux"@,
        DepositType::Precious => "Gisement précieux"@,
        DepositType::Gems => "Gisement de gemmes"@,
        DepositType::Mythic => "Gisement mythique"@,
    }
}

/// What a deposit yields, as a percentage table with cumulative thresholds.
pub open spec fn spec_drop_table(d: DepositType) -> Seq<(TileType, u32)> {
    match d {
        DepositType::Ferrous => seq![
            (TileType::Iron, 70u32),
            (TileType::Coal, 90u32),
            (TileType::Copper, 98u32),
            (TileType::Silver, 100u32),
        ],
        DepositType::Precious => seq![
            (TileType::Silver, 50u32),
            (TileType::Gold, 80u32),
            (TileType::Copper, 95u32),
            (TileType::Diamond, 100u32),
        ],
        DepositType::Gems => seq![
            (TileType::Diamond, 40u32),
            (TileType::Ruby, 75u32),
            (TileType::Gold, 95u32),
            (TileType::Mythril, 100u32),
        ],
        DepositType::Mythic => seq![
            (TileType::Mythril, 45u32),
            (TileType::Obsidian, 75u32),
            (TileType::Diamond, 90u32),
            (TileType::Ruby, 100u32),
        ],
    }
}

/// Deposit kind chosen for a cluster whose center lies at Manhattan distance
/// `distance` from the base, given a percentage roll; none inside the base.
pub open spec fn spec_pick_deposit_type(distance: int, roll: int) -> Option<DepositType> {
    if 3 <= distance <= 20 {
        Some(DepositType::Ferrous)
    } else if 21 <= distance <= 45 {
        if roll < 70 { Some(DepositType::Ferrous) } else { Some(DepositType::Precious) }
    } else if 46 <= distance <= 75 {
        if roll < 40 { Some(DepositType::Precious) } else { Some(DepositType::Gems) }
    } else if 76 <= distance <= 110 {
        if roll < 40 { Some(DepositType::Gems) } else { Some(DepositType::Mythic) }
    } else if distance >= 111 {
        Some(DepositType::Mythic)
    } else {
        None
    }
}

/// The drop tables are percentage tables.
pub proof fn lemma_drop_tables_wf(d: DepositType)
    ensures
        table_wf(spec_drop_table(d)),
{
}

impl DepositType {
    /// Name shown to the player.
    pub fn label(&self) -> (s: &'static str)
        ensures
            s@ == spec_deposit_label(*self),
    {
        match self {
            DepositType::Ferrous => "Gisement ferreux",
            DepositType::Precious => "Gisement précieux",
            DepositType::Gems => "Gisement de gemmes",
            DepositType::Mythic => "Gisement mythique",
        }
    }

    /// What the deposit yields, as a percentage table with cumulative thresholds.
    pub fn drop_table(&self) -> (t: Vec<(TileType, u32)>)
        ensures
            t@ == spec_drop_table(*self),
    {
        let t = match self {
            DepositType::Ferrous => vec![
                (TileType::Iron, 70u32),
                (TileType::Coal, 90u32),
                (TileType::Copper, 98u32),
                (TileType::Silver, 100u32),
            ],
            DepositType::Precious => vec![
                (TileType::Silver, 50u32),
                (TileType::Gold, 80u32),
                (TileType::Copper, 95u32),
                (TileType::Diamond, 100u32),
            ],
            DepositType::Gems => vec![
                (TileType::Diamond, 40u32),
                (TileType::Ruby, 75u32),
                (TileType::Gold, 95u32),
                (TileType::Mythril, 100u32),
            ],
            DepositType::Mythic => vec![
                (TileType::Mythril, 45u32),
                (TileType::Obsidian, 75u32),
                (TileType::Diamond, 90u32),
                (TileType::Ruby, 100u32),
            ],
        };
        assert(t@ =~= spec_drop_table(*self));
        t
    }

    /// The ore one production cycle yields for a percentage roll.
    pub fn roll_drop(&self, roll: u32) -> (t: TileType)
        requires
            roll < 100,
        ensures
            t == spec_pick(spec_drop_table(*self), roll as int),
    {
        let table = self.drop_table();
        crate::chance::pick_from_table(&table, roll)
    }
}

/// Chooses the deposit kind of a cluster centered at Manhattan distance
/// `distance` from the base, from a percentage roll.
pub fn pick_deposit_type(distance: i32, roll: u32) -> (d: Option<DepositType>)
    ensures
        d == spec_pick_deposit_type(distance as int, roll as int),
{
    if 3 <= distance && distance <= 20 {
        Some(DepositType::Ferrous)
    } else if 21 <= distance && distance <= 45 {
        if roll < 70 { Some(DepositType::Ferrous) } else { Some(DepositType::Precious) }
    } else if 46 <= distance && distance <= 75 {
        if roll < 40 { Some(DepositType::Precious) } else { Some(DepositType::Gems) }
    } else if 76 <= distance && distance <= 110 {
        if roll < 40 { Some(DepositType::Gems) } else { Some(DepositType::Mythic) }
    } else if distance >= 111 {
        Some(DepositType::Mythic)
    } else {
        None
    }
}

/// A deposit tile hidden under the terrain.
#[derive(Clone, Copy, Debug)]
pub struct Deposit {
    pub deposit_type: DepositType,
    pub revealed: bool,
}

impl Deposit {
    /// A tile was mined at `mined`: the deposit lying at `at` shows if it is
    /// that tile.
    pub fn reveal_on_mine(&mut self, at: crate::world::tiles::GridPos, mined: crate::world::tiles::GridPos)
        ensures
            final(self).deposit_type == old(self).deposit_type,
            final(self).revealed == (old(self).revealed || at == mined),
    {
        if at == mined && !self.revealed {
            self.revealed = true;
        }
    }
}

/// Clusters drawn when the map is generated.
pub const DEPOSIT_COUNT: usize = 80;

/// A group of adjacent deposit tiles of one kind.
#[derive(Debug)]
pub struct DepositCluster {
    pub deposit_type: DepositType,
    /// The center first, then each tile grown next to an earlier one.
    pub tiles: Vec<GridPos>,
}

impl View for DepositCluster {
    type V = (DepositType, Seq<GridPos>);

    open spec fn view(&self) -> (DepositType, Seq<GridPos>) {
        (self.deposit_type, self.tiles@)
    }
}

/// The cell lies in the square of the map centered on the base.
pub open spec fn in_map_square(p: GridPos) -> bool {
    -(GRID_SIZE / 2) <= p.x < GRID_SIZE / 2 && -(GRID_SIZE / 2) <= p.y < GRID_SIZE / 2
}

/// Tile `j` shares an edge with an earlier tile.
pub open spec fn touches_earlier(tiles: Seq<GridPos>, j: int) -> bool {
    exists|k: int| 0 <= k < j && #[trigger] manhattan(tiles[k], tiles[j]) == 1
}

/// A cell a cluster cannot grow onto: inside the base, off the map, or
/// already taken by an earlier cluster.
pub open spec fn blocked_cell(p: GridPos, earlier: Seq<GridPos>) -> bool {
    spec_distance_from_center(p) <= BASE_RADIUS || !in_map_square(p) || earlier.contains(p)
}

/// A deposit cluster, given the tiles of the clusters before it: two to
/// four tiles; a center on the map outside the base, whose kind suits its
/// distance from the base; further tiles on the map outside the base, each
/// next to an earlier tile of the cluster, each new to the cluster and to
/// the earlier clusters.
pub open spec fn cluster_ok(deposit_type: DepositType, tiles: Seq<GridPos>, earlier: Seq<GridPos>) -> bool {
    &&& 2 <= tiles.len() <= 4
    &&& in_map_square(tiles[0])
    &&& spec_distance_from_center(tiles[0]) > BASE_RADIUS
    &&& exists|roll: int| 0 <= roll < 100
        && #[trigger] spec_pick_deposit_type(spec_distance_from_center(tiles[0]), roll) == Some(deposit_type)
    &&& forall|j: int| 1 <= j < tiles.len() ==> {
        &&& spec_distance_from_center(#[trigger] tiles[j]) > BASE_RADIUS
        &&& in_map_square(tiles[j])
        &&& touches_earlier(tiles, j)
        &&& !tiles.take(j).contains(tiles[j])
        &&& !earlier.contains(tiles[j])
    }
}

/// The cluster reached its aimed size, or it cannot grow: every cell next
/// to one of its tiles is in it or blocked.
pub open spec fn grown(tiles: Seq<GridPos>, size: int, earlier: Seq<GridPos>) -> bool {
    tiles.len() == size || forall|t: int, k: int| 0 <= t < tiles.len() && 0 <= k < 4 ==>
        tiles.contains(spec_neighbors(tiles[t])[k]) || blocked_cell(#[trigger] spec_neighbors(tiles[t])[k], earlier)
}

/// All tiles of a list of clusters, in order.
pub open spec fn flatten(cs: Seq<(DepositType, Seq<GridPos>)>) -> Seq<GridPos>
    decreases cs.len(),
{
    if cs.len() == 0 {
        Seq::empty()
    } else {
        flatten(cs.drop_last()) + cs.last().1
    }
}

/// The cell is within one step of the map square.
pub open spec fn near_map(p: GridPos) -> bool {
    -(GRID_SIZE / 2) - 1 <= p.x <= GRID_SIZE / 2 && -(GRID_SIZE / 2) - 1 <= p.y <= GRID_SIZE / 2
}

/// Cell choices available to one cluster's growth.
pub const GROWTH_PICKS: usize = 16;

/// Random values drawn for one deposit cluster.
#[derive(Clone, Copy, Debug)]
pub struct ClusterDraw {
    /// Column of the center counted from the map's left edge, in `0..150`.
    pub x: u32,
    /// Row of the center counted from the map's bottom edge, in `0..150`.
    pub y: u32,
    /// Percentage roll choosing the kind, in `0..100`.
    pub roll: u32,
    /// Tiles the cluster aims for beyond two, in `0..3`.
    pub extra: u32,
    /// Growth step `j` takes candidate cell `picks[j] % count` among the
    /// `count` cells it may still grow onto.
    pub picks: [u32; 16],
}

/// The draw lies in the ranges the generator draws from.
pub open spec fn draw_ok(d: ClusterDraw) -> bool {
    d.x < 150 && d.y < 150 && d.roll < 100 && d.extra < 3
}

/// Center cell of a drawn cluster.
pub open spec fn draw_center(d: ClusterDraw) -> GridPos {
    GridPos { x: (d.x - 75) as i32, y: (d.y - 75) as i32 }
}

/// Cell choice for growth step `j`.
pub open spec fn pick_at(picks: Seq<u32>, j: int) -> u32 {
    if 0 <= j < picks.len() { picks[j] } else { 0 }
}

/// Candidates after the neighbors `ns[0..m]` of a new tile were offered:
/// each joins unless it is in the cluster or already a candidate.
pub open spec fn add_new_neighbors(cluster: Seq<GridPos>, cands: Seq<GridPos>, ns: Seq<GridPos>, m: int) -> Seq<GridPos>
    decreases m,
{
    if m <= 0 {
        cands
    } else {
        let c = add_new_neighbors(cluster, cands, ns, m - 1);
        if !cluster.contains(ns[m - 1]) && !c.contains(ns[m - 1]) { c.push(ns[m - 1]) } else { c }
    }
}

/// One growth step: the picked candidate leaves the candidates (the last
/// one takes its place); a free cell joins the cluster and offers its
/// neighbors as candidates, a blocked one is dropped.
pub open spec fn grow_step(cluster: Seq<GridPos>, cands: Seq<GridPos>, earlier: Seq<GridPos>, pick: u32) -> (Seq<GridPos>, Seq<GridPos>) {
    let idx = (pick as int) % (cands.len() as int);
    let pos = cands[idx];
    let rest = cands.update(idx, cands.last()).drop_last();
    if blocked_cell(pos, earlier) || cluster.contains(pos) {
        (cluster, rest)
    } else {
        (cluster.push(pos), add_new_neighbors(cluster.push(pos), rest, spec_neighbors(pos), 4))
    }
}

/// Growth from step `j` on, until the cluster has `size` tiles, no
/// candidate is left, or the cell choices run out.
pub open spec fn grow_from(
    cluster: Seq<GridPos>,
    cands: Seq<GridPos>,
    size: int,
    earlier: Seq<GridPos>,
    picks: Seq<u32>,
    j: int,
) -> Seq<GridPos>
    decreases GROWTH_PICKS - j,
{
    if j >= GROWTH_PICKS || cluster.len() >= size || cands.len() == 0 {
        cluster
    } else {
        let next = grow_step(cluster, cands, earlier, pick_at(picks, j));
        grow_from(next.0, next.1, size, earlier, picks, j + 1)
    }
}

/// The tiles of a cluster grown from `center` toward `size` tiles, the
/// neighbors of the center being the first candidates.
pub open spec fn spec_grow(center: GridPos, size: int, earlier: Seq<GridPos>, picks: Seq<u32>) -> Seq<GridPos> {
    grow_from(seq![center], spec_neighbors(center), size, earlier, picks, 0)
}

/// The cluster one draw yields next to the tiles of earlier clusters: none
/// for a center inside the base, or for a cluster that could not grow
/// beyond its center.
pub open spec fn spec_round(d: ClusterDraw, earlier: Seq<GridPos>) -> Option<(DepositType, Seq<GridPos>)> {
    let c = draw_center(d);
    let dist = spec_distance_from_center(c);
    if dist <= BASE_RADIUS {
        None
    } else {
        match spec_pick_deposit_type(dist, d.roll as int) {
            None => None,
            Some(k) => {
                let tiles = spec_grow(c, 2 + d.extra, earlier, d.picks@);
                if tiles.len() < 2 { None } else { Some((k, tiles)) }
            },
        }
    }
}

/// The clusters that draws `0..i` yield, in draw order.
pub open spec fn spec_clusters_from(draws: Seq<ClusterDraw>, i: int) -> Seq<(DepositType, Seq<GridPos>)>
    decreases i,
{
    if i <= 0 {
        Seq::empty()
    } else {
        let prev = spec_clusters_from(draws, i - 1);
        match spec_round(draws[i - 1], flatten(prev)) {
            Some(c) => prev.push(c),
            None => prev,
        }
    }
}

/// Round `i` grew its cluster, if it yielded one, to the aimed size or as
/// far as free cells allowed.
pub open spec fn round_grown(draws: Seq<ClusterDraw>, i: int) -> bool {
    match spec_round(draws[i], flatten(spec_clusters_from(draws, i))) {
        Some(c) => grown(c.1, 2 + draws[i].extra, flatten(spec_clusters_from(draws, i))),
        None => true,
    }
}

fn contains_pos(v: &Vec<GridPos>, p: GridPos) -> (b: bool)
    ensures
        b == v@.contains(p),
{
    let mut i: usize = 0;
    while i < v.len()
        invariant
            i <= v@.len(),
            forall|k: int| 0 <= k < i ==> v@[k] != p,
        decreases v@.len() - i,
    {
        if v[i] == p {
            assert(v@[i as int] == p);
            return true;
        }
        i = i + 1;
    }
    false
}

proof fn lemma_push_contains(s: Seq<GridPos>, x: GridPos, y: GridPos)
    requires
        s.contains(y),
    ensures
        s.push(x).contains(y),
{
    let i = choose|i: int| 0 <= i < s.len() && s[i] == y;
    assert(s.push(x)[i] == y);
}

proof fn lemma_swap_remove_contains(s: Seq<GridPos>, idx: int, y: GridPos)
    requires
        0 <= idx < s.len(),
        s.contains(y),
        y != s[idx],
    ensures
        s.update(idx, s.last()).drop_last().contains(y),
{
    let r = s.update(idx, s.last()).drop_last();
    let i = choose|i: int| 0 <= i < s.len() && s[i] == y;
    if i == s.len() - 1 {
        assert(r[idx] == y);
    } else {
        assert(r[i] == y);
    }
}

/// Grows one cluster from `center` toward `size` tiles, taking cell choices
/// from `picks` (see `spec_grow`).
#[verifier::rlimit(40)]
fn grow_cluster(center: GridPos, size: usize, occupied: &Vec<GridPos>, picks: &[u32; 16]) -> (cluster: Vec<GridPos>)
    requires
        in_map_square(center),
        2 <= size <= 4,
    ensures
        cluster@ == spec_grow(center, size as int, occupied@, picks@),
        1 <= cluster@.len() <= size,
        cluster@[0] == center,
        forall|j: int| 1 <= j < cluster@.len() ==> {
            &&& spec_distance_from_center(#[trigger] cluster@[j]) > BASE_RADIUS
            &&& in_map_square(cluster@[j])
            &&& touches_earlier(cluster@, j)
            &&& !cluster@.take(j).contains(cluster@[j])
            &&& !occupied@.contains(cluster@[j])
        },
        grown(cluster@, size as int, occupied@),
{
    let mut cluster: Vec<GridPos> = Vec::new();
    cluster.push(center);
    let first = center.neighbors();
    let mut candidates: Vec<GridPos> = Vec::new();
    candidates.push(first[0]);
    candidates.push(first[1]);
    candidates.push(first[2]);
    candidates.push(first[3]);
    let mut j: usize = 0;
    proof {
        assert(candidates@ =~= spec_neighbors(center));
        assert(cluster@ =~= seq![center]);
        assert forall|c: int| 0 <= c < candidates@.len() implies
            #[trigger] touches_earlier(cluster@.push(candidates@[c]), cluster@.len() as int) by {
            assert(manhattan(cluster@.push(candidates@[c])[0], cluster@.push(candidates@[c])[cluster@.len() as int]) == 1);
        }
        assert forall|t: int, k: int| 0 <= t < cluster@.len() && 0 <= k < 4 implies
            cluster@.contains(spec_neighbors(cluster@[t])[k]) || candidates@.contains(spec_neighbors(cluster@[t])[k])
                || blocked_cell(#[trigger] spec_neighbors(cluster@[t])[k], occupied@) by {
            assert(candidates@[k] == spec_neighbors(cluster@[t])[k]);
        }
    }
    while cluster.len() < size && candidates.len() > 0
        invariant
            2 <= size <= 4,
            in_map_square(center),
            1 <= cluster@.len() <= size,
            cluster@[0] == center,
            j + candidates@.len() + 4 * (size - cluster@.len()) <= GROWTH_PICKS,
            grow_from(cluster@, candidates@, size as int, occupied@, picks@, j as int)
                == spec_grow(center, size as int, occupied@, picks@),
            forall|c: int| 0 <= c < candidates@.len() ==> near_map(#[trigger] candidates@[c]),
            forall|c: int| 0 <= c < candidates@.len() ==>
                #[trigger] touches_earlier(cluster@.push(candidates@[c]), cluster@.len() as int),
            forall|i: int| 1 <= i < cluster@.len() ==> {
                &&& spec_distance_from_center(#[trigger] cluster@[i]) > BASE_RADIUS
                &&& in_map_square(cluster@[i])
                &&& touches_earlier(cluster@, i)
                &&& !cluster@.take(i).contains(cluster@[i])
                &&& !occupied@.contains(cluster@[i])
            },
            forall|t: int, k: int| 0 <= t < cluster@.len() && 0 <= k < 4 ==>
                cluster@.contains(spec_neighbors(cluster@[t])[k]) || candidates@.contains(spec_neighbors(cluster@[t])[k])
                    || blocked_cell(#[trigger] spec_neighbors(cluster@[t])[k], occupied@),
        decreases GROWTH_PICKS - j,
    {
        let count = candidates.len();
        let idx = (picks[j] % (count as u32)) as usize;
        let ghost old_cands = candidates@;
        let ghost old_cluster = cluster@;
        let ghost jj = j as int;
        let pos = candidates.swap_remove(idx);
        j = j + 1;
        proof {
            assert(picks@[jj] == picks[jj]);
            assert(pick_at(picks@, jj) == picks[jj]);
            assert(idx as int == (pick_at(picks@, jj) as int) % (old_cands.len() as int));
            assert(candidates@ == old_cands.update(idx as int, old_cands.last()).drop_last());
            assert(grow_from(old_cluster, old_cands, size as int, occupied@, picks@, jj) == grow_from(
                grow_step(old_cluster, old_cands, occupied@, pick_at(picks@, jj)).0,
                grow_step(old_cluster, old_cands, occupied@, pick_at(picks@, jj)).1,
                size as int, occupied@, picks@, jj + 1));
            assert forall|c: int| 0 <= c < candidates@.len() implies
                #[trigger] touches_earlier(cluster@.push(candidates@[c]), cluster@.len() as int)
                && near_map(candidates@[c]) by {
                if c == idx {
                    assert(candidates@[c] == old_cands[old_cands.len() - 1]);
                    assert(touches_earlier(cluster@.push(old_cands[old_cands.len() - 1]), cluster@.len() as int));
                } else {
                    assert(candidates@[c] == old_cands[c]);
                    assert(touches_earlier(cluster@.push(old_cands[c]), cluster@.len() as int));
                }
            }
            assert(touches_earlier(cluster@.push(old_cands[idx as int]), cluster@.len() as int));
            assert forall|t: int, k: int| 0 <= t < cluster@.len() && 0 <= k < 4 implies
                cluster@.contains(spec_neighbors(cluster@[t])[k]) || candidates@.contains(spec_neighbors(cluster@[t])[k])
                    || blocked_cell(#[trigger] spec_neighbors(cluster@[t])[k], occupied@)
                    || spec_neighbors(cluster@[t])[k] == pos by {
                let nb = spec_neighbors(cluster@[t])[k];
                if old_cands.contains(nb) && nb != pos {
                    lemma_swap_remove_contains(old_cands, idx as int, nb);
                }
            }
        }
        let in_square = -75 <= pos.x && pos.x < 75 && -75 <= pos.y && pos.y < 75;
        let d = pos.distance_from_center();
        assert(d == spec_distance_from_center(pos));
        if d <= BASE_RADIUS || !in_square || contains_pos(occupied, pos) || contains_pos(&cluster, pos) {
            proof {
                assert(blocked_cell(pos, occupied@) || cluster@.contains(pos));
            }
            continue;
        }
        assert(!blocked_cell(pos, occupied@) && !cluster@.contains(pos));
        cluster.push(pos);
        let ghost rest = candidates@;
        proof {
            assert(cluster@.take(old_cluster.len() as int) =~= old_cluster);
            assert forall|i: int| 1 <= i < cluster@.len() implies {
                &&& spec_distance_from_center(#[trigger] cluster@[i]) > BASE_RADIUS
                &&& in_map_square(cluster@[i])
                &&& touches_earlier(cluster@, i)
                &&& !cluster@.take(i).contains(cluster@[i])
                &&& !occupied@.contains(cluster@[i])
            } by {
                if i < old_cluster.len() {
                    assert(cluster@[i] == old_cluster[i]);
                    assert(cluster@.take(i) =~= old_cluster.take(i));
                    assert(touches_earlier(old_cluster, i));
                    let k = choose|k: int| 0 <= k < i && #[trigger] manhattan(old_cluster[k], old_cluster[i]) == 1;
                    assert(manhattan(cluster@[k], cluster@[i]) == 1);
                } else {
                    assert(cluster@ =~= old_cluster.push(pos));
                    assert(cluster@[i] == pos);
                    assert(cluster@.take(i) =~= old_cluster);
                }
            }
            assert forall|c: int| 0 <= c < candidates@.len() implies
                #[trigger] touches_earlier(cluster@.push(candidates@[c]), cluster@.len() as int) by {
                let q = old_cluster.push(candidates@[c]);
                assert(touches_earlier(q, old_cluster.len() as int));
                let k = choose|k: int| 0 <= k < old_cluster.len() && #[trigger] manhattan(q[k], q[old_cluster.len() as int]) == 1;
                let r = cluster@.push(candidates@[c]);
                assert(r[k] == q[k]);
                assert(manhattan(r[k], r[cluster@.len() as int]) == 1);
            }
            assert forall|t: int, k: int| 0 <= t < old_cluster.len() && 0 <= k < 4 implies
                cluster@.contains(spec_neighbors(cluster@[t])[k]) || candidates@.contains(spec_neighbors(cluster@[t])[k])
                    || blocked_cell(#[trigger] spec_neighbors(cluster@[t])[k], occupied@) by {
                assert(cluster@[t] == old_cluster[t]);
                let nb = spec_neighbors(old_cluster[t])[k];
                if old_cluster.contains(nb) {
                    lemma_push_contains(old_cluster, pos, nb);
                }
                if nb == pos {
                    assert(cluster@[old_cluster.len() as int] == pos);
                }
            }
        }
        let neighbors = pos.neighbors();
        let ghost base_len = candidates@.len();
        let mut m: usize = 0;
        while m < 4
            invariant
                m <= 4,
                cluster@.len() == old_cluster.len() + 1,
                cluster@.last() == pos,
                in_map_square(pos),
                neighbors@ == spec_neighbors(pos),
                candidates@ == add_new_neighbors(cluster@, rest, spec_neighbors(pos), m as int),
                candidates@.len() <= base_len + m,
                forall|c: int| 0 <= c < candidates@.len() ==> near_map(#[trigger] candidates@[c]),
                forall|c: int| 0 <= c < candidates@.len() ==>
                    #[trigger] touches_earlier(cluster@.push(candidates@[c]), cluster@.len() as int),
                forall|t: int, k: int| 0 <= t < old_cluster.len() && 0 <= k < 4 ==>
                    cluster@.contains(spec_neighbors(cluster@[t])[k]) || candidates@.contains(spec_neighbors(cluster@[t])[k])
                        || blocked_cell(#[trigger] spec_neighbors(cluster@[t])[k], occupied@),
                forall|k: int| 0 <= k < m ==>
                    cluster@.contains(#[trigger] spec_neighbors(pos)[k]) || candidates@.contains(spec_neighbors(pos)[k]),
            decreases 4 - m,
        {
            let n = neighbors[m];
            let ghost before = candidates@;
            assert(n == spec_neighbors(pos)[m as int]);
            if !contains_pos(&cluster, n) && !contains_pos(&candidates, n) {
                candidates.push(n);
                proof {
                    assert forall|c: int| 0 <= c < candidates@.len() implies
                        #[trigger] touches_earlier(cluster@.push(candidates@[c]), cluster@.len() as int) by {
                        if c < before.len() {
                            assert(candidates@[c] == before[c]);
                        } else {
                            let r = cluster@.push(n);
                            assert(r[cluster@.len() - 1] == pos);
                            assert(manhattan(r[cluster@.len() - 1], r[cluster@.len() as int]) == 1);
                        }
                    }
                    assert(candidates@[before.len() as int] == n);
                    assert forall|t: int, k: int| 0 <= t < old_cluster.len() && 0 <= k < 4 implies
                        cluster@.contains(spec_neighbors(cluster@[t])[k]) || candidates@.contains(spec_neighbors(cluster@[t])[k])
                            || blocked_cell(#[trigger] spec_neighbors(cluster@[t])[k], occupied@) by {
                        let nb = spec_neighbors(cluster@[t])[k];
                        if before.contains(nb) {
                            lemma_push_contains(before, n, nb);
                        }
                    }
                    assert forall|k: int| 0 <= k < m + 1 implies
                        cluster@.contains(#[trigger] spec_neighbors(pos)[k]) || candidates@.contains(spec_neighbors(pos)[k]) by {
                        if k < m && before.contains(spec_neighbors(pos)[k]) {
                            lemma_push_contains(before, n, spec_neighbors(pos)[k]);
                        }
                    }
                }
            }
            m = m + 1;
        }
        proof {
            assert forall|t: int, k: int| 0 <= t < cluster@.len() && 0 <= k < 4 implies
                cluster@.contains(spec_neighbors(cluster@[t])[k]) || candidates@.contains(spec_neighbors(cluster@[t])[k])
                    || blocked_cell(#[trigger] spec_neighbors(cluster@[t])[k], occupied@) by {
                if t == old_cluster.len() {
                    assert(cluster@[t] == pos);
                }
            }
        }
    }
    proof {
        if cluster@.len() < size {
            assert forall|t: int, k: int| 0 <= t < cluster@.len() && 0 <= k < 4 implies
                cluster@.contains(spec_neighbors(cluster@[t])[k])
                    || blocked_cell(#[trigger] spec_neighbors(cluster@[t])[k], occupied@) by {
                assert(candidates@.len() == 0);
                if candidates@.contains(spec_neighbors(cluster@[t])[k]) {
                    let c = choose|c: int| 0 <= c < candidates@.len() && candidates@[c] == spec_neighbors(cluster@[t])[k];
                }
            }
        }
    }
    cluster
}

/// Lays out the deposit clusters that the draws yield, in draw order (see
/// `spec_round`): a center inside the base yields nothing; any other center
/// gets the kind its distance and roll call for and grows toward 2 to 4
/// tiles over free cells; a center that cannot grow yields nothing.
pub fn clusters_from_draws(draws: &Vec<ClusterDraw>) -> (clusters: Vec<DepositCluster>)
    requires
        forall|i: int| 0 <= i < draws@.len() ==> draw_ok(#[trigger] draws@[i]),
    ensures
        clusters@.map_values(|k: DepositCluster| k@) == spec_clusters_from(draws@, draws@.len() as int),
        forall|c: int| 0 <= c < clusters@.len() ==> cluster_ok(
            (#[trigger] clusters@[c])@.0,
            clusters@[c]@.1,
            flatten(clusters@.take(c).map_values(|k: DepositCluster| k@)),
        ),
        forall|i: int| 0 <= i < draws@.len() ==> #[trigger] round_grown(draws@, i),
{
    let mut clusters: Vec<DepositCluster> = Vec::new();
    let mut occupied: Vec<GridPos> = Vec::new();
    let mut round: usize = 0;
    proof {
        assert(clusters@.map_values(|k: DepositCluster| k@) =~= spec_clusters_from(draws@, 0));
    }
    while round < draws.len()
        invariant
            round <= draws@.len(),
            forall|i: int| 0 <= i < draws@.len() ==> draw_ok(#[trigger] draws@[i]),
            clusters@.map_values(|k: DepositCluster| k@) == spec_clusters_from(draws@, round as int),
            occupied@ == flatten(clusters@.map_values(|k: DepositCluster| k@)),
            forall|c: int| 0 <= c < clusters@.len() ==> cluster_ok(
                (#[trigger] clusters@[c])@.0,
                clusters@[c]@.1,
                flatten(clusters@.take(c).map_values(|k: DepositCluster| k@)),
            ),
            forall|i: int| 0 <= i < round ==> #[trigger] round_grown(draws@, i),
        decreases draws@.len() - round,
    {
        let d = draws[round];
        let ghost r = round as int;
        let ghost prev = spec_clusters_from(draws@, r);
        assert(d == draws@[r]);
        assert(draw_ok(d));
        round = round + 1;
        let cx: i32 = d.x as i32 - 75;
        let cy: i32 = d.y as i32 - 75;
        let center = GridPos { x: cx, y: cy };
        assert(center == draw_center(d));
        let dist = center.distance_from_center();
        if dist <= BASE_RADIUS {
            proof {
                assert(spec_clusters_from(draws@, r + 1) == prev);
                assert forall|i: int| 0 <= i < round implies #[trigger] round_grown(draws@, i) by {}
            }
            continue;
        }
        let deposit_type = match pick_deposit_type(dist, d.roll) {
            Some(dt) => dt,
            None => {
                proof {
                    assert(spec_clusters_from(draws@, r + 1) == prev);
                    assert forall|i: int| 0 <= i < round implies #[trigger] round_grown(draws@, i) by {}
                }
                continue;
            },
        };
        let size = (2 + d.extra) as usize;
        let tiles = grow_cluster(center, size, &occupied, &d.picks);
        proof {
            assert(occupied@ == flatten(prev));
            assert(tiles@ == spec_grow(center, 2 + d.extra, flatten(prev), d.picks@));
        }
        if tiles.len() < 2 {
            proof {
                assert(spec_clusters_from(draws@, r + 1) == prev);
                assert forall|i: int| 0 <= i < round implies #[trigger] round_grown(draws@, i) by {}
            }
            continue;
        }
        let ghost before = clusters@;
        let ghost tiles_view = tiles@;
        let mut k: usize = 0;
        while k < tiles.len()
            invariant
                k <= tiles@.len(),
                tiles@ == tiles_view,
                occupied@ == flatten(before.map_values(|c: DepositCluster| c@)) + tiles_view.take(k as int),
            decreases tiles@.len() - k,
        {
            occupied.push(tiles[k]);
            assert(tiles_view.take(k + 1) =~= tiles_view.take(k as int).push(tiles_view[k as int]));
            k = k + 1;
        }
        proof {
            assert(tiles_view.take(tiles_view.len() as int) =~= tiles_view);
            assert(spec_pick_deposit_type(spec_distance_from_center(center), d.roll as int) == Some(deposit_type));
            assert(spec_round(d, flatten(prev)) == Some((deposit_type, tiles_view)));
        }
        clusters.push(DepositCluster { deposit_type, tiles });
        proof {
            let vs = clusters@.map_values(|c: DepositCluster| c@);
            assert(clusters@.take(before.len() as int) =~= before);
            assert(vs.drop_last() =~= before.map_values(|c: DepositCluster| c@));
            assert(vs =~= prev.push((deposit_type, tiles_view)));
            assert(occupied@ =~= flatten(vs));
            assert forall|c: int| 0 <= c < clusters@.len() implies cluster_ok(
                (#[trigger] clusters@[c])@.0,
                clusters@[c]@.1,
                flatten(clusters@.take(c).map_values(|k: DepositCluster| k@)),
            ) by {
                if c < before.len() {
                    assert(clusters@.take(c) =~= before.take(c));
                    assert(clusters@[c] == before[c]);
                } else {
                    assert(clusters@.take(c) =~= before);
                }
            }
            assert forall|i: int| 0 <= i < round implies #[trigger] round_grown(draws@, i) by {}
        }
    }
    clusters
}

/// Draws the values for one cluster: a center on the map, a kind roll, an
/// aimed size and the cell choices. Each cell choice is drawn below 27720,
/// a multiple of every candidate count a growth step can see (at most 12),
/// so each choice among the candidates is equally likely.
fn draw_cluster() -> (d: ClusterDraw)
    ensures
        draw_ok(d),
{
    let x = random_below(150);
    let y = random_below(150);
    let roll = roll_percent();
    let extra = random_below(3);
    let mut picks: [u32; 16] = [0u32; 16];
    let mut i: usize = 0;
    while i < GROWTH_PICKS
        invariant
            i <= GROWTH_PICKS,
        decreases GROWTH_PICKS - i,
    {
        picks[i] = random_below(27720);
        i = i + 1;
    }
    ClusterDraw { x, y, roll, extra, picks }
}

/// Lays out the deposit clusters of a new map from `DEPOSIT_COUNT` random
/// draws (see `clusters_from_draws`).
pub fn spawn_deposits() -> (clusters: Vec<DepositCluster>)
    ensures
        exists|draws: Seq<ClusterDraw>| {
            &&& draws.len() == DEPOSIT_COUNT
            &&& forall|i: int| 0 <= i < draws.len() ==> draw_ok(#[trigger] draws[i])
            &&& clusters@.map_values(|k: DepositCluster| k@) == spec_clusters_from(draws, DEPOSIT_COUNT as int)
            &&& forall|i: int| 0 <= i < draws.len() ==> #[trigger] round_grown(draws, i)
        },
        clusters@.len() <= DEPOSIT_COUNT,
        forall|c: int| 0 <= c < clusters@.len() ==> cluster_ok(
            (#[trigger] clusters@[c])@.0,
            clusters@[c]@.1,
            flatten(clusters@.take(c).map_values(|k: DepositCluster| k@)),
        ),
{
    let mut draws: Vec<ClusterDraw> = Vec::new();
    let mut round: usize = 0;
    while round < DEPOSIT_COUNT
        invariant
            round <= DEPOSIT_COUNT,
            draws@.len() == round,
            forall|i: int| 0 <= i < draws@.len() ==> draw_ok(#[trigger] draws@[i]),
        decreases DEPOSIT_COUNT - round,
    {
        let d = draw_cluster();
        draws.push(d);
        round = round + 1;
    }
    let clusters = clusters_from_draws(&draws);
    proof {
        lemma_clusters_from_len(draws@, DEPOSIT_COUNT as int);
        assert(clusters@.len() == clusters@.map_values(|k: DepositCluster| k@).len());
    }
    clusters
}

proof fn lemma_clusters_from_len(draws: Seq<ClusterDraw>, i: int)
    requires
        0 <= i,
    ensures
        spec_clusters_from(draws, i).len() <= i,
    decreases i,
{
    if i > 0 {
        lemma_clusters_from_len(draws, i - 1);
    }
}

} // verus!
