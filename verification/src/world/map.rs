use vstd::prelude::*;

use crate::chance::{pick_from_table, roll_percent, spec_pick, table_wf};
use crate::world::tiles::{
    spec_distance_from_center, spec_neighbors, GridPos, TileType, BASE_RADIUS, GRID_SIZE,
};

verus! {

/// Ore spawn table for a tile at Manhattan distance `distance` from the base,
/// as a percentage table with cumulative thresholds.
pub open spec fn spec_zone_table(distance: int) -> Seq<(TileType, u32)> {
    if 3 <= distance <= 20 {
        seq![(TileType::Dirt, 70u32), (TileType::Stone, 90u32), (TileType::Coal, 98u32), (TileType::Iron, 100u32)]
    } else if 21 <= distance <= 45 {
        seq![
            (TileType::Dirt, 30u32), (TileType::Stone, 70u32), (TileType::Coal, 75u32),
            (TileType::Iron, 90u32), (TileType::Copper, 100u32),
        ]
    } else if 46 <= distance <= 75 {
        seq![
            (TileType::Stone, 50u32), (TileType::Iron, 70u32), (TileType::Copper, 75u32),
            (TileType::Silver, 90u32), (TileType::Gold, 100u32),
        ]
    } else if 76 <= distance <= 110 {
        seq![
            (TileType::Stone, 40u32), (TileType::Silver, 60u32), (TileType::Gold, 75u32),
            (TileType::Diamond, 90u32), (TileType::Ruby, 100u32),
        ]
    } else {
        seq![
            (TileType::Stone, 30u32), (TileType::Obsidian, 55u32), (TileType::Mythril, 75u32),
            (TileType::Diamond, 90u32), (TileType::Ruby, 100u32),
        ]
    }
}

/// Ore of a tile at distance `distance` from the base for a percentage roll.
pub open spec fn spec_pick_tile_type(distance: int, roll: int) -> TileType {
    spec_pick(spec_zone_table(distance), roll)
}

/// Every zone table is a percentage table.
pub proof fn lemma_zone_tables_wf(distance: int)
    ensures
        table_wf(spec_zone_table(distance)),
{
}

/// Ore spawn table for a tile at Manhattan distance `distance` from the base.
pub fn zone_table(distance: i32) -> (t: Vec<(TileType, u32)>)
    ensures
        t@ == spec_zone_table(distance as int),
{
    let t = if 3 <= distance && distance <= 20 {
        vec![(TileType::Dirt, 70u32), (TileType::Stone, 90u32), (TileType::Coal, 98u32), (TileType::Iron, 100u32)]
    } else if 21 <= distance && distance <= 45 {
        vec![
            (TileType::Dirt, 30u32), (TileType::Stone, 70u32), (TileType::Coal, 75u32),
            (TileType::Iron, 90u32), (TileType::Copper, 100u32),
        ]
    } else if 46 <= distance && distance <= 75 {
        vec![
            (TileType::Stone, 50u32), (TileType::Iron, 70u32), (TileType::Copper, 75u32),
            (TileType::Silver, 90u32), (TileType::Gold, 100u32),
        ]
    } else if 76 <= distance && distance <= 110 {
        vec![
            (TileType::Stone, 40u32), (TileType::Silver, 60u32), (TileType::Gold, 75u32),
            (TileType::Diamond, 90u32), (TileType::Ruby, 100u32),
        ]
    } else {
        vec![
            (TileType::Stone, 30u32), (TileType::Obsidian, 55u32), (TileType::Mythril, 75u32),
            (TileType::Diamond, 90u32), (TileType::Ruby, 100u32),
        ]
    };
    assert(t@ =~= spec_zone_table(distance as int));
    t
}

/// Ore of a tile at distance `distance` from the base, for a percentage roll.
pub fn pick_tile_type(distance: i32, roll: u32) -> (t: TileType)
    ensures
        t == spec_pick_tile_type(distance as int, roll as int),
{
    let table = zone_table(distance);
    pick_from_table(&table, roll)
}

/// A terrain tile of a new map.
#[derive(Clone, Copy, Debug)]
pub struct MapCell {
    pub pos: GridPos,
    pub tile_type: TileType,
    pub revealed: bool,
}

/// Position of a cell of the map square when the square is read column by
/// column, each column bottom to top.
pub open spec fn scan_key(p: GridPos) -> int {
    (p.x + GRID_SIZE / 2) * GRID_SIZE + (p.y + GRID_SIZE / 2)
}

/// The cell lies in the square of the map centered on the base.
pub open spec fn in_square(p: GridPos) -> bool {
    -(GRID_SIZE / 2) <= p.x < GRID_SIZE / 2 && -(GRID_SIZE / 2) <= p.y < GRID_SIZE / 2
}

/// The cell holds a terrain tile: it is in the map square, outside the base.
pub open spec fn is_terrain(p: GridPos) -> bool {
    in_square(p) && spec_distance_from_center(p) > BASE_RADIUS
}

/// Some cell of `cells` lies on `p`.
pub open spec fn covers(cells: Seq<MapCell>, p: GridPos) -> bool {
    exists|i: int| 0 <= i < cells.len() && #[trigger] cells[i].pos == p
}

/// A cell as generated: terrain; revealed exactly when it borders the base;
/// its ore one that its distance's table can yield.
pub open spec fn cell_ok(c: MapCell) -> bool {
    &&& is_terrain(c.pos)
    &&& c.revealed == (spec_distance_from_center(c.pos) <= BASE_RADIUS + 1)
    &&& exists|roll: int| 0 <= roll < 100
        && #[trigger] spec_pick_tile_type(spec_distance_from_center(c.pos), roll) == c.tile_type
}

/// Generates the terrain of a new map: one tile on every cell of the map
/// square outside the base, listed column by column; each tile's ore is
/// drawn from its distance's table; only the ring bordering the base starts
/// revealed.
pub fn spawn_map() -> (cells: Vec<MapCell>)
    ensures
        forall|i: int| 0 <= i < cells@.len() ==> cell_ok(#[trigger] cells@[i]),
        forall|i: int, j: int| 0 <= i < j < cells@.len() ==>
            scan_key(#[trigger] cells@[i].pos) < scan_key(#[trigger] cells@[j].pos),
        forall|p: GridPos| #[trigger] is_terrain(p) ==> covers(cells@, p),
{
    let half: i32 = GRID_SIZE / 2;
    let mut cells: Vec<MapCell> = Vec::new();
    let mut x: i32 = -half;
    while x < half
        invariant
            half == GRID_SIZE / 2,
            -half <= x <= half,
            forall|i: int| 0 <= i < cells@.len() ==> cell_ok(#[trigger] cells@[i]),
            forall|i: int, j: int| 0 <= i < j < cells@.len() ==>
                scan_key(#[trigger] cells@[i].pos) < scan_key(#[trigger] cells@[j].pos),
            forall|i: int| 0 <= i < cells@.len() ==> #[trigger] cells@[i].pos.x < x,
            forall|p: GridPos| #[trigger] is_terrain(p) && p.x < x ==> covers(cells@, p),
        decreases half - x,
    {
        let mut y: i32 = -half;
        while y < half
            invariant
                half == GRID_SIZE / 2,
                -half <= x < half,
                -half <= y <= half,
                forall|i: int| 0 <= i < cells@.len() ==> cell_ok(#[trigger] cells@[i]),
                forall|i: int, j: int| 0 <= i < j < cells@.len() ==>
                    scan_key(#[trigger] cells@[i].pos) < scan_key(#[trigger] cells@[j].pos),
                forall|i: int| 0 <= i < cells@.len() ==>
                    scan_key(#[trigger] cells@[i].pos) < scan_key(GridPos { x, y }),
                forall|i: int| 0 <= i < cells@.len() ==> #[trigger] cells@[i].pos.x <= x,
                forall|p: GridPos| #[trigger] is_terrain(p) && (p.x < x || (p.x == x && p.y < y))
                    ==> covers(cells@, p),
            decreases half - y,
        {
            let pos = GridPos { x, y };
            let dist = pos.distance_from_center();
            let ghost before = cells@;
            if dist > BASE_RADIUS {
                let roll = roll_percent();
                let tile_type = pick_tile_type(dist, roll);
                let revealed = dist <= BASE_RADIUS + 1;
                cells.push(MapCell { pos, tile_type, revealed });
                proof {
                    assert(cell_ok(cells@[cells@.len() - 1]));
                    assert forall|p: GridPos| #[trigger] is_terrain(p) && (p.x < x || (p.x == x && p.y < y + 1))
                        implies covers(cells@, p) by {
                        if p == pos {
                            assert(cells@[cells@.len() - 1].pos == p);
                        } else {
                            assert(covers(before, p));
                            let i = choose|i: int| 0 <= i < before.len() && #[trigger] before[i].pos == p;
                            assert(cells@[i].pos == p);
                        }
                    }
                }
            } else {
                proof {
                    assert forall|p: GridPos| #[trigger] is_terrain(p) && (p.x < x || (p.x == x && p.y < y + 1))
                        implies covers(cells@, p) by {
                        if p == pos {
                            assert(!is_terrain(p));
                        }
                    }
                }
            }
            y = y + 1;
        }
        proof {
            assert forall|p: GridPos| #[trigger] is_terrain(p) && p.x < x + 1 implies covers(cells@, p) by {
                if p.x == x {
                    assert(p.y < y);
                }
            }
        }
        x = x + 1;
    }
    proof {
        assert forall|p: GridPos| #[trigger] is_terrain(p) implies covers(cells@, p) by {
            assert(p.x < x);
        }
    }
    cells
}

/// A tile is revealed when a cell next to it is mined.
pub fn reveals_on_mine(mined: GridPos, pos: GridPos) -> (b: bool)
    requires
        i32::MIN < mined.x < i32::MAX,
        i32::MIN < mined.y < i32::MAX,
    ensures
        b == spec_neighbors(mined).contains(pos),
{
    let dx: i64 = pos.x as i64 - mined.x as i64;
    let dy: i64 = pos.y as i64 - mined.y as i64;
    let b = (dx == 0 && (dy == 1 || dy == -1)) || (dy == 0 && (dx == 1 || dx == -1));
    proof {
        let n = spec_neighbors(mined);
        if b {
            if dx == 0 && dy == 1 {
                assert(n[0] == pos);
            } else if dx == 0 {
                assert(n[1] == pos);
            } else if dx == -1 {
                assert(n[2] == pos);
            } else {
                assert(n[3] == pos);
            }
        } else {
            assert forall|k: int| 0 <= k < 4 implies n[k] != pos by {
                if k == 0 {
                    assert(n[0] == GridPos { x: mined.x, y: (mined.y + 1) as i32 });
                } else if k == 1 {
                    assert(n[1] == GridPos { x: mined.x, y: (mined.y - 1) as i32 });
                } else if k == 2 {
                    assert(n[2] == GridPos { x: (mined.x - 1) as i32, y: mined.y });
                } else {
                    assert(n[3] == GridPos { x: (mined.x + 1) as i32, y: mined.y });
                }
            }
        }
    }
    b
}

} // verus!
