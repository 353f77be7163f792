use vstd::prelude::*;

verus! {

/// Side of the square map, in tiles.
pub const GRID_SIZE: i32 = 150;

/// Manhattan radius of the cleared base area around the origin.
pub const BASE_RADIUS: i32 = 2;

/// Number of ore kinds.
pub const TILE_KINDS: usize = 11;

/// The kinds of ore a tile can hold.
#[derive(Clone, Copy, PartialEq, Eq, Structural, Hash, Debug)]
pub enum TileType {
    Dirt,
    Stone,
    Coal,
    Iron,
    Copper,
    Silver,
    Gold,
    Diamond,
    Ruby,
    Mythril,
    Obsidian,
}

/// Position of each ore kind in the display order (and in item counters).
pub open spec fn spec_tile_index(t: TileType) -> int {
    match t {
        TileType::Dirt => 0,
        TileType::Stone => 1,
        TileType::Coal => 2,
        TileType::Iron => 3,
        TileType::Copper => 4,
        TileType::Silver => 5,
        TileType::Gold => 6,
        TileType::Diamond => 7,
        TileType::Ruby => 8,
        TileType::Mythril => 9,
        TileType::Obsidian => 10,
    }
}

/// The ore kinds in display order.
pub open spec fn spec_all_ordered() -> Seq<TileType> {
    seq![
        TileType::Dirt, TileType::Stone, TileType::Coal,
        TileType::Iron, TileType::Copper, TileType::Silver,
        TileType::Gold, TileType::Diamond, TileType::Ruby,
        TileType::Mythril, TileType::Obsidian,
    ]
}

/// Sale value of one unit of each ore, in coins.
pub open spec fn spec_value(t: TileType) -> nat {
    match t {
        TileType::Dirt => 1,
        TileType::Stone => 2,
        TileType::Coal => 5,
        TileType::Iron => 10,
        TileType::Copper => 12,
        TileType::Silver => 25,
        TileType::Gold => 50,
        TileType::Diamond => 150,
        TileType::Ruby => 200,
        TileType::Mythril => 500,
        TileType::Obsidian => 750,
    }
}

/// Hardness of each ore: the damage a tile absorbs before it breaks.
pub open spec fn spec_hp(t: TileType) -> nat {
    match t {
        TileType::Dirt => 1,
        TileType::Stone => 2,
        TileType::Coal => 2,
        TileType::Iron => 3,
        TileType::Copper => 3,
        TileType::Silver => 4,
        TileType::Gold => 5,
        TileType::Diamond => 7,
        TileType::Ruby => 7,
        TileType::Mythril => 9,
        TileType::Obsidian => 10,
    }
}

/// Name shown to the player.
pub open spec fn spec_label(t: TileType) -> Seq<char> {
    match t {
        TileType::Dirt => "Terre"@,
        TileType::Stone => "Pierre"@,
        TileType::Coal => "Charbon"@,
        TileType::Iron => "Fer"@,
        TileType::Copper => "Cuivre"@,
        TileType::Silver => "Argent"@,
        TileType::Gold => "Or"@,
        TileType::Diamond => "Diamant"@,
        TileType::Ruby => "Rubis"@,
        TileType::Mythril => "Mythril"@,
        TileType::Obsidian => "Obsidienne"@,
    }
}

impl TileType {
    /// Name shown to the player.
    pub fn label(&self) -> (s: &'static str)
        ensures
            s@ == spec_label(*self),
    {
        match self {
            TileType::Dirt => "Terre",
            TileType::Stone => "Pierre",
            TileType::Coal => "Charbon",
            TileType::Iron => "Fer",
            TileType::Copper => "Cuivre",
            TileType::Silver => "Argent",
            TileType::Gold => "Or",
            TileType::Diamond => "Diamant",
            TileType::Ruby => "Rubis",
            TileType::Mythril => "Mythril",
            TileType::Obsidian => "Obsidienne",
        }
    }

    /// Hardness: the damage the tile absorbs before it breaks.
    pub fn hp(&self) -> (h: u32)
        ensures
            h == spec_hp(*self),
    {
        match self {
            TileType::Dirt => 1,
            TileType::Stone => 2,
            TileType::Coal => 2,
            TileType::Iron => 3,
            TileType::Copper => 3,
            TileType::Silver => 4,
            TileType::Gold => 5,
            TileType::Diamond => 7,
            TileType::Ruby => 7,
            TileType::Mythril => 9,
            TileType::Obsidian => 10,
        }
    }

    /// Sale value of one unit, in coins.
    pub fn value(&self) -> (v: u64)
        ensures
            v == spec_value(*self),
    {
        match self {
            TileType::Dirt => 1,
            TileType::Stone => 2,
            TileType::Coal => 5,
            TileType::Iron => 10,
            TileType::Copper => 12,
            TileType::Silver => 25,
            TileType::Gold => 50,
            TileType::Diamond => 150,
            TileType::Ruby => 200,
            TileType::Mythril => 500,
            TileType::Obsidian => 750,
        }
    }

    /// Display order used by the HUD.
    pub fn all_ordered() -> (v: Vec<TileType>)
        ensures
            v@ == spec_all_ordered(),
    {
        let v = vec![
            TileType::Dirt, TileType::Stone, TileType::Coal,
            TileType::Iron, TileType::Copper, TileType::Silver,
            TileType::Gold, TileType::Diamond, TileType::Ruby,
            TileType::Mythril, TileType::Obsidian,
        ];
        assert(v@ =~= spec_all_ordered());
        v
    }

    /// Position of this kind in the display order.
    pub fn index(&self) -> (i: usize)
        ensures
            i == spec_tile_index(*self),
            i < TILE_KINDS,
    {
        match self {
            TileType::Dirt => 0,
            TileType::Stone => 1,
            TileType::Coal => 2,
            TileType::Iron => 3,
            TileType::Copper => 4,
            TileType::Silver => 5,
            TileType::Gold => 6,
            TileType::Diamond => 7,
            TileType::Ruby => 8,
            TileType::Mythril => 9,
            TileType::Obsidian => 10,
        }
    }

    /// The kind at position `i` of the display order.
    pub fn from_index(i: usize) -> (t: TileType)
        requires
            i < TILE_KINDS,
        ensures
            t == spec_all_ordered()[i as int],
            spec_tile_index(t) == i,
    {
        match i {
            0 => TileType::Dirt,
            1 => TileType::Stone,
            2 => TileType::Coal,
            3 => TileType::Iron,
            4 => TileType::Copper,
            5 => TileType::Silver,
            6 => TileType::Gold,
            7 => TileType::Diamond,
            8 => TileType::Ruby,
            9 => TileType::Mythril,
            _ => TileType::Obsidian,
        }
    }
}

/// The display order lists every ore kind exactly once, each at its own index.
pub proof fn lemma_all_ordered_is_index_order()
    ensures
        spec_all_ordered().len() == TILE_KINDS,
        forall|i: int| 0 <= i < TILE_KINDS ==> #[trigger] spec_tile_index(spec_all_ordered()[i]) == i,
        forall|t: TileType| 0 <= #[trigger] spec_tile_index(t) < TILE_KINDS
            && spec_all_ordered()[spec_tile_index(t)] == t,
{
}

/// A cell of the map grid; the base sits at the origin.
#[derive(Clone, Copy, PartialEq, Eq, Structural, Hash, Debug)]
pub struct GridPos {
    pub x: i32,
    pub y: i32,
}

pub open spec fn abs(v: int) -> int {
    if v < 0 { -v } else { v }
}

/// Manhattan distance between two cells.
pub open spec fn manhattan(a: GridPos, b: GridPos) -> int {
    abs(a.x - b.x) + abs(a.y - b.y)
}

/// Manhattan distance of a cell from the base.
pub open spec fn spec_distance_from_center(p: GridPos) -> int {
    abs(p.x as int) + abs(p.y as int)
}

/// The four cells sharing an edge with `p`: up, down, left, right.
pub open spec fn spec_neighbors(p: GridPos) -> Seq<GridPos> {
    seq![
        GridPos { x: p.x, y: (p.y + 1) as i32 },
        GridPos { x: p.x, y: (p.y - 1) as i32 },
        GridPos { x: (p.x - 1) as i32, y: p.y },
        GridPos { x: (p.x + 1) as i32, y: p.y },
    ]
}

impl GridPos {
    /// Manhattan distance from the base.
    pub fn distance_from_center(&self) -> (d: i32)
        requires
            spec_distance_from_center(*self) <= i32::MAX,
        ensures
            d == spec_distance_from_center(*self),
    {
        let ax: i32 = if self.x < 0 { -self.x } else { self.x };
        let ay: i32 = if self.y < 0 { -self.y } else { self.y };
        ax + ay
    }

    /// The four cells sharing an edge with this one: up, down, left, right.
    pub fn neighbors(&self) -> (n: [GridPos; 4])
        requires
            i32::MIN < self.x < i32::MAX,
            i32::MIN < self.y < i32::MAX,
        ensures
            n@ == spec_neighbors(*self),
    {
        let n = [
            GridPos { x: self.x, y: self.y + 1 },
            GridPos { x: self.x, y: self.y - 1 },
            GridPos { x: self.x - 1, y: self.y },
            GridPos { x: self.x + 1, y: self.y },
        ];
        assert(n@ =~= spec_neighbors(*self));
        n
    }
}

} // verus!
