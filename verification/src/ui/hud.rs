use vstd::prelude::*;

use crate::chance::prev_threshold;
use crate::economy::resources::{Inventory, ItemCounts, PlayerStats};
use crate::machines::auto_miner::AutoMiner;
use crate::machines::conveyor::{BuildError, ConveyorState};
use crate::text::{push_decimal, push_signed, spec_decimal, spec_signed};
use crate::world::deposits::{spec_deposit_label, spec_drop_table, Deposit};
use crate::world::tiles::{abs, spec_all_ordered, spec_label, GridPos, TileType, TILE_KINDS};

verus! {

/// Name of the zone at Manhattan distance `dist` from the base.
pub open spec fn spec_zone_name(dist: int) -> Seq<char> {
    if 0 <= dist <= 2 {
        "Base"@
    } else if 3 <= dist <= 20 {
        "Zone 1"@
    } else if 21 <= dist <= 45 {
        "Zone 2"@
    } else if 46 <= dist <= 75 {
        "Zone 3"@
    } else if 76 <= dist <= 110 {
        "Zone 4"@
    } else {
        "Zone 5"@
    }
}

/// Name of the zone at Manhattan distance `dist` from the base.
pub fn zone_name(dist: i64) -> (s: &'static str)
    ensures
        s@ == spec_zone_name(dist as int),
{
    if 0 <= dist && dist <= 2 {
        "Base"
    } else if 3 <= dist && dist <= 20 {
        "Zone 1"
    } else if 21 <= dist && dist <= 45 {
        "Zone 2"
    } else if 46 <= dist && dist <= 75 {
        "Zone 3"
    } else if 76 <= dist && dist <= 110 {
        "Zone 4"
    } else {
        "Zone 5"
    }
}

/// The coin balance of the top bar.
pub fn money_text(money: u64) -> (s: String)
    ensures
        s@ == spec_decimal(money as nat) + " c"@,
{
    let mut s = String::new();
    push_decimal(&mut s, money);
    s.append(" c");
    assert(s@ =~= spec_decimal(money as nat) + " c"@);
    s
}

/// One entry of the inventory bar per kind held, kinds `0..k` in display order.
pub open spec fn inventory_parts(counts: Seq<u32>, k: int) -> Seq<Seq<char>>
    decreases k,
{
    if k <= 0 {
        Seq::empty()
    } else {
        inventory_parts(counts, k - 1) + if counts[k - 1] > 0 {
            seq![spec_label(spec_all_ordered()[k - 1]) + " x"@ + spec_decimal(counts[k - 1] as nat)]
        } else {
            Seq::empty()
        }
    }
}

/// Pieces joined by a separator.
pub open spec fn join(parts: Seq<Seq<char>>, sep: Seq<char>) -> Seq<char>
    decreases parts.len(),
{
    if parts.len() == 0 {
        Seq::empty()
    } else if parts.len() == 1 {
        parts[0]
    } else {
        join(parts.drop_last(), sep) + sep + parts.last()
    }
}

/// The inventory bar.
pub open spec fn spec_inventory_text(items: ItemCounts, capacity: u32) -> Seq<char> {
    if items.spec_is_empty() {
        "Inventaire (0/"@ + spec_decimal(capacity as nat) + ") : vide"@
    } else {
        "Inventaire ("@ + spec_decimal(items.spec_total() as nat) + "/"@ + spec_decimal(capacity as nat)
            + ") : "@ + join(inventory_parts(items.counts@, TILE_KINDS as int), "   "@)
    }
}

/// The inventory bar: units carried over capacity, then each kind held with
/// its quantity, in display order.
pub fn inventory_text(inventory: &Inventory, capacity: u32) -> (s: String)
    requires
        inventory.items.spec_total() <= u32::MAX,
    ensures
        s@ == spec_inventory_text(inventory.items, capacity),
{
    if inventory.items.is_empty() {
        let mut s = String::from_str("Inventaire (0/");
        push_decimal(&mut s, capacity as u64);
        s.append(") : vide");
        return s;
    }
    let mut s = String::from_str("Inventaire (");
    push_decimal(&mut s, inventory.total_count() as u64);
    s.append("/");
    push_decimal(&mut s, capacity as u64);
    s.append(") : ");
    let ghost prefix = s@;
    let ghost counts = inventory.items.counts@;
    let mut first = true;
    let mut k: usize = 0;
    while k < TILE_KINDS
        invariant
            k <= TILE_KINDS,
            counts == inventory.items.counts@,
            counts.len() == TILE_KINDS,
            s@ == prefix + join(inventory_parts(counts, k as int), "   "@),
            first == (inventory_parts(counts, k as int).len() == 0),
        decreases TILE_KINDS - k,
    {
        let qty = inventory.items.counts[k];
        if qty > 0 {
            let t = TileType::from_index(k);
            let ghost parts = inventory_parts(counts, k as int);
            let ghost s0 = s@;
            if !first {
                s.append("   ");
            }
            s.append(t.label());
            s.append(" x");
            push_decimal(&mut s, qty as u64);
            proof {
                let part = spec_label(spec_all_ordered()[k as int]) + " x"@ + spec_decimal(qty as nat);
                assert(inventory_parts(counts, k as int + 1) =~= parts.push(part));
                let np = parts.push(part);
                assert(np.drop_last() =~= parts);
                if first {
                    assert(join(np, "   "@) == part);
                    assert(s@ =~= prefix + join(np, "   "@));
                } else {
                    assert(join(np, "   "@) == join(parts, "   "@) + "   "@ + part);
                    assert(s@ =~= prefix + join(np, "   "@));
                }
            }
            first = false;
        } else {
            assert(inventory_parts(counts, k as int + 1) =~= inventory_parts(counts, k as int));
        }
        k = k + 1;
    }
    s
}

/// Message shown for a failed belt.
pub open spec fn spec_error_message(e: BuildError) -> Seq<char> {
    match e {
        BuildError::TooShort => "Tapis trop court (min 2 tiles)"@,
        BuildError::NoMinerAdjacent => "Aucun mineur adjacent au tapis !"@,
        BuildError::OutOfMoney => "Plus assez d'argent !"@,
    }
}

/// First part of the stats panel.
pub open spec fn spec_stats_header(
    gx: int,
    gy: int,
    stats: PlayerStats,
    carried: int,
    money: u64,
    miners: u32,
    bots: u32,
) -> Seq<char> {
    let dist = abs(gx) + abs(gy);
    "-- Stats --\nPos: ("@ + spec_signed(gx) + ", "@ + spec_signed(gy) + ")\nZone: "@ + spec_zone_name(dist)
        + " (dist "@ + spec_decimal(dist as nat) + ")\nPuissance: "@ + spec_decimal(stats.mining_power as nat)
        + "\nVitesse: "@ + spec_decimal(stats.walk_speed as nat) + "\nSac: "@ + spec_decimal(carried as nat)
        + "/"@ + spec_decimal(stats.inventory_capacity as nat) + "\nArgent: "@ + spec_decimal(money as nat)
        + " c\nMineurs: "@ + spec_decimal(miners as nat) + "\nBots: "@ + spec_decimal(bots as nat)
}

/// Tracing part of the stats panel: the path so far and its price, or the
/// reason the last belt failed.
pub open spec fn spec_conveyor_section(tracing: bool, tiles: nat, error: Option<BuildError>) -> Seq<char> {
    if tracing {
        "\n\n>> MODE TAPIS <<\nTiles: "@ + spec_decimal(tiles) + " (cout: "@ + spec_decimal(tiles * 10)
            + " c)\n[T] Terminer"@
    } else {
        match error {
            Some(e) => "\n\n!! "@ + spec_error_message(e) + " !!"@,
            None => Seq::empty(),
        }
    }
}

/// Drop table lines, entries `0..k`: each ore with its percentage.
pub open spec fn drop_lines(table: Seq<(TileType, u32)>, k: int) -> Seq<char>
    decreases k,
{
    if k <= 0 {
        Seq::empty()
    } else {
        drop_lines(table, k - 1) + "  "@ + spec_label(table[k - 1].0) + " : "@
            + spec_decimal((table[k - 1].1 - prev_threshold(table, k - 1)) as nat) + "%\n"@
    }
}

/// First entry, from index `i` on, standing on `p`, revealed.
pub open spec fn revealed_deposit_at(deposits: Seq<(GridPos, Deposit)>, p: GridPos, i: int) -> Option<int>
    decreases deposits.len() - i,
{
    if i < 0 || i >= deposits.len() {
        None
    } else if deposits[i].0 == p && deposits[i].1.revealed {
        Some(i)
    } else {
        revealed_deposit_at(deposits, p, i + 1)
    }
}

/// First miner, from index `i` on, standing on `p`.
pub open spec fn miner_at(miners: Seq<(GridPos, AutoMiner)>, p: GridPos, i: int) -> Option<int>
    decreases miners.len() - i,
{
    if i < 0 || i >= miners.len() {
        None
    } else if miners[i].0 == p {
        Some(i)
    } else {
        miner_at(miners, p, i + 1)
    }
}

/// Deposit part of the stats panel, when the player stands on a revealed
/// deposit: its name, its drop table, and its miner's stock or the hint to
/// place one.
pub open spec fn spec_deposit_section(
    deposits: Seq<(GridPos, Deposit)>,
    miners: Seq<(GridPos, AutoMiner)>,
    p: GridPos,
) -> Seq<char> {
    match revealed_deposit_at(deposits, p, 0) {
        None => Seq::empty(),
        Some(i) => {
            let d = deposits[i].1.deposit_type;
            let table = spec_drop_table(d);
            "\n\n-- Gisement --\n"@ + spec_deposit_label(d) + "\n"@ + "Drop:\n"@ + drop_lines(table, table.len() as int)
                + match miner_at(miners, p, 0) {
                Some(j) => "Mineur: stock "@ + spec_decimal(miners[j].1.storage.spec_total() as nat) + "/50"@,
                None => "[B] Poser un mineur"@,
            }
        },
    }
}

fn push_header(
    s: &mut String,
    grid_x: i32,
    grid_y: i32,
    stats: &PlayerStats,
    carried: u32,
    money: u64,
    miners: u32,
    bots: u32,
)
    ensures
        final(s)@ == spec_stats_header(grid_x as int, grid_y as int, *stats, carried as int, money, miners, bots),
{
    let gx = grid_x as i64;
    let gy = grid_y as i64;
    let ax: i64 = if gx < 0 { -gx } else { gx };
    let ay: i64 = if gy < 0 { -gy } else { gy };
    let dist = ax + ay;
    *s = String::from_str("-- Stats --\nPos: (");
    push_signed(s, gx);
    s.append(", ");
    push_signed(s, gy);
    s.append(")\nZone: ");
    s.append(zone_name(dist));
    s.append(" (dist ");
    push_decimal(s, dist as u64);
    s.append(")\nPuissance: ");
    push_decimal(s, stats.mining_power as u64);
    s.append("\nVitesse: ");
    push_decimal(s, stats.walk_speed as u64);
    s.append("\nSac: ");
    push_decimal(s, carried as u64);
    s.append("/");
    push_decimal(s, stats.inventory_capacity as u64);
    s.append("\nArgent: ");
    push_decimal(s, money);
    s.append(" c\nMineurs: ");
    push_decimal(s, miners as u64);
    s.append("\nBots: ");
    push_decimal(s, bots as u64);
}

fn push_conveyor_section(s: &mut String, conveyor: &ConveyorState)
    requires
        conveyor.current_path@.len() * 10 <= u64::MAX,
    ensures
        final(s)@ == old(s)@ + spec_conveyor_section(
            conveyor.tracing, conveyor.current_path@.len(), conveyor.build_error),
{
    if conveyor.tracing {
        let n = conveyor.current_path.len() as u64;
        s.append("\n\n>> MODE TAPIS <<\nTiles: ");
        push_decimal(s, n);
        s.append(" (cout: ");
        push_decimal(s, n * 10);
        s.append(" c)\n[T] Terminer");
        assert(s@ =~= old(s)@ + spec_conveyor_section(conveyor.tracing, conveyor.current_path@.len(), conveyor.build_error));
    } else {
        match conveyor.build_error {
            Some(e) => {
                s.append("\n\n!! ");
                s.append(e.message());
                s.append(" !!");
                assert(s@ =~= old(s)@ + spec_conveyor_section(conveyor.tracing, conveyor.current_path@.len(), conveyor.build_error));
            },
            None => {
                assert(s@ =~= old(s)@ + spec_conveyor_section(conveyor.tracing, conveyor.current_path@.len(), conveyor.build_error));
            },
        }
    }
}

fn find_revealed_deposit(deposits: &Vec<(GridPos, Deposit)>, p: GridPos) -> (r: Option<usize>)
    ensures
        match r {
            Some(i) => revealed_deposit_at(deposits@, p, 0) == Some(i as int) && i < deposits@.len(),
            None => revealed_deposit_at(deposits@, p, 0) is None,
        },
{
    let mut i: usize = 0;
    while i < deposits.len()
        invariant
            i <= deposits@.len(),
            revealed_deposit_at(deposits@, p, 0) == revealed_deposit_at(deposits@, p, i as int),
        decreases deposits@.len() - i,
    {
        if deposits[i].0 == p && deposits[i].1.revealed {
            return Some(i);
        }
        i = i + 1;
    }
    None
}

fn find_miner(miners: &Vec<(GridPos, AutoMiner)>, p: GridPos) -> (r: Option<usize>)
    ensures
        match r {
            Some(j) => miner_at(miners@, p, 0) == Some(j as int) && j < miners@.len(),
            None => miner_at(miners@, p, 0) is None,
        },
{
    let mut j: usize = 0;
    while j < miners.len()
        invariant
            j <= miners@.len(),
            miner_at(miners@, p, 0) == miner_at(miners@, p, j as int),
        decreases miners@.len() - j,
    {
        if miners[j].0 == p {
            return Some(j);
        }
        j = j + 1;
    }
    None
}

fn push_deposit_section(
    s: &mut String,
    deposits: &Vec<(GridPos, Deposit)>,
    miners: &Vec<(GridPos, AutoMiner)>,
    p: GridPos,
)
    ensures
        final(s)@ == old(s)@ + spec_deposit_section(deposits@, miners@, p),
{
    let i = match find_revealed_deposit(deposits, p) {
        Some(i) => i,
        None => {
            assert(s@ =~= old(s)@ + spec_deposit_section(deposits@, miners@, p));
            return;
        },
    };
    let d = deposits[i].1.deposit_type;
    s.append("\n\n-- Gisement --\n");
    s.append(d.label());
    s.append("\n");
    s.append("Drop:\n");
    let table = d.drop_table();
    let ghost before_lines = s@;
    let mut k: usize = 0;
    while k < table.len()
        invariant
            k <= table@.len(),
            table@ == spec_drop_table(d),
            s@ == before_lines + drop_lines(table@, k as int),
        decreases table@.len() - k,
    {
        let (t, threshold) = table[k];
        let prev: u32 = if k == 0 { 0 } else { table[k - 1].1 };
        proof {
            assert(threshold >= prev) by {
                crate::world::deposits::lemma_drop_tables_wf(d);
                if k > 0 {
                    assert(table@[k - 1].1 < table@[k as int].1);
                }
            }
        }
        s.append("  ");
        s.append(t.label());
        s.append(" : ");
        push_decimal(s, (threshold - prev) as u64);
        s.append("%\n");
        assert(s@ =~= before_lines + drop_lines(table@, k as int + 1));
        k = k + 1;
    }
    match find_miner(miners, p) {
        Some(j) => {
            s.append("Mineur: stock ");
            push_decimal(s, miners[j].1.storage.total());
            s.append("/50");
        },
        None => {
            s.append("[B] Poser un mineur");
        },
    }
    assert(s@ =~= old(s)@ + spec_deposit_section(deposits@, miners@, p));
}

/// The stats panel: position, zone, stats, bag, coins and machines in
/// stock; then the tracing state; then the deposit the player stands on.
pub fn stats_panel(
    grid_x: i32,
    grid_y: i32,
    stats: &PlayerStats,
    inventory: &Inventory,
    money: u64,
    miners_in_stock: u32,
    bots_in_stock: u32,
    conveyor: &ConveyorState,
    deposits: &Vec<(GridPos, Deposit)>,
    miners: &Vec<(GridPos, AutoMiner)>,
) -> (s: String)
    requires
        inventory.items.spec_total() <= u32::MAX,
        conveyor.current_path@.len() * 10 <= u64::MAX,
    ensures
        s@ == spec_stats_header(grid_x as int, grid_y as int, *stats, inventory.items.spec_total(), money,
            miners_in_stock, bots_in_stock)
            + spec_conveyor_section(conveyor.tracing, conveyor.current_path@.len(), conveyor.build_error)
            + spec_deposit_section(deposits@, miners@, GridPos { x: grid_x, y: grid_y }),
{
    let mut s = String::new();
    let carried = inventory.total_count();
    push_header(&mut s, grid_x, grid_y, stats, carried, money, miners_in_stock, bots_in_stock);
    push_conveyor_section(&mut s, conveyor);
    push_deposit_section(&mut s, deposits, miners, GridPos { x: grid_x, y: grid_y });
    s
}

} // verus!
