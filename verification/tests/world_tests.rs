use pixel_miner::chance::{pick_from_table, roll_percent};
use pixel_miner::world::deposits::{
    clusters_from_draws, pick_deposit_type, spawn_deposits, ClusterDraw, Deposit, DepositType, DEPOSIT_COUNT,
};
use pixel_miner::world::map::{pick_tile_type, reveals_on_mine, spawn_map, zone_table};
use pixel_miner::world::tiles::{GridPos, TileType, BASE_RADIUS, GRID_SIZE, TILE_KINDS};

fn manhattan(a: GridPos, b: GridPos) -> i32 {
    (a.x - b.x).abs() + (a.y - b.y).abs()
}

#[test]
fn tile_values_hardness_and_labels() {
    let expected = [
        (TileType::Dirt, 1, 1, "Terre"),
        (TileType::Stone, 2, 2, "Pierre"),
        (TileType::Coal, 2, 5, "Charbon"),
        (TileType::Iron, 3, 10, "Fer"),
        (TileType::Copper, 3, 12, "Cuivre"),
        (TileType::Silver, 4, 25, "Argent"),
        (TileType::Gold, 5, 50, "Or"),
        (TileType::Diamond, 7, 150, "Diamant"),
        (TileType::Ruby, 7, 200, "Rubis"),
        (TileType::Mythril, 9, 500, "Mythril"),
        (TileType::Obsidian, 10, 750, "Obsidienne"),
    ];
    for (t, hp, value, label) in expected {
        assert_eq!(t.hp(), hp);
        assert_eq!(t.value(), value);
        assert_eq!(t.label(), label);
    }
}

#[test]
fn all_ordered_lists_each_kind_at_its_index() {
    let all = TileType::all_ordered();
    assert_eq!(all.len(), TILE_KINDS);
    assert_eq!(all[0], TileType::Dirt);
    assert_eq!(all[10], TileType::Obsidian);
    for (i, t) in all.iter().enumerate() {
        assert_eq!(t.index(), i);
        assert_eq!(TileType::from_index(i), *t);
    }
}

#[test]
fn distance_and_neighbors() {
    assert_eq!(GridPos { x: -3, y: 4 }.distance_from_center(), 7);
    assert_eq!(GridPos { x: 0, y: 0 }.distance_from_center(), 0);
    let n = GridPos { x: 2, y: -1 }.neighbors();
    assert_eq!(n, [
        GridPos { x: 2, y: 0 },
        GridPos { x: 2, y: -2 },
        GridPos { x: 1, y: -1 },
        GridPos { x: 3, y: -1 },
    ]);
}

fn frequencies(distance: i32) -> Vec<(TileType, u32)> {
    let mut out: Vec<(TileType, u32)> = Vec::new();
    for roll in 0..100u32 {
        let t = pick_tile_type(distance, roll);
        match out.iter_mut().find(|(k, _)| *k == t) {
            Some(entry) => entry.1 += 1,
            None => out.push((t, 1)),
        }
    }
    out
}

#[test]
fn zone_spawn_percentages() {
    assert_eq!(frequencies(3), vec![
        (TileType::Dirt, 70), (TileType::Stone, 20), (TileType::Coal, 8), (TileType::Iron, 2),
    ]);
    assert_eq!(frequencies(20), frequencies(3));
    assert_eq!(frequencies(21), vec![
        (TileType::Dirt, 30), (TileType::Stone, 40), (TileType::Coal, 5), (TileType::Iron, 15),
        (TileType::Copper, 10),
    ]);
    assert_eq!(frequencies(46), vec![
        (TileType::Stone, 50), (TileType::Iron, 20), (TileType::Copper, 5), (TileType::Silver, 15),
        (TileType::Gold, 10),
    ]);
    assert_eq!(frequencies(110), vec![
        (TileType::Stone, 40), (TileType::Silver, 20), (TileType::Gold, 15), (TileType::Diamond, 15),
        (TileType::Ruby, 10),
    ]);
    assert_eq!(frequencies(111), vec![
        (TileType::Stone, 30), (TileType::Obsidian, 25), (TileType::Mythril, 20), (TileType::Diamond, 15),
        (TileType::Ruby, 10),
    ]);
}

#[test]
fn pick_tile_type_thresholds() {
    assert_eq!(pick_tile_type(5, 0), TileType::Dirt);
    assert_eq!(pick_tile_type(5, 69), TileType::Dirt);
    assert_eq!(pick_tile_type(5, 70), TileType::Stone);
    assert_eq!(pick_tile_type(5, 97), TileType::Coal);
    assert_eq!(pick_tile_type(5, 98), TileType::Iron);
    assert_eq!(pick_tile_type(60, 99), TileType::Gold);
    assert_eq!(zone_table(200).len(), 5);
    assert_eq!(pick_from_table(&zone_table(90), 89), TileType::Diamond);
}

#[test]
fn drop_table_percentages() {
    let cases = [
        (DepositType::Ferrous, vec![(TileType::Iron, 70), (TileType::Coal, 20), (TileType::Copper, 8), (TileType::Silver, 2)]),
        (DepositType::Precious, vec![(TileType::Silver, 50), (TileType::Gold, 30), (TileType::Copper, 15), (TileType::Diamond, 5)]),
        (DepositType::Gems, vec![(TileType::Diamond, 40), (TileType::Ruby, 35), (TileType::Gold, 20), (TileType::Mythril, 5)]),
        (DepositType::Mythic, vec![(TileType::Mythril, 45), (TileType::Obsidian, 30), (TileType::Diamond, 15), (TileType::Ruby, 10)]),
    ];
    for (d, expected) in cases {
        for (t, pct) in expected {
            let n = (0..100u32).filter(|r| d.roll_drop(*r) == t).count() as u32;
            assert_eq!(n, pct, "{:?} {:?}", d, t);
        }
    }
}

#[test]
fn deposit_labels() {
    assert_eq!(DepositType::Ferrous.label(), "Gisement ferreux");
    assert_eq!(DepositType::Precious.label(), "Gisement précieux");
    assert_eq!(DepositType::Gems.label(), "Gisement de gemmes");
    assert_eq!(DepositType::Mythic.label(), "Gisement mythique");
}

#[test]
fn deposit_kind_by_zone() {
    assert_eq!(pick_deposit_type(2, 0), None);
    assert_eq!(pick_deposit_type(-5, 0), None);
    assert_eq!(pick_deposit_type(3, 99), Some(DepositType::Ferrous));
    assert_eq!(pick_deposit_type(30, 69), Some(DepositType::Ferrous));
    assert_eq!(pick_deposit_type(30, 70), Some(DepositType::Precious));
    assert_eq!(pick_deposit_type(50, 39), Some(DepositType::Precious));
    assert_eq!(pick_deposit_type(50, 40), Some(DepositType::Gems));
    assert_eq!(pick_deposit_type(100, 39), Some(DepositType::Gems));
    assert_eq!(pick_deposit_type(100, 40), Some(DepositType::Mythic));
    assert_eq!(pick_deposit_type(111, 0), Some(DepositType::Mythic));
}

#[test]
fn deposit_reveals_only_when_its_own_tile_is_mined() {
    let at = GridPos { x: 4, y: 4 };
    let mut d = Deposit { deposit_type: DepositType::Gems, revealed: false };
    d.reveal_on_mine(at, GridPos { x: 4, y: 5 });
    assert!(!d.revealed);
    d.reveal_on_mine(at, at);
    assert!(d.revealed);
    assert_eq!(d.deposit_type, DepositType::Gems);
}

#[test]
fn neighbors_are_revealed_on_mine() {
    let mined = GridPos { x: 0, y: 5 };
    assert!(reveals_on_mine(mined, GridPos { x: 0, y: 6 }));
    assert!(reveals_on_mine(mined, GridPos { x: 0, y: 4 }));
    assert!(reveals_on_mine(mined, GridPos { x: -1, y: 5 }));
    assert!(reveals_on_mine(mined, GridPos { x: 1, y: 5 }));
    assert!(!reveals_on_mine(mined, mined));
    assert!(!reveals_on_mine(mined, GridPos { x: 1, y: 6 }));
}

#[test]
fn map_covers_every_terrain_cell_once() {
    let cells = spawn_map();
    let half = GRID_SIZE / 2;
    // 150 x 150 cells, minus the 13 cells of the base (distance 0 to 2).
    assert_eq!(cells.len(), 22487);
    let mut seen = std::collections::HashSet::new();
    for c in &cells {
        assert!(c.pos.x >= -half && c.pos.x < half && c.pos.y >= -half && c.pos.y < half);
        let d = c.pos.distance_from_center();
        assert!(d > BASE_RADIUS);
        assert_eq!(c.revealed, d <= BASE_RADIUS + 1);
        assert!((0..100u32).any(|r| pick_tile_type(d, r) == c.tile_type));
        assert!(seen.insert(c.pos));
    }
    assert_eq!(cells.iter().filter(|c| c.revealed).count(), 12);
    assert_eq!(cells[0].pos, GridPos { x: -75, y: -75 });
    assert_eq!(cells[cells.len() - 1].pos, GridPos { x: 74, y: 74 });
}

fn in_square(p: GridPos) -> bool {
    -GRID_SIZE / 2 <= p.x && p.x < GRID_SIZE / 2 && -GRID_SIZE / 2 <= p.y && p.y < GRID_SIZE / 2
}

#[test]
fn deposit_clusters_are_grown_from_free_cells() {
    for _ in 0..20 {
        let clusters = spawn_deposits();
        assert!(clusters.len() <= DEPOSIT_COUNT);
        let mut earlier: Vec<GridPos> = Vec::new();
        for c in &clusters {
            assert!(c.tiles.len() >= 2 && c.tiles.len() <= 4);
            let center = c.tiles[0];
            assert!(in_square(center));
            let d = center.distance_from_center();
            assert!(d > BASE_RADIUS);
            assert!((0..100u32).any(|r| pick_deposit_type(d, r) == Some(c.deposit_type)));
            for j in 1..c.tiles.len() {
                let p = c.tiles[j];
                assert!(p.distance_from_center() > BASE_RADIUS && in_square(p));
                assert!(c.tiles[..j].iter().any(|q| manhattan(*q, p) == 1));
                assert!(!c.tiles[..j].contains(&p));
                assert!(!earlier.contains(&p));
            }
            earlier.extend(c.tiles.iter().copied());
        }
    }
}

fn draw(x: u32, y: u32, roll: u32, extra: u32, picks: [u32; 16]) -> ClusterDraw {
    ClusterDraw { x, y, roll, extra, picks }
}

#[test]
fn clusters_follow_their_draws() {
    let draws = vec![
        // Center (10, 0): four tiles, always taking the first candidate.
        draw(85, 75, 99, 2, [0; 16]),
        // Center (0, 1) lies in the base: no cluster.
        draw(75, 76, 0, 2, [0; 16]),
        // Center (10, 2), aiming for two tiles; choice 5 of 4 candidates is the second.
        draw(85, 77, 0, 0, [5; 16]),
        // Center (-75, -75), a corner far from the base, still grows.
        draw(0, 0, 0, 0, [0; 16]),
    ];
    let clusters = clusters_from_draws(&draws);
    assert_eq!(clusters.len(), 3);
    assert_eq!(clusters[0].deposit_type, DepositType::Ferrous);
    assert_eq!(
        clusters[0].tiles,
        vec![GridPos { x: 10, y: 0 }, GridPos { x: 10, y: 1 }, GridPos { x: 11, y: 0 }, GridPos { x: 11, y: 1 }]
    );
    // Candidates of (10, 2): (10, 3), (10, 1), (9, 2), (11, 2). Choice 5 % 4 = 1 is
    // (10, 1), already a deposit: dropped, (11, 2) takes its place. Then
    // choice 5 % 3 = 2 is (9, 2).
    assert_eq!(clusters[1].deposit_type, DepositType::Ferrous);
    assert_eq!(clusters[1].tiles, vec![GridPos { x: 10, y: 2 }, GridPos { x: 9, y: 2 }]);
    assert_eq!(clusters[2].deposit_type, DepositType::Mythic);
    assert_eq!(clusters[2].tiles, vec![GridPos { x: -75, y: -75 }, GridPos { x: -75, y: -74 }]);
}

#[test]
fn a_cluster_that_cannot_grow_is_dropped() {
    // Three clusters take (3, 1), (3, -1) and (4, 0); (2, 0) is in the base.
    // A center at (3, 0) then has no free neighbor and yields nothing.
    let draws = vec![
        draw(78, 76, 0, 0, [0; 16]),
        draw(78, 74, 0, 0, [1; 16]),
        draw(79, 75, 0, 0, [0; 16]),
        draw(78, 75, 0, 2, [0; 16]),
    ];
    let clusters = clusters_from_draws(&draws);
    assert_eq!(clusters.len(), 3);
    assert_eq!(clusters[0].tiles, vec![GridPos { x: 3, y: 1 }, GridPos { x: 3, y: 2 }]);
    assert_eq!(clusters[1].tiles, vec![GridPos { x: 3, y: -1 }, GridPos { x: 3, y: -2 }]);
    assert_eq!(clusters[2].tiles, vec![GridPos { x: 4, y: 0 }, GridPos { x: 4, y: 1 }]);
}

#[test]
fn rolls_stay_in_range() {
    let mut seen_high = false;
    for _ in 0..2000 {
        let r = roll_percent();
        assert!(r < 100);
        if r >= 50 {
            seen_high = true;
        }
    }
    assert!(seen_high);
}
