use pixel_miner::economy::resources::{Inventory, ItemCounts, PlayerStats};
use pixel_miner::machines::auto_miner::AutoMiner;
use pixel_miner::machines::conveyor::{BuildError, ConveyorState};
use pixel_miner::text::{push_decimal, push_signed};
use pixel_miner::ui::hud::{inventory_text, money_text, stats_panel, zone_name};
use pixel_miner::world::deposits::{Deposit, DepositType};
use pixel_miner::world::tiles::{GridPos, TileType};

#[test]
fn decimal_writing() {
    let mut s = String::from("n=");
    push_decimal(&mut s, 0);
    s.push(',');
    push_decimal(&mut s, 1203);
    s.push(',');
    push_signed(&mut s, -45);
    s.push(',');
    push_decimal(&mut s, u64::MAX);
    assert_eq!(s, "n=0,1203,-45,18446744073709551615");
}

#[test]
fn zone_names() {
    assert_eq!(zone_name(0), "Base");
    assert_eq!(zone_name(2), "Base");
    assert_eq!(zone_name(3), "Zone 1");
    assert_eq!(zone_name(45), "Zone 2");
    assert_eq!(zone_name(46), "Zone 3");
    assert_eq!(zone_name(110), "Zone 4");
    assert_eq!(zone_name(111), "Zone 5");
}

#[test]
fn money_bar() {
    assert_eq!(money_text(1250), "1250 c");
}

#[test]
fn inventory_bar() {
    assert_eq!(inventory_text(&Inventory::default(), 50), "Inventaire (0/50) : vide");
    let mut items = ItemCounts::new();
    items.add(TileType::Iron, 3);
    items.add(TileType::Dirt, 5);
    assert_eq!(inventory_text(&Inventory { items }, 20), "Inventaire (8/20) : Terre x5   Fer x3");
}

#[test]
fn stats_panel_plain() {
    let mut items = ItemCounts::new();
    items.add(TileType::Coal, 2);
    let text = stats_panel(
        -3, 4, &PlayerStats::default(), &Inventory { items }, 75, 1, 2,
        &ConveyorState::default(), &vec![], &vec![],
    );
    assert_eq!(
        text,
        "-- Stats --\nPos: (-3, 4)\nZone: Zone 1 (dist 7)\nPuissance: 5\nVitesse: 250\nSac: 2/50\nArgent: 75 c\nMineurs: 1\nBots: 2"
    );
}

#[test]
fn stats_panel_tracing_and_errors() {
    let mut state = ConveyorState::default();
    state.tracing = true;
    state.current_path = vec![GridPos { x: 0, y: 0 }, GridPos { x: 1, y: 0 }, GridPos { x: 2, y: 0 }];
    let text = stats_panel(0, 0, &PlayerStats::default(), &Inventory::default(), 0, 0, 0, &state, &vec![], &vec![]);
    assert!(text.ends_with("Bots: 0\n\n>> MODE TAPIS <<\nTiles: 3 (cout: 30 c)\n[T] Terminer"));
    state.tracing = false;
    state.build_error = Some(BuildError::NoMinerAdjacent);
    let text = stats_panel(0, 0, &PlayerStats::default(), &Inventory::default(), 0, 0, 0, &state, &vec![], &vec![]);
    assert!(text.ends_with("Bots: 0\n\n!! Aucun mineur adjacent au tapis ! !!"));
}

#[test]
fn stats_panel_on_a_deposit() {
    let here = GridPos { x: 10, y: 0 };
    let deposits = vec![
        (here, Deposit { deposit_type: DepositType::Gems, revealed: false }),
        (here, Deposit { deposit_type: DepositType::Ferrous, revealed: true }),
    ];
    let text = stats_panel(10, 0, &PlayerStats::default(), &Inventory::default(), 0, 0, 0,
        &ConveyorState::default(), &deposits, &vec![]);
    assert!(text.ends_with(
        "Bots: 0\n\n-- Gisement --\nGisement ferreux\nDrop:\n  Fer : 70%\n  Charbon : 20%\n  Cuivre : 8%\n  Argent : 2%\n[B] Poser un mineur"
    ));
    let mut m = AutoMiner::new(DepositType::Ferrous);
    m.storage.add(TileType::Iron, 12);
    let miners = vec![(GridPos { x: 0, y: 9 }, AutoMiner::new(DepositType::Gems)), (here, m)];
    let text = stats_panel(10, 0, &PlayerStats::default(), &Inventory::default(), 0, 0, 0,
        &ConveyorState::default(), &deposits, &miners);
    assert!(text.ends_with("  Argent : 2%\nMineur: stock 12/50"));
    let elsewhere = stats_panel(11, 0, &PlayerStats::default(), &Inventory::default(), 0, 0, 0,
        &ConveyorState::default(), &deposits, &miners);
    assert!(elsewhere.ends_with("Bots: 0"));
}
