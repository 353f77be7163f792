use pixel_miner::economy::resources::{Inventory, ItemCounts};
use pixel_miner::machines::auto_miner::{
    handle_b_key, place_miner, AutoMiner, BKeyAction, MinerInventory, Nearby, MAX_MINER_STORAGE,
};
use pixel_miner::machines::scout_bot::{bot_plan, deploy_bot, nearest_hidden_deposit, BotInventory, BotPlan, ScoutBot};
use pixel_miner::nearest::first_nearest;
use pixel_miner::world::deposits::{Deposit, DepositType};
use pixel_miner::world::tiles::{GridPos, TileType};

fn near(in_reach: bool, distance_rank: u64) -> Nearby {
    Nearby { in_reach, distance_rank }
}

fn revealed(t: DepositType) -> Deposit {
    Deposit { deposit_type: t, revealed: true }
}

fn stocked(n: u32) -> AutoMiner {
    let mut m = AutoMiner::new(DepositType::Ferrous);
    m.storage.add(TileType::Iron, n);
    m
}

#[test]
fn nearest_prefers_the_first_of_equals() {
    assert_eq!(first_nearest(&vec![None, Some(5), Some(3), Some(3), None]), Some(2));
    assert_eq!(first_nearest(&vec![None, None]), None);
    assert_eq!(first_nearest(&vec![]), None);
}

#[test]
fn b_key_places_on_the_nearest_free_revealed_deposit() {
    let deposits = vec![
        (GridPos { x: 1, y: 0 }, Deposit { deposit_type: DepositType::Gems, revealed: false }, near(true, 1)),
        (GridPos { x: 2, y: 0 }, revealed(DepositType::Ferrous), near(true, 9)),
        (GridPos { x: 3, y: 0 }, revealed(DepositType::Mythic), near(true, 4)),
        (GridPos { x: 4, y: 0 }, revealed(DepositType::Precious), near(false, 2)),
        (GridPos { x: 5, y: 0 }, revealed(DepositType::Gems), near(true, 3)),
    ];
    let miners = vec![(GridPos { x: 5, y: 0 }, stocked(0), near(true, 3))];
    assert_eq!(handle_b_key(true, false, 1, &deposits, &miners), BKeyAction::Place(2));
    assert_eq!(handle_b_key(false, false, 1, &deposits, &miners), BKeyAction::Nothing);
    assert_eq!(handle_b_key(true, true, 1, &deposits, &miners), BKeyAction::Nothing);
}

#[test]
fn b_key_collects_when_nothing_can_be_placed() {
    let deposits = vec![(GridPos { x: 2, y: 0 }, revealed(DepositType::Ferrous), near(true, 1))];
    let miners = vec![
        (GridPos { x: 7, y: 0 }, stocked(0), near(true, 1)),
        (GridPos { x: 8, y: 0 }, stocked(4), near(true, 6)),
        (GridPos { x: 9, y: 0 }, stocked(4), near(true, 5)),
        (GridPos { x: 9, y: 9 }, stocked(4), near(false, 0)),
    ];
    assert_eq!(handle_b_key(true, false, 0, &deposits, &miners), BKeyAction::Collect(2));
    let none: Vec<(GridPos, AutoMiner, Nearby)> = vec![];
    assert_eq!(handle_b_key(true, false, 0, &deposits, &none), BKeyAction::Nothing);
}

#[test]
fn placing_takes_a_miner_from_stock() {
    let mut inv = MinerInventory { count: 2 };
    let m = place_miner(&mut inv, DepositType::Precious);
    assert_eq!(inv.count, 1);
    assert_eq!(m.deposit_type, DepositType::Precious);
    assert!(m.storage.is_empty());
}

#[test]
fn production_follows_the_drop_table_and_stops_when_full() {
    let mut m = AutoMiner::new(DepositType::Gems);
    m.produce(0);
    m.produce(40);
    m.produce(95);
    assert_eq!(m.storage.get(TileType::Diamond), 1);
    assert_eq!(m.storage.get(TileType::Ruby), 1);
    assert_eq!(m.storage.get(TileType::Mythril), 1);
    let mut full = AutoMiner::new(DepositType::Ferrous);
    full.storage.add(TileType::Coal, MAX_MINER_STORAGE);
    assert!(full.is_full());
    full.produce_random();
    assert_eq!(full.storage.total(), 50);
    let mut fresh = AutoMiner::new(DepositType::Mythic);
    for _ in 0..60 {
        fresh.produce_random();
    }
    assert_eq!(fresh.storage.total(), 50);
    assert_eq!(fresh.storage.get(TileType::Dirt), 0);
}

#[test]
fn collecting_from_a_miner() {
    let mut m = AutoMiner::new(DepositType::Ferrous);
    m.storage.add(TileType::Coal, 5);
    m.storage.add(TileType::Iron, 5);
    let mut inv = Inventory::default();
    m.collect_into(&mut inv, 7);
    assert_eq!(inv.items.get(TileType::Coal), 5);
    assert_eq!(inv.items.get(TileType::Iron), 2);
    assert_eq!(m.storage.get(TileType::Iron), 3);
    assert_eq!(m.storage.get(TileType::Coal), 0);
}

#[test]
fn bot_targets_the_nearest_hidden_deposit() {
    let hidden = |t| Deposit { deposit_type: t, revealed: false };
    let deposits = vec![
        (GridPos { x: 1, y: 1 }, revealed(DepositType::Gems)),
        (GridPos { x: -4, y: 0 }, hidden(DepositType::Ferrous)),
        (GridPos { x: 3, y: 1 }, hidden(DepositType::Mythic)),
        (GridPos { x: 0, y: 4 }, hidden(DepositType::Precious)),
    ];
    assert_eq!(nearest_hidden_deposit(GridPos { x: 0, y: 0 }, &deposits), Some(GridPos { x: -4, y: 0 }));
    let mut bots = BotInventory { count: 1 };
    let bot = deploy_bot(true, false, &mut bots, GridPos { x: 2, y: 0 }, &deposits, 7);
    assert_eq!(bots.count, 0);
    let bot = bot.unwrap();
    assert_eq!(bot.target, GridPos { x: 3, y: 1 });
    assert_eq!(bot.mining_power, 7);
    let again = deploy_bot(true, false, &mut bots, GridPos { x: 2, y: 0 }, &deposits, 7);
    assert!(again.is_none());
    let mut more = BotInventory { count: 3 };
    let only_revealed = vec![(GridPos { x: 1, y: 1 }, revealed(DepositType::Gems))];
    assert!(deploy_bot(true, false, &mut more, GridPos { x: 0, y: 0 }, &only_revealed, 7).is_none());
    assert_eq!(more.count, 3);
}

#[test]
fn bot_walks_to_its_target_in_manhattan_steps() {
    let target = GridPos { x: 3, y: -5 };
    let mut pos = GridPos { x: -2, y: 1 };
    let mut steps = 0;
    loop {
        match bot_plan(pos, target) {
            BotPlan::Arrived => break,
            BotPlan::Toward(next) => {
                let before = (pos.x - target.x).abs() + (pos.y - target.y).abs();
                let after = (next.x - target.x).abs() + (next.y - target.y).abs();
                assert_eq!(after, before - 1);
                pos = next;
                steps += 1;
            },
        }
    }
    assert_eq!(pos, target);
    assert_eq!(steps, 11);
    assert_eq!(bot_plan(GridPos { x: 0, y: 0 }, GridPos { x: 2, y: 2 }), BotPlan::Toward(GridPos { x: 1, y: 0 }));
    assert_eq!(bot_plan(GridPos { x: 0, y: 0 }, GridPos { x: 1, y: -2 }), BotPlan::Toward(GridPos { x: 0, y: -1 }));
    let _ = ScoutBot { target, mining_power: 1 };
}

#[test]
fn item_counts_can_be_built_directly() {
    let c = ItemCounts { counts: [1, 0, 0, 0, 0, 0, 0, 0, 0, 0, 2] };
    assert_eq!(c.get(TileType::Dirt), 1);
    assert_eq!(c.get(TileType::Obsidian), 2);
    assert_eq!(c.value(), 1 + 1500);
}
