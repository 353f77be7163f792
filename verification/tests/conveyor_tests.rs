use pixel_miner::economy::resources::{Inventory, ItemCounts, Wallet};
use pixel_miner::machines::auto_miner::AutoMiner;
use pixel_miner::machines::conveyor::{
    is_near_sell_zone, path_connects_to_miner, Belt, BuildError, ConveyorBelts, ConveyorState, MergeOutcome,
    ToggleOutcome, TraceOutcome, CONVEYOR_COST,
};
use pixel_miner::world::deposits::DepositType;
use pixel_miner::world::tiles::{GridPos, TileType};

fn g(x: i32, y: i32) -> GridPos {
    GridPos { x, y }
}

fn belt(id: u32, path: Vec<GridPos>, sells_at_end: bool, feeds_into: Option<(u32, usize)>) -> Belt {
    let n = path.len();
    Belt { id, path, slots: vec![None; n], end_storage: ItemCounts::new(), sells_at_end, feeds_into }
}

/// Traces a belt along `cells`, starting with T on the first and ending with T.
fn trace(
    state: &mut ConveyorState,
    belts: &mut ConveyorBelts,
    wallet: &mut Wallet,
    cells: &[GridPos],
    miners: &Vec<GridPos>,
) -> ToggleOutcome {
    assert_eq!(state.toggle_tracing(belts, wallet, true, false, cells[0], miners), ToggleOutcome::Started);
    for c in &cells[1..] {
        state.trace_path(belts, wallet, *c);
    }
    state.toggle_tracing(belts, wallet, true, false, cells[cells.len() - 1], miners)
}

#[test]
fn sell_zone_and_miner_contact() {
    assert!(is_near_sell_zone(&g(0, -2)));
    assert!(is_near_sell_zone(&g(1, 0)));
    assert!(is_near_sell_zone(&g(0, 1)));
    assert!(!is_near_sell_zone(&g(0, 2)));
    assert!(!is_near_sell_zone(&g(2, -4)));
    let path = vec![g(5, 5), g(6, 5)];
    assert!(path_connects_to_miner(&path, &vec![g(7, 5)]));
    assert!(path_connects_to_miner(&path, &vec![g(6, 5)]));
    assert!(!path_connects_to_miner(&path, &vec![g(7, 6)]));
    assert!(!path_connects_to_miner(&path, &vec![]));
}

#[test]
fn tracing_builds_a_belt_and_charges_each_new_tile() {
    let mut state = ConveyorState::default();
    let mut belts = ConveyorBelts::default();
    let mut wallet = Wallet { money: 100 };
    let miners = vec![g(5, 1)];
    let cells = [g(5, 0), g(4, 0), g(3, 0), g(2, 0), g(1, 0)];
    let out = trace(&mut state, &mut belts, &mut wallet, &cells, &miners);
    assert_eq!(out, ToggleOutcome::Built(0));
    // Each of the five belt tiles cost 10 coins.
    assert_eq!(wallet.money, 100 - 5 * CONVEYOR_COST);
    assert_eq!(belts.belts.len(), 1);
    let b = &belts.belts[0];
    assert_eq!(b.path, cells.to_vec());
    assert_eq!(b.slots, vec![None; 5]);
    assert!(b.sells_at_end);
    assert_eq!(b.feeds_into, None);
    assert!(!state.tracing);
    assert!(state.current_path.is_empty());
    assert_eq!(state.build_error, None);
    assert_eq!(belts.next_id, 1);
}

#[test]
fn tracing_ignores_standing_still_and_revisits() {
    let mut state = ConveyorState::default();
    let belts = ConveyorBelts::default();
    let mut wallet = Wallet { money: 100 };
    let mut b2 = ConveyorBelts::default();
    state.toggle_tracing(&mut b2, &mut wallet, true, false, g(0, 5), &vec![]);
    assert_eq!(state.trace_path(&belts, &mut wallet, g(0, 5)), TraceOutcome::Idle);
    assert_eq!(state.trace_path(&belts, &mut wallet, g(0, 6)), TraceOutcome::Placed);
    assert_eq!(state.trace_path(&belts, &mut wallet, g(0, 5)), TraceOutcome::Idle);
    assert_eq!(state.current_path, vec![g(0, 5), g(0, 6)]);
    assert_eq!(wallet.money, 80);
    assert_eq!(state.last_grid, Some(g(0, 6)));
}

#[test]
fn short_trace_is_refunded() {
    let mut state = ConveyorState::default();
    let mut belts = ConveyorBelts::default();
    let mut wallet = Wallet { money: 100 };
    let out = trace(&mut state, &mut belts, &mut wallet, &[g(5, 0)], &vec![g(5, 1)]);
    assert_eq!(out, ToggleOutcome::Cancelled);
    assert_eq!(state.build_error, Some(BuildError::TooShort));
    // The refund gives back exactly what the path cost.
    assert_eq!(wallet.money, 100);
    assert!(belts.belts.is_empty());
}

#[test]
fn trace_without_miner_is_refunded() {
    let mut state = ConveyorState::default();
    let mut belts = ConveyorBelts::default();
    let mut wallet = Wallet { money: 100 };
    let out = trace(&mut state, &mut belts, &mut wallet, &[g(5, 0), g(6, 0), g(7, 0)], &vec![g(20, 20)]);
    assert_eq!(out, ToggleOutcome::Cancelled);
    assert_eq!(state.build_error, Some(BuildError::NoMinerAdjacent));
    assert_eq!(wallet.money, 100);
    assert!(belts.belts.is_empty());
}

#[test]
fn tracing_stops_when_money_runs_out() {
    let mut state = ConveyorState::default();
    let mut belts = ConveyorBelts::default();
    let mut wallet = Wallet { money: 25 };
    assert_eq!(state.toggle_tracing(&mut belts, &mut wallet, true, false, g(0, 9), &vec![]), ToggleOutcome::Started);
    assert_eq!(state.trace_path(&belts, &mut wallet, g(0, 10)), TraceOutcome::Placed);
    assert_eq!(state.trace_path(&belts, &mut wallet, g(0, 11)), TraceOutcome::OutOfMoney);
    assert!(!state.tracing);
    assert_eq!(state.build_error, Some(BuildError::OutOfMoney));
    assert_eq!(wallet.money, 5);
    assert_eq!(state.current_path.len(), 2);
}

#[test]
fn tracing_cannot_start_without_the_first_tile_price() {
    let mut state = ConveyorState::default();
    let mut belts = ConveyorBelts::default();
    let mut wallet = Wallet { money: 9 };
    assert_eq!(state.toggle_tracing(&mut belts, &mut wallet, true, false, g(0, 9), &vec![]), ToggleOutcome::OutOfMoney);
    assert!(!state.tracing);
    assert_eq!(state.build_error, Some(BuildError::OutOfMoney));
    assert_eq!(wallet.money, 9);
}

#[test]
fn cancelled_trace_gives_back_what_it_cost() {
    let mut state = ConveyorState::default();
    let mut belts = ConveyorBelts::default();
    let mut wallet = Wallet { money: 100 };
    assert_eq!(state.toggle_tracing(&mut belts, &mut wallet, true, false, g(0, 0), &vec![]), ToggleOutcome::Started);
    assert_eq!(wallet.money, 90);
    assert_eq!(state.trace_path(&belts, &mut wallet, g(1, 0)), TraceOutcome::Placed);
    assert_eq!(wallet.money, 80);
    assert_eq!(state.toggle_tracing(&mut belts, &mut wallet, true, false, g(1, 0), &vec![]), ToggleOutcome::Cancelled);
    assert_eq!(wallet.money, 100);
    assert!(belts.belts.is_empty());
    assert!(!state.tracing);
    assert!(state.current_path.is_empty());
    assert_eq!(state.build_error.map(|e| e.message()), Some("Aucun mineur adjacent au tapis !"));
}

#[test]
fn toggle_is_ignored_in_the_shop() {
    let mut state = ConveyorState::default();
    let mut belts = ConveyorBelts::default();
    let mut wallet = Wallet { money: 0 };
    assert_eq!(state.toggle_tracing(&mut belts, &mut wallet, true, true, g(0, 0), &vec![]), ToggleOutcome::Ignored);
    assert_eq!(state.toggle_tracing(&mut belts, &mut wallet, false, false, g(0, 0), &vec![]), ToggleOutcome::Ignored);
    assert!(!state.tracing);
}

#[test]
fn walking_onto_a_belt_merges_into_it() {
    let mut state = ConveyorState::default();
    let mut belts = ConveyorBelts::default();
    let mut wallet = Wallet { money: 1000 };
    let miners = vec![g(10, 1), g(20, 4)];
    trace(&mut state, &mut belts, &mut wallet, &[g(10, 0), g(11, 0), g(12, 0), g(13, 0)], &miners);
    let before = wallet.money;
    state.toggle_tracing(&mut belts, &mut wallet, true, false, g(12, 3), &miners);
    state.trace_path(&belts, &mut wallet, g(12, 2));
    state.trace_path(&belts, &mut wallet, g(12, 1));
    // (12, 0) is tile 2 of belt 0: the merge is free and stops tracing.
    assert_eq!(state.trace_path(&belts, &mut wallet, g(12, 0)), TraceOutcome::Merged);
    assert_eq!(state.merge_target, Some((0, 2)));
    assert!(!state.tracing);
    assert_eq!(wallet.money, before - 30);
    // No miner touches the new path: dropped, refunding exactly what it cost.
    assert_eq!(state.finalize_merge(&mut belts, &mut wallet, &miners), MergeOutcome::Cancelled);
    assert_eq!(state.build_error, Some(BuildError::NoMinerAdjacent));
    assert_eq!(wallet.money, before);
    assert_eq!(state.finalize_merge(&mut belts, &mut wallet, &miners), MergeOutcome::Idle);

    let miners = vec![g(10, 1), g(13, 3)];
    state.toggle_tracing(&mut belts, &mut wallet, true, false, g(12, 3), &miners);
    state.trace_path(&belts, &mut wallet, g(12, 2));
    state.trace_path(&belts, &mut wallet, g(12, 1));
    assert_eq!(state.trace_path(&belts, &mut wallet, g(12, 0)), TraceOutcome::Merged);
    let before = wallet.money;
    assert_eq!(state.finalize_merge(&mut belts, &mut wallet, &miners), MergeOutcome::Built(1));
    assert_eq!(wallet.money, before);
    let b = &belts.belts[1];
    assert_eq!(b.path, vec![g(12, 3), g(12, 2), g(12, 1)]);
    assert_eq!(b.slots.len(), 3);
    assert_eq!(b.feeds_into, Some((0, 2)));
    assert!(!b.sells_at_end);
    assert_eq!(belts.tile_at(g(12, 2)), Some((1, 1)));
    assert_eq!(belts.tile_at(g(13, 0)), Some((0, 3)));
    assert_eq!(belts.tile_at(g(50, 50)), None);
}

#[test]
fn transport_shifts_every_slot_toward_the_end() {
    let mut belts = ConveyorBelts { belts: vec![belt(0, vec![g(0, 9), g(0, 8), g(0, 7)], false, None)], next_id: 1 };
    belts.belts[0].slots = vec![Some(TileType::Iron), None, Some(TileType::Gold)];
    belts.conveyor_transport(&vec![true]);
    assert_eq!(belts.belts[0].slots, vec![None, Some(TileType::Iron), None]);
    assert_eq!(belts.belts[0].end_storage.get(TileType::Gold), 1);
    belts.conveyor_transport(&vec![false]);
    assert_eq!(belts.belts[0].slots, vec![None, Some(TileType::Iron), None]);
    belts.conveyor_transport(&vec![true]);
    belts.conveyor_transport(&vec![true]);
    assert_eq!(belts.belts[0].slots, vec![None, None, None]);
    assert_eq!(belts.belts[0].end_storage.get(TileType::Iron), 1);
    assert_eq!(belts.belts[0].end_storage.total(), 2);
}

#[test]
fn belts_pull_from_a_miner_at_their_start() {
    let mut belts = ConveyorBelts {
        belts: vec![
            belt(0, vec![g(1, 0), g(2, 0)], false, None),
            belt(1, vec![g(0, 1), g(0, 2)], false, None),
            belt(2, vec![g(9, 9), g(9, 8)], false, None),
        ],
        next_id: 3,
    };
    let mut m = AutoMiner::new(DepositType::Ferrous);
    m.storage.add(TileType::Silver, 1);
    m.storage.add(TileType::Coal, 1);
    let mut miners = vec![(g(5, 5), AutoMiner::new(DepositType::Gems)), (g(0, 0), m)];
    belts.conveyor_pull(&mut miners);
    assert_eq!(belts.belts[0].slots[0], Some(TileType::Coal));
    assert_eq!(belts.belts[1].slots[0], Some(TileType::Silver));
    assert_eq!(belts.belts[2].slots[0], None);
    assert!(miners[1].1.storage.is_empty());
    // A full first slot takes nothing.
    miners[1].1.storage.add(TileType::Iron, 2);
    belts.conveyor_pull(&mut miners);
    assert_eq!(miners[1].1.storage.get(TileType::Iron), 2);
}

#[test]
fn selling_belts_deliver_their_stock() {
    let mut belts = ConveyorBelts {
        belts: vec![belt(0, vec![g(0, 0)], true, None), belt(1, vec![g(9, 9)], false, None)],
        next_id: 2,
    };
    belts.belts[0].end_storage.add(TileType::Ruby, 2);
    belts.belts[1].end_storage.add(TileType::Ruby, 3);
    let mut wallet = Wallet { money: 1 };
    belts.conveyor_deliver(&mut wallet);
    assert_eq!(wallet.money, 401);
    assert!(belts.belts[0].end_storage.is_empty());
    assert_eq!(belts.belts[1].end_storage.get(TileType::Ruby), 3);
}

#[test]
fn collecting_from_belt_ends_within_two_cells() {
    let mut belts = ConveyorBelts {
        belts: vec![
            belt(0, vec![g(0, 5), g(0, 6)], false, None),
            belt(1, vec![g(0, 9), g(1, 6)], false, None),
            belt(2, vec![g(9, 9), g(5, 5)], false, None),
            belt(3, vec![g(0, 3), g(0, 7)], true, None),
        ],
        next_id: 4,
    };
    for b in belts.belts.iter_mut() {
        b.end_storage.add(TileType::Stone, 4);
    }
    let mut inv = Inventory::default();
    belts.collect_conveyor_end(&mut inv, 6, false, false, g(0, 7));
    assert_eq!(inv.total_count(), 0);
    belts.collect_conveyor_end(&mut inv, 6, true, false, g(0, 7));
    assert_eq!(inv.total_count(), 6);
    assert_eq!(belts.belts[0].end_storage.total(), 0);
    assert_eq!(belts.belts[1].end_storage.total(), 2);
    assert_eq!(belts.belts[2].end_storage.total(), 4);
    assert_eq!(belts.belts[3].end_storage.total(), 4);
}

#[test]
fn merged_belts_hand_over_into_the_target_tile() {
    let mut belts = ConveyorBelts {
        belts: vec![
            belt(0, vec![g(0, 0), g(1, 0), g(2, 0)], false, None),
            belt(1, vec![g(1, 3), g(1, 2), g(1, 1)], false, Some((0, 1))),
        ],
        next_id: 2,
    };
    belts.belts[1].end_storage.add(TileType::Gold, 1);
    belts.belts[1].end_storage.add(TileType::Coal, 1);
    belts.transfer_between_belts();
    assert_eq!(belts.belts[0].slots, vec![None, Some(TileType::Coal), None]);
    assert_eq!(belts.belts[1].end_storage.get(TileType::Coal), 0);
    assert_eq!(belts.belts[1].end_storage.get(TileType::Gold), 1);
    // The target tile is busy: the unit waits in the end stock.
    belts.transfer_between_belts();
    assert_eq!(belts.belts[0].slots, vec![None, Some(TileType::Coal), None]);
    assert_eq!(belts.belts[1].end_storage.get(TileType::Gold), 1);
    // Once the tile is free, the unit moves on.
    belts.belts[0].slots[1] = None;
    belts.transfer_between_belts();
    assert_eq!(belts.belts[0].slots, vec![None, Some(TileType::Gold), None]);
    assert!(belts.belts[1].end_storage.is_empty());
}

#[test]
fn two_belts_pouring_into_one_tile_keep_every_unit() {
    let mut belts = ConveyorBelts {
        belts: vec![
            belt(0, vec![g(0, 0), g(1, 0), g(2, 0)], false, None),
            belt(1, vec![g(1, 3), g(1, 2), g(1, 1)], false, Some((0, 1))),
            belt(2, vec![g(1, -3), g(1, -2), g(1, -1)], false, Some((0, 1))),
            belt(3, vec![g(5, 5), g(5, 6)], false, Some((9, 0))),
        ],
        next_id: 10,
    };
    belts.belts[1].end_storage.add(TileType::Iron, 1);
    belts.belts[2].end_storage.add(TileType::Ruby, 2);
    belts.belts[3].end_storage.add(TileType::Stone, 1);
    belts.transfer_between_belts();
    // The first feeder fills the tile; the second keeps its stock.
    assert_eq!(belts.belts[0].slots, vec![None, Some(TileType::Iron), None]);
    assert!(belts.belts[1].end_storage.is_empty());
    assert_eq!(belts.belts[2].end_storage.get(TileType::Ruby), 2);
    // A belt pouring into a missing belt keeps its stock.
    assert_eq!(belts.belts[3].end_storage.get(TileType::Stone), 1);
    let riding: usize = belts.belts.iter().map(|b| b.slots.iter().filter(|x| x.is_some()).count()).sum();
    let waiting: u64 = belts.belts.iter().map(|b| b.end_storage.total()).sum();
    assert_eq!(riding as u64 + waiting, 4);
}

#[test]
fn slot_content_for_visuals() {
    let mut belts = ConveyorBelts { belts: vec![belt(7, vec![g(0, 0), g(0, 1)], false, None)], next_id: 8 };
    belts.belts[0].slots[1] = Some(TileType::Ruby);
    assert_eq!(belts.slot_content(7, 1), Some(Some(TileType::Ruby)));
    assert_eq!(belts.slot_content(7, 0), Some(None));
    assert_eq!(belts.slot_content(7, 2), None);
    assert_eq!(belts.slot_content(3, 0), None);
}

#[test]
fn build_error_messages() {
    assert_eq!(BuildError::TooShort.message(), "Tapis trop court (min 2 tiles)");
    assert_eq!(BuildError::NoMinerAdjacent.message(), "Aucun mineur adjacent au tapis !");
    assert_eq!(BuildError::OutOfMoney.message(), "Plus assez d'argent !");
}
