use pixel_miner::economy::resources::{Inventory, ItemCounts, PlayerStats, ShopOpen, Wallet};
use pixel_miner::economy::sell::sell_zone_system;
use pixel_miner::economy::shop::{
    build_shop_text, shop_buy, shop_toggle, tier, tier_count, Purse, ShopItem, ShopState, ShopToggle, Upgrade,
};
use pixel_miner::machines::auto_miner::MinerInventory;
use pixel_miner::machines::scout_bot::BotInventory;
use pixel_miner::world::tiles::TileType;

fn counts(pairs: &[(TileType, u32)]) -> ItemCounts {
    let mut c = ItemCounts::new();
    for (t, n) in pairs {
        c.add(*t, *n);
    }
    c
}

#[test]
fn defaults() {
    let s = PlayerStats::default();
    assert_eq!((s.mining_power, s.walk_speed, s.inventory_capacity), (5, 250, 50));
    assert_eq!(Wallet::default().money, 0);
    assert!(!ShopOpen::default().0);
    assert!(Inventory::default().items.is_empty());
    let st = ShopState::default();
    assert_eq!((st.pickaxe_tier, st.bag_tier, st.speed_tier), (0, 0, 0));
}

#[test]
fn item_counts_totals_and_value() {
    let c = counts(&[(TileType::Dirt, 3), (TileType::Gold, 2), (TileType::Obsidian, 1)]);
    assert_eq!(c.total(), 6);
    assert_eq!(c.value(), 3 + 100 + 750);
    assert_eq!(c.get(TileType::Gold), 2);
    assert_eq!(c.first_held(), Some(TileType::Dirt));
    let mut c2 = c;
    c2.remove(TileType::Dirt, 3);
    assert_eq!(c2.first_held(), Some(TileType::Gold));
    c2.clear();
    assert!(c2.is_empty());
    assert_eq!(c2.first_held(), None);
}

#[test]
fn mining_respects_bag_capacity() {
    let mut inv = Inventory::default();
    for _ in 0..12 {
        inv.add_mined(TileType::Stone, 10);
    }
    assert_eq!(inv.total_count(), 10);
    assert_eq!(inv.items.get(TileType::Stone), 10);
    inv.add_mined(TileType::Iron, 11);
    assert_eq!(inv.total_count(), 11);
    assert_eq!(inv.items.get(TileType::Iron), 1);
}

#[test]
fn take_from_fills_the_bag_in_display_order() {
    let mut inv = Inventory { items: counts(&[(TileType::Stone, 6)]) };
    let mut source = counts(&[(TileType::Ruby, 3), (TileType::Coal, 4), (TileType::Dirt, 2)]);
    inv.take_from(&mut source, 10);
    // room of 4: both dirt, then two of the coal; the ruby stays.
    assert_eq!(inv.total_count(), 10);
    assert_eq!(inv.items.get(TileType::Dirt), 2);
    assert_eq!(inv.items.get(TileType::Coal), 2);
    assert_eq!(inv.items.get(TileType::Ruby), 0);
    assert_eq!(source.get(TileType::Dirt), 0);
    assert_eq!(source.get(TileType::Coal), 2);
    assert_eq!(source.get(TileType::Ruby), 3);
}

#[test]
fn take_from_an_overfull_bag_moves_nothing() {
    let mut inv = Inventory { items: counts(&[(TileType::Stone, 30)]) };
    let mut source = counts(&[(TileType::Gold, 5)]);
    inv.take_from(&mut source, 20);
    assert_eq!(inv.total_count(), 30);
    assert_eq!(source.get(TileType::Gold), 5);
}

#[test]
fn selling_empties_the_bag_into_the_wallet() {
    let mut inv = Inventory { items: counts(&[(TileType::Iron, 3), (TileType::Diamond, 1)]) };
    let mut wallet = Wallet { money: 7 };
    sell_zone_system(false, &mut inv, &mut wallet);
    assert_eq!(wallet.money, 7);
    assert_eq!(inv.total_count(), 4);
    sell_zone_system(true, &mut inv, &mut wallet);
    assert_eq!(wallet.money, 7 + 30 + 150);
    assert!(inv.items.is_empty());
    sell_zone_system(true, &mut inv, &mut wallet);
    assert_eq!(wallet.money, 187);
}

#[test]
fn tiers_match_the_shop_table() {
    assert_eq!(tier_count(Upgrade::Pickaxe), 5);
    assert_eq!(tier_count(Upgrade::Bag), 5);
    assert_eq!(tier_count(Upgrade::Speed), 4);
    let p = tier(Upgrade::Pickaxe, 4);
    assert_eq!((p.name, p.value, p.cost), ("Pioche diamant", 12, 5000));
    let b = tier(Upgrade::Bag, 2);
    assert_eq!((b.name, b.value, b.cost), ("Sac a dos", 40, 500));
    let s = tier(Upgrade::Speed, 1);
    assert_eq!((s.name, s.value, s.cost), ("Rapide", 15, 300));
}

fn buy_all(pressed: [bool; 5], money: u64) -> (bool, Wallet, PlayerStats, ShopState, MinerInventory, BotInventory) {
    let mut wallet = Wallet { money };
    let mut stats = PlayerStats::default();
    let mut state = ShopState::default();
    let mut miners = MinerInventory::default();
    let mut bots = BotInventory::default();
    let bought = shop_buy(pressed, true, &mut wallet, &mut stats, &mut state, &mut miners, &mut bots);
    (bought, wallet, stats, state, miners, bots)
}

#[test]
fn buying_upgrades_sets_stats() {
    let (bought, wallet, stats, state, miners, bots) = buy_all([true, true, true, true, true], 1000);
    assert!(bought);
    assert_eq!(wallet.money, 1000 - 50 - 100 - 300 - 100 - 50);
    assert_eq!(stats.mining_power, 2);
    assert_eq!(stats.inventory_capacity, 20);
    assert_eq!(stats.walk_speed, 225);
    assert_eq!((state.pickaxe_tier, state.bag_tier, state.speed_tier), (1, 1, 1));
    assert_eq!((miners.count, bots.count), (1, 1));
}

#[test]
fn buying_stops_when_money_runs_out() {
    let (bought, wallet, stats, state, miners, bots) = buy_all([true, true, true, true, true], 170);
    assert!(bought);
    // pickaxe 50, bag 100, speed 300 refused, auto miner 100 refused, bot 50 refused (20 left).
    assert_eq!(wallet.money, 20);
    assert_eq!(stats.walk_speed, 250);
    assert_eq!((state.pickaxe_tier, state.bag_tier, state.speed_tier), (1, 1, 0));
    assert_eq!((miners.count, bots.count), (0, 0));
    let (bought, wallet, ..) = buy_all([false, false, false, false, true], 49);
    assert!(!bought);
    assert_eq!(wallet.money, 49);
}

#[test]
fn closed_shop_sells_nothing() {
    let mut wallet = Wallet { money: 10_000 };
    let mut stats = PlayerStats::default();
    let mut state = ShopState::default();
    let mut miners = MinerInventory::default();
    let mut bots = BotInventory::default();
    let bought = shop_buy([true; 5], false, &mut wallet, &mut stats, &mut state, &mut miners, &mut bots);
    assert!(!bought);
    assert_eq!(wallet.money, 10_000);
}

#[test]
fn upgrade_lines_stop_at_max() {
    let mut purse = Purse {
        money: 100_000,
        stats: PlayerStats::default(),
        state: ShopState::default(),
        miners: 0,
        bots: 0,
    };
    for _ in 0..6 {
        purse.buy(ShopItem::Pickaxe);
        purse.buy(ShopItem::Speed);
    }
    assert_eq!(purse.state.pickaxe_tier, 4);
    assert_eq!(purse.state.speed_tier, 3);
    assert_eq!(purse.stats.mining_power, 12);
    assert_eq!(purse.stats.walk_speed, 450);
    assert_eq!(purse.money, 100_000 - (50 + 200 + 1000 + 5000) - (300 + 1500 + 8000));
    assert!(!purse.buy(ShopItem::Pickaxe));
}

#[test]
fn shop_toggle_rules() {
    assert_eq!(shop_toggle(false, false, true, true), ShopToggle::Nothing);
    assert_eq!(shop_toggle(false, true, true, false), ShopToggle::Close);
    assert_eq!(shop_toggle(false, true, false, true), ShopToggle::Nothing);
    assert_eq!(shop_toggle(true, false, true, false), ShopToggle::Close);
    assert_eq!(shop_toggle(true, false, false, true), ShopToggle::Open);
    assert_eq!(shop_toggle(true, false, false, false), ShopToggle::Nothing);
}

#[test]
fn shop_text_for_a_new_game() {
    let text = build_shop_text(&ShopState::default(), 120, 2, 0);
    let expected = [
        "--- SHOP ---\n[E/Echap] Fermer\n\n",
        "  Actuel: Pioche en bois (puissance 1)\n",
        "[1] Pioche en pierre — puissance 2 — 50 c\n",
        "\n",
        "  Actuel: Poches (capacite 10)\n",
        "[2] Petit sac — capacite 20 — 100 c\n",
        "\n",
        "  Actuel: Normal (x1)\n",
        "[3] Rapide — x1.5 — 300 c (pas assez)\n",
        "\n",
        "  Mineurs en stock: 2\n",
        "[4] Auto-mineur — 100 c\n",
        "\n",
        "  Bots en stock: 0\n",
        "[5] Bot eclaireur — 50 c\n",
    ]
    .concat();
    assert_eq!(text, expected);
}

#[test]
fn shop_text_at_max_levels() {
    let state = ShopState { pickaxe_tier: 4, bag_tier: 4, speed_tier: 3 };
    let text = build_shop_text(&state, 10, 0, 7);
    assert!(text.contains("  Actuel: Pioche diamant (puissance 12)\n[1] MAX\n"));
    assert!(text.contains("  Actuel: Wagon (capacite 150)\n[2] MAX\n"));
    assert!(text.contains("  Actuel: Frenetique (x3)\n[3] MAX\n"));
    assert!(text.contains("[4] Auto-mineur — 100 c (pas assez)\n"));
    assert!(text.ends_with("  Bots en stock: 7\n[5] Bot eclaireur — 50 c (pas assez)\n"));
}
