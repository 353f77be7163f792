use vstd::prelude::*;

use crate::economy::resources::{PlayerStats, Wallet};
use crate::text::{push_decimal, spec_decimal};
use crate::machines::auto_miner::MinerInventory;
use crate::machines::scout_bot::BotInventory;

verus! {

/// Price of one auto miner.
pub const AUTO_MINER_COST: u64 = 100;

/// Price of one scout bot.
pub const SCOUT_BOT_COST: u64 = 50;

/// Walk speed, in pixels per second, before the speed multiplier.
pub const BASE_WALK_SPEED: u32 = 150;

/// One level of an upgrade line.
#[derive(Clone, Copy, Debug)]
pub struct UpgradeTier {
    pub name: &'static str,
    /// Mining power, bag capacity, or speed multiplier in tenths.
    pub value: u32,
    pub cost: u64,
}

/// The upgrade lines of the shop.
#[derive(Clone, Copy, PartialEq, Eq, Structural, Debug)]
pub enum Upgrade {
    Pickaxe,
    Bag,
    Speed,
}

/// Number of levels of an upgrade line.
pub open spec fn spec_tier_count(u: Upgrade) -> nat {
    match u {
        Upgrade::Pickaxe => 5,
        Upgrade::Bag => 5,
        Upgrade::Speed => 4,
    }
}

/// Value of level `i` of an upgrade line: mining power, bag capacity, or
/// speed multiplier in tenths.
pub open spec fn spec_tier_value(u: Upgrade, i: int) -> nat {
    match u {
        Upgrade::Pickaxe => if i == 0 { 1 } else if i == 1 { 2 } else if i == 2 { 4 } else if i == 3 { 7 } else { 12 },
        Upgrade::Bag => if i == 0 { 10 } else if i == 1 { 20 } else if i == 2 { 40 } else if i == 3 { 80 } else { 150 },
        Upgrade::Speed => if i == 0 { 10 } else if i == 1 { 15 } else if i == 2 { 20 } else { 30 },
    }
}

/// Price of level `i` of an upgrade line.
pub open spec fn spec_tier_cost(u: Upgrade, i: int) -> nat {
    match u {
        Upgrade::Pickaxe => if i == 0 { 0 } else if i == 1 { 50 } else if i == 2 { 200 } else if i == 3 { 1000 } else { 5000 },
        Upgrade::Bag => if i == 0 { 0 } else if i == 1 { 100 } else if i == 2 { 500 } else if i == 3 { 2000 } else { 10000 },
        Upgrade::Speed => if i == 0 { 0 } else if i == 1 { 300 } else if i == 2 { 1500 } else { 8000 },
    }
}

/// Name of level `i` of an upgrade line.
pub open spec fn spec_tier_name(u: Upgrade, i: int) -> Seq<char> {
    match u {
        Upgrade::Pickaxe => if i == 0 {
            "Pioche en bois"@
        } else if i == 1 {
            "Pioche en pierre"@
        } else if i == 2 {
            "Pioche en fer"@
        } else if i == 3 {
            "Pioche en or"@
        } else {
            "Pioche diamant"@
        },
        Upgrade::Bag => if i == 0 {
            "Poches"@
        } else if i == 1 {
            "Petit sac"@
        } else if i == 2 {
            "Sac a dos"@
        } else if i == 3 {
            "Chariot"@
        } else {
            "Wagon"@
        },
        Upgrade::Speed => if i == 0 {
            "Normal"@
        } else if i == 1 {
            "Rapide"@
        } else if i == 2 {
            "Tres rapide"@
        } else {
            "Frenetique"@
        },
    }
}

/// Number of levels of an upgrade line.
pub fn tier_count(u: Upgrade) -> (n: usize)
    ensures
        n == spec_tier_count(u),
{
    match u {
        Upgrade::Pickaxe => 5,
        Upgrade::Bag => 5,
        Upgrade::Speed => 4,
    }
}

/// Level `i` of an upgrade line.
pub fn tier(u: Upgrade, i: usize) -> (t: UpgradeTier)
    requires
        i < spec_tier_count(u),
    ensures
        t.name@ == spec_tier_name(u, i as int),
        t.value == spec_tier_value(u, i as int),
        t.cost == spec_tier_cost(u, i as int),
{
    match u {
        Upgrade::Pickaxe => {
            if i == 0 {
                UpgradeTier { name: "Pioche en bois", value: 1, cost: 0 }
            } else if i == 1 {
                UpgradeTier { name: "Pioche en pierre", value: 2, cost: 50 }
            } else if i == 2 {
                UpgradeTier { name: "Pioche en fer", value: 4, cost: 200 }
            } else if i == 3 {
                UpgradeTier { name: "Pioche en or", value: 7, cost: 1000 }
            } else {
                UpgradeTier { name: "Pioche diamant", value: 12, cost: 5000 }
            }
        },
        Upgrade::Bag => {
            if i == 0 {
                UpgradeTier { name: "Poches", value: 10, cost: 0 }
            } else if i == 1 {
                UpgradeTier { name: "Petit sac", value: 20, cost: 100 }
            } else if i == 2 {
                UpgradeTier { name: "Sac a dos", value: 40, cost: 500 }
            } else if i == 3 {
                UpgradeTier { name: "Chariot", value: 80, cost: 2000 }
            } else {
                UpgradeTier { name: "Wagon", value: 150, cost: 10000 }
            }
        },
        Upgrade::Speed => {
            if i == 0 {
                UpgradeTier { name: "Normal", value: 10, cost: 0 }
            } else if i == 1 {
                UpgradeTier { name: "Rapide", value: 15, cost: 300 }
            } else if i == 2 {
                UpgradeTier { name: "Tres rapide", value: 20, cost: 1500 }
            } else {
                UpgradeTier { name: "Frenetique", value: 30, cost: 8000 }
            }
        },
    }
}

/// Levels reached in each upgrade line.
#[derive(Clone, Copy, Debug)]
pub struct ShopState {
    pub pickaxe_tier: usize,
    pub bag_tier: usize,
    pub speed_tier: usize,
}

impl Default for ShopState {
    fn default() -> (s: ShopState)
        ensures
            s.pickaxe_tier == 0,
            s.bag_tier == 0,
            s.speed_tier == 0,
            s.wf(),
    {
        ShopState { pickaxe_tier: 0, bag_tier: 0, speed_tier: 0 }
    }
}

impl ShopState {
    /// Every level reached exists.
    pub open spec fn wf(self) -> bool {
        &&& self.pickaxe_tier < spec_tier_count(Upgrade::Pickaxe)
        &&& self.bag_tier < spec_tier_count(Upgrade::Bag)
        &&& self.speed_tier < spec_tier_count(Upgrade::Speed)
    }

    /// Level reached in an upgrade line.
    pub open spec fn level(self, u: Upgrade) -> int {
        match u {
            Upgrade::Pickaxe => self.pickaxe_tier as int,
            Upgrade::Bag => self.bag_tier as int,
            Upgrade::Speed => self.speed_tier as int,
        }
    }
}

/// The items on sale, in the order of their keys 1 to 5.
#[derive(Clone, Copy, PartialEq, Eq, Structural, Debug)]
pub enum ShopItem {
    Pickaxe,
    Bag,
    Speed,
    AutoMiner,
    ScoutBot,
}

/// Everything a purchase can change.
pub struct Purse {
    pub money: u64,
    pub stats: PlayerStats,
    pub state: ShopState,
    pub miners: u32,
    pub bots: u32,
}

/// Buying one upgrade level: possible when a next level exists and the
/// player can pay for it; the matching stat takes the new level's value.
pub open spec fn spec_buy_upgrade(u: Upgrade, p: Purse) -> (bool, Purse) {
    let next = p.state.level(u) + 1;
    if next < spec_tier_count(u) && p.money >= spec_tier_cost(u, next) {
        let money = (p.money - spec_tier_cost(u, next)) as u64;
        let v = spec_tier_value(u, next);
        (true, match u {
            Upgrade::Pickaxe => Purse {
                money,
                stats: PlayerStats { mining_power: v as u32, ..p.stats },
                state: ShopState { pickaxe_tier: next as usize, ..p.state },
                ..p
            },
            Upgrade::Bag => Purse {
                money,
                stats: PlayerStats { inventory_capacity: v as u32, ..p.stats },
                state: ShopState { bag_tier: next as usize, ..p.state },
                ..p
            },
            Upgrade::Speed => Purse {
                money,
                stats: PlayerStats { walk_speed: (BASE_WALK_SPEED * v / 10) as u32, ..p.stats },
                state: ShopState { speed_tier: next as usize, ..p.state },
                ..p
            },
        })
    } else {
        (false, p)
    }
}

/// Buying one item from the shop.
pub open spec fn spec_buy(item: ShopItem, p: Purse) -> (bool, Purse) {
    match item {
        ShopItem::Pickaxe => spec_buy_upgrade(Upgrade::Pickaxe, p),
        ShopItem::Bag => spec_buy_upgrade(Upgrade::Bag, p),
        ShopItem::Speed => spec_buy_upgrade(Upgrade::Speed, p),
        ShopItem::AutoMiner => if p.money >= AUTO_MINER_COST {
            (true, Purse { money: (p.money - AUTO_MINER_COST) as u64, miners: (p.miners + 1) as u32, ..p })
        } else {
            (false, p)
        },
        ShopItem::ScoutBot => if p.money >= SCOUT_BOT_COST {
            (true, Purse { money: (p.money - SCOUT_BOT_COST) as u64, bots: (p.bots + 1) as u32, ..p })
        } else {
            (false, p)
        },
    }
}

/// The shop item sold under key `k` (1 to 5), counted from 0.
pub open spec fn item_of_key(k: int) -> ShopItem {
    if k == 0 {
        ShopItem::Pickaxe
    } else if k == 1 {
        ShopItem::Bag
    } else if k == 2 {
        ShopItem::Speed
    } else if k == 3 {
        ShopItem::AutoMiner
    } else {
        ShopItem::ScoutBot
    }
}

/// The keys `0..k` pressed this frame are served in order; whether anything
/// was bought, and the purse afterwards.
pub open spec fn spec_buy_keys(pressed: Seq<bool>, p: Purse, k: int) -> (bool, Purse)
    decreases k,
{
    if k <= 0 {
        (false, p)
    } else {
        let prev = spec_buy_keys(pressed, p, k - 1);
        if pressed[k - 1] {
            let r = spec_buy(item_of_key(k - 1), prev.1);
            (prev.0 || r.0, r.1)
        } else {
            prev
        }
    }
}

/// Purchases only spend money, and levels only rise, by one at most per
/// key, staying within their lines.
pub proof fn lemma_purchases(pressed: Seq<bool>, p: Purse, k: int)
    requires
        p.state.wf(),
        0 <= k,
    ensures
        ({
            let r = spec_buy_keys(pressed, p, k).1;
            &&& r.money <= p.money
            &&& r.state.wf()
            &&& forall|u: Upgrade| p.state.level(u) <= #[trigger] r.state.level(u) <= p.state.level(u) + k
            &&& !spec_buy_keys(pressed, p, k).0 ==> r == p
        }),
    decreases k,
{
    if k > 0 {
        lemma_purchases(pressed, p, k - 1);
    }
}

/// After buying an upgrade level, the matching stat holds that level's value.
pub proof fn lemma_upgrade_sets_stat(u: Upgrade, p: Purse)
    requires
        p.state.wf(),
        spec_buy_upgrade(u, p).0,
    ensures
        ({
            let r = spec_buy_upgrade(u, p).1;
            let level = r.state.level(u);
            &&& level == p.state.level(u) + 1
            &&& r.money == p.money - spec_tier_cost(u, level)
            &&& match u {
                Upgrade::Pickaxe => r.stats.mining_power == spec_tier_value(u, level),
                Upgrade::Bag => r.stats.inventory_capacity == spec_tier_value(u, level),
                Upgrade::Speed => r.stats.walk_speed == BASE_WALK_SPEED * spec_tier_value(u, level) / 10,
            }
        }),
{
}

impl Purse {
    /// Buys one item; returns whether the purchase went through.
    pub fn buy(&mut self, item: ShopItem) -> (bought: bool)
        requires
            old(self).state.wf(),
            item == ShopItem::AutoMiner ==> old(self).miners < u32::MAX,
            item == ShopItem::ScoutBot ==> old(self).bots < u32::MAX,
        ensures
            (bought, *final(self)) == spec_buy(item, *old(self)),
            final(self).state.wf(),
    {
        match item {
            ShopItem::Pickaxe => self.buy_upgrade(Upgrade::Pickaxe),
            ShopItem::Bag => self.buy_upgrade(Upgrade::Bag),
            ShopItem::Speed => self.buy_upgrade(Upgrade::Speed),
            ShopItem::AutoMiner => {
                if self.money >= AUTO_MINER_COST {
                    self.money = self.money - AUTO_MINER_COST;
                    self.miners = self.miners + 1;
                    true
                } else {
                    false
                }
            },
            ShopItem::ScoutBot => {
                if self.money >= SCOUT_BOT_COST {
                    self.money = self.money - SCOUT_BOT_COST;
                    self.bots = self.bots + 1;
                    true
                } else {
                    false
                }
            },
        }
    }

    /// Buys the next level of an upgrade line; returns whether it went through.
    pub fn buy_upgrade(&mut self, u: Upgrade) -> (bought: bool)
        requires
            old(self).state.wf(),
        ensures
            (bought, *final(self)) == spec_buy_upgrade(u, *old(self)),
            final(self).state.wf(),
    {
        let level = match u {
            Upgrade::Pickaxe => self.state.pickaxe_tier,
            Upgrade::Bag => self.state.bag_tier,
            Upgrade::Speed => self.state.speed_tier,
        };
        let next = level + 1;
        if next < tier_count(u) {
            let t = tier(u, next);
            if self.money >= t.cost {
                self.money = self.money - t.cost;
                match u {
                    Upgrade::Pickaxe => {
                        self.state.pickaxe_tier = next;
                        self.stats.mining_power = t.value;
                    },
                    Upgrade::Bag => {
                        self.state.bag_tier = next;
                        self.stats.inventory_capacity = t.value;
                    },
                    Upgrade::Speed => {
                        self.state.speed_tier = next;
                        self.stats.walk_speed = BASE_WALK_SPEED * t.value / 10;
                    },
                }
                return true;
            }
        }
        false
    }
}

/// The number keys 1 to 5 while the shop is open: each key pressed this
/// frame buys its item, in key order. Returns whether anything was bought.
pub fn shop_buy(
    pressed: [bool; 5],
    shop_open: bool,
    wallet: &mut Wallet,
    stats: &mut PlayerStats,
    shop_state: &mut ShopState,
    miner_inv: &mut MinerInventory,
    bot_inv: &mut BotInventory,
) -> (bought: bool)
    requires
        old(shop_state).wf(),
        shop_open && pressed@[3] ==> old(miner_inv).count < u32::MAX,
        shop_open && pressed@[4] ==> old(bot_inv).count < u32::MAX,
    ensures
        final(shop_state).wf(),
        !shop_open ==> !bought && *final(wallet) == *old(wallet) && *final(stats) == *old(stats)
            && *final(shop_state) == *old(shop_state) && *final(miner_inv) == *old(miner_inv)
            && *final(bot_inv) == *old(bot_inv),
        shop_open ==> {
            let r = spec_buy_keys(
                pressed@,
                Purse {
                    money: old(wallet).money,
                    stats: *old(stats),
                    state: *old(shop_state),
                    miners: old(miner_inv).count,
                    bots: old(bot_inv).count,
                },
                5,
            );
            &&& bought == r.0
            &&& final(wallet).money == r.1.money
            &&& *final(stats) == r.1.stats
            &&& *final(shop_state) == r.1.state
            &&& final(miner_inv).count == r.1.miners
            &&& final(bot_inv).count == r.1.bots
        },
{
    if !shop_open {
        return false;
    }
    let ghost p0 = Purse {
        money: wallet.money,
        stats: *stats,
        state: *shop_state,
        miners: miner_inv.count,
        bots: bot_inv.count,
    };
    let mut purse = Purse {
        money: wallet.money,
        stats: *stats,
        state: *shop_state,
        miners: miner_inv.count,
        bots: bot_inv.count,
    };
    let mut bought = false;
    let mut k: usize = 0;
    while k < 5
        invariant
            k <= 5,
            pressed@.len() == 5,
            (bought, purse) == spec_buy_keys(pressed@, p0, k as int),
            purse.state.wf(),
            k <= 3 ==> purse.miners == p0.miners,
            k <= 4 ==> purse.bots == p0.bots,
            pressed@[3] ==> p0.miners < u32::MAX,
            pressed@[4] ==> p0.bots < u32::MAX,
        decreases 5 - k,
    {
        if pressed[k] {
            let item = if k == 0 {
                ShopItem::Pickaxe
            } else if k == 1 {
                ShopItem::Bag
            } else if k == 2 {
                ShopItem::Speed
            } else if k == 3 {
                ShopItem::AutoMiner
            } else {
                ShopItem::ScoutBot
            };
            let b = purse.buy(item);
            bought = bought || b;
        }
        k = k + 1;
    }
    wallet.money = purse.money;
    *stats = purse.stats;
    *shop_state = purse.state;
    miner_inv.count = purse.miners;
    bot_inv.count = purse.bots;
    bought
}

/// What the E, Enter and Escape keys do to the shop menu.
#[derive(Clone, Copy, PartialEq, Eq, Structural, Debug)]
pub enum ShopToggle {
    Nothing,
    Open,
    Close,
}

/// E or Enter (`toggle`) opens the menu when the player stands in the shop
/// zone and closes it when open; Escape closes it.
pub fn shop_toggle(toggle: bool, escape: bool, shop_open: bool, in_zone: bool) -> (a: ShopToggle)
    ensures
        a == (if !toggle && !escape {
            ShopToggle::Nothing
        } else if escape && shop_open {
            ShopToggle::Close
        } else if toggle && shop_open {
            ShopToggle::Close
        } else if toggle && in_zone {
            ShopToggle::Open
        } else {
            ShopToggle::Nothing
        }),
{
    if !toggle && !escape {
        return ShopToggle::Nothing;
    }
    if escape && shop_open {
        return ShopToggle::Close;
    }
    if toggle {
        if shop_open {
            ShopToggle::Close
        } else if in_zone {
            ShopToggle::Open
        } else {
            ShopToggle::Nothing
        }
    } else {
        ShopToggle::Nothing
    }
}

/// " (pas assez)" when the player cannot pay `cost`.
pub open spec fn spec_affordable(money: u64, cost: int) -> Seq<char> {
    if money >= cost { Seq::empty() } else { " (pas assez)"@ }
}

/// A speed multiplier given in tenths, written as a decimal number.
pub open spec fn spec_tenths(t: nat) -> Seq<char> {
    if t % 10 == 0 {
        spec_decimal(t / 10)
    } else {
        spec_decimal(t / 10) + "."@ + spec_decimal(t % 10)
    }
}

/// How an upgrade level's value is written.
pub open spec fn spec_value_text(u: Upgrade, v: nat) -> Seq<char> {
    match u {
        Upgrade::Speed => spec_tenths(v),
        _ => spec_decimal(v),
    }
}

/// Words around the current level's value.
pub open spec fn spec_current_word(u: Upgrade) -> Seq<char> {
    match u {
        Upgrade::Pickaxe => " (puissance "@,
        Upgrade::Bag => " (capacite "@,
        Upgrade::Speed => " (x"@,
    }
}

/// Words before the next level's value.
pub open spec fn spec_next_word(u: Upgrade) -> Seq<char> {
    match u {
        Upgrade::Pickaxe => " — puissance "@,
        Upgrade::Bag => " — capacite "@,
        Upgrade::Speed => " — x"@,
    }
}

/// Key label of an upgrade line.
pub open spec fn spec_key_label(u: Upgrade) -> Seq<char> {
    match u {
        Upgrade::Pickaxe => "[1] "@,
        Upgrade::Bag => "[2] "@,
        Upgrade::Speed => "[3] "@,
    }
}

/// Line shown when an upgrade line is at its top level.
pub open spec fn spec_max_line(u: Upgrade) -> Seq<char> {
    match u {
        Upgrade::Pickaxe => "[1] MAX\n"@,
        Upgrade::Bag => "[2] MAX\n"@,
        Upgrade::Speed => "[3] MAX\n"@,
    }
}

/// The current level of an upgrade line.
pub open spec fn spec_current_line(u: Upgrade, level: int) -> Seq<char> {
    "  Actuel: "@ + spec_tier_name(u, level) + spec_current_word(u) + spec_value_text(u, spec_tier_value(u, level))
        + ")\n"@
}

/// The next level of an upgrade line with its price, or MAX.
pub open spec fn spec_next_line(u: Upgrade, level: int, money: u64) -> Seq<char> {
    if level + 1 < spec_tier_count(u) {
        spec_key_label(u) + spec_tier_name(u, level + 1) + spec_next_word(u)
            + spec_value_text(u, spec_tier_value(u, level + 1)) + " — "@
            + spec_decimal(spec_tier_cost(u, level + 1)) + " c"@
            + spec_affordable(money, spec_tier_cost(u, level + 1) as int) + "\n"@
    } else {
        spec_max_line(u)
    }
}

/// The two lines of an upgrade line: the current level, then the next one
/// with its price, or MAX.
pub open spec fn spec_upgrade_section(u: Upgrade, level: int, money: u64) -> Seq<char> {
    spec_current_line(u, level) + spec_next_line(u, level, money)
}

/// The shop menu.
pub open spec fn spec_shop_text(state: ShopState, money: u64, miners: u32, bots: u32) -> Seq<char> {
    "--- SHOP ---\n[E/Echap] Fermer\n\n"@
        + spec_upgrade_section(Upgrade::Pickaxe, state.pickaxe_tier as int, money) + "\n"@
        + spec_upgrade_section(Upgrade::Bag, state.bag_tier as int, money) + "\n"@
        + spec_upgrade_section(Upgrade::Speed, state.speed_tier as int, money) + "\n"@
        + "  Mineurs en stock: "@ + spec_decimal(miners as nat) + "\n"@
        + "[4] Auto-mineur — "@ + spec_decimal(AUTO_MINER_COST as nat) + " c"@
        + spec_affordable(money, AUTO_MINER_COST as int) + "\n"@ + "\n"@
        + "  Bots en stock: "@ + spec_decimal(bots as nat) + "\n"@
        + "[5] Bot eclaireur — "@ + spec_decimal(SCOUT_BOT_COST as nat) + " c"@
        + spec_affordable(money, SCOUT_BOT_COST as int) + "\n"@
}

fn push_affordable(s: &mut String, money: u64, cost: u64)
    ensures
        final(s)@ == old(s)@ + spec_affordable(money, cost as int),
{
    if money < cost {
        s.append(" (pas assez)");
    } else {
        assert(old(s)@ + spec_affordable(money, cost as int) =~= old(s)@);
    }
}

fn push_value(s: &mut String, u: Upgrade, v: u32)
    ensures
        final(s)@ == old(s)@ + spec_value_text(u, v as nat),
{
    match u {
        Upgrade::Speed => {
            push_decimal(s, (v / 10) as u64);
            if v % 10 != 0 {
                s.append(".");
                push_decimal(s, (v % 10) as u64);
            }
            assert(s@ =~= old(s)@ + spec_value_text(u, v as nat));
        },
        _ => {
            push_decimal(s, v as u64);
        },
    }
}

fn current_word(u: Upgrade) -> (w: &'static str)
    ensures
        w@ == spec_current_word(u),
{
    match u {
        Upgrade::Pickaxe => " (puissance ",
        Upgrade::Bag => " (capacite ",
        Upgrade::Speed => " (x",
    }
}

fn next_word(u: Upgrade) -> (w: &'static str)
    ensures
        w@ == spec_next_word(u),
{
    match u {
        Upgrade::Pickaxe => " — puissance ",
        Upgrade::Bag => " — capacite ",
        Upgrade::Speed => " — x",
    }
}

fn key_label(u: Upgrade) -> (w: &'static str)
    ensures
        w@ == spec_key_label(u),
{
    match u {
        Upgrade::Pickaxe => "[1] ",
        Upgrade::Bag => "[2] ",
        Upgrade::Speed => "[3] ",
    }
}

fn max_line(u: Upgrade) -> (w: &'static str)
    ensures
        w@ == spec_max_line(u),
{
    match u {
        Upgrade::Pickaxe => "[1] MAX\n",
        Upgrade::Bag => "[2] MAX\n",
        Upgrade::Speed => "[3] MAX\n",
    }
}

fn push_current_line(s: &mut String, u: Upgrade, level: usize)
    requires
        level < spec_tier_count(u),
    ensures
        final(s)@ == old(s)@ + spec_current_line(u, level as int),
{
    let current = tier(u, level);
    s.append("  Actuel: ");
    s.append(current.name);
    s.append(current_word(u));
    push_value(s, u, current.value);
    s.append(")\n");
    assert(s@ =~= old(s)@ + spec_current_line(u, level as int));
}

fn push_next_line(s: &mut String, u: Upgrade, level: usize, money: u64)
    requires
        level < spec_tier_count(u),
    ensures
        final(s)@ == old(s)@ + spec_next_line(u, level as int, money),
{
    if level + 1 < tier_count(u) {
        let next = tier(u, level + 1);
        s.append(key_label(u));
        s.append(next.name);
        s.append(next_word(u));
        push_value(s, u, next.value);
        s.append(" — ");
        push_decimal(s, next.cost);
        s.append(" c");
        push_affordable(s, money, next.cost);
        s.append("\n");
        assert(s@ =~= old(s)@ + spec_next_line(u, level as int, money));
    } else {
        s.append(max_line(u));
    }
}

fn push_upgrade_section(s: &mut String, u: Upgrade, level: usize, money: u64)
    requires
        level < spec_tier_count(u),
    ensures
        final(s)@ == old(s)@ + spec_upgrade_section(u, level as int, money),
{
    push_current_line(s, u, level);
    push_next_line(s, u, level, money);
    assert(s@ =~= old(s)@ + spec_upgrade_section(u, level as int, money));
}

/// The shop menu: for each upgrade line the current level and the next one
/// with its price (marked when the player cannot pay), then the machines in
/// stock and their prices.
pub fn build_shop_text(state: &ShopState, money: u64, miners: u32, bots: u32) -> (s: String)
    requires
        state.wf(),
    ensures
        s@ == spec_shop_text(*state, money, miners, bots),
{
    let mut s = String::from_str("--- SHOP ---\n[E/Echap] Fermer\n\n");
    push_upgrade_section(&mut s, Upgrade::Pickaxe, state.pickaxe_tier, money);
    s.append("\n");
    push_upgrade_section(&mut s, Upgrade::Bag, state.bag_tier, money);
    s.append("\n");
    push_upgrade_section(&mut s, Upgrade::Speed, state.speed_tier, money);
    s.append("\n");
    s.append("  Mineurs en stock: ");
    push_decimal(&mut s, miners as u64);
    s.append("\n");
    s.append("[4] Auto-mineur — ");
    push_decimal(&mut s, AUTO_MINER_COST);
    s.append(" c");
    push_affordable(&mut s, money, AUTO_MINER_COST);
    s.append("\n");
    s.append("\n");
    s.append("  Bots en stock: ");
    push_decimal(&mut s, bots as u64);
    s.append("\n");
    s.append("[5] Bot eclaireur — ");
    push_decimal(&mut s, SCOUT_BOT_COST);
    s.append(" c");
    push_affordable(&mut s, money, SCOUT_BOT_COST);
    s.append("\n");
    s
}

} // verus!
