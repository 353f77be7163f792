use vstd::prelude::*;

use crate::nearest::{first_nearest, spec_first_nearest};
use crate::world::deposits::Deposit;
use crate::world::tiles::{abs, manhattan, GridPos};

verus! {

/// Scout bots bought and not yet launched.
#[derive(Clone, Copy, Debug)]
pub struct BotInventory {
    pub count: u32,
}

impl Default for BotInventory {
    fn default() -> (b: BotInventory)
        ensures
            b.count == 0,
    {
        BotInventory { count: 0 }
    }
}

/// A bot walking to a hidden deposit, mining everything on its way.
#[derive(Clone, Copy, Debug)]
pub struct ScoutBot {
    pub target: GridPos,
    /// Damage dealt per second to the tile in its way: the player's mining
    /// power at launch.
    pub mining_power: u32,
}

/// Ranks of the deposits a bot can head for: hidden ones, by Manhattan
/// distance from `from`.
pub open spec fn target_ranks(from: GridPos, deposits: Seq<(GridPos, Deposit)>) -> Seq<Option<u64>> {
    Seq::new(
        deposits.len(),
        |i: int| if deposits[i].1.revealed { None } else { Some(manhattan(deposits[i].0, from) as u64) },
    )
}

fn manhattan_u64(a: GridPos, b: GridPos) -> (d: u64)
    ensures
        d == manhattan(a, b),
{
    let dx: i64 = a.x as i64 - b.x as i64;
    let dy: i64 = a.y as i64 - b.y as i64;
    let ax: i64 = if dx < 0 { -dx } else { dx };
    let ay: i64 = if dy < 0 { -dy } else { dy };
    (ax + ay) as u64
}

/// The hidden deposit nearest to `from` (Manhattan distance), the first of
/// equally near ones.
pub fn nearest_hidden_deposit(from: GridPos, deposits: &Vec<(GridPos, Deposit)>) -> (r: Option<GridPos>)
    ensures
        match spec_first_nearest(target_ranks(from, deposits@)) {
            Some(i) => r == Some(deposits@[i].0),
            None => r is None,
        },
{
    let mut ranks: Vec<Option<u64>> = Vec::new();
    let mut i: usize = 0;
    while i < deposits.len()
        invariant
            i <= deposits@.len(),
            ranks@ =~= target_ranks(from, deposits@).take(i as int),
        decreases deposits@.len() - i,
    {
        if deposits[i].1.revealed {
            ranks.push(None);
        } else {
            ranks.push(Some(manhattan_u64(deposits[i].0, from)));
        }
        i = i + 1;
    }
    assert(ranks@ =~= target_ranks(from, deposits@));
    match first_nearest(&ranks) {
        Some(k) => Some(deposits[k].0),
        None => None,
    }
}

/// The G key: launches a bot from the player's cell toward the nearest
/// hidden deposit, if the player has a bot and some deposit is hidden.
pub fn deploy_bot(
    pressed: bool,
    shop_open: bool,
    bot_inv: &mut BotInventory,
    player_grid: GridPos,
    deposits: &Vec<(GridPos, Deposit)>,
    mining_power: u32,
) -> (bot: Option<ScoutBot>)
    ensures
        !pressed || shop_open || old(bot_inv).count == 0
            || spec_first_nearest(target_ranks(player_grid, deposits@)) is None ==> {
            &&& bot is None
            &&& *final(bot_inv) == *old(bot_inv)
        },
        pressed && !shop_open && old(bot_inv).count > 0 ==> match spec_first_nearest(target_ranks(player_grid, deposits@)) {
            Some(i) => {
                &&& bot == Some(ScoutBot { target: deposits@[i].0, mining_power })
                &&& final(bot_inv).count == old(bot_inv).count - 1
            },
            None => true,
        },
{
    if !pressed || shop_open || bot_inv.count == 0 {
        return None;
    }
    match nearest_hidden_deposit(player_grid, deposits) {
        Some(target) => {
            bot_inv.count = bot_inv.count - 1;
            Some(ScoutBot { target, mining_power })
        },
        None => None,
    }
}

pub open spec fn sign(v: int) -> int {
    if v > 0 { 1 } else if v < 0 { -1 } else { 0 }
}

/// The bot's next cell: one step along the axis on which the target is
/// farther (the horizontal one on a tie).
pub open spec fn spec_next_step(pos: GridPos, target: GridPos) -> GridPos {
    let dx = target.x - pos.x;
    let dy = target.y - pos.y;
    if abs(dx) >= abs(dy) {
        GridPos { x: (pos.x + sign(dx)) as i32, y: pos.y }
    } else {
        GridPos { x: pos.x, y: (pos.y + sign(dy)) as i32 }
    }
}

/// What a bot does this frame.
#[derive(Clone, Copy, PartialEq, Eq, Structural, Debug)]
pub enum BotPlan {
    /// On the target: reveal the deposit and disappear.
    Arrived,
    /// Mine the tile on this cell if there is one, otherwise move onto it.
    Toward(GridPos),
}

/// The bot's plan for this frame.
pub fn bot_plan(pos: GridPos, target: GridPos) -> (p: BotPlan)
    ensures
        pos == target ==> p == BotPlan::Arrived,
        pos != target ==> p == BotPlan::Toward(spec_next_step(pos, target)),
{
    if pos == target {
        return BotPlan::Arrived;
    }
    let dx: i64 = target.x as i64 - pos.x as i64;
    let dy: i64 = target.y as i64 - pos.y as i64;
    let ax: i64 = if dx < 0 { -dx } else { dx };
    let ay: i64 = if dy < 0 { -dy } else { dy };
    if ax >= ay {
        let step: i32 = if dx > 0 { 1 } else if dx < 0 { -1 } else { 0 };
        BotPlan::Toward(GridPos { x: pos.x + step, y: pos.y })
    } else {
        let step: i32 = if dy > 0 { 1 } else if dy < 0 { -1 } else { 0 };
        BotPlan::Toward(GridPos { x: pos.x, y: pos.y + step })
    }
}

/// The cell a bot reaches after `n` steps from `pos`.
pub open spec fn walk(pos: GridPos, target: GridPos, n: nat) -> GridPos
    decreases n,
{
    if n == 0 || pos == target {
        pos
    } else {
        walk(spec_next_step(pos, target), target, (n - 1) as nat)
    }
}

/// Each step brings the bot one cell closer to its target.
pub proof fn lemma_step_closer(pos: GridPos, target: GridPos)
    requires
        pos != target,
    ensures
        manhattan(spec_next_step(pos, target), target) == manhattan(pos, target) - 1,
{
}

/// A bot reaches its target after exactly as many steps as the Manhattan
/// distance between them, and not before.
pub proof fn lemma_bot_reaches_target(pos: GridPos, target: GridPos)
    ensures
        walk(pos, target, manhattan(pos, target) as nat) == target,
        forall|n: nat| n < manhattan(pos, target) ==> #[trigger] walk(pos, target, n) != target,
    decreases manhattan(pos, target),
{
    if pos != target {
        let next = spec_next_step(pos, target);
        lemma_step_closer(pos, target);
        lemma_bot_reaches_target(next, target);
        assert forall|n: nat| n < manhattan(pos, target) implies #[trigger] walk(pos, target, n) != target by {
            if n > 0 {
                assert(walk(pos, target, n) == walk(next, target, (n - 1) as nat));
            }
        }
    }
}

} // verus!
