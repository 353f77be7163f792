use vstd::prelude::*;

use crate::economy::resources::{Inventory, Wallet};

verus! {

/// The player stands in the sell zone: everything carried is sold at its
/// value and the bag empties. Outside the zone, or with an empty bag,
/// nothing happens.
pub fn sell_zone_system(in_zone: bool, inventory: &mut Inventory, wallet: &mut Wallet)
    requires
        old(wallet).money + old(inventory).items.spec_value() <= u64::MAX,
    ensures
        !in_zone || old(inventory).items.spec_is_empty() ==> *final(inventory) == *old(inventory)
            && *final(wallet) == *old(wallet),
        in_zone && !old(inventory).items.spec_is_empty() ==> {
            &&& final(wallet).money == old(wallet).money + old(inventory).items.spec_value()
            &&& final(inventory).items.spec_is_empty()
            &&& final(inventory).items.spec_total() == 0
        },
{
    if !in_zone || inventory.items.is_empty() {
        return;
    }
    let total = inventory.items.value();
    wallet.money = wallet.money + total;
    inventory.items.clear();
}

} // verus!
