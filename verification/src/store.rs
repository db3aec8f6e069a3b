use vstd::prelude::*;
use crate::save::SaveData;
use crate::simulation::{spec_wall_break_energy_cost, wall_break_energy_cost};

verus! {

/// What an item is paid with.
#[derive(Clone, Copy, Debug, PartialEq, Eq, Structural)]
pub enum StoreCurrency {
    Crystals,
    Energy,
}

/// An upgrade on sale between games.
pub struct StoreItem {
    pub name: &'static str,
    pub description: &'static str,
    /// Price of the first purchase (the laser is priced by tier instead).
    pub cost: u32,
    pub currency: StoreCurrency,
}

/// Outcome of a purchase attempt.
#[derive(Clone, Copy, Debug, PartialEq, Eq, Structural)]
pub enum PurchaseResult {
    Bought,
    InsufficientResources,
    MaxedOut,
}

/// Number of items on sale.
pub const STORE_ITEM_COUNT: usize = 6;

/// Index of the wall-breaking laser, the one item priced in energy.
pub const WALL_BREAK_ITEM_IDX: usize = 5;

/// Price of the first purchase of item `idx`.
pub open spec fn base_cost(idx: int) -> u32 {
    if idx == 0 {
        50
    } else if idx == 1 {
        75
    } else if idx == 2 {
        30
    } else if idx == 3 {
        40
    } else if idx == 4 {
        40
    } else {
        0
    }
}

pub open spec fn spec_currency(idx: int) -> StoreCurrency {
    if idx == WALL_BREAK_ITEM_IDX { StoreCurrency::Energy } else { StoreCurrency::Crystals }
}

/// Item `idx` of the catalogue: Scout +1, Collector +1, Cargo +5,
/// Depot Energie +10, Depot Cristaux +10, Laser murs +1.
pub fn store_item(idx: usize) -> (r: StoreItem)
    requires
        idx < STORE_ITEM_COUNT,
    ensures
        r.cost == base_cost(idx as int),
        r.currency == spec_currency(idx as int),
{
    match idx {
        0 => StoreItem { name: "Scout +1", description: "Ajoute un robot explorateur", cost: 50, currency: StoreCurrency::Crystals },
        1 => StoreItem { name: "Collector +1", description: "Ajoute un robot collecteur", cost: 75, currency: StoreCurrency::Crystals },
        2 => StoreItem { name: "Cargo +5", description: "Augmente la capacite de cargo", cost: 30, currency: StoreCurrency::Crystals },
        3 => StoreItem { name: "Depot Energie +10", description: "Augmente les depots d'energie", cost: 40, currency: StoreCurrency::Crystals },
        4 => StoreItem { name: "Depot Cristaux +10", description: "Augmente les depots de cristaux", cost: 40, currency: StoreCurrency::Crystals },
        _ => StoreItem { name: "Laser murs +1", description: "Augmente la puissance du laser", cost: 0, currency: StoreCurrency::Energy },
    }
}

/// Purchases already made of item `idx` (0 where no counter is kept).
pub open spec fn spec_upgrade_count(save: SaveData, idx: int) -> u32 {
    if 0 <= idx < save.upgrade_counts@.len() { save.upgrade_counts@[idx] } else { 0 }
}

/// Purchases already made of item `idx`.
pub fn upgrade_count(save: &SaveData, idx: usize) -> (r: u32)
    ensures
        r == spec_upgrade_count(*save, idx as int),
{
    if idx < save.upgrade_counts.len() {
        save.upgrade_counts[idx]
    } else {
        0
    }
}

/// The laser tier one purchase would unlock, capped at 3.
pub open spec fn next_power(save: SaveData) -> u8 {
    if save.wall_break_power + 1 > 3 { 3 } else { (save.wall_break_power + 1) as u8 }
}

/// Current price of item `idx`: the laser costs the use price of the next tier;
/// the others cost their base price times one more than the purchases made.
pub open spec fn spec_item_cost(idx: int, save: SaveData) -> int {
    if idx == WALL_BREAK_ITEM_IDX {
        spec_wall_break_energy_cost(next_power(save)) as int
    } else {
        base_cost(idx) * (spec_upgrade_count(save, idx) + 1)
    }
}

/// The price of item `idx` can be computed without overflow.
pub open spec fn cost_fits(idx: int, save: SaveData) -> bool {
    if idx == WALL_BREAK_ITEM_IDX {
        save.wall_break_power < 255
    } else {
        base_cost(idx) * (spec_upgrade_count(save, idx) + 1) <= u32::MAX
    }
}

/// Current price of item `idx`, which grows with each purchase.
pub fn item_cost(item_idx: usize, save: &SaveData) -> (r: u32)
    requires
        item_idx < STORE_ITEM_COUNT,
        cost_fits(item_idx as int, *save),
    ensures
        r == spec_item_cost(item_idx as int, *save),
{
    if item_idx == WALL_BREAK_ITEM_IDX {
        let next: u8 = if save.wall_break_power + 1 > 3 { 3 } else { save.wall_break_power + 1 };
        return wall_break_energy_cost(next);
    }
    let count: u32 = upgrade_count(save, item_idx);
    let base: u32 = store_item(item_idx).cost;
    proof {
        assert(base * (count + 1) <= u32::MAX);
    }
    base * (count + 1)
}

/// Item `idx` has reached its cap: 10 scouts, 10 collectors, a cargo of 50, a
/// laser of power 3; the deposit bonuses have none.
pub open spec fn spec_is_maxed(idx: int, save: SaveData) -> bool {
    if idx == 0 {
        save.num_scouts >= 10
    } else if idx == 1 {
        save.num_collectors >= 10
    } else if idx == 2 {
        save.carry_capacity >= 50
    } else if idx == WALL_BREAK_ITEM_IDX {
        save.wall_break_power >= 3
    } else {
        false
    }
}

/// Whether item `idx` has reached its cap.
pub fn is_maxed(item_idx: usize, save: &SaveData) -> (r: bool)
    ensures
        r == spec_is_maxed(item_idx as int, *save),
{
    match item_idx {
        0 => save.num_scouts >= 10,
        1 => save.num_collectors >= 10,
        2 => save.carry_capacity >= 50,
        5 => save.wall_break_power >= 3,
        _ => false,
    }
}

/// The balance item `idx` is paid from.
pub open spec fn balance(idx: int, save: SaveData) -> u32 {
    if spec_currency(idx) == StoreCurrency::Energy { save.total_energy } else { save.total_crystals }
}

/// Whether the balance in the item's currency covers its price.
pub fn can_afford(item_idx: usize, save: &SaveData) -> (r: bool)
    requires
        item_idx < STORE_ITEM_COUNT,
        cost_fits(item_idx as int, *save),
    ensures
        r == (balance(item_idx as int, *save) >= spec_item_cost(item_idx as int, *save)),
{
    let cost: u32 = item_cost(item_idx, save);
    match store_item(item_idx).currency {
        StoreCurrency::Energy => save.total_energy >= cost,
        StoreCurrency::Crystals => save.total_crystals >= cost,
    }
}

/// `b` is `a` after the purchase of item `idx`: the price is taken from the
/// item's balance, the item's counter goes up by one and its effect applies.
pub open spec fn purchased(idx: int, a: SaveData, b: SaveData) -> bool {
    let cost = spec_item_cost(idx, a);
    &&& (if spec_currency(idx) == StoreCurrency::Energy {
        b.total_energy == a.total_energy - cost && b.total_crystals == a.total_crystals
    } else {
        b.total_crystals == a.total_crystals - cost && b.total_energy == a.total_energy
    })
    &&& b.upgrade_counts@ == a.upgrade_counts@.update(idx, (a.upgrade_counts@[idx] + 1) as u32)
    &&& b.num_scouts == (if idx == 0 { if a.num_scouts + 1 > 10 { 10 } else { a.num_scouts + 1 } } else { a.num_scouts as int })
    &&& b.num_collectors == (if idx == 1 { if a.num_collectors + 1 > 10 { 10 } else { a.num_collectors + 1 } } else { a.num_collectors as int })
    &&& b.carry_capacity == (if idx == 2 { if a.carry_capacity + 5 > 50 { 50 } else { a.carry_capacity + 5 } } else { a.carry_capacity as int })
    &&& b.energy_bonus == (if idx == 3 { a.energy_bonus + 10 } else { a.energy_bonus as int })
    &&& b.crystal_bonus == (if idx == 4 { a.crystal_bonus + 10 } else { a.crystal_bonus as int })
    &&& b.wall_break_power == (if idx == WALL_BREAK_ITEM_IDX { next_power(a) } else { a.wall_break_power })
    &&& b.favorite_maps@ == a.favorite_maps@
}

/// A purchase of item `idx` has a counter to raise, and no counter would
/// overflow.
pub open spec fn purchase_fits(idx: int, save: SaveData) -> bool {
    &&& idx < save.upgrade_counts@.len()
    &&& save.upgrade_counts@[idx] < u32::MAX
    &&& (idx == 0 ==> save.num_scouts < usize::MAX)
    &&& (idx == 1 ==> save.num_collectors < usize::MAX)
    &&& (idx == 2 ==> save.carry_capacity + 5 <= u32::MAX)
    &&& (idx == 3 ==> save.energy_bonus + 10 <= u32::MAX)
    &&& (idx == 4 ==> save.crystal_bonus + 10 <= u32::MAX)
}

/// Tries to buy item `idx`: refused with `MaxedOut` at the cap, with
/// `InsufficientResources` when the balance does not cover the price (the save
/// is then unchanged); otherwise the purchase is made and `Bought` returned.
pub fn apply_upgrade(item_idx: usize, save: &mut SaveData) -> (r: PurchaseResult)
    requires
        item_idx < STORE_ITEM_COUNT,
        !spec_is_maxed(item_idx as int, *old(save)) ==> cost_fits(item_idx as int, *old(save)),
        !spec_is_maxed(item_idx as int, *old(save))
            && balance(item_idx as int, *old(save)) >= spec_item_cost(item_idx as int, *old(save))
            ==> purchase_fits(item_idx as int, *old(save)),
    ensures
        r == (if spec_is_maxed(item_idx as int, *old(save)) {
            PurchaseResult::MaxedOut
        } else if balance(item_idx as int, *old(save)) < spec_item_cost(item_idx as int, *old(save)) {
            PurchaseResult::InsufficientResources
        } else {
            PurchaseResult::Bought
        }),
        r == PurchaseResult::Bought ==> purchased(item_idx as int, *old(save), *final(save)),
        r != PurchaseResult::Bought ==> *final(save) == *old(save),
{
    if is_maxed(item_idx, save) {
        return PurchaseResult::MaxedOut;
    }
    if !can_afford(item_idx, save) {
        return PurchaseResult::InsufficientResources;
    }
    let cost: u32 = item_cost(item_idx, save);
    match store_item(item_idx).currency {
        StoreCurrency::Energy => {
            save.total_energy = save.total_energy - cost;
        }
        StoreCurrency::Crystals => {
            save.total_crystals = save.total_crystals - cost;
        }
    }
    let count: u32 = save.upgrade_counts[item_idx];
    save.upgrade_counts.set(item_idx, count + 1);
    match item_idx {
        0 => {
            save.num_scouts = if save.num_scouts + 1 > 10 { 10 } else { save.num_scouts + 1 };
        }
        1 => {
            save.num_collectors = if save.num_collectors + 1 > 10 { 10 } else { save.num_collectors + 1 };
        }
        2 => {
            save.carry_capacity = if save.carry_capacity + 5 > 50 { 50 } else { save.carry_capacity + 5 };
        }
        3 => {
            save.energy_bonus = save.energy_bonus + 10;
        }
        4 => {
            save.crystal_bonus = save.crystal_bonus + 10;
        }
        _ => {
            save.wall_break_power = if save.wall_break_power + 1 > 3 { 3 } else { save.wall_break_power + 1 };
        }
    }
    PurchaseResult::Bought
}

/// What a purchase does: its price leaves the balance of the item's currency
/// (crystals, energy for the laser) and nothing else is spent; the item's
/// counter goes up by one; and its effect applies: one more scout or collector
/// (up to 10), five more cargo (up to 50), ten more energy or crystal deposit
/// bonus, one more laser tier (up to 3). Everything else stays.
pub proof fn law_purchase_effect(idx: int, a: SaveData, b: SaveData)
    requires
        0 <= idx < STORE_ITEM_COUNT,
        idx < a.upgrade_counts@.len(),
        a.upgrade_counts@[idx] < u32::MAX,
        purchased(idx, a, b),
    ensures
        b.upgrade_counts@.len() == a.upgrade_counts@.len(),
        b.upgrade_counts@[idx] == a.upgrade_counts@[idx] + 1,
        forall|j: int| 0 <= j < a.upgrade_counts@.len() && j != idx ==> b.upgrade_counts@[j] == a.upgrade_counts@[j],
        idx < WALL_BREAK_ITEM_IDX ==> b.total_crystals + spec_item_cost(idx, a) == a.total_crystals
            && b.total_energy == a.total_energy,
        idx == WALL_BREAK_ITEM_IDX ==> b.total_energy + spec_item_cost(idx, a) == a.total_energy
            && b.total_crystals == a.total_crystals,
        b.num_scouts == (if idx == 0 && a.num_scouts < 10 { a.num_scouts + 1 } else if idx == 0 { 10 } else { a.num_scouts as int }),
        b.num_collectors == (if idx == 1 && a.num_collectors < 10 { a.num_collectors + 1 } else if idx == 1 { 10 } else { a.num_collectors as int }),
        b.carry_capacity == (if idx == 2 && a.carry_capacity < 45 { a.carry_capacity + 5 } else if idx == 2 { 50 } else { a.carry_capacity as int }),
        b.energy_bonus == a.energy_bonus + (if idx == 3 { 10int } else { 0int }),
        b.crystal_bonus == a.crystal_bonus + (if idx == 4 { 10int } else { 0int }),
        b.wall_break_power == (if idx == WALL_BREAK_ITEM_IDX && a.wall_break_power < 3 { a.wall_break_power + 1 } else if idx == WALL_BREAK_ITEM_IDX { 3 } else { a.wall_break_power as int }),
        b.favorite_maps@ == a.favorite_maps@,
{
}

/// Each purchase of an item other than the laser raises its next price by
/// its base price.
pub proof fn law_price_escalates(idx: int, a: SaveData, b: SaveData)
    requires
        0 <= idx < WALL_BREAK_ITEM_IDX,
        idx < a.upgrade_counts@.len(),
        purchased(idx, a, b),
    ensures
        spec_item_cost(idx, b) == spec_item_cost(idx, a) + base_cost(idx),
{
    assert(b.upgrade_counts@[idx] == a.upgrade_counts@[idx] + 1);
    assert(base_cost(idx) * (a.upgrade_counts@[idx] + 1 + 1) == base_cost(idx) * (a.upgrade_counts@[idx] + 1) + base_cost(idx)) by (nonlinear_arith);
}

/// Buying the laser raises its power by one tier, up to 3; its price is the
/// use price of the tier it unlocks.
pub proof fn law_laser_tier(a: SaveData, b: SaveData)
    requires
        1 <= a.wall_break_power < 3,
        purchased(WALL_BREAK_ITEM_IDX as int, a, b),
    ensures
        b.wall_break_power == a.wall_break_power + 1,
        spec_item_cost(WALL_BREAK_ITEM_IDX as int, a) == spec_wall_break_energy_cost(b.wall_break_power),
{
}

} // verus!
