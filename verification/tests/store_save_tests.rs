use resource_simulation::map::{GridMap, Tile};
use resource_simulation::pos_map::PosMap;
use resource_simulation::save::bank_earnings;
use resource_simulation::simulation::SimState;
use resource_simulation::config::{build_config, Priority};
use resource_simulation::levels::level_def;
use resource_simulation::save::{default_upgrade_counts, default_wall_break_power, FavoriteMap, SaveData};
use resource_simulation::store::{
    apply_upgrade, can_afford, is_maxed, item_cost, store_item, PurchaseResult, StoreCurrency,
};

#[test]
fn fresh_save_defaults() {
    let s = SaveData::default();
    assert_eq!(s.num_scouts, 2);
    assert_eq!(s.num_collectors, 2);
    assert_eq!(s.carry_capacity, 5);
    assert_eq!(s.wall_break_power, 1);
    assert_eq!(s.upgrade_counts, vec![0; 6]);
    assert!(s.favorite_maps.is_empty());
    assert_eq!(default_wall_break_power(), 1);
    assert_eq!(default_upgrade_counts(), vec![0; 6]);
}

#[test]
fn normalize_repairs_power_and_counters() {
    let mut s = SaveData::default();
    s.wall_break_power = 0;
    s.upgrade_counts = vec![4, 2];
    s.normalize();
    assert_eq!(s.wall_break_power, 1);
    assert_eq!(s.upgrade_counts, vec![4, 2, 0, 0, 0, 0]);
    s.wall_break_power = 9;
    s.upgrade_counts = vec![1; 8];
    s.normalize();
    assert_eq!(s.wall_break_power, 3);
    assert_eq!(s.upgrade_counts, vec![1; 8]);
}

#[test]
fn load_from_nothing_is_a_fresh_save() {
    let s = SaveData::load_from(None);
    assert_eq!(s.total_crystals, 0);
    assert_eq!(s.upgrade_counts, vec![0; 6]);
    let mut old = SaveData::default();
    old.total_energy = 77;
    old.wall_break_power = 5;
    old.upgrade_counts = vec![];
    let s2 = SaveData::load_from(Some(old));
    assert_eq!(s2.total_energy, 77);
    assert_eq!(s2.wall_break_power, 3);
    assert_eq!(s2.upgrade_counts.len(), 6);
}

#[test]
fn favorites_toggle() {
    let mut s = SaveData::default();
    assert!(!s.is_favorite(12));
    assert!(s.toggle_favorite(2, 12));
    assert!(s.is_favorite(12));
    assert_eq!(s.favorite_maps, vec![FavoriteMap { seed: 12, level: 2 }]);
    assert!(s.toggle_favorite(0, 99));
    assert!(!s.toggle_favorite(4, 12));
    assert!(!s.is_favorite(12));
    assert_eq!(s.favorite_maps, vec![FavoriteMap { seed: 99, level: 0 }]);
}

#[test]
fn prices_escalate_with_purchases() {
    let mut s = SaveData::default();
    assert_eq!(item_cost(0, &s), 50);
    assert_eq!(item_cost(1, &s), 75);
    assert_eq!(item_cost(2, &s), 30);
    assert_eq!(item_cost(3, &s), 40);
    assert_eq!(item_cost(4, &s), 40);
    assert_eq!(item_cost(5, &s), 150);
    s.upgrade_counts[0] = 2;
    assert_eq!(item_cost(0, &s), 150);
    s.wall_break_power = 3;
    assert_eq!(item_cost(5, &s), 350);
}

#[test]
fn purchase_outcomes() {
    let mut s = SaveData::default();
    assert_eq!(apply_upgrade(0, &mut s), PurchaseResult::InsufficientResources);
    assert_eq!(s.num_scouts, 2);
    s.total_crystals = 130;
    assert!(can_afford(0, &s));
    assert_eq!(apply_upgrade(0, &mut s), PurchaseResult::Bought);
    assert_eq!(s.num_scouts, 3);
    assert_eq!(s.total_crystals, 80);
    assert_eq!(s.upgrade_counts[0], 1);
    assert_eq!(item_cost(0, &s), 100);
    assert_eq!(apply_upgrade(0, &mut s), PurchaseResult::InsufficientResources);
    assert_eq!(apply_upgrade(2, &mut s), PurchaseResult::Bought);
    assert_eq!(s.carry_capacity, 10);
    assert_eq!(s.total_crystals, 50);
    assert_eq!(apply_upgrade(3, &mut s), PurchaseResult::Bought);
    assert_eq!(s.energy_bonus, 10);
    assert_eq!(s.total_crystals, 10);
}

#[test]
fn maxed_items_are_refused() {
    let mut s = SaveData::default();
    s.total_crystals = 10_000;
    s.num_collectors = 10;
    assert!(is_maxed(1, &s));
    assert_eq!(apply_upgrade(1, &mut s), PurchaseResult::MaxedOut);
    assert_eq!(s.total_crystals, 10_000);
    s.carry_capacity = 48;
    assert_eq!(apply_upgrade(2, &mut s), PurchaseResult::Bought);
    assert_eq!(s.carry_capacity, 50);
    assert!(is_maxed(2, &s));
    assert!(!is_maxed(3, &s));
    assert!(!is_maxed(4, &s));
}

#[test]
fn laser_is_paid_in_energy_by_tier() {
    let mut s = SaveData::default();
    assert_eq!(store_item(5).currency, StoreCurrency::Energy);
    assert_eq!(store_item(0).currency, StoreCurrency::Crystals);
    s.total_crystals = 1000;
    assert_eq!(apply_upgrade(5, &mut s), PurchaseResult::InsufficientResources);
    s.total_energy = 500;
    assert_eq!(apply_upgrade(5, &mut s), PurchaseResult::Bought);
    assert_eq!(s.wall_break_power, 2);
    assert_eq!(s.total_energy, 350);
    assert_eq!(apply_upgrade(5, &mut s), PurchaseResult::Bought);
    assert_eq!(s.wall_break_power, 3);
    assert_eq!(s.total_energy, 0);
    assert_eq!(apply_upgrade(5, &mut s), PurchaseResult::MaxedOut);
    assert_eq!(s.total_crystals, 1000);
}

#[test]
fn config_combines_level_and_save() {
    let mut s = SaveData::default();
    s.energy_bonus = 10;
    s.crystal_bonus = 20;
    s.wall_break_power = 2;
    let c = build_config(1, &s);
    assert_eq!(c.energy_min, 40);
    assert_eq!(c.energy_max, 60);
    assert_eq!(c.crystal_min, 50);
    assert_eq!(c.crystal_max, 70);
    assert_eq!(c.num_scouts, 2);
    assert_eq!(c.carry_capacity, 5);
    assert_eq!(c.wall_break_power, 2);
    assert_eq!(c.priority, Priority::Nearest);
}

#[test]
fn level_table_and_labels() {
    assert_eq!(level_def(0).subtitle, "Initiation");
    assert_eq!(level_def(4).subtitle, "Ultra");
    assert_eq!(level_def(4).energy_max, 500);
    assert_eq!(level_def(2).crystal_min, 60);
    assert_eq!(Priority::Nearest.label(), "Nearest");
    assert_eq!(Priority::Energy.label(), "Energy first");
    assert_eq!(Priority::Crystal.label(), "Crystal first");
}

#[test]
fn toggling_twice_restores_the_favorites() {
    let mut s = SaveData::default();
    s.toggle_favorite(1, 5);
    let before = s.favorite_maps.clone();
    assert!(s.toggle_favorite(3, 8));
    assert!(!s.toggle_favorite(3, 8));
    assert_eq!(s.favorite_maps, before);
}

#[test]
fn normalize_twice_changes_nothing_more() {
    let mut s = SaveData::default();
    s.wall_break_power = 200;
    s.upgrade_counts = vec![3];
    s.normalize();
    let once = s.clone();
    s.normalize();
    assert_eq!(s.wall_break_power, once.wall_break_power);
    assert_eq!(s.upgrade_counts, once.upgrade_counts);
}

#[test]
fn each_purchase_adds_the_base_price() {
    let mut s = SaveData::default();
    s.total_crystals = 10_000;
    let mut last = item_cost(1, &s);
    for _ in 0..4 {
        assert_eq!(apply_upgrade(1, &mut s), PurchaseResult::Bought);
        let now = item_cost(1, &s);
        assert_eq!(now, last + 75);
        last = now;
    }
    assert_eq!(s.num_collectors, 6);
}

#[test]
fn banking_adds_energy_left_and_crystals() {
    let map = GridMap { width: 1, height: 1, tiles: vec![vec![Tile::Empty]] };
    let mut st = SimState::new(map, PosMap::new(), 1);
    st.available_energy = 30;
    st.collected_energy = 80;
    st.collected_crystals = 12;
    let mut s = SaveData::default();
    s.total_energy = 5;
    assert_eq!(bank_earnings(&mut s, &st), (30, 12));
    assert_eq!(s.total_energy, 35);
    assert_eq!(s.total_crystals, 12);
}

#[test]
fn refusals_need_no_counter_slot() {
    let mut s = SaveData::default();
    s.upgrade_counts.clear();
    s.num_scouts = 10;
    assert_eq!(apply_upgrade(0, &mut s), PurchaseResult::MaxedOut);
    assert_eq!(apply_upgrade(1, &mut s), PurchaseResult::InsufficientResources);
    assert!(s.upgrade_counts.is_empty());
    assert_eq!(apply_upgrade(5, &mut s), PurchaseResult::InsufficientResources);
    assert_eq!(s.wall_break_power, 1);
}
