//! Behaviour of items, stacks and inventories.

use rust_inventory::inventory::Inventory;
use rust_inventory::items::{Item, ItemStack};

fn item(id: u64, name: &str) -> Item {
    Item::new(id, String::from(name))
}

#[test]
fn fresh_inventory_counts() {
    let inv = Inventory::new(4);
    assert_eq!(inv.utilized_slots(), 0);
    assert_eq!(inv.empty_slots(), 4);
    assert_eq!(inv.total_slots(), 4);
    assert!(inv.is_empty());
    assert!(!inv.is_full());
}

#[test]
fn fresh_inventory_of_capacity_zero_is_full() {
    let inv = Inventory::new(0);
    assert_eq!(inv.utilized_slots(), 0);
    assert_eq!(inv.empty_slots(), 0);
    assert!(inv.is_empty());
    assert!(inv.is_full());
}

#[test]
fn default_inventory_has_ten_slots() {
    let inv = Inventory::default();
    assert_eq!(inv.total_slots(), 10);
    assert!(inv.is_empty());
}

#[test]
fn adding_distinct_items_fills_slots_one_by_one() {
    let mut inv = Inventory::new(2);
    assert!(inv.add_items(ItemStack::new(item(1, "Tomato"), 1)));
    assert_eq!(inv.utilized_slots(), 1);
    assert!(inv.add_items(ItemStack::new(item(2, "Potato"), 2)));
    assert_eq!(inv.utilized_slots(), 2);
    assert!(inv.is_full());
}

#[test]
fn adding_a_new_item_when_full_fails_and_changes_nothing() {
    let mut inv = Inventory::new(2);
    assert!(inv.add_items(ItemStack::new(item(1, "Tomato"), 1)));
    assert!(inv.add_items(ItemStack::new(item(2, "Potato"), 2)));
    let before = inv.clone();
    assert!(!inv.add_items(ItemStack::new(item(3, "Carrot"), 3)));
    assert_eq!(inv, before);
    assert_eq!(inv.utilized_slots(), 2);
}

#[test]
fn adding_a_present_item_when_full_merges_into_its_slot() {
    let mut inv = Inventory::new(2);
    assert!(inv.add_items(ItemStack::new(item(1, "Tomato"), 1)));
    assert!(inv.add_items(ItemStack::new(item(2, "Potato"), 2)));
    assert!(inv.is_full());
    // Matching is by item identity, not by stack equality: the incoming
    // quantity differs from the stored one and still merges.
    assert!(inv.add_items(ItemStack::new(item(1, "Tomato"), 5)));
    assert_eq!(inv.utilized_slots(), 2);
    assert_eq!(inv.stack_at(0), &ItemStack::new(item(1, "Tomato"), 6));
    assert_eq!(inv.stack_at(1), &ItemStack::new(item(2, "Potato"), 2));
}

#[test]
fn items_equal_only_when_id_and_name_agree() {
    assert_eq!(item(1, "Tomato"), item(1, "Tomato"));
    assert_ne!(item(1, "Tomato"), item(2, "Tomato"));
    assert_ne!(item(1, "Tomato"), item(1, "Potato"));
}

#[test]
fn find_matching_item_stack_matches_by_item_identity() {
    let mut inv = Inventory::new(3);
    assert!(inv.add_items(ItemStack::new(item(1, "Tomato"), 4)));
    assert!(inv.add_items(ItemStack::new(item(2, "Potato"), 2)));
    // The probe's quantity does not matter, only its item.
    assert_eq!(inv.find_matching_item_stack(&ItemStack::new(item(2, "Potato"), 99)), Some(1));
    assert_eq!(inv.find_matching_item_stack(&ItemStack::new(item(3, "Carrot"), 2)), None);
    // An item with the same id but another name is a different item.
    assert_eq!(inv.find_matching_item_stack(&ItemStack::new(item(1, "Potato"), 4)), None);
}

#[test]
fn add_item_stack_no_check_appends_without_capacity_check() {
    let mut inv = Inventory::new(0);
    inv.add_item_stack_no_check(ItemStack::new(item(1, "Tomato"), 1));
    assert_eq!(inv.utilized_slots(), 1);
}

#[test]
fn stack_round_trip_matches_single_construction() {
    let base = item(7, "HP Potion");
    let mut grown = ItemStack::new(base.clone(), 2);
    grown.add_items(3);
    assert_eq!(grown, ItemStack::new(base, 5));
}

#[test]
fn merge_stacks_adds_right_quantity_into_left() {
    let mut lhs = ItemStack::new(item(1, "Tomato"), 2);
    let rhs = ItemStack::new(item(1, "Tomato"), 40);
    Inventory::merge_stacks(&mut lhs, rhs);
    assert_eq!(lhs.size(), 42);
}

#[test]
fn stack_accessors_report_construction_values() {
    let st = ItemStack::new(item(9, "Brick"), 64);
    assert_eq!(st.get_item(), &item(9, "Brick"));
    assert_eq!(st.size(), 64);
    assert!(st.permits_stacking());
}

#[test]
fn item_accessors_and_setters() {
    let mut it = item(3, "Carrot");
    assert_eq!(it.get_id(), 3);
    assert_eq!(it.get_name(), "Carrot");
    it.set_id(4);
    it.set_name(String::from("Golden Carrot"));
    assert_eq!(it.get_id(), 4);
    assert_eq!(it.get_name(), "Golden Carrot");
}

#[test]
fn default_item_is_air() {
    let it = Item::default();
    assert_eq!(it.get_id(), 0);
    assert_eq!(it.get_name(), "Air");
    let st = ItemStack::default();
    assert_eq!(st.size(), 0);
    assert_eq!(st.get_item().get_name(), "Air");
}

#[test]
fn would_overflow_detects_a_merge_past_the_machine_word() {
    let mut inv = Inventory::new(1);
    assert!(inv.add_items(ItemStack::new(item(1, "Tomato"), usize::MAX - 1)));
    assert!(!inv.would_overflow(&ItemStack::new(item(1, "Tomato"), 1)));
    assert!(inv.would_overflow(&ItemStack::new(item(1, "Tomato"), 2)));
    // A stack of an absent item never merges, so it cannot overflow.
    assert!(!inv.would_overflow(&ItemStack::new(item(2, "Potato"), usize::MAX)));
}
