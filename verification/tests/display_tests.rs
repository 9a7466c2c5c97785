//! Rendered forms of items, stacks and inventories.

use rust_inventory::inventory::Inventory;
use rust_inventory::items::{Item, ItemStack};

fn item(id: u64, name: &str) -> Item {
    Item::new(id, String::from(name))
}

#[test]
fn item_renders_as_its_name() {
    assert_eq!(item(1, "Tomato").display_string(), "Tomato");
}

#[test]
fn stack_render_right_justifies_small_quantities() {
    assert_eq!(ItemStack::new(item(1, "Tomato"), 1).display_string(), "( 1) Tomato");
    assert_eq!(ItemStack::new(item(1, "Tomato"), 9).display_string(), "( 9) Tomato");
}

#[test]
fn stack_render_keeps_wide_quantities_whole() {
    assert_eq!(ItemStack::new(item(1, "Tomato"), 10).display_string(), "(10) Tomato");
    assert_eq!(ItemStack::new(item(1, "Tomato"), 345).display_string(), "(345) Tomato");
}

#[test]
fn empty_inventory_renders_summary_line_only() {
    let inv = Inventory::new(4);
    assert_eq!(inv.display_string(), " -Used 0 of 4 slots\n");
}

#[test]
fn inventory_render_lists_slots_in_insertion_order() {
    let mut inv = Inventory::new(4);
    assert!(inv.add_items(ItemStack::new(item(1, "Tomato"), 2)));
    assert!(inv.add_items(ItemStack::new(item(2, "HP Potion"), 11)));
    let rendered = inv.display_string();
    assert_eq!(rendered, " -Used 2 of 4 slots\n  ( 2) Tomato\n  (11) HP Potion\n");
    // The stack renderings appear in insertion order, after a header that
    // carries "<used> of <capacity> slots".
    assert!(rendered.contains("2 of 4 slots"));
    let first = rendered.find("( 2) Tomato").unwrap();
    let second = rendered.find("(11) HP Potion").unwrap();
    assert!(first < second);
}

#[test]
fn merged_quantities_show_up_in_the_render() {
    let mut inv = Inventory::new(1);
    assert!(inv.add_items(ItemStack::new(item(1, "Tomato"), 4)));
    assert!(inv.add_items(ItemStack::new(item(1, "Tomato"), 8)));
    assert_eq!(inv.display_string(), " -Used 1 of 1 slots\n  (12) Tomato\n");
}
