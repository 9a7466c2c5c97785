//! Parsing of catalog lines and directive lines.

use rust_inventory::items::Item;
use rust_inventory::parser::{ParsedLine, Parser};

fn lines(raw: &[&str]) -> Vec<String> {
    raw.iter().map(|s| String::from(*s)).collect()
}

#[test]
fn inventory_start_directive_parses() {
    let parsed = Parser::read_inventory_lines(&lines(&["# 2"]));
    assert_eq!(parsed, vec![ParsedLine::InventoryLine { max_size: 2 }]);
}

#[test]
fn stack_directive_parses() {
    let parsed = Parser::read_inventory_lines(&lines(&["- 10 42"]));
    assert_eq!(parsed, vec![ParsedLine::ItemStackLine { id: 10, quantity: 42 }]);
}

#[test]
fn comment_directive_keeps_rejoined_text() {
    let parsed = Parser::read_inventory_lines(&lines(&["//   a   comment  "]));
    assert_eq!(parsed, vec![ParsedLine::CommentLine { raw_line: String::from("// a comment") }]);
}

#[test]
fn blank_line_is_invalid() {
    let parsed = Parser::read_inventory_lines(&lines(&["", "   \t "]));
    assert_eq!(
        parsed,
        vec![
            ParsedLine::InvalidLine { raw_line: String::new() },
            ParsedLine::InvalidLine { raw_line: String::new() },
        ]
    );
}

#[test]
fn unrecognized_leading_token_is_invalid() {
    let parsed = Parser::read_inventory_lines(&lines(&["x 1", "## 2"]));
    assert_eq!(
        parsed,
        vec![
            ParsedLine::InvalidLine { raw_line: String::from("x 1") },
            ParsedLine::InvalidLine { raw_line: String::from("## 2") },
        ]
    );
}

#[test]
fn non_numeric_capacity_is_invalid_not_a_crash() {
    let parsed = Parser::read_inventory_lines(&lines(&["# notanumber"]));
    assert_eq!(parsed, vec![ParsedLine::InvalidLine { raw_line: String::from("# notanumber") }]);
}

#[test]
fn stack_directive_with_missing_or_bad_numbers_is_invalid() {
    let parsed = Parser::read_inventory_lines(&lines(&["- 1", "- one 2", "- 1 two", "#"]));
    assert_eq!(
        parsed,
        vec![
            ParsedLine::InvalidLine { raw_line: String::from("- 1") },
            ParsedLine::InvalidLine { raw_line: String::from("- one 2") },
            ParsedLine::InvalidLine { raw_line: String::from("- 1 two") },
            ParsedLine::InvalidLine { raw_line: String::from("#") },
        ]
    );
}

#[test]
fn directives_tolerate_extra_whitespace() {
    let parsed = Parser::read_inventory_lines(&lines(&["  #   3 ", "\t-\t4\t5\t"]));
    assert_eq!(
        parsed,
        vec![
            ParsedLine::InventoryLine { max_size: 3 },
            ParsedLine::ItemStackLine { id: 4, quantity: 5 },
        ]
    );
}

#[test]
fn numbers_accept_a_leading_plus_sign() {
    let parsed = Parser::read_inventory_lines(&lines(&["# +7", "- +1 +2"]));
    assert_eq!(
        parsed,
        vec![
            ParsedLine::InventoryLine { max_size: 7 },
            ParsedLine::ItemStackLine { id: 1, quantity: 2 },
        ]
    );
}

#[test]
fn sixty_four_bit_ids_parse_and_larger_ones_do_not() {
    let parsed = Parser::read_inventory_lines(&lines(&[
        "- 18446744073709551615 1",
        "- 18446744073709551616 1",
    ]));
    assert_eq!(
        parsed,
        vec![
            ParsedLine::ItemStackLine { id: u64::MAX, quantity: 1 },
            ParsedLine::InvalidLine { raw_line: String::from("- 18446744073709551616 1") },
        ]
    );
}

#[test]
fn line_order_is_preserved() {
    let parsed = Parser::read_inventory_lines(&lines(&["# 1", "- 2 3", "// c"]));
    assert_eq!(parsed.len(), 3);
    assert!(matches!(parsed[0], ParsedLine::InventoryLine { .. }));
    assert!(matches!(parsed[1], ParsedLine::ItemStackLine { .. }));
    assert!(matches!(parsed[2], ParsedLine::CommentLine { .. }));
}

#[test]
fn catalog_lines_parse_into_items() {
    let items = Parser::read_items(&lines(&["0 Tomato", "1 HP Potion", "2  Iron   Sword "]));
    assert_eq!(
        items,
        vec![
            Item::new(0, String::from("Tomato")),
            Item::new(1, String::from("HP Potion")),
            Item::new(2, String::from("Iron Sword")),
        ]
    );
}

#[test]
fn catalog_lines_without_a_valid_id_are_skipped() {
    let items = Parser::read_items(&lines(&["", "x Tomato", "1 Potato"]));
    assert_eq!(items, vec![Item::new(1, String::from("Potato"))]);
}

#[test]
fn catalog_line_with_only_an_id_names_the_item_empty() {
    let items = Parser::read_items(&lines(&["5"]));
    assert_eq!(items, vec![Item::new(5, String::new())]);
}
