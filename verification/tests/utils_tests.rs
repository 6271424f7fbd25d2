use wizard_tactics::grid::TileKind;
use wizard_tactics::utils::{pad_string_left, pad_string_right};

#[test]
fn right_padding_fills_to_width() {
    let mut s = String::from("42:");
    pad_string_right(&mut s, 8);
    assert_eq!(s, "42:     ");
}

#[test]
fn right_padding_leaves_wide_strings() {
    let mut s = String::from("already long");
    pad_string_right(&mut s, 4);
    assert_eq!(s, "already long");
}

#[test]
fn left_padding_fills_to_width() {
    let mut s = String::from("7");
    pad_string_left(&mut s, 3);
    assert_eq!(s, "  7");
}

#[test]
fn left_padding_of_exact_width_changes_nothing() {
    let mut s = String::from("abc");
    pad_string_left(&mut s, 3);
    assert_eq!(s, "abc");
}

#[test]
fn cell_values_classify_tiles() {
    assert_eq!(TileKind::from_cell_value(1), TileKind::Open);
    assert_eq!(TileKind::from_cell_value(2), TileKind::Wall);
    assert_eq!(TileKind::from_cell_value(3), TileKind::Floor);
    assert_eq!(TileKind::from_cell_value(0), TileKind::Floor);
    assert_eq!(TileKind::from_cell_value(-5), TileKind::Floor);
    assert_eq!(TileKind::default(), TileKind::Floor);
}
