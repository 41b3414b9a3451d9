use std::collections::BTreeMap;

use braillepcap::ui::{
    activity_color, braille_bit, braille_cell_masks, cell_mask, get_color_and_style, CellColor,
    GRID_COLS, REQ_COLS, REQ_ROWS,
};
use ratatui::style::{Color, Modifier, Style};

#[test]
fn color_mapping_tracks_relative_cell_activity_not_exact_pps() {
    assert_eq!(get_color_and_style(0), Style::default().fg(Color::Cyan));
    assert_eq!(get_color_and_style(6), Style::default().fg(Color::Green));
    assert_eq!(
        get_color_and_style(21),
        Style::default().fg(Color::Yellow).add_modifier(Modifier::BOLD)
    );
    assert_eq!(
        get_color_and_style(101),
        Style::default().fg(Color::Red).add_modifier(Modifier::BOLD)
    );
}

#[test]
fn color_thresholds_are_inclusive() {
    assert_eq!(activity_color(5), (CellColor::Cyan, false));
    assert_eq!(activity_color(20), (CellColor::Green, false));
    assert_eq!(activity_color(100), (CellColor::Yellow, true));
    assert_eq!(activity_color(usize::MAX), (CellColor::Red, true));
    assert_eq!(get_color_and_style(5), Style::default().fg(Color::Cyan));
    assert_eq!(get_color_and_style(20), Style::default().fg(Color::Green));
    assert_eq!(
        get_color_and_style(100),
        Style::default().fg(Color::Yellow).add_modifier(Modifier::BOLD)
    );
}

#[test]
fn braille_bits_follow_the_unicode_dot_numbering() {
    let expected = [[0x01, 0x08], [0x02, 0x10], [0x04, 0x20], [0x40, 0x80]];
    for (y, row) in expected.iter().enumerate() {
        for (x, bit) in row.iter().enumerate() {
            assert_eq!(braille_bit(y, x), *bit);
        }
    }
}

#[test]
fn braille_masks_combine_the_dots_of_each_cell() {
    let dots = BTreeMap::from([((0, 0), 1), ((3, 1), 2), ((4, 2), 1), ((255, 255), 9)]);
    let masks = braille_cell_masks(&dots);
    assert_eq!(masks.len(), 3);
    assert_eq!(masks.get(&(0, 0)), Some(&(0x01 | 0x80)));
    assert_eq!(masks.get(&(1, 1)), Some(&0x01));
    assert_eq!(masks.get(&(127, 63)), Some(&0x80));
    assert_eq!(cell_mask(&dots, 0, 0), 0x81);
    assert_eq!(cell_mask(&dots, 5, 5), 0);
}

#[test]
fn the_terminal_must_be_at_least_134_by_63() {
    assert_eq!(REQ_COLS, 134);
    assert_eq!(REQ_ROWS, 63);
}

#[test]
fn grid_separators_every_32_columns_of_octets() {
    assert_eq!(GRID_COLS, [16, 32, 48, 64, 80, 96, 112]);
}
