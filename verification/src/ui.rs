//! Drawing decisions: terminal size needs, activity shades and colours, and
//! the Braille dot patterns of the grid.

use vstd::prelude::*;

use ratatui::style::{Color, Modifier, Style};
use std::collections::BTreeMap;
use vstd::std_specs::iter::IteratorSpec;

use crate::activity::cell_of;

verus! {

/// The minimum terminal width, in columns, that the grid needs.
pub const REQ_COLS: u16 = 134;

/// The minimum terminal height, in rows, that the grid needs.
pub const REQ_ROWS: u16 = 63;

/// The grid columns (in Braille cells) after which a separator is drawn:
/// every 32 second-octet values.
pub const GRID_COLS: [usize; 7] = [16, 32, 48, 64, 80, 96, 112];

#[verifier::external_type_specification]
#[verifier::external_body]
pub struct ExStyle(Style);

/// The colours that the activity scale uses.
#[derive(Debug, Clone, Copy, PartialEq, Eq)]
pub enum CellColor {
    Cyan,
    Green,
    Yellow,
    Red,
}

/// The style with foreground `color` and nothing else set.
pub uninterp spec fn foreground_style(color: CellColor) -> Style;

/// The style with foreground `color` in bold and nothing else set.
pub uninterp spec fn bold_foreground_style(color: CellColor) -> Style;

/// Calls `Style::default().fg(..)` from ratatui with the ratatui colour of the
/// same name; claims that the result depends on the colour alone.
#[verifier::external_body]
fn fg_style(color: CellColor) -> (s: Style)
    ensures
        s == foreground_style(color),
{
    Style::default().fg(
        match color {
            CellColor::Cyan => Color::Cyan,
            CellColor::Green => Color::Green,
            CellColor::Yellow => Color::Yellow,
            CellColor::Red => Color::Red,
        },
    )
}

/// Calls `Style::default().fg(..).add_modifier(Modifier::BOLD)` from ratatui
/// with the ratatui colour of the same name; claims that the result depends
/// on the colour alone.
#[verifier::external_body]
fn bold_fg_style(color: CellColor) -> (s: Style)
    ensures
        s == bold_foreground_style(color),
{
    Style::default().fg(
        match color {
            CellColor::Cyan => Color::Cyan,
            CellColor::Green => Color::Green,
            CellColor::Yellow => Color::Yellow,
            CellColor::Red => Color::Red,
        },
    ).add_modifier(Modifier::BOLD)
}

/// The colour, and whether it is bold, that marks a Braille cell with the
/// given packet activity in the current hold window: cyan up to 5, green up
/// to 20, bold yellow up to 100, bold red above.
pub open spec fn activity_shade(cell_activity: usize) -> (CellColor, bool) {
    if cell_activity <= 5 {
        (CellColor::Cyan, false)
    } else if cell_activity <= 20 {
        (CellColor::Green, false)
    } else if cell_activity <= 100 {
        (CellColor::Yellow, true)
    } else {
        (CellColor::Red, true)
    }
}

/// The colour legend: up to 5 packets cyan, 6 to 20 green, 21 to 100 bold
/// yellow, 101 and more bold red; and more activity never gives a cooler
/// colour or drops the bold.
pub proof fn lemma_colour_legend(a: usize, b: usize)
    ensures
        a <= 5 ==> activity_shade(a) == (CellColor::Cyan, false),
        6 <= a <= 20 ==> activity_shade(a) == (CellColor::Green, false),
        21 <= a <= 100 ==> activity_shade(a) == (CellColor::Yellow, true),
        101 <= a ==> activity_shade(a) == (CellColor::Red, true),
        a <= b && activity_shade(a).1 ==> activity_shade(b).1,
        a <= b && activity_shade(b).0 == CellColor::Cyan ==> activity_shade(a).0 == CellColor::Cyan,
{
}

/// The colour and boldness for a cell with the given activity score.
pub fn activity_color(cell_activity: usize) -> (r: (CellColor, bool))
    ensures
        r == activity_shade(cell_activity),
{
    if cell_activity <= 5 {
        (CellColor::Cyan, false)
    } else if cell_activity <= 20 {
        (CellColor::Green, false)
    } else if cell_activity <= 100 {
        (CellColor::Yellow, true)
    } else {
        (CellColor::Red, true)
    }
}

/// The terminal style that `get_color_and_style` gives a cell with the given activity.
pub open spec fn activity_style(cell_activity: usize) -> Style {
    let (color, bold) = activity_shade(cell_activity);
    if bold {
        bold_foreground_style(color)
    } else {
        foreground_style(color)
    }
}

/// Determines the terminal display style from the packet activity score of a
/// Braille cell. This is a relative intensity measure for the current hold
/// window, not an exact per-/24 packets-per-second figure.
pub fn get_color_and_style(cell_activity: usize) -> (s: Style)
    ensures
        s == activity_style(cell_activity),
{
    let (color, bold) = activity_color(cell_activity);
    if bold {
        bold_fg_style(color)
    } else {
        fg_style(color)
    }
}

/// The bit of a Braille pattern (block U+2800) that shows the dot at
/// sub-row `sub_y` (0..4) and sub-column `sub_x` (0..2) of a character.
pub open spec fn braille_dot_bit(sub_y: int, sub_x: int) -> u16 {
    if sub_x == 0 {
        if sub_y == 0 {
            0x01
        } else if sub_y == 1 {
            0x02
        } else if sub_y == 2 {
            0x04
        } else {
            0x40
        }
    } else {
        if sub_y == 0 {
            0x08
        } else if sub_y == 1 {
            0x10
        } else if sub_y == 2 {
            0x20
        } else {
            0x80
        }
    }
}

/// The Braille pattern bit for the dot at sub-row `sub_y`, sub-column `sub_x`.
pub fn braille_bit(sub_y: usize, sub_x: usize) -> (b: u16)
    requires
        sub_y < 4,
        sub_x < 2,
    ensures
        b == braille_dot_bit(sub_y as int, sub_x as int),
{
    if sub_x == 0 {
        if sub_y == 0 {
            0x01
        } else if sub_y == 1 {
            0x02
        } else if sub_y == 2 {
            0x04
        } else {
            0x40
        }
    } else {
        if sub_y == 0 {
            0x08
        } else if sub_y == 1 {
            0x10
        } else if sub_y == 2 {
            0x20
        } else {
            0x80
        }
    }
}

/// The pattern bit of one dot position of cell (`cx`, `cy`), if that dot is active.
pub open spec fn dot_bit(dots: Map<(u8, u8), usize>, cx: int, cy: int, sub_y: int, sub_x: int) -> int {
    if dots.contains_key(((4 * cy + sub_y) as u8, (2 * cx + sub_x) as u8)) {
        braille_dot_bit(sub_y, sub_x) as int
    } else {
        0
    }
}

/// The Braille pattern of cell (`cx`, `cy`): the bits of its eight dot
/// positions (rows `4 * cy ..`, columns `2 * cx ..` of the grid) that are active.
pub open spec fn cell_pattern(dots: Map<(u8, u8), usize>, cx: int, cy: int) -> int {
    dot_bit(dots, cx, cy, 0, 0) + dot_bit(dots, cx, cy, 1, 0) + dot_bit(dots, cx, cy, 2, 0)
        + dot_bit(dots, cx, cy, 3, 0) + dot_bit(dots, cx, cy, 0, 1) + dot_bit(dots, cx, cy, 1, 1)
        + dot_bit(dots, cx, cy, 2, 1) + dot_bit(dots, cx, cy, 3, 1)
}

/// The pattern bit of one dot position of a cell, if that dot is active.
fn dot_bit_of(dots: &BTreeMap<(u8, u8), usize>, cx: usize, cy: usize, sub_y: usize, sub_x: usize) -> (r:
    u16)
    requires
        cx < 128,
        cy < 64,
        sub_y < 4,
        sub_x < 2,
    ensures
        r == dot_bit(dots@, cx as int, cy as int, sub_y as int, sub_x as int),
{
    let key = ((4 * cy + sub_y) as u8, (2 * cx + sub_x) as u8);
    if dots.contains_key(&key) {
        braille_bit(sub_y, sub_x)
    } else {
        0
    }
}

/// The bit of a Braille character (U+2800 plus the pattern) that shows the
/// dot in sub-row `sy` and sub-column `sx`: dots 1 to 3 of the left column
/// are bits 0 to 2, dots 4 to 6 of the right column bits 3 to 5, and the
/// bottom row is bit 6 (left) and bit 7 (right).
pub open spec fn position_bit(sy: u16, sx: u16) -> u16 {
    if sy == 3 {
        (0x40u16 << sx) as u16
    } else {
        (1u16 << (sy + 3 * sx) as u16) as u16
    }
}

/// A pattern made of the eight position bits, each present or not, has each
/// position bit set exactly when that position is present.
proof fn lemma_pattern_bits(b0: bool, b1: bool, b2: bool, b3: bool, b4: bool, b5: bool, b6: bool, b7: bool)
    ensures
        ({
            let m: u16 = ((if b0 { 1u16 } else { 0u16 }) + (if b1 { 2u16 } else { 0u16 }) + (if b2 {
                4u16
            } else {
                0u16
            }) + (if b3 { 0x40u16 } else { 0u16 }) + (if b4 { 8u16 } else { 0u16 }) + (if b5 {
                0x10u16
            } else {
                0u16
            }) + (if b6 { 0x20u16 } else { 0u16 }) + (if b7 { 0x80u16 } else { 0u16 })) as u16;
            &&& (m & 1u16 != 0) == b0
            &&& (m & 2u16 != 0) == b1
            &&& (m & 4u16 != 0) == b2
            &&& (m & 0x40u16 != 0) == b3
            &&& (m & 8u16 != 0) == b4
            &&& (m & 0x10u16 != 0) == b5
            &&& (m & 0x20u16 != 0) == b6
            &&& (m & 0x80u16 != 0) == b7
        }),
{
    let m: u16 = ((if b0 { 1u16 } else { 0u16 }) + (if b1 { 2u16 } else { 0u16 }) + (if b2 {
        4u16
    } else {
        0u16
    }) + (if b3 { 0x40u16 } else { 0u16 }) + (if b4 { 8u16 } else { 0u16 }) + (if b5 {
        0x10u16
    } else {
        0u16
    }) + (if b6 { 0x20u16 } else { 0u16 }) + (if b7 { 0x80u16 } else { 0u16 })) as u16;
    assert((m & 1u16 != 0) == b0 && (m & 2u16 != 0) == b1 && (m & 4u16 != 0) == b2 && (m & 0x40u16
        != 0) == b3 && (m & 8u16 != 0) == b4 && (m & 0x10u16 != 0) == b5 && (m & 0x20u16 != 0)
        == b6 && (m & 0x80u16 != 0) == b7) by (bit_vector)
        requires
            m == ((if b0 { 1u16 } else { 0u16 }) + (if b1 { 2u16 } else { 0u16 }) + (if b2 {
                4u16
            } else {
                0u16
            }) + (if b3 { 0x40u16 } else { 0u16 }) + (if b4 { 8u16 } else { 0u16 }) + (if b5 {
                0x10u16
            } else {
                0u16
            }) + (if b6 { 0x20u16 } else { 0u16 }) + (if b7 { 0x80u16 } else { 0u16 })) as u16,
    ;
}

/// The pattern of a cell lights exactly its active dots: for each sub-row
/// `sy` and sub-column `sx`, the position bit is set in the pattern of cell
/// (`cx`, `cy`) if and only if the dot (`4 * cy + sy`, `2 * cx + sx`) is active.
pub proof fn lemma_pattern_lights_active_dots(dots: Map<(u8, u8), usize>, cx: int, cy: int)
    requires
        0 <= cx < 128,
        0 <= cy < 64,
    ensures
        cell_pattern(dots, cx, cy) <= 0xFF,
        forall|sy: u16, sx: u16|
            sy < 4 && sx < 2 ==> ((cell_pattern(dots, cx, cy) as u16 & #[trigger] position_bit(sy, sx))
                != 0 <==> dots.contains_key(((4 * cy + sy) as u8, (2 * cx + sx) as u8))),
{
    let k = |sy: int, sx: int| ((4 * cy + sy) as u8, (2 * cx + sx) as u8);
    let b0 = dots.contains_key(k(0, 0));
    let b1 = dots.contains_key(k(1, 0));
    let b2 = dots.contains_key(k(2, 0));
    let b3 = dots.contains_key(k(3, 0));
    let b4 = dots.contains_key(k(0, 1));
    let b5 = dots.contains_key(k(1, 1));
    let b6 = dots.contains_key(k(2, 1));
    let b7 = dots.contains_key(k(3, 1));
    lemma_pattern_bits(b0, b1, b2, b3, b4, b5, b6, b7);
    assert(position_bit(0, 0) == 1) by (bit_vector);
    assert(position_bit(1, 0) == 2) by (bit_vector);
    assert(position_bit(2, 0) == 4) by (bit_vector);
    assert(position_bit(3, 0) == 0x40) by (bit_vector);
    assert(position_bit(0, 1) == 8) by (bit_vector);
    assert(position_bit(1, 1) == 0x10) by (bit_vector);
    assert(position_bit(2, 1) == 0x20) by (bit_vector);
    assert(position_bit(3, 1) == 0x80) by (bit_vector);
}

/// The Braille pattern of cell (`cx`, `cy`).
pub fn cell_mask(dots: &BTreeMap<(u8, u8), usize>, cx: usize, cy: usize) -> (m: u16)
    requires
        cx < 128,
        cy < 64,
    ensures
        m == cell_pattern(dots@, cx as int, cy as int),
        m <= 0xFF,
        forall|sy: u16, sx: u16|
            sy < 4 && sx < 2 ==> ((m & #[trigger] position_bit(sy, sx)) != 0 <==> dots@.contains_key(
                ((4 * cy + sy) as u8, (2 * cx + sx) as u8),
            )),
{
    proof {
        lemma_pattern_lights_active_dots(dots@, cx as int, cy as int);
    }
    dot_bit_of(dots, cx, cy, 0, 0) + dot_bit_of(dots, cx, cy, 1, 0) + dot_bit_of(dots, cx, cy, 2, 0)
        + dot_bit_of(dots, cx, cy, 3, 0) + dot_bit_of(dots, cx, cy, 0, 1) + dot_bit_of(
        dots,
        cx,
        cy,
        1,
        1,
    ) + dot_bit_of(dots, cx, cy, 2, 1) + dot_bit_of(dots, cx, cy, 3, 1)
}

/// Whether some active dot falls in cell `c`.
pub open spec fn cell_is_active(dots: Map<(u8, u8), usize>, c: (usize, usize)) -> bool {
    exists|d: (u8, u8)| #[trigger] dots.contains_key(d) && cell_of(d.0, d.1) == c
}

/// The Braille pattern of every cell that holds an active dot.
pub fn braille_cell_masks(dots: &BTreeMap<(u8, u8), usize>) -> (r: BTreeMap<(usize, usize), u16>)
    ensures
        forall|c: (usize, usize)| #[trigger] r@.contains_key(c) <==> cell_is_active(dots@, c),
        forall|c: (usize, usize)|
            #[trigger] r@.contains_key(c) ==> r@[c] == cell_pattern(dots@, c.0 as int, c.1 as int),
        forall|d: (u8, u8)|
            #[trigger] dots@.contains_key(d) ==> r@.contains_key(((d.1 / 2) as usize, (d.0 / 4) as usize))
                && (r@[((d.1 / 2) as usize, (d.0 / 4) as usize)] & position_bit(
                (d.0 % 4) as u16,
                (d.1 % 2) as u16,
            )) != 0,
        forall|c: (usize, usize), sy: u16, sx: u16|
            sy < 4 && sx < 2 && #[trigger] r@.contains_key(c) && (r@[c] & #[trigger] position_bit(
                sy,
                sx,
            )) != 0 ==> dots@.contains_key(((4 * c.1 + sy) as u8, (2 * c.0 + sx) as u8)),        forall|c: (usize, usize)| #[trigger] r@.contains_key(c) ==> r@[c] != 0 && c.0 < 128 && c.1 < 64,
{
    let mut masks: BTreeMap<(usize, usize), u16> = BTreeMap::new();
    let ghost entries = dots.iter().remaining();
    let ghost keys = entries.map_values(|e: (&(u8, u8), &usize)| *e.0);
    for entry in it: dots.iter()
        invariant
            it.seq() == entries,
            keys == entries.map_values(|e: (&(u8, u8), &usize)| *e.0),
            forall|c: (usize, usize)| #[trigger]
                masks@.contains_key(c) <==> exists|j: int|
                    0 <= j < it.index() && cell_of(#[trigger] keys[j].0, keys[j].1) == c,
            forall|c: (usize, usize)|
                #[trigger] masks@.contains_key(c) ==> masks@[c] == cell_pattern(
                    dots@,
                    c.0 as int,
                    c.1 as int,
                ),
    {
        let (key, _count) = entry;
        let ghost idx: int = it.index();
        assert(keys[idx] == *key);
        let cell = ((key.1 / 2) as usize, (key.0 / 4) as usize);
        if !masks.contains_key(&cell) {
            let m = cell_mask(dots, cell.0, cell.1);
            masks.insert(cell, m);
        }
        assert forall|c: (usize, usize)| #[trigger] masks@.contains_key(c) <==> exists|j: int|
            0 <= j < idx + 1 && cell_of(#[trigger] keys[j].0, keys[j].1) == c by {
            if c == cell {
                assert(cell_of(keys[idx].0, keys[idx].1) == c);
            }
        }
    }
    assert forall|c: (usize, usize)| #[trigger]
        masks@.contains_key(c) <==> cell_is_active(dots@, c) by {
        if masks@.contains_key(c) {
            let j = choose|j: int| 0 <= j < keys.len() && cell_of(#[trigger] keys[j].0, keys[j].1) == c;
            assert(dots@.contains_key(*entries[j].0));
            assert(dots@.contains_key(keys[j]));
        }
        if cell_is_active(dots@, c) {
            let d = choose|d: (u8, u8)| #[trigger] dots@.contains_key(d) && cell_of(d.0, d.1) == c;
            assert(entries.contains((&d, &dots@[d])));
            let j = choose|j: int| 0 <= j < entries.len() && #[trigger] entries[j] == (&d, &dots@[d]);
            assert(keys[j] == d);
            assert(cell_of(keys[j].0, keys[j].1) == c);
        }
    }
    assert forall|d: (u8, u8)| #[trigger] dots@.contains_key(d) implies masks@.contains_key(
        ((d.1 / 2) as usize, (d.0 / 4) as usize),
    ) && (masks@[((d.1 / 2) as usize, (d.0 / 4) as usize)] & position_bit(
        (d.0 % 4) as u16,
        (d.1 % 2) as u16,
    )) != 0 by {
        let c = cell_of(d.0, d.1);
        assert(cell_is_active(dots@, c));
        lemma_pattern_lights_active_dots(dots@, c.0 as int, c.1 as int);
        let sy = (d.0 % 4) as u16;
        let sx = (d.1 % 2) as u16;
        assert(((4 * c.1 + sy) as u8, (2 * c.0 + sx) as u8) == d);
        assert(masks@.contains_key(c));
        assert(masks@[c] == cell_pattern(dots@, c.0 as int, c.1 as int));
        assert(cell_pattern(dots@, c.0 as int, c.1 as int) as u16 == masks@[c]);
        assert((cell_pattern(dots@, c.0 as int, c.1 as int) as u16 & position_bit(sy, sx)) != 0);
    }
    assert forall|c: (usize, usize), sy: u16, sx: u16|
        sy < 4 && sx < 2 && #[trigger] masks@.contains_key(c) && (masks@[c] & #[trigger] position_bit(
            sy,
            sx,
        )) != 0 implies dots@.contains_key(((4 * c.1 + sy) as u8, (2 * c.0 + sx) as u8)) by {
        let d = choose|d: (u8, u8)| #[trigger] dots@.contains_key(d) && cell_of(d.0, d.1) == c;
        lemma_pattern_lights_active_dots(dots@, c.0 as int, c.1 as int);
        assert(masks@[c] == cell_pattern(dots@, c.0 as int, c.1 as int));
        assert(cell_pattern(dots@, c.0 as int, c.1 as int) as u16 == masks@[c]);
    }
    assert forall|c: (usize, usize)| #[trigger] masks@.contains_key(c) implies masks@[c] != 0 && c.0
        < 128 && c.1 < 64 by {
        let d = choose|d: (u8, u8)| #[trigger] dots@.contains_key(d) && cell_of(d.0, d.1) == c;
        let m = masks@[c];
        let b = position_bit((d.0 % 4) as u16, (d.1 % 2) as u16);
        assert((m & b) != 0);
        assert((m & b) != 0 ==> m != 0) by (bit_vector);
    }
    masks
}

} // verus!
