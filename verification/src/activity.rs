//! Activity over a sliding hold window: the ring of buckets, the running
//! totals per dot, per screen cell and per /16 network, and the zoom view.

use vstd::prelude::*;
use vstd::laws_cmp::obeys_cmp;
use vstd::std_specs::iter::IteratorSpec;
use std::collections::BTreeMap;

use crate::text::{
    chars_of, decimal_text, find_char, first_index, free_of, ipv4_address, ipv4_octet,
    lemma_decimal_text, lemma_digits_free, lemma_first_index_after, lemma_free_concat,
    lemma_split_fields_pair, lemma_split_fields_push, lemma_trim_unchanged, parse_ipv4,
    parse_unsigned, pieces, split_bounds, split_fields, trim, trim_bounds, unsigned_literal,
};
use crate::tally::{
    add_one, count_in, increment, is_total_of, lemma_count_le_sum, lemma_count_one_more, lemma_sum_le_when_emptied,
    lemma_sum_of_empty, lemma_sum_update, lemma_total_is_total_of, seq_len, sum_at, total_of,
};

verus! {

/// The two octets that the grid shows for an address: in network mode the
/// last two (each address of one /16 is a dot), otherwise the first two.
pub fn display_coordinates(net_mode: bool, octets: (u8, u8, u8, u8)) -> (r: (u8, u8))
    ensures
        r == (if net_mode {
            (octets.2, octets.3)
        } else {
            (octets.0, octets.1)
        }),
{
    if net_mode {
        (octets.2, octets.3)
    } else {
        (octets.0, octets.1)
    }
}

/// The value of an unsigned decimal literal that fits in a byte, in the
/// grammar of `str::parse::<u8>`.
pub open spec fn u8_literal(s: Seq<char>) -> Option<u8> {
    match unsigned_literal(s) {
        Some(v) => if v <= 255 {
            Some(v as u8)
        } else {
            None
        },
        None => None,
    }
}

/// The message for a zoom prefix other than /16.
pub open spec fn zoom_prefix_message() -> Seq<char> {
    "Only /16 ranges are supported in the detail zoom view."@
}

/// The message for a two-part zoom target that is not two bytes.
pub open spec fn zoom_two_part_message() -> Seq<char> {
    "Invalid IPv4 address. Use a.b /16"@
}

/// The message for a zoom start outside 0..=252.
pub open spec fn zoom_range_message() -> Seq<char> {
    "Zoom start must be between 0 and 252"@
}

/// The message for a zoom target that is neither `a.b` nor a valid `a.b.c.d`.
pub open spec fn zoom_address_message() -> Seq<char> {
    "Invalid IPv4 address. Use a.b /16 or a.b.c.d/16"@
}

/// The zoom start that a host part (`a.b` or `a.b.c.d`) names.
pub open spec fn zoom_host(host: Seq<char>) -> Result<(u8, u8), Seq<char>> {
    let f = split_fields(host, '.');
    if f.len() == 2 {
        match (u8_literal(f[0]), u8_literal(f[1])) {
            (Some(a), Some(b)) => if a > 252 || b > 252 {
                Err(zoom_range_message())
            } else {
                Ok((a, b))
            },
            _ => Err(zoom_two_part_message()),
        }
    } else if f.len() == 4 {
        match ipv4_address(host) {
            None => Err(zoom_address_message()),
            Some(o) => if o.0 > 252 || o.1 > 252 {
                Err(zoom_range_message())
            } else {
                Ok((o.0, o.1))
            },
        }
    } else {
        Err(zoom_address_message())
    }
}

/// What `parse_zoom_target` makes of its input: the first two octets of the
/// /16 to zoom into, or the message that refuses it.
pub open spec fn zoom_target(value: Seq<char>) -> Result<(u8, u8), Seq<char>> {
    let t = trim(value);
    match first_index(t, '/') {
        Some(i) => if trim(t.subrange(i + 1, t.len() as int)) != "16"@ {
            Err(zoom_prefix_message())
        } else {
            zoom_host(t.subrange(0, i))
        },
        None => zoom_host(t),
    }
}

/// `a.b`, each byte in decimal.
pub open spec fn two_part_text(a: u8, b: u8) -> Seq<char> {
    decimal_text(a as nat).push('.') + decimal_text(b as nat)
}

/// `a.b.c.d`, each byte in decimal.
pub open spec fn four_part_text(a: u8, b: u8, c: u8, d: u8) -> Seq<char> {
    (two_part_text(a, b).push('.') + decimal_text(c as nat)).push('.') + decimal_text(d as nat)
}

/// The suffix `/16`.
pub open spec fn slash_16() -> Seq<char> {
    seq!['/', '1', '6']
}

/// The decimal form of a byte reads back as that byte.
pub proof fn lemma_byte_text(x: u8)
    ensures
        u8_literal(decimal_text(x as nat)) == Some(x),
        ipv4_octet(decimal_text(x as nat)) == Some(x),
        free_of(decimal_text(x as nat), '.'),
        free_of(decimal_text(x as nat), '/'),
        !crate::text::is_white_space(decimal_text(x as nat)[0]),
        !crate::text::is_white_space(decimal_text(x as nat).last()),
{
    let t = decimal_text(x as nat);
    lemma_decimal_text(x as nat);
    lemma_digits_free(t);
    assert(crate::text::is_digit(t[0]));
    assert(crate::text::is_digit(t[t.len() - 1]));
    assert(t[0] != '+');
}

/// `a.b.c.d` written in decimal reads back as that address, and holds no `/`
/// and no blank at its ends.
pub proof fn lemma_four_part_text(a: u8, b: u8, c: u8, d: u8)
    ensures
        ipv4_address(four_part_text(a, b, c, d)) == Some((a, b, c, d)),
        four_part_text(a, b, c, d).len() > 0,
        free_of(four_part_text(a, b, c, d), '/'),
        !crate::text::is_white_space(four_part_text(a, b, c, d)[0]),
        !crate::text::is_white_space(four_part_text(a, b, c, d).last()),
{
    let ta = decimal_text(a as nat);
    let tb = decimal_text(b as nat);
    let tc = decimal_text(c as nat);
    let td = decimal_text(d as nat);
    lemma_byte_text(a);
    lemma_byte_text(b);
    lemma_byte_text(c);
    lemma_byte_text(d);
    let h2 = two_part_text(a, b);
    lemma_split_fields_pair(ta, tb, '.');
    assert(free_of(ta.push('.'), '/'));
    lemma_free_concat(ta.push('.'), tb, '/');
    let h3 = h2.push('.') + tc;
    let h4 = four_part_text(a, b, c, d);
    lemma_split_fields_push(h2, tc, '.');
    lemma_split_fields_push(h3, td, '.');
    let f = split_fields(h4, '.');
    assert(f =~= seq![ta, tb, tc, td]);
    assert(free_of(h2.push('.'), '/'));
    lemma_free_concat(h2.push('.'), tc, '/');
    assert(free_of(h3.push('.'), '/'));
    lemma_free_concat(h3.push('.'), td, '/');
    assert(h4[0] == ta[0]);
    assert(h4.last() == td.last());
}

/// Whatever the trailing `/16`, a host part `h` with no `/` and no blank at
/// its ends is what `zoom_target` reads.
proof fn lemma_zoom_target_of_host(h: Seq<char>)
    requires
        h.len() > 0,
        free_of(h, '/'),
        !crate::text::is_white_space(h[0]),
        !crate::text::is_white_space(h.last()),
    ensures
        zoom_target(h) == zoom_host(h),
        zoom_target(h + slash_16()) == zoom_host(h),
{
    lemma_trim_unchanged(h);
    lemma_first_index_after(h, Seq::empty(), '/');
    assert(h + Seq::<char>::empty() =~= h);
    let t = h + slash_16();
    assert(t[0] == h[0]);
    assert(t.last() == '6');
    lemma_trim_unchanged(t);
    lemma_first_index_after(h, slash_16(), '/');
    assert(first_index(slash_16(), '/') == Some(0int));
    let i = h.len() as int;
    assert(t.subrange(0, i) =~= h);
    let p = t.subrange(i + 1, t.len() as int);
    assert(p =~= seq!['1', '6']);
    lemma_trim_unchanged(p);
    assert(p == "16"@) by {
        reveal_strlit("16");
        assert(p =~= "16"@);
    }
}

/// Any `a.b`, `a.b/16` or `a.b.c.d/16` written in decimal with `a` and `b`
/// at most 252 is read back as the zoom start `(a, b)`.
pub proof fn lemma_zoom_target_round_trip(a: u8, b: u8, c: u8, d: u8)
    requires
        a <= 252,
        b <= 252,
    ensures
        zoom_target(two_part_text(a, b)) == Ok::<(u8, u8), Seq<char>>((a, b)),
        zoom_target(two_part_text(a, b) + slash_16()) == Ok::<(u8, u8), Seq<char>>((a, b)),
        zoom_target(four_part_text(a, b, c, d) + slash_16()) == Ok::<(u8, u8), Seq<char>>((a, b)),
{
    let ta = decimal_text(a as nat);
    let tb = decimal_text(b as nat);
    let tc = decimal_text(c as nat);
    let td = decimal_text(d as nat);
    lemma_byte_text(a);
    lemma_byte_text(b);
    lemma_byte_text(c);
    lemma_byte_text(d);
    let h2 = two_part_text(a, b);
    lemma_split_fields_pair(ta, tb, '.');
    assert(free_of(ta.push('.'), '/'));
    lemma_free_concat(ta.push('.'), tb, '/');
    assert(h2[0] == ta[0]);
    assert(h2.last() == tb.last());
    assert(zoom_host(h2) == Ok::<(u8, u8), Seq<char>>((a, b)));
    lemma_zoom_target_of_host(h2);
    let h3 = h2.push('.') + tc;
    let h4 = four_part_text(a, b, c, d);
    lemma_split_fields_push(h2, tc, '.');
    lemma_split_fields_push(h3, td, '.');
    let f = split_fields(h4, '.');
    assert(f =~= seq![ta, tb, tc, td]);
    assert(ipv4_address(h4) == Some((a, b, c, d)));
    assert(free_of(h2.push('.'), '/'));
    lemma_free_concat(h2.push('.'), tc, '/');
    assert(free_of(h3.push('.'), '/'));
    lemma_free_concat(h3.push('.'), td, '/');
    assert(h4[0] == ta[0]);
    assert(h4.last() == td.last());
    lemma_zoom_target_of_host(h4);
}

/// Parses `s[lo..hi]` as a byte, in the grammar of `str::parse::<u8>`.
fn parse_byte(s: &Vec<char>, lo: usize, hi: usize) -> (r: Option<u8>)
    requires
        lo <= hi <= s.len(),
    ensures
        r == u8_literal(s@.subrange(lo as int, hi as int)),
{
    match parse_unsigned(s, lo, hi, 255) {
        Some(v) => Some(v as u8),
        None => None,
    }
}

/// The zoom start named by the host part `s[lo..hi]`.
fn parse_zoom_host(s: &Vec<char>, lo: usize, hi: usize) -> (r: Result<(u8, u8), String>)
    requires
        lo <= hi <= s.len(),
    ensures
        match zoom_host(s@.subrange(lo as int, hi as int)) {
            Ok(p) => r == Ok::<(u8, u8), String>(p),
            Err(m) => r is Err && r->Err_0@ == m,
        },
{
    let f = split_bounds(s, lo, hi, '.');
    let ghost fs = split_fields(s@.subrange(lo as int, hi as int), '.');
    assert(pieces(s@, f@) == fs);
    if f.len() == 2 {
        assert(fs[0] == s@.subrange(f@[0].0 as int, f@[0].1 as int));
        assert(fs[1] == s@.subrange(f@[1].0 as int, f@[1].1 as int));
        let first = parse_byte(s, f[0].0, f[0].1);
        let second = parse_byte(s, f[1].0, f[1].1);
        match (first, second) {
            (Some(a), Some(b)) => {
                if a > 252 || b > 252 {
                    Err("Zoom start must be between 0 and 252".to_string())
                } else {
                    Ok((a, b))
                }
            },
            _ => Err("Invalid IPv4 address. Use a.b /16".to_string()),
        }
    } else if f.len() == 4 {
        match parse_ipv4(s, lo, hi) {
            None => Err("Invalid IPv4 address. Use a.b /16 or a.b.c.d/16".to_string()),
            Some(o) => {
                if o.0 > 252 || o.1 > 252 {
                    Err("Zoom start must be between 0 and 252".to_string())
                } else {
                    Ok((o.0, o.1))
                }
            },
        }
    } else {
        Err("Invalid IPv4 address. Use a.b /16 or a.b.c.d/16".to_string())
    }
}

/// Parses the target of the detail zoom view: the first two octets of a /16,
/// written `a.b` or `a.b.c.d`, optionally followed by `/16`, each at most 252.
pub fn parse_zoom_target(value: &str) -> (r: Result<(u8, u8), String>)
    ensures
        match zoom_target(value@) {
            Ok(p) => r == Ok::<(u8, u8), String>(p),
            Err(m) => r is Err && r->Err_0@ == m,
        },
{
    let s = chars_of(value);
    parse_zoom_chars(&s)
}

/// Parses a zoom target given as characters (see `parse_zoom_target`).
#[verifier::rlimit(40)]
pub fn parse_zoom_chars(s: &Vec<char>) -> (r: Result<(u8, u8), String>)
    ensures
        match zoom_target(s@) {
            Ok(p) => r == Ok::<(u8, u8), String>(p),
            Err(m) => r is Err && r->Err_0@ == m,
        },
{
    let n = s.len();
    assert(s@.subrange(0, n as int) =~= s@);
    let (lo, hi) = trim_bounds(s, 0, n);
    let ghost t = s@.subrange(lo as int, hi as int);
    match find_char(s, lo, hi, '/') {
        Some(slash) => {
            assert(first_index(t, '/') == Some(slash - lo));
            assert(t.subrange(slash - lo + 1, t.len() as int) =~= s@.subrange(
                slash + 1,
                hi as int,
            ));
            assert(t.subrange(0, slash - lo) =~= s@.subrange(lo as int, slash as int));
            let (plo, phi) = trim_bounds(s, slash + 1, hi);
            proof {
                reveal_strlit("16");
            }
            let is_16 = phi - plo == 2 && s[plo] == '1' && s[plo + 1] == '6';
            assert(is_16 ==> (s@.subrange(plo as int, phi as int) =~= "16"@));
            assert((s@.subrange(plo as int, phi as int) == "16"@) ==> is_16) by {
                reveal_strlit("16");
                assert("16"@.len() == 2);
                assert("16"@[0] == '1');
                assert("16"@[1] == '6');
                if s@.subrange(plo as int, phi as int) == "16"@ {
                    assert(phi - plo == 2);
                    assert(s@.subrange(plo as int, phi as int)[0] == '1');
                    assert(s@.subrange(plo as int, phi as int)[1] == '6');
                }
            }
            if !is_16 {
                return Err("Only /16 ranges are supported in the detail zoom view.".to_string());
            }
            parse_zoom_host(s, lo, slash)
        },
        None => parse_zoom_host(s, lo, hi),
    }
}

/// The cell of the detail view at `row`, `col` of the window that starts at
/// `focus`: the /16 it shows and the activity recorded for it.
pub open spec fn detail_entry(focus: (u8, u8), m: Map<(u8, u8), usize>, row: int, col: int) -> (
    (u8, u8),
    usize,
) {
    let key = ((focus.0 + row) as u8, (focus.1 + col) as u8);
    (key, count_in(m, key) as usize)
}

/// How many of the four rows (or columns) from `start` stay within the octet range.
pub open spec fn window_span(start: u8) -> nat {
    if start <= 252 {
        4
    } else {
        (256 - start) as nat
    }
}

/// One row of the detail window, `cols` cells wide.
pub open spec fn detail_row(focus: (u8, u8), m: Map<(u8, u8), usize>, row: int, cols: nat) -> Seq<
    ((u8, u8), usize),
> {
    Seq::new(cols, |c: int| detail_entry(focus, m, row, c))
}

/// The first `rows` rows of the detail window, in row-major order.
pub open spec fn detail_rows(focus: (u8, u8), m: Map<(u8, u8), usize>, rows: nat, cols: nat) -> Seq<
    ((u8, u8), usize),
>
    decreases rows,
{
    if rows == 0 {
        Seq::empty()
    } else {
        detail_rows(focus, m, (rows - 1) as nat, cols) + detail_row(focus, m, rows - 1, cols)
    }
}

/// The 4x4 window of /16 networks starting at `focus` (clipped at octet 255),
/// row by row, each with the activity recorded for it (0 where none is).
pub fn detail_activity_cells(focus: (u8, u8), activity_by_network: &BTreeMap<(u8, u8), usize>) -> (r:
    Vec<((u8, u8), usize)>)
    ensures
        r@ == detail_rows(
            focus,
            activity_by_network@,
            window_span(focus.0),
            window_span(focus.1),
        ),
{
    let ghost m = activity_by_network@;
    let ghost rows = window_span(focus.0);
    let ghost cols = window_span(focus.1);
    let mut cells: Vec<((u8, u8), usize)> = Vec::new();
    let mut row: u8 = 0;
    while row < 4
        invariant
            row <= 4,
            m == activity_by_network@,
            rows == window_span(focus.0),
            cols == window_span(focus.1),
            cells@ == detail_rows(focus, m, if row <= rows { row as nat } else { rows }, cols),
        decreases 4 - row,
    {
        let ghost before = cells@;
        let mut col: u8 = 0;
        while col < 4
            invariant
                row < 4,
                col <= 4,
                m == activity_by_network@,
                rows == window_span(focus.0),
                cols == window_span(focus.1),
                row < rows ==> cells@ == before + detail_row(focus, m, row as int, cols).take(
                    if col <= cols { col as int } else { cols as int },
                ),
                row >= rows ==> cells@ == before,
            decreases 4 - col,
        {
            match focus.0.checked_add(row) {
                None => {},
                Some(oct1) => match focus.1.checked_add(col) {
                    None => {},
                    Some(oct2) => {
                        let count = match activity_by_network.get(&(oct1, oct2)) {
                            Some(c) => *c,
                            None => 0,
                        };
                        cells.push(((oct1, oct2), count));
                        proof {
                            let dr = detail_row(focus, m, row as int, cols);
                            assert(dr[col as int] == ((oct1, oct2), count));
                            assert(dr.take(col + 1) =~= dr.take(col as int).push(dr[col as int]));
                        }
                    },
                },
            }
            col = col + 1;
        }
        proof {
            if row < rows {
                let dr = detail_row(focus, m, row as int, cols);
                assert(dr.take(cols as int) =~= dr);
                assert(detail_rows(focus, m, (row + 1) as nat, cols) == detail_rows(
                    focus,
                    m,
                    row as nat,
                    cols,
                ) + dr);
            }
        }
        row = row + 1;
    }
    cells
}

/// Every zoom start that `parse_zoom_target` accepts lies in 0..=252, so the
/// whole 4x4 window of /16 networks it opens stays within the octet range.
pub proof fn lemma_zoom_start_in_range(value: Seq<char>)
    ensures
        zoom_target(value) matches Ok((a, b)) ==> a <= 252 && b <= 252,
{
}

/// For a zoom start within 0..=252 the detail window is the full 4x4 block:
/// sixteen cells, the one for `row`, `col` at index `4 * row + col`.
pub proof fn lemma_detail_window_shape(focus: (u8, u8), m: Map<(u8, u8), usize>, row: int, col: int)
    requires
        focus.0 <= 252,
        focus.1 <= 252,
        0 <= row < 4,
        0 <= col < 4,
    ensures
        detail_rows(focus, m, 4, 4).len() == 16,
        detail_rows(focus, m, 4, 4)[4 * row + col] == detail_entry(focus, m, row, col),
{
    reveal_with_fuel(detail_rows, 5);
    let r0 = detail_row(focus, m, 0, 4);
    let r1 = detail_row(focus, m, 1, 4);
    let r2 = detail_row(focus, m, 2, 4);
    let r3 = detail_row(focus, m, 3, 4);
    assert(detail_rows(focus, m, 4, 4) == r0 + r1 + r2 + r3) by {
        assert(detail_rows(focus, m, 0, 4) =~= Seq::<((u8, u8), usize)>::empty());
        assert(detail_rows(focus, m, 1, 4) =~= r0);
    }
}

/// The width of one activity bucket, in nanoseconds (100 ms).
pub const ACTIVITY_BUCKET_WIDTH: u64 = 100_000_000;

/// The screen cell that the dot `(oct1, oct2)` falls in: a Braille character
/// holds 2 columns (second octet) by 4 rows (first octet) of dots.
pub open spec fn cell_of(oct1: u8, oct2: u8) -> (usize, usize) {
    ((oct2 / 2) as usize, (oct1 / 4) as usize)
}

/// The screen cell that the dot `(oct1, oct2)` falls in (see `cell_of`).
pub fn cell_key(oct1: u8, oct2: u8) -> (c: (usize, usize))
    ensures
        c == cell_of(oct1, oct2),
{
    ((oct2 / 2) as usize, (oct1 / 4) as usize)
}

/// The tallies of one bucket: packets per dot, per screen cell and per /16 network.
pub struct Slot {
    pub dots: Map<(u8, u8), usize>,
    pub cells: Map<(usize, usize), usize>,
    pub networks: Map<(u8, u8), usize>,
}

/// A bucket that has counted nothing.
pub open spec fn empty_slot() -> Slot {
    Slot { dots: Map::empty(), cells: Map::empty(), networks: Map::empty() }
}

/// The abstract state of an activity window: its ring of buckets, the bucket
/// being filled, and the time (in nanoseconds) at which that bucket started.
pub struct ActivityModel {
    pub slots: Seq<Slot>,
    pub index: int,
    pub start: int,
}

/// The per-dot tallies of a ring of buckets.
pub open spec fn dot_tallies(slots: Seq<Slot>) -> Seq<Map<(u8, u8), usize>> {
    slots.map_values(|s: Slot| s.dots)
}

/// The per-cell tallies of a ring of buckets.
pub open spec fn cell_tallies(slots: Seq<Slot>) -> Seq<Map<(usize, usize), usize>> {
    slots.map_values(|s: Slot| s.cells)
}

/// The per-network tallies of a ring of buckets.
pub open spec fn network_tallies(slots: Seq<Slot>) -> Seq<Map<(u8, u8), usize>> {
    slots.map_values(|s: Slot| s.networks)
}

/// The number of buckets that cover a hold duration of `hold` nanoseconds:
/// its whole milliseconds divided by the bucket width, rounded up, and at least one.
pub open spec fn bucket_count(hold: u64) -> nat {
    let ms: int = hold as int / 1_000_000;
    let c: int = if ms % 100 == 0 {
        ms / 100
    } else {
        ms / 100 + 1
    };
    if c == 0 {
        1
    } else {
        c as nat
    }
}

/// The whole bucket widths from `start` to `now` (none if `now` is not later).
pub open spec fn steps_since(start: int, now: u64) -> int {
    if now > start {
        (now - start) / (ACTIVITY_BUCKET_WIDTH as int)
    } else {
        0
    }
}

/// How many steps forward from bucket `index` the bucket `j` lies in a ring of
/// `n` buckets (`n` for `index` itself).
pub open spec fn slot_distance(j: int, index: int, n: int) -> int {
    if j > index {
        j - index
    } else {
        j - index + n
    }
}

/// A fresh window over `n` buckets whose current bucket starts at `now`.
pub open spec fn fresh_model(n: nat, now: u64) -> ActivityModel {
    ActivityModel { slots: Seq::new(n, |j: int| empty_slot()), index: 0, start: now as int }
}

/// The window after time has moved on to `now`: one bucket is expired and
/// becomes current per whole bucket width elapsed; once a whole ring has
/// elapsed the window starts afresh at `now`.
pub open spec fn advance_model(v: ActivityModel, now: u64) -> ActivityModel {
    let n = v.slots.len() as int;
    let steps = steps_since(v.start, now);
    if steps == 0 {
        v
    } else if steps >= n {
        fresh_model(v.slots.len(), now)
    } else {
        ActivityModel {
            slots: Seq::new(
                v.slots.len(),
                |j: int|
                    if slot_distance(j, v.index, n) <= steps {
                        empty_slot()
                    } else {
                        v.slots[j]
                    },
            ),
            index: if v.index + steps < n {
                v.index + steps
            } else {
                v.index + steps - n
            },
            start: v.start + steps * (ACTIVITY_BUCKET_WIDTH as int),
        }
    }
}

/// The window after one packet from the /16 network `oct1.oct2` is recorded at `now`.
pub open spec fn record_model(v: ActivityModel, oct1: u8, oct2: u8, now: u64) -> ActivityModel {
    let a = advance_model(v, now);
    let s = a.slots[a.index];
    ActivityModel {
        slots: a.slots.update(
            a.index,
            Slot {
                dots: add_one(s.dots, (oct1, oct2)),
                cells: add_one(s.cells, cell_of(oct1, oct2)),
                networks: add_one(s.networks, (oct1, oct2)),
            },
        ),
        ..a
    }
}

/// A window view with a non-empty ring and its current bucket inside it.
pub open spec fn model_ok(v: ActivityModel) -> bool {
    &&& v.slots.len() > 0
    &&& 0 <= v.index < v.slots.len()
    &&& v.start >= 0
}

/// How many bucket widths before the current bucket the bucket `j` started.
pub open spec fn slot_age(j: int, index: int, n: int) -> int {
    if j <= index {
        index - j
    } else {
        index - j + n
    }
}

/// The time (in nanoseconds) at which bucket `j` of the window started.
pub open spec fn slot_start(v: ActivityModel, j: int) -> int {
    v.start - slot_age(j, v.index, v.slots.len() as int) * (ACTIVITY_BUCKET_WIDTH as int)
}

/// Each bucket lives for exactly one ring of bucket widths from its start:
/// moving the window on to `now` keeps bucket `j` unchanged, and starting
/// when it did, while fewer than `n` whole widths have passed since it
/// started, and empties it once `n` have. Over a sequence of moves the
/// bucket therefore keeps its counts exactly until `n` widths after its start.
pub proof fn lemma_slot_lifetime(v: ActivityModel, now: u64, j: int)
    requires
        model_ok(v),
        now >= v.start,
        0 <= j < v.slots.len(),
    ensures
        advance_model(v, now).slots[j] == (if (now - slot_start(v, j)) / (
        ACTIVITY_BUCKET_WIDTH as int) < v.slots.len() {
            v.slots[j]
        } else {
            empty_slot()
        }),
        (now - slot_start(v, j)) / (ACTIVITY_BUCKET_WIDTH as int) < v.slots.len() ==> slot_start(
            advance_model(v, now),
            j,
        ) == slot_start(v, j),
{
    let w = ACTIVITY_BUCKET_WIDTH as int;
    let n = v.slots.len() as int;
    let d = slot_age(j, v.index, n);
    let x = now - v.start;
    let steps = steps_since(v.start, now);
    assert(steps == x / w);
    assert((x + d * w) / w == x / w + d) by (nonlinear_arith)
        requires
            w > 0,
            x >= 0,
    ;
    assert(now - slot_start(v, j) == x + d * w);
    if steps > 0 && steps < n {
        assert(slot_distance(j, v.index, n) == n - d);
    }
}

/// Moving the window on is settled by one call: moving it on again to the
/// same time changes nothing, and the current bucket then started less than
/// one bucket width before `now`.
pub proof fn lemma_advance_settles(v: ActivityModel, now: u64)
    requires
        model_ok(v),
    ensures
        model_ok(advance_model(v, now)),
        advance_model(advance_model(v, now), now) == advance_model(v, now),
        now >= v.start ==> advance_model(v, now).start <= now < advance_model(v, now).start
            + ACTIVITY_BUCKET_WIDTH,
{
    let w = ACTIVITY_BUCKET_WIDTH as int;
    let a = advance_model(v, now);
    if now > v.start {
        let x = now - v.start;
        let steps = x / w;
        assert(steps * w <= x < steps * w + w) by (nonlinear_arith)
            requires
                w > 0,
                x >= 0,
                steps == x / w,
        ;
    }
    assert(steps_since(a.start, now) == 0);
}

/// Recording a packet counts it exactly once: the per-dot (and per-network)
/// sum for its /16 rises by one over the window moved on to `now`, and every
/// other sum is unchanged. (The counts are machine words, so the sums for
/// the packet's /16 must be below `usize::MAX` beforehand.)
pub proof fn lemma_record_counts_once(v: ActivityModel, oct1: u8, oct2: u8, now: u64, k: (u8, u8))
    requires
        model_ok(v),
        sum_at(dot_tallies(v.slots), (oct1, oct2)) < usize::MAX,
        sum_at(network_tallies(v.slots), (oct1, oct2)) < usize::MAX,
    ensures
        sum_at(dot_tallies(record_model(v, oct1, oct2, now).slots), k) == sum_at(
            dot_tallies(advance_model(v, now).slots),
            k,
        ) + (if k == (oct1, oct2) {
            1int
        } else {
            0int
        }),
        sum_at(network_tallies(record_model(v, oct1, oct2, now).slots), k) == sum_at(
            network_tallies(advance_model(v, now).slots),
            k,
        ) + (if k == (oct1, oct2) {
            1int
        } else {
            0int
        }),
{
    let a = advance_model(v, now);
    let r = record_model(v, oct1, oct2, now);
    assert(0 <= a.index < a.slots.len());
    assert forall|j: int| 0 <= j < v.slots.len() implies #[trigger] a.slots[j] == v.slots[j]
        || a.slots[j] == empty_slot() by {}
    lemma_sum_le_when_emptied(dot_tallies(v.slots), dot_tallies(a.slots), (oct1, oct2));
    lemma_sum_le_when_emptied(network_tallies(v.slots), network_tallies(a.slots), (oct1, oct2));
    lemma_count_le_sum(dot_tallies(a.slots), a.index, (oct1, oct2));
    lemma_count_le_sum(network_tallies(a.slots), a.index, (oct1, oct2));
    assert(dot_tallies(r.slots) =~= dot_tallies(a.slots).update(a.index, r.slots[a.index].dots));
    assert(network_tallies(r.slots) =~= network_tallies(a.slots).update(
        a.index,
        r.slots[a.index].networks,
    ));
    lemma_sum_update(dot_tallies(a.slots), a.index, r.slots[a.index].dots, k);
    lemma_sum_update(network_tallies(a.slots), a.index, r.slots[a.index].networks, k);
}

/// The window moved on to each time of `ts` in turn.
pub open spec fn advance_through(v: ActivityModel, ts: Seq<u64>) -> ActivityModel
    decreases ts.len(),
{
    if ts.len() == 0 {
        v
    } else {
        advance_model(advance_through(v, ts.drop_last()), ts.last())
    }
}

/// The latest of `t0` and the times of `ts`, for non-decreasing `ts` from `t0` on.
pub open spec fn latest_time(t0: u64, ts: Seq<u64>) -> u64 {
    if ts.len() == 0 {
        t0
    } else {
        ts.last()
    }
}

/// Times that never go back and start no earlier than `t0`.
pub open spec fn times_from(t0: u64, ts: Seq<u64>) -> bool {
    &&& forall|i: int| 0 <= i < ts.len() ==> t0 <= #[trigger] ts[i]
    &&& forall|i: int, j: int| 0 <= i <= j < ts.len() ==> ts[i] <= ts[j]
}

/// What a fresh window over `n` buckets with one packet recorded at `t0`
/// looks like after moving on through `ts`: its first bucket still holds the
/// packet while fewer than `n` bucket widths have passed since `t0`, and
/// every other bucket is empty.
proof fn lemma_one_packet_window(n: nat, t0: u64, x: u8, y: u8, ts: Seq<u64>)
    requires
        n > 0,
        times_from(t0, ts),
    ensures
        ({
            let r0 = record_model(fresh_model(n, t0), x, y, t0);
            let v = advance_through(r0, ts);
            &&& model_ok(v)
            &&& v.slots.len() == n
            &&& v.start <= latest_time(t0, ts)
            &&& forall|j: int| 1 <= j < n ==> #[trigger] v.slots[j] == empty_slot()
            &&& v.slots[0] == (if latest_time(t0, ts) - t0 < n * ACTIVITY_BUCKET_WIDTH {
                r0.slots[0]
            } else {
                empty_slot()
            })
            &&& v.slots[0] == r0.slots[0] ==> slot_start(v, 0) == t0
        }),
    decreases ts.len(),
{
    let w = ACTIVITY_BUCKET_WIDTH as int;
    let f = fresh_model(n, t0);
    let r0 = record_model(f, x, y, t0);
    assert(advance_model(f, t0) == f);
    assert(r0.slots[0] != empty_slot()) by {
        assert(r0.slots[0].dots.contains_key((x, y)));
    }
    if ts.len() == 0 {
        assert(slot_age(0, 0, n as int) == 0);
    } else {
        let prev = ts.drop_last();
        assert(times_from(t0, prev)) by {
            assert forall|i: int| 0 <= i < prev.len() implies t0 <= #[trigger] prev[i] by {
                assert(prev[i] == ts[i]);
            }
            assert forall|i: int, j: int| 0 <= i <= j < prev.len() implies prev[i] <= prev[j] by {
                assert(prev[i] == ts[i] && prev[j] == ts[j]);
            }
        }
        lemma_one_packet_window(n, t0, x, y, prev);
        let v = advance_through(r0, prev);
        let t = ts.last();
        let tp = latest_time(t0, prev);
        assert(tp <= t) by {
            if prev.len() > 0 {
                assert(prev.last() == ts[prev.len() - 1]);
            }
        }
        assert(t >= v.start);
        lemma_advance_settles(v, t);
        let a = advance_model(v, t);
        assert(a == advance_through(r0, ts));
        assert forall|j: int| 1 <= j < n implies #[trigger] a.slots[j] == empty_slot() by {
            lemma_slot_lifetime(v, t, j);
        }
        lemma_slot_lifetime(v, t, 0);
        let d = t - t0;
        assert((d / w < n) <==> (d < n * w)) by (nonlinear_arith)
            requires
                w > 0,
                d >= 0,
        ;
        if v.slots[0] == r0.slots[0] {
            assert(slot_start(v, 0) == t0);
        } else {
            assert(tp - t0 >= n * w);
        }
    }
}

/// A packet recorded in a fresh window over `n` buckets at `t0` stays
/// counted, once, for its dot, its /16 network and its screen cell, through
/// any sequence of later moves of the window, exactly while the latest time
/// is less than `n` bucket widths after `t0`; after that it is counted nowhere.
pub proof fn lemma_recorded_packet_lifetime(n: nat, t0: u64, x: u8, y: u8, ts: Seq<u64>)
    requires
        n > 0,
        times_from(t0, ts),
    ensures
        ({
            let v = advance_through(record_model(fresh_model(n, t0), x, y, t0), ts);
            let c: int = if latest_time(t0, ts) < t0 + n * ACTIVITY_BUCKET_WIDTH {
                1
            } else {
                0
            };
            &&& sum_at(dot_tallies(v.slots), (x, y)) == c
            &&& sum_at(network_tallies(v.slots), (x, y)) == c
            &&& sum_at(cell_tallies(v.slots), cell_of(x, y)) == c
        }),
{
    lemma_one_packet_window(n, t0, x, y, ts);
    let r0 = record_model(fresh_model(n, t0), x, y, t0);
    let v = advance_through(r0, ts);
    let s0 = v.slots[0];
    let e = Seq::new(n, |j: int| empty_slot());
    assert(v.slots =~= e.update(0, s0));
    assert(dot_tallies(v.slots) =~= dot_tallies(e).update(0, s0.dots));
    assert(network_tallies(v.slots) =~= network_tallies(e).update(0, s0.networks));
    assert(cell_tallies(v.slots) =~= cell_tallies(e).update(0, s0.cells));
    lemma_sum_of_empty(dot_tallies(e), (x, y));
    lemma_sum_of_empty(network_tallies(e), (x, y));
    lemma_sum_of_empty(cell_tallies(e), cell_of(x, y));
    lemma_sum_update(dot_tallies(e), 0, s0.dots, (x, y));
    lemma_sum_update(network_tallies(e), 0, s0.networks, (x, y));
    lemma_sum_update(cell_tallies(e), 0, s0.cells, cell_of(x, y));
}

/// The number of buckets for a hold of `hold` nanoseconds is its whole
/// milliseconds divided by 100, rounded up, and at least one; there is no
/// upper limit.
pub proof fn lemma_bucket_count_is_ceiling(hold: u64)
    ensures
        bucket_count(hold) == (if hold / 1_000_000 == 0 {
            1
        } else {
            (hold / 1_000_000 + 99) / 100
        }),
        bucket_count(hold) * 100 >= hold / 1_000_000,
        hold / 1_000_000 > 0 ==> (bucket_count(hold) - 1) * 100 < hold / 1_000_000,
{
    let ms = hold as int / 1_000_000;
    assert(ms / 100 * 100 + ms % 100 == ms);
    if ms > 0 {
        if ms % 100 == 0 {
            assert((ms + 99) / 100 == ms / 100);
        } else {
            assert((ms + 99) / 100 == ms / 100 + 1);
        }
    }
}

/// The hold time: with a window built by `ActivityBuckets::new(t0, hold)`,
/// a packet recorded at `t0` is counted once, for its dot, its /16 network
/// and its screen cell, through any later sequence of moves, exactly while
/// the latest time is less than `t0` plus the hold rounded up to whole
/// 100 ms buckets (at least one bucket); after that it is counted nowhere.
pub proof fn lemma_hold_window(hold: u64, t0: u64, x: u8, y: u8, ts: Seq<u64>)
    requires
        times_from(t0, ts),
    ensures
        ({
            let ms = hold / 1_000_000;
            let n: int = if ms == 0 {
                1
            } else {
                (ms + 99) / 100
            };
            let v = advance_through(record_model(fresh_model(bucket_count(hold), t0), x, y, t0), ts);
            let c: int = if latest_time(t0, ts) < t0 + n * 100_000_000 {
                1
            } else {
                0
            };
            &&& sum_at(dot_tallies(v.slots), (x, y)) == c
            &&& sum_at(network_tallies(v.slots), (x, y)) == c
            &&& sum_at(cell_tallies(v.slots), ((y / 2) as usize, (x / 4) as usize)) == c
        }),
{
    lemma_bucket_count_is_ceiling(hold);
    lemma_recorded_packet_lifetime(bucket_count(hold), t0, x, y, ts);
}

/// Advancing to a time before the current bucket ends changes nothing.
pub proof fn lemma_settled_advance_is_noop(v: ActivityModel, t: u64)
    requires
        model_ok(v),
        t < v.start + ACTIVITY_BUCKET_WIDTH,
    ensures
        advance_model(v, t) == v,
{
    if t > v.start {
        assert((t - v.start) / (ACTIVITY_BUCKET_WIDTH as int) == 0);
    }
}

/// The current bucket never starts earlier after a call, and it always
/// covers the latest time seen: if `t_max` (the latest time passed so far)
/// lies before the current bucket ends, it still does after the window is
/// moved on (or a packet recorded) at any time `now`, and so does `now`.
/// With `lemma_settled_advance_is_noop`, advancing to a time already passed
/// therefore changes nothing.
pub proof fn lemma_latest_time_stays_settled(v: ActivityModel, t_max: u64, now: u64)
    requires
        model_ok(v),
        t_max < v.start + ACTIVITY_BUCKET_WIDTH,
    ensures
        advance_model(v, now).start >= v.start,
        t_max < advance_model(v, now).start + ACTIVITY_BUCKET_WIDTH,
        now < advance_model(v, now).start + ACTIVITY_BUCKET_WIDTH,
        forall|o1: u8, o2: u8| #[trigger] record_model(v, o1, o2, now).start == advance_model(
            v,
            now,
        ).start,
        v.start <= t_max ==> advance_model(v, now).start <= (if now > t_max {
            now
        } else {
            t_max
        }),
{
    lemma_advance_settles(v, now);
}

/// Once a whole ring of bucket widths has passed since the latest time seen
/// (`t_max`, which the current bucket never starts after), moving the window
/// on empties it: every bucket, and so every sum, is empty.
pub proof fn lemma_full_ring_empties(v: ActivityModel, t_max: u64, t: u64)
    requires
        model_ok(v),
        v.start <= t_max,
        t >= t_max + v.slots.len() * ACTIVITY_BUCKET_WIDTH,
    ensures
        advance_model(v, t) == fresh_model(v.slots.len(), t),
        forall|k: (u8, u8)| #[trigger] sum_at(dot_tallies(advance_model(v, t).slots), k) == 0,
        forall|k: (u8, u8)| #[trigger] sum_at(network_tallies(advance_model(v, t).slots), k) == 0,
        forall|k: (usize, usize)| #[trigger] sum_at(cell_tallies(advance_model(v, t).slots), k) == 0,
{
    let w = ACTIVITY_BUCKET_WIDTH as int;
    let n = v.slots.len() as int;
    let x = t - v.start;
    assert(x / w >= n) by (nonlinear_arith)
        requires
            w > 0,
            n > 0,
            x >= n * w,
    ;
    let a = advance_model(v, t);
    assert forall|k: (u8, u8)| #[trigger] sum_at(dot_tallies(a.slots), k) == 0 by {
        lemma_sum_of_empty(dot_tallies(a.slots), k);
    }
    assert forall|k: (u8, u8)| #[trigger] sum_at(network_tallies(a.slots), k) == 0 by {
        lemma_sum_of_empty(network_tallies(a.slots), k);
    }
    assert forall|k: (usize, usize)| #[trigger] sum_at(cell_tallies(a.slots), k) == 0 by {
        lemma_sum_of_empty(cell_tallies(a.slots), k);
    }
}

/// Adding one to two counts of a tally gives the same tally in either order.
proof fn lemma_add_one_commutes<K>(m: Map<K, usize>, k1: K, k2: K)
    ensures
        add_one(add_one(m, k1), k2) == add_one(add_one(m, k2), k1),
{
    assert(add_one(add_one(m, k1), k2) =~= add_one(add_one(m, k2), k1));
}

/// Two packets recorded at the same time leave the same window in either order.
pub proof fn lemma_records_commute(v: ActivityModel, x1: u8, y1: u8, x2: u8, y2: u8, t: u64)
    requires
        model_ok(v),
    ensures
        record_model(record_model(v, x1, y1, t), x2, y2, t) == record_model(
            record_model(v, x2, y2, t),
            x1,
            y1,
            t,
        ),
{
    let a = advance_model(v, t);
    lemma_advance_settles(v, t);
    let r1 = record_model(v, x1, y1, t);
    let r2 = record_model(v, x2, y2, t);
    if t >= v.start {
        assert(steps_since(a.start, t) == 0);
    } else {
        assert(a == v);
    }
    assert(advance_model(r1, t) == r1);
    assert(advance_model(r2, t) == r2);
    let s = a.slots[a.index];
    lemma_add_one_commutes(s.dots, (x1, y1), (x2, y2));
    lemma_add_one_commutes(s.cells, cell_of(x1, y1), cell_of(x2, y2));
    lemma_add_one_commutes(s.networks, (x1, y1), (x2, y2));
    assert(record_model(r1, x2, y2, t).slots =~= record_model(r2, x1, y1, t).slots);
}

/// Dot `i` (for `i` in `0..8`) of the screen cell `c`: the cell's column
/// `c.0` holds second octets `2 * c.0` and `2 * c.0 + 1`, its row `c.1`
/// holds first octets `4 * c.1` to `4 * c.1 + 3`.
pub open spec fn cell_dot(c: (usize, usize), i: int) -> (u8, u8) {
    ((4 * c.1 + i / 2) as u8, (2 * c.0 + i % 2) as u8)
}

/// The packets that `dots` counts for the eight dots of the screen cell `c`
/// (none for a cell off the 128 by 64 grid).
pub open spec fn dots_in_cell(dots: Map<(u8, u8), usize>, c: (usize, usize)) -> nat {
    if c.0 < 128 && c.1 < 64 {
        count_in(dots, cell_dot(c, 0)) + count_in(dots, cell_dot(c, 1)) + count_in(
            dots,
            cell_dot(c, 2),
        ) + count_in(dots, cell_dot(c, 3)) + count_in(dots, cell_dot(c, 4)) + count_in(
            dots,
            cell_dot(c, 5),
        ) + count_in(dots, cell_dot(c, 6)) + count_in(dots, cell_dot(c, 7))
    } else {
        0
    }
}

/// A bucket counts each /16 network as its dot, and each screen cell as the
/// sum of its eight dots.
pub open spec fn slot_coherent(s: Slot) -> bool {
    &&& s.networks == s.dots
    &&& forall|c: (usize, usize)| #[trigger] count_in(s.cells, c) == dots_in_cell(s.dots, c)
}

/// Every bucket of the window is coherent.
pub open spec fn window_coherent(v: ActivityModel) -> bool {
    forall|j: int| 0 <= j < v.slots.len() ==> #[trigger] slot_coherent(v.slots[j])
}

/// The dot `(oct1, oct2)` is dot `2 * (oct1 % 4) + oct2 % 2` of its own cell,
/// and no dot of another cell.
proof fn lemma_dot_of_cell(oct1: u8, oct2: u8, c: (usize, usize), i: int)
    requires
        c.0 < 128,
        c.1 < 64,
        0 <= i < 8,
    ensures
        cell_dot(c, i) == (oct1, oct2) <==> (c == cell_of(oct1, oct2) && i == 2 * (oct1 % 4) + oct2
            % 2),
{
}

/// Counting a packet for the dot `(oct1, oct2)` and for its cell keeps each
/// cell the sum of its dots.
proof fn lemma_slot_count_one_more(s: Slot, oct1: u8, oct2: u8)
    requires
        slot_coherent(s),
        count_in(s.cells, cell_of(oct1, oct2)) < usize::MAX,
    ensures
        count_in(s.dots, (oct1, oct2)) < usize::MAX,
        slot_coherent(
            Slot {
                dots: add_one(s.dots, (oct1, oct2)),
                cells: add_one(s.cells, cell_of(oct1, oct2)),
                networks: add_one(s.networks, (oct1, oct2)),
            },
        ),
{
    let k = (oct1, oct2);
    let home = cell_of(oct1, oct2);
    let nd = add_one(s.dots, k);
    let nc = add_one(s.cells, home);
    assert(count_in(s.cells, home) == dots_in_cell(s.dots, home));
    assert forall|i: int| 0 <= i < 8 implies (cell_dot(home, i) == k <==> i == 2 * (oct1 % 4) + oct2
        % 2) by {
        lemma_dot_of_cell(oct1, oct2, home, i);
    }
    assert forall|c: (usize, usize)| #[trigger] count_in(nc, c) == dots_in_cell(nd, c) by {
        assert(count_in(s.cells, c) == dots_in_cell(s.dots, c));
        if c.0 < 128 && c.1 < 64 {
            assert forall|i: int| 0 <= i < 8 implies (cell_dot(c, i) == k <==> (c == home && i == 2
                * (oct1 % 4) + oct2 % 2)) by {
                lemma_dot_of_cell(oct1, oct2, c, i);
            }
        }
    }
}

/// A fresh window is coherent.
pub proof fn lemma_fresh_window_coherent(n: nat, now: u64)
    ensures
        window_coherent(fresh_model(n, now)),
{
    assert forall|j: int| 0 <= j < n implies #[trigger] slot_coherent(fresh_model(n, now).slots[j]) by {
        assert forall|c: (usize, usize)| #[trigger] count_in(empty_slot().cells, c) == dots_in_cell(
            empty_slot().dots,
            c,
        ) by {}
    }
}

/// Moving a coherent window on keeps it coherent, and so does recording a
/// packet in it: every bucket then still counts each /16 network as its dot
/// and each screen cell as the sum of its eight dots. (The counts are
/// machine words, so the packet's cell must count below `usize::MAX` over
/// the window beforehand.)
pub proof fn lemma_window_stays_coherent(v: ActivityModel, oct1: u8, oct2: u8, now: u64)
    requires
        model_ok(v),
        window_coherent(v),
        sum_at(cell_tallies(v.slots), cell_of(oct1, oct2)) < usize::MAX,
    ensures
        window_coherent(advance_model(v, now)),
        window_coherent(record_model(v, oct1, oct2, now)),
{
    let a = advance_model(v, now);
    lemma_fresh_window_coherent(v.slots.len(), now);
    assert forall|j: int| 0 <= j < a.slots.len() implies #[trigger] slot_coherent(a.slots[j]) by {
        if a.slots[j] == empty_slot() {
            assert forall|c: (usize, usize)| #[trigger] count_in(empty_slot().cells, c)
                == dots_in_cell(empty_slot().dots, c) by {}
        } else {
            assert(slot_coherent(v.slots[j]));
        }
    }
    assert forall|j: int| 0 <= j < v.slots.len() implies #[trigger] a.slots[j] == v.slots[j]
        || a.slots[j] == empty_slot() by {}
    let home = cell_of(oct1, oct2);
    lemma_sum_le_when_emptied(cell_tallies(v.slots), cell_tallies(a.slots), home);
    lemma_count_le_sum(cell_tallies(a.slots), a.index, home);
    lemma_slot_count_one_more(a.slots[a.index], oct1, oct2);
}

/// In a coherent window each cell's sum over the buckets is the sum, over
/// its eight dots, of their sums over the buckets.
proof fn lemma_cell_sum_of_dots(slots: Seq<Slot>, c: (usize, usize))
    requires
        forall|j: int| 0 <= j < slots.len() ==> #[trigger] slot_coherent(slots[j]),
    ensures
        sum_at(cell_tallies(slots), c) == (if c.0 < 128 && c.1 < 64 {
            sum_at(dot_tallies(slots), cell_dot(c, 0)) + sum_at(dot_tallies(slots), cell_dot(c, 1))
                + sum_at(dot_tallies(slots), cell_dot(c, 2)) + sum_at(
                dot_tallies(slots),
                cell_dot(c, 3),
            ) + sum_at(dot_tallies(slots), cell_dot(c, 4)) + sum_at(
                dot_tallies(slots),
                cell_dot(c, 5),
            ) + sum_at(dot_tallies(slots), cell_dot(c, 6)) + sum_at(
                dot_tallies(slots),
                cell_dot(c, 7),
            )
        } else {
            0
        }),
    decreases slots.len(),
{
    if slots.len() > 0 {
        let rest = slots.drop_last();
        assert(cell_tallies(slots).drop_last() =~= cell_tallies(rest));
        assert(dot_tallies(slots).drop_last() =~= dot_tallies(rest));
        assert(slot_coherent(slots[slots.len() - 1]));
        assert(count_in(slots.last().cells, c) == dots_in_cell(slots.last().dots, c));
        lemma_cell_sum_of_dots(rest, c);
    }
}

struct ActivityBucket {
    dots: BTreeMap<(u8, u8), usize>,
    cells: BTreeMap<(usize, usize), usize>,
    networks: BTreeMap<(u8, u8), usize>,
}

impl ActivityBucket {
    spec fn slot(&self) -> Slot {
        Slot { dots: self.dots@, cells: self.cells@, networks: self.networks@ }
    }

    fn new() -> (b: ActivityBucket)
        ensures
            b.slot() == empty_slot(),
    {
        ActivityBucket { dots: BTreeMap::new(), cells: BTreeMap::new(), networks: BTreeMap::new() }
    }

    fn clear(&mut self)
        ensures
            final(self).slot() == empty_slot(),
    {
        self.dots.clear();
        self.cells.clear();
        self.networks.clear();
    }
}

/// Packet activity over a sliding hold window, kept as a ring of buckets of
/// `ACTIVITY_BUCKET_WIDTH` each, with running totals per dot, per screen cell
/// and per /16 network. Times are nanoseconds on a monotonic clock.
pub struct ActivityBuckets {
    buckets: Vec<ActivityBucket>,
    current_index: usize,
    current_start: u64,
    pub dots: BTreeMap<(u8, u8), usize>,
    pub cells: BTreeMap<(usize, usize), usize>,
    pub networks: BTreeMap<(u8, u8), usize>,
}

impl View for ActivityBuckets {
    type V = ActivityModel;

    closed spec fn view(&self) -> ActivityModel {
        ActivityModel {
            slots: self.buckets@.map_values(|b: ActivityBucket| b.slot()),
            index: self.current_index as int,
            start: self.current_start as int,
        }
    }
}

impl ActivityBuckets {
    /// The running per-dot totals (`dots`).
    pub closed spec fn dot_totals(&self) -> Map<(u8, u8), usize> {
        self.dots@
    }

    /// The running per-cell totals (`cells`).
    pub closed spec fn cell_totals(&self) -> Map<(usize, usize), usize> {
        self.cells@
    }

    /// The running per-network totals (`networks`).
    pub closed spec fn network_totals(&self) -> Map<(u8, u8), usize> {
        self.networks@
    }

    /// The buckets are a non-empty ring with a current bucket inside it, each
    /// bucket counts the same per dot and per network, and the public totals
    /// are the sums of the bucket tallies.
    pub closed spec fn wf(&self) -> bool {
        &&& self.buckets.len() > 0
        &&& self.current_index < self.buckets.len()
        &&& forall|i: int|
            0 <= i < self.buckets.len() ==> (#[trigger] self.buckets@[i]).networks@
                == self.buckets@[i].dots@
        &&& is_total_of(self.dots@, dot_tallies(self@.slots))
        &&& is_total_of(self.cells@, cell_tallies(self@.slots))
        &&& is_total_of(self.networks@, network_tallies(self@.slots))
        &&& window_coherent(self@)
    }

    /// The running totals are the per-key sums of the bucket tallies (each sum
    /// fits in a machine word), the per-network totals equal the per-dot
    /// ones, and every stored count is positive.
    pub proof fn lemma_totals_are_window_sums(&self)
        requires
            self.wf(),
        ensures
            self@.slots.len() > 0,
            0 <= self@.index < self@.slots.len(),
            self.dot_totals() == total_of(dot_tallies(self@.slots)),
            self.cell_totals() == total_of(cell_tallies(self@.slots)),
            self.network_totals() == total_of(network_tallies(self@.slots)),
            self.network_totals() == self.dot_totals(),
            forall|k: (u8, u8)| #[trigger] sum_at(dot_tallies(self@.slots), k) <= usize::MAX,
            forall|k: (usize, usize)| #[trigger] sum_at(cell_tallies(self@.slots), k) <= usize::MAX,
            forall|k: (u8, u8)| #[trigger] sum_at(network_tallies(self@.slots), k) <= usize::MAX,
            forall|k: (u8, u8)| #[trigger] self.dot_totals().contains_key(k) ==> self.dot_totals()[k] > 0,
            forall|k: (usize, usize)| #[trigger] self.cell_totals().contains_key(k) ==> self.cell_totals()[k]
                > 0,
            forall|k: (u8, u8)| #[trigger] self.network_totals().contains_key(k)
                ==> self.network_totals()[k] > 0,
    {
        assert forall|k: (u8, u8)| #[trigger] sum_at(dot_tallies(self@.slots), k) <= usize::MAX by {
            assert(count_in(self.dots@, k) == sum_at(dot_tallies(self@.slots), k));
        }
        assert forall|k: (usize, usize)| #[trigger] sum_at(cell_tallies(self@.slots), k) <= usize::MAX by {
            assert(count_in(self.cells@, k) == sum_at(cell_tallies(self@.slots), k));
        }
        assert forall|k: (u8, u8)| #[trigger] sum_at(network_tallies(self@.slots), k) <= usize::MAX by {
            assert(count_in(self.networks@, k) == sum_at(network_tallies(self@.slots), k));
        }
        lemma_total_is_total_of(self.dots@, dot_tallies(self@.slots));
        lemma_total_is_total_of(self.cells@, cell_tallies(self@.slots));
        lemma_total_is_total_of(self.networks@, network_tallies(self@.slots));
        assert(network_tallies(self@.slots) =~= dot_tallies(self@.slots));
    }

    /// The running total of each screen cell is the sum of the running totals
    /// of its eight dots.
    pub proof fn lemma_cells_are_dot_sums(&self)
        requires
            self.wf(),
        ensures
            forall|c: (usize, usize)| #[trigger]
                count_in(self.cell_totals(), c) == dots_in_cell(self.dot_totals(), c),
    {
        assert forall|c: (usize, usize)| #[trigger]
            count_in(self.cell_totals(), c) == dots_in_cell(self.dot_totals(), c) by {
            lemma_cell_sum_of_dots(self@.slots, c);
            assert(count_in(self.cells@, c) == sum_at(cell_tallies(self@.slots), c));
            assert forall|i: int| 0 <= i < 8 implies count_in(self.dots@, #[trigger] cell_dot(c, i))
                == sum_at(dot_tallies(self@.slots), cell_dot(c, i)) by {}
        }
    }

    /// The running per-dot totals (the field `dots`), with their contract.
    pub fn dot_map(&self) -> (r: &BTreeMap<(u8, u8), usize>)
        ensures
            r@ == self.dot_totals(),
    {
        &self.dots
    }

    /// The running per-cell totals (the field `cells`), with their contract.
    pub fn cell_map(&self) -> (r: &BTreeMap<(usize, usize), usize>)
        ensures
            r@ == self.cell_totals(),
    {
        &self.cells
    }

    /// The running per-network totals (the field `networks`), with their contract.
    pub fn network_map(&self) -> (r: &BTreeMap<(u8, u8), usize>)
        ensures
            r@ == self.network_totals(),
    {
        &self.networks
    }

    /// The packets counted in the window for the dot of the /16 network `oct1.oct2`.
    pub fn dot_count(&self, oct1: u8, oct2: u8) -> (c: usize)
        ensures
            c == count_in(self.dot_totals(), (oct1, oct2)),
    {
        match self.dots.get(&(oct1, oct2)) {
            Some(c) => *c,
            None => 0,
        }
    }

    /// The packets counted in the window for the screen cell `cell`.
    pub fn cell_count(&self, cell: (usize, usize)) -> (c: usize)
        ensures
            c == count_in(self.cell_totals(), cell),
    {
        match self.cells.get(&cell) {
            Some(c) => *c,
            None => 0,
        }
    }

    /// The packets counted in the window for the /16 network `oct1.oct2`.
    pub fn network_count(&self, oct1: u8, oct2: u8) -> (c: usize)
        ensures
            c == count_in(self.network_totals(), (oct1, oct2)),
    {
        match self.networks.get(&(oct1, oct2)) {
            Some(c) => *c,
            None => 0,
        }
    }

    /// Creates an empty window whose buckets cover `hold_duration` nanoseconds.
    pub fn new(now: u64, hold_duration: u64) -> (r: ActivityBuckets)
        ensures
            r.wf(),
            r@ == fresh_model(bucket_count(hold_duration), now),
            r@.slots.len() == (if hold_duration / 1_000_000 == 0 {
                1
            } else {
                (hold_duration / 1_000_000 + 99) / 100
            }),
            r@.start == now,
    {
        proof {
            lemma_bucket_count_is_ceiling(hold_duration);
        }
        let ms = hold_duration / 1_000_000;
        let mut count: u64 = ms / 100;
        if ms % 100 != 0 {
            count = count + 1;
        }
        if count == 0 {
            count = 1;
        }
        let mut buckets: Vec<ActivityBucket> = Vec::new();
        let mut i: u64 = 0;
        while i < count
            invariant
                i <= count,
                buckets.len() == i,
                forall|j: int| 0 <= j < i ==> (#[trigger] buckets@[j]).slot() == empty_slot(),
            decreases count - i,
        {
            buckets.push(ActivityBucket::new());
            i = i + 1;
        }
        let r = ActivityBuckets {
            buckets,
            current_index: 0,
            current_start: now,
            dots: BTreeMap::new(),
            cells: BTreeMap::new(),
            networks: BTreeMap::new(),
        };
        proof {
            assert(r@.slots =~= fresh_model(bucket_count(hold_duration), now).slots);
            r.lemma_empty_totals();
            lemma_fresh_window_coherent(bucket_count(hold_duration), now);
        }
        r
    }

    /// With no bucket counting anything, empty totals are the totals.
    proof fn lemma_empty_totals(&self)
        requires
            forall|j: int| 0 <= j < self@.slots.len() ==> #[trigger] self@.slots[j] == empty_slot(),
            self.dots@ == Map::<(u8, u8), usize>::empty(),
            self.cells@ == Map::<(usize, usize), usize>::empty(),
            self.networks@ == Map::<(u8, u8), usize>::empty(),
        ensures
            is_total_of(self.dots@, dot_tallies(self@.slots)),
            is_total_of(self.cells@, cell_tallies(self@.slots)),
            is_total_of(self.networks@, network_tallies(self@.slots)),
    {
        assert forall|k: (u8, u8)| #[trigger]
            count_in(self.dots@, k) == sum_at(dot_tallies(self@.slots), k) by {
            lemma_sum_of_empty(dot_tallies(self@.slots), k);
        }
        assert forall|k: (usize, usize)| #[trigger]
            count_in(self.cells@, k) == sum_at(cell_tallies(self@.slots), k) by {
            lemma_sum_of_empty(cell_tallies(self@.slots), k);
        }
        assert forall|k: (u8, u8)| #[trigger]
            count_in(self.networks@, k) == sum_at(network_tallies(self@.slots), k) by {
            lemma_sum_of_empty(network_tallies(self@.slots), k);
        }
    }

    /// Takes `count` off the total of `key`, dropping the entry when it reaches zero.
    fn subtract<K: Ord + Copy>(totals: &mut BTreeMap<K, usize>, key: K, count: usize)
        requires
            obeys_cmp::<K>(),
        ensures
            count_in(final(totals)@, key) == (if count_in(old(totals)@, key) > count {
                count_in(old(totals)@, key) - count
            } else {
                0
            }),
            final(totals)@.remove(key) == old(totals)@.remove(key),
            final(totals)@.contains_key(key) ==> final(totals)@[key] > 0,
            forall|k: K| k != key ==> #[trigger] count_in(final(totals)@, k) == count_in(old(totals)@, k),
            forall|k: K|
                k != key && #[trigger] final(totals)@.contains_key(k) ==> old(totals)@.contains_key(k)
                    && final(totals)@[k] == old(totals)@[k],
    {
        match totals.get(&key) {
            Some(total) => {
                let left = if *total > count {
                    *total - count
                } else {
                    0
                };
                if left == 0 {
                    totals.remove(&key);
                } else {
                    totals.insert(key, left);
                }
            },
            None => {},
        }
        assert(final(totals)@.remove(key) =~= old(totals)@.remove(key));
    }

    /// Takes the counts of `expired` off the totals `totals`, dropping the entries
    /// that reach zero.
    fn subtract_all<K: Ord + Copy>(totals: &mut BTreeMap<K, usize>, expired: &BTreeMap<K, usize>)
        requires
            obeys_cmp::<K>(),
            forall|k: K| #[trigger] count_in(expired@, k) <= count_in(old(totals)@, k),
            forall|k: K| #[trigger] old(totals)@.contains_key(k) ==> old(totals)@[k] > 0,
        ensures
            forall|k: K| #[trigger] count_in(final(totals)@, k) == count_in(old(totals)@, k)
                - count_in(expired@, k),
            forall|k: K| #[trigger] final(totals)@.contains_key(k) ==> final(totals)@[k] > 0,
    {
        let ghost t0 = totals@;
        let ghost entries = expired.iter().remaining();
        let ghost keys = entries.map_values(|e: (&K, &usize)| *e.0);
        for entry in it: expired.iter()
            invariant
                obeys_cmp::<K>(),
                it.seq() == entries,
                entries.no_duplicates(),
                keys == entries.map_values(|e: (&K, &usize)| *e.0),
                forall|k: K| #[trigger] count_in(expired@, k) <= count_in(t0, k),
                forall|k: K| #[trigger] totals@.contains_key(k) ==> totals@[k] > 0,
                forall|k: K|
                    #[trigger] count_in(totals@, k) == count_in(t0, k) - (if keys.take(it.index()).contains(k) {
                        count_in(expired@, k)
                    } else {
                        0
                    }),
        {
            let (key, count) = entry;
            let ghost idx: int = it.index();
            let ghost k0 = *key;
            assert(keys[idx] == k0);
            assert(expired@.contains_key(*entries[idx].0) && expired@[*entries[idx].0] == *entries[idx].1);
            assert(!keys.take(idx).contains(k0)) by {
                if keys.take(idx).contains(k0) {
                    let j = choose|j: int| 0 <= j < idx && #[trigger] keys.take(idx)[j] == k0;
                    assert(keys[j] == keys[idx]);
                    assert(entries[j].0 == entries[idx].0);
                }
            }
            assert forall|k: K|
                (#[trigger] keys.take(idx + 1).contains(k)) <==> (keys.take(idx).contains(k) || k == k0) by {
                if keys.take(idx + 1).contains(k) {
                    let j = choose|j: int| 0 <= j < idx + 1 && #[trigger] keys.take(idx + 1)[j] == k;
                    if j < idx {
                        assert(keys.take(idx)[j] == k);
                    }
                }
                if keys.take(idx).contains(k) {
                    let j = choose|j: int| 0 <= j < idx && #[trigger] keys.take(idx)[j] == k;
                    assert(keys.take(idx + 1)[j] == k);
                }
                if k == k0 {
                    assert(keys.take(idx + 1)[idx] == k);
                }
            }
            assert(entry == entries[idx]);
            assert(*count == expired@[k0]);
            assert(count_in(totals@, k0) == count_in(t0, k0));
            let ghost before = totals@;
            Self::subtract(totals, *key, *count);
            assert forall|k: K| k != k0 implies #[trigger] count_in(totals@, k) == count_in(before, k) by {
            }
            assert(count_in(totals@, k0) == count_in(t0, k0) - count_in(expired@, k0));
        }
        assert forall|k: K| #[trigger] expired@.contains_key(k) implies keys.contains(k) by {
            {
                assert(entries.contains((&k, &expired@[k])));
                let j = choose|j: int| 0 <= j < entries.len() && #[trigger] entries[j] == (&k, &expired@[k]);
                assert(keys[j] == k);
            }
        }
        assert(keys.take(seq_len(keys)) =~= keys);
    }


    /// The bucket tallies are consistent with the running totals.
    closed spec fn totals_ok(&self) -> bool {
        &&& self.buckets.len() > 0
        &&& forall|i: int|
            0 <= i < self.buckets.len() ==> (#[trigger] self.buckets@[i]).networks@
                == self.buckets@[i].dots@
        &&& is_total_of(self.dots@, dot_tallies(self@.slots))
        &&& is_total_of(self.cells@, cell_tallies(self@.slots))
        &&& is_total_of(self.networks@, network_tallies(self@.slots))
    }

    /// Empties the bucket `idx` and takes its counts off the running totals.
    fn expire_bucket(&mut self, idx: usize)
        requires
            old(self).totals_ok(),
            idx < old(self).buckets.len(),
        ensures
            final(self).totals_ok(),
            final(self)@.slots == old(self)@.slots.update(idx as int, empty_slot()),
            final(self).current_index == old(self).current_index,
            final(self).current_start == old(self).current_start,
    {
        let ghost slots = self@.slots;
        proof {
            assert forall|k: (u8, u8)| #[trigger]
                count_in(self.buckets@[idx as int].dots@, k) <= count_in(self.dots@, k) by {
                lemma_count_le_sum(dot_tallies(slots), idx as int, k);
            }
            assert forall|k: (usize, usize)| #[trigger]
                count_in(self.buckets@[idx as int].cells@, k) <= count_in(self.cells@, k) by {
                lemma_count_le_sum(cell_tallies(slots), idx as int, k);
            }
            assert forall|k: (u8, u8)| #[trigger]
                count_in(self.buckets@[idx as int].networks@, k) <= count_in(self.networks@, k) by {
                lemma_count_le_sum(network_tallies(slots), idx as int, k);
            }
        }
        Self::subtract_all(&mut self.dots, &self.buckets[idx].dots);
        Self::subtract_all(&mut self.cells, &self.buckets[idx].cells);
        Self::subtract_all(&mut self.networks, &self.buckets[idx].networks);
        self.buckets.set(idx, ActivityBucket::new());
        proof {
            let ns = slots.update(idx as int, empty_slot());
            assert(self@.slots =~= ns);
            assert(dot_tallies(ns) =~= dot_tallies(slots).update(idx as int, Map::empty()));
            assert(cell_tallies(ns) =~= cell_tallies(slots).update(idx as int, Map::empty()));
            assert(network_tallies(ns) =~= network_tallies(slots).update(idx as int, Map::empty()));
            assert forall|k: (u8, u8)| #[trigger]
                count_in(self.dots@, k) == sum_at(dot_tallies(ns), k) by {
                lemma_sum_update(dot_tallies(slots), idx as int, Map::empty(), k);
            }
            assert forall|k: (usize, usize)| #[trigger]
                count_in(self.cells@, k) == sum_at(cell_tallies(ns), k) by {
                lemma_sum_update(cell_tallies(slots), idx as int, Map::empty(), k);
            }
            assert forall|k: (u8, u8)| #[trigger]
                count_in(self.networks@, k) == sum_at(network_tallies(ns), k) by {
                lemma_sum_update(network_tallies(slots), idx as int, Map::empty(), k);
            }
            assert forall|i: int| 0 <= i < self.buckets.len() implies (#[trigger] self.buckets@[
                i]).networks@ == self.buckets@[i].dots@ by {
                if i != idx {
                    assert(self.buckets@[i] == old(self).buckets@[i]);
                }
            }
        }
    }

    /// Empties every bucket and every running total.
    fn clear_all(&mut self)
        requires
            old(self).buckets.len() > 0,
        ensures
            final(self).totals_ok(),
            final(self)@.slots == Seq::new(old(self)@.slots.len(), |j: int| empty_slot()),
            final(self).current_index == old(self).current_index,
            final(self).current_start == old(self).current_start,
    {
        let n = self.buckets.len();
        let mut i: usize = 0;
        while i < n
            invariant
                i <= n,
                self.buckets.len() == n,
                self.current_index == old(self).current_index,
                self.current_start == old(self).current_start,
                forall|j: int| 0 <= j < i ==> (#[trigger] self.buckets@[j]).slot() == empty_slot(),
            decreases n - i,
        {
            self.buckets.set(i, ActivityBucket::new());
            i = i + 1;
        }
        self.dots.clear();
        self.cells.clear();
        self.networks.clear();
        proof {
            assert(self@.slots =~= Seq::new(old(self)@.slots.len(), |j: int| empty_slot()));
            self.lemma_empty_totals();
            assert forall|i: int| 0 <= i < self.buckets.len() implies (#[trigger] self.buckets@[
                i]).networks@ == self.buckets@[i].dots@ by {
                assert(self.buckets@[i].slot() == empty_slot());
            }
        }
    }

    /// Moves the window on to `now`: one bucket expires, and its counts leave
    /// the running totals, per whole bucket width elapsed since the current
    /// bucket started; once the whole ring has elapsed everything is cleared
    /// and the window restarts at `now`.
    pub fn advance(&mut self, now: u64)
        requires
            old(self).wf(),
        ensures
            final(self).wf(),
            final(self)@ == advance_model(old(self)@, now),
    {
        let elapsed = if now > self.current_start {
            now - self.current_start
        } else {
            0
        };
        let steps = elapsed / ACTIVITY_BUCKET_WIDTH;
        if steps == 0 {
            return;
        }
        let n = self.buckets.len();
        if steps >= n as u64 {
            self.clear_all();
            self.current_index = 0;
            self.current_start = now;
            proof {
                assert(self@ == advance_model(old(self)@, now));
                lemma_fresh_window_coherent(old(self)@.slots.len(), now);
            }
            return;
        }
        let ghost v0 = self@;
        let mut i: u64 = 0;
        while i < steps
            invariant
                v0 == old(self)@,
                n == self.buckets.len(),
                v0.slots.len() == n,
                0 <= v0.index < n,
                0 < steps < n,
                steps == steps_since(v0.start, now),
                i <= steps,
                self.totals_ok(),
                self.current_index == (if v0.index + i < n {
                    v0.index + i
                } else {
                    v0.index + i - n
                }),
                self.current_start == v0.start + i * ACTIVITY_BUCKET_WIDTH,
                v0.start + steps * ACTIVITY_BUCKET_WIDTH <= now,
                self@.slots == Seq::new(
                    n as nat,
                    |j: int|
                        if slot_distance(j, v0.index, n as int) <= i {
                            empty_slot()
                        } else {
                            v0.slots[j]
                        },
                ),
            decreases steps - i,
        {
            let next = if self.current_index + 1 == n {
                0
            } else {
                self.current_index + 1
            };
            self.current_index = next;
            self.expire_bucket(next);
            self.current_start = self.current_start + ACTIVITY_BUCKET_WIDTH;
            i = i + 1;
            proof {
                assert(slot_distance(next as int, v0.index, n as int) == i);
                assert(self@.slots =~= Seq::new(
                    n as nat,
                    |j: int|
                        if slot_distance(j, v0.index, n as int) <= i {
                            empty_slot()
                        } else {
                            v0.slots[j]
                        },
                ));
            }
        }
        proof {
            assert(self@ =~= advance_model(old(self)@, now));
            assert forall|j: int| 0 <= j < n implies #[trigger] slot_coherent(self@.slots[j]) by {
                if self@.slots[j] == empty_slot() {
                    lemma_fresh_window_coherent(1, now);
                    assert(fresh_model(1, now).slots[0] == empty_slot());
                } else {
                    assert(slot_coherent(v0.slots[j]));
                }
            }
        }
    }

    /// Counts one packet from the /16 network `oct1.oct2` at time `now`, after
    /// moving the window on to `now`: the running totals are those of the
    /// window moved on to `now`, with the packet's dot, network and cell each
    /// counted once more.
    pub fn record(&mut self, oct1: u8, oct2: u8, now: u64)
        requires
            old(self).wf(),
            count_in(old(self).dot_totals(), (oct1, oct2)) < usize::MAX,
            count_in(old(self).cell_totals(), cell_of(oct1, oct2)) < usize::MAX,
        ensures
            final(self).wf(),
            final(self)@ == record_model(old(self)@, oct1, oct2, now),
            forall|k: (u8, u8)| #[trigger] count_in(final(self).dot_totals(), k) == sum_at(
                dot_tallies(advance_model(old(self)@, now).slots),
                k,
            ) + if k == (oct1, oct2) {
                1int
            } else {
                0int
            },
            forall|k: (u8, u8)| #[trigger] count_in(final(self).network_totals(), k) == sum_at(
                network_tallies(advance_model(old(self)@, now).slots),
                k,
            ) + if k == (oct1, oct2) {
                1int
            } else {
                0int
            },
            forall|k: (usize, usize)| #[trigger] count_in(final(self).cell_totals(), k) == sum_at(
                cell_tallies(advance_model(old(self)@, now).slots),
                k,
            ) + if k == cell_of(oct1, oct2) {
                1int
            } else {
                0int
            },
    {
        self.advance(now);
        let ghost a = self@;
        let ghost v0 = old(self)@;
        let ghost d1 = self.dots@;
        let ghost c1 = self.cells@;
        let ghost n1 = self.networks@;
        let dot_key = (oct1, oct2);
        let cell_key = cell_key(oct1, oct2);
        let idx = self.current_index;
        proof {
            assert(cell_key == cell_of(oct1, oct2));
            self.lemma_advance_lowers_counts(v0, old(self).dots@, old(self).cells@, now);
            self.lemma_totals_are_window_sums();
            lemma_count_le_sum(dot_tallies(a.slots), idx as int, dot_key);
            lemma_count_le_sum(cell_tallies(a.slots), idx as int, cell_key);
            assert(count_in(old(self).cells@, cell_key) == sum_at(cell_tallies(v0.slots), cell_key));
            lemma_window_stays_coherent(v0, oct1, oct2, now);
        }
        increment(&mut self.buckets[idx].dots, dot_key);
        increment(&mut self.buckets[idx].cells, cell_key);
        increment(&mut self.buckets[idx].networks, dot_key);
        increment(&mut self.dots, dot_key);
        increment(&mut self.cells, cell_key);
        increment(&mut self.networks, dot_key);
        proof {
            let s = a.slots[idx as int];
            let ns = Slot {
                dots: add_one(s.dots, dot_key),
                cells: add_one(s.cells, cell_key),
                networks: add_one(s.networks, dot_key),
            };
            assert(self@.slots =~= a.slots.update(idx as int, ns));
            assert(self@ =~= record_model(v0, oct1, oct2, now));
            assert(dot_tallies(self@.slots) =~= dot_tallies(a.slots).update(idx as int, ns.dots));
            assert(cell_tallies(self@.slots) =~= cell_tallies(a.slots).update(idx as int, ns.cells));
            assert(network_tallies(self@.slots) =~= network_tallies(a.slots).update(
                idx as int,
                ns.networks,
            ));
            lemma_count_one_more(d1, dot_tallies(a.slots), idx as int, dot_key);
            lemma_count_one_more(c1, cell_tallies(a.slots), idx as int, cell_key);
            lemma_count_one_more(n1, network_tallies(a.slots), idx as int, dot_key);
            assert forall|k: (u8, u8)| #[trigger] count_in(self.dots@, k) == sum_at(
                dot_tallies(a.slots), k) + if k == dot_key { 1int } else { 0int } by {
                assert(count_in(d1, k) == sum_at(dot_tallies(a.slots), k));
            }
            assert forall|k: (u8, u8)| #[trigger] count_in(self.networks@, k) == sum_at(
                network_tallies(a.slots), k) + if k == dot_key { 1int } else { 0int } by {
                assert(count_in(n1, k) == sum_at(network_tallies(a.slots), k));
            }
            assert forall|k: (usize, usize)| #[trigger] count_in(self.cells@, k) == sum_at(
                cell_tallies(a.slots), k) + if k == cell_key { 1int } else { 0int } by {
                assert(count_in(c1, k) == sum_at(cell_tallies(a.slots), k));
            }
        }
    }

    /// Moving the window on never adds a key to the running totals nor raises
    /// a count: `after` is `before` moved on to `now`.
    pub proof fn lemma_advance_never_raises(before: &ActivityBuckets, after: &ActivityBuckets, now: u64)
        requires
            before.wf(),
            after.wf(),
            after@ == advance_model(before@, now),
        ensures
            forall|k: (u8, u8)| #[trigger]
                count_in(after.dot_totals(), k) <= count_in(before.dot_totals(), k),
            forall|k: (usize, usize)| #[trigger]
                count_in(after.cell_totals(), k) <= count_in(before.cell_totals(), k),
            forall|k: (u8, u8)| #[trigger]
                count_in(after.network_totals(), k) <= count_in(before.network_totals(), k),
    {
        after.lemma_advance_lowers_counts(before@, before.dots@, before.cells@, now);
        before.lemma_totals_are_window_sums();
        after.lemma_totals_are_window_sums();
    }

    /// Moving the window on only lowers the running counts.
    proof fn lemma_advance_lowers_counts(
        &self,
        v0: ActivityModel,
        dots0: Map<(u8, u8), usize>,
        cells0: Map<(usize, usize), usize>,
        now: u64,
    )
        requires
            self.wf(),
            self@ == advance_model(v0, now),
            is_total_of(dots0, dot_tallies(v0.slots)),
            is_total_of(cells0, cell_tallies(v0.slots)),
        ensures
            forall|k: (u8, u8)| #[trigger] count_in(self.dots@, k) <= count_in(dots0, k),
            forall|k: (usize, usize)| #[trigger] count_in(self.cells@, k) <= count_in(cells0, k),
    {
        assert forall|j: int| 0 <= j < v0.slots.len() implies #[trigger] self@.slots[j] == v0.slots[j]
            || self@.slots[j] == empty_slot() by {}
        assert forall|k: (u8, u8)| #[trigger] count_in(self.dots@, k) <= count_in(dots0, k) by {
            lemma_sum_le_when_emptied(dot_tallies(v0.slots), dot_tallies(self@.slots), k);
        }
        assert forall|k: (usize, usize)| #[trigger] count_in(self.cells@, k) <= count_in(cells0, k) by {
            lemma_sum_le_when_emptied(cell_tallies(v0.slots), cell_tallies(self@.slots), k);
        }
    }

    /// Starts over with an empty window covering `hold_duration` nanoseconds from `now`.
    pub fn reset(&mut self, now: u64, hold_duration: u64)
        ensures
            final(self).wf(),
            final(self)@ == fresh_model(bucket_count(hold_duration), now),
    {
        *self = Self::new(now, hold_duration);
    }
}

} // verus!
