use std::collections::BTreeMap;

use braillepcap::activity::{
    cell_key, detail_activity_cells, display_coordinates, parse_zoom_target, ActivityBuckets,
    ACTIVITY_BUCKET_WIDTH,
};

const MS: u64 = 1_000_000;

#[test]
fn net_mode_displays_each_ipv4_address_as_a_dot() {
    let address = (192, 168, 12, 34);
    assert_eq!(display_coordinates(true, address), (12, 34));
    assert_eq!(display_coordinates(false, address), (192, 168));
}

#[test]
fn parse_zoom_target_accepts_first_two_octets_in_16_form() {
    assert_eq!(parse_zoom_target("13.112").unwrap(), (13, 112));
    assert_eq!(parse_zoom_target("13.112/16").unwrap(), (13, 112));
    assert_eq!(parse_zoom_target("192.168").unwrap(), (192, 168));
    assert_eq!(parse_zoom_target("192.168/16").unwrap(), (192, 168));
    assert!(parse_zoom_target("192.168.0.0/16").is_ok());
    assert!(parse_zoom_target("192").is_err());
    assert!(parse_zoom_target("256.168").is_err());
    assert!(parse_zoom_target("253.0").is_err());
    assert!(parse_zoom_target("252.253/16").is_err());
}

#[test]
fn parse_zoom_target_reports_each_refusal() {
    assert_eq!(
        parse_zoom_target("10.0/24").unwrap_err(),
        "Only /16 ranges are supported in the detail zoom view."
    );
    assert_eq!(parse_zoom_target("10.x").unwrap_err(), "Invalid IPv4 address. Use a.b /16");
    assert_eq!(parse_zoom_target("253.1").unwrap_err(), "Zoom start must be between 0 and 252");
    assert_eq!(
        parse_zoom_target("10.1.2").unwrap_err(),
        "Invalid IPv4 address. Use a.b /16 or a.b.c.d/16"
    );
    assert_eq!(
        parse_zoom_target("10.01.2.3").unwrap_err(),
        "Invalid IPv4 address. Use a.b /16 or a.b.c.d/16"
    );
    assert_eq!(
        parse_zoom_target("253.1.2.3/16").unwrap_err(),
        "Zoom start must be between 0 and 252"
    );
}

#[test]
fn parse_zoom_target_trims_and_follows_integer_grammar() {
    assert_eq!(parse_zoom_target("  10.20 \t").unwrap(), (10, 20));
    assert_eq!(parse_zoom_target("\u{3000}10.20/ 16 ").unwrap(), (10, 20));
    // Only the whole input and the prefix are trimmed, not the address before '/'.
    assert!(parse_zoom_target("10.20 /16").is_err());
    assert_eq!(parse_zoom_target("+10.020").unwrap(), (10, 20));
    assert_eq!(parse_zoom_target("0.0.0.0").unwrap(), (0, 0));
    assert!(parse_zoom_target("10 .20").is_err());
    assert!(parse_zoom_target("-1.20").is_err());
    assert!(parse_zoom_target("").is_err());
    assert!(parse_zoom_target("10.20.30.256").is_err());
}

#[test]
fn detail_activity_cells_use_the_selected_braille_window() {
    let activity = BTreeMap::from([
        ((192, 168), 24),
        ((192, 169), 14),
        ((192, 170), 8),
        ((192, 171), 2),
        ((193, 168), 0),
        ((193, 169), 0),
        ((193, 170), 18),
        ((193, 171), 4),
        ((194, 168), 6),
        ((194, 169), 10),
        ((194, 170), 16),
        ((194, 171), 12),
        ((195, 168), 22),
        ((195, 169), 20),
        ((195, 170), 26),
        ((195, 171), 28),
    ]);
    let cells = detail_activity_cells((192, 168), &activity);
    assert_eq!(cells.len(), 16);
    assert_eq!(cells[0].1, 24);
    assert_eq!(cells[1].1, 14);
    assert_eq!(cells[2].1, 8);
    assert_eq!(cells[3].1, 2);
    assert_eq!(cells[4].1, 0);
    assert_eq!(cells[5].1, 0);
    assert_eq!(cells[6].1, 18);
    assert_eq!(cells[7].1, 4);
    assert_eq!(cells[8].1, 6);
    assert_eq!(cells[9].1, 10);
    assert_eq!(cells[10].1, 16);
    assert_eq!(cells[11].1, 12);
    assert_eq!(cells[12].1, 22);
    assert_eq!(cells[13].1, 20);
    assert_eq!(cells[14].1, 26);
    assert_eq!(cells[15].1, 28);
}

#[test]
fn detail_activity_cells_clip_at_the_last_octet() {
    let activity = BTreeMap::from([((254, 255), 7)]);
    let cells = detail_activity_cells((254, 254), &activity);
    assert_eq!(
        cells,
        vec![((254, 254), 0), ((254, 255), 7), ((255, 254), 0), ((255, 255), 0)]
    );
    assert_eq!(detail_activity_cells((10, 0), &BTreeMap::new())[5], ((11, 1), 0));
}

#[test]
fn activity_buckets_expire_data_by_bucket_width() {
    let start = 5_000 * MS;
    let mut activity = ActivityBuckets::new(start, 300 * MS);
    activity.record(10, 123, start);
    assert_eq!(activity.networks.get(&(10, 123)), Some(&1));
    activity.advance(start + 299 * MS);
    assert_eq!(activity.networks.get(&(10, 123)), Some(&1));
    activity.advance(start + 300 * MS);
    assert!(!activity.networks.contains_key(&(10, 123)));
}

#[test]
fn record_counts_dots_cells_and_networks() {
    let start = 0;
    let mut activity = ActivityBuckets::new(start, 500 * MS);
    activity.record(10, 123, start);
    activity.record(10, 123, start + 150 * MS);
    activity.record(11, 122, start + 160 * MS);
    assert_eq!(activity.dots.get(&(10, 123)), Some(&2));
    assert_eq!(activity.networks.get(&(10, 123)), Some(&2));
    assert_eq!(activity.networks.get(&(11, 122)), Some(&1));
    // (10, 123) and (11, 122) share the Braille cell (61, 2).
    assert_eq!(activity.cells.get(&(61, 2)), Some(&3));
    assert_eq!(activity.cells.len(), 1);
}

#[test]
fn each_bucket_lives_for_the_hold_window() {
    let mut activity = ActivityBuckets::new(0, 300 * MS);
    activity.record(1, 1, 0);
    activity.record(2, 2, 150 * MS);
    activity.advance(299 * MS);
    assert_eq!(activity.networks.len(), 2);
    activity.advance(300 * MS);
    assert_eq!(activity.networks.get(&(1, 1)), None);
    assert_eq!(activity.networks.get(&(2, 2)), Some(&1));
    // The second packet fell in the bucket that started at 100 ms.
    activity.advance(399 * MS);
    assert_eq!(activity.networks.get(&(2, 2)), Some(&1));
    activity.advance(100 * MS + 3 * ACTIVITY_BUCKET_WIDTH);
    assert!(activity.networks.is_empty());
    assert!(activity.cells.is_empty());
    assert!(activity.dots.is_empty());
}

#[test]
fn a_long_pause_clears_the_window() {
    let mut activity = ActivityBuckets::new(0, 1_000 * MS);
    activity.record(8, 8, 0);
    activity.record(9, 9, 900 * MS);
    activity.advance(60_000 * MS);
    assert!(activity.networks.is_empty());
    activity.record(8, 8, 60_000 * MS);
    assert_eq!(activity.networks.get(&(8, 8)), Some(&1));
}

#[test]
fn bucket_count_rounds_the_hold_up() {
    // A hold under one bucket width still keeps one bucket.
    let mut activity = ActivityBuckets::new(0, 10 * MS);
    activity.record(3, 3, 0);
    activity.advance(99 * MS);
    assert_eq!(activity.networks.get(&(3, 3)), Some(&1));
    activity.advance(100 * MS);
    assert!(activity.networks.is_empty());
    // 250 ms rounds up to three buckets.
    let mut activity = ActivityBuckets::new(0, 250 * MS);
    activity.record(3, 3, 0);
    activity.advance(299 * MS);
    assert_eq!(activity.networks.get(&(3, 3)), Some(&1));
    activity.advance(300 * MS);
    assert!(activity.networks.is_empty());
}

#[test]
fn reset_empties_the_window() {
    let mut activity = ActivityBuckets::new(0, 300 * MS);
    activity.record(4, 4, 0);
    activity.reset(10 * MS, 300 * MS);
    assert!(activity.networks.is_empty());
    activity.record(4, 4, 10 * MS);
    assert_eq!(activity.networks.get(&(4, 4)), Some(&1));
}

#[test]
fn two_part_zoom_targets_follow_the_u8_grammar() {
    let samples = [
        "0", "1", "+1", "++1", "-1", "-0", "+", "", " 1", "1 ", "007", "252", "253", "255", "256",
        "1_0", "١", "0x1", "99999999999999999999",
    ];
    for a in samples {
        let target = format!("{}.7", a);
        let expected = match a.parse::<u8>() {
            Ok(v) if v <= 252 => Some((v, 7)),
            _ => None,
        };
        // A blank first part is trimmed away with the rest of the input.
        let expected = if a.starts_with(' ') { expected.or(a.trim().parse::<u8>().ok().map(|v| (v, 7))) } else { expected };
        assert_eq!(parse_zoom_target(&target).ok(), expected, "{:?}", target);
    }
}

#[test]
fn activity_counts_are_read_through_accessors() {
    let mut activity = ActivityBuckets::new(0, 300 * MS);
    activity.record(10, 123, 0);
    assert_eq!(activity.dot_count(10, 123), 1);
    assert_eq!(activity.network_count(10, 123), 1);
    assert_eq!(activity.cell_count((61, 2)), 1);
    assert_eq!(activity.dot_count(10, 124), 0);
}

#[test]
fn advancing_twice_to_the_same_time_changes_nothing() {
    let mut activity = ActivityBuckets::new(0, 300 * MS);
    activity.record(5, 5, 0);
    activity.advance(250 * MS);
    activity.advance(250 * MS);
    assert_eq!(activity.network_count(5, 5), 1);
    activity.advance(300 * MS);
    assert_eq!(activity.network_count(5, 5), 0);
}

#[test]
fn each_cell_counts_the_sum_of_its_eight_dots() {
    let mut activity = ActivityBuckets::new(0, 300 * MS);
    // Cell (3, 1) holds first octets 4..=7 and second octets 6..=7.
    activity.record(4, 6, 0);
    activity.record(5, 7, 10 * MS);
    activity.record(7, 6, 120 * MS);
    activity.record(7, 6, 130 * MS);
    // (8, 6) belongs to the cell below, (4, 8) to the cell on the right.
    activity.record(8, 6, 140 * MS);
    activity.record(4, 8, 150 * MS);
    let mut sum = 0;
    for oct1 in 4..8u8 {
        for oct2 in 6..8u8 {
            sum += activity.dot_count(oct1, oct2);
        }
    }
    assert_eq!(sum, 4);
    assert_eq!(activity.cell_count((3, 1)), 4);
    assert_eq!(activity.cell_count((3, 2)), 1);
    assert_eq!(activity.cell_count((4, 1)), 1);
    // The first bucket expires: its two packets leave the dot and the cell.
    activity.advance(300 * MS);
    assert_eq!(activity.cell_count((3, 1)), 2);
    assert_eq!(activity.dot_count(7, 6), 2);
    assert_eq!(activity.dot_count(4, 6), 0);
}

#[test]
fn totals_are_read_through_their_maps() {
    let mut activity = ActivityBuckets::new(0, 300 * MS);
    activity.record(10, 123, 0);
    activity.record(10, 123, 0);
    assert_eq!(cell_key(10, 123), (61, 2));
    assert_eq!(activity.dot_map(), &activity.dots);
    assert_eq!(activity.cell_map().get(&cell_key(10, 123)), Some(&2));
    assert_eq!(activity.network_map().get(&(10, 123)), Some(&2));
    // Moving on to a time already passed changes nothing.
    activity.advance(0);
    assert_eq!(activity.dot_count(10, 123), 2);
}

#[test]
fn two_records_at_one_time_commute() {
    let mut a1 = ActivityBuckets::new(0, 300 * MS);
    let mut a2 = ActivityBuckets::new(0, 300 * MS);
    a1.record(1, 2, 150 * MS);
    a1.record(3, 4, 150 * MS);
    a2.record(3, 4, 150 * MS);
    a2.record(1, 2, 150 * MS);
    assert_eq!(a1.dots, a2.dots);
    assert_eq!(a1.cells, a2.cells);
    assert_eq!(a1.networks, a2.networks);
}

#[test]
fn advancing_never_raises_a_count() {
    let mut activity = ActivityBuckets::new(0, 300 * MS);
    activity.record(1, 1, 0);
    activity.record(1, 1, 120 * MS);
    activity.record(2, 2, 250 * MS);
    let before = activity.dots.clone();
    activity.advance(320 * MS);
    for (k, v) in activity.dots.iter() {
        assert!(*v <= before[k]);
        assert!(*v > 0);
    }
    assert_eq!(activity.dot_count(1, 1), 1);
}

#[test]
fn decimal_zoom_targets_read_back() {
    for (a, b) in [(0u8, 0u8), (7, 19), (252, 252), (100, 9)] {
        assert_eq!(parse_zoom_target(&format!("{}.{}", a, b)), Ok((a, b)));
        assert_eq!(parse_zoom_target(&format!("{}.{}/16", a, b)), Ok((a, b)));
        assert_eq!(parse_zoom_target(&format!("{}.{}.{}.{}/16", a, b, 255, 0)), Ok((a, b)));
    }
}

#[test]
fn a_whole_ring_after_the_latest_time_empties_the_window() {
    let mut activity = ActivityBuckets::new(0, 300 * MS);
    activity.record(1, 1, 0);
    activity.record(2, 2, 200 * MS);
    activity.advance(499 * MS);
    assert_eq!(activity.dot_count(2, 2), 1);
    activity.advance(200 * MS + 300 * MS);
    assert!(activity.dots.is_empty() && activity.cells.is_empty() && activity.networks.is_empty());
}
