use std::collections::BTreeMap;

use braillepcap::activity::ActivityBuckets;
use braillepcap::rir::{get_iana_rir, get_rir_index, rir_name_of, RIR_COUNT};
use braillepcap::screen::{
    count_registry, flush_registry_counts, reset_screen_state, top_registries, DetailPps, PpsMeter,
    ONE_SECOND,
};

#[test]
fn pps_meter_shows_whole_seconds() {
    let mut m = PpsMeter::new(0);
    m.apply_batch(5, None, 100);
    assert_eq!((m.pps, m.accumulator, m.packet_count), (0, 5, 5));
    m.apply_batch(3, None, ONE_SECOND);
    assert_eq!((m.pps, m.accumulator, m.window_start), (8, 0, ONE_SECOND));
    m.apply_batch(2, Some(42), ONE_SECOND + 5);
    assert_eq!((m.pps, m.accumulator, m.window_start, m.packet_count), (42, 0, ONE_SECOND + 5, 10));
}

#[test]
fn reset_clears_everything_on_screen() {
    let mut activity = ActivityBuckets::new(0, 500_000_000);
    activity.record(1, 2, 0);
    let mut rir_counter = BTreeMap::from([(9u8, 3usize)]);
    let mut rir_delta = BTreeMap::from([(5u8, 1usize)]);
    let (mut packets, mut pps, mut window, mut last) = (7, 9, 1, 2);
    reset_screen_state(
        &mut activity, 500_000_000, &mut rir_counter, &mut rir_delta, &mut packets, &mut pps,
        &mut window, &mut last, 77, 78, 79,
    );
    assert!(activity.networks.is_empty());
    assert!(rir_counter.is_empty() && rir_delta.is_empty());
    assert_eq!((packets, pps, window, last), (0, 0, 78, 79));
    assert_eq!(ActivityBuckets::new(77, 500_000_000).dot_map(), activity.dot_map());
}

#[test]
fn detail_figures_follow_whole_seconds_live() {
    let mut d = DetailPps::new(0);
    d.apply_batch(false, &vec![(1, 2, 3), (1, 2, 4), (5, 6, 7)], 10);
    assert!(d.shown.is_empty());
    assert_eq!(d.accumulator.get(&(1, 2)), Some(&2));
    d.apply_batch(false, &vec![(5, 6, 0)], ONE_SECOND);
    assert_eq!(d.shown, BTreeMap::from([((1, 2), 2), ((5, 6), 2)]));
    assert!(d.accumulator.is_empty());
    assert_eq!(d.window_start, ONE_SECOND);
}

#[test]
fn detail_figures_follow_capture_seconds_in_replay() {
    let mut d = DetailPps::new(0);
    d.apply_batch(false, &vec![(9, 9, 9)], 5);
    // The first capture second to end only starts a complete window.
    d.apply_batch(true, &vec![(1, 1, 1)], 6);
    assert!(d.shown.is_empty());
    assert_eq!(d.accumulator, BTreeMap::from([((1, 1), 1)]));
    assert!(d.has_complete_window);
    d.apply_batch(true, &vec![(2, 2, 2)], 7);
    assert_eq!(d.shown, BTreeMap::from([((1, 1), 1)]));
    assert_eq!(d.accumulator, BTreeMap::from([((2, 2), 1)]));
    assert_eq!(d.window_start, 7);
}

#[test]
fn registry_indices_name_the_same_registry() {
    for octet in 0..=255u8 {
        let id = get_rir_index(octet);
        assert!(id < RIR_COUNT);
        assert_eq!(rir_name_of(id), get_iana_rir(octet));
    }
    assert_eq!(rir_name_of(get_rir_index(1)), "APNIC");
    assert_eq!(rir_name_of(get_rir_index(8)), "ARIN");
}

#[test]
fn registry_counts_are_flushed_into_the_totals() {
    let mut delta = BTreeMap::new();
    count_registry(&mut delta, 1);
    count_registry(&mut delta, 14);
    count_registry(&mut delta, 2);
    assert_eq!(delta, BTreeMap::from([(5u8, 2usize), (6u8, 1usize)]));
    let mut counter = BTreeMap::from([(6u8, 4usize), (9u8, 1usize)]);
    flush_registry_counts(&mut counter, &mut delta);
    assert!(delta.is_empty());
    assert_eq!(counter, BTreeMap::from([(5u8, 2usize), (6u8, 5usize), (9u8, 1usize)]));
}

#[test]
fn top_registries_lists_the_five_busiest() {
    let counter = BTreeMap::from([
        (0u8, 1usize),
        (1, 7),
        (2, 3),
        (5, 10),
        (6, 3),
        (7, 2),
        (9, 10),
    ]);
    assert_eq!(top_registries(&counter), vec![(5, 10), (9, 10), (1, 7), (2, 3), (6, 3)]);
    let few = BTreeMap::from([(8u8, 2usize), (3, 4)]);
    assert_eq!(top_registries(&few), vec![(3, 4), (8, 2)]);
    assert!(top_registries(&BTreeMap::new()).is_empty());
}

#[test]
fn live_packet_count_covers_one_second() {
    let mut meter = PpsMeter::new(0);
    meter.apply_batch(5, None, 10);
    let mut last = 0;
    meter.roll_live_count(&mut last, ONE_SECOND - 1);
    assert_eq!((meter.packet_count, last), (5, 0));
    meter.roll_live_count(&mut last, ONE_SECOND);
    assert_eq!((meter.packet_count, last), (0, ONE_SECOND));
}
