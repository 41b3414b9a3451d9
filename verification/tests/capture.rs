use std::time::Duration;

use braillepcap::packet::capture::{
    collect_dot, file_batch, flush_due, last_file_batch, live_batch, parse_packet, safe_packet_timestamp,
    PcapSecondCounter, MAX_BATCH,
};
use braillepcap::packet::os::{calculate_l2_offset, Linktype, Platform};

#[test]
fn rejects_invalid_packet_timestamps() {
    assert_eq!(safe_packet_timestamp(-1, 0), None);
    assert_eq!(safe_packet_timestamp(1, -1), None);
    assert_eq!(safe_packet_timestamp(1, 1_000_000), None);
}

#[test]
fn parses_valid_packet_timestamp() {
    assert_eq!(
        safe_packet_timestamp(12, 345_678),
        Some(Duration::new(12, 345_678_000))
    );
    assert_eq!(safe_packet_timestamp(0, 999_999), Some(Duration::new(0, 999_999_000)));
}

fn ipv4_header(src: [u8; 4], proto: u8, dst_port: u16) -> Vec<u8> {
    let mut pkt = vec![0u8; 24];
    pkt[0] = 0x45;
    pkt[9] = proto;
    pkt[12..16].copy_from_slice(&src);
    pkt[22..24].copy_from_slice(&dst_port.to_be_bytes());
    pkt
}

#[test]
fn ethernet_frames_are_stripped_before_parsing() {
    let mut frame = vec![0u8; 12];
    frame.extend_from_slice(&[0x08, 0x00]);
    frame.extend_from_slice(&ipv4_header([1, 2, 3, 4], 6, 80));
    assert_eq!(
        parse_packet(&frame, Linktype(1), Platform::Other, &[80], &[]),
        Some((1, 2, 3))
    );
    assert_eq!(parse_packet(&frame, Linktype(1), Platform::Other, &[81], &[]), None);
    assert_eq!(parse_packet(&frame, Linktype(999), Platform::Other, &[], &[]), None);
}

#[test]
fn vlan_tagged_frames_need_ipv4_inside() {
    let mut frame = vec![0u8; 12];
    frame.extend_from_slice(&[0x81, 0x00, 0x00, 0x05, 0x08, 0x00]);
    assert_eq!(calculate_l2_offset(Platform::Other, Linktype(1), &frame), Some(18));
    frame[17] = 0x06;
    assert_eq!(calculate_l2_offset(Platform::Other, Linktype(1), &frame), None);
    assert_eq!(calculate_l2_offset(Platform::Other, Linktype(1), &frame[..17]), None);
}

#[test]
fn platform_link_types() {
    let mut sll = vec![0u8; 16];
    sll[14] = 0x08;
    assert_eq!(calculate_l2_offset(Platform::Linux, Linktype(113), &sll), Some(16));
    assert_eq!(calculate_l2_offset(Platform::MacOs, Linktype(113), &sll), None);
    let mut sll2 = vec![0u8; 20];
    sll2[0] = 0x08;
    assert_eq!(calculate_l2_offset(Platform::Linux, Linktype(276), &sll2), Some(20));
    assert_eq!(calculate_l2_offset(Platform::MacOs, Linktype(0), &[]), Some(4));
    assert_eq!(calculate_l2_offset(Platform::Linux, Linktype(0), &[]), None);
    let pktap = [0, 0, 0, 0, 0x2c, 0x01, 0, 0];
    assert_eq!(calculate_l2_offset(Platform::MacOs, Linktype(149), &pktap), Some(300 + 14));
    assert_eq!(calculate_l2_offset(Platform::MacOs, Linktype(149), &pktap[..7]), None);
    assert_eq!(calculate_l2_offset(Platform::Other, Linktype(12), &[]), Some(0));
}

#[test]
fn raw_frames_must_hold_a_whole_ipv4_header() {
    let pkt = ipv4_header([9, 8, 7, 6], 17, 53);
    assert_eq!(parse_packet(&pkt, Linktype(12), Platform::Linux, &[], &[]), Some((9, 8, 7)));
    assert_eq!(parse_packet(&pkt[..19], Linktype(12), Platform::Linux, &[], &[]), None);
}

#[test]
fn pcap_second_counter_reports_each_finished_second() {
    let mut counter = PcapSecondCounter::new();
    assert_eq!(counter.tick(100), None);
    assert_eq!(counter.tick(100), None);
    assert_eq!(counter.tick(101), Some(2));
    assert_eq!(counter.current_sec, 101);
    assert_eq!(counter.count, 1);
    assert_eq!(counter.tick(100), None);
    assert_eq!(counter.count, 2);
}

#[test]
fn batches_flush_when_full_late_or_at_a_second() {
    assert!(flush_due(MAX_BATCH, false, false));
    assert!(!flush_due(MAX_BATCH - 1, false, false));
    assert!(flush_due(0, true, false));
    assert!(flush_due(0, false, true));
}

#[test]
fn batches_carry_their_count_and_statistics() {
    let live = live_batch(vec![(1, 2, 3), (4, 5, 6)]);
    assert_eq!((live.count, live.pps_stat, live.last_pcap_sec), (2, None, None));
    assert_eq!(live.dots, vec![(1, 2, 3), (4, 5, 6)]);

    let mut counter = PcapSecondCounter::new();
    counter.tick(100);
    counter.tick(100);
    let file = file_batch(vec![(7, 8, 9)], Some(12), &counter);
    assert_eq!((file.count, file.pps_stat, file.last_pcap_sec), (1, Some(12), Some(100)));

    let last = last_file_batch(Vec::new(), &counter).unwrap();
    assert_eq!((last.count, last.pps_stat, last.last_pcap_sec), (0, Some(2), Some(100)));
    assert!(last_file_batch(Vec::new(), &PcapSecondCounter::new()).is_none());
}

#[test]
fn collected_dots_leave_in_order_and_in_bounded_batches() {
    let mut batch = Vec::new();
    assert_eq!(collect_dot(&mut batch, Some((1, 2, 3)), false, false), None);
    assert_eq!(collect_dot(&mut batch, None, false, false), None);
    assert_eq!(batch, vec![(1, 2, 3)]);
    assert_eq!(collect_dot(&mut batch, Some((4, 5, 6)), true, false), Some(vec![(1, 2, 3), (4, 5, 6)]));
    assert!(batch.is_empty());
    assert_eq!(collect_dot(&mut batch, None, false, true), Some(vec![]));

    let mut sent = Vec::new();
    for i in 0..(MAX_BATCH + 5) {
        let dot = ((i % 200) as u8, 0, 0);
        if let Some(out) = collect_dot(&mut batch, Some(dot), false, false) {
            assert_eq!(out.len(), MAX_BATCH);
            sent.extend(out);
        }
    }
    assert_eq!(sent.len(), MAX_BATCH);
    assert_eq!(batch.len(), 5);
    assert_eq!(sent[MAX_BATCH - 1], (((MAX_BATCH - 1) % 200) as u8, 0, 0));
}
