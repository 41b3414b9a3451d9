//! Capture bookkeeping: packet timestamps, turning a captured frame into
//! the octets to show, per-second pcap counts and when to flush a batch.

use vstd::prelude::*;

use super::os::{calculate_l2_offset, l2_offset, Linktype, Platform};
use super::parser::{ip_payload_octets, process_ip_payload, CidrMatcher};
use super::BatchUpdate;
use std::time::Duration;

verus! {

/// The duration of `secs` seconds and `nanos` nanoseconds, as `Duration::new` builds it.
pub uninterp spec fn duration_of(secs: u64, nanos: u32) -> Duration;

/// Calls `std::time::Duration::new`; claims that the result is determined by
/// the two arguments. `nanos` is kept below one second, where `Duration::new`
/// cannot overflow and so does not panic.
#[verifier::external_body]
fn duration_new(secs: u64, nanos: u32) -> (d: Duration)
    requires
        nanos < 1_000_000_000,
    ensures
        d == duration_of(secs, nanos),
{
    Duration::new(secs, nanos)
}

/// Whether a capture header timestamp (`sec`, `usec`) is well formed: a
/// non-negative second count and a microsecond part below one second.
pub open spec fn valid_timestamp(sec: i64, usec: i64) -> bool {
    sec >= 0 && 0 <= usec < 1_000_000
}

/// Converts a capture header timestamp into a `Duration`, refusing negative
/// seconds and microsecond parts outside `0..1_000_000`.
pub fn safe_packet_timestamp(sec: i64, usec: i64) -> (r: Option<Duration>)
    ensures
        valid_timestamp(sec, usec) ==> r == Some(duration_of(sec as u64, (usec * 1000) as u32)),
        !valid_timestamp(sec, usec) ==> r is None,
{
    if sec < 0 || !(0 <= usec && usec < 1_000_000) {
        return None;
    }
    Some(duration_new(sec as u64, (usec as u32) * 1000))
}

/// The source octets that `parse_packet` reports for the frame `d`.
pub open spec fn packet_octets(
    platform: Platform,
    linktype: i32,
    d: Seq<u8>,
    ports: Seq<u16>,
    omit: Seq<CidrMatcher>,
) -> Option<(u8, u8, u8)> {
    match l2_offset(platform, linktype, d) {
        None => None,
        Some(off) => if d.len() < off + 20 {
            None
        } else {
            ip_payload_octets(d.subrange(off as int, d.len() as int), ports, omit)
        },
    }
}

/// Strips the link-layer header and passes the remaining payload to the packet parser.
pub fn parse_packet(
    data: &[u8],
    linktype: Linktype,
    platform: Platform,
    target_ports: &[u16],
    omit_nets: &[CidrMatcher],
) -> (r: Option<(u8, u8, u8)>)
    ensures
        r == packet_octets(platform, linktype.0, data@, target_ports@, omit_nets@),
{
    let l2_offset = match calculate_l2_offset(platform, linktype, data) {
        Some(off) => off,
        None => return None,
    };
    if data.len() < 20 || data.len() - 20 < l2_offset {
        return None;
    }
    let ip_data = &data[l2_offset..data.len()];
    process_ip_payload(ip_data, target_ports, omit_nets)
}

/// The largest number of addresses sent in one batch.
pub const MAX_BATCH: usize = 10000;

/// Whether a pending batch of `batch_len` addresses is sent now: when it is
/// full, when the flush interval has elapsed, or when a capture second has
/// just ended and its packet count is due.
pub fn flush_due(batch_len: usize, interval_elapsed: bool, second_ended: bool) -> (b: bool)
    ensures
        b == (batch_len >= MAX_BATCH || interval_elapsed || second_ended),
{
    batch_len >= MAX_BATCH || interval_elapsed || second_ended
}

/// `batch` with the parsed address `dot` added, if there is one.
pub open spec fn grown_batch(batch: Seq<(u8, u8, u8)>, dot: Option<(u8, u8, u8)>) -> Seq<(u8, u8, u8)> {
    match dot {
        Some(d) => batch.push(d),
        None => batch,
    }
}

/// Adds the address parsed from one packet (if any) to the pending batch,
/// and hands the batch out when it is due (see `flush_due`), leaving an
/// empty one. The pending batch always stays below `MAX_BATCH`, so no batch
/// handed out holds more than `MAX_BATCH` addresses, and the batches handed
/// out, followed by the pending one, hold the parsed addresses in order.
pub fn collect_dot(
    batch: &mut Vec<(u8, u8, u8)>,
    dot: Option<(u8, u8, u8)>,
    interval_elapsed: bool,
    second_ended: bool,
) -> (sent: Option<Vec<(u8, u8, u8)>>)
    requires
        old(batch).len() < MAX_BATCH,
    ensures
        ({
            let g = grown_batch(old(batch)@, dot);
            &&& sent is Some <==> (g.len() >= MAX_BATCH || interval_elapsed || second_ended)
            &&& sent matches Some(out) ==> out@ == g && out.len() <= MAX_BATCH && final(batch)@
                == Seq::<(u8, u8, u8)>::empty()
            &&& sent is None ==> final(batch)@ == g
        }),
        final(batch).len() < MAX_BATCH,
{
    match dot {
        Some(d) => batch.push(d),
        None => {},
    }
    if flush_due(batch.len(), interval_elapsed, second_ended) {
        let mut out: Vec<(u8, u8, u8)> = Vec::new();
        std::mem::swap(&mut out, batch);
        Some(out)
    } else {
        None
    }
}

/// Counts the packets of each second of a capture file, by the capture
/// timestamps, to report an exact packets-per-second figure.
pub struct PcapSecondCounter {
    /// The capture second being counted (0 before the first packet).
    pub current_sec: u64,
    /// The packets counted in `current_sec` so far.
    pub count: usize,
}

impl PcapSecondCounter {
    /// A counter that has seen no packet.
    pub fn new() -> (c: PcapSecondCounter)
        ensures
            c.current_sec == 0,
            c.count == 0,
    {
        PcapSecondCounter { current_sec: 0, count: 0 }
    }

    /// Accounts one packet stamped in second `sec`. When `sec` lies after the
    /// second being counted, that second has ended: its count is returned and
    /// counting restarts at `sec`. A counter that has seen no packet starts at
    /// the first packet's second.
    pub fn tick(&mut self, sec: u64) -> (ended: Option<usize>)
        requires
            old(self).count < usize::MAX,
        ensures
            ({
                let start = if old(self).current_sec == 0 {
                    sec
                } else {
                    old(self).current_sec
                };
                if sec > start {
                    &&& ended == Some(old(self).count)
                    &&& final(self).current_sec == sec
                    &&& final(self).count == 1
                } else {
                    &&& ended is None
                    &&& final(self).current_sec == start
                    &&& final(self).count == old(self).count + 1
                }
            }),
    {
        if self.current_sec == 0 {
            self.current_sec = sec;
        }
        let mut ended = None;
        if sec > self.current_sec {
            ended = Some(self.count);
            self.count = 0;
            self.current_sec = sec;
        }
        self.count = self.count + 1;
        ended
    }
}

/// The batch that live capture sends: its addresses, their number, and no
/// capture-file statistics.
pub fn live_batch(dots: Vec<(u8, u8, u8)>) -> (b: BatchUpdate)
    ensures
        b.dots@ == dots@,
        b.count == dots.len(),
        b.pps_stat is None,
        b.last_pcap_sec is None,
{
    let count = dots.len();
    BatchUpdate { dots, count, pps_stat: None, last_pcap_sec: None }
}

/// The batch that a capture file replay sends: its addresses, their number,
/// the count of the capture second that just ended (if one did), and the
/// capture second being replayed.
pub fn file_batch(dots: Vec<(u8, u8, u8)>, ended: Option<usize>, counter: &PcapSecondCounter) -> (b:
    BatchUpdate)
    ensures
        b.dots@ == dots@,
        b.count == dots.len(),
        b.pps_stat == ended,
        b.last_pcap_sec == Some(counter.current_sec as i64),
{
    let count = dots.len();
    BatchUpdate {
        dots,
        count,
        pps_stat: ended,
        last_pcap_sec: Some(counter.current_sec as i64),
    }
}

/// The batch that ends a capture file replay: sent when addresses are left
/// over or the last capture second counted packets, and carrying that
/// second's count.
pub fn last_file_batch(dots: Vec<(u8, u8, u8)>, counter: &PcapSecondCounter) -> (b: Option<
    BatchUpdate,
>)
    ensures
        b is Some <==> (dots.len() > 0 || counter.count > 0),
        b matches Some(u) ==> {
            &&& u.dots@ == dots@
            &&& u.count == dots.len()
            &&& u.pps_stat == Some(counter.count)
            &&& u.last_pcap_sec == Some(counter.current_sec as i64)
        },
{
    if dots.len() > 0 || counter.count > 0 {
        Some(file_batch(dots, Some(counter.count), counter))
    } else {
        None
    }
}

} // verus!
