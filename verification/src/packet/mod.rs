//! Packet handling: link-layer offsets, IPv4 parsing and filtering, and the
//! batches handed from the capture to the screen.

pub mod capture;
pub mod os;
pub mod parser;

pub use parser::{parse_cidr, CidrMatcher};

use vstd::prelude::*;

verus! {

/// A batch of parsed packets sent from the capture loop to the display.
pub struct BatchUpdate {
    /// The first three source octets of each accepted packet.
    pub dots: Vec<(u8, u8, u8)>,
    /// The number of accepted packets in `dots`.
    pub count: usize,
    /// The exact packet count of the capture second that just ended, when replaying a file.
    pub pps_stat: Option<usize>,
    /// The capture second being replayed, when replaying a file.
    pub last_pcap_sec: Option<i64>,
}

} // verus!
