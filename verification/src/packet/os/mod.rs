//! Link types and the platform-dependent choice of link-layer offset.

pub mod linux;
pub mod macos;

use vstd::prelude::*;

use self::linux::{get_l2_offset_linux, linux_l2_offset};
use self::macos::{get_l2_offset_macos, macos_l2_offset};

verus! {

/// A libpcap data-link type (`DLT_*` / `LINKTYPE_*` number).
#[derive(Debug, Clone, Copy, PartialEq, Eq)]
pub struct Linktype(pub i32);

/// The operating system whose capture formats are decoded in addition to the
/// portable ones.
#[derive(Debug, Clone, Copy, PartialEq, Eq)]
pub enum Platform {
    Linux,
    MacOs,
    Other,
}

/// The link-layer header length of the portable formats: Ethernet carrying
/// IPv4, directly (14) or behind one 802.1Q tag (18), and raw IP (0).
pub open spec fn generic_l2_offset(linktype: i32, d: Seq<u8>) -> Option<usize> {
    if linktype == 1 {
        if d.len() < 14 {
            None
        } else if d[12] == 0x08 && d[13] == 0x00 {
            Some(14)
        } else if d[12] == 0x81 && d[13] == 0x00 && d.len() >= 18 {
            if d[16] == 0x08 && d[17] == 0x00 {
                Some(18)
            } else {
                None
            }
        } else {
            None
        }
    } else if linktype == 12 {
        Some(0)
    } else {
        None
    }
}

/// The link-layer header length that `calculate_l2_offset` finds.
pub open spec fn l2_offset(platform: Platform, linktype: i32, d: Seq<u8>) -> Option<usize> {
    match platform {
        Platform::MacOs => if macos_l2_offset(linktype, d) is Some {
            macos_l2_offset(linktype, d)
        } else {
            generic_l2_offset(linktype, d)
        },
        Platform::Linux => if linux_l2_offset(linktype, d) is Some {
            linux_l2_offset(linktype, d)
        } else {
            generic_l2_offset(linktype, d)
        },
        Platform::Other => generic_l2_offset(linktype, d),
    }
}

/// Resolves supported link-layer offsets and rejects formats that cannot be
/// decoded safely.
pub fn calculate_l2_offset(platform: Platform, linktype: Linktype, data: &[u8]) -> (r: Option<
    usize,
>)
    ensures
        r == l2_offset(platform, linktype.0, data@),
{
    match platform {
        Platform::MacOs => {
            if let Some(offset) = get_l2_offset_macos(linktype, data) {
                return Some(offset);
            }
        },
        Platform::Linux => {
            if let Some(offset) = get_l2_offset_linux(linktype, data) {
                return Some(offset);
            }
        },
        Platform::Other => {},
    }
    if linktype.0 == 1 {
        // DLT_EN10MB / standard Ethernet
        if data.len() < 14 {
            return None;
        }
        let ether_type = (data[12] as u16) * 0x100 + (data[13] as u16);
        if ether_type == 0x0800 {
            Some(14)
        } else if ether_type == 0x8100 && data.len() >= 18 {
            if (data[16] as u16) * 0x100 + (data[17] as u16) != 0x0800 {
                return None;
            }
            Some(18)
        } else {
            None
        }
    } else if linktype.0 == 12 {
        // DLT_RAW
        Some(0)
    } else {
        None
    }
}

/// The link-layer header lengths that are recognised, by data-link type:
/// Ethernet carrying IPv4 is 14 bytes (18 behind one 802.1Q tag), raw IP is
/// 0 on every platform; Linux cooked captures are 16 (SLL) or 20 (SLL2)
/// bytes; macOS loopback is 4 bytes and PKTAP its own little-endian length
/// plus 14; any other data-link type is refused.
pub proof fn lemma_link_offsets(platform: Platform, linktype: i32, d: Seq<u8>)
    ensures
        linktype == 1 && d.len() >= 14 && d[12] == 0x08 && d[13] == 0x00 ==> l2_offset(
            platform,
            linktype,
            d,
        ) == Some(14usize),
        linktype == 1 && d.len() >= 18 && d[12] == 0x81 && d[13] == 0x00 && d[16] == 0x08 && d[17]
            == 0x00 ==> l2_offset(platform, linktype, d) == Some(18usize),
        linktype == 1 && d.len() < 14 ==> l2_offset(platform, linktype, d) is None,
        linktype == 12 ==> l2_offset(platform, linktype, d) == Some(0usize),
        platform == Platform::Linux && linktype == 113 && d.len() >= 16 && d[14] == 0x08 && d[15]
            == 0x00 ==> l2_offset(platform, linktype, d) == Some(16usize),
        platform == Platform::Linux && linktype == 276 && d.len() >= 20 && d[0] == 0x08 && d[1]
            == 0x00 ==> l2_offset(platform, linktype, d) == Some(20usize),
        platform == Platform::MacOs && linktype == 0 ==> l2_offset(platform, linktype, d) == Some(
            4usize,
        ),
        platform == Platform::MacOs && linktype == 149 && d.len() >= 8 && d[4] as int + d[5] as int
            * 0x100 + d[6] as int * 0x10000 + d[7] as int * 0x1000000 + 14 <= usize::MAX ==> l2_offset(
            platform,
            linktype,
            d,
        ) == Some((d[4] as int + d[5] as int * 0x100 + d[6] as int * 0x10000 + d[7] as int
            * 0x1000000 + 14) as usize),
        platform == Platform::Other && linktype != 1 && linktype != 12 ==> l2_offset(
            platform,
            linktype,
            d,
        ) is None,
        linktype != 0 && linktype != 1 && linktype != 12 && linktype != 113 && linktype != 149
            && linktype != 276 ==> l2_offset(platform, linktype, d) is None,
{
}
} // verus!
