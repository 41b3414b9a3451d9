//! Link-layer header lengths on macOS: PKTAP and BSD loopback captures.

use vstd::prelude::*;

use super::Linktype;

verus! {

/// The little-endian 32-bit value of four bytes.
pub open spec fn le_u32(a: u8, b: u8, c: u8, d: u8) -> int {
    a as int + b as int * 0x100 + c as int * 0x10000 + d as int * 0x1000000
}

/// The link-layer header length of the macOS capture formats: 4 bytes for
/// BSD loopback, and the PKTAP header length (little-endian at bytes 4..8)
/// plus a 14-byte Ethernet header for PKTAP.
pub open spec fn macos_l2_offset(linktype: i32, d: Seq<u8>) -> Option<usize> {
    if linktype == 0 {
        Some(4)
    } else if linktype == 149 {
        if d.len() < 8 || le_u32(d[4], d[5], d[6], d[7]) + 14 > usize::MAX {
            None
        } else {
            Some((le_u32(d[4], d[5], d[6], d[7]) + 14) as usize)
        }
    } else {
        None
    }
}

/// Resolves macOS-specific data link layer offsets (PKTAP, BSD loopback).
///
/// On a target whose `usize` cannot hold the PKTAP length plus 14 the frame
/// is refused.
pub fn get_l2_offset_macos(linktype: Linktype, data: &[u8]) -> (r: Option<usize>)
    ensures
        r == macos_l2_offset(linktype.0, data@),
{
    if linktype.0 == 0 {
        // DLT_NULL / BSD loopback (macOS lo0)
        Some(4)
    } else if linktype.0 == 149 {
        // DLT_APPLE_PKTAP (macOS header)
        if data.len() < 8 {
            return None;
        }
        let pktap_len = (data[4] as u32) + (data[5] as u32) * 0x100 + (data[6] as u32) * 0x10000
            + (data[7] as u32) * 0x1000000;
        (pktap_len as usize).checked_add(14)
    } else {
        None
    }
}

} // verus!
