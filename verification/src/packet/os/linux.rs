//! Link-layer header lengths on Linux, including cooked captures.

use vstd::prelude::*;

use super::Linktype;

verus! {

/// The link-layer header length of the Linux cooked-capture formats.
pub open spec fn linux_l2_offset(linktype: i32, d: Seq<u8>) -> Option<usize> {
    if linktype == 113 && d.len() >= 16 && d[14] == 0x08 && d[15] == 0x00 {
        Some(16)
    } else if linktype == 276 && d.len() >= 20 && d[0] == 0x08 && d[1] == 0x00 {
        Some(20)
    } else {
        None
    }
}

/// Resolves Linux-specific data link layer offsets (SLL / SLL2 cooked capture)
/// for IPv4 frames.
pub fn get_l2_offset_linux(linktype: Linktype, data: &[u8]) -> (r: Option<usize>)
    ensures
        r == linux_l2_offset(linktype.0, data@),
{
    if linktype.0 == 113 && data.len() >= 16 && data[14] == 0x08 && data[15] == 0x00 {
        Some(16)
    } else if linktype.0 == 276 && data.len() >= 20 && data[0] == 0x08 && data[1] == 0x00 {
        Some(20)
    } else {
        None
    }
}

} // verus!
