//! IPv4 header parsing, CIDR matching and the port and source filters.

use vstd::prelude::*;
use vstd::string::StringExecFns;

use crate::activity::{four_part_text, lemma_byte_text, lemma_four_part_text};
use crate::text::{
    decimal_text, lemma_first_index_after, chars_of, find_char, first_index, ipv4_address, parse_ipv4, parse_unsigned, unsigned_literal,
};

verus! {

/// The mask that keeps the first `prefix` bits of an IPv4 address.
pub open spec fn prefix_mask(prefix: u32) -> u32 {
    if prefix == 0 {
        0
    } else {
        !0u32 << ((32 - prefix) as u32)
    }
}

/// The 32-bit value of an address given by its four octets, most significant first.
pub open spec fn ipv4_value(a: u8, b: u8, c: u8, d: u8) -> u32 {
    (a as int * 0x1000000 + b as int * 0x10000 + c as int * 0x100 + d as int) as u32
}

/// Pre-computed CIDR matcher for bitwise IP filtering.
#[derive(Debug, Clone, Copy)]
pub struct CidrMatcher {
    pub network: u32,
    pub mask: u32,
}

impl CidrMatcher {
    /// The matcher for the network `network/prefix`.
    pub open spec fn spec_new(network: u32, prefix: u32) -> CidrMatcher {
        CidrMatcher { network: network & prefix_mask(prefix), mask: prefix_mask(prefix) }
    }

    /// Whether `ip` lies in the network this matcher stands for.
    pub open spec fn spec_matches(self, ip: u32) -> bool {
        ip & self.mask == self.network
    }

    /// Creates a matcher with pre-computed network address and mask.
    pub fn new(network: u32, prefix: u32) -> (m: CidrMatcher)
        requires
            prefix <= 32,
        ensures
            m == CidrMatcher::spec_new(network, prefix),
    {
        let mask = if prefix == 0 {
            0
        } else {
            !0u32 << (32 - prefix)
        };
        CidrMatcher { network: network & mask, mask }
    }

    /// Evaluates whether the given IPv4 address matches this CIDR prefix.
    pub fn matches(&self, ip: u32) -> (b: bool)
        ensures
            b == self.spec_matches(ip),
    {
        (ip & self.mask) == self.network
    }
}

/// A matcher built from `network/prefix` accepts exactly the addresses that
/// share their first `prefix` bits with `network`.
pub proof fn lemma_matcher_accepts_same_prefix(network: u32, prefix: u32, ip: u32)
    requires
        prefix <= 32,
    ensures
        CidrMatcher::spec_new(network, prefix).spec_matches(ip) <==> (prefix == 0 || ip >> ((32
            - prefix) as u32) == network >> ((32 - prefix) as u32)),
{
    let m = prefix_mask(prefix);
    if prefix != 0 {
        let s = (32 - prefix) as u32;
        assert(m == !0u32 << s);
        assert(((ip & (!0u32 << s)) == (network & (!0u32 << s))) <==> (ip >> s == network >> s))
            by (bit_vector)
            requires
                s < 32,
        ;
    } else {
        assert(m == 0);
        assert(ip & 0 == network & 0) by (bit_vector);
    }
}

/// The reason a CIDR string is refused.
#[derive(Debug, Clone, Copy, PartialEq, Eq)]
pub enum CidrError {
    /// No `/`, or nothing on one side of it.
    Malformed,
    /// The part before `/` is not a dotted-decimal IPv4 address.
    InvalidAddress,
    /// The part after `/` is not an unsigned number.
    InvalidPrefix,
    /// The prefix is greater than 32.
    PrefixOutOfRange,
    /// The address lies in 0.0.0.0/8.
    ReservedZero,
    /// The address lies in class D or E (224.0.0.0 and above).
    ReservedClassDE,
}

/// What `parse_cidr` makes of a string: the address and prefix, or the
/// reason it refuses it.
pub open spec fn cidr_outcome(s: Seq<char>) -> Result<(u32, u32), CidrError> {
    match first_index(s, '/') {
        None => Err(CidrError::Malformed),
        Some(i) => {
            let ip = s.subrange(0, i);
            let prefix = s.subrange(i + 1, s.len() as int);
            if ip.len() == 0 || prefix.len() == 0 {
                Err(CidrError::Malformed)
            } else {
                match ipv4_address(ip) {
                    None => Err(CidrError::InvalidAddress),
                    Some(octets) => match unsigned_literal(prefix) {
                        None => Err(CidrError::InvalidPrefix),
                        Some(p) => if p > u32::MAX {
                            Err(CidrError::InvalidPrefix)
                        } else if p > 32 {
                            Err(CidrError::PrefixOutOfRange)
                        } else if octets.0 == 0 {
                            Err(CidrError::ReservedZero)
                        } else if octets.0 >= 224 {
                            Err(CidrError::ReservedClassDE)
                        } else {
                            Ok((ipv4_value(octets.0, octets.1, octets.2, octets.3), p as u32))
                        },
                    },
                }
            }
        },
    }
}

/// The message `parse_cidr` gives for a refused CIDR string.
pub open spec fn cidr_error_message(e: CidrError, cidr: Seq<char>) -> Seq<char> {
    match e {
        CidrError::Malformed => "Invalid CIDR: "@ + cidr,
        CidrError::InvalidAddress => "Invalid IPv4 address in CIDR: "@ + cidr,
        CidrError::InvalidPrefix => "Invalid prefix in CIDR: "@ + cidr,
        CidrError::PrefixOutOfRange => "CIDR prefix out of range: "@ + cidr,
        CidrError::ReservedZero => "CIDR range "@ + cidr + " is reserved: 0.0.0.0/8 is not allowed"@,
        CidrError::ReservedClassDE => "CIDR range "@ + cidr
            + " is reserved: class D/E are not allowed"@,
    }
}

/// Classifies a CIDR string (e.g. "192.168.1.0/24") as the address and prefix
/// it names, or the reason it is refused: invalid IPv4 values, prefixes over
/// 32, and the reserved 0.0.0.0/8 and class D/E ranges.
pub fn classify_cidr(cidr: &str) -> (r: Result<(u32, u32), CidrError>)
    ensures
        r == cidr_outcome(cidr@),
{
    let s = chars_of(cidr);
    let n = s.len();
    assert(s@.subrange(0, n as int) =~= s@);
    let slash = match find_char(&s, 0, n, '/') {
        None => {
            return Err(CidrError::Malformed);
        },
        Some(i) => i,
    };
    assert(first_index(s@, '/') == Some(slash as int));
    assert(s@.subrange(0, slash as int).len() == slash);
    assert(s@.subrange(slash + 1, n as int).len() == n - slash - 1);
    if slash == 0 || slash + 1 == n {
        return Err(CidrError::Malformed);
    }
    let octets = match parse_ipv4(&s, 0, slash) {
        None => return Err(CidrError::InvalidAddress),
        Some(o) => o,
    };
    let prefix = match parse_unsigned(&s, slash + 1, n, 0xFFFF_FFFF) {
        None => return Err(CidrError::InvalidPrefix),
        Some(p) => p,
    };
    if prefix > 32 {
        return Err(CidrError::PrefixOutOfRange);
    }
    if octets.0 == 0 {
        return Err(CidrError::ReservedZero);
    }
    if octets.0 >= 224 {
        return Err(CidrError::ReservedClassDE);
    }
    let value = (octets.0 as u32) * 0x1000000 + (octets.1 as u32) * 0x10000 + (octets.2 as u32)
        * 0x100 + (octets.3 as u32);
    Ok((value, prefix))
}

/// The text of the error that `parse_cidr` reports for `e`.
pub fn cidr_error_text(e: CidrError, cidr: &str) -> (m: String)
    ensures
        m@ == cidr_error_message(e, cidr@),
{
    match e {
        CidrError::Malformed => "Invalid CIDR: ".to_string().concat(cidr),
        CidrError::InvalidAddress => "Invalid IPv4 address in CIDR: ".to_string().concat(cidr),
        CidrError::InvalidPrefix => "Invalid prefix in CIDR: ".to_string().concat(cidr),
        CidrError::PrefixOutOfRange => "CIDR prefix out of range: ".to_string().concat(cidr),
        CidrError::ReservedZero => "CIDR range ".to_string().concat(cidr).concat(
            " is reserved: 0.0.0.0/8 is not allowed",
        ),
        CidrError::ReservedClassDE => "CIDR range ".to_string().concat(cidr).concat(
            " is reserved: class D/E are not allowed",
        ),
    }
}

/// Parses a CIDR string (e.g., "192.168.1.0/24") into a pre-computed CidrMatcher.
/// Invalid IPv4 values and reserved class D/E ranges are rejected with an error.
pub fn parse_cidr(cidr: &str) -> (r: Result<CidrMatcher, String>)
    ensures
        match cidr_outcome(cidr@) {
            Ok((network, prefix)) => r == Ok::<CidrMatcher, String>(
                CidrMatcher::spec_new(network, prefix),
            ),
            Err(e) => r is Err && r->Err_0@ == cidr_error_message(e, cidr@),
        },
{
    match classify_cidr(cidr) {
        Ok((network, prefix)) => Ok(CidrMatcher::new(network, prefix)),
        Err(e) => Err(cidr_error_text(e, cidr)),
    }
}

/// The big-endian 16-bit value of two bytes.
pub open spec fn be_u16(hi: u8, lo: u8) -> u16 {
    (hi as int * 0x100 + lo as int) as u16
}

/// Whether some matcher of `nets` accepts the address `src`.
pub open spec fn excluded_by(src: u32, nets: Seq<CidrMatcher>) -> bool {
    exists|i: int| 0 <= i < nets.len() && #[trigger] nets[i].spec_matches(src)
}

/// The length in bytes of the IPv4 header whose first byte is `b0`.
pub open spec fn header_len(b0: u8) -> int {
    (b0 % 16) as int * 4
}

/// The destination port of the TCP or UDP segment that starts at `ihl` in `d`.
pub open spec fn dst_port(d: Seq<u8>, ihl: int) -> u16 {
    be_u16(d[ihl + 2], d[ihl + 3])
}

/// Whether an IPv4 packet `d` with header length `ihl` passes the destination-port
/// filter `ports`: an empty filter passes everything; otherwise the packet must
/// carry TCP (6) or UDP (17) with a destination port in `ports`.
pub open spec fn passes_port_filter(d: Seq<u8>, ihl: int, ports: Seq<u16>) -> bool {
    ports.len() == 0 || ((d[9] == 6 || d[9] == 17) && d.len() >= ihl + 4 && ports.contains(
        dst_port(d, ihl),
    ))
}

/// The first three source octets that `process_ip_payload` reports for the
/// IPv4 packet `d`, or `None` where it drops the packet.
pub open spec fn ip_payload_octets(d: Seq<u8>, ports: Seq<u16>, omit: Seq<CidrMatcher>) -> Option<
    (u8, u8, u8),
> {
    if d.len() < 20 || d[0] / 16 != 4 {
        None
    } else {
        let ihl = header_len(d[0]);
        if ihl < 20 || d.len() < ihl {
            None
        } else if excluded_by(ipv4_value(d[12], d[13], d[14], d[15]), omit) {
            None
        } else if d[12] >= 224 {
            None
        } else if !passes_port_filter(d, ihl, ports) {
            None
        } else {
            Some((d[12], d[13], d[14]))
        }
    }
}

/// Fast-path check using short-circuit evaluation to filter excluded source IP networks.
fn should_exclude(src_ip: u32, omit_nets: &[CidrMatcher]) -> (b: bool)
    ensures
        b == excluded_by(src_ip, omit_nets@),
        b <==> exists|i: int|
            0 <= i < omit_nets@.len() && #[trigger] (src_ip & omit_nets@[i].mask) == omit_nets@[i].network,
{
    if omit_nets.len() == 0 {
        return false;
    }
    let mut i: usize = 0;
    while i < omit_nets.len()
        invariant
            0 <= i <= omit_nets.len(),
            forall|k: int| 0 <= k < i ==> !(#[trigger] omit_nets@[k]).spec_matches(src_ip),
        decreases omit_nets.len() - i,
    {
        if omit_nets[i].matches(src_ip) {
            return true;
        }
        i = i + 1;
    }
    false
}

/// Whether `port` occurs in `ports`.
fn contains_port(ports: &[u16], port: u16) -> (b: bool)
    ensures
        b == ports@.contains(port),
{
    let mut i: usize = 0;
    while i < ports.len()
        invariant
            0 <= i <= ports.len(),
            forall|k: int| 0 <= k < i ==> ports@[k] != port,
        decreases ports.len() - i,
    {
        if ports[i] == port {
            assert(ports@[i as int] == port);
            return true;
        }
        i = i + 1;
    }
    false
}

/// Common IPv4 and L4 payload validation, filtering, and octet extraction logic.
///
/// Counting either the source or the destination port would double-count duplex
/// traffic, so the port filter looks at the destination port only.
pub fn process_ip_payload(ip_data: &[u8], target_ports: &[u16], omit_nets: &[CidrMatcher]) -> (r:
    Option<(u8, u8, u8)>)
    ensures
        r == ip_payload_octets(ip_data@, target_ports@, omit_nets@),
        forall|i: int|
            0 <= i < omit_nets@.len() && ip_data@.len() >= 20 && #[trigger] (((ip_data@[12] as u32)
                * 0x1000000 + (ip_data@[13] as u32) * 0x10000 + (ip_data@[14] as u32) * 0x100 + (
            ip_data@[15] as u32)) as u32 & omit_nets@[i].mask) == omit_nets@[i].network ==> r is None,
{
    if ip_data.len() < 20 {
        return None;
    }
    let b0 = ip_data[0];
    assert(b0 >> 4 == b0 / 16) by (bit_vector);
    assert(b0 & 0x0F == b0 % 16) by (bit_vector);
    // Verify IPv4 version
    if (b0 >> 4) != 4 {
        return None;
    }
    // Validate Internet Header Length (IHL) >= 20 bytes
    let ihl = ((b0 & 0x0F) * 4) as usize;
    if ihl < 20 || ip_data.len() < ihl {
        return None;
    }
    let src_ip_u32 = (ip_data[12] as u32) * 0x1000000 + (ip_data[13] as u32) * 0x10000
        + (ip_data[14] as u32) * 0x100 + (ip_data[15] as u32);
    // Fast-path CIDR exclusion check for source IP
    if should_exclude(src_ip_u32, omit_nets) {
        return None;
    }
    let src_oct1 = ip_data[12];
    let src_oct2 = ip_data[13];
    let src_oct3 = ip_data[14];
    // Exclude Class D (Multicast: 224-239) and Class E (Reserved: 240-255)
    if src_oct1 >= 224 {
        return None;
    }
    // Filter by target destination port numbers.
    if target_ports.len() != 0 {
        let proto = ip_data[9];
        if proto != 6 && proto != 17 {
            return None;
        }
        if ip_data.len() < ihl + 4 {
            return None;
        }
        let dst = (ip_data[ihl + 2] as u16) * 0x100 + (ip_data[ihl + 3] as u16);
        if !contains_port(target_ports, dst) {
            return None;
        }
    }
    Some((src_oct1, src_oct2, src_oct3))
}

/// `parse_cidr` accepts only unicast ranges: the first octet of an accepted
/// network is between 1 and 223, and its prefix is at most 32.
pub proof fn lemma_cidr_accepts_only_unicast(s: Seq<char>)
    ensures
        cidr_outcome(s) matches Ok((network, prefix)) ==> 1 <= network / 0x1000000 <= 223
            && prefix <= 32,
{
    if let Ok((network, prefix)) = cidr_outcome(s) {
        let i = first_index(s, '/').unwrap();
        let o = ipv4_address(s.subrange(0, i)).unwrap();
        assert(network == ipv4_value(o.0, o.1, o.2, o.3));
        assert(network / 0x1000000 == o.0);
    }
}

/// The grid never shows class D/E sources, nor sources in an omitted network:
/// every packet that `process_ip_payload` reports has a first source octet
/// below 224 and a source address that no omit matcher accepts.
pub proof fn lemma_payload_sources_are_shown_unicast(
    d: Seq<u8>,
    ports: Seq<u16>,
    omit: Seq<CidrMatcher>,
)
    ensures
        ip_payload_octets(d, ports, omit) matches Some((a, b, c)) ==> {
            &&& a < 224
            &&& d.len() >= 20
            &&& (a, b, c) == (d[12], d[13], d[14])
            &&& !excluded_by(ipv4_value(d[12], d[13], d[14], d[15]), omit)
        },
{
}

/// `--omit`: a packet whose source address (bytes 12 to 15, most significant
/// first) lies in any of the omitted networks, whichever its place in the
/// list, is never shown.
pub proof fn lemma_omitted_sources_are_dropped(
    d: Seq<u8>,
    ports: Seq<u16>,
    omit: Seq<CidrMatcher>,
    i: int,
)
    requires
        d.len() >= 20,
        0 <= i < omit.len(),
        (((d[12] as int * 0x1000000 + d[13] as int * 0x10000 + d[14] as int * 0x100 + d[15] as int)
            as u32) & omit[i].mask) == omit[i].network,
    ensures
        ip_payload_octets(d, ports, omit) is None,
{
    let src = ipv4_value(d[12], d[13], d[14], d[15]);
    assert(omit[i].spec_matches(src));
}
/// When a packet is shown, and what of it: `process_ip_payload` gives the
/// first three source octets exactly when the data holds a whole IPv4 header
/// (version 4, a header of at least 20 bytes that the data holds), no omit
/// matcher accepts the source address, the source is not class D/E (first
/// octet below 224), and, with a non-empty port list, the packet is TCP or
/// UDP with a destination port (the two bytes two after the header,
/// most significant first) in the list.
pub proof fn lemma_payload_shown_exactly_when(d: Seq<u8>, ports: Seq<u16>, omit: Seq<CidrMatcher>)
    ensures
        ({
            let ihl: int = (d[0] % 16) as int * 4;
            let src: u32 = (d[12] as int * 0x1000000 + d[13] as int * 0x10000 + d[14] as int * 0x100
                + d[15] as int) as u32;
            ip_payload_octets(d, ports, omit) is Some <==> {
                &&& d.len() >= 20
                &&& d[0] / 16 == 4
                &&& ihl >= 20
                &&& d.len() >= ihl
                &&& forall|i: int| 0 <= i < omit.len() ==> #[trigger] (src & omit[i].mask) != omit[i].network
                &&& d[12] < 224
                &&& ports.len() > 0 ==> {
                    &&& d[9] == 6 || d[9] == 17
                    &&& d.len() >= ihl + 4
                    &&& exists|j: int| 0 <= j < ports.len() && #[trigger] ports[j] == d[ihl + 2] as int * 0x100 + d[ihl + 3] as int
                }
            }
        }),
        ip_payload_octets(d, ports, omit) is Some ==> ip_payload_octets(d, ports, omit) == Some(
            (d[12], d[13], d[14]),
        ),
{
    let ihl: int = (d[0] % 16) as int * 4;
    if d.len() >= 20 {
        let src = ipv4_value(d[12], d[13], d[14], d[15]);
        assert(src == (d[12] as int * 0x1000000 + d[13] as int * 0x10000 + d[14] as int * 0x100
            + d[15] as int) as u32);
        if excluded_by(src, omit) {
            let i = choose|i: int| 0 <= i < omit.len() && #[trigger] omit[i].spec_matches(src);
            assert((src & omit[i].mask) == omit[i].network);
        }
        if exists|i: int| 0 <= i < omit.len() && #[trigger] (src & omit[i].mask) == omit[i].network {
            let i = choose|i: int| 0 <= i < omit.len() && #[trigger] (src & omit[i].mask)
                == omit[i].network;
            assert(omit[i].spec_matches(src));
        }
        assert(header_len(d[0]) == ihl);
    }
    if d.len() >= 20 && d.len() >= ihl + 4 && ihl >= 0 {
        let p = dst_port(d, ihl);
        assert(p == d[ihl + 2] as int * 0x100 + d[ihl + 3] as int);
        if ports.contains(p) {
            let j = choose|j: int| 0 <= j < ports.len() && ports[j] == p;
            assert(ports[j] == d[ihl + 2] as int * 0x100 + d[ihl + 3] as int);
        }
        if exists|j: int| 0 <= j < ports.len() && #[trigger] ports[j] == d[ihl + 2] as int * 0x100
            + d[ihl + 3] as int {
            let j = choose|j: int| 0 <= j < ports.len() && #[trigger] ports[j] == d[ihl + 2] as int
                * 0x100 + d[ihl + 3] as int;
            assert(ports[j] == p);
        }
    }
}
/// Any `a.b.c.d/p` written in decimal, with a first octet from 1 to 223 and
/// a prefix of at most 32, is accepted as the address `a.b.c.d` (most
/// significant octet first) with prefix `p` (and `lemma_matcher_accepts_same_prefix`
/// says which addresses its matcher accepts).
pub proof fn lemma_cidr_round_trip(a: u8, b: u8, c: u8, d: u8, p: u8)
    requires
        1 <= a <= 223,
        p <= 32,
    ensures
        cidr_outcome(four_part_text(a, b, c, d).push('/') + decimal_text(p as nat)) == Ok::<
            (u32, u32),
            CidrError,
        >(((a as int * 0x1000000 + b as int * 0x10000 + c as int * 0x100 + d as int) as u32, p as u32)),
{
    let h = four_part_text(a, b, c, d);
    let tp = decimal_text(p as nat);
    let s = h.push('/') + tp;
    lemma_four_part_text(a, b, c, d);
    lemma_byte_text(p);
    crate::text::lemma_decimal_text(p as nat);
    assert(s =~= h + (seq!['/'] + tp));
    lemma_first_index_after(h, seq!['/'] + tp, '/');
    assert((seq!['/'] + tp)[0] == '/');
    assert(first_index(seq!['/'] + tp, '/') == Some(0int));
    let i = h.len() as int;
    assert(s.subrange(0, i) =~= h);
    assert(s.subrange(i + 1, s.len() as int) =~= tp);
    assert(tp[0] != '+') by {
        assert(crate::text::is_digit(tp[0]));
    }
    assert(unsigned_literal(tp) == Some(p as nat));
}
} // verus!
