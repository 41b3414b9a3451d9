use braillepcap::rir::get_iana_rir;
use braillepcap::text::is_whitespace;

#[test]
fn whitespace_matches_the_standard_library() {
    for code in 0u32..=0x10FFFF {
        if let Some(c) = char::from_u32(code) {
            assert_eq!(is_whitespace(c), c.is_whitespace(), "U+{:04X}", code);
        }
    }
}

#[test]
fn registries_by_first_octet() {
    assert_eq!(get_iana_rir(0), "Local");
    assert_eq!(get_iana_rir(10), "Private");
    assert_eq!(get_iana_rir(127), "Loopback");
    assert_eq!(get_iana_rir(224), "Multicast");
    assert_eq!(get_iana_rir(239), "Multicast");
    assert_eq!(get_iana_rir(240), "Reserved");
    assert_eq!(get_iana_rir(255), "Reserved");
    assert_eq!(get_iana_rir(1), "APNIC");
    assert_eq!(get_iana_rir(126), "APNIC");
    assert_eq!(get_iana_rir(223), "APNIC");
    assert_eq!(get_iana_rir(2), "RIPE NCC");
    assert_eq!(get_iana_rir(95), "RIPE NCC");
    assert_eq!(get_iana_rir(194), "RIPE NCC");
    assert_eq!(get_iana_rir(41), "AFRINIC");
    assert_eq!(get_iana_rir(197), "AFRINIC");
    assert_eq!(get_iana_rir(190), "LACNIC");
    assert_eq!(get_iana_rir(201), "LACNIC");
    assert_eq!(get_iana_rir(3), "ARIN");
    assert_eq!(get_iana_rir(192), "ARIN");
}
