//! The regional Internet registry that IANA's IPv4 /8 allocations assign
//! to each first octet.

use vstd::prelude::*;

verus! {

/// The Regional Internet Registry (or special-purpose block) that IANA lists
/// for a given first IPv4 octet.
pub open spec fn iana_rir(octet1: u8) -> &'static str {
    if octet1 == 0 {
        "Local"
    } else if octet1 == 10 {
        "Private"
    } else if octet1 == 127 {
        "Loopback"
    } else if 224 <= octet1 <= 239 {
        "Multicast"
    } else if 240 <= octet1 {
        "Reserved"
    } else if is_apnic(octet1) {
        "APNIC"
    } else if is_ripe(octet1) {
        "RIPE NCC"
    } else if is_afrinic(octet1) {
        "AFRINIC"
    } else if is_lacnic(octet1) {
        "LACNIC"
    } else {
        "ARIN"
    }
}

/// Whether IANA's table assigns the /8 block with first octet `o` to APNIC.
pub open spec fn is_apnic(o: u8) -> bool {
    ||| o == 1 || o == 14 || o == 27 || o == 36 || o == 39 || o == 42 || o == 43 || o == 49
    ||| 58 <= o <= 61
    ||| o == 101 || o == 103 || o == 106
    ||| 110 <= o <= 126
    ||| o == 133 || o == 150 || o == 153 || o == 163 || o == 171 || o == 175 || o == 180
    ||| o == 182 || o == 183 || o == 202 || o == 203 || o == 210 || o == 211
    ||| 218 <= o <= 223
}

/// Whether IANA's table assigns the /8 block with first octet `o` to RIPE NCC.
pub open spec fn is_ripe(o: u8) -> bool {
    ||| o == 2 || o == 5 || o == 25 || o == 31 || o == 37 || o == 46 || o == 51 || o == 53
    ||| o == 57 || o == 62
    ||| 77 <= o <= 95
    ||| o == 109 || o == 141 || o == 145 || o == 151 || o == 176 || o == 178 || o == 185
    ||| o == 188
    ||| 193 <= o <= 195
    ||| o == 212 || o == 213 || o == 217
}

/// Whether IANA's table assigns the /8 block with first octet `o` to AFRINIC.
pub open spec fn is_afrinic(o: u8) -> bool {
    o == 41 || o == 102 || o == 105 || o == 154 || o == 196 || o == 197
}

/// Whether IANA's table assigns the /8 block with first octet `o` to LACNIC.
pub open spec fn is_lacnic(o: u8) -> bool {
    ||| o == 177 || o == 179 || o == 181 || o == 186 || o == 187
    ||| 189 <= o <= 191
    ||| o == 200 || o == 201
}

/// Maps the first IPv4 octet to the corresponding Regional Internet Registry.
pub fn get_iana_rir(octet1: u8) -> (name: &'static str)
    ensures
        name == iana_rir(octet1),
{
    match octet1 {
        0 => "Local",
        10 => "Private",
        127 => "Loopback",
        224..=239 => "Multicast",
        240..=255 => "Reserved",
        1 | 14 | 27 | 36 | 39 | 42 | 43 | 49 | 58..=61 | 101 | 103 | 106 | 110..=126 | 133 | 150
        | 153 | 163 | 171 | 175 | 180 | 182 | 183 | 202 | 203 | 210 | 211 | 218..=223 => "APNIC",
        2 | 5 | 25 | 31 | 37 | 46 | 51 | 53 | 57 | 62 | 77..=95 | 109 | 141 | 145 | 151 | 176
        | 178 | 185 | 188 | 193..=195 | 212 | 213 | 217 => "RIPE NCC",
        41 | 102 | 105 | 154 | 196 | 197 => "AFRINIC",
        177 | 179 | 181 | 186 | 187 | 189..=191 | 200 | 201 => "LACNIC",
        _ => "ARIN",
    }
}

/// The number of registry names that `iana_rir` gives.
pub const RIR_COUNT: u8 = 10;

/// The index, among the registry names, of the name that `iana_rir` gives
/// for a first octet: Local, Private, Loopback, Multicast, Reserved, APNIC,
/// RIPE NCC, AFRINIC, LACNIC, ARIN in that order.
pub open spec fn rir_index(octet1: u8) -> u8 {
    if octet1 == 0 {
        0
    } else if octet1 == 10 {
        1
    } else if octet1 == 127 {
        2
    } else if 224 <= octet1 <= 239 {
        3
    } else if 240 <= octet1 {
        4
    } else if is_apnic(octet1) {
        5
    } else if is_ripe(octet1) {
        6
    } else if is_afrinic(octet1) {
        7
    } else if is_lacnic(octet1) {
        8
    } else {
        9
    }
}

/// The registry name with index `id` (see `rir_index`).
pub open spec fn rir_name(id: u8) -> &'static str {
    if id == 0 {
        "Local"
    } else if id == 1 {
        "Private"
    } else if id == 2 {
        "Loopback"
    } else if id == 3 {
        "Multicast"
    } else if id == 4 {
        "Reserved"
    } else if id == 5 {
        "APNIC"
    } else if id == 6 {
        "RIPE NCC"
    } else if id == 7 {
        "AFRINIC"
    } else if id == 8 {
        "LACNIC"
    } else {
        "ARIN"
    }
}

/// The index of the registry that `get_iana_rir` names for a first octet.
pub fn get_rir_index(octet1: u8) -> (id: u8)
    ensures
        id == rir_index(octet1),
        id < RIR_COUNT,
        rir_name(id) == iana_rir(octet1),
{
    if octet1 == 0 {
        0
    } else if octet1 == 10 {
        1
    } else if octet1 == 127 {
        2
    } else if 224 <= octet1 && octet1 <= 239 {
        3
    } else if 240 <= octet1 {
        4
    } else {
        match octet1 {
            1 | 14 | 27 | 36 | 39 | 42 | 43 | 49 | 58..=61 | 101 | 103 | 106 | 110..=126 | 133
            | 150 | 153 | 163 | 171 | 175 | 180 | 182 | 183 | 202 | 203 | 210 | 211
            | 218..=223 => 5,
            2 | 5 | 25 | 31 | 37 | 46 | 51 | 53 | 57 | 62 | 77..=95 | 109 | 141 | 145 | 151
            | 176 | 178 | 185 | 188 | 193..=195 | 212 | 213 | 217 => 6,
            41 | 102 | 105 | 154 | 196 | 197 => 7,
            177 | 179 | 181 | 186 | 187 | 189..=191 | 200 | 201 => 8,
            _ => 9,
        }
    }
}

/// The registry name with index `id`.
pub fn rir_name_of(id: u8) -> (name: &'static str)
    ensures
        name == rir_name(id),
{
    if id == 0 {
        "Local"
    } else if id == 1 {
        "Private"
    } else if id == 2 {
        "Loopback"
    } else if id == 3 {
        "Multicast"
    } else if id == 4 {
        "Reserved"
    } else if id == 5 {
        "APNIC"
    } else if id == 6 {
        "RIPE NCC"
    } else if id == 7 {
        "AFRINIC"
    } else if id == 8 {
        "LACNIC"
    } else {
        "ARIN"
    }
}

/// IANA's IPv4 address space registry, /8 by /8: each first octet goes to
/// the registry (or special-purpose block) listed for it, and the counting
/// index of that registry names the same registry.
pub proof fn lemma_registry_table(o: u8)
    ensures
        o == 0 ==> iana_rir(o) == "Local" && rir_index(o) == 0 && rir_name(0) == "Local",
        o == 10 ==> iana_rir(o) == "Private" && rir_index(o) == 1 && rir_name(1) == "Private",
        o == 127 ==> iana_rir(o) == "Loopback" && rir_index(o) == 2 && rir_name(2) == "Loopback",
        224 <= o <= 239 ==> iana_rir(o) == "Multicast" && rir_index(o) == 3 && rir_name(3)
            == "Multicast",
        240 <= o ==> iana_rir(o) == "Reserved" && rir_index(o) == 4 && rir_name(4) == "Reserved",
        (o == 1 || o == 14 || o == 27 || o == 36 || o == 39 || o == 42 || o == 43
            || o == 49 || (58 <= o && o <= 61) || o == 101 || o == 103 || o == 106
            || (110 <= o && o <= 126) || o == 133 || o == 150 || o == 153 || o == 163
            || o == 171 || o == 175 || o == 180 || o == 182 || o == 183 || o == 202
            || o == 203 || o == 210 || o == 211 || (218 <= o && o <= 223))
            ==> iana_rir(o) == "APNIC" && rir_index(o) == 5 && rir_name(5) == "APNIC",
        (o == 2 || o == 5 || o == 25 || o == 31 || o == 37 || o == 46 || o == 51
            || o == 53 || o == 57 || o == 62 || (77 <= o && o <= 95) || o == 109 || o == 141
            || o == 145 || o == 151 || o == 176 || o == 178 || o == 185 || o == 188
            || (193 <= o && o <= 195) || o == 212 || o == 213 || o == 217)
            ==> iana_rir(o) == "RIPE NCC" && rir_index(o) == 6 && rir_name(6) == "RIPE NCC",
        (o == 41 || o == 102 || o == 105 || o == 154 || o == 196 || o == 197)
            ==> iana_rir(o) == "AFRINIC" && rir_index(o) == 7 && rir_name(7) == "AFRINIC",
        (o == 177 || o == 179 || o == 181 || o == 186 || o == 187
            || (189 <= o && o <= 191) || o == 200 || o == 201)
            ==> iana_rir(o) == "LACNIC" && rir_index(o) == 8 && rir_name(8) == "LACNIC",
        !(o == 0 || o == 10 || o == 127 || 224 <= o || o == 1 || o == 14 || o == 27
            || o == 36 || o == 39 || o == 42 || o == 43 || o == 49 || (58 <= o && o <= 61)
            || o == 101 || o == 103 || o == 106 || (110 <= o && o <= 126) || o == 133
            || o == 150 || o == 153 || o == 163 || o == 171 || o == 175 || o == 180
            || o == 182 || o == 183 || o == 202 || o == 203 || o == 210 || o == 211
            || (218 <= o && o <= 223) || o == 2 || o == 5 || o == 25 || o == 31 || o == 37
            || o == 46 || o == 51 || o == 53 || o == 57 || o == 62 || (77 <= o && o <= 95)
            || o == 109 || o == 141 || o == 145 || o == 151 || o == 176 || o == 178
            || o == 185 || o == 188 || (193 <= o && o <= 195) || o == 212 || o == 213
            || o == 217 || o == 41 || o == 102 || o == 105 || o == 154 || o == 196
            || o == 197 || o == 177 || o == 179 || o == 181 || o == 186 || o == 187
            || (189 <= o && o <= 191) || o == 200 || o == 201)
            ==> iana_rir(o) == "ARIN" && rir_index(o) == 9 && rir_name(9) == "ARIN",
        rir_name(rir_index(o)) == iana_rir(o),
        rir_index(o) < RIR_COUNT,
{
}

} // verus!
