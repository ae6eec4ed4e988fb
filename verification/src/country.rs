//! Country derivation from the first octet of an address.
//!
//! This is a coarse stand-in for a geolocation database: thirty octets are
//! mapped to a two-letter code each, and every other octet to `"OTHER"`.

use vstd::prelude::*;

verus! {

/// The most significant octet of an address in host order.
pub open spec fn first_octet(addr: u32) -> u8 {
    (addr / 0x100_0000) as u8
}

/// The country code of a first octet. The function is total: octets 1 to 30
/// have a code of their own, all others share `"OTHER"`.
pub open spec fn country_of(octet: u8) -> Seq<char> {
    match octet {
        1 => "US"@,
        2 => "CA"@,
        3 => "MX"@,
        4 => "BR"@,
        5 => "RU"@,
        6 => "CN"@,
        7 => "IN"@,
        8 => "GB"@,
        9 => "DE"@,
        10 => "FR"@,
        11 => "ES"@,
        12 => "IT"@,
        13 => "AU"@,
        14 => "JP"@,
        15 => "KR"@,
        16 => "SE"@,
        17 => "NO"@,
        18 => "FI"@,
        19 => "DK"@,
        20 => "NL"@,
        21 => "BE"@,
        22 => "CH"@,
        23 => "AT"@,
        24 => "PL"@,
        25 => "CZ"@,
        26 => "SK"@,
        27 => "HU"@,
        28 => "RO"@,
        29 => "BG"@,
        30 => "TR"@,
        _ => "OTHER"@,
    }
}

/// The country code of the address, by its first octet.
pub fn lookup_country(src_ip: u32) -> (code: &'static str)
    ensures
        code@ == country_of(first_octet(src_ip)),
{
    assert(src_ip >> 24 == src_ip / 0x100_0000) by (bit_vector);
    assert(src_ip >> 24 < 0x100) by (bit_vector);
    let octet: u8 = (src_ip >> 24) as u8;
    match octet {
        1 => "US",
        2 => "CA",
        3 => "MX",
        4 => "BR",
        5 => "RU",
        6 => "CN",
        7 => "IN",
        8 => "GB",
        9 => "DE",
        10 => "FR",
        11 => "ES",
        12 => "IT",
        13 => "AU",
        14 => "JP",
        15 => "KR",
        16 => "SE",
        17 => "NO",
        18 => "FI",
        19 => "DK",
        20 => "NL",
        21 => "BE",
        22 => "CH",
        23 => "AT",
        24 => "PL",
        25 => "CZ",
        26 => "SK",
        27 => "HU",
        28 => "RO",
        29 => "BG",
        30 => "TR",
        _ => "OTHER",
    }
}

/// Every octet has a code: a two-letter one for octets 1 to 30, and
/// `"OTHER"` for each of the remaining 226.
pub proof fn lemma_country_total(octet: u8)
    ensures
        1 <= octet <= 30 ==> country_of(octet).len() == 2,
        !(1 <= octet <= 30) ==> country_of(octet) == "OTHER"@,
        country_of(octet).len() == 2 || country_of(octet).len() == 5,
{
    reveal_strlit("US");
    reveal_strlit("CA");
    reveal_strlit("MX");
    reveal_strlit("BR");
    reveal_strlit("RU");
    reveal_strlit("CN");
    reveal_strlit("IN");
    reveal_strlit("GB");
    reveal_strlit("DE");
    reveal_strlit("FR");
    reveal_strlit("ES");
    reveal_strlit("IT");
    reveal_strlit("AU");
    reveal_strlit("JP");
    reveal_strlit("KR");
    reveal_strlit("SE");
    reveal_strlit("NO");
    reveal_strlit("FI");
    reveal_strlit("DK");
    reveal_strlit("NL");
    reveal_strlit("BE");
    reveal_strlit("CH");
    reveal_strlit("AT");
    reveal_strlit("PL");
    reveal_strlit("CZ");
    reveal_strlit("SK");
    reveal_strlit("HU");
    reveal_strlit("RO");
    reveal_strlit("BG");
    reveal_strlit("TR");
    reveal_strlit("OTHER");
}

} // verus!
