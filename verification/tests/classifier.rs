use blog_analytics::cidr::CidrBlock;
use blog_analytics::geoip::{ip_to_country, GeoIpDatabase};
use blog_analytics::ip::IpAddress;

fn entries(pairs: &[(&str, &str)]) -> Vec<(String, String)> {
    pairs.iter().map(|(c, l)| (c.to_string(), l.to_string())).collect()
}

#[test]
fn local_literals() {
    let db = GeoIpDatabase::new();
    assert_eq!(db.lookup_country("127.0.0.1"), "Local");
    assert_eq!(db.lookup_country("localhost"), "Local");
    assert_eq!(db.lookup_country("::1"), "Local");
    assert_eq!(db.lookup_country("127.0.0.1"), db.lookup_country("localhost"));
    assert_eq!(db.lookup_country("localhost"), db.lookup_country("::1"));
}

#[test]
fn local_through_table() {
    let db = GeoIpDatabase::new();
    // The loopback block answers even for addresses that are not the
    // shortcut literals, and for the long form of ::1.
    assert_eq!(db.lookup_country("127.5.5.5"), "Local");
    assert_eq!(db.lookup_country("0:0:0:0:0:0:0:1"), "Local");
}

#[test]
fn private_networks() {
    let db = GeoIpDatabase::new();
    assert_eq!(db.lookup_country("10.1.2.3"), "Private Network");
    assert_eq!(db.lookup_country("192.168.0.5"), "Private Network");
    assert_eq!(db.lookup_country("172.16.0.1"), "Private Network");
    assert_eq!(db.lookup_country("172.31.255.255"), "Private Network");
    assert_eq!(db.lookup_country("fc00::1"), "Private Network");
    assert_eq!(db.lookup_country("fd12:3456::1"), "Private Network");
    assert_eq!(db.lookup_country("fe80::1"), "Link Local");
}

#[test]
fn invalid_literals() {
    let db = GeoIpDatabase::new();
    for bad in [
        "not-an-ip",
        "",
        "1.2.3",
        "1.2.3.4.5",
        "256.0.0.1",
        "1.2.3.004",
        "01.2.3.4",
        ":::",
        "10.0.0.0/8",
        "1.2.3.4 ",
        "abcd::efgh",
        "1:2:3:4:5:6:7:8:9",
        "12345::1",
    ] {
        assert_eq!(db.lookup_country(bad), "Invalid IP", "input {:?}", bad);
    }
}

#[test]
fn unknown_outside_blocks() {
    let db = GeoIpDatabase::new();
    for ip in ["200.0.0.1", "1.2.3.4", "99.99.99.99", "128.0.0.1", "2001:db8::1", "abcd::1"] {
        assert_eq!(db.lookup_country(ip), "Unknown", "input {:?}", ip);
    }
}

#[test]
fn country_lookups() {
    let db = GeoIpDatabase::new();
    assert_eq!(db.lookup_country("24.1.2.3"), "Canada");
    assert_eq!(db.lookup_country("5.4.3.2"), "Russia");
    assert_eq!(db.lookup_country("41.1.1.1"), "South Africa");
    assert_eq!(db.lookup_country("47.10.20.30"), "Singapore");
    assert_eq!(db.lookup_country("106.1.1.1"), "Japan");
    assert_eq!(db.lookup_country("195.10.20.30"), "United Kingdom");
    assert_eq!(db.lookup_country("80.85.7.7"), "Ireland");
    assert_eq!(db.lookup_country("192.99.1.2"), "Canada");
    assert_eq!(db.lookup_country("2a03::5"), "Europe");
    assert_eq!(db.lookup_country("2a0f:1234::1"), "Europe");
    assert_eq!(db.lookup_country("2600:1f18::1"), "United States");
    assert_eq!(db.lookup_country("2404:6800::1"), "China");
}

#[test]
fn equal_length_ties_keep_table_order() {
    let db = GeoIpDatabase::new();
    // 212.0.0.0/8 is listed for the United Kingdom before France,
    // 213.0.0.0/8 for France before Russia: the earlier entry wins.
    assert_eq!(db.lookup_country("212.55.66.77"), "United Kingdom");
    assert_eq!(db.lookup_country("213.55.66.77"), "France");
}

#[test]
fn longest_prefix_wins() {
    let db = GeoIpDatabase::from_entries(&entries(&[
        ("80.0.0.0/8", "United Kingdom"),
        ("80.85.0.0/16", "Ireland"),
    ]));
    // Inside both blocks: the /16 is more specific and wins regardless of
    // the order the entries were written in.
    assert_eq!(db.lookup_country("80.85.1.1"), "Ireland");
    // Inside only the /8.
    assert_eq!(db.lookup_country("80.86.1.1"), "United Kingdom");

    let db2 = GeoIpDatabase::from_entries(&entries(&[
        ("80.85.0.0/16", "Ireland"),
        ("80.0.0.0/8", "United Kingdom"),
    ]));
    assert_eq!(db2.lookup_country("80.85.1.1"), "Ireland");
    assert_eq!(db2.lookup_country("80.86.1.1"), "United Kingdom");
}

#[test]
fn longest_prefix_wins_v6() {
    let db = GeoIpDatabase::from_entries(&entries(&[
        ("2a00::/12", "Europe"),
        ("2a01::/16", "Netherlands"),
    ]));
    assert_eq!(db.lookup_country("2a01::1"), "Netherlands");
    assert_eq!(db.lookup_country("2a02::1"), "Europe");
}

#[test]
fn malformed_entries_dropped() {
    let db = GeoIpDatabase::from_entries(&entries(&[
        ("nonsense", "A"),
        ("300.0.0.0/8", "B"),
        ("10.0.0.0", "C"),
        ("10.0.0.0/8/9", "D"),
        ("10.0.0.0/8", "Keeps"),
    ]));
    assert_eq!(db.lookup_country("10.1.1.1"), "Keeps");
    assert_eq!(db.lookup_country("1.1.1.1"), "Unknown");
}

#[test]
fn ip_to_country_matches_lookup() {
    let db = GeoIpDatabase::new();
    for ip in ["10.1.2.3", "24.1.2.3", "not-an-ip", "200.0.0.1", "localhost"] {
        assert_eq!(ip_to_country(&db, ip), db.lookup_country(ip));
    }
}

#[test]
fn cidr_block_parse() {
    let b = CidrBlock::new("10.0.0.0/8", "Private Network").unwrap();
    assert_eq!(b.network, IpAddress::V4(0x0a00_0000));
    assert_eq!(b.prefix_len, 8);
    assert_eq!(b.country, "Private Network");

    let b6 = CidrBlock::new("2a00::/12", "Europe").unwrap();
    assert_eq!(b6.network, IpAddress::V6(0x2a00_0000_0000_0000_0000_0000_0000_0000));
    assert_eq!(b6.prefix_len, 12);

    assert!(CidrBlock::new("10.0.0.0", "X").is_none());
    assert!(CidrBlock::new("10.0.0.0/8/9", "X").is_none());
    assert!(CidrBlock::new("banana/8", "X").is_none());
    assert!(CidrBlock::new("10.0.0.0/256", "X").is_none());
    assert!(CidrBlock::new("10.0.0.0/x", "X").is_none());
    assert!(CidrBlock::new("/8", "X").is_none());
    assert!(CidrBlock::new("10.0.0.0/", "X").is_none());
    // A prefix that exceeds the address width still parses as a number; the
    // resulting mask is simply every bit.
    assert!(CidrBlock::new("10.0.0.0/200", "X").is_some());
}

#[test]
fn containment_test() {
    let b = CidrBlock::new("10.0.0.0/8", "Private Network").unwrap();
    assert!(b.contains(IpAddress::V4(0x0a01_0203)));
    assert!(!b.contains(IpAddress::V4(0x0b01_0203)));
    // Family mismatch is never a match.
    assert!(!b.contains(IpAddress::V6(1)));

    let zero = CidrBlock::new("0.0.0.0/0", "Everywhere").unwrap();
    assert!(zero.contains(IpAddress::V4(0xffff_ffff)));
    assert!(zero.contains(IpAddress::V4(0)));

    let host = CidrBlock::new("::1/128", "Local").unwrap();
    assert!(host.contains(IpAddress::V6(1)));
    assert!(!host.contains(IpAddress::V6(2)));
}

#[test]
fn ipv6_literal_forms() {
    let db = GeoIpDatabase::new();
    // Full, compressed, mixed-case and zero-run forms of addresses in the
    // European 2a00::/12 block.
    assert_eq!(db.lookup_country("2a00:0000:0000:0000:0000:0000:0000:0001"), "Europe");
    assert_eq!(db.lookup_country("2a00::1"), "Europe");
    assert_eq!(db.lookup_country("2A00::1"), "Europe");
    assert_eq!(db.lookup_country("2a00:1:2:3::"), "Europe");
    // The unspecified address parses and matches nothing.
    assert_eq!(db.lookup_country("::"), "Unknown");
}
