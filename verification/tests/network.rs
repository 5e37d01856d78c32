use ipnetwork::Ipv4Network;
use wsvpn::network::{ConfiguredNetwork, NetworkError};

fn addr(a: u8, b: u8, c: u8, d: u8) -> u32 {
    u32::from_be_bytes([a, b, c, d])
}

#[test]
fn block_of_24_bits_has_its_three_named_addresses() {
    let n = ConfiguredNetwork::new(addr(10, 8, 0, 77), 24).unwrap();
    assert_eq!(n.network(), addr(10, 8, 0, 0));
    assert_eq!(n.broadcast(), addr(10, 8, 0, 255));
    assert_eq!(n.gateway(), Some(addr(10, 8, 0, 1)));
    assert_eq!(n.prefix(), 24);
    assert_eq!(n.ip(), addr(10, 8, 0, 77));
}

#[test]
fn prefix_longer_than_32_is_refused() {
    assert_eq!(ConfiguredNetwork::new(0, 33), Err(NetworkError::InvalidPrefix));
    assert_eq!(ConfiguredNetwork::new(7, 255), Err(NetworkError::InvalidPrefix));
    assert!(ConfiguredNetwork::new(0, 32).is_ok());
}

#[test]
fn pool_leaves_out_network_broadcast_and_gateway() {
    let n = ConfiguredNetwork::new(addr(10, 8, 0, 0), 24).unwrap();
    assert!(!n.is_assignable(addr(10, 8, 0, 0)));
    assert!(!n.is_assignable(addr(10, 8, 0, 1)));
    assert!(!n.is_assignable(addr(10, 8, 0, 255)));
    assert!(n.is_assignable(addr(10, 8, 0, 2)));
    assert!(n.is_assignable(addr(10, 8, 0, 254)));
    assert!(!n.is_assignable(addr(10, 8, 1, 2)));
    assert!(!n.is_assignable(addr(10, 7, 255, 255)));
    let mut count: u32 = 0;
    let mut a = addr(10, 7, 255, 0);
    while a <= addr(10, 8, 1, 255) {
        if n.is_assignable(a) {
            count += 1;
        }
        a += 1;
    }
    assert_eq!(count, 253);
    assert_eq!(n.pool_size(), 253);
}

#[test]
fn pool_size_is_usable_hosts_less_one() {
    assert_eq!(ConfiguredNetwork::new(addr(10, 8, 0, 0), 24).unwrap().pool_size(), 253);
    assert_eq!(ConfiguredNetwork::new(addr(10, 8, 0, 0), 16).unwrap().pool_size(), 65533);
    assert_eq!(ConfiguredNetwork::new(addr(10, 8, 0, 0), 30).unwrap().pool_size(), 1);
    assert_eq!(ConfiguredNetwork::new(addr(10, 8, 0, 0), 29).unwrap().pool_size(), 5);
    assert_eq!(ConfiguredNetwork::new(0, 0).unwrap().pool_size(), 4294967293);
}

#[test]
fn blocks_of_one_or_two_addresses_have_no_pool() {
    let two = ConfiguredNetwork::new(addr(10, 8, 0, 0), 31).unwrap();
    assert_eq!(two.pool_size(), 0);
    assert_eq!(two.pool_bounds(), None);
    assert_eq!(two.gateway(), Some(addr(10, 8, 0, 1)));
    assert_eq!(two.broadcast(), addr(10, 8, 0, 1));
    assert!(!two.is_assignable(addr(10, 8, 0, 0)));
    assert!(!two.is_assignable(addr(10, 8, 0, 1)));
    let one = ConfiguredNetwork::new(addr(10, 8, 0, 9), 32).unwrap();
    assert_eq!(one.pool_size(), 0);
    assert_eq!(one.pool_bounds(), None);
    assert_eq!(one.gateway(), None);
    assert_eq!(one.network(), addr(10, 8, 0, 9));
    assert_eq!(one.broadcast(), addr(10, 8, 0, 9));
    assert!(!one.is_assignable(addr(10, 8, 0, 9)));
}

#[test]
fn pool_bounds_run_from_after_the_gateway_to_the_broadcast_address() {
    let n = ConfiguredNetwork::new(addr(192, 168, 4, 9), 30).unwrap();
    assert_eq!(n.network(), addr(192, 168, 4, 8));
    assert_eq!(n.pool_bounds(), Some((addr(192, 168, 4, 10), addr(192, 168, 4, 11))));
    let whole = ConfiguredNetwork::new(addr(1, 2, 3, 4), 0).unwrap();
    assert_eq!(whole.network(), 0);
    assert_eq!(whole.broadcast(), u32::MAX);
    assert_eq!(whole.pool_bounds(), Some((2, u32::MAX)));
}

#[test]
fn contains_follows_the_block() {
    let n = ConfiguredNetwork::new(addr(172, 16, 5, 1), 20).unwrap();
    assert_eq!(n.network(), addr(172, 16, 0, 0));
    assert_eq!(n.broadcast(), addr(172, 16, 15, 255));
    assert!(n.contains(addr(172, 16, 0, 0)));
    assert!(n.contains(addr(172, 16, 15, 255)));
    assert!(n.contains(addr(172, 16, 9, 3)));
    assert!(!n.contains(addr(172, 16, 16, 0)));
    assert!(!n.contains(addr(172, 15, 255, 255)));
}

#[test]
fn parse_reads_cidr_notation() {
    let n = ConfiguredNetwork::parse("10.8.0.0/24").unwrap();
    assert_eq!(n.ip(), addr(10, 8, 0, 0));
    assert_eq!(n.prefix(), 24);
    let m = ConfiguredNetwork::parse("192.168.7.33/16").unwrap();
    assert_eq!(m.ip(), addr(192, 168, 7, 33));
    assert_eq!(m.prefix(), 16);
    assert_eq!(m.network(), addr(192, 168, 0, 0));
    let single = ConfiguredNetwork::parse("127.0.0.1").unwrap();
    assert_eq!(single.prefix(), 32);
    assert_eq!(single.ip(), addr(127, 0, 0, 1));
}

#[test]
fn parse_refuses_what_is_no_block() {
    assert_eq!(ConfiguredNetwork::parse("nonsense"), Err(NetworkError::InvalidCidr));
    assert_eq!(ConfiguredNetwork::parse(""), Err(NetworkError::InvalidCidr));
    assert_eq!(ConfiguredNetwork::parse("10.8.0.0/33"), Err(NetworkError::InvalidCidr));
    assert_eq!(ConfiguredNetwork::parse("10.8.0.0/24/1"), Err(NetworkError::InvalidCidr));
    assert_eq!(ConfiguredNetwork::parse("10.8.0/24"), Err(NetworkError::InvalidCidr));
    assert_eq!(ConfiguredNetwork::parse("300.8.0.0/24"), Err(NetworkError::InvalidCidr));
}

#[test]
fn derived_addresses_agree_with_ipnetwork() {
    let texts = [
        "10.8.0.0/24",
        "10.1.9.32/16",
        "192.168.4.9/30",
        "172.16.5.1/20",
        "8.8.8.8/31",
        "8.8.8.8/32",
        "1.2.3.4/0",
        "203.0.113.200/27",
        "100.64.0.0/10",
        "255.255.255.255/1",
    ];
    for text in texts {
        let theirs: Ipv4Network = text.parse().unwrap();
        let ours = ConfiguredNetwork::parse(text).unwrap();
        assert_eq!(ours.ip(), u32::from(theirs.ip()), "{}", text);
        assert_eq!(ours.prefix(), theirs.prefix(), "{}", text);
        assert_eq!(ours.network(), u32::from(theirs.network()), "{}", text);
        assert_eq!(ours.broadcast(), u32::from(theirs.broadcast()), "{}", text);
        if theirs.prefix() >= 1 && theirs.prefix() <= 31 {
            assert_eq!(ours.gateway(), theirs.nth(1).map(u32::from), "{}", text);
        }
        for probe in [ours.network(), ours.broadcast(), ours.ip(), 0, u32::MAX, 0x0a080001] {
            assert_eq!(ours.contains(probe), theirs.contains(probe.into()), "{}", text);
        }
    }
}

#[test]
fn every_prefix_gives_a_block_of_a_power_of_two() {
    for prefix in 0u8..=32 {
        let n = ConfiguredNetwork::new(0xC0A8_1234, prefix).unwrap();
        let size = (n.broadcast() as u64) - (n.network() as u64) + 1;
        assert_eq!(size, 1u64 << (32 - prefix as u32));
        assert!(n.network() <= n.ip() && n.ip() <= n.broadcast());
        let expected_pool = if prefix <= 30 { size - 3 } else { 0 };
        assert_eq!(n.pool_size() as u64, expected_pool);
    }
}
