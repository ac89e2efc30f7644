use domain_audit::address::{ip_matches_cidr, parse_address, IpAddress, IpNetwork};
use domain_audit::text::{to_ascii_lower, whitespace};

#[test]
fn ip_matches_cidr_ipv4_ipv6() {
    let ipv4 = parse_address("192.0.2.5").expect("ipv4");
    assert!(ip_matches_cidr(ipv4, "192.0.2.0/24"));
    assert!(!ip_matches_cidr(ipv4, "198.51.100.0/24"));

    let ipv6 = parse_address("2001:db8::1").expect("ipv6");
    assert!(ip_matches_cidr(ipv6, "2001:db8::/32"));
    assert!(!ip_matches_cidr(ipv6, "2001:db9::/32"));
}

#[test]
fn addresses_are_read_as_numbers() {
    assert_eq!(parse_address("192.0.2.5"), Some(IpAddress::V4(0xC000_0205)));
    assert_eq!(parse_address("::1"), Some(IpAddress::V6(1)));
    assert_eq!(
        parse_address("2001:db8::1"),
        Some(IpAddress::V6(0x2001_0db8_0000_0000_0000_0000_0000_0001))
    );
    assert_eq!(parse_address("192.0.2"), None);
    assert_eq!(parse_address(" 192.0.2.5"), None);
    assert_eq!(parse_address(""), None);
}

#[test]
fn a_bare_address_matches_itself_only() {
    let ip = parse_address("192.0.2.5").expect("ipv4");
    assert!(ip_matches_cidr(ip, "192.0.2.5"));
    assert!(!ip_matches_cidr(ip, "192.0.2.6"));
    assert!(!ip_matches_cidr(ip, "192.0.2.0/33"));
    assert!(!ip_matches_cidr(ip, "nonsense"));
    assert!(!ip_matches_cidr(ip, "::ffff:192.0.2.5/128"));
}

#[test]
fn networks_contain_what_lies_between_their_ends() {
    let net = IpNetwork::V4(0xC000_0280, 25);
    assert!(net.contains(IpAddress::V4(0xC000_0280)));
    assert!(net.contains(IpAddress::V4(0xC000_02FF)));
    assert!(!net.contains(IpAddress::V4(0xC000_027F)));
    assert!(!net.contains(IpAddress::V4(0xC000_0300)));
    assert!(!net.contains(IpAddress::V6(0xC000_0280)));
    assert!(IpNetwork::V4(0x0102_0304, 0).contains(IpAddress::V4(0xFFFF_FFFF)));
    assert!(IpNetwork::V4(0x0102_0304, 32).contains(IpAddress::V4(0x0102_0304)));
    assert!(!IpNetwork::V4(0x0102_0304, 32).contains(IpAddress::V4(0x0102_0305)));
    assert!(IpNetwork::V6(0, 0).contains(IpAddress::V6(u128::MAX)));
    assert!(IpNetwork::V6(1 << 127, 1).contains(IpAddress::V6(u128::MAX)));
    assert!(!IpNetwork::V6(1 << 127, 1).contains(IpAddress::V6(1)));
    assert!(IpNetwork::V6(7, 128).contains(IpAddress::V6(7)));
    assert!(!IpNetwork::V6(7, 128).contains(IpAddress::V6(6)));
}

#[test]
fn networks_agree_with_ipnet() {
    let addresses = [0u32, 1, 0x7FFF_FFFF, 0x8000_0000, 0xC000_0205, 0xC000_02FF, u32::MAX];
    for prefix in 0..=32u8 {
        for net_address in addresses {
            let theirs = ipnet::Ipv4Net::new(net_address.into(), prefix).expect("prefix");
            for address in addresses {
                let host = ipnet::Ipv4Net::new(address.into(), 32).expect("host");
                let expected = theirs.contains(&host.addr());
                let ours = IpNetwork::V4(net_address, prefix).contains(IpAddress::V4(address));
                assert_eq!(ours, expected, "{:x}/{} {:x}", net_address, prefix, address);
            }
        }
    }
    let wide = [0u128, 1, 1 << 64, (1 << 64) - 1, 1 << 127, u128::MAX, 0x2001_0db8 << 96];
    for prefix in 0..=128u8 {
        for net_address in wide {
            let theirs = ipnet::Ipv6Net::new(net_address.into(), prefix).expect("prefix");
            for address in wide {
                let host = ipnet::Ipv6Net::new(address.into(), 128).expect("host");
                let expected = theirs.contains(&host.addr());
                let ours = IpNetwork::V6(net_address, prefix).contains(IpAddress::V6(address));
                assert_eq!(ours, expected, "{:x}/{} {:x}", net_address, prefix, address);
            }
        }
    }
}

#[test]
fn white_space_is_what_the_standard_library_calls_so() {
    for code in 0..=0x10FFFFu32 {
        if let Some(c) = char::from_u32(code) {
            assert_eq!(whitespace(c), c.is_whitespace(), "U+{:04X}", code);
            assert_eq!(to_ascii_lower(c), c.to_ascii_lowercase(), "U+{:04X}", code);
        }
    }
}
