use rtain::network::addr::{parse_cidr, parse_ipv4};
use rtain::{IpamError, IPAM};

#[test]
fn test_ipam_basic_operations() {
    let mut ipam = IPAM::empty();
    assert!(ipam.add_subnet("192.168.1.0/24").is_ok());
    assert!(ipam.add_subnet("192.168.1.0/24").is_err());
}

#[test]
fn test_ip_allocation() {
    let mut ipam = IPAM::empty();
    ipam.add_subnet("192.168.1.0/24").unwrap();

    let gateway = ipam.allocate_gateway("192.168.1.0/24").unwrap();
    assert_eq!(gateway, quad(192, 168, 1, 1));

    let ip1 = ipam.allocate_ip("192.168.1.0/24").unwrap();
    assert_eq!(ip1, quad(192, 168, 1, 2));

    let ip2 = ipam.allocate_ip("192.168.1.0/24").unwrap();
    assert_eq!(ip2, quad(192, 168, 1, 3));
}

#[test]
fn test_ip_release() {
    let mut ipam = IPAM::empty();
    ipam.add_subnet("192.168.1.0/24").unwrap();
    let ip = ipam.allocate_ip("192.168.1.0/24").unwrap();
    assert!(ipam.release_ip("192.168.1.0/24", ip).is_ok());
    assert!(ipam.release_ip("192.168.1.0/24", ip).is_err());
    let ip2 = ipam.allocate_ip("192.168.1.0/24").unwrap();
    assert_eq!(ip, ip2);
}

#[test]
fn test_parse_cidr() {
    assert_eq!(parse_cidr("192.168.1.0/24").unwrap(), (quad(192, 168, 1, 0), 24));
    assert_eq!(parse_cidr("10.0.0.0/8").unwrap(), (quad(10, 0, 0, 0), 8));
    assert!(parse_cidr("invalid").is_none());
    assert!(parse_cidr("192.168.1.0/33").is_none());
}

#[test]
fn test_small_subnet() {
    let mut ipam = IPAM::empty();
    ipam.add_subnet("192.168.1.0/30").unwrap();
    let ip1 = ipam.allocate_ip("192.168.1.0/30").unwrap();
    let _ip2 = ipam.allocate_ip("192.168.1.0/30").unwrap();
    assert!(ipam.allocate_ip("192.168.1.0/30").is_err());
    ipam.release_ip("192.168.1.0/30", ip1).unwrap();
    let ip3 = ipam.allocate_ip("192.168.1.0/30").unwrap();
    assert_eq!(ip1, ip3);
}

#[test]
fn slash_thirty_has_two_hosts() {
    let mut ipam = IPAM::empty();
    ipam.add_subnet("10.1.2.0/30").unwrap();
    assert_eq!(ipam.allocate_ip("10.1.2.0/30").unwrap(), quad(10, 1, 2, 1));
    assert_eq!(ipam.allocate_ip("10.1.2.0/30").unwrap(), quad(10, 1, 2, 2));
    assert_eq!(ipam.allocate_ip("10.1.2.0/30"), Err(IpamError::Exhausted));
}

#[test]
fn address_errors() {
    let mut ipam = IPAM::empty();
    assert_eq!(ipam.add_subnet("10.0.0.0/40"), Err(IpamError::InvalidCidr));
    assert_eq!(ipam.add_subnet("10.0.0/24"), Err(IpamError::InvalidCidr));
    assert_eq!(ipam.allocate_ip("10.0.0.0/24"), Err(IpamError::UnknownSubnet));
    ipam.add_subnet("10.0.0.0/24").unwrap();
    assert_eq!(ipam.add_subnet("10.0.0.0/24"), Err(IpamError::DuplicateSubnet));
        assert_eq!(ipam.release_ip("10.0.0.0/24", quad(10, 0, 1, 5)), Err(IpamError::NotInSubnet));
    assert_eq!(ipam.release_ip("10.0.0.0/24", quad(10, 0, 0, 0)), Err(IpamError::OutOfRange));
    assert_eq!(ipam.release_ip("10.0.0.0/24", quad(10, 0, 0, 255)), Err(IpamError::OutOfRange));
    assert_eq!(ipam.release_ip("10.0.0.0/24", quad(10, 0, 0, 9)), Err(IpamError::NotAllocated));
    assert_eq!(ipam.release_ip("10.0.0.0/33", quad(10, 0, 0, 9)), Err(IpamError::InvalidCidr));
    assert_eq!(ipam.allocate_gateway("10.0.0.0/24"), Ok(quad(10, 0, 0, 1)));
    assert_eq!(ipam.allocate_gateway("10.0.0.0/24"), Err(IpamError::AlreadyAllocated));
    ipam.add_subnet("10.9.0.0/31").unwrap();
    assert_eq!(ipam.allocate_gateway("10.9.0.0/31"), Err(IpamError::OutOfRange));
    assert_eq!(ipam.allocate_ip("10.9.0.0/31"), Err(IpamError::Exhausted));
}

#[test]
fn allocation_release_restores_and_counts() {
    let mut ipam = IPAM::empty();
    ipam.add_subnet("172.16.5.0/24").unwrap();
    let a = ipam.allocate_ip("172.16.5.0/24").unwrap();
    let b = ipam.allocate_ip("172.16.5.0/24").unwrap();
    let c = ipam.allocate_ip("172.16.5.0/24").unwrap();
    ipam.release_ip("172.16.5.0/24", b).unwrap();
    // the lowest free address comes back first
    assert_eq!(ipam.allocate_ip("172.16.5.0/24").unwrap(), b);
    assert_eq!(a, quad(172, 16, 5, 1));
    assert_eq!(c, quad(172, 16, 5, 3));
    // a block given off its boundary still counts from its base
    ipam.add_subnet("192.168.7.77/24").unwrap();
    assert_eq!(ipam.allocate_ip("192.168.7.77/24").unwrap(), quad(192, 168, 7, 1));
}

#[test]
fn dotted_quads() {
    let p = |s: &str| parse_ipv4(s, 0, s.chars().count());
    assert_eq!(p("1.2.3.4"), Some(0x01020304));
    assert_eq!(p("255.255.255.255"), Some(u32::MAX));
    assert_eq!(p("0.0.0.0"), Some(0));
    assert_eq!(p("256.0.0.1"), None);
    assert_eq!(p("01.2.3.4"), None);
    assert_eq!(p("1.2.3"), None);
    assert_eq!(p("1.2.3.4.5"), None);
    assert_eq!(p("1..3.4"), None);
    assert_eq!(p("1.2.3.4a"), None);
    assert_eq!(p("1234.2.3.4"), None);
}

fn quad(a: u8, b: u8, c: u8, d: u8) -> u32 {
    (a as u32) << 24 | (b as u32) << 16 | (c as u32) << 8 | d as u32
}
