use rtain::network::ipam::IpamError;
use rtain::{Msg, NetCreateArgs, NetError, Networks};

fn args(name: &str, subnet: &str, driver: &str) -> NetCreateArgs {
    NetCreateArgs { name: name.to_string(), subnet: subnet.to_string(), driver: driver.to_string() }
}

#[test]
fn network_create_then_duplicate() {
    let mut nets = Networks::empty();
    let a = args("br0", "192.168.100.0/24", "bridge");
    let gw = nets.prepare_create(&a).unwrap();
    assert_eq!(gw, quad(192, 168, 100, 1));
    match nets.finish_create(a, gw, Ok(())) {
        Msg::OkContent(t) => assert_eq!(t, "Network br0 created"),
        other => panic!("unexpected answer {:?}", other),
    }
    let again = args("br0", "192.168.100.0/24", "bridge");
    let e = nets.prepare_create(&again).unwrap_err();
    assert_eq!(e, NetError::AlreadyExists);
    assert!(e.message(&again).ends_with("already exists: br0"));
    // the gateway holds bit 0: the next address handed out is .2
    assert_eq!(nets.ipam.allocate_ip("192.168.100.0/24").unwrap(), quad(192, 168, 100, 2));
    assert_eq!(nets.get(&"br0".to_string()).unwrap().gateway, gw);
}

#[test]
fn network_driver_and_subnet_errors() {
    let mut nets = Networks::empty();
    assert_eq!(nets.prepare_create(&args("n", "10.0.0.0/24", "macvlan")), Err(NetError::UnsupportedDriver));
    assert_eq!(nets.prepare_create(&args("n", "10.0.0.0/99", "bridge")), Err(NetError::Address(IpamError::InvalidCidr)));
    let msg = NetError::UnsupportedDriver.message(&args("n", "x", "macvlan"));
    assert_eq!(msg, "Failed to create network, invalid driver: macvlan");
}

#[test]
fn failed_bridge_gives_gateway_back() {
    let mut nets = Networks::empty();
    let a = args("br1", "10.5.0.0/24", "bridge");
    let gw = nets.prepare_create(&a).unwrap();
    match nets.finish_create(a, gw, Err("netlink refused".to_string())) {
        Msg::Error(t) => assert_eq!(t, "Failed to create network, driver error: netlink refused"),
        other => panic!("unexpected answer {:?}", other),
    }
    assert!(nets.get(&"br1".to_string()).is_none());
    assert_eq!(nets.ipam.allocate_gateway("10.5.0.0/24"), Ok(gw));
}

fn quad(a: u8, b: u8, c: u8, d: u8) -> u32 {
    (a as u32) << 24 | (b as u32) << 16 | (c as u32) << 8 | d as u32
}
