use rtain::network::bridge::BridgeDriver;
use rtain::{
    client_outcome, ContainerMeta, InnerState, Msg, Network, Networks, StorageOperation, IPAM,
};

#[test]
fn ipam_raw_round_trip() {
    let mut ipam = IPAM::empty();
    ipam.add_subnet("10.0.0.0/24").unwrap();
    ipam.add_subnet("10.1.0.0/30").unwrap();
    ipam.allocate_gateway("10.0.0.0/24").unwrap();
    for _ in 0..9 {
        ipam.allocate_ip("10.0.0.0/24").unwrap();
    }
    ipam.allocate_ip("10.1.0.0/30").unwrap();
    let raw = ipam.to_raw();
    assert_eq!(raw.len(), 2);
    assert_eq!(raw[0].0, "10.0.0.0/24");
    assert_eq!(raw[0].1.len(), 32);
    assert_eq!(raw[0].1[0], 0xff);
    assert_eq!(raw[0].1[1], 0x03);
    assert_eq!(raw[0].1[2], 0x00);
    assert_eq!(raw[1].1, vec![0x01]);
    let mut back = IPAM::from_raw(raw.clone()).unwrap();
    assert_eq!(back.to_raw(), raw);
    // the restored bitmap goes on where the saved one stopped
    assert_eq!(back.allocate_ip("10.0.0.0/24").unwrap(), (10 << 24) + 11);
    assert!(IPAM::from_raw(vec![("10.0.0.0/24".to_string(), vec![0; 31])]).is_err());
    assert!(IPAM::from_raw(vec![("bad".to_string(), vec![])]).is_err());
    assert!(IPAM::from_raw(vec![
        ("10.1.0.0/30".to_string(), vec![0]),
        ("10.1.0.0/30".to_string(), vec![0])
    ])
    .is_err());
}

#[test]
fn networks_restore() {
    let net = |n: &str| Network { name: n.to_string(), cidr: "10.0.0.0/24".to_string(), gateway: 1, driver: "bridge".to_string() };
    let nets = Networks::restore(vec![("10.0.0.0/24".to_string(), vec![0; 32])], vec![net("a"), net("b")]).unwrap();
    assert!(nets.get(&"b".to_string()).is_some());
    assert!(Networks::restore(vec![], vec![net("a"), net("a")]).is_err());
}

#[test]
fn snapshot_records_rebuild_the_index() {
    let mut state = InnerState::new();
    for (id, name) in [("1", "a"), ("2", "b"), ("3", "c")] {
        state
            .apply_operation(StorageOperation::Create(ContainerMeta::new(
                id.to_string(),
                name.to_string(),
                "img".to_string(),
                vec!["sh".to_string()],
                vec![],
            )))
            .unwrap();
    }
    let records = state.get_all_metas();
    let back = InnerState::from_records(records).unwrap();
    assert_eq!(back.get_all_metas().len(), 3);
    assert_eq!(back.get_meta_by_name(&"b".to_string()).unwrap().id, "2");
    let twice = vec![
        ContainerMeta::new("1".to_string(), "a".to_string(), "i".to_string(), vec![], vec![]),
        ContainerMeta::new("2".to_string(), "a".to_string(), "i".to_string(), vec![], vec![]),
    ];
    assert!(InnerState::from_records(twice).is_err());
}

#[test]
fn client_reactions() {
    let o = client_outcome(Some(Msg::OkContent("hi".to_string())));
    assert_eq!(o.stdout, Some("hi".to_string()));
    assert_eq!(o.exit_code, 0);
    let o = client_outcome(Some(Msg::Error("bad".to_string())));
    assert_eq!(o.stderr, Some("bad".to_string()));
    assert_eq!(o.exit_code, 1);
    assert_eq!(client_outcome(Some(Msg::Okay)).exit_code, 0);
    assert_eq!(client_outcome(None).exit_code, 1);
    assert_eq!(client_outcome(Some(Msg::Continue)).exit_code, 1);
}

#[test]
fn bridge_rules() {
    let d = BridgeDriver {};
    assert_eq!(d.forward_rule("br0"), vec!["-A", "FORWARD", "-i", "br0", "-j", "ACCEPT"]);
    assert_eq!(
        d.masquerade_rule("192.168.100.0/24"),
        vec!["-t", "nat", "-A", "POSTROUTING", "-s", "192.168.100.0/24", "-j", "MASQUERADE"]
    );
    assert_eq!(d.veth_names("ab12"), ("veth-ab12".to_string(), "ceth-ab12".to_string()));
    assert_eq!(d.netns_path(4321), "/proc/4321/ns/net");
}
