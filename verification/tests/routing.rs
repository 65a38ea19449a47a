use mrbgpdv2::bgp_type::AutonomousSystemNumber;
use mrbgpdv2::config::Config;
use mrbgpdv2::ipv4::Ipv4Addr;
use mrbgpdv2::ipv4::Ipv4Network;
use mrbgpdv2::packets::update::UpdateMessage;
use mrbgpdv2::path_attribute::AsPath;
use mrbgpdv2::path_attribute::Origin;
use mrbgpdv2::path_attribute::PathAttribute;
use mrbgpdv2::routing::AdjRibIn;
use mrbgpdv2::routing::AdjRibOut;
use mrbgpdv2::routing::KernelRoute;
use mrbgpdv2::routing::LocRib;
use mrbgpdv2::routing::Rib;
use mrbgpdv2::routing::RibEntry;
use mrbgpdv2::routing::RibEntryStatus;

fn network(text: &str) -> Ipv4Network {
    text.parse().unwrap()
}

fn route(text: &str, path: Vec<u16>, next_hop: Ipv4Addr) -> RibEntry {
    RibEntry {
        network_address: network(text),
        path_attributes: vec![
            PathAttribute::Origin(Origin::Igp),
            PathAttribute::AsPath(AsPath::AsSequence(
                path.into_iter().map(AutonomousSystemNumber).collect(),
            )),
            PathAttribute::NextHop(next_hop),
        ],
    }
}

#[test]
fn update_message_from_adj_rib_out() {
    let some_as: AutonomousSystemNumber = 64513.into();
    let some_ip: Ipv4Addr = "10.0.100.3".parse().unwrap();

    let local_as: AutonomousSystemNumber = 64514.into();
    let local_ip: Ipv4Addr = "10.200.100.3".parse().unwrap();

    let rib_path_attributes = vec![
        PathAttribute::Origin(Origin::Igp),
        PathAttribute::AsPath(AsPath::AsSequence(vec![some_as])),
        PathAttribute::NextHop(some_ip),
    ];

    let update_message_path_attributes = vec![
        PathAttribute::Origin(Origin::Igp),
        PathAttribute::AsPath(AsPath::AsSequence(vec![some_as, local_as])),
        PathAttribute::NextHop(local_ip),
    ];
    let mut adj_rib_out = AdjRibOut::new();

    adj_rib_out.insert(RibEntry {
        network_address: "10.100.220.0/24".parse().unwrap(),
        path_attributes: rib_path_attributes,
    });

    let expected_update_message = UpdateMessage::new(
        update_message_path_attributes,
        vec!["10.100.220.0/24".parse().unwrap()],
        vec![],
    );
    assert_eq!(
        adj_rib_out.create_update_messages(local_ip, local_as),
        vec![expected_update_message]
    );
}

#[test]
fn loclib_can_lookup_routing_table() {
    let network = Ipv4Network::new("10.200.100.0".parse().unwrap(), 24).unwrap();
    let kernel_table = vec![
        Ipv4Network::new(Ipv4Addr(0, 0, 0, 0), 0).unwrap(),
        network,
        Ipv4Network::new(Ipv4Addr(10, 200, 100, 0), 25).unwrap(),
        Ipv4Network::new(Ipv4Addr(10, 100, 220, 0), 24).unwrap(),
    ];
    let routes = LocRib::lookup_kernel_routing_table(network, &kernel_table);
    let expected = vec![network];
    assert_eq!(routes, expected);
    let absent = Ipv4Network::new(Ipv4Addr(192, 0, 2, 0), 24).unwrap();
    assert_eq!(LocRib::lookup_kernel_routing_table(absent, &kernel_table), vec![]);
}

#[test]
fn loc_rib_to_adj_rib_out() {
    let config: Config =
        "64513 10.200.100.3 64512 10.200.100.2 passive 10.100.220.0/24".parse().unwrap();
    let kernel_table = vec![network("10.100.220.0/24"), network("10.200.100.0/24")];
    let loc_rib = LocRib::new(&config, &kernel_table);
    let mut adj_rib_out = AdjRibOut::new();
    adj_rib_out.install_from_loc_rib(&loc_rib, &config);

    let mut rib = Rib::new();
    rib.insert(RibEntry {
        network_address: "10.100.220.0/24".parse().unwrap(),
        path_attributes: vec![
            PathAttribute::Origin(Origin::Igp),
            PathAttribute::AsPath(AsPath::AsSequence(vec![])),
            PathAttribute::NextHop("10.200.100.3".parse().unwrap()),
        ],
    });
    let expected_adj_rib_out = AdjRibOut(rib);

    assert_eq!(adj_rib_out, expected_adj_rib_out);

    let sent = adj_rib_out.create_update_messages(config.local_ip, config.local_as);
    let expected = UpdateMessage::new(
        vec![
            PathAttribute::Origin(Origin::Igp),
            PathAttribute::AsPath(AsPath::AsSequence(vec![64513.into()])),
            PathAttribute::NextHop("10.200.100.3".parse().unwrap()),
        ],
        vec!["10.100.220.0/24".parse().unwrap()],
        vec![],
    );
    assert_eq!(sent, vec![expected]);
}

#[test]
fn rib_insert_marks_a_route_new_once() {
    let entry = route("10.0.0.0/8", vec![1], Ipv4Addr(192, 0, 2, 1));
    let mut rib = Rib::new();
    assert!(!rib.contains(&entry));
    assert_eq!(rib.status(&entry), None);
    assert!(!rib.does_contain_new_route());
    rib.insert(entry.clone());
    assert_eq!(rib.status(&entry), Some(RibEntryStatus::New));
    assert!(rib.does_contain_new_route());
    assert_eq!(rib.routes(), vec![entry.clone()]);
}

#[test]
fn rib_insert_twice_is_insert_once() {
    let entry = route("10.0.0.0/8", vec![1], Ipv4Addr(192, 0, 2, 1));
    let mut once = Rib::new();
    once.insert(entry.clone());
    let mut twice = Rib::new();
    twice.insert(entry.clone());
    twice.insert(entry.clone());
    assert_eq!(once, twice);
    assert_eq!(twice.routes().len(), 1);

    once.update_to_all_unchanged();
    twice.update_to_all_unchanged();
    twice.insert(entry.clone());
    assert_eq!(twice.status(&entry), Some(RibEntryStatus::UnChanged));
    assert_eq!(once, twice);
    assert!(once.equals(&twice));
}

#[test]
fn rib_update_to_all_unchanged_leaves_no_new_route() {
    let mut rib = Rib::new();
    rib.insert(route("10.0.0.0/8", vec![1], Ipv4Addr(192, 0, 2, 1)));
    rib.insert(route("10.0.0.0/8", vec![2], Ipv4Addr(192, 0, 2, 1)));
    rib.insert(route("172.16.0.0/12", vec![1], Ipv4Addr(192, 0, 2, 1)));
    assert!(rib.does_contain_new_route());
    rib.update_to_all_unchanged();
    assert!(!rib.does_contain_new_route());
    assert_eq!(rib.routes().len(), 3);
    for entry in rib.routes() {
        assert_eq!(rib.status(&entry), Some(RibEntryStatus::UnChanged));
    }
}

#[test]
fn rib_equality_does_not_depend_on_order() {
    let a = route("10.0.0.0/8", vec![1], Ipv4Addr(192, 0, 2, 1));
    let b = route("172.16.0.0/12", vec![1], Ipv4Addr(192, 0, 2, 1));
    let mut first = Rib::new();
    first.insert(a.clone());
    first.insert(b.clone());
    let mut second = Rib::new();
    second.insert(b.clone());
    second.insert(a.clone());
    assert_eq!(first, second);
    assert_eq!(first.clone(), second);
    second.update_to_all_unchanged();
    assert_ne!(first, second);
    let mut third = Rib::new();
    third.insert(a);
    assert_ne!(first, third);
}

#[test]
fn rib_entry_identity_spans_network_and_attributes() {
    let a = route("10.0.0.0/8", vec![1, 2], Ipv4Addr(192, 0, 2, 1));
    assert!(a.equals(&a.clone()));
    assert!(!a.equals(&route("10.0.0.0/9", vec![1, 2], Ipv4Addr(192, 0, 2, 1))));
    assert!(!a.equals(&route("10.0.0.0/8", vec![2, 1], Ipv4Addr(192, 0, 2, 1))));
    assert!(!a.equals(&route("10.0.0.0/8", vec![1, 2], Ipv4Addr(192, 0, 2, 2))));
    assert_eq!(a.next_hop(), Some(Ipv4Addr(192, 0, 2, 1)));
    assert!(a.does_contain_as(2.into()));
    assert!(!a.does_contain_as(3.into()));
    let bare = RibEntry { network_address: network("10.0.0.0/8"), path_attributes: vec![] };
    assert_eq!(bare.next_hop(), None);
    assert!(!bare.does_contain_as(1.into()));
}

#[test]
fn rib_entry_rewrites() {
    let mut entry = RibEntry {
        network_address: network("10.0.0.0/8"),
        path_attributes: vec![
            PathAttribute::NextHop(Ipv4Addr(1, 1, 1, 1)),
            PathAttribute::AsPath(AsPath::AsSet(vec![5.into(), 9.into()])),
            PathAttribute::Unknown(vec![0xC0, 8, 0]),
            PathAttribute::AsPath(AsPath::AsSequence(vec![9.into()])),
            PathAttribute::NextHop(Ipv4Addr(2, 2, 2, 2)),
        ],
    };
    entry.append_as_path(7.into());
    entry.change_next_hop(Ipv4Addr(10, 0, 0, 1));
    assert_eq!(
        entry.path_attributes,
        vec![
            PathAttribute::NextHop(Ipv4Addr(10, 0, 0, 1)),
            PathAttribute::AsPath(AsPath::AsSet(vec![5.into(), 7.into(), 9.into()])),
            PathAttribute::Unknown(vec![0xC0, 8, 0]),
            PathAttribute::AsPath(AsPath::AsSequence(vec![9.into(), 7.into()])),
            PathAttribute::NextHop(Ipv4Addr(10, 0, 0, 1)),
        ]
    );
    assert_eq!(entry.network_address, network("10.0.0.0/8"));
}

#[test]
fn loc_rib_starts_with_the_advertised_networks_that_the_kernel_knows() {
    let config: Config =
        "64513 10.200.100.3 64512 10.200.100.2 passive 10.100.220.0/24 10.100.230.0/24"
            .parse()
            .unwrap();
    let loc_rib = LocRib::new(&config, &vec![network("10.100.220.0/24"), network("10.9.0.0/16")]);
    assert_eq!(loc_rib.local_as(), AutonomousSystemNumber(64513));
    assert_eq!(
        loc_rib.routes(),
        vec![route("10.100.220.0/24", vec![], Ipv4Addr(10, 200, 100, 3))]
    );
    assert!(loc_rib.does_contain_new_route());
    assert_eq!(
        loc_rib.kernel_routes(),
        vec![KernelRoute {
            destination: network("10.100.220.0/24"),
            gateway: Ipv4Addr(10, 200, 100, 3)
        }]
    );
    let empty = LocRib::new(&config, &vec![]);
    assert_eq!(empty.routes(), vec![]);
    assert!(!empty.does_contain_new_route());
}

#[test]
fn loc_rib_does_not_take_routes_through_its_own_as() {
    let config: Config = "64512 127.0.0.1 64513 127.0.0.2 active".parse().unwrap();
    let mut loc_rib = LocRib::new(&config, &vec![]);
    let mut adj_rib_in = AdjRibIn::new();
    let looped = route("10.0.0.0/8", vec![64513, 64512], Ipv4Addr(127, 0, 0, 2));
    let fine = route("172.16.0.0/12", vec![64513], Ipv4Addr(127, 0, 0, 2));
    adj_rib_in.insert(looped.clone());
    adj_rib_in.insert(fine.clone());
    loc_rib.install_from_adj_rib_in(&adj_rib_in);
    assert_eq!(loc_rib.routes(), vec![fine.clone()]);
    assert!(!loc_rib.rib().contains(&looped));
    assert_eq!(loc_rib.rib().status(&fine), Some(RibEntryStatus::New));
    assert_eq!(
        loc_rib.kernel_routes(),
        vec![KernelRoute { destination: network("172.16.0.0/12"), gateway: Ipv4Addr(127, 0, 0, 2) }]
    );
    loc_rib.update_to_all_unchanged();
    loc_rib.install_from_adj_rib_in(&adj_rib_in);
    assert!(!loc_rib.does_contain_new_route());
    assert_eq!(loc_rib.routes().len(), 1);
}

#[test]
fn update_through_the_local_as_leaves_loc_rib_unchanged() {
    let config: Config = "64512 127.0.0.1 64513 127.0.0.2 active 10.1.0.0/16".parse().unwrap();
    let mut loc_rib = LocRib::new(&config, &vec![network("10.1.0.0/16")]);
    let before = loc_rib.rib().clone();
    let update = UpdateMessage::new(
        vec![
            PathAttribute::Origin(Origin::Igp),
            PathAttribute::AsPath(AsPath::AsSequence(vec![64513.into(), 64512.into()])),
            PathAttribute::NextHop(Ipv4Addr(127, 0, 0, 2)),
        ],
        vec![network("10.100.220.0/24"), network("10.100.221.0/24")],
        vec![],
    );
    let mut adj_rib_in = AdjRibIn::new();
    adj_rib_in.install_from_update(update, &config);
    assert_eq!(adj_rib_in.0.routes().len(), 2);
    assert!(adj_rib_in.does_contain_new_route());
    loc_rib.install_from_adj_rib_in(&adj_rib_in);
    assert_eq!(loc_rib.rib(), &before);
}

#[test]
fn adj_rib_out_does_not_take_routes_through_the_peer() {
    let config: Config = "64512 127.0.0.1 64513 127.0.0.2 active".parse().unwrap();
    let mut loc_rib = LocRib::new(&config, &vec![]);
    let mut learned = AdjRibIn::new();
    let through_peer = route("10.0.0.0/8", vec![64513], Ipv4Addr(127, 0, 0, 2));
    let elsewhere = route("172.16.0.0/12", vec![64999], Ipv4Addr(127, 0, 0, 3));
    learned.insert(through_peer.clone());
    learned.insert(elsewhere.clone());
    loc_rib.install_from_adj_rib_in(&learned);
    assert_eq!(loc_rib.routes().len(), 2);

    let mut adj_rib_out = AdjRibOut::new();
    adj_rib_out.install_from_loc_rib(&loc_rib, &config);
    assert_eq!(adj_rib_out.0.routes(), vec![elsewhere]);
    assert!(!adj_rib_out.0.contains(&through_peer));
    assert!(adj_rib_out.does_contain_new_route());
    adj_rib_out.update_to_all_unchanged();
    adj_rib_out.install_from_loc_rib(&loc_rib, &config);
    assert!(!adj_rib_out.does_contain_new_route());
}

#[test]
fn adj_rib_in_takes_a_route_for_each_announced_network() {
    let config: Config = "64512 127.0.0.1 64513 127.0.0.2 active".parse().unwrap();
    let attributes = vec![
        PathAttribute::Origin(Origin::Egp),
        PathAttribute::AsPath(AsPath::AsSequence(vec![64513.into()])),
        PathAttribute::NextHop(Ipv4Addr(127, 0, 0, 2)),
    ];
    let update = UpdateMessage::new(
        attributes.clone(),
        vec![network("10.0.0.0/8"), network("172.16.0.0/12"), network("10.0.0.0/8")],
        vec![],
    );
    let mut adj_rib_in = AdjRibIn::new();
    adj_rib_in.install_from_update(update.clone(), &config);
    let mut expected = Rib::new();
    expected.insert(RibEntry {
        network_address: network("172.16.0.0/12"),
        path_attributes: attributes.clone(),
    });
    expected.insert(RibEntry {
        network_address: network("10.0.0.0/8"),
        path_attributes: attributes.clone(),
    });
    assert_eq!(adj_rib_in, AdjRibIn(expected));
    adj_rib_in.update_to_all_unchanged();
    adj_rib_in.install_from_update(update, &config);
    assert!(!adj_rib_in.does_contain_new_route());
}

#[test]
fn update_messages_group_routes_by_their_attributes() {
    let local_ip = Ipv4Addr(10, 200, 100, 3);
    let local_as: AutonomousSystemNumber = 64513.into();
    let mut adj_rib_out = AdjRibOut::new();
    adj_rib_out.insert(route("10.1.0.0/16", vec![1], Ipv4Addr(1, 1, 1, 1)));
    adj_rib_out.insert(route("10.2.0.0/16", vec![2, 1], Ipv4Addr(1, 1, 1, 1)));
    adj_rib_out.insert(route("10.3.0.0/16", vec![1], Ipv4Addr(1, 1, 1, 1)));
    adj_rib_out.insert(route("10.4.0.0/16", vec![1, 2], Ipv4Addr(1, 1, 1, 1)));
    let mut sent = adj_rib_out.create_update_messages(local_ip, local_as);
    assert_eq!(sent.len(), 3);
    for message in sent.iter_mut() {
        message.network_layer_reachability_information.sort();
        assert_eq!(message.withdrawn_routes, vec![]);
    }
    let expected = |path: Vec<u16>, networks: Vec<&str>| {
        let handed_on = route("0.0.0.0/0", path, local_ip).path_attributes;
        UpdateMessage::new(handed_on, networks.into_iter().map(network).collect(), vec![])
    };
    assert!(sent.contains(&expected(vec![1, 64513], vec!["10.1.0.0/16", "10.3.0.0/16"])));
    assert!(sent.contains(&expected(vec![2, 1, 64513], vec!["10.2.0.0/16"])));
    assert!(sent.contains(&expected(vec![1, 2, 64513], vec!["10.4.0.0/16"])));
    assert_eq!(AdjRibOut::new().create_update_messages(local_ip, local_as), vec![]);
}
