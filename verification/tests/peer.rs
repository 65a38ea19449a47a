use bytes::BytesMut;
use mrbgpdv2::config::Config;
use mrbgpdv2::connection::get_message;
use mrbgpdv2::error::CreateConnectionError;
use mrbgpdv2::event::Event;
use mrbgpdv2::ipv4::Ipv4Addr;
use mrbgpdv2::ipv4::Ipv4Network;
use mrbgpdv2::packets::keepalive::KeepaliveMessage;
use mrbgpdv2::packets::message::Message;
use mrbgpdv2::packets::open::OpenMessage;
use mrbgpdv2::packets::update::UpdateMessage;
use mrbgpdv2::path_attribute::AsPath;
use mrbgpdv2::path_attribute::Origin;
use mrbgpdv2::path_attribute::PathAttribute;
use mrbgpdv2::peer::Action;
use mrbgpdv2::peer::Peer;
use mrbgpdv2::routing::KernelRoute;
use mrbgpdv2::routing::LocRib;
use mrbgpdv2::routing::RibEntry;
use mrbgpdv2::state::State;

/// One end of a session that runs in memory: the peer, the speaker's own
/// routes, what has come in and not been read, and what was asked of the
/// driver.
struct Speaker {
    peer: Peer,
    loc_rib: LocRib,
    connected: bool,
    inbox: BytesMut,
    sent: Vec<Message>,
    installed: Vec<KernelRoute>,
}

impl Speaker {
    fn new(config: &str, kernel_table: Vec<Ipv4Network>) -> Speaker {
        let config: Config = config.parse().unwrap();
        let loc_rib = LocRib::new(&config, &kernel_table);
        let mut peer = Peer::new(config);
        peer.start();
        Speaker {
            peer,
            loc_rib,
            connected: false,
            inbox: BytesMut::new(),
            sent: vec![],
            installed: vec![],
        }
    }

    /// One tick; what the peer sends goes into `remote`.
    fn next(&mut self, remote: &mut BytesMut) {
        let received = if self.connected { get_message(&mut self.inbox) } else { None };
        for action in self.peer.next(received, &mut self.loc_rib) {
            match action {
                Action::Connect => {
                    self.peer.connection_result(true).unwrap();
                    self.connected = true;
                }
                Action::Send(message) => {
                    remote.extend_from_slice(&message.to_bytes());
                    self.sent.push(message);
                }
                Action::InstallRoutes(routes) => self.installed.extend(routes),
            }
        }
    }
}

fn pair() -> (Speaker, Speaker) {
    (
        Speaker::new("64512 127.0.0.1 64513 127.0.0.2 active", vec![]),
        Speaker::new("64513 127.0.0.2 64512 127.0.0.1 passive", vec![]),
    )
}

fn step_both(local: &mut Speaker, remote: &mut Speaker) {
    let mut to_remote = BytesMut::new();
    let mut to_local = BytesMut::new();
    remote.next(&mut to_local);
    local.next(&mut to_remote);
    local.inbox.extend_from_slice(&to_local);
    remote.inbox.extend_from_slice(&to_remote);
}

fn converge(local: &mut Speaker, remote: &mut Speaker, state: State) {
    let max_step = 50;
    for _ in 0..max_step {
        step_both(local, remote);
        if local.peer.state() == state && remote.peer.state() == state {
            break;
        }
    }
}

#[test]
fn peer_can_transition_to_connect_state() {
    let (mut peer, mut remote_peer) = pair();
    let mut wire = BytesMut::new();
    remote_peer.next(&mut wire);
    peer.next(&mut wire);
    assert_eq!(peer.peer.state(), State::Connect);
}

#[test]
fn peer_can_transition_to_open_sent_state() {
    let (mut peer, mut remote_peer) = pair();
    step_both(&mut peer, &mut remote_peer);
    step_both(&mut peer, &mut remote_peer);
    assert_eq!(peer.peer.state(), State::OpenSent);
    assert_eq!(remote_peer.peer.state(), State::OpenSent);
}

#[test]
fn peer_can_transition_to_open_confirm_state() {
    let (mut peer, mut remote_peer) = pair();
    converge(&mut peer, &mut remote_peer, State::OpenConfirm);
    assert_eq!(peer.peer.state(), State::OpenConfirm);
    assert_eq!(remote_peer.peer.state(), State::OpenConfirm);
}

#[test]
fn peer_can_transition_to_established_state() {
    let (mut peer, mut remote_peer) = pair();
    converge(&mut peer, &mut remote_peer, State::Established);
    assert_eq!(peer.peer.state(), State::Established);
    assert_eq!(remote_peer.peer.state(), State::Established);
}

#[test]
fn peer_can_transition_to_connect_start() {
    let config: Config = "64512 127.0.0.1 64513 127.0.0.2 active".parse().unwrap();
    let mut loc_rib = LocRib::new(&config, &vec![]);
    let mut bgp_peer = Peer::new(config);
    bgp_peer.start();
    let actions = bgp_peer.next(None, &mut loc_rib);
    assert_eq!(actions, vec![Action::Connect]);
    assert_eq!(bgp_peer.state(), State::Connect);
}

#[test]
fn peer_can_transition_to_open_sent_start() {
    let (mut local_bgp_peer, mut remote_bgp_peer) = pair();
    let mut wire = BytesMut::new();
    remote_bgp_peer.next(&mut wire);
    remote_bgp_peer.next(&mut wire);
    assert_eq!(remote_bgp_peer.peer.state(), State::OpenSent);

    local_bgp_peer.next(&mut wire);
    local_bgp_peer.next(&mut wire);

    assert_eq!(local_bgp_peer.peer.state(), State::OpenSent);
}

#[test]
fn peer_can_transition_to_connect() {
    let mut bgp_peer = Speaker::new("64512 127.0.0.1 64513 127.0.0.2 active", vec![]);
    let mut wire = BytesMut::new();
    bgp_peer.next(&mut wire);
    assert_eq!(bgp_peer.peer.state(), State::Connect);
    assert!(wire.is_empty());
}

#[test]
fn peer_can_transition_to_open_sent() {
    let (mut local_bgp_peer, mut remote_bgp_peer) = pair();
    let mut to_local = BytesMut::new();
    remote_bgp_peer.next(&mut to_local);
    remote_bgp_peer.next(&mut to_local);
    assert_eq!(remote_bgp_peer.peer.state(), State::OpenSent);
    assert_eq!(
        Message::from_bytes(&to_local),
        Ok(Message::new_open(64513.into(), Ipv4Addr(127, 0, 0, 2)))
    );

    let mut to_remote = BytesMut::new();
    local_bgp_peer.next(&mut to_remote);
    local_bgp_peer.next(&mut to_remote);

    assert_eq!(local_bgp_peer.peer.state(), State::OpenSent);
    assert_eq!(
        local_bgp_peer.sent,
        vec![Message::new_open(64512.into(), Ipv4Addr(127, 0, 0, 1))]
    );
}

#[test]
fn peer_can_transition_to_open_confirm() {
    let (mut local_bgp_peer, mut remote_bgp_peer) = pair();
    let max_steps = 50;
    for _ in 0..max_steps {
        step_both(&mut local_bgp_peer, &mut remote_bgp_peer);
        if local_bgp_peer.peer.state() == State::OpenConfirm {
            break;
        };
    }
    assert_eq!(remote_bgp_peer.peer.state(), State::OpenConfirm);
    assert_eq!(local_bgp_peer.peer.state(), State::OpenConfirm);
    assert_eq!(local_bgp_peer.sent.last(), Some(&Message::new_keepalive()));
}

#[test]
fn peer_can_transition_to_established() {
    let (mut local_bgp_peer, mut remote_bgp_peer) = pair();
    let max_steps = 50;
    for _ in 0..max_steps {
        step_both(&mut local_bgp_peer, &mut remote_bgp_peer);
        if local_bgp_peer.peer.state() == State::Established {
            break;
        };
    }
    assert_eq!(remote_bgp_peer.peer.state(), State::Established);
    assert_eq!(local_bgp_peer.peer.state(), State::Established);
}

#[test]
fn session_takes_four_ticks_to_establish() {
    let (mut local, mut remote) = pair();
    let expected =
        [State::Connect, State::OpenSent, State::OpenConfirm, State::Established, State::Established];
    for state in expected {
        step_both(&mut local, &mut remote);
        assert_eq!(local.peer.state(), state);
        assert_eq!(remote.peer.state(), state);
    }
}

#[test]
fn update_is_sent_once_on_transition_to_established() {
    let mut local = Speaker::new(
        "64513 10.200.100.3 64512 10.200.100.2 passive 10.100.220.0/24",
        vec!["10.100.220.0/24".parse().unwrap()],
    );
    let mut remote = Speaker::new("64512 10.200.100.2 64513 10.200.100.3 active", vec![]);
    for _ in 0..50 {
        step_both(&mut local, &mut remote);
    }
    assert_eq!(local.peer.state(), State::Established);
    let expected = UpdateMessage::new(
        vec![
            PathAttribute::Origin(Origin::Igp),
            PathAttribute::AsPath(AsPath::AsSequence(vec![64513.into()])),
            PathAttribute::NextHop(Ipv4Addr(10, 200, 100, 3)),
        ],
        vec!["10.100.220.0/24".parse().unwrap()],
        vec![],
    );
    assert_eq!(
        local.sent,
        vec![
            Message::new_open(64513.into(), Ipv4Addr(10, 200, 100, 3)),
            Message::new_keepalive(),
            Message::Update(expected.clone()),
        ]
    );
    assert_eq!(remote.sent.len(), 2);
    let learned = RibEntry {
        network_address: "10.100.220.0/24".parse().unwrap(),
        path_attributes: expected.path_attributes.clone(),
    };
    assert_eq!(remote.peer.adj_rib_in().0.routes(), vec![learned.clone()]);
    assert_eq!(remote.loc_rib.routes(), vec![learned]);
    assert_eq!(
        remote.installed,
        vec![KernelRoute {
            destination: "10.100.220.0/24".parse().unwrap(),
            gateway: Ipv4Addr(10, 200, 100, 3)
        }]
    );
    assert_eq!(remote.peer.adj_rib_out().0.routes(), vec![]);
    assert_eq!(local.peer.pending_events(), 0);
    assert_eq!(remote.peer.pending_events(), 0);
}

#[test]
fn update_through_the_local_as_is_not_taken_over() {
    let config: Config = "64512 127.0.0.1 64513 127.0.0.2 active".parse().unwrap();
    let mut loc_rib = LocRib::new(&config, &vec![]);
    let before = loc_rib.rib().clone();
    let mut peer = Peer::new(config);
    let to_established = [
        Event::ManualStart,
        Event::TcpConnectionConfirmed,
        Event::BgpOpen(OpenMessage::new(64513.into(), Ipv4Addr(127, 0, 0, 2))),
        Event::KeepAliveMsg(KeepaliveMessage::new()),
    ];
    for event in to_established {
        peer.handle_event(event, &mut loc_rib);
    }
    assert_eq!(peer.state(), State::Established);
    assert_eq!(peer.pending_events(), 1);
    let update = UpdateMessage::new(
        vec![
            PathAttribute::Origin(Origin::Igp),
            PathAttribute::AsPath(AsPath::AsSequence(vec![64513.into(), 64512.into()])),
            PathAttribute::NextHop(Ipv4Addr(127, 0, 0, 2)),
        ],
        vec!["10.100.220.0/24".parse().unwrap()],
        vec![],
    );
    let mut asked = peer.next(Some(Message::Update(update)), &mut loc_rib);
    for _ in 0..10 {
        asked.extend(peer.next(None, &mut loc_rib));
    }
    assert_eq!(asked, vec![]);
    assert_eq!(loc_rib.rib(), &before);
    assert_eq!(peer.adj_rib_in().0.routes().len(), 1);
    assert!(!peer.adj_rib_in().does_contain_new_route());
    assert_eq!(peer.pending_events(), 0);
}

#[test]
fn events_that_the_table_does_not_list_change_nothing() {
    let config: Config = "64512 127.0.0.1 64513 127.0.0.2 active".parse().unwrap();
    let mut loc_rib = LocRib::new(&config, &vec![]);
    let mut peer = Peer::new(config.clone());
    assert_eq!(peer.config(), &config);
    let unlisted = [
        Event::TcpConnectionConfirmed,
        Event::BgpOpen(OpenMessage::new(64513.into(), Ipv4Addr(127, 0, 0, 2))),
        Event::KeepAliveMsg(KeepaliveMessage::new()),
        Event::Established,
        Event::LocRibChanged,
        Event::AdjRibOutChanged,
        Event::AdjRibInChanged,
    ];
    for event in unlisted {
        assert_eq!(peer.handle_event(event, &mut loc_rib), vec![]);
        assert_eq!(peer.state(), State::Idle);
        assert_eq!(peer.pending_events(), 0);
    }
    assert_eq!(peer.handle_event(Event::ManualStart, &mut loc_rib), vec![Action::Connect]);
    assert_eq!(peer.handle_event(Event::ManualStart, &mut loc_rib), vec![]);
    assert_eq!(peer.state(), State::Connect);
}

#[test]
fn a_failed_connection_is_handed_back() {
    let config: Config = "64512 127.0.0.1 64513 127.0.0.2 active".parse().unwrap();
    let mut peer = Peer::new(config);
    assert_eq!(peer.connection_result(false), Err(CreateConnectionError));
    assert_eq!(peer.pending_events(), 0);
    assert_eq!(peer.connection_result(true), Ok(()));
    assert_eq!(peer.pending_events(), 1);
}

#[test]
fn a_message_is_handled_before_the_events_that_wait() {
    let config: Config = "64512 127.0.0.1 64513 127.0.0.2 active".parse().unwrap();
    let mut loc_rib = LocRib::new(&config, &vec![]);
    let mut peer = Peer::new(config);
    peer.start();
    peer.handle_message(Message::new_keepalive());
    assert_eq!(peer.pending_events(), 2);
    assert_eq!(peer.next(Some(Message::new_keepalive()), &mut loc_rib), vec![Action::Connect]);
    assert_eq!(peer.pending_events(), 2);
    assert_eq!(peer.state(), State::Connect);
}
