use crate::bgp_type::AutonomousSystemNumber;
use crate::config::Config;
use crate::error::CreateConnectionError;
use crate::event::Event;
use crate::event_queue::EventQueue;
use crate::ipv4::Ipv4Addr;
use crate::packets::keepalive::KeepaliveMessage;
use crate::packets::message::Message;
use crate::packets::message::MessageView;
use crate::packets::update::UpdateMessage;
use crate::packets::update::UpdateMessageView;
use crate::routing::spec_all_unchanged;
use crate::routing::spec_announces;
use crate::routing::spec_has_new;
use crate::routing::spec_is_grouping;
use crate::routing::spec_kernel_routes;
use crate::routing::spec_loop_free_routes;
use crate::routing::spec_merge;
use crate::routing::spec_rewrite_attributes;
use crate::routing::spec_routes_to;
use crate::routing::spec_update_views;
use crate::routing::AdjRibIn;
use crate::routing::AdjRibOut;
use crate::routing::KernelRoute;
use crate::routing::LocRib;
use crate::routing::RibEntryStatus;
use crate::routing::RibEntryView;
use crate::routing::RouteGroup;
use crate::state::State;
use vstd::prelude::*;

verus! {

/// What the state machine asks of the one who drives it. The state machine
/// decides; it neither opens connections nor sends nor touches the kernel.
#[derive(Debug, PartialEq)]
pub enum Action {
    /// Open the TCP connection to the peer as the configuration says, and
    /// report how that went with `Peer::connection_result`.
    Connect,
    /// Send the message to the peer.
    Send(Message),
    /// Hand the routes to the kernel's routing table.
    InstallRoutes(Vec<KernelRoute>),
}

/// What an `Action` holds. Of the routes for the kernel only which they are
/// matters, not their order.
pub enum ActionView {
    Connect,
    Send(MessageView),
    InstallRoutes(Set<KernelRoute>),
}

impl View for Action {
    type V = ActionView;

    open spec fn view(&self) -> ActionView {
        match self {
            Action::Connect => ActionView::Connect,
            Action::Send(message) => ActionView::Send(message@),
            Action::InstallRoutes(routes) => ActionView::InstallRoutes(routes@.to_set()),
        }
    }
}

/// What each of the actions holds, in order.
pub open spec fn spec_action_views(actions: Seq<Action>) -> Seq<ActionView> {
    Seq::new(actions.len(), |i: int| actions[i]@)
}

/// The state machine of the session with one peer.
#[derive(Debug)]
pub struct Peer {
    state: State,
    event_queue: EventQueue,
    config: Config,
    adj_rib_out: AdjRibOut,
    adj_rib_in: AdjRibIn,
}

/// What a `Peer` holds, but for its configuration: the state, the events
/// that wait (the next one first), and the routes of its two tables.
pub struct PeerView {
    pub state: State,
    pub events: Seq<Event>,
    pub adj_rib_out: Map<RibEntryView, RibEntryStatus>,
    pub adj_rib_in: Map<RibEntryView, RibEntryStatus>,
}

/// The state after `event` has been handled in `state`.
pub open spec fn spec_next_state(state: State, event: Event) -> State {
    match (state, event) {
        (State::Idle, Event::ManualStart) => State::Connect,
        (State::Connect, Event::TcpConnectionConfirmed) => State::OpenSent,
        (State::OpenSent, Event::BgpOpen(_)) => State::OpenConfirm,
        (State::OpenConfirm, Event::KeepAliveMsg(_)) => State::Established,
        (state, _) => state,
    }
}

/// Whether `actions` send one Update message for each of `groups`, in order,
/// as `spec_announces` describes the messages.
pub open spec fn spec_sends(
    actions: Seq<ActionView>,
    groups: Seq<RouteGroup>,
    local_ip: Ipv4Addr,
    local_as: AutonomousSystemNumber,
) -> bool {
    &&& actions.len() == groups.len()
    &&& forall|g: int|
        0 <= g < groups.len() ==> (#[trigger] actions[g]) == ActionView::Send(
            MessageView::Update(
                UpdateMessageView::spec_new(
                    spec_rewrite_attributes(groups[g].path_attributes, local_ip, local_as),
                    groups[g].networks,
                    Seq::empty(),
                ),
            ),
        )
}

/// A table after routes have come into it: where one of them is marked new,
/// all are marked unchanged again.
pub open spec fn spec_settled(table: Map<RibEntryView, RibEntryStatus>) -> Map<
    RibEntryView,
    RibEntryStatus,
> {
    if spec_has_new(table) {
        spec_all_unchanged(table)
    } else {
        table
    }
}

/// The events that wait after `told` has been added where a route of `table`
/// is marked new.
pub open spec fn spec_told(
    events: Seq<Event>,
    table: Map<RibEntryView, RibEntryStatus>,
    told: Event,
) -> Seq<Event> {
    if spec_has_new(table) {
        events.push(told)
    } else {
        events
    }
}

/// The transition table. Whether a peer that is as `pre` says, with the
/// given configuration, beside a table of the speaker's own routes that is
/// as `loc_pre` says and belongs to the AS `loc_as`, handles `event` by
/// becoming as `post` says, leaving the speaker's own routes as `loc_post`
/// says, and asking for `actions`.
pub open spec fn spec_handles(
    pre: PeerView,
    config: Config,
    loc_pre: Map<RibEntryView, RibEntryStatus>,
    loc_as: AutonomousSystemNumber,
    event: Event,
    post: PeerView,
    loc_post: Map<RibEntryView, RibEntryStatus>,
    actions: Seq<ActionView>,
) -> bool {
    &&& post.state == spec_next_state(pre.state, event)
    &&& match (pre.state, event) {
        (State::Idle, Event::ManualStart) => {
            &&& post.events == pre.events
            &&& post.adj_rib_out == pre.adj_rib_out
            &&& post.adj_rib_in == pre.adj_rib_in
            &&& loc_post == loc_pre
            &&& actions == seq![ActionView::Connect]
        },
        (State::Connect, Event::TcpConnectionConfirmed) => {
            &&& post.events == pre.events
            &&& post.adj_rib_out == pre.adj_rib_out
            &&& post.adj_rib_in == pre.adj_rib_in
            &&& loc_post == loc_pre
            &&& actions.len() == 1
            &&& actions[0] matches ActionView::Send(MessageView::Open(open))
            &&& open.spec_is_new(config.local_as, config.local_ip)
        },
        (State::OpenSent, Event::BgpOpen(_)) => {
            &&& post.events == pre.events
            &&& post.adj_rib_out == pre.adj_rib_out
            &&& post.adj_rib_in == pre.adj_rib_in
            &&& loc_post == loc_pre
            &&& actions == seq![
                ActionView::Send(MessageView::Keepalive(KeepaliveMessage::spec_new())),
            ]
        },
        (State::OpenConfirm, Event::KeepAliveMsg(_)) => {
            &&& post.events == pre.events.push(Event::Established)
            &&& post.adj_rib_out == pre.adj_rib_out
            &&& post.adj_rib_in == pre.adj_rib_in
            &&& loc_post == loc_pre
            &&& actions.len() == 0
        },
        (State::Established, Event::Established) | (State::Established, Event::LocRibChanged) => {
            let installed = spec_merge(
                pre.adj_rib_out,
                spec_loop_free_routes(loc_pre, config.remote_as),
            );
            &&& post.events == spec_told(pre.events, installed, Event::AdjRibOutChanged)
            &&& post.adj_rib_out == spec_settled(installed)
            &&& post.adj_rib_in == pre.adj_rib_in
            &&& loc_post == loc_pre
            &&& actions.len() == 0
        },
        (State::Established, Event::AdjRibOutChanged) => {
            &&& post.events == pre.events
            &&& post.adj_rib_out == pre.adj_rib_out
            &&& post.adj_rib_in == pre.adj_rib_in
            &&& loc_post == loc_pre
            &&& exists|groups: Seq<RouteGroup>|
                spec_is_grouping(pre.adj_rib_out.dom(), groups) && #[trigger] spec_sends(
                    actions,
                    groups,
                    config.local_ip,
                    config.local_as,
                )
        },
        (State::Established, Event::UpdateMsg(update)) => {
            let installed = spec_merge(
                pre.adj_rib_in,
                spec_routes_to(
                    update@.network_layer_reachability_information,
                    update@.path_attributes,
                ),
            );
            &&& post.events == spec_told(pre.events, installed, Event::AdjRibInChanged)
            &&& post.adj_rib_out == pre.adj_rib_out
            &&& post.adj_rib_in == spec_settled(installed)
            &&& loc_post == loc_pre
            &&& actions.len() == 0
        },
        (State::Established, Event::AdjRibInChanged) => {
            let installed = spec_merge(loc_pre, spec_loop_free_routes(pre.adj_rib_in, loc_as));
            &&& post.events == spec_told(pre.events, installed, Event::LocRibChanged)
            &&& post.adj_rib_out == pre.adj_rib_out
            &&& post.adj_rib_in == pre.adj_rib_in
            &&& loc_post == spec_settled(installed)
            &&& if spec_has_new(installed) {
                actions == seq![ActionView::InstallRoutes(spec_kernel_routes(installed))]
            } else {
                actions.len() == 0
            }
        },
        _ => {
            &&& post.events == pre.events
            &&& post.adj_rib_out == pre.adj_rib_out
            &&& post.adj_rib_in == pre.adj_rib_in
            &&& loc_post == loc_pre
            &&& actions.len() == 0
        },
    }
}

impl View for Peer {
    type V = PeerView;

    closed spec fn view(&self) -> PeerView {
        PeerView {
            state: self.state,
            events: self.event_queue@,
            adj_rib_out: self.adj_rib_out.0@,
            adj_rib_in: self.adj_rib_in.0@,
        }
    }
}

impl Peer {
    /// The configuration of the peer.
    pub closed spec fn spec_config(&self) -> Config {
        self.config
    }

    /// A peer in the state Idle, with no event waiting and no routes.
    pub fn new(config: Config) -> (r: Self)
        ensures
            r.spec_config() == config,
            r@ == (PeerView {
                state: State::Idle,
                events: Seq::empty(),
                adj_rib_out: Map::empty(),
                adj_rib_in: Map::empty(),
            }),
    {
        Peer {
            state: State::Idle,
            event_queue: EventQueue::new(),
            config,
            adj_rib_out: AdjRibOut::new(),
            adj_rib_in: AdjRibIn::new(),
        }
    }

    /// The state of the session.
    pub fn state(&self) -> (r: State)
        ensures
            r == self@.state,
    {
        self.state
    }

    /// The configuration of the peer.
    pub fn config(&self) -> (r: &Config)
        ensures
            *r == self.spec_config(),
    {
        &self.config
    }

    /// The routes that have been chosen for the peer.
    pub fn adj_rib_out(&self) -> (r: &AdjRibOut)
        ensures
            r.0@ == self@.adj_rib_out,
    {
        &self.adj_rib_out
    }

    /// The routes that the peer has announced.
    pub fn adj_rib_in(&self) -> (r: &AdjRibIn)
        ensures
            r.0@ == self@.adj_rib_in,
    {
        &self.adj_rib_in
    }

    /// How many events wait to be handled.
    pub fn pending_events(&self) -> (r: usize)
        ensures
            r == self@.events.len(),
    {
        self.event_queue.len()
    }

    /// Asks the session to start: the event ManualStart waits from now on.
    pub fn start(&mut self)
        ensures
            final(self).spec_config() == old(self).spec_config(),
            final(self)@ == (PeerView {
                events: old(self)@.events.push(Event::ManualStart),
                ..old(self)@
            }),
    {
        self.event_queue.enqueue(Event::ManualStart);
    }

    /// Takes note of how opening the TCP connection went. Where it stands,
    /// the event TcpConnectionConfirmed waits from now on. Where it does
    /// not, nothing changes and the failure is handed back: the session
    /// cannot go on.
    pub fn connection_result(&mut self, established: bool) -> (r: Result<
        (),
        CreateConnectionError,
    >)
        ensures
            final(self).spec_config() == old(self).spec_config(),
            established ==> r.is_ok() && final(self)@ == (PeerView {
                events: old(self)@.events.push(Event::TcpConnectionConfirmed),
                ..old(self)@
            }),
            !established ==> r == Err::<(), CreateConnectionError>(CreateConnectionError)
                && final(self)@ == old(self)@,
    {
        if established {
            self.event_queue.enqueue(Event::TcpConnectionConfirmed);
            Ok(())
        } else {
            Err(CreateConnectionError)
        }
    }

    /// Takes note of a message that has come in: the event that its arrival
    /// is waits from now on.
    pub fn handle_message(&mut self, message: Message)
        ensures
            final(self).spec_config() == old(self).spec_config(),
            final(self)@ == (PeerView {
                events: old(self)@.events.push(Event::spec_of_message(message)),
                ..old(self)@
            }),
    {
        self.event_queue.enqueue(Event::of_message(message));
    }

    /// Handles one event as the transition table says.
    pub fn handle_event(&mut self, event: Event, loc_rib: &mut LocRib) -> (actions: Vec<Action>)
        ensures
            final(self).spec_config() == old(self).spec_config(),
            final(loc_rib).spec_local_as() == old(loc_rib).spec_local_as(),
            spec_handles(
                old(self)@,
                old(self).spec_config(),
                old(loc_rib)@,
                old(loc_rib).spec_local_as(),
                event,
                final(self)@,
                final(loc_rib)@,
                spec_action_views(actions@),
            ),
    {
        let mut actions: Vec<Action> = Vec::new();
        match self.state {
            State::Idle => match event {
                Event::ManualStart => {
                    actions.push(Action::Connect);
                    self.state = State::Connect;
                    assert(spec_action_views(actions@) =~= seq![ActionView::Connect]);
                },
                _ => {},
            },
            State::Connect => match event {
                Event::TcpConnectionConfirmed => {
                    actions.push(
                        Action::Send(Message::new_open(self.config.local_as, self.config.local_ip)),
                    );
                    self.state = State::OpenSent;
                },
                _ => {},
            },
            State::OpenSent => match event {
                Event::BgpOpen(_) => {
                    actions.push(Action::Send(Message::new_keepalive()));
                    self.state = State::OpenConfirm;
                    assert(spec_action_views(actions@) =~= seq![
                        ActionView::Send(MessageView::Keepalive(KeepaliveMessage::spec_new())),
                    ]);
                },
                _ => {},
            },
            State::OpenConfirm => match event {
                Event::KeepAliveMsg(_) => {
                    self.state = State::Established;
                    self.event_queue.enqueue(Event::Established);
                },
                _ => {},
            },
            State::Established => match event {
                Event::Established | Event::LocRibChanged => {
                    self.adj_rib_out.install_from_loc_rib(loc_rib, &self.config);
                    if self.adj_rib_out.does_contain_new_route() {
                        self.event_queue.enqueue(Event::AdjRibOutChanged);
                        self.adj_rib_out.update_to_all_unchanged();
                    }
                },
                Event::AdjRibOutChanged => {
                    let updates = self.adj_rib_out.create_update_messages(
                        self.config.local_ip,
                        self.config.local_as,
                    );
                    let ghost sent = spec_update_views(updates@);
                    actions = send_all(updates);
                    proof {
                        let groups = choose|groups: Seq<RouteGroup>|
                            spec_is_grouping(self.adj_rib_out.0@.dom(), groups)
                                && #[trigger] spec_announces(
                                sent,
                                groups,
                                self.config.local_ip,
                                self.config.local_as,
                            );
                        let asked = spec_action_views(actions@);
                        assert(asked.len() == groups.len());
                        assert forall|g: int| 0 <= g < groups.len() implies (#[trigger] asked[g])
                            == ActionView::Send(
                            MessageView::Update(
                                UpdateMessageView::spec_new(
                                    spec_rewrite_attributes(
                                        groups[g].path_attributes,
                                        self.config.local_ip,
                                        self.config.local_as,
                                    ),
                                    groups[g].networks,
                                    Seq::empty(),
                                ),
                            ),
                        ) by {
                            assert(asked[g] == actions@[g]@);
                            assert(sent[g] == updates@[g]@);
                        }
                        assert(spec_sends(
                            asked,
                            groups,
                            self.config.local_ip,
                            self.config.local_as,
                        ));
                    }
                },
                Event::UpdateMsg(update) => {
                    self.adj_rib_in.install_from_update(update, &self.config);
                    if self.adj_rib_in.does_contain_new_route() {
                        self.event_queue.enqueue(Event::AdjRibInChanged);
                        self.adj_rib_in.update_to_all_unchanged();
                    }
                },
                Event::AdjRibInChanged => {
                    loc_rib.install_from_adj_rib_in(&self.adj_rib_in);
                    if loc_rib.does_contain_new_route() {
                        actions.push(Action::InstallRoutes(loc_rib.kernel_routes()));
                        self.event_queue.enqueue(Event::LocRibChanged);
                        assert(spec_action_views(actions@) =~= seq![
                            ActionView::InstallRoutes(spec_kernel_routes(loc_rib@)),
                        ]);
                        loc_rib.update_to_all_unchanged();
                    }
                },
                _ => {},
            },
        }
        actions
    }

    /// One tick of the peer. First, where a message has come in, the event
    /// that its arrival is joins the events that wait. Then, where an event
    /// waits, the one that has waited longest is handled as the transition
    /// table says.
    pub fn next(&mut self, received: Option<Message>, loc_rib: &mut LocRib) -> (actions: Vec<
        Action,
    >)
        ensures
            final(self).spec_config() == old(self).spec_config(),
            final(loc_rib).spec_local_as() == old(loc_rib).spec_local_as(),
            ({
                let waiting = match received {
                    Some(message) => old(self)@.events.push(Event::spec_of_message(message)),
                    None => old(self)@.events,
                };
                if waiting.len() == 0 {
                    &&& final(self)@ == old(self)@
                    &&& final(loc_rib)@ == old(loc_rib)@
                    &&& actions@.len() == 0
                } else {
                    spec_handles(
                        PeerView { events: waiting.drop_first(), ..old(self)@ },
                        old(self).spec_config(),
                        old(loc_rib)@,
                        old(loc_rib).spec_local_as(),
                        waiting[0],
                        final(self)@,
                        final(loc_rib)@,
                        spec_action_views(actions@),
                    )
                }
            }),
    {
        match received {
            Some(message) => {
                self.handle_message(message);
            },
            None => {},
        }
        match self.event_queue.dequeue() {
            Some(event) => self.handle_event(event, loc_rib),
            None => Vec::new(),
        }
    }
}

fn send_all(updates: Vec<UpdateMessage>) -> (actions: Vec<Action>)
    ensures
        actions@.len() == updates@.len(),
        forall|i: int|
            0 <= i < updates@.len() ==> (#[trigger] actions@[i])@ == ActionView::Send(
                MessageView::Update(updates@[i]@),
            ),
{
    let mut updates = updates;
    let ghost all = updates@;
    let mut backwards: Vec<Action> = Vec::new();
    let mut k: usize = updates.len();
    while k > 0
        invariant
            k == updates@.len(),
            k <= all.len(),
            updates@ == all.take(k as int),
            backwards@.len() == all.len() - k,
            forall|x: int|
                0 <= x < backwards@.len() ==> (#[trigger] backwards@[x])@ == ActionView::Send(
                    MessageView::Update(all[all.len() - 1 - x]@),
                ),
        decreases k,
    {
        let update = updates.pop().unwrap();
        assert(update == all[k - 1]);
        assert(updates@ =~= all.take(k - 1));
        backwards.push(Action::Send(Message::Update(update)));
        k = k - 1;
    }
    let ghost made = backwards@;
    let mut actions: Vec<Action> = Vec::new();
    let mut k: usize = backwards.len();
    while k > 0
        invariant
            k == backwards@.len(),
            k <= made.len(),
            made.len() == all.len(),
            backwards@ == made.take(k as int),
            actions@.len() == made.len() - k,
            forall|x: int| 0 <= x < actions@.len() ==> (#[trigger] actions@[x]) == made[made.len() - 1 - x],
        decreases k,
    {
        let action = backwards.pop().unwrap();
        assert(action == made[k - 1]);
        assert(backwards@ =~= made.take(k - 1));
        actions.push(action);
        k = k - 1;
    }
    actions
}

} // verus!
