use crate::packets::keepalive::KeepaliveMessage;
use crate::packets::message::Message;
use crate::packets::open::OpenMessage;
use crate::packets::update::UpdateMessage;
use vstd::prelude::*;

verus! {

/// What can happen to the session with one peer.
#[derive(PartialEq, Eq, Debug, Hash)]
pub enum Event {
    ManualStart,
    /// The TCP connection stands, whichever side opened it.
    TcpConnectionConfirmed,
    BgpOpen(OpenMessage),
    KeepAliveMsg(KeepaliveMessage),
    UpdateMsg(UpdateMessage),
    /// The session has reached the state Established.
    Established,
    LocRibChanged,
    AdjRibOutChanged,
    AdjRibInChanged,
}

impl Event {
    /// The event that the arrival of `message` is.
    pub open spec fn spec_of_message(message: Message) -> Event {
        match message {
            Message::Open(open) => Event::BgpOpen(open),
            Message::Keepalive(keepalive) => Event::KeepAliveMsg(keepalive),
            Message::Update(update) => Event::UpdateMsg(update),
        }
    }

    /// The event that the arrival of `message` is.
    pub fn of_message(message: Message) -> (r: Event)
        ensures
            r == Event::spec_of_message(message),
    {
        match message {
            Message::Open(open) => Event::BgpOpen(open),
            Message::Keepalive(keepalive) => Event::KeepAliveMsg(keepalive),
            Message::Update(update) => Event::UpdateMsg(update),
        }
    }
}

impl Clone for Event {
    fn clone(&self) -> (r: Self)
        ensures
            match (*self, r) {
                (Event::BgpOpen(a), Event::BgpOpen(b)) => a@ == b@,
                (Event::UpdateMsg(a), Event::UpdateMsg(b)) => a@ == b@,
                (a, b) => a == b,
            },
    {
        match self {
            Event::ManualStart => Event::ManualStart,
            Event::TcpConnectionConfirmed => Event::TcpConnectionConfirmed,
            Event::BgpOpen(open) => Event::BgpOpen(open.clone()),
            Event::KeepAliveMsg(keepalive) => Event::KeepAliveMsg(*keepalive),
            Event::UpdateMsg(update) => Event::UpdateMsg(update.clone()),
            Event::Established => Event::Established,
            Event::LocRibChanged => Event::LocRibChanged,
            Event::AdjRibOutChanged => Event::AdjRibOutChanged,
            Event::AdjRibInChanged => Event::AdjRibInChanged,
        }
    }
}

} // verus!
