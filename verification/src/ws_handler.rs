//! One connection's way through the relay: the handshake that makes it a
//! member of a room, the relaying of its frames, and its departure.
//!
//! The transport is driven elsewhere. Whatever it reports is handed to
//! [`handle_event`] as an [`Event`]; the [`Action`] that comes back says what
//! to do with the connection next.

use crate::client::{ConnectionId, RoomClient, Tx};
use crate::frame::{CloseView, Frame, FrameView};
use crate::registry_model::RegistryView;
use crate::room::{RoomError, RoomID, RoomRequestView};
use crate::room_context::{Departure, RoomContext};
use crate::wire::{
    close_frame, confirmation, confirmation_frame, decode_request, decoded, user_joined,
    user_joined_frame, user_left, user_left_frame, CLOSE_ERROR, CLOSE_POLICY, CLOSE_PROTOCOL,
};
use vstd::prelude::*;

verus! {

/// What the transport reports of a connection.
#[derive(Debug, PartialEq, Eq)]
pub enum Event {
    /// A frame arrived from the peer.
    Frame(Frame),
    /// Receiving from the peer failed.
    ReceiveFailed,
    /// The peer will send no more frames.
    InboundEnded,
    /// No more frames can be written to the peer.
    OutboundEnded,
}

/// What to do with a connection after an event.
#[derive(Debug, PartialEq, Eq)]
pub enum Action {
    /// Keep relaying in both directions.
    Continue,
    /// Send this close frame, if the transport still takes it, and drop the
    /// connection.
    Close(Frame),
    /// Drop the connection.
    Stop,
}

/// Why a handshake failed.
#[derive(Debug, Clone, Copy, PartialEq, Eq)]
pub enum RoomInitializationError {
    /// The connection ended before its first frame.
    Unknown,
    /// The first frame was text but no request.
    InvalidJsonMessage,
    /// The first frame was not text, or could not be received.
    InvalidMessage,
    /// The registry refused the request.
    ClientInitError(RoomError),
}

/// A connection that has joined a room.
pub struct Member {
    pub id: ConnectionId,
    pub address: String,
    pub room: RoomID,
}

/// Where a connection stands. It starts in `Handshaking`, becomes `Active`
/// with a successful handshake and ends in `Closed`; it never goes back.
pub enum ConnectionState {
    /// Waiting for the first frame.
    Handshaking(RoomClient),
    /// Member of a room; frames are relayed.
    Active(Member),
    /// Done. Nothing is registered for the connection.
    Closed,
}

impl ConnectionState {
    /// How far the connection has come.
    pub open spec fn rank(self) -> nat {
        match self {
            ConnectionState::Handshaking(_) => 0,
            ConnectionState::Active(_) => 1,
            ConnectionState::Closed => 2,
        }
    }
}

/// The request that the first event of a connection carries, or the reason
/// why it carries none.
pub open spec fn first_request(first: Event) -> Result<RoomRequestView, RoomInitializationError> {
    match first {
        Event::Frame(frame) => match frame@ {
            FrameView::Text(text) => match decoded(text) {
                Some(request) => Ok(request),
                None => Err(RoomInitializationError::InvalidJsonMessage),
            },
            _ => Err(RoomInitializationError::InvalidMessage),
        },
        Event::ReceiveFailed => Err(RoomInitializationError::InvalidMessage),
        Event::InboundEnded => Err(RoomInitializationError::Unknown),
        Event::OutboundEnded => Err(RoomInitializationError::Unknown),
    }
}

/// A close frame with `code` and `reason`.
pub open spec fn closing(code: u16, reason: Seq<char>) -> FrameView {
    FrameView::Close(Some(CloseView { code, reason }))
}

/// The close frame that answers a failed handshake.
pub open spec fn rejection(error: RoomInitializationError) -> FrameView {
    match error {
        RoomInitializationError::ClientInitError(RoomError::NotFound) => closing(
            CLOSE_POLICY,
            "Room does not exist"@,
        ),
        RoomInitializationError::ClientInitError(RoomError::AlreadyExists) => closing(
            CLOSE_POLICY,
            "Creating Room Failed"@,
        ),
        RoomInitializationError::ClientInitError(RoomError::NameExhausted) => closing(
            CLOSE_ERROR,
            "Creating Room Failed"@,
        ),
        _ => closing(CLOSE_PROTOCOL, "Invalid Room Request"@),
    }
}

/// The registry after the connection `c` entered `room` with `channel` and
/// was told so.
pub open spec fn welcomed(
    v: RegistryView,
    c: ConnectionId,
    channel: Tx,
    room: Seq<char>,
) -> RegistryView {
    v.enter(c, channel, room).send_to(c, confirmation_frame(room))
}

/// The registry after the connection `c` at `address` entered `room`, was
/// told so, and was announced to the members that were there before.
pub open spec fn joined(
    v: RegistryView,
    c: ConnectionId,
    channel: Tx,
    address: Seq<char>,
    room: Seq<char>,
) -> RegistryView {
    welcomed(v, c, channel, room).broadcast(room, c, user_joined_frame(address))
}

/// The registry after the connection `c` at `address` left: it is
/// deregistered, and the members that remain in its room are told.
pub open spec fn departed(v: RegistryView, c: ConnectionId, address: Seq<char>) -> RegistryView {
    if v.is_registered(c) && !v.is_last_member(c) {
        v.deregister(c).broadcast(v.peers[c], c, user_left_frame(address))
    } else {
        v.deregister(c)
    }
}

/// What became of the room of a connection that left.
pub open spec fn departure_of(v: RegistryView, c: ConnectionId, departure: Departure) -> bool {
    match departure {
        Departure::NotMember => !v.is_registered(c),
        Departure::RoomClosed(room) => {
            &&& v.is_registered(c)
            &&& room@ == v.peers[c]
            &&& v.is_last_member(c)
        },
        Departure::RoomRemains(room) => {
            &&& v.is_registered(c)
            &&& room@ == v.peers[c]
            &&& !v.is_last_member(c)
        },
    }
}

/// The steps that a connection can take: `event` takes it from `state` to
/// `next` with `action`, and the registry from `before` to `after`.
///
/// While handshaking, the event is taken as the first frame. If it holds a
/// request that the registry grants, the connection becomes a member, finds
/// the confirmation on its channel, and is announced to the other members.
/// Otherwise it is closed with the reason in a close frame, and the registry
/// stays as it was. While active, a frame is handed to the other members of
/// the room, and any other event ends the connection: it is deregistered and
/// the members that remain are told. Once closed, nothing happens any more.
pub open spec fn transition(
    state: ConnectionState,
    event: Event,
    before: RegistryView,
    words: Seq<Seq<char>>,
    next: ConnectionState,
    action: Action,
    after: RegistryView,
) -> bool {
    match state {
        ConnectionState::Closed => {
            &&& next is Closed
            &&& action is Stop
            &&& after == before
        },
        ConnectionState::Active(member) => match event {
            Event::Frame(frame) => {
                &&& next == state
                &&& action is Continue
                &&& after == before.broadcast(member.room@, member.id, frame@)
            },
            _ => {
                &&& next is Closed
                &&& action is Stop
                &&& after == departed(before, member.id, member.address@)
            },
        },
        ConnectionState::Handshaking(client) => match first_request(event) {
            Err(e) => {
                &&& next is Closed
                &&& action matches Action::Close(frame)
                &&& frame@ == rejection(e)
                &&& after == before
            },
            Ok(request) => match next {
                ConnectionState::Active(member) => {
                    &&& action is Continue
                    &&& member.id == client.id
                    &&& member.address@ == client.address@
                    &&& before.answers(words, client.id, request, Ok(member.room@))
                    &&& after == joined(
                        before,
                        client.id,
                        client.send,
                        client.address@,
                        member.room@,
                    )
                },
                ConnectionState::Closed => {
                    &&& action matches Action::Close(frame)
                    &&& exists|cause: RoomError|
                        before.answers(words, client.id, request, Err(cause)) && frame@
                            == rejection(RoomInitializationError::ClientInitError(cause))
                    &&& after == before
                },
                ConnectionState::Handshaking(_) => false,
            },
        },
    }
}

/// Builds the close frame that answers a failed handshake.
pub fn rejection_frame(error: &RoomInitializationError) -> (frame: Frame)
    ensures
        frame@ == rejection(*error),
{
    match error {
        RoomInitializationError::ClientInitError(RoomError::NotFound) => close_frame(
            CLOSE_POLICY,
            "Room does not exist",
        ),
        RoomInitializationError::ClientInitError(RoomError::AlreadyExists) => close_frame(
            CLOSE_POLICY,
            "Creating Room Failed",
        ),
        RoomInitializationError::ClientInitError(RoomError::NameExhausted) => close_frame(
            CLOSE_ERROR,
            "Creating Room Failed",
        ),
        _ => close_frame(CLOSE_PROTOCOL, "Invalid Room Request"),
    }
}

/// The handshake. The first event of a connection must be a text frame that
/// holds a request; the registry resolves the request and registers `client`
/// in one step, and the confirmation that names the room is the first frame
/// put on the client's channel. A failed handshake leaves the registry as it
/// was.
pub fn initialize_client(
    first: Event,
    room_context: &mut RoomContext,
    client: RoomClient,
) -> (joined: Result<RoomID, RoomInitializationError>)
    requires
        old(room_context).wf(),
    ensures
        final(room_context).wf(),
        final(room_context).words() == old(room_context).words(),
        old(room_context)@.no_empty_rooms() ==> final(room_context)@.no_empty_rooms(),
        match first_request(first) {
            Err(e) => {
                &&& joined == Err::<RoomID, RoomInitializationError>(e)
                &&& final(room_context)@ == old(room_context)@
            },
            Ok(request) => match joined {
                Ok(room) => {
                    &&& old(room_context)@.answers(
                        old(room_context).words(),
                        client.id,
                        request,
                        Ok(room@),
                    )
                    &&& final(room_context)@ == welcomed(
                        old(room_context)@,
                        client.id,
                        client.send,
                        room@,
                    )
                },
                Err(e) => {
                    &&& e matches RoomInitializationError::ClientInitError(cause)
                    &&& old(room_context)@.answers(
                        old(room_context).words(),
                        client.id,
                        request,
                        Err(cause),
                    )
                    &&& final(room_context)@ == old(room_context)@
                },
            },
        },
{
    let request = match first {
        Event::Frame(frame) => match frame {
            Frame::Text(content) => match decode_request(content.as_str()) {
                Some(request) => request,
                None => {
                    return Err(RoomInitializationError::InvalidJsonMessage);
                },
            },
            _ => {
                return Err(RoomInitializationError::InvalidMessage);
            },
        },
        Event::ReceiveFailed => {
            return Err(RoomInitializationError::InvalidMessage);
        },
        Event::InboundEnded => {
            return Err(RoomInitializationError::Unknown);
        },
        Event::OutboundEnded => {
            return Err(RoomInitializationError::Unknown);
        },
    };
    let id = client.id;
    match room_context.init_client(client, request) {
        Ok(room) => {
            let _ = room_context.send_to(id, confirmation(room.as_str()));
            Ok(room)
        },
        Err(e) => Err(RoomInitializationError::ClientInitError(e)),
    }
}

/// Hands a copy of `msg` to every member of `room` except `ignored`.
pub fn broadcast_message(
    room_context: &mut RoomContext,
    room: &str,
    ignored: ConnectionId,
    msg: &Frame,
)
    requires
        old(room_context).wf(),
    ensures
        final(room_context).wf(),
        final(room_context).words() == old(room_context).words(),
        final(room_context)@ == old(room_context)@.broadcast(room@, ignored, msg@),
        old(room_context)@.no_empty_rooms() ==> final(room_context)@.no_empty_rooms(),
{
    let _ = room_context.broadcast(room, ignored, msg);
}

/// The departure of the connection `id` at `address`: it is deregistered,
/// and if other members remain in its room they are told that it left.
pub fn cleanup_connection(
    room_context: &mut RoomContext,
    id: ConnectionId,
    address: &str,
) -> (departure: Departure)
    requires
        old(room_context).wf(),
    ensures
        final(room_context).wf(),
        final(room_context).words() == old(room_context).words(),
        final(room_context)@ == departed(old(room_context)@, id, address@),
        old(room_context)@.no_empty_rooms() ==> final(room_context)@.no_empty_rooms(),
        departure_of(old(room_context)@, id, departure),
{
    let departure = room_context.deregister_member(id);
    match &departure {
        Departure::RoomRemains(room) => {
            broadcast_message(room_context, room.as_str(), id, &user_left(address));
        },
        _ => {},
    }
    departure
}

/// One step of a connection: what `event` makes of `state`, what it does to
/// the registry, and what is to be done with the connection next. The steps
/// are those of [`transition`].
pub fn handle_event(
    state: ConnectionState,
    room_context: &mut RoomContext,
    event: Event,
) -> (next: (ConnectionState, Action))
    requires
        old(room_context).wf(),
    ensures
        final(room_context).wf(),
        final(room_context).words() == old(room_context).words(),
        old(room_context)@.no_empty_rooms() ==> final(room_context)@.no_empty_rooms(),
        transition(
            state,
            event,
            old(room_context)@,
            old(room_context).words(),
            next.0,
            next.1,
            final(room_context)@,
        ),
{
    match state {
        ConnectionState::Closed => (ConnectionState::Closed, Action::Stop),
        ConnectionState::Active(member) => match event {
            Event::Frame(frame) => {
                broadcast_message(room_context, member.room.as_str(), member.id, &frame);
                (ConnectionState::Active(member), Action::Continue)
            },
            _ => {
                let _ = cleanup_connection(room_context, member.id, member.address.as_str());
                (ConnectionState::Closed, Action::Stop)
            },
        },
        ConnectionState::Handshaking(client) => {
            let id = client.id;
            let address = client.address.clone();
            match initialize_client(event, room_context, client) {
                Ok(room) => {
                    let announcement = user_joined(address.as_str());
                    broadcast_message(room_context, room.as_str(), id, &announcement);
                    (ConnectionState::Active(Member { id, address, room }), Action::Continue)
                },
                Err(e) => (ConnectionState::Closed, Action::Close(rejection_frame(&e))),
            }
        },
    }
}

} // verus!
