//! What holds of the relay whatever its connections do, stated over the
//! models of rooms and registry and proved from their definitions.

use crate::client::{ConnectionId, Tx};
use crate::frame::FrameView;
use crate::registry_model::{
    lemma_broadcast_consistent, lemma_create_consistent, lemma_deregister_consistent,
    lemma_register_consistent, lemma_send_to_consistent, RegistryView,
};
use crate::room::{RoomError, RoomRequestView, RoomView};
use crate::wire::{confirmation_frame, user_joined_frame, user_left_frame};
use crate::ws_handler::{
    departed, first_request, joined, transition, welcomed, Action, ConnectionState, Event,
};
use vstd::prelude::*;

verus! {

/// One thing that a connection does to the registry.
pub enum Step {
    /// A handshake: the connection `c` at `address` asks with `request` and
    /// is answered with the room `room`.
    Join {
        c: ConnectionId,
        channel: Tx,
        address: Seq<char>,
        request: RoomRequestView,
        room: Seq<char>,
    },
    /// A frame is handed to the members of `room` except `sender`.
    Relay { room: Seq<char>, sender: ConnectionId, frame: FrameView },
    /// The connection `c` at `address` ends.
    Leave { c: ConnectionId, address: Seq<char> },
}

/// The registry after `step`. A handshake whose answer the registry may not
/// give changes nothing.
pub open spec fn taken(v: RegistryView, words: Seq<Seq<char>>, step: Step) -> RegistryView {
    match step {
        Step::Join { c, channel, address, request, room } => {
            if v.answers(words, c, request, Ok(room)) {
                joined(v, c, channel, address, room)
            } else {
                v
            }
        },
        Step::Relay { room, sender, frame } => v.broadcast(room, sender, frame),
        Step::Leave { c, address } => departed(v, c, address),
    }
}

/// The registry that `steps` make of an empty one.
pub open spec fn reached(words: Seq<Seq<char>>, steps: Seq<Step>) -> RegistryView
    decreases steps.len(),
{
    if steps.len() == 0 {
        RegistryView::empty()
    } else {
        taken(reached(words, steps.drop_last()), words, steps.last())
    }
}

/// A granted handshake keeps the two maps in agreement and leaves no room
/// empty.
pub proof fn lemma_joined_consistent(
    v: RegistryView,
    words: Seq<Seq<char>>,
    c: ConnectionId,
    channel: Tx,
    address: Seq<char>,
    request: RoomRequestView,
    room: Seq<char>,
)
    requires
        v.consistent(),
        v.answers(words, c, request, Ok(room)),
    ensures
        welcomed(v, c, channel, room).consistent(),
        joined(v, c, channel, address, room).consistent(),
        joined(v, c, channel, address, room).in_room(room, c),
        v.no_empty_rooms() ==> joined(v, c, channel, address, room).no_empty_rooms(),
{
    let base = if v.is_live(room) {
        v
    } else {
        v.create(room)
    };
    if !v.is_live(room) {
        lemma_create_consistent(v, room);
    }
    lemma_register_consistent(base, c, channel, room);
    let entered = v.enter(c, channel, room);
    assert(entered == base.register(c, channel, room));
    if v.no_empty_rooms() {
        assert forall|r: Seq<char>| #[trigger]
            base.rooms.contains_key(r) && r != room implies !base.rooms[r].is_empty() by {
            assert(v.rooms.contains_key(r));
        }
        assert(base.no_empty_rooms_but(room));
    }
    lemma_send_to_consistent(entered, c, confirmation_frame(room));
    let told = welcomed(v, c, channel, room);
    lemma_broadcast_consistent(told, room, c, user_joined_frame(address));
}

/// A departure keeps the two maps in agreement and leaves no room empty.
pub proof fn lemma_departed_consistent(v: RegistryView, c: ConnectionId, address: Seq<char>)
    requires
        v.consistent(),
    ensures
        departed(v, c, address).consistent(),
        !departed(v, c, address).is_registered(c),
        v.no_empty_rooms() ==> departed(v, c, address).no_empty_rooms(),
{
    lemma_deregister_consistent(v, c);
    if v.is_registered(c) {
        lemma_broadcast_consistent(v.deregister(c), v.peers[c], c, user_left_frame(address));
    }
}

/// Membership is recorded consistently in every state that can be reached:
/// whatever connections have joined, relayed and left, every room is filed
/// under its own name, a connection is recorded for a room exactly when it
/// is a member of that room, and no room is empty.
pub proof fn law_reachable_states_are_consistent(words: Seq<Seq<char>>, steps: Seq<Step>)
    ensures
        reached(words, steps).consistent(),
        reached(words, steps).no_empty_rooms(),
    decreases steps.len(),
{
    if steps.len() > 0 {
        let before = reached(words, steps.drop_last());
        law_reachable_states_are_consistent(words, steps.drop_last());
        match steps.last() {
            Step::Join { c, channel, address, request, room } => {
                if before.answers(words, c, request, Ok(room)) {
                    lemma_joined_consistent(before, words, c, channel, address, request, room);
                }
            },
            Step::Relay { room, sender, frame } => {
                lemma_broadcast_consistent(before, room, sender, frame);
            },
            Step::Leave { c, address } => {
                lemma_departed_consistent(before, c, address);
            },
        }
    }
}

/// Whatever an event does to the registry is one of the steps above, or
/// nothing: what connections can reach by events is what the steps reach.
pub proof fn law_events_are_steps(
    state: ConnectionState,
    event: Event,
    before: RegistryView,
    words: Seq<Seq<char>>,
    next: ConnectionState,
    action: Action,
    after: RegistryView,
)
    requires
        transition(state, event, before, words, next, action, after),
    ensures
        after == before || exists|step: Step| after == taken(before, words, step),
{
    match state {
        ConnectionState::Closed => {},
        ConnectionState::Active(member) => match event {
            Event::Frame(frame) => {
                let step = Step::Relay { room: member.room@, sender: member.id, frame: frame@ };
                assert(after == taken(before, words, step));
            },
            _ => {
                let step = Step::Leave { c: member.id, address: member.address@ };
                assert(after == taken(before, words, step));
            },
        },
        ConnectionState::Handshaking(client) => match first_request(event) {
            Err(_) => {},
            Ok(request) => match next {
                ConnectionState::Active(member) => {
                    let step = Step::Join {
                        c: client.id,
                        channel: client.send,
                        address: client.address@,
                        request,
                        room: member.room@,
                    };
                    assert(after == taken(before, words, step));
                },
                _ => {},
            },
        },
    }
}

/// A connection never goes back: an event leaves it where it is or takes it
/// further, a closed connection stays closed and touches nothing, and a
/// connection is deregistered by the one event that closes it while active.
pub proof fn law_connections_never_go_back(
    state: ConnectionState,
    event: Event,
    before: RegistryView,
    words: Seq<Seq<char>>,
    next: ConnectionState,
    action: Action,
    after: RegistryView,
)
    requires
        transition(state, event, before, words, next, action, after),
    ensures
        next.rank() >= state.rank(),
        state is Closed ==> next is Closed && after == before,
        state is Handshaking && next is Closed ==> after == before,
        state is Active && next is Closed ==> after == departed(
            before,
            state->Active_0.id,
            state->Active_0.address@,
        ),
        action is Continue <==> next is Active,
{
}

/// A departure happens once: when a connection has left, a second departure
/// of the same connection changes nothing and tells nobody.
pub proof fn law_departure_happens_once(v: RegistryView, c: ConnectionId, address: Seq<char>)
    requires
        v.consistent(),
    ensures
        departed(departed(v, c, address), c, address) == departed(v, c, address),
{
    lemma_departed_consistent(v, c, address);
}

/// In a registry whose maps agree, a connection is recorded for a room if
/// and only if it is a member of that room, and so it is a member of one
/// room at most.
pub proof fn law_membership_consistent(
    v: RegistryView,
    c: ConnectionId,
    id: Seq<char>,
    other: Seq<char>,
)
    requires
        v.consistent(),
    ensures
        (v.is_registered(c) && v.peers[c] == id) <==> v.in_room(id, c),
        v.in_room(id, c) && v.in_room(other, c) ==> id == other,
{
    if v.is_registered(c) && v.peers[c] == id {
        assert(v.in_room(v.peers[c], c));
    }
}

/// A name that is live is never given to a new room, whether a client chose
/// the name or the registry drew it; and a request that is granted adds a
/// room under the answered name if none is live, and adds no room otherwise.
pub proof fn law_new_rooms_take_free_names(
    v: RegistryView,
    words: Seq<Seq<char>>,
    c: ConnectionId,
    channel: Tx,
    name: Seq<char>,
)
    ensures
        v.is_live(name) ==> !v.answers(words, c, RoomRequestView::JoinWithCode(name), Ok(name)),
        v.is_live(name) ==> !v.answers(words, c, RoomRequestView::NewRoom, Ok(name)),
        v.is_live(name) ==> v.enter(c, channel, name).rooms.dom() == v.rooms.dom(),
        !v.is_live(name) ==> v.enter(c, channel, name).rooms.dom() == v.rooms.dom().insert(name),
        !v.is_live(name) ==> v.enter(c, channel, name).rooms[name].id == name,
{
    assert(v.enter(c, channel, name).rooms.dom() =~= v.rooms.dom().insert(name));
    if v.is_live(name) {
        assert(v.rooms.dom().insert(name) =~= v.rooms.dom());
    }
}

/// A connection that joins finds the confirmation on its channel and
/// nothing else: it is not told of itself.
pub proof fn law_confirmation_comes_first(
    v: RegistryView,
    words: Seq<Seq<char>>,
    c: ConnectionId,
    channel: Tx,
    address: Seq<char>,
    request: RoomRequestView,
    room: Seq<char>,
)
    requires
        v.consistent(),
        v.answers(words, c, request, Ok(room)),
    ensures
        joined(v, c, channel, address, room).is_registered(c),
        joined(v, c, channel, address, room).peers[c] == room,
        joined(v, c, channel, address, room).offered(c) == seq![confirmation_frame(room)],
{
    let entered = v.enter(c, channel, room);
    assert(entered.rooms[room].offered(c) == Seq::<FrameView>::empty());
    let told = welcomed(v, c, channel, room);
    assert(told.rooms[room].offered(c) == seq![confirmation_frame(room)]);
}

/// The members that are in a room when a connection joins are told of the
/// newcomer, behind all that they were handed before.
pub proof fn law_members_are_told_of_a_newcomer(
    v: RegistryView,
    words: Seq<Seq<char>>,
    c: ConnectionId,
    channel: Tx,
    address: Seq<char>,
    request: RoomRequestView,
    room: Seq<char>,
    member: ConnectionId,
)
    requires
        v.consistent(),
        v.answers(words, c, request, Ok(room)),
        v.in_room(room, member),
    ensures
        joined(v, c, channel, address, room).in_room(room, member),
        joined(v, c, channel, address, room).offered(member) == v.offered(member).push(
            user_joined_frame(address),
        ),
{
    assert(v.peers.contains_key(member) && v.peers[member] == room);
    assert(member != c);
    assert(v.enter(c, channel, room) == v.register(c, channel, room));
}

/// No self-delivery: a frame that a connection broadcasts is handed to every
/// other member of the room and is never put on the sender's own channel.
pub proof fn law_no_self_delivery(
    room: RoomView,
    sender: ConnectionId,
    frame: FrameView,
    other: ConnectionId,
)
    requires
        room.has_member(other),
        other != sender,
    ensures
        room.broadcast(sender, frame).members() == room.members(),
        room.has_member(sender) ==> room.broadcast(sender, frame).offered(sender)
            == room.offered(sender),
        room.broadcast(sender, frame).offered(other) == room.offered(other).push(frame),
{
    assert(room.broadcast(sender, frame).members() =~= room.members());
}

/// The same through the registry: of the members of the room the sender
/// alone is not handed the frame, and no other room is touched.
pub proof fn law_broadcast_stays_in_its_room(
    v: RegistryView,
    id: Seq<char>,
    sender: ConnectionId,
    frame: FrameView,
    other: ConnectionId,
    elsewhere: Seq<char>,
)
    requires
        v.in_room(id, other),
        other != sender,
        elsewhere != id,
    ensures
        v.in_room(id, sender) ==> v.broadcast(id, sender, frame).rooms[id].offered(sender)
            == v.rooms[id].offered(sender),
        v.broadcast(id, sender, frame).rooms[id].offered(other) == v.rooms[id].offered(
            other,
        ).push(frame),
        v.broadcast(id, sender, frame).is_live(elsewhere) == v.is_live(elsewhere),
        v.is_live(elsewhere) ==> v.broadcast(id, sender, frame).rooms[elsewhere]
            == v.rooms[elsewhere],
        v.broadcast(id, sender, frame).peers == v.peers,
{
}

/// An empty room is erased: once the last member of a room has left, the
/// room is not live, and a connection that asks to join it by name, be it a
/// new one or the one that left, is told that it is not found.
pub proof fn law_empty_room_erased(
    v: RegistryView,
    words: Seq<Seq<char>>,
    last: ConnectionId,
    address: Seq<char>,
    next: ConnectionId,
    outcome: Result<Seq<char>, RoomError>,
)
    requires
        v.consistent(),
        v.is_registered(last),
        v.is_last_member(last),
        next == last || !v.is_registered(next),
    ensures
        departed(v, last, address) == v.deregister(last),
        !v.deregister(last).is_live(v.peers[last]),
        v.deregister(last).answers(
            words,
            next,
            RoomRequestView::JoinRoom(v.peers[last]),
            outcome,
        ) <==> outcome == Err::<Seq<char>, RoomError>(RoomError::NotFound),
{
}

/// A room that keeps a member stays live when another member leaves, and
/// the member that stays is told.
pub proof fn law_room_remains(
    v: RegistryView,
    leaver: ConnectionId,
    address: Seq<char>,
    stayer: ConnectionId,
)
    requires
        v.consistent(),
        v.is_registered(leaver),
        v.in_room(v.peers[leaver], stayer),
        stayer != leaver,
    ensures
        !v.is_last_member(leaver),
        departed(v, leaver, address).in_room(v.peers[leaver], stayer),
        !departed(v, leaver, address).is_registered(leaver),
        departed(v, leaver, address).offered(stayer) == v.offered(stayer).push(
            user_left_frame(address),
        ),
{
    let room = v.rooms[v.peers[leaver]];
    assert(room.leave(leaver).has_member(stayer));
    assert(v.peers.contains_key(stayer) && v.peers[stayer] == v.peers[leaver]);
}

/// Frames keep their order: what one sender broadcasts first is handed to
/// every other member before what it broadcasts second, behind all that the
/// member was handed before.
pub proof fn law_fifo_per_pair(
    room: RoomView,
    sender: ConnectionId,
    first: FrameView,
    second: FrameView,
    recipient: ConnectionId,
)
    requires
        room.has_member(recipient),
        recipient != sender,
    ensures
        room.broadcast(sender, first).broadcast(sender, second).offered(recipient)
            == room.offered(recipient).push(first).push(second),
{
}

/// Nothing that was handed to a member is taken back or reordered by a later
/// broadcast or by a frame for one member, whoever sends it.
pub proof fn law_offered_only_grows(
    room: RoomView,
    sender: ConnectionId,
    frame: FrameView,
    member: ConnectionId,
)
    requires
        room.has_member(member),
    ensures
        room.offered(member).is_prefix_of(room.broadcast(sender, frame).offered(member)),
        room.offered(member).is_prefix_of(room.send_to(sender, frame).offered(member)),
{
    let sent = room.offered(member);
    assert(sent.push(frame).subrange(0, sent.len() as int) == sent);
    assert(sent.subrange(0, sent.len() as int) == sent);
}

/// A connection that joins starts with nothing handed to it, and its join
/// changes nothing for the members that are there.
pub proof fn law_join_starts_empty(
    room: RoomView,
    c: ConnectionId,
    channel: Tx,
    member: ConnectionId,
)
    requires
        room.has_member(member),
        member != c,
    ensures
        room.join(c, channel).offered(c) == Seq::<FrameView>::empty(),
        room.join(c, channel).offered(member) == room.offered(member),
        room.join(c, channel).slots[member].channel == room.slots[member].channel,
{
}

} // verus!
