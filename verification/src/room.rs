//! A room: the set of connections that receive each other's frames, and the
//! fan-out of one frame to all members but its sender.

use crate::client::{offer, ConnectionId, RoomClient, Tx};
use crate::frame::{Frame, FrameView};
use std::collections::HashMap;
use vstd::prelude::*;
use vstd::std_specs::hash::*;

verus! {

/// Name of a room. Case-sensitive; no two live rooms share one.
pub type RoomID = String;

/// Why a room or a membership could not be had.
#[derive(Debug, Clone, Copy, PartialEq, Eq)]
pub enum RoomError {
    /// No live room has the name, or the connection is not a member.
    NotFound,
    /// A live room already has the name, or the connection is already a member.
    AlreadyExists,
    /// Every generated candidate name collided with a live room.
    NameExhausted,
}

/// What a connection asks for with its first frame.
#[derive(Debug, PartialEq, Eq)]
pub enum RoomRequest {
    /// Create a room under a generated name.
    NewRoom,
    /// Join the live room of this name.
    JoinRoom(String),
    /// Create a room under this name.
    JoinWithCode(String),
}

/// Mathematical content of a [`RoomRequest`].
pub enum RoomRequestView {
    NewRoom,
    JoinRoom(Seq<char>),
    JoinWithCode(Seq<char>),
}

impl View for RoomRequest {
    type V = RoomRequestView;

    open spec fn view(&self) -> RoomRequestView {
        match self {
            RoomRequest::NewRoom => RoomRequestView::NewRoom,
            RoomRequest::JoinRoom(id) => RoomRequestView::JoinRoom(id@),
            RoomRequest::JoinWithCode(id) => RoomRequestView::JoinWithCode(id@),
        }
    }
}

/// One member's place in a room: its channel and every frame the room has
/// handed to that channel so far, oldest first.
pub struct Slot {
    pub channel: Tx,
    pub offered: Seq<FrameView>,
}

/// Mathematical model of a room: its name, and the place of every member.
pub struct RoomView {
    pub id: Seq<char>,
    pub slots: Map<ConnectionId, Slot>,
}

impl RoomView {
    /// The room `id` with no members.
    pub open spec fn fresh(id: Seq<char>) -> RoomView {
        RoomView { id, slots: Map::empty() }
    }

    /// The connections that are in the room.
    pub open spec fn members(self) -> Set<ConnectionId> {
        self.slots.dom()
    }

    /// Whether `c` is in the room.
    pub open spec fn has_member(self, c: ConnectionId) -> bool {
        self.slots.contains_key(c)
    }

    /// Whether nobody is in the room.
    pub open spec fn is_empty(self) -> bool {
        forall|c: ConnectionId| !self.has_member(c)
    }

    /// Frames handed to member `c`'s channel so far, oldest first.
    pub open spec fn offered(self, c: ConnectionId) -> Seq<FrameView> {
        self.slots[c].offered
    }

    /// The room after `c` joined with `channel`; nothing has been handed to
    /// the channel yet.
    pub open spec fn join(self, c: ConnectionId, channel: Tx) -> RoomView {
        RoomView {
            id: self.id,
            slots: self.slots.insert(c, Slot { channel, offered: Seq::empty() }),
        }
    }

    /// The room after `c` left.
    pub open spec fn leave(self, c: ConnectionId) -> RoomView {
        RoomView { id: self.id, slots: self.slots.remove(c) }
    }

    /// The room after `frame` was handed to member `c` alone.
    pub open spec fn send_to(self, c: ConnectionId, frame: FrameView) -> RoomView {
        if self.has_member(c) {
            RoomView {
                id: self.id,
                slots: self.slots.insert(
                    c,
                    Slot {
                        channel: self.slots[c].channel,
                        offered: self.slots[c].offered.push(frame),
                    },
                ),
            }
        } else {
            self
        }
    }

    /// The room after `frame` was handed to every member except `sender`.
    pub open spec fn broadcast(self, sender: ConnectionId, frame: FrameView) -> RoomView {
        RoomView {
            id: self.id,
            slots: Map::new(
                |c: ConnectionId| self.slots.contains_key(c),
                |c: ConnectionId|
                    if c == sender {
                        self.slots[c]
                    } else {
                        Slot {
                            channel: self.slots[c].channel,
                            offered: self.slots[c].offered.push(frame),
                        }
                    },
            ),
        }
    }
}

/// A named broadcast group.
///
/// Beside the channels of its members the room keeps, for the proofs alone,
/// a record of what it has handed to each channel. The record tells what was
/// handed over and in which order, whether or not the channel took it: a
/// channel whose reader is gone takes nothing, and one that is read yields
/// the frames it took in the order in which they were handed to it.
pub struct Room {
    clients: HashMap<ConnectionId, Tx>,
    room_id: String,
    record: Ghost<Map<ConnectionId, Seq<FrameView>>>,
}

impl View for Room {
    type V = RoomView;

    closed spec fn view(&self) -> RoomView {
        RoomView {
            id: self.room_id@,
            slots: Map::new(
                |c: ConnectionId| self.clients@.contains_key(c),
                |c: ConnectionId| Slot { channel: self.clients@[c], offered: self.record@[c] },
            ),
        }
    }
}

/// Whether `c` is among the first `count` of `entries`.
spec fn visited(entries: Seq<(&ConnectionId, &Tx)>, count: int, c: ConnectionId) -> bool {
    exists|i: int| 0 <= i < count && *(#[trigger] entries[i]).0 == c
}

impl Room {
    /// A room named `room_id` without members.
    pub fn new(room_id: RoomID) -> (room: Room)
        ensures
            room@ == RoomView::fresh(room_id@),
    {
        let clients = HashMap::new();
        let room = Room { clients, room_id, record: Ghost(Map::empty()) };
        assert(room@.slots =~= Map::empty());
        room
    }

    /// Name of the room.
    pub fn room_id(&self) -> (id: &String)
        ensures
            id@ == self@.id,
    {
        &self.room_id
    }

    /// Whether the room has no members.
    pub fn is_empty(&self) -> (empty: bool)
        ensures
            empty == self@.is_empty(),
    {
        broadcast use group_hash_axioms;

        let empty = self.clients.is_empty();
        proof {
            if empty {
                assert forall|c: ConnectionId| !self@.has_member(c) by {
                    assert(!self.clients@.dom().contains(c));
                }
            } else {
                let c = choose|c: ConnectionId| self.clients@.dom().contains(c);
                assert(self@.has_member(c));
            }
        }
        empty
    }

    /// Number of members.
    pub fn len(&self) -> (count: usize)
        ensures
            count == self@.members().len(),
            self@.members().finite(),
    {
        broadcast use group_hash_axioms;

        assert(self@.members() =~= self.clients@.dom());
        self.clients.len()
    }

    /// Whether `id` is a member.
    pub fn contains(&self, id: ConnectionId) -> (member: bool)
        ensures
            member == self@.has_member(id),
    {
        broadcast use group_hash_axioms;

        self.clients.contains_key(&id)
    }

    /// Adds `client` unless its handle is already a member. A second join
    /// under the same handle is refused and leaves the first channel in
    /// place, so that the frames queued on it keep their reader.
    pub fn add_client(&mut self, client: RoomClient) -> (error: Option<RoomError>)
        ensures
            old(self)@.has_member(client.id) ==> {
                &&& error == Some(RoomError::AlreadyExists)
                &&& final(self)@ == old(self)@
            },
            !old(self)@.has_member(client.id) ==> {
                &&& error is None
                &&& final(self)@ == old(self)@.join(client.id, client.send)
            },
    {
        broadcast use group_hash_axioms;

        if self.clients.contains_key(&client.id) {
            return Some(RoomError::AlreadyExists);
        }
        let id = client.id;
        self.clients.insert(id, client.send);
        proof {
            self.record@ = self.record@.insert(id, Seq::empty());
        }
        assert(self@.slots =~= old(self)@.join(client.id, client.send).slots);
        None
    }

    /// Removes the member `id`.
    pub fn drop_client(&mut self, id: &ConnectionId) -> (error: Option<RoomError>)
        ensures
            old(self)@.has_member(*id) ==> {
                &&& error is None
                &&& final(self)@ == old(self)@.leave(*id)
            },
            !old(self)@.has_member(*id) ==> {
                &&& error == Some(RoomError::NotFound)
                &&& final(self)@ == old(self)@
            },
    {
        broadcast use group_hash_axioms;

        match self.clients.remove(id) {
            Some(_) => {
                assert(self@.slots =~= old(self)@.leave(*id).slots);
                None
            },
            None => {
                assert(self.clients@ =~= old(self).clients@);
                assert(self@.slots =~= old(self)@.slots);
                Some(RoomError::NotFound)
            },
        }
    }

    /// Hands `frame` to the channel of the member `member` alone and reports
    /// whether the channel took it.
    pub fn send_to(&mut self, member: ConnectionId, frame: Frame) -> (accepted: bool)
        ensures
            final(self)@ == old(self)@.send_to(member, frame@),
            accepted ==> old(self)@.has_member(member),
    {
        broadcast use group_hash_axioms;

        match self.clients.get(&member) {
            Some(channel) => {
                let ghost content = frame@;
                let accepted = offer(channel, frame);
                proof {
                    self.record@ = self.record@.insert(member, self.record@[member].push(content));
                }
                assert(self@.slots =~= old(self)@.send_to(member, content).slots);
                accepted
            },
            None => false,
        }
    }

    /// Hands a copy of `frame` to the channel of every member except
    /// `sender`. A channel that refuses the frame affects no other member.
    pub fn broadcast(&mut self, sender: ConnectionId, frame: &Frame)
        ensures
            final(self)@ == old(self)@.broadcast(sender, frame@),
            final(self)@.members() == old(self)@.members(),
            old(self)@.has_member(sender) ==> final(self)@.offered(sender) == old(self)@.offered(
                sender,
            ),
    {
        broadcast use group_hash_axioms;

        let ghost before = self.record@;
        let ghost members = self.clients@;
        for entry in it: self.clients.iter()
            invariant
                self.clients@ == members,
                self.room_id == old(self).room_id,
                it.seq().no_duplicates(),
                forall|i: int|
                    0 <= i < it.seq().len() ==> {
                        &&& members.contains_key(*(#[trigger] it.seq()[i]).0)
                        &&& members[*it.seq()[i].0] == *it.seq()[i].1
                    },
                forall|c: ConnectionId| #[trigger]
                    members.contains_key(c) ==> visited(it.seq(), it.seq().len() as int, c),
                forall|c: ConnectionId| #[trigger]
                    members.contains_key(c) ==> self.record@[c] == if c != sender && visited(
                        it.seq(),
                        it.index(),
                        c,
                    ) {
                        before[c].push(frame@)
                    } else {
                        before[c]
                    },
        {
            let (id, channel) = entry;
            if *id != sender {
                let _ = offer(channel, frame.clone());
                proof {
                    let now = it.index();
                    assert forall|j: int| 0 <= j < now implies *(#[trigger] it.seq()[j]).0
                        != *id by {
                        if *it.seq()[j].0 == *id {
                            assert(it.seq()[j] == it.seq()[now]);
                        }
                    }
                    self.record@ = self.record@.insert(*id, self.record@[*id].push(frame@));
                }
            }
        }
        assert(self@.slots =~= old(self)@.broadcast(sender, frame@).slots);
        assert(self@.members() =~= old(self)@.members());
    }
}

} // verus!
