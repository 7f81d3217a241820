//! Mathematical model of the registry: which rooms are live, who is in them,
//! and which room each connection belongs to.

use crate::client::{ConnectionId, Tx};
use crate::frame::FrameView;
use crate::room::{RoomError, RoomRequestView, RoomView};
use vstd::prelude::*;

verus! {

/// Mathematical model of the registry.
pub struct RegistryView {
    /// The live rooms by name.
    pub rooms: Map<Seq<char>, RoomView>,
    /// The room of every registered connection.
    pub peers: Map<ConnectionId, Seq<char>>,
}

impl RegistryView {
    /// The registry without rooms or connections.
    pub open spec fn empty() -> RegistryView {
        RegistryView { rooms: Map::empty(), peers: Map::empty() }
    }

    /// Whether a room named `id` is live.
    pub open spec fn is_live(self, id: Seq<char>) -> bool {
        self.rooms.contains_key(id)
    }

    /// Whether the connection `c` is registered.
    pub open spec fn is_registered(self, c: ConnectionId) -> bool {
        self.peers.contains_key(c)
    }

    /// Whether `c` is a member of the live room `id`.
    pub open spec fn in_room(self, id: Seq<char>, c: ConnectionId) -> bool {
        self.rooms.contains_key(id) && self.rooms[id].has_member(c)
    }

    /// The two maps agree: every room is filed under its own name, and a
    /// connection is recorded for a room exactly when it is a member of it.
    pub open spec fn consistent(self) -> bool {
        &&& forall|id: Seq<char>| #[trigger]
            self.rooms.contains_key(id) ==> self.rooms[id].id == id
        &&& forall|c: ConnectionId| #[trigger]
            self.peers.contains_key(c) ==> self.in_room(self.peers[c], c)
        &&& forall|id: Seq<char>, c: ConnectionId| #[trigger]
            self.in_room(id, c) ==> self.peers.contains_key(c) && self.peers[c] == id
    }

    /// Every live room other than `id` has a member.
    pub open spec fn no_empty_rooms_but(self, id: Seq<char>) -> bool {
        forall|r: Seq<char>| #[trigger]
            self.rooms.contains_key(r) && r != id ==> !self.rooms[r].is_empty()
    }

    /// Every live room has a member.
    pub open spec fn no_empty_rooms(self) -> bool {
        forall|r: Seq<char>| #[trigger] self.rooms.contains_key(r) ==> !self.rooms[r].is_empty()
    }

    /// The registry after an empty room named `id` was created.
    pub open spec fn create(self, id: Seq<char>) -> RegistryView {
        RegistryView { rooms: self.rooms.insert(id, RoomView::fresh(id)), peers: self.peers }
    }

    /// The registry after `c` joined the room `id` with `channel`.
    pub open spec fn register(self, c: ConnectionId, channel: Tx, id: Seq<char>) -> RegistryView {
        RegistryView {
            rooms: self.rooms.insert(id, self.rooms[id].join(c, channel)),
            peers: self.peers.insert(c, id),
        }
    }

    /// The registry after `c` joined the room `id`, which is created first
    /// unless it is live.
    pub open spec fn enter(self, c: ConnectionId, channel: Tx, id: Seq<char>) -> RegistryView {
        if self.is_live(id) {
            self.register(c, channel, id)
        } else {
            self.create(id).register(c, channel, id)
        }
    }

    /// Whether `c` is the only member of its room.
    pub open spec fn is_last_member(self, c: ConnectionId) -> bool {
        self.rooms[self.peers[c]].leave(c).is_empty()
    }

    /// The registry after `c` left: it is gone from its room and from
    /// the record of connections, and the room is gone too if `c` was its
    /// last member. Nothing changes if `c` is not registered.
    pub open spec fn deregister(self, c: ConnectionId) -> RegistryView {
        if self.peers.contains_key(c) {
            let id = self.peers[c];
            RegistryView {
                rooms: if self.is_last_member(c) {
                    self.rooms.remove(id)
                } else {
                    self.rooms.insert(id, self.rooms[id].leave(c))
                },
                peers: self.peers.remove(c),
            }
        } else {
            self
        }
    }

    /// The registry after `frame` was handed to every member of the room `id`
    /// except `sender`. Nothing changes if no such room is live.
    pub open spec fn broadcast(
        self,
        id: Seq<char>,
        sender: ConnectionId,
        frame: FrameView,
    ) -> RegistryView {
        if self.rooms.contains_key(id) {
            RegistryView {
                rooms: self.rooms.insert(id, self.rooms[id].broadcast(sender, frame)),
                peers: self.peers,
            }
        } else {
            self
        }
    }

    /// The registry after `frame` was handed to the registered connection `c`
    /// alone. Nothing changes if `c` is not registered.
    pub open spec fn send_to(self, c: ConnectionId, frame: FrameView) -> RegistryView {
        if self.peers.contains_key(c) {
            let id = self.peers[c];
            RegistryView {
                rooms: self.rooms.insert(id, self.rooms[id].send_to(c, frame)),
                peers: self.peers,
            }
        } else {
            self
        }
    }

    /// Frames handed so far to the registered connection `c`, oldest first.
    pub open spec fn offered(self, c: ConnectionId) -> Seq<FrameView> {
        self.rooms[self.peers[c]].offered(c)
    }

    /// Whether `outcome` is an answer that the registry may give when the
    /// connection `c` asks to enter with `request`: the name of the room it
    /// is put in, or the reason why it is put in none. A connection that is
    /// registered already is refused. For a room named by the request the
    /// answer is fixed. For a room named by the registry, every name that is
    /// not live and comes from `words` is a possible answer, and the request
    /// may only fail while some word names a live room.
    pub open spec fn answers(
        self,
        words: Seq<Seq<char>>,
        c: ConnectionId,
        request: RoomRequestView,
        outcome: Result<Seq<char>, RoomError>,
    ) -> bool {
        if self.is_registered(c) {
            outcome == Err::<Seq<char>, RoomError>(RoomError::AlreadyExists)
        } else {
            match request {
                RoomRequestView::JoinRoom(id) => outcome == if self.is_live(id) {
                    Ok::<Seq<char>, RoomError>(id)
                } else {
                    Err::<Seq<char>, RoomError>(RoomError::NotFound)
                },
                RoomRequestView::JoinWithCode(id) => outcome == if self.is_live(id) {
                    Err::<Seq<char>, RoomError>(RoomError::AlreadyExists)
                } else {
                    Ok::<Seq<char>, RoomError>(id)
                },
                RoomRequestView::NewRoom => match outcome {
                    Ok(name) => !self.is_live(name) && words.contains(name) && name.len() > 0,
                    Err(e) => e == RoomError::NameExhausted && exists|w: Seq<char>|
                        words.contains(w) && self.is_live(w),
                },
            }
        }
    }
}

/// The model of the answer to a connection that asked to enter.
pub open spec fn outcome_view(outcome: Result<String, RoomError>) -> Result<Seq<char>, RoomError> {
    match outcome {
        Ok(room) => Ok(room@),
        Err(e) => Err(e),
    }
}

/// Creating a room under a name that is not live keeps the maps in agreement.
pub proof fn lemma_create_consistent(v: RegistryView, id: Seq<char>)
    requires
        v.consistent(),
        !v.is_live(id),
    ensures
        v.create(id).consistent(),
{
    let w = v.create(id);
    assert forall|c: ConnectionId| #[trigger] w.peers.contains_key(c) implies w.in_room(
        w.peers[c],
        c,
    ) by {
        assert(v.in_room(v.peers[c], c));
    }
    assert forall|r: Seq<char>, c: ConnectionId| #[trigger]
        w.in_room(r, c) implies w.peers.contains_key(c) && w.peers[c] == r by {
        assert(v.in_room(r, c));
    }
}

/// Registering a connection that is not registered yet in a live room keeps
/// the maps in agreement, and leaves no room empty if no other room was.
pub proof fn lemma_register_consistent(
    v: RegistryView,
    c: ConnectionId,
    channel: Tx,
    id: Seq<char>,
)
    requires
        v.consistent(),
        v.is_live(id),
        !v.is_registered(c),
    ensures
        v.register(c, channel, id).consistent(),
        v.register(c, channel, id).in_room(id, c),
        v.no_empty_rooms_but(id) ==> v.register(c, channel, id).no_empty_rooms(),
{
    let w = v.register(c, channel, id);
    assert(w.rooms[id].has_member(c));
    assert forall|d: ConnectionId| #[trigger] w.peers.contains_key(d) implies w.in_room(
        w.peers[d],
        d,
    ) by {
        if d != c {
            assert(v.in_room(v.peers[d], d));
        }
    }
    assert forall|r: Seq<char>, d: ConnectionId| #[trigger]
        w.in_room(r, d) implies w.peers.contains_key(d) && w.peers[d] == r by {
        if d == c {
            if r != id {
                assert(v.in_room(r, c));
            }
        } else {
            assert(v.in_room(r, d));
        }
    }
    if v.no_empty_rooms_but(id) {
        assert forall|r: Seq<char>| #[trigger]
            w.rooms.contains_key(r) implies !w.rooms[r].is_empty() by {
            if r == id {
                assert(w.rooms[r].has_member(c));
            } else {
                assert(v.rooms.contains_key(r));
            }
        }
    }
}

/// A departure keeps the maps in agreement and leaves no room empty if none
/// was.
pub proof fn lemma_deregister_consistent(v: RegistryView, c: ConnectionId)
    requires
        v.consistent(),
    ensures
        v.deregister(c).consistent(),
        !v.deregister(c).is_registered(c),
        v.no_empty_rooms() ==> v.deregister(c).no_empty_rooms(),
{
    let w = v.deregister(c);
    if v.peers.contains_key(c) {
        let id = v.peers[c];
        assert(v.in_room(id, c));
        assert forall|d: ConnectionId| #[trigger] w.peers.contains_key(d) implies w.in_room(
            w.peers[d],
            d,
        ) by {
            assert(v.in_room(v.peers[d], d));
            if v.peers[d] == id {
                assert(v.rooms[id].leave(c).has_member(d));
            }
        }
        assert forall|r: Seq<char>, d: ConnectionId| #[trigger]
            w.in_room(r, d) implies w.peers.contains_key(d) && w.peers[d] == r by {
            assert(v.in_room(r, d));
        }
        if v.no_empty_rooms() {
            assert forall|r: Seq<char>| #[trigger]
                w.rooms.contains_key(r) implies !w.rooms[r].is_empty() by {
                if r != id {
                    assert(v.rooms.contains_key(r));
                }
            }
        }
    }
}

/// A change to what the members of one room were handed, which leaves the
/// members as they are, keeps the maps in agreement and empties no room.
proof fn lemma_same_members_consistent(v: RegistryView, id: Seq<char>, room: RoomView)
    requires
        v.consistent(),
        v.is_live(id),
        room.id == id,
        room.members() == v.rooms[id].members(),
    ensures
        (RegistryView { rooms: v.rooms.insert(id, room), peers: v.peers }).consistent(),
        v.no_empty_rooms() ==> (RegistryView {
            rooms: v.rooms.insert(id, room),
            peers: v.peers,
        }).no_empty_rooms(),
{
    let w = RegistryView { rooms: v.rooms.insert(id, room), peers: v.peers };
    assert forall|r: Seq<char>, d: ConnectionId| w.in_room(r, d) == v.in_room(r, d) by {
        if r == id {
            assert(room.has_member(d) == room.members().contains(d));
            assert(v.rooms[id].has_member(d) == v.rooms[id].members().contains(d));
        }
    }
    assert forall|d: ConnectionId| #[trigger] w.peers.contains_key(d) implies w.in_room(
        w.peers[d],
        d,
    ) by {
        assert(v.in_room(v.peers[d], d));
    }
    assert forall|r: Seq<char>, d: ConnectionId| #[trigger]
        w.in_room(r, d) implies w.peers.contains_key(d) && w.peers[d] == r by {
        assert(v.in_room(r, d));
    }
    if v.no_empty_rooms() {
        assert forall|r: Seq<char>| #[trigger]
            w.rooms.contains_key(r) implies !w.rooms[r].is_empty() by {
            assert(v.rooms.contains_key(r));
            let d = choose|d: ConnectionId| v.rooms[r].has_member(d);
            assert(v.in_room(r, d));
            assert(w.in_room(r, d));
        }
    }
}

/// Handing a frame to the members of a room changes no membership.
pub proof fn lemma_broadcast_consistent(
    v: RegistryView,
    id: Seq<char>,
    sender: ConnectionId,
    frame: FrameView,
)
    requires
        v.consistent(),
    ensures
        v.broadcast(id, sender, frame).consistent(),
        v.no_empty_rooms() ==> v.broadcast(id, sender, frame).no_empty_rooms(),
{
    if v.is_live(id) {
        let room = v.rooms[id].broadcast(sender, frame);
        assert(room.members() =~= v.rooms[id].members());
        lemma_same_members_consistent(v, id, room);
    }
}

/// Handing a frame to one connection changes no membership.
pub proof fn lemma_send_to_consistent(v: RegistryView, c: ConnectionId, frame: FrameView)
    requires
        v.consistent(),
    ensures
        v.send_to(c, frame).consistent(),
        v.no_empty_rooms() ==> v.send_to(c, frame).no_empty_rooms(),
{
    if v.is_registered(c) {
        let id = v.peers[c];
        assert(v.in_room(id, c));
        let room = v.rooms[id].send_to(c, frame);
        assert(room.members() =~= v.rooms[id].members());
        lemma_same_members_consistent(v, id, room);
    }
}

/// No two rooms of `rooms` have the same name.
pub open spec fn distinct_names(rooms: Seq<RoomView>) -> bool {
    forall|i: int, j: int|
        0 <= i < j < rooms.len() ==> (#[trigger] rooms[i]).id != (#[trigger] rooms[j]).id
}

/// Whether a room of `rooms` is named `id`.
pub open spec fn has_name(rooms: Seq<RoomView>, id: Seq<char>) -> bool {
    exists|i: int| 0 <= i < rooms.len() && (#[trigger] rooms[i]).id == id
}

/// Position in `rooms` of a room named `id`.
pub open spec fn position(rooms: Seq<RoomView>, id: Seq<char>) -> int {
    choose|i: int| 0 <= i < rooms.len() && (#[trigger] rooms[i]).id == id
}

/// The rooms of `rooms` by name.
pub open spec fn by_name(rooms: Seq<RoomView>) -> Map<Seq<char>, RoomView> {
    Map::new(|id: Seq<char>| has_name(rooms, id), |id: Seq<char>| rooms[position(rooms, id)])
}

/// The names of `rooms`, in order.
pub open spec fn names(rooms: Seq<RoomView>) -> Seq<Seq<char>> {
    rooms.map_values(|r: RoomView| r.id)
}

/// Among rooms with distinct names, the room at a position is the one that
/// its name stands for.
pub proof fn lemma_by_name_at(rooms: Seq<RoomView>, i: int)
    requires
        distinct_names(rooms),
        0 <= i < rooms.len(),
    ensures
        by_name(rooms).contains_key(rooms[i].id),
        by_name(rooms)[rooms[i].id] == rooms[i],
        position(rooms, rooms[i].id) == i,
{
    let p = position(rooms, rooms[i].id);
    assert(0 <= p < rooms.len() && rooms[p].id == rooms[i].id);
    if p < i {
        assert(rooms[p].id != rooms[i].id);
    } else if i < p {
        assert(rooms[i].id != rooms[p].id);
    }
}

/// Rooms with distinct names have as many names as there are rooms, and the
/// names are those that stand for a room.
pub proof fn lemma_names_of_distinct(rooms: Seq<RoomView>)
    requires
        distinct_names(rooms),
    ensures
        names(rooms).no_duplicates(),
        names(rooms).to_set() == by_name(rooms).dom(),
        by_name(rooms).dom().finite(),
        by_name(rooms).dom().len() == rooms.len(),
{
    let ids = names(rooms);
    assert forall|i: int, j: int| 0 <= i < ids.len() && 0 <= j < ids.len() && i != j implies ids[i]
        != ids[j] by {
        if i < j {
            assert(rooms[i].id != rooms[j].id);
        } else {
            assert(rooms[j].id != rooms[i].id);
        }
    }
    ids.unique_seq_to_set();
    assert forall|id: Seq<char>| ids.to_set().contains(id) == by_name(rooms).dom().contains(
        id,
    ) by {
        if ids.to_set().contains(id) {
            let i = choose|i: int| 0 <= i < ids.len() && ids[i] == id;
            assert(rooms[i].id == id);
        }
        if has_name(rooms, id) {
            let i = position(rooms, id);
            assert(ids[i] == id);
        }
    }
    assert(ids.to_set() =~= by_name(rooms).dom());
}

/// A room under a new name is one more room by name.
pub proof fn lemma_by_name_push(rooms: Seq<RoomView>, room: RoomView)
    requires
        distinct_names(rooms),
        !has_name(rooms, room.id),
    ensures
        distinct_names(rooms.push(room)),
        by_name(rooms.push(room)) == by_name(rooms).insert(room.id, room),
{
    let more = rooms.push(room);
    let expected = by_name(rooms).insert(room.id, room);
    assert forall|i: int, j: int|
        0 <= i < j < more.len() implies (#[trigger] more[i]).id != (#[trigger] more[j]).id by {
        if j == rooms.len() {
            assert(more[i] == rooms[i]);
        } else {
            assert(more[i] == rooms[i] && more[j] == rooms[j]);
        }
    }
    assert forall|id: Seq<char>| #[trigger]
        by_name(more).contains_key(id) == expected.contains_key(id) by {
        if has_name(rooms, id) {
            let i = position(rooms, id);
            assert(more[i].id == id);
        }
        if id == room.id {
            assert(more[rooms.len() as int].id == id);
        }
        if has_name(more, id) {
            let i = position(more, id);
            if i < rooms.len() {
                assert(rooms[i].id == id);
            }
        }
    }
    assert forall|id: Seq<char>| #[trigger]
        by_name(more).contains_key(id) implies by_name(more)[id] == expected[id] by {
        let i = position(more, id);
        lemma_by_name_at(more, i);
        if i < rooms.len() {
            assert(rooms[i].id == id);
            lemma_by_name_at(rooms, i);
        }
    }
    assert(by_name(more) =~= expected);
}

/// A room that is replaced by one of the same name is replaced by name.
pub proof fn lemma_by_name_update(rooms: Seq<RoomView>, i: int, room: RoomView)
    requires
        distinct_names(rooms),
        0 <= i < rooms.len(),
        room.id == rooms[i].id,
    ensures
        distinct_names(rooms.update(i, room)),
        by_name(rooms.update(i, room)) == by_name(rooms).insert(room.id, room),
{
    let next = rooms.update(i, room);
    let expected = by_name(rooms).insert(room.id, room);
    assert forall|a: int, b: int|
        0 <= a < b < next.len() implies (#[trigger] next[a]).id != (#[trigger] next[b]).id by {
        assert(next[a].id == rooms[a].id && next[b].id == rooms[b].id);
    }
    assert forall|id: Seq<char>| #[trigger]
        by_name(next).contains_key(id) == expected.contains_key(id) by {
        if has_name(rooms, id) {
            let k = position(rooms, id);
            assert(next[k].id == id);
        }
        if has_name(next, id) {
            let k = position(next, id);
            assert(rooms[k].id == id);
        }
    }
    assert forall|id: Seq<char>| #[trigger]
        by_name(next).contains_key(id) implies by_name(next)[id] == expected[id] by {
        let k = position(next, id);
        lemma_by_name_at(next, k);
        assert(rooms[k].id == id);
        lemma_by_name_at(rooms, k);
    }
    assert(by_name(next) =~= expected);
}

/// A room that is taken out is taken out by name.
pub proof fn lemma_by_name_remove(rooms: Seq<RoomView>, i: int)
    requires
        distinct_names(rooms),
        0 <= i < rooms.len(),
    ensures
        distinct_names(rooms.remove(i)),
        by_name(rooms.remove(i)) == by_name(rooms).remove(rooms[i].id),
{
    let rest = rooms.remove(i);
    let expected = by_name(rooms).remove(rooms[i].id);
    assert forall|a: int, b: int|
        0 <= a < b < rest.len() implies (#[trigger] rest[a]).id != (#[trigger] rest[b]).id by {
        let a0 = if a < i {
            a
        } else {
            a + 1
        };
        let b0 = if b < i {
            b
        } else {
            b + 1
        };
        assert(rest[a] == rooms[a0] && rest[b] == rooms[b0]);
    }
    assert forall|id: Seq<char>| #[trigger]
        by_name(rest).contains_key(id) == expected.contains_key(id) by {
        if has_name(rooms, id) && id != rooms[i].id {
            let k = position(rooms, id);
            let k1 = if k < i {
                k
            } else {
                k - 1
            };
            assert(rest[k1].id == id);
        }
        if has_name(rest, id) {
            let k = position(rest, id);
            let k0 = if k < i {
                k
            } else {
                k + 1
            };
            assert(rooms[k0].id == id);
            if k0 < i {
                assert(rooms[k0].id != rooms[i].id);
            } else {
                assert(rooms[i].id != rooms[k0].id);
            }
        }
    }
    assert forall|id: Seq<char>| #[trigger]
        by_name(rest).contains_key(id) implies by_name(rest)[id] == expected[id] by {
        let k = position(rest, id);
        lemma_by_name_at(rest, k);
        let k0 = if k < i {
            k
        } else {
            k + 1
        };
        assert(rooms[k0].id == id);
        lemma_by_name_at(rooms, k0);
    }
    assert(by_name(rest) =~= expected);
}

} // verus!
