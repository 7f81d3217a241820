//! The registry: the table of live rooms and the record of which room every
//! registered connection belongs to. Each method is one step that no other
//! step interleaves with; whoever shares a registry among tasks holds a lock
//! for the length of one call.

use crate::client::{ConnectionId, RoomClient};
use crate::frame::Frame;
use crate::registry_model::{
    by_name, distinct_names, has_name, lemma_broadcast_consistent, lemma_by_name_at,
    lemma_by_name_push, lemma_by_name_remove, lemma_by_name_update, lemma_create_consistent,
    lemma_deregister_consistent, lemma_names_of_distinct, lemma_register_consistent,
    lemma_send_to_consistent, outcome_view, RegistryView,
};
use crate::room::{Room, RoomError, RoomID, RoomRequest, RoomRequestView, RoomView};
use crate::word_chooser::{draw_candidates, WordList};
use std::collections::HashMap;
use vstd::pervasive::unreached;
use vstd::prelude::*;
use vstd::std_specs::hash::*;

verus! {

/// How often a generated name that collides with a live room is replaced by
/// another draw before the request fails. A request for a new room draws one
/// name more than this.
pub const NAME_RETRIES: usize = 10;

/// What a departure did to the room that was left.
#[derive(Debug, PartialEq, Eq)]
pub enum Departure {
    /// The connection was not registered.
    NotMember,
    /// The connection was the last member; the room is gone.
    RoomClosed(RoomID),
    /// Other members remain in the room.
    RoomRemains(RoomID),
}

/// The registry of rooms and connections.
///
/// Rooms are kept in a list and found by name; no two of them have the same
/// name. The room of a connection is looked up by the connection's handle.
pub struct RoomContext {
    peer_map: HashMap<ConnectionId, RoomID>,
    room_map: Vec<Room>,
    words: WordList,
}

impl View for RoomContext {
    type V = RegistryView;

    closed spec fn view(&self) -> RegistryView {
        RegistryView {
            rooms: by_name(self.room_views()),
            peers: self.peer_map@.map_values(|id: RoomID| id@),
        }
    }
}

impl RoomContext {
    /// The models of the rooms in the order in which they are stored.
    pub closed spec fn room_views(&self) -> Seq<RoomView> {
        self.room_map@.map_values(|r: Room| r@)
    }

    /// The words that new rooms are named after.
    pub closed spec fn words(&self) -> Seq<Seq<char>> {
        self.words@
    }

    /// No two stored rooms share a name, and the two maps agree.
    pub closed spec fn wf(&self) -> bool {
        &&& distinct_names(self.room_views())
        &&& self@.consistent()
    }

    /// What validity gives: the stored rooms have distinct names, they are
    /// exactly the live rooms, and the two maps agree.
    pub proof fn lemma_wf(&self)
        requires
            self.wf(),
        ensures
            distinct_names(self.room_views()),
            self@.rooms == by_name(self.room_views()),
            self@.consistent(),
    {
    }

    /// No two live rooms have the same name: any two rooms that a valid
    /// registry stores differ in their names, and each is the live room of
    /// its name.
    pub proof fn law_room_names_unique(&self, i: int, j: int)
        requires
            self.wf(),
            0 <= i < self.room_views().len(),
            0 <= j < self.room_views().len(),
            i != j,
        ensures
            self.room_views()[i].id != self.room_views()[j].id,
            self@.is_live(self.room_views()[i].id),
            self@.rooms[self.room_views()[i].id] == self.room_views()[i],
    {
        lemma_by_name_at(self.room_views(), i);
        if i < j {
            assert(self.room_views()[i].id != self.room_views()[j].id);
        } else {
            assert(self.room_views()[j].id != self.room_views()[i].id);
        }
    }

    /// A registry without rooms or connections that names new rooms after
    /// `words`.
    pub fn new(words: WordList) -> (context: RoomContext)
        ensures
            context.wf(),
            context@ == RegistryView::empty(),
            context.words() == words@,
    {
        let context = RoomContext { peer_map: HashMap::new(), room_map: Vec::new(), words };
        proof {
            assert(context@.rooms =~= Map::empty());
            assert(context@.peers =~= Map::empty());
        }
        context
    }

    /// Where the room named `id` is stored.
    fn find_room(&self, id: &str) -> (slot: Option<usize>)
        requires
            distinct_names(self.room_views()),
        ensures
            match slot {
                Some(i) => {
                    &&& i < self.room_map.len()
                    &&& self.room_views()[i as int].id == id@
                    &&& self@.rooms.contains_key(id@)
                    &&& self@.rooms[id@] == self.room_views()[i as int]
                },
                None => !self@.rooms.contains_key(id@),
            },
    {
        let mut i: usize = 0;
        while i < self.room_map.len()
            invariant
                i <= self.room_map.len(),
                distinct_names(self.room_views()),
                forall|k: int| 0 <= k < i ==> (#[trigger] self.room_views()[k]).id != id@,
            decreases self.room_map.len() - i,
        {
            if *self.room_map[i].room_id().as_str() == *id {
                proof {
                    lemma_by_name_at(self.room_views(), i as int);
                }
                return Some(i);
            }
            i = i + 1;
        }
        None
    }

    /// Whether a room named `id` is live.
    pub fn contains_room(&self, id: &str) -> (live: bool)
        requires
            self.wf(),
        ensures
            live == self@.is_live(id@),
    {
        self.find_room(id).is_some()
    }

    /// Number of live rooms.
    pub fn room_count(&self) -> (count: usize)
        requires
            self.wf(),
        ensures
            count == self@.rooms.len(),
            self@.rooms.dom().finite(),
    {
        proof {
            lemma_names_of_distinct(self.room_views());
        }
        self.room_map.len()
    }

    /// Number of members of the room `id`, if it is live.
    pub fn member_count(&self, id: &str) -> (count: Option<usize>)
        requires
            self.wf(),
        ensures
            match count {
                Some(n) => {
                    &&& self@.is_live(id@)
                    &&& n == self@.rooms[id@].members().len()
                    &&& self@.rooms[id@].members().finite()
                },
                None => !self@.is_live(id@),
            },
    {
        match self.find_room(id) {
            Some(i) => Some(self.room_map[i].len()),
            None => None,
        }
    }

    /// The room that the connection `conn` is registered in. A connection is
    /// registered in a room exactly when it is a member of that room.
    pub fn get_room_by_connection(&self, conn: ConnectionId) -> (room: Option<RoomID>)
        requires
            self.wf(),
        ensures
            match room {
                Some(id) => {
                    &&& self@.is_registered(conn)
                    &&& id@ == self@.peers[conn]
                    &&& self@.in_room(id@, conn)
                },
                None => {
                    &&& !self@.is_registered(conn)
                    &&& forall|id: Seq<char>| !self@.in_room(id, conn)
                },
            },
    {
        broadcast use group_hash_axioms;

        match self.peer_map.get(&conn) {
            Some(id) => Some(id.clone()),
            None => {
                assert forall|id: Seq<char>| !self@.in_room(id, conn) by {
                    if self@.in_room(id, conn) {
                        assert(self@.peers.contains_key(conn));
                    }
                }
                None
            },
        }
    }

    /// Creates an empty room named `id` unless a room of that name is live.
    pub fn create_room(&mut self, id: RoomID) -> (created: Result<RoomID, RoomError>)
        requires
            old(self).wf(),
        ensures
            final(self).wf(),
            final(self).words() == old(self).words(),
            old(self)@.is_live(id@) ==> {
                &&& created == Err::<RoomID, RoomError>(RoomError::AlreadyExists)
                &&& final(self)@ == old(self)@
            },
            !old(self)@.is_live(id@) ==> {
                &&& created == Ok::<RoomID, RoomError>(id)
                &&& final(self)@ == old(self)@.create(id@)
            },
    {
        if self.find_room(id.as_str()).is_some() {
            return Err(RoomError::AlreadyExists);
        }
        let room = Room::new(id.clone());
        proof {
            let stored = self.room_map@.push(room).map_values(|r: Room| r@);
            assert(!has_name(self.room_views(), room@.id));
            lemma_by_name_push(self.room_views(), room@);
            assert(stored == self.room_views().push(room@));
            lemma_create_consistent(self@, id@);
        }
        self.room_map.push(room);
        Ok(id)
    }

    /// The first of `candidates` that names no live room.
    pub fn first_free(&self, candidates: &Vec<String>) -> (slot: Option<usize>)
        requires
            self.wf(),
        ensures
            match slot {
                Some(i) => {
                    &&& i < candidates@.len()
                    &&& !self@.is_live(candidates@[i as int]@)
                    &&& forall|k: int| 0 <= k < i ==> self@.is_live((#[trigger] candidates@[k])@)
                },
                None => forall|k: int|
                    0 <= k < candidates@.len() ==> self@.is_live((#[trigger] candidates@[k])@),
            },
    {
        let mut i: usize = 0;
        while i < candidates.len()
            invariant
                i <= candidates@.len(),
                self.wf(),
                forall|k: int| 0 <= k < i ==> self@.is_live((#[trigger] candidates@[k])@),
            decreases candidates@.len() - i,
        {
            if !self.contains_room(candidates[i].as_str()) {
                return Some(i);
            }
            i = i + 1;
        }
        None
    }

    /// Creates an empty room under the first of `candidates` that names no
    /// live room. If every candidate is taken, no room is created.
    pub fn create_first_free(&mut self, candidates: Vec<String>) -> (created: Result<
        RoomID,
        RoomError,
    >)
        requires
            old(self).wf(),
        ensures
            final(self).wf(),
            final(self).words() == old(self).words(),
            match created {
                Ok(r) => {
                    &&& final(self)@ == old(self)@.create(r@)
                    &&& !old(self)@.is_live(r@)
                    &&& exists|i: int|
                        {
                            &&& 0 <= i < candidates@.len()
                            &&& r@ == (#[trigger] candidates@[i])@
                            &&& forall|k: int|
                                0 <= k < i ==> old(self)@.is_live((#[trigger] candidates@[k])@)
                        }
                },
                Err(e) => {
                    &&& e == RoomError::NameExhausted
                    &&& final(self)@ == old(self)@
                    &&& forall|k: int|
                        0 <= k < candidates@.len() ==> old(self)@.is_live(
                            (#[trigger] candidates@[k])@,
                        )
                },
            },
    {
        match self.first_free(&candidates) {
            Some(i) => self.create_room(candidates[i].clone()),
            None => Err(RoomError::NameExhausted),
        }
    }

    /// Resolves a request to the name of a live room.
    ///
    /// `JoinRoom` names a room that must be live. `JoinWithCode` creates the
    /// room it names, which must not be live. `NewRoom` draws one name and
    /// [`NAME_RETRIES`] more and creates the room under the first of them
    /// that is free; if every draw is taken the request fails and no room is
    /// created.
    pub fn get_room(&mut self, init_type: RoomRequest) -> (resolved: Result<RoomID, RoomError>)
        requires
            old(self).wf(),
        ensures
            final(self).wf(),
            final(self).words() == old(self).words(),
            match init_type@ {
                RoomRequestView::JoinRoom(id) => {
                    &&& final(self)@ == old(self)@
                    &&& if old(self)@.is_live(id) {
                        resolved matches Ok(r) && r@ == id
                    } else {
                        resolved == Err::<RoomID, RoomError>(RoomError::NotFound)
                    }
                },
                RoomRequestView::JoinWithCode(id) => if old(self)@.is_live(id) {
                    &&& resolved == Err::<RoomID, RoomError>(RoomError::AlreadyExists)
                    &&& final(self)@ == old(self)@
                } else {
                    &&& resolved matches Ok(r)
                    &&& r@ == id
                    &&& final(self)@ == old(self)@.create(id)
                },
                RoomRequestView::NewRoom => match resolved {
                    Ok(r) => {
                        &&& !old(self)@.is_live(r@)
                        &&& old(self).words().contains(r@)
                        &&& r@.len() > 0
                        &&& final(self)@ == old(self)@.create(r@)
                    },
                    Err(e) => {
                        &&& e == RoomError::NameExhausted
                        &&& final(self)@ == old(self)@
                        &&& exists|w: Seq<char>|
                            old(self).words().contains(w) && old(self)@.is_live(w)
                    },
                },
            },
    {
        match init_type {
            RoomRequest::NewRoom => {
                let candidates = draw_candidates(&self.words, NAME_RETRIES + 1);
                proof {
                    assert(self.words().contains(candidates@[0]@));
                }
                self.create_first_free(candidates)
            },
            RoomRequest::JoinRoom(id) => {
                if self.contains_room(id.as_str()) {
                    Ok(id)
                } else {
                    Err(RoomError::NotFound)
                }
            },
            RoomRequest::JoinWithCode(id) => self.create_room(id),
        }
    }

    /// Makes `client` a member of the live room `room`. The connection is
    /// added to the room and recorded for it in one step.
    pub fn register_member(&mut self, client: RoomClient, room: &str) -> (registered: Result<
        (),
        RoomError,
    >)
        requires
            old(self).wf(),
        ensures
            final(self).wf(),
            final(self).words() == old(self).words(),
            if old(self)@.is_registered(client.id) {
                &&& registered == Err::<(), RoomError>(RoomError::AlreadyExists)
                &&& final(self)@ == old(self)@
            } else if !old(self)@.is_live(room@) {
                &&& registered == Err::<(), RoomError>(RoomError::NotFound)
                &&& final(self)@ == old(self)@
            } else {
                &&& registered is Ok
                &&& final(self)@ == old(self)@.register(client.id, client.send, room@)
            },
    {
        broadcast use group_hash_axioms;

        if self.peer_map.contains_key(&client.id) {
            return Err(RoomError::AlreadyExists);
        }
        match self.find_room(room) {
            None => Err(RoomError::NotFound),
            Some(i) => {
                let id = client.id;
                let ghost channel = client.send;
                let ghost before = self.room_views();
                proof {
                    if before[i as int].has_member(id) {
                        assert(self@.in_room(room@, id));
                    }
                }
                let _ = self.room_map[i].add_client(client);
                let name = self.room_map[i].room_id().clone();
                self.peer_map.insert(id, name);
                proof {
                    let joined = before[i as int].join(id, channel);
                    assert(self.room_views() == before.update(i as int, joined));
                    lemma_by_name_update(before, i as int, joined);
                    assert(self@.peers =~= old(self)@.peers.insert(id, room@));
                    lemma_register_consistent(old(self)@, id, channel, room@);
                }
                Ok(())
            },
        }
    }

    /// Resolves `init_type` and makes `client` a member of the room in one
    /// step, so that nobody sees the room without its first member. A
    /// connection that is already registered is refused before any room is
    /// looked up or created.
    pub fn init_client(&mut self, client: RoomClient, init_type: RoomRequest) -> (joined: Result<
        RoomID,
        RoomError,
    >)
        requires
            old(self).wf(),
        ensures
            final(self).wf(),
            final(self).words() == old(self).words(),
            old(self)@.no_empty_rooms() ==> final(self)@.no_empty_rooms(),
            old(self)@.answers(old(self).words(), client.id, init_type@, outcome_view(joined)),
            match joined {
                Ok(r) => final(self)@ == old(self)@.enter(client.id, client.send, r@),
                Err(_) => final(self)@ == old(self)@,
            },
    {
        broadcast use group_hash_axioms;

        if self.peer_map.contains_key(&client.id) {
            return Err(RoomError::AlreadyExists);
        }
        match self.get_room(init_type) {
            Err(e) => Err(e),
            Ok(room) => {
                let ghost resolved = self@;
                let ghost id = client.id;
                let ghost channel = client.send;
                let _ = self.register_member(client, room.as_str());
                proof {
                    assert(resolved.peers == old(self)@.peers);
                    assert(resolved.is_live(room@));
                    if old(self)@.no_empty_rooms() {
                        assert forall|r: Seq<char>| #[trigger]
                            resolved.rooms.contains_key(r) && r
                                != room@ implies !resolved.rooms[r].is_empty() by {
                            assert(old(self)@.rooms.contains_key(r));
                        }
                        assert(resolved.no_empty_rooms_but(room@));
                    }
                    lemma_register_consistent(resolved, id, channel, room@);
                }
                Ok(room)
            },
        }
    }

    /// Removes the connection `conn` from its room and from the record of
    /// connections; the room is erased in the same step if `conn` was its
    /// last member.
    pub fn deregister_member(&mut self, conn: ConnectionId) -> (departure: Departure)
        requires
            old(self).wf(),
        ensures
            final(self).wf(),
            final(self).words() == old(self).words(),
            final(self)@ == old(self)@.deregister(conn),
            old(self)@.no_empty_rooms() ==> final(self)@.no_empty_rooms(),
            match departure {
                Departure::NotMember => !old(self)@.is_registered(conn),
                Departure::RoomClosed(id) => {
                    &&& old(self)@.is_registered(conn)
                    &&& id@ == old(self)@.peers[conn]
                    &&& old(self)@.is_last_member(conn)
                },
                Departure::RoomRemains(id) => {
                    &&& old(self)@.is_registered(conn)
                    &&& id@ == old(self)@.peers[conn]
                    &&& !old(self)@.is_last_member(conn)
                },
            },
    {
        broadcast use group_hash_axioms;

        let room = match self.peer_map.get(&conn) {
            Some(id) => id.clone(),
            None => {
                return Departure::NotMember;
            },
        };
        proof {
            assert(self@.peers.contains_key(conn) && self@.peers[conn] == room@);
            assert(self@.in_room(self@.peers[conn], conn));
            lemma_deregister_consistent(self@, conn);
        }
        match self.find_room(room.as_str()) {
            None => unreached(),
            Some(i) => {
                let ghost before = self.room_views();
                self.peer_map.remove(&conn);
                let _ = self.room_map[i].drop_client(&conn);
                let ghost left = before[i as int].leave(conn);
                proof {
                    assert(self.room_views() == before.update(i as int, left));
                    assert(self@.peers =~= old(self)@.peers.remove(conn));
                }
                if self.room_map[i].is_empty() {
                    let _ = self.room_map.remove(i);
                    proof {
                        assert(self.room_views() == before.remove(i as int));
                        lemma_by_name_remove(before, i as int);
                    }
                    Departure::RoomClosed(room)
                } else {
                    proof {
                        lemma_by_name_update(before, i as int, left);
                    }
                    Departure::RoomRemains(room)
                }
            },
        }
    }

    /// Hands a copy of `frame` to every member of the room `room` except
    /// `sender`, and reports whether such a room is live.
    pub fn broadcast(&mut self, room: &str, sender: ConnectionId, frame: &Frame) -> (live: bool)
        requires
            old(self).wf(),
        ensures
            final(self).wf(),
            final(self).words() == old(self).words(),
            final(self)@ == old(self)@.broadcast(room@, sender, frame@),
            old(self)@.no_empty_rooms() ==> final(self)@.no_empty_rooms(),
            live == old(self)@.is_live(room@),
    {
        proof {
            lemma_broadcast_consistent(self@, room@, sender, frame@);
        }
        match self.find_room(room) {
            None => false,
            Some(i) => {
                let ghost before = self.room_views();
                self.room_map[i].broadcast(sender, frame);
                proof {
                    let after = before[i as int].broadcast(sender, frame@);
                    assert(self.room_views() == before.update(i as int, after));
                    lemma_by_name_update(before, i as int, after);
                }
                true
            },
        }
    }

    /// Hands `frame` to the registered connection `member` alone and reports
    /// whether its channel took it.
    pub fn send_to(&mut self, member: ConnectionId, frame: Frame) -> (accepted: bool)
        requires
            old(self).wf(),
        ensures
            final(self).wf(),
            final(self).words() == old(self).words(),
            final(self)@ == old(self)@.send_to(member, frame@),
            old(self)@.no_empty_rooms() ==> final(self)@.no_empty_rooms(),
            accepted ==> old(self)@.is_registered(member),
    {
        proof {
            lemma_send_to_consistent(self@, member, frame@);
        }
        match self.get_room_by_connection(member) {
            None => false,
            Some(room) => match self.find_room(room.as_str()) {
                None => false,
                Some(i) => {
                    let ghost before = self.room_views();
                    let ghost content = frame@;
                    let accepted = self.room_map[i].send_to(member, frame);
                    proof {
                        let after = before[i as int].send_to(member, content);
                        assert(self.room_views() == before.update(i as int, after));
                        lemma_by_name_update(before, i as int, after);
                    }
                    accepted
                },
            },
        }
    }
}

} // verus!
