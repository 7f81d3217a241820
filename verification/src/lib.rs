//! A single-process message relay: connections join named rooms, and every
//! frame that a member sends is handed to the other members of its room.
//!
//! The relay is a registry of rooms ([`room_context`]) that the connections
//! share. A connection goes through the steps of [`ws_handler`]: with its
//! first frame it asks for a room ([`wire`] says what a request looks like),
//! the registry puts it in one, its later frames are relayed by its room
//! ([`room`]), and when it ends it is taken out again; a room whose last
//! member leaves is erased. New rooms are named after words drawn at random
//! ([`word_chooser`]).
//!
//! Everything is stated over mathematical models of the room, the registry
//! ([`registry_model`]) and the frames ([`frame`]); [`laws`] holds what
//! follows for every course that connections can take. The transport is not
//! part of the library: what it reports comes in as events, and what is to
//! be sent goes out through the channels that the connections bring along
//! ([`client`]).

pub mod client;
pub mod frame;
pub mod laws;
pub mod registry_model;
pub mod room;
pub mod room_context;
pub mod strings;
pub mod wire;
pub mod word_chooser;
pub mod ws_handler;
