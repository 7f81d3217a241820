//! The wire format: JSON text for requests, confirmations and membership
//! events, and the close frames that end a failed handshake.
//!
//! A request is the JSON string `"NewRoom"`, or a JSON object with the one
//! member `"NewRoom": null`, `"JoinRoom": "<name>"` or
//! `"JoinWithCode": "<name>"`. JSON itself is read and written by
//! `serde_json`; what is decided here is which JSON documents are requests.
//! An object is read into a map, so of a key that it repeats the last value
//! counts.

use crate::frame::{CloseFrame, CloseView, Frame, FrameView};
use crate::room::{RoomRequest, RoomRequestView};
use std::collections::BTreeMap;
use vstd::prelude::*;

verus! {

/// The JSON string literal, quotes and escapes and all, that `serde_json`
/// writes for the text `s`; the empty text if it cannot write it.
pub uninterp spec fn json_string_literal(s: Seq<char>) -> Seq<char>;

/// The text that `serde_json` reads from `text` if `text` is one JSON
/// string with nothing but white space around it.
pub uninterp spec fn json_string_value(text: Seq<char>) -> Option<Seq<char>>;

/// The members that `serde_json` reads from `text` if `text` is one JSON
/// object whose values are all strings or `null`: key and value of each, in
/// the order of the keys.
pub uninterp spec fn json_object_members(text: Seq<char>) -> Option<
    Seq<(Seq<char>, Option<Seq<char>>)>,
>;

/// Calls `serde_json::to_string` on a string slice. The result is a function
/// of the text alone; the contract only gives it its name. Should the call
/// report an error, the wrapper hands back the empty text.
#[verifier::external_body]
fn quote(s: &str) -> (literal: String)
    ensures
        literal@ == json_string_literal(s@),
{
    serde_json::to_string(s).unwrap_or_default()
}

/// Calls `serde_json::from_str` for a `String`. The result is a function of
/// the text alone; the contract only gives it its name. An error becomes
/// `None`.
#[verifier::external_body]
fn parse_string(text: &str) -> (value: Option<String>)
    ensures
        value.deep_view() == json_string_value(text@),
{
    serde_json::from_str::<String>(text).ok()
}

/// Calls `serde_json::from_str` for a `BTreeMap<String, Option<String>>` and
/// lists the map's entries, which a `BTreeMap` yields in the order of its
/// keys. The result is a function of the text alone; the contract only gives
/// it its name. An error becomes `None`.
#[verifier::external_body]
fn parse_members(text: &str) -> (members: Option<Vec<(String, Option<String>)>>)
    ensures
        members.deep_view() == json_object_members(text@),
{
    match serde_json::from_str::<BTreeMap<String, Option<String>>>(text) {
        Ok(map) => Some(map.into_iter().collect()),
        Err(_) => None,
    }
}

/// The request that an object member stands for.
pub open spec fn member_request(key: Seq<char>, value: Option<Seq<char>>) -> Option<
    RoomRequestView,
> {
    match value {
        None => if key == "NewRoom"@ {
            Some(RoomRequestView::NewRoom)
        } else {
            None
        },
        Some(name) => if key == "JoinRoom"@ {
            Some(RoomRequestView::JoinRoom(name))
        } else if key == "JoinWithCode"@ {
            Some(RoomRequestView::JoinWithCode(name))
        } else {
            None
        },
    }
}

/// The request that a document stands for, given what it holds when read as
/// a JSON string (`bare`) and as a JSON object (`members`).
pub open spec fn request_of(
    bare: Option<Seq<char>>,
    members: Option<Seq<(Seq<char>, Option<Seq<char>>)>>,
) -> Option<RoomRequestView> {
    match bare {
        Some(word) => if word == "NewRoom"@ {
            Some(RoomRequestView::NewRoom)
        } else {
            None
        },
        None => match members {
            Some(list) => if list.len() == 1 {
                member_request(list[0].0, list[0].1)
            } else {
                None
            },
            None => None,
        },
    }
}

/// The request that `text` stands for, if it is one.
pub open spec fn decoded(text: Seq<char>) -> Option<RoomRequestView> {
    request_of(json_string_value(text), json_object_members(text))
}

/// The model of a request that may be missing.
pub open spec fn request_view(request: Option<RoomRequest>) -> Option<RoomRequestView> {
    match request {
        Some(r) => Some(r@),
        None => None,
    }
}

/// The request that a document stands for, given what it holds when read as
/// a JSON string and as a JSON object.
pub fn request_from_parts(
    bare: Option<String>,
    members: Option<Vec<(String, Option<String>)>>,
) -> (request: Option<RoomRequest>)
    ensures
        request_view(request) == request_of(bare.deep_view(), members.deep_view()),
{
    match bare {
        Some(word) => {
            if *word.as_str() == *"NewRoom" {
                Some(RoomRequest::NewRoom)
            } else {
                None
            }
        },
        None => match members {
            Some(list) => {
                let ghost model = list.deep_view();
                let mut list = list;
                if list.len() != 1 {
                    return None;
                }
                match list.pop() {
                    Some((key, value)) => {
                        assert(key@ == model[0].0);
                        assert(value.deep_view() == model[0].1);
                        match value {
                            None => {
                                if *key.as_str() == *"NewRoom" {
                                    Some(RoomRequest::NewRoom)
                                } else {
                                    None
                                }
                            },
                            Some(name) => {
                                if *key.as_str() == *"JoinRoom" {
                                    Some(RoomRequest::JoinRoom(name))
                                } else if *key.as_str() == *"JoinWithCode" {
                                    Some(RoomRequest::JoinWithCode(name))
                                } else {
                                    None
                                }
                            },
                        }
                    },
                    None => None,
                }
            },
            None => None,
        },
    }
}

/// Reads a request from the text of a frame.
pub fn decode_request(text: &str) -> (request: Option<RoomRequest>)
    ensures
        request_view(request) == decoded(text@),
{
    match parse_string(text) {
        Some(word) => request_from_parts(Some(word), None),
        None => request_from_parts(None, parse_members(text)),
    }
}

/// The JSON object with the one member `key`, whose value is the string
/// `value`.
pub open spec fn tagged(key: Seq<char>, value: Seq<char>) -> Seq<char> {
    seq!['{'] + json_string_literal(key) + seq![':'] + json_string_literal(value) + seq!['}']
}

/// The JSON text of a request.
pub open spec fn encoded(request: RoomRequestView) -> Seq<char> {
    match request {
        RoomRequestView::NewRoom => json_string_literal("NewRoom"@),
        RoomRequestView::JoinRoom(name) => tagged("JoinRoom"@, name),
        RoomRequestView::JoinWithCode(name) => tagged("JoinWithCode"@, name),
    }
}

/// Writes the JSON object with the one member `key`, whose value is the
/// string `value`.
pub fn encode_tagged(key: &str, value: &str) -> (text: String)
    ensures
        text@ == tagged(key@, value@),
{
    let mut text = String::new();
    text.push('{');
    text.append(quote(key).as_str());
    text.push(':');
    text.append(quote(value).as_str());
    text.push('}');
    assert(text@ == tagged(key@, value@));
    text
}

/// Writes a request as JSON text.
pub fn encode_request(request: &RoomRequest) -> (text: String)
    ensures
        text@ == encoded(request@),
{
    match request {
        RoomRequest::NewRoom => quote("NewRoom"),
        RoomRequest::JoinRoom(name) => encode_tagged("JoinRoom", name.as_str()),
        RoomRequest::JoinWithCode(name) => encode_tagged("JoinWithCode", name.as_str()),
    }
}

/// The frame that tells a connection which room it has joined: the request
/// to join that room, as text.
pub open spec fn confirmation_frame(room: Seq<char>) -> FrameView {
    FrameView::Text(encoded(RoomRequestView::JoinRoom(room)))
}

/// The frame that tells the members of a room that the peer at `address`
/// has joined.
pub open spec fn user_joined_frame(address: Seq<char>) -> FrameView {
    FrameView::Text(tagged("ip_joined"@, address))
}

/// The frame that tells the members of a room that the peer at `address`
/// has left.
pub open spec fn user_left_frame(address: Seq<char>) -> FrameView {
    FrameView::Text(tagged("ip_left"@, address))
}

/// Builds the frame that tells a connection which room it has joined.
pub fn confirmation(room: &str) -> (frame: Frame)
    ensures
        frame@ == confirmation_frame(room@),
{
    Frame::Text(encode_tagged("JoinRoom", room))
}

/// Builds the frame that announces the peer at `address` to a room.
pub fn user_joined(address: &str) -> (frame: Frame)
    ensures
        frame@ == user_joined_frame(address@),
{
    Frame::Text(encode_tagged("ip_joined", address))
}

/// Builds the frame that tells a room that the peer at `address` has left.
pub fn user_left(address: &str) -> (frame: Frame)
    ensures
        frame@ == user_left_frame(address@),
{
    Frame::Text(encode_tagged("ip_left", address))
}

/// Close code for a first frame that is no request.
pub const CLOSE_PROTOCOL: u16 = 1002;

/// Close code for a request that names a room it cannot have.
pub const CLOSE_POLICY: u16 = 1008;

/// Close code for a request that the server could not serve.
pub const CLOSE_ERROR: u16 = 1011;

/// Builds a close frame.
pub fn close_frame(code: u16, reason: &str) -> (frame: Frame)
    ensures
        frame@ == FrameView::Close(Some(CloseView { code, reason: reason@ })),
{
    Frame::Close(Some(CloseFrame { code, reason: String::from_str(reason) }))
}

} // verus!
