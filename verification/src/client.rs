//! A connection as the rooms see it: a handle, the peer's address as text,
//! and the sending half of the connection's outbound channel.

use crate::frame::Frame;
use futures_channel::mpsc::UnboundedSender;
use vstd::prelude::*;

verus! {

/// `futures_channel::mpsc::UnboundedSender`, the sending half of an unbounded
/// channel. The verifier sees nothing inside a value of this type; the
/// library only stores such values and hands frames to them.
#[verifier::external_type_specification]
#[verifier::external_body]
#[verifier::reject_recursive_types(T)]
pub struct ExUnboundedSender<T>(UnboundedSender<T>);

/// Handle of a live connection. The listener gives every accepted
/// connection a handle that no other live connection has.
pub type ConnectionId = u64;

/// Sending half of a connection's outbound channel. The connection's own
/// handler holds the receiving half and drains it in order.
pub type Tx = UnboundedSender<Frame>;

/// A peer that wants to join a room.
pub struct RoomClient {
    /// Handle under which the connection is registered.
    pub id: ConnectionId,
    /// The peer's transport address as text; other members are told it when
    /// the peer joins or leaves.
    pub address: String,
    /// Where frames addressed to this peer are put.
    pub send: Tx,
}

/// Hands `frame` to `UnboundedSender::unbounded_send` on `channel` and reports
/// whether the channel took it. The channel refuses a frame once its receiving
/// half is closed or dropped, which depends on what the receiving task has
/// done, so nothing is claimed about the result. The call aborts only when
/// the channel already holds more messages than its counter can represent.
#[verifier::external_body]
pub(crate) fn offer(channel: &Tx, frame: Frame) -> (accepted: bool) {
    channel.unbounded_send(frame).is_ok()
}

} // verus!
