use futures_channel::mpsc::{unbounded, UnboundedReceiver};
use room_relay::client::{ConnectionId, RoomClient};
use room_relay::frame::{CloseFrame, Frame};
use room_relay::room::{Room, RoomError};

fn client(id: ConnectionId) -> (RoomClient, UnboundedReceiver<Frame>) {
    let (send, receive) = unbounded();
    (RoomClient { id, address: format!("127.0.0.1:{}", 4000 + id), send }, receive)
}

fn text(s: &str) -> Frame {
    Frame::Text(s.to_string())
}

#[test]
fn new_room_is_empty() {
    let room = Room::new("lobby".to_string());
    assert_eq!(room.room_id(), "lobby");
    assert!(room.is_empty());
    assert_eq!(room.len(), 0);
    assert!(!room.contains(1));
}

#[test]
fn add_client_makes_a_member() {
    let mut room = Room::new("lobby".to_string());
    let (x, _rx) = client(1);
    assert_eq!(room.add_client(x), None);
    assert!(!room.is_empty());
    assert_eq!(room.len(), 1);
    assert!(room.contains(1));
    assert!(!room.contains(2));
}

#[test]
fn second_join_is_refused_and_keeps_the_first_channel() {
    let mut room = Room::new("lobby".to_string());
    let (x, mut first_rx) = client(1);
    let (again, mut second_rx) = client(1);
    let (y, _y_rx) = client(2);
    assert_eq!(room.add_client(x), None);
    assert_eq!(room.add_client(y), None);
    assert_eq!(room.add_client(again), Some(RoomError::AlreadyExists));
    assert_eq!(room.len(), 2);

    room.broadcast(2, &text("to the first channel"));
    assert_eq!(first_rx.try_recv().ok(), Some(text("to the first channel")));
    assert!(second_rx.try_recv().is_err());
}

#[test]
fn drop_client_removes_once() {
    let mut room = Room::new("lobby".to_string());
    let (x, _rx) = client(1);
    assert_eq!(room.add_client(x), None);
    assert_eq!(room.drop_client(&1), None);
    assert!(room.is_empty());
    assert_eq!(room.drop_client(&1), Some(RoomError::NotFound));
    assert_eq!(room.drop_client(&7), Some(RoomError::NotFound));
}

#[test]
fn broadcast_skips_the_sender() {
    let mut room = Room::new("lobby".to_string());
    let (x, mut x_rx) = client(1);
    let (y, mut y_rx) = client(2);
    let (z, mut z_rx) = client(3);
    room.add_client(x);
    room.add_client(y);
    room.add_client(z);

    room.broadcast(1, &text("hello"));

    assert!(x_rx.try_recv().is_err());
    assert_eq!(y_rx.try_recv().ok(), Some(text("hello")));
    assert!(y_rx.try_recv().is_err());
    assert_eq!(z_rx.try_recv().ok(), Some(text("hello")));
    assert!(z_rx.try_recv().is_err());
}

#[test]
fn broadcast_from_a_stranger_reaches_every_member() {
    let mut room = Room::new("lobby".to_string());
    let (x, mut x_rx) = client(1);
    let (y, mut y_rx) = client(2);
    room.add_client(x);
    room.add_client(y);

    room.broadcast(9, &text("notice"));

    assert_eq!(x_rx.try_recv().ok(), Some(text("notice")));
    assert_eq!(y_rx.try_recv().ok(), Some(text("notice")));
}

#[test]
fn frames_of_one_sender_arrive_in_send_order() {
    let mut room = Room::new("lobby".to_string());
    let (x, mut x_rx) = client(1);
    let (y, mut y_rx) = client(2);
    room.add_client(x);
    room.add_client(y);

    for i in 0..50 {
        room.broadcast(1, &text(&format!("frame {}", i)));
    }

    for i in 0..50 {
        assert_eq!(y_rx.try_recv().ok(), Some(text(&format!("frame {}", i))));
    }
    assert!(y_rx.try_recv().is_err());
    assert!(x_rx.try_recv().is_err());
}

#[test]
fn a_dead_peer_does_not_stop_the_broadcast() {
    let mut room = Room::new("lobby".to_string());
    let (x, _x_rx) = client(1);
    let (dead, dead_rx) = client(2);
    let (z, mut z_rx) = client(3);
    room.add_client(x);
    room.add_client(dead);
    room.add_client(z);
    drop(dead_rx);

    room.broadcast(1, &text("still here"));

    assert_eq!(z_rx.try_recv().ok(), Some(text("still here")));
    assert_eq!(room.len(), 3);
}

#[test]
fn send_to_reaches_one_member_only() {
    let mut room = Room::new("lobby".to_string());
    let (x, mut x_rx) = client(1);
    let (y, mut y_rx) = client(2);
    room.add_client(x);
    room.add_client(y);

    assert!(room.send_to(2, text("for you")));
    assert!(!room.send_to(8, text("for nobody")));

    assert_eq!(y_rx.try_recv().ok(), Some(text("for you")));
    assert!(y_rx.try_recv().is_err());
    assert!(x_rx.try_recv().is_err());
}

#[test]
fn send_to_reports_a_closed_channel() {
    let mut room = Room::new("lobby".to_string());
    let (x, x_rx) = client(1);
    room.add_client(x);
    drop(x_rx);
    assert!(!room.send_to(1, text("too late")));
}

#[test]
fn every_kind_of_frame_is_relayed_verbatim() {
    let mut room = Room::new("lobby".to_string());
    let (x, _x_rx) = client(1);
    let (y, mut y_rx) = client(2);
    room.add_client(x);
    room.add_client(y);

    let frames = vec![
        Frame::Text("t".to_string()),
        Frame::Binary(vec![0, 1, 255]),
        Frame::Ping(vec![1]),
        Frame::Pong(vec![2]),
        Frame::Close(None),
        Frame::Close(Some(CloseFrame { code: 1000, reason: "bye".to_string() })),
    ];
    for frame in &frames {
        room.broadcast(1, frame);
    }
    for frame in frames {
        assert_eq!(y_rx.try_recv().ok(), Some(frame));
    }
}

#[test]
fn frame_clone_is_equal() {
    let frame = Frame::Close(Some(CloseFrame { code: 1002, reason: "x".to_string() }));
    assert_eq!(frame.clone(), frame);
    let binary = Frame::Binary(vec![1, 2, 3]);
    assert_eq!(binary.clone(), binary);
}
