use futures_channel::mpsc::{unbounded, UnboundedReceiver};
use room_relay::client::{ConnectionId, RoomClient};
use room_relay::frame::{CloseFrame, Frame};
use room_relay::room::RoomError;
use room_relay::room_context::{Departure, RoomContext};
use room_relay::word_chooser::WordList;
use room_relay::ws_handler::{
    broadcast_message, cleanup_connection, handle_event, initialize_client, rejection_frame,
    Action, ConnectionState, Event, RoomInitializationError,
};

type Inbox = UnboundedReceiver<Frame>;

fn context(words: &[&str]) -> RoomContext {
    let words = WordList::new(words.iter().map(|w| w.to_string()).collect()).unwrap();
    RoomContext::new(words)
}

fn address(id: ConnectionId) -> String {
    format!("192.168.1.{}:5000", id)
}

fn client(id: ConnectionId) -> (RoomClient, Inbox) {
    let (send, receive) = unbounded();
    (RoomClient { id, address: address(id), send }, receive)
}

fn text(s: &str) -> Frame {
    Frame::Text(s.to_string())
}

fn first(s: &str) -> Event {
    Event::Frame(text(s))
}

fn close(code: u16, reason: &str) -> Frame {
    Frame::Close(Some(CloseFrame { code, reason: reason.to_string() }))
}

fn joined(who: ConnectionId) -> Frame {
    text(&format!("{{\"ip_joined\":\"{}\"}}", address(who)))
}

fn left(who: ConnectionId) -> Frame {
    text(&format!("{{\"ip_left\":\"{}\"}}", address(who)))
}

fn confirmed(room: &str) -> Frame {
    text(&format!("{{\"JoinRoom\":\"{}\"}}", room))
}

fn next(inbox: &mut Inbox) -> Option<Frame> {
    inbox.try_recv().ok()
}

fn drain(inbox: &mut Inbox) {
    while inbox.try_recv().is_ok() {}
}

fn shake(
    context: &mut RoomContext,
    client: RoomClient,
    request: &str,
) -> (ConnectionState, Action) {
    handle_event(ConnectionState::Handshaking(client), context, first(request))
}

fn connect(context: &mut RoomContext, id: ConnectionId, request: &str) -> (ConnectionState, Inbox) {
    let (c, inbox) = client(id);
    let (state, action) = shake(context, c, request);
    assert_eq!(action, Action::Continue);
    assert!(matches!(state, ConnectionState::Active(_)));
    (state, inbox)
}

fn room_of(state: &ConnectionState) -> String {
    match state {
        ConnectionState::Active(member) => member.room.clone(),
        _ => panic!("the connection is not active"),
    }
}

#[test]
fn a_new_room_is_confirmed_with_its_name() {
    let mut context = context(&["red", "blue", "green"]);
    let (_taken, _taken_inbox) = connect(&mut context, 9, "{\"JoinWithCode\": \"red\"}");
    let (x, mut x_inbox) = client(1);

    let (state, action) = shake(&mut context, x, "{\"NewRoom\": null}");

    assert_eq!(action, Action::Continue);
    let name = room_of(&state);
    assert!(!name.is_empty());
    assert_ne!(name, "red");
    assert!(name == "blue" || name == "green");
    assert_eq!(next(&mut x_inbox), Some(confirmed(&name)));
    assert_eq!(next(&mut x_inbox), None);
    assert_eq!(context.get_room_by_connection(1), Some(name.clone()));
    assert_eq!(context.member_count(&name), Some(1));
}

#[test]
fn a_bare_request_for_a_new_room_is_granted() {
    let mut context = context(&["red"]);
    let (state, mut inbox) = connect(&mut context, 1, "\"NewRoom\"");
    assert_eq!(room_of(&state), "red");
    assert_eq!(next(&mut inbox), Some(confirmed("red")));
}

#[test]
fn a_member_keeps_its_handle_and_address() {
    let mut context = context(&["red"]);
    let (state, _inbox) = connect(&mut context, 4, "{\"JoinWithCode\": \"foo\"}");
    match state {
        ConnectionState::Active(member) => {
            assert_eq!(member.id, 4);
            assert_eq!(member.address, address(4));
            assert_eq!(member.room, "foo");
        }
        _ => panic!("the connection is not active"),
    }
}

#[test]
fn a_code_that_is_live_is_refused() {
    let mut context = context(&["red"]);
    let (_x, mut x_inbox) = connect(&mut context, 1, "{\"JoinWithCode\": \"foo\"}");
    assert_eq!(next(&mut x_inbox), Some(confirmed("foo")));
    let (y, mut y_inbox) = client(2);

    let (state, action) = shake(&mut context, y, "{\"JoinWithCode\": \"foo\"}");

    assert!(matches!(state, ConnectionState::Closed));
    assert_eq!(action, Action::Close(close(1008, "Creating Room Failed")));
    assert_eq!(next(&mut y_inbox), None);
    assert_eq!(next(&mut x_inbox), None);
    assert_eq!(context.get_room_by_connection(2), None);
    assert_eq!(context.member_count("foo"), Some(1));
}

#[test]
fn a_payload_reaches_the_other_member_only() {
    let mut context = context(&["red"]);
    let (x, mut x_inbox) = connect(&mut context, 1, "{\"JoinWithCode\": \"bar\"}");
    let (_y, mut y_inbox) = connect(&mut context, 2, "{\"JoinRoom\": \"bar\"}");
    assert_eq!(next(&mut x_inbox), Some(confirmed("bar")));
    assert_eq!(next(&mut x_inbox), Some(joined(2)));
    assert_eq!(next(&mut y_inbox), Some(confirmed("bar")));
    assert_eq!(next(&mut y_inbox), None);

    let (x, action) = handle_event(x, &mut context, Event::Frame(text("hello")));

    assert_eq!(action, Action::Continue);
    assert!(matches!(x, ConnectionState::Active(_)));
    assert_eq!(next(&mut y_inbox), Some(text("hello")));
    assert_eq!(next(&mut y_inbox), None);
    assert_eq!(next(&mut x_inbox), None);
}

#[test]
fn the_remaining_member_is_told_of_a_departure() {
    let mut context = context(&["red"]);
    let (x, _x_inbox) = connect(&mut context, 1, "{\"JoinWithCode\": \"baz\"}");
    let (_y, mut y_inbox) = connect(&mut context, 2, "{\"JoinRoom\": \"baz\"}");
    assert_eq!(next(&mut y_inbox), Some(confirmed("baz")));

    let (x, action) = handle_event(x, &mut context, Event::InboundEnded);

    assert_eq!(action, Action::Stop);
    assert!(matches!(x, ConnectionState::Closed));
    assert_eq!(next(&mut y_inbox), Some(left(1)));
    assert_eq!(next(&mut y_inbox), None);
    assert!(context.contains_room("baz"));
    assert_eq!(context.member_count("baz"), Some(1));
    assert_eq!(context.get_room_by_connection(1), None);
    assert_eq!(context.get_room_by_connection(2), Some("baz".to_string()));
}

#[test]
fn an_emptied_room_cannot_be_joined() {
    let mut context = context(&["red"]);
    let (x, _x_inbox) = connect(&mut context, 1, "{\"JoinWithCode\": \"qux\"}");
    let (_, action) = handle_event(x, &mut context, Event::OutboundEnded);
    assert_eq!(action, Action::Stop);
    assert!(!context.contains_room("qux"));
    let (z, mut z_inbox) = client(3);

    let (state, action) = shake(&mut context, z, "{\"JoinRoom\": \"qux\"}");

    assert!(matches!(state, ConnectionState::Closed));
    assert_eq!(action, Action::Close(close(1008, "Room does not exist")));
    assert_eq!(next(&mut z_inbox), None);
    assert_eq!(context.room_count(), 0);
}

#[test]
fn a_first_frame_that_is_no_request_closes_the_connection() {
    let firsts = vec![
        first("not json"),
        first("{\"JoinRoom\": 5}"),
        first("{\"JoinRoom\": null}"),
        first("{\"NewRoom\": \"x\"}"),
        first("{\"Unknown\": \"x\"}"),
        first("{\"JoinRoom\": \"a\", \"JoinWithCode\": \"b\"}"),
        first("{}"),
        first("\"JoinRoom\""),
        first("[\"NewRoom\"]"),
        first(""),
        Event::Frame(Frame::Binary(b"\"NewRoom\"".to_vec())),
        Event::Frame(Frame::Ping(Vec::new())),
        Event::Frame(Frame::Pong(Vec::new())),
        Event::Frame(Frame::Close(None)),
        Event::ReceiveFailed,
        Event::InboundEnded,
        Event::OutboundEnded,
    ];
    for (i, event) in firsts.into_iter().enumerate() {
        let mut context = context(&["red"]);
        let (c, mut inbox) = client(i as u64);
        let (state, action) = handle_event(ConnectionState::Handshaking(c), &mut context, event);
        assert!(matches!(state, ConnectionState::Closed));
        assert_eq!(action, Action::Close(close(1002, "Invalid Room Request")));
        assert_eq!(context.room_count(), 0);
        assert_eq!(context.get_room_by_connection(i as u64), None);
        assert_eq!(next(&mut inbox), None);
    }
}

#[test]
fn exhausted_names_close_the_connection() {
    let mut context = context(&["only"]);
    let (_x, _x_inbox) = connect(&mut context, 1, "\"NewRoom\"");
    let (y, _y_inbox) = client(2);

    let (state, action) = shake(&mut context, y, "\"NewRoom\"");

    assert!(matches!(state, ConnectionState::Closed));
    assert_eq!(action, Action::Close(close(1011, "Creating Room Failed")));
    assert_eq!(context.room_count(), 1);
    assert_eq!(context.member_count("only"), Some(1));
}

#[test]
fn a_handle_that_is_registered_cannot_shake_hands_again() {
    let mut context = context(&["red"]);
    let (_x, mut x_inbox) = connect(&mut context, 1, "{\"JoinWithCode\": \"foo\"}");
    drain(&mut x_inbox);
    let (again, mut again_inbox) = client(1);

    let (state, action) = shake(&mut context, again, "{\"JoinWithCode\": \"bar\"}");

    assert!(matches!(state, ConnectionState::Closed));
    assert_eq!(action, Action::Close(close(1008, "Creating Room Failed")));
    assert!(!context.contains_room("bar"));
    assert_eq!(context.get_room_by_connection(1), Some("foo".to_string()));
    assert_eq!(next(&mut again_inbox), None);
    assert_eq!(next(&mut x_inbox), None);
}

#[test]
fn a_closed_connection_stays_closed() {
    let mut context = context(&["red"]);
    let (_y, mut y_inbox) = connect(&mut context, 2, "{\"JoinWithCode\": \"foo\"}");
    assert_eq!(next(&mut y_inbox), Some(confirmed("foo")));
    let events = vec![
        Event::Frame(text("late")),
        Event::ReceiveFailed,
        Event::InboundEnded,
        Event::OutboundEnded,
    ];
    for event in events {
        let (state, action) = handle_event(ConnectionState::Closed, &mut context, event);
        assert!(matches!(state, ConnectionState::Closed));
        assert_eq!(action, Action::Stop);
    }
    assert_eq!(next(&mut y_inbox), None);
    assert_eq!(context.member_count("foo"), Some(1));
}

#[test]
fn a_departure_is_handled_once() {
    let mut context = context(&["red"]);
    let (x, _x_inbox) = connect(&mut context, 1, "{\"JoinWithCode\": \"foo\"}");
    let (_y, mut y_inbox) = connect(&mut context, 2, "{\"JoinRoom\": \"foo\"}");
    assert_eq!(next(&mut y_inbox), Some(confirmed("foo")));

    let (x, _) = handle_event(x, &mut context, Event::ReceiveFailed);
    let (x, _) = handle_event(x, &mut context, Event::InboundEnded);
    let (_x, _) = handle_event(x, &mut context, Event::OutboundEnded);

    assert_eq!(next(&mut y_inbox), Some(left(1)));
    assert_eq!(next(&mut y_inbox), None);
    assert_eq!(context.member_count("foo"), Some(1));
}

#[test]
fn every_ending_event_ends_an_active_connection() {
    let endings = vec![Event::ReceiveFailed, Event::InboundEnded, Event::OutboundEnded];
    for event in endings {
        let mut context = context(&["red"]);
        let (x, _x_inbox) = connect(&mut context, 1, "{\"JoinWithCode\": \"foo\"}");
        let (state, action) = handle_event(x, &mut context, event);
        assert!(matches!(state, ConnectionState::Closed));
        assert_eq!(action, Action::Stop);
        assert_eq!(context.room_count(), 0);
        assert_eq!(context.get_room_by_connection(1), None);
    }
}

#[test]
fn active_members_relay_every_frame_in_order() {
    let mut context = context(&["red"]);
    let (mut x, mut x_inbox) = connect(&mut context, 1, "{\"JoinWithCode\": \"foo\"}");
    let (_y, mut y_inbox) = connect(&mut context, 2, "{\"JoinRoom\": \"foo\"}");
    let (_z, mut z_inbox) = connect(&mut context, 3, "{\"JoinRoom\": \"foo\"}");
    drain(&mut x_inbox);
    drain(&mut y_inbox);
    drain(&mut z_inbox);

    for i in 0..20u8 {
        let (state, action) = handle_event(x, &mut context, Event::Frame(Frame::Binary(vec![i])));
        assert_eq!(action, Action::Continue);
        x = state;
    }

    for i in 0..20u8 {
        assert_eq!(next(&mut y_inbox), Some(Frame::Binary(vec![i])));
        assert_eq!(next(&mut z_inbox), Some(Frame::Binary(vec![i])));
    }
    assert_eq!(next(&mut x_inbox), None);
}

#[test]
fn frames_of_two_senders_each_keep_their_order() {
    let mut context = context(&["red"]);
    let (mut x, _x_inbox) = connect(&mut context, 1, "{\"JoinWithCode\": \"foo\"}");
    let (mut y, _y_inbox) = connect(&mut context, 2, "{\"JoinRoom\": \"foo\"}");
    let (_z, mut z_inbox) = connect(&mut context, 3, "{\"JoinRoom\": \"foo\"}");
    drain(&mut z_inbox);

    for i in 0..10u8 {
        let (state, _) = handle_event(x, &mut context, Event::Frame(Frame::Binary(vec![1, i])));
        x = state;
        let (state, _) = handle_event(y, &mut context, Event::Frame(Frame::Binary(vec![2, i])));
        y = state;
    }

    let mut from_x = Vec::new();
    let mut from_y = Vec::new();
    while let Some(frame) = next(&mut z_inbox) {
        match frame {
            Frame::Binary(bytes) if bytes[0] == 1 => from_x.push(bytes[1]),
            Frame::Binary(bytes) if bytes[0] == 2 => from_y.push(bytes[1]),
            other => panic!("unexpected frame {:?}", other),
        }
    }
    assert_eq!(from_x, (0..10u8).collect::<Vec<u8>>());
    assert_eq!(from_y, (0..10u8).collect::<Vec<u8>>());
}

#[test]
fn joining_members_are_announced_to_those_before_them() {
    let mut context = context(&["red"]);
    let (_x, mut x_inbox) = connect(&mut context, 1, "{\"JoinWithCode\": \"foo\"}");
    let (_y, mut y_inbox) = connect(&mut context, 2, "{\"JoinRoom\": \"foo\"}");
    let (_z, mut z_inbox) = connect(&mut context, 3, "{\"JoinRoom\": \"foo\"}");

    assert_eq!(next(&mut x_inbox), Some(confirmed("foo")));
    assert_eq!(next(&mut x_inbox), Some(joined(2)));
    assert_eq!(next(&mut x_inbox), Some(joined(3)));
    assert_eq!(next(&mut x_inbox), None);
    assert_eq!(next(&mut y_inbox), Some(confirmed("foo")));
    assert_eq!(next(&mut y_inbox), Some(joined(3)));
    assert_eq!(next(&mut y_inbox), None);
    assert_eq!(next(&mut z_inbox), Some(confirmed("foo")));
    assert_eq!(next(&mut z_inbox), None);
}

#[test]
fn initialize_client_reports_each_failure() {
    let mut context = context(&["red"]);
    let (a, _a_inbox) = client(1);
    assert_eq!(
        initialize_client(Event::InboundEnded, &mut context, a),
        Err(RoomInitializationError::Unknown)
    );
    let (b, _b_inbox) = client(2);
    assert_eq!(
        initialize_client(Event::ReceiveFailed, &mut context, b),
        Err(RoomInitializationError::InvalidMessage)
    );
    let (c, _c_inbox) = client(3);
    assert_eq!(
        initialize_client(Event::Frame(Frame::Binary(vec![1])), &mut context, c),
        Err(RoomInitializationError::InvalidMessage)
    );
    let (d, _d_inbox) = client(4);
    assert_eq!(
        initialize_client(first("{\"JoinRoom\""), &mut context, d),
        Err(RoomInitializationError::InvalidJsonMessage)
    );
    let (e, _e_inbox) = client(5);
    assert_eq!(
        initialize_client(first("{\"JoinRoom\": \"gone\"}"), &mut context, e),
        Err(RoomInitializationError::ClientInitError(RoomError::NotFound))
    );
    let (f, mut f_inbox) = client(6);
    assert_eq!(
        initialize_client(first("{\"JoinWithCode\": \"here\"}"), &mut context, f),
        Ok("here".to_string())
    );
    assert_eq!(next(&mut f_inbox), Some(confirmed("here")));
    assert_eq!(next(&mut f_inbox), None);
    let (g, _g_inbox) = client(6);
    assert_eq!(
        initialize_client(first("{\"JoinRoom\": \"here\"}"), &mut context, g),
        Err(RoomInitializationError::ClientInitError(RoomError::AlreadyExists))
    );
    assert_eq!(context.room_count(), 1);
    assert_eq!(context.member_count("here"), Some(1));
}

#[test]
fn rejection_frames_carry_the_reason() {
    let invalid = close(1002, "Invalid Room Request");
    assert_eq!(rejection_frame(&RoomInitializationError::Unknown), invalid);
    assert_eq!(rejection_frame(&RoomInitializationError::InvalidMessage), invalid);
    assert_eq!(rejection_frame(&RoomInitializationError::InvalidJsonMessage), invalid);
    assert_eq!(
        rejection_frame(&RoomInitializationError::ClientInitError(RoomError::NotFound)),
        close(1008, "Room does not exist")
    );
    assert_eq!(
        rejection_frame(&RoomInitializationError::ClientInitError(RoomError::AlreadyExists)),
        close(1008, "Creating Room Failed")
    );
    assert_eq!(
        rejection_frame(&RoomInitializationError::ClientInitError(RoomError::NameExhausted)),
        close(1011, "Creating Room Failed")
    );
}

#[test]
fn cleanup_connection_tells_what_became_of_the_room() {
    let mut context = context(&["red"]);
    let (_x, _x_inbox) = connect(&mut context, 1, "{\"JoinWithCode\": \"foo\"}");
    let (_y, mut y_inbox) = connect(&mut context, 2, "{\"JoinRoom\": \"foo\"}");
    assert_eq!(next(&mut y_inbox), Some(confirmed("foo")));

    assert_eq!(cleanup_connection(&mut context, 7, "nobody"), Departure::NotMember);
    assert_eq!(next(&mut y_inbox), None);
    assert_eq!(
        cleanup_connection(&mut context, 1, &address(1)),
        Departure::RoomRemains("foo".to_string())
    );
    assert_eq!(next(&mut y_inbox), Some(left(1)));
    assert_eq!(
        cleanup_connection(&mut context, 2, &address(2)),
        Departure::RoomClosed("foo".to_string())
    );
    assert_eq!(next(&mut y_inbox), None);
    assert_eq!(context.room_count(), 0);
}

#[test]
fn broadcast_message_ignores_one_address() {
    let mut context = context(&["red"]);
    let (_x, mut x_inbox) = connect(&mut context, 1, "{\"JoinWithCode\": \"foo\"}");
    let (_y, mut y_inbox) = connect(&mut context, 2, "{\"JoinRoom\": \"foo\"}");
    drain(&mut x_inbox);
    drain(&mut y_inbox);

    broadcast_message(&mut context, "foo", 2, &text("from two"));
    broadcast_message(&mut context, "elsewhere", 2, &text("lost"));

    assert_eq!(next(&mut x_inbox), Some(text("from two")));
    assert_eq!(next(&mut x_inbox), None);
    assert_eq!(next(&mut y_inbox), None);
}

#[test]
fn addresses_are_escaped_in_events() {
    let mut context = context(&["red"]);
    let (_x, mut x_inbox) = connect(&mut context, 1, "{\"JoinWithCode\": \"foo\"}");
    assert_eq!(next(&mut x_inbox), Some(confirmed("foo")));
    let (send, _inbox) = unbounded();
    let odd = RoomClient { id: 2, address: "a \"quoted\" peer".to_string(), send };

    let (_, action) = shake(&mut context, odd, "{\"JoinRoom\": \"foo\"}");

    assert_eq!(action, Action::Continue);
    assert_eq!(next(&mut x_inbox), Some(text("{\"ip_joined\":\"a \\\"quoted\\\" peer\"}")));
}

#[test]
fn a_member_whose_reader_is_gone_does_not_disturb_the_others() {
    let mut context = context(&["red"]);
    let (x, _x_inbox) = connect(&mut context, 1, "{\"JoinWithCode\": \"foo\"}");
    let (_y, y_inbox) = connect(&mut context, 2, "{\"JoinRoom\": \"foo\"}");
    let (_z, mut z_inbox) = connect(&mut context, 3, "{\"JoinRoom\": \"foo\"}");
    drain(&mut z_inbox);
    drop(y_inbox);

    let (_x, action) = handle_event(x, &mut context, Event::Frame(text("anyone?")));

    assert_eq!(action, Action::Continue);
    assert_eq!(next(&mut z_inbox), Some(text("anyone?")));
    assert_eq!(context.member_count("foo"), Some(3));
}
