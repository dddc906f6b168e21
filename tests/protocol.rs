use socha::i_client_handler::{dispatch, HandlerCall, LoopEvent};
use socha::incoming::{
    ReceivedAdminPrepared, ReceivedAdminReservation, ReceivedComMessage, ReceivedData,
    ReceivedJoined, ReceivedLeft, ReceivedRoom,
};
use socha::internal::{AdminMessage, ComMessage, Joined, Left, RoomMessage};
use socha::neutral::Direction;
use socha::outgoing::{
    make_authenticate_xml, make_cancel_xml, make_join_prepared_xml, make_join_xml,
    make_move_xml, make_observe_xml, make_pause_xml, make_prepare_xml, make_step_xml,
};
use socha::socha_com::{
    prepare_request, ComState, ConnectionClosedErr, PrepareSlot, ReceiveErr, SendErr,
};
use socha::text::{parse_u32, trim_ws};
use socha::watchdog::{cancels, watchdog_step, WatchEvent, WatchdogPhase};

fn room(class: &str) -> ReceivedRoom {
    ReceivedRoom {
        room_id: Some("r".to_string()),
        data: Some(ReceivedData {
            class: Some(class.to_string()),
            definition: None,
            scores: None,
            winner: None,
            state: None,
        }),
    }
}

fn envelope(rooms: Vec<ReceivedRoom>) -> ReceivedComMessage {
    ReceivedComMessage { left: None, joined: None, room: rooms, admin_prepared: None }
}

#[test]
fn chunked_feed_gives_same_envelope() {
    let text = "<protocol><joined roomId=\"abc\"/><room roomId=\"abc\"><data class=\"welcomeMessage\"/></room>";
    let mut whole = ComState::new();
    whole.push_text(text);
    let mut split = ComState::new();
    for chunk in ["<proto", "col><joi", "ned roomId=\"a", "bc\"/><room roomId=\"abc\"><da", "ta class=\"welcomeMessage\"/></room>"] {
        split.push_text(chunk);
    }
    let a = whole.envelope();
    let b = split.envelope();
    assert_eq!(a, b);
    assert_eq!(
        a,
        "<comMessage><joined roomId=\"abc\"/><room roomId=\"abc\"><data class=\"welcomeMessage\"/></room></comMessage>"
    );
    assert!(whole.protocol_tag_found);
    // once found, a later opening tag stays in the buffer
    whole.push_text("<protocol>");
    assert!(whole.envelope().contains("<protocol>"));
}

#[test]
fn incomplete_envelope_keeps_the_buffer() {
    let mut st = ComState::new();
    st.push_text("<room roomId=\"x\"><da");
    let (msgs, err) = st.attempt_get_com_messages(None);
    assert!(err.is_none());
    assert!(msgs.is_empty());
    assert_eq!(st.buf, "<room roomId=\"x\"><da");
}

#[test]
fn envelope_messages_in_order() {
    let mut st = ComState::new();
    st.push_text("anything");
    let mut env = envelope(vec![room("welcomeMessage"), room("bogus"), room("moveRequest")]);
    env.joined = Some(ReceivedJoined { room_id: Some("j1".to_string()) });
    env.left = Some(ReceivedLeft { room_id: Some("l1".to_string()) });
    let (msgs, err) = st.attempt_get_com_messages(Some(env));
    assert_eq!(st.buf, "");
    assert_eq!(st.room_id, Some("l1".to_string()));
    assert_eq!(
        msgs,
        vec![
            ComMessage::Joined(Joined { room_id: "j1".to_string() }),
            ComMessage::Left(Left { room_id: "l1".to_string() }),
            ComMessage::Room(Box::new(RoomMessage::WelcomeMessage)),
            ComMessage::Room(Box::new(RoomMessage::MoveRequest)),
        ]
    );
}

#[test]
fn malformed_prepared_room_is_dropped_alone() {
    let prepared = |n: usize| ReceivedAdminPrepared {
        admin_reservation: (0..n)
            .map(|i| ReceivedAdminReservation { reservation_id: format!("code{}", i) })
            .collect(),
        room_id: "p".to_string(),
    };
    let mut st = ComState::new();
    let mut env = envelope(vec![]);
    env.admin_prepared = Some(prepared(2));
    let (msgs, err) = st.attempt_get_com_messages(Some(env));
    assert_eq!(st.room_id, Some("p".to_string()));
    assert!(err.is_none());
    match &msgs[0] {
        ComMessage::Admin(AdminMessage::Prepared(p)) => {
            assert_eq!(p.reservations, ("code0".to_string(), "code1".to_string()));
            assert_eq!(p.room_id, "p");
        }
        _ => panic!("expected prepared room"),
    }
    // a malformed prepared record is dropped alone: the room id still follows
    // it and the other events of the envelope are delivered
    let mut env = envelope(vec![room("welcomeMessage"), room("bogus")]);
    env.joined = Some(ReceivedJoined { room_id: Some("j".to_string()) });
    let mut bad = prepared(3);
    bad.room_id = "q".to_string();
    env.admin_prepared = Some(bad);
    let (msgs, err) = st.attempt_get_com_messages(Some(env));
    assert_eq!(st.room_id, Some("q".to_string()));
    assert!(matches!(err, Some(ReceiveErr::FailedToBuildAdminMessage(_))));
    assert_eq!(
        msgs,
        vec![
            ComMessage::Joined(Joined { room_id: "j".to_string() }),
            ComMessage::Room(Box::new(RoomMessage::WelcomeMessage)),
        ]
    );
}

#[test]
fn queue_then_protocol_end() {
    let mut st = ComState::new();
    let first = vec![
        ComMessage::Joined(Joined { room_id: "a".to_string() }),
        ComMessage::Left(Left { room_id: "a".to_string() }),
    ];
    st.push_text("<comMessage/>");
    let m = st.next_message(first).unwrap();
    assert_eq!(m, Some(ComMessage::Joined(Joined { room_id: "a".to_string() })));
    let m = st.next_message(vec![]).unwrap();
    assert_eq!(m, Some(ComMessage::Left(Left { room_id: "a".to_string() })));
    assert!(matches!(
        st.next_message(vec![]),
        Err(ReceiveErr::ConnectionClosed(ConnectionClosedErr::ProtocolEnded))
    ));
    assert_eq!(st.buf, "");
    assert_eq!(st.next_message(vec![]).unwrap(), None);
}

#[test]
fn move_needs_a_room() {
    let mut st = ComState::new();
    assert!(matches!(st.move_request(1, 2, Direction::UP), Err(SendErr::NoRoomId)));
    st.room_id = Some("r<1>".to_string());
    assert_eq!(
        st.move_request(1, 2, Direction::UP).unwrap(),
        "<room roomId=\"r&lt;1&gt;\"><data class=\"move\"><from x=\"1\" y=\"2\"/><direction>UP</direction></data></room>"
    );
}

#[test]
fn request_markup() {
    assert_eq!(make_join_xml("swc_2026_piranhas", None), "<join gameType=\"swc_2026_piranhas\"/>");
    assert_eq!(
        make_join_xml("g", Some("p&1")),
        "<join gameType=\"g\" participantId=\"p&amp;1\"/>"
    );
    assert_eq!(make_join_prepared_xml("c0de"), "<joinPrepared reservationCode=\"c0de\"/>");
    assert_eq!(
        make_move_xml("room", 120, 9, Direction::DownLeft),
        "<room roomId=\"room\"><data class=\"move\"><from x=\"120\" y=\"9\"/><direction>DOWN_LEFT</direction></data></room>"
    );
    assert_eq!(
        make_authenticate_xml("a<b'\"c>"),
        "<authenticate password=\"a&lt;b&apos;&quot;c&gt;\"/>"
    );
    assert_eq!(make_observe_xml("r"), "<observe roomId=\"r\"/>");
    assert_eq!(make_pause_xml("r", true), "<pause roomId=\"r\" pause=\"true\"/>");
    assert_eq!(make_pause_xml("r", false), "<pause roomId=\"r\" pause=\"false\"/>");
    assert_eq!(make_step_xml("r"), "<step roomId=\"r\"/>");
    assert_eq!(make_cancel_xml("r"), "<cancel roomId=\"r\"/>");
    assert_eq!(make_prepare_xml("g", false, &[]), "<prepare gameType=\"g\" pause=\"false\"/>");
    assert_eq!(
        make_prepare_xml("g", true, &[("A", true, false), ("B", false, true)]),
        "<prepare gameType=\"g\" pause=\"true\"><slot displayName=\"A\" canTimeout=\"true\" reserved=\"false\"/><slot displayName=\"B\" canTimeout=\"false\" reserved=\"true\"/></prepare>"
    );
    let slots = [PrepareSlot::new("X".to_string(), false, false)];
    assert_eq!(
        prepare_request(false, &slots),
        "<prepare gameType=\"swc_2026_piranhas\" pause=\"false\"><slot displayName=\"X\" canTimeout=\"false\" reserved=\"false\"/></prepare>"
    );
}

#[test]
fn watchdog_decisions() {
    let request = || WatchEvent::Received(ComMessage::Room(Box::new(RoomMessage::MoveRequest)));
    // messages waiting before arming are drained without effect
    let mut p = WatchdogPhase::Draining;
    p = watchdog_step(p, &request(), false);
    p = watchdog_step(p, &request(), true);
    assert_eq!(p, WatchdogPhase::Draining);
    p = watchdog_step(p, &WatchEvent::Empty, false);
    assert_eq!(p, WatchdogPhase::Armed);
    p = watchdog_step(p, &WatchEvent::Received(ComMessage::Room(Box::new(RoomMessage::WelcomeMessage))), false);
    assert_eq!(p, WatchdogPhase::Armed);
    p = watchdog_step(p, &request(), false);
    assert_eq!(p, WatchdogPhase::Cancelled);
    assert_eq!(watchdog_step(p, &WatchEvent::Empty, false), WatchdogPhase::Cancelled);
    assert_eq!(watchdog_step(WatchdogPhase::Armed, &WatchEvent::Empty, true), WatchdogPhase::Cancelled);
    assert_eq!(watchdog_step(WatchdogPhase::Armed, &WatchEvent::Disconnected, false), WatchdogPhase::Cancelled);
    assert!(cancels(&ComMessage::Left(Left { room_id: "a".to_string() })));
    assert!(!cancels(&ComMessage::Joined(Joined { room_id: "a".to_string() })));
}

#[test]
fn number_and_whitespace_helpers() {
    assert_eq!(parse_u32("0"), Some(0));
    assert_eq!(parse_u32("+17"), Some(17));
    assert_eq!(parse_u32("4294967295"), Some(u32::MAX));
    assert_eq!(parse_u32("4294967296"), None);
    assert_eq!(parse_u32(""), None);
    assert_eq!(parse_u32("+"), None);
    assert_eq!(parse_u32("-1"), None);
    assert_eq!(parse_u32("1 "), None);
    assert_eq!(trim_ws("\t a b \n"), "a b");
    assert_eq!(trim_ws("   "), "");
}

#[test]
fn event_loop_decisions() {
    let s = dispatch(LoopEvent::Empty);
    assert!(s.call.is_none() && s.sleep && s.keep_running);
    let s = dispatch(LoopEvent::Disconnected);
    assert!(s.call.is_none() && !s.keep_running);
    let s = dispatch(LoopEvent::Message(ComMessage::Left(Left { room_id: "a".to_string() })));
    assert!(matches!(s.call, Some(HandlerCall::GameLeft)) && !s.keep_running);
    let s = dispatch(LoopEvent::Message(ComMessage::Joined(Joined { room_id: "a".to_string() })));
    assert!(matches!(s.call, Some(HandlerCall::GameJoined(ref id)) if id == "a") && s.keep_running);
    let s = dispatch(LoopEvent::Message(ComMessage::Room(Box::new(RoomMessage::MoveRequest))));
    assert!(matches!(s.call, Some(HandlerCall::CalculateMove)) && s.keep_running && !s.sleep);
    let s = dispatch(LoopEvent::Message(ComMessage::Room(Box::new(RoomMessage::WelcomeMessage))));
    assert!(matches!(s.call, Some(HandlerCall::WelcomeMessage)));
    let prepared = socha::internal::PreparedRoom {
        reservations: ("a".to_string(), "b".to_string()),
        room_id: "r".to_string(),
    };
    let s = dispatch(LoopEvent::Message(ComMessage::Admin(AdminMessage::Prepared(prepared))));
    assert!(s.call.is_none() && s.keep_running && !s.sleep);
}

#[test]
fn wait_runs_out_only_past_its_bound() {
    let max = std::time::Duration::from_millis(5);
    assert!(socha::socha_com::check_wait_time(5_000_000, max.as_nanos(), max).is_ok());
    assert!(matches!(
        socha::socha_com::check_wait_time(5_000_001, max.as_nanos(), max),
        Err(ReceiveErr::ConnectionClosed(ConnectionClosedErr::NoMessageReceivedFor(d))) if d == max
    ));
}
