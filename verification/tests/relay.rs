//! Registry, hub and session behaviour: membership exclusivity, fan-out,
//! overflow, teardown, and the end-to-end relay scenario.
use open_reverb::models::UserStatus;
use open_reverb::protocol::Message;
use open_reverb::server::{QUEUE_CAPACITY, Server};
use open_reverb::session::{CODE_CHANNEL_NOT_FOUND, Session, SessionState};

fn login(session: &mut Session, srv: &mut Server, name: &str) -> u64 {
    let replies = session.handle_message(
        srv,
        Message::LoginRequest { username: name.to_string(), password: "pw".to_string() },
    );
    assert_eq!(replies.len(), 2);
    match &replies[0] {
        Message::LoginResponse { success, user_id, .. } => {
            assert!(*success);
            user_id.expect("an identity token")
        },
        other => panic!("expected a login response, got {:?}", other),
    }
}

fn join(session: &mut Session, srv: &mut Server, cid: u64) -> Vec<u64> {
    let replies = session.handle_message(srv, Message::JoinChannel { channel_id: cid });
    assert_eq!(replies.len(), 1);
    match &replies[0] {
        Message::ChannelUpdate { channel } => {
            assert_eq!(channel.id, cid);
            channel.members.clone()
        },
        other => panic!("expected a roster, got {:?}", other),
    }
}

#[test]
fn membership_is_mutually_exclusive() {
    let mut srv = Server::new();
    let c1 = srv.add_channel("General".to_string(), None).unwrap();
    let c2 = srv.add_channel("Gaming".to_string(), None).unwrap();
    let mut s = Session::new();
    let uid = login(&mut s, &mut srv, "alice");
    join(&mut s, &mut srv, c1);
    assert!(srv.get_channel(c1).unwrap().members.contains(&uid));
    // Joining another channel implicitly leaves the first.
    join(&mut s, &mut srv, c2);
    assert!(!srv.get_channel(c1).unwrap().members.contains(&uid));
    assert!(srv.get_channel(c2).unwrap().members.contains(&uid));
}

#[test]
fn no_self_delivery_and_exactly_once_fan_out() {
    let mut srv = Server::new();
    let cid = srv.add_channel("General".to_string(), None).unwrap();
    let mut sa = Session::new();
    let mut sb = Session::new();
    let mut sc = Session::new();
    let ua = login(&mut sa, &mut srv, "alice");
    let ub = login(&mut sb, &mut srv, "bob");
    let uc = login(&mut sc, &mut srv, "carol");
    join(&mut sa, &mut srv, cid);
    join(&mut sb, &mut srv, cid);
    join(&mut sc, &mut srv, cid);
    // Drain the join announcements so the queues start empty.
    while srv.next_message(ua).is_some() {}
    while srv.next_message(ub).is_some() {}
    while srv.next_message(uc).is_some() {}
    let replies = sa.handle_message(
        &mut srv,
        Message::VoiceData { user_id: 0, channel_id: 0, data: vec![1, 2, 3] },
    );
    assert!(replies.is_empty());
    // The sender's own subscription never receives the message.
    assert!(srv.next_message(ua).is_none());
    // Each of the two other live subscribers observes it exactly once,
    // stamped with the sender's identity and the channel.
    for uid in [ub, uc] {
        match srv.next_message(uid) {
            Some(Message::VoiceData { user_id, channel_id, data }) => {
                assert_eq!(user_id, ua);
                assert_eq!(channel_id, cid);
                assert_eq!(data, vec![1, 2, 3]);
            },
            other => panic!("expected the voice payload, got {:?}", other),
        }
        assert!(srv.next_message(uid).is_none());
    }
}

#[test]
fn overflow_drops_oldest() {
    let mut srv = Server::new();
    let cid = srv.add_channel("General".to_string(), None).unwrap();
    let mut sa = Session::new();
    let mut sb = Session::new();
    let ua = login(&mut sa, &mut srv, "alice");
    let _ub = login(&mut sb, &mut srv, "bob");
    join(&mut sa, &mut srv, cid);
    join(&mut sb, &mut srv, cid);
    while srv.next_message(ua).is_some() {}
    // Saturate alice's queue well past its capacity.
    let extra = 5u64;
    for i in 0..(QUEUE_CAPACITY as u64 + extra) {
        sb.handle_message(
            &mut srv,
            Message::VoiceData { user_id: 0, channel_id: 0, data: vec![(i % 256) as u8] },
        );
    }
    // The oldest messages were dropped; exactly the capacity remains, and
    // the first one out is the first survivor.
    let mut seen = 0u64;
    let mut first: Option<u8> = None;
    while let Some(m) = srv.next_message(ua) {
        if first.is_none() {
            match &m {
                Message::VoiceData { data, .. } => first = Some(data[0]),
                other => panic!("expected voice data, got {:?}", other),
            }
        }
        seen += 1;
    }
    assert_eq!(seen, QUEUE_CAPACITY as u64);
    assert_eq!(first, Some((extra % 256) as u8));
}

#[test]
fn teardown_is_complete() {
    let mut srv = Server::new();
    let cid = srv.add_channel("General".to_string(), None).unwrap();
    let mut sa = Session::new();
    let mut sb = Session::new();
    let ua = login(&mut sa, &mut srv, "alice");
    let ub = login(&mut sb, &mut srv, "bob");
    join(&mut sa, &mut srv, cid);
    join(&mut sb, &mut srv, cid);
    while srv.next_message(ua).is_some() {}
    // Kill bob's connection while in the channel.
    sb.close(&mut srv);
    assert!(matches!(sb.state, SessionState::Closed));
    // (a) bob is out of the member set; (b) his presence is Offline;
    // (c) alice received the member-left notice.
    assert!(!srv.get_channel(cid).unwrap().members.contains(&ub));
    assert_eq!(srv.get_user(ub).unwrap().status, UserStatus::Offline);
    match srv.next_message(ua) {
        Some(Message::UserLeft { user_id }) => assert_eq!(user_id, ub),
        other => panic!("expected the member-left notice, got {:?}", other),
    }
}

#[test]
fn ping_answers_pong() {
    let mut srv = Server::new();
    let mut s = Session::new();
    let replies = s.handle_message(&mut srv, Message::Ping);
    assert_eq!(replies.len(), 1);
    assert!(matches!(replies[0], Message::Pong));
    assert!(matches!(s.state, SessionState::Connected));
}

#[test]
fn join_unknown_channel_is_an_error() {
    let mut srv = Server::new();
    let mut s = Session::new();
    login(&mut s, &mut srv, "alice");
    let replies = s.handle_message(&mut srv, Message::JoinChannel { channel_id: 999 });
    assert_eq!(replies.len(), 1);
    match &replies[0] {
        Message::Error { code, .. } => assert_eq!(*code, CODE_CHANNEL_NOT_FOUND),
        other => panic!("expected an error, got {:?}", other),
    }
    assert!(matches!(s.state, SessionState::Authenticated));
}

#[test]
fn leave_is_idempotent_and_announced() {
    let mut srv = Server::new();
    let cid = srv.add_channel("General".to_string(), None).unwrap();
    let mut sa = Session::new();
    let mut sb = Session::new();
    let ua = login(&mut sa, &mut srv, "alice");
    let ub = login(&mut sb, &mut srv, "bob");
    join(&mut sa, &mut srv, cid);
    join(&mut sb, &mut srv, cid);
    while srv.next_message(ua).is_some() {}
    let r1 = sb.handle_message(&mut srv, Message::LeaveChannel { channel_id: cid });
    assert!(r1.is_empty());
    assert!(matches!(sb.state, SessionState::Authenticated));
    assert!(!srv.get_channel(cid).unwrap().members.contains(&ub));
    // The rest of the channel is told.
    match srv.next_message(ua) {
        Some(Message::UserLeft { user_id }) => assert_eq!(user_id, ub),
        other => panic!("expected the member-left notice, got {:?}", other),
    }
    // Leaving again is a no-op with no further notice.
    let r2 = sb.handle_message(&mut srv, Message::LeaveChannel { channel_id: cid });
    assert!(r2.is_empty());
    assert!(matches!(sb.state, SessionState::Authenticated));
    assert!(srv.next_message(ua).is_none());
}

#[test]
fn status_update_uses_own_identity_and_announces() {
    let mut srv = Server::new();
    let cid = srv.add_channel("General".to_string(), None).unwrap();
    let mut sa = Session::new();
    let mut sb = Session::new();
    let ua = login(&mut sa, &mut srv, "alice");
    let ub = login(&mut sb, &mut srv, "bob");
    join(&mut sa, &mut srv, cid);
    join(&mut sb, &mut srv, cid);
    while srv.next_message(ua).is_some() {}
    // Bob claims somebody else's token; the session uses his own.
    sb.handle_message(
        &mut srv,
        Message::StatusUpdate { user_id: ua, status: UserStatus::Away },
    );
    assert_eq!(srv.get_user(ub).unwrap().status, UserStatus::Away);
    assert_eq!(srv.get_user(ua).unwrap().status, UserStatus::Online);
    match srv.next_message(ua) {
        Some(Message::StatusUpdate { user_id, status }) => {
            assert_eq!(user_id, ub);
            assert_eq!(status, UserStatus::Away);
        },
        other => panic!("expected the status update, got {:?}", other),
    }
}

#[test]
fn relay_scenario_end_to_end() {
    // alice authenticates, joins an empty channel and sees a roster with
    // no other members; bob joins and alice is told; bob speaks and alice
    // hears exactly his payload; bob disconnects and alice is told, and a
    // fresh roster shows only alice.
    let mut srv = Server::new();
    let cid = srv.add_channel("General".to_string(), Some("general chat".to_string())).unwrap();
    let mut sa = Session::new();
    let ua = login(&mut sa, &mut srv, "alice");
    let roster = join(&mut sa, &mut srv, cid);
    assert_eq!(roster, vec![ua]);
    let mut sb = Session::new();
    let ub = login(&mut sb, &mut srv, "bob");
    let roster_b = join(&mut sb, &mut srv, cid);
    assert_eq!(roster_b.len(), 2);
    match srv.next_message(ua) {
        Some(Message::UserJoined { user }) => {
            assert_eq!(user.id, ub);
            assert_eq!(user.username, "bob");
        },
        other => panic!("expected the member-joined notice, got {:?}", other),
    }
    let payload = vec![7, 7, 7, 7];
    sb.handle_message(
        &mut srv,
        Message::VoiceData { user_id: 0, channel_id: 0, data: payload.clone() },
    );
    match srv.next_message(ua) {
        Some(Message::VoiceData { user_id, channel_id, data }) => {
            assert_eq!(user_id, ub);
            assert_eq!(channel_id, cid);
            assert_eq!(data, payload);
        },
        other => panic!("expected the voice payload, got {:?}", other),
    }
    sb.close(&mut srv);
    match srv.next_message(ua) {
        Some(Message::UserLeft { user_id }) => assert_eq!(user_id, ub),
        other => panic!("expected the member-left notice, got {:?}", other),
    }
    assert_eq!(srv.get_channel(cid).unwrap().members, vec![ua]);
}

#[test]
fn snapshot_lists_channels_and_users() {
    let mut srv = Server::new();
    let c1 = srv.add_channel("General".to_string(), None).unwrap();
    let _c2 = srv.add_channel("Gaming".to_string(), None).unwrap();
    let mut s = Session::new();
    let uid = login(&mut s, &mut srv, "alice");
    join(&mut s, &mut srv, c1);
    let info = srv.get_server_info();
    assert_eq!(info.channels.len(), 2);
    assert_eq!(info.users.len(), 1);
    assert_eq!(info.users[0].id, uid);
    assert_eq!(info.users[0].username, "alice");
}
