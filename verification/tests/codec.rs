//! Wire codec behaviour: framing round trips, partial reads, malformed
//! frames, and forward compatibility.
use open_reverb::codec::{Decoded, MAX_FRAME_SIZE, decode, drop_prefix, encode};
use open_reverb::models::{Channel, Server, User, UserStatus};
use open_reverb::protocol::Message;

fn round_trip(m: &Message) -> Message {
    let frame = encode(m).expect("encodable");
    match decode(&frame) {
        Decoded::Frame(out, consumed) => {
            assert_eq!(consumed, frame.len());
            out
        },
        other => panic!("expected a frame, got {:?}", other),
    }
}

#[test]
fn round_trip_login_request() {
    let m = Message::LoginRequest { username: "alice".to_string(), password: "s3cret".to_string() };
    match round_trip(&m) {
        Message::LoginRequest { username, password } => {
            assert_eq!(username, "alice");
            assert_eq!(password, "s3cret");
        },
        other => panic!("wrong variant: {:?}", other),
    }
}

#[test]
fn round_trip_login_response() {
    let m = Message::LoginResponse { success: true, user_id: Some(7), error: None };
    match round_trip(&m) {
        Message::LoginResponse { success, user_id, error } => {
            assert!(success);
            assert_eq!(user_id, Some(7));
            assert!(error.is_none());
        },
        other => panic!("wrong variant: {:?}", other),
    }
    let m2 = Message::LoginResponse {
        success: false,
        user_id: None,
        error: Some("bad credentials".to_string()),
    };
    match round_trip(&m2) {
        Message::LoginResponse { success, user_id, error } => {
            assert!(!success);
            assert_eq!(user_id, None);
            assert_eq!(error.as_deref(), Some("bad credentials"));
        },
        other => panic!("wrong variant: {:?}", other),
    }
}

#[test]
fn round_trip_status_update() {
    let m = Message::StatusUpdate { user_id: 9, status: UserStatus::DoNotDisturb };
    match round_trip(&m) {
        Message::StatusUpdate { user_id, status } => {
            assert_eq!(user_id, 9);
            assert_eq!(status, UserStatus::DoNotDisturb);
        },
        other => panic!("wrong variant: {:?}", other),
    }
}

#[test]
fn round_trip_user_joined() {
    let m = Message::UserJoined {
        user: User { id: 3, username: "bob".to_string(), status: UserStatus::Away },
    };
    match round_trip(&m) {
        Message::UserJoined { user } => {
            assert_eq!(user.id, 3);
            assert_eq!(user.username, "bob");
            assert_eq!(user.status, UserStatus::Away);
        },
        other => panic!("wrong variant: {:?}", other),
    }
}

#[test]
fn round_trip_single_id_variants() {
    let cases: Vec<Message> = vec![
        Message::UserLeft { user_id: 1 },
        Message::JoinChannel { channel_id: 2 },
        Message::LeaveChannel { channel_id: 3 },
        Message::VoiceStarted { user_id: 4 },
        Message::VoiceStopped { user_id: 5 },
        Message::VideoStarted { user_id: 6 },
        Message::VideoStopped { user_id: 7 },
        Message::ScreenShareStarted { user_id: 8 },
        Message::ScreenShareStopped { user_id: 9 },
    ];
    for m in &cases {
        let back = round_trip(m);
        match (m, &back) {
            (Message::UserLeft { user_id: a }, Message::UserLeft { user_id: b }) => {
                assert_eq!(a, b)
            },
            (Message::JoinChannel { channel_id: a }, Message::JoinChannel { channel_id: b }) => {
                assert_eq!(a, b)
            },
            (Message::LeaveChannel { channel_id: a }, Message::LeaveChannel { channel_id: b }) => {
                assert_eq!(a, b)
            },
            (Message::VoiceStarted { user_id: a }, Message::VoiceStarted { user_id: b }) => {
                assert_eq!(a, b)
            },
            (Message::VoiceStopped { user_id: a }, Message::VoiceStopped { user_id: b }) => {
                assert_eq!(a, b)
            },
            (Message::VideoStarted { user_id: a }, Message::VideoStarted { user_id: b }) => {
                assert_eq!(a, b)
            },
            (Message::VideoStopped { user_id: a }, Message::VideoStopped { user_id: b }) => {
                assert_eq!(a, b)
            },
            (
                Message::ScreenShareStarted { user_id: a },
                Message::ScreenShareStarted { user_id: b },
            ) => assert_eq!(a, b),
            (
                Message::ScreenShareStopped { user_id: a },
                Message::ScreenShareStopped { user_id: b },
            ) => assert_eq!(a, b),
            (orig, got) => panic!("variant mismatch: {:?} vs {:?}", orig, got),
        }
    }
}

#[test]
fn round_trip_channel_update() {
    let m = Message::ChannelUpdate {
        channel: Channel {
            id: 11,
            name: "General".to_string(),
            description: Some("general chat".to_string()),
            parent_id: Some(1),
            members: vec![3, 5, 8],
        },
    };
    match round_trip(&m) {
        Message::ChannelUpdate { channel } => {
            assert_eq!(channel.id, 11);
            assert_eq!(channel.name, "General");
            assert_eq!(channel.description.as_deref(), Some("general chat"));
            assert_eq!(channel.parent_id, Some(1));
            assert_eq!(channel.members, vec![3, 5, 8]);
        },
        other => panic!("wrong variant: {:?}", other),
    }
}

#[test]
fn round_trip_data_variants() {
    let payload: Vec<u8> = vec![0, 1, 2, 250, 255];
    let m = Message::VoiceData { user_id: 1, channel_id: 2, data: payload.clone() };
    match round_trip(&m) {
        Message::VoiceData { user_id, channel_id, data } => {
            assert_eq!(user_id, 1);
            assert_eq!(channel_id, 2);
            assert_eq!(data, payload);
        },
        other => panic!("wrong variant: {:?}", other),
    }
    let m2 = Message::VideoData { user_id: 3, channel_id: 4, data: vec![] };
    match round_trip(&m2) {
        Message::VideoData { user_id, channel_id, data } => {
            assert_eq!(user_id, 3);
            assert_eq!(channel_id, 4);
            assert!(data.is_empty());
        },
        other => panic!("wrong variant: {:?}", other),
    }
    let m3 = Message::ScreenShareData { user_id: 5, channel_id: 6, data: vec![42; 1024] };
    match round_trip(&m3) {
        Message::ScreenShareData { user_id, channel_id, data } => {
            assert_eq!(user_id, 5);
            assert_eq!(channel_id, 6);
            assert_eq!(data.len(), 1024);
            assert!(data.iter().all(|b| *b == 42));
        },
        other => panic!("wrong variant: {:?}", other),
    }
}

#[test]
fn round_trip_server_info() {
    let m = Message::ServerInfo {
        server: Server {
            id: 1,
            name: "Open Reverb Server".to_string(),
            description: None,
            channels: vec![
                Channel {
                    id: 10,
                    name: "General".to_string(),
                    description: None,
                    parent_id: None,
                    members: vec![],
                },
                Channel {
                    id: 20,
                    name: "Gaming".to_string(),
                    description: Some("for gaming".to_string()),
                    parent_id: None,
                    members: vec![1],
                },
            ],
            users: vec![User { id: 1, username: "alice".to_string(), status: UserStatus::Online }],
        },
    };
    match round_trip(&m) {
        Message::ServerInfo { server } => {
            assert_eq!(server.id, 1);
            assert_eq!(server.name, "Open Reverb Server");
            assert!(server.description.is_none());
            assert_eq!(server.channels.len(), 2);
            assert_eq!(server.channels[0].name, "General");
            assert_eq!(server.channels[1].members, vec![1]);
            assert_eq!(server.users.len(), 1);
            assert_eq!(server.users[0].username, "alice");
        },
        other => panic!("wrong variant: {:?}", other),
    }
}

#[test]
fn round_trip_ping_pong_error() {
    match round_trip(&Message::Ping) {
        Message::Ping => {},
        other => panic!("wrong variant: {:?}", other),
    }
    match round_trip(&Message::Pong) {
        Message::Pong => {},
        other => panic!("wrong variant: {:?}", other),
    }
    let m = Message::Error { code: 404, message: "channel not found".to_string() };
    match round_trip(&m) {
        Message::Error { code, message } => {
            assert_eq!(code, 404);
            assert_eq!(message, "channel not found");
        },
        other => panic!("wrong variant: {:?}", other),
    }
}

#[test]
fn round_trip_unicode_strings() {
    let m = Message::LoginRequest {
        username: "ren\u{00e9}\u{6c34}\u{1f600}".to_string(),
        password: "p\u{00e4}ss".to_string(),
    };
    match round_trip(&m) {
        Message::LoginRequest { username, password } => {
            assert_eq!(username, "ren\u{00e9}\u{6c34}\u{1f600}");
            assert_eq!(password, "p\u{00e4}ss");
        },
        other => panic!("wrong variant: {:?}", other),
    }
}

#[test]
fn round_trip_at_frame_limit() {
    // The payload of a voice-data frame is 1 tag byte, two 8-byte ids and
    // a 4-byte length prefix; fill the rest up to the frame bound exactly.
    let data_len = MAX_FRAME_SIZE - 1 - 8 - 8 - 4;
    let m = Message::VoiceData { user_id: 1, channel_id: 2, data: vec![7; data_len] };
    let frame = encode(&m).expect("fits exactly at the limit");
    assert_eq!(frame.len(), 4 + MAX_FRAME_SIZE);
    match decode(&frame) {
        Decoded::Frame(Message::VoiceData { data, .. }, consumed) => {
            assert_eq!(consumed, frame.len());
            assert_eq!(data.len(), data_len);
        },
        other => panic!("expected a frame, got {:?}", other),
    }
    // One byte more and the message cannot be framed at all.
    let too_big = Message::VoiceData { user_id: 1, channel_id: 2, data: vec![7; data_len + 1] };
    assert!(encode(&too_big).is_none());
}

#[test]
fn partial_reads_need_more_data() {
    // Feeding every strict prefix of a frame reports NeedMoreData, and the
    // full buffer then decodes to the same message as an unsplit read.
    let m = Message::Error { code: 7, message: "split me".to_string() };
    let frame = encode(&m).expect("encodable");
    for cut in 0..frame.len() {
        let mut buf: Vec<u8> = frame[..cut].to_vec();
        match decode(&buf) {
            Decoded::NeedMoreData => {},
            other => panic!("prefix of {} bytes decoded to {:?}", cut, other),
        }
        buf.extend_from_slice(&frame[cut..]);
        match decode(&buf) {
            Decoded::Frame(Message::Error { code, message }, consumed) => {
                assert_eq!(code, 7);
                assert_eq!(message, "split me");
                assert_eq!(consumed, frame.len());
            },
            other => panic!("full buffer decoded to {:?}", other),
        }
    }
}

#[test]
fn decode_reads_only_first_frame() {
    let m1 = Message::Ping;
    let m2 = Message::Pong;
    let mut buf = encode(&m1).expect("encodable");
    let frame1_len = buf.len();
    buf.extend(encode(&m2).expect("encodable"));
    match decode(&buf) {
        Decoded::Frame(Message::Ping, consumed) => assert_eq!(consumed, frame1_len),
        other => panic!("unexpected {:?}", other),
    }
    drop_prefix(&mut buf, frame1_len);
    match decode(&buf) {
        Decoded::Frame(Message::Pong, consumed) => assert_eq!(consumed, buf.len()),
        other => panic!("unexpected {:?}", other),
    }
}

#[test]
fn oversized_length_prefix_is_malformed() {
    // A length prefix beyond the frame bound is an error, not an
    // allocation.
    let huge = (MAX_FRAME_SIZE as u32) + 1;
    let buf: Vec<u8> = huge.to_be_bytes().to_vec();
    match decode(&buf) {
        Decoded::MalformedFrame => {},
        other => panic!("unexpected {:?}", other),
    }
}

#[test]
fn garbage_payload_is_malformed() {
    // A known tag whose fields do not parse is a malformed frame.
    let payload: Vec<u8> = vec![2, 0, 0];  // a status update cut short
    let mut buf: Vec<u8> = (payload.len() as u32).to_be_bytes().to_vec();
    buf.extend(payload);
    match decode(&buf) {
        Decoded::MalformedFrame => {},
        other => panic!("unexpected {:?}", other),
    }
    // Trailing bytes after a well-formed body are malformed too.
    let mut payload2 = vec![18u8];  // a ping
    payload2.push(0);
    let mut buf2: Vec<u8> = (payload2.len() as u32).to_be_bytes().to_vec();
    buf2.extend(payload2);
    match decode(&buf2) {
        Decoded::MalformedFrame => {},
        other => panic!("unexpected {:?}", other),
    }
}

#[test]
fn unknown_tag_and_empty_payload_are_ignored() {
    // An unknown message kind is skipped silently, for forward
    // compatibility with richer clients.
    let payload: Vec<u8> = vec![200, 1, 2, 3];
    let mut buf: Vec<u8> = (payload.len() as u32).to_be_bytes().to_vec();
    buf.extend(payload);
    match decode(&buf) {
        Decoded::Ignored(consumed) => assert_eq!(consumed, buf.len()),
        other => panic!("unexpected {:?}", other),
    }
    // A zero-length payload is valid framing, not an error.
    let buf2: Vec<u8> = 0u32.to_be_bytes().to_vec();
    match decode(&buf2) {
        Decoded::Ignored(consumed) => assert_eq!(consumed, 4),
        other => panic!("unexpected {:?}", other),
    }
}
