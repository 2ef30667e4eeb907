//! Client-side state: the connection's request builders, the login screen
//! and the configuration defaults.
use open_reverb::config::{ServerConfig, Theme};
use open_reverb::connection::Connection;
use open_reverb::login::LoginScreen;
use open_reverb::models::{CaptureType, UserStatus};
use open_reverb::protocol::Message;

#[test]
fn connection_refuses_requests_while_disconnected() {
    let mut conn = Connection::new();
    assert!(!conn.is_connected());
    assert!(conn.login("alice", "pw").is_err());
    assert!(conn.join_channel(1).is_err());
    assert!(conn.leave_channel(1).is_err());
    assert!(conn.update_status(UserStatus::Away).is_err());
    assert!(conn.send_voice_data(1, 2, vec![1]).is_err());
}

#[test]
fn connection_builds_requests_once_connected() {
    let mut conn = Connection::new();
    conn.connect();
    assert!(conn.is_connected());
    match conn.login("alice", "pw").unwrap() {
        Message::LoginRequest { username, password } => {
            assert_eq!(username, "alice");
            assert_eq!(password, "pw");
        },
        other => panic!("expected a login request, got {:?}", other),
    }
    match conn.join_channel(5).unwrap() {
        Message::JoinChannel { channel_id } => assert_eq!(channel_id, 5),
        other => panic!("expected a join request, got {:?}", other),
    }
    // Payload builders still need a login response first.
    assert!(conn.update_status(UserStatus::Away).is_err());
    conn.process_message(
        &Message::LoginResponse { success: true, user_id: Some(9), error: None },
    );
    assert_eq!(conn.get_user_id(), Some(9));
    match conn.update_status(UserStatus::Away).unwrap() {
        Message::StatusUpdate { user_id, status } => {
            assert_eq!(user_id, 9);
            assert_eq!(status, UserStatus::Away);
        },
        other => panic!("expected a status update, got {:?}", other),
    }
    match conn.send_video_data(9, 5, vec![4, 4]).unwrap() {
        Message::VideoData { user_id, channel_id, data } => {
            assert_eq!(user_id, 9);
            assert_eq!(channel_id, 5);
            assert_eq!(data, vec![4, 4]);
        },
        other => panic!("expected video data, got {:?}", other),
    }
    match conn.send_screen_share_data(9, 5, vec![]).unwrap() {
        Message::ScreenShareData { data, .. } => assert!(data.is_empty()),
        other => panic!("expected screen-share data, got {:?}", other),
    }
    conn.set_current_channel_id(Some(5));
    assert_eq!(conn.get_current_channel_id(), Some(5));
    conn.disconnect();
    assert!(!conn.is_connected());
    assert_eq!(conn.get_user_id(), None);
}

#[test]
fn failed_login_response_is_ignored_by_the_client() {
    let mut conn = Connection::new();
    conn.connect();
    conn.process_message(
        &Message::LoginResponse {
            success: false,
            user_id: Some(3),
            error: Some("no".to_string()),
        },
    );
    assert_eq!(conn.get_user_id(), None);
}

#[test]
fn login_screen_tracks_credentials_and_errors() {
    let mut screen = LoginScreen::new(
        "127.0.0.1:8080".to_string(),
        Some("alice".to_string()),
        true,
    );
    assert_eq!(screen.get_server_url(), "127.0.0.1:8080");
    assert!(!screen.is_connecting());
    let (user, pass, remember) = screen.get_credentials();
    assert_eq!(user, "alice");
    assert_eq!(pass, "");
    assert!(remember);
    screen.set_error("connection refused".to_string());
    assert!(!screen.is_connecting());
}

#[test]
fn server_config_defaults() {
    let cfg = ServerConfig::default();
    assert_eq!(cfg.host, "0.0.0.0");
    assert_eq!(cfg.port, 8080);
    assert_eq!(cfg.max_connections, 1000);
    assert_eq!(cfg.database_url, "sqlite::memory:");
}

#[test]
fn plain_enums_are_usable() {
    assert_eq!(Theme::System, Theme::System);
    assert!(Theme::Light != Theme::Dark);
    assert_eq!(CaptureType::Camera, CaptureType::Camera);
    assert!(CaptureType::Camera != CaptureType::Screen);
}
