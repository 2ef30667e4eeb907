//! Credential handling: hashing round trips, the account store, and the
//! registry's authentication policy.
use open_reverb::auth::{hash_password, verify_password};
use open_reverb::database::Database;
use open_reverb::models::UserStatus;
use open_reverb::server::Server;
use open_reverb::session::Session;

#[test]
fn hash_then_verify_round_trip() {
    let hash = hash_password("correct horse").expect("hashing succeeds");
    assert_eq!(verify_password("correct horse", &hash).unwrap(), true);
    assert_eq!(verify_password("wrong horse", &hash).unwrap(), false);
}

#[test]
fn malformed_hash_is_an_error() {
    assert!(verify_password("anything", "not a phc string").is_err());
}

#[test]
fn database_keeps_usernames_unique() {
    let mut db = Database::new();
    assert!(db.add_user("alice", "$fake$hash", 1));
    assert!(!db.add_user("alice", "$other$hash", 2));
    assert!(db.add_user("bob", "$fake$hash", 2));
    let cred = db.get_user("alice").expect("stored");
    assert_eq!(cred.username, "alice");
    assert_eq!(cred.password_hash, "$fake$hash");
    assert_eq!(db.get_user_id("alice"), Some(1));
    assert_eq!(db.get_user_id("bob"), Some(2));
    assert!(db.get_user("carol").is_none());
    assert_eq!(db.get_user_id("carol"), None);
}

#[test]
fn wrong_password_is_refused() {
    let mut srv = Server::new();
    let uid = srv.authenticate("alice", "right").expect("first registration");
    // Free the identity again so only the password decides.
    srv.remove_user(uid);
    assert!(srv.authenticate("alice", "wrong").is_err());
    assert_eq!(srv.authenticate("alice", "right").unwrap(), uid);
}

#[test]
fn connected_identity_is_not_hijacked() {
    let mut srv = Server::new();
    let uid = srv.authenticate("alice", "pw").expect("first registration");
    assert_eq!(srv.get_user(uid).unwrap().status, UserStatus::Online);
    // A second login for the same name while the identity is online is
    // refused rather than hijacking the live session.
    assert!(srv.authenticate("alice", "pw").is_err());
    // After the first session's teardown the identity is offline and the
    // same account resumes under the same token.
    srv.remove_user(uid);
    assert_eq!(srv.get_user(uid).unwrap().status, UserStatus::Offline);
    assert_eq!(srv.authenticate("alice", "pw").unwrap(), uid);
}

#[test]
fn failed_login_keeps_session_connected() {
    let mut srv = Server::new();
    let mut s1 = Session::new();
    let ok = s1.handle_message(
        &mut srv,
        open_reverb::protocol::Message::LoginRequest {
            username: "alice".to_string(),
            password: "pw".to_string(),
        },
    );
    assert_eq!(ok.len(), 2);
    // A second connection trying the same identity is told no and may
    // retry without reconnecting.
    let mut s2 = Session::new();
    let failed = s2.handle_message(
        &mut srv,
        open_reverb::protocol::Message::LoginRequest {
            username: "alice".to_string(),
            password: "pw".to_string(),
        },
    );
    assert_eq!(failed.len(), 1);
    match &failed[0] {
        open_reverb::protocol::Message::LoginResponse { success, user_id, error } => {
            assert!(!*success);
            assert!(user_id.is_none());
            assert!(error.is_some());
        },
        other => panic!("expected a login response, got {:?}", other),
    }
    assert!(matches!(s2.state, open_reverb::session::SessionState::Connected));
}
