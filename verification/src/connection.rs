//! Client-side connection state: what the client knows about its link to
//! the relay, and the request messages it produces.
//!
//! The socket itself lives outside: the caller opens the stream, feeds
//! decoded inbound messages through [`Connection::process_message`], and
//! writes the request messages these builders return.
use vstd::prelude::*;

use crate::error::OpenReverbError;
use crate::models::UserStatus;
use crate::protocol::{Message, MessageV};

verus! {

/// The client's view of its connection to the relay.
#[derive(Debug)]
pub struct Connection {
    connected: bool,
    user_id: Option<u64>,
    current_channel_id: Option<u64>,
}

impl Connection {
    /// A fresh, unconnected state.
    pub fn new() -> (r: Connection)
        ensures
            !r.connected(),
            r.user_id_spec() is None,
            r.channel_spec() is None,
    {
        Connection { connected: false, user_id: None, current_channel_id: None }
    }

    /// Whether the transport is currently open.
    pub closed spec fn connected(&self) -> bool {
        self.connected
    }

    /// The authenticated identity, if any.
    pub closed spec fn user_id_spec(&self) -> Option<u64> {
        self.user_id
    }

    /// The channel the client believes it is in, if any.
    pub closed spec fn channel_spec(&self) -> Option<u64> {
        self.current_channel_id
    }

    /// Whether the transport is currently open.
    pub fn is_connected(&self) -> (r: bool)
        ensures
            r == self.connected(),
    {
        self.connected
    }

    /// Records that the caller has opened the transport.
    pub fn connect(&mut self)
        ensures
            final(self).connected(),
            final(self).user_id_spec() == old(self).user_id_spec(),
            final(self).channel_spec() == old(self).channel_spec(),
    {
        self.connected = true;
    }

    /// Records that the transport is gone; the identity is forgotten, as
    /// reconnecting requires authenticating again.
    pub fn disconnect(&mut self)
        ensures
            !final(self).connected(),
            final(self).user_id_spec() is None,
    {
        self.connected = false;
        self.user_id = None;
    }

    /// Builds the login request to send; refused while not connected.
    pub fn login(&mut self, username: &str, password: &str) -> (r: Result<
        Message,
        OpenReverbError,
    >)
        ensures
            *final(self) == *old(self),
            old(self).connected() <==> r is Ok,
            r matches Ok(m) ==> m@ == (MessageV::LoginRequest {
                username: username@,
                password: password@,
            }),
    {
        if !self.connected {
            return Err(OpenReverbError::NetworkError("not connected to server".to_owned()));
        }
        Ok(
            Message::LoginRequest {
                username: username.to_owned(),
                password: password.to_owned(),
            },
        )
    }

    /// Digests one inbound message: a successful login response fixes the
    /// authenticated identity; everything else leaves the state alone.
    pub fn process_message(&mut self, message: &Message)
        ensures
            final(self).connected() == old(self).connected(),
            final(self).channel_spec() == old(self).channel_spec(),
            final(self).user_id_spec() == (match message@ {
                MessageV::LoginResponse { success, user_id, error } => if success && user_id
                    is Some {
                    user_id
                } else {
                    old(self).user_id_spec()
                },
                _ => old(self).user_id_spec(),
            }),
    {
        match message {
            Message::LoginResponse { success, user_id, error } => {
                if *success {
                    match user_id {
                        Some(uid) => {
                            self.user_id = Some(*uid);
                        },
                        None => {},
                    }
                }
            },
            _ => {},
        }
    }

    /// Builds the join request to send; refused while not connected.
    pub fn join_channel(&mut self, channel_id: u64) -> (r: Result<Message, OpenReverbError>)
        ensures
            *final(self) == *old(self),
            old(self).connected() <==> r is Ok,
            r matches Ok(m) ==> m@ == (MessageV::JoinChannel { channel_id }),
    {
        if !self.connected {
            return Err(OpenReverbError::NetworkError("not connected to server".to_owned()));
        }
        Ok(Message::JoinChannel { channel_id })
    }

    /// Builds the leave request to send; refused while not connected.
    pub fn leave_channel(&mut self, channel_id: u64) -> (r: Result<Message, OpenReverbError>)
        ensures
            *final(self) == *old(self),
            old(self).connected() <==> r is Ok,
            r matches Ok(m) ==> m@ == (MessageV::LeaveChannel { channel_id }),
    {
        if !self.connected {
            return Err(OpenReverbError::NetworkError("not connected to server".to_owned()));
        }
        Ok(Message::LeaveChannel { channel_id })
    }

    /// Builds a presence update for the authenticated identity; refused
    /// while not connected or not logged in.
    pub fn update_status(&mut self, status: UserStatus) -> (r: Result<Message, OpenReverbError>)
        ensures
            *final(self) == *old(self),
            (old(self).connected() && old(self).user_id_spec() is Some) <==> r is Ok,
            r matches Ok(m) ==> m@ == (MessageV::StatusUpdate {
                user_id: old(self).user_id_spec().unwrap(),
                status,
            }),
    {
        if !self.connected {
            return Err(OpenReverbError::NetworkError("not connected to server".to_owned()));
        }
        match self.user_id {
            Some(uid) => Ok(Message::StatusUpdate { user_id: uid, status }),
            None => Err(OpenReverbError::AuthError("not logged in".to_owned())),
        }
    }

    /// Builds a voice payload message; refused while not connected or not
    /// logged in.
    pub fn send_voice_data(&mut self, user_id: u64, channel_id: u64, data: Vec<u8>) -> (r: Result<
        Message,
        OpenReverbError,
    >)
        ensures
            *final(self) == *old(self),
            (old(self).connected() && old(self).user_id_spec() is Some) <==> r is Ok,
            r matches Ok(m) ==> m@ == (MessageV::VoiceData { user_id, channel_id, data: data@ }),
    {
        if !self.connected || self.user_id.is_none() {
            return Err(OpenReverbError::NetworkError("not connected or not logged in".to_owned()));
        }
        Ok(Message::VoiceData { user_id, channel_id, data })
    }

    /// Builds a video payload message; refused while not connected or not
    /// logged in.
    pub fn send_video_data(&mut self, user_id: u64, channel_id: u64, data: Vec<u8>) -> (r: Result<
        Message,
        OpenReverbError,
    >)
        ensures
            *final(self) == *old(self),
            (old(self).connected() && old(self).user_id_spec() is Some) <==> r is Ok,
            r matches Ok(m) ==> m@ == (MessageV::VideoData { user_id, channel_id, data: data@ }),
    {
        if !self.connected || self.user_id.is_none() {
            return Err(OpenReverbError::NetworkError("not connected or not logged in".to_owned()));
        }
        Ok(Message::VideoData { user_id, channel_id, data })
    }

    /// Builds a screen-share payload message; refused while not connected
    /// or not logged in.
    pub fn send_screen_share_data(&mut self, user_id: u64, channel_id: u64, data: Vec<u8>) -> (r:
        Result<Message, OpenReverbError>)
        ensures
            *final(self) == *old(self),
            (old(self).connected() && old(self).user_id_spec() is Some) <==> r is Ok,
            r matches Ok(m) ==> m@ == (MessageV::ScreenShareData {
                user_id,
                channel_id,
                data: data@,
            }),
    {
        if !self.connected || self.user_id.is_none() {
            return Err(OpenReverbError::NetworkError("not connected or not logged in".to_owned()));
        }
        Ok(Message::ScreenShareData { user_id, channel_id, data })
    }

    /// The channel the client believes it is in.
    pub fn get_current_channel_id(&self) -> (r: Option<u64>)
        ensures
            r == self.channel_spec(),
    {
        self.current_channel_id
    }

    /// Records the channel the client is in.
    pub fn set_current_channel_id(&mut self, channel_id: Option<u64>)
        ensures
            final(self).channel_spec() == channel_id,
            final(self).connected() == old(self).connected(),
            final(self).user_id_spec() == old(self).user_id_spec(),
    {
        self.current_channel_id = channel_id;
    }

    /// The authenticated identity, if any.
    pub fn get_user_id(&self) -> (r: Option<u64>)
        ensures
            r == self.user_id_spec(),
    {
        self.user_id
    }
}

} // verus!
