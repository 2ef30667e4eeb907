//! The closed set of message kinds exchanged over the wire.
use vstd::prelude::*;

use crate::models::{Channel, ChannelV, Server, ServerV, User, UserStatus, UserV, opt_str_view,
    clone_opt_string};

verus! {

/// One wire message. Payload-bearing variants carry the sender, the channel,
/// and an opaque byte blob; the relay never looks inside the blob.
#[derive(Debug)]
pub enum Message {
    LoginRequest { username: String, password: String },
    LoginResponse { success: bool, user_id: Option<u64>, error: Option<String> },
    StatusUpdate { user_id: u64, status: UserStatus },
    UserJoined { user: User },
    UserLeft { user_id: u64 },
    JoinChannel { channel_id: u64 },
    LeaveChannel { channel_id: u64 },
    ChannelUpdate { channel: Channel },
    VoiceData { user_id: u64, channel_id: u64, data: Vec<u8> },
    VoiceStarted { user_id: u64 },
    VoiceStopped { user_id: u64 },
    VideoData { user_id: u64, channel_id: u64, data: Vec<u8> },
    VideoStarted { user_id: u64 },
    VideoStopped { user_id: u64 },
    ScreenShareData { user_id: u64, channel_id: u64, data: Vec<u8> },
    ScreenShareStarted { user_id: u64 },
    ScreenShareStopped { user_id: u64 },
    ServerInfo { server: Server },
    Ping,
    Pong,
    Error { code: u32, message: String },
}

/// Mathematical image of a [`Message`].
pub ghost enum MessageV {
    LoginRequest { username: Seq<char>, password: Seq<char> },
    LoginResponse { success: bool, user_id: Option<u64>, error: Option<Seq<char>> },
    StatusUpdate { user_id: u64, status: UserStatus },
    UserJoined { user: UserV },
    UserLeft { user_id: u64 },
    JoinChannel { channel_id: u64 },
    LeaveChannel { channel_id: u64 },
    ChannelUpdate { channel: ChannelV },
    VoiceData { user_id: u64, channel_id: u64, data: Seq<u8> },
    VoiceStarted { user_id: u64 },
    VoiceStopped { user_id: u64 },
    VideoData { user_id: u64, channel_id: u64, data: Seq<u8> },
    VideoStarted { user_id: u64 },
    VideoStopped { user_id: u64 },
    ScreenShareData { user_id: u64, channel_id: u64, data: Seq<u8> },
    ScreenShareStarted { user_id: u64 },
    ScreenShareStopped { user_id: u64 },
    ServerInfo { server: ServerV },
    Ping,
    Pong,
    Error { code: u32, message: Seq<char> },
}

impl View for Message {
    type V = MessageV;

    open spec fn view(&self) -> MessageV {
        match self {
            Message::LoginRequest { username, password } => MessageV::LoginRequest {
                username: username@,
                password: password@,
            },
            Message::LoginResponse { success, user_id, error } => MessageV::LoginResponse {
                success: *success,
                user_id: *user_id,
                error: opt_str_view(*error),
            },
            Message::StatusUpdate { user_id, status } => MessageV::StatusUpdate {
                user_id: *user_id,
                status: *status,
            },
            Message::UserJoined { user } => MessageV::UserJoined { user: user@ },
            Message::UserLeft { user_id } => MessageV::UserLeft { user_id: *user_id },
            Message::JoinChannel { channel_id } => MessageV::JoinChannel {
                channel_id: *channel_id,
            },
            Message::LeaveChannel { channel_id } => MessageV::LeaveChannel {
                channel_id: *channel_id,
            },
            Message::ChannelUpdate { channel } => MessageV::ChannelUpdate { channel: channel@ },
            Message::VoiceData { user_id, channel_id, data } => MessageV::VoiceData {
                user_id: *user_id,
                channel_id: *channel_id,
                data: data@,
            },
            Message::VoiceStarted { user_id } => MessageV::VoiceStarted { user_id: *user_id },
            Message::VoiceStopped { user_id } => MessageV::VoiceStopped { user_id: *user_id },
            Message::VideoData { user_id, channel_id, data } => MessageV::VideoData {
                user_id: *user_id,
                channel_id: *channel_id,
                data: data@,
            },
            Message::VideoStarted { user_id } => MessageV::VideoStarted { user_id: *user_id },
            Message::VideoStopped { user_id } => MessageV::VideoStopped { user_id: *user_id },
            Message::ScreenShareData { user_id, channel_id, data } => MessageV::ScreenShareData {
                user_id: *user_id,
                channel_id: *channel_id,
                data: data@,
            },
            Message::ScreenShareStarted { user_id } => MessageV::ScreenShareStarted {
                user_id: *user_id,
            },
            Message::ScreenShareStopped { user_id } => MessageV::ScreenShareStopped {
                user_id: *user_id,
            },
            Message::ServerInfo { server } => MessageV::ServerInfo { server: server@ },
            Message::Ping => MessageV::Ping,
            Message::Pong => MessageV::Pong,
            Message::Error { code, message } => MessageV::Error {
                code: *code,
                message: message@,
            },
        }
    }
}

impl Clone for Message {
    /// Cloning preserves the abstract value.
    fn clone(&self) -> (res: Self)
        ensures
            res@ == self@,
    {
        match self {
            Message::LoginRequest { username, password } => Message::LoginRequest {
                username: username.clone(),
                password: password.clone(),
            },
            Message::LoginResponse { success, user_id, error } => Message::LoginResponse {
                success: *success,
                user_id: *user_id,
                error: clone_opt_string(error),
            },
            Message::StatusUpdate { user_id, status } => Message::StatusUpdate {
                user_id: *user_id,
                status: *status,
            },
            Message::UserJoined { user } => Message::UserJoined { user: user.clone() },
            Message::UserLeft { user_id } => Message::UserLeft { user_id: *user_id },
            Message::JoinChannel { channel_id } => Message::JoinChannel {
                channel_id: *channel_id,
            },
            Message::LeaveChannel { channel_id } => Message::LeaveChannel {
                channel_id: *channel_id,
            },
            Message::ChannelUpdate { channel } => Message::ChannelUpdate {
                channel: channel.clone(),
            },
            Message::VoiceData { user_id, channel_id, data } => Message::VoiceData {
                user_id: *user_id,
                channel_id: *channel_id,
                data: data.clone(),
            },
            Message::VoiceStarted { user_id } => Message::VoiceStarted { user_id: *user_id },
            Message::VoiceStopped { user_id } => Message::VoiceStopped { user_id: *user_id },
            Message::VideoData { user_id, channel_id, data } => Message::VideoData {
                user_id: *user_id,
                channel_id: *channel_id,
                data: data.clone(),
            },
            Message::VideoStarted { user_id } => Message::VideoStarted { user_id: *user_id },
            Message::VideoStopped { user_id } => Message::VideoStopped { user_id: *user_id },
            Message::ScreenShareData { user_id, channel_id, data } => Message::ScreenShareData {
                user_id: *user_id,
                channel_id: *channel_id,
                data: data.clone(),
            },
            Message::ScreenShareStarted { user_id } => Message::ScreenShareStarted {
                user_id: *user_id,
            },
            Message::ScreenShareStopped { user_id } => Message::ScreenShareStopped {
                user_id: *user_id,
            },
            Message::ServerInfo { server } => Message::ServerInfo { server: server.clone() },
            Message::Ping => Message::Ping,
            Message::Pong => Message::Pong,
            Message::Error { code, message } => Message::Error {
                code: *code,
                message: message.clone(),
            },
        }
    }
}

} // verus!
