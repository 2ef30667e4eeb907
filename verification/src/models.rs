//! Data model of the relay: identities, channels, and the server snapshot.
//!
//! Identifiers are opaque unique tokens; the registry allocates them and
//! nothing outside it ever invents one.
use vstd::prelude::*;

verus! {

/// Presence of an identity as the registry reports it.
#[derive(Clone, Copy, Debug, PartialEq, Eq, Structural)]
pub enum UserStatus {
    Online,
    Away,
    DoNotDisturb,
    Offline,
}

/// An authenticated participant, stable for the life of the server process.
#[derive(Debug)]
pub struct User {
    pub id: u64,
    pub username: String,
    pub status: UserStatus,
}

/// Mathematical image of a [`User`].
pub ghost struct UserV {
    pub id: u64,
    pub username: Seq<char>,
    pub status: UserStatus,
}

impl View for User {
    type V = UserV;

    open spec fn view(&self) -> UserV {
        UserV { id: self.id, username: self.username@, status: self.status }
    }
}

impl Clone for User {
    /// Cloning preserves the abstract value.
    fn clone(&self) -> (res: Self)
        ensures
            res@ == self@,
    {
        User { id: self.id, username: self.username.clone(), status: self.status }
    }
}

/// A named group whose members receive each other's broadcasts.
#[derive(Debug)]
pub struct Channel {
    pub id: u64,
    pub name: String,
    pub description: Option<String>,
    pub parent_id: Option<u64>,
    pub members: Vec<u64>,
}

/// Mathematical image of a [`Channel`].
pub ghost struct ChannelV {
    pub id: u64,
    pub name: Seq<char>,
    pub description: Option<Seq<char>>,
    pub parent_id: Option<u64>,
    pub members: Seq<u64>,
}

/// The view of an optional string.
pub open spec fn opt_str_view(o: Option<String>) -> Option<Seq<char>> {
    match o {
        Option::Some(s) => Option::Some(s@),
        Option::None => Option::None,
    }
}

impl View for Channel {
    type V = ChannelV;

    open spec fn view(&self) -> ChannelV {
        ChannelV {
            id: self.id,
            name: self.name@,
            description: opt_str_view(self.description),
            parent_id: self.parent_id,
            members: self.members@,
        }
    }
}

/// Clones an optional string, preserving its view.
pub fn clone_opt_string(o: &Option<String>) -> (res: Option<String>)
    ensures
        opt_str_view(res) == opt_str_view(*o),
{
    match o {
        Option::Some(s) => Option::Some(s.clone()),
        Option::None => Option::None,
    }
}

impl Clone for Channel {
    /// Cloning preserves the abstract value.
    fn clone(&self) -> (res: Self)
        ensures
            res@ == self@,
    {
        Channel {
            id: self.id,
            name: self.name.clone(),
            description: clone_opt_string(&self.description),
            parent_id: self.parent_id,
            members: self.members.clone(),
        }
    }
}

/// A point-in-time snapshot of the whole registry: every channel and every
/// known identity.
#[derive(Debug)]
pub struct Server {
    pub id: u64,
    pub name: String,
    pub description: Option<String>,
    pub channels: Vec<Channel>,
    pub users: Vec<User>,
}

/// Mathematical image of a [`Server`] snapshot.
pub ghost struct ServerV {
    pub id: u64,
    pub name: Seq<char>,
    pub description: Option<Seq<char>>,
    pub channels: Seq<ChannelV>,
    pub users: Seq<UserV>,
}

impl View for Server {
    type V = ServerV;

    open spec fn view(&self) -> ServerV {
        ServerV {
            id: self.id,
            name: self.name@,
            description: opt_str_view(self.description),
            channels: self.channels@.map_values(|c: Channel| c@),
            users: self.users@.map_values(|u: User| u@),
        }
    }
}

/// Clones a channel list, preserving the sequence of abstract values.
pub fn clone_channels(v: &Vec<Channel>) -> (res: Vec<Channel>)
    ensures
        res@.map_values(|c: Channel| c@) == v@.map_values(|c: Channel| c@),
{
    let mut out: Vec<Channel> = Vec::new();
    let mut i: usize = 0;
    while i < v.len()
        invariant
            i <= v@.len(),
            out@.len() == i,
            forall|j: int| 0 <= j < i ==> out@[j]@ == v@[j]@,
        decreases v@.len() - i,
    {
        out.push(v[i].clone());
        i = i + 1;
    }
    proof {
        assert(out@.map_values(|c: Channel| c@) =~= v@.map_values(|c: Channel| c@));
    }
    out
}

/// Clones a user list, preserving the sequence of abstract values.
pub fn clone_users(v: &Vec<User>) -> (res: Vec<User>)
    ensures
        res@.map_values(|u: User| u@) == v@.map_values(|u: User| u@),
{
    let mut out: Vec<User> = Vec::new();
    let mut i: usize = 0;
    while i < v.len()
        invariant
            i <= v@.len(),
            out@.len() == i,
            forall|j: int| 0 <= j < i ==> out@[j]@ == v@[j]@,
        decreases v@.len() - i,
    {
        out.push(v[i].clone());
        i = i + 1;
    }
    proof {
        assert(out@.map_values(|u: User| u@) =~= v@.map_values(|u: User| u@));
    }
    out
}

impl Clone for Server {
    /// Cloning preserves the abstract value.
    fn clone(&self) -> (res: Self)
        ensures
            res@ == self@,
    {
        Server {
            id: self.id,
            name: self.name.clone(),
            description: clone_opt_string(&self.description),
            channels: clone_channels(&self.channels),
            users: clone_users(&self.users),
        }
    }
}

/// The kind of video capture a client runs; carried here so that stream
/// control messages can say which capture they speak of.
#[derive(Clone, Copy, Debug, PartialEq, Eq, Structural)]
pub enum CaptureType {
    Camera,
    Screen,
}

} // verus!
