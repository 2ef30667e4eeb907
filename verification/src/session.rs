//! The per-connection session state machine.
//!
//! A session interprets one peer's inbound messages against the registry
//! and hub, and produces the direct replies that the connection's writer
//! sends back. Broadcasts to other sessions go through the hub's queues;
//! this module never does I/O itself. The caller runs the inbound loop:
//! decode a frame, call [`Session::handle_message`], write the replies,
//! and drain the hub queue; on connection loss it calls [`Session::close`]
//! exactly once.
use vstd::prelude::*;

use crate::auth::verifies;
use crate::models::{Channel, User, UserStatus};
use crate::protocol::{Message, MessageV};
use crate::server::{Server, enqueue};

verus! {

/// Where a session stands: freshly connected, authenticated into an
/// identity, member of a channel, or torn down.
#[derive(Clone, Copy, Debug, PartialEq, Eq, Structural)]
pub enum SessionState {
    Connected,
    Authenticated,
    InChannel,
    Closed,
}

/// The state a session owns: its stage and non-owning references (by
/// token) to its identity and channel.
#[derive(Debug)]
pub struct Session {
    pub state: SessionState,
    pub user_id: Option<u64>,
    pub channel_id: Option<u64>,
}

/// The error code a session sends for a join request naming an unknown
/// channel.
pub const CODE_CHANNEL_NOT_FOUND: u32 = 404;

/// The relayed form of a message: payload and stream-control messages are
/// forwarded to the rest of the sender's channel with the sender identity
/// and channel taken from the session, never from the peer's claim.
pub open spec fn relay_form(m: MessageV, u: u64, c: u64) -> Option<MessageV> {
    match m {
        MessageV::VoiceData { user_id, channel_id, data } => Some(
            MessageV::VoiceData { user_id: u, channel_id: c, data },
        ),
        MessageV::VideoData { user_id, channel_id, data } => Some(
            MessageV::VideoData { user_id: u, channel_id: c, data },
        ),
        MessageV::ScreenShareData { user_id, channel_id, data } => Some(
            MessageV::ScreenShareData { user_id: u, channel_id: c, data },
        ),
        MessageV::VoiceStarted { user_id } => Some(MessageV::VoiceStarted { user_id: u }),
        MessageV::VoiceStopped { user_id } => Some(MessageV::VoiceStopped { user_id: u }),
        MessageV::VideoStarted { user_id } => Some(MessageV::VideoStarted { user_id: u }),
        MessageV::VideoStopped { user_id } => Some(MessageV::VideoStopped { user_id: u }),
        MessageV::ScreenShareStarted { user_id } => Some(
            MessageV::ScreenShareStarted { user_id: u },
        ),
        MessageV::ScreenShareStopped { user_id } => Some(
            MessageV::ScreenShareStopped { user_id: u },
        ),
        _ => None,
    }
}

/// The views of a reply list.
pub open spec fn replies_v(r: Seq<Message>) -> Seq<MessageV> {
    r.map_values(|m: Message| m@)
}

impl Session {
    /// The session's own fields are consistent with its stage.
    pub open spec fn wf(&self) -> bool {
        match self.state {
            SessionState::Connected => self.user_id is None && self.channel_id is None,
            SessionState::Authenticated => self.user_id is Some && self.channel_id is None,
            SessionState::InChannel => self.user_id is Some && self.channel_id is Some,
            SessionState::Closed => true,
        }
    }

    /// The session agrees with the registry: its identity exists, and
    /// while it is in a channel its subscription feeds from that channel
    /// and its identity stands in that channel's member set.
    pub open spec fn in_sync(&self, srv: &Server) -> bool {
        &&& self.wf()
        &&& match self.user_id {
            Option::Some(u) => srv.has_user(u),
            Option::None => true,
        }
        &&& match self.state {
            SessionState::InChannel => {
                let u = self.user_id.unwrap();
                let c = self.channel_id.unwrap();
                srv.subscribed(u) && srv.sub_channel(u) == c && srv.member_in(u, c)
            },
            _ => true,
        }
    }

    /// A fresh session for one accepted connection: unauthenticated, in no
    /// channel.
    pub fn new() -> (r: Session)
        ensures
            r.state is Connected,
            r.user_id is None,
            r.channel_id is None,
            r.wf(),
    {
        Session { state: SessionState::Connected, user_id: None, channel_id: None }
    }

    /// Tears the session down after connection loss or a fatal protocol
    /// error. Runs exactly once: the identity leaves whatever channel it
    /// occupied, its subscription is dropped, its presence becomes
    /// Offline, and every other member of that channel has a member-left
    /// notice queued.
    pub fn close(&mut self, srv: &mut Server)
        requires
            old(self).in_sync(old(srv)),
            old(srv).wf(),
        ensures
            final(srv).wf(),
            final(self).state is Closed,
            final(self).in_sync(final(srv)),
            old(self).user_id matches Some(u) ==> (forall|c: u64| !final(srv).member_in(u, c))
                && !final(srv).subscribed(u) && final(srv).user_status(u) == UserStatus::Offline,
            old(self).state is InChannel ==> (forall|x: u64|
                old(srv).subscribed(x) && old(srv).sub_channel(x) == old(self).channel_id.unwrap() && x != old(self).user_id.unwrap() ==> #[trigger] final(srv).queue_of(x) == enqueue(
                    old(srv).queue_of(x),
                    MessageV::UserLeft { user_id: old(self).user_id.unwrap() },
                )),
            old(self).state is InChannel ==> (forall|x: u64|
                old(srv).subscribed(x) && old(srv).sub_channel(x) != old(self).channel_id.unwrap() && x != old(self).user_id.unwrap() ==> #[trigger] final(srv).queue_of(x) == old(srv).queue_of(x)),
            !(old(self).state is InChannel) ==> (forall|x: u64|
                old(srv).subscribed(x) && x != (match old(self).user_id {
                    Option::Some(u) => u,
                    Option::None => 0,
                }) ==> #[trigger] final(srv).queue_of(x) == old(srv).queue_of(x)),
            old(self).user_id is None ==> *final(srv) == *old(srv),
            forall|uu: u64| #[trigger] final(srv).has_user(uu) == old(srv).has_user(uu),
            forall|c: u64| #[trigger] final(srv).has_channel(c) == old(srv).has_channel(c),
    {
        let in_chan = match self.state {
            SessionState::InChannel => true,
            _ => false,
        };
        let ghost pre = *srv;
        match self.user_id {
            Some(u) => {
                if in_chan {
                    match self.channel_id {
                        Some(c) => {
                            let left = Message::UserLeft { user_id: u };
                            srv.publish(c, u, &left);
                            let ghost mid = *srv;
                            srv.remove_user(u);
                            proof {
                                assert forall|x: u64|
                                    pre.subscribed(x) && pre.sub_channel(x) == c && x
                                        != u implies #[trigger] srv.queue_of(x) == enqueue(
                                    pre.queue_of(x),
                                    MessageV::UserLeft { user_id: u },
                                ) by {
                                    assert(mid.subscribed(x));
                                    assert(mid.queue_of(x) == enqueue(pre.queue_of(x), left@));
                                    assert(srv.sub_channel(x) == mid.sub_channel(x));
                                }
                                assert forall|x: u64|
                                    pre.subscribed(x) && pre.sub_channel(x) != c && x
                                        != u implies #[trigger] srv.queue_of(x) == pre.queue_of(
                                    x,
                                ) by {
                                    assert(mid.subscribed(x));
                                    assert(mid.queue_of(x) == pre.queue_of(x));
                                    assert(srv.sub_channel(x) == mid.sub_channel(x));
                                }
                            }
                        },
                        None => {
                            proof {
                                assert(false);
                            }
                        },
                    }
                } else {
                    srv.remove_user(u);
                    proof {
                        assert forall|x: u64|
                            pre.subscribed(x) && x != u implies #[trigger] srv.queue_of(x)
                            == pre.queue_of(x) by {
                            assert(srv.sub_channel(x) == pre.sub_channel(x));
                        }
                    }
                }
            },
            None => {},
        }
        self.state = SessionState::Closed;
    }

    /// Publishes one already-normalized message to the rest of the
    /// session's current channel.
    fn publish_in_channel(&self, srv: &mut Server, fm: &Message)
        requires
            old(srv).wf(),
            self.state is InChannel,
            self.in_sync(old(srv)),
        ensures
            final(srv).wf(),
            self.in_sync(final(srv)),
            forall|x: u64|
                old(srv).subscribed(x) && old(srv).sub_channel(x) == self.channel_id.unwrap()
                    && x != self.user_id.unwrap() ==> #[trigger] final(srv).queue_of(x)
                    == enqueue(old(srv).queue_of(x), fm@),
            forall|x: u64|
                old(srv).subscribed(x) && (old(srv).sub_channel(x) != self.channel_id.unwrap()
                    || x == self.user_id.unwrap()) ==> #[trigger] final(srv).queue_of(x) == old(srv).queue_of(x),
            final(srv).users_v() == old(srv).users_v(),
            final(srv).channels_v() == old(srv).channels_v(),
            forall|x: u64| #[trigger] final(srv).subscribed(x) == old(srv).subscribed(x),
            forall|x: u64|
                old(srv).subscribed(x) ==> #[trigger] final(srv).sub_channel(x) == old(srv).sub_channel(x),
            forall|uu: u64| #[trigger] final(srv).has_user(uu) == old(srv).has_user(uu),
            forall|c: u64| #[trigger] final(srv).has_channel(c) == old(srv).has_channel(c),
            forall|uu: u64|
                old(srv).has_user(uu) ==> #[trigger] final(srv).user_status(uu) == old(srv).user_status(uu),
            forall|c: u64, x: u64|
                old(srv).has_channel(c) ==> #[trigger] final(srv).members_of(c).contains(x)
                    == old(srv).members_of(c).contains(x),
        {
        let ghost pre = *srv;
        let u = match self.user_id {
            Some(u) => u,
            None => {
                proof {
                    assert(false);
                }
                0
            },
        };
        let c = match self.channel_id {
            Some(c) => c,
            None => {
                proof {
                    assert(false);
                }
                0
            },
        };
        srv.publish(c, u, fm);
        proof {
            srv.lemma_same_channel_ids(&pre);
            assert forall|uu: u64| #[trigger] srv.has_user(uu) == pre.has_user(uu) by {
                if pre.has_user(uu) {
                    let i = pre.uidx(uu);
                    assert(srv.users_v()[i].id == uu);
                }
                if srv.has_user(uu) {
                    let i = srv.uidx(uu);
                    assert(pre.users_v()[i].id == uu);
                }
            }
            assert forall|uu: u64|
                pre.has_user(uu) implies #[trigger] srv.user_status(uu) == pre.user_status(
                uu,
            ) by {
                let i = pre.uidx(uu);
                assert(srv.users_v()[i].id == uu);
                assert(srv.has_user(uu));
                lemma_uidx_same(srv, &pre, uu);
            }
            assert forall|c2: u64, x: u64|
                pre.has_channel(c2) implies #[trigger] srv.members_of(c2).contains(x)
                == pre.members_of(c2).contains(x) by {
                assert(srv.has_channel(c2));
                assert(srv.cidx(c2) == pre.cidx(c2));
                assert(srv.members_of(c2) == pre.members_of(c2));
            }
            assert(self.in_sync(srv)) by {
                assert(srv.subscribed(u) == pre.subscribed(u));
                assert(srv.sub_channel(u) == pre.sub_channel(u));
                assert(srv.member_in(u, c)) by {
                    assert(srv.cidx(c) == pre.cidx(c));
                    assert(srv.members_of(c) == pre.members_of(c));
                }
            }
        }
    }

    /// Handles a login request in the `Connected` state.
    fn do_login(&mut self, srv: &mut Server, username: String, password: String) -> (r: Vec<
        Message,
    >)
        requires
            old(self).in_sync(old(srv)),
            old(srv).wf(),
            old(self).state is Connected,
        ensures
            final(srv).wf(),
            final(self).in_sync(final(srv)),
            final(self).channel_id is None,
            final(self).state is Authenticated || final(self).state is Connected,
            final(srv).channels_v() == old(srv).channels_v(),
            final(srv).subs_v() == old(srv).subs_v(),
            final(self).state is Authenticated ==> {
                &&& final(self).user_id matches Some(uid) && final(srv).has_user(uid) && final(srv).user_status(uid) == UserStatus::Online
                &&& replies_v(r@).len() == 2
                &&& replies_v(r@)[0] == MessageV::LoginResponse {
                    success: true,
                    user_id: final(self).user_id,
                    error: Option::None,
                }
                &&& (replies_v(r@)[1] matches MessageV::ServerInfo { server } && server.channels
                    == final(srv).channels_v() && server.users == final(srv).users_v())
            },
            final(self).state is Connected ==> {
                &&& *final(self) == *old(self)
                &&& *final(srv) == *old(srv)
                &&& replies_v(r@).len() == 1
                &&& (replies_v(r@)[0] matches MessageV::LoginResponse { success, user_id, error }
                    && success == false && user_id is None)
            },
            old(srv).db_has(username@) ==> (final(self).state is Authenticated <==> (verifies(
                password@,
                old(srv).db_hash(username@),
            ) && old(srv).user_status(old(srv).db_id(username@)) == UserStatus::Offline)),
            old(srv).db_has(username@) && final(self).state is Authenticated ==> final(self).user_id == Some(old(srv).db_id(username@)),
            !old(srv).db_has(username@) && final(self).state is Authenticated ==> (final(self).user_id matches Some(uid) && !old(srv).has_user(uid) && final(srv).db_has(
                username@,
            ) && final(srv).db_id(username@) == uid && final(srv).user_name(uid) == username@),
    {
        let mut replies: Vec<Message> = Vec::new();
        match srv.authenticate(username.as_str(), password.as_str()) {
            Ok(uid) => {
                self.user_id = Some(uid);
                self.state = SessionState::Authenticated;
                replies.push(
                    Message::LoginResponse { success: true, user_id: Some(uid), error: None },
                );
                let info = srv.get_server_info();
                replies.push(Message::ServerInfo { server: info });
                proof {
                    assert(replies_v(replies@).len() == 2);
                    assert(replies_v(replies@)[0] == replies@[0]@);
                    assert(replies_v(replies@)[1] == replies@[1]@);
                }
                replies
            },
            Err(e) => {
                let detail = e.detail().clone();
                replies.push(
                    Message::LoginResponse {
                        success: false,
                        user_id: None,
                        error: Some(detail),
                    },
                );
                proof {
                    assert(replies_v(replies@).len() == 1);
                    assert(replies_v(replies@)[0] == replies@[0]@);
                }
                replies
            },
        }
    }

    /// Handles a join request from an authenticated session: implicit
    /// leave of the previous channel, join, subscribe, announce.
    #[verifier::rlimit(100)]
    fn do_join(&mut self, srv: &mut Server, cid: u64) -> (r: Vec<Message>)
        requires
            old(self).in_sync(old(srv)),
            old(srv).wf(),
            old(self).state is Authenticated || old(self).state is InChannel,
        ensures
            final(srv).wf(),
            final(self).in_sync(final(srv)),
            final(self).user_id == old(self).user_id,
            !old(srv).has_channel(cid) ==> {
                &&& *final(self) == *old(self)
                &&& *final(srv) == *old(srv)
                &&& replies_v(r@).len() == 1
                &&& (replies_v(r@)[0] matches MessageV::Error { code, message } && code
                    == CODE_CHANNEL_NOT_FOUND)
            },
            old(srv).has_channel(cid) ==> {
                let u = old(self).user_id.unwrap();
                &&& final(self).state is InChannel
                &&& final(self).channel_id == Some(cid)
                &&& final(srv).member_in(u, cid)
                &&& final(srv).subscribed(u) && final(srv).sub_channel(u) == cid
                &&& final(srv).queue_of(u) == Seq::<MessageV>::empty()
                &&& forall|c: u64| c != cid ==> !final(srv).member_in(u, c)
                &&& final(srv).users_v() == old(srv).users_v()
                &&& (forall|c: u64| #[trigger]
                    final(srv).has_channel(c) == old(srv).has_channel(c))
                &&& replies_v(r@).len() == 1
                &&& (replies_v(r@)[0] matches MessageV::ChannelUpdate { channel } && channel
                    == final(srv).channels_v()[final(srv).cidx(cid)] && channel.id == cid
                    && channel.members.contains(u))
            },
            old(srv).has_channel(cid) && (old(self).state is Authenticated || (old(self).state is InChannel && old(self).channel_id.unwrap() == cid)) ==> {
                let u = old(self).user_id.unwrap();
                &&& forall|x: u64|
                    old(srv).subscribed(x) && x != u ==> #[trigger] final(srv).queue_of(x) == (
                    if old(srv).sub_channel(x) == cid {
                        enqueue(
                            old(srv).queue_of(x),
                            MessageV::UserJoined {
                                user: old(srv).users_v()[old(srv).uidx(u)],
                            },
                        )
                    } else {
                        old(srv).queue_of(x)
                    })
            },
            old(srv).has_channel(cid) && old(self).state is InChannel && old(self).channel_id.unwrap() != cid ==> {
                let u = old(self).user_id.unwrap();
                let c_old = old(self).channel_id.unwrap();
                &&& forall|x: u64|
                    old(srv).subscribed(x) && x != u ==> #[trigger] final(srv).queue_of(x) == (
                    if old(srv).sub_channel(x) == cid {
                        enqueue(
                            old(srv).queue_of(x),
                            MessageV::UserJoined {
                                user: old(srv).users_v()[old(srv).uidx(u)],
                            },
                        )
                    } else if old(srv).sub_channel(x) == c_old {
                        enqueue(old(srv).queue_of(x), MessageV::UserLeft { user_id: u })
                    } else {
                        old(srv).queue_of(x)
                    })
            },
    {
        let mut replies: Vec<Message> = Vec::new();
        let u = match self.user_id {
            Some(u) => u,
            None => {
                proof {
                    assert(false);
                }
                0
            },
        };
        if srv.get_channel(cid).is_none() {
            replies.push(
                Message::Error {
                    code: CODE_CHANNEL_NOT_FOUND,
                    message: "channel not found".to_owned(),
                },
            );
            proof {
                assert(replies_v(replies@).len() == 1);
                assert(replies_v(replies@)[0] == replies@[0]@);
            }
            return replies;
        }
        let ghost s0 = *srv;
        let in_chan = match self.state {
            SessionState::InChannel => true,
            _ => false,
        };
        let mut left_old: bool = false;
        let ghost mut c_old: u64 = 0u64;
        if in_chan {
            match self.channel_id {
                Some(co) => {
                    if co != cid {
                        let left = Message::UserLeft { user_id: u };
                        self.publish_in_channel(srv, &left);
                        left_old = true;
                        proof {
                            c_old = co;
                        }
                    }
                },
                None => {
                    proof {
                        assert(false);
                    }
                },
            }
        }
        let ghost s1 = *srv;
        let okj = srv.join_channel(u, cid);
        proof {
            assert(okj);
        }
        let ghost s2 = *srv;
        let user = match srv.get_user(u) {
            Some(us) => us.clone(),
            None => {
                proof {
                    assert(false);
                }
                User { id: u, username: String::new(), status: UserStatus::Online }
            },
        };
        let joined = Message::UserJoined { user };
        self.state = SessionState::InChannel;
        self.channel_id = Some(cid);
        self.publish_in_channel(srv, &joined);
        proof {
            lemma_uidx_same(&s1, &s0, u);
            lemma_uidx_same(&s2, &s0, u);
            assert(joined@ == MessageV::UserJoined { user: s0.users_v()[s0.uidx(u)] });
            assert(srv.queue_of(u) =~= Seq::<MessageV>::empty()) by {
                assert(s2.queue_of(u) == Seq::<MessageV>::empty());
            }
            assert forall|x: u64|
                s0.subscribed(x) && x != u implies #[trigger] srv.queue_of(x) == (if s0.sub_channel(
                x,
            ) == cid {
                enqueue(s0.queue_of(x), joined@)
            } else if left_old && s0.sub_channel(x) == c_old {
                enqueue(s0.queue_of(x), MessageV::UserLeft { user_id: u })
            } else {
                s0.queue_of(x)
            }) by {
                assert(s1.subscribed(x));
                assert(s1.sub_channel(x) == s0.sub_channel(x));
                assert(s2.subscribed(x));
                assert(s2.sub_channel(x) == s1.sub_channel(x));
                assert(s2.queue_of(x) == s1.queue_of(x));
                if s0.sub_channel(x) == cid {
                    assert(s1.queue_of(x) == s0.queue_of(x));
                    assert(srv.queue_of(x) == enqueue(s2.queue_of(x), joined@));
                } else if left_old && s0.sub_channel(x) == c_old {
                    assert(s1.queue_of(x) == enqueue(
                        s0.queue_of(x),
                        MessageV::UserLeft { user_id: u },
                    ));
                    assert(srv.queue_of(x) == s2.queue_of(x));
                } else {
                    assert(s1.queue_of(x) == s0.queue_of(x));
                    assert(srv.queue_of(x) == s2.queue_of(x));
                }
            }
        }
        proof {
            assert forall|c: u64| c != cid implies !srv.member_in(u, c) by {
                if srv.member_in(u, c) {
                    assert(s2.has_channel(c));
                    assert(srv.members_of(c).contains(u) == s2.members_of(c).contains(u));
                    assert(s2.member_in(u, c));
                }
            }
        }
        let roster = match srv.get_channel(cid) {
            Some(ch) => ch.clone(),
            None => {
                proof {
                    assert(false);
                }
                Channel {
                    id: cid,
                    name: String::new(),
                    description: None,
                    parent_id: None,
                    members: Vec::new(),
                }
            },
        };
        proof {
            assert(roster@ == srv.channels_v()[srv.cidx(cid)]);
            assert(roster@.id == cid);
            assert(roster@.members.contains(u)) by {
                assert(srv.member_in(u, cid));
            }
        }
        replies.push(Message::ChannelUpdate { channel: roster });
        proof {
            assert(replies_v(replies@).len() == 1);
            assert(replies_v(replies@)[0] == replies@[0]@);
        }
        replies
    }

    /// Handles a leave request: idempotent; in a channel it announces the
    /// departure to the rest of the channel, then unsubscribes.
    fn do_leave(&mut self, srv: &mut Server)
        requires
            old(self).in_sync(old(srv)),
            old(srv).wf(),
        ensures
            final(srv).wf(),
            final(self).in_sync(final(srv)),
            final(self).user_id == old(self).user_id,
            !(old(self).state is InChannel) ==> *final(self) == *old(self) && *final(srv) == *old(srv),
            old(self).state is InChannel ==> {
                let u = old(self).user_id.unwrap();
                let c = old(self).channel_id.unwrap();
                &&& final(self).state is Authenticated
                &&& final(self).channel_id is None
                &&& !final(srv).subscribed(u)
                &&& (forall|c2: u64| !final(srv).member_in(u, c2))
                &&& final(srv).users_v() == old(srv).users_v()
                &&& (forall|x: u64|
                    old(srv).subscribed(x) && old(srv).sub_channel(x) == c && x != u
                        ==> #[trigger] final(srv).queue_of(x) == enqueue(
                        old(srv).queue_of(x),
                        MessageV::UserLeft { user_id: u },
                    ))
                &&& (forall|x: u64|
                    old(srv).subscribed(x) && old(srv).sub_channel(x) != c && x != u
                        ==> #[trigger] final(srv).queue_of(x) == old(srv).queue_of(x))
            },
    {
        let in_chan = match self.state {
            SessionState::InChannel => true,
            _ => false,
        };
        if !in_chan {
            return ;
        }
        let u = match self.user_id {
            Some(u) => u,
            None => {
                proof {
                    assert(false);
                }
                0
            },
        };
        let ghost s0 = *srv;
        let left = Message::UserLeft { user_id: u };
        self.publish_in_channel(srv, &left);
        let ghost s1 = *srv;
        srv.leave_channel(u);
        self.state = SessionState::Authenticated;
        self.channel_id = None;
        proof {
            lemma_uidx_same(&s1, &s0, u);
            assert(srv.has_user(u)) by {
                assert(srv.users_v() == s1.users_v());
                let i = s1.uidx(u);
                assert(srv.users_v()[i].id == u);
            }
            assert forall|x: u64|
                s0.subscribed(x) && old(self).channel_id.unwrap() == s0.sub_channel(x) && x
                    != u implies #[trigger] srv.queue_of(x) == enqueue(s0.queue_of(x), left@) by {
                assert(s1.subscribed(x));
                assert(s0.subscribed(x));
                assert(s0.sub_channel(x) == old(self).channel_id.unwrap());
                assert(x != old(self).user_id.unwrap());
                assert(s1.queue_of(x) == enqueue(s0.queue_of(x), left@));
                assert(srv.sub_channel(x) == s1.sub_channel(x));
                assert(srv.queue_of(x) == s1.queue_of(x));
            }
            assert forall|x: u64|
                s0.subscribed(x) && old(self).channel_id.unwrap() != s0.sub_channel(x) && x
                    != u implies #[trigger] srv.queue_of(x) == s0.queue_of(x) by {
                assert(s1.subscribed(x));
                assert(s1.queue_of(x) == s0.queue_of(x));
                assert(srv.sub_channel(x) == s1.sub_channel(x));
                assert(srv.queue_of(x) == s1.queue_of(x));
            }
        }
    }

    /// Handles a presence update from an authenticated session: the
    /// registry entry of the session's own identity is updated, and while
    /// in a channel the update is announced to the rest of the channel.
    fn do_status(&mut self, srv: &mut Server, status: UserStatus)
        requires
            old(self).in_sync(old(srv)),
            old(srv).wf(),
            old(self).user_id is Some,
        ensures
            final(srv).wf(),
            final(self).in_sync(final(srv)),
            *final(self) == *old(self),
            final(srv).user_status(old(self).user_id.unwrap()) == status,
            final(srv).users_v().len() == old(srv).users_v().len(),
            final(srv).channels_v() == old(srv).channels_v(),
            forall|x: u64| #[trigger] final(srv).subscribed(x) == old(srv).subscribed(x),
            forall|uu: u64| #[trigger] final(srv).has_user(uu) == old(srv).has_user(uu),
            old(self).state is InChannel ==> (forall|x: u64|
                old(srv).subscribed(x) && old(srv).sub_channel(x) == old(self).channel_id.unwrap() && x != old(self).user_id.unwrap() ==> #[trigger] final(srv).queue_of(x) == enqueue(
                    old(srv).queue_of(x),
                    MessageV::StatusUpdate { user_id: old(self).user_id.unwrap(), status },
                )),
            !(old(self).state is InChannel) ==> (forall|x: u64|
                old(srv).subscribed(x) ==> #[trigger] final(srv).queue_of(x) == old(srv).queue_of(x)),
    {
        let u = match self.user_id {
            Some(u) => u,
            None => {
                proof {
                    assert(false);
                }
                0
            },
        };
        let ghost s0 = *srv;
        let oks = srv.update_user_status(u, status);
        proof {
            assert(oks);
        }
        let ghost s1 = *srv;
        proof {
            s1.lemma_same_channel_ids(&s0);
            s1.lemma_same_sub_ids(&s0);
            assert forall|x: u64|
                s0.subscribed(x) implies #[trigger] s1.queue_of(x) == s0.queue_of(x)
                && s1.sub_channel(x) == s0.sub_channel(x) by {
                assert(s1.sidx(x) == s0.sidx(x));
                assert(s1.subs_v()[s1.sidx(x)] == s0.subs_v()[s0.sidx(x)]);
            }
            assert(s1.has_user(u)) by {
                let i = s0.uidx(u);
                assert(s1.users_v()[i].id == u);
            }
            assert forall|uu: u64| #[trigger] s1.has_user(uu) == s0.has_user(uu) by {
                if s0.has_user(uu) {
                    let i = s0.uidx(uu);
                    assert(s1.users_v()[i].id == uu);
                }
                if s1.has_user(uu) {
                    let i = s1.uidx(uu);
                    assert(s0.users_v()[i].id == uu);
                }
            }
            assert(self.in_sync(&s1)) by {
                match self.state {
                    SessionState::InChannel => {
                        let c = self.channel_id.unwrap();
                        assert(s1.subscribed(u) && s1.sub_channel(u) == c);
                        assert(s1.member_in(u, c)) by {
                            assert(s1.cidx(c) == s0.cidx(c));
                            assert(s1.members_of(c) == s0.members_of(c));
                        }
                    },
                    _ => {},
                }
            }
        }
        let in_chan = match self.state {
            SessionState::InChannel => true,
            _ => false,
        };
        if in_chan {
            let upd = Message::StatusUpdate { user_id: u, status };
            self.publish_in_channel(srv, &upd);
            proof {
                assert forall|x: u64|
                    s0.subscribed(x) && s0.sub_channel(x) == old(self).channel_id.unwrap() && x
                        != u implies #[trigger] srv.queue_of(x) == enqueue(
                    s0.queue_of(x),
                    MessageV::StatusUpdate { user_id: u, status },
                ) by {
                    assert(s1.subscribed(x));
                    assert(s1.sub_channel(x) == s0.sub_channel(x));
                    assert(s1.queue_of(x) == s0.queue_of(x));
                    assert(srv.queue_of(x) == enqueue(s1.queue_of(x), upd@));
                }
            }
        }
        proof {
            assert(srv.user_status(u) == status) by {
                if in_chan {
                    assert(srv.users_v() == s1.users_v());
                    lemma_uidx_same(srv, &s1, u);
                }
            }
        }
    }

    /// Interprets one inbound wire message against the registry and hub,
    /// per the session state machine:
    ///
    /// - `Ping` answers `Pong` from any live state and changes nothing.
    /// - `LoginRequest` authenticates a `Connected` session; success moves
    ///   it to `Authenticated` and replies with a login response and the
    ///   server snapshot, failure leaves everything unchanged and replies
    ///   with a failed login response.
    /// - `JoinChannel` moves an authenticated session into the channel
    ///   (leaving its previous one, with a member-left notice to that
    ///   channel), announces the join to the rest of the new channel, and
    ///   replies with the channel roster; an unknown channel is answered
    ///   with an error and changes nothing.
    /// - `LeaveChannel` announces the departure and unsubscribes.
    /// - Payload and stream-control messages are fanned out to the rest of
    ///   the session's current channel, under the session's own identity.
    /// - `StatusUpdate` updates the session's own identity's presence and
    ///   announces it to the session's channel.
    /// - Everything else, and anything arriving in a state whose machine
    ///   has no transition for it, is ignored silently for forward
    ///   compatibility.
    #[verifier::rlimit(100)]
    pub fn handle_message(&mut self, srv: &mut Server, msg: Message) -> (r: Vec<Message>)
        requires
            old(self).in_sync(old(srv)),
            old(srv).wf(),
            !(old(self).state is Closed),
        ensures
            final(srv).wf(),
            final(self).in_sync(final(srv)),
            !(final(self).state is Closed),
            msg@ is Ping ==> *final(self) == *old(self) && *final(srv) == *old(srv) && replies_v(
                r@,
            ) == seq![MessageV::Pong],
            (msg@ is LoginRequest && !(old(self).state is Connected)) ==> (*final(self) == *old(self) && *final(srv) == *old(srv) && replies_v(r@) == Seq::<MessageV>::empty()),
            (msg@ is LoginRequest && old(self).state is Connected) ==> {
                &&& final(self).channel_id is None
                &&& (final(self).state is Authenticated || final(self).state is Connected)
                &&& final(srv).channels_v() == old(srv).channels_v()
                &&& final(srv).subs_v() == old(srv).subs_v()
                &&& (final(self).state is Authenticated ==> {
                    &&& final(self).user_id matches Some(uid) && final(srv).has_user(uid)
                        && final(srv).user_status(uid) == UserStatus::Online
                    &&& replies_v(r@).len() == 2
                    &&& replies_v(r@)[0] == MessageV::LoginResponse {
                        success: true,
                        user_id: final(self).user_id,
                        error: Option::None,
                    }
                    &&& (replies_v(r@)[1] matches MessageV::ServerInfo { server }
                        && server.channels == final(srv).channels_v() && server.users == final(srv).users_v())
                })
                &&& (final(self).state is Connected ==> {
                    &&& *final(self) == *old(self)
                    &&& *final(srv) == *old(srv)
                    &&& replies_v(r@).len() == 1
                    &&& (replies_v(r@)[0] matches MessageV::LoginResponse {
                        success,
                        user_id,
                        error,
                    } && success == false && user_id is None)
                })
                &&& (msg@ matches MessageV::LoginRequest { username, password } ==> {
                    &&& (old(srv).db_has(username) ==> (final(self).state is Authenticated <==> (
                    verifies(password, old(srv).db_hash(username)) && old(srv).user_status(
                        old(srv).db_id(username),
                    ) == UserStatus::Offline)))
                    &&& (old(srv).db_has(username) && final(self).state is Authenticated
                        ==> final(self).user_id == Some(old(srv).db_id(username)))
                    &&& (!old(srv).db_has(username) && final(self).state is Authenticated ==> (
                    final(self).user_id matches Some(uid) && !old(srv).has_user(uid) && final(srv).db_has(username) && final(srv).db_id(username) == uid && final(srv).user_name(uid) == username))
                })
            },
            (msg@ is JoinChannel && old(self).state is Connected) ==> (*final(self) == *old(self)
                && *final(srv) == *old(srv) && replies_v(r@) == Seq::<MessageV>::empty()),
            msg@ matches MessageV::JoinChannel { channel_id } ==> ((old(self).state
                is Authenticated || old(self).state is InChannel) ==> {
                let u = old(self).user_id.unwrap();
                &&& final(self).user_id == old(self).user_id
                &&& (!old(srv).has_channel(channel_id) ==> {
                    &&& *final(self) == *old(self)
                    &&& *final(srv) == *old(srv)
                    &&& replies_v(r@).len() == 1
                    &&& (replies_v(r@)[0] matches MessageV::Error { code, message } && code
                        == CODE_CHANNEL_NOT_FOUND)
                })
                &&& (old(srv).has_channel(channel_id) ==> {
                    &&& final(self).state is InChannel
                    &&& final(self).channel_id == Some(channel_id)
                    &&& final(srv).member_in(u, channel_id)
                    &&& final(srv).subscribed(u) && final(srv).sub_channel(u) == channel_id
                    &&& final(srv).queue_of(u) == Seq::<MessageV>::empty()
                    &&& (forall|c: u64| c != channel_id ==> !final(srv).member_in(u, c))
                    &&& final(srv).users_v() == old(srv).users_v()
                    &&& replies_v(r@).len() == 1
                    &&& (replies_v(r@)[0] matches MessageV::ChannelUpdate { channel } && channel
                        == final(srv).channels_v()[final(srv).cidx(channel_id)] && channel.id
                        == channel_id && channel.members.contains(u))
                })
                &&& (old(srv).has_channel(channel_id) && (old(self).state is Authenticated || (
                old(self).state is InChannel && old(self).channel_id.unwrap() == channel_id))
                    ==> (forall|x: u64|
                    old(srv).subscribed(x) && x != u ==> #[trigger] final(srv).queue_of(x) == (
                    if old(srv).sub_channel(x) == channel_id {
                        enqueue(
                            old(srv).queue_of(x),
                            MessageV::UserJoined {
                                user: old(srv).users_v()[old(srv).uidx(u)],
                            },
                        )
                    } else {
                        old(srv).queue_of(x)
                    })))
                &&& (old(srv).has_channel(channel_id) && old(self).state is InChannel && old(self).channel_id.unwrap() != channel_id ==> (forall|x: u64|
                    old(srv).subscribed(x) && x != u ==> #[trigger] final(srv).queue_of(x) == (
                    if old(srv).sub_channel(x) == channel_id {
                        enqueue(
                            old(srv).queue_of(x),
                            MessageV::UserJoined {
                                user: old(srv).users_v()[old(srv).uidx(u)],
                            },
                        )
                    } else if old(srv).sub_channel(x) == old(self).channel_id.unwrap() {
                        enqueue(old(srv).queue_of(x), MessageV::UserLeft { user_id: u })
                    } else {
                        old(srv).queue_of(x)
                    })))
            }),
            (msg@ is LeaveChannel && !(old(self).state is InChannel)) ==> (*final(self) == *old(self) && *final(srv) == *old(srv) && replies_v(r@) == Seq::<MessageV>::empty()),
            (msg@ is LeaveChannel && old(self).state is InChannel) ==> {
                let u = old(self).user_id.unwrap();
                let c = old(self).channel_id.unwrap();
                &&& final(self).state is Authenticated
                &&& final(self).user_id == old(self).user_id
                &&& final(self).channel_id is None
                &&& !final(srv).subscribed(u)
                &&& (forall|c2: u64| !final(srv).member_in(u, c2))
                &&& final(srv).users_v() == old(srv).users_v()
                &&& replies_v(r@) == Seq::<MessageV>::empty()
                &&& (forall|x: u64|
                    old(srv).subscribed(x) && old(srv).sub_channel(x) == c && x != u
                        ==> #[trigger] final(srv).queue_of(x) == enqueue(
                        old(srv).queue_of(x),
                        MessageV::UserLeft { user_id: u },
                    ))
                &&& (forall|x: u64|
                    old(srv).subscribed(x) && old(srv).sub_channel(x) != c && x != u
                        ==> #[trigger] final(srv).queue_of(x) == old(srv).queue_of(x))
            },
            (relay_form(msg@, 0, 0) is Some && !(old(self).state is InChannel)) ==> (*final(self)
                == *old(self) && *final(srv) == *old(srv) && replies_v(r@) == Seq::<
                MessageV,
            >::empty()),
            (relay_form(msg@, 0, 0) is Some && old(self).state is InChannel) ==> {
                let u = old(self).user_id.unwrap();
                let c = old(self).channel_id.unwrap();
                &&& *final(self) == *old(self)
                &&& replies_v(r@) == Seq::<MessageV>::empty()
                &&& final(srv).users_v() == old(srv).users_v()
                &&& final(srv).channels_v() == old(srv).channels_v()
                &&& (forall|x: u64|
                    old(srv).subscribed(x) && old(srv).sub_channel(x) == c && x != u
                        ==> #[trigger] final(srv).queue_of(x) == enqueue(
                        old(srv).queue_of(x),
                        relay_form(msg@, u, c).unwrap(),
                    ))
                &&& (forall|x: u64|
                    old(srv).subscribed(x) && (old(srv).sub_channel(x) != c || x == u)
                        ==> #[trigger] final(srv).queue_of(x) == old(srv).queue_of(x))
            },
            (msg@ is StatusUpdate && old(self).user_id is None) ==> (*final(self) == *old(self)
                && *final(srv) == *old(srv) && replies_v(r@) == Seq::<MessageV>::empty()),
            msg@ matches MessageV::StatusUpdate { user_id, status } ==> (old(self).user_id
                is Some ==> {
                let u = old(self).user_id.unwrap();
                &&& *final(self) == *old(self)
                &&& replies_v(r@) == Seq::<MessageV>::empty()
                &&& final(srv).user_status(u) == status
                &&& final(srv).channels_v() == old(srv).channels_v()
                &&& (old(self).state is InChannel ==> (forall|x: u64|
                    old(srv).subscribed(x) && old(srv).sub_channel(x) == old(self).channel_id.unwrap() && x != u ==> #[trigger] final(srv).queue_of(x)
                        == enqueue(
                        old(srv).queue_of(x),
                        MessageV::StatusUpdate { user_id: u, status },
                    )))
                &&& (!(old(self).state is InChannel) ==> (forall|x: u64|
                    old(srv).subscribed(x) ==> #[trigger] final(srv).queue_of(x) == old(srv).queue_of(x)))
            }),
            (msg@ is LoginResponse || msg@ is ServerInfo || msg@ is ChannelUpdate || msg@
                is UserJoined || msg@ is UserLeft || msg@ is Error || msg@ is Pong) ==> (*final(self) == *old(self) && *final(srv) == *old(srv) && replies_v(r@) == Seq::<
                MessageV,
            >::empty()),
    {
        let ghost mv = msg@;
        let empty: Vec<Message> = Vec::new();
        proof {
            assert(replies_v(empty@) =~= Seq::<MessageV>::empty());
        }
        match msg {
            Message::Ping => {
                let mut replies: Vec<Message> = Vec::new();
                replies.push(Message::Pong);
                proof {
                    assert(replies_v(replies@) =~= seq![MessageV::Pong]);
                }
                replies
            },
            Message::LoginRequest { username, password } => {
                match self.state {
                    SessionState::Connected => self.do_login(srv, username, password),
                    _ => empty,
                }
            },
            Message::JoinChannel { channel_id } => {
                match self.state {
                    SessionState::Authenticated => self.do_join(srv, channel_id),
                    SessionState::InChannel => self.do_join(srv, channel_id),
                    _ => empty,
                }
            },
            Message::LeaveChannel { channel_id } => {
                self.do_leave(srv);
                empty
            },
            Message::StatusUpdate { user_id, status } => {
                match self.user_id {
                    Some(_) => {
                        self.do_status(srv, status);
                        empty
                    },
                    None => empty,
                }
            },
            Message::VoiceData { user_id, channel_id, data } => {
                let in_chan = match self.state {
                    SessionState::InChannel => true,
                    _ => false,
                };
                if in_chan {
                    let u = match self.user_id {
                        Some(u) => u,
                        None => {
                            proof {
                                assert(false);
                            }
                            0
                        },
                    };
                    let c = match self.channel_id {
                        Some(c) => c,
                        None => {
                            proof {
                                assert(false);
                            }
                            0
                        },
                    };
                    let fm = Message::VoiceData { user_id: u, channel_id: c, data };
                    proof {
                        assert(fm@ == relay_form(mv, u, c).unwrap());
                    }
                    self.publish_in_channel(srv, &fm);
                }
                empty
            },
            Message::VideoData { user_id, channel_id, data } => {
                let in_chan = match self.state {
                    SessionState::InChannel => true,
                    _ => false,
                };
                if in_chan {
                    let u = match self.user_id {
                        Some(u) => u,
                        None => {
                            proof {
                                assert(false);
                            }
                            0
                        },
                    };
                    let c = match self.channel_id {
                        Some(c) => c,
                        None => {
                            proof {
                                assert(false);
                            }
                            0
                        },
                    };
                    let fm = Message::VideoData { user_id: u, channel_id: c, data };
                    proof {
                        assert(fm@ == relay_form(mv, u, c).unwrap());
                    }
                    self.publish_in_channel(srv, &fm);
                }
                empty
            },
            Message::ScreenShareData { user_id, channel_id, data } => {
                let in_chan = match self.state {
                    SessionState::InChannel => true,
                    _ => false,
                };
                if in_chan {
                    let u = match self.user_id {
                        Some(u) => u,
                        None => {
                            proof {
                                assert(false);
                            }
                            0
                        },
                    };
                    let c = match self.channel_id {
                        Some(c) => c,
                        None => {
                            proof {
                                assert(false);
                            }
                            0
                        },
                    };
                    let fm = Message::ScreenShareData { user_id: u, channel_id: c, data };
                    proof {
                        assert(fm@ == relay_form(mv, u, c).unwrap());
                    }
                    self.publish_in_channel(srv, &fm);
                }
                empty
            },
            Message::VoiceStarted { user_id } => {
                let in_chan = match self.state {
                    SessionState::InChannel => true,
                    _ => false,
                };
                if in_chan {
                    let u = match self.user_id {
                        Some(u) => u,
                        None => {
                            proof {
                                assert(false);
                            }
                            0
                        },
                    };
                    let c = match self.channel_id {
                        Some(c) => c,
                        None => {
                            proof {
                                assert(false);
                            }
                            0
                        },
                    };
                    let fm = Message::VoiceStarted { user_id: u };
                    proof {
                        assert(fm@ == relay_form(mv, u, c).unwrap());
                    }
                    self.publish_in_channel(srv, &fm);
                }
                empty
            },
            Message::VoiceStopped { user_id } => {
                let in_chan = match self.state {
                    SessionState::InChannel => true,
                    _ => false,
                };
                if in_chan {
                    let u = match self.user_id {
                        Some(u) => u,
                        None => {
                            proof {
                                assert(false);
                            }
                            0
                        },
                    };
                    let c = match self.channel_id {
                        Some(c) => c,
                        None => {
                            proof {
                                assert(false);
                            }
                            0
                        },
                    };
                    let fm = Message::VoiceStopped { user_id: u };
                    proof {
                        assert(fm@ == relay_form(mv, u, c).unwrap());
                    }
                    self.publish_in_channel(srv, &fm);
                }
                empty
            },
            Message::VideoStarted { user_id } => {
                let in_chan = match self.state {
                    SessionState::InChannel => true,
                    _ => false,
                };
                if in_chan {
                    let u = match self.user_id {
                        Some(u) => u,
                        None => {
                            proof {
                                assert(false);
                            }
                            0
                        },
                    };
                    let c = match self.channel_id {
                        Some(c) => c,
                        None => {
                            proof {
                                assert(false);
                            }
                            0
                        },
                    };
                    let fm = Message::VideoStarted { user_id: u };
                    proof {
                        assert(fm@ == relay_form(mv, u, c).unwrap());
                    }
                    self.publish_in_channel(srv, &fm);
                }
                empty
            },
            Message::VideoStopped { user_id } => {
                let in_chan = match self.state {
                    SessionState::InChannel => true,
                    _ => false,
                };
                if in_chan {
                    let u = match self.user_id {
                        Some(u) => u,
                        None => {
                            proof {
                                assert(false);
                            }
                            0
                        },
                    };
                    let c = match self.channel_id {
                        Some(c) => c,
                        None => {
                            proof {
                                assert(false);
                            }
                            0
                        },
                    };
                    let fm = Message::VideoStopped { user_id: u };
                    proof {
                        assert(fm@ == relay_form(mv, u, c).unwrap());
                    }
                    self.publish_in_channel(srv, &fm);
                }
                empty
            },
            Message::ScreenShareStarted { user_id } => {
                let in_chan = match self.state {
                    SessionState::InChannel => true,
                    _ => false,
                };
                if in_chan {
                    let u = match self.user_id {
                        Some(u) => u,
                        None => {
                            proof {
                                assert(false);
                            }
                            0
                        },
                    };
                    let c = match self.channel_id {
                        Some(c) => c,
                        None => {
                            proof {
                                assert(false);
                            }
                            0
                        },
                    };
                    let fm = Message::ScreenShareStarted { user_id: u };
                    proof {
                        assert(fm@ == relay_form(mv, u, c).unwrap());
                    }
                    self.publish_in_channel(srv, &fm);
                }
                empty
            },
            Message::ScreenShareStopped { user_id } => {
                let in_chan = match self.state {
                    SessionState::InChannel => true,
                    _ => false,
                };
                if in_chan {
                    let u = match self.user_id {
                        Some(u) => u,
                        None => {
                            proof {
                                assert(false);
                            }
                            0
                        },
                    };
                    let c = match self.channel_id {
                        Some(c) => c,
                        None => {
                            proof {
                                assert(false);
                            }
                            0
                        },
                    };
                    let fm = Message::ScreenShareStopped { user_id: u };
                    proof {
                        assert(fm@ == relay_form(mv, u, c).unwrap());
                    }
                    self.publish_in_channel(srv, &fm);
                }
                empty
            },
            _ => empty,
        }
    }
}

/// Identity lookups agree between two registries with the same identity
/// list.
proof fn lemma_uidx_same(s: &Server, pre: &Server, u: u64)
    requires
        pre.wf(),
        s.users_v() == pre.users_v(),
        pre.has_user(u),
    ensures
        s.has_user(u),
        s.uidx(u) == pre.uidx(u),
        s.user_status(u) == pre.user_status(u),
        s.user_name(u) == pre.user_name(u),
{
    let i = pre.uidx(u);
    assert(s.users_v()[i].id == u);
    assert(s.has_user(u));
    let j = s.uidx(u);
    assert(s.users_v()[j].id == u);
    if j != i {
        assert(pre.users_v()[j].id == u);
        crate::server::lemma_users_unique_at(pre, i, j);
    }
}

} // verus!
