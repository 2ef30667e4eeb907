//! The identity and channel registry, and the per-channel broadcast hub.
//!
//! One `Server` value owns the whole shared state: known identities, the
//! channels with their member sets, the credential store, and one bounded
//! outbound queue per subscriber. The caller guards the value with one
//! exclusive lock; every method here is a short, non-blocking critical
//! section that never does I/O.
//!
//! The central invariant is mutual exclusivity of membership: an identity
//! never stands in two channels' member sets at once. Joining a channel
//! implicitly leaves the previous one; a subscription exists exactly while
//! its member is in the channel.
use vstd::prelude::*;

use crate::auth::{hash_password, phc_parses, verifies, verify_password};
use crate::database::Database;
use crate::error::OpenReverbError;
use crate::models::{Channel, ChannelV, User, UserStatus, UserV};
use crate::protocol::{Message, MessageV};

verus! {

/// The capacity of each subscriber's outbound queue. When a queue is full
/// the oldest message is dropped: a slow consumer loses frames rather than
/// stalling the rest of the system.
pub const QUEUE_CAPACITY: usize = 100;

/// One subscriber of one channel: the member's identity, the channel, and
/// the bounded queue of messages waiting for its session's writer.
struct Subscriber {
    user_id: u64,
    channel_id: u64,
    queue: Vec<Message>,
}

/// Mathematical image of a subscriber.
pub ghost struct SubV {
    pub user_id: u64,
    pub channel_id: u64,
    pub queue: Seq<MessageV>,
}

impl View for Subscriber {
    type V = SubV;

    closed spec fn view(&self) -> SubV {
        SubV {
            user_id: self.user_id,
            channel_id: self.channel_id,
            queue: self.queue@.map_values(|m: Message| m@),
        }
    }
}

/// What a bounded queue holds after one message is delivered to it:
/// the message is appended, and when the queue is full the oldest message
/// is dropped to make room.
pub open spec fn enqueue(q: Seq<MessageV>, m: MessageV) -> Seq<MessageV> {
    if q.len() < QUEUE_CAPACITY {
        q.push(m)
    } else {
        q.drop_first().push(m)
    }
}

/// The registry and hub state.
pub struct Server {
    users: Vec<User>,
    channels: Vec<Channel>,
    subs: Vec<Subscriber>,
    db: Database,
    next_user_id: u64,
    next_channel_id: u64,
}

impl Server {
    // ----------------------------------------------------------
    // The abstract state
    // ----------------------------------------------------------

    /// The known identities, abstractly.
    pub closed spec fn users_v(&self) -> Seq<UserV> {
        self.users@.map_values(|u: User| u@)
    }

    /// The channels, abstractly.
    pub closed spec fn channels_v(&self) -> Seq<ChannelV> {
        self.channels@.map_values(|c: Channel| c@)
    }

    /// The subscribers, abstractly.
    pub closed spec fn subs_v(&self) -> Seq<SubV> {
        self.subs@.map_values(|s: Subscriber| s@)
    }

    /// Whether an identity with this token exists.
    pub open spec fn has_user(&self, uid: u64) -> bool {
        exists|i: int| 0 <= i < self.users_v().len() && self.users_v()[i].id == uid
    }

    /// The index of the identity with this token.
    pub open spec fn uidx(&self, uid: u64) -> int {
        choose|i: int| 0 <= i < self.users_v().len() && self.users_v()[i].id == uid
    }

    /// The presence of the identity with this token.
    pub open spec fn user_status(&self, uid: u64) -> UserStatus {
        self.users_v()[self.uidx(uid)].status
    }

    /// The display name of the identity with this token.
    pub open spec fn user_name(&self, uid: u64) -> Seq<char> {
        self.users_v()[self.uidx(uid)].username
    }

    /// Whether some identity carries this display name.
    pub open spec fn has_username(&self, name: Seq<char>) -> bool {
        exists|i: int| 0 <= i < self.users_v().len() && self.users_v()[i].username == name
    }

    /// The token of the identity carrying this display name.
    pub open spec fn id_by_name(&self, name: Seq<char>) -> u64 {
        self.users_v()[choose|i: int|
            0 <= i < self.users_v().len() && self.users_v()[i].username == name].id
    }

    /// Whether a channel with this token exists.
    pub open spec fn has_channel(&self, cid: u64) -> bool {
        exists|i: int| 0 <= i < self.channels_v().len() && self.channels_v()[i].id == cid
    }

    /// The index of the channel with this token.
    pub open spec fn cidx(&self, cid: u64) -> int {
        choose|i: int| 0 <= i < self.channels_v().len() && self.channels_v()[i].id == cid
    }

    /// The member set of the channel with this token.
    pub open spec fn members_of(&self, cid: u64) -> Seq<u64> {
        self.channels_v()[self.cidx(cid)].members
    }

    /// Whether this identity stands in this channel's member set.
    pub open spec fn member_in(&self, uid: u64, cid: u64) -> bool {
        self.has_channel(cid) && self.members_of(cid).contains(uid)
    }

    /// Whether this identity holds a subscription.
    pub open spec fn subscribed(&self, uid: u64) -> bool {
        exists|i: int| 0 <= i < self.subs_v().len() && self.subs_v()[i].user_id == uid
    }

    /// The index of this identity's subscription.
    pub open spec fn sidx(&self, uid: u64) -> int {
        choose|i: int| 0 <= i < self.subs_v().len() && self.subs_v()[i].user_id == uid
    }

    /// The channel this identity's subscription feeds from.
    pub open spec fn sub_channel(&self, uid: u64) -> u64 {
        self.subs_v()[self.sidx(uid)].channel_id
    }

    /// The messages queued for this identity's session, oldest first.
    pub open spec fn queue_of(&self, uid: u64) -> Seq<MessageV> {
        self.subs_v()[self.sidx(uid)].queue
    }

    /// Whether a fresh channel token can still be allocated.
    pub closed spec fn can_add_channel(&self) -> bool {
        self.next_channel_id < u64::MAX
    }

    /// Whether a fresh identity token can still be allocated.
    pub closed spec fn can_add_user(&self) -> bool {
        self.next_user_id < u64::MAX
    }

    /// Whether the credential store knows this username.
    pub closed spec fn db_has(&self, name: Seq<char>) -> bool {
        self.db.contains_name(name)
    }

    /// The stored credential hash for this username.
    pub closed spec fn db_hash(&self, name: Seq<char>) -> Seq<char> {
        self.db.hash_of(name)
    }

    /// The stored account identifier for this username.
    pub closed spec fn db_id(&self, name: Seq<char>) -> u64 {
        self.db.id_of(name)
    }

    // ----------------------------------------------------------
    // Well-formedness
    // ----------------------------------------------------------

    /// The registry's invariant.
    ///
    /// Identity and channel tokens are unique and below the allocation
    /// counters; display names are unique; an identity stands in at most
    /// one member set, at one position; a subscription exists exactly for
    /// the members of channels, and feeds from the channel the member is
    /// in; the credential store is sound, every stored hash parses, and
    /// every stored account that has connected maps to its identity.
    pub closed spec fn wf(&self) -> bool {
        &&& forall|i: int, j: int|
            0 <= i < j < self.users@.len() ==> self.users@[i].id != self.users@[j].id
        &&& forall|i: int, j: int|
            0 <= i < j < self.users@.len() ==> self.users@[i].username@
                != self.users@[j].username@
        &&& forall|i: int| 0 <= i < self.users@.len() ==> self.users@[i].id < self.next_user_id
        &&& forall|i: int, j: int|
            0 <= i < j < self.channels@.len() ==> self.channels@[i].id != self.channels@[j].id
        &&& forall|i: int|
            0 <= i < self.channels@.len() ==> self.channels@[i].id < self.next_channel_id
        &&& forall|ci: int, cj: int, k: int, l: int|
            0 <= ci < self.channels@.len() && 0 <= cj < self.channels@.len() && 0 <= k
                < self.channels@[ci].members@.len() && 0 <= l < self.channels@[cj].members@.len()
                && (ci != cj || k != l) ==> #[trigger] self.channels@[ci].members@[k]
                != #[trigger] self.channels@[cj].members@[l]
        &&& forall|i: int, j: int|
            0 <= i < j < self.subs@.len() ==> self.subs@[i].user_id != self.subs@[j].user_id
        &&& forall|i: int|
            0 <= i < self.subs@.len() ==> self.member_in(
                #[trigger] self.subs@[i].user_id,
                self.subs@[i].channel_id,
            )
        &&& forall|ci: int, k: int|
            0 <= ci < self.channels@.len() && 0 <= k < self.channels@[ci].members@.len()
                ==> self.subscribed(#[trigger] self.channels@[ci].members@[k]) && self.sub_channel(
                self.channels@[ci].members@[k],
            ) == self.channels@[ci].id
        &&& forall|i: int|
            0 <= i < self.subs_v().len() ==> (#[trigger] self.subs_v()[i].queue).len()
                <= QUEUE_CAPACITY
        &&& self.db.wf()
        &&& forall|n: Seq<char>|
            #[trigger] self.db.contains_name(n) ==> phc_parses(self.db.hash_of(n))
                && self.has_username(n) && self.id_by_name(n) == self.db.id_of(n)
    }

    /// An empty registry: no identities, no channels, no subscriptions.
    pub fn new() -> (r: Server)
        ensures
            r.wf(),
            r.users_v() == Seq::<UserV>::empty(),
            r.channels_v() == Seq::<ChannelV>::empty(),
            r.subs_v() == Seq::<SubV>::empty(),
    {
        let r = Server {
            users: Vec::new(),
            channels: Vec::new(),
            subs: Vec::new(),
            db: Database::new(),
            next_user_id: 1,
            next_channel_id: 1,
        };
        proof {
            assert(r.users_v() =~= Seq::<UserV>::empty());
            assert(r.channels_v() =~= Seq::<ChannelV>::empty());
            assert(r.subs_v() =~= Seq::<SubV>::empty());
        }
        r
    }

    /// Registers a channel under a fresh token and returns the token;
    /// refused only when the token space is exhausted. Used by the
    /// process-start hook that supplies the initial channel set, and open
    /// to later dynamic creation.
    pub fn add_channel(&mut self, name: String, description: Option<String>) -> (r: Option<u64>)
        requires
            old(self).wf(),
        ensures
            final(self).wf(),
            r is Some <==> old(self).can_add_channel(),
            r is None ==> *final(self) == *old(self),
            r matches Some(cid) ==> {
                &&& !old(self).has_channel(cid)
                &&& final(self).has_channel(cid)
                &&& final(self).channels_v() == old(self).channels_v().push(
                    ChannelV {
                        id: cid,
                        name: name@,
                        description: crate::models::opt_str_view(description),
                        parent_id: Option::None,
                        members: Seq::empty(),
                    },
                )
                &&& final(self).members_of(cid) == Seq::<u64>::empty()
                &&& final(self).users_v() == old(self).users_v()
                &&& final(self).subs_v() == old(self).subs_v()
            },
    {
        if self.next_channel_id == u64::MAX {
            return None;
        }
        let cid = self.next_channel_id;
        self.next_channel_id = self.next_channel_id + 1;
        let ghost pre = *self;
        let c = Channel {
            id: cid,
            name,
            description,
            parent_id: None,
            members: Vec::new(),
        };
        let ghost cv = c@;
        self.channels.push(c);
        proof {
            assert(self.channels_v() =~= pre.channels_v().push(cv));
            assert(self.users_v() =~= pre.users_v());
            assert(self.subs_v() =~= pre.subs_v());
            assert(self.channels_v()[self.channels_v().len() - 1].id == cid);
            assert(self.has_channel(cid));
            assert(self.cidx(cid) == self.channels_v().len() - 1);
            assert(self.members_of(cid) =~= Seq::<u64>::empty());
            assert forall|i: int|
                0 <= i < self.subs@.len() implies self.member_in(
                #[trigger] self.subs@[i].user_id,
                self.subs@[i].channel_id,
            ) by {
                assert(pre.member_in(self.subs@[i].user_id, self.subs@[i].channel_id));
                let cid2 = self.subs@[i].channel_id;
                let ci = pre.cidx(cid2);
                assert(self.channels_v()[ci].id == cid2);
                assert(self.has_channel(cid2));
                assert(self.cidx(cid2) == ci);
            }
            assert forall|ci: int, k: int|
                0 <= ci < self.channels@.len() && 0 <= k
                    < self.channels@[ci].members@.len() implies self.subscribed(
                #[trigger] self.channels@[ci].members@[k],
            ) && self.sub_channel(self.channels@[ci].members@[k]) == self.channels@[ci].id by {
                assert(ci < pre.channels@.len());
                assert(pre.subscribed(pre.channels@[ci].members@[k]));
            }
            assert forall|n: Seq<char>| #[trigger]
                self.db.contains_name(n) implies phc_parses(self.db.hash_of(n))
                && self.has_username(n) && self.id_by_name(n) == self.db.id_of(n) by {
                assert(pre.db.contains_name(n));
                assert(pre.has_username(n));
            }
        }
        Some(cid)
    }

    /// Registers a fresh identity with Online presence under a fresh token
    /// and returns the token; refused when the display name is already
    /// taken or the token space is exhausted.
    pub fn add_user(&mut self, username: String) -> (r: Option<u64>)
        requires
            old(self).wf(),
        ensures
            final(self).wf(),
            r is Some <==> (!old(self).has_username(username@) && old(self).can_add_user()),
            r is None ==> *final(self) == *old(self),
            r matches Some(uid) ==> {
                &&& !old(self).has_user(uid)
                &&& final(self).has_user(uid)
                &&& final(self).users_v() == old(self).users_v().push(
                    UserV { id: uid, username: username@, status: UserStatus::Online },
                )
                &&& final(self).user_status(uid) == UserStatus::Online
                &&& final(self).channels_v() == old(self).channels_v()
                &&& final(self).subs_v() == old(self).subs_v()
            },
            forall|n: Seq<char>| #[trigger] final(self).db_has(n) == old(self).db_has(n),
            forall|n: Seq<char>|
                old(self).db_has(n) ==> #[trigger] final(self).db_hash(n) == old(self).db_hash(n)
                    && final(self).db_id(n) == old(self).db_id(n),
    {
        if self.next_user_id == u64::MAX {
            return None;
        }
        if self.find_user_by_name(&username).is_some() {
            return None;
        }
        let uid = self.next_user_id;
        self.next_user_id = self.next_user_id + 1;
        let ghost pre = *self;
        let u = User { id: uid, username, status: UserStatus::Online };
        let ghost uv = u@;
        self.users.push(u);
        proof {
            assert(self.users_v() =~= pre.users_v().push(uv));
            assert(self.channels_v() =~= pre.channels_v());
            assert(self.subs_v() =~= pre.subs_v());
            assert(self.users_v()[self.users_v().len() - 1].id == uid);
            assert(self.has_user(uid));
            assert(self.uidx(uid) == self.users_v().len() - 1);
            assert forall|i: int, j: int|
                0 <= i < j < self.users@.len() implies self.users@[i].username@
                != self.users@[j].username@ by {
                assert(self.users_v()[i] == self.users@[i]@);
                assert(self.users_v()[j] == self.users@[j]@);
                assert(self.users_v()[i] == pre.users_v()[i]);
                if j < self.users@.len() - 1 {
                    assert(self.users_v()[j] == pre.users_v()[j]);
                }
            }
            self.lemma_channels_same_membership(pre);
            assert forall|n: Seq<char>| #[trigger]
                self.db.contains_name(n) implies phc_parses(self.db.hash_of(n))
                && self.has_username(n) && self.id_by_name(n) == self.db.id_of(n) by {
                assert(pre.db.contains_name(n));
                assert(pre.has_username(n));
                let i = choose|i: int|
                    0 <= i < pre.users_v().len() && pre.users_v()[i].username == n;
                assert(self.users_v()[i].username == n);
                assert(self.has_username(n));
                let j = choose|j: int|
                    0 <= j < self.users_v().len() && self.users_v()[j].username == n;
                if j < self.users_v().len() - 1 {
                    assert(pre.users_v()[j].username == n);
                    assert(j == i);
                }
            }
        }
        Some(uid)
    }

    /// Membership-related invariant clauses carry over when the channel
    /// and subscriber lists are unchanged.
    proof fn lemma_channels_same_membership(&self, pre: Server)
        requires
            pre.wf(),
            self.channels_v() == pre.channels_v(),
            self.subs_v().len() == pre.subs_v().len(),
            forall|i: int|
                0 <= i < self.subs_v().len() ==> (#[trigger] self.subs_v()[i]).user_id
                    == pre.subs_v()[i].user_id && self.subs_v()[i].channel_id
                    == pre.subs_v()[i].channel_id,
        ensures
            forall|i: int, j: int|
                0 <= i < j < self.channels@.len() ==> self.channels@[i].id
                    != self.channels@[j].id,
            forall|ci: int, cj: int, k: int, l: int|
                0 <= ci < self.channels@.len() && 0 <= cj < self.channels@.len() && 0 <= k
                    < self.channels@[ci].members@.len() && 0 <= l
                    < self.channels@[cj].members@.len() && (ci != cj || k != l)
                    ==> #[trigger] self.channels@[ci].members@[k]
                    != #[trigger] self.channels@[cj].members@[l],
            forall|i: int, j: int|
                0 <= i < j < self.subs@.len() ==> self.subs@[i].user_id != self.subs@[j].user_id,
            forall|i: int|
                0 <= i < self.subs@.len() ==> self.member_in(
                    #[trigger] self.subs@[i].user_id,
                    self.subs@[i].channel_id,
                ),
            forall|ci: int, k: int|
                0 <= ci < self.channels@.len() && 0 <= k < self.channels@[ci].members@.len()
                    ==> self.subscribed(#[trigger] self.channels@[ci].members@[k])
                    && self.sub_channel(self.channels@[ci].members@[k]) == self.channels@[ci].id,
    {
        assert(self.channels_v().len() == self.channels@.len());
        assert(pre.channels_v().len() == pre.channels@.len());
        assert(self.channels@.len() == pre.channels@.len());
        assert forall|i: int|
            0 <= i < self.channels@.len() implies self.channels@[i].id == pre.channels@[i].id
            && self.channels@[i].members@ == pre.channels@[i].members@ by {
            assert(self.channels_v()[i] == self.channels@[i]@);
            assert(pre.channels_v()[i] == pre.channels@[i]@);
            assert(self.channels@[i]@ == pre.channels@[i]@);
        }
        assert(self.subs_v().len() == self.subs@.len());
        assert(pre.subs_v().len() == pre.subs@.len());
        assert(self.subs@.len() == pre.subs@.len());
        assert forall|i: int|
            0 <= i < self.subs@.len() implies self.subs@[i].user_id == pre.subs@[i].user_id
            && self.subs@[i].channel_id == pre.subs@[i].channel_id by {
            assert(self.subs_v()[i] == self.subs@[i]@);
            assert(pre.subs_v()[i] == pre.subs@[i]@);
        }
        assert forall|i: int|
            0 <= i < self.subs@.len() implies self.member_in(
            #[trigger] self.subs@[i].user_id,
            self.subs@[i].channel_id,
        ) by {
            assert(pre.member_in(pre.subs@[i].user_id, pre.subs@[i].channel_id));
            let cid = self.subs@[i].channel_id;
            let ci = pre.cidx(cid);
            assert(self.channels_v()[ci].id == cid);
            assert(self.has_channel(cid));
            assert(self.cidx(cid) == ci);
            assert(self.members_of(cid) == pre.members_of(cid));
        }
        assert forall|ci: int, k: int|
            0 <= ci < self.channels@.len() && 0 <= k
                < self.channels@[ci].members@.len() implies self.subscribed(
            #[trigger] self.channels@[ci].members@[k],
        ) && self.sub_channel(self.channels@[ci].members@[k]) == self.channels@[ci].id by {
            let uid = self.channels@[ci].members@[k];
            assert(pre.channels@[ci].members@[k] == uid);
            assert(pre.subscribed(uid));
            let si = pre.sidx(uid);
            assert(self.subs_v()[si].user_id == uid);
            assert(self.subscribed(uid));
            assert(self.sidx(uid) == si);
        }
    }

    /// Sets the presence of an identity, always called by the session
    /// that owns the identity; reports whether the identity exists.
    pub fn update_user_status(&mut self, user_id: u64, status: UserStatus) -> (r: bool)
        requires
            old(self).wf(),
        ensures
            final(self).wf(),
            r == old(self).has_user(user_id),
            !r ==> *final(self) == *old(self),
            r ==> {
                &&& final(self).users_v().len() == old(self).users_v().len()
                &&& forall|i: int|
                    0 <= i < final(self).users_v().len() ==> #[trigger] final(self).users_v()[i]
                        == if old(self).users_v()[i].id == user_id {
                        UserV {
                            id: old(self).users_v()[i].id,
                            username: old(self).users_v()[i].username,
                            status,
                        }
                    } else {
                        old(self).users_v()[i]
                    }
                &&& final(self).user_status(user_id) == status
                &&& final(self).channels_v() == old(self).channels_v()
                &&& final(self).subs_v() == old(self).subs_v()
            },
    {
        match self.find_user(user_id) {
            Some(i) => {
                let ghost pre = *self;
                self.users[i].status = status;
                proof {
                    assert(self.users_v() =~= pre.users_v().update(
                        i as int,
                        UserV {
                            id: pre.users_v()[i as int].id,
                            username: pre.users_v()[i as int].username,
                            status,
                        },
                    ));
                    assert(self.channels_v() =~= pre.channels_v());
                    assert(self.subs_v() =~= pre.subs_v());
                    assert(self.users_v()[i as int].id == user_id);
                    assert(self.has_user(user_id));
                    assert(self.uidx(user_id) == i as int);
                    assert forall|a: int, b: int|
                        0 <= a < b < self.users@.len() implies self.users@[a].id
                        != self.users@[b].id && self.users@[a].username@
                        != self.users@[b].username@ by {
                        assert(self.users_v()[a] == self.users@[a]@);
                        assert(self.users_v()[b] == self.users@[b]@);
                        assert(pre.users_v()[a] == pre.users@[a]@);
                        assert(pre.users_v()[b] == pre.users@[b]@);
                    }
                    assert forall|a: int|
                        0 <= a < self.users@.len() implies self.users@[a].id
                        < self.next_user_id by {
                        assert(self.users_v()[a] == self.users@[a]@);
                        assert(pre.users_v()[a] == pre.users@[a]@);
                    }
                    self.lemma_channels_same_membership(pre);
                    assert forall|n: Seq<char>| #[trigger]
                        self.db.contains_name(n) implies phc_parses(self.db.hash_of(n))
                        && self.has_username(n) && self.id_by_name(n) == self.db.id_of(n) by {
                        assert(pre.db.contains_name(n));
                        let a = choose|a: int|
                            0 <= a < pre.users_v().len() && pre.users_v()[a].username == n;
                        assert(self.users_v()[a].username == n);
                        assert(self.has_username(n));
                        let b = choose|b: int|
                            0 <= b < self.users_v().len() && self.users_v()[b].username == n;
                        if b != a {
                            assert(pre.users_v()[b].username == n);
                            assert(false);
                        }
                    }
                }
                true
            },
            None => false,
        }
    }

    /// The identity with this token, for roster building.
    pub fn get_user(&self, user_id: u64) -> (r: Option<&User>)
        requires
            self.wf(),
        ensures
            r matches Some(u) ==> self.has_user(user_id) && u@ == self.users_v()[self.uidx(
                user_id,
            )],
            r is None ==> !self.has_user(user_id),
    {
        match self.find_user(user_id) {
            Some(i) => Some(&self.users[i]),
            None => None,
        }
    }

    /// The channel with this token, for roster building.
    pub fn get_channel(&self, channel_id: u64) -> (r: Option<&Channel>)
        requires
            self.wf(),
        ensures
            r matches Some(c) ==> self.has_channel(channel_id) && c@ == self.channels_v()[
                self.cidx(channel_id)],
            r is None ==> !self.has_channel(channel_id),
    {
        let mut i: usize = 0;
        while i < self.channels.len()
            invariant
                self.wf(),
                i <= self.channels@.len(),
                forall|j: int| 0 <= j < i ==> self.channels_v()[j].id != channel_id,
            decreases self.channels@.len() - i,
        {
            if self.channels[i].id == channel_id {
                proof {
                    assert(self.channels_v()[i as int].id == channel_id);
                    assert(self.has_channel(channel_id));
                    let j = self.cidx(channel_id);
                    assert(0 <= j < self.channels_v().len() && self.channels_v()[j].id
                        == channel_id);
                    if j != i {
                        assert(self.channels@[j].id == self.channels_v()[j].id) by {
                            assert(self.channels_v()[j] == self.channels@[j]@);
                        }
                        assert(self.channels@[i as int].id == channel_id) by {
                            assert(self.channels_v()[i as int] == self.channels@[i as int]@);
                        }
                        assert(false);
                    }
                }
                return Some(&self.channels[i]);
            }
            i = i + 1;
        }
        None
    }

    /// A read-only snapshot of the whole registry: every channel and every
    /// known identity, for server-info responses and health checks.
    pub fn get_server_info(&self) -> (r: crate::models::Server)
        requires
            self.wf(),
        ensures
            r@.id == 0,
            r@.name == "Open Reverb Server"@,
            r@.description == Some("A VoIP and video chat server"@),
            r@.channels == self.channels_v(),
            r@.users == self.users_v(),
    {
        crate::models::Server {
            id: 0,
            name: "Open Reverb Server".to_owned(),
            description: Some("A VoIP and video chat server".to_owned()),
            channels: crate::models::clone_channels(&self.channels),
            users: crate::models::clone_users(&self.users),
        }
    }

    /// The index of the identity carrying this display name, or `None`.
    fn find_user_by_name(&self, username: &String) -> (r: Option<usize>)
        requires
            self.wf(),
        ensures
            r matches Some(i) ==> i < self.users@.len() && self.users_v()[i as int].username
                == username@ && self.has_username(username@),
            r is None ==> !self.has_username(username@),
    {
        let mut i: usize = 0;
        while i < self.users.len()
            invariant
                self.wf(),
                i <= self.users@.len(),
                forall|j: int| 0 <= j < i ==> self.users_v()[j].username != username@,
            decreases self.users@.len() - i,
        {
            if self.users[i].username == *username {
                proof {
                    assert(self.users_v()[i as int].username == username@);
                }
                return Some(i);
            }
            i = i + 1;
        }
        None
    }

    /// The index of the identity with this token, or `None`.
    fn find_user(&self, uid: u64) -> (r: Option<usize>)
        requires
            self.wf(),
        ensures
            r matches Some(i) ==> i < self.users@.len() && self.users_v()[i as int].id == uid
                && self.has_user(uid) && self.uidx(uid) == i as int,
            r is None ==> !self.has_user(uid),
    {
        let mut i: usize = 0;
        while i < self.users.len()
            invariant
                self.wf(),
                i <= self.users@.len(),
                forall|j: int| 0 <= j < i ==> self.users_v()[j].id != uid,
            decreases self.users@.len() - i,
        {
            if self.users[i].id == uid {
                proof {
                    assert(self.users_v()[i as int].id == uid);
                    assert(self.has_user(uid));
                    let j = self.uidx(uid);
                    assert(0 <= j < self.users_v().len() && self.users_v()[j].id == uid);
                    if j != i {
                        assert(false);
                    }
                }
                return Some(i);
            }
            i = i + 1;
        }
        None
    }

    /// Channel lookups agree between two states whose channel tokens agree
    /// pointwise.
    pub proof fn lemma_same_channel_ids(&self, pre: &Server)
        requires
            pre.wf(),
            self.channels_v().len() == pre.channels_v().len(),
            forall|i: int|
                0 <= i < self.channels_v().len() ==> (#[trigger] self.channels_v()[i]).id
                    == pre.channels_v()[i].id,
        ensures
            forall|c: u64| #[trigger] self.has_channel(c) == pre.has_channel(c),
            forall|c: u64| #[trigger] self.has_channel(c) ==> self.cidx(c) == pre.cidx(c),
    {
        assert forall|c: u64| #[trigger] self.has_channel(c) == pre.has_channel(c) by {
            if self.has_channel(c) {
                let i = self.cidx(c);
                assert(pre.channels_v()[i].id == c);
                assert(pre.has_channel(c));
            }
            if pre.has_channel(c) {
                let i = pre.cidx(c);
                assert(self.channels_v()[i].id == c);
                assert(self.has_channel(c));
            }
        }
        assert forall|c: u64| #[trigger] self.has_channel(c) implies self.cidx(c)
            == pre.cidx(c) by {
            let i = self.cidx(c);
            let j = pre.cidx(c);
            assert(pre.channels_v()[i].id == c);
            assert(self.channels_v()[j].id == c);
            if i != j {
                assert(pre.channels@[i].id == c) by {
                    assert(pre.channels_v()[i] == pre.channels@[i]@);
                }
                assert(pre.channels@[j].id == c) by {
                    assert(pre.channels_v()[j] == pre.channels@[j]@);
                }
                assert(false);
            }
        }
    }

    /// Subscription lookups agree between two states whose subscriber
    /// identities agree pointwise.
    pub proof fn lemma_same_sub_ids(&self, pre: &Server)
        requires
            pre.wf(),
            self.subs_v().len() == pre.subs_v().len(),
            forall|i: int|
                0 <= i < self.subs_v().len() ==> (#[trigger] self.subs_v()[i]).user_id
                    == pre.subs_v()[i].user_id,
        ensures
            forall|u: u64| #[trigger] self.subscribed(u) == pre.subscribed(u),
            forall|u: u64| #[trigger] self.subscribed(u) ==> self.sidx(u) == pre.sidx(u),
    {
        assert forall|u: u64| #[trigger] self.subscribed(u) == pre.subscribed(u) by {
            if self.subscribed(u) {
                let i = self.sidx(u);
                assert(pre.subs_v()[i].user_id == u);
                assert(pre.subscribed(u));
            }
            if pre.subscribed(u) {
                let i = pre.sidx(u);
                assert(self.subs_v()[i].user_id == u);
                assert(self.subscribed(u));
            }
        }
        assert forall|u: u64| #[trigger] self.subscribed(u) implies self.sidx(u)
            == pre.sidx(u) by {
            let i = self.sidx(u);
            let j = pre.sidx(u);
            assert(pre.subs_v()[i].user_id == u);
            assert(self.subs_v()[j].user_id == u);
            if i != j {
                assert(pre.subs@[i].user_id == u) by {
                    assert(pre.subs_v()[i] == pre.subs@[i]@);
                }
                assert(pre.subs@[j].user_id == u) by {
                    assert(pre.subs_v()[j] == pre.subs@[j]@);
                }
                assert(false);
            }
        }
    }

    /// The index of this identity's subscription, or `None`.
    fn find_sub(&self, uid: u64) -> (r: Option<usize>)
        requires
            self.wf(),
        ensures
            r matches Some(i) ==> i < self.subs@.len() && self.subs_v()[i as int].user_id == uid
                && self.subscribed(uid) && self.sidx(uid) == i as int,
            r is None ==> !self.subscribed(uid),
    {
        let mut i: usize = 0;
        while i < self.subs.len()
            invariant
                self.wf(),
                i <= self.subs@.len(),
                forall|j: int| 0 <= j < i ==> self.subs_v()[j].user_id != uid,
            decreases self.subs@.len() - i,
        {
            if self.subs[i].user_id == uid {
                proof {
                    assert(self.subs_v()[i as int].user_id == uid);
                    assert(self.subscribed(uid));
                    let j = self.sidx(uid);
                    assert(0 <= j < self.subs_v().len() && self.subs_v()[j].user_id == uid);
                    if j != i {
                        assert(self.subs@[j].user_id == uid) by {
                            assert(self.subs_v()[j] == self.subs@[j]@);
                        }
                        assert(self.subs@[i as int].user_id == uid) by {
                            assert(self.subs_v()[i as int] == self.subs@[i as int]@);
                        }
                        assert(false);
                    }
                }
                return Some(i);
            }
            i = i + 1;
        }
        None
    }

    /// The index of the channel with this token, or `None`.
    fn find_channel(&self, cid: u64) -> (r: Option<usize>)
        requires
            self.wf(),
        ensures
            r matches Some(i) ==> i < self.channels@.len() && self.channels_v()[i as int].id
                == cid && self.has_channel(cid) && self.cidx(cid) == i as int,
            r is None ==> !self.has_channel(cid),
    {
        let mut i: usize = 0;
        while i < self.channels.len()
            invariant
                self.wf(),
                i <= self.channels@.len(),
                forall|j: int| 0 <= j < i ==> self.channels_v()[j].id != cid,
            decreases self.channels@.len() - i,
        {
            if self.channels[i].id == cid {
                proof {
                    assert(self.channels_v()[i as int].id == cid);
                    assert(self.has_channel(cid));
                    let j = self.cidx(cid);
                    assert(0 <= j < self.channels_v().len() && self.channels_v()[j].id == cid);
                    if j != i {
                        assert(self.channels@[j].id == cid) by {
                            assert(self.channels_v()[j] == self.channels@[j]@);
                        }
                        assert(self.channels@[i as int].id == cid) by {
                            assert(self.channels_v()[i as int] == self.channels@[i as int]@);
                        }
                        assert(false);
                    }
                }
                return Some(i);
            }
            i = i + 1;
        }
        None
    }

    /// The position of an identity inside one channel's member list.
    fn find_member(&self, ci: usize, uid: u64) -> (r: Option<usize>)
        requires
            ci < self.channels@.len(),
        ensures
            r matches Some(k) ==> k < self.channels@[ci as int].members@.len()
                && self.channels@[ci as int].members@[k as int] == uid,
            r is None ==> !self.channels@[ci as int].members@.contains(uid),
    {
        let mut k: usize = 0;
        let n = self.channels[ci].members.len();
        while k < n
            invariant
                ci < self.channels@.len(),
                n == self.channels@[ci as int].members@.len(),
                k <= n,
                forall|j: int| 0 <= j < k ==> self.channels@[ci as int].members@[j] != uid,
            decreases n - k,
        {
            if self.channels[ci].members[k] == uid {
                return Some(k);
            }
            k = k + 1;
        }
        None
    }

    /// Removes an identity from whatever channel it occupies, dropping its
    /// subscription. Idempotent: removing a non-member is a no-op.
    ///
    /// Other members, other channels and every other subscriber's queue are
    /// untouched.
    #[verifier::rlimit(100)]
    pub fn leave_channel(&mut self, user_id: u64)
        requires
            old(self).wf(),
        ensures
            final(self).wf(),
            !old(self).subscribed(user_id) ==> *final(self) == *old(self),
            final(self).users_v() == old(self).users_v(),
            final(self).channels_v().len() == old(self).channels_v().len(),
            forall|i: int|
                0 <= i < final(self).channels_v().len() ==> (#[trigger] final(self).channels_v()[i]).id == old(self).channels_v()[i].id && final(self).channels_v()[i].name == old(self).channels_v()[i].name && final(self).channels_v()[i].description == old(self).channels_v()[i].description,
            forall|c: u64| #[trigger] final(self).has_channel(c) == old(self).has_channel(c),
            !final(self).subscribed(user_id),
            forall|c: u64| !final(self).member_in(user_id, c),
            forall|u: u64|
                u != user_id ==> #[trigger] final(self).subscribed(u) == old(self).subscribed(u),
            forall|u: u64|
                u != user_id && old(self).subscribed(u) ==> #[trigger] final(self).sub_channel(u)
                    == old(self).sub_channel(u) && final(self).queue_of(u) == old(self).queue_of(
                    u,
                ),
            forall|c: u64, x: u64|
                old(self).has_channel(c) && x != user_id ==> #[trigger] final(self).members_of(c).contains(x) == old(self).members_of(c).contains(x),
    {
        let ghost pre = *self;
        let si = match self.find_sub(user_id) {
            Some(si) => si,
            None => {
                proof {
                    assert forall|c: u64| !self.member_in(user_id, c) by {
                        if self.member_in(user_id, c) {
                            let ci = self.cidx(c);
                            let k = choose|k: int|
                                0 <= k < self.members_of(c).len() && self.members_of(c)[k]
                                    == user_id;
                            assert(self.channels_v()[ci] == self.channels@[ci]@);
                            assert(self.channels@[ci].members@[k] == user_id);
                            assert(self.subscribed(self.channels@[ci].members@[k]));
                        }
                    }
                }
                return ;
            },
        };
        let cid = self.subs[si].channel_id;
        proof {
            assert(self.subs_v()[si as int] == self.subs@[si as int]@);
            assert(self.subs_v()[si as int].channel_id == cid);
            assert(self.member_in(self.subs@[si as int].user_id, self.subs@[si as int].channel_id));
            assert(self.member_in(user_id, cid));
        }
        let ci = match self.find_channel(cid) {
            Some(ci) => ci,
            None => {
                proof {
                    assert(false);
                }
                return ;
            },
        };
        let k = match self.find_member(ci, user_id) {
            Some(k) => k,
            None => {
                proof {
                    let kk = choose|kk: int|
                        0 <= kk < self.members_of(cid).len() && self.members_of(cid)[kk]
                            == user_id;
                    assert(self.channels_v()[ci as int] == self.channels@[ci as int]@);
                    assert(self.channels@[ci as int].members@[kk] == user_id);
                    assert(false);
                }
                return ;
            },
        };
        self.subs.remove(si);
        self.channels[ci].members.remove(k);
        proof {
            self.lemma_leave_reestablish(pre, si as int, ci as int, k as int, user_id, cid);
        }
    }

    /// Re-establishes the invariant and the leave contract after one
    /// subscription and one membership entry were removed.
    #[verifier::rlimit(100)]
    proof fn lemma_leave_reestablish(
        &self,
        pre: Server,
        si: int,
        ci: int,
        k: int,
        user_id: u64,
        cid: u64,
    )
        requires
            pre.wf(),
            0 <= si < pre.subs@.len(),
            0 <= ci < pre.channels@.len(),
            0 <= k < pre.channels@[ci].members@.len(),
            pre.subs@[si].user_id == user_id,
            pre.subs@[si].channel_id == cid,
            pre.channels@[ci].id == cid,
            pre.channels@[ci].members@[k] == user_id,
            self.users == pre.users,
            self.db == pre.db,
            self.next_user_id == pre.next_user_id,
            self.next_channel_id == pre.next_channel_id,
            self.subs@ == pre.subs@.remove(si),
            self.channels@.len() == pre.channels@.len(),
            forall|i: int|
                0 <= i < self.channels@.len() && i != ci ==> self.channels@[i]
                    == pre.channels@[i],
            self.channels@[ci].id == pre.channels@[ci].id,
            self.channels@[ci].name == pre.channels@[ci].name,
            self.channels@[ci].description == pre.channels@[ci].description,
            self.channels@[ci].parent_id == pre.channels@[ci].parent_id,
            self.channels@[ci].members@ == pre.channels@[ci].members@.remove(k),
        ensures
            self.wf(),
            self.users_v() == pre.users_v(),
            self.channels_v().len() == pre.channels_v().len(),
            forall|i: int|
                0 <= i < self.channels_v().len() ==> (#[trigger] self.channels_v()[i]).id
                    == pre.channels_v()[i].id && self.channels_v()[i].name
                    == pre.channels_v()[i].name && self.channels_v()[i].description
                    == pre.channels_v()[i].description,
            forall|c: u64| #[trigger] self.has_channel(c) == pre.has_channel(c),
            !self.subscribed(user_id),
            forall|c: u64| !self.member_in(user_id, c),
            forall|u: u64| u != user_id ==> #[trigger] self.subscribed(u) == pre.subscribed(u),
            forall|u: u64|
                u != user_id && pre.subscribed(u) ==> #[trigger] self.sub_channel(u)
                    == pre.sub_channel(u) && self.queue_of(u) == pre.queue_of(u),
            forall|c: u64, x: u64|
                pre.has_channel(c) && x != user_id ==> #[trigger] self.members_of(c).contains(x)
                    == pre.members_of(c).contains(x),
    {
        assert(self.users_v() =~= pre.users_v());
        // Channel tokens and static fields agree pointwise.
        assert forall|i: int|
            0 <= i < self.channels_v().len() implies (#[trigger] self.channels_v()[i]).id
            == pre.channels_v()[i].id && self.channels_v()[i].name == pre.channels_v()[i].name
            && self.channels_v()[i].description == pre.channels_v()[i].description by {
            assert(self.channels_v()[i] == self.channels@[i]@);
            assert(pre.channels_v()[i] == pre.channels@[i]@);
            if i != ci {
                assert(self.channels@[i] == pre.channels@[i]);
            }
        }
        self.lemma_same_channel_ids(&pre);
        // Positions in the new member lists map to positions in the old.
        assert forall|cj: int, l: int|
            0 <= cj < self.channels@.len() && 0 <= l
                < self.channels@[cj].members@.len() implies self.channels@[cj].members@[l]
            == pre.channels@[cj].members@[leave_old_pos(cj, l, ci, k)] && 0 <= leave_old_pos(
            cj,
            l,
            ci,
            k,
        ) < pre.channels@[cj].members@.len() && (cj, leave_old_pos(cj, l, ci, k)) != (ci, k) by {
            if cj != ci {
                assert(self.channels@[cj] == pre.channels@[cj]);
            }
        }
        // No new member list holds the removed identity.
        assert forall|cj: int, l: int|
            0 <= cj < self.channels@.len() && 0 <= l
                < self.channels@[cj].members@.len() implies self.channels@[cj].members@[l]
            != user_id by {
            let ol = leave_old_pos(cj, l, ci, k);
            assert(pre.channels@[cj].members@[ol] != pre.channels@[ci].members@[k]);
        }
        // Member uniqueness carries over through the position map.
        assert forall|c1: int, c2: int, k1: int, k2: int|
            0 <= c1 < self.channels@.len() && 0 <= c2 < self.channels@.len() && 0 <= k1
                < self.channels@[c1].members@.len() && 0 <= k2 < self.channels@[c2].members@.len()
                && (c1 != c2 || k1 != k2) implies #[trigger] self.channels@[c1].members@[k1]
            != #[trigger] self.channels@[c2].members@[k2] by {
            let o1 = leave_old_pos(c1, k1, ci, k);
            let o2 = leave_old_pos(c2, k2, ci, k);
            assert(self.channels@[c1].members@[k1] == pre.channels@[c1].members@[o1]);
            assert(self.channels@[c2].members@[k2] == pre.channels@[c2].members@[o2]);
            assert(c1 != c2 || o1 != o2);
        }
        // Subscriber positions map to old positions past the removed one.
        assert forall|j: int|
            0 <= j < self.subs@.len() implies self.subs@[j] == pre.subs@[
            if j < si {
                j
            } else {
                j + 1
            }] by {}
        // The removed identity holds no subscription.
        assert forall|j: int| 0 <= j < self.subs@.len() implies self.subs@[j].user_id
            != user_id by {
            let oj = if j < si {
                j
            } else {
                j + 1
            };
            assert(pre.subs@[oj].user_id != pre.subs@[si].user_id);
        }
        assert(!self.subscribed(user_id)) by {
            if self.subscribed(user_id) {
                let j = self.sidx(user_id);
                assert(self.subs_v()[j] == self.subs@[j]@);
            }
        }
        // Subscription uniqueness carries over.
        assert forall|i: int, j: int|
            0 <= i < j < self.subs@.len() implies self.subs@[i].user_id
            != self.subs@[j].user_id by {
            let oi = if i < si {
                i
            } else {
                i + 1
            };
            let oj = if j < si {
                j
            } else {
                j + 1
            };
            assert(pre.subs@[oi].user_id != pre.subs@[oj].user_id);
        }
        // Every remaining subscriber is still a member of its channel.
        assert forall|j: int|
            0 <= j < self.subs@.len() implies self.member_in(
            #[trigger] self.subs@[j].user_id,
            self.subs@[j].channel_id,
        ) by {
            let oj = if j < si {
                j
            } else {
                j + 1
            };
            let u = self.subs@[j].user_id;
            let c = self.subs@[j].channel_id;
            assert(pre.member_in(u, c));
            assert(u != user_id) by {
                assert(pre.subs@[oj].user_id != pre.subs@[si].user_id);
            }
            let pci = pre.cidx(c);
            let pk = choose|pk: int|
                0 <= pk < pre.members_of(c).len() && pre.members_of(c)[pk] == u;
            assert(pre.channels_v()[pci] == pre.channels@[pci]@);
            assert(pre.channels@[pci].members@[pk] == u);
            let nk = if pci == ci && pk > k {
                pk - 1
            } else {
                pk
            };
            assert((pci, pk) != (ci, k));
            assert(self.channels@[pci].members@[nk] == u) by {
                if pci != ci {
                    assert(self.channels@[pci] == pre.channels@[pci]);
                }
            }
            assert(self.has_channel(c));
            assert(self.cidx(c) == pci);
            assert(self.members_of(c) == self.channels@[pci].members@) by {
                assert(self.channels_v()[pci] == self.channels@[pci]@);
            }
            assert(self.members_of(c).contains(u)) by {
                assert(self.members_of(c)[nk] == u);
            }
        }
        // Every remaining member is still subscribed to its channel.
        assert forall|cj: int, l: int|
            0 <= cj < self.channels@.len() && 0 <= l
                < self.channels@[cj].members@.len() implies self.subscribed(
            #[trigger] self.channels@[cj].members@[l],
        ) && self.sub_channel(self.channels@[cj].members@[l]) == self.channels@[cj].id by {
            let ol = leave_old_pos(cj, l, ci, k);
            let u = self.channels@[cj].members@[l];
            assert(pre.channels@[cj].members@[ol] == u);
            assert(pre.subscribed(u) && pre.sub_channel(u) == pre.channels@[cj].id);
            assert(u != user_id);
            let pj = pre.sidx(u);
            assert(pre.subs_v()[pj].user_id == u);
            assert(pre.subs@[pj].user_id == u) by {
                assert(pre.subs_v()[pj] == pre.subs@[pj]@);
            }
            assert(pj != si);
            let nj = if pj < si {
                pj
            } else {
                pj - 1
            };
            assert(self.subs@[nj] == pre.subs@[pj]);
            assert(self.subs_v()[nj].user_id == u) by {
                assert(self.subs_v()[nj] == self.subs@[nj]@);
            }
            assert(self.subscribed(u));
            assert(self.sidx(u) == nj) by {
                let j2 = self.sidx(u);
                assert(self.subs_v()[j2].user_id == u);
                if j2 != nj {
                    assert(self.subs@[j2].user_id == u) by {
                        assert(self.subs_v()[j2] == self.subs@[j2]@);
                    }
                    assert(false);
                }
            }
            assert(self.sub_channel(u) == self.subs_v()[nj].channel_id);
            assert(self.subs_v()[nj].channel_id == pre.subs@[pj].channel_id) by {
                assert(self.subs_v()[nj] == self.subs@[nj]@);
            }
            assert(pre.sub_channel(u) == pre.subs_v()[pj].channel_id) by {
                assert(pre.sidx(u) == pj);
            }
            assert(pre.subs_v()[pj].channel_id == pre.subs@[pj].channel_id) by {
                assert(pre.subs_v()[pj] == pre.subs@[pj]@);
            }
        }
        // Queue bounds carry over.
        assert forall|j: int|
            0 <= j < self.subs_v().len() implies (#[trigger] self.subs_v()[j].queue).len()
            <= QUEUE_CAPACITY by {
            let oj = if j < si {
                j
            } else {
                j + 1
            };
            assert(self.subs_v()[j] == self.subs@[j]@);
            assert(pre.subs_v()[oj] == pre.subs@[oj]@);
            assert(pre.subs_v()[oj].queue.len() <= QUEUE_CAPACITY);
        }
        // The credential-store clauses depend on the identities alone.
        assert forall|n: Seq<char>| #[trigger]
            self.db.contains_name(n) implies phc_parses(self.db.hash_of(n)) && self.has_username(
            n,
        ) && self.id_by_name(n) == self.db.id_of(n) by {
            assert(pre.db.contains_name(n));
        }
        assert(self.wf());
        // The removed identity stands in no member set.
        assert forall|c: u64| !self.member_in(user_id, c) by {
            if self.member_in(user_id, c) {
                let c2 = self.cidx(c);
                let l = choose|l: int|
                    0 <= l < self.members_of(c).len() && self.members_of(c)[l] == user_id;
                assert(self.channels_v()[c2] == self.channels@[c2]@);
                assert(self.channels@[c2].members@[l] == user_id);
            }
        }
        // Other identities' subscriptions and queues carry over.
        assert forall|u: u64| u != user_id implies #[trigger] self.subscribed(u)
            == pre.subscribed(u) by {
            if self.subscribed(u) {
                let j = self.sidx(u);
                assert(self.subs_v()[j] == self.subs@[j]@);
                let oj = if j < si {
                    j
                } else {
                    j + 1
                };
                assert(pre.subs@[oj].user_id == u);
                assert(pre.subs_v()[oj] == pre.subs@[oj]@);
                assert(pre.subscribed(u));
            }
            if pre.subscribed(u) {
                let pj = pre.sidx(u);
                assert(pre.subs_v()[pj] == pre.subs@[pj]@);
                assert(pre.subs@[pj].user_id == u);
                assert(pj != si);
                let nj = if pj < si {
                    pj
                } else {
                    pj - 1
                };
                assert(self.subs@[nj] == pre.subs@[pj]);
                assert(self.subs_v()[nj] == self.subs@[nj]@);
                assert(self.subscribed(u));
            }
        }
        assert forall|u: u64|
            u != user_id && pre.subscribed(u) implies #[trigger] self.sub_channel(u)
            == pre.sub_channel(u) && self.queue_of(u) == pre.queue_of(u) by {
            let pj = pre.sidx(u);
            assert(pre.subs_v()[pj] == pre.subs@[pj]@);
            assert(pre.subs@[pj].user_id == u);
            assert(pj != si);
            let nj = if pj < si {
                pj
            } else {
                pj - 1
            };
            assert(self.subs@[nj] == pre.subs@[pj]);
            assert(self.subs_v()[nj] == self.subs@[nj]@);
            assert(self.subscribed(u));
            assert(self.sidx(u) == nj) by {
                let j2 = self.sidx(u);
                assert(self.subs_v()[j2].user_id == u);
                if j2 != nj {
                    assert(self.subs@[j2].user_id == u) by {
                        assert(self.subs_v()[j2] == self.subs@[j2]@);
                    }
                    assert(false);
                }
            }
        }
        // Membership of other identities carries over.
        assert forall|c: u64, x: u64|
            pre.has_channel(c) && x != user_id implies #[trigger] self.members_of(c).contains(x)
            == pre.members_of(c).contains(x) by {
            let pci = pre.cidx(c);
            assert(self.has_channel(c));
            assert(self.cidx(c) == pci);
            assert(self.channels_v()[pci] == self.channels@[pci]@);
            assert(pre.channels_v()[pci] == pre.channels@[pci]@);
            if self.members_of(c).contains(x) {
                let l = choose|l: int|
                    0 <= l < self.members_of(c).len() && self.members_of(c)[l] == x;
                assert(self.channels@[pci].members@[l] == x);
                let ol = leave_old_pos(pci, l, ci, k);
                assert(pre.channels@[pci].members@[ol] == x);
                assert(pre.members_of(c)[ol] == x);
                assert(pre.members_of(c).contains(x));
            }
            if pre.members_of(c).contains(x) {
                let pk = choose|pk: int|
                    0 <= pk < pre.members_of(c).len() && pre.members_of(c)[pk] == x;
                assert(pre.channels@[pci].members@[pk] == x);
                assert((pci, pk) != (ci, k)) by {
                    assert(pre.channels@[ci].members@[k] == user_id);
                }
                let nk = if pci == ci && pk > k {
                    pk - 1
                } else {
                    pk
                };
                assert(self.channels@[pci].members@[nk] == x) by {
                    if pci != ci {
                        assert(self.channels@[pci] == pre.channels@[pci]);
                    }
                }
                assert(self.members_of(c)[nk] == x);
                assert(self.members_of(c).contains(x));
            }
        }
    }


    /// Moves an identity into a channel, leaving any previous channel
    /// first, and subscribes it to the channel's feed from this point
    /// forward (no replay of history). Reports whether both the identity
    /// and the channel exist; otherwise nothing changes.
    #[verifier::rlimit(100)]
    pub fn join_channel(&mut self, user_id: u64, channel_id: u64) -> (r: bool)
        requires
            old(self).wf(),
        ensures
            final(self).wf(),
            r == (old(self).has_user(user_id) && old(self).has_channel(channel_id)),
            !r ==> *final(self) == *old(self),
            r ==> {
                &&& final(self).users_v() == old(self).users_v()
                &&& forall|c: u64| #[trigger] final(self).has_channel(c) == old(self).has_channel(c)
                &&& final(self).member_in(user_id, channel_id)
                &&& final(self).subscribed(user_id)
                &&& final(self).sub_channel(user_id) == channel_id
                &&& final(self).queue_of(user_id) == Seq::<MessageV>::empty()
                &&& forall|c: u64| c != channel_id ==> !final(self).member_in(user_id, c)
                &&& forall|u: u64|
                    u != user_id ==> #[trigger] final(self).subscribed(u) == old(self).subscribed(u)
                &&& forall|u: u64|
                    u != user_id && old(self).subscribed(u) ==> #[trigger] final(self).sub_channel(u) == old(self).sub_channel(u) && final(self).queue_of(u) == old(self).queue_of(u)
                &&& forall|c: u64, x: u64|
                    old(self).has_channel(c) && x != user_id ==> #[trigger] final(self).members_of(c).contains(x) == old(self).members_of(c).contains(x)
                &&& forall|x: u64|
                    #[trigger] final(self).members_of(channel_id).contains(x) == (old(self).members_of(channel_id).contains(x) && x != user_id || x == user_id)
            },
    {
        if self.find_user(user_id).is_none() {
            return false;
        }
        if self.find_channel(channel_id).is_none() {
            return false;
        }
        let ghost pre = *self;
        self.leave_channel(user_id);
        let ci = match self.find_channel(channel_id) {
            Some(ci) => ci,
            None => {
                proof {
                    assert(false);
                }
                return false;
            },
        };
        let ghost mid = *self;
        self.channels[ci].members.push(user_id);
        self.subs.push(Subscriber { user_id, channel_id, queue: Vec::new() });
        proof {
            self.lemma_join_reestablish(mid, ci as int, user_id, channel_id);
            // Compose the post-join step with the leave contract so the
            // clauses speak of the state before the implicit leave.
            assert forall|c: u64, x: u64|
                pre.has_channel(c) && x != user_id implies #[trigger] self.members_of(
                c,
            ).contains(x) == pre.members_of(c).contains(x) by {
                assert(mid.has_channel(c));
            }
            assert forall|x: u64| #[trigger]
                self.members_of(channel_id).contains(x) == (pre.members_of(
                    channel_id,
                ).contains(x) && x != user_id || x == user_id) by {
                if x != user_id {
                    assert(mid.has_channel(channel_id));
                    assert(self.members_of(channel_id).contains(x) == mid.members_of(
                        channel_id,
                    ).contains(x));
                }
            }
        }
        true
    }

    /// Re-establishes the invariant and the join contract after one
    /// membership entry and one fresh subscription were appended for an
    /// identity that stood nowhere.
    #[verifier::rlimit(100)]
    proof fn lemma_join_reestablish(&self, mid: Server, ci: int, user_id: u64, channel_id: u64)
        requires
            mid.wf(),
            !mid.subscribed(user_id),
            forall|c: u64| !mid.member_in(user_id, c),
            0 <= ci < mid.channels@.len(),
            mid.channels@[ci].id == channel_id,
            self.users == mid.users,
            self.db == mid.db,
            self.next_user_id == mid.next_user_id,
            self.next_channel_id == mid.next_channel_id,
            self.subs@.len() == mid.subs@.len() + 1,
            forall|j: int| 0 <= j < mid.subs@.len() ==> self.subs@[j] == mid.subs@[j],
            self.subs@[mid.subs@.len() as int].user_id == user_id,
            self.subs@[mid.subs@.len() as int].channel_id == channel_id,
            self.subs@[mid.subs@.len() as int].queue@ == Seq::<Message>::empty(),
            self.channels@.len() == mid.channels@.len(),
            forall|i: int|
                0 <= i < self.channels@.len() && i != ci ==> self.channels@[i]
                    == mid.channels@[i],
            self.channels@[ci].id == mid.channels@[ci].id,
            self.channels@[ci].name == mid.channels@[ci].name,
            self.channels@[ci].description == mid.channels@[ci].description,
            self.channels@[ci].parent_id == mid.channels@[ci].parent_id,
            self.channels@[ci].members@ == mid.channels@[ci].members@.push(user_id),
        ensures
            self.wf(),
            self.users_v() == mid.users_v(),
            forall|c: u64| #[trigger] self.has_channel(c) == mid.has_channel(c),
            self.member_in(user_id, channel_id),
            self.subscribed(user_id),
            self.sub_channel(user_id) == channel_id,
            self.queue_of(user_id) == Seq::<MessageV>::empty(),
            forall|c: u64| c != channel_id ==> !self.member_in(user_id, c),
            forall|u: u64| u != user_id ==> #[trigger] self.subscribed(u) == mid.subscribed(u),
            forall|u: u64|
                u != user_id && mid.subscribed(u) ==> #[trigger] self.sub_channel(u)
                    == mid.sub_channel(u) && self.queue_of(u) == mid.queue_of(u),
            forall|c: u64, x: u64|
                mid.has_channel(c) && x != user_id ==> #[trigger] self.members_of(c).contains(x)
                    == mid.members_of(c).contains(x),
    {
        let nk = mid.channels@[ci].members@.len() as int;
        let ns = mid.subs@.len() as int;
        assert(self.users_v() =~= mid.users_v());
        assert forall|i: int|
            0 <= i < self.channels_v().len() implies (#[trigger] self.channels_v()[i]).id
            == mid.channels_v()[i].id by {
            assert(self.channels_v()[i] == self.channels@[i]@);
            assert(mid.channels_v()[i] == mid.channels@[i]@);
        }
        self.lemma_same_channel_ids(&mid);
        // The joining identity appears nowhere in the old member lists.
        assert forall|cj: int, l: int|
            0 <= cj < mid.channels@.len() && 0 <= l
                < mid.channels@[cj].members@.len() implies mid.channels@[cj].members@[l]
            != user_id by {
            if mid.channels@[cj].members@[l] == user_id {
                let c = mid.channels@[cj].id;
                assert(mid.channels_v()[cj] == mid.channels@[cj]@);
                assert(mid.has_channel(c));
                let cj2 = mid.cidx(c);
                assert(mid.channels_v()[cj2].id == c);
                if cj2 != cj {
                    assert(mid.channels@[cj2].id == c) by {
                        assert(mid.channels_v()[cj2] == mid.channels@[cj2]@);
                    }
                    assert(false);
                }
                assert(mid.members_of(c)[l] == user_id);
                assert(mid.member_in(user_id, c));
            }
        }
        // Member uniqueness: every new position is an old position or the
        // appended entry.
        assert forall|c1: int, c2: int, k1: int, k2: int|
            0 <= c1 < self.channels@.len() && 0 <= c2 < self.channels@.len() && 0 <= k1
                < self.channels@[c1].members@.len() && 0 <= k2 < self.channels@[c2].members@.len()
                && (c1 != c2 || k1 != k2) implies #[trigger] self.channels@[c1].members@[k1]
            != #[trigger] self.channels@[c2].members@[k2] by {
            let new1 = c1 == ci && k1 == nk;
            let new2 = c2 == ci && k2 == nk;
            if new1 && !new2 {
                assert(self.channels@[c2].members@[k2] == mid.channels@[c2].members@[k2]);
            } else if !new1 && new2 {
                assert(self.channels@[c1].members@[k1] == mid.channels@[c1].members@[k1]);
            } else if !new1 && !new2 {
                assert(self.channels@[c1].members@[k1] == mid.channels@[c1].members@[k1]);
                assert(self.channels@[c2].members@[k2] == mid.channels@[c2].members@[k2]);
            }
        }
        // Subscription uniqueness.
        assert forall|i: int, j: int|
            0 <= i < j < self.subs@.len() implies self.subs@[i].user_id
            != self.subs@[j].user_id by {
            if j == ns {
                if self.subs@[i].user_id == user_id {
                    assert(mid.subs_v()[i] == mid.subs@[i]@);
                    assert(mid.subscribed(user_id));
                }
            }
        }
        // Every subscriber is a member of its channel.
        assert forall|j: int|
            0 <= j < self.subs@.len() implies self.member_in(
            #[trigger] self.subs@[j].user_id,
            self.subs@[j].channel_id,
        ) by {
            if j == ns {
                assert(self.channels@[ci].members@[nk] == user_id);
                assert(self.channels_v()[ci] == self.channels@[ci]@);
                assert(self.has_channel(channel_id));
                assert(self.cidx(channel_id) == mid.cidx(channel_id));
                assert(mid.cidx(channel_id) == ci) by {
                    let cj = mid.cidx(channel_id);
                    assert(mid.channels_v()[cj].id == channel_id);
                    if cj != ci {
                        assert(mid.channels@[cj].id == channel_id) by {
                            assert(mid.channels_v()[cj] == mid.channels@[cj]@);
                        }
                        assert(false);
                    }
                }
                assert(self.members_of(channel_id)[nk] == user_id);
                assert(self.members_of(channel_id).contains(user_id));
            } else {
                let u = self.subs@[j].user_id;
                let c = self.subs@[j].channel_id;
                assert(mid.member_in(u, c));
                let pci = mid.cidx(c);
                let pk = choose|pk: int|
                    0 <= pk < mid.members_of(c).len() && mid.members_of(c)[pk] == u;
                assert(mid.channels_v()[pci] == mid.channels@[pci]@);
                assert(mid.channels@[pci].members@[pk] == u);
                assert(self.channels@[pci].members@[pk] == u) by {
                    if pci != ci {
                        assert(self.channels@[pci] == mid.channels@[pci]);
                    }
                }
                assert(self.has_channel(c));
                assert(self.cidx(c) == pci);
                assert(self.channels_v()[pci] == self.channels@[pci]@);
                assert(self.members_of(c)[pk] == u);
                assert(self.members_of(c).contains(u));
            }
        }
        // Every member is subscribed to its channel.
        assert forall|cj: int, l: int|
            0 <= cj < self.channels@.len() && 0 <= l
                < self.channels@[cj].members@.len() implies self.subscribed(
            #[trigger] self.channels@[cj].members@[l],
        ) && self.sub_channel(self.channels@[cj].members@[l]) == self.channels@[cj].id by {
            let u = self.channels@[cj].members@[l];
            if cj == ci && l == nk {
                assert(u == user_id);
                assert(self.subs_v()[ns].user_id == user_id) by {
                    assert(self.subs_v()[ns] == self.subs@[ns]@);
                }
                assert(self.subscribed(user_id));
                assert(self.sidx(user_id) == ns) by {
                    let j2 = self.sidx(user_id);
                    assert(self.subs_v()[j2].user_id == user_id);
                    if j2 != ns {
                        assert(self.subs@[j2].user_id == user_id) by {
                            assert(self.subs_v()[j2] == self.subs@[j2]@);
                        }
                        assert(mid.subs_v()[j2] == mid.subs@[j2]@);
                        assert(mid.subscribed(user_id));
                    }
                }
                assert(self.sub_channel(user_id) == self.subs_v()[ns].channel_id);
                assert(self.subs_v()[ns] == self.subs@[ns]@);
            } else {
                assert(u == mid.channels@[cj].members@[l]) by {
                    if cj != ci {
                        assert(self.channels@[cj] == mid.channels@[cj]);
                    }
                }
                assert(u != user_id);
                assert(mid.subscribed(u) && mid.sub_channel(u) == mid.channels@[cj].id);
                let pj = mid.sidx(u);
                assert(mid.subs_v()[pj].user_id == u);
                assert(self.subs_v()[pj] == self.subs@[pj]@);
                assert(mid.subs_v()[pj] == mid.subs@[pj]@);
                assert(self.subs_v()[pj].user_id == u);
                assert(self.subscribed(u));
                assert(self.sidx(u) == pj) by {
                    let j2 = self.sidx(u);
                    assert(self.subs_v()[j2].user_id == u);
                    if j2 != pj {
                        assert(self.subs@[j2].user_id == u) by {
                            assert(self.subs_v()[j2] == self.subs@[j2]@);
                        }
                        if j2 == ns {
                            assert(false);
                        } else {
                            assert(mid.subs_v()[j2] == mid.subs@[j2]@);
                            assert(false);
                        }
                    }
                }
                assert(self.sub_channel(u) == self.subs_v()[pj].channel_id);
                assert(mid.sub_channel(u) == mid.subs_v()[pj].channel_id);
            }
        }
        // Queue bounds.
        assert forall|j: int|
            0 <= j < self.subs_v().len() implies (#[trigger] self.subs_v()[j].queue).len()
            <= QUEUE_CAPACITY by {
            assert(self.subs_v()[j] == self.subs@[j]@);
            if j < ns {
                assert(mid.subs_v()[j] == mid.subs@[j]@);
                assert(mid.subs_v()[j].queue.len() <= QUEUE_CAPACITY);
            } else {
                assert(self.subs@[j].queue@.map_values(|m: Message| m@) =~= Seq::<
                    MessageV,
                >::empty());
            }
        }
        // The credential-store clauses depend on the identities alone.
        assert forall|n: Seq<char>| #[trigger]
            self.db.contains_name(n) implies phc_parses(self.db.hash_of(n)) && self.has_username(
            n,
        ) && self.id_by_name(n) == self.db.id_of(n) by {
            assert(mid.db.contains_name(n));
        }
        assert(self.wf());
        // The joining identity's new state.
        assert(self.subs_v()[ns] == self.subs@[ns]@);
        assert(self.subscribed(user_id));
        assert(self.sidx(user_id) == ns) by {
            let j2 = self.sidx(user_id);
            assert(self.subs_v()[j2].user_id == user_id);
            if j2 != ns {
                assert(self.subs@[j2].user_id == user_id) by {
                    assert(self.subs_v()[j2] == self.subs@[j2]@);
                }
                assert(mid.subs_v()[j2] == mid.subs@[j2]@);
                assert(mid.subscribed(user_id));
            }
        }
        assert(self.queue_of(user_id) =~= Seq::<MessageV>::empty());
        assert(self.member_in(user_id, channel_id)) by {
            assert(mid.cidx(channel_id) == ci) by {
                let cj = mid.cidx(channel_id);
                assert(mid.channels_v()[cj].id == channel_id);
                if cj != ci {
                    assert(mid.channels@[cj].id == channel_id) by {
                        assert(mid.channels_v()[cj] == mid.channels@[cj]@);
                    }
                    assert(false);
                }
            }
            assert(self.cidx(channel_id) == ci);
            assert(self.channels_v()[ci] == self.channels@[ci]@);
            assert(self.members_of(channel_id)[nk] == user_id);
            assert(self.members_of(channel_id).contains(user_id));
        }
        // The joining identity stands in no other channel.
        assert forall|c: u64| c != channel_id implies !self.member_in(user_id, c) by {
            if self.member_in(user_id, c) {
                let c2 = self.cidx(c);
                let l = choose|l: int|
                    0 <= l < self.members_of(c).len() && self.members_of(c)[l] == user_id;
                assert(self.channels_v()[c2] == self.channels@[c2]@);
                assert(self.channels@[c2].members@[l] == user_id);
                if c2 == ci && l == nk {
                    assert(self.channels@[ci].id == c);
                } else {
                    assert(mid.channels@[c2].members@[l] == user_id) by {
                        if c2 != ci {
                            assert(self.channels@[c2] == mid.channels@[c2]);
                        }
                    }
                }
            }
        }
        // Other identities' subscriptions carry over.
        assert forall|u: u64| u != user_id implies #[trigger] self.subscribed(u)
            == mid.subscribed(u) by {
            if self.subscribed(u) {
                let j = self.sidx(u);
                assert(self.subs_v()[j] == self.subs@[j]@);
                assert(j != ns);
                assert(mid.subs_v()[j] == mid.subs@[j]@);
                assert(mid.subscribed(u));
            }
            if mid.subscribed(u) {
                let j = mid.sidx(u);
                assert(mid.subs_v()[j] == mid.subs@[j]@);
                assert(self.subs_v()[j] == self.subs@[j]@);
                assert(self.subscribed(u));
            }
        }
        assert forall|u: u64|
            u != user_id && mid.subscribed(u) implies #[trigger] self.sub_channel(u)
            == mid.sub_channel(u) && self.queue_of(u) == mid.queue_of(u) by {
            let pj = mid.sidx(u);
            assert(mid.subs_v()[pj] == mid.subs@[pj]@);
            assert(self.subs_v()[pj] == self.subs@[pj]@);
            assert(self.subscribed(u));
            assert(self.sidx(u) == pj) by {
                let j2 = self.sidx(u);
                assert(self.subs_v()[j2].user_id == u);
                if j2 != pj {
                    assert(self.subs@[j2].user_id == u) by {
                        assert(self.subs_v()[j2] == self.subs@[j2]@);
                    }
                    if j2 == ns {
                        assert(false);
                    } else {
                        assert(mid.subs_v()[j2] == mid.subs@[j2]@);
                        assert(false);
                    }
                }
            }
        }
        // Membership of other identities carries over.
        assert forall|c: u64, x: u64|
            mid.has_channel(c) && x != user_id implies #[trigger] self.members_of(c).contains(x)
            == mid.members_of(c).contains(x) by {
            let pci = mid.cidx(c);
            assert(self.has_channel(c));
            assert(self.cidx(c) == pci);
            assert(self.channels_v()[pci] == self.channels@[pci]@);
            assert(mid.channels_v()[pci] == mid.channels@[pci]@);
            if self.members_of(c).contains(x) {
                let l = choose|l: int|
                    0 <= l < self.members_of(c).len() && self.members_of(c)[l] == x;
                assert(self.channels@[pci].members@[l] == x);
                if pci == ci && l == nk {
                    assert(false);
                } else {
                    assert(mid.channels@[pci].members@[l] == x) by {
                        if pci != ci {
                            assert(self.channels@[pci] == mid.channels@[pci]);
                        }
                    }
                    assert(mid.members_of(c)[l] == x);
                    assert(mid.members_of(c).contains(x));
                }
            }
            if mid.members_of(c).contains(x) {
                let l = choose|l: int|
                    0 <= l < mid.members_of(c).len() && mid.members_of(c)[l] == x;
                assert(mid.channels@[pci].members@[l] == x);
                assert(self.channels@[pci].members@[l] == x) by {
                    if pci != ci {
                        assert(self.channels@[pci] == mid.channels@[pci]);
                    }
                }
                assert(self.members_of(c)[l] == x);
                assert(self.members_of(c).contains(x));
            }
        }
    }


    /// Tears an identity's session presence down: leaves whatever channel
    /// it occupied, drops its subscription, and marks it Offline. Called
    /// exactly once from session teardown; the identity itself persists so
    /// the account can reconnect.
    pub fn remove_user(&mut self, user_id: u64)
        requires
            old(self).wf(),
        ensures
            final(self).wf(),
            forall|c: u64| !final(self).member_in(user_id, c),
            !final(self).subscribed(user_id),
            old(self).has_user(user_id) ==> final(self).user_status(user_id)
                == UserStatus::Offline,
            forall|u: u64| #[trigger] final(self).has_user(u) == old(self).has_user(u),
            forall|c: u64| #[trigger] final(self).has_channel(c) == old(self).has_channel(c),
            forall|u: u64|
                u != user_id ==> #[trigger] final(self).subscribed(u) == old(self).subscribed(u),
            forall|u: u64|
                u != user_id && old(self).subscribed(u) ==> #[trigger] final(self).sub_channel(u)
                    == old(self).sub_channel(u) && final(self).queue_of(u) == old(self).queue_of(u),
            forall|c: u64, x: u64|
                old(self).has_channel(c) && x != user_id ==> #[trigger] final(self).members_of(c).contains(x) == old(self).members_of(c).contains(x),
            old(self).has_user(user_id) ==> forall|u: u64|
                old(self).has_user(u) && u != user_id ==> #[trigger] final(self).user_status(u)
                    == old(self).user_status(u),
    {
        let ghost pre = *self;
        self.leave_channel(user_id);
        let ghost mid = *self;
        self.update_user_status(user_id, UserStatus::Offline);
        proof {
            assert(mid.users_v() == pre.users_v());
            assert(self.subs_v() == mid.subs_v());
            assert(self.channels_v() == mid.channels_v());
            self.lemma_same_channel_ids(&mid);
            self.lemma_same_sub_ids(&mid);
            assert forall|u: u64|
                u != user_id && pre.subscribed(u) implies #[trigger] self.sub_channel(u)
                == pre.sub_channel(u) && self.queue_of(u) == pre.queue_of(u) by {
                assert(mid.subscribed(u));
                assert(self.subscribed(u));
                assert(self.sidx(u) == mid.sidx(u));
                assert(self.subs_v()[self.sidx(u)] == mid.subs_v()[mid.sidx(u)]);
            }
            assert forall|c: u64, x: u64|
                pre.has_channel(c) && x != user_id implies #[trigger] self.members_of(
                c,
            ).contains(x) == pre.members_of(c).contains(x) by {
                assert(mid.has_channel(c));
                assert(self.has_channel(c));
                assert(self.cidx(c) == mid.cidx(c));
                assert(self.channels_v()[self.cidx(c)] == mid.channels_v()[mid.cidx(c)]);
                assert(self.members_of(c) == mid.members_of(c));
                assert(mid.members_of(c).contains(x) == pre.members_of(c).contains(x));
            }
            assert(!self.subscribed(user_id)) by {
                if self.subscribed(user_id) {
                    let i = self.sidx(user_id);
                    assert(mid.subs_v()[i].user_id == user_id);
                    assert(mid.subscribed(user_id));
                }
            }
            assert forall|c: u64| !self.member_in(user_id, c) by {
                if self.member_in(user_id, c) {
                    let i = self.cidx(c);
                    assert(mid.channels_v()[i].id == c);
                    assert(mid.has_channel(c));
                    let j = mid.cidx(c);
                    assert(mid.channels_v()[j].id == c);
                    if j != i {
                        assert(mid.channels@[j].id == c) by {
                            assert(mid.channels_v()[j] == mid.channels@[j]@);
                        }
                        assert(mid.channels@[i].id == c) by {
                            assert(mid.channels_v()[i] == mid.channels@[i]@);
                        }
                        assert(false);
                    }
                    assert(mid.members_of(c) == self.members_of(c));
                    assert(mid.member_in(user_id, c));
                }
            }
            assert forall|u: u64| #[trigger] self.has_user(u) == pre.has_user(u) by {
                if pre.has_user(u) {
                    let i = pre.uidx(u);
                    assert(mid.users_v()[i].id == u);
                    if mid.has_user(u) {
                        assert(self.users_v()[i].id == u);
                        assert(self.has_user(u));
                    }
                    assert(mid.has_user(u));
                }
                if self.has_user(u) {
                    let i = self.uidx(u);
                    if mid.has_user(user_id) {
                        assert(mid.users_v()[i].id == u || self.users_v()[i].id == u);
                    }
                    assert(mid.users_v()[i].id == u);
                    assert(mid.has_user(u));
                }
            }
            assert forall|u: u64|
                pre.has_user(u) && u != user_id implies #[trigger] self.user_status(u)
                == pre.user_status(u) by {
                if mid.has_user(user_id) {
                    let i = pre.uidx(u);
                    assert(mid.users_v()[i].id == u);
                    assert(mid.uidx(u) == i) by {
                        let j = mid.uidx(u);
                        assert(mid.users_v()[j].id == u);
                        if j != i {
                            assert(mid.users@[j].id == u) by {
                                assert(mid.users_v()[j] == mid.users@[j]@);
                            }
                            assert(mid.users@[i].id == u) by {
                                assert(mid.users_v()[i] == mid.users@[i]@);
                            }
                            assert(false);
                        }
                    }
                    assert(self.users_v()[i].id == u && self.users_v()[i].status
                        == mid.users_v()[i].status);
                    assert(self.uidx(u) == i) by {
                        let j = self.uidx(u);
                        assert(self.users_v()[j].id == u);
                        if j != i {
                            assert(self.users@[j].id == u) by {
                                assert(self.users_v()[j] == self.users@[j]@);
                            }
                            assert(self.users@[i].id == u) by {
                                assert(self.users_v()[i] == self.users@[i]@);
                            }
                            assert(false);
                        }
                    }
                }
            }
        }
    }

    /// Delivers a message to every current subscriber of the channel
    /// except the sender's own subscription, appending it to each bounded
    /// queue with the drop-oldest overflow policy.
    ///
    /// No self-delivery: the sender's queue is untouched. Exactly-once
    /// fan-out: each other subscriber of the channel has the message
    /// enqueued exactly once by this call; subscribers of other channels
    /// are untouched. Delivery never blocks and reports no failure: a full
    /// queue silently drops its oldest entry.
    #[verifier::rlimit(100)]
    pub fn publish(&mut self, channel_id: u64, sender_id: u64, message: &Message)
        requires
            old(self).wf(),
        ensures
            final(self).wf(),
            final(self).users_v() == old(self).users_v(),
            final(self).channels_v() == old(self).channels_v(),
            final(self).subs_v().len() == old(self).subs_v().len(),
            forall|j: int|
                0 <= j < final(self).subs_v().len() ==> (#[trigger] final(self).subs_v()[j]).user_id == old(self).subs_v()[j].user_id && final(self).subs_v()[j].channel_id == old(self).subs_v()[j].channel_id && final(self).subs_v()[j].queue == (if old(self).subs_v()[j].channel_id == channel_id && old(self).subs_v()[j].user_id != sender_id {
                    enqueue(old(self).subs_v()[j].queue, message@)
                } else {
                    old(self).subs_v()[j].queue
                }),
            old(self).subscribed(sender_id) ==> final(self).queue_of(sender_id) == old(self).queue_of(sender_id),
            forall|u: u64|
                old(self).subscribed(u) && old(self).sub_channel(u) == channel_id && u
                    != sender_id ==> #[trigger] final(self).queue_of(u) == enqueue(
                    old(self).queue_of(u),
                    message@,
                ),
            forall|u: u64|
                old(self).subscribed(u) && (old(self).sub_channel(u) != channel_id || u
                    == sender_id) ==> #[trigger] final(self).queue_of(u) == old(self).queue_of(u),
            forall|u: u64| #[trigger] final(self).subscribed(u) == old(self).subscribed(u),
            forall|u: u64|
                old(self).subscribed(u) ==> #[trigger] final(self).sub_channel(u) == old(self).sub_channel(u),
    {
        let ghost pre = *self;
        let mut i: usize = 0;
        while i < self.subs.len()
            invariant
                pre.wf(),
                i <= self.subs@.len(),
                self.subs@.len() == pre.subs@.len(),
                self.users == pre.users,
                self.channels == pre.channels,
                self.db == pre.db,
                self.next_user_id == pre.next_user_id,
                self.next_channel_id == pre.next_channel_id,
                pre == *old(self),
                forall|j: int| i <= j < self.subs@.len() ==> self.subs@[j] == pre.subs@[j],
                forall|j: int|
                    0 <= j < i ==> (#[trigger] self.subs@[j]).user_id == pre.subs@[j].user_id
                        && self.subs@[j].channel_id == pre.subs@[j].channel_id
                        && self.subs@[j]@.queue == (if pre.subs@[j].channel_id == channel_id
                        && pre.subs@[j].user_id != sender_id {
                        enqueue(pre.subs@[j]@.queue, message@)
                    } else {
                        pre.subs@[j]@.queue
                    }),
            decreases self.subs@.len() - i,
        {
            let deliver = self.subs[i].channel_id == channel_id && self.subs[i].user_id
                != sender_id;
            if deliver {
                proof {
                    assert(pre.subs_v()[i as int] == pre.subs@[i as int]@);
                    assert(pre.subs_v()[i as int].queue.len() <= QUEUE_CAPACITY);
                }
                let ghost oldq = self.subs@[i as int].queue@;
                if self.subs[i].queue.len() >= QUEUE_CAPACITY {
                    self.subs[i].queue.remove(0);
                    proof {
                        assert(self.subs@[i as int].queue@ =~= oldq.drop_first());
                    }
                }
                self.subs[i].queue.push(message.clone());
                proof {
                    let f = |m: Message| m@;
                    let newq = self.subs@[i as int].queue@;
                    if oldq.len() >= QUEUE_CAPACITY {
                        assert(newq =~= oldq.drop_first().push(newq.last()));
                        assert(newq.map_values(f) =~= oldq.map_values(f).drop_first().push(
                            message@,
                        ));
                    } else {
                        assert(newq =~= oldq.push(newq.last()));
                        assert(newq.map_values(f) =~= oldq.map_values(f).push(message@));
                    }
                    assert(self.subs@[i as int]@.queue == newq.map_values(f));
                    assert(pre.subs@[i as int]@.queue == oldq.map_values(f));
                }
            }
            i = i + 1;
        }
        proof {
            assert(self.channels_v() =~= pre.channels_v());
            assert(self.users_v() =~= pre.users_v());
            assert forall|j: int|
                0 <= j < self.subs_v().len() implies (#[trigger] self.subs_v()[j]).user_id
                == pre.subs_v()[j].user_id && self.subs_v()[j].channel_id
                == pre.subs_v()[j].channel_id && self.subs_v()[j].queue == (if pre.subs_v()[
                j].channel_id == channel_id && pre.subs_v()[j].user_id != sender_id {
                enqueue(pre.subs_v()[j].queue, message@)
            } else {
                pre.subs_v()[j].queue
            }) by {
                assert(self.subs_v()[j] == self.subs@[j]@);
                assert(pre.subs_v()[j] == pre.subs@[j]@);
            }
            self.lemma_channels_same_membership(pre);
            assert forall|j: int|
                0 <= j < self.subs_v().len() implies (#[trigger] self.subs_v()[j].queue).len()
                <= QUEUE_CAPACITY by {
                assert(pre.subs_v()[j].queue.len() <= QUEUE_CAPACITY);
            }
            assert forall|n: Seq<char>| #[trigger]
                self.db.contains_name(n) implies phc_parses(self.db.hash_of(n))
                && self.has_username(n) && self.id_by_name(n) == self.db.id_of(n) by {
                assert(pre.db.contains_name(n));
            }
            assert(self.wf());
            self.lemma_same_sub_ids(&pre);
            assert forall|u: u64|
                pre.subscribed(u) implies #[trigger] self.sub_channel(u) == pre.sub_channel(u)
                && self.queue_of(u) == (if pre.sub_channel(u) == channel_id && u != sender_id {
                enqueue(pre.queue_of(u), message@)
            } else {
                pre.queue_of(u)
            }) by {
                let j = pre.sidx(u);
                assert(self.sidx(u) == j);
                assert(self.subs_v()[j].user_id == pre.subs_v()[j].user_id);
            }
        }
    }

    /// Takes the oldest message waiting for this identity's session, if
    /// any; the session's writer encodes and sends it.
    pub fn next_message(&mut self, user_id: u64) -> (r: Option<Message>)
        requires
            old(self).wf(),
        ensures
            final(self).wf(),
            !old(self).subscribed(user_id) ==> r is None && *final(self) == *old(self),
            old(self).subscribed(user_id) && old(self).queue_of(user_id).len() == 0 ==> r is None
                && *final(self) == *old(self),
            old(self).subscribed(user_id) && old(self).queue_of(user_id).len() > 0 ==> (
            r matches Some(m) && m@ == old(self).queue_of(user_id)[0] && final(self).queue_of(
                user_id,
            ) == old(self).queue_of(user_id).drop_first()),
            final(self).users_v() == old(self).users_v(),
            final(self).channels_v() == old(self).channels_v(),
            forall|u: u64| #[trigger] final(self).subscribed(u) == old(self).subscribed(u),
            forall|u: u64|
                old(self).subscribed(u) ==> #[trigger] final(self).sub_channel(u) == old(self).sub_channel(u),
            forall|u: u64|
                u != user_id && old(self).subscribed(u) ==> #[trigger] final(self).queue_of(u)
                    == old(self).queue_of(u),
    {
        let ghost pre = *self;
        let si = match self.find_sub(user_id) {
            Some(si) => si,
            None => {
                return None;
            },
        };
        if self.subs[si].queue.len() == 0 {
            proof {
                assert(pre.subs_v()[si as int] == pre.subs@[si as int]@);
                assert(pre.queue_of(user_id).len() == 0);
            }
            return None;
        }
        let m = self.subs[si].queue.remove(0);
        proof {
            let f = |m2: Message| m2@;
            assert(pre.subs_v()[si as int] == pre.subs@[si as int]@);
            assert(self.subs@[si as int].queue@ =~= pre.subs@[si as int].queue@.drop_first());
            assert(self.subs@[si as int].queue@.map_values(f) =~= pre.subs@[
                si as int].queue@.map_values(f).drop_first());
            assert(m@ == pre.queue_of(user_id)[0]) by {
                assert(pre.subs@[si as int].queue@.map_values(f)[0] == m@);
            }
            assert forall|j: int|
                0 <= j < self.subs_v().len() implies (#[trigger] self.subs_v()[j]).user_id
                == pre.subs_v()[j].user_id && self.subs_v()[j].channel_id
                == pre.subs_v()[j].channel_id by {
                assert(self.subs_v()[j] == self.subs@[j]@);
                assert(pre.subs_v()[j] == pre.subs@[j]@);
                if j != si {
                    assert(self.subs@[j] == pre.subs@[j]);
                }
            }
            assert(self.channels_v() =~= pre.channels_v());
            assert(self.users_v() =~= pre.users_v());
            self.lemma_channels_same_membership(pre);
            assert forall|j: int|
                0 <= j < self.subs_v().len() implies (#[trigger] self.subs_v()[j].queue).len()
                <= QUEUE_CAPACITY by {
                assert(self.subs_v()[j] == self.subs@[j]@);
                assert(pre.subs_v()[j].queue.len() <= QUEUE_CAPACITY);
                if j != si {
                    assert(self.subs@[j] == pre.subs@[j]);
                }
            }
            assert forall|n: Seq<char>| #[trigger]
                self.db.contains_name(n) implies phc_parses(self.db.hash_of(n))
                && self.has_username(n) && self.id_by_name(n) == self.db.id_of(n) by {
                assert(pre.db.contains_name(n));
            }
            assert(self.wf());
            self.lemma_same_sub_ids(&pre);
            assert(self.queue_of(user_id) == pre.queue_of(user_id).drop_first()) by {
                assert(self.sidx(user_id) == si);
                assert(self.subs_v()[si as int] == self.subs@[si as int]@);
            }
            assert forall|u: u64|
                u != user_id && pre.subscribed(u) implies #[trigger] self.queue_of(u)
                == pre.queue_of(u) by {
                let j = pre.sidx(u);
                assert(self.sidx(u) == j);
                assert(j != si);
                assert(self.subs@[j] == pre.subs@[j]);
                assert(self.subs_v()[j] == self.subs@[j]@);
                assert(pre.subs_v()[j] == pre.subs@[j]@);
            }
        }
        Some(m)
    }


    /// Authenticates a username and secret into an identity, through the
    /// external credential collaborator.
    ///
    /// A known account whose password verifies resumes its identity when
    /// that identity is Offline; an identity that is already connected is
    /// refused rather than hijacked, and a wrong password is refused. An
    /// unknown username is registered on first successful authentication
    /// and comes online under a fresh identity.
    #[verifier::rlimit(100)]
    pub fn authenticate(&mut self, username: &str, password: &str) -> (r: Result<
        u64,
        OpenReverbError,
    >)
        requires
            old(self).wf(),
        ensures
            final(self).wf(),
            old(self).db_has(username@) ==> {
                &&& (r is Ok <==> (verifies(password@, old(self).db_hash(username@)) && old(self).user_status(old(self).db_id(username@)) == UserStatus::Offline))
                &&& (r matches Ok(uid) ==> uid == old(self).db_id(username@) && final(self).user_status(uid) == UserStatus::Online)
                &&& (r is Err ==> *final(self) == *old(self))
            },
            !old(self).db_has(username@) ==> {
                &&& (r matches Ok(uid) ==> !old(self).has_user(uid) && final(self).has_user(uid)
                    && final(self).user_status(uid) == UserStatus::Online && final(self).user_name(uid) == username@ && final(self).db_has(username@) && final(self).db_id(username@) == uid && verifies(password@, final(self).db_hash(username@)))
                &&& (r is Err ==> *final(self) == *old(self))
            },
            final(self).channels_v() == old(self).channels_v(),
            final(self).subs_v() == old(self).subs_v(),
            r matches Ok(uid) ==> final(self).has_user(uid),
            forall|u: u64| old(self).has_user(u) ==> #[trigger] final(self).has_user(u),
            forall|u: u64|
                old(self).has_user(u) && (r matches Ok(uid) && u != uid) ==> #[trigger] final(self).user_status(u) == old(self).user_status(u),
    {
        let ghost pre = *self;
        let stored = match self.db.get_user(username) {
            Some(cred) => Some(cred.password_hash.clone()),
            None => None,
        };
        match stored {
            Some(hash) => {
                proof {
                    assert(pre.db.contains_name(username@));
                    assert(hash@ == pre.db.hash_of(username@));
                    assert(phc_parses(hash@));
                }
                let ok = match verify_password(password, hash.as_str()) {
                    Ok(b) => b,
                    Err(e) => {
                        proof {
                            assert(false);
                        }
                        return Err(e);
                    },
                };
                if !ok {
                    return Err(OpenReverbError::AuthError("bad credentials".to_owned()));
                }
                let i = match self.find_user_by_name(&username.to_owned()) {
                    Some(i) => i,
                    None => {
                        proof {
                            assert(false);
                        }
                        return Err(OpenReverbError::AuthError("no identity".to_owned()));
                    },
                };
                let uid = self.users[i].id;
                proof {
                    assert(self.users_v()[i as int] == self.users@[i as int]@);
                    assert(self.users_v()[i as int].id == uid);
                    assert(self.has_user(uid));
                    assert(self.uidx(uid) == i as int) by {
                        let j = self.uidx(uid);
                        assert(self.users_v()[j].id == uid);
                        if j != i {
                            assert(self.users@[j].id == uid) by {
                                assert(self.users_v()[j] == self.users@[j]@);
                            }
                            assert(false);
                        }
                    }
                    assert(uid == pre.db_id(username@)) by {
                        let j = choose|j: int|
                            0 <= j < self.users_v().len() && self.users_v()[j].username
                                == username@;
                        assert(self.id_by_name(username@) == self.users_v()[j].id);
                        if j != i {
                            assert(self.users@[j].username@ == username@) by {
                                assert(self.users_v()[j] == self.users@[j]@);
                            }
                            assert(self.users@[i as int].username@ == username@);
                            assert(false);
                        }
                    }
                }
                let is_offline = match self.users[i].status {
                    UserStatus::Offline => true,
                    _ => false,
                };
                if !is_offline {
                    proof {
                        assert(self.user_status(uid) != UserStatus::Offline);
                    }
                    return Err(OpenReverbError::AuthError("already connected".to_owned()));
                }
                proof {
                    assert(self.user_status(uid) == UserStatus::Offline);
                }
                self.update_user_status(uid, UserStatus::Online);
                proof {
                    assert forall|u: u64|
                        pre.has_user(u) implies #[trigger] self.has_user(u) && (u != uid
                        ==> self.user_status(u) == pre.user_status(u)) by {
                        let a = pre.uidx(u);
                        assert(self.users_v()[a].id == u);
                        assert(self.has_user(u));
                        if u != uid {
                            assert(self.uidx(u) == a) by {
                                let b = self.uidx(u);
                                assert(self.users_v()[b].id == u);
                                if b != a {
                                    assert(self.users@[b].id == u) by {
                                        assert(self.users_v()[b] == self.users@[b]@);
                                    }
                                    assert(self.users@[a].id == u) by {
                                        assert(self.users_v()[a] == self.users@[a]@);
                                    }
                                    assert(false);
                                }
                            }
                            assert(pre.uidx(u) == a);
                        }
                    }
                    assert forall|u: u64|
                        pre.has_user(u) && u != uid implies #[trigger] self.user_status(u)
                        == pre.user_status(u) by {
                        assert(self.has_user(u));
                    }
                }
                Ok(uid)
            },
            None => {
                let hash = match hash_password(password) {
                    Ok(h) => h,
                    Err(e) => {
                        return Err(e);
                    },
                };
                let uid = match self.add_user(username.to_owned()) {
                    Some(uid) => uid,
                    None => {
                        return Err(
                            OpenReverbError::AuthError("cannot register identity".to_owned()),
                        );
                    },
                };
                let ghost mid = *self;
                let added = self.db.add_user(username, hash.as_str(), uid);
                proof {
                    assert(!pre.db.contains_name(username@));
                    assert(mid.db_has(username@) == pre.db_has(username@));
                    assert(!mid.db.contains_name(username@));
                    assert(added);
                    assert(self.users_v() == mid.users_v());
                    assert(self.channels_v() == mid.channels_v());
                    assert(self.subs_v() == mid.subs_v());
                    assert(self.users == mid.users);
                    assert(self.users_v()[self.users_v().len() - 1].username == username@);
                    assert(self.users_v()[self.users_v().len() - 1].id == uid);
                    assert(self.has_username(username@));
                    assert forall|n: Seq<char>| #[trigger]
                        self.db.contains_name(n) implies phc_parses(self.db.hash_of(n))
                        && self.has_username(n) && self.id_by_name(n) == self.db.id_of(n) by {
                        if n == username@ {
                            assert(self.db.hash_of(n) == hash@);
                            assert(self.id_by_name(n) == uid) by {
                                let j = choose|j: int|
                                    0 <= j < self.users_v().len() && self.users_v()[j].username
                                        == n;
                                if j != self.users_v().len() - 1 {
                                    assert(self.users@[j].username@ == n) by {
                                        assert(self.users_v()[j] == self.users@[j]@);
                                    }
                                    assert(self.users@[self.users@.len() - 1].username@ == n) by {
                                        assert(self.users_v()[self.users_v().len() - 1]
                                            == self.users@[self.users@.len() - 1]@);
                                    }
                                    assert(false);
                                }
                            }
                        } else {
                            assert(mid.db.contains_name(n));
                            assert(mid.db_has(n) == pre.db_has(n));
                            assert(pre.db.contains_name(n));
                            assert(mid.db_hash(n) == pre.db_hash(n) && mid.db_id(n) == pre.db_id(
                                n,
                            ));
                            assert(self.db.hash_of(n) == mid.db.hash_of(n));
                            assert(self.db.id_of(n) == mid.db.id_of(n));
                            assert(mid.wf());
                            assert(mid.has_username(n));
                            assert(mid.id_by_name(n) == mid.db.id_of(n));
                            assert(self.id_by_name(n) == mid.id_by_name(n));
                        }
                    }
                    assert(self.wf());
                    assert(self.user_name(uid) == username@) by {
                        assert(self.uidx(uid) == self.users_v().len() - 1) by {
                            let j = self.uidx(uid);
                            assert(self.users_v()[j].id == uid);
                            if j != self.users_v().len() - 1 {
                                assert(mid.users_v()[j].id == uid);
                                assert(mid.has_user(uid));
                                assert(pre.users_v()[j].id == uid) by {
                                    assert(mid.users_v()[j] == pre.users_v().push(
                                        UserV {
                                            id: uid,
                                            username: username@,
                                            status: UserStatus::Online,
                                        },
                                    )[j]);
                                }
                                assert(pre.has_user(uid));
                                assert(false);
                            }
                        }
                    }
                    assert forall|u: u64|
                        pre.has_user(u) implies #[trigger] self.has_user(u) && (u != uid
                        ==> self.user_status(u) == pre.user_status(u)) by {
                        let a = pre.uidx(u);
                        assert(self.users_v()[a].id == u);
                        assert(self.has_user(u));
                        if u != uid {
                            assert(self.uidx(u) == a) by {
                                let b = self.uidx(u);
                                assert(self.users_v()[b].id == u);
                                if b != a {
                                    assert(self.users@[b].id == u) by {
                                        assert(self.users_v()[b] == self.users@[b]@);
                                    }
                                    assert(self.users@[a].id == u) by {
                                        assert(self.users_v()[a] == self.users@[a]@);
                                    }
                                    assert(false);
                                }
                            }
                            assert(self.user_status(u) == pre.user_status(u)) by {
                                assert(self.users_v()[a] == pre.users_v()[a]);
                            }
                        }
                    }
                    assert forall|u: u64|
                        pre.has_user(u) && u != uid implies #[trigger] self.user_status(u)
                        == pre.user_status(u) by {
                        assert(self.has_user(u));
                    }
                }
                Ok(uid)
            },
        }
    }

}

/// Law: mutual exclusivity of membership. Under the registry invariant an
/// identity never stands in two channels' member sets at once: joins and
/// leaves, in any order and number, keep every identity in at most one
/// channel.
pub proof fn lemma_membership_exclusive(s: &Server, uid: u64, c1: u64, c2: u64)
    requires
        s.wf(),
        s.member_in(uid, c1),
        s.member_in(uid, c2),
    ensures
        c1 == c2,
{
    let i1 = s.cidx(c1);
    let i2 = s.cidx(c2);
    let k1 = choose|k: int| 0 <= k < s.members_of(c1).len() && s.members_of(c1)[k] == uid;
    let k2 = choose|k: int| 0 <= k < s.members_of(c2).len() && s.members_of(c2)[k] == uid;
    assert(s.channels_v()[i1] == s.channels@[i1]@);
    assert(s.channels_v()[i2] == s.channels@[i2]@);
    assert(s.channels@[i1].members@[k1] == uid);
    assert(s.channels@[i2].members@[k2] == uid);
    if c1 != c2 {
        assert(s.channels@[i1].id != s.channels@[i2].id);
        assert(false);
    }
}

/// Identity tokens are unique: two different registry entries never carry
/// the same token.
pub proof fn lemma_users_unique_at(s: &Server, i: int, j: int)
    requires
        s.wf(),
        0 <= i < s.users_v().len(),
        0 <= j < s.users_v().len(),
        i != j,
    ensures
        s.users_v()[i].id != s.users_v()[j].id,
{
    assert(s.users_v()[i] == s.users@[i]@);
    assert(s.users_v()[j] == s.users@[j]@);
}

/// Under the registry invariant, every member of a channel holds a live
/// subscription feeding from that channel; publishing to the channel
/// therefore reaches every other member.
pub proof fn lemma_member_subscribed(s: &Server, u: u64, c: u64)
    requires
        s.wf(),
        s.member_in(u, c),
    ensures
        s.subscribed(u),
        s.sub_channel(u) == c,
{
    let ci = s.cidx(c);
    let k = choose|k: int| 0 <= k < s.members_of(c).len() && s.members_of(c)[k] == u;
    assert(s.channels_v()[ci] == s.channels@[ci]@);
    assert(s.channels@[ci].members@[k] == u);
    assert(s.subscribed(s.channels@[ci].members@[k]));
    assert(s.sub_channel(s.channels@[ci].members@[k]) == s.channels@[ci].id);
}

/// The position, before one member-list entry at `(ci, k)` was removed, of
/// the entry now at `(cj, l)`.
spec fn leave_old_pos(cj: int, l: int, ci: int, k: int) -> int {
    if cj == ci && l >= k {
        l + 1
    } else {
        l
    }
}

} // verus!
