//! In-memory account store: usernames, their credential hashes and their
//! stable account identifiers. Authoritative only for the lifetime of the
//! process.
use vstd::prelude::*;

use crate::auth::Credentials;

verus! {

/// The credential store. Usernames are unique.
#[derive(Debug)]
pub struct Database {
    users: Vec<Credentials>,
    ids: Vec<u64>,
}

impl Database {
    /// The store is well formed: one identifier per entry, and no username
    /// twice.
    pub closed spec fn wf(&self) -> bool {
        &&& self.users@.len() == self.ids@.len()
        &&& forall|i: int, j: int|
            0 <= i < j < self.users@.len() ==> self.users@[i].username@
                != self.users@[j].username@
    }

    /// Whether some entry carries this username.
    pub closed spec fn contains_name(&self, name: Seq<char>) -> bool {
        exists|i: int| 0 <= i < self.users@.len() && self.users@[i].username@ == name
    }

    /// The index of the entry carrying this username.
    pub closed spec fn idx_of(&self, name: Seq<char>) -> int {
        choose|i: int| 0 <= i < self.users@.len() && self.users@[i].username@ == name
    }

    /// The stored hash for this username.
    pub closed spec fn hash_of(&self, name: Seq<char>) -> Seq<char> {
        self.users@[self.idx_of(name)].password_hash@
    }

    /// The stored account identifier for this username.
    pub closed spec fn id_of(&self, name: Seq<char>) -> u64 {
        self.ids@[self.idx_of(name)]
    }

    /// An empty store.
    pub fn new() -> (r: Database)
        ensures
            r.wf(),
            forall|n: Seq<char>| !r.contains_name(n),
    {
        Database { users: Vec::new(), ids: Vec::new() }
    }

    /// The index of the entry carrying this username, or `None`.
    fn find(&self, username: &str) -> (r: Option<usize>)
        requires
            self.wf(),
        ensures
            r matches Some(i) ==> i < self.users@.len() && self.users@[i as int].username@
                == username@ && self.contains_name(username@) && self.idx_of(username@)
                == i as int,
            r is None ==> !self.contains_name(username@),
    {
        let target = username.to_owned();
        let mut i: usize = 0;
        while i < self.users.len()
            invariant
                self.wf(),
                target@ == username@,
                i <= self.users@.len(),
                forall|j: int| 0 <= j < i ==> self.users@[j].username@ != username@,
            decreases self.users@.len() - i,
        {
            if self.users[i].username == target {
                proof {
                    assert(self.users@[i as int].username@ == username@);
                }
                return Some(i);
            }
            i = i + 1;
        }
        None
    }

    /// Adds an account; refused (`false`, store unchanged) when the
    /// username is already taken.
    pub fn add_user(&mut self, username: &str, password_hash: &str, user_id: u64) -> (ok: bool)
        requires
            old(self).wf(),
        ensures
            final(self).wf(),
            ok == !old(self).contains_name(username@),
            !ok ==> *final(self) == *old(self),
            ok ==> final(self).contains_name(username@) && final(self).hash_of(username@)
                == password_hash@ && final(self).id_of(username@) == user_id,
            forall|n: Seq<char>|
                #[trigger] final(self).contains_name(n) == (old(self).contains_name(n) || n
                    == username@),
            forall|n: Seq<char>|
                old(self).contains_name(n) && n != username@ ==> #[trigger] final(self).hash_of(n)
                    == old(self).hash_of(n) && final(self).id_of(n) == old(self).id_of(n),
    {
        match self.find(username) {
            Some(_) => false,
            None => {
                let ghost pre = *self;
                self.users.push(
                    Credentials {
                        username: username.to_owned(),
                        password_hash: password_hash.to_owned(),
                    },
                );
                self.ids.push(user_id);
                proof {
                    let n0 = self.users@.len() - 1;
                    assert(self.users@[n0].username@ == username@);
                    assert(self.contains_name(username@));
                    assert(self.idx_of(username@) == n0);
                    assert forall|n: Seq<char>| #[trigger]
                        self.contains_name(n) == (pre.contains_name(n) || n == username@) by {
                        if self.contains_name(n) {
                            let i = choose|i: int|
                                0 <= i < self.users@.len() && self.users@[i].username@ == n;
                            if i < n0 {
                                assert(pre.users@[i].username@ == n);
                                assert(pre.contains_name(n));
                            }
                        }
                        if pre.contains_name(n) {
                            let i = choose|i: int|
                                0 <= i < pre.users@.len() && pre.users@[i].username@ == n;
                            assert(self.users@[i].username@ == n);
                        }
                    }
                    assert forall|n: Seq<char>|
                        pre.contains_name(n) && n != username@ implies #[trigger] self.hash_of(n)
                        == pre.hash_of(n) && self.id_of(n) == pre.id_of(n) by {
                        let i = pre.idx_of(n);
                        assert(self.users@[i].username@ == n);
                        assert(self.contains_name(n));
                        let j = self.idx_of(n);
                        assert(0 <= j < self.users@.len() && self.users@[j].username@ == n);
                        assert(j < n0 + 1);
                        if j == n0 {
                            assert(n == username@);
                        }
                        assert(pre.users@[j].username@ == n);
                        assert(j == i);
                    }
                }
                true
            },
        }
    }

    /// The stored credentials for a username.
    pub fn get_user(&self, username: &str) -> (r: Option<&Credentials>)
        requires
            self.wf(),
        ensures
            r matches Some(c) ==> self.contains_name(username@) && c.username@ == username@
                && c.password_hash@ == self.hash_of(username@),
            r is None ==> !self.contains_name(username@),
    {
        match self.find(username) {
            Some(i) => Some(&self.users[i]),
            None => None,
        }
    }

    /// The stored account identifier for a username.
    pub fn get_user_id(&self, username: &str) -> (r: Option<u64>)
        requires
            self.wf(),
        ensures
            r matches Some(id) ==> self.contains_name(username@) && id == self.id_of(username@),
            r is None ==> !self.contains_name(username@),
    {
        match self.find(username) {
            Some(i) => Some(self.ids[i]),
            None => None,
        }
    }
}

} // verus!
