//! The process-wide registry: usernames to users and session identifiers
//! to live sessions, with unique keys on both sides.

use crate::session::Session;
use crate::user::User;
use vstd::prelude::*;
use vstd::map::*;

verus! {

broadcast use vstd::seq_lib::group_seq_lib_default, vstd::seq::group_seq_axioms;

/// What the registry sees of one session: its bound username, if any, and
/// whether it has been closed.
#[verifier::ext_equal]
pub struct SessionView {
    pub user: Option<Seq<u8>>,
    pub closed: bool,
}

/// The registry's view of one session value.
pub open spec fn session_view(s: Session) -> SessionView {
    SessionView { user: s.spec_user(), closed: s.spec_closed() }
}

/// No two users of the sequence share a username.
pub open spec fn users_unique(users: Seq<User>) -> bool {
    forall|i: int, j: int|
        0 <= i < j < users.len() ==> (#[trigger] users[i]).name() != (#[trigger] users[j]).name()
}

/// Some user of the sequence carries this username.
pub open spec fn has_user_in(users: Seq<User>, name: Seq<u8>) -> bool {
    exists|i: int| 0 <= i < users.len() && (#[trigger] users[i]).name() == name
}

/// The position of the user carrying this username.
pub open spec fn user_index_in(users: Seq<User>, name: Seq<u8>) -> int {
    choose|i: int| 0 <= i < users.len() && (#[trigger] users[i]).name() == name
}

/// The user sequence as a map from username to bound session.
pub open spec fn users_map_of(users: Seq<User>) -> Map<Seq<u8>, Option<u128>> {
    Map::new(
        |name: Seq<u8>| has_user_in(users, name),
        |name: Seq<u8>| users[user_index_in(users, name)].sid(),
    )
}

/// No two sessions of the sequence share an identifier.
pub open spec fn sessions_unique(sessions: Seq<Session>) -> bool {
    forall|i: int, j: int|
        0 <= i < j < sessions.len() ==> (#[trigger] sessions[i]).spec_id() != (
        #[trigger] sessions[j]).spec_id()
}

/// Some session of the sequence carries this identifier.
pub open spec fn has_session_in(sessions: Seq<Session>, sid: u128) -> bool {
    exists|i: int| 0 <= i < sessions.len() && (#[trigger] sessions[i]).spec_id() == sid
}

/// The position of the session carrying this identifier.
pub open spec fn session_index_in(sessions: Seq<Session>, sid: u128) -> int {
    choose|i: int| 0 <= i < sessions.len() && (#[trigger] sessions[i]).spec_id() == sid
}

/// The session sequence as a map from identifier to session view.
pub open spec fn sessions_map_of(sessions: Seq<Session>) -> Map<u128, SessionView> {
    Map::new(
        |sid: u128| has_session_in(sessions, sid),
        |sid: u128| session_view(sessions[session_index_in(sessions, sid)]),
    )
}

/// A user found at an index is the one its username maps to.
proof fn lemma_user_index(users: Seq<User>, i: int)
    requires
        users_unique(users),
        0 <= i < users.len(),
    ensures
        has_user_in(users, users[i].name()),
        user_index_in(users, users[i].name()) == i,
{
    assert(0 <= i < users.len() && users[i].name() == users[i].name());
    let j = user_index_in(users, users[i].name());
    assert(0 <= j < users.len() && users[j].name() == users[i].name());
    if j != i {
        assert(false);
    }
}

/// A session found at an index is the one its identifier maps to.
proof fn lemma_session_index(sessions: Seq<Session>, i: int)
    requires
        sessions_unique(sessions),
        0 <= i < sessions.len(),
    ensures
        has_session_in(sessions, sessions[i].spec_id()),
        session_index_in(sessions, sessions[i].spec_id()) == i,
{
    assert(0 <= i < sessions.len() && sessions[i].spec_id() == sessions[i].spec_id());
    let j = session_index_in(sessions, sessions[i].spec_id());
    assert(0 <= j < sessions.len() && sessions[j].spec_id() == sessions[i].spec_id());
    if j != i {
        assert(false);
    }
}

/// Replacing a user by one with the same username updates that one entry
/// of the user map.
proof fn lemma_users_update(users: Seq<User>, i: int, u: User)
    requires
        users_unique(users),
        0 <= i < users.len(),
        users[i].name() == u.name(),
    ensures
        users_unique(users.update(i, u)),
        users_map_of(users.update(i, u)) == users_map_of(users).insert(u.name(), u.sid()),
{
    let post = users.update(i, u);
    assert(forall|j: int| 0 <= j < users.len() ==> (#[trigger] post[j]).name() == users[j].name());
    assert(users_unique(post));
    assert_maps_equal!(users_map_of(post), users_map_of(users).insert(u.name(), u.sid()), k => {
        if has_user_in(users, k) {
            let j = user_index_in(users, k);
            assert(0 <= j < users.len() && users[j].name() == k);
            lemma_user_index(users, j);
            lemma_user_index(post, j);
            if k == u.name() {
                lemma_user_index(users, i);
            }
        } else {
            if k == u.name() {
                lemma_user_index(users, i);
                assert(false);
            }
            if has_user_in(post, k) {
                let j = user_index_in(post, k);
                assert(0 <= j < post.len() && post[j].name() == k);
                assert(users[j].name() == k);
                assert(false);
            }
        }
    });
}

/// Appending a user with a fresh username adds one entry to the user map.
proof fn lemma_users_push(users: Seq<User>, u: User)
    requires
        users_unique(users),
        !has_user_in(users, u.name()),
    ensures
        users_unique(users.push(u)),
        users_map_of(users.push(u)) == users_map_of(users).insert(u.name(), u.sid()),
{
    let post = users.push(u);
    assert forall|j: int| 0 <= j < users.len() implies (#[trigger] users[j]).name() != u.name() by {
        if users[j].name() == u.name() {
            assert(has_user_in(users, u.name()));
        }
    }
    assert(users_unique(post));
    assert_maps_equal!(users_map_of(post), users_map_of(users).insert(u.name(), u.sid()), k => {
        if has_user_in(users, k) {
            let j = user_index_in(users, k);
            assert(0 <= j < users.len() && users[j].name() == k);
            lemma_user_index(users, j);
            lemma_user_index(post, j);
        } else {
            if k == u.name() {
                lemma_user_index(post, users.len() as int);
            } else {
                if has_user_in(post, k) {
                    let j = user_index_in(post, k);
                    assert(0 <= j < post.len() && post[j].name() == k);
                    assert(j < users.len() ==> users[j].name() == k);
                    assert(false);
                }
            }
        }
    });
}

/// Removing a user removes exactly its username's entry from the user
/// map.
proof fn lemma_users_remove(users: Seq<User>, i: int)
    requires
        users_unique(users),
        0 <= i < users.len(),
    ensures
        users_unique(users.remove(i)),
        users_map_of(users.remove(i)) == users_map_of(users).remove(users[i].name()),
{
    let post = users.remove(i);
    assert(forall|j: int| 0 <= j < i ==> (#[trigger] post[j]).name() == users[j].name());
    assert(forall|j: int| i <= j < post.len() ==> (#[trigger] post[j]).name() == users[j
        + 1].name());
    assert forall|a: int, b: int| 0 <= a < b < post.len() implies (#[trigger] post[a]).name() != (
    #[trigger] post[b]).name() by {
        let a0 = if a < i { a } else { a + 1 };
        let b0 = if b < i { b } else { b + 1 };
        assert(post[a] == users[a0] && post[b] == users[b0]);
    }
    assert_maps_equal!(users_map_of(post), users_map_of(users).remove(users[i].name()), k => {
        if k == users[i].name() {
            if has_user_in(post, k) {
                let j = user_index_in(post, k);
                assert(0 <= j < post.len() && post[j].name() == k);
                let j0 = if j < i { j } else { j + 1 };
                assert(users[j0].name() == k);
                assert(j0 != i);
                assert(false);
            }
        } else {
            if has_user_in(users, k) {
                let j = user_index_in(users, k);
                assert(0 <= j < users.len() && users[j].name() == k);
                assert(j != i);
                let j1 = if j < i { j } else { j - 1 };
                assert(post[j1] == users[j]);
                lemma_user_index(users, j);
                lemma_user_index(post, j1);
            } else {
                if has_user_in(post, k) {
                    let j = user_index_in(post, k);
                    assert(0 <= j < post.len() && post[j].name() == k);
                    let j0 = if j < i { j } else { j + 1 };
                    assert(users[j0].name() == k);
                    assert(false);
                }
            }
        }
    });
}

/// Replacing a session by one with the same identifier updates that one
/// entry of the session map.
proof fn lemma_sessions_update(sessions: Seq<Session>, i: int, s: Session)
    requires
        sessions_unique(sessions),
        0 <= i < sessions.len(),
        sessions[i].spec_id() == s.spec_id(),
    ensures
        sessions_unique(sessions.update(i, s)),
        sessions_map_of(sessions.update(i, s)) == sessions_map_of(sessions).insert(
            s.spec_id(),
            session_view(s),
        ),
{
    let post = sessions.update(i, s);
    assert(forall|j: int| 0 <= j < sessions.len() ==> (#[trigger] post[j]).spec_id()
        == sessions[j].spec_id());
    assert(sessions_unique(post));
    assert_maps_equal!(sessions_map_of(post),
        sessions_map_of(sessions).insert(s.spec_id(), session_view(s)), k: u128 => {
        if has_session_in(sessions, k) {
            let j = session_index_in(sessions, k);
            assert(0 <= j < sessions.len() && sessions[j].spec_id() == k);
            lemma_session_index(sessions, j);
            lemma_session_index(post, j);
            if k == s.spec_id() {
                lemma_session_index(sessions, i);
            }
        } else {
            if k == s.spec_id() {
                lemma_session_index(sessions, i);
                assert(false);
            }
            if has_session_in(post, k) {
                let j = session_index_in(post, k);
                assert(0 <= j < post.len() && post[j].spec_id() == k);
                assert(sessions[j].spec_id() == k);
                assert(false);
            }
        }
    });
}

/// Appending a session with a fresh identifier adds one entry to the
/// session map.
proof fn lemma_sessions_push(sessions: Seq<Session>, s: Session)
    requires
        sessions_unique(sessions),
        !has_session_in(sessions, s.spec_id()),
    ensures
        sessions_unique(sessions.push(s)),
        sessions_map_of(sessions.push(s)) == sessions_map_of(sessions).insert(
            s.spec_id(),
            session_view(s),
        ),
{
    let post = sessions.push(s);
    assert forall|j: int| 0 <= j < sessions.len() implies (#[trigger] sessions[j]).spec_id()
        != s.spec_id() by {
        if sessions[j].spec_id() == s.spec_id() {
            assert(has_session_in(sessions, s.spec_id()));
        }
    }
    assert(sessions_unique(post));
    assert_maps_equal!(sessions_map_of(post),
        sessions_map_of(sessions).insert(s.spec_id(), session_view(s)), k: u128 => {
        if has_session_in(sessions, k) {
            let j = session_index_in(sessions, k);
            assert(0 <= j < sessions.len() && sessions[j].spec_id() == k);
            lemma_session_index(sessions, j);
            lemma_session_index(post, j);
        } else {
            if k == s.spec_id() {
                lemma_session_index(post, sessions.len() as int);
            } else {
                if has_session_in(post, k) {
                    let j = session_index_in(post, k);
                    assert(0 <= j < post.len() && post[j].spec_id() == k);
                    assert(j < sessions.len() ==> sessions[j].spec_id() == k);
                    assert(false);
                }
            }
        }
    });
}

/// Removing a session removes exactly its identifier's entry from the
/// session map.
proof fn lemma_sessions_remove(sessions: Seq<Session>, i: int)
    requires
        sessions_unique(sessions),
        0 <= i < sessions.len(),
    ensures
        sessions_unique(sessions.remove(i)),
        sessions_map_of(sessions.remove(i)) == sessions_map_of(sessions).remove(
            sessions[i].spec_id(),
        ),
{
    let post = sessions.remove(i);
    assert(forall|j: int| 0 <= j < i ==> (#[trigger] post[j]).spec_id()
        == sessions[j].spec_id());
    assert(forall|j: int| i <= j < post.len() ==> (#[trigger] post[j]).spec_id() == sessions[j
        + 1].spec_id());
    assert forall|a: int, b: int| 0 <= a < b < post.len() implies (#[trigger] post[a]).spec_id()
        != (#[trigger] post[b]).spec_id() by {
        let a0 = if a < i { a } else { a + 1 };
        let b0 = if b < i { b } else { b + 1 };
        assert(post[a] == sessions[a0] && post[b] == sessions[b0]);
    }
    assert_maps_equal!(sessions_map_of(post),
        sessions_map_of(sessions).remove(sessions[i].spec_id()), k: u128 => {
        if k == sessions[i].spec_id() {
            if has_session_in(post, k) {
                let j = session_index_in(post, k);
                assert(0 <= j < post.len() && post[j].spec_id() == k);
                let j0 = if j < i { j } else { j + 1 };
                assert(sessions[j0].spec_id() == k);
                assert(j0 != i);
                assert(false);
            }
        } else {
            if has_session_in(sessions, k) {
                let j = session_index_in(sessions, k);
                assert(0 <= j < sessions.len() && sessions[j].spec_id() == k);
                assert(j != i);
                let j1 = if j < i { j } else { j - 1 };
                assert(post[j1] == sessions[j]);
                lemma_session_index(sessions, j);
                lemma_session_index(post, j1);
            } else {
                if has_session_in(post, k) {
                    let j = session_index_in(post, k);
                    assert(0 <= j < post.len() && post[j].spec_id() == k);
                    let j0 = if j < i { j } else { j + 1 };
                    assert(sessions[j0].spec_id() == k);
                    assert(false);
                }
            }
        }
    });
}

/// Compare two byte vectors.
fn bytes_eq(a: &Vec<u8>, b: &Vec<u8>) -> (r: bool)
    ensures
        r == (a@ == b@),
{
    let r = a == b;
    proof {
        if r {
            assert(a@ =~= b@);
        } else {
            if a@ == b@ {
                assert(forall|i: int| 0 <= i < a@.len() ==> a@[i] == b@[i]);
                assert(false);
            }
        }
    }
    r
}

/// The process-wide shared state: registered users keyed by username and
/// live sessions keyed by session identifier.
#[derive(Debug)]
pub struct AppData {
    users: Vec<User>,
    sessions: Vec<Session>,
}

impl AppData {
    /// Usernames are unique and session identifiers are unique.
    pub closed spec fn wf(self) -> bool {
        &&& users_unique(self.users@)
        &&& sessions_unique(self.sessions@)
    }

    /// The registry's user state: each registered username mapped to the
    /// session it is bound to, if any.
    pub closed spec fn users_map(self) -> Map<Seq<u8>, Option<u128>> {
        users_map_of(self.users@)
    }

    /// The registry's session state: each live session identifier mapped
    /// to that session's view.
    pub closed spec fn sessions_map(self) -> Map<u128, SessionView> {
        sessions_map_of(self.sessions@)
    }

    /// An empty registry.
    pub fn new() -> (r: AppData)
        ensures
            r.wf(),
            r.users_map() == Map::<Seq<u8>, Option<u128>>::empty(),
            r.sessions_map() == Map::<u128, SessionView>::empty(),
    {
        let r = AppData { users: Vec::new(), sessions: Vec::new() };
        proof {
            assert(r.users_map() =~= Map::<Seq<u8>, Option<u128>>::empty());
            assert(r.sessions_map() =~= Map::<u128, SessionView>::empty());
        }
        r
    }

    /// Look a user up by username.
    pub fn get_user(&self, username: &Vec<u8>) -> (r: Option<&User>)
        requires
            self.wf(),
        ensures
            match r {
                Some(u) => {
                    &&& self.users_map().contains_key(username@)
                    &&& u.name() == username@
                    &&& u.sid() == self.users_map()[username@]
                },
                None => !self.users_map().contains_key(username@),
            },
    {
        let mut i: usize = 0;
        while i < self.users.len()
            invariant
                self.wf(),
                i <= self.users@.len(),
                forall|j: int| 0 <= j < i ==> (#[trigger] self.users@[j]).name() != username@,
            decreases self.users@.len() - i,
        {
            if bytes_eq(self.users[i].username(), username) {
                proof {
                    lemma_user_index(self.users@, i as int);
                }
                return Some(&self.users[i]);
            }
            i = i + 1;
        }
        proof {
            assert(!has_user_in(self.users@, username@));
        }
        None
    }

    /// Whether a username is registered.
    pub fn user_exists(&self, username: &Vec<u8>) -> (r: bool)
        requires
            self.wf(),
        ensures
            r == self.users_map().contains_key(username@),
    {
        self.get_user(username).is_some()
    }

    /// The session a username is bound to, if the user exists and is
    /// bound.
    pub fn get_user_session(&self, username: &Vec<u8>) -> (r: Option<u128>)
        requires
            self.wf(),
        ensures
            r == (if self.users_map().contains_key(username@) {
                self.users_map()[username@]
            } else {
                None
            }),
    {
        match self.get_user(username) {
            Some(user) => user.session(),
            None => None,
        }
    }

    /// Look a session up by identifier.
    pub fn get_session(&self, session_id: u128) -> (r: Option<&Session>)
        requires
            self.wf(),
        ensures
            match r {
                Some(s) => {
                    &&& self.sessions_map().contains_key(session_id)
                    &&& s.spec_id() == session_id
                    &&& session_view(*s) == self.sessions_map()[session_id]
                },
                None => !self.sessions_map().contains_key(session_id),
            },
    {
        let mut i: usize = 0;
        while i < self.sessions.len()
            invariant
                self.wf(),
                i <= self.sessions@.len(),
                forall|j: int| 0 <= j < i ==> (#[trigger] self.sessions@[j]).spec_id()
                    != session_id,
            decreases self.sessions@.len() - i,
        {
            if self.sessions[i].id() == session_id {
                proof {
                    lemma_session_index(self.sessions@, i as int);
                }
                return Some(&self.sessions[i]);
            }
            i = i + 1;
        }
        proof {
            assert(!has_session_in(self.sessions@, session_id));
        }
        None
    }

    /// The position of the user with this username, or the sequence
    /// length if there is none.
    fn find_user(&self, username: &Vec<u8>) -> (r: usize)
        requires
            self.wf(),
        ensures
            r <= self.users@.len(),
            r < self.users@.len() ==> self.users@[r as int].name() == username@ && has_user_in(
                self.users@,
                username@,
            ) && user_index_in(self.users@, username@) == r,
            r == self.users@.len() ==> !has_user_in(self.users@, username@),
    {
        let mut i: usize = 0;
        while i < self.users.len()
            invariant
                self.wf(),
                i <= self.users@.len(),
                forall|j: int| 0 <= j < i ==> (#[trigger] self.users@[j]).name() != username@,
            decreases self.users@.len() - i,
        {
            if bytes_eq(self.users[i].username(), username) {
                proof {
                    lemma_user_index(self.users@, i as int);
                }
                return i;
            }
            i = i + 1;
        }
        proof {
            assert(!has_user_in(self.users@, username@));
        }
        i
    }

    /// The position of the session with this identifier, or the sequence
    /// length if there is none.
    fn find_session(&self, session_id: u128) -> (r: usize)
        requires
            self.wf(),
        ensures
            r <= self.sessions@.len(),
            r < self.sessions@.len() ==> self.sessions@[r as int].spec_id() == session_id
                && has_session_in(self.sessions@, session_id) && session_index_in(
                self.sessions@,
                session_id,
            ) == r,
            r == self.sessions@.len() ==> !has_session_in(self.sessions@, session_id),
    {
        let mut i: usize = 0;
        while i < self.sessions.len()
            invariant
                self.wf(),
                i <= self.sessions@.len(),
                forall|j: int| 0 <= j < i ==> (#[trigger] self.sessions@[j]).spec_id()
                    != session_id,
            decreases self.sessions@.len() - i,
        {
            if self.sessions[i].id() == session_id {
                proof {
                    lemma_session_index(self.sessions@, i as int);
                }
                return i;
            }
            i = i + 1;
        }
        proof {
            assert(!has_session_in(self.sessions@, session_id));
        }
        i
    }

    /// Insert a user under its username; an existing entry under the same
    /// username is replaced and returned.
    pub fn insert_user(&mut self, username: Vec<u8>, user: User) -> (prev: Option<User>)
        requires
            old(self).wf(),
            user.name() == username@,
        ensures
            final(self).wf(),
            final(self).users_map() == old(self).users_map().insert(username@, user.sid()),
            final(self).sessions_map() == old(self).sessions_map(),
            match prev {
                Some(p) => {
                    &&& old(self).users_map().contains_key(username@)
                    &&& p.name() == username@
                    &&& p.sid() == old(self).users_map()[username@]
                },
                None => !old(self).users_map().contains_key(username@),
            },
    {
        let idx = self.find_user(&username);
        if idx < self.users.len() {
            let prev = self.users.remove(idx);
            self.users.insert(idx, user);
            proof {
                assert(self.users@ =~= old(self).users@.update(idx as int, user));
                lemma_users_update(old(self).users@, idx as int, user);
            }
            Some(prev)
        } else {
            self.users.push(user);
            proof {
                lemma_users_push(old(self).users@, user);
            }
            None
        }
    }

    /// Remove the user registered under this username, if any.
    pub fn remove_user(&mut self, username: &Vec<u8>) -> (prev: Option<User>)
        requires
            old(self).wf(),
        ensures
            final(self).wf(),
            final(self).sessions_map() == old(self).sessions_map(),
            final(self).users_map() == (if old(self).users_map().contains_key(username@) {
                old(self).users_map().remove(username@)
            } else {
                old(self).users_map()
            }),
            match prev {
                Some(p) => {
                    &&& old(self).users_map().contains_key(username@)
                    &&& p.name() == username@
                    &&& p.sid() == old(self).users_map()[username@]
                },
                None => !old(self).users_map().contains_key(username@),
            },
    {
        let idx = self.find_user(username);
        if idx < self.users.len() {
            proof {
                lemma_users_remove(self.users@, idx as int);
            }
            let prev = self.users.remove(idx);
            Some(prev)
        } else {
            None
        }
    }

    /// Bind the user registered under this username to a session,
    /// evicting any prior binding; without such a user, a no-op.
    pub fn set_user_session(&mut self, username: &Vec<u8>, session_id: u128)
        requires
            old(self).wf(),
        ensures
            final(self).wf(),
            final(self).sessions_map() == old(self).sessions_map(),
            final(self).users_map() == (if old(self).users_map().contains_key(username@) {
                old(self).users_map().insert(username@, Some(session_id))
            } else {
                old(self).users_map()
            }),
    {
        let idx = self.find_user(username);
        if idx < self.users.len() {
            let ghost pre = self.users@;
            let user = &mut self.users[idx];
            user.set_session(session_id);
            proof {
                lemma_users_update(pre, idx as int, self.users@[idx as int]);
                assert(self.users@ == pre.update(idx as int, self.users@[idx as int]));
            }
        }
    }

    /// Clear the session binding of the user registered under this
    /// username, leaving the user offline; without such a user, a no-op.
    pub fn clear_user_session(&mut self, username: &Vec<u8>)
        requires
            old(self).wf(),
        ensures
            final(self).wf(),
            final(self).sessions_map() == old(self).sessions_map(),
            final(self).users_map() == (if old(self).users_map().contains_key(username@) {
                old(self).users_map().insert(username@, None)
            } else {
                old(self).users_map()
            }),
    {
        let idx = self.find_user(username);
        if idx < self.users.len() {
            let ghost pre = self.users@;
            let user = &mut self.users[idx];
            user.clear_session();
            proof {
                lemma_users_update(pre, idx as int, self.users@[idx as int]);
                assert(self.users@ == pre.update(idx as int, self.users@[idx as int]));
            }
        }
    }

    /// Insert a session under its identifier; an existing entry under the
    /// same identifier is replaced and returned.
    pub fn insert_session(&mut self, session_id: u128, session: Session) -> (prev: Option<Session>)
        requires
            old(self).wf(),
            session.spec_id() == session_id,
        ensures
            final(self).wf(),
            final(self).users_map() == old(self).users_map(),
            final(self).sessions_map() == old(self).sessions_map().insert(
                session_id,
                session_view(session),
            ),
            match prev {
                Some(p) => {
                    &&& old(self).sessions_map().contains_key(session_id)
                    &&& p.spec_id() == session_id
                    &&& session_view(p) == old(self).sessions_map()[session_id]
                },
                None => !old(self).sessions_map().contains_key(session_id),
            },
    {
        let idx = self.find_session(session_id);
        if idx < self.sessions.len() {
            let prev = self.sessions.remove(idx);
            self.sessions.insert(idx, session);
            proof {
                assert(self.sessions@ =~= old(self).sessions@.update(idx as int, session));
                lemma_sessions_update(old(self).sessions@, idx as int, session);
            }
            Some(prev)
        } else {
            self.sessions.push(session);
            proof {
                lemma_sessions_push(old(self).sessions@, session);
            }
            None
        }
    }

    /// Remove the session held under this identifier, if any.
    pub fn remove_session(&mut self, session_id: u128) -> (prev: Option<Session>)
        requires
            old(self).wf(),
        ensures
            final(self).wf(),
            final(self).users_map() == old(self).users_map(),
            final(self).sessions_map() == (if old(self).sessions_map().contains_key(session_id) {
                old(self).sessions_map().remove(session_id)
            } else {
                old(self).sessions_map()
            }),
            match prev {
                Some(p) => {
                    &&& old(self).sessions_map().contains_key(session_id)
                    &&& p.spec_id() == session_id
                    &&& session_view(p) == old(self).sessions_map()[session_id]
                },
                None => !old(self).sessions_map().contains_key(session_id),
            },
    {
        let idx = self.find_session(session_id);
        if idx < self.sessions.len() {
            proof {
                lemma_sessions_remove(self.sessions@, idx as int);
            }
            let prev = self.sessions.remove(idx);
            Some(prev)
        } else {
            None
        }
    }

    /// Bind a username to the session held under this identifier. A
    /// session that already has a user keeps its first binding; without
    /// such a session, a no-op.
    pub fn set_session_user(&mut self, session_id: u128, username: Vec<u8>)
        requires
            old(self).wf(),
        ensures
            final(self).wf(),
            final(self).users_map() == old(self).users_map(),
            final(self).sessions_map() == (if old(self).sessions_map().contains_key(session_id) {
                if old(self).sessions_map()[session_id].user is Some {
                    old(self).sessions_map()
                } else {
                    old(self).sessions_map().insert(
                        session_id,
                        SessionView {
                            user: Some(username@),
                            closed: old(self).sessions_map()[session_id].closed,
                        },
                    )
                }
            } else {
                old(self).sessions_map()
            }),
    {
        let idx = self.find_session(session_id);
        if idx < self.sessions.len() {
            let ghost pre = self.sessions@;
            let session = &mut self.sessions[idx];
            session.set_user(username);
            proof {
                lemma_sessions_update(pre, idx as int, self.sessions@[idx as int]);
                assert(self.sessions@ == pre.update(idx as int, self.sessions@[idx as int]));
                if session_view(pre[idx as int]).user is Some {
                    assert(sessions_map_of(pre).insert(
                        session_id,
                        session_view(self.sessions@[idx as int]),
                    ) =~= sessions_map_of(pre));
                } else {
                    assert(session_view(self.sessions@[idx as int]) =~= (SessionView {
                        user: Some(username@),
                        closed: sessions_map_of(pre)[session_id].closed,
                    }));
                }
            }
        }
    }
}

} // verus!
