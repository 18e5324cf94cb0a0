//! A registered identity and its binding to a live session.

use vstd::prelude::*;

verus! {

/// A registered identity: a username, unique within the registry, and the
/// session currently bound to it, if any. A user with no bound session is
/// offline and eligible for login.
#[derive(Debug)]
pub struct User {
    username: Vec<u8>,
    session_id: Option<u128>,
}

impl User {
    /// The username bytes.
    pub closed spec fn name(self) -> Seq<u8> {
        self.username@
    }

    /// The bound session identifier, if any.
    pub closed spec fn sid(self) -> Option<u128> {
        self.session_id
    }

    /// A fresh user with no bound session.
    pub fn new(username: Vec<u8>) -> (r: User)
        ensures
            r.name() == username@,
            r.sid() is None,
    {
        User { username, session_id: None }
    }

    /// The username bytes.
    pub fn username(&self) -> (r: &Vec<u8>)
        ensures
            r@ == self.name(),
    {
        &self.username
    }

    /// The bound session identifier, if any.
    pub fn session(&self) -> (r: Option<u128>)
        ensures
            r == self.sid(),
    {
        self.session_id
    }

    /// Bind this user to a session, evicting any prior binding.
    pub fn set_session(&mut self, session_id: u128)
        ensures
            final(self).name() == old(self).name(),
            final(self).sid() == Some(session_id),
    {
        self.session_id = Some(session_id);
    }

    /// Clear the bound session, leaving the user offline.
    pub fn clear_session(&mut self)
        ensures
            final(self).name() == old(self).name(),
            final(self).sid() is None,
    {
        self.session_id = None;
    }
}

} // verus!
