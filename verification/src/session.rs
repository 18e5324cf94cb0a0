//! Per-connection session state.

use vstd::prelude::*;

verus! {

/// Relies on uuid's `Uuid::new_v4`, converted to its 128-bit value: a
/// freshly drawn random identifier, of which nothing is promised.
#[verifier::external_body]
fn fresh_id() -> u128 {
    uuid::Uuid::new_v4().as_u128()
}

/// Server-side state of one accepted connection: a process-unique random
/// identifier, the username bound to it (set at most once), and whether
/// the session has been closed. Closing is one-way; a closed session is
/// never reopened. The connection's byte stream itself stays with the
/// caller that accepted it.
#[derive(Debug)]
pub struct Session {
    id: u128,
    closed: bool,
    user: Option<Vec<u8>>,
}

impl Session {
    /// The session identifier.
    pub closed spec fn spec_id(self) -> u128 {
        self.id
    }

    /// The bound username, if any.
    pub closed spec fn spec_user(self) -> Option<Seq<u8>> {
        match self.user {
            Some(u) => Some(u@),
            None => None,
        }
    }

    /// Whether the session has been closed.
    pub closed spec fn spec_closed(self) -> bool {
        self.closed
    }

    /// A fresh session: open, with no bound user, under a random
    /// identifier.
    pub fn new() -> (r: Session)
        ensures
            r.spec_user() is None,
            !r.spec_closed(),
    {
        Session { id: fresh_id(), closed: false, user: None }
    }

    /// The session identifier.
    pub fn id(&self) -> (r: u128)
        ensures
            r == self.spec_id(),
    {
        self.id
    }

    /// The bound username, if any.
    pub fn user(&self) -> (r: Option<&Vec<u8>>)
        ensures
            match r {
                Some(u) => self.spec_user() == Some(u@),
                None => self.spec_user() is None,
            },
    {
        self.user.as_ref()
    }

    /// Bind a username. A session that already has one keeps its first
    /// binding: the call is a no-op, not an error.
    pub fn set_user(&mut self, user: Vec<u8>)
        ensures
            final(self).spec_id() == old(self).spec_id(),
            final(self).spec_closed() == old(self).spec_closed(),
            final(self).spec_user() == (if old(self).spec_user() is Some {
                old(self).spec_user()
            } else {
                Some(user@)
            }),
    {
        if self.user.is_some() {
            return ;
        }
        self.user = Some(user);
    }

    /// Unbind the username, if any.
    pub fn remove_user(&mut self)
        ensures
            final(self).spec_id() == old(self).spec_id(),
            final(self).spec_closed() == old(self).spec_closed(),
            final(self).spec_user() is None,
    {
        self.user = None;
    }

    /// Whether the session has been closed.
    pub fn closed(&self) -> (r: bool)
        ensures
            r == self.spec_closed(),
    {
        self.closed
    }

    /// Close the session. Idempotent; the transition is one-way.
    pub fn close(&mut self)
        ensures
            final(self).spec_id() == old(self).spec_id(),
            final(self).spec_user() == old(self).spec_user(),
            final(self).spec_closed(),
    {
        self.closed = true;
    }
}

} // verus!
