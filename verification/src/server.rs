//! The accept-loop configuration.

use vstd::prelude::*;

verus! {

/// The default host the server binds.
pub const HOST: &'static str = "127.0.0.1";

/// The default port the server binds.
pub const PORT: u16 = 42428;

/// How many connections may be in the middle of being accepted at once.
pub const CONNECTION_LIMIT: usize = 8;

/// The server's configuration: the fixed address it listens on. The
/// listening socket and the per-connection tasks live with the caller
/// that runs the accept loop.
pub struct Server {
    host: &'static str,
    port: u16,
}

impl Server {
    /// The host to bind.
    pub closed spec fn spec_host(self) -> Seq<char> {
        self.host@
    }

    /// The port to bind.
    pub closed spec fn spec_port(self) -> u16 {
        self.port
    }

    /// A server configured for this address.
    pub fn new(host: &'static str, port: u16) -> (r: Server)
        ensures
            r.spec_host() == host@,
            r.spec_port() == port,
    {
        Server { host, port }
    }

    /// The host to bind.
    pub fn host(&self) -> (r: &'static str)
        ensures
            r@ == self.spec_host(),
    {
        self.host
    }

    /// The port to bind.
    pub fn port(&self) -> (r: u16)
        ensures
            r == self.spec_port(),
    {
        self.port
    }
}

} // verus!
