//! The server builder: bind settings gathered before listening starts.
//!
//! The listening itself — sockets, TLS, the accept loop — lives outside
//! the library; it reads the settings built here and hands each parsed
//! request to the chain.

use vstd::prelude::*;

verus! {

/// A server that is not listening yet: its bind settings.
pub struct Ready {
    pub ipv4: bool,
    pub interface: String,
    pub port: u16,
    pub root: String,
}

impl Default for Ready {
    /// Any address, port 8080, the current directory as root.
    fn default() -> (r: Ready)
        ensures
            r.ipv4 == false,
            r.interface@ == "::"@,
            r.port == 8080,
            r.root@ == "."@,
    {
        Ready {
            ipv4: false,
            interface: String::from_str("::"),
            port: 8080,
            root: String::from_str("."),
        }
    }
}

/// A server that is listening: its settings, kept to return to `Ready`.
pub struct Listening {
    pub ready_state: Ready,
}

/// The states a server moves through.
pub trait ServerState {

}

impl ServerState for Ready {

}

impl ServerState for Listening {

}

/// A server in one of its states.
pub struct Server<S: ServerState> {
    pub inner: S,
}

impl Server<Ready> {
    /// A fresh server with the default bind settings.
    pub fn new() -> (r: Server<Ready>)
        ensures
            r.inner.ipv4 == false,
            r.inner.interface@ == "::"@,
            r.inner.port == 8080,
            r.inner.root@ == "."@,
    {
        Server { inner: Ready::default() }
    }

    /// Restricts binding to IPv4 addresses.
    pub fn set_ipv4(&mut self, ipv4: bool)
        ensures
            final(self).inner.ipv4 == ipv4,
            final(self).inner.interface == old(self).inner.interface,
            final(self).inner.port == old(self).inner.port,
            final(self).inner.root == old(self).inner.root,
    {
        self.inner.ipv4 = ipv4;
    }

    /// Sets the interface to bind.
    pub fn with_interface(&mut self, interface: &str)
        ensures
            final(self).inner.interface@ == interface@,
            final(self).inner.ipv4 == old(self).inner.ipv4,
            final(self).inner.port == old(self).inner.port,
            final(self).inner.root == old(self).inner.root,
    {
        self.inner.interface = interface.to_owned();
    }

    /// Sets the TCP port to bind.
    pub fn with_port(&mut self, port: u16)
        ensures
            final(self).inner.port == port,
            final(self).inner.ipv4 == old(self).inner.ipv4,
            final(self).inner.interface == old(self).inner.interface,
            final(self).inner.root == old(self).inner.root,
    {
        self.inner.port = port;
    }

    /// Sets the directory to serve.
    pub fn with_root(&mut self, root: &str)
        ensures
            final(self).inner.root@ == root@,
            final(self).inner.ipv4 == old(self).inner.ipv4,
            final(self).inner.interface == old(self).inner.interface,
            final(self).inner.port == old(self).inner.port,
    {
        self.inner.root = root.to_owned();
    }
}

impl Server<Listening> {
    /// Stops listening: the server returns to its ready state with the
    /// settings it was started with.
    pub fn disconnect(self) -> (r: Server<Ready>)
        ensures
            r.inner == self.inner.ready_state,
    {
        let Server { inner } = self;
        let Listening { ready_state } = inner;
        Server { inner: ready_state }
    }
}

} // verus!
