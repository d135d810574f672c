//! Where the server listens and who its peer is, as far as text decides it.

use vstd::prelude::*;
use vstd::string::*;

verus! {

/// What an address argument names.
#[derive(Clone, Copy, Debug, PartialEq, Eq, Structural)]
pub enum AddressKind {
    /// The path of a local socket.
    Path,
    /// An IP address, with or without a port.
    Network,
}

/// Whether an address argument looks like a path: it starts with `/`, `./`
/// or `../`.
pub open spec fn is_path(address: Seq<u8>) -> bool {
    ||| address.len() >= 1 && address[0] == 0x2f
    ||| address.len() >= 2 && address[0] == 0x2e && address[1] == 0x2f
    ||| address.len() >= 3 && address[0] == 0x2e && address[1] == 0x2e && address[2] == 0x2f
}

/// Tells a socket path from a network address.
pub fn address_kind(address: &[u8]) -> (kind: AddressKind)
    ensures
        kind == (if is_path(address@) {
            AddressKind::Path
        } else {
            AddressKind::Network
        }),
{
    let n = address.len();
    if n >= 1 && address[0] == 0x2f {
        AddressKind::Path
    } else if n >= 2 && address[0] == 0x2e && address[1] == 0x2f {
        AddressKind::Path
    } else if n >= 3 && address[0] == 0x2e && address[1] == 0x2e && address[2] == 0x2f {
        AddressKind::Path
    } else {
        AddressKind::Network
    }
}

/// The peer of a connection.
#[derive(Clone, Debug)]
pub enum Peer {
    /// A TCP peer, with its address and port as text.
    Tcp(String),
    /// A peer on a local socket.
    Unix,
    /// The process's own standard streams.
    Inetd,
}

impl Peer {
    /// The text that names this peer.
    pub open spec fn display_text(self) -> Seq<char> {
        match self {
            Peer::Tcp(address) => address@,
            Peer::Unix => "unix"@,
            Peer::Inetd => "inetd"@,
        }
    }

    /// The text that names this peer: the address of a TCP peer, `unix` or
    /// `inetd`.
    pub fn peer_display(&self) -> (text: String)
        ensures
            text@ == self.display_text(),
    {
        match self {
            Peer::Tcp(address) => address.clone(),
            Peer::Unix => String::from_str("unix"),
            Peer::Inetd => String::from_str("inetd"),
        }
    }
}

} // verus!
