//! The supported services: how to probe each and what to make of a reply.
use vstd::prelude::*;

pub mod query;
pub mod raknet;
pub mod slp;

use self::query::{query_effect, query_probe, MinecraftQueryProtocol, QueryReply, QueryResponse};
use self::raknet::{raknet_effect, raknet_probe, RaknetProtocol, RaknetRecord, RaknetReponse};
use self::slp::MinecraftSlpProtocol;
use crate::cookie::Endpoint;

verus! {

/// What the receive path does with a datagram after a protocol has read it.
pub enum UdpAction {
    /// Ignore it.
    Drop,
    /// Send these bytes back to the datagram's source.
    SendBack(Vec<u8>),
    /// Hand a Query status reply to the caller.
    Query(QueryResponse),
    /// Hand a RakNet server record to the caller.
    Raknet(RaknetReponse),
}

/// The contents of a `UdpAction`.
pub enum UdpEffect {
    Drop,
    SendBack(Seq<u8>),
    Query(QueryReply),
    Raknet(RaknetRecord),
}

impl View for UdpAction {
    type V = UdpEffect;

    open spec fn view(&self) -> UdpEffect {
        match self {
            UdpAction::Drop => UdpEffect::Drop,
            UdpAction::SendBack(b) => UdpEffect::SendBack(b@),
            UdpAction::Query(q) => UdpEffect::Query(q@),
            UdpAction::Raknet(r) => UdpEffect::Raknet(r@),
        }
    }
}

/// A UDP protocol and its configuration.
#[derive(Clone, Copy, Debug, PartialEq, Eq, Structural)]
pub enum UdpProtocol {
    McQuery { fullstat: bool },
    Raknet,
}

/// The probe a UDP protocol sends to a target whose cookie is `cookie`.
pub open spec fn udp_probe(p: UdpProtocol, cookie: u32) -> Seq<u8> {
    match p {
        UdpProtocol::McQuery { .. } => query_probe(cookie),
        UdpProtocol::Raknet => raknet_probe(cookie),
    }
}

/// What a UDP protocol does with a reply from a source whose cookie is
/// `cookie`.
pub open spec fn udp_effect(p: UdpProtocol, b: Seq<u8>, cookie: u32) -> UdpEffect {
    match p {
        UdpProtocol::McQuery { fullstat } => query_effect(b, cookie, fullstat),
        UdpProtocol::Raknet => raknet_effect(b, cookie),
    }
}

impl UdpProtocol {
    pub fn name(&self) -> (r: String)
        ensures
            r@ == match self {
                UdpProtocol::McQuery { .. } => "Query"@,
                UdpProtocol::Raknet => "Raknet"@,
            },
    {
        match self {
            UdpProtocol::McQuery { fullstat } => MinecraftQueryProtocol::new(*fullstat).name(),
            UdpProtocol::Raknet => RaknetProtocol::new().name(),
        }
    }

    pub fn default_port(&self) -> (r: u16)
        ensures
            r == match self {
                UdpProtocol::McQuery { .. } => 25565u16,
                UdpProtocol::Raknet => 19132u16,
            },
    {
        match self {
            UdpProtocol::McQuery { .. } => 25565,
            UdpProtocol::Raknet => 19132,
        }
    }

    pub fn initial_packet(&self, addr: &Endpoint, cookie: u32) -> (r: Vec<u8>)
        ensures
            r@ == udp_probe(*self, cookie),
    {
        match self {
            UdpProtocol::McQuery { fullstat } => MinecraftQueryProtocol::new(
                *fullstat,
            ).initial_packet(addr, cookie),
            UdpProtocol::Raknet => RaknetProtocol::new().initial_packet(addr, cookie),
        }
    }

    pub fn handle_packet(&self, cookie: u32, packet: &[u8]) -> (r: UdpAction)
        ensures
            r@ == udp_effect(*self, packet@, cookie),
    {
        match self {
            UdpProtocol::McQuery { fullstat } => MinecraftQueryProtocol::new(
                *fullstat,
            ).handle_packet(cookie, packet),
            UdpProtocol::Raknet => RaknetProtocol::new().handle_packet(cookie, packet),
        }
    }
}

/// Raised by a TCP protocol's data handler.
#[derive(Clone, Copy, Debug, PartialEq, Eq, Structural)]
pub enum TcpError {
    Incomplete,
}

impl TcpError {
    pub fn message(&self) -> (r: String)
        ensures
            r@ == "The stream wasn't yet complete"@,
    {
        "The stream wasn't yet complete".to_string()
    }
}

/// A TCP protocol.
pub enum TcpProtocol {
    Slp(MinecraftSlpProtocol),
}

impl TcpProtocol {
    /// What the client sends once the handshake completes, if it speaks first.
    pub open spec fn first_data(&self) -> Option<Seq<u8>> {
        match self {
            TcpProtocol::Slp(p) => Some(p.hello()),
        }
    }

    pub fn initial_packet(&self, dest: &Endpoint) -> (r: Option<Vec<u8>>)
        ensures
            match self.first_data() {
                Some(d) => r matches Some(v) && v@ == d,
                None => r is None,
            },
    {
        match self {
            TcpProtocol::Slp(p) => p.initial_packet(dest),
        }
    }

    pub fn name(&self) -> (r: String)
        ensures
            r@ == "SLP"@,
    {
        match self {
            TcpProtocol::Slp(p) => p.name(),
        }
    }

    pub fn default_port(&self) -> (r: u16)
        ensures
            r == 25565,
    {
        match self {
            TcpProtocol::Slp(p) => p.default_port(),
        }
    }
}

/// The protocol a scanner speaks.
pub enum Protocol {
    Udp(UdpProtocol),
    Tcp(TcpProtocol),
}

impl Default for Protocol {
    fn default() -> (r: Protocol)
        ensures
            r matches Protocol::Udp(UdpProtocol::McQuery { fullstat }) && !fullstat,
    {
        Protocol::Udp(UdpProtocol::McQuery { fullstat: false })
    }
}

impl Protocol {
    pub fn default_port(&self) -> (r: u16)
        ensures
            r == match self {
                Protocol::Udp(UdpProtocol::McQuery { .. }) => 25565u16,
                Protocol::Udp(UdpProtocol::Raknet) => 19132u16,
                Protocol::Tcp(_) => 25565u16,
            },
    {
        match self {
            Protocol::Udp(p) => p.default_port(),
            Protocol::Tcp(p) => p.default_port(),
        }
    }

    pub fn name(&self) -> (r: String)
        ensures
            r@ == match self {
                Protocol::Udp(UdpProtocol::McQuery { .. }) => "Query"@,
                Protocol::Udp(UdpProtocol::Raknet) => "Raknet"@,
                Protocol::Tcp(_) => "SLP"@,
            },
    {
        match self {
            Protocol::Udp(p) => p.name(),
            Protocol::Tcp(p) => p.name(),
        }
    }
}

} // verus!
