//! The scan's configuration as values, and what it selects.
use vstd::prelude::*;

use crate::protocols::slp::{hello_bytes, MinecraftSlpProtocol};
use crate::tcp::template::TcpOpt;
use crate::protocols::{TcpProtocol, UdpProtocol};

verus! {

#[derive(Clone, Copy, Debug, PartialEq, Eq, Structural)]
pub struct ScanConfig {
    /// The cookie seed.
    pub seed: i64,
    /// Seconds to wait for replies after the last probe.
    pub wait_delay: u64,
}

impl Default for ScanConfig {
    fn default() -> (r: Self)
        ensures
            r.seed == 0 && r.wait_delay == 0,
    {
        ScanConfig { seed: 0, wait_delay: 0 }
    }
}

/// The protocol named in the configuration.
#[derive(Clone, Copy, Debug, PartialEq, Eq, Structural)]
pub enum Protocol {
    Query { fullstat: bool },
    Raknet,
    SLP,
}

impl Default for Protocol {
    fn default() -> (r: Self)
        ensures
            r == (Protocol::Query { fullstat: false }),
    {
        Protocol::Query { fullstat: false }
    }
}

impl Protocol {
    /// The protocol a scanner speaks for this choice.
    pub fn select(&self) -> (r: crate::protocols::Protocol)
        ensures
            match self {
                Protocol::Query { fullstat } => r matches crate::protocols::Protocol::Udp(
                    UdpProtocol::McQuery { fullstat: f },
                ) && f == fullstat,
                Protocol::Raknet => r matches crate::protocols::Protocol::Udp(UdpProtocol::Raknet),
                Protocol::SLP => r matches crate::protocols::Protocol::Tcp(TcpProtocol::Slp(p))
                    && p.hello() == hello_bytes(seq![0x74u8, 0x65u8, 0x73u8, 0x74u8], 3, 47),
            },
    {
        match self {
            Protocol::Raknet => crate::protocols::Protocol::Udp(UdpProtocol::Raknet),
            Protocol::Query { fullstat } => crate::protocols::Protocol::Udp(
                UdpProtocol::McQuery { fullstat: *fullstat },
            ),
            Protocol::SLP => crate::protocols::Protocol::Tcp(
                TcpProtocol::Slp(MinecraftSlpProtocol::new()),
            ),
        }
    }
}

/// The fingerprint named in the configuration.
#[derive(Clone, Copy, Debug, PartialEq, Eq, Structural)]
pub enum Fingerprint {
    Nintendo3DS,
}

impl Default for Fingerprint {
    fn default() -> (r: Self)
        ensures
            r == Fingerprint::Nintendo3DS,
    {
        Fingerprint::Nintendo3DS
    }
}

impl Fingerprint {
    /// The profile's name as the configuration writes it.
    pub fn name(&self) -> (r: String)
        ensures
            r@ == "Nintendo 3DS"@,
    {
        match self {
            Fingerprint::Nintendo3DS => "Nintendo 3DS".to_string(),
        }
    }

    /// The transmit fingerprint of this profile.
    pub fn select(&self) -> (r: crate::fingerprint::Fingerprint)
        ensures
            r.wf(),
            r.ittl == 64,
            r.mss == 1360,
            r.window == 32768,
            r.options@ == seq![
                TcpOpt::Mss(1360),
                TcpOpt::Nop,
                TcpOpt::Nop,
                TcpOpt::SackPermitted,
            ],
    {
        match self {
            Fingerprint::Nintendo3DS => crate::fingerprint::Fingerprint::nintendo_3ds(),
        }
    }
}

pub struct Config {
    /// The interface to scan from; the default route's where absent.
    pub interface: Option<String>,
    pub scan: ScanConfig,
    pub protocol: Protocol,
    pub fingerprint: Fingerprint,
}

impl Default for Config {
    fn default() -> (r: Self)
        ensures
            r.interface is None,
            r.scan == (ScanConfig { seed: 0, wait_delay: 0 }),
            r.protocol == (Protocol::Query { fullstat: false }),
            r.fingerprint == Fingerprint::Nintendo3DS,
    {
        Config {
            interface: None,
            scan: ScanConfig { seed: 0, wait_delay: 0 },
            protocol: Protocol::Query { fullstat: false },
            fingerprint: Fingerprint::Nintendo3DS,
        }
    }
}

} // verus!
