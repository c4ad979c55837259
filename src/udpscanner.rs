//! The UDP engine: probes, datagram framing for the send worker, and the
//! receive worker's handling of one frame.
use vstd::prelude::*;

use crate::bytes::{be16, from_be16, from_be32, lemma_be16_round_trip, read_be16};
use crate::cookie::{cookie, spec_cookie, Endpoint};
use crate::frames::{
    decode_frame, frame_packet, ipv4_checksum_of, ipv4_header, ipv4_packet_bytes, ipv4_payload,
    wrap_ipv4, PROTOCOL_UDP,
};
use crate::protocols::{udp_effect, udp_probe, UdpAction, UdpEffect, UdpProtocol};
use crate::utils::{udp_checksum_of, udp_datagram_bytes, udp_header, wrap_udp};

verus! {

/// The source port of every probe and reply.
pub const SOURCE_PORT: u16 = 61000;

/// Largest payload that fits an IPv4 packet behind a UDP header.
pub const MAX_UDP_PAYLOAD: usize = 65507;

/// The probe for `target`: the protocol's first packet, under the target's
/// cookie for a scan with `seed` that started at `start_ms`.
pub fn scan_probe(protocol: &UdpProtocol, target: &Endpoint, seed: i64, start_ms: i64) -> (r: Vec<
    u8,
>)
    ensures
        r@ == udp_probe(*protocol, spec_cookie(*target, seed, start_ms)),
{
    let c = cookie(target, seed, start_ms);
    protocol.initial_packet(target, c)
}

/// The IPv4 packet that carries `payload` in a UDP datagram from port 61000
/// of `source_ip` to `dest`.
pub open spec fn datagram_bytes(payload: Seq<u8>, source_ip: u32, dest: Endpoint, ttl: u8) -> Seq<
    u8,
> {
    ipv4_packet_bytes(
        udp_datagram_bytes(payload, Endpoint { ip: source_ip, port: SOURCE_PORT }, dest),
        source_ip,
        dest.ip,
        ttl,
        PROTOCOL_UDP,
    )
}

/// Frames a queued payload for the link: UDP from port 61000, then IPv4
/// with the fingerprint's TTL.
pub fn udp_datagram(payload: Vec<u8>, source_ip: u32, dest: &Endpoint, ttl: u8) -> (r: Vec<u8>)
    requires
        payload.len() <= MAX_UDP_PAYLOAD,
    ensures
        r@ == datagram_bytes(payload@, source_ip, *dest, ttl),
{
    let source = Endpoint { ip: source_ip, port: SOURCE_PORT };
    let segment = wrap_udp(payload, &source, dest);
    wrap_ipv4(segment.as_slice(), source_ip, dest.ip, ttl, PROTOCOL_UDP)
}

/// What the receive worker makes of a frame: the datagram's source and what
/// its protocol does with it, or nothing where the frame is not an IPv4 UDP
/// datagram addressed to `local_mac`.
pub open spec fn udp_frame_effect(
    protocol: UdpProtocol,
    frame: Seq<u8>,
    local_mac: Seq<u8>,
    seed: i64,
    start_ms: i64,
) -> Option<(Endpoint, UdpEffect)> {
    match frame_packet(frame, local_mac) {
        None => None,
        Some(ip) => {
            let seg = ipv4_payload(ip);
            if ip[9] != PROTOCOL_UDP || seg.len() < 8 {
                None
            } else {
                let source = Endpoint {
                    ip: from_be32(ip.subrange(12, 16)),
                    port: from_be16(seg.subrange(0, 2)),
                };
                Some(
                    (
                        source,
                        udp_effect(
                            protocol,
                            seg.subrange(8, seg.len() as int),
                            spec_cookie(source, seed, start_ms),
                        ),
                    ),
                )
            }
        },
    }
}

/// Handles one received frame.
pub fn on_frame(
    protocol: &UdpProtocol,
    frame: &[u8],
    local_mac: &[u8; 6],
    seed: i64,
    start_ms: i64,
) -> (r: Option<(Endpoint, UdpAction)>)
    ensures
        match udp_frame_effect(*protocol, frame@, local_mac@, seed, start_ms) {
            None => r is None,
            Some((source, effect)) => r matches Some((s, a)) && s == source && a@ == effect,
        },
{
    let ip = match decode_frame(frame, local_mac) {
        Some(v) => v,
        None => return None,
    };
    if ip.protocol != PROTOCOL_UDP || ip.payload.len() < 8 {
        return None;
    }
    let source = Endpoint { ip: ip.source, port: read_be16(ip.payload.as_slice(), 0) };
    let c = cookie(&source, seed, start_ms);
    let mut data: Vec<u8> = Vec::new();
    let mut i: usize = 8;
    while i < ip.payload.len()
        invariant
            8 <= i <= ip.payload@.len(),
            data@ == ip.payload@.subrange(8, i as int),
        decreases ip.payload@.len() - i,
    {
        data.push(ip.payload[i]);
        i += 1;
        assert(data@ =~= ip.payload@.subrange(8, i as int));
    }
    Some((source, protocol.handle_packet(c, data.as_slice())))
}

/// A frame addressed to another station is ignored, whatever it carries.
pub proof fn lemma_foreign_frame_ignored(
    protocol: UdpProtocol,
    frame: Seq<u8>,
    local_mac: Seq<u8>,
    seed: i64,
    start_ms: i64,
)
    requires
        frame.len() >= 6,
        frame.subrange(0, 6) != local_mac,
    ensures
        udp_frame_effect(protocol, frame, local_mac, seed, start_ms) is None,
{
}

/// Every outbound datagram: an IPv4 header of five words with
/// identification 1, don't-fragment set, the given TTL and protocol UDP, its
/// checksum taken over the header with the checksum field zero; then UDP from
/// port 61000 to the target's port, its checksum likewise; then the payload.
pub proof fn lemma_datagram_fields(payload: Seq<u8>, source_ip: u32, dest: Endpoint, ttl: u8)
    requires
        payload.len() <= MAX_UDP_PAYLOAD,
    ensures
        ({
            let d = datagram_bytes(payload, source_ip, dest, ttl);
            &&& d.len() == payload.len() + 28
            &&& d[0] == 0x45
            &&& from_be16(d.subrange(4, 6)) == 1
            &&& d[6] == 0x40 && d[7] == 0
            &&& d[8] == ttl
            &&& d[9] == PROTOCOL_UDP
            &&& from_be16(d.subrange(10, 12)) == ipv4_checksum_of(
                d.subrange(0, 20).update(10, 0).update(11, 0),
            )
            &&& from_be16(d.subrange(20, 22)) == SOURCE_PORT
            &&& from_be16(d.subrange(22, 24)) == dest.port
            &&& from_be16(d.subrange(26, 28)) == udp_checksum_of(
                d.subrange(20, d.len() as int).update(6, 0).update(7, 0),
                source_ip,
                dest.ip,
            )
            &&& d.subrange(28, d.len() as int) == payload
        }),
{
    let source = Endpoint { ip: source_ip, port: SOURCE_PORT };
    let length = (payload.len() + 8) as u16;
    let u_unsummed = udp_header(source.port, dest.port, length, 0) + payload;
    let uc = udp_checksum_of(u_unsummed, source_ip, dest.ip);
    let seg = udp_datagram_bytes(payload, source, dest);
    assert(seg == udp_header(source.port, dest.port, length, uc) + payload);
    let total = (seg.len() + 20) as u16;
    let h0 = ipv4_header(total, ttl, PROTOCOL_UDP, 0, source_ip, dest.ip);
    let ic = ipv4_checksum_of(h0);
    let h = ipv4_header(total, ttl, PROTOCOL_UDP, ic, source_ip, dest.ip);
    let d = datagram_bytes(payload, source_ip, dest, ttl);
    assert(d == h + seg);
    assert(be16(0) =~= seq![0u8, 0u8]) by {
        assert((0u16 >> 8) as u8 == 0u8) by (bit_vector);
    }
    assert(d.subrange(0, 20) =~= h);
    assert(h.update(10, 0).update(11, 0) =~= h0);
    assert(d.subrange(10, 12) =~= be16(ic));
    lemma_be16_round_trip(ic);
    assert(d.subrange(4, 6) =~= be16(1));
    lemma_be16_round_trip(1);
    assert(d.subrange(20, d.len() as int) =~= seg);
    assert(seg.update(6, 0).update(7, 0) =~= u_unsummed);
    assert(d.subrange(20, 22) =~= be16(SOURCE_PORT));
    lemma_be16_round_trip(SOURCE_PORT);
    assert(d.subrange(22, 24) =~= be16(dest.port));
    lemma_be16_round_trip(dest.port);
    assert(d.subrange(26, 28) =~= be16(uc));
    lemma_be16_round_trip(uc);
    assert(d.subrange(28, d.len() as int) =~= payload);
}

} // verus!
