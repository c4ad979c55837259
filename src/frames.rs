//! IPv4 and Ethernet framing of outbound segments, and the decoding of
//! inbound frames down to the transport layer.
use pnet::packet::ipv4::Ipv4Packet;
use vstd::prelude::*;

use crate::bytes::{be16, be32, from_be16, from_be32, push_be16, push_be32, read_be16, read_be32};

verus! {

pub const IPV4_HEADER_LEN: usize = 20;

pub const ETHERNET_HEADER_LEN: usize = 14;

pub const PROTOCOL_TCP: u8 = 6;

pub const PROTOCOL_UDP: u8 = 17;

/// What pnet's `ipv4::checksum` gives for a 20-byte header.
pub uninterp spec fn ipv4_checksum_of(header: Seq<u8>) -> u16;

/// Relies on pnet's `ipv4::checksum`: the header checksum, its own field
/// left out, over the header length that the packet declares (kept within
/// 20 bytes and the buffer, so a 20-byte buffer is read whole).
#[verifier::external_body]
fn ipv4_header_checksum(header: &[u8]) -> (r: u16)
    requires
        header.len() == IPV4_HEADER_LEN,
    ensures
        r == ipv4_checksum_of(header@),
{
    pnet::packet::ipv4::checksum(&Ipv4Packet::new(header).unwrap())
}

/// An IPv4 header without options: version 4, header length 5, DSCP and ECN
/// 0, identification 1, don't-fragment set, fragment offset 0.
pub open spec fn ipv4_header(
    total_length: u16,
    ttl: u8,
    protocol: u8,
    checksum: u16,
    source: u32,
    destination: u32,
) -> Seq<u8> {
    seq![0x45u8, 0x00u8] + be16(total_length) + be16(1) + seq![0x40u8, 0x00u8, ttl, protocol]
        + be16(checksum) + be32(source) + be32(destination)
}

/// `payload` in an IPv4 packet, its header checksum taken with the checksum
/// field zero.
pub open spec fn ipv4_packet_bytes(
    payload: Seq<u8>,
    source: u32,
    destination: u32,
    ttl: u8,
    protocol: u8,
) -> Seq<u8> {
    let total = (payload.len() + 20) as u16;
    let unsummed = ipv4_header(total, ttl, protocol, 0, source, destination);
    ipv4_header(total, ttl, protocol, ipv4_checksum_of(unsummed), source, destination) + payload
}

fn append(out: &mut Vec<u8>, src: &[u8])
    ensures
        final(out)@ == old(out)@ + src@,
{
    let mut i: usize = 0;
    while i < src.len()
        invariant
            i <= src.len(),
            out@ == old(out)@ + src@.subrange(0, i as int),
        decreases src.len() - i,
    {
        out.push(src[i]);
        i += 1;
        assert(out@ =~= old(out)@ + src@.subrange(0, i as int));
    }
    assert(src@.subrange(0, src@.len() as int) =~= src@);
}

/// Wraps a transport segment in an IPv4 packet sized to it.
pub fn wrap_ipv4(payload: &[u8], source: u32, destination: u32, ttl: u8, protocol: u8) -> (r: Vec<
    u8,
>)
    requires
        payload.len() + IPV4_HEADER_LEN <= 65535,
    ensures
        r@ == ipv4_packet_bytes(payload@, source, destination, ttl, protocol),
{
    let total = (payload.len() + IPV4_HEADER_LEN) as u16;
    let mut buf: Vec<u8> = Vec::new();
    buf.push(0x45);
    buf.push(0x00);
    push_be16(&mut buf, total);
    push_be16(&mut buf, 1);
    buf.push(0x40);
    buf.push(0x00);
    buf.push(ttl);
    buf.push(protocol);
    push_be16(&mut buf, 0);
    push_be32(&mut buf, source);
    push_be32(&mut buf, destination);
    assert(buf@ =~= ipv4_header(total, ttl, protocol, 0, source, destination));
    let checksum = ipv4_header_checksum(buf.as_slice());
    buf.set(10, (checksum >> 8) as u8);
    buf.set(11, checksum as u8);
    assert(buf@ =~= ipv4_header(total, ttl, protocol, checksum, source, destination));
    append(&mut buf, payload);
    buf
}

/// A frame as the link carries it: behind an Ethernet header to the gateway
/// where its address is known, else bare.
pub open spec fn link_frame_bytes(packet: Seq<u8>, gateway: Option<[u8; 6]>, local: [u8; 6]) -> Seq<
    u8,
> {
    match gateway {
        Some(g) => g@ + local@ + seq![0x08u8, 0x00u8] + packet,
        None => packet,
    }
}

/// Frames an IPv4 packet for the link.
pub fn frame_for_link(packet: &[u8], gateway: Option<[u8; 6]>, local: [u8; 6]) -> (r: Vec<u8>)
    ensures
        r@ == link_frame_bytes(packet@, gateway, local),
{
    let mut buf: Vec<u8> = Vec::new();
    if let Some(g) = gateway {
        append(&mut buf, &g);
        append(&mut buf, &local);
        buf.push(0x08);
        buf.push(0x00);
    }
    append(&mut buf, packet);
    assert(buf@ =~= link_frame_bytes(packet@, gateway, local));
    buf
}

// ---------------------------------------------------------------------------
// Inbound
/// An IPv4 packet as the receive path reads it.
pub struct Ipv4View {
    pub source: u32,
    pub destination: u32,
    pub protocol: u8,
    pub payload: Vec<u8>,
}

/// Where an IPv4 packet's payload starts: after the declared header, and at
/// least after the fixed 20 bytes.
pub open spec fn ipv4_payload_start(ip: Seq<u8>) -> int {
    let declared = ((ip[0] % 16) * 4) as int;
    if declared < 20 {
        20
    } else {
        declared
    }
}

/// An IPv4 packet's payload: from its start, as long as the total length
/// declares and the buffer holds.
pub open spec fn ipv4_payload(ip: Seq<u8>) -> Seq<u8> {
    let start = ipv4_payload_start(ip);
    let declared = ((ip[0] % 16) * 4) as int;
    let total = from_be16(ip.subrange(2, 4)) as int;
    let length = if total > declared {
        total - declared
    } else {
        0
    };
    if ip.len() <= start {
        Seq::empty()
    } else if start + length < ip.len() {
        ip.subrange(start, start + length)
    } else {
        ip.subrange(start, ip.len() as int)
    }
}

/// The IPv4 packet in an Ethernet frame addressed to `local`: none where the
/// frame is shorter than its header, is addressed elsewhere, or carries
/// fewer than 20 bytes.
pub open spec fn frame_packet(frame: Seq<u8>, local: Seq<u8>) -> Option<Seq<u8>> {
    if frame.len() < ETHERNET_HEADER_LEN || frame.subrange(0, 6) != local || frame.len()
        < ETHERNET_HEADER_LEN + IPV4_HEADER_LEN {
        None
    } else {
        Some(frame.subrange(ETHERNET_HEADER_LEN as int, frame.len() as int))
    }
}

/// Reads the IPv4 packet of a frame addressed to `local`.
pub fn decode_frame(frame: &[u8], local: &[u8; 6]) -> (r: Option<Ipv4View>)
    ensures
        match frame_packet(frame@, local@) {
            None => r is None,
            Some(ip) => r matches Some(v) && v.source == from_be32(ip.subrange(12, 16))
                && v.destination == from_be32(ip.subrange(16, 20)) && v.protocol == ip[9]
                && v.payload@ == ipv4_payload(ip),
        },
{
    if frame.len() < ETHERNET_HEADER_LEN {
        return None;
    }
    if !crate::bytes::bytes_at(frame, 0, local) {
        assert(frame@.subrange(0, 6) != local@);
        return None;
    }
    if frame.len() < ETHERNET_HEADER_LEN + IPV4_HEADER_LEN {
        return None;
    }
    let ghost ip = frame@.subrange(14, frame@.len() as int);
    let source = read_be32(frame, 26);
    let destination = read_be32(frame, 30);
    assert(ip.subrange(12, 16) =~= frame@.subrange(26, 30));
    assert(ip.subrange(16, 20) =~= frame@.subrange(30, 34));
    let protocol = frame[23];
    let declared: usize = ((frame[14] % 16) as usize) * 4;
    let start: usize = if declared < 20 {
        20
    } else {
        declared
    };
    let total = read_be16(frame, 16) as usize;
    assert(ip.subrange(2, 4) =~= frame@.subrange(16, 18));
    let length: usize = if total > declared {
        total - declared
    } else {
        0
    };
    let ip_len = frame.len() - ETHERNET_HEADER_LEN;
    let mut payload: Vec<u8> = Vec::new();
    if ip_len > start {
        let end: usize = if length < ip_len - start {
            start + length
        } else {
            ip_len
        };
        let mut i: usize = start;
        assert(payload@ =~= ip.subrange(start as int, i as int));
        while i < end
            invariant
                start <= i <= end <= ip_len,
                ip_len == frame.len() - 14,
                frame.len() >= 14,
                ip == frame@.subrange(14, frame@.len() as int),
                payload@ == ip.subrange(start as int, i as int),
            decreases end - i,
        {
            payload.push(frame[14 + i]);
            i += 1;
            assert(payload@ =~= ip.subrange(start as int, i as int));
        }
    }
    Some(Ipv4View { source, destination, protocol, payload })
}

} // verus!
