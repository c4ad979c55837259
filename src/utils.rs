//! UDP framing and the VarInt encoding.
use pnet::packet::udp::UdpPacket;
use pnet::util::core_net::Ipv4Addr;
use vstd::prelude::*;

use crate::bytes::{be16, push_be16};
use crate::cookie::Endpoint;

verus! {

pub const UDP_HEADER_LEN: usize = 8;

/// What pnet's `udp::ipv4_checksum` gives for a datagram between two IPv4
/// addresses.
pub uninterp spec fn udp_checksum_of(datagram: Seq<u8>, source: u32, destination: u32) -> u16;

/// Relies on pnet's `udp::ipv4_checksum`: the UDP checksum over the IPv4
/// pseudo-header and the datagram, its own checksum field left out. It needs
/// the eight header bytes; the length bound keeps its 32-bit sum from
/// overflowing.
#[verifier::external_body]
fn udp_checksum(datagram: &[u8], source: u32, destination: u32) -> (r: u16)
    requires
        UDP_HEADER_LEN <= datagram.len() <= 65535,
    ensures
        r == udp_checksum_of(datagram@, source, destination),
{
    pnet::packet::udp::ipv4_checksum(
        &UdpPacket::new(datagram).unwrap(),
        &Ipv4Addr::from(source),
        &Ipv4Addr::from(destination),
    )
}

/// A UDP header.
pub open spec fn udp_header(source_port: u16, dest_port: u16, length: u16, checksum: u16) -> Seq<
    u8,
> {
    be16(source_port) + be16(dest_port) + be16(length) + be16(checksum)
}

/// The datagram carrying `payload` from `source` to `dest`, its checksum
/// taken with the checksum field zero.
pub open spec fn udp_datagram_bytes(payload: Seq<u8>, source: Endpoint, dest: Endpoint) -> Seq<
    u8,
> {
    let length = (payload.len() + 8) as u16;
    let unsummed = udp_header(source.port, dest.port, length, 0) + payload;
    udp_header(
        source.port,
        dest.port,
        length,
        udp_checksum_of(unsummed, source.ip, dest.ip),
    ) + payload
}

/// Wraps `packet` in a UDP header from `source` to `dest`.
pub fn wrap_udp(packet: Vec<u8>, source: &Endpoint, dest: &Endpoint) -> (r: Vec<u8>)
    requires
        packet.len() + UDP_HEADER_LEN <= 65535,
    ensures
        r@ == udp_datagram_bytes(packet@, *source, *dest),
{
    let length = (packet.len() + UDP_HEADER_LEN) as u16;
    let mut buf: Vec<u8> = Vec::new();
    push_be16(&mut buf, source.port);
    push_be16(&mut buf, dest.port);
    push_be16(&mut buf, length);
    push_be16(&mut buf, 0);
    let mut i: usize = 0;
    while i < packet.len()
        invariant
            i <= packet.len(),
            buf@ == udp_header(source.port, dest.port, length, 0) + packet@.subrange(0, i as int),
        decreases packet.len() - i,
    {
        buf.push(packet[i]);
        i += 1;
        assert(buf@ =~= udp_header(source.port, dest.port, length, 0) + packet@.subrange(
            0,
            i as int,
        ));
    }
    assert(packet@.subrange(0, packet@.len() as int) =~= packet@);
    let checksum = udp_checksum(buf.as_slice(), source.ip, dest.ip);
    buf.set(6, (checksum >> 8) as u8);
    buf.set(7, checksum as u8);
    assert(buf@ =~= udp_datagram_bytes(packet@, *source, *dest));
    buf
}

/// The VarInt encoding: seven bits per byte, least significant first, the
/// high bit set on every byte but the last; zero is one zero byte.
pub open spec fn varint(v: u32) -> Seq<u8>
    decreases v,
{
    if v < 128 {
        seq![v as u8]
    } else {
        seq![(v % 128 + 128) as u8] + varint(v / 128)
    }
}

/// The 32 bits of `value` in two's complement.
pub open spec fn twos_complement(value: i32) -> u32 {
    if value >= 0 {
        value as u32
    } else {
        (value + 0x1_0000_0000) as u32
    }
}

/// Appends the VarInt of `value`, read as its 32 bits.
pub fn write_varint(writer: &mut Vec<u8>, value: i32)
    ensures
        final(writer)@ == old(writer)@ + varint(twos_complement(value)),
{
    let mut v: u32 = if value >= 0 {
        value as u32
    } else {
        ((value as i64) + 0x1_0000_0000i64) as u32
    };
    let ghost start = writer@;
    while v >= 128
        invariant
            writer@ + varint(v) == start + varint(twos_complement(value)),
        decreases v,
    {
        let ghost before = writer@;
        writer.push((v % 128 + 128) as u8);
        assert(before + varint(v) =~= writer@ + varint(v / 128));
        v = v / 128;
    }
    writer.push(v as u8);
    assert(final(writer)@ =~= start + varint(twos_complement(value)));
}

} // verus!
