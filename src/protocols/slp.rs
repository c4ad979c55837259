//! Minecraft Server List Ping (TCP): the client speaks first with a
//! handshake and a status request.
use vstd::prelude::*;

use crate::bytes::{be16, push_be16};
use crate::cookie::Endpoint;
use crate::utils::{twos_complement, varint, write_varint};

verus! {

/// The handshake (id 0: protocol version, host name, port, next state 1)
/// and the empty status request (id 0), each behind its VarInt length.
pub open spec fn hello_bytes(hostname: Seq<u8>, port: u16, protocol: i32) -> Seq<u8> {
    let handshake = seq![0x00u8] + varint(twos_complement(protocol)) + varint(hostname.len() as u32)
        + hostname + be16(port) + varint(1);
    varint(handshake.len() as u32) + handshake + varint(1) + seq![0x00u8]
}

pub proof fn lemma_varint_len(v: u32)
    ensures
        1 <= varint(v).len() <= 5,
{
    let v1 = v / 128;
    let v2 = v1 / 128;
    let v3 = v2 / 128;
    let v4 = v3 / 128;
    assert(v4 < 128);
    assert(varint(v4).len() == 1);
    assert(varint(v3).len() <= 2);
    assert(varint(v2).len() <= 3);
    assert(varint(v1).len() <= 4);
    assert(varint(v).len() <= 5);
}

fn append(out: &mut Vec<u8>, src: &[u8])
    ensures
        final(out)@ == old(out)@ + src@,
{
    let mut i: usize = 0;
    while i < src.len()
        invariant
            i <= src.len(),
            out@ == old(out)@ + src@.subrange(0, i as int),
        decreases src.len() - i,
    {
        out.push(src[i]);
        i += 1;
        assert(out@ =~= old(out)@ + src@.subrange(0, i as int));
    }
    assert(src@.subrange(0, src@.len() as int) =~= src@);
}

fn generate_hello_packet(hostname: &[u8], port: u16, protocol: i32) -> (r: Vec<u8>)
    requires
        hostname.len() + 14 <= i32::MAX,
    ensures
        r@ == hello_bytes(hostname@, port, protocol),
{
    let mut handshake: Vec<u8> = vec![0x00];
    write_varint(&mut handshake, protocol);
    write_varint(&mut handshake, hostname.len() as i32);
    append(&mut handshake, hostname);
    push_be16(&mut handshake, port);
    write_varint(&mut handshake, 1);
    proof {
        lemma_varint_len(twos_complement(protocol));
        lemma_varint_len(hostname.len() as u32);
        lemma_varint_len(1);
    }
    assert(handshake@ =~= seq![0x00u8] + varint(twos_complement(protocol)) + varint(
        hostname@.len() as u32,
    )
        + hostname@ + be16(port) + varint(1));
    let status_request: Vec<u8> = vec![0x00];
    let mut full_packet: Vec<u8> = Vec::new();
    write_varint(&mut full_packet, handshake.len() as i32);
    append(&mut full_packet, handshake.as_slice());
    write_varint(&mut full_packet, status_request.len() as i32);
    append(&mut full_packet, status_request.as_slice());
    assert(full_packet@ =~= hello_bytes(hostname@, port, protocol));
    full_packet
}

/// The status ping, announcing host "test", port 3, protocol version 47.
pub struct MinecraftSlpProtocol {
    hello_packet: Vec<u8>,
}

impl MinecraftSlpProtocol {
    /// What the client sends first.
    pub closed spec fn hello(&self) -> Seq<u8> {
        self.hello_packet@
    }

    pub fn new() -> (r: Self)
        ensures
            r.hello() == hello_bytes(seq![0x74u8, 0x65u8, 0x73u8, 0x74u8], 3, 47),
    {
        let hostname: [u8; 4] = [0x74, 0x65, 0x73, 0x74];
        assert(hostname@ =~= seq![0x74u8, 0x65u8, 0x73u8, 0x74u8]);
        MinecraftSlpProtocol { hello_packet: generate_hello_packet(&hostname, 3, 47) }
    }

    pub fn initial_packet(&self, _dest: &Endpoint) -> (r: Option<Vec<u8>>)
        ensures
            r matches Some(v) && v@ == self.hello(),
    {
        let mut out: Vec<u8> = Vec::new();
        append(&mut out, self.hello_packet.as_slice());
        Some(out)
    }

    pub fn name(&self) -> (r: String)
        ensures
            r@ == "SLP"@,
    {
        "SLP".to_string()
    }

    pub fn default_port(&self) -> (r: u16)
        ensures
            r == 25565,
    {
        25565
    }
}

} // verus!
