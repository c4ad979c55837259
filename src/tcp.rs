//! TCP: header flags, reading inbound segments, and header templates.
use vstd::prelude::*;

use crate::bytes::{from_be16, from_be32, read_be16, read_be32};

pub mod template;

verus! {

pub const FLAG_FIN: u8 = 0b0000_0001;

pub const FLAG_SYN: u8 = 0b0000_0010;

pub const FLAG_RST: u8 = 0b0000_0100;

pub const FLAG_PSH: u8 = 0b0000_1000;

pub const FLAG_ACK: u8 = 0b0001_0000;

pub const TCP_HEADER_LEN: usize = 20;

/// An inbound TCP segment as the engine reads it.
pub struct TcpView {
    pub source_port: u16,
    pub dest_port: u16,
    pub sequence: u32,
    pub acknowledgement: u32,
    pub flags: u8,
    pub payload: Vec<u8>,
}

/// Where a segment's payload starts: after the options its data offset
/// declares beyond the fixed 20 bytes.
pub open spec fn tcp_payload_start(seg: Seq<u8>) -> int {
    let offset = (seg[12] / 16) as int;
    if offset > 5 {
        offset * 4
    } else {
        20
    }
}

/// A segment's payload: everything after its options.
pub open spec fn tcp_payload(seg: Seq<u8>) -> Seq<u8> {
    let start = tcp_payload_start(seg);
    if seg.len() <= start {
        Seq::empty()
    } else {
        seg.subrange(start, seg.len() as int)
    }
}

/// Reads a segment of at least 20 bytes.
pub fn decode_tcp(seg: &[u8]) -> (r: Option<TcpView>)
    ensures
        seg@.len() < 20 ==> r is None,
        seg@.len() >= 20 ==> (r matches Some(v) && v.source_port == from_be16(
            seg@.subrange(0, 2),
        ) && v.dest_port == from_be16(seg@.subrange(2, 4)) && v.sequence == from_be32(
            seg@.subrange(4, 8),
        ) && v.acknowledgement == from_be32(seg@.subrange(8, 12)) && v.flags == seg@[13]
            && v.payload@ == tcp_payload(seg@)),
{
    if seg.len() < TCP_HEADER_LEN {
        return None;
    }
    let offset: usize = (seg[12] / 16) as usize;
    let start: usize = if offset > 5 {
        offset * 4
    } else {
        20
    };
    let mut payload: Vec<u8> = Vec::new();
    if seg.len() > start {
        let mut i: usize = start;
        assert(payload@ =~= seg@.subrange(start as int, i as int));
        while i < seg.len()
            invariant
                start <= i <= seg.len(),
                payload@ == seg@.subrange(start as int, i as int),
            decreases seg.len() - i,
        {
            payload.push(seg[i]);
            i += 1;
            assert(payload@ =~= seg@.subrange(start as int, i as int));
        }
    } else {
        assert(payload@ =~= tcp_payload(seg@));
    }
    Some(
        TcpView {
            source_port: read_be16(seg, 0),
            dest_port: read_be16(seg, 2),
            sequence: read_be32(seg, 4),
            acknowledgement: read_be32(seg, 8),
            flags: seg[13],
            payload,
        },
    )
}

} // verus!
