//! Pre-rendered TCP headers: fixed flags, window and options, filled in per
//! segment with ports, sequence numbers, payload and checksum.
use pnet::packet::tcp::TcpPacket;
use pnet::util::core_net::Ipv4Addr;
use vstd::prelude::*;

use crate::bytes::{be16, be32, from_be16, lemma_be16_round_trip, push_be16, push_be32};
use crate::cookie::Endpoint;

verus! {

/// A TCP option.
#[derive(Clone, Copy, Debug, PartialEq, Eq, Structural)]
pub enum TcpOpt {
    Nop,
    Mss(u16),
    WindowScale(u8),
    SackPermitted,
    Timestamps(u32, u32),
}

/// An option's bytes: kind, then length and data for all kinds but NOP.
pub open spec fn option_bytes(o: TcpOpt) -> Seq<u8> {
    match o {
        TcpOpt::Nop => seq![1u8],
        TcpOpt::Mss(v) => seq![2u8, 4u8] + be16(v),
        TcpOpt::WindowScale(s) => seq![3u8, 3u8, s],
        TcpOpt::SackPermitted => seq![4u8, 2u8],
        TcpOpt::Timestamps(mine, theirs) => seq![8u8, 10u8] + be32(mine) + be32(theirs),
    }
}

/// The options' bytes one after the other.
pub open spec fn options_bytes(os: Seq<TcpOpt>) -> Seq<u8>
    decreases os.len(),
{
    if os.len() == 0 {
        Seq::empty()
    } else {
        options_bytes(os.drop_last()) + option_bytes(os.last())
    }
}

/// A header template: zero ports and sequence numbers, the data offset
/// `5 + ceil(options / 4)` words, the flags, the window, zero checksum and
/// urgent pointer, then the options padded with zeros to a word.
pub open spec fn template_bytes(flags: u8, window: u16, options: Seq<TcpOpt>) -> Seq<u8> {
    let ob = options_bytes(options);
    let words = (ob.len() + 3) / 4;
    Seq::new(12, |i: int| 0u8) + seq![((5 + words) * 16) as u8, flags] + be16(window) + Seq::new(
        4,
        |i: int| 0u8,
    ) + ob + Seq::new((words * 4 - ob.len()) as nat, |i: int| 0u8)
}

/// What pnet's `tcp::ipv4_checksum` gives for a segment between two IPv4
/// addresses.
pub uninterp spec fn tcp_checksum_of(segment: Seq<u8>, source: u32, destination: u32) -> u16;

/// Relies on pnet's `tcp::ipv4_checksum`: the TCP checksum over the IPv4
/// pseudo-header and the segment, its own checksum field left out. It needs
/// the 20 header bytes; the length bound keeps its 32-bit sum from
/// overflowing.
#[verifier::external_body]
fn tcp_checksum(segment: &[u8], source: u32, destination: u32) -> (r: u16)
    requires
        20 <= segment.len() <= 65535,
    ensures
        r == tcp_checksum_of(segment@, source, destination),
{
    pnet::packet::tcp::ipv4_checksum(
        &TcpPacket::new(segment).unwrap(),
        &Ipv4Addr::from(source),
        &Ipv4Addr::from(destination),
    )
}

/// The segment a template renders: ports, sequence and acknowledgement
/// filled in, the payload appended, and the checksum taken over the result
/// with the checksum field zero.
pub open spec fn tcp_segment_bytes(
    template: Seq<u8>,
    source: Endpoint,
    dest: Endpoint,
    sequence: u32,
    acknowledgement: u32,
    payload: Seq<u8>,
) -> Seq<u8> {
    let unsummed = be16(source.port) + be16(dest.port) + be32(sequence) + be32(acknowledgement)
        + template.subrange(12, template.len() as int) + payload;
    let checksum = tcp_checksum_of(unsummed, source.ip, dest.ip);
    unsummed.update(16, (checksum >> 8) as u8).update(17, checksum as u8)
}

#[derive(Debug)]
pub struct TcpTemplate {
    tcp_len: usize,
    packet: Vec<u8>,
}

fn push_option(out: &mut Vec<u8>, o: TcpOpt)
    ensures
        final(out)@ == old(out)@ + option_bytes(o),
{
    match o {
        TcpOpt::Nop => {
            out.push(1);
        },
        TcpOpt::Mss(v) => {
            out.push(2);
            out.push(4);
            push_be16(out, v);
        },
        TcpOpt::WindowScale(s) => {
            out.push(3);
            out.push(3);
            out.push(s);
        },
        TcpOpt::SackPermitted => {
            out.push(4);
            out.push(2);
        },
        TcpOpt::Timestamps(mine, theirs) => {
            out.push(8);
            out.push(10);
            push_be32(out, mine);
            push_be32(out, theirs);
        },
    }
    assert(final(out)@ =~= old(out)@ + option_bytes(o));
}

impl TcpTemplate {
    /// The header bytes.
    pub closed spec fn bytes(&self) -> Seq<u8> {
        self.packet@
    }

    /// The length is that of the bytes, a header of 20 to 60 bytes, with the
    /// checksum field zero.
    pub closed spec fn wf(&self) -> bool {
        &&& self.tcp_len == self.packet@.len()
        &&& 20 <= self.tcp_len <= 60
        &&& self.packet@[16] == 0
        &&& self.packet@[17] == 0
    }

    /// A template with `flags`, `window` and `options`.
    pub fn new(flags: u8, window: u16, options: &[TcpOpt]) -> (r: TcpTemplate)
        requires
            options_bytes(options@).len() <= 40,
        ensures
            r.wf(),
            r.bytes() == template_bytes(flags, window, options@),
            20 <= r.bytes().len() <= 60,
    {
        let mut ob: Vec<u8> = Vec::new();
        let mut i: usize = 0;
        while i < options.len()
            invariant
                i <= options.len(),
                ob@ == options_bytes(options@.subrange(0, i as int)),
            decreases options.len() - i,
        {
            let ghost pre = options@.subrange(0, i as int);
            push_option(&mut ob, options[i]);
            i += 1;
            assert(options@.subrange(0, i as int).drop_last() =~= pre);
        }
        assert(options@.subrange(0, options@.len() as int) =~= options@);
        let words: usize = (ob.len() + 3) / 4;
        let tcp_len: usize = 20 + words * 4;
        let mut packet: Vec<u8> = Vec::new();
        let mut j: usize = 0;
        while j < 12
            invariant
                j <= 12,
                packet@ == Seq::new(j as nat, |i: int| 0u8),
            decreases 12 - j,
        {
            packet.push(0);
            j += 1;
            assert(packet@ =~= Seq::new(j as nat, |i: int| 0u8));
        }
        packet.push(((5 + words) * 16) as u8);
        packet.push(flags);
        push_be16(&mut packet, window);
        packet.push(0);
        packet.push(0);
        packet.push(0);
        packet.push(0);
        let ghost head = packet@;
        let mut k: usize = 0;
        while k < ob.len()
            invariant
                k <= ob.len(),
                packet@ == head + ob@.subrange(0, k as int),
            decreases ob.len() - k,
        {
            packet.push(ob[k]);
            k += 1;
            assert(packet@ =~= head + ob@.subrange(0, k as int));
        }
        assert(ob@.subrange(0, ob@.len() as int) =~= ob@);
        let ghost with_options = packet@;
        let pad: usize = words * 4 - ob.len();
        let mut m: usize = 0;
        while m < pad
            invariant
                m <= pad,
                packet@ == with_options + Seq::new(m as nat, |i: int| 0u8),
            decreases pad - m,
        {
            packet.push(0);
            m += 1;
            assert(packet@ =~= with_options + Seq::new(m as nat, |i: int| 0u8));
        }
        let r = TcpTemplate { tcp_len, packet };
        assert(r.packet@ =~= template_bytes(flags, window, options@));
        r
    }

    /// The segment from `source` to `dest` with this template's flags,
    /// window and options.
    pub fn create(
        &self,
        source: &Endpoint,
        dest: &Endpoint,
        sequence: u32,
        acknowledgement: u32,
        payload: &[u8],
    ) -> (r: Vec<u8>)
        requires
            self.wf(),
            self.bytes().len() + payload.len() <= 65535,
        ensures
            r@ == tcp_segment_bytes(self.bytes(), *source, *dest, sequence, acknowledgement, payload@),
    {
        let mut buf: Vec<u8> = Vec::new();
        push_be16(&mut buf, source.port);
        push_be16(&mut buf, dest.port);
        push_be32(&mut buf, sequence);
        push_be32(&mut buf, acknowledgement);
        let ghost head = buf@;
        let mut i: usize = 12;
        while i < self.tcp_len
            invariant
                12 <= i <= self.tcp_len,
                self.wf(),
                buf@ == head + self.packet@.subrange(12, i as int),
            decreases self.tcp_len - i,
        {
            buf.push(self.packet[i]);
            i += 1;
            assert(buf@ =~= head + self.packet@.subrange(12, i as int));
        }
        let ghost header = buf@;
        let mut j: usize = 0;
        while j < payload.len()
            invariant
                j <= payload.len(),
                buf@ == header + payload@.subrange(0, j as int),
            decreases payload.len() - j,
        {
            buf.push(payload[j]);
            j += 1;
            assert(buf@ =~= header + payload@.subrange(0, j as int));
        }
        assert(payload@.subrange(0, payload@.len() as int) =~= payload@);
        let ghost unsummed = buf@;
        let checksum = tcp_checksum(buf.as_slice(), source.ip, dest.ip);
        buf.set(16, (checksum >> 8) as u8);
        buf.set(17, checksum as u8);
        assert(unsummed =~= be16(source.port) + be16(dest.port) + be32(sequence) + be32(
            acknowledgement,
        ) + self.bytes().subrange(12, self.bytes().len() as int) + payload@);
        buf
    }

    /// A copy of this template.
    pub fn duplicate(&self) -> (r: TcpTemplate)
        requires
            self.wf(),
        ensures
            r.wf(),
            r.bytes() == self.bytes(),
            20 <= r.bytes().len() <= 60,
    {
        let mut packet: Vec<u8> = Vec::new();
        let mut i: usize = 0;
        while i < self.packet.len()
            invariant
                i <= self.packet@.len(),
                packet@ == self.packet@.subrange(0, i as int),
            decreases self.packet@.len() - i,
        {
            packet.push(self.packet[i]);
            i += 1;
            assert(packet@ =~= self.packet@.subrange(0, i as int));
        }
        assert(packet@ =~= self.packet@);
        TcpTemplate { tcp_len: self.tcp_len, packet }
    }
}

/// The layout of a template.
pub proof fn lemma_template_layout(flags: u8, window: u16, options: Seq<TcpOpt>)
    ensures
        ({
            let t = template_bytes(flags, window, options);
            let ob = options_bytes(options);
            &&& t.len() == 20 + (ob.len() + 3) / 4 * 4
            &&& t[13] == flags
            &&& t.subrange(14, 16) == be16(window)
            &&& t[16] == 0 && t[17] == 0
            &&& t.subrange(20, 20 + ob.len() as int) == ob
        }),
{
    let t = template_bytes(flags, window, options);
    let ob = options_bytes(options);
    assert(t.subrange(14, 16) =~= be16(window));
    assert(t.subrange(20, 20 + ob.len() as int) =~= ob);
}

/// The layout of a rendered segment: ports, sequence numbers, the template's
/// offset, flags, window and options, the payload, and a checksum taken with
/// the checksum field zero.
pub proof fn lemma_segment_layout(
    t: Seq<u8>,
    source: Endpoint,
    dest: Endpoint,
    sequence: u32,
    acknowledgement: u32,
    payload: Seq<u8>,
)
    requires
        t.len() >= 20,
        t[16] == 0,
        t[17] == 0,
    ensures
        ({
            let d = tcp_segment_bytes(t, source, dest, sequence, acknowledgement, payload);
            &&& d.len() == t.len() + payload.len()
            &&& d.subrange(0, 2) == be16(source.port)
            &&& d.subrange(2, 4) == be16(dest.port)
            &&& d.subrange(4, 8) == be32(sequence)
            &&& d.subrange(8, 12) == be32(acknowledgement)
            &&& d[12] == t[12] && d[13] == t[13]
            &&& d.subrange(14, 16) == t.subrange(14, 16)
            &&& d.subrange(18, t.len() as int) == t.subrange(18, t.len() as int)
            &&& d.subrange(t.len() as int, d.len() as int) == payload
            &&& from_be16(d.subrange(16, 18)) == tcp_checksum_of(
                d.update(16, 0).update(17, 0),
                source.ip,
                dest.ip,
            )
        }),
{
    let unsummed = be16(source.port) + be16(dest.port) + be32(sequence) + be32(acknowledgement)
        + t.subrange(12, t.len() as int) + payload;
    let c = tcp_checksum_of(unsummed, source.ip, dest.ip);
    let d = tcp_segment_bytes(t, source, dest, sequence, acknowledgement, payload);
    assert(d == unsummed.update(16, (c >> 8) as u8).update(17, c as u8));
    assert(unsummed[16] == t[16] && unsummed[17] == t[17]);
    assert(d.update(16, 0).update(17, 0) =~= unsummed);
    assert(d.subrange(16, 18) =~= be16(c));
    lemma_be16_round_trip(c);
    assert(d.subrange(0, 2) =~= be16(source.port));
    assert(d.subrange(2, 4) =~= be16(dest.port));
    assert(d.subrange(4, 8) =~= be32(sequence));
    assert(d.subrange(8, 12) =~= be32(acknowledgement));
    assert(d.subrange(14, 16) =~= t.subrange(14, 16));
    assert(d.subrange(18, t.len() as int) =~= t.subrange(18, t.len() as int));
    assert(d.subrange(t.len() as int, d.len() as int) =~= payload);
}

} // verus!
