//! The TCP engine: the SYN probe, and the handshake shadowed from the
//! arriving segments alone.
use vstd::prelude::*;

use crate::bytes::{from_be16, from_be32, lemma_be16_round_trip, lemma_be32_round_trip};
use crate::cookie::{cookie, spec_cookie, Endpoint};
use crate::fingerprint::Fingerprint;
use crate::frames::{decode_frame, frame_packet, ipv4_packet_bytes, ipv4_payload, wrap_ipv4, PROTOCOL_TCP};
use crate::protocols::TcpProtocol;
use crate::tcp::template::{
    lemma_segment_layout, lemma_template_layout, options_bytes, tcp_checksum_of, tcp_segment_bytes,
    template_bytes, TcpOpt,
};
use crate::tcp::{decode_tcp, tcp_payload, TcpView, FLAG_ACK, FLAG_PSH, FLAG_RST, FLAG_SYN};
use crate::udpscanner::SOURCE_PORT;

verus! {

/// Largest payload a segment may carry: an IPv4 packet of at most 65535
/// bytes, less its header and a TCP header with full options.
pub const MAX_TCP_PAYLOAD: usize = 65455;

/// The segment rendered from the fingerprint's template with `flags`.
pub open spec fn fp_segment(
    window: u16,
    options: Seq<TcpOpt>,
    flags: u8,
    source: Endpoint,
    dest: Endpoint,
    sequence: u32,
    acknowledgement: u32,
    payload: Seq<u8>,
) -> Seq<u8> {
    tcp_segment_bytes(
        template_bytes(flags, window, options),
        source,
        dest,
        sequence,
        acknowledgement,
        payload,
    )
}

/// The SYN probe to `target`: from port 61000 of `source_ip`, sequence
/// number the target's cookie, acknowledgement 0, no payload.
pub open spec fn syn_bytes(
    window: u16,
    options: Seq<TcpOpt>,
    source_ip: u32,
    target: Endpoint,
    seed: i64,
    start_ms: i64,
) -> Seq<u8> {
    fp_segment(
        window,
        options,
        FLAG_SYN,
        Endpoint { ip: source_ip, port: SOURCE_PORT },
        target,
        spec_cookie(target, seed, start_ms),
        0,
        Seq::empty(),
    )
}

pub fn scan_probe(fp: &Fingerprint, source_ip: u32, target: &Endpoint, seed: i64, start_ms: i64) -> (r: Vec<u8>)
    requires
        fp.wf(),
    ensures
        r@ == syn_bytes(fp.window, fp.options@, source_ip, *target, seed, start_ms),
{
    let c = cookie(target, seed, start_ms);
    let source = Endpoint { ip: source_ip, port: SOURCE_PORT };
    let empty: Vec<u8> = Vec::new();
    fp.get_syn().create(&source, target, c, 0, empty.as_slice())
}

/// Whether a segment carries both SYN and ACK.
pub open spec fn is_syn_ack(flags: u8) -> bool {
    flags & FLAG_SYN != 0 && flags & FLAG_ACK != 0
}

/// The segments sent back for one arriving from `source` to `dest`, where
/// `cookie` is the source's cookie and `first` what the protocol sends
/// first. A SYN-ACK acknowledging the cookie plus one gets an ACK, then the
/// protocol's data under PSH+ACK; any other SYN-ACK a RST. Other segments
/// with data get an ACK; the rest nothing.
pub open spec fn tcp_replies(
    window: u16,
    options: Seq<TcpOpt>,
    first: Option<Seq<u8>>,
    source: Endpoint,
    dest: Endpoint,
    flags: u8,
    sequence: u32,
    acknowledgement: u32,
    payload: Seq<u8>,
    cookie: u32,
) -> Seq<Seq<u8>> {
    if is_syn_ack(flags) {
        let next = sequence.wrapping_add(1);
        if acknowledgement != cookie.wrapping_add(1) {
            seq![
                fp_segment(window, options, FLAG_RST, dest, source, acknowledgement, next, Seq::empty()),
            ]
        } else {
            let ack = fp_segment(
                window,
                options,
                FLAG_ACK,
                dest,
                source,
                acknowledgement,
                next,
                Seq::empty(),
            );
            match first {
                Some(d) => if d.len() <= MAX_TCP_PAYLOAD {
                    seq![
                        ack,
                        fp_segment(
                            window,
                            options,
                            FLAG_PSH | FLAG_ACK,
                            dest,
                            source,
                            acknowledgement,
                            next,
                            d,
                        ),
                    ]
                } else {
                    seq![ack]
                },
                None => seq![ack],
            }
        }
    } else if payload.len() > 0 {
        seq![
            fp_segment(
                window,
                options,
                FLAG_ACK,
                dest,
                source,
                acknowledgement,
                sequence.wrapping_add(payload.len() as u32),
                Seq::empty(),
            ),
        ]
    } else {
        Seq::empty()
    }
}

pub open spec fn segments_view(v: Seq<Vec<u8>>) -> Seq<Seq<u8>> {
    v.map_values(|s: Vec<u8>| s@)
}

/// The segments to send back for `seg`, which arrived from `source` to `dest`.
pub fn respond(
    fp: &Fingerprint,
    protocol: &TcpProtocol,
    seg: &TcpView,
    source: &Endpoint,
    dest: &Endpoint,
    cookie: u32,
) -> (r: Vec<Vec<u8>>)
    requires
        fp.wf(),
    ensures
        segments_view(r@) == tcp_replies(
            fp.window,
            fp.options@,
            protocol.first_data(),
            *source,
            *dest,
            seg.flags,
            seg.sequence,
            seg.acknowledgement,
            seg.payload@,
            cookie,
        ),
{
    let mut out: Vec<Vec<u8>> = Vec::new();
    let empty: Vec<u8> = Vec::new();
    if seg.flags & FLAG_SYN != 0 && seg.flags & FLAG_ACK != 0 {
        let next = seg.sequence.wrapping_add(1);
        if seg.acknowledgement != cookie.wrapping_add(1) {
            out.push(fp.get_rst().create(dest, source, seg.acknowledgement, next, empty.as_slice()));
        } else {
            out.push(fp.get_ack().create(dest, source, seg.acknowledgement, next, empty.as_slice()));
            if let Some(data) = protocol.initial_packet(source) {
                if data.len() <= MAX_TCP_PAYLOAD {
                    out.push(
                        fp.get_psh().create(dest, source, seg.acknowledgement, next, data.as_slice()),
                    );
                }
            }
        }
    } else if seg.payload.len() > 0 {
        let next = seg.sequence.wrapping_add(seg.payload.len() as u32);
        out.push(fp.get_ack().create(dest, source, seg.acknowledgement, next, empty.as_slice()));
    }
    assert(segments_view(out@) =~= tcp_replies(
        fp.window,
        fp.options@,
        protocol.first_data(),
        *source,
        *dest,
        seg.flags,
        seg.sequence,
        seg.acknowledgement,
        seg.payload@,
        cookie,
    ));
    out
}

/// What the receive worker sends for a frame: the segments for its source,
/// none where it is not an IPv4 TCP segment addressed to `local_mac`.
pub open spec fn tcp_frame_replies(
    fp_window: u16,
    fp_options: Seq<TcpOpt>,
    first: Option<Seq<u8>>,
    frame: Seq<u8>,
    local_mac: Seq<u8>,
    seed: i64,
    start_ms: i64,
) -> Seq<(Endpoint, Seq<u8>)> {
    match frame_packet(frame, local_mac) {
        None => Seq::empty(),
        Some(ip) => {
            let seg = ipv4_payload(ip);
            if ip[9] != PROTOCOL_TCP || seg.len() < 20 {
                Seq::empty()
            } else {
                let source = Endpoint {
                    ip: from_be32(ip.subrange(12, 16)),
                    port: from_be16(seg.subrange(0, 2)),
                };
                let dest = Endpoint {
                    ip: from_be32(ip.subrange(16, 20)),
                    port: from_be16(seg.subrange(2, 4)),
                };
                tcp_replies(
                    fp_window,
                    fp_options,
                    first,
                    source,
                    dest,
                    seg[13],
                    from_be32(seg.subrange(4, 8)),
                    from_be32(seg.subrange(8, 12)),
                    tcp_payload(seg),
                    spec_cookie(source, seed, start_ms),
                ).map_values(|s: Seq<u8>| (source, s))
            }
        },
    }
}

/// Handles one received frame: the segments to queue, each with where it goes.
pub fn on_frame(
    fp: &Fingerprint,
    protocol: &TcpProtocol,
    frame: &[u8],
    local_mac: &[u8; 6],
    seed: i64,
    start_ms: i64,
) -> (r: Vec<(Endpoint, Vec<u8>)>)
    requires
        fp.wf(),
    ensures
        r@.map_values(|p: (Endpoint, Vec<u8>)| (p.0, p.1@)) == tcp_frame_replies(
            fp.window,
            fp.options@,
            protocol.first_data(),
            frame@,
            local_mac@,
            seed,
            start_ms,
        ),
{
    let mut out: Vec<(Endpoint, Vec<u8>)> = Vec::new();
    let ip = match decode_frame(frame, local_mac) {
        Some(v) => v,
        None => return out,
    };
    if ip.protocol != PROTOCOL_TCP {
        return out;
    }
    let seg = match decode_tcp(ip.payload.as_slice()) {
        Some(s) => s,
        None => return out,
    };
    let source = Endpoint { ip: ip.source, port: seg.source_port };
    let dest = Endpoint { ip: ip.destination, port: seg.dest_port };
    let c = cookie(&source, seed, start_ms);
    let replies = respond(fp, protocol, &seg, &source, &dest, c);
    let ghost rv = segments_view(replies@);
    let mut i: usize = 0;
    while i < replies.len()
        invariant
            i <= replies@.len(),
            rv == segments_view(replies@),
            out@.map_values(|p: (Endpoint, Vec<u8>)| (p.0, p.1@)) == rv.subrange(0, i as int).map_values(
                |s: Seq<u8>| (source, s),
            ),
        decreases replies@.len() - i,
    {
        let mut copy: Vec<u8> = Vec::new();
        let mut j: usize = 0;
        while j < replies[i].len()
            invariant
                i < replies@.len(),
                j <= replies@[i as int]@.len(),
                copy@ == replies@[i as int]@.subrange(0, j as int),
            decreases replies@[i as int]@.len() - j,
        {
            copy.push(replies[i][j]);
            j += 1;
            assert(copy@ =~= replies@[i as int]@.subrange(0, j as int));
        }
        assert(copy@ =~= replies@[i as int]@);
        let ghost prev = out@;
        out.push((source, copy));
        proof {
            let got = out@.map_values(|p: (Endpoint, Vec<u8>)| (p.0, p.1@));
            let want = rv.subrange(0, i + 1).map_values(|s: Seq<u8>| (source, s));
            let before = prev.map_values(|p: (Endpoint, Vec<u8>)| (p.0, p.1@));
            assert(before == rv.subrange(0, i as int).map_values(|s: Seq<u8>| (source, s)));
            assert(before.len() == i);
            assert(out@.len() == i + 1);
            assert forall|k: int| 0 <= k < i + 1 implies got[k] == want[k] by {
                if k < i {
                    assert(out@[k] == prev[k]);
                    assert(got[k] == before[k]);
                } else {
                    assert(rv[k] == replies@[k]@);
                }
            }
            assert(got =~= want);
        }
        i += 1;
    }
    assert(rv.subrange(0, rv.len() as int) =~= rv);
    out
}

/// Frames a queued segment for the link: IPv4 with the fingerprint's TTL.
pub fn tcp_packet(segment: &[u8], source_ip: u32, dest: &Endpoint, ttl: u8) -> (r: Vec<u8>)
    requires
        segment.len() + 20 <= 65535,
    ensures
        r@ == ipv4_packet_bytes(segment@, source_ip, dest.ip, ttl, PROTOCOL_TCP),
{
    wrap_ipv4(segment, source_ip, dest.ip, ttl, PROTOCOL_TCP)
}

/// Every SYN probe carries the cookie as its sequence number, the
/// fingerprint's window and options, and a checksum taken over the segment
/// with the checksum field zero.
pub proof fn lemma_syn_fields(
    window: u16,
    options: Seq<TcpOpt>,
    source_ip: u32,
    target: Endpoint,
    seed: i64,
    start_ms: i64,
)
    ensures
        ({
            let d = syn_bytes(window, options, source_ip, target, seed, start_ms);
            let ob = options_bytes(options);
            &&& from_be16(d.subrange(0, 2)) == SOURCE_PORT
            &&& from_be16(d.subrange(2, 4)) == target.port
            &&& from_be32(d.subrange(4, 8)) == spec_cookie(target, seed, start_ms)
            &&& from_be32(d.subrange(8, 12)) == 0
            &&& d[13] == FLAG_SYN
            &&& from_be16(d.subrange(14, 16)) == window
            &&& d.subrange(20, 20 + ob.len() as int) == ob
            &&& from_be16(d.subrange(16, 18)) == tcp_checksum_of(
                d.update(16, 0).update(17, 0),
                source_ip,
                target.ip,
            )
        }),
{
    let t = template_bytes(FLAG_SYN, window, options);
    let ob = options_bytes(options);
    let source = Endpoint { ip: source_ip, port: SOURCE_PORT };
    let c = spec_cookie(target, seed, start_ms);
    lemma_template_layout(FLAG_SYN, window, options);
    lemma_segment_layout(t, source, target, c, 0, Seq::empty());
    let d = syn_bytes(window, options, source_ip, target, seed, start_ms);
    lemma_be16_round_trip(SOURCE_PORT);
    lemma_be16_round_trip(target.port);
    lemma_be32_round_trip(c);
    lemma_be32_round_trip(0);
    lemma_be16_round_trip(window);
    assert(d.subrange(20, 20 + ob.len() as int) =~= t.subrange(18, t.len() as int).subrange(
        2,
        2 + ob.len() as int,
    ));
}

/// The flags of the `i`-th segment sent back.
pub open spec fn reply_flags(replies: Seq<Seq<u8>>, i: int) -> u8 {
    replies[i][13]
}

/// The engine sends a RST exactly for a SYN-ACK whose acknowledgement is not
/// the cookie plus one; any other SYN-ACK is answered with an ACK first.
pub proof fn lemma_rst_exactly_on_bad_ack(
    window: u16,
    options: Seq<TcpOpt>,
    first: Option<Seq<u8>>,
    source: Endpoint,
    dest: Endpoint,
    flags: u8,
    sequence: u32,
    acknowledgement: u32,
    payload: Seq<u8>,
    cookie: u32,
)
    ensures
        ({
            let r = tcp_replies(
                window,
                options,
                first,
                source,
                dest,
                flags,
                sequence,
                acknowledgement,
                payload,
                cookie,
            );
            &&& (exists|i: int| 0 <= i < r.len() && reply_flags(r, i) == FLAG_RST) <==> (
            is_syn_ack(flags) && acknowledgement != cookie.wrapping_add(1))
            &&& is_syn_ack(flags) && acknowledgement != cookie.wrapping_add(1) ==> r.len() == 1
            &&& is_syn_ack(flags) && acknowledgement == cookie.wrapping_add(1) ==> r.len() >= 1
                && reply_flags(r, 0) == FLAG_ACK
        }),
{
    let r = tcp_replies(
        window,
        options,
        first,
        source,
        dest,
        flags,
        sequence,
        acknowledgement,
        payload,
        cookie,
    );
    lemma_template_layout(FLAG_RST, window, options);
    lemma_template_layout(FLAG_ACK, window, options);
    lemma_template_layout(FLAG_PSH | FLAG_ACK, window, options);
    let next = sequence.wrapping_add(1);
    let t_rst = template_bytes(FLAG_RST, window, options);
    let t_ack = template_bytes(FLAG_ACK, window, options);
    let t_psh = template_bytes(FLAG_PSH | FLAG_ACK, window, options);
    assert(FLAG_PSH | FLAG_ACK == 24u8) by (bit_vector);
    if is_syn_ack(flags) {
        if acknowledgement != cookie.wrapping_add(1) {
            lemma_segment_layout(t_rst, dest, source, acknowledgement, next, Seq::empty());
            assert(reply_flags(r, 0) == FLAG_RST);
        } else {
            lemma_segment_layout(t_ack, dest, source, acknowledgement, next, Seq::empty());
            if let Some(d) = first {
                lemma_segment_layout(t_psh, dest, source, acknowledgement, next, d);
            }
            assert forall|i: int| 0 <= i < r.len() implies reply_flags(r, i) != FLAG_RST by {
                if i == 1 {
                    assert(reply_flags(r, i) == 24u8);
                }
            }
        }
    } else if payload.len() > 0 {
        lemma_segment_layout(
            t_ack,
            dest,
            source,
            acknowledgement,
            sequence.wrapping_add(payload.len() as u32),
            Seq::empty(),
        );
        assert(reply_flags(r, 0) == FLAG_ACK);
    }
}

/// A frame addressed to another station gets no answer, whatever it carries.
pub proof fn lemma_foreign_frame_unanswered(
    window: u16,
    options: Seq<TcpOpt>,
    first: Option<Seq<u8>>,
    frame: Seq<u8>,
    local_mac: Seq<u8>,
    seed: i64,
    start_ms: i64,
)
    requires
        frame.len() >= 6,
        frame.subrange(0, 6) != local_mac,
    ensures
        tcp_frame_replies(window, options, first, frame, local_mac, seed, start_ms).len() == 0,
{
}

} // verus!
