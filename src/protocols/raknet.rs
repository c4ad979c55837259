//! RakNet unconnected ping (UDP): the ping's timestamp carries the cookie
//! twice, and the pong echoes it beside the server's id string.
use vstd::prelude::*;

use crate::bytes::{be32, from_be16, from_be32, from_be64, push_be32, read_be16, read_be64};
use crate::cookie::Endpoint;
use crate::decimal::{
    dec_text, parse_isize, parse_u16, parse_usize, push_dec, signed_text, signed_value,
    unsigned_value,
};
use crate::protocols::{UdpAction, UdpEffect};
use crate::text::{chars_of, decode_utf8, string_from_chars, utf8_decoding};

verus! {

pub const MAGIC: [u8; 16] = [
    0x00,
    0xff,
    0xff,
    0x00,
    0xfe,
    0xfe,
    0xfe,
    0xfe,
    0xfd,
    0xfd,
    0xfd,
    0xfd,
    0x12,
    0x34,
    0x56,
    0x78,
];

/// Shortest pong: id (1), timestamp (8), GUID (8), magic (16), id-string
/// length (2) and one byte.
pub const RAKNET_MIN_LEN: usize = 36;

/// A server's answer, read from its id string.
pub struct RaknetReponse {
    pub source: String,
    pub edition: String,
    pub motd: String,
    pub protocol: usize,
    pub version: String,
    pub playercount: isize,
    pub maxplayers: isize,
    pub guid: u64,
    pub sub_motd: String,
    pub gamemode: String,
    pub num_gamemode: isize,
    pub port_ipv4: u16,
    pub port_ipv6: u16,
    pub extra: Option<String>,
}

/// The contents of a `RaknetReponse`.
pub struct RaknetRecord {
    pub source: Seq<char>,
    pub edition: Seq<char>,
    pub motd: Seq<char>,
    pub protocol: usize,
    pub version: Seq<char>,
    pub playercount: isize,
    pub maxplayers: isize,
    pub guid: u64,
    pub sub_motd: Seq<char>,
    pub gamemode: Seq<char>,
    pub num_gamemode: isize,
    pub port_ipv4: u16,
    pub port_ipv6: u16,
    pub extra: Option<Seq<char>>,
}

impl View for RaknetReponse {
    type V = RaknetRecord;

    open spec fn view(&self) -> RaknetRecord {
        RaknetRecord {
            source: self.source@,
            edition: self.edition@,
            motd: self.motd@,
            protocol: self.protocol,
            version: self.version@,
            playercount: self.playercount,
            maxplayers: self.maxplayers,
            guid: self.guid,
            sub_motd: self.sub_motd@,
            gamemode: self.gamemode@,
            num_gamemode: self.num_gamemode,
            port_ipv4: self.port_ipv4,
            port_ipv6: self.port_ipv6,
            extra: match self.extra {
                Some(e) => Some(e@),
                None => None,
            },
        }
    }
}

// ---------------------------------------------------------------------------
// Fields of the id string
/// `s` cut at every `sep`, as `str::split` cuts it: `n` separators give
/// `n + 1` pieces.
pub open spec fn split_on(s: Seq<char>, sep: char) -> Seq<Seq<char>>
    decreases s.len(),
{
    if s.len() == 0 {
        seq![Seq::empty()]
    } else {
        let init = split_on(s.drop_last(), sep);
        if s.last() == sep {
            init.push(Seq::empty())
        } else {
            init.update(init.len() - 1, init.last().push(s.last()))
        }
    }
}

/// The pieces with `sep` between each two.
pub open spec fn join_on(parts: Seq<Seq<char>>, sep: char) -> Seq<char>
    decreases parts.len(),
{
    if parts.len() == 0 {
        Seq::empty()
    } else if parts.len() == 1 {
        parts[0]
    } else {
        join_on(parts.drop_last(), sep) + seq![sep] + parts.last()
    }
}

pub proof fn lemma_split_nonempty(s: Seq<char>, sep: char)
    ensures
        split_on(s, sep).len() >= 1,
    decreases s.len(),
{
    if s.len() > 0 {
        lemma_split_nonempty(s.drop_last(), sep);
    }
}

/// Joining the pieces gives the text back.
pub proof fn lemma_join_split(s: Seq<char>, sep: char)
    ensures
        join_on(split_on(s, sep), sep) == s,
    decreases s.len(),
{
    if s.len() > 0 {
        let init = split_on(s.drop_last(), sep);
        lemma_split_nonempty(s.drop_last(), sep);
        lemma_join_split(s.drop_last(), sep);
        let parts = split_on(s, sep);
        if s.last() == sep {
            assert(parts.drop_last() =~= init);
            assert(join_on(parts, sep) =~= s);
        } else {
            if init.len() == 1 {
                assert(parts.len() == 1);
                assert(join_on(parts, sep) == parts[0]);
                assert(parts[0] == init[0].push(s.last()));
                assert(init[0] == s.drop_last());
                assert(s.drop_last().push(s.last()) =~= s);
            } else {
                assert(parts.drop_last() =~= init.drop_last());
                assert(parts.last() == init.last().push(s.last()));
                assert(join_on(init, sep) == join_on(init.drop_last(), sep) + seq![sep]
                    + init.last());
                assert(join_on(parts, sep) == join_on(init.drop_last(), sep) + seq![sep]
                    + init.last().push(s.last()));
                assert(join_on(parts, sep) =~= join_on(init, sep).push(s.last()));
                assert(s.drop_last().push(s.last()) =~= s);
            }
        }
    }
}

/// Joining splits at any piece.
pub proof fn lemma_join_cut(parts: Seq<Seq<char>>, sep: char, k: int)
    requires
        1 <= k < parts.len(),
    ensures
        join_on(parts, sep) == join_on(parts.subrange(0, k), sep) + seq![sep] + join_on(
            parts.subrange(k, parts.len() as int),
            sep,
        ),
    decreases parts.len(),
{
    let n = parts.len() as int;
    if k == n - 1 {
        assert(parts.drop_last() =~= parts.subrange(0, k));
        assert(parts.subrange(k, n) =~= seq![parts.last()]);
    } else {
        lemma_join_cut(parts.drop_last(), sep, k);
        assert(parts.drop_last().subrange(0, k) =~= parts.subrange(0, k));
        let tail = parts.subrange(k, n);
        assert(tail.drop_last() =~= parts.drop_last().subrange(k, n - 1));
        assert(tail.last() == parts.last());
        assert(join_on(parts, sep) =~= join_on(parts.subrange(0, k), sep) + seq![sep]
            + join_on(tail, sep));
    }
}

/// The text after the twelfth field: nothing where it is a single empty
/// piece, else the pieces joined again.
pub open spec fn extra_of(rest: Seq<Seq<char>>) -> Option<Seq<char>> {
    if rest == seq![Seq::<char>::empty()] {
        None
    } else {
        Some(join_on(rest, ';'))
    }
}

/// The record of id string `s` in a pong whose binary GUID is `guid`. Fields:
/// edition; motd; protocol; version; players; max players; GUID; sub-motd;
/// game mode; game mode number; IPv4 port; IPv6 port; then anything else.
pub open spec fn raknet_record(guid: u64, s: Seq<char>) -> Option<RaknetRecord> {
    let p = split_on(s, ';');
    if p.len() < 12 {
        None
    } else {
        match (
            unsigned_value(p[2]),
            signed_value(p[4]),
            signed_value(p[5]),
            signed_value(p[9]),
            unsigned_value(p[10]),
            unsigned_value(p[11]),
        ) {
            (Some(protocol), Some(pc), Some(mp), Some(gm), Some(p4), Some(p6)) => {
                if protocol <= usize::MAX && isize::MIN <= pc <= isize::MAX && isize::MIN <= mp
                    <= isize::MAX && isize::MIN <= gm <= isize::MAX && p4 <= u16::MAX && p6
                    <= u16::MAX && p[6] == dec_text(guid as nat) {
                    Some(
                        RaknetRecord {
                            source: s,
                            edition: p[0],
                            motd: p[1],
                            protocol: protocol as usize,
                            version: p[3],
                            playercount: pc as isize,
                            maxplayers: mp as isize,
                            guid,
                            sub_motd: p[7],
                            gamemode: p[8],
                            num_gamemode: gm as isize,
                            port_ipv4: p4 as u16,
                            port_ipv6: p6 as u16,
                            extra: extra_of(p.subrange(12, p.len() as int)),
                        },
                    )
                } else {
                    None
                }
            },
            _ => None,
        }
    }
}

pub open spec fn pieces_view(v: Seq<Vec<char>>) -> Seq<Seq<char>> {
    v.map_values(|p: Vec<char>| p@)
}

fn split_chars(s: &[char], sep: char) -> (r: Vec<Vec<char>>)
    ensures
        pieces_view(r@) == split_on(s@, sep),
{
    let mut done: Vec<Vec<char>> = Vec::new();
    let mut cur: Vec<char> = Vec::new();
    let mut i: usize = 0;
    assert(s@.subrange(0, 0) =~= Seq::<char>::empty());
    assert(pieces_view(done@).push(cur@) =~= split_on(s@.subrange(0, 0), sep));
    while i < s.len()
        invariant
            i <= s.len(),
            pieces_view(done@).push(cur@) == split_on(s@.subrange(0, i as int), sep),
        decreases s.len() - i,
    {
        let ghost pre = s@.subrange(0, i as int);
        let ghost next = s@.subrange(0, i + 1);
        assert(next.drop_last() =~= pre);
        assert(next.last() == s@[i as int]);
        let c = s[i];
        if c == sep {
            done.push(cur);
            cur = Vec::new();
            assert(pieces_view(done@).push(cur@) =~= split_on(next, sep));
        } else {
            cur.push(c);
            assert(pieces_view(done@).push(cur@) =~= split_on(next, sep));
        }
        i += 1;
    }
    assert(s@.subrange(0, s@.len() as int) =~= s@);
    done.push(cur);
    assert(pieces_view(done@) =~= split_on(s@, sep));
    done
}

fn append_chars(out: &mut Vec<char>, src: &[char])
    ensures
        final(out)@ == old(out)@ + src@,
{
    let mut i: usize = 0;
    while i < src.len()
        invariant
            i <= src.len(),
            out@ == old(out)@ + src@.subrange(0, i as int),
        decreases src.len() - i,
    {
        out.push(src[i]);
        i += 1;
        assert(out@ =~= old(out)@ + src@.subrange(0, i as int));
    }
    assert(src@.subrange(0, src@.len() as int) =~= src@);
}

fn join_from(parts: &Vec<Vec<char>>, from: usize, sep: char) -> (r: Vec<char>)
    requires
        from <= parts.len(),
    ensures
        r@ == join_on(pieces_view(parts@).subrange(from as int, parts@.len() as int), sep),
{
    let ghost pv = pieces_view(parts@);
    let mut out: Vec<char> = Vec::new();
    let mut i: usize = from;
    assert(pv.subrange(from as int, from as int) =~= Seq::<Seq<char>>::empty());
    while i < parts.len()
        invariant
            from <= i <= parts.len(),
            pv == pieces_view(parts@),
            out@ == join_on(pv.subrange(from as int, i as int), sep),
        decreases parts.len() - i,
    {
        let ghost sub = pv.subrange(from as int, i + 1);
        assert(sub.drop_last() =~= pv.subrange(from as int, i as int));
        if i > from {
            out.push(sep);
        }
        append_chars(&mut out, parts[i].as_slice());
        i += 1;
        assert(out@ =~= join_on(sub, sep));
    }
    out
}

fn chars_eq(a: &[char], b: &[char]) -> (r: bool)
    ensures
        r == (a@ == b@),
{
    if a.len() != b.len() {
        return false;
    }
    let mut i: usize = 0;
    while i < a.len()
        invariant
            i <= a.len() == b.len(),
            forall|k: int| 0 <= k < i ==> a@[k] == b@[k],
        decreases a.len() - i,
    {
        if a[i] != b[i] {
            return false;
        }
        i += 1;
    }
    assert(a@ =~= b@);
    true
}

impl RaknetReponse {
    /// Reads the id string of a pong whose binary GUID is `guid`; `Err`
    /// where a field is missing or not a number, or where its GUID field is
    /// not the decimal text of `guid`.
    pub fn new(guid: u64, server_id: String) -> (r: Result<RaknetReponse, ()>)
        ensures
            match r {
                Ok(x) => raknet_record(guid, server_id@) == Some(x@),
                Err(_) => raknet_record(guid, server_id@) is None,
            },
    {
        let chars = chars_of(server_id.as_str());
        let parts = split_chars(chars.as_slice(), ';');
        let ghost p = pieces_view(parts@);
        if parts.len() < 12 {
            return Err(());
        }
        assert(p[2] == parts@[2]@ && p[4] == parts@[4]@ && p[5] == parts@[5]@);
        assert(p[9] == parts@[9]@ && p[10] == parts@[10]@ && p[11] == parts@[11]@);
        assert(p[6] == parts@[6]@);
        let protocol = match parse_usize(parts[2].as_slice()) {
            Some(v) => v,
            None => return Err(()),
        };
        let playercount = match parse_isize(parts[4].as_slice()) {
            Some(v) => v,
            None => return Err(()),
        };
        let maxplayers = match parse_isize(parts[5].as_slice()) {
            Some(v) => v,
            None => return Err(()),
        };
        let mut guid_text: Vec<char> = Vec::new();
        push_dec(&mut guid_text, guid);
        assert(guid_text@ =~= dec_text(guid as nat));
        if !chars_eq(parts[6].as_slice(), guid_text.as_slice()) {
            return Err(());
        }
        let num_gamemode = match parse_isize(parts[9].as_slice()) {
            Some(v) => v,
            None => return Err(()),
        };
        let port_ipv4 = match parse_u16(parts[10].as_slice()) {
            Some(v) => v,
            None => return Err(()),
        };
        let port_ipv6 = match parse_u16(parts[11].as_slice()) {
            Some(v) => v,
            None => return Err(()),
        };
        let extra = if parts.len() == 13 && parts[12].len() == 0 {
            assert(p[12] == parts@[12]@);
            assert(p[12] =~= Seq::<char>::empty());
            assert(p.subrange(12, 13) =~= seq![Seq::<char>::empty()]);
            None
        } else {
            proof {
                if p.subrange(12, p.len() as int) == seq![Seq::<char>::empty()] {
                    assert(p.subrange(12, p.len() as int).len() == 1);
                    assert(p.subrange(12, p.len() as int)[0] == p[12]);
                }
            }
            Some(string_from_chars(join_from(&parts, 12, ';').as_slice()))
        };
        Ok(
            RaknetReponse {
                edition: string_from_chars(parts[0].as_slice()),
                motd: string_from_chars(parts[1].as_slice()),
                protocol,
                version: string_from_chars(parts[3].as_slice()),
                playercount,
                maxplayers,
                guid,
                sub_motd: string_from_chars(parts[7].as_slice()),
                gamemode: string_from_chars(parts[8].as_slice()),
                num_gamemode,
                port_ipv4,
                port_ipv6,
                extra,
                source: server_id,
            },
        )
    }
}

// ---------------------------------------------------------------------------
// The exchange
/// The ping: id 1, the cookie twice as its timestamp, the magic and a zero
/// client GUID.
pub open spec fn raknet_probe(cookie: u32) -> Seq<u8> {
    seq![0x01u8] + be32(cookie) + be32(cookie) + MAGIC@ + Seq::new(8, |i: int| 0u8)
}

/// What a pong leads to. It is dropped where it is short, of another type,
/// echoes another cookie in either half of its timestamp, lacks the magic,
/// holds fewer bytes than its id string's length, or where that string is not
/// UTF-8 or does not read as a record.
pub open spec fn raknet_effect(b: Seq<u8>, cookie: u32) -> UdpEffect {
    if b.len() < RAKNET_MIN_LEN || b[0] != 0x1c {
        UdpEffect::Drop
    } else if from_be32(b.subrange(1, 5)) != cookie || from_be32(b.subrange(5, 9)) != cookie {
        UdpEffect::Drop
    } else if b.subrange(17, 33) != MAGIC@ {
        UdpEffect::Drop
    } else {
        let n = from_be16(b.subrange(33, 35)) as int;
        if 35 + n > b.len() {
            UdpEffect::Drop
        } else {
            match utf8_decoding(b.subrange(35, 35 + n)) {
                None => UdpEffect::Drop,
                Some(text) => match raknet_record(from_be64(b.subrange(9, 17)), text) {
                    Some(r) => UdpEffect::Raknet(r),
                    None => UdpEffect::Drop,
                },
            }
        }
    }
}

/// The `length` bytes at `pos`, where there are that many.
pub fn read_bytes(b: &[u8], pos: usize, length: usize) -> (r: Option<Vec<u8>>)
    requires
        pos <= b.len(),
    ensures
        r matches Some(v) ==> v@ == b@.subrange(pos as int, pos + length),
        r is Some <==> pos + length <= b.len(),
{
    if length > b.len() - pos {
        return None;
    }
    let mut out: Vec<u8> = Vec::new();
    let mut i: usize = 0;
    while i < length
        invariant
            i <= length,
            pos + length <= b.len(),
            out@ == b@.subrange(pos as int, pos + i),
        decreases length - i,
    {
        out.push(b[pos + i]);
        i += 1;
        assert(out@ =~= b@.subrange(pos as int, pos + i));
    }
    Some(out)
}

/// The RakNet unconnected ping.
pub struct RaknetProtocol {}

impl RaknetProtocol {
    pub fn new() -> (r: Self) {
        RaknetProtocol {  }
    }

    pub fn name(&self) -> (r: String)
        ensures
            r@ == "Raknet"@,
    {
        "Raknet".to_string()
    }

    /// The ping for a target whose cookie is `cookie`.
    pub fn initial_packet(&self, _addr: &Endpoint, cookie: u32) -> (r: Vec<u8>)
        ensures
            r@ == raknet_probe(cookie),
    {
        let mut packet: Vec<u8> = Vec::new();
        packet.push(0x01);
        push_be32(&mut packet, cookie);
        push_be32(&mut packet, cookie);
        let magic = MAGIC;
        let mut i: usize = 0;
        while i < 16
            invariant
                i <= 16,
                magic@ == MAGIC@,
                packet@ == seq![0x01u8] + be32(cookie) + be32(cookie) + MAGIC@.subrange(0, i as int),
            decreases 16 - i,
        {
            packet.push(magic[i]);
            i += 1;
            assert(packet@ =~= seq![0x01u8] + be32(cookie) + be32(cookie) + MAGIC@.subrange(0, i as int));
        }
        let mut j: usize = 0;
        while j < 8
            invariant
                j <= 8,
                packet@ == seq![0x01u8] + be32(cookie) + be32(cookie) + MAGIC@ + Seq::new(
                    j as nat,
                    |i: int| 0u8,
                ),
            decreases 8 - j,
        {
            packet.push(0);
            j += 1;
            assert(packet@ =~= seq![0x01u8] + be32(cookie) + be32(cookie) + MAGIC@ + Seq::new(
                j as nat,
                |i: int| 0u8,
            ));
        }
        assert(MAGIC@.subrange(0, 16) =~= MAGIC@);
        packet
    }

    /// What to do with a pong from a source whose cookie is `cookie`.
    pub fn handle_packet(&self, cookie: u32, packet: &[u8]) -> (r: UdpAction)
        ensures
            r@ == raknet_effect(packet@, cookie),
    {
        if packet.len() < RAKNET_MIN_LEN || packet[0] != 0x1c {
            return UdpAction::Drop;
        }
        let high = crate::bytes::read_be32(packet, 1);
        let low = crate::bytes::read_be32(packet, 5);
        if high != cookie || low != cookie {
            return UdpAction::Drop;
        }
        let guid = read_be64(packet, 9);
        let magic = MAGIC;
        if !crate::bytes::bytes_at(packet, 17, &magic) {
            return UdpAction::Drop;
        }
        let n = read_be16(packet, 33) as usize;
        let bytes = match read_bytes(packet, 35, n) {
            Some(v) => v,
            None => return UdpAction::Drop,
        };
        let text = match decode_utf8(bytes) {
            Some(t) => t,
            None => return UdpAction::Drop,
        };
        match RaknetReponse::new(guid, text) {
            Ok(r) => UdpAction::Raknet(r),
            Err(_) => UdpAction::Drop,
        }
    }
}

/// The ping's timestamp, read as two big-endian 32-bit halves, is the
/// cookie twice.
pub proof fn lemma_probe_carries_cookie(cookie: u32)
    ensures
        from_be32(raknet_probe(cookie).subrange(1, 5)) == cookie,
        from_be32(raknet_probe(cookie).subrange(5, 9)) == cookie,
{
    let p = raknet_probe(cookie);
    assert(p.subrange(1, 5) =~= be32(cookie));
    assert(p.subrange(5, 9) =~= be32(cookie));
    crate::bytes::lemma_be32_round_trip(cookie);
}

/// Pongs shorter than the minimum are dropped whatever they hold.
pub proof fn lemma_short_pong_dropped(b: Seq<u8>, cookie: u32)
    requires
        b.len() < RAKNET_MIN_LEN,
    ensures
        raknet_effect(b, cookie) == UdpEffect::Drop,
{
}

/// The id string of a record: its twelve fields joined by `;`, then a
/// trailing `;` where there is no extra text, or `;` and the extra text
/// where it is not empty.
pub open spec fn server_id_text(r: RaknetRecord) -> Seq<char> {
    let head = join_on(
        seq![
            r.edition,
            r.motd,
            dec_text(r.protocol as nat),
            r.version,
            signed_text(r.playercount as int),
            signed_text(r.maxplayers as int),
            dec_text(r.guid as nat),
            r.sub_motd,
            r.gamemode,
            signed_text(r.num_gamemode as int),
            dec_text(r.port_ipv4 as nat),
            dec_text(r.port_ipv6 as nat),
        ],
        ';',
    );
    match r.extra {
        None => head + seq![';'],
        Some(e) => if e.len() == 0 {
            head
        } else {
            head + seq![';'] + e
        },
    }
}

/// Text that an unsigned field holds in its shortest form, within `max`.
pub open spec fn canonical_unsigned(t: Seq<char>, max: int) -> bool {
    unsigned_value(t) matches Some(v) && v <= max && dec_text(v) == t
}

/// Text that a signed field holds in its shortest form, within `isize`.
pub open spec fn canonical_signed(t: Seq<char>) -> bool {
    signed_value(t) matches Some(v) && isize::MIN <= v <= isize::MAX && signed_text(v) == t
}

proof fn lemma_join_len(parts: Seq<Seq<char>>, sep: char)
    requires
        parts.len() >= 1,
    ensures
        join_on(parts, sep).len() >= parts.len() - 1,
    decreases parts.len(),
{
    if parts.len() > 1 {
        lemma_join_len(parts.drop_last(), sep);
    }
}

/// An id string whose numeric fields are written in their shortest form and
/// whose GUID field is the pong's GUID reads as a record that writes back
/// to the same string, extra text included.
pub proof fn lemma_server_id_round_trip(guid: u64, s: Seq<char>)
    requires
        split_on(s, ';').len() >= 12,
        canonical_unsigned(split_on(s, ';')[2], usize::MAX as int),
        canonical_signed(split_on(s, ';')[4]),
        canonical_signed(split_on(s, ';')[5]),
        split_on(s, ';')[6] == dec_text(guid as nat),
        canonical_signed(split_on(s, ';')[9]),
        canonical_unsigned(split_on(s, ';')[10], u16::MAX as int),
        canonical_unsigned(split_on(s, ';')[11], u16::MAX as int),
    ensures
        raknet_record(guid, s) matches Some(r) && server_id_text(r) == s,
{
    let p = split_on(s, ';');
    let r = raknet_record(guid, s)->0;
    assert(raknet_record(guid, s) is Some);
    let fields = seq![
        r.edition,
        r.motd,
        dec_text(r.protocol as nat),
        r.version,
        signed_text(r.playercount as int),
        signed_text(r.maxplayers as int),
        dec_text(r.guid as nat),
        r.sub_motd,
        r.gamemode,
        signed_text(r.num_gamemode as int),
        dec_text(r.port_ipv4 as nat),
        dec_text(r.port_ipv6 as nat),
    ];
    assert(fields =~= p.subrange(0, 12));
    lemma_join_split(s, ';');
    let head = join_on(fields, ';');
    let n = p.len() as int;
    if n == 12 {
        assert(p.subrange(0, 12) =~= p);
        assert(p.subrange(12, n) =~= Seq::<Seq<char>>::empty());
        assert(server_id_text(r) == head);
    } else {
        let rest = p.subrange(12, n);
        lemma_join_cut(p, ';', 12);
        if rest == seq![Seq::<char>::empty()] {
            assert(join_on(rest, ';') == rest[0]);
            assert(join_on(rest, ';') =~= Seq::<char>::empty());
            assert(head + seq![';'] =~= head + seq![';'] + join_on(rest, ';'));
        } else {
            lemma_join_len(rest, ';');
            if rest.len() == 1 {
                assert(join_on(rest, ';') == rest[0]);
                if rest[0].len() == 0 {
                    assert(rest =~= seq![Seq::<char>::empty()]);
                }
            }
            assert(join_on(rest, ';').len() > 0);
        }
    }
}

/// Text without the separator.
pub open spec fn free_of(t: Seq<char>, sep: char) -> bool {
    forall|i: int| 0 <= i < t.len() ==> t[i] != sep
}

proof fn lemma_split_free(t: Seq<char>, sep: char)
    requires
        free_of(t, sep),
    ensures
        split_on(t, sep) == seq![t],
    decreases t.len(),
{
    if t.len() > 0 {
        lemma_split_free(t.drop_last(), sep);
        assert(t.drop_last().push(t.last()) =~= t);
        assert(split_on(t, sep) =~= seq![t]);
    } else {
        assert(t =~= Seq::<char>::empty());
    }
}

/// Splitting at a separator splits each side.
proof fn lemma_split_concat(x: Seq<char>, y: Seq<char>, sep: char)
    ensures
        split_on(x + seq![sep] + y, sep) == split_on(x, sep) + split_on(y, sep),
    decreases y.len(),
{
    lemma_split_nonempty(x, sep);
    if y.len() == 0 {
        assert((x + seq![sep] + y).drop_last() =~= x);
        assert(split_on(x + seq![sep] + y, sep) =~= split_on(x, sep) + split_on(y, sep));
    } else {
        let z = x + seq![sep] + y;
        assert(z.drop_last() =~= x + seq![sep] + y.drop_last());
        assert(z.last() == y.last());
        lemma_split_concat(x, y.drop_last(), sep);
        lemma_split_nonempty(y.drop_last(), sep);
        let a = split_on(x, sep);
        let b = split_on(y.drop_last(), sep);
        if y.last() == sep {
            assert(split_on(z, sep) =~= a + split_on(y, sep));
        } else {
            assert((a + b).last() == b.last());
            assert(split_on(z, sep) =~= a + split_on(y, sep));
        }
    }
}

/// Splitting pieces free of the separator after joining them gives them back.
proof fn lemma_split_join(parts: Seq<Seq<char>>, sep: char)
    requires
        parts.len() >= 1,
        forall|i: int| 0 <= i < parts.len() ==> free_of(#[trigger] parts[i], sep),
    ensures
        split_on(join_on(parts, sep), sep) == parts,
    decreases parts.len(),
{
    if parts.len() == 1 {
        lemma_split_free(parts[0], sep);
        assert(seq![parts[0]] =~= parts);
    } else {
        let init = parts.drop_last();
        assert forall|i: int| 0 <= i < init.len() implies free_of(#[trigger] init[i], sep) by {
            assert(init[i] == parts[i]);
        }
        lemma_split_join(init, sep);
        lemma_split_concat(join_on(init, sep), parts.last(), sep);
        lemma_split_free(parts.last(), sep);
        assert(init + seq![parts.last()] =~= parts);
    }
}

/// Twelve fields, the text ones free of `;` and the numeric ones in their
/// shortest form, joined by `;`, then `;` and a tail: the record holds the
/// fields, and the tail as extra text where it is not empty; written back,
/// it is the same string.
pub proof fn lemma_fields_round_trip(guid: u64, fields: Seq<Seq<char>>, tail: Seq<char>)
    requires
        fields.len() == 12,
        forall|i: int| 0 <= i < 12 ==> free_of(#[trigger] fields[i], ';'),
        canonical_unsigned(fields[2], usize::MAX as int),
        canonical_signed(fields[4]),
        canonical_signed(fields[5]),
        fields[6] == dec_text(guid as nat),
        canonical_signed(fields[9]),
        canonical_unsigned(fields[10], u16::MAX as int),
        canonical_unsigned(fields[11], u16::MAX as int),
    ensures
        ({
            let s = join_on(fields, ';') + seq![';'] + tail;
            raknet_record(guid, s) matches Some(r) && r.edition == fields[0] && r.motd == fields[1]
                && r.version == fields[3] && r.sub_motd == fields[7] && r.gamemode == fields[8]
                && r.guid == guid && r.source == s && r.extra == (if tail.len() == 0 {
                None
            } else {
                Some(tail)
            }) && server_id_text(r) == s
        }),
{
    let s = join_on(fields, ';') + seq![';'] + tail;
    lemma_split_join(fields, ';');
    lemma_split_concat(join_on(fields, ';'), tail, ';');
    let p = split_on(s, ';');
    let rest = split_on(tail, ';');
    lemma_split_nonempty(tail, ';');
    assert(p == fields + rest);
    assert(p.subrange(0, 12) =~= fields);
    assert(p.subrange(12, p.len() as int) =~= rest);
    assert forall|i: int| 0 <= i < 12 implies p[i] == fields[i] by {}
    lemma_server_id_round_trip(guid, s);
    lemma_join_split(tail, ';');
    if tail.len() == 0 {
        assert(rest =~= seq![Seq::<char>::empty()]);
    } else if rest == seq![Seq::<char>::empty()] {
        assert(join_on(rest, ';') == rest[0]);
    }
}

} // verus!
