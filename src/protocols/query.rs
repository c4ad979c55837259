//! Minecraft Query (UDP): a session-id handshake, a challenge token, then a
//! partial or full status reply.
use vstd::prelude::*;

use crate::bytes::{be32, from_be32, from_le16, lemma_be32_round_trip, push_be32, read_le16};
use crate::cookie::Endpoint;
use crate::protocols::{UdpAction, UdpEffect};
use crate::text::{ip_text_value, latin1, parse_ip, string_from_chars, HostAddr};

verus! {

/// A parsed status reply.
pub enum QueryResponse {
    Partial {
        motd: String,
        gametype: String,
        map: String,
        numplayers: String,
        maxplayers: String,
        host: HostAddr,
        host_port: u16,
    },
    Full {
        /// Keys are unique and kept in the order they first arrived; a key
        /// that comes again replaces its value.
        kv_section: Vec<(String, String)>,
        players: Vec<String>,
    },
}

/// The contents of a status reply.
pub enum QueryReply {
    Partial {
        motd: Seq<char>,
        gametype: Seq<char>,
        map: Seq<char>,
        numplayers: Seq<char>,
        maxplayers: Seq<char>,
        host: HostAddr,
        host_port: u16,
    },
    Full { kv_section: Seq<(Seq<char>, Seq<char>)>, players: Seq<Seq<char>> },
}

impl View for QueryResponse {
    type V = QueryReply;

    open spec fn view(&self) -> QueryReply {
        match self {
            QueryResponse::Partial {
                motd,
                gametype,
                map,
                numplayers,
                maxplayers,
                host,
                host_port,
            } => QueryReply::Partial {
                motd: motd@,
                gametype: gametype@,
                map: map@,
                numplayers: numplayers@,
                maxplayers: maxplayers@,
                host: *host,
                host_port: *host_port,
            },
            QueryResponse::Full { kv_section, players } => QueryReply::Full {
                kv_section: kv_section@.map_values(|p: (String, String)| (p.0@, p.1@)),
                players: players@.map_values(|s: String| s@),
            },
        }
    }
}

pub const KV_MARKER: [u8; 11] = [0x73, 0x70, 0x6C, 0x69, 0x74, 0x6E, 0x75, 0x6D, 0x0, 0x80, 0x0];

pub const PLAYER_MARKER: [u8; 10] = [0x1, 0x70, 0x6C, 0x61, 0x79, 0x65, 0x72, 0x5F, 0x0, 0x0];

/// Shortest full-stat reply: type and id (5), the K/V marker (11), the empty
/// key ending the K/V section (1) and the players marker (10).
pub const FULLSTAT_MIN_LEN: usize = 27;

// ---------------------------------------------------------------------------
// Wire format
/// Index of the first zero byte of `b` at or after `pos`.
pub open spec fn nul_from(b: Seq<u8>, pos: int) -> Option<int>
    decreases b.len() - pos,
{
    if pos < 0 || pos >= b.len() {
        None
    } else if b[pos] == 0 {
        Some(pos)
    } else {
        nul_from(b, pos + 1)
    }
}

/// The zero-terminated string at `pos` and the position after its
/// terminator. At the end of the data the string is empty.
pub open spec fn cstr_at(b: Seq<u8>, pos: int) -> Option<(Seq<u8>, int)> {
    if pos >= b.len() {
        Some((Seq::empty(), pos))
    } else {
        match nul_from(b, pos) {
            Some(j) => Some((b.subrange(pos, j), j + 1)),
            None => None,
        }
    }
}

pub proof fn lemma_nul_from(b: Seq<u8>, pos: int)
    requires
        0 <= pos,
    ensures
        match nul_from(b, pos) {
            Some(j) => pos <= j < b.len() && b[j] == 0 && forall|k: int|
                pos <= k < j ==> b[k] != 0,
            None => forall|k: int| pos <= k < b.len() ==> b[k] != 0,
        },
    decreases b.len() - pos,
{
    if pos < b.len() && b[pos] != 0 {
        lemma_nul_from(b, pos + 1);
    }
}

pub proof fn lemma_cstr_at(b: Seq<u8>, pos: int)
    requires
        0 <= pos <= b.len(),
    ensures
        match cstr_at(b, pos) {
            Some((s, p)) => pos <= p <= b.len() && (s.len() > 0 ==> p > pos + 1)
                && (pos < b.len() ==> p == pos + s.len() + 1 && b[pos + s.len()] == 0)
                && s == b.subrange(pos, pos + s.len()) && forall|k: int|
                0 <= k < s.len() ==> s[k] != 0,
            None => true,
        },
{
    lemma_nul_from(b, pos);
}

/// The key/value pairs from `pos` up to the empty key, and the position after it.
pub open spec fn kv_pairs_from(b: Seq<u8>, pos: int) -> Option<
    (Seq<(Seq<char>, Seq<char>)>, int),
>
    decreases b.len() - pos,
    when 0 <= pos <= b.len()
{
    match cstr_at(b, pos) {
        None => None,
        Some((k, p1)) => if k.len() == 0 {
            Some((Seq::empty(), p1))
        } else {
            proof {
                lemma_cstr_at(b, pos);
                lemma_cstr_at(b, p1);
            }
            match cstr_at(b, p1) {
                None => None,
                Some((v, p2)) => match kv_pairs_from(b, p2) {
                    None => None,
                    Some((rest, p3)) => Some((seq![(latin1(k), latin1(v))] + rest, p3)),
                },
            }
        },
    }
}

/// The player names from `pos` up to the empty name, and the position after it.
pub open spec fn players_from(b: Seq<u8>, pos: int) -> Option<(Seq<Seq<char>>, int)>
    decreases b.len() - pos,
    when 0 <= pos <= b.len()
{
    match cstr_at(b, pos) {
        None => None,
        Some((name, p1)) => if name.len() == 0 {
            Some((Seq::empty(), p1))
        } else {
            proof {
                lemma_cstr_at(b, pos);
            }
            match players_from(b, p1) {
                None => None,
                Some((rest, p2)) => Some((seq![latin1(name)] + rest, p2)),
            }
        },
    }
}

/// Whether `m` binds `k`.
pub open spec fn has_key(m: Seq<(Seq<char>, Seq<char>)>, k: Seq<char>) -> bool {
    exists|i: int| 0 <= i < m.len() && m[i].0 == k
}

/// `m` with `k` bound to `v`: in place where `k` is present, else appended.
pub open spec fn kv_insert(m: Seq<(Seq<char>, Seq<char>)>, k: Seq<char>, v: Seq<char>) -> Seq<
    (Seq<char>, Seq<char>),
> {
    if has_key(m, k) {
        let i = choose|i: int| 0 <= i < m.len() && m[i].0 == k;
        m.update(i, (k, v))
    } else {
        m.push((k, v))
    }
}

/// The pairs inserted one after the other into an empty mapping.
pub open spec fn kv_fold(pairs: Seq<(Seq<char>, Seq<char>)>) -> Seq<(Seq<char>, Seq<char>)>
    decreases pairs.len(),
{
    if pairs.len() == 0 {
        Seq::empty()
    } else {
        let last = pairs.last();
        kv_insert(kv_fold(pairs.drop_last()), last.0, last.1)
    }
}

/// No key occurs twice.
pub open spec fn keys_unique(m: Seq<(Seq<char>, Seq<char>)>) -> bool {
    forall|i: int, j: int| 0 <= i < m.len() && 0 <= j < m.len() && m[i].0 == m[j].0 ==> i == j
}

/// A partial-stat reply: five header bytes, five strings, a little-endian
/// port and the host address, which must read as an IPv4 or IPv6 address.
pub open spec fn partial_reply(b: Seq<u8>) -> Option<QueryReply> {
    let p0 = if b.len() < 5 {
        b.len() as int
    } else {
        5
    };
    match cstr_at(b, p0) {
        None => None,
        Some((motd, p1)) => match cstr_at(b, p1) {
            None => None,
            Some((gametype, p2)) => match cstr_at(b, p2) {
                None => None,
                Some((map, p3)) => match cstr_at(b, p3) {
                    None => None,
                    Some((numplayers, p4)) => match cstr_at(b, p4) {
                        None => None,
                        Some((maxplayers, p5)) => if p5 + 2 > b.len() {
                            None
                        } else {
                            match cstr_at(b, p5 + 2) {
                                None => None,
                                Some((host_ip, _)) => match ip_text_value(latin1(host_ip)) {
                                    None => None,
                                    Some(host) => Some(
                                    QueryReply::Partial {
                                        motd: latin1(motd),
                                        gametype: latin1(gametype),
                                        map: latin1(map),
                                        numplayers: latin1(numplayers),
                                        maxplayers: latin1(maxplayers),
                                        host,
                                        host_port: from_le16(b.subrange(p5, p5 + 2)),
                                    },
                                ),
                                },
                            }
                        },
                    },
                },
            },
        },
    }
}

/// A full-stat reply: sixteen bytes of header and marker, the key/value
/// pairs, up to ten bytes of players marker, then the player names.
pub open spec fn full_reply(b: Seq<u8>) -> Option<QueryReply> {
    if b.len() < FULLSTAT_MIN_LEN {
        None
    } else {
        match kv_pairs_from(b, 16) {
            None => None,
            Some((pairs, p1)) => {
                let p2 = if p1 + 10 <= b.len() {
                    p1 + 10
                } else {
                    b.len() as int
                };
                match players_from(b, p2) {
                    None => None,
                    Some((players, _)) => Some(
                        QueryReply::Full { kv_section: kv_fold(pairs), players },
                    ),
                }
            },
        }
    }
}

pub open spec fn stat_reply(b: Seq<u8>, full: bool) -> Option<QueryReply> {
    if full {
        full_reply(b)
    } else {
        partial_reply(b)
    }
}

/// The pairs as text, as the mapping of a full-stat reply holds them.
pub open spec fn pairs_view(m: Seq<(String, String)>) -> Seq<(Seq<char>, Seq<char>)> {
    m.map_values(|p: (String, String)| (p.0@, p.1@))
}

/// The challenge digits: from byte 5 to the end, without a final zero byte.
pub open spec fn token_digits(b: Seq<u8>) -> Seq<u8> {
    if b[b.len() - 1] == 0 {
        b.subrange(5, b.len() - 1)
    } else {
        b.subrange(5, b.len() as int)
    }
}

pub open spec fn is_digit(c: u8) -> bool {
    48 <= c <= 57
}

/// The value of ASCII decimal digits.
pub open spec fn digits_value(ds: Seq<u8>) -> nat
    decreases ds.len(),
{
    if ds.len() == 0 {
        0
    } else {
        digits_value(ds.drop_last()) * 10 + (ds.last() - 48) as nat
    }
}

/// The token of a challenge reply of at least six bytes: its digits must all
/// be decimal and their value must fit in 32 bits.
pub open spec fn challenge_token(b: Seq<u8>) -> Option<u32> {
    let ds = token_digits(b);
    if (forall|i: int| 0 <= i < ds.len() ==> is_digit(#[trigger] ds[i])) && digits_value(ds)
        <= u32::MAX {
        Some(digits_value(ds) as u32)
    } else {
        None
    }
}

proof fn lemma_digits_value_prefix(ds: Seq<u8>, k: int)
    requires
        0 <= k <= ds.len(),
        forall|i: int| 0 <= i < ds.len() ==> is_digit(#[trigger] ds[i]),
    ensures
        digits_value(ds.subrange(0, k)) <= digits_value(ds),
    decreases ds.len(),
{
    if k < ds.len() {
        let init = ds.drop_last();
        assert(init.subrange(0, k) =~= ds.subrange(0, k));
        lemma_digits_value_prefix(init, k);
    } else {
        assert(ds.subrange(0, k) =~= ds);
    }
}

// ---------------------------------------------------------------------------
// Reading
/// The zero-terminated string at `pos`, one character per byte, and the
/// position after its terminator.
fn read_cstr(b: &[u8], pos: usize) -> (r: Option<(Vec<char>, usize)>)
    requires
        pos <= b.len(),
    ensures
        match cstr_at(b@, pos as int) {
            None => r is None,
            Some((s, p)) => r matches Some((cs, q)) && cs@ == latin1(s) && q == p,
        },
        r matches Some((cs, q)) ==> q <= b.len() && (q > pos || (q == pos && cs@.len() == 0)),
{
    if pos >= b.len() {
        return Some((Vec::new(), pos));
    }
    let mut cs: Vec<char> = Vec::new();
    let mut i: usize = pos;
    while i < b.len()
        invariant
            pos <= i <= b.len(),
            pos < b.len(),
            cs@ == latin1(b@.subrange(pos as int, i as int)),
            forall|k: int| pos <= k < i ==> b@[k] != 0,
        decreases b.len() - i,
    {
        if b[i] == 0 {
            proof {
                lemma_nul_from(b@, pos as int);
            }
            return Some((cs, i + 1));
        }
        cs.push(b[i] as char);
        i += 1;
        assert(cs@ =~= latin1(b@.subrange(pos as int, i as int)));
    }
    proof {
        lemma_nul_from(b@, pos as int);
    }
    None
}

/// The zero-terminated string at `pos` and the position after its
/// terminator; at the end of the data, the empty string.
pub fn read_string(b: &[u8], pos: usize) -> (r: Option<(String, usize)>)
    requires
        pos <= b.len(),
    ensures
        match cstr_at(b@, pos as int) {
            None => r is None,
            Some((s, p)) => r matches Some((t, q)) && t@ == latin1(s) && q == p,
        },
        r matches Some((t, q)) ==> q <= b.len(),
{
    match read_cstr(b, pos) {
        Some((cs, q)) => Some((string_from_chars(cs.as_slice()), q)),
        None => None,
    }
}

/// Binds `k` to `v` in `m`.
fn kv_insert_exec(m: &mut Vec<(String, String)>, k: String, v: String)
    requires
        keys_unique(pairs_view(old(m)@)),
    ensures
        pairs_view(final(m)@) == kv_insert(pairs_view(old(m)@), k@, v@),
        keys_unique(pairs_view(final(m)@)),
{
    let ghost pv = pairs_view(m@);
    let mut i: usize = 0;
    while i < m.len()
        invariant
            i <= m@.len(),
            m@ == old(m)@,
            pv == pairs_view(m@),
            keys_unique(pv),
            forall|j: int| 0 <= j < i ==> pv[j].0 != k@,
        decreases m@.len() - i,
    {
        if m[i].0 == k {
            proof {
                assert(pv[i as int].0 == k@);
                assert(has_key(pv, k@));
                let c = choose|i: int| 0 <= i < pv.len() && pv[i].0 == k@;
                assert(c == i);
                assert(kv_insert(pv, k@, v@) == pv.update(i as int, (k@, v@)));
            }
            m.set(i, (k, v));
            assert(pairs_view(m@) =~= pv.update(i as int, (k@, v@)));
            return;
        }
        i += 1;
    }
    assert(!has_key(pv, k@));
    m.push((k, v));
    assert(pairs_view(m@) =~= pv.push((k@, v@)));
}

fn parse_partial(b: &[u8]) -> (r: Option<QueryResponse>)
    ensures
        match r {
            Some(q) => partial_reply(b@) == Some(q@),
            None => partial_reply(b@) is None,
        },
{
    let p0: usize = if b.len() < 5 {
        b.len()
    } else {
        5
    };
    let (motd, p1) = match read_string(b, p0) {
        Some(x) => x,
        None => return None,
    };
    let (gametype, p2) = match read_string(b, p1) {
        Some(x) => x,
        None => return None,
    };
    let (map, p3) = match read_string(b, p2) {
        Some(x) => x,
        None => return None,
    };
    let (numplayers, p4) = match read_string(b, p3) {
        Some(x) => x,
        None => return None,
    };
    let (maxplayers, p5) = match read_string(b, p4) {
        Some(x) => x,
        None => return None,
    };
    if b.len() - p5 < 2 {
        return None;
    }
    let host_port = read_le16(b, p5);
    let (host_ip, _) = match read_string(b, p5 + 2) {
        Some(x) => x,
        None => return None,
    };
    let host = match parse_ip(host_ip.as_str()) {
        Some(h) => h,
        None => return None,
    };
    Some(QueryResponse::Partial { motd, gametype, map, numplayers, maxplayers, host, host_port })
}

fn parse_full(b: &[u8]) -> (r: Option<QueryResponse>)
    ensures
        match r {
            Some(q) => full_reply(b@) == Some(q@),
            None => full_reply(b@) is None,
        },
{
    if b.len() < FULLSTAT_MIN_LEN {
        return None;
    }
    let mut kv_section: Vec<(String, String)> = Vec::new();
    let ghost mut pairs: Seq<(Seq<char>, Seq<char>)> = Seq::empty();
    let mut pos: usize = 16;
    let mut after_kv: usize = 0;
    loop
        invariant_except_break
            16 <= pos <= b.len(),
            keys_unique(pairs_view(kv_section@)),
            pairs_view(kv_section@) == kv_fold(pairs),
            kv_pairs_from(b@, 16) == match kv_pairs_from(b@, pos as int) {
                None => None,
                Some((rest, p)) => Some((pairs + rest, p)),
            },
        ensures
            after_kv <= b.len(),
            pairs_view(kv_section@) == kv_fold(pairs),
            kv_pairs_from(b@, 16) == Some((pairs, after_kv as int)),
        decreases b.len() - pos,
    {
        let (k, p1) = match read_cstr(b, pos) {
            Some(x) => x,
            None => return None,
        };
        if k.len() == 0 {
            assert(pairs + Seq::<(Seq<char>, Seq<char>)>::empty() =~= pairs);
            after_kv = p1;
            break ;
        }
        proof {
            lemma_cstr_at(b@, pos as int);
        }
        let (v, p2) = match read_cstr(b, p1) {
            Some(x) => x,
            None => return None,
        };
        let ghost entry = (k@, v@);
        proof {
            let rest_after = kv_pairs_from(b@, p2 as int);
            if let Some((rest, p)) = rest_after {
                assert(pairs + (seq![entry] + rest) =~= pairs.push(entry) + rest);
            }
            assert(pairs.push(entry).drop_last() =~= pairs);
        }
        kv_insert_exec(&mut kv_section, string_from_chars(k.as_slice()), string_from_chars(v.as_slice()));
        proof {
            pairs = pairs.push(entry);
        }
        pos = p2;
    }
    let p2: usize = if b.len() - after_kv >= 10 {
        after_kv + 10
    } else {
        b.len()
    };
    let mut players: Vec<String> = Vec::new();
    let ghost mut names: Seq<Seq<char>> = Seq::empty();
    let mut pos: usize = p2;
    loop
        invariant_except_break
            p2 <= pos <= b.len(),
            b.len() >= FULLSTAT_MIN_LEN,
            after_kv <= b.len(),
            kv_pairs_from(b@, 16) == Some((pairs, after_kv as int)),
            p2 == if after_kv + 10 <= b.len() {
                after_kv + 10
            } else {
                b.len() as int
            },
            players@.map_values(|s: String| s@) == names,
            players_from(b@, p2 as int) == match players_from(b@, pos as int) {
                None => None,
                Some((rest, p)) => Some((names + rest, p)),
            },
        ensures
            players@.map_values(|s: String| s@) == names,
            players_from(b@, p2 as int) matches Some((ns, _)) && ns == names,
        decreases b.len() - pos,
    {
        let (name, p1) = match read_cstr(b, pos) {
            Some(x) => x,
            None => return None,
        };
        if name.len() == 0 {
            assert(names + Seq::<Seq<char>>::empty() =~= names);
            break ;
        }
        let ghost entry = name@;
        proof {
            let rest_after = players_from(b@, p1 as int);
            if let Some((rest, p)) = rest_after {
                assert(names + (seq![entry] + rest) =~= names.push(entry) + rest);
            }
        }
        players.push(string_from_chars(name.as_slice()));
        proof {
            names = names.push(entry);
        }
        assert(players@.map_values(|s: String| s@) =~= names);
        pos = p1;
    }
    Some(QueryResponse::Full { kv_section, players })
}

impl QueryResponse {
    /// Parses a status reply, full or partial; `Err` exactly where the reply
    /// does not follow the wire format.
    pub fn parse_response(response: &[u8], full: bool) -> (r: Result<QueryResponse, ()>)
        ensures
            match r {
                Ok(q) => stat_reply(response@, full) == Some(q@),
                Err(_) => stat_reply(response@, full) is None,
            },
    {
        let parsed = if full {
            parse_full(response)
        } else {
            parse_partial(response)
        };
        match parsed {
            Some(q) => Ok(q),
            None => Err(()),
        }
    }
}

// ---------------------------------------------------------------------------
// The exchange
/// The session id that a probe carries and that replies must echo.
pub open spec fn session_id(cookie: u32) -> u32 {
    cookie & 0x0F0F0F0F
}

/// The handshake probe: magic, type 9, session id.
pub open spec fn query_probe(cookie: u32) -> Seq<u8> {
    seq![0xFEu8, 0xFDu8, 0x09u8] + be32(session_id(cookie))
}

/// The status request that answers a challenge: magic, type 0, session id,
/// token, and four bytes of padding when the full status is asked for.
pub open spec fn stat_request(cookie: u32, token: u32, fullstat: bool) -> Seq<u8> {
    seq![0xFEu8, 0xFDu8, 0x00u8] + be32(session_id(cookie)) + be32(token) + if fullstat {
        seq![0u8, 0u8, 0u8, 0u8]
    } else {
        Seq::empty()
    }
}

/// What a Query reply leads to. Replies under five bytes, with another
/// session id, of an unknown type, or that do not parse, are dropped.
pub open spec fn query_effect(b: Seq<u8>, cookie: u32, fullstat: bool) -> UdpEffect {
    if b.len() < 5 || b.subrange(1, 5) != be32(session_id(cookie)) {
        UdpEffect::Drop
    } else if b[0] == 0x09 {
        if b.len() < 6 {
            UdpEffect::Drop
        } else {
            match challenge_token(b) {
                Some(token) => UdpEffect::SendBack(stat_request(cookie, token, fullstat)),
                None => UdpEffect::Drop,
            }
        }
    } else if b[0] == 0x00 {
        match stat_reply(b, fullstat) {
            Some(r) => UdpEffect::Query(r),
            None => UdpEffect::Drop,
        }
    } else {
        UdpEffect::Drop
    }
}

/// The challenge token of a reply of at least six bytes.
fn read_token(b: &[u8]) -> (r: Option<u32>)
    requires
        b.len() >= 6,
    ensures
        r == challenge_token(b@),
{
    let end: usize = if b[b.len() - 1] == 0 {
        b.len() - 1
    } else {
        b.len()
    };
    let ghost ds = token_digits(b@);
    assert(ds =~= b@.subrange(5, end as int));
    let mut token: u32 = 0;
    let mut i: usize = 5;
    while i < end
        invariant
            5 <= i <= end <= b.len(),
            ds == token_digits(b@),
            ds == b@.subrange(5, end as int),
            token == digits_value(ds.subrange(0, i - 5)),
            forall|k: int| 0 <= k < i - 5 ==> is_digit(#[trigger] ds[k]),
        decreases end - i,
    {
        let c = b[i];
        if c < 48 || c > 57 {
            assert(!is_digit(ds[i - 5]));
            return None;
        }
        let d = (c - 48) as u32;
        let ghost next = ds.subrange(0, i - 5 + 1);
        assert(next.drop_last() =~= ds.subrange(0, i - 5));
        if token > (u32::MAX - d) / 10 {
            proof {
                assert(token * 10 + d > u32::MAX) by (nonlinear_arith)
                    requires
                        token > (u32::MAX - d) / 10,
                        d <= 9,
                ;
                if forall|k: int| 0 <= k < ds.len() ==> is_digit(#[trigger] ds[k]) {
                    lemma_digits_value_prefix(ds, i - 5 + 1);
                }
            }
            return None;
        }
        assert(token * 10 + d <= u32::MAX) by (nonlinear_arith)
            requires
                token <= (u32::MAX - d) / 10,
                d <= 9,
        ;
        token = token * 10 + d;
        i += 1;
    }
    assert(ds.subrange(0, i - 5) =~= ds);
    Some(token)
}

/// The Query protocol; `fullstat` asks for the full status.
pub struct MinecraftQueryProtocol {
    pub fullstat: bool,
}

impl MinecraftQueryProtocol {
    pub fn new(fullstat: bool) -> (r: Self)
        ensures
            r.fullstat == fullstat,
    {
        MinecraftQueryProtocol { fullstat }
    }

    pub fn name(&self) -> (r: String)
        ensures
            r@ == "Query"@,
    {
        "Query".to_string()
    }

    /// The probe for a target whose cookie is `cookie`.
    pub fn initial_packet(&self, _addr: &Endpoint, cookie: u32) -> (r: Vec<u8>)
        ensures
            r@ == query_probe(cookie),
    {
        let id = cookie & 0x0F0F0F0F;
        let mut packet: Vec<u8> = Vec::new();
        packet.push(0xFE);
        packet.push(0xFD);
        packet.push(0x09);
        push_be32(&mut packet, id);
        assert(packet@ =~= query_probe(cookie));
        packet
    }

    /// What to do with a reply from a source whose cookie is `cookie`.
    pub fn handle_packet(&self, cookie: u32, packet: &[u8]) -> (r: UdpAction)
        ensures
            r@ == query_effect(packet@, cookie, self.fullstat),
    {
        if packet.len() < 5 {
            return UdpAction::Drop;
        }
        let id = cookie & 0x0F0F0F0F;
        let mut expected: Vec<u8> = Vec::new();
        push_be32(&mut expected, id);
        assert(expected@ =~= be32(session_id(cookie)));
        if !crate::bytes::bytes_at(packet, 1, expected.as_slice()) {
            return UdpAction::Drop;
        }
        if packet[0] == 0x09 {
            if packet.len() < 6 {
                return UdpAction::Drop;
            }
            match read_token(packet) {
                Some(token) => {
                    let mut reply: Vec<u8> = Vec::new();
                    reply.push(0xFE);
                    reply.push(0xFD);
                    reply.push(0x00);
                    push_be32(&mut reply, id);
                    push_be32(&mut reply, token);
                    if self.fullstat {
                        reply.push(0);
                        reply.push(0);
                        reply.push(0);
                        reply.push(0);
                    }
                    assert(reply@ =~= stat_request(cookie, token, self.fullstat));
                    UdpAction::SendBack(reply)
                },
                None => UdpAction::Drop,
            }
        } else if packet[0] == 0x00 {
            match QueryResponse::parse_response(packet, self.fullstat) {
                Ok(q) => UdpAction::Query(q),
                Err(_) => UdpAction::Drop,
            }
        } else {
            UdpAction::Drop
        }
    }
}

// ---------------------------------------------------------------------------
// Laws
/// The probe carries the session id `cookie & 0x0F0F0F0F`; its low 28 bits
/// are the cookie's masked bits.
pub proof fn lemma_probe_session_id(cookie: u32)
    ensures
        from_be32(query_probe(cookie).subrange(3, 7)) == cookie & 0x0F0F0F0F,
        from_be32(query_probe(cookie).subrange(3, 7)) & 0x0FFF_FFFF == cookie & 0x0F0F0F0F,
{
    let id = cookie & 0x0F0F0F0F;
    assert(query_probe(cookie).subrange(3, 7) =~= be32(id));
    lemma_be32_round_trip(id);
    assert((cookie & 0x0F0F0F0F) & 0x0FFF_FFFF == cookie & 0x0F0F0F0F) by (bit_vector);
}

/// A challenge reply with the right session id is dropped at five bytes;
/// at six, with a digit or the terminator after the id, it is answered.
pub proof fn lemma_challenge_lengths(b: Seq<u8>, cookie: u32, fullstat: bool)
    requires
        b.len() >= 5,
        b[0] == 0x09,
        b.subrange(1, 5) == be32(session_id(cookie)),
    ensures
        b.len() == 5 ==> query_effect(b, cookie, fullstat) == UdpEffect::Drop,
        b.len() == 6 && (b[5] == 0 || is_digit(b[5])) ==> query_effect(
            b,
            cookie,
            fullstat,
        ) is SendBack,
{
    if b.len() == 6 {
        let ds = token_digits(b);
        if b[5] == 0 {
            assert(ds.len() == 0);
        } else if is_digit(b[5]) {
            assert(ds.len() == 1);
            assert(ds[0] == b[5]);
            assert(digits_value(ds.drop_last()) == 0);
            assert(digits_value(ds) == (b[5] - 48) as nat);
        }
    }
}

/// A full-stat reply whose K/V section ends at once has an empty mapping;
/// at the shortest length it parses, with no players.
pub proof fn lemma_empty_kv_section(b: Seq<u8>)
    requires
        b.len() >= FULLSTAT_MIN_LEN,
        b[16] == 0,
    ensures
        full_reply(b) matches Some(QueryReply::Full { kv_section, .. }) ==> kv_section.len() == 0,
        b.len() == FULLSTAT_MIN_LEN ==> full_reply(b) == Some(
            QueryReply::Full { kv_section: Seq::empty(), players: Seq::empty() },
        ),
{
    assert(b.subrange(16, 16) =~= Seq::<u8>::empty());
    assert(nul_from(b, 16) == Some(16int));
    assert(kv_pairs_from(b, 16) == Some((Seq::<(Seq<char>, Seq<char>)>::empty(), 17int)));
    assert(kv_fold(Seq::<(Seq<char>, Seq<char>)>::empty()) == Seq::<(Seq<char>, Seq<char>)>::empty());
}

/// A zero-terminated string on the wire.
pub open spec fn cstr_wire(s: Seq<u8>) -> Seq<u8> {
    s.push(0)
}

/// Key/value pairs on the wire, each key and value zero-terminated.
pub open spec fn kv_wire(pairs: Seq<(Seq<u8>, Seq<u8>)>) -> Seq<u8>
    decreases pairs.len(),
{
    if pairs.len() == 0 {
        Seq::empty()
    } else {
        cstr_wire(pairs[0].0) + cstr_wire(pairs[0].1) + kv_wire(pairs.drop_first())
    }
}

/// Player names on the wire, each zero-terminated.
pub open spec fn names_wire(names: Seq<Seq<u8>>) -> Seq<u8>
    decreases names.len(),
{
    if names.len() == 0 {
        Seq::empty()
    } else {
        cstr_wire(names[0]) + names_wire(names.drop_first())
    }
}

/// A full-stat reply: five header bytes, the K/V marker, the pairs and the
/// empty key, the players marker, the names and the empty name.
pub open spec fn fullstat_wire(
    header: Seq<u8>,
    pairs: Seq<(Seq<u8>, Seq<u8>)>,
    names: Seq<Seq<u8>>,
) -> Seq<u8> {
    header + KV_MARKER@ + kv_wire(pairs) + seq![0u8] + PLAYER_MARKER@ + names_wire(names) + seq![
        0u8,
    ]
}

pub open spec fn no_zero(s: Seq<u8>) -> bool {
    forall|i: int| 0 <= i < s.len() ==> s[i] != 0
}

pub open spec fn pairs_text(pairs: Seq<(Seq<u8>, Seq<u8>)>) -> Seq<(Seq<char>, Seq<char>)> {
    pairs.map_values(|p: (Seq<u8>, Seq<u8>)| (latin1(p.0), latin1(p.1)))
}

pub open spec fn names_text(names: Seq<Seq<u8>>) -> Seq<Seq<char>> {
    names.map_values(|n: Seq<u8>| latin1(n))
}

proof fn lemma_nul_at(b: Seq<u8>, pos: int, j: int)
    requires
        0 <= pos <= j < b.len(),
        b[j] == 0,
        forall|k: int| pos <= k < j ==> b[k] != 0,
    ensures
        nul_from(b, pos) == Some(j),
    decreases j - pos,
{
    if pos < j {
        lemma_nul_at(b, pos + 1, j);
    }
}

/// A string without zero bytes followed by a zero reads back.
proof fn lemma_cstr_exact(b: Seq<u8>, pos: int, s: Seq<u8>)
    requires
        0 <= pos,
        pos + s.len() < b.len(),
        b.subrange(pos, pos + s.len()) == s,
        b[pos + s.len()] == 0,
        no_zero(s),
    ensures
        cstr_at(b, pos) == Some((s, pos + s.len() + 1)),
{
    assert forall|k: int| pos <= k < pos + s.len() implies b[k] != 0 by {
        assert(b[k] == b.subrange(pos, pos + s.len())[k - pos]);
    }
    lemma_nul_at(b, pos, pos + s.len());
}

proof fn lemma_kv_wire_reads(
    b: Seq<u8>,
    pos: int,
    pairs: Seq<(Seq<u8>, Seq<u8>)>,
)
    requires
        0 <= pos,
        pos + kv_wire(pairs).len() < b.len(),
        b.subrange(pos, pos + kv_wire(pairs).len()) == kv_wire(pairs),
        b[pos + kv_wire(pairs).len()] == 0,
        forall|i: int|
            0 <= i < pairs.len() ==> #[trigger] pairs[i].0.len() > 0 && no_zero(pairs[i].0)
                && no_zero(pairs[i].1),
    ensures
        kv_pairs_from(b, pos) == Some((pairs_text(pairs), pos + kv_wire(pairs).len() + 1)),
    decreases pairs.len(),
{
    let w = kv_wire(pairs);
    if pairs.len() == 0 {
        lemma_cstr_exact(b, pos, Seq::empty());
        assert(pairs_text(pairs) =~= Seq::empty());
    } else {
        let k = pairs[0].0;
        let v = pairs[0].1;
        let rest = pairs.drop_first();
        let wr = kv_wire(rest);
        assert(w == cstr_wire(k) + cstr_wire(v) + wr);
        let p1 = pos + k.len() + 1;
        let p2 = p1 + v.len() + 1;
        assert(b.subrange(pos, pos + k.len()) =~= k) by {
            assert(b.subrange(pos, pos + k.len()) =~= w.subrange(0, k.len() as int));
        }
        assert(b[pos + k.len()] == w[k.len() as int]);
        lemma_cstr_exact(b, pos, k);
        assert(b.subrange(p1, p1 + v.len()) =~= v) by {
            assert(b.subrange(p1, p1 + v.len()) =~= w.subrange(k.len() + 1 as int, k.len() + 1 + v.len() as int));
        }
        assert(b[p1 + v.len()] == w[k.len() + 1 + v.len() as int]);
        lemma_cstr_exact(b, p1, v);
        assert(b.subrange(p2, p2 + wr.len()) =~= wr) by {
            assert(b.subrange(p2, p2 + wr.len()) =~= w.subrange(p2 - pos, w.len() as int));
        }
        assert forall|i: int| 0 <= i < rest.len() implies #[trigger] rest[i].0.len() > 0 && no_zero(
            rest[i].0,
        ) && no_zero(rest[i].1) by {
            assert(rest[i] == pairs[i + 1]);
        }
        lemma_kv_wire_reads(b, p2, rest);
        assert(pairs_text(pairs) =~= seq![(latin1(k), latin1(v))] + pairs_text(rest));
    }
}

proof fn lemma_names_wire_reads(b: Seq<u8>, pos: int, names: Seq<Seq<u8>>)
    requires
        0 <= pos,
        pos + names_wire(names).len() < b.len(),
        b.subrange(pos, pos + names_wire(names).len()) == names_wire(names),
        b[pos + names_wire(names).len()] == 0,
        forall|i: int| 0 <= i < names.len() ==> #[trigger] names[i].len() > 0 && no_zero(names[i]),
    ensures
        players_from(b, pos) == Some((names_text(names), pos + names_wire(names).len() + 1)),
    decreases names.len(),
{
    let w = names_wire(names);
    if names.len() == 0 {
        lemma_cstr_exact(b, pos, Seq::empty());
        assert(names_text(names) =~= Seq::empty());
    } else {
        let n = names[0];
        let rest = names.drop_first();
        let wr = names_wire(rest);
        let p1 = pos + n.len() + 1;
        assert(b.subrange(pos, pos + n.len()) =~= n) by {
            assert(b.subrange(pos, pos + n.len()) =~= w.subrange(0, n.len() as int));
        }
        assert(b[pos + n.len()] == w[n.len() as int]);
        lemma_cstr_exact(b, pos, n);
        assert(b.subrange(p1, p1 + wr.len()) =~= wr) by {
            assert(b.subrange(p1, p1 + wr.len()) =~= w.subrange(n.len() + 1 as int, w.len() as int));
        }
        assert forall|i: int| 0 <= i < rest.len() implies #[trigger] rest[i].len() > 0 && no_zero(
            rest[i],
        ) by {
            assert(rest[i] == names[i + 1]);
        }
        lemma_names_wire_reads(b, p1, rest);
        assert(names_text(names) =~= seq![latin1(n)] + names_text(rest));
    }
}

proof fn lemma_fold_unique(m: Seq<(Seq<char>, Seq<char>)>)
    requires
        keys_unique(m),
    ensures
        kv_fold(m) == m,
    decreases m.len(),
{
    if m.len() > 0 {
        let init = m.drop_last();
        assert(keys_unique(init));
        lemma_fold_unique(init);
        if has_key(init, m.last().0) {
            let i = choose|i: int| 0 <= i < init.len() && init[i].0 == m.last().0;
            assert(m[i].0 == m[m.len() - 1].0);
        }
        assert(init.push(m.last()) =~= m);
    }
}

/// A full-stat reply built from a mapping (distinct, non-empty keys) and
/// a list of non-empty player names, none holding a zero byte, parses back
/// to that mapping and those names.
pub proof fn lemma_fullstat_round_trip(
    header: Seq<u8>,
    pairs: Seq<(Seq<u8>, Seq<u8>)>,
    names: Seq<Seq<u8>>,
)
    requires
        header.len() == 5,
        forall|i: int|
            0 <= i < pairs.len() ==> #[trigger] pairs[i].0.len() > 0 && no_zero(pairs[i].0)
                && no_zero(pairs[i].1),
        keys_unique(pairs_text(pairs)),
        forall|i: int| 0 <= i < names.len() ==> #[trigger] names[i].len() > 0 && no_zero(names[i]),
    ensures
        full_reply(fullstat_wire(header, pairs, names)) == Some(
            QueryReply::Full { kv_section: pairs_text(pairs), players: names_text(names) },
        ),
{
    let b = fullstat_wire(header, pairs, names);
    let kw = kv_wire(pairs);
    let nw = names_wire(names);
    let kv_end: int = 16 + kw.len() as int;
    assert(b.subrange(16, kv_end) =~= kw);
    assert(b[kv_end] == 0);
    lemma_kv_wire_reads(b, 16, pairs);
    let p2: int = kv_end + 1 + 10;
    assert(b.len() == p2 + nw.len() + 1);
    assert(b.subrange(p2, p2 + nw.len()) =~= nw);
    assert(b[p2 + nw.len()] == 0);
    lemma_names_wire_reads(b, p2, names);
    lemma_fold_unique(pairs_text(pairs));
}

} // verus!
