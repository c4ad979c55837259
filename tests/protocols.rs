use badscan::cookie::{cookie, Endpoint};
use badscan::protocols::query::{MinecraftQueryProtocol, QueryResponse};
use badscan::protocols::raknet::{RaknetProtocol, RaknetReponse, MAGIC};
use badscan::protocols::slp::MinecraftSlpProtocol;
use badscan::protocols::{Protocol, TcpError, TcpProtocol, UdpAction, UdpProtocol};
use badscan::udpscanner::scan_probe;
use badscan::text::HostAddr;
use badscan::utils::write_varint;

fn query_reply(kind: u8, id: [u8; 4], body: &[u8]) -> Vec<u8> {
    let mut p = vec![kind];
    p.extend_from_slice(&id);
    p.extend_from_slice(body);
    p
}

#[test]
fn query_partial_scenario() {
    let proto = MinecraftQueryProtocol::new(false);
    let reply = query_reply(
        0x00,
        [0x01, 0x03, 0x03, 0x05],
        b"a motd\0survival\0world\x003\x0010\0\x61\x63203.0.113.1\0",
    );
    match proto.handle_packet(0x01030305, &reply) {
        UdpAction::Query(QueryResponse::Partial {
            motd,
            gametype,
            map,
            numplayers,
            maxplayers,
            host,
            host_port,
        }) => {
            assert_eq!(motd, "a motd");
            assert_eq!(gametype, "survival");
            assert_eq!(map, "world");
            assert_eq!(numplayers, "3");
            assert_eq!(maxplayers, "10");
            assert_eq!(host, HostAddr::V4(0xCB007101));
            assert_eq!(host_port, 25441);
        }
        _ => panic!("partial stat not delivered"),
    }
}

#[test]
fn query_session_id_from_cookie() {
    let proto = MinecraftQueryProtocol::new(false);
    let target = Endpoint::new(0xC000020A, 25565);
    let probe = proto.initial_packet(&target, 0xF1F3F3F5);
    assert_eq!(probe, vec![0xFE, 0xFD, 0x09, 0x01, 0x03, 0x03, 0x05]);
}

#[test]
fn query_challenge_scenario() {
    let proto = MinecraftQueryProtocol::new(false);
    // The token 9513307 is 0x0091295B on the wire.
    let reply = query_reply(0x09, [0x01, 0x03, 0x03, 0x05], b"9513307\0");
    match proto.handle_packet(0x01030305, &reply) {
        UdpAction::SendBack(bytes) => assert_eq!(
            bytes,
            vec![0xFE, 0xFD, 0x00, 0x01, 0x03, 0x03, 0x05, 0x00, 0x91, 0x29, 0x5B]
        ),
        _ => panic!("challenge not answered"),
    }
    // The bytes 00 91 2B 1B are the token 9513755.
    let reply = query_reply(0x09, [0x01, 0x03, 0x03, 0x05], b"9513755\0");
    match proto.handle_packet(0x01030305, &reply) {
        UdpAction::SendBack(bytes) => assert_eq!(
            bytes,
            vec![0xFE, 0xFD, 0x00, 0x01, 0x03, 0x03, 0x05, 0x00, 0x91, 0x2B, 0x1B]
        ),
        _ => panic!("challenge not answered"),
    }
}

#[test]
fn query_challenge_fullstat_pads() {
    let proto = MinecraftQueryProtocol::new(true);
    let reply = query_reply(0x09, [0x01, 0x03, 0x03, 0x05], b"42\0");
    match proto.handle_packet(0x01030305, &reply) {
        UdpAction::SendBack(bytes) => assert_eq!(
            bytes,
            vec![0xFE, 0xFD, 0x00, 0x01, 0x03, 0x03, 0x05, 0, 0, 0, 42, 0, 0, 0, 0]
        ),
        _ => panic!("challenge not answered"),
    }
}

#[test]
fn query_challenge_six_bytes_accepted_five_rejected() {
    let proto = MinecraftQueryProtocol::new(false);
    let six = query_reply(0x09, [0x01, 0x03, 0x03, 0x05], b"\0");
    assert!(matches!(proto.handle_packet(0x01030305, &six), UdpAction::SendBack(_)));
    let five = query_reply(0x09, [0x01, 0x03, 0x03, 0x05], b"");
    assert!(matches!(proto.handle_packet(0x01030305, &five), UdpAction::Drop));
}

#[test]
fn query_wrong_session_or_bad_token_dropped() {
    let proto = MinecraftQueryProtocol::new(false);
    let other = query_reply(0x09, [0x01, 0x03, 0x03, 0x06], b"1\0");
    assert!(matches!(proto.handle_packet(0x01030305, &other), UdpAction::Drop));
    let letters = query_reply(0x09, [0x01, 0x03, 0x03, 0x05], b"12a\0");
    assert!(matches!(proto.handle_packet(0x01030305, &letters), UdpAction::Drop));
    let too_big = query_reply(0x09, [0x01, 0x03, 0x03, 0x05], b"4294967296\0");
    assert!(matches!(proto.handle_packet(0x01030305, &too_big), UdpAction::Drop));
    let largest = query_reply(0x09, [0x01, 0x03, 0x03, 0x05], b"4294967295\0");
    match proto.handle_packet(0x01030305, &largest) {
        UdpAction::SendBack(bytes) => assert_eq!(&bytes[7..11], &[0xFF, 0xFF, 0xFF, 0xFF]),
        _ => panic!("largest token refused"),
    }
    let unknown = query_reply(0x07, [0x01, 0x03, 0x03, 0x05], b"");
    assert!(matches!(proto.handle_packet(0x01030305, &unknown), UdpAction::Drop));
}

fn fullstat(pairs: &[(&str, &str)], players: &[&str]) -> Vec<u8> {
    let mut b = vec![0x00, 0x01, 0x03, 0x03, 0x05];
    b.extend_from_slice(&[0x73, 0x70, 0x6C, 0x69, 0x74, 0x6E, 0x75, 0x6D, 0x0, 0x80, 0x0]);
    for (k, v) in pairs {
        b.extend_from_slice(k.as_bytes());
        b.push(0);
        b.extend_from_slice(v.as_bytes());
        b.push(0);
    }
    b.push(0);
    b.extend_from_slice(&[0x1, 0x70, 0x6C, 0x61, 0x79, 0x65, 0x72, 0x5F, 0x0, 0x0]);
    for p in players {
        b.extend_from_slice(p.as_bytes());
        b.push(0);
    }
    b.push(0);
    b
}

#[test]
fn fullstat_round_trip() {
    let bytes = fullstat(
        &[("hostname", "A Server"), ("numplayers", "2"), ("map", "world")],
        &["alice", "bob"],
    );
    match QueryResponse::parse_response(&bytes, true) {
        Ok(QueryResponse::Full { kv_section, players }) => {
            assert_eq!(
                kv_section,
                vec![
                    ("hostname".to_string(), "A Server".to_string()),
                    ("numplayers".to_string(), "2".to_string()),
                    ("map".to_string(), "world".to_string()),
                ]
            );
            assert_eq!(players, vec!["alice".to_string(), "bob".to_string()]);
        }
        _ => panic!("full stat not parsed"),
    }
}

#[test]
fn fullstat_repeated_key_keeps_last_value() {
    let bytes = fullstat(&[("map", "a"), ("motd", "m"), ("map", "b")], &[]);
    match QueryResponse::parse_response(&bytes, true) {
        Ok(QueryResponse::Full { kv_section, players }) => {
            assert_eq!(
                kv_section,
                vec![
                    ("map".to_string(), "b".to_string()),
                    ("motd".to_string(), "m".to_string())
                ]
            );
            assert!(players.is_empty());
        }
        _ => panic!("full stat not parsed"),
    }
}

#[test]
fn fullstat_empty_kv_section() {
    let mut bytes = fullstat(&[], &[]);
    bytes.pop();
    assert_eq!(bytes.len(), 27);
    match QueryResponse::parse_response(&bytes, true) {
        Ok(QueryResponse::Full { kv_section, players }) => {
            assert!(kv_section.is_empty());
            assert!(players.is_empty());
        }
        _ => panic!("empty full stat not parsed"),
    }
    bytes.pop();
    assert!(QueryResponse::parse_response(&bytes, true).is_err());
}

#[test]
fn fullstat_lenient_markers_and_unterminated_text() {
    let mut bytes = fullstat(&[("k", "v")], &["p"]);
    bytes[6] = b'X';
    assert!(QueryResponse::parse_response(&bytes, true).is_ok());
    let mut cut = fullstat(&[("key", "value")], &[]);
    cut.truncate(20);
    cut.extend_from_slice(b"abcdefgh");
    assert!(QueryResponse::parse_response(&cut, true).is_err());
}

fn pong(cookie_hi: u32, cookie_lo: u32, guid: u64, id: &[u8]) -> Vec<u8> {
    let mut p = vec![0x1C];
    p.extend_from_slice(&cookie_hi.to_be_bytes());
    p.extend_from_slice(&cookie_lo.to_be_bytes());
    p.extend_from_slice(&guid.to_be_bytes());
    p.extend_from_slice(&MAGIC);
    p.extend_from_slice(&(id.len() as u16).to_be_bytes());
    p.extend_from_slice(id);
    p
}

#[test]
fn raknet_probe_carries_cookie_twice() {
    let target = Endpoint::new(0xC000020A, 19132);
    let probe = RaknetProtocol::new().initial_packet(&target, 0xDEADBEEF);
    let mut expected = vec![0x01, 0xDE, 0xAD, 0xBE, 0xEF, 0xDE, 0xAD, 0xBE, 0xEF];
    expected.extend_from_slice(&MAGIC);
    expected.extend_from_slice(&[0; 8]);
    assert_eq!(probe, expected);
}

#[test]
fn raknet_record_accepted() {
    let id = b"MCPE;Dedicated;390;1.14.60;0;10;13253860892328930865;Bedrock level;Survival;1;19132;19133;";
    let reply = pong(0xDEADBEEF, 0xDEADBEEF, 13253860892328930865, id);
    match RaknetProtocol::new().handle_packet(0xDEADBEEF, &reply) {
        UdpAction::Raknet(r) => {
            assert_eq!(r.edition, "MCPE");
            assert_eq!(r.motd, "Dedicated");
            assert_eq!(r.protocol, 390);
            assert_eq!(r.version, "1.14.60");
            assert_eq!(r.playercount, 0);
            assert_eq!(r.maxplayers, 10);
            assert_eq!(r.guid, 13253860892328930865);
            assert_eq!(r.sub_motd, "Bedrock level");
            assert_eq!(r.gamemode, "Survival");
            assert_eq!(r.num_gamemode, 1);
            assert_eq!(r.port_ipv4, 19132);
            assert_eq!(r.port_ipv6, 19133);
            assert_eq!(r.extra, None);
            assert_eq!(r.source.as_bytes(), &id[..]);
        }
        _ => panic!("pong not accepted"),
    }
}

#[test]
fn raknet_guid_mismatch_dropped() {
    let id = b"MCPE;Dedicated;390;1.14.60;0;10;12345;Bedrock level;Survival;1;19132;19133;";
    let reply = pong(0xDEADBEEF, 0xDEADBEEF, 54321, id);
    assert!(matches!(RaknetProtocol::new().handle_packet(0xDEADBEEF, &reply), UdpAction::Drop));
}

#[test]
fn raknet_wrong_cookie_half_dropped() {
    let id = b"MCPE;m;1;v;0;10;7;s;g;1;1;2;";
    let good = pong(0xDEADBEEF, 0xDEADBEEF, 7, id);
    assert!(matches!(RaknetProtocol::new().handle_packet(0xDEADBEEF, &good), UdpAction::Raknet(_)));
    let hi = pong(0xDEADBEEE, 0xDEADBEEF, 7, id);
    assert!(matches!(RaknetProtocol::new().handle_packet(0xDEADBEEF, &hi), UdpAction::Drop));
    let lo = pong(0xDEADBEEF, 0x0EADBEEF, 7, id);
    assert!(matches!(RaknetProtocol::new().handle_packet(0xDEADBEEF, &lo), UdpAction::Drop));
}

#[test]
fn raknet_length_boundary() {
    let at_min = pong(1, 1, 0, b"x");
    assert_eq!(at_min.len(), 36);
    assert!(matches!(RaknetProtocol::new().handle_packet(1, &at_min), UdpAction::Drop));
    let short = &at_min[..35];
    assert!(matches!(RaknetProtocol::new().handle_packet(1, short), UdpAction::Drop));
    let mut missing = pong(1, 1, 0, b"abc");
    missing.pop();
    assert!(matches!(RaknetProtocol::new().handle_packet(1, &missing), UdpAction::Drop));
    let not_utf8 = pong(1, 1, 0, &[0xFF, 0xFE]);
    assert!(matches!(RaknetProtocol::new().handle_packet(1, &not_utf8), UdpAction::Drop));
}

#[test]
fn raknet_extra_fields() {
    let none = RaknetReponse::new(5, "E;M;1;V;-3;+4;5;S;G;-0;1;65535;".to_string()).unwrap();
    assert_eq!(none.extra, None);
    assert_eq!(none.playercount, -3);
    assert_eq!(none.maxplayers, 4);
    assert_eq!(none.num_gamemode, 0);
    let bare = RaknetReponse::new(5, "E;M;1;V;3;4;5;S;G;0;1;2".to_string()).unwrap();
    assert_eq!(bare.extra, Some("".to_string()));
    let more = RaknetReponse::new(5, "E;M;1;V;3;4;5;S;G;0;1;2;x;;y".to_string()).unwrap();
    assert_eq!(more.extra, Some("x;;y".to_string()));
    let empties = RaknetReponse::new(5, "E;M;1;V;3;4;5;S;G;0;1;2;;".to_string()).unwrap();
    assert_eq!(empties.extra, Some(";".to_string()));
}

#[test]
fn raknet_bad_fields_rejected() {
    assert!(RaknetReponse::new(5, "E;M;1;V;3;4;5;S;G;0;1".to_string()).is_err());
    assert!(RaknetReponse::new(5, "E;M;-1;V;3;4;5;S;G;0;1;2".to_string()).is_err());
    assert!(RaknetReponse::new(5, "E;M;1;V;3;4;5;S;G;0;65536;2".to_string()).is_err());
    assert!(RaknetReponse::new(5, "E;M;1;V;3;4;05;S;G;0;1;2".to_string()).is_err());
    assert!(RaknetReponse::new(5, "E;M;1;V; 3;4;5;S;G;0;1;2".to_string()).is_err());
    assert!(RaknetReponse::new(5, "E;M;1;V;+;4;5;S;G;0;1;2".to_string()).is_err());
    let big = RaknetReponse::new(5, "E;M;1;V;-9223372036854775808;9223372036854775807;5;S;G;0;1;2".to_string()).unwrap();
    assert_eq!(big.playercount, isize::MIN);
    assert_eq!(big.maxplayers, isize::MAX);
    assert!(RaknetReponse::new(5, "E;M;1;V;9223372036854775808;4;5;S;G;0;1;2".to_string()).is_err());
}

#[test]
fn slp_hello_packet() {
    let slp = MinecraftSlpProtocol::new();
    let target = Endpoint::new(0xC000020A, 25565);
    assert_eq!(
        slp.initial_packet(&target),
        Some(vec![0x0A, 0x00, 0x2F, 0x04, 0x74, 0x65, 0x73, 0x74, 0x00, 0x03, 0x01, 0x01, 0x00])
    );
    assert_eq!(slp.default_port(), 25565);
    assert_eq!(slp.name(), "SLP");
}

#[test]
fn varint_encoding() {
    let mut out = vec![];
    write_varint(&mut out, 0);
    assert_eq!(out, vec![0]);
    let mut out = vec![];
    write_varint(&mut out, 300);
    assert_eq!(out, vec![0xAC, 0x02]);
    let mut out = vec![7];
    write_varint(&mut out, -1);
    assert_eq!(out, vec![7, 0xFF, 0xFF, 0xFF, 0xFF, 0x0F]);
    let mut out = vec![];
    write_varint(&mut out, 127);
    assert_eq!(out, vec![0x7F]);
}

#[test]
fn protocol_names_and_ports() {
    let q = UdpProtocol::McQuery { fullstat: true };
    assert_eq!(q.name(), "Query");
    assert_eq!(q.default_port(), 25565);
    assert_eq!(UdpProtocol::Raknet.name(), "Raknet");
    assert_eq!(UdpProtocol::Raknet.default_port(), 19132);
    let tcp = Protocol::Tcp(TcpProtocol::Slp(MinecraftSlpProtocol::new()));
    assert_eq!(tcp.name(), "SLP");
    assert_eq!(tcp.default_port(), 25565);
    let d = <Protocol as Default>::default();
    assert_eq!(d.name(), "Query");
    assert_eq!(TcpError::Incomplete.message(), "The stream wasn't yet complete");
}

#[test]
fn cookie_is_deterministic() {
    let target = Endpoint::new(0xC000020A, 25565);
    assert_eq!(cookie(&target, 0, 0), cookie(&target, 0, 0));
    assert_eq!(cookie(&target, 42, 1_700_000_000_000), cookie(&target.clone(), 42, 1_700_000_000_000));
    let q = UdpProtocol::McQuery { fullstat: false };
    let c = cookie(&target, 0, 0);
    let probe = scan_probe(&q, &target, 0, 0);
    assert_eq!(&probe[3..7], &(c & 0x0F0F0F0F).to_be_bytes());
    let r = scan_probe(&UdpProtocol::Raknet, &target, 0, 0);
    assert_eq!(&r[1..5], &c.to_be_bytes());
    assert_eq!(&r[5..9], &c.to_be_bytes());
}

#[test]
fn cookie_depends_on_every_input() {
    let a = Endpoint::new(0xC000020A, 25565);
    let b = Endpoint::new(0xC000020B, 25565);
    let c = Endpoint::new(0xC000020A, 25566);
    let base = cookie(&a, 1, 2);
    assert_ne!(base, cookie(&b, 1, 2));
    assert_ne!(base, cookie(&c, 1, 2));
    assert_ne!(base, cookie(&a, 3, 2));
    assert_ne!(base, cookie(&a, 1, 4));
}

#[test]
fn query_partial_host_must_be_an_address() {
    let proto = MinecraftQueryProtocol::new(false);
    let bad = query_reply(0x00, [0x01, 0x03, 0x03, 0x05], b"m\0g\0w\x003\x0010\0\x61\x63x\0");
    assert!(matches!(proto.handle_packet(0x01030305, &bad), UdpAction::Drop));
    assert!(QueryResponse::parse_response(&bad, false).is_err());
    let v6 = query_reply(0x00, [0x01, 0x03, 0x03, 0x05], b"m\0g\0w\x003\x0010\0\x61\x63::1\0");
    match QueryResponse::parse_response(&v6, false) {
        Ok(QueryResponse::Partial { host, host_port, .. }) => {
            assert_eq!(host, HostAddr::V6(1));
            assert_eq!(host_port, 25441);
        }
        _ => panic!("IPv6 host refused"),
    }
}

