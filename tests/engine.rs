use badscan::config::{Config, Fingerprint as FingerprintChoice, Protocol as ProtocolChoice, ScanConfig};
use badscan::cookie::{cookie, Endpoint};
use badscan::fingerprint::Fingerprint;
use badscan::frames::{decode_frame, frame_for_link, wrap_ipv4};
use badscan::protocols::slp::MinecraftSlpProtocol;
use badscan::protocols::{Protocol, TcpProtocol, UdpAction, UdpProtocol};
use badscan::tcp::template::{TcpOpt, TcpTemplate};
use badscan::tcp::{TcpView, FLAG_ACK, FLAG_PSH, FLAG_RST, FLAG_SYN};
use badscan::tcpscanner;
use badscan::udpscanner;
use badscan::utils::wrap_udp;

const LOCAL_MAC: [u8; 6] = [0x02, 0x00, 0x00, 0x00, 0x00, 0x01];
const OTHER_MAC: [u8; 6] = [0x02, 0x00, 0x00, 0x00, 0x00, 0x02];
const LOCAL_IP: u32 = 0xC0000201; // 192.0.2.1
const REMOTE_IP: u32 = 0xC000020A; // 192.0.2.10

fn ones_complement(words: &[u8]) -> u32 {
    let mut sum: u32 = 0;
    let mut i = 0;
    while i + 1 < words.len() {
        sum += u16::from_be_bytes([words[i], words[i + 1]]) as u32;
        i += 2;
    }
    if i < words.len() {
        sum += (words[i] as u32) << 8;
    }
    sum
}

fn fold(mut sum: u32) -> u16 {
    while sum >> 16 != 0 {
        sum = (sum >> 16) + (sum & 0xFFFF);
    }
    !(sum as u16)
}

fn transport_checksum(segment: &[u8], source: u32, dest: u32, protocol: u8, skip: usize) -> u16 {
    let mut zeroed = segment.to_vec();
    zeroed[skip] = 0;
    zeroed[skip + 1] = 0;
    let mut pseudo = vec![];
    pseudo.extend_from_slice(&source.to_be_bytes());
    pseudo.extend_from_slice(&dest.to_be_bytes());
    pseudo.push(0);
    pseudo.push(protocol);
    pseudo.extend_from_slice(&(segment.len() as u16).to_be_bytes());
    fold(ones_complement(&pseudo) + ones_complement(&zeroed))
}

fn header_checksum(header: &[u8]) -> u16 {
    let mut zeroed = header.to_vec();
    zeroed[10] = 0;
    zeroed[11] = 0;
    fold(ones_complement(&zeroed))
}

#[test]
fn udp_datagram_fields() {
    let fp = Fingerprint::nintendo_3ds();
    let target = Endpoint::new(REMOTE_IP, 25565);
    let payload = vec![0xFE, 0xFD, 0x09, 0x01, 0x03, 0x03, 0x05];
    let d = udpscanner::udp_datagram(payload.clone(), LOCAL_IP, &target, fp.ittl);
    assert_eq!(d.len(), 20 + 8 + payload.len());
    assert_eq!(d[0], 0x45);
    assert_eq!(u16::from_be_bytes([d[2], d[3]]) as usize, d.len());
    assert_eq!(u16::from_be_bytes([d[4], d[5]]), 1);
    assert_eq!(d[6], 0x40);
    assert_eq!(d[7], 0);
    assert_eq!(d[8], 64);
    assert_eq!(d[9], 17);
    assert_eq!(u16::from_be_bytes([d[10], d[11]]), header_checksum(&d[..20]));
    assert_eq!(&d[12..16], &LOCAL_IP.to_be_bytes());
    assert_eq!(&d[16..20], &REMOTE_IP.to_be_bytes());
    assert_eq!(u16::from_be_bytes([d[20], d[21]]), 61000);
    assert_eq!(u16::from_be_bytes([d[22], d[23]]), 25565);
    assert_eq!(u16::from_be_bytes([d[24], d[25]]) as usize, 8 + payload.len());
    assert_eq!(
        u16::from_be_bytes([d[26], d[27]]),
        transport_checksum(&d[20..], LOCAL_IP, REMOTE_IP, 17, 6)
    );
    assert_ne!(u16::from_be_bytes([d[26], d[27]]), 0);
    assert_eq!(&d[28..], &payload[..]);
}

#[test]
fn udp_wrap_checksum_is_filled() {
    let source = Endpoint::new(LOCAL_IP, 61000);
    let dest = Endpoint::new(REMOTE_IP, 19132);
    let seg = wrap_udp(vec![1, 2, 3], &source, &dest);
    assert_eq!(u16::from_be_bytes([seg[6], seg[7]]), transport_checksum(&seg, LOCAL_IP, REMOTE_IP, 17, 6));
}

#[test]
fn syn_probe_fields() {
    let fp = Fingerprint::nintendo_3ds();
    let target = Endpoint::new(REMOTE_IP, 25565);
    let c = cookie(&target, 7, 1000);
    let syn = tcpscanner::scan_probe(&fp, LOCAL_IP, &target, 7, 1000);
    assert_eq!(syn.len(), 28);
    assert_eq!(u16::from_be_bytes([syn[0], syn[1]]), 61000);
    assert_eq!(u16::from_be_bytes([syn[2], syn[3]]), 25565);
    assert_eq!(&syn[4..8], &c.to_be_bytes());
    assert_eq!(&syn[8..12], &[0, 0, 0, 0]);
    assert_eq!(syn[12], 0x70);
    assert_eq!(syn[13], FLAG_SYN);
    assert_eq!(u16::from_be_bytes([syn[14], syn[15]]), 32768);
    assert_eq!(&syn[18..20], &[0, 0]);
    assert_eq!(&syn[20..28], &[2, 4, 0x05, 0x50, 1, 1, 4, 2]);
    assert_eq!(
        u16::from_be_bytes([syn[16], syn[17]]),
        transport_checksum(&syn, LOCAL_IP, REMOTE_IP, 6, 16)
    );
}

#[test]
fn nintendo_3ds_profile() {
    let fp = Fingerprint::nintendo_3ds();
    assert_eq!(fp.ittl, 64);
    assert_eq!(fp.mss, 1360);
    assert_eq!(fp.window, 32768);
    assert_eq!(fp.options, vec![TcpOpt::Mss(1360), TcpOpt::Nop, TcpOpt::Nop, TcpOpt::SackPermitted]);
    let a = Endpoint::new(1, 2);
    let b = Endpoint::new(3, 4);
    assert_eq!(fp.get_ack().create(&a, &b, 0, 0, &[])[13], FLAG_ACK);
    assert_eq!(fp.get_rst().create(&a, &b, 0, 0, &[])[13], FLAG_RST);
    assert_eq!(fp.get_psh().create(&a, &b, 0, 0, &[])[13], FLAG_PSH | FLAG_ACK);
    assert_eq!(fp.get_syn().create(&a, &b, 0, 0, &[])[13], FLAG_SYN);
}

#[test]
fn template_pads_options_to_a_word() {
    let t = TcpTemplate::new(FLAG_SYN, 1024, &[TcpOpt::Mss(1460), TcpOpt::WindowScale(7)]);
    let seg = t.create(&Endpoint::new(1, 10), &Endpoint::new(2, 20), 5, 6, &[9, 9]);
    assert_eq!(seg.len(), 20 + 8 + 2);
    assert_eq!(seg[12], 0x70);
    assert_eq!(&seg[20..28], &[2, 4, 0x05, 0xB4, 3, 3, 7, 0]);
    assert_eq!(&seg[28..], &[9, 9]);
    let bare = TcpTemplate::new(FLAG_ACK, 1, &[]);
    let seg = bare.create(&Endpoint::new(1, 10), &Endpoint::new(2, 20), 5, 6, &[]);
    assert_eq!(seg.len(), 20);
    assert_eq!(seg[12], 0x50);
}

fn syn_ack(seq: u32, ack: u32) -> TcpView {
    TcpView {
        source_port: 25565,
        dest_port: 61000,
        sequence: seq,
        acknowledgement: ack,
        flags: FLAG_SYN | FLAG_ACK,
        payload: vec![],
    }
}

#[test]
fn tcp_syn_ack_accept() {
    let fp = Fingerprint::nintendo_3ds();
    let slp = TcpProtocol::Slp(MinecraftSlpProtocol::new());
    let remote = Endpoint::new(REMOTE_IP, 25565);
    let local = Endpoint::new(LOCAL_IP, 61000);
    let out = tcpscanner::respond(&fp, &slp, &syn_ack(0x11111111, 0xC0FFEE01), &remote, &local, 0xC0FFEE00);
    assert_eq!(out.len(), 2);
    let ack = &out[0];
    assert_eq!(ack[13], FLAG_ACK);
    assert_eq!(u16::from_be_bytes([ack[0], ack[1]]), 61000);
    assert_eq!(u16::from_be_bytes([ack[2], ack[3]]), 25565);
    assert_eq!(&ack[4..8], &0xC0FFEE01u32.to_be_bytes());
    assert_eq!(&ack[8..12], &0x11111112u32.to_be_bytes());
    assert_eq!(ack.len(), 28);
    assert_eq!(u16::from_be_bytes([ack[16], ack[17]]), transport_checksum(ack, LOCAL_IP, REMOTE_IP, 6, 16));
    let psh = &out[1];
    assert_eq!(psh[13], FLAG_PSH | FLAG_ACK);
    assert_eq!(&psh[4..8], &0xC0FFEE01u32.to_be_bytes());
    assert_eq!(&psh[8..12], &0x11111112u32.to_be_bytes());
    assert_eq!(
        &psh[28..],
        &[0x0A, 0x00, 0x2F, 0x04, 0x74, 0x65, 0x73, 0x74, 0x00, 0x03, 0x01, 0x01, 0x00]
    );
}

#[test]
fn tcp_syn_ack_reject() {
    let fp = Fingerprint::nintendo_3ds();
    let slp = TcpProtocol::Slp(MinecraftSlpProtocol::new());
    let remote = Endpoint::new(REMOTE_IP, 25565);
    let local = Endpoint::new(LOCAL_IP, 61000);
    let out = tcpscanner::respond(&fp, &slp, &syn_ack(0x11111111, 0xDEADBEEF), &remote, &local, 0xC0FFEE00);
    assert_eq!(out.len(), 1);
    assert_eq!(out[0][13], FLAG_RST);
    assert_eq!(&out[0][4..8], &0xDEADBEEFu32.to_be_bytes());
    assert_eq!(&out[0][8..12], &0x11111112u32.to_be_bytes());
    assert_eq!(out[0].len(), 28);
}

#[test]
fn tcp_data_rst_and_wraparound() {
    let fp = Fingerprint::nintendo_3ds();
    let slp = TcpProtocol::Slp(MinecraftSlpProtocol::new());
    let remote = Endpoint::new(REMOTE_IP, 25565);
    let local = Endpoint::new(LOCAL_IP, 61000);
    let data = TcpView {
        source_port: 25565,
        dest_port: 61000,
        sequence: 0xFFFFFFFE,
        acknowledgement: 77,
        flags: FLAG_ACK | FLAG_PSH,
        payload: vec![1, 2, 3, 4, 5],
    };
    let out = tcpscanner::respond(&fp, &slp, &data, &remote, &local, 0);
    assert_eq!(out.len(), 1);
    assert_eq!(out[0][13], FLAG_ACK);
    assert_eq!(&out[0][4..8], &77u32.to_be_bytes());
    assert_eq!(&out[0][8..12], &3u32.to_be_bytes());
    let rst = TcpView { flags: FLAG_RST, payload: vec![], ..data };
    assert!(tcpscanner::respond(&fp, &slp, &rst, &remote, &local, 0).is_empty());
    let wrap = tcpscanner::respond(&fp, &slp, &syn_ack(0xFFFFFFFF, 0), &remote, &local, 0xFFFFFFFF);
    assert_eq!(wrap.len(), 2);
    assert_eq!(&wrap[0][8..12], &0u32.to_be_bytes());
}

fn ethernet(dest: [u8; 6], packet: &[u8]) -> Vec<u8> {
    let mut f = dest.to_vec();
    f.extend_from_slice(&OTHER_MAC);
    f.extend_from_slice(&[0x08, 0x00]);
    f.extend_from_slice(packet);
    f
}

#[test]
fn udp_frame_dispatch_and_wrong_mac() {
    let proto = UdpProtocol::McQuery { fullstat: false };
    let remote = Endpoint::new(REMOTE_IP, 25565);
    let local = Endpoint::new(LOCAL_IP, 61000);
    let c = cookie(&remote, 3, 4);
    let id = (c & 0x0F0F0F0F).to_be_bytes();
    let mut reply = vec![0x09];
    reply.extend_from_slice(&id);
    reply.extend_from_slice(b"17\0");
    let seg = wrap_udp(reply, &remote, &local);
    let packet = wrap_ipv4(&seg, REMOTE_IP, LOCAL_IP, 50, 17);
    let frame = ethernet(LOCAL_MAC, &packet);
    match udpscanner::on_frame(&proto, &frame, &LOCAL_MAC, 3, 4) {
        Some((source, UdpAction::SendBack(bytes))) => {
            assert_eq!(source, remote);
            let mut expected = vec![0xFE, 0xFD, 0x00];
            expected.extend_from_slice(&id);
            expected.extend_from_slice(&17u32.to_be_bytes());
            assert_eq!(bytes, expected);
        }
        _ => panic!("challenge not handled"),
    }
    let foreign = ethernet(OTHER_MAC, &packet);
    assert!(udpscanner::on_frame(&proto, &foreign, &LOCAL_MAC, 3, 4).is_none());
    let tcp_packet = wrap_ipv4(&seg, REMOTE_IP, LOCAL_IP, 50, 6);
    assert!(udpscanner::on_frame(&proto, &ethernet(LOCAL_MAC, &tcp_packet), &LOCAL_MAC, 3, 4).is_none());
    assert!(udpscanner::on_frame(&proto, &frame[..20], &LOCAL_MAC, 3, 4).is_none());
}

#[test]
fn tcp_frame_dispatch_and_wrong_mac() {
    let fp = Fingerprint::nintendo_3ds();
    let slp = TcpProtocol::Slp(MinecraftSlpProtocol::new());
    let remote = Endpoint::new(REMOTE_IP, 25565);
    let local = Endpoint::new(LOCAL_IP, 61000);
    let c = cookie(&remote, 9, 9);
    let synack = fp.get_ack().create(&remote, &local, 0x11111111, c.wrapping_add(1), &[]);
    let mut synack = synack;
    synack[13] = FLAG_SYN | FLAG_ACK;
    let packet = wrap_ipv4(&synack, REMOTE_IP, LOCAL_IP, 50, 6);
    let out = tcpscanner::on_frame(&fp, &slp, &ethernet(LOCAL_MAC, &packet), &LOCAL_MAC, 9, 9);
    assert_eq!(out.len(), 2);
    assert_eq!(out[0].0, remote);
    assert_eq!(out[0].1[13], FLAG_ACK);
    assert!(tcpscanner::on_frame(&fp, &slp, &ethernet(OTHER_MAC, &packet), &LOCAL_MAC, 9, 9).is_empty());
    let p = tcpscanner::tcp_packet(&out[0].1, LOCAL_IP, &remote, fp.ittl);
    assert_eq!(p[9], 6);
    assert_eq!(p[8], 64);
    assert_eq!(p.len(), 20 + out[0].1.len());
}

#[test]
fn frame_decoding_and_link_framing() {
    let packet = wrap_ipv4(&[1, 2, 3, 4], REMOTE_IP, LOCAL_IP, 9, 17);
    let mut padded = ethernet(LOCAL_MAC, &packet);
    padded.extend_from_slice(&[0xEE; 6]);
    let ip = decode_frame(&padded, &LOCAL_MAC).unwrap();
    assert_eq!(ip.source, REMOTE_IP);
    assert_eq!(ip.destination, LOCAL_IP);
    assert_eq!(ip.protocol, 17);
    assert_eq!(ip.payload, vec![1, 2, 3, 4]);
    let framed = frame_for_link(&packet, Some(OTHER_MAC), LOCAL_MAC);
    assert_eq!(&framed[..6], &OTHER_MAC);
    assert_eq!(&framed[6..12], &LOCAL_MAC);
    assert_eq!(&framed[12..14], &[0x08, 0x00]);
    assert_eq!(&framed[14..], &packet[..]);
    assert_eq!(frame_for_link(&packet, None, LOCAL_MAC), packet);
}

#[test]
fn config_defaults_and_selection() {
    let c = Config::default();
    assert!(c.interface.is_none());
    assert_eq!(c.scan, ScanConfig { seed: 0, wait_delay: 0 });
    assert_eq!(c.protocol, ProtocolChoice::Query { fullstat: false });
    assert_eq!(c.fingerprint, FingerprintChoice::Nintendo3DS);
    assert_eq!(FingerprintChoice::Nintendo3DS.name(), "Nintendo 3DS");
    assert_eq!(FingerprintChoice::Nintendo3DS.select().ittl, 64);
    assert!(matches!(ProtocolChoice::Raknet.select(), Protocol::Udp(UdpProtocol::Raknet)));
    assert!(matches!(
        (ProtocolChoice::Query { fullstat: true }).select(),
        Protocol::Udp(UdpProtocol::McQuery { fullstat: true })
    ));
    assert!(matches!(ProtocolChoice::SLP.select(), Protocol::Tcp(TcpProtocol::Slp(_))));
}
