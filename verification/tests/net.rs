use beetos_kernel::platform::qemu_virt::net_stack::{
    get_gateway, get_ip, init, process_frame, tick, DhcpState, NetStack,
};
use beetos_kernel::platform::qemu_virt::packet::{
    build_tcp_frame, internet_checksum, tcp_checksum, Neighbour, Outbox, Outgoing, TcpFields,
};
use beetos_kernel::platform::qemu_virt::tcp::{
    cleanup_for_pid, console_push, tick_flush_console, tick_flush_user, user_accept, user_close,
    user_connect, user_create, user_listen, user_recv, user_rx_len, user_send, user_state,
    SockState, TcpStack, ACK, FIN, FIN_ACK, LISTEN_PORT, PSH_ACK, RST, SYN, SYN_ACK,
};

const MAC: [u8; 6] = [0x52, 0x54, 0x00, 0x12, 0x34, 0x56];
const PEER_MAC: [u8; 6] = [2, 0, 0, 0, 0, 9];
const IP: [u8; 4] = [10, 0, 2, 15];
const PEER: [u8; 4] = [10, 0, 2, 2];

fn frames(out: Outbox) -> Vec<Vec<u8>> {
    out.items
        .into_iter()
        .filter_map(|o| match o {
            Outgoing::Frame(f) => Some(f),
            _ => None,
        })
        .collect()
}

fn be16(b: &[u8], at: usize) -> u16 {
    u16::from_be_bytes([b[at], b[at + 1]])
}

fn be32(b: &[u8], at: usize) -> u32 {
    u32::from_be_bytes([b[at], b[at + 1], b[at + 2], b[at + 3]])
}

/// A stack that has an address.
fn bound() -> (NetStack, TcpStack) {
    let mut n = NetStack::new(Some(MAC));
    n.net.ip = IP;
    n.leased = IP;
    n.dhcp_state = DhcpState::Bound;
    n.net.gateway = PEER;
    n.net.neighbours.push(Neighbour { ip: PEER, mac: PEER_MAC });
    (n, TcpStack::new())
}

fn peer_segment(port: u16, flags: u8, seq: u32, ack: u32, payload: &[u8]) -> Vec<u8> {
    build_tcp_frame(
        &MAC,
        &PEER_MAC,
        &PEER,
        &IP,
        &TcpFields { src_port: 4000, dst_port: port, seq, ack, window: 1000, flags },
        payload,
    )
}

fn feed(n: &mut NetStack, t: &mut TcpStack, frame: &[u8]) -> Vec<Vec<u8>> {
    let mut out = Outbox::new();
    process_frame(n, t, frame, &mut out);
    frames(out)
}

#[test]
fn checksum_of_a_known_header() {
    let header = [
        0x45, 0x00, 0x00, 0x73, 0x00, 0x00, 0x40, 0x00, 0x40, 0x11, 0, 0, 0xC0, 0xA8, 0x00, 0x01,
        0xC0, 0xA8, 0x00, 0xC7,
    ];
    assert_eq!(internet_checksum(&header), 0xB861);
    assert_eq!(internet_checksum(&[0x12]), 0xEDFF);
    assert_eq!(internet_checksum(&[]), 0xFFFF);
}

#[test]
fn checksums_of_a_frame_verify() {
    let f = peer_segment(80, PSH_ACK, 1, 2, b"abc");
    assert_eq!(internet_checksum(&f[14..34]), 0);
    assert_eq!(tcp_checksum(&PEER, &IP, &f[34..]), 0);
    assert_eq!(be16(&f, 16), 43);
    assert_eq!(&f[54..], b"abc");
}

#[test]
fn long_payloads_are_cut() {
    let f = peer_segment(80, PSH_ACK, 1, 2, &[7u8; 3000]);
    assert_eq!(f.len(), 54 + 1200);
}

fn dhcp_reply(xid: u32, kind: u8) -> Vec<u8> {
    let mut d = vec![0u8; 240];
    d[0] = 2;
    d[4..8].copy_from_slice(&xid.to_be_bytes());
    d[16..20].copy_from_slice(&IP);
    d[236..240].copy_from_slice(&[99, 130, 83, 99]);
    d.extend_from_slice(&[53, 1, kind, 0, 54, 4, 10, 0, 2, 3, 3, 4, 10, 0, 2, 2, 255]);
    let mut f = vec![0u8; 14];
    f[12] = 8;
    f.extend_from_slice(&[0x45, 0, 0, 0, 0, 0, 0, 0, 64, 17, 0, 0, 10, 0, 2, 3]);
    f.extend_from_slice(&[255, 255, 255, 255]);
    f.extend_from_slice(&[0, 67, 0, 68, 0, 0, 0, 0]);
    f.extend_from_slice(&d);
    f
}

#[test]
fn dhcp_from_discover_to_bound() {
    let mut n = NetStack::new(Some(MAC));
    let mut t = TcpStack::new();
    init(&mut n);
    assert_eq!(n.state(), DhcpState::Discovering);
    let xid = 0x0012_3456;
    let mut out = Outbox::new();
    tick(&mut n, &mut t, &vec![], 1, &mut out);
    let sent = frames(out);
    assert_eq!(sent.len(), 1);
    assert_eq!(sent[0].len(), 338);
    assert_eq!(be32(&sent[0], 46), xid);
    assert_eq!(&sent[0][282..285], &[53, 1, 1]);
    assert_eq!(internet_checksum(&sent[0][14..34]), 0);

    let mut out = Outbox::new();
    tick(&mut n, &mut t, &vec![], 200, &mut out);
    assert_eq!(out.items.len(), 0);

    feed(&mut n, &mut t, &dhcp_reply(xid + 1, 2));
    assert_eq!(n.state(), DhcpState::Discovering);
    feed(&mut n, &mut t, &dhcp_reply(xid, 2));
    assert_eq!(n.state(), DhcpState::Requesting);
    assert_eq!(get_ip(&n), [0, 0, 0, 0]);

    let mut out = Outbox::new();
    tick(&mut n, &mut t, &vec![], 201, &mut out);
    let sent = frames(out);
    assert_eq!(&sent[0][282..285], &[53, 1, 3]);
    assert_eq!(&sent[0][287..291], &IP);

    feed(&mut n, &mut t, &dhcp_reply(xid, 5));
    assert_eq!(n.state(), DhcpState::Bound);
    assert_eq!(get_ip(&n), IP);
    assert_eq!(get_gateway(&n), PEER);
    feed(&mut n, &mut t, &dhcp_reply(xid, 2));
    assert_eq!(n.state(), DhcpState::Bound);
}

#[test]
fn dhcp_request_gives_up() {
    let mut n = NetStack::new(Some(MAC));
    let mut t = TcpStack::new();
    init(&mut n);
    feed(&mut n, &mut t, &dhcp_reply(0x0012_3456, 2));
    assert_eq!(n.state(), DhcpState::Requesting);
    let mut requests = 0;
    for now in 0..1000 {
        let mut out = Outbox::new();
        tick(&mut n, &mut t, &vec![], now, &mut out);
        if n.state() == DhcpState::Requesting {
            requests += out.items.len();
        }
    }
    assert_eq!(requests, 3);
    assert_eq!(n.state(), DhcpState::Discovering);
}

#[test]
fn stack_without_a_device_is_silent() {
    let mut n = NetStack::new(None);
    let mut t = TcpStack::new();
    init(&mut n);
    assert_eq!(n.state(), DhcpState::Init);
    let mut out = Outbox::new();
    tick(&mut n, &mut t, &vec![vec![0; 60]], 5, &mut out);
    assert_eq!(out.items.len(), 0);
}

fn arp_request(target: [u8; 4]) -> Vec<u8> {
    let mut f = vec![0xFF; 6];
    f.extend_from_slice(&PEER_MAC);
    f.extend_from_slice(&[8, 6, 0, 1, 8, 0, 6, 4, 0, 1]);
    f.extend_from_slice(&PEER_MAC);
    f.extend_from_slice(&PEER);
    f.extend_from_slice(&[0; 6]);
    f.extend_from_slice(&target);
    f
}

#[test]
fn arp_is_answered_for_our_address() {
    let (mut n, mut t) = bound();
    let sent = feed(&mut n, &mut t, &arp_request(IP));
    assert_eq!(sent.len(), 1);
    let r = &sent[0];
    assert_eq!(r.len(), 42);
    assert_eq!(&r[0..6], &PEER_MAC);
    assert_eq!(be16(r, 20), 2);
    assert_eq!(&r[22..28], &MAC);
    assert_eq!(&r[28..32], &IP);
    assert_eq!(&r[32..38], &PEER_MAC);
    assert_eq!(&r[38..42], &PEER);
    assert!(feed(&mut n, &mut t, &arp_request([10, 0, 2, 16])).is_empty());
}

#[test]
fn echo_is_answered() {
    let (mut n, mut t) = bound();
    let mut f = Vec::new();
    f.extend_from_slice(&MAC);
    f.extend_from_slice(&PEER_MAC);
    f.extend_from_slice(&[8, 0, 0x45, 0, 0, 32, 0, 0, 0, 0, 64, 1, 0, 0]);
    f.extend_from_slice(&PEER);
    f.extend_from_slice(&IP);
    f.extend_from_slice(&[8, 0, 1, 2, 0xAB, 0xCD, 0, 7, 1, 2, 3, 4]);
    let sent = feed(&mut n, &mut t, &f);
    assert_eq!(sent.len(), 1);
    let r = &sent[0];
    assert_eq!(r.len(), 46);
    assert_eq!(r[34], 0);
    assert_eq!(&r[38..46], &[0xAB, 0xCD, 0, 7, 1, 2, 3, 4]);
    assert_eq!(internet_checksum(&r[34..]), 0);
    assert_eq!(internet_checksum(&r[14..34]), 0);
    assert_eq!(&r[30..34], &PEER);
    f[34] = 0;
    assert!(feed(&mut n, &mut t, &f).is_empty());
}

/// A listener of process 7 on port 80, with a connection that was accepted.
fn connected() -> (NetStack, TcpStack, usize, usize, u32) {
    let (mut n, mut t) = bound();
    let l = user_create(&mut t, 7).unwrap();
    user_listen(&mut t, l, 80, 7).unwrap();
    let syn_ack = feed(&mut n, &mut t, &peer_segment(80, SYN, 1000, 0, &[]));
    assert_eq!(syn_ack.len(), 1);
    assert_eq!(syn_ack[0][47], SYN_ACK);
    assert_eq!(be32(&syn_ack[0], 42), 1001);
    let seq = be32(&syn_ack[0], 38).wrapping_add(1);
    assert_eq!(user_accept(&mut t, l, 7), None);
    feed(&mut n, &mut t, &peer_segment(80, ACK, 1001, seq, &[]));
    let c = user_accept(&mut t, l, 7).unwrap();
    assert_eq!(user_state(&t, c, 7), Some(SockState::Established));
    (n, t, l, c, seq)
}

#[test]
fn received_bytes_are_read_back() {
    let (mut n, mut t, _l, c, seq) = connected();
    let acks = feed(&mut n, &mut t, &peer_segment(80, PSH_ACK, 1001, seq, b"hello"));
    assert_eq!(acks.len(), 1);
    assert_eq!(be32(&acks[0], 42), 1006);
    assert_eq!(be16(&acks[0], 48), 1023 - 5);
    assert_eq!(user_rx_len(&t, c, 7), 5);
    let mut buf = [0u8; 3];
    let mut out = Outbox::new();
    assert_eq!(user_recv(&mut t, &n.net, c, &mut buf, 7, &mut out), Some(3));
    assert_eq!(&buf, b"hel");
    let mut buf = [0u8; 10];
    let mut out = Outbox::new();
    assert_eq!(user_recv(&mut t, &n.net, c, &mut buf, 7, &mut out), Some(2));
    assert_eq!(&buf[..2], b"lo");
}

#[test]
fn bytes_out_of_order_are_not_stored() {
    let (mut n, mut t, _l, c, seq) = connected();
    feed(&mut n, &mut t, &peer_segment(80, PSH_ACK, 1005, seq, b"later"));
    assert_eq!(user_rx_len(&t, c, 7), 0);
}

#[test]
fn sent_bytes_go_out() {
    let (n, mut t, _l, c, seq) = connected();
    let mut out = Outbox::new();
    assert_eq!(user_send(&mut t, &n.net, c, b"data", 7, &mut out), Some(4));
    let sent = frames(out);
    assert_eq!(sent.len(), 1);
    assert_eq!(&sent[0][54..], b"data");
    assert_eq!(be32(&sent[0], 38), seq);
    let mut out = Outbox::new();
    assert_eq!(user_send(&mut t, &n.net, c, b"data", 8, &mut out), None);
}

#[test]
fn peer_closes_first() {
    let (mut n, mut t, _l, c, seq) = connected();
    let acks = feed(&mut n, &mut t, &peer_segment(80, FIN_ACK, 1001, seq, &[]));
    assert_eq!(be32(&acks[0], 42), 1002);
    assert_eq!(user_state(&t, c, 7), Some(SockState::CloseWait));
    let mut out = Outbox::new();
    user_close(&mut t, &n.net, c, 7, &mut out).unwrap();
    assert_eq!(frames(out)[0][47] & FIN, FIN);
    let mut out = Outbox::new();
    tick_flush_user(&mut t, &n.net, 10_000, &mut out);
    assert_eq!(user_state(&t, c, 7), Some(SockState::Free));
}

#[test]
fn we_close_first() {
    let (mut n, mut t, _l, c, seq) = connected();
    let mut out = Outbox::new();
    user_close(&mut t, &n.net, c, 7, &mut out).unwrap();
    assert_eq!(frames(out)[0][47] & FIN, FIN);
    feed(&mut n, &mut t, &peer_segment(80, ACK, 1001, seq + 1, &[]));
    feed(&mut n, &mut t, &peer_segment(80, FIN_ACK, 1001, seq + 1, &[]));
    let repeated = feed(&mut n, &mut t, &peer_segment(80, FIN_ACK, 1001, seq + 1, &[]));
    assert_eq!(repeated.len(), 1);
    assert_eq!(be32(&repeated[0], 42), 1002);
    let mut out = Outbox::new();
    tick_flush_user(&mut t, &n.net, 501, &mut out);
    assert_eq!(user_create(&mut t, 9), Some(c));
}

#[test]
fn fin_out_of_sequence_does_not_count() {
    let (mut n, mut t, _l, c, seq) = connected();
    feed(&mut n, &mut t, &peer_segment(80, FIN_ACK, 1009, seq, &[]));
    assert_eq!(user_state(&t, c, 7), Some(SockState::Established));
}

#[test]
fn reset_ends_a_connection() {
    let (mut n, mut t, _l, c, seq) = connected();
    feed(&mut n, &mut t, &peer_segment(80, RST, 1001, seq, &[]));
    assert_ne!(user_state(&t, c, 7), Some(SockState::Established));
}

#[test]
fn active_open() {
    let (mut n, mut t) = bound();
    let c = user_create(&mut t, 7).unwrap();
    let mut out = Outbox::new();
    user_connect(&mut t, &n.net, c, &PEER, 4000, 7, &mut out).unwrap();
    assert_eq!(user_state(&t, c, 7), Some(SockState::SynSent));
    let syn = &frames(out)[0];
    assert_eq!(syn[47], SYN);
    assert_eq!(&syn[0..6], &PEER_MAC);
    let port = be16(syn, 34);
    assert!(port >= 49152);
    let seq = be32(syn, 38).wrapping_add(1);
    let acks = feed(&mut n, &mut t, &peer_segment(port, SYN_ACK, 5000, seq, &[]));
    assert_eq!(user_state(&t, c, 7), Some(SockState::Established));
    assert_eq!(be32(&acks[0], 42), 5001);
}

#[test]
fn connect_to_an_unresolved_neighbour_asks_for_it() {
    let (n, mut t) = bound();
    let c = user_create(&mut t, 7).unwrap();
    let mut out = Outbox::new();
    user_connect(&mut t, &n.net, c, &[10, 0, 2, 77], 80, 7, &mut out).unwrap();
    assert!(matches!(out.items[0], Outgoing::ArpRequest(ip) if ip == [10, 0, 2, 77]));
}

#[test]
fn socket_calls_that_are_refused() {
    let (n, mut t) = bound();
    let a = user_create(&mut t, 7).unwrap();
    let b = user_create(&mut t, 8).unwrap();
    assert!(user_listen(&mut t, a, 80, 8).is_err());
    assert!(user_listen(&mut t, 99, 80, 7).is_err());
    user_listen(&mut t, a, 80, 7).unwrap();
    assert!(user_listen(&mut t, b, 80, 8).is_err());
    assert!(user_listen(&mut t, b, LISTEN_PORT, 8).is_err());
    let mut out = Outbox::new();
    assert!(user_connect(&mut t, &n.net, a, &PEER, 1, 8, &mut out).is_err());
    assert!(user_close(&mut t, &n.net, a, 8, &mut out).is_err());
    assert_eq!(user_recv(&mut t, &n.net, a, &mut [0; 4], 8, &mut out), None);
    assert_eq!(user_state(&t, a, 8), None);
    assert_eq!(user_state(&t, a, 7).map(|s| s.code()), Some(2));
    assert!(user_create(&mut t, 7).is_some());
    assert!(user_create(&mut t, 7).is_some());
    assert_eq!(user_create(&mut t, 7), None);
}

#[test]
fn sockets_of_a_process_are_cleaned_up() {
    let (n, mut t, l, c, _seq) = connected();
    let other = user_create(&mut t, 8).unwrap();
    let mut out = Outbox::new();
    cleanup_for_pid(&mut t, &n.net, 7, &mut out);
    assert_eq!(user_state(&t, l, 7), Some(SockState::Free));
    assert_ne!(user_state(&t, c, 7), Some(SockState::Established));
    assert!(user_state(&t, other, 8).is_some());
}

#[test]
fn console_passes_bytes_both_ways() {
    let (mut n, mut t) = bound();
    let syn_ack = feed(&mut n, &mut t, &peer_segment(LISTEN_PORT, SYN, 10, 0, &[]));
    let seq = be32(&syn_ack[0], 38).wrapping_add(1);
    feed(&mut n, &mut t, &peer_segment(LISTEN_PORT, ACK, 11, seq, &[]));
    let mut out = Outbox::new();
    process_frame(&mut n, &mut t, &peer_segment(LISTEN_PORT, PSH_ACK, 11, seq, b"ls"), &mut out);
    let typed: Vec<u8> = out
        .items
        .iter()
        .filter_map(|o| if let Outgoing::Input(b) = o { Some(*b) } else { None })
        .collect();
    assert_eq!(typed, b"ls");
    console_push(&mut t, b"files");
    let mut out = Outbox::new();
    tick_flush_console(&mut t, &n.net, &mut out);
    let sent = frames(out);
    assert_eq!(&sent[0][54..], b"files");
}

#[test]
fn connection_is_handed_out_once() {
    let (mut n, mut t, l, c, _seq) = connected();
    assert_eq!(user_accept(&mut t, l, 7), None);
    let syn = build_tcp_frame(
        &MAC,
        &PEER_MAC,
        &PEER,
        &IP,
        &TcpFields { src_port: 4001, dst_port: 80, seq: 5, ack: 0, window: 1000, flags: SYN },
        &[],
    );
    let syn_ack = feed(&mut n, &mut t, &syn);
    assert_eq!(syn_ack[0][47], SYN_ACK);
    let ack = build_tcp_frame(
        &MAC,
        &PEER_MAC,
        &PEER,
        &IP,
        &TcpFields {
            src_port: 4001,
            dst_port: 80,
            seq: 6,
            ack: be32(&syn_ack[0], 38).wrapping_add(1),
            window: 1000,
            flags: ACK,
        },
        &[],
    );
    feed(&mut n, &mut t, &ack);
    assert_eq!(user_accept(&mut t, l, 8), None);
    let d = user_accept(&mut t, l, 7).unwrap();
    assert_ne!(d, c);
    assert_eq!(user_accept(&mut t, l, 7), None);
}

#[test]
fn closed_slot_is_reaped_at_its_deadline() {
    let (n, mut t, _l, c, _seq) = connected();
    tick_flush_user(&mut t, &n.net, 1000, &mut Outbox::new());
    user_close(&mut t, &n.net, c, 7, &mut Outbox::new()).unwrap();
    tick_flush_user(&mut t, &n.net, 1499, &mut Outbox::new());
    assert_eq!(user_state(&t, c, 7), Some(SockState::FinWait1));
    tick_flush_user(&mut t, &n.net, 1500, &mut Outbox::new());
    assert_eq!(user_state(&t, c, 7), Some(SockState::Free));
    assert_eq!(user_create(&mut t, 9), Some(c));
}

#[test]
fn segments_are_ignored_until_the_address_is_ours() {
    let (mut n, mut t) = bound();
    let l = user_create(&mut t, 7).unwrap();
    user_listen(&mut t, l, 80, 7).unwrap();
    n.dhcp_state = DhcpState::Requesting;
    n.net.ip = [0, 0, 0, 0];
    assert_eq!(get_ip(&n), [0, 0, 0, 0]);
    assert!(feed(&mut n, &mut t, &peer_segment(80, SYN, 1000, 0, &[])).is_empty());
}
