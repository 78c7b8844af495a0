//! A minimal ARP, ICMP and DHCP stack.
//!
//! It gets an address by DHCP, answers ARP requests for that address, answers
//! pings, and hands TCP segments on. The network driver calls [`tick`] from the
//! 100 Hz timer with the frames that have arrived, and then carries out the
//! requests in the [`Outbox`].
use crate::bytes::{array4, array6, be16, be32, push_all, push_be16, push_be32, push_zeros, same4};
use crate::platform::qemu_virt::net_stack::model::{NetModel, World};
use crate::platform::qemu_virt::packet;
use crate::platform::qemu_virt::packet::{
    internet_checksum, push_eth_header, push_ipv4_header, Ipv4Fields, NetIf, NetIfModel, Outbox,
    Outgoing,
};
use crate::platform::qemu_virt::tcp::{handle_segment, TcpStack};
use vstd::prelude::*;

pub mod model;
pub mod wire;

verus! {

/// Ticks between two DHCP transmissions.
pub const DHCP_RETRY_TICKS: u64 = 200;

/// Largest Ethernet frame.
pub const MAX_FRAME_SIZE: usize = 1518;

pub const DHCP_OPT_SUBNET_MASK: u8 = 1;

pub const DHCP_OPT_ROUTER: u8 = 3;

pub const DHCP_OPT_REQUESTED_IP: u8 = 50;

pub const DHCP_OPT_MSG_TYPE: u8 = 53;

pub const DHCP_OPT_SERVER_ID: u8 = 54;

pub const DHCP_MSG_OFFER: u8 = 2;

pub const DHCP_MSG_ACK: u8 = 5;

/// State of the DHCP client.
#[derive(Clone, Copy, PartialEq, Eq, Structural, Debug)]
pub enum DhcpState {
    Init,
    Discovering,
    Requesting,
    Bound,
}

/// The network stack below TCP.
pub struct NetStack {
    /// Our addresses and the resolved neighbours; without an IPv4 address until DHCP
    /// has completed.
    pub net: NetIf,
    /// The IPv4 address that was offered to us or that we have.
    pub leased: [u8; 4],
    pub server_ip: [u8; 4],
    pub dhcp_state: DhcpState,
    pub dhcp_xid: u32,
    pub dhcp_retry: u64,
    pub req_retries: u8,
}

impl View for NetStack {
    type V = NetModel;

    open spec fn view(&self) -> NetModel {
        NetModel {
            net: self.net@,
            leased: self.leased@,
            server_ip: self.server_ip@,
            dhcp_state: self.dhcp_state,
            dhcp_xid: self.dhcp_xid,
            dhcp_retry: self.dhcp_retry,
            req_retries: self.req_retries,
        }
    }
}

impl NetStack {
    /// At most three requests stay unanswered, and the interface has its address
    /// exactly when DHCP has completed.
    pub open spec fn wf(&self) -> bool {
        &&& self.req_retries <= 3
        &&& model::address_ok(self@)
    }

    /// The stack at boot, over a device with hardware address `mac` (`None`
    /// without a device): no address, DHCP idle.
    pub fn new(mac: Option<[u8; 6]>) -> (r: NetStack)
        ensures
            r.wf(),
            r.net.mac == mac,
            r@ == model::at_boot(
                match mac {
                    Some(m) => Some(m@),
                    None => None,
                },
            ),
    {
        let r: NetStack = NetStack {
            net: NetIf {
                ip: [0, 0, 0, 0],
                gateway: [0, 0, 0, 0],
                mac,
                neighbours: Vec::new(),
            },
            leased: [0, 0, 0, 0],
            server_ip: [0, 0, 0, 0],
            dhcp_state: DhcpState::Init,
            dhcp_xid: 0,
            dhcp_retry: 0,
            req_retries: 0,
        };
        assert(r.leased@ =~= model::no_ip());
        assert(r.net.neighbours@ =~= Seq::empty());
        r
    }

    /// The state of the DHCP client.
    pub fn state(&self) -> (r: DhcpState)
        ensures
            r == self@.dhcp_state,
    {
        self.dhcp_state
    }
}

/// Starts DHCP: the transaction number comes from the last four bytes of the
/// hardware address, the first DISCOVER is due at once, and there is no address until
/// DHCP has completed. Without a device nothing happens.
pub fn init(n: &mut NetStack)
    requires
        old(n).wf(),
    ensures
        final(n).wf(),
        final(n).net.mac == old(n).net.mac,
        match old(n).net.mac {
            Some(mac) => final(n)@ == (NetModel {
                net: NetIfModel { ip: model::no_ip(), ..old(n)@.net },
                dhcp_xid: crate::bytes::be32_at(mac@, 2) as u32,
                dhcp_state: DhcpState::Discovering,
                dhcp_retry: 0,
                ..old(n)@
            }),
            None => final(n)@ == old(n)@,
        },
{
    if let Some(mac) = n.net.mac {
        n.dhcp_xid = be32(&mac, 2);
        n.dhcp_state = DhcpState::Discovering;
        n.dhcp_retry = 0;
        n.net.ip = [0, 0, 0, 0];
        assert(n.net.ip@ =~= model::no_ip());
    }
}

/// Our IPv4 address; all zeros while DHCP has not completed.
pub fn get_ip(n: &NetStack) -> (r: [u8; 4])
    requires
        n.wf(),
    ensures
        r@ == (if n.dhcp_state is Bound {
            n@.leased
        } else {
            model::no_ip()
        }),
        r@ == n@.net.ip,
{
    n.net.ip
}

/// The default gateway; all zeros while there is none.
pub fn get_gateway(n: &NetStack) -> (r: [u8; 4])
    ensures
        r@ == n@.net.gateway,
{
    n.net.gateway
}

/// Whether an address is one.
fn is_address(ip: &[u8; 4]) -> (r: bool)
    ensures
        r == (ip@ != model::no_ip()),
{
    let none: [u8; 4] = [0, 0, 0, 0];
    assert(none@ =~= model::no_ip());
    !same4(ip, &none)
}

/// Answers an ARP request for our address.
fn handle_arp(net: &NetIf, leased: &[u8; 4], arp: &[u8], out: &mut Outbox)
    ensures
        final(out)@ == model::on_arp(net@.mac, leased@, arp@, old(out)@),
{
    if arp.len() < 28 {
        return ;
    }
    if be16(arp, 6) != 1 {
        return ;
    }
    let target_ip: [u8; 4] = array4(arp, 24);
    if !is_address(leased) || !same4(&target_ip, leased) {
        return ;
    }
    let our_mac: [u8; 6] = match net.mac {
        Some(m) => m,
        None => {
            return ;
        },
    };
    let sender_mac: [u8; 6] = array6(arp, 8);
    let sender_ip: [u8; 4] = array4(arp, 14);
    let mut pkt: Vec<u8> = Vec::new();
    push_eth_header(&mut pkt, &sender_mac, &our_mac, 0x0806);
    let fixed: [u8; 8] = [0, 1, 8, 0, 6, 4, 0, 2];
    push_all(&mut pkt, &fixed);
    push_all(&mut pkt, &our_mac);
    push_all(&mut pkt, leased);
    push_all(&mut pkt, &sender_mac);
    push_all(&mut pkt, &sender_ip);
    assert(pkt@ =~= model::arp_reply(our_mac@, leased@, arp@));
    out.put(Outgoing::Frame(pkt));
}

fn echo_bytes(msg: &[u8], csum: u16) -> (v: Vec<u8>)
    requires
        msg@.len() >= 8,
    ensures
        v@ == model::echo_with(msg@, csum),
        v@.len() == msg@.len(),
{
    let mut v: Vec<u8> = Vec::new();
    v.push(0);
    v.push(0);
    push_be16(&mut v, csum);
    push_all(&mut v, &msg[4..msg.len()]);
    assert(v@ =~= model::echo_with(msg@, csum));
    v
}

/// Answers a ping.
fn handle_echo(
    net: &NetIf,
    leased: &[u8; 4],
    frame: &[u8],
    src_ip: &[u8; 4],
    dst_ip: &[u8; 4],
    msg: &[u8],
    out: &mut Outbox,
)
    requires
        frame@.len() >= 12,
    ensures
        final(out)@ == model::on_echo(
            net@.mac,
            leased@,
            frame@,
            src_ip@,
            dst_ip@,
            msg@,
            old(out)@,
        ),
{
    if !is_address(leased) || !same4(dst_ip, leased) {
        return ;
    }
    if msg.len() < 8 || msg[0] != 8 || msg.len() > MAX_FRAME_SIZE - 34 {
        return ;
    }
    let our_mac: [u8; 6] = match net.mac {
        Some(m) => m,
        None => {
            return ;
        },
    };
    let src_mac: [u8; 6] = array6(frame, 6);
    let mut reply: Vec<u8> = Vec::new();
    push_eth_header(&mut reply, &src_mac, &our_mac, 0x0800);
    let f: Ipv4Fields = Ipv4Fields {
        tos: 0,
        total: (20 + msg.len()) as u16,
        id: 0,
        frag: 0,
        proto: 1,
    };
    push_ipv4_header(&mut reply, &f, leased, src_ip);
    let zeroed: Vec<u8> = echo_bytes(msg, 0);
    proof {
        packet::lemma_word_sum_bound(zeroed@, 0);
    }
    let csum: u16 = internet_checksum(&zeroed);
    let body: Vec<u8> = echo_bytes(msg, csum);
    push_all(&mut reply, &body);
    assert(reply@ =~= model::echo_reply(src_mac@, our_mac@, leased@, src_ip@, msg@));
    out.put(Outgoing::Frame(reply));
}

/// What the options of a DHCP message say.
struct DhcpOptions {
    msg_type: u8,
    server: [u8; 4],
    router: [u8; 4],
}

/// Reads the options of a DHCP message.
fn parse_options(server_ip: &[u8; 4], dhcp: &[u8]) -> (r: DhcpOptions)
    requires
        dhcp@.len() >= 240,
    ensures
        ({
            let opts = model::options(dhcp@, 240);
            &&& r.msg_type == model::message_type(opts)
            &&& r.server@ == model::address_option(opts, DHCP_OPT_SERVER_ID, server_ip@)
            &&& r.router@ == model::address_option(opts, DHCP_OPT_ROUTER, seq![0u8, 0, 0, 0])
        }),
{
    let mut r: DhcpOptions = DhcpOptions { msg_type: 0, server: *server_ip, router: [0, 0, 0, 0] };
    let mut i: usize = 240;
    let ghost mut seen: Seq<(u8, Seq<u8>)> = Seq::empty();
    let ghost all = model::options(dhcp@, 240);
    assert(r.router@ =~= seq![0u8, 0, 0, 0]);
    assert(seen + model::options(dhcp@, 240) =~= all);
    while i < dhcp.len()
        invariant_except_break
            240 <= i <= dhcp@.len(),
            seen + model::options(dhcp@, i as int) == all,
            r.msg_type == model::message_type(seen),
            r.server@ == model::address_option(seen, DHCP_OPT_SERVER_ID, server_ip@),
            r.router@ == model::address_option(seen, DHCP_OPT_ROUTER, seq![0u8, 0, 0, 0]),
        ensures
            r.msg_type == model::message_type(all),
            r.server@ == model::address_option(all, DHCP_OPT_SERVER_ID, server_ip@),
            r.router@ == model::address_option(all, DHCP_OPT_ROUTER, seq![0u8, 0, 0, 0]),
        decreases dhcp@.len() - i,
    {
        let opt: u8 = dhcp[i];
        if opt == 255 {
            assert(seen =~= all);
            break;
        }
        if opt == 0 {
            i = i + 1;
            if i == dhcp.len() {
                assert(model::options(dhcp@, i as int) =~= Seq::empty());
                assert(seen =~= all);
            }
            continue;
        }
        if i + 1 >= dhcp.len() {
            assert(seen =~= all);
            break;
        }
        let len: usize = dhcp[i + 1] as usize;
        if len > dhcp.len() - (i + 2) {
            assert(seen =~= all);
            break;
        }
        let ghost value = dhcp@.subrange(i + 2, i + 2 + len);
        let ghost next = seen.push((opt, value));
        proof {
            assert(next.drop_last() =~= seen);
            assert(next + model::options(dhcp@, i + 2 + len) =~= all);
        }
        if opt == DHCP_OPT_MSG_TYPE && len >= 1 {
            r.msg_type = dhcp[i + 2];
            assert(value[0] == dhcp@[i + 2]);
        } else if opt == DHCP_OPT_SERVER_ID && len >= 4 {
            r.server = array4(dhcp, i + 2);
            assert(value.take(4) =~= r.server@);
        } else if opt == DHCP_OPT_ROUTER && len >= 4 {
            r.router = array4(dhcp, i + 2);
            assert(value.take(4) =~= r.router@);
        }
        proof {
            seen = next;
        }
        i = i + 2 + len;
        if i == dhcp.len() {
            assert(seen =~= all);
        }
    }
    r
}

/// True for the DHCP magic cookie at offset 236.
fn has_magic(dhcp: &[u8]) -> (r: bool)
    requires
        dhcp@.len() >= 240,
    ensures
        r == (dhcp@.subrange(236, 240) == model::dhcp_magic()),
{
    let m: [u8; 4] = array4(dhcp, 236);
    let magic: [u8; 4] = [99, 130, 83, 99];
    assert(magic@ =~= model::dhcp_magic());
    same4(&m, &magic)
}

/// A DHCP message from `server_ip`.
fn handle_dhcp(n: &mut NetStack, server_ip: &[u8; 4], dhcp: &[u8])
    requires
        old(n).wf(),
    ensures
        final(n).wf(),
        final(n)@ == model::on_dhcp(old(n)@, server_ip@, dhcp@),
        final(n).net.mac == old(n).net.mac,
        final(n).net.neighbours == old(n).net.neighbours,
{
    if dhcp.len() < 240 {
        return ;
    }
    if dhcp[0] != 2 || !has_magic(dhcp) {
        return ;
    }
    if be32(dhcp, 4) != n.dhcp_xid {
        return ;
    }
    let yiaddr: [u8; 4] = array4(dhcp, 16);
    let o: DhcpOptions = parse_options(server_ip, dhcp);
    match n.dhcp_state {
        DhcpState::Discovering => {
            if o.msg_type == DHCP_MSG_OFFER {
                n.leased = yiaddr;
                n.server_ip = o.server;
                n.net.gateway = o.router;
                n.dhcp_state = DhcpState::Requesting;
                n.req_retries = 0;
                n.dhcp_retry = 0;
            }
        },
        DhcpState::Requesting => {
            if o.msg_type == DHCP_MSG_ACK {
                n.leased = yiaddr;
                n.net.ip = yiaddr;
                n.server_ip = o.server;
                n.net.gateway = o.router;
                n.dhcp_state = DhcpState::Bound;
            }
        },
        DhcpState::Init | DhcpState::Bound => {},
    }
}

/// A UDP datagram from `src_ip`.
fn handle_udp(n: &mut NetStack, src_ip: &[u8; 4], udp: &[u8])
    requires
        old(n).wf(),
    ensures
        final(n).wf(),
        final(n)@ == model::on_udp(old(n)@, src_ip@, udp@),
        final(n).net.mac == old(n).net.mac,
        final(n).net.neighbours == old(n).net.neighbours,
{
    if udp.len() <= 8 {
        return ;
    }
    if be16(udp, 0) == 67 && be16(udp, 2) == 68 {
        let body: &[u8] = &udp[8..udp.len()];
        assert(body@ =~= udp@.skip(8));
        handle_dhcp(n, src_ip, body);
    }
}

/// Appends everything of a DHCP request before its options: Ethernet, IPv4 and
/// UDP headers, the fixed fields and the magic cookie.
fn build_dhcp_eth_ip_udp(mac: &[u8; 6], xid: u32) -> (buf: Vec<u8>)
    ensures
        forall|opts: Seq<u8>|
            #![trigger model::dhcp_frame(mac@, xid, opts)]
            model::dhcp_frame(mac@, xid, opts) == buf@ + opts + model::zeros(
                (56 - opts.len()) as nat,
            ),
{
    let mut buf: Vec<u8> = Vec::new();
    let broadcast: [u8; 6] = [255, 255, 255, 255, 255, 255];
    push_eth_header(&mut buf, &broadcast, mac, 0x0800);
    let f: Ipv4Fields = Ipv4Fields { tos: 0x10, total: 324, id: 0x00AB, frag: 0, proto: 17 };
    let any: [u8; 4] = [0, 0, 0, 0];
    let all: [u8; 4] = [255, 255, 255, 255];
    push_ipv4_header(&mut buf, &f, &any, &all);
    push_be16(&mut buf, 68);
    push_be16(&mut buf, 67);
    push_be16(&mut buf, 304);
    push_be16(&mut buf, 0);
    let start: [u8; 4] = [1, 1, 6, 0];
    push_all(&mut buf, &start);
    push_be32(&mut buf, xid);
    let secs_flags: [u8; 4] = [0, 0, 0x80, 0];
    push_all(&mut buf, &secs_flags);
    push_zeros(&mut buf, 16);
    push_all(&mut buf, mac);
    push_zeros(&mut buf, 202);
    let magic: [u8; 4] = [99, 130, 83, 99];
    push_all(&mut buf, &magic);
    proof {
        assert(broadcast@ =~= seq![255u8, 255, 255, 255, 255, 255]);
        assert(any@ =~= seq![0u8, 0, 0, 0]);
        assert(all@ =~= seq![255u8, 255, 255, 255]);
        assert(start@ =~= seq![1u8, 1, 6, 0]);
        assert(secs_flags@ =~= seq![0u8, 0, 0x80, 0]);
        assert(magic@ =~= model::dhcp_magic());
        assert forall|opts: Seq<u8>|
            #![trigger model::dhcp_frame(mac@, xid, opts)]
            model::dhcp_frame(mac@, xid, opts) == buf@ + opts + model::zeros(
                (56 - opts.len()) as nat,
            ) by {
            assert(model::dhcp_frame(mac@, xid, opts) =~= buf@ + opts + model::zeros(
                (56 - opts.len()) as nat,
            ));
        }
    }
    buf
}

/// Sends a DISCOVER.
fn send_dhcp_discover(mac: &[u8; 6], xid: u32, out: &mut Outbox)
    ensures
        final(out)@ == old(out)@.push(
            crate::platform::qemu_virt::packet::Effect::Frame(
                model::dhcp_frame(mac@, xid, model::discover_options()),
            ),
        ),
{
    let mut pkt: Vec<u8> = build_dhcp_eth_ip_udp(mac, xid);
    let o: [u8; 8] = [
        DHCP_OPT_MSG_TYPE,
        1,
        1,
        55,
        2,
        DHCP_OPT_SUBNET_MASK,
        DHCP_OPT_ROUTER,
        255,
    ];
    assert(o@ =~= model::discover_options());
    push_all(&mut pkt, &o);
    push_zeros(&mut pkt, 48);
    assert(pkt@ =~= model::dhcp_frame(mac@, xid, model::discover_options()));
    out.put(Outgoing::Frame(pkt));
}

/// Sends a REQUEST for `requested_ip` to `server_ip`.
fn send_dhcp_request(
    mac: &[u8; 6],
    xid: u32,
    requested_ip: &[u8; 4],
    server_ip: &[u8; 4],
    out: &mut Outbox,
)
    ensures
        final(out)@ == old(out)@.push(
            crate::platform::qemu_virt::packet::Effect::Frame(
                model::dhcp_frame(
                    mac@,
                    xid,
                    model::request_options(requested_ip@, server_ip@),
                ),
            ),
        ),
{
    let mut pkt: Vec<u8> = build_dhcp_eth_ip_udp(mac, xid);
    let mut o: Vec<u8> = Vec::new();
    o.push(DHCP_OPT_MSG_TYPE);
    o.push(1);
    o.push(3);
    o.push(DHCP_OPT_REQUESTED_IP);
    o.push(4);
    push_all(&mut o, requested_ip);
    o.push(DHCP_OPT_SERVER_ID);
    o.push(4);
    push_all(&mut o, server_ip);
    o.push(255);
    assert(o@ =~= model::request_options(requested_ip@, server_ip@));
    push_all(&mut pkt, &o);
    push_zeros(&mut pkt, 40);
    assert(pkt@ =~= model::dhcp_frame(
        mac@,
        xid,
        model::request_options(requested_ip@, server_ip@),
    ));
    out.put(Outgoing::Frame(pkt));
}

/// An IPv4 packet in `frame`.
fn handle_ipv4(n: &mut NetStack, t: &mut TcpStack, frame: &[u8], ip: &[u8], out: &mut Outbox)
    requires
        old(n).wf(),
        old(t).wf(),
        frame@.len() >= 14,
        ip@.len() <= u32::MAX,
    ensures
        final(n).wf(),
        final(t).wf(),
        (World { net: final(n)@, tcp: final(t)@, fx: final(out)@ }) == model::on_ipv4(
            (World { net: old(n)@, tcp: old(t)@, fx: old(out)@ }),
            frame@,
            ip@,
        ),
        final(n).net.mac == old(n).net.mac,
        final(n).net.neighbours == old(n).net.neighbours,
{
    if ip.len() < 20 {
        return ;
    }
    let ihl: usize = (ip[0] % 16) as usize * 4;
    if ihl < 20 || ip.len() < ihl {
        return ;
    }
    let proto: u8 = ip[9];
    let src_ip: [u8; 4] = array4(ip, 12);
    let dst_ip: [u8; 4] = array4(ip, 16);
    let payload: &[u8] = &ip[ihl..ip.len()];
    assert(payload@ =~= ip@.skip(ihl as int));
    if proto == 1 {
        handle_echo(&n.net, &n.leased, frame, &src_ip, &dst_ip, payload, out);
    } else if proto == 6 {
        handle_segment(t, &n.net, frame, &src_ip, &dst_ip, payload, out);
    } else if proto == 17 {
        handle_udp(n, &src_ip, payload);
    }
}

/// One received Ethernet frame.
pub fn process_frame(n: &mut NetStack, t: &mut TcpStack, frame: &[u8], out: &mut Outbox)
    requires
        old(n).wf(),
        old(t).wf(),
        frame@.len() <= u32::MAX,
    ensures
        final(n).wf(),
        final(t).wf(),
        (World { net: final(n)@, tcp: final(t)@, fx: final(out)@ }) == model::on_frame(
            (World { net: old(n)@, tcp: old(t)@, fx: old(out)@ }),
            frame@,
        ),
        final(n).net.mac == old(n).net.mac,
        final(n).net.neighbours == old(n).net.neighbours,
{
    if frame.len() < 14 {
        return ;
    }
    let ethertype: u16 = be16(frame, 12);
    let body: &[u8] = &frame[14..frame.len()];
    assert(body@ =~= frame@.skip(14));
    if ethertype == 0x0806 {
        handle_arp(&n.net, &n.leased, body, out);
    } else if ethertype == 0x0800 {
        handle_ipv4(n, t, frame, body, out);
    }
}

/// The DHCP client's part of a tick.
fn dhcp_tick(n: &mut NetStack, mac: &[u8; 6], tick_count: u64, out: &mut Outbox)
    requires
        old(n).wf(),
        tick_count + DHCP_RETRY_TICKS <= u64::MAX,
    ensures
        final(n).wf(),
        final(n).net == old(n).net,
        (final(n)@, final(out)@) == model::dhcp_tick(old(n)@, mac@, tick_count, old(out)@),
{
    if tick_count < n.dhcp_retry {
        return ;
    }
    match n.dhcp_state {
        DhcpState::Discovering => {
            send_dhcp_discover(mac, n.dhcp_xid, out);
            n.dhcp_retry = tick_count + DHCP_RETRY_TICKS;
        },
        DhcpState::Requesting => {
            n.req_retries = n.req_retries + 1;
            if n.req_retries > 3 {
                n.dhcp_state = DhcpState::Discovering;
                n.req_retries = 0;
            } else {
                send_dhcp_request(mac, n.dhcp_xid, &n.leased, &n.server_ip, out);
            }
            n.dhcp_retry = tick_count + DHCP_RETRY_TICKS;
        },
        DhcpState::Init | DhcpState::Bound => {},
    }
}

/// Timer hook (100 Hz): handles the frames that arrived since the last tick
/// and moves the DHCP client on. Frames are cut to [`MAX_FRAME_SIZE`].
pub fn tick(
    n: &mut NetStack,
    t: &mut TcpStack,
    frames: &Vec<Vec<u8>>,
    tick_count: u64,
    out: &mut Outbox,
)
    requires
        old(n).wf(),
        old(t).wf(),
        tick_count + DHCP_RETRY_TICKS <= u64::MAX,
    ensures
        final(n).wf(),
        final(t).wf(),
        (World { net: final(n)@, tcp: final(t)@, fx: final(out)@ }) == model::ticked(
            (World { net: old(n)@, tcp: old(t)@, fx: old(out)@ }),
            frames@.map_values(|f: Vec<u8>| f@),
            tick_count,
        ),
{
    let mac: [u8; 6] = match n.net.mac {
        Some(m) => m,
        None => {
            return ;
        },
    };
    let ghost w0 = World { net: n@, tcp: t@, fx: out@ };
    let ghost fs = frames@.map_values(|f: Vec<u8>| f@);
    let mut i: usize = 0;
    while i < frames.len()
        invariant
            i <= frames@.len(),
            n.wf(),
            t.wf(),
            n.net.mac == Some(mac),
            fs == frames@.map_values(|f: Vec<u8>| f@),
            (World { net: n@, tcp: t@, fx: out@ }) == model::after_frames(w0, fs, i as nat),
        decreases frames@.len() - i,
    {
        let f: &Vec<u8> = &frames[i];
        let len: usize = if f.len() < MAX_FRAME_SIZE { f.len() } else { MAX_FRAME_SIZE };
        let mut buf: Vec<u8> = Vec::new();
        push_all(&mut buf, &f.as_slice()[0..len]);
        assert(buf@ =~= model::clipped_frame(fs[i as int]));
        process_frame(n, t, &buf, out);
        i = i + 1;
    }
    dhcp_tick(n, &mac, tick_count, out);
}

} // verus!
