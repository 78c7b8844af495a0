//! ARP, ICMP and DHCP as mathematics.
use crate::bytes;
use crate::platform::qemu_virt::net_stack::{
    DhcpState, DHCP_MSG_ACK, DHCP_MSG_OFFER, DHCP_OPT_MSG_TYPE, DHCP_OPT_REQUESTED_IP,
    DHCP_OPT_ROUTER, DHCP_OPT_SERVER_ID, DHCP_OPT_SUBNET_MASK, DHCP_RETRY_TICKS, MAX_FRAME_SIZE,
};
use crate::platform::qemu_virt::packet;
use crate::platform::qemu_virt::packet::{Effect, Ipv4Fields, NetIfModel};
use crate::platform::qemu_virt::tcp;
use crate::platform::qemu_virt::tcp::model::TcpModel;
use vstd::prelude::*;

verus! {

/// The DHCP client and the interface's addresses.
#[verifier::ext_equal]
pub struct NetModel {
    pub net: NetIfModel,
    pub leased: Seq<u8>,
    pub server_ip: Seq<u8>,
    pub dhcp_state: DhcpState,
    pub dhcp_xid: u32,
    pub dhcp_retry: u64,
    pub req_retries: u8,
}

/// No address.
pub open spec fn no_ip() -> Seq<u8> {
    seq![0u8, 0, 0, 0]
}

/// The stack at boot, over a device with hardware address `mac`.
pub open spec fn at_boot(mac: Option<Seq<u8>>) -> NetModel {
    NetModel {
        net: NetIfModel { ip: no_ip(), gateway: no_ip(), mac, neighbours: Seq::empty() },
        leased: no_ip(),
        server_ip: no_ip(),
        dhcp_state: DhcpState::Init,
        dhcp_xid: 0,
        dhcp_retry: 0,
        req_retries: 0,
    }
}

/// The interface has its address once DHCP has completed, and none before.
pub open spec fn address_ok(m: NetModel) -> bool {
    m.net.ip == (if m.dhcp_state is Bound {
        m.leased
    } else {
        no_ip()
    })
}

/// `n` zero bytes.
pub open spec fn zeros(n: nat) -> Seq<u8> {
    Seq::new(n, |i: int| 0u8)
}

// ---------------------------------------------------------------------------
// ARP
// ---------------------------------------------------------------------------

/// `arp` asks for our address, `ip`.
pub open spec fn asks_for_us(ip: Seq<u8>, arp: Seq<u8>) -> bool {
    &&& arp.len() >= 28
    &&& bytes::be16_at(arp, 6) == 1
    &&& ip != no_ip()
    &&& arp.subrange(24, 28) == ip
}

/// The reply to an ARP request: our addresses for the sender's.
pub open spec fn arp_reply(mac: Seq<u8>, ip: Seq<u8>, arp: Seq<u8>) -> Seq<u8> {
    packet::eth_header(arp.subrange(8, 14), mac, 0x0806) + seq![0u8, 1, 8, 0, 6, 4, 0, 2] + mac
        + ip + arp.subrange(8, 14) + arp.subrange(14, 18)
}

/// An ARP packet arrives; `leased` is our address, also while it is only offered.
pub open spec fn on_arp(mac: Option<Seq<u8>>, leased: Seq<u8>, arp: Seq<u8>, fx: Seq<Effect>) -> Seq<
    Effect,
> {
    match mac {
        Some(mac) => if asks_for_us(leased, arp) {
            fx.push(Effect::Frame(arp_reply(mac, leased, arp)))
        } else {
            fx
        },
        None => fx,
    }
}

// ---------------------------------------------------------------------------
// ICMP
// ---------------------------------------------------------------------------

/// An echo reply with the given checksum field: everything behind the
/// checksum comes from the request.
pub open spec fn echo_with(msg: Seq<u8>, csum: u16) -> Seq<u8> {
    seq![0u8, 0u8] + bytes::be16_bytes(csum) + msg.skip(4)
}

/// The frame that answers an echo request.
pub open spec fn echo_reply(
    dst_mac: Seq<u8>,
    mac: Seq<u8>,
    ip: Seq<u8>,
    src_ip: Seq<u8>,
    msg: Seq<u8>,
) -> Seq<u8> {
    packet::eth_header(dst_mac, mac, 0x0800) + packet::ipv4_header(
        (Ipv4Fields { tos: 0, total: (20 + msg.len()) as u16, id: 0, frag: 0, proto: 1 }),
        ip,
        src_ip,
    ) + echo_with(msg, packet::checksum_of(echo_with(msg, 0)))
}

/// `msg`, sent to `dst_ip`, is an echo request that we answer.
pub open spec fn echo_request(leased: Seq<u8>, dst_ip: Seq<u8>, msg: Seq<u8>) -> bool {
    &&& leased != no_ip()
    &&& dst_ip == leased
    &&& 8 <= msg.len() <= MAX_FRAME_SIZE - 34
    &&& msg[0] == 8
}

/// An ICMP message arrives; `leased` is our address, also while it is only offered.
pub open spec fn on_echo(
    mac: Option<Seq<u8>>,
    leased: Seq<u8>,
    frame: Seq<u8>,
    src_ip: Seq<u8>,
    dst_ip: Seq<u8>,
    msg: Seq<u8>,
    fx: Seq<Effect>,
) -> Seq<Effect> {
    match mac {
        Some(mac) => if echo_request(leased, dst_ip, msg) {
            fx.push(
                Effect::Frame(echo_reply(frame.subrange(6, 12), mac, leased, src_ip, msg)),
            )
        } else {
            fx
        },
        None => fx,
    }
}

// ---------------------------------------------------------------------------
// DHCP messages
// ---------------------------------------------------------------------------

/// The magic cookie.
pub open spec fn dhcp_magic() -> Seq<u8> {
    seq![99u8, 130, 83, 99]
}

/// The options of a DHCP message from offset `i` on, as pairs of code and
/// value: pads are skipped, the end marker or a truncated option ends the
/// list.
pub open spec fn options(d: Seq<u8>, i: int) -> Seq<(u8, Seq<u8>)>
    decreases d.len() - i,
{
    if i < 0 || i >= d.len() || d[i] == 255 {
        Seq::empty()
    } else if d[i] == 0 {
        options(d, i + 1)
    } else if i + 1 >= d.len() || i + 2 + d[i + 1] > d.len() {
        Seq::empty()
    } else {
        seq![(d[i], d.subrange(i + 2, i + 2 + d[i + 1]))] + options(d, i + 2 + d[i + 1])
    }
}

/// The value of the last option `code` that has at least `min` bytes.
pub open spec fn last_option(opts: Seq<(u8, Seq<u8>)>, code: u8, min: nat) -> Option<Seq<u8>>
    decreases opts.len(),
{
    if opts.len() == 0 {
        None
    } else if opts.last().0 == code && opts.last().1.len() >= min {
        Some(opts.last().1)
    } else {
        last_option(opts.drop_last(), code, min)
    }
}

/// The message type that the options give (0 without one).
pub open spec fn message_type(opts: Seq<(u8, Seq<u8>)>) -> u8 {
    match last_option(opts, DHCP_OPT_MSG_TYPE, 1) {
        Some(v) => v[0],
        None => 0,
    }
}

/// The address that option `code` gives, or `other` without one.
pub open spec fn address_option(opts: Seq<(u8, Seq<u8>)>, code: u8, other: Seq<u8>) -> Seq<u8> {
    match last_option(opts, code, 4) {
        Some(v) => v.take(4),
        None => other,
    }
}

/// A well-formed BOOTREPLY for transaction `xid`.
pub open spec fn dhcp_reply_to(xid: u32, d: Seq<u8>) -> bool {
    &&& d.len() >= 240
    &&& d[0] == 2
    &&& d.subrange(236, 240) == dhcp_magic()
    &&& bytes::be32_at(d, 4) == xid
}

/// The configuration that a reply carries.
pub open spec fn configured(m: NetModel, server_ip: Seq<u8>, d: Seq<u8>) -> NetModel {
    let opts = options(d, 240);
    NetModel {
        net: NetIfModel {
            gateway: address_option(opts, DHCP_OPT_ROUTER, no_ip()),
            ..m.net
        },
        leased: d.subrange(16, 20),
        server_ip: address_option(opts, DHCP_OPT_SERVER_ID, server_ip),
        ..m
    }
}

/// A DHCP message arrives from `server_ip`: an offer is taken while we are
/// discovering, an acknowledgement while we are requesting; anything else is
/// ignored.
pub open spec fn on_dhcp(m: NetModel, server_ip: Seq<u8>, d: Seq<u8>) -> NetModel {
    let kind = message_type(options(d, 240));
    if !dhcp_reply_to(m.dhcp_xid, d) {
        m
    } else if m.dhcp_state is Discovering && kind == DHCP_MSG_OFFER {
        NetModel {
            dhcp_state: DhcpState::Requesting,
            req_retries: 0,
            dhcp_retry: 0,
            ..configured(m, server_ip, d)
        }
    } else if m.dhcp_state is Requesting && kind == DHCP_MSG_ACK {
        let c = configured(m, server_ip, d);
        NetModel {
            dhcp_state: DhcpState::Bound,
            net: NetIfModel { ip: c.leased, ..c.net },
            ..c
        }
    } else {
        m
    }
}

/// A UDP datagram arrives: only DHCP replies (port 67 to 68) matter.
pub open spec fn on_udp(m: NetModel, src_ip: Seq<u8>, udp: Seq<u8>) -> NetModel {
    if udp.len() > 8 && bytes::be16_at(udp, 0) == 67 && bytes::be16_at(udp, 2) == 68 {
        on_dhcp(m, src_ip, udp.skip(8))
    } else {
        m
    }
}

/// The 338-byte DHCP request frame with the given options, which are padded
/// to 56 bytes.
pub open spec fn dhcp_frame(mac: Seq<u8>, xid: u32, opts: Seq<u8>) -> Seq<u8> {
    packet::eth_header(seq![255u8, 255, 255, 255, 255, 255], mac, 0x0800) + packet::ipv4_header(
        (Ipv4Fields { tos: 0x10, total: 324, id: 0x00AB, frag: 0, proto: 17 }),
        seq![0u8, 0, 0, 0],
        seq![255u8, 255, 255, 255],
    ) + bytes::be16_bytes(68) + bytes::be16_bytes(67) + bytes::be16_bytes(304)
        + bytes::be16_bytes(0) + seq![1u8, 1, 6, 0] + bytes::be32_bytes(xid) + seq![
        0u8,
        0,
        0x80,
        0,
    ] + zeros(16) + mac + zeros(202) + dhcp_magic() + opts + zeros((56 - opts.len()) as nat)
}

/// The options of a DISCOVER: message type, and a request for mask and router.
pub open spec fn discover_options() -> Seq<u8> {
    seq![DHCP_OPT_MSG_TYPE, 1, 1, 55, 2, DHCP_OPT_SUBNET_MASK, DHCP_OPT_ROUTER, 255]
}

/// The options of a REQUEST: message type, the address asked for, the server.
pub open spec fn request_options(ip: Seq<u8>, server: Seq<u8>) -> Seq<u8> {
    seq![DHCP_OPT_MSG_TYPE, 1, 3, DHCP_OPT_REQUESTED_IP, 4] + ip + seq![DHCP_OPT_SERVER_ID, 4]
        + server + seq![255u8]
}

// ---------------------------------------------------------------------------
// Frames and ticks
// ---------------------------------------------------------------------------

/// Everything that an inbound frame can change.
#[verifier::ext_equal]
pub struct World {
    pub net: NetModel,
    pub tcp: TcpModel,
    pub fx: Seq<Effect>,
}

/// Header length of an IPv4 packet.
pub open spec fn ip_header_len(ip: Seq<u8>) -> int {
    ip[0] % 16 * 4
}

/// An IPv4 packet arrives in `frame`.
pub open spec fn on_ipv4(w: World, frame: Seq<u8>, ip: Seq<u8>) -> World {
    if ip.len() < 20 || ip_header_len(ip) < 20 || ip.len() < ip_header_len(ip) {
        w
    } else {
        let src_ip = ip.subrange(12, 16);
        let dst_ip = ip.subrange(16, 20);
        let payload = ip.skip(ip_header_len(ip));
        if ip[9] == 1 {
            World {
                fx: on_echo(
                    w.net.net.mac,
                    w.net.leased,
                    frame,
                    src_ip,
                    dst_ip,
                    payload,
                    w.fx,
                ),
                ..w
            }
        } else if ip[9] == 6 {
            let (t, fx) = tcp::model::tcp_input(
                w.tcp,
                w.net.net,
                frame,
                src_ip,
                dst_ip,
                payload,
                w.fx,
            );
            World { tcp: t, fx: fx, ..w }
        } else if ip[9] == 17 {
            World { net: on_udp(w.net, src_ip, payload), ..w }
        } else {
            w
        }
    }
}

/// An Ethernet frame arrives.
pub open spec fn on_frame(w: World, frame: Seq<u8>) -> World {
    if frame.len() < 14 {
        w
    } else if bytes::be16_at(frame, 12) == 0x0806 {
        World { fx: on_arp(w.net.net.mac, w.net.leased, frame.skip(14), w.fx), ..w }
    } else if bytes::be16_at(frame, 12) == 0x0800 {
        on_ipv4(w, frame, frame.skip(14))
    } else {
        w
    }
}

/// What of a received frame is kept.
pub open spec fn clipped_frame(frame: Seq<u8>) -> Seq<u8> {
    if frame.len() <= MAX_FRAME_SIZE {
        frame
    } else {
        frame.take(MAX_FRAME_SIZE as int)
    }
}

/// The first `n` of the received frames, one after the other.
pub open spec fn after_frames(w: World, frames: Seq<Seq<u8>>, n: nat) -> World
    decreases n,
{
    if n == 0 {
        w
    } else {
        on_frame(
            after_frames(w, frames, (n - 1) as nat),
            clipped_frame(frames[n - 1]),
        )
    }
}

/// One timer tick with the frames that have arrived: all of them are handled,
/// then the DHCP client has its turn. Without a device nothing happens.
pub open spec fn ticked(w: World, frames: Seq<Seq<u8>>, now: u64) -> World {
    match w.net.net.mac {
        None => w,
        Some(mac) => {
            let w1 = after_frames(w, frames, frames.len());
            let (net, fx) = dhcp_tick(w1.net, mac, now, w1.fx);
            World { net: net, fx: fx, ..w1 }
        },
    }
}

/// The DHCP client's part of a tick: (re)send what is due, and fall back to
/// discovery after three unanswered requests.
pub open spec fn dhcp_tick(m: NetModel, mac: Seq<u8>, now: u64, fx: Seq<Effect>) -> (
    NetModel,
    Seq<Effect>,
) {
    let next = (now + DHCP_RETRY_TICKS) as u64;
    if now < m.dhcp_retry {
        (m, fx)
    } else {
        match m.dhcp_state {
            DhcpState::Discovering => (
                NetModel { dhcp_retry: next, ..m },
                fx.push(Effect::Frame(dhcp_frame(mac, m.dhcp_xid, discover_options()))),
            ),
            DhcpState::Requesting => if m.req_retries < 3 {
                (
                    NetModel { req_retries: (m.req_retries + 1) as u8, dhcp_retry: next, ..m },
                    fx.push(
                        Effect::Frame(
                            dhcp_frame(mac, m.dhcp_xid, request_options(m.leased, m.server_ip)),
                        ),
                    ),
                )
            } else {
                (
                    NetModel {
                        dhcp_state: DhcpState::Discovering,
                        req_retries: 0,
                        dhcp_retry: next,
                        ..m
                    },
                    fx,
                )
            },
            DhcpState::Init | DhcpState::Bound => (m, fx),
        }
    }
}

// ---------------------------------------------------------------------------
// Laws
// ---------------------------------------------------------------------------

/// Once bound, no DHCP message changes the configuration.
pub proof fn law_bound_is_final(m: NetModel, server_ip: Seq<u8>, d: Seq<u8>)
    requires
        m.dhcp_state is Bound,
    ensures
        on_dhcp(m, server_ip, d) == m,
{
}

/// The interface has an address exactly from the acknowledgement on: an offer gives it
/// none, and a message or a tick that leaves DHCP incomplete leaves it without one.
pub proof fn law_address_comes_with_the_acknowledgement(
    m: NetModel,
    server_ip: Seq<u8>,
    d: Seq<u8>,
    mac: Seq<u8>,
    now: u64,
    fx: Seq<Effect>,
)
    requires
        address_ok(m),
    ensures
        address_ok(on_dhcp(m, server_ip, d)),
        address_ok(dhcp_tick(m, mac, now, fx).0),
        on_dhcp(m, server_ip, d).net.ip != m.net.ip ==> m.dhcp_state is Requesting && dhcp_reply_to(
            m.dhcp_xid,
            d,
        ) && message_type(options(d, 240)) == DHCP_MSG_ACK && on_dhcp(m, server_ip, d).net.ip
            == d.subrange(16, 20),
        dhcp_tick(m, mac, now, fx).0.net == m.net,
{
}

/// A reply to someone else's transaction is ignored.
pub proof fn law_foreign_reply_ignored(m: NetModel, server_ip: Seq<u8>, d: Seq<u8>)
    requires
        d.len() >= 240,
        bytes::be32_at(d, 4) != m.dhcp_xid,
    ensures
        on_dhcp(m, server_ip, d) == m,
{
}

/// The client gives up on an offer: when nothing arrives, the fourth due tick
/// in `Requesting` falls back to `Discovering`.
pub proof fn law_request_gives_up(
    m: NetModel,
    mac: Seq<u8>,
    t0: u64,
    t1: u64,
    t2: u64,
    t3: u64,
    fx: Seq<Effect>,
)
    requires
        m.dhcp_state is Requesting,
        m.req_retries == 0,
        m.dhcp_retry <= t0,
        t0 + DHCP_RETRY_TICKS <= t1,
        t1 + DHCP_RETRY_TICKS <= t2,
        t2 + DHCP_RETRY_TICKS <= t3,
        t3 + DHCP_RETRY_TICKS <= u64::MAX,
    ensures
        ({
            let (m0, fx0) = dhcp_tick(m, mac, t0, fx);
            let (m1, fx1) = dhcp_tick(m0, mac, t1, fx0);
            let (m2, fx2) = dhcp_tick(m1, mac, t2, fx1);
            let (m3, fx3) = dhcp_tick(m2, mac, t3, fx2);
            &&& m2.dhcp_state is Requesting
            &&& fx2.len() == fx.len() + 3
            &&& m3.dhcp_state is Discovering
            &&& fx3 == fx2
        }),
{
}

/// The echo reply checks out at the receiver, and carries the identifier, the
/// sequence number and the data of the request.
pub proof fn law_echo_reply(
    dst_mac: Seq<u8>,
    mac: Seq<u8>,
    ip: Seq<u8>,
    src_ip: Seq<u8>,
    msg: Seq<u8>,
)
    requires
        dst_mac.len() == 6,
        mac.len() == 6,
        ip.len() == 4,
        src_ip.len() == 4,
        8 <= msg.len() <= MAX_FRAME_SIZE - 34,
    ensures
        ({
            let f = echo_reply(dst_mac, mac, ip, src_ip, msg);
            &&& f.len() == 34 + msg.len()
            &&& packet::checksum_of(f.subrange(14, 34)) == 0
            &&& packet::checksum_of(f.skip(34)) == 0
            &&& f.skip(38) == msg.skip(4)
        }),
{
    let f = echo_reply(dst_mac, mac, ip, src_ip, msg);
    let h = Ipv4Fields { tos: 0, total: (20 + msg.len()) as u16, id: 0, frag: 0, proto: 1 };
    let h0 = packet::ipv4_header_with(h, ip, src_ip, 0);
    let hc = packet::checksum_of(h0);
    packet::law_checksum_verifies(h0, 10);
    assert(h0.update(10, (hc / 256) as u8).update(11, (hc % 256) as u8) =~= f.subrange(14, 34));
    let e0 = echo_with(msg, 0);
    let ec = packet::checksum_of(e0);
    packet::law_checksum_verifies(e0, 2);
    assert(e0.update(2, (ec / 256) as u8).update(3, (ec % 256) as u8) =~= f.skip(34));
    assert(f.skip(38) =~= msg.skip(4));
}

/// A DHCP request frame has its fixed size, a valid IPv4 header, and carries
/// the transaction number, our hardware address and the options.
pub proof fn law_dhcp_frame(mac: Seq<u8>, xid: u32, opts: Seq<u8>)
    requires
        mac.len() == 6,
        opts.len() <= 56,
    ensures
        ({
            let f = dhcp_frame(mac, xid, opts);
            &&& f.len() == 338
            &&& packet::checksum_of(f.subrange(14, 34)) == 0
            &&& f.subrange(46, 50) == bytes::be32_bytes(xid)
            &&& f.subrange(70, 76) == mac
            &&& f.subrange(278, 282) == dhcp_magic()
            &&& f.subrange(282, 282int + opts.len()) == opts
        }),
{
    let f = dhcp_frame(mac, xid, opts);
    let h = Ipv4Fields { tos: 0x10, total: 324, id: 0x00AB, frag: 0, proto: 17 };
    let any = seq![0u8, 0, 0, 0];
    let all = seq![255u8, 255, 255, 255];
    let h0 = packet::ipv4_header_with(h, any, all, 0);
    let hc = packet::checksum_of(h0);
    packet::law_checksum_verifies(h0, 10);
    assert(h0.update(10, (hc / 256) as u8).update(11, (hc % 256) as u8) =~= f.subrange(14, 34));
    assert(f.subrange(46, 50) =~= bytes::be32_bytes(xid));
    assert(f.subrange(70, 76) =~= mac);
    assert(f.subrange(278, 282) =~= dhcp_magic());
    assert(f.subrange(282, 282int + opts.len()) =~= opts);
}

} // verus!
