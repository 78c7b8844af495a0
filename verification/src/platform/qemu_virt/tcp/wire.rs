//! What the peer of a connection sees on the wire: which sequence numbers the segments
//! carry, what they acknowledge, and how a connection opens, moves data and ends.
use crate::platform::qemu_virt::packet;
use crate::platform::qemu_virt::packet::{Effect, NetIfModel, TcpFields};
use crate::platform::qemu_virt::tcp::model;
use crate::platform::qemu_virt::tcp::model::{
    ConsoleModel, ConsoleState, SegmentModel, SocketModel, TcpModel,
};
use crate::platform::qemu_virt::tcp::SockState;
use crate::ring;
use vstd::prelude::*;

verus! {

/// The interface has an address of its own and a device to send with.
pub open spec fn online(net: NetIfModel) -> bool {
    &&& net.ip.len() == 4
    &&& net.ip != seq![0u8, 0u8, 0u8, 0u8]
    &&& net.mac is Some
    &&& net.mac->0.len() == 6
}

/// The two ends of a connection as one end names them: its own port, and the peer's
/// hardware address, IP address and port.
pub struct Ends {
    pub port: u16,
    pub peer_mac: Seq<u8>,
    pub peer_ip: Seq<u8>,
    pub peer_port: u16,
}

/// The ends of a socket's connection.
pub open spec fn ends_of(s: SocketModel) -> Ends {
    Ends {
        port: s.local_port,
        peer_mac: s.peer_mac,
        peer_ip: s.peer_ip,
        peer_port: s.peer_port,
    }
}

/// The sequence number `n` places behind `x`.
pub open spec fn behind(x: u32, n: int) -> int {
    (x + n) % 0x1_0000_0000
}

/// The request transmits a frame that takes a segment from us to the peer, with these
/// sequence and acknowledgement numbers, flags and payload.
pub open spec fn is_segment(
    e: Effect,
    net: NetIfModel,
    ends: Ends,
    seq: int,
    ack: int,
    flags: u8,
    payload: Seq<u8>,
) -> bool {
    &&& e is Frame
    &&& e->Frame_0.subrange(0, 6) == ends.peer_mac
    &&& Some(e->Frame_0.subrange(6, 12)) == net.mac
    &&& crate::bytes::be16_at(e->Frame_0, 12) == 0x0800
    &&& e->Frame_0[14] == 0x45
    &&& crate::bytes::be16_at(e->Frame_0, 16) == e->Frame_0.len() - 14
    &&& e->Frame_0[23] == 6
    &&& e->Frame_0.subrange(26, 30) == net.ip
    &&& e->Frame_0.subrange(30, 34) == ends.peer_ip
    &&& crate::bytes::be16_at(e->Frame_0, 34) == ends.port
    &&& crate::bytes::be16_at(e->Frame_0, 36) == ends.peer_port
    &&& crate::bytes::be32_at(e->Frame_0, 38) == seq
    &&& crate::bytes::be32_at(e->Frame_0, 42) == ack
    &&& e->Frame_0[46] == 0x50
    &&& e->Frame_0[47] == flags
    &&& e->Frame_0.skip(54) == payload
}

/// The window that a segment advertises.
pub open spec fn advertised(e: Effect) -> int {
    crate::bytes::be16_at(e->Frame_0, 48)
}

/// A frame of one segment, read by the receiver.
proof fn lemma_frame(
    net: NetIfModel,
    peer_mac: Seq<u8>,
    peer_ip: Seq<u8>,
    h: TcpFields,
    payload: Seq<u8>,
)
    requires
        net.ip.len() == 4,
        net.mac is Some,
        net.mac->0.len() == 6,
        peer_mac.len() == 6,
        peer_ip.len() == 4,
        payload.len() <= 1200,
    ensures
        ({
            let e = Effect::Frame(
                packet::tcp_frame(peer_mac, net.mac->0, net.ip, peer_ip, h, payload),
            );
            &&& is_segment(
                e,
                net,
                (Ends {
                    port: h.src_port,
                    peer_mac: peer_mac,
                    peer_ip: peer_ip,
                    peer_port: h.dst_port,
                }),
                h.seq as int,
                h.ack as int,
                h.flags,
                payload,
            )
            &&& advertised(e) == h.window
        }),
{
    packet::law_tcp_frame_fields(peer_mac, net.mac->0, net.ip, peer_ip, h, payload);
}

/// A segment of a socket, read by the receiver.
proof fn lemma_segment(s: SocketModel, net: NetIfModel, flags: u8, payload: Seq<u8>, fx: Seq<Effect>)
    requires
        model::socket_inv(s),
        online(net),
        payload.len() <= 1200,
    ensures
        ({
            let (t, gx) = model::sent(s, net, flags, payload, fx);
            &&& gx.len() == fx.len() + 1
            &&& gx.drop_last() == fx
            &&& is_segment(
                gx.last(),
                net,
                ends_of(s),
                s.snd_nxt as int,
                s.rcv_nxt as int,
                flags,
                payload,
            )
            &&& advertised(gx.last()) == 1023 - s.rx.len()
            &&& t == (SocketModel { snd_nxt: t.snd_nxt, ..s })
            &&& t.snd_nxt == behind(s.snd_nxt, payload.len() as int)
        }),
{
    let h = TcpFields {
        src_port: s.local_port,
        dst_port: s.peer_port,
        seq: s.snd_nxt,
        ack: s.rcv_nxt,
        window: model::window_of(s) as u16,
        flags: flags,
    };
    lemma_frame(net, s.peer_mac, s.peer_ip, h, payload);
    let gx = model::sent(s, net, flags, payload, fx).1;
    assert(gx.drop_last() =~= fx);
}

// ---------------------------------------------------------------------------
// Sending
// ---------------------------------------------------------------------------

/// How many of `n` bytes a queue takes that holds 1023 and has `queued` already.
pub open spec fn room_for(queued: int, n: int) -> int {
    if n <= 1023 - queued {
        n
    } else {
        1023 - queued
    }
}

/// Consecutive sends cover the byte stream without gap or overlap: the first segment has the
/// connection's next sequence number and carries what was queued followed by what was
/// accepted, the second one starts where the first one ended, and afterwards the next
/// sequence number is past both. Nothing is sent for no bytes; no other slot changes.
pub proof fn law_stream_is_contiguous(
    m: TcpModel,
    net: NetIfModel,
    i: int,
    a: Seq<u8>,
    b: Seq<u8>,
    fx: Seq<Effect>,
)
    requires
        model::inv(m),
        0 <= i < 4,
        m.socks[i].state is Established || m.socks[i].state is CloseWait,
        online(net),
    ensures
        ({
            let s = m.socks[i];
            let (m1, fx1) = model::sending(m, net, i, a, fx);
            let (m2, fx2) = model::sending(m1, net, i, b, fx1);
            let first = s.tx + a.take(room_for(s.tx.len() as int, a.len() as int));
            let second = b.take(room_for(0, b.len() as int));
            &&& model::sendable(m, i, a) == room_for(s.tx.len() as int, a.len() as int)
            &&& model::sendable(m1, i, b) == room_for(0, b.len() as int)
            &&& first.len() > 0 ==> fx1.len() == fx.len() + 1 && fx1.drop_last() == fx
                && is_segment(
                fx1.last(),
                net,
                ends_of(s),
                s.snd_nxt as int,
                s.rcv_nxt as int,
                0x18,
                first,
            )
            &&& first.len() == 0 ==> fx1 == fx
            &&& second.len() > 0 ==> fx2.len() == fx1.len() + 1 && fx2.drop_last() == fx1
                && is_segment(
                fx2.last(),
                net,
                ends_of(s),
                behind(s.snd_nxt, first.len() as int),
                s.rcv_nxt as int,
                0x18,
                second,
            )
            &&& second.len() == 0 ==> fx2 == fx1
            &&& m1.socks[i].snd_nxt == behind(s.snd_nxt, first.len() as int)
            &&& m2.socks[i].snd_nxt == behind(
                s.snd_nxt,
                (first.len() + second.len()) as int,
            )
            &&& m2.socks[i] == (SocketModel {
                tx: Seq::empty(),
                snd_nxt: m2.socks[i].snd_nxt,
                ..s
            })
            &&& m2 == (TcpModel { socks: m2.socks, ..m })
            &&& m2.socks.len() == 4
            &&& forall|j: int| 0 <= j < 4 && j != i ==> #[trigger] m2.socks[j] == m.socks[j]
        }),
{
    let s = m.socks[i];
    assert(model::socket_inv(s));
    let (m1, fx1) = model::sending(m, net, i, a, fx);
    let (m2, fx2) = model::sending(m1, net, i, b, fx1);
    let first = s.tx + a.take(room_for(s.tx.len() as int, a.len() as int));
    let second = b.take(room_for(0, b.len() as int));
    let none = Seq::<u8>::empty();
    let s0 = SocketModel { tx: none, ..s };
    if first.len() > 0 {
        lemma_segment(s0, net, 0x18, first, fx);
    } else {
        assert(first =~= none);
        assert(s.tx =~= none);
    }
    let s1 = m1.socks[i];
    assert(s1 == SocketModel { tx: none, snd_nxt: s1.snd_nxt, ..s });
    assert(s1.tx + second =~= second);
    if second.len() > 0 {
        lemma_segment(SocketModel { tx: none, ..s1 }, net, 0x18, second, fx1);
    } else {
        assert(second =~= none);
    }
}

/// Without an address of our own nothing is sent: what fits is queued, behind what is
/// queued already, and the position stays. The next tick after the address has come sends
/// it all, from that position on.
pub proof fn law_queued_bytes_go_out(
    m: TcpModel,
    down: NetIfModel,
    i: int,
    a: Seq<u8>,
    fx: Seq<Effect>,
    net: NetIfModel,
    now: u64,
    iss: u32,
    gx: Seq<Effect>,
)
    requires
        model::inv(m),
        0 <= i < 4,
        m.socks[i].state is Established || m.socks[i].state is CloseWait,
        down.ip == seq![0u8, 0u8, 0u8, 0u8],
        online(net),
    ensures
        ({
            let s = m.socks[i];
            let (m1, fx1) = model::sending(m, down, i, a, fx);
            let queue = s.tx + a.take(room_for(s.tx.len() as int, a.len() as int));
            let (t, iss1, gx1) = model::socket_tick(m1.socks[i], net, now, iss, gx);
            &&& fx1 == fx
            &&& m1.socks[i] == (SocketModel { tx: queue, ..s })
            &&& iss1 == iss
            &&& t == (SocketModel { tx: Seq::empty(), snd_nxt: t.snd_nxt, ..s })
            &&& t.snd_nxt == behind(s.snd_nxt, queue.len() as int)
            &&& queue.len() == 0 ==> gx1 == gx
            &&& queue.len() > 0 ==> gx1.len() == gx.len() + 1 && gx1.drop_last() == gx
                && is_segment(
                gx1.last(),
                net,
                ends_of(s),
                s.snd_nxt as int,
                s.rcv_nxt as int,
                0x18,
                queue,
            )
        }),
{
    let s = m.socks[i];
    assert(model::socket_inv(s));
    let queue = s.tx + a.take(room_for(s.tx.len() as int, a.len() as int));
    let none = Seq::<u8>::empty();
    if queue.len() > 0 {
        lemma_segment(SocketModel { tx: none, ..s }, net, 0x18, queue, gx);
    } else {
        assert(queue =~= none);
    }
}

// ---------------------------------------------------------------------------
// Which socket a segment is for
// ---------------------------------------------------------------------------

/// Socket `s` is one end of the connection on which `seg` arrives.
pub open spec fn belongs(s: SocketModel, seg: SegmentModel) -> bool {
    &&& !(s.state is Free)
    &&& !(s.state is Listen)
    &&& s.local_port == seg.dst_port
    &&& s.peer_ip == seg.src_ip
    &&& s.peer_port == seg.src_port
}

proof fn lemma_first_owner(socks: Seq<SocketModel>, seg: SegmentModel, from: int, i: int)
    requires
        0 <= from <= i < socks.len(),
        belongs(socks[i], seg),
        forall|j: int| from <= j < i ==> !belongs(#[trigger] socks[j], seg),
    ensures
        model::connection_slot(socks, seg.dst_port, seg.src_ip, seg.src_port, from) == Some(i),
    decreases i - from,
{
    if from < i {
        assert(!belongs(socks[from], seg));
        lemma_first_owner(socks, seg, from + 1, i);
    }
}

proof fn lemma_no_owner(socks: Seq<SocketModel>, seg: SegmentModel, from: int)
    requires
        0 <= from,
        forall|j: int| from <= j < socks.len() ==> !belongs(#[trigger] socks[j], seg),
    ensures
        model::connection_slot(socks, seg.dst_port, seg.src_ip, seg.src_port, from) is None,
    decreases socks.len() - from,
{
    if from < socks.len() {
        assert(!belongs(socks[from], seg));
        lemma_no_owner(socks, seg, from + 1);
    }
}

proof fn lemma_first_listener(socks: Seq<SocketModel>, port: u16, from: int, l: int)
    requires
        0 <= from <= l < socks.len(),
        socks[l].state is Listen,
        socks[l].local_port == port,
        forall|j: int|
            from <= j < l ==> !((#[trigger] socks[j]).state is Listen && socks[j].local_port
                == port),
    ensures
        model::listener_slot(socks, port, from) == Some(l),
    decreases l - from,
{
    if from < l {
        lemma_first_listener(socks, port, from + 1, l);
    }
}

proof fn lemma_no_listener(socks: Seq<SocketModel>, port: u16, from: int)
    requires
        0 <= from,
        forall|j: int|
            from <= j < socks.len() ==> !((#[trigger] socks[j]).state is Listen
                && socks[j].local_port == port),
    ensures
        model::listener_slot(socks, port, from) is None,
    decreases socks.len() - from,
{
    if from < socks.len() {
        lemma_no_listener(socks, port, from + 1);
    }
}

proof fn lemma_first_free(socks: Seq<SocketModel>, from: int, c: int)
    requires
        0 <= from <= c < socks.len(),
        socks[c].state is Free,
        forall|j: int| from <= j < c ==> !((#[trigger] socks[j]).state is Free),
    ensures
        model::free_slot(socks, from) == Some(c),
    decreases c - from,
{
    if from < c {
        lemma_first_free(socks, from + 1, c);
    }
}

/// A segment of a connection reaches the socket of that connection and no other; what it
/// does there depends on that socket alone.
pub proof fn law_segment_reaches_its_connection(
    m: TcpModel,
    net: NetIfModel,
    seg: SegmentModel,
    i: int,
    fx: Seq<Effect>,
)
    requires
        model::inv(m),
        0 <= i < 4,
        belongs(m.socks[i], seg),
        forall|j: int| 0 <= j < i ==> !belongs(#[trigger] m.socks[j], seg),
    ensures
        ({
            let (m1, fx1) = model::user_segment(m, net, seg, fx);
            &&& (m1.socks[i], fx1) == model::on_segment(m.socks[i], net, seg, m.now, fx)
            &&& m1.socks.len() == 4
            &&& forall|j: int| 0 <= j < 4 && j != i ==> #[trigger] m1.socks[j] == m.socks[j]
            &&& m1 == (TcpModel { socks: m1.socks, ..m })
        }),
{
    lemma_first_owner(m.socks, seg, 0, i);
}

/// A segment that no socket claims, and for which nobody listens, changes no socket and is
/// answered by a reset. One that acknowledges something gets a reset with exactly that
/// sequence number; any other gets one that acknowledges the bytes and flags that it
/// occupies, and at least one place.
pub proof fn law_unclaimed_segment_is_reset(
    m: TcpModel,
    net: NetIfModel,
    seg: SegmentModel,
    fx: Seq<Effect>,
)
    requires
        model::inv(m),
        online(net),
        seg.src_mac.len() == 6,
        seg.src_ip.len() == 4,
        seg.payload.len() <= 0xFFFF,
        forall|j: int| 0 <= j < 4 ==> !belongs(#[trigger] m.socks[j], seg),
        forall|j: int|
            0 <= j < 4 ==> !((#[trigger] m.socks[j]).state is Listen && m.socks[j].local_port
                == seg.dst_port),
    ensures
        ({
            let (m1, fx1) = model::user_segment(m, net, seg, fx);
            let occupied = seg.payload.len() + (if seg.flags & 2 != 0 {
                1int
            } else {
                0
            }) + (if seg.flags & 1 != 0 {
                1int
            } else {
                0
            });
            let ends = Ends {
                port: seg.dst_port,
                peer_mac: seg.src_mac,
                peer_ip: seg.src_ip,
                peer_port: seg.src_port,
            };
            let none = Seq::<u8>::empty();
            &&& m1 == m
            &&& fx1.len() == fx.len() + 1
            &&& fx1.drop_last() == fx
            &&& advertised(fx1.last()) == 0
            &&& seg.flags & 0x10 != 0 ==> is_segment(
                fx1.last(),
                net,
                ends,
                seg.ack as int,
                0,
                4,
                none,
            )
            &&& seg.flags & 0x10 == 0 ==> is_segment(
                fx1.last(),
                net,
                ends,
                0,
                behind(
                    seg.seq,
                    if occupied == 0 {
                        1
                    } else {
                        occupied
                    },
                ),
                0x14,
                none,
            )
        }),
{
    lemma_no_owner(m.socks, seg, 0);
    lemma_no_listener(m.socks, seg.dst_port, 0);
    let fx1 = model::user_segment(m, net, seg, fx).1;
    assert(fx1.drop_last() =~= fx);
    let occupied = seg.payload.len() + (if seg.flags & 2 != 0 {
        1int
    } else {
        0
    }) + (if seg.flags & 1 != 0 {
        1int
    } else {
        0
    });
    let adv = if occupied == 0 {
        1
    } else {
        occupied
    };
    let h = if seg.flags & 0x10 != 0 {
        TcpFields {
            src_port: seg.dst_port,
            dst_port: seg.src_port,
            seq: seg.ack,
            ack: 0,
            window: 0,
            flags: 4,
        }
    } else {
        TcpFields {
            src_port: seg.dst_port,
            dst_port: seg.src_port,
            seq: 0,
            ack: seg.seq.wrapping_add(adv as u32),
            window: 0,
            flags: 0x14,
        }
    };
    lemma_frame(net, seg.src_mac, seg.src_ip, h, Seq::empty());
    assert(fx1.last() == Effect::Frame(
        packet::tcp_frame(seg.src_mac, net.mac->0, net.ip, seg.src_ip, h, Seq::empty()),
    ));
}

// ---------------------------------------------------------------------------
// Opening
// ---------------------------------------------------------------------------

proof fn lemma_neighbour(net: NetIfModel, ip: Seq<u8>, from: int, k: int)
    requires
        0 <= from <= k < net.neighbours.len(),
        net.neighbours[k].ip@ == ip,
        forall|j: int| from <= j < k ==> (#[trigger] net.neighbours[j]).ip@ != ip,
    ensures
        net.mac_of(ip, from) == Some(net.neighbours[k].mac@),
    decreases k - from,
{
    if from < k {
        lemma_neighbour(net, ip, from + 1, k);
    }
}

proof fn lemma_no_neighbour(net: NetIfModel, ip: Seq<u8>, from: int)
    requires
        0 <= from,
        forall|j: int|
            from <= j < net.neighbours.len() ==> (#[trigger] net.neighbours[j]).ip@ != ip,
    ensures
        net.mac_of(ip, from) is None,
    decreases net.neighbours.len() - from,
{
    if from < net.neighbours.len() {
        lemma_no_neighbour(net, ip, from + 1);
    }
}

/// Four sockets cannot take five different ports.
proof fn lemma_ports_left(socks: Seq<SocketModel>, a: u16, b: u16, c: u16, d: u16, e: u16)
    requires
        socks.len() == 4,
        a != b && a != c && a != d && a != e,
        b != c && b != d && b != e,
        c != d && c != e && d != e,
        model::port_taken(socks, a),
        model::port_taken(socks, b),
        model::port_taken(socks, c),
        model::port_taken(socks, d),
    ensures
        !model::port_taken(socks, e),
{
    let i = choose|i: int|
        0 <= i < socks.len() && !(#[trigger] socks[i].state is Free) && socks[i].local_port == a;
    let j = choose|i: int|
        0 <= i < socks.len() && !(#[trigger] socks[i].state is Free) && socks[i].local_port == b;
    let k = choose|i: int|
        0 <= i < socks.len() && !(#[trigger] socks[i].state is Free) && socks[i].local_port == c;
    let l = choose|i: int|
        0 <= i < socks.len() && !(#[trigger] socks[i].state is Free) && socks[i].local_port == d;
    assert(i != j && i != k && i != l && j != k && j != l && k != l);
    if model::port_taken(socks, e) {
        let n = choose|i: int|
            0 <= i < socks.len() && !(#[trigger] socks[i].state is Free) && socks[i].local_port
                == e;
        assert(n == i || n == j || n == k || n == l);
    }
}

/// A connection that is opened gets a port of the dynamic range that no other socket has.
pub proof fn law_port_is_unused(
    m: TcpModel,
    net: NetIfModel,
    i: int,
    peer_ip: Seq<u8>,
    peer_port: u16,
    fx: Seq<Effect>,
)
    requires
        model::inv(m),
        0 <= i < 4,
    ensures
        ({
            let m1 = model::connecting(m, net, i, peer_ip, peer_port, fx).0;
            let port = m1.socks[i].local_port;
            &&& port >= 49152
            &&& m1.next_port >= 49152
            &&& m1.next_port != port
            &&& forall|j: int|
                0 <= j < 4 && !(m.socks[j].state is Free) ==> (#[trigger] m.socks[j]).local_port
                    != port
        }),
{
    let a = m.next_port;
    let b = model::port_after(a);
    let c = model::port_after(b);
    let d = model::port_after(c);
    let e = model::port_after(d);
    reveal_with_fuel(model::ephemeral, 7);
    if model::port_taken(m.socks, a) && model::port_taken(m.socks, b) && model::port_taken(
        m.socks,
        c,
    ) && model::port_taken(m.socks, d) {
        lemma_ports_left(m.socks, a, b, c, d, e);
    }
    let port = model::connecting(m, net, i, peer_ip, peer_port, fx).0.socks[i].local_port;
    assert(!model::port_taken(m.socks, port));
    assert forall|j: int| 0 <= j < 4 && !(m.socks[j].state is Free) implies (
    #[trigger] m.socks[j]).local_port != port by {
        if m.socks[j].local_port == port {
            assert(!(m.socks[j].state is Free));
        }
    }
}

/// Where a packet for `peer` goes first: to the peer itself where the first three bytes of
/// the addresses agree, to the gateway otherwise.
pub open spec fn first_stop(net: NetIfModel, peer: Seq<u8>) -> Seq<u8> {
    if net.ip[0] == peer[0] && net.ip[1] == peer[1] && net.ip[2] == peer[2] {
        peer
    } else {
        net.gateway
    }
}

proof fn lemma_first_stop(net: NetIfModel, peer: Seq<u8>)
    requires
        net.ip.len() == 4,
        peer.len() == 4,
    ensures
        net.next_hop(peer) == first_stop(net, peer),
{
    let a = net.ip.take(3);
    let b = peer.take(3);
    if net.ip[0] == peer[0] && net.ip[1] == peer[1] && net.ip[2] == peer[2] {
        assert(a =~= b);
    } else {
        assert(a[0] == net.ip[0] && a[1] == net.ip[1] && a[2] == net.ip[2]);
        assert(b[0] == peer[0] && b[1] == peer[1] && b[2] == peer[2]);
    }
}

/// An active open whose next hop is known sends one SYN to that hop, with a sequence number
/// 0x4000 past the last one that was handed out. The SYN takes one place: only the peer's SYN
/// with an acknowledgement of exactly that place completes the handshake, and is answered by
/// an acknowledgement of the peer's SYN.
pub proof fn law_active_open(
    m: TcpModel,
    net: NetIfModel,
    i: int,
    peer_ip: Seq<u8>,
    peer_port: u16,
    k: int,
    fx: Seq<Effect>,
    reply: SegmentModel,
)
    requires
        model::inv(m),
        0 <= i < 4,
        m.socks[i].tx.len() == 0,
        online(net),
        peer_ip.len() == 4,
        0 <= k < net.neighbours.len(),
        net.neighbours[k].ip@ == first_stop(net, peer_ip),
        forall|j: int|
            0 <= j < k ==> (#[trigger] net.neighbours[j]).ip@ != first_stop(net, peer_ip),
        reply.src_ip == peer_ip,
        reply.src_port == peer_port,
        reply.dst_port == model::connecting(
            m,
            net,
            i,
            peer_ip,
            peer_port,
            fx,
        ).0.socks[i].local_port,
        reply.flags & 4 == 0,
    ensures
        ({
            let (m1, fx1) = model::connecting(m, net, i, peer_ip, peer_port, fx);
            let s = m1.socks[i];
            let (m2, fx2) = model::user_segment(m1, net, reply, fx1);
            let none = Seq::<u8>::empty();
            let ends = Ends {
                port: s.local_port,
                peer_mac: net.neighbours[k].mac@,
                peer_ip: peer_ip,
                peer_port: peer_port,
            };
            &&& m1.iss == behind(m.iss, 0x4000)
            &&& s.state is SynSent
            &&& s.owner_pid == m.socks[i].owner_pid
            &&& !s.awaiting_arp
            &&& s.snd_nxt == behind(m.iss, 0x4001)
            &&& fx1.len() == fx.len() + 1
            &&& fx1.drop_last() == fx
            &&& is_segment(
                fx1.last(),
                net,
                ends,
                behind(m.iss, 0x4000),
                m.socks[i].rcv_nxt as int,
                2,
                none,
            )
            &&& reply.flags & 0x12 == 0x12 && reply.ack == behind(m.iss, 0x4001) ==> {
                &&& m2.socks[i].state is Established
                &&& m2.socks[i].snd_nxt == behind(m.iss, 0x4001)
                &&& m2.socks[i].rcv_nxt == behind(reply.seq, 1)
                &&& fx2.len() == fx1.len() + 1
                &&& fx2.drop_last() == fx1
                &&& is_segment(
                    fx2.last(),
                    net,
                    ends,
                    behind(m.iss, 0x4001),
                    behind(reply.seq, 1),
                    0x10,
                    none,
                )
            }
            &&& reply.flags & 0x12 != 0x12 || reply.ack != behind(m.iss, 0x4001) ==> m2 == m1
                && fx2 == fx1
            &&& forall|j: int| 0 <= j < 4 && j != i ==> #[trigger] m2.socks[j] == m.socks[j]
        }),
{
    let (m1, fx1) = model::connecting(m, net, i, peer_ip, peer_port, fx);
    let s = m1.socks[i];
    assert(model::socket_inv(m.socks[i]));
    lemma_first_stop(net, peer_ip);
    lemma_neighbour(net, first_stop(net, peer_ip), 0, k);
    law_port_is_unused(m, net, i, peer_ip, peer_port, fx);
    let s0 = SocketModel {
        local_port: s.local_port,
        peer_ip: peer_ip,
        peer_port: peer_port,
        state: SockState::SynSent,
        peer_mac: net.neighbours[k].mac@,
        awaiting_arp: false,
        snd_nxt: m1.iss,
        ..m.socks[i]
    };
    lemma_segment(s0, net, 2, Seq::empty(), fx);
    assert forall|j: int| 0 <= j < i implies !belongs(#[trigger] m1.socks[j], reply) by {
        assert(m1.socks[j] == m.socks[j]);
    }
    lemma_first_owner(m1.socks, reply, 0, i);
    let t0 = SocketModel {
        state: SockState::Established,
        expiry_tick: 0,
        rcv_nxt: reply.seq.wrapping_add(1),
        ..s
    };
    assert(model::socket_inv(t0));
    lemma_segment(t0, net, 0x10, Seq::empty(), fx1);
    let m2 = model::user_segment(m1, net, reply, fx1).0;
    if reply.flags & 0x12 != 0x12 || reply.ack != behind(m.iss, 0x4001) {
        assert(m2.socks =~= m1.socks);
    }
}

/// An active open whose next hop is not known asks for its hardware address and sends no
/// segment; so does every later try at a multiple of 25 ticks while the answer is out.
pub proof fn law_unknown_hop_is_asked_for(
    m: TcpModel,
    net: NetIfModel,
    i: int,
    peer_ip: Seq<u8>,
    peer_port: u16,
    fx: Seq<Effect>,
    now: u64,
    iss: u32,
    gx: Seq<Effect>,
)
    requires
        model::inv(m),
        0 <= i < 4,
        online(net),
        peer_ip.len() == 4,
        forall|j: int|
            0 <= j < net.neighbours.len() ==> (#[trigger] net.neighbours[j]).ip@ != first_stop(
                net,
                peer_ip,
            ),
    ensures
        ({
            let (m1, fx1) = model::connecting(m, net, i, peer_ip, peer_port, fx);
            let s = m1.socks[i];
            let (t, iss1, gx1) = model::socket_tick(s, net, now, iss, gx);
            &&& fx1 == fx.push(Effect::ArpRequest(first_stop(net, peer_ip)))
            &&& s.state is SynSent
            &&& s.awaiting_arp
            &&& m1.iss == m.iss
            &&& t == s
            &&& iss1 == iss
            &&& gx1 == (if now % 25 == 0 {
                gx.push(Effect::ArpRequest(first_stop(net, peer_ip)))
            } else {
                gx
            })
        }),
{
    lemma_first_stop(net, peer_ip);
    lemma_no_neighbour(net, first_stop(net, peer_ip), 0);
}

/// A passive open: a SYN for a listener without a pending child is answered by a SYN that
/// acknowledges it and has a sequence number 0x4000 past the last one that was handed out.
/// The child is the listener's owner's, and accept does not hand it out yet. An
/// acknowledgement of exactly our SYN completes the handshake, and then accept does.
pub proof fn law_passive_open_on_the_wire(
    m: TcpModel,
    net: NetIfModel,
    syn: SegmentModel,
    l: int,
    c: int,
    ack: SegmentModel,
    fx: Seq<Effect>,
)
    requires
        model::inv(m),
        online(net),
        0 <= l < 4,
        0 <= c < 4,
        m.socks[l].state is Listen,
        m.socks[l].local_port == syn.dst_port,
        m.socks[l].pending_child == 0xFFFF_FFFF,
        m.socks[c].state is Free,
        forall|j: int| 0 <= j < c ==> !((#[trigger] m.socks[j]).state is Free),
        forall|j: int|
            0 <= j < l ==> !((#[trigger] m.socks[j]).state is Listen && m.socks[j].local_port
                == syn.dst_port),
        forall|j: int| 0 <= j < 4 ==> !belongs(#[trigger] m.socks[j], syn),
        syn.flags & 2 != 0,
        syn.flags & 0x10 == 0,
        syn.src_mac.len() == 6,
        syn.src_ip.len() == 4,
        ack.dst_port == syn.dst_port,
        ack.src_port == syn.src_port,
        ack.src_ip == syn.src_ip,
        ack.flags & 4 == 0,
        ack.payload.len() == 0,
    ensures
        ({
            let (m1, fx1) = model::user_segment(m, net, syn, fx);
            let (m2, fx2) = model::user_segment(m1, net, ack, fx1);
            let pid = m.socks[l].owner_pid;
            let ends = Ends {
                port: syn.dst_port,
                peer_mac: syn.src_mac,
                peer_ip: syn.src_ip,
                peer_port: syn.src_port,
            };
            &&& m1.iss == behind(m.iss, 0x4000)
            &&& m1.socks[c].state is SynReceived
            &&& m1.socks[c].owner_pid == pid
            &&& m1.socks[c].rcv_nxt == behind(syn.seq, 1)
            &&& m1.socks[c].expiry_tick == m.now + 500
            &&& fx1.len() == fx.len() + 1
            &&& fx1.drop_last() == fx
            &&& is_segment(
                fx1.last(),
                net,
                ends,
                behind(m.iss, 0x4000),
                behind(syn.seq, 1),
                0x12,
                Seq::empty(),
            )
            &&& advertised(fx1.last()) == 1023
            &&& model::accepted(m1, l, pid).1 is None
            &&& fx2 == fx1
            &&& ack.flags & 0x10 != 0 && ack.ack == behind(m.iss, 0x4001) ==> {
                &&& m2.socks[c] == (SocketModel {
                    state: SockState::Established,
                    expiry_tick: 0,
                    ..m1.socks[c]
                })
                &&& m2.socks[c].snd_nxt == behind(m.iss, 0x4001)
                &&& model::accepted(m2, l, pid).1 == Some(c)
            }
            &&& ack.flags & 0x10 == 0 || ack.ack != behind(m.iss, 0x4001) ==> m2 == m1
        }),
{
    lemma_no_owner(m.socks, syn, 0);
    lemma_first_listener(m.socks, syn.dst_port, 0, l);
    let socks = model::reclaimed(m.socks, l);
    assert(model::child_of(m.socks, l) is None);
    assert(socks[l] == m.socks[l]);
    assert(socks =~= m.socks);
    lemma_first_free(m.socks, 0, c);
    let (m1, fx1) = model::user_segment(m, net, syn, fx);
    let e = model::embryo(m.socks[l].owner_pid, syn, m1.iss, m.now);
    assert(model::socket_inv(e));
    lemma_segment(e, net, 0x12, Seq::empty(), fx);
    assert(m1.socks[l].pending_child == c);
    assert(model::child_of(m1.socks, l) == Some(c));
    assert(model::reclaimed(m1.socks, l) == m1.socks);
    assert forall|j: int| 0 <= j < c implies !belongs(#[trigger] m1.socks[j], ack) by {
        assert(!belongs(m.socks[j], syn));
    }
    lemma_first_owner(m1.socks, ack, 0, c);
    let (m2, fx2) = model::user_segment(m1, net, ack, fx1);
    if ack.flags & 0x10 == 0 || ack.ack != behind(m.iss, 0x4001) {
        assert(m2.socks =~= m1.socks);
    } else {
        assert(model::child_of(m2.socks, l) == Some(c));
        assert(model::reclaimed(m2.socks, l) == m2.socks);
    }
}

// ---------------------------------------------------------------------------
// Receiving
// ---------------------------------------------------------------------------

/// Data on an established connection. What stands right at the position is appended to the
/// receive queue as far as it fits; the acknowledgement is the position behind exactly that,
/// and the advertised window the room that is then left. Queued bytes go out in the same
/// segment. Data anywhere else is not stored and is answered by the old position; a segment
/// without data is not answered at all.
pub proof fn law_data_is_acknowledged(
    s: SocketModel,
    net: NetIfModel,
    seg: SegmentModel,
    now: u64,
    fx: Seq<Effect>,
)
    requires
        model::socket_inv(s),
        online(net),
        s.state is Established,
        seg.flags & 4 == 0,
        seg.flags & 1 == 0,
    ensures
        ({
            let (t, fx1) = model::on_segment(s, net, seg, now, fx);
            let k = room_for(s.rx.len() as int, seg.payload.len() as int);
            let none = Seq::<u8>::empty();
            &&& t.state is Established
            &&& seg.payload.len() == 0 ==> t == s && fx1 == fx
            &&& seg.payload.len() > 0 ==> fx1.len() == fx.len() + 1 && fx1.drop_last() == fx
            &&& seg.payload.len() > 0 && seg.seq == s.rcv_nxt ==> {
                &&& t.rx == s.rx + seg.payload.take(k)
                &&& t.rcv_nxt == behind(s.rcv_nxt, k)
                &&& t.tx.len() == 0
                &&& t.snd_nxt == behind(s.snd_nxt, s.tx.len() as int)
                &&& is_segment(
                    fx1.last(),
                    net,
                    ends_of(s),
                    s.snd_nxt as int,
                    behind(s.rcv_nxt, k),
                    if s.tx.len() == 0 {
                        0x10
                    } else {
                        0x18
                    },
                    s.tx,
                )
                &&& advertised(fx1.last()) == 1023 - s.rx.len() - k
            }
            &&& seg.payload.len() > 0 && seg.seq != s.rcv_nxt ==> {
                &&& t == s
                &&& is_segment(
                    fx1.last(),
                    net,
                    ends_of(s),
                    s.snd_nxt as int,
                    s.rcv_nxt as int,
                    0x10,
                    none,
                )
                &&& advertised(fx1.last()) == 1023 - s.rx.len()
            }
        }),
{
    let none = Seq::<u8>::empty();
    let t = model::on_segment(s, net, seg, now, fx).0;
    if seg.payload.len() > 0 && seg.seq == s.rcv_nxt {
        let st = model::stored(s, seg.payload);
        assert(model::socket_inv(st));
        if s.tx.len() == 0 {
            assert(s.tx =~= none);
            lemma_segment(st, net, 0x10, none, fx);
        } else {
            let su = SocketModel { tx: none, ..st };
            lemma_segment(su, net, 0x18, s.tx, fx);
        }
    } else if seg.payload.len() > 0 {
        lemma_segment(s, net, 0x10, none, fx);
        assert(t =~= s);
    }
}

/// The peer's FIN on an established connection, in a segment that stands at the position and
/// whose data fits: the data is kept, the position moves past it and past the FIN, and the
/// last segment that goes out acknowledges both. The connection can still send. A FIN that
/// does not stand at the position ends nothing.
pub proof fn law_peer_ends_its_stream(
    s: SocketModel,
    net: NetIfModel,
    seg: SegmentModel,
    now: u64,
    fx: Seq<Effect>,
)
    requires
        model::socket_inv(s),
        online(net),
        s.state is Established,
        seg.flags & 4 == 0,
        seg.flags & 1 != 0,
        seg.payload.len() <= 1023 - s.rx.len(),
    ensures
        ({
            let (t, fx1) = model::on_segment(s, net, seg, now, fx);
            let n = seg.payload.len() as int;
            &&& seg.seq == s.rcv_nxt ==> {
                &&& t.state is CloseWait
                &&& t.rx == s.rx + seg.payload
                &&& t.rcv_nxt == behind(s.rcv_nxt, n + 1)
                &&& fx1.len() > fx.len()
                &&& is_segment(
                    fx1.last(),
                    net,
                    ends_of(s),
                    t.snd_nxt as int,
                    behind(s.rcv_nxt, n + 1),
                    0x10,
                    Seq::empty(),
                )
            }
            &&& behind(seg.seq, n) != s.rcv_nxt && seg.seq != s.rcv_nxt ==> t == s
        }),
{
    let none = Seq::<u8>::empty();
    let (t, fx1) = model::on_segment(s, net, seg, now, fx);
    let (s1, gx1) = model::on_data(s, net, seg, fx);
    if seg.seq == s.rcv_nxt {
        let st = model::stored(s, seg.payload);
        assert(seg.payload.take(seg.payload.len() as int) =~= seg.payload);
        assert(model::socket_inv(st));
        if seg.payload.len() == 0 {
            assert(s.rx + seg.payload =~= s.rx);
        } else if s.tx.len() == 0 {
            lemma_segment(st, net, 0x10, none, fx);
        } else {
            lemma_segment(SocketModel { tx: none, ..st }, net, 0x18, s.tx, fx);
        }
        assert(seg.fin_pos() == s1.rcv_nxt);
        let s2 = SocketModel {
            rcv_nxt: s1.rcv_nxt.wrapping_add(1),
            state: SockState::CloseWait,
            ..s1
        };
        assert(model::socket_inv(s2));
        lemma_segment(s2, net, 0x10, none, gx1);
    } else if behind(seg.seq, seg.payload.len() as int) != s.rcv_nxt {
        lemma_segment(s, net, 0x10, none, fx);
        assert(s1 =~= s);
        assert(t =~= s);
    }
}

/// A receive takes the oldest bytes off the queue, as many as are asked for and there, and
/// leaves the rest in order. Where fewer than 64 bytes were free, an established connection
/// tells the peer its new window.
pub proof fn law_receive_takes_the_oldest(
    m: TcpModel,
    net: NetIfModel,
    i: int,
    max: nat,
    fx: Seq<Effect>,
)
    requires
        model::inv(m),
        0 <= i < 4,
        online(net),
    ensures
        ({
            let s = m.socks[i];
            let (m1, fx1) = model::receiving(m, net, i, max, fx);
            let n = ring::drained(s.rx, max) as int;
            &&& n <= max
            &&& n == max || n == s.rx.len()
            &&& s.rx.take(n) + m1.socks[i].rx == s.rx
            &&& m1.socks[i] == (SocketModel { rx: m1.socks[i].rx, ..s })
            &&& forall|j: int| 0 <= j < 4 && j != i ==> #[trigger] m1.socks[j] == m.socks[j]
            &&& m1 == (TcpModel { socks: m1.socks, ..m })
            &&& if n > 0 && 1023 - s.rx.len() < 64 && s.state is Established {
                &&& fx1.len() == fx.len() + 1
                &&& fx1.drop_last() == fx
                &&& is_segment(
                    fx1.last(),
                    net,
                    ends_of(s),
                    s.snd_nxt as int,
                    s.rcv_nxt as int,
                    0x10,
                    Seq::empty(),
                )
                &&& advertised(fx1.last()) == 1023 - s.rx.len() + n
            } else {
                fx1 == fx
            }
        }),
{
    let s = m.socks[i];
    assert(model::socket_inv(s));
    let n = ring::drained(s.rx, max) as int;
    let s1 = SocketModel { rx: s.rx.skip(n), ..s };
    assert(s.rx.take(n) + s.rx.skip(n) =~= s.rx);
    lemma_segment(s1, net, 0x10, Seq::empty(), fx);
}

// ---------------------------------------------------------------------------
// Ending
// ---------------------------------------------------------------------------

/// Closing a connection sends what is queued and then a FIN with the sequence number right
/// behind it; the FIN takes one place.
pub proof fn law_close_ends_the_stream(m: TcpModel, net: NetIfModel, i: int, fx: Seq<Effect>)
    requires
        model::inv(m),
        0 <= i < 4,
        m.socks[i].state is Established || m.socks[i].state is CloseWait,
        online(net),
    ensures
        ({
            let s = m.socks[i];
            let (m1, fx1) = model::closed_slot(m, net, i, fx);
            let t = m1.socks[i];
            let q = s.tx.len() as int;
            let before = fx1.drop_last();
            &&& fx1.len() > 0
            &&& is_segment(
                fx1.last(),
                net,
                ends_of(s),
                behind(s.snd_nxt, q),
                s.rcv_nxt as int,
                0x11,
                Seq::empty(),
            )
            &&& q == 0 ==> before == fx
            &&& q > 0 ==> before.len() == fx.len() + 1 && before.drop_last() == fx && is_segment(
                before.last(),
                net,
                ends_of(s),
                s.snd_nxt as int,
                s.rcv_nxt as int,
                0x18,
                s.tx,
            )
            &&& t.snd_nxt == behind(s.snd_nxt, q + 1)
            &&& t.rcv_nxt == s.rcv_nxt
            &&& t.tx.len() == 0
            &&& ends_of(t) == ends_of(s)
            &&& t.state == (if s.state is Established {
                SockState::FinWait1
            } else {
                SockState::LastAck
            })
            &&& t.expiry_tick == m.now + 500
            &&& forall|j: int| 0 <= j < 4 && j != i ==> #[trigger] m1.socks[j] == m.socks[j]
        }),
{
    let s = m.socks[i];
    assert(model::socket_inv(s));
    let none = Seq::<u8>::empty();
    let s0 = SocketModel { tx: none, ..s };
    let (s1, gx) = model::flushed_data(s, net, fx);
    if s.tx.len() > 0 {
        lemma_segment(s0, net, 0x18, s.tx, fx);
    }
    assert(model::socket_inv(s1));
    lemma_segment(s1, net, 0x11, none, gx);
    let fx1 = model::closed_slot(m, net, i, fx).1;
    assert(fx1.drop_last() == gx);
}

/// After our FIN: an acknowledgement of it, and only that, moves the connection on, from
/// waiting for both ends to waiting for the peer's, and from waiting for the last one to a
/// free slot.
pub proof fn law_fin_is_acknowledged(
    s: SocketModel,
    net: NetIfModel,
    seg: SegmentModel,
    now: u64,
    fx: Seq<Effect>,
)
    requires
        model::socket_inv(s),
        now + 500 <= u64::MAX,
        seg.flags & 4 == 0,
        seg.flags & 1 == 0,
        seg.payload.len() == 0,
    ensures
        ({
            let (t, fx1) = model::on_segment(s, net, seg, now, fx);
            let acknowledged = seg.flags & 0x10 != 0 && seg.ack == s.snd_nxt;
            &&& s.state is FinWait1 || s.state is Closing || s.state is LastAck ==> fx1 == fx && (
            !acknowledged ==> t == s)
            &&& acknowledged && s.state is FinWait1 ==> t == (SocketModel {
                state: SockState::FinWait2,
                expiry_tick: (now + 500) as u64,
                ..s
            })
            &&& acknowledged && s.state is Closing ==> t == (SocketModel {
                state: SockState::TimeWait,
                expiry_tick: (now + 500) as u64,
                ..s
            })
            &&& acknowledged && s.state is LastAck ==> t.state is Free
        }),
{
}

/// After our FIN: the peer's FIN right behind the bytes received so far is acknowledged. With
/// ours acknowledged the connection only waits out its time, otherwise it waits for that.
pub proof fn law_peer_fin_ends_both(
    s: SocketModel,
    net: NetIfModel,
    seg: SegmentModel,
    now: u64,
    fx: Seq<Effect>,
)
    requires
        model::socket_inv(s),
        online(net),
        now + 500 <= u64::MAX,
        s.state is FinWait1 || s.state is FinWait2,
        seg.flags & 4 == 0,
        seg.flags & 1 != 0,
        seg.seq == s.rcv_nxt,
    ensures
        ({
            let (t, fx1) = model::on_segment(s, net, seg, now, fx);
            let n = seg.payload.len() as int;
            let acknowledged = s.state is FinWait2 || (seg.flags & 0x10 != 0 && seg.ack
                == s.snd_nxt);
            &&& n < 0x1_0000_0000 ==> t.rcv_nxt == behind(s.rcv_nxt, n + 1)
            &&& t.state == (if acknowledged {
                SockState::TimeWait
            } else {
                SockState::Closing
            })
            &&& t.expiry_tick == now + 500
            &&& fx1.len() == fx.len() + 1
            &&& fx1.drop_last() == fx
            &&& is_segment(
                fx1.last(),
                net,
                ends_of(s),
                s.snd_nxt as int,
                t.rcv_nxt as int,
                0x10,
                Seq::empty(),
            )
        }),
{
    let s1 = model::discarded(s, seg);
    let s2 = SocketModel { rcv_nxt: s1.rcv_nxt.wrapping_add(1), ..s1 };
    assert(seg.fin_pos() == s1.rcv_nxt);
    lemma_segment(s2, net, 0x10, Seq::empty(), fx);
}

/// A reset ends a connection without an answer: a slot that its process still holds stays
/// with it, as closed; one that was only winding down is free again.
pub proof fn law_reset_ends_the_connection(
    s: SocketModel,
    net: NetIfModel,
    seg: SegmentModel,
    now: u64,
    fx: Seq<Effect>,
)
    requires
        seg.flags & 4 != 0,
    ensures
        ({
            let (t, fx1) = model::on_segment(s, net, seg, now, fx);
            let released = s.state is FinWait1 || s.state is FinWait2 || s.state is Closing
                || s.state is LastAck || s.state is TimeWait;
            &&& fx1 == fx
            &&& released ==> t.state is Free
            &&& !released ==> t == (SocketModel { state: SockState::Closed, ..s })
        }),
{
}

// ---------------------------------------------------------------------------
// Inbound packets
// ---------------------------------------------------------------------------

/// A segment is read the way it is written: from the frame that one end sends, the other
/// gets the sender's hardware address, the ports, the two positions, the flags and the
/// payload back.
pub proof fn law_segment_is_understood(
    dst_mac: Seq<u8>,
    src_mac: Seq<u8>,
    src: Seq<u8>,
    dst: Seq<u8>,
    h: TcpFields,
    payload: Seq<u8>,
)
    requires
        dst_mac.len() == 6,
        src_mac.len() == 6,
        src.len() == 4,
        dst.len() == 4,
        payload.len() <= 1200,
    ensures
        ({
            let f = packet::tcp_frame(dst_mac, src_mac, src, dst, h, payload);
            let seg = model::decoded(f, src, f.skip(34));
            &&& model::well_framed(f.skip(34))
            &&& seg.src_mac == src_mac
            &&& seg.src_ip == src
            &&& seg.src_port == h.src_port
            &&& seg.dst_port == h.dst_port
            &&& seg.seq == h.seq
            &&& seg.ack == h.ack
            &&& seg.flags == h.flags
            &&& seg.payload == payload
        }),
{
    let f = packet::tcp_frame(dst_mac, src_mac, src, dst, h, payload);
    packet::law_tcp_frame_checksums(dst_mac, src_mac, src, dst, h, payload);
    packet::law_tcp_frame_fields(dst_mac, src_mac, src, dst, h, payload);
    let t = f.skip(34);
    assert(forall|j: int| 0 <= j < 20 ==> #[trigger] t[j] == f[34 + j]);
    assert(t[0] == f[34] && t[1] == f[35] && t[2] == f[36] && t[3] == f[37] && t[4] == f[38]
        && t[5] == f[39] && t[6] == f[40] && t[7] == f[41] && t[8] == f[42] && t[9] == f[43]
        && t[10] == f[44] && t[11] == f[45]);
    assert(t[12] == 0x50 && t[13] == f[47]);
    assert(t.skip(20) =~= f.skip(54));
}

/// Packets for another address, and segments that are shorter than their header says, do
/// nothing. Options are skipped. What is for port 2323 touches the console alone, and
/// everything else leaves the console and its queue as they were.
pub proof fn law_input_is_sorted(
    m: TcpModel,
    net: NetIfModel,
    frame: Seq<u8>,
    src_ip: Seq<u8>,
    dst_ip: Seq<u8>,
    segment: Seq<u8>,
    fx: Seq<Effect>,
)
    requires
        model::inv(m),
        net.ip != seq![0u8, 0u8, 0u8, 0u8],
        segment.len() >= 20,
    ensures
        ({
            let (m1, fx1) = model::tcp_input(m, net, frame, src_ip, dst_ip, segment, fx);
            let header = segment[12] as int / 16 * 4;
            let whole = 20 <= header <= segment.len();
            let port = segment[2] * 256 + segment[3];
            &&& dst_ip != net.ip || !whole ==> (m1, fx1) == (m, fx)
            &&& whole ==> model::decoded(frame, src_ip, segment).payload == segment.skip(header)
            &&& port == 2323 ==> m1.socks == m.socks
            &&& port != 2323 ==> m1.console == m.console && m1.ring == m.ring
            &&& m1.now == m.now
            &&& m1.next_port == m.next_port
        }),
{
}

// ---------------------------------------------------------------------------
// The console
// ---------------------------------------------------------------------------

/// The ends of the console's connection.
pub open spec fn console_ends(c: ConsoleModel) -> Ends {
    Ends { port: 2323, peer_mac: c.peer_mac, peer_ip: c.peer_ip, peer_port: c.peer_port }
}

/// How many of `n` queued bytes go into one segment.
pub open spec fn chunk_of(n: int) -> int {
    if n <= 1200 {
        n
    } else {
        1200
    }
}

/// A segment of the console, read by the receiver.
proof fn lemma_console_segment(
    c: ConsoleModel,
    net: NetIfModel,
    flags: u8,
    payload: Seq<u8>,
    fx: Seq<Effect>,
)
    requires
        c.peer_mac.len() == 6,
        c.peer_ip.len() == 4,
        online(net),
        payload.len() <= 1200,
    ensures
        ({
            let (d, gx) = model::console_sent(c, net, flags, payload, fx);
            &&& gx.len() == fx.len() + 1
            &&& gx.drop_last() == fx
            &&& is_segment(
                gx.last(),
                net,
                console_ends(c),
                c.snd_nxt as int,
                c.rcv_nxt as int,
                flags,
                payload,
            )
            &&& d == (ConsoleModel { snd_nxt: d.snd_nxt, ..c })
            &&& d.snd_nxt == behind(c.snd_nxt, payload.len() as int)
        }),
{
    let h = TcpFields {
        src_port: 2323,
        dst_port: c.peer_port,
        seq: c.snd_nxt,
        ack: c.rcv_nxt,
        window: 1400,
        flags: flags,
    };
    lemma_frame(net, c.peer_mac, c.peer_ip, h, payload);
    let gx = model::console_sent(c, net, flags, payload, fx).1;
    assert(gx.drop_last() =~= fx);
}

/// The greeting is the text that it stands for.
pub proof fn law_banner_text()
    ensures
        model::banner().map_values(|b: u8| b as char) == "BeetOS remote console (M7)\r\n"@,
{
    reveal_strlit("BeetOS remote console (M7)\r\n");
    assert(model::banner().map_values(|b: u8| b as char) =~= "BeetOS remote console (M7)\r\n"@);
}

/// The console's handshake: a SYN is answered by a SYN that acknowledges it; an
/// acknowledgement of exactly that, from the same port, opens the connection, and the
/// greeting goes out from the next place on, followed by what is queued.
pub proof fn law_console_opens(
    m: TcpModel,
    net: NetIfModel,
    syn: SegmentModel,
    ack: SegmentModel,
    fx: Seq<Effect>,
)
    requires
        model::inv(m),
        online(net),
        m.console.state is Listen,
        syn.flags & 4 == 0,
        syn.flags & 2 != 0,
        syn.src_mac.len() == 6,
        syn.src_ip.len() == 4,
        ack.flags & 4 == 0,
    ensures
        ({
            let (m1, fx1) = model::console_segment(m, net, syn, fx);
            let (m2, fx2) = model::console_segment(m1, net, ack, fx1);
            let ends = Ends {
                port: 2323,
                peer_mac: syn.src_mac,
                peer_ip: syn.src_ip,
                peer_port: syn.src_port,
            };
            let n = chunk_of(m.ring.len() as int);
            &&& m1.iss == behind(m.iss, 0x4000)
            &&& m1.console.state is SynReceived
            &&& m1.ring == m.ring
            &&& fx1.len() == fx.len() + 1
            &&& fx1.drop_last() == fx
            &&& is_segment(
                fx1.last(),
                net,
                ends,
                behind(m.iss, 0x4000),
                behind(syn.seq, 1),
                0x12,
                Seq::empty(),
            )
            &&& ack.flags & 0x10 != 0 && ack.ack == behind(m.iss, 0x4001) && ack.src_port
                == syn.src_port ==> {
                &&& m2.console.state is Established
                &&& m2.ring == m.ring.skip(n)
                &&& m2.console.snd_nxt == behind(m.iss, 0x401D + n)
                &&& fx2.len() == fx1.len() + 2
                &&& fx2.take(fx1.len() as int) == fx1
                &&& is_segment(
                    fx2[fx1.len() as int],
                    net,
                    ends,
                    behind(m.iss, 0x4001),
                    behind(syn.seq, 1),
                    0x18,
                    model::banner(),
                )
                &&& is_segment(
                    fx2.last(),
                    net,
                    ends,
                    behind(m.iss, 0x401D),
                    behind(syn.seq, 1),
                    if m.ring.len() > 0 {
                        0x18
                    } else {
                        0x10
                    },
                    m.ring.take(n),
                )
            }
            &&& ack.flags & 0x10 == 0 || ack.ack != behind(m.iss, 0x4001) || ack.src_port
                != syn.src_port ==> (m2, fx2) == (m1, fx1)
        }),
{
    let (m1, fx1) = model::console_segment(m, net, syn, fx);
    let c0 = ConsoleModel {
        state: ConsoleState::Listen,
        peer_mac: syn.src_mac,
        peer_ip: syn.src_ip,
        peer_port: syn.src_port,
        rcv_nxt: syn.seq.wrapping_add(1),
        snd_nxt: m1.iss,
    };
    lemma_console_segment(c0, net, 0x12, Seq::empty(), fx);
    let c1 = ConsoleModel { state: ConsoleState::Established, ..m1.console };
    lemma_console_segment(c1, net, 0x18, model::banner(), fx1);
    let (c2, gx) = model::console_sent(c1, net, 0x18, model::banner(), fx1);
    let n = chunk_of(m.ring.len() as int);
    lemma_console_segment(
        c2,
        net,
        if m.ring.len() > 0 {
            0x18
        } else {
            0x10
        },
        m.ring.take(n),
        gx,
    );
    let (m2, fx2) = model::console_segment(m1, net, ack, fx1);
    if m2.console.state is Established {
        assert(fx2.drop_last() == gx);
        assert(fx2.take(fx1.len() as int) =~= gx.drop_last());
        assert(fx2[fx1.len() as int] == fx2.drop_last()[fx1.len() as int]);
        assert(gx[fx1.len() as int] == gx.last());
    }
}

/// In-order data on the console becomes shell input byte by byte, in its order; then one
/// segment acknowledges exactly that many bytes and carries the oldest queued output. Data
/// anywhere else is no input and is answered by the old position.
pub proof fn law_console_input(m: TcpModel, net: NetIfModel, seg: SegmentModel, fx: Seq<Effect>)
    requires
        model::inv(m),
        online(net),
        m.console.state is Established,
        m.console.peer_mac.len() == 6,
        m.console.peer_ip.len() == 4,
        seg.src_port == m.console.peer_port,
        seg.flags & 4 == 0,
        seg.flags & 1 == 0,
        0 < seg.payload.len() < 0x1_0000_0000,
    ensures
        ({
            let (m1, fx1) = model::console_segment(m, net, seg, fx);
            let n = seg.payload.len() as int;
            let k = chunk_of(m.ring.len() as int);
            &&& m1.socks == m.socks
            &&& m1.console.state is Established
            &&& seg.seq == m.console.rcv_nxt ==> {
                &&& fx1.len() == fx.len() + n + 1
                &&& forall|j: int| 0 <= j < fx.len() ==> #[trigger] fx1[j] == fx[j]
                &&& forall|j: int|
                    0 <= j < n ==> #[trigger] fx1[fx.len() + j] == Effect::Input(seg.payload[j])
                &&& is_segment(
                    fx1.last(),
                    net,
                    console_ends(m.console),
                    m.console.snd_nxt as int,
                    behind(m.console.rcv_nxt, n),
                    if m.ring.len() > 0 {
                        0x18
                    } else {
                        0x10
                    },
                    m.ring.take(k),
                )
                &&& m1.console.rcv_nxt == behind(m.console.rcv_nxt, n)
                &&& m1.console.snd_nxt == behind(m.console.snd_nxt, k)
                &&& m.ring.take(k) + m1.ring == m.ring
            }
            &&& seg.seq != m.console.rcv_nxt ==> {
                &&& m1 == m
                &&& fx1.len() == fx.len() + 1
                &&& fx1.drop_last() == fx
                &&& is_segment(
                    fx1.last(),
                    net,
                    console_ends(m.console),
                    m.console.snd_nxt as int,
                    m.console.rcv_nxt as int,
                    0x10,
                    Seq::empty(),
                )
            }
        }),
{
    let c = m.console;
    let n = seg.payload.len() as int;
    let k = chunk_of(m.ring.len() as int);
    let (m1, fx1) = model::console_segment(m, net, seg, fx);
    if seg.seq == c.rcv_nxt {
        let c0 = ConsoleModel { rcv_nxt: c.rcv_nxt.wrapping_add(n as u32), ..c };
        let gx = fx + model::inputs(seg.payload);
        lemma_console_segment(
            c0,
            net,
            if m.ring.len() > 0 {
                0x18
            } else {
                0x10
            },
            m.ring.take(k),
            gx,
        );
        assert(fx1.drop_last() == gx);
        assert(m.ring.take(k) + m.ring.skip(k) =~= m.ring);
        assert forall|j: int| 0 <= j < fx.len() implies #[trigger] fx1[j] == fx[j] by {
            assert(fx1[j] == fx1.drop_last()[j]);
        }
        assert forall|j: int| 0 <= j < n implies #[trigger] fx1[fx.len() + j] == Effect::Input(
            seg.payload[j],
        ) by {
            assert(fx1[fx.len() + j] == fx1.drop_last()[fx.len() + j]);
        }
    } else {
        lemma_console_segment(c, net, 0x10, Seq::empty(), fx);
        assert(m1 =~= m);
    }
}

/// The console's output is one stream: two ticks send the queue's oldest bytes, the second
/// one from where the first one ended, and drop exactly those from the queue.
pub proof fn law_console_stream_is_contiguous(m: TcpModel, net: NetIfModel, fx: Seq<Effect>)
    requires
        model::inv(m),
        online(net),
        m.console.state is Established,
        m.console.peer_mac.len() == 6,
        m.console.peer_ip.len() == 4,
        m.ring.len() > 0,
    ensures
        ({
            let (m1, fx1) = model::console_tick(m, net, fx);
            let (m2, fx2) = model::console_tick(m1, net, fx1);
            let k = chunk_of(m.ring.len() as int);
            let k2 = chunk_of(m.ring.len() - k);
            &&& fx1.len() == fx.len() + 1
            &&& fx1.drop_last() == fx
            &&& is_segment(
                fx1.last(),
                net,
                console_ends(m.console),
                m.console.snd_nxt as int,
                m.console.rcv_nxt as int,
                0x18,
                m.ring.take(k),
            )
            &&& m.ring.take(k) + m1.ring == m.ring
            &&& m1.console.snd_nxt == behind(m.console.snd_nxt, k)
            &&& k2 == 0 ==> (m2, fx2) == (m1, fx1)
            &&& k2 > 0 ==> {
                &&& fx2.len() == fx1.len() + 1
                &&& fx2.drop_last() == fx1
                &&& is_segment(
                    fx2.last(),
                    net,
                    console_ends(m.console),
                    behind(m.console.snd_nxt, k),
                    m.console.rcv_nxt as int,
                    0x18,
                    m.ring.subrange(k, k + k2),
                )
                &&& m2.console.snd_nxt == behind(m.console.snd_nxt, k + k2)
            }
        }),
{
    let (m1, fx1) = model::console_tick(m, net, fx);
    let k = chunk_of(m.ring.len() as int);
    let k2 = chunk_of(m.ring.len() - k);
    lemma_console_segment(m.console, net, 0x18, m.ring.take(k), fx);
    assert(m.ring.take(k) + m.ring.skip(k) =~= m.ring);
    if k2 > 0 {
        lemma_console_segment(m1.console, net, 0x18, m1.ring.take(k2), fx1);
        assert(m1.ring.take(k2) =~= m.ring.subrange(k, k + k2));
    }
}

/// The peer's FIN ends the console's connection: it is acknowledged, our FIN follows with the
/// next sequence number, and an acknowledgement of exactly that makes the console listen
/// again.
pub proof fn law_console_closes(
    m: TcpModel,
    net: NetIfModel,
    fin: SegmentModel,
    ack: SegmentModel,
    fx: Seq<Effect>,
)
    requires
        model::inv(m),
        online(net),
        m.console.state is Established,
        m.console.peer_mac.len() == 6,
        m.console.peer_ip.len() == 4,
        fin.src_port == m.console.peer_port,
        fin.flags & 4 == 0,
        fin.flags & 1 != 0,
        fin.payload.len() == 0,
        ack.flags & 4 == 0,
    ensures
        ({
            let (m1, fx1) = model::console_segment(m, net, fin, fx);
            let (m2, fx2) = model::console_segment(m1, net, ack, fx1);
            let c = m.console;
            &&& m1.console.state is LastAck
            &&& fx1.len() == fx.len() + 2
            &&& fx1.take(fx.len() as int) == fx
            &&& is_segment(
                fx1[fx.len() as int],
                net,
                console_ends(c),
                c.snd_nxt as int,
                behind(c.rcv_nxt, 1),
                0x10,
                Seq::empty(),
            )
            &&& is_segment(
                fx1.last(),
                net,
                console_ends(c),
                c.snd_nxt as int,
                behind(c.rcv_nxt, 1),
                0x11,
                Seq::empty(),
            )
            &&& fx2 == fx1
            &&& ack.flags & 0x10 != 0 && ack.ack == behind(c.snd_nxt, 1) ==> m2.console.state is Listen
            &&& ack.flags & 0x10 == 0 || ack.ack != behind(c.snd_nxt, 1) ==> m2 == m1
        }),
{
    let c = m.console;
    let none = Seq::<u8>::empty();
    let c0 = ConsoleModel { rcv_nxt: c.rcv_nxt.wrapping_add(1), ..c };
    lemma_console_segment(c0, net, 0x10, none, fx);
    let (c1, gx) = model::console_sent(c0, net, 0x10, none, fx);
    lemma_console_segment(c1, net, 0x11, none, gx);
    let fx1 = model::console_segment(m, net, fin, fx).1;
    assert(fx1.drop_last() == gx);
    assert(fx1.take(fx.len() as int) =~= gx.drop_last());
    assert(fx1[fx.len() as int] == fx1.drop_last()[fx.len() as int]);
    assert(gx[fx.len() as int] == gx.last());
}

/// The output queue keeps the newest 4095 bytes: what is pushed stands at its end, in order.
pub proof fn law_console_keeps_the_newest(queue: Seq<u8>, bytes: Seq<u8>)
    ensures
        ({
            let all = queue + bytes;
            let kept = ring::newest(all, 4095);
            &&& kept.len() == (if all.len() <= 4095 {
                all.len()
            } else {
                4095
            })
            &&& forall|j: int|
                0 <= j < kept.len() ==> #[trigger] kept[j] == all[all.len() - kept.len() + j]
        }),
{
}

} // verus!
