//! The TCP state machine as mathematics: sockets with plain byte strings for
//! queues, and one function per event from state to next state and requests.
use crate::platform::qemu_virt::packet;
use crate::platform::qemu_virt::packet::{Effect, NetIfModel, TcpFields};
use crate::platform::qemu_virt::tcp::{
    SockState, ACK, ARP_RETRY_TICKS, EPHEMERAL_BASE, FIN, FIN_ACK, LISTEN_PORT,
    MAX_USERSPACE_SOCKETS, NO_PENDING, PSH_ACK, RCV_WINDOW, REAP_TICKS, RING_SIZE, RST, RST_ACK,
    SOCK_BUF, SYN, SYN_ACK,
};
use crate::ring;
use vstd::prelude::*;

verus! {

/// A socket: the two queues are plain byte strings.
#[verifier::ext_equal]
pub struct SocketModel {
    pub state: SockState,
    pub owner_pid: u32,
    pub local_port: u16,
    pub peer_mac: Seq<u8>,
    pub peer_ip: Seq<u8>,
    pub peer_port: u16,
    pub snd_nxt: u32,
    pub rcv_nxt: u32,
    pub pending_child: u32,
    pub awaiting_arp: bool,
    pub expiry_tick: u64,
    pub rx: Seq<u8>,
    pub tx: Seq<u8>,
}

/// State of the remote console's connection.
#[derive(Clone, Copy, PartialEq, Eq, Structural, Debug)]
pub enum ConsoleState {
    Listen,
    SynReceived,
    Established,
    LastAck,
}

/// The console's connection.
#[verifier::ext_equal]
pub struct ConsoleModel {
    pub state: ConsoleState,
    pub peer_mac: Seq<u8>,
    pub peer_ip: Seq<u8>,
    pub peer_port: u16,
    pub snd_nxt: u32,
    pub rcv_nxt: u32,
}

/// The console without a peer.
pub open spec fn no_console() -> ConsoleModel {
    ConsoleModel {
        state: ConsoleState::Listen,
        peer_mac: seq![0u8, 0, 0, 0, 0, 0],
        peer_ip: seq![0u8, 0, 0, 0],
        peer_port: 0,
        snd_nxt: 0,
        rcv_nxt: 0,
    }
}

/// The whole TCP state.
#[verifier::ext_equal]
pub struct TcpModel {
    pub console: ConsoleModel,
    pub ring: Seq<u8>,
    pub iss: u32,
    pub now: u64,
    pub next_port: u16,
    pub socks: Seq<SocketModel>,
}

/// An inbound segment.
pub struct SegmentModel {
    pub src_mac: Seq<u8>,
    pub src_ip: Seq<u8>,
    pub src_port: u16,
    pub dst_port: u16,
    pub seq: u32,
    pub ack: u32,
    pub flags: u8,
    pub payload: Seq<u8>,
}

impl SegmentModel {
    /// The flag bit `bit` is set.
    pub open spec fn has(self, bit: u8) -> bool {
        self.flags & bit != 0
    }

    /// The sequence number that a FIN of this segment has: right behind its
    /// payload.
    pub open spec fn fin_pos(self) -> u32 {
        self.seq.wrapping_add(self.payload.len() as u32)
    }

    /// The segment acknowledges everything up to `snd_nxt`.
    pub open spec fn acks(self, snd_nxt: u32) -> bool {
        self.has(ACK) && self.ack == snd_nxt
    }
}

/// No bytes.
pub open spec fn nothing() -> Seq<u8> {
    Seq::empty()
}

/// What holds of every reachable state: the table has its four slots, the
/// queues respect their buffers, and a socket that is winding down or half
/// open has a deadline.
pub open spec fn inv(m: TcpModel) -> bool {
    &&& m.socks.len() == MAX_USERSPACE_SOCKETS
    &&& m.ring.len() < RING_SIZE
    &&& m.now + REAP_TICKS <= u64::MAX
    &&& m.next_port >= EPHEMERAL_BASE
    &&& forall|i: int| 0 <= i < m.socks.len() ==> socket_inv(#[trigger] m.socks[i])
}

/// What holds of every socket.
pub open spec fn socket_inv(s: SocketModel) -> bool {
    &&& s.rx.len() < SOCK_BUF
    &&& s.tx.len() < SOCK_BUF
    &&& s.peer_mac.len() == 6
    &&& s.peer_ip.len() == 4
    &&& s.state.winding_down() || s.state is SynReceived ==> s.expiry_tick != 0
}

/// Going from `m` to `m1` leaves every socket that a process other than `pid`
/// holds as it was.
pub open spec fn others_untouched(m: TcpModel, m1: TcpModel, pid: u32) -> bool {
    forall|i: int|
        0 <= i < m.socks.len() && !(m.socks[i].state is Free) && m.socks[i].owner_pid != pid
            ==> #[trigger] m1.socks[i] == m.socks[i]
}

// ---------------------------------------------------------------------------
// One socket
// ---------------------------------------------------------------------------

/// A slot that is not in use.
pub open spec fn free_socket() -> SocketModel {
    SocketModel {
        state: SockState::Free,
        owner_pid: 0,
        local_port: 0,
        peer_mac: seq![0u8, 0u8, 0u8, 0u8, 0u8, 0u8],
        peer_ip: seq![0u8, 0u8, 0u8, 0u8],
        peer_port: 0,
        snd_nxt: 0,
        rcv_nxt: 0,
        pending_child: NO_PENDING,
        awaiting_arp: false,
        expiry_tick: 0,
        rx: Seq::empty(),
        tx: Seq::empty(),
    }
}

/// A slot that was just handed to a process.
pub open spec fn fresh_socket(owner_pid: u32) -> SocketModel {
    SocketModel { state: SockState::Closed, owner_pid: owner_pid, ..free_socket() }
}

/// Free space of a socket's receive queue.
pub open spec fn rx_space(s: SocketModel) -> int {
    SOCK_BUF - 1 - s.rx.len()
}

/// The window that a socket advertises.
pub open spec fn window_of(s: SocketModel) -> int {
    if rx_space(s) < RCV_WINDOW {
        rx_space(s)
    } else {
        RCV_WINDOW as int
    }
}

/// The frame of a segment that socket `s` sends.
pub open spec fn segment_frame(
    s: SocketModel,
    mac: Seq<u8>,
    ip: Seq<u8>,
    flags: u8,
    payload: Seq<u8>,
) -> Seq<u8> {
    packet::tcp_frame(
        s.peer_mac,
        mac,
        ip,
        s.peer_ip,
        (TcpFields {
            src_port: s.local_port,
            dst_port: s.peer_port,
            seq: s.snd_nxt,
            ack: s.rcv_nxt,
            window: window_of(s) as u16,
            flags: flags,
        }),
        payload,
    )
}

/// Socket `s` sends one segment; without a network device nothing happens.
pub open spec fn sent(
    s: SocketModel,
    net: NetIfModel,
    flags: u8,
    payload: Seq<u8>,
    fx: Seq<Effect>,
) -> (SocketModel, Seq<Effect>) {
    match net.mac {
        None => (s, fx),
        Some(mac) => (
            SocketModel { snd_nxt: s.snd_nxt.wrapping_add(payload.len() as u32), ..s },
            fx.push(Effect::Frame(segment_frame(s, mac, net.ip, flags, payload))),
        ),
    }
}

/// Sends all queued bytes in one segment, if there are any.
pub open spec fn flushed_data(s: SocketModel, net: NetIfModel, fx: Seq<Effect>) -> (
    SocketModel,
    Seq<Effect>,
) {
    if s.tx.len() > 0 {
        sent(SocketModel { tx: nothing(), ..s }, net, PSH_ACK, s.tx, fx)
    } else {
        (s, fx)
    }
}

/// Acknowledges, with all queued bytes in the same segment.
pub open spec fn flushed(s: SocketModel, net: NetIfModel, fx: Seq<Effect>) -> (
    SocketModel,
    Seq<Effect>,
) {
    if s.tx.len() > 0 {
        flushed_data(s, net, fx)
    } else {
        sent(s, net, ACK, nothing(), fx)
    }
}

/// How many bytes of `payload` the receive queue takes.
pub open spec fn storable(s: SocketModel, payload: Seq<u8>) -> int {
    ring::fitting(s.rx, (SOCK_BUF - 1) as nat, payload)
}

/// Stores what fits of an in-order payload; the position moves by exactly that.
pub open spec fn stored(s: SocketModel, payload: Seq<u8>) -> SocketModel {
    let n = storable(s, payload);
    SocketModel {
        rx: s.rx + payload.take(n),
        rcv_nxt: s.rcv_nxt.wrapping_add(n as u32),
        ..s
    }
}

/// Enters a state that ends at a deadline.
pub open spec fn expiring(s: SocketModel, state: SockState, now: u64) -> SocketModel {
    SocketModel { state: state, expiry_tick: (now + REAP_TICKS) as u64, ..s }
}

/// The handshake is complete.
pub open spec fn established(s: SocketModel) -> SocketModel {
    SocketModel { state: SockState::Established, expiry_tick: 0, ..s }
}

/// A reset: a socket that its application has released is freed, any other is
/// parked in `Closed` for the application to see.
pub open spec fn on_reset(s: SocketModel) -> SocketModel {
    if s.state.winding_down() {
        free_socket()
    } else {
        SocketModel { state: SockState::Closed, ..s }
    }
}

/// Data in a state in which it is stored.
pub open spec fn on_data(s: SocketModel, net: NetIfModel, seg: SegmentModel, fx: Seq<Effect>) -> (
    SocketModel,
    Seq<Effect>,
) {
    if seg.payload.len() == 0 {
        (s, fx)
    } else if seg.seq == s.rcv_nxt {
        flushed(stored(s, seg.payload), net, fx)
    } else {
        sent(s, net, ACK, nothing(), fx)
    }
}

/// A segment on an established connection: data first, then a FIN that stands
/// exactly at the new position.
pub open spec fn on_established(s: SocketModel, net: NetIfModel, seg: SegmentModel, fx: Seq<Effect>) -> (
    SocketModel,
    Seq<Effect>,
) {
    let (s1, fx1) = on_data(s, net, seg, fx);
    if seg.has(FIN) && seg.fin_pos() == s1.rcv_nxt {
        sent(
            SocketModel {
                rcv_nxt: s1.rcv_nxt.wrapping_add(1),
                state: SockState::CloseWait,
                ..s1
            },
            net,
            ACK,
            nothing(),
            fx1,
        )
    } else {
        (s1, fx1)
    }
}

/// Data that nobody will read any more: it only moves the position.
pub open spec fn discarded(s: SocketModel, seg: SegmentModel) -> SocketModel {
    if seg.payload.len() > 0 && seg.seq == s.rcv_nxt {
        SocketModel { rcv_nxt: s.rcv_nxt.wrapping_add(seg.payload.len() as u32), ..s }
    } else {
        s
    }
}

/// A segment while our FIN is out and not acknowledged.
pub open spec fn on_fin_wait1(
    s: SocketModel,
    net: NetIfModel,
    seg: SegmentModel,
    now: u64,
    fx: Seq<Effect>,
) -> (SocketModel, Seq<Effect>) {
    let s1 = discarded(s, seg);
    let peer_fin = seg.has(FIN) && seg.fin_pos() == s1.rcv_nxt;
    let s2 = if peer_fin {
        SocketModel { rcv_nxt: s1.rcv_nxt.wrapping_add(1), ..s1 }
    } else {
        s1
    };
    let (s3, fx3) = if peer_fin || seg.payload.len() > 0 {
        sent(s2, net, ACK, nothing(), fx)
    } else {
        (s2, fx)
    };
    if seg.acks(s.snd_nxt) {
        (
            expiring(
                s3,
                if peer_fin {
                    SockState::TimeWait
                } else {
                    SockState::FinWait2
                },
                now,
            ),
            fx3,
        )
    } else if peer_fin {
        (expiring(s3, SockState::Closing, now), fx3)
    } else {
        (s3, fx3)
    }
}

/// A segment while we wait for the peer's FIN.
pub open spec fn on_fin_wait2(
    s: SocketModel,
    net: NetIfModel,
    seg: SegmentModel,
    now: u64,
    fx: Seq<Effect>,
) -> (SocketModel, Seq<Effect>) {
    let s1 = discarded(s, seg);
    if seg.has(FIN) && seg.fin_pos() == s1.rcv_nxt {
        let (s2, fx2) = sent(
            SocketModel { rcv_nxt: s1.rcv_nxt.wrapping_add(1), ..s1 },
            net,
            ACK,
            nothing(),
            fx,
        );
        (expiring(s2, SockState::TimeWait, now), fx2)
    } else if seg.payload.len() > 0 {
        sent(s1, net, ACK, nothing(), fx)
    } else {
        (s1, fx)
    }
}

/// A segment for an existing connection.
pub open spec fn on_segment(
    s: SocketModel,
    net: NetIfModel,
    seg: SegmentModel,
    now: u64,
    fx: Seq<Effect>,
) -> (SocketModel, Seq<Effect>) {
    if seg.has(RST) {
        (on_reset(s), fx)
    } else {
        match s.state {
            SockState::SynSent => if seg.flags & SYN_ACK == SYN_ACK && seg.ack == s.snd_nxt {
                flushed(
                    SocketModel { rcv_nxt: seg.seq.wrapping_add(1), ..established(s) },
                    net,
                    fx,
                )
            } else {
                (s, fx)
            },
            SockState::SynReceived => if seg.acks(s.snd_nxt) {
                if seg.payload.len() > 0 && seg.seq == s.rcv_nxt {
                    flushed(stored(established(s), seg.payload), net, fx)
                } else {
                    (established(s), fx)
                }
            } else {
                (s, fx)
            },
            SockState::Established => on_established(s, net, seg, fx),
            SockState::CloseWait | SockState::TimeWait => if seg.has(FIN) {
                sent(s, net, ACK, nothing(), fx)
            } else {
                (s, fx)
            },
            SockState::FinWait1 => on_fin_wait1(s, net, seg, now, fx),
            SockState::FinWait2 => on_fin_wait2(s, net, seg, now, fx),
            SockState::Closing => if seg.acks(s.snd_nxt) {
                (expiring(s, SockState::TimeWait, now), fx)
            } else {
                (s, fx)
            },
            SockState::LastAck => if seg.acks(s.snd_nxt) {
                (free_socket(), fx)
            } else {
                (s, fx)
            },
            SockState::Free | SockState::Listen | SockState::Closed => (s, fx),
        }
    }
}

// ---------------------------------------------------------------------------
// The socket table
// ---------------------------------------------------------------------------

/// Socket `s` is the connection between `port` and the peer.
pub open spec fn connects(s: SocketModel, port: u16, peer_ip: Seq<u8>, peer_port: u16) -> bool {
    s.local_port == port && s.peer_port == peer_port && s.peer_ip == peer_ip && !(s.state is Free)
        && !(s.state is Listen)
}

/// The first slot from `i` on that is the connection.
pub open spec fn connection_slot(
    socks: Seq<SocketModel>,
    port: u16,
    peer_ip: Seq<u8>,
    peer_port: u16,
    i: int,
) -> Option<int>
    decreases socks.len() - i,
{
    if i >= socks.len() {
        None
    } else if connects(socks[i], port, peer_ip, peer_port) {
        Some(i)
    } else {
        connection_slot(socks, port, peer_ip, peer_port, i + 1)
    }
}

/// The first slot from `i` on that listens on `port`.
pub open spec fn listener_slot(socks: Seq<SocketModel>, port: u16, i: int) -> Option<int>
    decreases socks.len() - i,
{
    if i >= socks.len() {
        None
    } else if socks[i].state is Listen && socks[i].local_port == port {
        Some(i)
    } else {
        listener_slot(socks, port, i + 1)
    }
}

/// The first free slot from `i` on.
pub open spec fn free_slot(socks: Seq<SocketModel>, i: int) -> Option<int>
    decreases socks.len() - i,
{
    if i >= socks.len() {
        None
    } else if socks[i].state is Free {
        Some(i)
    } else {
        free_slot(socks, i + 1)
    }
}

/// Some socket in use has `port` as its local port.
pub open spec fn port_taken(socks: Seq<SocketModel>, port: u16) -> bool {
    exists|i: int|
        0 <= i < socks.len() && !(#[trigger] socks[i].state is Free) && socks[i].local_port == port
}

/// The port after `port` in the dynamic range.
pub open spec fn port_after(port: u16) -> u16 {
    if port == 0xFFFF {
        EPHEMERAL_BASE
    } else {
        (port + 1) as u16
    }
}

/// The first port from `port` on that is not taken, within `tries` steps.
pub open spec fn ephemeral(socks: Seq<SocketModel>, port: u16, tries: nat) -> u16
    decreases tries,
{
    if tries == 0 || !port_taken(socks, port) {
        port
    } else {
        ephemeral(socks, port_after(port), (tries - 1) as nat)
    }
}

/// `c` is a child that listener `l` has spawned.
pub open spec fn is_child(l: SocketModel, c: SocketModel) -> bool {
    !(c.state is Free) && c.owner_pid == l.owner_pid && c.local_port == l.local_port
}

/// The listener in slot `l` without a pending child.
pub open spec fn without_child(socks: Seq<SocketModel>, l: int) -> Seq<SocketModel> {
    socks.update(l, SocketModel { pending_child: NO_PENDING, ..socks[l] })
}

/// The pending child of listener `l`, if the reference is still good.
pub open spec fn child_of(socks: Seq<SocketModel>, l: int) -> Option<int> {
    let c = socks[l].pending_child as int;
    if c < socks.len() && is_child(socks[l], socks[c]) {
        Some(c)
    } else {
        None
    }
}

/// Drops a reference to a child that is gone, and frees a child that was
/// reset before it was accepted.
pub open spec fn reclaimed(socks: Seq<SocketModel>, l: int) -> Seq<SocketModel> {
    match child_of(socks, l) {
        None => without_child(socks, l),
        Some(c) => if socks[c].state is Closed {
            without_child(socks.update(c, free_socket()), l)
        } else {
            socks
        },
    }
}

/// The reset that answers a segment which nothing claims: its sequence number
/// is the one that the peer acknowledged, or else it acknowledges what the
/// peer sent.
pub open spec fn reset_reply(net: NetIfModel, seg: SegmentModel, fx: Seq<Effect>) -> Seq<Effect> {
    match net.mac {
        None => fx,
        Some(mac) => {
            let occupied = seg.payload.len() + (if seg.has(SYN) {
                1int
            } else {
                0
            }) + (if seg.has(FIN) {
                1int
            } else {
                0
            });
            let adv = if occupied == 0 {
                1
            } else {
                occupied
            };
            fx.push(
                Effect::Frame(
                    packet::tcp_frame(
                        seg.src_mac,
                        mac,
                        net.ip,
                        seg.src_ip,
                        (TcpFields {
                            src_port: seg.dst_port,
                            dst_port: seg.src_port,
                            seq: if seg.has(ACK) {
                                seg.ack
                            } else {
                                0
                            },
                            ack: if seg.has(ACK) {
                                0
                            } else {
                                seg.seq.wrapping_add(adv as u32)
                            },
                            window: 0,
                            flags: if seg.has(ACK) {
                                RST
                            } else {
                                RST_ACK
                            },
                        }),
                        nothing(),
                    ),
                ),
            )
        },
    }
}

/// The next initial send sequence number.
pub open spec fn iss_after(iss: u32) -> u32 {
    iss.wrapping_add(0x4000)
}

/// The embryonic child that a SYN creates, before its SYN+ACK went out.
pub open spec fn embryo(owner_pid: u32, seg: SegmentModel, iss: u32, now: u64) -> SocketModel {
    SocketModel {
        owner_pid: owner_pid,
        local_port: seg.dst_port,
        peer_mac: seg.src_mac,
        peer_ip: seg.src_ip,
        peer_port: seg.src_port,
        rcv_nxt: seg.seq.wrapping_add(1),
        snd_nxt: iss,
        ..expiring(free_socket(), SockState::SynReceived, now)
    }
}

/// A SYN or FIN that was sent occupies one sequence number.
pub open spec fn past_flag(s: SocketModel) -> SocketModel {
    SocketModel { snd_nxt: s.snd_nxt.wrapping_add(1), ..s }
}

/// A SYN for the listener in slot `l`.
pub open spec fn on_syn(m: TcpModel, net: NetIfModel, seg: SegmentModel, l: int, fx: Seq<Effect>) -> (
    TcpModel,
    Seq<Effect>,
) {
    let socks = reclaimed(m.socks, l);
    match (child_of(socks, l), free_slot(socks, 0)) {
        (None, Some(c)) => {
            let iss = iss_after(m.iss);
            let (child, fx1) = sent(
                embryo(socks[l].owner_pid, seg, iss, m.now),
                net,
                SYN_ACK,
                nothing(),
                fx,
            );
            let listening = SocketModel { pending_child: c as u32, ..socks[l] };
            (
                TcpModel {
                    iss: iss,
                    socks: socks.update(l, listening).update(c, past_flag(child)),
                    ..m
                },
                fx1,
            )
        },
        _ => (TcpModel { socks: socks, ..m }, reset_reply(net, seg, fx)),
    }
}

/// A segment for a port other than the console's.
pub open spec fn user_segment(m: TcpModel, net: NetIfModel, seg: SegmentModel, fx: Seq<Effect>) -> (
    TcpModel,
    Seq<Effect>,
) {
    match connection_slot(m.socks, seg.dst_port, seg.src_ip, seg.src_port, 0) {
        Some(i) => {
            let (s, fx1) = on_segment(m.socks[i], net, seg, m.now, fx);
            (TcpModel { socks: m.socks.update(i, s), ..m }, fx1)
        },
        None => match listener_slot(m.socks, seg.dst_port, 0) {
            Some(l) => if seg.has(SYN) && !seg.has(ACK) {
                on_syn(m, net, seg, l, fx)
            } else {
                (m, reset_reply(net, seg, fx))
            },
            None => (m, reset_reply(net, seg, fx)),
        },
    }
}

// ---------------------------------------------------------------------------
// The console
// ---------------------------------------------------------------------------

/// The greeting `BeetOS remote console (M7)` with a line end.
pub open spec fn banner() -> Seq<u8> {
    seq![
        66u8, 101, 101, 116, 79, 83, 32, 114, 101, 109, 111, 116, 101, 32, 99, 111, 110, 115, 111,
        108, 101, 32, 40, 77, 55, 41, 13, 10,
    ]
}

/// The console sends one segment; without a network device nothing happens.
pub open spec fn console_sent(
    c: ConsoleModel,
    net: NetIfModel,
    flags: u8,
    payload: Seq<u8>,
    fx: Seq<Effect>,
) -> (ConsoleModel, Seq<Effect>) {
    match net.mac {
        None => (c, fx),
        Some(mac) => (
            ConsoleModel { snd_nxt: c.snd_nxt.wrapping_add(payload.len() as u32), ..c },
            fx.push(
                Effect::Frame(
                    packet::tcp_frame(
                        c.peer_mac,
                        mac,
                        net.ip,
                        c.peer_ip,
                        (TcpFields {
                            src_port: LISTEN_PORT,
                            dst_port: c.peer_port,
                            seq: c.snd_nxt,
                            ack: c.rcv_nxt,
                            window: RCV_WINDOW,
                            flags: flags,
                        }),
                        payload,
                    ),
                ),
            ),
        ),
    }
}

/// How many of the queued console bytes go into one segment.
pub open spec fn console_chunk(ring: Seq<u8>) -> int {
    ring::drained(ring, packet::MAX_SEG_PAYLOAD as nat) as int
}

/// One segment with the oldest queued bytes, or a bare acknowledgement.
pub open spec fn console_flushed(
    c: ConsoleModel,
    ring: Seq<u8>,
    net: NetIfModel,
    fx: Seq<Effect>,
) -> (ConsoleModel, Seq<Effect>) {
    console_sent(
        c,
        net,
        if ring.len() > 0 {
            PSH_ACK
        } else {
            ACK
        },
        ring.take(console_chunk(ring)),
        fx,
    )
}

/// The shell input that received bytes become.
pub open spec fn inputs(payload: Seq<u8>) -> Seq<Effect> {
    payload.map_values(|b: u8| Effect::Input(b))
}

/// Data on the established console connection.
pub open spec fn console_data(m: TcpModel, net: NetIfModel, seg: SegmentModel, fx: Seq<Effect>) -> (
    TcpModel,
    Seq<Effect>,
) {
    let c = m.console;
    if seg.payload.len() == 0 {
        (m, fx)
    } else if seg.seq == c.rcv_nxt {
        let (c1, fx1) = console_flushed(
            ConsoleModel { rcv_nxt: c.rcv_nxt.wrapping_add(seg.payload.len() as u32), ..c },
            m.ring,
            net,
            fx + inputs(seg.payload),
        );
        (TcpModel { console: c1, ring: m.ring.skip(console_chunk(m.ring)), ..m }, fx1)
    } else {
        let (c1, fx1) = console_sent(c, net, ACK, nothing(), fx);
        (TcpModel { console: c1, ..m }, fx1)
    }
}

/// The peer's FIN: acknowledge it and send ours.
pub open spec fn console_fin(c: ConsoleModel, net: NetIfModel, fx: Seq<Effect>) -> (
    ConsoleModel,
    Seq<Effect>,
) {
    let (c1, fx1) = console_sent(
        ConsoleModel { rcv_nxt: c.rcv_nxt.wrapping_add(1), ..c },
        net,
        ACK,
        nothing(),
        fx,
    );
    let (c2, fx2) = console_sent(c1, net, FIN_ACK, nothing(), fx1);
    (
        ConsoleModel { snd_nxt: c2.snd_nxt.wrapping_add(1), state: ConsoleState::LastAck, ..c2 },
        fx2,
    )
}

/// A segment for the console's port.
pub open spec fn console_segment(m: TcpModel, net: NetIfModel, seg: SegmentModel, fx: Seq<Effect>) -> (
    TcpModel,
    Seq<Effect>,
) {
    let c = m.console;
    if seg.has(RST) {
        (TcpModel { console: ConsoleModel { state: ConsoleState::Listen, ..c }, ..m }, fx)
    } else {
        match c.state {
            ConsoleState::Listen => if seg.has(SYN) {
                let iss = iss_after(m.iss);
                let (c1, fx1) = console_sent(
                    ConsoleModel {
                        state: ConsoleState::Listen,
                        peer_mac: seg.src_mac,
                        peer_ip: seg.src_ip,
                        peer_port: seg.src_port,
                        rcv_nxt: seg.seq.wrapping_add(1),
                        snd_nxt: iss,
                    },
                    net,
                    SYN_ACK,
                    nothing(),
                    fx,
                );
                (
                    TcpModel {
                        console: ConsoleModel {
                            snd_nxt: c1.snd_nxt.wrapping_add(1),
                            state: ConsoleState::SynReceived,
                            ..c1
                        },
                        iss: iss,
                        ..m
                    },
                    fx1,
                )
            } else {
                (m, reset_reply(net, seg, fx))
            },
            ConsoleState::SynReceived => if seg.acks(c.snd_nxt) && seg.src_port == c.peer_port {
                let (c1, fx1) = console_sent(
                    ConsoleModel { state: ConsoleState::Established, ..c },
                    net,
                    PSH_ACK,
                    banner(),
                    fx,
                );
                let (c2, fx2) = console_flushed(c1, m.ring, net, fx1);
                (TcpModel { console: c2, ring: m.ring.skip(console_chunk(m.ring)), ..m }, fx2)
            } else {
                (m, fx)
            },
            ConsoleState::Established => if seg.src_port != c.peer_port {
                (m, fx)
            } else {
                let (m1, fx1) = console_data(m, net, seg, fx);
                if seg.has(FIN) {
                    let (c2, fx2) = console_fin(m1.console, net, fx1);
                    (TcpModel { console: c2, ..m1 }, fx2)
                } else {
                    (m1, fx1)
                }
            },
            ConsoleState::LastAck => if seg.acks(c.snd_nxt) {
                (TcpModel { console: ConsoleModel { state: ConsoleState::Listen, ..c }, ..m }, fx)
            } else {
                (m, fx)
            },
        }
    }
}

/// The timer sends queued console bytes even when the peer is silent.
pub open spec fn console_tick(m: TcpModel, net: NetIfModel, fx: Seq<Effect>) -> (TcpModel, Seq<Effect>) {
    if m.console.state is Established && m.ring.len() > 0 && net.has_ip() {
        let (c, fx1) = console_flushed(m.console, m.ring, net, fx);
        (TcpModel { console: c, ring: m.ring.skip(console_chunk(m.ring)), ..m }, fx1)
    } else {
        (m, fx)
    }
}

// ---------------------------------------------------------------------------
// Inbound segments
// ---------------------------------------------------------------------------

/// Offset of the payload in a TCP segment.
pub open spec fn data_offset(segment: Seq<u8>) -> int {
    segment[12] / 16 * 4
}

/// The segment is long enough for its header.
pub open spec fn well_framed(segment: Seq<u8>) -> bool {
    segment.len() >= 20 && 20 <= data_offset(segment) <= segment.len()
}

/// The fields of a well-framed segment.
pub open spec fn decoded(frame: Seq<u8>, src_ip: Seq<u8>, segment: Seq<u8>) -> SegmentModel {
    SegmentModel {
        src_mac: frame.subrange(6, 12),
        src_ip: src_ip,
        src_port: crate::bytes::be16_at(segment, 0) as u16,
        dst_port: crate::bytes::be16_at(segment, 2) as u16,
        seq: crate::bytes::be32_at(segment, 4) as u32,
        ack: crate::bytes::be32_at(segment, 8) as u32,
        flags: segment[13],
        payload: segment.skip(data_offset(segment)),
    }
}

/// An IPv4 payload of protocol 6 addressed to `dst_ip`.
pub open spec fn tcp_input(
    m: TcpModel,
    net: NetIfModel,
    frame: Seq<u8>,
    src_ip: Seq<u8>,
    dst_ip: Seq<u8>,
    segment: Seq<u8>,
    fx: Seq<Effect>,
) -> (TcpModel, Seq<Effect>) {
    if net.has_ip() && dst_ip == net.ip && well_framed(segment) {
        let seg = decoded(frame, src_ip, segment);
        if seg.dst_port == LISTEN_PORT {
            console_segment(m, net, seg, fx)
        } else {
            user_segment(m, net, seg, fx)
        }
    } else {
        (m, fx)
    }
}

// ---------------------------------------------------------------------------
// The timer
// ---------------------------------------------------------------------------

/// The reaper frees a slot in this state once its deadline has passed.
pub open spec fn reapable(state: SockState) -> bool {
    state.winding_down() || state is SynReceived || state is Closed
}

/// A connect whose next hop is looked up: with the address known the SYN goes
/// out, otherwise an ARP request does.
pub open spec fn resumed(s: SocketModel, net: NetIfModel, iss: u32, fx: Seq<Effect>) -> (
    SocketModel,
    u32,
    Seq<Effect>,
) {
    let hop = net.next_hop(s.peer_ip);
    match net.mac_of(hop, 0) {
        Some(mac) => {
            let iss1 = iss_after(iss);
            let (s1, fx1) = sent(
                SocketModel { peer_mac: mac, awaiting_arp: false, snd_nxt: iss1, ..s },
                net,
                SYN,
                nothing(),
                fx,
            );
            (past_flag(s1), iss1, fx1)
        },
        None => (s, iss, fx.push(Effect::ArpRequest(hop))),
    }
}

/// What one tick does to one socket.
pub open spec fn socket_tick(s: SocketModel, net: NetIfModel, now: u64, iss: u32, fx: Seq<Effect>) -> (
    SocketModel,
    u32,
    Seq<Effect>,
) {
    if s.expiry_tick != 0 && now >= s.expiry_tick && reapable(s.state) {
        (free_socket(), iss, fx)
    } else if !net.has_ip() {
        (s, iss, fx)
    } else if s.state is Established || s.state is CloseWait {
        let (s1, fx1) = flushed_data(s, net, fx);
        (s1, iss, fx1)
    } else if s.state is SynSent && s.awaiting_arp && now % ARP_RETRY_TICKS == 0 {
        resumed(s, net, iss, fx)
    } else {
        (s, iss, fx)
    }
}

/// One tick, after it has visited the first `n` slots.
pub open spec fn ticked(m: TcpModel, net: NetIfModel, now: u64, fx: Seq<Effect>, n: nat) -> (
    TcpModel,
    Seq<Effect>,
)
    decreases n,
{
    if n == 0 {
        (TcpModel { now: now, ..m }, fx)
    } else {
        let (m1, fx1) = ticked(m, net, now, fx, (n - 1) as nat);
        let i = n - 1;
        let (s, iss, fx2) = socket_tick(m1.socks[i], net, now, m1.iss, fx1);
        (TcpModel { iss: iss, socks: m1.socks.update(i, s), ..m1 }, fx2)
    }
}

// ---------------------------------------------------------------------------
// Closing
// ---------------------------------------------------------------------------

/// Closes a connection: queued bytes and a FIN go out; without an address the
/// slot is just dropped.
pub open spec fn connection_closed(s: SocketModel, net: NetIfModel, now: u64, fx: Seq<Effect>) -> (
    SocketModel,
    Seq<Effect>,
) {
    if !net.has_ip() {
        (free_socket(), fx)
    } else {
        let (s1, fx1) = flushed_data(s, net, fx);
        let (s2, fx2) = sent(s1, net, FIN_ACK, nothing(), fx1);
        (
            expiring(
                past_flag(s2),
                if s.state is Established {
                    SockState::FinWait1
                } else {
                    SockState::LastAck
                },
                now,
            ),
            fx2,
        )
    }
}

/// Closes a socket that is no listener: a connection gracefully, a half-open
/// or unused one on the spot; one that is winding down is left alone.
pub open spec fn one_closed(s: SocketModel, net: NetIfModel, now: u64, fx: Seq<Effect>) -> (
    SocketModel,
    Seq<Effect>,
) {
    if s.state is Established || s.state is CloseWait {
        connection_closed(s, net, now, fx)
    } else if s.state.winding_down() {
        (s, fx)
    } else {
        (free_socket(), fx)
    }
}

/// What becomes of a pending child when its listener goes away: nobody could
/// accept it any more.
pub open spec fn child_closed(s: SocketModel, net: NetIfModel, now: u64, fx: Seq<Effect>) -> (
    SocketModel,
    Seq<Effect>,
) {
    if s.state is Established || s.state is CloseWait {
        connection_closed(s, net, now, fx)
    } else if s.state is SynReceived || s.state is Closed {
        (free_socket(), fx)
    } else {
        (s, fx)
    }
}

/// Closes slot `i`; a listener takes its pending child with it.
pub open spec fn closed_slot(m: TcpModel, net: NetIfModel, i: int, fx: Seq<Effect>) -> (
    TcpModel,
    Seq<Effect>,
) {
    let s = m.socks[i];
    if s.state is Free {
        (m, fx)
    } else if s.state is Listen {
        match child_of(m.socks, i) {
            Some(c) => {
                let (child, fx1) = child_closed(m.socks[c], net, m.now, fx);
                (
                    TcpModel { socks: m.socks.update(c, child).update(i, free_socket()), ..m },
                    fx1,
                )
            },
            None => (TcpModel { socks: m.socks.update(i, free_socket()), ..m }, fx),
        }
    } else {
        let (s1, fx1) = one_closed(s, net, m.now, fx);
        (TcpModel { socks: m.socks.update(i, s1), ..m }, fx1)
    }
}

/// The sockets of process `pid` closed, in the first `n` slots.
pub open spec fn cleaned(m: TcpModel, net: NetIfModel, pid: u32, fx: Seq<Effect>, n: nat) -> (
    TcpModel,
    Seq<Effect>,
)
    decreases n,
{
    if n == 0 {
        (m, fx)
    } else {
        let (m1, fx1) = cleaned(m, net, pid, fx, (n - 1) as nat);
        if m1.socks[n - 1].owner_pid == pid {
            closed_slot(m1, net, n - 1, fx1)
        } else {
            (m1, fx1)
        }
    }
}

// ---------------------------------------------------------------------------
// Every event keeps the invariant
// ---------------------------------------------------------------------------

/// A segment keeps what holds of a socket.
pub proof fn lemma_segment_inv(
    s: SocketModel,
    net: NetIfModel,
    seg: SegmentModel,
    now: u64,
    fx: Seq<Effect>,
)
    requires
        socket_inv(s),
        now + REAP_TICKS <= u64::MAX,
    ensures
        socket_inv(on_segment(s, net, seg, now, fx).0),
{
    let st = stored(s, seg.payload);
    assert(st.rx.len() < SOCK_BUF);
}

/// A tick keeps what holds of a socket.
pub proof fn lemma_tick_inv(s: SocketModel, net: NetIfModel, now: u64, iss: u32, fx: Seq<Effect>)
    requires
        socket_inv(s),
        net.mac_of(net.next_hop(s.peer_ip), 0) matches Some(m) ==> m.len() == 6,
    ensures
        socket_inv(socket_tick(s, net, now, iss, fx).0),
{
}

/// Every address in the neighbour table has six bytes.
pub proof fn lemma_mac_len(net: NetIfModel, ip: Seq<u8>, i: int)
    ensures
        net.mac_of(ip, i) matches Some(m) ==> m.len() == 6,
    decreases net.neighbours.len() - i,
{
    if 0 <= i < net.neighbours.len() && net.neighbours[i].ip@ != ip {
        lemma_mac_len(net, ip, i + 1);
    }
}

// ---------------------------------------------------------------------------
// Calls of processes
// ---------------------------------------------------------------------------

/// Process `pid` may use slot `i` in state `Closed`: `None`, or the reason
/// against it.
pub open spec fn unusable(m: TcpModel, i: int, pid: u32) -> Option<Seq<char>> {
    if m.socks[i].owner_pid != pid {
        Some("not owner"@)
    } else if !(m.socks[i].state is Closed) {
        Some("not Closed"@)
    } else {
        None
    }
}

/// Why a listen call is refused, if it is.
pub open spec fn listen_refused(m: TcpModel, i: int, port: u16, pid: u32) -> Option<Seq<char>> {
    if i >= MAX_USERSPACE_SOCKETS {
        Some("bad sock"@)
    } else if port == 0 || port == LISTEN_PORT {
        Some("reserved port"@)
    } else if port_taken(m.socks, port) {
        Some("port in use"@)
    } else {
        unusable(m, i, pid)
    }
}

/// Why a connect call is refused, if it is.
pub open spec fn connect_refused(m: TcpModel, i: int, port: u16, pid: u32) -> Option<Seq<char>> {
    if i >= MAX_USERSPACE_SOCKETS {
        Some("bad sock"@)
    } else if port == 0 {
        Some("bad port"@)
    } else {
        unusable(m, i, pid)
    }
}

/// Why a close call is refused, if it is.
pub open spec fn close_refused(m: TcpModel, i: int, pid: u32) -> Option<Seq<char>> {
    if i >= MAX_USERSPACE_SOCKETS {
        Some("bad sock"@)
    } else if m.socks[i].state is Free {
        Some("not allocated"@)
    } else if m.socks[i].owner_pid != pid {
        Some("not owner"@)
    } else {
        None
    }
}

/// Slot `i` listens on `port`.
pub open spec fn listening(m: TcpModel, i: int, port: u16) -> TcpModel {
    TcpModel {
        socks: m.socks.update(
            i,
            SocketModel {
                local_port: port,
                state: SockState::Listen,
                pending_child: NO_PENDING,
                ..m.socks[i]
            },
        ),
        ..m
    }
}

/// Slot `i` accepts: the established child, and the table after it.
pub open spec fn accepted(m: TcpModel, i: int, pid: u32) -> (TcpModel, Option<int>) {
    if i >= MAX_USERSPACE_SOCKETS || !(m.socks[i].state is Listen) || m.socks[i].owner_pid != pid {
        (m, None)
    } else {
        let socks = reclaimed(m.socks, i);
        match child_of(socks, i) {
            Some(c) => if socks[c].state is Established {
                (TcpModel { socks: without_child(socks, i), ..m }, Some(c))
            } else {
                (TcpModel { socks: socks, ..m }, None)
            },
            None => (TcpModel { socks: socks, ..m }, None),
        }
    }
}

/// Probes for an unused port.
pub const PORT_PROBES: usize = 6;

/// Slot `i` starts to connect: it gets an unused port of the dynamic range,
/// and with an address of our own the next hop is looked up at once.
pub open spec fn connecting(
    m: TcpModel,
    net: NetIfModel,
    i: int,
    peer_ip: Seq<u8>,
    peer_port: u16,
    fx: Seq<Effect>,
) -> (TcpModel, Seq<Effect>) {
    let port = ephemeral(m.socks, m.next_port, PORT_PROBES as nat);
    let s = SocketModel {
        local_port: port,
        peer_ip: peer_ip,
        peer_port: peer_port,
        state: SockState::SynSent,
        awaiting_arp: true,
        ..m.socks[i]
    };
    let (s1, iss, fx1) = if net.has_ip() {
        resumed(s, net, m.iss, fx)
    } else {
        (s, m.iss, fx)
    };
    (
        TcpModel { next_port: port_after(port), iss: iss, socks: m.socks.update(i, s1), ..m },
        fx1,
    )
}

/// Process `pid` may send on slot `i`.
pub open spec fn may_send(m: TcpModel, i: int, pid: u32) -> bool {
    i < MAX_USERSPACE_SOCKETS && m.socks[i].owner_pid == pid && (m.socks[i].state is Established
        || m.socks[i].state is CloseWait)
}

/// How many of `bytes` a send on slot `i` takes.
pub open spec fn sendable(m: TcpModel, i: int, bytes: Seq<u8>) -> int {
    ring::fitting(m.socks[i].tx, (SOCK_BUF - 1) as nat, bytes)
}

/// Slot `i` sends: what fits is queued, and goes out at once when there is an
/// address.
pub open spec fn sending(m: TcpModel, net: NetIfModel, i: int, bytes: Seq<u8>, fx: Seq<Effect>) -> (
    TcpModel,
    Seq<Effect>,
) {
    let s = SocketModel {
        tx: m.socks[i].tx + bytes.take(sendable(m, i, bytes)),
        ..m.socks[i]
    };
    let (s1, fx1) = if net.has_ip() {
        flushed_data(s, net, fx)
    } else {
        (s, fx)
    };
    (TcpModel { socks: m.socks.update(i, s1), ..m }, fx1)
}

/// Free space under which a receive queue counts as starved.
pub const STARVED: usize = 64;

/// Process `pid` may receive from slot `i`.
pub open spec fn may_recv(m: TcpModel, i: int, pid: u32) -> bool {
    i < MAX_USERSPACE_SOCKETS && !(m.socks[i].state is Free) && m.socks[i].owner_pid == pid
}

/// Slot `i` gives up to `max` received bytes; when the queue was starved, the
/// peer is told that the window has opened.
pub open spec fn receiving(m: TcpModel, net: NetIfModel, i: int, max: nat, fx: Seq<Effect>) -> (
    TcpModel,
    Seq<Effect>,
) {
    let s = m.socks[i];
    let n = ring::drained(s.rx, max) as int;
    let s1 = SocketModel { rx: s.rx.skip(n), ..s };
    let (s2, fx2) = if n > 0 && rx_space(s) < STARVED && s.state is Established && net.has_ip() {
        sent(s1, net, ACK, nothing(), fx)
    } else {
        (s1, fx)
    };
    (TcpModel { socks: m.socks.update(i, s2), ..m }, fx2)
}

/// With four sockets, one of five consecutive ports of the dynamic range is
/// unused.
pub proof fn lemma_ephemeral(socks: Seq<SocketModel>, port: u16)
    requires
        socks.len() == MAX_USERSPACE_SOCKETS,
        port >= EPHEMERAL_BASE,
    ensures
        ({
            let p = ephemeral(socks, port, PORT_PROBES as nat);
            !port_taken(socks, p) && p >= EPHEMERAL_BASE
        }),
{
    reveal_with_fuel(ephemeral, 7);
    let p1 = port_after(port);
    let p2 = port_after(p1);
    let p3 = port_after(p2);
    let p4 = port_after(p3);
    if port_taken(socks, port) && port_taken(socks, p1) && port_taken(socks, p2) && port_taken(
        socks,
        p3,
    ) && port_taken(socks, p4) {
        let i0 = choose|i: int|
            0 <= i < socks.len() && !(#[trigger] socks[i].state is Free) && socks[i].local_port
                == port;
        let i1 = choose|i: int|
            0 <= i < socks.len() && !(#[trigger] socks[i].state is Free) && socks[i].local_port
                == p1;
        let i2 = choose|i: int|
            0 <= i < socks.len() && !(#[trigger] socks[i].state is Free) && socks[i].local_port
                == p2;
        let i3 = choose|i: int|
            0 <= i < socks.len() && !(#[trigger] socks[i].state is Free) && socks[i].local_port
                == p3;
        let i4 = choose|i: int|
            0 <= i < socks.len() && !(#[trigger] socks[i].state is Free) && socks[i].local_port
                == p4;
        assert(false);
    }
}

} // verus!
