//! TCP for the QEMU `virt` machine.
//!
//! Two datapaths share one segment builder. The kernel's remote console owns
//! [`LISTEN_PORT`]: bytes received there go to the shell input, bytes pushed by
//! the shell go out. Everything else belongs to the table of userspace sockets,
//! which processes drive through `user_*` calls.
//!
//! The table keeps these properties, each stated below:
//!
//! - a call made for one process leaves every socket of another process as it
//!   was;
//! - a socket that is winding down carries a deadline, and the timer tick frees
//!   it once the deadline has passed;
//! - the advertised window is the free space of the receive queue, and an
//!   acknowledgement covers exactly the bytes that were stored;
//! - a FIN counts only when it stands right behind the bytes received so far.
//!
//! There is no retransmission, no reassembly and no backlog: a listener has at
//! most one pending child.
use crate::bytes::{array6, be16, be32, same4};
use crate::platform::qemu_virt::packet::{
    build_tcp_frame, NetIf, Outbox, Outgoing, TcpFields, MAX_SEG_PAYLOAD,
};
use crate::platform::qemu_virt::tcp::model::{
    ConsoleModel, ConsoleState, SegmentModel, SocketModel, TcpModel,
};
use crate::ring::ByteRing;
use vstd::prelude::*;

pub mod laws;
pub mod model;
pub mod wire;

verus! {

/// Port of the kernel's remote console.
pub const LISTEN_PORT: u16 = 2323;

/// Ceiling of the advertised receive window.
pub const RCV_WINDOW: u16 = 1400;

pub const FIN: u8 = 0x01;

pub const SYN: u8 = 0x02;

pub const RST: u8 = 0x04;

pub const ACK: u8 = 0x10;

pub const FIN_ACK: u8 = 0x11;

pub const SYN_ACK: u8 = 0x12;

pub const RST_ACK: u8 = 0x14;

pub const PSH_ACK: u8 = 0x18;

/// Size of the console's transmit buffer.
pub const RING_SIZE: usize = 4096;

/// Number of slots in the socket table.
pub const MAX_USERSPACE_SOCKETS: usize = 4;

/// Size of a socket's receive and of its transmit buffer.
pub const SOCK_BUF: usize = 1024;

/// The value of `pending_child` that stands for no child.
pub const NO_PENDING: u32 = 0xFFFF_FFFF;

/// Ticks after which a socket that is winding down is freed.
pub const REAP_TICKS: u64 = 500;

/// Ticks between two ARP requests for an unresolved next hop.
pub const ARP_RETRY_TICKS: u64 = 25;

/// First port of the dynamic range.
pub const EPHEMERAL_BASE: u16 = 49152;

/// State of a socket slot.
#[derive(Clone, Copy, PartialEq, Eq, Structural, Debug)]
pub enum SockState {
    Free,
    Listen,
    SynSent,
    SynReceived,
    Established,
    /// The peer has sent its FIN; sending is still possible.
    CloseWait,
    FinWait1,
    FinWait2,
    Closing,
    LastAck,
    TimeWait,
    Closed,
}

impl SockState {
    /// The number by which the socket-status call reports a state.
    pub open spec fn code_of(self) -> int {
        match self {
            SockState::Free => 0,
            SockState::Closed => 1,
            SockState::Listen => 2,
            SockState::SynSent => 3,
            SockState::SynReceived => 4,
            SockState::Established => 5,
            SockState::FinWait1 => 6,
            SockState::FinWait2 => 7,
            SockState::Closing => 8,
            SockState::LastAck => 9,
            SockState::TimeWait => 10,
            SockState::CloseWait => 11,
        }
    }

    /// Stable numeric code of a state.
    pub fn code(self) -> (r: usize)
        ensures
            r == self.code_of(),
    {
        match self {
            SockState::Free => 0,
            SockState::Closed => 1,
            SockState::Listen => 2,
            SockState::SynSent => 3,
            SockState::SynReceived => 4,
            SockState::Established => 5,
            SockState::CloseWait => 11,
            SockState::FinWait1 => 6,
            SockState::FinWait2 => 7,
            SockState::Closing => 8,
            SockState::LastAck => 9,
            SockState::TimeWait => 10,
        }
    }

    /// The application has released its handle and the connection is being
    /// wound down.
    pub open spec fn winding_down(self) -> bool {
        self is FinWait1 || self is FinWait2 || self is Closing || self is LastAck
            || self is TimeWait
    }

    /// Tests [`SockState::winding_down`].
    fn is_winding_down(self) -> (r: bool)
        ensures
            r == self.winding_down(),
    {
        matches!(
            self,
            SockState::FinWait1 | SockState::FinWait2 | SockState::Closing | SockState::LastAck
                | SockState::TimeWait
        )
    }
}

/// The codes tell all states apart.
pub proof fn law_state_codes_distinct(a: SockState, b: SockState)
    requires
        a.code_of() == b.code_of(),
    ensures
        a == b,
{
}

// ---------------------------------------------------------------------------
// One socket
// ---------------------------------------------------------------------------

/// A slot of the socket table.
pub struct UserSocket {
    state: SockState,
    owner_pid: u32,
    local_port: u16,
    peer_mac: [u8; 6],
    peer_ip: [u8; 4],
    peer_port: u16,
    snd_nxt: u32,
    rcv_nxt: u32,
    pending_child: u32,
    awaiting_arp: bool,
    expiry_tick: u64,
    rx: ByteRing,
    tx: ByteRing,
}

impl View for UserSocket {
    type V = SocketModel;

    closed spec fn view(&self) -> SocketModel {
        SocketModel {
            state: self.state,
            owner_pid: self.owner_pid,
            local_port: self.local_port,
            peer_mac: self.peer_mac@,
            peer_ip: self.peer_ip@,
            peer_port: self.peer_port,
            snd_nxt: self.snd_nxt,
            rcv_nxt: self.rcv_nxt,
            pending_child: self.pending_child,
            awaiting_arp: self.awaiting_arp,
            expiry_tick: self.expiry_tick,
            rx: self.rx@,
            tx: self.tx@,
        }
    }
}

impl UserSocket {
    /// The queues have their buffers.
    pub closed spec fn wf(&self) -> bool {
        &&& self.rx.wf()
        &&& self.rx.cap() == SOCK_BUF - 1
        &&& self.tx.wf()
        &&& self.tx.cap() == SOCK_BUF - 1
    }

    proof fn lemma_lens(&self)
        requires
            self.wf(),
        ensures
            self@.rx.len() < SOCK_BUF,
            self@.tx.len() < SOCK_BUF,
            self@.peer_mac.len() == 6,
            self@.peer_ip.len() == 4,
    {
        self.rx.lemma_len();
        self.tx.lemma_len();
    }

    /// A slot that is not in use.
    fn empty() -> (r: UserSocket)
        ensures
            r.wf(),
            r@ == model::free_socket(),
    {
        let r: UserSocket = UserSocket {
            state: SockState::Free,
            owner_pid: 0,
            local_port: 0,
            peer_mac: [0, 0, 0, 0, 0, 0],
            peer_ip: [0, 0, 0, 0],
            peer_port: 0,
            snd_nxt: 0,
            rcv_nxt: 0,
            pending_child: NO_PENDING,
            awaiting_arp: false,
            expiry_tick: 0,
            rx: ByteRing::new(SOCK_BUF),
            tx: ByteRing::new(SOCK_BUF),
        };
        assert(r@ =~= model::free_socket());
        r
    }

    /// Bytes received and not yet read.
    fn rx_len(&self) -> (n: usize)
        requires
            self.wf(),
        ensures
            n == self@.rx.len(),
    {
        self.rx.len()
    }

    /// Free space of the receive queue.
    fn rx_free(&self) -> (n: usize)
        requires
            self.wf(),
        ensures
            n == model::rx_space(self@),
    {
        self.rx.free()
    }

    /// Stores as much of an in-order payload as fits and moves the position by
    /// exactly that much, so that an acknowledgement never covers bytes that
    /// were dropped.
    fn rx_accept(&mut self, payload: &[u8]) -> (n: usize)
        requires
            old(self).wf(),
        ensures
            final(self).wf(),
            n == model::storable(old(self)@, payload@),
            final(self)@ == model::stored(old(self)@, payload@),
    {
        proof {
            self.lemma_lens();
        }
        let n: usize = self.rx.push_fitting(payload);
        self.rcv_nxt = self.rcv_nxt.wrapping_add(n as u32);
        assert(self@ =~= model::stored(old(self)@, payload@));
        n
    }

    /// Takes up to `max` received bytes.
    fn rx_drain(&mut self, max: usize) -> (out: Vec<u8>)
        requires
            old(self).wf(),
        ensures
            final(self).wf(),
            ({
                let n = crate::ring::drained(old(self)@.rx, max as nat) as int;
                &&& out@ == old(self)@.rx.take(n)
                &&& final(self)@ == (SocketModel { rx: old(self)@.rx.skip(n), ..old(self)@ })
            }),
    {
        self.rx.drain(max)
    }

    /// Queues as much of `bytes` for sending as fits.
    fn tx_push(&mut self, bytes: &[u8]) -> (n: usize)
        requires
            old(self).wf(),
        ensures
            final(self).wf(),
            n == crate::ring::fitting(old(self)@.tx, (SOCK_BUF - 1) as nat, bytes@),
            final(self)@ == (SocketModel {
                tx: old(self)@.tx + bytes@.take(n as int),
                ..old(self)@
            }),
    {
        self.tx.push_fitting(bytes)
    }

    /// Takes all bytes queued for sending: they always fit one segment.
    fn tx_drain(&mut self) -> (out: Vec<u8>)
        requires
            old(self).wf(),
        ensures
            final(self).wf(),
            out@ == old(self)@.tx,
            out@.len() < SOCK_BUF,
            final(self)@ == (SocketModel { tx: model::nothing(), ..old(self)@ }),
    {
        proof {
            self.lemma_lens();
        }
        let out: Vec<u8> = self.tx.drain(MAX_SEG_PAYLOAD);
        assert(out@ =~= old(self)@.tx);
        assert(self@.tx =~= model::nothing());
        out
    }

    /// True when bytes wait to be sent.
    fn tx_has_data(&self) -> (r: bool)
        requires
            self.wf(),
        ensures
            r == (self@.tx.len() > 0),
    {
        !self.tx.is_empty()
    }

    /// Starts the clock of the reaper.
    fn mark_expiry(&mut self, now: u64)
        requires
            old(self).wf(),
            now + REAP_TICKS <= u64::MAX,
        ensures
            final(self).wf(),
            final(self)@ == (SocketModel { expiry_tick: (now + REAP_TICKS) as u64, ..old(self)@ }),
    {
        self.expiry_tick = now + REAP_TICKS;
    }

    /// The window to advertise.
    fn sock_window(&self) -> (r: u16)
        requires
            self.wf(),
        ensures
            r == model::window_of(self@),
    {
        let free: usize = self.rx_free();
        if free < RCV_WINDOW as usize {
            free as u16
        } else {
            RCV_WINDOW
        }
    }

    /// Sends one segment.
    fn send_user_segment(&mut self, net: &NetIf, flags: u8, payload: &[u8], out: &mut Outbox)
        requires
            old(self).wf(),
            payload@.len() <= u32::MAX,
        ensures
            final(self).wf(),
            (final(self)@, final(out)@) == model::sent(
                old(self)@,
                net@,
                flags,
                payload@,
                old(out)@,
            ),
    {
        let our_mac: [u8; 6] = match net.mac {
            Some(m) => m,
            None => {
                return ;
            },
        };
        let h: TcpFields = TcpFields {
            src_port: self.local_port,
            dst_port: self.peer_port,
            seq: self.snd_nxt,
            ack: self.rcv_nxt,
            window: self.sock_window(),
            flags,
        };
        let frame: Vec<u8> = build_tcp_frame(
            &self.peer_mac,
            &our_mac,
            &net.ip,
            &self.peer_ip,
            &h,
            payload,
        );
        out.put(Outgoing::Frame(frame));
        self.snd_nxt = self.snd_nxt.wrapping_add(payload.len() as u32);
    }

    /// Sends a bare segment with the given flags.
    fn send_flags(&mut self, net: &NetIf, flags: u8, out: &mut Outbox)
        requires
            old(self).wf(),
        ensures
            final(self).wf(),
            (final(self)@, final(out)@) == model::sent(
                old(self)@,
                net@,
                flags,
                model::nothing(),
                old(out)@,
            ),
    {
        let empty: Vec<u8> = Vec::new();
        assert(empty@ =~= model::nothing());
        self.send_user_segment(net, flags, &empty, out);
    }

    /// Sends all queued bytes in one segment, if there are any.
    fn flush_data(&mut self, net: &NetIf, out: &mut Outbox)
        requires
            old(self).wf(),
        ensures
            final(self).wf(),
            (final(self)@, final(out)@) == model::flushed_data(old(self)@, net@, old(out)@),
    {
        if self.tx_has_data() {
            let buf: Vec<u8> = self.tx_drain();
            self.send_user_segment(net, PSH_ACK, &buf, out);
        }
    }

    /// Acknowledges, folding in all queued bytes.
    fn flush_user_pending(&mut self, net: &NetIf, out: &mut Outbox)
        requires
            old(self).wf(),
        ensures
            final(self).wf(),
            (final(self)@, final(out)@) == model::flushed(old(self)@, net@, old(out)@),
    {
        if self.tx_has_data() {
            self.flush_data(net, out);
        } else {
            self.send_flags(net, ACK, out);
        }
    }
}

// ---------------------------------------------------------------------------
// Inbound segments of one connection
// ---------------------------------------------------------------------------

/// A decoded inbound segment.
pub struct Segment<'a> {
    pub src_mac: [u8; 6],
    pub src_ip: [u8; 4],
    pub src_port: u16,
    pub dst_port: u16,
    pub seq: u32,
    pub ack: u32,
    pub flags: u8,
    pub payload: &'a [u8],
}

impl<'a> View for Segment<'a> {
    type V = SegmentModel;

    open spec fn view(&self) -> SegmentModel {
        SegmentModel {
            src_mac: self.src_mac@,
            src_ip: self.src_ip@,
            src_port: self.src_port,
            dst_port: self.dst_port,
            seq: self.seq,
            ack: self.ack,
            flags: self.flags,
            payload: self.payload@,
        }
    }
}

impl<'a> Segment<'a> {
    /// The segment came in an IPv4 packet, so its payload is short.
    pub open spec fn wf(&self) -> bool {
        self.payload@.len() + 20 <= u32::MAX
    }

    fn fin_pos(&self) -> (r: u32)
        requires
            self.wf(),
        ensures
            r == self@.fin_pos(),
    {
        self.seq.wrapping_add(self.payload.len() as u32)
    }

    fn acks(&self, snd_nxt: u32) -> (r: bool)
        ensures
            r == self@.acks(snd_nxt),
    {
        self.flags & ACK != 0 && self.ack == snd_nxt
    }
}

impl UserSocket {
    /// A segment on an established connection.
    fn on_established(&mut self, net: &NetIf, seg: &Segment, out: &mut Outbox)
        requires
            old(self).wf(),
            seg.wf(),
        ensures
            final(self).wf(),
            (final(self)@, final(out)@) == model::on_established(
                old(self)@,
                net@,
                seg@,
                old(out)@,
            ),
    {
        if seg.payload.len() > 0 {
            if seg.seq == self.rcv_nxt {
                let _ = self.rx_accept(seg.payload);
                self.flush_user_pending(net, out);
            } else {
                self.send_flags(net, ACK, out);
            }
        }
        if seg.flags & FIN != 0 && seg.fin_pos() == self.rcv_nxt {
            self.rcv_nxt = self.rcv_nxt.wrapping_add(1);
            self.state = SockState::CloseWait;
            self.send_flags(net, ACK, out);
        }
    }

    /// Lets data that nobody reads any more move the position.
    fn discard(&mut self, seg: &Segment)
        requires
            old(self).wf(),
            seg.wf(),
        ensures
            final(self).wf(),
            final(self)@ == model::discarded(old(self)@, seg@),
    {
        if seg.payload.len() > 0 && seg.seq == self.rcv_nxt {
            self.rcv_nxt = self.rcv_nxt.wrapping_add(seg.payload.len() as u32);
        }
    }

    /// A segment while our FIN is out and not acknowledged.
    fn on_fin_wait1(&mut self, net: &NetIf, seg: &Segment, now: u64, out: &mut Outbox)
        requires
            old(self).wf(),
            seg.wf(),
            now + REAP_TICKS <= u64::MAX,
        ensures
            final(self).wf(),
            (final(self)@, final(out)@) == model::on_fin_wait1(
                old(self)@,
                net@,
                seg@,
                now,
                old(out)@,
            ),
    {
        let our_fin_acked: bool = seg.acks(self.snd_nxt);
        self.discard(seg);
        let peer_fin: bool = seg.flags & FIN != 0 && seg.fin_pos() == self.rcv_nxt;
        if peer_fin {
            self.rcv_nxt = self.rcv_nxt.wrapping_add(1);
        }
        if peer_fin || seg.payload.len() > 0 {
            self.send_flags(net, ACK, out);
        }
        if our_fin_acked && peer_fin {
            self.state = SockState::TimeWait;
            self.mark_expiry(now);
        } else if our_fin_acked {
            self.state = SockState::FinWait2;
            self.mark_expiry(now);
        } else if peer_fin {
            self.state = SockState::Closing;
            self.mark_expiry(now);
        }
    }

    /// A segment while we wait for the peer's FIN.
    fn on_fin_wait2(&mut self, net: &NetIf, seg: &Segment, now: u64, out: &mut Outbox)
        requires
            old(self).wf(),
            seg.wf(),
            now + REAP_TICKS <= u64::MAX,
        ensures
            final(self).wf(),
            (final(self)@, final(out)@) == model::on_fin_wait2(
                old(self)@,
                net@,
                seg@,
                now,
                old(out)@,
            ),
    {
        self.discard(seg);
        if seg.flags & FIN != 0 && seg.fin_pos() == self.rcv_nxt {
            self.rcv_nxt = self.rcv_nxt.wrapping_add(1);
            self.send_flags(net, ACK, out);
            self.state = SockState::TimeWait;
            self.mark_expiry(now);
        } else if seg.payload.len() > 0 {
            self.send_flags(net, ACK, out);
        }
    }

    /// A segment for this connection.
    fn on_segment(&mut self, net: &NetIf, seg: &Segment, now: u64, out: &mut Outbox)
        requires
            old(self).wf(),
            seg.wf(),
            now + REAP_TICKS <= u64::MAX,
        ensures
            final(self).wf(),
            (final(self)@, final(out)@) == model::on_segment(
                old(self)@,
                net@,
                seg@,
                now,
                old(out)@,
            ),
    {
        if seg.flags & RST != 0 {
            if self.state.is_winding_down() {
                *self = UserSocket::empty();
            } else {
                self.state = SockState::Closed;
            }
            return ;
        }
        match self.state {
            SockState::SynSent => {
                if seg.flags & SYN_ACK == SYN_ACK && seg.ack == self.snd_nxt {
                    self.rcv_nxt = seg.seq.wrapping_add(1);
                    self.state = SockState::Established;
                    self.expiry_tick = 0;
                    self.flush_user_pending(net, out);
                }
            },
            SockState::SynReceived => {
                if seg.acks(self.snd_nxt) {
                    self.state = SockState::Established;
                    self.expiry_tick = 0;
                    if seg.payload.len() > 0 && seg.seq == self.rcv_nxt {
                        let _ = self.rx_accept(seg.payload);
                        self.flush_user_pending(net, out);
                    }
                }
            },
            SockState::Established => self.on_established(net, seg, out),
            SockState::CloseWait | SockState::TimeWait => {
                if seg.flags & FIN != 0 {
                    self.send_flags(net, ACK, out);
                }
            },
            SockState::FinWait1 => self.on_fin_wait1(net, seg, now, out),
            SockState::FinWait2 => self.on_fin_wait2(net, seg, now, out),
            SockState::Closing => {
                if seg.acks(self.snd_nxt) {
                    self.state = SockState::TimeWait;
                    self.mark_expiry(now);
                }
            },
            SockState::LastAck => {
                if seg.acks(self.snd_nxt) {
                    *self = UserSocket::empty();
                }
            },
            SockState::Free | SockState::Listen | SockState::Closed => {},
        }
    }

    /// Closes a connection gracefully.
    fn close_connection(&mut self, net: &NetIf, now: u64, out: &mut Outbox)
        requires
            old(self).wf(),
            now + REAP_TICKS <= u64::MAX,
        ensures
            final(self).wf(),
            (final(self)@, final(out)@) == model::connection_closed(
                old(self)@,
                net@,
                now,
                old(out)@,
            ),
    {
        if !net.is_up() {
            *self = UserSocket::empty();
            return ;
        }
        let established: bool = self.state == SockState::Established;
        self.flush_data(net, out);
        self.send_flags(net, FIN_ACK, out);
        self.snd_nxt = self.snd_nxt.wrapping_add(1);
        self.state = if established { SockState::FinWait1 } else { SockState::LastAck };
        self.mark_expiry(now);
    }

    /// Closes a socket that is no listener.
    fn close_one(&mut self, net: &NetIf, now: u64, out: &mut Outbox)
        requires
            old(self).wf(),
            now + REAP_TICKS <= u64::MAX,
        ensures
            final(self).wf(),
            (final(self)@, final(out)@) == model::one_closed(old(self)@, net@, now, old(out)@),
    {
        match self.state {
            SockState::Established | SockState::CloseWait => self.close_connection(net, now, out),
            SockState::FinWait1 | SockState::FinWait2 | SockState::Closing | SockState::LastAck
            | SockState::TimeWait => {},
            _ => {
                *self = UserSocket::empty();
            },
        }
    }

    /// Closes the pending child of a listener that goes away.
    fn close_child(&mut self, net: &NetIf, now: u64, out: &mut Outbox)
        requires
            old(self).wf(),
            now + REAP_TICKS <= u64::MAX,
        ensures
            final(self).wf(),
            (final(self)@, final(out)@) == model::child_closed(old(self)@, net@, now, old(out)@),
    {
        match self.state {
            SockState::Established | SockState::CloseWait => self.close_connection(net, now, out),
            SockState::SynReceived | SockState::Closed => {
                *self = UserSocket::empty();
            },
            _ => {},
        }
    }

    /// Looks the next hop up: sends the SYN when its address is known, an ARP
    /// request otherwise.
    fn try_resume_connect(&mut self, net: &NetIf, iss: &mut u32, out: &mut Outbox)
        requires
            old(self).wf(),
        ensures
            final(self).wf(),
            (final(self)@, *final(iss), final(out)@) == model::resumed(
                old(self)@,
                net@,
                *old(iss),
                old(out)@,
            ),
    {
        let hop: [u8; 4] = net.next_hop_for(&self.peer_ip);
        match net.arp_lookup(&hop) {
            Some(mac) => {
                self.peer_mac = mac;
                self.awaiting_arp = false;
                *iss = next_iss(*iss);
                self.snd_nxt = *iss;
                self.send_flags(net, SYN, out);
                self.snd_nxt = self.snd_nxt.wrapping_add(1);
            },
            None => out.put(Outgoing::ArpRequest(hop)),
        }
    }

    /// What one timer tick does to this socket.
    fn tick(&mut self, net: &NetIf, now: u64, iss: &mut u32, out: &mut Outbox)
        requires
            old(self).wf(),
        ensures
            final(self).wf(),
            (final(self)@, *final(iss), final(out)@) == model::socket_tick(
                old(self)@,
                net@,
                now,
                *old(iss),
                old(out)@,
            ),
    {
        let reapable: bool = self.state.is_winding_down() || self.state == SockState::SynReceived
            || self.state == SockState::Closed;
        if self.expiry_tick != 0 && now >= self.expiry_tick && reapable {
            *self = UserSocket::empty();
            return ;
        }
        if !net.is_up() {
            return ;
        }
        match self.state {
            SockState::Established | SockState::CloseWait => self.flush_data(net, out),
            SockState::SynSent => {
                if self.awaiting_arp && now % ARP_RETRY_TICKS == 0 {
                    self.try_resume_connect(net, iss, out);
                }
            },
            _ => {},
        }
    }
}

/// The next initial send sequence number.
fn next_iss(iss: u32) -> (r: u32)
    ensures
        r == model::iss_after(iss),
{
    iss.wrapping_add(0x4000)
}

/// Answers a segment that nothing claims with a reset.
fn send_rst_for(net: &NetIf, seg: &Segment, out: &mut Outbox)
    requires
        seg.wf(),
    ensures
        final(out)@ == model::reset_reply(net@, seg@, old(out)@),
{
    let our_mac: [u8; 6] = match net.mac {
        Some(m) => m,
        None => {
            return ;
        },
    };
    let mut adv: u32 = seg.payload.len() as u32;
    if seg.flags & SYN != 0 {
        adv = adv + 1;
    }
    if seg.flags & FIN != 0 {
        adv = adv + 1;
    }
    if adv == 0 {
        adv = 1;
    }
    let acked: bool = seg.flags & ACK != 0;
    let h: TcpFields = TcpFields {
        src_port: seg.dst_port,
        dst_port: seg.src_port,
        seq: if acked { seg.ack } else { 0 },
        ack: if acked { 0 } else { seg.seq.wrapping_add(adv) },
        window: 0,
        flags: if acked { RST } else { RST_ACK },
    };
    let empty: Vec<u8> = Vec::new();
    assert(empty@ =~= model::nothing());
    let frame: Vec<u8> = build_tcp_frame(
        &seg.src_mac,
        &our_mac,
        &net.ip,
        &seg.src_ip,
        &h,
        &empty,
    );
    out.put(Outgoing::Frame(frame));
}

// ---------------------------------------------------------------------------
// The whole state
// ---------------------------------------------------------------------------

/// The connection of the remote console.
pub struct ConsoleConn {
    state: ConsoleState,
    peer_mac: [u8; 6],
    peer_ip: [u8; 4],
    peer_port: u16,
    snd_nxt: u32,
    rcv_nxt: u32,
}

impl View for ConsoleConn {
    type V = ConsoleModel;

    closed spec fn view(&self) -> ConsoleModel {
        ConsoleModel {
            state: self.state,
            peer_mac: self.peer_mac@,
            peer_ip: self.peer_ip@,
            peer_port: self.peer_port,
            snd_nxt: self.snd_nxt,
            rcv_nxt: self.rcv_nxt,
        }
    }
}

/// All TCP state of the kernel.
pub struct TcpStack {
    console: ConsoleConn,
    ring: ByteRing,
    iss: u32,
    now: u64,
    next_port: u16,
    sockets: Vec<UserSocket>,
}

/// The models of a list of sockets.
pub open spec fn socket_models(socks: Seq<UserSocket>) -> Seq<SocketModel> {
    socks.map_values(|s: UserSocket| s@)
}

impl View for TcpStack {
    type V = TcpModel;

    closed spec fn view(&self) -> TcpModel {
        TcpModel {
            console: self.console@,
            ring: self.ring@,
            iss: self.iss,
            now: self.now,
            next_port: self.next_port,
            socks: socket_models(self.sockets@),
        }
    }
}

/// Replacing one socket replaces its model.
proof fn lemma_replace(socks: Seq<UserSocket>, i: int, s: UserSocket)
    requires
        0 <= i < socks.len(),
    ensures
        socket_models(socks.update(i, s)) == socket_models(socks).update(i, s@),
{
    assert(socket_models(socks.update(i, s)) =~= socket_models(socks).update(i, s@));
}

impl TcpStack {
    /// The queues have their buffers and the model's invariant holds.
    pub closed spec fn wf(&self) -> bool {
        &&& self.ring.wf()
        &&& self.ring.cap() == RING_SIZE - 1
        &&& forall|i: int| 0 <= i < self.sockets@.len() ==> (#[trigger] self.sockets@[i]).wf()
        &&& model::inv(self@)
    }

    /// What holds of every well-formed stack: there are as many slots as can be, and
    /// each of them is in order.
    pub proof fn lemma_inv(&self)
        requires
            self.wf(),
        ensures
            model::inv(self@),
    {
    }

    /// The state at boot: nothing connected, every slot free.
    pub fn new() -> (r: TcpStack)
        ensures
            r.wf(),
            r@.console == model::no_console(),
            r@.socks.len() == MAX_USERSPACE_SOCKETS,
            r@.ring == model::nothing(),
            r@.iss == 0x1000,
            r@.now == 0,
            r@.next_port == EPHEMERAL_BASE,
            forall|i: int|
                0 <= i < MAX_USERSPACE_SOCKETS ==> #[trigger] r@.socks[i] == model::free_socket(),
    {
        let mut sockets: Vec<UserSocket> = Vec::new();
        let mut i: usize = 0;
        while i < MAX_USERSPACE_SOCKETS
            invariant
                i <= MAX_USERSPACE_SOCKETS,
                sockets@.len() == i,
                forall|j: int|
                    0 <= j < i ==> (#[trigger] sockets@[j]).wf() && sockets@[j]@
                        == model::free_socket(),
            decreases MAX_USERSPACE_SOCKETS - i,
        {
            sockets.push(UserSocket::empty());
            i = i + 1;
        }
        let r: TcpStack = TcpStack {
            console: ConsoleConn {
                state: ConsoleState::Listen,
                peer_mac: [0, 0, 0, 0, 0, 0],
                peer_ip: [0, 0, 0, 0],
                peer_port: 0,
                snd_nxt: 0,
                rcv_nxt: 0,
            },
            ring: ByteRing::new(RING_SIZE),
            iss: 0x1000,
            now: 0,
            next_port: EPHEMERAL_BASE,
            sockets,
        };
        assert(r@.console =~= model::no_console());
        assert forall|j: int| 0 <= j < MAX_USERSPACE_SOCKETS implies #[trigger] r@.socks[j]
            == model::free_socket() by {
            assert(r.sockets@[j]@ == model::free_socket());
        }
        r
    }

    /// True if a socket in use has `port` as its local port.
    fn port_in_use(&self, port: u16) -> (r: bool)
        requires
            self.wf(),
        ensures
            r == model::port_taken(self@.socks, port),
    {
        let mut i: usize = 0;
        while i < self.sockets.len()
            invariant
                self.wf(),
                i <= self.sockets@.len(),
                forall|j: int|
                    0 <= j < i ==> !(!(#[trigger] self@.socks[j].state is Free)
                        && self@.socks[j].local_port == port),
            decreases self.sockets@.len() - i,
        {
            let s: &UserSocket = &self.sockets[i];
            assert(self@.socks[i as int] == s@);
            if s.state != SockState::Free && s.local_port == port {
                assert(!(self@.socks[i as int].state is Free));
                return true;
            }
            i = i + 1;
        }
        false
    }

    /// The first free slot becomes a fresh socket of `owner_pid`.
    fn alloc_socket(&mut self, owner_pid: u32) -> (r: Option<usize>)
        requires
            old(self).wf(),
        ensures
            final(self).wf(),
            match r {
                Some(i) => model::free_slot(old(self)@.socks, 0) == Some(i as int) && i
                    < MAX_USERSPACE_SOCKETS && old(self)@.socks[i as int].state is Free
                    && final(self)@ == (TcpModel {
                    socks: old(self)@.socks.update(i as int, model::fresh_socket(owner_pid)),
                    ..old(self)@
                }),
                None => model::free_slot(old(self)@.socks, 0) is None && final(self)@
                    == old(self)@,
            },
    {
        let mut i: usize = 0;
        while i < self.sockets.len()
            invariant
                *self == *old(self),
                self.wf(),
                i <= self.sockets@.len(),
                model::free_slot(self@.socks, 0) == model::free_slot(self@.socks, i as int),
            decreases self.sockets@.len() - i,
        {
            assert(self@.socks[i as int] == self.sockets@[i as int]@);
            if self.sockets[i].state == SockState::Free {
                let mut s: UserSocket = UserSocket::empty();
                s.state = SockState::Closed;
                s.owner_pid = owner_pid;
                proof {
                    assert(s@ =~= model::fresh_socket(owner_pid));
                    lemma_replace(self.sockets@, i as int, s);
                }
                self.sockets.set(i, s);
                return Some(i);
            }
            i = i + 1;
        }
        None
    }

    /// The first slot that listens on `port`.
    fn find_listener(&self, port: u16) -> (r: Option<usize>)
        requires
            self.wf(),
        ensures
            match r {
                Some(i) => model::listener_slot(self@.socks, port, 0) == Some(i as int) && i
                    < MAX_USERSPACE_SOCKETS && self@.socks[i as int].state is Listen,
                None => model::listener_slot(self@.socks, port, 0) is None,
            },
    {
        let mut i: usize = 0;
        while i < self.sockets.len()
            invariant
                self.wf(),
                i <= self.sockets@.len(),
                model::listener_slot(self@.socks, port, 0) == model::listener_slot(
                    self@.socks,
                    port,
                    i as int,
                ),
            decreases self.sockets@.len() - i,
        {
            let s: &UserSocket = &self.sockets[i];
            assert(self@.socks[i as int] == s@);
            if s.state == SockState::Listen && s.local_port == port {
                return Some(i);
            }
            i = i + 1;
        }
        None
    }

    /// The first slot that is the connection between `local_port` and a peer.
    fn find_matching(&self, local_port: u16, peer_ip: &[u8; 4], peer_port: u16) -> (r: Option<
        usize,
    >)
        requires
            self.wf(),
        ensures
            match r {
                Some(i) => model::connection_slot(self@.socks, local_port, peer_ip@, peer_port, 0)
                    == Some(i as int) && i < MAX_USERSPACE_SOCKETS,
                None => model::connection_slot(self@.socks, local_port, peer_ip@, peer_port, 0)
                    is None,
            },
    {
        let mut i: usize = 0;
        while i < self.sockets.len()
            invariant
                self.wf(),
                i <= self.sockets@.len(),
                model::connection_slot(self@.socks, local_port, peer_ip@, peer_port, 0)
                    == model::connection_slot(
                    self@.socks,
                    local_port,
                    peer_ip@,
                    peer_port,
                    i as int,
                ),
            decreases self.sockets@.len() - i,
        {
            let s: &UserSocket = &self.sockets[i];
            assert(self@.socks[i as int] == s@);
            if s.local_port == local_port && s.peer_port == peer_port && same4(
                &s.peer_ip,
                peer_ip,
            ) && s.state != SockState::Free && s.state != SockState::Listen {
                return Some(i);
            }
            i = i + 1;
        }
        None
    }

    /// The pending child of listener `l`, if the reference is still good.
    fn pending_child(&self, l: usize) -> (r: Option<usize>)
        requires
            self.wf(),
            l < MAX_USERSPACE_SOCKETS,
        ensures
            match r {
                Some(c) => model::child_of(self@.socks, l as int) == Some(c as int) && c
                    < MAX_USERSPACE_SOCKETS,
                None => model::child_of(self@.socks, l as int) is None,
            },
    {
        let pc: u32 = self.sockets[l].pending_child;
        assert(self@.socks[l as int] == self.sockets@[l as int]@);
        if pc >= MAX_USERSPACE_SOCKETS as u32 {
            return None;
        }
        let c: usize = pc as usize;
        assert(self@.socks[c as int] == self.sockets@[c as int]@);
        if self.sockets[c].state != SockState::Free && self.sockets[c].owner_pid
            == self.sockets[l].owner_pid && self.sockets[c].local_port
            == self.sockets[l].local_port {
            Some(c)
        } else {
            None
        }
    }

    /// Replaces slot `i`.
    fn put_socket(&mut self, i: usize, s: UserSocket)
        requires
            old(self).wf(),
            i < MAX_USERSPACE_SOCKETS,
            s.wf(),
            model::socket_inv(s@),
        ensures
            final(self).wf(),
            final(self)@ == (TcpModel {
                socks: old(self)@.socks.update(i as int, s@),
                ..old(self)@
            }),
    {
        proof {
            lemma_replace(self.sockets@, i as int, s);
        }
        self.sockets.set(i, s);
    }

    /// Frees slot `i`.
    fn free_slot(&mut self, i: usize)
        requires
            old(self).wf(),
            i < MAX_USERSPACE_SOCKETS,
        ensures
            final(self).wf(),
            final(self)@ == (TcpModel {
                socks: old(self)@.socks.update(i as int, model::free_socket()),
                ..old(self)@
            }),
    {
        let s: UserSocket = UserSocket::empty();
        self.put_socket(i, s);
    }

    /// Drops a listener's reference to a child that is gone, and frees a child
    /// that was reset before it was accepted.
    fn reclaim_stale_child(&mut self, l: usize)
        requires
            old(self).wf(),
            l < MAX_USERSPACE_SOCKETS,
            old(self)@.socks[l as int].state is Listen,
        ensures
            final(self).wf(),
            final(self)@ == (TcpModel {
                socks: model::reclaimed(old(self)@.socks, l as int),
                ..old(self)@
            }),
    {
        match self.pending_child(l) {
            None => {},
            Some(c) => {
                assert(self@.socks[c as int] == self.sockets@[c as int]@);
                if self.sockets[c].state != SockState::Closed {
                    return ;
                }
                self.free_slot(c);
            },
        }
        let ghost mid = self.sockets@;
        assert(self@.socks[l as int] == mid[l as int]@);
        self.sockets[l].pending_child = NO_PENDING;
        proof {
            lemma_replace(mid, l as int, self.sockets@[l as int]);
            assert(self.sockets@ =~= mid.update(l as int, self.sockets@[l as int]));
        }
    }
}

// ---------------------------------------------------------------------------
// Inbound segments
// ---------------------------------------------------------------------------

impl TcpStack {
    /// A SYN for the listener in slot `l`.
    fn handle_syn(&mut self, net: &NetIf, seg: &Segment, l: usize, out: &mut Outbox)
        requires
            old(self).wf(),
            seg.wf(),
            l < MAX_USERSPACE_SOCKETS,
            old(self)@.socks[l as int].state is Listen,
        ensures
            final(self).wf(),
            (final(self)@, final(out)@) == model::on_syn(
                old(self)@,
                net@,
                seg@,
                l as int,
                old(out)@,
            ),
    {
        self.reclaim_stale_child(l);
        let ghost m1 = self@;
        if self.pending_child(l).is_some() {
            send_rst_for(net, seg, out);
            return ;
        }
        assert(self@.socks[l as int] == self.sockets@[l as int]@);
        let owner_pid: u32 = self.sockets[l].owner_pid;
        let child: usize = match self.alloc_socket(owner_pid) {
            Some(i) => i,
            None => {
                send_rst_for(net, seg, out);
                return ;
            },
        };
        let ghost m2 = self@;
        let iss: u32 = next_iss(self.iss);
        self.iss = iss;
        let ghost before = self.sockets@;
        assert(m2.socks[l as int] == before[l as int]@);
        self.sockets[l].pending_child = child as u32;
        proof {
            lemma_replace(before, l as int, self.sockets@[l as int]);
            assert(self.sockets@ =~= before.update(l as int, self.sockets@[l as int]));
        }
        let mut c: UserSocket = UserSocket::empty();
        c.state = SockState::SynReceived;
        c.owner_pid = owner_pid;
        c.local_port = seg.dst_port;
        c.peer_mac = seg.src_mac;
        c.peer_ip = seg.src_ip;
        c.peer_port = seg.src_port;
        c.rcv_nxt = seg.seq.wrapping_add(1);
        c.snd_nxt = iss;
        c.mark_expiry(self.now);
        assert(c@ =~= model::embryo(owner_pid, seg@, iss, m1.now));
        c.send_flags(net, SYN_ACK, out);
        c.snd_nxt = c.snd_nxt.wrapping_add(1);
        self.put_socket(child, c);
        proof {
            let want = model::on_syn(old(self)@, net@, seg@, l as int, old(out)@).0;
            assert(self@.socks =~= want.socks);
            assert(self@ =~= want);
        }
    }

    /// A segment for a port other than the console's.
    fn handle_user_segment(&mut self, net: &NetIf, seg: &Segment, out: &mut Outbox)
        requires
            old(self).wf(),
            seg.wf(),
        ensures
            final(self).wf(),
            (final(self)@, final(out)@) == model::user_segment(
                old(self)@,
                net@,
                seg@,
                old(out)@,
            ),
    {
        if let Some(idx) = self.find_matching(seg.dst_port, &seg.src_ip, seg.src_port) {
            let ghost before = self.sockets@;
            let now: u64 = self.now;
            assert(self@.socks[idx as int] == before[idx as int]@);
            proof {
                model::lemma_segment_inv(before[idx as int]@, net@, seg@, now, out@);
            }
            self.sockets[idx].on_segment(net, seg, now, out);
            proof {
                lemma_replace(before, idx as int, self.sockets@[idx as int]);
                assert(self.sockets@ =~= before.update(idx as int, self.sockets@[idx as int]));
            }
            return ;
        }
        if seg.flags & SYN != 0 && seg.flags & ACK == 0 {
            if let Some(l) = self.find_listener(seg.dst_port) {
                self.handle_syn(net, seg, l, out);
                return ;
            }
        }
        send_rst_for(net, seg, out);
    }
}

// ---------------------------------------------------------------------------
// The console
// ---------------------------------------------------------------------------

/// The greeting of the remote console.
fn banner() -> (r: Vec<u8>)
    ensures
        r@ == model::banner(),
{
    let r: Vec<u8> = vec![
        66, 101, 101, 116, 79, 83, 32, 114, 101, 109, 111, 116, 101, 32, 99, 111, 110, 115, 111,
        108, 101, 32, 40, 77, 55, 41, 13, 10,
    ];
    assert(r@ =~= model::banner());
    r
}

impl ConsoleConn {
    /// Sends one segment.
    fn send_console_segment(&mut self, net: &NetIf, flags: u8, payload: &[u8], out: &mut Outbox)
        requires
            payload@.len() <= u32::MAX,
        ensures
            (final(self)@, final(out)@) == model::console_sent(
                old(self)@,
                net@,
                flags,
                payload@,
                old(out)@,
            ),
    {
        let our_mac: [u8; 6] = match net.mac {
            Some(m) => m,
            None => {
                return ;
            },
        };
        let h: TcpFields = TcpFields {
            src_port: LISTEN_PORT,
            dst_port: self.peer_port,
            seq: self.snd_nxt,
            ack: self.rcv_nxt,
            window: RCV_WINDOW,
            flags,
        };
        let frame: Vec<u8> = build_tcp_frame(
            &self.peer_mac,
            &our_mac,
            &net.ip,
            &self.peer_ip,
            &h,
            payload,
        );
        out.put(Outgoing::Frame(frame));
        self.snd_nxt = self.snd_nxt.wrapping_add(payload.len() as u32);
    }

    /// Sends a bare segment with the given flags.
    fn send_flags(&mut self, net: &NetIf, flags: u8, out: &mut Outbox)
        ensures
            (final(self)@, final(out)@) == model::console_sent(
                old(self)@,
                net@,
                flags,
                model::nothing(),
                old(out)@,
            ),
    {
        let empty: Vec<u8> = Vec::new();
        assert(empty@ =~= model::nothing());
        self.send_console_segment(net, flags, &empty, out);
    }

    /// The peer's FIN.
    fn on_fin(&mut self, net: &NetIf, out: &mut Outbox)
        ensures
            (final(self)@, final(out)@) == model::console_fin(old(self)@, net@, old(out)@),
    {
        self.rcv_nxt = self.rcv_nxt.wrapping_add(1);
        self.send_flags(net, ACK, out);
        self.send_flags(net, FIN_ACK, out);
        self.snd_nxt = self.snd_nxt.wrapping_add(1);
        self.state = ConsoleState::LastAck;
    }
}

impl TcpStack {
    /// Sends the oldest queued console bytes, or a bare acknowledgement.
    fn flush_console_pending(&mut self, net: &NetIf, out: &mut Outbox)
        requires
            old(self).wf(),
        ensures
            final(self).wf(),
            ({
                let m = old(self)@;
                let (c, fx) = model::console_flushed(m.console, m.ring, net@, old(out)@);
                &&& final(self)@ == (TcpModel {
                    console: c,
                    ring: m.ring.skip(model::console_chunk(m.ring)),
                    ..m
                })
                &&& final(out)@ == fx
            }),
    {
        let buf: Vec<u8> = self.ring.drain(MAX_SEG_PAYLOAD);
        let flags: u8 = if buf.len() > 0 { PSH_ACK } else { ACK };
        self.console.send_console_segment(net, flags, &buf, out);
    }

    /// A segment for the console's port.
    fn handle_console_segment(&mut self, net: &NetIf, seg: &Segment, out: &mut Outbox)
        requires
            old(self).wf(),
            seg.wf(),
        ensures
            final(self).wf(),
            (final(self)@, final(out)@) == model::console_segment(
                old(self)@,
                net@,
                seg@,
                old(out)@,
            ),
    {
        if seg.flags & RST != 0 {
            self.console.state = ConsoleState::Listen;
            return ;
        }
        match self.console.state {
            ConsoleState::Listen => {
                if seg.flags & SYN != 0 {
                    self.iss = next_iss(self.iss);
                    self.console.peer_mac = seg.src_mac;
                    self.console.peer_ip = seg.src_ip;
                    self.console.peer_port = seg.src_port;
                    self.console.rcv_nxt = seg.seq.wrapping_add(1);
                    self.console.snd_nxt = self.iss;
                    self.console.send_flags(net, SYN_ACK, out);
                    self.console.snd_nxt = self.console.snd_nxt.wrapping_add(1);
                    self.console.state = ConsoleState::SynReceived;
                } else {
                    send_rst_for(net, seg, out);
                }
            },
            ConsoleState::SynReceived => {
                if seg.acks(self.console.snd_nxt) && seg.src_port == self.console.peer_port {
                    self.console.state = ConsoleState::Established;
                    let greeting: Vec<u8> = banner();
                    self.console.send_console_segment(net, PSH_ACK, &greeting, out);
                    self.flush_console_pending(net, out);
                }
            },
            ConsoleState::Established => {
                if seg.src_port != self.console.peer_port {
                    return ;
                }
                if seg.payload.len() > 0 {
                    if seg.seq == self.console.rcv_nxt {
                        self.console.rcv_nxt =
                        self.console.rcv_nxt.wrapping_add(seg.payload.len() as u32);
                        put_inputs(seg.payload, out);
                        self.flush_console_pending(net, out);
                    } else {
                        self.console.send_flags(net, ACK, out);
                    }
                }
                if seg.flags & FIN != 0 {
                    self.console.on_fin(net, out);
                }
            },
            ConsoleState::LastAck => {
                if seg.acks(self.console.snd_nxt) {
                    self.console.state = ConsoleState::Listen;
                }
            },
        }
    }
}

/// Hands received bytes to the shell's input.
fn put_inputs(payload: &[u8], out: &mut Outbox)
    ensures
        final(out)@ == old(out)@ + model::inputs(payload@),
{
    let mut i: usize = 0;
    assert(model::inputs(payload@.take(0)) =~= Seq::empty());
    assert(out@ =~= out@ + model::inputs(payload@.take(0)));
    while i < payload.len()
        invariant
            i <= payload@.len(),
            out@ == old(out)@ + model::inputs(payload@.take(i as int)),
        decreases payload@.len() - i,
    {
        out.put(Outgoing::Input(payload[i]));
        assert(out@ =~= old(out)@ + model::inputs(payload@.take(i + 1)));
        i = i + 1;
    }
    assert(payload@.take(i as int) =~= payload@);
}

/// An inbound TCP segment (IPv4 protocol 6): the console claims its own port,
/// the socket table every other one.
pub fn handle_segment(
    t: &mut TcpStack,
    net: &NetIf,
    frame: &[u8],
    src_ip: &[u8; 4],
    dst_ip: &[u8; 4],
    segment: &[u8],
    out: &mut Outbox,
)
    requires
        old(t).wf(),
        frame@.len() >= 12,
        segment@.len() <= u32::MAX,
    ensures
        final(t).wf(),
        (final(t)@, final(out)@) == model::tcp_input(
            old(t)@,
            net@,
            frame@,
            src_ip@,
            dst_ip@,
            segment@,
            old(out)@,
        ),
{
    if !net.is_up() || !same4(dst_ip, &net.ip) {
        return ;
    }
    if segment.len() < 20 {
        return ;
    }
    let data_off: usize = (segment[12] / 16) as usize * 4;
    if data_off < 20 || data_off > segment.len() {
        return ;
    }
    let payload: &[u8] = &segment[data_off..segment.len()];
    assert(payload@ =~= segment@.skip(data_off as int));
    let seg: Segment = Segment {
        src_mac: array6(frame, 6),
        src_ip: *src_ip,
        src_port: be16(segment, 0),
        dst_port: be16(segment, 2),
        seq: be32(segment, 4),
        ack: be32(segment, 8),
        flags: segment[13],
        payload,
    };
    assert(seg@ == model::decoded(frame@, src_ip@, segment@));
    if seg.dst_port == LISTEN_PORT {
        t.handle_console_segment(net, &seg, out);
    } else {
        t.handle_user_segment(net, &seg, out);
    }
}

/// Queues shell output for the console; when the buffer is full the oldest
/// bytes are dropped.
pub fn console_push(t: &mut TcpStack, bytes: &[u8])
    requires
        old(t).wf(),
    ensures
        final(t).wf(),
        final(t)@ == (TcpModel {
            ring: crate::ring::newest(old(t)@.ring + bytes@, (RING_SIZE - 1) as nat),
            ..old(t)@
        }),
{
    t.ring.push_overwriting(bytes);
}

/// Timer hook: sends queued console bytes even when the peer is silent.
pub fn tick_flush_console(t: &mut TcpStack, net: &NetIf, out: &mut Outbox)
    requires
        old(t).wf(),
    ensures
        final(t).wf(),
        (final(t)@, final(out)@) == model::console_tick(old(t)@, net@, old(out)@),
{
    if t.console.state != ConsoleState::Established || t.ring.is_empty() || !net.is_up() {
        return ;
    }
    t.flush_console_pending(net, out);
}

/// Timer hook for the socket table: frees slots whose deadline has passed,
/// sends queued bytes, and retries unresolved connects.
pub fn tick_flush_user(t: &mut TcpStack, net: &NetIf, now: u64, out: &mut Outbox)
    requires
        old(t).wf(),
        now + REAP_TICKS <= u64::MAX,
    ensures
        final(t).wf(),
        (final(t)@, final(out)@) == model::ticked(
            old(t)@,
            net@,
            now,
            old(out)@,
            MAX_USERSPACE_SOCKETS as nat,
        ),
{
    t.now = now;
    let mut idx: usize = 0;
    while idx < MAX_USERSPACE_SOCKETS
        invariant
            idx <= MAX_USERSPACE_SOCKETS,
            t.wf(),
            (t@, out@) == model::ticked(old(t)@, net@, now, old(out)@, idx as nat),
        decreases MAX_USERSPACE_SOCKETS - idx,
    {
        let ghost before = t.sockets@;
        let ghost m1 = t@;
        let mut iss: u32 = t.iss;
        assert(m1.socks[idx as int] == before[idx as int]@);
        proof {
            let s = before[idx as int]@;
            assert(model::socket_inv(m1.socks[idx as int]));
            model::lemma_mac_len(net@, net@.next_hop(s.peer_ip), 0);
            model::lemma_tick_inv(s, net@, now, iss, out@);
        }
        t.sockets[idx].tick(net, now, &mut iss, out);
        t.iss = iss;
        proof {
            lemma_replace(before, idx as int, t.sockets@[idx as int]);
            assert(t.sockets@ =~= before.update(idx as int, t.sockets@[idx as int]));
        }
        idx = idx + 1;
    }
}

// ---------------------------------------------------------------------------
// Calls of processes
// ---------------------------------------------------------------------------

impl TcpStack {
    /// The first unused port from the allocator's position on; the position
    /// moves past it.
    fn alloc_ephemeral_port(&mut self) -> (port: u16)
        requires
            old(self).wf(),
        ensures
            final(self).wf(),
            port == model::ephemeral(
                old(self)@.socks,
                old(self)@.next_port,
                model::PORT_PROBES as nat,
            ),
            port >= EPHEMERAL_BASE,
            !model::port_taken(old(self)@.socks, port),
            final(self)@ == (TcpModel { next_port: model::port_after(port), ..old(self)@ }),
    {
        proof {
            model::lemma_ephemeral(self@.socks, self.next_port);
        }
        let mut port: u16 = self.next_port;
        let mut tries: usize = model::PORT_PROBES;
        while tries > 0 && self.port_in_use(port)
            invariant
                *self == *old(self),
                self.wf(),
                port >= EPHEMERAL_BASE,
                model::ephemeral(self@.socks, port, tries as nat) == model::ephemeral(
                    self@.socks,
                    self@.next_port,
                    model::PORT_PROBES as nat,
                ),
            decreases tries,
        {
            port = if port == 0xFFFF { EPHEMERAL_BASE } else { port + 1 };
            tries = tries - 1;
        }
        self.next_port = if port == 0xFFFF { EPHEMERAL_BASE } else { port + 1 };
        port
    }

    /// Closes slot `i`, whoever owns it.
    fn close_internal(&mut self, net: &NetIf, i: usize, out: &mut Outbox)
        requires
            old(self).wf(),
            i < MAX_USERSPACE_SOCKETS,
        ensures
            final(self).wf(),
            (final(self)@, final(out)@) == model::closed_slot(
                old(self)@,
                net@,
                i as int,
                old(out)@,
            ),
    {
        let now: u64 = self.now;
        assert(self@.socks[i as int] == self.sockets@[i as int]@);
        match self.sockets[i].state {
            SockState::Free => {},
            SockState::Listen => {
                if let Some(c) = self.pending_child(i) {
                    let ghost before = self.sockets@;
                    assert(self@.socks[c as int] == before[c as int]@);
                    self.sockets[c].close_child(net, now, out);
                    proof {
                        before[c as int].lemma_lens();
                        lemma_replace(before, c as int, self.sockets@[c as int]);
                        assert(self.sockets@ =~= before.update(c as int, self.sockets@[c as int]));
                    }
                }
                self.free_slot(i);
            },
            _ => {
                let ghost before = self.sockets@;
                self.sockets[i].close_one(net, now, out);
                proof {
                    before[i as int].lemma_lens();
                    lemma_replace(before, i as int, self.sockets@[i as int]);
                    assert(self.sockets@ =~= before.update(i as int, self.sockets@[i as int]));
                }
            },
        }
    }
}

/// Takes a free slot for process `owner_pid`.
pub fn user_create(t: &mut TcpStack, owner_pid: u32) -> (r: Option<usize>)
    requires
        old(t).wf(),
    ensures
        final(t).wf(),
        model::others_untouched(old(t)@, final(t)@, owner_pid),
        match r {
            Some(i) => model::free_slot(old(t)@.socks, 0) == Some(i as int) && final(t)@ == (
            TcpModel {
                socks: old(t)@.socks.update(i as int, model::fresh_socket(owner_pid)),
                ..old(t)@
            }),
            None => model::free_slot(old(t)@.socks, 0) is None && final(t)@ == old(t)@,
        },
{
    t.alloc_socket(owner_pid)
}

/// Makes the caller's `Closed` socket listen on `port`. Refused for a slot
/// that does not exist, a reserved port, a port in use, someone else's socket
/// or one that is not `Closed`, in this order.
pub fn user_listen(t: &mut TcpStack, idx: usize, port: u16, caller_pid: u32) -> (r: Result<
    (),
    &'static str,
>)
    requires
        old(t).wf(),
    ensures
        final(t).wf(),
        model::others_untouched(old(t)@, final(t)@, caller_pid),
        match r {
            Ok(()) => model::listen_refused(old(t)@, idx as int, port, caller_pid) is None
                && final(t)@ == model::listening(old(t)@, idx as int, port),
            Err(e) => model::listen_refused(old(t)@, idx as int, port, caller_pid) == Some(e@)
                && final(t)@ == old(t)@,
        },
{
    if idx >= MAX_USERSPACE_SOCKETS {
        return Err("bad sock");
    }
    if port == 0 || port == LISTEN_PORT {
        return Err("reserved port");
    }
    if t.port_in_use(port) {
        return Err("port in use");
    }
    let ghost before = t.sockets@;
    assert(t@.socks[idx as int] == before[idx as int]@);
    if t.sockets[idx].owner_pid != caller_pid {
        return Err("not owner");
    }
    if t.sockets[idx].state != SockState::Closed {
        return Err("not Closed");
    }
    t.sockets[idx].local_port = port;
    t.sockets[idx].state = SockState::Listen;
    t.sockets[idx].pending_child = NO_PENDING;
    proof {
        lemma_replace(before, idx as int, t.sockets@[idx as int]);
        assert(t.sockets@ =~= before.update(idx as int, t.sockets@[idx as int]));
    }
    Ok(())
}

/// Hands out the child of the caller's listener once it is established.
pub fn user_accept(t: &mut TcpStack, idx: usize, caller_pid: u32) -> (r: Option<usize>)
    requires
        old(t).wf(),
    ensures
        final(t).wf(),
        model::others_untouched(old(t)@, final(t)@, caller_pid),
        final(t)@ == model::accepted(old(t)@, idx as int, caller_pid).0,
        match r {
            Some(c) => model::accepted(old(t)@, idx as int, caller_pid).1 == Some(c as int),
            None => model::accepted(old(t)@, idx as int, caller_pid).1 is None,
        },
{
    if idx >= MAX_USERSPACE_SOCKETS {
        return None;
    }
    assert(t@.socks[idx as int] == t.sockets@[idx as int]@);
    if t.sockets[idx].state != SockState::Listen || t.sockets[idx].owner_pid != caller_pid {
        return None;
    }
    t.reclaim_stale_child(idx);
    let c: usize = match t.pending_child(idx) {
        Some(c) => c,
        None => {
            return None;
        },
    };
    let ghost before = t.sockets@;
    assert(t@.socks[c as int] == before[c as int]@);
    assert(t@.socks[idx as int] == before[idx as int]@);
    if t.sockets[c].state != SockState::Established {
        return None;
    }
    t.sockets[idx].pending_child = NO_PENDING;
    proof {
        lemma_replace(before, idx as int, t.sockets@[idx as int]);
        assert(t.sockets@ =~= before.update(idx as int, t.sockets@[idx as int]));
    }
    Some(c)
}

/// Starts an active open on the caller's `Closed` socket. Refused for a slot
/// that does not exist, port 0, someone else's socket or one that is not
/// `Closed`, in this order.
pub fn user_connect(
    t: &mut TcpStack,
    net: &NetIf,
    idx: usize,
    peer_ip: &[u8; 4],
    peer_port: u16,
    caller_pid: u32,
    out: &mut Outbox,
) -> (r: Result<(), &'static str>)
    requires
        old(t).wf(),
    ensures
        final(t).wf(),
        model::others_untouched(old(t)@, final(t)@, caller_pid),
        match r {
            Ok(()) => model::connect_refused(old(t)@, idx as int, peer_port, caller_pid) is None
                && (final(t)@, final(out)@) == model::connecting(
                old(t)@,
                net@,
                idx as int,
                peer_ip@,
                peer_port,
                old(out)@,
            ),
            Err(e) => model::connect_refused(old(t)@, idx as int, peer_port, caller_pid) == Some(e@)
                && final(t)@ == old(t)@ && final(out)@ == old(out)@,
        },
{
    if idx >= MAX_USERSPACE_SOCKETS {
        return Err("bad sock");
    }
    if peer_port == 0 {
        return Err("bad port");
    }
    let ghost before = t.sockets@;
    assert(t@.socks[idx as int] == before[idx as int]@);
    if t.sockets[idx].owner_pid != caller_pid {
        return Err("not owner");
    }
    if t.sockets[idx].state != SockState::Closed {
        return Err("not Closed");
    }
    let local_port: u16 = t.alloc_ephemeral_port();
    assert(t.sockets@[idx as int]@ == t@.socks[idx as int]);
    let ghost mid = t.sockets@;
    t.sockets[idx].local_port = local_port;
    t.sockets[idx].peer_ip = *peer_ip;
    t.sockets[idx].peer_port = peer_port;
    t.sockets[idx].state = SockState::SynSent;
    t.sockets[idx].awaiting_arp = true;
    proof {
        mid[idx as int].lemma_lens();
        lemma_replace(mid, idx as int, t.sockets@[idx as int]);
        assert(t.sockets@ =~= mid.update(idx as int, t.sockets@[idx as int]));
    }
    if net.is_up() {
        let ghost third = t.sockets@;
        let mut iss: u32 = t.iss;
        proof {
            model::lemma_mac_len(net@, net@.next_hop(peer_ip@), 0);
        }
        t.sockets[idx].try_resume_connect(net, &mut iss, out);
        t.iss = iss;
        proof {
            lemma_replace(third, idx as int, t.sockets@[idx as int]);
            assert(t.sockets@ =~= third.update(idx as int, t.sockets@[idx as int]));
        }
    }
    proof {
        let want = model::connecting(
            old(t)@,
            net@,
            idx as int,
            peer_ip@,
            peer_port,
            old(out)@,
        ).0;
        assert(t@.socks =~= want.socks);
    }
    Ok(())
}

/// Queues bytes on the caller's connection and sends them at once when there
/// is an address; says how many were taken.
pub fn user_send(
    t: &mut TcpStack,
    net: &NetIf,
    idx: usize,
    bytes: &[u8],
    caller_pid: u32,
    out: &mut Outbox,
) -> (r: Option<usize>)
    requires
        old(t).wf(),
    ensures
        final(t).wf(),
        model::others_untouched(old(t)@, final(t)@, caller_pid),
        match r {
            Some(n) => model::may_send(old(t)@, idx as int, caller_pid) && n == model::sendable(
                old(t)@,
                idx as int,
                bytes@,
            ) && (final(t)@, final(out)@) == model::sending(
                old(t)@,
                net@,
                idx as int,
                bytes@,
                old(out)@,
            ),
            None => !model::may_send(old(t)@, idx as int, caller_pid) && final(t)@ == old(t)@
                && final(out)@ == old(out)@,
        },
{
    if idx >= MAX_USERSPACE_SOCKETS {
        return None;
    }
    let ghost before = t.sockets@;
    assert(t@.socks[idx as int] == before[idx as int]@);
    if t.sockets[idx].owner_pid != caller_pid {
        return None;
    }
    if t.sockets[idx].state != SockState::Established && t.sockets[idx].state
        != SockState::CloseWait {
        return None;
    }
    let n: usize = t.sockets[idx].tx_push(bytes);
    if net.is_up() {
        t.sockets[idx].flush_data(net, out);
    }
    proof {
        before[idx as int].lemma_lens();
        t.sockets@[idx as int].lemma_lens();
        lemma_replace(before, idx as int, t.sockets@[idx as int]);
        assert(t.sockets@ =~= before.update(idx as int, t.sockets@[idx as int]));
    }
    Some(n)
}

/// Moves received bytes of the caller's socket into `buf`, from its start on,
/// and says how many.
pub fn user_recv(
    t: &mut TcpStack,
    net: &NetIf,
    idx: usize,
    buf: &mut [u8],
    caller_pid: u32,
    out: &mut Outbox,
) -> (r: Option<usize>)
    requires
        old(t).wf(),
    ensures
        final(t).wf(),
        model::others_untouched(old(t)@, final(t)@, caller_pid),
        match r {
            Some(n) => model::may_recv(old(t)@, idx as int, caller_pid) && n
                == crate::ring::drained(old(t)@.socks[idx as int].rx, old(buf)@.len()) && final(buf)@ == old(t)@.socks[idx as int].rx.take(n as int) + old(buf)@.skip(n as int) && (
            final(t)@, final(out)@) == model::receiving(
                old(t)@,
                net@,
                idx as int,
                old(buf)@.len(),
                old(out)@,
            ),
            None => !model::may_recv(old(t)@, idx as int, caller_pid) && final(t)@ == old(t)@
                && final(out)@ == old(out)@ && final(buf)@ == old(buf)@,
        },
{
    if idx >= MAX_USERSPACE_SOCKETS {
        return None;
    }
    let ghost before = t.sockets@;
    assert(t@.socks[idx as int] == before[idx as int]@);
    if t.sockets[idx].state == SockState::Free || t.sockets[idx].owner_pid != caller_pid {
        return None;
    }
    let was_starved: bool = t.sockets[idx].rx_free() < model::STARVED;
    let got: Vec<u8> = t.sockets[idx].rx_drain(buf.len());
    let mut i: usize = 0;
    assert(buf@ =~= got@.take(0) + old(buf)@.skip(0));
    while i < got.len()
        invariant
            i <= got@.len() <= old(buf)@.len(),
            buf@.len() == old(buf)@.len(),
            buf@ == got@.take(i as int) + old(buf)@.skip(i as int),
        decreases got@.len() - i,
    {
        buf[i] = got[i];
        assert(buf@ =~= got@.take(i + 1) + old(buf)@.skip(i + 1));
        i = i + 1;
    }
    assert(got@.take(i as int) =~= got@);
    if got.len() > 0 && was_starved && t.sockets[idx].state == SockState::Established
        && net.is_up() {
        t.sockets[idx].send_flags(net, ACK, out);
    }
    proof {
        before[idx as int].lemma_lens();
        t.sockets@[idx as int].lemma_lens();
        lemma_replace(before, idx as int, t.sockets@[idx as int]);
        assert(t.sockets@ =~= before.update(idx as int, t.sockets@[idx as int]));
    }
    Some(got.len())
}

/// Closes the caller's socket. Refused for a slot that does not exist, one
/// that is not in use, and someone else's socket.
pub fn user_close(
    t: &mut TcpStack,
    net: &NetIf,
    idx: usize,
    caller_pid: u32,
    out: &mut Outbox,
) -> (r: Result<(), &'static str>)
    requires
        old(t).wf(),
    ensures
        final(t).wf(),
        model::others_untouched(old(t)@, final(t)@, caller_pid),
        match r {
            Ok(()) => model::close_refused(old(t)@, idx as int, caller_pid) is None && (final(t)@,
            final(out)@) == model::closed_slot(old(t)@, net@, idx as int, old(out)@),
            Err(e) => model::close_refused(old(t)@, idx as int, caller_pid) == Some(e@) && final(t)@ == old(t)@ && final(out)@ == old(out)@,
        },
{
    if idx >= MAX_USERSPACE_SOCKETS {
        return Err("bad sock");
    }
    assert(t@.socks[idx as int] == t.sockets@[idx as int]@);
    if t.sockets[idx].state == SockState::Free {
        return Err("not allocated");
    }
    if t.sockets[idx].owner_pid != caller_pid {
        return Err("not owner");
    }
    t.close_internal(net, idx, out);
    Ok(())
}

/// Closes every socket of a process that ends.
pub fn cleanup_for_pid(t: &mut TcpStack, net: &NetIf, pid: u32, out: &mut Outbox)
    requires
        old(t).wf(),
    ensures
        final(t).wf(),
        model::others_untouched(old(t)@, final(t)@, pid),
        (final(t)@, final(out)@) == model::cleaned(
            old(t)@,
            net@,
            pid,
            old(out)@,
            MAX_USERSPACE_SOCKETS as nat,
        ),
{
    let mut idx: usize = 0;
    while idx < MAX_USERSPACE_SOCKETS
        invariant
            idx <= MAX_USERSPACE_SOCKETS,
            t.wf(),
            old(t).wf(),
            model::others_untouched(old(t)@, t@, pid),
            (t@, out@) == model::cleaned(old(t)@, net@, pid, old(out)@, idx as nat),
        decreases MAX_USERSPACE_SOCKETS - idx,
    {
        let ghost mid = t@;
        assert(mid.socks[idx as int] == t.sockets@[idx as int]@);
        if t.sockets[idx].owner_pid == pid {
            t.close_internal(net, idx, out);
        }
        proof {
            assert(model::others_untouched(mid, t@, pid));
            assert forall|i: int|
                0 <= i < old(t)@.socks.len() && !(old(t)@.socks[i].state is Free) && old(t)@.socks[i].owner_pid != pid implies #[trigger] t@.socks[i] == old(t)@.socks[i] by {
                assert(mid.socks[i] == old(t)@.socks[i]);
            }
        }
        idx = idx + 1;
    }
}

/// The state of a slot, unless it does not exist or belongs to someone else.
pub fn user_state(t: &TcpStack, idx: usize, caller_pid: u32) -> (r: Option<SockState>)
    requires
        t.wf(),
    ensures
        r == (if idx < MAX_USERSPACE_SOCKETS && (t@.socks[idx as int].state is Free
            || t@.socks[idx as int].owner_pid == caller_pid) {
            Some(t@.socks[idx as int].state)
        } else {
            None
        }),
{
    if idx >= MAX_USERSPACE_SOCKETS {
        return None;
    }
    assert(t@.socks[idx as int] == t.sockets@[idx as int]@);
    if t.sockets[idx].state != SockState::Free && t.sockets[idx].owner_pid != caller_pid {
        return None;
    }
    Some(t.sockets[idx].state)
}

/// How many received bytes the caller's socket holds; 0 for any other slot.
pub fn user_rx_len(t: &TcpStack, idx: usize, caller_pid: u32) -> (n: usize)
    requires
        t.wf(),
    ensures
        n == (if idx < MAX_USERSPACE_SOCKETS && t@.socks[idx as int].owner_pid == caller_pid {
            t@.socks[idx as int].rx.len()
        } else {
            0
        }),
{
    if idx >= MAX_USERSPACE_SOCKETS {
        return 0;
    }
    assert(t@.socks[idx as int] == t.sockets@[idx as int]@);
    if t.sockets[idx].owner_pid != caller_pid {
        return 0;
    }
    t.sockets[idx].rx_len()
}

} // verus!
