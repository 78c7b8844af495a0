//! What the socket table promises across events.
use crate::platform::qemu_virt::packet::{Effect, NetIfModel};
use crate::platform::qemu_virt::tcp::model;
use crate::platform::qemu_virt::tcp::model::{SegmentModel, SocketModel, TcpModel};
use crate::platform::qemu_virt::tcp::{
    SockState, ACK, FIN, MAX_USERSPACE_SOCKETS, NO_PENDING, RCV_WINDOW, REAP_TICKS, RST, SOCK_BUF, SYN,
};
use crate::ring;
use vstd::prelude::*;

verus! {

/// One tick treats every slot once.
proof fn lemma_ticked(m: TcpModel, net: NetIfModel, now: u64, fx: Seq<Effect>, n: nat, i: int)
    requires
        n <= m.socks.len(),
        0 <= i < m.socks.len(),
    ensures
        ({
            let m1 = model::ticked(m, net, now, fx, n).0;
            &&& m1.socks.len() == m.socks.len()
            &&& n <= i ==> m1.socks[i] == m.socks[i]
            &&& i < n ==> exists|iss: u32, g: Seq<Effect>|
                m1.socks[i] == (#[trigger] model::socket_tick(m.socks[i], net, now, iss, g)).0
        }),
    decreases n,
{
    if n > 0 {
        lemma_ticked(m, net, now, fx, (n - 1) as nat, i);
        let (m1, fx1) = model::ticked(m, net, now, fx, (n - 1) as nat);
        if i == n - 1 {
            let w = model::socket_tick(m.socks[i], net, now, m1.iss, fx1);
            assert(model::ticked(m, net, now, fx, n).0.socks[i] == w.0);
        }
    }
}

/// No slot leaks: a socket that is winding down or half open has a deadline,
/// and the first tick at or after the deadline frees its slot.
pub proof fn law_no_slot_leak(m: TcpModel, net: NetIfModel, now: u64, fx: Seq<Effect>, i: int)
    requires
        model::inv(m),
        0 <= i < MAX_USERSPACE_SOCKETS,
        m.socks[i].state.winding_down() || m.socks[i].state is SynReceived,
        now >= m.socks[i].expiry_tick,
    ensures
        m.socks[i].expiry_tick != 0,
        model::ticked(m, net, now, fx, MAX_USERSPACE_SOCKETS as nat).0.socks[i]
            == model::free_socket(),
{
    assert(model::socket_inv(m.socks[i]));
    lemma_ticked(m, net, now, fx, MAX_USERSPACE_SOCKETS as nat, i);
}

/// The deadline is set when a state that needs one is entered: a segment that
/// moves a socket into a wind-down state sets it to [`REAP_TICKS`] from now.
pub proof fn law_segment_sets_deadline(
    s: SocketModel,
    net: NetIfModel,
    seg: SegmentModel,
    now: u64,
    fx: Seq<Effect>,
)
    requires
        now + REAP_TICKS <= u64::MAX,
    ensures
        ({
            let t = model::on_segment(s, net, seg, now, fx).0;
            t.state.winding_down() && t.state != s.state ==> t.expiry_tick == now + REAP_TICKS
        }),
{
}

/// Closing a connection sets the deadline too.
pub proof fn law_close_sets_deadline(s: SocketModel, net: NetIfModel, now: u64, fx: Seq<Effect>)
    requires
        now + REAP_TICKS <= u64::MAX,
    ensures
        ({
            let t = model::one_closed(s, net, now, fx).0;
            t.state.winding_down() && t.state != s.state ==> t.expiry_tick == now + REAP_TICKS
        }),
{
}

/// The advertised window is honest: it never exceeds the free space, and a
/// payload that respects it is stored whole.
pub proof fn law_window_is_honest(s: SocketModel, payload: Seq<u8>)
    requires
        model::socket_inv(s),
    ensures
        0 <= model::window_of(s) <= model::rx_space(s),
        model::window_of(s) <= RCV_WINDOW,
        payload.len() <= model::window_of(s) ==> model::storable(s, payload) == payload.len(),
{
}

/// An acknowledgement covers exactly what was stored: an in-order payload is
/// appended as far as it fits and the position moves by that many bytes; a
/// payload anywhere else leaves queue and position alone.
pub proof fn law_ack_covers_stored(
    s: SocketModel,
    net: NetIfModel,
    seg: SegmentModel,
    now: u64,
    fx: Seq<Effect>,
)
    requires
        model::socket_inv(s),
        s.state is Established,
        !seg.has(RST),
        !seg.has(FIN),
        seg.payload.len() > 0,
    ensures
        ({
            let t = model::on_segment(s, net, seg, now, fx).0;
            let n = if seg.seq == s.rcv_nxt {
                model::storable(s, seg.payload)
            } else {
                0
            };
            &&& 0 <= n <= seg.payload.len()
            &&& t.rx == s.rx + seg.payload.take(n)
            &&& t.rcv_nxt == s.rcv_nxt.wrapping_add(n as u32)
            &&& t.rx.len() < SOCK_BUF
        }),
{
    assert(s.rx + seg.payload.take(0) =~= s.rx);
}

/// A FIN counts only right behind the bytes received so far; then, and only
/// then, the connection enters `CloseWait` and the position moves by one.
pub proof fn law_fin_is_sequence_checked(
    s: SocketModel,
    net: NetIfModel,
    seg: SegmentModel,
    now: u64,
    fx: Seq<Effect>,
)
    requires
        s.state is Established,
        !seg.has(RST),
    ensures
        ({
            let t = model::on_segment(s, net, seg, now, fx).0;
            let data = model::on_data(s, net, seg, fx).0;
            let counts = seg.has(FIN) && seg.fin_pos() == data.rcv_nxt;
            &&& t.state is CloseWait <==> counts
            &&& t.state is Established <==> !counts
            &&& t.rcv_nxt == (if counts {
                data.rcv_nxt.wrapping_add(1)
            } else {
                data.rcv_nxt
            })
        }),
{
}

/// A retransmitted FIN changes nothing and is acknowledged again.
pub proof fn law_repeated_fin_is_acked(
    s: SocketModel,
    net: NetIfModel,
    seg: SegmentModel,
    now: u64,
    fx: Seq<Effect>,
)
    requires
        s.state is CloseWait || s.state is TimeWait,
        !seg.has(RST),
        seg.has(FIN),
    ensures
        model::on_segment(s, net, seg, now, fx).0 == s,
        net.mac matches Some(mac) ==> model::on_segment(s, net, seg, now, fx).1 == fx.push(
            Effect::Frame(model::segment_frame(s, mac, net.ip, ACK, model::nothing())),
        ),
{
    assert(model::on_segment(s, net, seg, now, fx).0 =~= s);
}

/// What arrives in order can be read back: after an in-order payload on an
/// established connection, a receive of everything gives the earlier bytes
/// followed by the stored part of the payload.
pub proof fn law_receive_gives_back(
    s: SocketModel,
    net: NetIfModel,
    seg: SegmentModel,
    now: u64,
    fx: Seq<Effect>,
    max: nat,
)
    requires
        model::socket_inv(s),
        s.state is Established,
        !seg.has(RST),
        seg.payload.len() > 0,
        seg.seq == s.rcv_nxt,
        max >= SOCK_BUF,
    ensures
        ({
            let rx = model::on_segment(s, net, seg, now, fx).0.rx;
            rx.take(ring::drained(rx, max) as int) == s.rx + seg.payload.take(
                model::storable(s, seg.payload),
            )
        }),
{
    let rx = model::on_segment(s, net, seg, now, fx).0.rx;
    assert(rx.take(rx.len() as int) =~= rx);
}

/// When a process ends, each of its sockets is freed or winding down with a
/// deadline.
pub proof fn law_cleanup(m: TcpModel, net: NetIfModel, pid: u32, fx: Seq<Effect>, n: nat)
    requires
        n <= m.socks.len(),
        m.socks.len() == MAX_USERSPACE_SOCKETS,
    ensures
        model::cleaned(m, net, pid, fx, n).0.socks.len() == m.socks.len(),
        forall|i: int|
            0 <= i < n && (#[trigger] model::cleaned(m, net, pid, fx, n).0.socks[i]).owner_pid
                == pid ==> model::cleaned(m, net, pid, fx, n).0.socks[i].state is Free
                || model::cleaned(m, net, pid, fx, n).0.socks[i].state.winding_down(),
    decreases n,
{
    if n > 0 {
        law_cleanup(m, net, pid, fx, (n - 1) as nat);
        let (m1, fx1) = model::cleaned(m, net, pid, fx, (n - 1) as nat);
        let m2 = model::cleaned(m, net, pid, fx, n).0;
        assert forall|i: int| 0 <= i < n && (#[trigger] m2.socks[i]).owner_pid == pid implies m2.socks[i].state is Free
            || m2.socks[i].state.winding_down() by {
            if i < n - 1 {
                assert(m1.socks[i].owner_pid == pid ==> (m1.socks[i].state is Free
                    || m1.socks[i].state.winding_down()));
            }
        }
    }
}

/// No slot from `i` on is the connection.
proof fn lemma_no_connection(
    socks: Seq<SocketModel>,
    port: u16,
    ip: Seq<u8>,
    peer_port: u16,
    i: int,
)
    requires
        0 <= i,
    ensures
        model::connection_slot(socks, port, ip, peer_port, i) is None ==> forall|j: int|
            i <= j < socks.len() ==> !model::connects(#[trigger] socks[j], port, ip, peer_port),
    decreases socks.len() - i,
{
    if i < socks.len() {
        lemma_no_connection(socks, port, ip, peer_port, i + 1);
    }
}

/// The only slot that is the connection is found.
proof fn lemma_only_connection(
    socks: Seq<SocketModel>,
    port: u16,
    ip: Seq<u8>,
    peer_port: u16,
    i: int,
    c: int,
)
    requires
        0 <= i <= c < socks.len(),
        model::connects(socks[c], port, ip, peer_port),
        forall|j: int|
            i <= j < socks.len() && j != c ==> !model::connects(
                #[trigger] socks[j],
                port,
                ip,
                peer_port,
            ),
    ensures
        model::connection_slot(socks, port, ip, peer_port, i) == Some(c),
    decreases socks.len() - i,
{
    if i < c {
        lemma_only_connection(socks, port, ip, peer_port, i + 1, c);
    }
}

/// A slot that a search finds is free.
proof fn lemma_free_slot(socks: Seq<SocketModel>, i: int)
    requires
        0 <= i,
    ensures
        model::free_slot(socks, i) matches Some(c) ==> i <= c < socks.len()
            && socks[c].state is Free,
    decreases socks.len() - i,
{
    if i < socks.len() {
        lemma_free_slot(socks, i + 1);
    }
}

/// A slot that a search for a listener finds listens on the port.
proof fn lemma_listener_slot(socks: Seq<SocketModel>, port: u16, i: int)
    requires
        0 <= i,
    ensures
        model::listener_slot(socks, port, i) matches Some(l) ==> i <= l < socks.len()
            && socks[l].state is Listen && socks[l].local_port == port,
    decreases socks.len() - i,
{
    if i < socks.len() {
        lemma_listener_slot(socks, port, i + 1);
    }
}

/// A passive open completes: a SYN to a listener without a pending child,
/// followed by the acknowledgement of our SYN, yields an established child of
/// the listener's owner, which that owner's accept then hands out.
pub proof fn law_passive_open(
    m: TcpModel,
    net: NetIfModel,
    syn: SegmentModel,
    ack: SegmentModel,
    l: int,
    c: int,
    fx: Seq<Effect>,
    fx2: Seq<Effect>,
)
    requires
        model::inv(m),
        model::connection_slot(m.socks, syn.dst_port, syn.src_ip, syn.src_port, 0) is None,
        model::listener_slot(m.socks, syn.dst_port, 0) == Some(l),
        model::child_of(m.socks, l) is None,
        model::free_slot(m.socks, 0) == Some(c),
        syn.has(SYN) && !syn.has(ACK),
        ack.has(ACK) && !ack.has(RST),
        ack.dst_port == syn.dst_port,
        ack.src_port == syn.src_port,
        ack.src_ip == syn.src_ip,
        ack.ack == model::iss_after(m.iss).wrapping_add(1),
    ensures
        ({
            let m1 = model::user_segment(m, net, syn, fx).0;
            let m2 = model::user_segment(m1, net, ack, fx2).0;
            let pid = m.socks[l].owner_pid;
            &&& m1.socks[c].state is SynReceived
            &&& m2.socks[c].state is Established
            &&& m2.socks[c].owner_pid == pid
            &&& model::accepted(m2, l, pid).1 == Some(c)
        }),
{
    lemma_free_slot(m.socks, 0);
    lemma_listener_slot(m.socks, syn.dst_port, 0);
    lemma_no_connection(m.socks, syn.dst_port, syn.src_ip, syn.src_port, 0);
    let socks = model::reclaimed(m.socks, l);
    assert(socks[l].state is Listen);
    lemma_same_free(m.socks, socks, 0);
    let m1 = model::user_segment(m, net, syn, fx).0;
    assert(m1.socks.len() == m.socks.len());
    assert(model::connects(m1.socks[c], syn.dst_port, syn.src_ip, syn.src_port));
    assert forall|j: int| 0 <= j < m1.socks.len() && j != c implies !model::connects(
        #[trigger] m1.socks[j],
        syn.dst_port,
        syn.src_ip,
        syn.src_port,
    ) by {
        assert(!model::connects(m.socks[j], syn.dst_port, syn.src_ip, syn.src_port));
    }
    lemma_only_connection(m1.socks, syn.dst_port, syn.src_ip, syn.src_port, 0, c);
    let m2 = model::user_segment(m1, net, ack, fx2).0;
    assert(m2.socks[l] == m1.socks[l]);
    assert(m2.socks[c].state is Established);
    assert(m2.socks[c].local_port == syn.dst_port);
}

/// Accept hands a connection out exactly to the owner of a listener whose pending child
/// is established, and only once: afterwards the listener has no pending child, so that
/// accepting again gives nothing, and no listener of another port gives it either. The
/// other slots stay, and for anyone else nothing happens.
pub proof fn law_accept_hands_out_once(m: TcpModel, i: int, pid: u32, j: int, other: u32)
    requires
        model::inv(m),
        0 <= i,
        0 <= j,
    ensures
        ({
            let (m1, r) = model::accepted(m, i, pid);
            let owned = i < MAX_USERSPACE_SOCKETS && m.socks[i].state is Listen
                && m.socks[i].owner_pid == pid;
            &&& model::inv(m1)
            &&& !owned ==> (m1, r) == (m, None::<int>)
            &&& r is Some <==> owned && model::child_of(m.socks, i) is Some && m.socks[
            model::child_of(m.socks, i)->0].state is Established
            &&& r is Some ==> {
                &&& r == model::child_of(m.socks, i)
                &&& 0 <= r->0 < MAX_USERSPACE_SOCKETS
                &&& m1.socks[r->0] == m.socks[r->0]
                &&& m1.socks[i].pending_child == NO_PENDING
                &&& model::child_of(m1.socks, i) is None
                &&& model::accepted(m1, i, other).1 is None
                &&& j < MAX_USERSPACE_SOCKETS && j != i ==> m1.socks[j] == m.socks[j]
                &&& j < MAX_USERSPACE_SOCKETS && m.socks[j].local_port != m.socks[i].local_port
                    ==> model::accepted(m1, j, other).1 != r
            }
        }),
{
    if i < MAX_USERSPACE_SOCKETS {
        assert(model::socket_inv(m.socks[i]));
        let socks = model::reclaimed(m.socks, i);
        if let Some(c) = model::child_of(m.socks, i) {
            assert(model::socket_inv(m.socks[c]));
        }
        let m1 = model::accepted(m, i, pid).0;
        assert forall|k: int| 0 <= k < m1.socks.len() implies model::socket_inv(
            #[trigger] m1.socks[k],
        ) by {
            assert(model::socket_inv(m.socks[k]));
        }
    }
}

/// Closing an established connection winds it down: it waits for the peer until
/// [`REAP_TICKS`] after the last tick, and when nothing arrives, the first tick from then
/// on frees the slot, which is then there to be handed out again.
pub proof fn law_closed_slot_is_reaped(
    m: TcpModel,
    net: NetIfModel,
    i: int,
    fx: Seq<Effect>,
    later: NetIfModel,
    now: u64,
    fx2: Seq<Effect>,
)
    requires
        model::inv(m),
        0 <= i < MAX_USERSPACE_SOCKETS,
        m.socks[i].state is Established,
        net.has_ip(),
    ensures
        ({
            let m1 = model::closed_slot(m, net, i, fx).0;
            let m2 = model::ticked(m1, later, now, fx2, MAX_USERSPACE_SOCKETS as nat).0;
            &&& m1.socks[i].state is FinWait1
            &&& m1.socks[i].owner_pid == m.socks[i].owner_pid
            &&& m1.socks[i].expiry_tick == m.now + REAP_TICKS
            &&& now < m.now + REAP_TICKS ==> m2.socks[i] == m1.socks[i]
            &&& now >= m.now + REAP_TICKS ==> {
                &&& m2.socks[i] == model::free_socket()
                &&& model::free_slot(m2.socks, 0) is Some
            }
        }),
{
    let m1 = model::closed_slot(m, net, i, fx).0;
    let m2 = model::ticked(m1, later, now, fx2, MAX_USERSPACE_SOCKETS as nat).0;
    lemma_ticked(m1, later, now, fx2, MAX_USERSPACE_SOCKETS as nat, i);
    if now >= m.now + REAP_TICKS {
        lemma_free_slot_found(m2.socks, 0, i);
    }
}

/// A search finds a slot where there is a free one.
proof fn lemma_free_slot_found(socks: Seq<SocketModel>, i: int, c: int)
    requires
        0 <= i <= c < socks.len(),
        socks[c].state is Free,
    ensures
        model::free_slot(socks, i) is Some,
    decreases socks.len() - i,
{
    if i < c {
        lemma_free_slot_found(socks, i + 1, c);
    }
}

/// The search for a free slot depends on the states alone.
proof fn lemma_same_free(a: Seq<SocketModel>, b: Seq<SocketModel>, i: int)
    requires
        a.len() == b.len(),
        0 <= i,
        forall|j: int|
            0 <= j < a.len() ==> (#[trigger] a[j].state is Free <==> b[j].state is Free),
    ensures
        model::free_slot(a, i) == model::free_slot(b, i),
    decreases a.len() - i,
{
    if i < a.len() {
        assert(a[i].state is Free <==> b[i].state is Free);
        lemma_same_free(a, b, i + 1);
    }
}

} // verus!
