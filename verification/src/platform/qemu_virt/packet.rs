//! Wire formats shared by the network stack: the Internet checksum, Ethernet,
//! IPv4 and TCP headers, and the list of things that a handler asks the
//! network driver to do.
use crate::bytes::{be16, push_all, push_be16, push_be32};
use vstd::prelude::*;

verus! {

/// Largest payload in one outbound TCP segment.
pub const MAX_SEG_PAYLOAD: usize = 1200;

// ---------------------------------------------------------------------------
// Internet checksum (RFC 1071)
// ---------------------------------------------------------------------------

/// The sum of the big-endian 16-bit words of `data` from offset `i` on; a
/// last odd byte counts as the high byte of a word.
pub open spec fn word_sum(data: Seq<u8>, i: int) -> nat
    decreases data.len() - i,
{
    if i + 1 < data.len() {
        (crate::bytes::be16_at(data, i) + word_sum(data, i + 2)) as nat
    } else if i < data.len() {
        (data[i] * 256) as nat
    } else {
        0
    }
}

/// `n` reduced by end-around carry: congruent to `n` modulo 65535, and zero
/// only for zero.
pub open spec fn end_around(n: nat) -> nat {
    if n == 0 {
        0
    } else {
        ((n - 1) % 65535 + 1) as nat
    }
}

/// The Internet checksum of `data`: the complement of its ones'-complement sum.
pub open spec fn checksum_of(data: Seq<u8>) -> u16 {
    (65535 - end_around(word_sum(data, 0))) as u16
}

/// Every word adds at most 65535.
pub proof fn lemma_word_sum_bound(data: Seq<u8>, i: int)
    requires
        0 <= i,
    ensures
        i <= data.len() ==> word_sum(data, i) <= 65535 * ((data.len() - i + 1) / 2),
    decreases data.len() - i,
{
    if i + 1 < data.len() {
        lemma_word_sum_bound(data, i + 2);
    }
}

/// One end-around carry keeps the reduced sum.
proof fn lemma_fold(n: nat)
    ensures
        end_around(n) == end_around((n % 65536 + n / 65536) as nat),
        n >= 65536 ==> n % 65536 + n / 65536 < n,
        n < 65536 ==> end_around(n) == n,
{
    let q = n / 65536;
    let m = (n % 65536 + q) as nat;
    if n > 0 {
        assert(n == 65535 * q + m);
        assert(m > 0);
        assert((n - 1) % 65535 == (m - 1) % 65535) by {
            vstd::arithmetic::div_mod::lemma_mod_multiples_vanish(q as int, m - 1, 65535);
        }
    }
}

/// The Internet checksum (RFC 1071) of `data`.
pub fn internet_checksum(data: &[u8]) -> (r: u16)
    requires
        word_sum(data@, 0) <= u32::MAX,
    ensures
        r == checksum_of(data@),
{
    let mut sum: u32 = 0;
    let mut i: usize = 0;
    assert(data.len() == data@.len());
    while i < data.len() && data.len() - i > 1
        invariant
            data@.len() <= usize::MAX,
            i <= data@.len(),
            sum + word_sum(data@, i as int) == word_sum(data@, 0),
            word_sum(data@, 0) <= u32::MAX,
        decreases data@.len() - i,
    {
        sum = sum + be16(data, i) as u32;
        i = i + 2;
    }
    if i < data.len() {
        sum = sum + (data[i] as u32) * 256;
    }
    while sum >= 65536
        invariant
            end_around(sum as nat) == end_around(word_sum(data@, 0)),
        decreases sum,
    {
        proof {
            lemma_fold(sum as nat);
        }
        sum = sum % 65536 + sum / 65536;
    }
    proof {
        lemma_fold(sum as nat);
    }
    (65535 - sum) as u16
}

proof fn lemma_word_sum_update(data: Seq<u8>, at: int, c: u16, i: int)
    requires
        at % 2 == 0,
        i % 2 == 0,
        0 <= i,
        0 <= at,
        at + 1 < data.len(),
        data[at] == 0,
        data[at + 1] == 0,
    ensures
        ({
            let sealed = data.update(at, (c / 256) as u8).update(at + 1, (c % 256) as u8);
            word_sum(sealed, i) == word_sum(data, i) + (if i <= at {
                c as nat
            } else {
                0
            })
        }),
    decreases data.len() - i,
{
    let sealed = data.update(at, (c / 256) as u8).update(at + 1, (c % 256) as u8);
    if i + 1 < data.len() {
        lemma_word_sum_update(data, at, c, i + 2);
    }
}

/// A receiver's check succeeds: once the checksum of `data` is stored in a
/// zeroed, 16-bit aligned field of it, the checksum of the whole is zero.
pub proof fn law_checksum_verifies(data: Seq<u8>, at: int)
    requires
        0 <= at,
        at % 2 == 0,
        at + 1 < data.len(),
        data[at] == 0,
        data[at + 1] == 0,
    ensures
        ({
            let c = checksum_of(data);
            checksum_of(data.update(at, (c / 256) as u8).update(at + 1, (c % 256) as u8)) == 0
        }),
{
    let c = checksum_of(data);
    lemma_word_sum_update(data, at, c, 0);
    let s = word_sum(data, 0);
    let total = (s + c) as nat;
    if s > 0 {
        let r = (s - 1) % 65535;
        let q = (s - 1) / 65535;
        assert(s - 1 == q * 65535 + r) by {
            vstd::arithmetic::div_mod::lemma_fundamental_div_mod(s - 1, 65535);
        }
        assert(c == 65534 - r);
        assert(total - 1 == q * 65535 + 65534);
        assert((total - 1) % 65535 == 65534) by {
            vstd::arithmetic::div_mod::lemma_fundamental_div_mod_converse(
                total - 1,
                65535,
                q,
                65534,
            );
        }
    }
}

// ---------------------------------------------------------------------------
// Headers
// ---------------------------------------------------------------------------

/// Ethernet II header.
pub open spec fn eth_header(dst: Seq<u8>, src: Seq<u8>, ethertype: u16) -> Seq<u8> {
    dst + src + crate::bytes::be16_bytes(ethertype)
}

/// The fields of a 20-byte IPv4 header that vary between packets.
pub struct Ipv4Fields {
    pub tos: u8,
    pub total: u16,
    pub id: u16,
    pub frag: u16,
    pub proto: u8,
}

/// 20-byte IPv4 header with the given checksum field (TTL 64, no options).
pub open spec fn ipv4_header_with(f: Ipv4Fields, src: Seq<u8>, dst: Seq<u8>, csum: u16) -> Seq<
    u8,
> {
    seq![0x45u8, f.tos] + crate::bytes::be16_bytes(f.total) + crate::bytes::be16_bytes(f.id)
        + crate::bytes::be16_bytes(f.frag) + seq![64u8, f.proto] + crate::bytes::be16_bytes(csum)
        + src + dst
}

/// 20-byte IPv4 header with its checksum filled in.
pub open spec fn ipv4_header(f: Ipv4Fields, src: Seq<u8>, dst: Seq<u8>) -> Seq<u8> {
    ipv4_header_with(f, src, dst, checksum_of(ipv4_header_with(f, src, dst, 0)))
}

/// TCP header (no options) and payload, with the given checksum field.
pub open spec fn tcp_segment_with(h: TcpFields, csum: u16, payload: Seq<u8>) -> Seq<u8> {
    crate::bytes::be16_bytes(h.src_port) + crate::bytes::be16_bytes(h.dst_port)
        + crate::bytes::be32_bytes(h.seq) + crate::bytes::be32_bytes(h.ack)
        + seq![0x50u8, h.flags] + crate::bytes::be16_bytes(h.window) + crate::bytes::be16_bytes(
        csum,
    ) + seq![0u8, 0u8] + payload
}

/// The pseudo-header and segment over which the TCP checksum runs.
pub open spec fn tcp_checked(src: Seq<u8>, dst: Seq<u8>, tcp: Seq<u8>) -> Seq<u8> {
    src + dst + seq![0u8, 6u8] + crate::bytes::be16_bytes(tcp.len() as u16) + tcp
}

/// TCP header and payload with the checksum filled in.
pub open spec fn tcp_segment(src: Seq<u8>, dst: Seq<u8>, h: TcpFields, payload: Seq<u8>) -> Seq<
    u8,
> {
    tcp_segment_with(
        h,
        checksum_of(tcp_checked(src, dst, tcp_segment_with(h, 0, payload))),
        payload,
    )
}

/// The header fields of an outbound TCP segment.
#[derive(Clone, Copy)]
pub struct TcpFields {
    pub src_port: u16,
    pub dst_port: u16,
    pub seq: u32,
    pub ack: u32,
    pub window: u16,
    pub flags: u8,
}

/// What of a payload goes into one segment.
pub open spec fn clipped(payload: Seq<u8>) -> Seq<u8> {
    if payload.len() <= MAX_SEG_PAYLOAD {
        payload
    } else {
        payload.take(MAX_SEG_PAYLOAD as int)
    }
}

/// The Ethernet frame that carries a TCP segment.
#[verifier::opaque]
pub open spec fn tcp_frame(
    dst_mac: Seq<u8>,
    src_mac: Seq<u8>,
    src: Seq<u8>,
    dst: Seq<u8>,
    h: TcpFields,
    payload: Seq<u8>,
) -> Seq<u8> {
    let p = clipped(payload);
    eth_header(dst_mac, src_mac, 0x0800) + ipv4_header(
        (Ipv4Fields { tos: 0, total: (40 + p.len()) as u16, id: 0, frag: 0x4000, proto: 6 }),
        src,
        dst,
    ) + tcp_segment(src, dst, h, p)
}

/// Appends an Ethernet header.
pub fn push_eth_header(v: &mut Vec<u8>, dst: &[u8; 6], src: &[u8; 6], ethertype: u16)
    ensures
        final(v)@ == old(v)@ + eth_header(dst@, src@, ethertype),
{
    push_all(v, dst);
    push_all(v, src);
    push_be16(v, ethertype);
    assert(v@ =~= old(v)@ + eth_header(dst@, src@, ethertype));
}

fn ipv4_header_bytes(f: &Ipv4Fields, src: &[u8; 4], dst: &[u8; 4], csum: u16) -> (v: Vec<u8>)
    ensures
        v@ == ipv4_header_with(*f, src@, dst@, csum),
        v@.len() == 20,
{
    let mut v: Vec<u8> = Vec::new();
    v.push(0x45);
    v.push(f.tos);
    push_be16(&mut v, f.total);
    push_be16(&mut v, f.id);
    push_be16(&mut v, f.frag);
    v.push(64);
    v.push(f.proto);
    push_be16(&mut v, csum);
    push_all(&mut v, src);
    push_all(&mut v, dst);
    assert(v@ =~= ipv4_header_with(*f, src@, dst@, csum));
    v
}

/// Appends an IPv4 header with its checksum.
pub fn push_ipv4_header(v: &mut Vec<u8>, f: &Ipv4Fields, src: &[u8; 4], dst: &[u8; 4])
    ensures
        final(v)@ == old(v)@ + ipv4_header(*f, src@, dst@),
{
    let zeroed: Vec<u8> = ipv4_header_bytes(f, src, dst, 0);
    proof {
        lemma_word_sum_bound(zeroed@, 0);
    }
    let csum: u16 = internet_checksum(&zeroed);
    let header: Vec<u8> = ipv4_header_bytes(f, src, dst, csum);
    push_all(v, &header);
}

fn tcp_segment_bytes(h: &TcpFields, csum: u16, payload: &[u8]) -> (v: Vec<u8>)
    ensures
        v@ == tcp_segment_with(*h, csum, payload@),
        v@.len() == 20 + payload@.len(),
{
    let mut v: Vec<u8> = Vec::new();
    push_be16(&mut v, h.src_port);
    push_be16(&mut v, h.dst_port);
    push_be32(&mut v, h.seq);
    push_be32(&mut v, h.ack);
    v.push(0x50);
    v.push(h.flags);
    push_be16(&mut v, h.window);
    push_be16(&mut v, csum);
    v.push(0);
    v.push(0);
    push_all(&mut v, payload);
    assert(v@ =~= tcp_segment_with(*h, csum, payload@));
    v
}

/// The TCP checksum of `tcp` between two addresses (pseudo-header included in
/// the sum).
pub fn tcp_checksum(src_ip: &[u8; 4], dst_ip: &[u8; 4], tcp: &[u8]) -> (r: u16)
    requires
        tcp@.len() <= 0xFFFF,
    ensures
        r == checksum_of(tcp_checked(src_ip@, dst_ip@, tcp@)),
{
    let mut buf: Vec<u8> = Vec::new();
    push_all(&mut buf, src_ip);
    push_all(&mut buf, dst_ip);
    buf.push(0);
    buf.push(6);
    push_be16(&mut buf, tcp.len() as u16);
    push_all(&mut buf, tcp);
    assert(buf@ =~= tcp_checked(src_ip@, dst_ip@, tcp@));
    proof {
        lemma_word_sum_bound(buf@, 0);
    }
    internet_checksum(&buf)
}

/// Builds the Ethernet frame of one TCP segment, clipping the payload to
/// [`MAX_SEG_PAYLOAD`].
pub fn build_tcp_frame(
    dst_mac: &[u8; 6],
    src_mac: &[u8; 6],
    our_ip: &[u8; 4],
    peer_ip: &[u8; 4],
    h: &TcpFields,
    payload: &[u8],
) -> (frame: Vec<u8>)
    ensures
        frame@ == tcp_frame(dst_mac@, src_mac@, our_ip@, peer_ip@, *h, payload@),
{
    reveal(tcp_frame);
    let n: usize = if payload.len() < MAX_SEG_PAYLOAD { payload.len() } else { MAX_SEG_PAYLOAD };
    let mut p: Vec<u8> = Vec::new();
    push_all(&mut p, &payload[0..n]);
    assert(p@ =~= clipped(payload@));
    let mut frame: Vec<u8> = Vec::new();
    push_eth_header(&mut frame, dst_mac, src_mac, 0x0800);
    let f: Ipv4Fields = Ipv4Fields {
        tos: 0,
        total: (40 + n) as u16,
        id: 0,
        frag: 0x4000,
        proto: 6,
    };
    push_ipv4_header(&mut frame, &f, our_ip, peer_ip);
    let zeroed: Vec<u8> = tcp_segment_bytes(h, 0, &p);
    let csum: u16 = tcp_checksum(our_ip, peer_ip, &zeroed);
    let segment: Vec<u8> = tcp_segment_bytes(h, csum, &p);
    push_all(&mut frame, &segment);
    assert(frame@ =~= tcp_frame(dst_mac@, src_mac@, our_ip@, peer_ip@, *h, payload@));
    frame
}

/// Every frame that is built checks out at the receiver: the checksum over
/// the IPv4 header and the one over pseudo-header and segment are both zero.
pub proof fn law_tcp_frame_checksums(
    dst_mac: Seq<u8>,
    src_mac: Seq<u8>,
    src: Seq<u8>,
    dst: Seq<u8>,
    h: TcpFields,
    payload: Seq<u8>,
)
    requires
        dst_mac.len() == 6,
        src_mac.len() == 6,
        src.len() == 4,
        dst.len() == 4,
    ensures
        ({
            let frame = tcp_frame(dst_mac, src_mac, src, dst, h, payload);
            &&& frame.len() == 54 + clipped(payload).len()
            &&& checksum_of(frame.subrange(14, 34)) == 0
            &&& checksum_of(tcp_checked(src, dst, frame.skip(34))) == 0
        }),
{
    reveal(tcp_frame);
    let p = clipped(payload);
    let frame = tcp_frame(dst_mac, src_mac, src, dst, h, payload);
    let f = Ipv4Fields { tos: 0, total: (40 + p.len()) as u16, id: 0, frag: 0x4000, proto: 6 };
    let ip0 = ipv4_header_with(f, src, dst, 0);
    let ic = checksum_of(ip0);
    law_checksum_verifies(ip0, 10);
    assert(ip0.update(10, (ic / 256) as u8).update(11, (ic % 256) as u8) =~= frame.subrange(
        14,
        34,
    ));
    let t0 = tcp_checked(src, dst, tcp_segment_with(h, 0, p));
    let tc = checksum_of(t0);
    law_checksum_verifies(t0, 28);
    assert(frame.skip(34) =~= tcp_segment(src, dst, h, p));
    assert(t0.update(28, (tc / 256) as u8).update(29, (tc % 256) as u8) =~= tcp_checked(
        src,
        dst,
        frame.skip(34),
    ));
}

/// What a receiver finds in the frame of a segment, byte for byte: the hardware addresses,
/// an IPv4 packet of protocol 6 that is as long as the frame says, the two IP addresses,
/// the ports, the two positions, a header without options, the flags, the window, and
/// behind it the first 1200 bytes of the payload.
pub proof fn law_tcp_frame_fields(
    dst_mac: Seq<u8>,
    src_mac: Seq<u8>,
    src: Seq<u8>,
    dst: Seq<u8>,
    h: TcpFields,
    payload: Seq<u8>,
)
    requires
        dst_mac.len() == 6,
        src_mac.len() == 6,
        src.len() == 4,
        dst.len() == 4,
    ensures
        ({
            let f = tcp_frame(dst_mac, src_mac, src, dst, h, payload);
            &&& f.subrange(0, 6) == dst_mac
            &&& f.subrange(6, 12) == src_mac
            &&& crate::bytes::be16_at(f, 12) == 0x0800
            &&& f[14] == 0x45
            &&& crate::bytes::be16_at(f, 16) == f.len() - 14
            &&& f[22] == 64
            &&& f[23] == 6
            &&& f.subrange(26, 30) == src
            &&& f.subrange(30, 34) == dst
            &&& crate::bytes::be16_at(f, 34) == h.src_port
            &&& crate::bytes::be16_at(f, 36) == h.dst_port
            &&& crate::bytes::be32_at(f, 38) == h.seq
            &&& crate::bytes::be32_at(f, 42) == h.ack
            &&& f[46] == 0x50
            &&& f[47] == h.flags
            &&& crate::bytes::be16_at(f, 48) == h.window
            &&& f.skip(54) == (if payload.len() <= 1200 {
                payload
            } else {
                payload.take(1200)
            })
        }),
{
    reveal(tcp_frame);
    let f = tcp_frame(dst_mac, src_mac, src, dst, h, payload);
    assert(f.subrange(0, 6) =~= dst_mac);
    assert(f.subrange(6, 12) =~= src_mac);
    assert(f.subrange(26, 30) =~= src);
    assert(f.subrange(30, 34) =~= dst);
    assert(f.skip(54) =~= clipped(payload));
    crate::bytes::lemma_be32(h.seq);
    crate::bytes::lemma_be32(h.ack);
    assert(f.subrange(38, 42) =~= crate::bytes::be32_bytes(h.seq));
    assert(f.subrange(42, 46) =~= crate::bytes::be32_bytes(h.ack));
}

// ---------------------------------------------------------------------------
// What a handler asks for
// ---------------------------------------------------------------------------

/// One request to the outside, as a contract sees it.
pub enum Effect {
    /// Transmit this Ethernet frame.
    Frame(Seq<u8>),
    /// Broadcast an ARP request for this address.
    ArpRequest(Seq<u8>),
    /// Hand this byte to the shell's input.
    Input(u8),
}

/// One request to the outside.
pub enum Outgoing {
    /// Transmit this Ethernet frame.
    Frame(Vec<u8>),
    /// Broadcast an ARP request for this address.
    ArpRequest([u8; 4]),
    /// Hand this byte to the shell's input.
    Input(u8),
}

impl View for Outgoing {
    type V = Effect;

    open spec fn view(&self) -> Effect {
        match *self {
            Outgoing::Frame(f) => Effect::Frame(f@),
            Outgoing::ArpRequest(ip) => Effect::ArpRequest(ip@),
            Outgoing::Input(b) => Effect::Input(b),
        }
    }
}

/// The requests that a handler has made so far, in order.
pub struct Outbox {
    pub items: Vec<Outgoing>,
}

impl View for Outbox {
    type V = Seq<Effect>;

    open spec fn view(&self) -> Seq<Effect> {
        self.items@.map_values(|o: Outgoing| o@)
    }
}

impl Outbox {
    /// No requests yet.
    pub fn new() -> (r: Outbox)
        ensures
            r@ == Seq::<Effect>::empty(),
    {
        let r: Outbox = Outbox { items: Vec::new() };
        assert(r@ =~= Seq::<Effect>::empty());
        r
    }

    /// Adds one request.
    pub fn put(&mut self, o: Outgoing)
        ensures
            final(self)@ == old(self)@.push(o@),
    {
        self.items.push(o);
        assert(self@ =~= old(self)@.push(o@));
    }
}

// ---------------------------------------------------------------------------
// The interface's addresses
// ---------------------------------------------------------------------------

/// A resolved neighbour.
#[derive(Clone, Copy)]
pub struct Neighbour {
    pub ip: [u8; 4],
    pub mac: [u8; 6],
}

/// What the TCP code knows of the network interface.
pub struct NetIf {
    /// Our IPv4 address; all zeros while there is none.
    pub ip: [u8; 4],
    /// The default gateway.
    pub gateway: [u8; 4],
    /// Our hardware address, when a network device is present.
    pub mac: Option<[u8; 6]>,
    /// The resolved neighbours; the first entry for an address counts.
    pub neighbours: Vec<Neighbour>,
}

/// What contracts know of the network interface.
#[verifier::ext_equal]
pub struct NetIfModel {
    pub ip: Seq<u8>,
    pub gateway: Seq<u8>,
    pub mac: Option<Seq<u8>>,
    pub neighbours: Seq<Neighbour>,
}

impl View for NetIf {
    type V = NetIfModel;

    open spec fn view(&self) -> NetIfModel {
        NetIfModel {
            ip: self.ip@,
            gateway: self.gateway@,
            mac: match self.mac {
                Some(m) => Some(m@),
                None => None,
            },
            neighbours: self.neighbours@,
        }
    }
}

impl NetIfModel {
    /// True once the interface has an address.
    pub open spec fn has_ip(self) -> bool {
        self.ip != seq![0u8, 0u8, 0u8, 0u8]
    }

    /// The hardware address of `ip`, looked up from entry `i` on.
    pub open spec fn mac_of(self, ip: Seq<u8>, i: int) -> Option<Seq<u8>>
        decreases self.neighbours.len() - i,
    {
        if i < 0 || i >= self.neighbours.len() {
            None
        } else if self.neighbours[i].ip@ == ip {
            Some(self.neighbours[i].mac@)
        } else {
            self.mac_of(ip, i + 1)
        }
    }

    /// Where a packet for `peer` goes first: to `peer` itself on our /24, to
    /// the gateway otherwise.
    pub open spec fn next_hop(self, peer: Seq<u8>) -> Seq<u8> {
        if self.ip.take(3) == peer.take(3) {
            peer
        } else {
            self.gateway
        }
    }
}

impl NetIf {
    /// True once the interface has an address.
    pub fn is_up(&self) -> (r: bool)
        ensures
            r == self@.has_ip(),
    {
        let r: bool = !(self.ip[0] == 0 && self.ip[1] == 0 && self.ip[2] == 0 && self.ip[3] == 0);
        if !r {
            assert(self.ip@ =~= seq![0u8, 0u8, 0u8, 0u8]);
        }
        r
    }

    /// Looks up the hardware address of a neighbour.
    pub fn arp_lookup(&self, ip: &[u8; 4]) -> (r: Option<[u8; 6]>)
        ensures
            match r {
                Some(m) => self@.mac_of(ip@, 0) == Some(m@),
                None => self@.mac_of(ip@, 0) is None,
            },
    {
        let mut i: usize = 0;
        while i < self.neighbours.len()
            invariant
                i <= self.neighbours@.len(),
                self@.mac_of(ip@, 0) == self@.mac_of(ip@, i as int),
            decreases self.neighbours@.len() - i,
        {
            let n: Neighbour = self.neighbours[i];
            if crate::bytes::same4(&n.ip, ip) {
                return Some(n.mac);
            }
            i = i + 1;
        }
        None
    }

    /// Picks the next hop for a destination.
    pub fn next_hop_for(&self, peer: &[u8; 4]) -> (r: [u8; 4])
        ensures
            r@ == self@.next_hop(peer@),
    {
        if self.ip[0] == peer[0] && self.ip[1] == peer[1] && self.ip[2] == peer[2] {
            assert(self.ip@.take(3) =~= peer@.take(3));
            *peer
        } else {
            assert(self.ip@.take(3)[0] == self.ip@[0]);
            assert(self.ip@.take(3)[1] == self.ip@[1]);
            assert(self.ip@.take(3)[2] == self.ip@[2]);
            self.gateway
        }
    }
}

/// The way to a peer: one whose address begins with the same three bytes is reached directly,
/// every other through the gateway, whatever its last byte is.
pub proof fn law_way_to_a_peer(n: NetIfModel, peer: Seq<u8>, other: Seq<u8>)
    requires
        n.ip.len() == 4,
        peer.len() == 4,
        other.len() == 4,
    ensures
        peer[0] == n.ip[0] && peer[1] == n.ip[1] && peer[2] == n.ip[2] ==> n.next_hop(peer) == peer,
        peer[0] != n.ip[0] || peer[1] != n.ip[1] || peer[2] != n.ip[2] ==> n.next_hop(peer)
            == n.gateway,
{
    let (a, b) = (n.ip.take(3), peer.take(3));
    assert(a[0] == n.ip[0] && a[1] == n.ip[1] && a[2] == n.ip[2]);
    assert(b[0] == peer[0] && b[1] == peer[1] && b[2] == peer[2]);
    if peer[0] == n.ip[0] && peer[1] == n.ip[1] && peer[2] == n.ip[2] {
        assert(a =~= b);
    }
}

/// A neighbour is found by its address: its hardware address is that of the first entry that
/// has the address, and none is given where no entry has it.
pub proof fn law_neighbour_is_found(n: NetIfModel, ip: Seq<u8>, i: int)
    requires
        0 <= i,
    ensures
        match n.mac_of(ip, i) {
            Some(mac) => exists|k: int|
                i <= k < n.neighbours.len() && (#[trigger] n.neighbours[k]).ip@ == ip
                    && n.neighbours[k].mac@ == mac && forall|j: int|
                    i <= j < k ==> (#[trigger] n.neighbours[j]).ip@ != ip,
            None => forall|j: int|
                i <= j < n.neighbours.len() ==> (#[trigger] n.neighbours[j]).ip@ != ip,
        },
    decreases n.neighbours.len() - i,
{
    if i < n.neighbours.len() {
        if n.neighbours[i].ip@ != ip {
            law_neighbour_is_found(n, ip, i + 1);
            if n.mac_of(ip, i + 1) is Some {
                let k = choose|k: int|
                    i + 1 <= k < n.neighbours.len() && (#[trigger] n.neighbours[k]).ip@ == ip
                        && n.neighbours[k].mac@ == n.mac_of(ip, i + 1)->0 && forall|j: int|
                        i + 1 <= j < k ==> (#[trigger] n.neighbours[j]).ip@ != ip;
                assert(n.neighbours[k].ip@ == ip);
            }
        }
    }
}

} // verus!
