//! What the network sees of us: which addresses a DHCP exchange asks for and takes, and what
//! ARP and echo requests are answered.
use crate::bytes;
use crate::platform::qemu_virt::net_stack::model;
use crate::platform::qemu_virt::net_stack::model::{NetModel, World};
use crate::platform::qemu_virt::net_stack::DhcpState;
use crate::platform::qemu_virt::packet;
use crate::platform::qemu_virt::packet::Effect;
use vstd::prelude::*;

verus! {

// ---------------------------------------------------------------------------
// Options
// ---------------------------------------------------------------------------

/// Options in their written form: code, length and value of each.
pub open spec fn written(opts: Seq<(u8, Seq<u8>)>) -> Seq<u8>
    decreases opts.len(),
{
    if opts.len() == 0 {
        Seq::empty()
    } else {
        seq![opts[0].0, opts[0].1.len() as u8] + opts[0].1 + written(opts.drop_first())
    }
}

/// The options can be written: no code is a pad or the end marker, and no value is longer
/// than its length byte can say.
pub open spec fn writable(opts: Seq<(u8, Seq<u8>)>) -> bool {
    forall|j: int|
        0 <= j < opts.len() ==> (#[trigger] opts[j]).0 != 0 && opts[j].0 != 255 && opts[j].1.len()
            <= 255
}

/// Options are read back as they were written, up to the end marker; what follows it does
/// not count.
pub proof fn law_options_are_read_back(
    head: Seq<u8>,
    opts: Seq<(u8, Seq<u8>)>,
    rest: Seq<u8>,
)
    requires
        writable(opts),
        rest.len() > 0,
        rest[0] == 255,
    ensures
        model::options(head + written(opts) + rest, head.len() as int) == opts,
    decreases opts.len(),
{
    let d = head + written(opts) + rest;
    let i = head.len() as int;
    if opts.len() == 0 {
        assert(d[i] == rest[0]);
        assert(model::options(d, i) =~= opts);
    } else {
        let (code, value) = opts[0];
        let first = seq![code, value.len() as u8] + value;
        let tail = opts.drop_first();
        let head1 = head + first;
        assert(writable(tail)) by {
            assert(forall|j: int| 0 <= j < tail.len() ==> #[trigger] tail[j] == opts[j + 1]);
        }
        law_options_are_read_back(head1, tail, rest);
        assert(d =~= head1 + written(tail) + rest);
        assert(d[i] == code);
        assert(d[i + 1] == value.len());
        assert(d.subrange(i + 2, i + 2 + d[i + 1]) =~= value);
        assert(model::options(d, i) == seq![(code, value)] + model::options(
            d,
            i + 2 + d[i + 1],
        ));
        assert(seq![(code, value)] + tail =~= opts);
    }
}

/// Pad bytes are skipped.
pub proof fn law_pads_are_skipped(d: Seq<u8>, i: int)
    requires
        0 <= i < d.len(),
        d[i] == 0,
    ensures
        model::options(d, i) == model::options(d, i + 1),
{
}

/// Option `code` counts where it has at least `min` bytes.
pub open spec fn counts(o: (u8, Seq<u8>), code: u8, min: nat) -> bool {
    o.0 == code && o.1.len() >= min
}

/// Of several options with one code the last one counts, where it is long enough.
pub proof fn law_last_option_counts(opts: Seq<(u8, Seq<u8>)>, code: u8, min: nat, j: int)
    requires
        -1 <= j < opts.len(),
        j >= 0 ==> counts(opts[j], code, min),
        forall|k: int| j < k < opts.len() ==> !counts(#[trigger] opts[k], code, min),
    ensures
        model::last_option(opts, code, min) == (if j >= 0 {
            Some(opts[j].1)
        } else {
            None
        }),
    decreases opts.len(),
{
    if opts.len() > 0 {
        let o = opts.drop_last();
        if j < opts.len() - 1 {
            assert(!counts(opts[opts.len() - 1], code, min));
            assert forall|k: int| j < k < o.len() implies !counts(#[trigger] o[k], code, min) by {
                assert(o[k] == opts[k]);
            }
            law_last_option_counts(o, code, min, j);
        }
    }
}

// ---------------------------------------------------------------------------
// DHCP
// ---------------------------------------------------------------------------

/// `d` is a DHCP message from a server in transaction `xid` that carries `opts`: 240 bytes
/// of a BOOTREPLY with the magic number at their end, the options and the end marker.
pub open spec fn is_reply(d: Seq<u8>, xid: u32, opts: Seq<(u8, Seq<u8>)>) -> bool {
    &&& writable(opts)
    &&& d.len() > 240 + written(opts).len()
    &&& d[0] == 2
    &&& bytes::be32_at(d, 4) == xid
    &&& d[236] == 99 && d[237] == 130 && d[238] == 83 && d[239] == 99
    &&& d.subrange(240, 240int + written(opts).len()) == written(opts)
    &&& d[240int + written(opts).len()] == 255
}

/// Option `code`, with at least `min` bytes, is last given at position `j` of the options;
/// nowhere for -1.
pub open spec fn given_at(opts: Seq<(u8, Seq<u8>)>, code: u8, min: nat, j: int) -> bool {
    &&& -1 <= j < opts.len()
    &&& j >= 0 ==> counts(opts[j], code, min)
    &&& forall|k: int| j < k < opts.len() ==> !counts(#[trigger] opts[k], code, min)
}

proof fn lemma_reply(d: Seq<u8>, xid: u32, opts: Seq<(u8, Seq<u8>)>)
    requires
        is_reply(d, xid, opts),
    ensures
        model::options(d, 240) == opts,
        model::dhcp_reply_to(xid, d),
{
    let n = written(opts).len() as int;
    let head = d.take(240);
    let rest = d.skip(240 + n);
    assert(d =~= head + d.subrange(240, 240 + n) + rest);
    law_options_are_read_back(head, opts, rest);
    assert(d.subrange(236, 240) =~= seq![99u8, 130, 83, 99]);
}

/// The frame is a broadcast DHCP message of ours, as a server reads it: UDP from port 68 to
/// port 67 between 0.0.0.0 and 255.255.255.255, a BOOTREQUEST in transaction `xid` with our
/// hardware address and the magic number.
pub open spec fn is_request(f: Seq<u8>, mac: Seq<u8>, xid: u32) -> bool {
    &&& f.len() == 338
    &&& f.subrange(0, 6) == seq![255u8, 255, 255, 255, 255, 255]
    &&& f.subrange(6, 12) == mac
    &&& bytes::be16_at(f, 12) == 0x0800
    &&& f[14] == 0x45
    &&& bytes::be16_at(f, 16) == 324
    &&& f[23] == 17
    &&& f.subrange(26, 30) == seq![0u8, 0, 0, 0]
    &&& f.subrange(30, 34) == seq![255u8, 255, 255, 255]
    &&& bytes::be16_at(f, 34) == 68
    &&& bytes::be16_at(f, 36) == 67
    &&& bytes::be16_at(f, 38) == 304
    &&& f[42] == 1
    &&& f[43] == 1
    &&& f[44] == 6
    &&& bytes::be32_at(f, 46) == xid
    &&& f[52] == 0x80
    &&& f.subrange(70, 76) == mac
    &&& f[278] == 99 && f[279] == 130 && f[280] == 83 && f[281] == 99
}

proof fn lemma_request(mac: Seq<u8>, xid: u32, opts: Seq<u8>)
    requires
        mac.len() == 6,
        opts.len() <= 56,
    ensures
        ({
            let f = model::dhcp_frame(mac, xid, opts);
            &&& is_request(f, mac, xid)
            &&& f.subrange(282, 282int + opts.len()) == opts
            &&& f.skip(42).len() == 296
            &&& forall|j: int| 0 <= j < 296 ==> #[trigger] f.skip(42)[j] == f[42 + j]
        }),
{
    let f = model::dhcp_frame(mac, xid, opts);
    model::law_dhcp_frame(mac, xid, opts);
    bytes::lemma_be32(xid);
    assert(f.subrange(0, 6) =~= seq![255u8, 255, 255, 255, 255, 255]);
    assert(f.subrange(6, 12) =~= mac);
    assert(f.subrange(26, 30) =~= seq![0u8, 0, 0, 0]);
    assert(f.subrange(30, 34) =~= seq![255u8, 255, 255, 255]);
    assert(f.subrange(278, 282) =~= seq![99u8, 130, 83, 99]);
    assert(f.subrange(278, 282)[0] == f[278]);
    assert(f.subrange(278, 282)[1] == f[279]);
    assert(f.subrange(278, 282)[2] == f[280]);
    assert(f.subrange(278, 282)[3] == f[281]);
    let x = f.subrange(46, 50);
    assert(x[0] == f[46] && x[1] == f[47] && x[2] == f[48] && x[3] == f[49]);
}

/// Discovering, the client broadcasts a DISCOVER that asks for mask and router, and again
/// whenever 200 ticks have passed.
pub proof fn law_discover(m: NetModel, mac: Seq<u8>, now: u64, fx: Seq<Effect>)
    requires
        m.dhcp_state is Discovering,
        mac.len() == 6,
        now + 200 <= u64::MAX,
    ensures
        ({
            let (m1, fx1) = model::dhcp_tick(m, mac, now, fx);
            &&& now < m.dhcp_retry ==> (m1, fx1) == (m, fx)
            &&& now >= m.dhcp_retry ==> {
                &&& m1 == (NetModel { dhcp_retry: (now + 200) as u64, ..m })
                &&& fx1.len() == fx.len() + 1
                &&& fx1.drop_last() == fx
                &&& fx1.last() is Frame
                &&& is_request(fx1.last()->Frame_0, mac, m.dhcp_xid)
                &&& fx1.last()->Frame_0.subrange(282, 290) == seq![53u8, 1, 1, 55, 2, 1, 3, 255]
            }
        }),
{
    let fx1 = model::dhcp_tick(m, mac, now, fx).1;
    if now >= m.dhcp_retry {
        lemma_request(mac, m.dhcp_xid, model::discover_options());
        assert(fx1.drop_last() =~= fx);
    }
}

/// An offer is requested: the tick that follows broadcasts a REQUEST in the same
/// transaction, for the address that the offer gives, to the server that the offer names,
/// which is its sender where it names none. Until the server has acknowledged it the
/// interface has no address.
#[verifier::rlimit(50)]
#[verifier::spinoff_prover]
pub proof fn law_offer_is_requested(
    m: NetModel,
    sender: Seq<u8>,
    d: Seq<u8>,
    opts: Seq<(u8, Seq<u8>)>,
    kind: int,
    server: int,
    mac: Seq<u8>,
    now: u64,
    fx: Seq<Effect>,
)
    requires
        m.dhcp_state is Discovering,
        sender.len() == 4,
        is_reply(d, m.dhcp_xid, opts),
        given_at(opts, 53, 1, kind),
        kind >= 0,
        opts[kind].1[0] == 2,
        given_at(opts, 54, 4, server),
        mac.len() == 6,
        now + 200 <= u64::MAX,
    ensures
        ({
            let m1 = model::on_dhcp(m, sender, d);
            let (m2, fx2) = model::dhcp_tick(m1, mac, now, fx);
            let f = fx2.last()->Frame_0;
            let wanted = d.subrange(16, 20);
            let named = if server >= 0 {
                opts[server].1.take(4)
            } else {
                sender
            };
            &&& m1.dhcp_state is Requesting
            &&& m1.net.ip == m.net.ip
            &&& m1.dhcp_xid == m.dhcp_xid
            &&& m2.dhcp_state is Requesting
            &&& m2.dhcp_retry == now + 200
            &&& fx2.len() == fx.len() + 1
            &&& fx2.drop_last() == fx
            &&& fx2.last() is Frame
            &&& is_request(f, mac, m.dhcp_xid)
            &&& f.subrange(282, 285) == seq![53u8, 1, 3]
            &&& f.subrange(285, 287) == seq![50u8, 4]
            &&& f.subrange(287, 291) == wanted
            &&& f.subrange(291, 293) == seq![54u8, 4]
            &&& f.subrange(293, 297) == named
            &&& f[297] == 255
            &&& model::options(f.skip(42), 240) == seq![
                (53u8, seq![3u8]),
                (50u8, wanted),
                (54u8, named),
            ]
        }),
{
    let m1 = model::on_dhcp(m, sender, d);
    let named = if server >= 0 {
        opts[server].1.take(4)
    } else {
        sender
    };
    lemma_offer_is_kept(m, sender, d, opts, kind, server, named);
    lemma_request_is_sent(m1, mac, now, fx, d.subrange(16, 20), named);
}

/// An offer is kept until it is requested.
#[verifier::spinoff_prover]
proof fn lemma_offer_is_kept(
    m: NetModel,
    sender: Seq<u8>,
    d: Seq<u8>,
    opts: Seq<(u8, Seq<u8>)>,
    kind: int,
    server: int,
    named: Seq<u8>,
)
    requires
        m.dhcp_state is Discovering,
        is_reply(d, m.dhcp_xid, opts),
        given_at(opts, 53, 1, kind),
        kind >= 0,
        opts[kind].1[0] == 2,
        given_at(opts, 54, 4, server),
        named == (if server >= 0 {
            opts[server].1.take(4)
        } else {
            sender
        }),
    ensures
        ({
            let m1 = model::on_dhcp(m, sender, d);
            &&& m1.dhcp_state is Requesting
            &&& m1.net.ip == m.net.ip
            &&& m1.dhcp_xid == m.dhcp_xid
            &&& m1.dhcp_retry == 0
            &&& m1.req_retries == 0
            &&& m1.leased == d.subrange(16, 20)
            &&& m1.server_ip == named
        }),
{
    lemma_reply(d, m.dhcp_xid, opts);
    law_last_option_counts(opts, 53, 1, kind);
    law_last_option_counts(opts, 54, 4, server);
}

/// A client that requests an address sends the frame for it.
#[verifier::rlimit(50)]
#[verifier::spinoff_prover]
proof fn lemma_request_is_sent(
    m: NetModel,
    mac: Seq<u8>,
    now: u64,
    fx: Seq<Effect>,
    wanted: Seq<u8>,
    named: Seq<u8>,
)
    requires
        m.dhcp_state is Requesting,
        m.dhcp_retry == 0,
        m.req_retries == 0,
        m.leased == wanted,
        m.server_ip == named,
        mac.len() == 6,
        wanted.len() == 4,
        named.len() == 4,
        now + 200 <= u64::MAX,
    ensures
        ({
            let (m2, fx2) = model::dhcp_tick(m, mac, now, fx);
            let f = fx2.last()->Frame_0;
            &&& m2.dhcp_state is Requesting
            &&& m2.dhcp_retry == now + 200
            &&& fx2.len() == fx.len() + 1
            &&& fx2.drop_last() == fx
            &&& fx2.last() is Frame
            &&& is_request(f, mac, m.dhcp_xid)
            &&& f.subrange(282, 285) == seq![53u8, 1, 3]
            &&& f.subrange(285, 287) == seq![50u8, 4]
            &&& f.subrange(287, 291) == wanted
            &&& f.subrange(291, 293) == seq![54u8, 4]
            &&& f.subrange(293, 297) == named
            &&& f[297] == 255
            &&& model::options(f.skip(42), 240) == seq![
                (53u8, seq![3u8]),
                (50u8, wanted),
                (54u8, named),
            ]
        }),
{
    let fx2 = model::dhcp_tick(m, mac, now, fx).1;
    let f = model::dhcp_frame(mac, m.dhcp_xid, model::request_options(wanted, named));
    assert(fx2 == fx.push(Effect::Frame(f)));
    lemma_request_frame(mac, m.dhcp_xid, wanted, named);
    assert(fx2.drop_last() =~= fx);
}

/// The frame of a REQUEST, as the server reads it.
#[verifier::rlimit(50)]
#[verifier::spinoff_prover]
proof fn lemma_request_frame(mac: Seq<u8>, xid: u32, wanted: Seq<u8>, named: Seq<u8>)
    requires
        mac.len() == 6,
        wanted.len() == 4,
        named.len() == 4,
    ensures
        ({
            let f = model::dhcp_frame(mac, xid, model::request_options(wanted, named));
            &&& is_request(f, mac, xid)
            &&& f.subrange(282, 285) == seq![53u8, 1, 3]
            &&& f.subrange(285, 287) == seq![50u8, 4]
            &&& f.subrange(287, 291) == wanted
            &&& f.subrange(291, 293) == seq![54u8, 4]
            &&& f.subrange(293, 297) == named
            &&& f[297] == 255
            &&& model::options(f.skip(42), 240) == seq![
                (53u8, seq![3u8]),
                (50u8, wanted),
                (54u8, named),
            ]
        }),
{
    let o = model::request_options(wanted, named);
    lemma_request(mac, xid, o);
    let f = model::dhcp_frame(mac, xid, o);
    assert(o.len() == 16);
    assert(f.subrange(282, 285) =~= o.subrange(0, 3)) by {
        assert(f.subrange(282, 298).subrange(0, 3) =~= f.subrange(282, 285));
    }
    assert(f.subrange(282, 298).subrange(3, 5) =~= f.subrange(285, 287));
    assert(f.subrange(282, 298).subrange(5, 9) =~= f.subrange(287, 291));
    assert(f.subrange(282, 298).subrange(9, 11) =~= f.subrange(291, 293));
    assert(f.subrange(282, 298).subrange(11, 15) =~= f.subrange(293, 297));
    assert(f.subrange(282, 298)[15] == f[297]);
    assert(o.subrange(0, 3) =~= seq![53u8, 1, 3]);
    assert(o.subrange(3, 5) =~= seq![50u8, 4]);
    assert(o.subrange(5, 9) =~= wanted);
    assert(o.subrange(9, 11) =~= seq![54u8, 4]);
    assert(o.subrange(11, 15) =~= named);
    lemma_request_options(f, o, wanted, named);
}

/// The options of a REQUEST, read from the frame.
proof fn lemma_request_options(f: Seq<u8>, o: Seq<u8>, wanted: Seq<u8>, named: Seq<u8>)
    requires
        f.len() == 338,
        wanted.len() == 4,
        named.len() == 4,
        o == seq![53u8, 1, 3, 50, 4] + wanted + seq![54u8, 4] + named + seq![255u8],
        f.subrange(282, 298) == o,
    ensures
        model::options(f.skip(42), 240) == seq![
            (53u8, seq![3u8]),
            (50u8, wanted),
            (54u8, named),
        ],
{
    let sent = seq![(53u8, seq![3u8]), (50u8, wanted), (54u8, named)];
    lemma_three(sent);
    let b = f.skip(42);
    let w = written(sent);
    assert(w =~= o.take(15));
    let rest = b.skip(255);
    assert(b.subrange(240, 256) =~= f.subrange(282, 298));
    assert(b.subrange(240, 255) =~= o.take(15)) by {
        assert(b.subrange(240, 256).take(15) =~= b.subrange(240, 255));
    }
    assert(b =~= b.take(240) + b.subrange(240, 255) + rest);
    assert(rest[0] == b.subrange(240, 256)[15]);
    law_options_are_read_back(b.take(240), sent, rest);
}

/// The written form of three options.
proof fn lemma_three(o: Seq<(u8, Seq<u8>)>)
    requires
        o.len() == 3,
    ensures
        written(o) == seq![o[0].0, o[0].1.len() as u8] + o[0].1 + (seq![
            o[1].0,
            o[1].1.len() as u8,
        ] + o[1].1 + (seq![o[2].0, o[2].1.len() as u8] + o[2].1)),
{
    let a = o.drop_first();
    let b = a.drop_first();
    let c = b.drop_first();
    assert(a[0] == o[1]);
    assert(b[0] == o[2]);
    assert(written(c) =~= Seq::<u8>::empty());
    assert(written(b) =~= seq![o[2].0, o[2].1.len() as u8] + o[2].1);
    assert(written(a) == seq![o[1].0, o[1].1.len() as u8] + o[1].1 + written(b));
    assert(written(o) == seq![o[0].0, o[0].1.len() as u8] + o[0].1 + written(a));
}

/// The acknowledgement of the request binds the interface to the address that it gives, and
/// to the router that it names, if it names one.
pub proof fn law_acknowledged_address_is_ours(
    m: NetModel,
    sender: Seq<u8>,
    d: Seq<u8>,
    opts: Seq<(u8, Seq<u8>)>,
    kind: int,
    router: int,
)
    requires
        m.dhcp_state is Requesting,
        is_reply(d, m.dhcp_xid, opts),
        given_at(opts, 53, 1, kind),
        kind >= 0,
        opts[kind].1[0] == 5,
        given_at(opts, 3, 4, router),
    ensures
        ({
            let m1 = model::on_dhcp(m, sender, d);
            &&& m1.dhcp_state is Bound
            &&& m1.net.ip == d.subrange(16, 20)
            &&& m1.leased == d.subrange(16, 20)
            &&& m1.net.gateway == (if router >= 0 {
                opts[router].1.take(4)
            } else {
                seq![0u8, 0, 0, 0]
            })
            &&& m1.net.mac == m.net.mac
            &&& m1.net.neighbours == m.net.neighbours
        }),
{
    lemma_reply(d, m.dhcp_xid, opts);
    law_last_option_counts(opts, 53, 1, kind);
    law_last_option_counts(opts, 3, 4, router);
}

/// Only an offer counts while discovering and only an acknowledgement while requesting: any
/// other message, and one without a message type, changes nothing.
pub proof fn law_other_messages_are_ignored(
    m: NetModel,
    sender: Seq<u8>,
    d: Seq<u8>,
    opts: Seq<(u8, Seq<u8>)>,
    kind: int,
)
    requires
        is_reply(d, m.dhcp_xid, opts),
        given_at(opts, 53, 1, kind),
        kind >= 0 && m.dhcp_state is Discovering ==> opts[kind].1[0] != 2,
        kind >= 0 && m.dhcp_state is Requesting ==> opts[kind].1[0] != 5,
    ensures
        model::on_dhcp(m, sender, d) == m,
{
    lemma_reply(d, m.dhcp_xid, opts);
    law_last_option_counts(opts, 53, 1, kind);
}

/// A message that is no BOOTREPLY, or has no magic number, or is of another transaction,
/// changes nothing.
pub proof fn law_no_reply_is_ignored(m: NetModel, sender: Seq<u8>, d: Seq<u8>)
    requires
        d.len() < 240 || d[0] != 2 || d[236] != 99 || d[237] != 130 || d[238] != 83 || d[239] != 99
            || bytes::be32_at(d, 4) != m.dhcp_xid,
    ensures
        model::on_dhcp(m, sender, d) == m,
{
    if d.len() >= 240 {
        let g = d.subrange(236, 240);
        assert(g[0] == d[236] && g[1] == d[237] && g[2] == d[238] && g[3] == d[239]);
    }
}

/// The first three due ticks after an offer send the same request, 200 ticks apart; the
/// fourth one sends nothing and starts over.
pub proof fn law_request_is_repeated(m: NetModel, mac: Seq<u8>, now: u64, fx: Seq<Effect>)
    requires
        m.dhcp_state is Requesting,
        now + 200 <= u64::MAX,
        m.req_retries <= 3,
    ensures
        ({
            let (m1, fx1) = model::dhcp_tick(m, mac, now, fx);
            &&& now < m.dhcp_retry ==> (m1, fx1) == (m, fx)
            &&& now >= m.dhcp_retry && m.req_retries < 3 ==> m1 == (NetModel {
                req_retries: (m.req_retries + 1) as u8,
                dhcp_retry: (now + 200) as u64,
                ..m
            }) && fx1.len() == fx.len() + 1 && forall|other: NetModel|
                other.leased == m.leased && other.server_ip == m.server_ip && other.dhcp_xid
                    == m.dhcp_xid && other.dhcp_state is Requesting && other.req_retries < 3
                    && other.dhcp_retry <= now ==> (#[trigger] model::dhcp_tick(
                    other,
                    mac,
                    now,
                    fx,
                )).1 == fx1
            &&& now >= m.dhcp_retry && m.req_retries == 3 ==> m1 == (NetModel {
                dhcp_state: DhcpState::Discovering,
                req_retries: 0,
                dhcp_retry: (now + 200) as u64,
                ..m
            }) && fx1 == fx
        }),
{
}

// ---------------------------------------------------------------------------
// ARP and echo
// ---------------------------------------------------------------------------

/// An ARP request for our address is answered, and nothing else is: the reply goes to the
/// sender, says that our IP address is at our hardware address, and repeats the sender's two
/// addresses as its target.
pub proof fn law_arp_is_answered(mac: Seq<u8>, ip: Seq<u8>, arp: Seq<u8>, fx: Seq<Effect>)
    requires
        mac.len() == 6,
        ip.len() == 4,
    ensures
        ({
            let fx1 = model::on_arp(Some(mac), ip, arp, fx);
            let f = fx1.last()->Frame_0;
            let asked = arp.len() >= 28 && arp[6] == 0 && arp[7] == 1 && arp.subrange(24, 28) == ip
                && ip != seq![0u8, 0, 0, 0];
            &&& !asked ==> fx1 == fx
            &&& asked ==> {
                &&& fx1.len() == fx.len() + 1
                &&& fx1.drop_last() == fx
                &&& fx1.last() is Frame
                &&& f.len() == 42
                &&& f.subrange(0, 6) == arp.subrange(8, 14)
                &&& f.subrange(6, 12) == mac
                &&& bytes::be16_at(f, 12) == 0x0806
                &&& f.subrange(14, 20) == seq![0u8, 1, 8, 0, 6, 4]
                &&& f[20] == 0 && f[21] == 2
                &&& f.subrange(22, 28) == mac
                &&& f.subrange(28, 32) == ip
                &&& f.subrange(32, 38) == arp.subrange(8, 14)
                &&& f.subrange(38, 42) == arp.subrange(14, 18)
            }
        }),
{
    let fx1 = model::on_arp(Some(mac), ip, arp, fx);
    let f = model::arp_reply(mac, ip, arp);
    if model::asks_for_us(ip, arp) {
        assert(fx1.last() == Effect::Frame(f));
        assert(fx1.drop_last() =~= fx);
        assert(f.subrange(0, 6) =~= arp.subrange(8, 14));
        assert(f.subrange(6, 12) =~= mac);
        assert(f.subrange(14, 20) =~= seq![0u8, 1, 8, 0, 6, 4]);
        assert(f.subrange(22, 28) =~= mac);
        assert(f.subrange(28, 32) =~= ip);
        assert(f.subrange(32, 38) =~= arp.subrange(8, 14));
        assert(f.subrange(38, 42) =~= arp.subrange(14, 18));
    }
}

/// An echo request to our address is answered, and nothing else is: the reply goes back to
/// the sender's hardware and IP address from ours, is an echo reply, and carries the
/// identifier, sequence number and data of the request.
pub proof fn law_echo_is_answered(
    mac: Seq<u8>,
    ip: Seq<u8>,
    frame: Seq<u8>,
    src_ip: Seq<u8>,
    dst_ip: Seq<u8>,
    msg: Seq<u8>,
    fx: Seq<Effect>,
)
    requires
        mac.len() == 6,
        ip.len() == 4,
        frame.len() >= 12,
        src_ip.len() == 4,
    ensures
        ({
            let fx1 = model::on_echo(Some(mac), ip, frame, src_ip, dst_ip, msg, fx);
            let f = fx1.last()->Frame_0;
            let asked = 8 <= msg.len() <= 1484 && msg[0] == 8 && dst_ip == ip && ip != seq![
                0u8,
                0,
                0,
                0,
            ];
            &&& !asked ==> fx1 == fx
            &&& asked ==> {
                &&& fx1.len() == fx.len() + 1
                &&& fx1.drop_last() == fx
                &&& fx1.last() is Frame
                &&& f.len() == 34 + msg.len()
                &&& f.subrange(0, 6) == frame.subrange(6, 12)
                &&& f.subrange(6, 12) == mac
                &&& bytes::be16_at(f, 12) == 0x0800
                &&& f[14] == 0x45
                &&& bytes::be16_at(f, 16) == 20 + msg.len()
                &&& f[23] == 1
                &&& f.subrange(26, 30) == ip
                &&& f.subrange(30, 34) == src_ip
                &&& f[34] == 0
                &&& f[35] == 0
                &&& f.skip(38) == msg.skip(4)
                &&& packet::checksum_of(f.subrange(14, 34)) == 0
                &&& packet::checksum_of(f.skip(34)) == 0
            }
        }),
{
    let fx1 = model::on_echo(Some(mac), ip, frame, src_ip, dst_ip, msg, fx);
    let sender = frame.subrange(6, 12);
    if model::echo_request(ip, dst_ip, msg) {
        let f = model::echo_reply(sender, mac, ip, src_ip, msg);
        model::law_echo_reply(sender, mac, ip, src_ip, msg);
        assert(fx1.last() == Effect::Frame(f));
        assert(fx1.drop_last() =~= fx);
        assert(f.subrange(0, 6) =~= sender);
        assert(f.subrange(6, 12) =~= mac);
        assert(f.subrange(26, 30) =~= ip);
        assert(f.subrange(30, 34) =~= src_ip);
    }
}

// ---------------------------------------------------------------------------
// Which part of the stack a frame is for
// ---------------------------------------------------------------------------

/// A frame is sorted by its EtherType and the protocol number behind the IP header: ARP and
/// echo change no state, TCP none but the sockets', and UDP none but the DHCP client's, for
/// which the message and its sender's address are cut out of the frame. IP options are
/// skipped. Anything else does nothing.
pub proof fn law_frame_is_sorted(w: World, f: Seq<u8>)
    requires
        f.len() >= 34,
    ensures
        ({
            let w1 = model::on_frame(w, f);
            let header = f[14] as int % 16 * 4;
            let whole = 20 <= header && f.len() >= 14 + header;
            let ip = f[12] == 8 && f[13] == 0 && whole;
            let from = f.subrange(26, 30);
            let to = f.subrange(30, 34);
            let body = f.skip(14 + header);
            &&& f[12] == 8 && f[13] == 6 ==> w1.net == w.net && w1.tcp == w.tcp && w1.fx
                == model::on_arp(w.net.net.mac, w.net.leased, f.skip(14), w.fx)
            &&& ip && f[23] == 1 ==> w1.net == w.net && w1.tcp == w.tcp && w1.fx == model::on_echo(
                w.net.net.mac,
                w.net.leased,
                f,
                from,
                to,
                body,
                w.fx,
            )
            &&& ip && f[23] == 6 ==> w1.net == w.net && (w1.tcp, w1.fx)
                == crate::platform::qemu_virt::tcp::model::tcp_input(
                w.tcp,
                w.net.net,
                f,
                from,
                to,
                body,
                w.fx,
            )
            &&& ip && f[23] == 17 ==> w1.tcp == w.tcp && w1.fx == w.fx && w1.net == (
            if body.len() > 8 && body[0] == 0 && body[1] == 67 && body[2] == 0 && body[3] == 68 {
                model::on_dhcp(w.net, from, f.skip(14 + header + 8))
            } else {
                w.net
            })
            &&& !(f[12] == 8 && f[13] == 6) && !(ip && (f[23] == 1 || f[23] == 6 || f[23] == 17))
                ==> w1 == w
        }),
{
    let header = f[14] as int % 16 * 4;
    let ip = f.skip(14);
    assert(ip.subrange(12, 16) =~= f.subrange(26, 30));
    assert(ip.subrange(16, 20) =~= f.subrange(30, 34));
    if 20 <= header && f.len() >= 14 + header {
        assert(ip.skip(header) =~= f.skip(14 + header));
        let body = f.skip(14 + header);
        if body.len() > 8 {
            assert(body.skip(8) =~= f.skip(14 + header + 8));
        }
    }
}

} // verus!
