//! Queues of buffers shared with a device.
//!
//! The driver's half (descriptors and available ring) is kept here as plain
//! values. The device's half is handed in as it was read.
use crate::platform::qemu_virt::virtio;
use vstd::arithmetic::power2::pow2;
use vstd::prelude::*;

verus! {

/// A buffer.
#[derive(Clone, Copy, PartialEq, Eq, Structural, Debug)]
pub struct VirtqDesc {
    /// Physical address.
    pub addr: u64,
    /// Length in bytes.
    pub len: u32,
    pub flags: u16,
    /// The next descriptor, where the flags say that there is one.
    pub next: u16,
}

/// The ring of chains that the driver offers.
pub struct VirtqAvail {
    pub flags: u16,
    /// Chains offered so far, modulo 2^16.
    pub idx: u16,
    pub ring: Vec<u16>,
}

/// The ring of chains that the device has used.
pub struct VirtqUsed {
    pub flags: u16,
    /// Chains used so far, modulo 2^16.
    pub idx: u16,
    pub ring: Vec<VirtqUsedElem>,
}

/// A used chain.
#[derive(Clone, Copy, PartialEq, Eq, Structural, Debug)]
pub struct VirtqUsedElem {
    /// Head of the chain.
    pub id: u32,
    /// Bytes that the device wrote.
    pub len: u32,
}

/// A queue.
pub struct Virtqueue {
    pub desc: Vec<VirtqDesc>,
    pub avail: VirtqAvail,
    /// Number of descriptors.
    pub num: u16,
    /// First free descriptor; each free one names the next.
    pub free_head: u16,
    /// Number of free descriptors.
    pub num_free: u16,
    /// Used chains taken so far, modulo 2^16.
    pub last_used_idx: u16,
    /// Physical address of the queue.
    pub phys_base: u64,
}

/// A queue, as contracts see it.
#[verifier::ext_equal]
pub struct QueueModel {
    pub desc: Seq<VirtqDesc>,
    pub free_head: u16,
    pub num_free: nat,
    pub avail_flags: u16,
    pub avail: Seq<u16>,
    pub avail_idx: u16,
    pub last_used_idx: u16,
    pub phys_base: u64,
}

/// The `n` descriptors that are chained from `head` on.
pub open spec fn free_list(desc: Seq<VirtqDesc>, head: u16, n: nat) -> Seq<u16>
    decreases n,
{
    if n == 0 {
        Seq::empty()
    } else {
        seq![head] + free_list(desc, desc[head as int].next, (n - 1) as nat)
    }
}

/// How many descriptors lead on to another.
pub open spec fn links(desc: Seq<VirtqDesc>) -> nat
    decreases desc.len(),
{
    if desc.len() == 0 {
        0
    } else {
        links(desc.drop_last()) + (desc.last().flags % 2) as nat
    }
}

/// A change to one descriptor changes the count of links by that descriptor's.
pub proof fn lemma_links(desc: Seq<VirtqDesc>, i: int, d: VirtqDesc)
    requires
        0 <= i < desc.len(),
    ensures
        links(desc.update(i, d)) == links(desc) - desc[i].flags % 2 + d.flags % 2,
    decreases desc.len(),
{
    let u = desc.update(i, d);
    if i == desc.len() - 1 {
        assert(u.drop_last() =~= desc.drop_last());
    } else {
        assert(u.drop_last() =~= desc.drop_last().update(i, d));
        lemma_links(desc.drop_last(), i, d);
    }
}

impl QueueModel {
    /// The free descriptors, first to be taken first.
    pub open spec fn free(self) -> Seq<u16> {
        free_list(self.desc, self.free_head, self.num_free)
    }

    /// No link leads out of the descriptor table.
    pub open spec fn wf(self) -> bool {
        &&& 0 < self.desc.len() <= u16::MAX
        &&& self.avail.len() == self.desc.len()
        &&& self.free_head < self.desc.len()
        &&& forall|i: int| 0 <= i < self.desc.len() ==> (#[trigger] self.desc[i]).next
            < self.desc.len()
    }

    /// The free list holds no descriptor twice. A chain that is freed while it is
    /// free already ends this.
    pub open spec fn orderly(self) -> bool {
        &&& self.wf()
        &&& self.num_free <= self.desc.len()
        &&& self.free().no_duplicates()
    }

    /// Descriptor `idx` is in use.
    pub open spec fn in_use(self, idx: u16) -> bool {
        idx < self.desc.len() && !self.free().contains(idx)
    }

    /// The first free descriptor was taken.
    pub open spec fn taken(self) -> QueueModel {
        QueueModel {
            free_head: self.desc[self.free_head as int].next,
            num_free: (self.num_free - 1) as nat,
            ..self
        }
    }

    /// Descriptor `idx` was cleared and became the first free one.
    pub open spec fn freed(self, idx: u16) -> QueueModel {
        QueueModel {
            desc: self.desc.update(
                idx as int,
                VirtqDesc { addr: 0, len: 0, flags: 0, next: self.free_head },
            ),
            free_head: idx,
            num_free: self.num_free + 1,
            ..self
        }
    }

    /// Descriptor `idx` was filled in.
    pub open spec fn with_desc(self, idx: u16, d: VirtqDesc) -> QueueModel {
        QueueModel { desc: self.desc.update(idx as int, d), ..self }
    }

    /// The chain from `idx` on was freed, descriptor by descriptor, whether they
    /// were in use or not. Past the table there is nothing to free.
    pub open spec fn released(self, idx: u16) -> QueueModel
        decreases links(self.desc),
    {
        if idx >= self.desc.len() {
            self
        } else if self.desc[idx as int].flags % 2 == 1 {
            proof {
                lemma_links(
                    self.desc,
                    idx as int,
                    VirtqDesc { addr: 0, len: 0, flags: 0, next: self.free_head },
                );
            }
            self.freed(idx).released(self.desc[idx as int].next)
        } else {
            self.freed(idx)
        }
    }

    /// The count of free descriptors stays in range when the next used chain is
    /// freed.
    pub open spec fn counts(self, used: VirtqUsed) -> bool {
        self.next_used(used) matches Some((head, _)) ==> self.looked(used).released(head).num_free
            <= u16::MAX
    }

    /// The chain with head `idx` was offered to the device.
    pub open spec fn offered(self, idx: u16) -> QueueModel {
        QueueModel {
            avail: self.avail.update(self.avail_idx as int % self.desc.len() as int, idx),
            avail_idx: ((self.avail_idx + 1) % 0x1_0000) as u16,
            ..self
        }
    }

    /// The next used chain, where the device has used one that was not taken yet.
    pub open spec fn next_used(self, used: VirtqUsed) -> Option<(u16, u32)> {
        if self.last_used_idx == used.idx {
            None
        } else {
            let e = used.ring@[self.last_used_idx as int % self.desc.len() as int];
            Some(((e.id % 0x1_0000) as u16, e.len))
        }
    }

    /// Used chains that were not taken yet.
    pub open spec fn pending(self, used: VirtqUsed) -> int {
        if used.idx >= self.last_used_idx {
            used.idx - self.last_used_idx
        } else {
            used.idx - self.last_used_idx + 0x1_0000
        }
    }

    /// Where the used ring names the chain that comes `k` after the next one.
    pub open spec fn slot(self, k: int) -> int {
        (self.last_used_idx + k) % 0x1_0000 % self.desc.len() as int
    }

    /// Every used chain that was not taken yet has its head below `n`.
    pub open spec fn pending_below(self, used: VirtqUsed, n: int) -> bool {
        forall|k: int|
            0 <= k < self.pending(used) ==> used.ring@[#[trigger] self.slot(k)].id % 0x1_0000 < n
    }

    /// The queue after a look for a used chain.
    pub open spec fn looked(self, used: VirtqUsed) -> QueueModel {
        if self.last_used_idx == used.idx {
            self
        } else {
            QueueModel { last_used_idx: ((self.last_used_idx + 1) % 0x1_0000) as u16, ..self }
        }
    }
}

/// The next used chain is one of those that were not taken yet, and the others are
/// those that are left after it.
pub proof fn law_next_is_pending(q: QueueModel, used: VirtqUsed, n: int, after: QueueModel)
    requires
        q.pending_below(used, n),
        q.next_used(used) is Some,
        after.last_used_idx == q.looked(used).last_used_idx,
        after.desc.len() == q.desc.len(),
    ensures
        (q.next_used(used)->0).0 < n,
        after.pending_below(used, n),
        after.pending(used) == q.pending(used) - 1,
{
    assert(q.slot(0) == q.last_used_idx as int % q.desc.len() as int);
    assert forall|k: int| 0 <= k < after.pending(used) implies used.ring@[#[trigger] after.slot(k)].id
        % 0x1_0000 < n by {
        assert(after.slot(k) == q.slot(k + 1));
    }
}

/// Chains are offered in the order of their pushes: each goes into the next slot of the ring,
/// after the last slot into the first, and the index counts them. Every other slot stays.
pub proof fn law_offers_stand_in_order(q: QueueModel, a: u16, b: u16)
    requires
        q.wf(),
    ensures
        ({
            let n = q.desc.len() as int;
            let p = q.offered(a);
            let r = p.offered(b);
            let i = q.avail_idx as int % n;
            let j = (q.avail_idx + 1) % 0x1_0000 % n;
            &&& p.avail[i] == a
            &&& p.avail_idx == (q.avail_idx + 1) % 0x1_0000
            &&& r.avail[j] == b
            &&& i != j ==> r.avail[i] == a
            &&& r.avail_idx == (q.avail_idx + 2) % 0x1_0000
            &&& forall|k: int| 0 <= k < n && k != i && k != j ==> #[trigger] r.avail[k] == q.avail[k]
            &&& r == (QueueModel { avail: r.avail, avail_idx: r.avail_idx, ..q })
        }),
{
    let n = q.desc.len() as int;
    assert(0 <= q.avail_idx as int % n < n);
    assert(0 <= (q.avail_idx + 1) % 0x1_0000 % n < n);
}

/// Used chains are taken in the order in which the device has used them: each look takes the
/// entry behind the last one, as long as the device's index is ahead, and a look at a ring in
/// which nothing is new changes nothing.
pub proof fn law_used_are_taken_in_order(q: QueueModel, used: VirtqUsed)
    requires
        q.wf(),
        used.ring@.len() == q.desc.len(),
    ensures
        ({
            let n = q.desc.len() as int;
            let p = q.looked(used);
            let i = q.last_used_idx as int % n;
            let j = (q.last_used_idx + 1) % 0x1_0000 % n;
            &&& used.idx == q.last_used_idx ==> q.next_used(used) is None && p == q
            &&& used.idx != q.last_used_idx ==> q.next_used(used) == Some(
                ((used.ring@[i].id % 0x1_0000) as u16, used.ring@[i].len),
            ) && p.last_used_idx == (q.last_used_idx + 1) % 0x1_0000
            &&& used.idx != q.last_used_idx && used.idx == (q.last_used_idx + 1) % 0x1_0000
                ==> p.next_used(used) is None
            &&& used.idx != q.last_used_idx && used.idx != (q.last_used_idx + 1) % 0x1_0000
                ==> p.next_used(used) == Some(
                ((used.ring@[j].id % 0x1_0000) as u16, used.ring@[j].len),
            )
            &&& p == (QueueModel { last_used_idx: p.last_used_idx, ..q })
        }),
{
}

/// A queue of `num` descriptors, all free.
pub open spec fn fresh(num: u16, phys_base: u64) -> QueueModel {
    QueueModel {
        desc: Seq::new(
            num as nat,
            |i: int|
                VirtqDesc {
                    addr: 0,
                    len: 0,
                    flags: 0,
                    next: if i + 1 < num {
                        (i + 1) as u16
                    } else {
                        0
                    },
                },
        ),
        free_head: 0,
        num_free: num as nat,
        avail_flags: 0,
        avail: Seq::new(num as nat, |i: int| 0u16),
        avail_idx: 0,
        last_used_idx: 0,
        phys_base,
    }
}

/// Where no link leads out of the table, no free descriptor lies outside it.
proof fn lemma_free_list_inside(desc: Seq<VirtqDesc>, head: u16, n: nat)
    requires
        head < desc.len(),
        forall|i: int| 0 <= i < desc.len() ==> (#[trigger] desc[i]).next < desc.len(),
    ensures
        forall|i: int|
            0 <= i < free_list(desc, head, n).len() ==> (#[trigger] free_list(desc, head, n)[i])
                < desc.len(),
    decreases n,
{
    if n > 0 {
        let s = free_list(desc, head, n);
        let rest = free_list(desc, desc[head as int].next, (n - 1) as nat);
        lemma_free_list_inside(desc, desc[head as int].next, (n - 1) as nat);
        assert forall|i: int| 0 <= i < s.len() implies (#[trigger] s[i]) < desc.len() by {
            if i > 0 {
                assert(s[i] == rest[i - 1]);
            }
        }
    }
}

/// A change to a descriptor that is not free leaves the free list alone.
proof fn lemma_free_list_kept(desc: Seq<VirtqDesc>, head: u16, n: nat, idx: u16, d: VirtqDesc)
    requires
        !free_list(desc, head, n).contains(idx),
        idx < desc.len(),
        head < desc.len(),
        forall|i: int| 0 <= i < desc.len() ==> (#[trigger] desc[i]).next < desc.len(),
    ensures
        free_list(desc.update(idx as int, d), head, n) == free_list(desc, head, n),
    decreases n,
{
    if n > 0 {
        let s = free_list(desc, head, n);
        let rest = free_list(desc, desc[head as int].next, (n - 1) as nat);
        assert(s[0] == head);
        assert(head != idx);
        assert(!rest.contains(idx)) by {
            if rest.contains(idx) {
                let i = rest.index_of(idx);
                assert(s[i + 1] == idx);
            }
        }
        lemma_free_list_kept(desc, desc[head as int].next, (n - 1) as nat, idx, d);
    }
}

/// The free list has as many entries as are counted.
proof fn lemma_free_list_len(desc: Seq<VirtqDesc>, head: u16, n: nat)
    ensures
        free_list(desc, head, n).len() == n,
    decreases n,
{
    if n > 0 {
        lemma_free_list_len(desc, desc[head as int].next, (n - 1) as nat);
    }
}

/// Where a descriptor is in use, not all are free.
proof fn lemma_room(s: Seq<u16>, n: nat, idx: u16)
    requires
        s.no_duplicates(),
        forall|i: int| 0 <= i < s.len() ==> (#[trigger] s[i]) < n,
        idx < n,
        !s.contains(idx),
    ensures
        s.len() < n,
{
    let t = s.push(idx).map_values(|x: u16| x as int);
    assert(t.no_duplicates()) by {
        assert forall|i: int, j: int| 0 <= i < t.len() && 0 <= j < t.len() && i != j implies t[i]
            != t[j] by {
            if i == s.len() {
                assert(s.contains(s[j]));
            } else if j == s.len() {
                assert(s.contains(s[i]));
            }
        }
    }
    t.unique_seq_to_set();
    vstd::set_lib::lemma_int_range(0, n as int);
    assert(t.to_set().subset_of(vstd::set_lib::set_int_range(0, n as int)));
    vstd::set_lib::lemma_len_subset(t.to_set(), vstd::set_lib::set_int_range(0, n as int));
}

/// Taking a descriptor keeps the free list in order and hands out one that was
/// free.
pub proof fn law_take(q: QueueModel)
    requires
        q.orderly(),
        q.num_free > 0,
    ensures
        q.free().len() == q.num_free,
        q.free()[0] == q.free_head,
        q.taken().orderly(),
        q.taken().free() == q.free().skip(1),
        q.taken().in_use(q.free_head),
{
    lemma_free_list_len(q.desc, q.free_head, q.num_free);
    let s = q.free();
    let rest = q.taken().free();
    assert(s == seq![q.free_head] + rest);
    assert(s[0] == q.free_head);
    assert(rest =~= s.skip(1));
    assert forall|i: int, j: int| 0 <= i < rest.len() && 0 <= j < rest.len() && i != j implies rest[i]
        != rest[j] by {
        assert(rest[i] == s[i + 1]);
        assert(rest[j] == s[j + 1]);
    }
    if rest.contains(q.free_head) {
        let i = rest.index_of(q.free_head);
        assert(s[i + 1] == s[0]);
    }
}

/// Freeing a descriptor that is in use keeps the free list in order, and the
/// descriptor is the next to be handed out.
pub proof fn law_free(q: QueueModel, idx: u16)
    requires
        q.orderly(),
        q.in_use(idx),
    ensures
        q.num_free < q.desc.len(),
        q.freed(idx).orderly(),
        q.freed(idx).free() == seq![idx] + q.free(),
{
    lemma_free_list_len(q.desc, q.free_head, q.num_free);
    lemma_free_list_inside(q.desc, q.free_head, q.num_free);
    lemma_room(q.free(), q.desc.len(), idx);
    let d = VirtqDesc { addr: 0, len: 0, flags: 0, next: q.free_head };
    lemma_free_list_kept(q.desc, q.free_head, q.num_free, idx, d);
    let s = q.free();
    let t = q.freed(idx).free();
    assert(q.freed(idx).desc[idx as int] == d);
    assert(t =~= seq![idx] + s);
    assert forall|i: int, j: int| 0 <= i < t.len() && 0 <= j < t.len() && i != j implies t[i]
        != t[j] by {
        if i == 0 {
            assert(t[j] == s[j - 1]);
            assert(s.contains(s[j - 1]));
        } else if j == 0 {
            assert(t[i] == s[i - 1]);
            assert(s.contains(s[i - 1]));
        } else {
            assert(t[i] == s[i - 1]);
            assert(t[j] == s[j - 1]);
        }
    }
}

/// A descriptor that is freed while it is free is counted once more, though the
/// free list holds nothing new: it runs in a circle from then on.
pub proof fn law_freed_again(q: QueueModel, idx: u16)
    requires
        q.orderly(),
        idx < q.desc.len(),
        !q.in_use(idx),
    ensures
        q.freed(idx).wf(),
        q.freed(idx).num_free == q.num_free + 1,
        !q.freed(idx).orderly(),
        forall|x: u16| q.freed(idx).free().contains(x) ==> #[trigger] q.free().contains(x),
{
    let s = q.free();
    let f = q.freed(idx);
    let k = s.index_of(idx);
    lemma_free_list_len(q.desc, q.free_head, q.num_free);
    lemma_circle(q, idx, k, q.free_head, q.num_free, 0);
    let t = free_list(f.desc, q.free_head, q.num_free);
    lemma_free_list_len(f.desc, q.free_head, q.num_free);
    assert(f.free() == seq![idx] + t);
    assert(t[k] == s[k]);
    assert(f.free()[0] == f.free()[k + 1]);
    assert forall|x: u16| f.free().contains(x) implies #[trigger] s.contains(x) by {
        let i = f.free().index_of(x);
        if i > 0 {
            assert(f.free()[i] == t[i - 1]);
            assert(s.contains(t[i - 1]));
        } else {
            assert(s[k] == x);
        }
    }
}

/// The walk through a free list of which entry `k`, descriptor `idx`, was freed
/// again: with `n` steps left, at entry `at`.
proof fn lemma_circle(q: QueueModel, idx: u16, k: int, head: u16, n: nat, at: int)
    requires
        q.orderly(),
        idx < q.desc.len(),
        q.free().len() == q.num_free,
        0 <= k < q.num_free,
        q.free()[k] == idx,
        0 <= at <= k,
        q.free()[at] == head,
    ensures
        ({
            let t = free_list(q.freed(idx).desc, head, n);
            &&& forall|i: int| 0 <= i < t.len() ==> q.free().contains(#[trigger] t[i])
            &&& forall|i: int| 0 <= i < t.len() && at + i <= k ==> #[trigger] t[i] == q.free()[at + i]
        }),
    decreases n,
{
    if n > 0 {
        let f = q.freed(idx);
        let t = free_list(f.desc, head, n);
        let next = f.desc[head as int].next;
        lemma_entry(q.desc, q.free_head, q.num_free, at);
        lemma_free_list_inside(q.desc, q.free_head, q.num_free);
        if at == k {
            assert(q.free()[0] == q.free_head);
            lemma_circle(q, idx, k, next, (n - 1) as nat, 0);
        } else {
            assert(head != idx);
            lemma_entry(q.desc, q.free_head, q.num_free, at + 1);
            lemma_circle(q, idx, k, next, (n - 1) as nat, at + 1);
        }
        let rest = free_list(f.desc, next, (n - 1) as nat);
        assert(t == seq![head] + rest);
        assert forall|i: int| 0 <= i < t.len() implies q.free().contains(#[trigger] t[i]) by {
            if i > 0 {
                assert(t[i] == rest[i - 1]);
            }
        }
        assert forall|i: int| 0 <= i < t.len() && at + i <= k implies #[trigger] t[i]
            == q.free()[at + i] by {
            if i > 0 {
                assert(t[i] == rest[i - 1]);
            }
        }
    }
}

/// Each entry of the free list but the first is what the one before leads to.
proof fn lemma_entry(desc: Seq<VirtqDesc>, head: u16, n: nat, i: int)
    requires
        0 <= i < n,
    ensures
        free_list(desc, head, n).len() == n,
        free_list(desc, head, n)[0] == head,
        i > 0 ==> free_list(desc, head, n)[i] == desc[free_list(desc, head, n)[i - 1] as int].next,
    decreases n,
{
    lemma_free_list_len(desc, head, n);
    let next = desc[head as int].next;
    let rest = free_list(desc, next, (n - 1) as nat);
    assert(free_list(desc, head, n) == seq![head] + rest);
    if i > 0 {
        lemma_entry(desc, next, (n - 1) as nat, i - 1);
    }
}

/// Filling in a descriptor that is in use touches no free one.
pub proof fn law_fill(q: QueueModel, idx: u16, d: VirtqDesc)
    requires
        q.orderly(),
        q.in_use(idx),
        d.next < q.desc.len(),
    ensures
        q.with_desc(idx, d).orderly(),
        q.with_desc(idx, d).free() == q.free(),
{
    lemma_free_list_kept(q.desc, q.free_head, q.num_free, idx, d);
}

/// Freeing a chain leads no link out of the table, counts at least one more free
/// descriptor and at most one more than links go, and leaves the rings alone.
pub proof fn law_release(q: QueueModel, idx: u16)
    ensures
        q.wf() ==> q.released(idx).wf(),
        q.released(idx).num_free + links(q.released(idx).desc) <= q.num_free + links(q.desc) + 1,
        idx < q.desc.len() ==> q.num_free < q.released(idx).num_free,
        q.released(idx).desc.len() == q.desc.len(),
        q.released(idx).avail_flags == q.avail_flags,
        q.released(idx).avail == q.avail,
        q.released(idx).avail_idx == q.avail_idx,
        q.released(idx).last_used_idx == q.last_used_idx,
        q.released(idx).phys_base == q.phys_base,
    decreases links(q.desc),
{
    if idx < q.desc.len() {
        lemma_links(
            q.desc,
            idx as int,
            VirtqDesc { addr: 0, len: 0, flags: 0, next: q.free_head },
        );
        if q.desc[idx as int].flags % 2 == 1 {
            law_release(q.freed(idx), q.desc[idx as int].next);
        }
    }
}

/// The descriptors of a chain: each but the last leads on to the next, and none
/// of them is free or occurs twice.
pub open spec fn is_chain(q: QueueModel, chain: Seq<u16>) -> bool {
    &&& chain.len() > 0
    &&& chain.no_duplicates()
    &&& forall|i: int| 0 <= i < chain.len() ==> q.in_use(#[trigger] chain[i])
    &&& forall|i: int|
        0 <= i < chain.len() - 1 ==> q.desc[(#[trigger] chain[i]) as int].flags % 2 == 1
            && q.desc[chain[i] as int].next == chain[i + 1]
    &&& q.desc[chain.last() as int].flags % 2 == 0
}

/// Freeing a chain frees all of its descriptors and no others; the last is the
/// first to be handed out again.
pub proof fn law_chain_is_released(q: QueueModel, chain: Seq<u16>)
    requires
        q.orderly(),
        is_chain(q, chain),
    ensures
        q.released(chain[0]).orderly(),
        q.released(chain[0]).free() == chain.reverse() + q.free(),
        q.released(chain[0]).num_free == q.num_free + chain.len(),
    decreases chain.len(),
{
    let idx = chain[0];
    law_free(q, idx);
    let f = q.freed(idx);
    if chain.len() > 1 {
        let rest = chain.skip(1);
        assert(q.desc[idx as int].flags % 2 == 1 && q.desc[idx as int].next == chain[1]);
        assert forall|i: int| 0 <= i < rest.len() implies f.in_use(#[trigger] rest[i]) by {
            assert(rest[i] == chain[i + 1]);
            assert(chain[i + 1] != idx);
            if f.free().contains(rest[i]) {
                let k = f.free().index_of(rest[i]);
                assert(k > 0);
                assert(q.free()[k - 1] == rest[i]);
            }
        }
        assert forall|i: int| 0 <= i < rest.len() - 1 implies f.desc[(#[trigger] rest[i]) as int].flags
            % 2 == 1 && f.desc[rest[i] as int].next == rest[i + 1] by {
            assert(rest[i] == chain[i + 1]);
            assert(chain[i + 1] != idx);
        }
        assert(rest.last() == chain.last() && chain.last() != idx);
        assert(rest.no_duplicates());
        assert(is_chain(f, rest));
        law_chain_is_released(f, rest);
        assert(rest[0] == chain[1]);
        assert(rest.reverse() + f.free() =~= chain.reverse() + q.free());
    } else {
        assert(chain.reverse() =~= seq![idx]);
    }
}

/// The offset of the used ring: the first page boundary after descriptors and
/// available ring.
pub open spec fn used_offset(num: int, page_size: int) -> int {
    (18 * num + 6 + page_size - 1) / page_size * page_size
}

/// Clearing the low bits rounds down to a multiple of a power of two.
proof fn lemma_masked(x: usize, k: nat, low: usize)
    requires
        low + 1 == pow2(k),
        low < usize::MAX,
    ensures
        (x & !low) == pow2(k) as int * (x as int / pow2(k) as int),
{
    assert((x & !low) + (x & low) == x) by (bit_vector);
    if k >= usize::BITS {
        vstd::arithmetic::power2::lemma2_to64();
        vstd::arithmetic::power2::lemma2_to64_rest();
        if k > usize::BITS {
            vstd::arithmetic::power2::lemma_pow2_strictly_increases(usize::BITS as nat, k);
        }
    }
    vstd::bits::lemma_usize_low_bits_mask_is_mod(x, k);
    vstd::arithmetic::div_mod::lemma_fundamental_div_mod(x as int, pow2(k) as int);
}

impl View for Virtqueue {
    type V = QueueModel;

    open spec fn view(&self) -> QueueModel {
        QueueModel {
            desc: self.desc@,
            free_head: self.free_head,
            num_free: self.num_free as nat,
            avail_flags: self.avail.flags,
            avail: self.avail.ring@,
            avail_idx: self.avail.idx,
            last_used_idx: self.last_used_idx,
            phys_base: self.phys_base,
        }
    }
}

impl Virtqueue {
    /// The count of descriptors is right, and no link leads out of the table.
    pub open spec fn wf(&self) -> bool {
        self.num == self.desc@.len() && self@.wf()
    }

    /// Bytes that a queue of `num` descriptors takes. With a page size that is a
    /// power of two the used ring starts on the first page boundary after the
    /// rest.
    pub fn size_bytes(num: usize, page_size: usize) -> (r: usize)
        requires
            page_size > 0,
            18 * num + 6 + page_size <= usize::MAX,
            ((18 * num + 6 + page_size - 1) as usize & !((page_size - 1) as usize)) + 6 + 8 * num
                <= usize::MAX,
        ensures
            r == ((18 * num + 6 + page_size - 1) as usize & !((page_size - 1) as usize)) + 6 + 8
                * num,
            forall|k: nat|
                page_size == #[trigger] pow2(k) ==> r == used_offset(num as int, page_size as int)
                    + 6 + 8 * num,
    {
        let end: usize = 16 * num + 6 + 2 * num + page_size - 1;
        let low: usize = page_size - 1;
        assert(end & !low <= end && (end & !low) + (end & low) == end) by (bit_vector);
        proof {
            assert forall|k: nat| page_size == #[trigger] pow2(k) implies (end & !low)
                == used_offset(num as int, page_size as int) by {
                lemma_masked(end, k, low);
                assert(end as int / pow2(k) as int * pow2(k) as int == pow2(k) as int * (end as int
                    / pow2(k) as int)) by (nonlinear_arith);
            }
        }
        (end & !low) + 6 + 8 * num
    }

    /// A queue of `num` descriptors at address `buf_pa`.
    pub fn init(buf_pa: u64, num: u16) -> (r: Virtqueue)
        requires
            0 < num,
        ensures
            r.wf(),
            r@.orderly(),
            r@ == fresh(num, buf_pa),
    {
        let mut desc: Vec<VirtqDesc> = Vec::new();
        let mut ring: Vec<u16> = Vec::new();
        let mut i: u16 = 0;
        while i < num
            invariant
                i <= num,
                desc@ == fresh(num, buf_pa).desc.take(i as int),
                ring@ == fresh(num, buf_pa).avail.take(i as int),
            decreases num - i,
        {
            let next: u16 = if i < num - 1 {
                i + 1
            } else {
                0
            };
            desc.push(VirtqDesc { addr: 0, len: 0, flags: 0, next });
            ring.push(0);
            proof {
                let f = fresh(num, buf_pa);
                assert(f.desc.take(i + 1) =~= f.desc.take(i as int).push(f.desc[i as int]));
                assert(f.avail.take(i + 1) =~= f.avail.take(i as int).push(f.avail[i as int]));
            }
            i = i + 1;
        }
        let r: Virtqueue = Virtqueue {
            desc,
            avail: VirtqAvail { flags: 0, idx: 0, ring },
            num,
            free_head: 0,
            num_free: num,
            last_used_idx: 0,
            phys_base: buf_pa,
        };
        proof {
            let f = fresh(num, buf_pa);
            assert(r@ =~= f);
            law_fresh_queue(num, buf_pa);
        }
        r
    }

    /// Takes a free descriptor.
    pub fn alloc_desc(&mut self) -> (r: Option<u16>)
        requires
            old(self).wf(),
        ensures
            final(self).wf(),
            final(self).num == old(self).num,
            match r {
                Some(i) => old(self)@.num_free > 0 && i == old(self)@.free_head && final(self)@
                    == old(self)@.taken(),
                None => old(self)@.num_free == 0 && final(self)@ == old(self)@,
            },
    {
        if self.num_free == 0 {
            return None;
        }
        let idx: u16 = self.free_head;
        self.free_head = self.desc[idx as usize].next;
        self.num_free = self.num_free - 1;
        assert(self@ =~= old(self)@.taken());
        Some(idx)
    }

    /// Gives a descriptor back.
    pub fn free_desc(&mut self, idx: u16)
        requires
            old(self).wf(),
            idx < old(self).num,
            old(self).num_free < u16::MAX,
        ensures
            final(self).wf(),
            final(self).num == old(self).num,
            final(self)@ == old(self)@.freed(idx),
    {
        self.desc.set(
            idx as usize,
            VirtqDesc { addr: 0, len: 0, flags: 0, next: self.free_head },
        );
        self.free_head = idx;
        self.num_free = self.num_free + 1;
        assert(self@ =~= old(self)@.freed(idx));
    }

    /// Fills a descriptor in.
    pub fn set_desc(&mut self, idx: u16, d: VirtqDesc)
        requires
            old(self).wf(),
            idx < old(self).num,
            d.next < old(self).num,
        ensures
            final(self).wf(),
            final(self).num == old(self).num,
            final(self)@ == old(self)@.with_desc(idx, d),
    {
        self.desc.set(idx as usize, d);
        assert(self@ =~= old(self)@.with_desc(idx, d));
    }

    /// Gives the chain from `head` on back, whether its descriptors are in use or
    /// not. A head past the table gives nothing back.
    pub fn free_chain(&mut self, head: u16)
        requires
            old(self).wf(),
            old(self)@.released(head).num_free <= u16::MAX,
        ensures
            final(self).wf(),
            final(self).num == old(self).num,
            final(self)@ == old(self)@.released(head),
    {
        if head >= self.num {
            return;
        }
        let mut idx: u16 = head;
        loop
            invariant
                self.wf(),
                self.num == old(self).num,
                idx < self.num,
                self@.released(idx) == old(self)@.released(head),
                old(self)@.released(head).num_free <= u16::MAX,
            decreases links(self.desc@),
        {
            proof {
                law_release(self@, idx);
                lemma_links(
                    self.desc@,
                    idx as int,
                    VirtqDesc { addr: 0, len: 0, flags: 0, next: self.free_head },
                );
            }
            let has_next: bool = self.desc[idx as usize].flags % 2 == 1;
            let next: u16 = self.desc[idx as usize].next;
            self.free_desc(idx);
            if !has_next {
                return;
            }
            idx = next;
        }
    }

    /// Offers a chain to the device.
    pub fn push_avail(&mut self, desc_idx: u16)
        requires
            old(self).wf(),
        ensures
            final(self).wf(),
            final(self).num == old(self).num,
            final(self)@ == old(self)@.offered(desc_idx),
    {
        let slot: usize = self.avail.idx as usize % self.num as usize;
        self.avail.ring.set(slot, desc_idx);
        self.avail.idx = self.avail.idx.wrapping_add(1);
        assert(self@ =~= old(self)@.offered(desc_idx));
    }

    /// Takes the next chain that the device has used: its head, and the bytes
    /// that the device wrote.
    pub fn pop_used(&mut self, used: &VirtqUsed) -> (r: Option<(u16, u32)>)
        requires
            old(self).wf(),
            used.ring@.len() == old(self).num,
        ensures
            final(self).wf(),
            final(self).num == old(self).num,
            r == old(self)@.next_used(*used),
            final(self)@ == old(self)@.looked(*used),
    {
        if self.last_used_idx == used.idx {
            return None;
        }
        let slot: usize = self.last_used_idx as usize % self.num as usize;
        let e: VirtqUsedElem = used.ring[slot];
        self.last_used_idx = self.last_used_idx.wrapping_add(1);
        assert(self@ =~= old(self)@.looked(*used));
        Some(((e.id % 0x1_0000) as u16, e.len))
    }
}

/// In a fresh queue the descriptors are handed out in order.
proof fn lemma_fresh_list(num: u16, phys_base: u64, from: u16)
    requires
        from < num,
    ensures
        ({
            let s = free_list(fresh(num, phys_base).desc, from, (num - from) as nat);
            &&& s.len() == num - from
            &&& forall|i: int| 0 <= i < s.len() ==> #[trigger] s[i] == from + i
        }),
    decreases num - from,
{
    if from + 1 < num {
        lemma_fresh_list(num, phys_base, (from + 1) as u16);
    } else {
        assert(free_list(fresh(num, phys_base).desc, 0, 0).len() == 0);
    }
}

/// In a fresh queue all descriptors are free, and handed out in order.
pub proof fn law_fresh_queue(num: u16, phys_base: u64)
    requires
        0 < num,
    ensures
        fresh(num, phys_base).orderly(),
        fresh(num, phys_base).free() == Seq::new(num as nat, |i: int| i as u16),
{
    lemma_fresh_list(num, phys_base, 0);
    assert(fresh(num, phys_base).free() =~= Seq::new(num as nat, |i: int| i as u16));
}

/// A buffer of `len` bytes at `pa` that the device writes.
pub open spec fn writable(pa: u64, len: u32) -> VirtqDesc {
    VirtqDesc { addr: pa, len, flags: virtio::VIRTQ_DESC_F_WRITE, next: 0 }
}

/// The queue after the first `k` of some buffers were offered for writing.
pub open spec fn stocked(q: QueueModel, bufs: Seq<u64>, len: u32, k: nat) -> QueueModel
    decreases k,
{
    if k == 0 {
        q
    } else {
        let p = stocked(q, bufs, len, (k - 1) as nat);
        p.taken().with_desc(p.free_head, writable(bufs[k - 1], len)).offered(p.free_head)
    }
}

/// Stocking a fresh queue takes its descriptors in order.
proof fn lemma_stocked(num: u16, pa: u64, bufs: Seq<u64>, len: u32, k: nat)
    requires
        0 < num,
        k <= num,
    ensures
        ({
            let s = stocked(fresh(num, pa), bufs, len, k);
            &&& s.orderly()
            &&& s.desc.len() == num
            &&& s.num_free == num - k
            &&& s.free() == fresh(num, pa).free().skip(k as int)
            &&& k < num ==> s.free_head == k
            &&& s.avail_idx == k
            &&& s.avail_flags == 0
            &&& forall|i: int| 0 <= i < k ==> #[trigger] s.avail[i] == i
            &&& forall|i: int| 0 <= i < k ==> #[trigger] s.desc[i] == writable(bufs[i], len)
        }),
    decreases k,
{
    let f = fresh(num, pa);
    law_fresh_queue(num, pa);
    if k == 0 {
        assert(f.free().skip(0) =~= f.free());
    } else {
        let j = (k - 1) as nat;
        lemma_stocked(num, pa, bufs, len, j);
        let p = stocked(f, bufs, len, j);
        law_take(p);
        let t = p.taken();
        assert(t.free() =~= f.free().skip(k as int));
        law_fill(t, p.free_head, writable(bufs[j as int], len));
        let w = t.with_desc(p.free_head, writable(bufs[j as int], len));
        let s = w.offered(p.free_head);
        assert(s.free() == w.free());
        assert(s.avail_idx == k);
        assert(j as int % num as int == j) by {
            vstd::arithmetic::div_mod::lemma_small_mod(j, num as nat);
        }
        if k < num {
            law_take(s);
            assert(s.free()[0] == f.free().skip(k as int)[0]);
        }
        assert forall|i: int| 0 <= i < k implies #[trigger] s.avail[i] == i by {
            if i < j {
                assert(p.avail[i] == i);
            }
        }
        assert forall|i: int| 0 <= i < k implies #[trigger] s.desc[i] == writable(bufs[i], len) by {
            if i < j {
                assert(p.desc[i] == writable(bufs[i], len));
            }
        }
    }
}

/// A fresh queue that was stocked offers every buffer once, descriptor `i` for
/// buffer `i`.
pub proof fn law_every_buffer_is_offered(num: u16, pa: u64, bufs: Seq<u64>, len: u32)
    requires
        0 < num,
        bufs.len() == num,
    ensures
        ({
            let s = stocked(fresh(num, pa), bufs, len, num as nat);
            &&& s.orderly()
            &&& s.num_free == 0
            &&& s.avail_flags == 0
            &&& s.avail_idx == num
            &&& s.avail == Seq::new(num as nat, |i: int| i as u16)
            &&& s.desc == bufs.map_values(|b: u64| writable(b, len))
        }),
{
    lemma_stocked(num, pa, bufs, len, num as nat);
    let s = stocked(fresh(num, pa), bufs, len, num as nat);
    assert(s.avail =~= Seq::new(num as nat, |i: int| i as u16));
    assert(s.desc =~= bufs.map_values(|b: u64| writable(b, len)));
}

impl Virtqueue {
    /// Offers every one of `bufs`, of `len` bytes each, to the device for writing;
    /// the buffer of each descriptor.
    pub fn stock(&mut self, bufs: &Vec<u64>, len: u32) -> (r: Vec<usize>)
        requires
            old(self).wf(),
            bufs@.len() == old(self).num,
            old(self)@ == fresh(old(self).num, old(self)@.phys_base),
        ensures
            final(self).wf(),
            final(self).num == old(self).num,
            final(self)@ == stocked(old(self)@, bufs@, len, old(self).num as nat),
            final(self)@.orderly(),
            final(self)@.num_free == 0,
            r@ == Seq::new(old(self).num as nat, |j: int| j as usize),
    {
        let ghost q0 = self@;
        let ghost pa = self@.phys_base;
        let num: u16 = self.num;
        let mut map: Vec<usize> = Vec::new();
        let mut z: u16 = 0;
        while z < num
            invariant
                z <= num,
                map@.len() == z,
            decreases num - z,
        {
            map.push(0);
            z = z + 1;
        }
        let mut i: u16 = 0;
        while i < num
            invariant
                i <= num,
                0 < num,
                bufs@.len() == num,
                map@.len() == num,
                self.wf(),
                self.num == num,
                q0 == fresh(num, pa),
                self@ == stocked(q0, bufs@, len, i as nat),
                forall|j: int| 0 <= j < i ==> #[trigger] map@[j] == j,
            decreases num - i,
        {
            proof {
                lemma_stocked(num, pa, bufs@, len, i as nat);
                law_take(self@);
            }
            if let Some(d) = self.alloc_desc() {
                self.set_desc(
                    d,
                    VirtqDesc {
                        addr: bufs[i as usize],
                        len,
                        flags: virtio::VIRTQ_DESC_F_WRITE,
                        next: 0,
                    },
                );
                map.set(d as usize, i as usize);
                self.push_avail(d);
            }
            i = i + 1;
        }
        proof {
            lemma_stocked(num, pa, bufs@, len, num as nat);
            assert(map@ =~= Seq::new(num as nat, |j: int| j as usize));
        }
        map
    }
}

} // verus!
