//! What the card does with the accesses of the driver: a card as an array of blocks, and
//! what reading and writing through the host controller's registers means to it.
use crate::mmio;
use crate::mmio::Access;
use crate::sdhci;
use crate::sdhci::{Cid, HostError, HostResponse, InitStep, ResponseType, SdCommand};
use vstd::arithmetic::power2::pow2;
use vstd::prelude::*;

verus! {

/// A card with 512-byte blocks behind a host controller: the blocks, the words in the
/// controller's registers for block size and count (0x04), argument (0x08) and transfer
/// mode (0x0C), the command under way with its own register, and the words that went
/// through the data port since.
pub struct Card {
    pub blocks: Map<u32, Seq<u8>>,
    pub sizes: u32,
    pub arg: u32,
    pub mode: u32,
    pub command: u32,
    pub moved: Seq<u32>,
}

impl Card {
    /// The number of the command under way, in bits 8 to 13 of the command register.
    pub open spec fn doing(self) -> int {
        self.command as int / 256 % 64
    }

    /// The transfer is one block of 512 bytes, and the command has data (bit 5).
    pub open spec fn one_block(self) -> bool {
        self.sizes as int % 65536 == 512 && self.sizes as int / 65536 == 1 && self.command as int
            / 32 % 2 == 1
    }

    /// A block is being read: CMD17, with the direction bit (4) of the transfer mode set.
    pub open spec fn reading(self) -> bool {
        self.one_block() && self.doing() == 17 && self.mode as int / 16 % 2 == 1
    }

    /// A block is being written: CMD24, with the direction bit clear.
    pub open spec fn writing(self) -> bool {
        self.one_block() && self.doing() == 24 && self.mode as int / 16 % 2 == 0
    }
}

/// The bytes of 128 words, least significant first.
pub open spec fn block_of(words: Seq<u32>) -> Seq<u8> {
    Seq::new(
        512,
        |k: int|
            (if k % 4 == 0 {
                words[k / 4] as int % 256
            } else if k % 4 == 1 {
                words[k / 4] as int / 256 % 256
            } else if k % 4 == 2 {
                words[k / 4] as int / 65536 % 256
            } else {
                words[k / 4] as int / 16777216 % 256
            }) as u8,
    )
}

/// What one access does to the card. Writing the register at 0x0C sets the transfer mode in
/// its lower half and issues the command in its upper half. The data port (0x20) moves one
/// word of the block whose number is the argument; a write takes effect with its last word.
pub open spec fn step(c: Card, a: Access) -> Card {
    match a {
        Access::Write(off, v) => if off == 0x04 {
            Card { sizes: v, ..c }
        } else if off == 0x08 {
            Card { arg: v, ..c }
        } else if off == 0x0C {
            Card { mode: v % 65536, command: v / 65536, moved: Seq::empty(), ..c }
        } else if off == 0x20 && c.writing() && c.moved.len() < 128 {
            let words = c.moved.push(v);
            Card {
                moved: words,
                blocks: if words.len() == 128 {
                    c.blocks.insert(c.arg, block_of(words))
                } else {
                    c.blocks
                },
                ..c
            }
        } else {
            c
        },
        Access::Read(off, v) => if off == 0x20 && c.reading() && c.moved.len() < 128 {
            Card { moved: c.moved.push(v), ..c }
        } else {
            c
        },
    }
}

/// A read gives what the card and its controller hold: the size and mode registers what was
/// last written there, and the data port the next word of the block that is being read.
pub open spec fn answers(c: Card, a: Access) -> bool {
    match a {
        Access::Write(_, _) => true,
        Access::Read(off, v) => {
            &&& off == 0x04 ==> v == c.sizes
            &&& off == 0x0C ==> v % 65536 == c.mode
            &&& off == 0x20 && c.reading() && c.moved.len() < 128 ==> v == crate::bytes::le32_at(
                c.blocks[c.arg],
                4 * c.moved.len() as int,
            )
        },
    }
}

/// The card after the accesses `t`.
pub open spec fn after(c: Card, t: Seq<Access>) -> Card
    decreases t.len(),
{
    if t.len() == 0 {
        c
    } else {
        step(after(c, t.drop_last()), t.last())
    }
}

/// Every read among the accesses `t` gave what the card held at that time.
pub open spec fn faithful(c: Card, t: Seq<Access>) -> bool {
    forall|i: int| 0 <= i < t.len() ==> #[trigger] answers(after(c, t.take(i)), t[i])
}

/// Every block has 512 bytes.
pub open spec fn whole(c: Card) -> bool {
    forall|n: u32| (#[trigger] c.blocks[n]).len() == 512
}

proof fn lemma_push(c: Card, t: Seq<Access>, a: Access)
    ensures
        after(c, t.push(a)) == step(after(c, t), a),
        faithful(c, t.push(a)) ==> faithful(c, t) && answers(after(c, t), a),
{
    let u = t.push(a);
    assert(u.drop_last() =~= t);
    if faithful(c, u) {
        assert(u.take(t.len() as int) =~= t);
        assert(answers(after(c, u.take(t.len() as int)), u[t.len() as int]));
        assert forall|i: int| 0 <= i < t.len() implies #[trigger] answers(
            after(c, t.take(i)),
            t[i],
        ) by {
            assert(u.take(i) =~= t.take(i));
            assert(answers(after(c, u.take(i)), u[i]));
        }
    }
}

/// Reads of registers other than the data port change nothing.
proof fn lemma_polls(c: Card, t: Seq<Access>, off: int, vals: Seq<u32>)
    requires
        off != 0x20,
    ensures
        after(c, t + mmio::reads(off, vals)) == after(c, t),
        faithful(c, t + mmio::reads(off, vals)) ==> faithful(c, t),
    decreases vals.len(),
{
    if vals.len() == 0 {
        assert(t + mmio::reads(off, vals) =~= t);
    } else {
        let some = vals.drop_last();
        lemma_polls(c, t, off, some);
        let u = t + mmio::reads(off, some);
        lemma_push(c, u, Access::Read(off, vals.last()));
        assert(t + mmio::reads(off, vals) =~= u.push(Access::Read(off, vals.last())));
    }
}

proof fn lemma_idle(c: Card, t0: Seq<Access>, t1: Seq<Access>, budget: u32, r: Result<(), HostError>)
    requires
        sdhci::waited_idle(t0, t1, budget, r),
    ensures
        after(c, t1) == after(c, t0),
        faithful(c, t1) ==> faithful(c, t0),
{
    let vals = choose|vals: Seq<u32>| #[trigger] sdhci::polled_idle(t0, t1, budget, r, vals);
    lemma_polls(c, t0, 0x24, vals);
}

proof fn lemma_int(
    c: Card,
    t0: Seq<Access>,
    t1: Seq<Access>,
    flag: u32,
    budget: u32,
    r: Result<(), HostError>,
)
    requires
        sdhci::waited_int(t0, t1, flag, budget, r),
    ensures
        after(c, t1) == after(c, t0),
        faithful(c, t1) ==> faithful(c, t0),
{
    let vals = choose|vals: Seq<u32>| #[trigger] sdhci::polled_int(t0, t1, flag, budget, r, vals);
    lemma_polls(c, t0, 0x30, vals);
    lemma_push(c, t0 + mmio::reads(0x30, vals), Access::Write(0x30, flag));
}

/// What a transfer's set-up leaves behind.
proof fn lemma_staged(c: Card, t: Seq<Access>, w: Seq<u32>, lba: u32, mode: u16, command: u16)
    requires
        faithful(c, sdhci::staged(t, w, lba, mode, command)),
    ensures
        faithful(c, t),
        after(c, sdhci::staged(t, w, lba, mode, command)) == (Card {
            blocks: after(c, t).blocks,
            sizes: 0x1_0200,
            arg: lba,
            mode: mode as u32,
            command: command as u32,
            moved: Seq::empty(),
        }),
{
    let a1 = Access::Read(0x04, w[0]);
    let v2 = mmio::with_half(w[0], 0x04, 512) as u32;
    let a3 = Access::Read(0x04, w[1]);
    let v4 = mmio::with_half(w[1], 0x06, 1) as u32;
    let v7 = mmio::with_half(w[2], 0x0C, mode) as u32;
    let v9 = mmio::with_half(w[3], 0x0E, command) as u32;
    let t1 = t.push(a1);
    let t2 = t1.push(Access::Write(0x04, v2));
    let t3 = t2.push(a3);
    let t4 = t3.push(Access::Write(0x04, v4));
    let t5 = t4.push(Access::Write(0x08, lba));
    let t6 = t5.push(Access::Read(0x0C, w[2]));
    let t7 = t6.push(Access::Write(0x0C, v7));
    let t8 = t7.push(Access::Read(0x0C, w[3]));
    let t9 = t8.push(Access::Write(0x0C, v9));
    assert(t9 == sdhci::staged(t, w, lba, mode, command));
    lemma_push(c, t8, Access::Write(0x0C, v9));
    lemma_push(c, t7, Access::Read(0x0C, w[3]));
    lemma_push(c, t6, Access::Write(0x0C, v7));
    lemma_push(c, t5, Access::Read(0x0C, w[2]));
    lemma_push(c, t4, Access::Write(0x08, lba));
    lemma_push(c, t3, Access::Write(0x04, v4));
    lemma_push(c, t2, a3);
    lemma_push(c, t1, Access::Write(0x04, v2));
    lemma_push(c, t, a1);
    assert(w[1] == v2);
    assert(v2 as int % 65536 == 512);
    assert(v4 == 0x1_0200);
    assert(v7 as int % 65536 == mode);
    assert(v9 as int % 65536 == mode && v9 as int / 65536 == command);
}

/// The words of the block come through the data port one after the other.
proof fn lemma_words_read(c: Card, t: Seq<Access>, vals: Seq<u32>)
    requires
        faithful(c, t + mmio::reads(0x20, vals)),
        after(c, t).reading(),
        after(c, t).moved.len() == 0,
        vals.len() <= 128,
    ensures
        faithful(c, t),
        after(c, t + mmio::reads(0x20, vals)) == (Card { moved: vals, ..after(c, t) }),
        forall|i: int|
            0 <= i < vals.len() ==> #[trigger] vals[i] == crate::bytes::le32_at(
                after(c, t).blocks[after(c, t).arg],
                4 * i,
            ),
    decreases vals.len(),
{
    if vals.len() == 0 {
        assert(t + mmio::reads(0x20, vals) =~= t);
        assert(after(c, t).moved =~= vals);
    } else {
        let some = vals.drop_last();
        let u = t + mmio::reads(0x20, some);
        let a = Access::Read(0x20, vals.last());
        assert(t + mmio::reads(0x20, vals) =~= u.push(a));
        lemma_push(c, u, a);
        lemma_words_read(c, t, some);
        assert(some.push(vals.last()) =~= vals);
        assert forall|i: int| 0 <= i < vals.len() implies #[trigger] vals[i]
            == crate::bytes::le32_at(after(c, t).blocks[after(c, t).arg], 4 * i) by {
            if i < some.len() {
                assert(some[i] == vals[i]);
            }
        }
    }
}

/// The words of a block go through the data port one after the other; with the last one the
/// block is stored.
proof fn lemma_words_written(c: Card, t: Seq<Access>, vals: Seq<u32>)
    requires
        after(c, t).writing(),
        after(c, t).moved.len() == 0,
        vals.len() <= 128,
    ensures
        faithful(c, t + sdhci::writes(0x20, vals)) ==> faithful(c, t),
        after(c, t + sdhci::writes(0x20, vals)) == (Card {
            moved: vals,
            blocks: if vals.len() == 128 {
                after(c, t).blocks.insert(after(c, t).arg, block_of(vals))
            } else {
                after(c, t).blocks
            },
            ..after(c, t)
        }),
    decreases vals.len(),
{
    if vals.len() == 0 {
        assert(t + sdhci::writes(0x20, vals) =~= t);
        assert(after(c, t).moved =~= vals);
    } else {
        let some = vals.drop_last();
        let u = t + sdhci::writes(0x20, some);
        let a = Access::Write(0x20, vals.last());
        assert(t + sdhci::writes(0x20, vals) =~= u.push(a));
        lemma_push(c, u, a);
        lemma_words_written(c, t, some);
        assert(some.push(vals.last()) =~= vals);
    }
}

/// Equal words are equal bytes.
proof fn lemma_same_bytes(a: Seq<u8>, b: Seq<u8>)
    requires
        a.len() == 512,
        b.len() == 512,
        forall|i: int|
            0 <= i < 128 ==> #[trigger] crate::bytes::le32_at(a, 4 * i) == crate::bytes::le32_at(
                b,
                4 * i,
            ),
    ensures
        a == b,
{
    assert forall|k: int| 0 <= k < 512 implies #[trigger] a[k] == b[k] by {
        let i = k / 4;
        assert(crate::bytes::le32_at(a, 4 * i) == crate::bytes::le32_at(b, 4 * i));
    }
    assert(a =~= b);
}

/// The four bytes of a word.
proof fn lemma_word(a: u8, b: u8, c: u8, d: u8, x: int)
    requires
        x == a + b * 256 + c * 65536 + d * 16777216,
    ensures
        0 <= x < 0x1_0000_0000,
        x % 256 == a,
        x / 256 % 256 == b,
        x / 65536 % 256 == c,
        x / 16777216 % 256 == d,
{
    assert(x / 256 == b + c * 256 + d * 65536);
    assert(x / 65536 == c + d * 256);
    assert(x / 16777216 == d);
}

/// The words of a block make the block.
proof fn lemma_block_of(b: Seq<u8>)
    requires
        b.len() == 512,
    ensures
        block_of(sdhci::byte_words(b)) == b,
{
    let w = sdhci::byte_words(b);
    let d = block_of(w);
    assert forall|k: int| 0 <= k < 512 implies #[trigger] d[k] == b[k] by {
        lemma_byte_of(b, w, k);
    }
    assert(d =~= b);
}

proof fn lemma_byte_of(b: Seq<u8>, w: Seq<u32>, k: int)
    requires
        b.len() == 512,
        w == sdhci::byte_words(b),
        0 <= k < 512,
    ensures
        block_of(w)[k] == b[k],
{
    let i = k / 4;
    let x = crate::bytes::le32_at(b, 4 * i);
    lemma_word(b[4 * i], b[4 * i + 1], b[4 * i + 2], b[4 * i + 3], x);
    assert(w[i] == x);
    assert(k == 4 * i + k % 4);
}

// ---------------------------------------------------------------------------
// One block
// ---------------------------------------------------------------------------

/// A read of block `lba` that succeeds gives the card's block of that number; no read changes
/// the card's blocks.
pub proof fn law_block_is_read(
    c: Card,
    t0: Seq<Access>,
    t1: Seq<Access>,
    lba: u32,
    budget: u32,
    r: Result<u32, HostError>,
    b0: Seq<u8>,
    b1: Seq<u8>,
)
    requires
        sdhci::block_read(t0, t1, lba, budget, r, b0, b1),
        faithful(c, t1),
        whole(after(c, t0)),
    ensures
        faithful(c, t0),
        after(c, t1).blocks == after(c, t0).blocks,
        r is Ok ==> b1 == after(c, t0).blocks[lba],
{
    let (ta, ra) = choose|ta: Seq<Access>, ra: Result<(), HostError>|
        #[trigger] sdhci::waited_idle(t0, ta, budget, ra) && match ra {
            Err(e) => t1 == ta && r == Err::<u32, HostError>(e) && b1 == b0,
            Ok(()) => exists|w: Seq<u32>|
                sdhci::read_commanded(
                    #[trigger] sdhci::staged(
                        ta,
                        w,
                        lba,
                        sdhci::READ_MODE,
                        sdhci::cmd_reg::encoded(17, ResponseType::R1, true) as u16,
                    ),
                    t1,
                    budget,
                    r,
                    b0,
                    b1,
                ),
        };
    lemma_idle(c, t0, ta, budget, ra);
    if ra is Ok {
        let command = sdhci::cmd_reg::encoded(17, ResponseType::R1, true) as u16;
        let w = choose|w: Seq<u32>|
            sdhci::read_commanded(
                #[trigger] sdhci::staged(ta, w, lba, sdhci::READ_MODE, command),
                t1,
                budget,
                r,
                b0,
                b1,
            );
        let ts = sdhci::staged(ta, w, lba, sdhci::READ_MODE, command);
        lemma_read_commanded(c, ts, t1, budget, r, b0, b1);
        lemma_staged(c, ta, w, lba, sdhci::READ_MODE, command);
        if r is Ok {
            lemma_same_bytes(b1, after(c, t0).blocks[lba]);
        }
    }
}

/// The part of a read behind its command.
proof fn lemma_read_commanded(
    c: Card,
    t0: Seq<Access>,
    t1: Seq<Access>,
    budget: u32,
    r: Result<u32, HostError>,
    b0: Seq<u8>,
    b1: Seq<u8>,
)
    requires
        sdhci::read_commanded(t0, t1, budget, r, b0, b1),
        faithful(c, t1),
    ensures
        faithful(c, t0),
        after(c, t0).moved.len() == 0 ==> after(c, t1).blocks == after(c, t0).blocks,
        after(c, t0).moved.len() == 0 && after(c, t0).reading() && r is Ok ==> b1.len() == 512
            && forall|i: int|
            0 <= i < 128 ==> #[trigger] crate::bytes::le32_at(b1, 4 * i) == crate::bytes::le32_at(
                after(c, t0).blocks[after(c, t0).arg],
                4 * i,
            ),
{
    let (ta, ra) = choose|ta: Seq<Access>, ra: Result<(), HostError>|
        #[trigger] sdhci::waited_int(t0, ta, 1, budget, ra) && match ra {
            Err(e) => t1 == ta && r == Err::<u32, HostError>(e) && b1 == b0,
            Ok(()) => exists|s: u32|
                #[trigger] sdhci::read_data(
                    ta.push(Access::Read(0x10, s)),
                    t1,
                    budget,
                    s,
                    r,
                    b0,
                    b1,
                ),
        };
    lemma_int(c, t0, ta, 1, budget, ra);
    if ra is Ok {
        let s = choose|s: u32|
            #[trigger] sdhci::read_data(
                ta.push(Access::Read(0x10, s)),
                t1,
                budget,
                s,
                r,
                b0,
                b1,
            );
        let tb = ta.push(Access::Read(0x10, s));
        lemma_push(c, ta, Access::Read(0x10, s));
        lemma_read_data(c, tb, t1, budget, s, r, b0, b1);
    }
}

proof fn lemma_read_data(
    c: Card,
    t0: Seq<Access>,
    t1: Seq<Access>,
    budget: u32,
    s: u32,
    r: Result<u32, HostError>,
    b0: Seq<u8>,
    b1: Seq<u8>,
)
    requires
        sdhci::read_data(t0, t1, budget, s, r, b0, b1),
        faithful(c, t1),
    ensures
        faithful(c, t0),
        after(c, t0).moved.len() == 0 ==> after(c, t1).blocks == after(c, t0).blocks,
        after(c, t0).moved.len() == 0 && after(c, t0).reading() && r is Ok ==> b1.len() == 512
            && forall|i: int|
            0 <= i < 128 ==> #[trigger] crate::bytes::le32_at(b1, 4 * i) == crate::bytes::le32_at(
                after(c, t0).blocks[after(c, t0).arg],
                4 * i,
            ),
{
    let (ta, ra) = choose|ta: Seq<Access>, ra: Result<(), HostError>|
        #[trigger] sdhci::waited_int(t0, ta, 0x20, budget, ra) && match ra {
            Err(e) => t1 == ta && r == Err::<u32, HostError>(e) && b1 == b0,
            Ok(()) => {
                let words = sdhci::byte_words(b1);
                &&& b1.len() == 512
                &&& sdhci::finished(ta + mmio::reads(0x20, words), t1, budget, s, r)
            },
        };
    lemma_int(c, t0, ta, 0x20, budget, ra);
    if ra is Ok {
        let words = sdhci::byte_words(b1);
        let tb = ta + mmio::reads(0x20, words);
        let rd = choose|rd: Result<(), HostError>|
            #[trigger] sdhci::waited_int(tb, t1, 2, budget, rd) && match rd {
                Ok(()) => r == Ok::<u32, HostError>(s),
                Err(e) => r == Err::<u32, HostError>(e),
            };
        lemma_int(c, tb, t1, 2, budget, rd);
        lemma_port_read(c, ta, words);
        if after(c, ta).reading() && after(c, ta).moved.len() == 0 {
            lemma_words_read(c, ta, words);
            assert forall|i: int| 0 <= i < 128 implies #[trigger] crate::bytes::le32_at(b1, 4 * i)
                == crate::bytes::le32_at(after(c, ta).blocks[after(c, ta).arg], 4 * i) by {
                assert(words[i] == crate::bytes::le32_at(b1, 4 * i));
            }
        }
    }
}

/// Reads of the data port leave the blocks alone.
proof fn lemma_port_read(c: Card, t: Seq<Access>, vals: Seq<u32>)
    ensures
        after(c, t + mmio::reads(0x20, vals)).blocks == after(c, t).blocks,
        faithful(c, t + mmio::reads(0x20, vals)) ==> faithful(c, t),
    decreases vals.len(),
{
    if vals.len() == 0 {
        assert(t + mmio::reads(0x20, vals) =~= t);
    } else {
        let some = vals.drop_last();
        let u = t + mmio::reads(0x20, some);
        let a = Access::Read(0x20, vals.last());
        assert(t + mmio::reads(0x20, vals) =~= u.push(a));
        lemma_push(c, u, a);
        lemma_port_read(c, t, some);
    }
}

/// A write of block `lba` that succeeds puts the bytes into the card's block of that number
/// and leaves every other block alone.
pub proof fn law_block_is_written(
    c: Card,
    t0: Seq<Access>,
    t1: Seq<Access>,
    lba: u32,
    budget: u32,
    r: Result<u32, HostError>,
    b: Seq<u8>,
)
    requires
        sdhci::block_written(t0, t1, lba, budget, r, b),
        faithful(c, t1),
        b.len() == 512,
    ensures
        faithful(c, t0),
        r is Ok ==> after(c, t1).blocks == after(c, t0).blocks.insert(lba, b),
        forall|n: u32| n != lba ==> #[trigger] after(c, t1).blocks[n] == after(c, t0).blocks[n],
        whole(after(c, t0)) ==> whole(after(c, t1)),
{
    let command = sdhci::cmd_reg::encoded(24, ResponseType::R1, true) as u16;
    let (ta, ra) = choose|ta: Seq<Access>, ra: Result<(), HostError>|
        #[trigger] sdhci::waited_idle(t0, ta, budget, ra) && match ra {
            Err(e) => t1 == ta && r == Err::<u32, HostError>(e),
            Ok(()) => exists|w: Seq<u32>|
                sdhci::write_commanded(
                    #[trigger] sdhci::staged(
                        ta,
                        w,
                        lba,
                        sdhci::xfer_mode::BLOCK_COUNT_ENABLE,
                        sdhci::cmd_reg::encoded(24, ResponseType::R1, true) as u16,
                    ),
                    t1,
                    budget,
                    r,
                    b,
                ),
        };
    lemma_idle(c, t0, ta, budget, ra);
    if ra is Ok {
        let w = choose|w: Seq<u32>|
            sdhci::write_commanded(
                #[trigger] sdhci::staged(
                    ta,
                    w,
                    lba,
                    sdhci::xfer_mode::BLOCK_COUNT_ENABLE,
                    sdhci::cmd_reg::encoded(24, ResponseType::R1, true) as u16,
                ),
                t1,
                budget,
                r,
                b,
            );
        let ts = sdhci::staged(ta, w, lba, sdhci::xfer_mode::BLOCK_COUNT_ENABLE, command);
        lemma_write_commanded(c, ts, t1, budget, r, b);
        lemma_staged(c, ta, w, lba, sdhci::xfer_mode::BLOCK_COUNT_ENABLE, command);
        assert(after(c, ts).writing());
    }
    if after(c, t1).blocks == after(c, t0).blocks.insert(lba, b) && whole(after(c, t0)) {
        assert forall|n: u32| (#[trigger] after(c, t1).blocks[n]).len() == 512 by {
            assert(n != lba ==> after(c, t0).blocks[n].len() == 512);
        }
    }
}

/// The part of a write behind its command.
proof fn lemma_write_commanded(
    c: Card,
    t0: Seq<Access>,
    t1: Seq<Access>,
    budget: u32,
    r: Result<u32, HostError>,
    b: Seq<u8>,
)
    requires
        sdhci::write_commanded(t0, t1, budget, r, b),
        b.len() == 512,
    ensures
        faithful(c, t1) ==> faithful(c, t0),
        after(c, t0).writing() && after(c, t0).moved.len() == 0 ==> {
            let stored = after(c, t0).blocks.insert(after(c, t0).arg, b);
            &&& r is Ok ==> after(c, t1).blocks == stored
            &&& after(c, t1).blocks == stored || after(c, t1).blocks == after(c, t0).blocks
        },
{
    let (ta, ra) = choose|ta: Seq<Access>, ra: Result<(), HostError>|
        #[trigger] sdhci::waited_int(t0, ta, 1, budget, ra) && match ra {
            Err(e) => t1 == ta && r == Err::<u32, HostError>(e),
            Ok(()) => exists|s: u32|
                #[trigger] sdhci::write_data(
                    ta.push(Access::Read(0x10, s)),
                    t1,
                    budget,
                    s,
                    r,
                    b,
                ),
        };
    lemma_int(c, t0, ta, 1, budget, ra);
    if ra is Ok {
        let s = choose|s: u32|
            #[trigger] sdhci::write_data(
                ta.push(Access::Read(0x10, s)),
                t1,
                budget,
                s,
                r,
                b,
            );
        let tb = ta.push(Access::Read(0x10, s));
        lemma_push(c, ta, Access::Read(0x10, s));
        lemma_write_data(c, tb, t1, budget, s, r, b);
    }
}

proof fn lemma_write_data(
    c: Card,
    t0: Seq<Access>,
    t1: Seq<Access>,
    budget: u32,
    s: u32,
    r: Result<u32, HostError>,
    b: Seq<u8>,
)
    requires
        sdhci::write_data(t0, t1, budget, s, r, b),
        b.len() == 512,
    ensures
        faithful(c, t1) ==> faithful(c, t0),
        after(c, t0).writing() && after(c, t0).moved.len() == 0 ==> {
            let stored = after(c, t0).blocks.insert(after(c, t0).arg, b);
            &&& r is Ok ==> after(c, t1).blocks == stored
            &&& after(c, t1).blocks == stored || after(c, t1).blocks == after(c, t0).blocks
        },
{
    let (ta, ra) = choose|ta: Seq<Access>, ra: Result<(), HostError>|
        #[trigger] sdhci::waited_int(t0, ta, 0x10, budget, ra) && match ra {
            Err(e) => t1 == ta && r == Err::<u32, HostError>(e),
            Ok(()) => sdhci::finished(
                ta + sdhci::writes(0x20, sdhci::byte_words(b)),
                t1,
                budget,
                s,
                r,
            ),
        };
    lemma_int(c, t0, ta, 0x10, budget, ra);
    if ra is Ok {
        let words = sdhci::byte_words(b);
        let tb = ta + sdhci::writes(0x20, words);
        let rd = choose|rd: Result<(), HostError>|
            #[trigger] sdhci::waited_int(tb, t1, 2, budget, rd) && match rd {
                Ok(()) => r == Ok::<u32, HostError>(s),
                Err(e) => r == Err::<u32, HostError>(e),
            };
        lemma_int(c, tb, t1, 2, budget, rd);
        lemma_port_write(c, ta, words);
        if after(c, ta).writing() && after(c, ta).moved.len() == 0 {
            lemma_words_written(c, ta, words);
            lemma_block_of(b);
        }
    }
}

/// Writes to the data port read nothing.
proof fn lemma_port_write(c: Card, t: Seq<Access>, vals: Seq<u32>)
    ensures
        faithful(c, t + sdhci::writes(0x20, vals)) ==> faithful(c, t),
    decreases vals.len(),
{
    if vals.len() == 0 {
        assert(t + sdhci::writes(0x20, vals) =~= t);
    } else {
        let some = vals.drop_last();
        let u = t + sdhci::writes(0x20, some);
        let a = Access::Write(0x20, vals.last());
        assert(t + sdhci::writes(0x20, vals) =~= u.push(a));
        lemma_push(c, u, a);
        lemma_port_write(c, t, some);
    }
}

/// What was written is read back: after a write of block `lba` that succeeded, a read of the
/// same block that succeeds gives those bytes, and a read of another block what it held
/// before.
pub proof fn law_read_gives_what_was_written(
    c: Card,
    t0: Seq<Access>,
    t1: Seq<Access>,
    t2: Seq<Access>,
    lba: u32,
    other: u32,
    budget: u32,
    s: u32,
    r: u32,
    b: Seq<u8>,
    b0: Seq<u8>,
    b1: Seq<u8>,
)
    requires
        sdhci::block_written(t0, t1, lba, budget, Ok(s), b),
        sdhci::block_read(t1, t2, other, budget, Ok(r), b0, b1),
        faithful(c, t2),
        b.len() == 512,
        whole(after(c, t0)),
    ensures
        other == lba ==> b1 == b,
        other != lba ==> b1 == after(c, t0).blocks[other],
        after(c, t2).blocks == after(c, t0).blocks.insert(lba, b),
{
    lemma_stays_faithful(c, t1, t2, other, budget, Ok(r), b0, b1);
    law_block_is_written(c, t0, t1, lba, budget, Ok(s), b);
    law_block_is_read(c, t1, t2, other, budget, Ok(r), b0, b1);
}

/// A read extends the accesses before it.
pub proof fn lemma_stays_faithful(
    c: Card,
    t0: Seq<Access>,
    t1: Seq<Access>,
    lba: u32,
    budget: u32,
    r: Result<u32, HostError>,
    b0: Seq<u8>,
    b1: Seq<u8>,
)
    requires
        sdhci::block_read(t0, t1, lba, budget, r, b0, b1),
        faithful(c, t1),
    ensures
        faithful(c, t0),
{
    let command = sdhci::cmd_reg::encoded(17, ResponseType::R1, true) as u16;
    let (ta, ra) = choose|ta: Seq<Access>, ra: Result<(), HostError>|
        #[trigger] sdhci::waited_idle(t0, ta, budget, ra) && match ra {
            Err(e) => t1 == ta && r == Err::<u32, HostError>(e) && b1 == b0,
            Ok(()) => exists|w: Seq<u32>|
                sdhci::read_commanded(
                    #[trigger] sdhci::staged(
                        ta,
                        w,
                        lba,
                        sdhci::READ_MODE,
                        sdhci::cmd_reg::encoded(17, ResponseType::R1, true) as u16,
                    ),
                    t1,
                    budget,
                    r,
                    b0,
                    b1,
                ),
        };
    lemma_idle(c, t0, ta, budget, ra);
    if ra is Ok {
        let w = choose|w: Seq<u32>|
            sdhci::read_commanded(
                #[trigger] sdhci::staged(
                    ta,
                    w,
                    lba,
                    sdhci::READ_MODE,
                    sdhci::cmd_reg::encoded(17, ResponseType::R1, true) as u16,
                ),
                t1,
                budget,
                r,
                b0,
                b1,
            );
        let ts = sdhci::staged(ta, w, lba, sdhci::READ_MODE, command);
        lemma_read_commanded(c, ts, t1, budget, r, b0, b1);
        lemma_staged(c, ta, w, lba, sdhci::READ_MODE, command);
    }
}

// ---------------------------------------------------------------------------
// Commands
// ---------------------------------------------------------------------------

/// The command register's fields: the command's number from bit 8 on, whether data follow in
/// bit 5, the length of the response in the two lowest bits (none, 136 bits, 48 bits, 48 bits
/// with busy), and the checks of its checksum and index, which an operating-conditions
/// response has neither of and a long one only the first.
pub proof fn law_command_fields(cmd: u8, rsp: ResponseType, data: bool)
    requires
        cmd < 64,
    ensures
        ({
            let v = sdhci::cmd_reg::encoded(cmd, rsp, data);
            &&& 0 <= v < 65536
            &&& v / 256 == cmd
            &&& v / 64 % 4 == 0
            &&& v / 32 % 2 == (if data {
                1int
            } else {
                0
            })
            &&& v % 4 == (match rsp {
                ResponseType::NoResponse => 0int,
                ResponseType::R2 => 1,
                ResponseType::R1b => 3,
                _ => 2,
            })
            &&& v / 8 % 2 == 1 <==> !(rsp is NoResponse) && !(rsp is R3)
            &&& v / 16 % 2 == 1 <==> rsp is R1 || rsp is R1b || rsp is R6 || rsp is R7
        }),
{
}

/// A command that was issued reached the card with its own number and argument, and what it
/// answered is what the four response registers at 0x10 to 0x1C gave last.
pub proof fn law_command_reaches_the_card(
    c: Card,
    t0: Seq<Access>,
    t1: Seq<Access>,
    k: SdCommand,
    data: bool,
    budget: u32,
    resp: HostResponse,
)
    requires
        sdhci::issued(t0, t1, k, data, budget, Ok(resp)),
        k.cmd < 64,
    ensures
        after(c, t1).doing() == k.cmd,
        after(c, t1).arg == k.arg,
        after(c, t1).blocks == after(c, t0).blocks,
        t1.len() >= 4,
        t1[t1.len() - 4] == Access::Read(0x10, resp.r@[0]),
        t1[t1.len() - 3] == Access::Read(0x14, resp.r@[1]),
        t1[t1.len() - 2] == Access::Read(0x18, resp.r@[2]),
        t1[t1.len() - 1] == Access::Read(0x1C, resp.r@[3]),
{
    let r = Ok::<HostResponse, HostError>(resp);
    let (ta, ra) = choose|ta: Seq<Access>, ra: Result<(), HostError>|
        #[trigger] sdhci::waited_idle(t0, ta, budget, ra) && match ra {
            Ok(()) => sdhci::issued_idle(ta, t1, k, data, budget, r),
            Err(e) => t1 == ta && r == Err::<HostResponse, HostError>(e),
        };
    lemma_idle(c, t0, ta, budget, ra);
    let (w, vals) = choose|w: u32, vals: Seq<u32>|
        #[trigger] sdhci::issued_with(ta, t1, k, data, budget, r, w, vals);
    let v = sdhci::cmd_reg::encoded(k.cmd, k.rsp, data) as u16;
    law_command_fields(k.cmd, k.rsp, data);
    let x = mmio::with_half(w, 0x0E, v) as u32;
    let t2 = ta.push(Access::Write(0x08, k.arg));
    let t3 = t2.push(Access::Read(0x0C, w));
    let t4 = t3.push(Access::Write(0x0C, x));
    let t5 = t4 + mmio::reads(0x30, vals);
    let t6 = t5.push(Access::Write(0x30, 1));
    let t7 = t6.push(Access::Read(0x10, resp.r@[0]));
    let t8 = t7.push(Access::Read(0x14, resp.r@[1]));
    let t9 = t8.push(Access::Read(0x18, resp.r@[2]));
    assert(t1 == t9.push(Access::Read(0x1C, resp.r@[3])));
    lemma_push(c, ta, Access::Write(0x08, k.arg));
    lemma_push(c, t2, Access::Read(0x0C, w));
    lemma_push(c, t3, Access::Write(0x0C, x));
    lemma_polls(c, t4, 0x30, vals);
    lemma_push(c, t5, Access::Write(0x30, 1));
    lemma_push(c, t6, Access::Read(0x10, resp.r@[0]));
    lemma_push(c, t7, Access::Read(0x14, resp.r@[1]));
    lemma_push(c, t8, Access::Read(0x18, resp.r@[2]));
    lemma_push(c, t9, Access::Read(0x1C, resp.r@[3]));
    assert(x as int / 65536 == v);
}

// ---------------------------------------------------------------------------
// Initialisation
// ---------------------------------------------------------------------------

/// The way of a card that answers as it should: it is reset (CMD0), asked for its voltages
/// with a check pattern (CMD8), asked to initialise (ACMD41) as a high-capacity card exactly
/// where it has repeated the pattern, for its identification (CMD2), for an address (CMD3) and,
/// under that address, for its data (CMD9), and is selected (CMD7). The address is the upper
/// half of the answer to CMD3, and goes in the upper half of the arguments.
pub proof fn law_init_sequence(
    s: Seq<InitStep>,
    r1: Seq<u32>,
    r2: Seq<Seq<u32>>,
)
    requires
        s.len() == 8,
        r1.len() == 7,
        r2.len() == 7,
        s[0] is GoIdle,
        forall|i: int| 0 <= i < 7 ==> sdhci::step_follows(#[trigger] s[i], r1[i], r2[i], s[i + 1]),
        r1[2] & 0x8000_0000 != 0,
        r1[6] & sdhci::r1::ANY_ERROR == 0,
    ensures
        ({
            let rca = r1[4] as int / 0x1_0000;
            let high = r1[1] as int % 256 == 0xAA;
            let none = ResponseType::NoResponse;
            &&& sdhci::command_of(s[0]) == Some(SdCommand { cmd: 0, arg: 0, rsp: none })
            &&& sdhci::command_of(s[1]) == Some(
                SdCommand { cmd: 8, arg: 0x1AA, rsp: ResponseType::R7 },
            )
            &&& sdhci::command_of(s[2]) == Some(
                SdCommand {
                    cmd: 41,
                    arg: if high {
                        0x4030_0000
                    } else {
                        0x0030_0000
                    },
                    rsp: ResponseType::R3,
                },
            )
            &&& sdhci::command_of(s[3]) == Some(
                SdCommand { cmd: 2, arg: 0, rsp: ResponseType::R2 },
            )
            &&& sdhci::command_of(s[4]) == Some(
                SdCommand { cmd: 3, arg: 0, rsp: ResponseType::R6 },
            )
            &&& sdhci::command_of(s[5]) == Some(
                SdCommand { cmd: 9, arg: (rca * 0x1_0000) as u32, rsp: ResponseType::R2 },
            )
            &&& sdhci::command_of(s[6]) == Some(
                SdCommand { cmd: 7, arg: (rca * 0x1_0000) as u32, rsp: ResponseType::R1b },
            )
            &&& sdhci::command_of(s[7]) is None
            &&& s[7] matches InitStep::Done { rca: a, csd, .. } && a == rca && csd
                == sdhci::csd_of(r2[6])
        }),
{
    assert(sdhci::step_follows(s[0], r1[0], r2[0], s[1]));
    assert(sdhci::step_follows(s[1], r1[1], r2[1], s[2]));
    assert(sdhci::step_follows(s[2], r1[2], r2[2], s[3]));
    assert(sdhci::step_follows(s[3], r1[3], r2[3], s[4]));
    assert(sdhci::step_follows(s[4], r1[4], r2[4], s[5]));
    assert(sdhci::step_follows(s[5], r1[5], r2[5], s[6]));
    assert(sdhci::step_follows(s[6], r1[6], r2[6], s[7]));
}

/// While a card says that it is still busy it is asked again, in the same words, and after 64
/// more tries it has failed.
pub proof fn law_busy_card_is_asked_again(retries: u8, high: bool, r1: u32, r2: Seq<u32>, after: InitStep)
    requires
        sdhci::step_follows(
            InitStep::SendOpCond { retries, sdhc_capable: high },
            r1,
            r2,
            after,
        ),
        r1 & 0x8000_0000 == 0,
    ensures
        retries < 64 ==> after == (InitStep::SendOpCond {
            retries: (retries + 1) as u8,
            sdhc_capable: high,
        }) && sdhci::command_of(after) == sdhci::command_of(
            InitStep::SendOpCond { retries, sdhc_capable: high },
        ),
        retries >= 64 ==> after is Error,
{
}

/// The capacity of a high-capacity card: half a mebibyte for a size field of zero, and half a
/// mebibyte more for each step of the field, which has its 22 bits around the border of the
/// second and third word.
pub proof fn law_high_capacity(r2: Seq<u32>, more: Seq<u32>)
    requires
        r2.len() == 4,
        more.len() == 4,
        r2[0] >= 0x4000_0000,
        more[0] >= 0x4000_0000,
    ensures
        sdhci::csd_of(r2).block_len_bytes == 512,
        r2[1] as int % 64 == 0 && r2[2] < 0x1_0000 ==> sdhci::csd_of(r2).capacity_bytes == 524288,
        more[1] == r2[1] && more[2] == r2[2] + 0x1_0000 ==> sdhci::csd_of(more).capacity_bytes
            == sdhci::csd_of(r2).capacity_bytes + 524288,
        more[1] == r2[1] + 1 && r2[1] as int % 64 < 63 && r2[2] >= 0xFFFF_0000 && more[2] < 0x1_0000
            ==> sdhci::csd_of(more).capacity_bytes == sdhci::csd_of(r2).capacity_bytes + 524288,
{
}

// ---------------------------------------------------------------------------
// Long responses
// ---------------------------------------------------------------------------

proof fn lemma_halve(x: int, w: nat)
    requires
        x >= 0,
    ensures
        x % pow2(w + 1) as int == 2 * (x / 2 % pow2(w) as int) + x % 2,
{
    vstd::arithmetic::power2::lemma_pow2_pos(w);
    vstd::arithmetic::power2::lemma_pow2_unfold(w + 1);
    let p = pow2(w) as int;
    let y = x / 2;
    vstd::arithmetic::div_mod::lemma_fundamental_div_mod(y, p);
    vstd::arithmetic::div_mod::lemma_mod_bound(y, p);
    let q = y / p;
    let m = y % p;
    assert(x == (2 * p) * q + (2 * m + x % 2)) by (nonlinear_arith)
        requires
            x == 2 * y + x % 2,
            y == p * q + m,
    ;
    assert(2 * p * q == q * (2 * p)) by (nonlinear_arith);
    vstd::arithmetic::div_mod::lemma_fundamental_div_mod_converse(x, 2 * p, q, 2 * m + x % 2);
}

proof fn lemma_half(x: int, s: nat)
    requires
        x >= 0,
    ensures
        x / pow2(s) as int / 2 == x / pow2(s + 1) as int,
{
    vstd::arithmetic::power2::lemma_pow2_pos(s);
    vstd::arithmetic::power2::lemma_pow2_unfold(s + 1);
    vstd::arithmetic::div_mod::lemma_div_denominator(x, pow2(s) as int, 2);
    assert(pow2(s) * 2 == pow2(s + 1));
}

/// A field inside one word is that part of the word.
proof fn lemma_field_in_word(r2: Seq<u32>, word: int, o: int, width: nat)
    requires
        0 <= word,
        0 <= o,
        o + width <= 32,
    ensures
        sdhci::response_field(r2, 32 * word + o, width) == r2[word] as int / pow2(
            (32 - o - width) as nat,
        ) as int % pow2(width) as int,
    decreases width,
{
    let x = r2[word] as int;
    if width == 0 {
        vstd::arithmetic::power2::lemma2_to64();
    } else {
        let w = (width - 1) as nat;
        let s = (32 - o - width) as nat;
        lemma_field_in_word(r2, word, o, w);
        let b = 32 * word + o + width - 1;
        assert(b / 32 == word && b % 32 == o + width - 1);
        let sh = s as u32;
        assert(sdhci::response_bit(r2, b) == (r2[word] >> sh) & 1);
        vstd::bits::lemma_u32_shr_is_div(r2[word], sh);
        let y = r2[word] >> sh;
        assert(y & 1 == y % 2) by (bit_vector);
        lemma_half(x, s);
        vstd::arithmetic::power2::lemma_pow2_pos(s);
        assert(0 <= x / pow2(s) as int) by (nonlinear_arith)
            requires
                x >= 0,
                pow2(s) > 0,
        ;
        lemma_halve(x / pow2(s) as int, w);
    }
}

/// A field of two parts.
proof fn lemma_field_parts(r2: Seq<u32>, lo: int, a: nat, b: nat)
    ensures
        sdhci::response_field(r2, lo, a + b) == sdhci::response_field(r2, lo, a) * pow2(b)
            + sdhci::response_field(r2, lo + a, b),
    decreases b,
{
    if b == 0 {
        vstd::arithmetic::power2::lemma2_to64();
    } else {
        let c = (b - 1) as nat;
        lemma_field_parts(r2, lo, a, c);
        vstd::arithmetic::power2::lemma_pow2_unfold(b);
        let f = sdhci::response_field(r2, lo, a);
        assert(2 * (f * pow2(c)) == f * pow2(b)) by (nonlinear_arith)
            requires
                pow2(b) == 2 * pow2(c),
        ;
        assert(lo + (a + b) - 1 == lo + a + b - 1);
        assert((a + b - 1) as nat == a + c);
    }
}

/// The identification of a card, byte by byte of its four words: one byte for the
/// manufacturer, two for the maker, five for the name, one for the revision, four for the
/// serial number, and twelve bits for the date.
pub proof fn law_card_identification(c: Cid, r2: Seq<u32>)
    requires
        r2.len() == 4,
        c.is_read_from(r2),
    ensures
        c.manufacturer_id == r2[0] as int / 0x100_0000,
        c.oem_application_id == r2[0] as int / 0x100 % 0x1_0000,
        c.product_name@[0] == r2[0] as int % 0x100,
        c.product_name@[1] == r2[1] as int / 0x100_0000,
        c.product_name@[2] == r2[1] as int / 0x1_0000 % 0x100,
        c.product_name@[3] == r2[1] as int / 0x100 % 0x100,
        c.product_name@[4] == r2[1] as int % 0x100,
        c.product_revision == r2[2] as int / 0x100_0000,
        c.serial == r2[2] as int % 0x100_0000 * 0x100 + r2[3] as int / 0x100_0000,
        c.manufacturing_date == r2[3] as int / 0x1000 % 0x1000,
{
    vstd::arithmetic::power2::lemma2_to64();
    lemma_field_in_word(r2, 0, 0, 8);
    lemma_field_in_word(r2, 0, 8, 16);
    lemma_field_in_word(r2, 0, 24, 8);
    lemma_field_in_word(r2, 1, 0, 8);
    lemma_field_in_word(r2, 1, 8, 8);
    lemma_field_in_word(r2, 1, 16, 8);
    lemma_field_in_word(r2, 1, 24, 8);
    lemma_field_in_word(r2, 2, 0, 8);
    lemma_field_in_word(r2, 2, 8, 24);
    lemma_field_in_word(r2, 3, 0, 8);
    lemma_field_in_word(r2, 3, 8, 12);
    lemma_field_parts(r2, 72, 24, 8);
    let a = r2[0] as int;
    let b = r2[1] as int;
    let d = r2[2] as int;
    vstd::arithmetic::div_mod::lemma_div_basics(a);
    vstd::arithmetic::div_mod::lemma_div_basics(b);
    vstd::arithmetic::div_mod::lemma_div_basics(d);
    assert(sdhci::response_field(r2, 24, 8) == a / 1 % 256);
    assert(sdhci::response_field(r2, 56, 8) == b / 1 % 256);
    assert(sdhci::response_field(r2, 72, 24) == d / 1 % 0x100_0000);
    assert(c.product_name@[0] == sdhci::response_field(r2, 24, 8));
    assert(c.product_name@[1] == sdhci::response_field(r2, 32, 8));
    assert(c.product_name@[2] == sdhci::response_field(r2, 40, 8));
    assert(c.product_name@[3] == sdhci::response_field(r2, 48, 8));
    assert(c.product_name@[4] == sdhci::response_field(r2, 56, 8));
}

// ---------------------------------------------------------------------------
// Capacity and checksums
// ---------------------------------------------------------------------------

/// The four words of a long response as one number of 128 bits.
pub open spec fn long_number(r2: Seq<u32>) -> int {
    r2[0] * 0x1_0000_0000_0000_0000_0000_0000 + r2[1] * 0x1_0000_0000_0000_0000 + r2[2]
        * 0x1_0000_0000 + r2[3]
}

/// The capacity of a card, from the fields of its data register as the register is numbered:
/// the version in bits 126 and 127. In the first version the size is in bits 62 to 73, its
/// multiplier in bits 47 to 49, and the length of a block in bits 80 to 83; in the second the
/// size is in bits 48 to 69, and counts half mebibytes.
#[verifier::rlimit(40)]
#[verifier::spinoff_prover]
pub proof fn law_capacity_by_bits(r2: Seq<u32>)
    requires
        r2.len() == 4,
    ensures
        ({
            let n = long_number(r2);
            let c = sdhci::csd_of(r2);
            let version = n / 0x4000_0000_0000_0000_0000_0000_0000_0000;
            &&& version == 0 ==> {
                let size = n / 0x4000_0000_0000_0000 % 4096;
                let mult = n / 0x8000_0000_0000 % 8;
                let len = n / 0x1_0000_0000_0000_0000_0000 % 16;
                &&& c.structure_version == 0
                &&& c.block_len_bytes == pow2(len as nat)
                &&& c.capacity_bytes == (size + 1) * pow2((mult + 2) as nat) * pow2(len as nat)
            }
            &&& version > 0 ==> c.structure_version == 1 && c.block_len_bytes == 512
                && c.capacity_bytes == (n / 0x1_0000_0000_0000 % 0x40_0000 + 1) * 0x8_0000
        }),
{
    let (a, b, c, d) = (r2[0] as int, r2[1] as int, r2[2] as int, r2[3] as int);
    lemma_quotients(a, b, c, d, long_number(r2));
    lemma_data_fields(a, b, c);
    if a < 0x4000_0000 {
        let len = (b / 65536 % 16) as nat;
        let mult = (c / 32768 % 8 + 2) as nat;
        lemma_product_fits(b % 1024 * 4 + c / 0x4000_0000, mult, len);
    }
}

/// The capacity of a card of the first version has 64 bits.
proof fn lemma_product_fits(size: int, mult: nat, len: nat)
    requires
        0 <= size < 4096,
        mult <= 15,
        len <= 15,
    ensures
        0 <= (size + 1) * pow2(mult) * pow2(len) <= 4096 * 32768 * 32768,
        1 <= pow2(len) <= 32768,
{
    lemma_small_power(len);
    lemma_small_power(mult);
    assert(0 <= (size + 1) * pow2(mult) <= 4096 * 32768) by (nonlinear_arith)
        requires
            0 <= size < 4096,
            1 <= pow2(mult) <= 32768,
    ;
    assert(0 <= (size + 1) * pow2(mult) * pow2(len) <= 4096 * 32768 * 32768) by (nonlinear_arith)
        requires
            0 <= (size + 1) * pow2(mult) <= 4096 * 32768,
            1 <= pow2(len) <= 32768,
    ;
}

/// A number without its low bits, from the words that it is made of.
#[verifier::spinoff_prover]
proof fn lemma_quotients(a: int, b: int, c: int, d: int, n: int)
    requires
        0 <= a < 0x1_0000_0000,
        0 <= b < 0x1_0000_0000,
        0 <= c < 0x1_0000_0000,
        0 <= d < 0x1_0000_0000,
        n == a * 0x1_0000_0000_0000_0000_0000_0000 + b * 0x1_0000_0000_0000_0000 + c
            * 0x1_0000_0000 + d,
    ensures
        n / 0x4000_0000_0000_0000_0000_0000_0000_0000 == a / 0x4000_0000,
        n / 0x4000_0000_0000_0000 == a * 0x4_0000_0000 + b * 4 + c / 0x4000_0000,
        n / 0x8000_0000_0000 == a * 0x2_0000_0000_0000 + b * 0x2_0000 + c / 0x8000,
        n / 0x1_0000_0000_0000_0000_0000 == a * 0x1_0000 + b / 0x1_0000,
        n / 0x1_0000_0000_0000 == a * 0x1_0000_0000_0000 + b * 0x1_0000 + c / 0x1_0000,
{
    lemma_quotient(
        n,
        0x4000_0000_0000_0000_0000_0000_0000_0000,
        a / 0x4000_0000,
        a % 0x4000_0000 * 0x1_0000_0000_0000_0000_0000_0000 + b * 0x1_0000_0000_0000_0000 + c
            * 0x1_0000_0000 + d,
    );
    lemma_quotient(
        n,
        0x4000_0000_0000_0000,
        a * 0x4_0000_0000 + b * 4 + c / 0x4000_0000,
        c % 0x4000_0000 * 0x1_0000_0000 + d,
    );
    lemma_quotient(
        n,
        0x8000_0000_0000,
        a * 0x2_0000_0000_0000 + b * 0x2_0000 + c / 0x8000,
        c % 0x8000 * 0x1_0000_0000 + d,
    );
    lemma_quotient(
        n,
        0x1_0000_0000_0000_0000_0000,
        a * 0x1_0000 + b / 0x1_0000,
        b % 0x1_0000 * 0x1_0000_0000_0000_0000 + c * 0x1_0000_0000 + d,
    );
    lemma_quotient(
        n,
        0x1_0000_0000_0000,
        a * 0x1_0000_0000_0000 + b * 0x1_0000 + c / 0x1_0000,
        c % 0x1_0000 * 0x1_0000_0000 + d,
    );
}

/// A quotient is known by its remainder.
proof fn lemma_quotient(n: int, by: int, q: int, r: int)
    requires
        n == q * by + r,
        0 <= r < by,
    ensures
        n / by == q,
{
    vstd::arithmetic::div_mod::lemma_fundamental_div_mod_converse(n, by, q, r);
}

/// The fields of the data register, from the words that they stand in.
#[verifier::spinoff_prover]
proof fn lemma_data_fields(a: int, b: int, c: int)
    requires
        0 <= a < 0x1_0000_0000,
        0 <= b < 0x1_0000_0000,
        0 <= c < 0x1_0000_0000,
    ensures
        (a * 0x4_0000_0000 + b * 4 + c / 0x4000_0000) % 4096 == b % 1024 * 4 + c / 0x4000_0000,
        (a * 0x2_0000_0000_0000 + b * 0x2_0000 + c / 0x8000) % 8 == c / 0x8000 % 8,
        (a * 0x1_0000 + b / 0x1_0000) % 16 == b / 0x1_0000 % 16,
        (a * 0x1_0000_0000_0000 + b * 0x1_0000 + c / 0x1_0000) % 0x40_0000 == b % 64 * 65536 + c
            / 65536,
{
}

/// Powers of two up to the fifteenth.
proof fn lemma_small_power(k: nat)
    requires
        k <= 15,
    ensures
        1 <= pow2(k) <= 32768,
{
    vstd::arithmetic::power2::lemma2_to64();
    vstd::arithmetic::power2::lemma_pow2_pos(k);
    if k < 15 {
        vstd::arithmetic::power2::lemma_pow2_strictly_increases(k, 15);
    }
}

/// Two messages of one length, added bit by bit.
pub open spec fn added(a: Seq<u8>, b: Seq<u8>) -> Seq<u8> {
    Seq::new(a.len(), |i: int| a[i] ^ b[i])
}

/// The checksum of commands is the remainder by x^7 + x^3 + 1: a step of its register
/// multiplies by x, which turns the highest bit, 0x80, into 0x12, and the checksum of a sum is
/// the sum of the checksums.
pub proof fn law_command_checksum(a: Seq<u8>, b: Seq<u8>, x: u8)
    requires
        a.len() == b.len(),
    ensures
        x < 0x80 ==> sdhci::crc7_bit(x) == 2 * x,
        sdhci::crc7_bit(0x80) == 0x12,
        sdhci::crc7_register(added(a, b)) == sdhci::crc7_register(a) ^ sdhci::crc7_register(b),
    decreases a.len(),
{
    assert((x < 0x80 ==> x & 0x80 == 0 && x << 1 == 2 * x) && 0x80u8 & 0x80 != 0 && (0x80u8 << 1)
        ^ 0x12 == 0x12 && 0u8 ^ 0u8 == 0) by (bit_vector);
    if a.len() > 0 {
        let (p, q) = (a.drop_last(), b.drop_last());
        law_command_checksum(p, q, x);
        assert(added(a, b).drop_last() =~= added(p, q));
        let (r, s, y, z) = (sdhci::crc7_register(p), sdhci::crc7_register(q), a.last(), b.last());
        assert((r ^ s) ^ (y ^ z) == (r ^ y) ^ (s ^ z)) by (bit_vector);
        lemma_crc7_adds(r ^ y, s ^ z, 8);
    }
}

/// Steps of the register add up.
proof fn lemma_crc7_adds(x: u8, y: u8, n: nat)
    ensures
        sdhci::crc7_bits(x ^ y, n) == sdhci::crc7_bits(x, n) ^ sdhci::crc7_bits(y, n),
    decreases n,
{
    if n > 0 {
        let m = (n - 1) as nat;
        lemma_crc7_adds(x, y, m);
        let (p, q) = (sdhci::crc7_bits(x, m), sdhci::crc7_bits(y, m));
        assert(sdhci::crc7_bit(p ^ q) == sdhci::crc7_bit(p) ^ sdhci::crc7_bit(q)) by (bit_vector);
    }
}

/// The checksum of data blocks is the remainder by x^16 + x^12 + x^5 + 1: a step of its
/// register turns the highest bit, 0x8000, into 0x1021, and the checksum of a sum is the sum of
/// the checksums.
pub proof fn law_data_checksum(a: Seq<u8>, b: Seq<u8>, x: u16)
    requires
        a.len() == b.len(),
    ensures
        x < 0x8000 ==> sdhci::crc16_bit(x) == 2 * x,
        sdhci::crc16_bit(0x8000) == 0x1021,
        sdhci::crc16_of(added(a, b)) == sdhci::crc16_of(a) ^ sdhci::crc16_of(b),
    decreases a.len(),
{
    assert((x < 0x8000 ==> x & 0x8000 == 0 && x << 1 == 2 * x) && 0x8000u16 & 0x8000 != 0 && (0x8000u16 << 1)
        ^ 0x1021 == 0x1021 && 0u16 ^ 0u16 == 0) by (bit_vector);
    if a.len() > 0 {
        let (p, q) = (a.drop_last(), b.drop_last());
        law_data_checksum(p, q, x);
        assert(added(a, b).drop_last() =~= added(p, q));
        let (r, s, y, z) = (sdhci::crc16_of(p), sdhci::crc16_of(q), a.last(), b.last());
        assert((r ^ s) ^ (((y ^ z) as u16) << 8) == (r ^ ((y as u16) << 8)) ^ (s ^ ((z as u16)
            << 8))) by (bit_vector);
        lemma_crc16_adds(r ^ ((y as u16) << 8), s ^ ((z as u16) << 8), 8);
    }
}

/// Steps of the register add up.
proof fn lemma_crc16_adds(x: u16, y: u16, n: nat)
    ensures
        sdhci::crc16_bits(x ^ y, n) == sdhci::crc16_bits(x, n) ^ sdhci::crc16_bits(y, n),
    decreases n,
{
    if n > 0 {
        let m = (n - 1) as nat;
        lemma_crc16_adds(x, y, m);
        let (p, q) = (sdhci::crc16_bits(x, m), sdhci::crc16_bits(y, m));
        assert(sdhci::crc16_bit(p ^ q) == sdhci::crc16_bit(p) ^ sdhci::crc16_bit(q))
            by (bit_vector);
    }
}

} // verus!
