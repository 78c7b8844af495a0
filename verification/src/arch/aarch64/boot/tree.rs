//! Device trees as trees, and what the reader of flattened ones finds in them.
use crate::arch::aarch64::boot::fdt;
use crate::arch::aarch64::boot::fdt::{Blocks, Item, Kind, MmioAddrs, NodeState, RamRegion};
use crate::bytes;
use vstd::prelude::*;

verus! {

// ---------------------------------------------------------------------------
// Trees and their flattened form
// ---------------------------------------------------------------------------

/// A node: its name, and what stands in it, in order.
pub struct Node {
    pub name: Seq<u8>,
    pub parts: Seq<Part>,
}

/// What stands in a node: a property with name and value, a child, or nothing.
pub enum Part {
    Prop(Seq<u8>, Seq<u8>),
    Child(Node),
    Nop,
}

/// One token of a flattened tree.
pub enum Tok {
    Begin(Seq<u8>),
    End,
    Prop(Seq<u8>, Seq<u8>),
    Nop,
}

/// The tokens of a node: its start, what stands in it, its end.
pub open spec fn flat(n: Node) -> Seq<Tok>
    decreases n,
{
    seq![Tok::Begin(n.name)] + flat_parts(n.parts) + seq![Tok::End]
}

/// The tokens of what stands in a node.
pub open spec fn flat_parts(parts: Seq<Part>) -> Seq<Tok>
    decreases parts,
{
    if parts.len() == 0 {
        Seq::empty()
    } else {
        flat_part(parts[0]) + flat_parts(parts.skip(1))
    }
}

/// The tokens of one part.
pub open spec fn flat_part(p: Part) -> Seq<Tok>
    decreases p,
{
    match p {
        Part::Prop(name, value) => seq![Tok::Prop(name, value)],
        Part::Child(n) => flat(n),
        Part::Nop => seq![Tok::Nop],
    }
}

/// `n`, rounded up so that its distance from `base` is a multiple of four.
pub open spec fn rounded(base: int, n: int) -> int {
    if (n - base) % 4 == 0 {
        n
    } else {
        n + 4 - (n - base) % 4
    }
}

/// The text `s`, which has no zero byte, stands at `at` of `b` and is ended by a zero byte.
pub open spec fn text_at(b: Seq<u8>, at: int, s: Seq<u8>) -> bool {
    &&& 0 <= at
    &&& at + s.len() < b.len()
    &&& b.subrange(at, at + s.len()) == s
    &&& b[at + s.len()] == 0
    &&& forall|j: int| 0 <= j < s.len() ==> #[trigger] s[j] != 0
}

/// Token `t` stands at offset `at`: its number, and behind it the node's name, or length of
/// the value, offset of the name among the strings, and the value.
pub open spec fn tok_at(b: Seq<u8>, k: Blocks, at: int, t: Tok) -> bool {
    &&& at + 4 <= k.end
    &&& match t {
        Tok::Begin(name) => bytes::be32_at(b, at) == 1 && text_at(b, at + 4, name) && at + 4
            + name.len() < k.end,
        Tok::End => bytes::be32_at(b, at) == 2,
        Tok::Nop => bytes::be32_at(b, at) == 4,
        Tok::Prop(name, value) => {
            &&& bytes::be32_at(b, at) == 3
            &&& at + 12 + value.len() <= k.end
            &&& bytes::be32_at(b, at + 4) == value.len()
            &&& text_at(b, k.strings + bytes::be32_at(b, at + 8), name)
            &&& b.subrange(at + 12, at + 12 + value.len()) == value
        },
    }
}

/// The offset behind token `t` at offset `at`: tokens start at multiples of four.
pub open spec fn tok_end(k: Blocks, at: int, t: Tok) -> int {
    match t {
        Tok::Begin(name) => rounded(k.structs as int, at + 4 + name.len() + 1),
        Tok::End => at + 4,
        Tok::Nop => at + 4,
        Tok::Prop(_, value) => rounded(k.structs as int, at + 12 + value.len()),
    }
}

/// The tokens `ts` stand one after the other from offset `at` on, and the end token (9)
/// behind them.
pub open spec fn toks_at(b: Seq<u8>, k: Blocks, at: int, ts: Seq<Tok>) -> bool
    decreases ts.len(),
{
    if ts.len() == 0 {
        at + 4 <= k.end && bytes::be32_at(b, at) == 9
    } else {
        tok_at(b, k, at, ts[0]) && toks_at(b, k, tok_end(k, at, ts[0]), ts.skip(1))
    }
}

/// `b` holds the flattened form of the tree: the magic number, the total size, the offsets of
/// structure and strings, and the tokens from the structure's offset on.
pub open spec fn holds(b: Seq<u8>, root: Node) -> bool {
    let total = bytes::be32_at(b, 4);
    let structs = bytes::be32_at(b, 8);
    let strings = bytes::be32_at(b, 12);
    &&& b.len() >= 16
    &&& bytes::be32_at(b, 0) == 0xD00D_FEED
    &&& structs < total
    &&& strings < total
    &&& total <= b.len()
    &&& toks_at(
        b,
        (Blocks { structs: structs as usize, strings: strings as usize, end: total as usize }),
        structs,
        flat(root),
    )
}

/// The item that the reader makes of a token.
pub open spec fn means(b: Seq<u8>, i: Item, t: Tok) -> bool {
    match (i, t) {
        (Item::Begin(at), Tok::Begin(name)) => text_at(b, at, name),
        (Item::End, Tok::End) => true,
        (Item::Nop, Tok::Nop) => true,
        (Item::Prop(at, from, len), Tok::Prop(name, value)) => text_at(b, at, name) && 0 <= from
            && from + len <= b.len() && len == value.len() && b.subrange(from, from + len)
            == value,
        _ => false,
    }
}

proof fn lemma_name_ends(b: Seq<u8>, at: int, s: Seq<u8>, j: int, end: int)
    requires
        text_at(b, at, s),
        at + s.len() < end,
        0 <= j <= s.len(),
    ensures
        fdt::name_end(b, at + j, end) == at + s.len(),
    decreases s.len() - j,
{
    if j < s.len() {
        assert(b.subrange(at, at + s.len())[j] == b[at + j]);
        assert(s[j] != 0);
        lemma_name_ends(b, at, s, j + 1, end);
    }
}

/// One token is read as the item that it is, and the reader goes on right behind it.
proof fn lemma_item(b: Seq<u8>, k: Blocks, at: int, t: Tok)
    requires
        tok_at(b, k, at, t),
        k.structs <= at,
        k.end <= b.len(),
    ensures
        ({
            match fdt::item_at(b, k, at) {
                Some((item, next)) => means(b, item, t) && next == tok_end(k, at, t),
                None => false,
            }
        }),
{
    match t {
        Tok::Begin(name) => {
            lemma_name_ends(b, at + 4, name, 0, k.end as int);
        },
        _ => {},
    }
}

/// The tokens of a tree are read as the items that they are.
proof fn lemma_items(b: Seq<u8>, k: Blocks, at: int, ts: Seq<Tok>)
    requires
        toks_at(b, k, at, ts),
        k.structs <= at,
        k.end <= b.len(),
    ensures
        fdt::items(b, k, at).len() == ts.len(),
        forall|i: int|
            0 <= i < ts.len() ==> means(b, #[trigger] fdt::items(b, k, at)[i], ts[i]),
    decreases ts.len(),
{
    if ts.len() == 0 {
        assert(fdt::items(b, k, at) =~= Seq::<Item>::empty());
    } else {
        lemma_item(b, k, at, ts[0]);
        let (item, next) = fdt::item_at(b, k, at)->0;
        let rest = ts.skip(1);
        lemma_items(b, k, next, rest);
        let l = fdt::items(b, k, at);
        assert(l == seq![item] + fdt::items(b, k, next));
        assert forall|i: int| 0 <= i < ts.len() implies means(b, #[trigger] l[i], ts[i]) by {
            if i > 0 {
                assert(l[i] == fdt::items(b, k, next)[i - 1]);
                assert(rest[i - 1] == ts[i]);
            }
        }
    }
}

// ---------------------------------------------------------------------------
// RAM
// ---------------------------------------------------------------------------

/// The name starts with `memory`.
pub open spec fn is_memory(name: Seq<u8>) -> bool {
    name.len() >= 6 && name.take(6) == seq![109u8, 101, 109, 111, 114, 121]
}

/// A `reg` property with room for an address and a size.
pub open spec fn is_reg(t: Tok) -> bool {
    t is Prop && t->Prop_0 == seq![114u8, 101, 103] && t->Prop_1.len() >= 16
}

/// The region that the value of a `reg` property gives: an address and a size, both of eight
/// bytes.
pub open spec fn region_of(t: Tok) -> RamRegion {
    RamRegion {
        base: bytes::be64_at(t->Prop_1, 0) as u64,
        size: bytes::be64_at(t->Prop_1, 8) as u64,
    }
}

/// The part is a child whose name starts with `memory`.
pub open spec fn is_memory_child(p: Part) -> bool {
    p is Child && is_memory(p->Child_0.name)
}

/// None of the tokens is a usable `reg` property.
pub open spec fn no_reg(ts: Seq<Tok>) -> bool {
    forall|i: int| 0 <= i < ts.len() ==> !is_reg(#[trigger] ts[i])
}

/// A name is the text that is looked for exactly where the text with its terminator stands.
proof fn lemma_exact_name(b: Seq<u8>, at: int, name: Seq<u8>, text: Seq<u8>)
    requires
        text_at(b, at, name),
        forall|j: int| 0 <= j < text.len() ==> #[trigger] text[j] != 0,
    ensures
        fdt::starts_with(b, at, text.push(0)) <==> name == text,
{
    let n = text.len() as int;
    assert forall|j: int| 0 <= j < name.len() implies #[trigger] name[j] == b[at + j] by {
        assert(b.subrange(at, at + name.len())[j] == b[at + j]);
    }
    if name == text {
        assert(b.subrange(at, at + n + 1) =~= text.push(0)) by {
            assert forall|j: int| 0 <= j < n implies #[trigger] b.subrange(at, at + n + 1)[j]
                == text[j] by {
                assert(name[j] == b[at + j]);
            }
        }
    }
    if fdt::starts_with(b, at, text.push(0)) {
        let w = b.subrange(at, at + n + 1);
        assert forall|j: int| 0 <= j <= n implies #[trigger] w[j] == b[at + j] by {}
        assert(w == text.push(0));
        if name.len() < n {
            let m = name.len() as int;
            assert(w[m] == text[m]);
        } else if name.len() > n {
            assert(w[n] == 0);
            assert(name[n] == b[at + n]);
        } else {
            assert forall|j: int| 0 <= j < n implies #[trigger] name[j] == text[j] by {
                assert(w[j] == text[j]);
            }
            assert(name =~= text);
        }
    }
}

proof fn lemma_reg_name(b: Seq<u8>, at: int, name: Seq<u8>)
    requires
        text_at(b, at, name),
    ensures
        fdt::starts_with(b, at, fdt::reg_name()) <==> name == seq![114u8, 101, 103],
{
    let text = seq![114u8, 101, 103];
    lemma_exact_name(b, at, name, text);
    assert(text.push(0) =~= fdt::reg_name());
}

proof fn lemma_memory_name(b: Seq<u8>, at: int, name: Seq<u8>)
    requires
        text_at(b, at, name),
    ensures
        fdt::starts_with(b, at, fdt::memory_name()) <==> is_memory(name),
{
    let m = seq![109u8, 101, 109, 111, 114, 121];
    assert forall|j: int| 0 <= j < name.len() implies #[trigger] name[j] == b[at + j] by {
        assert(b.subrange(at, at + name.len())[j] == b[at + j]);
    }
    if is_memory(name) {
        assert forall|j: int| 0 <= j < 6 implies #[trigger] b.subrange(at, at + 6)[j] == m[j] by {
            assert(name.take(6)[j] == name[j]);
        }
        assert(b.subrange(at, at + 6) =~= fdt::memory_name());
    }
    if fdt::starts_with(b, at, fdt::memory_name()) {
        let w = b.subrange(at, at + 6);
        assert forall|j: int| 0 <= j < 6 implies #[trigger] w[j] == m[j] && b[at + j] == m[j] by {}
        if name.len() < 6 {
            let n = name.len() as int;
            assert(w[n] == b[at + n]);
            assert(b[at + n] == 0);
        } else {
            assert forall|j: int| 0 <= j < 6 implies #[trigger] name.take(6)[j] == m[j] by {
                assert(w[j] == b[at + j]);
                assert(name[j] == b[at + j]);
            }
            assert(name.take(6) =~= m);
        }
    }
}

/// The items `l` are those of the tokens `ts`.
pub open spec fn all_mean(b: Seq<u8>, l: Seq<Item>, ts: Seq<Tok>) -> bool {
    &&& l.len() == ts.len()
    &&& forall|i: int| 0 <= i < ts.len() ==> means(b, #[trigger] l[i], ts[i])
}

/// The tokens `ts` stand from position `p` of `all` on.
pub open spec fn stand_at(all: Seq<Tok>, p: int, ts: Seq<Tok>) -> bool {
    &&& 0 <= p
    &&& p + ts.len() <= all.len()
    &&& forall|i: int| 0 <= i < ts.len() ==> #[trigger] all[p + i] == ts[i]
}

/// One item of the walk for RAM.
proof fn lemma_ram_step(b: Seq<u8>, l: Seq<Item>, all: Seq<Tok>, p: int, depth: nat, inside: bool)
    requires
        all_mean(b, l, all),
        0 <= p < all.len(),
    ensures
        fdt::ram_in(b, l.skip(p), depth, inside) == (match all[p] {
            Tok::Begin(name) => fdt::ram_in(
                b,
                l.skip(p + 1),
                depth + 1,
                inside || (depth == 1 && is_memory(name)),
            ),
            Tok::End => fdt::ram_in(
                b,
                l.skip(p + 1),
                if depth == 0 {
                    0
                } else {
                    (depth - 1) as nat
                },
                inside && depth != 2,
            ),
            Tok::Prop(_, _) => if inside && is_reg(all[p]) {
                Some(region_of(all[p]))
            } else {
                fdt::ram_in(b, l.skip(p + 1), depth, inside)
            },
            Tok::Nop => fdt::ram_in(b, l.skip(p + 1), depth, inside),
        }),
{
    let s = l.skip(p);
    assert(s.skip(1) =~= l.skip(p + 1));
    assert(s[0] == l[p]);
    assert(means(b, l[p], all[p]));
    match (l[p], all[p]) {
        (Item::Begin(at), Tok::Begin(name)) => {
            lemma_memory_name(b, at, name);
        },
        (Item::Prop(at, from, len), Tok::Prop(name, value)) => {
            lemma_reg_name(b, at, name);
            if value.len() >= 16 {
                lemma_value(b, from, value);
            }
        },
        _ => {},
    }
}

/// Two numbers of a value, read in place.
proof fn lemma_value(b: Seq<u8>, from: int, value: Seq<u8>)
    requires
        0 <= from,
        from + value.len() <= b.len(),
        b.subrange(from, from + value.len()) == value,
        value.len() >= 16,
    ensures
        bytes::be64_at(b, from) == bytes::be64_at(value, 0),
        bytes::be64_at(b, from + 8) == bytes::be64_at(value, 8),
        value.len() >= 32 ==> bytes::be64_at(b, from + 16) == bytes::be64_at(value, 16),
{
    let w = b.subrange(from, from + value.len());
    assert forall|j: int| 0 <= j < value.len() implies #[trigger] w[j] == b[from + j] by {}
    assert(w[0] == b[from] && w[1] == b[from + 1] && w[2] == b[from + 2] && w[3] == b[from + 3]);
    assert(w[4] == b[from + 4] && w[5] == b[from + 5] && w[6] == b[from + 6] && w[7] == b[from
        + 7]);
    assert(w[8] == b[from + 8] && w[9] == b[from + 9] && w[10] == b[from + 10] && w[11] == b[from
        + 11]);
    assert(w[12] == b[from + 12] && w[13] == b[from + 13] && w[14] == b[from + 14] && w[15]
        == b[from + 15]);
    if value.len() >= 32 {
        assert(w[16] == b[from + 16] && w[17] == b[from + 17] && w[18] == b[from + 18] && w[19]
            == b[from + 19]);
        assert(w[20] == b[from + 20] && w[21] == b[from + 21] && w[22] == b[from + 22] && w[23]
            == b[from + 23]);
    }
}

/// The walk over what stands in a node two or more deep: outside of memory nothing counts,
/// inside of it the first usable `reg` does, and otherwise the walk goes on as it was.
proof fn lemma_ram_parts(
    b: Seq<u8>,
    l: Seq<Item>,
    all: Seq<Tok>,
    p: int,
    parts: Seq<Part>,
    depth: nat,
    inside: bool,
)
    requires
        all_mean(b, l, all),
        stand_at(all, p, flat_parts(parts)),
        depth >= 2,
    ensures
        !inside || no_reg(flat_parts(parts)) ==> fdt::ram_in(b, l.skip(p), depth, inside)
            == fdt::ram_in(b, l.skip(p + flat_parts(parts).len()), depth, inside),
        forall|q: int|
            inside && 0 <= q < flat_parts(parts).len() && is_reg(#[trigger] flat_parts(parts)[q])
                && no_reg(flat_parts(parts).take(q)) ==> fdt::ram_in(b, l.skip(p), depth, inside)
                == Some(region_of(flat_parts(parts)[q])),
    decreases parts,
{
    let f = flat_parts(parts);
    if parts.len() == 0 {
        assert(l.skip(p + 0) =~= l.skip(p));
    } else {
        let one = flat_part(parts[0]);
        let rest = flat_parts(parts.skip(1));
        let n = one.len() as int;
        assert(f == one + rest);
        assert(stand_at(all, p, one)) by {
            assert(forall|i: int| 0 <= i < n ==> #[trigger] one[i] == f[i]);
        }
        assert(stand_at(all, p + n, rest)) by {
            assert(forall|i: int| 0 <= i < rest.len() ==> #[trigger] rest[i] == f[n + i]);
            assert(forall|i: int| 0 <= i < rest.len() ==> #[trigger] all[p + n + i] == all[p + (n
                + i)]);
        }
        lemma_ram_part(b, l, all, p, parts[0], depth, inside);
        lemma_ram_parts(b, l, all, p + n, parts.skip(1), depth, inside);
        lemma_no_reg_split(one, rest);
        assert forall|q: int|
            inside && 0 <= q < f.len() && is_reg(#[trigger] f[q]) && no_reg(f.take(q)) implies
            fdt::ram_in(b, l.skip(p), depth, inside) == Some(region_of(f[q])) by {
            if q < n {
                assert(f.take(q) =~= one.take(q));
                assert(f[q] == one[q]);
            } else {
                assert(f[q] == rest[q - n]);
                assert(no_reg(one)) by {
                    assert forall|i: int| 0 <= i < one.len() implies !is_reg(#[trigger] one[i]) by {
                        assert(f.take(q)[i] == one[i]);
                    }
                }
                assert(no_reg(rest.take(q - n))) by {
                    assert forall|i: int| 0 <= i < q - n implies !is_reg(
                        #[trigger] rest.take(q - n)[i],
                    ) by {
                        assert(f.take(q)[n + i] == rest[i]);
                    }
                }
            }
        }
    }
}

proof fn lemma_no_reg_split(a: Seq<Tok>, b: Seq<Tok>)
    ensures
        no_reg(a + b) <==> no_reg(a) && no_reg(b),
{
    if no_reg(a + b) {
        assert forall|i: int| 0 <= i < a.len() implies !is_reg(#[trigger] a[i]) by {
            assert((a + b)[i] == a[i]);
        }
        assert forall|i: int| 0 <= i < b.len() implies !is_reg(#[trigger] b[i]) by {
            assert((a + b)[a.len() + i] == b[i]);
        }
    }
}

/// The same for one part.
proof fn lemma_ram_part(
    b: Seq<u8>,
    l: Seq<Item>,
    all: Seq<Tok>,
    p: int,
    part: Part,
    depth: nat,
    inside: bool,
)
    requires
        all_mean(b, l, all),
        stand_at(all, p, flat_part(part)),
        depth >= 2,
    ensures
        !inside || no_reg(flat_part(part)) ==> fdt::ram_in(b, l.skip(p), depth, inside)
            == fdt::ram_in(b, l.skip(p + flat_part(part).len()), depth, inside),
        forall|q: int|
            inside && 0 <= q < flat_part(part).len() && is_reg(#[trigger] flat_part(part)[q])
                && no_reg(flat_part(part).take(q)) ==> fdt::ram_in(b, l.skip(p), depth, inside)
                == Some(region_of(flat_part(part)[q])),
    decreases part,
{
    let f = flat_part(part);
    assert(all[p + 0] == f[0]);
    lemma_ram_step(b, l, all, p, depth, inside);
    match part {
        Part::Child(n) => {
            let inner = flat_parts(n.parts);
            let m = inner.len() as int;
            assert(f == seq![Tok::Begin(n.name)] + inner + seq![Tok::End]);
            assert(stand_at(all, p + 1, inner)) by {
                assert forall|i: int| 0 <= i < m implies #[trigger] all[p + 1 + i] == inner[i] by {
                    assert(all[p + (1 + i)] == f[1 + i]);
                }
            }
            lemma_ram_parts(b, l, all, p + 1, n.parts, depth + 1, inside);
            assert(all[p + (m + 1)] == f[m + 1]);
            lemma_ram_step(b, l, all, p + m + 1, depth + 1, inside);
            if no_reg(f) {
                assert forall|i: int| 0 <= i < m implies !is_reg(#[trigger] inner[i]) by {
                    assert(f[i + 1] == inner[i]);
                }
            }
            assert forall|q: int|
                inside && 0 <= q < f.len() && is_reg(#[trigger] f[q]) && no_reg(f.take(q)) implies
                fdt::ram_in(b, l.skip(p), depth, inside) == Some(region_of(f[q])) by {
                assert(1 <= q <= m);
                assert(f[q] == inner[q - 1]);
                assert forall|i: int| 0 <= i < q - 1 implies !is_reg(
                    #[trigger] inner.take(q - 1)[i],
                ) by {
                    assert(f.take(q)[i + 1] == inner[i]);
                }
            }
        },
        _ => {},
    }
}

/// The walk over what stands in the root, outside of memory: a child that is no memory, or
/// one in which there is no usable `reg`, is passed over.
proof fn lemma_ram_root(
    b: Seq<u8>,
    l: Seq<Item>,
    all: Seq<Tok>,
    p: int,
    part: Part,
)
    requires
        all_mean(b, l, all),
        stand_at(all, p, flat_part(part)),
    ensures
        !is_memory_child(part) || no_reg(flat_part(part)) ==> fdt::ram_in(b, l.skip(p), 1, false)
            == fdt::ram_in(b, l.skip(p + flat_part(part).len()), 1, false),
        forall|q: int|
            is_memory_child(part) && 0 <= q < flat_part(part).len() && is_reg(
                #[trigger] flat_part(part)[q],
            ) && no_reg(flat_part(part).take(q)) ==> fdt::ram_in(b, l.skip(p), 1, false) == Some(
                region_of(flat_part(part)[q]),
            ),
{
    let f = flat_part(part);
    assert(all[p + 0] == f[0]);
    lemma_ram_step(b, l, all, p, 1, false);
    match part {
        Part::Child(n) => {
            let inner = flat_parts(n.parts);
            let m = inner.len() as int;
            let inside = is_memory(n.name);
            assert(f == seq![Tok::Begin(n.name)] + inner + seq![Tok::End]);
            assert(stand_at(all, p + 1, inner)) by {
                assert forall|i: int| 0 <= i < m implies #[trigger] all[p + 1 + i] == inner[i] by {
                    assert(all[p + (1 + i)] == f[1 + i]);
                }
            }
            lemma_ram_parts(b, l, all, p + 1, n.parts, 2, inside);
            assert(all[p + (m + 1)] == f[m + 1]);
            lemma_ram_step(b, l, all, p + m + 1, 2, inside);
            if no_reg(f) {
                assert forall|i: int| 0 <= i < m implies !is_reg(#[trigger] inner[i]) by {
                    assert(f[i + 1] == inner[i]);
                }
            }
            assert forall|q: int|
                inside && 0 <= q < f.len() && is_reg(#[trigger] f[q]) && no_reg(f.take(q)) implies
                fdt::ram_in(b, l.skip(p), 1, false) == Some(region_of(f[q])) by {
                assert(1 <= q <= m);
                assert(f[q] == inner[q - 1]);
                assert forall|i: int| 0 <= i < q - 1 implies !is_reg(
                    #[trigger] inner.take(q - 1)[i],
                ) by {
                    assert(f.take(q)[i + 1] == inner[i]);
                }
            }
        },
        _ => {},
    }
}

/// Where part `i` starts among the tokens of its node's parts.
pub open spec fn start_of(parts: Seq<Part>, i: int) -> int
    decreases i,
{
    if i <= 0 {
        0
    } else {
        flat_part(parts[0]).len() + start_of(parts.skip(1), i - 1)
    }
}

/// The walk over the first `i` parts of the root, where nothing in them counts.
proof fn lemma_ram_passed(b: Seq<u8>, l: Seq<Item>, all: Seq<Tok>, p: int, parts: Seq<Part>, i: int)
    requires
        all_mean(b, l, all),
        stand_at(all, p, flat_parts(parts)),
        0 <= i <= parts.len(),
        forall|j: int|
            0 <= j < i ==> !is_memory_child(#[trigger] parts[j]) || no_reg(flat_part(parts[j])),
    ensures
        fdt::ram_in(b, l.skip(p), 1, false) == fdt::ram_in(
            b,
            l.skip(p + start_of(parts, i)),
            1,
            false,
        ),
        i < parts.len() ==> stand_at(all, p + start_of(parts, i), flat_part(parts[i])),
        i == parts.len() ==> start_of(parts, i) == flat_parts(parts).len(),
    decreases i,
{
    if parts.len() > 0 {
        let f = flat_parts(parts);
        let one = flat_part(parts[0]);
        let more = parts.skip(1);
        let rest = flat_parts(more);
        let n = one.len() as int;
        assert(f == one + rest);
        assert(stand_at(all, p, one)) by {
            assert(forall|i: int| 0 <= i < n ==> #[trigger] one[i] == f[i]);
        }
        assert(stand_at(all, p + n, rest)) by {
            assert forall|i: int| 0 <= i < rest.len() implies #[trigger] all[p + n + i]
                == rest[i] by {
                assert(all[p + (n + i)] == f[n + i]);
            }
        }
        if i > 0 {
            lemma_ram_root(b, l, all, p, parts[0]);
            assert(!is_memory_child(parts[0]) || no_reg(flat_part(parts[0])));
            assert forall|j: int| 0 <= j < i - 1 implies !is_memory_child(#[trigger] more[j])
                || no_reg(flat_part(more[j])) by {
                assert(more[j] == parts[j + 1]);
            }
            lemma_ram_passed(b, l, all, p + n, more, i - 1);
            assert(p + n + start_of(more, i - 1) == p + start_of(parts, i));
        }
    }
}

/// What the reader makes of a tree that `b` holds.
proof fn lemma_held(b: Seq<u8>, root: Node) -> (l: Seq<Item>)
    requires
        holds(b, root),
    ensures
        all_mean(b, l, flat(root)),
        fdt::ram_of(b) == fdt::ram_in(b, l, 0, false),
        fdt::mmio_of(b) == fdt::mmio_in(b, l, Seq::empty(), fdt::no_mmio()),
        fdt::header(b) is Some,
{
    let k = fdt::header(b)->0;
    let l = fdt::items(b, k, k.structs as int);
    lemma_items(b, k, k.structs as int, flat(root));
    l
}

/// The first `i` parts of the root, read from its start on.
proof fn lemma_ram_start(b: Seq<u8>, root: Node, l: Seq<Item>, i: int)
    requires
        all_mean(b, l, flat(root)),
        0 <= i <= root.parts.len(),
        forall|j: int|
            0 <= j < i ==> !is_memory_child(#[trigger] root.parts[j]) || no_reg(
                flat_part(root.parts[j]),
            ),
    ensures
        fdt::ram_in(b, l, 0, false) == fdt::ram_in(
            b,
            l.skip(1 + start_of(root.parts, i)),
            1,
            false,
        ),
        i < root.parts.len() ==> stand_at(
            flat(root),
            1 + start_of(root.parts, i),
            flat_part(root.parts[i]),
        ),
        i == root.parts.len() ==> start_of(root.parts, i) == flat(root).len() - 2,
{
    let all = flat(root);
    let inner = flat_parts(root.parts);
    assert(all == seq![Tok::Begin(root.name)] + inner + seq![Tok::End]);
    assert(l.skip(0) =~= l);
    assert(all[0] == Tok::Begin(root.name));
    lemma_ram_step(b, l, all, 0, 0, false);
    assert(stand_at(all, 1, inner)) by {
        assert(forall|i: int| 0 <= i < inner.len() ==> #[trigger] all[1 + i] == inner[i]);
    }
    lemma_ram_passed(b, l, all, 1, root.parts, i);
}

/// The RAM of a tree is what the first usable `reg` property says that stands in a child of
/// the root whose name starts with `memory`: eight bytes of address and eight of size.
/// It does not matter what stands before that child, or before that property in it: other
/// properties, nodes of any depth that are no memory, and memory nodes without such a
/// property.
pub proof fn law_ram_is_found(b: Seq<u8>, root: Node, i: int, q: int)
    requires
        holds(b, root),
        0 <= i < root.parts.len(),
        is_memory_child(root.parts[i]),
        forall|j: int|
            0 <= j < i ==> !is_memory_child(#[trigger] root.parts[j]) || no_reg(
                flat_part(root.parts[j]),
            ),
        0 <= q < flat_part(root.parts[i]).len(),
        is_reg(flat_part(root.parts[i])[q]),
        no_reg(flat_part(root.parts[i]).take(q)),
    ensures
        fdt::ram_of(b) == Some(region_of(flat_part(root.parts[i])[q])),
{
    let l = lemma_held(b, root);
    lemma_ram_start(b, root, l, i);
    lemma_ram_root(b, l, flat(root), 1 + start_of(root.parts, i), root.parts[i]);
}

/// A tree whose memory nodes have no usable `reg` property describes no RAM, whatever other
/// nodes have.
pub proof fn law_no_ram(b: Seq<u8>, root: Node)
    requires
        holds(b, root),
        forall|j: int|
            0 <= j < root.parts.len() ==> !is_memory_child(#[trigger] root.parts[j]) || no_reg(
                flat_part(root.parts[j]),
            ),
    ensures
        fdt::ram_of(b) is None,
{
    let l = lemma_held(b, root);
    let n = root.parts.len() as int;
    lemma_ram_start(b, root, l, n);
    let all = flat(root);
    let e = all.len() - 1;
    assert(all == seq![Tok::Begin(root.name)] + flat_parts(root.parts) + seq![Tok::End]);
    assert(all[e] == Tok::End);
    lemma_ram_step(b, l, all, e, 1, false);
    assert(l.skip(e + 1).len() == 0);
}

/// The first of the root's parts from `i` on that is memory with a usable `reg`.
proof fn lemma_first_memory(parts: Seq<Part>, i: int) -> (j: int)
    requires
        0 <= i <= parts.len(),
    ensures
        i <= j <= parts.len(),
        j < parts.len() ==> is_memory_child(parts[j]) && !no_reg(flat_part(parts[j])),
        forall|m: int|
            i <= m < j ==> !is_memory_child(#[trigger] parts[m]) || no_reg(flat_part(parts[m])),
    decreases parts.len() - i,
{
    if i == parts.len() {
        i
    } else if is_memory_child(parts[i]) && !no_reg(flat_part(parts[i])) {
        i
    } else {
        lemma_first_memory(parts, i + 1)
    }
}

/// The first usable `reg` among tokens that have one.
proof fn lemma_first_reg(ts: Seq<Tok>, i: int) -> (q: int)
    requires
        0 <= i <= ts.len(),
        no_reg(ts.take(i)),
        !no_reg(ts),
    ensures
        0 <= q < ts.len(),
        is_reg(ts[q]),
        no_reg(ts.take(q)),
    decreases ts.len() - i,
{
    if i == ts.len() {
        assert(ts.take(i) =~= ts);
        i
    } else if is_reg(ts[i]) {
        i
    } else {
        assert forall|m: int| 0 <= m < i + 1 implies !is_reg(#[trigger] ts.take(i + 1)[m]) by {
            if m < i {
                assert(ts.take(i)[m] == ts[m]);
            }
        }
        lemma_first_reg(ts, i + 1)
    }
}

/// What is no memory does not matter: putting a property or a node that is no memory
/// anywhere among the parts of the root leaves the RAM that is found as it was.
pub proof fn law_other_nodes_do_not_matter(
    b: Seq<u8>,
    root: Node,
    b2: Seq<u8>,
    root2: Node,
    i: int,
    part: Part,
)
    requires
        holds(b, root),
        holds(b2, root2),
        0 <= i <= root.parts.len(),
        !is_memory_child(part),
        root2.parts == root.parts.insert(i, part),
    ensures
        fdt::ram_of(b2) == fdt::ram_of(b),
{
    let j = lemma_first_memory(root.parts, 0);
    let p = root.parts;
    let p2 = root2.parts;
    assert forall|m: int| 0 <= m < p2.len() implies #[trigger] p2[m] == (if m < i {
        p[m]
    } else if m == i {
        part
    } else {
        p[m - 1]
    }) by {}
    if j == p.len() {
        law_no_ram(b, root);
        assert forall|m: int| 0 <= m < p2.len() implies !is_memory_child(#[trigger] p2[m])
            || no_reg(flat_part(p2[m])) by {
            if m < i {
                assert(p2[m] == p[m]);
            } else if m > i {
                assert(p2[m] == p[m - 1]);
            }
        }
        law_no_ram(b2, root2);
    } else {
        let f = flat_part(p[j]);
        assert(no_reg(f.take(0)));
        let q = lemma_first_reg(f, 0);
        law_ram_is_found(b, root, j, q);
        let j2 = if j < i {
            j
        } else {
            j + 1
        };
        assert(p2[j2] == p[j]);
        assert forall|m: int| 0 <= m < j2 implies !is_memory_child(#[trigger] p2[m]) || no_reg(
            flat_part(p2[m]),
        ) by {
            if m < i {
                assert(p2[m] == p[m]);
            } else if m > i {
                assert(p2[m] == p[m - 1]);
            }
        }
        law_ram_is_found(b2, root2, j2, q);
    }
}

/// Without the magic number, or with blocks outside of the tree or a tree outside of the
/// bytes, nothing is found.
pub proof fn law_no_tree(b: Seq<u8>)
    requires
        b.len() < 16 || bytes::be32_at(b, 0) != 0xD00D_FEED || bytes::be32_at(b, 4) > b.len()
            || bytes::be32_at(b, 8) >= bytes::be32_at(b, 4) || bytes::be32_at(b, 12)
            >= bytes::be32_at(b, 4),
    ensures
        fdt::ram_of(b) is None,
        fdt::mmio_of(b).uart0_phys is None,
        fdt::mmio_of(b).gicd_phys is None,
        fdt::mmio_of(b).gicr_phys is None,
{
}

/// The names that are looked for are the texts that they stand for.
pub proof fn law_names()
    ensures
        fdt::memory_name().map_values(|c: u8| c as char) == "memory"@,
        fdt::reg_name().map_values(|c: u8| c as char) == "reg\0"@,
        fdt::compatible_name().map_values(|c: u8| c as char) == "compatible\0"@,
        fdt::uart_entry().map_values(|c: u8| c as char) == "arm,pl011"@,
        fdt::gic_entry().map_values(|c: u8| c as char) == "arm,gic-v3"@,
{
    reveal_strlit("memory");
    reveal_strlit("reg\0");
    reveal_strlit("compatible\0");
    reveal_strlit("arm,pl011");
    reveal_strlit("arm,gic-v3");
    assert(fdt::memory_name().map_values(|c: u8| c as char) =~= "memory"@);
    assert(fdt::reg_name().map_values(|c: u8| c as char) =~= "reg\0"@);
    assert(fdt::compatible_name().map_values(|c: u8| c as char) =~= "compatible\0"@);
    assert(fdt::uart_entry().map_values(|c: u8| c as char) =~= "arm,pl011"@);
    assert(fdt::gic_entry().map_values(|c: u8| c as char) =~= "arm,gic-v3"@);
}

// ---------------------------------------------------------------------------
// Devices
// ---------------------------------------------------------------------------

/// The nodes of a subtree in the order in which they end: children before their parent.
pub open spec fn ended(n: Node) -> Seq<Node>
    decreases n,
{
    ended_parts(n.parts).push(n)
}

/// The nodes among what stands in a node, in the order in which they end.
pub open spec fn ended_parts(parts: Seq<Part>) -> Seq<Node>
    decreases parts,
{
    if parts.len() == 0 {
        Seq::empty()
    } else {
        ended_part(parts[0]) + ended_parts(parts.skip(1))
    }
}

/// The nodes of one part.
pub open spec fn ended_part(p: Part) -> Seq<Node>
    decreases p,
{
    match p {
        Part::Child(n) => ended(n),
        _ => Seq::empty(),
    }
}

/// The node and what is below it are at most `room` nodes deep.
pub open spec fn fits(n: Node, room: int) -> bool
    decreases n,
{
    room >= 1 && fits_parts(n.parts, room - 1)
}

/// Each child among the parts is at most `room` nodes deep.
pub open spec fn fits_parts(parts: Seq<Part>, room: int) -> bool
    decreases parts,
{
    parts.len() == 0 || (fits_part(parts[0], room) && fits_parts(parts.skip(1), room))
}

/// A child is at most `room` nodes deep.
pub open spec fn fits_part(p: Part, room: int) -> bool
    decreases p,
{
    match p {
        Part::Child(n) => fits(n, room),
        _ => true,
    }
}

/// The part is a `compatible` property whose list has the entry `arm,pl011`.
pub open spec fn names_uart(p: Part) -> bool {
    &&& p is Prop
    &&& p->Prop_0 == seq![99u8, 111, 109, 112, 97, 116, 105, 98, 108, 101]
    &&& fdt::has_entry(p->Prop_1, seq![97u8, 114, 109, 44, 112, 108, 48, 49, 49])
}

/// The part is a `compatible` property whose list has the entry `arm,gic-v3`, and not the
/// other one.
pub open spec fn names_gic(p: Part) -> bool {
    &&& p is Prop
    &&& p->Prop_0 == seq![99u8, 111, 109, 112, 97, 116, 105, 98, 108, 101]
    &&& fdt::has_entry(p->Prop_1, seq![97u8, 114, 109, 44, 103, 105, 99, 45, 118, 51])
    &&& !names_uart(p)
}

/// The part is a `reg` property.
pub open spec fn gives_reg(p: Part) -> bool {
    p is Prop && p->Prop_0 == seq![114u8, 101, 103]
}

/// The node is a UART: the last property that names a device, part `c`, names that one, and
/// the last `reg` property, part `r`, has at least 16 bytes.
pub open spec fn uart_by(n: Node, c: int, r: int) -> bool {
    &&& 0 <= c < n.parts.len()
    &&& 0 <= r < n.parts.len()
    &&& names_uart(n.parts[c])
    &&& forall|j: int| c < j < n.parts.len() ==> !names_gic(#[trigger] n.parts[j])
    &&& gives_reg(n.parts[r])
    &&& n.parts[r]->Prop_1.len() >= 16
    &&& forall|j: int| r < j < n.parts.len() ==> !gives_reg(#[trigger] n.parts[j])
}

/// The node is an interrupt controller: likewise, with at least 32 bytes.
pub open spec fn gic_by(n: Node, c: int, r: int) -> bool {
    &&& 0 <= c < n.parts.len()
    &&& 0 <= r < n.parts.len()
    &&& names_gic(n.parts[c])
    &&& forall|j: int| c < j < n.parts.len() ==> !names_uart(#[trigger] n.parts[j])
    &&& gives_reg(n.parts[r])
    &&& n.parts[r]->Prop_1.len() >= 32
    &&& forall|j: int| r < j < n.parts.len() ==> !gives_reg(#[trigger] n.parts[j])
}

/// What the properties say of a node of which `kind` is known.
spec fn kind_from(kind: Kind, parts: Seq<Part>) -> Kind
    decreases parts.len(),
{
    if parts.len() == 0 {
        kind
    } else {
        kind_from(
            if names_uart(parts[0]) {
                Kind::Uart
            } else if names_gic(parts[0]) {
                Kind::Gic
            } else {
                kind
            },
            parts.skip(1),
        )
    }
}

/// The `reg` value after the parts, where `reg` was it before.
spec fn reg_from(reg: Seq<u8>, parts: Seq<Part>) -> Seq<u8>
    decreases parts.len(),
{
    if parts.len() == 0 {
        reg
    } else {
        reg_from(
            if gives_reg(parts[0]) {
                parts[0]->Prop_1
            } else {
                reg
            },
            parts.skip(1),
        )
    }
}

/// What a node adds.
spec fn added(found: MmioAddrs, n: Node) -> MmioAddrs {
    let kind = kind_from(Kind::Other, n.parts);
    let reg = reg_from(Seq::empty(), n.parts);
    if kind is Uart && reg.len() >= 16 && found.uart0_phys is None {
        MmioAddrs { uart0_phys: Some(bytes::be64_at(reg, 0) as u64), ..found }
    } else if kind is Gic && reg.len() >= 32 && found.gicd_phys is None {
        MmioAddrs {
            gicd_phys: Some(bytes::be64_at(reg, 0) as u64),
            gicr_phys: Some(bytes::be64_at(reg, 16) as u64),
            ..found
        }
    } else {
        found
    }
}

/// What the nodes add, one after the other.
spec fn all_added(found: MmioAddrs, ns: Seq<Node>) -> MmioAddrs
    decreases ns.len(),
{
    if ns.len() == 0 {
        found
    } else {
        added(all_added(found, ns.drop_last()), ns.last())
    }
}

proof fn lemma_all_added(found: MmioAddrs, a: Seq<Node>, c: Seq<Node>)
    ensures
        all_added(found, a + c) == all_added(all_added(found, a), c),
    decreases c.len(),
{
    if c.len() == 0 {
        assert(a + c =~= a);
    } else {
        assert((a + c).drop_last() =~= a + c.drop_last());
        lemma_all_added(found, a, c.drop_last());
    }
}

/// What the reader has noted of a node.
spec fn knows(b: Seq<u8>, st: NodeState, kind: Kind, reg: Seq<u8>) -> bool {
    &&& st.kind == kind
    &&& st.reg_len == reg.len()
    &&& reg.len() > 0 ==> st.reg_at + reg.len() <= b.len() && b.subrange(
        st.reg_at as int,
        st.reg_at + reg.len(),
    ) == reg
}

/// One property.
proof fn lemma_prop(
    b: Seq<u8>,
    at: int,
    from: int,
    len: int,
    part: Part,
    st: NodeState,
    kind: Kind,
    reg: Seq<u8>,
)
    requires
        part is Prop,
        means(b, Item::Prop(at, from, len), Tok::Prop(part->Prop_0, part->Prop_1)),
        knows(b, st, kind, reg),
        b.len() <= usize::MAX,
    ensures
        knows(
            b,
            fdt::with_prop(b, st, at, from, len),
            kind_from(kind, seq![part]),
            reg_from(reg, seq![part]),
        ),
{
    let name = part->Prop_0;
    let value = part->Prop_1;
    let text = seq![99u8, 111, 109, 112, 97, 116, 105, 98, 108, 101];
    lemma_exact_name(b, at, name, text);
    assert(text.push(0) =~= fdt::compatible_name());
    lemma_reg_name(b, at, name);
    assert(text[0] == 99 && seq![114u8, 101, 103][0] == 114);
    assert(fdt::uart_entry() =~= seq![97u8, 114, 109, 44, 112, 108, 48, 49, 49]);
    assert(fdt::gic_entry() =~= seq![97u8, 114, 109, 44, 103, 105, 99, 45, 118, 51]);
    let one = seq![part];
    assert(one.skip(1).len() == 0);
    reveal_with_fuel(kind_from, 2);
    reveal_with_fuel(reg_from, 2);
}

/// A finished node.
proof fn lemma_node_added(b: Seq<u8>, n: Node, st: NodeState, found: MmioAddrs)
    requires
        knows(b, st, kind_from(Kind::Other, n.parts), reg_from(Seq::empty(), n.parts)),
    ensures
        fdt::with_node(b, found, st) == added(found, n),
{
    let reg = reg_from(Seq::empty(), n.parts);
    if reg.len() >= 16 {
        lemma_value(b, st.reg_at as int, reg);
    }
}

/// The walk for devices over what stands in an open node.
proof fn lemma_mmio_parts(
    b: Seq<u8>,
    l: Seq<Item>,
    all: Seq<Tok>,
    p: int,
    parts: Seq<Part>,
    open: Seq<NodeState>,
    st: NodeState,
    kind: Kind,
    reg: Seq<u8>,
    found: MmioAddrs,
) -> (st2: NodeState)
    requires
        all_mean(b, l, all),
        stand_at(all, p, flat_parts(parts)),
        fits_parts(parts, 15 - open.len()),
        knows(b, st, kind, reg),
        b.len() <= usize::MAX,
    ensures
        fdt::mmio_in(b, l.skip(p), open.push(st), found) == fdt::mmio_in(
            b,
            l.skip(p + flat_parts(parts).len()),
            open.push(st2),
            all_added(found, ended_parts(parts)),
        ),
        knows(b, st2, kind_from(kind, parts), reg_from(reg, parts)),
    decreases parts,
{
    if parts.len() == 0 {
        assert(l.skip(p + 0) =~= l.skip(p));
        st
    } else {
        let f = flat_parts(parts);
        let one = flat_part(parts[0]);
        let rest = flat_parts(parts.skip(1));
        let n = one.len() as int;
        assert(f == one + rest);
        assert(stand_at(all, p, one)) by {
            assert(forall|i: int| 0 <= i < n ==> #[trigger] one[i] == f[i]);
        }
        assert(stand_at(all, p + n, rest)) by {
            assert forall|i: int| 0 <= i < rest.len() implies #[trigger] all[p + n + i]
                == rest[i] by {
                assert(all[p + (n + i)] == f[n + i]);
            }
        }
        let s1 = lemma_mmio_part(b, l, all, p, parts[0], open, st, kind, reg, found);
        let found1 = all_added(found, ended_part(parts[0]));
        let one_part = seq![parts[0]];
        reveal_with_fuel(kind_from, 2);
        reveal_with_fuel(reg_from, 2);
        assert(one_part.skip(1).len() == 0);
        let kind1 = kind_from(kind, one_part);
        let reg1 = reg_from(reg, one_part);
        let s2 = lemma_mmio_parts(
            b,
            l,
            all,
            p + n,
            parts.skip(1),
            open,
            s1,
            kind1,
            reg1,
            found1,
        );
        lemma_all_added(found, ended_part(parts[0]), ended_parts(parts.skip(1)));
        assert(kind_from(kind, parts) == kind_from(kind1, parts.skip(1)));
        assert(reg_from(reg, parts) == reg_from(reg1, parts.skip(1)));
        assert(p + n + rest.len() == p + f.len());
        s2
    }
}

/// The same for one part.
proof fn lemma_mmio_part(
    b: Seq<u8>,
    l: Seq<Item>,
    all: Seq<Tok>,
    p: int,
    part: Part,
    open: Seq<NodeState>,
    st: NodeState,
    kind: Kind,
    reg: Seq<u8>,
    found: MmioAddrs,
) -> (st2: NodeState)
    requires
        all_mean(b, l, all),
        stand_at(all, p, flat_part(part)),
        fits_part(part, 15 - open.len()),
        knows(b, st, kind, reg),
        b.len() <= usize::MAX,
    ensures
        fdt::mmio_in(b, l.skip(p), open.push(st), found) == fdt::mmio_in(
            b,
            l.skip(p + flat_part(part).len()),
            open.push(st2),
            all_added(found, ended_part(part)),
        ),
        knows(b, st2, kind_from(kind, seq![part]), reg_from(reg, seq![part])),
    decreases part,
{
    let f = flat_part(part);
    let now = open.push(st);
    assert(all[p + 0] == f[0]);
    assert(means(b, l[p], all[p]));
    assert(l.skip(p)[0] == l[p]);
    assert(l.skip(p).skip(1) =~= l.skip(p + 1));
    let one = seq![part];
    assert(one.skip(1).len() == 0);
    reveal_with_fuel(kind_from, 2);
    reveal_with_fuel(reg_from, 2);
    match part {
        Part::Child(n) => {
            let m = flat_parts(n.parts).len() as int;
            lemma_mmio_node(b, l, all, p, n, now, found);
            st
        },
        Part::Prop(name, value) => {
            let at = l[p]->Prop_0;
            let from = l[p]->Prop_1;
            let len = l[p]->Prop_2;
            lemma_prop(b, at, from, len, part, st, kind, reg);
            let st2 = fdt::with_prop(b, st, at, from, len);
            assert(now.update(now.len() - 1, st2) =~= open.push(st2));
            assert(now.last() == st);
            st2
        },
        Part::Nop => { st },
    }
}

/// The walk for devices over a whole node: the open nodes are the same before and after, and
/// what the nodes in it add is found.
proof fn lemma_mmio_node(
    b: Seq<u8>,
    l: Seq<Item>,
    all: Seq<Tok>,
    p: int,
    n: Node,
    open: Seq<NodeState>,
    found: MmioAddrs,
)
    requires
        all_mean(b, l, all),
        stand_at(all, p, flat(n)),
        fits(n, 16 - open.len()),
        b.len() <= usize::MAX,
    ensures
        fdt::mmio_in(b, l.skip(p), open, found) == fdt::mmio_in(
            b,
            l.skip(p + flat(n).len()),
            open,
            all_added(found, ended(n)),
        ),
    decreases n,
{
    let f = flat(n);
    let inner = flat_parts(n.parts);
    let m = inner.len() as int;
    assert(f == seq![Tok::Begin(n.name)] + inner + seq![Tok::End]);
    assert(all[p + 0] == f[0]);
    assert(means(b, l[p], all[p]));
    assert(l.skip(p)[0] == l[p]);
    assert(l.skip(p).skip(1) =~= l.skip(p + 1));
    assert(stand_at(all, p + 1, inner)) by {
        assert forall|i: int| 0 <= i < m implies #[trigger] all[p + 1 + i] == inner[i] by {
            assert(all[p + (1 + i)] == f[1 + i]);
        }
    }
    let none = Seq::<u8>::empty();
    let st2 = lemma_mmio_parts(
        b,
        l,
        all,
        p + 1,
        n.parts,
        open,
        fdt::new_node(),
        Kind::Other,
        none,
        found,
    );
    let found1 = all_added(found, ended_parts(n.parts));
    let e = p + 1 + m;
    assert(all[p + (m + 1)] == f[m + 1]);
    assert(means(b, l[e], all[e]));
    assert(l.skip(e)[0] == l[e]);
    assert(l.skip(e).skip(1) =~= l.skip(e + 1));
    assert(open.push(st2).drop_last() =~= open);
    assert(open.push(st2).last() == st2);
    lemma_node_added(b, n, st2, found1);
    assert(ended(n).drop_last() =~= ended_parts(n.parts));
    assert(e + 1 == p + f.len());
}

/// The last property that names a device decides.
proof fn lemma_kind(parts: Seq<Part>, kind: Kind, c: int)
    requires
        -1 <= c < parts.len(),
        c >= 0 ==> names_uart(parts[c]) || names_gic(parts[c]),
        forall|j: int|
            c < j < parts.len() ==> !names_uart(#[trigger] parts[j]) && !names_gic(parts[j]),
    ensures
        kind_from(kind, parts) == (if c < 0 {
            kind
        } else if names_uart(parts[c]) {
            Kind::Uart
        } else {
            Kind::Gic
        }),
    decreases parts.len(),
{
    if parts.len() > 0 {
        let more = parts.skip(1);
        assert forall|j: int| c - 1 < j < more.len() && 0 <= j implies !names_uart(
            #[trigger] more[j],
        ) && !names_gic(more[j]) by {
            assert(more[j] == parts[j + 1]);
        }
        let kind1 = if names_uart(parts[0]) {
            Kind::Uart
        } else if names_gic(parts[0]) {
            Kind::Gic
        } else {
            kind
        };
        if c <= 0 {
            lemma_kind(more, kind1, -1);
        } else {
            assert(more[c - 1] == parts[c]);
            lemma_kind(more, kind1, c - 1);
        }
    }
}

/// The last `reg` property counts.
proof fn lemma_reg(parts: Seq<Part>, reg: Seq<u8>, r: int)
    requires
        -1 <= r < parts.len(),
        r >= 0 ==> gives_reg(parts[r]),
        forall|j: int| r < j < parts.len() ==> !gives_reg(#[trigger] parts[j]),
    ensures
        reg_from(reg, parts) == (if r < 0 {
            reg
        } else {
            parts[r]->Prop_1
        }),
    decreases parts.len(),
{
    if parts.len() > 0 {
        let more = parts.skip(1);
        assert forall|j: int| r - 1 < j < more.len() && 0 <= j implies !gives_reg(
            #[trigger] more[j],
        ) by {
            assert(more[j] == parts[j + 1]);
        }
        let reg1 = if gives_reg(parts[0]) {
            parts[0]->Prop_1
        } else {
            reg
        };
        if r <= 0 {
            lemma_reg(more, reg1, -1);
        } else {
            assert(more[r - 1] == parts[r]);
            lemma_reg(more, reg1, r - 1);
        }
    }
}

/// The last part that names a device, or -1.
proof fn lemma_last_named(parts: Seq<Part>, i: int) -> (c: int)
    requires
        -1 <= i < parts.len(),
        forall|j: int|
            i < j < parts.len() ==> !names_uart(#[trigger] parts[j]) && !names_gic(parts[j]),
    ensures
        -1 <= c < parts.len(),
        c >= 0 ==> names_uart(parts[c]) || names_gic(parts[c]),
        forall|j: int|
            c < j < parts.len() ==> !names_uart(#[trigger] parts[j]) && !names_gic(parts[j]),
    decreases i + 1,
{
    if i < 0 || names_uart(parts[i]) || names_gic(parts[i]) {
        i
    } else {
        lemma_last_named(parts, i - 1)
    }
}

/// The last `reg` property, or -1.
proof fn lemma_last_reg(parts: Seq<Part>, i: int) -> (r: int)
    requires
        -1 <= i < parts.len(),
        forall|j: int| i < j < parts.len() ==> !gives_reg(#[trigger] parts[j]),
    ensures
        -1 <= r < parts.len(),
        r >= 0 ==> gives_reg(parts[r]),
        forall|j: int| r < j < parts.len() ==> !gives_reg(#[trigger] parts[j]),
    decreases i + 1,
{
    if i < 0 || gives_reg(parts[i]) {
        i
    } else {
        lemma_last_reg(parts, i - 1)
    }
}

/// A node that is a UART is taken for one, with the address in its `reg` property.
proof fn lemma_uart(n: Node, c: int, r: int)
    requires
        uart_by(n, c, r),
    ensures
        kind_from(Kind::Other, n.parts) is Uart,
        reg_from(Seq::empty(), n.parts) == n.parts[r]->Prop_1,
{
    let d = lemma_last_named(n.parts, n.parts.len() - 1);
    assert(d >= c) by {
        if d < c {
            assert(!names_uart(n.parts[c]));
        }
    }
    if d > c {
        assert(!names_gic(n.parts[d]));
    }
    lemma_kind(n.parts, Kind::Other, d);
    lemma_reg(n.parts, Seq::empty(), r);
}

/// A node that is an interrupt controller is taken for one.
proof fn lemma_gic(n: Node, c: int, r: int)
    requires
        gic_by(n, c, r),
    ensures
        kind_from(Kind::Other, n.parts) is Gic,
        reg_from(Seq::empty(), n.parts) == n.parts[r]->Prop_1,
{
    let d = lemma_last_named(n.parts, n.parts.len() - 1);
    assert(d >= c) by {
        if d < c {
            assert(!names_gic(n.parts[c]));
        }
    }
    if d > c {
        assert(!names_uart(n.parts[d]));
    }
    lemma_kind(n.parts, Kind::Other, d);
    lemma_reg(n.parts, Seq::empty(), r);
}

/// The node is no UART.
pub open spec fn no_uart(n: Node) -> bool {
    forall|c: int, r: int| !#[trigger] uart_by(n, c, r)
}

/// The node is no interrupt controller.
pub open spec fn no_gic(n: Node) -> bool {
    forall|c: int, r: int| !#[trigger] gic_by(n, c, r)
}

/// A node that is neither adds neither.
proof fn lemma_neither(n: Node, found: MmioAddrs)
    ensures
        no_uart(n) ==> added(found, n).uart0_phys == found.uart0_phys,
        no_gic(n) ==> added(found, n).gicd_phys == found.gicd_phys && added(found, n).gicr_phys
            == found.gicr_phys,
        found.uart0_phys is Some ==> added(found, n).uart0_phys == found.uart0_phys,
        found.gicd_phys is Some ==> added(found, n).gicd_phys == found.gicd_phys && added(
            found,
            n,
        ).gicr_phys == found.gicr_phys,
{
    let c = lemma_last_named(n.parts, n.parts.len() - 1);
    let r = lemma_last_reg(n.parts, n.parts.len() - 1);
    lemma_kind(n.parts, Kind::Other, c);
    lemma_reg(n.parts, Seq::empty(), r);
    if kind_from(Kind::Other, n.parts) is Uart && reg_from(Seq::empty(), n.parts).len() >= 16 {
        assert(uart_by(n, c, r));
    }
    if kind_from(Kind::Other, n.parts) is Gic && reg_from(Seq::empty(), n.parts).len() >= 32 {
        assert(gic_by(n, c, r));
    }
}

/// The same for a row of nodes.
proof fn lemma_row(found: MmioAddrs, ns: Seq<Node>)
    ensures
        (forall|j: int| 0 <= j < ns.len() ==> no_uart(#[trigger] ns[j])) ==> all_added(
            found,
            ns,
        ).uart0_phys == found.uart0_phys,
        (forall|j: int| 0 <= j < ns.len() ==> no_gic(#[trigger] ns[j])) ==> all_added(
            found,
            ns,
        ).gicd_phys == found.gicd_phys && all_added(found, ns).gicr_phys == found.gicr_phys,
        found.uart0_phys is Some ==> all_added(found, ns).uart0_phys == found.uart0_phys,
        found.gicd_phys is Some ==> all_added(found, ns).gicd_phys == found.gicd_phys && all_added(
            found,
            ns,
        ).gicr_phys == found.gicr_phys,
    decreases ns.len(),
{
    if ns.len() > 0 {
        let some = ns.drop_last();
        lemma_row(found, some);
        lemma_neither(ns.last(), all_added(found, some));
        assert(forall|j: int| 0 <= j < some.len() ==> #[trigger] some[j] == ns[j]);
        if forall|j: int| 0 <= j < ns.len() ==> no_uart(#[trigger] ns[j]) {
            assert(no_uart(ns[ns.len() - 1]));
            assert(forall|j: int| 0 <= j < some.len() ==> no_uart(#[trigger] some[j]));
        }
        if forall|j: int| 0 <= j < ns.len() ==> no_gic(#[trigger] ns[j]) {
            assert(no_gic(ns[ns.len() - 1]));
            assert(forall|j: int| 0 <= j < some.len() ==> no_gic(#[trigger] some[j]));
        }
    }
}

/// What the walk finds is what the nodes add, in the order in which they end.
proof fn lemma_walk(b: Seq<u8>, root: Node)
    requires
        holds(b, root),
        fits(root, 16),
        b.len() <= usize::MAX,
    ensures
        fdt::mmio_of(b) == all_added(fdt::no_mmio(), ended(root)),
{
    let l = lemma_held(b, root);
    let open = Seq::<NodeState>::empty();
    lemma_mmio_node(b, l, flat(root), 0, root, open, fdt::no_mmio());
    assert(l.skip(0) =~= l);
    assert(l.skip(flat(root).len() as int).len() == 0);
}

/// A row of nodes, split at one of them.
proof fn lemma_split(found: MmioAddrs, ns: Seq<Node>, i: int)
    requires
        0 <= i < ns.len(),
    ensures
        all_added(found, ns) == all_added(
            added(all_added(found, ns.take(i)), ns[i]),
            ns.skip(i + 1),
        ),
{
    let upto = ns.take(i + 1);
    assert(upto + ns.skip(i + 1) =~= ns);
    lemma_all_added(found, upto, ns.skip(i + 1));
    assert(upto.drop_last() =~= ns.take(i));
    assert(upto.last() == ns[i]);
}

/// The UART's address is the one in the `reg` property of the first node, in the order in
/// which nodes end, that is a UART; it does not matter how deep in the tree that node is (up
/// to 16 nodes), in which order its properties are, or which other nodes there are.
pub proof fn law_uart_is_found(b: Seq<u8>, root: Node, i: int, c: int, r: int)
    requires
        holds(b, root),
        fits(root, 16),
        b.len() <= usize::MAX,
        0 <= i < ended(root).len(),
        uart_by(ended(root)[i], c, r),
        forall|j: int| 0 <= j < i ==> no_uart(#[trigger] ended(root)[j]),
    ensures
        fdt::mmio_of(b).uart0_phys == Some(
            bytes::be64_at(ended(root)[i].parts[r]->Prop_1, 0) as u64,
        ),
{
    let ns = ended(root);
    let none = fdt::no_mmio();
    lemma_walk(b, root);
    lemma_split(none, ns, i);
    assert(forall|j: int| 0 <= j < i ==> #[trigger] ns.take(i)[j] == ns[j]);
    lemma_row(none, ns.take(i));
    lemma_uart(ns[i], c, r);
    lemma_row(added(all_added(none, ns.take(i)), ns[i]), ns.skip(i + 1));
}

/// The interrupt controller's two addresses are the first and the third number in the `reg`
/// property of the first node that is one.
pub proof fn law_gic_is_found(b: Seq<u8>, root: Node, i: int, c: int, r: int)
    requires
        holds(b, root),
        fits(root, 16),
        b.len() <= usize::MAX,
        0 <= i < ended(root).len(),
        gic_by(ended(root)[i], c, r),
        forall|j: int| 0 <= j < i ==> no_gic(#[trigger] ended(root)[j]),
    ensures
        fdt::mmio_of(b).gicd_phys == Some(
            bytes::be64_at(ended(root)[i].parts[r]->Prop_1, 0) as u64,
        ),
        fdt::mmio_of(b).gicr_phys == Some(
            bytes::be64_at(ended(root)[i].parts[r]->Prop_1, 16) as u64,
        ),
{
    let ns = ended(root);
    let none = fdt::no_mmio();
    lemma_walk(b, root);
    lemma_split(none, ns, i);
    assert(forall|j: int| 0 <= j < i ==> #[trigger] ns.take(i)[j] == ns[j]);
    lemma_row(none, ns.take(i));
    lemma_gic(ns[i], c, r);
    lemma_row(added(all_added(none, ns.take(i)), ns[i]), ns.skip(i + 1));
}

/// Of a device that no node is, no address is found.
pub proof fn law_no_device(b: Seq<u8>, root: Node)
    requires
        holds(b, root),
        fits(root, 16),
        b.len() <= usize::MAX,
    ensures
        (forall|j: int| 0 <= j < ended(root).len() ==> no_uart(#[trigger] ended(root)[j]))
            ==> fdt::mmio_of(b).uart0_phys is None,
        (forall|j: int| 0 <= j < ended(root).len() ==> no_gic(#[trigger] ended(root)[j]))
            ==> fdt::mmio_of(b).gicd_phys is None && fdt::mmio_of(b).gicr_phys is None,
{
    lemma_walk(b, root);
    lemma_row(fdt::no_mmio(), ended(root));
}

// ---------------------------------------------------------------------------
// Lists of strings
// ---------------------------------------------------------------------------

/// A list of strings in its written form: each one followed by a zero byte.
pub open spec fn joined(list: Seq<Seq<u8>>) -> Seq<u8>
    decreases list.len(),
{
    if list.len() == 0 {
        Seq::empty()
    } else {
        list[0].push(0) + joined(list.skip(1))
    }
}

/// The bytes have no zero among them.
pub open spec fn no_zero(s: Seq<u8>) -> bool {
    forall|j: int| 0 <= j < s.len() ==> #[trigger] s[j] != 0
}

/// A list of strings has an entry exactly where one of its strings is that entry as a whole;
/// one that only starts or ends with it does not count.
pub proof fn law_list_has_whole_entries(list: Seq<Seq<u8>>, entry: Seq<u8>)
    requires
        entry.len() > 0,
        no_zero(entry),
        forall|i: int| 0 <= i < list.len() ==> no_zero(#[trigger] list[i]),
    ensures
        fdt::has_entry(joined(list), entry) <==> list.contains(entry),
    decreases list.len(),
{
    let v = joined(list);
    let n = entry.len() as int;
    if list.len() > 0 {
        let a = list[0];
        let m = a.len() as int;
        let more = list.skip(1);
        let w = joined(more);
        assert(v == a.push(0) + w);
        assert forall|i: int| 0 <= i < more.len() implies no_zero(#[trigger] more[i]) by {
            assert(more[i] == list[i + 1]);
        }
        law_list_has_whole_entries(more, entry);
        assert(no_zero(a));
        assert forall|s: int| fdt::entry_at(v, entry, s) implies list.contains(entry) by {
            assert forall|j: int| 0 <= j < n implies #[trigger] entry[j] == v[s + j] by {
                assert(v.subrange(s, s + n)[j] == v[s + j]);
            }
            if s == 0 {
                if n < m {
                    assert(v[n] == a[n]);
                } else if n > m {
                    assert(entry[m] == v[m]);
                } else {
                    assert(entry =~= a);
                    assert(list[0] == entry);
                }
            } else {
                if s <= m {
                    assert(v[s - 1] == a[s - 1]);
                }
                let t = s - m - 1;
                assert(fdt::entry_at(w, entry, t)) by {
                    assert(w.subrange(t, t + n) =~= v.subrange(s, s + n));
                    if t > 0 {
                        assert(w[t - 1] == v[s - 1]);
                    }
                    if t + n < w.len() {
                        assert(w[t + n] == v[s + n]);
                    }
                }
                let i = choose|i: int| 0 <= i < more.len() && more[i] == entry;
                assert(list[i + 1] == entry);
            }
        }
        if list.contains(entry) {
            let i = choose|i: int| 0 <= i < list.len() && list[i] == entry;
            if i == 0 {
                assert(v.subrange(0, n) =~= entry);
                assert(v[n] == 0);
                assert(fdt::entry_at(v, entry, 0));
            } else {
                assert(more[i - 1] == entry);
                let t = choose|t: int| fdt::entry_at(w, entry, t);
                let s = t + m + 1;
                assert(v.subrange(s, s + n) =~= w.subrange(t, t + n));
                assert(fdt::entry_at(v, entry, s)) by {
                    if t > 0 {
                        assert(w[t - 1] == v[s - 1]);
                    } else {
                        assert(v[s - 1] == a.push(0)[m]);
                    }
                    if t + n < w.len() {
                        assert(w[t + n] == v[s + n]);
                    }
                }
            }
        }
    }
}

} // verus!
