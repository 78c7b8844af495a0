//! A minimal reader of flattened device trees.
//!
//! The structure block of a tree is a list of tokens; [`items`] says which.
//! What the two parsers look for is then a walk over that list: the first
//! `reg` property inside a `/memory` node, and the `reg` properties of the nodes
//! whose `compatible` lists name the UART or the interrupt controller. Both
//! assume two address cells and two size cells.
use crate::bytes::{be32, be64};
use vstd::prelude::*;

verus! {

pub const FDT_MAGIC: u32 = 0xD00D_FEED;

pub const FDT_BEGIN_NODE: u32 = 1;

pub const FDT_END_NODE: u32 = 2;

pub const FDT_PROP: u32 = 3;

pub const FDT_NOP: u32 = 4;

/// Deepest nesting that [`parse_fdt_mmio`] follows.
pub const MAX_DEPTH: usize = 16;

/// A stretch of RAM.
#[derive(Clone, Copy, PartialEq, Eq, Structural, Debug)]
pub struct RamRegion {
    pub base: u64,
    pub size: u64,
}

/// Physical base addresses of devices; `None` where the tree has no such
/// device.
#[derive(Clone, Copy, PartialEq, Eq, Structural, Debug)]
pub struct MmioAddrs {
    pub uart0_phys: Option<u64>,
    pub gicd_phys: Option<u64>,
    pub gicr_phys: Option<u64>,
}

// ---------------------------------------------------------------------------
// The format
// ---------------------------------------------------------------------------

/// Where the blocks of a tree are.
#[derive(Clone, Copy)]
pub struct Blocks {
    /// Offset of the structure block.
    pub structs: usize,
    /// Offset of the strings block.
    pub strings: usize,
    /// End of the structure block, at the latest.
    pub end: usize,
}

/// The header of a tree that lies whole in `b`.
pub open spec fn header(b: Seq<u8>) -> Option<Blocks> {
    if b.len() < 16 || crate::bytes::be32_at(b, 0) != FDT_MAGIC {
        None
    } else {
        let total = crate::bytes::be32_at(b, 4);
        let structs = crate::bytes::be32_at(b, 8);
        let strings = crate::bytes::be32_at(b, 12);
        if structs >= total || strings >= total || total > b.len() {
            None
        } else {
            Some(
                Blocks { structs: structs as usize, strings: strings as usize, end: total as usize },
            )
        }
    }
}

/// One token of the structure block.
pub enum Item {
    /// A node starts; its name is at this offset.
    Begin(int),
    /// A node ends.
    End,
    /// A property: offset of its name, offset and length of its value.
    Prop(int, int, int),
    /// Nothing.
    Nop,
}

/// `n` rounded up to a multiple of four, counted from `base`.
pub open spec fn align4(base: int, n: int) -> int {
    base + (n - base + 3) / 4 * 4
}

/// The end of the name at `at`: its zero byte, or `end`.
pub open spec fn name_end(b: Seq<u8>, at: int, end: int) -> int
    decreases end - at,
{
    if at >= end || b[at] == 0 {
        at
    } else {
        name_end(b, at + 1, end)
    }
}

/// The token at offset `at`, with the offset behind it; `None` at the end of
/// the block, at an end token, and at anything malformed.
pub open spec fn item_at(b: Seq<u8>, k: Blocks, at: int) -> Option<(Item, int)> {
    let token = crate::bytes::be32_at(b, at);
    if at + 4 > k.end {
        None
    } else if token == FDT_BEGIN_NODE {
        let stop = name_end(b, at + 4, k.end as int);
        Some(
            (
                Item::Begin(at + 4),
                align4(
                    k.structs as int,
                    (if at + 4 <= stop {
                        stop
                    } else {
                        at + 4
                    }) + 1,
                ),
            ),
        )
    } else if token == FDT_END_NODE {
        Some((Item::End, at + 4))
    } else if token == FDT_NOP {
        Some((Item::Nop, at + 4))
    } else if token == FDT_PROP && at + 12 <= k.end {
        let len = crate::bytes::be32_at(b, at + 4);
        let name = crate::bytes::be32_at(b, at + 8);
        if at + 12 + len <= k.end {
            Some(
                (
                    Item::Prop(k.strings + name, at + 12, len),
                    align4(k.structs as int, at + 12 + len),
                ),
            )
        } else {
            None
        }
    } else {
        None
    }
}

/// The tokens from offset `at` on.
pub open spec fn items(b: Seq<u8>, k: Blocks, at: int) -> Seq<Item>
    decreases k.end + 4 - at,
{
    if at < k.structs {
        Seq::empty()
    } else {
        match item_at(b, k, at) {
            None => Seq::empty(),
            Some((item, next)) => {
                proof {
                    lemma_item_advances(b, k, at);
                }
                seq![item] + items(b, k, next)
            },
        }
    }
}

proof fn lemma_name_end(b: Seq<u8>, at: int, end: int)
    requires
        at <= end,
    ensures
        at <= name_end(b, at, end) <= end,
    decreases end - at,
{
    if at < end && b[at] != 0 {
        lemma_name_end(b, at + 1, end);
    }
}

/// A token moves the position, by at most three bytes past the block.
pub proof fn lemma_item_advances(b: Seq<u8>, k: Blocks, at: int)
    ensures
        k.structs <= at ==> (item_at(b, k, at) matches Some((item, next)) ==> at + 4 <= next
            <= k.end + 4),
{
    if at + 4 <= k.end {
        lemma_name_end(b, at + 4, k.end as int);
    }
}

/// The bytes at `at` start with `prefix`.
pub open spec fn starts_with(b: Seq<u8>, at: int, prefix: Seq<u8>) -> bool {
    0 <= at && at + prefix.len() <= b.len() && b.subrange(at, at + prefix.len()) == prefix
}

/// `memory`.
pub open spec fn memory_name() -> Seq<u8> {
    seq![109u8, 101, 109, 111, 114, 121]
}

/// `reg` with its terminator.
pub open spec fn reg_name() -> Seq<u8> {
    seq![114u8, 101, 103, 0]
}

/// `compatible` with its terminator.
pub open spec fn compatible_name() -> Seq<u8> {
    seq![99u8, 111, 109, 112, 97, 116, 105, 98, 108, 101, 0]
}

/// `arm,pl011`.
pub open spec fn uart_entry() -> Seq<u8> {
    seq![97u8, 114, 109, 44, 112, 108, 48, 49, 49]
}

/// `arm,gic-v3`.
pub open spec fn gic_entry() -> Seq<u8> {
    seq![97u8, 114, 109, 44, 103, 105, 99, 45, 118, 51]
}

/// The list of zero-terminated strings `value` has `entry` as the whole string
/// that starts at `s`.
pub open spec fn entry_at(value: Seq<u8>, entry: Seq<u8>, s: int) -> bool {
    &&& 0 <= s
    &&& s + entry.len() <= value.len()
    &&& s == 0 || value[s - 1] == 0
    &&& value.subrange(s, s + entry.len()) == entry
    &&& s + entry.len() == value.len() || value[s + entry.len()] == 0
}

/// The list of zero-terminated strings `value` has `entry` as a whole string.
pub open spec fn has_entry(value: Seq<u8>, entry: Seq<u8>) -> bool {
    exists|s: int| entry_at(value, entry, s)
}

// ---------------------------------------------------------------------------
// What is looked for
// ---------------------------------------------------------------------------

/// The walk for RAM: `depth` nodes are open, and `inside` says whether one of
/// them is a child of the root whose name starts with `memory`.
pub open spec fn ram_in(b: Seq<u8>, list: Seq<Item>, depth: nat, inside: bool) -> Option<RamRegion>
    decreases list.len(),
{
    if list.len() == 0 {
        None
    } else {
        let rest = list.skip(1);
        match list[0] {
            Item::Begin(name) => ram_in(
                b,
                rest,
                depth + 1,
                inside || (depth == 1 && starts_with(b, name, memory_name())),
            ),
            Item::End => ram_in(
                b,
                rest,
                if depth == 0 {
                    0
                } else {
                    (depth - 1) as nat
                },
                inside && depth != 2,
            ),
            Item::Prop(name, at, len) => if inside && len >= 16 && starts_with(
                b,
                name,
                reg_name(),
            ) {
                Some(
                    RamRegion {
                        base: crate::bytes::be64_at(b, at) as u64,
                        size: crate::bytes::be64_at(b, at + 8) as u64,
                    },
                )
            } else {
                ram_in(b, rest, depth, inside)
            },
            Item::Nop => ram_in(b, rest, depth, inside),
        }
    }
}

/// The RAM region that a tree describes.
pub open spec fn ram_of(b: Seq<u8>) -> Option<RamRegion> {
    match header(b) {
        None => None,
        Some(k) => ram_in(b, items(b, k, k.structs as int), 0, false),
    }
}

/// What a node is.
#[derive(Clone, Copy, PartialEq, Eq, Structural, Debug)]
pub enum Kind {
    Other,
    Uart,
    Gic,
}

/// What has been read of an open node: its kind, and offset and length of its
/// `reg` value (length 0 without one).
#[derive(Clone, Copy, PartialEq, Eq, Structural, Debug)]
pub struct NodeState {
    pub kind: Kind,
    pub reg_at: usize,
    pub reg_len: usize,
}

/// A node of which nothing has been read.
pub open spec fn new_node() -> NodeState {
    NodeState { kind: Kind::Other, reg_at: 0, reg_len: 0 }
}

/// What a property says of its node.
pub open spec fn with_prop(b: Seq<u8>, node: NodeState, name: int, at: int, len: int) -> NodeState {
    if starts_with(b, name, compatible_name()) {
        let value = b.subrange(at, at + len);
        NodeState {
            kind: if has_entry(value, uart_entry()) {
                Kind::Uart
            } else if has_entry(value, gic_entry()) {
                Kind::Gic
            } else {
                node.kind
            },
            ..node
        }
    } else if starts_with(b, name, reg_name()) {
        NodeState { reg_at: at as usize, reg_len: len as usize, ..node }
    } else {
        node
    }
}

/// What a finished node adds: the first UART with an address, the first
/// interrupt controller with its two.
pub open spec fn with_node(b: Seq<u8>, found: MmioAddrs, node: NodeState) -> MmioAddrs {
    if node.kind is Uart && node.reg_len >= 16 && found.uart0_phys is None {
        MmioAddrs {
            uart0_phys: Some(crate::bytes::be64_at(b, node.reg_at as int) as u64),
            ..found
        }
    } else if node.kind is Gic && node.reg_len >= 32 && found.gicd_phys is None {
        MmioAddrs {
            gicd_phys: Some(crate::bytes::be64_at(b, node.reg_at as int) as u64),
            gicr_phys: Some(crate::bytes::be64_at(b, node.reg_at + 16) as u64),
            ..found
        }
    } else {
        found
    }
}

/// The walk for devices: `open` holds the open nodes, outermost first.
pub open spec fn mmio_in(
    b: Seq<u8>,
    list: Seq<Item>,
    open: Seq<NodeState>,
    found: MmioAddrs,
) -> MmioAddrs
    decreases list.len(),
{
    if list.len() == 0 {
        found
    } else {
        let rest = list.skip(1);
        match list[0] {
            Item::Begin(_) => if open.len() >= MAX_DEPTH {
                found
            } else {
                mmio_in(b, rest, open.push(new_node()), found)
            },
            Item::End => if open.len() == 0 {
                mmio_in(b, rest, open, found)
            } else {
                mmio_in(b, rest, open.drop_last(), with_node(b, found, open.last()))
            },
            Item::Prop(name, at, len) => if open.len() == 0 {
                mmio_in(b, rest, open, found)
            } else {
                mmio_in(
                    b,
                    rest,
                    open.update(open.len() - 1, with_prop(b, open.last(), name, at, len)),
                    found,
                )
            },
            Item::Nop => mmio_in(b, rest, open, found),
        }
    }
}

/// Nothing found.
pub open spec fn no_mmio() -> MmioAddrs {
    MmioAddrs { uart0_phys: None, gicd_phys: None, gicr_phys: None }
}

/// The device addresses that a tree describes.
pub open spec fn mmio_of(b: Seq<u8>) -> MmioAddrs {
    match header(b) {
        None => no_mmio(),
        Some(k) => mmio_in(b, items(b, k, k.structs as int), Seq::empty(), no_mmio()),
    }
}

// ---------------------------------------------------------------------------
// Readers
// ---------------------------------------------------------------------------

/// Reads the header.
fn read_header(b: &[u8]) -> (r: Option<Blocks>)
    ensures
        r == header(b@),
        r matches Some(k) ==> k.structs < k.end && k.strings < k.end && k.end <= b@.len() && k.end
            <= u32::MAX,
{
    if b.len() < 16 || be32(b, 0) != FDT_MAGIC {
        return None;
    }
    let total: u32 = be32(b, 4);
    let structs: u32 = be32(b, 8);
    let strings: u32 = be32(b, 12);
    if structs >= total || strings >= total || total as u64 > b.len() as u64 {
        return None;
    }
    Some(Blocks { structs: structs as usize, strings: strings as usize, end: total as usize })
}

/// Tests [`starts_with`].
fn cstr_starts_with(b: &[u8], at: u64, prefix: &[u8]) -> (r: bool)
    ensures
        r == starts_with(b@, at as int, prefix@),
{
    if at > b.len() as u64 || prefix.len() as u64 > b.len() as u64 - at {
        return false;
    }
    let start: usize = at as usize;
    let mut i: usize = 0;
    while i < prefix.len()
        invariant
            i <= prefix@.len(),
            start + prefix@.len() <= b@.len(),
            start == at,
            b@.subrange(start as int, start + i) == prefix@.take(i as int),
        decreases prefix@.len() - i,
    {
        assert(b.len() == b@.len());
        if b[start + i] != prefix[i] {
            assert(b@.subrange(start as int, start + prefix@.len())[i as int] != prefix@[i as int]);
            return false;
        }
        assert(b@.subrange(start as int, start + i + 1) =~= b@.subrange(
            start as int,
            start + i,
        ).push(b@[start + i]));
        assert(prefix@.take(i + 1) =~= prefix@.take(i as int).push(prefix@[i as int]));
        i = i + 1;
    }
    assert(prefix@.take(i as int) =~= prefix@);
    true
}

/// The first zero byte from `from` on, or the end.
fn string_end(value: &[u8], from: usize) -> (r: usize)
    requires
        from <= value@.len(),
    ensures
        from <= r <= value@.len(),
        forall|j: int| from <= j < r ==> value@[j] != 0,
        r < value@.len() ==> value@[r as int] == 0,
{
    let mut i: usize = from;
    while i < value.len() && value[i] != 0
        invariant
            from <= i <= value@.len(),
            forall|j: int| from <= j < i ==> value@[j] != 0,
        decreases value@.len() - i,
    {
        i = i + 1;
    }
    i
}

/// Whether the string list `value` names `target` as a whole entry, so that
/// `arm,pl011-r2` does not pass for `arm,pl011`.
pub fn compat_has(value: &[u8], target: &[u8]) -> (r: bool)
    requires
        target@.len() > 0,
        forall|j: int| 0 <= j < target@.len() ==> target@[j] != 0,
    ensures
        r == has_entry(value@, target@),
{
    let mut start: usize = 0;
    while start < value.len()
        invariant
            target@.len() > 0,
            forall|j: int| 0 <= j < target@.len() ==> target@[j] != 0,
            start <= value@.len() + 1,
            start == 0 || start == value@.len() + 1 || value@[start - 1] == 0,
            forall|s: int| s < start ==> !entry_at(value@, target@, s),
        decreases value@.len() + 1 - start,
    {
        assert(value.len() == value@.len());
        let end: usize = string_end(value, start);
        if cstr_starts_with(value, start as u64, target) && end - start == target.len() {
            assert(entry_at(value@, target@, start as int));
            return true;
        }
        proof {
            let t = target@.len() as int;
            assert forall|s: int| s < end + 1 implies !entry_at(value@, target@, s) by {
                if s == start && entry_at(value@, target@, s) {
                    assert(value@.subrange(s, s + t) == target@);
                    assert forall|j: int| s <= j < s + t implies value@[j] != 0 by {
                        assert(value@[j] == value@.subrange(s, s + t)[j - s]);
                    }
                    assert(end == start + t);
                } else if start < s <= end {
                    assert(value@[s - 1] != 0);
                }
            }
        }
        if end == value.len() {
            proof {
                assert forall|s: int| !entry_at(value@, target@, s) by {}
            }
            return false;
        }
        start = end + 1;
    }
    proof {
        assert forall|s: int| !entry_at(value@, target@, s) by {}
    }
    false
}

/// A token as the readers see it.
enum Token {
    Begin(usize),
    End,
    Prop(u64, usize, usize),
    Nop,
}

/// Tests the token that was read against the format.
spec fn token_is(t: Token, item: Item) -> bool {
    match t {
        Token::Begin(n) => item == Item::Begin(n as int),
        Token::End => item == Item::End,
        Token::Prop(n, at, len) => item == Item::Prop(n as int, at as int, len as int),
        Token::Nop => item == Item::Nop,
    }
}

/// Rounds an offset up to a multiple of four, counted from `base`.
fn round4(base: usize, n: usize) -> (r: usize)
    requires
        base <= n,
        n + 3 <= usize::MAX,
    ensures
        r == align4(base as int, n as int),
{
    base + (n - base + 3) / 4 * 4
}

/// Reads the token at `at`.
fn read_token(b: &[u8], k: &Blocks, at: usize) -> (r: Option<(Token, usize)>)
    requires
        k.structs <= at,
        k.structs < k.end,
        k.strings < k.end,
        k.end <= b@.len(),
        k.end <= u32::MAX,
        b@.len() <= isize::MAX,
    ensures
        match r {
            None => item_at(b@, *k, at as int) is None,
            Some((t, next)) => item_at(b@, *k, at as int) matches Some((item, n)) && token_is(
                t,
                item,
            ) && next == n && at + 4 <= next && (t matches Token::Prop(_, v, len) ==> v + len
                <= k.end) && (t matches Token::Prop(name, _, _) ==> name <= 0x2_0000_0000),
        },
{
    proof {
        lemma_item_advances(b@, *k, at as int);
    }
    assert(b.len() == b@.len());
    if k.end < 4 || at > k.end - 4 {
        return None;
    }
    let token: u32 = be32(b, at);
    if token == FDT_BEGIN_NODE {
        let mut stop: usize = at + 4;
        while stop < k.end && b[stop] != 0
            invariant
                at + 4 <= stop <= k.end,
                k.end <= b@.len(),
                name_end(b@, at + 4, k.end as int) == name_end(b@, stop as int, k.end as int),
            decreases k.end - stop,
        {
            stop = stop + 1;
        }
        return Some((Token::Begin(at + 4), round4(k.structs, stop + 1)));
    }
    if token == FDT_END_NODE {
        return Some((Token::End, at + 4));
    }
    if token == FDT_NOP {
        return Some((Token::Nop, at + 4));
    }
    if token == FDT_PROP && k.end >= 12 && at <= k.end - 12 {
        let len: u32 = be32(b, at + 4);
        let name: u32 = be32(b, at + 8);
        if len as u64 > (k.end - at - 12) as u64 {
            return None;
        }
        return Some(
            (
                Token::Prop(k.strings as u64 + name as u64, at + 12, len as usize),
                round4(k.structs, at + 12 + len as usize),
            ),
        );
    }
    None
}

/// The bytes of `memory`.
fn memory_bytes() -> (r: [u8; 6])
    ensures
        r@ == memory_name(),
{
    let r: [u8; 6] = [109, 101, 109, 111, 114, 121];
    assert(r@ =~= memory_name());
    r
}

/// The bytes of `reg` with its terminator.
fn reg_bytes() -> (r: [u8; 4])
    ensures
        r@ == reg_name(),
{
    let r: [u8; 4] = [114, 101, 103, 0];
    assert(r@ =~= reg_name());
    r
}

/// Finds the first `reg` property inside a `/memory` node.
pub fn parse_fdt_ram(b: &[u8]) -> (r: Option<RamRegion>)
    requires
        b@.len() <= isize::MAX,
    ensures
        r == ram_of(b@),
{
    let k: Blocks = match read_header(b) {
        Some(k) => k,
        None => {
            return None;
        },
    };
    let memory: [u8; 6] = memory_bytes();
    let reg: [u8; 4] = reg_bytes();
    let mut at: usize = k.structs;
    let mut depth: usize = 0;
    let mut inside: bool = false;
    loop
        invariant
            k.structs <= at <= k.end + 4,
            k.structs < k.end,
            k.strings < k.end,
            k.end <= b@.len(),
            k.end <= u32::MAX,
            b@.len() <= isize::MAX,
            memory@ == memory_name(),
            reg@ == reg_name(),
            depth <= at,
            header(b@) == Some(k),
            ram_in(b@, items(b@, k, at as int), depth as nat, inside) == ram_of(b@),
        decreases k.end + 4 - at,
    {
        let ghost list = items(b@, k, at as int);
        proof {
            lemma_item_advances(b@, k, at as int);
        }
        match read_token(b, &k, at) {
            None => {
                return None;
            },
            Some((t, next)) => {
                assert(list.skip(1) =~= items(b@, k, next as int));
                match t {
                    Token::Begin(name) => {
                        if depth == 1 && cstr_starts_with(b, name as u64, &memory) {
                            inside = true;
                        }
                        depth = depth + 1;
                    },
                    Token::End => {
                        if depth == 2 {
                            inside = false;
                        }
                        if depth > 0 {
                            depth = depth - 1;
                        }
                    },
                    Token::Prop(name, v, len) => {
                        if inside && len >= 16 && cstr_starts_with(b, name, &reg) {
                            return Some(RamRegion { base: be64(b, v), size: be64(b, v + 8) });
                        }
                    },
                    Token::Nop => {},
                }
                at = next;
            },
        }
    }
}

/// What a property says of its node.
fn apply_prop(b: &[u8], node: NodeState, name: u64, at: usize, len: usize) -> (r: NodeState)
    requires
        at + len <= b@.len(),
    ensures
        r == with_prop(b@, node, name as int, at as int, len as int),
        r.reg_at + r.reg_len <= b@.len() || (r.reg_at == node.reg_at && r.reg_len == node.reg_len),
{
    let compatible: [u8; 11] = [99, 111, 109, 112, 97, 116, 105, 98, 108, 101, 0];
    assert(compatible@ =~= compatible_name());
    let reg: [u8; 4] = reg_bytes();
    assert(b.len() == b@.len());
    if cstr_starts_with(b, name, &compatible) {
        let value: &[u8] = &b[at..at + len];
        let uart: [u8; 9] = [97, 114, 109, 44, 112, 108, 48, 49, 49];
        let gic: [u8; 10] = [97, 114, 109, 44, 103, 105, 99, 45, 118, 51];
        assert(uart@ =~= uart_entry());
        assert(gic@ =~= gic_entry());
        if compat_has(value, &uart) {
            NodeState { kind: Kind::Uart, reg_at: node.reg_at, reg_len: node.reg_len }
        } else if compat_has(value, &gic) {
            NodeState { kind: Kind::Gic, reg_at: node.reg_at, reg_len: node.reg_len }
        } else {
            node
        }
    } else if cstr_starts_with(b, name, &reg) {
        NodeState { kind: node.kind, reg_at: at, reg_len: len }
    } else {
        node
    }
}

/// What a finished node adds.
fn commit_node(b: &[u8], found: MmioAddrs, node: NodeState) -> (r: MmioAddrs)
    requires
        node.reg_at + node.reg_len <= b@.len(),
    ensures
        r == with_node(b@, found, node),
{
    if node.kind == Kind::Uart && node.reg_len >= 16 && found.uart0_phys.is_none() {
        MmioAddrs {
            uart0_phys: Some(be64(b, node.reg_at)),
            gicd_phys: found.gicd_phys,
            gicr_phys: found.gicr_phys,
        }
    } else if node.kind == Kind::Gic && node.reg_len >= 32 && found.gicd_phys.is_none() {
        assert(b.len() == b@.len());
        MmioAddrs {
            uart0_phys: found.uart0_phys,
            gicd_phys: Some(be64(b, node.reg_at)),
            gicr_phys: Some(be64(b, node.reg_at + 16)),
        }
    } else {
        found
    }
}

/// Finds the UART (`arm,pl011`) and the interrupt controller (`arm,gic-v3`).
/// Within a node, `reg` and `compatible` may come in either order.
pub fn parse_fdt_mmio(b: &[u8]) -> (r: MmioAddrs)
    requires
        b@.len() <= isize::MAX,
    ensures
        r == mmio_of(b@),
{
    let mut found: MmioAddrs = MmioAddrs { uart0_phys: None, gicd_phys: None, gicr_phys: None };
    let k: Blocks = match read_header(b) {
        Some(k) => k,
        None => {
            return found;
        },
    };
    let mut at: usize = k.structs;
    let mut open: Vec<NodeState> = Vec::new();
    loop
        invariant
            k.structs <= at <= k.end + 4,
            k.structs < k.end,
            k.strings < k.end,
            k.end <= b@.len(),
            k.end <= u32::MAX,
            b@.len() <= isize::MAX,
            header(b@) == Some(k),
            forall|i: int|
                0 <= i < open@.len() ==> (#[trigger] open@[i]).reg_at + open@[i].reg_len
                    <= b@.len(),
            mmio_in(b@, items(b@, k, at as int), open@, found) == mmio_of(b@),
        decreases k.end + 4 - at,
    {
        let ghost list = items(b@, k, at as int);
        proof {
            lemma_item_advances(b@, k, at as int);
        }
        match read_token(b, &k, at) {
            None => {
                return found;
            },
            Some((t, next)) => {
                assert(list.skip(1) =~= items(b@, k, next as int));
                match t {
                    Token::Begin(_) => {
                        if open.len() >= MAX_DEPTH {
                            return found;
                        }
                        open.push(NodeState { kind: Kind::Other, reg_at: 0, reg_len: 0 });
                    },
                    Token::End => {
                        if let Some(node) = open.pop() {
                            found = commit_node(b, found, node);
                        }
                    },
                    Token::Prop(name, v, len) => {
                        let n: usize = open.len();
                        if n > 0 {
                            let node: NodeState = apply_prop(b, open[n - 1], name, v, len);
                            open.set(n - 1, node);
                        }
                    },
                    Token::Nop => {},
                }
                at = next;
            },
        }
    }
}

/// Within a node it does not matter whether `reg` or `compatible` comes first.
pub proof fn law_property_order(
    b: Seq<u8>,
    node: NodeState,
    n1: int,
    at1: int,
    len1: int,
    n2: int,
    at2: int,
    len2: int,
)
    requires
        starts_with(b, n1, compatible_name()),
        starts_with(b, n2, reg_name()),
    ensures
        with_prop(b, with_prop(b, node, n1, at1, len1), n2, at2, len2) == with_prop(
            b,
            with_prop(b, node, n2, at2, len2),
            n1,
            at1,
            len1,
        ),
{
    if starts_with(b, n2, compatible_name()) {
        assert(b.subrange(n2, n2 + 4)[0] == reg_name()[0]);
        assert(b.subrange(n2, n2 + 11)[0] == compatible_name()[0]);
    }
}

} // verus!
