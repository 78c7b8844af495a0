//! Physical memory: who owns each page, and what it holds.
//!
//! A page holds bytes, or it is a translation table. Each table below the root
//! remembers which entry refers to it, so no table is shared.
use crate::error::Error;
use vstd::prelude::*;

verus! {

/// Bytes in a page.
pub const PAGE_SIZE: u64 = 16384;

/// Entries in a translation table.
pub const TABLE_ENTRIES: usize = 2048;

/// Physical addresses have 48 bits.
pub const PHYS_LIMIT: u64 = 0x1_0000_0000_0000;

/// Bits 14 to 47 of an entry: the address of a page.
pub const PTE_ADDR_MASK: u64 = 0x0000_FFFF_FFFF_C000;

/// Bit 0 of an entry: it counts.
pub const PTE_VALID: u64 = 1;

/// Bit 1 of an entry: it refers to a table, or (on the last level) to a page.
pub const PTE_TABLE: u64 = 2;

/// The two low bits of an entry that refers to a table.
pub const PTE_LINK: u64 = 3;

/// What a page is used for.
pub enum Role {
    /// Bytes, or nothing.
    Data,
    /// The first-level table of an address space.
    Root,
    /// A second- or third-level table, referred to by entry `slot` of page
    /// `parent`.
    Table { level: int, parent: int, slot: int },
}

/// What a page holds.
pub enum Frame {
    Data(Vec<u8>),
    Table(Vec<u64>),
}

/// A page of physical memory.
pub struct Page {
    pub owner: Option<u8>,
    pub frame: Frame,
    pub role: Ghost<Role>,
}

/// A page, as contracts see it.
#[verifier::ext_equal]
pub struct PageModel {
    pub owner: Option<u8>,
    pub role: Role,
    pub table: Seq<u64>,
    pub data: Seq<u8>,
}

impl View for Page {
    type V = PageModel;

    open spec fn view(&self) -> PageModel {
        PageModel {
            owner: self.owner,
            role: self.role@,
            table: match self.frame {
                Frame::Table(t) => t@,
                Frame::Data(_) => Seq::empty(),
            },
            data: match self.frame {
                Frame::Table(_) => Seq::empty(),
                Frame::Data(d) => d@,
            },
        }
    }
}

/// Physical memory, as contracts see it.
#[verifier::ext_equal]
pub struct MemModel {
    pub base: int,
    pub pages: Seq<PageModel>,
}

/// Level of a table, 0 for a page of data.
pub open spec fn level(r: Role) -> int {
    match r {
        Role::Data => 0,
        Role::Root => 1,
        Role::Table { level, .. } => level,
    }
}

impl MemModel {
    /// Physical address of page `i`.
    pub open spec fn addr(self, i: int) -> int {
        self.base + i * PAGE_SIZE
    }

    /// The page at a physical address.
    pub open spec fn index(self, pa: int) -> int {
        (pa - self.base) / PAGE_SIZE as int
    }

    /// `i` is a page and holds a table of level `l`.
    pub open spec fn is_table(self, i: int, l: int) -> bool {
        0 <= i < self.pages.len() && level(self.pages[i].role) == l
    }

    /// The table that entry `s` of table `p` refers to.
    pub open spec fn child(self, p: int, s: int) -> Option<int> {
        let e = self.pages[p].table[s];
        if e == 0 {
            None
        } else {
            Some(self.index((e & PTE_ADDR_MASK) as int))
        }
    }

    /// Entry `s` of table `p` is empty or refers to the table that knows it.
    pub open spec fn entry_ok(self, p: int, s: int) -> bool {
        let e = self.pages[p].table[s];
        e == 0 || exists|q: int| #[trigger] self.linked_to(p, s, q)
    }

    /// Entry `s` of table `p` refers to the table in page `q`.
    pub open spec fn linked_to(self, p: int, s: int, q: int) -> bool {
        &&& 0 <= q < self.pages.len()
        &&& self.pages[p].table[s] == (self.addr(q) as u64 | PTE_LINK)
        &&& self.pages[q].role == (Role::Table {
            level: level(self.pages[p].role) + 1,
            parent: p,
            slot: s,
        })
    }

    /// Page `i` holds what its role says; a page without an owner is no table.
    pub open spec fn page_ok(self, i: int) -> bool {
        let p = self.pages[i];
        &&& 0 <= level(p.role) <= 3
        &&& level(p.role) == 0 ==> p.data.len() == PAGE_SIZE && p.table.len() == 0
        &&& level(p.role) > 0 ==> p.table.len() == TABLE_ENTRIES && p.data.len() == 0
            && p.owner is Some
        &&& p.role matches Role::Table { level, .. } ==> level >= 2
        &&& 1 <= level(p.role) <= 2 ==> forall|s: int|
            0 <= s < TABLE_ENTRIES ==> #[trigger] self.entry_ok(i, s)
    }

    /// Memory lies in the physical address space, and every page is as its role
    /// says.
    pub open spec fn wf(self) -> bool {
        &&& 0 <= self.base
        &&& self.base % PAGE_SIZE as int == 0
        &&& self.base + self.pages.len() * PAGE_SIZE <= PHYS_LIMIT
        &&& forall|i: int| 0 <= i < self.pages.len() ==> #[trigger] self.page_ok(i)
    }

    /// The first page from `i` on that nobody owns.
    pub open spec fn free_page(self, i: int) -> Option<int>
        decreases self.pages.len() - i,
    {
        if i < 0 || i >= self.pages.len() {
            None
        } else if self.pages[i].owner is None {
            Some(i)
        } else {
            self.free_page(i + 1)
        }
    }

    /// How many pages nobody owns.
    pub open spec fn free_count(self) -> nat {
        count_free(self.pages)
    }
}

/// How many of the pages nobody owns.
pub open spec fn count_free(pages: Seq<PageModel>) -> nat
    decreases pages.len(),
{
    if pages.len() == 0 {
        0
    } else {
        count_free(pages.drop_last()) + (if pages.last().owner is None {
            1nat
        } else {
            0
        })
    }
}

/// Giving a page away changes the count by one.
pub proof fn lemma_count_update(pages: Seq<PageModel>, i: int, p: PageModel)
    requires
        0 <= i < pages.len(),
    ensures
        count_free(pages.update(i, p)) + (if pages[i].owner is None {
            1int
        } else {
            0
        }) == count_free(pages) + (if p.owner is None {
            1int
        } else {
            0
        }),
    decreases pages.len(),
{
    if i < pages.len() - 1 {
        lemma_count_update(pages.drop_last(), i, p);
        assert(pages.update(i, p).drop_last() =~= pages.drop_last().update(i, p));
    } else {
        assert(pages.update(i, p).drop_last() =~= pages.drop_last());
    }
}

/// A free page is found exactly when there is one.
pub proof fn lemma_free_page(m: MemModel, i: int)
    requires
        0 <= i,
    ensures
        match m.free_page(i) {
            Some(q) => i <= q < m.pages.len() && m.pages[q].owner is None,
            None => forall|j: int| i <= j < m.pages.len() ==> !(#[trigger] m.pages[j].owner is None),
        },
    decreases m.pages.len() - i,
{
    if i < m.pages.len() {
        lemma_free_page(m, i + 1);
    }
}

/// There is a free page exactly when the count is not zero.
pub proof fn lemma_count_zero(pages: Seq<PageModel>)
    ensures
        count_free(pages) == 0 <==> forall|j: int|
            0 <= j < pages.len() ==> !(#[trigger] pages[j].owner is None),
    decreases pages.len(),
{
    if pages.len() > 0 {
        lemma_count_zero(pages.drop_last());
        assert forall|j: int| 0 <= j < pages.len() - 1 implies pages.drop_last()[j] == pages[j] by {}
        if count_free(pages) == 0 {
            assert forall|j: int| 0 <= j < pages.len() implies !(#[trigger] pages[j].owner is None) by {
                if j < pages.len() - 1 {
                    assert(pages.drop_last()[j] == pages[j]);
                }
            }
        } else if forall|j: int| 0 <= j < pages.len() ==> !(#[trigger] pages[j].owner is None) {
            assert(!(pages.last().owner is None));
            assert forall|j: int| 0 <= j < pages.drop_last().len() implies !(
            #[trigger] pages.drop_last()[j].owner is None) by {
                assert(!(pages[j].owner is None));
            }
        }
    }
}

/// Physical memory and its page tracker.
pub struct MemoryManager {
    pub base: u64,
    pub pages: Vec<Page>,
}

impl View for MemoryManager {
    type V = MemModel;

    open spec fn view(&self) -> MemModel {
        MemModel { base: self.base as int, pages: self.pages@.map_values(|p: Page| p@) }
    }
}

/// A page of zero bytes.
pub open spec fn zero_data() -> Seq<u8> {
    Seq::new(PAGE_SIZE as nat, |i: int| 0u8)
}

/// A table of empty entries.
pub open spec fn zero_table() -> Seq<u64> {
    Seq::new(TABLE_ENTRIES as nat, |i: int| 0u64)
}

impl MemoryManager {
    /// Every page is as its role says, and its frame agrees.
    pub open spec fn wf(&self) -> bool {
        &&& self@.wf()
        &&& forall|i: int|
            0 <= i < self.pages@.len() ==> ((#[trigger] self.pages@[i]).frame is Table
                <==> level(self.pages@[i].role@) > 0)
    }

    /// Takes over the page tracker that boot has prepared: one page of zero
    /// bytes for each entry.
    pub fn init_from_bootstrap(base: u64, owners: &Vec<Option<u8>>) -> (r: MemoryManager)
        requires
            base % PAGE_SIZE == 0,
            base + owners@.len() * PAGE_SIZE <= PHYS_LIMIT,
        ensures
            r.wf(),
            r@.base == base,
            r@.pages.len() == owners@.len(),
            forall|i: int|
                0 <= i < owners@.len() ==> #[trigger] r@.pages[i] == (PageModel {
                    owner: owners@[i],
                    role: Role::Data,
                    table: Seq::empty(),
                    data: zero_data(),
                }),
    {
        let mut pages: Vec<Page> = Vec::new();
        let mut i: usize = 0;
        while i < owners.len()
            invariant
                i <= owners@.len(),
                pages@.len() == i,
                forall|j: int|
                    0 <= j < i ==> (#[trigger] pages@[j])@ == (PageModel {
                        owner: owners@[j],
                        role: Role::Data,
                        table: Seq::empty(),
                        data: zero_data(),
                    }) && pages@[j].frame is Data,
            decreases owners@.len() - i,
        {
            let mut d: Vec<u8> = Vec::new();
            crate::bytes::push_zeros(&mut d, 16384);
            assert(d@ =~= zero_data());
            let p: Page = Page {
                owner: owners[i],
                frame: Frame::Data(d),
                role: Ghost(Role::Data),
            };
            pages.push(p);
            i = i + 1;
        }
        let r: MemoryManager = MemoryManager { base, pages };
        assert forall|j: int| 0 <= j < owners@.len() implies #[trigger] r@.pages[j] == (PageModel {
            owner: owners@[j],
            role: Role::Data,
            table: Seq::empty(),
            data: zero_data(),
        }) by {
            assert(r.pages@[j]@ == r@.pages[j]);
        }
        assert forall|j: int| 0 <= j < r@.pages.len() implies #[trigger] r@.page_ok(j) by {
            assert(r@.pages[j].role == Role::Data);
        }
        r
    }

    /// The model of page `i`.
    pub proof fn lemma_page(&self, i: int)
        requires
            0 <= i < self.pages@.len(),
        ensures
            self@.pages.len() == self.pages@.len(),
            self@.pages[i] == self.pages@[i]@,
    {
    }

    /// Replaces page `i`.
    fn put(&mut self, i: usize, p: Page)
        requires
            i < old(self).pages@.len(),
            forall|j: int|
                0 <= j < old(self).pages@.len() ==> ((#[trigger] old(self).pages@[j]).frame is Table
                    <==> level(old(self).pages@[j].role@) > 0),
            p.frame is Table <==> level(p.role@) > 0,
        ensures
            final(self)@ == (MemModel {
                pages: old(self)@.pages.update(i as int, p@),
                ..old(self)@
            }),
            final(self).pages@.len() == old(self).pages@.len(),
            forall|j: int|
                0 <= j < final(self).pages@.len() ==> ((#[trigger] final(self).pages@[j]).frame is Table
                    <==> level(final(self).pages@[j].role@) > 0),
    {
        self.pages.set(i, p);
        assert(self@.pages =~= old(self)@.pages.update(i as int, p@));
    }

    /// The page at a physical address in memory.
    pub(crate) fn page_at(&self, pa: u64) -> (r: usize)
        requires
            self@.base <= pa,
            0 <= self@.index(pa as int) < self@.pages.len(),
        ensures
            r == self@.index(pa as int),
    {
        let n: usize = self.pages.len();
        assert(self@.index(pa as int) < n);
        ((pa - self.base) / PAGE_SIZE) as usize
    }

    /// The first page that nobody owns.
    fn find_free(&self) -> (r: Option<usize>)
        ensures
            match r {
                Some(i) => self@.free_page(0) == Some(i as int) && i < self.pages@.len()
                    && self@.pages[i as int].owner is None,
                None => self@.free_page(0) is None,
            },
    {
        let mut i: usize = 0;
        while i < self.pages.len()
            invariant
                i <= self.pages@.len(),
                self@.free_page(0) == self@.free_page(i as int),
            decreases self.pages@.len() - i,
        {
            proof {
                self.lemma_page(i as int);
            }
            if self.pages[i].owner.is_none() {
                return Some(i);
            }
            i = i + 1;
        }
        None
    }

    /// Gives the first free page, zeroed, to process `pid`.
    pub fn alloc_page(&mut self, pid: u8) -> (r: Result<usize, Error>)
        requires
            old(self).wf(),
        ensures
            final(self).wf(),
            match r {
                Ok(i) => old(self)@.free_page(0) == Some(i as int) && i < old(self)@.pages.len()
                    && old(self)@.pages[i as int].owner is None && final(self)@ == with_data(
                    old(self)@,
                    i as int,
                    Some(pid),
                    zero_data(),
                ),
                Err(e) => e == Error::OutOfMemory && old(self)@.free_page(0) is None && final(self)@
                    == old(self)@,
            },
    {
        let i: usize = match self.find_free() {
            Some(i) => i,
            None => {
                return Err(Error::OutOfMemory);
            },
        };
        let mut d: Vec<u8> = Vec::new();
        crate::bytes::push_zeros(&mut d, 16384);
        assert(d@ =~= zero_data());
        proof {
            assert(self@.page_ok(i as int));
            lemma_with_data_wf(self@, i as int, Some(pid), zero_data());
        }
        let p: Page = Page { owner: Some(pid), frame: Frame::Data(d), role: Ghost(Role::Data) };
        self.put(i, p);
        Ok(i)
    }

    /// Turns an owned page of data into a table of empty entries.
    pub(crate) fn make_table(&mut self, i: usize, Ghost(role): Ghost<Role>)
        requires
            old(self).wf(),
            i < old(self)@.pages.len(),
            old(self)@.pages[i as int].role is Data,
            old(self)@.pages[i as int].owner is Some,
            role is Root || (role matches Role::Table { level, .. } && 2 <= level <= 3),
        ensures
            final(self).wf(),
            final(self)@ == with_table(old(self)@, i as int, role),
    {
        let mut t: Vec<u64> = Vec::new();
        let mut k: usize = 0;
        while k < TABLE_ENTRIES
            invariant
                k <= TABLE_ENTRIES,
                t@.len() == k,
                forall|j: int| 0 <= j < k ==> t@[j] == 0,
            decreases TABLE_ENTRIES - k,
        {
            t.push(0);
            k = k + 1;
        }
        assert(t@ =~= zero_table());
        proof {
            self.lemma_page(i as int);
            lemma_with_table_wf(self@, i as int, role);
        }
        let owner: Option<u8> = self.pages[i].owner;
        let p: Page = Page { owner, frame: Frame::Table(t), role: Ghost(role) };
        assert(p@ =~= with_table(self@, i as int, role).pages[i as int]);
        self.put(i, p);
    }

    /// Reads entry `s` of table `p`.
    pub(crate) fn read_entry(&self, p: usize, s: usize) -> (e: u64)
        requires
            self.wf(),
            p < self@.pages.len(),
            level(self@.pages[p as int].role) > 0,
            s < TABLE_ENTRIES,
        ensures
            e == self@.pages[p as int].table[s as int],
    {
        proof {
            self.lemma_page(p as int);
            assert(self@.page_ok(p as int));
        }
        match &self.pages[p].frame {
            Frame::Table(t) => t[s],
            Frame::Data(_) => 0,
        }
    }

    /// Writes entry `s` of table `p`. The caller answers for the tree.
    pub(crate) fn write_entry(&mut self, p: usize, s: usize, e: u64)
        requires
            old(self).wf(),
            p < old(self)@.pages.len(),
            level(old(self)@.pages[p as int].role) > 0,
            s < TABLE_ENTRIES,
            with_entry(old(self)@, p as int, s as int, e).wf(),
        ensures
            final(self).wf(),
            final(self)@ == with_entry(old(self)@, p as int, s as int, e),
    {
        proof {
            self.lemma_page(p as int);
            assert(self@.page_ok(p as int));
        }
        let ghost before = self.pages@;
        match &mut self.pages[p].frame {
            Frame::Table(t) => {
                t.set(s, e);
            },
            Frame::Data(_) => {},
        }
        assert(self.pages@.len() == before.len());
        assert forall|j: int| 0 <= j < before.len() && j != p implies self.pages@[j]
            == before[j] by {}
        assert(self@.pages =~= with_entry(old(self)@, p as int, s as int, e).pages);
    }

    /// Replaces the bytes of page `i`.
    pub(crate) fn fill_page(&mut self, i: usize, data: Vec<u8>)
        requires
            old(self).wf(),
            i < old(self)@.pages.len(),
            old(self)@.pages[i as int].role is Data,
            data@.len() == PAGE_SIZE,
        ensures
            final(self).wf(),
            final(self)@ == with_data(
                old(self)@,
                i as int,
                old(self)@.pages[i as int].owner,
                data@,
            ),
    {
        proof {
            self.lemma_page(i as int);
            lemma_with_data_wf(self@, i as int, self@.pages[i as int].owner, data@);
        }
        let owner: Option<u8> = self.pages[i].owner;
        let p: Page = Page { owner, frame: Frame::Data(data), role: Ghost(Role::Data) };
        self.put(i, p);
    }

    /// Reads byte `at` of page `p`.
    pub fn read_byte(&self, p: usize, at: usize) -> (b: u8)
        requires
            self.wf(),
            p < self@.pages.len(),
            self@.pages[p as int].role is Data,
            at < 16384,
        ensures
            b == self@.pages[p as int].data[at as int],
    {
        proof {
            self.lemma_page(p as int);
            assert(self@.page_ok(p as int));
        }
        match &self.pages[p].frame {
            Frame::Data(d) => d[at],
            Frame::Table(_) => 0,
        }
    }

    /// Writes byte `at` of page `p`.
    pub fn write_byte(&mut self, p: usize, at: usize, b: u8)
        requires
            old(self).wf(),
            p < old(self)@.pages.len(),
            old(self)@.pages[p as int].role is Data,
            at < 16384,
        ensures
            final(self).wf(),
            final(self)@ == with_data(
                old(self)@,
                p as int,
                old(self)@.pages[p as int].owner,
                old(self)@.pages[p as int].data.update(at as int, b),
            ),
    {
        proof {
            self.lemma_page(p as int);
            assert(self@.page_ok(p as int));
            lemma_with_data_wf(
                self@,
                p as int,
                self@.pages[p as int].owner,
                self@.pages[p as int].data.update(at as int, b),
            );
        }
        let ghost before = self.pages@;
        match &mut self.pages[p].frame {
            Frame::Data(d) => {
                d.set(at, b);
            },
            Frame::Table(_) => {},
        }
        assert forall|j: int| 0 <= j < before.len() && j != p implies self.pages@[j]
            == before[j] by {}
        assert(self@.pages =~= with_data(
            old(self)@,
            p as int,
            old(self)@.pages[p as int].owner,
            old(self)@.pages[p as int].data.update(at as int, b),
        ).pages);
    }
}

/// Page `i` holds `data` for `owner`.
pub open spec fn with_data(m: MemModel, i: int, owner: Option<u8>, data: Seq<u8>) -> MemModel {
    MemModel {
        pages: m.pages.update(
            i,
            PageModel { owner: owner, role: Role::Data, table: Seq::empty(), data: data },
        ),
        ..m
    }
}

/// Page `i` is an empty table.
pub open spec fn with_table(m: MemModel, i: int, role: Role) -> MemModel {
    MemModel {
        pages: m.pages.update(
            i,
            PageModel {
                owner: m.pages[i].owner,
                role: role,
                table: zero_table(),
                data: Seq::empty(),
            },
        ),
        ..m
    }
}

/// Entry `s` of table `p` is `e`.
pub open spec fn with_entry(m: MemModel, p: int, s: int, e: u64) -> MemModel {
    MemModel {
        pages: m.pages.update(
            p,
            PageModel { table: m.pages[p].table.update(s, e), ..m.pages[p] },
        ),
        ..m
    }
}

/// Changing a page of data keeps the trees.
pub proof fn lemma_with_data_wf(m: MemModel, i: int, owner: Option<u8>, data: Seq<u8>)
    requires
        m.wf(),
        0 <= i < m.pages.len(),
        m.pages[i].role is Data,
        data.len() == PAGE_SIZE,
    ensures
        with_data(m, i, owner, data).wf(),
{
    let n = with_data(m, i, owner, data);
    assert forall|j: int| 0 <= j < n.pages.len() implies #[trigger] n.page_ok(j) by {
        assert(m.page_ok(j));
        if j != i && 1 <= level(m.pages[j].role) <= 2 {
            assert forall|s: int| 0 <= s < TABLE_ENTRIES implies #[trigger] n.entry_ok(j, s) by {
                assert(m.entry_ok(j, s));
                if m.pages[j].table[s] != 0 {
                    let q = choose|q: int| #[trigger] m.linked_to(j, s, q);
                    assert(n.linked_to(j, s, q));
                }
            }
        }
    }
}

/// Turning a page of data into an empty table keeps the trees.
pub proof fn lemma_with_table_wf(m: MemModel, i: int, role: Role)
    requires
        m.wf(),
        0 <= i < m.pages.len(),
        m.pages[i].role is Data,
        m.pages[i].owner is Some,
        role is Root || (role matches Role::Table { level, .. } && 2 <= level <= 3),
    ensures
        with_table(m, i, role).wf(),
{
    let n = with_table(m, i, role);
    assert forall|j: int| 0 <= j < n.pages.len() implies #[trigger] n.page_ok(j) by {
        assert(m.page_ok(j));
        if 1 <= level(n.pages[j].role) <= 2 {
            assert forall|s: int| 0 <= s < TABLE_ENTRIES implies #[trigger] n.entry_ok(j, s) by {
                if j != i {
                    assert(m.entry_ok(j, s));
                    if m.pages[j].table[s] != 0 {
                        let q = choose|q: int| #[trigger] m.linked_to(j, s, q);
                        assert(n.linked_to(j, s, q));
                    }
                }
            }
        }
    }
}

/// A page that is given out: it is the first that nobody owned, it is then the process's and
/// holds 16384 zeros, one page fewer is free, and every other page is as it was.
pub proof fn law_page_is_given_out(m: MemModel, i: int, pid: u8)
    requires
        m.free_page(0) == Some(i),
    ensures
        ({
            let n = with_data(m, i, Some(pid), zero_data());
            &&& 0 <= i < m.pages.len()
            &&& m.pages[i].owner is None
            &&& forall|j: int| 0 <= j < i ==> (#[trigger] m.pages[j]).owner is Some
            &&& n.base == m.base
            &&& n.pages.len() == m.pages.len()
            &&& n.pages[i].owner == Some(pid)
            &&& n.pages[i].data.len() == 16384
            &&& forall|k: int| 0 <= k < 16384 ==> #[trigger] n.pages[i].data[k] == 0
            &&& n.free_count() + 1 == m.free_count()
            &&& forall|j: int|
                0 <= j < m.pages.len() && j != i ==> #[trigger] n.pages[j] == m.pages[j]
        }),
{
    lemma_free_page(m, 0);
    lemma_first_free(m, 0);
    let p = PageModel {
        owner: Some(pid),
        role: Role::Data,
        table: Seq::empty(),
        data: zero_data(),
    };
    lemma_count_update(m.pages, i, p);
}

/// The pages before the first free one have owners.
proof fn lemma_first_free(m: MemModel, from: int)
    requires
        0 <= from,
    ensures
        m.free_page(from) matches Some(q) ==> forall|j: int|
            from <= j < q ==> (#[trigger] m.pages[j]).owner is Some,
    decreases m.pages.len() - from,
{
    if from < m.pages.len() && m.pages[from].owner is Some {
        lemma_first_free(m, from + 1);
    }
}

/// Pages are given out until none is free: where a page is free one is found, and two that
/// are given out one after the other are not the same.
pub proof fn law_every_page_is_given_out_once(m: MemModel, i: int, j: int, pid: u8)
    ensures
        m.free_page(0) is None <==> m.free_count() == 0,
        m.free_page(0) == Some(i) && with_data(m, i, Some(pid), zero_data()).free_page(0) == Some(
            j,
        ) ==> i != j,
{
    lemma_free_page(m, 0);
    lemma_count_zero(m.pages);
    lemma_free_page(with_data(m, i, Some(pid), zero_data()), 0);
}

/// Each page has addresses of its own: an address of a page leads back to it, and two pages
/// lie at least 16384 bytes apart.
pub proof fn law_pages_have_addresses(m: MemModel, i: int, j: int, k: int)
    requires
        0 <= k < 16384,
    ensures
        m.index(m.addr(i) + k) == i,
        i < j ==> m.addr(i) + 16384 <= m.addr(j),
        m.addr(0) == m.base,
{
    assert((i * 16384 + k) / 16384 == i);
    assert(m.addr(i) + k - m.base == i * 16384 + k);
}

/// A byte that is written is read back, and no other byte of memory changes.
pub proof fn law_byte_is_read_back(m: MemModel, p: int, at: int, b: u8, q: int, k: int)
    requires
        m.wf(),
        0 <= p < m.pages.len(),
        m.pages[p].role is Data,
        0 <= at < 16384,
        0 <= q < m.pages.len(),
        0 <= k < m.pages[q].data.len(),
    ensures
        ({
            let n = with_data(m, p, m.pages[p].owner, m.pages[p].data.update(at, b));
            &&& n.pages[p].data[at] == b
            &&& q != p || k != at ==> n.pages[q].data[k] == m.pages[q].data[k]
            &&& n.pages[q].owner == m.pages[q].owner
            &&& n.pages[q].table == m.pages[q].table
        }),
{
    assert(m.page_ok(p));
    assert(m.pages[p].table =~= Seq::<u64>::empty());
}

} // verus!
