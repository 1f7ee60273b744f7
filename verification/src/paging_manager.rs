//! The manager of the four level page tables of 64-bit x86: walking them to look up the
//! physical address of a virtual one, and mapping and unmapping ranges of pages, creating the
//! tables on the way where they are missing.
//!
//! The physical memory that holds the tables is a store of tables: the table at index `i` of
//! the store is at physical address `(i + 1) * 4096`, and a new table takes the next index.

use vstd::prelude::*;
use crate::entry_flags::PageTableEntryFlags;
use crate::paging64::{PageTable, entry_address, entry_present, read_entry};
use crate::memory_manager::{SimpleMemoryManager, free_maps, serves};

verus! {

/// The low bit of the zero entry and of the flag words used here.
proof fn lemma_low_bits()
    ensures
        0u64 & 1 == 0,
        3u16 & 1 == 1,
        1u16 & 1 == 1,
{
    assert(0u64 & 1 == 0 && 3u16 & 1 == 1 && 1u16 & 1 == 1) by (bit_vector);
}

/// An entry with the present bit or-ed in is present.
proof fn lemma_odd_entry(x: u64)
    ensures
        (x | 1u64) & 1 != 0,
        (x | 3u64) & 1 != 0,
{
    assert((x | 1u64) & 1 != 0 && (x | 3u64) & 1 != 0) by (bit_vector);
}

/// The number of tables the store can hold: their addresses fit in the 52 bits of a physical
/// address.
pub open spec fn table_limit() -> int {
    0x10_0000_0000_0000
}

/// The physical address of the table at index `i`.
pub open spec fn table_addr(i: int) -> int {
    (i + 1) * 4096
}

/// The index of the table that a present entry points to, if the store holds it.
pub open spec fn table_of(s: Seq<PageTable>, e: u64) -> Option<int> {
    if entry_present(e) && (e >> 12) >= 1 && (e >> 12) - 1 < s.len() {
        Some((e >> 12) - 1)
    } else {
        None
    }
}

/// The index into a table that a virtual address uses at a level: 9 bits of the address
/// starting at bit `shift`.
pub open spec fn pt_index(v: u64, shift: u64) -> int {
    ((v >> shift) & 0x1FF) as int
}

/// The physical memory holding page tables: the tables, and the level of each (4 for the
/// top table, 1 for a table of pages).
pub struct TableStore {
    /// The tables
    pub tables: Vec<PageTable>,
    /// The level of each table
    pub levels: Ghost<Seq<int>>,
}

impl TableStore {
    /// The entry at index `i` of table `t`.
    pub open spec fn entry(&self, t: int, i: int) -> u64 {
        self.tables@[t].entries@[i]
    }

    /// The level of table `t`.
    pub open spec fn level(&self, t: int) -> int {
        self.levels@[t]
    }

    /// The number of tables.
    pub open spec fn count(&self) -> int {
        self.tables@.len() as int
    }

    /// The table that entry `i` of table `t` points to.
    pub open spec fn next(&self, t: int, i: int) -> Option<int> {
        table_of(self.tables@, self.entry(t, i))
    }

    /// Every table has a level, and every present entry of a table above level 1 points to a
    /// table of the store one level down.
    pub open spec fn wf(&self) -> bool {
        &&& self.levels@.len() == self.tables@.len()
        &&& self.tables@.len() < table_limit()
        &&& forall|t: int| 0 <= t < self.count() ==> 1 <= #[trigger] self.level(t) <= 4
        &&& forall|t: int, i: int|
            0 <= t < self.count() && 0 <= i < 512 && self.level(t) >= 2 && entry_present(
                #[trigger] self.entry(t, i),
            ) ==> (self.next(t, i) matches Some(u) && self.level(u) == self.level(t) - 1)
    }
}

/// The level 1 table that the walk from the top table `root` for address `v` reaches, if
/// every entry on the way is present.
pub open spec fn walk(s: TableStore, root: int, v: u64) -> Option<int> {
    match s.next(root, pt_index(v, 39)) {
        Some(t3) => match s.next(t3, pt_index(v, 30)) {
            Some(t2) => s.next(t2, pt_index(v, 21)),
            None => None,
        },
        None => None,
    }
}

/// The physical address that virtual address `v` maps to under the top table `root`.
pub open spec fn lookup(s: TableStore, root: int, v: u64) -> Option<u64> {
    match walk(s, root, v) {
        Some(t1) => match read_entry(s.entry(t1, pt_index(v, 12))) {
            Some(a) => Some(a | (v & 0xFFF)),
            None => None,
        },
        None => None,
    }
}

/// The new store keeps every table of the old one at its level, and every present entry.
pub open spec fn extends(old: TableStore, new: TableStore) -> bool {
    &&& new.count() >= old.count()
    &&& forall|t: int| 0 <= t < old.count() ==> #[trigger] new.level(t) == old.level(t)
    &&& forall|t: int, i: int|
        0 <= t < old.count() && 0 <= i < 512 && entry_present(#[trigger] old.entry(t, i))
            ==> new.entry(t, i) == old.entry(t, i)
}

/// Links that grow in two steps grow in one.
pub proof fn lemma_links_grow_trans(a: TableStore, b: TableStore, c: TableStore)
    requires
        a.wf(),
        b.wf(),
        extends(a, b),
        extends(b, c),
        links_grow(a, b),
        links_grow(b, c),
    ensures
        links_grow(a, c),
{
    assert forall|t: int, i: int|
        0 <= t < c.count() && 0 <= i < 512 && c.level(t) >= 2 && entry_present(
            #[trigger] c.entry(t, i),
        ) && (t >= a.count() || !entry_present(a.entry(t, i))) implies c.next(t, i)->0 >= a.count() by {
        if t >= b.count() || !entry_present(b.entry(t, i)) {
        } else {
            assert(c.entry(t, i) == b.entry(t, i));
            assert(c.level(t) == b.level(t));
        }
    }
}

/// Links that grow in two steps grow in one, when the second step keeps the tables, levels
/// and present entries above level 1.
pub proof fn lemma_links_grow_upper(a: TableStore, b: TableStore, c: TableStore)
    requires
        a.wf(),
        b.wf(),
        links_grow(a, b),
        links_grow(b, c),
        b.count() >= a.count(),
        c.count() >= b.count(),
        forall|t: int| 0 <= t < b.count() ==> #[trigger] c.level(t) == b.level(t),
        forall|t: int, i: int|
            0 <= t < b.count() && 0 <= i < 512 && b.level(t) >= 2 && entry_present(
                #[trigger] b.entry(t, i),
            ) ==> c.entry(t, i) == b.entry(t, i),
    ensures
        links_grow(a, c),
{
    assert forall|t: int, i: int|
        0 <= t < c.count() && 0 <= i < 512 && c.level(t) >= 2 && entry_present(
            #[trigger] c.entry(t, i),
        ) && (t >= a.count() || !entry_present(a.entry(t, i))) implies c.next(t, i)->0 >= a.count() by {
        if t >= b.count() || !entry_present(b.entry(t, i)) {
        } else {
            assert(c.level(t) == b.level(t));
            assert(c.entry(t, i) == b.entry(t, i));
        }
    }
}

/// A store that extends one that extends a third extends the third.
pub proof fn lemma_extends_trans(a: TableStore, b: TableStore, c: TableStore)
    requires
        extends(a, b),
        extends(b, c),
    ensures
        extends(a, c),
{
    assert forall|t: int, i: int|
        0 <= t < a.count() && 0 <= i < 512 && entry_present(#[trigger] a.entry(t, i)) implies c.entry(
        t,
        i,
    ) == a.entry(t, i) by {
        assert(b.entry(t, i) == a.entry(t, i));
    }
    assert forall|t: int| 0 <= t < a.count() implies #[trigger] c.level(t) == a.level(t) by {
        assert(b.level(t) == a.level(t));
    }
}

/// A store that extends another walks every complete path the same way, and maps every
/// address that the other maps the same way.
pub proof fn lemma_extends_lookup(old: TableStore, new: TableStore, root: int, v: u64)
    requires
        old.wf(),
        extends(old, new),
        0 <= root < old.count(),
        old.level(root) == 4,
    ensures
        walk(old, root, v) is Some ==> walk(new, root, v) == walk(old, root, v),
        lookup(old, root, v) is Some ==> lookup(new, root, v) == lookup(old, root, v),
{
    lemma_index_bound(v, 39);
    lemma_index_bound(v, 30);
    lemma_index_bound(v, 21);
    lemma_index_bound(v, 12);
    if let Some(t3) = old.next(root, pt_index(v, 39)) {
        assert(entry_present(old.entry(root, pt_index(v, 39))));
        if let Some(t2) = old.next(t3, pt_index(v, 30)) {
            assert(entry_present(old.entry(t3, pt_index(v, 30))));
            if let Some(t1) = old.next(t2, pt_index(v, 21)) {
                assert(entry_present(old.entry(t2, pt_index(v, 21))));
                if read_entry(old.entry(t1, pt_index(v, 12))) is Some {
                    assert(entry_present(old.entry(t1, pt_index(v, 12))));
                }
            }
        }
    }
}

/// An index into a table is below 512.
pub proof fn lemma_index_bound(v: u64, shift: u64)
    ensures
        0 <= pt_index(v, shift) < 512,
{
    assert((v >> shift) & 0x1FF < 512) by (bit_vector);
}

/// The entry that points to the table at index `i` is present and points back to it.
proof fn lemma_table_entry(i: u64, flags: u64)
    requires
        i + 1 < table_limit(),
        flags & 1 == 1,
        flags < 4096,
    ensures
        ((((i + 1) as u64) << 12u64) | flags) & 1 == 1,
        ((((i + 1) as u64) << 12u64) | flags) >> 12u64 == i + 1,
{
    let j: u64 = (i + 1) as u64;
    assert(j < 0x10_0000_0000_0000);
    assert(((j << 12u64) | flags) & 1 == 1) by (bit_vector)
        requires
            flags & 1 == 1,
    ;
    assert(((j << 12u64) | flags) >> 12u64 == j) by (bit_vector)
        requires
            j < 0x10_0000_0000_0000,
            flags < 4096,
    ;
}

/// The index of the table an entry points to, if it is present and the store holds it.
fn table_index(store: &TableStore, e: u64) -> (r: Option<usize>)
    ensures
        r matches Some(u) ==> table_of(store.tables@, e) == Some(u as int),
        r is None ==> table_of(store.tables@, e) is None,
{
    let n = store.tables.len();
    if e & 1 != 0 {
        let a = e >> 12;
        if a >= 1 && a - 1 < n as u64 {
            return Some((a - 1) as usize);
        }
    }
    None
}

/// Index of a table, from a virtual address.
fn index_of(v: u64, shift: u64) -> (r: usize)
    requires
        shift < 64,
    ensures
        r == pt_index(v, shift),
        r < 512,
{
    proof {
        lemma_index_bound(v, shift);
    }
    ((v >> shift) & 0x1FF) as usize
}

impl TableStore {
    /// A store holding one empty top level table
    pub fn new() -> (r: Self)
        ensures
            r.wf(),
            r.count() == 1,
            r.level(0) == 4,
            forall|i: int| 0 <= i < 512 ==> r.entry(0, i) == 0,
    {
        let mut tables: Vec<PageTable> = Vec::new();
        tables.push(PageTable::new());
        let ghost lv = Seq::<int>::empty().push(4int);
        let r = TableStore { tables, levels: Ghost(lv) };
        assert(0u64 & 1 == 0) by {
            lemma_low_bits();
        }
        assert forall|t: int, i: int|
            0 <= t < r.count() && 0 <= i < 512 && r.level(t) >= 2 && entry_present(
                #[trigger] r.entry(t, i),
            ) implies (r.next(t, i) matches Some(u) && r.level(u) == r.level(t) - 1) by {
            assert(r.entry(t, i) == 0);
        }
        r
    }

    /// Take a new empty table of a level, returning its index
    pub fn new_table(&mut self, level: Ghost<int>) -> (r: usize)
        requires
            old(self).wf(),
            old(self).count() + 1 < table_limit(),
            1 <= level@ <= 4,
        ensures
            final(self).wf(),
            r == old(self).count(),
            final(self).count() == old(self).count() + 1,
            final(self).level(r as int) == level@,
            forall|i: int| 0 <= i < 512 ==> final(self).entry(r as int, i) == 0,
            forall|t: int, i: int|
                0 <= t < old(self).count() && 0 <= i < 512 ==> #[trigger] final(self).entry(t, i)
                    == old(self).entry(t, i),
            forall|t: int| 0 <= t < old(self).count() ==> #[trigger] final(self).level(t) == old(
                self,
            ).level(t),
    {
        let r = self.tables.len();
        let t = PageTable::new();
        self.tables.push(t);
        self.levels = Ghost(self.levels@.push(level@));
        assert forall|u: int| 0 <= u < self.count() implies 1 <= #[trigger] self.level(u) <= 4 by {
            if u < r {
                assert(self.level(u) == old(self).level(u));
            }
        }
        assert forall|u: int, i: int|
            0 <= u < self.count() && 0 <= i < 512 && self.level(u) >= 2 && entry_present(
                #[trigger] self.entry(u, i),
            ) implies (self.next(u, i) matches Some(w) && self.level(w) == self.level(u) - 1) by {
            if u < r {
                assert(self.entry(u, i) == old(self).entry(u, i));
                assert(old(self).next(u, i) is Some);
            } else {
                assert(self.entry(u, i) == 0);
                assert(0u64 & 1 == 0) by {
            lemma_low_bits();
        }
            }
        }
        r
    }

    /// Point entry `i` of table `t` at a table `u` one level down, with the given flags
    fn link(&mut self, t: usize, i: usize, u: usize, flags: PageTableEntryFlags)
        requires
            old(self).wf(),
            t < old(self).count(),
            u < old(self).count(),
            i < 512,
            old(self).level(t as int) >= 2,
            old(self).level(u as int) == old(self).level(t as int) - 1,
            flags.0 & 1 == 1,
            flags.0 < 4096,
        ensures
            final(self).wf(),
            final(self).count() == old(self).count(),
            final(self).levels@ == old(self).levels@,
            final(self).next(t as int, i as int) == Some(u as int),
            final(self).entry(t as int, i as int) == (((u + 1) as u64) << 12u64) | (flags.0 as u64),
            forall|s: int, j: int|
                0 <= s < old(self).count() && 0 <= j < 512 && (s != t || j != i)
                    ==> #[trigger] final(self).entry(s, j) == old(self).entry(s, j),
    {
        proof {
            lemma_table_entry(u as u64, flags.0 as u64);
        }
        let _n = self.tables.len();
        let addr: u64 = ((u + 1) as u64) << 12u64;
        let ghost before = self.tables@;
        let mut table = self.tables[t];
        table.entries[i] = addr | flags.0 as u64;
        self.tables.set(t, table);
        assert forall|s: int| 0 <= s < self.count() implies 1 <= #[trigger] self.level(s) <= 4 by {
            assert(self.level(s) == old(self).level(s));
        }
        assert forall|s: int, j: int|
            0 <= s < self.count() && 0 <= j < 512 && self.level(s) >= 2 && entry_present(
                #[trigger] self.entry(s, j),
            ) implies (self.next(s, j) matches Some(w) && self.level(w) == self.level(s) - 1) by {
            if s != t || j != i {
                assert(self.entry(s, j) == old(self).entry(s, j));
            } else {
                assert(self.entry(s, j) == addr | flags.0 as u64);
                assert(self.next(s, j) == Some(u as int));
            }
        }
    }

    /// The table that entry `i` of table `t` points to, making a new empty table there when
    /// the entry is not present
    pub fn ensure_table(&mut self, t: usize, i: usize, flags: PageTableEntryFlags) -> (r: usize)
        requires
            flags.0 & 1 == 1,
            flags.0 < 4096,
            old(self).wf(),
            old(self).count() + 1 < table_limit(),
            t < old(self).count(),
            i < 512,
            old(self).level(t as int) >= 2,
        ensures
            final(self).wf(),
            extends(*old(self), *final(self)),
            final(self).next(t as int, i as int) == Some(r as int),
            final(self).level(r as int) == old(self).level(t as int) - 1,
            entry_present(old(self).entry(t as int, i as int)) ==> *final(self) == *old(self),
            final(self).count() <= old(self).count() + 1,
            links_grow(*old(self), *final(self)),
            forall|s: int, j: int|
                0 <= s < old(self).count() && 0 <= j < 512 && old(self).level(s) == 1
                    ==> #[trigger] final(self).entry(s, j) == old(self).entry(s, j),
            !entry_present(old(self).entry(t as int, i as int)) ==> {
                &&& final(self).count() == old(self).count() + 1
                &&& r == old(self).count()
                &&& final(self).entry(t as int, i as int) == (((r + 1) as u64) << 12u64) | (flags.0 as u64)
                &&& forall|j: int| 0 <= j < 512 ==> final(self).entry(r as int, j) == 0
                &&& forall|s: int, j: int|
                    0 <= s < old(self).count() && 0 <= j < 512 && (s != t || j != i)
                        ==> #[trigger] final(self).entry(s, j) == old(self).entry(s, j)
            },
    {
        let e = self.tables[t].entries[i];
        if e & 1 != 0 {
            assert(entry_present(self.entry(t as int, i as int)));
            let u = table_index(self, e);
            match u {
                Some(u) => {
                    return u;
                },
                None => {
                    assert(false);
                    return 0;
                },
            }
        }
        let ghost lvl = self.level(t as int) - 1;
        let u = self.new_table(Ghost(lvl));
        let ghost mid = *self;
        self.link(t, i, u, flags);
        assert forall|s: int, j: int|
            0 <= s < old(self).count() && 0 <= j < 512 && entry_present(
                #[trigger] old(self).entry(s, j),
            ) implies self.entry(s, j) == old(self).entry(s, j) by {
            if s == t && j == i {
                assert(!entry_present(old(self).entry(s, j)));
            }
        }
        assert forall|s: int| 0 <= s < old(self).count() implies #[trigger] self.level(s) == old(
            self,
        ).level(s) by {
            assert(mid.level(s) == old(self).level(s));
        }
        assert forall|s: int, j: int|
            0 <= s < self.count() && 0 <= j < 512 && self.level(s) >= 2 && entry_present(
                #[trigger] self.entry(s, j),
            ) && (s >= old(self).count() || !entry_present(old(self).entry(s, j))) implies self.next(
            s,
            j,
        )->0 >= old(self).count() by {
            if s == t && j == i {
            } else if s < old(self).count() {
                assert(self.entry(s, j) == old(self).entry(s, j));
            } else {
                assert(self.entry(s, j) == 0);
                assert(0u64 & 1 == 0) by {
            lemma_low_bits();
        }
            }
        }
        u
    }
}

/// The manager of one set of page tables, by the physical address of its top table
pub struct PagingTableManager {
    /// The mask for physical addresses
    pub physical_mask: usize,
    /// The cr3 value for this paging table: the physical address of the top table
    pub cr3: usize,
}

/// The index in the store of the top table at physical address `cr3`.
pub open spec fn root_of(cr3: usize) -> int {
    cr3 / 4096 - 1
}

/// The manager's top table is a table of level 4 in the store.
pub open spec fn manager_ok(m: PagingTableManager, s: TableStore) -> bool {
    &&& s.wf()
    &&& m.cr3 % 4096 == 0
    &&& 0 <= root_of(m.cr3) < s.count()
    &&& s.level(root_of(m.cr3)) == 4
}

/// The number of pages that a range of `size` bytes starts, one every 4096 bytes.
pub open spec fn page_count(size: usize) -> int {
    (size + 4095) / 4096
}

/// The address of page `k` of a range.
pub open spec fn page_at(start: usize, k: int) -> u64 {
    (start + k * 4096) as u64
}

/// The pages of a range starting at `start` all have addresses.
pub open spec fn range_fits(start: usize, size: usize) -> bool {
    size == 0 || start + (page_count(size) - 1) * 4096 <= usize::MAX
}

/// What an address maps to once its page is mapped to physical address `p` with `flags`.
pub open spec fn mapped_to(p: u64, flags: u64, v: u64) -> u64 {
    ((p | flags) & !0xFFFu64) | (v & 0xFFF)
}

/// Every entry above level 1 that the new store has and the old one did not, in a table of the
/// old store or a new one, points to a new table.
pub open spec fn links_grow(old: TableStore, new: TableStore) -> bool {
    forall|t: int, i: int|
        0 <= t < new.count() && 0 <= i < 512 && new.level(t) >= 2 && entry_present(
            #[trigger] new.entry(t, i),
        ) && (t >= old.count() || !entry_present(old.entry(t, i))) ==> new.next(t, i)->0
            >= old.count()
}

/// The new store keeps every table and level of the old one and every present entry of a
/// table above level 1; entries of level 1 tables are kept or cleared.
pub open spec fn clears_only(old: TableStore, new: TableStore) -> bool {
    &&& new.count() >= old.count()
    &&& forall|t: int| 0 <= t < old.count() ==> #[trigger] new.level(t) == old.level(t)
    &&& forall|t: int, i: int|
        0 <= t < old.count() && 0 <= i < 512 && old.level(t) >= 2 && entry_present(
            #[trigger] old.entry(t, i),
        ) ==> new.entry(t, i) == old.entry(t, i)
    &&& forall|t: int, i: int|
        0 <= t < old.count() && 0 <= i < 512 && old.level(t) == 1 ==> #[trigger] new.entry(t, i)
            == old.entry(t, i) || new.entry(t, i) == 0
}

/// A store that keeps the tables, levels and present entries above level 1 of another walks
/// every complete path of the other the same way.
pub proof fn lemma_walk_kept(old: TableStore, new: TableStore, root: int, v: u64)
    requires
        old.wf(),
        new.count() >= old.count(),
        forall|t: int| 0 <= t < old.count() ==> #[trigger] new.level(t) == old.level(t),
        forall|t: int, i: int|
            0 <= t < old.count() && 0 <= i < 512 && old.level(t) >= 2 && entry_present(
                #[trigger] old.entry(t, i),
            ) ==> new.entry(t, i) == old.entry(t, i),
        0 <= root < old.count(),
        old.level(root) == 4,
    ensures
        walk(old, root, v) is Some ==> walk(new, root, v) == walk(old, root, v),
{
    lemma_index_bound(v, 39);
    lemma_index_bound(v, 30);
    lemma_index_bound(v, 21);
    if let Some(t3) = old.next(root, pt_index(v, 39)) {
        assert(entry_present(old.entry(root, pt_index(v, 39))));
        if let Some(t2) = old.next(t3, pt_index(v, 30)) {
            assert(entry_present(old.entry(t3, pt_index(v, 30))));
            if let Some(t1) = old.next(t2, pt_index(v, 21)) {
                assert(entry_present(old.entry(t2, pt_index(v, 21))));
            }
        }
    }
}

impl TableStore {
    /// The level 1 table on the walk for address `v` from the top table `root`, making the
    /// tables that are missing on the way, with the given flags
    pub fn walk_create(&mut self, root: usize, v: u64, flags: PageTableEntryFlags) -> (r: usize)
        requires
            flags.0 & 1 == 1,
            flags.0 < 4096,
            old(self).wf(),
            old(self).count() + 3 < table_limit(),
            root < old(self).count(),
            old(self).level(root as int) == 4,
        ensures
            final(self).wf(),
            extends(*old(self), *final(self)),
            final(self).count() <= old(self).count() + 3,
            walk(*final(self), root as int, v) == Some(r as int),
            final(self).level(r as int) == 1,
            walk(*old(self), root as int, v) is Some ==> *final(self) == *old(self),
            links_grow(*old(self), *final(self)),
            forall|s: int, j: int|
                old(self).count() <= s < final(self).count() && 0 <= j < 512 && final(self).level(s)
                    == 1 ==> #[trigger] final(self).entry(s, j) == 0,
            forall|s: int, j: int|
                0 <= s < old(self).count() && 0 <= j < 512 && old(self).level(s) == 1
                    ==> #[trigger] final(self).entry(s, j) == old(self).entry(s, j),
    {
        let i4 = index_of(v, 39);
        let i3 = index_of(v, 30);
        let i2 = index_of(v, 21);
        let ghost s0 = *self;
        let t3 = self.ensure_table(root, i4, flags);
        let ghost s1 = *self;
        let t2 = self.ensure_table(t3, i3, flags);
        let ghost s2 = *self;
        let t1 = self.ensure_table(t2, i2, flags);
        proof {
            assert(entry_present(s1.entry(root as int, i4 as int)));
            assert(self.next(root as int, i4 as int) == Some(t3 as int));
            assert(entry_present(s2.entry(t3 as int, i3 as int)));
            assert(self.next(t3 as int, i3 as int) == Some(t2 as int));
            assert forall|t: int| 0 <= t < s0.count() implies #[trigger] self.level(t) == s0.level(
                t,
            ) by {
                assert(s1.level(t) == s0.level(t));
                assert(s2.level(t) == s1.level(t));
            }
            assert forall|t: int, i: int|
                0 <= t < s0.count() && 0 <= i < 512 && entry_present(#[trigger] s0.entry(t, i))
                    implies self.entry(t, i) == s0.entry(t, i) by {
                assert(s1.entry(t, i) == s0.entry(t, i));
                assert(s2.entry(t, i) == s1.entry(t, i));
            }
            assert forall|s: int, j: int|
                0 <= s < s0.count() && 0 <= j < 512 && s0.level(s) == 1 implies #[trigger] self.entry(
                s,
                j,
            ) == s0.entry(s, j) by {
                assert(s1.entry(s, j) == s0.entry(s, j));
                assert(s1.level(s) == 1);
                assert(s2.entry(s, j) == s1.entry(s, j));
                assert(s2.level(s) == 1);
            }
            if walk(s0, root as int, v) is Some {
                assert(entry_present(s0.entry(root as int, i4 as int)));
                assert(entry_present(s1.entry(t3 as int, i3 as int)));
                assert(entry_present(s2.entry(t2 as int, i2 as int)));
            }
            lemma_links_grow_trans(s0, s1, s2);
            lemma_links_grow_trans(s0, s2, *self);
            assert forall|s: int, j: int|
                s0.count() <= s < self.count() && 0 <= j < 512 && self.level(s) == 1 implies #[trigger] self.entry(
                s,
                j,
            ) == 0 by {
                if s < s1.count() {
                    assert(s1.level(s) == 3);
                    assert(s2.level(s) == 3);
                } else if s < s2.count() {
                    assert(s2.level(s) == 2);
                } else {
                    assert(s == s2.count());
                }
            }
        }
        t1
    }

    /// Set entry `i` of the level 1 table `t`
    fn set_page_entry(&mut self, t: usize, i: usize, value: u64)
        requires
            old(self).wf(),
            t < old(self).count(),
            i < 512,
            old(self).level(t as int) == 1,
        ensures
            final(self).wf(),
            final(self).count() == old(self).count(),
            final(self).levels@ == old(self).levels@,
            final(self).entry(t as int, i as int) == value,
            forall|s: int, j: int|
                0 <= s < old(self).count() && 0 <= j < 512 && (s != t || j != i)
                    ==> #[trigger] final(self).entry(s, j) == old(self).entry(s, j),
    {
        let mut table = self.tables[t];
        table.entries[i] = value;
        self.tables.set(t, table);
        assert forall|s: int| 0 <= s < self.count() implies 1 <= #[trigger] self.level(s) <= 4 by {
            assert(self.level(s) == old(self).level(s));
        }
        assert forall|s: int, j: int|
            0 <= s < self.count() && 0 <= j < 512 && self.level(s) >= 2 && entry_present(
                #[trigger] self.entry(s, j),
            ) implies (self.next(s, j) matches Some(w) && self.level(w) == self.level(s) - 1) by {
            assert(self.entry(s, j) == old(self).entry(s, j));
        }
    }
}

impl PagingTableManager {
    /// A manager that cannot do anything useful until its top table is set up
    pub fn new() -> (r: Self)
        ensures
            r.physical_mask == usize::MAX,
            r.cr3 == 0,
    {
        Self { physical_mask: usize::MAX, cr3: 0 }
    }

    /// Take the top table that is in use, by its physical address
    pub fn setup_from_existing(&mut self, cr3: usize)
        ensures
            final(self).cr3 == cr3,
            final(self).physical_mask == old(self).physical_mask,
    {
        self.cr3 = cr3;
    }

    /// Set the physical mask according to the number of bits in physical address
    pub fn set_physical_address_size(&mut self, bits: u8)
        requires
            bits < usize::BITS,
        ensures
            final(self).physical_mask == (1usize << bits) - 1,
            final(self).cr3 == old(self).cr3,
    {
        let one: usize = 1;
        let m = one << bits;
        assert(m >= 1) by (bit_vector)
            requires
                m == 1usize << bits,
                bits < usize::BITS,
        ;
        self.physical_mask = m - 1;
    }

    /// Lookup the physical address corresponding to the specified address. After a page
    /// aligned range is mapped, `lemma_mapped_range_offsets` gives the lookup of every byte of
    /// it.
    pub fn lookup_physical_address(&self, store: &TableStore, addr: usize) -> (r: Option<usize>)
        requires
            manager_ok(*self, *store),
            walk(*store, root_of(self.cr3), addr as u64) is Some,
        ensures
            r == match lookup(*store, root_of(self.cr3), addr as u64) {
                Some(x) => Some(x as usize),
                None => None,
            },
    {
        let v = addr as u64;
        let root = self.cr3 / 4096 - 1;
        let i4 = index_of(v, 39);
        let i3 = index_of(v, 30);
        let i2 = index_of(v, 21);
        let i1 = index_of(v, 12);
        let t3 = match table_index(store, store.tables[root].entries[i4]) {
            Some(t) => t,
            None => {
                return None;
            },
        };
        let t2 = match table_index(store, store.tables[t3].entries[i3]) {
            Some(t) => t,
            None => {
                return None;
            },
        };
        let t1 = match table_index(store, store.tables[t2].entries[i2]) {
            Some(t) => t,
            None => {
                return None;
            },
        };
        match store.tables[t1].get_entry(i1) {
            Some(a) => {
                let r = (a as usize) | (addr & 0xFFF);
                assert(r == (a | (v & 0xFFF)) as usize) by (bit_vector)
                    requires
                        r == (a as usize) | (addr & 0xFFF),
                        v == addr as u64,
                ;
                Some(r)
            },
            None => None,
        }
    }
}

/// The number of pages of a range, computed without overflow.
fn pages_of(size: usize) -> (r: usize)
    ensures
        r == page_count(size),
{
    size / 4096 + if size % 4096 != 0 {
        1
    } else {
        0
    }
}

/// Entry `i` of table `t` is as it was, or is the entry of one of the first `k` pages of the
/// range.
pub open spec fn accounted_at(
    s0: TableStore,
    s: TableStore,
    root: int,
    vstart: usize,
    k: int,
    t: int,
    i: int,
) -> bool {
    (t < s0.count() && s.entry(t, i) == s0.entry(t, i)) || exists|j: int|
        0 <= j < k && walk(s, root, #[trigger] page_at(vstart, j)) == Some(t) && pt_index(
            page_at(vstart, j),
            12,
        ) == i
}

/// Every present entry of a last level table is as it was, or is the entry of one of the
/// first `k` pages of the range.
#[verifier::opaque]
pub open spec fn entries_accounted(s0: TableStore, s: TableStore, root: int, vstart: usize, k: int) -> bool {
    forall|t: int, i: int|
        0 <= t < s.count() && 0 <= i < 512 && s.level(t) == 1 && entry_present(
            #[trigger] s.entry(t, i),
        ) ==> accounted_at(s0, s, root, vstart, k, t, i)
}

/// Page `k` of the range uses the same last level entry as an earlier page of the range.
pub open spec fn shares_earlier(s: TableStore, root: int, start: usize, k: int) -> bool {
    exists|j: int|
        0 <= j < k && walk(s, root, #[trigger] page_at(start, j)) is Some && same_slot(
            s,
            root,
            start,
            j,
            k,
        )
}

/// Making the tables on the walk of page `k` keeps the last level entries accounted for.
proof fn lemma_write_walked(s0: TableStore, cur: TableStore, mid: TableStore, rt: int, vs: usize, k: int)
    requires
        s0.wf(),
        cur.wf(),
        mid.wf(),
        0 <= rt < s0.count(),
        s0.level(rt) == 4,
        extends(s0, cur),
        links_grow(s0, cur),
        entries_accounted(s0, cur, rt, vs, k),
        extends(cur, mid),
        links_grow(cur, mid),
        forall|s: int, j: int|
            cur.count() <= s < mid.count() && 0 <= j < 512 && mid.level(s) == 1
                ==> #[trigger] mid.entry(s, j) == 0,
        forall|s: int, j: int|
            0 <= s < cur.count() && 0 <= j < 512 && cur.level(s) == 1 ==> #[trigger] mid.entry(s, j)
                == cur.entry(s, j),
    ensures
        extends(s0, mid),
        links_grow(s0, mid),
        entries_accounted(s0, mid, rt, vs, k),
{
    lemma_extends_trans(s0, cur, mid);
    lemma_links_grow_trans(s0, cur, mid);
    assert(0u64 & 1 == 0) by {
        lemma_low_bits();
    }
    reveal(entries_accounted);
    assert forall|t: int, i: int|
        0 <= t < mid.count() && 0 <= i < 512 && mid.level(t) == 1 && entry_present(
            #[trigger] mid.entry(t, i),
        ) implies (t < s0.count() && mid.entry(t, i) == s0.entry(t, i)) || exists|j: int|
        0 <= j < k && walk(mid, rt, #[trigger] page_at(vs, j)) == Some(t) && pt_index(
            page_at(vs, j),
            12,
        ) == i by {
        if t >= cur.count() {
            assert(mid.entry(t, i) == 0);
        } else {
            assert(cur.level(t) == 1);
            assert(mid.entry(t, i) == cur.entry(t, i));
            if !(t < s0.count() && cur.entry(t, i) == s0.entry(t, i)) {
                let j = choose|j: int|
                    0 <= j < k && walk(cur, rt, #[trigger] page_at(vs, j)) == Some(t) && pt_index(
                        page_at(vs, j),
                        12,
                    ) == i;
                lemma_extends_lookup(cur, mid, rt, page_at(vs, j));
            }
        }
    }
}

/// Writing a last level entry adds no link between tables.
proof fn lemma_write_links(s0: TableStore, mid: TableStore, new: TableStore, t1: int, i1: int)
    requires
        s0.wf(),
        mid.wf(),
        new.wf(),
        extends(s0, mid),
        links_grow(s0, mid),
        extends(mid, new),
        new.count() == mid.count(),
        new.levels@ == mid.levels@,
        0 <= t1 < mid.count(),
        mid.level(t1) == 1,
        forall|s: int, j: int|
            0 <= s < mid.count() && 0 <= j < 512 && (s != t1 || j != i1) ==> #[trigger] new.entry(s, j)
                == mid.entry(s, j),
    ensures
        links_grow(s0, new),
{
    assert(links_grow(mid, new)) by {
        assert forall|t: int, i: int|
            0 <= t < new.count() && 0 <= i < 512 && new.level(t) >= 2 && entry_present(
                #[trigger] new.entry(t, i),
            ) && (t >= mid.count() || !entry_present(mid.entry(t, i))) implies new.next(t, i)->0
            >= mid.count() by {
            assert(new.level(t) == mid.level(t));
            assert(new.entry(t, i) == mid.entry(t, i));
        }
    }
    lemma_links_grow_trans(s0, mid, new);
}

/// Writing the entry of page `k` keeps the last level entries accounted for, with page `k`
/// among them.
proof fn lemma_write_entered(
    s0: TableStore,
    mid: TableStore,
    new: TableStore,
    rt: int,
    vs: usize,
    k: int,
    t1: int,
    i1: int,
)
    requires
        mid.wf(),
        0 <= rt < mid.count(),
        mid.level(rt) == 4,
        entries_accounted(s0, mid, rt, vs, k),
        extends(mid, new),
        new.count() == mid.count(),
        new.levels@ == mid.levels@,
        0 <= t1 < mid.count(),
        0 <= i1 < 512,
        0 <= k,
        walk(mid, rt, page_at(vs, k)) == Some(t1),
        i1 == pt_index(page_at(vs, k), 12),
        forall|s: int, j: int|
            0 <= s < mid.count() && 0 <= j < 512 && (s != t1 || j != i1) ==> #[trigger] new.entry(s, j)
                == mid.entry(s, j),
    ensures
        entries_accounted(s0, new, rt, vs, k + 1),
{
    reveal(entries_accounted);
    assert forall|t: int, i: int|
        0 <= t < new.count() && 0 <= i < 512 && new.level(t) == 1 && entry_present(
            #[trigger] new.entry(t, i),
        ) implies accounted_at(s0, new, rt, vs, k + 1, t, i) by {
        lemma_write_entry(s0, mid, new, rt, vs, k, t1, i1, t, i);
    }
}

/// One entry after writing the entry of page `k`.
proof fn lemma_write_entry(
    s0: TableStore,
    mid: TableStore,
    new: TableStore,
    rt: int,
    vs: usize,
    k: int,
    t1: int,
    i1: int,
    t: int,
    i: int,
)
    requires
        mid.wf(),
        0 <= rt < mid.count(),
        mid.level(rt) == 4,
        extends(mid, new),
        new.count() == mid.count(),
        new.levels@ == mid.levels@,
        0 <= k,
        walk(mid, rt, page_at(vs, k)) == Some(t1),
        i1 == pt_index(page_at(vs, k), 12),
        0 <= t < new.count(),
        0 <= i < 512,
        (t != t1 || i != i1) ==> new.entry(t, i) == mid.entry(t, i),
        (t != t1 || i != i1) ==> mid.level(t) == 1 && entry_present(mid.entry(t, i)) ==> accounted_at(s0, mid, rt, vs, k, t, i),
        new.level(t) == 1,
        entry_present(new.entry(t, i)),
    ensures
        accounted_at(s0, new, rt, vs, k + 1, t, i),
{
    if t == t1 && i == i1 {
        lemma_extends_lookup(mid, new, rt, page_at(vs, k));
        assert(0 <= k < k + 1 && walk(new, rt, page_at(vs, k)) == Some(t) && pt_index(
            page_at(vs, k),
            12,
        ) == i);
    } else {
        assert(mid.level(t) == 1);
        if !(t < s0.count() && mid.entry(t, i) == s0.entry(t, i)) {
            let j = choose|j: int|
                0 <= j < k && walk(mid, rt, #[trigger] page_at(vs, j)) == Some(t) && pt_index(
                    page_at(vs, j),
                    12,
                ) == i;
            lemma_extends_lookup(mid, new, rt, page_at(vs, j));
            assert(0 <= j < k + 1 && walk(new, rt, page_at(vs, j)) == Some(t) && pt_index(
                page_at(vs, j),
                12,
            ) == i);
        } else {
            assert(new.entry(t, i) == s0.entry(t, i));
        }
    }
}

/// A last level entry of page `k` that is present when its turn comes held a mapping before,
/// or is the entry of an earlier page.
proof fn lemma_write_blocked(s0: TableStore, mid: TableStore, rt: int, vs: usize, k: int, t1: int)
    requires
        s0.wf(),
        mid.wf(),
        0 <= rt < s0.count(),
        s0.level(rt) == 4,
        extends(s0, mid),
        links_grow(s0, mid),
        entries_accounted(s0, mid, rt, vs, k),
        walk(mid, rt, page_at(vs, k)) == Some(t1),
        mid.level(t1) == 1,
        0 <= t1 < mid.count(),
        entry_present(mid.entry(t1, pt_index(page_at(vs, k), 12))),
    ensures
        lookup(s0, rt, page_at(vs, k)) is Some || shares_earlier(mid, rt, vs, k),
{
    let v = page_at(vs, k);
    let i1 = pt_index(v, 12);
    lemma_index_bound(v, 12);
    reveal(entries_accounted);
    if t1 < s0.count() && mid.entry(t1, i1) == s0.entry(t1, i1) {
        lemma_old_walk(s0, mid, rt, v);
    } else {
        let j = choose|j: int|
            0 <= j < k && walk(mid, rt, #[trigger] page_at(vs, j)) == Some(t1) && pt_index(
                page_at(vs, j),
                12,
            ) == i1;
        assert(same_slot(mid, rt, vs, j, k));
    }
}

impl PagingTableManager {
    /// Map the specified range of physical addresses to the specified virtual addresses as
    /// read/write, one page every 4096 bytes of `size`; fails at the first page that is
    /// already mapped
    pub fn map_addresses_read_write(
        &mut self,
        store: &mut TableStore,
        virtual_address: usize,
        physical_address: usize,
        size: usize,
    ) -> (r: Result<(), ()>)
        requires
            manager_ok(*old(self), *old(store)),
            range_fits(virtual_address, size),
            range_fits(physical_address, size),
            old(store).count() + 3 * page_count(size) + 3 < table_limit(),
        ensures
            *final(self) == *old(self),
            manager_ok(*final(self), *final(store)),
            extends(*old(store), *final(store)),
            final(store).count() <= old(store).count() + 3 * page_count(size) + 3,
            r is Ok ==> forall|k: int|
                0 <= k < page_count(size) ==> lookup(
                    *final(store),
                    root_of(old(self).cr3),
                    #[trigger] page_at(virtual_address, k),
                ) == Some(
                    mapped_to(page_at(physical_address, k), 3, page_at(virtual_address, k)),
                ),
            forall|k: int|
                0 <= k < page_count(size) && lookup(
                    *old(store),
                    root_of(old(self).cr3),
                    #[trigger] page_at(virtual_address, k),
                ) is Some ==> r is Err,
            r is Err ==> exists|k: int|
                {
                    &&& 0 <= k < page_count(size)
                    &&& (lookup(
                        *old(store),
                        root_of(old(self).cr3),
                        #[trigger] page_at(virtual_address, k),
                    ) is Some || shares_earlier(
                        *final(store),
                        root_of(old(self).cr3),
                        virtual_address,
                        k,
                    ))
                    &&& forall|j: int|
                        0 <= j < k ==> lookup(
                            *final(store),
                            root_of(old(self).cr3),
                            #[trigger] page_at(virtual_address, j),
                        ) == Some(
                            mapped_to(
                                page_at(physical_address, j),
                                3,
                                page_at(virtual_address, j),
                            ),
                        )
                    &&& entries_accounted(
                        *old(store),
                        *final(store),
                        root_of(old(self).cr3),
                        virtual_address,
                        k,
                    )
                },
            links_grow(*old(store), *final(store)),
            entries_accounted(
                *old(store),
                *final(store),
                root_of(old(self).cr3),
                virtual_address,
                page_count(size),
            ),
    {
        let n = pages_of(size);
        let root = self.cr3 / 4096 - 1;
        let ghost s0 = *store;
        let mut k: usize = 0;
        proof {
            lemma_accounted_start(s0, root as int, virtual_address);
        }
        while k < n
            invariant
                n == page_count(size),
                k <= n,
                s0 == *old(store),
                *self == *old(self),
                root == root_of(self.cr3),
                manager_ok(*self, s0),
                manager_ok(*self, *store),
                range_fits(virtual_address, size),
                range_fits(physical_address, size),
                extends(s0, *store),
                links_grow(s0, *store),
                entries_accounted(s0, *store, root as int, virtual_address, k as int),
                store.count() <= s0.count() + 3 * k,
                s0.count() + 3 * page_count(size) + 3 < table_limit(),
                forall|j: int|
                    0 <= j < k ==> lookup(*store, root as int, #[trigger] page_at(virtual_address, j))
                        == Some(
                        mapped_to(page_at(physical_address, j), 3, page_at(virtual_address, j)),
                    ),
                forall|j: int|
                    0 <= j < k ==> lookup(s0, root as int, #[trigger] page_at(virtual_address, j))
                        is None,
            decreases n - k,
        {
            let vaddr = virtual_address + k * 4096;
            let paddr = physical_address + k * 4096;
            let v = vaddr as u64;
            let ghost cur = *store;
            proof {
                lemma_extends_lookup(s0, cur, root as int, v);
            }
            let flags = PageTableEntryFlags::present_writable();
            assert(3u16 & 1 == 1) by {
            lemma_low_bits();
        }
            let t1 = store.walk_create(root, v, flags);
            let i1 = index_of(v, 12);
            proof {
                lemma_write_walked(s0, cur, *store, root as int, virtual_address, k as int);
                assert(page_at(virtual_address, k as int) == v);
            }
            if store.tables[t1].entries[i1] & 1 != 0 {
                proof {
                    lemma_write_blocked(s0, *store, root as int, virtual_address, k as int, t1 as int);
                    lemma_accounted_more(s0, *store, root as int, virtual_address, k as int, n as int);
                    assert forall|j: int| 0 <= j < k implies lookup(
                        *store,
                        root as int,
                        #[trigger] page_at(virtual_address, j),
                    ) == Some(
                        mapped_to(page_at(physical_address, j), 3, page_at(virtual_address, j)),
                    ) by {
                        lemma_extends_lookup(cur, *store, root as int, page_at(virtual_address, j));
                    }
                }
                return Err(());
            }
            proof {
                assert(lookup(s0, root as int, v) is None);
            }
            let ghost mid = *store;
            let pv: u64 = paddr as u64;
            assert((pv | 3u64) & 1 != 0) by {
                lemma_odd_entry(pv);
            }
            store.set_page_entry(t1, i1, paddr as u64 | flags.0 as u64);
            proof {
                assert(extends(mid, *store)) by {
                    assert forall|t: int, i: int|
                        0 <= t < mid.count() && 0 <= i < 512 && entry_present(
                            #[trigger] mid.entry(t, i),
                        ) implies store.entry(t, i) == mid.entry(t, i) by {
                        if t == t1 && i == i1 {
                            assert(!entry_present(mid.entry(t, i)));
                        }
                    }
                }
                assert forall|t: int, i: int|
                    0 <= t < s0.count() && 0 <= i < 512 && entry_present(#[trigger] s0.entry(t, i))
                        implies store.entry(t, i) == s0.entry(t, i) by {
                    assert(mid.entry(t, i) == s0.entry(t, i));
                }
                assert forall|t: int| 0 <= t < s0.count() implies #[trigger] store.level(t)
                    == s0.level(t) by {
                    assert(mid.level(t) == s0.level(t));
                }
                assert(walk(*store, root as int, v) == Some(t1 as int)) by {
                    lemma_extends_lookup(mid, *store, root as int, v);
                }
                lemma_write_links(s0, mid, *store, t1 as int, i1 as int);
                lemma_write_entered(
                    s0,
                    mid,
                    *store,
                    root as int,
                    virtual_address,
                    k as int,
                    t1 as int,
                    i1 as int,
                );
                assert(page_at(physical_address, k as int) == paddr as u64);
                assert forall|j: int| 0 <= j < k + 1 implies lookup(
                    *store,
                    root as int,
                    #[trigger] page_at(virtual_address, j),
                ) == Some(
                    mapped_to(page_at(physical_address, j), 3, page_at(virtual_address, j)),
                ) by {
                    if j < k {
                        lemma_extends_lookup(cur, mid, root as int, page_at(virtual_address, j));
                        lemma_extends_lookup(mid, *store, root as int, page_at(virtual_address, j));
                    }
                }
            }
            k = k + 1;
        }
        Ok(())
    }
}

/// Before any page of a range is mapped, every entry is as it was.
pub proof fn lemma_accounted_start(s0: TableStore, root: int, vs: usize)
    ensures
        entries_accounted(s0, s0, root, vs, 0),
{
    reveal(entries_accounted);
}

/// Entries accounted for by the first `k` pages are accounted for by the first `m`, for `m`
/// at least `k`.
pub proof fn lemma_accounted_more(s0: TableStore, s: TableStore, root: int, vs: usize, k: int, m: int)
    requires
        k <= m,
        entries_accounted(s0, s, root, vs, k),
    ensures
        entries_accounted(s0, s, root, vs, m),
{
    reveal(entries_accounted);
    assert forall|t: int, i: int|
        0 <= t < s.count() && 0 <= i < 512 && s.level(t) == 1 && entry_present(
            #[trigger] s.entry(t, i),
        ) implies accounted_at(s0, s, root, vs, m, t, i) by {
        if !(t < s0.count() && s.entry(t, i) == s0.entry(t, i)) {
            let j = choose|j: int|
                0 <= j < k && walk(s, root, #[trigger] page_at(vs, j)) == Some(t) && pt_index(
                    page_at(vs, j),
                    12,
                ) == i;
            assert(0 <= j < m && walk(s, root, page_at(vs, j)) == Some(t) && pt_index(
                page_at(vs, j),
                12,
            ) == i);
        }
    }
}

/// Mapping page `k` of a range on its own, after the pages before it, keeps the last level
/// entries accounted for by the pages of the range up to it.
pub proof fn lemma_accounted_step(
    s0: TableStore,
    cur: TableStore,
    new: TableStore,
    root: int,
    vs: usize,
    k: int,
    page: usize,
)
    requires
        cur.wf(),
        0 <= root < cur.count(),
        cur.level(root) == 4,
        0 <= k,
        page as u64 == page_at(vs, k),
        entries_accounted(s0, cur, root, vs, k),
        entries_accounted(cur, new, root, page, 1),
        extends(cur, new),
    ensures
        entries_accounted(s0, new, root, vs, k + 1),
{
    reveal(entries_accounted);
    assert(page_at(page, 0) == page_at(vs, k));
    assert forall|t: int, i: int|
        0 <= t < new.count() && 0 <= i < 512 && new.level(t) == 1 && entry_present(
            #[trigger] new.entry(t, i),
        ) implies accounted_at(s0, new, root, vs, k + 1, t, i) by {
        if t < cur.count() && new.entry(t, i) == cur.entry(t, i) {
            assert(cur.level(t) == 1);
            if !(t < s0.count() && cur.entry(t, i) == s0.entry(t, i)) {
                let j = choose|j: int|
                    0 <= j < k && walk(cur, root, #[trigger] page_at(vs, j)) == Some(t) && pt_index(
                        page_at(vs, j),
                        12,
                    ) == i;
                lemma_extends_lookup(cur, new, root, page_at(vs, j));
                assert(0 <= j < k + 1 && walk(new, root, page_at(vs, j)) == Some(t) && pt_index(
                    page_at(vs, j),
                    12,
                ) == i);
            }
        } else {
            let j = choose|j: int|
                0 <= j < 1 && walk(new, root, #[trigger] page_at(page, j)) == Some(t) && pt_index(
                    page_at(page, j),
                    12,
                ) == i;
            assert(j == 0);
            assert(0 <= k < k + 1 && walk(new, root, page_at(vs, k)) == Some(t) && pt_index(
                page_at(vs, k),
                12,
            ) == i);
        }
    }
}

/// A page of a range that is mapped before its turn comes was mapped from the start, or uses
/// the same last level entry as an earlier page of the range.
pub proof fn lemma_accounted_blocked(
    s0: TableStore,
    cur: TableStore,
    fin: TableStore,
    root: int,
    vs: usize,
    k: int,
)
    requires
        s0.wf(),
        cur.wf(),
        0 <= root < s0.count(),
        s0.level(root) == 4,
        extends(s0, cur),
        links_grow(s0, cur),
        entries_accounted(s0, cur, root, vs, k),
        lookup(cur, root, page_at(vs, k)) is Some,
        extends(cur, fin),
    ensures
        lookup(s0, root, page_at(vs, k)) is Some || shares_earlier(fin, root, vs, k),
{
    let v = page_at(vs, k);
    let i1 = pt_index(v, 12);
    lemma_index_bound(v, 12);
    lemma_walk_level(cur, root, v);
    let t1 = walk(cur, root, v)->0;
    assert(entry_present(cur.entry(t1, i1)));
    reveal(entries_accounted);
    assert(accounted_at(s0, cur, root, vs, k, t1, i1));
    if t1 < s0.count() && cur.entry(t1, i1) == s0.entry(t1, i1) {
        lemma_old_walk(s0, cur, root, v);
    } else {
        let j = choose|j: int|
            0 <= j < k && walk(cur, root, #[trigger] page_at(vs, j)) == Some(t1) && pt_index(
                page_at(vs, j),
                12,
            ) == i1;
        lemma_extends_lookup(cur, fin, root, page_at(vs, j));
        lemma_extends_lookup(cur, fin, root, v);
        assert(same_slot(fin, root, vs, j, k));
        assert(walk(fin, root, page_at(vs, j)) is Some);
    }
}

/// Once a page aligned range is mapped read/write to a page aligned physical range, as
/// `map_addresses_read_write` leaves it, the address `k` bytes into the virtual range looks up
/// to the address `k` bytes into the physical range.
pub proof fn lemma_mapped_range_offsets(
    s: TableStore,
    root: int,
    v: usize,
    p: usize,
    size: usize,
    k: int,
)
    requires
        v % 4096 == 0,
        p % 4096 == 0,
        0 <= k < size,
        v + size <= usize::MAX,
        p + size <= usize::MAX,
        forall|j: int|
            0 <= j < page_count(size) ==> lookup(s, root, #[trigger] page_at(v, j)) == Some(
                mapped_to(page_at(p, j), 3, page_at(v, j)),
            ),
    ensures
        lookup(s, root, (v + k) as u64) == Some((p + k) as u64),
{
    let j = k / 4096;
    let r = (k % 4096) as u64;
    assert(k == j * 4096 + r);
    assert(0 <= j < page_count(size));
    let va = page_at(v, j);
    let pa = page_at(p, j);
    let x = (v + k) as u64;
    assert(va == v + j * 4096);
    assert(pa == p + j * 4096);
    assert(x == va + r);
    assert(va % 4096 == 0);
    assert(pa % 4096 == 0);
    assert(va & 0xFFF == 0) by (bit_vector)
        requires
            va % 4096 == 0,
    ;
    assert(pa & 0xFFF == 0) by (bit_vector)
        requires
            pa % 4096 == 0,
    ;
    assert(((x >> 12u64) & 0x1FF) == ((va >> 12u64) & 0x1FF) && ((x >> 21u64) & 0x1FF) == ((va
        >> 21u64) & 0x1FF) && ((x >> 30u64) & 0x1FF) == ((va >> 30u64) & 0x1FF) && ((x >> 39u64)
        & 0x1FF) == ((va >> 39u64) & 0x1FF) && (x & 0xFFF) == r) by (bit_vector)
        requires
            x == va + r,
            r < 4096,
            va & 0xFFF == 0,
    ;
    assert(pt_index(x, 12) == pt_index(va, 12));
    assert(walk(s, root, x) == walk(s, root, va));
    let t1 = walk(s, root, va)->0;
    let e = s.entry(t1, pt_index(va, 12));
    let a = entry_address(e);
    assert(read_entry(e) == Some(a));
    assert(a | (va & 0xFFF) == mapped_to(pa, 3, va));
    assert(a == ((pa | 3u64) & !0xFFFu64) && (a | r) == pa + r) by (bit_vector)
        requires
            a | (va & 0xFFF) == ((pa | 3u64) & !0xFFFu64) | (va & 0xFFF),
            va & 0xFFF == 0,
            pa & 0xFFF == 0,
            r < 4096,
    ;
    assert(lookup(s, root, x) == Some(a | r));
}

/// Pages `j` and `k` of the range from `start` use the same last level entry.
pub open spec fn same_slot(s: TableStore, root: int, start: usize, j: int, k: int) -> bool {
    &&& walk(s, root, page_at(start, j)) == walk(s, root, page_at(start, k))
    &&& pt_index(page_at(start, j), 12) == pt_index(page_at(start, k), 12)
}

/// The first page of the range, from page `j` on, that uses the same last level entry as page
/// `k` (page `k` itself when none before it does).
pub open spec fn first_sharer(s: TableStore, root: int, start: usize, k: int, j: int) -> int
    decreases k - j,
{
    if j >= k {
        k
    } else if same_slot(s, root, start, j, k) {
        j
    } else {
        first_sharer(s, root, start, k, j + 1)
    }
}

/// The first sharer is the first page from `j` on that shares the entry.
pub proof fn lemma_first_sharer(s: TableStore, root: int, start: usize, k: int, j: int)
    requires
        j <= k,
    ensures
        j <= first_sharer(s, root, start, k, j) <= k,
        first_sharer(s, root, start, k, j) < k ==> same_slot(
            s,
            root,
            start,
            first_sharer(s, root, start, k, j),
            k,
        ),
        forall|i: int|
            j <= i < first_sharer(s, root, start, k, j) ==> !#[trigger] same_slot(
                s,
                root,
                start,
                i,
                k,
            ),
    decreases k - j,
{
    if j < k && !same_slot(s, root, start, j, k) {
        lemma_first_sharer(s, root, start, k, j + 1);
    }
}

/// The first sharer depends only on the walks of the pages up to the page.
pub proof fn lemma_first_sharer_stable(
    s1: TableStore,
    s2: TableStore,
    root: int,
    start: usize,
    k: int,
    j: int,
)
    requires
        forall|i: int| j <= i <= k ==> walk(s1, root, #[trigger] page_at(start, i)) == walk(
            s2,
            root,
            page_at(start, i),
        ),
    ensures
        first_sharer(s1, root, start, k, j) == first_sharer(s2, root, start, k, j),
    decreases k - j,
{
    if j < k {
        assert(walk(s1, root, page_at(start, j)) == walk(s2, root, page_at(start, j)));
        assert(walk(s1, root, page_at(start, k)) == walk(s2, root, page_at(start, k)));
        lemma_first_sharer_stable(s1, s2, root, start, k, j + 1);
    }
}

/// A walk that ends in a table of the old store went through tables and entries of the old
/// store.
pub proof fn lemma_old_walk(s0: TableStore, s: TableStore, root: int, v: u64)
    requires
        s0.wf(),
        s.wf(),
        extends(s0, s),
        links_grow(s0, s),
        0 <= root < s0.count(),
        s0.level(root) == 4,
        walk(s, root, v) matches Some(t1) && t1 < s0.count(),
    ensures
        walk(s0, root, v) == walk(s, root, v),
{
    lemma_index_bound(v, 39);
    lemma_index_bound(v, 30);
    lemma_index_bound(v, 21);
    let i4 = pt_index(v, 39);
    let i3 = pt_index(v, 30);
    let i2 = pt_index(v, 21);
    let t3 = s.next(root, i4)->0;
    let t2 = s.next(t3, i3)->0;
    let t1 = s.next(t2, i2)->0;
    assert(entry_present(s.entry(root, i4)));
    assert(s.level(t3) == 3);
    assert(entry_present(s.entry(t3, i3)));
    assert(s.level(t2) == 2);
    assert(entry_present(s.entry(t2, i2)));
    if t2 >= s0.count() {
        assert(t1 >= s0.count());
    }
    assert(t2 < s0.count());
    if !entry_present(s0.entry(t2, i2)) {
        assert(t1 >= s0.count());
    }
    assert(s.entry(t2, i2) == s0.entry(t2, i2));
    if t3 >= s0.count() {
        assert(t2 >= s0.count());
    }
    assert(t3 < s0.count());
    if !entry_present(s0.entry(t3, i3)) {
        assert(t2 >= s0.count());
    }
    assert(s.entry(t3, i3) == s0.entry(t3, i3));
    if !entry_present(s0.entry(root, i4)) {
        assert(t3 >= s0.count());
    }
    assert(s.entry(root, i4) == s0.entry(root, i4));
    assert(s0.next(root, i4) == Some(t3));
    assert(s0.next(t3, i3) == Some(t2));
    assert(s0.next(t2, i2) == Some(t1));
}

/// What a page of a range maps to after mapping the range read only from a store: its old
/// mapping if it had one, and otherwise the physical page of the first page of the range that
/// uses the same last level entry.
pub open spec fn read_only_result(
    s0: TableStore,
    s: TableStore,
    root: int,
    vstart: usize,
    pstart: usize,
    k: int,
) -> Option<u64> {
    if lookup(s0, root, page_at(vstart, k)) is Some {
        lookup(s0, root, page_at(vstart, k))
    } else {
        Some(
            mapped_to(
                page_at(pstart, first_sharer(s, root, vstart, k, 0)),
                1,
                page_at(vstart, k),
            ),
        )
    }
}

/// Every present entry of a last level table is as it was, or was written for an earlier page
/// of the range that had no mapping, and was the first to use that entry.
pub open spec fn read_only_entries(
    s0: TableStore,
    s: TableStore,
    root: int,
    vstart: usize,
    pstart: usize,
    k: int,
) -> bool {
    forall|t: int, i: int|
        0 <= t < s.count() && 0 <= i < 512 && s.level(t) == 1 && entry_present(
            #[trigger] s.entry(t, i),
        ) ==> (t < s0.count() && s.entry(t, i) == s0.entry(t, i)) || exists|j: int|
            0 <= j < k && walk(s, root, #[trigger] page_at(vstart, j)) == Some(t) && pt_index(
                page_at(vstart, j),
                12,
            ) == i && first_sharer(s, root, vstart, j, 0) == j && s.entry(t, i) == (page_at(
                pstart,
                j,
            ) | 1u64) && lookup(s0, root, page_at(vstart, j)) is None
}

/// What holds after mapping the first `k` pages of a range read only: the store grew, each of
/// those pages has its walk and its mapping, and the last level entries are accounted for.
pub open spec fn read_only_done(
    s0: TableStore,
    s: TableStore,
    rt: int,
    vs: usize,
    ps: usize,
    k: int,
) -> bool {
    &&& s.wf()
    &&& extends(s0, s)
    &&& links_grow(s0, s)
    &&& forall|j: int| 0 <= j < k ==> walk(s, rt, #[trigger] page_at(vs, j)) is Some
    &&& forall|j: int|
        0 <= j < k ==> lookup(s, rt, #[trigger] page_at(vs, j)) == read_only_result(
            s0,
            s,
            rt,
            vs,
            ps,
            j,
        )
    &&& read_only_entries(s0, s, rt, vs, ps, k)
}

proof fn lemma_read_only_walked(
    s0: TableStore,
    cur: TableStore,
    mid: TableStore,
    rt: int,
    vs: usize,
    ps: usize,
    k: int,
)
    requires
        s0.wf(),
        0 <= rt < s0.count(),
        s0.level(rt) == 4,
        0 <= k,
        read_only_done(s0, cur, rt, vs, ps, k),
        mid.wf(),
        extends(cur, mid),
        links_grow(cur, mid),
        forall|s: int, j: int|
            0 <= s < cur.count() && 0 <= j < 512 && cur.level(s) == 1 ==> #[trigger] mid.entry(s, j)
                == cur.entry(s, j),
        forall|s: int, j: int|
            cur.count() <= s < mid.count() && 0 <= j < 512 && mid.level(s) == 1
                ==> #[trigger] mid.entry(s, j) == 0,
    ensures
        read_only_done(s0, mid, rt, vs, ps, k),
{
    lemma_extends_trans(s0, cur, mid);
    lemma_links_grow_trans(s0, cur, mid);
    assert forall|j: int| 0 <= j < k implies walk(mid, rt, #[trigger] page_at(vs, j)) == walk(
        cur,
        rt,
        page_at(vs, j),
    ) by {
        lemma_extends_lookup(cur, mid, rt, page_at(vs, j));
    }
    assert forall|j: int| 0 <= j < k implies first_sharer(mid, rt, vs, j, 0) == first_sharer(
        cur,
        rt,
        vs,
        j,
        0,
    ) by {
        assert forall|i: int| 0 <= i <= j implies walk(cur, rt, #[trigger] page_at(vs, i)) == walk(
            mid,
            rt,
            page_at(vs, i),
        ) by {
            lemma_extends_lookup(cur, mid, rt, page_at(vs, i));
        }
        lemma_first_sharer_stable(cur, mid, rt, vs, j, 0);
    }
    assert forall|j: int| 0 <= j < k implies lookup(mid, rt, #[trigger] page_at(vs, j)) == lookup(
        cur,
        rt,
        page_at(vs, j),
    ) by {
        lemma_extends_lookup(cur, mid, rt, page_at(vs, j));
    }
    assert forall|t: int, i: int|
        0 <= t < mid.count() && 0 <= i < 512 && mid.level(t) == 1 && entry_present(
            #[trigger] mid.entry(t, i),
        ) implies (t < s0.count() && mid.entry(t, i) == s0.entry(t, i)) || exists|j: int|
        0 <= j < k && walk(mid, rt, #[trigger] page_at(vs, j)) == Some(t) && pt_index(
            page_at(vs, j),
            12,
        ) == i && first_sharer(mid, rt, vs, j, 0) == j && mid.entry(t, i) == (page_at(ps, j)
            | 1u64) && lookup(s0, rt, page_at(vs, j)) is None by {
        if t >= cur.count() {
            assert(mid.entry(t, i) == 0);
            assert(0u64 & 1 == 0) by {
            lemma_low_bits();
        }
        } else {
            assert(mid.entry(t, i) == cur.entry(t, i));
            assert(cur.level(t) == 1);
            if !(t < s0.count() && cur.entry(t, i) == s0.entry(t, i)) {
                let j = choose|j: int|
                    0 <= j < k && walk(cur, rt, #[trigger] page_at(vs, j)) == Some(t) && pt_index(
                        page_at(vs, j),
                        12,
                    ) == i && first_sharer(cur, rt, vs, j, 0) == j && cur.entry(t, i) == (page_at(
                        ps,
                        j,
                    ) | 1u64) && lookup(s0, rt, page_at(vs, j)) is None;
                assert(walk(mid, rt, page_at(vs, j)) == Some(t));
            }
        }
    }
}

proof fn lemma_read_only_written(
    s0: TableStore,
    mid: TableStore,
    new: TableStore,
    rt: int,
    vs: usize,
    ps: usize,
    k: int,
    t1: int,
    i1: int,
)
    requires
        s0.wf(),
        0 <= rt < s0.count(),
        s0.level(rt) == 4,
        0 <= k,
        read_only_done(s0, mid, rt, vs, ps, k),
        walk(mid, rt, page_at(vs, k)) == Some(t1),
        i1 == pt_index(page_at(vs, k), 12),
        !entry_present(mid.entry(t1, i1)),
        mid.level(t1) == 1,
        new.wf(),
        new.count() == mid.count(),
        new.levels@ == mid.levels@,
        new.entry(t1, i1) == page_at(ps, k) | 1u64,
        forall|s: int, j: int|
            0 <= s < mid.count() && 0 <= j < 512 && (s != t1 || j != i1) ==> #[trigger] new.entry(
                s,
                j,
            ) == mid.entry(s, j),
    ensures
        read_only_done(s0, new, rt, vs, ps, k + 1),
{
    let v = page_at(vs, k);
    let pv = page_at(ps, k);
    assert((pv | 1u64) & 1 != 0) by {
        lemma_odd_entry(pv);
    }
    lemma_index_bound(v, 12);
    assert forall|j: int| 0 <= j < k implies !#[trigger] same_slot(mid, rt, vs, j, k) by {
        if same_slot(mid, rt, vs, j, k) {
            assert(lookup(mid, rt, page_at(vs, j)) is Some);
        }
    }
    lemma_first_sharer(mid, rt, vs, k, 0);
    if lookup(s0, rt, v) is Some {
        lemma_extends_lookup(s0, mid, rt, v);
    }
    assert(extends(mid, new)) by {
        assert forall|t: int, i: int|
            0 <= t < mid.count() && 0 <= i < 512 && entry_present(#[trigger] mid.entry(t, i)) implies new.entry(
            t,
            i,
        ) == mid.entry(t, i) by {
            if t == t1 && i == i1 {
                assert(!entry_present(mid.entry(t, i)));
            }
        }
    }
    assert forall|j: int| 0 <= j <= k implies walk(new, rt, #[trigger] page_at(vs, j)) == walk(
        mid,
        rt,
        page_at(vs, j),
    ) by {
        lemma_index_bound(page_at(vs, j), 39);
        lemma_index_bound(page_at(vs, j), 30);
        lemma_index_bound(page_at(vs, j), 21);
        let u = page_at(vs, j);
        if let Some(a) = mid.next(rt, pt_index(u, 39)) {
            assert(entry_present(mid.entry(rt, pt_index(u, 39))));
            assert(mid.level(a) == 3);
            if let Some(b) = mid.next(a, pt_index(u, 30)) {
                assert(entry_present(mid.entry(a, pt_index(u, 30))));
                assert(mid.level(b) == 2);
            }
        }
    }
    lemma_extends_trans(s0, mid, new);
    assert(links_grow(s0, new)) by {
        assert forall|t: int, i: int|
            0 <= t < new.count() && 0 <= i < 512 && new.level(t) >= 2 && entry_present(
                #[trigger] new.entry(t, i),
            ) && (t >= s0.count() || !entry_present(s0.entry(t, i))) implies new.next(t, i)->0
            >= s0.count() by {
            assert(new.entry(t, i) == mid.entry(t, i));
        }
    }
    assert forall|j: int| 0 <= j <= k implies first_sharer(new, rt, vs, j, 0) == first_sharer(
        mid,
        rt,
        vs,
        j,
        0,
    ) by {
        assert forall|i: int| 0 <= i <= j implies walk(mid, rt, #[trigger] page_at(vs, i)) == walk(
            new,
            rt,
            page_at(vs, i),
        ) by {}
        lemma_first_sharer_stable(mid, new, rt, vs, j, 0);
    }
    assert forall|j: int| 0 <= j < k implies lookup(new, rt, #[trigger] page_at(vs, j)) == lookup(
        mid,
        rt,
        page_at(vs, j),
    ) by {
        assert(!same_slot(mid, rt, vs, j, k));
        lemma_index_bound(page_at(vs, j), 12);
    }
    assert(lookup(new, rt, v) == read_only_result(s0, new, rt, vs, ps, k));
    assert forall|j: int| 0 <= j < k + 1 implies lookup(new, rt, #[trigger] page_at(vs, j))
        == read_only_result(s0, new, rt, vs, ps, j) by {
        if j < k {
            assert(lookup(mid, rt, page_at(vs, j)) == read_only_result(s0, mid, rt, vs, ps, j));
        }
    }
    assert forall|t: int, i: int|
        0 <= t < new.count() && 0 <= i < 512 && new.level(t) == 1 && entry_present(
            #[trigger] new.entry(t, i),
        ) implies (t < s0.count() && new.entry(t, i) == s0.entry(t, i)) || exists|j: int|
        0 <= j < k + 1 && walk(new, rt, #[trigger] page_at(vs, j)) == Some(t) && pt_index(
            page_at(vs, j),
            12,
        ) == i && first_sharer(new, rt, vs, j, 0) == j && new.entry(t, i) == (page_at(ps, j)
            | 1u64) && lookup(s0, rt, page_at(vs, j)) is None by {
        if t == t1 && i == i1 {
            assert(walk(new, rt, page_at(vs, k)) == Some(t));
        } else {
            assert(new.entry(t, i) == mid.entry(t, i));
            if !(t < s0.count() && mid.entry(t, i) == s0.entry(t, i)) {
                let j = choose|j: int|
                    0 <= j < k && walk(mid, rt, #[trigger] page_at(vs, j)) == Some(t) && pt_index(
                        page_at(vs, j),
                        12,
                    ) == i && first_sharer(mid, rt, vs, j, 0) == j && mid.entry(t, i) == (page_at(
                        ps,
                        j,
                    ) | 1u64) && lookup(s0, rt, page_at(vs, j)) is None;
                assert(walk(new, rt, page_at(vs, j)) == Some(t));
            }
        }
    }
}

proof fn lemma_read_only_kept_old(
    s0: TableStore,
    mid: TableStore,
    rt: int,
    vs: usize,
    ps: usize,
    k: int,
    t1: int,
    i1: int,
)
    requires
        s0.wf(),
        mid.wf(),
        extends(s0, mid),
        links_grow(s0, mid),
        0 <= rt < s0.count(),
        s0.level(rt) == 4,
        walk(mid, rt, page_at(vs, k)) == Some(t1),
        i1 == pt_index(page_at(vs, k), 12),
        entry_present(mid.entry(t1, i1)),
        t1 < s0.count(),
        mid.entry(t1, i1) == s0.entry(t1, i1),
    ensures
        lookup(mid, rt, page_at(vs, k)) == read_only_result(s0, mid, rt, vs, ps, k),
{
    let v = page_at(vs, k);
    lemma_old_walk(s0, mid, rt, v);
    assert(lookup(s0, rt, v) == lookup(mid, rt, v));
}

proof fn lemma_read_only_kept_shared(
    s0: TableStore,
    mid: TableStore,
    rt: int,
    vs: usize,
    ps: usize,
    k: int,
    j: int,
    t1: int,
    i1: int,
)
    requires
        s0.wf(),
        extends(s0, mid),
        0 <= rt < s0.count(),
        s0.level(rt) == 4,
        0 <= j < k,
        walk(mid, rt, page_at(vs, k)) == Some(t1),
        i1 == pt_index(page_at(vs, k), 12),
        walk(mid, rt, page_at(vs, j)) == Some(t1),
        pt_index(page_at(vs, j), 12) == i1,
        first_sharer(mid, rt, vs, j, 0) == j,
        mid.entry(t1, i1) == (page_at(ps, j) | 1u64),
    ensures
        lookup(mid, rt, page_at(vs, k)) == read_only_result(s0, mid, rt, vs, ps, k),
{
    let v = page_at(vs, k);
    assert(same_slot(mid, rt, vs, j, k));
    lemma_first_sharer(mid, rt, vs, k, 0);
    lemma_first_sharer(mid, rt, vs, j, 0);
    let f = first_sharer(mid, rt, vs, k, 0);
    if f < j {
        assert(same_slot(mid, rt, vs, f, j));
    }
    assert(f == j);
    let pv = page_at(ps, j);
    assert((pv | 1u64) & 1 != 0) by {
        lemma_odd_entry(pv);
    }
    if lookup(s0, rt, v) is Some {
        lemma_extends_lookup(s0, mid, rt, v);
    }
}

proof fn lemma_read_only_kept_page(
    s0: TableStore,
    mid: TableStore,
    rt: int,
    vs: usize,
    ps: usize,
    k: int,
    t1: int,
    i1: int,
)
    requires
        s0.wf(),
        0 <= rt < s0.count(),
        s0.level(rt) == 4,
        0 <= k,
        read_only_done(s0, mid, rt, vs, ps, k),
        walk(mid, rt, page_at(vs, k)) == Some(t1),
        i1 == pt_index(page_at(vs, k), 12),
        entry_present(mid.entry(t1, i1)),
        mid.level(t1) == 1,
    ensures
        lookup(mid, rt, page_at(vs, k)) == read_only_result(s0, mid, rt, vs, ps, k),
{
    lemma_index_bound(page_at(vs, k), 12);
    if t1 < s0.count() && mid.entry(t1, i1) == s0.entry(t1, i1) {
        lemma_read_only_kept_old(s0, mid, rt, vs, ps, k, t1, i1);
    } else {
        assert(read_only_entries(s0, mid, rt, vs, ps, k));
        let j = choose|j: int|
            0 <= j < k && walk(mid, rt, #[trigger] page_at(vs, j)) == Some(t1) && pt_index(
                page_at(vs, j),
                12,
            ) == i1 && first_sharer(mid, rt, vs, j, 0) == j && mid.entry(t1, i1) == (page_at(
                ps,
                j,
            ) | 1u64) && lookup(s0, rt, page_at(vs, j)) is None;
        lemma_read_only_kept_shared(s0, mid, rt, vs, ps, k, j, t1, i1);
    }
}

proof fn lemma_read_only_entries_more(
    s0: TableStore,
    s: TableStore,
    rt: int,
    vs: usize,
    ps: usize,
    k: int,
)
    requires
        read_only_entries(s0, s, rt, vs, ps, k),
    ensures
        read_only_entries(s0, s, rt, vs, ps, k + 1),
{
    assert forall|t: int, i: int|
        0 <= t < s.count() && 0 <= i < 512 && s.level(t) == 1 && entry_present(
            #[trigger] s.entry(t, i),
        ) implies (t < s0.count() && s.entry(t, i) == s0.entry(t, i)) || exists|j: int|
        0 <= j < k + 1 && walk(s, rt, #[trigger] page_at(vs, j)) == Some(t) && pt_index(
            page_at(vs, j),
            12,
        ) == i && first_sharer(s, rt, vs, j, 0) == j && s.entry(t, i) == (page_at(ps, j) | 1u64)
            && lookup(s0, rt, page_at(vs, j)) is None by {
        if !(t < s0.count() && s.entry(t, i) == s0.entry(t, i)) {
            let j = choose|j: int|
                0 <= j < k && walk(s, rt, #[trigger] page_at(vs, j)) == Some(t) && pt_index(
                    page_at(vs, j),
                    12,
                ) == i && first_sharer(s, rt, vs, j, 0) == j && s.entry(t, i) == (page_at(ps, j)
                    | 1u64) && lookup(s0, rt, page_at(vs, j)) is None;
            assert(walk(s, rt, page_at(vs, j)) == Some(t));
        }
    }
}

proof fn lemma_read_only_kept(
    s0: TableStore,
    mid: TableStore,
    rt: int,
    vs: usize,
    ps: usize,
    k: int,
    t1: int,
    i1: int,
)
    requires
        s0.wf(),
        0 <= rt < s0.count(),
        s0.level(rt) == 4,
        0 <= k,
        read_only_done(s0, mid, rt, vs, ps, k),
        walk(mid, rt, page_at(vs, k)) == Some(t1),
        i1 == pt_index(page_at(vs, k), 12),
        entry_present(mid.entry(t1, i1)),
        mid.level(t1) == 1,
    ensures
        read_only_done(s0, mid, rt, vs, ps, k + 1),
{
    lemma_read_only_kept_page(s0, mid, rt, vs, ps, k, t1, i1);
    lemma_read_only_entries_more(s0, mid, rt, vs, ps, k);
    assert forall|j: int| 0 <= j < k + 1 implies walk(mid, rt, #[trigger] page_at(vs, j)) is Some by {}
    assert forall|j: int| 0 <= j < k + 1 implies lookup(mid, rt, #[trigger] page_at(vs, j))
        == read_only_result(s0, mid, rt, vs, ps, j) by {}
}

impl PagingTableManager {
    /// Map the specified range of physical addresses to the specified virtual addresses as
    /// read only, one page every 4096 bytes of `size`; a page that is already mapped keeps its
    /// mapping
    pub fn map_addresses_read_only(
        &mut self,
        store: &mut TableStore,
        virtual_address: usize,
        physical_address: usize,
        size: usize,
    ) -> (r: Result<(), ()>)
        requires
            manager_ok(*old(self), *old(store)),
            range_fits(virtual_address, size),
            range_fits(physical_address, size),
            old(store).count() + 3 * page_count(size) + 3 < table_limit(),
        ensures
            r is Ok,
            *final(self) == *old(self),
            manager_ok(*final(self), *final(store)),
            extends(*old(store), *final(store)),
            forall|k: int|
                0 <= k < page_count(size) ==> lookup(
                    *final(store),
                    root_of(old(self).cr3),
                    #[trigger] page_at(virtual_address, k),
                ) == read_only_result(
                    *old(store),
                    *final(store),
                    root_of(old(self).cr3),
                    virtual_address,
                    physical_address,
                    k,
                ),
    {
        let n = pages_of(size);
        let root = self.cr3 / 4096 - 1;
        let ghost s0 = *store;
        let ghost rt = root as int;
        let mut k: usize = 0;
        assert(read_only_entries(s0, s0, rt, virtual_address, physical_address, 0));
        while k < n
            invariant
                n == page_count(size),
                k <= n,
                s0 == *old(store),
                *self == *old(self),
                root == root_of(self.cr3),
                rt == root as int,
                manager_ok(*self, s0),
                manager_ok(*self, *store),
                range_fits(virtual_address, size),
                range_fits(physical_address, size),
                store.count() <= s0.count() + 3 * k,
                s0.count() + 3 * page_count(size) + 3 < table_limit(),
                read_only_done(s0, *store, rt, virtual_address, physical_address, k as int),
            decreases n - k,
        {
            let vaddr = virtual_address + k * 4096;
            let paddr = physical_address + k * 4096;
            let v = vaddr as u64;
            assert(v == page_at(virtual_address, k as int));
            assert(paddr as u64 == page_at(physical_address, k as int));
            let ghost cur = *store;
            let flags = PageTableEntryFlags::present_writable();
            assert(3u16 & 1 == 1) by {
            lemma_low_bits();
        }
            let t1 = store.walk_create(root, v, flags);
            let i1 = index_of(v, 12);
            let ghost mid = *store;
            proof {
                lemma_read_only_walked(s0, cur, mid, rt, virtual_address, physical_address, k as int);
            }
            if store.tables[t1].entries[i1] & 1 == 0 {
                let ro = PageTableEntryFlags::present_read_only();
                store.set_page_entry(t1, i1, paddr as u64 | ro.0 as u64);
                proof {
                    lemma_read_only_written(
                        s0,
                        mid,
                        *store,
                        rt,
                        virtual_address,
                        physical_address,
                        k as int,
                        t1 as int,
                        i1 as int,
                    );
                }
            } else {
                proof {
                    lemma_read_only_kept(
                        s0,
                        mid,
                        rt,
                        virtual_address,
                        physical_address,
                        k as int,
                        t1 as int,
                        i1 as int,
                    );
                }
            }
            k = k + 1;
        }
        Ok(())
    }
}

/// What holds after unmapping pages `k` to the end of a range: the store kept its tables and
/// links, each of those pages has its walk and no mapping, every level 1 entry that changed was
/// cleared and belongs to one of them, and the new level 1 tables are empty.
pub open spec fn unmap_done(s0: TableStore, s: TableStore, rt: int, vs: usize, k: int, n: int) -> bool {
    &&& s.wf()
    &&& clears_only(s0, s)
    &&& links_grow(s0, s)
    &&& forall|j: int| k <= j < n ==> walk(s, rt, #[trigger] page_at(vs, j)) is Some
    &&& forall|j: int| k <= j < n ==> lookup(s, rt, #[trigger] page_at(vs, j)) is None
    &&& forall|j: int|
        k <= j < n ==> s.entry(walk(s, rt, #[trigger] page_at(vs, j))->0, pt_index(page_at(vs, j), 12))
            == 0
    &&& forall|t: int, i: int|
        0 <= t < s0.count() && 0 <= i < 512 && s0.level(t) == 1 && #[trigger] s.entry(t, i)
            != s0.entry(t, i) ==> exists|j: int|
            k <= j < n && walk(s, rt, #[trigger] page_at(vs, j)) == Some(t) && pt_index(
                page_at(vs, j),
                12,
            ) == i
    &&& forall|t: int, i: int|
        s0.count() <= t < s.count() && 0 <= i < 512 && s.level(t) == 1 ==> #[trigger] s.entry(t, i)
            == 0
}

/// The facts about one step of unmapping: the store before the walk, after it, and after
/// clearing the entry of page `k - 1`.
pub open spec fn unmap_step(
    cur: TableStore,
    mid: TableStore,
    new: TableStore,
    rt: int,
    vs: usize,
    k: int,
    t1: int,
    i1: int,
) -> bool {
    &&& mid.wf()
    &&& extends(cur, mid)
    &&& links_grow(cur, mid)
    &&& forall|s: int, j: int|
        0 <= s < cur.count() && 0 <= j < 512 && cur.level(s) == 1 ==> #[trigger] mid.entry(s, j)
            == cur.entry(s, j)
    &&& forall|s: int, j: int|
        cur.count() <= s < mid.count() && 0 <= j < 512 && mid.level(s) == 1
            ==> #[trigger] mid.entry(s, j) == 0
    &&& walk(mid, rt, page_at(vs, k - 1)) == Some(t1)
    &&& i1 == pt_index(page_at(vs, k - 1), 12)
    &&& mid.level(t1) == 1
    &&& new.wf()
    &&& new.count() == mid.count()
    &&& new.levels@ == mid.levels@
    &&& new.entry(t1, i1) == 0
    &&& forall|s: int, j: int|
        0 <= s < mid.count() && 0 <= j < 512 && (s != t1 || j != i1) ==> #[trigger] new.entry(s, j)
            == mid.entry(s, j)
}

proof fn lemma_unmap_step_tables(
    s0: TableStore,
    cur: TableStore,
    mid: TableStore,
    new: TableStore,
    rt: int,
    vs: usize,
    k: int,
    t1: int,
    i1: int,
)
    requires
        s0.wf(),
        cur.wf(),
        clears_only(s0, cur),
        links_grow(s0, cur),
        forall|t: int, i: int|
            s0.count() <= t < cur.count() && 0 <= i < 512 && cur.level(t) == 1 ==> #[trigger] cur.entry(
                t,
                i,
            ) == 0,
        unmap_step(cur, mid, new, rt, vs, k, t1, i1),
    ensures
        clears_only(s0, new),
        links_grow(s0, new),
        forall|t: int, i: int|
            s0.count() <= t < new.count() && 0 <= i < 512 && new.level(t) == 1 ==> #[trigger] new.entry(
                t,
                i,
            ) == 0,
{
    assert(0u64 & 1 == 0) by {
            lemma_low_bits();
        }
    assert forall|t: int| 0 <= t < cur.count() implies #[trigger] mid.level(t) == cur.level(t) by {}
    lemma_links_grow_upper(s0, cur, mid);
    assert forall|t: int| 0 <= t < s0.count() implies #[trigger] new.level(t) == s0.level(t) by {
        assert(cur.level(t) == s0.level(t));
        assert(mid.level(t) == cur.level(t));
    }
    assert forall|t: int, i: int|
        0 <= t < s0.count() && 0 <= i < 512 && s0.level(t) >= 2 && entry_present(
            #[trigger] s0.entry(t, i),
        ) implies new.entry(t, i) == s0.entry(t, i) by {
        assert(cur.entry(t, i) == s0.entry(t, i));
        assert(mid.entry(t, i) == cur.entry(t, i));
        assert(mid.level(t) >= 2);
    }
    assert forall|t: int, i: int|
        0 <= t < s0.count() && 0 <= i < 512 && s0.level(t) == 1 implies #[trigger] new.entry(t, i)
        == s0.entry(t, i) || new.entry(t, i) == 0 by {
        assert(cur.level(t) == 1);
        assert(mid.entry(t, i) == cur.entry(t, i));
    }
    assert forall|t: int, i: int|
        s0.count() <= t < new.count() && 0 <= i < 512 && new.level(t) == 1 implies #[trigger] new.entry(
        t,
        i,
    ) == 0 by {
        if !(t == t1 && i == i1) {
            assert(new.entry(t, i) == mid.entry(t, i));
            if t < cur.count() {
                assert(mid.level(t) == cur.level(t));
                assert(cur.level(t) == 1);
            }
        }
    }
    assert forall|t: int, i: int|
        0 <= t < mid.count() && 0 <= i < 512 && mid.level(t) >= 2 && entry_present(
            #[trigger] mid.entry(t, i),
        ) implies new.entry(t, i) == mid.entry(t, i) by {}
    assert forall|t: int| 0 <= t < mid.count() implies #[trigger] new.level(t) == mid.level(t) by {}
    assert(links_grow(mid, new)) by {
        assert forall|t: int, i: int|
            0 <= t < new.count() && 0 <= i < 512 && new.level(t) >= 2 && entry_present(
                #[trigger] new.entry(t, i),
            ) && (t >= mid.count() || !entry_present(mid.entry(t, i))) implies new.next(t, i)->0
            >= mid.count() by {
            assert(new.entry(t, i) == mid.entry(t, i));
        }
    }
    lemma_links_grow_upper(s0, mid, new);
}

proof fn lemma_unmap_walks(
    cur: TableStore,
    mid: TableStore,
    new: TableStore,
    rt: int,
    vs: usize,
    k: int,
    n: int,
)
    requires
        cur.wf(),
        mid.wf(),
        extends(cur, mid),
        new.count() == mid.count(),
        new.levels@ == mid.levels@,
        forall|s: int, j: int|
            0 <= s < mid.count() && 0 <= j < 512 && mid.level(s) >= 2 ==> #[trigger] new.entry(s, j)
                == mid.entry(s, j),
        0 <= rt < cur.count(),
        cur.level(rt) == 4,
    ensures
        forall|j: int|
            k <= j < n && walk(cur, rt, #[trigger] page_at(vs, j)) is Some ==> walk(
                new,
                rt,
                page_at(vs, j),
            ) == walk(cur, rt, page_at(vs, j)),
        walk(mid, rt, page_at(vs, k - 1)) is Some ==> walk(new, rt, page_at(vs, k - 1)) == walk(
            mid,
            rt,
            page_at(vs, k - 1),
        ),
{
    assert forall|t: int| 0 <= t < mid.count() implies #[trigger] new.level(t) == mid.level(t) by {}
    assert forall|j: int|
        k <= j < n && walk(cur, rt, #[trigger] page_at(vs, j)) is Some implies walk(
            new,
            rt,
            page_at(vs, j),
        ) == walk(cur, rt, page_at(vs, j)) by {
        lemma_walk_kept(cur, mid, rt, page_at(vs, j));
        lemma_walk_kept(mid, new, rt, page_at(vs, j));
    }
    lemma_walk_kept(mid, new, rt, page_at(vs, k - 1));
}

proof fn lemma_unmap_zeros(
    cur: TableStore,
    mid: TableStore,
    new: TableStore,
    rt: int,
    vs: usize,
    k: int,
    n: int,
    t1: int,
    i1: int,
)
    requires
        cur.wf(),
        0 <= rt < cur.count(),
        cur.level(rt) == 4,
        forall|j: int| k <= j < n ==> walk(cur, rt, #[trigger] page_at(vs, j)) is Some,
        forall|j: int|
            k <= j < n ==> cur.entry(
                walk(cur, rt, #[trigger] page_at(vs, j))->0,
                pt_index(page_at(vs, j), 12),
            ) == 0,
        forall|j: int|
            k <= j < n ==> walk(new, rt, #[trigger] page_at(vs, j)) == walk(cur, rt, page_at(vs, j)),
        walk(new, rt, page_at(vs, k - 1)) == Some(t1),
        i1 == pt_index(page_at(vs, k - 1), 12),
        new.entry(t1, i1) == 0,
        forall|s: int, j: int|
            0 <= s < cur.count() && 0 <= j < 512 && cur.level(s) == 1 ==> #[trigger] mid.entry(s, j)
                == cur.entry(s, j),
        forall|s: int, j: int|
            0 <= s < mid.count() && 0 <= j < 512 && (s != t1 || j != i1) ==> #[trigger] new.entry(s, j)
                == mid.entry(s, j),
        mid.count() >= cur.count(),
    ensures
        forall|j: int| k - 1 <= j < n ==> walk(new, rt, #[trigger] page_at(vs, j)) is Some,
        forall|j: int|
            k - 1 <= j < n ==> new.entry(
                walk(new, rt, #[trigger] page_at(vs, j))->0,
                pt_index(page_at(vs, j), 12),
            ) == 0,
        forall|j: int| k - 1 <= j < n ==> lookup(new, rt, #[trigger] page_at(vs, j)) is None,
{
    assert(0u64 & 1 == 0) by {
            lemma_low_bits();
        }
    assert forall|j: int| k - 1 <= j < n implies new.entry(
        walk(new, rt, #[trigger] page_at(vs, j))->0,
        pt_index(page_at(vs, j), 12),
    ) == 0 by {
        if j >= k {
            let t = walk(cur, rt, page_at(vs, j))->0;
            let i = pt_index(page_at(vs, j), 12);
            lemma_index_bound(page_at(vs, j), 12);
            lemma_walk_level(cur, rt, page_at(vs, j));
            assert(mid.entry(t, i) == cur.entry(t, i));
        }
    }
    assert forall|j: int| k - 1 <= j < n implies lookup(new, rt, #[trigger] page_at(vs, j)) is None by {
        assert(new.entry(walk(new, rt, page_at(vs, j))->0, pt_index(page_at(vs, j), 12)) == 0);
    }
}

proof fn lemma_unmap_witness(
    s0: TableStore,
    cur: TableStore,
    mid: TableStore,
    new: TableStore,
    wc: spec_fn(int) -> Option<int>,
    wn: spec_fn(int) -> Option<int>,
    ix: spec_fn(int) -> int,
    k: int,
    n: int,
    t1: int,
    i1: int,
)
    requires
        1 <= k <= n,
        forall|t: int, i: int|
            0 <= t < s0.count() && 0 <= i < 512 && s0.level(t) == 1 && #[trigger] cur.entry(t, i)
                != s0.entry(t, i) ==> exists|j: int| k <= j < n && #[trigger] wc(j) == Some(t) && ix(j) == i,
        forall|t: int| 0 <= t < s0.count() ==> #[trigger] cur.level(t) == s0.level(t),
        s0.count() <= cur.count(),
        forall|j: int| k <= j < n && (#[trigger] wc(j)) is Some ==> wn(j) == wc(j),
        wn(k - 1) == Some(t1),
        i1 == ix(k - 1),
        forall|s: int, j: int|
            0 <= s < cur.count() && 0 <= j < 512 && cur.level(s) == 1 ==> #[trigger] mid.entry(s, j)
                == cur.entry(s, j),
        forall|s: int, j: int|
            0 <= s < mid.count() && 0 <= j < 512 && (s != t1 || j != i1) ==> #[trigger] new.entry(s, j)
                == mid.entry(s, j),
        mid.count() >= cur.count(),
    ensures
        forall|t: int, i: int|
            0 <= t < s0.count() && 0 <= i < 512 && s0.level(t) == 1 && #[trigger] new.entry(t, i)
                != s0.entry(t, i) ==> exists|j: int| k - 1 <= j < n && #[trigger] wn(j) == Some(t) && ix(j) == i,
{
    assert forall|t: int, i: int|
        0 <= t < s0.count() && 0 <= i < 512 && s0.level(t) == 1 && #[trigger] new.entry(t, i)
            != s0.entry(t, i) implies exists|j: int| k - 1 <= j < n && #[trigger] wn(j) == Some(t) && ix(j) == i by {
        if t == t1 && i == i1 {
            assert(wn(k - 1) == Some(t));
        } else {
            assert(new.entry(t, i) == mid.entry(t, i));
            assert(cur.level(t) == 1);
            assert(mid.entry(t, i) == cur.entry(t, i));
            let j = choose|j: int| k <= j < n && #[trigger] wc(j) == Some(t) && ix(j) == i;
            assert(wn(j) == Some(t));
        }
    }
}

/// The table a complete walk reaches is of level 1.
pub proof fn lemma_walk_level(s: TableStore, root: int, v: u64)
    requires
        s.wf(),
        0 <= root < s.count(),
        s.level(root) == 4,
        walk(s, root, v) is Some,
    ensures
        s.level(walk(s, root, v)->0) == 1,
        0 <= walk(s, root, v)->0 < s.count(),
{
    lemma_index_bound(v, 39);
    lemma_index_bound(v, 30);
    lemma_index_bound(v, 21);
    let t3 = s.next(root, pt_index(v, 39))->0;
    assert(entry_present(s.entry(root, pt_index(v, 39))));
    let t2 = s.next(t3, pt_index(v, 30))->0;
    assert(entry_present(s.entry(t3, pt_index(v, 30))));
    assert(entry_present(s.entry(t2, pt_index(v, 21))));
}

impl PagingTableManager {
    /// Unmaps some pages that were previously mapped, size is in bytes; the pages are
    /// unmapped from the last one to the first, making the tables on the way where they are
    /// missing
    pub fn unmap_mapped_pages(&mut self, store: &mut TableStore, virtual_address: usize, size: usize)
        requires
            manager_ok(*old(self), *old(store)),
            range_fits(virtual_address, size),
            old(store).count() + 3 * page_count(size) + 3 < table_limit(),
        ensures
            *final(self) == *old(self),
            manager_ok(*final(self), *final(store)),
            unmap_done(
                *old(store),
                *final(store),
                root_of(old(self).cr3),
                virtual_address,
                0,
                page_count(size),
            ),
    {
        let n = pages_of(size);
        let root = self.cr3 / 4096 - 1;
        let ghost s0 = *store;
        let ghost rt = root as int;
        let mut k: usize = n;
        assert(unmap_done(s0, s0, rt, virtual_address, n as int, n as int));
        while k > 0
            invariant
                n == page_count(size),
                k <= n,
                s0 == *old(store),
                *self == *old(self),
                root == root_of(self.cr3),
                rt == root as int,
                manager_ok(*self, s0),
                manager_ok(*self, *store),
                range_fits(virtual_address, size),
                store.count() <= s0.count() + 3 * (n - k),
                s0.count() + 3 * page_count(size) + 3 < table_limit(),
                unmap_done(s0, *store, rt, virtual_address, k as int, n as int),
            decreases k,
        {
            let vaddr = virtual_address + (k - 1) * 4096;
            let v = vaddr as u64;
            assert(v == page_at(virtual_address, k - 1));
            let ghost cur = *store;
            let flags = PageTableEntryFlags::present_writable();
            assert(3u16 & 1 == 1) by {
            lemma_low_bits();
        }
            let t1 = store.walk_create(root, v, flags);
            let i1 = index_of(v, 12);
            let ghost mid = *store;
            store.set_page_entry(t1, i1, 0);
            proof {
                assert(unmap_step(cur, mid, *store, rt, virtual_address, k as int, t1 as int, i1 as int));
                lemma_unmap_step_tables(
                    s0,
                    cur,
                    mid,
                    *store,
                    rt,
                    virtual_address,
                    k as int,
                    t1 as int,
                    i1 as int,
                );
                let new = *store;
                assert forall|s: int, j: int|
                    0 <= s < mid.count() && 0 <= j < 512 && mid.level(s) >= 2 implies #[trigger] new.entry(
                    s,
                    j,
                ) == mid.entry(s, j) by {}
                lemma_unmap_walks(cur, mid, new, rt, virtual_address, k as int, n as int);
                lemma_unmap_zeros(
                    cur,
                    mid,
                    new,
                    rt,
                    virtual_address,
                    k as int,
                    n as int,
                    t1 as int,
                    i1 as int,
                );
                let wc = |j: int| walk(cur, rt, page_at(virtual_address, j));
                let wn = |j: int| walk(new, rt, page_at(virtual_address, j));
                let ix = |j: int| pt_index(page_at(virtual_address, j), 12);
                assert forall|t: int, i: int|
                    0 <= t < s0.count() && 0 <= i < 512 && s0.level(t) == 1 && #[trigger] cur.entry(t, i)
                        != s0.entry(t, i) implies exists|j: int| k <= j < n && #[trigger] wc(j) == Some(t) && ix(j) == i by {
                    let j = choose|j: int|
                        k <= j < n && walk(cur, rt, #[trigger] page_at(virtual_address, j)) == Some(t)
                            && pt_index(page_at(virtual_address, j), 12) == i;
                    assert(wc(j) == Some(t));
                }
                lemma_unmap_witness(s0, cur, mid, new, wc, wn, ix, k as int, n as int, t1 as int, i1 as int);
                assert forall|t: int, i: int|
                    0 <= t < s0.count() && 0 <= i < 512 && s0.level(t) == 1 && #[trigger] new.entry(t, i)
                        != s0.entry(t, i) implies exists|j: int|
                    k - 1 <= j < n && walk(new, rt, #[trigger] page_at(virtual_address, j)) == Some(t)
                        && pt_index(page_at(virtual_address, j), 12) == i by {
                    let j = choose|j: int| k - 1 <= j < n && #[trigger] wn(j) == Some(t) && ix(j) == i;
                    assert(walk(new, rt, page_at(virtual_address, j)) == Some(t));
                }
            }
            k = k - 1;
        }
    }
}

/// An entry's address with the present and writable flags points where the entry does.
proof fn lemma_relink(e: u64)
    ensures
        ((e & !0xFFFu64) | 3u64) & 1 == 1,
        ((e & !0xFFFu64) | 3u64) >> 12u64 == e >> 12u64,
{
    assert(((e & !0xFFFu64) | 3u64) & 1 == 1) by (bit_vector);
    assert(((e & !0xFFFu64) | 3u64) >> 12u64 == e >> 12u64) by (bit_vector);
}

impl PagingTableManager {
    /// Copy the kernel map from another paging table into this one: the first entry of the
    /// other top table, which covers the kernel, is put in this top table with the present and
    /// writable flags
    pub fn copy_kernel_map(&mut self, other: &mut Self, store: &mut TableStore)
        requires
            manager_ok(*old(self), *old(store)),
            manager_ok(*old(other), *old(store)),
            entry_present(old(store).entry(root_of(old(other).cr3), 0)),
        ensures
            *final(self) == *old(self),
            *final(other) == *old(other),
            manager_ok(*final(self), *final(store)),
            final(store).count() == old(store).count(),
            final(store).levels@ == old(store).levels@,
            final(store).entry(root_of(old(self).cr3), 0) == (old(store).entry(
                root_of(old(other).cr3),
                0,
            ) & !0xFFFu64) | 3u64,
            final(store).next(root_of(old(self).cr3), 0) == old(store).next(root_of(old(other).cr3), 0),
            forall|t: int, i: int|
                0 <= t < old(store).count() && 0 <= i < 512 && (t != root_of(old(self).cr3) || i
                    != 0) ==> #[trigger] final(store).entry(t, i) == old(store).entry(t, i),
    {
        let other_root = other.cr3 / 4096 - 1;
        let root = self.cr3 / 4096 - 1;
        let tentry = match store.tables[other_root].get_entry(0) {
            Some(e) => e,
            None => {
                return;
            },
        };
        let ghost e = store.entry(other_root as int, 0);
        proof {
            lemma_relink(e);
            assert((e & !0xFFFu64) & 0xFFFu64 == 0) by (bit_vector);
        }
        let u = match table_index(store, tentry | 3) {
            Some(u) => u,
            None => {
                assert(false);
                return;
            },
        };
        let flags = PageTableEntryFlags::present_writable();
        assert(3u16 & 1 == 1) by {
            lemma_low_bits();
        }
        assert(store.level(u as int) == 3);
        proof {
            lemma_table_entry(u as u64, 3);
        }
        store.link(root, 0, u, flags);
        assert(((u + 1) as u64) << 12u64 == tentry) by (bit_vector)
            requires
                ((tentry | 3u64) >> 12u64) == u + 1,
                tentry & 0xFFFu64 == 0,
                u + 1 < 0x10_0000_0000_0000,
        ;
    }

    /// Build a new set of page tables, keeping the existing kernel mappings: a new empty top
    /// table with the kernel map of this one
    pub fn new_table(&mut self, store: &mut TableStore) -> (r: Self)
        requires
            manager_ok(*old(self), *old(store)),
            old(store).count() + 2 < table_limit(),
            (old(store).count() + 1) * 4096 <= usize::MAX,
            entry_present(old(store).entry(root_of(old(self).cr3), 0)),
        ensures
            *final(self) == *old(self),
            manager_ok(r, *final(store)),
            manager_ok(*final(self), *final(store)),
            r.physical_mask == usize::MAX,
            root_of(r.cr3) == old(store).count(),
            final(store).count() == old(store).count() + 1,
            final(store).next(root_of(r.cr3), 0) == old(store).next(root_of(old(self).cr3), 0),
            forall|i: int| 1 <= i < 512 ==> final(store).entry(root_of(r.cr3), i) == 0,
            forall|t: int, i: int|
                0 <= t < old(store).count() && 0 <= i < 512 ==> #[trigger] final(store).entry(t, i)
                    == old(store).entry(t, i),
    {
        let n = store.tables.len();
        let idx = store.new_table(Ghost(4));
        let mut np = Self::new();
        np.cr3 = (idx + 1) * 4096;
        assert(root_of(np.cr3) == idx);
        copy_kernel_map_into(&mut np, self, store);
        np
    }
}

/// Copy the kernel map of `other` into `np`, the manager of a new top table.
fn copy_kernel_map_into(np: &mut PagingTableManager, other: &mut PagingTableManager, store: &mut TableStore)
    requires
        manager_ok(*old(np), *old(store)),
        manager_ok(*old(other), *old(store)),
        root_of(old(np).cr3) != root_of(old(other).cr3),
        entry_present(old(store).entry(root_of(old(other).cr3), 0)),
    ensures
        *final(np) == *old(np),
        *final(other) == *old(other),
        manager_ok(*final(np), *final(store)),
        manager_ok(*final(other), *final(store)),
        final(store).count() == old(store).count(),
        final(store).levels@ == old(store).levels@,
        final(store).next(root_of(old(np).cr3), 0) == old(store).next(root_of(old(other).cr3), 0),
        forall|t: int, i: int|
            0 <= t < old(store).count() && 0 <= i < 512 && (t != root_of(old(np).cr3) || i != 0)
                ==> #[trigger] final(store).entry(t, i) == old(store).entry(t, i),
{
    np.copy_kernel_map(other, store);
}

impl PagingTableManager {
    /// Map the virtual address as a window to the given physical address: the top two levels
    /// must be present, a missing last level table is made with only the present flag, and
    /// the page entry is set present; returns the table and the index of the page entry
    pub fn map_window(&mut self, store: &mut TableStore, vaddr: usize, phys: u64) -> (r: (usize, usize))
        requires
            manager_ok(*old(self), *old(store)),
            old(store).count() + 2 < table_limit(),
            old(store).next(root_of(old(self).cr3), pt_index(vaddr as u64, 39)) matches Some(t3)
                && old(store).next(t3, pt_index(vaddr as u64, 30)) is Some,
        ensures
            *final(self) == *old(self),
            manager_ok(*final(self), *final(store)),
            walk(*final(store), root_of(old(self).cr3), vaddr as u64) == Some(r.0 as int),
            r.1 == pt_index(vaddr as u64, 12),
            final(store).entry(r.0 as int, r.1 as int) == (phys & !0xFFFu64) | 1u64,
            lookup(*final(store), root_of(old(self).cr3), vaddr as u64) == Some(
                (phys & !0xFFFu64) | ((vaddr as u64) & 0xFFF),
            ),
            final(store).count() <= old(store).count() + 1,
            forall|t: int| 0 <= t < old(store).count() ==> #[trigger] final(store).level(t) == old(store).level(t),
            forall|t: int, i: int|
                0 <= t < old(store).count() && 0 <= i < 512 && old(store).level(t) >= 2 && entry_present(
                    #[trigger] old(store).entry(t, i),
                ) ==> final(store).entry(t, i) == old(store).entry(t, i),
            forall|t: int, i: int|
                0 <= t < old(store).count() && 0 <= i < 512 && old(store).level(t) == 1 && (t != r.0
                    || i != r.1) ==> #[trigger] final(store).entry(t, i) == old(store).entry(t, i),
    {
        let root = self.cr3 / 4096 - 1;
        let v = vaddr as u64;
        let i4 = index_of(v, 39);
        let i3 = index_of(v, 30);
        let i2 = index_of(v, 21);
        let i1 = index_of(v, 12);
        let t3 = match table_index(store, store.tables[root].entries[i4]) {
            Some(t) => t,
            None => {
                assert(false);
                return (0, 0);
            },
        };
        let t2 = match table_index(store, store.tables[t3].entries[i3]) {
            Some(t) => t,
            None => {
                assert(false);
                return (0, 0);
            },
        };
        assert(entry_present(store.entry(root as int, i4 as int)));
        assert(entry_present(store.entry(t3 as int, i3 as int)));
        assert(store.level(t2 as int) == 2);
        let flags = PageTableEntryFlags::present_read_only();
        assert(1u16 & 1 == 1) by {
            lemma_low_bits();
        }
        let ghost s0 = *store;
        let t1 = store.ensure_table(t2, i2, flags);
        let ghost s1 = *store;
        let value = (phys & !0xFFF) | 1;
        store.set_page_entry(t1, i1, value);
        proof {
            assert(((phys & !0xFFFu64) | 1u64) & 1 != 0) by (bit_vector);
            assert((((phys & !0xFFFu64) | 1u64) & !0xFFFu64) == phys & !0xFFFu64) by (bit_vector);
            assert(s1.entry(root as int, i4 as int) == s0.entry(root as int, i4 as int));
            assert(s1.entry(t3 as int, i3 as int) == s0.entry(t3 as int, i3 as int));
            assert(s1.level(t3 as int) == 3);
            assert(s1.level(root as int) == 4);
            assert(store.entry(root as int, i4 as int) == s1.entry(root as int, i4 as int));
            assert(store.entry(t3 as int, i3 as int) == s1.entry(t3 as int, i3 as int));
            assert(store.entry(t2 as int, i2 as int) == s1.entry(t2 as int, i2 as int));
            assert(entry_present(s1.entry(t2 as int, i2 as int)));
            assert forall|t: int| 0 <= t < s0.count() implies #[trigger] store.level(t) == s0.level(t) by {
                assert(s1.level(t) == s0.level(t));
            }
            assert forall|t: int, i: int|
                0 <= t < s0.count() && 0 <= i < 512 && s0.level(t) >= 2 && entry_present(
                    #[trigger] s0.entry(t, i),
                ) implies store.entry(t, i) == s0.entry(t, i) by {
                assert(s1.entry(t, i) == s0.entry(t, i));
                assert(s1.level(t) >= 2);
            }
            assert forall|t: int, i: int|
                0 <= t < s0.count() && 0 <= i < 512 && s0.level(t) == 1 && (t != t1 || i != i1) implies #[trigger] store.entry(
                t,
                i,
            ) == s0.entry(t, i) by {
                assert(s1.entry(t, i) == s0.entry(t, i));
            }
        }
        (t1, i1)
    }

    /// Map a virtual memory address to a page taken from the physical memory manager; fails,
    /// with the page taken, when the address is already mapped
    pub fn map_new_page(
        &mut self,
        store: &mut TableStore,
        mm: &mut SimpleMemoryManager,
        address: usize,
    ) -> (r: Result<(), ()>)
        requires
            manager_ok(*old(self), *old(store)),
            old(store).count() + 6 < table_limit(),
            old(mm).wf(),
            old(mm).has_free_page(),
        ensures
            *final(self) == *old(self),
            manager_ok(*final(self), *final(store)),
            extends(*old(store), *final(store)),
            final(store).count() <= old(store).count() + 6,
            final(mm).wf(),
            final(mm).extra_mem == old(mm).extra_mem,
            exists|k: int, i: int|
                #[trigger] serves(old(mm).bms(), k, i) && free_maps(final(mm).bms()) == free_maps(
                    old(mm).bms(),
                ).update(k, old(mm).bms()[k]@.update(i, false)) && (r is Ok ==> lookup(
                    *final(store),
                    root_of(old(self).cr3),
                    address as u64,
                ) == Some(
                    mapped_to((old(mm).bms()[k].block_addr(i) as usize) as u64, 3, address as u64),
                )),
            lookup(*old(store), root_of(old(self).cr3), address as u64) is Some ==> r is Err,
            r is Err ==> lookup(*old(store), root_of(old(self).cr3), address as u64) is Some,
            crate::memory_manager::same_geometry(final(mm).bms(), old(mm).bms()),
            links_grow(*old(store), *final(store)),
            entries_accounted(*old(store), *final(store), root_of(old(self).cr3), address, 1),
    {
        let page = mm.allocate(4096);
        let block = match page {
            Ok(b) => b,
            Err(_) => {
                assert(false);
                return Err(());
            },
        };
        let ghost s0 = *store;
        let ghost mm0 = *old(mm);
        let ghost (kk, ii) = choose|k: int, i: int|
            #[trigger] serves(mm0.bms(), k, i) && block == (crate::MemoryBlock {
                addr: mm0.bms()[k].block_addr(i) as usize,
                len: crate::bitmap::PAGE_SIZE,
            }) && free_maps(mm.bms()) == free_maps(mm0.bms()).update(k, mm0.bms()[k]@.update(i, false));
        let r = self.map_addresses_read_write(store, address, block.addr, 4096);
        proof {
            assert(page_count(4096) == 1);
            assert(page_at(address, 0) == address as u64);
            assert(page_at(block.addr, 0) == block.addr as u64);
            if r is Ok {
                assert(lookup(*store, root_of(self.cr3), page_at(address, 0)) == Some(
                    mapped_to(page_at(block.addr, 0), 3, page_at(address, 0)),
                ));
            }
            if lookup(s0, root_of(self.cr3), address as u64) is Some {
                assert(lookup(s0, root_of(self.cr3), page_at(address, 0)) is Some);
            }
            assert(serves(mm0.bms(), kk, ii));
            if r is Err {
                let k = choose|k: int|
                    0 <= k < page_count(4096) && (lookup(
                        s0,
                        root_of(self.cr3),
                        #[trigger] page_at(address, k),
                    ) is Some || shares_earlier(*store, root_of(self.cr3), address, k));
                assert(k == 0);
                assert(!shares_earlier(*store, root_of(self.cr3), address, 0));
            }
        }
        r
    }
}

} // verus!
