//! Loading a user program: the decisions the kernel takes on the text section of the program,
//! and the page tables it builds for it.

use vstd::prelude::*;
use crate::mapper::{frame_addr, fresh_frames, take_frames, VirtualMemoryMapper};
use crate::memory_manager::{free_maps, total_free, SimpleMemoryManager};
use crate::paging64::entry_present;
use crate::paging_manager::{
    lemma_index_bound, lookup, manager_ok, mapped_to, page_at, page_count, pt_index, range_fits,
    root_of,
    shares_earlier, table_limit, walk, PagingTableManager, TableStore,
};

verus! {

/// Where user programs are placed in virtual memory.
pub const USER_SPACE_START: usize = 0x4000_0000;

/// What loading a user program comes to.
pub enum ProcessLoad {
    /// The program has no text section: the kernel reports it and goes on
    NoText,
    /// The text section is elsewhere than the start of user space, at this address: the kernel
    /// reports it and goes on
    TextElsewhere(u64),
    /// The bytes of the text section cannot be read: the kernel goes on
    TextUnreadable,
    /// A page of the program could not be mapped: the kernel stops
    MapFailed,
    /// The pages of the program are mapped in new page tables; the kernel copies the text and
    /// runs it when its entry point lies in the text, and reports it otherwise
    Loaded {
        /// The mapper of the program's page tables
        mapper: VirtualMemoryMapper,
        /// The entry point lies in the text
        entry_in_range: bool,
    },
}

/// The text section of a program: its address, and the length of its bytes where they can be
/// read.
pub struct TextSection {
    pub address: u64,
    pub data_len: Option<usize>,
}

/// A walk from a new top table that shares entry zero of the kernel's top table reaches, for
/// an address under that entry, what the walk from the kernel's top table reached before.
proof fn lemma_shared_walk(s: TableStore, s1: TableStore, kroot: int, nroot: int, v: u64)
    requires
        s.wf(),
        0 <= kroot < s.count(),
        s.level(kroot) == 4,
        s1.count() >= s.count(),
        forall|t: int, i: int| 0 <= t < s.count() && 0 <= i < 512 ==> #[trigger] s1.entry(t, i) == s.entry(t, i),
        s1.next(nroot, 0) == s.next(kroot, 0),
        pt_index(v, 39) == 0,
    ensures
        lookup(s1, nroot, v) == lookup(s, kroot, v),
{
    lemma_index_bound(v, 30);
    lemma_index_bound(v, 21);
    lemma_index_bound(v, 12);
    let i3 = pt_index(v, 30);
    let i2 = pt_index(v, 21);
    let i1 = pt_index(v, 12);
    if let Some(t3) = s.next(kroot, 0) {
        assert(entry_present(s.entry(kroot, 0)));
        assert(s.level(t3) == 3 && t3 < s.count());
        assert(s1.entry(t3, i3) == s.entry(t3, i3));
        if entry_present(s.entry(t3, i3)) {
            let t2 = s.next(t3, i3)->0;
            assert(s.level(t2) == 2 && t2 < s.count());
            assert(s1.next(t3, i3) == s.next(t3, i3));
            assert(s1.entry(t2, i2) == s.entry(t2, i2));
            if entry_present(s.entry(t2, i2)) {
                let t1 = s.next(t2, i2)->0;
                assert(s.level(t1) == 1 && t1 < s.count());
                assert(s1.next(t2, i2) == s.next(t2, i2));
                assert(s1.entry(t1, i1) == s.entry(t1, i1));
            } else {
                assert(s1.next(t2, i2) is None);
            }
        } else {
            assert(s1.next(t3, i3) is None);
        }
    }
}

/// What the kernel needs to load a program whose text is at the start of user space: free
/// pages for it, room for its tables, and its range within the address space.
pub open spec fn load_supported(
    kernel: PagingTableManager,
    store: TableStore,
    mm: SimpleMemoryManager,
    len: usize,
) -> bool {
    &&& mm.wf()
    &&& mm.bitmaps is Some
    &&& total_free(mm.bms()) >= page_count(len)
    &&& USER_SPACE_START + len <= usize::MAX
    &&& range_fits(USER_SPACE_START, len)
    &&& store.count() + 1 + 6 * page_count(len) + 6 < table_limit()
}

/// What loading a program of `len` bytes of text comes to: every page is mapped to a
/// physical page of its own, free before and taken now, or a page could not be mapped. The
/// latter comes exactly when a page of the text is already mapped in the kernel's map that the
/// new tables share, or uses the same last level entry of the new tables as an earlier page of
/// the text.
pub open spec fn load_outcome(
    r: ProcessLoad,
    len: usize,
    entry: u64,
    s0: TableStore,
    kroot: int,
    mm0: SimpleMemoryManager,
    s: TableStore,
    mm: SimpleMemoryManager,
) -> bool {
    &&& r is MapFailed || r is Loaded
    &&& (exists|k: int|
        0 <= k < page_count(len) && pt_index(#[trigger] page_at(USER_SPACE_START, k), 39) == 0
            && lookup(s0, kroot, page_at(USER_SPACE_START, k)) is Some) ==> r is MapFailed
    &&& r is MapFailed ==> exists|k: int|
        0 <= k < page_count(len) && ((pt_index(#[trigger] page_at(USER_SPACE_START, k), 39) == 0
            && lookup(s0, kroot, page_at(USER_SPACE_START, k)) is Some) || shares_earlier(
            s,
            s0.count(),
            USER_SPACE_START,
            k,
        ))
    &&& match r {
        ProcessLoad::Loaded { mapper, entry_in_range } => {
            &&& entry_in_range == (USER_SPACE_START <= entry < USER_SPACE_START + len)
            &&& manager_ok(mapper.ptm, s)
            &&& root_of(mapper.ptm.cr3) == s0.count()
            &&& total_free(mm.bms()) + page_count(len) == total_free(mm0.bms())
            &&& forall|k: int|
                0 <= k < page_count(len) ==> lookup(
                    s,
                    root_of(mapper.ptm.cr3),
                    #[trigger] page_at(USER_SPACE_START, k),
                ) is Some
            &&& exists|fs: Seq<(int, int)>|
                {
                    &&& fs.len() == page_count(len)
                    &&& fresh_frames(free_maps(mm0.bms()), fs)
                    &&& free_maps(mm.bms()) == take_frames(free_maps(mm0.bms()), fs)
                    &&& forall|k: int|
                        0 <= k < page_count(len) ==> lookup(
                            s,
                            root_of(mapper.ptm.cr3),
                            #[trigger] page_at(USER_SPACE_START, k),
                        ) == Some(
                            mapped_to(frame_addr(mm0.bms(), fs[k]), 3, page_at(USER_SPACE_START, k)),
                        )
                }
        },
        _ => true,
    }
}

/// Load a user program from its text section and entry point: with text at the start of user
/// space whose bytes can be read, build new page tables that share the kernel's map, and give
/// every page of the text a physical page of its own.
pub fn create_process(
    kernel: &mut PagingTableManager,
    store: &mut TableStore,
    mm: &mut SimpleMemoryManager,
    text: Option<TextSection>,
    entry: u64,
) -> (r: ProcessLoad)
    requires
        manager_ok(*old(kernel), *old(store)),
        entry_present(old(store).entry(root_of(old(kernel).cr3), 0)),
        (old(store).count() + 1) * 4096 <= usize::MAX,
        old(store).count() + 2 < table_limit(),
        match text {
            Some(t) => t.address == USER_SPACE_START && t.data_len is Some ==> load_supported(
                *old(kernel),
                *old(store),
                *old(mm),
                t.data_len->0,
            ),
            None => true,
        },
    ensures
        *final(kernel) == *old(kernel),
        match text {
            None => r is NoText,
            Some(t) => if t.address != USER_SPACE_START {
                r == ProcessLoad::TextElsewhere(t.address)
            } else {
                match t.data_len {
                    None => r is TextUnreadable,
                    Some(len) => load_outcome(
                        r,
                        len,
                        entry,
                        *old(store),
                        root_of(old(kernel).cr3),
                        *old(mm),
                        *final(store),
                        *final(mm),
                    ),
                }
            },
        },
{
    let t = match text {
        None => {
            return ProcessLoad::NoText;
        },
        Some(t) => t,
    };
    if t.address != USER_SPACE_START as u64 {
        return ProcessLoad::TextElsewhere(t.address);
    }
    let len = match t.data_len {
        None => {
            return ProcessLoad::TextUnreadable;
        },
        Some(l) => l,
    };
    let ghost s0 = *store;
    let ghost kroot = root_of(kernel.cr3);
    let pt = kernel.new_table(store);
    let ghost s1 = *store;
    let ghost nroot = root_of(pt.cr3);
    proof {
        assert forall|k: int|
            0 <= k < page_count(len) && pt_index(#[trigger] page_at(USER_SPACE_START, k), 39) == 0
                implies lookup(s1, nroot, page_at(USER_SPACE_START, k)) == lookup(
            s0,
            kroot,
            page_at(USER_SPACE_START, k),
        ) by {
            lemma_shared_walk(s0, s1, kroot, nroot, page_at(USER_SPACE_START, k));
        }
    }
    let mut mapper = VirtualMemoryMapper::new(pt);
    match mapper.allocate_physical_pages(store, mm, USER_SPACE_START, len) {
        Ok(()) => {
            let entry_in_range = USER_SPACE_START as u64 <= entry && entry < (USER_SPACE_START
                + len) as u64;
            ProcessLoad::Loaded { mapper, entry_in_range }
        },
        Err(()) => {
            proof {
                let k = choose|k: int|
                    0 <= k < page_count(len) && (lookup(
                        s1,
                        nroot,
                        #[trigger] page_at(USER_SPACE_START, k),
                    ) is Some || shares_earlier(*store, nroot, USER_SPACE_START, k));
                let v = page_at(USER_SPACE_START, k);
                if !shares_earlier(*store, nroot, USER_SPACE_START, k) {
                    if pt_index(v, 39) != 0 {
                        lemma_index_bound(v, 39);
                        assert(s1.entry(nroot, pt_index(v, 39)) == 0);
                        assert(0u64 & 1 == 0) by (bit_vector);
                        assert(!entry_present(s1.entry(nroot, pt_index(v, 39))));
                        assert(lookup(s1, nroot, v) is None);
                    }
                }
            }
            ProcessLoad::MapFailed
        },
    }
}

} // verus!
