//! Giving ranges of virtual memory pages of their own, taken from the physical memory manager.

use vstd::prelude::*;
use crate::bitmap::Bitmap;
use crate::memory_manager::{
    free_maps, lemma_total_free_take, same_geometry, serves, total_free, SimpleMemoryManager,
};
use crate::paging_manager::{
    entries_accounted, extends, lemma_accounted_blocked, lemma_accounted_start,
    lemma_accounted_step, lemma_extends_lookup, lemma_extends_trans, lemma_links_grow_trans,
    links_grow, lookup, manager_ok, mapped_to, page_at, page_count, range_fits, root_of,
    shares_earlier,
    table_limit, PagingTableManager, TableStore,
};

verus! {

/// Maps physical memory to virtual memory, in the page tables of one manager.
pub struct VirtualMemoryMapper {
    /// The manager of the page tables
    pub ptm: PagingTableManager,
}

/// The number of pages a range of `len` bytes starts, computed without overflow.
fn pages_in(len: usize) -> (r: usize)
    ensures
        r == page_count(len),
{
    len / 4096 + if len % 4096 != 0 {
        1
    } else {
        0
    }
}

/// The physical address of block `f.1` of bitmap `f.0`.
pub open spec fn frame_addr(bms: Seq<Bitmap>, f: (int, int)) -> u64 {
    (bms[f.0].block_addr(f.1) as usize) as u64
}

/// The free maps with the given blocks, each a bitmap and a block in it, marked used.
pub open spec fn take_frames(maps: Seq<Seq<bool>>, fs: Seq<(int, int)>) -> Seq<Seq<bool>>
    decreases fs.len(),
{
    if fs.len() == 0 {
        maps
    } else {
        let m = take_frames(maps, fs.drop_last());
        m.update(fs.last().0, m[fs.last().0].update(fs.last().1, false))
    }
}

/// The blocks were free in the maps, and no block comes twice.
pub open spec fn fresh_frames(maps: Seq<Seq<bool>>, fs: Seq<(int, int)>) -> bool {
    &&& forall|k: int|
        0 <= k < fs.len() ==> 0 <= (#[trigger] fs[k]).0 < maps.len() && 0 <= fs[k].1
            < maps[fs[k].0].len() && maps[fs[k].0][fs[k].1]
    &&& forall|j: int, k: int| 0 <= j < k < fs.len() ==> #[trigger] fs[j] != #[trigger] fs[k]
}

/// Marking blocks used keeps the shape of the maps, and a block is free afterwards exactly when
/// it was free before and is not one of them.
pub proof fn lemma_take_frames(maps: Seq<Seq<bool>>, fs: Seq<(int, int)>)
    requires
        forall|k: int|
            0 <= k < fs.len() ==> 0 <= (#[trigger] fs[k]).0 < maps.len() && 0 <= fs[k].1
                < maps[fs[k].0].len(),
    ensures
        take_frames(maps, fs).len() == maps.len(),
        forall|a: int| 0 <= a < maps.len() ==> #[trigger] take_frames(maps, fs)[a].len() == maps[a].len(),
        forall|a: int, b: int|
            0 <= a < maps.len() && 0 <= b < maps[a].len() ==> #[trigger] take_frames(maps, fs)[a][b]
                == (maps[a][b] && !fs.contains((a, b))),
    decreases fs.len(),
{
    if fs.len() > 0 {
        let p = fs.drop_last();
        assert forall|k: int| 0 <= k < p.len() implies 0 <= (#[trigger] p[k]).0 < maps.len() && 0
            <= p[k].1 < maps[p[k].0].len() by {
            assert(p[k] == fs[k]);
        }
        lemma_take_frames(maps, p);
        let l = fs.last();
        assert(fs[fs.len() - 1] == l);
        assert forall|a: int, b: int|
            0 <= a < maps.len() && 0 <= b < maps[a].len() implies #[trigger] take_frames(maps, fs)[a][b]
            == (maps[a][b] && !fs.contains((a, b))) by {
            if fs.contains((a, b)) {
                let w = choose|w: int| 0 <= w < fs.len() && fs[w] == (a, b);
                if w < fs.len() - 1 {
                    assert(p[w] == (a, b));
                    assert(p.contains((a, b)));
                }
            } else {
                assert(!p.contains((a, b))) by {
                    if p.contains((a, b)) {
                        let w = choose|w: int| 0 <= w < p.len() && p[w] == (a, b);
                        assert(fs[w] == (a, b));
                    }
                }
            }
        }
    }
}

impl VirtualMemoryMapper {
    /// Build a new mapper
    pub fn new(ptm: PagingTableManager) -> (r: Self)
        ensures
            r.ptm == ptm,
    {
        Self { ptm }
    }

    /// Give every page of the virtual range a physical page of its own, one page every 4096
    /// bytes of `len`, in order; fails at the first page that is already mapped.
    pub fn allocate_physical_pages(
        &mut self,
        store: &mut TableStore,
        mm: &mut SimpleMemoryManager,
        virt: usize,
        len: usize,
    ) -> (r: Result<(), ()>)
        requires
            manager_ok(old(self).ptm, *old(store)),
            old(mm).wf(),
            old(mm).bitmaps is Some,
            total_free(old(mm).bms()) >= page_count(len),
            range_fits(virt, len),
            old(store).count() + 6 * page_count(len) + 6 < table_limit(),
        ensures
            *final(self) == *old(self),
            manager_ok(final(self).ptm, *final(store)),
            extends(*old(store), *final(store)),
            final(mm).wf(),
            final(mm).extra_mem == old(mm).extra_mem,
            r is Ok ==> total_free(final(mm).bms()) + page_count(len) == total_free(old(mm).bms()),
            same_geometry(final(mm).bms(), old(mm).bms()),
            r is Ok ==> exists|fs: Seq<(int, int)>|
                {
                    &&& fs.len() == page_count(len)
                    &&& fresh_frames(free_maps(old(mm).bms()), fs)
                    &&& free_maps(final(mm).bms()) == take_frames(free_maps(old(mm).bms()), fs)
                    &&& forall|k: int|
                        0 <= k < page_count(len) ==> lookup(
                            *final(store),
                            root_of(old(self).ptm.cr3),
                            #[trigger] page_at(virt, k),
                        ) == Some(mapped_to(frame_addr(old(mm).bms(), fs[k]), 3, page_at(virt, k)))
                },
            r is Ok ==> forall|k: int|
                0 <= k < page_count(len) ==> lookup(
                    *final(store),
                    root_of(old(self).ptm.cr3),
                    #[trigger] page_at(virt, k),
                ) is Some,
            (exists|k: int|
                0 <= k < page_count(len) && lookup(
                    *old(store),
                    root_of(old(self).ptm.cr3),
                    #[trigger] page_at(virt, k),
                ) is Some) ==> r is Err,
            r is Err ==> exists|k: int|
                0 <= k < page_count(len) && (lookup(
                    *old(store),
                    root_of(old(self).ptm.cr3),
                    #[trigger] page_at(virt, k),
                ) is Some || shares_earlier(*final(store), root_of(old(self).ptm.cr3), virt, k)),
    {
        let n = pages_in(len);
        let ghost s0 = *store;
        let ghost mm0 = *mm;
        let ghost root = root_of(self.ptm.cr3);
        let mut k: usize = 0;
        let ghost mut fs: Seq<(int, int)> = Seq::empty();
        proof {
            lemma_accounted_start(s0, root, virt);
        }
        while k < n
            invariant
                n == page_count(len),
                k <= n,
                s0 == *old(store),
                mm0 == *old(mm),
                *self == *old(self),
                root == root_of(self.ptm.cr3),
                manager_ok(self.ptm, s0),
                manager_ok(self.ptm, *store),
                range_fits(virt, len),
                extends(s0, *store),
                links_grow(s0, *store),
                entries_accounted(s0, *store, root, virt, k as int),
                store.count() <= s0.count() + 6 * k,
                s0.count() + 6 * page_count(len) + 6 < table_limit(),
                mm.wf(),
                mm.bitmaps is Some,
                mm.extra_mem == mm0.extra_mem,
                total_free(mm.bms()) + k == total_free(mm0.bms()),
                total_free(mm0.bms()) >= n,
                forall|j: int| 0 <= j < k ==> lookup(*store, root, #[trigger] page_at(virt, j)) is Some,
                forall|j: int| 0 <= j < k ==> lookup(s0, root, #[trigger] page_at(virt, j)) is None,
                same_geometry(mm.bms(), mm0.bms()),
                fs.len() == k,
                fresh_frames(free_maps(mm0.bms()), fs),
                free_maps(mm.bms()) == take_frames(free_maps(mm0.bms()), fs),
                forall|j: int|
                    0 <= j < k ==> lookup(*store, root, #[trigger] page_at(virt, j)) == Some(
                        mapped_to(frame_addr(mm0.bms(), fs[j]), 3, page_at(virt, j)),
                    ),
            decreases n - k,
        {
            let vaddr = virt + k * 4096;
            assert(vaddr as u64 == page_at(virt, k as int));
            proof {
                mm.lemma_free_page_from_count();
            }
            let ghost cur = *store;
            let ghost mcur = *mm;
            let res = self.ptm.map_new_page(store, mm, vaddr);
            proof {
                let (kk, ii) = choose|kk: int, ii: int|
                    #[trigger] serves(mcur.bms(), kk, ii) && crate::memory_manager::free_maps(
                        mm.bms(),
                    ) == crate::memory_manager::free_maps(mcur.bms()).update(
                        kk,
                        mcur.bms()[kk]@.update(ii, false),
                    ) && (res is Ok ==> lookup(*store, root, vaddr as u64) == Some(
                        crate::paging_manager::mapped_to(
                            (mcur.bms()[kk].block_addr(ii) as usize) as u64,
                            3,
                            vaddr as u64,
                        ),
                    ));
                lemma_total_free_take(mcur.bms(), mm.bms(), kk, ii);
                assert(crate::memory_manager::free_maps(mm.bms()).len() == mm.bms().len());
                assert(crate::memory_manager::free_maps(mcur.bms()).len() == mcur.bms().len());
                assert(mm.bms().len() > 0);
                lemma_extends_trans(s0, cur, *store);
                lemma_links_grow_trans(s0, cur, *store);
                lemma_extends_lookup(s0, cur, root, vaddr as u64);
                lemma_accounted_step(s0, cur, *store, root, virt, k as int, vaddr);
                if res is Err {
                    lemma_accounted_blocked(s0, cur, *store, root, virt, k as int);
                }
                assert forall|j: int| 0 <= j < k implies lookup(
                    *store,
                    root,
                    #[trigger] page_at(virt, j),
                ) == lookup(cur, root, page_at(virt, j)) by {
                    lemma_extends_lookup(cur, *store, root, page_at(virt, j));
                }
                let maps0 = free_maps(mm0.bms());
                lemma_take_frames(maps0, fs);
                assert(serves(mcur.bms(), kk, ii));
                assert(free_maps(mcur.bms())[kk] == mcur.bms()[kk]@);
                assert(mcur.bms()[kk]@[ii]);
                assert(0 <= kk < maps0.len());
                assert(0 <= ii < maps0[kk].len());
                assert(maps0[kk][ii] && !fs.contains((kk, ii)));
                assert(frame_addr(mcur.bms(), (kk, ii)) == frame_addr(mm0.bms(), (kk, ii)));
                let nfs = fs.push((kk, ii));
                assert(nfs.drop_last() =~= fs);
                assert(fresh_frames(maps0, nfs)) by {
                    assert forall|j: int, q: int| 0 <= j < q < nfs.len() implies #[trigger] nfs[j]
                        != #[trigger] nfs[q] by {
                        if q == nfs.len() - 1 {
                            assert(nfs[j] == fs[j]);
                            if fs[j] == (kk, ii) {
                                assert(fs.contains((kk, ii)));
                            }
                        } else {
                            assert(nfs[j] == fs[j] && nfs[q] == fs[q]);
                        }
                    }
                    assert forall|q: int| 0 <= q < nfs.len() implies 0 <= (#[trigger] nfs[q]).0
                        < maps0.len() && 0 <= nfs[q].1 < maps0[nfs[q].0].len()
                        && maps0[nfs[q].0][nfs[q].1] by {
                        if q < fs.len() {
                            assert(nfs[q] == fs[q]);
                        }
                    }
                }
                assert(free_maps(mm.bms()) == take_frames(maps0, nfs));
                if res is Ok {
                    assert forall|j: int| 0 <= j < k + 1 implies lookup(
                        *store,
                        root,
                        #[trigger] page_at(virt, j),
                    ) == Some(mapped_to(frame_addr(mm0.bms(), nfs[j]), 3, page_at(virt, j))) by {
                        if j < k {
                            assert(nfs[j] == fs[j]);
                        } else {
                            assert(nfs[j] == (kk, ii));
                        }
                    }
                }
                fs = nfs;
            }
            match res {
                Ok(()) => {},
                Err(()) => {
                    return Err(());
                },
            }
            k = k + 1;
        }
        Ok(())
    }
}

} // verus!
