//! Address spaces: mapped regions over one page table.
//!
//! A `MapArea` is a contiguous range of virtual pages with one mapping
//! mode and one permission set; in `Framed` mode it owns one allocated
//! frame per page. A `MemorySet` is one page table plus the ordered
//! regions mapped through it.
use vstd::prelude::*;

use crate::address::{PhysAddr, PhysPageNum, SimpleRange, VPNRange, VirtAddr, VirtPageNum, PA_BOUND, PPN_BOUND};
use crate::config::{PAGE_SIZE, TRAMPOLINE_VPN, TRAP_CONTEXT_VPN, USER_STACK_SIZE, VPN_LIMIT};
use crate::error::KernelError;
use crate::frame_allocator::{alloc_wf, dealloc_step, dealloc_valid, frame_alloc, free_frames, StackFrameAllocator};
use crate::frame_tracker::FrameTracker;
use crate::page_table::{lemma_pte_encode, spec_pte, spec_satp_token, spec_with_valid, PageTable, PageTableEntry};

verus! {

/// Readable map permission (matches the page-table R bit).
pub const MAP_PERM_R: u8 = 2;
/// Writable map permission.
pub const MAP_PERM_W: u8 = 4;
/// Executable map permission.
pub const MAP_PERM_X: u8 = 8;
/// User-accessible map permission.
pub const MAP_PERM_U: u8 = 16;

/// How a region maps its pages: page number identity, or one owned
/// frame per page.
#[derive(Clone, Copy, PartialEq, Eq, Structural, Debug)]
pub enum MapType {
    Identical,
    Framed,
}

/// Number of page-sized chunks a copy of `len` bytes touches.
pub open spec fn spec_pages_touched(len: nat) -> nat {
    if len == 0 {
        0
    } else {
        ((len - 1) / 4096 + 1) as nat
    }
}

/// A page's bytes after chunk `p` of `data` is copied over its front.
pub open spec fn spec_copy_page(old_bytes: Seq<u8>, data: Seq<u8>, p: int) -> Seq<u8> {
    Seq::new(4096, |k: int| if p * 4096 + k < data.len() {
        data[p * 4096 + k]
    } else {
        old_bytes[k]
    })
}

/// Every frame a region owns can go back to the pool: each owned page
/// number passes the pool's release check, and no two slots own the
/// same frame.
pub open spec fn spec_release_ok(area: &MapArea, m: crate::frame_allocator::AllocModel) -> bool {
    &&& forall|j: int|
        0 <= j < area.data_frames@.len() ==> match #[trigger] area.data_frames@[j] {
            Some(t) => dealloc_valid(m, t.ppn.0),
            None => true,
        }
    &&& forall|j1: int, j2: int|
        0 <= j1 < j2 < area.data_frames@.len() && (#[trigger] area.data_frames@[j1]) is Some
            && (#[trigger] area.data_frames@[j2]) is Some ==> area.data_frames@[j1].unwrap().ppn
            != area.data_frames@[j2].unwrap().ppn
}

/// A page as frame acquisition leaves it: 4096 zero bytes.
pub open spec fn spec_zero_page() -> Seq<u8> {
    Seq::new(4096, |k: int| 0u8)
}

/// The page number under a frame slot, if any: identifies the frame a
/// slot owns independently of the page contents.
pub open spec fn option_ppn(o: Option<FrameTracker>) -> Option<u64> {
    match o {
        Some(t) => Some(t.ppn.0),
        None => None,
    }
}

/// A contiguous mapped region.
pub struct MapArea {
    pub vpn_range: VPNRange,
    /// One slot per page of the range; `Some` holds the owned backing
    /// frame of that page (`Framed` mode only).
    pub data_frames: Vec<Option<FrameTracker>>,
    pub map_type: MapType,
    pub map_perm: u8,
}

impl MapArea {
    /// Structural invariant: an in-range page interval, one frame slot
    /// per page, frames only in `Framed` mode.
    pub open spec fn wf(&self) -> bool {
        &&& self.vpn_range.l.0 <= self.vpn_range.r.0
        &&& self.vpn_range.r.0 <= VPN_LIMIT
        &&& self.data_frames@.len() == self.vpn_range.spec_len()
        &&& forall|j: int|
            0 <= j < self.data_frames@.len() ==> match #[trigger] self.data_frames@[j] {
                Some(t) => t.wf() && t.ppn.0 < PPN_BOUND,
                None => true,
            }
        &&& self.map_type is Identical ==> forall|j: int|
            0 <= j < self.data_frames@.len() ==> #[trigger] self.data_frames@[j] is None
    }

    /// First page of the region.
    pub open spec fn spec_start(&self) -> u64 {
        self.vpn_range.l.0
    }

    /// One past the last page of the region.
    pub open spec fn spec_end(&self) -> u64 {
        self.vpn_range.r.0
    }

    /// Number of pages in the region.
    pub open spec fn spec_len(&self) -> nat {
        self.vpn_range.spec_len()
    }

    /// The entry this region's page `vpn` should carry in the page
    /// table, given the frame slot it owns there.
    pub open spec fn spec_expected_pte(&self, vpn: u64) -> Option<PageTableEntry> {
        match self.map_type {
            MapType::Identical => Some(spec_pte(vpn, spec_with_valid(self.map_perm))),
            MapType::Framed => match self.data_frames@[vpn - self.vpn_range.l.0] {
                Some(t) => Some(spec_pte(t.ppn.0, spec_with_valid(self.map_perm))),
                None => None,
            },
        }
    }

    /// A new region covering the pages from `start_va` rounded down to
    /// `end_va` rounded up, with no frames yet.
    pub fn new(start_va: VirtAddr, end_va: VirtAddr, map_type: MapType, map_perm: u8) -> (r:
        MapArea)
        requires
            start_va.0 <= end_va.0,
            end_va.0 <= VPN_LIMIT * PAGE_SIZE,
        ensures
            r.wf(),
            r.spec_start() == start_va.0 / PAGE_SIZE,
            r.spec_end() == (end_va.0 + PAGE_SIZE - 1) / (PAGE_SIZE as int),
            r.map_type == map_type,
            r.map_perm == map_perm,
            forall|j: int| 0 <= j < r.data_frames@.len() ==> #[trigger] r.data_frames@[j] is None,
    {
        let start_vpn: VirtPageNum = start_va.floor();
        let end_vpn: VirtPageNum = end_va.ceil();
        let mut data_frames: Vec<Option<FrameTracker>> = Vec::new();
        let mut i: u64 = 0;
        let n = end_vpn.0 - start_vpn.0;
        while i < n
            invariant
                i <= n,
                data_frames@.len() == i,
                forall|j: int| 0 <= j < i ==> #[trigger] data_frames@[j] is None,
            decreases n - i,
        {
            data_frames.push(None);
            i = i + 1;
        }
        MapArea {
            vpn_range: SimpleRange::new(start_vpn, end_vpn),
            data_frames,
            map_type,
            map_perm,
        }
    }

    /// Map one page of the region: pick its physical frame (the page
    /// number itself, or a freshly allocated frame recorded in the
    /// region) and install the leaf entry.
    pub fn map_one(
        &mut self,
        page_table: &mut PageTable,
        a: &mut StackFrameAllocator,
        vpn: VirtPageNum,
    ) -> (r: Result<u64, KernelError>)
        requires
            old(self).wf(),
            old(page_table).wf(),
            alloc_wf(old(a)@),
            old(self).vpn_range.contains(vpn.0),
        ensures
            final(self).wf(),
            final(page_table).wf(),
            alloc_wf(final(a)@),
            final(a)@.end == old(a)@.end,
            free_frames(final(a)@) <= free_frames(old(a)@),
            final(self).vpn_range == old(self).vpn_range,
            final(self).map_type == old(self).map_type,
            final(self).map_perm == old(self).map_perm,
            final(page_table).spec_root_ppn() == old(page_table).spec_root_ppn(),
            r is Err ==> *final(self) == *old(self),
            r == Err::<u64, KernelError>(KernelError::AlreadyMapped) <==> old(page_table).spec_mapping(vpn.0) is Some,
            r == Err::<u64, KernelError>(KernelError::OutOfFrames) ==> free_frames(final(a)@)
                == 0,
            r is Err ==> r == Err::<u64, KernelError>(KernelError::AlreadyMapped) || r == Err::<
                u64,
                KernelError,
            >(KernelError::OutOfFrames),
            free_frames(final(a)@) + 3 >= free_frames(old(a)@),
            r is Ok <==> (old(page_table).spec_mapping(vpn.0) is None && free_frames(old(a)@)
                >= old(page_table).spec_frames_needed(vpn.0) + if old(self).map_type is Framed {
                1nat
            } else {
                0nat
            }),
            r is Ok ==> final(page_table).spec_mapping(vpn.0) == final(self).spec_expected_pte(
                vpn.0,
            ) && final(self).spec_expected_pte(vpn.0) == Some(
                spec_pte(r.unwrap(), spec_with_valid(old(self).map_perm)),
            ),
            r is Ok && old(self).map_type is Identical ==> r.unwrap() == vpn.0 && *final(self)
                == *old(self),
            forall|j: int|
                0 <= j < old(self).data_frames@.len() && j != vpn.0 - old(self).spec_start()
                    ==> final(self).data_frames@[j] == old(self).data_frames@[j],
            r is Ok && old(self).map_type is Framed ==> ((final(self).data_frames@[vpn.0 - old(self).spec_start()]) matches Some(t) && t.bytes@ == spec_zero_page()),
            forall|w: u64|
                w < VPN_LIMIT && w != vpn.0 ==> final(page_table).spec_mapping(w) == old(page_table).spec_mapping(w),
            r is Err ==> final(page_table).spec_mapping(vpn.0) == old(page_table).spec_mapping(
                vpn.0,
            ),
    {
        match self.map_type {
            MapType::Identical => {
                let ppn = PhysPageNum(vpn.0);
                match page_table.map(a, vpn, ppn, self.map_perm) {
                    Ok(()) => Ok(ppn.0),
                    Err(e) => Err(e),
                }
            },
            MapType::Framed => {
                let already = match page_table.translate(vpn) {
                    Some(pte) => pte.is_valid(),
                    None => false,
                };
                if already {
                    return Err(KernelError::AlreadyMapped);
                }
                match frame_alloc(a) {
                    Some(frame) => {
                        let ppn = frame.ppn;
                        match page_table.map(a, vpn, ppn, self.map_perm) {
                            Ok(()) => {
                                let idx = vpn.0 - self.vpn_range.get_start().0;
                                proof {
                                    assert(frame.bytes@ =~= spec_zero_page());
                                }
                                self.data_frames.set(idx as usize, Some(frame));
                                Ok(ppn.0)
                            },
                            Err(e) => Err(e),
                        }
                    },
                    None => Err(KernelError::OutOfFrames),
                }
            },
        }
    }

    /// Unmap one page of the region, handing a `Framed` page's frame
    /// back to the allocator.
    pub fn unmap_one(
        &mut self,
        page_table: &mut PageTable,
        a: &mut StackFrameAllocator,
        vpn: VirtPageNum,
    ) -> (r: Result<(), KernelError>)
        requires
            old(self).wf(),
            old(page_table).wf(),
            alloc_wf(old(a)@),
            old(self).vpn_range.contains(vpn.0),
        ensures
            final(self).wf(),
            final(page_table).wf(),
            alloc_wf(final(a)@),
            final(self).vpn_range == old(self).vpn_range,
            final(self).map_type == old(self).map_type,
            final(self).map_perm == old(self).map_perm,
            final(page_table).spec_root_ppn() == old(page_table).spec_root_ppn(),
            r is Ok <==> (old(page_table).spec_mapping(vpn.0) is Some && (old(self).map_type
                is Framed ==> match old(self).data_frames@[vpn.0 - old(self).spec_start()] {
                Some(t) => dealloc_valid(old(a)@, t.ppn.0),
                None => true,
            })),
            r is Ok ==> final(page_table).spec_mapping(vpn.0) is None && final(self).data_frames@[vpn.0 - old(self).spec_start()] is None,
            // on success an owned frame goes back to the pool; a page
            // without one leaves the pool untouched
            r is Ok ==> final(a)@ == (if old(self).map_type is Framed {
                match old(self).data_frames@[vpn.0 - old(self).spec_start()] {
                    Some(t) => dealloc_step(old(a)@, t.ppn.0),
                    None => old(a)@,
                }
            } else {
                old(a)@
            }),
            r == Err::<(), KernelError>(KernelError::NotMapped) <==> old(
                page_table,
            ).spec_mapping(vpn.0) is None,
            r is Err ==> r == Err::<(), KernelError>(KernelError::NotMapped) || r == Err::<
                (),
                KernelError,
            >(KernelError::FrameNotAllocated),
            r is Err ==> final(self).data_frames@ == old(self).data_frames@
                && *final(page_table) == *old(page_table) && *final(a) == *old(a),
            forall|j: int|
                0 <= j < old(self).data_frames@.len() && j != vpn.0 - old(self).spec_start()
                    ==> final(self).data_frames@[j] == old(self).data_frames@[j],
            forall|w: u64|
                w < VPN_LIMIT && w != vpn.0 ==> final(page_table).spec_mapping(w) == old(page_table).spec_mapping(w),
    {
        let mapped = match page_table.translate(vpn) {
            Some(pte) => pte.is_valid(),
            None => false,
        };
        if !mapped {
            return Err(KernelError::NotMapped);
        }
        if matches!(self.map_type, MapType::Framed) {
            let idx = vpn.0 - self.vpn_range.get_start().0;
            let slot = self.data_frames.remove(idx as usize);
            match slot {
                Some(frame) => {
                    match a.dealloc(frame.ppn) {
                        Ok(()) => {
                            self.data_frames.insert(idx as usize, None);
                            proof {
                                assert(self.data_frames@ =~= old(self).data_frames@.update(
                                    vpn.0 - old(self).spec_start(),
                                    None,
                                ));
                            }
                        },
                        Err(e) => {
                            // the pool rejected an owned frame: a broken
                            // invariant; nothing is changed and the fatal
                            // rejection is surfaced
                            self.data_frames.insert(idx as usize, Some(frame));
                            proof {
                                assert(self.data_frames@ =~= old(self).data_frames@);
                            }
                            return Err(e);
                        },
                    }
                },
                None => {
                    self.data_frames.insert(idx as usize, None);
                    proof {
                        assert(self.data_frames@ =~= old(self).data_frames@.update(
                            vpn.0 - old(self).spec_start(),
                            None,
                        ));
                    }
                },
            }
        } else {
            proof {
                assert(self.data_frames@ =~= old(self).data_frames@);
            }
        }
        match page_table.unmap(vpn) {
            Ok(()) => Ok(()),
            Err(_) => {
                proof {
                    assert(false);
                }
                Err(KernelError::NotMapped)
            },
        }
    }

    /// Map every page of the region.
    pub fn map(&mut self, page_table: &mut PageTable, a: &mut StackFrameAllocator) -> (r: Result<
        (),
        KernelError,
    >)
        requires
            old(self).wf(),
            old(page_table).wf(),
            alloc_wf(old(a)@),
        ensures
            final(self).wf(),
            final(page_table).wf(),
            alloc_wf(final(a)@),
            final(a)@.end == old(a)@.end,
            final(self).vpn_range == old(self).vpn_range,
            final(self).map_type == old(self).map_type,
            final(self).map_perm == old(self).map_perm,
            final(page_table).spec_root_ppn() == old(page_table).spec_root_ppn(),
            forall|w: u64|
                w < VPN_LIMIT && !old(self).vpn_range.contains(w) ==> final(page_table).spec_mapping(w) == old(page_table).spec_mapping(w),
            r is Ok ==> forall|w: u64|
                old(self).vpn_range.contains(w) ==> final(page_table).spec_mapping(w) == final(self).spec_expected_pte(w) && final(self).spec_expected_pte(w) is Some,
            r == Err::<(), KernelError>(KernelError::OutOfFrames) ==> free_frames(final(a)@) == 0,
            r is Err ==> r == Err::<(), KernelError>(KernelError::AlreadyMapped) || r == Err::<
                (),
                KernelError,
            >(KernelError::OutOfFrames),
            r == Err::<(), KernelError>(KernelError::AlreadyMapped) ==> exists|w: u64|
                old(self).vpn_range.contains(w) && old(page_table).spec_mapping(w) is Some,
            (free_frames(old(a)@) >= 3 * old(self).spec_len() && forall|w: u64|
                old(self).vpn_range.contains(w) ==> old(page_table).spec_mapping(w) is None)
                ==> r is Ok,
            free_frames(final(a)@) + 3 * old(self).spec_len() >= free_frames(old(a)@),
            forall|w: u64|
                w < VPN_LIMIT && old(page_table).spec_mapping(w) is Some ==> final(page_table).spec_mapping(w) == old(page_table).spec_mapping(w),
            r is Ok ==> forall|w: u64|
                old(self).vpn_range.contains(w) ==> old(page_table).spec_mapping(w) is None,
            r is Ok && old(self).map_type is Framed ==> forall|j: int|
                0 <= j < final(self).data_frames@.len() ==> ((#[trigger] final(self).data_frames@[j]) matches Some(t) && t.bytes@
                    == spec_zero_page()),
    {
        let ghost pt0 = *old(page_table);
        let ghost a0 = old(a)@;
        let l = self.vpn_range.get_start();
        let r_end = self.vpn_range.get_end();
        let mut vpn = l;
        while vpn.0 < r_end.0
            invariant
                pt0 == *old(page_table),
                a0 == old(a)@,
                self.wf(),
                page_table.wf(),
                alloc_wf(a@),
                a@.end == a0.end,
                l == old(self).vpn_range.l,
                r_end == old(self).vpn_range.r,
                l.0 <= vpn.0 <= r_end.0,
                self.vpn_range == old(self).vpn_range,
                self.map_type == old(self).map_type,
                self.map_perm == old(self).map_perm,
                page_table.spec_root_ppn() == pt0.spec_root_ppn(),
                forall|w: u64|
                    w < VPN_LIMIT && !(l.0 <= w < vpn.0) ==> page_table.spec_mapping(w)
                        == pt0.spec_mapping(w),
                forall|w: u64|
                    l.0 <= w < vpn.0 ==> page_table.spec_mapping(w) == self.spec_expected_pte(w)
                        && self.spec_expected_pte(w) is Some,
                forall|w: u64| l.0 <= w < vpn.0 ==> pt0.spec_mapping(w) is None,
                self.map_type is Framed ==> forall|j: int|
                    0 <= j < vpn.0 - l.0 ==> ((#[trigger] self.data_frames@[j]) matches Some(t)
                        && t.bytes@ == spec_zero_page()),
                (free_frames(a0) >= 3 * old(self).spec_len() && forall|w: u64|
                    old(self).vpn_range.contains(w) ==> pt0.spec_mapping(w) is None)
                    ==> free_frames(a@) >= 3 * (r_end.0 - vpn.0),
                free_frames(a@) + 3 * (vpn.0 - l.0) >= free_frames(a0),
            decreases r_end.0 - vpn.0,
        {
            let ghost self_before = *self;
            let ghost pt_before = *page_table;
            let ghost a_before = a@;
            match self.map_one(page_table, a, vpn) {
                Ok(_) => {},
                Err(e) => {
                    proof {
                        if e == KernelError::AlreadyMapped {
                            assert(old(self).vpn_range.contains(vpn.0) && pt0.spec_mapping(vpn.0)
                                is Some);
                        }
                        if free_frames(a0) >= 3 * old(self).spec_len() && (forall|w: u64|
                            old(self).vpn_range.contains(w) ==> pt0.spec_mapping(w) is None) {
                            pt_before.lemma_frames_needed_bound(vpn.0);
                            assert(pt_before.spec_mapping(vpn.0) is None);
                            assert(free_frames(a_before) >= 3 * (r_end.0 - vpn.0));
                            assert(false);
                        }
                    }
                    return Err(e);
                },
            }
            proof {
                assert forall|w: u64|
                    l.0 <= w < vpn.0 + 1 implies page_table.spec_mapping(w)
                    == self.spec_expected_pte(w) && self.spec_expected_pte(w) is Some by {
                    if w < vpn.0 {
                        assert(page_table.spec_mapping(w) == pt_before.spec_mapping(w));
                        assert(self.spec_expected_pte(w) == self_before.spec_expected_pte(w));
                    }
                };
                if self.map_type is Framed {
                    assert forall|j: int|
                        0 <= j < vpn.0 + 1 - l.0 implies ((#[trigger] self.data_frames@[j])
                        matches Some(t) && t.bytes@ == spec_zero_page()) by {
                        if j < vpn.0 - l.0 {
                            assert(self.data_frames@[j] == self_before.data_frames@[j]);
                        }
                    };
                }
            }
            vpn.0 = vpn.0 + 1;
        }
        Ok(())
    }

    /// Unmap every page of the region, releasing owned frames back to
    /// the pool.
    pub fn unmap(&mut self, page_table: &mut PageTable, a: &mut StackFrameAllocator) -> (r: Result<
        (),
        KernelError,
    >)
        requires
            old(self).wf(),
            old(page_table).wf(),
            alloc_wf(old(a)@),
        ensures
            final(self).wf(),
            final(page_table).wf(),
            alloc_wf(final(a)@),
            final(self).vpn_range == old(self).vpn_range,
            final(self).map_type == old(self).map_type,
            final(self).map_perm == old(self).map_perm,
            final(page_table).spec_root_ppn() == old(page_table).spec_root_ppn(),
            free_frames(final(a)@) >= free_frames(old(a)@),
            forall|w: u64|
                w < VPN_LIMIT && !old(self).vpn_range.contains(w) ==> final(page_table).spec_mapping(w) == old(page_table).spec_mapping(w),
            r is Ok ==> forall|w: u64|
                old(self).vpn_range.contains(w) ==> final(page_table).spec_mapping(w) is None,
            r is Err ==> r == Err::<(), KernelError>(KernelError::NotMapped) || r == Err::<
                (),
                KernelError,
            >(KernelError::FrameNotAllocated),
            ((forall|w: u64|
                old(self).vpn_range.contains(w) ==> old(page_table).spec_mapping(w) is Some)
                && spec_release_ok(old(self), old(a)@)) ==> r is Ok,
    {
        let ghost pt0 = *old(page_table);
        let ghost a0 = old(a)@;
        let l = self.vpn_range.get_start();
        let r_end = self.vpn_range.get_end();
        let mut vpn = l;
        while vpn.0 < r_end.0
            invariant
                pt0 == *old(page_table),
                a0 == old(a)@,
                self.wf(),
                page_table.wf(),
                alloc_wf(a@),
                free_frames(a@) >= free_frames(a0),
                l == old(self).vpn_range.l,
                r_end == old(self).vpn_range.r,
                l.0 <= vpn.0 <= r_end.0,
                self.vpn_range == old(self).vpn_range,
                self.map_type == old(self).map_type,
                self.map_perm == old(self).map_perm,
                self.data_frames@.len() == old(self).data_frames@.len(),
                page_table.spec_root_ppn() == pt0.spec_root_ppn(),
                forall|j: int|
                    vpn.0 - l.0 <= j < old(self).data_frames@.len()
                        ==> #[trigger] self.data_frames@[j] == old(self).data_frames@[j],
                forall|w: u64|
                    w < VPN_LIMIT && !(l.0 <= w < vpn.0) ==> page_table.spec_mapping(w)
                        == pt0.spec_mapping(w),
                forall|w: u64| l.0 <= w < vpn.0 ==> page_table.spec_mapping(w) is None,
                ((forall|w: u64|
                    old(self).vpn_range.contains(w) ==> pt0.spec_mapping(w) is Some)
                    && spec_release_ok(old(self), a0)) ==> forall|j: int|
                    vpn.0 - l.0 <= j < old(self).data_frames@.len() ==> match (
                    #[trigger] old(self).data_frames@[j]) {
                        Some(t) => dealloc_valid(a@, t.ppn.0),
                        None => true,
                    },
            decreases r_end.0 - vpn.0,
        {
            let ghost a_before = a@;
            let ghost jc = vpn.0 - l.0;
            match self.unmap_one(page_table, a, vpn) {
                Ok(()) => {},
                Err(e) => {
                    proof {
                        if (forall|w: u64|
                            old(self).vpn_range.contains(w) ==> pt0.spec_mapping(w) is Some)
                            && spec_release_ok(old(self), a0) {
                            assert(l.0 <= vpn.0 < r_end.0);
                            assert(old(self).vpn_range.contains(vpn.0));
                            assert(pt0.spec_mapping(vpn.0) is Some);
                            // the frame owned here, if any, passes the
                            // pool's release check at this point
                            assert(self.data_frames@[jc as int] == old(self).data_frames@[
                                jc as int
                            ]);
                            match old(self).data_frames@[jc as int] {
                                Some(t) => {
                                    assert(dealloc_valid(a_before, t.ppn.0));
                                },
                                None => {},
                            }
                            assert(false);
                        }
                    }
                    return Err(e);
                },
            }
            proof {
                if (forall|w: u64|
                    old(self).vpn_range.contains(w) ==> pt0.spec_mapping(w) is Some)
                    && spec_release_ok(old(self), a0) {
                    assert forall|j: int|
                        vpn.0 + 1 - l.0 <= j < old(self).data_frames@.len() implies match (
                    #[trigger] old(self).data_frames@[j]) {
                        Some(t) => dealloc_valid(a@, t.ppn.0),
                        None => true,
                    } by {
                        match old(self).data_frames@[j] {
                            Some(t) => {
                                assert(dealloc_valid(a_before, t.ppn.0));
                                match old(self).data_frames@[jc as int] {
                                    Some(tr) => {
                                        // the frame just released is a
                                        // different one, so this slot's
                                        // release stays acceptable
                                        assert(tr.ppn != t.ppn);
                                        assert(a@ == dealloc_step(a_before, tr.ppn.0));
                                        assert(!a@.recycled.contains(t.ppn.0)) by {
                                            if a@.recycled.contains(t.ppn.0) {
                                                let k = choose|k: int|
                                                    0 <= k < a@.recycled.len()
                                                        && a@.recycled[k] == t.ppn.0;
                                                if k < a_before.recycled.len() {
                                                    assert(a_before.recycled[k] == t.ppn.0);
                                                } else {
                                                    assert(a@.recycled[k] == tr.ppn.0);
                                                }
                                            }
                                        };
                                    },
                                    None => {
                                        assert(a@ == a_before);
                                    },
                                }
                            },
                            None => {},
                        }
                    };
                }
            }
            vpn.0 = vpn.0 + 1;
        }
        Ok(())
    }

    /// Copy `data` into the region's pages, page chunk by page chunk;
    /// a shorter source leaves the tail of the region as it was (zeroed
    /// from frame acquisition). For `Framed` regions that are mapped in
    /// `page_table`.
    pub fn copy_data(&mut self, page_table: &PageTable, data: &Vec<u8>) -> (r: Result<
        (),
        KernelError,
    >)
        requires
            old(self).wf(),
            page_table.wf(),
            old(self).map_type is Framed,
            data@.len() <= old(self).spec_len() * PAGE_SIZE,
        ensures
            final(self).wf(),
            final(self).vpn_range == old(self).vpn_range,
            final(self).map_type == old(self).map_type,
            final(self).map_perm == old(self).map_perm,
            forall|j: int|
                0 <= j < old(self).data_frames@.len() ==> option_ppn(
                    #[trigger] final(self).data_frames@[j],
                ) == option_ppn(old(self).data_frames@[j]),
            final(self).spec_len() == old(self).spec_len(),
            r is Ok <==> forall|p: int|
                0 <= p < spec_pages_touched(data@.len()) ==> page_table.spec_mapping(((old(self).spec_start() + p) as u64)) is Some && (#[trigger] old(self).data_frames@[p]) is Some,
            r is Ok ==> forall|p: int|
                0 <= p < old(self).data_frames@.len() ==> ((#[trigger] final(self).data_frames@[p]) matches Some(t) ==> (old(self).data_frames@[p] matches Some(t0)
                    && t.bytes@ == spec_copy_page(t0.bytes@, data@, p))),
            r is Err ==> r == Err::<(), KernelError>(KernelError::BadImage),
    {
        let ghost self0 = *old(self);
        let len = data.len();
        let total = self.data_frames.len();
        let mut p: usize = 0;
        let pages = if len == 0 {
            0
        } else {
            (len - 1) / 4096 + 1
        };
        proof {
            assert(pages == spec_pages_touched(data@.len()));
            if len > 0 {
                vstd::arithmetic::div_mod::lemma_fundamental_div_mod((len - 1) as int, 4096);
                assert(self0.spec_len() * PAGE_SIZE >= len);
                assert((len - 1) as int / 4096 < self0.spec_len()) by (nonlinear_arith)
                    requires
                        self0.spec_len() * 4096 >= len,
                        len >= 1,
                ;
            }
            assert(pages <= total);
        }
        while p < pages
            invariant
                self0 == *old(self),
                self.wf(),
                page_table.wf(),
                pages <= total,
                p <= pages,
                len == data@.len(),
                total == self.data_frames@.len(),
                pages == spec_pages_touched(data@.len()),
                self.vpn_range == self0.vpn_range,
                self.map_type == self0.map_type,
                self.map_perm == self0.map_perm,
                self.data_frames@.len() == self0.data_frames@.len(),
                forall|j: int|
                    0 <= j < total ==> option_ppn(#[trigger] self.data_frames@[j]) == option_ppn(
                        self0.data_frames@[j],
                    ),
                forall|j: int|
                    0 <= j < p ==> page_table.spec_mapping(((self0.spec_start() + j) as u64)) is Some && (
                    #[trigger] self0.data_frames@[j]) is Some,
                forall|j: int| p <= j < total ==> #[trigger] self.data_frames@[j]
                    == self0.data_frames@[j],
                forall|j: int|
                    0 <= j < p ==> ((#[trigger] self.data_frames@[j]) matches Some(t) && (
                    self0.data_frames@[j] matches Some(t0) && t.bytes@ == spec_copy_page(
                        t0.bytes@,
                        data@,
                        j,
                    ))),
            decreases pages - p,
        {
            let ghost frames_before = self.data_frames@;
            proof {
                if len > 0 {
                    vstd::arithmetic::div_mod::lemma_fundamental_div_mod((len - 1) as int, 4096);
                    vstd::arithmetic::mul::lemma_mul_inequality(
                        p as int,
                        (len - 1) as int / 4096,
                        4096,
                    );
                }
            }
            let base = p * 4096;
            let csize = if len - base < 4096 {
                len - base
            } else {
                4096
            };
            let vpn = VirtPageNum(self.vpn_range.get_start().0 + p as u64);
            let mapped = match page_table.translate(vpn) {
                Some(pte) => pte.is_valid(),
                None => false,
            };
            if !mapped {
                proof {
                    assert(page_table.spec_mapping(((self0.spec_start() + p) as u64)) is None);
                    assert(!(self0.data_frames@[p as int] is Some
                        && page_table.spec_mapping(((self0.spec_start() + p) as u64)) is Some));
                }
                return Err(KernelError::BadImage);
            }
            let slot = self.data_frames.remove(p);
            match slot {
                Some(mut t) => {
                    let ghost t0 = t;
                    let mut off: usize = 0;
                    while off < csize
                        invariant
                            t.wf(),
                            t.ppn == t0.ppn,
                            t0.wf(),
                            off <= csize,
                            base == p * 4096,
                            base + csize <= data@.len(),
                            csize <= 4096,
                            len == data@.len(),
                            forall|k: int|
                                0 <= k < 4096 ==> #[trigger] t.bytes@[k] == if k < off {
                                    data@[base + k]
                                } else {
                                    t0.bytes@[k]
                                },
                        decreases csize - off,
                    {
                        let b = data[base + off];
                        t.write_byte(off, b);
                        off = off + 1;
                    }
                    proof {
                        assert(t.bytes@ =~= spec_copy_page(t0.bytes@, data@, p as int));
                    }
                    self.data_frames.insert(p, Some(t));
                    proof {
                        assert(self.data_frames@ =~= frames_before.update(p as int, Some(t)));
                    }
                },
                None => {
                    self.data_frames.insert(p, None);
                    proof {
                        assert(self.data_frames@ =~= frames_before);
                        assert(self0.data_frames@[p as int] is None);
                    }
                    return Err(KernelError::BadImage);
                },
            }
            p = p + 1;
        }
        Ok(())
    }
}


/// True when `area` owns the frame backing page `vpn`.
pub open spec fn spec_area_match(area: MapArea, vpn: u64) -> bool {
    &&& area.map_type is Framed
    &&& area.vpn_range.contains(vpn)
    &&& area.data_frames@[vpn - area.spec_start()] is Some
}

/// The bytes of the frame backing `vpn`, looked up in the first region
/// that owns one.
pub open spec fn spec_frame_at_rec(areas: Seq<MapArea>, vpn: u64) -> Option<Seq<u8>>
    decreases areas.len(),
{
    if areas.len() == 0 {
        None
    } else if spec_area_match(areas.first(), vpn) {
        Some(areas.first().data_frames@[vpn - areas.first().spec_start()].unwrap().bytes@)
    } else {
        spec_frame_at_rec(areas.drop_first(), vpn)
    }
}

/// Appending a region changes the lookup only where no earlier region
/// already owns the page.
proof fn lemma_frame_at_push(areas: Seq<MapArea>, a: MapArea, vpn: u64)
    ensures
        spec_frame_at_rec(areas.push(a), vpn) == if spec_frame_at_rec(areas, vpn) is Some {
            spec_frame_at_rec(areas, vpn)
        } else if spec_area_match(a, vpn) {
            Some(a.data_frames@[vpn - a.spec_start()].unwrap().bytes@)
        } else {
            None
        },
    decreases areas.len(),
{
    if areas.len() == 0 {
        assert(areas.push(a).len() == 1);
        assert(areas.push(a).first() == a);
        assert(areas.push(a).drop_first() =~= Seq::<MapArea>::empty());
        assert(spec_frame_at_rec(areas.push(a).drop_first(), vpn) is None);
        if spec_area_match(a, vpn) {
            assert(spec_frame_at_rec(areas.push(a), vpn) == Some(
                a.data_frames@[vpn - a.spec_start()].unwrap().bytes@,
            ));
        } else {
            assert(spec_frame_at_rec(areas.push(a), vpn) is None);
        }
    } else {
        assert(areas.push(a).first() == areas.first());
        assert(areas.push(a).drop_first() =~= areas.drop_first().push(a));
        lemma_frame_at_push(areas.drop_first(), a, vpn);
        if spec_area_match(areas.first(), vpn) {
            assert(spec_frame_at_rec(areas.push(a), vpn) == Some(
                areas.first().data_frames@[vpn - areas.first().spec_start()].unwrap().bytes@,
            ));
        } else {
            assert(spec_frame_at_rec(areas.push(a), vpn) == spec_frame_at_rec(
                areas.drop_first().push(a),
                vpn,
            ));
            assert(spec_frame_at_rec(areas, vpn) == spec_frame_at_rec(areas.drop_first(), vpn));
        }
    }
}

/// A successful lookup pins down an owning region.
proof fn lemma_frame_at_some(areas: Seq<MapArea>, vpn: u64)
    requires
        spec_frame_at_rec(areas, vpn) is Some,
    ensures
        exists|i: int| 0 <= i < areas.len() && spec_area_match(#[trigger] areas[i], vpn),
    decreases areas.len(),
{
    if spec_area_match(areas.first(), vpn) {
        assert(spec_area_match(areas[0], vpn));
    } else {
        lemma_frame_at_some(areas.drop_first(), vpn);
        let i = choose|i: int|
            0 <= i < areas.drop_first().len() && spec_area_match(
                #[trigger] areas.drop_first()[i],
                vpn,
            );
        assert(spec_area_match(areas[i + 1], vpn));
    }
}

/// An address space: one page table plus the regions mapped through it.
pub struct MemorySet {
    pub page_table: PageTable,
    pub areas: Vec<MapArea>,
}

impl MemorySet {
    /// Structural invariant: a well-formed table and regions, and every
    /// owned frame installed in the table under the region's
    /// permissions.
    pub open spec fn wf(&self) -> bool {
        &&& self.page_table.wf()
        &&& forall|i: int| 0 <= i < self.areas@.len() ==> (#[trigger] self.areas@[i]).wf()
        &&& forall|i: int, j: int|
            0 <= i < self.areas@.len() && 0 <= j < self.areas@[i].data_frames@.len()
                && self.areas@[i].map_type is Framed && (#[trigger] self.areas@[i].data_frames@[j])
                is Some ==> self.page_table.spec_mapping(
                ((self.areas@[i].spec_start() + j) as u64),
            ) == Some(
                spec_pte(
                    self.areas@[i].data_frames@[j].unwrap().ppn.0,
                    spec_with_valid(self.areas@[i].map_perm),
                ),
            )
    }

    /// The bytes of the frame backing page `vpn`, if a region owns one.
    pub open spec fn spec_frame_at(&self, vpn: u64) -> Option<Seq<u8>> {
        spec_frame_at_rec(self.areas@, vpn)
    }

    /// The byte an application sees at virtual address `va`, if backed.
    pub open spec fn spec_user_byte(&self, va: u64) -> Option<u8> {
        match self.spec_frame_at(va / PAGE_SIZE) {
            Some(b) => Some(b[(va % PAGE_SIZE) as int]),
            None => None,
        }
    }

    /// An empty address space over a fresh root frame.
    pub fn new_bare(a: &mut StackFrameAllocator) -> (r: Result<MemorySet, KernelError>)
        requires
            alloc_wf(old(a)@),
        ensures
            alloc_wf(final(a)@),
            final(a)@.end == old(a)@.end,
            free_frames(final(a)@) + 1 >= free_frames(old(a)@),
            r is Ok <==> free_frames(old(a)@) > 0,
            r is Err ==> final(a)@ == old(a)@,
            match r {
                Ok(ms) => {
                    &&& ms.wf()
                    &&& ms.areas@.len() == 0
                    &&& free_frames(final(a)@) == free_frames(old(a)@) - 1
                    &&& forall|vpn: u64| ms.page_table.spec_translate(vpn) is None
                    &&& forall|vpn: u64| ms.spec_frame_at(vpn) is None
                },
                Err(e) => e == KernelError::OutOfFrames,
            },
    {
        match PageTable::new(a) {
            Ok(page_table) => Ok(MemorySet { page_table, areas: Vec::new() }),
            Err(e) => Err(e),
        }
    }

    /// The control-register token of this address space.
    pub fn token(&self) -> (r: u64)
        requires
            self.wf(),
        ensures
            r == spec_satp_token(self.page_table.spec_root_ppn()),
            r % PPN_BOUND == self.page_table.spec_root_ppn(),
    {
        self.page_table.token()
    }

    /// Read-only lookup through the page table.
    pub fn translate(&self, vpn: VirtPageNum) -> (r: Option<PageTableEntry>)
        requires
            self.wf(),
        ensures
            r == self.page_table.spec_translate(vpn.0),
    {
        self.page_table.translate(vpn)
    }

    /// Map a fresh region and copy `data` into its front, then adopt it.
    pub fn push(&mut self, a: &mut StackFrameAllocator, map_area: MapArea, data: Option<&Vec<u8>>)
        -> (r: Result<(), KernelError>)
        requires
            old(self).wf(),
            alloc_wf(old(a)@),
            map_area.wf(),
            data is Some ==> map_area.map_type is Framed,
            forall|j: int|
                0 <= j < map_area.data_frames@.len() ==> (#[trigger] map_area.data_frames@[j])
                    is None,
            data matches Some(d) ==> d@.len() <= map_area.spec_len() * PAGE_SIZE,
        ensures
            final(self).wf(),
            alloc_wf(final(a)@),
            final(a)@.end == old(a)@.end,
            final(self).page_table.spec_root_ppn() == old(self).page_table.spec_root_ppn(),
            forall|w: u64|
                w < VPN_LIMIT && !map_area.vpn_range.contains(w) ==> final(self).page_table.spec_mapping(w) == old(self).page_table.spec_mapping(w),
            forall|w: u64|
                w < VPN_LIMIT && old(self).page_table.spec_mapping(w) is Some ==> final(self).page_table.spec_mapping(w) == old(self).page_table.spec_mapping(w),
            r is Err ==> final(self).areas@ == old(self).areas@,
            r is Err ==> r == Err::<(), KernelError>(KernelError::AlreadyMapped) || r == Err::<
                (),
                KernelError,
            >(KernelError::OutOfFrames),
            r == Err::<(), KernelError>(KernelError::OutOfFrames) ==> free_frames(final(a)@) == 0,
            (free_frames(old(a)@) >= 3 * map_area.spec_len() && forall|w: u64|
                map_area.vpn_range.contains(w) ==> old(self).page_table.spec_mapping(w) is None)
                ==> r is Ok,
            free_frames(final(a)@) + 3 * map_area.spec_len() >= free_frames(old(a)@),
            r == Err::<(), KernelError>(KernelError::AlreadyMapped) ==> exists|w: u64|
                map_area.vpn_range.contains(w) && old(self).page_table.spec_mapping(w) is Some,
            r is Ok ==> ({
                let n = old(self).areas@.len() as int;
                &&& final(self).areas@.len() == n + 1
                &&& forall|i: int| 0 <= i < n ==> final(self).areas@[i] == old(self).areas@[i]
                &&& final(self).areas@[n].vpn_range == map_area.vpn_range
                &&& final(self).areas@[n].map_type == map_area.map_type
                &&& final(self).areas@[n].map_perm == map_area.map_perm
                &&& forall|w: u64|
                    map_area.vpn_range.contains(w) ==> (#[trigger] final(self).page_table.spec_mapping(w)) is Some && old(self).page_table.spec_mapping(w)
                        is None
                &&& map_area.map_type is Identical ==> forall|w: u64|
                    map_area.vpn_range.contains(w) ==> final(self).page_table.spec_mapping(w)
                        == Some(spec_pte(w, spec_with_valid(map_area.map_perm)))
                &&& map_area.map_type is Framed ==> forall|j: int|
                    0 <= j < map_area.spec_len() ==> (#[trigger] final(self).areas@[n].data_frames@[j])
                        is Some
                &&& map_area.map_type is Framed ==> forall|p: int|
                    0 <= p < map_area.spec_len() ==> #[trigger] final(self).spec_frame_at(
                        ((map_area.spec_start() + p) as u64),
                    ) == Some(
                        spec_copy_page(
                            spec_zero_page(),
                            match data {
                                Some(d) => d@,
                                None => Seq::empty(),
                            },
                            p,
                        ),
                    )
                &&& forall|w: u64|
                    !map_area.vpn_range.contains(w) ==> final(self).spec_frame_at(w) == old(self).spec_frame_at(w)
            }),
    {
        let ghost self0 = *old(self);
        let mut area = map_area;
        match area.map(&mut self.page_table, a) {
            Ok(()) => {},
            Err(e) => {
                return Err(e);
            },
        }
        let ghost area_mapped = area;
        match data {
            Some(d) => {
                proof {
                    if d@.len() > 0 {
                        assert((d@.len() - 1) / 4096 < area.spec_len()) by (nonlinear_arith)
                            requires
                                d@.len() <= area.spec_len() * 4096,
                                d@.len() >= 1,
                        ;
                    }
                    assert forall|p: int|
                        0 <= p < spec_pages_touched(d@.len()) implies self.page_table.spec_mapping(
                        ((area.spec_start() + p) as u64),
                    ) is Some && (#[trigger] area.data_frames@[p]) is Some by {
                        let w = (area.spec_start() + p) as u64;
                        assert(area.vpn_range.contains(w));
                        assert(self.page_table.spec_mapping(w) == area.spec_expected_pte(w)
                            && area.spec_expected_pte(w) is Some);
                    };
                }
                match area.copy_data(&self.page_table, d) {
                    Ok(()) => {
                    },
                    Err(e) => {
                        proof {
                            assert(false);
                        }
                        return Err(e);
                    },
                }
            },
            None => {},
        }
        proof {
            assert forall|w: u64| map_area.vpn_range.contains(w) implies area.spec_expected_pte(w)
                == area_mapped.spec_expected_pte(w) by {
                if area.map_type is Framed {
                    assert(option_ppn(area.data_frames@[w - area.spec_start()]) == option_ppn(
                        area_mapped.data_frames@[w - area.spec_start()],
                    ));
                }
            };
        }
        let ghost frame_rows = self.areas@;
        self.areas.push(area);
        proof {
            assert(self.areas@ =~= frame_rows.push(area));
            assert forall|w: u64|
                !map_area.vpn_range.contains(w) implies spec_frame_at_rec(self.areas@, w)
                == spec_frame_at_rec(self0.areas@, w) by {
                lemma_frame_at_push(self0.areas@, area, w);
            };
            assert forall|w: u64|
                map_area.vpn_range.contains(w) implies spec_frame_at_rec(self0.areas@, w)
                is None by {
                if spec_frame_at_rec(self0.areas@, w) is Some {
                    lemma_frame_at_some(self0.areas@, w);
                    let i = choose|i: int|
                        0 <= i < self0.areas@.len() && spec_area_match(
                            #[trigger] self0.areas@[i],
                            w,
                        );
                    assert(self0.page_table.spec_mapping(w) is Some);
                }
            };
            if area.map_type is Framed {
                assert forall|p: int| 0 <= p < map_area.spec_len() implies #[trigger] spec_frame_at_rec(
                    self.areas@,
                    ((map_area.spec_start() + p) as u64),
                ) == Some(
                    spec_copy_page(
                        spec_zero_page(),
                        match data {
                            Some(d) => d@,
                            None => Seq::empty(),
                        },
                        p,
                    ),
                ) by {
                    let w = (map_area.spec_start() + p) as u64;
                    lemma_frame_at_push(self0.areas@, area, w);
                    assert(spec_area_match(area, w));
                    let t = area.data_frames@[p].unwrap();
                    match data {
                        Some(d) => {
                            assert(area_mapped.data_frames@[p] matches Some(t0) && t0.bytes@
                                == spec_zero_page());
                            assert(t.bytes@ == spec_copy_page(spec_zero_page(), d@, p));
                        },
                        None => {
                            assert(t.bytes@ == spec_zero_page());
                            assert(t.bytes@ =~= spec_copy_page(
                                spec_zero_page(),
                                Seq::empty(),
                                p,
                            ));
                        },
                    }
                };
            }
        }
        Ok(())
    }

    /// Map the shared trampoline page: the highest virtual page, backed
    /// by the fixed physical page holding the switch code, executable
    /// but not user-accessible. It belongs to no region.
    pub fn map_trampoline(&mut self, a: &mut StackFrameAllocator, strampoline: PhysAddr) -> (r:
        Result<(), KernelError>)
        requires
            old(self).wf(),
            alloc_wf(old(a)@),
            strampoline.0 % PAGE_SIZE == 0,
            strampoline.0 < PA_BOUND,
        ensures
            final(self).wf(),
            alloc_wf(final(a)@),
            final(a)@.end == old(a)@.end,
            final(self).areas@ == old(self).areas@,
            final(self).page_table.spec_root_ppn() == old(self).page_table.spec_root_ppn(),
            forall|w: u64|
                w < VPN_LIMIT && w != TRAMPOLINE_VPN ==> final(self).page_table.spec_mapping(w)
                    == old(self).page_table.spec_mapping(w),
            r is Ok <==> (old(self).page_table.spec_mapping(TRAMPOLINE_VPN) is None
                && free_frames(old(a)@) >= old(self).page_table.spec_frames_needed(
                TRAMPOLINE_VPN,
            )),
            r is Ok ==> final(self).page_table.spec_mapping(TRAMPOLINE_VPN) == Some(
                spec_pte(strampoline.0 / PAGE_SIZE, spec_with_valid(MAP_PERM_R | MAP_PERM_X)),
            ),
            r is Err ==> final(self).page_table.spec_mapping(TRAMPOLINE_VPN) == old(
                self,
            ).page_table.spec_mapping(TRAMPOLINE_VPN),
            free_frames(final(a)@) <= free_frames(old(a)@),
            r == Err::<(), KernelError>(KernelError::OutOfFrames) ==> free_frames(final(a)@) == 0,
            r is Err ==> r == Err::<(), KernelError>(KernelError::AlreadyMapped) || r == Err::<
                (),
                KernelError,
            >(KernelError::OutOfFrames),
            r == Err::<(), KernelError>(KernelError::AlreadyMapped) <==> old(
                self,
            ).page_table.spec_mapping(TRAMPOLINE_VPN) is Some,
            free_frames(final(a)@) + 2 >= free_frames(old(a)@),
    {
        let ppn = strampoline.floor();
        self.page_table.map(a, VirtPageNum(TRAMPOLINE_VPN), ppn, MAP_PERM_R | MAP_PERM_X)
    }

    /// Map an additional framed region into this (kernel) address
    /// space; used for per-task kernel stacks.
    pub fn insert_framed_area(
        &mut self,
        a: &mut StackFrameAllocator,
        start_va: VirtAddr,
        end_va: VirtAddr,
        permission: u8,
    ) -> (r: Result<(), KernelError>)
        requires
            old(self).wf(),
            alloc_wf(old(a)@),
            start_va.0 <= end_va.0,
            end_va.0 <= VPN_LIMIT * PAGE_SIZE,
        ensures
            final(self).wf(),
            alloc_wf(final(a)@),
            final(a)@.end == old(a)@.end,
            final(self).page_table.spec_root_ppn() == old(self).page_table.spec_root_ppn(),
            forall|w: u64|
                w < VPN_LIMIT && !(start_va.0 / PAGE_SIZE <= w < (end_va.0 + PAGE_SIZE - 1) / (
                PAGE_SIZE as int)) ==> final(self).page_table.spec_mapping(w) == old(self).page_table.spec_mapping(w),
            r is Ok ==> forall|w: u64|
                start_va.0 / PAGE_SIZE <= w < (end_va.0 + PAGE_SIZE - 1) / (PAGE_SIZE as int)
                    ==> ((#[trigger] final(self).page_table.spec_mapping(w)) matches Some(pte)
                    && pte.spec_flags() == spec_with_valid(permission)),
            r is Ok ==> forall|w: u64|
                start_va.0 / PAGE_SIZE <= w < (end_va.0 + PAGE_SIZE - 1) / (PAGE_SIZE as int)
                    ==> #[trigger] final(self).spec_frame_at(w) == Some(spec_zero_page()),
            forall|w: u64|
                !(start_va.0 / PAGE_SIZE <= w < (end_va.0 + PAGE_SIZE - 1) / (PAGE_SIZE as int))
                    ==> final(self).spec_frame_at(w) == old(self).spec_frame_at(w),
            (free_frames(old(a)@) >= 3 * ((end_va.0 + PAGE_SIZE - 1) / (PAGE_SIZE as int)
                - start_va.0 / PAGE_SIZE) && forall|w: u64|
                start_va.0 / PAGE_SIZE <= w < (end_va.0 + PAGE_SIZE - 1) / (PAGE_SIZE as int)
                    ==> (#[trigger] old(self).page_table.spec_mapping(w)) is None) ==> r is Ok,
            r is Err ==> r == Err::<(), KernelError>(KernelError::AlreadyMapped) || r == Err::<
                (),
                KernelError,
            >(KernelError::OutOfFrames),
            r == Err::<(), KernelError>(KernelError::OutOfFrames) ==> free_frames(final(a)@) == 0,
            r == Err::<(), KernelError>(KernelError::AlreadyMapped) ==> exists|w: u64|
                start_va.0 / PAGE_SIZE <= w < (end_va.0 + PAGE_SIZE - 1) / (PAGE_SIZE as int)
                    && (#[trigger] old(self).page_table.spec_mapping(w)) is Some,
            free_frames(final(a)@) + 3 * ((end_va.0 + PAGE_SIZE - 1) / (PAGE_SIZE as int)
                - start_va.0 / PAGE_SIZE) >= free_frames(old(a)@),
    {
        let ghost self0 = *old(self);
        let area = MapArea::new(start_va, end_va, MapType::Framed, permission);
        let r = self.push(a, area, None);
        proof {
            assert forall|w: u64|
                w < VPN_LIMIT && !(start_va.0 / PAGE_SIZE <= w < (end_va.0 + PAGE_SIZE - 1) / (
                PAGE_SIZE as int)) implies self.page_table.spec_mapping(w)
                == self0.page_table.spec_mapping(w) by {
                assert(!area.vpn_range.contains(w));
            };
            if r is Ok {
                lemma_area_pte_flags(&self, self0.areas@.len() as int, area);
                assert forall|w: u64|
                    start_va.0 / PAGE_SIZE <= w < (end_va.0 + PAGE_SIZE - 1) / (
                    PAGE_SIZE as int) implies ((#[trigger] self.page_table.spec_mapping(w))
                    matches Some(pte) && pte.spec_flags() == spec_with_valid(permission)) by {
                    assert(area.vpn_range.contains(w));
                };
                assert forall|w: u64|
                    start_va.0 / PAGE_SIZE <= w < (end_va.0 + PAGE_SIZE - 1) / (
                    PAGE_SIZE as int) implies #[trigger] self.spec_frame_at(w) == Some(
                    spec_zero_page(),
                ) by {
                    assert(area.vpn_range.contains(w));
                    let p = w - area.spec_start();
                    assert(self.spec_frame_at(((area.spec_start() + p) as u64)) == Some(
                        spec_copy_page(spec_zero_page(), Seq::empty(), p),
                    ));
                    assert(spec_copy_page(spec_zero_page(), Seq::empty(), p)
                        =~= spec_zero_page());
                };
            }
            assert forall|w: u64|
                !(start_va.0 / PAGE_SIZE <= w < (end_va.0 + PAGE_SIZE - 1) / (
                PAGE_SIZE as int)) implies self.spec_frame_at(w) == self0.spec_frame_at(w) by {
                assert(!area.vpn_range.contains(w));
            };
            if free_frames(old(a)@) >= 3 * ((end_va.0 + PAGE_SIZE - 1) / (PAGE_SIZE as int)
                - start_va.0 / PAGE_SIZE) && (forall|w: u64|
                start_va.0 / PAGE_SIZE <= w < (end_va.0 + PAGE_SIZE - 1) / (PAGE_SIZE as int)
                    ==> (#[trigger] self0.page_table.spec_mapping(w)) is None) {
                assert forall|w: u64| area.vpn_range.contains(w) implies
                    self0.page_table.spec_mapping(w) is None by {
                    assert(area.spec_start() <= w < area.spec_end());
                };
                assert(free_frames(old(a)@) >= 3 * area.spec_len());
                assert(r is Ok);
            }
            if r == Err::<(), KernelError>(KernelError::AlreadyMapped) {
                let w = choose|w: u64|
                    area.vpn_range.contains(w) && self0.page_table.spec_mapping(w) is Some;
                assert(start_va.0 / PAGE_SIZE <= w < (end_va.0 + PAGE_SIZE - 1) / (
                PAGE_SIZE as int) && self0.page_table.spec_mapping(w) is Some);
            }
        }
        r
    }
}


/// The kernel's boot-time memory layout: page-aligned section
/// boundaries delivered by the boot contract, the physical address of
/// the trampoline code page, and the memory-mapped device ranges.
pub struct KernelLayout {
    pub stext: u64,
    pub etext: u64,
    pub srodata: u64,
    pub erodata: u64,
    pub sdata: u64,
    pub edata: u64,
    pub sbss_with_stack: u64,
    pub ebss: u64,
    pub ekernel: u64,
    pub memory_end: u64,
    pub strampoline: u64,
    pub mmio: Vec<(u64, u64)>,
}

/// The boot contract: aligned, ascending sections below a bounded
/// physical ceiling, and aligned, ascending device ranges below the
/// kernel image.
pub open spec fn layout_wf(l: &KernelLayout) -> bool {
    &&& l.stext % PAGE_SIZE == 0
    &&& l.etext % PAGE_SIZE == 0
    &&& l.srodata % PAGE_SIZE == 0
    &&& l.erodata % PAGE_SIZE == 0
    &&& l.sdata % PAGE_SIZE == 0
    &&& l.edata % PAGE_SIZE == 0
    &&& l.sbss_with_stack % PAGE_SIZE == 0
    &&& l.ebss % PAGE_SIZE == 0
    &&& l.ekernel % PAGE_SIZE == 0
    &&& l.memory_end % PAGE_SIZE == 0
    &&& l.strampoline % PAGE_SIZE == 0
    &&& l.strampoline < PA_BOUND
    &&& 0 < l.stext <= l.etext <= l.srodata <= l.erodata <= l.sdata <= l.edata
        <= l.sbss_with_stack <= l.ebss <= l.ekernel <= l.memory_end
    &&& l.memory_end <= 0x10_0000_0000
    &&& forall|i: int|
        0 <= i < l.mmio@.len() ==> {
            &&& (#[trigger] l.mmio@[i]).0 % PAGE_SIZE == 0
            &&& l.mmio@[i].1 % PAGE_SIZE == 0
            &&& l.mmio@[i].0 + l.mmio@[i].1 <= l.stext
            &&& (i + 1 < l.mmio@.len() ==> l.mmio@[i].0 + l.mmio@[i].1 <= l.mmio@[i + 1].0)
        }
}

/// Device ranges are pairwise disjoint: each ends before any later one
/// begins.
proof fn lemma_mmio_ordered(l: &KernelLayout, k: int, i: int)
    requires
        layout_wf(l),
        0 <= k < i < l.mmio@.len(),
    ensures
        l.mmio@[k].0 + l.mmio@[k].1 <= l.mmio@[i].0,
    decreases i - k,
{
    if k + 1 == i {
    } else {
        lemma_mmio_ordered(l, k + 1, i);
        assert(l.mmio@[k].0 + l.mmio@[k].1 <= l.mmio@[k + 1].0);
        assert(l.mmio@[k + 1].0 <= l.mmio@[k + 1].0 + l.mmio@[k + 1].1);
    }
}

/// `w` lies in one of the first `n` section page ranges.
pub open spec fn spec_sections_cover(secs: Seq<(u64, u64, u8)>, n: int, w: u64) -> bool {
    exists|k: int| 0 <= k < n && (#[trigger] secs[k]).0 / PAGE_SIZE <= w < secs[k].1 / PAGE_SIZE
}

/// `w` lies in one of the first `n` device page ranges.
pub open spec fn spec_mmio_cover(mmio: Seq<(u64, u64)>, n: int, w: u64) -> bool {
    exists|k: int|
        0 <= k < n && (#[trigger] mmio[k]).0 / PAGE_SIZE <= w < (mmio[k].0 + mmio[k].1) / (
        PAGE_SIZE as int)
}

/// The five identity-mapped kernel section ranges with their
/// permissions, in ascending order.
pub open spec fn spec_kernel_sections(l: &KernelLayout) -> Seq<(u64, u64, u8)> {
    seq![
        (l.stext, l.etext, MAP_PERM_R | MAP_PERM_X),
        (l.srodata, l.erodata, MAP_PERM_R),
        (l.sdata, l.edata, MAP_PERM_R | MAP_PERM_W),
        (l.sbss_with_stack, l.ebss, MAP_PERM_R | MAP_PERM_W),
        (l.ekernel, l.memory_end, MAP_PERM_R | MAP_PERM_W),
    ]
}

/// In a chain of ranges where each ends before the next begins, every
/// earlier range ends before every later one begins.
proof fn lemma_sections_chain(secs: Seq<(u64, u64, u8)>, k: int, i: int)
    requires
        forall|j: int| 0 <= j < secs.len() ==> (#[trigger] secs[j]).0 <= secs[j].1,
        forall|j: int| 0 <= j + 1 < secs.len() ==> (#[trigger] secs[j]).1 <= secs[j + 1].0,
        0 <= k < i < secs.len(),
    ensures
        secs[k].1 <= secs[i].0,
    decreases i - k,
{
    if k + 1 < i {
        lemma_sections_chain(secs, k + 1, i);
        assert(secs[k].1 <= secs[k + 1].0);
        assert(secs[k + 1].0 <= secs[k + 1].1);
    }
}

/// Total pages of the first `n` kernel sections.
pub open spec fn spec_sections_pages(secs: Seq<(u64, u64, u8)>, n: int) -> int
    decreases n,
{
    if n <= 0 {
        0
    } else {
        spec_sections_pages(secs, n - 1) + (secs[n - 1].1 / PAGE_SIZE - secs[n - 1].0
            / PAGE_SIZE)
    }
}

/// Total pages of the first `n` device ranges.
pub open spec fn spec_mmio_pages(mmio: Seq<(u64, u64)>, n: int) -> int
    decreases n,
{
    if n <= 0 {
        0
    } else {
        spec_mmio_pages(mmio, n - 1) + ((mmio[n - 1].0 + mmio[n - 1].1) / (PAGE_SIZE as int)
            - mmio[n - 1].0 / PAGE_SIZE)
    }
}

/// A generous upper bound on the frames `new_kernel` consumes: one for
/// the root, two for the trampoline walk, and at most three (two
/// intermediate nodes and the leaf write budget) per mapped page.
pub open spec fn spec_new_kernel_frames(l: &KernelLayout) -> int {
    3 + 3 * spec_sections_pages(spec_kernel_sections(l), 5) + 3 * spec_mmio_pages(
        l.mmio@,
        l.mmio@.len() as int,
    )
}

/// Each kernel section spans a non-negative page count.
proof fn lemma_kernel_sections_facts(l: &KernelLayout)
    requires
        layout_wf(l),
    ensures
        forall|j: int|
            0 <= j < 5 ==> (#[trigger] spec_kernel_sections(l)[j]).0 / PAGE_SIZE
                <= spec_kernel_sections(l)[j].1 / PAGE_SIZE,
{
    assert forall|j: int|
        0 <= j < 5 implies (#[trigger] spec_kernel_sections(l)[j]).0 / PAGE_SIZE
        <= spec_kernel_sections(l)[j].1 / PAGE_SIZE by {
        let secs = spec_kernel_sections(l);
        if j == 0 {
            vstd::arithmetic::div_mod::lemma_div_is_ordered(
                l.stext as int,
                l.etext as int,
                PAGE_SIZE as int,
            );
        } else if j == 1 {
            vstd::arithmetic::div_mod::lemma_div_is_ordered(
                l.srodata as int,
                l.erodata as int,
                PAGE_SIZE as int,
            );
        } else if j == 2 {
            vstd::arithmetic::div_mod::lemma_div_is_ordered(
                l.sdata as int,
                l.edata as int,
                PAGE_SIZE as int,
            );
        } else if j == 3 {
            vstd::arithmetic::div_mod::lemma_div_is_ordered(
                l.sbss_with_stack as int,
                l.ebss as int,
                PAGE_SIZE as int,
            );
        } else {
            vstd::arithmetic::div_mod::lemma_div_is_ordered(
                l.ekernel as int,
                l.memory_end as int,
                PAGE_SIZE as int,
            );
        }
    };
}

/// With non-negative section spans, the running page count grows.
proof fn lemma_sections_pages_mono(secs: Seq<(u64, u64, u8)>, i: int, n: int)
    requires
        0 <= i <= n <= secs.len(),
        forall|j: int|
            0 <= j < secs.len() ==> (#[trigger] secs[j]).0 / PAGE_SIZE <= secs[j].1 / PAGE_SIZE,
    ensures
        spec_sections_pages(secs, i) <= spec_sections_pages(secs, n),
    decreases n,
{
    if i < n {
        lemma_sections_pages_mono(secs, i, n - 1);
    }
}

/// The running device page count grows.
proof fn lemma_mmio_pages_mono(mmio: Seq<(u64, u64)>, i: int, n: int)
    requires
        0 <= i <= n <= mmio.len(),
    ensures
        spec_mmio_pages(mmio, i) <= spec_mmio_pages(mmio, n),
    decreases n,
{
    if i < n {
        lemma_mmio_pages_mono(mmio, i, n - 1);
        vstd::arithmetic::div_mod::lemma_div_is_ordered(
            mmio[n - 1].0 as int,
            (mmio[n - 1].0 + mmio[n - 1].1) as int,
            PAGE_SIZE as int,
        );
    }
}

/// The entry an identity-mapped kernel page carries.
pub open spec fn spec_kernel_pte(w: u64, perm: u8) -> Option<PageTableEntry> {
    Some(spec_pte(w, spec_with_valid(perm)))
}

impl MemorySet {
    /// The kernel address space: the trampoline page plus identity
    /// mappings of the kernel's sections, the free physical memory, and
    /// the device ranges, each under its own permissions. Built exactly
    /// once at boot.
    #[verifier::rlimit(100)]
    pub fn new_kernel(a: &mut StackFrameAllocator, layout: &KernelLayout) -> (r: Result<
        MemorySet,
        KernelError,
    >)
        requires
            alloc_wf(old(a)@),
            layout_wf(layout),
        ensures
            alloc_wf(final(a)@),
            final(a)@.end == old(a)@.end,
            free_frames(final(a)@) + spec_new_kernel_frames(layout) >= free_frames(old(a)@),
            match r {
                Ok(ms) => {
                    &&& ms.wf()
                    &&& ms.page_table.spec_mapping(TRAMPOLINE_VPN) == spec_kernel_pte(
                        layout.strampoline / PAGE_SIZE,
                        MAP_PERM_R | MAP_PERM_X,
                    )
                    &&& forall|w: u64|
                        layout.stext / PAGE_SIZE <= w < layout.etext / PAGE_SIZE
                            ==> #[trigger] ms.page_table.spec_mapping(w) == spec_kernel_pte(
                            w,
                            MAP_PERM_R | MAP_PERM_X,
                        )
                    &&& forall|w: u64|
                        layout.srodata / PAGE_SIZE <= w < layout.erodata / PAGE_SIZE
                            ==> #[trigger] ms.page_table.spec_mapping(w) == spec_kernel_pte(
                            w,
                            MAP_PERM_R,
                        )
                    &&& forall|w: u64|
                        layout.sdata / PAGE_SIZE <= w < layout.edata / PAGE_SIZE
                            ==> #[trigger] ms.page_table.spec_mapping(w) == spec_kernel_pte(
                            w,
                            MAP_PERM_R | MAP_PERM_W,
                        )
                    &&& forall|w: u64|
                        layout.sbss_with_stack / PAGE_SIZE <= w < layout.ebss / PAGE_SIZE
                            ==> #[trigger] ms.page_table.spec_mapping(w) == spec_kernel_pte(
                            w,
                            MAP_PERM_R | MAP_PERM_W,
                        )
                    &&& forall|w: u64|
                        layout.ekernel / PAGE_SIZE <= w < layout.memory_end / PAGE_SIZE
                            ==> #[trigger] ms.page_table.spec_mapping(w) == spec_kernel_pte(
                            w,
                            MAP_PERM_R | MAP_PERM_W,
                        )
                    &&& forall|i: int, w: u64|
                        #![trigger ms.page_table.spec_mapping(w), layout.mmio@[i]]
                        0 <= i < layout.mmio@.len() && layout.mmio@[i].0 / PAGE_SIZE <= w < (
                        layout.mmio@[i].0 + layout.mmio@[i].1) / (PAGE_SIZE as int)
                            ==> ms.page_table.spec_mapping(w) == spec_kernel_pte(
                            w,
                            MAP_PERM_R | MAP_PERM_W,
                        )
                    &&& forall|w: u64|
                        w < VPN_LIMIT && w != TRAMPOLINE_VPN && !spec_sections_cover(
                            spec_kernel_sections(layout),
                            5,
                            w,
                        ) && !spec_mmio_cover(layout.mmio@, layout.mmio@.len() as int, w) ==> (
                        #[trigger] ms.page_table.spec_mapping(w)) is None
                },
                Err(e) => e == KernelError::OutOfFrames && free_frames(final(a)@) == 0,
            },
    {
        proof {
            lemma_kernel_sections_facts(layout);
            lemma_sections_pages_mono(spec_kernel_sections(layout), 0, 5);
            lemma_mmio_pages_mono(layout.mmio@, 0, layout.mmio@.len() as int);
        }
        let mut ms = match MemorySet::new_bare(a) {
            Ok(ms) => ms,
            Err(e) => {
                proof {
                    assert(free_frames(a@) == 0);
                }
                return Err(e);
            },
        };
        let ghost ms_bare = ms;
        match ms.map_trampoline(a, PhysAddr(layout.strampoline)) {
            Ok(()) => {},
            Err(e) => {
                proof {
                    assert(ms_bare.page_table.spec_mapping(TRAMPOLINE_VPN) is None);
                    assert(e == KernelError::OutOfFrames);
                }
                return Err(e);
            },
        }
        let ghost tramp_pte = spec_kernel_pte(
            layout.strampoline / PAGE_SIZE,
            MAP_PERM_R | MAP_PERM_X,
        );
        let sections: [(u64, u64, u8); 5] = [
            (layout.stext, layout.etext, MAP_PERM_R | MAP_PERM_X),
            (layout.srodata, layout.erodata, MAP_PERM_R),
            (layout.sdata, layout.edata, MAP_PERM_R | MAP_PERM_W),
            (layout.sbss_with_stack, layout.ebss, MAP_PERM_R | MAP_PERM_W),
            (layout.ekernel, layout.memory_end, MAP_PERM_R | MAP_PERM_W),
        ];
        let mut si: usize = 0;
        while si < 5
            invariant
                alloc_wf(a@),
                a@.end == old(a)@.end,
                ms.wf(),
                si <= 5,
                layout_wf(layout),
                sections@ =~= spec_kernel_sections(layout),
                tramp_pte == spec_kernel_pte(
                    layout.strampoline / PAGE_SIZE,
                    MAP_PERM_R | MAP_PERM_X,
                ),
                ms.page_table.spec_mapping(TRAMPOLINE_VPN) == tramp_pte,
                forall|k: int, w: u64|
                    #![trigger ms.page_table.spec_mapping(w), sections@[k]]
                    0 <= k < si && sections@[k].0 / PAGE_SIZE <= w < sections@[k].1 / PAGE_SIZE
                        ==> ms.page_table.spec_mapping(w) == spec_kernel_pte(
                        w,
                        sections@[k].2,
                    ),
                forall|w: u64|
                    w < VPN_LIMIT && w != TRAMPOLINE_VPN && !spec_sections_cover(
                        sections@,
                        si as int,
                        w,
                    ) ==> (#[trigger] ms.page_table.spec_mapping(w)) is None,
                free_frames(a@) + 3 + 3 * spec_sections_pages(sections@, si as int)
                    >= free_frames(old(a)@),
            decreases 5 - si,
        {
            let (s_lo, s_hi, s_perm) = sections[si];
            let ghost ms_before = ms;
            let area = MapArea::new(
                VirtAddr(s_lo),
                VirtAddr(s_hi),
                MapType::Identical,
                s_perm,
            );
            let ghost garea = area;
            proof {
                assert(garea.spec_start() == s_lo / PAGE_SIZE);
                assert(garea.spec_end() == s_hi / PAGE_SIZE) by {
                    assert(s_hi % PAGE_SIZE == 0);
                    assert((s_hi + PAGE_SIZE - 1) / (PAGE_SIZE as int) == s_hi / PAGE_SIZE) by {
                        vstd::arithmetic::div_mod::lemma_fundamental_div_mod(
                            s_hi as int,
                            PAGE_SIZE as int,
                        );
                        vstd::arithmetic::div_mod::lemma_div_plus_one(
                            s_hi as int,
                            PAGE_SIZE as int,
                        );
                        assert((s_hi + PAGE_SIZE - 1) / (PAGE_SIZE as int) == (s_hi as int
                            + (PAGE_SIZE - 1)) / (PAGE_SIZE as int));
                        vstd::arithmetic::div_mod::lemma_hoist_over_denominator(
                            s_hi as int,
                            (PAGE_SIZE - 1) as int,
                            PAGE_SIZE as nat,
                        );
                        assert((PAGE_SIZE - 1) as int / (PAGE_SIZE as int) == 0);
                    };
                };
                assert(!garea.vpn_range.contains(TRAMPOLINE_VPN)) by {
                    vstd::arithmetic::div_mod::lemma_div_is_ordered(
                        s_hi as int,
                        0x10_0000_0000,
                        PAGE_SIZE as int,
                    );
                };
            }
            match ms.push(a, area, None) {
                Ok(()) => {},
                Err(e) => {
                    proof {
                        if e == KernelError::AlreadyMapped {
                            let w = choose|w: u64|
                                garea.vpn_range.contains(w)
                                    && ms_before.page_table.spec_mapping(w) is Some;
                            assert(w < VPN_LIMIT);
                            assert(spec_sections_cover(sections@, si as int, w));
                            let kk = choose|k: int|
                                0 <= k < si && (#[trigger] sections@[k]).0 / PAGE_SIZE <= w
                                    < sections@[k].1 / PAGE_SIZE;
                            assert(sections@[kk].1 <= sections@[si as int].0);
                            vstd::arithmetic::div_mod::lemma_div_is_ordered(
                                sections@[kk].1 as int,
                                sections@[si as int].0 as int,
                                PAGE_SIZE as int,
                            );
                            assert(false);
                        }
                        assert(free_frames(a@) == 0);
                        assert(sections@[si as int] == (s_lo, s_hi, s_perm));
                        assert(garea.spec_len() == s_hi / PAGE_SIZE - s_lo / PAGE_SIZE);
                        assert(spec_sections_pages(sections@, si as int + 1)
                            == spec_sections_pages(sections@, si as int) + (s_hi / PAGE_SIZE
                            - s_lo / PAGE_SIZE));
                        lemma_kernel_sections_facts(layout);
                        lemma_sections_pages_mono(sections@, si as int + 1, 5);
                        lemma_mmio_pages_mono(layout.mmio@, 0, layout.mmio@.len() as int);
                    }
                    return Err(e);
                },
            }
            proof {
                assert(ms.page_table.spec_mapping(TRAMPOLINE_VPN) == tramp_pte);
                assert(sections@[si as int] == (s_lo, s_hi, s_perm));
                assert(garea.spec_len() == s_hi / PAGE_SIZE - s_lo / PAGE_SIZE);
                assert(spec_sections_pages(sections@, si as int + 1) == spec_sections_pages(
                    sections@,
                    si as int,
                ) + (s_hi / PAGE_SIZE - s_lo / PAGE_SIZE));
                assert forall|w: u64|
                    w < VPN_LIMIT && w != TRAMPOLINE_VPN && !spec_sections_cover(
                        sections@,
                        si as int + 1,
                        w,
                    ) implies (#[trigger] ms.page_table.spec_mapping(w)) is None by {
                    assert(!garea.vpn_range.contains(w)) by {
                        if garea.vpn_range.contains(w) {
                            assert(0 <= si < si + 1 && sections@[si as int].0 / PAGE_SIZE <= w
                                < sections@[si as int].1 / PAGE_SIZE);
                        }
                    };
                    assert(!spec_sections_cover(sections@, si as int, w)) by {
                        if spec_sections_cover(sections@, si as int, w) {
                            let kk = choose|k: int|
                                0 <= k < si && (#[trigger] sections@[k]).0 / PAGE_SIZE <= w
                                    < sections@[k].1 / PAGE_SIZE;
                            assert(0 <= kk < si + 1 && sections@[kk].0 / PAGE_SIZE <= w
                                < sections@[kk].1 / PAGE_SIZE);
                        }
                    };
                    assert(ms.page_table.spec_mapping(w) == ms_before.page_table.spec_mapping(
                        w,
                    ));
                };
                assert forall|k: int, w: u64|
                    #![trigger ms.page_table.spec_mapping(w), sections@[k]]
                    0 <= k < si + 1 && sections@[k].0 / PAGE_SIZE <= w < sections@[k].1
                        / PAGE_SIZE implies ms.page_table.spec_mapping(w)
                    == spec_kernel_pte(w, sections@[k].2) by {
                    if k < si {
                        assert(ms_before.page_table.spec_mapping(w) == spec_kernel_pte(
                            w,
                            sections@[k].2,
                        ));
                        assert(!garea.vpn_range.contains(w)) by {
                            assert(sections@[k].1 <= sections@[si as int].0);
                            vstd::arithmetic::div_mod::lemma_div_is_ordered(
                                sections@[k].1 as int,
                                sections@[si as int].0 as int,
                                PAGE_SIZE as int,
                            );
                        };
                        assert(w < VPN_LIMIT);
                    } else {
                        assert(garea.vpn_range.contains(w));
                    }
                };
            }
            si = si + 1;
        }
        let ghost after_sections = ms;
        let mut mi: usize = 0;
        while mi < layout.mmio.len()
            invariant
                alloc_wf(a@),
                a@.end == old(a)@.end,
                ms.wf(),
                mi <= layout.mmio@.len(),
                layout_wf(layout),
                tramp_pte == spec_kernel_pte(
                    layout.strampoline / PAGE_SIZE,
                    MAP_PERM_R | MAP_PERM_X,
                ),
                ms.page_table.spec_mapping(TRAMPOLINE_VPN) == tramp_pte,
                forall|w: u64|
                    layout.stext / PAGE_SIZE <= w < layout.etext / PAGE_SIZE
                        ==> #[trigger] ms.page_table.spec_mapping(w) == spec_kernel_pte(
                        w,
                        MAP_PERM_R | MAP_PERM_X,
                    ),
                forall|w: u64|
                    layout.srodata / PAGE_SIZE <= w < layout.erodata / PAGE_SIZE
                        ==> #[trigger] ms.page_table.spec_mapping(w) == spec_kernel_pte(
                        w,
                        MAP_PERM_R,
                    ),
                forall|w: u64|
                    layout.sdata / PAGE_SIZE <= w < layout.edata / PAGE_SIZE
                        ==> #[trigger] ms.page_table.spec_mapping(w) == spec_kernel_pte(
                        w,
                        MAP_PERM_R | MAP_PERM_W,
                    ),
                forall|w: u64|
                    layout.sbss_with_stack / PAGE_SIZE <= w < layout.ebss / PAGE_SIZE
                        ==> #[trigger] ms.page_table.spec_mapping(w) == spec_kernel_pte(
                        w,
                        MAP_PERM_R | MAP_PERM_W,
                    ),
                forall|w: u64|
                    layout.ekernel / PAGE_SIZE <= w < layout.memory_end / PAGE_SIZE
                        ==> #[trigger] ms.page_table.spec_mapping(w) == spec_kernel_pte(
                        w,
                        MAP_PERM_R | MAP_PERM_W,
                    ),
                forall|i: int, w: u64|
                    #![trigger ms.page_table.spec_mapping(w), layout.mmio@[i]]
                    0 <= i < mi && layout.mmio@[i].0 / PAGE_SIZE <= w < (layout.mmio@[i].0
                        + layout.mmio@[i].1) / (PAGE_SIZE as int)
                        ==> ms.page_table.spec_mapping(w) == spec_kernel_pte(
                        w,
                        MAP_PERM_R | MAP_PERM_W,
                    ),
                sections@ =~= spec_kernel_sections(layout),
                forall|w: u64|
                    w < VPN_LIMIT && w != TRAMPOLINE_VPN && !spec_sections_cover(
                        sections@,
                        5,
                        w,
                    ) && !spec_mmio_cover(layout.mmio@, mi as int, w) ==> (
                    #[trigger] ms.page_table.spec_mapping(w)) is None,
                free_frames(a@) + 3 + 3 * spec_sections_pages(sections@, 5) + 3
                    * spec_mmio_pages(layout.mmio@, mi as int) >= free_frames(old(a)@),
            decreases layout.mmio@.len() - mi,
        {
            let (base, len) = layout.mmio[mi];
            let ghost ms_before = ms;
            let area = MapArea::new(
                VirtAddr(base),
                VirtAddr(base + len),
                MapType::Identical,
                MAP_PERM_R | MAP_PERM_W,
            );
            let ghost garea = area;
            proof {
                let ps = PAGE_SIZE as int;
                assert(garea.spec_start() == base / PAGE_SIZE);
                assert((base + len) % (PAGE_SIZE as int) == 0) by {
                    vstd::arithmetic::div_mod::lemma_add_mod_noop(
                        base as int,
                        len as int,
                        ps,
                    );
                };
                assert(garea.spec_end() == (base + len) as int / ps) by {
                    vstd::arithmetic::div_mod::lemma_fundamental_div_mod((base + len) as int, ps);
                    vstd::arithmetic::div_mod::lemma_hoist_over_denominator(
                        (base + len) as int,
                        (PAGE_SIZE - 1) as int,
                        PAGE_SIZE as nat,
                    );
                    assert((PAGE_SIZE - 1) as int / ps == 0);
                };
                // the device range sits below every kernel section and
                // far below the trampoline
                assert(base + len <= layout.stext);
                assert forall|w: u64| garea.vpn_range.contains(w) implies w < layout.stext
                    / PAGE_SIZE by {
                    vstd::arithmetic::div_mod::lemma_div_is_ordered(
                        (base + len) as int,
                        layout.stext as int,
                        ps,
                    );
                };
                assert(!garea.vpn_range.contains(TRAMPOLINE_VPN)) by {
                    vstd::arithmetic::div_mod::lemma_div_is_ordered(
                        (base + len) as int,
                        0x10_0000_0000,
                        ps,
                    );
                };
            }
            match ms.push(a, area, None) {
                Ok(()) => {},
                Err(e) => {
                    proof {
                        let ps = PAGE_SIZE as int;
                        if e == KernelError::AlreadyMapped {
                            let w = choose|w: u64|
                                garea.vpn_range.contains(w)
                                    && ms_before.page_table.spec_mapping(w) is Some;
                            assert(w < VPN_LIMIT && w != TRAMPOLINE_VPN);
                            assert(!spec_sections_cover(sections@, 5, w)) by {
                                if spec_sections_cover(sections@, 5, w) {
                                    let kk = choose|k: int|
                                        0 <= k < 5 && (#[trigger] sections@[k]).0 / PAGE_SIZE
                                            <= w < sections@[k].1 / PAGE_SIZE;
                                    assert(layout.stext <= sections@[kk].0);
                                    vstd::arithmetic::div_mod::lemma_div_is_ordered(
                                        layout.stext as int,
                                        sections@[kk].0 as int,
                                        ps,
                                    );
                                }
                            };
                            assert(!spec_mmio_cover(layout.mmio@, mi as int, w)) by {
                                if spec_mmio_cover(layout.mmio@, mi as int, w) {
                                    let kk = choose|k: int|
                                        0 <= k < mi && (#[trigger] layout.mmio@[k]).0
                                            / PAGE_SIZE <= w < (layout.mmio@[k].0
                                            + layout.mmio@[k].1) / (PAGE_SIZE as int);
                                    lemma_mmio_ordered(layout, kk, mi as int);
                                    vstd::arithmetic::div_mod::lemma_div_is_ordered(
                                        (layout.mmio@[kk].0 + layout.mmio@[kk].1) as int,
                                        base as int,
                                        ps,
                                    );
                                }
                            };
                            assert(false);
                        }
                        assert(free_frames(a@) == 0);
                        assert(layout.mmio@[mi as int] == (base, len));
                        assert(garea.spec_len() == (base + len) as int / (PAGE_SIZE as int)
                            - base / PAGE_SIZE);
                        assert(spec_mmio_pages(layout.mmio@, mi as int + 1) == spec_mmio_pages(
                            layout.mmio@,
                            mi as int,
                        ) + ((base + len) as int / (PAGE_SIZE as int) - base / PAGE_SIZE));
                        lemma_mmio_pages_mono(
                            layout.mmio@,
                            mi as int + 1,
                            layout.mmio@.len() as int,
                        );
                    }
                    return Err(e);
                },
            }
            proof {
                let ps = PAGE_SIZE as int;
                assert(layout.mmio@[mi as int] == (base, len));
                assert(garea.spec_len() == (base + len) as int / ps - base / PAGE_SIZE);
                assert(spec_mmio_pages(layout.mmio@, mi as int + 1) == spec_mmio_pages(
                    layout.mmio@,
                    mi as int,
                ) + ((base + len) as int / ps - base / PAGE_SIZE));
                assert forall|w: u64|
                    w < VPN_LIMIT && w != TRAMPOLINE_VPN && !spec_sections_cover(
                        sections@,
                        5,
                        w,
                    ) && !spec_mmio_cover(layout.mmio@, mi as int + 1, w) implies (
                #[trigger] ms.page_table.spec_mapping(w)) is None by {
                    assert(!garea.vpn_range.contains(w)) by {
                        if garea.vpn_range.contains(w) {
                            assert(0 <= mi < mi + 1 && layout.mmio@[mi as int].0 / PAGE_SIZE
                                <= w < (layout.mmio@[mi as int].0 + layout.mmio@[mi as int].1)
                                / (PAGE_SIZE as int));
                        }
                    };
                    assert(!spec_mmio_cover(layout.mmio@, mi as int, w)) by {
                        if spec_mmio_cover(layout.mmio@, mi as int, w) {
                            let kk = choose|k: int|
                                0 <= k < mi && (#[trigger] layout.mmio@[k]).0 / PAGE_SIZE <= w
                                    < (layout.mmio@[k].0 + layout.mmio@[k].1) / (
                                PAGE_SIZE as int);
                            assert(0 <= kk < mi + 1 && layout.mmio@[kk].0 / PAGE_SIZE <= w < (
                            layout.mmio@[kk].0 + layout.mmio@[kk].1) / (PAGE_SIZE as int));
                        }
                    };
                    assert(ms.page_table.spec_mapping(w) == ms_before.page_table.spec_mapping(
                        w,
                    ));
                };
                assert forall|i: int, w: u64|
                    #![trigger ms.page_table.spec_mapping(w), layout.mmio@[i]]
                    0 <= i < mi + 1 && layout.mmio@[i].0 / PAGE_SIZE <= w < (layout.mmio@[i].0
                        + layout.mmio@[i].1) / ps implies ms.page_table.spec_mapping(w)
                    == spec_kernel_pte(w, MAP_PERM_R | MAP_PERM_W) by {
                    if i < mi {
                        assert(ms_before.page_table.spec_mapping(w) == spec_kernel_pte(
                            w,
                            MAP_PERM_R | MAP_PERM_W,
                        ));
                        assert(!garea.vpn_range.contains(w)) by {
                            lemma_mmio_ordered(layout, i, mi as int);
                            vstd::arithmetic::div_mod::lemma_div_is_ordered(
                                (layout.mmio@[i].0 + layout.mmio@[i].1) as int,
                                base as int,
                                ps,
                            );
                        };
                        assert(w < VPN_LIMIT);
                    } else {
                        assert(garea.vpn_range.contains(w));
                    }
                };
                // the kernel sections keep their mappings: they all sit at
                // or above the start of the text section
                assert forall|w: u64|
                    layout.stext / PAGE_SIZE <= w < VPN_LIMIT implies ms.page_table.spec_mapping(
                    w,
                ) == ms_before.page_table.spec_mapping(w) by {
                    assert(!garea.vpn_range.contains(w));
                };
                assert(layout.srodata / PAGE_SIZE >= layout.stext / PAGE_SIZE
                    && layout.sdata / PAGE_SIZE >= layout.stext / PAGE_SIZE
                    && layout.sbss_with_stack / PAGE_SIZE >= layout.stext / PAGE_SIZE
                    && layout.ekernel / PAGE_SIZE >= layout.stext / PAGE_SIZE) by {
                    vstd::arithmetic::div_mod::lemma_div_is_ordered(
                        layout.stext as int,
                        layout.srodata as int,
                        ps,
                    );
                    vstd::arithmetic::div_mod::lemma_div_is_ordered(
                        layout.stext as int,
                        layout.sdata as int,
                        ps,
                    );
                    vstd::arithmetic::div_mod::lemma_div_is_ordered(
                        layout.stext as int,
                        layout.sbss_with_stack as int,
                        ps,
                    );
                    vstd::arithmetic::div_mod::lemma_div_is_ordered(
                        layout.stext as int,
                        layout.ekernel as int,
                        ps,
                    );
                };
            }
            mi = mi + 1;
        }
        proof {
            assert(sections@ =~= spec_kernel_sections(layout));
        }
        Ok(ms)
    }
}


/// One loadable piece of an application image: a page-aligned virtual
/// range, its access permissions, and the bytes that fill its front
/// (the rest of the range stays zeroed).
pub struct Segment {
    pub start_va: u64,
    pub end_va: u64,
    pub perm: u8,
    pub data: Vec<u8>,
}

/// An application image: the entry point and the loadable segments.
pub struct AppImage {
    pub entry: u64,
    pub segments: Vec<Segment>,
}

/// First page of a segment.
pub open spec fn spec_seg_start_vpn(s: &Segment) -> u64 {
    s.start_va / PAGE_SIZE
}

/// One past the last page of a segment.
pub open spec fn spec_seg_end_vpn(s: &Segment) -> int {
    (s.end_va + PAGE_SIZE - 1) / (PAGE_SIZE as int)
}

/// A well-formed segment: aligned start, a bounded range far below the
/// trap-context page, only R/W/X permission bits, and data that fits.
pub open spec fn segment_wf(s: &Segment) -> bool {
    &&& s.start_va % PAGE_SIZE == 0
    &&& s.start_va <= s.end_va
    &&& s.end_va <= 0x10_0000_0000
    &&& s.perm % 2 == 0
    &&& s.perm < 16
    &&& s.data@.len() <= (spec_seg_end_vpn(s) - spec_seg_start_vpn(s)) * PAGE_SIZE
}

/// A well-formed image: well-formed segments in ascending order,
/// page-disjoint from one another.
pub open spec fn image_wf(img: &AppImage) -> bool {
    &&& forall|i: int| 0 <= i < img.segments@.len() ==> segment_wf(#[trigger] &img.segments@[i])
    &&& forall|i: int|
        0 <= i + 1 < img.segments@.len() ==> spec_seg_end_vpn(#[trigger] &img.segments@[i])
            <= spec_seg_start_vpn(&img.segments@[i + 1])
}

/// One past the highest page any segment maps; the guard page sits here.
pub open spec fn spec_max_end_vpn(img: &AppImage) -> int {
    if img.segments@.len() == 0 {
        0
    } else {
        spec_seg_end_vpn(&img.segments@[img.segments@.len() - 1])
    }
}

/// Earlier segments end before later ones begin.
proof fn lemma_segments_ordered(img: &AppImage, j: int, i: int)
    requires
        image_wf(img),
        0 <= j < i < img.segments@.len(),
    ensures
        spec_seg_end_vpn(&img.segments@[j]) <= spec_seg_start_vpn(&img.segments@[i]),
    decreases i - j,
{
    if j + 1 == i {
    } else {
        lemma_segments_ordered(img, j + 1, i);
        assert(spec_seg_end_vpn(&img.segments@[j]) <= spec_seg_start_vpn(&img.segments@[j + 1]));
        assert(spec_seg_start_vpn(&img.segments@[j + 1]) <= spec_seg_end_vpn(
            &img.segments@[j + 1],
        )) by {
            vstd::arithmetic::div_mod::lemma_div_is_ordered(
                img.segments@[j + 1].start_va as int,
                (img.segments@[j + 1].end_va + PAGE_SIZE - 1) as int,
                PAGE_SIZE as int,
            );
        };
    }
}

/// The byte every loaded page of a segment carries: the segment's data
/// over a zeroed page.
pub open spec fn spec_seg_page(s: &Segment, p: int) -> Seq<u8> {
    spec_copy_page(spec_zero_page(), s.data@, p)
}

/// True when `w` lies in one of the first `n` segments of the image.
pub open spec fn spec_covered(img: &AppImage, n: int, w: u64) -> bool {
    exists|j: int|
        0 <= j < n && spec_seg_start_vpn(#[trigger] &img.segments@[j]) <= w < spec_seg_end_vpn(
            &img.segments@[j],
        )
}

/// Total pages of the first `n` segments.
pub open spec fn spec_segments_pages(segs: Seq<Segment>, n: int) -> int
    decreases n,
{
    if n <= 0 {
        0
    } else {
        spec_segments_pages(segs, n - 1) + (spec_seg_end_vpn(&segs[n - 1]) - spec_seg_start_vpn(
            &segs[n - 1],
        ))
    }
}

/// A generous upper bound on the frames `from_image` consumes: the
/// root, the trampoline walk, the stack and trap-context regions, and
/// at most three frames per mapped segment page.
pub open spec fn spec_from_image_frames(img: &AppImage) -> int {
    12 + 3 * spec_segments_pages(img.segments@, img.segments@.len() as int)
}

/// A well-formed image needs a non-negative frame budget.
pub proof fn lemma_from_image_frames_nonneg(img: &AppImage)
    requires
        image_wf(img),
    ensures
        spec_from_image_frames(img) >= 12,
{
    lemma_segments_pages_mono(img.segments@, 0, img.segments@.len() as int);
}

/// With well-formed segments, the running page count grows.
proof fn lemma_segments_pages_mono(segs: Seq<Segment>, i: int, n: int)
    requires
        0 <= i <= n <= segs.len(),
        forall|j: int| 0 <= j < segs.len() ==> segment_wf(#[trigger] &segs[j]),
    ensures
        spec_segments_pages(segs, i) <= spec_segments_pages(segs, n),
    decreases n,
{
    if i < n {
        lemma_segments_pages_mono(segs, i, n - 1);
        assert(segment_wf(&segs[n - 1]));
        vstd::arithmetic::div_mod::lemma_div_is_ordered(
            segs[n - 1].start_va as int,
            (segs[n - 1].end_va + PAGE_SIZE - 1) as int,
            PAGE_SIZE as int,
        );
    }
}

impl MemorySet {
    /// An application address space: one framed region per image
    /// segment (user-accessible, loaded with the segment's data), a
    /// guard page, the user stack, the trap-context page, and the
    /// shared trampoline. Returns the address space, the initial user
    /// stack pointer and the entry point.
    #[verifier::rlimit(80)]
    pub fn from_image(a: &mut StackFrameAllocator, image: &AppImage, strampoline: PhysAddr) -> (r:
        Result<(MemorySet, u64, u64), KernelError>)
        requires
            alloc_wf(old(a)@),
            image_wf(image),
            strampoline.0 % PAGE_SIZE == 0,
            strampoline.0 < PA_BOUND,
        ensures
            alloc_wf(final(a)@),
            final(a)@.end == old(a)@.end,
            free_frames(final(a)@) + spec_from_image_frames(image) >= free_frames(old(a)@),
            match r {
                Ok((ms, user_sp, entry)) => {
                    &&& ms.wf()
                    &&& entry == image.entry
                    &&& user_sp == (spec_max_end_vpn(image) + 1) * PAGE_SIZE + USER_STACK_SIZE
                    &&& forall|i: int, p: int|
                        #![trigger ms.spec_frame_at(((spec_seg_start_vpn(&image.segments@[i]) + p) as u64)), image.segments@[i]]
                        0 <= i < image.segments@.len() && 0 <= p < spec_seg_end_vpn(
                            &image.segments@[i],
                        ) - spec_seg_start_vpn(&image.segments@[i]) ==> ms.spec_frame_at(
                            ((spec_seg_start_vpn(&image.segments@[i]) + p) as u64),
                        ) == Some(spec_seg_page(&image.segments@[i], p))
                    &&& forall|i: int, w: u64|
                        #![trigger ms.page_table.spec_mapping(w), image.segments@[i]]
                        0 <= i < image.segments@.len() && spec_seg_start_vpn(&image.segments@[i])
                            <= w < spec_seg_end_vpn(&image.segments@[i])
                            ==> (ms.page_table.spec_mapping(w) matches Some(pte)
                            && pte.spec_flags() == spec_with_valid(
                            image.segments@[i].perm | MAP_PERM_U,
                        ))
                    &&& ms.page_table.spec_mapping((spec_max_end_vpn(image) as u64)) is None
                    &&& forall|w: u64|
                        spec_max_end_vpn(image) + 1 <= w < spec_max_end_vpn(image) + 1
                            + USER_STACK_SIZE / PAGE_SIZE ==> ((
                        #[trigger] ms.page_table.spec_mapping(w)) matches Some(pte)
                            && pte.spec_flags() == spec_with_valid(
                            MAP_PERM_R | MAP_PERM_W | MAP_PERM_U,
                        ))
                    &&& (ms.page_table.spec_mapping(TRAP_CONTEXT_VPN) matches Some(pte)
                        && pte.spec_flags() == spec_with_valid(MAP_PERM_R | MAP_PERM_W))
                    &&& ms.spec_frame_at(TRAP_CONTEXT_VPN) == Some(spec_zero_page())
                    &&& ms.page_table.spec_mapping(TRAMPOLINE_VPN) == Some(
                        spec_pte(
                            strampoline.0 / PAGE_SIZE,
                            spec_with_valid(MAP_PERM_R | MAP_PERM_X),
                        ),
                    )
                    &&& forall|w: u64|
                        w < VPN_LIMIT && w != TRAMPOLINE_VPN && w != TRAP_CONTEXT_VPN
                            && !spec_covered(image, image.segments@.len() as int, w) && !(
                        spec_max_end_vpn(image) + 1 <= w < spec_max_end_vpn(image) + 1
                            + USER_STACK_SIZE / PAGE_SIZE) ==> (
                        #[trigger] ms.page_table.spec_mapping(w)) is None
                },
                Err(e) => e == KernelError::OutOfFrames && free_frames(final(a)@) == 0,
            },
    {
        proof {
            lemma_segments_pages_mono(
                image.segments@,
                0,
                image.segments@.len() as int,
            );
        }
        let mut ms = match MemorySet::new_bare(a) {
            Ok(ms) => ms,
            Err(e) => {
                proof {
                    assert(free_frames(a@) == 0);
                }
                return Err(e);
            },
        };
        let ghost ms_bare = ms;
        match ms.map_trampoline(a, strampoline) {
            Ok(()) => {},
            Err(e) => {
                proof {
                    assert(ms_bare.page_table.spec_mapping(TRAMPOLINE_VPN) is None);
                    assert(e == KernelError::OutOfFrames);
                }
                return Err(e);
            },
        }
        let ghost tramp_pte = Some(
            spec_pte(strampoline.0 / PAGE_SIZE, spec_with_valid(MAP_PERM_R | MAP_PERM_X)),
        );
        let mut max_end_vpn: u64 = 0;
        let mut i: usize = 0;
        while i < image.segments.len()
            invariant
                alloc_wf(a@),
                a@.end == old(a)@.end,
                ms.wf(),
                i <= image.segments@.len(),
                image_wf(image),
                strampoline.0 % PAGE_SIZE == 0,
                strampoline.0 < PA_BOUND,
                tramp_pte == Some(
                    spec_pte(
                        strampoline.0 / PAGE_SIZE,
                        spec_with_valid(MAP_PERM_R | MAP_PERM_X),
                    ),
                ),
                ms.page_table.spec_mapping(TRAMPOLINE_VPN) == tramp_pte,
                max_end_vpn == if i == 0 {
                    0
                } else {
                    spec_seg_end_vpn(&image.segments@[i - 1])
                },
                forall|w: u64|
                    w < VPN_LIMIT && w != TRAMPOLINE_VPN && !spec_covered(image, i as int, w)
                        ==> #[trigger] ms.page_table.spec_mapping(w) is None,
                forall|j: int, p: int|
                    #![trigger ms.spec_frame_at(((spec_seg_start_vpn(&image.segments@[j]) + p) as u64)), image.segments@[j]]
                    0 <= j < i && 0 <= p < spec_seg_end_vpn(&image.segments@[j])
                        - spec_seg_start_vpn(&image.segments@[j]) ==> ms.spec_frame_at(
                        ((spec_seg_start_vpn(&image.segments@[j]) + p) as u64),
                    ) == Some(spec_seg_page(&image.segments@[j], p)),
                forall|j: int, w: u64|
                    #![trigger ms.page_table.spec_mapping(w), image.segments@[j]]
                    0 <= j < i && spec_seg_start_vpn(&image.segments@[j]) <= w < spec_seg_end_vpn(
                        &image.segments@[j],
                    ) ==> (ms.page_table.spec_mapping(w) matches Some(pte) && pte.spec_flags()
                        == spec_with_valid(image.segments@[j].perm | MAP_PERM_U)),
                free_frames(a@) + 3 + 3 * spec_segments_pages(image.segments@, i as int)
                    >= free_frames(old(a)@),
                ms.areas@.len() == i,
                forall|k: int|
                    0 <= k < i ==> {
                        &&& (#[trigger] ms.areas@[k]).vpn_range.l.0 == spec_seg_start_vpn(
                            &image.segments@[k],
                        )
                        &&& ms.areas@[k].vpn_range.r.0 == spec_seg_end_vpn(&image.segments@[k])
                        &&& ms.areas@[k].map_type is Framed
                        &&& ms.areas@[k].map_perm == image.segments@[k].perm | MAP_PERM_U
                    },
            decreases image.segments@.len() - i,
        {
            let seg = &image.segments[i];
            let ghost ms_before = ms;
            let area = MapArea::new(
                VirtAddr(seg.start_va),
                VirtAddr(seg.end_va),
                MapType::Framed,
                seg.perm | MAP_PERM_U,
            );
            let ghost garea = area;
            proof {
                assert(segment_wf(&image.segments@[i as int]));
                assert(garea.spec_len() == spec_seg_end_vpn(&image.segments@[i as int])
                    - spec_seg_start_vpn(&image.segments@[i as int])) by {
                    vstd::arithmetic::div_mod::lemma_div_is_ordered(
                        seg.start_va as int,
                        (seg.end_va + PAGE_SIZE - 1) as int,
                        PAGE_SIZE as int,
                    );
                };
            }
            match ms.push(a, area, Some(&seg.data)) {
                Ok(()) => {},
                Err(e) => {
                    proof {
                        if e == KernelError::AlreadyMapped {
                            let w = choose|w: u64|
                                garea.vpn_range.contains(w)
                                    && ms_before.page_table.spec_mapping(w) is Some;
                            assert(w < VPN_LIMIT);
                            assert(w != TRAMPOLINE_VPN) by {
                                vstd::arithmetic::div_mod::lemma_div_is_ordered(
                                    (seg.end_va + PAGE_SIZE - 1) as int,
                                    (0x10_0000_0000 + PAGE_SIZE - 1) as int,
                                    PAGE_SIZE as int,
                                );
                            };
                            assert(spec_covered(image, i as int, w)) by {
                                assert(ms_before.page_table.spec_mapping(w) is Some);
                            };
                            let j = choose|j: int|
                                0 <= j < i && spec_seg_start_vpn(
                                    #[trigger] &image.segments@[j],
                                ) <= w < spec_seg_end_vpn(&image.segments@[j]);
                            lemma_segments_ordered(image, j, i as int);
                            assert(false);
                        }
                        assert(spec_segments_pages(image.segments@, i as int + 1)
                            == spec_segments_pages(image.segments@, i as int) + (
                        spec_seg_end_vpn(&image.segments@[i as int]) - spec_seg_start_vpn(
                            &image.segments@[i as int],
                        )));
                        lemma_segments_pages_mono(
                            image.segments@,
                            i as int + 1,
                            image.segments@.len() as int,
                        );
                    }
                    return Err(e);
                },
            }
            max_end_vpn = {
                let e_vpn = VirtAddr(seg.end_va).ceil();
                e_vpn.0
            };
            proof {
                let gi = i as int;
                let sv = spec_seg_start_vpn(&image.segments@[gi]);
                let ev = spec_seg_end_vpn(&image.segments@[gi]);
                assert(garea.spec_start() == sv);
                assert(garea.spec_end() == ev);
                assert(spec_segments_pages(image.segments@, gi + 1) == spec_segments_pages(
                    image.segments@,
                    gi,
                ) + (ev - sv));
                assert(ms.page_table.spec_mapping(TRAMPOLINE_VPN) == tramp_pte) by {
                    assert(!garea.vpn_range.contains(TRAMPOLINE_VPN)) by {
                        vstd::arithmetic::div_mod::lemma_div_is_ordered(
                            (seg.end_va + PAGE_SIZE - 1) as int,
                            (0x10_0000_0000 + PAGE_SIZE - 1) as int,
                            PAGE_SIZE as int,
                        );
                    };
                };
                assert forall|w: u64|
                    w < VPN_LIMIT && w != TRAMPOLINE_VPN && !spec_covered(image, gi + 1, w)
                        implies #[trigger] ms.page_table.spec_mapping(w) is None by {
                    assert(!spec_covered(image, gi, w)) by {
                        if spec_covered(image, gi, w) {
                            let j = choose|j: int|
                                0 <= j < gi && spec_seg_start_vpn(
                                    #[trigger] &image.segments@[j],
                                ) <= w < spec_seg_end_vpn(&image.segments@[j]);
                            assert(0 <= j < gi + 1 && spec_seg_start_vpn(&image.segments@[j])
                                <= w < spec_seg_end_vpn(&image.segments@[j]));
                        }
                    };
                    assert(!garea.vpn_range.contains(w)) by {
                        if garea.vpn_range.contains(w) {
                            assert(0 <= gi < gi + 1 && spec_seg_start_vpn(&image.segments@[gi])
                                <= w < spec_seg_end_vpn(&image.segments@[gi]));
                        }
                    };
                };
                assert forall|j: int, p: int|
                    #![trigger ms.spec_frame_at(((spec_seg_start_vpn(&image.segments@[j]) + p) as u64)), image.segments@[j]]
                    0 <= j < gi + 1 && 0 <= p < spec_seg_end_vpn(&image.segments@[j])
                        - spec_seg_start_vpn(&image.segments@[j]) implies ms.spec_frame_at(
                        ((spec_seg_start_vpn(&image.segments@[j]) + p) as u64),
                    ) == Some(spec_seg_page(&image.segments@[j], p)) by {
                    let w = (spec_seg_start_vpn(&image.segments@[j]) + p) as u64;
                    if j < gi {
                        lemma_segments_ordered(image, j, gi);
                        assert(!garea.vpn_range.contains(w));
                        assert(ms.spec_frame_at(w) == ms_before.spec_frame_at(w));
                    } else {
                        assert(garea.vpn_range.contains(w));
                    }
                };
                assert forall|j: int, w: u64|
                    #![trigger ms.page_table.spec_mapping(w), image.segments@[j]]
                    0 <= j < gi + 1 && spec_seg_start_vpn(&image.segments@[j]) <= w
                        < spec_seg_end_vpn(&image.segments@[j]) implies (
                ms.page_table.spec_mapping(w) matches Some(pte) && pte.spec_flags()
                    == spec_with_valid(image.segments@[j].perm | MAP_PERM_U)) by {
                    if j < gi {
                        lemma_segments_ordered(image, j, gi);
                        assert(!garea.vpn_range.contains(w));
                        assert(ms.page_table.spec_mapping(w) == ms_before.page_table.spec_mapping(
                            w,
                        ));
                    } else {
                        assert(garea.vpn_range.contains(w));
                        let p = w - sv;
                        assert(((spec_seg_start_vpn(&image.segments@[gi]) + p) as u64) == w);
                        assert(ms.spec_frame_at(
                            ((spec_seg_start_vpn(&image.segments@[gi]) + p) as u64),
                        ) == Some(spec_seg_page(&image.segments@[gi], p)));
                        lemma_frame_at_some(ms.areas@, w);
                        let k = choose|k: int|
                            0 <= k < ms.areas@.len() && spec_area_match(
                                #[trigger] ms.areas@[k],
                                w,
                            );
                        assert(k == ms.areas@.len() - 1) by {
                            if k < ms.areas@.len() - 1 {
                                assert(ms.areas@[k].vpn_range.contains(w));
                                lemma_segments_ordered(image, k, gi);
                            }
                        };
                        assert(ms.areas@[k].data_frames@[w - ms.areas@[k].spec_start()]
                            is Some);
                        let tr = ms.areas@[k].data_frames@[w - ms.areas@[k].spec_start()]
                            .unwrap();
                        assert(ms.page_table.spec_mapping(w) == Some(
                            spec_pte(
                                tr.ppn.0,
                                spec_with_valid(image.segments@[gi].perm | MAP_PERM_U),
                            ),
                        ));
                        assert(tr.ppn.0 < PPN_BOUND);
                        lemma_pte_encode(
                            tr.ppn.0,
                            spec_with_valid(image.segments@[gi].perm | MAP_PERM_U),
                        );
                    }
                };
            }
            i = i + 1;
        }
        proof {
            assert(max_end_vpn == spec_max_end_vpn(image));
            assert(max_end_vpn <= 0x1000001) by {
                if image.segments@.len() > 0 {
                    vstd::arithmetic::div_mod::lemma_div_is_ordered(
                        (image.segments@[image.segments@.len() - 1].end_va + PAGE_SIZE
                            - 1) as int,
                        (0x10_0000_0000 + PAGE_SIZE - 1) as int,
                        PAGE_SIZE as int,
                    );
                }
            };
            // no segment covers the guard page or anything above it
            assert forall|w: u64| max_end_vpn <= w implies !spec_covered(
                image,
                image.segments@.len() as int,
                w,
            ) by {
                if spec_covered(image, image.segments@.len() as int, w) {
                    let j = choose|j: int|
                        0 <= j < image.segments@.len() && spec_seg_start_vpn(
                            #[trigger] &image.segments@[j],
                        ) <= w < spec_seg_end_vpn(&image.segments@[j]);
                    if j + 1 < image.segments@.len() {
                        lemma_segments_ordered(image, j, image.segments@.len() - 1);
                        assert(spec_seg_start_vpn(
                            &image.segments@[image.segments@.len() - 1],
                        ) <= spec_seg_end_vpn(&image.segments@[image.segments@.len() - 1])) by {
                            vstd::arithmetic::div_mod::lemma_div_is_ordered(
                                image.segments@[image.segments@.len() - 1].start_va as int,
                                (image.segments@[image.segments@.len() - 1].end_va + PAGE_SIZE
                                    - 1) as int,
                                PAGE_SIZE as int,
                            );
                        };
                    }
                }
            };
        }
        let ghost ms_segs = ms;
        let user_stack_bottom_vpn = max_end_vpn + 1;
        let user_stack_top_vpn = user_stack_bottom_vpn + USER_STACK_SIZE / PAGE_SIZE;
        let stack_area = MapArea::new(
            VirtAddr(user_stack_bottom_vpn * PAGE_SIZE),
            VirtAddr(user_stack_top_vpn * PAGE_SIZE),
            MapType::Framed,
            MAP_PERM_R | MAP_PERM_W | MAP_PERM_U,
        );
        let ghost gstack = stack_area;
        proof {
            assert(gstack.spec_start() == user_stack_bottom_vpn);
            assert(gstack.spec_end() == user_stack_top_vpn);
        }
        match ms.push(a, stack_area, None) {
            Ok(()) => {},
            Err(e) => {
                proof {
                    if e == KernelError::AlreadyMapped {
                        let w = choose|w: u64|
                            gstack.vpn_range.contains(w) && ms_segs.page_table.spec_mapping(w)
                                is Some;
                        assert(false);
                    }
                }
                return Err(e);
            },
        }
        let ghost ms_stack = ms;
        proof {
            lemma_area_pte_flags(&ms, ms_segs.areas@.len() as int, gstack);
        }
        let tc_area = MapArea::new(
            VirtAddr(TRAP_CONTEXT_VPN * PAGE_SIZE),
            VirtAddr(TRAMPOLINE_VPN * PAGE_SIZE),
            MapType::Framed,
            MAP_PERM_R | MAP_PERM_W,
        );
        let ghost gtc = tc_area;
        proof {
            assert(gtc.spec_start() == TRAP_CONTEXT_VPN);
            assert(gtc.spec_end() == TRAMPOLINE_VPN);
        }
        match ms.push(a, tc_area, None) {
            Ok(()) => {},
            Err(e) => {
                proof {
                    if e == KernelError::AlreadyMapped {
                        let w = choose|w: u64|
                            gtc.vpn_range.contains(w) && ms_stack.page_table.spec_mapping(w)
                                is Some;
                        assert(w == TRAP_CONTEXT_VPN);
                        assert(!gstack.vpn_range.contains(w));
                        assert(!spec_covered(image, image.segments@.len() as int, w));
                        assert(false);
                    }
                }
                return Err(e);
            },
        }
        proof {
            lemma_area_pte_flags(&ms, ms_stack.areas@.len() as int, gtc);
            assert(ms.spec_frame_at(TRAP_CONTEXT_VPN) == Some(spec_zero_page())) by {
                assert(((gtc.spec_start() + 0) as u64) == TRAP_CONTEXT_VPN);
                assert(ms.spec_frame_at(((gtc.spec_start() + 0) as u64)) == Some(
                    spec_copy_page(spec_zero_page(), Seq::empty(), 0),
                ));
                assert(spec_copy_page(spec_zero_page(), Seq::empty(), 0) =~= spec_zero_page());
            };
            // the guard page is still unmapped
            assert(ms.page_table.spec_mapping((max_end_vpn) as u64) is None) by {
                assert(ms_segs.page_table.spec_mapping(max_end_vpn) is None);
                assert(!gstack.vpn_range.contains(max_end_vpn));
                assert(!gtc.vpn_range.contains(max_end_vpn));
            };
            // stack mappings survive the trap-context push
            assert forall|w: u64|
                spec_max_end_vpn(image) + 1 <= w < spec_max_end_vpn(image) + 1 + USER_STACK_SIZE
                    / PAGE_SIZE implies ((#[trigger] ms.page_table.spec_mapping(w)) matches Some(
                pte,
            ) && pte.spec_flags() == spec_with_valid(
                MAP_PERM_R | MAP_PERM_W | MAP_PERM_U,
            )) by {
                assert(!gtc.vpn_range.contains(w));
                assert(ms.page_table.spec_mapping(w) == ms_stack.page_table.spec_mapping(w));
            };
            // segment contents and mappings survive both pushes
            assert forall|i2: int, p: int|
                #![trigger ms.spec_frame_at(((spec_seg_start_vpn(&image.segments@[i2]) + p) as u64)), image.segments@[i2]]
                0 <= i2 < image.segments@.len() && 0 <= p < spec_seg_end_vpn(
                    &image.segments@[i2],
                ) - spec_seg_start_vpn(&image.segments@[i2]) implies ms.spec_frame_at(
                    ((spec_seg_start_vpn(&image.segments@[i2]) + p) as u64),
                ) == Some(spec_seg_page(&image.segments@[i2], p)) by {
                let w = (spec_seg_start_vpn(&image.segments@[i2]) + p) as u64;
                assert(spec_covered(image, image.segments@.len() as int, w)) by {
                    assert(spec_seg_start_vpn(&image.segments@[i2]) <= w < spec_seg_end_vpn(
                        &image.segments@[i2],
                    ));
                };
                assert(w < max_end_vpn) by {
                    if i2 + 1 < image.segments@.len() {
                        lemma_segments_ordered(image, i2, image.segments@.len() - 1);
                        assert(spec_seg_start_vpn(
                            &image.segments@[image.segments@.len() - 1],
                        ) <= spec_seg_end_vpn(
                            &image.segments@[image.segments@.len() - 1],
                        )) by {
                            vstd::arithmetic::div_mod::lemma_div_is_ordered(
                                image.segments@[image.segments@.len() - 1].start_va as int,
                                (image.segments@[image.segments@.len() - 1].end_va + PAGE_SIZE
                                    - 1) as int,
                                PAGE_SIZE as int,
                            );
                        };
                    }
                };
                assert(!gstack.vpn_range.contains(w));
                assert(!gtc.vpn_range.contains(w));
                assert(ms.spec_frame_at(w) == ms_stack.spec_frame_at(w));
                assert(ms_stack.spec_frame_at(w) == ms_segs.spec_frame_at(w));
            };
            assert forall|i2: int, w: u64|
                #![trigger ms.page_table.spec_mapping(w), image.segments@[i2]]
                0 <= i2 < image.segments@.len() && spec_seg_start_vpn(&image.segments@[i2]) <= w
                    < spec_seg_end_vpn(&image.segments@[i2]) implies (
            ms.page_table.spec_mapping(w) matches Some(pte) && pte.spec_flags()
                == spec_with_valid(image.segments@[i2].perm | MAP_PERM_U)) by {
                let w2 = w;
                assert(w2 < max_end_vpn) by {
                    if i2 + 1 < image.segments@.len() {
                        lemma_segments_ordered(image, i2, image.segments@.len() - 1);
                        assert(spec_seg_start_vpn(
                            &image.segments@[image.segments@.len() - 1],
                        ) <= spec_seg_end_vpn(
                            &image.segments@[image.segments@.len() - 1],
                        )) by {
                            vstd::arithmetic::div_mod::lemma_div_is_ordered(
                                image.segments@[image.segments@.len() - 1].start_va as int,
                                (image.segments@[image.segments@.len() - 1].end_va + PAGE_SIZE
                                    - 1) as int,
                                PAGE_SIZE as int,
                            );
                        };
                    }
                };
                assert(!gstack.vpn_range.contains(w2));
                assert(!gtc.vpn_range.contains(w2));
                assert(ms.page_table.spec_mapping(w2) == ms_stack.page_table.spec_mapping(w2));
                assert(ms_stack.page_table.spec_mapping(w2) == ms_segs.page_table.spec_mapping(
                    w2,
                ));
            };
            // the trampoline survives too
            assert(ms.page_table.spec_mapping(TRAMPOLINE_VPN) == tramp_pte) by {
                assert(!gstack.vpn_range.contains(TRAMPOLINE_VPN));
                assert(!gtc.vpn_range.contains(TRAMPOLINE_VPN));
            };
            // and nothing beyond the image, stack, trap context and
            // trampoline is mapped at all
            assert forall|w: u64|
                w < VPN_LIMIT && w != TRAMPOLINE_VPN && w != TRAP_CONTEXT_VPN && !spec_covered(
                    image,
                    image.segments@.len() as int,
                    w,
                ) && !(spec_max_end_vpn(image) + 1 <= w < spec_max_end_vpn(image) + 1
                    + USER_STACK_SIZE / PAGE_SIZE) implies (
            #[trigger] ms.page_table.spec_mapping(w)) is None by {
                assert(!gstack.vpn_range.contains(w));
                assert(!gtc.vpn_range.contains(w));
                assert(ms.page_table.spec_mapping(w) == ms_stack.page_table.spec_mapping(w));
                assert(ms_stack.page_table.spec_mapping(w) == ms_segs.page_table.spec_mapping(
                    w,
                ));
                assert(ms_segs.page_table.spec_mapping(w) is None);
            };
        }
        let user_sp = user_stack_top_vpn * PAGE_SIZE;
        Ok((ms, user_sp, image.entry))
    }
}

/// In a well-formed address space whose freshly pushed last region is
/// `garea`, every page of that region carries exactly the region's
/// permissions plus Valid.
proof fn lemma_area_pte_flags(ms: &MemorySet, n: int, garea: MapArea)
    requires
        ms.wf(),
        ms.areas@.len() == n + 1,
        0 <= n,
        garea.map_type is Framed,
        ms.areas@[n].vpn_range == garea.vpn_range,
        ms.areas@[n].map_type == garea.map_type,
        ms.areas@[n].map_perm == garea.map_perm,
        forall|j: int|
            0 <= j < ms.areas@[n].data_frames@.len() ==> (
            #[trigger] ms.areas@[n].data_frames@[j]) is Some,
    ensures
        forall|w: u64|
            garea.vpn_range.contains(w) ==> ((#[trigger] ms.page_table.spec_mapping(w))
                matches Some(pte) && pte.spec_flags() == spec_with_valid(garea.map_perm)),
{
    assert forall|w: u64|
        garea.vpn_range.contains(w) implies ((#[trigger] ms.page_table.spec_mapping(w))
        matches Some(pte) && pte.spec_flags() == spec_with_valid(garea.map_perm)) by {
        let j = w - ms.areas@[n].spec_start();
        assert(ms.areas@[n].wf());
        let slot = ms.areas@[n].data_frames@[j];
        assert(slot is Some);
        let t = slot.unwrap();
        assert(t.ppn.0 < PPN_BOUND);
        assert(ms.page_table.spec_mapping(((ms.areas@[n].spec_start() + j) as u64)) == Some(
            spec_pte(t.ppn.0, spec_with_valid(ms.areas@[n].map_perm)),
        ));
        assert(((ms.areas@[n].spec_start() + j) as u64) == w);
        lemma_pte_encode(t.ppn.0, spec_with_valid(garea.map_perm));
    };
}



/// Every page a buffer at `ptr` of `len` bytes touches is backed by an
/// owned frame of the address space (and the range does not wrap).
pub open spec fn spec_buffer_ok(ms: &MemorySet, ptr: u64, len: u64) -> bool {
    len == 0 || (ptr + len <= u64::MAX && forall|w: u64|
        ptr / PAGE_SIZE <= w < (ptr + len - 1) / (PAGE_SIZE as int) + 1 ==> (
        #[trigger] ms.spec_frame_at(w)) is Some)
}

/// The bytes an application sees at `ptr..ptr + len` (unbacked
/// addresses read as zero; under `spec_buffer_ok` there are none).
pub open spec fn spec_user_bytes(ms: &MemorySet, ptr: u64, len: u64) -> Seq<u8> {
    Seq::new(
        len as nat,
        |kk: int|
            match ms.spec_user_byte(((ptr + kk) as u64)) {
                Some(b) => b,
                None => 0u8,
            },
    )
}

/// Virtual address where chunk `i` of a translated buffer begins.
pub open spec fn spec_chunk_start(ptr: u64, i: int) -> int {
    if i == 0 {
        ptr as int
    } else {
        (ptr / PAGE_SIZE + i) * PAGE_SIZE
    }
}

/// Virtual address where chunk `i` of a translated buffer ends.
pub open spec fn spec_chunk_end(ptr: u64, len: u64, i: int) -> int {
    let page_end = (ptr / PAGE_SIZE + i + 1) * PAGE_SIZE;
    if ptr + len < page_end {
        ptr + len
    } else {
        page_end
    }
}

/// Number of pages a buffer at `ptr` of `len` bytes touches.
pub open spec fn spec_chunk_count(ptr: u64, len: u64) -> int {
    if len == 0 {
        0
    } else {
        (ptr + len - 1) / (PAGE_SIZE as int) + 1 - ptr / PAGE_SIZE
    }
}

impl MemorySet {
    /// Copy bytes `off_start..off_end` out of the frame backing `vpn`,
    /// if one of this space's regions owns such a frame.
    fn read_frame_chunk(&self, vpn: u64, off_start: u64, off_end: u64) -> (r: Option<Vec<u8>>)
        requires
            self.wf(),
            off_start <= off_end <= PAGE_SIZE,
        ensures
            r is Some <==> self.spec_frame_at(vpn) is Some,
            r matches Some(c) ==> {
                &&& c@.len() == off_end - off_start
                &&& forall|k: int|
                    0 <= k < c@.len() ==> c@[k] == self.spec_frame_at(vpn).unwrap()[off_start + k]
            },
    {
        let n = self.areas.len();
        let mut i: usize = 0;
        proof {
            assert(self.areas@.skip(0) =~= self.areas@);
        }
        while i < n
            invariant
                self.wf(),
                n == self.areas@.len(),
                i <= n,
                spec_frame_at_rec(self.areas@.skip(i as int), vpn) == self.spec_frame_at(vpn),
                off_start <= off_end <= PAGE_SIZE,
            decreases n - i,
        {
            proof {
                assert(self.areas@.skip(i as int).first() == self.areas@[i as int]);
                assert(self.areas@.skip(i as int).drop_first() =~= self.areas@.skip(i as int + 1));
            }
            let area = &self.areas[i];
            let matching = match area.map_type {
                MapType::Framed => {
                    area.vpn_range.get_start().0 <= vpn && vpn < area.vpn_range.get_end().0
                },
                MapType::Identical => false,
            };
            if matching {
                let idx = (vpn - area.vpn_range.get_start().0) as usize;
                match &area.data_frames[idx] {
                    Some(t) => {
                        proof {
                            assert(spec_area_match(self.areas@[i as int], vpn));
                        }
                        let mut c: Vec<u8> = Vec::new();
                        let mut off = off_start;
                        while off < off_end
                            invariant
                                t.wf(),
                                off_start <= off <= off_end <= PAGE_SIZE,
                                c@.len() == off - off_start,
                                forall|k: int|
                                    0 <= k < c@.len() ==> c@[k] == t.bytes@[off_start + k],
                            decreases off_end - off,
                        {
                            c.push(t.read_byte(off as usize));
                            off = off + 1;
                        }
                        return Some(c);
                    },
                    None => {
                        proof {
                            assert(!spec_area_match(self.areas@[i as int], vpn));
                        }
                    },
                }
            } else {
                proof {
                    assert(!spec_area_match(self.areas@[i as int], vpn));
                }
            }
            i = i + 1;
        }
        proof {
            assert(self.areas@.skip(n as int) =~= Seq::<MapArea>::empty());
        }
        None
    }
}

/// Pages at or beyond the three-index limit are backed by no region.
proof fn lemma_frame_at_high(areas: Seq<MapArea>, vpn: u64)
    requires
        forall|i: int| 0 <= i < areas.len() ==> (#[trigger] areas[i]).wf(),
        vpn >= VPN_LIMIT,
    ensures
        spec_frame_at_rec(areas, vpn) is None,
    decreases areas.len(),
{
    if areas.len() > 0 {
        assert(areas[0].wf());
        assert(!spec_area_match(areas.first(), vpn));
        assert(forall|i: int|
            0 <= i < areas.drop_first().len() ==> (#[trigger] areas.drop_first()[i]).wf());
        lemma_frame_at_high(areas.drop_first(), vpn);
    }
}

/// Translate an application buffer into kernel-readable byte chunks,
/// one chunk per touched page; a buffer that straddles a page boundary
/// comes back split at it. Fails when a touched page is not backed by
/// an owned frame of this address space.
pub fn translated_byte_buffer(ms: &MemorySet, ptr: u64, len: u64) -> (r: Option<Vec<Vec<u8>>>)
    requires
        ms.wf(),
    ensures
        r is Some <==> spec_buffer_ok(ms, ptr, len),
        r matches Some(chunks) ==> {
            &&& chunks@.len() == spec_chunk_count(ptr, len)
            &&& forall|i: int|
                0 <= i < chunks@.len() ==> (#[trigger] chunks@[i])@.len() == spec_chunk_end(
                    ptr,
                    len,
                    i,
                ) - spec_chunk_start(ptr, i)
            &&& forall|i: int, j: int|
                0 <= i < chunks@.len() && 0 <= j < chunks@[i]@.len() ==> Some(
                    #[trigger] chunks@[i]@[j],
                ) == ms.spec_user_byte(((spec_chunk_start(ptr, i) + j) as u64))
        },
{
    if len == 0 {
        return Some(Vec::new());
    }
    if ptr > u64::MAX - len {
        return None;
    }
    let end = ptr + len;
    let first_vpn = ptr / PAGE_SIZE;
    let end_vpn = (end - 1) / PAGE_SIZE + 1;
    let mut v: Vec<Vec<u8>> = Vec::new();
    let mut start = ptr;
    while start < end
        invariant
            ms.wf(),
            0 < len,
            end == ptr + len,
            first_vpn == ptr / PAGE_SIZE,
            end_vpn == (end - 1) / (PAGE_SIZE as int) + 1,
            ptr <= start,
            start < end ==> start == spec_chunk_start(ptr, v@.len() as int),
            start <= end,
            first_vpn + v@.len() <= end_vpn,
            start < end ==> first_vpn + v@.len() < end_vpn,
            start == end ==> first_vpn + v@.len() == end_vpn,
            forall|w: u64|
                first_vpn <= w < first_vpn + v@.len() ==> (#[trigger] ms.spec_frame_at(w))
                    is Some,
            forall|i: int|
                0 <= i < v@.len() ==> (#[trigger] v@[i])@.len() == spec_chunk_end(ptr, len, i)
                    - spec_chunk_start(ptr, i),
            forall|i: int, j: int|
                0 <= i < v@.len() && 0 <= j < v@[i]@.len() ==> Some(#[trigger] v@[i]@[j])
                    == ms.spec_user_byte(((spec_chunk_start(ptr, i) + j) as u64)),
        decreases end - start,
    {
        let ghost i0 = v@.len() as int;
        let vpn = start / PAGE_SIZE;
        proof {
            assert(vpn == first_vpn + i0) by {
                if i0 == 0 {
                } else {
                    assert(start as int == (PAGE_SIZE as int) * (first_vpn + i0));
                    vstd::arithmetic::div_mod::lemma_div_multiples_vanish(
                        first_vpn + i0,
                        PAGE_SIZE as int,
                    );
                }
            };
            assert(first_vpn <= vpn < end_vpn);
        }
        if vpn >= VPN_LIMIT {
            proof {
                lemma_frame_at_high(ms.areas@, vpn);
            }
            return None;
        }
        let page_end = (vpn + 1) * PAGE_SIZE;
        proof {
            assert(vpn * PAGE_SIZE <= start < page_end) by {
                vstd::arithmetic::div_mod::lemma_fundamental_div_mod(
                    start as int,
                    PAGE_SIZE as int,
                );
            };
        }
        let end_va = if end < page_end {
            end
        } else {
            page_end
        };
        let off_start = start - vpn * PAGE_SIZE;
        let off_end = end_va - vpn * PAGE_SIZE;
        match ms.read_frame_chunk(vpn, off_start, off_end) {
            Some(c) => {
                proof {
                    assert(c@.len() == spec_chunk_end(ptr, len, i0) - spec_chunk_start(ptr, i0));
                    assert forall|j: int| 0 <= j < c@.len() implies Some(c@[j])
                        == ms.spec_user_byte(((spec_chunk_start(ptr, i0) + j) as u64)) by {
                        let va = (spec_chunk_start(ptr, i0) + j) as u64;
                        assert(va == start + j);
                        assert(va / PAGE_SIZE == vpn && va % PAGE_SIZE == off_start + j) by (
                        nonlinear_arith)
                            requires
                                va == vpn * (0x1000 as u64) + (off_start + j),
                                0 <= off_start + j < 0x1000,
                                0 <= vpn,
                                PAGE_SIZE == 0x1000,
                        ;
                    };
                }
                v.push(c);
                let ghost prev_start = start;
                start = end_va;
                proof {
                    if end < page_end {
                        assert(start == end);
                        assert((end - 1) as int / (PAGE_SIZE as int) == vpn) by {
                            vstd::arithmetic::div_mod::lemma_div_is_ordered(
                                prev_start as int,
                                (end - 1) as int,
                                PAGE_SIZE as int,
                            );
                            assert((end - 1) as int / (PAGE_SIZE as int) < vpn + 1) by (
                            nonlinear_arith)
                                requires
                                    end - 1 < (vpn + 1) * (0x1000 as u64),
                                    0 <= vpn,
                                    PAGE_SIZE == 0x1000,
                            ;
                        };
                        assert(first_vpn + v@.len() == end_vpn);
                    } else {
                        assert(start == page_end);
                        assert(start == spec_chunk_start(ptr, i0 + 1));
                        if start < end {
                            assert(start as int / (PAGE_SIZE as int) == vpn + 1) by {
                                assert(start as int == (PAGE_SIZE as int) * (vpn + 1));
                                vstd::arithmetic::div_mod::lemma_div_multiples_vanish(
                                    vpn + 1,
                                    PAGE_SIZE as int,
                                );
                            };
                            assert(vpn + 1 <= (end - 1) as int / (PAGE_SIZE as int)) by {
                                vstd::arithmetic::div_mod::lemma_div_is_ordered(
                                    start as int,
                                    (end - 1) as int,
                                    PAGE_SIZE as int,
                                );
                            };
                        } else {
                            assert(start == end);
                            assert((end - 1) as int / (PAGE_SIZE as int) == vpn) by {
                                vstd::arithmetic::div_mod::lemma_div_is_ordered(
                                    prev_start as int,
                                    (end - 1) as int,
                                    PAGE_SIZE as int,
                                );
                                assert((end - 1) as int / (PAGE_SIZE as int) < vpn + 1) by (
                                nonlinear_arith)
                                    requires
                                        end - 1 < (vpn + 1) * (0x1000 as u64),
                                        0 <= vpn,
                                        PAGE_SIZE == 0x1000,
                                ;
                            };
                        }
                    }
                }
            },
            None => {
                proof {
                    assert(ms.spec_frame_at(vpn) is None);
                }
                return None;
            },
        }
    }
    proof {
        assert(v@.len() == spec_chunk_count(ptr, len));
        assert forall|w: u64|
            ptr / PAGE_SIZE <= w < (ptr + len - 1) / (PAGE_SIZE as int) + 1 implies (
        #[trigger] ms.spec_frame_at(w)) is Some by {
            assert(first_vpn <= w < first_vpn + v@.len());
        };
    }
    Some(v)
}

} // verus!
