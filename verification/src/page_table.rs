//! The three-level radix page table.
//!
//! Each table node is one frame holding 512 entries. An entry with the
//! Valid bit clear is an absent mapping; Valid set with R/W/X all clear
//! is an internal node; Valid with any of R/W/X set is a leaf. The table
//! here is an explicit tree: each level owns the frames of its children,
//! so frame release is the plain last-owner-drops rule of the ownership
//! model rather than manual bookkeeping.
use vstd::prelude::*;

use crate::address::{
    lemma_indexes_injective, spec_index0, spec_index1, spec_index2, PhysPageNum, VirtPageNum,
    PPN_BOUND,
};
use crate::config::VPN_LIMIT;
use crate::error::KernelError;
use crate::frame_allocator::{
    alloc_step, alloc_wf, frame_alloc, free_frames, StackFrameAllocator,
};
use crate::frame_tracker::FrameTracker;

verus! {

/// Valid bit of a page-table entry.
pub const PTE_V: u8 = 1;
/// Readable bit.
pub const PTE_R: u8 = 2;
/// Writable bit.
pub const PTE_W: u8 = 4;
/// Executable bit.
pub const PTE_X: u8 = 8;
/// User-accessible bit.
pub const PTE_U: u8 = 16;
/// Global bit.
pub const PTE_G: u8 = 32;
/// Accessed bit.
pub const PTE_A: u8 = 64;
/// Dirty bit.
pub const PTE_D: u8 = 128;

/// A page-table entry: the physical page number in bits 10 and up, the
/// eight flag bits at the bottom.
#[derive(Clone, Copy, PartialEq, Eq, Structural, Debug)]
pub struct PageTableEntry {
    pub bits: u64,
}

/// The flag byte with the Valid bit switched on.
pub open spec fn spec_with_valid(flags: u8) -> u8 {
    if flags % 2 == 1 {
        flags
    } else {
        (flags + 1) as u8
    }
}

/// The entry encoding `ppn` with flag byte `flags`.
pub open spec fn spec_pte(ppn: u64, flags: u8) -> PageTableEntry {
    PageTableEntry { bits: (ppn * 1024 + flags) as u64 }
}

impl PageTableEntry {
    /// The physical page number stored in the entry.
    pub open spec fn spec_ppn(self) -> u64 {
        (self.bits / 1024) % PPN_BOUND
    }

    /// The flag byte stored in the entry.
    pub open spec fn spec_flags(self) -> u8 {
        (self.bits % 256) as u8
    }

    /// Valid bit set?
    pub open spec fn spec_valid(self) -> bool {
        self.bits % 2 == 1
    }

    /// Readable bit set?
    pub open spec fn spec_readable(self) -> bool {
        (self.bits / 2) % 2 == 1
    }

    /// Writable bit set?
    pub open spec fn spec_writable(self) -> bool {
        (self.bits / 4) % 2 == 1
    }

    /// Executable bit set?
    pub open spec fn spec_executable(self) -> bool {
        (self.bits / 8) % 2 == 1
    }

    /// Encode `ppn` and `flags` into an entry.
    pub fn new(ppn: PhysPageNum, flags: u8) -> (r: PageTableEntry)
        requires
            ppn.0 < PPN_BOUND,
        ensures
            r == spec_pte(ppn.0, flags),
            r.spec_ppn() == ppn.0,
            r.spec_flags() == flags,
    {
        proof {
            lemma_pte_encode(ppn.0, flags);
        }
        PageTableEntry { bits: ppn.0 * 1024 + flags as u64 }
    }

    /// The all-zero entry: an absent mapping.
    pub fn empty() -> (r: PageTableEntry)
        ensures
            r.bits == 0,
            !r.spec_valid(),
            r.spec_ppn() == 0,
            r.spec_flags() == 0,
    {
        PageTableEntry { bits: 0 }
    }

    /// The physical page number stored in the entry.
    pub fn ppn(&self) -> (r: PhysPageNum)
        ensures
            r.0 == self.spec_ppn(),
    {
        PhysPageNum((self.bits / 1024) % PPN_BOUND)
    }

    /// The flag byte stored in the entry.
    pub fn flags(&self) -> (r: u8)
        ensures
            r == self.spec_flags(),
    {
        (self.bits % 256) as u8
    }

    pub fn is_valid(&self) -> (r: bool)
        ensures
            r == self.spec_valid(),
    {
        self.bits % 2 == 1
    }

    pub fn readable(&self) -> (r: bool)
        ensures
            r == self.spec_readable(),
    {
        (self.bits / 2) % 2 == 1
    }

    pub fn writable(&self) -> (r: bool)
        ensures
            r == self.spec_writable(),
    {
        (self.bits / 4) % 2 == 1
    }

    pub fn executable(&self) -> (r: bool)
        ensures
            r == self.spec_executable(),
    {
        (self.bits / 8) % 2 == 1
    }
}

/// Field extraction inverts the entry encoding.
pub proof fn lemma_pte_encode(ppn: u64, flags: u8)
    requires
        ppn < PPN_BOUND,
    ensures
        spec_pte(ppn, flags).spec_ppn() == ppn,
        spec_pte(ppn, flags).spec_flags() == flags,
        spec_pte(ppn, flags).spec_valid() == (flags % 2 == 1),
{
    let bits = ppn * 1024 + flags;
    assert(bits / 1024 == ppn && bits % 1024 == flags) by (nonlinear_arith)
        requires
            0 <= ppn,
            0 <= flags < 1024,
            bits == ppn * 1024 + flags,
    ;
    assert(bits % 256 == flags && bits % 2 == flags % 2) by (nonlinear_arith)
        requires
            0 <= ppn,
            0 <= flags < 256,
            bits == (ppn * 4) * 256 + flags,
    ;
    assert(ppn % PPN_BOUND == ppn) by {
        vstd::arithmetic::div_mod::lemma_small_mod(ppn as nat, PPN_BOUND as nat);
    };
}

/// A leaf-level table: 512 page-table entries, in a frame it owns.
struct Node0 {
    frame: FrameTracker,
    ptes: Vec<PageTableEntry>,
}

impl Node0 {
    spec fn wf(&self) -> bool {
        self.ptes@.len() == 512
    }
}

/// A middle-level table: up to 512 child leaf tables, in a frame it owns.
struct Node1 {
    frame: FrameTracker,
    slots: Vec<Option<Node0>>,
}

impl Node1 {
    spec fn wf(&self) -> bool {
        &&& self.slots@.len() == 512
        &&& forall|i: int|
            0 <= i < 512 ==> match #[trigger] self.slots@[i] {
                Some(n0) => n0.wf(),
                None => true,
            }
    }
}

/// The page table: the root frame's page number, the owned root frame,
/// and the top-level child slots.
pub struct PageTable {
    root_ppn: PhysPageNum,
    root_frame: FrameTracker,
    slots: Vec<Option<Node1>>,
}

/// The control-register token for a root page number: the paging-enabled
/// mode tag in the high bits, the root page number in the low bits.
pub open spec fn spec_satp_token(ppn: u64) -> u64 {
    (0x8000_0000_0000_0000u64 + ppn) as u64
}

/// A token's low bits recover the root page number it was built from.
pub proof fn lemma_token_roundtrip(ppn: u64)
    requires
        ppn < PPN_BOUND,
    ensures
        spec_satp_token(ppn) % PPN_BOUND == ppn,
{
    assert((0x8000_0000_0000_0000u64 + ppn) % (PPN_BOUND as int) == ppn) by (nonlinear_arith)
        requires
            0 <= ppn < 0x1000_0000_0000u64,
    ;
}

impl PageTable {
    /// Structural invariant: a full top-level row and full rows in every
    /// allocated node.
    pub closed spec fn wf(&self) -> bool {
        &&& self.root_ppn.0 < PPN_BOUND
        &&& self.slots@.len() == 512
        &&& forall|i: int|
            0 <= i < 512 ==> match #[trigger] self.slots@[i] {
                Some(n1) => n1.wf(),
                None => true,
            }
    }

    /// The root frame's page number.
    pub closed spec fn spec_root_ppn(&self) -> u64 {
        self.root_ppn.0
    }

    /// The read-only walk: the leaf entry reached from `vpn`'s three
    /// indices, or `None` if an intermediate level is absent (or `vpn`
    /// is beyond the three-index range).
    pub closed spec fn spec_translate(&self, vpn: u64) -> Option<PageTableEntry> {
        if vpn >= VPN_LIMIT {
            None
        } else {
            match self.slots@[spec_index0(vpn) as int] {
                Some(n1) => match n1.slots@[spec_index1(vpn) as int] {
                    Some(n0) => Some(n0.ptes@[spec_index2(vpn) as int]),
                    None => None,
                },
                None => None,
            }
        }
    }

    /// The mapping the hardware would honour: the leaf entry, if it is
    /// present and valid.
    pub open spec fn spec_mapping(&self, vpn: u64) -> Option<PageTableEntry> {
        match self.spec_translate(vpn) {
            Some(pte) => if pte.spec_valid() {
                Some(pte)
            } else {
                None
            },
            None => None,
        }
    }

    /// Frames a `map` of `vpn` would have to allocate for missing
    /// intermediate nodes.
    pub closed spec fn spec_frames_needed(&self, vpn: u64) -> nat {
        match self.slots@[spec_index0(vpn) as int] {
            Some(n1) => match n1.slots@[spec_index1(vpn) as int] {
                Some(_) => 0,
                None => 1,
            },
            None => 2,
        }
    }
}

impl PageTable {
    /// A walk never needs more than the two intermediate levels.
    pub proof fn lemma_frames_needed_bound(&self, vpn: u64)
        ensures
            self.spec_frames_needed(vpn) <= 2,
    {
    }
}

/// A full row of 512 absent top-level slots.
fn empty_top_row() -> (r: Vec<Option<Node1>>)
    ensures
        r@.len() == 512,
        forall|i: int| 0 <= i < 512 ==> r@[i] is None,
{
    let mut v: Vec<Option<Node1>> = Vec::new();
    let mut i: usize = 0;
    while i < 512
        invariant
            i <= 512,
            v@.len() == i,
            forall|k: int| 0 <= k < i ==> v@[k] is None,
        decreases 512 - i,
    {
        v.push(None);
        i = i + 1;
    }
    v
}

/// A full row of 512 absent middle-level slots.
fn empty_mid_row() -> (r: Vec<Option<Node0>>)
    ensures
        r@.len() == 512,
        forall|i: int| 0 <= i < 512 ==> r@[i] is None,
{
    let mut v: Vec<Option<Node0>> = Vec::new();
    let mut i: usize = 0;
    while i < 512
        invariant
            i <= 512,
            v@.len() == i,
            forall|k: int| 0 <= k < i ==> v@[k] is None,
        decreases 512 - i,
    {
        v.push(None);
        i = i + 1;
    }
    v
}

/// A full row of 512 absent leaf entries.
fn empty_pte_row() -> (r: Vec<PageTableEntry>)
    ensures
        r@.len() == 512,
        forall|i: int| 0 <= i < 512 ==> r@[i].bits == 0,
{
    let mut v: Vec<PageTableEntry> = Vec::new();
    let mut i: usize = 0;
    while i < 512
        invariant
            i <= 512,
            v@.len() == i,
            forall|k: int| 0 <= k < i ==> v@[k].bits == 0,
        decreases 512 - i,
    {
        v.push(PageTableEntry::empty());
        i = i + 1;
    }
    v
}

impl PageTable {
    /// An empty table over a freshly allocated root frame. Fails only
    /// when the frame pool is exhausted.
    pub fn new(a: &mut StackFrameAllocator) -> (r: Result<PageTable, KernelError>)
        requires
            alloc_wf(old(a)@),
        ensures
            alloc_wf(final(a)@),
            final(a)@ == alloc_step(old(a)@).0,
            r is Ok <==> free_frames(old(a)@) > 0,
            match r {
                Ok(pt) => {
                    &&& pt.wf()
                    &&& alloc_step(old(a)@).1 == Some(pt.spec_root_ppn())
                    &&& forall|vpn: u64| pt.spec_translate(vpn) is None
                },
                Err(e) => e == KernelError::OutOfFrames,
            },
    {
        match frame_alloc(a) {
            Some(frame) => {
                let root_ppn = frame.ppn;
                Ok(PageTable { root_ppn, root_frame: frame, slots: empty_top_row() })
            },
            None => Err(KernelError::OutOfFrames),
        }
    }

    /// A non-owning view of another address space's table, rebuilt
    /// from a previously obtained control-register token. The view
    /// owns no frames and translates exactly as the owning table does.
    /// In this model the mappings live in the owner's tree rather than
    /// in ambient physical memory, so rebuilding the view means
    /// locating the table the token was taken from; a token that does
    /// not belong to `owner` yields nothing.
    pub fn from_token<'a>(satp: u64, owner: &'a PageTable) -> (r: Option<&'a PageTable>)
        requires
            owner.wf(),
        ensures
            r is Some <==> satp == spec_satp_token(owner.spec_root_ppn()),
            r matches Some(v) ==> {
                &&& *v == *owner
                &&& v.spec_root_ppn() == satp % PPN_BOUND
                &&& forall|vpn: u64| #[trigger] v.spec_translate(vpn) == owner.spec_translate(
                    vpn,
                )
            },
    {
        if satp == owner.token() {
            Some(owner)
        } else {
            None
        }
    }

    /// The control-register-ready token of this table: paging-enabled
    /// mode in the high bits, the root page number in the low bits.
    pub fn token(&self) -> (r: u64)
        requires
            self.wf(),
        ensures
            r == spec_satp_token(self.spec_root_ppn()),
            r % PPN_BOUND == self.spec_root_ppn(),
    {
        proof {
            lemma_token_roundtrip(self.root_ppn.0);
        }
        0x8000_0000_0000_0000u64 + self.root_ppn.0
    }

    /// The read-only walk.
    pub fn translate(&self, vpn: VirtPageNum) -> (r: Option<PageTableEntry>)
        requires
            self.wf(),
        ensures
            r == self.spec_translate(vpn.0),
    {
        if vpn.0 >= VPN_LIMIT {
            return None;
        }
        let (i0, i1, i2) = vpn.indexes();
        match &self.slots[i0 as usize] {
            Some(n1) => match &n1.slots[i1 as usize] {
                Some(n0) => Some(n0.ptes[i2 as usize]),
                None => None,
            },
            None => None,
        }
    }

    /// Install the mapping `vpn -> ppn` with `flags` (the Valid bit is
    /// added). Rejects a leaf that is already valid before any change;
    /// creates missing intermediate nodes from the frame pool.
    pub fn map(
        &mut self,
        a: &mut StackFrameAllocator,
        vpn: VirtPageNum,
        ppn: PhysPageNum,
        flags: u8,
    ) -> (r: Result<(), KernelError>)
        requires
            old(self).wf(),
            alloc_wf(old(a)@),
            vpn.0 < VPN_LIMIT,
            ppn.0 < PPN_BOUND,
        ensures
            final(self).wf(),
            alloc_wf(final(a)@),
            final(a)@.end == old(a)@.end,
            final(self).spec_root_ppn() == old(self).spec_root_ppn(),
            r is Ok <==> (old(self).spec_mapping(vpn.0) is None && old(self).spec_frames_needed(
                vpn.0,
            ) <= free_frames(old(a)@)),
            r == Err::<(), KernelError>(KernelError::AlreadyMapped) <==> old(self).spec_mapping(
                vpn.0,
            ) is Some,
            r is Ok ==> final(self).spec_mapping(vpn.0) == Some(
                spec_pte(ppn.0, spec_with_valid(flags)),
            ),
            r is Ok ==> free_frames(final(a)@) == free_frames(old(a)@) - old(
                self,
            ).spec_frames_needed(vpn.0),
            r == Err::<(), KernelError>(KernelError::OutOfFrames) ==> free_frames(final(a)@) == 0,
            r is Err ==> r == Err::<(), KernelError>(KernelError::AlreadyMapped) || r == Err::<
                (),
                KernelError,
            >(KernelError::OutOfFrames),
            free_frames(final(a)@) <= free_frames(old(a)@),
            free_frames(final(a)@) + 2 >= free_frames(old(a)@),
            r is Err ==> final(self).spec_mapping(vpn.0) == old(self).spec_mapping(vpn.0),
            r == Err::<(), KernelError>(KernelError::AlreadyMapped) ==> *final(a) == *old(a),
            forall|w: u64|
                w < VPN_LIMIT && w != vpn.0 ==> final(self).spec_mapping(w) == old(
                    self,
                ).spec_mapping(w),
    {
        let ghost old_self = *old(self);
        let (i0, i1, i2) = vpn.indexes();
        let slot1 = self.slots.remove(i0 as usize);
        let mut created1 = false;
        let mut n1: Node1 = match slot1 {
            Some(n1) => n1,
            None => {
                match frame_alloc(a) {
                    Some(frame) => {
                        created1 = true;
                        Node1 { frame, slots: empty_mid_row() }
                    },
                    None => {
                        self.slots.insert(i0 as usize, None);
                        proof {
                            assert(self.slots@ =~= old_self.slots@);
                        }
                        return Err(KernelError::OutOfFrames);
                    },
                }
            },
        };
        let slot0 = n1.slots.remove(i1 as usize);
        let mut n0: Node0 = match slot0 {
            Some(n0) => n0,
            None => {
                match frame_alloc(a) {
                    Some(frame) => Node0 { frame, ptes: empty_pte_row() },
                    None => {
                        n1.slots.insert(i1 as usize, None);
                        self.slots.insert(i0 as usize, Some(n1));
                        proof {
                            lemma_map_unreached(old_self, *self, vpn.0);
                        }
                        return Err(KernelError::OutOfFrames);
                    },
                }
            },
        };
        let leaf = n0.ptes[i2 as usize];
        if leaf.is_valid() {
            n1.slots.insert(i1 as usize, Some(n0));
            self.slots.insert(i0 as usize, Some(n1));
            proof {
                lemma_map_updated(old_self, *self, vpn.0, leaf);
            }
            return Err(KernelError::AlreadyMapped);
        }
        let new_pte = PageTableEntry::new(ppn, with_valid(flags));
        n0.ptes.set(i2 as usize, new_pte);
        n1.slots.insert(i1 as usize, Some(n0));
        self.slots.insert(i0 as usize, Some(n1));
        proof {
            lemma_map_updated(old_self, *self, vpn.0, new_pte);
        }
        Ok(())
    }

    /// Clear the mapping at `vpn`. Rejects a leaf that is not currently
    /// valid, leaving the table unchanged.
    pub fn unmap(&mut self, vpn: VirtPageNum) -> (r: Result<(), KernelError>)
        requires
            old(self).wf(),
            vpn.0 < VPN_LIMIT,
        ensures
            final(self).wf(),
            final(self).spec_root_ppn() == old(self).spec_root_ppn(),
            r is Ok <==> old(self).spec_mapping(vpn.0) is Some,
            r is Err ==> *final(self) == *old(self) && r == Err::<(), KernelError>(
                KernelError::NotMapped,
            ),
            r is Ok ==> final(self).spec_mapping(vpn.0) is None,
            forall|w: u64|
                w < VPN_LIMIT && w != vpn.0 ==> final(self).spec_mapping(w) == old(
                    self,
                ).spec_mapping(w),
    {
        let ghost old_self = *old(self);
        let (i0, i1, i2) = vpn.indexes();
        let present = match &self.slots[i0 as usize] {
            Some(n1) => match &n1.slots[i1 as usize] {
                Some(n0) => n0.ptes[i2 as usize].is_valid(),
                None => false,
            },
            None => false,
        };
        if !present {
            return Err(KernelError::NotMapped);
        }
        let slot1 = self.slots.remove(i0 as usize);
        let mut n1 = match slot1 {
            Some(n1) => n1,
            None => {
                proof {
                    assert(false);
                }
                unreached()
            },
        };
        let slot0 = n1.slots.remove(i1 as usize);
        let mut n0 = match slot0 {
            Some(n0) => n0,
            None => {
                proof {
                    assert(false);
                }
                unreached()
            },
        };
        n0.ptes.set(i2 as usize, PageTableEntry::empty());
        n1.slots.insert(i1 as usize, Some(n0));
        self.slots.insert(i0 as usize, Some(n1));
        proof {
            lemma_map_updated(old_self, *self, vpn.0, PageTableEntry { bits: 0 });
        }
        Ok(())
    }
}

/// Exec computation of `spec_with_valid`.
fn with_valid(flags: u8) -> (r: u8)
    ensures
        r == spec_with_valid(flags),
{
    if flags % 2 == 1 {
        flags
    } else {
        flags + 1
    }
}

/// After a walk that created intermediate nodes but changed no leaf, all
/// mappings read as before.
proof fn lemma_map_unreached(pre: PageTable, post: PageTable, vpn: u64)
    requires
        pre.wf(),
        post.wf(),
        vpn < VPN_LIMIT,
        post.slots@.len() == 512,
        forall|i: int| 0 <= i < 512 && i != spec_index0(vpn) ==> post.slots@[i] == pre.slots@[i],
        ({
            let i0 = spec_index0(vpn) as int;
            match post.slots@[i0] {
                Some(n1) => match pre.slots@[i0] {
                    Some(p1) => forall|j: int|
                        0 <= j < 512 ==> #[trigger] n1.slots@[j] == p1.slots@[j],
                    None => forall|j: int| 0 <= j < 512 ==> #[trigger] n1.slots@[j] is None,
                },
                None => pre.slots@[i0] is None,
            }
        }),
    ensures
        forall|w: u64| pre.spec_mapping(w) == post.spec_mapping(w),
        forall|w: u64| w < VPN_LIMIT ==> post.spec_translate(w) == pre.spec_translate(w)
            || (pre.spec_translate(w) is None && post.spec_translate(w) is None),
{
    assert forall|w: u64| pre.spec_mapping(w) == post.spec_mapping(w) by {
        if w < VPN_LIMIT {
            let i0 = spec_index0(w) as int;
            if i0 == spec_index0(vpn) as int {
                match post.slots@[i0] {
                    Some(n1) => {
                        match pre.slots@[i0] {
                            Some(p1) => {
                                assert(n1.slots@[spec_index1(w) as int] == p1.slots@[spec_index1(
                                    w,
                                ) as int]);
                            },
                            None => {
                                assert(n1.slots@[spec_index1(w) as int] is None);
                            },
                        }
                    },
                    None => {},
                }
            }
        }
    };
}

/// After writing one leaf entry, `vpn` reads the new entry and every
/// other page number reads as before.
proof fn lemma_map_updated(pre: PageTable, post: PageTable, vpn: u64, pte: PageTableEntry)
    requires
        pre.wf(),
        post.wf(),
        vpn < VPN_LIMIT,
        forall|i: int| 0 <= i < 512 && i != spec_index0(vpn) ==> post.slots@[i] == pre.slots@[i],
        post.slots@[spec_index0(vpn) as int] is Some,
        ({
            let i0 = spec_index0(vpn) as int;
            let i1 = spec_index1(vpn) as int;
            let i2 = spec_index2(vpn) as int;
            let n1 = post.slots@[i0].unwrap();
            &&& match pre.slots@[i0] {
                Some(p1) => forall|j: int|
                    0 <= j < 512 && j != i1 ==> #[trigger] n1.slots@[j] == p1.slots@[j],
                None => forall|j: int| 0 <= j < 512 && j != i1 ==> #[trigger] n1.slots@[j] is None,
            }
            &&& n1.slots@[i1] is Some
            &&& ({
                let n0 = n1.slots@[i1].unwrap();
                &&& n0.ptes@[i2] == pte
                &&& match pre.slots@[i0] {
                    Some(p1) => match p1.slots@[i1] {
                        Some(p0) => forall|k: int|
                            0 <= k < 512 && k != i2 ==> #[trigger] n0.ptes@[k] == p0.ptes@[k],
                        None => forall|k: int|
                            0 <= k < 512 && k != i2 ==> (#[trigger] n0.ptes@[k]).bits == 0,
                    },
                    None => forall|k: int|
                        0 <= k < 512 && k != i2 ==> (#[trigger] n0.ptes@[k]).bits == 0,
                }
            })
        }),
    ensures
        post.spec_translate(vpn) == Some(pte),
        forall|w: u64|
            w < VPN_LIMIT && w != vpn ==> post.spec_mapping(w) == pre.spec_mapping(w),
{
    assert forall|w: u64|
        w < VPN_LIMIT && w != vpn implies post.spec_mapping(w) == pre.spec_mapping(w) by {
        let i0 = spec_index0(w) as int;
        let i1 = spec_index1(w) as int;
        let i2 = spec_index2(w) as int;
        if i0 == spec_index0(vpn) as int {
            let n1 = post.slots@[i0].unwrap();
            if i1 == spec_index1(vpn) as int {
                let n0 = n1.slots@[i1].unwrap();
                if i2 == spec_index2(vpn) as int {
                    lemma_indexes_injective(w, vpn);
                } else {
                    match pre.slots@[i0] {
                        Some(p1) => {
                            match p1.slots@[i1] {
                                Some(p0) => {
                                    assert(n0.ptes@[i2] == p0.ptes@[i2]);
                                },
                                None => {
                                    assert(n0.ptes@[i2].bits == 0);
                                },
                            }
                        },
                        None => {
                            assert(n0.ptes@[i2].bits == 0);
                        },
                    }
                }
            } else {
                match pre.slots@[i0] {
                    Some(p1) => {
                        assert(n1.slots@[i1] == p1.slots@[i1]);
                    },
                    None => {
                        assert(n1.slots@[i1] is None);
                    },
                }
            }
        }
    };
}

} // verus!
