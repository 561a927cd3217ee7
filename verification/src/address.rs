//! Physical and virtual addresses and page numbers.
//!
//! An address is a 64-bit machine word; a page number is the address with
//! the 12 page-offset bits removed. Virtual addresses carry 39 significant
//! bits, physical addresses 56, so virtual page numbers are 27 bits wide
//! and decompose into exactly three 9-bit page-table indices.
use vstd::prelude::*;

use crate::config::{PAGE_SIZE, VPN_LIMIT};

verus! {

/// Numeric bound on physical addresses: 2^56.
pub const PA_BOUND: u64 = 0x100_0000_0000_0000;
/// Numeric bound on virtual addresses: 2^39.
pub const VA_BOUND: u64 = 0x80_0000_0000;
/// Numeric bound on physical page numbers: 2^44.
pub const PPN_BOUND: u64 = 0x1000_0000_0000;

#[derive(Clone, Copy, PartialEq, Eq, Structural, Debug)]
pub struct PhysAddr(pub u64);

#[derive(Clone, Copy, PartialEq, Eq, Structural, Debug)]
pub struct VirtAddr(pub u64);

#[derive(Clone, Copy, PartialEq, Eq, Structural, Debug)]
pub struct PhysPageNum(pub u64);

#[derive(Clone, Copy, PartialEq, Eq, Structural, Debug)]
pub struct VirtPageNum(pub u64);

impl From<u64> for PhysAddr {
    fn from(v: u64) -> Self {
        PhysAddr(v % PA_BOUND)
    }
}

impl vstd::std_specs::convert::FromSpecImpl<u64> for PhysAddr {
    open spec fn obeys_from_spec() -> bool {
        true
    }

    open spec fn from_spec(v: u64) -> Self {
        PhysAddr(v % PA_BOUND)
    }
}

impl From<u64> for VirtAddr {
    fn from(v: u64) -> Self {
        VirtAddr(v % VA_BOUND)
    }
}

impl vstd::std_specs::convert::FromSpecImpl<u64> for VirtAddr {
    open spec fn obeys_from_spec() -> bool {
        true
    }

    open spec fn from_spec(v: u64) -> Self {
        VirtAddr(v % VA_BOUND)
    }
}

impl From<u64> for PhysPageNum {
    fn from(v: u64) -> Self {
        PhysPageNum(v % PPN_BOUND)
    }
}

impl vstd::std_specs::convert::FromSpecImpl<u64> for PhysPageNum {
    open spec fn obeys_from_spec() -> bool {
        true
    }

    open spec fn from_spec(v: u64) -> Self {
        PhysPageNum(v % PPN_BOUND)
    }
}

impl From<u64> for VirtPageNum {
    fn from(v: u64) -> Self {
        VirtPageNum(v % VPN_LIMIT)
    }
}

impl vstd::std_specs::convert::FromSpecImpl<u64> for VirtPageNum {
    open spec fn obeys_from_spec() -> bool {
        true
    }

    open spec fn from_spec(v: u64) -> Self {
        VirtPageNum(v % VPN_LIMIT)
    }
}

impl VirtAddr {
    /// Page number of the page containing this address.
    pub fn floor(&self) -> (r: VirtPageNum)
        ensures
            r.0 == self.0 / PAGE_SIZE,
    {
        VirtPageNum(self.0 / PAGE_SIZE)
    }

    /// Page number of the first page boundary at or above this address.
    pub fn ceil(&self) -> (r: VirtPageNum)
        ensures
            r.0 == (self.0 + PAGE_SIZE - 1) / (PAGE_SIZE as int),
    {
        if self.0 == 0 {
            VirtPageNum(0)
        } else {
            VirtPageNum((self.0 - 1) / PAGE_SIZE + 1)
        }
    }

    /// Offset of this address within its page.
    pub fn page_offset(&self) -> (r: u64)
        ensures
            r == self.0 % PAGE_SIZE,
    {
        self.0 % PAGE_SIZE
    }

    /// True exactly when this address is the first byte of a page.
    pub fn aligned(&self) -> (r: bool)
        ensures
            r == (self.0 % PAGE_SIZE == 0),
    {
        self.0 % PAGE_SIZE == 0
    }
}

impl PhysAddr {
    /// Page number of the frame containing this address.
    pub fn floor(&self) -> (r: PhysPageNum)
        ensures
            r.0 == self.0 / PAGE_SIZE,
    {
        PhysPageNum(self.0 / PAGE_SIZE)
    }

    /// Page number of the first frame boundary at or above this address.
    pub fn ceil(&self) -> (r: PhysPageNum)
        ensures
            r.0 == (self.0 + PAGE_SIZE - 1) / (PAGE_SIZE as int),
    {
        if self.0 == 0 {
            PhysPageNum(0)
        } else {
            PhysPageNum((self.0 - 1) / PAGE_SIZE + 1)
        }
    }

    /// Offset of this address within its frame.
    pub fn page_offset(&self) -> (r: u64)
        ensures
            r == self.0 % PAGE_SIZE,
    {
        self.0 % PAGE_SIZE
    }

    /// True exactly when this address is the first byte of a frame.
    pub fn aligned(&self) -> (r: bool)
        ensures
            r == (self.0 % PAGE_SIZE == 0),
    {
        self.0 % PAGE_SIZE == 0
    }
}

impl From<VirtPageNum> for VirtAddr {
    fn from(v: VirtPageNum) -> Self {
        VirtAddr(((v.0 % VPN_LIMIT) * PAGE_SIZE) as u64)
    }
}

impl vstd::std_specs::convert::FromSpecImpl<VirtPageNum> for VirtAddr {
    open spec fn obeys_from_spec() -> bool {
        true
    }

    open spec fn from_spec(v: VirtPageNum) -> Self {
        VirtAddr(((v.0 % VPN_LIMIT) * PAGE_SIZE) as u64)
    }
}

impl From<PhysPageNum> for PhysAddr {
    fn from(v: PhysPageNum) -> Self {
        PhysAddr(((v.0 % PPN_BOUND) * PAGE_SIZE) as u64)
    }
}

impl vstd::std_specs::convert::FromSpecImpl<PhysPageNum> for PhysAddr {
    open spec fn obeys_from_spec() -> bool {
        true
    }

    open spec fn from_spec(v: PhysPageNum) -> Self {
        PhysAddr(((v.0 % PPN_BOUND) * PAGE_SIZE) as u64)
    }
}

/// Index into the top-level (level 2) table for `vpn`: bits 18..27.
pub open spec fn spec_index0(vpn: u64) -> u64 {
    (vpn / 0x40000) % 512
}

/// Index into the middle (level 1) table for `vpn`: bits 9..18.
pub open spec fn spec_index1(vpn: u64) -> u64 {
    (vpn / 512) % 512
}

/// Index into the leaf (level 0) table for `vpn`: bits 0..9.
pub open spec fn spec_index2(vpn: u64) -> u64 {
    vpn % 512
}

impl VirtPageNum {
    /// The three 9-bit page-table indices of this page number, highest
    /// level first.
    pub fn indexes(&self) -> (r: (u64, u64, u64))
        ensures
            r.0 == spec_index0(self.0),
            r.1 == spec_index1(self.0),
            r.2 == spec_index2(self.0),
            r.0 < 512 && r.1 < 512 && r.2 < 512,
    {
        ((self.0 / 0x40000) % 512, (self.0 / 512) % 512, self.0 % 512)
    }
}

/// Two virtual page numbers below the 27-bit bound are equal as soon as
/// their three page-table indices agree: the radix decomposition is
/// injective.
pub proof fn lemma_indexes_injective(a: u64, b: u64)
    requires
        a < VPN_LIMIT,
        b < VPN_LIMIT,
        spec_index0(a) == spec_index0(b),
        spec_index1(a) == spec_index1(b),
        spec_index2(a) == spec_index2(b),
    ensures
        a == b,
{
    lemma_index_decompose(a);
    lemma_index_decompose(b);
}

/// A virtual page number below the 27-bit bound is recovered from its
/// three indices.
pub proof fn lemma_index_decompose(a: u64)
    requires
        a < VPN_LIMIT,
    ensures
        a == spec_index0(a) * 0x40000 + spec_index1(a) * 512 + spec_index2(a),
{
    let q = a as int / 512;
    vstd::arithmetic::div_mod::lemma_fundamental_div_mod(a as int, 512);
    vstd::arithmetic::div_mod::lemma_fundamental_div_mod(q, 512);
    vstd::arithmetic::div_mod::lemma_div_denominator(a as int, 512, 512);
    assert(a as int / 0x40000 == q / 512);
    assert(0 <= a as int / 0x40000 < 512) by (nonlinear_arith)
        requires
            0 <= a < 0x8000000,
    ;
    assert((a as int / 0x40000) % 512 == a as int / 0x40000) by {
        vstd::arithmetic::div_mod::lemma_small_mod((a as int / 0x40000) as nat, 512);
    };
}

/// A type whose values advance in single-page steps; used to iterate over
/// contiguous page-number ranges.
pub trait StepByOne: Sized {
    /// True when stepping cannot overflow.
    spec fn can_step(&self) -> bool;

    /// The value one step further on.
    spec fn step_spec(&self) -> Self;

    fn step(&mut self)
        requires
            old(self).can_step(),
        ensures
            *final(self) == old(self).step_spec(),
    ;
}

impl StepByOne for VirtPageNum {
    open spec fn can_step(&self) -> bool {
        self.0 < u64::MAX
    }

    open spec fn step_spec(&self) -> Self {
        VirtPageNum((self.0 + 1) as u64)
    }

    fn step(&mut self) {
        self.0 = self.0 + 1;
    }
}

/// A contiguous, half-open range of virtual page numbers.
#[derive(Clone, Copy)]
pub struct SimpleRange {
    pub l: VirtPageNum,
    pub r: VirtPageNum,
}

/// The conventional name for a range of virtual page numbers.
pub type VPNRange = SimpleRange;

impl SimpleRange {
    pub fn new(start: VirtPageNum, end: VirtPageNum) -> (r: SimpleRange)
        requires
            start.0 <= end.0,
        ensures
            r.l == start,
            r.r == end,
    {
        SimpleRange { l: start, r: end }
    }

    pub fn get_start(&self) -> (r: VirtPageNum)
        ensures
            r == self.l,
    {
        self.l
    }

    pub fn get_end(&self) -> (r: VirtPageNum)
        ensures
            r == self.r,
    {
        self.r
    }

    /// Number of pages in the range.
    pub open spec fn spec_len(&self) -> nat {
        if self.l.0 <= self.r.0 {
            (self.r.0 - self.l.0) as nat
        } else {
            0
        }
    }

    /// True when `vpn` lies inside the range.
    pub open spec fn contains(&self, vpn: u64) -> bool {
        self.l.0 <= vpn < self.r.0
    }

    pub fn into_iter(self) -> (r: SimpleRangeIterator)
        ensures
            r.current == self.l,
            r.end == self.r,
    {
        SimpleRangeIterator { current: self.l, end: self.r }
    }
}

/// Step-by-step traversal of a `SimpleRange`.
pub struct SimpleRangeIterator {
    pub current: VirtPageNum,
    pub end: VirtPageNum,
}

impl SimpleRangeIterator {
    pub fn new(l: VirtPageNum, r: VirtPageNum) -> (it: SimpleRangeIterator)
        ensures
            it.current == l,
            it.end == r,
    {
        SimpleRangeIterator { current: l, end: r }
    }

    /// The next page number of the range, or `None` once the end is
    /// reached.
    pub fn next(&mut self) -> (r: Option<VirtPageNum>)
        requires
            old(self).current.0 <= old(self).end.0,
        ensures
            final(self).end == old(self).end,
            old(self).current.0 == old(self).end.0 ==> r is None && *final(self)
                == *old(self),
            old(self).current.0 < old(self).end.0 ==> r == Some(old(self).current)
                && final(self).current.0 == old(self).current.0 + 1,
    {
        if self.current == self.end {
            None
        } else {
            let t = self.current;
            self.current.step();
            Some(t)
        }
    }
}

} // verus!
