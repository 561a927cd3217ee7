//! The physical frame allocator.
//!
//! The pool is a half-open range of page numbers plus a LIFO list of
//! released frames. Allocation pops the most recently released frame
//! first, then bumps the range pointer; it fails exactly when both are
//! exhausted. Releasing a frame that is at or above the bump pointer, or
//! that is already in the released list, is rejected: this is the
//! allocator's double-free and invalid-free check.
use vstd::prelude::*;

use crate::address::{PhysAddr, PhysPageNum, PPN_BOUND};
use crate::config::PAGE_SIZE;
use crate::error::KernelError;
use crate::frame_tracker::FrameTracker;

verus! {

/// Mathematical state of the allocator: the bump pointer, the pool's
/// upper bound, and the stack of released page numbers.
pub struct AllocModel {
    pub current: u64,
    pub end: u64,
    pub recycled: Seq<u64>,
}

/// The allocator's invariant: the pool range is ordered and within the
/// physical-page-number width, and the released list holds pairwise
/// distinct page numbers, each strictly below the bump pointer.
pub open spec fn alloc_wf(m: AllocModel) -> bool {
    &&& m.current <= m.end
    &&& m.end <= PPN_BOUND
    &&& forall|i: int| 0 <= i < m.recycled.len() ==> m.recycled[i] < m.current
    &&& forall|i: int, j: int|
        0 <= i < j < m.recycled.len() ==> m.recycled[i] != m.recycled[j]
}

/// Number of frames the pool can still hand out.
pub open spec fn free_frames(m: AllocModel) -> nat {
    if m.current <= m.end {
        (m.end - m.current) as nat + m.recycled.len()
    } else {
        m.recycled.len()
    }
}

/// One allocation step: pop the released list, else bump the pointer,
/// else fail.
pub open spec fn alloc_step(m: AllocModel) -> (AllocModel, Option<u64>) {
    if m.recycled.len() > 0 {
        (
            AllocModel { current: m.current, end: m.end, recycled: m.recycled.drop_last() },
            Some(m.recycled.last()),
        )
    } else if m.current < m.end {
        (
            AllocModel { current: (m.current + 1) as u64, end: m.end, recycled: m.recycled },
            Some(m.current),
        )
    } else {
        (m, None)
    }
}

/// A released page number is accepted exactly when it is below the bump
/// pointer and not already in the released list.
pub open spec fn dealloc_valid(m: AllocModel, ppn: u64) -> bool {
    ppn < m.current && !m.recycled.contains(ppn)
}

/// One release step: push onto the released list.
pub open spec fn dealloc_step(m: AllocModel, ppn: u64) -> AllocModel {
    AllocModel { current: m.current, end: m.end, recycled: m.recycled.push(ppn) }
}

/// `n` allocation steps in order; stops early if the pool is exhausted.
pub open spec fn alloc_seq(m: AllocModel, n: nat) -> (AllocModel, Seq<u64>)
    decreases n,
{
    if n == 0 {
        (m, Seq::empty())
    } else {
        match alloc_step(m).1 {
            Some(p) => {
                let rest = alloc_seq(alloc_step(m).0, (n - 1) as nat);
                (rest.0, seq![p] + rest.1)
            },
            None => (m, Seq::empty()),
        }
    }
}

/// Every release in `s`, performed left to right, passes the allocator's
/// validity check.
pub open spec fn dealloc_seq_ok(m: AllocModel, s: Seq<u64>) -> bool
    decreases s.len(),
{
    s.len() == 0 || (dealloc_valid(m, s.first()) && dealloc_seq_ok(
        dealloc_step(m, s.first()),
        s.drop_first(),
    ))
}

/// The state after releasing `s` left to right.
pub open spec fn dealloc_seq(m: AllocModel, s: Seq<u64>) -> AllocModel
    decreases s.len(),
{
    if s.len() == 0 {
        m
    } else {
        dealloc_seq(dealloc_step(m, s.first()), s.drop_first())
    }
}

/// Properties of a run of `n` allocations from a well-formed pool with at
/// least `n` free frames: all `n` succeed, the results are pairwise
/// distinct, each is either a previously released frame or fresh from the
/// range, and none is free afterwards.
pub proof fn lemma_alloc_seq_props(m: AllocModel, n: nat)
    requires
        alloc_wf(m),
        n <= free_frames(m),
    ensures
        ({
            let (m2, out) = alloc_seq(m, n);
            &&& out.len() == n
            &&& alloc_wf(m2)
            &&& m2.end == m.end
            &&& m2.current >= m.current
            &&& free_frames(m2) == free_frames(m) - n
            &&& m2.recycled.len() <= m.recycled.len()
            &&& m2.recycled == m.recycled.subrange(0, m2.recycled.len() as int)
            &&& forall|i: int|
                0 <= i < n ==> (m.recycled.contains(#[trigger] out[i]) || m.current <= out[i])
            &&& forall|i: int| 0 <= i < n ==> #[trigger] out[i] < m2.current
            &&& forall|i: int| 0 <= i < n ==> !m2.recycled.contains(#[trigger] out[i])
            &&& forall|i: int, j: int| 0 <= i < j < n ==> out[i] != out[j]
        }),
    decreases n,
{
    let (m2, out) = alloc_seq(m, n);
    if n == 0 {
        assert(m2.recycled =~= m.recycled.subrange(0, m2.recycled.len() as int));
    } else {
        let (m1, r) = alloc_step(m);
        lemma_alloc_seq_props(m1, (n - 1) as nat);
        let (m2b, rest) = alloc_seq(m1, (n - 1) as nat);
        let p = r.unwrap();
        assert(out == seq![p] + rest);
        assert(out[0] == p);
        assert(forall|i: int| 1 <= i < n ==> out[i] == rest[i - 1]);
        if m.recycled.len() > 0 {
            // popped the most recently released frame
            let len = m.recycled.len() as int;
            assert(m1.recycled == m.recycled.drop_last());
            assert(m1.recycled.len() == len - 1);
            assert(forall|i: int| 0 <= i < len - 1 ==> m1.recycled[i] == m.recycled[i]);
            assert(m.recycled.contains(p)) by {
                assert(m.recycled[len - 1] == p);
            };
            let prefix_len = m2.recycled.len() as int;
            // the later state's released list is a prefix of the shorter one,
            // hence a prefix of the full list
            assert(prefix_len <= len - 1);
            assert(forall|i: int| 0 <= i < prefix_len ==> m2.recycled[i] == m1.recycled[i]);
            assert(m2.recycled =~= m.recycled.subrange(0, prefix_len));
            // p is not among the remaining released frames
            assert(!m2.recycled.contains(p)) by {
                if m2.recycled.contains(p) {
                    let k = choose|k: int| 0 <= k < prefix_len && m2.recycled[k] == p;
                    assert(m.recycled[k] == p);
                    assert(m.recycled[len - 1] == p);
                }
            };
            assert(forall|j: int| 0 <= j < n - 1 ==> rest[j] != p) by {
                assert forall|j: int| 0 <= j < n - 1 implies #[trigger] rest[j] != p by {
                    if m1.recycled.contains(rest[j]) {
                        let k = choose|k: int|
                            0 <= k < m1.recycled.len() && m1.recycled[k] == rest[j];
                        assert(m.recycled[k] == rest[j]);
                        assert(m.recycled[len - 1] == p);
                    } else {
                        assert(m1.current <= rest[j]);
                        assert(p < m.current);
                    }
                };
            };
        } else {
            // fresh frame from the range
            assert(p == m.current);
            assert(m1.recycled =~= m.recycled);
            assert(m2.recycled =~= m.recycled.subrange(0, m2.recycled.len() as int));
            assert(forall|j: int| 0 <= j < n - 1 ==> rest[j] != p) by {
                assert forall|j: int| 0 <= j < n - 1 implies #[trigger] rest[j] != p by {
                    if m1.recycled.contains(rest[j]) {
                        assert(m1.recycled.len() == 0);
                    } else {
                        assert(m1.current <= rest[j]);
                    }
                };
            };
        }
        assert(forall|i: int|
            0 <= i < n ==> (m.recycled.contains(#[trigger] out[i]) || m.current <= out[i])) by {
            assert forall|i: int|
                0 <= i < n implies (m.recycled.contains(#[trigger] out[i]) || m.current
                <= out[i]) by {
                if i == 0 {
                } else {
                    assert(out[i] == rest[i - 1]);
                    if m1.recycled.contains(rest[i - 1]) {
                        let k = choose|k: int|
                            0 <= k < m1.recycled.len() && m1.recycled[k] == rest[i - 1];
                        assert(m.recycled[k] == rest[i - 1]);
                    }
                }
            };
        };
    }
}

/// Releasing a batch of distinct, currently allocated frames appends the
/// batch, in order, to the released list.
pub proof fn lemma_dealloc_seq_appends(m: AllocModel, s: Seq<u64>)
    requires
        alloc_wf(m),
        forall|i: int| 0 <= i < s.len() ==> #[trigger] s[i] < m.current,
        forall|i: int| 0 <= i < s.len() ==> !m.recycled.contains(#[trigger] s[i]),
        forall|i: int, j: int| 0 <= i < j < s.len() ==> s[i] != s[j],
    ensures
        dealloc_seq_ok(m, s),
        dealloc_seq(m, s) == (AllocModel {
            current: m.current,
            end: m.end,
            recycled: m.recycled + s,
        }),
        alloc_wf(dealloc_seq(m, s)),
        free_frames(dealloc_seq(m, s)) == free_frames(m) + s.len(),
    decreases s.len(),
{
    if s.len() == 0 {
        assert(m.recycled + s =~= m.recycled);
        assert(dealloc_seq(m, s) == (AllocModel {
            current: m.current,
            end: m.end,
            recycled: m.recycled + s,
        }));
    } else {
        let p = s.first();
        let m1 = dealloc_step(m, p);
        let rest = s.drop_first();
        assert(s[0] == p);
        assert(forall|i: int| 0 <= i < rest.len() ==> rest[i] == s[i + 1]);
        assert(alloc_wf(m1)) by {
            assert(forall|i: int|
                0 <= i < m1.recycled.len() ==> m1.recycled[i] < m1.current);
        };
        assert(forall|i: int| 0 <= i < rest.len() ==> !m1.recycled.contains(#[trigger] rest[i]))
            by {
            assert forall|i: int|
                0 <= i < rest.len() implies !m1.recycled.contains(#[trigger] rest[i]) by {
                if m1.recycled.contains(rest[i]) {
                    let k = choose|k: int|
                        0 <= k < m1.recycled.len() && m1.recycled[k] == rest[i];
                    if k < m.recycled.len() {
                        assert(m.recycled[k] == rest[i]);
                    } else {
                        assert(m1.recycled[k] == p);
                        assert(s[i + 1] == s[0]);
                    }
                }
            };
        };
        lemma_dealloc_seq_appends(m1, rest);
        assert(m1.recycled + rest =~= m.recycled + s);
    }
}

/// When the released list holds at least `n` frames, `n` allocations pop
/// exactly its last `n` entries, most recent first, and leave the rest.
pub proof fn lemma_alloc_seq_pops(m: AllocModel, n: nat)
    requires
        alloc_wf(m),
        n <= m.recycled.len(),
    ensures
        alloc_seq(m, n).1 == m.recycled.subrange(
            m.recycled.len() - n,
            m.recycled.len() as int,
        ).reverse(),
        alloc_seq(m, n).0 == (AllocModel {
            current: m.current,
            end: m.end,
            recycled: m.recycled.subrange(0, m.recycled.len() - n),
        }),
    decreases n,
{
    let (m2, out) = alloc_seq(m, n);
    if n == 0 {
        assert(out =~= m.recycled.subrange(
            m.recycled.len() - n,
            m.recycled.len() as int,
        ).reverse());
        assert(m.recycled.subrange(0, m.recycled.len() as int) =~= m.recycled);
    } else {
        let p = m.recycled.last();
        let m1 = alloc_step(m).0;
        assert(m1.recycled == m.recycled.drop_last());
        assert(alloc_wf(m1));
        lemma_alloc_seq_pops(m1, (n - 1) as nat);
        let rest = alloc_seq(m1, (n - 1) as nat).1;
        assert(out == seq![p] + rest);
        let tail = m.recycled.subrange(m.recycled.len() - n, m.recycled.len() as int);
        assert(out =~= tail.reverse()) by {
            assert(rest =~= m1.recycled.subrange(
                m1.recycled.len() - (n - 1),
                m1.recycled.len() as int,
            ).reverse());
            assert(tail.reverse().len() == n);
            assert(tail.reverse()[0] == tail[tail.len() - 1] == p);
            assert(forall|i: int| 1 <= i < n ==> tail.reverse()[i] == tail[n - 1 - i]);
            assert(forall|i: int|
                0 <= i < n - 1 ==> rest[i] == m1.recycled[m1.recycled.len() - 1 - i]);
        };
        assert(m1.recycled.subrange(0, m1.recycled.len() - (n - 1)) =~= m.recycled.subrange(
            0,
            m.recycled.len() - n,
        ));
    }
}

/// LIFO reuse: allocate `n` frames, release all `n` in any order, then
/// allocate `n` again. The second batch consists of exactly the same
/// page numbers as the first, and the pool returns to the state it had
/// after the first batch.
pub proof fn lemma_lifo_reuse(m: AllocModel, n: nat, order: Seq<u64>)
    requires
        alloc_wf(m),
        n <= free_frames(m),
        order.to_multiset() == alloc_seq(m, n).1.to_multiset(),
    ensures
        ({
            let (m2, first) = alloc_seq(m, n);
            let m3 = dealloc_seq(m2, order);
            &&& dealloc_seq_ok(m2, order)
            &&& alloc_seq(m3, n).1.to_multiset() == first.to_multiset()
            &&& alloc_seq(m3, n).0 == m2
        }),
{
    broadcast use vstd::seq_lib::group_to_multiset_ensures;

    let (m2, first) = alloc_seq(m, n);
    lemma_alloc_seq_props(m, n);
    assert(order.len() == n) by {
        assert(order.to_multiset().len() == order.len());
        assert(first.to_multiset().len() == first.len());
    };
    assert(forall|i: int| 0 <= i < order.len() ==> first.contains(#[trigger] order[i])) by {
        assert forall|i: int| 0 <= i < order.len() implies first.contains(#[trigger] order[i]) by {
            assert(order.contains(order[i]));
            assert(order.to_multiset().count(order[i]) > 0);
        };
    };
    assert(forall|i: int| 0 <= i < order.len() ==> #[trigger] order[i] < m2.current);
    assert(forall|i: int| 0 <= i < order.len() ==> !m2.recycled.contains(#[trigger] order[i]));
    assert(forall|i: int, j: int| 0 <= i < j < order.len() ==> order[i] != order[j]) by {
        first.lemma_multiset_has_no_duplicates();
        assert(order.to_multiset() == first.to_multiset());
        order.lemma_multiset_has_no_duplicates_conv();
    };
    lemma_dealloc_seq_appends(m2, order);
    let m3 = dealloc_seq(m2, order);
    assert(m3.recycled == m2.recycled + order);
    lemma_alloc_seq_pops(m3, n);
    assert(alloc_seq(m3, n).1 =~= order.reverse()) by {
        assert(m3.recycled.subrange(m3.recycled.len() - n, m3.recycled.len() as int) =~= order);
    };
    order.lemma_reverse_to_multiset();
    assert(alloc_seq(m3, n).0 == m2) by {
        assert(m3.recycled.subrange(0, m3.recycled.len() - n) =~= m2.recycled);
    };
}

/// Exhaustion: from any well-formed pool, exactly `free_frames` further
/// allocations succeed, and the one after that reports absence.
pub proof fn lemma_pool_capacity(m: AllocModel)
    requires
        alloc_wf(m),
    ensures
        alloc_seq(m, free_frames(m)).1.len() == free_frames(m),
        alloc_step(alloc_seq(m, free_frames(m)).0).1 is None,
{
    lemma_alloc_seq_props(m, free_frames(m));
}

/// The stack-of-frames allocator itself.
pub struct StackFrameAllocator {
    pub current: u64,
    pub end: u64,
    pub recycled: Vec<u64>,
}

impl View for StackFrameAllocator {
    type V = AllocModel;

    open spec fn view(&self) -> AllocModel {
        AllocModel { current: self.current, end: self.end, recycled: self.recycled@ }
    }
}

impl StackFrameAllocator {
    /// An empty pool; `init` gives it its range.
    pub fn new() -> (r: StackFrameAllocator)
        ensures
            r@.current == 0,
            r@.end == 0,
            r@.recycled.len() == 0,
            alloc_wf(r@),
    {
        StackFrameAllocator { current: 0, end: 0, recycled: Vec::new() }
    }

    /// Give the pool its frame range `[l, r)`.
    pub fn init(&mut self, l: PhysPageNum, r: PhysPageNum)
        requires
            l.0 <= r.0,
            r.0 <= PPN_BOUND,
            old(self)@.recycled.len() == 0,
        ensures
            final(self)@.current == l.0,
            final(self)@.end == r.0,
            final(self)@.recycled.len() == 0,
            alloc_wf(final(self)@),
            free_frames(final(self)@) == r.0 - l.0,
    {
        self.current = l.0;
        self.end = r.0;
    }

    /// True when `ppn` is in the released list.
    fn recycled_contains(&self, ppn: u64) -> (r: bool)
        ensures
            r == self@.recycled.contains(ppn),
    {
        let mut i: usize = 0;
        while i < self.recycled.len()
            invariant
                i <= self.recycled.len(),
                forall|k: int| 0 <= k < i ==> self@.recycled[k] != ppn,
            decreases self.recycled.len() - i,
        {
            if self.recycled[i] == ppn {
                assert(self@.recycled.contains(ppn)) by {
                    assert(self@.recycled[i as int] == ppn);
                };
                return true;
            }
            i = i + 1;
        }
        false
    }

    /// Hand out a free frame, most recently released first, or report
    /// absence when the pool is exhausted.
    pub fn alloc_frame(&mut self) -> (r: Option<PhysPageNum>)
        requires
            alloc_wf(old(self)@),
        ensures
            final(self)@ == alloc_step(old(self)@).0,
            alloc_wf(final(self)@),
            match r {
                Some(p) => alloc_step(old(self)@).1 == Some(p.0) && p.0 < PPN_BOUND,
                None => alloc_step(old(self)@).1 is None,
            },
            r is None <==> free_frames(old(self)@) == 0,
            r is Some ==> free_frames(final(self)@) == free_frames(old(self)@) - 1,
    {
        match self.recycled.pop() {
            Some(ppn) => Some(PhysPageNum(ppn)),
            None => {
                if self.current == self.end {
                    None
                } else {
                    self.current = self.current + 1;
                    Some(PhysPageNum(self.current - 1))
                }
            },
        }
    }

    /// Take a frame back. Rejects a page number that is at or above the
    /// bump pointer or already in the released list: such a frame was
    /// never handed out, or is being released twice.
    pub fn dealloc(&mut self, ppn: PhysPageNum) -> (r: Result<(), KernelError>)
        requires
            alloc_wf(old(self)@),
        ensures
            alloc_wf(final(self)@),
            r is Ok <==> dealloc_valid(old(self)@, ppn.0),
            r is Ok ==> final(self)@ == dealloc_step(old(self)@, ppn.0),
            r is Err ==> *final(self) == *old(self) && r == Err::<(), KernelError>(
                KernelError::FrameNotAllocated,
            ),
    {
        if ppn.0 >= self.current || self.recycled_contains(ppn.0) {
            Err(KernelError::FrameNotAllocated)
        } else {
            self.recycled.push(ppn.0);
            Ok(())
        }
    }
}

/// Set up the allocator over the frames between the end of the kernel
/// image and the end of usable physical memory.
pub fn init_frame_allocator(a: &mut StackFrameAllocator, pool_start: PhysAddr, pool_end: PhysAddr)
    requires
        old(a)@.recycled.len() == 0,
        (pool_start.0 + PAGE_SIZE - 1) / (PAGE_SIZE as int) <= pool_end.0 as int / (PAGE_SIZE as int),
        pool_end.0 as int / (PAGE_SIZE as int) <= PPN_BOUND,
    ensures
        alloc_wf(final(a)@),
        final(a)@.current == (pool_start.0 + PAGE_SIZE - 1) / (PAGE_SIZE as int),
        final(a)@.end == pool_end.0 as int / (PAGE_SIZE as int),
        free_frames(final(a)@) == final(a)@.end - final(a)@.current,
{
    let l = pool_start.ceil();
    let r = pool_end.floor();
    a.init(l, r);
}

/// Allocate one frame and wrap it in an owning, zeroing handle.
pub fn frame_alloc(a: &mut StackFrameAllocator) -> (r: Option<FrameTracker>)
    requires
        alloc_wf(old(a)@),
    ensures
        final(a)@ == alloc_step(old(a)@).0,
        alloc_wf(final(a)@),
        match r {
            Some(t) => {
                &&& alloc_step(old(a)@).1 == Some(t.ppn.0)
                &&& t.wf()
                &&& t.ppn.0 < PPN_BOUND
                &&& forall|i: int| 0 <= i < t.bytes@.len() ==> t.bytes@[i] == 0u8
            },
            None => alloc_step(old(a)@).1 is None,
        },
        r is None <==> free_frames(old(a)@) == 0,
{
    match a.alloc_frame() {
        Some(ppn) => Some(FrameTracker::new(ppn)),
        None => None,
    }
}

/// Release the frame under a handle back to the pool.
pub fn frame_dealloc(a: &mut StackFrameAllocator, ppn: PhysPageNum) -> (r: Result<
    (),
    KernelError,
>)
    requires
        alloc_wf(old(a)@),
    ensures
        alloc_wf(final(a)@),
        r is Ok <==> dealloc_valid(old(a)@, ppn.0),
        r is Ok ==> final(a)@ == dealloc_step(old(a)@, ppn.0),
        r is Err ==> *final(a) == *old(a),
{
    a.dealloc(ppn)
}

} // verus!
