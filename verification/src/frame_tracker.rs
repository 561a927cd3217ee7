//! Exclusive handles to physical frames.
//!
//! A `FrameTracker` owns one physical page: the page number it was
//! allocated under and the current contents of the page's 4096 bytes.
//! Acquisition zeroes the page. Ownership of the handle is ownership of
//! the frame; handing the page number back to the allocator is the only
//! deallocation path.
use vstd::prelude::*;

use crate::address::PhysPageNum;
use crate::config::PAGE_SIZE;

verus! {

pub struct FrameTracker {
    /// The physical page number this handle owns.
    pub ppn: PhysPageNum,
    /// The bytes stored in the backing page.
    pub bytes: Vec<u8>,
}

impl FrameTracker {
    /// A frame handle is always a whole page.
    pub open spec fn wf(&self) -> bool {
        self.bytes@.len() == PAGE_SIZE
    }

    /// Take ownership of frame `ppn`, zeroing its page.
    pub fn new(ppn: PhysPageNum) -> (r: FrameTracker)
        ensures
            r.wf(),
            r.ppn == ppn,
            forall|i: int| 0 <= i < PAGE_SIZE ==> r.bytes@[i] == 0u8,
    {
        let mut bytes: Vec<u8> = Vec::new();
        let mut i: usize = 0;
        while i < 4096
            invariant
                i <= 4096,
                bytes@.len() == i,
                forall|k: int| 0 <= k < i ==> bytes@[k] == 0u8,
            decreases 4096 - i,
        {
            bytes.push(0u8);
            i = i + 1;
        }
        FrameTracker { ppn, bytes }
    }

    /// Read one byte of the page.
    pub fn read_byte(&self, offset: usize) -> (r: u8)
        requires
            self.wf(),
            offset < PAGE_SIZE,
        ensures
            r == self.bytes@[offset as int],
    {
        self.bytes[offset]
    }

    /// Overwrite one byte of the page.
    pub fn write_byte(&mut self, offset: usize, val: u8)
        requires
            old(self).wf(),
            offset < PAGE_SIZE,
        ensures
            final(self).wf(),
            final(self).ppn == old(self).ppn,
            final(self).bytes@ == old(self).bytes@.update(offset as int, val),
    {
        self.bytes.set(offset, val);
    }
}

} // verus!
