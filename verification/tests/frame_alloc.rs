//! Frame allocator behaviour: bump allocation, LIFO reuse, capacity,
//! and the double-free check.
use rkernel::address::{PhysAddr, PhysPageNum};
use rkernel::error::KernelError;
use rkernel::frame_allocator::{
    frame_alloc, frame_dealloc, init_frame_allocator, StackFrameAllocator,
};

fn pool(l: u64, r: u64) -> StackFrameAllocator {
    let mut a = StackFrameAllocator::new();
    a.init(PhysPageNum(l), PhysPageNum(r));
    a
}

#[test]
fn bump_allocation_in_order() {
    let mut a = pool(100, 105);
    for expected in 100..105u64 {
        let ppn = a.alloc_frame().unwrap();
        assert_eq!(ppn.0, expected);
    }
    assert!(a.alloc_frame().is_none());
}

#[test]
fn capacity_is_range_width() {
    // the pool holds exactly (upper - lower) frames; one more fails
    let mut a = pool(7, 19);
    let mut got = Vec::new();
    for _ in 0..12 {
        got.push(a.alloc_frame().expect("pool should still have frames").0);
    }
    assert!(a.alloc_frame().is_none());
    // and releasing one frame makes exactly one allocation possible again
    assert!(a.dealloc(PhysPageNum(got[3])).is_ok());
    assert_eq!(a.alloc_frame().unwrap().0, got[3]);
    assert!(a.alloc_frame().is_none());
}

#[test]
fn lifo_reuse_same_set() {
    // allocate N, release all N, allocate N again: the same page
    // numbers come back, most recently released first
    let mut a = pool(50, 60);
    let mut first: Vec<u64> = Vec::new();
    for _ in 0..5 {
        first.push(a.alloc_frame().unwrap().0);
    }
    for ppn in first.iter() {
        assert!(a.dealloc(PhysPageNum(*ppn)).is_ok());
    }
    let mut second: Vec<u64> = Vec::new();
    for _ in 0..5 {
        second.push(a.alloc_frame().unwrap().0);
    }
    let mut s1 = first.clone();
    let mut s2 = second.clone();
    s1.sort();
    s2.sort();
    assert_eq!(s1, s2);
    // LIFO: the second batch is the release order reversed
    let reversed: Vec<u64> = first.iter().rev().cloned().collect();
    assert_eq!(second, reversed);
}

#[test]
fn lifo_reuse_any_release_order() {
    // releasing in a shuffled order still hands back the same set
    let mut a = pool(200, 210);
    let mut first: Vec<u64> = Vec::new();
    for _ in 0..6 {
        first.push(a.alloc_frame().unwrap().0);
    }
    for i in [3usize, 0, 5, 1, 4, 2] {
        assert!(a.dealloc(PhysPageNum(first[i])).is_ok());
    }
    let mut second: Vec<u64> = Vec::new();
    for _ in 0..6 {
        second.push(a.alloc_frame().unwrap().0);
    }
    let mut s1 = first.clone();
    let mut s2 = second.clone();
    s1.sort();
    s2.sort();
    assert_eq!(s1, s2);
}

#[test]
fn dealloc_rejects_never_allocated() {
    let mut a = pool(10, 20);
    let _ = a.alloc_frame().unwrap();
    // 15 is above the bump pointer: it was never handed out
    assert_eq!(a.dealloc(PhysPageNum(15)), Err(KernelError::FrameNotAllocated));
}

#[test]
fn dealloc_rejects_double_free() {
    let mut a = pool(10, 20);
    let p = a.alloc_frame().unwrap();
    assert!(a.dealloc(p).is_ok());
    assert_eq!(a.dealloc(p), Err(KernelError::FrameNotAllocated));
}

#[test]
fn frame_tracker_zeroes_its_page() {
    let mut a = pool(30, 32);
    let t = frame_alloc(&mut a).unwrap();
    assert_eq!(t.bytes.len(), 4096);
    assert!(t.bytes.iter().all(|b| *b == 0));
    assert!(frame_dealloc(&mut a, t.ppn).is_ok());
}

#[test]
fn init_from_addresses_rounds_correctly() {
    let mut a = StackFrameAllocator::new();
    // start rounds up, end rounds down
    init_frame_allocator(&mut a, PhysAddr(0x8020a001), PhysAddr(0x80300fff));
    assert_eq!(a.current, 0x8020b);
    assert_eq!(a.end, 0x80300);
}
