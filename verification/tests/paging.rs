//! Addresses, page-table entries, the three-level table, and address
//! spaces.
use rkernel::address::{PhysAddr, PhysPageNum, SimpleRange, VirtAddr, VirtPageNum};
use rkernel::error::KernelError;
use rkernel::frame_allocator::StackFrameAllocator;
use rkernel::memory_set::{
    translated_byte_buffer, AppImage, KernelLayout, MapArea, MapType, MemorySet, Segment,
    MAP_PERM_R, MAP_PERM_W, MAP_PERM_X,
};
use rkernel::page_table::{PageTable, PageTableEntry, PTE_R, PTE_V, PTE_W};

fn pool() -> StackFrameAllocator {
    let mut a = StackFrameAllocator::new();
    a.init(PhysPageNum(0x1000), PhysPageNum(0x2000));
    a
}

#[test]
fn address_round_and_align() {
    let va = VirtAddr(0x12345);
    assert_eq!(va.floor().0, 0x12);
    assert_eq!(va.ceil().0, 0x13);
    assert_eq!(va.page_offset(), 0x345);
    assert!(!va.aligned());
    assert!(VirtAddr(0x13000).aligned());
    assert_eq!(VirtAddr(0).ceil().0, 0);
    let pa = PhysAddr(0x80200000);
    assert_eq!(pa.floor().0, 0x80200);
    assert_eq!(pa.ceil().0, 0x80200);
}

#[test]
fn virt_addr_from_masks_to_39_bits() {
    let va = VirtAddr::from(0xffff_ffff_ffff_f000u64);
    assert_eq!(va.0, 0x7f_ffff_f000);
    assert_eq!(va.floor().0, 0x7ff_ffff);
}

#[test]
fn vpn_indexes_decompose() {
    let vpn = VirtPageNum((3 << 18) | (5 << 9) | 7);
    let (i0, i1, i2) = vpn.indexes();
    assert_eq!((i0, i1, i2), (3, 5, 7));
    let top = VirtPageNum(0x7ff_ffff);
    assert_eq!(top.indexes(), (511, 511, 511));
}

#[test]
fn simple_range_iterates_half_open() {
    let r = SimpleRange::new(VirtPageNum(10), VirtPageNum(13));
    assert_eq!(r.get_start().0, 10);
    assert_eq!(r.get_end().0, 13);
    let mut it = r.into_iter();
    let mut seen = Vec::new();
    while let Some(v) = it.next() {
        seen.push(v.0);
    }
    assert_eq!(seen, vec![10, 11, 12]);
}

#[test]
fn pte_encodes_ppn_and_flags() {
    let pte = PageTableEntry::new(PhysPageNum(0x80200), PTE_V | PTE_R | PTE_W);
    assert_eq!(pte.ppn().0, 0x80200);
    assert_eq!(pte.flags(), PTE_V | PTE_R | PTE_W);
    assert!(pte.is_valid());
    assert!(pte.readable());
    assert!(pte.writable());
    assert!(!pte.executable());
    let empty = PageTableEntry::empty();
    assert!(!empty.is_valid());
    assert_eq!(empty.bits, 0);
}

#[test]
fn fresh_table_translates_nothing() {
    let mut a = pool();
    let pt = PageTable::new(&mut a).unwrap();
    assert!(pt.translate(VirtPageNum(0)).is_none());
    assert!(pt.translate(VirtPageNum(0x12345)).is_none());
    assert!(pt.translate(VirtPageNum(0x7ff_ffff)).is_none());
}

#[test]
fn map_then_translate_then_reject_remap() {
    let mut a = pool();
    let mut pt = PageTable::new(&mut a).unwrap();
    let vpn = VirtPageNum(0x12345);
    let ppn = PhysPageNum(0x420);
    assert!(pt.map(&mut a, vpn, ppn, MAP_PERM_R | MAP_PERM_W).is_ok());
    let pte = pt.translate(vpn).expect("mapped page must translate");
    assert!(pte.is_valid());
    assert_eq!(pte.ppn().0, 0x420);
    assert!(pte.readable());
    assert!(pte.writable());
    // a second map of the same still-valid page is rejected, and the
    // first mapping is untouched
    let r = pt.map(&mut a, vpn, PhysPageNum(0x999), MAP_PERM_R);
    assert_eq!(r, Err(KernelError::AlreadyMapped));
    let pte2 = pt.translate(vpn).unwrap();
    assert_eq!(pte2.ppn().0, 0x420);
    // the neighbour in the same leaf table exists but is invalid, and
    // a page in an untouched subtree does not translate at all
    assert!(!pt.translate(VirtPageNum(0x12346)).unwrap().is_valid());
    assert!(pt.translate(VirtPageNum(0x54321)).is_none());
}

#[test]
fn unmap_clears_and_rejects_missing() {
    let mut a = pool();
    let mut pt = PageTable::new(&mut a).unwrap();
    let vpn = VirtPageNum(77);
    assert_eq!(pt.unmap(vpn), Err(KernelError::NotMapped));
    assert!(pt.map(&mut a, vpn, PhysPageNum(5), MAP_PERM_R).is_ok());
    assert!(pt.unmap(vpn).is_ok());
    let pte = pt.translate(vpn).unwrap();
    assert!(!pte.is_valid());
    assert!(pt.unmap(vpn).is_err());
}

#[test]
fn token_rebuilds_the_owning_view() {
    let mut a = pool();
    let mut pt = PageTable::new(&mut a).unwrap();
    pt.map(&mut a, VirtPageNum(0x123), PhysPageNum(0x77), MAP_PERM_R).unwrap();
    let token = pt.token();
    // paging-enabled mode tag in the high bits
    assert_eq!(token >> 60, 8);
    // the rebuilt view carries the same root and reads the same
    // mappings as the table the token was taken from
    let view = PageTable::from_token(token, &pt).expect("token belongs to this table");
    assert_eq!(view.token(), token);
    let pte = view.translate(VirtPageNum(0x123)).unwrap();
    assert!(pte.is_valid());
    assert_eq!(pte.ppn().0, 0x77);
    // a foreign token rebuilds nothing
    assert!(PageTable::from_token(token + 1, &pt).is_none());
}

fn test_layout() -> KernelLayout {
    KernelLayout {
        stext: 0x8020_0000,
        etext: 0x8020_4000,
        srodata: 0x8020_4000,
        erodata: 0x8020_6000,
        sdata: 0x8020_6000,
        edata: 0x8020_8000,
        sbss_with_stack: 0x8020_8000,
        ebss: 0x8020_a000,
        ekernel: 0x8020_a000,
        memory_end: 0x8030_0000,
        strampoline: 0x8020_0000,
        mmio: vec![(0x10_0000, 0x2000)],
    }
}

#[test]
fn kernel_space_identity_maps_sections_with_permissions() {
    let mut a = StackFrameAllocator::new();
    a.init(PhysPageNum(0x8020a), PhysPageNum(0x80300));
    let layout = test_layout();
    let ks = MemorySet::new_kernel(&mut a, &layout).unwrap();
    // middle of .text: identity, executable, not writable
    let mid_text = VirtAddr(0x8020_2000).floor();
    let pte = ks.translate(mid_text).unwrap();
    assert!(pte.is_valid());
    assert_eq!(pte.ppn().0, mid_text.0);
    assert!(!pte.writable());
    assert!(pte.executable());
    // middle of .rodata: not writable
    let mid_rodata = VirtAddr(0x8020_5000).floor();
    assert!(!ks.translate(mid_rodata).unwrap().writable());
    // middle of .data: writable, not executable
    let mid_data = VirtAddr(0x8020_7000).floor();
    let pte_d = ks.translate(mid_data).unwrap();
    assert!(pte_d.writable());
    assert!(!pte_d.executable());
    // device range identity-mapped
    let mmio_page = VirtAddr(0x10_0000).floor();
    assert!(ks.translate(mmio_page).unwrap().writable());
    // the trampoline page is mapped executable at the very top
    let tramp = ks.translate(VirtPageNum(0x7ff_ffff)).unwrap();
    assert!(tramp.is_valid());
    assert_eq!(tramp.ppn().0, 0x80200);
    // an unmapped page in between translates to nothing
    assert!(ks.translate(VirtPageNum(0x90000)).is_none());
}

#[test]
fn framed_area_owns_zeroed_frames() {
    let mut a = pool();
    let mut ms = MemorySet::new_bare(&mut a).unwrap();
    ms.insert_framed_area(&mut a, VirtAddr(0x5000), VirtAddr(0x7000), MAP_PERM_R | MAP_PERM_W)
        .unwrap();
    assert!(ms.translate(VirtPageNum(5)).unwrap().is_valid());
    assert!(ms.translate(VirtPageNum(6)).unwrap().is_valid());
    assert!(ms.translate(VirtPageNum(7)).map_or(true, |p| !p.is_valid()));
    let chunks = translated_byte_buffer(&ms, 0x5000, 8192).unwrap();
    assert_eq!(chunks.len(), 2);
    assert!(chunks.iter().all(|c| c.iter().all(|b| *b == 0)));
}

#[test]
fn map_area_unmap_releases_frames_to_pool() {
    let mut a = pool();
    let mut pt = PageTable::new(&mut a).unwrap();
    let mut area = MapArea::new(VirtAddr(0x3000), VirtAddr(0x5000), MapType::Framed, MAP_PERM_R);
    assert!(area.map(&mut pt, &mut a).is_ok());
    let owned0 = pt.translate(VirtPageNum(3)).unwrap().ppn().0;
    let owned1 = pt.translate(VirtPageNum(4)).unwrap().ppn().0;
    assert!(area.unmap(&mut pt, &mut a).is_ok());
    assert!(!pt.translate(VirtPageNum(3)).unwrap().is_valid());
    // both owned frames went back to the pool: they are reused first,
    // most recently released first
    assert_eq!(a.alloc_frame().unwrap().0, owned1);
    assert_eq!(a.alloc_frame().unwrap().0, owned0);
}

#[test]
fn unmap_one_returns_the_frame_and_rejects_missing() {
    let mut a = pool();
    let mut pt = PageTable::new(&mut a).unwrap();
    let mut area = MapArea::new(VirtAddr(0x3000), VirtAddr(0x4000), MapType::Framed, MAP_PERM_R);
    assert!(area.map(&mut pt, &mut a).is_ok());
    let owned = pt.translate(VirtPageNum(3)).unwrap().ppn().0;
    let free_before = (a.end - a.current) + a.recycled.len() as u64;
    assert!(area.unmap_one(&mut pt, &mut a, VirtPageNum(3)).is_ok());
    let free_after = (a.end - a.current) + a.recycled.len() as u64;
    assert_eq!(free_after, free_before + 1);
    assert_eq!(a.recycled.last().copied(), Some(owned));
    // a page that is no longer mapped is rejected
    assert_eq!(
        area.unmap_one(&mut pt, &mut a, VirtPageNum(3)),
        Err(KernelError::NotMapped)
    );
}

#[test]
fn from_image_loads_copies_and_guards() {
    let mut a = pool();
    // one two-page segment whose data covers one page and one byte
    let mut data = vec![0u8; 4097];
    for (i, b) in data.iter_mut().enumerate() {
        *b = (i % 251) as u8;
    }
    let image = AppImage {
        entry: 0x10080,
        segments: vec![Segment {
            start_va: 0x10000,
            end_va: 0x12000,
            perm: MAP_PERM_R | MAP_PERM_W | MAP_PERM_X,
            data: data.clone(),
        }],
    };
    let (ms, user_sp, entry) = MemorySet::from_image(&mut a, &image, PhysAddr(0x80200000))
        .unwrap();
    assert_eq!(entry, 0x10080);
    // max end vpn is 0x12; guard page at 0x12, stack at 0x13..0x15
    assert_eq!(user_sp, 0x13000 + 0x2000);
    assert!(ms.translate(VirtPageNum(0x12)).map_or(true, |p| !p.is_valid()));
    assert!(ms.translate(VirtPageNum(0x13)).unwrap().is_valid());
    assert!(ms.translate(VirtPageNum(0x14)).unwrap().is_valid());
    // the segment content: loaded bytes, then zeroes to the end
    let chunks = translated_byte_buffer(&ms, 0x10000, 0x2000).unwrap();
    let flat: Vec<u8> = chunks.concat();
    assert_eq!(flat.len(), 0x2000);
    assert_eq!(&flat[..4097], &data[..]);
    assert!(flat[4097..].iter().all(|b| *b == 0));
    // trap-context page mapped without user access, trampoline on top
    let tc = ms.translate(VirtPageNum(0x7ff_fffe)).unwrap();
    assert!(tc.is_valid() && tc.writable());
    assert!(ms.translate(VirtPageNum(0x7ff_ffff)).unwrap().is_valid());
}

#[test]
fn byte_buffer_splits_at_page_boundary() {
    let mut a = pool();
    let image = AppImage {
        entry: 0,
        segments: vec![Segment {
            start_va: 0x20000,
            end_va: 0x22000,
            perm: MAP_PERM_R,
            data: {
                let mut d = vec![0u8; 4097];
                d[4095] = b'h';
                d[4096] = b'i';
                d
            },
        }],
    };
    let (ms, _, _) = MemorySet::from_image(&mut a, &image, PhysAddr(0x80200000)).unwrap();
    let chunks = translated_byte_buffer(&ms, 0x20fff, 2).unwrap();
    assert_eq!(chunks.len(), 2);
    assert_eq!(chunks[0], vec![b'h']);
    assert_eq!(chunks[1], vec![b'i']);
    // an unmapped buffer fails
    assert!(translated_byte_buffer(&ms, 0x9_0000, 4).is_none());
    // a zero-length buffer is trivially fine
    assert_eq!(translated_byte_buffer(&ms, 0x20000, 0).unwrap().len(), 0);
}
