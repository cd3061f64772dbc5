use rcore_kernel::memory::{prot_to_flags, sys_mmap, sys_munmap, AddressSpace, FramePool, PageTableEntry, PAGE_SIZE};

fn pool(frames: &[usize]) -> FramePool {
    FramePool { free: frames.to_vec() }
}

#[test]
fn prot_bits_become_page_flags() {
    assert_eq!(prot_to_flags(1), 2 | 16);
    assert_eq!(prot_to_flags(2), 4 | 16);
    assert_eq!(prot_to_flags(4), 8 | 16);
    assert_eq!(prot_to_flags(7), 2 | 4 | 8 | 16);
}

#[test]
fn mmap_checks_arguments() {
    let mut a = AddressSpace::new();
    let mut f = pool(&[10, 11]);
    assert_eq!(sys_mmap(&mut a, &mut f, 0x1001, PAGE_SIZE, 3), -1);
    assert_eq!(sys_mmap(&mut a, &mut f, 0x1000, 0, 3), 0);
    assert_eq!(sys_mmap(&mut a, &mut f, 0x1000, PAGE_SIZE, 8), -1);
    assert_eq!(sys_mmap(&mut a, &mut f, 0x1000, PAGE_SIZE, 0), -1);
    assert!(a.pages.is_empty());
    assert_eq!(f.free, vec![10, 11]);
}

#[test]
fn mmap_maps_each_page_to_a_fresh_frame() {
    let mut a = AddressSpace::new();
    let mut f = pool(&[10, 11, 12]);
    assert_eq!(sys_mmap(&mut a, &mut f, 0x10000, PAGE_SIZE + 1, 3), 0);
    assert_eq!(a.pages.len(), 2);
    assert_eq!(a.pages[&0x10], PageTableEntry { ppn: 12, flags: 2 | 4 | 16 });
    assert_eq!(a.pages[&0x11], PageTableEntry { ppn: 11, flags: 2 | 4 | 16 });
    assert_eq!(f.free, vec![10]);
}

#[test]
fn mmap_over_a_mapped_page_fails_and_changes_nothing() {
    let mut a = AddressSpace::new();
    let mut f = pool(&[10, 11, 12]);
    assert_eq!(sys_mmap(&mut a, &mut f, 0x11000, PAGE_SIZE, 1), 0);
    assert_eq!(sys_mmap(&mut a, &mut f, 0x10000, 2 * PAGE_SIZE, 1), -1);
    assert_eq!(a.pages.len(), 1);
    assert_eq!(f.free, vec![10, 11]);
}

#[test]
fn mmap_out_of_frames_keeps_pages_mapped_so_far() {
    let mut a = AddressSpace::new();
    let mut f = pool(&[10]);
    assert_eq!(sys_mmap(&mut a, &mut f, 0, 3 * PAGE_SIZE, 4), -1);
    assert_eq!(a.pages.len(), 1);
    assert_eq!(a.pages[&0], PageTableEntry { ppn: 10, flags: 8 | 16 });
    assert!(f.free.is_empty());
}

#[test]
fn mmap_without_frames_fails_and_maps_nothing() {
    let mut a = AddressSpace::new();
    let mut f = pool(&[]);
    assert_eq!(sys_mmap(&mut a, &mut f, 0, 3 * PAGE_SIZE, 4), -1);
    assert!(a.pages.is_empty());
}

#[test]
fn munmap_checks_arguments_and_mappings() {
    let mut a = AddressSpace::new();
    let mut f = pool(&[10]);
    sys_mmap(&mut a, &mut f, 0x2000, PAGE_SIZE, 1);
    assert_eq!(sys_munmap(&mut a, 0x2001, PAGE_SIZE), -1);
    assert_eq!(sys_munmap(&mut a, 0x2000, 0), 0);
    assert_eq!(sys_munmap(&mut a, 0x2000, 2 * PAGE_SIZE), -1);
    assert_eq!(a.pages.len(), 1);
}

#[test]
fn munmap_undoes_mmap() {
    let mut a = AddressSpace::new();
    let mut f = pool(&[1, 2, 3, 4]);
    sys_mmap(&mut a, &mut f, 0x5000, PAGE_SIZE, 1);
    let before = a.pages.clone();
    assert_eq!(sys_mmap(&mut a, &mut f, 0x8000, 3 * PAGE_SIZE - 10, 7), 0);
    assert_eq!(a.pages.len(), 4);
    assert_eq!(sys_munmap(&mut a, 0x8000, 3 * PAGE_SIZE - 10), 0);
    assert_eq!(a.pages, before);
}
