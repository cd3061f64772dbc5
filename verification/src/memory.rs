//! A user address space as a map from virtual page numbers to page-table
//! entries, a pool of free physical frames, and the `mmap` / `munmap` system
//! calls over them.
use vstd::prelude::*;
use std::collections::HashMap;

verus! {

/// The size of a page in bytes.
pub const PAGE_SIZE: usize = 4096;

/// Page-table entry flag: readable.
pub const PTE_R: u8 = 2;
/// Page-table entry flag: writable.
pub const PTE_W: u8 = 4;
/// Page-table entry flag: executable.
pub const PTE_X: u8 = 8;
/// Page-table entry flag: accessible from user mode.
pub const PTE_U: u8 = 16;

/// A valid leaf page-table entry: the physical page it maps to and its flags.
#[derive(PartialEq, Eq, Structural, Clone, Copy, Debug)]
pub struct PageTableEntry {
    pub ppn: usize,
    pub flags: u8,
}

/// The valid mappings of an address space, keyed by virtual page number.
pub struct AddressSpace {
    pub pages: HashMap<usize, PageTableEntry>,
}

/// Free physical frames, kept as a stack: a frame is taken from the end.
pub struct FramePool {
    pub free: Vec<usize>,
}

impl AddressSpace {
    /// An address space with no mappings.
    pub fn new() -> (a: Self)
        ensures
            a.pages@ == Map::<usize, PageTableEntry>::empty(),
    {
        AddressSpace { pages: HashMap::new() }
    }
}

/// The page-table flags for an `mmap` protection: bit 0 gives R, bit 1 W,
/// bit 2 X, and U is always set.
pub open spec fn mmap_flags(prot: usize) -> u8 {
    (if prot & 1 != 0 { PTE_R } else { 0u8 }) | (if prot & 2 != 0 { PTE_W } else { 0u8 }) | (if prot
        & 4 != 0 {
        PTE_X
    } else {
        0u8
    }) | PTE_U
}

/// Computes `mmap_flags(prot)`.
pub fn prot_to_flags(prot: usize) -> (flags: u8)
    ensures
        flags == mmap_flags(prot),
        flags & PTE_U != 0,
        (flags & PTE_R != 0) == (prot & 1 != 0),
        (flags & PTE_W != 0) == (prot & 2 != 0),
        (flags & PTE_X != 0) == (prot & 4 != 0),
        flags & 1 == 0,
{
    let r: u8 = if prot & 0x1 != 0 {
        PTE_R
    } else {
        0
    };
    let w: u8 = if prot & 0x2 != 0 {
        PTE_W
    } else {
        0
    };
    let x: u8 = if prot & 0x4 != 0 {
        PTE_X
    } else {
        0
    };
    let flags = r | w | x | PTE_U;
    let b0 = prot & 1 != 0;
    let b1 = prot & 2 != 0;
    let b2 = prot & 4 != 0;
    assert({
        &&& flags & 16 != 0
        &&& (flags & 2 != 0) == b0
        &&& (flags & 4 != 0) == b1
        &&& (flags & 8 != 0) == b2
        &&& flags & 1 == 0
    }) by (bit_vector)
        requires
            flags == r | w | x | 16u8,
            r == (if b0 { 2u8 } else { 0u8 }),
            w == (if b1 { 4u8 } else { 0u8 }),
            x == (if b2 { 8u8 } else { 0u8 }),
    ;
    flags
}

/// The number of pages that `len` bytes span.
pub open spec fn page_count(len: usize) -> int {
    (len + PAGE_SIZE - 1) / PAGE_SIZE as int
}

/// No page of `n` pages from `vpn0` is mapped in `m`.
pub open spec fn range_unmapped(m: Map<usize, PageTableEntry>, vpn0: int, n: int) -> bool {
    forall|k: int| 0 <= k < n ==> !#[trigger] m.contains_key((vpn0 + k) as usize)
}

/// Every page of `n` pages from `vpn0` is mapped in `m`.
pub open spec fn range_mapped(m: Map<usize, PageTableEntry>, vpn0: int, n: int) -> bool {
    forall|k: int| 0 <= k < n ==> #[trigger] m.contains_key((vpn0 + k) as usize)
}

/// The frame that page `k` of a mapping gets: the `k`-th frame taken from the
/// end of `frames`.
pub open spec fn kth_taken(frames: Seq<usize>, k: int) -> usize {
    frames[frames.len() - 1 - k]
}

/// `m` with the `n` pages from `vpn0` mapped with `flags`, page `k` to the
/// `k`-th frame taken from the end of `frames`.
pub open spec fn map_range(
    m: Map<usize, PageTableEntry>,
    vpn0: int,
    n: int,
    frames: Seq<usize>,
    flags: u8,
) -> Map<usize, PageTableEntry> {
    Map::new(
        |v: usize| m.contains_key(v) || (vpn0 <= v < vpn0 + n),
        |v: usize|
            if vpn0 <= v < vpn0 + n {
                PageTableEntry { ppn: kth_taken(frames, v - vpn0), flags }
            } else {
                m[v]
            },
    )
}

/// `m` without the `n` pages from `vpn0`.
pub open spec fn unmap_range(m: Map<usize, PageTableEntry>, vpn0: int, n: int) -> Map<
    usize,
    PageTableEntry,
> {
    Map::new(|v: usize| m.contains_key(v) && !(vpn0 <= v < vpn0 + n), |v: usize| m[v])
}

/// The addresses of the pages of a range all fit in a `usize`.
pub open spec fn range_fits(start: usize, len: usize) -> bool {
    &&& len + PAGE_SIZE <= usize::MAX
    &&& start + (page_count(len) - 1) * PAGE_SIZE <= usize::MAX
}

/// The protection has only bits 0 to 2 set, and at least one of them.
pub open spec fn prot_ok(prot: usize) -> bool {
    prot & !7usize == 0 && prot & 7 != 0
}

proof fn lemma_page_vpn(start: usize, i: int)
    requires
        start % PAGE_SIZE == 0,
        0 <= i,
        start + i * PAGE_SIZE <= usize::MAX,
    ensures
        ((start + i * PAGE_SIZE) as usize) / PAGE_SIZE == start / PAGE_SIZE + i,
{
    assert((start + i * 4096) / 4096 == start / 4096 + i) by (nonlinear_arith)
        requires
            start % 4096 == 0,
            0 <= i,
    ;
}

/// Maps `len` bytes from `start` with protection `prot`, a frame of its own
/// for each page. Returns -1 when `start` is not page-aligned, 0 when `len` is
/// 0, -1 when `prot` has bits beyond the low three or none of them, and -1
/// when any page of the range is already mapped; in all these cases nothing
/// changes. Then the pages are mapped in order, page `k` to the `k`-th frame
/// taken from the pool, and the frames taken stay out of the pool. When the
/// pool runs dry the pages mapped so far stay mapped and -1 is returned,
/// otherwise 0.
pub fn sys_mmap(
    space: &mut AddressSpace,
    frames: &mut FramePool,
    start: usize,
    len: usize,
    prot: usize,
) -> (r: isize)
    requires
        start % PAGE_SIZE == 0 && len != 0 && prot_ok(prot) ==> range_fits(start, len),
    ensures
        ({
            let m = old(space).pages@;
            let f = old(frames).free@;
            let n = page_count(len);
            let vpn0 = (start / PAGE_SIZE) as int;
            if start % PAGE_SIZE != 0 || (len != 0 && !prot_ok(prot)) || (len != 0
                && !range_unmapped(m, vpn0, n)) {
                &&& r == -1
                &&& final(space).pages@ == m
                &&& final(frames).free@ == f
            } else if len == 0 {
                &&& r == 0
                &&& final(space).pages@ == m
                &&& final(frames).free@ == f
            } else if f.len() >= n {
                &&& r == 0
                &&& final(space).pages@ == map_range(m, vpn0, n, f, mmap_flags(prot))
                &&& final(frames).free@ == f.take(f.len() - n)
            } else {
                &&& r == -1
                &&& final(space).pages@ == map_range(m, vpn0, f.len() as int, f, mmap_flags(prot))
                &&& final(frames).free@ == Seq::<usize>::empty()
            }
        }),
        start % 4096 != 0 ==> r == -1,
        start % 4096 == 0 && len == 0 ==> r == 0,
        len != 0 && (prot & !7usize != 0 || prot & 7 == 0) ==> r == -1,
        len != 0 && (exists|k: int|
            0 <= k < (len + 4095) / 4096 && #[trigger] old(space).pages@.contains_key(
                (start / 4096 + k) as usize,
            )) ==> r == -1 && final(space).pages@ == old(space).pages@,
        r == 0 && len != 0 ==> {
            let f = old(frames).free@;
            &&& f.len() >= (len + 4095) / 4096
            &&& final(frames).free@ == f.take(f.len() - (len + 4095) / 4096)
            &&& forall|k: int|
                #![trigger final(space).pages@[(start / 4096 + k) as usize]]
                0 <= k < (len + 4095) / 4096 ==> {
                    &&& !old(space).pages@.contains_key((start / 4096 + k) as usize)
                    &&& final(space).pages@.contains_key((start / 4096 + k) as usize)
                    &&& final(space).pages@[(start / 4096 + k) as usize].ppn == f[f.len() - 1 - k]
                    &&& (final(space).pages@[(start / 4096 + k) as usize].flags & 16 != 0)
                    &&& (final(space).pages@[(start / 4096 + k) as usize].flags & 2 != 0) == (prot
                        & 1 != 0)
                    &&& (final(space).pages@[(start / 4096 + k) as usize].flags & 4 != 0) == (prot
                        & 2 != 0)
                    &&& (final(space).pages@[(start / 4096 + k) as usize].flags & 8 != 0) == (prot
                        & 4 != 0)
                }
        },
        r == 0 ==> forall|v: usize|
            !(start / 4096 <= v < start / 4096 + (len + 4095) / 4096) ==> {
                &&& #[trigger] final(space).pages@.contains_key(v) == old(space).pages@.contains_key(v)
                &&& old(space).pages@.contains_key(v) ==> final(space).pages@[v] == old(space).pages@[v]
            },
{
    broadcast use vstd::std_specs::hash::group_hash_axioms;

    if start % PAGE_SIZE != 0 {
        return -1;
    }
    if len == 0 {
        return 0;
    }
    if (prot & !7usize) != 0 {
        return -1;
    }
    if (prot & 0x7) == 0 {
        return -1;
    }
    let npages = (len + PAGE_SIZE - 1) / PAGE_SIZE;
    let flags = prot_to_flags(prot);
    let ghost m = space.pages@;
    let ghost f = frames.free@;
    let ghost vpn0 = (start / PAGE_SIZE) as int;
    assert(npages >= 1);
    assert(flags & 16 != 0 && (flags & 2 != 0) == (prot & 1 != 0) && (flags & 4 != 0) == (prot & 2
        != 0) && (flags & 8 != 0) == (prot & 4 != 0));
    let mut i: usize = 0;
    while i < npages
        invariant
            space.pages@ == m,
            frames.free@ == f,
            m == old(space).pages@,
            f == old(frames).free@,
            npages == page_count(len),
            npages >= 1,
            start % PAGE_SIZE == 0,
            vpn0 == (start / PAGE_SIZE) as int,
            range_fits(start, len),
            i <= npages,
            range_unmapped(m, vpn0, i as int),
        decreases npages - i,
    {
        let addr = start + i * PAGE_SIZE;
        let vpn = addr / PAGE_SIZE;
        proof {
            lemma_page_vpn(start, i as int);
        }
        if space.pages.contains_key(&vpn) {
            proof {
                assert(m.contains_key((vpn0 + i) as usize));
            }
            return -1;
        }
        i = i + 1;
    }
    let mut i: usize = 0;
    while i < npages
        invariant
            npages == page_count(len),
            npages >= 1,
            start % PAGE_SIZE == 0,
            vpn0 == (start / PAGE_SIZE) as int,
            range_fits(start, len),
            range_unmapped(m, vpn0, npages as int),
            flags == mmap_flags(prot),
            flags & 16 != 0 && (flags & 2 != 0) == (prot & 1 != 0) && (flags & 4 != 0) == (prot & 2
                != 0) && (flags & 8 != 0) == (prot & 4 != 0),
            prot_ok(prot),
            len != 0,
            m == old(space).pages@,
            f == old(frames).free@,
            i <= npages,
            i <= f.len(),
            space.pages@ == map_range(m, vpn0, i as int, f, flags),
            frames.free@ == f.take(f.len() - i),
        decreases npages - i,
    {
        let addr = start + i * PAGE_SIZE;
        let vpn = addr / PAGE_SIZE;
        proof {
            lemma_page_vpn(start, i as int);
        }
        match frames.free.pop() {
            Some(ppn) => {
                space.pages.insert(vpn, PageTableEntry { ppn, flags });
                proof {
                    assert(ppn == kth_taken(f, i as int));
                    assert(space.pages@ =~= map_range(m, vpn0, i + 1, f, flags));
                    assert(frames.free@ =~= f.take(f.len() - (i + 1)));
                }
            },
            None => {
                proof {
                    assert(f.len() == i);
                    assert(frames.free@ =~= Seq::<usize>::empty());
                }
                return -1;
            },
        }
        i = i + 1;
    }
    0
}

/// The frames that a mapping takes are distinct when the pool holds no frame
/// twice: pages `j` and `k` of a range of `n` pages get different frames,
/// and none of them is left in the pool.
pub proof fn lemma_mapped_frames_distinct(frames: Seq<usize>, n: int, j: int, k: int)
    requires
        frames.no_duplicates(),
        0 <= n <= frames.len(),
        0 <= j < n,
        0 <= k < n,
    ensures
        j != k ==> kth_taken(frames, j) != kth_taken(frames, k),
        !frames.take(frames.len() - n).contains(kth_taken(frames, j)),
{
    let t = frames.take(frames.len() - n);
    if t.contains(kth_taken(frames, j)) {
        let i = choose|i: int| 0 <= i < t.len() && #[trigger] t[i] == kth_taken(frames, j);
        assert(frames[i] == frames[frames.len() - 1 - j]);
    }
}

/// Unmaps `len` bytes from `start`. Returns -1 when `start` is not
/// page-aligned, 0 when `len` is 0, and -1 when some page of the range is not
/// mapped; in all these cases nothing changes. Otherwise every page of the
/// range is unmapped and 0 is returned.
pub fn sys_munmap(space: &mut AddressSpace, start: usize, len: usize) -> (r: isize)
    requires
        start % PAGE_SIZE == 0 && len != 0 ==> range_fits(start, len),
    ensures
        ({
            let m = old(space).pages@;
            let n = page_count(len);
            let vpn0 = (start / PAGE_SIZE) as int;
            if start % PAGE_SIZE != 0 || (len != 0 && !range_mapped(m, vpn0, n)) {
                r == -1 && final(space).pages@ == m
            } else if len == 0 {
                r == 0 && final(space).pages@ == m
            } else {
                r == 0 && final(space).pages@ == unmap_range(m, vpn0, n)
            }
        }),
        start % 4096 != 0 ==> r == -1,
        start % 4096 == 0 ==> (r == 0 <==> (len == 0 || forall|k: int|
            0 <= k < (len + 4095) / 4096 ==> #[trigger] old(space).pages@.contains_key(
                (start / 4096 + k) as usize,
            ))),
        r != 0 ==> r == -1 && final(space).pages@ == old(space).pages@,
        r == 0 ==> forall|k: int|
            0 <= k < (len + 4095) / 4096 ==> !#[trigger] final(space).pages@.contains_key(
                (start / 4096 + k) as usize,
            ),
        r == 0 ==> forall|v: usize|
            !(start / 4096 <= v < start / 4096 + (len + 4095) / 4096) ==> {
                &&& #[trigger] final(space).pages@.contains_key(v) == old(space).pages@.contains_key(v)
                &&& old(space).pages@.contains_key(v) ==> final(space).pages@[v] == old(space).pages@[v]
            },
{
    broadcast use vstd::std_specs::hash::group_hash_axioms;

    if start % PAGE_SIZE != 0 {
        return -1;
    }
    if len == 0 {
        return 0;
    }
    let npages = (len + PAGE_SIZE - 1) / PAGE_SIZE;
    let ghost m = space.pages@;
    let ghost vpn0 = (start / PAGE_SIZE) as int;
    let mut i: usize = 0;
    while i < npages
        invariant
            space.pages@ == m,
            m == old(space).pages@,
            len != 0,
            npages == page_count(len),
            start % PAGE_SIZE == 0,
            vpn0 == (start / PAGE_SIZE) as int,
            range_fits(start, len),
            i <= npages,
            range_mapped(m, vpn0, i as int),
        decreases npages - i,
    {
        let addr = start + i * PAGE_SIZE;
        let vpn = addr / PAGE_SIZE;
        proof {
            lemma_page_vpn(start, i as int);
        }
        if !space.pages.contains_key(&vpn) {
            return -1;
        }
        i = i + 1;
    }
    let mut i: usize = 0;
    while i < npages
        invariant
            npages == page_count(len),
            start % PAGE_SIZE == 0,
            vpn0 == (start / PAGE_SIZE) as int,
            range_fits(start, len),
            range_mapped(m, vpn0, npages as int),
            i <= npages,
            space.pages@ == unmap_range(m, vpn0, i as int),
        decreases npages - i,
    {
        let addr = start + i * PAGE_SIZE;
        let vpn = addr / PAGE_SIZE;
        proof {
            lemma_page_vpn(start, i as int);
        }
        space.pages.remove(&vpn);
        proof {
            assert(space.pages@ =~= unmap_range(m, vpn0, i + 1));
        }
        i = i + 1;
    }
    0
}

/// A range counts as mapped exactly when each of its pages is mapped.
pub proof fn lemma_range_mapped_is_every_page(m: Map<usize, PageTableEntry>, vpn0: int, n: int)
    ensures
        range_mapped(m, vpn0, n) <==> forall|k: int|
            0 <= k < n ==> #[trigger] m.contains_key((vpn0 + k) as usize),
        range_unmapped(m, vpn0, n) <==> forall|k: int|
            0 <= k < n ==> !#[trigger] m.contains_key((vpn0 + k) as usize),
{
}

/// The pages of a range are the fewest whole pages that hold its bytes.
pub proof fn lemma_page_count_is_ceiling(len: usize)
    ensures
        page_count(len) * 4096 >= len,
        len > 0 ==> (page_count(len) - 1) * 4096 < len,
        len == 0 ==> page_count(len) == 0,
{
    assert(((len + 4095) / 4096) * 4096 >= len) by (nonlinear_arith);
    assert(len > 0 ==> ((len + 4095) / 4096 - 1) * 4096 < len) by (nonlinear_arith);
}

/// Unmapping undoes mapping: when `mmap(start, len, prot)` succeeds on a
/// range with no mapped page (the pool holding a frame for every page), every
/// page of the range is mapped afterwards, so `munmap(start, len)` succeeds,
/// and it gives back exactly the address space from before the `mmap`.
pub proof fn lemma_munmap_undoes_mmap(
    m: Map<usize, PageTableEntry>,
    frames: Seq<usize>,
    start: usize,
    len: usize,
    prot: usize,
)
    requires
        start % PAGE_SIZE == 0,
        len != 0,
        prot_ok(prot),
        range_unmapped(m, (start / PAGE_SIZE) as int, page_count(len)),
        frames.len() >= page_count(len),
    ensures
        ({
            let vpn0 = (start / PAGE_SIZE) as int;
            let n = page_count(len);
            let m2 = map_range(m, vpn0, n, frames, mmap_flags(prot));
            &&& range_mapped(m2, vpn0, n)
            &&& unmap_range(m2, vpn0, n) == m
        }),
{
    let vpn0 = (start / PAGE_SIZE) as int;
    let n = page_count(len);
    let m2 = map_range(m, vpn0, n, frames, mmap_flags(prot));
    assert(vpn0 + n - 1 <= usize::MAX) by (nonlinear_arith)
        requires
            vpn0 == start / 4096,
            n == (len + 4095) / 4096,
            start <= usize::MAX,
            len <= usize::MAX,
    ;
    assert forall|k: int| 0 <= k < n implies #[trigger] m2.contains_key((vpn0 + k) as usize) by {}
    assert forall|v: usize| m.contains_key(v) implies !(vpn0 <= v < vpn0 + n) by {
        if vpn0 <= v < vpn0 + n {
            assert(!m.contains_key((vpn0 + (v - vpn0)) as usize));
        }
    }
    assert(unmap_range(m2, vpn0, n) =~= m);
}

} // verus!
