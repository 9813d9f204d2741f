//! Handing out 4 KiB physical frames from the usable regions of the boot
//! memory map.
use vstd::prelude::*;
use crate::boot_info::{MemoryMap, MemoryRegion, MemoryRegionType};
use x86_64::structures::paging::{PhysFrame, Size4KiB};
use x86_64::PhysAddr;

verus! {

/// The size of a frame.
pub const FRAME_SIZE: u64 = 4096;

/// Physical addresses have at most 52 bits.
pub const PHYS_ADDR_LIMIT: u64 = 0x10_0000_0000_0000;

/// The start of the 4 KiB frame holding `addr`.
///
/// Calls `x86_64`'s `PhysAddr::new` and `PhysFrame::<Size4KiB>::containing_address`.
/// Claimed, from the crate's source: `PhysAddr::new` panics exactly when a bit
/// from 52 up is set (the `memory_encryption` feature is off), and the frame
/// starts at the address aligned down to 4096.
#[verifier::external_body]
pub(crate) fn frame_start_containing(addr: u64) -> (start: u64)
    requires
        addr < PHYS_ADDR_LIMIT,
    ensures
        start == addr - addr % 4096,
{
    PhysFrame::<Size4KiB>::containing_address(PhysAddr::new(addr)).start_address().as_u64()
}

/// How many addresses `start`, `start + 4096`, ... lie below `end`.
pub open spec fn frame_count(r: MemoryRegion) -> nat {
    if r.range.end_addr > r.range.start_addr {
        ((r.range.end_addr - r.range.start_addr + 4095) / 4096) as nat
    } else {
        0
    }
}

/// The addresses a region contributes: `start`, `start + 4096`, ... below
/// `end`, when it is usable; none otherwise.
pub open spec fn region_addrs(r: MemoryRegion) -> Seq<u64> {
    if r.region_type == MemoryRegionType::Usable {
        Seq::new(frame_count(r), |k: int| (r.range.start_addr + 4096 * k) as u64)
    } else {
        Seq::empty()
    }
}

/// The candidate frame addresses of a map, region after region.
pub open spec fn usable_addrs(rs: Seq<MemoryRegion>) -> Seq<u64>
    decreases rs.len(),
{
    if rs.len() == 0 {
        Seq::empty()
    } else {
        usable_addrs(rs.drop_last()) + region_addrs(rs.last())
    }
}

/// The candidate addresses up to the `n`-th (counting from 0) lie below the
/// 52-bit physical address limit: handing out the `n`-th frame turns each
/// of them into a physical address.
pub open spec fn addrs_below_limit(rs: Seq<MemoryRegion>, n: int) -> bool {
    forall|k: int|
        0 <= k <= n && k < usable_addrs(rs).len() ==> #[trigger] usable_addrs(rs)[k]
            < PHYS_ADDR_LIMIT
}

proof fn lemma_usable_addrs_prefix(rs: Seq<MemoryRegion>, j: int)
    requires
        0 <= j <= rs.len(),
    ensures
        usable_addrs(rs.take(j)).len() <= usable_addrs(rs).len(),
        forall|k: int|
            0 <= k < usable_addrs(rs.take(j)).len() ==> #[trigger] usable_addrs(rs)[k]
                == usable_addrs(rs.take(j))[k],
    decreases rs.len() - j,
{
    if j < rs.len() {
        lemma_usable_addrs_prefix(rs, j + 1);
        assert(rs.take(j + 1).drop_last() =~= rs.take(j));
    } else {
        assert(rs.take(j) =~= rs);
    }
}

/// Whether `a` is one of the frame addresses of the usable region `r`:
/// inside it, a whole number of frames from its start.
pub open spec fn in_usable_region(r: MemoryRegion, a: int) -> bool {
    &&& r.region_type == MemoryRegionType::Usable
    &&& r.range.start_addr <= a < r.range.end_addr
    &&& (a - r.range.start_addr) % 4096 == 0
}

/// Whether `a` is a frame address of some usable region of `rs`.
pub open spec fn in_some_usable_region(rs: Seq<MemoryRegion>, a: int) -> bool {
    exists|i: int| 0 <= i < rs.len() && #[trigger] in_usable_region(rs[i], a)
}

/// The usable regions of `rs` start on 4 KiB boundaries and do not overlap.
pub open spec fn usable_regions_tidy(rs: Seq<MemoryRegion>) -> bool {
    &&& forall|i: int|
        0 <= i < rs.len() && (#[trigger] rs[i]).region_type == MemoryRegionType::Usable
            ==> rs[i].range.start_addr % 4096 == 0
    &&& forall|i: int, j: int|
        0 <= i < j < rs.len() && (#[trigger] rs[i]).region_type == MemoryRegionType::Usable
            && (#[trigger] rs[j]).region_type == MemoryRegionType::Usable ==> rs[i].range.end_addr
            <= rs[j].range.start_addr || rs[j].range.end_addr <= rs[i].range.start_addr
}

proof fn lemma_region_addrs(r: MemoryRegion)
    ensures
        forall|j: int|
            0 <= j < region_addrs(r).len() ==> #[trigger] region_addrs(r)[j] == r.range.start_addr
                + 4096 * j && in_usable_region(r, region_addrs(r)[j] as int),
{
    assert forall|j: int| 0 <= j < region_addrs(r).len() implies #[trigger] region_addrs(r)[j]
        == r.range.start_addr + 4096 * j && in_usable_region(r, region_addrs(r)[j] as int) by {
        assert(4096 * j < r.range.end_addr - r.range.start_addr);
        assert((4096 * j) % 4096 == 0);
    }
}

proof fn lemma_addrs_located(rs: Seq<MemoryRegion>)
    ensures
        forall|k: int|
            0 <= k < usable_addrs(rs).len() ==> in_some_usable_region(rs, #[trigger] usable_addrs(rs)[k] as int),
    decreases rs.len(),
{
    if rs.len() == 0 {
        assert(usable_addrs(rs).len() == 0);
    } else {
        let init = rs.drop_last();
        lemma_addrs_located(init);
        lemma_region_addrs(rs.last());
        let p = usable_addrs(init);
        assert forall|k: int|
            0 <= k < usable_addrs(rs).len() implies in_some_usable_region(rs, #[trigger] usable_addrs(rs)[k] as int) by {
            if k < p.len() {
                assert(in_some_usable_region(init, p[k] as int));
                let i = choose|i: int| 0 <= i < init.len() && #[trigger] in_usable_region(init[i], p[k] as int);
                assert(rs[i] == init[i]);
                assert(usable_addrs(rs)[k] == p[k]);
                assert(in_usable_region(rs[i], usable_addrs(rs)[k] as int));
            } else {
                assert(usable_addrs(rs)[k] == region_addrs(rs.last())[k - p.len()]);
                assert(rs[rs.len() - 1] == rs.last());
                assert(in_usable_region(rs[rs.len() - 1], usable_addrs(rs)[k] as int));
            }
        }
    }
}

/// The frames the allocator hands out are distinct and lie in usable
/// memory: when the usable regions start on 4 KiB boundaries and do not
/// overlap, the candidate addresses are pairwise different, each is a
/// frame of a usable region, and each is already frame-aligned (so
/// `allocate_frame` hands it out as it is). Since `allocate_frame` hands out
/// candidate `n` on its `n`-th call and `None` exactly past the last, no
/// frame is handed out twice and every call after the first `None` gives
/// `None` too.
pub proof fn lemma_frames_distinct(rs: Seq<MemoryRegion>)
    requires
        usable_regions_tidy(rs),
    ensures
        forall|k: int|
            0 <= k < usable_addrs(rs).len() ==> (#[trigger] usable_addrs(rs)[k]) % 4096 == 0
                && in_some_usable_region(rs, usable_addrs(rs)[k] as int),
        forall|k1: int, k2: int|
            0 <= k1 < k2 < usable_addrs(rs).len() ==> #[trigger] usable_addrs(rs)[k1]
                != #[trigger] usable_addrs(rs)[k2],
    decreases rs.len(),
{
    lemma_addrs_located(rs);
    assert forall|k: int| 0 <= k < usable_addrs(rs).len() implies (#[trigger] usable_addrs(rs)[k])
        % 4096 == 0 by {
        assert(in_some_usable_region(rs, usable_addrs(rs)[k] as int));
        let i = choose|i: int| 0 <= i < rs.len() && #[trigger] in_usable_region(rs[i], usable_addrs(rs)[k] as int);
        assert(rs[i].range.start_addr % 4096 == 0);
    }
    if rs.len() > 0 {
        let init = rs.drop_last();
        let last = rs.last();
        assert forall|i: int, j: int|
            0 <= i < j < init.len() && (#[trigger] init[i]).region_type == MemoryRegionType::Usable
                && (#[trigger] init[j]).region_type == MemoryRegionType::Usable implies init[i].range.end_addr
            <= init[j].range.start_addr || init[j].range.end_addr <= init[i].range.start_addr by {
            assert(init[i] == rs[i] && init[j] == rs[j]);
        }
        assert forall|i: int|
            0 <= i < init.len() && (#[trigger] init[i]).region_type == MemoryRegionType::Usable implies init[i].range.start_addr
            % 4096 == 0 by {
            assert(init[i] == rs[i]);
        }
        lemma_frames_distinct(init);
        lemma_addrs_located(init);
        lemma_region_addrs(last);
        let p = usable_addrs(init);
        assert forall|k1: int, k2: int| 0 <= k1 < k2 < usable_addrs(rs).len() implies #[trigger] usable_addrs(
            rs,
        )[k1] != #[trigger] usable_addrs(rs)[k2] by {
            if k2 < p.len() {
                assert(usable_addrs(rs)[k1] == p[k1] && usable_addrs(rs)[k2] == p[k2]);
            } else if k1 >= p.len() {
                assert(usable_addrs(rs)[k1] == region_addrs(last)[k1 - p.len()]);
                assert(usable_addrs(rs)[k2] == region_addrs(last)[k2 - p.len()]);
            } else {
                assert(in_some_usable_region(init, p[k1] as int));
                let i = choose|i: int| 0 <= i < init.len() && #[trigger] in_usable_region(init[i], p[k1] as int);
                assert(usable_addrs(rs)[k1] == p[k1]);
                assert(usable_addrs(rs)[k2] == region_addrs(last)[k2 - p.len()]);
                assert(rs[i] == init[i]);
                assert(rs[rs.len() - 1] == last);
                assert(last.region_type == MemoryRegionType::Usable);
            }
        }
    }
}

/// Hands out the usable frames of the boot memory map one after another.
pub struct BootInfoFrameAllocator {
    memory_map: &'static MemoryMap,
    next: usize,
}

impl BootInfoFrameAllocator {
    /// The memory map frames come from.
    pub closed spec fn map(&self) -> MemoryMap {
        *self.memory_map
    }

    /// How many frames were requested so far.
    pub closed spec fn handed_out(&self) -> nat {
        self.next as nat
    }

    /// An allocator that starts with the map's first usable frame.
    pub fn init(memory_map: &'static MemoryMap) -> (a: Self)
        ensures
            a.map() == *memory_map,
            a.handed_out() == 0,
    {
        BootInfoFrameAllocator { memory_map, next: 0 }
    }

    /// The start of the frame holding the `n`-th candidate address
    /// (counting from 0), if the map has that many.
    fn usable_frame(&self, n: usize) -> (r: Option<u64>)
        requires
            self.map().wf(),
            addrs_below_limit(self.map().regions(), n as int),
        ensures
            match r {
                Some(f) => n < usable_addrs(self.map().regions()).len() && f == usable_addrs(
                    self.map().regions(),
                )[n as int] - usable_addrs(self.map().regions())[n as int] % 4096,
                None => n >= usable_addrs(self.map().regions()).len(),
            },
    {
        let regions = self.memory_map.iter();
        let ghost rs = regions@;
        let mut remaining: u64 = n as u64;
        let mut i: usize = 0;
        while i < regions.len()
            invariant
                rs == regions@,
                rs == self.map().regions(),
                addrs_below_limit(rs, n as int),
                i <= rs.len(),
                usable_addrs(rs.take(i as int)).len() + remaining == n,
            decreases rs.len() - i,
        {
            let r = regions[i];
            assert(rs.take(i as int + 1).drop_last() =~= rs.take(i as int));
            assert(rs.take(i as int + 1).last() == r);
            if r.region_type == MemoryRegionType::Usable && r.range.end_addr > r.range.start_addr {
                let count: u64 = (r.range.end_addr - r.range.start_addr - 1) / FRAME_SIZE + 1;
                assert(count == frame_count(r));
                if remaining < count {
                    let addr = r.range.start_addr + remaining * FRAME_SIZE;
                    proof {
                        lemma_usable_addrs_prefix(rs, i as int + 1);
                        assert(usable_addrs(rs.take(i as int + 1))[n as int] == addr);
                        assert(usable_addrs(rs)[n as int] == addr);
                    }
                    return Some(frame_start_containing(addr));
                }
                remaining = remaining - count;
            }
            i += 1;
        }
        assert(rs.take(rs.len() as int) =~= rs);
        None
    }

    /// Whether handing out the next frame stays below the physical address
    /// limit: every candidate address up to it (it included) does.
    pub fn next_frame_addressable(&self) -> (r: bool)
        requires
            self.map().wf(),
        ensures
            r == addrs_below_limit(self.map().regions(), self.handed_out() as int),
    {
        let regions = self.memory_map.iter();
        let ghost rs = regions@;
        let n = self.next;
        let mut remaining: u64 = n as u64;
        let mut i: usize = 0;
        while i < regions.len()
            invariant
                rs == regions@,
                rs == self.map().regions(),
                n == self.handed_out(),
                i <= rs.len(),
                usable_addrs(rs.take(i as int)).len() + remaining == n,
                forall|k: int|
                    0 <= k < usable_addrs(rs.take(i as int)).len() ==> #[trigger] usable_addrs(rs)[k]
                        < PHYS_ADDR_LIMIT,
            decreases rs.len() - i,
        {
            let r = regions[i];
            let ghost before = usable_addrs(rs.take(i as int)).len();
            assert(rs.take(i as int + 1).drop_last() =~= rs.take(i as int));
            assert(rs.take(i as int + 1).last() == r);
            proof {
                lemma_usable_addrs_prefix(rs, i as int + 1);
            }
            if r.region_type == MemoryRegionType::Usable && r.range.end_addr > r.range.start_addr {
                let count: u64 = (r.range.end_addr - r.range.start_addr - 1) / FRAME_SIZE + 1;
                assert(count == frame_count(r));
                // The last of this region's addresses up to the `n`-th one.
                let last: u64 = if remaining < count { remaining } else { count - 1 };
                let top = r.range.start_addr + last * FRAME_SIZE;
                assert(usable_addrs(rs)[before + last] == top);
                if top >= PHYS_ADDR_LIMIT {
                    return false;
                }
                assert forall|k: int|
                    0 <= k < before + last + 1 implies #[trigger] usable_addrs(rs)[k]
                        < PHYS_ADDR_LIMIT by {
                    if k >= before {
                        assert(usable_addrs(rs)[k] == r.range.start_addr + 4096 * (k - before));
                    }
                }
                if remaining < count {
                    return true;
                }
                remaining = remaining - count;
            }
            i += 1;
        }
        assert(rs.take(rs.len() as int) =~= rs);
        true
    }

    /// The next usable frame (its start address), or `None` when the map
    /// has no more; either way one more frame counts as requested.
    pub fn allocate_frame(&mut self) -> (r: Option<u64>)
        requires
            old(self).map().wf(),
            addrs_below_limit(old(self).map().regions(), old(self).handed_out() as int),
            old(self).handed_out() < usize::MAX,
        ensures
            final(self).map() == old(self).map(),
            final(self).handed_out() == old(self).handed_out() + 1,
            match r {
                Some(f) => old(self).handed_out() < usable_addrs(old(self).map().regions()).len()
                    && f == usable_addrs(old(self).map().regions())[old(self).handed_out() as int]
                    - usable_addrs(old(self).map().regions())[old(self).handed_out() as int] % 4096,
                None => old(self).handed_out() >= usable_addrs(old(self).map().regions()).len(),
            },
    {
        let frame = self.usable_frame(self.next);
        self.next = self.next + 1;
        frame
    }
}

} // verus!
