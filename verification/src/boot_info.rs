//! What the boot loader hands the kernel: the physical memory map and where
//! physical memory is mapped.
use vstd::prelude::*;

verus! {

/// The number of regions a memory map can hold.
pub const MAX_REGIONS: usize = 256;

/// The boot information passed from the boot loader to the kernel.
pub struct BootInfo {
    pub memory_map: MemoryMap,
    pub physical_memory_offset: u64,
    pub framebuffer: FrameBufferInfo,
}

/// The order of the colour bytes of a pixel.
#[derive(Debug, Clone, Copy, PartialEq, Eq, Structural)]
pub enum PixelFormat {
    Rgb,
    Bgr,
}

/// The graphics framebuffer the firmware set up: `byte_len` bytes at
/// `address`, `height` rows of `stride` pixels of 4 bytes, of which the first
/// `width` are visible.
#[derive(Debug, Clone, Copy, PartialEq, Eq, Structural)]
pub struct FrameBufferInfo {
    pub address: u64,
    pub byte_len: usize,
    pub width: usize,
    pub height: usize,
    pub stride: usize,
    pub pixel_format: PixelFormat,
}

impl FrameBufferInfo {
    /// No framebuffer: address 0, nothing visible.
    pub fn empty() -> (r: Self)
        ensures
            r.address == 0 && r.byte_len == 0 && r.width == 0 && r.height == 0 && r.stride == 0,
            r.pixel_format == PixelFormat::Rgb,
    {
        FrameBufferInfo { address: 0, byte_len: 0, width: 0, height: 0, stride: 0, pixel_format: PixelFormat::Rgb }
    }
}

/// The usable and reserved regions of physical memory, in the order the
/// firmware reported them; at most `MAX_REGIONS` of them.
pub struct MemoryMap {
    regions: [MemoryRegion; 256],
    next_free_index: usize,
}

/// A region of physical memory.
#[derive(Debug, Clone, Copy, PartialEq, Eq, Structural)]
pub struct MemoryRegion {
    pub range: MemoryRegionRange,
    pub region_type: MemoryRegionType,
}

/// A range of physical addresses: `start_addr` up to, not including,
/// `end_addr`.
#[derive(Debug, Clone, Copy, PartialEq, Eq, Structural)]
pub struct MemoryRegionRange {
    pub start_addr: u64,
    pub end_addr: u64,
}

/// What a region of physical memory is used for.
#[derive(Debug, Clone, Copy, PartialEq, Eq, Structural)]
pub enum MemoryRegionType {
    Usable,
    InUse,
    Reserved,
    AcpiReclaimable,
    AcpiNvs,
    BadMemory,
    Kernel,
    KernelStack,
    PageTable,
    Bootloader,
    UnknownUefi(u32),
}

impl MemoryRegionRange {
    /// The first address of the range.
    pub fn start_addr(&self) -> (r: u64)
        ensures
            r == self.start_addr,
    {
        self.start_addr
    }

    /// The address just past the range.
    pub fn end_addr(&self) -> (r: u64)
        ensures
            r == self.end_addr,
    {
        self.end_addr
    }
}

impl MemoryRegion {
    /// The empty usable region at address 0 that fills unused map entries.
    pub fn empty() -> (r: Self)
        ensures
            r.range.start_addr == 0,
            r.range.end_addr == 0,
            r.region_type == MemoryRegionType::Usable,
    {
        MemoryRegion {
            range: MemoryRegionRange { start_addr: 0, end_addr: 0 },
            region_type: MemoryRegionType::Usable,
        }
    }
}

impl MemoryMap {
    /// The regions added so far, in order.
    pub closed spec fn regions(&self) -> Seq<MemoryRegion> {
        self.regions@.take(self.next_free_index as int)
    }

    /// The map holds at most `MAX_REGIONS` regions.
    pub closed spec fn wf(&self) -> bool {
        self.next_free_index <= MAX_REGIONS
    }

    /// A map with no regions.
    pub fn new() -> (m: Self)
        ensures
            m.wf(),
            m.regions() == Seq::<MemoryRegion>::empty(),
            m.regions().len() <= MAX_REGIONS,
    {
        let m = MemoryMap { regions: [MemoryRegion::empty(); 256], next_free_index: 0 };
        assert(m.regions() =~= Seq::<MemoryRegion>::empty());
        m
    }

    /// Appends `region`; a full map stays as it is.
    pub fn add_region(&mut self, region: MemoryRegion)
        requires
            old(self).wf(),
        ensures
            final(self).wf(),
            final(self).regions().len() <= MAX_REGIONS,
            final(self).regions() == (if old(self).regions().len() < MAX_REGIONS {
                old(self).regions().push(region)
            } else {
                old(self).regions()
            }),
    {
        let ghost before = self.regions@;
        if self.next_free_index < MAX_REGIONS {
            let i = self.next_free_index;
            self.regions[i] = region;
            self.next_free_index = i + 1;
            assert(self.regions@ == before.update(i as int, region));
            assert(self.regions() =~= before.take(i as int).push(region));
        }
    }

    /// The regions added so far, in order.
    pub fn iter(&self) -> (r: &[MemoryRegion])
        requires
            self.wf(),
        ensures
            r@ == self.regions(),
            r@.len() <= MAX_REGIONS,
    {
        let all = vstd::array::array_as_slice(&self.regions);
        vstd::slice::slice_subrange(all, 0, self.next_free_index)
    }
}

} // verus!
