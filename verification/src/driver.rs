//! The driver model: drivers by name, type and status, a RAM-backed block
//! device and the firmware framebuffer as a display.
use vstd::prelude::*;

verus! {

/// A device driver.
pub trait Driver {
    /// The driver's name.
    spec fn spec_name(&self) -> Seq<char>;

    /// The kind of device it drives.
    spec fn spec_device_type(&self) -> Seq<char>;

    /// Its state.
    spec fn spec_status(&self) -> Seq<char>;

    fn name(&self) -> (r: &str)
        ensures
            r@ == self.spec_name(),
    ;

    fn device_type(&self) -> (r: &str)
        ensures
            r@ == self.spec_device_type(),
    ;

    /// Brings the device up; tells whether that worked.
    fn init(&mut self) -> bool;

    fn status(&self) -> (r: &str)
        ensures
            r@ == self.spec_status(),
    ;
}

/// A device of fixed-size blocks.
pub trait BlockDevice: Driver {
    fn block_size(&self) -> usize;

    fn block_count(&self) -> usize;

    /// Copies block `block_id` into the start of `buf`; tells whether the
    /// block exists and `buf` can hold it.
    fn read_block(&self, block_id: usize, buf: &mut [u8]) -> bool;

    /// Overwrites block `block_id` with the start of `buf`; tells whether the
    /// block exists and `buf` holds a whole block.
    fn write_block(&mut self, block_id: usize, buf: &[u8]) -> bool;
}

/// A display.
pub trait DisplayDriver: Driver {
    fn width(&self) -> usize;

    fn height(&self) -> usize;
}

/// A block device held in memory.
pub struct RamDiskDriver {
    name: String,
    blocks: Vec<Vec<u8>>,
    block_size: usize,
    status: String,
}

/// The contents of each block.
pub open spec fn blocks_view(b: Seq<Vec<u8>>) -> Seq<Seq<u8>> {
    b.map_values(|v: Vec<u8>| v@)
}

impl RamDiskDriver {
    /// The blocks' contents, in order.
    pub closed spec fn data(&self) -> Seq<Seq<u8>> {
        blocks_view(self.blocks@)
    }

    /// The size of each block.
    pub closed spec fn spec_block_size(&self) -> usize {
        self.block_size
    }

    /// Every block holds exactly `block_size` bytes.
    #[verifier::type_invariant]
    spec fn blocks_sized(&self) -> bool {
        forall|i: int| 0 <= i < self.blocks@.len() ==> (#[trigger] self.blocks@[i])@.len()
            == self.block_size
    }

    /// A disk `ramdisk0` of `block_count` zeroed blocks of `block_size`
    /// bytes, active.
    pub fn new(block_count: usize, block_size: usize) -> (d: Self)
        ensures
            d.spec_name() == "ramdisk0"@,
            d.spec_status() == "active"@,
            d.spec_block_size() == block_size,
            d.data().len() == block_count,
            forall|i: int| 0 <= i < block_count ==> #[trigger] d.data()[i] == Seq::new(block_size as nat, |j: int| 0u8),
    {
        let mut blocks: Vec<Vec<u8>> = Vec::with_capacity(block_count);
        let mut k: usize = 0;
        while k < block_count
            invariant
                k <= block_count,
                blocks@.len() == k,
                forall|i: int| 0 <= i < k ==> (#[trigger] blocks@[i])@ == Seq::new(block_size as nat, |j: int| 0u8),
            decreases block_count - k,
        {
            let b = vec![0u8; block_size];
            assert(b@ =~= Seq::new(block_size as nat, |j: int| 0u8));
            blocks.push(b);
            k += 1;
        }
        RamDiskDriver { name: "ramdisk0".to_owned(), blocks, block_size, status: "active".to_owned() }
    }
}

impl Driver for RamDiskDriver {
    closed spec fn spec_name(&self) -> Seq<char> {
        self.name@
    }

    open spec fn spec_device_type(&self) -> Seq<char> {
        "Storage (Block Device)"@
    }

    closed spec fn spec_status(&self) -> Seq<char> {
        self.status@
    }

    fn name(&self) -> (r: &str) {
        self.name.as_str()
    }

    fn device_type(&self) -> (r: &str) {
        "Storage (Block Device)"
    }

    /// Marks the disk ready.
    fn init(&mut self) -> (r: bool)
        ensures
            r,
            final(self).spec_status() == "ready"@,
            final(self).spec_name() == old(self).spec_name(),
            final(self).data() == old(self).data(),
    {
        proof {
            use_type_invariant(&*self);
        }
        self.status = "ready".to_owned();
        true
    }

    fn status(&self) -> (r: &str) {
        self.status.as_str()
    }
}

impl BlockDevice for RamDiskDriver {
    fn block_size(&self) -> (r: usize)
        ensures
            r == self.spec_block_size(),
    {
        self.block_size
    }

    fn block_count(&self) -> (r: usize)
        ensures
            r == self.data().len(),
    {
        self.blocks.len()
    }

    fn read_block(&self, block_id: usize, buf: &mut [u8]) -> (ok: bool)
        ensures
            ok == (block_id < self.data().len() && old(buf)@.len() >= self.spec_block_size()),
            ok ==> final(buf)@ == self.data()[block_id as int] + old(buf)@.skip(
                self.spec_block_size() as int,
            ),
            !ok ==> final(buf)@ == old(buf)@,
    {
        proof {
            use_type_invariant(self);
        }
        if block_id < self.blocks.len() && buf.len() >= self.block_size {
            let block = &self.blocks[block_id];
            let ghost b0 = buf@;
            let mut j: usize = 0;
            while j < self.block_size
                invariant
                    block@.len() == self.block_size,
                    buf@.len() == b0.len(),
                    b0.len() >= self.block_size,
                    j <= self.block_size,
                    forall|k: int| 0 <= k < j ==> #[trigger] buf@[k] == block@[k],
                    forall|k: int| j <= k < b0.len() ==> #[trigger] buf@[k] == b0[k],
                decreases self.block_size - j,
            {
                buf[j] = block[j];
                j += 1;
            }
            assert(buf@ =~= block@ + b0.skip(self.block_size as int));
            true
        } else {
            false
        }
    }

    fn write_block(&mut self, block_id: usize, buf: &[u8]) -> (ok: bool)
        ensures
            ok == (block_id < old(self).data().len() && buf@.len() >= old(self).spec_block_size()),
            ok ==> final(self).data() == old(self).data().update(
                block_id as int,
                buf@.take(old(self).spec_block_size() as int),
            ),
            !ok ==> final(self).data() == old(self).data(),
            final(self).spec_block_size() == old(self).spec_block_size(),
            final(self).spec_name() == old(self).spec_name(),
            final(self).spec_status() == old(self).spec_status(),
    {
        proof {
            use_type_invariant(&*self);
        }
        if block_id < self.blocks.len() && buf.len() >= self.block_size {
            let fresh = vstd::slice::slice_to_vec(vstd::slice::slice_subrange(buf, 0, self.block_size));
            let ghost before = self.blocks@;
            let mut blocks: Vec<Vec<u8>> = Vec::new();
            std::mem::swap(&mut blocks, &mut self.blocks);
            blocks.set(block_id, fresh);
            assert forall|i: int| 0 <= i < blocks@.len() implies (#[trigger] blocks@[i])@.len()
                == self.block_size by {
                if i != block_id {
                    assert(blocks@[i] == before[i]);
                }
            }
            self.blocks = blocks;
            assert(blocks_view(self.blocks@) =~= blocks_view(before).update(
                block_id as int,
                buf@.take(self.block_size as int),
            ));
            true
        } else {
            false
        }
    }
}

/// What a read gives back of a write: once `write_block(id, w)` has
/// succeeded on `disk`, block `id` holds the first block's worth of `w`, so
/// `read_block(id, buf)` copies exactly those bytes to the front of `buf`;
/// every other block reads as before.
pub proof fn lemma_read_after_write(disk: RamDiskDriver, id: int, w: Seq<u8>, buf: Seq<u8>, other: int)
    requires
        0 <= id < disk.data().len(),
        w.len() >= disk.spec_block_size(),
    ensures
        ({
            let bs = disk.spec_block_size() as int;
            let after = disk.data().update(id, w.take(bs));
            &&& after[id] + buf.skip(bs) == w.take(bs) + buf.skip(bs)
            &&& after[id].len() == bs
            &&& (0 <= other < disk.data().len() && other != id ==> after[other] == disk.data()[other])
        }),
{
}

/// The firmware's graphics framebuffer.
pub struct FramebufferDisplayDriver {
    name: String,
    status: String,
}

impl FramebufferDisplayDriver {
    /// The display `gop-graphics`, ready.
    pub fn new() -> (d: Self)
        ensures
            d.spec_name() == "gop-graphics"@,
            d.spec_status() == "ready"@,
    {
        FramebufferDisplayDriver { name: "gop-graphics".to_owned(), status: "ready".to_owned() }
    }
}

impl Driver for FramebufferDisplayDriver {
    closed spec fn spec_name(&self) -> Seq<char> {
        self.name@
    }

    open spec fn spec_device_type(&self) -> Seq<char> {
        "Graphics (GOP Framebuffer)"@
    }

    closed spec fn spec_status(&self) -> Seq<char> {
        self.status@
    }

    fn name(&self) -> (r: &str) {
        self.name.as_str()
    }

    fn device_type(&self) -> (r: &str) {
        "Graphics (GOP Framebuffer)"
    }

    /// Marks the display active.
    fn init(&mut self) -> (r: bool)
        ensures
            r,
            final(self).spec_status() == "active"@,
            final(self).spec_name() == old(self).spec_name(),
    {
        self.status = "active".to_owned();
        true
    }

    fn status(&self) -> (r: &str) {
        self.status.as_str()
    }
}

impl DisplayDriver for FramebufferDisplayDriver {
    fn width(&self) -> (r: usize)
        ensures
            r == 1024,
    {
        1024
    }

    fn height(&self) -> (r: usize)
        ensures
            r == 768,
    {
        768
    }
}

/// The drivers this kernel ships with.
pub enum BuiltinDriver {
    RamDisk(RamDiskDriver),
    Framebuffer(FramebufferDisplayDriver),
}

impl Driver for BuiltinDriver {
    open spec fn spec_name(&self) -> Seq<char> {
        match self {
            BuiltinDriver::RamDisk(d) => d.spec_name(),
            BuiltinDriver::Framebuffer(d) => d.spec_name(),
        }
    }

    open spec fn spec_device_type(&self) -> Seq<char> {
        match self {
            BuiltinDriver::RamDisk(d) => d.spec_device_type(),
            BuiltinDriver::Framebuffer(d) => d.spec_device_type(),
        }
    }

    open spec fn spec_status(&self) -> Seq<char> {
        match self {
            BuiltinDriver::RamDisk(d) => d.spec_status(),
            BuiltinDriver::Framebuffer(d) => d.spec_status(),
        }
    }

    fn name(&self) -> (r: &str) {
        match self {
            BuiltinDriver::RamDisk(d) => d.name(),
            BuiltinDriver::Framebuffer(d) => d.name(),
        }
    }

    fn device_type(&self) -> (r: &str) {
        match self {
            BuiltinDriver::RamDisk(d) => d.device_type(),
            BuiltinDriver::Framebuffer(d) => d.device_type(),
        }
    }

    /// Brings up the wrapped driver: the RAM disk becomes ready, the display
    /// active.
    fn init(&mut self) -> (r: bool)
        ensures
            r,
            final(self).spec_name() == old(self).spec_name(),
            final(self).spec_status() == (match *old(self) {
                BuiltinDriver::RamDisk(_) => "ready"@,
                BuiltinDriver::Framebuffer(_) => "active"@,
            }),
            (*old(self) is RamDisk) == (*final(self) is RamDisk),
    {
        match self {
            BuiltinDriver::RamDisk(d) => d.init(),
            BuiltinDriver::Framebuffer(d) => d.init(),
        }
    }

    fn status(&self) -> (r: &str) {
        match self {
            BuiltinDriver::RamDisk(d) => d.status(),
            BuiltinDriver::Framebuffer(d) => d.status(),
        }
    }
}

/// The registered drivers, in registration order.
pub struct DriverManager<D> {
    drivers: Vec<D>,
}

/// A driver as `list_drivers` describes it: name, device type, status.
pub open spec fn entry_of<D: Driver>(d: D) -> (Seq<char>, Seq<char>, Seq<char>) {
    (d.spec_name(), d.spec_device_type(), d.spec_status())
}

/// The character sequences of a list of string triples.
pub open spec fn triples_view(v: Seq<(String, String, String)>) -> Seq<(Seq<char>, Seq<char>, Seq<char>)> {
    v.map_values(|t: (String, String, String)| (t.0@, t.1@, t.2@))
}

impl DriverManager<BuiltinDriver> {
    /// A manager with a RAM disk of 128 blocks of 512 bytes (`ramdisk0`,
    /// active) and the framebuffer display (`gop-graphics`, ready)
    /// registered, in that order.
    pub fn new() -> (m: Self)
        ensures
            m.driver_list().len() == 2,
            entry_of(m.driver_list()[0]) == ("ramdisk0"@, "Storage (Block Device)"@, "active"@),
            entry_of(m.driver_list()[1]) == ("gop-graphics"@, "Graphics (GOP Framebuffer)"@, "ready"@),
            m.driver_list()[0] matches BuiltinDriver::RamDisk(d) && d.data().len() == 128
                && d.spec_block_size() == 512 && forall|i: int|
                0 <= i < 128 ==> #[trigger] d.data()[i] == Seq::new(512, |j: int| 0u8),
            m.driver_list()[1] is Framebuffer,
    {
        let mut mgr = DriverManager { drivers: Vec::new() };
        mgr.register(BuiltinDriver::RamDisk(RamDiskDriver::new(128, 512)));
        mgr.register(BuiltinDriver::Framebuffer(FramebufferDisplayDriver::new()));
        mgr
    }
}

impl<D: Driver> DriverManager<D> {
    /// The registered drivers, in order.
    pub closed spec fn driver_list(&self) -> Seq<D> {
        self.drivers@
    }

    /// Adds `driver` after the others.
    pub fn register(&mut self, driver: D)
        ensures
            final(self).driver_list() == old(self).driver_list().push(driver),
    {
        self.drivers.push(driver);
    }

    /// Name, device type and status of each driver, in registration order.
    pub fn list_drivers(&self) -> (r: Vec<(String, String, String)>)
        ensures
            triples_view(r@) == self.driver_list().map_values(|d: D| entry_of(d)),
    {
        let mut r: Vec<(String, String, String)> = Vec::new();
        let mut i: usize = 0;
        while i < self.drivers.len()
            invariant
                i <= self.drivers@.len(),
                triples_view(r@) == self.drivers@.take(i as int).map_values(|d: D| entry_of(d)),
            decreases self.drivers@.len() - i,
        {
            let d = &self.drivers[i];
            let t = (d.name().to_owned(), d.device_type().to_owned(), d.status().to_owned());
            let ghost before = r@;
            r.push(t);
            assert(triples_view(r@) =~= triples_view(before).push((t.0@, t.1@, t.2@)));
            assert(self.drivers@.take(i as int + 1).map_values(|d: D| entry_of(d))
                =~= self.drivers@.take(i as int).map_values(|d: D| entry_of(d)).push(entry_of(self.drivers@[i as int])));
            i += 1;
        }
        assert(self.drivers@.take(i as int) =~= self.drivers@);
        r
    }
}

} // verus!
