//! Planning how the boot loader places the kernel's ELF image in memory,
//! and turning the firmware's memory descriptors into the boot memory map.
use vstd::prelude::*;
use crate::boot_info::{MemoryMap, MemoryRegion, MemoryRegionRange, MemoryRegionType, MAX_REGIONS};

verus! {

/// The little-endian 16-bit value of the bytes `b[at]`, `b[at + 1]`.
pub open spec fn le16(b: Seq<u8>, at: int) -> int {
    b[at] as int + 256 * b[at + 1]
}

/// The little-endian 32-bit value of the four bytes from `b[at]`.
pub open spec fn le32(b: Seq<u8>, at: int) -> int {
    le16(b, at) + 0x1_0000 * le16(b, at + 2)
}

/// The little-endian 64-bit value of the eight bytes from `b[at]`.
pub open spec fn le64(b: Seq<u8>, at: int) -> int {
    le32(b, at) + 0x1_0000_0000 * le32(b, at + 4)
}

/// Whether the ELF identification of `bytes` names the 64-bit class
/// (class byte 2); the other class accepted is the 32-bit one (1).
pub open spec fn elf_is_64(bytes: Seq<u8>) -> bool {
    bytes[4] == 2
}

/// Whether `bytes` starts with a usable ELF header: the magic number
/// `0x7f 'E' 'L' 'F'`, the 32-bit or 64-bit class, and room for the whole
/// header of that class (52 or 64 bytes). The fields are read in the byte
/// order of the x86_64 machine the loader runs on, little endian.
pub open spec fn elf_header_ok(bytes: Seq<u8>) -> bool {
    &&& bytes.len() >= 16
    &&& bytes[0] == 0x7f && bytes[1] == 0x45 && bytes[2] == 0x4c && bytes[3] == 0x46
    &&& (bytes[4] == 1 && bytes.len() >= 52) || (bytes[4] == 2 && bytes.len() >= 64)
}

/// The entry point recorded in the ELF header of `bytes`.
pub open spec fn elf_entry(bytes: Seq<u8>) -> u64 {
    (if elf_is_64(bytes) {
        le64(bytes, 24)
    } else {
        le32(bytes, 24)
    }) as u64
}

/// The file offset of the program header table of `bytes`.
pub open spec fn elf_ph_offset(bytes: Seq<u8>) -> u64 {
    (if elf_is_64(bytes) {
        le64(bytes, 32)
    } else {
        le32(bytes, 28)
    }) as u64
}

/// The size of one program header entry, as the ELF header of `bytes`
/// declares it.
pub open spec fn elf_ph_entry_size(bytes: Seq<u8>) -> u16 {
    (if elf_is_64(bytes) {
        le16(bytes, 54)
    } else {
        le16(bytes, 42)
    }) as u16
}

/// The number of program headers the ELF header of `bytes` announces.
pub open spec fn elf_ph_count(bytes: Seq<u8>) -> u16 {
    (if elf_is_64(bytes) {
        le16(bytes, 56)
    } else {
        le16(bytes, 44)
    }) as u16
}

/// The size of a program header of the class of `bytes`.
pub open spec fn ph_struct_size(bytes: Seq<u8>) -> int {
    if elf_is_64(bytes) {
        56
    } else {
        32
    }
}

/// The alignment a program header of the class of `bytes` needs.
pub open spec fn ph_align(bytes: Seq<u8>) -> int {
    if elf_is_64(bytes) {
        8
    } else {
        4
    }
}

/// Whether the ELF header of `bytes` declares a program header table: a
/// non-zero offset and entry size.
pub open spec fn ph_table_declared(bytes: Seq<u8>) -> bool {
    elf_ph_offset(bytes) > 0 && elf_ph_entry_size(bytes) > 0
}

/// Where program header `k` of `bytes` starts.
pub open spec fn ph_start(bytes: Seq<u8>, k: int) -> int {
    elf_ph_offset(bytes) + k * elf_ph_entry_size(bytes)
}

/// Whether program header `k` of `bytes`, when the table is declared and
/// `k` is below the count, lies within the file, holds a whole header
/// structure and is aligned for it.
pub open spec fn ph_readable(bytes: Seq<u8>, k: int) -> bool {
    (k < elf_ph_count(bytes) && ph_table_declared(bytes)) ==> {
        &&& ph_start(bytes, k) + elf_ph_entry_size(bytes) <= bytes.len()
        &&& elf_ph_entry_size(bytes) >= ph_struct_size(bytes)
        &&& ph_start(bytes, k) % ph_align(bytes) == 0
    }
}

/// Whether every program header the ELF header of `bytes` announces can be
/// read out of the file.
pub open spec fn ph_table_fits(bytes: Seq<u8>) -> bool {
    forall|k: int| 0 <= k < elf_ph_count(bytes) ==> #[trigger] ph_readable(bytes, k)
}

/// The kind of a program header type value: 1 is a loadable segment; 0 to 7
/// and the operating-system (0x6000_0000 to 0x6fff_ffff) and processor
/// (0x7000_0000 to 0x7fff_ffff) ranges are other known types; anything
/// else is invalid.
pub open spec fn segment_kind(t: int) -> SegmentKind {
    if t == 1 {
        SegmentKind::Load
    } else if (0 <= t <= 7) || (0x6000_0000 <= t <= 0x7fff_ffff) {
        SegmentKind::Other
    } else {
        SegmentKind::Invalid
    }
}

/// Program header `index` of the ELF file `bytes`, by the fields loading
/// reads, or `None` where the file declares no program header table or
/// `index` is past the count. A 64-bit header holds type, flags, offset,
/// virtual and physical address, file and memory size, each from the start
/// of the entry at 0, 4, 8, 16, 24, 32, 40; a 32-bit one holds type,
/// offset, virtual and physical address, file and memory size at 0, 4, 8,
/// 12, 16, 20.
pub open spec fn elf_program_header(bytes: Seq<u8>, index: u16) -> Option<SegmentInfo> {
    if !(index < elf_ph_count(bytes) && ph_table_declared(bytes)) {
        None
    } else {
        let s = ph_start(bytes, index as int);
        Some(
            if elf_is_64(bytes) {
                SegmentInfo {
                    kind: segment_kind(le32(bytes, s)),
                    offset: le64(bytes, s + 8) as u64,
                    physical_addr: le64(bytes, s + 24) as u64,
                    file_size: le64(bytes, s + 32) as u64,
                    mem_size: le64(bytes, s + 40) as u64,
                }
            } else {
                SegmentInfo {
                    kind: segment_kind(le32(bytes, s)),
                    offset: le32(bytes, s + 4) as u64,
                    physical_addr: le32(bytes, s + 12) as u64,
                    file_size: le32(bytes, s + 16) as u64,
                    mem_size: le32(bytes, s + 20) as u64,
                }
            },
        )
    }
}

fn read_u16(b: &[u8], at: usize) -> (r: u64)
    requires
        at + 2 <= b@.len(),
    ensures
        r == le16(b@, at as int),
        r < 0x1_0000,
{
    b[at] as u64 + 256 * (b[at + 1] as u64)
}

fn read_u32(b: &[u8], at: usize) -> (r: u64)
    requires
        at + 4 <= b@.len(),
    ensures
        r == le32(b@, at as int),
        r < 0x1_0000_0000,
{
    let n = b.len();
    assert(at + 4 <= n);
    read_u16(b, at) + 0x1_0000 * read_u16(b, at + 2)
}

fn read_u64(b: &[u8], at: usize) -> (r: u64)
    requires
        at + 8 <= b@.len(),
    ensures
        r == le64(b@, at as int),
{
    let n = b.len();
    assert(at + 8 <= n);
    read_u32(b, at) + 0x1_0000_0000 * read_u32(b, at + 4)
}

/// Whether `bytes` starts with a usable ELF header.
fn elf_header_valid(bytes: &[u8]) -> (r: bool)
    ensures
        r == elf_header_ok(bytes@),
{
    if bytes.len() < 16 {
        return false;
    }
    if !(bytes[0] == 0x7f && bytes[1] == 0x45 && bytes[2] == 0x4c && bytes[3] == 0x46) {
        return false;
    }
    (bytes[4] == 1 && bytes.len() >= 52) || (bytes[4] == 2 && bytes.len() >= 64)
}

fn segment_kind_of(t: u64) -> (r: SegmentKind)
    ensures
        r == segment_kind(t as int),
{
    if t == 1 {
        SegmentKind::Load
    } else if t <= 7 || (0x6000_0000 <= t && t <= 0x7fff_ffff) {
        SegmentKind::Other
    } else {
        SegmentKind::Invalid
    }
}

/// Program header `index` of the ELF file `bytes`.
fn read_program_header(bytes: &[u8], index: u16) -> (r: Option<SegmentInfo>)
    requires
        elf_header_ok(bytes@),
        ph_readable(bytes@, index as int),
    ensures
        r == elf_program_header(bytes@, index),
{
    let is64 = bytes[4] == 2;
    let count = if is64 { read_u16(bytes, 56) } else { read_u16(bytes, 44) };
    let off = if is64 { read_u64(bytes, 32) } else { read_u32(bytes, 28) };
    let es = if is64 { read_u16(bytes, 54) } else { read_u16(bytes, 42) };
    if !((index as u64) < count && off > 0 && es > 0) {
        return None;
    }
    let ghost b = bytes@;
    let i = index as u64;
    assert(i * es <= 0xFFFF * 0xFFFF) by (nonlinear_arith)
        requires
            i <= 0xFFFF,
            es <= 0xFFFF,
    ;
    assert(off + i * es + es <= b.len());
    let start = (off + i * es) as usize;
    assert(start == ph_start(b, index as int));
    if is64 {
        Some(SegmentInfo {
            kind: segment_kind_of(read_u32(bytes, start)),
            offset: read_u64(bytes, start + 8),
            physical_addr: read_u64(bytes, start + 24),
            file_size: read_u64(bytes, start + 32),
            mem_size: read_u64(bytes, start + 40),
        })
    } else {
        Some(SegmentInfo {
            kind: segment_kind_of(read_u32(bytes, start)),
            offset: read_u32(bytes, start + 4),
            physical_addr: read_u32(bytes, start + 12),
            file_size: read_u32(bytes, start + 16),
            mem_size: read_u32(bytes, start + 20),
        })
    }
}

/// The type of a program header.
#[derive(Debug, Clone, Copy, PartialEq, Eq, Structural)]
pub enum SegmentKind {
    /// A loadable segment.
    Load,
    /// Any other known segment type.
    Other,
    /// A type value the ELF format does not define.
    Invalid,
}

/// The fields of a program header that loading reads.
#[derive(Debug, Clone, Copy, PartialEq, Eq, Structural)]
pub struct SegmentInfo {
    pub kind: SegmentKind,
    pub physical_addr: u64,
    pub file_size: u64,
    pub mem_size: u64,
    pub offset: u64,
}


/// Why a kernel image cannot be loaded.
#[derive(Debug, Clone, Copy, PartialEq, Eq, Structural)]
pub enum LoadError {
    /// The ELF header is not valid.
    BadElf,
    /// A program header has a type the ELF format does not define.
    BadSegmentType,
    /// There is no loadable segment with a non-empty memory range.
    NoLoadSegments,
    /// A segment's or the image's address range passes the end of the
    /// 64-bit address space.
    AddressOverflow,
    /// A segment's file contents lie (partly) outside the file.
    SegmentOutOfFile,
    /// The program header table runs past the end of the file, or its
    /// entries are too short to hold a program header or not aligned for it.
    BadProgramHeader,
}

/// One copy the loader makes: `len` bytes from file offset `src_offset` to
/// physical address `dest`.
#[derive(Debug, Clone, Copy, PartialEq, Eq, Structural)]
pub struct SegmentCopy {
    pub dest: u64,
    pub src_offset: u64,
    pub len: u64,
}

/// Where the kernel goes: the page-aligned physical range to allocate
/// (`total_pages` pages from `alloc_start`, zeroed), the copies to make into
/// it, and the address to jump to.
pub struct LoadPlan {
    pub alloc_start: u64,
    pub total_pages: u64,
    pub copies: Vec<SegmentCopy>,
    pub entry_point: u64,
}

/// The lowest start and highest end of the loadable segments of `hs`
/// (`u64::MAX` and 0 when there are none), or the first error met in order.
pub open spec fn load_range(hs: Seq<SegmentInfo>) -> Result<(u64, u64), LoadError>
    decreases hs.len(),
{
    if hs.len() == 0 {
        Ok((u64::MAX, 0))
    } else {
        match load_range(hs.drop_last()) {
            Err(e) => Err(e),
            Ok((lo, hi)) => {
                let h = hs.last();
                match h.kind {
                    SegmentKind::Invalid => Err(LoadError::BadSegmentType),
                    SegmentKind::Other => Ok((lo, hi)),
                    SegmentKind::Load => if h.physical_addr + h.mem_size > u64::MAX {
                        Err(LoadError::AddressOverflow)
                    } else {
                        let end = (h.physical_addr + h.mem_size) as u64;
                        Ok(
                            (
                                if h.physical_addr < lo {
                                    h.physical_addr
                                } else {
                                    lo
                                },
                                if end > hi {
                                    end
                                } else {
                                    hi
                                },
                            ),
                        )
                    },
                }
            },
        }
    }
}

/// The copies for the loadable segments of `hs` that occupy memory, in
/// order, or `SegmentOutOfFile` for the first whose file bytes are not all
/// within a file of `file_len` bytes.
pub open spec fn load_copies(hs: Seq<SegmentInfo>, file_len: nat) -> Result<Seq<SegmentCopy>, LoadError>
    decreases hs.len(),
{
    if hs.len() == 0 {
        Ok(Seq::empty())
    } else {
        match load_copies(hs.drop_last(), file_len) {
            Err(e) => Err(e),
            Ok(cs) => {
                let h = hs.last();
                if h.kind == SegmentKind::Load && h.mem_size != 0 {
                    if h.offset + h.file_size > file_len {
                        Err(LoadError::SegmentOutOfFile)
                    } else {
                        Ok(cs.push(SegmentCopy { dest: h.physical_addr, src_offset: h.offset, len: h.file_size }))
                    }
                } else {
                    Ok(cs)
                }
            },
        }
    }
}

/// `x` rounded down to a multiple of 4096.
pub open spec fn page_floor(x: int) -> int {
    x - x % 4096
}

/// What loading the segments `hs` of a `file_len`-byte file with entry
/// `entry` amounts to: the page range to allocate, the copies, the entry.
pub open spec fn load_plan(hs: Seq<SegmentInfo>, file_len: nat, entry: u64) -> Result<
    (u64, u64, Seq<SegmentCopy>, u64),
    LoadError,
> {
    match load_range(hs) {
        Err(e) => Err(e),
        Ok((lo, hi)) => if lo >= hi {
            Err(LoadError::NoLoadSegments)
        } else if hi + 0xFFF > u64::MAX {
            Err(LoadError::AddressOverflow)
        } else {
            match load_copies(hs, file_len) {
                Err(e) => Err(e),
                Ok(cs) => {
                    let start = page_floor(lo as int);
                    let end = page_floor(hi + 0xFFF);
                    Ok((start as u64, ((end - start) / 4096) as u64, cs, entry))
                },
            }
        },
    }
}

/// Plans the loading of an ELF image from its program headers `hs`, in
/// file order: the loadable segments span `lo..hi`; the pages from
/// `lo` rounded down to `hi` rounded up are allocated; every loadable
/// segment that occupies memory has its file bytes copied to its physical
/// address; execution starts at `entry_point`.
pub fn plan_kernel_load(hs: &[SegmentInfo], file_len: usize, entry_point: u64) -> (r: Result<
    LoadPlan,
    LoadError,
>)
    ensures
        match load_plan(hs@, file_len as nat, entry_point) {
            Ok((start, pages, cs, entry)) => r matches Ok(p) && p.alloc_start == start
                && p.total_pages == pages && p.copies@ == cs && p.entry_point == entry,
            Err(e) => r == Err::<LoadPlan, LoadError>(e),
        },
{
    let mut lo: u64 = u64::MAX;
    let mut hi: u64 = 0;
    let mut i: usize = 0;
    while i < hs.len()
        invariant
            i <= hs@.len(),
            load_range(hs@.take(i as int)) == Ok::<(u64, u64), LoadError>((lo, hi)),
        decreases hs@.len() - i,
    {
        let h = hs[i];
        assert(hs@.take(i as int + 1).drop_last() =~= hs@.take(i as int));
        match h.kind {
            SegmentKind::Invalid => {
                proof {
                    lemma_range_error_sticks(hs@, i as int + 1);
                }
                return Err(LoadError::BadSegmentType);
            },
            SegmentKind::Other => {},
            SegmentKind::Load => {
                if h.mem_size > u64::MAX - h.physical_addr {
                    proof {
                        lemma_range_error_sticks(hs@, i as int + 1);
                    }
                    return Err(LoadError::AddressOverflow);
                }
                let end = h.physical_addr + h.mem_size;
                if h.physical_addr < lo {
                    lo = h.physical_addr;
                }
                if end > hi {
                    hi = end;
                }
            },
        }
        i += 1;
    }
    assert(hs@.take(hs@.len() as int) =~= hs@);
    if lo >= hi {
        return Err(LoadError::NoLoadSegments);
    }
    if hi > u64::MAX - 0xFFF {
        return Err(LoadError::AddressOverflow);
    }
    let mut copies: Vec<SegmentCopy> = Vec::new();
    let mut j: usize = 0;
    while j < hs.len()
        invariant
            j <= hs@.len(),
            load_range(hs@) == Ok::<(u64, u64), LoadError>((lo, hi)),
            lo < hi,
            hi <= u64::MAX - 0xFFF,
            load_copies(hs@.take(j as int), file_len as nat) == Ok::<Seq<SegmentCopy>, LoadError>(
                copies@,
            ),
        decreases hs@.len() - j,
    {
        let h = hs[j];
        assert(hs@.take(j as int + 1).drop_last() =~= hs@.take(j as int));
        if h.kind == SegmentKind::Load && h.mem_size != 0 {
            if h.offset > file_len as u64 || h.file_size > file_len as u64 - h.offset {
                proof {
                    lemma_copies_error_sticks(hs@, file_len as nat, j as int + 1);
                }
                return Err(LoadError::SegmentOutOfFile);
            }
            copies.push(SegmentCopy { dest: h.physical_addr, src_offset: h.offset, len: h.file_size });
        }
        j += 1;
    }
    assert(hs@.take(hs@.len() as int) =~= hs@);
    let alloc_start = lo & !0xFFFu64;
    let alloc_end = (hi + 0xFFF) & !0xFFFu64;
    assert(lo & !0xFFFu64 == lo - lo % 4096) by (bit_vector);
    let top: u64 = hi + 0xFFF;
    assert(top & !0xFFFu64 == top - top % 4096) by (bit_vector);
    assert(alloc_start <= alloc_end);
    Ok(LoadPlan {
        alloc_start,
        total_pages: (alloc_end - alloc_start) / 0x1000,
        copies,
        entry_point,
    })
}

proof fn lemma_range_error_sticks(hs: Seq<SegmentInfo>, n: int)
    requires
        0 <= n <= hs.len(),
        load_range(hs.take(n)) is Err,
    ensures
        load_range(hs) == load_range(hs.take(n)),
    decreases hs.len() - n,
{
    if n < hs.len() {
        assert(hs.take(n + 1).drop_last() =~= hs.take(n));
        lemma_range_error_sticks(hs, n + 1);
    } else {
        assert(hs.take(n) =~= hs);
    }
}

proof fn lemma_copies_error_sticks(hs: Seq<SegmentInfo>, file_len: nat, n: int)
    requires
        0 <= n <= hs.len(),
        load_copies(hs.take(n), file_len) is Err,
    ensures
        load_copies(hs, file_len) == load_copies(hs.take(n), file_len),
    decreases hs.len() - n,
{
    if n < hs.len() {
        assert(hs.take(n + 1).drop_last() =~= hs.take(n));
        lemma_copies_error_sticks(hs, file_len, n + 1);
    } else {
        assert(hs.take(n) =~= hs);
    }
}


/// The program headers of the ELF file `bytes` from index `k` on, in order:
/// up to the announced count, none when the file declares no table.
pub open spec fn headers_from(bytes: Seq<u8>, k: int) -> Seq<SegmentInfo>
    decreases elf_ph_count(bytes) - k,
{
    if k < 0 || k >= elf_ph_count(bytes) {
        Seq::empty()
    } else {
        match elf_program_header(bytes, k as u16) {
            None => Seq::empty(),
            Some(h) => seq![h] + headers_from(bytes, k + 1),
        }
    }
}

proof fn lemma_aligned_step(off: int, es: int, k: int, a: int)
    requires
        a > 0,
        off % a == 0,
        es % a == 0,
        k >= 0,
    ensures
        (off + k * es) % a == 0,
{
    vstd::arithmetic::div_mod::lemma_mod_multiples_basic(off / a + k * (es / a), a);
    assert(off == a * (off / a)) by {
        vstd::arithmetic::div_mod::lemma_fundamental_div_mod(off, a);
    }
    assert(es == a * (es / a)) by {
        vstd::arithmetic::div_mod::lemma_fundamental_div_mod(es, a);
    }
    assert(off + k * es == (off / a + k * (es / a)) * a) by (nonlinear_arith)
        requires
            off == a * (off / a),
            es == a * (es / a),
    ;
}

/// The physical address of a program header is the little-endian number in
/// its entry's bytes 24 to 31 (`p_paddr` of the 64-bit class), or 12 to 15
/// (32-bit class); the virtual address before it plays no part.
pub proof fn lemma_physical_address_bytes(b: Seq<u8>, k: u16)
    requires
        k < elf_ph_count(b),
        ph_table_declared(b),
    ensures
        elf_program_header(b, k) is Some,
        ({
            let s = ph_start(b, k as int);
            let p = elf_program_header(b, k)->Some_0.physical_addr;
            if elf_is_64(b) {
                p == b[s + 24] + 0x100 * b[s + 25] + 0x1_0000 * b[s + 26] + 0x100_0000 * b[s + 27]
                    + 0x1_0000_0000 * b[s + 28] + 0x100_0000_0000 * b[s + 29] + 0x1_0000_0000_0000
                    * b[s + 30] + 0x100_0000_0000_0000 * b[s + 31]
            } else {
                p == b[s + 12] + 0x100 * b[s + 13] + 0x1_0000 * b[s + 14] + 0x100_0000 * b[s + 15]
            }
        }),
{
    let s = ph_start(b, k as int);
    assert(0 <= le64(b, s + 24) < 0x1_0000_0000_0000_0000);
    assert(0 <= le32(b, s + 12) < 0x1_0000_0000);
}

/// Program header `j` of two files that agree everywhere but in the
/// virtual address field of header `k` (at or past byte 64) is the same.
proof fn lemma_header_ignores_virtual_address(b1: Seq<u8>, b2: Seq<u8>, k: int, j: int)
    requires
        b1.len() == b2.len(),
        elf_header_ok(b1),
        elf_is_64(b1),
        ph_table_fits(b1),
        0 <= k < elf_ph_count(b1),
        0 <= j < elf_ph_count(b1),
        ph_table_declared(b1),
        ph_start(b1, k) + 16 >= 64,
        forall|i: int|
            0 <= i < b1.len() && !(ph_start(b1, k) + 16 <= i < ph_start(b1, k) + 24) ==> #[trigger] b1[i]
                == b2[i],
    ensures
        elf_program_header(b2, j as u16) == elf_program_header(b1, j as u16),
{
    let es = elf_ph_entry_size(b1) as int;
    let sk = ph_start(b1, k);
    let sj = ph_start(b1, j);
    assert(ph_readable(b1, k));
    assert(ph_readable(b1, j));
    assert(es >= 56);
    if j < k {
        assert(k * es - j * es >= es) by (nonlinear_arith)
            requires
                j < k,
                es >= 0,
        ;
    } else if j > k {
        assert(j * es - k * es >= es) by (nonlinear_arith)
            requires
                k < j,
                es >= 0,
        ;
    }
    assert forall|i: int| 0 <= i < 64 implies b2[i] == b1[i] by {
        assert(b1[i] == b2[i]);
    }
    assert forall|i: int| (sj <= i < sj + 16 || sj + 24 <= i < sj + 48) implies b2[i] == b1[i] by {
        assert(b1[i] == b2[i]);
    }
    assert(elf_ph_count(b2) == elf_ph_count(b1));
    assert(elf_ph_offset(b2) == elf_ph_offset(b1));
    assert(elf_ph_entry_size(b2) == elf_ph_entry_size(b1));
    assert(ph_start(b2, j) == sj);
}

/// The load of a 64-bit kernel image does not depend on where its segments
/// are mapped virtually: two files that differ only in the virtual address
/// field (`p_vaddr`, bytes 16 to 23 of the entry) of one program header,
/// where that field lies past the 64-byte ELF header, are both valid or
/// both not, give the same program headers, entry point and load plan.
pub proof fn lemma_load_ignores_virtual_address(b1: Seq<u8>, b2: Seq<u8>, k: int)
    requires
        b1.len() == b2.len(),
        elf_header_ok(b1),
        elf_is_64(b1),
        0 <= k < elf_ph_count(b1),
        ph_table_declared(b1),
        ph_start(b1, k) + 16 >= 64,
        forall|i: int|
            0 <= i < b1.len() && !(ph_start(b1, k) + 16 <= i < ph_start(b1, k) + 24) ==> #[trigger] b1[i]
                == b2[i],
    ensures
        elf_header_ok(b2),
        ph_table_fits(b2) == ph_table_fits(b1),
        elf_entry(b2) == elf_entry(b1),
        ph_table_fits(b1) ==> headers_from(b2, 0) == headers_from(b1, 0),
        ph_table_fits(b1) ==> load_plan(headers_from(b2, 0), b2.len(), elf_entry(b2)) == load_plan(
            headers_from(b1, 0),
            b1.len(),
            elf_entry(b1),
        ),
{
    assert forall|i: int| 0 <= i < 64 implies b2[i] == b1[i] by {
        assert(b1[i] == b2[i]);
    }
    assert(elf_ph_count(b2) == elf_ph_count(b1));
    assert(elf_ph_offset(b2) == elf_ph_offset(b1));
    assert(elf_ph_entry_size(b2) == elf_ph_entry_size(b1));
    assert forall|j: int| 0 <= j < elf_ph_count(b1) implies #[trigger] ph_readable(b2, j)
        == ph_readable(b1, j) by {
        assert(ph_start(b2, j) == ph_start(b1, j));
    }
    if ph_table_fits(b1) {
        assert(ph_table_fits(b2));
        lemma_headers_ignore_virtual_address(b1, b2, k, 0);
    } else {
        let j = choose|j: int| 0 <= j < elf_ph_count(b1) && !#[trigger] ph_readable(b1, j);
        assert(!ph_readable(b2, j));
    }
}

proof fn lemma_headers_ignore_virtual_address(b1: Seq<u8>, b2: Seq<u8>, k: int, j: int)
    requires
        b1.len() == b2.len(),
        elf_header_ok(b1),
        elf_is_64(b1),
        ph_table_fits(b1),
        0 <= k < elf_ph_count(b1),
        0 <= j,
        ph_table_declared(b1),
        ph_start(b1, k) + 16 >= 64,
        forall|i: int|
            0 <= i < b1.len() && !(ph_start(b1, k) + 16 <= i < ph_start(b1, k) + 24) ==> #[trigger] b1[i]
                == b2[i],
    ensures
        headers_from(b2, j) == headers_from(b1, j),
    decreases elf_ph_count(b1) - j,
{
    assert forall|i: int| 0 <= i < 64 implies b2[i] == b1[i] by {
        assert(b1[i] == b2[i]);
    }
    assert(elf_ph_count(b2) == elf_ph_count(b1));
    if j < elf_ph_count(b1) {
        lemma_header_ignores_virtual_address(b1, b2, k, j);
        lemma_headers_ignore_virtual_address(b1, b2, k, j + 1);
    }
}

/// Whether every program header the ELF header of `bytes` announces can be
/// read out of the file.
fn program_headers_fit(bytes: &[u8]) -> (r: bool)
    requires
        elf_header_ok(bytes@),
    ensures
        r == ph_table_fits(bytes@),
{
    let ghost b = bytes@;
    let is64 = bytes[4] == 2;
    let count = if is64 { read_u16(bytes, 56) } else { read_u16(bytes, 44) };
    let off = if is64 { read_u64(bytes, 32) } else { read_u32(bytes, 28) };
    let es = if is64 { read_u16(bytes, 54) } else { read_u16(bytes, 42) };
    assert(count == elf_ph_count(b) && off == elf_ph_offset(b) && es == elf_ph_entry_size(b));
    if count > 0 && off > 0 && es > 0 {
        let min: u64 = if is64 { 56 } else { 32 };
        let align: u64 = if is64 { 8 } else { 4 };
        let len = bytes.len() as u64;
        assert(count * es <= 0xFFFF_FFFF) by (nonlinear_arith)
            requires
                count <= 0xFFFF,
                es <= 0xFFFF,
        ;
        let table = count * es;
        if es < min || off > len || table > len - off || off % align != 0 || (count > 1 && es
            % align != 0) {
            proof {
                if es >= min && off <= len && table <= len - off && off % align == 0 {
                    assert(!ph_readable(b, 1));
                } else if es >= min && off <= len && off % align == 0 {
                    let k = count - 1;
                    assert(k * es + es == count * es) by (nonlinear_arith)
                        requires
                            k == count - 1,
                    ;
                    assert(!ph_readable(b, k as int));
                } else {
                    assert(!ph_readable(b, 0));
                }
            }
            return false;
        }
        assert forall|k: int| 0 <= k < elf_ph_count(b) implies #[trigger] ph_readable(b, k) by {
            assert(k * es + es <= count * es) by (nonlinear_arith)
                requires
                    0 <= k < count,
                    0 <= es,
            ;
            if k > 0 {
                lemma_aligned_step(off as int, es as int, k, align as int);
            }
        }
    }
    true
}

/// Reads the kernel's ELF image `bytes` and plans its loading (see
/// [`plan_kernel_load`]); `BadElf` when its ELF header is not valid,
/// `BadProgramHeader` when its program headers cannot all be read out of it.
pub fn load_kernel_image(bytes: &[u8]) -> (r: Result<LoadPlan, LoadError>)
    ensures
        !elf_header_ok(bytes@) ==> r == Err::<LoadPlan, LoadError>(LoadError::BadElf),
        elf_header_ok(bytes@) && !ph_table_fits(bytes@) ==> r == Err::<LoadPlan, LoadError>(
            LoadError::BadProgramHeader,
        ),
        elf_header_ok(bytes@) && ph_table_fits(bytes@) ==> match load_plan(
            headers_from(bytes@, 0),
            bytes@.len(),
            elf_entry(bytes@),
        ) {
            Ok((start, pages, cs, entry)) => r matches Ok(p) && p.alloc_start == start
                && p.total_pages == pages && p.copies@ == cs && p.entry_point == entry,
            Err(e) => r == Err::<LoadPlan, LoadError>(e),
        },
{
    if !elf_header_valid(bytes) {
        return Err(LoadError::BadElf);
    }
    if !program_headers_fit(bytes) {
        return Err(LoadError::BadProgramHeader);
    }
    let ghost b = bytes@;
    let is64 = bytes[4] == 2;
    let count = if is64 { read_u16(bytes, 56) } else { read_u16(bytes, 44) };
    let entry = if is64 { read_u64(bytes, 24) } else { read_u32(bytes, 24) };
    assert(ph_table_fits(bytes@));
    assert(entry == elf_entry(b));
    let count = count as u16;
    let mut hs: Vec<SegmentInfo> = Vec::new();
    let mut i: u16 = 0;
    let mut stopped = false;
    while i < count && !stopped
        invariant
            elf_header_ok(bytes@),
            count == elf_ph_count(bytes@),
            ph_table_fits(bytes@),
            i <= count,
            stopped ==> headers_from(bytes@, i as int) == Seq::<SegmentInfo>::empty(),
            hs@ + headers_from(bytes@, i as int) == headers_from(bytes@, 0),
        decreases count - i, if stopped { 0int } else { 1int },
    {
        assert(ph_readable(bytes@, i as int));
        match read_program_header(bytes, i) {
            Some(h) => {
                assert(headers_from(bytes@, i as int) == seq![h] + headers_from(bytes@, i as int + 1));
                assert(hs@.push(h) + headers_from(bytes@, i as int + 1) =~= hs@ + headers_from(
                    bytes@,
                    i as int,
                ));
                hs.push(h);
            },
            None => {
                assert(headers_from(bytes@, i as int) == Seq::<SegmentInfo>::empty());
                stopped = true;
            },
        }
        if !stopped {
            i += 1;
        }
    }
    assert(hs@ =~= headers_from(bytes@, 0)) by {
        assert(headers_from(bytes@, i as int) == Seq::<SegmentInfo>::empty());
        assert(hs@ + Seq::<SegmentInfo>::empty() =~= hs@);
    }
    plan_kernel_load(hs.as_slice(), bytes.len(), entry)
}

/// A memory descriptor as the firmware reports it: whether the memory is
/// conventional (free for the kernel), where it starts, how many 4 KiB
/// pages it spans.
#[derive(Debug, Clone, Copy, PartialEq, Eq, Structural)]
pub struct UefiMemoryDescriptor {
    pub conventional: bool,
    pub phys_start: u64,
    pub page_count: u64,
}

/// The region a descriptor becomes: usable when conventional, reserved
/// otherwise, spanning its pages.
pub open spec fn region_of(d: UefiMemoryDescriptor) -> MemoryRegion {
    MemoryRegion {
        range: MemoryRegionRange {
            start_addr: d.phys_start,
            end_addr: (d.phys_start + d.page_count * 4096) as u64,
        },
        region_type: if d.conventional {
            MemoryRegionType::Usable
        } else {
            MemoryRegionType::Reserved
        },
    }
}

/// Whether a descriptor's pages end within the 64-bit address space.
pub open spec fn descriptor_fits(d: UefiMemoryDescriptor) -> bool {
    d.phys_start + d.page_count * 4096 <= u64::MAX
}

/// The region a descriptor becomes.
pub fn region_from_descriptor(d: UefiMemoryDescriptor) -> (r: MemoryRegion)
    requires
        descriptor_fits(d),
    ensures
        r == region_of(d),
{
    MemoryRegion {
        range: MemoryRegionRange {
            start_addr: d.phys_start,
            end_addr: d.phys_start + d.page_count * 4096,
        },
        region_type: if d.conventional {
            MemoryRegionType::Usable
        } else {
            MemoryRegionType::Reserved
        },
    }
}

/// The boot memory map of the firmware's descriptors: one region each, in
/// order, as far as the map has room.
pub fn memory_map_from_descriptors(ds: &[UefiMemoryDescriptor]) -> (m: MemoryMap)
    requires
        forall|i: int| 0 <= i < ds@.len() ==> descriptor_fits(#[trigger] ds@[i]),
    ensures
        m.wf(),
        m.regions() == ds@.take(
            if ds@.len() < MAX_REGIONS {
                ds@.len() as int
            } else {
                MAX_REGIONS as int
            },
        ).map_values(|d: UefiMemoryDescriptor| region_of(d)),
{
    let mut m = MemoryMap::new();
    let mut i: usize = 0;
    while i < ds.len()
        invariant
            i <= ds@.len(),
            forall|k: int| 0 <= k < ds@.len() ==> descriptor_fits(#[trigger] ds@[k]),
            m.wf(),
            m.regions() == ds@.take(
                if i < MAX_REGIONS {
                    i as int
                } else {
                    MAX_REGIONS as int
                },
            ).map_values(|d: UefiMemoryDescriptor| region_of(d)),
        decreases ds@.len() - i,
    {
        let ghost before = m.regions();
        let r = region_from_descriptor(ds[i]);
        m.add_region(r);
        if i < MAX_REGIONS {
            assert(ds@.take(i as int + 1).map_values(|d: UefiMemoryDescriptor| region_of(d))
                =~= before.push(r));
        }
        i += 1;
    }
    m
}


proof fn lemma_range_bounds(hs: Seq<SegmentInfo>)
    requires
        load_range(hs) is Ok,
    ensures
        forall|i: int|
            0 <= i < hs.len() && (#[trigger] hs[i]).kind == SegmentKind::Load ==> load_range(
                hs,
            )->Ok_0.0 <= hs[i].physical_addr && hs[i].physical_addr + hs[i].mem_size <= load_range(
                hs,
            )->Ok_0.1,
        forall|i: int| 0 <= i < hs.len() ==> (#[trigger] hs[i]).kind != SegmentKind::Invalid,
    decreases hs.len(),
{
    if hs.len() > 0 {
        let init = hs.drop_last();
        lemma_range_bounds(init);
        let (lo0, hi0) = load_range(init)->Ok_0;
        let (lo, hi) = load_range(hs)->Ok_0;
        assert(lo <= lo0 && hi >= hi0);
        assert forall|i: int| 0 <= i < hs.len() && (#[trigger] hs[i]).kind == SegmentKind::Load implies lo
            <= hs[i].physical_addr && hs[i].physical_addr + hs[i].mem_size <= hi by {
            if i < hs.len() - 1 {
                assert(init[i] == hs[i]);
            } else {
                assert(hs[i] == hs.last());
            }
        }
        assert forall|i: int| 0 <= i < hs.len() implies (#[trigger] hs[i]).kind != SegmentKind::Invalid by {
            if i < hs.len() - 1 {
                assert(init[i] == hs[i]);
            } else {
                assert(hs[i] == hs.last());
            }
        }
    }
}

proof fn lemma_copies_from_segments(hs: Seq<SegmentInfo>, file_len: nat)
    requires
        load_copies(hs, file_len) is Ok,
    ensures
        forall|k: int|
            #![trigger load_copies(hs, file_len)->Ok_0[k]]
            0 <= k < load_copies(hs, file_len)->Ok_0.len() ==> exists|i: int|
                0 <= i < hs.len() && (#[trigger] hs[i]).kind == SegmentKind::Load
                    && load_copies(hs, file_len)->Ok_0[k] == (SegmentCopy {
                    dest: hs[i].physical_addr,
                    src_offset: hs[i].offset,
                    len: hs[i].file_size,
                }),
    decreases hs.len(),
{
    if hs.len() > 0 {
        lemma_copies_from_segments(hs.drop_last(), file_len);
        let cs0 = load_copies(hs.drop_last(), file_len)->Ok_0;
        let cs = load_copies(hs, file_len)->Ok_0;
        assert forall|k: int| #![trigger cs[k]] 0 <= k < cs.len() implies exists|i: int|
            0 <= i < hs.len() && (#[trigger] hs[i]).kind == SegmentKind::Load && cs[k] == (SegmentCopy {
                dest: hs[i].physical_addr,
                src_offset: hs[i].offset,
                len: hs[i].file_size,
            }) by {
            if k < cs0.len() {
                assert(cs[k] == cs0[k]);
                let i = choose|i: int|
                    0 <= i < hs.drop_last().len() && (#[trigger] hs.drop_last()[i]).kind
                        == SegmentKind::Load && cs0[k] == (SegmentCopy {
                        dest: hs.drop_last()[i].physical_addr,
                        src_offset: hs.drop_last()[i].offset,
                        len: hs.drop_last()[i].file_size,
                    });
                assert(hs.drop_last()[i] == hs[i]);
            } else {
                assert(hs[hs.len() - 1] == hs.last());
            }
        }
    }
}

/// The loader stays inside what it allocates: every copy of a planned load
/// starts and ends within the page range the plan allocates (for images
/// whose segments hold no more file bytes than memory bytes, as ELF
/// requires), and every loadable segment's memory lies in that range too.
pub proof fn lemma_copies_inside_allocation(hs: Seq<SegmentInfo>, file_len: nat, entry: u64)
    requires
        load_plan(hs, file_len, entry) is Ok,
        forall|i: int| 0 <= i < hs.len() ==> (#[trigger] hs[i]).file_size <= hs[i].mem_size,
    ensures
        ({
            let (start, pages, cs, e) = load_plan(hs, file_len, entry)->Ok_0;
            &&& forall|k: int|
                0 <= k < cs.len() ==> start <= (#[trigger] cs[k]).dest && cs[k].dest + cs[k].len
                    <= start + pages * 4096
            &&& forall|i: int|
                0 <= i < hs.len() && (#[trigger] hs[i]).kind == SegmentKind::Load ==> start
                    <= hs[i].physical_addr && hs[i].physical_addr + hs[i].mem_size <= start + pages
                    * 4096
        }),
{
    let (lo, hi) = load_range(hs)->Ok_0;
    lemma_range_bounds(hs);
    lemma_copies_from_segments(hs, file_len);
    let (start, pages, cs, e) = load_plan(hs, file_len, entry)->Ok_0;
    let top = hi + 0xFFF;
    assert(start == lo - lo % 4096);
    assert(start + pages * 4096 == top - top % 4096) by {
        assert((top - top % 4096 - (lo - lo % 4096)) % 4096 == 0) by (nonlinear_arith)
            requires top >= 0, lo >= 0;
    }
    assert(top - top % 4096 >= hi);
    assert forall|k: int| 0 <= k < cs.len() implies start <= (#[trigger] cs[k]).dest && cs[k].dest
        + cs[k].len <= start + pages * 4096 by {
        let i = choose|i: int|
            0 <= i < hs.len() && (#[trigger] hs[i]).kind == SegmentKind::Load && cs[k] == (SegmentCopy {
                dest: hs[i].physical_addr,
                src_offset: hs[i].offset,
                len: hs[i].file_size,
            });
        assert(hs[i].file_size <= hs[i].mem_size);
    }
}

} // verus!
