//! The layout of each process's virtual address space.
use vstd::prelude::*;
use crate::memory::frame_start_containing;
use crate::text::{chars_of, string_from_chars};
use x86_64::VirtAddr;

verus! {

/// Whether `addr` is a canonical 48-bit virtual address: bits 48 to 63 copy
/// bit 47.
pub open spec fn canonical(addr: u64) -> bool {
    addr < 0x8000_0000_0000 || addr >= 0xFFFF_8000_0000_0000
}

/// The virtual address `addr`, checked.
///
/// Calls `x86_64`'s `VirtAddr::new`. Claimed, from the crate's source: it
/// panics exactly on non-canonical addresses, and keeps a canonical address
/// as it is.
#[verifier::external_body]
fn virt_addr(addr: u64) -> (r: u64)
    requires
        canonical(addr),
    ensures
        r == addr,
{
    VirtAddr::new(addr).as_u64()
}

/// The largest process id whose address space fits below the canonical
/// boundary.
pub const MAX_USER_PID: usize = 524263;

/// A process's address space: its page table root frame and the ranges of
/// its code, stack and heap.
pub struct ProcessAddressSpace {
    pub pid: usize,
    pub name: String,
    pub cr3_frame: u64,
    pub code_range: (u64, u64),
    pub stack_range: (u64, u64),
    pub heap_range: (u64, u64),
    pub isolated: bool,
}

/// Where the address space of user process `pid` starts.
pub open spec fn user_base(pid: int) -> int {
    0x1_0000_0000 + pid * 0x1000_0000
}

/// The half-open address range `[r.0, r.1)` as integers.
pub open spec fn as_range(r: (u64, u64)) -> (int, int) {
    (r.0 as int, r.1 as int)
}

/// Ranges of user process `pid`: code (`i == 0`, 2 MiB at its base), heap
/// (`i == 1`, 4 MiB from 4 MiB up) and stack (`i == 2`, the last MiB below
/// 2 GiB).
pub open spec fn user_range(pid: int, i: int) -> (int, int) {
    let b = user_base(pid);
    if i == 0 {
        (b, b + 0x20_0000)
    } else if i == 1 {
        (b + 0x40_0000, b + 0x80_0000)
    } else {
        (b + 0x7FF0_0000, b + 0x8000_0000)
    }
}

/// The frame of user process `pid`'s page-table root.
pub open spec fn user_cr3(pid: int) -> int {
    0x2000 + pid * 0x1000
}

/// Ranges of the kernel: code (`i == 0`), heap (`i == 1`), stack (`i == 2`).
pub open spec fn kernel_range(i: int) -> (int, int) {
    if i == 0 {
        (0x20_0000, 0x40_0000)
    } else if i == 1 {
        (0x4444_4444_0000, 0x4444_4448_0000)
    } else {
        (0x80_0000, 0x90_0000)
    }
}

/// The frame of the kernel's page-table root.
pub open spec fn kernel_cr3() -> int {
    0x1000
}

/// Whether two half-open ranges share no address.
pub open spec fn disjoint(a: (int, int), b: (int, int)) -> bool {
    a.1 <= b.0 || b.1 <= a.0
}

/// The kernel's own address space: pid 0, named `kernel`, shared.
pub open spec fn is_kernel_space(s: ProcessAddressSpace) -> bool {
    &&& s.pid == 0
    &&& s.name@ == "kernel"@
    &&& s.cr3_frame == kernel_cr3()
    &&& as_range(s.code_range) == kernel_range(0)
    &&& as_range(s.heap_range) == kernel_range(1)
    &&& as_range(s.stack_range) == kernel_range(2)
    &&& !s.isolated
}

/// The isolated address space of user process `pid` called `name`.
pub open spec fn is_user_space(s: ProcessAddressSpace, pid: int, name: Seq<char>) -> bool {
    &&& s.pid == pid
    &&& s.name@ == name
    &&& s.cr3_frame == user_cr3(pid)
    &&& as_range(s.code_range) == user_range(pid, 0)
    &&& as_range(s.heap_range) == user_range(pid, 1)
    &&& as_range(s.stack_range) == user_range(pid, 2)
    &&& s.isolated
}

impl ProcessAddressSpace {
    /// The kernel's own address space (pid 0), shared by all.
    pub fn create_kernel_space() -> (s: Self)
        ensures
            is_kernel_space(s),
    {
        ProcessAddressSpace {
            pid: 0,
            name: "kernel".to_owned(),
            cr3_frame: frame_start_containing(0x1000),
            code_range: (virt_addr(0x200000), virt_addr(0x400000)),
            stack_range: (virt_addr(0x800000), virt_addr(0x900000)),
            heap_range: (virt_addr(0x444444440000), virt_addr(0x444444480000)),
            isolated: false,
        }
    }

    /// The isolated address space of user process `pid`: 256 MiB apart per
    /// process from 4 GiB up, code at the start (2 MiB), heap from 4 MiB
    /// (4 MiB), stack below 2 GiB (1 MiB); its page table root in frame
    /// `pid + 2`.
    pub fn create_user_space(pid: usize, name: &str) -> (s: Self)
        requires
            pid <= MAX_USER_PID,
        ensures
            is_user_space(s, pid as int, name@),
    {
        let base: u64 = 0x100000000u64 + (pid as u64 * 0x10000000u64);
        let frame = 0x2000 + (pid as u64 * 0x1000);
        assert(frame % 4096 == 0);
        ProcessAddressSpace {
            pid,
            name: string_from_chars(chars_of(name).as_slice()),
            cr3_frame: frame_start_containing(frame),
            code_range: (virt_addr(base), virt_addr(base + 0x200000)),
            stack_range: (virt_addr(base + 0x7FF00000), virt_addr(base + 0x80000000)),
            heap_range: (virt_addr(base + 0x400000), virt_addr(base + 0x800000)),
            isolated: true,
        }
    }
}

/// The address spaces of all processes.
pub struct MemoryManager {
    spaces: Vec<ProcessAddressSpace>,
}

impl MemoryManager {
    /// The address spaces, in order.
    pub closed spec fn space_list(&self) -> Seq<ProcessAddressSpace> {
        self.spaces@
    }

    /// The kernel's space, then `init` (pid 1) and `shell` (pid 2).
    pub fn new() -> (m: Self)
        ensures
            m.space_list().len() == 3,
            is_kernel_space(m.space_list()[0]),
            is_user_space(m.space_list()[1], 1, "init"@),
            is_user_space(m.space_list()[2], 2, "shell"@),
    {
        let mut mm = MemoryManager { spaces: Vec::new() };
        mm.spaces.push(ProcessAddressSpace::create_kernel_space());
        mm.spaces.push(ProcessAddressSpace::create_user_space(1, "init"));
        mm.spaces.push(ProcessAddressSpace::create_user_space(2, "shell"));
        mm
    }

    /// The address spaces, in order.
    pub fn spaces(&self) -> (r: &Vec<ProcessAddressSpace>)
        ensures
            r@ == self.space_list(),
    {
        &self.spaces
    }
}

/// Isolation of address spaces: the code, heap and stack ranges of one user
/// process are pairwise disjoint, none of them meets a range of another
/// user process or of the kernel, and every process has its own page-table
/// root frame.
pub proof fn lemma_user_spaces_isolated(p: int, q: int)
    requires
        0 <= p <= MAX_USER_PID,
        0 <= q <= MAX_USER_PID,
        p != q,
    ensures
        forall|i: int, j: int|
            0 <= i < 3 && 0 <= j < 3 && i != j ==> disjoint(
                #[trigger] user_range(p, i),
                #[trigger] user_range(p, j),
            ),
        forall|i: int, j: int|
            0 <= i < 3 && 0 <= j < 3 ==> disjoint(#[trigger] user_range(p, i), #[trigger] user_range(q, j)),
        forall|i: int, j: int|
            0 <= i < 3 && 0 <= j < 3 ==> disjoint(#[trigger] user_range(p, i), #[trigger] kernel_range(j)),
        user_cr3(p) != user_cr3(q),
        user_cr3(p) != kernel_cr3(),
{
    assert forall|i: int, j: int| 0 <= i < 3 && 0 <= j < 3 implies disjoint(
        #[trigger] user_range(p, i),
        #[trigger] user_range(q, j),
    ) by {
        if p < q {
            if q - p <= 7 {
            } else {
            }
        } else {
            if p - q <= 7 {
            } else {
            }
        }
    }
    assert forall|i: int, j: int| 0 <= i < 3 && 0 <= j < 3 implies disjoint(
        #[trigger] user_range(p, i),
        #[trigger] kernel_range(j),
    ) by {
        if p <= 0x4442C {
        } else if p <= 0x44434 {
        } else {
        }
    }
}

} // verus!
