//! The kernel's virtual memory layout and its translation tables.
//!
//! The address space is identity mapped with a 64 KiB granule: one level-2
//! table whose entries each cover 512 MiB and point to a level-3 table of 8192
//! page descriptors of 64 KiB. The attributes of each page come from the
//! layout: kernel code and read-only data, kernel data and BSS, the heap and
//! the device MMIO range; any other address is normal cacheable memory,
//! read-write and not executable.

use vstd::prelude::*;
use crate::atag::Atag;

verus! {

/// The last address of the physical address space.
pub const END_INCLUSIVE: usize = 0xFFFF_FFFF;

/// Offset of the GPIO block from the peripheral base.
pub const GPIO_OFFSET: usize = 0x0020_0000;

/// Offset of the PL011 UART from the peripheral base.
pub const UART_OFFSET: usize = 0x0020_1000;

/// Offset of the system timer from the peripheral base.
pub const SYS_TIMER_OFFSET: usize = 0x0000_3000;

/// The peripheral base.
pub const MMIO_BASE: usize = 0x3F00_0000;

/// The peripheral interrupt controller.
pub const PERIPHERAL_INTERRUPT_CONTROLLER_BASE: usize = MMIO_BASE + 0x0000_B200;

/// The GPIO block.
pub const GPIO_BASE: usize = MMIO_BASE + GPIO_OFFSET;

/// The PL011 UART.
pub const PL011_UART_BASE: usize = MMIO_BASE + UART_OFFSET;

/// The system timer.
pub const SYS_TIMER_BASE: usize = MMIO_BASE + SYS_TIMER_OFFSET;

/// The local (per-core) interrupt controller.
pub const LOCAL_INTERRUPT_CONTROLLER_BASE: usize = 0x4000_0000;

/// The last address of the device MMIO range.
pub const MMIO_END_INCLUSIVE: usize = 0x4000_FFFF;

/// Returns the address space size in bytes (4 GiB).
pub fn addr_space_size() -> (r: u64)
    ensures
        r == END_INCLUSIVE + 1,
{
    END_INCLUSIVE as u64 + 1
}

/// Index of the first `Mem` tag of `atags`, or `atags.len()`.
pub open spec fn first_mem(atags: Seq<Atag>) -> int
    decreases atags.len(),
{
    if atags.len() == 0 {
        0
    } else if atags[0] is Mem {
        0
    } else {
        1 + first_mem(atags.drop_first())
    }
}

proof fn lemma_first_mem_bounds(atags: Seq<Atag>)
    ensures
        0 <= first_mem(atags) <= atags.len(),
        first_mem(atags) < atags.len() ==> atags[first_mem(atags)] is Mem,
        forall|j: int| 0 <= j < first_mem(atags) ==> !(#[trigger] atags[j] is Mem),
    decreases atags.len(),
{
    if atags.len() > 0 && !(atags[0] is Mem) {
        let r = atags.drop_first();
        lemma_first_mem_bounds(r);
        assert forall|j: int| 0 <= j < first_mem(atags) implies !(#[trigger] atags[j] is Mem) by {
            if j > 0 {
                assert(atags[j] == r[j - 1]);
            }
        }
    }
}

/// The heap region `(start, end)`: from the end of the kernel image,
/// `binary_end`, to the end of the first memory region the firmware reports.
/// `None` if it reports none, or if that end does not fit a `usize`.
pub fn heap_map(atags: &Vec<Atag>, binary_end: usize) -> (r: Option<(usize, usize)>)
    ensures
        ({
            let i = first_mem(atags@);
            if i < atags@.len() {
                let m = atags@[i]->Mem_0;
                let end = m.start + m.size;
                if end <= usize::MAX {
                    r == Some((binary_end, end as usize))
                } else {
                    r is None
                }
            } else {
                r is None
            }
        }),
{
    proof {
        lemma_first_mem_bounds(atags@);
    }
    let n = atags.len();
    let mut i: usize = 0;
    while i < n
        invariant
            n == atags@.len(),
            i <= n,
            forall|j: int| 0 <= j < i ==> !(#[trigger] atags@[j] is Mem),
            first_mem(atags@) >= i,
        decreases n - i,
    {
        proof {
            lemma_first_mem_bounds(atags@);
        }
        match atags[i] {
            Atag::Mem(m) => {
                assert(atags@[i as int] is Mem);
                assert(first_mem(atags@) == i);
                let start = m.start as usize;
                let size = m.size as usize;
                if start > usize::MAX - size {
                    return None;
                }
                return Some((binary_end, start + size));
            },
            _ => {},
        }
        i = i + 1;
    }
    None
}

/// Memory attributes of a range.
#[derive(Clone, Copy, Debug, PartialEq, Eq, Structural)]
pub enum MemAttributes {
    CacheableDRAM,
    NonCacheableDRAM,
    Device,
}

/// Access permissions of a range.
#[derive(Clone, Copy, Debug, PartialEq, Eq, Structural)]
pub enum AccessPermissions {
    ReadOnly,
    ReadWrite,
}

/// How the addresses of a range translate.
#[derive(Clone, Copy, Debug, PartialEq, Eq, Structural)]
pub enum Translation {
    Identity,
    /// The range maps onto output addresses starting at this one.
    Offset(usize),
}

/// The attributes of a range.
#[derive(Clone, Copy, Debug, PartialEq, Eq, Structural)]
pub struct AttributeFields {
    pub mem_attributes: MemAttributes,
    pub acc_perms: AccessPermissions,
    pub execute_never: bool,
}

/// The attributes of memory outside every special range.
pub open spec fn default_attributes() -> AttributeFields {
    AttributeFields {
        mem_attributes: MemAttributes::CacheableDRAM,
        acc_perms: AccessPermissions::ReadWrite,
        execute_never: true,
    }
}

impl Default for AttributeFields {
    /// Normal cacheable memory, read-write, not executable.
    fn default() -> (r: AttributeFields)
        ensures
            r == default_attributes(),
    {
        AttributeFields {
            mem_attributes: MemAttributes::CacheableDRAM,
            acc_perms: AccessPermissions::ReadWrite,
            execute_never: true,
        }
    }
}

/// A named range of the layout, `start..=end_inclusive`.
#[derive(Clone, Copy, Debug)]
pub struct RangeDescriptor {
    pub name: &'static str,
    pub start: usize,
    pub end_inclusive: usize,
    pub translation: Translation,
    pub attribute_fields: AttributeFields,
}

impl RangeDescriptor {
    pub open spec fn contains(&self, addr: int) -> bool {
        self.start <= addr <= self.end_inclusive
    }

    /// The output address of `addr`, which the range contains.
    pub open spec fn output(&self, addr: usize) -> usize {
        match self.translation {
            Translation::Identity => addr,
            Translation::Offset(a) => (a + (addr - self.start)) as usize,
        }
    }

    pub open spec fn wf(&self) -> bool {
        &&& self.start <= self.end_inclusive
        &&& (self.translation matches Translation::Offset(a) ==> a + (self.end_inclusive - self.start)
            <= usize::MAX)
    }

    /// The range's size, in the largest of MiB, KiB and bytes of which it
    /// holds at least one, rounded down.
    pub fn human_size(&self) -> (r: (usize, &'static str))
        requires
            self.start <= self.end_inclusive,
            self.end_inclusive - self.start < usize::MAX,
        ensures
            ({
                let size = self.end_inclusive - self.start + 1;
                if size >= 0x10_0000 {
                    r.0 == size / 0x10_0000 && r.1 == "MiB"
                } else if size >= 0x400 {
                    r.0 == size / 0x400 && r.1 == "KiB"
                } else {
                    r.0 == size && r.1 == "Byte"
                }
            }),
    {
        let size = self.end_inclusive - self.start + 1;
        if size >= 0x10_0000 {
            (size / 0x10_0000, "MiB")
        } else if size >= 0x400 {
            (size / 0x400, "KiB")
        } else {
            (size, "Byte")
        }
    }

    /// Short labels of the attributes: memory type ("C" cacheable, "NC" not
    /// cacheable or "Dev" device), access ("RO" or "RW") and execution ("PXN" never, "PX"
    /// allowed).
    pub fn attribute_labels(&self) -> (r: (&'static str, &'static str, &'static str))
        ensures
            r.0 == match self.attribute_fields.mem_attributes {
                MemAttributes::CacheableDRAM => "C",
                MemAttributes::NonCacheableDRAM => "NC",
                MemAttributes::Device => "Dev",
            },
            r.1 == (if self.attribute_fields.acc_perms == AccessPermissions::ReadOnly { "RO" } else { "RW" }),
            r.2 == (if self.attribute_fields.execute_never { "PXN" } else { "PX" }),
    {
        let attr = match self.attribute_fields.mem_attributes {
            MemAttributes::CacheableDRAM => "C",
            MemAttributes::NonCacheableDRAM => "NC",
            MemAttributes::Device => "Dev",
        };
        let acc = match self.attribute_fields.acc_perms {
            AccessPermissions::ReadOnly => "RO",
            AccessPermissions::ReadWrite => "RW",
        };
        let xn = if self.attribute_fields.execute_never {
            "PXN"
        } else {
            "PX"
        };
        (attr, acc, xn)
    }

    /// The range as its first and last address.
    pub fn virtual_range(&self) -> (r: (usize, usize))
        ensures
            r == (self.start, self.end_inclusive),
    {
        (self.start, self.end_inclusive)
    }
}

/// Index of the first range of `ranges` that contains `addr`, or
/// `ranges.len()`.
pub open spec fn first_containing(ranges: Seq<RangeDescriptor>, addr: usize) -> int
    decreases ranges.len(),
{
    if ranges.len() == 0 {
        0
    } else if ranges[0].contains(addr as int) {
        0
    } else {
        1 + first_containing(ranges.drop_first(), addr)
    }
}

proof fn lemma_first_containing_bounds(ranges: Seq<RangeDescriptor>, addr: usize)
    ensures
        0 <= first_containing(ranges, addr) <= ranges.len(),
        first_containing(ranges, addr) < ranges.len() ==> ranges[first_containing(ranges, addr)].contains(
            addr as int,
        ),
        forall|j: int| 0 <= j < first_containing(ranges, addr) ==> !(#[trigger] ranges[j]).contains(addr as int),
    decreases ranges.len(),
{
    if ranges.len() > 0 && !ranges[0].contains(addr as int) {
        let r = ranges.drop_first();
        lemma_first_containing_bounds(r, addr);
        assert forall|j: int| 0 <= j < first_containing(ranges, addr) implies !(
        #[trigger] ranges[j]).contains(addr as int) by {
            if j > 0 {
                assert(ranges[j] == r[j - 1]);
            }
        }
    }
}

/// Output address and attributes of `addr` under a layout with `ranges` and
/// last address `max`: the first range containing it decides; an address in
/// no range maps to itself with the default attributes; one beyond `max` is
/// an error.
pub open spec fn properties(ranges: Seq<RangeDescriptor>, max: usize, addr: usize) -> Result<
    (usize, AttributeFields),
    &'static str,
> {
    if addr > max {
        Err("Address out of range")
    } else {
        let i = first_containing(ranges, addr);
        if i < ranges.len() {
            Ok((ranges[i].output(addr), ranges[i].attribute_fields))
        } else {
            Ok((addr, default_attributes()))
        }
    }
}

/// The kernel's virtual memory layout: the last address, and the ranges that
/// are not normal cacheable DRAM.
pub struct KernelVirtualLayout {
    max_virt_addr_inclusive: usize,
    inner: Vec<RangeDescriptor>,
}

impl KernelVirtualLayout {
    pub closed spec fn max(&self) -> usize {
        self.max_virt_addr_inclusive
    }

    pub closed spec fn ranges(&self) -> Seq<RangeDescriptor> {
        self.inner@
    }

    pub open spec fn wf(&self) -> bool {
        forall|i: int| 0 <= i < self.ranges().len() ==> (#[trigger] self.ranges()[i]).wf()
    }

    /// A layout with last address `max` and the special ranges `layout`.
    pub fn new(max: usize, layout: Vec<RangeDescriptor>) -> (r: KernelVirtualLayout)
        ensures
            r.max() == max,
            r.ranges() == layout@,
    {
        KernelVirtualLayout { max_virt_addr_inclusive: max, inner: layout }
    }

    /// The special ranges.
    pub fn inner(&self) -> (r: &Vec<RangeDescriptor>)
        ensures
            r@ == self.ranges(),
    {
        &self.inner
    }

    /// For a virtual address, finds the output address and its attributes.
    /// An address in no special range is identity mapped as normal cacheable
    /// DRAM; one beyond the last address is refused.
    pub fn virt_addr_properties(&self, virt_addr: usize) -> (r: Result<(usize, AttributeFields), &'static str>)
        requires
            self.wf(),
        ensures
            r == properties(self.ranges(), self.max(), virt_addr),
    {
        if virt_addr > self.max_virt_addr_inclusive {
            return Err("Address out of range");
        }
        let ghost rs = self.inner@;
        let n = self.inner.len();
        let mut i: usize = 0;
        while i < n
            invariant
                n == rs.len(),
                rs == self.ranges(),
                self.wf(),
                virt_addr <= self.max(),
                0 <= i <= n,
                forall|j: int| 0 <= j < i ==> !(#[trigger] rs[j]).contains(virt_addr as int),
            decreases n - i,
        {
            proof {
                lemma_first_containing_bounds(rs, virt_addr);
            }
            let d = &self.inner[i];
            if d.start <= virt_addr && virt_addr <= d.end_inclusive {
                assert(rs[i as int].contains(virt_addr as int));
                assert(first_containing(rs, virt_addr) == i);
                assert(rs[i as int].wf());
                let output_addr = match d.translation {
                    Translation::Identity => virt_addr,
                    Translation::Offset(a) => a + (virt_addr - d.start),
                };
                return Ok((output_addr, d.attribute_fields));
            }
            i = i + 1;
        }
        proof {
            lemma_first_containing_bounds(rs, virt_addr);
        }
        Ok((virt_addr, AttributeFields::default()))
    }
}

/// An identity-mapped range `[start, end)`.
pub open spec fn identity_range(name: &'static str, start: usize, end: usize, attrs: AttributeFields) -> RangeDescriptor {
    RangeDescriptor {
        name,
        start,
        end_inclusive: (end - 1) as usize,
        translation: Translation::Identity,
        attribute_fields: attrs,
    }
}

/// Kernel code and read-only data: read-only, executable, cacheable.
pub open spec fn code_attributes() -> AttributeFields {
    AttributeFields {
        mem_attributes: MemAttributes::CacheableDRAM,
        acc_perms: AccessPermissions::ReadOnly,
        execute_never: false,
    }
}

/// The heap: read-write, not executable, not cacheable.
pub open spec fn heap_attributes() -> AttributeFields {
    AttributeFields {
        mem_attributes: MemAttributes::NonCacheableDRAM,
        acc_perms: AccessPermissions::ReadWrite,
        execute_never: true,
    }
}

/// Device memory: read-write, not executable.
pub open spec fn device_attributes() -> AttributeFields {
    AttributeFields {
        mem_attributes: MemAttributes::Device,
        acc_perms: AccessPermissions::ReadWrite,
        execute_never: true,
    }
}

/// The kernel's layout, from the linker's bounds: kernel code and RO data
/// `[ro_start, ro_end)`, kernel data and BSS `[ro_end, heap_start)`, the heap
/// `[heap_start, heap_end)`, and the device MMIO range.
pub open spec fn kernel_ranges(ro_start: usize, ro_end: usize, heap_start: usize, heap_end: usize) -> Seq<
    RangeDescriptor,
> {
    seq![
        identity_range("Kernel code and RO data", ro_start, ro_end, code_attributes()),
        identity_range("Kernel data and BSS", ro_end, heap_start, default_attributes()),
        identity_range("Kernel heap", heap_start, heap_end, heap_attributes()),
        identity_range("Device MMIO", MMIO_BASE, (MMIO_END_INCLUSIVE + 1) as usize, device_attributes()),
    ]
}

/// The linker's bounds are in order, each area is non-empty, all lie below
/// the MMIO range, and each is 64 KiB aligned, the granule at which pages get
/// their attributes.
pub open spec fn linker_bounds_ok(ro_start: usize, ro_end: usize, heap_start: usize, heap_end: usize) -> bool {
    &&& ro_start < ro_end < heap_start < heap_end <= MMIO_BASE
    &&& ro_start % 0x10000 == 0
    &&& ro_end % 0x10000 == 0
    &&& heap_start % 0x10000 == 0
    &&& heap_end % 0x10000 == 0
}

/// No range of `ranges` contains the first or the last address of another.
pub open spec fn ranges_disjoint(ranges: Seq<RangeDescriptor>) -> bool {
    forall|i: int, j: int|
        0 <= i < ranges.len() && 0 <= j < ranges.len() && i != j ==> {
            &&& !(#[trigger] ranges[i]).contains((#[trigger] ranges[j]).start as int)
            &&& !ranges[i].contains(ranges[j].end_inclusive as int)
        }
}

/// Every range of `ranges` starts, and ends just before, a 64 KiB boundary.
pub open spec fn ranges_aligned(ranges: Seq<RangeDescriptor>) -> bool {
    forall|i: int|
        0 <= i < ranges.len() ==> (#[trigger] ranges[i]).start % 0x10000 == 0 && (ranges[i].end_inclusive + 1)
            % 0x10000 == 0 && ranges[i].start <= ranges[i].end_inclusive
}

fn push_identity_range(v: &mut Vec<RangeDescriptor>, name: &'static str, start: usize, end: usize, attrs: AttributeFields)
    requires
        start < end,
    ensures
        final(v)@ == old(v)@.push(identity_range(name, start, end, attrs)),
{
    v.push(
        RangeDescriptor {
            name,
            start,
            end_inclusive: end - 1,
            translation: Translation::Identity,
            attribute_fields: attrs,
        },
    );
}

/// Builds the kernel's virtual memory layout over the whole address space
/// from the linker's bounds (see [`kernel_ranges`]). Refuses bounds out of
/// order, empty areas, areas reaching into the MMIO range, or bounds not 64 KiB
/// aligned: the layout's ranges then could not be aligned and disjoint.
pub fn virt_mem_layout(ro_start: usize, ro_end: usize, heap_start: usize, heap_end: usize) -> (r: Option<
    KernelVirtualLayout,
>)
    ensures
        r is Some <==> linker_bounds_ok(ro_start, ro_end, heap_start, heap_end),
        r matches Some(l) ==> {
            &&& l.max() == END_INCLUSIVE
            &&& l.ranges() == kernel_ranges(ro_start, ro_end, heap_start, heap_end)
            &&& l.wf()
            &&& ranges_disjoint(l.ranges())
            &&& ranges_aligned(l.ranges())
        },
{
    if !(ro_start < ro_end && ro_end < heap_start && heap_start < heap_end && heap_end <= MMIO_BASE && ro_start
        % 0x10000 == 0 && ro_end % 0x10000 == 0 && heap_start % 0x10000 == 0 && heap_end % 0x10000 == 0) {
        return None;
    }
    proof {
        lemma_layout_disjoint(ro_start, ro_end, heap_start, heap_end);
        lemma_layout_aligned(ro_start, ro_end, heap_start, heap_end);
    }
    let mut v: Vec<RangeDescriptor> = Vec::new();
    let code = AttributeFields {
        mem_attributes: MemAttributes::CacheableDRAM,
        acc_perms: AccessPermissions::ReadOnly,
        execute_never: false,
    };
    let heap = AttributeFields {
        mem_attributes: MemAttributes::NonCacheableDRAM,
        acc_perms: AccessPermissions::ReadWrite,
        execute_never: true,
    };
    let device = AttributeFields {
        mem_attributes: MemAttributes::Device,
        acc_perms: AccessPermissions::ReadWrite,
        execute_never: true,
    };
    push_identity_range(&mut v, "Kernel code and RO data", ro_start, ro_end, code);
    push_identity_range(&mut v, "Kernel data and BSS", ro_end, heap_start, AttributeFields::default());
    push_identity_range(&mut v, "Kernel heap", heap_start, heap_end, heap);
    push_identity_range(&mut v, "Device MMIO", MMIO_BASE, MMIO_END_INCLUSIVE + 1, device);
    assert(v@ =~= kernel_ranges(ro_start, ro_end, heap_start, heap_end));
    Some(KernelVirtualLayout::new(END_INCLUSIVE, v))
}

/// No two ranges of the kernel layout overlap: neither contains the other's
/// first or last address, for linker bounds in order below the MMIO range.
pub proof fn lemma_layout_disjoint(ro_start: usize, ro_end: usize, heap_start: usize, heap_end: usize)
    requires
        ro_start < ro_end < heap_start < heap_end <= MMIO_BASE,
    ensures
        ranges_disjoint(kernel_ranges(ro_start, ro_end, heap_start, heap_end)),
{
}

/// Every range of the kernel layout is 64 KiB aligned at its start and one
/// past its end, for 64 KiB aligned linker bounds.
pub proof fn lemma_layout_aligned(ro_start: usize, ro_end: usize, heap_start: usize, heap_end: usize)
    requires
        ro_start < ro_end < heap_start < heap_end <= MMIO_BASE,
        ro_start % 0x10000 == 0,
        ro_end % 0x10000 == 0,
        heap_start % 0x10000 == 0,
        heap_end % 0x10000 == 0,
    ensures
        ranges_aligned(kernel_ranges(ro_start, ro_end, heap_start, heap_end)),
{
}

} // verus!
