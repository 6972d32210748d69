//! Translation-table descriptors for the 64 KiB granule, the statically sized
//! tables, and the MMU's bring-up decision.

use vstd::prelude::*;
use crate::memory::{
    first_containing, kernel_ranges, properties, AccessPermissions, AttributeFields, KernelVirtualLayout,
    MemAttributes, END_INCLUSIVE, MMIO_BASE, MMIO_END_INCLUSIVE,
};

verus! {

/// log2 of 64 KiB.
pub const SIXTYFOUR_KIB_SHIFT: usize = 16;

/// log2 of 512 MiB.
pub const FIVETWELVE_MIB_SHIFT: usize = 29;

/// Entries of the level-2 table: one per 512 MiB of the 4 GiB address space.
pub const ENTRIES_512_MIB: usize = 8;

/// Entries of each level-3 table.
pub const LVL3_ENTRIES: usize = 8192;

/// Page descriptors over all level-3 tables.
pub const NUM_PAGES: usize = 0x10000;

/// Bytes of one level-3 table: 8192 eight-byte descriptors.
pub const LVL3_TABLE_BYTES: usize = 0x10000;

/// The address of the last 64 KiB page of the address space.
pub const LAST_PAGE: usize = 0xFFFF_0000;

/// `MAIR_EL1` index of device memory (nGnRE).
pub const MAIR_DEVICE: u64 = 0;

/// `MAIR_EL1` index of normal write-back memory.
pub const MAIR_NORMAL: u64 = 1;

/// `MAIR_EL1` index of normal non-cacheable memory.
pub const MAIR_NON_CACHEABLE: u64 = 2;

/// The shareability, access-permission, attribute-index and execute-never
/// fields of a page descriptor for `a`. Normal memory is inner shareable with
/// attribute index 1 (cacheable) or 2 (not cacheable); device memory is outer
/// shareable with index 0.
pub open spec fn attribute_bits(a: AttributeFields) -> u64 {
    (match a.mem_attributes {
        MemAttributes::CacheableDRAM => (3u64 << 8u64) | (MAIR_NORMAL << 2u64),
        MemAttributes::NonCacheableDRAM => (3u64 << 8u64) | (MAIR_NON_CACHEABLE << 2u64),
        MemAttributes::Device => (2u64 << 8u64) | (MAIR_DEVICE << 2u64),
    }) | (match a.acc_perms {
        AccessPermissions::ReadOnly => 2u64 << 6u64,
        AccessPermissions::ReadWrite => 0u64,
    }) | (if a.execute_never {
        1u64 << 53u64
    } else {
        0u64
    })
}

/// The output-address field (bits 47:16) for `addr`.
pub open spec fn address_field(addr: u64) -> u64 {
    ((addr >> 16u64) & 0xFFFF_FFFFu64) << 16u64
}

/// A valid level-3 page descriptor for output address `out` with attributes
/// `a`: VALID, access flag, type "table" (page), the attribute fields and the
/// output address.
pub open spec fn page_descriptor(out: u64, a: AttributeFields) -> u64 {
    1u64 | (1u64 << 10u64) | attribute_bits(a) | (1u64 << 1u64) | address_field(out)
}

/// A valid level-2 table descriptor pointing to the table at `addr`.
pub open spec fn table_descriptor(addr: u64) -> u64 {
    1u64 | (1u64 << 1u64) | address_field(addr)
}

/// The page descriptor that the layout asks for at page `i`, virtual address
/// `i * 64 KiB`; 0 (invalid) if the layout refuses the address.
pub open spec fn layout_page(layout: KernelVirtualLayout, i: int) -> u64 {
    match properties(layout.ranges(), layout.max(), (i * 0x10000) as usize) {
        Ok((out, a)) => page_descriptor(out as u64, a),
        Err(_) => 0,
    }
}

/// The descriptor fields for `a`.
pub fn attribute_fields_bits(a: AttributeFields) -> (r: u64)
    ensures
        r == attribute_bits(a),
{
    let mem: u64 = match a.mem_attributes {
        MemAttributes::CacheableDRAM => (3u64 << 8u64) | (MAIR_NORMAL << 2u64),
        MemAttributes::NonCacheableDRAM => (3u64 << 8u64) | (MAIR_NON_CACHEABLE << 2u64),
        MemAttributes::Device => (2u64 << 8u64) | (MAIR_DEVICE << 2u64),
    };
    let ap: u64 = match a.acc_perms {
        AccessPermissions::ReadOnly => 2u64 << 6u64,
        AccessPermissions::ReadWrite => 0u64,
    };
    let xn: u64 = if a.execute_never {
        1u64 << 53u64
    } else {
        0u64
    };
    mem | ap | xn
}

/// A level-3 page descriptor.
#[derive(Clone, Copy, Debug, PartialEq, Eq, Structural)]
pub struct PageDescriptor(pub u64);

impl PageDescriptor {
    /// The descriptor mapping a page onto `output_addr` with `attribute_fields`.
    pub fn new(output_addr: usize, attribute_fields: AttributeFields) -> (r: PageDescriptor)
        ensures
            r.0 == page_descriptor(output_addr as u64, attribute_fields),
    {
        let shifted = (output_addr as u64 >> 16u64) & 0xFFFF_FFFFu64;
        let val = 1u64 | (1u64 << 10u64) | attribute_fields_bits(attribute_fields) | (1u64 << 1u64) | (
        shifted << 16u64);
        PageDescriptor(val)
    }
}

/// A level-2 table descriptor.
#[derive(Clone, Copy, Debug, PartialEq, Eq, Structural)]
pub struct TableDescriptor(pub u64);

impl TableDescriptor {
    /// The descriptor pointing to the next-level table at `next_lvl_table_addr`.
    pub fn new(next_lvl_table_addr: usize) -> (r: TableDescriptor)
        ensures
            r.0 == table_descriptor(next_lvl_table_addr as u64),
    {
        let shifted = (next_lvl_table_addr as u64 >> 16u64) & 0xFFFF_FFFFu64;
        TableDescriptor(1u64 | (1u64 << 1u64) | (shifted << 16u64))
    }
}

/// The device page at `out` is outer shareable, has the device attribute
/// index, is read-write for EL1 and never executable.
pub proof fn lemma_device_page_fields(out: u64)
    ensures
        ({
            let d = page_descriptor(
                out,
                AttributeFields {
                    mem_attributes: MemAttributes::Device,
                    acc_perms: AccessPermissions::ReadWrite,
                    execute_never: true,
                },
            );
            &&& (d >> 2u64) & 7u64 == MAIR_DEVICE
            &&& (d >> 8u64) & 3u64 == 2u64
            &&& (d >> 6u64) & 3u64 == 0u64
            &&& (d >> 53u64) & 1u64 == 1u64
            &&& d & 3u64 == 3u64
        }),
{
    let d = page_descriptor(
        out,
        AttributeFields {
            mem_attributes: MemAttributes::Device,
            acc_perms: AccessPermissions::ReadWrite,
            execute_never: true,
        },
    );
    assert(d == 1u64 | (1u64 << 10u64) | (((2u64 << 8u64) | (0u64 << 2u64)) | 0u64 | (1u64 << 53u64)) | (1u64
        << 1u64) | ((((out >> 16u64) & 0xFFFF_FFFFu64) << 16u64)));
    assert({
        let e = 1u64 | (1u64 << 10u64) | (((2u64 << 8u64) | (0u64 << 2u64)) | 0u64 | (1u64 << 53u64)) | (1u64
            << 1u64) | ((((out >> 16u64) & 0xFFFF_FFFFu64) << 16u64));
        &&& (e >> 2u64) & 7u64 == 0u64
        &&& (e >> 8u64) & 3u64 == 2u64
        &&& (e >> 6u64) & 3u64 == 0u64
        &&& (e >> 53u64) & 1u64 == 1u64
        &&& e & 3u64 == 3u64
    }) by (bit_vector);
}


/// In the tables populated from the kernel's layout, every page of the MMIO
/// range is mapped as device memory: attribute index `DEVICE`, outer
/// shareable, read-write, never executable.
pub proof fn lemma_mmio_pages_are_device(
    layout: KernelVirtualLayout,
    ro_start: usize,
    ro_end: usize,
    heap_start: usize,
    heap_end: usize,
    i: int,
)
    requires
        ro_start < ro_end < heap_start < heap_end <= MMIO_BASE,
        layout.ranges() == kernel_ranges(ro_start, ro_end, heap_start, heap_end),
        layout.max() == END_INCLUSIVE,
        MMIO_BASE <= i * 0x10000 <= MMIO_END_INCLUSIVE,
    ensures
        (layout_page(layout, i) >> 2u64) & 7u64 == MAIR_DEVICE,
        (layout_page(layout, i) >> 8u64) & 3u64 == 2u64,
        (layout_page(layout, i) >> 6u64) & 3u64 == 0u64,
        (layout_page(layout, i) >> 53u64) & 1u64 == 1u64,
{
    let rs = kernel_ranges(ro_start, ro_end, heap_start, heap_end);
    let va = (i * 0x10000) as usize;
    let r1 = rs.drop_first();
    let r2 = r1.drop_first();
    let r3 = r2.drop_first();
    assert(!rs[0].contains(va as int) && !rs[1].contains(va as int) && !rs[2].contains(va as int));
    assert(rs[3].contains(va as int));
    assert(r1[0] == rs[1] && r2[0] == rs[2] && r3[0] == rs[3]);
    assert(first_containing(r3, va) == 0);
    assert(first_containing(r2, va) == 1);
    assert(first_containing(r1, va) == 2);
    assert(first_containing(rs, va) == 3);
    lemma_device_page_fields(va as u64);
}

/// The translation tables: the level-2 table and, flattened one after the
/// other, its level-3 tables (page `i` is entry `i % 8192` of table `i / 8192`).
/// Where they sit in memory is the caller's business; `populate` is told the
/// address of the first level-3 table.
pub struct TranslationTables {
    lvl3: Vec<u64>,
    lvl2: Vec<u64>,
}

impl TranslationTables {
    pub closed spec fn lvl3_view(&self) -> Seq<u64> {
        self.lvl3@
    }

    pub closed spec fn lvl2_view(&self) -> Seq<u64> {
        self.lvl2@
    }

    pub open spec fn wf(&self) -> bool {
        &&& self.lvl3_view().len() == NUM_PAGES
        &&& self.lvl2_view().len() == ENTRIES_512_MIB
    }

    /// Tables with every entry zero (invalid).
    pub fn new() -> (r: TranslationTables)
        ensures
            r.wf(),
            forall|i: int| 0 <= i < NUM_PAGES ==> r.lvl3_view()[i] == 0,
            forall|i: int| 0 <= i < ENTRIES_512_MIB ==> r.lvl2_view()[i] == 0,
    {
        let mut lvl3: Vec<u64> = Vec::new();
        let mut i: usize = 0;
        while i < NUM_PAGES
            invariant
                i <= NUM_PAGES,
                lvl3@.len() == i,
                forall|j: int| 0 <= j < i ==> lvl3@[j] == 0,
            decreases NUM_PAGES - i,
        {
            lvl3.push(0);
            i = i + 1;
        }
        let mut lvl2: Vec<u64> = Vec::new();
        let mut k: usize = 0;
        while k < ENTRIES_512_MIB
            invariant
                k <= ENTRIES_512_MIB,
                lvl2@.len() == k,
                forall|j: int| 0 <= j < k ==> lvl2@[j] == 0,
            decreases ENTRIES_512_MIB - k,
        {
            lvl2.push(0);
            k = k + 1;
        }
        TranslationTables { lvl3, lvl2 }
    }

    /// Level-3 entry `i`, for the page at virtual address `i * 64 KiB`.
    pub fn page_entry(&self, i: usize) -> (r: u64)
        requires
            self.wf(),
            i < NUM_PAGES,
        ensures
            r == self.lvl3_view()[i as int],
    {
        self.lvl3[i]
    }

    /// Level-2 entry `i`, for the 512 MiB window starting at `i << 29`.
    pub fn table_entry(&self, i: usize) -> (r: u64)
        requires
            self.wf(),
            i < ENTRIES_512_MIB,
        ensures
            r == self.lvl2_view()[i as int],
    {
        self.lvl2[i]
    }

    /// Fills every entry from `layout`: level-2 entry `l2` points to the
    /// level-3 table at `lvl3_base + l2 * 64 KiB`, and the page at virtual
    /// address `v` gets the output address and attributes the layout gives
    /// `v`. Fails if the layout ends before the last page.
    pub fn populate(&mut self, layout: &KernelVirtualLayout, lvl3_base: usize) -> (r: Result<(), &'static str>)
        requires
            old(self).wf(),
            layout.wf(),
            lvl3_base + ENTRIES_512_MIB * LVL3_TABLE_BYTES <= usize::MAX,
        ensures
            final(self).wf(),
            r is Ok <==> layout.max() >= LAST_PAGE,
            r is Ok ==> forall|l2: int|
                0 <= l2 < ENTRIES_512_MIB ==> #[trigger] final(self).lvl2_view()[l2] == table_descriptor(
                    (lvl3_base + l2 * LVL3_TABLE_BYTES) as u64,
                ),
            r is Ok ==> forall|i: int|
                0 <= i < NUM_PAGES ==> #[trigger] final(self).lvl3_view()[i] == layout_page(*layout, i),
    {
        let mut l2: usize = 0;
        while l2 < ENTRIES_512_MIB
            invariant
                l2 <= ENTRIES_512_MIB,
                self.wf(),
                lvl3_base + ENTRIES_512_MIB * LVL3_TABLE_BYTES <= usize::MAX,
                forall|j: int|
                    0 <= j < l2 ==> #[trigger] self.lvl2_view()[j] == table_descriptor(
                        (lvl3_base + j * LVL3_TABLE_BYTES) as u64,
                    ),
            decreases ENTRIES_512_MIB - l2,
        {
            let d = TableDescriptor::new(lvl3_base + l2 * LVL3_TABLE_BYTES);
            self.lvl2.set(l2, d.0);
            l2 = l2 + 1;
        }
        let mut i: usize = 0;
        while i < NUM_PAGES
            invariant
                i <= NUM_PAGES,
                self.wf(),
                layout.wf(),
                forall|j: int|
                    0 <= j < ENTRIES_512_MIB ==> #[trigger] self.lvl2_view()[j] == table_descriptor(
                        (lvl3_base + j * LVL3_TABLE_BYTES) as u64,
                    ),
                forall|j: int| 0 <= j < i ==> #[trigger] self.lvl3_view()[j] == layout_page(*layout, j),
                i > 0 ==> (i - 1) * 0x10000 <= layout.max(),
            decreases NUM_PAGES - i,
        {
            assert(i * 0x10000 <= LAST_PAGE) by (nonlinear_arith)
                requires
                    i < NUM_PAGES,
            ;
            let virt_addr = i * 0x10000;
            match layout.virt_addr_properties(virt_addr) {
                Ok((output_addr, attribute_fields)) => {
                    let d = PageDescriptor::new(output_addr, attribute_fields);
                    self.lvl3.set(i, d.0);
                },
                Err(e) => {
                    return Err(e);
                },
            }
            i = i + 1;
        }
        Ok(())
    }
}

/// Why the MMU could not be brought up.
#[derive(Clone, Copy, Debug, PartialEq, Eq, Structural)]
pub enum MmuError {
    /// `ID_AA64MMFR0_EL1` does not report the 64 KiB translation granule.
    GranuleUnsupported,
    /// The layout does not cover the whole address space.
    AddressOutOfRange,
}

/// `ID_AA64MMFR0_EL1.TGran64` (bits 27:24) reads "supported" (0b0000).
pub open spec fn granule_64k_supported(mmfr0: u64) -> bool {
    (mmfr0 >> 24u64) & 0xFu64 == 0
}

/// The memory management unit.
pub struct MemoryManagementUnit;

impl MemoryManagementUnit {
    /// Checks the translation granule against the `ID_AA64MMFR0_EL1` value
    /// `mmfr0` and, if it is supported, populates `tables` from `layout`.
    pub fn init(&self, mmfr0: u64, tables: &mut TranslationTables, layout: &KernelVirtualLayout, lvl3_base: usize) -> (r:
        Result<(), MmuError>)
        requires
            old(tables).wf(),
            layout.wf(),
            lvl3_base + ENTRIES_512_MIB * LVL3_TABLE_BYTES <= usize::MAX,
        ensures
            final(tables).wf(),
            !granule_64k_supported(mmfr0) ==> r == Err::<(), MmuError>(MmuError::GranuleUnsupported)
                && *final(tables) == *old(tables),
            granule_64k_supported(mmfr0) ==> (r is Ok <==> layout.max() >= LAST_PAGE),
            granule_64k_supported(mmfr0) && layout.max() < LAST_PAGE ==> r == Err::<(), MmuError>(
                MmuError::AddressOutOfRange,
            ),
            r is Ok ==> forall|l2: int|
                0 <= l2 < ENTRIES_512_MIB ==> #[trigger] final(tables).lvl2_view()[l2] == table_descriptor(
                    (lvl3_base + l2 * LVL3_TABLE_BYTES) as u64,
                ),
            r is Ok ==> forall|i: int|
                0 <= i < NUM_PAGES ==> #[trigger] final(tables).lvl3_view()[i] == layout_page(*layout, i),
    {
        if (mmfr0 >> 24u64) & 0xFu64 != 0 {
            return Err(MmuError::GranuleUnsupported);
        }
        match tables.populate(layout, lvl3_base) {
            Ok(()) => Ok(()),
            Err(_) => Err(MmuError::AddressOutOfRange),
        }
    }
}

} // verus!
