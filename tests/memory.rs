use libkernel::atag::{Atag, Core, Mem};
use libkernel::memory::heap_map;
use libkernel::memory::{
    addr_space_size, virt_mem_layout, AccessPermissions, AttributeFields, KernelVirtualLayout, MemAttributes,
    RangeDescriptor, Translation, MMIO_BASE, MMIO_END_INCLUSIVE,
};
use libkernel::mmu::{
    attribute_fields_bits, MemoryManagementUnit, MmuError, PageDescriptor, TableDescriptor, TranslationTables,
    MAIR_DEVICE, MAIR_NON_CACHEABLE, MAIR_NORMAL,
};

const RO_START: usize = 0x8_0000;
const RO_END: usize = 0x10_0000;
const HEAP_START: usize = 0x40_0000;
const HEAP_END: usize = 0x100_0000;
const LVL3_BASE: usize = 0x20_0000;

fn attr_index(d: u64) -> u64 {
    (d >> 2) & 0b111
}

fn shareability(d: u64) -> u64 {
    (d >> 8) & 0b11
}

fn access(d: u64) -> u64 {
    (d >> 6) & 0b11
}

fn pxn(d: u64) -> u64 {
    (d >> 53) & 1
}

#[test]
fn address_space_is_four_gib() {
    assert_eq!(addr_space_size(), 1u64 << 32);
}

#[test]
fn layout_ranges_do_not_overlap() {
    let layout = virt_mem_layout(RO_START, RO_END, HEAP_START, HEAP_END).unwrap();
    let r = layout.inner();
    for (i, a) in r.iter().enumerate() {
        for b in r.iter().skip(i + 1) {
            let (a0, a1) = a.virtual_range();
            let (b0, b1) = b.virtual_range();
            assert!(!(a0 <= b0 && b0 <= a1));
            assert!(!(a0 <= b1 && b1 <= a1));
            assert!(!(b0 <= a0 && a0 <= b1));
            assert!(!(b0 <= a1 && a1 <= b1));
        }
    }
}

#[test]
fn layout_ranges_are_64k_aligned() {
    let layout = virt_mem_layout(RO_START, RO_END, HEAP_START, HEAP_END).unwrap();
    for d in layout.inner().iter() {
        let (start, end) = d.virtual_range();
        assert_eq!(start % 0x10000, 0);
        assert_eq!((end + 1) % 0x10000, 0);
        assert!(end >= start);
    }
}

#[test]
fn lookup_uses_layout_then_default() {
    let layout = virt_mem_layout(RO_START, RO_END, HEAP_START, HEAP_END).unwrap();
    let (out, a) = layout.virt_addr_properties(0x8_1000).unwrap();
    assert_eq!(out, 0x8_1000);
    assert_eq!(a.acc_perms, AccessPermissions::ReadOnly);
    assert!(!a.execute_never);
    let (out, a) = layout.virt_addr_properties(MMIO_BASE + 0x20_1000).unwrap();
    assert_eq!(out, MMIO_BASE + 0x20_1000);
    assert_eq!(a.mem_attributes, MemAttributes::Device);
    let (_, a) = layout.virt_addr_properties(0x20_0000).unwrap();
    assert_eq!(a, AttributeFields::default());
    let (out, a) = layout.virt_addr_properties(HEAP_START + 0x1234).unwrap();
    assert_eq!(out, HEAP_START + 0x1234);
    assert_eq!(a.mem_attributes, MemAttributes::NonCacheableDRAM);
    assert_eq!(a.acc_perms, AccessPermissions::ReadWrite);
    assert!(a.execute_never);
    let (out, a) = layout.virt_addr_properties(0x200_0000).unwrap();
    assert_eq!(out, 0x200_0000);
    assert_eq!(a, AttributeFields::default());
    assert_eq!(a.mem_attributes, MemAttributes::CacheableDRAM);
    assert_eq!(a.acc_perms, AccessPermissions::ReadWrite);
    assert!(a.execute_never);
}

#[test]
fn offset_ranges_translate() {
    let layout = KernelVirtualLayout::new(
        0xFFFF_FFFF,
        vec![RangeDescriptor {
            name: "remapped",
            start: 0x100_0000,
            end_inclusive: 0x100_FFFF,
            translation: Translation::Offset(0x200_0000),
            attribute_fields: AttributeFields::default(),
        }],
    );
    assert_eq!(layout.virt_addr_properties(0x100_0010).unwrap().0, 0x200_0010);
}

#[test]
fn addresses_beyond_the_layout_are_refused() {
    let layout = KernelVirtualLayout::new(0xFFFF, vec![]);
    assert!(matches!(layout.virt_addr_properties(0x1_0000), Err("Address out of range")));
    let mut tables = TranslationTables::new();
    assert_eq!(
        MemoryManagementUnit.init(0, &mut tables, &layout, LVL3_BASE),
        Err(MmuError::AddressOutOfRange)
    );
}

#[test]
fn unsupported_granule_is_refused() {
    let layout = virt_mem_layout(RO_START, RO_END, HEAP_START, HEAP_END).unwrap();
    let mut tables = TranslationTables::new();
    assert_eq!(
        MemoryManagementUnit.init(0xF << 24, &mut tables, &layout, LVL3_BASE),
        Err(MmuError::GranuleUnsupported)
    );
    assert_eq!(tables.page_entry(0), 0);
}

#[test]
fn mmio_pages_get_device_attributes() {
    let layout = virt_mem_layout(RO_START, RO_END, HEAP_START, HEAP_END).unwrap();
    let mut tables = TranslationTables::new();
    assert_eq!(MemoryManagementUnit.init(0x1122, &mut tables, &layout, LVL3_BASE), Ok(()));
    for va in [MMIO_BASE, MMIO_BASE + 0xB200, MMIO_END_INCLUSIVE & !0xFFFF] {
        let d = tables.page_entry(va >> 16);
        assert_eq!(attr_index(d), MAIR_DEVICE);
        assert_eq!(shareability(d), 0b10);
        assert_eq!(access(d), 0b00);
        assert_eq!(pxn(d), 1);
        assert_eq!(d & 0b11, 0b11);
        assert_eq!(d & (1 << 10), 1 << 10);
        assert_eq!((d >> 16) & 0xFFFF_FFFF, (va >> 16) as u64);
    }
    let ro = tables.page_entry(RO_START >> 16);
    assert_eq!(attr_index(ro), MAIR_NORMAL);
    assert_eq!(shareability(ro), 0b11);
    assert_eq!(access(ro), 0b10);
    assert_eq!(pxn(ro), 0);
    let heap = tables.page_entry(HEAP_START >> 16);
    assert_eq!(attr_index(heap), MAIR_NON_CACHEABLE);
    assert_eq!(shareability(heap), 0b11);
    assert_eq!(pxn(heap), 1);
    let ram = tables.page_entry(0x200_0000 >> 16);
    assert_eq!(attr_index(ram), MAIR_NORMAL);
    assert_eq!(access(ram), 0b00);
    assert_eq!(pxn(ram), 1);
    assert_eq!(tables.page_entry(0xFFFF), 0x0000_FFFF_0000 | 0x0020_0000_0000_0000 | 0x707);
    for l2 in 0..8 {
        assert_eq!(tables.table_entry(l2), ((LVL3_BASE + l2 * 0x10000) as u64) | 0b11);
    }
}

#[test]
fn descriptors_encode_fields() {
    assert_eq!(TableDescriptor::new(0x10_0000).0, 0x10_0003);
    let a = AttributeFields {
        mem_attributes: MemAttributes::CacheableDRAM,
        acc_perms: AccessPermissions::ReadOnly,
        execute_never: false,
    };
    assert_eq!(attribute_fields_bits(a), 0x384);
    assert_eq!(PageDescriptor::new(0x8_0000, a).0, 0x8_0000 | 0x400 | 0x384 | 0b11);
    let dev = AttributeFields {
        mem_attributes: MemAttributes::Device,
        acc_perms: AccessPermissions::ReadWrite,
        execute_never: true,
    };
    assert_eq!(attribute_fields_bits(dev), 0x200 | (1 << 53));
    let nc = AttributeFields {
        mem_attributes: MemAttributes::NonCacheableDRAM,
        acc_perms: AccessPermissions::ReadWrite,
        execute_never: true,
    };
    assert_eq!(attribute_fields_bits(nc), 0x308 | (1 << 53));
}

#[test]
fn heap_ends_with_first_memory_tag() {
    let atags = vec![
        Atag::Core(Core { flags: 0, page_size: 4096, root_dev: 0 }),
        Atag::Cmd("quiet"),
        Atag::Mem(Mem { size: 0x3B00_0000, start: 0x100 }),
        Atag::Mem(Mem { size: 0x1000, start: 0 }),
        Atag::End,
    ];
    assert_eq!(heap_map(&atags, 0x20_0000), Some((0x20_0000, 0x3B00_0100)));
}

#[test]
fn no_memory_tag_means_no_heap() {
    assert_eq!(heap_map(&vec![Atag::Cmd("x"), Atag::End], 0x20_0000), None);
    assert_eq!(heap_map(&vec![], 0x20_0000), None);
}

#[test]
fn range_sizes_use_largest_unit() {
    let layout = virt_mem_layout(RO_START, RO_END, HEAP_START, HEAP_END).unwrap();
    let r = layout.inner();
    assert_eq!(r[0].human_size(), (512, "KiB"));
    assert_eq!(r[0].attribute_labels(), ("C", "RO", "PX"));
    assert_eq!(r[1].human_size(), (3, "MiB"));
    assert_eq!(r[1].attribute_labels(), ("C", "RW", "PXN"));
    assert_eq!(r[2].human_size(), (12, "MiB"));
    assert_eq!(r[2].attribute_labels(), ("NC", "RW", "PXN"));
    assert_eq!(r[3].human_size(), (16, "MiB"));
    assert_eq!(r[3].attribute_labels(), ("Dev", "RW", "PXN"));
    let tiny = RangeDescriptor {
        name: "tiny",
        start: 0x10,
        end_inclusive: 0x1F,
        translation: Translation::Identity,
        attribute_fields: AttributeFields::default(),
    };
    assert_eq!(tiny.human_size(), (16, "Byte"));
}

#[test]
fn bad_linker_bounds_are_refused() {
    assert!(virt_mem_layout(RO_END, RO_START, HEAP_START, HEAP_END).is_none());
    assert!(virt_mem_layout(RO_START, RO_START, HEAP_START, HEAP_END).is_none());
    assert!(virt_mem_layout(RO_START + 0x1000, RO_END, HEAP_START, HEAP_END).is_none());
    assert!(virt_mem_layout(RO_START, RO_END, HEAP_START + 8, HEAP_END).is_none());
    assert!(virt_mem_layout(RO_START, RO_END, RO_END, HEAP_END).is_none());
    assert!(virt_mem_layout(RO_START, RO_END, HEAP_START, MMIO_BASE + 0x10000).is_none());
    assert!(virt_mem_layout(RO_START, RO_END, HEAP_START, MMIO_BASE).is_some());
}
