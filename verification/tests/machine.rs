use std::collections::HashMap;

use sol_os::allocator::BumpAllocator;
use sol_os::memory::{
    init_heap, is_well_formed_map, BootInfoFrameAllocator, HeapAction, HeapSetup, MapToError,
    MemoryRegion, MemoryRegionKind, HEAP_PAGE_FLAGS, HEAP_SIZE, HEAP_START,
};
use sol_os::pci::{config_address, find_xhci_controller, Place, ScanAction, XhciController, XhciScan};
use x86_64::structures::paging::PageTableFlags;

#[test]
fn allocator_without_heap_serves_nothing() {
    let mut heap = BumpAllocator::new();
    assert_eq!(heap.capacity(), 0);
    assert_eq!(heap.used(), 0);
    assert_eq!(heap.allocate(1, 1), None);
    assert_eq!(heap.allocate(0, 1), None);
}

#[test]
fn blocks_are_aligned_and_follow_each_other() {
    let mut heap = BumpAllocator::new();
    heap.init(0x1001, 0x100);
    assert_eq!(heap.capacity(), 0x100);
    assert_eq!(heap.allocate(3, 1), Some(0x1001));
    assert_eq!(heap.allocate(8, 8), Some(0x1008));
    assert_eq!(heap.used(), 15);
    assert_eq!(heap.allocate(1, 64), Some(0x1040));
    heap.deallocate(0x1040, 1, 64);
    assert_eq!(heap.allocate(1, 64), Some(0x1080));
    assert_eq!(heap.used(), 0x80);
}

#[test]
fn full_heap_refuses_and_keeps_its_state() {
    let mut heap = BumpAllocator::new();
    heap.init(0x1000, 0x20);
    assert_eq!(heap.allocate(0x21, 1), None);
    assert_eq!(heap.used(), 0);
    assert_eq!(heap.allocate(0x20, 1), Some(0x1000));
    assert_eq!(heap.allocate(1, 1), None);
    assert_eq!(heap.allocate(0, 1), Some(0x1020));
    assert_eq!(heap.used(), heap.capacity());
}

#[test]
fn huge_requests_do_not_overflow() {
    let mut heap = BumpAllocator::new();
    heap.init(0x1000, 0x20);
    assert_eq!(heap.allocate(usize::MAX, 1), None);
    assert_eq!(heap.allocate(1, 1 << 63), None);
    let mut top = BumpAllocator::new();
    top.init(usize::MAX - 15, 15);
    assert_eq!(top.allocate(1, 64), None);
    assert_eq!(top.allocate(15, 1), Some(usize::MAX - 15));
}

fn region(start: u64, end: u64, kind: MemoryRegionKind) -> MemoryRegion {
    MemoryRegion { start, end, kind }
}

fn frames(regions: Vec<MemoryRegion>) -> BootInfoFrameAllocator {
    assert!(is_well_formed_map(&regions));
    BootInfoFrameAllocator::init(regions.leak())
}

#[test]
fn usable_frames_are_whole_frames_of_usable_regions() {
    let map = frames(vec![
        region(0x0, 0x1000, MemoryRegionKind::Bootloader),
        region(0x1001, 0x4fff, MemoryRegionKind::Usable),
        region(0x8000, 0x9000, MemoryRegionKind::UnknownUefi(7)),
        region(0x9800, 0x9900, MemoryRegionKind::Usable),
        region(0xa000, 0xc000, MemoryRegionKind::Usable),
        region(0xd000, 0xe000, MemoryRegionKind::UnknownBios(2)),
    ]);
    let mut frames = map.usable_frames();
    for frame in [0x2000, 0x3000, 0xa000, 0xb000] {
        assert_eq!(frames.next(), Some(frame));
    }
    assert_eq!(frames.next(), None);
    assert_eq!(frames.next(), None);
    assert_eq!(map.usable_frame_count(), 4);
    assert_eq!(map.allocated_frames(), 0);
}

#[test]
fn frames_are_given_out_once_and_in_order() {
    let mut map = frames(vec![
        region(0x1000, 0x3000, MemoryRegionKind::Usable),
        region(0x5000, 0x6000, MemoryRegionKind::Usable),
    ]);
    assert_eq!(map.allocate_frame(), Some(0x1000));
    assert_eq!(map.allocate_frame(), Some(0x2000));
    assert_eq!(map.allocate_frame(), Some(0x5000));
    assert_eq!(map.allocate_frame(), None);
    assert_eq!(map.allocate_frame(), None);
    assert_eq!(map.allocated_frames(), 5);
}

#[test]
fn frames_beyond_physical_addresses_are_refused() {
    let limit = 1u64 << 52;
    assert!(is_well_formed_map(&[region(
        limit - 0x1000,
        limit + 0xfff,
        MemoryRegionKind::Usable
    )]));
    assert!(!is_well_formed_map(&[region(
        limit - 0x1000,
        limit + 0x1000,
        MemoryRegionKind::Usable
    )]));
    assert!(!is_well_formed_map(&[region(
        u64::MAX,
        u64::MAX,
        MemoryRegionKind::Usable
    )]));
    assert!(is_well_formed_map(&[region(
        u64::MAX,
        u64::MAX,
        MemoryRegionKind::Bootloader
    )]));
    let mut map = frames(vec![region(
        limit - 0x1000,
        limit,
        MemoryRegionKind::Usable,
    )]);
    assert_eq!(map.allocate_frame(), Some(limit - 0x1000));
}

#[test]
fn heap_is_mapped_page_by_page() {
    let mut setup = HeapSetup::Begin;
    let mut map = frames(vec![region(
        0x10_0000,
        0x100_0000,
        MemoryRegionKind::Usable,
    )]);
    let mut heap = BumpAllocator::new();
    let mut mapped = Vec::new();
    loop {
        match init_heap(&mut setup, &mut map, &mut heap, Ok(())) {
            HeapAction::MapPage { page, frame, flags } => {
                assert_eq!(flags, HEAP_PAGE_FLAGS);
                mapped.push((page, frame));
            }
            action => {
                assert_eq!(action, HeapAction::Ready);
                break;
            }
        }
    }
    assert_eq!(mapped.len(), 512);
    for (number, (page, frame)) in mapped.iter().enumerate() {
        assert_eq!(*page, HEAP_START + 4096 * number as u64);
        assert_eq!(*frame, 0x10_0000 + 4096 * number as u64);
    }
    assert_eq!(heap.capacity() as u64, HEAP_SIZE);
    assert_eq!(heap.used(), 0);
    assert_eq!(heap.allocate(16, 16), Some(HEAP_START as usize));
    assert_eq!(
        init_heap(&mut setup, &mut map, &mut heap, Ok(())),
        HeapAction::Ready
    );
}

#[test]
fn heap_setup_fails_without_frames() {
    let mut setup = HeapSetup::Begin;
    let mut map = frames(vec![region(0x1000, 0x2000, MemoryRegionKind::Usable)]);
    let mut heap = BumpAllocator::new();
    assert_eq!(
        init_heap(&mut setup, &mut map, &mut heap, Ok(())),
        HeapAction::MapPage {
            page: HEAP_START,
            frame: 0x1000,
            flags: HEAP_PAGE_FLAGS
        }
    );
    assert_eq!(
        init_heap(&mut setup, &mut map, &mut heap, Ok(())),
        HeapAction::Failed(MapToError::FrameAllocationFailed)
    );
    assert_eq!(heap.capacity(), 0);
}

#[test]
fn heap_setup_passes_mapping_errors_on() {
    for error in [
        MapToError::ParentEntryHugePage,
        MapToError::PageAlreadyMapped(0x7000),
        MapToError::FrameAllocationFailed,
    ] {
        let mut setup = HeapSetup::Begin;
        let mut map = frames(vec![region(0x1000, 0x9000, MemoryRegionKind::Usable)]);
        let mut heap = BumpAllocator::new();
        let _ = init_heap(&mut setup, &mut map, &mut heap, Ok(()));
        assert_eq!(
            init_heap(&mut setup, &mut map, &mut heap, Err(error)),
            HeapAction::Failed(error)
        );
        assert_eq!(map.allocated_frames(), 1);
    }
}

#[test]
fn heap_pages_are_writable_and_not_executable() {
    let flags =
        PageTableFlags::PRESENT | PageTableFlags::WRITABLE | PageTableFlags::NO_EXECUTE;
    assert_eq!(HEAP_PAGE_FLAGS, flags.bits());
}

fn place(bus: u8, device: u8, function: u8) -> Place {
    Place {
        bus,
        device,
        function,
    }
}

/// Runs the search on a configuration space. Registers that are not listed read as all
/// ones. Gives the result and the writes.
fn search(registers: &[(Place, u8, u32)]) -> (Option<XhciController>, Vec<(u32, u32)>) {
    let mut space = HashMap::new();
    for (at, offset, value) in registers {
        space.insert(config_address(*at, *offset), *value);
    }
    let mut scan = XhciScan::new();
    let mut action = scan.action();
    let mut writes = Vec::new();
    loop {
        let reply = match action {
            ScanAction::Read { address } => *space.get(&address).unwrap_or(&0xffff_ffff),
            ScanAction::Write { address, value } => {
                writes.push((address, value));
                0
            }
            ScanAction::Done(found) => return (found, writes),
        };
        action = find_xhci_controller(&mut scan, reply);
    }
}

#[test]
fn configuration_addresses_have_their_fields() {
    assert_eq!(config_address(place(0, 0, 0), 0), 0x8000_0000);
    assert_eq!(config_address(place(1, 2, 3), 0x10), 0x8001_1310);
    assert_eq!(config_address(place(255, 31, 7), 0xff), 0x80ff_fffc);
}

#[test]
fn controller_with_long_base_is_found_and_enabled() {
    let at = place(0, 4, 0);
    let (found, writes) = search(&[
        (place(0, 0, 0), 0x00, 0x29c0_8086),
        (place(0, 0, 0), 0x08, 0x0600_0000),
        (place(0, 0, 0), 0x0c, 0x0000_0000),
        (at, 0x00, 0x000d_1b36),
        (at, 0x08, 0x0c03_3001),
        (at, 0x10, 0xfebf_0004),
        (at, 0x14, 0x0000_0008),
        (at, 0x04, 0x0010_0101),
    ]);
    assert_eq!(
        found,
        Some(XhciController {
            bus: 0,
            device: 4,
            function: 0,
            mmio_base: 0x8_febf_0000
        })
    );
    assert_eq!(writes, vec![(config_address(at, 0x04), 0x0010_0107)]);
}

#[test]
fn further_functions_are_looked_at_where_the_header_says_so() {
    let at = place(2, 31, 7);
    let registers = [
        (at, 0x00, 0x000d_1b36),
        (at, 0x08, 0x0c03_3000),
        (at, 0x10, 0xfebf_0000),
        (at, 0x04, 0x0000_0000),
        (place(2, 31, 0), 0x0c, 0x0080_0000),
    ];
    let (found, _) = search(&registers);
    assert_eq!(found.map(|c| (c.device, c.function, c.mmio_base)), Some((31, 7, 0xfebf_0000)));
    let mut single = registers;
    single[4].2 = 0;
    assert_eq!(search(&single), (None, vec![]));
}

#[test]
fn unusable_controllers_are_passed_over() {
    for base in [0xfebf_0001, 0x0000_0000, 0xfebf_0002, 0xfebf_0006] {
        let at = place(0, 1, 0);
        let next = place(0, 2, 0);
        let (found, _) = search(&[
            (at, 0x00, 0x000d_1b36),
            (at, 0x08, 0x0c03_3000),
            (at, 0x10, base),
            (at, 0x0c, 0),
            (next, 0x00, 0x000d_1b36),
            (next, 0x08, 0x0c03_3000),
            (next, 0x10, 0x1000_0000),
            (next, 0x04, 0),
        ]);
        assert_eq!(found.map(|c| c.device), Some(2));
    }
    let at = place(0, 1, 0);
    let (found, _) = search(&[
        (at, 0x00, 0x000d_1b36),
        (at, 0x08, 0x0c03_2000),
        (at, 0x10, 0x1000_0000),
    ]);
    assert_eq!(found, None);
}

#[test]
fn empty_bus_has_no_controller() {
    assert_eq!(search(&[]), (None, vec![]));
}

#[test]
fn refused_requests_stay_refused() {
    let mut heap = BumpAllocator::new();
    heap.init(0x1000, 0x40);
    assert_eq!(heap.allocate(0x50, 1), None);
    assert_eq!(heap.allocate(0x10, 1), Some(0x1000));
    assert_eq!(heap.allocate(0x50, 1), None);
    assert_eq!(heap.allocate(0x30, 1), Some(0x1010));
    assert_eq!(heap.allocate(0x50, 1), None);
}

#[test]
fn registers_have_different_addresses() {
    let mut seen = std::collections::HashSet::new();
    for bus in [0, 1, 255] {
        for device in 0..32 {
            for function in 0..8 {
                for offset in [0x00, 0x04, 0x08, 0x0c, 0x10, 0x14] {
                    assert!(seen.insert(config_address(place(bus, device, function), offset)));
                }
            }
        }
    }
}
