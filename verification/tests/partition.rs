use sol_os::handoff::{
    chunk_block, disk_size, is_sol_data_partition_entry, load_sol_data_partition,
    load_sol_data_partition_from_disk, snapshot_length, BlockMedia, BootMode, FirmwareReply,
    LoadAction, PartitionEntry,
};

const BASIC_DATA: [u8; 16] = [
    0xa2, 0xa0, 0xd0, 0xeb, 0xe5, 0xb9, 0x33, 0x44, 0x87, 0xc0, 0x68, 0xb6, 0xb7, 0x26, 0x99, 0xc7,
];

fn entry(partition_type: [u8; 16], name: &str) -> PartitionEntry {
    let mut units = [0u16; 36];
    for (unit, character) in units.iter_mut().zip(name.encode_utf16()) {
        *unit = character;
    }
    PartitionEntry {
        partition_type,
        name: units,
    }
}

const MEDIA: BlockMedia = BlockMedia {
    present: true,
    logical_partition: true,
    block_size: 512,
    last_block: 131_071,
    io_align: 4096,
};

#[test]
fn data_partition_is_known_by_type_and_name() {
    assert!(is_sol_data_partition_entry(&entry(BASIC_DATA, "sol-data")));
    assert!(!is_sol_data_partition_entry(&entry(BASIC_DATA, "sol-dat")));
    assert!(!is_sol_data_partition_entry(&entry(BASIC_DATA, "sol-data2")));
    assert!(!is_sol_data_partition_entry(&entry(BASIC_DATA, "SOL-DATA")));
    assert!(!is_sol_data_partition_entry(&entry([0; 16], "sol-data")));
}

struct Firmware {
    entries: Vec<Option<PartitionEntry>>,
    media: Option<BlockMedia>,
    allocates: bool,
    broken_block: Option<u64>,
}

fn firmware(entries: Vec<Option<PartitionEntry>>) -> Firmware {
    Firmware {
        entries,
        media: Some(MEDIA),
        allocates: true,
        broken_block: None,
    }
}

/// Runs the hand-off. Gives the partition that was read and where its pieces went, if it
/// was loaded.
fn load(firmware: &Firmware, boot_mode: BootMode) -> Option<(usize, Vec<(u64, u64)>)> {
    let mut load = load_sol_data_partition(boot_mode, firmware.entries.len());
    let mut action = load.action();
    let mut opened = None;
    let mut pieces = Vec::new();
    loop {
        let reply = match action {
            LoadAction::ReadEntry { partition } => {
                FirmwareReply::Entry(firmware.entries[partition])
            }
            LoadAction::OpenBlocks { partition } => {
                opened = Some(partition);
                FirmwareReply::Media(firmware.media)
            }
            LoadAction::AllocatePages { bytes } => {
                assert_eq!(bytes, 64 * 1024 * 1024);
                FirmwareReply::Allocated(firmware.allocates)
            }
            LoadAction::ReadBlocks {
                partition,
                block,
                offset,
                bytes,
            } => {
                assert_eq!(Some(partition), opened);
                assert_eq!(bytes, 64 * 1024);
                pieces.push((block, offset));
                FirmwareReply::Read(firmware.broken_block != Some(block))
            }
            LoadAction::Loaded { bytes } => {
                assert_eq!(bytes, 64 * 1024 * 1024);
                return Some((opened.unwrap(), pieces));
            }
            LoadAction::NotLoaded => return None,
        };
        action = load_sol_data_partition_from_disk(&mut load, reply);
    }
}

#[test]
fn first_data_partition_is_taken() {
    let boot = entry([7; 16], "sol-boot");
    let data = entry(BASIC_DATA, "sol-data");
    let sound = firmware(vec![None, Some(boot), Some(data), Some(data)]);
    assert_eq!(load(&sound, BootMode::Disk).unwrap().0, 2);
    assert_eq!(load(&sound, BootMode::Tftp), None);
    assert_eq!(load(&firmware(vec![Some(boot), None]), BootMode::Disk), None);
    assert_eq!(load(&firmware(vec![]), BootMode::Disk), None);
}

#[test]
fn partition_is_loaded_whole() {
    let data = entry(BASIC_DATA, "sol-data");
    let (_, pieces) = load(&firmware(vec![Some(data)]), BootMode::Disk).unwrap();
    assert_eq!(pieces.len(), 1024);
    for (index, piece) in pieces.iter().enumerate() {
        assert_eq!(*piece, (128 * index as u64, 65_536 * index as u64));
    }
}

#[test]
fn partition_is_loaded_whole_or_not_at_all() {
    let data = entry(BASIC_DATA, "sol-data");
    let sound = || firmware(vec![Some(data), Some(data)]);
    let broken = [
        Firmware { media: None, ..sound() },
        Firmware {
            media: Some(BlockMedia { present: false, ..MEDIA }),
            ..sound()
        },
        Firmware { allocates: false, ..sound() },
        Firmware { broken_block: Some(0), ..sound() },
        Firmware { broken_block: Some(130_944), ..sound() },
    ];
    for firmware in broken {
        assert_eq!(load(&firmware, BootMode::Disk), None);
    }
}

#[test]
fn stray_replies_end_the_hand_off() {
    let mut load = load_sol_data_partition(BootMode::Disk, 3);
    assert_eq!(load.action(), LoadAction::ReadEntry { partition: 0 });
    assert_eq!(
        load_sol_data_partition_from_disk(&mut load, FirmwareReply::Read(true)),
        LoadAction::NotLoaded
    );
    assert_eq!(
        load_sol_data_partition_from_disk(&mut load, FirmwareReply::Entry(None)),
        LoadAction::NotLoaded
    );
}

#[test]
fn only_the_expected_geometry_is_read() {
    assert_eq!(snapshot_length(MEDIA), Some(64 * 1024 * 1024));
    let wrong = [
        BlockMedia { present: false, ..MEDIA },
        BlockMedia { logical_partition: false, ..MEDIA },
        BlockMedia { block_size: 4096, last_block: 16_383, ..MEDIA },
        BlockMedia { io_align: 8192, ..MEDIA },
        BlockMedia { last_block: 131_070, ..MEDIA },
        BlockMedia { last_block: u64::MAX, ..MEDIA },
        BlockMedia { last_block: u64::MAX - 1, ..MEDIA },
    ];
    for media in wrong {
        assert_eq!(snapshot_length(media), None);
    }
}

#[test]
fn pieces_follow_each_other() {
    assert_eq!(chunk_block(0), 0);
    assert_eq!(chunk_block(1), 128);
    assert_eq!(chunk_block(1023), 130_944);
}

#[test]
fn image_has_room_for_both_partitions() {
    const MIB: u64 = 1024 * 1024;
    assert_eq!(disk_size(4 * MIB), Some(71 * MIB));
    assert_eq!(disk_size(3 * MIB + 1), Some(71 * MIB));
    assert_eq!(disk_size(4 * MIB + 1), Some(72 * MIB));
    assert_eq!(disk_size(0), Some(67 * MIB));
    assert_eq!(disk_size(u64::MAX), None);
    let largest = u64::MAX - (MIB - 1) - 67 * MIB;
    assert_eq!(disk_size(largest), Some(u64::MAX - (MIB - 1)));
    assert_eq!(disk_size(largest + 1), None);
    // The data partition of a four-mebibyte boot partition.
    assert_eq!((MIB + 4 * MIB) / 512, 10_240);
}
