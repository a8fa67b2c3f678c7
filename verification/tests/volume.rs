use std::collections::HashMap;

use sol_os::fat32::{next_part, ChunkVisitor, DirEntry, EntryVisitor, Fat32, FsError};
use sol_os::storage::{
    ramdisk_extent, BlockDevice, RamDiskBlockDevice, StorageError, SECTOR_SIZE,
};

const RESERVED: u32 = 32;
const FAT_SECTORS: u32 = 600;
const CLUSTERS: u32 = 70_000;
const FIRST_DATA: u32 = RESERVED + FAT_SECTORS;
const END: u32 = 0x0fff_ffff;

/// A device that holds only the sectors that are not zero. Sectors in `bad` cannot be
/// read.
struct SparseDisk {
    sectors: HashMap<u32, [u8; SECTOR_SIZE]>,
    count: u64,
    bad: Vec<u32>,
}

impl BlockDevice for SparseDisk {
    fn sector_count(&self) -> u64 {
        self.count
    }

    fn read_sector(&self, lba: u32, output: &mut [u8; SECTOR_SIZE]) -> Result<(), StorageError> {
        if u64::from(lba) >= self.count || self.bad.contains(&lba) {
            return Err(StorageError::SectorOutOfRange);
        }
        *output = *self.sectors.get(&lba).unwrap_or(&[0; SECTOR_SIZE]);
        Ok(())
    }
}

impl SparseDisk {
    fn sector_mut(&mut self, lba: u32) -> &mut [u8; SECTOR_SIZE] {
        self.sectors.entry(lba).or_insert([0; SECTOR_SIZE])
    }

    fn link(&mut self, cluster: u32, next: u32) {
        let at = 4 * (cluster % 128) as usize;
        self.sector_mut(RESERVED + cluster / 128)[at..at + 4].copy_from_slice(&next.to_le_bytes());
    }

    fn cluster(&mut self, cluster: u32) -> &mut [u8; SECTOR_SIZE] {
        self.sector_mut(FIRST_DATA + cluster - 2)
    }

    fn slot(&mut self, cluster: u32, index: usize, raw: [u8; 32]) {
        self.cluster(cluster)[32 * index..32 * index + 32].copy_from_slice(&raw);
    }
}

fn slot(name: &[u8; 11], attributes: u8, cluster: u32, size: u32) -> [u8; 32] {
    let mut raw = [0; 32];
    raw[..11].copy_from_slice(name);
    raw[11] = attributes;
    raw[20..22].copy_from_slice(&((cluster >> 16) as u16).to_le_bytes());
    raw[26..28].copy_from_slice(&(cluster as u16).to_le_bytes());
    raw[28..32].copy_from_slice(&size.to_le_bytes());
    raw
}

fn boot_sector() -> [u8; SECTOR_SIZE] {
    let mut sector = [0; SECTOR_SIZE];
    sector[11..13].copy_from_slice(&512u16.to_le_bytes());
    sector[13] = 1;
    sector[14..16].copy_from_slice(&(RESERVED as u16).to_le_bytes());
    sector[16] = 1;
    sector[32..36].copy_from_slice(&(FIRST_DATA + CLUSTERS).to_le_bytes());
    sector[36..40].copy_from_slice(&FAT_SECTORS.to_le_bytes());
    sector[44..48].copy_from_slice(&2u32.to_le_bytes());
    sector[510] = 0x55;
    sector[511] = 0xaa;
    sector
}

/// A volume with a few files:
/// `HELLO.TXT`, `EMPTY.TXT`, `BIG.BIN` over three clusters, `SHORT.BIN` whose chain is too
/// short, `LOOP.BIN` whose chain loops, `DOCS/ABOUT.TXT`, and entries that are not shown.
fn disk() -> SparseDisk {
    let mut disk = SparseDisk {
        sectors: HashMap::new(),
        count: u64::from(FIRST_DATA + CLUSTERS),
        bad: Vec::new(),
    };
    *disk.sector_mut(0) = boot_sector();
    disk.link(2, 3);
    disk.link(3, END);
    disk.slot(2, 0, slot(b"SOL_DATA   ", 0x08, 0, 0));
    disk.slot(2, 1, slot(b"DOCS       ", 0x10, 10, 0));
    disk.slot(2, 2, slot(b"HELLO   TXT", 0x20, 20, 12));
    disk.slot(2, 3, slot(b"\xe5ONE    TXT", 0x20, 20, 12));
    disk.slot(2, 4, slot(b"AB         ", 0x0f, 0, 0));
    disk.slot(2, 5, slot(b"EMPTY   TXT", 0x20, 0, 0));
    disk.slot(2, 6, slot(b"BIG     BIN", 0x20, 70_001, 1200));
    disk.slot(2, 7, slot(b"SHORT   BIN", 0x20, 40, 1200));
    disk.slot(2, 8, slot(b"LOOP    BIN", 0x20, 50, 0xffff_ffff));
    disk.slot(2, 9, slot(b"LOST    BIN", 0x20, 1, 5));
    disk.slot(2, 10, slot(b"BAD\x80    BIN", 0x20, 20, 5));
    disk.slot(2, 11, slot(b"BROKEN  BIN", 0x20, 60, 600));
    disk.slot(2, 12, slot(b"GONE    BIN", 0x20, 61, 600));
    disk.slot(2, 13, slot(b"A B     C D", 0x20, 20, 1));
    disk.slot(2, 14, slot(b"           ", 0x20, 20, 1));
    disk.slot(2, 15, slot(b"LAST       ", 0x20, 20, 5));
    disk.slot(3, 0, slot(b"NEXT       ", 0x20, 20, 5));
    disk.link(10, END);
    disk.slot(10, 0, slot(b".          ", 0x10, 10, 0));
    disk.slot(10, 1, slot(b"..         ", 0x10, 0, 0));
    disk.slot(10, 2, slot(b"ABOUT   TXT", 0x20, 21, 5));
    disk.link(20, END);
    disk.cluster(20)[..12].copy_from_slice(b"Hello, Sol!\n");
    disk.link(21, END);
    disk.cluster(21)[..5].copy_from_slice(b"about");
    disk.link(70_001, 30);
    disk.link(30, 31);
    disk.link(31, END);
    disk.cluster(70_001).fill(1);
    disk.cluster(30).fill(2);
    disk.cluster(31).fill(3);
    disk.link(40, END);
    disk.link(50, 51);
    disk.link(51, 50);
    disk.link(60, 0x0fff_fff7);
    disk.link(61, 62);
    disk.link(62, END);
    disk
}

struct Entries {
    seen: Vec<DirEntry>,
    limit: usize,
}

impl EntryVisitor for Entries {
    type State = ();

    fn visit_entry(&mut self, entry: DirEntry) -> bool {
        self.seen.push(entry);
        self.seen.len() < self.limit
    }
}

struct Pieces {
    seen: Vec<Vec<u8>>,
}

impl ChunkVisitor for Pieces {
    type State = ();

    fn visit_chunk(&mut self, bytes: &[u8]) {
        self.seen.push(bytes.to_vec());
    }
}

fn names(disk: &SparseDisk, path: &str) -> (Vec<String>, Result<(), FsError>) {
    let volume = Fat32::mount(disk).ok().unwrap();
    let mut entries = Entries {
        seen: Vec::new(),
        limit: usize::MAX,
    };
    let result = volume.list_dir(path, &mut entries);
    let names = entries.seen.iter().map(|entry| entry.name().to_string()).collect();
    (names, result)
}

fn read(disk: &SparseDisk, path: &str) -> (Vec<Vec<u8>>, Result<usize, FsError>) {
    let volume = Fat32::mount(disk).ok().unwrap();
    let mut pieces = Pieces { seen: Vec::new() };
    let result = volume.read_file(path, &mut pieces);
    (pieces.seen, result)
}

fn mount_error(change: impl Fn(&mut [u8; SECTOR_SIZE])) -> Option<FsError> {
    let mut disk = disk();
    change(disk.sector_mut(0));
    let outcome = Fat32::mount(&disk).err();
    outcome
}

#[test]
fn ramdisk_must_be_there_and_whole() {
    assert_eq!(
        ramdisk_extent(None, 512),
        Err(StorageError::MissingRamdisk)
    );
    assert_eq!(
        ramdisk_extent(Some(0x1000), 0),
        Err(StorageError::InvalidRamdisk)
    );
    assert_eq!(
        ramdisk_extent(Some(0x1000), 513),
        Err(StorageError::InvalidRamdisk)
    );
    assert_eq!(ramdisk_extent(Some(0x1000), 1024), Ok((0x1000, 1024)));
    assert!(matches!(
        RamDiskBlockDevice::from_boot_info(&[]),
        Err(StorageError::InvalidRamdisk)
    ));
    assert!(matches!(
        RamDiskBlockDevice::from_boot_info(&[0; 100]),
        Err(StorageError::InvalidRamdisk)
    ));
}

#[test]
fn ramdisk_serves_its_sectors() {
    let mut bytes = vec![7u8; 1024];
    bytes[512..].fill(9);
    let disk = RamDiskBlockDevice::from_boot_info(bytes.leak()).ok().unwrap();
    assert_eq!(disk.sector_count(), 2);
    let mut sector = [0; SECTOR_SIZE];
    assert_eq!(disk.read_sector(0, &mut sector), Ok(()));
    assert_eq!(sector, [7; SECTOR_SIZE]);
    assert_eq!(disk.read_sector(1, &mut sector), Ok(()));
    assert_eq!(sector, [9; SECTOR_SIZE]);
    assert_eq!(
        disk.read_sector(2, &mut sector),
        Err(StorageError::SectorOutOfRange)
    );
    assert_eq!(
        disk.read_sector(u32::MAX, &mut sector),
        Err(StorageError::SectorOutOfRange)
    );
    assert_eq!(sector, [9; SECTOR_SIZE]);
}

#[test]
fn sound_volume_mounts() {
    let disk = disk();
    let volume = Fat32::mount(&disk).ok().unwrap();
    assert_eq!(volume.root_cluster(), 2);
}

#[test]
fn unreadable_boot_sector_is_reported() {
    let mut disk = disk();
    disk.bad.push(0);
    assert!(matches!(
        Fat32::mount(&disk),
        Err(FsError::Device(StorageError::SectorOutOfRange))
    ));
}

#[test]
fn boot_sector_without_signature_is_refused() {
    assert_eq!(mount_error(|s| s[510] = 0), Some(FsError::InvalidBootSector));
    assert_eq!(mount_error(|s| s[511] = 0), Some(FsError::InvalidBootSector));
}

#[test]
fn other_layouts_are_not_supported() {
    let unsupported = Some(FsError::UnsupportedVolume);
    assert_eq!(mount_error(|s| s[12] = 4), unsupported);
    assert_eq!(mount_error(|s| s[13] = 0), unsupported);
    assert_eq!(mount_error(|s| s[13] = 3), unsupported);
    assert_eq!(mount_error(|s| s[14] = 0), unsupported);
    assert_eq!(mount_error(|s| s[16] = 0), unsupported);
    assert_eq!(mount_error(|s| s[17] = 1), unsupported);
    assert_eq!(mount_error(|s| s[22] = 1), unsupported);
    assert_eq!(mount_error(|s| s[36..40].fill(0)), unsupported);
    assert_eq!(mount_error(|s| s[44] = 1), unsupported);
    assert_eq!(mount_error(|s| s[13] = 2), unsupported);
    assert_eq!(
        mount_error(|s| s[44..48].copy_from_slice(&(CLUSTERS + 2).to_le_bytes())),
        unsupported
    );
}

#[test]
fn volume_larger_than_the_device_is_refused() {
    let mut disk = disk();
    disk.count -= 1;
    assert!(matches!(
        Fat32::mount(&disk),
        Err(FsError::InvalidBootSector)
    ));
}

#[test]
fn table_too_small_for_the_root_is_refused() {
    let small = mount_error(|s| {
        s[36..40].copy_from_slice(&1u32.to_le_bytes());
        s[44..48].copy_from_slice(&128u32.to_le_bytes());
    });
    assert_eq!(small, Some(FsError::InvalidBootSector));
}

#[test]
fn root_lists_what_is_shown() {
    let (names, result) = names(&disk(), "/");
    assert_eq!(result, Ok(()));
    assert_eq!(
        names,
        vec![
            "DOCS",
            "HELLO.TXT",
            "EMPTY.TXT",
            "BIG.BIN",
            "SHORT.BIN",
            "LOOP.BIN",
            "LOST.BIN",
            "BROKEN.BIN",
            "GONE.BIN",
            "A.C",
            "LAST",
            "NEXT",
        ]
    );
}

#[test]
fn entries_tell_kind_and_size() {
    let disk = disk();
    let volume = Fat32::mount(&disk).ok().unwrap();
    let mut entries = Entries {
        seen: Vec::new(),
        limit: 2,
    };
    assert_eq!(volume.list_dir("", &mut entries), Ok(()));
    assert_eq!(entries.seen.len(), 2);
    assert!(entries.seen[0].is_directory());
    assert_eq!(entries.seen[0].size(), 0);
    assert!(!entries.seen[1].is_directory());
    assert_eq!(entries.seen[1].size(), 12);
}

#[test]
fn visitor_that_stops_hides_later_errors() {
    let mut disk = disk();
    disk.bad.push(FIRST_DATA + 1);
    let volume = Fat32::mount(&disk).ok().unwrap();
    let mut few = Entries {
        seen: Vec::new(),
        limit: 3,
    };
    assert_eq!(volume.list_dir("/", &mut few), Ok(()));
    assert_eq!(few.seen.len(), 3);
    let mut all = Entries {
        seen: Vec::new(),
        limit: usize::MAX,
    };
    assert_eq!(
        volume.list_dir("/", &mut all),
        Err(FsError::Device(StorageError::SectorOutOfRange))
    );
    assert_eq!(all.seen.len(), 11);
}

#[test]
fn nested_directories_list() {
    let disk = disk();
    for path in ["DOCS", "/docs/", "//Docs//"] {
        let (names, result) = names(&disk, path);
        assert_eq!(result, Ok(()));
        assert_eq!(names, vec!["ABOUT.TXT"]);
    }
}

#[test]
fn listing_errors_are_told_apart() {
    let disk = disk();
    assert_eq!(names(&disk, "HELLO.TXT").1, Err(FsError::NotDirectory));
    assert_eq!(names(&disk, "MISSING").1, Err(FsError::NotFound));
    assert_eq!(names(&disk, "HELLO.TXT/X").1, Err(FsError::NotDirectory));
    assert_eq!(names(&disk, "DOCS/..").1, Err(FsError::NotFound));
    assert_eq!(names(&disk, ".").1, Err(FsError::NotFound));
}

#[test]
fn files_are_read_whatever_the_case() {
    let disk = disk();
    let expected = vec![b"Hello, Sol!\n".to_vec()];
    assert_eq!(read(&disk, "HELLO.TXT"), (expected.clone(), Ok(12)));
    assert_eq!(read(&disk, "hello.txt"), (expected, Ok(12)));
    assert_eq!(
        read(&disk, "docs/about.txt"),
        (vec![b"about".to_vec()], Ok(5))
    );
    assert_eq!(read(&disk, "EMPTY.TXT"), (vec![], Ok(0)));
}

#[test]
fn long_file_follows_its_chain() {
    let (pieces, result) = read(&disk(), "BIG.BIN");
    assert_eq!(result, Ok(1200));
    assert_eq!(pieces, vec![vec![1; 512], vec![2; 512], vec![3; 176]]);
}

#[test]
fn reading_errors_are_told_apart() {
    let disk = disk();
    assert_eq!(read(&disk, "DOCS").1, Err(FsError::IsDirectory));
    assert_eq!(read(&disk, "/").1, Err(FsError::NotFound));
    assert_eq!(read(&disk, "LOST.BIN").1, Err(FsError::InvalidCluster));
    let (pieces, result) = read(&disk, "SHORT.BIN");
    assert_eq!(result, Err(FsError::TruncatedFile));
    assert_eq!(pieces.len(), 1);
    let (pieces, result) = read(&disk, "BROKEN.BIN");
    assert_eq!(result, Err(FsError::CorruptFat));
    assert_eq!(pieces.len(), 1);
}

#[test]
fn device_errors_come_through() {
    let mut disk = disk();
    disk.bad.push(FIRST_DATA + 62 - 2);
    let (pieces, result) = read(&disk, "GONE.BIN");
    assert_eq!(
        result,
        Err(FsError::Device(StorageError::SectorOutOfRange))
    );
    assert_eq!(pieces.len(), 1);
}

struct Count {
    pieces: usize,
}

impl ChunkVisitor for Count {
    type State = ();

    fn visit_chunk(&mut self, _bytes: &[u8]) {
        self.pieces += 1;
    }
}

#[test]
fn looping_chain_is_given_up() {
    let disk = disk();
    let volume = Fat32::mount(&disk).ok().unwrap();
    let mut count = Count { pieces: 0 };
    assert_eq!(
        volume.read_file("LOOP.BIN", &mut count),
        Err(FsError::DirectoryLoop)
    );
    assert_eq!(count.pieces, CLUSTERS as usize + 1);
}

#[test]
fn looping_directory_is_given_up() {
    let mut disk = disk();
    for index in 0..16 {
        disk.slot(3, index, slot(b"FILE    BIN", 0x20, 20, 1));
    }
    disk.link(3, 3);
    assert_eq!(names(&disk, "/").1, Err(FsError::DirectoryLoop));
    assert_eq!(read(&disk, "HELLO.TXT").1, Ok(12));
}

fn snapshot() -> RamDiskBlockDevice {
    let disk = disk();
    let mut bytes = vec![0u8; disk.count as usize * SECTOR_SIZE];
    for (lba, sector) in &disk.sectors {
        let at = *lba as usize * SECTOR_SIZE;
        bytes[at..at + SECTOR_SIZE].copy_from_slice(sector);
    }
    RamDiskBlockDevice::from_boot_info(bytes.leak()).ok().unwrap()
}

#[test]
fn volume_in_memory_reads() {
    let snapshot = snapshot();
    let volume = Fat32::mount(&snapshot).ok().unwrap();
    let mut pieces = Pieces { seen: Vec::new() };
    assert_eq!(volume.read_file("/DOCS/ABOUT.TXT", &mut pieces), Ok(5));
    assert_eq!(pieces.seen, vec![b"about".to_vec()]);
}

#[test]
fn listed_entries_are_found() {
    let disk = disk();
    let (names, _) = names(&disk, "/");
    for name in names {
        assert_ne!(read(&disk, &name).1, Err(FsError::NotFound));
    }
}

#[test]
fn listed_files_are_read_by_their_paths() {
    let disk = disk();
    let volume = Fat32::mount(&disk).ok().unwrap();
    for (directory, name) in [("", "HELLO.TXT"), ("", "BIG.BIN"), ("/DOCS", "ABOUT.TXT")] {
        let mut entries = Entries {
            seen: Vec::new(),
            limit: usize::MAX,
        };
        let _ = volume.list_dir(directory, &mut entries);
        let entry = entries.seen.iter().find(|entry| entry.name() == name).unwrap();
        assert!(entry.is_named(&name.to_lowercase()));
        assert!(!entry.is_named("OTHER"));
        let (pieces, size) = read(&disk, &format!("{directory}/{name}"));
        assert_eq!(size, Ok(entry.size() as usize));
        assert_eq!(pieces.concat().len(), entry.size() as usize);
    }
}

#[test]
fn volume_in_memory_gives_no_device_error() {
    let snapshot = snapshot();
    let volume = Fat32::mount(&snapshot).ok().unwrap();
    let mut entries = Entries {
        seen: Vec::new(),
        limit: usize::MAX,
    };
    assert_eq!(volume.list_dir("/", &mut entries), Ok(()));
    for entry in entries.seen.iter().filter(|entry| entry.name() != "LOOP.BIN") {
        let mut pieces = Pieces { seen: Vec::new() };
        let result = volume.read_file(entry.name(), &mut pieces);
        assert!(!matches!(result, Err(FsError::Device(_))));
    }
}

#[test]
fn clusters_have_places_of_their_own() {
    let disk = disk();
    let volume = Fat32::mount(&disk).ok().unwrap();
    assert_eq!(volume.cluster_to_sector(2, 0), Ok(FIRST_DATA));
    assert_eq!(volume.cluster_to_sector(3, 0), Ok(FIRST_DATA + 1));
    assert_eq!(
        volume.cluster_to_sector(CLUSTERS + 1, 0),
        Ok(FIRST_DATA + CLUSTERS - 1)
    );
    for cluster in [0, 1, CLUSTERS + 2] {
        assert_eq!(volume.cluster_to_sector(cluster, 0), Err(FsError::InvalidCluster));
    }
    assert_eq!(volume.cluster_to_sector(2, 1), Err(FsError::InvalidCluster));
}

#[test]
fn paths_are_cut_at_slashes() {
    let mut rest = "//DOCS///a b/é.";
    let mut parts = Vec::new();
    while let Some((part, more)) = next_part(rest) {
        parts.push(part);
        rest = more;
    }
    assert_eq!(parts, vec!["DOCS", "a b", "é."]);
    assert!(next_part("").is_none());
    assert!(next_part("///").is_none());
}
