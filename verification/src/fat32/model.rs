//! The on-disk format: what the bytes of a FAT32 volume mean.

use vstd::prelude::*;

use crate::fat32::FsError;
use crate::storage::BlockDevice;

verus! {

/// The fixed layout of a mounted volume, in sectors and clusters.
#[derive(Clone, Copy)]
pub struct Geometry {
    pub sectors_per_cluster: u32,
    pub fat_start_sector: u32,
    pub sectors_per_fat: u32,
    pub first_data_sector: u32,
    pub root_cluster: u32,
    pub cluster_count: u32,
}

/// The smallest link value that ends a cluster chain.
pub const FAT32_EOC: u32 = 0x0fff_fff8;

/// The link value of a cluster that must not be used.
pub const FAT32_BAD_CLUSTER: u32 = 0x0fff_fff7;

/// The fewest clusters that a FAT32 volume can have.
pub const MIN_CLUSTERS: u32 = 65_525;

pub const ATTR_DIRECTORY: u8 = 0x10;

pub const ATTR_VOLUME_ID: u8 = 0x08;

pub const ATTR_LONG_FILE_NAME: u8 = 0x0f;

/// Bytes in a directory slot.
pub const SLOT_SIZE: usize = 32;

/// Directory slots in a sector.
pub const SLOTS_PER_SECTOR: usize = 16;

/// The little-endian 16-bit number at `offset`.
pub open spec fn le16(bytes: Seq<u8>, offset: int) -> int {
    bytes[offset] + 256 * bytes[offset + 1]
}

/// The little-endian 32-bit number at `offset`.
pub open spec fn le32(bytes: Seq<u8>, offset: int) -> int {
    bytes[offset] + 256 * bytes[offset + 1] + 65536 * bytes[offset + 2] + 16777216 * bytes[offset
        + 3]
}

/// One of the eight powers of two that a byte can hold.
pub open spec fn is_small_power_of_two(n: int) -> bool {
    n == 1 || n == 2 || n == 4 || n == 8 || n == 16 || n == 32 || n == 64 || n == 128
}

/// How many sectors the volume has that boot sector `s` describes.
pub open spec fn volume_sectors(s: Seq<u8>) -> int {
    if le16(s, 19) != 0 {
        le16(s, 19)
    } else {
        le32(s, 32)
    }
}

/// The volume that boot sector `s` describes on a device of `device_sectors` sectors,
/// or why the volume is refused.
pub open spec fn boot_sector_geometry(s: Seq<u8>, device_sectors: u64) -> Result<
    Geometry,
    FsError,
> {
    let sectors_per_cluster = s[13] as int;
    let reserved = le16(s, 14);
    let fat_count = s[16] as int;
    let total = volume_sectors(s);
    let sectors_per_fat = le32(s, 36);
    let root_cluster = le32(s, 44);
    let first_data = reserved + fat_count * sectors_per_fat;
    let clusters = (total - first_data) / sectors_per_cluster;
    if s[510] != 0x55 || s[511] != 0xaa {
        Err(FsError::InvalidBootSector)
    } else if {
        ||| le16(s, 11) != 512
        ||| !is_small_power_of_two(sectors_per_cluster)
        ||| reserved == 0
        ||| fat_count == 0
        ||| le16(s, 22) != 0
        ||| sectors_per_fat == 0
        ||| le16(s, 17) != 0
        ||| root_cluster < 2
    } {
        Err(FsError::UnsupportedVolume)
    } else if first_data > u32::MAX || total <= first_data || total > device_sectors {
        Err(FsError::InvalidBootSector)
    } else if clusters < MIN_CLUSTERS || root_cluster >= clusters + 2 {
        Err(FsError::UnsupportedVolume)
    } else if root_cluster >= sectors_per_fat * 128 {
        Err(FsError::InvalidBootSector)
    } else {
        Ok(
            Geometry {
                sectors_per_cluster: sectors_per_cluster as u32,
                fat_start_sector: reserved as u32,
                sectors_per_fat: sectors_per_fat as u32,
                first_data_sector: first_data as u32,
                root_cluster: root_cluster as u32,
                cluster_count: clusters as u32,
            },
        )
    }
}

impl Geometry {
    /// The bounds that every mounted volume keeps.
    pub open spec fn well_formed(self) -> bool {
        &&& is_small_power_of_two(self.sectors_per_cluster as int)
        &&& 1 <= self.fat_start_sector
        &&& 1 <= self.sectors_per_fat
        &&& self.fat_start_sector + self.sectors_per_fat <= self.first_data_sector
        &&& self.first_data_sector + self.cluster_count * self.sectors_per_cluster <= u32::MAX
        &&& MIN_CLUSTERS <= self.cluster_count
        &&& self.cluster_count + 2 <= u32::MAX
        &&& 2 <= self.root_cluster < self.cluster_count + 2
        &&& self.root_cluster < self.sectors_per_fat * 128
    }

    /// The clusters that hold data are numbered from two.
    pub open spec fn has_cluster(self, cluster: u32) -> bool {
        2 <= cluster < self.cluster_count + 2
    }

    /// Where sector `index` of a cluster lies.
    pub open spec fn data_sector(self, cluster: u32, index: int) -> int {
        self.first_data_sector + (cluster - 2) * self.sectors_per_cluster + index
    }
}

/// What the allocation table links `cluster` to.
pub open spec fn fat_link<D: BlockDevice>(device: D, geometry: Geometry, cluster: u32) -> Result<
    u32,
    FsError,
> {
    if !geometry.has_cluster(cluster) {
        Err(FsError::InvalidCluster)
    } else if cluster as int / 128 >= geometry.sectors_per_fat {
        Err(FsError::CorruptFat)
    } else {
        match device.sector((geometry.fat_start_sector + cluster as int / 128) as u32) {
            Err(error) => Err(FsError::Device(error)),
            Ok(table) => Ok(
                (le32(table@, 4 * (cluster as int % 128)) % 0x1000_0000) as u32,
            ),
        }
    }
}

/// The cluster after `cluster` in its chain: `Ok(None)` where the chain ends.
pub open spec fn successor<D: BlockDevice>(
    device: D,
    geometry: Geometry,
    cluster: u32,
) -> Result<Option<u32>, FsError> {
    match fat_link(device, geometry, cluster) {
        Err(error) => Err(error),
        Ok(next) => if next >= FAT32_EOC {
            Ok(None)
        } else if next == FAT32_BAD_CLUSTER || !geometry.has_cluster(next) {
            Err(FsError::CorruptFat)
        } else {
            Ok(Some(next))
        },
    }
}

/// The sectors that a cluster chain yields, in order, and how the chain came to its
/// end: `Ok` at the end-of-chain mark, else the error met after the last sector.
#[verifier::ext_equal]
pub struct SectorStream {
    pub sectors: Seq<Seq<u8>>,
    pub end: Result<(), FsError>,
}

/// The sectors of the chain from sector `index` of `cluster` on, where at most
/// `budget` clusters may still be entered, this one included.
pub open spec fn stream_from<D: BlockDevice>(
    device: D,
    geometry: Geometry,
    cluster: u32,
    index: int,
    budget: nat,
) -> SectorStream
    decreases budget, geometry.sectors_per_cluster - index,
{
    if budget == 0 {
        SectorStream { sectors: Seq::empty(), end: Err(FsError::DirectoryLoop) }
    } else if index < geometry.sectors_per_cluster {
        match device.sector(geometry.data_sector(cluster, index) as u32) {
            Err(error) => SectorStream {
                sectors: Seq::empty(),
                end: Err(FsError::Device(error)),
            },
            Ok(sector) => {
                let rest = stream_from(device, geometry, cluster, index + 1, budget);
                SectorStream { sectors: seq![sector@] + rest.sectors, end: rest.end }
            },
        }
    } else {
        match successor(device, geometry, cluster) {
            Err(error) => SectorStream { sectors: Seq::empty(), end: Err(error) },
            Ok(None) => SectorStream { sectors: Seq::empty(), end: Ok(()) },
            Ok(Some(next)) => stream_from(device, geometry, next, 0, (budget - 1) as nat),
        }
    }
}

/// The sectors of the chain that starts at `cluster`. A chain is given up once it has
/// entered more clusters than the volume has.
pub open spec fn chain_stream<D: BlockDevice>(
    device: D,
    geometry: Geometry,
    cluster: u32,
) -> SectorStream {
    stream_from(device, geometry, cluster, 0, (geometry.cluster_count + 1) as nat)
}

/// A directory entry: what a shell can show and follow.
#[verifier::ext_equal]
pub struct EntryModel {
    pub name: Seq<char>,
    pub attributes: u8,
    pub first_cluster: u32,
    pub size: u32,
}

impl EntryModel {
    pub open spec fn is_directory(self) -> bool {
        self.attributes & ATTR_DIRECTORY != 0
    }
}

/// How many bytes of a space-padded field come before the first space.
pub open spec fn text_len(field: Seq<u8>) -> nat
    decreases field.len(),
{
    if field.len() == 0 || field[0] == 0x20 {
        0
    } else {
        1 + text_len(field.skip(1))
    }
}

pub open spec fn all_ascii(bytes: Seq<u8>) -> bool {
    forall|i: int| 0 <= i < bytes.len() ==> bytes[i] < 128
}

pub open spec fn all_spaces(bytes: Seq<u8>) -> bool {
    forall|i: int| 0 <= i < bytes.len() ==> bytes[i] == 0x20
}

/// ASCII bytes as text.
pub open spec fn ascii_text(bytes: Seq<u8>) -> Seq<char> {
    Seq::new(bytes.len(), |i: int| bytes[i] as char)
}

/// The bytes of the name in an 8.3 slot: the stem, and where the extension field is not
/// blank, a dot and the extension.
pub open spec fn slot_name(slot: Seq<u8>) -> Seq<u8> {
    let stem = slot.subrange(0, 8);
    let extension = slot.subrange(8, 11);
    if all_spaces(extension) {
        stem.take(text_len(stem) as int)
    } else {
        stem.take(text_len(stem) as int) + seq![0x2eu8] + extension.take(
            text_len(extension) as int,
        )
    }
}

/// The entry in an 8.3 slot. There is none where the stem is empty or where the name
/// holds a byte beyond ASCII.
pub open spec fn slot_entry(slot: Seq<u8>) -> Option<EntryModel> {
    if text_len(slot.subrange(0, 8)) == 0 || !all_ascii(slot_name(slot)) {
        None
    } else {
        Some(
            EntryModel {
                name: ascii_text(slot_name(slot)),
                attributes: slot[11],
                first_cluster: (65536 * le16(slot, 20) + le16(slot, 26)) as u32,
                size: le32(slot, 28) as u32,
            },
        )
    }
}

/// Slots that are never shown: deleted files, the two dot entries, parts of long names
/// and volume labels.
pub open spec fn slot_hidden(slot: Seq<u8>) -> bool {
    ||| slot[0] == 0xe5
    ||| slot[0] == 0x2e
    ||| slot[11] == ATTR_LONG_FILE_NAME
    ||| slot[11] & ATTR_VOLUME_ID != 0
}

/// A directory ends at a slot whose first byte is zero.
pub open spec fn slot_ends(slot: Seq<u8>) -> bool {
    slot[0] == 0
}

/// The entry that a slot shows, if it shows one.
pub open spec fn shown_entry(slot: Seq<u8>) -> Option<EntryModel> {
    if slot_hidden(slot) {
        None
    } else {
        slot_entry(slot)
    }
}

/// Slot `k` of a directory that fills `sectors`.
pub open spec fn slot_at(sectors: Seq<Seq<u8>>, k: int) -> Seq<u8> {
    sectors[k / 16].subrange(32 * (k % 16), 32 * (k % 16) + 32)
}

/// The entries shown by the first `k` slots.
pub open spec fn entries_before(sectors: Seq<Seq<u8>>, k: int) -> Seq<EntryModel>
    decreases k,
{
    if k <= 0 {
        Seq::empty()
    } else {
        match shown_entry(slot_at(sectors, k - 1)) {
            Some(entry) => entries_before(sectors, k - 1).push(entry),
            None => entries_before(sectors, k - 1),
        }
    }
}

/// The first slot from `k` on that ends the directory, or the number of slots.
pub open spec fn end_slot(sectors: Seq<Seq<u8>>, k: int) -> int
    decreases 16 * sectors.len() - k,
{
    if k >= 16 * sectors.len() || slot_ends(slot_at(sectors, k)) {
        k
    } else {
        end_slot(sectors, k + 1)
    }
}

/// The entries of a directory, in order, and how reading them came to an end.
#[verifier::ext_equal]
pub struct Listing {
    pub entries: Seq<EntryModel>,
    pub end: Result<(), FsError>,
}

/// The directory that starts at `cluster`.
pub open spec fn directory<D: BlockDevice>(
    device: D,
    geometry: Geometry,
    cluster: u32,
) -> Listing {
    if !geometry.has_cluster(cluster) {
        Listing { entries: Seq::empty(), end: Err(FsError::InvalidCluster) }
    } else {
        let stream = chain_stream(device, geometry, cluster);
        let stop = end_slot(stream.sectors, 0);
        Listing {
            entries: entries_before(stream.sectors, stop),
            end: if stop < 16 * stream.sectors.len() {
                Ok(())
            } else {
                stream.end
            },
        }
    }
}

/// A character without the case of an ASCII letter.
pub open spec fn fold_case(c: char) -> int {
    if 'A' <= c <= 'Z' {
        c as int + 32
    } else {
        c as int
    }
}

/// Names are compared without the case of ASCII letters.
pub open spec fn same_name(a: Seq<char>, b: Seq<char>) -> bool {
    a.len() == b.len() && forall|i: int| 0 <= i < a.len() ==> fold_case(a[i]) == fold_case(b[i])
}

/// The first entry from `from` on with the given name: its place, or the number of
/// entries where there is none.
pub open spec fn name_position(entries: Seq<EntryModel>, name: Seq<char>, from: int) -> int
    decreases entries.len() - from,
{
    if from >= entries.len() || same_name(entries[from].name, name) {
        from
    } else {
        name_position(entries, name, from + 1)
    }
}

/// The entry with the given name in a directory. An error in the directory matters
/// only where the name does not come before it.
pub open spec fn lookup(listing: Listing, name: Seq<char>) -> Result<EntryModel, FsError> {
    let position = name_position(listing.entries, name, 0);
    if position < listing.entries.len() {
        Ok(listing.entries[position])
    } else {
        match listing.end {
            Ok(_) => Err(FsError::NotFound),
            Err(error) => Err(error),
        }
    }
}

/// The parts of a path between its slashes, without the empty ones.
pub open spec fn components(path: Seq<char>) -> Seq<Seq<char>>
    decreases path.len(),
{
    if path.len() == 0 {
        Seq::empty()
    } else if path[0] == '/' {
        components(path.skip(1))
    } else {
        let n = segment_len(path);
        seq![path.take(n as int)] + if n < path.len() {
            components(path.skip(n as int))
        } else {
            Seq::empty()
        }
    }
}

/// How many characters come before the first slash.
pub open spec fn segment_len(path: Seq<char>) -> nat
    decreases path.len(),
{
    if path.len() == 0 || path[0] == '/' {
        0
    } else {
        1 + segment_len(path.skip(1))
    }
}

/// The two names that mean a directory relative to another. They are never followed.
pub open spec fn is_dot_name(name: Seq<char>) -> bool {
    name =~= seq!['.'] || name =~= seq!['.', '.']
}

/// Follows a path, part by part, from the directory at `cluster`.
pub open spec fn resolve<D: BlockDevice>(
    device: D,
    geometry: Geometry,
    cluster: u32,
    parts: Seq<Seq<char>>,
) -> Result<EntryModel, FsError>
    decreases parts.len(),
{
    if parts.len() == 0 || is_dot_name(parts[0]) {
        Err(FsError::NotFound)
    } else {
        match lookup(directory(device, geometry, cluster), parts[0]) {
            Err(error) => Err(error),
            Ok(entry) => if parts.len() == 1 {
                Ok(entry)
            } else if !entry.is_directory() {
                Err(FsError::NotDirectory)
            } else {
                resolve(device, geometry, entry.first_cluster, parts.skip(1))
            },
        }
    }
}

/// The directory that a path names: the root where the path has no parts.
pub open spec fn listing_at<D: BlockDevice>(
    device: D,
    geometry: Geometry,
    path: Seq<char>,
) -> Listing {
    if components(path).len() == 0 {
        directory(device, geometry, geometry.root_cluster)
    } else {
        match resolve(device, geometry, geometry.root_cluster, components(path)) {
            Err(error) => Listing { entries: Seq::empty(), end: Err(error) },
            Ok(entry) => if !entry.is_directory() {
                Listing { entries: Seq::empty(), end: Err(FsError::NotDirectory) }
            } else {
                directory(device, geometry, entry.first_cluster)
            },
        }
    }
}

/// The contents of a file as they are handed out, sector by sector, and how reading
/// them ended: `Ok` with the size of the file, or an error after some of them.
#[verifier::ext_equal]
pub struct FileModel {
    pub chunks: Seq<Seq<u8>>,
    pub end: Result<usize, FsError>,
}

/// How many sectors `size` bytes take.
pub open spec fn sectors_for(size: int) -> int {
    (size + 511) / 512
}

/// The first `size` bytes of `sectors`, cut at sector boundaries.
pub open spec fn file_chunks(sectors: Seq<Seq<u8>>, size: int) -> Seq<Seq<u8>> {
    Seq::new(
        sectors_for(size) as nat,
        |i: int|
            if size - 512 * i < 512 {
                sectors[i].take(size - 512 * i)
            } else {
                sectors[i]
            },
    )
}

/// The contents of the file with the given entry.
pub open spec fn file_of<D: BlockDevice>(
    device: D,
    geometry: Geometry,
    entry: EntryModel,
) -> FileModel {
    if entry.is_directory() {
        FileModel { chunks: Seq::empty(), end: Err(FsError::IsDirectory) }
    } else if entry.size == 0 {
        FileModel { chunks: Seq::empty(), end: Ok(0) }
    } else if !geometry.has_cluster(entry.first_cluster) {
        FileModel { chunks: Seq::empty(), end: Err(FsError::InvalidCluster) }
    } else {
        let stream = chain_stream(device, geometry, entry.first_cluster);
        if sectors_for(entry.size as int) <= stream.sectors.len() {
            FileModel {
                chunks: file_chunks(stream.sectors, entry.size as int),
                end: Ok(entry.size as usize),
            }
        } else {
            FileModel {
                chunks: stream.sectors,
                end: match stream.end {
                    Ok(_) => Err(FsError::TruncatedFile),
                    Err(error) => Err(error),
                },
            }
        }
    }
}

/// The file that a path names.
pub open spec fn file_at<D: BlockDevice>(
    device: D,
    geometry: Geometry,
    path: Seq<char>,
) -> FileModel {
    match resolve(device, geometry, geometry.root_cluster, components(path)) {
        Err(error) => FileModel { chunks: Seq::empty(), end: Err(error) },
        Ok(entry) => file_of(device, geometry, entry),
    }
}

} // verus!
