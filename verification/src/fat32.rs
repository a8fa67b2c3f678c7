//! A compact, read-only FAT32 reader for the data volume.
//!
//! It supports the subset that the shell needs: 512-byte sectors, FAT32 cluster chains,
//! 8.3 entries, nested directories, and streamed files. Long names and writing are left
//! out rather than silently mishandled.

pub mod bytes;
pub mod laws;
pub mod model;

use vstd::prelude::*;

use crate::fat32::model::{
    EntryModel, Geometry, ATTR_DIRECTORY, ATTR_LONG_FILE_NAME, ATTR_VOLUME_ID, FAT32_BAD_CLUSTER,
    FAT32_EOC, MIN_CLUSTERS, SLOTS_PER_SECTOR, SLOT_SIZE,
};
use crate::storage::{BlockDevice, StorageError, SECTOR_SIZE};

verus! {

/// Why the filesystem could not serve a request.
#[derive(Debug, Clone, Copy, PartialEq, Eq, Structural)]
pub enum FsError {
    Device(StorageError),
    InvalidBootSector,
    UnsupportedVolume,
    InvalidCluster,
    CorruptFat,
    DirectoryLoop,
    NotFound,
    NotDirectory,
    IsDirectory,
    TruncatedFile,
}

impl From<StorageError> for FsError {
    fn from(error: StorageError) -> (converted: Self) {
        FsError::Device(error)
    }
}

impl vstd::std_specs::convert::FromSpecImpl<StorageError> for FsError {
    open spec fn obeys_from_spec() -> bool {
        true
    }

    open spec fn from_spec(error: StorageError) -> Self {
        FsError::Device(error)
    }
}

/// The little-endian 16-bit number at `offset`.
fn le_u16(bytes: &[u8], offset: usize) -> (number: u16)
    requires
        offset + 2 <= bytes@.len(),
    ensures
        number == model::le16(bytes@, offset as int),
{
    bytes[offset] as u16 + 256 * (bytes[offset + 1] as u16)
}

/// The little-endian 32-bit number at `offset`.
fn le_u32(bytes: &[u8], offset: usize) -> (number: u32)
    requires
        offset + 4 <= bytes@.len(),
    ensures
        number == model::le32(bytes@, offset as int),
{
    bytes[offset] as u32 + 256 * (bytes[offset + 1] as u32) + 65536 * (bytes[offset + 2] as u32)
        + 16777216 * (bytes[offset + 3] as u32)
}

/// Reads the layout of a volume out of its boot sector.
pub fn parse_boot_sector(sector: &[u8; SECTOR_SIZE], device_sectors: u64) -> (geometry: Result<
    Geometry,
    FsError,
>)
    ensures
        geometry == model::boot_sector_geometry(sector@, device_sectors),
        geometry matches Ok(layout) ==> layout.well_formed() && layout.first_data_sector
            + layout.cluster_count * layout.sectors_per_cluster <= device_sectors,
{
    if sector[510] != 0x55 || sector[511] != 0xaa {
        return Err(FsError::InvalidBootSector);
    }
    let bytes_per_sector: u16 = le_u16(sector, 11);
    let sectors_per_cluster: u32 = sector[13] as u32;
    let reserved_sectors: u32 = le_u16(sector, 14) as u32;
    let fat_count: u32 = sector[16] as u32;
    let root_entry_count: u16 = le_u16(sector, 17);
    let total_sectors_16: u32 = le_u16(sector, 19) as u32;
    let fat_size_16: u32 = le_u16(sector, 22) as u32;
    let total_sectors_32: u32 = le_u32(sector, 32);
    let sectors_per_fat: u32 = le_u32(sector, 36);
    let root_cluster: u32 = le_u32(sector, 44);

    let power_of_two: bool = match sectors_per_cluster {
        1 | 2 | 4 | 8 | 16 | 32 | 64 | 128 => true,
        _ => false,
    };
    if bytes_per_sector != 512 || !power_of_two || reserved_sectors == 0 || fat_count == 0
        || fat_size_16 != 0 || sectors_per_fat == 0 || root_entry_count != 0 || root_cluster < 2 {
        return Err(FsError::UnsupportedVolume);
    }
    let total_sectors: u32 = if total_sectors_16 != 0 {
        total_sectors_16
    } else {
        total_sectors_32
    };
    let fat_sectors: u32 = match fat_count.checked_mul(sectors_per_fat) {
        Some(sectors) => sectors,
        None => return Err(FsError::InvalidBootSector),
    };
    let first_data_sector: u32 = match reserved_sectors.checked_add(fat_sectors) {
        Some(sector) => sector,
        None => return Err(FsError::InvalidBootSector),
    };
    if total_sectors <= first_data_sector || total_sectors as u64 > device_sectors {
        return Err(FsError::InvalidBootSector);
    }
    let data_sectors: u32 = total_sectors - first_data_sector;
    let cluster_count: u32 = data_sectors / sectors_per_cluster;
    proof {
        let d = data_sectors as int;
        let n = sectors_per_cluster as int;
        let c = cluster_count as int;
        assert(c == d / n);
        assert(c * n <= d && c <= d) by (nonlinear_arith)
            requires
                c == d / n,
                n >= 1,
                d >= 0,
        ;
        assert(fat_sectors >= sectors_per_fat) by (nonlinear_arith)
            requires
                fat_sectors == fat_count * sectors_per_fat,
                fat_count >= 1,
        ;
    }
    if cluster_count < MIN_CLUSTERS || root_cluster >= cluster_count + 2 {
        return Err(FsError::UnsupportedVolume);
    }
    let fat_entries: u64 = (sectors_per_fat as u64 * 512) / 4;
    if root_cluster as u64 >= fat_entries {
        return Err(FsError::InvalidBootSector);
    }
    Ok(
        Geometry {
            sectors_per_cluster,
            fat_start_sector: reserved_sectors,
            sectors_per_fat,
            first_data_sector,
            root_cluster,
            cluster_count,
        },
    )
}

/// The text of a space-padded field ends at `n`, if none of the first `n` bytes is a
/// space and the field ends there or a space follows.
proof fn lemma_text_len(field: Seq<u8>, n: int)
    requires
        0 <= n <= field.len(),
        forall|i: int| 0 <= i < n ==> field[i] != 0x20,
        n == field.len() || field[n] == 0x20,
    ensures
        model::text_len(field) == n,
    decreases n,
{
    if n > 0 {
        lemma_text_len(field.skip(1), n - 1);
    }
}

/// A directory entry.
#[derive(Clone, Copy)]
pub struct DirEntry {
    name: [u8; 12],
    name_len: u8,
    attributes: u8,
    first_cluster: u32,
    size: u32,
}

impl View for DirEntry {
    type V = EntryModel;

    closed spec fn view(&self) -> EntryModel {
        EntryModel {
            name: model::ascii_text(self.name@.take(self.name_len as int)),
            attributes: self.attributes,
            first_cluster: self.first_cluster,
            size: self.size,
        }
    }
}

impl DirEntry {
    #[verifier::type_invariant]
    spec fn well_formed(self) -> bool {
        &&& self.name_len <= 12
        &&& model::all_ascii(self.name@.take(self.name_len as int))
    }

    /// The name of the entry, as a stem with an optional dot and extension.
    pub fn name(&self) -> (name: &str)
        ensures
            name@ == self@.name,
    {
        proof {
            use_type_invariant(self);
        }
        let bytes: &[u8] = vstd::slice::slice_subrange(&self.name, 0, self.name_len as usize);
        proof {
            assert(bytes@ =~= self.name@.take(self.name_len as int));
            crate::text::law_ascii_is_utf8(bytes@);
        }
        crate::text::text_from_utf8(bytes).unwrap()
    }

    pub fn is_directory(&self) -> (directory: bool)
        ensures
            directory == self@.is_directory(),
    {
        self.attributes & ATTR_DIRECTORY != 0
    }

    pub fn size(&self) -> (size: u32)
        ensures
            size == self@.size,
    {
        self.size
    }

    /// The cluster at which the contents of the entry start.
    pub fn first_cluster(&self) -> (cluster: u32)
        ensures
            cluster == self@.first_cluster,
    {
        self.first_cluster
    }

    /// Reads an 8.3 slot. There is no entry in a slot without a stem or with a name
    /// beyond ASCII.
    pub fn from_raw(raw: &[u8]) -> (entry: Option<Self>)
        requires
            raw@.len() == SLOT_SIZE,
        ensures
            match entry {
                Some(found) => model::slot_entry(raw@) == Some(found@),
                None => model::slot_entry(raw@) is None,
            },
    {
        let ghost stem = raw@.subrange(0, 8);
        let ghost extension = raw@.subrange(8, 11);
        let mut name: [u8; 12] = [0; 12];
        let mut name_len: usize = 0;
        while name_len < 8 && raw[name_len] != 0x20
            invariant
                raw@.len() == SLOT_SIZE,
                name_len <= 8,
                stem == raw@.subrange(0, 8),
                forall|i: int| 0 <= i < name_len ==> name@[i] == stem[i] && stem[i] != 0x20,
                forall|i: int| 0 <= i < name_len ==> name@[i] < 128,
            decreases 8 - name_len,
        {
            let byte: u8 = raw[name_len];
            assert(stem[name_len as int] == byte);
            if byte >= 128 {
                proof {
                    Self::lemma_stem_not_ascii(raw@, name_len as int);
                }
                return None;
            }
            name[name_len] = byte;
            name_len += 1;
        }
        let ghost stem_len = name_len as int;
        proof {
            assert(name_len < 8 ==> stem[name_len as int] == raw@[name_len as int]);
            lemma_text_len(stem, stem_len);
        }
        if name_len == 0 {
            return None;
        }
        assert(name@.take(stem_len) =~= stem.take(stem_len));
        if raw[8] != 0x20 || raw[9] != 0x20 || raw[10] != 0x20 {
            assert(extension[0] == raw@[8] && extension[1] == raw@[9] && extension[2] == raw@[10]);
            assert(!model::all_spaces(extension));
            name[name_len] = 0x2e;
            name_len += 1;
            let mut count: usize = 0;
            while count < 3 && raw[8 + count] != 0x20
                invariant
                    raw@.len() == SLOT_SIZE,
                    count <= 3,
                    0 < stem_len <= 8,
                    name_len == stem_len + 1 + count,
                    stem == raw@.subrange(0, 8),
                    extension == raw@.subrange(8, 11),
                    model::text_len(stem) == stem_len,
                    !model::all_spaces(extension),
                    name@.take(stem_len) == stem.take(stem_len),
                    name@[stem_len] == 0x2e,
                    forall|i: int|
                        0 <= i < count ==> name@[stem_len + 1 + i] == extension[i] && extension[i]
                            != 0x20,
                    forall|i: int| 0 <= i < name_len ==> name@[i] < 128,
                decreases 3 - count,
            {
                let byte: u8 = raw[8 + count];
                assert(extension[count as int] == byte);
                if byte >= 128 {
                    proof {
                        Self::lemma_extension_not_ascii(raw@, stem_len, count as int);
                    }
                    return None;
                }
                let ghost before = name@;
                name[name_len] = byte;
                name_len += 1;
                count += 1;
                assert(name@.take(stem_len) =~= before.take(stem_len));
            }
            proof {
                assert(count < 3 ==> extension[count as int] == raw@[8 + count]);
                lemma_text_len(extension, count as int);
                assert(name@.take(name_len as int) =~= model::slot_name(raw@)) by {
                    assert forall|i: int| 0 <= i < stem_len implies name@[i] == stem[i] by {
                        assert(name@.take(stem_len)[i] == stem.take(stem_len)[i]);
                    }
                }
            }
        } else {
            assert(model::all_spaces(extension));
            assert(name@.take(name_len as int) =~= model::slot_name(raw@));
        }
        let high: u32 = le_u16(raw, 20) as u32;
        let low: u32 = le_u16(raw, 26) as u32;
        Some(
            DirEntry {
                name,
                name_len: name_len as u8,
                attributes: raw[11],
                first_cluster: 65536 * high + low,
                size: le_u32(raw, 28),
            },
        )
    }

    /// A byte beyond ASCII before the first space of the stem makes the name invalid.
    proof fn lemma_stem_not_ascii(raw: Seq<u8>, at: int)
        requires
            raw.len() == SLOT_SIZE,
            0 <= at < 8,
            raw[at] >= 128,
            forall|i: int| 0 <= i < at ==> raw.subrange(0, 8)[i] != 0x20,
        ensures
            model::slot_entry(raw) is None,
    {
        let stem = raw.subrange(0, 8);
        lemma_text_len_at_least(stem, at + 1);
        assert(model::slot_name(raw)[at] == raw[at]);
    }

    /// A byte beyond ASCII before the first space of the extension does so too.
    proof fn lemma_extension_not_ascii(raw: Seq<u8>, stem_len: int, at: int)
        requires
            raw.len() == SLOT_SIZE,
            model::text_len(raw.subrange(0, 8)) == stem_len,
            0 <= stem_len <= 8,
            !model::all_spaces(raw.subrange(8, 11)),
            0 <= at < 3,
            raw[8 + at] >= 128,
            forall|i: int| 0 <= i < at ==> raw.subrange(8, 11)[i] != 0x20,
        ensures
            model::slot_entry(raw) is None,
    {
        let extension = raw.subrange(8, 11);
        lemma_text_len_at_least(extension, at + 1);
        assert(model::slot_name(raw)[stem_len + 1 + at] == raw[8 + at]);
    }
}

/// No text is longer than its field, and it goes at least up to where no space came.
proof fn lemma_text_len_at_least(field: Seq<u8>, n: int)
    requires
        0 <= n <= field.len(),
        forall|i: int| 0 <= i < n ==> field[i] != 0x20,
    ensures
        n <= model::text_len(field) <= field.len(),
    decreases field.len(),
{
    if field.len() > 0 && field[0] != 0x20 {
        lemma_text_len_at_least(
            field.skip(1),
            if n > 0 {
                n - 1
            } else {
                0
            },
        );
    }
}

/// A mounted volume on a block device.
pub struct Fat32<'a, D: BlockDevice> {
    device: &'a D,
    geometry: Geometry,
}

/// A place in a cluster chain: a sector of a cluster, and how many clusters may still
/// be entered, this one included.
struct ChainCursor {
    cluster: u32,
    index: u32,
    budget: u64,
}

impl ChainCursor {
    /// The sectors from here to the end of the chain.
    spec fn stream<D: BlockDevice>(self, device: D, geometry: Geometry) -> model::SectorStream {
        model::stream_from(device, geometry, self.cluster, self.index as int, self.budget as nat)
    }

    spec fn well_formed(self, geometry: Geometry) -> bool {
        geometry.has_cluster(self.cluster) && self.index <= geometry.sectors_per_cluster
    }
}

impl<'a, D: BlockDevice> Fat32<'a, D> {
    #[verifier::type_invariant]
    spec fn well_formed(self) -> bool {
        self.geometry.well_formed()
    }

    /// The device that the volume lies on.
    pub closed spec fn device(&self) -> D {
        *self.device
    }

    /// The layout of the volume.
    pub closed spec fn geometry(&self) -> Geometry {
        self.geometry
    }

    /// Mounts the volume on a device. The boot sector decides.
    pub fn mount(device: &'a D) -> (volume: Result<Self, FsError>)
        ensures
            match device.sector(0) {
                Err(error) => volume matches Err(reason) && reason == FsError::Device(error),
                Ok(sector) => match model::boot_sector_geometry(sector@, device.total_sectors()) {
                    Err(error) => volume matches Err(reason) && reason == error,
                    Ok(layout) => volume matches Ok(mounted) && mounted.geometry() == layout
                        && mounted.device() == *device,
                },
            },
    {
        let mut sector: [u8; SECTOR_SIZE] = [0; SECTOR_SIZE];
        match device.read_sector(0, &mut sector) {
            Ok(_) => {},
            Err(error) => return Err(FsError::from(error)),
        }
        match parse_boot_sector(&sector, device.sector_count()) {
            Ok(geometry) => Ok(Fat32 { device, geometry }),
            Err(error) => Err(error),
        }
    }

    pub fn root_cluster(&self) -> (cluster: u32)
        ensures
            cluster == self.geometry().root_cluster,
    {
        self.geometry.root_cluster
    }

    fn is_valid_cluster(&self, cluster: u32) -> (valid: bool)
        ensures
            valid == self.geometry().has_cluster(cluster),
    {
        proof {
            use_type_invariant(self);
        }
        cluster >= 2 && cluster < self.geometry.cluster_count + 2
    }

    /// Where sector `sector_index` of a cluster lies. On a mounted volume every sector
    /// of every cluster has a place.
    pub fn cluster_to_sector(&self, cluster: u32, sector_index: u32) -> (lba: Result<u32, FsError>)
        ensures
            lba == if self.geometry().has_cluster(cluster) && sector_index
                < self.geometry().sectors_per_cluster {
                Ok::<u32, FsError>(self.geometry().data_sector(cluster, sector_index as int) as u32)
            } else {
                Err(FsError::InvalidCluster)
            },
    {
        proof {
            use_type_invariant(self);
        }
        if !self.is_valid_cluster(cluster) || sector_index >= self.geometry.sectors_per_cluster {
            return Err(FsError::InvalidCluster);
        }
        proof {
            lemma_data_sector_bounds(self.geometry, cluster, sector_index as int);
        }
        Ok(
            self.geometry.first_data_sector + (cluster - 2) * self.geometry.sectors_per_cluster
                + sector_index,
        )
    }

    /// Reads the link of a cluster out of the allocation table.
    fn next_cluster(&self, cluster: u32) -> (link: Result<u32, FsError>)
        ensures
            link == model::fat_link(self.device(), self.geometry(), cluster),
    {
        proof {
            use_type_invariant(self);
        }
        if !self.is_valid_cluster(cluster) {
            return Err(FsError::InvalidCluster);
        }
        let fat_offset: u64 = cluster as u64 * 4;
        let sector_offset: u64 = fat_offset / 512;
        if sector_offset >= self.geometry.sectors_per_fat as u64 {
            return Err(FsError::CorruptFat);
        }
        let entry_offset: usize = (fat_offset % 512) as usize;
        let lba: u32 = self.geometry.fat_start_sector + sector_offset as u32;
        let mut sector: [u8; SECTOR_SIZE] = [0; SECTOR_SIZE];
        match self.device.read_sector(lba, &mut sector) {
            Ok(_) => {},
            Err(error) => return Err(FsError::from(error)),
        }
        let raw: u32 = le_u32(&sector, entry_offset);
        assert(raw & 0x0fff_ffff == raw % 0x1000_0000) by (bit_vector);
        Ok(raw & 0x0fff_ffff)
    }

    /// Accepts a link that leads to a cluster which holds data.
    fn checked_next_cluster(&self, cluster: u32) -> (checked: Result<u32, FsError>)
        ensures
            checked == if cluster == FAT32_BAD_CLUSTER || !self.geometry().has_cluster(cluster) {
                Err::<u32, FsError>(FsError::CorruptFat)
            } else {
                Ok(cluster)
            },
    {
        if cluster == FAT32_BAD_CLUSTER || !self.is_valid_cluster(cluster) {
            Err(FsError::CorruptFat)
        } else {
            Ok(cluster)
        }
    }

    /// Starts at the first sector of a chain.
    fn open_chain(&self, cluster: u32) -> (cursor: ChainCursor)
        requires
            self.geometry().has_cluster(cluster),
        ensures
            cursor.well_formed(self.geometry()),
            cursor.stream(self.device(), self.geometry()) == model::chain_stream(
                self.device(),
                self.geometry(),
                cluster,
            ),
    {
        ChainCursor { cluster, index: 0, budget: self.geometry.cluster_count as u64 + 1 }
    }

    /// Reads the next sector of a chain: `Ok(false)` where the chain has ended.
    fn next_sector(&self, cursor: &mut ChainCursor, sector: &mut [u8; SECTOR_SIZE]) -> (result:
        Result<bool, FsError>)
        requires
            old(cursor).well_formed(self.geometry()),
        ensures
            ({
                let before = old(cursor).stream(self.device(), self.geometry());
                let after = final(cursor).stream(self.device(), self.geometry());
                match result {
                    Ok(true) => {
                        &&& final(cursor).well_formed(self.geometry())
                        &&& before.sectors == seq![final(sector)@] + after.sectors
                        &&& before.end == after.end
                        &&& decreases_to!(old(cursor).budget, self.geometry().sectors_per_cluster
                            - old(cursor).index => final(cursor).budget,
                            self.geometry().sectors_per_cluster - final(cursor).index)
                    },
                    Ok(false) => before.sectors.len() == 0 && before.end == Ok::<(), FsError>(()),
                    Err(error) => before.sectors.len() == 0 && before.end == Err::<(), FsError>(
                        error,
                    ),
                }
            }),
    {
        proof {
            use_type_invariant(self);
        }
        if cursor.budget == 0 {
            return Err(FsError::DirectoryLoop);
        }
        if cursor.index >= self.geometry.sectors_per_cluster {
            let link: u32 = match self.next_cluster(cursor.cluster) {
                Ok(link) => link,
                Err(error) => return Err(error),
            };
            if link >= FAT32_EOC {
                return Ok(false);
            }
            cursor.cluster = match self.checked_next_cluster(link) {
                Ok(next) => next,
                Err(error) => return Err(error),
            };
            cursor.index = 0;
            cursor.budget = cursor.budget - 1;
            if cursor.budget == 0 {
                return Err(FsError::DirectoryLoop);
            }
        }
        assert(cursor.stream(self.device(), self.geometry()) == old(cursor).stream(
            self.device(),
            self.geometry(),
        ));
        let lba: u32 = match self.cluster_to_sector(cursor.cluster, cursor.index) {
            Ok(lba) => lba,
            Err(error) => return Err(error),
        };
        match self.device.read_sector(lba, sector) {
            Ok(_) => {},
            Err(error) => return Err(FsError::from(error)),
        }
        cursor.index = cursor.index + 1;
        Ok(true)
    }
}

/// Every sector of every cluster of a well-formed volume has a place that fits.
proof fn lemma_data_sector_bounds(geometry: Geometry, cluster: u32, index: int)
    requires
        geometry.well_formed(),
        geometry.has_cluster(cluster),
        0 <= index < geometry.sectors_per_cluster,
    ensures
        0 <= (cluster - 2) * geometry.sectors_per_cluster,
        geometry.first_data_sector <= geometry.data_sector(cluster, index)
            < geometry.first_data_sector + geometry.cluster_count * geometry.sectors_per_cluster,
{
    let c = cluster - 2;
    let n = geometry.sectors_per_cluster as int;
    let count = geometry.cluster_count as int;
    assert(0 <= c * n && c * n + n <= count * n) by (nonlinear_arith)
        requires
            0 <= c < count,
            n >= 1,
    ;
}

/// Takes the entries of a directory, one by one.
///
/// A visitor is modelled by a state: what it knows, what an entry makes of that, and
/// whether it wants to see more. Of a visitor that does not say so, nothing is known.
pub trait EntryVisitor: Sized {
    type State;

    /// What the visitor knows.
    closed spec fn state(&self) -> Self::State {
        arbitrary()
    }

    /// What it knows after an entry.
    closed spec fn after(state: Self::State, entry: EntryModel) -> Self::State {
        arbitrary()
    }

    /// Whether it goes on after an entry.
    closed spec fn goes_on(state: Self::State, entry: EntryModel) -> bool {
        arbitrary()
    }

    /// Takes one entry and says whether to go on.
    fn visit_entry(&mut self, entry: DirEntry) -> (more: bool)
        ensures
            final(self).state() == Self::after(old(self).state(), entry@),
            more == Self::goes_on(old(self).state(), entry@),
    ;
}

/// How far a visit came: what the visitor knows, and whether it has stopped.
pub struct Visit<S> {
    pub state: S,
    pub stopped: bool,
}

/// What a visitor makes of a list of entries.
pub open spec fn visit_of<V: EntryVisitor>(state: V::State, entries: Seq<EntryModel>) -> Visit<
    V::State,
>
    decreases entries.len(),
{
    if entries.len() == 0 {
        Visit { state, stopped: false }
    } else {
        let earlier = visit_of::<V>(state, entries.drop_last());
        if earlier.stopped {
            earlier
        } else {
            Visit {
                state: V::after(earlier.state, entries.last()),
                stopped: !V::goes_on(earlier.state, entries.last()),
            }
        }
    }
}

/// Takes the contents of a file, piece by piece. A visitor is modelled by a state: what it
/// knows, and what a piece makes of that.
pub trait ChunkVisitor: Sized {
    type State;

    /// What the visitor knows.
    closed spec fn state(&self) -> Self::State {
        arbitrary()
    }

    /// What it knows after a piece.
    closed spec fn after(state: Self::State, bytes: Seq<u8>) -> Self::State {
        arbitrary()
    }

    /// Takes one piece.
    fn visit_chunk(&mut self, bytes: &[u8])
        ensures
            final(self).state() == Self::after(old(self).state(), bytes@),
    ;
}

/// What a visitor makes of the pieces of a file.
pub open spec fn chunks_seen<V: ChunkVisitor>(state: V::State, chunks: Seq<Seq<u8>>) -> V::State
    decreases chunks.len(),
{
    if chunks.len() == 0 {
        state
    } else {
        V::after(chunks_seen::<V>(state, chunks.drop_last()), chunks.last())
    }
}

/// A visitor that has stopped sees nothing more.
proof fn lemma_visit_stopped<V: EntryVisitor>(
    state: V::State,
    entries: Seq<EntryModel>,
    count: int,
)
    requires
        0 <= count <= entries.len(),
        visit_of::<V>(state, entries.take(count)).stopped,
    ensures
        visit_of::<V>(state, entries) == visit_of::<V>(state, entries.take(count)),
    decreases entries.len(),
{
    if count == entries.len() {
        assert(entries.take(count) =~= entries);
    } else {
        assert(entries.drop_last().take(count) =~= entries.take(count));
        lemma_visit_stopped::<V>(state, entries.drop_last(), count);
    }
}

/// Earlier slots show the same entries, whatever comes after them.
proof fn lemma_entries_prefix(sectors: Seq<Seq<u8>>, k: int, m: int)
    requires
        0 <= k <= m,
    ensures
        model::entries_before(sectors, k).len() <= model::entries_before(sectors, m).len(),
        model::entries_before(sectors, k) == model::entries_before(sectors, m).take(
            model::entries_before(sectors, k).len() as int,
        ),
    decreases m,
{
    if k < m {
        lemma_entries_prefix(sectors, k, m - 1);
        let shorter = model::entries_before(sectors, k);
        let longer = model::entries_before(sectors, m);
        let middle = model::entries_before(sectors, m - 1);
        assert(middle.take(shorter.len() as int) =~= longer.take(shorter.len() as int));
    } else {
        let all = model::entries_before(sectors, k);
        assert(all.take(all.len() as int) =~= all);
    }
}

/// The directory ends at `k`, or later, if no earlier slot ends it.
proof fn lemma_end_slot(sectors: Seq<Seq<u8>>, from: int, k: int)
    requires
        0 <= from <= k <= 16 * sectors.len(),
        forall|i: int| from <= i < k ==> !model::slot_ends(model::slot_at(sectors, i)),
    ensures
        k <= model::end_slot(sectors, from) <= 16 * sectors.len(),
        k == 16 * sectors.len() || model::slot_ends(model::slot_at(sectors, k))
            ==> model::end_slot(sectors, from) == k,
    decreases 16 * sectors.len() - from,
{
    if from < k {
        lemma_end_slot(sectors, from + 1, k);
    } else if from < 16 * sectors.len() && !model::slot_ends(model::slot_at(sectors, from)) {
        lemma_end_slot(sectors, from + 1, from + 1);
    }
}

/// The first entry with a name stands at `k`, or later, if no earlier entry has it.
proof fn lemma_name_position(entries: Seq<EntryModel>, name: Seq<char>, from: int, k: int)
    requires
        0 <= from <= k <= entries.len(),
        forall|i: int| from <= i < k ==> !model::same_name(entries[i].name, name),
    ensures
        k <= model::name_position(entries, name, from) <= entries.len(),
        k == entries.len() || model::same_name(entries[k].name, name) ==> model::name_position(
            entries,
            name,
            from,
        ) == k,
    decreases entries.len() - from,
{
    if from < k {
        lemma_name_position(entries, name, from + 1, k);
    } else if from < entries.len() && !model::same_name(entries[from].name, name) {
        lemma_name_position(entries, name, from + 1, from + 1);
    }
}

/// Compares a name with what a path asks for, without the case of ASCII letters.
fn names_match(name: &[u8], wanted: &str) -> (same: bool)
    ensures
        same == model::same_name(model::ascii_text(name@), wanted@),
{
    if name.len() != wanted.unicode_len() {
        return false;
    }
    let mut index: usize = 0;
    while index < name.len()
        invariant
            index <= name@.len(),
            name@.len() == wanted@.len(),
            forall|i: int|
                0 <= i < index ==> model::fold_case(model::ascii_text(name@)[i])
                    == model::fold_case(wanted@[i]),
        decreases name@.len() - index,
    {
        if folded(name[index] as char) != folded(wanted.get_char(index)) {
            assert(model::fold_case(model::ascii_text(name@)[index as int]) != model::fold_case(
                wanted@[index as int],
            ));
            return false;
        }
        index += 1;
    }
    true
}

fn folded(c: char) -> (code: u32)
    ensures
        code == model::fold_case(c),
{
    if 'A' <= c && c <= 'Z' {
        c as u32 + 32
    } else {
        c as u32
    }
}

impl DirEntry {
    /// Whether the entry has the given name.
    pub fn is_named(&self, wanted: &str) -> (same: bool)
        ensures
            same == model::same_name(self@.name, wanted@),
    {
        proof {
            use_type_invariant(self);
        }
        let name: &[u8] = vstd::slice::slice_subrange(&self.name, 0, self.name_len as usize);
        assert(name@ =~= self.name@.take(self.name_len as int));
        names_match(name, wanted)
    }
}

impl<'a, D: BlockDevice> Fat32<'a, D> {
    /// Visits the entries of a directory in order, up to the end of the directory or
    /// until the visitor stops.
    fn visit_directory<V: EntryVisitor>(&self, start_cluster: u32, visitor: &mut V) -> (result:
        Result<(), FsError>)
        ensures
            ({
                let listing = model::directory(self.device(), self.geometry(), start_cluster);
                let visit = visit_of::<V>(old(visitor).state(), listing.entries);
                &&& final(visitor).state() == visit.state
                &&& match result {
                    Ok(_) => visit.stopped || listing.end is Ok,
                    Err(error) => !visit.stopped && listing.end == Err::<(), FsError>(error),
                }
            }),
    {
        let ghost listing = model::directory(self.device(), self.geometry(), start_cluster);
        let ghost start = visitor.state();
        if !self.is_valid_cluster(start_cluster) {
            return Err(FsError::InvalidCluster);
        }
        let mut cursor: ChainCursor = self.open_chain(start_cluster);
        let mut sector: [u8; SECTOR_SIZE] = [0; SECTOR_SIZE];
        let ghost stream = model::chain_stream(self.device(), self.geometry(), start_cluster);
        let ghost mut read: int = 0;
        loop
            invariant
                cursor.well_formed(self.geometry()),
                0 <= read <= stream.sectors.len(),
                start == old(visitor).state(),
                self.geometry().has_cluster(start_cluster),
                stream == model::chain_stream(self.device(), self.geometry(), start_cluster),
                listing == model::directory(self.device(), self.geometry(), start_cluster),
                cursor.stream(self.device(), self.geometry()).sectors == stream.sectors.skip(read),
                cursor.stream(self.device(), self.geometry()).end == stream.end,
                forall|i: int|
                    0 <= i < 16 * read ==> !model::slot_ends(model::slot_at(stream.sectors, i)),
                visit_of::<V>(start, model::entries_before(stream.sectors, 16 * read)) == (Visit {
                    state: visitor.state(),
                    stopped: false,
                }),
            decreases cursor.budget, self.geometry().sectors_per_cluster - cursor.index,
        {
            let ghost remaining = cursor.stream(self.device(), self.geometry());
            match self.next_sector(&mut cursor, &mut sector) {
                Ok(true) => {},
                Ok(false) => {
                    proof {
                        assert(read == stream.sectors.len());
                        self.lemma_visit_done(start_cluster, 16 * read);
                    }
                    return Ok(());
                },
                Err(error) => {
                    proof {
                        assert(read == stream.sectors.len());
                        self.lemma_visit_done(start_cluster, 16 * read);
                    }
                    return Err(error);
                },
            }
            proof {
                assert(remaining.sectors[0] == stream.sectors[read]);
                assert(remaining.sectors.skip(1) =~= stream.sectors.skip(read + 1));
                assert(remaining.sectors.skip(1) =~= cursor.stream(
                    self.device(),
                    self.geometry(),
                ).sectors);
                assert(sector@ == stream.sectors[read]);
            }
            let mut slot_index: usize = 0;
            while slot_index < SLOTS_PER_SECTOR
                invariant
                    slot_index <= 16,
                    0 <= read < stream.sectors.len(),
                    start == old(visitor).state(),
                    sector@ == stream.sectors[read],
                    self.geometry().has_cluster(start_cluster),
                    stream == model::chain_stream(self.device(), self.geometry(), start_cluster),
                    listing == model::directory(self.device(), self.geometry(), start_cluster),
                    forall|i: int|
                        0 <= i < 16 * read + slot_index ==> !model::slot_ends(
                            model::slot_at(stream.sectors, i),
                        ),
                    visit_of::<V>(
                        start,
                        model::entries_before(stream.sectors, 16 * read + slot_index),
                    ) == (Visit { state: visitor.state(), stopped: false }),
                decreases 16 - slot_index,
            {
                let ghost k = 16 * read + slot_index;
                let begin: usize = SLOT_SIZE * slot_index;
                let raw: &[u8] = vstd::slice::slice_subrange(&sector, begin, begin + SLOT_SIZE);
                assert(raw@ =~= model::slot_at(stream.sectors, k));
                if raw[0] == 0x00 {
                    proof {
                        self.lemma_visit_done(start_cluster, k);
                    }
                    return Ok(());
                }
                let attributes: u8 = raw[11];
                slot_index += 1;
                if !(raw[0] == 0xe5 || raw[0] == 0x2e || attributes == ATTR_LONG_FILE_NAME
                    || attributes & ATTR_VOLUME_ID != 0) {
                    if let Some(entry) = DirEntry::from_raw(raw) {
                        assert(model::entries_before(stream.sectors, k + 1).drop_last()
                            =~= model::entries_before(stream.sectors, k));
                        if !visitor.visit_entry(entry) {
                            proof {
                                self.lemma_visit_cut::<V>(start_cluster, start, k + 1);
                            }
                            return Ok(());
                        }
                    }
                }
            }
            proof {
                read = read + 1;
            }
        }
    }

    /// Slots up to the one that ends the directory show the whole directory.
    proof fn lemma_visit_done(&self, start_cluster: u32, k: int)
        requires
            self.geometry().has_cluster(start_cluster),
            ({
                let sectors = model::chain_stream(
                    self.device(),
                    self.geometry(),
                    start_cluster,
                ).sectors;
                &&& 0 <= k <= 16 * sectors.len()
                &&& forall|i: int|
                    0 <= i < k ==> !model::slot_ends(model::slot_at(sectors, i))
                &&& k == 16 * sectors.len() || model::slot_ends(model::slot_at(sectors, k))
            }),
        ensures
            ({
                let stream = model::chain_stream(self.device(), self.geometry(), start_cluster);
                let listing = model::directory(self.device(), self.geometry(), start_cluster);
                &&& listing.entries == model::entries_before(stream.sectors, k)
                &&& listing.end == if k < 16 * stream.sectors.len() {
                    Ok(())
                } else {
                    stream.end
                }
            }),
    {
        let stream = model::chain_stream(self.device(), self.geometry(), start_cluster);
        lemma_end_slot(stream.sectors, 0, k);
    }

    /// A visitor that stops within the first `k` slots has come as far as it ever does.
    proof fn lemma_visit_cut<V: EntryVisitor>(&self, start_cluster: u32, state: V::State, k: int)
        requires
            self.geometry().has_cluster(start_cluster),
            ({
                let sectors = model::chain_stream(
                    self.device(),
                    self.geometry(),
                    start_cluster,
                ).sectors;
                &&& 0 <= k <= 16 * sectors.len()
                &&& forall|i: int|
                    0 <= i < k ==> !model::slot_ends(model::slot_at(sectors, i))
                &&& visit_of::<V>(state, model::entries_before(sectors, k)).stopped
            }),
        ensures
            ({
                let sectors = model::chain_stream(
                    self.device(),
                    self.geometry(),
                    start_cluster,
                ).sectors;
                let listing = model::directory(self.device(), self.geometry(), start_cluster);
                visit_of::<V>(state, listing.entries) == visit_of::<V>(
                    state,
                    model::entries_before(sectors, k),
                )
            }),
    {
        let sectors = model::chain_stream(self.device(), self.geometry(), start_cluster).sectors;
        let listing = model::directory(self.device(), self.geometry(), start_cluster);
        lemma_end_slot(sectors, 0, k);
        lemma_entries_prefix(sectors, k, model::end_slot(sectors, 0));
        lemma_visit_stopped::<V>(
            state,
            listing.entries,
            model::entries_before(sectors, k).len() as int,
        );
    }
}

/// Looks for the first entry with a name.
struct Finder<'n> {
    name: &'n str,
    found: Option<DirEntry>,
}

impl<'n> EntryVisitor for Finder<'n> {
    type State = (Seq<char>, Option<EntryModel>);

    closed spec fn state(&self) -> (Seq<char>, Option<EntryModel>) {
        (
            self.name@,
            match self.found {
                Some(entry) => Some(entry@),
                None => None,
            },
        )
    }

    closed spec fn after(state: (Seq<char>, Option<EntryModel>), entry: EntryModel) -> (
        Seq<char>,
        Option<EntryModel>,
    ) {
        if model::same_name(entry.name, state.0) {
            (state.0, Some(entry))
        } else {
            state
        }
    }

    closed spec fn goes_on(state: (Seq<char>, Option<EntryModel>), entry: EntryModel) -> bool {
        !model::same_name(entry.name, state.0)
    }

    fn visit_entry(&mut self, entry: DirEntry) -> (more: bool) {
        if entry.is_named(self.name) {
            self.found = Some(entry);
            false
        } else {
            true
        }
    }
}

/// A search stops at the first entry with the name, or finds none.
proof fn lemma_finder_finds(entries: Seq<EntryModel>, name: Seq<char>)
    ensures
        ({
            let visit = visit_of::<Finder<'_>>((name, None), entries);
            let position = model::name_position(entries, name, 0);
            &&& visit.stopped == (position < entries.len())
            &&& visit.state == (
                name,
                if position < entries.len() {
                    Some(entries[position])
                } else {
                    None
                },
            )
        }),
    decreases entries.len(),
{
    if entries.len() == 0 {
    } else {
        let before = entries.drop_last();
        lemma_finder_finds(before, name);
        lemma_first_position(before, name, 0);
        let position = model::name_position(before, name, 0);
        assert forall|i: int| 0 <= i < position implies !model::same_name(
            entries[i].name,
            name,
        ) by {
            assert(before[i] == entries[i]);
        }
        if position < before.len() {
            assert(before[position] == entries[position]);
            lemma_name_position(entries, name, 0, position);
        } else {
            lemma_name_position(entries, name, 0, position);
            if !model::same_name(entries.last().name, name) {
                lemma_name_position(entries, name, 0, entries.len() as int);
            }
        }
    }
}

/// No entry before the first with a name has the name, and that one does.
proof fn lemma_first_position(entries: Seq<EntryModel>, name: Seq<char>, from: int)
    requires
        0 <= from <= entries.len(),
    ensures
        ({
            let position = model::name_position(entries, name, from);
            &&& from <= position <= entries.len()
            &&& forall|i: int|
                from <= i < position ==> !model::same_name(#[trigger] entries[i].name, name)
            &&& position < entries.len() ==> model::same_name(entries[position].name, name)
        }),
    decreases entries.len() - from,
{
    if from < entries.len() && !model::same_name(entries[from].name, name) {
        lemma_first_position(entries, name, from + 1);
    }
}

/// The part that a path starts with ends at `n`, if no slash comes before `n` and the
/// path ends there or a slash follows.
proof fn lemma_segment_len(path: Seq<char>, n: int)
    requires
        0 <= n <= path.len(),
        forall|i: int| 0 <= i < n ==> path[i] != '/',
        n == path.len() || path[n] == '/',
    ensures
        model::segment_len(path) == n,
    decreases n,
{
    if n > 0 {
        lemma_segment_len(path.skip(1), n - 1);
    }
}

/// Takes the next part from the front of a path: the part and what follows it. Parts
/// stand between slashes, and none of them is empty.
pub fn next_part(path: &str) -> (taken: Option<(&str, &str)>)
    ensures
        match taken {
            None => model::components(path@).len() == 0,
            Some((part, rest)) => {
                &&& model::components(path@) == seq![part@] + model::components(rest@)
                &&& path@.skip(path@.len() - rest@.len()) == rest@
                &&& rest@.len() > 0 ==> rest@[0] == '/'
                &&& rest@.len() < path@.len()
            },
        },
{
    let length: usize = path.unicode_len();
    let mut start: usize = 0;
    assert(path@.skip(0) =~= path@);
    while start < length && path.get_char(start) == '/'
        invariant
            start <= length,
            length == path@.len(),
            model::components(path@.skip(start as int)) == model::components(path@),
        decreases length - start,
    {
        assert(path@.skip(start as int).skip(1) =~= path@.skip(start + 1));
        start += 1;
    }
    if start == length {
        return None;
    }
    let mut end: usize = start;
    while end < length && path.get_char(end) != '/'
        invariant
            start <= end <= length,
            length == path@.len(),
            forall|i: int| start <= i < end ==> path@[i] != '/',
        decreases length - end,
    {
        end += 1;
    }
    let part: &str = path.substring_char(start, end);
    let rest: &str = path.substring_char(end, length);
    proof {
        let from = path@.skip(start as int);
        let n = end - start;
        assert(n < from.len() ==> from[n] == path@[end as int]);
        assert(forall|i: int| 0 <= i < n ==> from[i] == path@[start + i]);
        lemma_segment_len(from, n);
        assert(part@ =~= from.take(n));
        assert(from.skip(n) =~= rest@);
        assert(from[0] == path@[start as int]);
        assert(model::components(Seq::<char>::empty()).len() == 0);
        assert(n == from.len() ==> rest@ =~= Seq::empty());
        assert(model::components(from) =~= seq![part@] + model::components(rest@));
        assert(path@.skip(path@.len() - rest@.len()) =~= rest@);
    }
    Some((part, rest))
}

/// Whether a part of a path is one of the two that are never followed.
fn is_dot_part(part: &str) -> (dots: bool)
    ensures
        dots == model::is_dot_name(part@),
{
    let length: usize = part.unicode_len();
    if length == 1 {
        assert(part@ =~= seq!['.'] <==> part@[0] == '.');
        part.get_char(0) == '.'
    } else if length == 2 {
        assert(part@ =~= seq!['.', '.'] <==> part@[0] == '.' && part@[1] == '.');
        part.get_char(0) == '.' && part.get_char(1) == '.'
    } else {
        false
    }
}

impl<'a, D: BlockDevice> Fat32<'a, D> {
    /// Finds the first entry with the given name in a directory.
    fn find_in_directory(&self, cluster: u32, name: &str) -> (found: Result<
        DirEntry,
        FsError,
    >)
        ensures
            ({
                let answer = model::lookup(
                    model::directory(self.device(), self.geometry(), cluster),
                    name@,
                );
                match found {
                    Ok(entry) => answer == Ok::<EntryModel, FsError>(entry@),
                    Err(error) => answer == Err::<EntryModel, FsError>(error),
                }
            }),
    {
        let mut finder: Finder<'_> = Finder { name, found: None };
        let ghost listing = model::directory(self.device(), self.geometry(), cluster);
        proof {
            lemma_finder_finds(listing.entries, name@);
            lemma_first_position(listing.entries, name@, 0);
        }
        match self.visit_directory(cluster, &mut finder) {
            Ok(_) => {},
            Err(error) => return Err(error),
        }
        match finder.found {
            Some(entry) => Ok(entry),
            None => Err(FsError::NotFound),
        }
    }

    /// Follows a path from the root directory.
    fn resolve_path(&self, path: &str) -> (found: Result<DirEntry, FsError>)
        ensures
            ({
                let answer = model::resolve(
                    self.device(),
                    self.geometry(),
                    self.geometry().root_cluster,
                    model::components(path@),
                );
                match found {
                    Ok(entry) => answer == Ok::<EntryModel, FsError>(entry@),
                    Err(error) => answer == Err::<EntryModel, FsError>(error),
                }
            }),
    {
        let mut directory: u32 = self.geometry.root_cluster;
        let mut left: &str = path;
        loop
            invariant
                model::resolve(
                    self.device(),
                    self.geometry(),
                    directory,
                    model::components(left@),
                ) == model::resolve(
                    self.device(),
                    self.geometry(),
                    self.geometry().root_cluster,
                    model::components(path@),
                ),
            decreases left@.len(),
        {
            let (part, rest) = match next_part(left) {
                Some(taken) => taken,
                None => return Err(FsError::NotFound),
            };
            let ghost parts = model::components(left@);
            assert(parts[0] == part@);
            assert(parts.skip(1) =~= model::components(rest@));
            if is_dot_part(part) {
                return Err(FsError::NotFound);
            }
            let entry: DirEntry = match self.find_in_directory(directory, part) {
                Ok(entry) => entry,
                Err(error) => return Err(error),
            };
            if next_part(rest).is_none() {
                return Ok(entry);
            }
            if !entry.is_directory() {
                return Err(FsError::NotDirectory);
            }
            directory = entry.first_cluster();
            left = rest;
        }
    }

    /// Lists a directory: hands its entries, in order, to the visitor, until the visitor
    /// stops. An error in the directory comes after the entries before it.
    pub fn list_dir<V: EntryVisitor>(&self, path: &str, visitor: &mut V) -> (result: Result<
        (),
        FsError,
    >)
        ensures
            ({
                let listing = model::listing_at(self.device(), self.geometry(), path@);
                let visit = visit_of::<V>(old(visitor).state(), listing.entries);
                &&& final(visitor).state() == visit.state
                &&& match result {
                    Ok(_) => visit.stopped || listing.end is Ok,
                    Err(error) => !visit.stopped && listing.end == Err::<(), FsError>(error),
                }
            }),
    {
        let cluster: u32 = if next_part(path).is_none() {
            self.geometry.root_cluster
        } else {
            let entry: DirEntry = match self.resolve_path(path) {
                Ok(entry) => entry,
                Err(error) => return Err(error),
            };
            if !entry.is_directory() {
                return Err(FsError::NotDirectory);
            }
            entry.first_cluster()
        };
        self.visit_directory(cluster, visitor)
    }

    /// Reads a file: hands its contents, sector by sector, to the visitor, and gives its
    /// size. Where reading fails midway, the visitor has got what was read before.
    pub fn read_file<V: ChunkVisitor>(&self, path: &str, visitor: &mut V) -> (result: Result<
        usize,
        FsError,
    >)
        ensures
            ({
                let file = model::file_at(self.device(), self.geometry(), path@);
                &&& final(visitor).state() == chunks_seen::<V>(old(visitor).state(), file.chunks)
                &&& result == file.end
            }),
    {
        match self.resolve_path(path) {
            Ok(entry) => self.read_contents(&entry, visitor),
            Err(error) => Err(error),
        }
    }

    /// Reads the file with the given entry.
    fn read_contents<V: ChunkVisitor>(&self, entry: &DirEntry, visitor: &mut V) -> (result: Result<
        usize,
        FsError,
    >)
        ensures
            ({
                let file = model::file_of(self.device(), self.geometry(), entry@);
                &&& final(visitor).state() == chunks_seen::<V>(old(visitor).state(), file.chunks)
                &&& result == file.end
            }),
    {
        let ghost start = visitor.state();
        if entry.is_directory() {
            return Err(FsError::IsDirectory);
        }
        if entry.size == 0 {
            return Ok(0);
        }
        if !self.is_valid_cluster(entry.first_cluster) {
            return Err(FsError::InvalidCluster);
        }
        let size: usize = entry.size as usize;
        let mut remaining: usize = size;
        let mut cursor: ChainCursor = self.open_chain(entry.first_cluster);
        let mut sector: [u8; SECTOR_SIZE] = [0; SECTOR_SIZE];
        let ghost stream = model::chain_stream(self.device(), self.geometry(), entry.first_cluster);
        let ghost mut read: int = 0;
        assert(stream.sectors.take(0) =~= Seq::<Seq<u8>>::empty());
        assert(stream.sectors.skip(0) =~= stream.sectors);
        while remaining > 0
            invariant
                cursor.well_formed(self.geometry()),
                size == entry.size,
                entry.size == entry@.size,
                entry.first_cluster == entry@.first_cluster,
                size > 0,
                0 <= read <= stream.sectors.len(),
                remaining > 0 ==> remaining == size - 512 * read,
                remaining == 0 ==> read == model::sectors_for(size as int),
                remaining > 0 ==> read < model::sectors_for(size as int),
                start == old(visitor).state(),
                stream == model::chain_stream(self.device(), self.geometry(), entry@.first_cluster),
                self.geometry().has_cluster(entry@.first_cluster),
                !entry@.is_directory(),
                cursor.stream(self.device(), self.geometry()).sectors == stream.sectors.skip(read),
                cursor.stream(self.device(), self.geometry()).end == stream.end,
                remaining > 0 ==> visitor.state() == chunks_seen::<V>(
                    start,
                    stream.sectors.take(read),
                ),
                remaining == 0 ==> visitor.state() == chunks_seen::<V>(
                    start,
                    model::file_chunks(stream.sectors, size as int),
                ),
            decreases cursor.budget, self.geometry().sectors_per_cluster - cursor.index,
        {
            let ghost rest = cursor.stream(self.device(), self.geometry());
            assert(rest.sectors.len() == stream.sectors.len() - read);
            match self.next_sector(&mut cursor, &mut sector) {
                Ok(true) => {},
                Ok(false) => {
                    assert(stream.sectors.take(read) =~= stream.sectors);
                    return Err(FsError::TruncatedFile);
                },
                Err(error) => {
                    assert(stream.sectors.take(read) =~= stream.sectors);
                    return Err(error);
                },
            }
            proof {
                assert(rest.sectors.len() > 0);
                assert(rest.sectors[0] == stream.sectors[read]);
                assert(rest.sectors.skip(1) =~= stream.sectors.skip(read + 1));
                assert(rest.sectors.skip(1) =~= cursor.stream(
                    self.device(),
                    self.geometry(),
                ).sectors);
            }
            let count: usize = if remaining < SECTOR_SIZE {
                remaining
            } else {
                SECTOR_SIZE
            };
            let chunk: &[u8] = vstd::slice::slice_subrange(&sector, 0, count);
            visitor.visit_chunk(chunk);
            remaining -= count;
            proof {
                let seen = stream.sectors.take(read).push(chunk@);
                assert(seen.drop_last() =~= stream.sectors.take(read));
                read = read + 1;
                if remaining == 0 {
                    lemma_last_chunk(stream.sectors, size as int, read - 1, chunk@);
                } else {
                    assert(chunk@ =~= sector@);
                    assert(seen =~= stream.sectors.take(read));
                }
            }
        }
        Ok(size)
    }
}

/// A file is its whole sectors and the part of the last one that it needs.
proof fn lemma_last_chunk(sectors: Seq<Seq<u8>>, size: int, full: int, last: Seq<u8>)
    requires
        0 <= full < sectors.len(),
        sectors[full].len() == 512,
        0 < size - 512 * full <= 512,
        last == sectors[full].take(size - 512 * full),
    ensures
        model::sectors_for(size) == full + 1,
        model::file_chunks(sectors, size) == sectors.take(full).push(last),
{
    let chunks = model::file_chunks(sectors, size);
    assert(sectors[full].take(512) =~= sectors[full]);
    assert(chunks =~= sectors.take(full).push(last));
}

} // verus!
