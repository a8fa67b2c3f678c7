//! Block storage: the seam between the filesystem and whatever holds its sectors.

use vstd::prelude::*;

verus! {

/// Bytes in a sector of every block device.
pub const SECTOR_SIZE: usize = 512;

/// Why a block device could not serve a request.
#[derive(Debug, Clone, Copy, PartialEq, Eq, Structural)]
pub enum StorageError {
    MissingRamdisk,
    InvalidRamdisk,
    SectorOutOfRange,
}

/// The block-device seam used by the FAT32 layer.
///
/// A device is modelled by how many sectors it reports and by what reading each
/// sector gives. Reading is through a shared reference and changes nothing. Of a device
/// that does not say what it holds, nothing is known.
pub trait BlockDevice {
    /// The number of sectors that the device reports.
    closed spec fn total_sectors(&self) -> u64 {
        arbitrary()
    }

    /// What reading sector `lba` gives: a whole sector, or why there is none.
    closed spec fn sector(&self, lba: u32) -> Result<[u8; SECTOR_SIZE], StorageError> {
        arbitrary()
    }

    fn sector_count(&self) -> (count: u64)
        ensures
            count == self.total_sectors(),
    ;

    /// Reads sector `lba` into `output`. After an error `output` holds nothing of use.
    fn read_sector(&self, lba: u32, output: &mut [u8; SECTOR_SIZE]) -> (result: Result<
        (),
        StorageError,
    >)
        ensures
            match result {
                Ok(_) => self.sector(lba) == Ok::<[u8; SECTOR_SIZE], StorageError>(*final(output)),
                Err(error) => self.sector(lba) == Err::<[u8; SECTOR_SIZE], StorageError>(error),
            },
    ;
}

/// Every sector that a block device gives has `SECTOR_SIZE` bytes.
pub proof fn law_sectors_are_whole<D: BlockDevice>(device: D, lba: u32)
    ensures
        device.sector(lba) matches Ok(sector) ==> sector@.len() == SECTOR_SIZE,
        SECTOR_SIZE == 512,
{
}

/// The sector with the given bytes.
pub open spec fn sector_of(bytes: Seq<u8>) -> [u8; SECTOR_SIZE] {
    choose|sector: [u8; SECTOR_SIZE]| sector@ == bytes
}

/// A sector that starts with the first `count` of the given bytes.
spec fn sector_with(bytes: Seq<u8>, count: nat) -> [u8; SECTOR_SIZE]
    decreases count,
{
    if count == 0 {
        [0; SECTOR_SIZE]
    } else {
        vstd::array::spec_array_update(
            sector_with(bytes, (count - 1) as nat),
            count - 1,
            bytes[count - 1],
        )
    }
}

proof fn lemma_sector_with(bytes: Seq<u8>, count: nat)
    requires
        count <= bytes.len() == SECTOR_SIZE,
    ensures
        sector_with(bytes, count)@.take(count as int) == bytes.take(count as int),
    decreases count,
{
    if count > 0 {
        lemma_sector_with(bytes, (count - 1) as nat);
        let before = sector_with(bytes, (count - 1) as nat);
        assert forall|i: int| 0 <= i < count implies sector_with(bytes, count)@[i] == bytes[i] by {
            if i < count - 1 {
                assert(before@.take(count - 1)[i] == bytes.take(count - 1)[i]);
            }
        }
    }
}

/// There is a sector with any bytes that are as many.
proof fn lemma_sector_of(bytes: Seq<u8>)
    requires
        bytes.len() == SECTOR_SIZE,
    ensures
        sector_of(bytes)@ == bytes,
{
    lemma_sector_with(bytes, SECTOR_SIZE as nat);
    let sector = sector_with(bytes, SECTOR_SIZE as nat);
    assert(sector@.take(SECTOR_SIZE as int) =~= sector@);
    assert(bytes.take(SECTOR_SIZE as int) =~= bytes);
    assert(sector@ == bytes);
}

/// A read-only snapshot of a volume, held in memory.
pub struct RamDiskBlockDevice {
    bytes: &'static [u8],
}

/// Checks where the boot loader says that the snapshot lies. The snapshot must be
/// there, and it must be a whole, positive number of sectors that memory can hold.
pub fn ramdisk_extent(address: Option<u64>, length: u64) -> (extent: Result<
    (u64, usize),
    StorageError,
>)
    ensures
        extent == match address {
            None => Err::<(u64, usize), StorageError>(StorageError::MissingRamdisk),
            Some(start) => if length > usize::MAX || length == 0 || length as int
                % SECTOR_SIZE as int != 0 {
                Err(StorageError::InvalidRamdisk)
            } else {
                Ok((start, length as usize))
            },
        },
        extent is Ok <==> address is Some && 0 < length <= usize::MAX && length % 512 == 0,
        extent matches Ok(found) ==> address == Some(found.0) && found.1 == length,
        extent matches Err(error) ==> (error is MissingRamdisk <==> address is None) && (
        error is InvalidRamdisk <==> address is Some),
{
    match address {
        None => Err(StorageError::MissingRamdisk),
        Some(start) => {
            if length > usize::MAX as u64 {
                return Err(StorageError::InvalidRamdisk);
            }
            let bytes: usize = length as usize;
            if bytes == 0 || bytes % SECTOR_SIZE != 0 {
                Err(StorageError::InvalidRamdisk)
            } else {
                Ok((start, bytes))
            }
        },
    }
}

impl RamDiskBlockDevice {
    /// The bytes of the snapshot.
    pub closed spec fn contents(&self) -> Seq<u8> {
        self.bytes@
    }

    /// Wraps the snapshot that the boot loader left in memory.
    pub fn from_boot_info(bytes: &'static [u8]) -> (device: Result<Self, StorageError>)
        ensures
            match device {
                Ok(disk) => bytes@.len() > 0 && bytes@.len() % SECTOR_SIZE as nat == 0
                    && disk.contents() == bytes@,
                Err(error) => error == StorageError::InvalidRamdisk && (bytes@.len() == 0
                    || bytes@.len() % SECTOR_SIZE as nat != 0),
            },
    {
        if bytes.len() == 0 || bytes.len() % SECTOR_SIZE != 0 {
            return Err(StorageError::InvalidRamdisk);
        }
        Ok(RamDiskBlockDevice { bytes })
    }
}

impl BlockDevice for RamDiskBlockDevice {
    open spec fn total_sectors(&self) -> u64 {
        (self.contents().len() / SECTOR_SIZE as nat) as u64
    }

    open spec fn sector(&self, lba: u32) -> Result<[u8; SECTOR_SIZE], StorageError> {
        let start = lba as int * SECTOR_SIZE;
        if start + SECTOR_SIZE <= self.contents().len() {
            Ok(sector_of(self.contents().subrange(start, start + SECTOR_SIZE)))
        } else {
            Err(StorageError::SectorOutOfRange)
        }
    }

    fn sector_count(&self) -> (count: u64) {
        (self.bytes.len() / SECTOR_SIZE) as u64
    }

    fn read_sector(&self, lba: u32, output: &mut [u8; SECTOR_SIZE]) -> (result: Result<
        (),
        StorageError,
    >)
        ensures
            result is Err ==> final(output)@ == old(output)@,
    {
        let available: usize = self.bytes.len();
        let start: usize = match (lba as usize).checked_mul(SECTOR_SIZE) {
            Some(start) => start,
            None => return Err(StorageError::SectorOutOfRange),
        };
        let end: usize = match start.checked_add(SECTOR_SIZE) {
            Some(end) => end,
            None => return Err(StorageError::SectorOutOfRange),
        };
        if end > available {
            return Err(StorageError::SectorOutOfRange);
        }
        let mut index: usize = 0;
        while index < SECTOR_SIZE
            invariant
                index <= SECTOR_SIZE,
                start == lba * SECTOR_SIZE,
                end == start + SECTOR_SIZE,
                end <= self.bytes@.len(),
                forall|i: int| 0 <= i < index ==> output@[i] == self.bytes@[start + i],
            decreases SECTOR_SIZE - index,
        {
            output[index] = self.bytes[start + index];
            index += 1;
        }
        proof {
            let bytes = self.contents().subrange(start as int, end as int);
            assert(output@ =~= bytes);
            lemma_sector_of(bytes);
            assert(*output =~= sector_of(bytes));
        }
        Ok(())
    }
}

/// A snapshot that passed its check serves exactly the sectors that it reports, and each
/// of them holds the snapshot's bytes from its place on.
pub proof fn law_ramdisk_serves_its_sectors(disk: RamDiskBlockDevice, lba: u32)
    requires
        disk.contents().len() % SECTOR_SIZE as nat == 0,
        disk.contents().len() <= u64::MAX,
    ensures
        disk.total_sectors() * 512 == disk.contents().len(),
        disk.sector(lba) is Ok <==> lba < disk.total_sectors(),
        disk.sector(lba) matches Ok(sector) ==> sector@ == disk.contents().subrange(
            lba * SECTOR_SIZE,
            (lba + 1) * SECTOR_SIZE,
        ),
{
    let start = lba * SECTOR_SIZE;
    if start + SECTOR_SIZE <= disk.contents().len() {
        lemma_sector_of(disk.contents().subrange(start, start + SECTOR_SIZE));
    }
}

} // verus!
