//! The hand-off from the boot loader: which partition holds the data volume, and how its
//! snapshot is read before the firmware's block access ends.

use vstd::prelude::*;

use crate::storage::SECTOR_SIZE;

verus! {

/// Bytes of the data partition.
pub const SOL_DATA_BYTES: u64 = 0x400_0000;

/// Bytes that are read at once.
pub const CHUNK_BYTES: u64 = 0x1_0000;

/// The strictest alignment of a buffer that pages meet.
pub const PAGE_SIZE: u32 = 4096;

/// Partitions start and end at multiples of this many bytes, and the image leaves as many
/// free before the first partition, between the two, and behind the last.
pub const IMAGE_ALIGNMENT: u64 = 0x10_0000;

/// Bytes of a boot partition up to the next partition boundary.
pub open spec fn aligned_bytes(bytes: int) -> int {
    (bytes + IMAGE_ALIGNMENT - 1) / (IMAGE_ALIGNMENT as int) * IMAGE_ALIGNMENT
}

/// Bytes of a disk image with the boot partition and the data partition.
pub open spec fn image_bytes(boot_partition_bytes: int) -> int {
    IMAGE_ALIGNMENT + aligned_bytes(boot_partition_bytes) + IMAGE_ALIGNMENT + SOL_DATA_BYTES
        + IMAGE_ALIGNMENT
}

/// How large the disk image is, given the size of its boot partition. `None` where the
/// size is no 64-bit number.
pub fn disk_size(boot_partition_bytes: u64) -> (size: Option<u64>)
    ensures
        size == if image_bytes(boot_partition_bytes as int) <= u64::MAX {
            Some(image_bytes(boot_partition_bytes as int) as u64)
        } else {
            None
        },
{
    let fixed: u64 = 3 * IMAGE_ALIGNMENT + SOL_DATA_BYTES;
    let past: u64 = boot_partition_bytes % IMAGE_ALIGNMENT;
    let aligned: u64 = if past == 0 {
        boot_partition_bytes
    } else {
        match boot_partition_bytes.checked_add(IMAGE_ALIGNMENT - past) {
            Some(aligned) => aligned,
            None => return None,
        }
    };
    aligned.checked_add(fixed)
}

/// The image holds both partitions: the boot partition at the first boundary, the data
/// partition at the first boundary behind it, and free space behind that. Nothing is
/// larger than it must be: the boot partition leaves less than one step free before the
/// data partition.
pub proof fn law_image_holds_both_partitions(boot_partition_bytes: int)
    requires
        0 <= boot_partition_bytes,
    ensures
        ({
            let data_start = IMAGE_ALIGNMENT + aligned_bytes(boot_partition_bytes);
            &&& data_start % (IMAGE_ALIGNMENT as int) == 0
            &&& IMAGE_ALIGNMENT + boot_partition_bytes <= data_start < 2 * IMAGE_ALIGNMENT
                + boot_partition_bytes
            &&& data_start + SOL_DATA_BYTES + 2 * IMAGE_ALIGNMENT == image_bytes(
                boot_partition_bytes,
            )
            &&& image_bytes(boot_partition_bytes) % (IMAGE_ALIGNMENT as int) == 0
        }),
{
}

/// The partition type for basic data, byte by byte as a partition entry holds it.
pub open spec fn basic_data_type() -> Seq<u8> {
    seq![
        0xa2, 0xa0, 0xd0, 0xeb, 0xe5, 0xb9, 0x33, 0x44, 0x87, 0xc0, 0x68, 0xb6, 0xb7, 0x26, 0x99,
        0xc7,
    ]
}

/// The name of the data partition, as a partition entry holds it, with its end mark.
pub open spec fn sol_data_name() -> Seq<u16> {
    seq![0x73, 0x6f, 0x6c, 0x2d, 0x64, 0x61, 0x74, 0x61, 0x00]
}

/// Whether a partition entry is that of the data volume: its type is basic data, and its
/// name is `sol-data`.
pub open spec fn is_sol_data(partition_type: Seq<u8>, name: Seq<u16>) -> bool {
    &&& partition_type == basic_data_type()
    &&& name.len() >= 9
    &&& name.take(9) == sol_data_name()
}

/// A partition entry: its type and its name in 16-bit characters.
#[derive(Debug, Clone, Copy)]
pub struct PartitionEntry {
    pub partition_type: [u8; 16],
    pub name: [u16; 36],
}

/// Whether a partition entry is that of the data volume.
pub fn is_sol_data_partition_entry(entry: &PartitionEntry) -> (matches: bool)
    ensures
        matches == is_sol_data(entry.partition_type@, entry.name@),
{
    let wanted_type: [u8; 16] = [
        0xa2, 0xa0, 0xd0, 0xeb, 0xe5, 0xb9, 0x33, 0x44, 0x87, 0xc0, 0x68, 0xb6, 0xb7, 0x26, 0x99,
        0xc7,
    ];
    let wanted_name: [u16; 9] = [0x73, 0x6f, 0x6c, 0x2d, 0x64, 0x61, 0x74, 0x61, 0x00];
    assert(wanted_type@ =~= basic_data_type());
    assert(wanted_name@ =~= sol_data_name());
    let mut index: usize = 0;
    while index < 16
        invariant
            index <= 16,
            wanted_type@ == basic_data_type(),
            forall|i: int| 0 <= i < index ==> entry.partition_type@[i] == wanted_type@[i],
        decreases 16 - index,
    {
        if entry.partition_type[index] != wanted_type[index] {
            assert(entry.partition_type@[index as int] != basic_data_type()[index as int]);
            return false;
        }
        index += 1;
    }
    assert(entry.partition_type@ =~= basic_data_type());
    let mut place: usize = 0;
    while place < 9
        invariant
            place <= 9,
            wanted_name@ == sol_data_name(),
            forall|i: int| 0 <= i < place ==> entry.name@[i] == wanted_name@[i],
        decreases 9 - place,
    {
        if entry.name[place] != wanted_name[place] {
            assert(entry.name@.take(9)[place as int] != sol_data_name()[place as int]);
            return false;
        }
        place += 1;
    }
    assert(entry.name@.take(9) =~= sol_data_name());
    true
}

/// The first partition of the data volume, or the number of partitions. `None` stands for
/// a partition without an entry.
pub open spec fn first_sol_data(entries: Seq<Option<PartitionEntry>>) -> nat
    decreases entries.len(),
{
    if entries.len() == 0 {
        0
    } else if entries[0] matches Some(entry) && is_sol_data(
        entry.partition_type@,
        entry.name@,
    ) {
        0
    } else {
        1 + first_sol_data(entries.skip(1))
    }
}

/// What the firmware says of a block device.
#[derive(Debug, Clone, Copy, PartialEq, Eq, Structural)]
pub struct BlockMedia {
    pub present: bool,
    pub logical_partition: bool,
    pub block_size: u32,
    pub last_block: u64,
    pub io_align: u32,
}

/// Whether a device is a partition of exactly the expected size, in sectors of the usual
/// size, that pages can be read into.
pub open spec fn holds_snapshot(media: BlockMedia) -> bool {
    &&& media.present
    &&& media.logical_partition
    &&& media.block_size == SECTOR_SIZE
    &&& media.io_align <= PAGE_SIZE
    &&& (media.last_block + 1) * SECTOR_SIZE == SOL_DATA_BYTES
}

/// How many bytes the snapshot of a device has. Only a partition of exactly the expected
/// size, in sectors of the usual size, is taken.
pub fn snapshot_length(media: BlockMedia) -> (length: Option<u64>)
    ensures
        length == if holds_snapshot(media) {
            Some(SOL_DATA_BYTES)
        } else {
            None
        },
{
    let count: u64 = match media.last_block.checked_add(1) {
        Some(count) => count,
        None => return None,
    };
    let length: u64 = match count.checked_mul(media.block_size as u64) {
        Some(length) => length,
        None => {
            assert(media.block_size == SECTOR_SIZE ==> count * media.block_size == count
                * SECTOR_SIZE);
            return None;
        },
    };
    if !media.present || !media.logical_partition || media.block_size != 512 || media.io_align
        > PAGE_SIZE || length != SOL_DATA_BYTES {
        return None;
    }
    Some(length)
}

/// How many pieces the snapshot is read in.
pub open spec fn chunk_count() -> int {
    SOL_DATA_BYTES as int / CHUNK_BYTES as int
}

/// The first block of a piece of the snapshot.
pub fn chunk_block(index: u64) -> (block: u64)
    requires
        index < chunk_count(),
    ensures
        block == index * (CHUNK_BYTES as int / SECTOR_SIZE as int),
        block == 128 * index,
{
    index * (CHUNK_BYTES / SECTOR_SIZE as u64)
}

/// The pieces cover the partition: every byte of it belongs to exactly one piece, at the
/// place that the piece has in the snapshot.
pub proof fn law_chunks_cover_partition(byte: int, index: int)
    requires
        0 <= byte < SOL_DATA_BYTES,
    ensures
        CHUNK_BYTES * index <= byte < CHUNK_BYTES * (index + 1) <==> index == byte / (
        CHUNK_BYTES as int),
        0 <= byte / (CHUNK_BYTES as int) < chunk_count(),
        (byte / (CHUNK_BYTES as int)) * (CHUNK_BYTES as int / SECTOR_SIZE as int) * SECTOR_SIZE
            == CHUNK_BYTES * (byte / (CHUNK_BYTES as int)),
{
    let piece = byte / (CHUNK_BYTES as int);
    assert(CHUNK_BYTES as int / SECTOR_SIZE as int == 128);
    assert(piece * 128 * 512 == 0x1_0000 * piece) by (nonlinear_arith);
}

/// Where the kernel was loaded from. Only a disk has a data partition next to it.
#[derive(Debug, Clone, Copy, PartialEq, Eq, Structural)]
pub enum BootMode {
    Disk,
    Tftp,
}

/// How far the hand-off has come.
#[derive(Debug, Clone, Copy, PartialEq, Eq, Structural)]
pub enum LoadState {
    Searching { partition: usize },
    Opening { partition: usize },
    Allocating { partition: usize },
    Reading { partition: usize, piece: u64 },
    Loaded,
    Failed,
}

/// What the firmware is to do next, by the number of the partition.
#[derive(Debug, Clone, Copy, PartialEq, Eq, Structural)]
pub enum LoadAction {
    ReadEntry { partition: usize },
    OpenBlocks { partition: usize },
    AllocatePages { bytes: u64 },
    ReadBlocks { partition: usize, block: u64, offset: u64, bytes: u64 },
    Loaded { bytes: u64 },
    NotLoaded,
}

/// What the firmware answers: the entry of a partition, if it has one, the description of
/// its blocks, if they can be read, whether there were pages, and whether blocks were read.
#[derive(Debug, Clone, Copy)]
pub enum FirmwareReply {
    Entry(Option<PartitionEntry>),
    Media(Option<BlockMedia>),
    Allocated(bool),
    Read(bool),
}

/// The hand-off, partition by partition and then piece by piece.
#[derive(Debug, Clone, Copy, PartialEq, Eq, Structural)]
pub struct PartitionLoad {
    pub partitions: usize,
    pub state: LoadState,
}

impl PartitionLoad {
    /// The partition that is looked at is there, and so is the piece that is read.
    pub open spec fn well_formed(self) -> bool {
        match self.state {
            LoadState::Searching { partition } => partition < self.partitions,
            LoadState::Reading { piece, .. } => piece < chunk_count(),
            _ => true,
        }
    }

    /// The state before the first reply.
    pub open spec fn begin(boot_mode: BootMode, partitions: usize) -> Self {
        PartitionLoad {
            partitions,
            state: if boot_mode is Disk && partitions > 0 {
                LoadState::Searching { partition: 0 }
            } else {
                LoadState::Failed
            },
        }
    }

    /// The state after a reply. Only the first data partition counts: where it cannot be
    /// read, nothing is loaded. A reply to something that was not asked ends the hand-off.
    pub open spec fn after(self, reply: FirmwareReply) -> Self {
        let state = match (self.state, reply) {
            (LoadState::Searching { partition }, FirmwareReply::Entry(entry)) => {
                if entry matches Some(entry) && is_sol_data(entry.partition_type@, entry.name@) {
                    LoadState::Opening { partition }
                } else if partition + 1 < self.partitions {
                    LoadState::Searching { partition: (partition + 1) as usize }
                } else {
                    LoadState::Failed
                }
            },
            (LoadState::Opening { partition }, FirmwareReply::Media(Some(media))) => {
                if holds_snapshot(media) {
                    LoadState::Allocating { partition }
                } else {
                    LoadState::Failed
                }
            },
            (LoadState::Allocating { partition }, FirmwareReply::Allocated(true)) => {
                LoadState::Reading { partition, piece: 0 }
            },
            (LoadState::Reading { partition, piece }, FirmwareReply::Read(true)) => {
                if piece + 1 < chunk_count() {
                    LoadState::Reading { partition, piece: (piece + 1) as u64 }
                } else {
                    LoadState::Loaded
                }
            },
            (LoadState::Loaded, _) => LoadState::Loaded,
            _ => LoadState::Failed,
        };
        PartitionLoad { state, ..self }
    }

    /// What the firmware is to do in a state. Each piece has the same place in the
    /// snapshot as on the partition.
    pub open spec fn next_action(self) -> LoadAction {
        match self.state {
            LoadState::Searching { partition } => LoadAction::ReadEntry { partition },
            LoadState::Opening { partition } => LoadAction::OpenBlocks { partition },
            LoadState::Allocating { .. } => LoadAction::AllocatePages { bytes: SOL_DATA_BYTES },
            LoadState::Reading { partition, piece } => LoadAction::ReadBlocks {
                partition,
                block: (piece * (CHUNK_BYTES as int / SECTOR_SIZE as int)) as u64,
                offset: (piece * CHUNK_BYTES) as u64,
                bytes: CHUNK_BYTES,
            },
            LoadState::Loaded => LoadAction::Loaded { bytes: SOL_DATA_BYTES },
            LoadState::Failed => LoadAction::NotLoaded,
        }
    }

    /// What the firmware is to do.
    pub fn action(&self) -> (action: LoadAction)
        requires
            self.well_formed(),
        ensures
            action == self.next_action(),
    {
        match self.state {
            LoadState::Searching { partition } => LoadAction::ReadEntry { partition },
            LoadState::Opening { partition } => LoadAction::OpenBlocks { partition },
            LoadState::Allocating { .. } => LoadAction::AllocatePages { bytes: SOL_DATA_BYTES },
            LoadState::Reading { partition, piece } => LoadAction::ReadBlocks {
                partition,
                block: chunk_block(piece),
                offset: piece * CHUNK_BYTES,
                bytes: CHUNK_BYTES,
            },
            LoadState::Loaded => LoadAction::Loaded { bytes: SOL_DATA_BYTES },
            LoadState::Failed => LoadAction::NotLoaded,
        }
    }
}

/// Begins the hand-off, given how many partitions the firmware knows.
pub fn load_sol_data_partition(boot_mode: BootMode, partitions: usize) -> (load: PartitionLoad)
    ensures
        load.well_formed(),
        load == PartitionLoad::begin(boot_mode, partitions),
{
    PartitionLoad {
        partitions,
        state: match boot_mode {
            BootMode::Disk => {
                if partitions > 0 {
                    LoadState::Searching { partition: 0 }
                } else {
                    LoadState::Failed
                }
            },
            BootMode::Tftp => LoadState::Failed,
        },
    }
}

/// Takes the firmware's reply and gives what it is to do next.
pub fn load_sol_data_partition_from_disk(
    load: &mut PartitionLoad,
    reply: FirmwareReply,
) -> (action: LoadAction)
    requires
        old(load).well_formed(),
    ensures
        final(load).well_formed(),
        *final(load) == old(load).after(reply),
        action == final(load).next_action(),
{
    let state: LoadState = match (load.state, reply) {
        (LoadState::Searching { partition }, FirmwareReply::Entry(entry)) => {
            let found: bool = match &entry {
                Some(entry) => is_sol_data_partition_entry(entry),
                None => false,
            };
            if found {
                LoadState::Opening { partition }
            } else if partition + 1 < load.partitions {
                LoadState::Searching { partition: partition + 1 }
            } else {
                LoadState::Failed
            }
        },
        (LoadState::Opening { partition }, FirmwareReply::Media(Some(media))) => {
            match snapshot_length(media) {
                Some(_) => LoadState::Allocating { partition },
                None => LoadState::Failed,
            }
        },
        (LoadState::Allocating { partition }, FirmwareReply::Allocated(true)) => {
            LoadState::Reading { partition, piece: 0 }
        },
        (LoadState::Reading { partition, piece }, FirmwareReply::Read(true)) => {
            if piece + 1 < SOL_DATA_BYTES / CHUNK_BYTES {
                LoadState::Reading { partition, piece: piece + 1 }
            } else {
                LoadState::Loaded
            }
        },
        (LoadState::Loaded, _) => LoadState::Loaded,
        _ => LoadState::Failed,
    };
    load.state = state;
    load.action()
}

/// A firmware: the entries of its partitions, the descriptions of their blocks, whether it
/// has pages, and which pieces it can read.
pub struct FirmwareModel {
    pub entries: Seq<Option<PartitionEntry>>,
    pub media: Seq<Option<BlockMedia>>,
    pub allocates: bool,
    pub reads: Seq<bool>,
}

impl FirmwareModel {
    /// What the firmware answers in a state.
    pub open spec fn reply_to(self, state: LoadState) -> FirmwareReply {
        match state {
            LoadState::Searching { partition } => FirmwareReply::Entry(
                self.entries[partition as int],
            ),
            LoadState::Opening { partition } => FirmwareReply::Media(self.media[partition as int]),
            LoadState::Allocating { .. } => FirmwareReply::Allocated(self.allocates),
            LoadState::Reading { piece, .. } => FirmwareReply::Read(self.reads[piece as int]),
            _ => FirmwareReply::Read(false),
        }
    }

    /// Whether the firmware can hand the data partition over: the first partition of that
    /// type and name has the expected blocks, there are pages, and every piece is read.
    pub open spec fn hands_over(self) -> bool {
        let first = first_sol_data(self.entries);
        &&& first < self.entries.len()
        &&& self.media[first as int] matches Some(media) && holds_snapshot(media)
        &&& self.allocates
        &&& forall|i: int| 0 <= i < chunk_count() ==> #[trigger] self.reads[i]
    }
}

/// The hand-off after a number of replies.
pub open spec fn replied(firmware: FirmwareModel, load: PartitionLoad, replies: nat) -> PartitionLoad
    decreases replies,
{
    if replies == 0 {
        load
    } else {
        replied(
            firmware,
            load.after(firmware.reply_to(load.state)),
            (replies - 1) as nat,
        )
    }
}

/// Once the hand-off is over it stays so.
proof fn lemma_over(firmware: FirmwareModel, load: PartitionLoad, replies: nat)
    requires
        load.state is Loaded || load.state is Failed,
    ensures
        replied(firmware, load, replies) == load,
    decreases replies,
{
    if replies > 0 {
        lemma_over(firmware, load, (replies - 1) as nat);
    }
}

proof fn lemma_reading_ends(firmware: FirmwareModel, load: PartitionLoad, piece: int, replies: nat)
    requires
        load.state matches LoadState::Reading { piece: at, .. } && at == piece,
        0 <= piece < chunk_count(),
        replies >= chunk_count() - piece,
    ensures
        ({
            let state = replied(firmware, load, replies).state;
            if forall|i: int| piece <= i < chunk_count() ==> #[trigger] firmware.reads[i] {
                state is Loaded
            } else {
                state is Failed
            }
        }),
    decreases chunk_count() - piece,
{
    let next = load.after(firmware.reply_to(load.state));
    if !firmware.reads[piece] || piece + 1 == chunk_count() {
        lemma_over(firmware, next, (replies - 1) as nat);
    } else {
        lemma_reading_ends(firmware, next, piece + 1, (replies - 1) as nat);
        if forall|i: int| piece + 1 <= i < chunk_count() ==> #[trigger] firmware.reads[i] {
            assert forall|i: int| piece <= i < chunk_count() implies #[trigger] firmware.reads[i] by {
                assert(i == piece || piece + 1 <= i);
            }
        }
    }
}

proof fn lemma_search_ends(
    firmware: FirmwareModel,
    load: PartitionLoad,
    partition: int,
    replies: nat,
)
    requires
        load.state matches LoadState::Searching { partition: at } && at == partition,
        0 <= partition < load.partitions == firmware.entries.len(),
        replies >= firmware.entries.len() - partition + 2 + chunk_count(),
        first_sol_data(firmware.entries) == partition + first_sol_data(
            firmware.entries.skip(partition),
        ),
    ensures
        replied(firmware, load, replies).state == if firmware.hands_over() {
            LoadState::Loaded
        } else {
            LoadState::Failed
        },
    decreases firmware.entries.len() - partition,
{
    let next = load.after(firmware.reply_to(load.state));
    let rest = firmware.entries.skip(partition);
    assert(rest[0] == firmware.entries[partition]);
    assert(rest.skip(1) =~= firmware.entries.skip(partition + 1));
    if next.state is Failed {
        assert(rest.skip(1) =~= Seq::empty());
        lemma_over(firmware, next, (replies - 1) as nat);
    } else if next.state is Searching {
        lemma_search_ends(firmware, next, partition + 1, (replies - 1) as nat);
    } else {
        let opened = next.after(firmware.reply_to(next.state));
        if opened.state is Failed {
            lemma_over(firmware, opened, (replies - 2) as nat);
        } else {
            let reading = opened.after(firmware.reply_to(opened.state));
            if reading.state is Failed {
                lemma_over(firmware, reading, (replies - 3) as nat);
            } else {
                lemma_reading_ends(firmware, reading, 0, (replies - 3) as nat);
            }
        }
    }
}

/// The hand-off ends, and it hands the data partition over exactly where the firmware can:
/// never a part of it, and never another partition.
pub proof fn law_partition_is_loaded_whole(firmware: FirmwareModel, load: PartitionLoad, replies: nat)
    requires
        load == PartitionLoad::begin(BootMode::Disk, load.partitions),
        load.partitions == firmware.entries.len(),
        replies >= firmware.entries.len() + 2 + chunk_count(),
    ensures
        replied(firmware, load, replies).state == if firmware.hands_over() {
            LoadState::Loaded
        } else {
            LoadState::Failed
        },
{
    if load.partitions == 0 {
        lemma_over(firmware, load, replies);
    } else {
        assert(firmware.entries.skip(0) =~= firmware.entries);
        lemma_search_ends(firmware, load, 0, replies);
    }
}

/// The snapshot is taken of a medium that is present, is a partition, and has 131072 blocks
/// of 512 bytes, for every alignment of buffers that a page meets: from none at all up to
/// 4096 bytes. Nothing else is taken.
pub proof fn law_snapshot_needs_page_alignment_at_most(media: BlockMedia)
    ensures
        media.present && media.logical_partition && media.block_size == 512 && media.last_block
            == 131_071 ==> (holds_snapshot(media) <==> media.io_align <= 4096),
        holds_snapshot(media) ==> media.present && media.logical_partition && media.block_size
            == 512 && media.last_block == 131_071,
{
}

/// A medium that is taken is taken with any weaker demand on buffers too.
pub proof fn law_weaker_alignment_is_taken(media: BlockMedia, io_align: u32)
    requires
        holds_snapshot(media),
        io_align <= media.io_align,
    ensures
        holds_snapshot(BlockMedia { io_align, ..media }),
{
}

/// The data partition is known by its type, the basic data type
/// ebd0a0a2-b9e5-4433-87c0-68b6b72699c7, whose first three numbers are stored low byte
/// first, and by its name, up to the end mark. What follows the mark does not matter.
pub proof fn law_data_partition_is_known(partition_type: Seq<u8>, name: Seq<u16>)
    requires
        partition_type.len() == 16,
        name.len() == 36,
    ensures
        is_sol_data(partition_type, name) <==> {
            let t = partition_type;
            &&& t[0] + 256 * t[1] + 65536 * t[2] + 16777216 * t[3] == 0xebd0_a0a2
            &&& t[4] + 256 * t[5] == 0xb9e5
            &&& t[6] + 256 * t[7] == 0x4433
            &&& 256 * t[8] + t[9] == 0x87c0
            &&& 65536 * t[10] + 256 * t[11] + t[12] == 0x68b6b7
            &&& 65536 * t[13] + 256 * t[14] + t[15] == 0x2699c7
            &&& forall|i: int| 0 <= i < 8 ==> (#[trigger] name[i]) as int == "sol-data"@[i] as int
            &&& name[8] == 0
        },
{
    reveal_strlit("sol-data");
    let t = partition_type;
    if is_sol_data(t, name) {
        assert forall|i: int| 0 <= i < 8 implies (#[trigger] name[i]) as int
            == "sol-data"@[i] as int by {
            assert(name.take(9)[i] == sol_data_name()[i]);
        }
        assert(name.take(9)[8] == sol_data_name()[8]);
    }
    if {
        &&& t[0] + 256 * t[1] + 65536 * t[2] + 16777216 * t[3] == 0xebd0_a0a2
        &&& t[4] + 256 * t[5] == 0xb9e5
        &&& t[6] + 256 * t[7] == 0x4433
        &&& 256 * t[8] + t[9] == 0x87c0
        &&& 65536 * t[10] + 256 * t[11] + t[12] == 0x68b6b7
        &&& 65536 * t[13] + 256 * t[14] + t[15] == 0x2699c7
        &&& forall|i: int| 0 <= i < 8 ==> (#[trigger] name[i]) as int == "sol-data"@[i] as int
        &&& name[8] == 0
    } {
        assert(t =~= basic_data_type());
        assert(name.take(9) =~= sol_data_name()) by {
            assert forall|i: int| 0 <= i < 9 implies name.take(9)[i] == sol_data_name()[i] by {
                assert(name.take(9)[i] == name[i]);
            }
        }
    }
}

/// The first data partition is the one that counts: none before it is one.
pub proof fn law_first_data_partition(entries: Seq<Option<PartitionEntry>>)
    ensures
        first_sol_data(entries) <= entries.len(),
        forall|i: int|
            0 <= i < first_sol_data(entries) ==> ((#[trigger] entries[i]) matches Some(entry)
                ==> !is_sol_data(entry.partition_type@, entry.name@)),
        first_sol_data(entries) < entries.len() ==> (entries[first_sol_data(
            entries,
        ) as int] matches Some(entry) && is_sol_data(entry.partition_type@, entry.name@)),
    decreases entries.len(),
{
    if entries.len() > 0 {
        law_first_data_partition(entries.skip(1));
        let n = first_sol_data(entries.skip(1)) as int;
        assert forall|i: int| 0 <= i < first_sol_data(entries) implies ((
        #[trigger] entries[i]) matches Some(entry) ==> !is_sol_data(
            entry.partition_type@,
            entry.name@,
        )) by {
            if i > 0 {
                assert(entries[i] == entries.skip(1)[i - 1]);
            }
        }
        assert(n < entries.len() - 1 ==> entries.skip(1)[n] == entries[n + 1]);
    }
}

/// What the firmware is asked first: the entry of the first partition, on a disk that has
/// one.
pub proof fn law_hand_off_starts(boot_mode: BootMode, partitions: usize)
    ensures
        PartitionLoad::begin(boot_mode, partitions).next_action() == if boot_mode is Disk
            && partitions > 0 {
            LoadAction::ReadEntry { partition: 0 }
        } else {
            LoadAction::NotLoaded
        },
        PartitionLoad::begin(boot_mode, partitions).partitions == partitions,
{
}

/// What the firmware is asked next, by what it was asked before and what it replied. The
/// entries are asked for one after the other. The partition whose entry matched is the one
/// whose blocks are opened and read. It is read from its first block on, in pieces of 128
/// blocks, each to the place in the snapshot that it has on the partition, and the last
/// piece ends with the 64th mebibyte.
pub proof fn law_hand_off_goes_on(load: PartitionLoad, reply: FirmwareReply)
    requires
        load.well_formed(),
    ensures
        load.after(reply).partitions == load.partitions,
        ({
            let next = load.after(reply).next_action();
            match (load.next_action(), reply) {
                (LoadAction::ReadEntry { partition }, FirmwareReply::Entry(entry)) => next == if (
                entry matches Some(entry) && is_sol_data(entry.partition_type@, entry.name@)) {
                    LoadAction::OpenBlocks { partition }
                } else if partition + 1 < load.partitions {
                    LoadAction::ReadEntry { partition: (partition + 1) as usize }
                } else {
                    LoadAction::NotLoaded
                },
                (LoadAction::OpenBlocks { partition }, FirmwareReply::Media(Some(media))) => {
                    &&& next is AllocatePages <==> holds_snapshot(media)
                    &&& next matches LoadAction::AllocatePages { bytes } ==> bytes
                        == 0x400_0000
                    &&& !holds_snapshot(media) ==> next is NotLoaded
                    &&& holds_snapshot(media) ==> load.after(reply).after(
                        FirmwareReply::Allocated(true),
                    ).next_action() == (LoadAction::ReadBlocks {
                        partition,
                        block: 0,
                        offset: 0,
                        bytes: 65536,
                    })
                },
                (LoadAction::AllocatePages { .. }, FirmwareReply::Allocated(done)) => {
                    if done {
                        next matches LoadAction::ReadBlocks { block: 0, offset: 0, bytes: 65536, .. }
                    } else {
                        next is NotLoaded
                    }
                },
                (
                    LoadAction::ReadBlocks { partition, block, offset, bytes },
                    FirmwareReply::Read(done),
                ) => {
                    &&& offset == 512 * block && bytes == 65536
                    &&& offset + bytes <= 0x400_0000
                    &&& next == if !done {
                        LoadAction::NotLoaded
                    } else if offset + bytes < 0x400_0000 {
                        LoadAction::ReadBlocks {
                            partition,
                            block: (block + 128) as u64,
                            offset: (offset + bytes) as u64,
                            bytes,
                        }
                    } else {
                        LoadAction::Loaded { bytes: 0x400_0000 }
                    }
                },
                (LoadAction::Loaded { bytes }, _) => bytes == 0x400_0000 && next
                    == load.next_action(),
                _ => next is NotLoaded,
            }
        }),
{
}

/// The image is as small as it can be: its boot partition is followed by the fewest bytes
/// that bring it to a whole mebibyte, and 67 mebibytes come on top.
pub proof fn law_image_size(boot_partition_bytes: int, mebibytes: int)
    requires
        0 <= boot_partition_bytes,
        0x10_0000 * (mebibytes - 1) < boot_partition_bytes <= 0x10_0000 * mebibytes,
    ensures
        image_bytes(boot_partition_bytes) == 0x10_0000 * (mebibytes + 67),
{
}

} // verus!
