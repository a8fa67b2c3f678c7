//! What a volume shows, told from its bytes: where sectors, links and entries lie, and
//! what each of them comes to.

use vstd::prelude::*;

use crate::fat32::model;
use crate::fat32::model::{EntryModel, Geometry};
use crate::fat32;
use crate::fat32::{ChunkVisitor, EntryVisitor, FsError};
use crate::storage::BlockDevice;

verus! {

/// Data sectors lie in order and without gaps: the data area starts with the first sector
/// of cluster two, the next sector of a cluster lies right behind the one before, and the
/// next cluster starts right behind the last sector of a cluster.
pub proof fn law_data_sectors_lie_in_order(geometry: Geometry, cluster: u32, index: int)
    requires
        2 <= cluster < u32::MAX,
        geometry.sectors_per_cluster > 0,
    ensures
        geometry.data_sector(2, 0) == geometry.first_data_sector,
        geometry.data_sector(cluster, index + 1) == geometry.data_sector(cluster, index) + 1,
        geometry.data_sector((cluster + 1) as u32, 0) == geometry.data_sector(
            cluster,
            geometry.sectors_per_cluster - 1,
        ) + 1,
{
    let n = geometry.sectors_per_cluster as int;
    let c = cluster as int;
    assert((c + 1 - 2) * n == (c - 2) * n + n) by (nonlinear_arith);
    assert((2 - 2) * n == 0) by (nonlinear_arith);
}

/// A data sector with a higher number of its cluster, or of a later cluster, lies behind.
pub proof fn law_data_sectors_rise(
    geometry: Geometry,
    cluster_a: u32,
    index_a: int,
    cluster_b: u32,
    index_b: int,
)
    requires
        2 <= cluster_a <= cluster_b,
        0 <= index_a < geometry.sectors_per_cluster,
        0 <= index_b < geometry.sectors_per_cluster,
        cluster_a < cluster_b || index_a < index_b,
    ensures
        geometry.first_data_sector <= geometry.data_sector(cluster_a, index_a)
            < geometry.data_sector(cluster_b, index_b),
        geometry.data_sector(cluster_b, index_b) - geometry.data_sector(cluster_a, index_a) == (
        cluster_b - cluster_a) * geometry.sectors_per_cluster + index_b - index_a,
{
    let n = geometry.sectors_per_cluster as int;
    let a = cluster_a - 2;
    let b = cluster_b - 2;
    assert(a * n >= 0 && (b - a) * n == b * n - a * n) by (nonlinear_arith)
        requires
            a >= 0,
            n >= 0,
    ;
    assert(a < b ==> (b - a) * n >= n) by (nonlinear_arith)
        requires
            n >= 0,
    ;
}

/// The number that two bytes hold, the low one first.
pub open spec fn word(low: u8, high: u8) -> int {
    low + 256 * high
}

/// The number that four bytes hold, the lowest one first.
pub open spec fn long(a: u8, b: u8, c: u8, d: u8) -> int {
    word(a, b) + 65536 * word(c, d)
}

/// A byte of a directory's slot: sixteen slots of thirty-two bytes fill a sector.
pub open spec fn slot_byte(sectors: Seq<Seq<u8>>, slot: int, i: int) -> u8 {
    sectors[slot / 16][32 * (slot % 16) + i]
}

/// Whether a field of a name, from `from` up to `to`, is ASCII as far as its text goes:
/// every byte beyond ASCII has a space before it.
pub open spec fn field_is_ascii(slot: Seq<u8>, from: int, to: int) -> bool {
    forall|i: int|
        from <= i < to && (#[trigger] slot[i]) >= 0x80 ==> exists|j: int|
            from <= j < i && (#[trigger] slot[j]) == 0x20
}

/// Whether a slot is shown: it is not deleted, no dot entry, no part of a long name and no
/// volume label, and its name is ASCII and starts with no space. No other attribute
/// matters.
pub open spec fn is_shown(slot: Seq<u8>) -> bool {
    &&& slot[0] != 0xe5
    &&& slot[0] != 0x2e
    &&& slot[0] != 0x20
    &&& slot[11] != 0x0f
    &&& slot[11] as int / 8 % 2 == 0
    &&& field_is_ascii(slot, 0, 8)
    &&& field_is_ascii(slot, 8, 11)
}

proof fn lemma_text_prefix(field: Seq<u8>)
    ensures
        model::text_len(field) <= field.len(),
        forall|i: int| 0 <= i < model::text_len(field) ==> (#[trigger] field[i]) != 0x20,
        model::text_len(field) < field.len() ==> field[model::text_len(field) as int] == 0x20,
    decreases field.len(),
{
    if field.len() > 0 && field[0] != 0x20 {
        lemma_text_prefix(field.skip(1));
        let n = model::text_len(field.skip(1)) as int;
        assert forall|i: int| 0 <= i < model::text_len(field) implies (#[trigger] field[i])
            != 0x20 by {
            if i > 0 {
                assert(field[i] == field.skip(1)[i - 1]);
            }
        }
        assert(n < field.len() - 1 ==> field.skip(1)[n] == field[n + 1]);
    }
}

/// The name of a shown slot, letter by letter: the bytes of the first field up to its
/// first space, and where the second field is not blank, a dot and that field up to its
/// first space. `stem` and `extension` are how many bytes that is.
pub proof fn law_entry_tells_its_slot(slot: Seq<u8>, stem: int, extension: int)
    requires
        slot.len() == 32,
        0 <= stem <= 8,
        forall|i: int| 0 <= i < stem ==> (#[trigger] slot[i]) != 0x20,
        stem < 8 ==> slot[stem] == 0x20,
        0 <= extension <= 3,
        forall|i: int| 8 <= i < 8 + extension ==> (#[trigger] slot[i]) != 0x20,
        extension < 3 ==> slot[8 + extension] == 0x20,
        is_shown(slot),
    ensures
        model::shown_entry(slot) matches Some(entry) && {
            let blank = slot[8] == 0x20 && slot[9] == 0x20 && slot[10] == 0x20;
            &&& entry.name.len() == if blank {
                stem
            } else {
                stem + 1 + extension
            }
            &&& forall|i: int| 0 <= i < stem ==> (#[trigger] entry.name[i]) as int == slot[i]
            &&& !blank ==> entry.name[stem] == '.'
            &&& !blank ==> forall|i: int|
                stem < i < entry.name.len() ==> (#[trigger] entry.name[i]) as int == slot[8 + i
                    - stem - 1]
            &&& entry.attributes == slot[11]
            &&& entry.is_directory() <==> slot[11] as int / 16 % 2 == 1
            &&& entry.first_cluster == word(slot[26], slot[27]) + 65536 * word(
                slot[20],
                slot[21],
            )
            &&& entry.size == long(slot[28], slot[29], slot[30], slot[31])
        },
{
    let first = slot.subrange(0, 8);
    let second = slot.subrange(8, 11);
    lemma_text_prefix(first);
    lemma_text_prefix(second);
    assert(model::text_len(first) == stem) by {
        let n = model::text_len(first) as int;
        if n < stem {
            assert(first[n] == slot[n]);
        } else if n > stem {
            assert(first[stem] == slot[stem]);
        }
    }
    assert(model::text_len(second) == extension) by {
        let n = model::text_len(second) as int;
        if n < extension {
            assert(second[n] == slot[8 + n]);
        } else if n > extension {
            assert(second[extension] == slot[8 + extension]);
        }
    }
    lemma_attribute_bits(slot[11]);
    let name = model::slot_name(slot);
    let blank = slot[8] == 0x20 && slot[9] == 0x20 && slot[10] == 0x20;
    assert(model::all_spaces(second) <==> blank) by {
        assert(second[0] == slot[8] && second[1] == slot[9] && second[2] == slot[10]);
    }
    assert(stem > 0);
    assert forall|k: int| 0 <= k < name.len() implies name[k] < 128 by {
        if k < stem {
            assert(name[k] == slot[k]);
            if slot[k] >= 0x80 {
                let j = choose|j: int| 0 <= j < k && (#[trigger] slot[j]) == 0x20;
                assert(slot[j] != 0x20);
            }
        } else if k > stem {
            let at = 8 + k - stem - 1;
            assert(name[k] == slot[at]);
            if slot[at] >= 0x80 {
                let j = choose|j: int| 8 <= j < at && (#[trigger] slot[j]) == 0x20;
                assert(slot[j] != 0x20);
            }
        }
    }
    assert(model::all_ascii(name));
}

proof fn lemma_attribute_bits(attributes: u8)
    ensures
        attributes & model::ATTR_VOLUME_ID != 0 <==> attributes as int / 8 % 2 == 1,
        attributes & model::ATTR_DIRECTORY != 0 <==> attributes as int / 16 % 2 == 1,
{
    assert((attributes & 0x08 != 0 <==> attributes / 8 % 2 == 1) && (attributes & 0x10 != 0
        <==> attributes / 16 % 2 == 1)) by (bit_vector);
}

/// A slot that is not shown gives no entry.
pub proof fn law_other_slots_are_passed_over(slot: Seq<u8>)
    requires
        slot.len() == 32,
    ensures
        model::shown_entry(slot) is Some <==> is_shown(slot),
{
    let first = slot.subrange(0, 8);
    let second = slot.subrange(8, 11);
    lemma_text_prefix(first);
    lemma_text_prefix(second);
    lemma_attribute_bits(slot[11]);
    let n = model::text_len(first) as int;
    let m = model::text_len(second) as int;
    assert(first[0] == slot[0]);
    if is_shown(slot) {
        assert forall|i: int| 0 <= i < n implies (#[trigger] slot[i]) != 0x20 by {
            assert(first[i] == slot[i]);
        }
        assert(n < 8 ==> first[n] == slot[n]);
        assert forall|i: int| 8 <= i < 8 + m implies (#[trigger] slot[i]) != 0x20 by {
            assert(second[i - 8] == slot[i]);
        }
        assert(m < 3 ==> second[m] == slot[8 + m]);
        law_entry_tells_its_slot(slot, n, m);
    } else if model::shown_entry(slot) is Some {
        let name = model::slot_name(slot);
        assert(model::all_ascii(name));
        assert forall|i: int| 0 <= i < 8 && (#[trigger] slot[i]) >= 0x80 implies exists|j: int|
            0 <= j < i && (#[trigger] slot[j]) == 0x20 by {
            assert(first[i] == slot[i]);
            if i < n {
                assert(name[i] == slot[i]);
            } else {
                assert(first[n] == slot[n]);
                assert(n < i);
            }
        }
        assert forall|i: int| 8 <= i < 11 && (#[trigger] slot[i]) >= 0x80 implies exists|j: int|
            8 <= j < i && (#[trigger] slot[j]) == 0x20 by {
            assert(second[i - 8] == slot[i]);
            if i - 8 < m {
                assert(!model::all_spaces(second));
                assert(name[n + 1 + (i - 8)] == slot[i]);
            } else {
                assert(second[m] == slot[8 + m]);
                assert(m < i - 8);
            }
        }
        assert(is_shown(slot));
    }
}

/// The bytes of a slot of a directory.
pub open spec fn slot_bytes(sectors: Seq<Seq<u8>>, slot: int) -> Seq<u8> {
    Seq::new(32, |i: int| slot_byte(sectors, slot, i))
}

/// How many of the first slots of a directory are shown.
pub open spec fn shown_before(sectors: Seq<Seq<u8>>, slots: int) -> nat
    decreases slots,
{
    if slots <= 0 {
        0
    } else {
        shown_before(sectors, slots - 1) + if is_shown(slot_bytes(sectors, slots - 1)) {
            1nat
        } else {
            0nat
        }
    }
}

proof fn lemma_slot_bytes(sectors: Seq<Seq<u8>>, slot: int)
    requires
        forall|k: int| 0 <= k < sectors.len() ==> (#[trigger] sectors[k]).len() == 512,
        0 <= slot < 16 * sectors.len(),
    ensures
        model::slot_at(sectors, slot) == slot_bytes(sectors, slot),
        slot_bytes(sectors, slot).len() == 32,
{
    assert(sectors[slot / 16].len() == 512);
    assert(model::slot_at(sectors, slot) =~= slot_bytes(sectors, slot));
}

proof fn lemma_entries_of_slots(sectors: Seq<Seq<u8>>, slots: int)
    requires
        forall|k: int| 0 <= k < sectors.len() ==> (#[trigger] sectors[k]).len() == 512,
        0 <= slots <= 16 * sectors.len(),
    ensures
        model::entries_before(sectors, slots).len() == shown_before(sectors, slots),
        forall|k: int|
            0 <= k < slots && is_shown(#[trigger] slot_bytes(sectors, k)) ==> {
                &&& shown_before(sectors, k) < shown_before(sectors, slots)
                &&& Some(model::entries_before(sectors, slots)[shown_before(sectors, k) as int])
                    == model::shown_entry(slot_bytes(sectors, k))
            },
    decreases slots,
{
    if slots > 0 {
        lemma_entries_of_slots(sectors, slots - 1);
        lemma_slot_bytes(sectors, slots - 1);
        law_other_slots_are_passed_over(slot_bytes(sectors, slots - 1));
        let earlier = model::entries_before(sectors, slots - 1);
        let entries = model::entries_before(sectors, slots);
        assert forall|k: int|
            0 <= k < slots && is_shown(#[trigger] slot_bytes(sectors, k)) implies {
            &&& shown_before(sectors, k) < shown_before(sectors, slots)
            &&& Some(entries[shown_before(sectors, k) as int]) == model::shown_entry(
                slot_bytes(sectors, k),
            )
        } by {
            if k < slots - 1 {
                assert(entries[shown_before(sectors, k) as int]
                    == earlier[shown_before(sectors, k) as int]);
            }
        }
    }
}

/// Where a directory ends: the first slot that starts with a zero byte, or behind the last
/// slot.
pub open spec fn is_directory_end(sectors: Seq<Seq<u8>>, stop: int) -> bool {
    &&& 0 <= stop <= 16 * sectors.len()
    &&& forall|k: int| 0 <= k < stop ==> (#[trigger] slot_bytes(sectors, k))[0] != 0
    &&& stop < 16 * sectors.len() ==> slot_bytes(sectors, stop)[0] == 0
}

proof fn lemma_end_slot_is_end(sectors: Seq<Seq<u8>>, from: int, stop: int)
    requires
        forall|k: int| 0 <= k < sectors.len() ==> (#[trigger] sectors[k]).len() == 512,
        is_directory_end(sectors, stop),
        0 <= from <= stop,
    ensures
        model::end_slot(sectors, from) == stop,
    decreases stop - from,
{
    if from < 16 * sectors.len() {
        lemma_slot_bytes(sectors, from);
    }
    if from < stop {
        assert(slot_bytes(sectors, from)[0] != 0);
        lemma_end_slot_is_end(sectors, from + 1, stop);
    }
}

/// A directory lists every slot before its end that is shown, and nothing else: as many
/// entries as there are such slots, in their order, each with what its slot says.
pub proof fn law_every_shown_slot_is_listed<D: BlockDevice>(
    device: D,
    geometry: Geometry,
    cluster: u32,
    stop: int,
    slot: int,
)
    requires
        2 <= cluster < geometry.cluster_count + 2,
        is_directory_end(model::chain_stream(device, geometry, cluster).sectors, stop),
        0 <= slot < stop,
    ensures
        ({
            let sectors = model::chain_stream(device, geometry, cluster).sectors;
            let listing = model::directory(device, geometry, cluster);
            let bytes = slot_bytes(sectors, slot);
            &&& listing.entries.len() == shown_before(sectors, stop)
            &&& is_shown(bytes) ==> {
                let entry = listing.entries[shown_before(sectors, slot) as int];
                &&& shown_before(sectors, slot) < listing.entries.len()
                &&& model::shown_entry(bytes) == Some(entry)
                &&& entry.attributes == bytes[11]
                &&& entry.size == long(bytes[28], bytes[29], bytes[30], bytes[31])
                &&& entry.first_cluster == word(bytes[26], bytes[27]) + 65536 * word(
                    bytes[20],
                    bytes[21],
                )
                &&& entry.name[0] as int == bytes[0]
            }
        }),
{
    let sectors = model::chain_stream(device, geometry, cluster).sectors;
    let budget = (geometry.cluster_count + 1) as nat;
    assert forall|k: int| 0 <= k < sectors.len() implies (#[trigger] sectors[k]).len() == 512 by {
        super::laws::lemma_stream_sectors_are_whole(device, geometry, cluster, 0, budget, k);
    }
    lemma_end_slot_is_end(sectors, 0, stop);
    lemma_entries_of_slots(sectors, stop);
    let bytes = slot_bytes(sectors, slot);
    lemma_slot_bytes(sectors, slot);
    if is_shown(bytes) {
        let first = bytes.subrange(0, 8);
        let second = bytes.subrange(8, 11);
        lemma_text_prefix(first);
        lemma_text_prefix(second);
        let n = model::text_len(first) as int;
        let m = model::text_len(second) as int;
        assert forall|i: int| 0 <= i < n implies (#[trigger] bytes[i]) != 0x20 by {
            assert(first[i] == bytes[i]);
        }
        assert(n < 8 ==> first[n] == bytes[n]);
        assert forall|i: int| 8 <= i < 8 + m implies (#[trigger] bytes[i]) != 0x20 by {
            assert(second[i - 8] == bytes[i]);
        }
        assert(m < 3 ==> second[m] == bytes[8 + m]);
        assert(first[0] == bytes[0]);
        law_entry_tells_its_slot(bytes, n, m);
    }
}

/// A directory that ends at a mark was read well, whatever its chain says behind the mark;
/// without a mark it ends as its chain ends.
pub proof fn law_mark_ends_directory<D: BlockDevice>(
    device: D,
    geometry: Geometry,
    cluster: u32,
    stop: int,
)
    requires
        2 <= cluster < geometry.cluster_count + 2,
        is_directory_end(model::chain_stream(device, geometry, cluster).sectors, stop),
    ensures
        ({
            let stream = model::chain_stream(device, geometry, cluster);
            let end = model::directory(device, geometry, cluster).end;
            &&& stop < 16 * stream.sectors.len() ==> end is Ok
            &&& stop == 16 * stream.sectors.len() ==> end == stream.end
        }),
{
    let sectors = model::chain_stream(device, geometry, cluster).sectors;
    let budget = (geometry.cluster_count + 1) as nat;
    assert forall|k: int| 0 <= k < sectors.len() implies (#[trigger] sectors[k]).len() == 512 by {
        super::laws::lemma_stream_sectors_are_whole(device, geometry, cluster, 0, budget, k);
    }
    lemma_end_slot_is_end(sectors, 0, stop);
}

/// How many sectors a boot sector says that its volume has: a 16-bit number, or where that
/// is zero, a 32-bit one.
pub open spec fn told_sectors(s: Seq<u8>) -> int {
    if s[19] == 0 && s[20] == 0 {
        long(s[32], s[33], s[34], s[35])
    } else {
        word(s[19], s[20])
    }
}

/// Where a boot sector says that its data area starts: behind the reserved sectors and the
/// copies of the allocation table.
pub open spec fn told_data_start(s: Seq<u8>) -> int {
    word(s[14], s[15]) + s[16] * long(s[36], s[37], s[38], s[39])
}

/// Whether a boot sector is of the one kind of volume that is supported: sectors of 512
/// bytes, clusters of a power of two of them, up to 128, and the table and the root where
/// a 32-bit volume has them.
pub open spec fn is_supported_kind(s: Seq<u8>) -> bool {
    &&& s[11] == 0 && s[12] == 2
    &&& s[13] > 0 && 128int % (s[13] as int) == 0
    &&& word(s[14], s[15]) > 0
    &&& s[16] > 0
    &&& s[17] == 0 && s[18] == 0
    &&& s[22] == 0 && s[23] == 0
    &&& long(s[36], s[37], s[38], s[39]) > 0
    &&& long(s[44], s[45], s[46], s[47]) >= 2
}

/// Which volumes mount, and why the others do not: the signature, the kind of volume, a
/// data area that lies on the device, enough clusters, and a root cluster that lies in the
/// data area and has a link in the table.
pub proof fn law_boot_sector_decides(s: Seq<u8>, device_sectors: u64)
    requires
        s.len() == 512,
    ensures
        ({
            let outcome = model::boot_sector_geometry(s, device_sectors);
            let size = s[13] as int;
            let start = told_data_start(s);
            let total = told_sectors(s);
            let root = long(s[44], s[45], s[46], s[47]);
            let table = long(s[36], s[37], s[38], s[39]);
            if !(s[510] == 0x55 && s[511] == 0xaa) {
                outcome == Err::<Geometry, FsError>(FsError::InvalidBootSector)
            } else if !is_supported_kind(s) {
                outcome == Err::<Geometry, FsError>(FsError::UnsupportedVolume)
            } else if !(start < total <= device_sectors) {
                outcome == Err::<Geometry, FsError>(FsError::InvalidBootSector)
            } else if !(start + 65_525 * size <= total && start + (root - 1) * size <= total) {
                outcome == Err::<Geometry, FsError>(FsError::UnsupportedVolume)
            } else if !(4 * root + 4 <= 512 * table) {
                outcome == Err::<Geometry, FsError>(FsError::InvalidBootSector)
            } else {
                outcome matches Ok(geometry) && {
                    &&& geometry.sectors_per_cluster == size
                    &&& geometry.fat_start_sector == word(s[14], s[15])
                    &&& geometry.sectors_per_fat == table
                    &&& geometry.first_data_sector == start
                    &&& geometry.root_cluster == root
                    &&& start + geometry.cluster_count * size <= total < start + (
                    geometry.cluster_count + 1) * size
                }
            }
        }),
{
    let size = s[13] as int;
    let byte = s[13];
    let start = told_data_start(s);
    let total = told_sectors(s);
    let root = long(s[44], s[45], s[46], s[47]);
    let table = long(s[36], s[37], s[38], s[39]);
    assert(byte > 0 ==> (128u8 % byte == 0 <==> byte == 1 || byte == 2 || byte == 4 || byte == 8
        || byte == 16 || byte == 32 || byte == 64 || byte == 128)) by (bit_vector);
    assert(start >= 0) by (nonlinear_arith)
        requires
            start == word(s[14], s[15]) + s[16] * table,
            word(s[14], s[15]) >= 0,
            s[16] >= 0,
            table >= 0,
    ;
    if size > 0 && start < total {
        let d = total - start;
        let count = d / size;
        assert(count * size <= d < (count + 1) * size && 0 <= count <= d) by (nonlinear_arith)
            requires
                count == d / size,
                size > 0,
                d > 0,
        ;
        assert(count >= 65_525 <==> 65_525 * size <= d) by (nonlinear_arith)
            requires
                count * size <= d < (count + 1) * size,
                size > 0,
        ;
        assert(root < count + 2 <==> (root - 1) * size <= d) by (nonlinear_arith)
            requires
                count * size <= d < (count + 1) * size,
                size > 0,
        ;
    }
}

/// The link of a cluster is the 32-bit number at its place in the allocation table, four
/// bytes a cluster, without its top four bits. A cluster that the volume does not have, or
/// whose place the table does not reach, has none.
pub proof fn law_links_lie_in_table<D: BlockDevice>(device: D, geometry: Geometry, cluster: u32)
    requires
        geometry.fat_start_sector + geometry.sectors_per_fat <= u32::MAX,
    ensures
        ({
            let place = 4 * cluster;
            let link = model::fat_link(device, geometry, cluster);
            if !(2 <= cluster < geometry.cluster_count + 2) {
                link == Err::<u32, FsError>(FsError::InvalidCluster)
            } else if place + 4 > 512 * geometry.sectors_per_fat {
                link == Err::<u32, FsError>(FsError::CorruptFat)
            } else {
                match device.sector((geometry.fat_start_sector + place / 512) as u32) {
                    Err(error) => link == Err::<u32, FsError>(FsError::Device(error)),
                    Ok(table) => link == Ok::<u32, FsError>(
                        (long(
                            table@[place % 512],
                            table@[place % 512 + 1],
                            table@[place % 512 + 2],
                            table@[place % 512 + 3],
                        ) % 0x1000_0000) as u32,
                    ),
                }
            }
        }),
{
    let c = cluster as int;
    assert((4 * c) / 512 == c / 128 && (4 * c) % 512 == 4 * (c % 128));
    assert(4 * c + 4 > 512 * geometry.sectors_per_fat <==> c / 128 >= geometry.sectors_per_fat);
}

/// Where a link leads: the end of the chain from 0x0ffffff8 on, nowhere from the mark of a
/// bad cluster or a number that is no cluster, and else to the cluster of that number.
pub proof fn law_links_lead_on<D: BlockDevice>(device: D, geometry: Geometry, cluster: u32)
    ensures
        match model::fat_link(device, geometry, cluster) {
            Err(error) => model::successor(device, geometry, cluster) == Err::<
                Option<u32>,
                FsError,
            >(error),
            Ok(link) => model::successor(device, geometry, cluster) == if link >= 0x0fff_fff8 {
                Ok::<Option<u32>, FsError>(None)
            } else if link != 0x0fff_fff7 && 2 <= link && link - 2 < geometry.cluster_count {
                Ok(Some(link))
            } else {
                Err(FsError::CorruptFat)
            },
        },
{
}

proof fn lemma_chain_sector<D: BlockDevice>(
    device: D,
    geometry: Geometry,
    cluster: u32,
    index: int,
    budget: nat,
    i: int,
)
    requires
        0 <= index <= geometry.sectors_per_cluster,
        0 < geometry.sectors_per_cluster,
        0 <= i < model::stream_from(device, geometry, cluster, index, budget).sectors.len(),
    ensures
        ({
            let n = geometry.sectors_per_cluster as int;
            let sectors = model::stream_from(device, geometry, cluster, index, budget).sectors;
            &&& super::laws::nth_cluster(device, geometry, cluster, ((index + i) / n) as nat) matches Some(c)
                && (device.sector(geometry.data_sector(c, (index + i) % n) as u32) matches Ok(
                sector,
            ) && sector@ == sectors[i])
        }),
    decreases budget, geometry.sectors_per_cluster - index,
{
    let n = geometry.sectors_per_cluster as int;
    if budget > 0 {
        if index < n {
            if i > 0 {
                lemma_chain_sector(device, geometry, cluster, index + 1, budget, i - 1);
            } else {
                vstd::arithmetic::div_mod::lemma_small_mod(index as nat, n as nat);
                vstd::arithmetic::div_mod::lemma_basic_div(index, n);
            }
        } else {
            if let Ok(Some(next)) = model::successor(device, geometry, cluster) {
                lemma_chain_sector(device, geometry, next, 0, (budget - 1) as nat, i);
                vstd::arithmetic::div_mod::lemma_div_plus_one(i, n);
                vstd::arithmetic::div_mod::lemma_mod_add_multiples_vanish(i, n);
                assert((index + i) / n == i / n + 1);
                assert((index + i) % n == i % n);
                vstd::arithmetic::div_mod::lemma_div_pos_is_pos(i, n);
            }
        }
    }
}

/// A chain is read cluster by cluster along its links, and each cluster from its first
/// sector to its last.
pub proof fn law_chains_are_read_in_order<D: BlockDevice>(
    device: D,
    geometry: Geometry,
    cluster: u32,
    i: int,
)
    requires
        0 < geometry.sectors_per_cluster,
        0 <= i < model::chain_stream(device, geometry, cluster).sectors.len(),
    ensures
        ({
            let n = geometry.sectors_per_cluster as int;
            &&& super::laws::nth_cluster(device, geometry, cluster, (i / n) as nat) matches Some(c)
                && (device.sector(
                (geometry.first_data_sector + (c - 2) * n + i % n) as u32,
            ) matches Ok(sector) && sector@ == model::chain_stream(
                device,
                geometry,
                cluster,
            ).sectors[i])
        }),
{
    lemma_chain_sector(
        device,
        geometry,
        cluster,
        0,
        (geometry.cluster_count + 1) as nat,
        i,
    );
}

proof fn lemma_chain_end<D: BlockDevice>(
    device: D,
    geometry: Geometry,
    cluster: u32,
    index: int,
    budget: nat,
)
    requires
        0 <= index <= geometry.sectors_per_cluster,
        0 < geometry.sectors_per_cluster,
        budget > 0,
    ensures
        ({
            let n = geometry.sectors_per_cluster as int;
            let stream = model::stream_from(device, geometry, cluster, index, budget);
            let all = index + stream.sectors.len();
            match stream.end {
                Ok(_) => {
                    &&& all % n == 0 && all >= n
                    &&& super::laws::nth_cluster(device, geometry, cluster, (all / n - 1) as nat) matches Some(c)
                        && model::successor(device, geometry, c) == Ok::<Option<u32>, FsError>(
                        None,
                    )
                },
                Err(FsError::DirectoryLoop) => all == budget * n,
                Err(error) => {
                    ||| super::laws::nth_cluster(device, geometry, cluster, (all / n) as nat) matches Some(c)
                        && (device.sector(geometry.data_sector(c, all % n) as u32) matches Err(
                        reason,
                    ) && error == FsError::Device(reason))
                    ||| {
                        &&& all % n == 0 && all >= n
                        &&& super::laws::nth_cluster(device, geometry, cluster, (all / n - 1) as nat) matches Some(c)
                            && model::successor(device, geometry, c) == Err::<
                            Option<u32>,
                            FsError,
                        >(error)
                    }
                },
            }
        }),
    decreases budget, geometry.sectors_per_cluster - index,
{
    let n = geometry.sectors_per_cluster as int;
    let stream = model::stream_from(device, geometry, cluster, index, budget);
    let all = index + stream.sectors.len();
    if index < n {
        vstd::arithmetic::div_mod::lemma_small_mod(index as nat, n as nat);
        vstd::arithmetic::div_mod::lemma_basic_div(index, n);
        if device.sector(geometry.data_sector(cluster, index) as u32) is Ok {
            lemma_chain_end(device, geometry, cluster, index + 1, budget);
        }
    } else {
        match model::successor(device, geometry, cluster) {
            Ok(Some(next)) => {
                if budget > 1 {
                    lemma_chain_end(device, geometry, next, 0, (budget - 1) as nat);
                    let rest = stream.sectors.len() as int;
                    vstd::arithmetic::div_mod::lemma_div_plus_one(rest, n);
                    vstd::arithmetic::div_mod::lemma_mod_add_multiples_vanish(rest, n);
                    vstd::arithmetic::div_mod::lemma_div_pos_is_pos(rest, n);
                    assert(all / n == rest / n + 1 && all % n == rest % n);
                    assert((budget - 1) * n + n == budget * n) by (nonlinear_arith);
                    assert(rest >= n ==> rest / n >= 1) by (nonlinear_arith)
                        requires
                            n > 0,
                    ;
                } else {
                    assert(budget * n == n) by (nonlinear_arith)
                        requires
                            budget == 1,
                    ;
                }
            },
            _ => {
                vstd::arithmetic::div_mod::lemma_mod_self_0(n);
                vstd::arithmetic::div_mod::lemma_div_by_self(n);
            },
        }
    }
}

/// How a chain comes to its end: well only at an end mark, behind the last sector of a
/// cluster; as a loop only after one cluster more than the volume has; and else where a
/// sector or a link could not be read, with that error.
pub proof fn law_chains_end<D: BlockDevice>(device: D, geometry: Geometry, cluster: u32)
    requires
        0 < geometry.sectors_per_cluster,
    ensures
        ({
            let n = geometry.sectors_per_cluster as int;
            let stream = model::chain_stream(device, geometry, cluster);
            let all = stream.sectors.len() as int;
            match stream.end {
                Ok(_) => {
                    &&& all % n == 0 && all >= n
                    &&& super::laws::nth_cluster(device, geometry, cluster, (all / n - 1) as nat) matches Some(c)
                        && model::successor(device, geometry, c) == Ok::<Option<u32>, FsError>(
                        None,
                    )
                },
                Err(FsError::DirectoryLoop) => all == (geometry.cluster_count + 1) * n,
                Err(error) => {
                    ||| super::laws::nth_cluster(device, geometry, cluster, (all / n) as nat) matches Some(c)
                        && (device.sector(
                        (geometry.first_data_sector + (c - 2) * n + all % n) as u32,
                    ) matches Err(reason) && error == FsError::Device(reason))
                    ||| {
                        &&& all % n == 0 && all >= n
                        &&& super::laws::nth_cluster(device, geometry, cluster, (all / n - 1) as nat) matches Some(c)
                            && model::successor(device, geometry, c) == Err::<
                            Option<u32>,
                            FsError,
                        >(error)
                    }
                },
            }
        }),
{
    lemma_chain_end(device, geometry, cluster, 0, (geometry.cluster_count + 1) as nat);
}

/// A file that is read to its end is handed out in the bytes of its chain, in order: full
/// sectors, and a last piece that is cut where the file ends.
pub proof fn law_file_bytes_are_those_of_its_chain<D: BlockDevice>(
    device: D,
    geometry: Geometry,
    entry: EntryModel,
    i: int,
    j: int,
)
    requires
        model::file_of(device, geometry, entry).end is Ok,
        0 <= 512 * i + j < entry.size,
        0 <= j < 512,
    ensures
        ({
            let chunks = model::file_of(device, geometry, entry).chunks;
            let sectors = model::chain_stream(device, geometry, entry.first_cluster).sectors;
            &&& 512 * (chunks.len() - 1) < entry.size <= 512 * chunks.len()
            &&& 0 <= i < chunks.len() <= sectors.len()
            &&& chunks[i].len() == if entry.size - 512 * i < 512 {
                entry.size - 512 * i
            } else {
                512
            }
            &&& chunks[i][j] == sectors[i][j]
        }),
{
    let sectors = model::chain_stream(device, geometry, entry.first_cluster).sectors;
    super::laws::lemma_stream_sectors_are_whole(
        device,
        geometry,
        entry.first_cluster,
        0,
        (geometry.cluster_count + 1) as nat,
        i,
    );
}

/// How reading a file ends. A directory is not read. An empty file needs no cluster. A file
/// whose chain has bytes enough is read; else all sectors of the chain are handed out, and
/// then comes the chain's own error, or that the file is cut short.
pub proof fn law_files_end<D: BlockDevice>(device: D, geometry: Geometry, entry: EntryModel)
    ensures
        ({
            let file = model::file_of(device, geometry, entry);
            let stream = model::chain_stream(device, geometry, entry.first_cluster);
            if entry.attributes as int / 16 % 2 == 1 {
                file.end == Err::<usize, FsError>(FsError::IsDirectory) && file.chunks.len() == 0
            } else if entry.size == 0 {
                file.end == Ok::<usize, FsError>(0) && file.chunks.len() == 0
            } else if !(2 <= entry.first_cluster < geometry.cluster_count + 2) {
                file.end == Err::<usize, FsError>(FsError::InvalidCluster) && file.chunks.len()
                    == 0
            } else if entry.size <= 512 * stream.sectors.len() {
                file.end == Ok::<usize, FsError>(entry.size as usize)
            } else {
                &&& file.chunks == stream.sectors
                &&& file.end == match stream.end {
                    Ok(_) => Err::<usize, FsError>(FsError::TruncatedFile),
                    Err(error) => Err(error),
                }
            }
        }),
{
    lemma_attribute_bits(entry.attributes);
}

/// Names are the same where they differ at most in the case of the letters A to Z.
pub proof fn law_names_differ_in_case_only(a: Seq<char>, b: Seq<char>)
    ensures
        model::same_name(a, b) <==> a.len() == b.len() && forall|i: int|
            0 <= i < a.len() ==> {
                ||| #[trigger] a[i] == b[i]
                ||| 'A' <= a[i] <= 'Z' && b[i] as int == a[i] as int + 32
                ||| 'A' <= b[i] <= 'Z' && a[i] as int == b[i] as int + 32
            },
{
    if model::same_name(a, b) {
        assert forall|i: int| 0 <= i < a.len() implies {
            ||| #[trigger] a[i] == b[i]
            ||| 'A' <= a[i] <= 'Z' && b[i] as int == a[i] as int + 32
            ||| 'A' <= b[i] <= 'Z' && a[i] as int == b[i] as int + 32
        } by {
            assert(model::fold_case(a[i]) == model::fold_case(b[i]));
        }
    }
    if a.len() == b.len() && (forall|i: int|
        0 <= i < a.len() ==> {
            ||| #[trigger] a[i] == b[i]
            ||| 'A' <= a[i] <= 'Z' && b[i] as int == a[i] as int + 32
            ||| 'A' <= b[i] <= 'Z' && a[i] as int == b[i] as int + 32
        }) {
        assert forall|i: int| 0 <= i < a.len() implies model::fold_case(a[i])
            == model::fold_case(b[i]) by {
            assert(a[i] == a[i]);
        }
    }
}

/// A path without slashes is one part, and an empty path has none.
pub proof fn law_path_without_slash_is_one_part(name: Seq<char>)
    requires
        forall|i: int| 0 <= i < name.len() ==> (#[trigger] name[i]) != '/',
    ensures
        model::components(name) == if name.len() == 0 {
            Seq::empty()
        } else {
            seq![name]
        },
{
    if name.len() > 0 {
        super::laws::lemma_single_component(name);
    }
}

/// A path without parts is the root directory, which is listed, and no file.
pub proof fn law_path_without_parts_is_root<D: BlockDevice>(
    device: D,
    geometry: Geometry,
    path: Seq<char>,
)
    requires
        forall|i: int| 0 <= i < path.len() ==> (#[trigger] path[i]) == '/',
    ensures
        model::listing_at(device, geometry, path) == model::directory(
            device,
            geometry,
            geometry.root_cluster,
        ),
        model::file_at(device, geometry, path).end == Err::<usize, FsError>(FsError::NotFound),
        model::file_at(device, geometry, path).chunks.len() == 0,
{
    lemma_only_slashes(path);
}

proof fn lemma_only_slashes(path: Seq<char>)
    requires
        forall|i: int| 0 <= i < path.len() ==> (#[trigger] path[i]) == '/',
    ensures
        model::components(path).len() == 0,
    decreases path.len(),
{
    if path.len() > 0 {
        assert forall|i: int| 0 <= i < path.skip(1).len() implies (#[trigger] path.skip(1)[i])
            == '/' by {
            assert(path.skip(1)[i] == path[i + 1]);
        }
        assert(path[0] == '/');
        lemma_only_slashes(path.skip(1));
    }
}

/// What is looked up is the first entry with the name. Where there is none, the name is
/// not found, unless the directory could not be read to its end.
pub proof fn law_lookup_gives_first_entry(listing: model::Listing, name: Seq<char>, place: int)
    requires
        0 <= place <= listing.entries.len(),
        forall|i: int|
            0 <= i < place ==> !model::same_name(#[trigger] listing.entries[i].name, name),
        place < listing.entries.len() ==> model::same_name(listing.entries[place].name, name),
    ensures
        model::lookup(listing, name) == if place < listing.entries.len() {
            Ok::<EntryModel, FsError>(listing.entries[place])
        } else {
            match listing.end {
                Ok(_) => Err(FsError::NotFound),
                Err(error) => Err(error),
            }
        },
{
    super::lemma_name_position(listing.entries, name, 0, place);
}

/// A path is followed part by part: where its first part leads decides, unless there are
/// more parts. Those are followed from there, if it is a directory, and else lead through
/// a file. The two dot names are never followed.
pub proof fn law_paths_are_followed<D: BlockDevice>(
    device: D,
    geometry: Geometry,
    cluster: u32,
    first: Seq<char>,
    more: Seq<Seq<char>>,
)
    ensures
        ({
            let listing = model::directory(device, geometry, cluster);
            let outcome = model::resolve(device, geometry, cluster, seq![first] + more);
            if first == "."@ || first == ".."@ {
                outcome == Err::<EntryModel, FsError>(FsError::NotFound)
            } else {
                match model::lookup(listing, first) {
                    Err(error) => outcome == Err::<EntryModel, FsError>(error),
                    Ok(entry) => outcome == if more.len() == 0 {
                        Ok::<EntryModel, FsError>(entry)
                    } else if entry.attributes as int / 16 % 2 == 1 {
                        model::resolve(device, geometry, entry.first_cluster, more)
                    } else {
                        Err(FsError::NotDirectory)
                    },
                }
            }
        }),
{
    reveal_strlit(".");
    reveal_strlit("..");
    let parts = seq![first] + more;
    assert(parts.skip(1) =~= more);
    assert("."@ =~= seq!['.']);
    assert(".."@ =~= seq!['.', '.']);
    if let Ok(entry) = model::lookup(model::directory(device, geometry, cluster), first) {
        lemma_attribute_bits(entry.attributes);
    }
}

/// What a path with parts names is what following them comes to: a directory is listed and
/// a file is read, and each the other way round is an error of its own.
pub proof fn law_paths_name_what_they_lead_to<D: BlockDevice>(
    device: D,
    geometry: Geometry,
    path: Seq<char>,
)
    requires
        model::components(path).len() > 0,
    ensures
        ({
            let found = model::resolve(
                device,
                geometry,
                geometry.root_cluster,
                model::components(path),
            );
            let listing = model::listing_at(device, geometry, path);
            let file = model::file_at(device, geometry, path);
            match found {
                Err(error) => {
                    &&& listing.entries.len() == 0 && file.chunks.len() == 0
                    &&& listing.end == Err::<(), FsError>(error)
                    &&& file.end == Err::<usize, FsError>(error)
                },
                Ok(entry) => if entry.attributes as int / 16 % 2 == 1 {
                    &&& listing == model::directory(device, geometry, entry.first_cluster)
                    &&& file.end == Err::<usize, FsError>(FsError::IsDirectory)
                } else {
                    &&& listing.entries.len() == 0
                    &&& listing.end == Err::<(), FsError>(FsError::NotDirectory)
                    &&& file == model::file_of(device, geometry, entry)
                },
            }
        }),
{
    if let Ok(entry) = model::resolve(
        device,
        geometry,
        geometry.root_cluster,
        model::components(path),
    ) {
        lemma_attribute_bits(entry.attributes);
    }
}

/// A directory that does not start at a cluster of the volume lists nothing.
pub proof fn law_directories_start_at_clusters<D: BlockDevice>(
    device: D,
    geometry: Geometry,
    cluster: u32,
)
    requires
        !(2 <= cluster < geometry.cluster_count + 2),
    ensures
        model::directory(device, geometry, cluster).entries.len() == 0,
        model::directory(device, geometry, cluster).end == Err::<(), FsError>(
            FsError::InvalidCluster,
        ),
{
}

/// A visitor that stopped sees no more entries, and one that has not stopped sees the next
/// entry: whether it goes on then is its own answer.
pub proof fn law_visits_end_where_visitor_stops<V: EntryVisitor>(
    state: V::State,
    entries: Seq<EntryModel>,
    entry: EntryModel,
)
    ensures
        ({
            let before = fat32::visit_of::<V>(state, entries);
            let after = fat32::visit_of::<V>(state, entries.push(entry));
            &&& before.stopped ==> after == before
            &&& !before.stopped ==> after.state == V::after(before.state, entry) && after.stopped
                == !V::goes_on(before.state, entry)
        }),
        ({
            let none = fat32::visit_of::<V>(state, Seq::empty());
            none.state == state && !none.stopped
        }),
{
    assert(entries.push(entry).drop_last() =~= entries);
}

/// A reader of a file sees its pieces one after the other.
pub proof fn law_readers_see_every_piece<V: ChunkVisitor>(
    state: V::State,
    chunks: Seq<Seq<u8>>,
    chunk: Seq<u8>,
)
    ensures
        fat32::chunks_seen::<V>(state, Seq::empty()) == state,
        fat32::chunks_seen::<V>(state, chunks.push(chunk)) == V::after(
            fat32::chunks_seen::<V>(state, chunks),
            chunk,
        ),
{
    assert(chunks.push(chunk).drop_last() =~= chunks);
}

} // verus!
