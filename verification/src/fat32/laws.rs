//! What holds of every volume, every directory and every path.

use vstd::prelude::*;

use crate::fat32::model::{self, EntryModel, Geometry, Listing, ATTR_LONG_FILE_NAME, ATTR_VOLUME_ID};
use crate::fat32::FsError;
use crate::storage::{BlockDevice, RamDiskBlockDevice, SECTOR_SIZE};

verus! {

/// A volume that mounts keeps the bounds of a well-formed volume. Every sector of its
/// clusters lies in the volume, and with every sector of its allocation table, on the
/// device.
pub proof fn law_mounted_volume_lies_on_device(
    boot_sector: Seq<u8>,
    device_sectors: u64,
    geometry: Geometry,
    cluster: u32,
    index: int,
)
    requires
        model::boot_sector_geometry(boot_sector, device_sectors) == Ok::<
            Geometry,
            FsError,
        >(geometry),
        geometry.has_cluster(cluster),
        0 <= index < geometry.sectors_per_cluster,
    ensures
        geometry.well_formed(),
        geometry.first_data_sector <= geometry.data_sector(cluster, index) < model::volume_sectors(
            boot_sector,
        ) <= device_sectors,
        cluster as int / 128 < geometry.sectors_per_fat ==> geometry.fat_start_sector
            + cluster as int / 128 < geometry.first_data_sector < device_sectors,
{
    let reserved = model::le16(boot_sector, 14);
    let fats = boot_sector[16] as int;
    let per_fat = model::le32(boot_sector, 36);
    let n = geometry.sectors_per_cluster as int;
    let count = geometry.cluster_count as int;
    let total = model::volume_sectors(boot_sector);
    let first = reserved + fats * per_fat;
    assert(fats * per_fat >= per_fat) by (nonlinear_arith)
        requires
            fats >= 1,
            per_fat >= 1,
    ;
    let d = total - first;
    assert(d / n <= d && (d / n) * n <= d) by (nonlinear_arith)
        requires
            d >= 0,
            n >= 1,
    ;
    assert(count == d / n);
    super::lemma_data_sector_bounds(geometry, cluster, index);
}

/// No two sectors of the data area share a place.
pub proof fn law_data_sectors_are_distinct(
    geometry: Geometry,
    cluster_a: u32,
    index_a: int,
    cluster_b: u32,
    index_b: int,
)
    requires
        0 <= index_a < geometry.sectors_per_cluster,
        0 <= index_b < geometry.sectors_per_cluster,
        geometry.data_sector(cluster_a, index_a) == geometry.data_sector(cluster_b, index_b),
    ensures
        cluster_a == cluster_b,
        index_a == index_b,
{
    let a = cluster_a - 2;
    let b = cluster_b - 2;
    let n = geometry.sectors_per_cluster as int;
    assert(a == b) by (nonlinear_arith)
        requires
            a * n + index_a == b * n + index_b,
            0 <= index_a < n,
            0 <= index_b < n,
    ;
}

/// Each sector of each cluster of a mounted volume has a place of its own behind the
/// allocation table and within the volume.
pub proof fn law_clusters_have_places_of_their_own(
    boot_sector: Seq<u8>,
    device_sectors: u64,
    geometry: Geometry,
    cluster_a: u32,
    index_a: int,
    cluster_b: u32,
    index_b: int,
)
    requires
        model::boot_sector_geometry(boot_sector, device_sectors) == Ok::<
            Geometry,
            FsError,
        >(geometry),
        geometry.has_cluster(cluster_a),
        geometry.has_cluster(cluster_b),
        0 <= index_a < geometry.sectors_per_cluster,
        0 <= index_b < geometry.sectors_per_cluster,
    ensures
        geometry.first_data_sector <= geometry.data_sector(cluster_a, index_a)
            < model::volume_sectors(boot_sector),
        geometry.data_sector(cluster_a, index_a) == geometry.data_sector(cluster_b, index_b) <==> (
        cluster_a == cluster_b && index_a == index_b),
{
    law_mounted_volume_lies_on_device(
        boot_sector,
        device_sectors,
        geometry,
        cluster_a,
        index_a,
    );
    if geometry.data_sector(cluster_a, index_a) == geometry.data_sector(cluster_b, index_b) {
        law_data_sectors_are_distinct(geometry, cluster_a, index_a, cluster_b, index_b);
    }
}

/// A chain yields no more sectors than its budget of clusters holds: reading a volume
/// comes to an end, whatever its allocation table says.
pub proof fn law_chains_are_bounded<D: BlockDevice>(
    device: D,
    geometry: Geometry,
    cluster: u32,
    index: int,
    budget: nat,
)
    requires
        0 <= index <= geometry.sectors_per_cluster,
    ensures
        model::stream_from(device, geometry, cluster, index, budget).sectors.len()
            <= budget * geometry.sectors_per_cluster,
        budget > 0 ==> model::stream_from(
            device,
            geometry,
            cluster,
            index,
            budget,
        ).sectors.len() <= budget * geometry.sectors_per_cluster - index,
    decreases budget, geometry.sectors_per_cluster - index,
{
    let n = geometry.sectors_per_cluster as int;
    if budget > 0 {
        assert(budget * n == (budget - 1) * n + n) by (nonlinear_arith);
        assert((budget - 1) * n >= 0) by (nonlinear_arith)
            requires
                budget >= 1,
                n >= 0,
        ;
        if index < geometry.sectors_per_cluster {
            law_chains_are_bounded(device, geometry, cluster, index + 1, budget);
        } else {
            match model::successor(device, geometry, cluster) {
                Ok(Some(next)) => {
                    law_chains_are_bounded(device, geometry, next, 0, (budget - 1) as nat);
                },
                _ => {},
            }
        }
    } else {
        assert(budget * n == 0) by (nonlinear_arith)
            requires
                budget == 0,
        ;
    }
}

/// The cluster that comes `n` links after `cluster`, if the links lead that far.
pub open spec fn nth_cluster<D: BlockDevice>(
    device: D,
    geometry: Geometry,
    cluster: u32,
    n: nat,
) -> Option<u32>
    decreases n,
{
    if n == 0 {
        Some(cluster)
    } else {
        match model::successor(device, geometry, cluster) {
            Ok(Some(next)) => nth_cluster(device, geometry, next, (n - 1) as nat),
            _ => None,
        }
    }
}

/// A chain that used up its budget went through that many links.
proof fn lemma_loop_error_means_links<D: BlockDevice>(
    device: D,
    geometry: Geometry,
    cluster: u32,
    index: int,
    budget: nat,
    n: nat,
)
    requires
        geometry.has_cluster(cluster),
        model::stream_from(device, geometry, cluster, index, budget).end == Err::<
            (),
            FsError,
        >(FsError::DirectoryLoop),
        n < budget,
    ensures
        nth_cluster(device, geometry, cluster, n) matches Some(reached) && geometry.has_cluster(
            reached,
        ),
    decreases budget, geometry.sectors_per_cluster - index,
{
    if index < geometry.sectors_per_cluster {
        lemma_loop_error_means_links(device, geometry, cluster, index + 1, budget, n);
    } else {
        match model::successor(device, geometry, cluster) {
            Ok(Some(next)) => {
                if n > 0 {
                    lemma_loop_error_means_links(
                        device,
                        geometry,
                        next,
                        0,
                        (budget - 1) as nat,
                        (n - 1) as nat,
                    );
                }
            },
            _ => {},
        }
    }
}

/// A loop is reported only of a chain that comes back to a cluster: a chain without a
/// loop is never taken for one.
pub proof fn law_loop_error_means_loop<D: BlockDevice>(
    device: D,
    geometry: Geometry,
    cluster: u32,
)
    requires
        geometry.has_cluster(cluster),
        model::chain_stream(device, geometry, cluster).end == Err::<(), FsError>(
            FsError::DirectoryLoop,
        ),
    ensures
        exists|i: nat, j: nat|
            i < j <= geometry.cluster_count && nth_cluster(device, geometry, cluster, i) is Some
                && #[trigger] nth_cluster(device, geometry, cluster, i)
                == #[trigger] nth_cluster(device, geometry, cluster, j),
{
    let count = geometry.cluster_count as nat;
    let reached = Seq::new(
        count + 1,
        |i: int| nth_cluster(device, geometry, cluster, i as nat).unwrap() as int,
    );
    assert forall|i: int| 0 <= i <= count implies 2 <= #[trigger] reached[i] < count + 2
        && nth_cluster(device, geometry, cluster, i as nat) is Some by {
        lemma_loop_error_means_links(device, geometry, cluster, 0, count + 1, i as nat);
    }
    if reached.no_duplicates() {
        let range = vstd::set_lib::set_int_range(2, count as int + 2);
        vstd::set_lib::lemma_int_range(2, count as int + 2);
        reached.unique_seq_to_set();
        assert(reached.to_set().subset_of(range));
        vstd::set_lib::lemma_len_subset(reached.to_set(), range);
    }
    let (i, j) = choose|i: int, j: int|
        0 <= i < reached.len() && 0 <= j < reached.len() && i != j && reached[i] == reached[j];
    let low = if i < j {
        i as nat
    } else {
        j as nat
    };
    let high = if i < j {
        j as nat
    } else {
        i as nat
    };
    assert(reached[low as int] == reached[high as int]);
    assert(nth_cluster(device, geometry, cluster, low) == nth_cluster(
        device,
        geometry,
        cluster,
        high,
    ));
}

pub proof fn lemma_stream_sectors_are_whole<D: BlockDevice>(
    device: D,
    geometry: Geometry,
    cluster: u32,
    index: int,
    budget: nat,
    i: int,
)
    requires
        0 <= i < model::stream_from(
            device,
            geometry,
            cluster,
            index,
            budget,
        ).sectors.len(),
    ensures
        model::stream_from(
            device,
            geometry,
            cluster,
            index,
            budget,
        ).sectors[i].len() == 512,
    decreases budget, geometry.sectors_per_cluster - index,
{
    if budget > 0 {
        if index < geometry.sectors_per_cluster {
            if i > 0 {
                lemma_stream_sectors_are_whole(device, geometry, cluster, index + 1, budget, i - 1);
            }
        } else {
            match model::successor(device, geometry, cluster) {
                Ok(Some(next)) => {
                    lemma_stream_sectors_are_whole(
                        device,
                        geometry,
                        next,
                        0,
                        (budget - 1) as nat,
                        i,
                    );
                },
                _ => {},
            }
        }
    }
}

/// The bytes in a list of chunks.
pub open spec fn byte_count(chunks: Seq<Seq<u8>>) -> nat
    decreases chunks.len(),
{
    if chunks.len() == 0 {
        0
    } else {
        byte_count(chunks.drop_last()) + chunks.last().len()
    }
}

proof fn lemma_byte_count_of_whole_sectors(chunks: Seq<Seq<u8>>)
    requires
        forall|i: int| 0 <= i < chunks.len() ==> chunks[i].len() == 512,
    ensures
        byte_count(chunks) == 512 * chunks.len(),
    decreases chunks.len(),
{
    if chunks.len() > 0 {
        lemma_byte_count_of_whole_sectors(chunks.drop_last());
    }
}

/// A file that is read to its end hands out exactly as many bytes as its entry says.
pub proof fn law_read_file_gives_its_size<D: BlockDevice>(
    device: D,
    geometry: Geometry,
    entry: EntryModel,
    size: usize,
)
    requires
        model::file_of(device, geometry, entry).end == Ok::<usize, FsError>(size),
    ensures
        size == entry.size,
        byte_count(model::file_of(device, geometry, entry).chunks) == size,
{
    let chunks = model::file_of(device, geometry, entry).chunks;
    if entry.size > 0 {
        let stream = model::chain_stream(device, geometry, entry.first_cluster);
        let full = model::sectors_for(entry.size as int) - 1;
        assert forall|i: int| 0 <= i <= full implies stream.sectors[i].len() == 512 by {
            lemma_stream_sectors_are_whole(
                device,
                geometry,
                entry.first_cluster,
                0,
                (geometry.cluster_count + 1) as nat,
                i,
            );
        }
        lemma_byte_count_of_whole_sectors(chunks.drop_last());
    }
}

/// A name of one to twelve ASCII characters, none of them a space, that starts neither
/// with a dot nor with a zero. The entry is no volume label and no record of a long name,
/// and no deleted one: those start with a byte that is not ASCII.
pub open spec fn is_plain_entry(entry: EntryModel) -> bool {
    &&& 1 <= entry.name.len() <= 12
    &&& entry.name[0] != '.'
    &&& entry.name[0] as int != 0
    &&& forall|k: int|
        0 <= k < entry.name.len() ==> (#[trigger] entry.name[k]) as int <= 127 && entry.name[k]
            != ' '
    &&& entry.attributes & ATTR_VOLUME_ID == 0
    &&& entry.attributes != ATTR_LONG_FILE_NAME
}

/// Directories show plain entries only.
pub proof fn law_directories_show_plain_entries<D: BlockDevice>(
    device: D,
    geometry: Geometry,
    cluster: u32,
    i: int,
)
    requires
        0 <= i < model::directory(device, geometry, cluster).entries.len(),
    ensures
        is_plain_entry(model::directory(device, geometry, cluster).entries[i]),
{
    let budget = (geometry.cluster_count + 1) as nat;
    let sectors = model::chain_stream(device, geometry, cluster).sectors;
    assert forall|k: int| 0 <= k < sectors.len() implies (#[trigger] sectors[k]).len() == 512 by {
        lemma_stream_sectors_are_whole(device, geometry, cluster, 0, budget, k);
    }
    super::lemma_end_slot(sectors, 0, 0);
    lemma_before_end_slot(sectors, 0);
    lemma_shown_entries(sectors, model::end_slot(sectors, 0), i);
}

/// Whatever path is listed, only plain entries are shown.
pub proof fn law_listings_show_plain_entries<D: BlockDevice>(
    device: D,
    geometry: Geometry,
    path: Seq<char>,
    i: int,
)
    requires
        0 <= i < model::listing_at(device, geometry, path).entries.len(),
    ensures
        is_plain_entry(model::listing_at(device, geometry, path).entries[i]),
{
    let parts = model::components(path);
    let cluster = if parts.len() == 0 {
        geometry.root_cluster
    } else {
        model::resolve(device, geometry, geometry.root_cluster, parts)->Ok_0.first_cluster
    };
    law_directories_show_plain_entries(device, geometry, cluster, i);
}

/// No slot before the one that ends a directory ends it.
proof fn lemma_before_end_slot(sectors: Seq<Seq<u8>>, from: int)
    ensures
        forall|k: int|
            from <= k < model::end_slot(sectors, from) ==> !model::slot_ends(
                #[trigger] model::slot_at(sectors, k),
            ),
    decreases 16 * sectors.len() - from,
{
    if from < 16 * sectors.len() && !model::slot_ends(model::slot_at(sectors, from)) {
        lemma_before_end_slot(sectors, from + 1);
    }
}

/// The text of a field holds no space.
proof fn lemma_text_has_no_space(field: Seq<u8>)
    ensures
        forall|i: int| 0 <= i < model::text_len(field) ==> (#[trigger] field[i]) != 0x20,
    decreases field.len(),
{
    if field.len() > 0 && field[0] != 0x20 {
        lemma_text_has_no_space(field.skip(1));
        super::lemma_text_len_at_least(field, 0);
        assert forall|i: int| 0 <= i < model::text_len(field) implies (#[trigger] field[i])
            != 0x20 by {
            if i > 0 {
                assert(field[i] == field.skip(1)[i - 1]);
            }
        }
    }
}

proof fn lemma_shown_entries(sectors: Seq<Seq<u8>>, slots: int, i: int)
    requires
        forall|k: int| 0 <= k < sectors.len() ==> (#[trigger] sectors[k]).len() == 512,
        0 <= slots <= 16 * sectors.len(),
        forall|k: int|
            0 <= k < slots ==> !model::slot_ends(#[trigger] model::slot_at(sectors, k)),
        0 <= i < model::entries_before(sectors, slots).len(),
    ensures
        is_plain_entry(model::entries_before(sectors, slots)[i]),
    decreases slots,
{
    let earlier = model::entries_before(sectors, slots - 1);
    if i < earlier.len() {
        lemma_shown_entries(sectors, slots - 1, i);
    } else {
        let slot = model::slot_at(sectors, slots - 1);
        assert(slot.len() == 32);
        let name = model::slot_name(slot);
        let stem = slot.subrange(0, 8);
        let extension = slot.subrange(8, 11);
        super::lemma_text_len_at_least(stem, 0);
        super::lemma_text_len_at_least(extension, 0);
        lemma_text_has_no_space(stem);
        lemma_text_has_no_space(extension);
        let n = model::text_len(stem) as int;
        assert(name[0] == slot[0]);
        assert(!model::slot_ends(slot));
        let entry = model::entries_before(sectors, slots)[i];
        assert(ATTR_LONG_FILE_NAME & ATTR_VOLUME_ID == ATTR_VOLUME_ID) by (bit_vector);
        assert(entry.name == model::ascii_text(name));
        assert forall|k: int| 0 <= k < entry.name.len() implies (
        #[trigger] entry.name[k]) as int <= 127 && entry.name[k] != ' ' by {
            assert(name[k] < 128);
            if k < n {
                assert(name[k] == stem[k]);
            } else if k > n {
                assert(name[k] == extension[k - n - 1]);
            }
        }
    }
}

/// What a directory lists can be looked up by the name that it lists: the first entry
/// with that name is found, even where the directory cannot be read to its end.
pub proof fn law_listed_entries_are_found(listing: Listing, i: int)
    requires
        0 <= i < listing.entries.len(),
    ensures
        exists|j: int|
            0 <= j <= i && model::same_name(
                #[trigger] listing.entries[j].name,
                listing.entries[i].name,
            ) && model::lookup(listing, listing.entries[i].name) == Ok::<
                EntryModel,
                FsError,
            >(listing.entries[j]),
        (forall|j: int|
            0 <= j < i ==> !model::same_name(
                #[trigger] listing.entries[j].name,
                listing.entries[i].name,
            )) ==> model::lookup(listing, listing.entries[i].name) == Ok::<
            EntryModel,
            FsError,
        >(listing.entries[i]),
{
    let name = listing.entries[i].name;
    lemma_position_of_listed(listing.entries, name, 0, i);
    let j = model::name_position(listing.entries, name, 0);
    assert(model::same_name(listing.entries[j].name, name));
}

proof fn lemma_position_of_listed(
    entries: Seq<EntryModel>,
    name: Seq<char>,
    from: int,
    i: int,
)
    requires
        0 <= from <= i < entries.len(),
        model::same_name(entries[i].name, name),
    ensures
        from <= model::name_position(entries, name, from) <= i,
        model::same_name(
            entries[model::name_position(entries, name, from)].name,
            name,
        ),
    decreases i - from,
{
    if !model::same_name(entries[from].name, name) {
        lemma_position_of_listed(entries, name, from + 1, i);
    }
}

/// A slash cuts a path in two: the parts on its left come first, then those on its
/// right. So slashes in front, behind or doubled change nothing.
pub proof fn law_slash_cuts_path(left: Seq<char>, right: Seq<char>)
    ensures
        model::components(left.push('/') + right)
            == model::components(left) + model::components(right),
    decreases left.len(),
{
    let path = left.push('/') + right;
    if left.len() == 0 {
        assert(path.skip(1) =~= right);
    } else if left[0] == '/' {
        law_slash_cuts_path(left.skip(1), right);
        assert(path.skip(1) =~= left.skip(1).push('/') + right);
    } else {
        let n = model::segment_len(left) as int;
        lemma_segment_of_prefix(left, right);
        assert(path.take(n) =~= left.take(n));
        assert(path[0] == left[0]);
        assert(n >= 1);
        assert(model::components(path) == seq![left.take(n)] + model::components(path.skip(n)));
        if n < left.len() {
            law_slash_cuts_path(left.skip(n), right);
            assert(path.skip(n) =~= left.skip(n).push('/') + right);
            assert(model::components(left) == seq![left.take(n)] + model::components(left.skip(n)));
        } else {
            assert(path.skip(n).skip(1) =~= right);
            assert(path.skip(n)[0] == '/');
            assert(model::components(path.skip(n)) == model::components(right));
            assert(model::components(left) =~= seq![left.take(n)]);
        }
        assert(model::components(path) =~= model::components(left) + model::components(right));
    }
}

proof fn lemma_segment_of_prefix(left: Seq<char>, right: Seq<char>)
    ensures
        model::segment_len(left.push('/') + right)
            == model::segment_len(left),
        model::segment_len(left) <= left.len(),
    decreases left.len(),
{
    let path = left.push('/') + right;
    if left.len() == 0 {
        assert(path[0] == '/');
    } else if left[0] != '/' {
        lemma_segment_of_prefix(left.skip(1), right);
        assert(path.skip(1) =~= left.skip(1).push('/') + right);
    }
}

/// Two lists of parts that differ at most in the case of ASCII letters.
pub open spec fn same_parts(a: Seq<Seq<char>>, b: Seq<Seq<char>>) -> bool {
    a.len() == b.len() && forall|i: int|
        0 <= i < a.len() ==> model::same_name(#[trigger] a[i], b[i])
}

proof fn lemma_segments_ignore_case(a: Seq<char>, b: Seq<char>)
    requires
        model::same_name(a, b),
    ensures
        model::segment_len(a) == model::segment_len(b),
        model::segment_len(a) <= a.len(),
    decreases a.len(),
{
    if a.len() > 0 {
        assert(model::fold_case(a[0]) == model::fold_case(b[0]));
        if a[0] != '/' {
            assert(model::same_name(a.skip(1), b.skip(1)));
            lemma_segments_ignore_case(a.skip(1), b.skip(1));
        }
    }
}

proof fn lemma_components_ignore_case(a: Seq<char>, b: Seq<char>)
    requires
        model::same_name(a, b),
    ensures
        same_parts(model::components(a), model::components(b)),
    decreases a.len(),
{
    if a.len() > 0 {
        assert(model::fold_case(a[0]) == model::fold_case(b[0]));
        if a[0] == '/' {
            assert(model::same_name(a.skip(1), b.skip(1)));
            lemma_components_ignore_case(a.skip(1), b.skip(1));
        } else {
            let n = model::segment_len(a) as int;
            lemma_segments_ignore_case(a, b);
            assert(model::same_name(a.take(n), b.take(n)));
            assert(model::same_name(a.skip(n), b.skip(n)));
            if n < a.len() {
                lemma_components_ignore_case(a.skip(n), b.skip(n));
            }
        }
    }
}

proof fn lemma_lookup_ignores_case(listing: Listing, a: Seq<char>, b: Seq<char>)
    requires
        model::same_name(a, b),
    ensures
        model::lookup(listing, a) == model::lookup(listing, b),
{
    lemma_position_ignores_case(listing.entries, a, b, 0);
}

proof fn lemma_position_ignores_case(
    entries: Seq<EntryModel>,
    a: Seq<char>,
    b: Seq<char>,
    from: int,
)
    requires
        model::same_name(a, b),
        0 <= from,
    ensures
        model::name_position(entries, a, from)
            == model::name_position(entries, b, from),
    decreases entries.len() - from,
{
    if from < entries.len() {
        let name = entries[from].name;
        assert(model::same_name(name, a) == model::same_name(name, b));
        lemma_position_ignores_case(entries, a, b, from + 1);
    }
}

proof fn lemma_resolve_ignores_case<D: BlockDevice>(
    device: D,
    geometry: Geometry,
    cluster: u32,
    a: Seq<Seq<char>>,
    b: Seq<Seq<char>>,
)
    requires
        same_parts(a, b),
    ensures
        model::resolve(device, geometry, cluster, a)
            == model::resolve(device, geometry, cluster, b),
    decreases a.len(),
{
    if a.len() > 0 {
        let listing = model::directory(device, geometry, cluster);
        assert(model::same_name(a[0], b[0]));
        lemma_lookup_ignores_case(listing, a[0], b[0]);
        lemma_dot_names_have_no_case(a[0], b[0]);
        lemma_dot_names_have_no_case(b[0], a[0]);
        if let Ok(entry) = model::lookup(listing, a[0]) {
            if a.len() > 1 {
                assert(same_parts(a.skip(1), b.skip(1)));
                lemma_resolve_ignores_case(
                    device,
                    geometry,
                    entry.first_cluster,
                    a.skip(1),
                    b.skip(1),
                );
            }
        }
    }
}

proof fn lemma_dot_names_have_no_case(a: Seq<char>, b: Seq<char>)
    requires
        model::same_name(a, b),
    ensures
        model::is_dot_name(a) ==> model::is_dot_name(b),
{
    if model::is_dot_name(a) {
        assert forall|i: int| 0 <= i < a.len() implies b[i] == '.' by {
            assert(model::fold_case(a[i]) == model::fold_case(b[i]));
            assert(a[i] == '.');
        }
        if a.len() == 1 {
            assert(b =~= seq!['.']);
        } else {
            assert(b =~= seq!['.', '.']);
        }
    }
}

/// Paths that differ only in the case of ASCII letters name the same directory and the
/// same file.
pub proof fn law_paths_ignore_case<D: BlockDevice>(
    device: D,
    geometry: Geometry,
    a: Seq<char>,
    b: Seq<char>,
)
    requires
        model::same_name(a, b),
    ensures
        model::listing_at(device, geometry, a)
            == model::listing_at(device, geometry, b),
        model::file_at(device, geometry, a)
            == model::file_at(device, geometry, b),
{
    lemma_components_ignore_case(a, b);
    lemma_resolve_ignores_case(
        device,
        geometry,
        geometry.root_cluster,
        model::components(a),
        model::components(b),
    );
}

/// A path without slashes is one part.
pub proof fn lemma_single_component(name: Seq<char>)
    requires
        name.len() > 0,
        forall|i: int| 0 <= i < name.len() ==> (#[trigger] name[i]) != '/',
    ensures
        model::components(name) == seq![name],
{
    super::lemma_segment_len(name, name.len() as int);
    assert(name.take(name.len() as int) =~= name);
    assert(model::components(name) =~= seq![name]);
}

/// The last part of a path is looked up in the directory that the parts before it name.
proof fn lemma_resolve_in_directory<D: BlockDevice>(
    device: D,
    geometry: Geometry,
    cluster: u32,
    parts: Seq<Seq<char>>,
    name: Seq<char>,
)
    requires
        parts.len() > 0,
        !model::is_dot_name(name),
        model::resolve(device, geometry, cluster, parts) matches Ok(entry)
            && entry.is_directory(),
    ensures
        model::resolve(device, geometry, cluster, parts.push(name)) == model::lookup(
            model::directory(
                device,
                geometry,
                model::resolve(device, geometry, cluster, parts)->Ok_0.first_cluster,
            ),
            name,
        ),
    decreases parts.len(),
{
    let longer = parts.push(name);
    assert(longer[0] == parts[0]);
    assert(longer.skip(1) =~= parts.skip(1).push(name));
    if let Ok(first) = model::lookup(model::directory(device, geometry, cluster), parts[0]) {
        if parts.len() > 1 {
            lemma_resolve_in_directory(
                device,
                geometry,
                first.first_cluster,
                parts.skip(1),
                name,
            );
        } else {
            assert(longer.skip(1) =~= seq![name]);
            assert(model::resolve(device, geometry, first.first_cluster, seq![name])
                == model::lookup(
                model::directory(device, geometry, first.first_cluster),
                name,
            ));
        }
    }
}

/// An error of a path: the path leads nowhere, through a file, or to a directory.
pub open spec fn is_path_error<T>(outcome: Result<T, FsError>) -> bool {
    outcome matches Err(error) && (error is NotFound || error is NotDirectory
        || error is IsDirectory)
}

/// Following a chain meets no error of a path.
proof fn lemma_chain_without_path_error<D: BlockDevice>(
    device: D,
    geometry: Geometry,
    cluster: u32,
    index: int,
    budget: nat,
)
    ensures
        !is_path_error(model::stream_from(device, geometry, cluster, index, budget).end),
    decreases budget, geometry.sectors_per_cluster - index,
{
    if budget > 0 {
        if index < geometry.sectors_per_cluster {
            lemma_chain_without_path_error(device, geometry, cluster, index + 1, budget);
        } else if let Ok(Some(next)) = model::successor(device, geometry, cluster) {
            lemma_chain_without_path_error(device, geometry, next, 0, (budget - 1) as nat);
        }
    }
}

/// What a directory lists is found by the directory's path, a slash and the listed name,
/// where no entry before it has the name and the name holds no slash. So a listed file is
/// read by that path: the path never leads nowhere, through a file or to a directory, and
/// where the file is read to its end, the size is the listed one.
pub proof fn law_listed_files_are_read<D: BlockDevice>(
    device: D,
    geometry: Geometry,
    path: Seq<char>,
    i: int,
)
    requires
        0 <= i < model::listing_at(device, geometry, path).entries.len(),
        ({
            let entries = model::listing_at(device, geometry, path).entries;
            &&& forall|j: int|
                0 <= j < i ==> !model::same_name(#[trigger] entries[j].name, entries[i].name)
            &&& forall|k: int|
                0 <= k < entries[i].name.len() ==> (#[trigger] entries[i].name[k]) != '/'
        }),
    ensures
        ({
            let entry = model::listing_at(device, geometry, path).entries[i];
            let file = path.push('/') + entry.name;
            &&& model::resolve(
                device,
                geometry,
                geometry.root_cluster,
                model::components(file),
            ) == Ok::<EntryModel, FsError>(entry)
            &&& model::file_at(device, geometry, file) == model::file_of(device, geometry, entry)
            &&& entry.is_directory() ==> model::listing_at(device, geometry, file)
                == model::directory(device, geometry, entry.first_cluster)
            &&& !entry.is_directory() ==> !is_path_error(
                model::file_at(device, geometry, file).end,
            )
            &&& model::file_at(device, geometry, file).end matches Ok(size) ==> size == entry.size
                && byte_count(model::file_at(device, geometry, file).chunks) == size
        }),
{
    let listing = model::listing_at(device, geometry, path);
    let entry = listing.entries[i];
    let name = entry.name;
    let parts = model::components(path);
    let root = geometry.root_cluster;
    let cluster = if parts.len() == 0 {
        root
    } else {
        model::resolve(device, geometry, root, parts)->Ok_0.first_cluster
    };
    assert(listing == model::directory(device, geometry, cluster));
    law_directories_show_plain_entries(device, geometry, cluster, i);
    law_listed_entries_are_found(listing, i);
    law_slash_cuts_path(path, name);
    lemma_single_component(name);
    assert(model::components(path.push('/') + name) =~= parts.push(name));
    assert(!model::is_dot_name(name)) by {
        assert(name[0] != '.');
    }
    if parts.len() == 0 {
        assert(parts.push(name) =~= seq![name]);
        assert(model::resolve(device, geometry, root, seq![name]) == model::lookup(listing, name));
    } else {
        lemma_resolve_in_directory(device, geometry, root, parts, name);
    }
    lemma_chain_without_path_error(
        device,
        geometry,
        entry.first_cluster,
        0,
        (geometry.cluster_count + 1) as nat,
    );
    if let Ok(size) = model::file_of(device, geometry, entry).end {
        law_read_file_gives_its_size(device, geometry, entry, size);
    }
}

/// Whether a device gives every sector that it reports.
pub open spec fn serves_all_sectors<D: BlockDevice>(device: D) -> bool {
    forall|lba: u32| lba < device.total_sectors() ==> (#[trigger] device.sector(lba)) is Ok
}

/// Whether an outcome is an error of the device.
pub open spec fn is_device_error<T>(outcome: Result<T, FsError>) -> bool {
    outcome matches Err(error) && error is Device
}

/// A volume that was mounted on a device: the device's boot sector describes it.
pub open spec fn is_mounted<D: BlockDevice>(device: D, geometry: Geometry) -> bool {
    device.sector(0) matches Ok(sector) && model::boot_sector_geometry(
        sector@,
        device.total_sectors(),
    ) == Ok::<Geometry, FsError>(geometry)
}

proof fn lemma_chain_without_device_error<D: BlockDevice>(
    device: D,
    geometry: Geometry,
    cluster: u32,
    index: int,
    budget: nat,
)
    requires
        serves_all_sectors(device),
        is_mounted(device, geometry),
        geometry.has_cluster(cluster),
        0 <= index <= geometry.sectors_per_cluster,
    ensures
        !is_device_error(model::stream_from(device, geometry, cluster, index, budget).end),
    decreases budget, geometry.sectors_per_cluster - index,
{
    if budget > 0 {
        let boot_sector = device.sector(0)->Ok_0@;
        let n = if index < geometry.sectors_per_cluster {
            index
        } else {
            0
        };
        law_mounted_volume_lies_on_device(
            boot_sector,
            device.total_sectors(),
            geometry,
            cluster,
            n,
        );
        if index < geometry.sectors_per_cluster {
            assert(device.sector(geometry.data_sector(cluster, index) as u32) is Ok);
            lemma_chain_without_device_error(device, geometry, cluster, index + 1, budget);
        } else {
            if cluster as int / 128 < geometry.sectors_per_fat {
                assert(device.sector(
                    (geometry.fat_start_sector + cluster as int / 128) as u32,
                ) is Ok);
            }
            if let Ok(Some(next)) = model::successor(device, geometry, cluster) {
                lemma_chain_without_device_error(
                    device,
                    geometry,
                    next,
                    0,
                    (budget - 1) as nat,
                );
            }
        }
    }
}

proof fn lemma_directory_without_device_error<D: BlockDevice>(
    device: D,
    geometry: Geometry,
    cluster: u32,
)
    requires
        serves_all_sectors(device),
        is_mounted(device, geometry),
    ensures
        !is_device_error(model::directory(device, geometry, cluster).end),
{
    if geometry.has_cluster(cluster) {
        lemma_chain_without_device_error(
            device,
            geometry,
            cluster,
            0,
            (geometry.cluster_count + 1) as nat,
        );
    }
}

proof fn lemma_resolve_without_device_error<D: BlockDevice>(
    device: D,
    geometry: Geometry,
    cluster: u32,
    parts: Seq<Seq<char>>,
)
    requires
        serves_all_sectors(device),
        is_mounted(device, geometry),
    ensures
        !is_device_error(model::resolve(device, geometry, cluster, parts)),
    decreases parts.len(),
{
    if parts.len() > 0 {
        lemma_directory_without_device_error(device, geometry, cluster);
        if let Ok(entry) = model::lookup(model::directory(device, geometry, cluster), parts[0]) {
            lemma_resolve_without_device_error(
                device,
                geometry,
                entry.first_cluster,
                parts.skip(1),
            );
        }
    }
}

/// On a device that gives every sector it reports, a mounted volume never gives a device
/// error, whatever path is listed or read.
pub proof fn law_sound_device_gives_no_device_error<D: BlockDevice>(
    device: D,
    geometry: Geometry,
    path: Seq<char>,
)
    requires
        serves_all_sectors(device),
        is_mounted(device, geometry),
    ensures
        !is_device_error(model::listing_at(device, geometry, path).end),
        !is_device_error(model::file_at(device, geometry, path).end),
{
    let parts = model::components(path);
    let root = geometry.root_cluster;
    lemma_resolve_without_device_error(device, geometry, root, parts);
    lemma_directory_without_device_error(device, geometry, root);
    if let Ok(entry) = model::resolve(device, geometry, root, parts) {
        lemma_directory_without_device_error(device, geometry, entry.first_cluster);
        if geometry.has_cluster(entry.first_cluster) {
            lemma_chain_without_device_error(
                device,
                geometry,
                entry.first_cluster,
                0,
                (geometry.cluster_count + 1) as nat,
            );
        }
    }
}

/// A volume that was mounted on a snapshot in memory never gives a device error.
pub proof fn law_ramdisk_gives_no_device_error(
    disk: RamDiskBlockDevice,
    geometry: Geometry,
    path: Seq<char>,
)
    requires
        disk.contents().len() % SECTOR_SIZE as nat == 0,
        disk.contents().len() <= u64::MAX,
        is_mounted(disk, geometry),
    ensures
        !is_device_error(model::listing_at(disk, geometry, path).end),
        !is_device_error(model::file_at(disk, geometry, path).end),
{
    assert forall|lba: u32| lba < disk.total_sectors() implies (#[trigger] disk.sector(
        lba,
    )) is Ok by {
        crate::storage::law_ramdisk_serves_its_sectors(disk, lba);
    }
    law_sound_device_gives_no_device_error(disk, geometry, path);
}

} // verus!
