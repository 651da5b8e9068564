//! Writing a fresh FAT32 volume onto a device.

use vstd::prelude::*;
use vstd::string::StringSliceAdditionalSpecFns;
use crate::encoding::le32;
use crate::vfs::fat32::{
    boot_sector, bpb_decodes_to, first_fat_sector, format_fat32, fresh_format, fsinfo_sector,
    lemma_bpb_decode_unique, lemma_format_mounts, bpb_mountable, recorded_sectors, volume_sectors, BpbFat32, Fat32Fs, FatDirEntry, FAT_ENTRY_EOC, MAX_SCAN_CLUSTERS,
};
use crate::vfs::fat32_dir::{dir_entry_at, dir_lookup, dir_scan, lemma_dir_entry_decode_unique, slot_entry, DirQuery};
use crate::vfs::inode::{VfsError, VfsResult};
use crate::vfs::racfs_volume::{has_sector, lemma_with_sector_index, sector_bytes, with_sector, write_device_sector};

verus! {

/// `d` is the device `d0` formatted as the fresh volume `fs` with label
/// `label`: the parameter block of `format_fat32` in sector 0 and its
/// backup in sector 6, both ending in the 0x55 0xAA signature; the FSInfo
/// sector 1; the FAT with entries 0 to 2 set (media byte, end of chain,
/// end of the root directory's chain) and every other entry free; the
/// root cluster zeroed; every other byte kept.
#[verifier::opaque]
pub open spec fn fresh_volume(d0: Seq<u8>, d: Seq<u8>, fs: Fat32Fs, label: Seq<u8>) -> bool {
    let total = (d0.len() / 512) as int;
    let spf = fs.bpb.sectors_per_fat_32 as int;
    &&& fresh_format(fs.bpb, total, label)
    &&& fs.fat_offset == 32
    &&& fs.data_offset == 32 + spf
    &&& fs.cluster_size == 512
    &&& fs.total_clusters == recorded_sectors(total) - (32 + spf)
    &&& d.len() == d0.len()
    &&& bpb_decodes_to(sector_bytes(d, 0), fs.bpb)
    &&& d[510] == 0x55u8 && d[511] == 0xAAu8
    &&& forall|j: int| 90 <= j < 510 ==> #[trigger] d[j] == 0u8
    &&& sector_bytes(d, 6) == sector_bytes(d, 0)
    &&& le32(sector_bytes(d, 1), 0) == 0x4161_5252
    &&& le32(sector_bytes(d, 1), 484) == 0x6141_7272
    &&& le32(sector_bytes(d, 1), 488) == 0xFFFF_FFFF
    &&& le32(sector_bytes(d, 1), 492) == 0xFFFF_FFFF
    &&& le32(sector_bytes(d, 1), 508) == 0xAA55_0000
    &&& forall|j: int| 512 + 4 <= j < 512 + 484 || 512 + 496 <= j < 512 + 508 ==> #[trigger] d[j] == 0u8
    &&& le32(sector_bytes(d, 32), 0) == 0x0FFF_FFF8
    &&& le32(sector_bytes(d, 32), 4) == FAT_ENTRY_EOC
    &&& le32(sector_bytes(d, 32), 8) == FAT_ENTRY_EOC
    &&& forall|j: int| 512 * 32 + 12 <= j < 512 * (33 + spf) ==> #[trigger] d[j] == 0u8
    &&& forall|j: int| 0 <= j < d.len() && !(j < 1024 || 512 * 6 <= j < 512 * 7 || 512 * 32 <= j < 512 * (33 + spf))
        ==> #[trigger] d[j] == d0[j]
}

/// Format `disk` (its whole sectors) as a fresh FAT32 volume labelled `label` (see [`format_fat32`] for the layout) and
/// mount it: NoSpace, with nothing written, below 256 sectors. The root
/// directory of the result is empty: every name looked up there is
/// NotFound.
pub fn format_volume(disk: &mut Vec<u8>, label: &str) -> (r: VfsResult<Fat32Fs>)
    ensures
        old(disk)@.len() / 512 < 256 ==> r == Err::<Fat32Fs, VfsError>(VfsError::NoSpace) && final(disk)@ == old(disk)@,
        old(disk)@.len() / 512 >= 256 ==> r is Ok && fresh_volume(old(disk)@, final(disk)@, r->Ok_0, label.spec_bytes()),
        r matches Ok(fs) ==> forall|name: Seq<u8>| #[trigger] dir_lookup(final(disk)@, fs, 2, name)
            == Err::<u32, VfsError>(VfsError::NotFound),
{
    let ghost d0 = disk@;
    let total = (disk.len() / 512) as u64;
    let bpb = match format_fat32(total, label) {
        Ok(b) => b,
        Err(e) => return Err(e),
    };
    let ghost tot = total as int;
    proof { lemma_format_mounts(bpb, tot, label.spec_bytes()); }
    let spf = bpb.sectors_per_fat_32 as u64;
    assert(32 + spf < total);
    assert(512 * (33 + spf) <= d0.len()) by (nonlinear_arith)
        requires
            32 + spf < total,
            total == d0.len() / 512,
    ;
    zero_fill(disk, 32, spf + 1);
    let zero = [0u8; 512];
    assert(forall|j: int| 0 <= j < 512 ==> zero@[j] == 0u8);
    let ghost da = disk@;
    let fat0 = first_fat_sector(bpb.media_type);
    let boot = boot_sector(&bpb);
    let info = fsinfo_sector();
    assert(has_sector(da, 32) && has_sector(da, 0) && has_sector(da, 6) && has_sector(da, 1));
    let _ = write_device_sector(disk, 32, &fat0);
    let ghost db = disk@;
    let _ = write_device_sector(disk, 0, &boot);
    let ghost dc = disk@;
    let _ = write_device_sector(disk, 6, &boot);
    let ghost dd = disk@;
    let _ = write_device_sector(disk, 1, &info);
    let ghost de = disk@;
    // The first entry of the zeroed root cluster: the end of the directory.
    let first = FatDirEntry::from_bytes(&zero, 0);
    proof { lemma_bpb_decode_unique(boot@, bpb); }
    let fs = match Fat32Fs::new(&boot) {
        Ok(f) => f,
        Err(e) => return Err(e),
    };
    proof {
        lemma_format_result(d0, da, db, dc, dd, de, bpb, fs, label.spec_bytes(), boot@, info@, fat0@, zero@, first);
    }
    Ok(fs)
}

/// Zero sectors `first` to `first + count - 1` of `disk`, keeping every
/// other byte.
fn zero_fill(disk: &mut Vec<u8>, first: u64, count: u64)
    requires
        512 * (first + count) <= old(disk)@.len(),
    ensures
        final(disk)@.len() == old(disk)@.len(),
        forall|j: int| 0 <= j < old(disk)@.len() ==> #[trigger] final(disk)@[j]
            == (if 512 * first <= j < 512 * (first + count) { 0u8 } else { old(disk)@[j] }),
{
    let ghost d0 = disk@;
    let _n = disk.len();
    let zero = [0u8; 512];
    assert(forall|j: int| 0 <= j < 512 ==> zero@[j] == 0u8);
    let mut s: u64 = 0;
    while s < count
        invariant
            d0.len() <= usize::MAX,
            512 * (first + count) <= d0.len(),
            s <= count,
            disk@.len() == d0.len(),
            forall|j: int| 0 <= j < 512 ==> zero@[j] == 0u8,
            forall|j: int| 0 <= j < d0.len() ==> #[trigger] disk@[j]
                == (if 512 * first <= j < 512 * (first + s) { 0u8 } else { d0[j] }),
        decreases count - s,
    {
        let ghost before = disk@;
        assert(has_sector(before, (first + s) as int));
        let _ = write_device_sector(disk, first + s, &zero);
        assert forall|j: int| 0 <= j < d0.len() implies #[trigger] disk@[j]
            == (if 512 * first <= j < 512 * (first + s + 1) { 0u8 } else { d0[j] }) by {
            lemma_with_sector_index(before, (first + s) as int, zero@, j);
        }
        s = s + 1;
    }
}

/// The volume `format_volume` leaves is fresh, and its root is empty.
proof fn lemma_format_result(
    d0: Seq<u8>,
    da: Seq<u8>,
    db: Seq<u8>,
    dc: Seq<u8>,
    dd: Seq<u8>,
    de: Seq<u8>,
    bpb: BpbFat32,
    fs: Fat32Fs,
    label: Seq<u8>,
    boot: Seq<u8>,
    info: Seq<u8>,
    fat0: Seq<u8>,
    zero: Seq<u8>,
    first: FatDirEntry,
)
    requires
        256 <= d0.len() / 512,
        fresh_format(bpb, (d0.len() / 512) as int, label),
        512 * (33 + bpb.sectors_per_fat_32) <= d0.len(),
        32 + bpb.sectors_per_fat_32 < d0.len() / 512,
        da.len() == d0.len(),
        forall|j: int| 0 <= j < d0.len() ==> #[trigger] da[j]
            == (if 512 * 32 <= j < 512 * (32 + (bpb.sectors_per_fat_32 + 1)) { 0u8 } else { d0[j] }),
        db == with_sector(da, 32, fat0),
        dc == with_sector(db, 0, boot),
        dd == with_sector(dc, 6, boot),
        de == with_sector(dd, 1, info),
        boot.len() == 512 && info.len() == 512 && fat0.len() == 512 && zero.len() == 512,
        forall|j: int| 0 <= j < 512 ==> zero[j] == 0u8,
        dir_entry_at(zero, 0, first),
        bpb_decodes_to(boot, bpb),
        boot[510] == 0x55u8 && boot[511] == 0xAAu8,
        forall|j: int| 90 <= j < 510 ==> boot[j] == 0u8,
        le32(info, 0) == 0x4161_5252,
        le32(info, 484) == 0x6141_7272,
        le32(info, 488) == 0xFFFF_FFFF,
        le32(info, 492) == 0xFFFF_FFFF,
        le32(info, 508) == 0xAA55_0000,
        forall|j: int| 4 <= j < 484 || 496 <= j < 508 ==> info[j] == 0u8,
        le32(fat0, 0) == (0x0FFF_FF00u32 | bpb.media_type as u32),
        le32(fat0, 4) == FAT_ENTRY_EOC,
        le32(fat0, 8) == FAT_ENTRY_EOC,
        forall|j: int| 12 <= j < 512 ==> fat0[j] == 0u8,
        ({
            let b = BpbFat32::spec_from(boot);
            let data = b.reserved_sectors as int + b.fat_count as int * b.sectors_per_fat_32 as int;
            let rest = if volume_sectors(b) > data { volume_sectors(b) - data } else { 0 };
            &&& bpb_mountable(b)
            &&& bpb_decodes_to(boot, fs.bpb)
            &&& fs.fat_offset == b.reserved_sectors
            &&& fs.data_offset == data
            &&& fs.cluster_size == b.sectors_per_cluster as int * 512
            &&& fs.total_clusters == rest / (b.sectors_per_cluster as int)
        }),
    ensures
        fresh_volume(d0, de, fs, label),
        forall|name: Seq<u8>| #[trigger] dir_lookup(de, fs, 2, name) == Err::<u32, VfsError>(VfsError::NotFound),
{
    let spf = bpb.sectors_per_fat_32 as int;
    let total = (d0.len() / 512) as int;
    lemma_bpb_decode_unique(boot, bpb);
    lemma_bpb_decode_unique(boot, fs.bpb);
    assert(fs.bpb == bpb);
    lemma_format_mounts(bpb, total, label);
    assert(bpb.media_type == 0xF8);
    assert((0x0FFF_FF00u32 | 0xF8u32) == 0x0FFF_FFF8u32) by (bit_vector);
    assert(fs.data_offset == 32 + spf);
    assert(fs.total_clusters == recorded_sectors(total) - (32 + spf));
    lemma_format_layout(d0, da, db, dc, dd, de, spf, boot, info, fat0);
    lemma_fresh_volume(d0, de, fs, label, boot, info, fat0);
    assert(has_sector(de, fs.data_offset as int)) by (nonlinear_arith)
        requires
            fs.data_offset == 32 + spf,
            512 * (33 + spf) <= d0.len(),
            de.len() == d0.len(),
    ;
    lemma_fresh_root_empty(de, fs, zero, first);
}

/// What the writes of `format_volume` leave: the boot sector in sectors 0
/// and 6, FSInfo in sector 1, the first FAT sector in sector 32, zeros in
/// the rest of the FAT and in the root cluster, everything else kept.
proof fn lemma_format_layout(
    d0: Seq<u8>,
    da: Seq<u8>,
    db: Seq<u8>,
    dc: Seq<u8>,
    dd: Seq<u8>,
    de: Seq<u8>,
    spf: int,
    boot: Seq<u8>,
    info: Seq<u8>,
    fat0: Seq<u8>,
)
    requires
        1 <= spf,
        512 * (33 + spf) <= d0.len(),
        boot.len() == 512 && info.len() == 512 && fat0.len() == 512,
        da.len() == d0.len(),
        forall|j: int| 0 <= j < d0.len() ==> #[trigger] da[j] == (if 512 * 32 <= j < 512 * (33 + spf) { 0u8 } else { d0[j] }),
        db == with_sector(da, 32, fat0),
        dc == with_sector(db, 0, boot),
        dd == with_sector(dc, 6, boot),
        de == with_sector(dd, 1, info),
    ensures
        de.len() == d0.len(),
        sector_bytes(de, 0) == boot,
        sector_bytes(de, 6) == boot,
        sector_bytes(de, 1) == info,
        sector_bytes(de, 32) == fat0,
        forall|j: int| 512 * 33 <= j < 512 * (33 + spf) ==> #[trigger] de[j] == 0u8,
        forall|j: int| 0 <= j < de.len() && !(j < 1024 || 512 * 6 <= j < 512 * 7 || 512 * 32 <= j < 512 * (33 + spf))
            ==> #[trigger] de[j] == d0[j],
{
    assert forall|j: int| 0 <= j < d0.len() implies #[trigger] de[j] == (
        if j < 512 { boot[j] }
        else if j < 1024 { info[j - 512] }
        else if 512 * 6 <= j < 512 * 7 { boot[j - 512 * 6] }
        else if 512 * 32 <= j < 512 * 33 { fat0[j - 512 * 32] }
        else { da[j] }) by {
        lemma_with_sector_index(da, 32, fat0, j);
        lemma_with_sector_index(db, 0, boot, j);
        lemma_with_sector_index(dc, 6, boot, j);
        lemma_with_sector_index(dd, 1, info, j);
    }
    assert(de.len() == d0.len()) by {
        lemma_with_sector_index(da, 32, fat0, 0);
        lemma_with_sector_index(db, 0, boot, 0);
        lemma_with_sector_index(dc, 6, boot, 0);
        lemma_with_sector_index(dd, 1, info, 0);
    }
    assert(sector_bytes(de, 0) =~= boot);
    assert(sector_bytes(de, 6) =~= boot);
    assert(sector_bytes(de, 1) =~= info);
    assert(sector_bytes(de, 32) =~= fat0);
}

/// The layout `format_volume` writes, with the sectors it writes, is a
/// fresh volume.
proof fn lemma_fresh_volume(d0: Seq<u8>, de: Seq<u8>, fs: Fat32Fs, label: Seq<u8>, boot: Seq<u8>, info: Seq<u8>, fat0: Seq<u8>)
    requires
        fresh_format(fs.bpb, (d0.len() / 512) as int, label),
        fs.fat_offset == 32,
        fs.data_offset == 32 + fs.bpb.sectors_per_fat_32,
        fs.cluster_size == 512,
        fs.total_clusters == recorded_sectors((d0.len() / 512) as int) - (32 + fs.bpb.sectors_per_fat_32),
        512 * (33 + fs.bpb.sectors_per_fat_32) <= d0.len(),
        de.len() == d0.len(),
        sector_bytes(de, 0) == boot,
        sector_bytes(de, 6) == boot,
        sector_bytes(de, 1) == info,
        sector_bytes(de, 32) == fat0,
        forall|j: int| 512 * 33 <= j < 512 * (33 + fs.bpb.sectors_per_fat_32) ==> #[trigger] de[j] == 0u8,
        forall|j: int| 0 <= j < de.len() && !(j < 1024 || 512 * 6 <= j < 512 * 7 || 512 * 32 <= j < 512 * (33 + fs.bpb.sectors_per_fat_32))
            ==> #[trigger] de[j] == d0[j],
        bpb_decodes_to(boot, fs.bpb),
        boot[510] == 0x55u8 && boot[511] == 0xAAu8,
        forall|j: int| 90 <= j < 510 ==> boot[j] == 0u8,
        le32(info, 0) == 0x4161_5252,
        le32(info, 484) == 0x6141_7272,
        le32(info, 488) == 0xFFFF_FFFF,
        le32(info, 492) == 0xFFFF_FFFF,
        le32(info, 508) == 0xAA55_0000,
        forall|j: int| 4 <= j < 484 || 496 <= j < 508 ==> info[j] == 0u8,
        le32(fat0, 0) == 0x0FFF_FFF8,
        le32(fat0, 4) == FAT_ENTRY_EOC,
        le32(fat0, 8) == FAT_ENTRY_EOC,
        forall|j: int| 12 <= j < 512 ==> fat0[j] == 0u8,
    ensures
        fresh_volume(d0, de, fs, label),
{
    reveal(fresh_volume);
    assert(de[510] == sector_bytes(de, 0)[510]);
    assert(de[511] == sector_bytes(de, 0)[511]);
    assert forall|j: int| 90 <= j < 510 implies #[trigger] de[j] == 0u8 by {
        assert(de[j] == sector_bytes(de, 0)[j]);
    }
    assert forall|j: int| 512 + 4 <= j < 512 + 484 || 512 + 496 <= j < 512 + 508 implies #[trigger] de[j] == 0u8 by {
        assert(de[j] == sector_bytes(de, 1)[j - 512]);
    }
    assert forall|j: int| 512 * 32 + 12 <= j < 512 * (33 + fs.bpb.sectors_per_fat_32) implies #[trigger] de[j] == 0u8 by {
        if j < 512 * 33 {
            assert(de[j] == sector_bytes(de, 32)[j - 512 * 32]);
        }
    }
}

/// A directory whose first cluster starts with 32 zero bytes on the
/// device holds nothing: every lookup in it is NotFound. (`w` is those
/// bytes decoded.)
proof fn lemma_fresh_root_empty(d: Seq<u8>, fs: Fat32Fs, zero: Seq<u8>, w: FatDirEntry)
    requires
        fs.bpb.sectors_per_cluster == 1,
        fs.data_offset >= 0,
        has_sector(d, fs.data_offset as int),
        zero.len() >= 32,
        forall|k: int| 0 <= k < 32 ==> zero[k] == 0u8,
        forall|j: int| 512 * fs.data_offset <= j < 512 * fs.data_offset + 512 ==> #[trigger] d[j] == 0u8,
        dir_entry_at(zero, 0, w),
    ensures
        forall|name: Seq<u8>| #[trigger] dir_lookup(d, fs, 2, name) == Err::<u32, VfsError>(VfsError::NotFound),
{
    let lba = fs.data_offset as int;
    let o = 512 * lba;
    assert forall|k: int| 0 <= k < 32 implies #[trigger] d[o + k] == zero[k] by {
        assert(d[o + k] == 0u8);
    }
    assert(dir_entry_at(d, o, w));
    lemma_dir_entry_decode_unique(d, o, w);
    assert(slot_entry(d, lba, 0) == w);
    assert(w.name@[0] == zero[0]);
    assert forall|name: Seq<u8>| #[trigger] dir_lookup(d, fs, 2, name) == Err::<u32, VfsError>(VfsError::NotFound) by {
        assert(dir_scan(d, fs, DirQuery::Named(name), 2, 0, MAX_SCAN_CLUSTERS as nat) == Ok::<Option<(int, int)>, VfsError>(None));
    }
}

} // verus!
