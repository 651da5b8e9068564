//! FAT32 directories on the device: 32-byte entries stored sixteen to a
//! sector along a directory's cluster chain, looked up by name or by first
//! cluster, and the files and subdirectories created in and removed from
//! them.

use vstd::prelude::*;
use crate::encoding::{le16, le32, read_le16, read_le32, write_le16, write_le32};
use crate::vfs::fat32::{bytes_at, copy_in, copy_out, entry_name, upper, Fat32Fs, FatDirEntry, ATTR_LFN,
    ATTR_VOLUME_ID, DIR_END, DIR_FREE, FAT_ENTRY_EOC_MIN, MAX_SCAN_CLUSTERS};
use crate::vfs::fat32_volume::{alloc_upper, cluster_lba, fat_entry, first_free_cluster, geometry_ok, in_entry_copies};
use crate::vfs::fat32::{encode_short_name, short_name, ATTR_ARCHIVE, ATTR_DIRECTORY, FAT_ENTRY_BAD, FAT_ENTRY_FREE};
use crate::vfs::path::{components, component_ranges, range_is_component};
use crate::vfs::inode::{VfsError, VfsResult};
use crate::vfs::racfs_volume::{has_sector, read_device_sector, sector_bytes, with_sector, write_device_sector};
use crate::vfs::fat32::entry_cluster;
use vstd::string::StringSliceAdditionalSpecFns;

verus! {

/// `e` is the directory entry stored at byte `o` of `d`.
pub open spec fn dir_entry_at(d: Seq<u8>, o: int, e: FatDirEntry) -> bool {
    &&& bytes_at(d, o, e.name@)
    &&& bytes_at(d, o + 8, e.ext@)
    &&& e.attr == d[o + 11]
    &&& e.nt_reserved == d[o + 12]
    &&& e.creation_time_tenths == d[o + 13]
    &&& e.creation_time == le16(d, o + 14)
    &&& e.creation_date == le16(d, o + 16)
    &&& e.last_access_date == le16(d, o + 18)
    &&& e.first_cluster_high == le16(d, o + 20)
    &&& e.write_time == le16(d, o + 22)
    &&& e.write_date == le16(d, o + 24)
    &&& e.first_cluster_low == le16(d, o + 26)
    &&& e.size == le32(d, o + 28)
}

impl FatDirEntry {
    /// The entry stored in the 32 bytes at `o` of `d`.
    pub closed spec fn spec_from(d: Seq<u8>, o: int) -> FatDirEntry {
        choose|e: FatDirEntry| #[trigger] dir_entry_at(d.subrange(o, o + 32), 0, e)
    }

    /// Decode the entry stored at byte `o` of `buf`.
    pub fn from_bytes(buf: &[u8], o: usize) -> (r: FatDirEntry)
        requires
            o + 32 <= buf@.len(),
        ensures
            dir_entry_at(buf@, o as int, r),
    {
        let _n = buf.len();
        let mut name = [0u8; 8];
        copy_in(&mut name, buf, o);
        let mut ext = [0u8; 3];
        copy_in(&mut ext, buf, o + 8);
        FatDirEntry {
            name,
            ext,
            attr: buf[o + 11],
            nt_reserved: buf[o + 12],
            creation_time_tenths: buf[o + 13],
            creation_time: read_le16(buf, o + 14),
            creation_date: read_le16(buf, o + 16),
            last_access_date: read_le16(buf, o + 18),
            first_cluster_high: read_le16(buf, o + 20),
            write_time: read_le16(buf, o + 22),
            write_date: read_le16(buf, o + 24),
            first_cluster_low: read_le16(buf, o + 26),
            size: read_le32(buf, o + 28),
        }
    }

    /// Store the entry at byte `o` of `buf`, leaving every other byte
    /// alone; decoding there gives it back.
    pub fn to_bytes(&self, buf: &mut [u8], o: usize)
        requires
            o + 32 <= old(buf)@.len(),
        ensures
            final(buf)@.len() == old(buf)@.len(),
            dir_entry_at(final(buf)@, o as int, *self),
            forall|j: int| 0 <= j < old(buf)@.len() && !(o <= j < o + 32) ==> final(buf)@[j] == old(buf)@[j],
    {
        let _n = buf.len();
        copy_out(buf, &self.name, o);
        copy_out(buf, &self.ext, o + 8);
        buf[o + 11] = self.attr;
        buf[o + 12] = self.nt_reserved;
        buf[o + 13] = self.creation_time_tenths;
        write_le16(buf, o + 14, self.creation_time);
        write_le16(buf, o + 16, self.creation_date);
        write_le16(buf, o + 18, self.last_access_date);
        write_le16(buf, o + 20, self.first_cluster_high);
        write_le16(buf, o + 22, self.write_time);
        write_le16(buf, o + 24, self.write_date);
        write_le16(buf, o + 26, self.first_cluster_low);
        write_le32(buf, o + 28, self.size);
    }
}

/// The bytes at `o` determine the entry they decode to.
pub proof fn lemma_dir_entry_decode_unique(d: Seq<u8>, o: int, e: FatDirEntry)
    requires
        0 <= o,
        o + 32 <= d.len(),
        dir_entry_at(d, o, e),
    ensures
        FatDirEntry::spec_from(d, o) == e,
{
    let sub = d.subrange(o, o + 32);
    assert forall|k: int| 0 <= k < 8 implies #[trigger] e.name@[k] == sub[0 + k] by {
        assert(e.name@[k] == d[o + k]);
    }
    assert forall|k: int| 0 <= k < 3 implies #[trigger] e.ext@[k] == sub[8 + k] by {
        assert(e.ext@[k] == d[o + 8 + k]);
    }
    assert(dir_entry_at(sub, 0, e));
    let c = FatDirEntry::spec_from(d, o);
    assert(dir_entry_at(sub, 0, c));
    assert forall|k: int| 0 <= k < 8 implies #[trigger] c.name@[k] == e.name@[k] by {
        assert(c.name@[k] == sub[0 + k]);
        assert(e.name@[k] == sub[0 + k]);
    }
    assert forall|k: int| 0 <= k < 3 implies #[trigger] c.ext@[k] == e.ext@[k] by {
        assert(c.ext@[k] == sub[8 + k]);
        assert(e.ext@[k] == sub[8 + k]);
    }
    assert(c.name@ =~= e.name@);
    assert(c.ext@ =~= e.ext@);
    assert(c.name == e.name);
    assert(c.ext == e.ext);
}

/// The entry in slot `slot` of sector `lba`.
pub open spec fn slot_entry(d: Seq<u8>, lba: int, slot: int) -> FatDirEntry {
    FatDirEntry::spec_from(d, 512 * lba + 32 * slot)
}

/// An entry that names a file or directory: not deleted, not part of a
/// long name, not the volume label.
pub open spec fn visible(e: FatDirEntry) -> bool {
    &&& e.name@[0] != DIR_FREE
    &&& e.attr & ATTR_LFN != ATTR_LFN
    &&& e.attr & ATTR_VOLUME_ID == 0
}

/// Equal byte strings but for the case of ASCII letters.
pub open spec fn ci_eq(a: Seq<u8>, b: Seq<u8>) -> bool {
    a.len() == b.len() && forall|i: int| 0 <= i < a.len() ==> #[trigger] upper(a[i]) == upper(b[i])
}

/// What a directory walk looks for.
pub enum SlotQuery<'a> {
    /// A visible entry whose `NAME.EXT` matches these UTF-8 bytes, ignoring
    /// ASCII case.
    Named(&'a [u8]),
    /// A visible entry whose first cluster is this one.
    Cluster(u32),
    /// Any entry but a deleted one, a long-name part, `.` or `..`.
    Occupied,
}

/// What a directory walk looks for, as the contracts see it.
pub enum DirQuery {
    Named(Seq<u8>),
    Cluster(u32),
    Occupied,
}

impl<'a> View for SlotQuery<'a> {
    type V = DirQuery;

    open spec fn view(&self) -> DirQuery {
        match *self {
            SlotQuery::Named(b) => DirQuery::Named(b@),
            SlotQuery::Cluster(c) => DirQuery::Cluster(c),
            SlotQuery::Occupied => DirQuery::Occupied,
        }
    }
}

/// Does entry `e` answer query `q`?
pub open spec fn query_hit(q: DirQuery, e: FatDirEntry) -> bool {
    match q {
        DirQuery::Named(b) => visible(e) && ci_eq(vstd::utf8::encode_utf8(entry_name(e)), b),
        DirQuery::Cluster(c) => visible(e) && crate::vfs::fat32::entry_cluster(e) == c,
        DirQuery::Occupied => {
            &&& e.name@[0] != DIR_FREE
            &&& e.attr & ATTR_LFN != ATTR_LFN
            &&& vstd::utf8::encode_utf8(entry_name(e)) != seq![46u8]
            &&& vstd::utf8::encode_utf8(entry_name(e)) != seq![46u8, 46u8]
        },
    }
}

/// Slots in one cluster: sixteen per sector.
pub open spec fn cluster_slots(fs: Fat32Fs) -> int {
    16 * fs.bpb.sectors_per_cluster
}

/// Walk the directory from slot `k` of cluster `c`, at most `fuel` more
/// clusters: the sector and slot of the first entry answering `q`; None
/// when the end-of-directory entry or the chain's end comes first;
/// IoError when a sector is not on the device or the walk runs out of
/// clusters; a FAT read's error.
pub open spec fn dir_scan(d: Seq<u8>, fs: Fat32Fs, q: DirQuery, c: u32, k: int, fuel: nat) -> VfsResult<Option<(int, int)>>
    decreases fuel, cluster_slots(fs) - k,
{
    if c < 2 || c >= FAT_ENTRY_EOC_MIN {
        Ok(None)
    } else if fuel == 0 {
        Err(VfsError::IoError)
    } else if k < 0 || k >= cluster_slots(fs) {
        match fat_entry(d, fs, c) {
            Err(e) => Err(e),
            Ok(n) => dir_scan(d, fs, q, n, 0, (fuel - 1) as nat),
        }
    } else {
        let lba = cluster_lba(fs, c) + k / 16;
        if !has_sector(d, lba) {
            Err(VfsError::IoError)
        } else if slot_entry(d, lba, k % 16).name@[0] == DIR_END {
            Ok(None)
        } else if query_hit(q, slot_entry(d, lba, k % 16)) {
            Ok(Some((lba, k % 16)))
        } else {
            dir_scan(d, fs, q, c, k + 1, fuel)
        }
    }
}

/// Byte strings equal but for ASCII case (`str::eq_ignore_ascii_case`).
fn bytes_eq_ignore_case(a: &[u8], b: &[u8]) -> (r: bool)
    ensures
        r == ci_eq(a@, b@),
{
    if a.len() != b.len() {
        return false;
    }
    let mut i: usize = 0;
    while i < a.len()
        invariant
            a@.len() == b@.len(),
            i <= a@.len(),
            forall|j: int| 0 <= j < i ==> #[trigger] upper(a@[j]) == upper(b@[j]),
        decreases a@.len() - i,
    {
        if crate::vfs::fat32::ascii_upper(a[i]) != crate::vfs::fat32::ascii_upper(b[i]) {
            return false;
        }
        i = i + 1;
    }
    true
}

/// Does entry `e` answer query `q`?
fn query_matches(q: &SlotQuery, e: &FatDirEntry) -> (r: bool)
    ensures
        r == query_hit(q@, *e),
{
    match q {
        SlotQuery::Named(b) => {
            if e.is_deleted() || e.is_lfn() || e.is_volume() {
                return false;
            }
            let n = e.get_name();
            let nb = n.as_str().as_bytes();
            bytes_eq_ignore_case(nb, b)
        },
        SlotQuery::Cluster(c) => {
            if e.is_deleted() || e.is_lfn() || e.is_volume() {
                return false;
            }
            e.get_cluster() == *c
        },
        SlotQuery::Occupied => {
            if e.is_deleted() || e.is_lfn() {
                return false;
            }
            let n = e.get_name();
            let nb = n.as_str().as_bytes();
            proof {
                if nb@.len() == 1 && nb@[0] == 46u8 { assert(nb@ =~= seq![46u8]); }
                if nb@.len() == 2 && nb@[0] == 46u8 && nb@[1] == 46u8 { assert(nb@ =~= seq![46u8, 46u8]); }
            }
            !(nb.len() == 1 && nb[0] == 46u8) && !(nb.len() == 2 && nb[0] == 46u8 && nb[1] == 46u8)
        },
    }
}

/// The entry decoded from slot `slot` of a sector read from the device is
/// the one the device holds there.
proof fn lemma_sector_slot(d: Seq<u8>, lba: int, sector: Seq<u8>, slot: int, e: FatDirEntry)
    requires
        has_sector(d, lba),
        sector == sector_bytes(d, lba),
        0 <= slot < 16,
        dir_entry_at(sector, 32 * slot, e),
    ensures
        slot_entry(d, lba, slot) == e,
{
    lemma_dir_entry_decode_unique(sector, 32 * slot, e);
    assert(sector.subrange(32 * slot, 32 * slot + 32) =~= d.subrange(512 * lba + 32 * slot, 512 * lba + 32 * slot + 32));
}

impl Fat32Fs {
    /// Walk the directory whose chain starts at `dir_cluster`, slot by
    /// slot, for the first entry answering `q` (see [`dir_scan`]): its
    /// sector, slot and entry.
    pub fn for_each_dir_slot(&self, disk: &Vec<u8>, dir_cluster: u32, q: &SlotQuery) -> (r: VfsResult<Option<(u64, usize, FatDirEntry)>>)
        requires
            geometry_ok(*self),
        ensures
            match dir_scan(disk@, *self, q@, dir_cluster, 0, MAX_SCAN_CLUSTERS as nat) {
                Err(e) => r == Err::<Option<(u64, usize, FatDirEntry)>, VfsError>(e),
                Ok(None) => r == Ok::<Option<(u64, usize, FatDirEntry)>, VfsError>(None),
                Ok(Some((lba, slot))) => r is Ok && r->Ok_0 is Some && r->Ok_0->Some_0.0 == lba
                    && r->Ok_0->Some_0.1 == slot && r->Ok_0->Some_0.2 == slot_entry(disk@, lba, slot),
            },
    {
        let ghost d = disk@;
        let mut cluster = dir_cluster;
        let mut fuel: u32 = MAX_SCAN_CLUSTERS;
        let spc = self.bpb.sectors_per_cluster as u64;
        while cluster >= 2 && cluster < FAT_ENTRY_EOC_MIN
            invariant
                geometry_ok(*self),
                d == disk@,
                spc == self.bpb.sectors_per_cluster,
                dir_scan(d, *self, q@, dir_cluster, 0, MAX_SCAN_CLUSTERS as nat)
                    == dir_scan(d, *self, q@, cluster, 0, fuel as nat),
            decreases fuel,
        {
            if fuel == 0 {
                return Err(VfsError::IoError);
            }
            proof {
                assert((cluster - 2) * self.bpb.sectors_per_cluster <= 0x0FFF_FFF8 * 255) by (nonlinear_arith)
                    requires
                        2 <= cluster < 0x0FFF_FFF8,
                        self.bpb.sectors_per_cluster <= 255,
                ;
            }
            let first_lba = self.cluster_to_lba(cluster);
            let mut s: u64 = 0;
            while s < spc
                invariant
                    geometry_ok(*self),
                    d == disk@,
                    spc == self.bpb.sectors_per_cluster,
                    2 <= cluster < FAT_ENTRY_EOC_MIN,
                    fuel > 0,
                    first_lba == cluster_lba(*self, cluster),
                    first_lba <= 0xFFFF_FFFF_FFFF + 0x0FFF_FFF8 * 255,
                    s <= spc,
                    dir_scan(d, *self, q@, dir_cluster, 0, MAX_SCAN_CLUSTERS as nat)
                        == dir_scan(d, *self, q@, cluster, 16 * s, fuel as nat),
                decreases spc - s,
            {
                let lba = first_lba + s;
                let mut sector = [0u8; 512];
                match read_device_sector(disk, lba, &mut sector) {
                    Ok(()) => {}
                    Err(e) => {
                        proof {
                            assert((16 * s) / 16 == s);
                        }
                        return Err(e);
                    }
                }
                let mut slot: usize = 0;
                while slot < 16
                    invariant
                        geometry_ok(*self),
                        d == disk@,
                        spc == self.bpb.sectors_per_cluster,
                        2 <= cluster < FAT_ENTRY_EOC_MIN,
                        fuel > 0,
                        first_lba == cluster_lba(*self, cluster),
                        s < spc,
                        lba == first_lba + s,
                        has_sector(d, lba as int),
                        sector@ == sector_bytes(d, lba as int),
                        slot <= 16,
                        dir_scan(d, *self, q@, dir_cluster, 0, MAX_SCAN_CLUSTERS as nat)
                            == dir_scan(d, *self, q@, cluster, 16 * s + slot, fuel as nat),
                    decreases 16 - slot,
                {
                    let entry = FatDirEntry::from_bytes(&sector, slot * 32);
                    proof {
                        lemma_sector_slot(d, lba as int, sector@, slot as int, entry);
                        assert((16 * s + slot) / 16 == s);
                        assert((16 * s + slot) % 16 == slot);
                    }
                    if entry.is_end() {
                        return Ok(None);
                    }
                    if query_matches(q, &entry) {
                        return Ok(Some((lba, slot, entry)));
                    }
                    slot = slot + 1;
                }
                s = s + 1;
            }
            cluster = match self.next_cluster(disk, cluster) {
                Ok(n) => n,
                Err(e) => return Err(e),
            };
            fuel = fuel - 1;
        }
        Ok(None)
    }
}

/// The first entry of the directory at `c` answering `q` (see
/// [`dir_scan`]): its sector, slot and the entry itself.
pub open spec fn dir_find(d: Seq<u8>, fs: Fat32Fs, q: DirQuery, c: u32) -> VfsResult<Option<(int, int, FatDirEntry)>> {
    match dir_scan(d, fs, q, c, 0, MAX_SCAN_CLUSTERS as nat) {
        Err(e) => Err(e),
        Ok(None) => Ok(None),
        Ok(Some((lba, slot))) => Ok(Some((lba, slot, slot_entry(d, lba, slot)))),
    }
}

/// The first cluster of the entry named `name` in the directory at `c`:
/// NotFound when there is none.
pub open spec fn dir_lookup(d: Seq<u8>, fs: Fat32Fs, c: u32, name: Seq<u8>) -> VfsResult<u32> {
    match dir_find(d, fs, DirQuery::Named(name), c) {
        Err(e) => Err(e),
        Ok(None) => Err(VfsError::NotFound),
        Ok(Some((_, _, e))) => Ok(entry_cluster(e)),
    }
}

/// `d1` is `d0` with slot `slot` of sector `lba` holding `e` and every other
/// byte kept.
pub open spec fn slot_written(d0: Seq<u8>, d1: Seq<u8>, lba: int, slot: int, e: FatDirEntry) -> bool {
    &&& d1.len() == d0.len()
    &&& slot_entry(d1, lba, slot) == e
    &&& forall|j: int| 0 <= j < d0.len() && !(512 * lba + 32 * slot <= j < 512 * lba + 32 * slot + 32)
        ==> #[trigger] d1[j] == d0[j]
}

/// An entry with the given name, attributes, first cluster and size, every
/// time and date field 0.
pub open spec fn new_entry(name8: [u8; 8], ext3: [u8; 3], attr: u8, cluster: u32, size: u32) -> FatDirEntry {
    FatDirEntry {
        name: name8,
        ext: ext3,
        attr,
        nt_reserved: 0,
        creation_time_tenths: 0,
        creation_time: 0,
        creation_date: 0,
        last_access_date: 0,
        first_cluster_high: (cluster / 65536) as u16,
        write_time: 0,
        write_date: 0,
        first_cluster_low: (cluster % 65536) as u16,
        size,
    }
}

impl Fat32Fs {
    /// Store `entry` in slot `slot` of sector `lba` (read, patched and
    /// written back); IoError, with nothing changed, when the sector is not
    /// on the device.
    pub fn write_dir_entry(&self, disk: &mut Vec<u8>, lba: u64, slot: usize, entry: &FatDirEntry) -> (r: VfsResult<()>)
        requires
            slot < 16,
        ensures
            has_sector(old(disk)@, lba as int) ==> r is Ok && slot_written(old(disk)@, final(disk)@, lba as int, slot as int, *entry),
            !has_sector(old(disk)@, lba as int) ==> r == Err::<(), VfsError>(VfsError::IoError) && final(disk)@ == old(disk)@,
    {
        let ghost d0 = disk@;
        let mut sector = [0u8; 512];
        match read_device_sector(disk, lba, &mut sector) {
            Ok(()) => {}
            Err(e) => return Err(e),
        }
        let ghost s0 = sector@;
        entry.to_bytes(&mut sector, slot * 32);
        let w = write_device_sector(disk, lba, &sector);
        proof {
            let d1 = disk@;
            assert(sector_bytes(d1, lba as int) =~= sector@);
            lemma_sector_slot(d1, lba as int, sector@, slot as int, *entry);
            assert forall|j: int| 0 <= j < d0.len() && !(512 * lba + 32 * slot <= j < 512 * lba + 32 * slot + 32)
                implies #[trigger] d1[j] == d0[j] by {
                crate::vfs::racfs_volume::lemma_with_sector_index(d0, lba as int, sector@, j);
                if 512 * lba <= j < 512 * lba + 512 {
                    assert(sector@[j - 512 * lba] == s0[j - 512 * lba]);
                }
            }
        }
        w
    }

    /// The first visible entry of the directory at `dir_cluster` whose
    /// `NAME.EXT` is `name` but for ASCII case (see [`dir_find`]).
    pub fn find_dir_entry(&self, disk: &Vec<u8>, dir_cluster: u32, name: &str) -> (r: VfsResult<Option<(u64, usize, FatDirEntry)>>)
        requires
            geometry_ok(*self),
        ensures
            match dir_find(disk@, *self, DirQuery::Named(name.spec_bytes()), dir_cluster) {
                Err(e) => r == Err::<Option<(u64, usize, FatDirEntry)>, VfsError>(e),
                Ok(None) => r == Ok::<Option<(u64, usize, FatDirEntry)>, VfsError>(None),
                Ok(Some((lba, slot, e))) => r is Ok && r->Ok_0 is Some && r->Ok_0->Some_0.0 == lba
                    && r->Ok_0->Some_0.1 == slot && r->Ok_0->Some_0.2 == e,
            },
    {
        let q = SlotQuery::Named(name.as_bytes());
        self.for_each_dir_slot(disk, dir_cluster, &q)
    }

    /// The first cluster of the entry named `name` in the directory at
    /// `parent_cluster` (see [`dir_lookup`]).
    pub fn lookup_in_dir(&self, disk: &Vec<u8>, parent_cluster: u32, name: &str) -> (r: VfsResult<u32>)
        requires
            geometry_ok(*self),
        ensures
            r == dir_lookup(disk@, *self, parent_cluster, name.spec_bytes()),
    {
        match self.find_dir_entry(disk, parent_cluster, name) {
            Err(e) => Err(e),
            Ok(None) => Err(VfsError::NotFound),
            Ok(Some((_, _, entry))) => Ok(entry.get_cluster()),
        }
    }

    /// Record `size` in the visible entry of the directory at `dir_cluster`
    /// whose first cluster is `file_cluster`; nothing when there is none.
    pub fn update_dir_entry_size(&self, disk: &mut Vec<u8>, dir_cluster: u32, file_cluster: u32, size: u32) -> (r: VfsResult<()>)
        requires
            geometry_ok(*self),
        ensures
            match dir_find(old(disk)@, *self, DirQuery::Cluster(file_cluster), dir_cluster) {
                Err(e) => r == Err::<(), VfsError>(e) && final(disk)@ == old(disk)@,
                Ok(None) => r is Ok && final(disk)@ == old(disk)@,
                Ok(Some((lba, slot, e))) => r is Ok
                    && slot_written(old(disk)@, final(disk)@, lba, slot, FatDirEntry { size, ..e }),
            },
    {
        let q = SlotQuery::Cluster(file_cluster);
        match self.for_each_dir_slot(disk, dir_cluster, &q) {
            Err(e) => Err(e),
            Ok(None) => Ok(()),
            Ok(Some((lba, slot, entry))) => {
                let mut e = entry;
                e.size = size;
                proof {
                    assert(has_sector(old(disk)@, lba as int) && slot < 16) by {
                        lemma_scan_hit_sector(old(disk)@, *self, q@, dir_cluster, 0, MAX_SCAN_CLUSTERS as nat);
                    }
                }
                self.write_dir_entry(disk, lba, slot, &e)
            },
        }
    }

    /// Point the entry named `name` in the directory at `dir_cluster` at
    /// `new_cluster` with size `new_size`; nothing when there is none.
    pub fn update_dir_entry_cluster(&self, disk: &mut Vec<u8>, dir_cluster: u32, name: &str, new_cluster: u32, new_size: u32) -> (r: VfsResult<()>)
        requires
            geometry_ok(*self),
        ensures
            match dir_find(old(disk)@, *self, DirQuery::Named(name.spec_bytes()), dir_cluster) {
                Err(e) => r == Err::<(), VfsError>(e) && final(disk)@ == old(disk)@,
                Ok(None) => r is Ok && final(disk)@ == old(disk)@,
                Ok(Some((lba, slot, e))) => r is Ok
                    && slot_written(old(disk)@, final(disk)@, lba, slot, FatDirEntry {
                        first_cluster_low: (new_cluster % 65536) as u16,
                        first_cluster_high: (new_cluster / 65536) as u16,
                        size: new_size,
                        ..e
                    }),
            },
    {
        match self.find_dir_entry(disk, dir_cluster, name) {
            Err(e) => Err(e),
            Ok(None) => Ok(()),
            Ok(Some((lba, slot, entry))) => {
                let mut e = entry;
                e.set_cluster(new_cluster);
                e.size = new_size;
                proof {
                    assert(has_sector(old(disk)@, lba as int) && slot < 16) by {
                        lemma_scan_hit_sector(old(disk)@, *self, DirQuery::Named(name.spec_bytes()), dir_cluster, 0, MAX_SCAN_CLUSTERS as nat);
                    }
                }
                self.write_dir_entry(disk, lba, slot, &e)
            },
        }
    }

    /// An entry with the given name, attributes, first cluster and size
    /// (see [`new_entry`]).
    pub fn make_entry(name8: [u8; 8], ext3: [u8; 3], attr: u8, cluster: u32, size: u32) -> (r: FatDirEntry)
        ensures
            r == new_entry(name8, ext3, attr, cluster, size),
            entry_cluster(r) == cluster,
    {
        let mut e = FatDirEntry {
            name: name8,
            ext: ext3,
            attr,
            nt_reserved: 0,
            creation_time_tenths: 0,
            creation_time: 0,
            creation_date: 0,
            last_access_date: 0,
            first_cluster_high: 0,
            write_time: 0,
            write_date: 0,
            first_cluster_low: 0,
            size,
        };
        e.set_cluster(cluster);
        e
    }
}

/// A slot the walk returns lies in a sector on the device, slot below 16.
pub proof fn lemma_scan_hit_sector(d: Seq<u8>, fs: Fat32Fs, q: DirQuery, c: u32, k: int, fuel: nat)
    requires
        dir_scan(d, fs, q, c, k, fuel) matches Ok(Some(_)),
    ensures
        dir_scan(d, fs, q, c, k, fuel) matches Ok(Some((lba, slot))) && has_sector(d, lba) && 0 <= slot < 16,
    decreases fuel, cluster_slots(fs) - k,
{
    if c < 2 || c >= FAT_ENTRY_EOC_MIN {
    } else if fuel == 0 {
    } else if k < 0 || k >= cluster_slots(fs) {
        match fat_entry(d, fs, c) {
            Err(e) => {},
            Ok(n) => lemma_scan_hit_sector(d, fs, q, n, 0, (fuel - 1) as nat),
        }
    } else {
        let lba = cluster_lba(fs, c) + k / 16;
        if !has_sector(d, lba) {
        } else if slot_entry(d, lba, k % 16).name@[0] == DIR_END {
        } else if query_hit(q, slot_entry(d, lba, k % 16)) {
        } else {
            lemma_scan_hit_sector(d, fs, q, c, k + 1, fuel);
        }
    }
}

/// Walk the directory from slot `k` of cluster `c`, at most `fuel` more
/// clusters, for a slot free to hold a new entry (first byte 0 or 0xE5):
/// its sector and slot, or, when the chain ends first, the last cluster
/// walked (`last` when none was). IoError when a sector is not on the
/// device or the walk runs out of clusters; a FAT read's error.
pub open spec fn free_slot_scan(d: Seq<u8>, fs: Fat32Fs, c: u32, k: int, fuel: nat, last: u32) -> VfsResult<Result<(int, int), u32>>
    decreases fuel, cluster_slots(fs) - k,
{
    if c < 2 || c >= FAT_ENTRY_EOC_MIN {
        Ok(Err(last))
    } else if fuel == 0 {
        Err(VfsError::IoError)
    } else if k < 0 || k >= cluster_slots(fs) {
        match fat_entry(d, fs, c) {
            Err(e) => Err(e),
            Ok(n) => free_slot_scan(d, fs, n, 0, (fuel - 1) as nat, c),
        }
    } else {
        let lba = cluster_lba(fs, c) + k / 16;
        if !has_sector(d, lba) {
            Err(VfsError::IoError)
        } else if d[512 * lba + 32 * (k % 16)] == DIR_END || d[512 * lba + 32 * (k % 16)] == DIR_FREE {
            Ok(Ok((lba, k % 16)))
        } else {
            free_slot_scan(d, fs, c, k + 1, fuel, last)
        }
    }
}

impl Fat32Fs {
    /// A slot for a new entry in the directory at `dir_cluster`: the first
    /// free one (see [`free_slot_scan`]), else slot 0 of a fresh zeroed
    /// cluster (the allocator's first free one) linked after the chain's
    /// last cluster. The walk's error; the allocator's error or NoSpace;
    /// IoError when linking fails.
    pub fn find_or_alloc_dir_slot(&self, disk: &mut Vec<u8>, dir_cluster: u32) -> (r: VfsResult<(u64, usize)>)
        requires
            geometry_ok(*self),
        ensures
            final(disk)@.len() == old(disk)@.len(),
            match free_slot_scan(old(disk)@, *self, dir_cluster, 0, MAX_SCAN_CLUSTERS as nat, dir_cluster) {
                Err(e) => r == Err::<(u64, usize), VfsError>(e) && final(disk)@ == old(disk)@,
                Ok(Ok((lba, slot))) => r matches Ok((l, s)) && l == lba && s == slot && final(disk)@ == old(disk)@,
                Ok(Err(_)) => match first_free_cluster(old(disk)@, *self, 2, alloc_upper(*self)) {
                    Err(e) => r == Err::<(u64, usize), VfsError>(e) && final(disk)@ == old(disk)@,
                    Ok(None) => r == Err::<(u64, usize), VfsError>(VfsError::NoSpace) && final(disk)@ == old(disk)@,
                    Ok(Some(c)) => {
                        &&& r is Err ==> r == Err::<(u64, usize), VfsError>(VfsError::IoError)
                        &&& r is Ok ==> (r matches Ok((l, s)) && l == cluster_lba(*self, c) && s == 0)
                    },
                },
            },
    {
        let ghost d = disk@;
        let mut cluster = dir_cluster;
        let mut last_cluster = dir_cluster;
        let mut fuel: u32 = MAX_SCAN_CLUSTERS;
        let spc = self.bpb.sectors_per_cluster as u64;
        while cluster >= 2 && cluster < FAT_ENTRY_EOC_MIN
            invariant
                geometry_ok(*self),
                d == disk@,
                spc == self.bpb.sectors_per_cluster,
                free_slot_scan(d, *self, dir_cluster, 0, MAX_SCAN_CLUSTERS as nat, dir_cluster)
                    == free_slot_scan(d, *self, cluster, 0, fuel as nat, last_cluster),
            decreases fuel,
        {
            if fuel == 0 {
                return Err(VfsError::IoError);
            }
            proof {
                assert((cluster - 2) * self.bpb.sectors_per_cluster <= 0x0FFF_FFF8 * 255) by (nonlinear_arith)
                    requires
                        2 <= cluster < 0x0FFF_FFF8,
                        self.bpb.sectors_per_cluster <= 255,
                ;
            }
            let first_lba = self.cluster_to_lba(cluster);
            let mut s: u64 = 0;
            while s < spc
                invariant
                    geometry_ok(*self),
                    d == disk@,
                    spc == self.bpb.sectors_per_cluster,
                    2 <= cluster < FAT_ENTRY_EOC_MIN,
                    fuel > 0,
                    first_lba == cluster_lba(*self, cluster),
                    first_lba <= 0xFFFF_FFFF_FFFF + 0x0FFF_FFF8 * 255,
                    s <= spc,
                    free_slot_scan(d, *self, dir_cluster, 0, MAX_SCAN_CLUSTERS as nat, dir_cluster)
                        == free_slot_scan(d, *self, cluster, 16 * s, fuel as nat, last_cluster),
                decreases spc - s,
            {
                let lba = first_lba + s;
                let mut sector = [0u8; 512];
                match read_device_sector(disk, lba, &mut sector) {
                    Ok(()) => {}
                    Err(e) => {
                        proof {
                            assert((16 * s) / 16 == s);
                        }
                        return Err(e);
                    }
                }
                let mut slot: usize = 0;
                while slot < 16
                    invariant
                        geometry_ok(*self),
                        d == disk@,
                        spc == self.bpb.sectors_per_cluster,
                        2 <= cluster < FAT_ENTRY_EOC_MIN,
                        fuel > 0,
                        first_lba == cluster_lba(*self, cluster),
                        s < spc,
                        lba == first_lba + s,
                        has_sector(d, lba as int),
                        sector@ == sector_bytes(d, lba as int),
                        slot <= 16,
                        free_slot_scan(d, *self, dir_cluster, 0, MAX_SCAN_CLUSTERS as nat, dir_cluster)
                            == free_slot_scan(d, *self, cluster, 16 * s + slot, fuel as nat, last_cluster),
                    decreases 16 - slot,
                {
                    let first = sector[slot * 32];
                    proof {
                        assert((16 * s + slot) / 16 == s);
                        assert((16 * s + slot) % 16 == slot);
                        assert(first == d[512 * lba + 32 * slot]);
                    }
                    if first == DIR_END || first == DIR_FREE {
                        return Ok((lba, slot));
                    }
                    slot = slot + 1;
                }
                s = s + 1;
            }
            last_cluster = cluster;
            cluster = match self.next_cluster(disk, cluster) {
                Ok(n) => n,
                Err(e) => return Err(e),
            };
            fuel = fuel - 1;
        }
        let new_cluster = match self.alloc_cluster(disk) {
            Ok(c) => c,
            Err(e) => return Err(e),
        };
        proof {
            crate::vfs::fat32_volume::lemma_first_free_cluster_range(d, *self, 2, alloc_upper(*self));
            assert((new_cluster - 2) * self.bpb.sectors_per_cluster <= 0x0FFF_FFF8 * 255) by (nonlinear_arith)
                requires
                    2 <= new_cluster < 0x0FFF_FFF8,
                    self.bpb.sectors_per_cluster <= 255,
            ;
        }
        match self.write_fat_entry(disk, last_cluster, new_cluster) {
            Ok(()) => {}
            Err(e) => return Err(e),
        }
        Ok((self.cluster_to_lba(new_cluster), 0))
    }
}

/// Byte `j` belongs to the entry of some cluster in some FAT copy.
pub open spec fn in_some_fat_entry(fs: Fat32Fs, j: int) -> bool {
    exists|c: u32| #[trigger] in_entry_copies(fs, c, fs.bpb.fat_count as int, j)
}

/// `d1` differs from `d0` only in FAT entry bytes and, if given, at `extra`.
pub open spec fn changed_only_fat(fs: Fat32Fs, d0: Seq<u8>, d1: Seq<u8>, extra: Option<int>) -> bool {
    &&& d1.len() == d0.len()
    &&& forall|j: int| 0 <= j < d0.len() && d1[j] != d0[j] ==> in_some_fat_entry(fs, j) || extra == Some(j)
}

/// Walk the whole directory from slot `k` of cluster `c` (at most `fuel`
/// more clusters, as [`dir_scan`]): whether it holds an entry other than
/// deleted ones, long-name parts, `.` and `..` before its end.
pub open spec fn dir_any(d: Seq<u8>, fs: Fat32Fs, c: u32, k: int, fuel: nat) -> VfsResult<bool>
    decreases fuel, cluster_slots(fs) - k,
{
    if c < 2 || c >= FAT_ENTRY_EOC_MIN {
        Ok(false)
    } else if fuel == 0 {
        Err(VfsError::IoError)
    } else if k < 0 || k >= cluster_slots(fs) {
        match fat_entry(d, fs, c) {
            Err(e) => Err(e),
            Ok(n) => dir_any(d, fs, n, 0, (fuel - 1) as nat),
        }
    } else {
        let lba = cluster_lba(fs, c) + k / 16;
        if !has_sector(d, lba) {
            Err(VfsError::IoError)
        } else if slot_entry(d, lba, k % 16).name@[0] == DIR_END {
            Ok(false)
        } else {
            match dir_any(d, fs, c, k + 1, fuel) {
                Err(e) => Err(e),
                Ok(b) => Ok(b || query_hit(DirQuery::Occupied, slot_entry(d, lba, k % 16))),
            }
        }
    }
}

/// `e` has this 8.3 name, attribute byte, first cluster and size.
pub open spec fn entry_is(e: FatDirEntry, name8: Seq<u8>, ext3: Seq<u8>, attr: u8, cluster: u32, size: u32) -> bool {
    &&& e.name@ == name8
    &&& e.ext@ == ext3
    &&& e.attr == attr
    &&& entry_cluster(e) == cluster
    &&& e.size == size
}

/// Walk `comps` down from the directory at `cur`, each looked up by name
/// (see [`dir_lookup`]).
pub open spec fn fat_walk(d: Seq<u8>, fs: Fat32Fs, cur: u32, comps: Seq<Seq<char>>) -> VfsResult<u32>
    decreases comps.len(),
{
    if comps.len() == 0 {
        Ok(cur)
    } else {
        match dir_lookup(d, fs, cur, vstd::utf8::encode_utf8(comps[0])) {
            Err(e) => Err(e),
            Ok(next) => fat_walk(d, fs, next, comps.drop_first()),
        }
    }
}

impl Fat32Fs {
    /// Free the chain from `start`: each cluster's entry set to free, link
    /// by link, until a value below 2, an end-of-chain or bad-cluster mark,
    /// or after [`MAX_SCAN_CLUSTERS`] links; nothing for a start outside
    /// `[2, end-of-chain)`. IoError when a FAT sector is not on the
    /// device. Only FAT entry bytes change.
    pub fn free_chain(&self, disk: &mut Vec<u8>, start: u32) -> (r: VfsResult<()>)
        requires
            geometry_ok(*self),
        ensures
            start < 2 || start >= FAT_ENTRY_EOC_MIN ==> r is Ok && final(disk)@ == old(disk)@,
            r is Err ==> r == Err::<(), VfsError>(VfsError::IoError),
            changed_only_fat(*self, old(disk)@, final(disk)@, None),
            r is Ok && 2 <= start < FAT_ENTRY_EOC_MIN && start != FAT_ENTRY_BAD && self.bpb.fat_count > 0
                ==> fat_entry(old(disk)@, *self, start) is Ok,
    {
        let ghost d0 = disk@;
        if start < 2 || start >= FAT_ENTRY_EOC_MIN {
            return Ok(());
        }
        let mut cur = start;
        let mut i: u32 = 0;
        while i < MAX_SCAN_CLUSTERS
            invariant
                geometry_ok(*self),
                d0 == old(disk)@,
                changed_only_fat(*self, d0, disk@, None),
                2 <= start < FAT_ENTRY_EOC_MIN,
                i == 0 ==> cur == start && disk@ == d0,
                i > 0 ==> fat_entry(d0, *self, start) is Ok,
            ensures
                changed_only_fat(*self, d0, disk@, None),
                i > 0 || cur < 2 || cur >= FAT_ENTRY_EOC_MIN || cur == FAT_ENTRY_BAD,
                i > 0 ==> fat_entry(d0, *self, start) is Ok,
                i == 0 ==> cur == start,
            decreases MAX_SCAN_CLUSTERS - i,
        {
            if cur < 2 || cur >= FAT_ENTRY_EOC_MIN || cur == FAT_ENTRY_BAD {
                break;
            }
            let next = match self.next_cluster(disk, cur) {
                Ok(n) => n,
                Err(e) => return Err(e),
            };
            let ghost before = disk@;
            match self.write_fat_entry(disk, cur, FAT_ENTRY_FREE) {
                Ok(()) => {}
                Err(e) => {
                    proof {
                        assert forall|j: int| 0 <= j < d0.len() && disk@[j] != d0[j] implies in_some_fat_entry(*self, j) by {
                            if !in_entry_copies(*self, cur, self.bpb.fat_count as int, j) {
                                assert(disk@[j] == before[j]);
                            }
                        }
                    }
                    return Err(e);
                }
            }
            proof {
                assert forall|j: int| 0 <= j < d0.len() && disk@[j] != d0[j] implies in_some_fat_entry(*self, j) by {
                    if !in_entry_copies(*self, cur, self.bpb.fat_count as int, j) {
                        assert(disk@[j] == before[j]);
                    }
                }
            }
            cur = next;
            i = i + 1;
        }
        Ok(())
    }

    /// Walk the whole directory at `dir_cluster` (see [`dir_any`]): does
    /// it hold any entry besides `.` and `..`?
    fn dir_has_entries(&self, disk: &Vec<u8>, dir_cluster: u32) -> (r: VfsResult<bool>)
        requires
            geometry_ok(*self),
        ensures
            r == dir_any(disk@, *self, dir_cluster, 0, MAX_SCAN_CLUSTERS as nat),
    {
        let ghost d = disk@;
        let occupied = SlotQuery::Occupied;
        let mut found = false;
        let mut cluster = dir_cluster;
        let mut fuel: u32 = MAX_SCAN_CLUSTERS;
        let spc = self.bpb.sectors_per_cluster as u64;
        while cluster >= 2 && cluster < FAT_ENTRY_EOC_MIN
            invariant
                geometry_ok(*self),
                d == disk@,
                occupied@ == DirQuery::Occupied,
                spc == self.bpb.sectors_per_cluster,
                dir_any(d, *self, dir_cluster, 0, MAX_SCAN_CLUSTERS as nat) == match dir_any(d, *self, cluster, 0, fuel as nat) {
                    Err(e) => Err::<bool, VfsError>(e),
                    Ok(b) => Ok(b || found),
                },
            decreases fuel,
        {
            if fuel == 0 {
                return Err(VfsError::IoError);
            }
            proof {
                assert((cluster - 2) * self.bpb.sectors_per_cluster <= 0x0FFF_FFF8 * 255) by (nonlinear_arith)
                    requires
                        2 <= cluster < 0x0FFF_FFF8,
                        self.bpb.sectors_per_cluster <= 255,
                ;
            }
            let first_lba = self.cluster_to_lba(cluster);
            let mut s: u64 = 0;
            while s < spc
                invariant
                    geometry_ok(*self),
                    d == disk@,
                    occupied@ == DirQuery::Occupied,
                    spc == self.bpb.sectors_per_cluster,
                    2 <= cluster < FAT_ENTRY_EOC_MIN,
                    fuel > 0,
                    first_lba == cluster_lba(*self, cluster),
                    first_lba <= 0xFFFF_FFFF_FFFF + 0x0FFF_FFF8 * 255,
                    s <= spc,
                    dir_any(d, *self, dir_cluster, 0, MAX_SCAN_CLUSTERS as nat) == match dir_any(d, *self, cluster, 16 * s, fuel as nat) {
                        Err(e) => Err::<bool, VfsError>(e),
                        Ok(b) => Ok(b || found),
                    },
                decreases spc - s,
            {
                let lba = first_lba + s;
                let mut sector = [0u8; 512];
                match read_device_sector(disk, lba, &mut sector) {
                    Ok(()) => {}
                    Err(e) => {
                        proof {
                            assert((16 * s) / 16 == s);
                        }
                        return Err(e);
                    }
                }
                let mut slot: usize = 0;
                while slot < 16
                    invariant
                        geometry_ok(*self),
                        d == disk@,
                        occupied@ == DirQuery::Occupied,
                        spc == self.bpb.sectors_per_cluster,
                        2 <= cluster < FAT_ENTRY_EOC_MIN,
                        fuel > 0,
                        first_lba == cluster_lba(*self, cluster),
                        s < spc,
                        lba == first_lba + s,
                        has_sector(d, lba as int),
                        sector@ == sector_bytes(d, lba as int),
                        slot <= 16,
                        dir_any(d, *self, dir_cluster, 0, MAX_SCAN_CLUSTERS as nat) == match dir_any(d, *self, cluster, 16 * s + slot, fuel as nat) {
                            Err(e) => Err::<bool, VfsError>(e),
                            Ok(b) => Ok(b || found),
                        },
                    decreases 16 - slot,
                {
                    let entry = FatDirEntry::from_bytes(&sector, slot * 32);
                    proof {
                        lemma_sector_slot(d, lba as int, sector@, slot as int, entry);
                        assert((16 * s + slot) / 16 == s);
                        assert((16 * s + slot) % 16 == slot);
                    }
                    if entry.is_end() {
                        return Ok(found);
                    }
                    if query_matches(&occupied, &entry) {
                        found = true;
                    }
                    slot = slot + 1;
                }
                s = s + 1;
            }
            cluster = match self.next_cluster(disk, cluster) {
                Ok(n) => n,
                Err(e) => return Err(e),
            };
            fuel = fuel - 1;
        }
        Ok(found)
    }

    /// Remove the entry named `name` from the directory at
    /// `parent_cluster`: NotFound when there is none; for a directory,
    /// IsADirectory unless it holds nothing but `.` and `..` (see
    /// [`dir_any`]). The entry's first byte becomes 0xE5 and its cluster
    /// chain is freed; IoError when a write fails. Only that byte and FAT
    /// entries change.
    pub fn unlink(&self, disk: &mut Vec<u8>, parent_cluster: u32, name: &str) -> (r: VfsResult<()>)
        requires
            geometry_ok(*self),
        ensures
            match dir_find(old(disk)@, *self, DirQuery::Named(name.spec_bytes()), parent_cluster) {
                Err(e) => r == Err::<(), VfsError>(e) && final(disk)@ == old(disk)@,
                Ok(None) => r == Err::<(), VfsError>(VfsError::NotFound) && final(disk)@ == old(disk)@,
                Ok(Some((lba, slot, e))) => {
                    let removable = e.attr & ATTR_DIRECTORY == 0
                        || dir_any(old(disk)@, *self, entry_cluster(e), 0, MAX_SCAN_CLUSTERS as nat) == Ok::<bool, VfsError>(false);
                    let mark = 512 * lba + 32 * slot;
                    &&& e.attr & ATTR_DIRECTORY != 0 ==> match dir_any(old(disk)@, *self, entry_cluster(e), 0, MAX_SCAN_CLUSTERS as nat) {
                        Err(x) => r == Err::<(), VfsError>(x) && final(disk)@ == old(disk)@,
                        Ok(true) => r == Err::<(), VfsError>(VfsError::IsADirectory) && final(disk)@ == old(disk)@,
                        Ok(false) => true,
                    }
                    &&& removable ==> {
                        &&& r is Err ==> r == Err::<(), VfsError>(VfsError::IoError)
                        &&& entry_cluster(e) < 2 ==> r is Ok
                        &&& changed_only_fat(*self, old(disk)@, final(disk)@, Some(mark))
                        &&& r is Ok ==> final(disk)@[mark] == DIR_FREE || in_some_fat_entry(*self, mark)
                    }
                },
            },
    {
        let ghost d0 = disk@;
        let (lba, slot, entry) = match self.find_dir_entry(disk, parent_cluster, name) {
            Err(e) => return Err(e),
            Ok(None) => return Err(VfsError::NotFound),
            Ok(Some(t)) => t,
        };
        proof {
            lemma_scan_hit_sector(d0, *self, DirQuery::Named(name.spec_bytes()), parent_cluster, 0, MAX_SCAN_CLUSTERS as nat);
        }
        if entry.is_dir() {
            match self.dir_has_entries(disk, entry.get_cluster()) {
                Err(e) => return Err(e),
                Ok(true) => return Err(VfsError::IsADirectory),
                Ok(false) => {}
            }
        }
        let cluster = entry.get_cluster();
        let mut sector = [0u8; 512];
        match read_device_sector(disk, lba, &mut sector) {
            Ok(()) => {}
            Err(e) => return Err(e),
        }
        let ghost s0 = sector@;
        sector[slot * 32] = DIR_FREE;
        match write_device_sector(disk, lba, &sector) {
            Ok(()) => {}
            Err(e) => return Err(e),
        }
        let ghost d1 = disk@;
        let ghost mark = 512 * lba + 32 * slot;
        proof {
            assert forall|j: int| 0 <= j < d0.len() && d1[j] != d0[j] implies j == mark by {
                crate::vfs::racfs_volume::lemma_with_sector_index(d0, lba as int, sector@, j);
            }
            crate::vfs::racfs_volume::lemma_with_sector_index(d0, lba as int, sector@, mark);
            assert(d1[mark] == DIR_FREE);
        }
        if cluster >= 2 {
            match self.free_chain(disk, cluster) {
                Ok(()) => {}
                Err(e) => return Err(e),
            }
        }
        proof {
            let d2 = disk@;
            assert forall|j: int| 0 <= j < d0.len() && d2[j] != d0[j] implies in_some_fat_entry(*self, j) || Some(mark) == Some(j) by {
                if d2[j] == d1[j] {
                    assert(j == mark);
                }
            }
        }
        Ok(())
    }
}

/// A free slot the walk returns lies below slot 16; the walk fails only
/// with IoError.
pub proof fn lemma_free_slot_scan(d: Seq<u8>, fs: Fat32Fs, c: u32, k: int, fuel: nat, last: u32)
    ensures
        free_slot_scan(d, fs, c, k, fuel, last) matches Ok(Ok((_, slot))) ==> 0 <= slot < 16,
        free_slot_scan(d, fs, c, k, fuel, last) matches Err(e) ==> e == VfsError::IoError,
    decreases fuel, cluster_slots(fs) - k,
{
    if c < 2 || c >= FAT_ENTRY_EOC_MIN {
    } else if fuel == 0 {
    } else if k < 0 || k >= cluster_slots(fs) {
        match fat_entry(d, fs, c) {
            Err(e) => {},
            Ok(n) => lemma_free_slot_scan(d, fs, n, 0, (fuel - 1) as nat, c),
        }
    } else {
        let lba = cluster_lba(fs, c) + k / 16;
        if has_sector(d, lba) && !(d[512 * lba + 32 * (k % 16)] == DIR_END || d[512 * lba + 32 * (k % 16)] == DIR_FREE) {
            lemma_free_slot_scan(d, fs, c, k + 1, fuel, last);
        }
    }
}

impl Fat32Fs {
    /// Store `entry` in the directory at `parent_cluster`, in the slot
    /// [`Fat32Fs::find_or_alloc_dir_slot`] gives.
    fn add_entry(&self, disk: &mut Vec<u8>, parent_cluster: u32, entry: &FatDirEntry) -> (r: VfsResult<()>)
        requires
            geometry_ok(*self),
        ensures
            r is Err ==> r == Err::<(), VfsError>(VfsError::IoError) || r == Err::<(), VfsError>(VfsError::NoSpace),
            r is Ok ==> exists|lba: int, slot: int| 0 <= slot < 16 && #[trigger] slot_entry(final(disk)@, lba, slot) == *entry,
            final(disk)@.len() == old(disk)@.len(),
    {
        proof {
            lemma_free_slot_scan(disk@, *self, parent_cluster, 0, MAX_SCAN_CLUSTERS as nat, parent_cluster);
            crate::vfs::fat32_volume::lemma_first_free_cluster_error(disk@, *self, 2, alloc_upper(*self));
        }
        let (lba, slot) = match self.find_or_alloc_dir_slot(disk, parent_cluster) {
            Ok(t) => t,
            Err(e) => return Err(e),
        };
        let ghost d1 = disk@;
        match self.write_dir_entry(disk, lba, slot, entry) {
            Ok(()) => {}
            Err(e) => return Err(e),
        }
        assert(slot_entry(disk@, lba as int, slot as int) == *entry);
        Ok(())
    }

    /// Create an empty regular file `name` in the directory at
    /// `parent_cluster`: AlreadyExists when the name is taken;
    /// InvalidArgument when it has no 8.3 form; the allocator's error or
    /// NoSpace. The file gets the first free cluster, returned, and an
    /// archive entry of size 0 in the directory; IoError or NoSpace when
    /// storing that entry fails.
    pub fn create_file(&self, disk: &mut Vec<u8>, parent_cluster: u32, name: &str) -> (r: VfsResult<u32>)
        requires
            geometry_ok(*self),
        ensures
            match dir_find(old(disk)@, *self, DirQuery::Named(name.spec_bytes()), parent_cluster) {
                Err(e) => r == Err::<u32, VfsError>(e) && final(disk)@ == old(disk)@,
                Ok(Some(_)) => r == Err::<u32, VfsError>(VfsError::AlreadyExists) && final(disk)@ == old(disk)@,
                Ok(None) => match short_name(name.spec_bytes()) {
                    None => r == Err::<u32, VfsError>(VfsError::InvalidArgument) && final(disk)@ == old(disk)@,
                    Some((n8, e3)) => match first_free_cluster(old(disk)@, *self, 2, alloc_upper(*self)) {
                        Err(e) => r == Err::<u32, VfsError>(e) && final(disk)@ == old(disk)@,
                        Ok(None) => r == Err::<u32, VfsError>(VfsError::NoSpace) && final(disk)@ == old(disk)@,
                        Ok(Some(c)) => {
                            &&& r is Err ==> r == Err::<u32, VfsError>(VfsError::IoError) || r == Err::<u32, VfsError>(VfsError::NoSpace)
                            &&& r is Ok ==> r == Ok::<u32, VfsError>(c) && exists|lba: int, slot: int| 0 <= slot < 16
                                && #[trigger] entry_is(slot_entry(final(disk)@, lba, slot), n8, e3, ATTR_ARCHIVE, c, 0)
                        },
                    },
                },
            },
    {
        match self.find_dir_entry(disk, parent_cluster, name) {
            Err(e) => return Err(e),
            Ok(Some(_)) => return Err(VfsError::AlreadyExists),
            Ok(None) => {}
        }
        let (name8, ext3) = match encode_short_name(name) {
            Err(e) => return Err(e),
            Ok(t) => t,
        };
        let cluster = match self.alloc_cluster(disk) {
            Ok(c) => c,
            Err(e) => return Err(e),
        };
        let entry = Self::make_entry(name8, ext3, ATTR_ARCHIVE, cluster, 0);
        match self.add_entry(disk, parent_cluster, &entry) {
            Ok(()) => {}
            Err(e) => return Err(e),
        }
        let ghost fin = disk@;
        assert(exists|lba: int, slot: int| 0 <= slot < 16 && #[trigger] entry_is(slot_entry(fin, lba, slot), name8@, ext3@, ATTR_ARCHIVE, cluster, 0)) by {
            let (lba, slot) = choose|lba: int, slot: int| 0 <= slot < 16 && #[trigger] slot_entry(fin, lba, slot) == entry;
            assert(entry_is(slot_entry(fin, lba, slot), name8@, ext3@, ATTR_ARCHIVE, cluster, 0));
        }
        Ok(cluster)
    }

    /// Create an empty subdirectory `name` in the directory at
    /// `parent_cluster`, with the errors of [`Fat32Fs::create_file`]. Its
    /// first cluster (returned) starts with a `.` entry naming itself and
    /// a `..` entry naming the parent (0 for the root); the parent gets a
    /// directory entry of size 0.
    pub fn create_dir(&self, disk: &mut Vec<u8>, parent_cluster: u32, name: &str) -> (r: VfsResult<u32>)
        requires
            geometry_ok(*self),
        ensures
            match dir_find(old(disk)@, *self, DirQuery::Named(name.spec_bytes()), parent_cluster) {
                Err(e) => r == Err::<u32, VfsError>(e) && final(disk)@ == old(disk)@,
                Ok(Some(_)) => r == Err::<u32, VfsError>(VfsError::AlreadyExists) && final(disk)@ == old(disk)@,
                Ok(None) => match short_name(name.spec_bytes()) {
                    None => r == Err::<u32, VfsError>(VfsError::InvalidArgument) && final(disk)@ == old(disk)@,
                    Some((n8, e3)) => match first_free_cluster(old(disk)@, *self, 2, alloc_upper(*self)) {
                        Err(e) => r == Err::<u32, VfsError>(e) && final(disk)@ == old(disk)@,
                        Ok(None) => r == Err::<u32, VfsError>(VfsError::NoSpace) && final(disk)@ == old(disk)@,
                        Ok(Some(c)) => {
                            &&& r is Err ==> r == Err::<u32, VfsError>(VfsError::IoError) || r == Err::<u32, VfsError>(VfsError::NoSpace)
                            &&& r is Ok ==> r == Ok::<u32, VfsError>(c) && exists|lba: int, slot: int| 0 <= slot < 16
                                && #[trigger] entry_is(slot_entry(final(disk)@, lba, slot), n8, e3, ATTR_DIRECTORY, c, 0)
                        },
                    },
                },
            },
    {
        match self.find_dir_entry(disk, parent_cluster, name) {
            Err(e) => return Err(e),
            Ok(Some(_)) => return Err(VfsError::AlreadyExists),
            Ok(None) => {}
        }
        let (name8, ext3) = match encode_short_name(name) {
            Err(e) => return Err(e),
            Ok(t) => t,
        };
        let cluster = match self.alloc_cluster(disk) {
            Ok(c) => c,
            Err(e) => return Err(e),
        };
        proof {
            crate::vfs::fat32_volume::lemma_first_free_cluster_range(old(disk)@, *self, 2, alloc_upper(*self));
            assert((cluster - 2) * self.bpb.sectors_per_cluster <= 0x0FFF_FFF8 * 255) by (nonlinear_arith)
                requires
                    2 <= cluster < 0x0FFF_FFF8,
                    self.bpb.sectors_per_cluster <= 255,
            ;
        }
        let dot = Self::make_entry([46u8, 32, 32, 32, 32, 32, 32, 32], [32u8, 32, 32], ATTR_DIRECTORY, cluster, 0);
        let parent_for_dotdot = if parent_cluster == self.bpb.root_cluster { 0 } else { parent_cluster };
        let dotdot = Self::make_entry([46u8, 46, 32, 32, 32, 32, 32, 32], [32u8, 32, 32], ATTR_DIRECTORY, parent_for_dotdot, 0);
        let first_lba = self.cluster_to_lba(cluster);
        match self.write_dir_entry(disk, first_lba, 0, &dot) {
            Ok(()) => {}
            Err(e) => return Err(e),
        }
        match self.write_dir_entry(disk, first_lba, 1, &dotdot) {
            Ok(()) => {}
            Err(e) => return Err(e),
        }
        let entry = Self::make_entry(name8, ext3, ATTR_DIRECTORY, cluster, 0);
        match self.add_entry(disk, parent_cluster, &entry) {
            Ok(()) => {}
            Err(e) => return Err(e),
        }
        let ghost fin = disk@;
        assert(exists|lba: int, slot: int| 0 <= slot < 16 && #[trigger] entry_is(slot_entry(fin, lba, slot), name8@, ext3@, ATTR_DIRECTORY, cluster, 0)) by {
            let (lba, slot) = choose|lba: int, slot: int| 0 <= slot < 16 && #[trigger] slot_entry(fin, lba, slot) == entry;
            assert(entry_is(slot_entry(fin, lba, slot), name8@, ext3@, ATTR_DIRECTORY, cluster, 0));
        }
        Ok(cluster)
    }

    /// Split `path` into the directory holding its last component, walked
    /// from the root cluster, and that component (empty components
    /// dropped): InvalidArgument for a path with no component.
    pub fn split_parent_leaf<'a>(&self, disk: &Vec<u8>, path: &'a str) -> (r: VfsResult<(u32, &'a str)>)
        requires
            geometry_ok(*self),
        ensures
            components(path@, false).len() == 0 ==> r == Err::<(u32, &str), VfsError>(VfsError::InvalidArgument),
            components(path@, false).len() > 0 ==> {
                let cs = components(path@, false);
                match fat_walk(disk@, *self, self.bpb.root_cluster, cs.drop_last()) {
                    Err(e) => r == Err::<(u32, &str), VfsError>(e),
                    Ok(p) => r matches Ok((q, leaf)) && q == p && leaf@ == cs.last(),
                }
            },
    {
        let ranges = component_ranges(path, false);
        let ghost cs = components(path@, false);
        if ranges.len() == 0 {
            return Err(VfsError::InvalidArgument);
        }
        let last = ranges.len() - 1;
        let (la, lb) = ranges[last];
        assert(range_is_component(path@, false, ranges@[last as int], last as int));
        let leaf = path.substring_char(la, lb);
        let ghost parents = cs.drop_last();
        let root = self.bpb.root_cluster;
        let mut cur: u32 = root;
        let mut i: usize = 0;
        assert(parents.skip(0) =~= parents);
        while i < last
            invariant
                geometry_ok(*self),
                last == ranges@.len() - 1,
                i <= last,
                cs == components(path@, false),
                ranges@.len() == cs.len(),
                parents == cs.drop_last(),
                root == self.bpb.root_cluster,
                forall|m: int| 0 <= m < ranges@.len() ==> range_is_component(path@, false, #[trigger] ranges@[m], m),
                fat_walk(disk@, *self, cur, parents.skip(i as int)) == fat_walk(disk@, *self, root, parents),
            decreases last - i,
        {
            let ghost rest = parents.skip(i as int);
            assert(rest.len() > 0);
            let (a, b) = ranges[i];
            assert(range_is_component(path@, false, ranges@[i as int], i as int));
            let part = path.substring_char(a, b);
            assert(rest[0] == cs[i as int]);
            assert(rest.drop_first() =~= parents.skip(i + 1));
            cur = match self.lookup_in_dir(disk, cur, part) {
                Ok(c) => c,
                Err(e) => return Err(e),
            };
            i = i + 1;
        }
        assert(parents.skip(i as int) =~= Seq::<Seq<char>>::empty());
        Ok((cur, leaf))
    }
}

/// An entry a directory listing shows: visible, and neither `.` nor `..`.
pub open spec fn listed(e: FatDirEntry) -> bool {
    &&& visible(e)
    &&& vstd::utf8::encode_utf8(entry_name(e)) != seq![46u8]
    &&& vstd::utf8::encode_utf8(entry_name(e)) != seq![46u8, 46u8]
}

/// Walk the whole directory from slot `k` of cluster `c` (at most `fuel`
/// more clusters, as [`dir_scan`]): the entries it lists, in order.
pub open spec fn dir_listing(d: Seq<u8>, fs: Fat32Fs, c: u32, k: int, fuel: nat) -> VfsResult<Seq<FatDirEntry>>
    decreases fuel, cluster_slots(fs) - k,
{
    if c < 2 || c >= FAT_ENTRY_EOC_MIN {
        Ok(Seq::empty())
    } else if fuel == 0 {
        Err(VfsError::IoError)
    } else if k < 0 || k >= cluster_slots(fs) {
        match fat_entry(d, fs, c) {
            Err(e) => Err(e),
            Ok(n) => dir_listing(d, fs, n, 0, (fuel - 1) as nat),
        }
    } else {
        let lba = cluster_lba(fs, c) + k / 16;
        if !has_sector(d, lba) {
            Err(VfsError::IoError)
        } else if slot_entry(d, lba, k % 16).name@[0] == DIR_END {
            Ok(Seq::empty())
        } else {
            match dir_listing(d, fs, c, k + 1, fuel) {
                Err(e) => Err(e),
                Ok(rest) => if listed(slot_entry(d, lba, k % 16)) {
                    Ok(seq![slot_entry(d, lba, k % 16)] + rest)
                } else {
                    Ok(rest)
                },
            }
        }
    }
}

/// Is `e` one a listing shows?
fn is_listed(e: &FatDirEntry) -> (r: bool)
    ensures
        r == listed(*e),
{
    if e.is_deleted() || e.is_lfn() || e.is_volume() {
        return false;
    }
    let n = e.get_name();
    let nb = n.as_str().as_bytes();
    proof {
        if nb@.len() == 1 && nb@[0] == 46u8 { assert(nb@ =~= seq![46u8]); }
        if nb@.len() == 2 && nb@[0] == 46u8 && nb@[1] == 46u8 { assert(nb@ =~= seq![46u8, 46u8]); }
    }
    !(nb.len() == 1 && nb[0] == 46u8) && !(nb.len() == 2 && nb[0] == 46u8 && nb[1] == 46u8)
}

impl Fat32Fs {
    /// The entries of the directory at `dir_cluster` a listing shows (see
    /// [`dir_listing`]).
    pub fn list_dir(&self, disk: &Vec<u8>, dir_cluster: u32) -> (r: VfsResult<Vec<FatDirEntry>>)
        requires
            geometry_ok(*self),
        ensures
            match dir_listing(disk@, *self, dir_cluster, 0, MAX_SCAN_CLUSTERS as nat) {
                Err(e) => r == Err::<Vec<FatDirEntry>, VfsError>(e),
                Ok(l) => r is Ok && r->Ok_0@ == l,
            },
    {
        let ghost d = disk@;
        let mut out: Vec<FatDirEntry> = Vec::new();
        let mut cluster = dir_cluster;
        let mut fuel: u32 = MAX_SCAN_CLUSTERS;
        let spc = self.bpb.sectors_per_cluster as u64;
        while cluster >= 2 && cluster < FAT_ENTRY_EOC_MIN
            invariant
                geometry_ok(*self),
                d == disk@,
                spc == self.bpb.sectors_per_cluster,
                dir_listing(d, *self, dir_cluster, 0, MAX_SCAN_CLUSTERS as nat) == match dir_listing(d, *self, cluster, 0, fuel as nat) {
                    Err(e) => Err::<Seq<FatDirEntry>, VfsError>(e),
                    Ok(l) => Ok(out@ + l),
                },
            decreases fuel,
        {
            if fuel == 0 {
                return Err(VfsError::IoError);
            }
            proof {
                assert((cluster - 2) * self.bpb.sectors_per_cluster <= 0x0FFF_FFF8 * 255) by (nonlinear_arith)
                    requires
                        2 <= cluster < 0x0FFF_FFF8,
                        self.bpb.sectors_per_cluster <= 255,
                ;
            }
            let first_lba = self.cluster_to_lba(cluster);
            let mut s: u64 = 0;
            while s < spc
                invariant
                    geometry_ok(*self),
                    d == disk@,
                    spc == self.bpb.sectors_per_cluster,
                    2 <= cluster < FAT_ENTRY_EOC_MIN,
                    fuel > 0,
                    first_lba == cluster_lba(*self, cluster),
                    first_lba <= 0xFFFF_FFFF_FFFF + 0x0FFF_FFF8 * 255,
                    s <= spc,
                    dir_listing(d, *self, dir_cluster, 0, MAX_SCAN_CLUSTERS as nat) == match dir_listing(d, *self, cluster, 16 * s, fuel as nat) {
                        Err(e) => Err::<Seq<FatDirEntry>, VfsError>(e),
                        Ok(l) => Ok(out@ + l),
                    },
                decreases spc - s,
            {
                let lba = first_lba + s;
                let mut sector = [0u8; 512];
                match read_device_sector(disk, lba, &mut sector) {
                    Ok(()) => {}
                    Err(e) => {
                        proof {
                            assert((16 * s) / 16 == s);
                        }
                        return Err(e);
                    }
                }
                let mut slot: usize = 0;
                while slot < 16
                    invariant
                        geometry_ok(*self),
                        d == disk@,
                        spc == self.bpb.sectors_per_cluster,
                        2 <= cluster < FAT_ENTRY_EOC_MIN,
                        fuel > 0,
                        first_lba == cluster_lba(*self, cluster),
                        s < spc,
                        lba == first_lba + s,
                        has_sector(d, lba as int),
                        sector@ == sector_bytes(d, lba as int),
                        slot <= 16,
                        dir_listing(d, *self, dir_cluster, 0, MAX_SCAN_CLUSTERS as nat) == match dir_listing(d, *self, cluster, 16 * s + slot, fuel as nat) {
                            Err(e) => Err::<Seq<FatDirEntry>, VfsError>(e),
                            Ok(l) => Ok(out@ + l),
                        },
                    decreases 16 - slot,
                {
                    let entry = FatDirEntry::from_bytes(&sector, slot * 32);
                    proof {
                        lemma_sector_slot(d, lba as int, sector@, slot as int, entry);
                        assert((16 * s + slot) / 16 == s);
                        assert((16 * s + slot) % 16 == slot);
                    }
                    if entry.is_end() {
                        assert(out@ + Seq::<FatDirEntry>::empty() =~= out@);
                        return Ok(out);
                    }
                    if is_listed(&entry) {
                        let ghost before = out@;
                        out.push(entry);
                        proof {
                            match dir_listing(d, *self, cluster, 16 * s + slot + 1, fuel as nat) {
                                Err(e) => {},
                                Ok(l) => { assert(before + (seq![entry] + l) =~= out@ + l); },
                            }
                        }
                    }
                    slot = slot + 1;
                }
                s = s + 1;
            }
            cluster = match self.next_cluster(disk, cluster) {
                Ok(n) => n,
                Err(e) => return Err(e),
            };
            fuel = fuel - 1;
        }
        assert(out@ + Seq::<FatDirEntry>::empty() =~= out@);
        Ok(out)
    }
}

} // verus!
