//! Reading a FAT32 volume's cluster chains from its device: the next
//! cluster a FAT entry names, and the bytes of a file read along its chain.
//! The device is a run of 512-byte sectors held in memory, sector `s` at
//! bytes `[512 s, 512 s + 512)`.

use vstd::prelude::*;
use crate::encoding::le32;
use crate::vfs::fat32::{fat_next, Fat32Fs, FAT_ENTRY_EOC, FAT_ENTRY_EOC_MIN, FAT_ENTRY_FREE, FAT_ENTRY_MASK, FAT_ENTRY_BAD};
use crate::vfs::inode::{VfsError, VfsResult};
use crate::vfs::racfs_volume::{has_sector, lemma_with_sector_index, read_device_sector, sector_bytes, with_sector, write_device_sector};

verus! {

/// The geometry `Fat32Fs::new` derives holds: a cluster is a whole number
/// (at least one) of 512-byte sectors.
pub open spec fn geometry_ok(fs: Fat32Fs) -> bool {
    &&& fs.bpb.sectors_per_cluster != 0
    &&& fs.cluster_size == fs.bpb.sectors_per_cluster as int * 512
    &&& fs.data_offset <= 0xFFFF_FFFF_FFFF
    &&& fs.fat_offset <= 0xFFFF_FFFF
    &&& fs.bpb.sectors_per_fat_32 != 0
}

/// Sector of the first FAT holding the entry of cluster `c`.
pub open spec fn fat_sector(fs: Fat32Fs, c: u32) -> int {
    fs.fat_offset + (c as int * 4) / 512
}

/// The next cluster the first FAT records for cluster `c`; IoError when
/// its sector is not on the device.
pub open spec fn fat_entry(d: Seq<u8>, fs: Fat32Fs, c: u32) -> VfsResult<u32> {
    if !has_sector(d, fat_sector(fs, c)) {
        Err(VfsError::IoError)
    } else {
        Ok(fat_next(le32(sector_bytes(d, fat_sector(fs, c)), (c as int * 4) % 512) as u32))
    }
}

/// First sector of data cluster `c` (clusters count from 2).
pub open spec fn cluster_lba(fs: Fat32Fs, c: u32) -> int {
    fs.data_offset + (c - 2) * fs.bpb.sectors_per_cluster
}

/// The cluster `n` links down the chain from `cur`: None when the chain
/// ends first; a FAT read error.
pub open spec fn skip_clusters(d: Seq<u8>, fs: Fat32Fs, cur: u32, n: int) -> VfsResult<Option<u32>>
    decreases n,
{
    if n <= 0 {
        Ok(Some(cur))
    } else {
        match fat_entry(d, fs, cur) {
            Err(e) => Err(e),
            Ok(nx) => if nx >= FAT_ENTRY_EOC_MIN { Ok(None) } else { skip_clusters(d, fs, nx, n - 1) },
        }
    }
}

/// The bytes read along the chain from cluster `cur`, starting `coff`
/// bytes into it, at most `rem` of them: the chain's end stops the read;
/// IoError when a sector to read is not on the device, or a FAT read's
/// error. None when the chain runs into cluster 0 or 1, which names no
/// data cluster.
pub open spec fn read_clusters(d: Seq<u8>, fs: Fat32Fs, cur: u32, coff: int, rem: int) -> Option<VfsResult<Seq<u8>>>
    decreases rem,
{
    if rem <= 0 || cur >= FAT_ENTRY_EOC_MIN {
        Some(Ok(Seq::empty()))
    } else if cur < 2 || coff < 0 || coff >= fs.cluster_size || fs.cluster_size == 0 {
        None
    } else {
        let take = if fs.cluster_size - coff < rem { fs.cluster_size - coff } else { rem };
        let lba = cluster_lba(fs, cur);
        if !has_sector(d, lba + (coff + take - 1) / 512) {
            Some(Err(VfsError::IoError))
        } else {
            let bytes = d.subrange(512 * lba + coff, 512 * lba + coff + take);
            if rem - take <= 0 {
                Some(Ok(bytes))
            } else {
                match fat_entry(d, fs, cur) {
                    Err(e) => Some(Err(e)),
                    Ok(nx) => match read_clusters(d, fs, nx, 0, rem - take) {
                        None => None,
                        Some(Err(e)) => Some(Err(e)),
                        Some(Ok(more)) => Some(Ok(bytes + more)),
                    },
                }
            }
        }
    }
}

/// What reading at most `len` bytes from `offset` of the file whose chain
/// starts at `start` finds (see [`read_clusters`]): nothing for a start
/// below 2 or an offset past the chain's end.
pub open spec fn chain_read(d: Seq<u8>, fs: Fat32Fs, start: u32, offset: u64, len: int) -> Option<VfsResult<Seq<u8>>> {
    if start < 2 {
        Some(Ok(Seq::empty()))
    } else {
        match skip_clusters(d, fs, start, (offset / fs.cluster_size) as int) {
            Err(e) => Some(Err(e)),
            Ok(None) => Some(Ok(Seq::empty())),
            Ok(Some(c)) => read_clusters(d, fs, c, (offset % fs.cluster_size) as int, len),
        }
    }
}

/// Sector of FAT copy `k` holding the entry of cluster `c`.
pub open spec fn fat_copy_sector(fs: Fat32Fs, k: int, c: u32) -> int {
    fs.fat_offset + k * fs.bpb.sectors_per_fat_32 + (c as int * 4) / 512
}

/// Device position of the entry of cluster `c` in FAT copy `k`.
pub open spec fn fat_entry_pos(fs: Fat32Fs, k: int, c: u32) -> int {
    512 * fat_copy_sector(fs, k, c) + (c as int * 4) % 512
}

/// Byte `j` is one of the entry bytes of cluster `c` in FAT copies
/// `[0, n)`.
pub open spec fn in_entry_copies(fs: Fat32Fs, c: u32, n: int, j: int) -> bool {
    exists|k: int| 0 <= k < n && #[trigger] fat_entry_pos(fs, k, c) <= j < fat_entry_pos(fs, k, c) + 4
}

/// The first free cluster in `[c, upper)`, reading the first FAT: None
/// when there is none; a FAT read error.
pub open spec fn first_free_cluster(d: Seq<u8>, fs: Fat32Fs, c: int, upper: int) -> VfsResult<Option<u32>>
    decreases upper - c,
{
    if c >= upper || c < 0 || c > u32::MAX {
        Ok(None)
    } else {
        match fat_entry(d, fs, c as u32) {
            Err(e) => Err(e),
            Ok(v) => if v == FAT_ENTRY_FREE { Ok(Some(c as u32)) } else { first_free_cluster(d, fs, c + 1, upper) },
        }
    }
}

/// Clusters the allocator scans: from 2 to the end of the data area, at
/// most the first 2^20.
pub open spec fn alloc_upper(fs: Fat32Fs) -> int {
    let t = if fs.total_clusters as int + 2 > u32::MAX { u32::MAX as int } else { fs.total_clusters as int + 2 };
    if t < 1_048_576 { t } else { 1_048_576 }
}

impl Fat32Fs {
    /// The next cluster recorded for `cluster` (see [`fat_entry`]).
    pub fn next_cluster(&self, disk: &Vec<u8>, cluster: u32) -> (r: VfsResult<u32>)
        requires
            geometry_ok(*self),
        ensures
            r == fat_entry(disk@, *self, cluster),
    {
        let fat_sector = self.fat_offset + (cluster as u64 * 4 / 512);
        let offset = ((cluster as u64 * 4) % 512) as usize;
        let mut sector = [0u8; 512];
        match read_device_sector(disk, fat_sector, &mut sector) {
            Ok(()) => {}
            Err(e) => return Err(e),
        }
        let b: &[u8] = &sector;
        Ok(crate::vfs::fat32::fat_entry_in_sector(b, offset))
    }

    /// Set the FAT entry of `cluster` to `value` (its low 28 bits) in every
    /// FAT copy, keeping each entry's top four bits; IoError when a copy's
    /// sector is not on the device (the copies before it are written). No
    /// other byte changes.
    pub(crate) fn write_fat_entry(&self, disk: &mut Vec<u8>, cluster: u32, value: u32) -> (r: VfsResult<()>)
        requires
            geometry_ok(*self),
        ensures
            final(disk)@.len() == old(disk)@.len(),
            (self.bpb.fat_count == 0 || has_sector(old(disk)@, fat_copy_sector(*self, self.bpb.fat_count - 1, cluster)))
                ==> r is Ok,
            r is Ok && self.bpb.fat_count > 0 ==> fat_entry(final(disk)@, *self, cluster) == Ok::<u32, VfsError>(value & FAT_ENTRY_MASK),
            r is Err ==> r == Err::<(), VfsError>(VfsError::IoError),
            forall|j: int| 0 <= j < old(disk)@.len() && !in_entry_copies(*self, cluster, self.bpb.fat_count as int, j)
                ==> #[trigger] final(disk)@[j] == old(disk)@[j],
    {
        let ghost d0 = disk@;
        let spf = self.bpb.sectors_per_fat_32 as u64;
        let sec_within = cluster as u64 * 4 / 512;
        let offset = ((cluster as u64 * 4) % 512) as usize;
        assert(offset + 4 <= 512) by (nonlinear_arith)
            requires
                offset == (cluster as int * 4) % 512,
        ;
        let count = self.bpb.fat_count as u64;
        let mut k: u64 = 0;
        while k < count
            invariant
                geometry_ok(*self),
                count == self.bpb.fat_count,
                spf == self.bpb.sectors_per_fat_32,
                sec_within == (cluster as int * 4) / 512,
                offset == (cluster as int * 4) % 512,
                offset + 4 <= 512,
                k <= count,
                disk@.len() == d0.len(),
                d0 == old(disk)@,
                k > 0 ==> fat_entry(disk@, *self, cluster) == Ok::<u32, VfsError>(value & FAT_ENTRY_MASK),
                forall|j: int| 0 <= j < d0.len() && !in_entry_copies(*self, cluster, k as int, j)
                    ==> #[trigger] disk@[j] == d0[j],
            decreases count - k,
        {
            proof {
                assert(k * spf <= 255 * 0xFFFF_FFFF) by (nonlinear_arith)
                    requires
                        k < 256,
                        spf <= 0xFFFF_FFFF,
                ;
            }
            let lba = self.fat_offset + k * spf + sec_within;
            let mut buf = [0u8; 512];
            let ghost before = disk@;
            match read_device_sector(disk, lba, &mut buf) {
                Ok(()) => {}
                Err(e) => {
                    proof {
                        if count > 0 && has_sector(d0, fat_copy_sector(*self, count - 1, cluster)) {
                            assert(fat_copy_sector(*self, k as int, cluster) <= fat_copy_sector(*self, count - 1, cluster)) by (nonlinear_arith)
                                requires
                                    k <= count - 1,
                                    spf >= 1,
                                    spf == self.bpb.sectors_per_fat_32,
                            ;
                            assert(has_sector(before, lba as int));
                        }
                    }
                    return Err(e);
                }
            }
            let ghost s0 = buf@;
            crate::vfs::fat32::set_fat_entry_in_sector(&mut buf, offset, value);
            let w = write_device_sector(disk, lba, &buf);
            proof {
                let pk = fat_entry_pos(*self, k as int, cluster);
                assert(pk == 512 * lba + offset);
                assert forall|j: int| 0 <= j < d0.len() && !in_entry_copies(*self, cluster, k + 1, j)
                    implies #[trigger] disk@[j] == d0[j] by {
                    lemma_with_sector_index(before, lba as int, buf@, j);
                    if 512 * lba <= j < 512 * lba + 512 {
                        let t = j - 512 * lba;
                        assert(!(offset <= t < offset + 4)) by {
                            if offset <= t < offset + 4 {
                                assert(fat_entry_pos(*self, k as int, cluster) <= j < fat_entry_pos(*self, k as int, cluster) + 4);
                                assert(in_entry_copies(*self, cluster, k + 1, j));
                            }
                        }
                        assert(buf@[t] == s0[t]);
                    }
                    if in_entry_copies(*self, cluster, k as int, j) {
                        let kk = choose|kk: int| 0 <= kk < k && #[trigger] fat_entry_pos(*self, kk, cluster) <= j < fat_entry_pos(*self, kk, cluster) + 4;
                        assert(in_entry_copies(*self, cluster, k + 1, j));
                    }
                }
                if k == 0 {
                    assert(fat_copy_sector(*self, 0, cluster) == lba);
                    assert forall|t: int| 0 <= t < 512 implies #[trigger] sector_bytes(disk@, lba as int)[t] == buf@[t] by {
                        lemma_with_sector_index(before, lba as int, buf@, 512 * lba + t);
                    }
                    assert(sector_bytes(disk@, lba as int) =~= buf@);
                    let raw = le32(buf@, offset as int) as u32;
                    assert(raw == ((le32(s0, offset as int) as u32) & 0xF000_0000) | (value & FAT_ENTRY_MASK));
                    let o = le32(s0, offset as int) as u32;
                    assert((((o & 0xF000_0000u32) | (value & 0x0FFF_FFFFu32)) & 0x0FFF_FFFFu32) == value & 0x0FFF_FFFFu32) by (bit_vector);
                } else {
                    let p0 = fat_entry_pos(*self, 0, cluster);
                    assert forall|t: int| 0 <= t < 512 implies #[trigger] sector_bytes(disk@, fat_copy_sector(*self, 0, cluster))[t]
                        == sector_bytes(before, fat_copy_sector(*self, 0, cluster))[t] by {
                        let j = 512 * fat_copy_sector(*self, 0, cluster) + t;
                        lemma_with_sector_index(before, lba as int, buf@, j);
                        if 512 * lba <= j < 512 * lba + 512 {
                            let f0 = fat_copy_sector(*self, 0, cluster);
                            assert(f0 == self.fat_offset + sec_within);
                            assert(lba as int >= f0 + 1) by (nonlinear_arith)
                                requires
                                    k >= 1,
                                    lba == self.fat_offset + k * spf + sec_within,
                                    f0 == self.fat_offset + sec_within,
                                    spf >= 1,
                            ;
                            assert(false) by (nonlinear_arith)
                                requires
                                    j == 512 * fat_copy_sector(*self, 0, cluster) + t,
                                    0 <= t < 512,
                                    512 * lba <= j,
                                    lba >= fat_copy_sector(*self, 0, cluster) + 1,
                            ;
                        }
                    }
                    assert(sector_bytes(disk@, fat_copy_sector(*self, 0, cluster)) =~= sector_bytes(before, fat_copy_sector(*self, 0, cluster)));
                }
            }
            k = k + 1;
        }
        Ok(())
    }

    /// Allocate the first free cluster (see [`first_free_cluster`]): its
    /// entry is set to end-of-chain and its sectors zeroed. The scan's
    /// error or NoSpace, with nothing changed; IoError when writing fails.
    pub(crate) fn alloc_cluster(&self, disk: &mut Vec<u8>) -> (r: VfsResult<u32>)
        requires
            geometry_ok(*self),
        ensures
            final(disk)@.len() == old(disk)@.len(),
            match first_free_cluster(old(disk)@, *self, 2, alloc_upper(*self)) {
                Err(e) => r == Err::<u32, VfsError>(e) && final(disk)@ == old(disk)@,
                Ok(None) => r == Err::<u32, VfsError>(VfsError::NoSpace) && final(disk)@ == old(disk)@,
                Ok(Some(c)) => {
                    &&& r is Err ==> r == Err::<u32, VfsError>(VfsError::IoError)
                    &&& r is Ok ==> r == Ok::<u32, VfsError>(c)
                        && (self.bpb.fat_count > 0 && fat_sector(*self, c) < cluster_lba(*self, c)
                            ==> fat_entry(final(disk)@, *self, c) == Ok::<u32, VfsError>(FAT_ENTRY_EOC))
                        && (forall|j: int| 512 * cluster_lba(*self, c) <= j < 512 * (cluster_lba(*self, c) + self.bpb.sectors_per_cluster)
                            ==> #[trigger] final(disk)@[j] == 0u8)
                        && (forall|j: int| 0 <= j < old(disk)@.len() && !in_entry_copies(*self, c, self.bpb.fat_count as int, j)
                            && !(512 * cluster_lba(*self, c) <= j < 512 * (cluster_lba(*self, c) + self.bpb.sectors_per_cluster))
                            ==> #[trigger] final(disk)@[j] == old(disk)@[j])
                },
            },
    {
        let t: u32 = self.total_clusters.saturating_add(2);
        let upper: u32 = if t < 1_048_576 { t } else { 1_048_576 };
        assert(upper == alloc_upper(*self));
        let mut c: u32 = 2;
        while c < upper
            invariant
                geometry_ok(*self),
                upper == alloc_upper(*self),
                upper <= 1_048_576,
                2 <= c,
                disk@ == old(disk)@,
                first_free_cluster(disk@, *self, 2, upper as int) == first_free_cluster(disk@, *self, c as int, upper as int),
            decreases upper - c,
        {
            let entry = match self.next_cluster(disk, c) {
                Ok(v) => v,
                Err(e) => return Err(e),
            };
            if entry == FAT_ENTRY_FREE {
                assert(first_free_cluster(old(disk)@, *self, 2, alloc_upper(*self)) == Ok::<Option<u32>, VfsError>(Some(c)));
                match self.write_fat_entry(disk, c, FAT_ENTRY_EOC) {
                    Ok(()) => {}
                    Err(e) => return Err(e),
                }
                assert(FAT_ENTRY_EOC & FAT_ENTRY_MASK == FAT_ENTRY_EOC) by (bit_vector);
                proof {
                    assert((c - 2) * self.bpb.sectors_per_cluster <= 1_048_576 * 255) by (nonlinear_arith)
                        requires
                            2 <= c < 1_048_576,
                            self.bpb.sectors_per_cluster <= 255,
                    ;
                }
                let lba = self.cluster_to_lba(c);
                let spc = self.bpb.sectors_per_cluster as u64;
                let zero = [0u8; 512];
                assert(zero@ =~= Seq::new(512, |j: int| 0u8));
                let ghost d1 = disk@;
                let mut sct: u64 = 0;
                while sct < spc
                    invariant
                        geometry_ok(*self),
                        lba == cluster_lba(*self, c),
                        lba <= 0xFFFF_FFFF_FFFF + 1_048_576 * 255,
                        spc == self.bpb.sectors_per_cluster,
                        sct <= spc,
                        zero@ == Seq::new(512, |j: int| 0u8),
                        disk@.len() == d1.len(),
                        d1.len() == old(disk)@.len(),
                        first_free_cluster(old(disk)@, *self, 2, alloc_upper(*self)) == Ok::<Option<u32>, VfsError>(Some(c)),
                        self.bpb.fat_count > 0 ==> fat_entry(d1, *self, c) == Ok::<u32, VfsError>(FAT_ENTRY_EOC),
                        forall|j: int| 0 <= j < d1.len() && !in_entry_copies(*self, c, self.bpb.fat_count as int, j)
                            ==> #[trigger] d1[j] == old(disk)@[j],
                        forall|j: int| 512 * lba <= j < 512 * (lba + sct) ==> #[trigger] disk@[j] == 0u8,
                        forall|j: int| 0 <= j < d1.len() && !(512 * lba <= j < 512 * (lba + sct)) ==> #[trigger] disk@[j] == d1[j],
                    decreases spc - sct,
                {
                    let ghost before = disk@;
                    match write_device_sector(disk, lba + sct, &zero) {
                        Ok(()) => {}
                        Err(e) => return Err(e),
                    }
                    proof {
                        assert forall|j: int| 0 <= j < before.len() implies #[trigger] disk@[j]
                            == (if 512 * (lba + sct) <= j < 512 * (lba + sct) + 512 { 0u8 } else { before[j] }) by {
                            lemma_with_sector_index(before, (lba + sct) as int, zero@, j);
                        }
                    }
                    sct = sct + 1;
                }
                proof {
                    let fsec = fat_sector(*self, c);
                    if self.bpb.fat_count > 0 && fsec < lba && has_sector(d1, fsec) {
                        assert forall|t: int| 0 <= t < 512 implies #[trigger] sector_bytes(disk@, fsec)[t] == sector_bytes(d1, fsec)[t] by {
                            assert(512 * fsec + t < 512 * lba);
                        }
                        assert(sector_bytes(disk@, fsec) =~= sector_bytes(d1, fsec));
                    }
                }
                return Ok(c);
            }
            c = c + 1;
        }
        Err(VfsError::NoSpace)
    }

    /// Write `data` at `offset` into the file whose chain starts at
    /// `start_cluster` (0: no clusters yet): the chain is followed, and
    /// extended with fresh clusters, until it covers the end of the write,
    /// then the bytes are written cluster by cluster. Returns the chain's
    /// first cluster (the old start when it had one) and the length written;
    /// the run of clusters used then holds the bytes (see [`chain_written`]).
    #[verifier::rlimit(40)]
    pub fn write_chain(&self, disk: &mut Vec<u8>, start_cluster: u32, offset: u64, data: &[u8]) -> (r: VfsResult<(u32, usize)>)
        requires
            geometry_ok(*self),
            offset + data@.len() + self.cluster_size <= u64::MAX,
            (offset + data@.len() + self.cluster_size - 1) / (self.cluster_size as int) <= u32::MAX,
        ensures
            final(disk)@.len() == old(disk)@.len(),
            data@.len() == 0 ==> r == Ok::<(u32, usize), VfsError>((start_cluster, 0usize)) && final(disk)@ == old(disk)@,
            r matches Ok((head, n)) ==> n == data@.len() && (n > 0 ==> 2 <= head < FAT_ENTRY_EOC_MIN),
            r matches Ok((head, n)) ==> (n > 0 && 2 <= start_cluster < FAT_ENTRY_EOC_MIN ==> head == start_cluster),
            r matches Err(e) ==> e == VfsError::IoError || e == VfsError::NoSpace,
            r is Ok && r->Ok_0.1 > 0 ==> chain_written(final(disk)@, *self, r->Ok_0.0, offset, data@),
            data@.len() > 0 && chain_ready(old(disk)@, *self, start_cluster, offset + data@.len())
                ==> r == Ok::<(u32, usize), VfsError>((start_cluster, data@.len() as usize)),
    {
        if data.len() == 0 {
            return Ok((start_cluster, 0));
        }
        let cs = self.cluster_size;
        let total_end = offset + data.len() as u64;
        let needed64 = (total_end + cs - 1) / cs;
        let needed = needed64 as u32;
        assert(needed >= 1 && total_end <= needed * cs) by (nonlinear_arith)
            requires
                needed == (total_end + cs - 1) / (cs as int),
                total_end >= 1,
                cs >= 1,
        ;
        let ghost len0 = disk@.len();
        let ghost hyp = chain_ready(old(disk)@, *self, start_cluster, offset + data@.len());
        let mut chain: Vec<u32> = Vec::new();
        let mut cur = start_cluster;
        while cur >= 2 && cur < FAT_ENTRY_EOC_MIN && (chain.len() as u32) < needed
            invariant
                hyp == chain_ready(old(disk)@, *self, start_cluster, total_end as int),
                needed == (total_end + cs - 1) / (cs as int),
                cs == self.cluster_size,
                total_end == offset + data@.len(),
                hyp && chain@.len() < needed ==> skip_clusters(old(disk)@, *self, start_cluster, chain@.len() as int)
                    == Ok::<Option<u32>, VfsError>(Some(cur)),
                hyp ==> forall|k: int, t: int| 0 <= k < chain@.len() && 0 <= t < self.bpb.sectors_per_cluster
                    ==> #[trigger] has_sector(old(disk)@, cluster_lba(*self, chain@[k]) + t),
                geometry_ok(*self),
                data@.len() > 0,
                disk@ == old(disk)@,
                len0 == old(disk)@.len(),
                chain@.len() <= needed,
                forall|k: int| 0 <= k < chain@.len() ==> 2 <= #[trigger] chain@[k] < FAT_ENTRY_EOC_MIN,
                chain@.len() > 0 && 2 <= start_cluster < FAT_ENTRY_EOC_MIN ==> chain@[0] == start_cluster,
                chain@.len() == 0 ==> cur == start_cluster,
                chain_linked(disk@, *self, chain@),
                chain@.len() > 0 ==> fat_entry(disk@, *self, chain@.last()) == Ok::<u32, VfsError>(cur),
            decreases needed - chain@.len(),
        {
            let ghost before = chain@;
            let ghost i = chain@.len() as int;
            proof {
                if hyp {
                    assert(cluster_on_device(old(disk)@, *self, skip_clusters(old(disk)@, *self, start_cluster, i)));
                    lemma_skip_step(old(disk)@, *self, start_cluster, i, cur);
                    if i + 1 < needed {
                        assert(cluster_on_device(old(disk)@, *self, skip_clusters(old(disk)@, *self, start_cluster, i + 1)));
                    } else {
                        assert(skip_clusters(old(disk)@, *self, start_cluster, needed as int) is Ok);
                    }
                }
            }
            chain.push(cur);
            let ghost pushed = cur;
            cur = match self.next_cluster(disk, cur) {
                Ok(c) => c,
                Err(e) => return Err(e),
            };
            proof {
                if hyp {
                    assert forall|k: int, t: int| 0 <= k < chain@.len() && 0 <= t < self.bpb.sectors_per_cluster
                        implies #[trigger] has_sector(old(disk)@, cluster_lba(*self, chain@[k]) + t) by {
                        if k < i {
                            assert(chain@[k] == before[k]);
                        } else {
                            assert(chain@[k] == pushed);
                        }
                    }
                }
            }
            proof {
                assert forall|k: int| 0 <= k < chain@.len() - 1 implies #[trigger] fat_entry(disk@, *self, chain@[k]) == Ok::<u32, VfsError>(chain@[k + 1]) by {
                    if k < before.len() - 1 {
                        assert(chain@[k] == before[k] && chain@[k + 1] == before[k + 1]);
                    } else {
                        assert(chain@[k] == before.last());
                        assert(chain@[k + 1] == pushed);
                    }
                }
            }
        }
        assert(hyp ==> chain@.len() == needed);
        while (chain.len() as u32) < needed
            invariant
                hyp ==> chain@.len() == needed,
                hyp == chain_ready(old(disk)@, *self, start_cluster, total_end as int),
                total_end == offset + data@.len(),
                hyp ==> forall|k: int, t: int| 0 <= k < chain@.len() && 0 <= t < self.bpb.sectors_per_cluster
                    ==> #[trigger] has_sector(old(disk)@, cluster_lba(*self, chain@[k]) + t),
                geometry_ok(*self),
                data@.len() > 0,
                disk@.len() == len0,
                len0 == old(disk)@.len(),
                chain@.len() <= needed,
                forall|k: int| 0 <= k < chain@.len() ==> 2 <= #[trigger] chain@[k] < FAT_ENTRY_EOC_MIN,
                chain@.len() > 0 && 2 <= start_cluster < FAT_ENTRY_EOC_MIN ==> chain@[0] == start_cluster,
                chain@.len() == 0 ==> !(2 <= start_cluster < FAT_ENTRY_EOC_MIN),
                fat_layout_ok(*self) && chain_ok(*self, chain@) ==> chain_linked(disk@, *self, chain@),
            decreases needed - chain@.len(),
        {
            let ghost dpre = disk@;
            let ghost chpre = chain@;
            proof {
                lemma_first_free_cluster_range(dpre, *self, 2, alloc_upper(*self));
                lemma_first_free_cluster_error(dpre, *self, 2, alloc_upper(*self));
            }
            let new_cluster = match self.alloc_cluster(disk) {
                Ok(c) => c,
                Err(e) => return Err(e),
            };
            let ghost da = disk@;
            proof {
                match first_free_cluster(dpre, *self, 2, alloc_upper(*self)) {
                    Ok(Some(cc)) => { assert(cc == new_cluster); },
                    _ => { assert(false); },
                }
            }
            if chain.len() > 0 {
                let prev = chain[chain.len() - 1];
                match self.write_fat_entry(disk, prev, new_cluster) {
                    Ok(()) => {}
                    Err(e) => return Err(e),
                }
            }
            chain.push(new_cluster);
            proof {
                let dw = disk@;
                if fat_layout_ok(*self) && chain_ok(*self, chain@) {
                    assert(chain_ok(*self, chpre)) by {
                        assert forall|k: int| 0 <= k < chpre.len() implies in_fat(*self, #[trigger] chpre[k]) by {
                            assert(chain@[k] == chpre[k]);
                        }
                        assert forall|i: int, j: int| 0 <= i < j < chpre.len() implies #[trigger] chpre[i] != #[trigger] chpre[j] by {
                            assert(chain@[i] == chpre[i] && chain@[j] == chpre[j]);
                        }
                    }
                    assert(in_fat(*self, new_cluster)) by {
                        assert(chain@[chain@.len() - 1] == new_cluster);
                    }
                    assert forall|k: int| 0 <= k < chain@.len() - 1 implies #[trigger] fat_entry(dw, *self, chain@[k]) == Ok::<u32, VfsError>(chain@[k + 1]) by {
                        let x = chain@[k];
                        assert(x == chpre[k]);
                        assert(in_fat(*self, x));
                        assert(x != new_cluster) by {
                            assert(chain@[chain@.len() - 1] == new_cluster);
                        }
                        assert forall|j: int| fat_entry_pos(*self, 0, x) <= j < fat_entry_pos(*self, 0, x) + 4 && 0 <= j < dpre.len() implies dpre[j] == da[j] by {
                            lemma_entry_apart(*self, new_cluster, x, j);
                            lemma_entry_pos(*self, 0, x);
                            assert(512 * cluster_lba(*self, new_cluster) >= 512 * self.data_offset);
                        }
                        lemma_fat_entry_same(dpre, da, *self, x);
                        if k < chpre.len() - 1 {
                            assert(chain@[k + 1] == chpre[k + 1]);
                            if chpre.len() > 0 {
                                let prev = chpre[chpre.len() - 1];
                                assert(x != prev) by {
                                    assert(chain@[chpre.len() - 1] == prev);
                                }
                                assert forall|j: int| fat_entry_pos(*self, 0, x) <= j < fat_entry_pos(*self, 0, x) + 4 && 0 <= j < da.len() implies da[j] == dw[j] by {
                                    lemma_entry_apart(*self, prev, x, j);
                                    lemma_entry_pos(*self, 0, x);
                                }
                                lemma_fat_entry_same(da, dw, *self, x);
                            }
                        } else {
                            assert(k == chpre.len() - 1);
                            assert(chain@[k + 1] == new_cluster);
                            assert(new_cluster & FAT_ENTRY_MASK == new_cluster) by (bit_vector)
                                requires
                                    new_cluster < 0x0FFF_FFF8u32,
                            ;
                        }
                    }
                }
            }
        }
        let head = chain[0];
        let len = data.len();
        let mut done: usize = 0;
        let mut pos: u64 = offset;
        assert(hyp ==> head == start_cluster);
        while done < len
            invariant
                hyp == chain_ready(old(disk)@, *self, start_cluster, total_end as int),
                hyp ==> head == start_cluster,
                hyp ==> forall|k: int, t: int| 0 <= k < chain@.len() && 0 <= t < self.bpb.sectors_per_cluster
                    ==> #[trigger] has_sector(old(disk)@, cluster_lba(*self, chain@[k]) + t),
                geometry_ok(*self),
                data@.len() > 0,
                cs == self.cluster_size,
                disk@.len() == len0,
                len0 == old(disk)@.len(),
                len == data@.len(),
                chain@.len() == needed,
                needed == (total_end + cs - 1) / (cs as int),
                total_end <= needed * cs,
                total_end == offset + len,
                pos == offset + done,
                done <= len,
                head == chain@[0],
                forall|k: int| 0 <= k < chain@.len() ==> 2 <= #[trigger] chain@[k] < FAT_ENTRY_EOC_MIN,
                fat_layout_ok(*self) && chain_ok(*self, chain@) ==> chain_linked(disk@, *self, chain@),
                fat_layout_ok(*self) && chain_ok(*self, chain@) ==> forall|i: int| 0 <= i < done
                    ==> disk@[#[trigger] chain_pos(*self, chain@, offset + i)] == data@[i],
                forall|i: int| 0 <= i < done ==> has_sector(disk@, #[trigger] chain_pos(*self, chain@, offset + i) / 512),
            decreases len - done,
        {
            let index = (pos / cs) as usize;
            let off_in_cluster = pos % cs;
            proof {
                assert(pos / cs < needed) by (nonlinear_arith)
                    requires
                        pos < total_end,
                        needed == (total_end + cs - 1) / (cs as int),
                        cs >= 1,
                ;
                assert(index * cs + off_in_cluster == pos && off_in_cluster < cs) by (nonlinear_arith)
                    requires
                        index == pos / cs,
                        off_in_cluster == pos % cs,
                        cs >= 1,
                ;
            }
            let cluster = chain[index];
            proof {
                assert((cluster - 2) * self.bpb.sectors_per_cluster <= 0x0FFF_FFFF * 255) by (nonlinear_arith)
                    requires
                        2 <= cluster < 0x0FFF_FFF8,
                        self.bpb.sectors_per_cluster <= 255,
                ;
            }
            let first_lba = self.cluster_to_lba(cluster);
            let sector_in_cluster = off_in_cluster / 512;
            let sector_offset = (off_in_cluster % 512) as usize;
            let lba = first_lba + sector_in_cluster;
            proof {
                if hyp {
                    assert(sector_in_cluster < self.bpb.sectors_per_cluster) by (nonlinear_arith)
                        requires
                            sector_in_cluster == off_in_cluster / 512,
                            off_in_cluster < cs,
                            cs == self.bpb.sectors_per_cluster as int * 512,
                    ;
                    assert(has_sector(old(disk)@, cluster_lba(*self, chain@[index as int]) + sector_in_cluster));
                    assert(has_sector(disk@, lba as int));
                }
            }
            let remain_in_sector = 512 - sector_offset;
            let remain_in_cluster = (cs - off_in_cluster) as usize;
            let remain_in_data = len - done;
            let a = if remain_in_sector < remain_in_cluster { remain_in_sector } else { remain_in_cluster };
            let to_copy = if a < remain_in_data { a } else { remain_in_data };
            let ghost d0 = disk@;
            let mut sector_buf = [0u8; 512];
            let whole = !(sector_offset != 0 || to_copy != 512);
            if !whole {
                match read_device_sector(disk, lba, &mut sector_buf) {
                    Ok(()) => {}
                    Err(e) => return Err(e),
                }
            }
            let ghost buf0 = sector_buf@;
            let mut k: usize = 0;
            while k < to_copy
                invariant
                    to_copy <= 512 - sector_offset,
                    done + to_copy <= len,
                    len == data@.len(),
                    k <= to_copy,
                    sector_buf@.len() == 512,
                    forall|t: int| 0 <= t < k ==> #[trigger] sector_buf@[sector_offset + t] == data@[done + t],
                    forall|t: int| 0 <= t < 512 && !(sector_offset <= t < sector_offset + k) ==> #[trigger] sector_buf@[t] == buf0[t],
                decreases to_copy - k,
            {
                sector_buf[sector_offset + k] = data[done + k];
                k = k + 1;
            }
            match write_device_sector(disk, lba, &sector_buf) {
                Ok(()) => {}
                Err(e) => return Err(e),
            }
            proof {
                let d1 = disk@;
                assert(has_sector(d0, lba as int));
                assert(to_copy >= 1);
                assert(512 * lba + sector_offset == 512 * first_lba + off_in_cluster) by (nonlinear_arith)
                    requires
                        lba == first_lba + off_in_cluster / 512,
                        sector_offset == off_in_cluster % 512,
                ;
                assert(first_lba == cluster_lba(*self, cluster));
                assert forall|t: int| 0 <= t < to_copy implies #[trigger] chain_pos(*self, chain@, pos + t) == 512 * lba + sector_offset + t by {
                    lemma_div_in(pos + t, index as int, cs as int);
                }
                assert(512 * lba >= 512 * self.data_offset);
                if fat_layout_ok(*self) && chain_ok(*self, chain@) {
                    assert forall|kk: int| 0 <= kk < chain@.len() - 1 implies #[trigger] fat_entry(d1, *self, chain@[kk]) == Ok::<u32, VfsError>(chain@[kk + 1]) by {
                        let x = chain@[kk];
                        assert(in_fat(*self, x));
                        assert forall|j: int| fat_entry_pos(*self, 0, x) <= j < fat_entry_pos(*self, 0, x) + 4 && 0 <= j < d0.len() implies d0[j] == d1[j] by {
                            lemma_entry_pos(*self, 0, x);
                            assert(4 * x + 4 <= 512 * self.bpb.sectors_per_fat_32) by (nonlinear_arith)
                                requires
                                    (x as int * 4) / 512 < self.bpb.sectors_per_fat_32,
                            ;
                            assert(self.bpb.fat_count * self.bpb.sectors_per_fat_32 >= self.bpb.sectors_per_fat_32) by (nonlinear_arith)
                                requires
                                    self.bpb.fat_count >= 1,
                            ;
                            crate::vfs::racfs_volume::lemma_with_sector_index(d0, lba as int, sector_buf@, j);
                        }
                        lemma_fat_entry_same(d0, d1, *self, x);
                    }
                    assert forall|i: int| 0 <= i < done + to_copy implies d1[#[trigger] chain_pos(*self, chain@, offset + i)] == data@[i] by {
                        let p = chain_pos(*self, chain@, offset + i);
                        if i < done {
                            crate::vfs::racfs_volume::lemma_with_sector_index(d0, lba as int, sector_buf@, p);
                            if 512 * lba <= p < 512 * lba + 512 {
                                let idx = p - 512 * lba;
                                if sector_offset <= idx < sector_offset + to_copy {
                                    let t = idx - sector_offset;
                                    assert(chain_pos(*self, chain@, pos + t) == p);
                                    lemma_chain_pos_injective(*self, chain@, pos + t, offset + i);
                                    assert(false);
                                } else {
                                    assert(!whole);
                                    assert(sector_buf@[idx] == buf0[idx]);
                                }
                            }
                        } else {
                            let t = i - done;
                            assert(chain_pos(*self, chain@, pos + t) == 512 * lba + sector_offset + t);
                            assert(offset + i == pos + t);
                            crate::vfs::racfs_volume::lemma_with_sector_index(d0, lba as int, sector_buf@, p);
                            assert(sector_buf@[sector_offset + t] == data@[done + t]);
                        }
                    }
                }
                assert forall|i: int| 0 <= i < done + to_copy implies has_sector(d1, #[trigger] chain_pos(*self, chain@, offset + i) / 512) by {
                    if i >= done {
                        let t = i - done;
                        assert(chain_pos(*self, chain@, pos + t) == 512 * lba + sector_offset + t);
                        assert(offset + i == pos + t);
                        assert((512 * lba + sector_offset + t) / 512 == lba) by (nonlinear_arith)
                            requires
                                0 <= sector_offset + t < 512,
                        ;
                    }
                }
            }
            done = done + to_copy;
            pos = pos + to_copy as u64;
        }
        proof {
            let ch = chain@;
            assert(chain_covers(*self, ch, head, offset + data@.len()));
            if fat_layout_ok(*self) && chain_ok(*self, ch) {
                assert(chain_linked(disk@, *self, ch));
                assert forall|i: int| 0 <= i < data@.len() implies has_sector(disk@, #[trigger] chain_pos(*self, ch, offset + i) / 512)
                    && disk@[chain_pos(*self, ch, offset + i)] == data@[i] by {
                }
                assert(chain_holds(disk@, *self, ch, offset as int, data@));
            }
            assert(chain_covers(*self, ch, head, offset + data@.len())
                && (fat_layout_ok(*self) && chain_ok(*self, ch)
                    ==> chain_linked(disk@, *self, ch) && chain_holds(disk@, *self, ch, offset as int, data@)));
            assert(chain_written(disk@, *self, head, offset, data@));
        }
        Ok((head, len))
    }
    /// Read at most `buf.len()` bytes from `offset` of the file whose chain
    /// starts at `start_cluster` (see [`chain_read`]); the bytes read fill
    /// the front of `buf`, the rest of it keeps its contents.
    pub fn read_chain(&self, disk: &Vec<u8>, start_cluster: u32, offset: u64, buf: &mut [u8]) -> (r: VfsResult<usize>)
        requires
            geometry_ok(*self),
            chain_read(disk@, *self, start_cluster, offset, old(buf)@.len() as int) is Some,
        ensures
            final(buf)@.len() == old(buf)@.len(),
            match chain_read(disk@, *self, start_cluster, offset, old(buf)@.len() as int) {
                Some(Ok(bytes)) => {
                    &&& r == Ok::<usize, VfsError>(bytes.len() as usize)
                    &&& bytes.len() <= old(buf)@.len()
                    &&& final(buf)@.subrange(0, bytes.len() as int) == bytes
                    &&& final(buf)@.subrange(bytes.len() as int, old(buf)@.len() as int)
                        == old(buf)@.subrange(bytes.len() as int, old(buf)@.len() as int)
                },
                Some(Err(e)) => r == Err::<usize, VfsError>(e),
                None => false,
            },
    {
        if start_cluster < 2 {
            return Ok(0);
        }
        let ghost d = disk@;
        let ghost b0 = buf@;
        let cs = self.cluster_size;
        let mut current = start_cluster;
        let mut skip = offset / cs;
        let mut coff = offset % cs;
        while skip > 0
            invariant
                d == disk@,
                geometry_ok(*self),
                start_cluster >= 2,
                cs == self.cluster_size,
                skip_clusters(d, *self, start_cluster, (offset / cs) as int) == skip_clusters(d, *self, current, skip as int),
                coff == offset % cs,
            decreases skip,
        {
            current = match self.next_cluster(disk, current) {
                Ok(c) => c,
                Err(e) => return Err(e),
            };
            if current >= FAT_ENTRY_EOC_MIN {
                return Ok(0);
            }
            skip = skip - 1;
        }
        let len = buf.len();
        let mut done: usize = 0;
        let ghost mut got: Seq<u8> = Seq::empty();
        while done < len && current < FAT_ENTRY_EOC_MIN
            invariant
                d == disk@,
                b0 == old(buf)@,
                start_cluster >= 2,
                geometry_ok(*self),
                cs == self.cluster_size,
                len == b0.len(),
                buf@.len() == b0.len(),
                done <= len,
                got.len() == done,
                coff < cs,
                chain_read(d, *self, start_cluster, offset, len as int) == (match read_clusters(d, *self, current, coff as int, len - done) {
                    None => None,
                    Some(Err(e)) => Some(Err::<Seq<u8>, VfsError>(e)),
                    Some(Ok(more)) => Some(Ok::<Seq<u8>, VfsError>(got + more)),
                }),
                chain_read(d, *self, start_cluster, offset, len as int) is Some,
                buf@.subrange(0, done as int) == got,
                buf@.subrange(done as int, len as int) == b0.subrange(done as int, len as int),
            ensures
                done >= len || current >= FAT_ENTRY_EOC_MIN,
            decreases len - done,
        {
            proof {
                assert(current >= 2);
                assert((current - 2) * self.bpb.sectors_per_cluster <= 0x0FFF_FFFF * 255) by (nonlinear_arith)
                    requires
                        2 <= current < 0x0FFF_FFF8,
                        self.bpb.sectors_per_cluster <= 255,
                ;
            }
            let lba = self.cluster_to_lba(current);
            let take: usize = if cs - coff < (len - done) as u64 { (cs - coff) as usize } else { len - done };
            let ghost g0 = got;
            let ghost rem = len - done;
            proof {
                assert forall|m: int| done <= m < len implies #[trigger] buf@[m] == b0[m] by {
                    assert(buf@.subrange(done as int, len as int)[m - done] == b0.subrange(done as int, len as int)[m - done]);
                }
                assert forall|m: int| 0 <= m < done implies #[trigger] buf@[m] == g0[m] by {
                    assert(buf@.subrange(0, done as int)[m] == g0[m]);
                }
            }
            let mut k: usize = 0;
            while k < take
                invariant
                    d == disk@,
                    b0 == old(buf)@,
                    geometry_ok(*self),
                    cs == self.cluster_size,
                    2 <= current < FAT_ENTRY_EOC_MIN,
                    coff < cs,
                    rem == len - done,
                    rem > 0,
                    start_cluster >= 2,
                    chain_read(d, *self, start_cluster, offset, len as int) == (match read_clusters(d, *self, current, coff as int, rem) {
                        None => None,
                        Some(Err(e)) => Some(Err::<Seq<u8>, VfsError>(e)),
                        Some(Ok(more)) => Some(Ok::<Seq<u8>, VfsError>(g0 + more)),
                    }),
                    take == (if cs - coff < rem { cs - coff } else { rem }),
                    lba == cluster_lba(*self, current),
                    buf@.len() == b0.len(),
                    k <= take,
                    0 < take,
                    done + take <= len,
                    len == b0.len(),
                    coff + take <= cs,
                    cs <= 255 * 512,
                    lba <= 0xFFFF_FFFF_FFFF + 0x0FFF_FFFF * 255,
                    k > 0 ==> has_sector(d, lba + (coff + k - 1) / 512),
                    forall|m: int| 0 <= m < done ==> #[trigger] buf@[m] == g0[m],
                    forall|m: int| 0 <= m < k ==> #[trigger] buf@[done + m] == d[512 * lba + coff + m],
                    forall|m: int| done + k <= m < len ==> #[trigger] buf@[m] == b0[m],
                decreases take - k,
            {
                let pos = coff + k as u64;
                let s = lba + pos / 512;
                let mut sector = [0u8; 512];
                match read_device_sector(disk, s, &mut sector) {
                    Ok(()) => {}
                    Err(e) => {
                        proof {
                            assert(s as int <= lba + (coff + take - 1) / 512) by (nonlinear_arith)
                                requires
                                    s == lba + pos / 512,
                                    pos == coff + k,
                                    k < take,
                            ;
                            lemma_later_sector_missing(d, s as int, lba + (coff + take - 1) / 512);
                            assert(read_clusters(d, *self, current, coff as int, rem) == Some(Err::<Seq<u8>, VfsError>(VfsError::IoError)));
                        }
                        return Err(e);
                    }
                }
                let run = 512 - (pos % 512) as usize;
                let n = if run < take - k { run } else { take - k };
                proof {
                    assert((coff + k + n - 1) / 512 == pos / 512) by (nonlinear_arith)
                        requires
                            pos == coff + k,
                            1 <= n <= 512 - pos % 512,
                    ;
                }
                let mut m: usize = 0;
                while m < n
                    invariant
                        d == disk@,
                        b0 == old(buf)@,
                        buf@.len() == b0.len(),
                        m <= n,
                        k + n <= take,
                        done + take <= len,
                        len == b0.len(),
                        sector@ == sector_bytes(d, s as int),
                        has_sector(d, s as int),
                        pos == coff + k,
                        s == lba + pos / 512,
                        n <= 512 - pos % 512,
                        forall|j: int| 0 <= j < done ==> #[trigger] buf@[j] == g0[j],
                        forall|j: int| 0 <= j < k + m ==> #[trigger] buf@[done + j] == d[512 * lba + coff + j],
                        forall|j: int| done + k + m <= j < len ==> #[trigger] buf@[j] == b0[j],
                    decreases n - m,
                {
                    proof {
                        assert(512 * s + pos % 512 + m == 512 * lba + coff + k + m) by (nonlinear_arith)
                            requires
                                s == lba + pos / 512,
                                pos == coff + k,
                        ;
                    }
                    buf[done + k + m] = sector[(pos % 512) as usize + m];
                    m = m + 1;
                }
                k = k + n;
            }
            let ghost bytes = d.subrange(512 * lba + coff, 512 * lba + coff + take);
            proof {
                assert(has_sector(d, lba + (coff + take - 1) / 512));
                assert forall|j: int| done <= j < done + take implies #[trigger] buf@[j] == bytes[j - done] by {
                    let m = j - done;
                    assert(buf@[done + m] == d[512 * lba + coff + m]);
                }
                assert(512 * lba + coff + take <= d.len()) by (nonlinear_arith)
                    requires
                        has_sector(d, lba + (coff + take - 1) / 512),
                        0 < take,
                        0 <= coff,
                        coff + take <= cs,
                ;
                assert(read_clusters(d, *self, current, coff as int, rem) == (if rem - take <= 0 {
                    Some(Ok::<Seq<u8>, VfsError>(bytes))
                } else {
                    match fat_entry(d, *self, current) {
                        Err(e) => Some(Err::<Seq<u8>, VfsError>(e)),
                        Ok(nx) => match read_clusters(d, *self, nx, 0, rem - take) {
                            None => None,
                            Some(Err(e)) => Some(Err::<Seq<u8>, VfsError>(e)),
                            Some(Ok(more)) => Some(Ok::<Seq<u8>, VfsError>(bytes + more)),
                        },
                    }
                }));
                got = g0 + bytes;
                assert(buf@.subrange(0, (done + take) as int) =~= got);
                assert(buf@.subrange((done + take) as int, len as int) =~= b0.subrange((done + take) as int, len as int));
            }
            done = done + take;
            if done >= len {
                proof {
                    assert(got + Seq::<u8>::empty() =~= got);
                }
                break;
            }
            let nx = match self.next_cluster(disk, current) {
                Ok(c) => c,
                Err(e) => return Err(e),
            };
            proof {
                assert forall|more: Seq<u8>| true implies #[trigger] (g0 + (bytes + more)) =~= got + more by {}
            }
            current = nx;
            coff = 0;
        }
        proof {
            assert(read_clusters(d, *self, current, coff as int, len - done) == Some(Ok::<Seq<u8>, VfsError>(Seq::empty())));
            assert(got + Seq::<u8>::empty() =~= got);
        }
        Ok(done)
    }
}

/// Sectors on a device form a prefix: one missing means every later one is.
proof fn lemma_later_sector_missing(d: Seq<u8>, s: int, t: int)
    requires
        0 <= s <= t,
        !has_sector(d, s),
    ensures
        !has_sector(d, t),
{
}

/// A cluster the allocator's scan finds is a data cluster number.
pub proof fn lemma_first_free_cluster_range(d: Seq<u8>, fs: Fat32Fs, c: int, upper: int)
    requires
        upper <= 1_048_576,
    ensures
        first_free_cluster(d, fs, c, upper) matches Ok(Some(x)) ==> c <= x < upper,
    decreases upper - c,
{
    if c < upper && 0 <= c <= u32::MAX {
        match fat_entry(d, fs, c as u32) {
            Err(_) => {}
            Ok(v) => if v != FAT_ENTRY_FREE { lemma_first_free_cluster_range(d, fs, c + 1, upper); },
        }
    }
}

/// The allocator's scan only fails with IoError.
pub proof fn lemma_first_free_cluster_error(d: Seq<u8>, fs: Fat32Fs, c: int, upper: int)
    ensures
        first_free_cluster(d, fs, c, upper) matches Err(e) ==> e == VfsError::IoError,
    decreases upper - c,
{
    if c < upper && 0 <= c <= u32::MAX {
        match fat_entry(d, fs, c as u32) {
            Err(_) => {}
            Ok(v) => if v != FAT_ENTRY_FREE { lemma_first_free_cluster_error(d, fs, c + 1, upper); },
        }
    }
}

/// The FATs lie before the data area, at least one of them.
pub open spec fn fat_layout_ok(fs: Fat32Fs) -> bool {
    &&& fs.bpb.fat_count >= 1
    &&& fs.fat_offset + fs.bpb.fat_count * fs.bpb.sectors_per_fat_32 <= fs.data_offset
}

/// Cluster `c`'s entry lies inside each FAT.
pub open spec fn in_fat(fs: Fat32Fs, c: u32) -> bool {
    (c as int * 4) / 512 < fs.bpb.sectors_per_fat_32
}

/// `ch` is a run of `needed` data clusters starting at `head`, enough to
/// hold bytes up to `end`.
pub open spec fn chain_covers(fs: Fat32Fs, ch: Seq<u32>, head: u32, end: int) -> bool {
    &&& ch.len() == (end + fs.cluster_size - 1) / (fs.cluster_size as int)
    &&& ch.len() > 0
    &&& ch[0] == head
    &&& forall|k: int| 0 <= k < ch.len() ==> 2 <= #[trigger] ch[k] < FAT_ENTRY_EOC_MIN
}

/// The clusters of `ch` are distinct and each has its entry inside the
/// FATs.
pub open spec fn chain_ok(fs: Fat32Fs, ch: Seq<u32>) -> bool {
    &&& forall|k: int| 0 <= k < ch.len() ==> in_fat(fs, #[trigger] ch[k])
    &&& forall|i: int, j: int| 0 <= i < j < ch.len() ==> #[trigger] ch[i] != #[trigger] ch[j]
}

/// The first FAT links the clusters of `ch` in order.
pub open spec fn chain_linked(d: Seq<u8>, fs: Fat32Fs, ch: Seq<u32>) -> bool {
    forall|k: int| 0 <= k < ch.len() - 1 ==> #[trigger] fat_entry(d, fs, ch[k]) == Ok::<u32, VfsError>(ch[k + 1])
}

/// Where byte `p` of a file whose chain is `ch` lies on the device.
pub open spec fn chain_pos(fs: Fat32Fs, ch: Seq<u32>, p: int) -> int {
    512 * cluster_lba(fs, ch[p / (fs.cluster_size as int)]) + p % (fs.cluster_size as int)
}

/// The file whose chain is `ch` holds `data` from byte `offset` on, in
/// sectors on the device.
pub open spec fn chain_holds(d: Seq<u8>, fs: Fat32Fs, ch: Seq<u32>, offset: int, data: Seq<u8>) -> bool {
    forall|i: int| 0 <= i < data.len() ==> has_sector(d, #[trigger] chain_pos(fs, ch, offset + i) / 512)
        && d[chain_pos(fs, ch, offset + i)] == data[i]
}

/// After a write of `data` at `offset` to the file whose chain now starts
/// at `head`: some run of clusters from `head` covers the write and, when
/// its clusters are distinct and inside FATs that lie before the data
/// area, the first FAT links them and they hold `data` from `offset` on.
pub open spec fn chain_written(d: Seq<u8>, fs: Fat32Fs, head: u32, offset: u64, data: Seq<u8>) -> bool {
    exists|ch: Seq<u32>| #[trigger] chain_covers(fs, ch, head, offset + data.len())
        && (fat_layout_ok(fs) && chain_ok(fs, ch) ==> chain_linked(d, fs, ch) && chain_holds(d, fs, ch, offset as int, data))
}

/// A position in the `k`-th cluster: its quotient and remainder.
proof fn lemma_div_in(q: int, k: int, cs: int)
    requires
        cs > 0,
        k * cs <= q < k * cs + cs,
    ensures
        q / cs == k,
        q % cs == q - k * cs,
{
    assert(q / cs == k && q % cs == q - k * cs) by (nonlinear_arith)
        requires
            cs > 0,
            k * cs <= q < k * cs + cs,
    ;
}

/// Following `m` links from the `k`-th cluster of a linked chain reaches
/// its `k + m`-th.
proof fn lemma_skip_chain(d: Seq<u8>, fs: Fat32Fs, ch: Seq<u32>, k: int, m: int)
    requires
        0 <= k,
        0 <= m,
        k + m < ch.len(),
        chain_linked(d, fs, ch),
        forall|i: int| 0 <= i < ch.len() ==> 2 <= #[trigger] ch[i] < FAT_ENTRY_EOC_MIN,
    ensures
        skip_clusters(d, fs, ch[k], m) == Ok::<Option<u32>, VfsError>(Some(ch[k + m])),
    decreases m,
{
    if m > 0 {
        assert(fat_entry(d, fs, ch[k]) == Ok::<u32, VfsError>(ch[k + 1]));
        assert(ch[k + 1] < FAT_ENTRY_EOC_MIN);
        lemma_skip_chain(d, fs, ch, k + 1, m - 1);
    }
}

/// `r` names a data cluster whose sectors are all on the device.
pub open spec fn cluster_on_device(d: Seq<u8>, fs: Fat32Fs, r: VfsResult<Option<u32>>) -> bool {
    &&& r is Ok
    &&& r->Ok_0 is Some
    &&& 2 <= r->Ok_0->0 < FAT_ENTRY_EOC_MIN
    &&& forall|s: int| 0 <= s < fs.bpb.sectors_per_cluster ==> #[trigger] has_sector(d, cluster_lba(fs, r->Ok_0->0) + s)
}

/// The chain from `start` already holds bytes up to `end`: each of the
/// clusters needed is a data cluster with its sectors on the device, and
/// the FAT entry after the last of them reads.
pub open spec fn chain_ready(d: Seq<u8>, fs: Fat32Fs, start: u32, end: int) -> bool {
    let needed = (end + fs.cluster_size - 1) / (fs.cluster_size as int);
    &&& forall|k: int| 0 <= k < needed ==> cluster_on_device(d, fs, #[trigger] skip_clusters(d, fs, start, k))
    &&& skip_clusters(d, fs, start, needed) is Ok
}

/// One step further down the chain reads the FAT entry of the cluster
/// reached.
proof fn lemma_skip_step(d: Seq<u8>, fs: Fat32Fs, start: u32, i: int, c: u32)
    requires
        0 <= i,
        skip_clusters(d, fs, start, i) == Ok::<Option<u32>, VfsError>(Some(c)),
    ensures
        skip_clusters(d, fs, start, i + 1) == (match fat_entry(d, fs, c) {
            Err(e) => Err(e),
            Ok(nx) => if nx >= FAT_ENTRY_EOC_MIN { Ok(None) } else { Ok(Some(nx)) },
        }),
    decreases i,
{
    if i == 0 {
        reveal_with_fuel(skip_clusters, 2);
    } else {
        assert(fat_entry(d, fs, start) is Ok);
        let nx = fat_entry(d, fs, start)->Ok_0;
        assert(nx < FAT_ENTRY_EOC_MIN);
        assert(skip_clusters(d, fs, nx, i - 1) == Ok::<Option<u32>, VfsError>(Some(c)));
        lemma_skip_step(d, fs, nx, i - 1, c);
        assert(skip_clusters(d, fs, start, i + 1) == skip_clusters(d, fs, nx, i));
    }
}

/// Reading along a linked chain from byte `p` (in cluster `k`, `coff`
/// into it) to the end of what it holds gives those bytes.
proof fn lemma_read_held(d: Seq<u8>, fs: Fat32Fs, ch: Seq<u32>, offset: int, data: Seq<u8>, k: int, coff: int)
    requires
        geometry_ok(fs),
        ch.len() == (offset + data.len() + fs.cluster_size - 1) / (fs.cluster_size as int),
        forall|i: int| 0 <= i < ch.len() ==> 2 <= #[trigger] ch[i] < FAT_ENTRY_EOC_MIN,
        chain_linked(d, fs, ch),
        chain_holds(d, fs, ch, offset, data),
        0 <= offset,
        0 <= k < ch.len(),
        0 <= coff < fs.cluster_size,
        offset <= k * fs.cluster_size + coff < offset + data.len(),
    ensures
        read_clusters(d, fs, ch[k], coff, offset + data.len() - (k * fs.cluster_size + coff))
            == Some(Ok::<Seq<u8>, VfsError>(data.subrange(k * fs.cluster_size + coff - offset, data.len() as int))),
    decreases offset + data.len() - (k * fs.cluster_size + coff),
{
    let cs = fs.cluster_size as int;
    let p = k * cs + coff;
    let end = offset + data.len();
    let rem = end - p;
    let take = if cs - coff < rem { cs - coff } else { rem };
    let lba = cluster_lba(fs, ch[k]);
    assert forall|t: int| 0 <= t < take implies #[trigger] chain_pos(fs, ch, p + t) == 512 * lba + coff + t by {
        lemma_div_in(p + t, k, cs);
    }
    assert(has_sector(d, lba + (coff + take - 1) / 512)) by {
        let i = p + take - 1 - offset;
        assert(chain_pos(fs, ch, p + (take - 1)) == 512 * lba + coff + (take - 1));
        assert(offset + i == p + (take - 1));
        assert(chain_pos(fs, ch, offset + i) == 512 * lba + coff + take - 1);
        assert((512 * lba + coff + take - 1) / 512 == lba + (coff + take - 1) / 512) by (nonlinear_arith)
            requires
                coff + take - 1 >= 0,
        ;
    }
    let bytes = d.subrange(512 * lba + coff, 512 * lba + coff + take);
    assert(bytes =~= data.subrange(p - offset, p - offset + take)) by {
        assert forall|t: int| 0 <= t < take implies #[trigger] bytes[t] == data[p - offset + t] by {
            let i = p - offset + t;
            assert(chain_pos(fs, ch, p + t) == 512 * lba + coff + t);
            assert(offset + i == p + t);
            assert(chain_pos(fs, ch, offset + i) == 512 * lba + coff + t);
        }
    }
    if rem - take <= 0 {
        assert(data.subrange(p - offset, p - offset + take) =~= data.subrange(p - offset, data.len() as int));
    } else {
        assert(take == cs - coff);
        assert(k * cs + cs == (k + 1) * cs) by (nonlinear_arith);
        assert((k + 1) * cs < end);
        assert(k + 1 < ch.len()) by (nonlinear_arith)
            requires
                (k + 1) * cs < end,
                ch.len() == (end + cs - 1) / cs,
                cs > 0,
                k * cs + cs == (k + 1) * cs,
        ;
        assert(fat_entry(d, fs, ch[k]) == Ok::<u32, VfsError>(ch[k + 1]));
        assert((k + 1) * cs + 0 == p + take) by (nonlinear_arith)
            requires
                p == k * cs + coff,
                take == cs - coff,
        ;
        lemma_read_held(d, fs, ch, offset, data, k + 1, 0);
        assert(data.subrange(p - offset, p - offset + take) + data.subrange(p + take - offset, data.len() as int)
            =~= data.subrange(p - offset, data.len() as int));
    }
}

/// Reading a file gives back what its chain holds: for a chain linked in
/// the first FAT that holds `data` from byte `offset` on, reading
/// `data.len()` bytes from `offset` reads exactly `data`.
pub proof fn lemma_chain_read_back(d: Seq<u8>, fs: Fat32Fs, ch: Seq<u32>, head: u32, offset: u64, data: Seq<u8>)
    requires
        geometry_ok(fs),
        data.len() > 0,
        chain_covers(fs, ch, head, offset + data.len()),
        chain_linked(d, fs, ch),
        chain_holds(d, fs, ch, offset as int, data),
    ensures
        chain_read(d, fs, head, offset, data.len() as int) == Some(Ok::<Seq<u8>, VfsError>(data)),
{
    let cs = fs.cluster_size as int;
    let o = offset as int;
    let m = o / cs;
    let coff = o % cs;
    let end = offset + data.len();
    assert((offset / fs.cluster_size) as int == m && (offset % fs.cluster_size) as int == coff);
    assert(m * cs + coff == o && 0 <= coff < cs && 0 <= m) by (nonlinear_arith)
        requires
            m == o / cs,
            coff == o % cs,
            cs > 0,
            o >= 0,
    ;
    assert(m < ch.len()) by (nonlinear_arith)
        requires
            m * cs <= offset,
            offset < end,
            ch.len() == (end + cs - 1) / cs,
            cs > 0,
    ;
    lemma_skip_chain(d, fs, ch, 0, m);
    lemma_read_held(d, fs, ch, offset as int, data, m, coff);
    assert(data.subrange(0, data.len() as int) =~= data);
}

/// The entry of cluster `c` in FAT copy `k` starts `4 c` bytes into that
/// copy.
proof fn lemma_entry_pos(fs: Fat32Fs, k: int, c: u32)
    ensures
        fat_entry_pos(fs, k, c) == 512 * fs.fat_offset + 512 * (k * fs.bpb.sectors_per_fat_32) + 4 * c,
{
    let x = c as int * 4;
    assert(512 * (x / 512) + x % 512 == x) by (nonlinear_arith)
        requires
            x >= 0,
    ;
    assert(512 * (fs.fat_offset + k * fs.bpb.sectors_per_fat_32 + x / 512)
        == 512 * fs.fat_offset + 512 * (k * fs.bpb.sectors_per_fat_32) + 512 * (x / 512)) by (nonlinear_arith);
}

/// The first FAT's entry of `x` reads the same from two devices of one
/// length that agree on its four bytes.
proof fn lemma_fat_entry_same(d0: Seq<u8>, d1: Seq<u8>, fs: Fat32Fs, x: u32)
    requires
        d0.len() == d1.len(),
        forall|j: int| fat_entry_pos(fs, 0, x) <= j < fat_entry_pos(fs, 0, x) + 4 && 0 <= j < d0.len() ==> d0[j] == d1[j],
    ensures
        fat_entry(d1, fs, x) == fat_entry(d0, fs, x),
{
    let s = fat_sector(fs, x);
    let o = (x as int * 4) % 512;
    assert(fat_copy_sector(fs, 0, x) == s);
    assert(fat_entry_pos(fs, 0, x) == 512 * s + o);
    if has_sector(d0, s) {
        assert(0 <= o && o + 4 <= 512) by (nonlinear_arith)
            requires
                o == (x as int * 4) % 512,
        ;
        let b0 = sector_bytes(d0, s);
        let b1 = sector_bytes(d1, s);
        assert(b0[o] == b1[o]);
        assert(b0[o + 1] == b1[o + 1]);
        assert(b0[o + 2] == b1[o + 2]);
        assert(b0[o + 3] == b1[o + 3]);
    }
}

/// The first FAT's entry of a cluster inside the FATs shares no byte with
/// any copy of another cluster's entry, and lies before the data area.
proof fn lemma_entry_apart(fs: Fat32Fs, c: u32, x: u32, j: int)
    requires
        in_fat(fs, x),
        c != x,
        fat_entry_pos(fs, 0, x) <= j < fat_entry_pos(fs, 0, x) + 4,
    ensures
        !in_entry_copies(fs, c, fs.bpb.fat_count as int, j),
        fat_layout_ok(fs) ==> j < 512 * fs.data_offset,
{
    lemma_entry_pos(fs, 0, x);
    let spf = fs.bpb.sectors_per_fat_32 as int;
    assert(4 * x + 4 <= 512 * spf) by (nonlinear_arith)
        requires
            (x as int * 4) / 512 < spf,
    ;
    if in_entry_copies(fs, c, fs.bpb.fat_count as int, j) {
        let k = choose|k: int| 0 <= k < fs.bpb.fat_count && #[trigger] fat_entry_pos(fs, k, c) <= j < fat_entry_pos(fs, k, c) + 4;
        lemma_entry_pos(fs, k, c);
        if k == 0 {
            assert(0 * spf == 0);
        } else {
            assert(k * spf >= spf) by (nonlinear_arith)
                requires
                    k >= 1,
                    spf >= 0,
            ;
        }
    }
    if fat_layout_ok(fs) {
        assert(fs.bpb.fat_count * spf >= spf) by (nonlinear_arith)
            requires
                fs.bpb.fat_count >= 1,
                spf >= 0,
        ;
    }
}

/// Distinct bytes of a file whose chain has distinct clusters lie at
/// distinct places on the device.
proof fn lemma_chain_pos_injective(fs: Fat32Fs, ch: Seq<u32>, q1: int, q2: int)
    requires
        geometry_ok(fs),
        forall|k: int| 0 <= k < ch.len() ==> 2 <= #[trigger] ch[k] < FAT_ENTRY_EOC_MIN,
        forall|i: int, j: int| 0 <= i < j < ch.len() ==> #[trigger] ch[i] != #[trigger] ch[j],
        0 <= q1 < ch.len() * fs.cluster_size,
        0 <= q2 < ch.len() * fs.cluster_size,
        chain_pos(fs, ch, q1) == chain_pos(fs, ch, q2),
    ensures
        q1 == q2,
{
    let cs = fs.cluster_size as int;
    let spc = fs.bpb.sectors_per_cluster as int;
    let i1 = q1 / cs;
    let i2 = q2 / cs;
    let r1 = q1 % cs;
    let r2 = q2 % cs;
    assert(0 <= i1 < ch.len() && 0 <= i2 < ch.len() && 0 <= r1 < cs && 0 <= r2 < cs
        && q1 == cs * i1 + r1 && q2 == cs * i2 + r2) by (nonlinear_arith)
        requires
            cs > 0,
            0 <= q1 < ch.len() * cs,
            0 <= q2 < ch.len() * cs,
            i1 == q1 / cs,
            i2 == q2 / cs,
            r1 == q1 % cs,
            r2 == q2 % cs,
    ;
    let c1 = ch[i1] as int;
    let c2 = ch[i2] as int;
    assert(512 * (fs.data_offset + (c1 - 2) * spc) + r1 == 512 * (fs.data_offset + (c2 - 2) * spc) + r2);
    assert(c1 == c2 && r1 == r2) by (nonlinear_arith)
        requires
            512 * (fs.data_offset + (c1 - 2) * spc) + r1 == 512 * (fs.data_offset + (c2 - 2) * spc) + r2,
            cs == spc * 512,
            0 <= r1 < cs,
            0 <= r2 < cs,
            c1 >= 2,
            c2 >= 2,
    ;
    if i1 < i2 {
        assert(ch[i1] != ch[i2]);
    } else if i2 < i1 {
        assert(ch[i2] != ch[i1]);
    }
}

/// What a write put in a file is what reading it gives back: after
/// `write_chain` wrote `data` at `offset` through the run of clusters
/// `ch` from `head` (see [`chain_written`]), on a volume whose FATs lie
/// before its data area, and when the clusters of that run are distinct
/// and have their entries inside the FATs, reading `data.len()` bytes
/// from `offset` of the file at `head` reads exactly `data`.
pub proof fn lemma_write_then_read_chain(d: Seq<u8>, fs: Fat32Fs, ch: Seq<u32>, head: u32, offset: u64, data: Seq<u8>)
    requires
        geometry_ok(fs),
        fat_layout_ok(fs),
        data.len() > 0,
        chain_covers(fs, ch, head, offset + data.len()),
        chain_ok(fs, ch),
        fat_layout_ok(fs) && chain_ok(fs, ch) ==> chain_linked(d, fs, ch) && chain_holds(d, fs, ch, offset as int, data),
    ensures
        chain_read(d, fs, head, offset, data.len() as int) == Some(Ok::<Seq<u8>, VfsError>(data)),
{
    lemma_chain_read_back(d, fs, ch, head, offset, data);
}

} // verus!
