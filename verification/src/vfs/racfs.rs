//! racfs: the on-disk format of the writable block filesystem, its layout
//! rule, its allocation bitmap and its block addressing.
//!
//! Sector 0 holds the superblock; then come the allocation bitmap (one bit
//! per data block), the inode table (128-byte inodes) and the data blocks
//! (512 bytes each). Records are stored little-endian at fixed offsets.

use vstd::prelude::*;
use crate::encoding::{le16, le32, read_le16, read_le32, write_le16, write_le32};
use crate::vfs::inode::{VfsError, VfsResult};

verus! {

/// Sector size of the block device.
pub const SECTOR_SIZE: usize = 512;
/// "RACF".
pub const RACFS_MAGIC: u32 = 0x5241_4346;
pub const RACFS_VERSION: u32 = 1;
/// Fixed number of inodes.
pub const MAX_INODES: usize = 128;
/// On-disk inode size in bytes.
pub const INODE_DISK_SIZE: usize = 128;
/// Inodes in one sector of the inode table.
pub const INODES_PER_SECTOR: usize = 4;
/// Longest file name a directory entry holds.
pub const MAX_NAME_LEN: usize = 60;
/// Bytes of name stored in a directory entry.
pub const DIR_NAME_BYTES: usize = 56;
/// Direct block pointers per inode.
pub const DIRECT_BLOCKS: usize = 8;
/// Block pointers in one indirect block.
pub const POINTERS_PER_BLOCK: usize = 128;
/// Logical blocks reached through the single-indirect pointer.
pub const SINGLE_INDIRECT_BLOCKS: usize = 128;
/// Logical blocks reached through the double-indirect pointer.
pub const DOUBLE_INDIRECT_BLOCKS: usize = 16384;
/// Logical blocks a file can address.
pub const MAX_FILE_BLOCKS: usize = 16520;
/// Data blocks one bitmap sector describes.
pub const BLOCKS_PER_BITMAP_SECTOR: usize = 4096;
/// On-disk directory entry size.
pub const DIR_ENTRY_SIZE: usize = 64;
/// Directory entries per data block.
pub const DIR_ENTRIES_PER_BLOCK: usize = 8;
/// Inode type tags.
pub const ITYPE_FREE: u8 = 0;
pub const ITYPE_FILE: u8 = 1;
pub const ITYPE_DIR: u8 = 2;

/// The superblock (sector 0).
#[derive(Debug, Clone, Copy, PartialEq, Eq, Structural)]
pub struct Superblock {
    pub magic: u32,
    pub version: u32,
    pub total_sectors: u32,
    pub inode_count: u32,
    pub data_block_count: u32,
    /// Sector offsets of the bitmap, inode table and data area.
    pub bitmap_start: u32,
    pub inode_start: u32,
    pub data_start: u32,
    pub free_inodes: u32,
    pub free_blocks: u32,
}

/// Sectors of bitmap: the gap between bitmap and inode table, at least one.
pub open spec fn bitmap_sectors_of(sb: Superblock) -> int {
    if sb.inode_start > sb.bitmap_start && sb.inode_start - sb.bitmap_start > 1 {
        sb.inode_start - sb.bitmap_start
    } else {
        1
    }
}

/// Usage figures `(total_blocks, free_blocks, total_inodes, free_inodes)`
/// of a superblock, counting only the data blocks its bitmap can describe
/// (blocks beyond that are neither total nor free).
pub open spec fn stats_of(sb: Superblock) -> (u32, u32, u32, u32) {
    let a = if bitmap_sectors_of(sb) * 4096 > u32::MAX { u32::MAX as int }
        else { bitmap_sectors_of(sb) * 4096 };
    let total = if sb.data_block_count < a { sb.data_block_count as int } else { a };
    let unreachable = if sb.data_block_count > a { sb.data_block_count - a } else { 0 };
    (total as u32,
     (if sb.free_blocks > unreachable { sb.free_blocks - unreachable } else { 0 }) as u32,
     sb.inode_count,
     sb.free_inodes)
}

impl Superblock {
    /// Sectors the allocation bitmap occupies: derived from the gap between
    /// bitmap and inode table (at least one), so images whose bitmap was a
    /// single sector still read correctly.
    pub fn bitmap_sectors(&self) -> (r: u32)
        ensures
            r == bitmap_sectors_of(*self),
    {
        let gap = self.inode_start.saturating_sub(self.bitmap_start);
        if gap > 1 { gap } else { 1 }
    }

    /// Data blocks the bitmap can describe (saturating at `usize::MAX`).
    pub fn addressable_blocks(&self) -> (r: usize)
        ensures
            r == (if bitmap_sectors_of(*self) * 4096 > usize::MAX { usize::MAX as int }
                else { bitmap_sectors_of(*self) * 4096 }),
    {
        let n = self.bitmap_sectors() as usize;
        if n > usize::MAX / BLOCKS_PER_BITMAP_SECTOR {
            usize::MAX
        } else {
            n * BLOCKS_PER_BITMAP_SECTOR
        }
    }

    /// Usage figures `(total_blocks, free_blocks, total_inodes,
    /// free_inodes)`, counting only the data blocks the bitmap can describe.
    pub fn stats(&self) -> (r: (u32, u32, u32, u32))
        ensures
            r == stats_of(*self),
    {
        let addressable_all = self.addressable_blocks();
        let addressable: u32 = if addressable_all > u32::MAX as usize { u32::MAX } else { addressable_all as u32 };
        let total = if self.data_block_count < addressable { self.data_block_count } else { addressable };
        let unreachable = self.data_block_count.saturating_sub(addressable);
        (total, self.free_blocks.saturating_sub(unreachable), self.inode_count, self.free_inodes)
    }
}

/// What a consistency check found.
#[derive(Debug, Clone, Copy, Default)]
pub struct FsckReport {
    /// Blocks marked used that no live inode references (wasted, safe).
    pub leaked_blocks: u32,
    /// Blocks a live inode references but the bitmap calls free (dangerous).
    pub unallocated_in_use: u32,
    /// Blocks claimed by more than one inode (dangerous).
    pub doubly_claimed: u32,
    /// Directory entries pointing at a free inode.
    pub dangling_entries: u32,
    /// Directory entries with an inode number out of range.
    pub out_of_range_entries: u32,
    /// Used blocks per superblock minus used blocks per bitmap.
    pub superblock_free_blocks_drift: i64,
    /// Data blocks the bitmap cannot describe.
    pub unaddressable_blocks: u32,
}

impl FsckReport {
    /// Nothing was wrong (unaddressable blocks are a fact of an old layout,
    /// not damage).
    pub fn is_clean(&self) -> (r: bool)
        ensures
            r == (self.leaked_blocks == 0 && self.unallocated_in_use == 0 && self.doubly_claimed == 0
                && self.dangling_entries == 0 && self.out_of_range_entries == 0
                && self.superblock_free_blocks_drift == 0),
    {
        self.leaked_blocks == 0
            && self.unallocated_in_use == 0
            && self.doubly_claimed == 0
            && self.dangling_entries == 0
            && self.out_of_range_entries == 0
            && self.superblock_free_blocks_drift == 0
    }

    /// Damage that can corrupt live data if the filesystem is used as is.
    pub fn is_dangerous(&self) -> (r: bool)
        ensures
            r == (self.unallocated_in_use > 0 || self.doubly_claimed > 0),
    {
        self.unallocated_in_use > 0 || self.doubly_claimed > 0
    }
}

/// An on-disk inode.
#[derive(Debug, Clone, Copy, PartialEq, Eq)]
pub struct DiskInode {
    pub itype: u8,
    pub mode: u16,
    pub size: u32,
    pub nlink: u16,
    pub uid: u32,
    pub gid: u32,
    /// Direct block indices (1-based data blocks; 0 = none).
    pub direct: [u32; 8],
    /// Number of directory entries (directories).
    pub dir_entry_count: u32,
    /// Block of further block indices, or 0.
    pub indirect: u32,
    /// Block of single-indirect block indices, or 0.
    pub double_indirect: u32,
}

/// An on-disk directory entry.
#[derive(Debug, Clone, Copy, PartialEq, Eq)]
pub struct DiskDirEntry {
    pub ino: u32,
    /// Bytes of `name` in use (at most 56 once decoded).
    pub name_len: u8,
    pub name: [u8; 56],
}

/// The superblock stored in sector `d`.
pub open spec fn superblock_of(d: Seq<u8>) -> Superblock {
    Superblock {
        magic: le32(d, 0) as u32,
        version: le32(d, 4) as u32,
        total_sectors: le32(d, 8) as u32,
        inode_count: le32(d, 12) as u32,
        data_block_count: le32(d, 16) as u32,
        bitmap_start: le32(d, 20) as u32,
        inode_start: le32(d, 24) as u32,
        data_start: le32(d, 28) as u32,
        free_inodes: le32(d, 32) as u32,
        free_blocks: le32(d, 36) as u32,
    }
}

/// The `u16` at `off`.
fn read_u16_le(buf: &[u8], off: usize) -> (r: u16)
    requires
        off + 2 <= buf@.len(),
    ensures
        r == le16(buf@, off as int),
{
    read_le16(buf, off)
}

/// The `u32` at `off`.
fn read_u32_le(buf: &[u8], off: usize) -> (r: u32)
    requires
        off + 4 <= buf@.len(),
    ensures
        r == le32(buf@, off as int),
{
    read_le32(buf, off)
}

/// Decode the superblock from sector 0.
pub fn superblock_from_sector(buf: &[u8; 512]) -> (sb: Superblock)
    ensures
        sb == superblock_of(buf@),
{
    let b: &[u8] = buf;
    Superblock {
        magic: read_u32_le(b, 0),
        version: read_u32_le(b, 4),
        total_sectors: read_u32_le(b, 8),
        inode_count: read_u32_le(b, 12),
        data_block_count: read_u32_le(b, 16),
        bitmap_start: read_u32_le(b, 20),
        inode_start: read_u32_le(b, 24),
        data_start: read_u32_le(b, 28),
        free_inodes: read_u32_le(b, 32),
        free_blocks: read_u32_le(b, 36),
    }
}

/// Encode the superblock as sector 0: its fields in order, zeros after.
pub fn superblock_to_sector(sb: &Superblock) -> (buf: [u8; 512])
    ensures
        superblock_of(buf@) == *sb,
        forall|j: int| 40 <= j < 512 ==> buf@[j] == 0,
{
    let mut buf = [0u8; 512];
    let ghost zero = buf@;
    write_le32(&mut buf, 0, sb.magic);
    write_le32(&mut buf, 4, sb.version);
    write_le32(&mut buf, 8, sb.total_sectors);
    write_le32(&mut buf, 12, sb.inode_count);
    write_le32(&mut buf, 16, sb.data_block_count);
    write_le32(&mut buf, 20, sb.bitmap_start);
    write_le32(&mut buf, 24, sb.inode_start);
    write_le32(&mut buf, 28, sb.data_start);
    write_le32(&mut buf, 32, sb.free_inodes);
    write_le32(&mut buf, 36, sb.free_blocks);
    assert(forall|j: int| 40 <= j < 512 ==> buf@[j] == zero[j]);
    buf
}

/// `i` is what the 128 inode bytes `d` decode to.
pub open spec fn inode_decodes_to(d: Seq<u8>, i: DiskInode) -> bool {
    &&& i.itype == d[0]
    &&& i.mode == le16(d, 1)
    &&& i.size == le32(d, 4)
    &&& i.nlink == le16(d, 8)
    &&& i.uid == le32(d, 10)
    &&& i.gid == le32(d, 14)
    &&& forall|k: int| 0 <= k < 8 ==> #[trigger] i.direct@[k] == le32(d, 16 + 4 * k)
    &&& i.dir_entry_count == le32(d, 48)
    &&& i.indirect == le32(d, 52)
    &&& i.double_indirect == le32(d, 56)
}

/// The group id an inode reads back as: the layout stores the group id at
/// bytes 14..18 and the first direct pointer at 16..20, so the upper half
/// of the group id shares its bytes with the lower half of `direct[0]`,
/// and the pointer, written last, wins.
pub open spec fn stored_gid(i: DiskInode) -> u32 {
    (i.gid % 65536 + (i.direct@[0] % 65536) * 65536) as u32
}

/// The inode as it reads back once stored (see [`stored_gid`]).
pub open spec fn as_stored(i: DiskInode) -> DiskInode {
    DiskInode { gid: stored_gid(i), ..i }
}

/// Decode an on-disk inode from its bytes.
pub fn inode_from_bytes(buf: &[u8]) -> (r: DiskInode)
    requires
        buf@.len() >= 60,
    ensures
        inode_decodes_to(buf@, r),
{
    let mut direct = [0u32; 8];
    let mut i: usize = 0;
    while i < DIRECT_BLOCKS
        invariant
            i <= 8,
            buf@.len() >= 60,
            forall|k: int| 0 <= k < i ==> #[trigger] direct@[k] == le32(buf@, 16 + 4 * k),
        decreases 8 - i,
    {
        direct[i] = read_u32_le(buf, 16 + i * 4);
        i = i + 1;
    }
    DiskInode {
        itype: buf[0],
        mode: read_u16_le(buf, 1),
        size: read_u32_le(buf, 4),
        nlink: read_u16_le(buf, 8),
        uid: read_u32_le(buf, 10),
        gid: read_u32_le(buf, 14),
        direct,
        dir_entry_count: read_u32_le(buf, 48),
        indirect: read_u32_le(buf, 52),
        double_indirect: read_u32_le(buf, 56),
    }
}

/// Encode an inode as its 128 on-disk bytes. Decoding them gives the inode
/// back, with its group id as [`stored_gid`] says.
pub fn inode_to_bytes(inode: &DiskInode) -> (buf: [u8; 128])
    ensures
        inode_decodes_to(buf@, as_stored(*inode)),
        buf@[3] == 0,
        forall|j: int| 60 <= j < 128 ==> buf@[j] == 0,
{
    let mut buf = [0u8; 128];
    let ghost zero = buf@;
    assert(forall|j: int| 0 <= j < 128 ==> zero[j] == 0);
    buf[0] = inode.itype;
    write_le16(&mut buf, 1, inode.mode);
    write_le32(&mut buf, 4, inode.size);
    write_le16(&mut buf, 8, inode.nlink);
    write_le32(&mut buf, 10, inode.uid);
    write_le32(&mut buf, 14, inode.gid);
    let ghost g = buf@;
    assert(g[0] == inode.itype);
    assert(g[3] == 0);
    assert(le16(g, 1) == inode.mode);
    assert(le32(g, 4) == inode.size);
    assert(le16(g, 8) == inode.nlink);
    assert(le32(g, 10) == inode.uid);
    assert(g[14] == inode.gid % 256 && g[15] == (inode.gid / 256) % 256);
    assert(forall|j: int| 18 <= j < 128 ==> g[j] == 0);
    let mut i: usize = 0;
    while i < DIRECT_BLOCKS
        invariant
            i <= 8,
            buf@.len() == 128,
            g.len() == 128,
            forall|k: int| 0 <= k < i ==> #[trigger] inode.direct@[k] == le32(buf@, 16 + 4 * k),
            forall|j: int| 0 <= j < 128 && !(16 <= j < 16 + 4 * i) ==> buf@[j] == g[j],
        decreases 8 - i,
    {
        let ghost before = buf@;
        write_le32(&mut buf, 16 + i * 4, inode.direct[i]);
        assert forall|k: int| 0 <= k < i + 1 implies #[trigger] inode.direct@[k] == le32(buf@, 16 + 4 * k) by {
            if k < i {
                assert(le32(buf@, 16 + 4 * k) == le32(before, 16 + 4 * k));
            }
        }
        i = i + 1;
    }
    let ghost d = buf@;
    write_le32(&mut buf, 48, inode.dir_entry_count);
    write_le32(&mut buf, 52, inode.indirect);
    write_le32(&mut buf, 56, inode.double_indirect);
    proof {
        let b = buf@;
        assert(forall|j: int| 0 <= j < 48 ==> b[j] == d[j]);
        assert(b[0] == inode.itype);
        assert(le16(b, 1) == le16(g, 1));
        assert(le32(b, 4) == le32(g, 4));
        assert(le16(b, 8) == le16(g, 8));
        assert(le32(b, 10) == le32(g, 10));
        assert forall|k: int| 0 <= k < 8 implies #[trigger] inode.direct@[k] == le32(b, 16 + 4 * k) by {
            assert(le32(b, 16 + 4 * k) == le32(d, 16 + 4 * k));
        }
        assert(b[14] == g[14] && b[15] == g[15]);
        assert(le32(b, 16) == inode.direct@[0]);
        lemma_stored_gid_bytes(inode.gid, inode.direct@[0], b[14], b[15], b[16], b[17], b[18], b[19]);
        let st = as_stored(*inode);
        assert(st.direct == inode.direct);
        assert(inode_decodes_to(b, st));
        assert forall|j: int| 60 <= j < 128 implies b[j] == 0 by {
            assert(b[j] == d[j]);
            assert(d[j] == g[j]);
        }
    }
    buf
}

/// The four bytes at 14 read back as the low half of `g` under the low
/// half of `d0`.
proof fn lemma_stored_gid_bytes(g: u32, d0: u32, b14: u8, b15: u8, b16: u8, b17: u8, b18: u8, b19: u8)
    requires
        b14 == g % 256,
        b15 == (g / 256) % 256,
        b16 + b17 * 256 + b18 * 65536 + b19 * 16777216 == d0,
    ensures
        b14 + b15 * 256 + b16 * 65536 + b17 * 16777216 == g % 65536 + (d0 % 65536) * 65536,
{
    assert(g % 256 + ((g / 256) % 256) * 256 == g % 65536) by (nonlinear_arith);
    assert(d0 % 65536 == b16 + b17 * 256) by (nonlinear_arith)
        requires
            b16 + b17 * 256 + b18 * 65536 + b19 * 16777216 == d0,
            b16 < 256, b17 < 256;
}

/// Decoding the bytes an inode was encoded to gives that inode back, its
/// group id as [`stored_gid`] says; exactly when the upper half of the
/// group id equals the lower half of `direct[0]` it is the inode itself.
pub proof fn lemma_inode_round_trip(inode: DiskInode, d: Seq<u8>, back: DiskInode)
    requires
        inode_decodes_to(d, as_stored(inode)),
        inode_decodes_to(d, back),
    ensures
        back == as_stored(inode),
        (inode.gid / 65536 == inode.direct@[0] % 65536) ==> back == inode,
{
    let st = as_stored(inode);
    assert(st.direct == inode.direct);
    assert forall|k: int| 0 <= k < 8 implies back.direct@[k] == inode.direct@[k] by {
        assert(back.direct@[k] == le32(d, 16 + 4 * k));
        assert(st.direct@[k] == le32(d, 16 + 4 * k));
    }
    assert(back.direct@ =~= inode.direct@);
    assert(back.direct == inode.direct);
    assert(inode.gid == inode.gid % 65536 + (inode.gid / 65536) * 65536);
}

/// `de` is what the directory entry bytes `d` decode to: the name length
/// is clamped to the 56 bytes an entry holds, the name bytes beyond it are
/// zero.
pub open spec fn direntry_decodes_to(d: Seq<u8>, de: DiskDirEntry) -> bool {
    let len = if d[4] < 56 { d[4] as int } else { 56 };
    &&& de.ino == le32(d, 0)
    &&& de.name_len == len
    &&& forall|k: int| 0 <= k < 56 ==> #[trigger] de.name@[k] == (if k < len { d[8 + k] } else { 0u8 })
}

/// Decode a directory entry. Its bytes come from disk and may be corrupt:
/// the name length is clamped to 56 so it never exceeds the name.
pub fn direntry_from_bytes(buf: &[u8]) -> (r: DiskDirEntry)
    requires
        buf@.len() >= 8,
        buf@.len() >= 8 + (if buf@[4] < 56 { buf@[4] as int } else { 56 }),
    ensures
        direntry_decodes_to(buf@, r),
        r.name_len <= 56,
{
    let mut name = [0u8; 56];
    let copy_len: usize = if (buf[4] as usize) < 56 { buf[4] as usize } else { 56 };
    let mut k: usize = 0;
    while k < copy_len
        invariant
            k <= copy_len <= 56,
            buf@.len() >= 8 + copy_len,
            forall|m: int| 0 <= m < k ==> #[trigger] name@[m] == buf@[8 + m],
            forall|m: int| k <= m < 56 ==> #[trigger] name@[m] == 0u8,
        decreases copy_len - k,
    {
        name[k] = buf[8 + k];
        k = k + 1;
    }
    DiskDirEntry { ino: read_u32_le(buf, 0), name_len: copy_len as u8, name }
}

/// Encode a directory entry as its 64 on-disk bytes: number, length byte,
/// three zero bytes, the first `min(name_len, 56)` name bytes, zeros.
pub fn direntry_to_bytes(de: &DiskDirEntry) -> (buf: [u8; 64])
    ensures
        le32(buf@, 0) == de.ino,
        buf@[4] == de.name_len,
        forall|k: int| 0 <= k < 56 ==> #[trigger] buf@[8 + k] ==
            (if k < de.name_len { de.name@[k] } else { 0u8 }),
        buf@[5] == 0 && buf@[6] == 0 && buf@[7] == 0,
{
    let mut buf = [0u8; 64];
    assert(forall|j: int| 0 <= j < 64 ==> buf@[j] == 0);
    write_le32(&mut buf, 0, de.ino);
    buf[4] = de.name_len;
    assert(buf@[5] == 0 && buf@[6] == 0 && buf@[7] == 0);
    assert(forall|j: int| 8 <= j < 64 ==> buf@[j] == 0);
    let copy_len: usize = if (de.name_len as usize) < 56 { de.name_len as usize } else { 56 };
    let ghost head = buf@;
    let mut k: usize = 0;
    while k < copy_len
        invariant
            k <= copy_len <= 56,
            copy_len == (if de.name_len < 56 { de.name_len as int } else { 56 }),
            buf@.len() == 64,
            head.len() == 64,
            head[4] == de.name_len,
            le32(head, 0) == de.ino,
            head[5] == 0 && head[6] == 0 && head[7] == 0,
            forall|j: int| 0 <= j < 8 ==> buf@[j] == head[j],
            forall|m: int| 0 <= m < k ==> #[trigger] buf@[8 + m] == de.name@[m],
            forall|m: int| 8 + k <= m < 64 ==> buf@[m] == 0u8,
        decreases copy_len - k,
    {
        buf[8 + k] = de.name[k];
        k = k + 1;
    }
    assert(le32(buf@, 0) == le32(head, 0));
    buf
}

/// A directory entry with a name length of at most 56 reads back as itself,
/// with the name bytes beyond its length zeroed.
pub proof fn lemma_direntry_round_trip(de: DiskDirEntry, d: Seq<u8>, back: DiskDirEntry)
    requires
        de.name_len <= 56,
        le32(d, 0) == de.ino,
        d[4] == de.name_len,
        forall|k: int| 0 <= k < 56 ==> #[trigger] d[8 + k] == (if k < de.name_len { de.name@[k] } else { 0u8 }),
        direntry_decodes_to(d, back),
    ensures
        back.ino == de.ino,
        back.name_len == de.name_len,
        forall|k: int| 0 <= k < 56 ==> #[trigger] back.name@[k] == (if k < de.name_len { de.name@[k] } else { 0u8 }),
{
    assert forall|k: int| 0 <= k < 56 implies #[trigger] back.name@[k] == (if k < de.name_len { de.name@[k] } else { 0u8 }) by {
        assert(d[8 + k] == (if k < de.name_len { de.name@[k] } else { 0u8 }));
    }
}

/// Sectors of the inode table.
pub const INODE_TABLE_SECTORS: u32 = 32;

/// Data blocks left when the bitmap takes `bs` sectors of a device of
/// `total` sectors (after the superblock and the inode table).
pub open spec fn data_blocks_with(total: u32, bs: int) -> int {
    if total > 1 + bs + 32 { total - (1 + bs + 32) } else { 0 }
}

/// Bitmap sectors needed to describe the data blocks left when the bitmap
/// takes `bs` sectors (at least one).
pub open spec fn bitmap_need(total: u32, bs: int) -> int {
    let n = (data_blocks_with(total, bs) + 4095) / 4096;
    if n > 1 { n } else { 1 }
}

/// The superblock `format_and_new` writes for a device of `total_sectors`
/// sectors: bitmap from sector 1, sized so it describes every data block
/// (`bs` sectors, the least fixed point reached from one), then the inode
/// table, then the data area; all inodes but the root and all blocks free.
pub open spec fn formatted(total_sectors: u32, bs: int) -> Superblock {
    Superblock {
        magic: RACFS_MAGIC,
        version: RACFS_VERSION,
        total_sectors,
        inode_count: 128,
        data_block_count: data_blocks_with(total_sectors, bs) as u32,
        bitmap_start: 1,
        inode_start: (1 + bs) as u32,
        data_start: (1 + bs + 32) as u32,
        free_inodes: 127,
        free_blocks: data_blocks_with(total_sectors, bs) as u32,
    }
}

/// The superblock of a freshly formatted device of `total_sectors`
/// sectors. The bitmap size is the fixed point of "enough sectors for the
/// data blocks that remain": growing the bitmap only shrinks the data
/// area, so it settles after one step from a single sector.
pub fn format_superblock(total_sectors: u32) -> (sb: Superblock)
    ensures
        exists|bs: int| 1 <= bs && bitmap_need(total_sectors, bs) <= bs
            && (bs == 1 || bs == bitmap_need(total_sectors, 1))
            && sb == formatted(total_sectors, bs),
        sb.data_block_count <= bitmap_sectors_of(sb) * 4096,
{
    let mut bitmap_sectors: u32 = 1;
    let mut round: u32 = 0;
    while round < 8
        invariant
            round <= 8,
            1 <= bitmap_sectors,
            bitmap_sectors == 1 || bitmap_sectors == bitmap_need(total_sectors, 1),
            bitmap_sectors <= 1048577,
            round >= 1 ==> bitmap_need(total_sectors, bitmap_sectors as int) <= bitmap_sectors,
        decreases 8 - round,
    {
        let overhead = 1 + bitmap_sectors + INODE_TABLE_SECTORS;
        let data_blocks = total_sectors.saturating_sub(overhead);
        let q = (data_blocks as u64 + 4095) / 4096;
        let needed: u32 = if q > 1 { q as u32 } else { 1 };
        assert(needed == bitmap_need(total_sectors, bitmap_sectors as int));
        if needed <= bitmap_sectors {
            round = 8;
        } else {
            proof { lemma_bitmap_need_antitone(total_sectors, 1, needed as int); }
            bitmap_sectors = needed;
            round = round + 1;
        }
    }
    let inode_start = 1 + bitmap_sectors;
    let data_start = inode_start + INODE_TABLE_SECTORS;
    let data_block_count = total_sectors.saturating_sub(data_start);
    let sb = Superblock {
        magic: RACFS_MAGIC,
        version: RACFS_VERSION,
        total_sectors,
        inode_count: MAX_INODES as u32,
        data_block_count,
        bitmap_start: 1,
        inode_start,
        data_start,
        free_inodes: (MAX_INODES - 1) as u32,
        free_blocks: data_block_count,
    };
    assert(sb == formatted(total_sectors, bitmap_sectors as int));
    sb
}

/// More bitmap sectors never need more bitmap sectors.
proof fn lemma_bitmap_need_antitone(total: u32, a: int, b: int)
    requires
        a <= b,
    ensures
        bitmap_need(total, b) <= bitmap_need(total, a),
{
    let da = data_blocks_with(total, a);
    let db = data_blocks_with(total, b);
    assert(db <= da);
    assert((db + 4095) / 4096 <= (da + 4095) / 4096) by (nonlinear_arith)
        requires
            0 <= db <= da;
}

/// Bit `i` of a bitmap (bit `i % 8` of byte `i / 8`) is set.
pub open spec fn bit_set(bm: Seq<u8>, i: int) -> bool {
    (bm[i / 8] >> ((i % 8) as u8)) & 1u8 == 1u8
}

/// The bitmap with bit `i` set.
pub open spec fn set_bit(bm: Seq<u8>, i: int) -> Seq<u8> {
    bm.update(i / 8, bm[i / 8] | (1u8 << ((i % 8) as u8)))
}

/// The bitmap with bit `i` cleared.
pub open spec fn clear_bit(bm: Seq<u8>, i: int) -> Seq<u8> {
    bm.update(i / 8, bm[i / 8] & !(1u8 << ((i % 8) as u8)))
}

/// The first clear bit in `[from, to)`, if any.
pub open spec fn first_clear(bm: Seq<u8>, from: int, to: int) -> Option<int>
    decreases to - from,
{
    if from >= to {
        None
    } else if !bit_set(bm, from) {
        Some(from)
    } else {
        first_clear(bm, from + 1, to)
    }
}

/// Where the allocator's scan starts: the hint, kept inside the range.
pub open spec fn alloc_start(sb: Superblock, hint: u32) -> int {
    if (hint as int) < alloc_range(sb) - 1 { hint as int } else { alloc_range(sb) - 1 }
}

/// The block index (0-based) the allocator takes: the first clear bit from
/// the scan start to the end of the range, else from the start of the range
/// to the scan start; None when there is none, when the superblock counts
/// no free block, or when the range is empty.
pub open spec fn alloc_choice(bm: Seq<u8>, sb: Superblock, hint: u32) -> Option<int> {
    let total = alloc_range(sb);
    if sb.free_blocks == 0 || total == 0 {
        None
    } else {
        let start = alloc_start(sb, hint);
        match first_clear(bm, start, total) {
            Some(i) => Some(i),
            None => first_clear(bm, 0, start),
        }
    }
}

/// The first clear bit of a range lies in it and is clear.
pub proof fn lemma_first_clear_range(bm: Seq<u8>, from: int, to: int)
    ensures
        first_clear(bm, from, to) matches Some(i) ==> from <= i < to && !bit_set(bm, i),
    decreases to - from,
{
    if from < to && bit_set(bm, from) {
        lemma_first_clear_range(bm, from + 1, to);
    }
}

/// A clear bit at `k` in the range means the first clear bit is no later.
pub proof fn lemma_first_clear_at_most(bm: Seq<u8>, from: int, to: int, k: int)
    requires
        from <= k < to,
        !bit_set(bm, k),
    ensures
        first_clear(bm, from, to) matches Some(i) && i <= k,
    decreases to - from,
{
    if from < k && bit_set(bm, from) {
        lemma_first_clear_at_most(bm, from + 1, to, k);
    }
}

/// Setting bit `k` of a byte sets it and leaves the other bits.
proof fn lemma_byte_set(b: u8, k: u8, j: u8)
    requires
        k < 8,
        j < 8,
    ensures
        ((b | (1u8 << k)) >> j) & 1u8 == (if j == k { 1u8 } else { (b >> j) & 1u8 }),
{
    assert(k < 8 && j < 8 ==> ((b | (1u8 << k)) >> j) & 1u8 == (if j == k { 1u8 } else { (b >> j) & 1u8 }))
        by (bit_vector);
}

/// Clearing bit `k` of a byte clears it and leaves the other bits.
proof fn lemma_byte_clear(b: u8, k: u8, j: u8)
    requires
        k < 8,
        j < 8,
    ensures
        ((b & !(1u8 << k)) >> j) & 1u8 == (if j == k { 0u8 } else { (b >> j) & 1u8 }),
{
    assert(k < 8 && j < 8 ==> ((b & !(1u8 << k)) >> j) & 1u8 == (if j == k { 0u8 } else { (b >> j) & 1u8 }))
        by (bit_vector);
}

/// Setting bit `i` sets it and leaves every other bit.
pub proof fn lemma_set_bit(bm: Seq<u8>, i: int, j: int)
    requires
        0 <= i,
        0 <= j,
        i / 8 < bm.len(),
        j / 8 < bm.len(),
    ensures
        bit_set(set_bit(bm, i), j) == (if j == i { true } else { bit_set(bm, j) }),
{
    if j / 8 == i / 8 {
        lemma_byte_set(bm[i / 8], (i % 8) as u8, (j % 8) as u8);
        if j % 8 == i % 8 {
            assert(j == i);
        }
    }
}

/// Clearing bit `i` clears it and leaves every other bit.
pub proof fn lemma_clear_bit(bm: Seq<u8>, i: int, j: int)
    requires
        0 <= i,
        0 <= j,
        i / 8 < bm.len(),
        j / 8 < bm.len(),
    ensures
        bit_set(clear_bit(bm, i), j) == (if j == i { false } else { bit_set(bm, j) }),
{
    if j / 8 == i / 8 {
        lemma_byte_clear(bm[i / 8], (i % 8) as u8, (j % 8) as u8);
        if j % 8 == i % 8 {
            assert(j == i);
        }
    }
}

/// The block the allocator takes was free, lies in its range, and is
/// marked used afterwards, every other bit as it was.
pub proof fn lemma_alloc_takes_free_block(bm: Seq<u8>, sb: Superblock, hint: u32)
    requires
        bm.len() == bitmap_sectors_of(sb) * 512,
    ensures
        alloc_choice(bm, sb, hint) matches Some(i) ==> {
            &&& 0 <= i < alloc_range(sb)
            &&& !bit_set(bm, i)
            &&& bit_set(set_bit(bm, i), i)
            &&& forall|j: int| 0 <= j < alloc_range(sb) && j != i ==>
                    bit_set(#[trigger] set_bit(bm, i), j) == bit_set(bm, j)
        },
{
    let total = alloc_range(sb);
    if sb.free_blocks != 0 && total != 0 {
        let start = alloc_start(sb, hint);
        lemma_first_clear_range(bm, start, total);
        lemma_first_clear_range(bm, 0, start);
        if let Some(i) = alloc_choice(bm, sb, hint) {
            lemma_set_bit(bm, i, i);
            assert forall|j: int| 0 <= j < total && j != i implies
                bit_set(#[trigger] set_bit(bm, i), j) == bit_set(bm, j) by {
                lemma_set_bit(bm, i, j);
            }
        }
    }
}

/// Freeing a block marks it free, every other bit as it was.
pub proof fn lemma_free_marks_free(bm: Seq<u8>, sb: Superblock, idx: int)
    requires
        bm.len() == bitmap_sectors_of(sb) * 512,
        0 <= idx < alloc_range(sb),
    ensures
        !bit_set(clear_bit(bm, idx), idx),
        forall|j: int| 0 <= j < alloc_range(sb) && j != idx ==>
            bit_set(#[trigger] clear_bit(bm, idx), j) == bit_set(bm, j),
{
    lemma_clear_bit(bm, idx, idx);
    assert forall|j: int| 0 <= j < alloc_range(sb) && j != idx implies
        bit_set(#[trigger] clear_bit(bm, idx), j) == bit_set(bm, j) by {
        lemma_clear_bit(bm, idx, j);
    }
}

/// After a block is freed the next allocation succeeds and returns that
/// block or an earlier one: the freed hole is reused before the scan moves
/// past it.
pub proof fn lemma_free_then_alloc(bm: Seq<u8>, sb: Superblock, hint: u32, block: u32)
    requires
        bm.len() == bitmap_sectors_of(sb) * 512,
        1 <= block,
        block - 1 < alloc_range(sb),
        sb.free_blocks < u32::MAX,
    ensures
        ({
            let idx = block - 1;
            let bm2 = clear_bit(bm, idx);
            let sb2 = Superblock { free_blocks: (sb.free_blocks + 1) as u32, ..sb };
            let hint2 = if idx < hint { idx as u32 } else { hint };
            alloc_choice(bm2, sb2, hint2) matches Some(i) && i <= idx
        }),
{
    let idx = block - 1;
    let bm2 = clear_bit(bm, idx);
    let sb2 = Superblock { free_blocks: (sb.free_blocks + 1) as u32, ..sb };
    let hint2 = if idx < hint { idx as u32 } else { hint };
    lemma_clear_bit(bm, idx, idx);
    assert(bitmap_sectors_of(sb2) == bitmap_sectors_of(sb));
    assert(alloc_range(sb2) == alloc_range(sb));
    let start = alloc_start(sb2, hint2);
    assert(start <= idx);
    lemma_first_clear_at_most(bm2, start, alloc_range(sb2), idx);
}

/// The block allocation state of a mounted racfs: the superblock's
/// counts, the allocation bitmap (all its sectors, in order) and where the
/// next scan starts.
pub struct BlockAllocator {
    sb: Superblock,
    bitmap: Vec<u8>,
    alloc_hint: u32,
}

/// Blocks the allocator can hand out: the data blocks the bitmap can
/// describe.
pub open spec fn alloc_range(sb: Superblock) -> int {
    let a = bitmap_sectors_of(sb) * 4096;
    if sb.data_block_count < a { sb.data_block_count as int } else { a }
}

impl BlockAllocator {
    /// The superblock's counts.
    pub closed spec fn sblock(&self) -> Superblock {
        self.sb
    }

    /// The superblock's counts.
    pub fn superblock(&self) -> (r: Superblock)
        ensures
            r == self.sblock(),
    {
        self.sb
    }

    /// The bitmap bytes.
    pub closed spec fn bits(&self) -> Seq<u8> {
        self.bitmap@
    }

    /// Where the next scan starts.
    pub closed spec fn hint(&self) -> u32 {
        self.alloc_hint
    }

    /// The bitmap holds every sector the superblock gives it.
    pub open spec fn wf(&self) -> bool {
        self.bits().len() == bitmap_sectors_of(self.sblock()) * 512
    }

    /// The allocator of a filesystem whose bitmap sectors hold `bitmap`.
    /// None when the bitmap is not as long as the superblock says.
    pub fn new(sb: Superblock, bitmap: Vec<u8>) -> (r: Option<BlockAllocator>)
        ensures
            r is Some <==> bitmap@.len() == bitmap_sectors_of(sb) * 512,
            r matches Some(a) ==> a.wf() && a.sblock() == sb && a.bits() == bitmap@ && a.hint() == 0,
    {
        let n = sb.bitmap_sectors() as usize;
        let len = bitmap.len();
        if n > usize::MAX / SECTOR_SIZE || len != n * SECTOR_SIZE {
            return None;
        }
        Some(BlockAllocator { sb, bitmap, alloc_hint: 0 })
    }

    /// Is bit `i` set?
    fn test_bit(&self, i: usize) -> (r: bool)
        requires
            i / 8 < self.bits().len(),
        ensures
            r == bit_set(self.bits(), i as int),
    {
        (self.bitmap[i / 8] >> ((i % 8) as u8)) & 1u8 == 1u8
    }

    /// Allocate a data block: NoSpace when the superblock counts no free
    /// block or the bitmap has no clear bit in range; else the block of
    /// [`alloc_choice`] (returned 1-based), its bit set, one block fewer
    /// free and the next scan starting after it.
    pub fn alloc_block(&mut self) -> (r: VfsResult<u32>)
        requires
            old(self).wf(),
        ensures
            final(self).wf(),
            match alloc_choice(old(self).bits(), old(self).sblock(), old(self).hint()) {
                None => r == Err::<u32, VfsError>(VfsError::NoSpace)
                    && final(self).bits() == old(self).bits()
                    && final(self).sblock() == old(self).sblock()
                    && final(self).hint() == old(self).hint(),
                Some(i) => r == Ok::<u32, VfsError>((i + 1) as u32)
                    && final(self).bits() == set_bit(old(self).bits(), i)
                    && final(self).sblock() == Superblock { free_blocks: (old(self).sblock().free_blocks - 1) as u32, ..old(self).sblock() }
                    && final(self).hint() == (if i + 1 > u32::MAX { u32::MAX as int } else { i + 1 }),
            },
    {
        if self.sb.free_blocks == 0 {
            return Err(VfsError::NoSpace);
        }
        let addressable = self.sb.addressable_blocks();
        let dbc = self.sb.data_block_count as usize;
        let total = if dbc < addressable { dbc } else { addressable };
        assert(total == alloc_range(self.sb));
        if total == 0 {
            return Err(VfsError::NoSpace);
        }
        let hint = self.alloc_hint as usize;
        let start = if hint < total - 1 { hint } else { total - 1 };
        proof {
            lemma_first_clear_range(self.bitmap@, start as int, total as int);
            lemma_first_clear_range(self.bitmap@, 0, start as int);
        }
        let found = match self.claim_first_free(start, total) {
            Some(i) => Some(i),
            None => self.claim_first_free(0, start),
        };
        match found {
            Some(idx) => {
                self.alloc_hint = (idx as u32).saturating_add(1);
                self.sb.free_blocks = self.sb.free_blocks - 1;
                Ok(idx as u32 + 1)
            }
            None => Err(VfsError::NoSpace),
        }
    }

    /// Free a data block (1-based; 0 is the "no block" sentinel and does
    /// nothing): InvalidArgument for a block outside the range the bitmap
    /// describes; else its bit is cleared, one block more is free, and the
    /// next scan starts no later than it.
    pub fn free_block(&mut self, block: u32) -> (r: VfsResult<()>)
        requires
            old(self).wf(),
            old(self).sblock().free_blocks < u32::MAX,
        ensures
            final(self).wf(),
            block == 0 ==> r == Ok::<(), VfsError>(()) && *final(self) == *old(self),
            block != 0 && block - 1 >= alloc_range(old(self).sblock()) ==>
                r == Err::<(), VfsError>(VfsError::InvalidArgument) && *final(self) == *old(self),
            block != 0 && block - 1 < alloc_range(old(self).sblock()) ==> {
                &&& r == Ok::<(), VfsError>(())
                &&& final(self).bits() == clear_bit(old(self).bits(), block - 1)
                &&& final(self).sblock() == Superblock { free_blocks: (old(self).sblock().free_blocks + 1) as u32, ..old(self).sblock() }
                &&& final(self).hint() == (if block - 1 < old(self).hint() { (block - 1) as u32 } else { old(self).hint() })
            },
    {
        if block == 0 {
            return Ok(());
        }
        let idx = (block - 1) as usize;
        if idx >= self.sb.addressable_blocks() || idx >= self.sb.data_block_count as usize {
            return Err(VfsError::InvalidArgument);
        }
        let byte = idx / 8;
        let mask: u8 = 1u8 << ((idx % 8) as u8);
        let old_byte = self.bitmap[byte];
        self.bitmap.set(byte, old_byte & !mask);
        self.sb.free_blocks = self.sb.free_blocks + 1;
        if (idx as u32) < self.alloc_hint {
            self.alloc_hint = idx as u32;
        }
        Ok(())
    }

    /// Claim the first free block in `[from, to)`: set its bit and return
    /// its index; None (nothing changed) when the range is full.
    fn claim_first_free(&mut self, from: usize, to: usize) -> (r: Option<usize>)
        requires
            old(self).wf(),
            to <= alloc_range(old(self).sblock()),
        ensures
            final(self).wf(),
            final(self).sblock() == old(self).sblock(),
            final(self).hint() == old(self).hint(),
            r == (match first_clear(old(self).bits(), from as int, to as int) {
                Some(i) => Some(i as usize),
                None => None::<usize>,
            }),
            r is None ==> final(self).bits() == old(self).bits(),
            r matches Some(i) ==> final(self).bits() == set_bit(old(self).bits(), i as int),
    {
        let ghost bm = self.bitmap@;
        let mut idx = from;
        while idx < to
            invariant
                self.bitmap@ == bm,
                self.sb == old(self).sblock(),
                self.alloc_hint == old(self).hint(),
                bm == old(self).bits(),
                old(self).wf(),
                to <= alloc_range(old(self).sblock()),
                from <= idx || idx == from,
                first_clear(bm, from as int, to as int) == first_clear(bm, idx as int, to as int),
            decreases to - idx,
        {
            assert(idx / 8 < bm.len());
            if !self.test_bit(idx) {
                let byte = idx / 8;
                let mask: u8 = 1u8 << ((idx % 8) as u8);
                let old_byte = self.bitmap[byte];
                self.bitmap.set(byte, old_byte | mask);
                return Some(idx);
            }
            idx = idx + 1;
        }
        None
    }
}

} // verus!
