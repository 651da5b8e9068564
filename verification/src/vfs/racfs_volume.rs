//! A mounted racfs volume: the superblock, the allocation hint and the
//! device, a run of 512-byte sectors held in memory, sector `s` at bytes
//! `[512 s, 512 s + 512)`. Every operation is stated over those bytes:
//! what it reads from them, and what it writes back.

use vstd::prelude::*;
use crate::encoding::le32;
use vstd::utf8::{decode_utf8, valid_utf8, encode_utf8};
use crate::encoding::utf8_str;
use crate::vfs::inode::{
    DirEntry, FileMode, FileType, InodeMetadata, InodeNum, VfsError, VfsResult, fresh_metadata,
};
use crate::vfs::path::{components, component_ranges, range_is_component, split_components};
use crate::vfs::racfs::{
    DiskInode, Superblock, inode_decodes_to, inode_from_bytes, superblock_from_sector,
    superblock_of, stats_of, RACFS_MAGIC, RACFS_VERSION, ITYPE_FILE, ITYPE_DIR, ITYPE_FREE,
    DiskDirEntry, direntry_decodes_to, direntry_from_bytes, as_stored, inode_to_bytes,
    format_superblock, formatted, bitmap_need, alloc_range, alloc_start, bitmap_sectors_of,
    direntry_to_bytes, superblock_to_sector,
};

verus! {

/// Sector `s` exists on a device of bytes `d`.
pub open spec fn has_sector(d: Seq<u8>, s: int) -> bool {
    0 <= s && 512 * s + 512 <= d.len()
}

/// The bytes of sector `s`.
pub open spec fn sector_bytes(d: Seq<u8>, s: int) -> Seq<u8> {
    d.subrange(512 * s, 512 * s + 512)
}

/// A superblock `open` accepts: the right magic and version, and a layout
/// with the bitmap after sector 0, then the inode table, then the data.
pub open spec fn mountable(sb: Superblock) -> bool {
    &&& sb.magic == RACFS_MAGIC
    &&& sb.version == RACFS_VERSION
    &&& sb.bitmap_start != 0
    &&& sb.inode_start > sb.bitmap_start
    &&& sb.data_start > sb.inode_start
}

/// Sector holding inode `ino`.
pub open spec fn inode_sector(sb: Superblock, ino: u32) -> int {
    sb.inode_start + ino / 4
}

/// Offset of inode `ino` inside its sector.
pub open spec fn inode_offset(ino: u32) -> int {
    (ino % 4) * 128
}

/// Where inode `ino` lives: NotFound beyond the inode count, IoError when
/// its sector is not on the device, else the byte position of its record.
pub open spec fn inode_pos(d: Seq<u8>, sb: Superblock, ino: u32) -> VfsResult<int> {
    if ino >= sb.inode_count {
        Err(VfsError::NotFound)
    } else if !has_sector(d, inode_sector(sb, ino)) {
        Err(VfsError::IoError)
    } else {
        Ok(512 * inode_sector(sb, ino) + inode_offset(ino))
    }
}

/// The inode the 128 bytes `ib` hold.
pub open spec fn inode_of(ib: Seq<u8>) -> DiskInode {
    choose|i: DiskInode| inode_decodes_to(ib, i)
}

/// Inode `ino` as read from the device (see [`inode_pos`]).
pub open spec fn inode_at(d: Seq<u8>, sb: Superblock, ino: u32) -> VfsResult<DiskInode> {
    match inode_pos(d, sb, ino) {
        Err(e) => Err(e),
        Ok(p) => Ok(inode_of(d.subrange(p, p + 128))),
    }
}

/// Bytes decode to exactly one inode.
pub proof fn lemma_inode_of(ib: Seq<u8>, i: DiskInode)
    requires
        inode_decodes_to(ib, i),
    ensures
        inode_of(ib) == i,
{
    let c = inode_of(ib);
    assert(inode_decodes_to(ib, c));
    assert(c.direct@ =~= i.direct@);
    assert(c.direct == i.direct);
}

/// Device sector of data block `block` (1-based).
pub open spec fn data_sector(sb: Superblock, block: u32) -> int {
    sb.data_start + block - 1
}

/// Pointer `slot` of data block `block`, as `read_pointer` finds it: the
/// "no block" sentinel 0 reads as zeros; IoError off the device.
pub open spec fn pointer_at(d: Seq<u8>, sb: Superblock, block: u32, slot: int) -> VfsResult<u32> {
    if block == 0 {
        Ok(0)
    } else if !has_sector(d, data_sector(sb, block)) {
        Err(VfsError::IoError)
    } else {
        Ok(le32(sector_bytes(d, data_sector(sb, block)), 4 * slot) as u32)
    }
}

/// The data block backing logical block `idx` of a file (0: not mapped):
/// eight direct pointers, then 128 through the single-indirect block,
/// then 128 * 128 through the double-indirect block; NoSpace past that.
pub open spec fn block_of(d: Seq<u8>, sb: Superblock, i: DiskInode, idx: int) -> VfsResult<u32> {
    if idx < 8 {
        Ok(i.direct@[idx])
    } else if idx - 8 < 128 {
        if i.indirect == 0 { Ok(0) } else { pointer_at(d, sb, i.indirect, idx - 8) }
    } else if idx - 136 >= 16384 {
        Err(VfsError::NoSpace)
    } else if i.double_indirect == 0 {
        Ok(0)
    } else {
        match pointer_at(d, sb, i.double_indirect, (idx - 136) / 128) {
            Err(e) => Err(e),
            Ok(l1) => if l1 == 0 { Ok(0) } else { pointer_at(d, sb, l1, (idx - 136) % 128) },
        }
    }
}

/// Byte `off` of data block `b` (the sentinel 0 reads as zeros).
pub open spec fn block_byte(d: Seq<u8>, sb: Superblock, b: u32, off: int) -> u8 {
    if b == 0 { 0 } else { d[512 * data_sector(sb, b) + off] }
}

/// Byte `q` of file `i` as `read_file` copies it out.
pub open spec fn file_byte(d: Seq<u8>, sb: Superblock, i: DiskInode, q: int) -> u8 {
    match block_of(d, sb, i, q / 512) {
        Ok(b) => block_byte(d, sb, b, q % 512),
        Err(_) => 0,
    }
}

/// How reading `remaining` bytes of file `i` from `pos` goes, block by
/// block: the number of bytes read, which stops short at the first block
/// the map cannot resolve; IoError when a mapped block is off the device.
pub open spec fn read_run(d: Seq<u8>, sb: Superblock, i: DiskInode, pos: int, remaining: int) -> VfsResult<int>
    decreases remaining,
{
    if remaining <= 0 {
        Ok(0)
    } else {
        let chunk = if 512 - pos % 512 < remaining { 512 - pos % 512 } else { remaining };
        match block_of(d, sb, i, pos / 512) {
            Err(_) => Ok(0),
            Ok(b) => if b != 0 && !has_sector(d, data_sector(sb, b)) {
                Err(VfsError::IoError)
            } else {
                match read_run(d, sb, i, pos + chunk, remaining - chunk) {
                    Ok(n) => Ok(chunk + n),
                    Err(e) => Err(e),
                }
            },
        }
    }
}

/// What `read_file` returns for inode `ino`, reading at most `len` bytes
/// from `offset`: the inode's error, IsADirectory for anything but a file,
/// nothing at or past the end, else the outcome of [`read_run`] over the
/// bytes up to the end of the file.
pub open spec fn read_file_result(d: Seq<u8>, sb: Superblock, ino: u32, offset: u64, len: int) -> VfsResult<int> {
    match inode_at(d, sb, ino) {
        Err(e) => Err(e),
        Ok(i) => if i.itype != ITYPE_FILE {
            Err(VfsError::IsADirectory)
        } else if offset >= i.size {
            Ok(0)
        } else {
            let to_read = if len < i.size - offset { len } else { i.size - offset };
            read_run(d, sb, i, offset as int, to_read)
        },
    }
}

/// The 64 bytes of entry `idx` of directory `i`: IoError when its block
/// is unmapped or off the device.
pub open spec fn direntry_at(d: Seq<u8>, sb: Superblock, i: DiskInode, idx: int) -> VfsResult<Seq<u8>> {
    match block_of(d, sb, i, idx / 8) {
        Err(e) => Err(e),
        Ok(b) => if b == 0 || !has_sector(d, data_sector(sb, b)) {
            Err(VfsError::IoError)
        } else {
            Ok(sector_bytes(d, data_sector(sb, b)).subrange(64 * (idx % 8), 64 * (idx % 8) + 64))
        },
    }
}

/// Length of an entry's name: its length byte, at most 56.
pub open spec fn entry_name_len(e: Seq<u8>) -> int {
    if e[4] < 56 { e[4] as int } else { 56 }
}

/// The name bytes of an entry record.
pub open spec fn entry_name(e: Seq<u8>) -> Seq<u8> {
    e.subrange(8, 8 + entry_name_len(e))
}

/// The inode number of an entry record.
pub open spec fn entry_ino(e: Seq<u8>) -> u32 {
    le32(e, 0) as u32
}

/// The first entry of directory `i`, from entry `k` on, named `name`: its
/// inode; None when there is none; the first unreadable entry's error.
pub open spec fn dir_find(d: Seq<u8>, sb: Superblock, i: DiskInode, name: Seq<u8>, k: int) -> VfsResult<Option<u32>>
    decreases i.dir_entry_count - k,
{
    if k >= i.dir_entry_count {
        Ok(None)
    } else {
        match direntry_at(d, sb, i, k) {
            Err(e) => Err(e),
            Ok(e) => if entry_name(e) == name { Ok(Some(entry_ino(e))) } else { dir_find(d, sb, i, name, k + 1) },
        }
    }
}

/// Follow path components from inode `cur`: each step needs a directory
/// (NotADirectory otherwise) holding the component (NotFound otherwise).
pub open spec fn rwalk(d: Seq<u8>, sb: Superblock, cur: u32, comps: Seq<Seq<char>>) -> VfsResult<u32>
    decreases comps.len(),
{
    if comps.len() == 0 {
        Ok(cur)
    } else {
        match inode_at(d, sb, cur) {
            Err(e) => Err(e),
            Ok(i) => if i.itype != ITYPE_DIR {
                Err(VfsError::NotADirectory)
            } else {
                match dir_find(d, sb, i, encode_utf8(comps[0]), 0) {
                    Err(e) => Err(e),
                    Ok(None) => Err(VfsError::NotFound),
                    Ok(Some(next)) => rwalk(d, sb, next, comps.drop_first()),
                }
            },
        }
    }
}

/// The name `readdir` shows for an entry: its bytes decoded, or `???`
/// when they are not UTF-8.
pub open spec fn entry_text(e: Seq<u8>) -> Seq<char> {
    if valid_utf8(entry_name(e)) { decode_utf8(entry_name(e)) } else { seq!['?', '?', '?'] }
}

/// The type `readdir` and `inode_metadata` report for an inode type tag.
pub open spec fn type_of_tag(t: u8) -> FileType {
    if t == ITYPE_DIR { FileType::Directory } else { FileType::Regular }
}

/// The listing of directory `i` from entry `k` on: entries with an empty
/// name or whose inode cannot be read are skipped; an unreadable entry is
/// an error.
pub open spec fn listing(d: Seq<u8>, sb: Superblock, i: DiskInode, k: int) -> VfsResult<Seq<(Seq<char>, InodeNum, FileType)>>
    decreases i.dir_entry_count - k,
{
    if k >= i.dir_entry_count {
        Ok(Seq::empty())
    } else {
        match direntry_at(d, sb, i, k) {
            Err(e) => Err(e),
            Ok(e) => {
                let rest = listing(d, sb, i, k + 1);
                if entry_name_len(e) == 0 {
                    rest
                } else {
                    match inode_at(d, sb, entry_ino(e)) {
                        Err(_) => rest,
                        Ok(c) => match rest {
                            Err(x) => Err(x),
                            Ok(r) => Ok(seq![(entry_text(e), entry_ino(e) as InodeNum, type_of_tag(c.itype))] + r),
                        },
                    }
                }
            },
        }
    }
}

/// The `(name, inode, type)` triples of a list of directory entries.
pub open spec fn entries_view(v: Seq<DirEntry>) -> Seq<(Seq<char>, InodeNum, FileType)> {
    v.map_values(|e: DirEntry| (e.name@, e.ino, e.file_type))
}

/// The metadata `inode_metadata` reports for a live inode.
pub open spec fn metadata_of(ino: u32, i: DiskInode) -> InodeMetadata {
    InodeMetadata {
        mode: FileMode((i.mode as u32) & 0o7777),
        size: i.size as u64,
        nlink: i.nlink as u32,
        uid: i.uid,
        gid: i.gid,
        ..fresh_metadata(ino as InodeNum, type_of_tag(i.itype))
    }
}

/// The device with sector `s` replaced by `data`.
pub open spec fn with_sector(d: Seq<u8>, s: int, data: Seq<u8>) -> Seq<u8> {
    d.subrange(0, 512 * s) + data + d.subrange(512 * s + 512, d.len() as int)
}

/// Byte `j` after replacing sector `s`.
pub proof fn lemma_with_sector_index(d: Seq<u8>, s: int, data: Seq<u8>, j: int)
    requires
        has_sector(d, s),
        data.len() == 512,
        0 <= j < d.len(),
    ensures
        with_sector(d, s, data).len() == d.len(),
        with_sector(d, s, data)[j] == (if 512 * s <= j < 512 * s + 512 { data[j - 512 * s] } else { d[j] }),
{
}

/// `d1` is `d0` with the record of inode `ino` rewritten to hold `i` (as it
/// reads back, see [`as_stored`]) and every other byte kept.
pub open spec fn inode_written(d0: Seq<u8>, d1: Seq<u8>, sb: Superblock, ino: u32, i: DiskInode) -> bool {
    let p = 512 * inode_sector(sb, ino) + inode_offset(ino);
    &&& d1.len() == d0.len()
    &&& forall|j: int| 0 <= j < d0.len() && !(p <= j < p + 128) ==> #[trigger] d1[j] == d0[j]
    &&& inode_decodes_to(d1.subrange(p, p + 128), as_stored(i))
}

/// The superblock `format_and_new` writes on a device of `total` sectors:
/// its bitmap is one sector unless more are needed to describe the data.
pub open spec fn format_sb(total: u32) -> Superblock {
    let need = bitmap_need(total, 1);
    formatted(total, if need <= 1 { 1 } else { need })
}

/// The root directory `format_and_new` writes as inode 0: an empty
/// directory, mode 0755, two links, owned by root.
pub open spec fn is_fresh_root(i: DiskInode) -> bool {
    &&& i.itype == ITYPE_DIR
    &&& i.mode == 0o755
    &&& i.size == 0
    &&& i.nlink == 2
    &&& i.uid == 0
    &&& i.gid == 0
    &&& forall|k: int| 0 <= k < 8 ==> #[trigger] i.direct@[k] == 0
    &&& i.dir_entry_count == 0
    &&& i.indirect == 0
    &&& i.double_indirect == 0
}

/// Device position of the bitmap byte that holds bit `idx` (bit `idx % 8`
/// of byte `(idx % 4096) / 8` of bitmap sector `idx / 4096`).
pub open spec fn bit_pos(sb: Superblock, idx: int) -> int {
    512 * (sb.bitmap_start + idx / 4096) + (idx % 4096) / 8
}

/// Data block `idx` (0-based) is marked in use on the device.
pub open spec fn bit_on_disk(d: Seq<u8>, sb: Superblock, idx: int) -> bool {
    (d[bit_pos(sb, idx)] >> ((idx % 8) as u8)) & 1u8 == 1u8
}

/// The device with the bit of data block `idx` set.
pub open spec fn set_disk_bit(d: Seq<u8>, sb: Superblock, idx: int) -> Seq<u8> {
    d.update(bit_pos(sb, idx), d[bit_pos(sb, idx)] | (1u8 << ((idx % 8) as u8)))
}

/// The device with the bit of data block `idx` cleared.
pub open spec fn clear_disk_bit(d: Seq<u8>, sb: Superblock, idx: int) -> Seq<u8> {
    d.update(bit_pos(sb, idx), d[bit_pos(sb, idx)] & !(1u8 << ((idx % 8) as u8)))
}

/// The first data block in `[idx, to)` whose bit is clear, scanning one
/// bitmap sector at a time: IoError when the scan reaches a bitmap sector
/// that is not on the device.
pub open spec fn scan_free(d: Seq<u8>, sb: Superblock, idx: int, to: int) -> VfsResult<Option<int>>
    decreases to - idx,
{
    if idx >= to {
        Ok(None)
    } else if !has_sector(d, sb.bitmap_start + idx / 4096) {
        Err(VfsError::IoError)
    } else if !bit_on_disk(d, sb, idx) {
        Ok(Some(idx))
    } else {
        scan_free(d, sb, idx + 1, to)
    }
}

/// The data block (0-based) `alloc_block` takes: NoSpace when the
/// superblock counts no free block or the bitmap describes none; else the
/// first clear bit from the scan start to the end of the range, then from
/// the range's start to the scan start.
pub open spec fn alloc_outcome(d: Seq<u8>, sb: Superblock, hint: u32) -> VfsResult<int> {
    let total = alloc_range(sb);
    if sb.free_blocks == 0 || total == 0 {
        Err(VfsError::NoSpace)
    } else {
        let start = alloc_start(sb, hint);
        match scan_free(d, sb, start, total) {
            Err(e) => Err(e),
            Ok(Some(i)) => Ok(i),
            Ok(None) => match scan_free(d, sb, 0, start) {
                Err(e) => Err(e),
                Ok(Some(i)) => Ok(i),
                Ok(None) => Err(VfsError::NoSpace),
            },
        }
    }
}

/// The first free inode from `k` on (inode 0, the root, is never
/// handed out): NoSpace when there is none, the first unreadable inode's
/// error.
pub open spec fn first_free_inode(d: Seq<u8>, sb: Superblock, k: int) -> VfsResult<u32>
    decreases sb.inode_count - k,
{
    if k >= sb.inode_count {
        Err(VfsError::NoSpace)
    } else {
        match inode_at(d, sb, k as u32) {
            Err(e) => Err(e),
            Ok(i) => if i.itype == ITYPE_FREE { Ok(k as u32) } else { first_free_inode(d, sb, k + 1) },
        }
    }
}

/// Replacing a sector by its own bytes with one byte changed changes just
/// that byte of the device.
pub proof fn lemma_with_sector_update(d: Seq<u8>, s: int, off: int, v: u8)
    requires
        has_sector(d, s),
        0 <= off < 512,
    ensures
        with_sector(d, s, sector_bytes(d, s).update(off, v)) == d.update(512 * s + off, v),
{
    assert(with_sector(d, s, sector_bytes(d, s).update(off, v)) =~= d.update(512 * s + off, v));
}

/// Two superblocks describe the same layout: they differ at most in
/// their free counts.
pub open spec fn same_layout(a: Superblock, b: Superblock) -> bool {
    &&& a.magic == b.magic
    &&& a.version == b.version
    &&& a.total_sectors == b.total_sectors
    &&& a.inode_count == b.inode_count
    &&& a.data_block_count == b.data_block_count
    &&& a.bitmap_start == b.bitmap_start
    &&& a.inode_start == b.inode_start
    &&& a.data_start == b.data_start
}

/// Two inodes agree on everything but their block map.
pub open spec fn same_but_map(a: DiskInode, b: DiskInode) -> bool {
    &&& a.itype == b.itype
    &&& a.mode == b.mode
    &&& a.size == b.size
    &&& a.nlink == b.nlink
    &&& a.uid == b.uid
    &&& a.gid == b.gid
    &&& a.dir_entry_count == b.dir_entry_count
}

/// Two volumes hold the same device bytes, superblock and hint.
pub open spec fn same_state(a: Racfs, b: Racfs) -> bool {
    a.disk() == b.disk() && a.sblock() == b.sblock() && a.hint() == b.hint()
}

/// Inode `ino` reads back as `i` with its size grown to `end` (if it was
/// smaller); only its block map, and the group id the record layout
/// derives from it, may differ.
pub open spec fn grown_to(d: Seq<u8>, sb: Superblock, ino: u32, i: DiskInode, end: int) -> bool {
    match inode_at(d, sb, ino) {
        Ok(j) => same_but_map(j, DiskInode {
            size: (if end > i.size { end as u32 } else { i.size }),
            gid: j.gid,
            ..i
        }),
        Err(_) => false,
    }
}

/// Whether creating `name` in directory `parent` may go ahead, checked
/// before anything is written: InvalidArgument for a name longer than an
/// entry holds (56 bytes), the parent's error, NotADirectory, the error of
/// an unreadable entry, AlreadyExists, then NoSpace (or an unreadable
/// inode's error) when no inode is free; else the inode the entry gets.
pub open spec fn create_checks(d: Seq<u8>, sb: Superblock, parent: u32, name: Seq<u8>) -> VfsResult<u32> {
    if name.len() > 56 {
        Err(VfsError::InvalidArgument)
    } else {
        match inode_at(d, sb, parent) {
            Err(e) => Err(e),
            Ok(p) => if p.itype != ITYPE_DIR {
                Err(VfsError::NotADirectory)
            } else {
                match dir_find(d, sb, p, name, 0) {
                    Err(e) => Err(e),
                    Ok(Some(_)) => Err(VfsError::AlreadyExists),
                    Ok(None) => if sb.free_inodes == 0 { Err(VfsError::NoSpace) } else { first_free_inode(d, sb, 1) },
                }
            },
        }
    }
}

/// Directory `ino` reads back as `i` with one entry more.
pub open spec fn counts_one_more(d: Seq<u8>, sb: Superblock, ino: u32, i: DiskInode) -> bool {
    match inode_at(d, sb, ino) {
        Ok(j) => j.itype == i.itype && j.dir_entry_count == i.dir_entry_count + 1,
        Err(_) => false,
    }
}

/// Whether linking `name` in directory `parent` to `target` may go
/// ahead, checked before anything is written: InvalidArgument for an empty
/// name or one longer than 56 bytes, the parent's error, NotADirectory, an
/// unreadable entry's error, AlreadyExists, the target's error,
/// IsADirectory for a directory target, InvalidArgument when its link
/// count is at its maximum.
pub open spec fn link_checks(d: Seq<u8>, sb: Superblock, parent: u32, name: Seq<u8>, target: u32) -> VfsResult<()> {
    if name.len() == 0 || name.len() > 56 {
        Err(VfsError::InvalidArgument)
    } else {
        match inode_at(d, sb, parent) {
            Err(e) => Err(e),
            Ok(p) => if p.itype != ITYPE_DIR {
                Err(VfsError::NotADirectory)
            } else {
                match dir_find(d, sb, p, name, 0) {
                    Err(e) => Err(e),
                    Ok(Some(_)) => Err(VfsError::AlreadyExists),
                    Ok(None) => match inode_at(d, sb, target) {
                        Err(e) => Err(e),
                        Ok(t) => if t.itype == ITYPE_DIR {
                            Err(VfsError::IsADirectory)
                        } else if t.nlink == u16::MAX {
                            Err(VfsError::InvalidArgument)
                        } else {
                            Ok(())
                        },
                    },
                }
            },
        }
    }
}

/// Inode `ino` reads back as a free inode.
pub open spec fn freed_at(d: Seq<u8>, sb: Superblock, ino: u32) -> bool {
    match inode_at(d, sb, ino) {
        Ok(j) => j.itype == ITYPE_FREE && j.size == 0 && j.dir_entry_count == 0,
        Err(_) => false,
    }
}

/// Whether removing `name` from directory `parent` may go ahead, checked
/// before anything is written: the parent's error, NotADirectory, an
/// unreadable entry's error, NotFound, the entry's inode's error, and
/// InvalidArgument for a directory that is not empty; else the inode the
/// name refers to.
pub open spec fn unlink_checks(d: Seq<u8>, sb: Superblock, parent: u32, name: Seq<u8>) -> VfsResult<u32> {
    match inode_at(d, sb, parent) {
        Err(e) => Err(e),
        Ok(p) => if p.itype != ITYPE_DIR {
            Err(VfsError::NotADirectory)
        } else {
            match dir_find(d, sb, p, name, 0) {
                Err(e) => Err(e),
                Ok(None) => Err(VfsError::NotFound),
                Ok(Some(c)) => match inode_at(d, sb, c) {
                    Err(e) => Err(e),
                    Ok(ci) => if ci.itype == ITYPE_DIR && ci.dir_entry_count > 0 {
                        Err(VfsError::InvalidArgument)
                    } else {
                        Ok(c)
                    },
                },
            }
        },
    }
}

/// Sector `s` lies on a device of `dlen` bytes.
pub open spec fn fits(dlen: int, s: int) -> bool {
    0 <= s && 512 * s + 512 <= dlen
}

/// A write of `len > 0` bytes at `offset` stays in the first eight blocks
/// of file `i` (the first 4 KiB), whose direct pointers there are non-zero,
/// pairwise distinct, on a device of `dlen` bytes and away from the sector
/// holding inode `ino`.
pub open spec fn direct_range_ok(dlen: int, sb: Superblock, ino: u32, i: DiskInode, offset: int, len: int) -> bool {
    &&& len > 0
    &&& 0 <= offset
    &&& offset + len <= 4096
    &&& forall|k: int| offset / 512 <= k <= (offset + len - 1) / 512 ==> {
        &&& #[trigger] i.direct@[k] != 0
        &&& fits(dlen, data_sector(sb, i.direct@[k]))
        &&& data_sector(sb, i.direct@[k]) != inode_sector(sb, ino)
    }
    &&& forall|k1: int, k2: int| offset / 512 <= k1 <= (offset + len - 1) / 512
        && offset / 512 <= k2 <= (offset + len - 1) / 512 && k1 != k2
        ==> #[trigger] i.direct@[k1] != #[trigger] i.direct@[k2]
}

/// Device position of byte `q` of a file whose block `q / 512` is direct
/// pointer `q / 512` of `i`.
pub open spec fn direct_pos(sb: Superblock, i: DiskInode, q: int) -> int {
    512 * data_sector(sb, i.direct@[q / 512]) + q % 512
}

/// Every byte of `data` sits at its direct position in `d`, from offset
/// `offset` on, for the first `n` bytes.
pub open spec fn direct_written(d: Seq<u8>, sb: Superblock, i: DiskInode, offset: int, data: Seq<u8>, n: int) -> bool {
    forall|j: int| 0 <= j < n ==> #[trigger] d[direct_pos(sb, i, offset + j)] == data[j]
}

/// Sector `s` holds a pointer that resolving logical block `k` of file `i`
/// reads: the single-indirect block for blocks 8 to 135; beyond, the
/// double-indirect block and the second-level block it names.
pub open spec fn on_path(d: Seq<u8>, sb: Superblock, i: DiskInode, k: int, s: int) -> bool {
    if k < 8 || k - 136 >= 16384 {
        false
    } else if k < 136 {
        i.indirect != 0 && s == data_sector(sb, i.indirect)
    } else if i.double_indirect == 0 {
        false
    } else {
        ||| s == data_sector(sb, i.double_indirect)
        ||| (pointer_at(d, sb, i.double_indirect, (k - 136) / 128) is Ok
            && pointer_at(d, sb, i.double_indirect, (k - 136) / 128)->Ok_0 != 0
            && s == data_sector(sb, pointer_at(d, sb, i.double_indirect, (k - 136) / 128)->Ok_0))
    }
}

/// `d0` and `d1` hold the same bytes in sector `s`, as far as `d0` reaches.
pub open spec fn same_sector(d0: Seq<u8>, d1: Seq<u8>, s: int) -> bool {
    forall|x: int| 512 * s <= x < 512 * s + 512 && 0 <= x < d0.len() ==> #[trigger] d1[x] == d0[x]
}

/// The block logical block `k` of file `i` resolves to.
pub open spec fn mapped_block(d: Seq<u8>, sb: Superblock, i: DiskInode, k: int) -> u32 {
    block_of(d, sb, i, k)->Ok_0
}

/// A write of `len > 0` bytes at `offset` overwrites blocks that file `i`
/// already maps on `d`: every logical block from the one holding `offset`
/// (or from the file's last block, where that comes first) to the one
/// holding the last byte resolves to a non-zero block; those the bytes go
/// to are pairwise distinct, on the device, away from the sector holding
/// inode `ino` and from every pointer block the range is resolved
/// through, which lies away from that inode sector too.
pub open spec fn overwrite_ok(d: Seq<u8>, sb: Superblock, ino: u32, i: DiskInode, offset: int, len: int) -> bool {
    &&& len > 0
    &&& 0 <= offset
    &&& forall|k: int| (offset / 512 <= k <= (offset + len - 1) / 512 || (i.size / 512 <= k < blocks_for(offset + len)))
        ==> #[trigger] block_of(d, sb, i, k) is Ok && mapped_block(d, sb, i, k) != 0
    &&& forall|k: int| offset / 512 <= k <= (offset + len - 1) / 512 ==> {
        &&& fits(d.len() as int, data_sector(sb, #[trigger] mapped_block(d, sb, i, k)))
        &&& data_sector(sb, mapped_block(d, sb, i, k)) != inode_sector(sb, ino)
    }
    &&& forall|k1: int, k2: int| offset / 512 <= k1 <= (offset + len - 1) / 512
        && offset / 512 <= k2 <= (offset + len - 1) / 512 && k1 != k2
        ==> #[trigger] mapped_block(d, sb, i, k1) != #[trigger] mapped_block(d, sb, i, k2)
    &&& forall|k1: int, k2: int, s: int| offset / 512 <= k1 <= (offset + len - 1) / 512
        && offset / 512 <= k2 <= (offset + len - 1) / 512 && #[trigger] on_path(d, sb, i, k2, s)
        ==> s != data_sector(sb, #[trigger] mapped_block(d, sb, i, k1)) && s != inode_sector(sb, ino)
}

/// Device position of byte `q` of file `i` as mapped on `d`.
pub open spec fn mapped_pos(d: Seq<u8>, sb: Superblock, i: DiskInode, q: int) -> int {
    512 * data_sector(sb, mapped_block(d, sb, i, q / 512)) + q % 512
}

/// The first `n` bytes of `data` sit in `cur` where file `i`, as mapped on
/// `d`, keeps bytes `offset` onwards.
pub open spec fn mapped_written(cur: Seq<u8>, d: Seq<u8>, sb: Superblock, i: DiskInode, offset: int, data: Seq<u8>, n: int) -> bool {
    forall|j: int| 0 <= j < n ==> #[trigger] cur[mapped_pos(d, sb, i, offset + j)] == data[j]
}

/// Every logical block of file `i` that bytes `offset` to `offset + len`
/// touch resolves to a non-zero block on the device.
pub open spec fn range_mapped(d: Seq<u8>, sb: Superblock, i: DiskInode, offset: int, len: int) -> bool {
    forall|k: int| offset / 512 <= k <= (offset + len - 1) / 512 ==> {
        &&& #[trigger] block_of(d, sb, i, k) is Ok
        &&& mapped_block(d, sb, i, k) != 0
        &&& has_sector(d, data_sector(sb, mapped_block(d, sb, i, k)))
    }
}

/// Logical blocks a file of `end` bytes spans.
pub open spec fn blocks_for(end: int) -> int {
    (end + 511) / 512
}

/// The errors the allocating paths can end in.
pub open spec fn alloc_error(e: VfsError) -> bool {
    e == VfsError::NoSpace || e == VfsError::IoError || e == VfsError::InvalidArgument
}

/// `r` with the count of components it went through raised by `k`.
pub open spec fn shifted(r: VfsResult<(u32, nat)>, k: nat) -> VfsResult<(u32, nat)> {
    match r {
        Err(e) => Err(e),
        Ok((x, m)) => Ok((x, m + k)),
    }
}

/// How the walk of `ensure_dir_path` goes from directory `cur` through
/// the components that already exist: the first error met (an unreadable
/// inode, NotADirectory for a file on the way, an unreadable entry), or
/// the directory it stops at and how many components it went through:
/// all of them, or those before the first one missing there.
pub open spec fn existing_prefix(d: Seq<u8>, sb: Superblock, cur: u32, comps: Seq<Seq<char>>) -> VfsResult<(u32, nat)>
    decreases comps.len(),
{
    if comps.len() == 0 {
        Ok((cur, 0))
    } else {
        match inode_at(d, sb, cur) {
            Err(e) => Err(e),
            Ok(i) => if i.itype != ITYPE_DIR {
                Err(VfsError::NotADirectory)
            } else {
                match dir_find(d, sb, i, encode_utf8(comps[0]), 0) {
                    Err(e) => Err(e),
                    Ok(None) => Ok((cur, 0)),
                    Ok(Some(next)) => match inode_at(d, sb, next) {
                        Err(e) => Err(e),
                        Ok(c) => if c.itype != ITYPE_DIR {
                            Err(VfsError::NotADirectory)
                        } else {
                            shifted(existing_prefix(d, sb, next, comps.drop_first()), 1)
                        },
                    },
                }
            },
        }
    }
}

/// The device, superblock and allocation hint after `free_block(block)`
/// on `st`: nothing changes for the sentinel 0, a block the bitmap cannot
/// describe or one whose bitmap sector is off the device; else its bit is
/// cleared, one block more is free and the hint moves back to it.
pub open spec fn free_step(st: (Seq<u8>, Superblock, u32), block: u32) -> (Seq<u8>, Superblock, u32) {
    let (d, sb, hint) = st;
    if block == 0 || block - 1 >= alloc_range(sb) || !has_sector(d, sb.bitmap_start + (block - 1) / 4096) {
        st
    } else {
        (clear_disk_bit(d, sb, block - 1), Superblock { free_blocks: (sb.free_blocks + 1) as u32, ..sb },
            if block - 1 < hint { (block - 1) as u32 } else { hint })
    }
}

/// `st` after freeing, in slot order, what the first `n` slots of pointer
/// block `block` hold, each read as the volume then stands; unreadable
/// slots are skipped.
pub open spec fn free_slots(st: (Seq<u8>, Superblock, u32), block: u32, n: nat) -> (Seq<u8>, Superblock, u32)
    decreases n,
{
    if n == 0 {
        st
    } else {
        let prev = free_slots(st, block, (n - 1) as nat);
        match pointer_at(prev.0, prev.1, block, n - 1) {
            Ok(p) => free_step(prev, p),
            Err(_) => prev,
        }
    }
}

/// Byte position of entry `k` of directory `i`, as `d` maps it.
pub open spec fn entry_pos(d: Seq<u8>, sb: Superblock, i: DiskInode, k: int) -> int {
    512 * data_sector(sb, mapped_block(d, sb, i, k / 8)) + 64 * (k % 8)
}

/// Sector `s` holds none of the first `c` entries of directory `i`, and
/// no pointer the blocks of its first `c + 1` entries are resolved
/// through, as `d` maps them.
pub open spec fn clear_of_entries(d: Seq<u8>, sb: Superblock, i: DiskInode, c: int, s: int) -> bool {
    &&& forall|k: int| 0 <= k < c ==> #[trigger] data_sector(sb, mapped_block(d, sb, i, k / 8)) != s
    &&& forall|k: int| 0 <= k <= c ==> !#[trigger] on_path(d, sb, i, k / 8, s)
}

/// The entry directory `i` (inode `dir`) gets next goes in place on `d`:
/// its block is already mapped and on the device, in a slot apart from
/// the other entries and away from the pointers they are resolved through;
/// the sectors of inodes `dir` and `other` and sector 0, which are written
/// around it, hold no entry or pointer of the directory.
pub open spec fn add_in_place(d: Seq<u8>, sb: Superblock, dir: u32, i: DiskInode, other: u32) -> bool {
    let c = i.dir_entry_count as int;
    let bs = data_sector(sb, mapped_block(d, sb, i, c / 8));
    &&& block_of(d, sb, i, c / 8) is Ok
    &&& mapped_block(d, sb, i, c / 8) != 0
    &&& fits(d.len() as int, bs)
    &&& bs != inode_sector(sb, dir) && bs != inode_sector(sb, other) && bs != 0
    &&& inode_sector(sb, dir) != 0 && inode_sector(sb, other) != 0
    &&& clear_of_entries(d, sb, i, c, inode_sector(sb, dir))
    &&& clear_of_entries(d, sb, i, c, inode_sector(sb, other))
    &&& clear_of_entries(d, sb, i, c, 0)
    &&& forall|k: int| 0 <= k < c ==> #[trigger] entry_pos(d, sb, i, k) != entry_pos(d, sb, i, c)
    &&& forall|k: int| 0 <= k <= c ==> !#[trigger] on_path(d, sb, i, k / 8, bs)
}

/// The 64 bytes at `p` hold an entry for inode `child` named `name`.
pub open spec fn entry_written(d: Seq<u8>, p: int, child: u32, name: Seq<u8>) -> bool {
    &&& le32(d.subrange(p, p + 64), 0) == child
    &&& d[p + 4] == name.len()
    &&& forall|k: int| 0 <= k < name.len() ==> #[trigger] d[p + 8 + k] == name[k]
}

/// A mounted racfs volume.
pub struct Racfs {
    disk: Vec<u8>,
    sb: Superblock,
    /// Data-block index where the next allocation scan starts (0-based).
    alloc_hint: u32,
}

impl Racfs {
    /// The device's bytes.
    pub closed spec fn disk(&self) -> Seq<u8> {
        self.disk@
    }

    /// The in-memory superblock.
    pub closed spec fn sblock(&self) -> Superblock {
        self.sb
    }

    /// Where the next allocation scan starts.
    pub closed spec fn hint(&self) -> u32 {
        self.alloc_hint
    }

    /// Copy sector `s` into `out`; IoError (and `out` untouched) when the
    /// device has no such sector.
    pub(crate) fn read_sector(&self, s: u64, out: &mut [u8; 512]) -> (r: VfsResult<()>)
        ensures
            has_sector(self.disk(), s as int) ==> r is Ok && final(out)@ == sector_bytes(self.disk(), s as int),
            !has_sector(self.disk(), s as int) ==> r == Err::<(), VfsError>(VfsError::IoError) && final(out)@ == old(out)@,
    {
        read_device_sector(&self.disk, s, out)
    }

    /// Mount the racfs on `disk`: IoError when sector 0 is missing or does
    /// not hold a superblock of [`mountable`] shape.
    pub fn open(disk: Vec<u8>) -> (r: VfsResult<Racfs>)
        ensures
            !has_sector(disk@, 0) ==> r == Err::<Racfs, VfsError>(VfsError::IoError),
            has_sector(disk@, 0) ==> {
                let sb = superblock_of(sector_bytes(disk@, 0));
                if mountable(sb) {
                    r matches Ok(fs) && fs.disk() == disk@ && fs.sblock() == sb && fs.hint() == 0
                } else {
                    r == Err::<Racfs, VfsError>(VfsError::IoError)
                }
            },
    {
        let mut buf = [0u8; 512];
        match read_device_sector(&disk, 0, &mut buf) {
            Ok(()) => {}
            Err(e) => return Err(e),
        }
        let sb = superblock_from_sector(&buf);
        if sb.magic != RACFS_MAGIC || sb.version != RACFS_VERSION {
            return Err(VfsError::IoError);
        }
        if sb.bitmap_start == 0 || sb.inode_start <= sb.bitmap_start || sb.data_start <= sb.inode_start {
            return Err(VfsError::IoError);
        }
        Ok(Racfs { disk, sb, alloc_hint: 0 })
    }

    /// Unmount, handing the device's bytes back.
    pub fn into_device(self) -> (r: Vec<u8>)
        ensures
            r@ == self.disk(),
    {
        self.disk
    }

    /// The in-memory superblock.
    pub fn superblock(&self) -> (r: Superblock)
        ensures
            r == self.sblock(),
    {
        self.sb
    }

    /// Usage figures `(total_blocks, free_blocks, total_inodes,
    /// free_inodes)` of the superblock (see [`Superblock::stats`]).
    pub fn stats(&self) -> (r: (u32, u32, u32, u32))
        ensures
            r == stats_of(self.sblock()),
    {
        self.sb.stats()
    }

    /// Read inode `ino` (see [`inode_at`]).
    pub fn read_inode(&self, ino: u32) -> (r: VfsResult<DiskInode>)
        ensures
            r == inode_at(self.disk(), self.sblock(), ino),
    {
        if ino >= self.sb.inode_count {
            return Err(VfsError::NotFound);
        }
        let sector = self.sb.inode_start as u64 + (ino as u64 / 4);
        let off = (ino as usize % 4) * 128;
        let mut buf = [0u8; 512];
        match self.read_sector(sector, &mut buf) {
            Ok(()) => {}
            Err(e) => return Err(e),
        }
        let b: &[u8] = &buf;
        let ib = slice_range(b, off, off + 128);
        let i = inode_from_bytes(ib);
        proof {
            let p = 512 * inode_sector(self.sb, ino) + inode_offset(ino);
            assert(ib@ =~= self.disk().subrange(p, p + 128));
            lemma_inode_of(ib@, i);
        }
        Ok(i)
    }

    /// Read data block `block` (1-based) into `out`; the sentinel 0 reads
    /// as zeros.
    fn read_data_block(&self, block: u32, out: &mut [u8; 512]) -> (r: VfsResult<()>)
        ensures
            block == 0 ==> r is Ok && final(out)@ == Seq::new(512, |j: int| 0u8),
            block != 0 && has_sector(self.disk(), data_sector(self.sblock(), block)) ==>
                r is Ok && final(out)@ == sector_bytes(self.disk(), data_sector(self.sblock(), block)),
            block != 0 && !has_sector(self.disk(), data_sector(self.sblock(), block)) ==>
                r == Err::<(), VfsError>(VfsError::IoError),
    {
        if block == 0 {
            *out = [0u8; 512];
            assert(out@ =~= Seq::new(512, |j: int| 0u8));
            return Ok(());
        }
        let s = self.sb.data_start as u64 + (block - 1) as u64;
        self.read_sector(s, out)
    }

    /// Pointer `slot` of block `block` (see [`pointer_at`]).
    pub(crate) fn read_pointer(&self, block: u32, slot: usize) -> (r: VfsResult<u32>)
        requires
            slot < 128,
        ensures
            r == pointer_at(self.disk(), self.sblock(), block, slot as int),
    {
        let mut sector = [0u8; 512];
        match self.read_data_block(block, &mut sector) {
            Ok(()) => {}
            Err(e) => return Err(e),
        }
        let b: &[u8] = &sector;
        let v = crate::encoding::read_le32(b, slot * 4);
        if block == 0 {
            assert(le32(b@, 4 * slot) == 0);
        }
        Ok(v)
    }

    /// The data block behind logical block `idx` of `inode` (see
    /// [`block_of`]). Never allocates.
    fn map_block(&self, inode: &DiskInode, idx: usize) -> (r: VfsResult<u32>)
        ensures
            r == block_of(self.disk(), self.sblock(), *inode, idx as int),
    {
        if idx < 8 {
            return Ok(inode.direct[idx]);
        }
        let idx = idx - 8;
        if idx < 128 {
            if inode.indirect == 0 {
                return Ok(0);
            }
            return self.read_pointer(inode.indirect, idx);
        }
        let idx = idx - 128;
        if idx >= 16384 {
            return Err(VfsError::NoSpace);
        }
        if inode.double_indirect == 0 {
            return Ok(0);
        }
        let l1 = match self.read_pointer(inode.double_indirect, idx / 128) {
            Ok(b) => b,
            Err(e) => return Err(e),
        };
        if l1 == 0 {
            return Ok(0);
        }
        self.read_pointer(l1, idx % 128)
    }

    /// Read up to `buf.len()` bytes of file `ino` from `offset` (see
    /// [`read_file_result`]); the bytes read are the file's, the rest of
    /// `buf` keeps its contents.
    pub fn read_file(&self, ino: u32, offset: u64, buf: &mut [u8]) -> (r: VfsResult<usize>)
        ensures
            final(buf)@.len() == old(buf)@.len(),
            match read_file_result(self.disk(), self.sblock(), ino, offset, old(buf)@.len() as int) {
                Err(e) => r == Err::<usize, VfsError>(e),
                Ok(n) => {
                    &&& r == Ok::<usize, VfsError>(n as usize)
                    &&& forall|j: int| 0 <= j < n ==> #[trigger] final(buf)@[j]
                        == file_byte(self.disk(), self.sblock(), inode_at(self.disk(), self.sblock(), ino)->Ok_0, offset + j)
                    &&& forall|j: int| n <= j < old(buf)@.len() ==> #[trigger] final(buf)@[j] == old(buf)@[j]
                },
            },
    {
        let inode = match self.read_inode(ino) {
            Ok(i) => i,
            Err(e) => return Err(e),
        };
        if inode.itype != ITYPE_FILE {
            return Err(VfsError::IsADirectory);
        }
        let size = inode.size as u64;
        if offset >= size {
            return Ok(0);
        }
        let avail = (size - offset) as usize;
        let to_read = if buf.len() < avail { buf.len() } else { avail };
        let ghost d = self.disk();
        let ghost sb = self.sblock();
        let ghost b0 = buf@;
        let mut done: usize = 0;
        let mut pos: usize = offset as usize;
        while done < to_read
            invariant
                d == self.disk(),
                sb == self.sblock(),
                to_read <= buf@.len(),
                b0 == old(buf)@,
                buf@.len() == b0.len(),
                inode_at(d, sb, ino) == Ok::<DiskInode, VfsError>(inode),
                inode.itype == ITYPE_FILE,
                size == inode.size,
                to_read == (if b0.len() < size - offset { b0.len() as int } else { size - offset }),
                offset < size <= u32::MAX,
                to_read <= size - offset,
                done <= to_read,
                pos == offset + done,
                read_run(d, sb, inode, offset as int, to_read as int) == (match read_run(d, sb, inode, pos as int, to_read - done) {
                    Ok(n) => Ok::<int, VfsError>(done + n),
                    Err(e) => Err::<int, VfsError>(e),
                }),
                forall|j: int| 0 <= j < done ==> #[trigger] buf@[j] == file_byte(d, sb, inode, offset + j),
                forall|j: int| done <= j < b0.len() ==> #[trigger] buf@[j] == b0[j],
            ensures
                done == to_read || (done < to_read && block_of(d, sb, inode, pos as int / 512) is Err),
                read_run(d, sb, inode, offset as int, to_read as int) == (match read_run(d, sb, inode, pos as int, to_read - done) {
                    Ok(n) => Ok::<int, VfsError>(done + n),
                    Err(e) => Err::<int, VfsError>(e),
                }),
                buf@.len() == b0.len(),
                forall|j: int| 0 <= j < done ==> #[trigger] buf@[j] == file_byte(d, sb, inode, offset + j),
                forall|j: int| done <= j < b0.len() ==> #[trigger] buf@[j] == b0[j],
            decreases to_read - done,
        {
            let block_idx = pos / 512;
            let block_off = pos % 512;
            let block = match self.map_block(&inode, block_idx) {
                Ok(b) => b,
                Err(_) => break,
            };
            let mut sector = [0u8; 512];
            match self.read_data_block(block, &mut sector) {
                Ok(()) => {}
                Err(e) => {
                    proof {
                        assert(block != 0 && !has_sector(d, data_sector(sb, block)));
                        assert(read_run(d, sb, inode, pos as int, to_read - done) == Err::<int, VfsError>(VfsError::IoError));
                    }
                    return Err(e);
                }
            }
            let room = 512 - block_off;
            let chunk = if room < to_read - done { room } else { to_read - done };
            let ghost before = buf@;
            let mut k: usize = 0;
            while k < chunk
                invariant
                    d == self.disk(),
                    sb == self.sblock(),
                    chunk <= 512 - block_off,
                    block_off == pos % 512,
                    block_idx == pos / 512,
                    done + chunk <= to_read <= before.len(),
                    buf@.len() == before.len(),
                    block_of(d, sb, inode, block_idx as int) == Ok::<u32, VfsError>(block),
                    block == 0 ==> sector@ == Seq::new(512, |j: int| 0u8),
                    block != 0 ==> has_sector(d, data_sector(sb, block)) && sector@ == sector_bytes(d, data_sector(sb, block)),
                    k <= chunk,
                    forall|j: int| 0 <= j < k ==> #[trigger] buf@[done + j] == file_byte(d, sb, inode, pos + j),
                    forall|j: int| 0 <= j < done ==> #[trigger] buf@[j] == before[j],
                    forall|j: int| 0 <= j < done ==> #[trigger] before[j] == file_byte(d, sb, inode, offset + j),
                    pos == offset + done,
                    forall|j: int| done + k <= j < before.len() ==> #[trigger] buf@[j] == before[j],
                decreases chunk - k,
            {
                proof {
                    let q = pos + k;
                    assert(q / 512 == block_idx as int && q % 512 == block_off + k) by (nonlinear_arith)
                        requires
                            q == pos + k,
                            block_off == pos % 512,
                            block_idx == pos / 512,
                            block_off + k < 512,
                    ;
                    if block != 0 {
                        assert(sector@[block_off + k] == d[512 * data_sector(sb, block) + block_off + k]);
                    }
                }
                buf[done + k] = sector[block_off + k];
                k = k + 1;
            }
            proof {
                assert forall|j: int| 0 <= j < done + chunk implies #[trigger] buf@[j] == file_byte(d, sb, inode, offset + j) by {
                    if j >= done {
                        assert(buf@[done + (j - done)] == file_byte(d, sb, inode, pos + (j - done)));
                    }
                }
                assert(read_run(d, sb, inode, pos as int, to_read - done) == (match read_run(d, sb, inode, pos + chunk, to_read - done - chunk) {
                    Ok(n) => Ok::<int, VfsError>(chunk + n),
                    Err(e) => Err::<int, VfsError>(e),
                }));
            }
            done = done + chunk;
            pos = pos + chunk;
        }
        proof {
            if done < to_read {
                assert(read_run(d, sb, inode, pos as int, to_read - done) == Ok::<int, VfsError>(0));
            }
        }
        Ok(done)
    }

    /// Entry `idx` of directory `inode` (see [`direntry_at`]).
    pub(crate) fn read_direntry(&self, inode: &DiskInode, idx: u32) -> (r: VfsResult<DiskDirEntry>)
        ensures
            match direntry_at(self.disk(), self.sblock(), *inode, idx as int) {
                Err(e) => r == Err::<DiskDirEntry, VfsError>(e),
                Ok(e) => r matches Ok(de) && direntry_decodes_to(e, de) && de.name_len <= 56,
            },
    {
        let block_idx = idx as usize / 8;
        let entry = idx as usize % 8;
        let block = match self.map_block(inode, block_idx) {
            Ok(b) => b,
            Err(e) => return Err(e),
        };
        if block == 0 {
            return Err(VfsError::IoError);
        }
        let mut sector = [0u8; 512];
        match self.read_data_block(block, &mut sector) {
            Ok(()) => {}
            Err(e) => return Err(e),
        }
        let off = entry * 64;
        let b: &[u8] = &sector;
        let eb = slice_range(b, off, off + 64);
        assert(eb@ =~= sector_bytes(self.disk(), data_sector(self.sblock(), block)).subrange(64 * (idx % 8), 64 * (idx % 8) + 64));
        Ok(direntry_from_bytes(eb))
    }

    /// The inode of the entry named `name` in directory `inode` (see
    /// [`dir_find`]).
    fn dir_lookup(&self, inode: &DiskInode, name: &[u8]) -> (r: VfsResult<Option<u32>>)
        ensures
            r == dir_find(self.disk(), self.sblock(), *inode, name@, 0),
    {
        let count = inode.dir_entry_count;
        let mut k: u32 = 0;
        while k < count
            invariant
                count == inode.dir_entry_count,
                k <= count,
                dir_find(self.disk(), self.sblock(), *inode, name@, 0) == dir_find(self.disk(), self.sblock(), *inode, name@, k as int),
            decreases count - k,
        {
            let de = match self.read_direntry(inode, k) {
                Ok(de) => de,
                Err(e) => return Err(e),
            };
            let n = slice_range(de.name.as_slice(), 0, de.name_len as usize);
            let ghost e = direntry_at(self.disk(), self.sblock(), *inode, k as int)->Ok_0;
            assert(n@ =~= entry_name(e));
            if bytes_eq(n, name) {
                return Ok(Some(de.ino));
            }
            k = k + 1;
        }
        Ok(None)
    }

    /// Resolve `path` from inode `root`, ignoring empty and `.` components
    /// (see [`rwalk`]).
    pub fn lookup_path_from(&self, root: u32, path: &str) -> (r: VfsResult<u32>)
        ensures
            r == rwalk(self.disk(), self.sblock(), root, components(path@, true)),
    {
        let comps = split_components(path, true);
        let ghost cs = components(path@, true);
        let mut cur: u32 = root;
        let mut i: usize = 0;
        assert(cs.skip(0) =~= cs);
        while i < comps.len()
            invariant
                cs == components(path@, true),
                i <= comps@.len(),
                comps@.len() == cs.len(),
                forall|m: int| 0 <= m < comps@.len() ==> #[trigger] comps@[m]@ == cs[m],
                rwalk(self.disk(), self.sblock(), cur, cs.skip(i as int)) == rwalk(self.disk(), self.sblock(), root, cs),
            decreases comps@.len() - i,
        {
            let ghost rest = cs.skip(i as int);
            assert(rest.len() > 0);
            assert(rest[0] == comps@[i as int]@);
            assert(rest.drop_first() =~= cs.skip(i + 1));
            let inode = match self.read_inode(cur) {
                Ok(n) => n,
                Err(e) => return Err(e),
            };
            if inode.itype != ITYPE_DIR {
                return Err(VfsError::NotADirectory);
            }
            let name = comps[i].as_str().as_bytes();
            match self.dir_lookup(&inode, name) {
                Err(e) => return Err(e),
                Ok(None) => return Err(VfsError::NotFound),
                Ok(Some(next)) => {
                    cur = next;
                }
            }
            i = i + 1;
        }
        assert(cs.skip(i as int) =~= Seq::<Seq<char>>::empty());
        Ok(cur)
    }

    /// Resolve `path` from the root directory (inode 0).
    pub fn lookup_path(&self, path: &str) -> (r: VfsResult<u32>)
        ensures
            r == rwalk(self.disk(), self.sblock(), 0, components(path@, true)),
    {
        self.lookup_path_from(0, path)
    }

    /// Split `path` into the directory holding its last component, resolved
    /// from `root`, and that component (empty components dropped, `.`
    /// kept): InvalidArgument for a path with no component.
    pub fn split_parent_leaf_from<'a>(&self, root: u32, path: &'a str) -> (r: VfsResult<(u32, &'a str)>)
        ensures
            components(path@, false).len() == 0 ==> r == Err::<(u32, &str), VfsError>(VfsError::InvalidArgument),
            components(path@, false).len() > 0 ==> {
                let cs = components(path@, false);
                match rwalk(self.disk(), self.sblock(), root, cs.drop_last()) {
                    Err(e) => r == Err::<(u32, &str), VfsError>(e),
                    Ok(p) => r matches Ok((q, leaf)) && q == p && leaf@ == cs.last(),
                }
            },
    {
        let ranges = component_ranges(path, false);
        let ghost cs = components(path@, false);
        if ranges.len() == 0 {
            return Err(VfsError::InvalidArgument);
        }
        let last = ranges.len() - 1;
        let (la, lb) = ranges[last];
        assert(range_is_component(path@, false, ranges@[last as int], last as int));
        let leaf = path.substring_char(la, lb);
        let ghost parents = cs.drop_last();
        let mut cur: u32 = root;
        let mut i: usize = 0;
        assert(parents.skip(0) =~= parents);
        while i < last
            invariant
                last == ranges@.len() - 1,
                i <= last,
                cs == components(path@, false),
                ranges@.len() == cs.len(),
                parents == cs.drop_last(),
                forall|m: int| 0 <= m < ranges@.len() ==> range_is_component(path@, false, #[trigger] ranges@[m], m),
                rwalk(self.disk(), self.sblock(), cur, parents.skip(i as int)) == rwalk(self.disk(), self.sblock(), root, parents),
            decreases last - i,
        {
            let ghost rest = parents.skip(i as int);
            assert(rest.len() > 0);
            let (a, b) = ranges[i];
            assert(range_is_component(path@, false, ranges@[i as int], i as int));
            let part = path.substring_char(a, b);
            assert(rest[0] == cs[i as int]);
            assert(rest.drop_first() =~= parents.skip(i + 1));
            let inode = match self.read_inode(cur) {
                Ok(n) => n,
                Err(e) => return Err(e),
            };
            if inode.itype != ITYPE_DIR {
                return Err(VfsError::NotADirectory);
            }
            match self.dir_lookup(&inode, part.as_bytes()) {
                Err(e) => return Err(e),
                Ok(None) => return Err(VfsError::NotFound),
                Ok(Some(next)) => {
                    cur = next;
                }
            }
            i = i + 1;
        }
        assert(parents.skip(i as int) =~= Seq::<Seq<char>>::empty());
        Ok((cur, leaf))
    }

    /// [`Racfs::split_parent_leaf_from`] the root directory.
    pub fn split_parent_leaf<'a>(&self, path: &'a str) -> (r: VfsResult<(u32, &'a str)>)
        ensures
            components(path@, false).len() == 0 ==> r == Err::<(u32, &str), VfsError>(VfsError::InvalidArgument),
            components(path@, false).len() > 0 ==> {
                let cs = components(path@, false);
                match rwalk(self.disk(), self.sblock(), 0, cs.drop_last()) {
                    Err(e) => r == Err::<(u32, &str), VfsError>(e),
                    Ok(p) => r matches Ok((q, leaf)) && q == p && leaf@ == cs.last(),
                }
            },
    {
        self.split_parent_leaf_from(0, path)
    }

    /// How many entries directory `ino` holds; NotADirectory for anything
    /// else.
    pub fn dir_entry_count(&self, ino: u32) -> (r: VfsResult<u32>)
        ensures
            match inode_at(self.disk(), self.sblock(), ino) {
                Err(e) => r == Err::<u32, VfsError>(e),
                Ok(i) => if i.itype != ITYPE_DIR {
                    r == Err::<u32, VfsError>(VfsError::NotADirectory)
                } else {
                    r == Ok::<u32, VfsError>(i.dir_entry_count)
                },
            },
    {
        let di = match self.read_inode(ino) {
            Ok(i) => i,
            Err(e) => return Err(e),
        };
        if di.itype != ITYPE_DIR {
            return Err(VfsError::NotADirectory);
        }
        Ok(di.dir_entry_count)
    }

    /// The entries of directory `ino` (see [`listing`]); NotADirectory for
    /// anything else.
    #[verifier::rlimit(40)]
    pub fn readdir(&self, ino: u32) -> (r: VfsResult<Vec<DirEntry>>)
        ensures
            match inode_at(self.disk(), self.sblock(), ino) {
                Err(e) => r == Err::<Vec<DirEntry>, VfsError>(e),
                Ok(i) => if i.itype != ITYPE_DIR {
                    r == Err::<Vec<DirEntry>, VfsError>(VfsError::NotADirectory)
                } else {
                    match listing(self.disk(), self.sblock(), i, 0) {
                        Err(e) => r == Err::<Vec<DirEntry>, VfsError>(e),
                        Ok(l) => r matches Ok(v) && entries_view(v@) == l,
                    }
                },
            },
    {
        let inode = match self.read_inode(ino) {
            Ok(i) => i,
            Err(e) => return Err(e),
        };
        if inode.itype != ITYPE_DIR {
            return Err(VfsError::NotADirectory);
        }
        let ghost d = self.disk();
        let ghost sb = self.sblock();
        let count = inode.dir_entry_count;
        let mut entries: Vec<DirEntry> = Vec::new();
        let mut k: u32 = 0;
        while k < count
            invariant
                d == self.disk(),
                sb == self.sblock(),
                count == inode.dir_entry_count,
                k <= count,
                inode_at(d, sb, ino) == Ok::<DiskInode, VfsError>(inode),
                inode.itype == ITYPE_DIR,
                listing(d, sb, inode, 0) == (match listing(d, sb, inode, k as int) {
                    Ok(l) => Ok::<Seq<(Seq<char>, InodeNum, FileType)>, VfsError>(entries_view(entries@) + l),
                    Err(e) => Err::<Seq<(Seq<char>, InodeNum, FileType)>, VfsError>(e),
                }),
            decreases count - k,
        {
            let de = match self.read_direntry(&inode, k) {
                Ok(de) => de,
                Err(e) => return Err(e),
            };
            let ghost e = direntry_at(d, sb, inode, k as int)->Ok_0;
            if de.name_len == 0 {
                k = k + 1;
                continue;
            }
            let child = match self.read_inode(de.ino) {
                Ok(c) => c,
                Err(_) => {
                    k = k + 1;
                    continue;
                }
            };
            let nb = slice_range(de.name.as_slice(), 0, de.name_len as usize);
            assert(nb@ =~= entry_name(e));
            let name: String = match utf8_str(nb) {
                Some(s) => s.to_owned(),
                None => {
                    let q = "???";
                    proof { reveal_strlit("???"); }
                    assert(q@ =~= seq!['?', '?', '?']);
                    q.to_owned()
                }
            };
            assert(name@ == entry_text(e));
            let file_type = if child.itype == ITYPE_DIR { FileType::Directory } else { FileType::Regular };
            let item = DirEntry { name, ino: de.ino as InodeNum, file_type };
            let ghost before = entries@;
            let ghost t = (entry_text(e), entry_ino(e) as InodeNum, type_of_tag(child.itype));
            assert((item.name@, item.ino, item.file_type) == t);
            entries.push(item);
            proof {
                lemma_entries_view_push(before, item);
                lemma_listing_cons(d, sb, inode, k as int, t, entries_view(before));
            }
            k = k + 1;
        }
        proof {
            assert(entries_view(entries@) + Seq::<(Seq<char>, InodeNum, FileType)>::empty() =~= entries_view(entries@));
        }
        Ok(entries)
    }

    /// Metadata of inode `ino`; NotFound for a free inode.
    pub fn inode_metadata(&self, ino: u32) -> (r: VfsResult<InodeMetadata>)
        ensures
            match inode_at(self.disk(), self.sblock(), ino) {
                Err(e) => r == Err::<InodeMetadata, VfsError>(e),
                Ok(i) => if i.itype == ITYPE_FREE {
                    r == Err::<InodeMetadata, VfsError>(VfsError::NotFound)
                } else {
                    r == Ok::<InodeMetadata, VfsError>(metadata_of(ino, i))
                },
            },
    {
        let di = match self.read_inode(ino) {
            Ok(i) => i,
            Err(e) => return Err(e),
        };
        if di.itype == ITYPE_FREE {
            return Err(VfsError::NotFound);
        }
        let file_type = if di.itype == ITYPE_DIR { FileType::Directory } else { FileType::Regular };
        let mut meta = InodeMetadata::new(ino as InodeNum, file_type);
        meta.mode = FileMode::new(di.mode as u32);
        meta.size = di.size as u64;
        meta.nlink = di.nlink as u32;
        meta.uid = di.uid;
        meta.gid = di.gid;
        Ok(meta)
    }

    /// Replace sector `s` with `data`; IoError (nothing written) when the
    /// device has no such sector.
    fn write_sector(&mut self, s: u64, data: &[u8; 512]) -> (r: VfsResult<()>)
        ensures
            final(self).sblock() == old(self).sblock(),
            final(self).hint() == old(self).hint(),
            has_sector(old(self).disk(), s as int) ==> r is Ok
                && final(self).disk() == with_sector(old(self).disk(), s as int, data@),
            !has_sector(old(self).disk(), s as int) ==> r == Err::<(), VfsError>(VfsError::IoError)
                && final(self).disk() == old(self).disk(),
    {
        write_device_sector(&mut self.disk, s, data)
    }

    /// Rewrite the record of inode `ino` (see [`inode_written`]); IoError
    /// (nothing written) when its sector is not on the device. The inode
    /// number is not checked against the inode count.
    fn write_inode(&mut self, ino: u32, inode: &DiskInode) -> (r: VfsResult<()>)
        ensures
            final(self).sblock() == old(self).sblock(),
            final(self).hint() == old(self).hint(),
            has_sector(old(self).disk(), inode_sector(old(self).sblock(), ino)) ==> r is Ok
                && inode_written(old(self).disk(), final(self).disk(), old(self).sblock(), ino, *inode),
            !has_sector(old(self).disk(), inode_sector(old(self).sblock(), ino)) ==>
                r == Err::<(), VfsError>(VfsError::IoError) && final(self).disk() == old(self).disk(),
    {
        let sector = self.sb.inode_start as u64 + (ino as u64 / 4);
        let off = (ino as usize % 4) * 128;
        let mut buf = [0u8; 512];
        match self.read_sector(sector, &mut buf) {
            Ok(()) => {}
            Err(e) => return Err(e),
        }
        let ghost d0 = self.disk();
        let ghost s0 = buf@;
        let bytes = inode_to_bytes(inode);
        let mut k: usize = 0;
        while k < 128
            invariant
                off + 128 <= 512,
                k <= 128,
                forall|j: int| off <= j < off + k ==> #[trigger] buf@[j] == bytes@[j - off],
                forall|j: int| 0 <= j < 512 && !(off <= j < off + k) ==> #[trigger] buf@[j] == s0[j],
            decreases 128 - k,
        {
            buf[off + k] = bytes[k];
            k = k + 1;
        }
        let r = self.write_sector(sector, &buf);
        proof {
            let p = 512 * inode_sector(old(self).sblock(), ino) + inode_offset(ino);
            assert(p == 512 * sector + off);
            assert forall|j: int| 0 <= j < d0.len() && !(p <= j < p + 128) implies #[trigger] self.disk()[j] == d0[j] by {
                lemma_with_sector_index(d0, sector as int, buf@, j);
                if 512 * sector <= j < 512 * sector + 512 {
                    assert(s0[j - 512 * sector] == d0[j]);
                }
            }
            assert forall|j: int| 0 <= j < 128 implies #[trigger] self.disk().subrange(p, p + 128)[j] == bytes@[j] by {
                lemma_with_sector_index(d0, sector as int, buf@, p + j);
            }
            assert(self.disk().subrange(p, p + 128) =~= bytes@);
        }
        r
    }

    /// Set the mode (permission bits), owner and group of inode `ino` from
    /// `meta`; NotFound for a free inode.
    pub fn set_inode_metadata(&mut self, ino: u32, meta: &InodeMetadata) -> (r: VfsResult<()>)
        ensures
            final(self).sblock() == old(self).sblock(),
            final(self).hint() == old(self).hint(),
            match inode_at(old(self).disk(), old(self).sblock(), ino) {
                Err(e) => r == Err::<(), VfsError>(e) && final(self).disk() == old(self).disk(),
                Ok(i) => if i.itype == ITYPE_FREE {
                    r == Err::<(), VfsError>(VfsError::NotFound) && final(self).disk() == old(self).disk()
                } else {
                    r is Ok && inode_written(old(self).disk(), final(self).disk(), old(self).sblock(), ino,
                        DiskInode { mode: (meta.mode.0 & 0o7777) as u16, uid: meta.uid, gid: meta.gid, ..i })
                },
            },
    {
        let mut di = match self.read_inode(ino) {
            Ok(i) => i,
            Err(e) => return Err(e),
        };
        if di.itype == ITYPE_FREE {
            return Err(VfsError::NotFound);
        }
        di.mode = (meta.mode.0 & 0o7777) as u16;
        di.uid = meta.uid;
        di.gid = meta.gid;
        self.write_inode(ino, &di)
    }

    /// Zero sectors `[from, to)`, all on the device; every other byte is
    /// kept.
    fn zero_sectors(&mut self, from: u64, to: u64)
        requires
            1 <= from <= to,
            has_sector(old(self).disk(), to - 1),
        ensures
            final(self).sblock() == old(self).sblock(),
            final(self).hint() == old(self).hint(),
            final(self).disk().len() == old(self).disk().len(),
            forall|j: int| 512 * from <= j < 512 * to ==> #[trigger] final(self).disk()[j] == 0,
            forall|j: int| 0 <= j < old(self).disk().len() && !(512 * from <= j < 512 * to)
                ==> #[trigger] final(self).disk()[j] == old(self).disk()[j],
    {
        let zero = [0u8; 512];
        assert(zero@ =~= Seq::new(512, |j: int| 0u8));
        let ghost d1 = self.disk();
        let mut s: u64 = from;
        while s < to
            invariant
                self.sblock() == old(self).sblock(),
                self.hint() == old(self).hint(),
                from <= s <= to,
                self.disk().len() == d1.len(),
                d1 == old(self).disk(),
                has_sector(d1, to - 1),
                zero@ == Seq::new(512, |j: int| 0u8),
                forall|j: int| 512 * from <= j < 512 * s ==> #[trigger] self.disk()[j] == 0,
                forall|j: int| 0 <= j < d1.len() && !(512 * from <= j < 512 * s) ==> #[trigger] self.disk()[j] == d1[j],
            decreases to - s,
        {
            let ghost before = self.disk();
            let w = self.write_sector(s, &zero);
            proof {
                assert(has_sector(before, s as int));
                assert forall|j: int| 0 <= j < before.len() implies #[trigger] self.disk()[j]
                    == (if 512 * s <= j < 512 * s + 512 { 0u8 } else { before[j] }) by {
                    lemma_with_sector_index(before, s as int, zero@, j);
                }
            }
            s = s + 1;
        }
    }

    /// Claim the first free data block in `[from, to)` (see [`scan_free`]):
    /// its bit is set on the device and its index returned.
    fn claim_first_free(&mut self, from: usize, to: usize) -> (r: VfsResult<Option<usize>>)
        requires
            to <= u32::MAX,
        ensures
            final(self).sblock() == old(self).sblock(),
            final(self).hint() == old(self).hint(),
            match scan_free(old(self).disk(), old(self).sblock(), from as int, to as int) {
                Err(e) => r == Err::<Option<usize>, VfsError>(e) && final(self).disk() == old(self).disk(),
                Ok(None) => r == Ok::<Option<usize>, VfsError>(None) && final(self).disk() == old(self).disk(),
                Ok(Some(i)) => r == Ok::<Option<usize>, VfsError>(Some(i as usize))
                    && final(self).disk() == set_disk_bit(old(self).disk(), old(self).sblock(), i),
            },
    {
        let ghost d = self.disk();
        let ghost sb = self.sblock();
        let mut idx = from;
        while idx < to
            invariant
                d == self.disk(),
                sb == self.sblock(),
                self.hint() == old(self).hint(),
                d == old(self).disk(),
                sb == old(self).sblock(),
                to <= u32::MAX,
                from <= idx || idx == from,
                scan_free(d, sb, from as int, to as int) == scan_free(d, sb, idx as int, to as int),
            decreases to - idx,
        {
            let sector_no = idx / 4096;
            let sector = self.sb.bitmap_start as u64 + sector_no as u64;
            let mut bitmap = [0u8; 512];
            match self.read_sector(sector, &mut bitmap) {
                Ok(()) => {}
                Err(e) => return Err(e),
            }
            let next_boundary: u64 = (sector_no as u64 + 1) * 4096;
            let sector_end: usize = if next_boundary < to as u64 { next_boundary as usize } else { to };
            let ghost idx0 = idx;
            proof {
                assert(idx < (sector_no + 1) * 4096) by (nonlinear_arith)
                    requires
                        sector_no == idx / 4096,
                ;
                assert(sector_no * 4096 <= idx) by (nonlinear_arith)
                    requires
                        sector_no == idx / 4096,
                ;
            }
            while idx < sector_end
                invariant
                    d == self.disk(),
                    sb == self.sblock(),
                    self.hint() == old(self).hint(),
                    d == old(self).disk(),
                    sb == old(self).sblock(),
                    to <= u32::MAX,
                    sector_end <= to,
                    sector_no * 4096 <= idx,
                    idx0 <= idx,
                    idx <= sector_end,
                    idx0 < sector_end,
                    sector_end <= (sector_no + 1) * 4096,
                    sector == sb.bitmap_start + sector_no,
                    has_sector(d, sector as int),
                    bitmap@ == sector_bytes(d, sector as int),
                    scan_free(d, sb, from as int, to as int) == scan_free(d, sb, idx as int, to as int),
                decreases sector_end - idx,
            {
                let byte = (idx % 4096) / 8;
                let bit = (idx % 8) as u8;
                proof {
                    assert(idx as int / 4096 == sector_no) by (nonlinear_arith)
                        requires
                            sector_no * 4096 <= idx,
                            idx < (sector_no + 1) * 4096,
                    ;
                    assert(byte < 512);
                    assert(bitmap@[byte as int] == d[bit_pos(sb, idx as int)]);
                }
                let cur = bitmap[byte];
                assert(((cur >> bit) & 1u8) == 0u8 || ((cur >> bit) & 1u8) == 1u8) by (bit_vector);
                if (cur >> bit) & 1u8 == 0u8 {
                    let v = cur | (1u8 << bit);
                    let ghost sec = bitmap@;
                    bitmap[byte] = v;
                    let w = self.write_sector(sector, &bitmap);
                    proof {
                        assert(bitmap@ == sector_bytes(d, sector as int).update(byte as int, v));
                        lemma_with_sector_update(d, sector as int, byte as int, v);
                        assert(self.disk() == set_disk_bit(d, sb, idx as int));
                    }
                    return Ok(Some(idx));
                }
                idx = idx + 1;
            }
            assert(idx > idx0);
        }
        Ok(None)
    }

    /// Allocate a data block (see [`alloc_outcome`]), returned 1-based:
    /// its bit is set, one block fewer is free, and the next scan starts
    /// after it. Nothing changes on failure.
    fn alloc_block(&mut self) -> (r: VfsResult<u32>)
        ensures
            match alloc_outcome(old(self).disk(), old(self).sblock(), old(self).hint()) {
                Err(e) => r == Err::<u32, VfsError>(e) && final(self).disk() == old(self).disk()
                    && final(self).sblock() == old(self).sblock() && final(self).hint() == old(self).hint(),
                Ok(i) => r == Ok::<u32, VfsError>((i + 1) as u32)
                    && final(self).disk() == set_disk_bit(old(self).disk(), old(self).sblock(), i)
                    && final(self).sblock() == (Superblock { free_blocks: (old(self).sblock().free_blocks - 1) as u32, ..old(self).sblock() })
                    && final(self).hint() == (if i + 1 > u32::MAX { u32::MAX as int } else { i + 1 }),
            },
    {
        if self.sb.free_blocks == 0 {
            return Err(VfsError::NoSpace);
        }
        let addressable = self.sb.addressable_blocks();
        let dbc = self.sb.data_block_count as usize;
        let total = if dbc < addressable { dbc } else { addressable };
        assert(total == alloc_range(self.sb));
        if total == 0 {
            return Err(VfsError::NoSpace);
        }
        let hint = self.alloc_hint as usize;
        let start = if hint < total - 1 { hint } else { total - 1 };
        let found = match self.claim_first_free(start, total) {
            Err(e) => return Err(e),
            Ok(Some(i)) => Some(i),
            Ok(None) => match self.claim_first_free(0, start) {
                Err(e) => return Err(e),
                Ok(f) => f,
            },
        };
        match found {
            Some(idx) => {
                proof {
                    lemma_scan_free_range(old(self).disk(), old(self).sblock(), start as int, total as int);
                    lemma_scan_free_range(old(self).disk(), old(self).sblock(), 0, start as int);
                }
                self.alloc_hint = (idx as u32).saturating_add(1);
                self.sb.free_blocks = self.sb.free_blocks - 1;
                Ok(idx as u32 + 1)
            }
            None => Err(VfsError::NoSpace),
        }
    }

    /// Free data block `block` (1-based; the sentinel 0 does nothing):
    /// InvalidArgument for a block the bitmap cannot describe; IoError when
    /// its bitmap sector is not on the device; else its bit is cleared, one
    /// block more is free, and the next scan starts no later than it.
    fn free_block(&mut self, block: u32) -> (r: VfsResult<()>)
        requires
            old(self).sblock().free_blocks < u32::MAX,
        ensures
            block == 0 ==> r == Ok::<(), VfsError>(()) && *final(self) == *old(self),
            block != 0 && block - 1 >= alloc_range(old(self).sblock()) ==>
                r == Err::<(), VfsError>(VfsError::InvalidArgument) && *final(self) == *old(self),
            block != 0 && block - 1 < alloc_range(old(self).sblock())
                && !has_sector(old(self).disk(), old(self).sblock().bitmap_start + (block - 1) / 4096) ==>
                r == Err::<(), VfsError>(VfsError::IoError) && *final(self) == *old(self),
            block != 0 && block - 1 < alloc_range(old(self).sblock())
                && has_sector(old(self).disk(), old(self).sblock().bitmap_start + (block - 1) / 4096) ==> {
                &&& r == Ok::<(), VfsError>(())
                &&& final(self).disk() == clear_disk_bit(old(self).disk(), old(self).sblock(), block - 1)
                &&& final(self).sblock() == (Superblock { free_blocks: (old(self).sblock().free_blocks + 1) as u32, ..old(self).sblock() })
                &&& final(self).hint() == (if block - 1 < old(self).hint() { (block - 1) as u32 } else { old(self).hint() })
            },
    {
        if block == 0 {
            return Ok(());
        }
        let idx = (block - 1) as usize;
        if idx >= self.sb.addressable_blocks() || idx >= self.sb.data_block_count as usize {
            return Err(VfsError::InvalidArgument);
        }
        let ghost d = self.disk();
        let sector = self.sb.bitmap_start as u64 + (idx / 4096) as u64;
        let byte = (idx % 4096) / 8;
        let bit = (idx % 8) as u8;
        let mut bitmap = [0u8; 512];
        match self.read_sector(sector, &mut bitmap) {
            Ok(()) => {}
            Err(e) => return Err(e),
        }
        let v = bitmap[byte] & !(1u8 << bit);
        bitmap[byte] = v;
        let w = self.write_sector(sector, &bitmap);
        proof {
            assert(bitmap@ == sector_bytes(d, sector as int).update(byte as int, v));
            lemma_with_sector_update(d, sector as int, byte as int, v);
        }
        self.sb.free_blocks = self.sb.free_blocks + 1;
        if (idx as u32) < self.alloc_hint {
            self.alloc_hint = idx as u32;
        }
        Ok(())
    }

    /// Allocate an inode (see [`first_free_inode`]): one inode fewer is
    /// free. Nothing changes on failure. The inode itself is not written.
    fn alloc_inode(&mut self) -> (r: VfsResult<u32>)
        ensures
            final(self).disk() == old(self).disk(),
            final(self).hint() == old(self).hint(),
            old(self).sblock().free_inodes == 0 ==> r == Err::<u32, VfsError>(VfsError::NoSpace)
                && final(self).sblock() == old(self).sblock(),
            old(self).sblock().free_inodes != 0 ==> match first_free_inode(old(self).disk(), old(self).sblock(), 1) {
                Err(e) => r == Err::<u32, VfsError>(e) && final(self).sblock() == old(self).sblock(),
                Ok(ino) => r == Ok::<u32, VfsError>(ino)
                    && final(self).sblock() == (Superblock { free_inodes: (old(self).sblock().free_inodes - 1) as u32, ..old(self).sblock() }),
            },
    {
        if self.sb.free_inodes == 0 {
            return Err(VfsError::NoSpace);
        }
        let count = self.sb.inode_count;
        let mut ino: u32 = 1;
        while ino < count
            invariant
                count == self.sblock().inode_count,
                self.sblock() == old(self).sblock(),
                self.disk() == old(self).disk(),
                self.hint() == old(self).hint(),
                self.sblock().free_inodes != 0,
                1 <= ino,
                first_free_inode(self.disk(), self.sblock(), 1) == first_free_inode(self.disk(), self.sblock(), ino as int),
            decreases count - ino,
        {
            let di = match self.read_inode(ino) {
                Ok(i) => i,
                Err(e) => return Err(e),
            };
            if di.itype == ITYPE_FREE {
                self.sb.free_inodes = self.sb.free_inodes - 1;
                return Ok(ino);
            }
            ino = ino + 1;
        }
        Err(VfsError::NoSpace)
    }

    /// Write data block `block` (1-based): InvalidArgument for the
    /// sentinel 0, IoError off the device; nothing written then.
    fn write_data_block(&mut self, block: u32, data: &[u8; 512]) -> (r: VfsResult<()>)
        ensures
            final(self).sblock() == old(self).sblock(),
            final(self).hint() == old(self).hint(),
            block == 0 ==> r == Err::<(), VfsError>(VfsError::InvalidArgument) && final(self).disk() == old(self).disk(),
            block != 0 && !has_sector(old(self).disk(), data_sector(old(self).sblock(), block)) ==>
                r == Err::<(), VfsError>(VfsError::IoError) && final(self).disk() == old(self).disk(),
            block != 0 && has_sector(old(self).disk(), data_sector(old(self).sblock(), block)) ==>
                r is Ok && final(self).disk() == with_sector(old(self).disk(), data_sector(old(self).sblock(), block), data@),
    {
        if block == 0 {
            return Err(VfsError::InvalidArgument);
        }
        let s = self.sb.data_start as u64 + (block - 1) as u64;
        self.write_sector(s, data)
    }

    /// Set pointer `slot` of block `block` to `value`, keeping the rest of
    /// the block: InvalidArgument for the sentinel 0, IoError off the
    /// device.
    fn write_pointer(&mut self, block: u32, slot: usize, value: u32) -> (r: VfsResult<()>)
        requires
            slot < 128,
        ensures
            final(self).sblock() == old(self).sblock(),
            final(self).hint() == old(self).hint(),
            final(self).disk().len() == old(self).disk().len(),
            block == 0 ==> r == Err::<(), VfsError>(VfsError::InvalidArgument) && final(self).disk() == old(self).disk(),
            block != 0 && !has_sector(old(self).disk(), data_sector(old(self).sblock(), block)) ==>
                r == Err::<(), VfsError>(VfsError::IoError) && final(self).disk() == old(self).disk(),
            block != 0 && has_sector(old(self).disk(), data_sector(old(self).sblock(), block)) ==> {
                let p = 512 * data_sector(old(self).sblock(), block) + 4 * slot;
                &&& r is Ok
                &&& pointer_at(final(self).disk(), final(self).sblock(), block, slot as int) == Ok::<u32, VfsError>(value)
                &&& forall|j: int| 0 <= j < old(self).disk().len() && !(p <= j < p + 4) ==> #[trigger] final(self).disk()[j] == old(self).disk()[j]
            },
    {
        if block == 0 {
            return Err(VfsError::InvalidArgument);
        }
        let mut sector = [0u8; 512];
        match self.read_data_block(block, &mut sector) {
            Ok(()) => {}
            Err(e) => return Err(e),
        }
        let ghost d = self.disk();
        let ghost ds = data_sector(self.sblock(), block);
        let ghost s0 = sector@;
        crate::encoding::write_le32(&mut sector, slot * 4, value);
        let r = self.write_data_block(block, &sector);
        proof {
            let p = 512 * ds + 4 * slot;
            assert forall|j: int| 0 <= j < d.len() && !(p <= j < p + 4) implies #[trigger] self.disk()[j] == d[j] by {
                lemma_with_sector_index(d, ds, sector@, j);
                if 512 * ds <= j < 512 * ds + 512 {
                    assert(s0[j - 512 * ds] == d[j]);
                }
            }
            assert forall|j: int| 0 <= j < 512 implies #[trigger] sector_bytes(self.disk(), ds)[j] == sector@[j] by {
                lemma_with_sector_index(d, ds, sector@, 512 * ds + j);
            }
            assert(sector_bytes(self.disk(), ds) =~= sector@);
        }
        r
    }

    /// Allocate a data block and zero it (see [`alloc_outcome`]); IoError
    /// when the new block is off the device, in which case it stays
    /// allocated.
    fn alloc_zeroed_block(&mut self) -> (r: VfsResult<u32>)
        ensures
            same_layout(old(self).sblock(), final(self).sblock()),
            final(self).disk().len() == old(self).disk().len(),
            r matches Ok(b) ==> b != 0,
            r matches Err(e) ==> alloc_error(e),
            match alloc_outcome(old(self).disk(), old(self).sblock(), old(self).hint()) {
                Err(e) => r == Err::<u32, VfsError>(e) && same_state(*final(self), *old(self)),
                Ok(i) => {
                    let d1 = set_disk_bit(old(self).disk(), old(self).sblock(), i);
                    let ds = data_sector(old(self).sblock(), (i + 1) as u32);
                    &&& final(self).sblock() == (Superblock { free_blocks: (old(self).sblock().free_blocks - 1) as u32, ..old(self).sblock() })
                    &&& if has_sector(d1, ds) {
                        r == Ok::<u32, VfsError>((i + 1) as u32)
                            && final(self).disk() == with_sector(d1, ds, Seq::new(512, |j: int| 0u8))
                    } else {
                        r == Err::<u32, VfsError>(VfsError::IoError) && final(self).disk() == d1
                    }
                },
            },
    {
        proof { lemma_alloc_outcome_ok(old(self).disk(), old(self).sblock(), old(self).hint()); }
        let block = match self.alloc_block() {
            Ok(b) => b,
            Err(e) => {
                proof { lemma_alloc_outcome_error(old(self).disk(), old(self).sblock(), old(self).hint()); }
                return Err(e);
            }
        };
        let zero = [0u8; 512];
        assert(zero@ =~= Seq::new(512, |j: int| 0u8));
        let ghost d1 = self.disk();
        let w = self.write_data_block(block, &zero);
        proof {
            let ds = data_sector(self.sblock(), block);
            if has_sector(d1, ds) {
                assert(with_sector(d1, ds, zero@).len() == d1.len());
            }
        }
        match w {
            Ok(()) => Ok(block),
            Err(e) => Err(e),
        }
    }

    /// Allocating a zeroed block took volume `a` to `b` and gave `r`: the
    /// outcome of [`alloc_outcome`] on `a`; on success its bit is set, one
    /// block fewer is free, and the block (when on the device) reads as
    /// zeros; IoError for a block off the device, which stays allocated.
    #[verifier::opaque]
    pub closed spec fn zeroed_alloc(a: Racfs, b: Racfs, r: VfsResult<u32>) -> bool {
        match alloc_outcome(a.disk(), a.sblock(), a.hint()) {
            Err(e) => r == Err::<u32, VfsError>(e) && same_state(b, a),
            Ok(i) => {
                let d1 = set_disk_bit(a.disk(), a.sblock(), i);
                let ds = data_sector(a.sblock(), (i + 1) as u32);
                &&& b.sblock() == (Superblock { free_blocks: (a.sblock().free_blocks - 1) as u32, ..a.sblock() })
                &&& if has_sector(d1, ds) {
                    r == Ok::<u32, VfsError>((i + 1) as u32) && b.disk() == with_sector(d1, ds, Seq::new(512, |j: int| 0u8))
                } else {
                    r == Err::<u32, VfsError>(VfsError::IoError) && b.disk() == d1
                }
            },
        }
    }

    /// [`Racfs::alloc_zeroed_block`], with its outcome stated through
    /// [`Racfs::zeroed_alloc`] so that block mapping need not unfold it.
    fn alloc_fresh(&mut self) -> (r: VfsResult<u32>)
        ensures
            same_layout(old(self).sblock(), final(self).sblock()),
            final(self).disk().len() == old(self).disk().len(),
            r matches Ok(b) ==> b != 0,
            r matches Err(e) ==> alloc_error(e),
            Racfs::zeroed_alloc(*old(self), *final(self), r),
    {
        let r = self.alloc_zeroed_block();
        proof { reveal(Racfs::zeroed_alloc); }
        r
    }

    /// The data block behind logical block `idx` of `inode`, allocating it
    /// and every pointer block on the way (the caller writes the inode
    /// back). NoSpace past the largest file; a block already mapped is
    /// returned as is. Only the block map of `inode` changes.
    #[verifier::rlimit(60)]
    fn map_block_alloc(&mut self, inode: &mut DiskInode, idx: usize) -> (r: VfsResult<u32>)
        ensures
            same_layout(old(self).sblock(), final(self).sblock()),
            final(self).disk().len() == old(self).disk().len(),
            same_but_map(*old(inode), *final(inode)),
            idx >= 16520 ==> r == Err::<u32, VfsError>(VfsError::NoSpace) && same_state(*final(self), *old(self))
                && *final(inode) == *old(inode),
            idx < 8 && old(inode).direct@[idx as int] != 0 ==> r == Ok::<u32, VfsError>(old(inode).direct@[idx as int])
                && same_state(*final(self), *old(self)) && *final(inode) == *old(inode),
            idx < 8 ==> (r matches Ok(b) ==> final(inode).direct@[idx as int] == b),
            block_of(old(self).disk(), old(self).sblock(), *old(inode), idx as int) is Ok
                && mapped_block(old(self).disk(), old(self).sblock(), *old(inode), idx as int) != 0
                ==> r == Ok::<u32, VfsError>(mapped_block(old(self).disk(), old(self).sblock(), *old(inode), idx as int))
                && same_state(*final(self), *old(self)) && *final(inode) == *old(inode),
            r matches Ok(b) ==> b != 0,
            r matches Err(e) ==> alloc_error(e),
    {
        if idx >= 16520 {
            return Err(VfsError::NoSpace);
        }
        if idx < 8 {
            if inode.direct[idx] == 0 {
                let b = match self.alloc_fresh() {
                    Ok(b) => b,
                    Err(e) => return Err(e),
                };
                inode.direct[idx] = b;
            }
            return Ok(inode.direct[idx]);
        }
        let idx = idx - 8;
        if idx < 128 {
            if inode.indirect == 0 {
                let b = match self.alloc_fresh() {
                    Ok(b) => b,
                    Err(e) => return Err(e),
                };
                inode.indirect = b;
            }
            let existing = match self.read_pointer(inode.indirect, idx) {
                Ok(p) => p,
                Err(e) => return Err(e),
            };
            if existing != 0 {
                return Ok(existing);
            }
            let block = match self.alloc_fresh() {
                Ok(b) => b,
                Err(e) => return Err(e),
            };
            match self.write_pointer(inode.indirect, idx, block) {
                Ok(()) => {}
                Err(e) => return Err(e),
            }
            return Ok(block);
        }
        let idx = idx - 128;
        if inode.double_indirect == 0 {
            let b = match self.alloc_fresh() {
                Ok(b) => b,
                Err(e) => return Err(e),
            };
            inode.double_indirect = b;
        }
        let l1_slot = idx / 128;
        let mut l1 = match self.read_pointer(inode.double_indirect, l1_slot) {
            Ok(p) => p,
            Err(e) => return Err(e),
        };
        if l1 == 0 {
            l1 = match self.alloc_fresh() {
                Ok(b) => b,
                Err(e) => return Err(e),
            };
            match self.write_pointer(inode.double_indirect, l1_slot, l1) {
                Ok(()) => {}
                Err(e) => return Err(e),
            }
        }
        let slot = idx % 128;
        let existing = match self.read_pointer(l1, slot) {
            Ok(p) => p,
            Err(e) => return Err(e),
        };
        if existing != 0 {
            return Ok(existing);
        }
        let block = match self.alloc_fresh() {
            Ok(b) => b,
            Err(e) => return Err(e),
        };
        match self.write_pointer(l1, slot, block) {
            Ok(()) => {}
            Err(e) => return Err(e),
        }
        Ok(block)
    }

    /// Write `data` into file `ino` at `offset`, extending it as needed:
    /// the inode's error, IsADirectory for anything but a file, NoSpace
    /// when the end lies past the largest file (nothing changed in these
    /// cases); else every block up to the end is mapped (allocating from
    /// the old end of the file on), the bytes are written block by block,
    /// and the size grows to the end. The whole length is reported written.
    pub fn write_file(&mut self, ino: u32, offset: u64, data: &[u8]) -> (r: VfsResult<usize>)
        requires
            offset + data@.len() <= usize::MAX,
        ensures
            same_layout(old(self).sblock(), final(self).sblock()),
            final(self).disk().len() == old(self).disk().len(),
            match inode_at(old(self).disk(), old(self).sblock(), ino) {
                Err(e) => r == Err::<usize, VfsError>(e) && same_state(*final(self), *old(self)),
                Ok(i) => if i.itype != ITYPE_FILE {
                    r == Err::<usize, VfsError>(VfsError::IsADirectory) && same_state(*final(self), *old(self))
                } else if blocks_for(offset + data@.len()) > 16520 {
                    r == Err::<usize, VfsError>(VfsError::NoSpace) && same_state(*final(self), *old(self))
                } else {
                    &&& r matches Ok(n) ==> n == data@.len()
                        && grown_to(final(self).disk(), final(self).sblock(), ino, i, offset + data@.len())
                    &&& r matches Err(e) ==> alloc_error(e)
                    &&& overwrite_ok(old(self).disk(), old(self).sblock(), ino, i, offset as int, data@.len() as int)
                        ==> r == Ok::<usize, VfsError>(data@.len() as usize)
                    &&& (r is Ok && (direct_range_ok(final(self).disk().len() as int, final(self).sblock(), ino,
                            inode_at(final(self).disk(), final(self).sblock(), ino)->Ok_0, offset as int, data@.len() as int)
                            || overwrite_ok(old(self).disk(), old(self).sblock(), ino, i, offset as int, data@.len() as int)))
                        ==> range_mapped(final(self).disk(), final(self).sblock(),
                            inode_at(final(self).disk(), final(self).sblock(), ino)->Ok_0, offset as int, data@.len() as int)
                        && forall|j: int| 0 <= j < data@.len() ==> #[trigger] file_byte(final(self).disk(), final(self).sblock(),
                            inode_at(final(self).disk(), final(self).sblock(), ino)->Ok_0, offset + j) == data@[j]
                },
            },
    {
        let mut inode = match self.read_inode(ino) {
            Ok(i) => i,
            Err(e) => return Err(e),
        };
        if inode.itype != ITYPE_FILE {
            return Err(VfsError::IsADirectory);
        }
        let ghost i0 = inode;
        let ghost sb0 = self.sblock();
        let ghost len0 = self.disk().len();
        let end = offset as usize + data.len();
        let blocks_needed = end / 512 + if end % 512 != 0 { 1 } else { 0 };
        assert(blocks_needed == blocks_for(end as int));
        if blocks_needed > 16520 {
            return Err(VfsError::NoSpace);
        }
        assert(end <= 16520 * 512);
        let ghost d0 = self.disk();
        let ghost hyp2 = overwrite_ok(d0, sb0, ino, i0, offset as int, data@.len() as int);
        let already = inode.size as usize / 512;
        let mut b = already;
        while b < blocks_needed
            invariant
                d0 == old(self).disk(),
                hyp2 == overwrite_ok(d0, sb0, ino, i0, offset as int, data@.len() as int),
                already == i0.size / 512,
                already <= b,
                hyp2 ==> same_state(*self, *old(self)) && inode == i0,
                blocks_needed <= 16520,
                end == offset + data@.len(),
                blocks_needed == blocks_for(end as int),
                sb0 == old(self).sblock(),
                len0 == old(self).disk().len(),
                inode_at(old(self).disk(), old(self).sblock(), ino) == Ok::<DiskInode, VfsError>(i0),
                i0.itype == ITYPE_FILE,
                same_layout(sb0, self.sblock()),
                self.disk().len() == len0,
                same_but_map(i0, inode),
            decreases blocks_needed - b,
        {
            match self.map_block_alloc(&mut inode, b) {
                Ok(_) => {}
                Err(e) => return Err(e),
            }
            b = b + 1;
        }
        let mut done: usize = 0;
        let mut pos: usize = offset as usize;
        let ghost hyp = direct_range_ok(len0 as int, sb0, ino, inode, offset as int, data@.len() as int);
        let ghost i1 = inode;
        while done < data.len()
            invariant
                d0 == old(self).disk(),
                hyp2 == overwrite_ok(d0, sb0, ino, i0, offset as int, data@.len() as int),
                hyp2 ==> self.sblock() == sb0 && inode == i0,
                hyp2 ==> mapped_written(self.disk(), d0, sb0, i0, offset as int, data@, done as int),
                hyp2 ==> forall|k: int, s: int| offset / 512 <= k <= (offset + data@.len() - 1) / 512
                    && #[trigger] on_path(d0, sb0, i0, k, s) ==> same_sector(d0, self.disk(), s),
                hyp == direct_range_ok(len0 as int, sb0, ino, inode, offset as int, data@.len() as int),
                i1 == inode,
                done == 0 || done == data@.len() || pos % 512 == 0,
                hyp ==> direct_written(self.disk(), sb0, inode, offset as int, data@, done as int),
                sb0 == old(self).sblock(),
                len0 == old(self).disk().len(),
                inode_at(old(self).disk(), old(self).sblock(), ino) == Ok::<DiskInode, VfsError>(i0),
                i0.itype == ITYPE_FILE,
                end == offset + data@.len(),
                end <= 16520 * 512,
                blocks_for(end as int) <= 16520,
                same_layout(sb0, self.sblock()),
                self.disk().len() == len0,
                same_but_map(i0, inode),
                done <= data@.len(),
                pos == offset + done,
                offset + data@.len() <= usize::MAX,
            decreases data@.len() - done,
        {
            let block_idx = pos / 512;
            let block_off = pos % 512;
            proof {
                if hyp2 {
                    assert(offset / 512 <= block_idx <= (offset + data@.len() - 1) / 512) by (nonlinear_arith)
                        requires
                            block_idx == pos / 512,
                            pos == offset + done,
                            done < data@.len(),
                    ;
                    lemma_block_of_stable(d0, self.disk(), sb0, i0, block_idx as int);
                }
            }
            let block = match self.map_block(&inode, block_idx) {
                Ok(b) => b,
                Err(e) => {
                    proof { lemma_block_of_error(self.disk(), self.sblock(), inode, block_idx as int); }
                    return Err(e);
                }
            };
            let mut sector = [0u8; 512];
            match self.read_data_block(block, &mut sector) {
                Ok(()) => {}
                Err(e) => return Err(e),
            }
            let room = 512 - block_off;
            let chunk = if room < data.len() - done { room } else { data.len() - done };
            let ghost s0 = sector@;
            let mut k: usize = 0;
            while k < chunk
                invariant
                    chunk <= 512 - block_off,
                    block_off < 512,
                    done + chunk <= data@.len(),
                    done + chunk <= data.len(),
                    k <= chunk,
                    forall|m: int| 0 <= m < k ==> #[trigger] sector@[block_off + m] == data@[done + m],
                    forall|x: int| 0 <= x < 512 && !(block_off <= x < block_off + k) ==> #[trigger] sector@[x] == s0[x],
                decreases chunk - k,
            {
                sector[block_off + k] = data[done + k];
                k = k + 1;
            }
            let ghost dprev = self.disk();
            match self.write_data_block(block, &sector) {
                Ok(()) => {}
                Err(e) => return Err(e),
            }
            proof {
                if block != 0 && has_sector(dprev, data_sector(self.sblock(), block)) {
                    assert(with_sector(dprev, data_sector(self.sblock(), block), sector@).len() == dprev.len());
                }
                if hyp {
                    lemma_direct_chunk(dprev, self.disk(), sb0, ino, inode, offset as int, data@, done as int,
                        chunk as int, pos as int, sector@);
                }
                if hyp2 {
                    lemma_mapped_chunk(d0, dprev, self.disk(), sb0, ino, i0, offset as int, data@, done as int,
                        chunk as int, pos as int, sector@);
                }
            }
            proof {
                if chunk == room {
                    assert((pos + chunk) % 512 == 0) by (nonlinear_arith)
                        requires
                            chunk == 512 - pos % 512,
                    ;
                }
            }
            done = done + chunk;
            pos = pos + chunk;
        }
        assert(inode.direct == i1.direct);
        if end as u32 > inode.size {
            inode.size = end as u32;
        }
        let ghost dprev = self.disk();
        proof {
            assert(has_sector(dprev, inode_sector(self.sblock(), ino)));
        }
        match self.write_inode(ino, &inode) {
            Ok(()) => {}
            Err(e) => return Err(e),
        }
        proof {
            let p = 512 * inode_sector(self.sblock(), ino) + inode_offset(ino);
            lemma_inode_of(self.disk().subrange(p, p + 128), as_stored(inode));
            if direct_range_ok(self.disk().len() as int, self.sblock(), ino, as_stored(inode), offset as int, data@.len() as int) {
                assert(as_stored(inode).direct == i1.direct);
                lemma_direct_range_layout(self.disk().len() as int, self.sblock(), sb0, ino, as_stored(inode), i1,
                    offset as int, data@.len() as int);
                lemma_direct_after_inode_write(dprev, self.disk(), sb0, self.sblock(), ino, i1, as_stored(inode),
                    offset as int, data@);
                lemma_direct_range_mapped(self.disk(), self.sblock(), ino, as_stored(inode), offset as int, data@.len() as int);
            } else if hyp2 {
                lemma_overwrite_after_inode_write(d0, dprev, self.disk(), sb0, ino, i0, as_stored(inode),
                    offset as int, data@);
            }
        }
        Ok(data.len())
    }

    /// Write the in-memory superblock to sector 0.
    fn flush_sb(&mut self) -> (r: VfsResult<()>)
        ensures
            final(self).sblock() == old(self).sblock(),
            final(self).hint() == old(self).hint(),
            final(self).disk().len() == old(self).disk().len(),
            has_sector(old(self).disk(), 0) ==> r is Ok
                && superblock_of(sector_bytes(final(self).disk(), 0)) == old(self).sblock(),
            !has_sector(old(self).disk(), 0) ==> r == Err::<(), VfsError>(VfsError::IoError),
            forall|j: int| 512 <= j < old(self).disk().len() ==> #[trigger] final(self).disk()[j] == old(self).disk()[j],
    {
        let buf = superblock_to_sector(&self.sb);
        let ghost d = self.disk();
        let r = self.write_sector(0, &buf);
        proof {
            if has_sector(d, 0) {
                assert(sector_bytes(self.disk(), 0) =~= buf@);
                assert forall|j: int| 512 <= j < d.len() implies #[trigger] self.disk()[j] == d[j] by {
                    lemma_with_sector_index(d, 0, buf@, j);
                }
            }
        }
        r
    }

    /// Append an entry for `child_ino` named `name` (its first 56 bytes) to
    /// directory `dir_ino`, mapping a new block for it when the last one is
    /// full; the directory counts one entry more. The directory's error, or
    /// an allocation or device error, otherwise.
    fn dir_add_entry(&mut self, dir_ino: u32, child_ino: u32, name: &[u8]) -> (r: VfsResult<()>)
        ensures
            same_layout(old(self).sblock(), final(self).sblock()),
            final(self).disk().len() == old(self).disk().len(),
            match inode_at(old(self).disk(), old(self).sblock(), dir_ino) {
                Err(e) => r == Err::<(), VfsError>(e) && same_state(*final(self), *old(self)),
                Ok(i) => {
                    &&& r matches Err(e) ==> alloc_error(e)
                    &&& r is Ok ==> counts_one_more(final(self).disk(), final(self).sblock(), dir_ino, i)
                    &&& add_in_place(old(self).disk(), old(self).sblock(), dir_ino, i, dir_ino) && name@.len() <= 56 ==> {
                        let p = entry_pos(old(self).disk(), old(self).sblock(), i, i.dir_entry_count as int);
                        let q = 512 * inode_sector(old(self).sblock(), dir_ino) + inode_offset(dir_ino);
                        &&& r is Ok
                        &&& final(self).sblock() == old(self).sblock()
                        &&& entry_written(final(self).disk(), p, child_ino, name@)
                        &&& forall|x: int| 0 <= x < old(self).disk().len() && !(p <= x < p + 64) && !(q <= x < q + 128)
                            ==> #[trigger] final(self).disk()[x] == old(self).disk()[x]
                        &&& inode_at(final(self).disk(), final(self).sblock(), dir_ino)
                            == Ok::<DiskInode, VfsError>(as_stored(DiskInode { dir_entry_count: (i.dir_entry_count + 1) as u32, ..i }))
                    }
                },
            },
    {
        let ghost hyp = match inode_at(old(self).disk(), old(self).sblock(), dir_ino) {
            Ok(i) => add_in_place(old(self).disk(), old(self).sblock(), dir_ino, i, dir_ino) && name@.len() <= 56,
            Err(_) => false,
        };
        let mut dir = match self.read_inode(dir_ino) {
            Ok(i) => i,
            Err(e) => return Err(e),
        };
        let ghost i0 = dir;
        let idx = dir.dir_entry_count;
        let block_idx = idx as usize / 8;
        let entry = idx as usize % 8;
        let block = match self.map_block_alloc(&mut dir, block_idx) {
            Ok(b) => b,
            Err(e) => return Err(e),
        };
        assert(block_idx < 16520);
        let copy_len: usize = if name.len() < 56 { name.len() } else { 56 };
        let mut nm = [0u8; 56];
        let mut k: usize = 0;
        while k < copy_len
            invariant
                copy_len <= 56,
                copy_len <= name@.len(),
                k <= copy_len,
                forall|t: int| 0 <= t < k ==> #[trigger] nm@[t] == name@[t],
            decreases copy_len - k,
        {
            nm[k] = name[k];
            k = k + 1;
        }
        let de = DiskDirEntry { ino: child_ino, name_len: copy_len as u8, name: nm };
        let mut sector = [0u8; 512];
        match self.read_data_block(block, &mut sector) {
            Ok(()) => {}
            Err(e) => return Err(e),
        }
        let off = entry * 64;
        let bytes = direntry_to_bytes(&de);
        let ghost s0 = sector@;
        let mut m: usize = 0;
        while m < 64
            invariant
                off + 64 <= 512,
                m <= 64,
                forall|t: int| 0 <= t < m ==> #[trigger] sector@[off + t] == bytes@[t],
                forall|t: int| 0 <= t < 512 && !(off <= t < off + m) ==> #[trigger] sector@[t] == s0[t],
            decreases 64 - m,
        {
            sector[off + m] = bytes[m];
            m = m + 1;
        }
        let ghost dprev = self.disk();
        match self.write_data_block(block, &sector) {
            Ok(()) => {}
            Err(e) => return Err(e),
        }
        proof {
            if block != 0 && has_sector(dprev, data_sector(self.sblock(), block)) {
                assert(with_sector(dprev, data_sector(self.sblock(), block), sector@).len() == dprev.len());
            }
        }
        let ghost d2 = self.disk();
        dir.dir_entry_count = dir.dir_entry_count + 1;
        assert(has_sector(self.disk(), inode_sector(self.sblock(), dir_ino)));
        match self.write_inode(dir_ino, &dir) {
            Ok(()) => {}
            Err(e) => return Err(e),
        }
        proof {
            let p = 512 * inode_sector(self.sblock(), dir_ino) + inode_offset(dir_ino);
            lemma_inode_of(self.disk().subrange(p, p + 128), as_stored(dir));
            if hyp {
                lemma_add_in_place_result(dprev, d2, self.disk(), self.sblock(), dir_ino, i0, dir, child_ino, name@,
                    block, off as int, s0, sector@, bytes@, de);
            }
        }
        Ok(())
    }

    /// Create an entry `name` of type `itype` and mode `mode` in directory
    /// `parent_ino` (see [`create_checks`] for when it is refused before
    /// anything changes). On success the new inode is the first free one
    /// and one inode fewer is free.
    fn create_entry(&mut self, parent_ino: u32, name: &str, itype: u8, mode: u16) -> (r: VfsResult<u32>)
        ensures
            same_layout(old(self).sblock(), final(self).sblock()),
            final(self).disk().len() == old(self).disk().len(),
            match create_checks(old(self).disk(), old(self).sblock(), parent_ino, encode_utf8(name@)) {
                Err(e) => r == Err::<u32, VfsError>(e) && same_state(*final(self), *old(self)),
                Ok(new_ino) => {
                    &&& r matches Ok(n) ==> n == new_ino
                    &&& r matches Err(e) ==> alloc_error(e)
                    &&& r is Ok && inode_sector(old(self).sblock(), parent_ino) != 0 ==> counts_one_more(final(self).disk(),
                        final(self).sblock(), parent_ino, inode_at(old(self).disk(), old(self).sblock(), parent_ino)->Ok_0)
                    &&& add_in_place(old(self).disk(), old(self).sblock(), parent_ino,
                        inode_at(old(self).disk(), old(self).sblock(), parent_ino)->Ok_0, new_ino) ==> {
                        &&& r == Ok::<u32, VfsError>(new_ino)
                        &&& dir_find(final(self).disk(), final(self).sblock(),
                            inode_at(final(self).disk(), final(self).sblock(), parent_ino)->Ok_0, encode_utf8(name@), 0)
                            == Ok::<Option<u32>, VfsError>(Some(new_ino))
                    }
                },
            },
    {
        let nb = name.as_bytes();
        if nb.len() > 56 {
            return Err(VfsError::InvalidArgument);
        }
        let parent = match self.read_inode(parent_ino) {
            Ok(i) => i,
            Err(e) => return Err(e),
        };
        if parent.itype != ITYPE_DIR {
            return Err(VfsError::NotADirectory);
        }
        match self.dir_lookup(&parent, nb) {
            Err(e) => return Err(e),
            Ok(Some(_)) => return Err(VfsError::AlreadyExists),
            Ok(None) => {}
        }
        let new_ino = match self.alloc_inode() {
            Ok(n) => n,
            Err(e) => return Err(e),
        };
        let fresh = DiskInode {
            itype,
            mode,
            size: 0,
            nlink: if itype == ITYPE_DIR { 2 } else { 1 },
            uid: 0,
            gid: 0,
            direct: [0u32; 8],
            dir_entry_count: 0,
            indirect: 0,
            double_indirect: 0,
        };
        proof { lemma_first_free_inode_range(old(self).disk(), old(self).sblock(), 1); }
        let ghost dpre = self.disk();
        let ghost hyp = add_in_place(old(self).disk(), old(self).sblock(), parent_ino, parent, new_ino);
        match self.write_inode(new_ino, &fresh) {
            Ok(()) => {}
            Err(e) => return Err(e),
        }
        let ghost d1 = self.disk();
        proof {
            assert(new_ino != parent_ino);
            lemma_write_then_read_inode(dpre, self.disk(), self.sblock(), new_ino, fresh, parent_ino);
            if hyp {
                assert(dpre == old(self).disk());
                lemma_add_in_place_kept(dpre, d1, old(self).sblock(), parent_ino, new_ino, parent, nb@);
                lemma_add_in_place_sb(d1, old(self).sblock(), self.sblock(), parent_ino, parent, nb@);
            }
        }
        match self.dir_add_entry(parent_ino, new_ino, nb) {
            Ok(()) => {}
            Err(e) => {
                proof { lemma_inode_pos_error(old(self).disk(), old(self).sblock(), parent_ino); }
                return Err(e);
            }
        }
        let ghost dw = self.disk();
        proof {
            if hyp {
                let bs = data_sector(self.sblock(), mapped_block(d1, self.sblock(), parent, parent.dir_entry_count as int / 8));
                assert(fits(d1.len() as int, bs));
                assert(has_sector(dw, 0));
            }
        }
        match self.flush_sb() {
            Ok(()) => {}
            Err(e) => return Err(e),
        }
        proof {
            if inode_sector(self.sblock(), parent_ino) != 0 {
                lemma_inode_at_kept(dw, self.disk(), self.sblock(), parent_ino);
            }
            if hyp {
                let j = inode_at(self.disk(), self.sblock(), parent_ino)->Ok_0;
                lemma_add_then_find(d1, dw, dw, self.disk(), self.sblock(), parent_ino, parent_ino, parent, j, new_ino, nb@);
            }
        }
        Ok(new_ino)
    }

    /// Create a regular file (mode 0644) in a directory; see
    /// [`Racfs::create_entry`].
    pub fn create_file(&mut self, parent_ino: u32, name: &str) -> (r: VfsResult<u32>)
        ensures
            same_layout(old(self).sblock(), final(self).sblock()),
            final(self).disk().len() == old(self).disk().len(),
            match create_checks(old(self).disk(), old(self).sblock(), parent_ino, encode_utf8(name@)) {
                Err(e) => r == Err::<u32, VfsError>(e) && same_state(*final(self), *old(self)),
                Ok(new_ino) => {
                    &&& r matches Ok(n) ==> n == new_ino
                    &&& r matches Err(e) ==> alloc_error(e)
                    &&& r is Ok && inode_sector(old(self).sblock(), parent_ino) != 0 ==> counts_one_more(final(self).disk(),
                        final(self).sblock(), parent_ino, inode_at(old(self).disk(), old(self).sblock(), parent_ino)->Ok_0)
                    &&& add_in_place(old(self).disk(), old(self).sblock(), parent_ino,
                        inode_at(old(self).disk(), old(self).sblock(), parent_ino)->Ok_0, new_ino) ==> {
                        &&& r == Ok::<u32, VfsError>(new_ino)
                        &&& dir_find(final(self).disk(), final(self).sblock(),
                            inode_at(final(self).disk(), final(self).sblock(), parent_ino)->Ok_0, encode_utf8(name@), 0)
                            == Ok::<Option<u32>, VfsError>(Some(new_ino))
                    }
                },
            },
    {
        self.create_entry(parent_ino, name, ITYPE_FILE, 0o644)
    }

    /// Create a subdirectory (mode 0755) in a directory; see
    /// [`Racfs::create_entry`].
    pub fn create_dir(&mut self, parent_ino: u32, name: &str) -> (r: VfsResult<u32>)
        ensures
            same_layout(old(self).sblock(), final(self).sblock()),
            final(self).disk().len() == old(self).disk().len(),
            match create_checks(old(self).disk(), old(self).sblock(), parent_ino, encode_utf8(name@)) {
                Err(e) => r == Err::<u32, VfsError>(e) && same_state(*final(self), *old(self)),
                Ok(new_ino) => {
                    &&& r matches Ok(n) ==> n == new_ino
                    &&& r matches Err(e) ==> alloc_error(e)
                    &&& r is Ok && inode_sector(old(self).sblock(), parent_ino) != 0 ==> counts_one_more(final(self).disk(),
                        final(self).sblock(), parent_ino, inode_at(old(self).disk(), old(self).sblock(), parent_ino)->Ok_0)
                    &&& add_in_place(old(self).disk(), old(self).sblock(), parent_ino,
                        inode_at(old(self).disk(), old(self).sblock(), parent_ino)->Ok_0, new_ino) ==> {
                        &&& r == Ok::<u32, VfsError>(new_ino)
                        &&& dir_find(final(self).disk(), final(self).sblock(),
                            inode_at(final(self).disk(), final(self).sblock(), parent_ino)->Ok_0, encode_utf8(name@), 0)
                            == Ok::<Option<u32>, VfsError>(Some(new_ino))
                    }
                },
            },
    {
        self.create_entry(parent_ino, name, ITYPE_DIR, 0o755)
    }

    /// Add `name` in directory `parent_ino` as another name of file
    /// `target_ino` (see [`link_checks`] for when it is refused before
    /// anything changes); the file counts one link more.
    pub fn link(&mut self, parent_ino: u32, name: &str, target_ino: u32) -> (r: VfsResult<()>)
        ensures
            same_layout(old(self).sblock(), final(self).sblock()),
            final(self).disk().len() == old(self).disk().len(),
            match link_checks(old(self).disk(), old(self).sblock(), parent_ino, encode_utf8(name@), target_ino) {
                Err(e) => r == Err::<(), VfsError>(e) && same_state(*final(self), *old(self)),
                Ok(_) => {
                    &&& r matches Err(e) ==> alloc_error(e)
                    &&& r is Ok && inode_sector(old(self).sblock(), parent_ino) != 0 ==> counts_one_more(final(self).disk(),
                        final(self).sblock(), parent_ino, inode_at(old(self).disk(), old(self).sblock(), parent_ino)->Ok_0)
                    &&& add_in_place(old(self).disk(), old(self).sblock(), parent_ino,
                        inode_at(old(self).disk(), old(self).sblock(), parent_ino)->Ok_0, target_ino) ==> {
                        &&& r is Ok
                        &&& dir_find(final(self).disk(), final(self).sblock(),
                            inode_at(final(self).disk(), final(self).sblock(), parent_ino)->Ok_0, encode_utf8(name@), 0)
                            == Ok::<Option<u32>, VfsError>(Some(target_ino))
                    }
                    &&& r is Ok && inode_sector(old(self).sblock(), target_ino) != 0 ==>
                        inode_at(final(self).disk(), final(self).sblock(), target_ino) == Ok::<DiskInode, VfsError>(as_stored(
                            with_nlink(inode_at(old(self).disk(), old(self).sblock(), target_ino)->Ok_0,
                                inode_at(old(self).disk(), old(self).sblock(), target_ino)->Ok_0.nlink + 1)))
                },
            },
    {
        let nb = name.as_bytes();
        if nb.len() == 0 || nb.len() > 56 {
            return Err(VfsError::InvalidArgument);
        }
        let parent = match self.read_inode(parent_ino) {
            Ok(i) => i,
            Err(e) => return Err(e),
        };
        if parent.itype != ITYPE_DIR {
            return Err(VfsError::NotADirectory);
        }
        match self.dir_lookup(&parent, nb) {
            Err(e) => return Err(e),
            Ok(Some(_)) => return Err(VfsError::AlreadyExists),
            Ok(None) => {}
        }
        let mut target = match self.read_inode(target_ino) {
            Ok(i) => i,
            Err(e) => return Err(e),
        };
        if target.itype == ITYPE_DIR {
            return Err(VfsError::IsADirectory);
        }
        if target.nlink == u16::MAX {
            return Err(VfsError::InvalidArgument);
        }
        let ghost d0 = self.disk();
        let ghost hyp = add_in_place(d0, self.sblock(), parent_ino, parent, target_ino);
        match self.dir_add_entry(parent_ino, target_ino, nb) {
            Ok(()) => {}
            Err(e) => return Err(e),
        }
        let ghost d1 = self.disk();
        let ghost t0 = target;
        target.nlink = target.nlink + 1;
        let ghost dmid = self.disk();
        match self.write_inode(target_ino, &target) {
            Ok(()) => {}
            Err(e) => return Err(e),
        }
        let ghost dw = self.disk();
        proof {
            assert(target == with_nlink(t0, t0.nlink + 1));
            lemma_write_then_read_inode(dmid, dw, self.sblock(), target_ino, target, if target_ino == 0 { 1u32 } else { 0u32 });
            lemma_write_then_read_inode(dmid, dw, self.sblock(), target_ino, target, parent_ino);
        }
        match self.flush_sb() {
            Ok(()) => {}
            Err(e) => return Err(e),
        }
        proof {
            if inode_sector(self.sblock(), target_ino) != 0 {
                lemma_inode_at_kept(dw, self.disk(), self.sblock(), target_ino);
            }
            if inode_sector(self.sblock(), parent_ino) != 0 {
                lemma_inode_at_kept(dw, self.disk(), self.sblock(), parent_ino);
            }
            if hyp {
                let j = inode_at(self.disk(), self.sblock(), parent_ino)->Ok_0;
                lemma_add_then_find(d0, d1, dw, self.disk(), self.sblock(), parent_ino, target_ino, parent, j,
                    target_ino, nb@);
            }
        }
        Ok(())
    }

    /// Remove the first entry named `name` from directory `dir_ino`, moving
    /// the last entry into its slot; the directory counts one entry less.
    /// The directory's error, an unreadable entry's error, or NotFound,
    /// with nothing changed; a device error otherwise.
    fn dir_remove_entry(&mut self, dir_ino: u32, name: &[u8]) -> (r: VfsResult<()>)
        ensures
            final(self).sblock() == old(self).sblock(),
            final(self).disk().len() == old(self).disk().len(),
            final(self).hint() == old(self).hint(),
            match inode_at(old(self).disk(), old(self).sblock(), dir_ino) {
                Err(e) => r == Err::<(), VfsError>(e) && same_state(*final(self), *old(self)),
                Ok(i) => match dir_find(old(self).disk(), old(self).sblock(), i, name@, 0) {
                    Err(e) => r == Err::<(), VfsError>(e) && same_state(*final(self), *old(self)),
                    Ok(None) => r == Err::<(), VfsError>(VfsError::NotFound) && same_state(*final(self), *old(self)),
                    Ok(Some(_)) => r matches Err(e) ==> alloc_error(e),
                },
            },
    {
        let mut dir = match self.read_inode(dir_ino) {
            Ok(i) => i,
            Err(e) => return Err(e),
        };
        let count = dir.dir_entry_count;
        let mut found: u32 = 0;
        let mut k: u32 = 0;
        let mut hit = false;
        while k < count
            invariant_except_break
                !hit,
            invariant
                count == dir.dir_entry_count,
                k <= count,
                inode_at(self.disk(), self.sblock(), dir_ino) == Ok::<DiskInode, VfsError>(dir),
                self.disk() == old(self).disk(),
                self.sblock() == old(self).sblock(),
                self.hint() == old(self).hint(),
                dir_find(self.disk(), self.sblock(), dir, name@, 0) == dir_find(self.disk(), self.sblock(), dir, name@, k as int),
            ensures
                hit ==> found < count && dir_find(self.disk(), self.sblock(), dir, name@, 0) is Ok
                    && dir_find(self.disk(), self.sblock(), dir, name@, 0)->Ok_0 is Some,
                !hit ==> dir_find(self.disk(), self.sblock(), dir, name@, 0) == Ok::<Option<u32>, VfsError>(None),
                self.disk() == old(self).disk(),
                self.sblock() == old(self).sblock(),
                self.hint() == old(self).hint(),
                inode_at(self.disk(), self.sblock(), dir_ino) == Ok::<DiskInode, VfsError>(dir),
            decreases count - k,
        {
            let de = match self.read_direntry(&dir, k) {
                Ok(de) => de,
                Err(e) => return Err(e),
            };
            let n = slice_range(de.name.as_slice(), 0, de.name_len as usize);
            let ghost e = direntry_at(self.disk(), self.sblock(), dir, k as int)->Ok_0;
            assert(n@ =~= entry_name(e));
            if bytes_eq(n, name) {
                found = k;
                hit = true;
                break;
            }
            k = k + 1;
        }
        if !hit {
            return Err(VfsError::NotFound);
        }
        if found < count - 1 {
            let last = match self.read_direntry(&dir, count - 1) {
                Ok(de) => de,
                Err(e) => return Err(e),
            };
            let block = match self.map_block(&dir, found as usize / 8) {
                Ok(b) => b,
                Err(e) => {
                    proof { lemma_block_of_error(self.disk(), self.sblock(), dir, found as int / 8); }
                    return Err(e);
                }
            };
            let mut sector = [0u8; 512];
            match self.read_data_block(block, &mut sector) {
                Ok(()) => {}
                Err(e) => return Err(e),
            }
            let off = (found as usize % 8) * 64;
            let bytes = direntry_to_bytes(&last);
            let mut m: usize = 0;
            while m < 64
                invariant
                    off + 64 <= 512,
                    m <= 64,
                decreases 64 - m,
            {
                sector[off + m] = bytes[m];
                m = m + 1;
            }
            let ghost dprev = self.disk();
            match self.write_data_block(block, &sector) {
                Ok(()) => {}
                Err(e) => return Err(e),
            }
            proof {
                if block != 0 && has_sector(dprev, data_sector(self.sblock(), block)) {
                    assert(with_sector(dprev, data_sector(self.sblock(), block), sector@).len() == dprev.len());
                }
            }
        }
        dir.dir_entry_count = count - 1;
        assert(has_sector(self.disk(), inode_sector(self.sblock(), dir_ino)));
        self.write_inode(dir_ino, &dir)
    }

    /// Free every block an indirect block points at, then the block itself;
    /// blocks that cannot be freed (unreadable pointers, blocks the bitmap
    /// cannot describe) are skipped.
    fn free_pointer_block(&mut self, block: u32)
        requires
            old(self).sblock().free_blocks + 129 <= u32::MAX,
        ensures
            same_layout(old(self).sblock(), final(self).sblock()),
            final(self).disk().len() == old(self).disk().len(),
            old(self).sblock().free_blocks <= final(self).sblock().free_blocks <= old(self).sblock().free_blocks + 129,
            final(self).sblock().free_inodes == old(self).sblock().free_inodes,
            (final(self).disk(), final(self).sblock(), final(self).hint()) == free_step(
                free_slots((old(self).disk(), old(self).sblock(), old(self).hint()), block, 128), block),
    {
        let ghost sb0 = self.sblock();
        let ghost len0 = self.disk().len();
        let ghost st0 = (self.disk(), self.sblock(), self.hint());
        let mut slot: usize = 0;
        while slot < 128
            invariant
                st0 == (old(self).disk(), old(self).sblock(), old(self).hint()),
                (self.disk(), self.sblock(), self.hint()) == free_slots(st0, block, slot as nat),
                sb0 == old(self).sblock(),
                len0 == old(self).disk().len(),
                slot <= 128,
                same_layout(sb0, self.sblock()),
                self.disk().len() == len0,
                sb0.free_blocks <= self.sblock().free_blocks <= sb0.free_blocks + slot,
                sb0.free_blocks + 129 <= u32::MAX,
                self.sblock().free_inodes == sb0.free_inodes,
            decreases 128 - slot,
        {
            match self.read_pointer(block, slot) {
                Ok(p) => {
                    let ghost before = self.disk();
                    let _ = self.free_block(p);
                    proof { lemma_clear_bit_len(before, self.sblock(), p); }
                }
                Err(_) => {}
            }
            slot = slot + 1;
        }
        let ghost before = self.disk();
        let _ = self.free_block(block);
        proof { lemma_clear_bit_len(before, self.sblock(), block); }
    }

    /// Free every block `inode` owns (data blocks and pointer blocks) and
    /// clear its block map; blocks that cannot be freed are skipped.
    fn free_block_map(&mut self, inode: &mut DiskInode)
        requires
            old(self).sblock().free_blocks + 16650 <= u32::MAX,
        ensures
            same_layout(old(self).sblock(), final(self).sblock()),
            final(self).disk().len() == old(self).disk().len(),
            old(self).sblock().free_blocks <= final(self).sblock().free_blocks <= old(self).sblock().free_blocks + 16650,
            final(self).sblock().free_inodes == old(self).sblock().free_inodes,
            same_but_map(*old(inode), *final(inode)),
            forall|k: int| 0 <= k < 8 ==> #[trigger] final(inode).direct@[k] == 0,
            final(inode).indirect == 0,
            final(inode).double_indirect == 0,
    {
        let ghost sb0 = self.sblock();
        let ghost len0 = self.disk().len();
        let ghost i0 = *inode;
        let mut k: usize = 0;
        while k < 8
            invariant
                sb0 == old(self).sblock(),
                len0 == old(self).disk().len(),
                i0 == *old(inode),
                k <= 8,
                same_layout(sb0, self.sblock()),
                self.disk().len() == len0,
                sb0.free_blocks <= self.sblock().free_blocks <= sb0.free_blocks + k,
                sb0.free_blocks + 16650 <= u32::MAX,
                self.sblock().free_inodes == sb0.free_inodes,
                same_but_map(i0, *inode),
                inode.indirect == i0.indirect,
                inode.double_indirect == i0.double_indirect,
                forall|j: int| 0 <= j < k ==> #[trigger] inode.direct@[j] == 0,
            decreases 8 - k,
        {
            let ghost before = self.disk();
            let _ = self.free_block(inode.direct[k]);
            proof { lemma_clear_bit_len(before, self.sblock(), inode.direct@[k as int]); }
            inode.direct[k] = 0;
            k = k + 1;
        }
        if inode.indirect != 0 {
            self.free_pointer_block(inode.indirect);
            inode.indirect = 0;
        }
        if inode.double_indirect != 0 {
            let ghost fb1 = self.sblock().free_blocks;
            let mut slot: usize = 0;
            while slot < 128
                invariant
                    sb0 == old(self).sblock(),
                    len0 == old(self).disk().len(),
                    slot <= 128,
                    same_layout(sb0, self.sblock()),
                    self.disk().len() == len0,
                    sb0.free_blocks <= fb1 <= sb0.free_blocks + 137,
                    fb1 <= self.sblock().free_blocks <= fb1 + 129 * slot,
                    sb0.free_blocks + 16650 <= u32::MAX,
                    self.sblock().free_inodes == sb0.free_inodes,
                decreases 128 - slot,
            {
                match self.read_pointer(inode.double_indirect, slot) {
                    Ok(l1) => {
                        if l1 != 0 {
                            self.free_pointer_block(l1);
                        }
                    }
                    Err(_) => {}
                }
                slot = slot + 1;
            }
            let ghost before = self.disk();
            let _ = self.free_block(inode.double_indirect);
            proof { lemma_clear_bit_len(before, self.sblock(), inode.double_indirect); }
            inode.double_indirect = 0;
        }
    }

    /// Mark inode `ino` free: its blocks are freed, its record rewritten as
    /// a free inode, and one inode more is free. The inode's error (nothing
    /// changed), or IoError.
    fn free_inode(&mut self, ino: u32) -> (r: VfsResult<()>)
        requires
            old(self).sblock().free_blocks + 16650 <= u32::MAX,
            old(self).sblock().free_inodes < u32::MAX,
        ensures
            same_layout(old(self).sblock(), final(self).sblock()),
            final(self).disk().len() == old(self).disk().len(),
            match inode_at(old(self).disk(), old(self).sblock(), ino) {
                Err(e) => r == Err::<(), VfsError>(e) && same_state(*final(self), *old(self)),
                Ok(_) => r is Ok && final(self).sblock().free_inodes == old(self).sblock().free_inodes + 1
                    && freed_at(final(self).disk(), final(self).sblock(), ino),
            },
    {
        let mut di = match self.read_inode(ino) {
            Ok(i) => i,
            Err(e) => return Err(e),
        };
        di.itype = ITYPE_FREE;
        di.size = 0;
        di.dir_entry_count = 0;
        self.free_block_map(&mut di);
        assert(has_sector(self.disk(), inode_sector(self.sblock(), ino)));
        match self.write_inode(ino, &di) {
            Ok(()) => {}
            Err(e) => return Err(e),
        }
        proof {
            let p = 512 * inode_sector(self.sblock(), ino) + inode_offset(ino);
            lemma_inode_of(self.disk().subrange(p, p + 128), as_stored(di));
        }
        self.sb.free_inodes = self.sb.free_inodes + 1;
        Ok(())
    }

    /// Remove `name` from directory `parent_ino` (see [`unlink_checks`] for
    /// when it is refused before anything changes). A directory, or a file
    /// whose last name this was, is freed; a file with more names counts
    /// one link less.
    pub fn unlink(&mut self, parent_ino: u32, name: &str) -> (r: VfsResult<()>)
        requires
            old(self).sblock().free_blocks + 16650 <= u32::MAX,
            old(self).sblock().free_inodes < u32::MAX,
        ensures
            same_layout(old(self).sblock(), final(self).sblock()),
            final(self).disk().len() == old(self).disk().len(),
            match unlink_checks(old(self).disk(), old(self).sblock(), parent_ino, encode_utf8(name@)) {
                Err(e) => r == Err::<(), VfsError>(e) && same_state(*final(self), *old(self)),
                Ok(c) => {
                    let ci = inode_at(old(self).disk(), old(self).sblock(), c)->Ok_0;
                    &&& r matches Err(e) ==> alloc_error(e)
                    &&& r is Ok && inode_sector(old(self).sblock(), c) != 0 ==> if ci.itype == ITYPE_DIR || ci.nlink <= 1 {
                        freed_at(final(self).disk(), final(self).sblock(), c)
                    } else {
                        inode_at(final(self).disk(), final(self).sblock(), c)
                            == Ok::<DiskInode, VfsError>(as_stored(with_nlink(ci, ci.nlink - 1)))
                    }
                },
            },
    {
        let nb = name.as_bytes();
        let parent = match self.read_inode(parent_ino) {
            Ok(i) => i,
            Err(e) => return Err(e),
        };
        if parent.itype != ITYPE_DIR {
            return Err(VfsError::NotADirectory);
        }
        let child_ino = match self.dir_lookup(&parent, nb) {
            Err(e) => return Err(e),
            Ok(None) => return Err(VfsError::NotFound),
            Ok(Some(c)) => c,
        };
        let mut child = match self.read_inode(child_ino) {
            Ok(i) => i,
            Err(e) => return Err(e),
        };
        if child.itype == ITYPE_DIR && child.dir_entry_count > 0 {
            return Err(VfsError::InvalidArgument);
        }
        let ghost dpre = self.disk();
        match self.dir_remove_entry(parent_ino, nb) {
            Ok(()) => {}
            Err(e) => return Err(e),
        }
        if child.itype == ITYPE_DIR || child.nlink <= 1 {
            match self.free_inode(child_ino) {
                Ok(()) => {}
                Err(e) => {
                    proof { lemma_inode_pos_error(self.disk(), self.sblock(), child_ino); }
                    return Err(e);
                }
            }
        } else {
            let ghost c0 = child;
            child.nlink = child.nlink - 1;
            let ghost dmid = self.disk();
            match self.write_inode(child_ino, &child) {
                Ok(()) => {}
                Err(e) => return Err(e),
            }
            proof {
                assert(child == with_nlink(c0, c0.nlink - 1));
                lemma_write_then_read_inode(dmid, self.disk(), self.sblock(), child_ino, child,
                    if child_ino == 0 { 1u32 } else { 0u32 });
            }
        }
        let ghost dw = self.disk();
        match self.flush_sb() {
            Ok(()) => {}
            Err(e) => return Err(e),
        }
        proof {
            if inode_sector(self.sblock(), child_ino) != 0 {
                lemma_inode_at_kept(dw, self.disk(), self.sblock(), child_ino);
            }
        }
        Ok(())
    }

    /// Create the directory `path` and any missing parents, from the root;
    /// existing directories on the way are reused, and a file in the way is
    /// NotADirectory. Returns the last directory's inode. Up to the first
    /// missing directory the walk is [`existing_prefix`], with nothing
    /// changed: its error, or the directory reached when all exist; the
    /// first missing one is created as `create_dir` would, and when it is
    /// the last, its inode is returned.
    pub fn ensure_dir_path(&mut self, path: &str) -> (r: VfsResult<u32>)
        ensures
            same_layout(old(self).sblock(), final(self).sblock()),
            final(self).disk().len() == old(self).disk().len(),
            components(path@, true).len() == 0 ==> r == Ok::<u32, VfsError>(0) && same_state(*final(self), *old(self)),
            match existing_prefix(old(self).disk(), old(self).sblock(), 0, components(path@, true)) {
                Err(e) => r == Err::<u32, VfsError>(e) && same_state(*final(self), *old(self)),
                Ok((c, n)) => if n >= components(path@, true).len() {
                    r == Ok::<u32, VfsError>(c) && same_state(*final(self), *old(self))
                } else {
                    match create_checks(old(self).disk(), old(self).sblock(), c, encode_utf8(components(path@, true)[n as int])) {
                        Err(e) => r == Err::<u32, VfsError>(e) && same_state(*final(self), *old(self)),
                        Ok(new_ino) => n + 1 == components(path@, true).len() ==> {
                            &&& r matches Ok(x) ==> x == new_ino
                            &&& r matches Err(e) ==> alloc_error(e)
                        },
                    }
                },
            },
    {
        let comps = split_components(path, true);
        let ghost cs = components(path@, true);
        let ghost sb0 = self.sblock();
        let ghost len0 = self.disk().len();
        let ghost d0 = self.disk();
        let ghost mut created = false;
        let ghost mut cn: nat = 0;
        let ghost mut cc: u32 = 0;
        let ghost mut cnew: u32 = 0;
        let mut cur: u32 = 0;
        let mut i: usize = 0;
        assert(cs.subrange(0, cs.len() as int) =~= cs);
        while i < comps.len()
            invariant
                sb0 == old(self).sblock(),
                len0 == old(self).disk().len(),
                d0 == old(self).disk(),
                same_layout(sb0, self.sblock()),
                self.disk().len() == len0,
                i <= comps@.len(),
                cs == components(path@, true),
                comps@.len() == cs.len(),
                forall|j: int| 0 <= j < comps@.len() ==> #[trigger] comps@[j]@ == cs[j],
                i == 0 ==> cur == 0 && same_state(*self, *old(self)),
                !created ==> same_state(*self, *old(self))
                    && shifted(existing_prefix(d0, sb0, cur, cs.subrange(i as int, cs.len() as int)), i as nat)
                        == existing_prefix(d0, sb0, 0, cs),
                created ==> {
                    &&& existing_prefix(d0, sb0, 0, cs) == Ok::<(u32, nat), VfsError>((cc, cn))
                    &&& cn < cs.len()
                    &&& create_checks(d0, sb0, cc, encode_utf8(cs[cn as int])) == Ok::<u32, VfsError>(cnew)
                    &&& cn < i
                    &&& i == cn + 1 ==> cur == cnew
                },
            decreases comps@.len() - i,
        {
            let ghost rest = cs.subrange(i as int, cs.len() as int);
            proof {
                assert(rest[0] == cs[i as int]);
                assert(rest.drop_first() =~= cs.subrange(i + 1, cs.len() as int));
            }
            let parent = match self.read_inode(cur) {
                Ok(p) => p,
                Err(e) => return Err(e),
            };
            if parent.itype != ITYPE_DIR {
                return Err(VfsError::NotADirectory);
            }
            let name = comps[i].as_str();
            cur = match self.dir_lookup(&parent, name.as_bytes()) {
                Err(e) => return Err(e),
                Ok(Some(ino)) => {
                    let child = match self.read_inode(ino) {
                        Ok(c) => c,
                        Err(e) => return Err(e),
                    };
                    if child.itype != ITYPE_DIR {
                        return Err(VfsError::NotADirectory);
                    }
                    ino
                }
                Ok(None) => {
                    let ghost was = created;
                    match self.create_dir(cur, name) {
                        Ok(n) => {
                            proof {
                                if !was {
                                    cc = cur;
                                    cn = i as nat;
                                    cnew = n;
                                    created = true;
                                }
                            }
                            n
                        }
                        Err(e) => return Err(e),
                    }
                }
            };
            i = i + 1;
        }
        proof {
            if !created {
                assert(cs.subrange(i as int, cs.len() as int) =~= Seq::<Seq<char>>::empty());
            }
        }
        Ok(cur)
    }

    /// The inode named `name` in directory `ino`: the directory's error,
    /// NotADirectory, an unreadable entry's error, or NotFound.
    pub fn lookup(&self, ino: u32, name: &str) -> (r: VfsResult<u32>)
        ensures
            r == rwalk(self.disk(), self.sblock(), ino, seq![name@]),
    {
        let di = match self.read_inode(ino) {
            Ok(i) => i,
            Err(e) => return Err(e),
        };
        if di.itype != ITYPE_DIR {
            return Err(VfsError::NotADirectory);
        }
        assert(seq![name@].drop_first() =~= Seq::<Seq<char>>::empty());
        assert(seq![name@][0] == name@);
        proof { reveal_with_fuel(rwalk, 2); }
        match self.dir_lookup(&di, name.as_bytes()) {
            Err(e) => Err(e),
            Ok(None) => Err(VfsError::NotFound),
            Ok(Some(c)) => {
                assert(rwalk(self.disk(), self.sblock(), c, Seq::<Seq<char>>::empty()) == Ok::<u32, VfsError>(c));
                Ok(c)
            }
        }
    }

    /// Make everything written so far durable. The device model here is
    /// written through, so there is nothing left to flush.
    pub fn sync(&self) -> (r: VfsResult<()>)
        ensures
            r is Ok,
    {
        Ok(())
    }

    /// Mount `disk` if it holds a racfs (see [`Racfs::open`]); otherwise
    /// format it (see [`Racfs::format_and_new`]).
    pub fn open_or_format(disk: Vec<u8>) -> (r: VfsResult<Racfs>)
        ensures
            has_sector(disk@, 0) && mountable(superblock_of(sector_bytes(disk@, 0))) ==>
                (r matches Ok(fs) && fs.disk() == disk@ && fs.sblock() == superblock_of(sector_bytes(disk@, 0)) && fs.hint() == 0),
            !(has_sector(disk@, 0) && mountable(superblock_of(sector_bytes(disk@, 0)))) ==> ({
                let sb = format_sb((disk@.len() / 512) as u32);
                if has_sector(disk@, sb.data_start - 1) {
                    r matches Ok(fs) && fs.sblock() == sb && fs.hint() == 0 && fs.disk().len() == disk@.len()
                        && superblock_of(sector_bytes(fs.disk(), 0)) == sb
                        && (inode_at(fs.disk(), sb, 0) matches Ok(root) && is_fresh_root(root))
                } else {
                    r == Err::<Racfs, VfsError>(VfsError::IoError)
                }
            }),
    {
        let mut copy: Vec<u8> = Vec::new();
        let mut i: usize = 0;
        while i < disk.len()
            invariant
                i <= disk@.len(),
                copy@ == disk@.take(i as int),
            decreases disk@.len() - i,
        {
            copy.push(disk[i]);
            assert(disk@.take(i + 1) =~= disk@.take(i as int).push(disk@[i as int]));
            i = i + 1;
        }
        assert(disk@.take(disk@.len() as int) =~= disk@);
        match Racfs::open(copy) {
            Ok(fs) => Ok(fs),
            Err(_) => Racfs::format_and_new(disk),
        }
    }

    /// Format the device as an empty racfs and mount it: the superblock of
    /// [`format_sb`] in sector 0, the bitmap and the inode table zeroed,
    /// inode 0 an empty root directory, the data area untouched. IoError
    /// when the device ends before the data area.
    #[verifier::rlimit(40)]
    pub fn format_and_new(disk: Vec<u8>) -> (r: VfsResult<Racfs>)
        ensures
            ({
                let sb = format_sb((disk@.len() / 512) as u32);
                if has_sector(disk@, sb.data_start - 1) {
                    r matches Ok(fs) && {
                        let d = fs.disk();
                        &&& fs.sblock() == sb
                        &&& fs.hint() == 0
                        &&& d.len() == disk@.len()
                        &&& superblock_of(sector_bytes(d, 0)) == sb
                        &&& forall|j: int| 512 <= j < 512 * sb.inode_start ==> #[trigger] d[j] == 0
                        &&& forall|j: int| 512 * sb.inode_start + 128 <= j < 512 * sb.data_start ==> #[trigger] d[j] == 0
                        &&& inode_at(d, sb, 0) matches Ok(root) && is_fresh_root(root)
                        &&& forall|j: int| 512 * sb.data_start <= j < d.len() ==> #[trigger] d[j] == disk@[j]
                    }
                } else {
                    r == Err::<Racfs, VfsError>(VfsError::IoError)
                }
            }),
    {
        let total = (disk.len() / 512) as u32;
        let sb = format_superblock(total);
        proof {
            let need = bitmap_need(total, 1);
            let bs = choose|bs: int| 1 <= bs && bitmap_need(total, bs) <= bs
                && (bs == 1 || bs == bitmap_need(total, 1)) && sb == formatted(total, bs);
            assert(sb == format_sb(total));
        }
        let ghost d0 = disk@;
        let data_start = sb.data_start;
        let mut fs = Racfs { disk, sb, alloc_hint: 0 };
        // The highest sector formatting writes is the last of the inode table.
        let last = data_start as u64 - 1;
        if last >= (fs.disk.len() / 512) as u64 {
            proof {
                let count = d0.len() / 512;
                assert(!has_sector(d0, sb.data_start - 1)) by (nonlinear_arith)
                    requires
                        count == d0.len() / 512,
                        sb.data_start - 1 >= count,
                ;
            }
            return Err(VfsError::IoError);
        }
        proof {
            let count = d0.len() / 512;
            let ds = sb.data_start as int;
            assert(512 * (ds - 1) + 512 <= d0.len()) by (nonlinear_arith)
                requires
                    count == d0.len() / 512,
                    ds - 1 < count,
                    ds >= 1,
            ;
        }
        let sb_buf = crate::vfs::racfs::superblock_to_sector(&sb);
        let w0 = fs.write_sector(0, &sb_buf);
        assert(w0 is Ok);
        let ghost d1 = fs.disk();
        fs.zero_sectors(1, data_start as u64);
        let root = DiskInode {
            itype: ITYPE_DIR,
            mode: 0o755,
            size: 0,
            nlink: 2,
            uid: 0,
            gid: 0,
            direct: [0u32; 8],
            dir_entry_count: 0,
            indirect: 0,
            double_indirect: 0,
        };
        let ghost d2 = fs.disk();
        let w1 = fs.write_inode(0, &root);
        proof {
            let d3 = fs.disk();
            assert(inode_sector(sb, 0) == sb.inode_start);
            assert(has_sector(d2, sb.inode_start as int));
            let p = 512 * sb.inode_start;
            assert forall|j: int| 0 <= j < 512 implies #[trigger] d3[j] == d1[j] by {
                assert(d3[j] == d2[j]);
            }
            assert(sector_bytes(d3, 0) =~= sector_bytes(d1, 0));
            assert forall|j: int| 0 <= j < 512 implies #[trigger] d1[j] == sb_buf@[j] by {
                lemma_with_sector_index(d0, 0, sb_buf@, j);
            }
            assert(sector_bytes(d1, 0) =~= sb_buf@);
            assert forall|j: int| 512 * sb.data_start <= j < d3.len() implies #[trigger] d3[j] == d0[j] by {
                assert(d3[j] == d2[j]);
                lemma_with_sector_index(d0, 0, sb_buf@, j);
            }
            assert(as_stored(root).direct@ == root.direct@);
            assert(forall|k: int| 0 <= k < 8 ==> root.direct@[k] == 0);
            lemma_stored_root(root);
            lemma_inode_of(d3.subrange(p, p + 128), as_stored(root));
        }
        Ok(fs)
    }
}

/// An inode whose group id and first pointer are 0 reads back unchanged.
proof fn lemma_stored_root(root: DiskInode)
    requires
        root.gid == 0,
        root.direct@[0] == 0,
    ensures
        as_stored(root) == root,
{
    assert(crate::vfs::racfs::stored_gid(root) == 0);
}

/// Appending an entry appends its triple.
proof fn lemma_entries_view_push(v: Seq<DirEntry>, x: DirEntry)
    ensures
        entries_view(v.push(x)) == entries_view(v).push((x.name@, x.ino, x.file_type)),
{
    assert(entries_view(v.push(x)) =~= entries_view(v).push((x.name@, x.ino, x.file_type)));
}

/// A listing that starts with `t` followed by the rest, seen from a
/// prefix `pre`.
proof fn lemma_listing_cons(
    d: Seq<u8>,
    sb: Superblock,
    i: DiskInode,
    k: int,
    t: (Seq<char>, InodeNum, FileType),
    pre: Seq<(Seq<char>, InodeNum, FileType)>,
)
    ensures
        (match listing(d, sb, i, k + 1) {
            Ok(l) => Ok::<Seq<(Seq<char>, InodeNum, FileType)>, VfsError>(pre.push(t) + l),
            Err(e) => Err::<Seq<(Seq<char>, InodeNum, FileType)>, VfsError>(e),
        }) == (match (match listing(d, sb, i, k + 1) {
            Err(x) => Err::<Seq<(Seq<char>, InodeNum, FileType)>, VfsError>(x),
            Ok(r) => Ok::<Seq<(Seq<char>, InodeNum, FileType)>, VfsError>(seq![t] + r),
        }) {
            Ok(l) => Ok::<Seq<(Seq<char>, InodeNum, FileType)>, VfsError>(pre + l),
            Err(e) => Err::<Seq<(Seq<char>, InodeNum, FileType)>, VfsError>(e),
        }),
{
    match listing(d, sb, i, k + 1) {
        Ok(l) => {
            assert(pre.push(t) + l =~= pre + (seq![t] + l));
        }
        Err(_) => {}
    }
}

/// Byte strings are equal.
fn bytes_eq(a: &[u8], b: &[u8]) -> (r: bool)
    ensures
        r == (a@ == b@),
{
    if a.len() != b.len() {
        return false;
    }
    let mut k: usize = 0;
    while k < a.len()
        invariant
            a@.len() == b@.len(),
            k <= a@.len(),
            forall|j: int| 0 <= j < k ==> a@[j] == b@[j],
        decreases a@.len() - k,
    {
        if a[k] != b[k] {
            return false;
        }
        k = k + 1;
    }
    assert(a@ =~= b@);
    true
}

/// Sub-slice `[a, b)` of a slice.
fn slice_range(s: &[u8], a: usize, b: usize) -> (r: &[u8])
    requires
        a <= b <= s@.len(),
    ensures
        r@ == s@.subrange(a as int, b as int),
{
    vstd::slice::slice_subrange(s, a, b)
}

/// Replace sector `s` of the device bytes `disk` with `data`; IoError
/// (nothing written) when there is no such sector.
pub(crate) fn write_device_sector(disk: &mut Vec<u8>, s: u64, data: &[u8; 512]) -> (r: VfsResult<()>)
    ensures
        has_sector(old(disk)@, s as int) ==> r is Ok && final(disk)@ == with_sector(old(disk)@, s as int, data@),
        !has_sector(old(disk)@, s as int) ==> r == Err::<(), VfsError>(VfsError::IoError) && final(disk)@ == old(disk)@,
{
    let ghost d0 = disk@;
    let count = disk.len() / 512;
    if s >= count as u64 {
        proof {
            assert(!has_sector(d0, s as int)) by (nonlinear_arith)
                requires
                    count == d0.len() / 512,
                    s >= count,
            ;
        }
        return Err(VfsError::IoError);
    }
    let base = (s as usize) * 512;
    assert(512 * s + 512 <= d0.len()) by (nonlinear_arith)
        requires
            count == d0.len() / 512,
            s < count,
    ;
    let mut k: usize = 0;
    while k < 512
        invariant
            base == 512 * s,
            base + 512 <= d0.len(),
            disk@.len() == d0.len(),
            k <= 512,
            forall|j: int| base <= j < base + k ==> #[trigger] disk@[j] == data@[j - base],
            forall|j: int| 0 <= j < d0.len() && !(base <= j < base + k) ==> #[trigger] disk@[j] == d0[j],
        decreases 512 - k,
    {
        disk.set(base + k, data[k]);
        k = k + 1;
    }
    assert(disk@ =~= with_sector(d0, s as int, data@));
    Ok(())
}

/// Copy sector `s` of the device bytes `disk` into `out`.
pub(crate) fn read_device_sector(disk: &Vec<u8>, s: u64, out: &mut [u8; 512]) -> (r: VfsResult<()>)
    ensures
        has_sector(disk@, s as int) ==> r is Ok && final(out)@ == sector_bytes(disk@, s as int),
        !has_sector(disk@, s as int) ==> r == Err::<(), VfsError>(VfsError::IoError) && final(out)@ == old(out)@,
{
    let count = disk.len() / 512;
    if s >= count as u64 {
        proof {
            assert(!has_sector(disk@, s as int)) by (nonlinear_arith)
                requires
                    count == disk@.len() / 512,
                    s >= count,
            ;
        }
        return Err(VfsError::IoError);
    }
    let base = (s as usize) * 512;
    assert(512 * s + 512 <= disk@.len()) by (nonlinear_arith)
        requires
            count == disk@.len() / 512,
            s < count,
    ;
    let mut k: usize = 0;
    while k < 512
        invariant
            base == 512 * s,
            base + 512 <= disk@.len(),
            k <= 512,
            forall|j: int| 0 <= j < k ==> #[trigger] out@[j] == disk@[base + j],
        decreases 512 - k,
    {
        out[k] = disk[base + k];
        k = k + 1;
    }
    assert(out@ =~= sector_bytes(disk@, s as int));
    Ok(())
}

/// Writing an inode's record and reading it back gives the inode as
/// stored (see [`as_stored`]); every other inode reads as before.
pub proof fn lemma_write_then_read_inode(d0: Seq<u8>, d1: Seq<u8>, sb: Superblock, ino: u32, i: DiskInode, other: u32)
    requires
        ino < sb.inode_count,
        has_sector(d0, inode_sector(sb, ino)),
        inode_written(d0, d1, sb, ino, i),
        other != ino,
    ensures
        inode_at(d1, sb, ino) == Ok::<DiskInode, VfsError>(as_stored(i)),
        inode_at(d1, sb, other) == inode_at(d0, sb, other),
{
    let p = 512 * inode_sector(sb, ino) + inode_offset(ino);
    lemma_inode_of(d1.subrange(p, p + 128), as_stored(i));
    if other < sb.inode_count && has_sector(d0, inode_sector(sb, other)) {
        let q = 512 * inode_sector(sb, other) + inode_offset(other);
        assert(q + 128 <= p || p + 128 <= q) by (nonlinear_arith)
            requires
                p == 512 * (sb.inode_start + ino / 4) + (ino % 4) * 128,
                q == 512 * (sb.inode_start + other / 4) + (other % 4) * 128,
                ino != other,
        ;
        assert(d1.subrange(q, q + 128) =~= d0.subrange(q, q + 128));
    }
}

/// An inode whose sector is not sector 0 reads the same after a write
/// that keeps every byte past sector 0.
pub proof fn lemma_inode_at_kept(d0: Seq<u8>, d1: Seq<u8>, sb: Superblock, ino: u32)
    requires
        d0.len() == d1.len(),
        inode_sector(sb, ino) != 0,
        forall|j: int| 512 <= j < d0.len() ==> #[trigger] d1[j] == d0[j],
    ensures
        inode_at(d1, sb, ino) == inode_at(d0, sb, ino),
{
    if ino < sb.inode_count && has_sector(d0, inode_sector(sb, ino)) {
        let p = 512 * inode_sector(sb, ino) + inode_offset(ino);
        assert(p >= 512);
        assert(d1.subrange(p, p + 128) =~= d0.subrange(p, p + 128));
    }
}

/// `i` with `n` links.
pub open spec fn with_nlink(i: DiskInode, n: int) -> DiskInode {
    DiskInode { nlink: n as u16, ..i }
}

/// Every superblock `format_and_new` writes is one `open` accepts.
pub proof fn lemma_format_sb_mountable(total: u32)
    ensures
        mountable(format_sb(total)),
{
}

/// Formatting and then mounting the device finds the superblock that was
/// written, with an empty root directory: it lists nothing and holds no
/// name.
pub proof fn lemma_format_then_open(d: Seq<u8>, sb: Superblock, root: DiskInode, name: Seq<u8>)
    requires
        sb == format_sb((d.len() / 512) as u32),
        has_sector(d, 0),
        superblock_of(sector_bytes(d, 0)) == sb,
        inode_at(d, sb, 0) == Ok::<DiskInode, VfsError>(root),
        is_fresh_root(root),
    ensures
        mountable(superblock_of(sector_bytes(d, 0))),
        listing(d, sb, root, 0) == Ok::<Seq<(Seq<char>, InodeNum, FileType)>, VfsError>(Seq::empty()),
        dir_find(d, sb, root, name, 0) == Ok::<Option<u32>, VfsError>(None),
{
    lemma_format_sb_mountable((d.len() / 512) as u32);
}

/// A block `scan_free` finds lies in the scanned range, in a bitmap
/// sector on the device, and its bit is clear.
pub proof fn lemma_scan_free_range(d: Seq<u8>, sb: Superblock, idx: int, to: int)
    ensures
        scan_free(d, sb, idx, to) matches Ok(Some(i)) ==> idx <= i < to
            && has_sector(d, sb.bitmap_start + i / 4096) && !bit_on_disk(d, sb, i)
            && (idx >= 0 ==> 0 <= bit_pos(sb, i) < d.len()),
    decreases to - idx,
{
    if idx < to && has_sector(d, sb.bitmap_start + idx / 4096) && bit_on_disk(d, sb, idx) {
        lemma_scan_free_range(d, sb, idx + 1, to);
    }
}

/// The block the allocator takes is in its range, its bit is clear and
/// lies on the device.
pub proof fn lemma_alloc_outcome_ok(d: Seq<u8>, sb: Superblock, hint: u32)
    ensures
        alloc_outcome(d, sb, hint) matches Ok(i) ==> 0 <= i < alloc_range(sb)
            && !bit_on_disk(d, sb, i) && 0 <= bit_pos(sb, i) < d.len()
            && set_disk_bit(d, sb, i).len() == d.len(),
{
    lemma_scan_free_range(d, sb, alloc_start(sb, hint), alloc_range(sb));
    lemma_scan_free_range(d, sb, 0, alloc_start(sb, hint));
}

/// The allocator only fails with NoSpace or IoError.
pub proof fn lemma_alloc_outcome_error(d: Seq<u8>, sb: Superblock, hint: u32)
    ensures
        alloc_outcome(d, sb, hint) matches Err(e) ==> alloc_error(e),
{
    lemma_scan_free_error(d, sb, alloc_start(sb, hint), alloc_range(sb));
    lemma_scan_free_error(d, sb, 0, alloc_start(sb, hint));
}

/// A bitmap scan only fails with IoError.
pub proof fn lemma_scan_free_error(d: Seq<u8>, sb: Superblock, idx: int, to: int)
    ensures
        scan_free(d, sb, idx, to) matches Err(e) ==> e == VfsError::IoError,
    decreases to - idx,
{
    if idx < to && has_sector(d, sb.bitmap_start + idx / 4096) && bit_on_disk(d, sb, idx) {
        lemma_scan_free_error(d, sb, idx + 1, to);
    }
}

/// Block mapping only fails with NoSpace or IoError.
pub proof fn lemma_block_of_error(d: Seq<u8>, sb: Superblock, i: DiskInode, idx: int)
    ensures
        block_of(d, sb, i, idx) matches Err(e) ==> alloc_error(e),
{
}

/// The inode `first_free_inode` finds is in range, so its record lies
/// inside the inode table.
pub proof fn lemma_first_free_inode_range(d: Seq<u8>, sb: Superblock, k: int)
    ensures
        first_free_inode(d, sb, k) matches Ok(ino) ==> k <= ino < sb.inode_count
            && has_sector(d, inode_sector(sb, ino)),
        first_free_inode(d, sb, k) matches Ok(ino) ==> inode_at(d, sb, ino) is Ok
            && inode_at(d, sb, ino)->Ok_0.itype == ITYPE_FREE,
    decreases sb.inode_count - k,
{
    if k < sb.inode_count {
        match inode_at(d, sb, k as u32) {
            Err(_) => {}
            Ok(i) => if i.itype != ITYPE_FREE { lemma_first_free_inode_range(d, sb, k + 1); },
        }
    }
}

/// Locating an inode only fails with NotFound or IoError.
pub proof fn lemma_inode_pos_error(d: Seq<u8>, sb: Superblock, ino: u32)
    ensures
        inode_at(d, sb, ino) matches Err(e) ==> e == VfsError::NotFound || e == VfsError::IoError,
{
}

/// Freeing a block keeps the device's length.
pub proof fn lemma_clear_bit_len(d: Seq<u8>, sb: Superblock, block: u32)
    ensures
        block != 0 && has_sector(d, sb.bitmap_start + (block - 1) / 4096)
            ==> clear_disk_bit(d, sb, block - 1).len() == d.len(),
{
    if block != 0 && has_sector(d, sb.bitmap_start + (block - 1) / 4096) {
        assert(0 <= bit_pos(sb, block - 1) < d.len());
    }
}

/// A racfs volume as a mountable filesystem: the whole disk, or the
/// subtree below one directory.
pub struct RacfsFilesystem {
    inner: Racfs,
    root_ino: u32,
}

impl RacfsFilesystem {
    /// The wrapped volume.
    pub closed spec fn fs(&self) -> Racfs {
        self.inner
    }

    /// The inode this mount presents as its root.
    pub closed spec fn root(&self) -> u32 {
        self.root_ino
    }

    /// Mount the whole volume.
    pub fn new(racfs: Racfs) -> (r: RacfsFilesystem)
        ensures
            r.fs() == racfs,
            r.root() == 0,
    {
        RacfsFilesystem { inner: racfs, root_ino: 0 }
    }

    /// Mount the directory `root_ino` of the volume as a filesystem of its
    /// own.
    pub fn new_subtree(racfs: Racfs, root_ino: u32) -> (r: RacfsFilesystem)
        ensures
            r.fs() == racfs,
            r.root() == root_ino,
    {
        RacfsFilesystem { inner: racfs, root_ino }
    }

    /// The inode this mount treats as its root; path resolution for writes
    /// starts here.
    pub fn root_ino(&self) -> (r: u32)
        ensures
            r == self.root(),
    {
        self.root_ino
    }

    /// The volume backing this mount.
    pub fn inner(&self) -> (r: &Racfs)
        ensures
            *r == self.fs(),
    {
        &self.inner
    }

    /// The filesystem's name.
    pub fn name(&self) -> (r: &'static str)
        ensures
            r@ == "racfs"@,
    {
        "racfs"
    }

    /// Check that inode `ino` exists for use as a file handle: its error,
    /// or NotFound for a free inode.
    pub fn get_inode(&self, ino: u32) -> (r: VfsResult<u32>)
        ensures
            match inode_at(self.fs().disk(), self.fs().sblock(), ino) {
                Err(e) => r == Err::<u32, VfsError>(e),
                Ok(i) => if i.itype == ITYPE_FREE {
                    r == Err::<u32, VfsError>(VfsError::NotFound)
                } else {
                    r == Ok::<u32, VfsError>(ino)
                },
            },
    {
        let di = match self.inner.read_inode(ino) {
            Ok(i) => i,
            Err(e) => return Err(e),
        };
        if di.itype == ITYPE_FREE {
            return Err(VfsError::NotFound);
        }
        Ok(ino)
    }
}

/// One chunk of a write lands at its direct positions and leaves the
/// chunks before it alone.
proof fn lemma_direct_chunk(
    d0: Seq<u8>,
    d1: Seq<u8>,
    sb: Superblock,
    ino: u32,
    i: DiskInode,
    offset: int,
    data: Seq<u8>,
    done: int,
    chunk: int,
    pos: int,
    sector: Seq<u8>,
)
    requires
        direct_range_ok(d0.len() as int, sb, ino, i, offset, data.len() as int),
        direct_written(d0, sb, i, offset, data, done),
        0 <= done,
        0 < chunk,
        done + chunk <= data.len(),
        pos == offset + done,
        done == 0 || pos % 512 == 0,
        chunk <= 512 - pos % 512,
        sector.len() == 512,
        forall|m: int| 0 <= m < chunk ==> #[trigger] sector[pos % 512 + m] == data[done + m],
        d1 == with_sector(d0, data_sector(sb, i.direct@[pos / 512]), sector),
    ensures
        direct_written(d1, sb, i, offset, data, done + chunk),
{
    let k = pos / 512;
    let lo = offset / 512;
    let hi = (offset + data.len() - 1) / 512;
    assert(lo <= k <= hi) by (nonlinear_arith)
        requires
            k == pos / 512,
            lo == offset / 512,
            hi == (offset + data.len() - 1) / 512,
            offset <= pos < offset + data.len(),
            0 <= offset,
    ;
    let s = data_sector(sb, i.direct@[k]);
    assert(i.direct@[k] != 0);
    assert(fits(d0.len() as int, s));
    assert forall|j: int| 0 <= j < done + chunk implies #[trigger] d1[direct_pos(sb, i, offset + j)] == data[j] by {
        let q = offset + j;
        let kj = q / 512;
        assert(lo <= kj <= hi) by (nonlinear_arith)
            requires
                kj == q / 512,
                lo == offset / 512,
                hi == (offset + data.len() - 1) / 512,
                offset <= q < offset + data.len(),
                0 <= offset,
        ;
        assert(i.direct@[kj] != 0);
        let sj = data_sector(sb, i.direct@[kj]);
        assert(fits(d0.len() as int, sj));
        assert(0 <= q % 512 < 512);
        let p = direct_pos(sb, i, q);
        assert(p == 512 * sj + q % 512);
        lemma_with_sector_index(d0, s, sector, p);
        if j < done {
            assert(kj < k) by (nonlinear_arith)
                requires
                    kj == q / 512,
                    k == pos / 512,
                    q < pos,
                    pos % 512 == 0,
                    0 <= q,
            ;
            assert(i.direct@[kj] != i.direct@[k]);
            assert(sj != s);
            assert(!(512 * s <= p < 512 * s + 512)) by (nonlinear_arith)
                requires
                    p == 512 * sj + q % 512,
                    0 <= q % 512 < 512,
                    sj != s,
            ;
        } else {
            let m = j - done;
            assert(kj == k && q % 512 == pos % 512 + m) by (nonlinear_arith)
                requires
                    q == pos + m,
                    0 <= m < chunk,
                    chunk <= 512 - pos % 512,
                    kj == q / 512,
                    k == pos / 512,
                    0 <= pos,
            ;
            assert(sector[pos % 512 + m] == data[done + m]);
        }
    }
}

/// `direct_range_ok` only looks at the layout of the superblock and at the
/// direct pointers.
proof fn lemma_direct_range_layout(dlen: int, sb1: Superblock, sb0: Superblock, ino: u32, j: DiskInode, i: DiskInode, offset: int, len: int)
    requires
        same_layout(sb0, sb1),
        j.direct == i.direct,
        direct_range_ok(dlen, sb1, ino, j, offset, len),
    ensures
        direct_range_ok(dlen, sb0, ino, i, offset, len),
{
}

/// Rewriting the inode record keeps the bytes written through the direct
/// pointers, and they are what the file then reads as.
proof fn lemma_direct_after_inode_write(
    d0: Seq<u8>,
    d1: Seq<u8>,
    sb0: Superblock,
    sb1: Superblock,
    ino: u32,
    i: DiskInode,
    j: DiskInode,
    offset: int,
    data: Seq<u8>,
)
    requires
        same_layout(sb0, sb1),
        j.direct == i.direct,
        d0.len() == d1.len(),
        direct_range_ok(d0.len() as int, sb0, ino, i, offset, data.len() as int),
        direct_written(d0, sb0, i, offset, data, data.len() as int),
        forall|x: int| 0 <= x < d0.len()
            && !(512 * inode_sector(sb1, ino) + inode_offset(ino) <= x < 512 * inode_sector(sb1, ino) + inode_offset(ino) + 128)
            ==> #[trigger] d1[x] == d0[x],
    ensures
        forall|k: int| 0 <= k < data.len() ==> #[trigger] file_byte(d1, sb1, j, offset + k) == data[k],
{
    let lo = offset / 512;
    let hi = (offset + data.len() - 1) / 512;
    assert forall|k: int| 0 <= k < data.len() implies #[trigger] file_byte(d1, sb1, j, offset + k) == data[k] by {
        let q = offset + k;
        let kq = q / 512;
        assert(lo <= kq <= hi) by (nonlinear_arith)
            requires
                kq == q / 512,
                lo == offset / 512,
                hi == (offset + data.len() - 1) / 512,
                offset <= q < offset + data.len(),
                0 <= offset,
        ;
        assert(kq < 8);
        assert(i.direct@[kq] != 0);
        let s = data_sector(sb0, i.direct@[kq]);
        assert(fits(d0.len() as int, s));
        assert(s != inode_sector(sb0, ino));
        let p = direct_pos(sb0, i, q);
        assert(d0[p] == data[k]);
        assert(0 <= q % 512 < 512);
        assert(p == 512 * s + q % 512);
        let ip = 512 * inode_sector(sb1, ino) + inode_offset(ino);
        assert(0 <= inode_offset(ino) <= 384);
        assert(!(ip <= p < ip + 128)) by (nonlinear_arith)
            requires
                p == 512 * s + q % 512,
                0 <= q % 512 < 512,
                ip == 512 * inode_sector(sb1, ino) + inode_offset(ino),
                0 <= inode_offset(ino) <= 384,
                s != inode_sector(sb1, ino),
        ;
        assert(d1[p] == d0[p]);
        assert(block_of(d1, sb1, j, kq) == Ok::<u32, VfsError>(j.direct@[kq]));
    }
}

/// What `dir_add_entry` leaves when the entry goes in place: the entry's
/// bytes at its position, the directory's record with one entry more, and
/// every other byte as it was.
proof fn lemma_add_in_place_result(
    d0: Seq<u8>,
    d2: Seq<u8>,
    d3: Seq<u8>,
    sb: Superblock,
    dir_ino: u32,
    i: DiskInode,
    dir: DiskInode,
    child: u32,
    name: Seq<u8>,
    block: u32,
    off: int,
    s0: Seq<u8>,
    sector: Seq<u8>,
    bytes: Seq<u8>,
    de: DiskDirEntry,
)
    requires
        add_in_place(d0, sb, dir_ino, i, dir_ino),
        name.len() <= 56,
        inode_at(d0, sb, dir_ino) == Ok::<DiskInode, VfsError>(i),
        block == mapped_block(d0, sb, i, i.dir_entry_count as int / 8),
        off == 64 * (i.dir_entry_count % 8),
        s0 == sector_bytes(d0, data_sector(sb, block)),
        sector.len() == 512,
        forall|t: int| 0 <= t < 64 ==> #[trigger] sector[off + t] == bytes[t],
        forall|t: int| 0 <= t < 512 && !(off <= t < off + 64) ==> #[trigger] sector[t] == s0[t],
        d2 == with_sector(d0, data_sector(sb, block), sector),
        inode_written(d2, d3, sb, dir_ino, dir),
        dir == (DiskInode { dir_entry_count: (i.dir_entry_count + 1) as u32, ..i }),
        de.ino == child,
        de.name_len == name.len(),
        forall|t: int| 0 <= t < name.len() ==> #[trigger] de.name@[t] == name[t],
        bytes.len() == 64,
        le32(bytes, 0) == de.ino,
        bytes[4] == de.name_len,
        forall|k: int| 0 <= k < 56 ==> #[trigger] bytes[8 + k] == (if k < de.name_len { de.name@[k] } else { 0u8 }),
    ensures
        entry_written(d3, entry_pos(d0, sb, i, i.dir_entry_count as int), child, name),
        forall|x: int| 0 <= x < d0.len() && !(entry_pos(d0, sb, i, i.dir_entry_count as int) <= x < entry_pos(d0, sb, i, i.dir_entry_count as int) + 64)
            && !(512 * inode_sector(sb, dir_ino) + inode_offset(dir_ino) <= x < 512 * inode_sector(sb, dir_ino) + inode_offset(dir_ino) + 128)
            ==> #[trigger] d3[x] == d0[x],
        inode_at(d3, sb, dir_ino) == Ok::<DiskInode, VfsError>(as_stored(dir)),
{
    let c = i.dir_entry_count as int;
    let ds = data_sector(sb, block);
    let p = entry_pos(d0, sb, i, c);
    let q = 512 * inode_sector(sb, dir_ino) + inode_offset(dir_ino);
    assert(p == 512 * ds + off);
    assert(0 <= off && off + 64 <= 512);
    assert(fits(d0.len() as int, ds));
    assert(0 <= inode_offset(dir_ino) <= 384);
    assert forall|j: int| 0 <= j < 64 implies #[trigger] d3[p + j] == bytes[j] by {
        lemma_with_sector_index(d0, ds, sector, p + j);
        assert(d2[p + j] == sector[off + j]);
        assert(!(q <= p + j < q + 128)) by (nonlinear_arith)
            requires
                p == 512 * ds + off,
                0 <= off,
                off + 64 <= 512,
                0 <= j < 64,
                q == 512 * inode_sector(sb, dir_ino) + inode_offset(dir_ino),
                0 <= inode_offset(dir_ino) <= 384,
                ds != inode_sector(sb, dir_ino),
        ;
        assert(d3[p + j] == d2[p + j]);
    }
    assert(d3.subrange(p, p + 64) =~= bytes) by {
        assert forall|j: int| 0 <= j < 64 implies #[trigger] d3.subrange(p, p + 64)[j] == bytes[j] by {
            assert(d3[p + j] == bytes[j]);
        }
    }
    assert(le32(d3.subrange(p, p + 64), 0) == le32(bytes, 0));
    assert(d3[p + 4] == bytes[4]);
    assert forall|k: int| 0 <= k < name.len() implies #[trigger] d3[p + 8 + k] == name[k] by {
        assert(d3[p + (8 + k)] == bytes[8 + k]);
    }
    assert forall|x: int| 0 <= x < d0.len() && !(p <= x < p + 64) && !(q <= x < q + 128) implies #[trigger] d3[x] == d0[x] by {
        lemma_with_sector_index(d0, ds, sector, x);
        if 512 * ds <= x < 512 * ds + 512 {
            let t = x - 512 * ds;
            assert(!(off <= t < off + 64));
            assert(sector[t] == s0[t]);
            assert(s0[t] == d0[x]);
        }
    }
    lemma_write_then_read_inode(d2, d3, sb, dir_ino, dir, if dir_ino == 0 { 1u32 } else { 0u32 });
}

/// After the entry for `child` named `name` went in place into directory
/// `i` (as [`Racfs::dir_add_entry`] writes it), the record of inode
/// `other` was rewritten and sector 0 too, the directory (now `j`, with
/// one entry more) finds `child` under `name`, where it found nothing
/// before.
proof fn lemma_add_then_find(
    d0: Seq<u8>,
    d1: Seq<u8>,
    d2: Seq<u8>,
    d3: Seq<u8>,
    sb: Superblock,
    dir: u32,
    other: u32,
    i: DiskInode,
    j: DiskInode,
    child: u32,
    name: Seq<u8>,
)
    requires
        add_in_place(d0, sb, dir, i, other),
        name.len() <= 56,
        dir_find(d0, sb, i, name, 0) == Ok::<Option<u32>, VfsError>(None),
        d1.len() == d0.len() && d2.len() == d0.len() && d3.len() == d0.len(),
        entry_written(d1, entry_pos(d0, sb, i, i.dir_entry_count as int), child, name),
        forall|x: int| 0 <= x < d0.len() && !(entry_pos(d0, sb, i, i.dir_entry_count as int) <= x < entry_pos(d0, sb, i, i.dir_entry_count as int) + 64)
            && !(512 * inode_sector(sb, dir) + inode_offset(dir) <= x < 512 * inode_sector(sb, dir) + inode_offset(dir) + 128)
            ==> #[trigger] d1[x] == d0[x],
        forall|x: int| 0 <= x < d0.len()
            && !(512 * inode_sector(sb, other) + inode_offset(other) <= x < 512 * inode_sector(sb, other) + inode_offset(other) + 128)
            ==> #[trigger] d2[x] == d1[x],
        forall|x: int| 512 <= x < d0.len() ==> #[trigger] d3[x] == d2[x],
        j.direct == i.direct && j.indirect == i.indirect && j.double_indirect == i.double_indirect,
        j.dir_entry_count == i.dir_entry_count + 1,
    ensures
        dir_find(d3, sb, j, name, 0) == Ok::<Option<u32>, VfsError>(Some(child)),
{
    let c = i.dir_entry_count as int;
    let bs = data_sector(sb, mapped_block(d0, sb, i, c / 8));
    let p = entry_pos(d0, sb, i, c);
    let qd = 512 * inode_sector(sb, dir) + inode_offset(dir);
    let qo = 512 * inode_sector(sb, other) + inode_offset(other);
    assert(0 <= inode_offset(dir) <= 384 && 0 <= inode_offset(other) <= 384);
    assert(0 <= 64 * (c % 8) <= 448);
    assert(p == 512 * bs + 64 * (c % 8));
    // A byte of a sector other than sector 0 and the two inode sectors, and
    // outside the new entry, is as it was.
    assert forall|x: int| 0 <= x < d0.len() && x >= 512 && !(p <= x < p + 64)
        && x / 512 != inode_sector(sb, dir) && x / 512 != inode_sector(sb, other) implies #[trigger] d3[x] == d0[x] by {
        assert(!(qd <= x < qd + 128)) by (nonlinear_arith)
            requires
                qd == 512 * inode_sector(sb, dir) + inode_offset(dir),
                0 <= inode_offset(dir) <= 384,
                x / 512 != inode_sector(sb, dir),
                x >= 0,
        ;
        assert(!(qo <= x < qo + 128)) by (nonlinear_arith)
            requires
                qo == 512 * inode_sector(sb, other) + inode_offset(other),
                0 <= inode_offset(other) <= 384,
                x / 512 != inode_sector(sb, other),
                x >= 0,
        ;
    }
    assert forall|k: int, s: int| 0 <= k <= c && #[trigger] on_path(d0, sb, i, k / 8, s) implies same_sector(d0, d3, s) by {
        assert(s != bs && s != inode_sector(sb, dir) && s != inode_sector(sb, other) && s != 0);
        assert forall|x: int| 512 * s <= x < 512 * s + 512 && 0 <= x < d0.len() implies #[trigger] d3[x] == d0[x] by {
            assert(x / 512 == s) by (nonlinear_arith)
                requires
                    512 * s <= x < 512 * s + 512,
            ;
            assert(!(p <= x < p + 64)) by (nonlinear_arith)
                requires
                    512 * s <= x < 512 * s + 512,
                    p == 512 * bs + 64 * (c % 8),
                    0 <= 64 * (c % 8) <= 448,
                    s != bs,
            ;
        }
    }
    assert forall|k: int, jj: int| 0 <= k < c && 0 <= jj < 64 && 0 <= entry_pos(d0, sb, i, k) + jj < d0.len()
        implies #[trigger] d3[entry_pos(d0, sb, i, k) + jj] == d0[entry_pos(d0, sb, i, k) + jj] by {
        let sk = data_sector(sb, mapped_block(d0, sb, i, k / 8));
        let pk = entry_pos(d0, sb, i, k);
        let x = pk + jj;
        assert(0 <= 64 * (k % 8) <= 448);
        assert(pk == 512 * sk + 64 * (k % 8));
        assert(sk != inode_sector(sb, dir) && sk != inode_sector(sb, other) && sk != 0);
        assert(pk != p);
        assert(x / 512 == sk) by (nonlinear_arith)
            requires
                x == 512 * sk + 64 * (k % 8) + jj,
                0 <= 64 * (k % 8) <= 448,
                0 <= jj < 64,
        ;
        assert(!(p <= x < p + 64)) by (nonlinear_arith)
            requires
                x == pk + jj,
                0 <= jj < 64,
                pk == 512 * sk + 64 * (k % 8),
                p == 512 * bs + 64 * (c % 8),
                pk != p,
        ;
        assert(x >= 512) by (nonlinear_arith)
            requires
                x == 512 * sk + 64 * (k % 8) + jj,
                sk != 0,
                sk >= 0,
                0 <= 64 * (k % 8),
                0 <= jj,
        ;
    }
    lemma_entries_kept(d0, d3, sb, i, j, c);
    // The new entry reads back.
    assert(has_sector(d0, bs));
    assert forall|jj: int| 0 <= jj < 64 implies #[trigger] d3[p + jj] == d1[p + jj] by {
        let x = p + jj;
        assert(x / 512 == bs) by (nonlinear_arith)
            requires
                x == 512 * bs + 64 * (c % 8) + jj,
                0 <= 64 * (c % 8) <= 448,
                0 <= jj < 64,
        ;
        assert(!(qo <= x < qo + 128)) by (nonlinear_arith)
            requires
                qo == 512 * inode_sector(sb, other) + inode_offset(other),
                0 <= inode_offset(other) <= 384,
                x / 512 != inode_sector(sb, other),
                x >= 0,
        ;
        assert(x >= 512) by (nonlinear_arith)
            requires
                x == 512 * bs + 64 * (c % 8) + jj,
                bs >= 1,
                0 <= 64 * (c % 8),
                0 <= jj,
        ;
    }
    let e = d3.subrange(p, p + 64);
    assert(block_of(d3, sb, j, c / 8) == block_of(d0, sb, i, c / 8));
    assert(direntry_at(d3, sb, j, c) == Ok::<Seq<u8>, VfsError>(sector_bytes(d3, bs).subrange(64 * (c % 8), 64 * (c % 8) + 64)));
    assert(sector_bytes(d3, bs).subrange(64 * (c % 8), 64 * (c % 8) + 64) =~= e);
    assert(e =~= d1.subrange(p, p + 64));
    assert(e[4] == name.len());
    assert(entry_name(e) =~= name) by {
        assert forall|k: int| 0 <= k < name.len() implies #[trigger] entry_name(e)[k] == name[k] by {
            assert(e[8 + k] == d1[p + 8 + k]);
        }
    }
    assert(entry_ino(e) == child);
    assert forall|m: int| 0 <= m < c implies #[trigger] direntry_at(d3, sb, j, m) == direntry_at(d0, sb, i, m) by {}
    lemma_find_appended(d0, d3, sb, i, j, name, 0, e);
}

/// A search through entries that read the same gives the same answer.
proof fn lemma_dir_find_same(d0: Seq<u8>, d1: Seq<u8>, sb0: Superblock, sb1: Superblock, i: DiskInode, name: Seq<u8>, k: int)
    requires
        0 <= k,
        forall|m: int| k <= m < i.dir_entry_count ==> #[trigger] direntry_at(d1, sb1, i, m) == direntry_at(d0, sb0, i, m),
    ensures
        dir_find(d1, sb1, i, name, k) == dir_find(d0, sb0, i, name, k),
    decreases i.dir_entry_count - k,
{
    if k < i.dir_entry_count {
        assert(direntry_at(d1, sb1, i, k) == direntry_at(d0, sb0, i, k));
        lemma_dir_find_same(d0, d1, sb0, sb1, i, name, k + 1);
    }
}

/// A sector other than the one holding inode `other`'s record keeps its
/// bytes when only that record is rewritten.
proof fn lemma_sector_kept(d0: Seq<u8>, d1: Seq<u8>, sb0: Superblock, other: u32, s: int)
    requires
        s != inode_sector(sb0, other),
        d1.len() == d0.len(),
        forall|x: int| 0 <= x < d0.len()
            && !(512 * inode_sector(sb0, other) + inode_offset(other) <= x < 512 * inode_sector(sb0, other) + inode_offset(other) + 128)
            ==> #[trigger] d1[x] == d0[x],
    ensures
        same_sector(d0, d1, s),
{
    let so = inode_sector(sb0, other);
    let qo = 512 * so + inode_offset(other);
    assert(0 <= inode_offset(other) <= 384);
    assert forall|x: int| 512 * s <= x < 512 * s + 512 && 0 <= x < d0.len() implies #[trigger] d1[x] == d0[x] by {
        assert(!(qo <= x < qo + 128)) by (nonlinear_arith)
            requires
                512 * s <= x < 512 * s + 512,
                qo == 512 * so + inode_offset(other),
                0 <= inode_offset(other) <= 384,
                s != so,
        ;
    }
}

/// Rewriting the record of inode `other` keeps an in-place add to
/// directory `i` in place and what a search of it finds.
#[verifier::spinoff_prover]
#[verifier::rlimit(60)]
proof fn lemma_add_in_place_kept(d0: Seq<u8>, d1: Seq<u8>, sb0: Superblock, dir: u32, other: u32, i: DiskInode, name: Seq<u8>)
    requires
        add_in_place(d0, sb0, dir, i, other),
        d1.len() == d0.len(),
        forall|x: int| 0 <= x < d0.len()
            && !(512 * inode_sector(sb0, other) + inode_offset(other) <= x < 512 * inode_sector(sb0, other) + inode_offset(other) + 128)
            ==> #[trigger] d1[x] == d0[x],
    ensures
        add_in_place(d1, sb0, dir, i, dir),
        dir_find(d1, sb0, i, name, 0) == dir_find(d0, sb0, i, name, 0),
        entry_pos(d1, sb0, i, i.dir_entry_count as int) == entry_pos(d0, sb0, i, i.dir_entry_count as int),
{
    let c = i.dir_entry_count as int;
    let so = inode_sector(sb0, other);
    let bs = data_sector(sb0, mapped_block(d0, sb0, i, c / 8));
    assert(clear_of_entries(d0, sb0, i, c, so));
    assert forall|k: int, s: int| 0 <= k <= c && #[trigger] on_path(d0, sb0, i, k / 8, s) implies same_sector(d0, d1, s) by {
        lemma_sector_kept(d0, d1, sb0, other, s);
    }
    assert forall|k: int| 0 <= k <= c implies #[trigger] block_of(d1, sb0, i, k / 8) == block_of(d0, sb0, i, k / 8)
        && (forall|s: int| #[trigger] on_path(d1, sb0, i, k / 8, s) == on_path(d0, sb0, i, k / 8, s)) by {
        lemma_block_of_stable(d0, d1, sb0, i, k / 8);
    }
    assert forall|k: int, jj: int| 0 <= k < c && 0 <= jj < 64 && 0 <= entry_pos(d0, sb0, i, k) + jj < d0.len()
        implies #[trigger] d1[entry_pos(d0, sb0, i, k) + jj] == d0[entry_pos(d0, sb0, i, k) + jj] by {
        let sk = data_sector(sb0, mapped_block(d0, sb0, i, k / 8));
        assert(sk != so);
        lemma_sector_kept(d0, d1, sb0, other, sk);
        assert(0 <= 64 * (k % 8) <= 448);
        assert(512 * sk <= entry_pos(d0, sb0, i, k) + jj < 512 * sk + 512);
    }
    lemma_entries_kept(d0, d1, sb0, i, i, c);
    lemma_dir_find_same(d0, d1, sb0, sb0, i, name, 0);
    assert forall|sx: int| sx == inode_sector(sb0, dir) || sx == 0 implies clear_of_entries(d1, sb0, i, c, sx) by {
        assert(clear_of_entries(d0, sb0, i, c, sx));
        assert forall|k: int| 0 <= k < c implies #[trigger] data_sector(sb0, mapped_block(d1, sb0, i, k / 8)) != sx by {
            assert(block_of(d1, sb0, i, k / 8) == block_of(d0, sb0, i, k / 8));
            assert(data_sector(sb0, mapped_block(d0, sb0, i, k / 8)) != sx);
        }
        assert forall|k: int| 0 <= k <= c implies !#[trigger] on_path(d1, sb0, i, k / 8, sx) by {
            assert(block_of(d1, sb0, i, k / 8) == block_of(d0, sb0, i, k / 8));
            assert(on_path(d1, sb0, i, k / 8, sx) == on_path(d0, sb0, i, k / 8, sx));
            assert(!on_path(d0, sb0, i, k / 8, sx));
        }
    }
    assert forall|k: int| 0 <= k < c implies #[trigger] entry_pos(d1, sb0, i, k) != entry_pos(d1, sb0, i, c) by {
        assert(block_of(d1, sb0, i, k / 8) == block_of(d0, sb0, i, k / 8));
        assert(entry_pos(d0, sb0, i, k) != entry_pos(d0, sb0, i, c));
    }
    assert forall|k: int| 0 <= k <= c implies !#[trigger] on_path(d1, sb0, i, k / 8, bs) by {
        assert(block_of(d1, sb0, i, k / 8) == block_of(d0, sb0, i, k / 8));
        assert(on_path(d1, sb0, i, k / 8, bs) == on_path(d0, sb0, i, k / 8, bs));
        assert(!on_path(d0, sb0, i, k / 8, bs));
    }
}

/// A superblock that differs only in its free-inode count locates the
/// same blocks, entries and inodes.
#[verifier::spinoff_prover]
proof fn lemma_add_in_place_sb(d: Seq<u8>, sb0: Superblock, sb1: Superblock, dir: u32, i: DiskInode, name: Seq<u8>)
    requires
        add_in_place(d, sb0, dir, i, dir),
        sb1 == (Superblock { free_inodes: sb1.free_inodes, ..sb0 }),
    ensures
        add_in_place(d, sb1, dir, i, dir),
        dir_find(d, sb1, i, name, 0) == dir_find(d, sb0, i, name, 0),
        entry_pos(d, sb1, i, i.dir_entry_count as int) == entry_pos(d, sb0, i, i.dir_entry_count as int),
{
    let c = i.dir_entry_count as int;
    assert forall|k: int| #[trigger] block_of(d, sb1, i, k) == block_of(d, sb0, i, k) by {}
    assert forall|k: int, s: int| #[trigger] on_path(d, sb1, i, k, s) == on_path(d, sb0, i, k, s) by {}
    assert forall|m: int| #[trigger] direntry_at(d, sb1, i, m) == direntry_at(d, sb0, i, m) by {}
    lemma_dir_find_same(d, d, sb0, sb1, i, name, 0);
    let bs = data_sector(sb0, mapped_block(d, sb0, i, c / 8));
    assert(block_of(d, sb1, i, c / 8) == block_of(d, sb0, i, c / 8));
    assert forall|sx: int| sx == inode_sector(sb0, dir) || sx == 0 implies clear_of_entries(d, sb1, i, c, sx) by {
        assert(clear_of_entries(d, sb0, i, c, sx));
        assert forall|k: int| 0 <= k < c implies #[trigger] data_sector(sb1, mapped_block(d, sb1, i, k / 8)) != sx by {
            assert(block_of(d, sb1, i, k / 8) == block_of(d, sb0, i, k / 8));
            assert(data_sector(sb0, mapped_block(d, sb0, i, k / 8)) != sx);
        }
        assert forall|k: int| 0 <= k <= c implies !#[trigger] on_path(d, sb1, i, k / 8, sx) by {
            assert(on_path(d, sb1, i, k / 8, sx) == on_path(d, sb0, i, k / 8, sx));
            assert(!on_path(d, sb0, i, k / 8, sx));
        }
    }
    assert(inode_sector(sb1, dir) == inode_sector(sb0, dir));
    assert forall|k: int| 0 <= k < c implies #[trigger] entry_pos(d, sb1, i, k) != entry_pos(d, sb1, i, c) by {
        assert(block_of(d, sb1, i, k / 8) == block_of(d, sb0, i, k / 8));
        assert(entry_pos(d, sb0, i, k) != entry_pos(d, sb0, i, c));
    }
    assert forall|k: int| 0 <= k <= c implies !#[trigger] on_path(d, sb1, i, k / 8, bs) by {
        assert(on_path(d, sb1, i, k / 8, bs) == on_path(d, sb0, i, k / 8, bs));
        assert(!on_path(d, sb0, i, k / 8, bs));
    }
}

/// The entries of a directory, and the block of its next entry, read the
/// same after a change that leaves their bytes and the pointers they are
/// resolved through alone.
proof fn lemma_entries_kept(d0: Seq<u8>, d1: Seq<u8>, sb: Superblock, i: DiskInode, i1: DiskInode, c: int)
    requires
        0 <= c,
        d0.len() == d1.len(),
        i1.direct == i.direct && i1.indirect == i.indirect && i1.double_indirect == i.double_indirect,
        forall|k: int, s: int| 0 <= k <= c && #[trigger] on_path(d0, sb, i, k / 8, s) ==> same_sector(d0, d1, s),
        forall|k: int, j: int| 0 <= k < c && 0 <= j < 64 && 0 <= entry_pos(d0, sb, i, k) + j < d0.len()
            ==> #[trigger] d1[entry_pos(d0, sb, i, k) + j] == d0[entry_pos(d0, sb, i, k) + j],
    ensures
        block_of(d1, sb, i1, c / 8) == block_of(d0, sb, i, c / 8),
        forall|k: int| 0 <= k <= c ==> #[trigger] block_of(d1, sb, i1, k / 8) == block_of(d0, sb, i, k / 8),
        forall|k: int| 0 <= k < c ==> #[trigger] direntry_at(d1, sb, i1, k) == direntry_at(d0, sb, i, k),
{
    assert forall|k: int| 0 <= k <= c implies #[trigger] block_of(d1, sb, i1, k / 8) == block_of(d0, sb, i, k / 8) by {
        lemma_block_of_stable(d0, d1, sb, i, k / 8);
        lemma_block_of_map(d1, sb, i, i1, k / 8);
    }
    assert(block_of(d1, sb, i1, c / 8) == block_of(d0, sb, i, c / 8));
    assert forall|k: int| 0 <= k < c implies #[trigger] direntry_at(d1, sb, i1, k) == direntry_at(d0, sb, i, k) by {
        assert(block_of(d1, sb, i1, k / 8) == block_of(d0, sb, i, k / 8));
        let b = block_of(d0, sb, i, k / 8);
        if b is Ok && b->Ok_0 != 0 && has_sector(d0, data_sector(sb, b->Ok_0)) {
            let ds = data_sector(sb, b->Ok_0);
            let o = 64 * (k % 8);
            assert(0 <= o && o + 64 <= 512);
            assert(entry_pos(d0, sb, i, k) == 512 * ds + o);
            assert(sector_bytes(d1, ds).subrange(o, o + 64) =~= sector_bytes(d0, ds).subrange(o, o + 64)) by {
                assert forall|j: int| 0 <= j < 64 implies #[trigger] sector_bytes(d1, ds).subrange(o, o + 64)[j]
                    == sector_bytes(d0, ds).subrange(o, o + 64)[j] by {
                    assert(d1[entry_pos(d0, sb, i, k) + j] == d0[entry_pos(d0, sb, i, k) + j]);
                }
            }
        }
    }
}

/// A search that found nothing among the first `c` entries finds the
/// entry appended after them when it has the name.
proof fn lemma_find_appended(d0: Seq<u8>, d1: Seq<u8>, sb: Superblock, i: DiskInode, i1: DiskInode, name: Seq<u8>, k: int, e: Seq<u8>)
    requires
        0 <= k <= i.dir_entry_count,
        i1.dir_entry_count == i.dir_entry_count + 1,
        dir_find(d0, sb, i, name, k) == Ok::<Option<u32>, VfsError>(None),
        forall|m: int| k <= m < i.dir_entry_count ==> #[trigger] direntry_at(d1, sb, i1, m) == direntry_at(d0, sb, i, m),
        direntry_at(d1, sb, i1, i.dir_entry_count as int) == Ok::<Seq<u8>, VfsError>(e),
        entry_name(e) == name,
    ensures
        dir_find(d1, sb, i1, name, k) == Ok::<Option<u32>, VfsError>(Some(entry_ino(e))),
    decreases i.dir_entry_count - k,
{
    if k < i.dir_entry_count {
        assert(direntry_at(d1, sb, i1, k) == direntry_at(d0, sb, i, k));
        lemma_find_appended(d0, d1, sb, i, i1, name, k + 1, e);
    }
}

/// A pointer reads the same where its block's sector holds the same bytes.
proof fn lemma_pointer_same(d0: Seq<u8>, d1: Seq<u8>, sb: Superblock, block: u32, slot: int)
    requires
        d0.len() == d1.len(),
        block != 0 ==> same_sector(d0, d1, data_sector(sb, block)),
    ensures
        pointer_at(d1, sb, block, slot) == pointer_at(d0, sb, block, slot),
{
    if block != 0 && has_sector(d0, data_sector(sb, block)) {
        let s = data_sector(sb, block);
        assert forall|x: int| 0 <= x < 512 implies #[trigger] sector_bytes(d1, s)[x] == sector_bytes(d0, s)[x] by {
            assert(d1[512 * s + x] == d0[512 * s + x]);
        }
        assert(sector_bytes(d1, s) =~= sector_bytes(d0, s));
    }
}

/// Resolving logical block `k` reads only the sectors on its path: where
/// they hold the same bytes, it resolves the same, through the same path.
proof fn lemma_block_of_stable(d0: Seq<u8>, d1: Seq<u8>, sb: Superblock, i: DiskInode, k: int)
    requires
        d0.len() == d1.len(),
        forall|s: int| #[trigger] on_path(d0, sb, i, k, s) ==> same_sector(d0, d1, s),
    ensures
        block_of(d1, sb, i, k) == block_of(d0, sb, i, k),
        forall|s: int| #[trigger] on_path(d1, sb, i, k, s) == on_path(d0, sb, i, k, s),
{
    if 8 <= k < 136 && i.indirect != 0 {
        assert(on_path(d0, sb, i, k, data_sector(sb, i.indirect)));
        lemma_pointer_same(d0, d1, sb, i.indirect, k - 8);
    } else if 136 <= k && k - 136 < 16384 && i.double_indirect != 0 {
        assert(on_path(d0, sb, i, k, data_sector(sb, i.double_indirect)));
        lemma_pointer_same(d0, d1, sb, i.double_indirect, (k - 136) / 128);
        let p = pointer_at(d0, sb, i.double_indirect, (k - 136) / 128);
        if p is Ok && p->Ok_0 != 0 {
            assert(on_path(d0, sb, i, k, data_sector(sb, p->Ok_0)));
            lemma_pointer_same(d0, d1, sb, p->Ok_0, (k - 136) % 128);
        }
    }
}

/// One chunk of an overwrite lands where the file maps it, leaves the
/// chunks before it alone and keeps the sectors the range resolves through.
proof fn lemma_mapped_chunk(
    d: Seq<u8>,
    cur: Seq<u8>,
    next: Seq<u8>,
    sb: Superblock,
    ino: u32,
    i: DiskInode,
    offset: int,
    data: Seq<u8>,
    done: int,
    chunk: int,
    pos: int,
    sector: Seq<u8>,
)
    requires
        overwrite_ok(d, sb, ino, i, offset, data.len() as int),
        cur.len() == d.len(),
        mapped_written(cur, d, sb, i, offset, data, done),
        forall|k: int, s: int| offset / 512 <= k <= (offset + data.len() - 1) / 512 && #[trigger] on_path(d, sb, i, k, s)
            ==> same_sector(d, cur, s),
        0 <= done,
        0 < chunk,
        done + chunk <= data.len(),
        pos == offset + done,
        done == 0 || pos % 512 == 0,
        chunk <= 512 - pos % 512,
        sector.len() == 512,
        forall|m: int| 0 <= m < chunk ==> #[trigger] sector[pos % 512 + m] == data[done + m],
        next == with_sector(cur, data_sector(sb, mapped_block(d, sb, i, pos / 512)), sector),
    ensures
        next.len() == d.len(),
        mapped_written(next, d, sb, i, offset, data, done + chunk),
        forall|k: int, s: int| offset / 512 <= k <= (offset + data.len() - 1) / 512 && #[trigger] on_path(d, sb, i, k, s)
            ==> same_sector(d, next, s),
{
    let k = pos / 512;
    let lo = offset / 512;
    let hi = (offset + data.len() - 1) / 512;
    assert(lo <= k <= hi) by (nonlinear_arith)
        requires
            k == pos / 512,
            lo == offset / 512,
            hi == (offset + data.len() - 1) / 512,
            offset <= pos < offset + data.len(),
            0 <= offset,
    ;
    let w = data_sector(sb, mapped_block(d, sb, i, k));
    assert(fits(d.len() as int, w));
    assert(has_sector(cur, w));
    assert(next.len() == d.len()) by {
        lemma_with_sector_index(cur, w, sector, 0);
    }
    assert forall|j: int| 0 <= j < done + chunk implies #[trigger] next[mapped_pos(d, sb, i, offset + j)] == data[j] by {
        let q = offset + j;
        let kj = q / 512;
        assert(lo <= kj <= hi) by (nonlinear_arith)
            requires
                kj == q / 512,
                lo == offset / 512,
                hi == (offset + data.len() - 1) / 512,
                offset <= q < offset + data.len(),
                0 <= offset,
        ;
        let sj = data_sector(sb, mapped_block(d, sb, i, kj));
        assert(fits(d.len() as int, sj));
        assert(0 <= q % 512 < 512);
        let p = mapped_pos(d, sb, i, q);
        assert(p == 512 * sj + q % 512);
        lemma_with_sector_index(cur, w, sector, p);
        if j < done {
            assert(kj < k) by (nonlinear_arith)
                requires
                    kj == q / 512,
                    k == pos / 512,
                    q < pos,
                    pos % 512 == 0,
                    0 <= q,
            ;
            assert(mapped_block(d, sb, i, kj) != mapped_block(d, sb, i, k));
            assert(sj != w);
            assert(!(512 * w <= p < 512 * w + 512)) by (nonlinear_arith)
                requires
                    p == 512 * sj + q % 512,
                    0 <= q % 512 < 512,
                    sj != w,
            ;
        } else {
            let m = j - done;
            assert(kj == k && q % 512 == pos % 512 + m) by (nonlinear_arith)
                requires
                    q == pos + m,
                    0 <= m < chunk,
                    chunk <= 512 - pos % 512,
                    kj == q / 512,
                    k == pos / 512,
                    0 <= pos,
            ;
            assert(sector[pos % 512 + m] == data[done + m]);
        }
    }
    assert forall|k2: int, s: int| lo <= k2 <= hi && #[trigger] on_path(d, sb, i, k2, s) implies same_sector(d, next, s) by {
        assert(s != data_sector(sb, mapped_block(d, sb, i, k)));
        assert(same_sector(d, cur, s));
        assert forall|x: int| 512 * s <= x < 512 * s + 512 && 0 <= x < d.len() implies #[trigger] next[x] == d[x] by {
            lemma_with_sector_index(cur, w, sector, x);
            assert(!(512 * w <= x < 512 * w + 512)) by (nonlinear_arith)
                requires
                    512 * s <= x < 512 * s + 512,
                    s != w,
            ;
            assert(cur[x] == d[x]);
        }
    }
}

/// Rewriting the inode record (with the same block map) after an overwrite
/// keeps the range mapped as before, on the device, and reading as the
/// bytes written.
proof fn lemma_overwrite_after_inode_write(
    d: Seq<u8>,
    dprev: Seq<u8>,
    dfin: Seq<u8>,
    sb: Superblock,
    ino: u32,
    i: DiskInode,
    j: DiskInode,
    offset: int,
    data: Seq<u8>,
)
    requires
        overwrite_ok(d, sb, ino, i, offset, data.len() as int),
        dprev.len() == d.len(),
        dfin.len() == d.len(),
        mapped_written(dprev, d, sb, i, offset, data, data.len() as int),
        forall|k: int, s: int| offset / 512 <= k <= (offset + data.len() - 1) / 512 && #[trigger] on_path(d, sb, i, k, s)
            ==> same_sector(d, dprev, s),
        j.direct == i.direct,
        j.indirect == i.indirect,
        j.double_indirect == i.double_indirect,
        forall|x: int| 0 <= x < dprev.len()
            && !(512 * inode_sector(sb, ino) + inode_offset(ino) <= x < 512 * inode_sector(sb, ino) + inode_offset(ino) + 128)
            ==> #[trigger] dfin[x] == dprev[x],
    ensures
        range_mapped(dfin, sb, j, offset, data.len() as int),
        forall|k: int| 0 <= k < data.len() ==> #[trigger] file_byte(dfin, sb, j, offset + k) == data[k],
{
    let lo = offset / 512;
    let hi = (offset + data.len() - 1) / 512;
    let isec = inode_sector(sb, ino);
    let ip = 512 * isec + inode_offset(ino);
    assert(0 <= inode_offset(ino) <= 384);
    assert forall|kk: int| lo <= kk <= hi implies #[trigger] block_of(dfin, sb, j, kk) == block_of(d, sb, i, kk) by {
        assert forall|s: int| #[trigger] on_path(d, sb, i, kk, s) implies same_sector(d, dfin, s) by {
            assert(s != isec);
            assert(same_sector(d, dprev, s));
            assert forall|x: int| 512 * s <= x < 512 * s + 512 && 0 <= x < d.len() implies #[trigger] dfin[x] == d[x] by {
                assert(!(ip <= x < ip + 128)) by (nonlinear_arith)
                    requires
                        512 * s <= x < 512 * s + 512,
                        ip == 512 * isec + inode_offset(ino),
                        0 <= inode_offset(ino) <= 384,
                        s != isec,
                ;
                assert(dprev[x] == d[x]);
            }
        }
        lemma_block_of_stable(d, dfin, sb, i, kk);
        lemma_block_of_map(dfin, sb, i, j, kk);
    }
    assert forall|kk: int| lo <= kk <= hi implies {
        &&& #[trigger] block_of(dfin, sb, j, kk) is Ok
        &&& mapped_block(dfin, sb, j, kk) != 0
        &&& has_sector(dfin, data_sector(sb, mapped_block(dfin, sb, j, kk)))
    } by {
        assert(block_of(dfin, sb, j, kk) == block_of(d, sb, i, kk));
        assert(block_of(d, sb, i, kk) is Ok && mapped_block(d, sb, i, kk) != 0);
        assert(fits(d.len() as int, data_sector(sb, mapped_block(d, sb, i, kk))));
    }
    assert forall|k: int| 0 <= k < data.len() implies #[trigger] file_byte(dfin, sb, j, offset + k) == data[k] by {
        let q = offset + k;
        let kq = q / 512;
        assert(lo <= kq <= hi) by (nonlinear_arith)
            requires
                kq == q / 512,
                lo == offset / 512,
                hi == (offset + data.len() - 1) / 512,
                offset <= q < offset + data.len(),
                0 <= offset,
        ;
        assert(block_of(dfin, sb, j, kq) == block_of(d, sb, i, kq));
        let b = mapped_block(d, sb, i, kq);
        let s = data_sector(sb, b);
        assert(b != 0);
        assert(fits(d.len() as int, s));
        assert(s != isec);
        let p = mapped_pos(d, sb, i, q);
        assert(dprev[p] == data[k]);
        assert(0 <= q % 512 < 512);
        assert(p == 512 * s + q % 512);
        assert(!(ip <= p < ip + 128)) by (nonlinear_arith)
            requires
                p == 512 * s + q % 512,
                0 <= q % 512 < 512,
                ip == 512 * isec + inode_offset(ino),
                0 <= inode_offset(ino) <= 384,
                s != isec,
        ;
        assert(dfin[p] == dprev[p]);
    }
}

/// Reading a range whose blocks all resolve to blocks on the device reads
/// all of it.
proof fn lemma_read_run_mapped(d: Seq<u8>, sb: Superblock, j: DiskInode, pos: int, rem: int)
    requires
        0 <= pos,
        rem >= 0,
        range_mapped(d, sb, j, pos, rem),
    ensures
        read_run(d, sb, j, pos, rem) == Ok::<int, VfsError>(rem),
    decreases rem,
{
    if rem > 0 {
        let chunk = if 512 - pos % 512 < rem { 512 - pos % 512 } else { rem };
        let k = pos / 512;
        assert(pos / 512 <= k <= (pos + rem - 1) / 512) by (nonlinear_arith)
            requires
                k == pos / 512,
                rem > 0,
                pos >= 0,
        ;
        assert(block_of(d, sb, j, k) is Ok);
        if rem - chunk > 0 {
            assert forall|k2: int| (pos + chunk) / 512 <= k2 <= (pos + chunk + (rem - chunk) - 1) / 512 implies {
                &&& #[trigger] block_of(d, sb, j, k2) is Ok
                &&& mapped_block(d, sb, j, k2) != 0
                &&& has_sector(d, data_sector(sb, mapped_block(d, sb, j, k2)))
            } by {
                assert(pos / 512 <= (pos + chunk) / 512) by (nonlinear_arith)
                    requires
                        chunk > 0,
                        pos >= 0,
                ;
            }
        }
        lemma_read_run_mapped(d, sb, j, pos + chunk, rem - chunk);
    }
}

/// A range in distinct direct blocks on the device is mapped.
proof fn lemma_direct_range_mapped(d: Seq<u8>, sb: Superblock, ino: u32, j: DiskInode, offset: int, len: int)
    requires
        direct_range_ok(d.len() as int, sb, ino, j, offset, len),
    ensures
        range_mapped(d, sb, j, offset, len),
{
    assert forall|k: int| offset / 512 <= k <= (offset + len - 1) / 512 implies {
        &&& #[trigger] block_of(d, sb, j, k) is Ok
        &&& mapped_block(d, sb, j, k) != 0
        &&& has_sector(d, data_sector(sb, mapped_block(d, sb, j, k)))
    } by {
        assert(k < 8) by (nonlinear_arith)
            requires
                k <= (offset + len - 1) / 512,
                offset + len <= 4096,
                len > 0,
                offset >= 0,
        ;
        assert(fits(d.len() as int, data_sector(sb, j.direct@[k])));
    }
}

/// Block resolution looks only at an inode's block map.
proof fn lemma_block_of_map(d: Seq<u8>, sb: Superblock, i: DiskInode, j: DiskInode, k: int)
    requires
        i.direct == j.direct,
        i.indirect == j.indirect,
        i.double_indirect == j.double_indirect,
    ensures
        block_of(d, sb, i, k) == block_of(d, sb, j, k),
        forall|s: int| #[trigger] on_path(d, sb, i, k, s) == on_path(d, sb, j, k, s),
{
}

/// What a file was written with is what reading it gives back: after
/// `write_file` succeeded, where every block of the written range
/// resolves to a block on the device, `read_file` of the same range
/// reads the whole range, and every byte it reads is the byte written.
pub proof fn lemma_write_then_read(
    d: Seq<u8>,
    sb: Superblock,
    ino: u32,
    before: DiskInode,
    offset: u64,
    data: Seq<u8>,
)
    requires
        before.itype == ITYPE_FILE,
        grown_to(d, sb, ino, before, offset + data.len()),
        range_mapped(d, sb, inode_at(d, sb, ino)->Ok_0, offset as int, data.len() as int),
        forall|k: int| 0 <= k < data.len() ==> #[trigger] file_byte(d, sb, inode_at(d, sb, ino)->Ok_0, offset + k) == data[k],
    ensures
        read_file_result(d, sb, ino, offset, data.len() as int) == Ok::<int, VfsError>(data.len() as int),
        forall|k: int| 0 <= k < data.len() ==> #[trigger] file_byte(d, sb, inode_at(d, sb, ino)->Ok_0, offset + k) == data[k],
{
    let j = inode_at(d, sb, ino)->Ok_0;
    assert(j.itype == ITYPE_FILE);
    if data.len() > 0 {
        let hi = (offset + data.len() - 1) / 512;
        assert(offset / 512 <= hi) by (nonlinear_arith)
            requires
                hi == (offset + data.len() - 1) / 512,
                data.len() > 0,
        ;
        assert(block_of(d, sb, j, hi) is Ok);
        assert(offset + data.len() <= 512 * (hi + 1)) by (nonlinear_arith)
            requires
                hi == (offset + data.len() - 1) / 512,
                data.len() > 0,
        ;
        assert(j.size >= offset + data.len());
    }
    lemma_read_run_mapped(d, sb, j, offset as int, data.len() as int);
}

/// What `inode_metadata` reports is the inode record's own: its owner,
/// group, size, link count and permission bits, under its inode number.
pub proof fn lemma_metadata_reports_record(ino: u32, i: DiskInode)
    ensures
        metadata_of(ino, i).ino == ino,
        metadata_of(ino, i).uid == i.uid,
        metadata_of(ino, i).gid == i.gid,
        metadata_of(ino, i).size == i.size,
        metadata_of(ino, i).nlink == i.nlink,
        metadata_of(ino, i).mode.0 == (i.mode as u32) & 0o7777,
{
}

/// Setting an inode's mode, owner and group (what `set_inode_metadata`
/// writes) and reading its metadata back: the owner and the permission
/// bits read back as set, and so does the lower half of the group. The
/// whole group reads back as set when it fits in 16 bits and the lower
/// half of the inode's first block pointer is zero (an empty file, for
/// one): the record keeps the group at bytes 14..18 and the first pointer
/// at bytes 16..20, and the pointer is written last.
pub proof fn lemma_set_then_read_owner(
    d0: Seq<u8>,
    d1: Seq<u8>,
    sb: Superblock,
    ino: u32,
    i: DiskInode,
    meta: InodeMetadata,
)
    requires
        inode_at(d0, sb, ino) == Ok::<DiskInode, VfsError>(i),
        i.itype != ITYPE_FREE,
        inode_written(d0, d1, sb, ino, DiskInode { mode: (meta.mode.0 & 0o7777) as u16, uid: meta.uid, gid: meta.gid, ..i }),
    ensures
        inode_at(d1, sb, ino) is Ok,
        inode_at(d1, sb, ino)->Ok_0.itype == i.itype,
        metadata_of(ino, inode_at(d1, sb, ino)->Ok_0).uid == meta.uid,
        metadata_of(ino, inode_at(d1, sb, ino)->Ok_0).gid % 65536 == meta.gid % 65536,
        meta.gid < 65536 && i.direct@[0] % 65536 == 0 ==> metadata_of(ino, inode_at(d1, sb, ino)->Ok_0).gid == meta.gid,
        metadata_of(ino, inode_at(d1, sb, ino)->Ok_0).mode.0 == meta.mode.0 & 0o7777,
        metadata_of(ino, inode_at(d1, sb, ino)->Ok_0).size == i.size,
        metadata_of(ino, inode_at(d1, sb, ino)->Ok_0).nlink == i.nlink,
{
    let rec = DiskInode { mode: (meta.mode.0 & 0o7777) as u16, uid: meta.uid, gid: meta.gid, ..i };
    lemma_write_then_read_inode(d0, d1, sb, ino, rec, if ino == 0 { 1 } else { 0 });
    let r = inode_at(d1, sb, ino)->Ok_0;
    assert(r == as_stored(rec));
    let g = meta.gid;
    let p = i.direct@[0];
    assert(g % 65536 + (p % 65536) * 65536 < 0x1_0000_0000) by (nonlinear_arith)
        requires
            0 <= g % 65536 < 65536,
            0 <= p % 65536 < 65536;
    assert(r.gid == g % 65536 + (p % 65536) * 65536);
    assert((g % 65536 + (p % 65536) * 65536) % 65536 == g % 65536) by (nonlinear_arith)
        requires
            0 <= g % 65536 < 65536,
            0 <= p % 65536;
    let m = meta.mode.0;
    assert((((m & 0o7777) as u16) as u32) & 0o7777 == m & 0o7777) by (bit_vector);
}

} // verus!
