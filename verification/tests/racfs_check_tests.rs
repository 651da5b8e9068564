use lib::vfs::racfs::{direntry_from_bytes, inode_from_bytes, inode_to_bytes, DiskInode};
use lib::vfs::racfs_volume::Racfs;

const SECTORS: usize = 2048;

fn formatted() -> Racfs {
    Racfs::format_and_new(vec![0u8; SECTORS * 512]).unwrap()
}

/// A volume with `/a` (3 KiB), `/d/`, `/d/b` (a few bytes) and an empty
/// `/z`.
fn populated() -> (Racfs, u32, u32, u32) {
    let mut fs = formatted();
    let a = fs.create_file(0, "a").unwrap();
    fs.write_file(a, 0, &vec![7u8; 3072]).unwrap();
    let d = fs.create_dir(0, "d").unwrap();
    let b = fs.create_file(d, "b").unwrap();
    fs.write_file(b, 0, b"bee").unwrap();
    // Creating an entry writes the superblock back, free count included.
    fs.create_file(0, "z").unwrap();
    (fs, a, d, b)
}

fn inode_of(dev: &[u8], fs_inode_start: u32, ino: u32) -> DiskInode {
    let p = fs_inode_start as usize * 512 + ino as usize * 128;
    inode_from_bytes(&dev[p..p + 128])
}

fn put_inode(dev: &mut [u8], fs_inode_start: u32, ino: u32, i: &DiskInode) {
    let p = fs_inode_start as usize * 512 + ino as usize * 128;
    dev[p..p + 128].copy_from_slice(&inode_to_bytes(i));
}

fn flip_bit(dev: &mut [u8], bitmap_start: u32, block: u32) {
    let idx = (block - 1) as usize;
    let p = (bitmap_start as usize + idx / 4096) * 512 + (idx % 4096) / 8;
    dev[p] ^= 1 << (idx % 8);
}

#[test]
fn fresh_and_populated_volumes_are_clean() {
    let fs = formatted();
    let r = fs.check().unwrap();
    assert!(r.is_clean());
    assert!(!r.is_dangerous());
    let (fs, _, _, _) = populated();
    let r = fs.check().unwrap();
    assert!(r.is_clean(), "{:?}", r);
    assert_eq!(r.unaddressable_blocks, 0);
}

#[test]
fn bitmap_disagreements_are_counted() {
    let (fs, a, _, _) = populated();
    let sb = fs.superblock();
    let mut dev = fs.into_device();
    let ia = inode_of(&dev, sb.inode_start, a);
    // A used block the bitmap calls free.
    flip_bit(&mut dev, sb.bitmap_start, ia.direct[0]);
    // A free block the bitmap calls used.
    flip_bit(&mut dev, sb.bitmap_start, sb.data_block_count - 1);
    let fs = Racfs::open(dev).unwrap();
    let r = fs.check().unwrap();
    assert_eq!(r.unallocated_in_use, 1);
    assert_eq!(r.leaked_blocks, 1);
    assert_eq!(r.superblock_free_blocks_drift, 0);
    assert!(r.is_dangerous());
    assert!(!r.is_clean());
}

#[test]
fn drift_compares_used_counts() {
    let (fs, _, _, _) = populated();
    let sb = fs.superblock();
    let mut dev = fs.into_device();
    flip_bit(&mut dev, sb.bitmap_start, sb.data_block_count - 1);
    let fs = Racfs::open(dev).unwrap();
    let r = fs.check().unwrap();
    assert_eq!(r.leaked_blocks, 1);
    assert_eq!(r.superblock_free_blocks_drift, -1);
}

#[test]
fn shared_and_wild_blocks_are_doubly_claimed() {
    let (fs, a, _, b) = populated();
    let sb = fs.superblock();
    let mut dev = fs.into_device();
    let ia = inode_of(&dev, sb.inode_start, a);
    let mut ib = inode_of(&dev, sb.inode_start, b);
    let old_b = ib.direct[0];
    ib.direct[0] = ia.direct[0];
    ib.direct[1] = sb.data_block_count + 10;
    put_inode(&mut dev, sb.inode_start, b, &ib);
    let fs = Racfs::open(dev).unwrap();
    let r = fs.check().unwrap();
    assert_eq!(r.doubly_claimed, 2);
    assert_eq!(r.leaked_blocks, 1);
    assert!(old_b != ia.direct[0]);
}

#[test]
fn bad_directory_entries_are_counted() {
    let (fs, _, d, b) = populated();
    let sb = fs.superblock();
    let mut dev = fs.into_device();
    // Free /d/b's inode behind the directory's back.
    let mut ib = inode_of(&dev, sb.inode_start, b);
    ib.itype = 0;
    ib.direct = [0; 8];
    put_inode(&mut dev, sb.inode_start, b, &ib);
    let id = inode_of(&dev, sb.inode_start, d);
    let fs = Racfs::open(dev.clone()).unwrap();
    let r = fs.check().unwrap();
    assert_eq!(r.dangling_entries, 1);
    assert_eq!(r.out_of_range_entries, 0);
    // Point the entry past the inode table instead.
    let entry_pos = (sb.data_start as usize + id.direct[0] as usize - 1) * 512;
    let mut found = None;
    for k in 0..8 {
        let e = direntry_from_bytes(&dev[entry_pos + 64 * k..entry_pos + 64 * k + 64]);
        if e.ino == b && e.name_len > 0 {
            found = Some(k);
        }
    }
    let k = found.unwrap();
    dev[entry_pos + 64 * k..entry_pos + 64 * k + 4].copy_from_slice(&(sb.inode_count + 5).to_le_bytes());
    let fs = Racfs::open(dev).unwrap();
    let r = fs.check().unwrap();
    assert_eq!(r.out_of_range_entries, 1);
    assert_eq!(r.dangling_entries, 0);
}

#[test]
fn owned_blocks_lists_data_and_pointer_blocks() {
    let mut fs = formatted();
    let a = fs.create_file(0, "big").unwrap();
    fs.write_file(a, 0, &vec![1u8; 512 * 10]).unwrap();
    let i = fs.read_inode(a).unwrap();
    let blocks = fs.owned_blocks(&i);
    // Eight direct blocks, the indirect block and the two blocks it maps.
    assert_eq!(blocks.len(), 11);
    assert_eq!(blocks[8], i.indirect);
    assert!(blocks.iter().all(|b| *b != 0));
}
