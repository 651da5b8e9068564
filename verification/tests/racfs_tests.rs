use lib::vfs::racfs::{
    direntry_from_bytes, direntry_to_bytes, format_superblock, inode_from_bytes, inode_to_bytes,
    superblock_from_sector, superblock_to_sector, BlockAllocator, DiskDirEntry, DiskInode, FsckReport,
    RACFS_MAGIC,
};
use lib::vfs::inode::VfsError;

#[test]
fn superblock_round_trip() {
    let sb = format_superblock(8192);
    assert_eq!(sb.magic, RACFS_MAGIC);
    let sector = superblock_to_sector(&sb);
    assert_eq!(superblock_from_sector(&sector), sb);
    assert!(sector[40..].iter().all(|b| *b == 0));
}

#[test]
fn format_sizes_bitmap_to_cover_data() {
    let small = format_superblock(2048);
    assert_eq!(small.bitmap_start, 1);
    assert_eq!(small.inode_start, 2);
    assert_eq!(small.data_start, 34);
    assert_eq!(small.data_block_count, 2048 - 34);
    assert_eq!(small.free_inodes, 127);
    let big = format_superblock(20000);
    assert_eq!(big.inode_start - big.bitmap_start, 5);
    assert_eq!(big.data_block_count, 20000 - (1 + 5 + 32));
    assert!(big.addressable_blocks() >= big.data_block_count as usize);
    let stats = big.stats();
    assert_eq!(stats.0, big.data_block_count);
    assert_eq!(stats.2, 128);
    let tiny = format_superblock(10);
    assert_eq!(tiny.data_block_count, 0);
}

#[test]
fn legacy_single_sector_bitmap_stats() {
    let mut sb = format_superblock(20000);
    sb.inode_start = sb.bitmap_start;
    assert_eq!(sb.bitmap_sectors(), 1);
    assert_eq!(sb.addressable_blocks(), 4096);
    let (total, free, _, _) = sb.stats();
    assert_eq!(total, 4096);
    assert_eq!(free, sb.free_blocks - (sb.data_block_count - 4096));
}

#[test]
fn inode_round_trip_and_shared_gid_bytes() {
    let mut direct = [0u32; 8];
    direct[0] = 7;
    direct[7] = 99;
    let ino = DiskInode {
        itype: 1, mode: 0o644, size: 1234, nlink: 1, uid: 1000, gid: 0,
        direct, dir_entry_count: 0, indirect: 42, double_indirect: 0,
    };
    let bytes = inode_to_bytes(&ino);
    let back = inode_from_bytes(&bytes);
    assert_eq!(back.size, 1234);
    assert_eq!(back.direct, direct);
    assert_eq!(back.indirect, 42);
    // The group id's upper half shares bytes 16..18 with direct[0].
    assert_eq!(back.gid, 7 << 16);
    let clean = DiskInode { direct: [0u32; 8], ..ino };
    assert_eq!(inode_from_bytes(&inode_to_bytes(&clean)), clean);
}

#[test]
fn direntry_round_trip_and_clamp() {
    let mut name = [0u8; 56];
    name[..5].copy_from_slice(b"hello");
    name[10] = b'x';
    let de = DiskDirEntry { ino: 3, name_len: 5, name };
    let bytes = direntry_to_bytes(&de);
    let back = direntry_from_bytes(&bytes);
    assert_eq!(back.ino, 3);
    assert_eq!(back.name_len, 5);
    assert_eq!(&back.name[..5], b"hello");
    assert_eq!(back.name[10], 0);
    let mut corrupt = bytes;
    corrupt[4] = 200;
    assert_eq!(direntry_from_bytes(&corrupt).name_len, 56);
}

#[test]
fn fsck_verdicts() {
    let clean = FsckReport::default();
    assert!(clean.is_clean());
    assert!(!clean.is_dangerous());
    let leaky = FsckReport { leaked_blocks: 2, unaddressable_blocks: 9, ..clean };
    assert!(!leaky.is_clean());
    assert!(!leaky.is_dangerous());
    let bad = FsckReport { doubly_claimed: 1, ..clean };
    assert!(bad.is_dangerous());
    let legacy = FsckReport { unaddressable_blocks: 9, ..clean };
    assert!(legacy.is_clean());
}

#[test]
fn allocator_hands_out_reuses_and_refuses() {
    let sb = format_superblock(100);
    let mut a = BlockAllocator::new(sb, vec![0u8; 512]).unwrap();
    assert_eq!(a.alloc_block(), Ok(1));
    assert_eq!(a.alloc_block(), Ok(2));
    assert_eq!(a.alloc_block(), Ok(3));
    assert_eq!(a.free_block(2), Ok(()));
    assert_eq!(a.alloc_block(), Ok(2));
    assert_eq!(a.alloc_block(), Ok(4));
    assert_eq!(a.superblock().free_blocks, sb.free_blocks - 4);
    assert_eq!(a.free_block(0), Ok(()));
    assert_eq!(a.free_block(1000), Err(VfsError::InvalidArgument));
    assert!(BlockAllocator::new(sb, vec![0u8; 10]).is_none());
}

#[test]
fn allocator_runs_out() {
    let sb = format_superblock(36);
    assert_eq!(sb.data_block_count, 2);
    let mut a = BlockAllocator::new(sb, vec![0u8; 512]).unwrap();
    assert_eq!(a.alloc_block(), Ok(1));
    assert_eq!(a.alloc_block(), Ok(2));
    assert_eq!(a.alloc_block(), Err(VfsError::NoSpace));
    assert_eq!(a.free_block(1), Ok(()));
    assert_eq!(a.alloc_block(), Ok(1));
}
