use lib::vfs::fat32::{boot_sector, format_fat32, Fat32Fs};
use lib::vfs::inode::VfsError;

/// A small formatted volume whose file chain is 3 -> 5 -> 4 (EOC), with
/// cluster 3 holding 'a's, 5 'b's and 4 'c's.
fn volume() -> (Fat32Fs, Vec<u8>) {
    let total = 65536u64;
    let bpb = format_fat32(total, "test").unwrap();
    let boot = boot_sector(&bpb);
    let fs = Fat32Fs::new(&boot).unwrap();
    let mut disk = vec![0u8; (fs.data_offset as usize + 16 * fs.bpb.sectors_per_cluster as usize) * 512];
    disk[..512].copy_from_slice(&boot);
    let fat = fs.fat_offset as usize * 512;
    let set = |d: &mut Vec<u8>, c: usize, v: u32| d[fat + c * 4..fat + c * 4 + 4].copy_from_slice(&v.to_le_bytes());
    set(&mut disk, 2, 0x0FFF_FFFF);
    set(&mut disk, 3, 5);
    set(&mut disk, 5, 4);
    set(&mut disk, 4, 0x0FFF_FFFF);
    let cs = fs.cluster_size as usize;
    for (c, b) in [(3usize, b'a'), (5, b'b'), (4, b'c')] {
        let lba = fs.cluster_to_lba(c as u32) as usize;
        disk[lba * 512..lba * 512 + cs].fill(b);
    }
    (fs, disk)
}

#[test]
fn next_cluster_follows_fat() {
    let (fs, disk) = volume();
    assert_eq!(fs.next_cluster(&disk, 3), Ok(5));
    assert_eq!(fs.next_cluster(&disk, 5), Ok(4));
    assert_eq!(fs.next_cluster(&disk, 4), Ok(0x0FFF_FFFF));
    assert_eq!(fs.next_cluster(&vec![0u8; 512], 3), Err(VfsError::IoError));
}

#[test]
fn read_chain_walks_clusters() {
    let (fs, disk) = volume();
    let cs = fs.cluster_size as usize;
    let mut buf = vec![0u8; 3 * cs + 10];
    assert_eq!(fs.read_chain(&disk, 3, 0, &mut buf), Ok(3 * cs));
    assert!(buf[..cs].iter().all(|b| *b == b'a'));
    assert!(buf[cs..2 * cs].iter().all(|b| *b == b'b'));
    assert!(buf[2 * cs..3 * cs].iter().all(|b| *b == b'c'));
    assert!(buf[3 * cs..].iter().all(|b| *b == 0));
    let mut small = [0u8; 4];
    assert_eq!(fs.read_chain(&disk, 3, (cs - 2) as u64, &mut small), Ok(4));
    assert_eq!(&small, b"aabb");
    assert_eq!(fs.read_chain(&disk, 3, (3 * cs) as u64, &mut small), Ok(0));
    assert_eq!(fs.read_chain(&disk, 0, 0, &mut small), Ok(0));
    let short = disk[..(fs.data_offset as usize + 1) * 512].to_vec();
    assert_eq!(fs.read_chain(&short, 3, 0, &mut small), Err(VfsError::IoError));
}

#[test]
fn write_chain_allocates_and_reads_back() {
    let (fs, mut disk) = volume();
    let cs = fs.cluster_size as usize;
    let data: Vec<u8> = (0..(2 * cs + cs / 2)).map(|i| (i % 249) as u8).collect();
    let (head, n) = fs.write_chain(&mut disk, 0, 0, &data).unwrap();
    assert_eq!(n, data.len());
    assert_eq!(head, 6);
    assert_eq!(fs.next_cluster(&disk, 6), Ok(7));
    assert_eq!(fs.next_cluster(&disk, 7), Ok(8));
    assert_eq!(fs.next_cluster(&disk, 8), Ok(0x0FFF_FFFF));
    let mut back = vec![0u8; data.len()];
    assert_eq!(fs.read_chain(&disk, head, 0, &mut back), Ok(data.len()));
    assert!(back == data);
}

#[test]
fn write_chain_overwrites_and_extends() {
    let (fs, mut disk) = volume();
    let cs = fs.cluster_size as usize;
    let patch = vec![b'z'; 10];
    assert_eq!(fs.write_chain(&mut disk, 3, (cs - 5) as u64, &patch), Ok((3, 10)));
    let mut back = vec![0u8; 12];
    assert_eq!(fs.read_chain(&disk, 3, (cs - 6) as u64, &mut back), Ok(12));
    assert_eq!(&back, b"azzzzzzzzzzb");
    let tail = vec![b'q'; 5];
    assert_eq!(fs.write_chain(&mut disk, 3, (3 * cs) as u64, &tail), Ok((3, 5)));
    assert_eq!(fs.next_cluster(&disk, 4), Ok(6));
    let mut t = vec![0u8; 5];
    assert_eq!(fs.read_chain(&disk, 3, (3 * cs) as u64, &mut t), Ok(5));
    assert_eq!(&t, b"qqqqq");
    assert_eq!(fs.write_chain(&mut disk, 3, 0, &[]), Ok((3, 0)));
}
