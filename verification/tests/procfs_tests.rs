use lib::vfs::procfs::{proc_diskstats_text, proc_file_text, proc_mounts_text, ProcFile};

#[test]
fn uptime_and_counters() {
    assert_eq!(proc_file_text(ProcFile::Uptime, 12_034, 0, 0, 1), "12.034 12.034\n");
    assert_eq!(proc_file_text(ProcFile::Uptime, 5, 0, 0, 1), "0.005 0.005\n");
    assert_eq!(
        proc_file_text(ProcFile::Meminfo, 0, 1000, 250, 1),
        "MemTotal:    4000 kB\nMemFree:     1000 kB\nMemUsed:     3000 kB\nBuffers:     0 kB\nCached:      0 kB\n"
    );
    assert_eq!(
        proc_file_text(ProcFile::Meminfo, 0, 1, 2, 1),
        "MemTotal:    4 kB\nMemFree:     8 kB\nMemUsed:     0 kB\nBuffers:     0 kB\nCached:      0 kB\n"
    );
    assert_eq!(proc_file_text(ProcFile::Stat, 4000, 0, 0, 42), "cpu  100 100 100 100 0 0 0 0 0 0\nprocesses 42\n");
    assert_eq!(proc_file_text(ProcFile::Loadavg, 0, 0, 0, 7), "0.00 0.00 0.00 1/1 7\n");
    assert_eq!(proc_file_text(ProcFile::Version, 0, 0, 0, 0), "RacOS version 0.1.0 (racore) #1\n");
    assert!(proc_file_text(ProcFile::Cpuinfo, 0, 0, 0, 0).starts_with("processor\t: 0\n"));
}

#[test]
fn mounts_and_diskstats() {
    let mounts = vec![
        (String::from("/"), String::from("initramfs")),
        (String::from("/var"), String::from("racfs")),
        (String::from("/mnt"), String::from("racfs")),
        (String::from("/fat"), String::from("fat32")),
    ];
    assert_eq!(
        proc_mounts_text(&mounts),
        "initramfs / initramfs rw 0 0\n/dev/ram0 /var racfs rw 0 0\n/dev/sda /mnt racfs rw 0 0\nnone /fat fat32 rw 0 0\n"
    );
    let disks = vec![(String::from("/"), None), (String::from("/var"), Some((100, 40, 32, 30)))];
    assert_eq!(
        proc_diskstats_text(&disks),
        "# mount total_blocks used_blocks free_blocks total_inodes free_inodes (block=512B)\n/ 0 0 0 0 0\n/var 100 60 40 32 30\n"
    );
}
