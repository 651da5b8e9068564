pub mod devfs;
pub mod fat32;
pub mod fat32_dir;
pub mod fat32_format;
pub mod fat32_inode;
pub mod fat32_volume;
pub mod file;
pub mod initramfs;
pub mod inode;
pub mod mount;
pub mod path;
pub mod pipe;
pub mod procfs;
pub mod racfs;
pub mod racfs_check;
pub mod racfs_volume;
pub mod socket;
pub mod tmpfs;
pub mod boot_count;
