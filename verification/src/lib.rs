//! Verified core of the RaCore kernel and its package tools: syscall error
//! mapping, signals, the task table, the VFS building blocks (fd tables,
//! pipes, sockets, tmpfs, the mount table, initramfs, and the FAT32 and
//! racfs volumes with racfs's consistency check) and the `.rpk` /
//! dependency-planning logic of rpkg and rapt.

pub mod pkg;
pub mod syscall;
pub mod task;
pub mod encoding;
pub mod tty;
pub mod vfs;
pub mod libc_lite;
