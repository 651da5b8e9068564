//! VFS inode vocabulary: file types, permission bits, metadata, errors and
//! directory entries shared by every filesystem.

use vstd::prelude::*;

verus! {

/// Inode number type.
pub type InodeNum = u64;

/// File type (its `st_mode` format bits are given by [`FileType::mode_bits`]).
#[derive(Debug, Clone, Copy, PartialEq, Eq, Structural)]
pub enum FileType {
    Regular,
    Directory,
    CharDevice,
    BlockDevice,
    Pipe,
    Socket,
    Symlink,
}

/// The `st_mode` format bits of each file type.
pub open spec fn file_type_bits(t: FileType) -> u32 {
    match t {
        FileType::Regular => 0o100000,
        FileType::Directory => 0o040000,
        FileType::CharDevice => 0o020000,
        FileType::BlockDevice => 0o060000,
        FileType::Pipe => 0o010000,
        FileType::Socket => 0o140000,
        FileType::Symlink => 0o120000,
    }
}

impl FileType {
    /// The `st_mode` format bits of this file type.
    pub fn mode_bits(self) -> (r: u32)
        ensures
            r == file_type_bits(self),
    {
        match self {
            FileType::Regular => 0o100000,
            FileType::Directory => 0o040000,
            FileType::CharDevice => 0o020000,
            FileType::BlockDevice => 0o060000,
            FileType::Pipe => 0o010000,
            FileType::Socket => 0o140000,
            FileType::Symlink => 0o120000,
        }
    }
}

/// File permission bits (only the low twelve bits are ever kept by `new`).
#[derive(Debug, Clone, Copy, PartialEq, Eq, Structural)]
pub struct FileMode(pub u32);

impl FileMode {
    /// Keep the permission, setuid, setgid and sticky bits of `mode`.
    pub fn new(mode: u32) -> (r: FileMode)
        ensures
            r.0 == mode & 0o7777,
    {
        FileMode(mode & 0o7777)
    }

    /// Owner may read.
    pub fn owner_read(&self) -> (r: bool)
        ensures
            r == (self.0 & 0o400 != 0),
    {
        self.0 & 0o400 != 0
    }

    /// Owner may write.
    pub fn owner_write(&self) -> (r: bool)
        ensures
            r == (self.0 & 0o200 != 0),
    {
        self.0 & 0o200 != 0
    }

    /// Owner may execute / search.
    pub fn owner_exec(&self) -> (r: bool)
        ensures
            r == (self.0 & 0o100 != 0),
    {
        self.0 & 0o100 != 0
    }
}

/// Inode metadata.
#[derive(Debug, Clone, Copy, PartialEq, Eq, Structural)]
pub struct InodeMetadata {
    pub ino: InodeNum,
    pub file_type: FileType,
    pub mode: FileMode,
    pub uid: u32,
    pub gid: u32,
    pub size: u64,
    pub nlink: u32,
    pub atime: u64,
    pub mtime: u64,
    pub ctime: u64,
    /// For device nodes: major number.
    pub dev_major: u32,
    /// For device nodes: minor number.
    pub dev_minor: u32,
}

/// Metadata of a fresh inode: mode 0644, owned by root, empty, one link.
pub open spec fn fresh_metadata(ino: InodeNum, file_type: FileType) -> InodeMetadata {
    InodeMetadata {
        ino,
        file_type,
        mode: FileMode(0o644),
        uid: 0,
        gid: 0,
        size: 0,
        nlink: 1,
        atime: 0,
        mtime: 0,
        ctime: 0,
        dev_major: 0,
        dev_minor: 0,
    }
}

impl InodeMetadata {
    /// Metadata of a fresh inode of the given number and type.
    pub fn new(ino: InodeNum, file_type: FileType) -> (r: InodeMetadata)
        ensures
            r == fresh_metadata(ino, file_type),
    {
        let mode = FileMode::new(0o644);
        assert(0o644u32 & 0o7777 == 0o644) by (bit_vector);
        InodeMetadata {
            ino,
            file_type,
            mode,
            uid: 0,
            gid: 0,
            size: 0,
            nlink: 1,
            atime: 0,
            mtime: 0,
            ctime: 0,
            dev_major: 0,
            dev_minor: 0,
        }
    }
}

impl Default for InodeMetadata {
    fn default() -> (r: InodeMetadata)
        ensures
            r == fresh_metadata(0, FileType::Regular),
    {
        InodeMetadata::new(0, FileType::Regular)
    }
}

/// VFS error type.
#[derive(Debug, Clone, Copy, PartialEq, Eq, Structural)]
pub enum VfsError {
    NotFound,
    PermissionDenied,
    NotADirectory,
    IsADirectory,
    AlreadyExists,
    NoSpace,
    IoError,
    NotImplemented,
    InvalidArgument,
    BadFileDescriptor,
    TooManyOpenFiles,
    BrokenPipe,
    WouldBlock,
}

/// Result type for VFS operations.
pub type VfsResult<T> = Result<T, VfsError>;

/// A directory entry.
#[derive(Debug, Clone)]
pub struct DirEntry {
    pub name: String,
    pub ino: InodeNum,
    pub file_type: FileType,
}

} // verus!
