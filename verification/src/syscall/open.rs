//! What `open` decides from the path lookup, the flags and the caller:
//! whether it opens the file found or creates one, the mode and owner of a
//! new file, and the accesses the caller must be granted.

use vstd::prelude::*;
use crate::syscall::error::SyscallError;
use crate::syscall::handlers::{map_vfs_error, vfs_errno};
use crate::task::task::Credentials;
use crate::vfs::file::{ACCESS_MODE_MASK, O_CREAT, O_RDONLY, O_TRUNC, O_WRONLY};
use crate::vfs::inode::{InodeNum, VfsError, VfsResult};

verus! {

/// An access the permission check grants or refuses.
#[derive(Debug, Clone, Copy, PartialEq, Eq, Structural)]
pub enum DacAccess {
    Read,
    Write,
    Execute,
}

/// The file `open` ends up with.
#[derive(Debug, Clone, Copy, PartialEq, Eq, Structural)]
pub enum OpenTarget {
    /// The file the lookup found.
    Existing(InodeNum),
    /// A new regular file, with this mode and owner.
    Create { mode: u32, uid: u32, gid: u32 },
}

/// How `open` proceeds: the target, the accesses the caller needs on the
/// parent directory before a file is created there, and the accesses it
/// needs on the file itself, in the order they are checked.
pub struct OpenPlan {
    pub target: OpenTarget,
    pub parent_checks: Vec<DacAccess>,
    pub file_checks: Vec<DacAccess>,
}

/// The mode of a file `open` creates: the permission bits asked for (0666
/// when none are), less the umask.
pub open spec fn new_file_mode(mode: u32, umask: u32) -> u32 {
    (if mode & 0o7777 != 0 { mode & 0o7777 } else { 0o666u32 }) & !umask
}

/// The accesses opening with `flags` needs on the file: read for O_RDONLY,
/// write for O_WRONLY, both for the other access modes, and write once more
/// for O_TRUNC.
pub open spec fn file_accesses(flags: u32) -> Seq<DacAccess> {
    let access = flags & ACCESS_MODE_MASK;
    let base = if access == O_RDONLY {
        seq![DacAccess::Read]
    } else if access == O_WRONLY {
        seq![DacAccess::Write]
    } else {
        seq![DacAccess::Read, DacAccess::Write]
    };
    if flags & O_TRUNC != 0 { base.push(DacAccess::Write) } else { base }
}

/// The accesses opening with `flags` needs on the file (see
/// [`file_accesses`]).
fn file_checks(flags: u32) -> (r: Vec<DacAccess>)
    ensures
        r@ == file_accesses(flags),
{
    let access = flags & ACCESS_MODE_MASK;
    let mut v: Vec<DacAccess> = Vec::new();
    if access == O_RDONLY {
        v.push(DacAccess::Read);
    } else if access == O_WRONLY {
        v.push(DacAccess::Write);
    } else {
        v.push(DacAccess::Read);
        v.push(DacAccess::Write);
    }
    if flags & O_TRUNC != 0 {
        v.push(DacAccess::Write);
    }
    assert(v@ =~= file_accesses(flags));
    v
}

/// What `open` with `flags` and `mode` does after the path lookup answered
/// `lookup`, for a caller with credentials `creds` and umask `umask`: a
/// file found is opened; a missing one (NotFound) with O_CREAT is created,
/// needing write and search access to its directory, with the mode
/// [`new_file_mode`] and the caller's effective user and group as owner;
/// any other lookup error is returned as its syscall error. Either way the
/// file then needs the accesses [`file_accesses`].
pub fn open_plan(lookup: VfsResult<InodeNum>, flags: u32, mode: u32, umask: u32, creds: Credentials)
    -> (r: Result<OpenPlan, SyscallError>)
    ensures
        match lookup {
            Ok(ino) => r matches Ok(p) && p.target == OpenTarget::Existing(ino) && p.parent_checks@.len() == 0,
            Err(e) => if e == VfsError::NotFound && flags & O_CREAT != 0 {
                r matches Ok(p)
                    && p.target == (OpenTarget::Create { mode: new_file_mode(mode, umask), uid: creds.euid, gid: creds.egid })
                    && p.parent_checks@ == seq![DacAccess::Write, DacAccess::Execute]
            } else {
                r == Err::<OpenPlan, SyscallError>(vfs_errno(e))
            },
        },
        r matches Ok(p) ==> p.file_checks@ == file_accesses(flags),
{
    let target = match lookup {
        Ok(ino) => OpenTarget::Existing(ino),
        Err(e) => {
            if e == VfsError::NotFound && flags & O_CREAT != 0 {
                let base = if mode & 0o7777 != 0 { mode & 0o7777 } else { 0o666 };
                OpenTarget::Create { mode: base & !umask, uid: creds.euid, gid: creds.egid }
            } else {
                return Err(map_vfs_error(e));
            }
        },
    };
    let mut parent_checks: Vec<DacAccess> = Vec::new();
    if let OpenTarget::Create { .. } = target {
        parent_checks.push(DacAccess::Write);
        parent_checks.push(DacAccess::Execute);
        assert(parent_checks@ =~= seq![DacAccess::Write, DacAccess::Execute]);
    }
    Ok(OpenPlan { target, parent_checks, file_checks: file_checks(flags) })
}

} // verus!
