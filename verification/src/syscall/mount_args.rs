//! The decisions `mount` makes on its arguments, once they have been read
//! from user memory: who may mount, where, and what.

use vstd::prelude::*;
use crate::encoding::{str_eq, trim_end_from, trim_end_char};
use crate::syscall::error::SyscallError;

verus! {

/// The filesystems `mount` can attach.
#[derive(Debug, Clone, Copy, PartialEq, Eq, Structural)]
pub enum FsKind {
    Tmpfs,
    Racfs,
    Procfs,
    Devfs,
    Fat32,
}

/// A mount target without its trailing slashes; the root stays "/".
pub open spec fn normalized_target(t: Seq<char>) -> Seq<char> {
    if t.len() > 1 { trim_end_char(t, '/') } else { t }
}

/// The mount point `mount` uses: EPERM without CAP_SYS_ADMIN (the outcome
/// of the capability check is `cap_sys_admin`), EINVAL for a target that
/// is not absolute; else the target without trailing slashes.
pub fn mount_target(cap_sys_admin: bool, target: &str) -> (r: Result<String, SyscallError>)
    ensures
        !cap_sys_admin ==> r == Err::<String, SyscallError>(SyscallError::EPERM),
        cap_sys_admin && (target@.len() == 0 || target@[0] != '/') ==> r == Err::<String, SyscallError>(SyscallError::EINVAL),
        cap_sys_admin && target@.len() > 0 && target@[0] == '/' ==> (r matches Ok(s) && s@ == normalized_target(target@)),
{
    if !cap_sys_admin {
        return Err(SyscallError::EPERM);
    }
    let n = target.unicode_len();
    if n == 0 || target.get_char(0) != '/' {
        return Err(SyscallError::EINVAL);
    }
    if n == 1 {
        return Ok(target.to_owned());
    }
    let b = trim_end_from(target, 0, '/');
    assert(target@.subrange(0, n as int) =~= target@);
    Ok(target.substring_char(0, b).to_owned())
}

/// The filesystem kind a type name selects: "tmpfs", "racfs", "proc" or
/// "procfs", "dev" or "devfs", "fat" or "fat32".
pub open spec fn fs_kind_of(t: Seq<char>) -> Option<FsKind> {
    if t == "tmpfs"@ {
        Some(FsKind::Tmpfs)
    } else if t == "racfs"@ {
        Some(FsKind::Racfs)
    } else if t == "proc"@ || t == "procfs"@ {
        Some(FsKind::Procfs)
    } else if t == "dev"@ || t == "devfs"@ {
        Some(FsKind::Devfs)
    } else if t == "fat"@ || t == "fat32"@ {
        Some(FsKind::Fat32)
    } else {
        None
    }
}

/// The block device name a FAT source names: without a leading `/dev/`.
pub open spec fn device_name(src: Seq<char>) -> Seq<char> {
    if src.len() >= 5 && src.subrange(0, 5) == "/dev/"@ { src.skip(5) } else { src }
}

/// What `mount` attaches: EINVAL for an unknown type, and for a FAT mount
/// without a source or with an empty one; else the kind, and for FAT the
/// name of the block device to mount.
pub fn mount_source(fstype: &str, src: Option<&str>) -> (r: Result<(FsKind, Option<String>), SyscallError>)
    ensures
        match fs_kind_of(fstype@) {
            None => r == Err::<(FsKind, Option<String>), SyscallError>(SyscallError::EINVAL),
            Some(FsKind::Fat32) => match src {
                None => r == Err::<(FsKind, Option<String>), SyscallError>(SyscallError::EINVAL),
                Some(s) => if s@.len() == 0 {
                    r == Err::<(FsKind, Option<String>), SyscallError>(SyscallError::EINVAL)
                } else {
                    (r matches Ok((k, Some(d))) && k == FsKind::Fat32 && d@ == device_name(s@))
                },
            },
            Some(k) => (r matches Ok((k2, None)) && k2 == k),
        },
{
    if str_eq(fstype, "tmpfs") {
        return Ok((FsKind::Tmpfs, None));
    }
    if str_eq(fstype, "racfs") {
        return Ok((FsKind::Racfs, None));
    }
    if str_eq(fstype, "proc") || str_eq(fstype, "procfs") {
        return Ok((FsKind::Procfs, None));
    }
    if str_eq(fstype, "dev") || str_eq(fstype, "devfs") {
        return Ok((FsKind::Devfs, None));
    }
    if !(str_eq(fstype, "fat") || str_eq(fstype, "fat32")) {
        return Err(SyscallError::EINVAL);
    }
    let s = match src {
        None => return Err(SyscallError::EINVAL),
        Some(s) => s,
    };
    let n = s.unicode_len();
    if n == 0 {
        return Err(SyscallError::EINVAL);
    }
    if n >= 5 {
        let head = s.substring_char(0, 5);
        if str_eq(head, "/dev/") {
            return Ok((FsKind::Fat32, Some(s.substring_char(5, n).to_owned())));
        }
    }
    Ok((FsKind::Fat32, Some(s.to_owned())))
}

} // verus!
