//! The descriptor work of `spawn`: putting a file at an exact descriptor
//! number, and giving a new process the console as any of its standard
//! streams it lacks.

use vstd::prelude::*;
use crate::syscall::error::SyscallError;
use crate::syscall::handlers::map_vfs_error;
use crate::vfs::file::{FdTable, MAX_FDS};

verus! {

/// Put `file` at descriptor `target`, closing what was there: it is taken
/// into the lowest free slot and, when that is not `target`, duplicated
/// onto `target` and closed again. Every other descriptor is kept. When
/// every slot below `target` is taken, `file` itself lands at `target`.
pub fn install_fd_exact<F: Clone>(fds: &mut FdTable<F>, target: i32, file: F) -> (r: Result<(), SyscallError>)
    requires
        0 <= target < MAX_FDS,
    ensures
        r is Ok,
        final(fds).view().len() == MAX_FDS,
        final(fds).view()[target as int] is Some,
        final(fds).view()[target as int]->0 == file || cloned::<F>(file, final(fds).view()[target as int]->0),
        (forall|j: int| 0 <= j < target ==> #[trigger] old(fds).view()[j] is Some)
            ==> final(fds).view()[target as int] == Some(file),
        forall|j: int| 0 <= j < MAX_FDS && j != target ==> #[trigger] final(fds).view()[j] == old(fds).view()[j],
{
    let ghost v0 = fds.view();
    let _ = fds.close(target);
    let ghost v1 = fds.view();
    assert(v1[target as int] is None);
    assert forall|j: int| 0 <= j < MAX_FDS && j != target implies #[trigger] v1[j] == v0[j] by {}
    let allocated = match fds.alloc_fd(file) {
        Ok(fd) => fd,
        Err(e) => {
            assert(v1[target as int] is Some);
            return Err(map_vfs_error(e));
        },
    };
    assert(allocated <= target) by {
        if allocated > target {
            assert(v1[target as int] is Some);
        }
    }
    if allocated != target {
        let ghost v2 = fds.view();
        match fds.dup2(allocated, target) {
            Ok(_) => {},
            Err(e) => {
                assert(v2[allocated as int] is Some);
                return Err(map_vfs_error(e));
            },
        }
        let _ = fds.close(allocated);
        proof {
            assert(v0[allocated as int] is None);
            assert(v1[allocated as int] is None);
        }
    }
    Ok(())
}

/// Give `fds` the console as each standard stream (descriptors 0, 1 and 2)
/// it does not have open: `console` holds the console opened read-only for
/// stdin and write-only for stdout and stderr, None when there is no
/// console to open. Open streams, and every other descriptor, are kept.
pub fn ensure_console_stdio<F: Clone>(fds: &mut FdTable<F>, console: Option<(F, F, F)>)
    ensures
        final(fds).view().len() == MAX_FDS,
        forall|j: int| 3 <= j < MAX_FDS ==> #[trigger] final(fds).view()[j] == old(fds).view()[j],
        forall|j: int| 0 <= j < 3 && #[trigger] old(fds).view()[j] is Some ==> final(fds).view()[j] == old(fds).view()[j],
        console is None ==> final(fds).view() == old(fds).view(),
        console matches Some((i, o, e)) ==> {
            &&& old(fds).view()[0] is None ==> final(fds).view()[0] == Some(i)
            &&& old(fds).view()[1] is None ==> final(fds).view()[1] == Some(o)
            &&& old(fds).view()[2] is None ==> final(fds).view()[2] == Some(e)
        },
{
    let need_stdin = fds.get(0).is_err();
    let need_stdout = fds.get(1).is_err();
    let need_stderr = fds.get(2).is_err();
    let ghost v0 = fds.view();
    if !(need_stdin || need_stdout || need_stderr) {
        return;
    }
    let (stdin, stdout, stderr) = match console {
        Some(files) => files,
        None => return,
    };
    if need_stdin {
        let _ = install_fd_exact(fds, 0, stdin);
    }
    let ghost v1 = fds.view();
    assert(v1[0] is Some);
    if need_stdout {
        let _ = install_fd_exact(fds, 1, stdout);
    }
    let ghost v2 = fds.view();
    assert(v2[0] is Some && v2[1] is Some);
    if need_stderr {
        let _ = install_fd_exact(fds, 2, stderr);
    }
}

} // verus!
