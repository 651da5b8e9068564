//! Per-process file descriptor table and open-file access checks.

use vstd::prelude::*;
use crate::vfs::inode::{InodeNum, VfsError, VfsResult};

verus! {

/// Open file flags.
pub const O_RDONLY: u32 = 0x0000;
pub const O_WRONLY: u32 = 0x0001;
pub const O_RDWR: u32 = 0x0002;
pub const O_CREAT: u32 = 0x0040;
pub const O_TRUNC: u32 = 0x0200;
pub const O_APPEND: u32 = 0x0400;
pub const ACCESS_MODE_MASK: u32 = 0x0003;

/// Maximum file descriptors per process.
pub const MAX_FDS: usize = 256;

/// An open file: which inode, how it was opened, and the current offset.
/// `I` is the inode handle through which the filesystem is reached.
pub struct OpenFile<I> {
    pub inode_num: InodeNum,
    pub inode: I,
    pub flags: u32,
    pub offset: u64,
}

/// How an open file may be used, from its access-mode bits.
pub open spec fn may_read(flags: u32) -> bool {
    flags & ACCESS_MODE_MASK != O_WRONLY
}

/// How an open file may be used, from its access-mode bits.
pub open spec fn may_write(flags: u32) -> bool {
    flags & ACCESS_MODE_MASK != O_RDONLY
}

impl<I> OpenFile<I> {
    /// A file opened with `flags`, positioned at offset 0.
    pub fn new(inode_num: InodeNum, inode: I, flags: u32) -> (r: OpenFile<I>)
        ensures
            r.inode_num == inode_num,
            r.inode == inode,
            r.flags == flags,
            r.offset == 0,
    {
        OpenFile { inode_num, inode, flags, offset: 0 }
    }

    /// Where a read starts, or PermissionDenied on a write-only file.
    pub fn read_start(&self) -> (r: VfsResult<u64>)
        ensures
            may_read(self.flags) ==> r == Ok::<u64, VfsError>(self.offset),
            !may_read(self.flags) ==> r == Err::<u64, VfsError>(VfsError::PermissionDenied),
    {
        if self.flags & ACCESS_MODE_MASK == O_WRONLY {
            return Err(VfsError::PermissionDenied);
        }
        Ok(self.offset)
    }

    /// Where a write starts: the file's size when opened for append, the
    /// current offset otherwise; PermissionDenied on a read-only file.
    /// `size` is the inode's current size.
    pub fn write_start(&self, size: u64) -> (r: VfsResult<u64>)
        ensures
            !may_write(self.flags) ==> r == Err::<u64, VfsError>(VfsError::PermissionDenied),
            may_write(self.flags) && self.flags & O_APPEND != 0 ==> r == Ok::<u64, VfsError>(size),
            may_write(self.flags) && self.flags & O_APPEND == 0 ==> r == Ok::<u64, VfsError>(self.offset),
    {
        if self.flags & ACCESS_MODE_MASK == O_RDONLY {
            return Err(VfsError::PermissionDenied);
        }
        if self.flags & O_APPEND != 0 {
            Ok(size)
        } else {
            Ok(self.offset)
        }
    }

    /// Account for `n` bytes transferred: the offset moves forward by `n`
    /// (wrapping like the atomic counter it models).
    pub fn advance(&mut self, n: usize)
        ensures
            final(self).offset == (old(self).offset as int + n as int) % 0x1_0000_0000_0000_0000,
            final(self).inode_num == old(self).inode_num,
            final(self).inode == old(self).inode,
            final(self).flags == old(self).flags,
    {
        self.offset = self.offset.wrapping_add(n as u64);
    }

    /// The end of a read or write once the inode has answered `r`: the
    /// answer is handed back as it is, and the offset moves forward by the
    /// bytes moved when there were any (wrapping like the atomic counter it
    /// models); an error leaves the offset where it was.
    pub fn finish(&mut self, r: VfsResult<usize>) -> (out: VfsResult<usize>)
        ensures
            out == r,
            r matches Ok(n) ==> final(self).offset == (old(self).offset as int + n as int) % 0x1_0000_0000_0000_0000,
            r is Err ==> final(self).offset == old(self).offset,
            final(self).inode_num == old(self).inode_num,
            final(self).inode == old(self).inode,
            final(self).flags == old(self).flags,
    {
        match r {
            Ok(n) => {
                self.advance(n);
                Ok(n)
            },
            Err(e) => Err(e),
        }
    }
}

/// Per-process file descriptor table: slot `fd` holds what descriptor `fd`
/// refers to, or nothing.
pub struct FdTable<F> {
    entries: Vec<Option<F>>,
}

/// The lowest free slot of a table view.
pub open spec fn is_lowest_free<F>(s: Seq<Option<F>>, i: int) -> bool {
    0 <= i < s.len() && s[i] is None && forall|j: int| 0 <= j < i ==> #[trigger] s[j] is Some
}

/// Descriptor `fd` is open in the table view.
pub open spec fn fd_open<F>(s: Seq<Option<F>>, fd: i32) -> bool {
    0 <= fd < s.len() && s[fd as int] is Some
}

impl<F> FdTable<F> {
    /// A table always has `MAX_FDS` slots.
    #[verifier::type_invariant]
    spec fn full_size(self) -> bool {
        self.entries@.len() == MAX_FDS
    }
}

impl<F: Clone> FdTable<F> {
    /// The slots, by descriptor number.
    pub closed spec fn view(&self) -> Seq<Option<F>> {
        self.entries@
    }

    /// A table of `MAX_FDS` empty slots.
    pub fn new() -> (r: FdTable<F>)
        ensures
            r.view().len() == MAX_FDS,
            forall|i: int| 0 <= i < MAX_FDS ==> #[trigger] r.view()[i] is None,
    {
        let mut entries: Vec<Option<F>> = Vec::with_capacity(MAX_FDS);
        let mut k: usize = 0;
        while k < MAX_FDS
            invariant
                k <= MAX_FDS,
                entries@.len() == k,
                forall|i: int| 0 <= i < k ==> #[trigger] entries@[i] is None,
            decreases MAX_FDS - k,
        {
            entries.push(None);
            k = k + 1;
        }
        FdTable { entries }
    }

    /// Put `file` in the lowest free slot and return its number;
    /// TooManyOpenFiles when every slot is taken.
    pub fn alloc_fd(&mut self, file: F) -> (r: VfsResult<i32>)
        ensures
            old(self).view().len() == MAX_FDS,
            match r {
                Ok(fd) => is_lowest_free(old(self).view(), fd as int)
                    && final(self).view() == old(self).view().update(fd as int, Some(file)),
                Err(e) => e == VfsError::TooManyOpenFiles
                    && final(self).view() == old(self).view()
                    && forall|j: int| 0 <= j < old(self).view().len() ==> #[trigger] old(self).view()[j] is Some,
            },
    {
        proof { use_type_invariant(&*self); }
        let mut i: usize = 0;
        while i < self.entries.len()
            invariant
                i <= self.entries@.len(),
                self.entries@ == old(self).view(),
                self.entries@.len() == MAX_FDS,
                forall|j: int| 0 <= j < i ==> #[trigger] self.entries@[j] is Some,
            decreases self.entries@.len() - i,
        {
            if self.entries[i].is_none() {
                self.entries[i] = Some(file);
                return Ok(i as i32);
            }
            i = i + 1;
        }
        Err(VfsError::TooManyOpenFiles)
    }

    /// What descriptor `fd` refers to; BadFileDescriptor if it is not open.
    pub fn get(&self, fd: i32) -> (r: VfsResult<F>)
        ensures
            fd_open(self.view(), fd) <==> r is Ok,
            r matches Ok(f) ==> cloned::<F>(self.view()[fd as int]->0, f),
            r matches Err(e) ==> e == VfsError::BadFileDescriptor,
            self.view().len() == MAX_FDS,
    {
        proof { use_type_invariant(self); }
        if fd < 0 || fd as usize >= self.entries.len() {
            return Err(VfsError::BadFileDescriptor);
        }
        match &self.entries[fd as usize] {
            Some(f) => Ok(f.clone()),
            None => Err(VfsError::BadFileDescriptor),
        }
    }

    /// Close descriptor `fd`; BadFileDescriptor if it is not open.
    pub fn close(&mut self, fd: i32) -> (r: VfsResult<()>)
        ensures
            fd_open(old(self).view(), fd) <==> r is Ok,
            r is Ok ==> final(self).view() == old(self).view().update(fd as int, None),
            r matches Err(e) ==> e == VfsError::BadFileDescriptor && final(self).view() == old(self).view(),
            old(self).view().len() == MAX_FDS,
    {
        proof { use_type_invariant(&*self); }
        if fd < 0 || fd as usize >= self.entries.len() {
            return Err(VfsError::BadFileDescriptor);
        }
        if self.entries[fd as usize].is_none() {
            return Err(VfsError::BadFileDescriptor);
        }
        self.entries[fd as usize] = None;
        Ok(())
    }

    /// Close every descriptor.
    pub fn close_all(&mut self)
        ensures
            final(self).view().len() == old(self).view().len(),
            old(self).view().len() == MAX_FDS,
            forall|i: int| 0 <= i < final(self).view().len() ==> #[trigger] final(self).view()[i] is None,
    {
        proof { use_type_invariant(&*self); }
        let mut i: usize = 0;
        while i < self.entries.len()
            invariant
                i <= self.entries@.len(),
                self.entries@.len() == old(self).view().len(),
                self.entries@.len() == MAX_FDS,
                forall|j: int| 0 <= j < i ==> #[trigger] self.entries@[j] is None,
            decreases self.entries@.len() - i,
        {
            self.entries[i] = None;
            i = i + 1;
        }
    }

    /// Duplicate `oldfd` into the lowest free slot.
    pub fn dup(&mut self, oldfd: i32) -> (r: VfsResult<i32>)
        ensures
            old(self).view().len() == MAX_FDS,
            !fd_open(old(self).view(), oldfd) ==> r == Err::<i32, VfsError>(VfsError::BadFileDescriptor)
                && final(self).view() == old(self).view(),
            fd_open(old(self).view(), oldfd) ==> match r {
                Ok(fd) => is_lowest_free(old(self).view(), fd as int)
                    && final(self).view().len() == old(self).view().len()
                    && final(self).view()[fd as int] is Some
                    && cloned::<F>(old(self).view()[oldfd as int]->0, final(self).view()[fd as int]->0)
                    && (forall|j: int| 0 <= j < old(self).view().len() && j != fd ==>
                        #[trigger] final(self).view()[j] == old(self).view()[j]),
                Err(e) => e == VfsError::TooManyOpenFiles && final(self).view() == old(self).view(),
            },
    {
        let file = self.get(oldfd)?;
        self.alloc_fd(file)
    }

    /// Make `newfd` refer to what `oldfd` refers to, closing `newfd` first.
    pub fn dup2(&mut self, oldfd: i32, newfd: i32) -> (r: VfsResult<i32>)
        ensures
            (0 <= newfd < old(self).view().len() && fd_open(old(self).view(), oldfd)) ==> {
                &&& r == Ok::<i32, VfsError>(newfd)
                &&& final(self).view().len() == old(self).view().len()
                &&& final(self).view()[newfd as int] is Some
                &&& cloned::<F>(old(self).view()[oldfd as int]->0, final(self).view()[newfd as int]->0)
                &&& forall|j: int| 0 <= j < old(self).view().len() && j != newfd ==>
                    #[trigger] final(self).view()[j] == old(self).view()[j]
            },
            !(0 <= newfd < old(self).view().len() && fd_open(old(self).view(), oldfd))
                ==> r == Err::<i32, VfsError>(VfsError::BadFileDescriptor)
                    && final(self).view() == old(self).view(),
            old(self).view().len() == MAX_FDS,
    {
        proof { use_type_invariant(&*self); }
        if newfd < 0 || newfd as usize >= self.entries.len() {
            return Err(VfsError::BadFileDescriptor);
        }
        let file = self.get(oldfd)?;
        let _ = self.close(newfd);
        self.entries[newfd as usize] = Some(file);
        Ok(newfd)
    }

    /// Copy every slot of this table into `other`, as far as `other` has
    /// room; slots beyond this table's length are left alone.
    pub fn clone_into(&self, other: &mut FdTable<F>)
        ensures
            final(other).view().len() == old(other).view().len(),
            forall|i: int| 0 <= i < old(other).view().len() && i < self.view().len() ==>
                (#[trigger] final(other).view()[i] is Some) == self.view()[i] is Some
                && (self.view()[i] is Some ==> cloned::<F>(self.view()[i]->0, final(other).view()[i]->0)),
            forall|i: int| self.view().len() <= i < old(other).view().len() ==>
                #[trigger] final(other).view()[i] == old(other).view()[i],
            self.view().len() == MAX_FDS,
            old(other).view().len() == MAX_FDS,
    {
        proof {
            use_type_invariant(self);
            use_type_invariant(&*other);
        }
        let mut i: usize = 0;
        while i < self.entries.len()
            invariant
                i <= self.entries@.len(),
                other.entries@.len() == old(other).view().len(),
                other.entries@.len() == MAX_FDS,
                forall|k: int| 0 <= k < other.entries@.len() && k < i ==>
                    (#[trigger] other.entries@[k] is Some) == self.entries@[k] is Some
                    && (self.entries@[k] is Some ==> cloned::<F>(self.entries@[k]->0, other.entries@[k]->0)),
                forall|k: int| i <= k < other.entries@.len() ==> #[trigger] other.entries@[k] == old(other).view()[k],
            decreases self.entries@.len() - i,
        {
            if i < other.entries.len() {
                let e = self.entries[i].clone();
                other.entries[i] = e;
            }
            i = i + 1;
        }
    }

    /// An independent copy of this table (for fork): every descriptor open
    /// in this table is open in the copy, referring to a clone of the same
    /// file, and every other one is closed in both.
    pub fn clone_fds(&self) -> (r: FdTable<F>)
        ensures
            r.view().len() == MAX_FDS,
            self.view().len() == MAX_FDS,
            forall|fd: i32| #[trigger] fd_open(r.view(), fd) == fd_open(self.view(), fd),
            forall|i: int| 0 <= i < MAX_FDS ==>
                (#[trigger] r.view()[i] is Some) == self.view()[i] is Some
                && (self.view()[i] is Some ==> cloned::<F>(self.view()[i]->0, r.view()[i]->0)),
    {
        proof { use_type_invariant(self); }
        let mut new = FdTable::new();
        self.clone_into(&mut new);
        new
    }
}

impl<F: Clone> Clone for FdTable<F> {
    fn clone(&self) -> (r: FdTable<F>)
        ensures
            r.view().len() == self.view().len(),
    {
        proof { use_type_invariant(self); }
        FdTable { entries: self.entries.clone() }
    }
}

/// A descriptor handed out by `alloc_fd` can be read back with `get` until
/// it is closed, and reading it back after `close` fails.
pub proof fn lemma_alloc_get_close<F>(before: Seq<Option<F>>, fd: i32, file: F)
    requires
        is_lowest_free(before, fd as int),
    ensures
        fd_open(before.update(fd as int, Some(file)), fd),
        before.update(fd as int, Some(file))[fd as int] == Some(file),
        !fd_open(before.update(fd as int, Some(file)).update(fd as int, None), fd),
{
}

} // verus!
