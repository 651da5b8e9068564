//! Anonymous pipe: a fixed-capacity ring buffer of bytes shared by a read
//! end and a write end.

use vstd::prelude::*;
use crate::vfs::inode::{FileType, InodeMetadata, InodeNum, VfsError, fresh_metadata};

verus! {

/// Ring buffer capacity (4 KiB).
pub const PIPE_CAPACITY: usize = 4096;

/// Shared pipe state: the ring and the two "other end closed" flags.
pub struct PipeBuffer {
    buf: [u8; 4096],
    /// Read position (consume from here).
    read_pos: usize,
    /// Write position (produce here).
    write_pos: usize,
    /// Number of bytes currently in the buffer.
    len: usize,
    /// True when the write end has been dropped.
    write_closed: bool,
    /// True when the read end has been dropped.
    read_closed: bool,
}

impl PipeBuffer {
    /// The ring's internal consistency.
    pub closed spec fn wf(&self) -> bool {
        &&& self.len <= PIPE_CAPACITY
        &&& self.read_pos < PIPE_CAPACITY
        &&& self.write_pos == (self.read_pos + self.len) % (PIPE_CAPACITY as int)
    }

    /// The write end has been dropped.
    pub closed spec fn is_write_closed(&self) -> bool {
        self.write_closed
    }

    /// The read end has been dropped.
    pub closed spec fn is_read_closed(&self) -> bool {
        self.read_closed
    }

    /// The bytes in the pipe, oldest first.
    pub closed spec fn view(&self) -> Seq<u8> {
        Seq::new(self.len as nat, |i: int| self.buf@[(self.read_pos + i) % (PIPE_CAPACITY as int)])
    }

    /// An empty, open pipe.
    pub fn new() -> (r: PipeBuffer)
        ensures
            r.wf(),
            r.view() == Seq::<u8>::empty(),
            !r.is_write_closed(),
            !r.is_read_closed(),
    {
        let r = PipeBuffer {
            buf: [0u8; 4096],
            read_pos: 0,
            write_pos: 0,
            len: 0,
            write_closed: false,
            read_closed: false,
        };
        assert(r.view() =~= Seq::<u8>::empty());
        r
    }

    /// Available readable bytes.
    pub fn readable(&self) -> (r: usize)
        requires
            self.wf(),
        ensures
            r == self.view().len(),
    {
        self.len
    }

    /// Available writable space.
    pub fn writable(&self) -> (r: usize)
        requires
            self.wf(),
        ensures
            r == PIPE_CAPACITY - self.view().len(),
    {
        PIPE_CAPACITY - self.len
    }

    /// Append as much of `data` as fits. Returns the number of bytes taken,
    /// which is the smaller of `data.len()` and the free space.
    pub fn write_bytes(&mut self, data: &[u8]) -> (n: usize)
        requires
            old(self).wf(),
        ensures
            final(self).wf(),
            n == if data@.len() < PIPE_CAPACITY - old(self).view().len() {
                data@.len() as int
            } else {
                PIPE_CAPACITY - old(self).view().len()
            },
            final(self).view() == old(self).view() + data@.subrange(0, n as int),
            final(self).is_write_closed() == old(self).is_write_closed(),
            final(self).is_read_closed() == old(self).is_read_closed(),
    {
        let space = self.writable();
        let n = if data.len() < space { data.len() } else { space };
        let ghost old_view = self.view();
        let mut i: usize = 0;
        while i < n
            invariant
                0 <= i <= n,
                n <= data@.len(),
                n + self.len <= PIPE_CAPACITY,
                self.len <= PIPE_CAPACITY,
                self.read_pos < PIPE_CAPACITY,
                self.write_pos == (self.read_pos + self.len + i) % (PIPE_CAPACITY as int),
                old_view.len() == self.len,
                forall|k: int| 0 <= k < self.len ==>
                    #[trigger] self.buf@[(self.read_pos + k) % (PIPE_CAPACITY as int)] == old_view[k],
                forall|k: int| 0 <= k < i ==>
                    #[trigger] self.buf@[(self.read_pos + self.len + k) % (PIPE_CAPACITY as int)] == data@[k],
                self.write_closed == old(self).write_closed,
                self.read_closed == old(self).read_closed,
            decreases n - i,
        {
            let wp = self.write_pos;
            let ghost before = self.buf@;
            self.buf[wp] = data[i];
            proof {
                assert forall|k: int| 0 <= k < self.len implies
                    #[trigger] self.buf@[(self.read_pos + k) % (PIPE_CAPACITY as int)] == old_view[k] by {
                    assert((self.read_pos + k) % (PIPE_CAPACITY as int) != wp as int);
                    assert(before[(self.read_pos + k) % (PIPE_CAPACITY as int)] == old_view[k]);
                }
                assert forall|k: int| 0 <= k < i implies
                    #[trigger] self.buf@[(self.read_pos + self.len + k) % (PIPE_CAPACITY as int)] == data@[k] by {
                    assert((self.read_pos + self.len + k) % (PIPE_CAPACITY as int) != wp as int);
                    assert(before[(self.read_pos + self.len + k) % (PIPE_CAPACITY as int)] == data@[k]);
                }
            }
            self.write_pos = (self.write_pos + 1) % PIPE_CAPACITY;
            i = i + 1;
        }
        self.len = self.len + n;
        proof {
            assert forall|k: int| 0 <= k < self.len implies
                #[trigger] self.view()[k] == (old_view + data@.subrange(0, n as int))[k] by {
                if k < old_view.len() {
                } else {
                    let j = k - old_view.len();
                    assert(self.buf@[(self.read_pos + (self.len - n) + j) % (PIPE_CAPACITY as int)] == data@[j]);
                }
            }
            assert(self.view() =~= old_view + data@.subrange(0, n as int));
        }
        n
    }

    /// Move up to `buf.len()` of the oldest bytes into `buf`. Returns the
    /// number moved, the smaller of `buf.len()` and the bytes held.
    pub fn read_bytes(&mut self, buf: &mut [u8]) -> (n: usize)
        requires
            old(self).wf(),
        ensures
            final(self).wf(),
            n == if old(buf)@.len() < old(self).view().len() {
                old(buf)@.len() as int
            } else {
                old(self).view().len() as int
            },
            final(buf)@.len() == old(buf)@.len(),
            final(buf)@.subrange(0, n as int) == old(self).view().subrange(0, n as int),
            final(buf)@.subrange(n as int, final(buf)@.len() as int)
                == old(buf)@.subrange(n as int, old(buf)@.len() as int),
            final(self).view() == old(self).view().subrange(n as int, old(self).view().len() as int),
            final(self).is_write_closed() == old(self).is_write_closed(),
            final(self).is_read_closed() == old(self).is_read_closed(),
    {
        let avail = self.len;
        let n = if buf.len() < avail { buf.len() } else { avail };
        let ghost old_view = self.view();
        let ghost old_buf = buf@;
        let ghost start = self.read_pos;
        let mut i: usize = 0;
        while i < n
            invariant
                0 <= i <= n,
                n <= old_view.len(),
                n <= old_buf.len(),
                buf@.len() == old_buf.len(),
                start < PIPE_CAPACITY,
                old_view.len() <= PIPE_CAPACITY,
                self.read_pos == (start + i) % (PIPE_CAPACITY as int),
                self.len == old_view.len(),
                forall|k: int| 0 <= k < old_view.len() ==>
                    #[trigger] self.buf@[(start + k) % (PIPE_CAPACITY as int)] == old_view[k],
                forall|k: int| 0 <= k < i ==> #[trigger] buf@[k] == old_view[k],
                forall|k: int| i <= k < buf@.len() ==> #[trigger] buf@[k] == old_buf[k],
                self.write_pos == (start + old_view.len()) % (PIPE_CAPACITY as int),
                self.write_closed == old(self).write_closed,
                self.read_closed == old(self).read_closed,
            decreases n - i,
        {
            let rp = self.read_pos;
            let b = self.buf[rp];
            assert(b == old_view[i as int]);
            buf[i] = b;
            self.read_pos = (self.read_pos + 1) % PIPE_CAPACITY;
            i = i + 1;
        }
        self.len = self.len - n;
        proof {
            assert(self.read_pos == (start + n) % (PIPE_CAPACITY as int));
            assert forall|k: int| 0 <= k < self.len implies
                #[trigger] self.view()[k] == old_view[n + k] by {
                let a = (self.read_pos + k) % (PIPE_CAPACITY as int);
                let b = (start + (n + k)) % (PIPE_CAPACITY as int);
                assert(a == b);
            }
            assert(self.view() =~= old_view.subrange(n as int, old_view.len() as int));
            assert(buf@.subrange(0, n as int) =~= old_view.subrange(0, n as int));
            assert(buf@.subrange(n as int, buf@.len() as int) =~= old_buf.subrange(n as int, old_buf.len() as int));
        }
        n
    }

    /// Record that the write end went away: readers then see end of file
    /// once the buffer is drained.
    pub fn close_write_end(&mut self)
        requires
            old(self).wf(),
        ensures
            final(self).wf(),
            final(self).view() == old(self).view(),
            final(self).is_write_closed(),
            final(self).is_read_closed() == old(self).is_read_closed(),
    {
        self.write_closed = true;
    }

    /// Record that the read end went away: writers then get a broken pipe.
    pub fn close_read_end(&mut self)
        requires
            old(self).wf(),
        ensures
            final(self).wf(),
            final(self).view() == old(self).view(),
            final(self).is_read_closed(),
            final(self).is_write_closed() == old(self).is_write_closed(),
    {
        self.read_closed = true;
    }

    /// One attempt of the read end: data if there is any, end of file if the
    /// writer is gone, otherwise the reader has to wait and try again. An
    /// empty destination reads nothing.
    pub fn read_end_read(&mut self, buf: &mut [u8]) -> (r: PipeRead)
        requires
            old(self).wf(),
        ensures
            final(self).wf(),
            final(self).is_write_closed() == old(self).is_write_closed(),
            final(self).is_read_closed() == old(self).is_read_closed(),
            old(buf)@.len() == 0 ==> r == PipeRead::Data(0) && final(self).view() == old(self).view()
                && final(buf)@ == old(buf)@,
            old(buf)@.len() > 0 && old(self).view().len() > 0 ==> {
                let n = if old(buf)@.len() < old(self).view().len() { old(buf)@.len() as int }
                        else { old(self).view().len() as int };
                &&& r == PipeRead::Data(n as usize)
                &&& final(buf)@.len() == old(buf)@.len()
                &&& final(buf)@.subrange(0, n) == old(self).view().subrange(0, n)
                &&& final(buf)@.subrange(n, final(buf)@.len() as int)
                    == old(buf)@.subrange(n, old(buf)@.len() as int)
                &&& final(self).view() == old(self).view().subrange(n, old(self).view().len() as int)
            },
            old(buf)@.len() > 0 && old(self).view().len() == 0 ==> final(self).view() == old(self).view()
                && final(buf)@ == old(buf)@
                && r == (if old(self).is_write_closed() { PipeRead::Eof } else { PipeRead::Wait }),
    {
        if buf.len() == 0 {
            return PipeRead::Data(0);
        }
        if self.readable() > 0 {
            let n = self.read_bytes(buf);
            PipeRead::Data(n)
        } else if self.write_closed {
            PipeRead::Eof
        } else {
            PipeRead::Wait
        }
    }

    /// One write through the write end: a broken pipe once the reader is
    /// gone, "would block" when full, otherwise as much as fits.
    pub fn write_end_write(&mut self, data: &[u8]) -> (r: Result<usize, VfsError>)
        requires
            old(self).wf(),
        ensures
            final(self).wf(),
            final(self).is_write_closed() == old(self).is_write_closed(),
            final(self).is_read_closed() == old(self).is_read_closed(),
            data@.len() == 0 ==> r == Ok::<usize, VfsError>(0) && final(self).view() == old(self).view(),
            data@.len() > 0 && old(self).is_read_closed() ==> r == Err::<usize, VfsError>(VfsError::BrokenPipe)
                && final(self).view() == old(self).view(),
            data@.len() > 0 && !old(self).is_read_closed() && old(self).view().len() == PIPE_CAPACITY
                ==> r == Err::<usize, VfsError>(VfsError::WouldBlock) && final(self).view() == old(self).view(),
            data@.len() > 0 && !old(self).is_read_closed() && old(self).view().len() < PIPE_CAPACITY ==> {
                let n = if data@.len() < PIPE_CAPACITY - old(self).view().len() { data@.len() as int }
                        else { PIPE_CAPACITY - old(self).view().len() };
                &&& r == Ok::<usize, VfsError>(n as usize)
                &&& final(self).view() == old(self).view() + data@.subrange(0, n)
            },
    {
        if data.len() == 0 {
            return Ok(0);
        }
        if self.read_closed {
            return Err(VfsError::BrokenPipe);
        }
        if self.writable() == 0 {
            return Err(VfsError::WouldBlock);
        }
        Ok(self.write_bytes(data))
    }
}

/// Outcome of one read attempt on a pipe's read end.
#[derive(Debug, Clone, Copy, PartialEq, Eq, Structural)]
pub enum PipeRead {
    /// This many bytes were copied out.
    Data(usize),
    /// The writer is gone and nothing is left.
    Eof,
    /// Nothing to read yet; yield and retry.
    Wait,
}

/// First in, first out: bytes written into an empty pipe come back out, in
/// order, to a reader with room for them, and the pipe is empty again.
pub proof fn lemma_pipe_fifo(before: Seq<u8>, data: Seq<u8>, n: int, after_read: Seq<u8>, got: Seq<u8>)
    requires
        before.len() == 0,
        0 <= n <= data.len(),
        got == (before + data.subrange(0, n)).subrange(0, n),
        after_read == (before + data.subrange(0, n)).subrange(n, n),
    ensures
        got == data.subrange(0, n),
        after_read.len() == 0,
{
    assert(before + data.subrange(0, n) =~= data.subrange(0, n));
    assert(got =~= data.subrange(0, n));
}

/// Inode number the first pipe end gets; each end takes the next one.
pub const FIRST_PIPE_INO: u64 = 0xF000_0000;

/// A new anonymous pipe: the shared buffer (empty, both ends open) and the
/// inode numbers of its read end and write end, taken in that order from
/// the pipe inode counter.
pub fn create_pipe(next_pipe_ino: &mut u64) -> (r: (PipeBuffer, InodeNum, InodeNum))
    ensures
        r.0.wf(),
        r.0.view() == Seq::<u8>::empty(),
        !r.0.is_write_closed(),
        !r.0.is_read_closed(),
        r.1 == *old(next_pipe_ino),
        r.2 == (*old(next_pipe_ino)).wrapping_add(1),
        *final(next_pipe_ino) == (*old(next_pipe_ino)).wrapping_add(1).wrapping_add(1),
{
    let shared = PipeBuffer::new();
    let ino_r = *next_pipe_ino;
    *next_pipe_ino = next_pipe_ino.wrapping_add(1);
    let ino_w = *next_pipe_ino;
    *next_pipe_ino = next_pipe_ino.wrapping_add(1);
    (shared, ino_r, ino_w)
}

/// Metadata either end of a pipe reports: a fresh regular-file record
/// carrying the end's inode number.
pub fn pipe_end_metadata(ino: InodeNum) -> (r: InodeMetadata)
    ensures
        r == fresh_metadata(ino, FileType::Regular),
{
    InodeMetadata::new(ino, FileType::Regular)
}

} // verus!
