//! Unix domain socket byte queues and endpoint state.

use vstd::prelude::*;
use std::collections::VecDeque;
use crate::vfs::inode::{FileMode, FileType, InodeMetadata, VfsError, VfsResult};

verus! {

/// Socket state.
#[derive(Debug, Clone, Copy, PartialEq, Eq, Structural)]
pub enum SocketState {
    Unbound,
    Bound,
    Listening,
    Connected,
    Closed,
}

/// A bounded byte queue for stream data.
pub struct SocketBuffer {
    data: VecDeque<u8>,
    capacity: usize,
}

impl SocketBuffer {
    /// Queued bytes never exceed the capacity.
    pub closed spec fn wf(&self) -> bool {
        self.data@.len() <= self.capacity
    }

    /// The queued bytes, oldest first.
    pub closed spec fn view(&self) -> Seq<u8> {
        self.data@
    }

    /// Maximum number of queued bytes.
    pub closed spec fn cap(&self) -> nat {
        self.capacity as nat
    }

    /// An empty queue of the given capacity.
    pub fn new(capacity: usize) -> (r: SocketBuffer)
        ensures
            r.wf(),
            r.view() == Seq::<u8>::empty(),
            r.cap() == capacity,
    {
        SocketBuffer { data: VecDeque::with_capacity(capacity), capacity }
    }

    /// Append as much of `buf` as fits; returns how much was taken.
    pub fn write(&mut self, buf: &[u8]) -> (n: usize)
        requires
            old(self).wf(),
        ensures
            final(self).wf(),
            final(self).cap() == old(self).cap(),
            n == if buf@.len() < old(self).cap() - old(self).view().len() { buf@.len() as int }
                 else { old(self).cap() - old(self).view().len() },
            final(self).view() == old(self).view() + buf@.subrange(0, n as int),
    {
        let space = self.capacity - self.data.len();
        let to_write = if buf.len() < space { buf.len() } else { space };
        let ghost start = self.data@;
        let mut i: usize = 0;
        while i < to_write
            invariant
                0 <= i <= to_write,
                to_write <= buf@.len(),
                start.len() + to_write <= self.capacity,
                self.data@ == start + buf@.subrange(0, i as int),
                self.capacity == old(self).capacity,
            decreases to_write - i,
        {
            self.data.push_back(buf[i]);
            assert(buf@.subrange(0, i as int).push(buf@[i as int]) =~= buf@.subrange(0, i + 1));
            i = i + 1;
        }
        to_write
    }

    /// Move up to `buf.len()` of the oldest bytes into `buf`.
    pub fn read(&mut self, buf: &mut [u8]) -> (n: usize)
        requires
            old(self).wf(),
        ensures
            final(self).wf(),
            final(self).cap() == old(self).cap(),
            n == if old(buf)@.len() < old(self).view().len() { old(buf)@.len() as int }
                 else { old(self).view().len() as int },
            final(buf)@.len() == old(buf)@.len(),
            final(buf)@.subrange(0, n as int) == old(self).view().subrange(0, n as int),
            final(buf)@.subrange(n as int, final(buf)@.len() as int)
                == old(buf)@.subrange(n as int, old(buf)@.len() as int),
            final(self).view() == old(self).view().subrange(n as int, old(self).view().len() as int),
    {
        let to_read = if buf.len() < self.data.len() { buf.len() } else { self.data.len() };
        let ghost start = self.data@;
        let ghost old_buf = buf@;
        let mut i: usize = 0;
        while i < to_read
            invariant
                0 <= i <= to_read,
                to_read <= start.len(),
                to_read <= old_buf.len(),
                start.len() <= self.capacity,
                buf@.len() == old_buf.len(),
                self.data@ == start.subrange(i as int, start.len() as int),
                self.capacity == old(self).capacity,
                forall|k: int| 0 <= k < i ==> #[trigger] buf@[k] == start[k],
                forall|k: int| i <= k < buf@.len() ==> #[trigger] buf@[k] == old_buf[k],
            decreases to_read - i,
        {
            let b = self.data.pop_front();
            match b {
                Some(v) => {
                    buf[i] = v;
                }
                None => {
                    assert(false);
                }
            }
            assert(self.data@ =~= start.subrange(i + 1, start.len() as int));
            i = i + 1;
        }
        assert(buf@.subrange(0, to_read as int) =~= start.subrange(0, to_read as int));
        assert(buf@.subrange(to_read as int, buf@.len() as int)
            =~= old_buf.subrange(to_read as int, old_buf.len() as int));
        to_read
    }

    /// Number of queued bytes.
    pub fn len(&self) -> (r: usize)
        ensures
            r == self.view().len(),
    {
        self.data.len()
    }

    /// Nothing queued.
    pub fn is_empty(&self) -> (r: bool)
        ensures
            r == (self.view().len() == 0),
    {
        self.data.len() == 0
    }
}

/// Receive queue size of a fresh socket (64 KiB).
pub const SOCKET_BUFFER_SIZE: usize = 65536;

/// The state an endpoint keeps: its connection state, its receive queue and
/// how many pending connections it will hold while listening.
pub struct UnixSocketInternal {
    pub state: SocketState,
    pub receive_queue: SocketBuffer,
    pub max_backlog: usize,
}

impl UnixSocketInternal {
    /// A fresh, unbound endpoint with an empty 64 KiB receive queue.
    pub fn new() -> (r: UnixSocketInternal)
        ensures
            r.state == SocketState::Unbound,
            r.receive_queue.wf(),
            r.receive_queue.view() == Seq::<u8>::empty(),
            r.receive_queue.cap() == SOCKET_BUFFER_SIZE,
            r.max_backlog == 0,
    {
        UnixSocketInternal {
            state: SocketState::Unbound,
            receive_queue: SocketBuffer::new(SOCKET_BUFFER_SIZE),
            max_backlog: 0,
        }
    }

    /// A read on the socket's inode: connected or closed sockets hand out
    /// queued bytes (0 once a closed socket is drained); any other state is
    /// not implemented.
    pub fn inode_read(&mut self, buf: &mut [u8]) -> (r: VfsResult<usize>)
        requires
            old(self).receive_queue.wf(),
        ensures
            final(self).receive_queue.wf(),
            final(self).state == old(self).state,
            final(self).max_backlog == old(self).max_backlog,
            final(self).receive_queue.cap() == old(self).receive_queue.cap(),
            !(old(self).state == SocketState::Connected || old(self).state == SocketState::Closed)
                ==> r == Err::<usize, VfsError>(VfsError::NotImplemented)
                    && final(self).receive_queue.view() == old(self).receive_queue.view()
                    && final(buf)@ == old(buf)@,
            (old(self).state == SocketState::Connected || old(self).state == SocketState::Closed) ==> {
                let q = old(self).receive_queue.view();
                let n = if old(buf)@.len() < q.len() { old(buf)@.len() as int } else { q.len() as int };
                &&& r == Ok::<usize, VfsError>(n as usize)
                &&& final(buf)@.len() == old(buf)@.len()
                &&& final(buf)@.subrange(0, n) == q.subrange(0, n)
                &&& final(buf)@.subrange(n, final(buf)@.len() as int)
                    == old(buf)@.subrange(n, old(buf)@.len() as int)
                &&& final(self).receive_queue.view() == q.subrange(n, q.len() as int)
            },
    {
        if self.state == SocketState::Connected || self.state == SocketState::Closed {
            if self.receive_queue.is_empty() && self.state == SocketState::Closed {
                assert(buf@.subrange(0, 0) =~= self.receive_queue.view().subrange(0, 0));
                assert(self.receive_queue.view().subrange(0, 0) =~= self.receive_queue.view());
                return Ok(0);
            }
            let n = self.receive_queue.read(buf);
            return Ok(n);
        }
        Err(VfsError::NotImplemented)
    }
}

/// Metadata of a socket inode: a socket file, mode 0777, owned by root.
pub open spec fn socket_metadata() -> InodeMetadata {
    InodeMetadata {
        ino: 0,
        file_type: FileType::Socket,
        mode: FileMode(0o777),
        uid: 0,
        gid: 0,
        size: 0,
        nlink: 1,
        atime: 0,
        mtime: 0,
        ctime: 0,
        dev_major: 0,
        dev_minor: 0,
    }
}

/// The VFS inode of a Unix domain socket: its endpoint and its metadata.
pub struct UnixSocketInode {
    pub internal: UnixSocketInternal,
    pub metadata: InodeMetadata,
}

impl UnixSocketInode {
    /// A fresh, unbound socket inode.
    pub fn new() -> (r: UnixSocketInode)
        ensures
            r.internal.state == SocketState::Unbound,
            r.internal.receive_queue.wf(),
            r.internal.receive_queue.view() == Seq::<u8>::empty(),
            r.metadata == socket_metadata(),
    {
        let mode = FileMode::new(0o777);
        assert(0o777u32 & 0o7777 == 0o777) by (bit_vector);
        UnixSocketInode {
            internal: UnixSocketInternal::new(),
            metadata: InodeMetadata {
                ino: 0,
                file_type: FileType::Socket,
                mode,
                uid: 0,
                gid: 0,
                size: 0,
                atime: 0,
                mtime: 0,
                ctime: 0,
                nlink: 1,
                dev_major: 0,
                dev_minor: 0,
            },
        }
    }

    /// The socket's metadata.
    pub fn metadata(&self) -> (r: VfsResult<InodeMetadata>)
        ensures
            r == Ok::<InodeMetadata, VfsError>(self.metadata),
    {
        Ok(self.metadata)
    }
}

/// A write on a socket whose peer's receive queue is `peer_queue` (when
/// `has_peer`): a connected socket with a peer delivers into that queue, a
/// closed one reports a broken pipe, anything else is not implemented.
pub fn socket_write(state: SocketState, has_peer: bool, peer_queue: &mut SocketBuffer, buf: &[u8]) -> (r: VfsResult<usize>)
    requires
        old(peer_queue).wf(),
    ensures
        final(peer_queue).wf(),
        final(peer_queue).cap() == old(peer_queue).cap(),
        (state == SocketState::Connected && has_peer) ==> {
            let q = old(peer_queue).view();
            let c = old(peer_queue).cap();
            let n = if buf@.len() < c - q.len() { buf@.len() as int } else { c - q.len() };
            &&& r == Ok::<usize, VfsError>(n as usize)
            &&& final(peer_queue).view() == q + buf@.subrange(0, n)
        },
        !(state == SocketState::Connected && has_peer) ==> final(peer_queue).view() == old(peer_queue).view(),
        !(state == SocketState::Connected && has_peer) && state == SocketState::Closed
            ==> r == Err::<usize, VfsError>(VfsError::BrokenPipe),
        !(state == SocketState::Connected && has_peer) && state != SocketState::Closed
            ==> r == Err::<usize, VfsError>(VfsError::NotImplemented),
{
    if state == SocketState::Connected && has_peer {
        let n = peer_queue.write(buf);
        return Ok(n);
    }
    if state == SocketState::Closed {
        return Err(VfsError::BrokenPipe);
    }
    Err(VfsError::NotImplemented)
}

} // verus!
