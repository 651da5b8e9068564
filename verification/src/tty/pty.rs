//! Pseudo-terminal pairs: the terminal emulator holds the master, the shell
//! the slave. Bytes the shell writes queue up for the master to read; bytes
//! destined for the shell queue up for the slave to read.

use vstd::prelude::*;
use std::collections::VecDeque;
use crate::tty::tty::WinSize;

verus! {

/// Maximum bytes buffered in a PTY direction.
pub const PTY_BUF_SIZE: usize = 4096;

/// The master end of a PTY pair, holding both directions' queues.
pub struct PtyMaster {
    pub index: u32,
    /// Bytes waiting for the slave (shell) to read.
    slave_buf: VecDeque<u8>,
    /// Bytes the slave wrote, waiting for the terminal to read.
    master_buf: VecDeque<u8>,
    /// Terminal size.
    winsize: WinSize,
    /// Foreground process group ID (signals are sent to this group).
    pub foreground_pgid: i32,
}

/// The slave end of a PTY pair.
pub struct PtySlave {
    pub index: u32,
}

/// Take `k` bytes from the front of `q` into `buf[0..k]` where
/// `k = min(buf.len(), q.len())`.
fn drain_into(q: &mut VecDeque<u8>, buf: &mut [u8]) -> (n: usize)
    ensures
        n == if old(buf)@.len() < old(q)@.len() { old(buf)@.len() as int } else { old(q)@.len() as int },
        final(buf)@.len() == old(buf)@.len(),
        final(buf)@.subrange(0, n as int) == old(q)@.subrange(0, n as int),
        final(buf)@.subrange(n as int, final(buf)@.len() as int)
            == old(buf)@.subrange(n as int, old(buf)@.len() as int),
        final(q)@ == old(q)@.subrange(n as int, old(q)@.len() as int),
{
    let ghost start = q@;
    let ghost old_buf = buf@;
    let mut count: usize = 0;
    while count < buf.len()
        invariant
            0 <= count <= old_buf.len(),
            count <= start.len(),
            buf@.len() == old_buf.len(),
            q@ == start.subrange(count as int, start.len() as int),
            forall|k: int| 0 <= k < count ==> #[trigger] buf@[k] == start[k],
            forall|k: int| count <= k < buf@.len() ==> #[trigger] buf@[k] == old_buf[k],
        ensures
            count == if old_buf.len() < start.len() { old_buf.len() as int } else { start.len() as int },
            buf@.len() == old_buf.len(),
            q@ == start.subrange(count as int, start.len() as int),
            forall|k: int| 0 <= k < count ==> #[trigger] buf@[k] == start[k],
            forall|k: int| count <= k < buf@.len() ==> #[trigger] buf@[k] == old_buf[k],
        decreases old_buf.len() - count,
    {
        match q.pop_front() {
            Some(b) => {
                buf[count] = b;
                assert(q@ =~= start.subrange(count + 1, start.len() as int));
                count = count + 1;
            }
            None => {
                break;
            }
        }
    }
    assert(buf@.subrange(0, count as int) =~= start.subrange(0, count as int));
    assert(buf@.subrange(count as int, buf@.len() as int)
        =~= old_buf.subrange(count as int, old_buf.len() as int));
    count
}

/// Append the bytes of `data` to `q` while it holds fewer than
/// `PTY_BUF_SIZE`; stop at the first byte that does not fit.
fn fill_from(q: &mut VecDeque<u8>, data: &[u8]) -> (n: usize)
    requires
        old(q)@.len() <= PTY_BUF_SIZE,
    ensures
        n == if data@.len() < PTY_BUF_SIZE - old(q)@.len() { data@.len() as int }
             else { PTY_BUF_SIZE - old(q)@.len() },
        final(q)@ == old(q)@ + data@.subrange(0, n as int),
{
    let ghost start = q@;
    let mut count: usize = 0;
    while count < data.len()
        invariant
            0 <= count <= data@.len(),
            start.len() + count <= PTY_BUF_SIZE,
            q@ == start + data@.subrange(0, count as int),
        ensures
            count == if data@.len() < PTY_BUF_SIZE - start.len() { data@.len() as int }
                     else { PTY_BUF_SIZE - start.len() },
            q@ == start + data@.subrange(0, count as int),
        decreases data@.len() - count,
    {
        if q.len() < PTY_BUF_SIZE {
            q.push_back(data[count]);
            assert(data@.subrange(0, count as int).push(data@[count as int]) =~= data@.subrange(0, count + 1));
            count = count + 1;
        } else {
            break;
        }
    }
    count
}

/// Create a new PTY pair numbered `*next_index`, and advance the counter.
pub fn alloc_pty(next_index: &mut u32) -> (r: (PtyMaster, PtySlave))
    ensures
        r.0.spec_index() == *old(next_index),
        r.1.index == *old(next_index),
        *final(next_index) == (if *old(next_index) == u32::MAX { 0 } else { *old(next_index) + 1 }),
        r.0.slave_input() == Seq::<u8>::empty(),
        r.0.master_output() == Seq::<u8>::empty(),
        r.0.spec_winsize() == (WinSize { rows: 25, cols: 80 }),
        r.0.spec_foreground_pgid() == -1,
        r.0.wf(),
{
    let idx = *next_index;
    *next_index = if idx == u32::MAX { 0 } else { idx + 1 };
    let master = PtyMaster {
        index: idx,
        slave_buf: VecDeque::with_capacity(PTY_BUF_SIZE),
        master_buf: VecDeque::with_capacity(PTY_BUF_SIZE),
        winsize: WinSize::default(),
        foreground_pgid: -1,
    };
    (master, PtySlave { index: idx })
}

impl PtyMaster {
    /// Bytes queued for the slave (shell) to read.
    pub closed spec fn slave_input(&self) -> Seq<u8> {
        self.slave_buf@
    }

    /// Bytes the slave wrote, queued for the terminal.
    pub closed spec fn master_output(&self) -> Seq<u8> {
        self.master_buf@
    }

    /// The pair's number.
    pub closed spec fn spec_index(&self) -> u32 {
        self.index
    }

    /// The foreground process group (-1 when none).
    pub closed spec fn spec_foreground_pgid(&self) -> i32 {
        self.foreground_pgid
    }

    /// Current terminal size.
    pub closed spec fn spec_winsize(&self) -> WinSize {
        self.winsize
    }

    /// Neither queue is over its limit.
    pub closed spec fn wf(&self) -> bool {
        self.slave_buf@.len() <= PTY_BUF_SIZE && self.master_buf@.len() <= PTY_BUF_SIZE
    }

    /// Read output from the shell (what the slave wrote).
    pub fn read_output(&mut self, buf: &mut [u8]) -> (n: usize)
        ensures
            n == if old(buf)@.len() < old(self).master_output().len() { old(buf)@.len() as int }
                 else { old(self).master_output().len() as int },
            final(buf)@.len() == old(buf)@.len(),
            final(buf)@.subrange(0, n as int) == old(self).master_output().subrange(0, n as int),
            final(buf)@.subrange(n as int, final(buf)@.len() as int)
                == old(buf)@.subrange(n as int, old(buf)@.len() as int),
            final(self).master_output()
                == old(self).master_output().subrange(n as int, old(self).master_output().len() as int),
            final(self).slave_input() == old(self).slave_input(),
            final(self).spec_winsize() == old(self).spec_winsize(),
            final(self).spec_foreground_pgid() == old(self).spec_foreground_pgid(),
            final(self).spec_index() == old(self).spec_index(),
            old(self).wf() ==> final(self).wf(),
    {
        drain_into(&mut self.master_buf, buf)
    }

    /// The terminal has output to read.
    pub fn has_output(&self) -> (r: bool)
        ensures
            r == (self.master_output().len() > 0),
    {
        self.master_buf.len() != 0
    }

    /// Resize. Returns the process group that must receive SIGWINCH: the
    /// foreground group, if there is one.
    pub fn set_winsize(&mut self, rows: u16, cols: u16) -> (sigwinch_to: Option<u32>)
        ensures
            final(self).spec_winsize() == (WinSize { rows, cols }),
            final(self).slave_input() == old(self).slave_input(),
            final(self).master_output() == old(self).master_output(),
            final(self).spec_foreground_pgid() == old(self).spec_foreground_pgid(),
            final(self).spec_index() == old(self).spec_index(),
            sigwinch_to == (if old(self).spec_foreground_pgid() > 0 { Some(old(self).spec_foreground_pgid() as u32) } else { None }),
    {
        self.winsize = WinSize { rows, cols };
        if self.foreground_pgid > 0 {
            Some(self.foreground_pgid as u32)
        } else {
            None
        }
    }

    /// Current terminal size.
    pub fn winsize(&self) -> (r: WinSize)
        ensures
            r == self.spec_winsize(),
    {
        self.winsize
    }

    /// Set the foreground process group for signal delivery.
    pub fn set_foreground(&mut self, pgid: i32)
        ensures
            final(self).spec_foreground_pgid() == pgid,
            final(self).slave_input() == old(self).slave_input(),
            final(self).master_output() == old(self).master_output(),
            final(self).spec_winsize() == old(self).spec_winsize(),
            final(self).spec_index() == old(self).spec_index(),
    {
        self.foreground_pgid = pgid;
    }

    /// Slave reads from the PTY.
    pub fn slave_read(&mut self, buf: &mut [u8]) -> (n: usize)
        ensures
            n == if old(buf)@.len() < old(self).slave_input().len() { old(buf)@.len() as int }
                 else { old(self).slave_input().len() as int },
            final(buf)@.len() == old(buf)@.len(),
            final(buf)@.subrange(0, n as int) == old(self).slave_input().subrange(0, n as int),
            final(buf)@.subrange(n as int, final(buf)@.len() as int)
                == old(buf)@.subrange(n as int, old(buf)@.len() as int),
            final(self).slave_input()
                == old(self).slave_input().subrange(n as int, old(self).slave_input().len() as int),
            final(self).master_output() == old(self).master_output(),
            final(self).spec_winsize() == old(self).spec_winsize(),
            final(self).spec_foreground_pgid() == old(self).spec_foreground_pgid(),
            final(self).spec_index() == old(self).spec_index(),
            old(self).wf() ==> final(self).wf(),
    {
        drain_into(&mut self.slave_buf, buf)
    }

    /// Slave writes to the PTY; output queues up for the terminal until the
    /// queue is full. Returns the number of bytes taken.
    pub fn slave_write(&mut self, data: &[u8]) -> (n: usize)
        requires
            old(self).wf(),
        ensures
            final(self).wf(),
            n == if data@.len() < PTY_BUF_SIZE - old(self).master_output().len() { data@.len() as int }
                 else { PTY_BUF_SIZE - old(self).master_output().len() },
            final(self).master_output() == old(self).master_output() + data@.subrange(0, n as int),
            final(self).slave_input() == old(self).slave_input(),
            final(self).spec_winsize() == old(self).spec_winsize(),
            final(self).spec_foreground_pgid() == old(self).spec_foreground_pgid(),
            final(self).spec_index() == old(self).spec_index(),
    {
        fill_from(&mut self.master_buf, data)
    }

    /// The slave has data to read.
    pub fn slave_has_data(&self) -> (r: bool)
        ensures
            r == (self.slave_input().len() > 0),
    {
        self.slave_buf.len() != 0
    }
}

} // verus!
