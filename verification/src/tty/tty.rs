//! A terminal: its name, size, owning session and foreground group.

use vstd::prelude::*;

verus! {

/// Terminal dimensions in character cells.
#[derive(Debug, Clone, Copy, PartialEq, Eq, Structural)]
pub struct WinSize {
    pub rows: u16,
    pub cols: u16,
}

impl Default for WinSize {
    /// The classic 80 x 25 text screen.
    fn default() -> (r: WinSize)
        ensures
            r == (WinSize { rows: 25, cols: 80 }),
    {
        WinSize { rows: 25, cols: 80 }
    }
}

/// A TTY device representing one terminal session.
pub struct Tty {
    /// TTY index (e.g., pts/0 -> index 0).
    pub index: u32,
    /// Name (e.g., "pts/0", "console").
    pub name: String,
    /// Terminal dimensions.
    pub winsize: WinSize,
    /// Session ID owning this TTY (-1 if none).
    pub session_id: i32,
    /// Foreground process group ID (-1 if none).
    pub foreground_pgid: i32,
}

impl Tty {
    /// A terminal with no session and no foreground group, default size.
    pub fn new(index: u32, name: &str) -> (r: Tty)
        ensures
            r.index == index,
            r.name@ == name@,
            r.winsize == (WinSize { rows: 25, cols: 80 }),
            r.session_id == -1,
            r.foreground_pgid == -1,
    {
        Tty {
            index,
            name: name.to_owned(),
            winsize: WinSize::default(),
            session_id: -1,
            foreground_pgid: -1,
        }
    }

    /// Resize. Returns the process group that must receive SIGWINCH: the
    /// foreground group when the size really changed and there is one.
    pub fn set_winsize(&mut self, rows: u16, cols: u16) -> (sigwinch_to: Option<u32>)
        ensures
            final(self).winsize == (WinSize { rows, cols }),
            final(self).index == old(self).index,
            final(self).name == old(self).name,
            final(self).session_id == old(self).session_id,
            final(self).foreground_pgid == old(self).foreground_pgid,
            sigwinch_to == (if (old(self).winsize.rows != rows || old(self).winsize.cols != cols)
                && old(self).foreground_pgid > 0 {
                Some(old(self).foreground_pgid as u32)
            } else {
                None
            }),
    {
        let changed = self.winsize.rows != rows || self.winsize.cols != cols;
        self.winsize = WinSize { rows, cols };
        if changed && self.foreground_pgid > 0 {
            Some(self.foreground_pgid as u32)
        } else {
            None
        }
    }

    /// Attach the terminal to a session.
    pub fn set_session(&mut self, session_id: i32)
        ensures
            final(self).session_id == session_id,
            final(self).index == old(self).index,
            final(self).name == old(self).name,
            final(self).winsize == old(self).winsize,
            final(self).foreground_pgid == old(self).foreground_pgid,
    {
        self.session_id = session_id;
    }

    /// Set the foreground process group.
    pub fn set_foreground(&mut self, pgid: i32)
        ensures
            final(self).foreground_pgid == pgid,
            final(self).index == old(self).index,
            final(self).name == old(self).name,
            final(self).winsize == old(self).winsize,
            final(self).session_id == old(self).session_id,
    {
        self.foreground_pgid = pgid;
    }
}

} // verus!
