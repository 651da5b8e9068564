//! The text of the files under `/proc`, from the figures they report.

use vstd::prelude::*;
use crate::encoding::{push_char, str_eq};

verus! {

/// The system-wide files of `/proc` whose text is computed from counters.
#[derive(Debug, Clone, Copy, PartialEq, Eq, Structural)]
pub enum ProcFile {
    Uptime,
    Meminfo,
    Version,
    Cpuinfo,
    Stat,
    Loadavg,
}

/// The `/proc` filesystem. It holds nothing: each file's text is computed
/// from the figures it reports when it is read (see [`proc_text`]).
pub struct Procfs;

impl Procfs {
    /// The `/proc` filesystem.
    pub fn new() -> (r: Procfs) {
        Procfs
    }
}

/// The decimal digit `d` (0 to 9).
pub open spec fn digit(d: nat) -> char {
    (48 + d) as char
}

/// `n` in decimal, without leading zeros.
pub open spec fn dec(n: nat) -> Seq<char>
    decreases n,
{
    if n < 10 { seq![digit(n)] } else { dec(n / 10).push(digit(n % 10)) }
}

/// `n` (below 1000) in three decimal digits, zero padded.
pub open spec fn dec3(n: nat) -> Seq<char> {
    seq![digit(n / 100), digit((n / 10) % 10), digit(n % 10)]
}

/// The text of `/proc/<kind>` after `uptime_ms` milliseconds, with
/// `total_frames` physical frames of which `free_frames` are free, seen
/// from the task `pid`.
pub open spec fn proc_text(kind: ProcFile, uptime_ms: u64, total_frames: u64, free_frames: u64, pid: u32) -> Seq<char> {
    match kind {
        ProcFile::Uptime => {
            let t = dec((uptime_ms / 1000) as nat) + "."@ + dec3((uptime_ms % 1000) as nat);
            t + " "@ + t + "\n"@
        },
        ProcFile::Meminfo => {
            let total = total_frames * 4;
            let free = free_frames * 4;
            let used = if free < total { total - free } else { 0 };
            "MemTotal:    "@ + dec(total as nat) + " kB\nMemFree:     "@ + dec(free as nat)
                + " kB\nMemUsed:     "@ + dec(used as nat) + " kB\nBuffers:     0 kB\nCached:      0 kB\n"@
        },
        ProcFile::Version => "RacOS version 0.1.0 (racore) #1\n"@,
        ProcFile::Cpuinfo => "processor\t: 0\nvendor_id\t: RacOS\nmodel name\t: x86_64 Virtual CPU\ncpu MHz\t\t: 1000.000\ncache size\t: 0 KB\nflags\t\t: fpu sse sse2 syscall nx\n"@,
        ProcFile::Stat => {
            let q = dec((uptime_ms / 10 / 4) as nat);
            "cpu  "@ + q + " "@ + q + " "@ + q + " "@ + q + " 0 0 0 0 0 0\nprocesses "@ + dec(pid as nat) + "\n"@
        },
        ProcFile::Loadavg => "0.00 0.00 0.00 1/1 "@ + dec(pid as nat) + "\n"@,
    }
}

/// Append `t`.
pub fn push_text(s: &mut String, t: &str)
    ensures
        final(s)@ == old(s)@ + t@,
{
    let ghost s0 = s@;
    let n = t.unicode_len();
    let mut i: usize = 0;
    while i < n
        invariant
            n == t@.len(),
            i <= n,
            s@ == s0 + t@.take(i as int),
        decreases n - i,
    {
        push_char(s, t.get_char(i));
        assert(t@.take(i + 1) =~= t@.take(i as int).push(t@[i as int]));
        i = i + 1;
    }
    assert(t@.take(n as int) =~= t@);
}

/// The character of digit `d`.
fn digit_char(d: u64) -> (c: char)
    requires
        d < 10,
    ensures
        c == digit(d as nat),
{
    ((48 + d) as u8) as char
}

/// Append `n` in decimal.
pub fn push_dec(s: &mut String, n: u64)
    ensures
        final(s)@ == old(s)@ + dec(n as nat),
    decreases n,
{
    if n >= 10 {
        push_dec(s, n / 10);
    }
    push_char(s, digit_char(n % 10));
    proof {
        if n < 10 {
            assert(dec(n as nat) =~= seq![digit(n as nat)]);
        }
    }
}

/// Append `n` (below 1000) in three digits.
fn push_dec3(s: &mut String, n: u64)
    requires
        n < 1000,
    ensures
        final(s)@ == old(s)@ + dec3(n as nat),
{
    push_char(s, digit_char(n / 100));
    push_char(s, digit_char((n / 10) % 10));
    push_char(s, digit_char(n % 10));
}

/// The text of `/proc/<kind>` (see [`proc_text`]). The memory figures are
/// in KiB, four per frame.
pub fn proc_file_text(kind: ProcFile, uptime_ms: u64, total_frames: u64, free_frames: u64, pid: u32) -> (r: String)
    requires
        total_frames * 4 <= u64::MAX,
        free_frames * 4 <= u64::MAX,
    ensures
        r@ == proc_text(kind, uptime_ms, total_frames, free_frames, pid),
{
    let mut out = String::new();
    match kind {
        ProcFile::Uptime => {
            let secs = uptime_ms / 1000;
            let frac = uptime_ms % 1000;
            push_dec(&mut out, secs);
            push_text(&mut out, ".");
            push_dec3(&mut out, frac);
            push_text(&mut out, " ");
            push_dec(&mut out, secs);
            push_text(&mut out, ".");
            push_dec3(&mut out, frac);
            push_text(&mut out, "\n");
        },
        ProcFile::Meminfo => {
            let total = total_frames * 4;
            let free = free_frames * 4;
            let used = total.saturating_sub(free);
            push_text(&mut out, "MemTotal:    ");
            push_dec(&mut out, total);
            push_text(&mut out, " kB\nMemFree:     ");
            push_dec(&mut out, free);
            push_text(&mut out, " kB\nMemUsed:     ");
            push_dec(&mut out, used);
            push_text(&mut out, " kB\nBuffers:     0 kB\nCached:      0 kB\n");
        },
        ProcFile::Version => {
            push_text(&mut out, "RacOS version 0.1.0 (racore) #1\n");
        },
        ProcFile::Cpuinfo => {
            push_text(&mut out, "processor\t: 0\nvendor_id\t: RacOS\nmodel name\t: x86_64 Virtual CPU\ncpu MHz\t\t: 1000.000\ncache size\t: 0 KB\nflags\t\t: fpu sse sse2 syscall nx\n");
        },
        ProcFile::Stat => {
            let q = uptime_ms / 10 / 4;
            push_text(&mut out, "cpu  ");
            push_dec(&mut out, q);
            push_text(&mut out, " ");
            push_dec(&mut out, q);
            push_text(&mut out, " ");
            push_dec(&mut out, q);
            push_text(&mut out, " ");
            push_dec(&mut out, q);
            push_text(&mut out, " 0 0 0 0 0 0\nprocesses ");
            push_dec(&mut out, pid as u64);
            push_text(&mut out, "\n");
        },
        ProcFile::Loadavg => {
            push_text(&mut out, "0.00 0.00 0.00 1/1 ");
            push_dec(&mut out, pid as u64);
            push_text(&mut out, "\n");
        },
    }
    out
}

/// The device `/proc/mounts` shows for a mount of filesystem `name` at
/// `path`: racfs is `/dev/sda` at `/mnt` and `/dev/ram0` elsewhere; the
/// in-memory filesystems show their own name; anything else is "none".
pub open spec fn mount_device(path: Seq<char>, name: Seq<char>) -> Seq<char> {
    if name == "racfs"@ {
        if path == "/mnt"@ { "/dev/sda"@ } else { "/dev/ram0"@ }
    } else if name == "initramfs"@ || name == "tmpfs"@ || name == "devfs"@ || name == "proc"@ {
        name
    } else {
        "none"@
    }
}

/// The lines of `/proc/mounts` for the mounts `ms` (path and filesystem
/// name), in table order.
pub open spec fn mounts_text(ms: Seq<(Seq<char>, Seq<char>)>) -> Seq<char>
    decreases ms.len(),
{
    if ms.len() == 0 {
        Seq::empty()
    } else {
        let (path, name) = ms.last();
        mounts_text(ms.drop_last()) + mount_device(path, name) + " "@ + path + " "@ + name + " rw 0 0\n"@
    }
}

/// The mount entries as sequences.
pub open spec fn mount_views(v: Seq<(String, String)>) -> Seq<(Seq<char>, Seq<char>)> {
    Seq::new(v.len(), |i: int| (v[i].0@, v[i].1@))
}

/// The text of `/proc/mounts` (see [`mounts_text`]).
pub fn proc_mounts_text(mounts: &Vec<(String, String)>) -> (r: String)
    ensures
        r@ == mounts_text(mount_views(mounts@)),
{
    let ghost mv = mount_views(mounts@);
    let mut out = String::new();
    let mut i: usize = 0;
    assert(mv.take(0) =~= Seq::<(Seq<char>, Seq<char>)>::empty());
    while i < mounts.len()
        invariant
            mv == mount_views(mounts@),
            i <= mounts@.len(),
            out@ == mounts_text(mv.take(i as int)),
        decreases mounts@.len() - i,
    {
        let path = mounts[i].0.as_str();
        let name = mounts[i].1.as_str();
        if str_eq(name, "racfs") {
            if str_eq(path, "/mnt") {
                push_text(&mut out, "/dev/sda");
            } else {
                push_text(&mut out, "/dev/ram0");
            }
        } else if str_eq(name, "initramfs") || str_eq(name, "tmpfs") || str_eq(name, "devfs") || str_eq(name, "proc") {
            push_text(&mut out, name);
        } else {
            push_text(&mut out, "none");
        }
        push_text(&mut out, " ");
        push_text(&mut out, path);
        push_text(&mut out, " ");
        push_text(&mut out, name);
        push_text(&mut out, " rw 0 0\n");
        proof {
            assert(mv.take(i + 1).drop_last() =~= mv.take(i as int));
            assert(mv.take(i + 1).last() == (path@, name@));
        }
        i = i + 1;
    }
    assert(mv.take(i as int) =~= mv);
    out
}

/// The usage figures of a racfs mount, `(total_blocks, free_blocks,
/// total_inodes, free_inodes)`; None for a mount that is not block backed.
pub type DiskFigures = Option<(u32, u32, u32, u32)>;

/// The lines of `/proc/diskstats` after its header, one per mount: path,
/// total, used and free blocks, total and free inodes; zeros for mounts
/// that are not block backed.
pub open spec fn diskstats_lines(ms: Seq<(Seq<char>, DiskFigures)>) -> Seq<char>
    decreases ms.len(),
{
    if ms.len() == 0 {
        Seq::empty()
    } else {
        let (path, f) = ms.last();
        diskstats_lines(ms.drop_last()) + path + match f {
            None => " 0 0 0 0 0\n"@,
            Some((tb, fb, ti, fi)) => " "@ + dec(tb as nat) + " "@ + dec((if fb < tb { tb - fb } else { 0 }) as nat)
                + " "@ + dec(fb as nat) + " "@ + dec(ti as nat) + " "@ + dec(fi as nat) + "\n"@,
        }
    }
}

/// The header line of `/proc/diskstats`.
pub open spec fn diskstats_header() -> Seq<char> {
    "# mount total_blocks used_blocks free_blocks total_inodes free_inodes (block=512B)\n"@
}

/// The disk entries as sequences.
pub open spec fn disk_views(v: Seq<(String, DiskFigures)>) -> Seq<(Seq<char>, DiskFigures)> {
    Seq::new(v.len(), |i: int| (v[i].0@, v[i].1))
}

/// The text of `/proc/diskstats`: its header, then [`diskstats_lines`].
pub fn proc_diskstats_text(mounts: &Vec<(String, DiskFigures)>) -> (r: String)
    ensures
        r@ == diskstats_header() + diskstats_lines(disk_views(mounts@)),
{
    let ghost mv = disk_views(mounts@);
    let mut out = String::new();
    push_text(&mut out, "# mount total_blocks used_blocks free_blocks total_inodes free_inodes (block=512B)\n");
    let ghost h = out@;
    let mut i: usize = 0;
    assert(mv.take(0) =~= Seq::<(Seq<char>, DiskFigures)>::empty());
    assert(h + diskstats_lines(mv.take(0)) =~= h);
    while i < mounts.len()
        invariant
            mv == disk_views(mounts@),
            h == diskstats_header(),
            i <= mounts@.len(),
            out@ == h + diskstats_lines(mv.take(i as int)),
        decreases mounts@.len() - i,
    {
        let path = mounts[i].0.as_str();
        let f = mounts[i].1;
        let ghost before = out@;
        push_text(&mut out, path);
        match f {
            None => {
                push_text(&mut out, " 0 0 0 0 0\n");
            },
            Some((tb, fb, ti, fi)) => {
                push_text(&mut out, " ");
                push_dec(&mut out, tb as u64);
                push_text(&mut out, " ");
                push_dec(&mut out, tb.saturating_sub(fb) as u64);
                push_text(&mut out, " ");
                push_dec(&mut out, fb as u64);
                push_text(&mut out, " ");
                push_dec(&mut out, ti as u64);
                push_text(&mut out, " ");
                push_dec(&mut out, fi as u64);
                push_text(&mut out, "\n");
            },
        }
        proof {
            assert(mv.take(i + 1).drop_last() =~= mv.take(i as int));
            assert(mv.take(i + 1).last() == (path@, f));
            assert(out@ =~= h + diskstats_lines(mv.take(i + 1)));
        }
        i = i + 1;
    }
    assert(mv.take(i as int) =~= mv);
    out
}

} // verus!
