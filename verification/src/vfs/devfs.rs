//! devfs: the registry of device nodes under `/dev` and the devices whose
//! behaviour is pure computation (null, zero, the urandom generator) or
//! plain memory (the RAM disk).

use vstd::prelude::*;
use crate::vfs::inode::{DirEntry, FileMode, FileType, InodeMetadata, InodeNum, VfsError, VfsResult, fresh_metadata};
use crate::vfs::mount::Filesystem;
use crate::vfs::racfs_volume::{has_sector, read_device_sector, sector_bytes, with_sector, write_device_sector};

verus! {

/// Device type.
#[derive(Debug, Clone, Copy, PartialEq, Eq, Structural)]
pub enum DeviceType {
    Char,
    Block,
}

/// Which driver serves a device node.
#[derive(Debug, Clone, Copy, PartialEq, Eq, Structural)]
pub enum DeviceKind {
    Serial,
    Null,
    Zero,
    Urandom,
    Ptmx,
    PtySlave,
    RamBlock,
}

/// Reading and writing a device.
pub trait DeviceOps {
    fn read(&self, offset: u64, buf: &mut [u8]) -> VfsResult<usize>;
    fn write(&self, offset: u64, buf: &[u8]) -> VfsResult<usize>;
}

/// `/dev/null`: reads are at end of file, writes are all accepted.
pub struct NullDevice;

impl DeviceOps for NullDevice {
    fn read(&self, _offset: u64, _buf: &mut [u8]) -> (r: VfsResult<usize>)
        ensures
            r == Ok::<usize, VfsError>(0),
            final(_buf)@ == old(_buf)@,
    {
        Ok(0)
    }

    fn write(&self, _offset: u64, buf: &[u8]) -> (r: VfsResult<usize>)
        ensures
            r == Ok::<usize, VfsError>(buf@.len() as usize),
    {
        Ok(buf.len())
    }
}

/// `/dev/zero`: reads fill the buffer with zeros, writes are all accepted.
pub struct ZeroDevice;

impl DeviceOps for ZeroDevice {
    fn read(&self, _offset: u64, buf: &mut [u8]) -> (r: VfsResult<usize>)
        ensures
            r == Ok::<usize, VfsError>(old(buf)@.len() as usize),
            final(buf)@.len() == old(buf)@.len(),
            forall|i: int| 0 <= i < final(buf)@.len() ==> final(buf)@[i] == 0u8,
    {
        let mut i: usize = 0;
        while i < buf.len()
            invariant
                i <= buf@.len(),
                buf@.len() == old(buf)@.len(),
                forall|k: int| 0 <= k < i ==> buf@[k] == 0u8,
            decreases buf@.len() - i,
        {
            buf[i] = 0;
            i = i + 1;
        }
        Ok(buf.len())
    }

    fn write(&self, _offset: u64, buf: &[u8]) -> (r: VfsResult<usize>)
        ensures
            r == Ok::<usize, VfsError>(buf@.len() as usize),
    {
        Ok(buf.len())
    }
}

/// `/dev/urandom`: bytes from a linear congruential generator seeded from
/// the uptime, the caller's pid and the request size (see [`urandom_fill`]).
pub struct UrandomDevice;

/// The generator's state after `n` steps from `seed`.
pub open spec fn lcg_state(seed: u64, n: nat) -> u64
    decreases n,
{
    if n == 0 {
        seed
    } else {
        let s = lcg_state(seed, (n - 1) as nat);
        ((s as int * 6364136223846793005 + 1442695040888963407) % 0x1_0000_0000_0000_0000) as u64
    }
}

/// One generator step done with wrapping `u64` arithmetic is the step
/// modulo 2^64.
proof fn lemma_lcg_step(s: u64)
    ensures
        (s.wrapping_mul(6364136223846793005)).wrapping_add(1442695040888963407)
            == ((s as int * 6364136223846793005 + 1442695040888963407) % 0x1_0000_0000_0000_0000) as u64,
{
    let r: int = 0x1_0000_0000_0000_0000;
    let a: int = 6364136223846793005;
    let b: int = 1442695040888963407;
    let m = (s as int * a) % r;
    assert(0 <= m < r) by (nonlinear_arith)
        requires
            r > 0,
            m == (s as int * a) % r;
    vstd::arithmetic::div_mod::lemma_add_mod_noop(s as int * a, b, r);
    vstd::arithmetic::div_mod::lemma_small_mod(b as nat, r as nat);
    if m + b >= r {
        vstd::arithmetic::div_mod::lemma_small_mod((m + b - r) as nat, r as nat);
        vstd::arithmetic::div_mod::lemma_mod_sub_multiples_vanish(m + b, r);
    } else {
        vstd::arithmetic::div_mod::lemma_small_mod((m + b) as nat, r as nat);
    }
}

impl UrandomDevice {
    /// Fill `buf` from the generator: byte `i` is bits 33..41 of the state
    /// after `i + 1` steps from `seed`.
    pub fn fill(seed: u64, buf: &mut [u8])
        ensures
            final(buf)@.len() == old(buf)@.len(),
            forall|i: int| 0 <= i < final(buf)@.len() ==>
                final(buf)@[i] == ((lcg_state(seed, (i + 1) as nat) >> 33u64) % 256) as u8,
    {
        let mut s = seed;
        let mut i: usize = 0;
        while i < buf.len()
            invariant
                i <= buf@.len(),
                buf@.len() == old(buf)@.len(),
                s == lcg_state(seed, i as nat),
                forall|k: int| 0 <= k < i ==> buf@[k] == ((lcg_state(seed, (k + 1) as nat) >> 33u64) % 256) as u8,
            decreases buf@.len() - i,
        {
            let ghost prev = s;
            s = s.wrapping_mul(6364136223846793005).wrapping_add(1442695040888963407);
            proof { lemma_lcg_step(prev); }
            assert(s == lcg_state(seed, (i + 1) as nat));
            buf[i] = ((s >> 33) % 256) as u8;
            i = i + 1;
        }
    }

    /// Writes are accepted and ignored.
    pub fn write(buf: &[u8]) -> (r: VfsResult<usize>)
        ensures
            r == Ok::<usize, VfsError>(buf@.len() as usize),
    {
        Ok(buf.len())
    }
}

/// A registered device node.
struct DeviceNode {
    name: String,
    ino: InodeNum,
    dev_type: DeviceType,
    major: u32,
    minor: u32,
    kind: DeviceKind,
}

/// What a device node holds, as seen by the contracts.
pub ghost struct DeviceView {
    pub name: Seq<char>,
    pub ino: InodeNum,
    pub dev_type: DeviceType,
    pub major: u32,
    pub minor: u32,
    pub kind: DeviceKind,
}

spec fn device_view(d: DeviceNode) -> DeviceView {
    DeviceView { name: d.name@, ino: d.ino, dev_type: d.dev_type, major: d.major, minor: d.minor, kind: d.kind }
}

/// The file type a device node shows.
pub open spec fn node_type(t: DeviceType) -> FileType {
    match t {
        DeviceType::Char => FileType::CharDevice,
        DeviceType::Block => FileType::BlockDevice,
    }
}

/// The first device named `name`, by position.
pub open spec fn first_device_named(dv: Seq<DeviceView>, name: Seq<char>) -> Option<int>
    decreases dv.len(),
{
    if dv.len() == 0 {
        None
    } else {
        match first_device_named(dv.drop_last(), name) {
            Some(i) => Some(i),
            None => if dv.last().name == name { Some(dv.len() - 1) } else { None },
        }
    }
}

/// The device filesystem: inode 0 is the `/dev` directory, device `i` has
/// inode `i + 1`.
pub struct Devfs {
    devices: Vec<DeviceNode>,
}

impl Devfs {
    /// The registered devices, in order.
    pub closed spec fn view(&self) -> Seq<DeviceView> {
        self.devices@.map_values(|d: DeviceNode| device_view(d))
    }

    /// Each device's inode is its position plus one.
    pub open spec fn wf(&self) -> bool {
        &&& self.view().len() + 1 < u64::MAX
        &&& forall|i: int| 0 <= i < self.view().len() ==> (#[trigger] self.view()[i]).ino == i + 1
    }

    /// An empty `/dev`.
    pub fn new() -> (r: Devfs)
        ensures
            r.wf(),
            r.view().len() == 0,
    {
        Devfs { devices: Vec::new() }
    }

    /// Register a device; returns its inode number.
    pub fn register(&mut self, name: &str, dev_type: DeviceType, major: u32, minor: u32, kind: DeviceKind) -> (ino: InodeNum)
        requires
            old(self).wf(),
            old(self).view().len() + 2 < u64::MAX,
        ensures
            final(self).wf(),
            ino == old(self).view().len() + 1,
            final(self).view() == old(self).view().push(DeviceView {
                name: name@, ino, dev_type, major, minor, kind,
            }),
    {
        let ino = self.devices.len() as u64 + 1;
        self.devices.push(DeviceNode { name: name.to_owned(), ino, dev_type, major, minor, kind });
        proof {
            assert(self.view() =~= old(self).view().push(DeviceView {
                name: name@, ino, dev_type, major, minor, kind,
            }));
        }
        ino
    }

    /// Register the standard devices: serial0, null, zero, console,
    /// urandom, random, tty, ptmx, pts0, stdin, stdout, stderr, and ram0
    /// when the RAM disk exists.
    pub fn register_defaults(&mut self, have_ram0: bool)
        requires
            old(self).wf(),
            old(self).view().len() + 16 < u64::MAX,
        ensures
            final(self).wf(),
            final(self).view().len() == old(self).view().len() + if have_ram0 { 13int } else { 12int },
            final(self).view().subrange(0, old(self).view().len() as int) == old(self).view(),
    {
        let ghost v0 = self.view();
        self.register("serial0", DeviceType::Char, 1, 0, DeviceKind::Serial);
        self.register("null", DeviceType::Char, 2, 0, DeviceKind::Null);
        self.register("zero", DeviceType::Char, 3, 0, DeviceKind::Zero);
        self.register("console", DeviceType::Char, 4, 0, DeviceKind::Serial);
        self.register("urandom", DeviceType::Char, 1, 9, DeviceKind::Urandom);
        self.register("random", DeviceType::Char, 1, 8, DeviceKind::Urandom);
        self.register("tty", DeviceType::Char, 5, 0, DeviceKind::Serial);
        self.register("ptmx", DeviceType::Char, 5, 2, DeviceKind::Ptmx);
        self.register("pts0", DeviceType::Char, 136, 0, DeviceKind::PtySlave);
        self.register("stdin", DeviceType::Char, 0, 0, DeviceKind::Serial);
        self.register("stdout", DeviceType::Char, 0, 1, DeviceKind::Serial);
        self.register("stderr", DeviceType::Char, 0, 2, DeviceKind::Serial);
        if have_ram0 {
            self.register("ram0", DeviceType::Block, 8, 0, DeviceKind::RamBlock);
        }
        assert(self.view().subrange(0, v0.len() as int) =~= v0);
    }

    /// Inode `ino` exists: 0 is `/dev`, `1..=n` the devices.
    pub fn get_inode(&self, ino: InodeNum) -> (r: VfsResult<InodeNum>)
        requires
            self.wf(),
        ensures
            ino <= self.view().len() ==> r == Ok::<InodeNum, VfsError>(ino),
            ino > self.view().len() ==> r == Err::<InodeNum, VfsError>(VfsError::NotFound),
    {
        if ino == 0 {
            return Ok(0);
        }
        let idx = ino - 1;
        if idx >= self.devices.len() as u64 {
            return Err(VfsError::NotFound);
        }
        Ok(ino)
    }

    /// Look a device up by name in `/dev`.
    pub fn lookup(&self, name: &str) -> (r: VfsResult<InodeNum>)
        requires
            self.wf(),
        ensures
            match first_device_named(self.view(), name@) {
                Some(i) => r == Ok::<InodeNum, VfsError>((i + 1) as InodeNum),
                None => r == Err::<InodeNum, VfsError>(VfsError::NotFound),
            },
    {
        let ghost dv = self.view();
        let mut k: usize = 0;
        assert(dv.take(0) =~= Seq::<DeviceView>::empty());
        while k < self.devices.len()
            invariant
                k <= self.devices@.len(),
                dv == self.view(),
                self.wf(),
                first_device_named(dv.take(k as int), name@) is None,
            decreases self.devices@.len() - k,
        {
            assert(dv.take(k + 1).drop_last() =~= dv.take(k as int));
            assert(dv.take(k + 1).last() == device_view(self.devices@[k as int]));
            if str_eq_string(&self.devices[k].name, name) {
                assert(first_device_named(dv.take(k + 1), name@) == Some(k as int));
                proof { lemma_first_device_prefix(dv, k + 1, name@); }
                return Ok(self.devices[k].ino);
            }
            k = k + 1;
        }
        assert(dv.take(k as int) =~= dv);
        Err(VfsError::NotFound)
    }

    /// The devices as directory entries, in registration order.
    pub fn readdir(&self) -> (r: Vec<DirEntry>)
        ensures
            r@.len() == self.view().len(),
            forall|i: int| 0 <= i < r@.len() ==> (#[trigger] r@[i]).name@ == self.view()[i].name
                && r@[i].ino == self.view()[i].ino
                && r@[i].file_type == node_type(self.view()[i].dev_type),
    {
        let mut out: Vec<DirEntry> = Vec::new();
        let mut k: usize = 0;
        while k < self.devices.len()
            invariant
                k <= self.devices@.len(),
                out@.len() == k,
                forall|i: int| 0 <= i < k ==> (#[trigger] out@[i]).name@ == self.view()[i].name
                    && out@[i].ino == self.view()[i].ino
                    && out@[i].file_type == node_type(self.view()[i].dev_type),
            decreases self.devices@.len() - k,
        {
            let d = &self.devices[k];
            assert(device_view(*d) == self.view()[k as int]);
            let file_type = match d.dev_type {
                DeviceType::Char => FileType::CharDevice,
                DeviceType::Block => FileType::BlockDevice,
            };
            out.push(DirEntry { name: d.name.clone(), ino: d.ino, file_type });
            k = k + 1;
        }
        out
    }

    /// Metadata of `/dev` (inode 0): a directory with mode 0755.
    pub fn root_metadata(&self) -> (r: InodeMetadata)
        ensures
            r == (InodeMetadata { mode: FileMode(0o755), ..fresh_metadata(0, FileType::Directory) }),
    {
        let mut meta = InodeMetadata::new(0, FileType::Directory);
        meta.mode = FileMode::new(0o755);
        assert(0o755u32 & 0o7777 == 0o755) by (bit_vector);
        meta
    }

    /// Metadata of device `idx`: its inode, type, mode 0666 and its major
    /// and minor numbers.
    pub fn device_metadata(&self, idx: usize) -> (r: InodeMetadata)
        requires
            idx < self.view().len(),
        ensures
            ({
                let d = self.view()[idx as int];
                r == (InodeMetadata {
                    mode: FileMode(0o666),
                    dev_major: d.major,
                    dev_minor: d.minor,
                    ..fresh_metadata(d.ino, node_type(d.dev_type))
                })
            }),
    {
        let d = &self.devices[idx];
        assert(device_view(*d) == self.view()[idx as int]);
        let file_type = match d.dev_type {
            DeviceType::Char => FileType::CharDevice,
            DeviceType::Block => FileType::BlockDevice,
        };
        let mut meta = InodeMetadata::new(d.ino, file_type);
        meta.mode = FileMode::new(0o666);
        assert(0o666u32 & 0o7777 == 0o666) by (bit_vector);
        meta.dev_major = d.major;
        meta.dev_minor = d.minor;
        meta
    }

    /// The driver serving device `idx`.
    pub fn device_kind(&self, idx: usize) -> (r: DeviceKind)
        requires
            idx < self.view().len(),
        ensures
            r == self.view()[idx as int].kind,
    {
        let d = &self.devices[idx];
        assert(device_view(*d) == self.view()[idx as int]);
        d.kind
    }
}

/// Does the string hold the characters of `b`?
fn str_eq_string(a: &String, b: &str) -> (r: bool)
    ensures
        r == (a@ == b@),
{
    crate::encoding::str_eq(a.as_str(), b)
}

/// Once a prefix has a device of that name, the whole list has the same.
proof fn lemma_first_device_prefix(dv: Seq<DeviceView>, j: int, name: Seq<char>)
    requires
        0 <= j <= dv.len(),
        first_device_named(dv.take(j), name) is Some,
    ensures
        first_device_named(dv, name) == first_device_named(dv.take(j), name),
    decreases dv.len() - j,
{
    if j == dv.len() {
        assert(dv.take(j) =~= dv);
    } else {
        assert(dv.take(j + 1).drop_last() =~= dv.take(j));
        lemma_first_device_prefix(dv, j + 1, name);
    }
}

/// `/dev` as a mounted filesystem.
pub struct DevfsFilesystem {
    inner: Devfs,
}

impl DevfsFilesystem {
    /// Mount `devfs`.
    pub fn new(devfs: Devfs) -> (r: DevfsFilesystem)
        ensures
            r.fs() == devfs,
    {
        DevfsFilesystem { inner: devfs }
    }

    /// The mounted registry.
    pub closed spec fn fs(&self) -> Devfs {
        self.inner
    }

    /// The mounted registry.
    pub fn inner(&self) -> (r: &Devfs)
        ensures
            *r == self.fs(),
    {
        &self.inner
    }

    /// The filesystem's name.
    pub fn name(&self) -> (r: &'static str)
        ensures
            r@ == "devfs"@,
    {
        "devfs"
    }
}

/// The bytes of a RAM disk that are part of the device: its whole
/// sectors.
pub open spec fn ram_size(d: Seq<u8>) -> int {
    ((d.len() / 512) * 512) as int
}

/// What a read of at most `n` bytes at `offset` finds: the bytes up to the
/// end of the device.
pub open spec fn ram_read_len(d: Seq<u8>, offset: int, n: int) -> int {
    if offset >= ram_size(d) { 0 } else if n < ram_size(d) - offset { n } else { ram_size(d) - offset }
}

/// The device after writing `data` at `offset`, as much of it as fits.
pub open spec fn ram_written(d: Seq<u8>, offset: int, data: Seq<u8>) -> Seq<u8> {
    let n = ram_read_len(d, offset, data.len() as int);
    d.subrange(0, offset) + data.take(n) + d.subrange(offset + n, d.len() as int)
}

/// `/dev/ram0`: a RAM disk read and written at byte offsets through whole
/// sectors.
pub struct RamBlockDevOps {
    dev: Vec<u8>,
}

impl RamBlockDevOps {
    /// The disk's bytes.
    pub closed spec fn bytes(&self) -> Seq<u8> {
        self.dev@
    }

    pub fn new(dev: Vec<u8>) -> (r: RamBlockDevOps)
        ensures
            r.bytes() == dev@,
    {
        RamBlockDevOps { dev }
    }

    /// The disk, handed back.
    pub fn into_inner(self) -> (r: Vec<u8>)
        ensures
            r@ == self.bytes(),
    {
        self.dev
    }

    /// Read at most `buf.len()` bytes at `offset` into the front of `buf`
    /// (see [`ram_read_len`]); nothing at or past the end of the device.
    pub fn read(&self, offset: u64, buf: &mut [u8]) -> (r: VfsResult<usize>)
        ensures
            offset >= ram_size(self.bytes()) ==> r == Ok::<usize, VfsError>(0usize) && final(buf)@ == old(buf)@,
            offset < ram_size(self.bytes()) ==> ({
                let n = ram_read_len(self.bytes(), offset as int, old(buf)@.len() as int);
                &&& r == Ok::<usize, VfsError>(n as usize)
                &&& final(buf)@ == self.bytes().subrange(offset as int, offset + n) + old(buf)@.skip(n)
            }),
    {
        let ghost d = self.dev@;
        let total = (self.dev.len() / 512) as u64 * 512;
        assert(total == ram_size(d)) by (nonlinear_arith)
            requires
                total == (d.len() / 512) * 512,
                d.len() <= usize::MAX,
        ;
        if offset >= total {
            return Ok(0);
        }
        let avail = total - offset;
        let to_read: usize = if (buf.len() as u64) < avail { buf.len() } else { avail as usize };
        let ghost b0 = buf@;
        let mut done: usize = 0;
        let mut pos: u64 = offset;
        while done < to_read
            invariant
                d == self.dev@,
                total == ram_size(d),
                offset < total,
                to_read <= b0.len(),
                offset + to_read <= total,
                buf@.len() == b0.len(),
                done <= to_read,
                pos == offset + done,
                forall|t: int| 0 <= t < done ==> #[trigger] buf@[t] == d[offset + t],
                forall|t: int| done <= t < b0.len() ==> #[trigger] buf@[t] == b0[t],
            decreases to_read - done,
        {
            let lba = pos / 512;
            let off = (pos % 512) as usize;
            let mut sector = [0u8; 512];
            proof {
                assert(512 * lba + off == pos && off < 512) by (nonlinear_arith)
                    requires
                        lba == pos / 512,
                        off == pos % 512,
                ;
                assert(has_sector(d, lba as int)) by (nonlinear_arith)
                    requires
                        512 * lba + off == pos,
                        pos < total,
                        total == (d.len() / 512) * 512,
                        off >= 0,
                ;
            }
            match read_device_sector(&self.dev, lba, &mut sector) {
                Ok(()) => {}
                Err(e) => return Err(e),
            }
            let room = 512 - off;
            let chunk = if room < to_read - done { room } else { to_read - done };
            let mut k: usize = 0;
            while k < chunk
                invariant
                    chunk <= 512 - off,
                    done + chunk <= to_read,
                    to_read <= b0.len(),
                    buf@.len() == b0.len(),
                    sector@ == sector_bytes(d, lba as int),
                    512 * lba + off == pos,
                    pos == offset + done,
                    has_sector(d, lba as int),
                    off < 512,
                    k <= chunk,
                    forall|t: int| 0 <= t < done + k ==> #[trigger] buf@[t] == d[offset + t],
                    forall|t: int| done + k <= t < b0.len() ==> #[trigger] buf@[t] == b0[t],
                decreases chunk - k,
            {
                assert(sector@[off + k] == d[offset + (done + k)]);
                buf[done + k] = sector[off + k];
                k = k + 1;
            }
            done = done + chunk;
            pos = pos + chunk as u64;
        }
        assert(buf@ =~= d.subrange(offset as int, offset + to_read) + b0.skip(to_read as int));
        Ok(to_read)
    }

    /// Write as much of `data` as fits at `offset` (see [`ram_written`]):
    /// NoSpace at or past the end of the device.
    pub fn write(&mut self, offset: u64, data: &[u8]) -> (r: VfsResult<usize>)
        ensures
            offset >= ram_size(old(self).bytes()) ==> r == Err::<usize, VfsError>(VfsError::NoSpace) && final(self).bytes() == old(self).bytes(),
            offset < ram_size(old(self).bytes()) ==> r == Ok::<usize, VfsError>(ram_read_len(old(self).bytes(), offset as int, data@.len() as int) as usize)
                && final(self).bytes() == ram_written(old(self).bytes(), offset as int, data@),
    {
        let ghost d0 = self.dev@;
        let total = (self.dev.len() / 512) as u64 * 512;
        assert(total == ram_size(d0)) by (nonlinear_arith)
            requires
                total == (d0.len() / 512) * 512,
                d0.len() <= usize::MAX,
        ;
        if offset >= total {
            return Err(VfsError::NoSpace);
        }
        let avail = total - offset;
        let to_write: usize = if (data.len() as u64) < avail { data.len() } else { avail as usize };
        let mut done: usize = 0;
        let mut pos: u64 = offset;
        while done < to_write
            invariant
                total == ram_size(d0),
                d0 == old(self).bytes(),
                self.dev@.len() == d0.len(),
                offset < total,
                to_write <= data@.len(),
                offset + to_write <= total,
                done <= to_write,
                pos == offset + done,
                forall|j: int| 0 <= j < d0.len() ==> #[trigger] self.dev@[j]
                    == (if offset <= j < offset + done { data@[j - offset] } else { d0[j] }),
            decreases to_write - done,
        {
            let lba = pos / 512;
            let off = (pos % 512) as usize;
            proof {
                assert(512 * lba + off == pos && off < 512) by (nonlinear_arith)
                    requires
                        lba == pos / 512,
                        off == pos % 512,
                ;
                assert(has_sector(self.dev@, lba as int)) by (nonlinear_arith)
                    requires
                        512 * lba + off == pos,
                        pos < total,
                        total == (self.dev@.len() / 512) * 512,
                        off >= 0,
                ;
            }
            let ghost before = self.dev@;
            let mut sector = [0u8; 512];
            let partial = off != 0 || to_write - done < 512;
            if partial {
                match read_device_sector(&self.dev, lba, &mut sector) {
                    Ok(()) => {}
                    Err(e) => return Err(e),
                }
            }
            let ghost s0 = sector@;
            assert(partial ==> s0 == sector_bytes(before, lba as int));
            let room = 512 - off;
            let chunk = if room < to_write - done { room } else { to_write - done };
            let mut k: usize = 0;
            while k < chunk
                invariant
                    chunk <= 512 - off,
                    done + chunk <= to_write,
                    to_write <= data@.len(),
                    k <= chunk,
                    sector@.len() == 512,
                    forall|t: int| 0 <= t < k ==> #[trigger] sector@[off + t] == data@[done + t],
                    forall|t: int| 0 <= t < 512 && !(off <= t < off + k) ==> #[trigger] sector@[t] == s0[t],
                decreases chunk - k,
            {
                sector[off + k] = data[done + k];
                k = k + 1;
            }
            match write_device_sector(&mut self.dev, lba, &sector) {
                Ok(()) => {}
                Err(e) => return Err(e),
            }
            proof {
                assert forall|j: int| 0 <= j < d0.len() implies #[trigger] self.dev@[j]
                    == (if offset <= j < offset + done + chunk { data@[j - offset] } else { d0[j] }) by {
                    crate::vfs::racfs_volume::lemma_with_sector_index(before, lba as int, sector@, j);
                    assert(before[j] == (if offset <= j < offset + done { data@[j - offset] } else { d0[j] }));
                    if 512 * lba <= j < 512 * lba + 512 {
                        let t = j - 512 * lba;
                        if off <= t < off + chunk {
                            let u = t - off;
                            assert(sector@[off + u] == data@[done + u]);
                            assert(j - offset == done + u);
                        } else {
                            assert(partial) by {
                                if !partial {
                                    assert(off == 0 && chunk == 512);
                                }
                            }
                            assert(sector@[t] == s0[t]);
                            assert(s0[t] == before[j]);
                        }
                    }
                }
            }
            done = done + chunk;
            pos = pos + chunk as u64;
        }
        assert(self.dev@ =~= ram_written(d0, offset as int, data@));
        Ok(to_write)
    }
}

/// What a RAM disk read gives back is what was written there: after
/// writing `data` at `offset` inside the device, reading as many bytes
/// as were written at `offset` gives the written bytes.
pub proof fn lemma_ram_write_then_read(d: Seq<u8>, offset: int, data: Seq<u8>)
    requires
        0 <= offset < ram_size(d),
    ensures
        ({
            let n = ram_read_len(d, offset, data.len() as int);
            let d1 = ram_written(d, offset, data);
            &&& ram_size(d1) == ram_size(d)
            &&& ram_read_len(d1, offset, n) == n
            &&& d1.subrange(offset, offset + n) == data.take(n)
        }),
{
    let n = ram_read_len(d, offset, data.len() as int);
    let d1 = ram_written(d, offset, data);
    assert(ram_size(d) <= d.len()) by (nonlinear_arith)
        requires
            d.len() >= 0,
    ;
    assert(d1.len() == d.len());
    assert(d1.subrange(offset, offset + n) =~= data.take(n));
}

impl Filesystem for DevfsFilesystem {
    open spec fn ready(&self) -> bool {
        self.fs().wf()
    }

    open spec fn root(&self) -> InodeNum {
        0
    }

    /// `/dev` holds the devices by name; a device is no directory.
    open spec fn child(&self, dir: InodeNum, name: Seq<char>) -> VfsResult<InodeNum> {
        if dir == 0 {
            match first_device_named(self.fs().view(), name) {
                Some(i) => Ok((i + 1) as InodeNum),
                None => Err(VfsError::NotFound),
            }
        } else {
            Err(VfsError::NotADirectory)
        }
    }

    fn root_inode(&self) -> (r: InodeNum) {
        0
    }

    fn lookup_in(&self, dir: InodeNum, name: &str) -> (r: VfsResult<InodeNum>) {
        if dir == 0 {
            self.inner.lookup(name)
        } else {
            Err(VfsError::NotADirectory)
        }
    }
}

} // verus!
