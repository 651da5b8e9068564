//! The user-space C library's plain data types and the arithmetic behind its
//! helpers: socket addresses in network byte order, timespecs, the sigaction
//! and poll records, `uname` buffers and the bump allocator's reservation.
//! The raw syscall stubs themselves are I/O and are not part of this crate.

use vstd::prelude::*;

verus! {

/// Address family of IPv4 sockets.
pub const AF_INET: i32 = 2;
/// Stream socket type.
pub const SOCK_STREAM: i32 = 1;
/// The loopback address 127.0.0.1 in host order.
pub const INADDR_LOOPBACK: u32 = 0x7F00_0001;
/// Size of the heap that the bump allocator hands out.
pub const HEAP_SIZE: usize = 262144;

/// A 16-bit value with its two bytes exchanged.
pub open spec fn swap16(x: u16) -> u16 {
    ((x & 0xff) << 8u16) | (x >> 8u16)
}

/// A 32-bit value with its four bytes in reverse order.
pub open spec fn swap32(x: u32) -> u32 {
    ((x & 0xff) << 24u32) | (((x >> 8u32) & 0xff) << 16u32) | (((x >> 16u32) & 0xff) << 8u32)
        | (x >> 24u32)
}

/// Exchange the bytes of a 16-bit value (host order to network order on
/// the little-endian targets this library is built for).
pub fn byte_swap16(x: u16) -> (r: u16)
    ensures
        r == swap16(x),
{
    ((x & 0xff) << 8u16) | (x >> 8u16)
}

/// Reverse the bytes of a 32-bit value.
pub fn byte_swap32(x: u32) -> (r: u32)
    ensures
        r == swap32(x),
{
    ((x & 0xff) << 24u32) | (((x >> 8u32) & 0xff) << 16u32) | (((x >> 16u32) & 0xff) << 8u32)
        | (x >> 24u32)
}

/// Swapping twice gives the value back.
pub proof fn lemma_swap16_involutive(x: u16)
    ensures
        swap16(swap16(x)) == x,
{
    assert((((((x & 0xff) << 8u16) | (x >> 8u16)) & 0xff) << 8u16) | ((((x & 0xff) << 8u16) | (x >> 8u16)) >> 8u16) == x) by (bit_vector);
}

/// Swapping twice gives the value back.
pub proof fn lemma_swap32_involutive(x: u32)
    ensures
        swap32(swap32(x)) == x,
{
    let y = swap32(x);
    assert(y == ((x & 0xff) << 24u32) | (((x >> 8u32) & 0xff) << 16u32) | (((x >> 16u32) & 0xff) << 8u32) | (x >> 24u32));
    assert(((y & 0xff) << 24u32) | (((y >> 8u32) & 0xff) << 16u32) | (((y >> 16u32) & 0xff) << 8u32) | (y >> 24u32) == x) by (bit_vector)
        requires
            y == ((x & 0xff) << 24u32) | (((x >> 8u32) & 0xff) << 16u32) | (((x >> 16u32) & 0xff) << 8u32) | (x >> 24u32),
    ;
}

/// An IPv4 socket address as the kernel reads it: family in host order,
/// port and address in network (big-endian) order.
#[derive(Debug, Clone, Copy, PartialEq, Eq, Structural)]
pub struct SockAddrIn {
    pub sin_family: u16,
    pub sin_port: u16,
    pub sin_addr: u32,
}

impl SockAddrIn {
    /// The loopback address 127.0.0.1 with the given port.
    pub fn new_loopback(port: u16) -> (r: SockAddrIn)
        ensures
            r.sin_family == AF_INET as u16,
            r.sin_port == swap16(port),
            r.sin_addr == swap32(INADDR_LOOPBACK),
    {
        SockAddrIn {
            sin_family: 2,
            sin_port: byte_swap16(port),
            sin_addr: byte_swap32(INADDR_LOOPBACK),
        }
    }

    /// The port in host order.
    pub fn port_host(&self) -> (r: u16)
        ensures
            r == swap16(self.sin_port),
    {
        byte_swap16(self.sin_port)
    }

    /// The address in host order.
    pub fn ip_host(&self) -> (r: u32)
        ensures
            r == swap32(self.sin_addr),
    {
        byte_swap32(self.sin_addr)
    }
}

/// Seconds and nanoseconds.
#[derive(Debug, Clone, Copy, PartialEq, Eq, Structural)]
pub struct Timespec {
    pub tv_sec: u64,
    pub tv_nsec: u64,
}

impl Timespec {
    /// The timespec that `sleep_ms` hands to `nanosleep`.
    pub fn from_millis(ms: u64) -> (r: Timespec)
        ensures
            r.tv_sec == ms / 1000,
            r.tv_nsec == (ms % 1000) * 1_000_000,
            r.tv_sec * 1_000_000_000 + r.tv_nsec == ms * 1_000_000,
    {
        let ts = Timespec { tv_sec: ms / 1000, tv_nsec: (ms % 1000) * 1_000_000 };
        assert(ts.tv_sec * 1_000_000_000 + ts.tv_nsec == ms * 1_000_000) by (nonlinear_arith)
            requires
                ts.tv_sec == ms / 1000,
                ts.tv_nsec == (ms % 1000) * 1_000_000,
        ;
        ts
    }
}

/// A signal action record (handler address or SIG_DFL / SIG_IGN).
#[derive(Debug, Clone, Copy, PartialEq, Eq, Structural)]
pub struct SigAction {
    pub handler: u64,
    pub flags: u32,
    pub mask: u32,
}

/// One entry of a `poll` request.
#[derive(Debug, Clone, Copy, PartialEq, Eq, Structural)]
pub struct PollFd {
    pub fd: i32,
    pub events: i16,
    pub revents: i16,
}

/// Readable.
pub const POLLIN: i16 = 0x0001;
/// Writable.
pub const POLLOUT: i16 = 0x0004;
/// Error.
pub const POLLERR: i16 = 0x0008;
/// Hang-up.
pub const POLLHUP: i16 = 0x0010;
/// Not an open descriptor.
pub const POLLNVAL: i16 = 0x0020;

/// The five 65-byte fields filled by `uname`.
pub struct UtsName {
    pub sysname: [u8; 65],
    pub nodename: [u8; 65],
    pub release: [u8; 65],
    pub version: [u8; 65],
    pub machine: [u8; 65],
}

/// Every byte of a field is zero.
pub open spec fn all_zero65(a: [u8; 65]) -> bool {
    forall|i: int| 0 <= i < 65 ==> a@[i] == 0
}

impl UtsName {
    /// A buffer with every byte zero.
    pub fn zeroed() -> (r: UtsName)
        ensures
            all_zero65(r.sysname),
            all_zero65(r.nodename),
            all_zero65(r.release),
            all_zero65(r.version),
            all_zero65(r.machine),
    {
        let z: [u8; 65] = [0u8; 65];
        assert(forall|i: int| 0 <= i < 65 ==> z@[i] == 0);
        UtsName { sysname: z, nodename: z, release: z, version: z, machine: z }
    }
}

/// `pos` rounded up to a multiple of `align`.
pub open spec fn align_up(pos: int, align: int) -> int {
    if pos % align == 0 { pos } else { pos + (align - pos % align) }
}

/// A never-freeing allocator over a heap of `HEAP_SIZE` bytes: each
/// reservation starts at the first suitably aligned offset past the last.
pub struct BumpAllocator {
    pos: usize,
}

impl BumpAllocator {
    /// Offset of the first free byte.
    pub closed spec fn next(&self) -> nat {
        self.pos as nat
    }

    /// The allocator's invariant: the free offset lies within the heap.
    pub open spec fn wf(&self) -> bool {
        self.next() <= HEAP_SIZE
    }

    /// An allocator with nothing handed out.
    pub fn new() -> (r: BumpAllocator)
        ensures
            r.wf(),
            r.next() == 0,
    {
        BumpAllocator { pos: 0 }
    }

    /// Reserve `size` bytes aligned to `align`; the offset of the block, or
    /// `None` (the null pointer) when the heap cannot hold it, in which case
    /// nothing changes.
    pub fn reserve(&mut self, size: usize, align: usize) -> (r: Option<usize>)
        requires
            old(self).wf(),
            align > 0,
            old(self).next() + align + size <= usize::MAX,
        ensures
            final(self).wf(),
            ({
                let start = align_up(old(self).next() as int, align as int);
                if start + size > HEAP_SIZE {
                    r is None && final(self).next() == old(self).next()
                } else {
                    r == Some(start as usize) && final(self).next() == start + size
                }
            }),
    {
        let rem = self.pos % align;
        let aligned = if rem == 0 { self.pos } else { self.pos + (align - rem) };
        let new_pos = aligned + size;
        if new_pos > HEAP_SIZE {
            return None;
        }
        self.pos = new_pos;
        Some(aligned)
    }
}

/// A reservation starts at a multiple of the alignment, at or after the old
/// free offset, and before the next multiple: blocks never overlap and no
/// more than `align - 1` bytes are skipped.
pub proof fn lemma_align_up(pos: int, align: int)
    requires
        pos >= 0,
        align > 0,
    ensures
        align_up(pos, align) % align == 0,
        pos <= align_up(pos, align) < pos + align,
{
    let r = pos % align;
    let q = pos / align;
    vstd::arithmetic::div_mod::lemma_fundamental_div_mod(pos, align);
    if r != 0 {
        assert(pos + (align - r) == (q + 1) * align) by (nonlinear_arith)
            requires
                pos == align * q + r,
        ;
        vstd::arithmetic::div_mod::lemma_mod_multiples_basic(q + 1, align);
    }
}

} // verus!
