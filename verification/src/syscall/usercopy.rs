//! The decisions behind access to user memory: which pages a user range
//! covers, whether each may be touched the way the kernel is about to, and
//! how far a NUL-terminated string reaches. The page-table walk itself is
//! the caller's: it hands in the flags found for each page and the bytes
//! that are readable from the string's start.

use vstd::prelude::*;
use vstd::utf8::{decode_utf8, valid_utf8};
use crate::encoding::utf8_str;
use crate::syscall::error::SyscallError;

verus! {

/// Highest address a user pointer may name (canonical lower half).
pub const USER_SPACE_MAX: u64 = 0x0000_7FFF_FFFF_FFFF;
/// Size of a page.
pub const PAGE_SIZE: u64 = 4096;
/// Page-table flag: the page may be written.
pub const PTE_WRITABLE: u64 = 2;
/// Page-table flag: ring 3 may access the page.
pub const PTE_USER: u64 = 4;

/// The direction of the access the kernel is about to make.
#[derive(Clone, Copy, PartialEq, Eq, Debug, Structural)]
pub enum Access {
    /// The kernel reads the range (a write(2) buffer, a path, argv).
    Read,
    /// The kernel writes the range (a read(2) buffer, a stat buffer).
    Write,
}

/// The bounds part of the check: non-null, inside user space, no wrap.
pub open spec fn range_bounds_ok(ptr: u64, len: usize) -> bool {
    ptr != 0 && ptr + len <= USER_SPACE_MAX
}

/// Start of the page holding `addr`.
pub open spec fn page_of(addr: int) -> int {
    addr - addr % (PAGE_SIZE as int)
}

/// Pages the non-empty range `[ptr, ptr + len)` touches.
pub open spec fn pages_spanned(ptr: u64, len: usize) -> int {
    (page_of(ptr + len - 1) - page_of(ptr as int)) / (PAGE_SIZE as int) + 1
}

/// A page with these flags (`None`: not present) may be accessed by ring 3
/// in the given way.
pub open spec fn page_allows(f: Option<u64>, access: Access) -> bool {
    match f {
        None => false,
        Some(bits) => bits & PTE_USER != 0 && (access == Access::Write ==> bits & PTE_WRITABLE != 0),
    }
}

/// Whether a page found with flags `f` may be accessed the given way.
pub fn page_access_ok(f: Option<u64>, access: Access) -> (r: bool)
    ensures
        r == page_allows(f, access),
{
    match f {
        None => false,
        Some(bits) => {
            if bits & PTE_USER == 0 {
                false
            } else if access == Access::Write && bits & PTE_WRITABLE == 0 {
                false
            } else {
                true
            }
        }
    }
}

/// Number of pages `[ptr, ptr + len)` touches, for a range whose bounds
/// are valid and which is not empty.
pub fn range_page_count(ptr: u64, len: usize) -> (r: u64)
    requires
        range_bounds_ok(ptr, len),
        len > 0,
    ensures
        r == pages_spanned(ptr, len),
        r >= 1,
{
    let first = ptr - ptr % PAGE_SIZE;
    let last_addr = ptr + (len as u64) - 1;
    let last = last_addr - last_addr % PAGE_SIZE;
    assert(first <= last) by {
        assert(ptr <= last_addr);
        assert(ptr % 4096 < 4096 && last_addr % 4096 < 4096);
        vstd::arithmetic::div_mod::lemma_fundamental_div_mod(ptr as int, 4096);
        vstd::arithmetic::div_mod::lemma_fundamental_div_mod(last_addr as int, 4096);
        vstd::arithmetic::div_mod::lemma_div_is_ordered(ptr as int, last_addr as int, 4096);
        assert(first == 4096 * (ptr as int / 4096));
        assert(last == 4096 * (last_addr as int / 4096));
        vstd::arithmetic::mul::lemma_mul_inequality(ptr as int / 4096, last_addr as int / 4096, 4096);
    }
    (last - first) / PAGE_SIZE + 1
}

/// Is every page of `[ptr, ptr + len)` one the process may access the way
/// `access` says? `page_flags[i]` is what the page table holds for the
/// i-th page of the range (`None`: not present). EFAULT on a bad bound or
/// the first page that fails; a zero-length range only needs sane bounds.
pub fn check_user_range(ptr: u64, len: usize, access: Access, page_flags: &Vec<Option<u64>>) -> (r: Result<(), SyscallError>)
    requires
        range_bounds_ok(ptr, len) && len > 0 ==> page_flags.len() >= pages_spanned(ptr, len),
    ensures
        r is Ok <==> (range_bounds_ok(ptr, len) && (len > 0 ==> forall|i: int|
            0 <= i < pages_spanned(ptr, len) ==> #[trigger] page_allows(page_flags@[i], access))),
        r is Err ==> r == Err::<(), SyscallError>(SyscallError::EFAULT),
{
    if ptr == 0 || ptr > USER_SPACE_MAX {
        return Err(SyscallError::EFAULT);
    }
    let end = match ptr.checked_add(len as u64) {
        Some(e) => e,
        None => return Err(SyscallError::EFAULT),
    };
    if end > USER_SPACE_MAX {
        return Err(SyscallError::EFAULT);
    }
    if len == 0 {
        return Ok(());
    }
    let count = range_page_count(ptr, len);
    let mut i: u64 = 0;
    while i < count
        invariant
            count == pages_spanned(ptr, len),
            range_bounds_ok(ptr, len),
            len > 0,
            page_flags.len() >= count,
            i <= count,
            forall|k: int| 0 <= k < i ==> #[trigger] page_allows(page_flags@[k], access),
        decreases count - i,
    {
        if !page_access_ok(page_flags[i as usize], access) {
            return Err(SyscallError::EFAULT);
        }
        i = i + 1;
    }
    Ok(())
}

/// What scanning for a NUL finds, given the bytes readable from the
/// string's start (a run that ends where the first page the process may
/// not read begins): the string's length, ENAMETOOLONG when no NUL comes
/// within `max` bytes, EFAULT when the readable bytes end first. Reaching
/// the end of the readable bytes is noticed before the length limit, as
/// the page check comes before the byte is looked at.
pub open spec fn scan_nul(readable: Seq<u8>, max: int, i: int) -> Result<usize, SyscallError>
    decreases readable.len() - i,
{
    if i < 0 || i >= readable.len() {
        Err(SyscallError::EFAULT)
    } else if readable[i] == 0 {
        Ok(i as usize)
    } else if i >= max {
        Err(SyscallError::ENAMETOOLONG)
    } else {
        scan_nul(readable, max, i + 1)
    }
}

/// Length of the NUL-terminated string at `ptr`, not counting the NUL, at
/// most `max` bytes (ENAMETOOLONG past that). `readable` holds the bytes the process may read from
/// `ptr` on.
pub fn strlen_user(ptr: u64, max: usize, readable: &[u8]) -> (r: Result<usize, SyscallError>)
    ensures
        (ptr == 0 || ptr > USER_SPACE_MAX) ==> r == Err::<usize, SyscallError>(SyscallError::EFAULT),
        !(ptr == 0 || ptr > USER_SPACE_MAX) ==> r == scan_nul(readable@, max as int, 0),
{
    if ptr == 0 || ptr > USER_SPACE_MAX {
        return Err(SyscallError::EFAULT);
    }
    let mut i: usize = 0;
    while i < readable.len()
        invariant
            ptr != 0 && ptr <= USER_SPACE_MAX,
            i <= readable.len(),
            i <= max,
            scan_nul(readable@, max as int, 0) == scan_nul(readable@, max as int, i as int),
        decreases readable.len() - i,
    {
        if readable[i] == 0 {
            return Ok(i);
        }
        if i >= max {
            return Err(SyscallError::ENAMETOOLONG);
        }
        i = i + 1;
    }
    Err(SyscallError::EFAULT)
}

/// A successful scan stops at a NUL inside the readable bytes, with no NUL
/// before it.
pub proof fn lemma_scan_nul_ok(readable: Seq<u8>, max: int, i: int)
    requires
        0 <= i <= max,
        readable.len() <= usize::MAX,
        scan_nul(readable, max, i) is Ok,
    ensures
        ({
            let n = scan_nul(readable, max, i)->Ok_0 as int;
            &&& i <= n < readable.len()
            &&& n <= max
            &&& readable[n] == 0
            &&& forall|k: int| i <= k < n ==> readable[k] != 0
        }),
    decreases readable.len() - i,
{
    if i < readable.len() && readable[i] != 0 && i < max {
        assert(scan_nul(readable, max, i) == scan_nul(readable, max, i + 1));
        lemma_scan_nul_ok(readable, max, i + 1);
        let n = scan_nul(readable, max, i)->Ok_0 as int;
        assert forall|k: int| i <= k < n implies readable[k] != 0 by {
            if k > i {
                assert(i + 1 <= k < n);
            }
        }
    }
}

/// Copy the NUL-terminated string at `ptr` (at most `max` bytes, NUL not
/// included) into kernel memory: the bytes before the NUL, or the error
/// `strlen_user` gives; EINVAL if they are not UTF-8.
pub fn read_user_string(ptr: u64, max: usize, readable: &[u8]) -> (r: Result<String, SyscallError>)
    ensures
        (ptr == 0 || ptr > USER_SPACE_MAX) ==> r == Err::<String, SyscallError>(SyscallError::EFAULT),
        !(ptr == 0 || ptr > USER_SPACE_MAX) ==> match scan_nul(readable@, max as int, 0) {
            Err(e) => r == Err::<String, SyscallError>(e),
            Ok(n) => {
                let b = readable@.subrange(0, n as int);
                if valid_utf8(b) {
                    r matches Ok(s) && s@ == decode_utf8(b)
                } else {
                    r == Err::<String, SyscallError>(SyscallError::EINVAL)
                }
            },
        },
{
    let n = match strlen_user(ptr, max, readable) {
        Ok(n) => n,
        Err(e) => return Err(e),
    };
    proof {
        assert(readable@.len() == readable.len());
        lemma_scan_nul_ok(readable@, max as int, 0);
    }
    let bytes = &readable[0..n];
    assert(bytes@ == readable@.subrange(0, n as int));
    match utf8_str(bytes) {
        Some(s) => Ok(s.to_owned()),
        None => Err(SyscallError::EINVAL),
    }
}

} // verus!
