//! The racfs consistency check: what the live inodes claim (their blocks
//! and directory entries) held against what the bitmap and superblock say.
//! It reports and never repairs.

use vstd::prelude::*;
use crate::vfs::inode::{VfsError, VfsResult};
use crate::vfs::racfs::{
    bitmap_need, bitmap_sectors_of, data_blocks_with, inode_decodes_to, DiskInode, FsckReport, Superblock, ITYPE_DIR,
    ITYPE_FREE,
};
use crate::vfs::racfs_volume::{
    bit_on_disk, direntry_at, entry_ino, entry_name_len, format_sb, has_sector, inode_at, inode_of, is_fresh_root,
    lemma_inode_of, pointer_at, sector_bytes, Racfs,
};

verus! {

/// The non-zero values of `s`, in order.
pub open spec fn nonzero(s: Seq<u32>) -> Seq<u32>
    decreases s.len(),
{
    if s.len() == 0 {
        Seq::empty()
    } else if s.last() == 0 {
        nonzero(s.drop_last())
    } else {
        nonzero(s.drop_last()).push(s.last())
    }
}

/// The non-zero pointers among slots `[0, n)` of block `b` that can be
/// read, in slot order (an unreadable slot is skipped).
pub open spec fn readable_ptrs(d: Seq<u8>, sb: Superblock, b: u32, n: int) -> Seq<u32>
    decreases n,
{
    if n <= 0 {
        Seq::empty()
    } else {
        let p = readable_ptrs(d, sb, b, n - 1);
        match pointer_at(d, sb, b, n - 1) {
            Ok(v) => if v != 0 { p.push(v) } else { p },
            Err(_) => p,
        }
    }
}

/// The blocks reached through slots `[0, n)` of the double-indirect block
/// `b`: each readable non-zero first-level block, then its readable
/// non-zero pointers.
pub open spec fn double_blocks(d: Seq<u8>, sb: Superblock, b: u32, n: int) -> Seq<u32>
    decreases n,
{
    if n <= 0 {
        Seq::empty()
    } else {
        let p = double_blocks(d, sb, b, n - 1);
        match pointer_at(d, sb, b, n - 1) {
            Ok(l1) => if l1 != 0 { p.push(l1) + readable_ptrs(d, sb, l1, 128) } else { p },
            Err(_) => p,
        }
    }
}

/// Every block inode `i` holds, data and pointer blocks alike: its
/// non-zero direct blocks, then the indirect block and what it points to,
/// then the double-indirect block and what it reaches.
pub open spec fn owned(d: Seq<u8>, sb: Superblock, i: DiskInode) -> Seq<u32> {
    nonzero(i.direct@)
        + (if i.indirect != 0 { seq![i.indirect] + readable_ptrs(d, sb, i.indirect, 128) } else { Seq::empty() })
        + (if i.double_indirect != 0 { seq![i.double_indirect] + double_blocks(d, sb, i.double_indirect, 128) } else { Seq::empty() })
}

impl Racfs {
    /// The readable non-zero pointers of block `b` (see
    /// [`readable_ptrs`]), appended to `out`.
    fn push_pointers(&self, b: u32, out: &mut Vec<u32>)
        ensures
            final(out)@ == old(out)@ + readable_ptrs(self.disk(), self.sblock(), b, 128),
    {
        let mut slot: usize = 0;
        while slot < 128
            invariant
                slot <= 128,
                out@ == old(out)@ + readable_ptrs(self.disk(), self.sblock(), b, slot as int),
            decreases 128 - slot,
        {
            let ghost rp = readable_ptrs(self.disk(), self.sblock(), b, slot as int);
            match self.read_pointer(b, slot) {
                Ok(p) => {
                    if p != 0 {
                        out.push(p);
                        assert(old(out)@ + rp.push(p) =~= (old(out)@ + rp).push(p));
                    }
                },
                Err(_) => {},
            }
            slot = slot + 1;
        }
    }

    /// Every block `inode` holds (see [`owned`]).
    pub fn owned_blocks(&self, inode: &DiskInode) -> (r: Vec<u32>)
        ensures
            r@ == owned(self.disk(), self.sblock(), *inode),
    {
        let mut out: Vec<u32> = Vec::new();
        let mut i: usize = 0;
        while i < 8
            invariant
                i <= 8,
                out@ == nonzero(inode.direct@.take(i as int)),
            decreases 8 - i,
        {
            assert(inode.direct@.take(i + 1).drop_last() =~= inode.direct@.take(i as int));
            if inode.direct[i] != 0 {
                out.push(inode.direct[i]);
            }
            i = i + 1;
        }
        assert(inode.direct@.take(8) =~= inode.direct@);
        let ghost a = out@;
        if inode.indirect != 0 {
            out.push(inode.indirect);
            self.push_pointers(inode.indirect, &mut out);
            assert(out@ =~= a + (seq![inode.indirect] + readable_ptrs(self.disk(), self.sblock(), inode.indirect, 128)));
        } else {
            assert(out@ =~= a + Seq::<u32>::empty());
        }
        let ghost b = out@;
        if inode.double_indirect != 0 {
            out.push(inode.double_indirect);
            let mut slot: usize = 0;
            while slot < 128
                invariant
                    slot <= 128,
                    out@ == b.push(inode.double_indirect) + double_blocks(self.disk(), self.sblock(), inode.double_indirect, slot as int),
                decreases 128 - slot,
            {
                let ghost db = double_blocks(self.disk(), self.sblock(), inode.double_indirect, slot as int);
                match self.read_pointer(inode.double_indirect, slot) {
                    Ok(l1) => {
                        if l1 != 0 {
                            out.push(l1);
                            self.push_pointers(l1, &mut out);
                            assert(out@ =~= b.push(inode.double_indirect) + (db.push(l1) + readable_ptrs(self.disk(), self.sblock(), l1, 128)));
                        }
                    },
                    Err(_) => {},
                }
                slot = slot + 1;
            }
            assert(out@ =~= b + (seq![inode.double_indirect] + double_blocks(self.disk(), self.sblock(), inode.double_indirect, 128)));
        } else {
            assert(out@ =~= b + Seq::<u32>::empty());
        }
        out
    }
}

/// Counters wrap at 2^32, as the kernel's own arithmetic does.
pub open spec fn wrap32(n: int) -> int {
    n % 0x1_0000_0000
}

/// What the directory entries of `i` from entry `k` on show: how many
/// point at a free inode and how many at an inode out of range. Empty
/// names are skipped; the first unreadable entry ends the directory; an
/// entry's inode that cannot be read is an error.
pub open spec fn entries_check(d: Seq<u8>, sb: Superblock, i: DiskInode, k: int) -> VfsResult<(nat, nat)>
    decreases i.dir_entry_count - k,
{
    if k < 0 || k >= i.dir_entry_count {
        Ok((0, 0))
    } else {
        match direntry_at(d, sb, i, k) {
            Err(_) => Ok((0, 0)),
            Ok(e) => if entry_name_len(e) == 0 {
                entries_check(d, sb, i, k + 1)
            } else if entry_ino(e) >= sb.inode_count {
                match entries_check(d, sb, i, k + 1) {
                    Err(x) => Err(x),
                    Ok((dg, oo)) => Ok((dg, oo + 1)),
                }
            } else {
                match inode_at(d, sb, entry_ino(e)) {
                    Err(x) => Err(x),
                    Ok(t) => match entries_check(d, sb, i, k + 1) {
                        Err(x) => Err(x),
                        Ok((dg, oo)) => Ok((if t.itype == ITYPE_FREE { dg + 1 } else { dg }, oo)),
                    },
                }
            },
        }
    }
}

/// What the first `n` inodes claim: every block their live inodes hold,
/// in inode order, and the counts of their directories' dangling and
/// out-of-range entries.
pub ghost struct InodePass {
    pub refs: Seq<u32>,
    pub dangling: nat,
    pub out_of_range: nat,
}

/// The pass over inodes `[0, n)`: an inode that cannot be read is an
/// error, as is an entry's inode (see [`entries_check`]).
pub open spec fn inode_pass(d: Seq<u8>, sb: Superblock, n: int) -> VfsResult<InodePass>
    decreases n,
{
    if n <= 0 {
        Ok(InodePass { refs: Seq::empty(), dangling: 0, out_of_range: 0 })
    } else {
        match inode_pass(d, sb, n - 1) {
            Err(e) => Err(e),
            Ok(st) => match inode_at(d, sb, (n - 1) as u32) {
                Err(e) => Err(e),
                Ok(di) => if di.itype == ITYPE_FREE {
                    Ok(st)
                } else {
                    let refs = st.refs + owned(d, sb, di);
                    if di.itype == ITYPE_DIR {
                        match entries_check(d, sb, di, 0) {
                            Err(e) => Err(e),
                            Ok((dg, oo)) => Ok(InodePass { refs, dangling: st.dangling + dg, out_of_range: st.out_of_range + oo }),
                        }
                    } else {
                        Ok(InodePass { refs, ..st })
                    }
                },
            },
        }
    }
}

/// How many times `v` occurs in `s`.
pub open spec fn occ(s: Seq<u32>, v: u32) -> nat
    decreases s.len(),
{
    if s.len() == 0 {
        0
    } else {
        occ(s.drop_last(), v) + (if s.last() == v { 1nat } else { 0nat })
    }
}

/// Block references that count as doubly claimed: one past the `total`
/// data blocks, or the second reference to a block.
pub open spec fn dbl(s: Seq<u32>, total: int) -> nat
    decreases s.len(),
{
    if s.len() == 0 {
        0
    } else {
        dbl(s.drop_last(), total) + (if s.last() as int - 1 >= total || occ(s.drop_last(), s.last()) == 1 { 1nat } else { 0nat })
    }
}

/// The bitmap against the references, over data blocks `[idx, covered)`:
/// how many are marked used but not referenced, referenced but not marked
/// used, and marked used; IoError when a bitmap sector is not on the
/// device.
pub open spec fn bitmap_pass(d: Seq<u8>, sb: Superblock, refs: Seq<u32>, idx: int, covered: int) -> VfsResult<(nat, nat, nat)>
    decreases covered - idx,
{
    if idx >= covered || idx < 0 {
        Ok((0, 0, 0))
    } else if !has_sector(d, sb.bitmap_start + idx / 4096) {
        Err(VfsError::IoError)
    } else {
        match bitmap_pass(d, sb, refs, idx + 1, covered) {
            Err(e) => Err(e),
            Ok((l, u, n)) => {
                let marked = bit_on_disk(d, sb, idx);
                let referenced = occ(refs, (idx + 1) as u32) > 0;
                Ok((
                    l + (if marked && !referenced { 1nat } else { 0nat }),
                    u + (if !marked && referenced { 1nat } else { 0nat }),
                    n + (if marked { 1nat } else { 0nat }),
                ))
            },
        }
    }
}

/// Referenced data blocks in `[idx, total)`, past what the bitmap
/// describes.
pub open spec fn untracked_refs(refs: Seq<u32>, idx: int, total: int) -> nat
    decreases total - idx,
{
    if idx >= total || idx < 0 {
        0
    } else {
        untracked_refs(refs, idx + 1, total) + (if occ(refs, (idx + 1) as u32) > 0 { 1nat } else { 0nat })
    }
}

/// Data blocks the bitmap can describe.
pub open spec fn addressable(sb: Superblock) -> int {
    if bitmap_sectors_of(sb) * 4096 > usize::MAX { usize::MAX as int } else { bitmap_sectors_of(sb) * 4096 }
}

/// The figures a check reports.
pub ghost struct FsckFigures {
    pub leaked: nat,
    pub unallocated: nat,
    pub doubly: nat,
    pub dangling: nat,
    pub out_of_range: nat,
    pub drift: int,
    pub unaddressable: int,
}

/// What the check finds on a device: the pass over all inodes, then the
/// bitmap over the blocks it describes; a reference past those counts as
/// unallocated; the drift is used blocks by the superblock (data blocks
/// less free ones) less used blocks by the bitmap.
pub open spec fn fsck_figures(d: Seq<u8>, sb: Superblock) -> VfsResult<FsckFigures> {
    let total = sb.data_block_count as int;
    let covered = if total < addressable(sb) { total } else { addressable(sb) };
    match inode_pass(d, sb, sb.inode_count as int) {
        Err(e) => Err(e),
        Ok(st) => match bitmap_pass(d, sb, st.refs, 0, covered) {
            Err(e) => Err(e),
            Ok((l, u, n)) => Ok(FsckFigures {
                leaked: l,
                unallocated: u + untracked_refs(st.refs, covered, total),
                doubly: dbl(st.refs, total),
                dangling: st.dangling,
                out_of_range: st.out_of_range,
                drift: (total - sb.free_blocks) - n,
                unaddressable: if total > addressable(sb) { total - addressable(sb) } else { 0 },
            }),
        },
    }
}

/// A report states these figures (the entry and claim counters modulo
/// 2^32).
pub open spec fn report_of(r: FsckReport, f: FsckFigures) -> bool {
    &&& r.leaked_blocks == f.leaked
    &&& r.unallocated_in_use == f.unallocated
    &&& r.doubly_claimed == wrap32(f.doubly as int)
    &&& r.dangling_entries == wrap32(f.dangling as int)
    &&& r.out_of_range_entries == wrap32(f.out_of_range as int)
    &&& r.superblock_free_blocks_drift == f.drift
    &&& r.unaddressable_blocks == f.unaddressable
}

/// A saturating byte counter of `n`.
pub open spec fn cap(n: nat) -> u8 {
    if n > 255 { 255u8 } else { n as u8 }
}

/// Adding one to a counter held modulo 2^32.
proof fn lemma_wrap_inc(x: int, c: u32)
    requires
        x >= 0,
        c == wrap32(x),
    ensures
        vstd::wrapping::u32_specs::wrapping_add(c, 1) == wrap32(x + 1),
{
    assert(vstd::wrapping::u32_specs::wrapping_add(c, 1) == wrap32(x + 1)) by (nonlinear_arith)
        requires
            x >= 0,
            c == x % 0x1_0000_0000,
            vstd::wrapping::u32_specs::wrapping_add(c, 1) == (if c + 1 > 0xFFFF_FFFF { (c + 1 - 0x1_0000_0000) as u32 } else { (c + 1) as u32 }),
    ;
}

/// Every block an inode holds is a real block (not the sentinel 0).
proof fn lemma_owned_nonzero(d: Seq<u8>, sb: Superblock, i: DiskInode)
    ensures
        forall|k: int| 0 <= k < owned(d, sb, i).len() ==> owned(d, sb, i)[k] != 0,
{
    lemma_nonzero_nonzero(i.direct@);
    if i.indirect != 0 {
        lemma_ptrs_nonzero(d, sb, i.indirect, 128);
    }
    if i.double_indirect != 0 {
        lemma_double_nonzero(d, sb, i.double_indirect, 128);
    }
    let a = nonzero(i.direct@);
    let b = if i.indirect != 0 { seq![i.indirect] + readable_ptrs(d, sb, i.indirect, 128) } else { Seq::empty() };
    let c = if i.double_indirect != 0 { seq![i.double_indirect] + double_blocks(d, sb, i.double_indirect, 128) } else { Seq::empty() };
    assert forall|k: int| 0 <= k < owned(d, sb, i).len() implies owned(d, sb, i)[k] != 0 by {
        assert(owned(d, sb, i) == a + b + c);
        if k < a.len() {
        } else if k < a.len() + b.len() {
            assert(b[k - a.len()] != 0);
        } else {
            assert(c[k - a.len() - b.len()] != 0);
        }
    }
}

proof fn lemma_nonzero_nonzero(s: Seq<u32>)
    ensures
        forall|k: int| 0 <= k < nonzero(s).len() ==> nonzero(s)[k] != 0,
    decreases s.len(),
{
    if s.len() > 0 {
        lemma_nonzero_nonzero(s.drop_last());
        let p = nonzero(s.drop_last());
        if s.last() != 0 {
            assert forall|k: int| 0 <= k < p.push(s.last()).len() implies p.push(s.last())[k] != 0 by {
                if k < p.len() {
                    assert(p.push(s.last())[k] == p[k]);
                }
            }
        }
    }
}

proof fn lemma_ptrs_nonzero(d: Seq<u8>, sb: Superblock, b: u32, n: int)
    ensures
        forall|k: int| 0 <= k < readable_ptrs(d, sb, b, n).len() ==> readable_ptrs(d, sb, b, n)[k] != 0,
    decreases n,
{
    if n > 0 {
        lemma_ptrs_nonzero(d, sb, b, n - 1);
        let p = readable_ptrs(d, sb, b, n - 1);
        match pointer_at(d, sb, b, n - 1) {
            Ok(v) => if v != 0 {
                assert forall|k: int| 0 <= k < p.push(v).len() implies p.push(v)[k] != 0 by {
                    if k < p.len() {
                        assert(p.push(v)[k] == p[k]);
                    }
                }
            },
            Err(_) => {},
        }
    }
}

proof fn lemma_double_nonzero(d: Seq<u8>, sb: Superblock, b: u32, n: int)
    ensures
        forall|k: int| 0 <= k < double_blocks(d, sb, b, n).len() ==> double_blocks(d, sb, b, n)[k] != 0,
    decreases n,
{
    if n > 0 {
        lemma_double_nonzero(d, sb, b, n - 1);
        let p = double_blocks(d, sb, b, n - 1);
        match pointer_at(d, sb, b, n - 1) {
            Ok(l1) => if l1 != 0 {
                lemma_ptrs_nonzero(d, sb, l1, 128);
                let q = readable_ptrs(d, sb, l1, 128);
                assert forall|k: int| 0 <= k < (p.push(l1) + q).len() implies (p.push(l1) + q)[k] != 0 by {
                    if k < p.len() {
                    } else if k == p.len() {
                    } else {
                        assert(q[k - p.len() - 1] != 0);
                    }
                }
            },
            Err(_) => {},
        }
    }
}

/// An inode that cannot be read, at any point of the pass, is the pass's
/// error.
proof fn lemma_pass_err(d: Seq<u8>, sb: Superblock, n: int, m: int)
    requires
        0 <= n <= m,
        inode_pass(d, sb, n) is Err,
    ensures
        inode_pass(d, sb, m) == inode_pass(d, sb, n),
    decreases m - n,
{
    if n < m {
        lemma_pass_err(d, sb, n, m - 1);
    }
}

/// Adding `b` to a counter held modulo 2^32.
proof fn lemma_wrap_add(x: int, c: u32, b: u32)
    requires
        x >= 0,
        c == wrap32(x),
    ensures
        vstd::wrapping::u32_specs::wrapping_add(c, b) == wrap32(x + b),
{
    assert(vstd::wrapping::u32_specs::wrapping_add(c, b) == wrap32(x + b)) by (nonlinear_arith)
        requires
            x >= 0,
            c == x % 0x1_0000_0000,
            vstd::wrapping::u32_specs::wrapping_add(c, b) == (if c + b > 0xFFFF_FFFF { (c + b - 0x1_0000_0000) as u32 } else { (c + b) as u32 }),
    ;
}

/// Count the references of `blocks` (none of them the sentinel 0) into the
/// per-block counters and the doubly-claimed counter (see [`dbl`]).
fn tally_blocks(refs: &mut Vec<u8>, blocks: &Vec<u32>, doubly: u32, Ghost(all): Ghost<Seq<u32>>) -> (r: u32)
    requires
        forall|x: int| 0 <= x < old(refs)@.len() ==> #[trigger] old(refs)@[x] == cap(occ(all, (x + 1) as u32)),
        old(refs)@.len() <= u32::MAX,
        doubly == wrap32(dbl(all, old(refs)@.len() as int) as int),
        forall|k: int| 0 <= k < blocks@.len() ==> blocks@[k] != 0,
    ensures
        final(refs)@.len() == old(refs)@.len(),
        forall|x: int| 0 <= x < final(refs)@.len() ==> #[trigger] final(refs)@[x] == cap(occ(all + blocks@, (x + 1) as u32)),
        r == wrap32(dbl(all + blocks@, old(refs)@.len() as int) as int),
{
    let total = refs.len();
    let mut dbl_count = doubly;
    let mut j: usize = 0;
    while j < blocks.len()
        invariant
            refs@.len() == total,
            total <= u32::MAX,
            j <= blocks@.len(),
            forall|k: int| 0 <= k < blocks@.len() ==> blocks@[k] != 0,
            forall|x: int| 0 <= x < total ==> #[trigger] refs@[x] == cap(occ(all + blocks@.take(j as int), (x + 1) as u32)),
            dbl_count == wrap32(dbl(all + blocks@.take(j as int), total as int) as int),
        decreases blocks@.len() - j,
    {
        let b = blocks[j];
        let ghost pre = all + blocks@.take(j as int);
        let ghost post = all + blocks@.take(j + 1);
        assert(post =~= pre.push(b));
        assert(post.drop_last() =~= pre);
        let idx = (b - 1) as usize;
        proof {
            assert forall|v: u32| #[trigger] occ(post, v) == occ(pre, v) + (if b == v { 1nat } else { 0nat }) by {}
        }
        if idx >= total {
            proof { lemma_wrap_inc(dbl(pre, total as int) as int, dbl_count); }
            dbl_count = dbl_count.wrapping_add(1);
            assert forall|x: int| 0 <= x < total implies #[trigger] refs@[x] == cap(occ(post, (x + 1) as u32)) by {
                assert(occ(post, (x + 1) as u32) == occ(pre, (x + 1) as u32));
            }
        } else {
            let c = refs[idx];
            let n = if c == 255 { 255u8 } else { c + 1 };
            refs.set(idx, n);
            proof {
                assert(((idx + 1) as int) as u32 == b);
                assert(occ(post, b) == occ(pre, b) + 1);
                assert forall|x: int| 0 <= x < total implies #[trigger] refs@[x] == cap(occ(post, (x + 1) as u32)) by {
                    if x != idx {
                        assert((x + 1) as u32 != b);
                        assert(occ(post, (x + 1) as u32) == occ(pre, (x + 1) as u32));
                    }
                }
            }
            if n == 2 {
                proof { lemma_wrap_inc(dbl(pre, total as int) as int, dbl_count); }
                dbl_count = dbl_count.wrapping_add(1);
            }
        }
        j = j + 1;
    }
    assert(blocks@.take(blocks@.len() as int) =~= blocks@);
    dbl_count
}

impl Racfs {
    /// Walk the entries of directory `di` (see [`entries_check`]): how
    /// many dangle and how many are out of range.
    fn check_entries(&self, di: &DiskInode) -> (r: VfsResult<(u32, u32)>)
        ensures
            match entries_check(self.disk(), self.sblock(), *di, 0) {
                Err(e) => r == Err::<(u32, u32), VfsError>(e),
                Ok((dg, oo)) => r == Ok::<(u32, u32), VfsError>((dg as u32, oo as u32)) && dg <= u32::MAX && oo <= u32::MAX,
            },
    {
        let ghost d = self.disk();
        let ghost sb = self.sblock();
        let count = di.dir_entry_count;
        let inode_count = self.superblock().inode_count;
        let mut dg: u32 = 0;
        let mut oo: u32 = 0;
        let mut k: u32 = 0;
        while k < count
            invariant
                d == self.disk(),
                sb == self.sblock(),
                inode_count == sb.inode_count,
                count == di.dir_entry_count,
                k <= count,
                dg + oo <= k,
                entries_check(d, sb, *di, 0) == match entries_check(d, sb, *di, k as int) {
                    Err(e) => Err::<(nat, nat), VfsError>(e),
                    Ok((a, b)) => Ok(((a + dg) as nat, (b + oo) as nat)),
                },
            ensures
                dg + oo <= count,
                entries_check(d, sb, *di, 0) == match entries_check(d, sb, *di, k as int) {
                    Err(e) => Err::<(nat, nat), VfsError>(e),
                    Ok((a, b)) => Ok(((a + dg) as nat, (b + oo) as nat)),
                },
                entries_check(d, sb, *di, k as int) == Ok::<(nat, nat), VfsError>((0, 0)),
            decreases count - k,
        {
            let de = match self.read_direntry(di, k) {
                Ok(x) => x,
                Err(_) => break,
            };
            if de.name_len == 0 {
                k = k + 1;
                continue;
            }
            if de.ino >= inode_count {
                oo = oo + 1;
                k = k + 1;
                continue;
            }
            let t = match self.read_inode(de.ino) {
                Ok(t) => t,
                Err(e) => return Err(e),
            };
            if t.itype == ITYPE_FREE {
                dg = dg + 1;
            }
            k = k + 1;
        }
        Ok((dg, oo))
    }

    /// The bitmap against the references over data blocks `[0, covered)`
    /// (see [`bitmap_pass`]).
    fn bitmap_counts(&self, refs: &Vec<u8>, covered: usize, Ghost(all): Ghost<Seq<u32>>) -> (r: VfsResult<(u32, u32, u32)>)
        requires
            covered <= refs@.len(),
            refs@.len() <= u32::MAX,
            forall|x: int| 0 <= x < refs@.len() ==> #[trigger] refs@[x] == cap(occ(all, (x + 1) as u32)),
        ensures
            match bitmap_pass(self.disk(), self.sblock(), all, 0, covered as int) {
                Err(e) => r == Err::<(u32, u32, u32), VfsError>(e),
                Ok((l, u, n)) => r == Ok::<(u32, u32, u32), VfsError>((l as u32, u as u32, n as u32)) && l + u <= covered && n <= covered,
            },
    {
        let ghost d = self.disk();
        let sb = self.superblock();
        let mut leaked: u32 = 0;
        let mut unalloc: u32 = 0;
        let mut used: u32 = 0;
        let mut idx: usize = 0;
        while idx < covered
            invariant
                d == self.disk(),
                sb == self.sblock(),
                covered <= refs@.len(),
                refs@.len() <= u32::MAX,
                forall|x: int| 0 <= x < refs@.len() ==> #[trigger] refs@[x] == cap(occ(all, (x + 1) as u32)),
                idx <= covered,
                leaked + unalloc <= idx,
                used <= idx,
                bitmap_pass(d, sb, all, 0, covered as int) == match bitmap_pass(d, sb, all, idx as int, covered as int) {
                    Err(e) => Err::<(nat, nat, nat), VfsError>(e),
                    Ok((l, u, n)) => Ok(((l + leaked) as nat, (u + unalloc) as nat, (n + used) as nat)),
                },
            decreases covered - idx,
        {
            let sector_no = idx / 4096;
            let lba = sb.bitmap_start as u64 + sector_no as u64;
            let mut bitmap = [0u8; 512];
            match self.read_sector(lba, &mut bitmap) {
                Ok(()) => {}
                Err(e) => return Err(e),
            }
            let room = 4096 - idx % 4096;
            let sector_end = if covered - idx > room { idx + room } else { covered };
            assert(sector_no * 4096 <= idx < (sector_no + 1) * 4096 && idx + room == (sector_no + 1) * 4096) by (nonlinear_arith)
                requires
                    sector_no == idx / 4096,
                    room == 4096 - idx % 4096,
            ;
            while idx < sector_end
                invariant
                    d == self.disk(),
                    sb == self.sblock(),
                    covered <= refs@.len(),
                    refs@.len() <= u32::MAX,
                    forall|x: int| 0 <= x < refs@.len() ==> #[trigger] refs@[x] == cap(occ(all, (x + 1) as u32)),
                    sector_end <= covered,
                    sector_end <= (sector_no + 1) * 4096,
                    sector_no * 4096 <= idx <= sector_end,
                    lba == sb.bitmap_start + sector_no,
                    has_sector(d, lba as int),
                    bitmap@ == sector_bytes(d, lba as int),
                    leaked + unalloc <= idx,
                    used <= idx,
                    bitmap_pass(d, sb, all, 0, covered as int) == match bitmap_pass(d, sb, all, idx as int, covered as int) {
                        Err(e) => Err::<(nat, nat, nat), VfsError>(e),
                        Ok((l, u, n)) => Ok(((l + leaked) as nat, (u + unalloc) as nat, (n + used) as nat)),
                    },
                decreases sector_end - idx,
            {
                let bit = idx % 4096;
                let byte = bitmap[bit / 8];
                let sh = (bit % 8) as u8;
                let marked = byte & (1u8 << sh) != 0;
                let referenced = refs[idx] > 0;
                proof {
                    assert(idx / 4096 == sector_no as int) by (nonlinear_arith)
                        requires
                            sector_no * 4096 <= idx < (sector_no + 1) * 4096,
                    ;
                    assert(bit % 8 == idx % 8) by (nonlinear_arith)
                        requires
                            bit == idx % 4096,
                    ;
                    assert(byte == d[crate::vfs::racfs_volume::bit_pos(sb, idx as int)]);
                    assert(sh < 8);
                    assert((byte & (1u8 << sh) != 0) == ((byte >> sh) & 1u8 == 1u8)) by (bit_vector)
                        requires
                            sh < 8,
                    ;
                    assert(marked == bit_on_disk(d, sb, idx as int));
                    assert(referenced == (occ(all, (idx + 1) as u32) > 0));
                }
                if marked && !referenced {
                    leaked = leaked + 1;
                }
                if !marked && referenced {
                    unalloc = unalloc + 1;
                }
                if marked {
                    used = used + 1;
                }
                idx = idx + 1;
            }
        }
        Ok((leaked, unalloc, used))
    }

    /// Check the volume (see [`fsck_figures`]): every live inode's blocks
    /// and directory entries, then the bitmap, against each other and the
    /// superblock's free count. Read-only.
    #[verifier::rlimit(30)]
    pub fn check(&self) -> (r: VfsResult<FsckReport>)
        ensures
            match fsck_figures(self.disk(), self.sblock()) {
                Err(e) => r is Err && r->Err_0 == e,
                Ok(f) => r is Ok && report_of(r->Ok_0, f),
            },
    {
        let ghost d = self.disk();
        let sb = self.superblock();
        let total = sb.data_block_count as usize;
        let mut refs: Vec<u8> = Vec::new();
        let mut i: usize = 0;
        while i < total
            invariant
                i <= total,
                refs@.len() == i,
                forall|x: int| 0 <= x < i ==> #[trigger] refs@[x] == 0u8,
            decreases total - i,
        {
            refs.push(0u8);
            i = i + 1;
        }
        let mut doubly: u32 = 0;
        let mut dangling: u32 = 0;
        let mut out_of_range: u32 = 0;
        let ghost mut all: Seq<u32> = Seq::empty();
        let ghost mut dsum: nat = 0;
        let ghost mut osum: nat = 0;
        let mut ino: u32 = 0;
        assert forall|x: int| 0 <= x < total implies #[trigger] refs@[x] == cap(occ(all, (x + 1) as u32)) by {}
        while ino < sb.inode_count
            invariant
                d == self.disk(),
                sb == self.sblock(),
                total == sb.data_block_count,
                refs@.len() == total,
                ino <= sb.inode_count,
                inode_pass(d, sb, ino as int) == Ok::<InodePass, VfsError>(InodePass { refs: all, dangling: dsum, out_of_range: osum }),
                forall|x: int| 0 <= x < total ==> #[trigger] refs@[x] == cap(occ(all, (x + 1) as u32)),
                doubly == wrap32(dbl(all, total as int) as int),
                dangling == wrap32(dsum as int),
                out_of_range == wrap32(osum as int),
            decreases sb.inode_count - ino,
        {
            let di = match self.read_inode(ino) {
                Ok(x) => x,
                Err(e) => {
                    proof { lemma_pass_err(d, sb, ino + 1, sb.inode_count as int); }
                    return Err(e);
                },
            };
            if di.itype != ITYPE_FREE {
                let blocks = self.owned_blocks(&di);
                proof { lemma_owned_nonzero(d, sb, di); }
                doubly = tally_blocks(&mut refs, &blocks, doubly, Ghost(all));
                if di.itype == ITYPE_DIR {
                    let (dg, oo) = match self.check_entries(&di) {
                        Ok(t) => t,
                        Err(e) => {
                            proof { lemma_pass_err(d, sb, ino + 1, sb.inode_count as int); }
                            return Err(e);
                        },
                    };
                    proof {
                        lemma_wrap_add(dsum as int, dangling, dg);
                        lemma_wrap_add(osum as int, out_of_range, oo);
                    }
                    dangling = dangling.wrapping_add(dg);
                    out_of_range = out_of_range.wrapping_add(oo);
                    proof {
                        dsum = (dsum + dg) as nat;
                        osum = (osum + oo) as nat;
                    }
                }
                proof {
                    all = all + blocks@;
                }
            }
            ino = ino + 1;
        }
        let addressable = sb.addressable_blocks();
        let covered = if total < addressable { total } else { addressable };
        let unaddressable: u32 = if total > addressable { (total - addressable) as u32 } else { 0 };
        let (leaked, unalloc, used) = match self.bitmap_counts(&refs, covered, Ghost(all)) {
            Ok(t) => t,
            Err(e) => return Err(e),
        };
        let mut unallocated = unalloc;
        let mut idx = covered;
        while idx < total
            invariant
                covered <= idx <= total,
                refs@.len() == total,
                total <= u32::MAX,
                forall|x: int| 0 <= x < total ==> #[trigger] refs@[x] == cap(occ(all, (x + 1) as u32)),
                unallocated <= idx,
                untracked_refs(all, covered as int, total as int) + unalloc == unallocated + untracked_refs(all, idx as int, total as int),
            decreases total - idx,
        {
            if refs[idx] > 0 {
                unallocated = unallocated + 1;
            }
            idx = idx + 1;
        }
        let drift = (total as i64 - sb.free_blocks as i64) - used as i64;
        Ok(FsckReport {
            leaked_blocks: leaked,
            unallocated_in_use: unallocated,
            doubly_claimed: doubly,
            dangling_entries: dangling,
            out_of_range_entries: out_of_range,
            superblock_free_blocks_drift: drift,
            unaddressable_blocks: unaddressable,
        })
    }
}

/// A device as formatting leaves it (what `Racfs::format_and_new`
/// states): the superblock for its size, the device reaching the data
/// area, the bitmap and every inode record but the root's zeroed, and an
/// empty root directory.
pub open spec fn freshly_formatted(d: Seq<u8>, sb: Superblock) -> bool {
    &&& sb == format_sb((d.len() / 512) as u32)
    &&& has_sector(d, sb.data_start - 1)
    &&& forall|j: int| 512 <= j < 512 * sb.inode_start ==> #[trigger] d[j] == 0
    &&& forall|j: int| 512 * sb.inode_start + 128 <= j < 512 * sb.data_start ==> #[trigger] d[j] == 0
    &&& inode_at(d, sb, 0) matches Ok(root) && is_fresh_root(root)
}

/// The figures of a volume with nothing wrong.
pub open spec fn clean_figures() -> FsckFigures {
    FsckFigures { leaked: 0, unallocated: 0, doubly: 0, dangling: 0, out_of_range: 0, drift: 0, unaddressable: 0 }
}

/// A zeroed inode record reads as a free inode.
proof fn lemma_zero_inode(ib: Seq<u8>)
    requires
        ib.len() == 128,
        forall|j: int| 0 <= j < 128 ==> #[trigger] ib[j] == 0,
    ensures
        inode_of(ib).itype == ITYPE_FREE,
{
    let z = DiskInode {
        itype: 0,
        mode: 0,
        size: 0,
        nlink: 0,
        uid: 0,
        gid: 0,
        direct: vstd::array::spec_array_fill_for_copy_type::<u32, 8>(0u32),
        dir_entry_count: 0,
        indirect: 0,
        double_indirect: 0,
    };
    broadcast use vstd::array::axiom_spec_array_fill_for_copy_type;
    assert forall|k: int| 0 <= k < 8 implies #[trigger] z.direct@[k] == crate::encoding::le32(ib, 16 + 4 * k) by {
        assert(ib[16 + 4 * k] == 0 && ib[16 + 4 * k + 1] == 0 && ib[16 + 4 * k + 2] == 0 && ib[16 + 4 * k + 3] == 0);
    }
    assert(inode_decodes_to(ib, z));
    lemma_inode_of(ib, z);
}

/// The pass over the first `n` inodes of a freshly formatted device finds
/// nothing.
proof fn lemma_fresh_pass(d: Seq<u8>, sb: Superblock, n: int)
    requires
        freshly_formatted(d, sb),
        0 <= n <= 128,
    ensures
        inode_pass(d, sb, n) == Ok::<InodePass, VfsError>(InodePass { refs: Seq::empty(), dangling: 0, out_of_range: 0 }),
    decreases n,
{
    if n > 0 {
        lemma_fresh_pass(d, sb, n - 1);
        let k = (n - 1) as u32;
        if k == 0 {
            let root = inode_at(d, sb, 0)->Ok_0;
            assert(root.direct@ =~= seq![0u32, 0, 0, 0, 0, 0, 0, 0]);
            lemma_nonzero_zeros(root.direct@);
            assert(owned(d, sb, root) =~= Seq::<u32>::empty());
            assert(entries_check(d, sb, root, 0) == Ok::<(nat, nat), VfsError>((0, 0)));
            assert(Seq::<u32>::empty() + Seq::<u32>::empty() =~= Seq::<u32>::empty());
        } else {
            let p = 512 * (sb.inode_start + k / 4) + (k % 4) * 128;
            assert(512 * sb.inode_start + 128 <= p && p + 128 <= 512 * sb.data_start) by (nonlinear_arith)
                requires
                    1 <= k < 128,
                    p == 512 * (sb.inode_start + k / 4) + (k % 4) * 128,
                    sb.data_start == sb.inode_start + 32,
            ;
            assert(sb.inode_start + k / 4 <= sb.data_start - 1);
            let ib = d.subrange(p, p + 128);
            assert forall|j: int| 0 <= j < 128 implies #[trigger] ib[j] == 0 by {
                assert(d[p + j] == 0);
            }
            lemma_zero_inode(ib);
        }
    }
}

/// Only zero entries: nothing is left.
proof fn lemma_nonzero_zeros(s: Seq<u32>)
    requires
        forall|k: int| 0 <= k < s.len() ==> s[k] == 0,
    ensures
        nonzero(s) == Seq::<u32>::empty(),
    decreases s.len(),
{
    if s.len() > 0 {
        lemma_nonzero_zeros(s.drop_last());
    }
}

/// Against no references, a zeroed bitmap shows nothing.
proof fn lemma_fresh_bitmap(d: Seq<u8>, sb: Superblock, idx: int, covered: int)
    requires
        freshly_formatted(d, sb),
        0 <= idx,
        covered <= bitmap_sectors_of(sb) * 4096,
    ensures
        bitmap_pass(d, sb, Seq::empty(), idx, covered) == Ok::<(nat, nat, nat), VfsError>((0, 0, 0)),
    decreases covered - idx,
{
    if idx < covered {
        lemma_fresh_bitmap(d, sb, idx + 1, covered);
        let bs = bitmap_sectors_of(sb);
        assert(sb.bitmap_start == 1 && sb.inode_start == 1 + bs);
        assert(idx / 4096 < bs) by (nonlinear_arith)
            requires
                0 <= idx < covered,
                covered <= bs * 4096,
        ;
        assert(has_sector(d, sb.bitmap_start + idx / 4096));
        let pos = crate::vfs::racfs_volume::bit_pos(sb, idx);
        assert(512 <= pos < 512 * sb.inode_start) by (nonlinear_arith)
            requires
                pos == 512 * (sb.bitmap_start + idx / 4096) + (idx % 4096) / 8,
                sb.bitmap_start == 1,
                sb.inode_start == 1 + bs,
                idx / 4096 < bs,
                idx >= 0,
        ;
        let byte = d[pos];
        assert(byte == 0);
        let sh = (idx % 8) as u8;
        assert((byte >> sh) & 1u8 != 1u8) by (bit_vector)
            requires
                byte == 0,
        ;
        assert(!bit_on_disk(d, sb, idx));
        assert(occ(Seq::<u32>::empty(), (idx + 1) as u32) == 0);
    }
}

/// Nothing references any block.
proof fn lemma_no_untracked(idx: int, total: int)
    ensures
        untracked_refs(Seq::empty(), idx, total) == 0,
    decreases total - idx,
{
    if 0 <= idx < total {
        lemma_no_untracked(idx + 1, total);
    }
}

/// A freshly formatted volume checks clean: its bitmap describes every data
/// block, nothing is referenced or marked used, and the superblock counts
/// every data block free.
pub proof fn lemma_format_then_check_clean(d: Seq<u8>, sb: Superblock)
    requires
        freshly_formatted(d, sb),
    ensures
        fsck_figures(d, sb) == Ok::<FsckFigures, VfsError>(clean_figures()),
{
    let total = (d.len() / 512) as u32;
    let need = bitmap_need(total, 1);
    let bs = if need <= 1 { 1 } else { need };
    assert(bitmap_sectors_of(sb) == bs);
    assert(sb.data_block_count <= bs * 4096) by {
        assert(data_blocks_with(total, bs) <= data_blocks_with(total, 1));
        assert(data_blocks_with(total, 1) <= need * 4096) by (nonlinear_arith)
            requires
                need >= (data_blocks_with(total, 1) + 4095) / 4096,
                data_blocks_with(total, 1) >= 0,
        ;
    }
    assert(sb.data_block_count <= addressable(sb));
    lemma_fresh_pass(d, sb, 128);
    let covered = sb.data_block_count as int;
    lemma_fresh_bitmap(d, sb, 0, covered);
    lemma_no_untracked(covered, covered);
}

} // verus!
