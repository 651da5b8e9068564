//! The mount table: which filesystem serves which path prefix.

use vstd::prelude::*;
use crate::vfs::inode::{InodeNum, VfsError, VfsResult};
use crate::vfs::path::{components, split_components};

verus! {

/// A mountable filesystem, as the path walk sees it: a root directory, and
/// the inode a directory's entry leads to.
pub trait Filesystem {
    /// The filesystem is in a state its lookups accept.
    spec fn ready(&self) -> bool;

    /// Its root directory.
    spec fn root(&self) -> InodeNum;

    /// What looking `name` up in directory `dir` gives.
    spec fn child(&self, dir: InodeNum, name: Seq<char>) -> VfsResult<InodeNum>;

    /// The root directory (see [`Filesystem::root`]).
    fn root_inode(&self) -> (r: InodeNum)
        requires
            self.ready(),
        ensures
            r == self.root(),
    ;

    /// Look `name` up in directory `dir` (see [`Filesystem::child`]).
    fn lookup_in(&self, dir: InodeNum, name: &str) -> (r: VfsResult<InodeNum>)
        requires
            self.ready(),
        ensures
            r == self.child(dir, name@),
    ;
}

/// Walk `comps` down from directory `cur` of `fs`, one lookup per
/// component, stopping at the first error.
pub open spec fn walk_from<F: Filesystem>(fs: F, cur: InodeNum, comps: Seq<Seq<char>>) -> VfsResult<InodeNum>
    decreases comps.len(),
{
    if comps.len() == 0 {
        Ok(cur)
    } else {
        match fs.child(cur, comps[0]) {
            Ok(c) => walk_from(fs, c, comps.skip(1)),
            Err(e) => Err(e),
        }
    }
}

/// `r` is what looking up the path `rest` inside `fs` gives: its empty and
/// `.` components dropped, walked down from the root; on success the
/// filesystem and the inode reached.
pub open spec fn walked<F: Filesystem>(fs: F, rest: Seq<char>, r: VfsResult<(&F, InodeNum)>) -> bool {
    match walk_from(fs, fs.root(), components(rest, true)) {
        Ok(ino) => r matches Ok((f, n)) && *f == fs && n == ino,
        Err(e) => r == Err::<(&F, InodeNum), VfsError>(e),
    }
}

/// Only one mount is the one `resolve` picks.
proof fn lemma_best_mount_unique(ms: Seq<Seq<char>>, p: Seq<char>, i: int, k: int)
    requires
        best_mount(ms, p, i),
        best_mount(ms, p, k),
    ensures
        i == k,
{
    assert(mount_matches(ms[k], p));
    assert(mount_matches(ms[i], p));
}

/// A mount point: the path and the filesystem mounted there.
pub struct MountEntry<F> {
    pub path: String,
    pub fs: F,
}

/// The table of mounts, in mount order.
pub struct MountTable<F> {
    mounts: Vec<MountEntry<F>>,
}

/// Mount path `m` serves path `p`: the root mount serves every absolute
/// path; any other serves itself and what lies below it.
pub open spec fn mount_matches(m: Seq<char>, p: Seq<char>) -> bool {
    if m == seq!['/'] {
        p.len() > 0 && p[0] == '/'
    } else {
        p == m || (m.len() < p.len() && p.subrange(0, m.len() as int) == m && p[m.len() as int] == '/')
    }
}

/// Slot `i` is the mount `resolve` picks for `p`: it matches, no matching
/// mount has a longer path, and no earlier one has a path as long.
pub open spec fn best_mount(ms: Seq<Seq<char>>, p: Seq<char>, i: int) -> bool {
    &&& 0 <= i < ms.len()
    &&& mount_matches(ms[i], p)
    &&& forall|j: int| 0 <= j < ms.len() && #[trigger] mount_matches(ms[j], p) ==>
            ms[j].len() < ms[i].len() || (ms[j].len() == ms[i].len() && j >= i)
}

/// What remains of `p` below mount path `m`, without a leading slash.
pub open spec fn remainder(m: Seq<char>, p: Seq<char>) -> Seq<char> {
    let rest = p.skip(m.len() as int);
    if rest.len() > 0 && rest[0] == '/' { rest.skip(1) } else { rest }
}

impl<F> MountTable<F> {
    /// The mount paths, in table order.
    pub closed spec fn paths(&self) -> Seq<Seq<char>> {
        self.mounts@.map_values(|e: MountEntry<F>| e.path@)
    }

    /// The mounted filesystems, in table order.
    pub closed spec fn filesystems(&self) -> Seq<F> {
        self.mounts@.map_values(|e: MountEntry<F>| e.fs)
    }

    /// No path is mounted twice.
    pub closed spec fn wf(&self) -> bool {
        forall|i: int, j: int| 0 <= i < j < self.paths().len() ==> #[trigger] self.paths()[i] != #[trigger] self.paths()[j]
    }

    /// An empty table.
    pub fn new() -> (r: MountTable<F>)
        ensures
            r.paths().len() == 0,
            r.wf(),
    {
        MountTable { mounts: Vec::new() }
    }

    /// Index of the mount at exactly `path`.
    fn position(&self, path: &String) -> (r: Option<usize>)
        ensures
            r matches Some(i) ==> i < self.paths().len() && self.paths()[i as int] == path@
                && forall|j: int| 0 <= j < i ==> #[trigger] self.paths()[j] != path@,
            r is None ==> forall|j: int| 0 <= j < self.paths().len() ==> #[trigger] self.paths()[j] != path@,
    {
        let mut i: usize = 0;
        while i < self.mounts.len()
            invariant
                i <= self.mounts@.len(),
                forall|j: int| 0 <= j < i ==> #[trigger] self.paths()[j] != path@,
            decreases self.mounts@.len() - i,
        {
            if self.mounts[i].path == *path {
                return Some(i);
            }
            i = i + 1;
        }
        None
    }

    /// Mount `fs` at `path`, replacing the filesystem of an existing mount
    /// at the same path.
    pub fn mount(&mut self, path: &str, fs: F)
        ensures
            (exists|i: int| 0 <= i < old(self).paths().len() && #[trigger] old(self).paths()[i] == path@) ==>
                final(self).paths() == old(self).paths()
                && exists|i: int| 0 <= i < old(self).paths().len() && #[trigger] old(self).paths()[i] == path@
                    && (forall|j: int| 0 <= j < i ==> #[trigger] old(self).paths()[j] != path@)
                    && final(self).filesystems() == old(self).filesystems().update(i, fs),
            !(exists|i: int| 0 <= i < old(self).paths().len() && #[trigger] old(self).paths()[i] == path@) ==>
                final(self).paths() == old(self).paths().push(path@)
                && final(self).filesystems() == old(self).filesystems().push(fs),
            old(self).wf() ==> final(self).wf(),
    {
        let p = path.to_owned();
        match self.position(&p) {
            Some(i) => {
                self.mounts[i].fs = fs;
                proof {
                    assert(self.paths() =~= old(self).paths());
                    assert(self.filesystems() =~= old(self).filesystems().update(i as int, fs));
                }
            }
            None => {
                self.mounts.push(MountEntry { path: p, fs });
                proof {
                    assert(self.paths() =~= old(self).paths().push(path@));
                    assert(self.filesystems() =~= old(self).filesystems().push(fs));
                }
            }
        }
    }

    /// Unmount the filesystem at exactly `path`: InvalidArgument for "/",
    /// NotFound when nothing is mounted there.
    pub fn umount(&mut self, path: &str) -> (r: VfsResult<()>)
        ensures
            path@ == seq!['/'] ==> r == Err::<(), VfsError>(VfsError::InvalidArgument)
                && final(self).paths() == old(self).paths() && final(self).filesystems() == old(self).filesystems(),
            path@ != seq!['/'] && !(exists|i: int| 0 <= i < old(self).paths().len() && #[trigger] old(self).paths()[i] == path@)
                ==> r == Err::<(), VfsError>(VfsError::NotFound) && final(self).paths() == old(self).paths()
                && final(self).filesystems() == old(self).filesystems(),
            path@ != seq!['/'] && (exists|i: int| 0 <= i < old(self).paths().len() && #[trigger] old(self).paths()[i] == path@)
                ==> r == Ok::<(), VfsError>(())
                && exists|i: int| 0 <= i < old(self).paths().len() && #[trigger] old(self).paths()[i] == path@
                    && (forall|j: int| 0 <= j < i ==> #[trigger] old(self).paths()[j] != path@)
                    && final(self).paths() == old(self).paths().remove(i)
                    && final(self).filesystems() == old(self).filesystems().remove(i),
            old(self).wf() ==> final(self).wf(),
            old(self).wf() && r is Ok ==> forall|i: int| 0 <= i < final(self).paths().len()
                ==> #[trigger] final(self).paths()[i] != path@,
    {
        let p = path.to_owned();
        if path.unicode_len() == 1 && path.get_char(0) == '/' {
            assert(path@ =~= seq!['/']);
            return Err(VfsError::InvalidArgument);
        }
        proof {
            if path@ == seq!['/'] {
                assert(path@.len() == 1 && path@[0] == '/');
            }
        }
        match self.position(&p) {
            Some(i) => {
                let _ = self.mounts.remove(i);
                proof {
                    assert(self.paths() =~= old(self).paths().remove(i as int));
                    assert(self.filesystems() =~= old(self).filesystems().remove(i as int));
                    let ps = old(self).paths();
                    if old(self).wf() {
                        assert forall|a: int, b: int| 0 <= a < b < self.paths().len() implies
                            #[trigger] self.paths()[a] != #[trigger] self.paths()[b] by {
                            let a0 = if a < i { a } else { a + 1 };
                            let b0 = if b < i { b } else { b + 1 };
                            assert(ps[a0] != ps[b0]);
                        }
                        assert forall|k: int| 0 <= k < self.paths().len() implies #[trigger] self.paths()[k] != path@ by {
                            let k0 = if k < i { k } else { k + 1 };
                            assert(ps[k0] != ps[i as int]);
                        }
                    }
                }
                Ok(())
            }
            None => Err(VfsError::NotFound),
        }
    }

    /// Is something mounted at exactly `path`?
    pub fn is_mounted(&self, path: &str) -> (r: bool)
        ensures
            r == exists|i: int| 0 <= i < self.paths().len() && #[trigger] self.paths()[i] == path@,
    {
        let p = path.to_owned();
        match self.position(&p) {
            Some(i) => {
                assert(self.paths()[i as int] == path@);
                true
            }
            None => false,
        }
    }

    /// All mount entries, in table order.
    pub fn entries(&self) -> (r: &[MountEntry<F>])
        ensures
            r@.len() == self.paths().len(),
            forall|i: int| 0 <= i < r@.len() ==> #[trigger] r@[i].path@ == self.paths()[i]
                && r@[i].fs == self.filesystems()[i],
    {
        self.mounts.as_slice()
    }

    /// Does the mount path `m` serve `path`? (see [`mount_matches`])
    fn matches(m: &str, path: &str) -> (r: bool)
        ensures
            r == mount_matches(m@, path@),
    {
        let ml = m.unicode_len();
        let pl = path.unicode_len();
        if ml == 1 && m.get_char(0) == '/' {
            assert(m@ =~= seq!['/']);
            return pl > 0 && path.get_char(0) == '/';
        }
        proof {
            if m@ == seq!['/'] { assert(m@.len() == 1 && m@[0] == '/'); }
        }
        if ml > pl {
            proof {
                if path@ == m@ { assert(false); }
            }
            return false;
        }
        let mut k: usize = 0;
        while k < ml
            invariant
                ml == m@.len(),
                pl == path@.len(),
                ml <= pl,
                k <= ml,
                forall|j: int| 0 <= j < k ==> m@[j] == path@[j],
            decreases ml - k,
        {
            if m.get_char(k) != path.get_char(k) {
                proof {
                    assert(path@.subrange(0, ml as int)[k as int] == path@[k as int]);
                    if path@ == m@ {}
                }
                return false;
            }
            k = k + 1;
        }
        assert(path@.subrange(0, ml as int) =~= m@);
        if ml == pl {
            assert(path@ =~= m@);
            return true;
        }
        path.get_char(ml) == '/'
    }

    /// The mount serving `path` (the matching one with the longest path,
    /// the earliest of those) and the rest of the path below it, without a
    /// leading slash. None when no mount serves it.
    pub fn resolve<'a, 'b>(&'a self, path: &'b str) -> (r: Option<(&'a MountEntry<F>, &'b str)>)
        ensures
            r is None <==> forall|i: int| 0 <= i < self.paths().len() ==> !#[trigger] mount_matches(self.paths()[i], path@),
            r matches Some((e, rest)) ==> exists|i: int| #[trigger] best_mount(self.paths(), path@, i)
                && e.path@ == self.paths()[i] && e.fs == self.filesystems()[i]
                && rest@ == remainder(self.paths()[i], path@),
    {
        let ghost ps = self.paths();
        let mut best: Option<(usize, usize)> = None;
        let mut i: usize = 0;
        while i < self.mounts.len()
            invariant
                i <= self.mounts@.len(),
                ps == self.paths(),
                ps.len() == self.mounts@.len(),
                best is None ==> forall|j: int| 0 <= j < i ==> !#[trigger] mount_matches(ps[j], path@),
                best matches Some((bl, bi)) ==> bi < i && bl == ps[bi as int].len() && mount_matches(ps[bi as int], path@)
                    && forall|j: int| 0 <= j < i && #[trigger] mount_matches(ps[j], path@) ==>
                        ps[j].len() < ps[bi as int].len() || (ps[j].len() == ps[bi as int].len() && j >= bi),
            decreases self.mounts@.len() - i,
        {
            let e = &self.mounts[i];
            assert(e.path@ == ps[i as int]);
            let mp = e.path.as_str();
            if Self::matches(mp, path) {
                let len = mp.unicode_len();
                match best {
                    Some((bl, _)) => {
                        if len > bl {
                            best = Some((len, i));
                        }
                    }
                    None => {
                        best = Some((len, i));
                    }
                }
            }
            i = i + 1;
        }
        match best {
            None => None,
            Some((len, idx)) => {
                let e = &self.mounts[idx];
                assert(best_mount(ps, path@, idx as int));
                let pl = path.unicode_len();
                assert(len <= pl) by {
                    if ps[idx as int] != seq!['/'] {}
                    else { assert(ps[idx as int].len() == 1); }
                };
                let rest = path.substring_char(len, pl);
                assert(rest@ == path@.skip(len as int));
                let rl = pl - len;
                if rl > 0 && rest.get_char(0) == '/' {
                    let r2 = rest.substring_char(1, rl);
                    assert(r2@ =~= rest@.skip(1));
                    Some((e, r2))
                } else {
                    Some((e, rest))
                }
            }
        }
    }
}

impl<F: Filesystem> MountTable<F> {
    /// Look `path` up: the mount serving it (see [`MountTable::resolve`]),
    /// then the rest of the path walked down from that filesystem's root
    /// (see [`walked`]); NotFound when no mount serves it.
    pub fn lookup_path(&self, path: &str) -> (r: VfsResult<(&F, InodeNum)>)
        requires
            forall|i: int| 0 <= i < self.filesystems().len() ==> #[trigger] self.filesystems()[i].ready(),
        ensures
            (forall|i: int| 0 <= i < self.paths().len() ==> !#[trigger] mount_matches(self.paths()[i], path@))
                ==> r == Err::<(&F, InodeNum), VfsError>(VfsError::NotFound),
            forall|i: int| #[trigger] best_mount(self.paths(), path@, i)
                ==> walked(self.filesystems()[i], remainder(self.paths()[i], path@), r),
    {
        let (entry, rest) = match self.resolve(path) {
            None => return Err(VfsError::NotFound),
            Some(x) => x,
        };
        let ghost i0 = choose|i: int| #[trigger] best_mount(self.paths(), path@, i)
            && entry.path@ == self.paths()[i] && entry.fs == self.filesystems()[i]
            && rest@ == remainder(self.paths()[i], path@);
        assert(self.filesystems()[i0].ready());
        proof {
            assert forall|k: int| #[trigger] best_mount(self.paths(), path@, k) implies k == i0 by {
                lemma_best_mount_unique(self.paths(), path@, i0, k);
            }
        }
        let fs = &entry.fs;
        let comps = split_components(rest, true);
        let ghost cs = components(rest@, true);
        let mut cur = fs.root_inode();
        let mut i: usize = 0;
        assert(cs.skip(0) =~= cs);
        while i < comps.len()
            invariant
                fs.ready(),
                best_mount(self.paths(), path@, i0),
                *fs == self.filesystems()[i0],
                rest@ == remainder(self.paths()[i0], path@),
                forall|k: int| #[trigger] best_mount(self.paths(), path@, k) ==> k == i0,
                i <= comps@.len(),
                cs == components(rest@, true),
                comps@.len() == cs.len(),
                forall|m: int| 0 <= m < comps@.len() ==> #[trigger] comps@[m]@ == cs[m],
                walk_from(*fs, cur, cs.skip(i as int)) == walk_from(*fs, fs.root(), cs),
            decreases comps@.len() - i,
        {
            let ghost left = cs.skip(i as int);
            assert(left[0] == comps@[i as int]@);
            assert(left.skip(1) =~= cs.skip(i + 1));
            match fs.lookup_in(cur, comps[i].as_str()) {
                Err(e) => return Err(e),
                Ok(c) => cur = c,
            }
            i = i + 1;
        }
        assert(cs.skip(i as int) =~= Seq::<Seq<char>>::empty());
        Ok((fs, cur))
    }
}

} // verus!
