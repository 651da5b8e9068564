//! tmpfs: an in-memory read-write filesystem of files and directories.
//!
//! Inode numbers are slot numbers in a node table that only grows; removed
//! nodes stay in the table, marked removed, so a stale inode number reports
//! "not found" instead of reaching another file.

use vstd::prelude::*;
use crate::vfs::inode::{DirEntry, FileMode, FileType, InodeMetadata, InodeNum, VfsError, VfsResult, fresh_metadata};
use crate::vfs::path::{components, component_ranges, range_is_component};
use crate::vfs::mount::Filesystem;

verus! {

/// Maximum total bytes of file data in one tmpfs (16 MiB).
pub const TMPFS_MAX_SIZE: usize = 16777216;

/// A node in the tmpfs tree.
struct TmpfsNode {
    name: String,
    ino: InodeNum,
    file_type: FileType,
    mode: FileMode,
    uid: u32,
    gid: u32,
    /// File content (regular files).
    data: Vec<u8>,
    /// Child inode numbers (directories).
    children: Vec<InodeNum>,
    /// Unlinked: still in the table, no longer reachable.
    removed: bool,
}

/// What a node holds, as seen by the contracts.
pub ghost struct NodeView {
    pub name: Seq<char>,
    pub ino: InodeNum,
    pub file_type: FileType,
    pub mode: FileMode,
    pub uid: u32,
    pub gid: u32,
    pub data: Seq<u8>,
    pub children: Seq<InodeNum>,
    pub removed: bool,
}

spec fn node_view(n: TmpfsNode) -> NodeView {
    NodeView {
        name: n.name@,
        ino: n.ino,
        file_type: n.file_type,
        mode: n.mode,
        uid: n.uid,
        gid: n.gid,
        data: n.data@,
        children: n.children@,
        removed: n.removed,
    }
}

/// Node `c` exists, is not removed and is called `name`.
pub open spec fn live_named(nv: Seq<NodeView>, c: InodeNum, name: Seq<char>) -> bool {
    (c as int) < nv.len() && !nv[c as int].removed && nv[c as int].name == name
}

/// Node `c` exists and is not removed.
pub open spec fn live(nv: Seq<NodeView>, c: InodeNum) -> bool {
    (c as int) < nv.len() && !nv[c as int].removed
}

/// Position `k` of `dir`'s child list is the first live child named `name`.
pub open spec fn first_named_at(nv: Seq<NodeView>, dir: int, name: Seq<char>, k: int) -> bool {
    let kids = nv[dir].children;
    0 <= k < kids.len() && live_named(nv, kids[k], name)
        && forall|j: int| 0 <= j < k ==> !#[trigger] live_named(nv, kids[j], name)
}

/// `dir` has a live child named `name`.
pub open spec fn has_child(nv: Seq<NodeView>, dir: int, name: Seq<char>) -> bool {
    exists|k: int| 0 <= k < nv[dir].children.len() && #[trigger] live_named(nv, nv[dir].children[k], name)
}

/// The live child of `dir` named `name`, if any (in a well-formed tmpfs
/// there is at most one).
pub open spec fn lookup_child(nv: Seq<NodeView>, dir: int, name: Seq<char>) -> Option<InodeNum> {
    if has_child(nv, dir, name) {
        Some(nv[dir].children[choose|k: int| 0 <= k < nv[dir].children.len()
            && #[trigger] live_named(nv, nv[dir].children[k], name)])
    } else {
        None
    }
}

/// Walk `comps` down from node `cur`: every node passed through must be a
/// live directory (NotADirectory), every component a live child of it
/// (NotFound).
pub open spec fn walk(nv: Seq<NodeView>, cur: InodeNum, comps: Seq<Seq<char>>) -> VfsResult<InodeNum>
    decreases comps.len(),
{
    if comps.len() == 0 {
        Ok(cur)
    } else if cur as int >= nv.len() {
        Err(VfsError::NotFound)
    } else if nv[cur as int].file_type != FileType::Directory || nv[cur as int].removed {
        Err(VfsError::NotADirectory)
    } else {
        match lookup_child(nv, cur as int, comps[0]) {
            None => Err(VfsError::NotFound),
            Some(c) => walk(nv, c, comps.skip(1)),
        }
    }
}

/// A freshly created node.
pub open spec fn new_node(name: Seq<char>, ino: InodeNum, file_type: FileType, mode: u32) -> NodeView {
    NodeView {
        name,
        ino,
        file_type,
        mode: FileMode(mode),
        uid: 0,
        gid: 0,
        data: Seq::empty(),
        children: Seq::empty(),
        removed: false,
    }
}

/// The live children of a directory as directory entries, in order.
pub open spec fn live_entries(nv: Seq<NodeView>, kids: Seq<InodeNum>) -> Seq<(Seq<char>, InodeNum, FileType)>
    decreases kids.len(),
{
    if kids.len() == 0 {
        Seq::empty()
    } else {
        let c = kids.last();
        live_entries(nv, kids.drop_last()) + if live(nv, c) {
            seq![(nv[c as int].name, c, nv[c as int].file_type)]
        } else {
            Seq::empty()
        }
    }
}

/// The tmpfs filesystem state.
pub struct Tmpfs {
    nodes: Vec<TmpfsNode>,
    /// Total bytes used by file data.
    total_bytes: usize,
}

impl Tmpfs {
    /// The node table.
    pub closed spec fn view(&self) -> Seq<NodeView> {
        self.nodes@.map_values(|n: TmpfsNode| node_view(n))
    }

    /// Bytes of file data accounted for.
    pub closed spec fn total(&self) -> usize {
        self.total_bytes
    }

    /// The table's invariant: a live root directory at 0, each node's
    /// number is its slot, children are newer nodes, and the live children
    /// of a node have distinct names.
    pub open spec fn wf(&self) -> bool {
        let nv = self.view();
        &&& 0 < nv.len() < u64::MAX
        &&& nv.len() <= usize::MAX
        &&& nv[0].file_type == FileType::Directory && !nv[0].removed
        &&& forall|i: int| 0 <= i < nv.len() ==> (#[trigger] nv[i]).ino == i
        &&& forall|i: int, k: int| 0 <= i < nv.len() && 0 <= k < nv[i].children.len() ==>
                i < #[trigger] nv[i].children[k] < nv.len()
        &&& forall|i: int, a: int, b: int|
                0 <= i < nv.len() && 0 <= a < b < nv[i].children.len()
                && live(nv, #[trigger] nv[i].children[a]) && live(nv, #[trigger] nv[i].children[b])
                ==> nv[nv[i].children[a] as int].name != nv[nv[i].children[b] as int].name
    }

    /// An empty tmpfs: only the root directory (mode 0755, named "/").
    pub fn new() -> (r: Tmpfs)
        ensures
            r.wf(),
            r.view().len() == 1,
            r.view()[0] == new_node(seq!['/'], 0, FileType::Directory, 0o755),
            r.total() == 0,
    {
        let mut nodes: Vec<TmpfsNode> = Vec::new();
        let mode = FileMode::new(0o755);
        assert(0o755u32 & 0o7777 == 0o755) by (bit_vector);
        nodes.push(TmpfsNode {
            name: String::from_str("/"),
            ino: 0,
            file_type: FileType::Directory,
            mode,
            uid: 0,
            gid: 0,
            data: Vec::new(),
            children: Vec::new(),
            removed: false,
        });
        let r = Tmpfs { nodes, total_bytes: 0 };
        proof {
            reveal_strlit("/");
            assert(r.view()[0].name =~= seq!['/']);
            assert(r.view()[0] == new_node(seq!['/'], 0, FileType::Directory, 0o755));
        }
        r
    }

    /// Find the first live child of `dir` named `name`: its position in
    /// the child list.
    fn find_child(&self, dir: usize, name: &String) -> (r: Option<usize>)
        requires
            self.wf(),
            dir < self.view().len(),
        ensures
            r matches Some(k) ==> first_named_at(self.view(), dir as int, name@, k as int),
            r is None ==> !has_child(self.view(), dir as int, name@),
    {
        let ghost nv = self.view();
        let kids = &self.nodes[dir].children;
        assert(kids@ == nv[dir as int].children);
        let mut k: usize = 0;
        while k < kids.len()
            invariant
                k <= kids@.len(),
                kids@ == nv[dir as int].children,
                nv == self.view(),
                self.wf(),
                dir < nv.len(),
                forall|j: int| 0 <= j < k ==> !#[trigger] live_named(nv, kids@[j], name@),
            decreases kids@.len() - k,
        {
            let c = kids[k];
            assert((c as int) < nv.len());
            assert((c as usize) as int == c as int);
            let node = &self.nodes[c as usize];
            assert(node_view(*node) == nv[c as int]);
            if !node.removed && node.name == *name {
                return Some(k);
            }
            k = k + 1;
        }
        None
    }

    /// In a well-formed tmpfs the first live child with a name is the one
    /// `lookup_child` names.
    proof fn lemma_first_is_lookup(&self, dir: int, name: Seq<char>, k: int)
        requires
            self.wf(),
            0 <= dir < self.view().len(),
            first_named_at(self.view(), dir, name, k),
        ensures
            has_child(self.view(), dir, name),
            lookup_child(self.view(), dir, name) == Some(self.view()[dir].children[k]),
    {
        let nv = self.view();
        let kids = nv[dir].children;
        assert(live_named(nv, kids[k], name));
        assert(has_child(nv, dir, name));
        let kk = choose|j: int| 0 <= j < kids.len() && #[trigger] live_named(nv, kids[j], name);
        if kk != k {
            if kk < k {
            } else {
                assert(live(nv, kids[k]) && live(nv, kids[kk]));
                assert(nv[kids[k] as int].name != nv[kids[kk] as int].name);
            }
        }
    }

    /// Shared checks of create: the parent must be a live directory without
    /// a live child of that name.
    fn check_new_child(&self, parent_ino: InodeNum, name: &String) -> (r: VfsResult<()>)
        requires
            self.wf(),
        ensures
            (parent_ino as int) >= self.view().len() ==> r == Err::<(), VfsError>(VfsError::NotFound),
            (parent_ino as int) < self.view().len() ==> {
                let p = self.view()[parent_ino as int];
                if p.file_type != FileType::Directory || p.removed {
                    r == Err::<(), VfsError>(VfsError::NotADirectory)
                } else if has_child(self.view(), parent_ino as int, name@) {
                    r == Err::<(), VfsError>(VfsError::AlreadyExists)
                } else {
                    r == Ok::<(), VfsError>(())
                }
            },
    {
        if parent_ino >= self.nodes.len() as u64 {
            return Err(VfsError::NotFound);
        }
        let p = parent_ino as usize;
        assert(p as int == parent_ino as int);
        let parent = &self.nodes[p];
        assert(node_view(*parent) == self.view()[p as int]);
        if parent.file_type != FileType::Directory || parent.removed {
            return Err(VfsError::NotADirectory);
        }
        match self.find_child(p, name) {
            Some(k) => {
                proof { self.lemma_first_is_lookup(p as int, name@, k as int); }
                Err(VfsError::AlreadyExists)
            }
            None => Ok(()),
        }
    }

    /// Append a node and link it under `parent`.
    fn add_node(&mut self, parent: usize, name: String, file_type: FileType, mode: u32) -> (ino: InodeNum)
        requires
            old(self).wf(),
            parent < old(self).view().len(),
            old(self).view()[parent as int].file_type == FileType::Directory,
            !old(self).view()[parent as int].removed,
            !has_child(old(self).view(), parent as int, name@),
            old(self).view().len() + 1 < u64::MAX,
            mode == mode & 0o7777,
        ensures
            final(self).wf(),
            ino == old(self).view().len(),
            final(self).total() == old(self).total(),
            final(self).view() == old(self).view().update(parent as int, NodeView {
                children: old(self).view()[parent as int].children.push(ino),
                ..old(self).view()[parent as int]
            }).push(new_node(name@, ino, file_type, mode)),
    {
        let ghost nv = self.view();
        let ino = self.nodes.len() as u64;
        let fm = FileMode::new(mode);
        self.nodes.push(TmpfsNode {
            name,
            ino,
            file_type,
            mode: fm,
            uid: 0,
            gid: 0,
            data: Vec::new(),
            children: Vec::new(),
            removed: false,
        });
        self.nodes[parent].children.push(ino);
        let ghost expected = nv.update(parent as int, NodeView {
                children: nv[parent as int].children.push(ino),
                ..nv[parent as int]
            }).push(new_node(name@, ino, file_type, mode));
        assert(self.view() =~= expected);
        let new_len = self.nodes.len();
        proof {
            let nv2 = self.view();
            assert(0 < nv2.len() < u64::MAX);
            assert(nv2.len() <= usize::MAX);
            assert(nv2[0].file_type == FileType::Directory && !nv2[0].removed);
            assert(forall|i: int| 0 <= i < nv2.len() ==> (#[trigger] nv2[i]).ino == i);
            assert forall|i: int, k: int| 0 <= i < nv2.len() && 0 <= k < nv2[i].children.len() implies
                i < #[trigger] nv2[i].children[k] < nv2.len() by {
                if i == parent as int && k == nv[i].children.len() {
                } else if i < nv.len() {
                    assert(nv2[i].children[k] == nv[i].children[k]);
                }
            }
            assert forall|c: int| 0 <= c < nv.len() implies
                #[trigger] nv2[c].name == nv[c].name && nv2[c].removed == nv[c].removed by {
            }
            assert forall|i: int, a: int, b: int|
                0 <= i < nv2.len() && 0 <= a < b < nv2[i].children.len()
                && live(nv2, #[trigger] nv2[i].children[a]) && live(nv2, #[trigger] nv2[i].children[b])
                implies nv2[nv2[i].children[a] as int].name != nv2[nv2[i].children[b] as int].name by {
                if i == parent as int && b == nv[i].children.len() {
                    let ca = nv[i].children[a];
                    assert(nv2[i].children[a] == ca);
                    assert(nv2[ino as int].name == name@);
                    if nv[ca as int].name == name@ {
                        assert(live_named(nv, nv[parent as int].children[a], name@));
                    }
                } else if i < nv.len() {
                    assert(nv2[i].children[a] == nv[i].children[a]);
                    assert(nv2[i].children[b] == nv[i].children[b]);
                }
            }
        }
        ino
    }

    /// Create an empty regular file (mode 0644) named `name` in directory
    /// `parent_ino`; returns its inode number.
    pub fn create_file(&mut self, parent_ino: InodeNum, name: &str) -> (r: VfsResult<InodeNum>)
        requires
            old(self).wf(),
            old(self).view().len() + 1 < u64::MAX,
        ensures
            final(self).wf(),
            final(self).total() == old(self).total(),
            create_post(old(self).view(), parent_ino, name@, FileType::Regular, 0o644, final(self).view(), r),
    {
        let name_s = name.to_owned();
        match self.check_new_child(parent_ino, &name_s) {
            Err(e) => Err(e),
            Ok(()) => {
                assert(0o644u32 & 0o7777 == 0o644) by (bit_vector);
                let p = parent_ino as usize;
                assert(p as int == parent_ino as int);
                let ino = self.add_node(p, name_s, FileType::Regular, 0o644);
                Ok(ino)
            }
        }
    }

    /// Create an empty directory (mode 0755) named `name` in directory
    /// `parent_ino`; returns its inode number.
    pub fn create_dir(&mut self, parent_ino: InodeNum, name: &str) -> (r: VfsResult<InodeNum>)
        requires
            old(self).wf(),
            old(self).view().len() + 1 < u64::MAX,
        ensures
            final(self).wf(),
            final(self).total() == old(self).total(),
            create_post(old(self).view(), parent_ino, name@, FileType::Directory, 0o755, final(self).view(), r),
    {
        let name_s = name.to_owned();
        match self.check_new_child(parent_ino, &name_s) {
            Err(e) => Err(e),
            Ok(()) => {
                assert(0o755u32 & 0o7777 == 0o755) by (bit_vector);
                let p = parent_ino as usize;
                assert(p as int == parent_ino as int);
                let ino = self.add_node(p, name_s, FileType::Directory, 0o755);
                Ok(ino)
            }
        }
    }

    /// Remove the live child `name` of directory `parent_ino` (a file or an
    /// empty directory); see [`unlink_post`].
    pub fn unlink(&mut self, parent_ino: InodeNum, name: &str) -> (r: VfsResult<()>)
        requires
            old(self).wf(),
        ensures
            final(self).wf(),
            unlink_post(old(self).view(), old(self).total(), parent_ino, name@,
                final(self).view(), final(self).total(), r),
    {
        let ghost nv = self.view();
        if parent_ino >= self.nodes.len() as u64 {
            return Err(VfsError::NotFound);
        }
        let p = parent_ino as usize;
        assert(p as int == parent_ino as int);
        assert(node_view(self.nodes@[p as int]) == nv[p as int]);
        if self.nodes[p].file_type != FileType::Directory || self.nodes[p].removed {
            return Err(VfsError::NotADirectory);
        }
        let name_s = name.to_owned();
        let k = match self.find_child(p, &name_s) {
            None => return Err(VfsError::NotFound),
            Some(k) => k,
        };
        proof { self.lemma_first_is_lookup(p as int, name@, k as int); }
        let c64 = self.nodes[p].children[k];
        assert(nv[p as int].children[k as int] == c64);
        let c = c64 as usize;
        assert(c as int == c64 as int);
        assert(node_view(self.nodes@[c as int]) == nv[c as int]);
        if self.nodes[c].file_type == FileType::Directory {
            let mut j: usize = 0;
            let ghost ckids = nv[c as int].children;
            while j < self.nodes[c].children.len()
                invariant
                    self.view() == nv,
                    nv == old(self).view(),
                    self.total_bytes == old(self).total(),
                    self.wf(),
                    (parent_ino as int) < nv.len(),
                    nv[parent_ino as int].file_type == FileType::Directory,
                    !nv[parent_ino as int].removed,
                    has_child(nv, parent_ino as int, name@),
                    lookup_child(nv, parent_ino as int, name@) == Some(c64),
                    c as int == c64 as int,
                    nv[c as int].file_type == FileType::Directory,
                    c < nv.len(),
                    ckids == nv[c as int].children,
                    j <= ckids.len(),
                    forall|m: int| 0 <= m < j ==> !#[trigger] live(nv, ckids[m]),
                decreases ckids.len() - j,
            {
                let g = self.nodes[c].children[j];
                assert(ckids[j as int] == g);
                assert((g as usize) as int == g as int);
                assert(node_view(self.nodes@[g as int]) == nv[g as int]);
                if !self.nodes[g as usize].removed {
                    assert(live(nv, ckids[j as int]));
                    return Err(VfsError::InvalidArgument);
                }
                j = j + 1;
            }
        }
        let data_size = self.nodes[c].data.len();
        self.total_bytes = self.total_bytes.saturating_sub(data_size);
        self.nodes[c].data = Vec::new();
        self.nodes[c].removed = true;
        let _ = self.nodes[p].children.remove(k);
        proof {
            let nv2 = self.view();
            let expected = nv.update(c as int, NodeView { data: Seq::empty(), removed: true, ..nv[c as int] })
                .update(p as int, NodeView { children: nv[p as int].children.remove(k as int), ..nv[p as int] });
            assert(nv2 =~= expected);
            assert(c as int != p as int);
            assert forall|i: int, m: int| 0 <= i < nv2.len() && 0 <= m < nv2[i].children.len() implies
                i < #[trigger] nv2[i].children[m] < nv2.len() by {
                if i == p as int {
                    if m < k { assert(nv2[i].children[m] == nv[i].children[m]); }
                    else { assert(nv2[i].children[m] == nv[i].children[m + 1]); }
                } else {
                    assert(nv2[i].children == nv[i].children);
                }
            }
            assert forall|q: int| 0 <= q < nv.len() implies
                #[trigger] nv2[q].name == nv[q].name && (live(nv2, q as InodeNum) ==> live(nv, q as InodeNum)) by {
            }
            assert forall|i: int, a: int, b: int|
                0 <= i < nv2.len() && 0 <= a < b < nv2[i].children.len()
                && live(nv2, #[trigger] nv2[i].children[a]) && live(nv2, #[trigger] nv2[i].children[b])
                implies nv2[nv2[i].children[a] as int].name != nv2[nv2[i].children[b] as int].name by {
                let ca = nv2[i].children[a];
                let cb = nv2[i].children[b];
                assert(live(nv, ca) && live(nv, cb));
                if i == p as int {
                    let a0 = if a < k { a } else { a + 1 };
                    let b0 = if b < k { b } else { b + 1 };
                    assert(nv[i].children[a0] == ca);
                    assert(nv[i].children[b0] == cb);
                    assert(a0 < b0);
                } else {
                    assert(nv2[i].children == nv[i].children);
                }
            }
            assert(nv2[0].file_type == FileType::Directory && !nv2[0].removed);
        }
        Ok(())
    }

    /// Resolve a path relative to the root, ignoring empty and `.`
    /// components (see [`walk`]).
    pub fn lookup_path(&self, path: &str) -> (r: VfsResult<InodeNum>)
        requires
            self.wf(),
        ensures
            r == walk(self.view(), 0, components(path@, true)),
    {
        let comps = crate::vfs::path::split_components(path, true);
        let ghost cs = components(path@, true);
        let ghost nv = self.view();
        let mut cur: u64 = 0;
        let mut i: usize = 0;
        assert(cs.skip(0) =~= cs);
        while i < comps.len()
            invariant
                nv == self.view(),
                self.wf(),
                i <= comps@.len(),
                cs == components(path@, true),
                comps@.len() == cs.len(),
                forall|m: int| 0 <= m < comps@.len() ==> #[trigger] comps@[m]@ == cs[m],
                (cur as int) < nv.len(),
                walk(nv, cur, cs.skip(i as int)) == walk(nv, 0, cs),
            decreases comps@.len() - i,
        {
            let ghost rest = cs.skip(i as int);
            assert(rest[0] == comps@[i as int]@);
            assert(rest.skip(1) =~= cs.skip(i + 1));
            let cu = cur as usize;
            assert(cu as int == cur as int);
            assert(node_view(self.nodes@[cu as int]) == nv[cu as int]);
            assert(rest.len() > 0);
            if self.nodes[cu].file_type != FileType::Directory || self.nodes[cu].removed {
                assert(walk(nv, cur, rest) == Err::<InodeNum, VfsError>(VfsError::NotADirectory));
                return Err(VfsError::NotADirectory);
            }
            match self.find_child(cu, &comps[i]) {
                None => {
                    assert(lookup_child(nv, cu as int, rest[0]) is None);
                    assert(walk(nv, cur, rest) == Err::<InodeNum, VfsError>(VfsError::NotFound));
                    return Err(VfsError::NotFound);
                }
                Some(k) => {
                    proof { self.lemma_first_is_lookup(cu as int, comps@[i as int]@, k as int); }
                    cur = self.nodes[cu].children[k];
                    assert(cur == nv[cu as int].children[k as int]);
                }
            }
            i = i + 1;
        }
        assert(cs.skip(i as int) =~= Seq::<Seq<char>>::empty());
        Ok(cur)
    }

    /// Split a path into the directory holding its last component and that
    /// component (empty components dropped, `.` kept); see
    /// [`split_parent_leaf_post`].
    pub fn split_parent_leaf<'a>(&self, path: &'a str) -> (r: VfsResult<(InodeNum, &'a str)>)
        requires
            self.wf(),
        ensures
            split_parent_leaf_post(self.view(), path@, r),
    {
        let ranges = crate::vfs::path::component_ranges(path, false);
        let ghost cs = components(path@, false);
        let ghost nv = self.view();
        if ranges.len() == 0 {
            return Err(VfsError::InvalidArgument);
        }
        let last = ranges.len() - 1;
        let (la, lb) = ranges[last];
        assert(range_is_component(path@, false, ranges@[last as int], last as int));
        let leaf = path.substring_char(la, lb);
        let ghost parents = cs.drop_last();
        let mut cur: u64 = 0;
        let mut i: usize = 0;
        assert(parents.skip(0) =~= parents);
        while i < last
            invariant
                nv == self.view(),
                self.wf(),
                last == ranges@.len() - 1,
                i <= last,
                cs == components(path@, false),
                ranges@.len() == cs.len(),
                parents == cs.drop_last(),
                forall|m: int| 0 <= m < ranges@.len() ==> range_is_component(path@, false, #[trigger] ranges@[m], m),
                (cur as int) < nv.len(),
                walk(nv, cur, parents.skip(i as int)) == walk(nv, 0, parents),
            decreases last - i,
        {
            let ghost rest = parents.skip(i as int);
            let (a, b) = ranges[i];
            assert(range_is_component(path@, false, ranges@[i as int], i as int));
            let part = path.substring_char(a, b).to_owned();
            assert(parents[i as int] == cs[i as int]);
            assert(rest[0] == parents[i as int]);
            assert(path@.subrange(a as int, b as int) == cs[i as int]);
            assert(rest[0] == part@);
            assert(rest.len() > 0);
            assert(rest.skip(1) =~= parents.skip(i + 1));
            let cu = cur as usize;
            assert(cu as int == cur as int);
            assert(node_view(self.nodes@[cu as int]) == nv[cu as int]);
            if self.nodes[cu].file_type != FileType::Directory || self.nodes[cu].removed {
                assert(walk(nv, cur, rest) == Err::<InodeNum, VfsError>(VfsError::NotADirectory));
                return Err(VfsError::NotADirectory);
            }
            match self.find_child(cu, &part) {
                None => {
                    assert(lookup_child(nv, cu as int, rest[0]) is None);
                    assert(walk(nv, cur, rest) == Err::<InodeNum, VfsError>(VfsError::NotFound));
                    return Err(VfsError::NotFound);
                }
                Some(k) => {
                    proof { self.lemma_first_is_lookup(cu as int, part@, k as int); }
                    cur = self.nodes[cu].children[k];
                    assert(cur == nv[cu as int].children[k as int]);
                }
            }
            i = i + 1;
        }
        assert(parents.skip(i as int) =~= Seq::<Seq<char>>::empty());
        Ok((cur, leaf))
    }

    /// Check a node number for use as an inode: NotFound when it is out of
    /// range or removed.
    pub fn get_inode(&self, ino: InodeNum) -> (r: VfsResult<InodeNum>)
        requires
            self.wf(),
        ensures
            live(self.view(), ino) ==> r == Ok::<InodeNum, VfsError>(ino),
            !live(self.view(), ino) ==> r == Err::<InodeNum, VfsError>(VfsError::NotFound),
    {
        if ino >= self.nodes.len() as u64 {
            return Err(VfsError::NotFound);
        }
        let i = ino as usize;
        assert(node_view(self.nodes@[i as int]) == self.view()[i as int]);
        if self.nodes[i].removed {
            return Err(VfsError::NotFound);
        }
        Ok(ino)
    }

    /// Read file `ino` from `offset` into `buf`; see [`read_post`].
    pub fn read_inode(&self, ino: InodeNum, offset: u64, buf: &mut [u8]) -> (r: VfsResult<usize>)
        requires
            self.wf(),
        ensures
            read_post(self.view(), ino, offset, old(buf)@, final(buf)@, r),
    {
        if ino >= self.nodes.len() as u64 {
            return Err(VfsError::NotFound);
        }
        let i = ino as usize;
        let node = &self.nodes[i];
        assert(node_view(*node) == self.view()[i as int]);
        if node.removed {
            return Err(VfsError::NotFound);
        }
        if node.file_type == FileType::Directory {
            return Err(VfsError::IsADirectory);
        }
        let data = &node.data;
        if offset >= data.len() as u64 {
            return Ok(0);
        }
        let off = offset as usize;
        let avail = data.len() - off;
        let to_read = if buf.len() < avail { buf.len() } else { avail };
        let ghost old_buf = buf@;
        let mut k: usize = 0;
        while k < to_read
            invariant
                k <= to_read,
                to_read <= buf@.len(),
                buf@.len() == old_buf.len(),
                off + to_read <= data@.len(),
                off + to_read <= usize::MAX,
                forall|m: int| 0 <= m < k ==> #[trigger] buf@[m] == data@[off + m],
                forall|m: int| k <= m < buf@.len() ==> #[trigger] buf@[m] == old_buf[m],
            decreases to_read - k,
        {
            buf[k] = data[off + k];
            k = k + 1;
        }
        assert(buf@.subrange(0, to_read as int) =~= data@.subrange(off as int, off + to_read));
        assert(buf@.subrange(to_read as int, buf@.len() as int) =~= old_buf.subrange(to_read as int, old_buf.len() as int));
        Ok(to_read)
    }

    /// Write `buf` into file `ino` at `offset`, growing it with zeros if the
    /// offset is past its end; NoSpace when the tmpfs would exceed its
    /// size limit. See [`write_post`].
    pub fn write_inode(&mut self, ino: InodeNum, offset: u64, buf: &[u8]) -> (r: VfsResult<usize>)
        requires
            old(self).wf(),
            offset + buf@.len() <= usize::MAX,
        ensures
            final(self).wf(),
            write_post(old(self).view(), old(self).total(), ino, offset, buf@,
                final(self).view(), final(self).total(), r),
    {
        let ghost nv = self.view();
        if ino >= self.nodes.len() as u64 {
            return Err(VfsError::NotFound);
        }
        let i = ino as usize;
        assert(node_view(self.nodes@[i as int]) == nv[i as int]);
        if self.nodes[i].removed {
            return Err(VfsError::NotFound);
        }
        if self.nodes[i].file_type == FileType::Directory {
            return Err(VfsError::IsADirectory);
        }
        let off = offset as usize;
        let end = off + buf.len();
        let old_len = self.nodes[i].data.len();
        let new_len = if end > old_len { end } else { old_len };
        let growth = new_len - old_len;
        let total = self.total_bytes;
        if growth > TMPFS_MAX_SIZE || total > TMPFS_MAX_SIZE - growth {
            return Err(VfsError::NoSpace);
        }
        let ghost d0 = nv[i as int].data;
        while self.nodes[i].data.len() < end
            invariant
                i < self.nodes@.len(),
                self.nodes@.len() == nv.len(),
                end <= usize::MAX,
                d0.len() <= self.nodes@[i as int].data@.len(),
                self.nodes@[i as int].data@.len() <= (if end > d0.len() { end as int } else { d0.len() as int }),
                forall|m: int| 0 <= m < d0.len() ==> #[trigger] self.nodes@[i as int].data@[m] == d0[m],
                forall|m: int| d0.len() <= m < self.nodes@[i as int].data@.len() ==> #[trigger] self.nodes@[i as int].data@[m] == 0u8,
                forall|q: int| 0 <= q < nv.len() && q != i ==> #[trigger] self.nodes@[q] == old(self).nodes@[q],
                self.nodes@[i as int].name == old(self).nodes@[i as int].name,
                self.nodes@[i as int].ino == old(self).nodes@[i as int].ino,
                self.nodes@[i as int].file_type == old(self).nodes@[i as int].file_type,
                self.nodes@[i as int].mode == old(self).nodes@[i as int].mode,
                self.nodes@[i as int].uid == old(self).nodes@[i as int].uid,
                self.nodes@[i as int].gid == old(self).nodes@[i as int].gid,
                self.nodes@[i as int].children == old(self).nodes@[i as int].children,
                self.nodes@[i as int].removed == old(self).nodes@[i as int].removed,
                self.total_bytes == old(self).total(),
            decreases end - self.nodes@[i as int].data@.len(),
        {
            self.nodes[i].data.push(0u8);
        }
        let ghost grown = self.nodes@[i as int].data@;
        assert(grown.len() == new_len);
        let mut k: usize = 0;
        while k < buf.len()
            invariant
                k <= buf@.len(),
                i < self.nodes@.len(),
                self.nodes@.len() == nv.len(),
                off + buf@.len() <= self.nodes@[i as int].data@.len(),
                off + buf@.len() <= usize::MAX,
                self.nodes@[i as int].data@.len() == grown.len(),
                grown.len() == new_len,
                forall|m: int| 0 <= m < d0.len() ==> #[trigger] grown[m] == d0[m],
                forall|m: int| d0.len() <= m < grown.len() ==> #[trigger] grown[m] == 0u8,
                forall|m: int| 0 <= m < off ==> #[trigger] self.nodes@[i as int].data@[m] == grown[m],
                forall|m: int| off + buf@.len() <= m < grown.len() ==> #[trigger] self.nodes@[i as int].data@[m] == grown[m],
                forall|m: int| 0 <= m < k ==> #[trigger] self.nodes@[i as int].data@[off + m] == buf@[m],
                forall|q: int| 0 <= q < nv.len() && q != i ==> #[trigger] self.nodes@[q] == old(self).nodes@[q],
                self.nodes@[i as int].name == old(self).nodes@[i as int].name,
                self.nodes@[i as int].ino == old(self).nodes@[i as int].ino,
                self.nodes@[i as int].file_type == old(self).nodes@[i as int].file_type,
                self.nodes@[i as int].mode == old(self).nodes@[i as int].mode,
                self.nodes@[i as int].uid == old(self).nodes@[i as int].uid,
                self.nodes@[i as int].gid == old(self).nodes@[i as int].gid,
                self.nodes@[i as int].children == old(self).nodes@[i as int].children,
                self.nodes@[i as int].removed == old(self).nodes@[i as int].removed,
                self.total_bytes == old(self).total(),
            decreases buf@.len() - k,
        {
            self.nodes[i].data.set(off + k, buf[k]);
            k = k + 1;
        }
        self.total_bytes = total + growth;
        proof {
            let nv2 = self.view();
            let d = nv[i as int].data;
            let expected_data = Seq::new(new_len as nat, |m: int|
                if off <= m < off + buf@.len() { buf@[m - off] }
                else if m < d.len() { d[m] } else { 0u8 });
            let fin = self.nodes@[i as int].data@;
            assert(nv2[i as int].data == fin);
            assert forall|m: int| 0 <= m < new_len implies #[trigger] fin[m] == expected_data[m] by {
                if off <= m < off + buf@.len() {
                    let mm = m - off;
                    assert(fin[off + mm] == buf@[mm]);
                } else if m < off {
                    assert(fin[m] == grown[m]);
                    if m < d.len() { assert(grown[m] == d0[m]); } else { assert(grown[m] == 0u8); }
                } else {
                    assert(fin[m] == grown[m]);
                    if m < d.len() { assert(grown[m] == d0[m]); } else { assert(grown[m] == 0u8); }
                }
            }
            assert(nv2[i as int].data =~= expected_data);
            assert(nv2 =~= nv.update(i as int, NodeView { data: expected_data, ..nv[i as int] }));
            assert forall|q: int, m: int| 0 <= q < nv2.len() && 0 <= m < nv2[q].children.len() implies
                q < #[trigger] nv2[q].children[m] < nv2.len() by {
                assert(nv2[q].children == nv[q].children);
            }
            assert forall|q: int, a: int, b: int|
                0 <= q < nv2.len() && 0 <= a < b < nv2[q].children.len()
                && live(nv2, #[trigger] nv2[q].children[a]) && live(nv2, #[trigger] nv2[q].children[b])
                implies nv2[nv2[q].children[a] as int].name != nv2[nv2[q].children[b] as int].name by {
                assert(nv2[q].children == nv[q].children);
                assert(nv2[nv2[q].children[a] as int].name == nv[nv[q].children[a] as int].name);
                assert(nv2[nv2[q].children[b] as int].name == nv[nv[q].children[b] as int].name);
            }
        }
        Ok(buf.len())
    }

    /// Metadata of node `ino`: its number, type, mode and owner, the size
    /// of its data, two links for a directory and one otherwise.
    pub fn inode_metadata(&self, ino: InodeNum) -> (r: VfsResult<InodeMetadata>)
        requires
            self.wf(),
        ensures
            (ino as int) >= self.view().len() ==> r == Err::<InodeMetadata, VfsError>(VfsError::NotFound),
            (ino as int) < self.view().len() ==> {
                let n = self.view()[ino as int];
                r == Ok::<InodeMetadata, VfsError>(InodeMetadata {
                    mode: n.mode,
                    uid: n.uid,
                    gid: n.gid,
                    size: n.data.len() as u64,
                    nlink: if n.file_type == FileType::Directory { 2 } else { 1 },
                    ..fresh_metadata(n.ino, n.file_type)
                })
            },
    {
        if ino >= self.nodes.len() as u64 {
            return Err(VfsError::NotFound);
        }
        let i = ino as usize;
        let node = &self.nodes[i];
        assert(node_view(*node) == self.view()[i as int]);
        let mut meta = InodeMetadata::new(node.ino, node.file_type);
        meta.mode = node.mode;
        meta.uid = node.uid;
        meta.gid = node.gid;
        meta.size = node.data.len() as u64;
        if node.file_type == FileType::Directory {
            meta.nlink = 2;
        }
        Ok(meta)
    }

    /// Take the permission bits, owner and group of `meta` for node `ino`;
    /// NotFound for a missing or removed node.
    pub fn set_inode_metadata(&mut self, ino: InodeNum, meta: &InodeMetadata) -> (r: VfsResult<()>)
        requires
            old(self).wf(),
        ensures
            final(self).wf(),
            final(self).total() == old(self).total(),
            !live(old(self).view(), ino) ==> r == Err::<(), VfsError>(VfsError::NotFound)
                && final(self).view() == old(self).view(),
            live(old(self).view(), ino) ==> r == Ok::<(), VfsError>(())
                && final(self).view() == old(self).view().update(ino as int, NodeView {
                    mode: FileMode(meta.mode.0 & 0o7777),
                    uid: meta.uid,
                    gid: meta.gid,
                    ..old(self).view()[ino as int]
                }),
    {
        let ghost nv = self.view();
        if ino >= self.nodes.len() as u64 {
            return Err(VfsError::NotFound);
        }
        let i = ino as usize;
        assert(node_view(self.nodes@[i as int]) == nv[i as int]);
        if self.nodes[i].removed {
            return Err(VfsError::NotFound);
        }
        self.nodes[i].mode = FileMode::new(meta.mode.0);
        self.nodes[i].uid = meta.uid;
        self.nodes[i].gid = meta.gid;
        proof {
            let nv2 = self.view();
            assert(nv2 =~= nv.update(ino as int, NodeView {
                    mode: FileMode(meta.mode.0 & 0o7777), uid: meta.uid, gid: meta.gid, ..nv[ino as int] }));
            assert forall|q: int, a: int, b: int|
                0 <= q < nv2.len() && 0 <= a < b < nv2[q].children.len()
                && live(nv2, #[trigger] nv2[q].children[a]) && live(nv2, #[trigger] nv2[q].children[b])
                implies nv2[nv2[q].children[a] as int].name != nv2[nv2[q].children[b] as int].name by {
                assert(nv2[q].children == nv[q].children);
                assert(nv2[nv2[q].children[a] as int].name == nv[nv[q].children[a] as int].name);
                assert(nv2[nv2[q].children[b] as int].name == nv[nv[q].children[b] as int].name);
            }
            assert forall|q: int, m: int| 0 <= q < nv2.len() && 0 <= m < nv2[q].children.len() implies
                q < #[trigger] nv2[q].children[m] < nv2.len() by {
                assert(nv2[q].children == nv[q].children);
            }
        }
        Ok(())
    }

    /// The live child `name` of directory `ino`.
    pub fn lookup(&self, ino: InodeNum, name: &str) -> (r: VfsResult<InodeNum>)
        requires
            self.wf(),
        ensures
            (ino as int) >= self.view().len() ==> r == Err::<InodeNum, VfsError>(VfsError::NotFound),
            (ino as int) < self.view().len() ==> {
                let n = self.view()[ino as int];
                if n.file_type != FileType::Directory || n.removed {
                    r == Err::<InodeNum, VfsError>(VfsError::NotADirectory)
                } else {
                    match lookup_child(self.view(), ino as int, name@) {
                        Some(c) => r == Ok::<InodeNum, VfsError>(c),
                        None => r == Err::<InodeNum, VfsError>(VfsError::NotFound),
                    }
                }
            },
    {
        if ino >= self.nodes.len() as u64 {
            return Err(VfsError::NotFound);
        }
        let i = ino as usize;
        assert(node_view(self.nodes@[i as int]) == self.view()[i as int]);
        if self.nodes[i].file_type != FileType::Directory || self.nodes[i].removed {
            return Err(VfsError::NotADirectory);
        }
        let name_s = name.to_owned();
        match self.find_child(i, &name_s) {
            None => Err(VfsError::NotFound),
            Some(k) => {
                proof { self.lemma_first_is_lookup(i as int, name@, k as int); }
                Ok(self.nodes[i].children[k])
            }
        }
    }

    /// The live children of directory `ino`, in creation order.
    pub fn readdir(&self, ino: InodeNum) -> (r: VfsResult<Vec<DirEntry>>)
        requires
            self.wf(),
        ensures
            (ino as int) >= self.view().len() ==> r is Err && r->Err_0 == VfsError::NotFound,
            (ino as int) < self.view().len() ==> {
                let n = self.view()[ino as int];
                if n.file_type != FileType::Directory || n.removed {
                    r is Err && r->Err_0 == VfsError::NotADirectory
                } else {
                    r is Ok && {
                        let es = live_entries(self.view(), n.children);
                        &&& r->Ok_0@.len() == es.len()
                        &&& forall|m: int| 0 <= m < es.len() ==> (#[trigger] r->Ok_0@[m]).name@ == es[m].0
                            && r->Ok_0@[m].ino == es[m].1 && r->Ok_0@[m].file_type == es[m].2
                    }
                }
            },
    {
        if ino >= self.nodes.len() as u64 {
            return Err(VfsError::NotFound);
        }
        let i = ino as usize;
        let ghost nv = self.view();
        assert(node_view(self.nodes@[i as int]) == nv[i as int]);
        if self.nodes[i].file_type != FileType::Directory || self.nodes[i].removed {
            return Err(VfsError::NotADirectory);
        }
        let kids = &self.nodes[i].children;
        let mut out: Vec<DirEntry> = Vec::new();
        let mut k: usize = 0;
        while k < kids.len()
            invariant
                nv == self.view(),
                self.wf(),
                k <= kids@.len(),
                kids@ == nv[i as int].children,
                i < nv.len(),
                out@.len() == live_entries(nv, kids@.subrange(0, k as int)).len(),
                forall|m: int| 0 <= m < out@.len() ==> (#[trigger] out@[m]).name@ == live_entries(nv, kids@.subrange(0, k as int))[m].0
                    && out@[m].ino == live_entries(nv, kids@.subrange(0, k as int))[m].1
                    && out@[m].file_type == live_entries(nv, kids@.subrange(0, k as int))[m].2,
            decreases kids@.len() - k,
        {
            let ghost pre = kids@.subrange(0, k as int);
            let ghost nxt = kids@.subrange(0, k + 1);
            assert(nxt.drop_last() =~= pre);
            assert(nxt.last() == kids@[k as int]);
            let c = kids[k];
            let cu = c as usize;
            assert(cu as int == c as int);
            let child = &self.nodes[cu];
            assert(node_view(*child) == nv[cu as int]);
            if !child.removed {
                out.push(DirEntry { name: child.name.clone(), ino: c, file_type: child.file_type });
            }
            k = k + 1;
        }
        assert(kids@.subrange(0, kids@.len() as int) =~= kids@);
        Ok(out)
    }
}

/// What a create does: NotFound for a missing parent, NotADirectory for a
/// parent that is not a live directory, AlreadyExists when the name is
/// taken; otherwise a new node numbered after the last one, linked at the
/// end of the parent's child list.
pub open spec fn create_post(
    nv: Seq<NodeView>, parent: InodeNum, name: Seq<char>, file_type: FileType, mode: u32,
    nv2: Seq<NodeView>, r: VfsResult<InodeNum>,
) -> bool {
    if parent as int >= nv.len() {
        r == Err::<InodeNum, VfsError>(VfsError::NotFound) && nv2 == nv
    } else if nv[parent as int].file_type != FileType::Directory || nv[parent as int].removed {
        r == Err::<InodeNum, VfsError>(VfsError::NotADirectory) && nv2 == nv
    } else if has_child(nv, parent as int, name) {
        r == Err::<InodeNum, VfsError>(VfsError::AlreadyExists) && nv2 == nv
    } else {
        &&& r == Ok::<InodeNum, VfsError>(nv.len() as InodeNum)
        &&& nv2 == nv.update(parent as int, NodeView {
                children: nv[parent as int].children.push(nv.len() as InodeNum),
                ..nv[parent as int]
            }).push(new_node(name, nv.len() as InodeNum, file_type, mode))
    }
}

} // verus!

verus! {

/// What `unlink` does: NotFound for a missing parent or name,
/// NotADirectory for a parent that is not a live directory, InvalidArgument
/// for a directory that still has live children; otherwise the child is
/// marked removed, its data dropped and its bytes released from the total,
/// and it is taken out of the parent's child list.
pub open spec fn unlink_post(
    nv: Seq<NodeView>, total: usize, parent: InodeNum, name: Seq<char>,
    nv2: Seq<NodeView>, total2: usize, r: VfsResult<()>,
) -> bool {
    if parent as int >= nv.len() {
        r == Err::<(), VfsError>(VfsError::NotFound) && nv2 == nv && total2 == total
    } else if nv[parent as int].file_type != FileType::Directory || nv[parent as int].removed {
        r == Err::<(), VfsError>(VfsError::NotADirectory) && nv2 == nv && total2 == total
    } else if !has_child(nv, parent as int, name) {
        r == Err::<(), VfsError>(VfsError::NotFound) && nv2 == nv && total2 == total
    } else {
        let c = lookup_child(nv, parent as int, name)->0;
        if nv[c as int].file_type == FileType::Directory
            && exists|m: int| 0 <= m < nv[c as int].children.len() && #[trigger] live(nv, nv[c as int].children[m]) {
            r == Err::<(), VfsError>(VfsError::InvalidArgument) && nv2 == nv && total2 == total
        } else {
            &&& r == Ok::<(), VfsError>(())
            &&& total2 == (if total >= nv[c as int].data.len() { total - nv[c as int].data.len() } else { 0 })
            &&& exists|k: int| #[trigger] first_named_at(nv, parent as int, name, k)
                && nv[parent as int].children[k] == c
                && nv2 == nv.update(c as int, NodeView { data: Seq::empty(), removed: true, ..nv[c as int] })
                    .update(parent as int, NodeView { children: nv[parent as int].children.remove(k), ..nv[parent as int] })
        }
    }
}

/// What `split_parent_leaf` returns: InvalidArgument for a path without
/// components, else the result of walking all components but the last,
/// paired with the last one.
pub open spec fn split_parent_leaf_post(nv: Seq<NodeView>, path: Seq<char>, r: VfsResult<(InodeNum, &str)>) -> bool {
    let cs = components(path, false);
    if cs.len() == 0 {
        r == Err::<(InodeNum, &str), VfsError>(VfsError::InvalidArgument)
    } else {
        match walk(nv, 0, cs.drop_last()) {
            Ok(p) => r is Ok && r->Ok_0.0 == p && r->Ok_0.1@ == cs.last(),
            Err(e) => r == Err::<(InodeNum, &str), VfsError>(e),
        }
    }
}

/// What a read returns: NotFound for a missing or removed node,
/// IsADirectory for a directory, 0 at or past the end, otherwise the bytes
/// from `offset`, as many as fit, with the rest of `buf` untouched.
pub open spec fn read_post(nv: Seq<NodeView>, ino: InodeNum, offset: u64, b0: Seq<u8>, b1: Seq<u8>, r: VfsResult<usize>) -> bool {
    if !live(nv, ino) {
        r == Err::<usize, VfsError>(VfsError::NotFound) && b1 == b0
    } else if nv[ino as int].file_type == FileType::Directory {
        r == Err::<usize, VfsError>(VfsError::IsADirectory) && b1 == b0
    } else {
        let d = nv[ino as int].data;
        if offset >= d.len() {
            r == Ok::<usize, VfsError>(0) && b1 == b0
        } else {
            let n = if b0.len() < d.len() - offset { b0.len() as int } else { d.len() - offset };
            &&& r == Ok::<usize, VfsError>(n as usize)
            &&& b1.len() == b0.len()
            &&& b1.subrange(0, n) == d.subrange(offset as int, offset + n)
            &&& b1.subrange(n, b1.len() as int) == b0.subrange(n, b0.len() as int)
        }
    }
}

/// What a write does: NotFound for a missing or removed node, IsADirectory
/// for a directory, NoSpace when the growth would take the total past
/// `TMPFS_MAX_SIZE`; otherwise the data becomes the old data, extended with
/// zeros up to `offset + len` if shorter, with `buf` written at `offset`,
/// the growth is added to the total, and the whole `buf` is reported
/// written.
pub open spec fn write_post(
    nv: Seq<NodeView>, total: usize, ino: InodeNum, offset: u64, buf: Seq<u8>,
    nv2: Seq<NodeView>, total2: usize, r: VfsResult<usize>,
) -> bool {
    if !live(nv, ino) {
        r == Err::<usize, VfsError>(VfsError::NotFound) && nv2 == nv && total2 == total
    } else if nv[ino as int].file_type == FileType::Directory {
        r == Err::<usize, VfsError>(VfsError::IsADirectory) && nv2 == nv && total2 == total
    } else {
        let d = nv[ino as int].data;
        let end = offset + buf.len();
        let new_len = if end > d.len() { end } else { d.len() as int };
        let growth = new_len - d.len();
        if total + growth > TMPFS_MAX_SIZE {
            r == Err::<usize, VfsError>(VfsError::NoSpace) && nv2 == nv && total2 == total
        } else {
            &&& r == Ok::<usize, VfsError>(buf.len() as usize)
            &&& total2 == total + growth
            &&& nv2 == nv.update(ino as int, NodeView {
                    data: Seq::new(new_len as nat, |m: int|
                        if offset <= m < end { buf[m - offset] }
                        else if m < d.len() { d[m] } else { 0u8 }),
                    ..nv[ino as int]
                })
        }
    }
}

/// After a successful create, looking the name up in the parent finds the
/// new node.
pub proof fn lemma_create_then_lookup(
    nv: Seq<NodeView>, parent: InodeNum, name: Seq<char>, file_type: FileType, mode: u32,
    nv2: Seq<NodeView>, ino: InodeNum,
)
    requires
        create_post(nv, parent, name, file_type, mode, nv2, Ok::<InodeNum, VfsError>(ino)),
        nv.len() < u64::MAX,
        forall|i: int, k: int| 0 <= i < nv.len() && 0 <= k < nv[i].children.len() ==>
            i < #[trigger] nv[i].children[k] < nv.len(),
        forall|i: int, a: int, b: int|
            0 <= i < nv.len() && 0 <= a < b < nv[i].children.len()
            && live(nv, #[trigger] nv[i].children[a]) && live(nv, #[trigger] nv[i].children[b])
            ==> nv[nv[i].children[a] as int].name != nv[nv[i].children[b] as int].name,
    ensures
        lookup_child(nv2, parent as int, name) == Some(ino),
{
    let p = parent as int;
    let kids2 = nv2[p].children;
    let last = kids2.len() - 1;
    assert(kids2[last] == ino);
    assert(live_named(nv2, kids2[last], name));
    assert(has_child(nv2, p, name));
    let kk = choose|j: int| 0 <= j < kids2.len() && #[trigger] live_named(nv2, kids2[j], name);
    if kk != last {
        assert(kids2[kk] == nv[p].children[kk]);
        assert(nv2[kids2[kk] as int] == nv[kids2[kk] as int]);
        assert(live_named(nv, nv[p].children[kk], name));
        assert(has_child(nv, p, name));
    }
}

/// After a successful unlink, the name is gone from the parent.
pub proof fn lemma_unlink_then_lookup(
    nv: Seq<NodeView>, total: usize, parent: InodeNum, name: Seq<char>,
    nv2: Seq<NodeView>, total2: usize,
)
    requires
        unlink_post(nv, total, parent, name, nv2, total2, Ok::<(), VfsError>(())),
        forall|i: int, k: int| 0 <= i < nv.len() && 0 <= k < nv[i].children.len() ==>
            i < #[trigger] nv[i].children[k] < nv.len(),
        forall|i: int, a: int, b: int|
            0 <= i < nv.len() && 0 <= a < b < nv[i].children.len()
            && live(nv, #[trigger] nv[i].children[a]) && live(nv, #[trigger] nv[i].children[b])
            ==> nv[nv[i].children[a] as int].name != nv[nv[i].children[b] as int].name,
    ensures
        lookup_child(nv2, parent as int, name) is None,
{
    let p = parent as int;
    let c = lookup_child(nv, p, name)->0;
    let k = choose|k: int| #[trigger] first_named_at(nv, p, name, k)
        && nv[p].children[k] == c
        && nv2 == nv.update(c as int, NodeView { data: Seq::empty(), removed: true, ..nv[c as int] })
            .update(p, NodeView { children: nv[p].children.remove(k), ..nv[p] });
    let kids = nv[p].children;
    let kids2 = nv2[p].children;
    assert(c as int != p);
    if has_child(nv2, p, name) {
        let m = choose|m: int| 0 <= m < kids2.len() && #[trigger] live_named(nv2, kids2[m], name);
        let m0 = if m < k { m } else { m + 1 };
        assert(kids2[m] == kids[m0]);
        let g = kids[m0];
        if g == c {
            assert(nv2[c as int].removed);
        } else {
            assert(nv2[g as int] == nv[g as int] || g as int == p);
            assert(g as int != p);
            assert(live_named(nv, kids[m0], name));
            assert(live(nv, kids[k]));
            if m0 < k {
            } else {
                assert(k < m0);
                assert(nv[kids[k] as int].name != nv[kids[m0] as int].name);
            }
        }
    }
}

/// A tmpfs as a mountable filesystem.
pub struct TmpfsFilesystem {
    inner: Tmpfs,
}

impl TmpfsFilesystem {
    /// The wrapped tmpfs.
    pub closed spec fn fs(&self) -> Tmpfs {
        self.inner
    }

    /// Wrap a tmpfs for the mount table.
    pub fn new(tmpfs: Tmpfs) -> (r: TmpfsFilesystem)
        ensures
            r.fs() == tmpfs,
    {
        TmpfsFilesystem { inner: tmpfs }
    }

    /// The wrapped tmpfs.
    pub fn inner(&self) -> (r: &Tmpfs)
        ensures
            *r == self.fs(),
    {
        &self.inner
    }

    /// The filesystem's name.
    pub fn name(&self) -> (r: &'static str)
        ensures
            r@ == "tmpfs"@,
    {
        "tmpfs"
    }
}

impl Filesystem for TmpfsFilesystem {
    open spec fn ready(&self) -> bool {
        self.fs().wf()
    }

    open spec fn root(&self) -> InodeNum {
        0
    }

    open spec fn child(&self, dir: InodeNum, name: Seq<char>) -> VfsResult<InodeNum> {
        walk(self.fs().view(), dir, seq![name])
    }

    fn root_inode(&self) -> (r: InodeNum) {
        0
    }

    fn lookup_in(&self, dir: InodeNum, name: &str) -> (r: VfsResult<InodeNum>) {
        let r = self.inner.lookup(dir, name);
        proof {
            let nv = self.fs().view();
            let cs = seq![name@];
            assert(cs.skip(1) =~= Seq::<Seq<char>>::empty());
            if (dir as int) < nv.len() && !(nv[dir as int].file_type != FileType::Directory || nv[dir as int].removed) {
                if let Some(c) = lookup_child(nv, dir as int, name@) {
                    assert(walk(nv, c, cs.skip(1)) == Ok::<InodeNum, VfsError>(c));
                }
            }
        }
        r
    }
}

} // verus!
