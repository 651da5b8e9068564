//! The FAT32 volume as the VFS sees it: an inode is a file's first
//! cluster. FAT keeps a file's size in its parent's directory entry, not
//! with the file, so the driver remembers the metadata and sizes it hands
//! out and the directory each cluster was found in.

use vstd::prelude::*;
use crate::vfs::fat32::{entry_cluster, entry_name, Fat32Fs, FatDirEntry, ATTR_DIRECTORY, FAT_ENTRY_EOC_MIN, MAX_SCAN_CLUSTERS};
use crate::vfs::fat32_dir::{dir_find, dir_listing, DirQuery};
use crate::vfs::fat32_volume::{chain_read, chain_ready, chain_written, geometry_ok};
use crate::vfs::inode::{fresh_metadata, DirEntry, FileMode, FileType, InodeMetadata, InodeNum, VfsError, VfsResult};
use vstd::string::StringSliceAdditionalSpecFns;

verus! {

/// What the driver remembers between calls: metadata by inode, sizes by
/// inode, and (parent, child) cluster pairs.
pub struct FatCaches {
    pub metadata: Vec<(InodeNum, InodeMetadata)>,
    pub sizes: Vec<(InodeNum, u64)>,
    pub parents: Vec<(u32, u32)>,
}

/// The first index of `s` whose key is `k`.
pub open spec fn first_key<V>(s: Seq<(u64, V)>, k: u64) -> Option<int>
    decreases s.len(),
{
    if s.len() == 0 {
        None
    } else {
        match first_key(s.drop_last(), k) {
            Some(i) => Some(i),
            None => if s.last().0 == k { Some(s.len() - 1) } else { None },
        }
    }
}

/// The first index of `s` whose first cluster is `c`.
pub open spec fn first_by_fst(s: Seq<(u32, u32)>, c: u32) -> Option<int>
    decreases s.len(),
{
    if s.len() == 0 {
        None
    } else {
        match first_by_fst(s.drop_last(), c) {
            Some(i) => Some(i),
            None => if s.last().0 == c { Some(s.len() - 1) } else { None },
        }
    }
}

/// The first index of `s` whose second cluster is `c`.
pub open spec fn first_by_snd(s: Seq<(u32, u32)>, c: u32) -> Option<int>
    decreases s.len(),
{
    if s.len() == 0 {
        None
    } else {
        match first_by_snd(s.drop_last(), c) {
            Some(i) => Some(i),
            None => if s.last().1 == c { Some(s.len() - 1) } else { None },
        }
    }
}

/// A found index lies in the sequence.
proof fn lemma_first_key_range<V>(s: Seq<(u64, V)>, k: u64)
    ensures
        first_key(s, k) matches Some(i) ==> 0 <= i < s.len() && s[i].0 == k,
    decreases s.len(),
{
    if s.len() > 0 {
        lemma_first_key_range(s.drop_last(), k);
    }
}

proof fn lemma_first_by_fst_range(s: Seq<(u32, u32)>, c: u32)
    ensures
        first_by_fst(s, c) matches Some(i) ==> 0 <= i < s.len() && s[i].0 == c,
    decreases s.len(),
{
    if s.len() > 0 {
        lemma_first_by_fst_range(s.drop_last(), c);
    }
}

proof fn lemma_first_by_snd_range(s: Seq<(u32, u32)>, c: u32)
    ensures
        first_by_snd(s, c) matches Some(i) ==> 0 <= i < s.len() && s[i].1 == c,
    decreases s.len(),
{
    if s.len() > 0 {
        lemma_first_by_snd_range(s.drop_last(), c);
    }
}

/// The index `first_key` finds in `s`, scanning from the front.
fn find_key<V>(s: &Vec<(u64, V)>, k: u64) -> (r: Option<usize>)
    ensures
        match first_key(s@, k) {
            Some(i) => r == Some(i as usize),
            None => r is None,
        },
{
    let mut i: usize = 0;
    while i < s.len()
        invariant
            i <= s@.len(),
            first_key(s@.take(i as int), k) is None,
            first_key(s@, k) == first_key(s@.take(i as int), k) || first_key(s@.take(i as int), k) is None,
        decreases s@.len() - i,
    {
        assert(s@.take(i + 1).drop_last() =~= s@.take(i as int));
        if s[i].0 == k {
            proof { lemma_first_key_prefix(s@, k, i + 1); }
            return Some(i);
        }
        i = i + 1;
    }
    assert(s@.take(s@.len() as int) =~= s@);
    None
}

/// The first match in a prefix that has one is the first match overall.
proof fn lemma_first_key_prefix<V>(s: Seq<(u64, V)>, k: u64, n: int)
    requires
        0 <= n <= s.len(),
        first_key(s.take(n), k) is Some,
    ensures
        first_key(s, k) == first_key(s.take(n), k),
    decreases s.len() - n,
{
    if n < s.len() {
        assert(s.take(n + 1).drop_last() =~= s.take(n));
        lemma_first_key_prefix(s, k, n + 1);
    } else {
        assert(s.take(n) =~= s);
    }
}

proof fn lemma_first_by_fst_prefix(s: Seq<(u32, u32)>, c: u32, n: int)
    requires
        0 <= n <= s.len(),
        first_by_fst(s.take(n), c) is Some,
    ensures
        first_by_fst(s, c) == first_by_fst(s.take(n), c),
    decreases s.len() - n,
{
    if n < s.len() {
        assert(s.take(n + 1).drop_last() =~= s.take(n));
        lemma_first_by_fst_prefix(s, c, n + 1);
    } else {
        assert(s.take(n) =~= s);
    }
}

proof fn lemma_first_by_snd_prefix(s: Seq<(u32, u32)>, c: u32, n: int)
    requires
        0 <= n <= s.len(),
        first_by_snd(s.take(n), c) is Some,
    ensures
        first_by_snd(s, c) == first_by_snd(s.take(n), c),
    decreases s.len() - n,
{
    if n < s.len() {
        assert(s.take(n + 1).drop_last() =~= s.take(n));
        lemma_first_by_snd_prefix(s, c, n + 1);
    } else {
        assert(s.take(n) =~= s);
    }
}

/// `s` with the value of key `k` set to `v`: its first entry for `k`
/// rewritten, or a new entry at the end.
pub open spec fn keyed_set<V>(s: Seq<(u64, V)>, k: u64, v: V) -> Seq<(u64, V)> {
    match first_key(s, k) {
        Some(i) => s.update(i, (k, v)),
        None => s.push((k, v)),
    }
}

/// The value of the first entry for key `k`.
pub open spec fn keyed_get<V>(s: Seq<(u64, V)>, k: u64) -> Option<V> {
    match first_key(s, k) {
        Some(i) => Some(s[i].1),
        None => None,
    }
}

/// The pairs after noting that `child` was found in `parent`: the first
/// pair whose parent field is `child` gets `parent` as its child field;
/// otherwise the pair is added.
pub open spec fn parent_noted(s: Seq<(u32, u32)>, parent: u32, child: u32) -> Seq<(u32, u32)> {
    match first_by_fst(s, child) {
        Some(i) => s.update(i, (s[i].0, parent)),
        None => s.push((parent, child)),
    }
}

/// The metadata the driver gives an entry it finds in a directory: a
/// directory with mode 0755 and size 0, or a regular file with mode 0644
/// and its entry's size; the inode is the entry's first cluster.
pub open spec fn entry_metadata(e: FatDirEntry) -> InodeMetadata {
    if e.attr & ATTR_DIRECTORY != 0 {
        InodeMetadata { mode: FileMode(0o755), ..fresh_metadata(entry_cluster(e) as u64, FileType::Directory) }
    } else {
        InodeMetadata { mode: FileMode(0o644), size: e.size as u64, ..fresh_metadata(entry_cluster(e) as u64, FileType::Regular) }
    }
}

/// The caches after noting an entry found in directory `parent`.
pub open spec fn entry_noted(c: (Seq<(u64, InodeMetadata)>, Seq<(u64, u64)>, Seq<(u32, u32)>), parent: u32, e: FatDirEntry)
    -> (Seq<(u64, InodeMetadata)>, Seq<(u64, u64)>, Seq<(u32, u32)>) {
    let ino = entry_cluster(e) as u64;
    (
        keyed_set(c.0, ino, entry_metadata(e)),
        if e.attr & ATTR_DIRECTORY != 0 { c.1 } else { keyed_set(c.1, ino, e.size as u64) },
        parent_noted(c.2, parent, entry_cluster(e)),
    )
}

/// The three caches, as sequences.
pub open spec fn caches_view(c: FatCaches) -> (Seq<(u64, InodeMetadata)>, Seq<(u64, u64)>, Seq<(u32, u32)>) {
    (c.metadata@, c.sizes@, c.parents@)
}

/// The size the driver gives inode `ino` with metadata `m`: the one it
/// remembers, else the metadata's.
pub open spec fn known_size(c: FatCaches, m: InodeMetadata) -> u64 {
    match keyed_get(c.sizes@, m.ino) {
        Some(z) => z,
        None => m.size,
    }
}

impl FatCaches {
    /// Nothing remembered yet.
    pub fn new() -> (r: FatCaches)
        ensures
            r.metadata@.len() == 0,
            r.sizes@.len() == 0,
            r.parents@.len() == 0,
    {
        FatCaches { metadata: Vec::new(), sizes: Vec::new(), parents: Vec::new() }
    }

    /// What mounting a volume remembers: the root directory's metadata
    /// (mode 0755).
    pub fn for_volume(fs: &Fat32Fs) -> (r: FatCaches)
        ensures
            r.metadata@ == seq![(fs.bpb.root_cluster as u64,
                InodeMetadata { mode: FileMode(0o755), ..fresh_metadata(fs.bpb.root_cluster as u64, FileType::Directory) })],
            r.sizes@.len() == 0,
            r.parents@.len() == 0,
    {
        let mut c = FatCaches::new();
        let root_ino = fs.bpb.root_cluster as u64;
        let mut root_meta = InodeMetadata::new(root_ino, FileType::Directory);
        root_meta.mode = FileMode::new(0o755);
        assert(0o755u32 & 0o7777 == 0o755) by (bit_vector);
        c.cache_metadata(root_ino, root_meta);
        assert(c.metadata@ =~= seq![(root_ino, root_meta)]);
        c
    }

    /// Remember `meta` for inode `ino` (see [`keyed_set`]).
    pub fn cache_metadata(&mut self, ino: InodeNum, meta: InodeMetadata)
        ensures
            final(self).metadata@ == keyed_set(old(self).metadata@, ino, meta),
            final(self).sizes@ == old(self).sizes@,
            final(self).parents@ == old(self).parents@,
    {
        proof { lemma_first_key_range(self.metadata@, ino); }
        match find_key(&self.metadata, ino) {
            Some(i) => {
                self.metadata.set(i, (ino, meta));
            },
            None => {
                self.metadata.push((ino, meta));
            },
        }
    }

    /// The metadata remembered for inode `ino` (see [`keyed_get`]).
    pub fn get_cached_metadata(&self, ino: InodeNum) -> (r: Option<InodeMetadata>)
        ensures
            r == keyed_get(self.metadata@, ino),
    {
        let ghost s = self.metadata@;
        proof { lemma_first_key_range(s, ino); }
        let _n = self.metadata.len();
        let found = find_key(&self.metadata, ino);
        match found {
            Some(i) => {
                let (_, m) = self.metadata[i];
                proof {
                    match first_key(s, ino) {
                        Some(j) => { assert(j == i as int); },
                        None => { assert(false); },
                    }
                }
                Some(m)
            },
            None => None,
        }
    }

    /// Remember that cluster `child` was found in directory `parent` (see
    /// [`parent_noted`]).
    pub fn remember_parent(&mut self, parent_cluster: u32, child_cluster: u32)
        ensures
            final(self).parents@ == parent_noted(old(self).parents@, parent_cluster, child_cluster),
            final(self).metadata@ == old(self).metadata@,
            final(self).sizes@ == old(self).sizes@,
    {
        proof { lemma_first_by_fst_range(self.parents@, child_cluster); }
        let mut i: usize = 0;
        while i < self.parents.len()
            invariant
                i <= self.parents@.len(),
                self.parents@ == old(self).parents@,
                self.metadata@ == old(self).metadata@,
                self.sizes@ == old(self).sizes@,
                first_by_fst(self.parents@.take(i as int), child_cluster) is None,
            decreases self.parents@.len() - i,
        {
            assert(self.parents@.take(i + 1).drop_last() =~= self.parents@.take(i as int));
            let (c, _) = self.parents[i];
            if c == child_cluster {
                proof { lemma_first_by_fst_prefix(self.parents@, child_cluster, i + 1); }
                self.parents.set(i, (c, parent_cluster));
                return;
            }
            i = i + 1;
        }
        assert(self.parents@.take(self.parents@.len() as int) =~= self.parents@);
        self.parents.push((parent_cluster, child_cluster));
    }

    /// The directory cluster `child` was last found in: the parent field of
    /// the first pair whose child field is `child`.
    pub fn get_parent(&self, child_cluster: u32) -> (r: Option<u32>)
        ensures
            r == match first_by_snd(self.parents@, child_cluster) {
                Some(i) => Some(self.parents@[i].0),
                None => None::<u32>,
            },
    {
        proof { lemma_first_by_snd_range(self.parents@, child_cluster); }
        let mut i: usize = 0;
        while i < self.parents.len()
            invariant
                i <= self.parents@.len(),
                first_by_snd(self.parents@.take(i as int), child_cluster) is None,
            decreases self.parents@.len() - i,
        {
            assert(self.parents@.take(i + 1).drop_last() =~= self.parents@.take(i as int));
            let (p, c) = self.parents[i];
            if c == child_cluster {
                proof { lemma_first_by_snd_prefix(self.parents@, child_cluster, i + 1); }
                return Some(p);
            }
            i = i + 1;
        }
        assert(self.parents@.take(self.parents@.len() as int) =~= self.parents@);
        None
    }

    /// The size remembered for inode `ino` (see [`keyed_get`]).
    pub fn cached_size(&self, ino: InodeNum) -> (r: Option<u64>)
        ensures
            r == keyed_get(self.sizes@, ino),
    {
        let ghost s = self.sizes@;
        proof { lemma_first_key_range(s, ino); }
        let _n = self.sizes.len();
        let found = find_key(&self.sizes, ino);
        match found {
            Some(i) => {
                let (_, z) = self.sizes[i];
                proof {
                    match first_key(s, ino) {
                        Some(j) => { assert(j == i as int); },
                        None => { assert(false); },
                    }
                }
                Some(z)
            },
            None => None,
        }
    }

    /// Remember `size` for inode `ino` (see [`keyed_set`]).
    pub fn set_cached_size(&mut self, ino: InodeNum, size: u64)
        ensures
            final(self).sizes@ == keyed_set(old(self).sizes@, ino, size),
            final(self).metadata@ == old(self).metadata@,
            final(self).parents@ == old(self).parents@,
    {
        proof { lemma_first_key_range(self.sizes@, ino); }
        match find_key(&self.sizes, ino) {
            Some(i) => {
                self.sizes.set(i, (ino, size));
            },
            None => {
                self.sizes.push((ino, size));
            },
        }
    }
}

impl FatCaches {
    /// Remember an entry found in directory `parent` (see [`entry_noted`]).
    pub fn note_entry(&mut self, parent: u32, e: &FatDirEntry)
        ensures
            caches_view(*final(self)) == entry_noted(caches_view(*old(self)), parent, *e),
    {
        let c = e.get_cluster();
        let dir = e.is_dir();
        let mut meta = InodeMetadata::new(c as u64, if dir { FileType::Directory } else { FileType::Regular });
        meta.mode = FileMode::new(if dir { 0o755 } else { 0o644 });
        assert(0o755u32 & 0o7777 == 0o755) by (bit_vector);
        assert(0o644u32 & 0o7777 == 0o644) by (bit_vector);
        meta.size = if !dir { e.size as u64 } else { 0 };
        self.cache_metadata(c as u64, meta);
        if !dir {
            self.set_cached_size(c as u64, e.size as u64);
        }
        self.remember_parent(parent, c);
    }
}

/// A file or directory of a FAT32 volume: its first cluster and the
/// metadata it was opened with.
pub struct FatInode {
    pub cluster: u32,
    pub metadata: InodeMetadata,
}

impl FatInode {
    pub fn new(cluster: u32, metadata: InodeMetadata) -> (r: FatInode)
        ensures
            r.cluster == cluster,
            r.metadata == metadata,
    {
        FatInode { cluster, metadata }
    }

    /// Read at most `buf.len()` bytes from `offset`, not past the file's
    /// size (see [`known_size`]): IsADirectory for a directory; nothing at
    /// or past the end; else what the chain read gives (see
    /// [`chain_read`]), into the front of `buf`.
    pub fn read(&self, fs: &Fat32Fs, caches: &FatCaches, disk: &Vec<u8>, offset: u64, buf: &mut [u8]) -> (r: VfsResult<usize>)
        requires
            geometry_ok(*fs),
            self.metadata.file_type != FileType::Directory && offset < known_size(*caches, self.metadata) ==> {
                let size = known_size(*caches, self.metadata);
                let n = if size - offset < old(buf)@.len() { size - offset } else { old(buf)@.len() as int };
                chain_read(disk@, *fs, self.cluster, offset, n) is Some
            },
        ensures
            final(buf)@.len() == old(buf)@.len(),
            self.metadata.file_type == FileType::Directory ==> r == Err::<usize, VfsError>(VfsError::IsADirectory) && final(buf)@ == old(buf)@,
            self.metadata.file_type != FileType::Directory ==> {
                let size = known_size(*caches, self.metadata);
                let n = if size - offset < old(buf)@.len() { size - offset } else { old(buf)@.len() as int };
                if offset >= size {
                    r == Ok::<usize, VfsError>(0usize) && final(buf)@ == old(buf)@
                } else {
                    match chain_read(disk@, *fs, self.cluster, offset, n) {
                        Some(Ok(bytes)) => {
                            &&& r == Ok::<usize, VfsError>(bytes.len() as usize)
                            &&& bytes.len() <= n
                            &&& final(buf)@ == bytes + old(buf)@.skip(bytes.len() as int)
                        },
                        Some(Err(e)) => r == Err::<usize, VfsError>(e),
                        None => false,
                    }
                }
            },
    {
        if self.metadata.file_type == FileType::Directory {
            return Err(VfsError::IsADirectory);
        }
        let size = match caches.cached_size(self.metadata.ino) {
            Some(z) => z,
            None => self.metadata.size,
        };
        if offset >= size {
            return Ok(0);
        }
        let left = size - offset;
        let to_read: usize = if left < buf.len() as u64 { left as usize } else { buf.len() };
        let mut tmp: Vec<u8> = Vec::new();
        let mut i: usize = 0;
        while i < to_read
            invariant
                i <= to_read,
                tmp@.len() == i,
            decreases to_read - i,
        {
            tmp.push(0u8);
            i = i + 1;
        }
        let n = match fs.read_chain(disk, self.cluster, offset, tmp.as_mut_slice()) {
            Ok(n) => n,
            Err(e) => return Err(e),
        };
        let ghost b0 = buf@;
        let mut k: usize = 0;
        while k < n
            invariant
                n <= tmp@.len(),
                tmp@.len() <= buf@.len(),
                buf@.len() == b0.len(),
                k <= n,
                forall|t: int| 0 <= t < k ==> #[trigger] buf@[t] == tmp@[t],
                forall|t: int| k <= t < b0.len() ==> #[trigger] buf@[t] == b0[t],
            decreases n - k,
        {
            buf[k] = tmp[k];
            k = k + 1;
        }
        proof {
            assert(tmp@.subrange(0, n as int) =~= tmp@.take(n as int));
            assert(buf@ =~= tmp@.take(n as int) + b0.skip(n as int));
        }
        Ok(n)
    }

    /// Write `data` at `offset` (see [`Fat32Fs::write_chain`]):
    /// IsADirectory for a directory. The file's size becomes the larger of
    /// the write's end and its known size (see [`known_size`]), remembered,
    /// and recorded in the parent's entry when the parent is known (a
    /// failure there is ignored).
    pub fn write(&self, fs: &Fat32Fs, caches: &mut FatCaches, disk: &mut Vec<u8>, offset: u64, data: &[u8]) -> (r: VfsResult<usize>)
        requires
            geometry_ok(*fs),
            offset + data@.len() + fs.cluster_size <= u64::MAX,
            (offset + data@.len() + fs.cluster_size - 1) / (fs.cluster_size as int) <= u32::MAX,
        ensures
            self.metadata.file_type == FileType::Directory ==> r == Err::<usize, VfsError>(VfsError::IsADirectory)
                && final(disk)@ == old(disk)@ && caches_view(*final(caches)) == caches_view(*old(caches)),
            r matches Err(e) ==> e == VfsError::IsADirectory || e == VfsError::IoError || e == VfsError::NoSpace,
            r is Ok ==> self.metadata.file_type != FileType::Directory && r == Ok::<usize, VfsError>(data@.len() as usize)
                && final(caches).sizes@ == keyed_set(old(caches).sizes@, self.metadata.ino,
                    if offset + data@.len() > known_size(*old(caches), self.metadata) { (offset + data@.len()) as u64 }
                    else { known_size(*old(caches), self.metadata) })
                && final(caches).metadata@ == old(caches).metadata@
                && final(caches).parents@ == old(caches).parents@,
            self.metadata.file_type != FileType::Directory
                && (data@.len() == 0 || chain_ready(old(disk)@, *fs, self.cluster, offset + data@.len())) ==> r is Ok,
    {
        if self.metadata.file_type == FileType::Directory {
            return Err(VfsError::IsADirectory);
        }
        let (_new_head, n) = match fs.write_chain(disk, self.cluster, offset, data) {
            Ok(t) => t,
            Err(e) => return Err(e),
        };
        let known = match caches.cached_size(self.metadata.ino) {
            Some(z) => z,
            None => self.metadata.size,
        };
        let end = offset + n as u64;
        let new_size = if end > known { end } else { known };
        caches.set_cached_size(self.metadata.ino, new_size);
        if let Some(parent) = caches.get_parent(self.cluster) {
            let _ = fs.update_dir_entry_size(disk, parent, self.cluster, new_size as u32);
        }
        Ok(n)
    }

    /// The inode's metadata, with the size the driver knows (see
    /// [`known_size`]).
    pub fn metadata(&self, caches: &FatCaches) -> (r: VfsResult<InodeMetadata>)
        ensures
            r == Ok::<InodeMetadata, VfsError>(InodeMetadata { size: known_size(*caches, self.metadata), ..self.metadata }),
    {
        let mut m = self.metadata;
        if let Some(sz) = caches.cached_size(m.ino) {
            m.size = sz;
        }
        Ok(m)
    }

    /// FAT keeps no mode or owner: accepted and ignored.
    pub fn set_metadata(&self, _meta: &InodeMetadata) -> (r: VfsResult<()>)
        ensures
            r is Ok,
    {
        Ok(())
    }

    /// The inode named `name` in this directory: NotADirectory for a
    /// file; else the first cluster of the entry [`dir_find`] finds
    /// (NotFound when none), which is remembered (see [`entry_noted`]).
    pub fn lookup(&self, fs: &Fat32Fs, caches: &mut FatCaches, disk: &Vec<u8>, name: &str) -> (r: VfsResult<InodeNum>)
        requires
            geometry_ok(*fs),
        ensures
            self.metadata.file_type != FileType::Directory ==> r == Err::<InodeNum, VfsError>(VfsError::NotADirectory)
                && caches_view(*final(caches)) == caches_view(*old(caches)),
            self.metadata.file_type == FileType::Directory ==> match dir_find(disk@, *fs, DirQuery::Named(name.spec_bytes()), self.cluster) {
                Err(e) => r == Err::<InodeNum, VfsError>(e) && caches_view(*final(caches)) == caches_view(*old(caches)),
                Ok(None) => r == Err::<InodeNum, VfsError>(VfsError::NotFound) && caches_view(*final(caches)) == caches_view(*old(caches)),
                Ok(Some((_, _, e))) => r == Ok::<InodeNum, VfsError>(entry_cluster(e) as u64)
                    && caches_view(*final(caches)) == entry_noted(caches_view(*old(caches)), self.cluster, e),
            },
    {
        if self.metadata.file_type != FileType::Directory {
            return Err(VfsError::NotADirectory);
        }
        match fs.find_dir_entry(disk, self.cluster, name) {
            Err(e) => Err(e),
            Ok(None) => Err(VfsError::NotFound),
            Ok(Some((_, _, entry))) => {
                caches.note_entry(self.cluster, &entry);
                Ok(entry.get_cluster() as u64)
            },
        }
    }

    /// The directory's entries (see [`dir_listing`]), each remembered (see
    /// [`entry_noted`]): NotADirectory for a file.
    pub fn readdir(&self, fs: &Fat32Fs, caches: &mut FatCaches, disk: &Vec<u8>) -> (r: VfsResult<Vec<DirEntry>>)
        requires
            geometry_ok(*fs),
        ensures
            self.metadata.file_type != FileType::Directory ==> r is Err && r->Err_0 == VfsError::NotADirectory,
            self.metadata.file_type == FileType::Directory ==> match dir_listing(disk@, *fs, self.cluster, 0, MAX_SCAN_CLUSTERS as nat) {
                Err(e) => r is Err && r->Err_0 == e,
                Ok(l) => r is Ok && r->Ok_0@.len() == l.len() && forall|i: int| 0 <= i < l.len() ==> {
                    &&& (#[trigger] r->Ok_0@[i]).name@ == entry_name(l[i])
                    &&& r->Ok_0@[i].ino == entry_cluster(l[i]) as u64
                    &&& r->Ok_0@[i].file_type == entry_metadata(l[i]).file_type
                },
            },
    {
        if self.metadata.file_type != FileType::Directory {
            return Err(VfsError::NotADirectory);
        }
        let shown = match fs.list_dir(disk, self.cluster) {
            Err(e) => return Err(e),
            Ok(v) => v,
        };
        let mut entries: Vec<DirEntry> = Vec::new();
        let mut i: usize = 0;
        while i < shown.len()
            invariant
                i <= shown@.len(),
                entries@.len() == i,
                forall|j: int| 0 <= j < i ==> {
                    &&& (#[trigger] entries@[j]).name@ == entry_name(shown@[j])
                    &&& entries@[j].ino == entry_cluster(shown@[j]) as u64
                    &&& entries@[j].file_type == entry_metadata(shown@[j]).file_type
                },
            decreases shown@.len() - i,
        {
            let e = shown[i];
            let ft = if e.is_dir() { FileType::Directory } else { FileType::Regular };
            let ino = e.get_cluster() as u64;
            caches.note_entry(self.cluster, &e);
            entries.push(DirEntry { name: e.get_name(), ino, file_type: ft });
            i = i + 1;
        }
        Ok(entries)
    }

    /// Nothing is buffered.
    pub fn sync(&self) -> (r: VfsResult<()>)
        ensures
            r is Ok,
    {
        Ok(())
    }
}

/// The root directory's metadata: what is remembered for it (a fresh
/// directory's otherwise), with mode 0755.
pub open spec fn root_metadata(m: Seq<(u64, InodeMetadata)>, ino: u64) -> InodeMetadata {
    let base = match keyed_get(m, ino) {
        Some(x) => x,
        None => fresh_metadata(ino, FileType::Directory),
    };
    InodeMetadata { mode: FileMode(0o755), ..base }
}

/// A mounted FAT32 volume as a VFS filesystem.
pub struct Fat32Filesystem {
    inner: Fat32Fs,
}

impl Fat32Filesystem {
    /// The volume wrapped.
    pub closed spec fn fs(&self) -> Fat32Fs {
        self.inner
    }

    pub fn new(fat32: Fat32Fs) -> (r: Fat32Filesystem)
        ensures
            r.fs() == fat32,
    {
        Fat32Filesystem { inner: fat32 }
    }

    /// The volume, for the calls that write through this mount.
    pub fn inner(&self) -> (r: &Fat32Fs)
        ensures
            *r == self.fs(),
    {
        &self.inner
    }

    /// The root directory: the root cluster, with [`root_metadata`].
    pub fn root_inode(&self, caches: &FatCaches) -> (r: FatInode)
        ensures
            r.cluster == self.fs().bpb.root_cluster,
            r.metadata == root_metadata(caches.metadata@, self.fs().bpb.root_cluster as u64),
    {
        let root_ino = self.inner.bpb.root_cluster as u64;
        let mut meta = match caches.get_cached_metadata(root_ino) {
            Some(m) => m,
            None => InodeMetadata::new(root_ino, FileType::Directory),
        };
        meta.mode = FileMode::new(0o755);
        assert(0o755u32 & 0o7777 == 0o755) by (bit_vector);
        FatInode::new(root_ino as u32, meta)
    }

    /// The inode `ino`: the root as [`Fat32Filesystem::root_inode`] gives
    /// it; otherwise one whose metadata is remembered (NotFound if none).
    pub fn get_inode(&self, caches: &FatCaches, ino: InodeNum) -> (r: VfsResult<FatInode>)
        ensures
            ino == self.fs().bpb.root_cluster as u64 ==> r is Ok && r->Ok_0.cluster == self.fs().bpb.root_cluster
                && r->Ok_0.metadata == root_metadata(caches.metadata@, ino),
            ino != self.fs().bpb.root_cluster as u64 ==> match keyed_get(caches.metadata@, ino) {
                Some(m) => r is Ok && r->Ok_0.cluster == ino as u32 && r->Ok_0.metadata == m,
                None => r is Err && r->Err_0 == VfsError::NotFound,
            },
    {
        let root_ino = self.inner.bpb.root_cluster as u64;
        let meta = if ino == root_ino {
            let mut m = match caches.get_cached_metadata(ino) {
                Some(m) => m,
                None => InodeMetadata::new(ino, FileType::Directory),
            };
            m.mode = FileMode::new(0o755);
            assert(0o755u32 & 0o7777 == 0o755) by (bit_vector);
            m
        } else {
            match caches.get_cached_metadata(ino) {
                Some(m) => m,
                None => return Err(VfsError::NotFound),
            }
        };
        Ok(FatInode::new(ino as u32, meta))
    }

    /// The filesystem's name.
    pub fn name(&self) -> (r: &'static str)
        ensures
            r@ == "fat32"@,
    {
        "fat32"
    }
}

} // verus!
