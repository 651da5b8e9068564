//! initramfs: the read-only in-memory filesystem of early boot.
//!
//! Entries live in a table that only grows; an entry's inode number is its
//! slot, and entry 0 is the root directory. Files are added one by one or
//! loaded from a packed image (see [`Initramfs::from_binary`]).

use vstd::prelude::*;
use crate::vfs::inode::{DirEntry, FileMode, FileType, InodeMetadata, InodeNum, VfsError, VfsResult, fresh_metadata};
use crate::vfs::path::{components, comps_acc, flush, split_components};
use crate::encoding::{le16, le32, lemma_decode_len, read_le32, utf8_str};
use vstd::utf8::{decode_utf8, valid_utf8};

verus! {

/// An entry of the initramfs.
struct InitramfsEntry {
    name: String,
    ino: InodeNum,
    file_type: FileType,
    data: Vec<u8>,
    /// Child inode numbers (directories).
    children: Vec<InodeNum>,
}

/// What an entry holds, as seen by the contracts.
pub ghost struct EntryView {
    pub name: Seq<char>,
    pub ino: InodeNum,
    pub file_type: FileType,
    pub data: Seq<u8>,
    pub children: Seq<InodeNum>,
}

spec fn entry_view(e: InitramfsEntry) -> EntryView {
    EntryView { name: e.name@, ino: e.ino, file_type: e.file_type, data: e.data@, children: e.children@ }
}

/// A new entry without children.
pub open spec fn new_entry(name: Seq<char>, ino: InodeNum, file_type: FileType, data: Seq<u8>) -> EntryView {
    EntryView { name, ino, file_type, data, children: Seq::empty() }
}

/// The table after appending `e` and listing it among the children of
/// `parent`, when an entry `parent` exists (the new entry included).
pub open spec fn with_entry(ev: Seq<EntryView>, parent: InodeNum, e: EntryView) -> Seq<EntryView> {
    let ev1 = ev.push(e);
    if (parent as int) < ev1.len() {
        ev1.update(parent as int, EntryView {
            children: ev1[parent as int].children.push(ev.len() as InodeNum),
            ..ev1[parent as int]
        })
    } else {
        ev1
    }
}

/// The first of `kids`, in order, that names an entry called `name`.
pub open spec fn first_child_named(ev: Seq<EntryView>, kids: Seq<InodeNum>, name: Seq<char>) -> Option<InodeNum>
    decreases kids.len(),
{
    if kids.len() == 0 {
        None
    } else {
        match first_child_named(ev, kids.drop_last(), name) {
            Some(c) => Some(c),
            None => if (kids.last() as int) < ev.len() && ev[kids.last() as int].name == name {
                Some(kids.last())
            } else {
                None
            },
        }
    }
}

/// The child of entry `parent` called `name`, if `parent` exists.
pub open spec fn child_named(ev: Seq<EntryView>, parent: InodeNum, name: Seq<char>) -> Option<InodeNum> {
    if (parent as int) < ev.len() {
        first_child_named(ev, ev[parent as int].children, name)
    } else {
        None
    }
}

/// The table after adding a file with contents `data` at the components
/// `comps` below `parent`: each component but the last is the existing
/// child of that name or a new directory; the last is always a new file.
pub open spec fn insert_path(ev: Seq<EntryView>, parent: InodeNum, comps: Seq<Seq<char>>, data: Seq<u8>) -> Seq<EntryView>
    decreases comps.len(),
{
    if comps.len() == 0 {
        ev
    } else if comps.len() == 1 {
        with_entry(ev, parent, new_entry(comps[0], ev.len() as InodeNum, FileType::Regular, data))
    } else {
        match child_named(ev, parent, comps[0]) {
            Some(c) => insert_path(ev, c, comps.skip(1), data),
            None => insert_path(
                with_entry(ev, parent, new_entry(comps[0], ev.len() as InodeNum, FileType::Directory, Seq::empty())),
                ev.len() as InodeNum, comps.skip(1), data),
        }
    }
}

/// The initramfs.
pub struct Initramfs {
    entries: Vec<InitramfsEntry>,
}

impl Initramfs {
    /// The entry table.
    pub closed spec fn view(&self) -> Seq<EntryView> {
        self.entries@.map_values(|e: InitramfsEntry| entry_view(e))
    }

    /// The table's invariant: a root directory at 0, each entry's number
    /// is its slot, and children are entries of the table.
    pub open spec fn wf(&self) -> bool {
        table_wf(self.view()) && self.view().len() <= usize::MAX
    }

    /// An initramfs holding only the root directory, named "/".
    pub fn new() -> (r: Initramfs)
        ensures
            r.wf(),
            r.view() == root_table(),
    {
        let mut entries: Vec<InitramfsEntry> = Vec::new();
        entries.push(InitramfsEntry {
            name: String::from_str("/"),
            ino: 0,
            file_type: FileType::Directory,
            data: Vec::new(),
            children: Vec::new(),
        });
        let r = Initramfs { entries };
        proof {
            reveal_strlit("/");
            assert(r.view()[0].name =~= seq!['/']);
            assert(r.view()[0].data =~= Seq::<u8>::empty());
            assert(r.view()[0].children =~= Seq::<InodeNum>::empty());
            assert(r.view() =~= seq![new_entry(seq!['/'], 0, FileType::Directory, Seq::empty())]);
        }
        r
    }

    /// Append an entry and list it under `parent` when that entry exists.
    fn push_entry(&mut self, parent: InodeNum, name: String, file_type: FileType, data: Vec<u8>) -> (ino: InodeNum)
        requires
            old(self).wf(),
            old(self).view().len() + 1 < u64::MAX,
        ensures
            final(self).wf(),
            ino == old(self).view().len(),
            final(self).view() == with_entry(old(self).view(), parent,
                new_entry(name@, ino, file_type, data@)),
    {
        let ghost ev = self.view();
        let ino = self.entries.len() as u64;
        self.entries.push(InitramfsEntry { name, ino, file_type, data, children: Vec::new() });
        let ghost ev1 = ev.push(new_entry(name@, ino, file_type, data@));
        assert(self.view() =~= ev1);
        if parent < self.entries.len() as u64 {
            let p = parent as usize;
            self.entries[p].children.push(ino);
            assert(self.view() =~= ev1.update(p as int, EntryView {
                children: ev1[p as int].children.push(ino),
                ..ev1[p as int]
            }));
        }
        proof {
            let ev2 = self.view();
            assert(ev2 == with_entry(ev, parent, new_entry(name@, ino, file_type, data@)));
            assert forall|i: int, k: int| 0 <= i < ev2.len() && 0 <= k < ev2[i].children.len() implies
                #[trigger] ev2[i].children[k] < ev2.len() by {
                if i < ev.len() && k < ev[i].children.len() {
                    assert(ev2[i].children[k] == ev[i].children[k]);
                }
            }
        }
        ino
    }

    /// Add a file with contents `data` to the root directory; returns its
    /// inode number.
    pub fn add_file(&mut self, name: &str, data: &[u8]) -> (ino: InodeNum)
        requires
            old(self).wf(),
            old(self).view().len() + 1 < u64::MAX,
        ensures
            final(self).wf(),
            ino == old(self).view().len(),
            final(self).view() == with_entry(old(self).view(), 0, new_entry(name@, ino, FileType::Regular, data@)),
    {
        self.push_entry(0, name.to_owned(), FileType::Regular, vstd::slice::slice_to_vec(data))
    }

    /// Add an empty directory to the root directory; returns its inode
    /// number.
    pub fn add_dir(&mut self, name: &str) -> (ino: InodeNum)
        requires
            old(self).wf(),
            old(self).view().len() + 1 < u64::MAX,
        ensures
            final(self).wf(),
            ino == old(self).view().len(),
            final(self).view() == with_entry(old(self).view(), 0,
                new_entry(name@, ino, FileType::Directory, Seq::empty())),
    {
        self.push_entry(0, name.to_owned(), FileType::Directory, Vec::new())
    }

    /// Add a file with contents `data` as a child of `parent_ino` (listed
    /// there only if that entry exists); returns its inode number.
    pub fn add_file_to(&mut self, parent_ino: InodeNum, name: &str, data: &[u8]) -> (ino: InodeNum)
        requires
            old(self).wf(),
            old(self).view().len() + 1 < u64::MAX,
        ensures
            final(self).wf(),
            ino == old(self).view().len(),
            final(self).view() == with_entry(old(self).view(), parent_ino,
                new_entry(name@, ino, FileType::Regular, data@)),
    {
        self.push_entry(parent_ino, name.to_owned(), FileType::Regular, vstd::slice::slice_to_vec(data))
    }

    /// Add an empty directory as a child of `parent_ino` (listed there only
    /// if that entry exists); returns its inode number.
    pub fn add_dir_to(&mut self, parent_ino: InodeNum, name: &str) -> (ino: InodeNum)
        requires
            old(self).wf(),
            old(self).view().len() + 1 < u64::MAX,
        ensures
            final(self).wf(),
            ino == old(self).view().len(),
            final(self).view() == with_entry(old(self).view(), parent_ino,
                new_entry(name@, ino, FileType::Directory, Seq::empty())),
    {
        self.push_entry(parent_ino, name.to_owned(), FileType::Directory, Vec::new())
    }

    /// The first child of `parent_ino`, in order, named `name`.
    fn find_child(&self, parent_ino: InodeNum, name: &String) -> (r: Option<InodeNum>)
        requires
            self.wf(),
        ensures
            r == child_named(self.view(), parent_ino, name@),
    {
        let ghost ev = self.view();
        if parent_ino >= self.entries.len() as u64 {
            return None;
        }
        let p = parent_ino as usize;
        assert(entry_view(self.entries@[p as int]) == ev[p as int]);
        let kids = &self.entries[p].children;
        let mut k: usize = 0;
        assert(kids@.take(0) =~= Seq::<InodeNum>::empty());
        while k < kids.len()
            invariant
                k <= kids@.len(),
                kids@ == ev[p as int].children,
                ev == self.view(),
                table_wf(ev),
                ev.len() <= usize::MAX,
                (p as int) < ev.len(),
                p as int == parent_ino as int,
                first_child_named(ev, kids@.take(k as int), name@) is None,
            decreases kids@.len() - k,
        {
            let c = kids[k];
            assert(kids@.take(k + 1).drop_last() =~= kids@.take(k as int));
            assert(kids@.take(k + 1).last() == c);
            assert((c as int) < ev.len());
            assert((c as usize) as int == c as int);
            let child = &self.entries[c as usize];
            assert(entry_view(*child) == ev[c as int]);
            if child.name == *name {
                proof {
                    assert(first_child_named(ev, kids@.take(k + 1), name@) == Some(c));
                    lemma_first_prefix(ev, kids@, k + 1, name@);
                }
                return Some(c);
            }
            k = k + 1;
        }
        assert(kids@.take(k as int) =~= kids@);
        None
    }

    /// Add a file with contents `data` at a slash-separated path below the
    /// root, creating the directories on the way that do not exist yet
    /// (empty pieces of the path are skipped; a path without pieces adds
    /// nothing). See [`insert_path`].
    pub fn add_path(&mut self, path: &str, data: &[u8])
        requires
            old(self).wf(),
            old(self).view().len() + components(path@, false).len() < u64::MAX,
        ensures
            final(self).wf(),
            final(self).view() == insert_path(old(self).view(), 0, components(path@, false), data@),
    {
        let parts = split_components(path, false);
        let ghost cs = components(path@, false);
        let ghost ev0 = self.view();
        if parts.len() == 0 {
            return;
        }
        let last = parts.len() - 1;
        let mut parent: InodeNum = 0;
        let mut i: usize = 0;
        assert(cs.skip(0) =~= cs);
        while i < last
            invariant
                self.wf(),
                i <= last,
                last + 1 == parts@.len(),
                parts@.len() == cs.len(),
                cs == components(path@, false),
                ev0 == old(self).view(),
                ev0.len() + cs.len() < u64::MAX,
                forall|m: int| 0 <= m < parts@.len() ==> #[trigger] parts@[m]@ == cs[m],
                (parent as int) < self.view().len(),
                self.view().len() <= ev0.len() + i,
                insert_path(self.view(), parent, cs.skip(i as int), data@) == insert_path(ev0, 0, cs, data@),
            decreases last - i,
        {
            let ghost ev = self.view();
            let ghost rest = cs.skip(i as int);
            assert(rest[0] == parts@[i as int]@);
            assert(rest.skip(1) =~= cs.skip(i + 1));
            parent = match self.find_child(parent, &parts[i]) {
                Some(ino) => {
                    proof { lemma_first_child_in_table(ev, ev[parent as int].children, parts@[i as int]@); }
                    ino
                }
                None => self.add_dir_to(parent, parts[i].as_str()),
            };
            i = i + 1;
        }
        let ghost rest = cs.skip(last as int);
        assert(rest.len() == 1);
        assert(rest[0] == parts@[last as int]@);
        self.add_file_to(parent, parts[last].as_str(), data);
    }

    /// Inode `ino` when it is an entry of the table, else NotFound.
    pub fn get_inode(&self, ino: InodeNum) -> (r: VfsResult<InodeNum>)
        requires
            self.wf(),
        ensures
            (ino as int) < self.view().len() ==> r == Ok::<InodeNum, VfsError>(ino),
            (ino as int) >= self.view().len() ==> r == Err::<InodeNum, VfsError>(VfsError::NotFound),
    {
        if ino >= self.entries.len() as u64 {
            Err(VfsError::NotFound)
        } else {
            Ok(ino)
        }
    }

    /// Read entry `ino` from `offset` into `buf`: IsADirectory for a
    /// directory, 0 at or past the end, otherwise as many bytes as fit,
    /// with the rest of `buf` untouched.
    pub fn read_inode(&self, ino: InodeNum, offset: u64, buf: &mut [u8]) -> (r: VfsResult<usize>)
        requires
            self.wf(),
            (ino as int) < self.view().len(),
        ensures
            entry_read_post(self.view()[ino as int], offset, old(buf)@, final(buf)@, r),
    {
        let i = ino as usize;
        let entry = &self.entries[i];
        assert(entry_view(*entry) == self.view()[i as int]);
        if entry.file_type == FileType::Directory {
            return Err(VfsError::IsADirectory);
        }
        let data = &entry.data;
        if offset >= data.len() as u64 {
            return Ok(0);
        }
        let start = offset as usize;
        let available = data.len() - start;
        let to_read = if buf.len() < available { buf.len() } else { available };
        let ghost old_buf = buf@;
        let mut k: usize = 0;
        while k < to_read
            invariant
                k <= to_read,
                to_read <= buf@.len(),
                buf@.len() == old_buf.len(),
                start + to_read <= data@.len(),
                data@.len() <= usize::MAX,
                forall|m: int| 0 <= m < k ==> #[trigger] buf@[m] == data@[start + m],
                forall|m: int| k <= m < buf@.len() ==> #[trigger] buf@[m] == old_buf[m],
            decreases to_read - k,
        {
            buf[k] = data[start + k];
            k = k + 1;
        }
        assert(buf@.subrange(0, to_read as int) =~= data@.subrange(start as int, start + to_read));
        assert(buf@.subrange(to_read as int, buf@.len() as int) =~= old_buf.subrange(to_read as int, old_buf.len() as int));
        Ok(to_read)
    }

    /// Writing is refused: the initramfs is read-only.
    pub fn write_inode(&self, ino: InodeNum, offset: u64, buf: &[u8]) -> (r: VfsResult<usize>)
        ensures
            r == Err::<usize, VfsError>(VfsError::PermissionDenied),
    {
        Err(VfsError::PermissionDenied)
    }

    /// Metadata of entry `ino`: its number and type, the size of its data
    /// and mode 0555.
    pub fn inode_metadata(&self, ino: InodeNum) -> (r: VfsResult<InodeMetadata>)
        requires
            self.wf(),
            (ino as int) < self.view().len(),
        ensures
            r == Ok::<InodeMetadata, VfsError>(InodeMetadata {
                size: self.view()[ino as int].data.len() as u64,
                mode: FileMode(0o555),
                ..fresh_metadata(self.view()[ino as int].ino, self.view()[ino as int].file_type)
            }),
    {
        let entry = &self.entries[ino as usize];
        assert(entry_view(*entry) == self.view()[ino as int]);
        let mut meta = InodeMetadata::new(entry.ino, entry.file_type);
        meta.size = entry.data.len() as u64;
        meta.mode = FileMode::new(0o555);
        assert(0o555u32 & 0o7777 == 0o555) by (bit_vector);
        Ok(meta)
    }

    /// The child of directory `ino` called `name`: NotADirectory for a
    /// file, NotFound when no child has that name, else the first that has.
    pub fn lookup(&self, ino: InodeNum, name: &str) -> (r: VfsResult<InodeNum>)
        requires
            self.wf(),
            (ino as int) < self.view().len(),
        ensures
            self.view()[ino as int].file_type != FileType::Directory
                ==> r == Err::<InodeNum, VfsError>(VfsError::NotADirectory),
            self.view()[ino as int].file_type == FileType::Directory ==>
                match child_named(self.view(), ino, name@) {
                    Some(c) => r == Ok::<InodeNum, VfsError>(c),
                    None => r == Err::<InodeNum, VfsError>(VfsError::NotFound),
                },
    {
        let entry = &self.entries[ino as usize];
        assert(entry_view(*entry) == self.view()[ino as int]);
        if entry.file_type != FileType::Directory {
            return Err(VfsError::NotADirectory);
        }
        let name_s = name.to_owned();
        match self.find_child(ino, &name_s) {
            Some(c) => Ok(c),
            None => Err(VfsError::NotFound),
        }
    }

    /// The children of directory `ino`, in the order they were added.
    pub fn readdir(&self, ino: InodeNum) -> (r: VfsResult<Vec<DirEntry>>)
        requires
            self.wf(),
            (ino as int) < self.view().len(),
        ensures
            self.view()[ino as int].file_type != FileType::Directory
                ==> r is Err && r->Err_0 == VfsError::NotADirectory,
            self.view()[ino as int].file_type == FileType::Directory ==> r is Ok && {
                let kids = self.view()[ino as int].children;
                &&& r->Ok_0@.len() == kids.len()
                &&& forall|m: int| 0 <= m < kids.len() ==> (#[trigger] r->Ok_0@[m]).name@ == self.view()[kids[m] as int].name
                    && r->Ok_0@[m].ino == kids[m]
                    && r->Ok_0@[m].file_type == self.view()[kids[m] as int].file_type
            },
    {
        let ghost ev = self.view();
        let i = ino as usize;
        assert(entry_view(self.entries@[i as int]) == ev[i as int]);
        if self.entries[i].file_type != FileType::Directory {
            return Err(VfsError::NotADirectory);
        }
        let kids = &self.entries[i].children;
        let mut out: Vec<DirEntry> = Vec::new();
        let mut k: usize = 0;
        while k < kids.len()
            invariant
                ev == self.view(),
                self.wf(),
                k <= kids@.len(),
                kids@ == ev[i as int].children,
                i < ev.len(),
                out@.len() == k,
                forall|m: int| 0 <= m < k ==> (#[trigger] out@[m]).name@ == ev[kids@[m] as int].name
                    && out@[m].ino == kids@[m]
                    && out@[m].file_type == ev[kids@[m] as int].file_type,
            decreases kids@.len() - k,
        {
            let c = kids[k];
            assert((c as int) < ev.len());
            let child = &self.entries[c as usize];
            assert(entry_view(*child) == ev[c as int]);
            out.push(DirEntry { name: child.name.clone(), ino: child.ino, file_type: child.file_type });
            k = k + 1;
        }
        Ok(out)
    }

    /// Load a packed image: the magic "RACRAMFS", a little-endian `u32`
    /// count, then per file a `u16` name length, the UTF-8 name, a `u32`
    /// data length and the data. Each file is added with
    /// [`Initramfs::add_path`]; loading stops quietly at the first entry
    /// that is cut short or whose name is not UTF-8. None when the image is
    /// shorter than its header or the magic is wrong.
    pub fn from_binary(data: &[u8]) -> (r: Option<Initramfs>)
        ensures
            r is Some <==> image_header_ok(data@),
            r matches Some(fs) ==> fs.wf()
                && fs.view() == load_files(root_table(), image_files(data@, 12, le32(data@, 8) as nat)),
    {
        if data.len() < 12 {
            return None;
        }
        let magic: [u8; 8] = [82u8, 65u8, 67u8, 82u8, 65u8, 77u8, 70u8, 83u8];
        let mut m: usize = 0;
        while m < 8
            invariant
                m <= 8,
                data@.len() >= 12,
                magic@ == image_magic(),
                forall|j: int| 0 <= j < m ==> data@[j] == #[trigger] magic@[j],
            decreases 8 - m,
        {
            if data[m] != magic[m] {
                proof { assert(data@.subrange(0, 8)[m as int] != image_magic()[m as int]); }
                return None;
            }
            m = m + 1;
        }
        assert(data@.subrange(0, 8) =~= image_magic());
        let count = read_le32(data, 8) as usize;
        let ghost d = data@;
        let ghost total = image_files(d, 12, count as nat);
        let ghost mut done: Seq<(Seq<char>, Seq<u8>)> = Seq::empty();
        let mut fs = Initramfs::new();
        let mut offset: usize = 12;
        let mut i: usize = 0;
        assert(done + total =~= total);
        while i < count
            invariant
                d == data@,
                12 <= offset <= d.len(),
                i <= count,
                fs.wf(),
                fs.view().len() <= 1 + offset - 12,
                total == image_files(d, 12, count as nat),
                total == done + image_files(d, offset as int, (count - i) as nat),
                fs.view() == load_files(root_table(), done),
            decreases count - i,
        {
            match next_image_entry(data, offset) {
                None => {
                    assert(image_files(d, offset as int, (count - i) as nat) =~= Seq::empty());
                    assert(image_files(d, offset as int, 0) =~= Seq::empty());
                    i = count;
                }
                Some((name, start, end)) => {
                    let ghost e = image_entry(d, offset as int)->0;
                    let ghost rest = image_files(d, end as int, (count - i - 1) as nat);
                    assert(image_files(d, offset as int, (count - i) as nat) == seq![(e.0, e.1)] + rest);
                    proof {
                        lemma_comps_len(name@, Seq::empty(), false);
                        lemma_decode_len(d.subrange(offset + 2, start - 4));
                        assert(d.subrange(offset + 2, start - 4).len() == start - 4 - offset - 2);
                    }
                    fs.add_path(name, &data[start..end]);
                    proof {
                        lemma_insert_path_len(load_files(root_table(), done), 0, components(name@, false), d.subrange(start as int, end as int));
                        let done2 = done.push((e.0, e.1));
                        assert(done2.drop_last() =~= done);
                        assert(done + (seq![(e.0, e.1)] + rest) =~= done2 + rest);
                        done = done2;
                    }
                    offset = end;
                    i = i + 1;
                }
            }
        }
        assert(image_files(d, offset as int, 0) =~= Seq::empty());
        assert(done + Seq::<(Seq<char>, Seq<u8>)>::empty() =~= done);
        Some(fs)
    }
}

/// The invariant of an entry table (see [`Initramfs::wf`]).
pub open spec fn table_wf(ev: Seq<EntryView>) -> bool {
    &&& 0 < ev.len() < u64::MAX
    &&& ev[0].file_type == FileType::Directory
    &&& forall|i: int| 0 <= i < ev.len() ==> (#[trigger] ev[i]).ino == i
    &&& forall|i: int, k: int| 0 <= i < ev.len() && 0 <= k < ev[i].children.len() ==>
            #[trigger] ev[i].children[k] < ev.len()
}

/// What a read of entry `e` returns: IsADirectory for a directory, 0 at or
/// past the end, otherwise the bytes from `offset`, as many as fit, with
/// the rest of the buffer untouched.
pub open spec fn entry_read_post(e: EntryView, offset: u64, b0: Seq<u8>, b1: Seq<u8>, r: VfsResult<usize>) -> bool {
    if e.file_type == FileType::Directory {
        r == Err::<usize, VfsError>(VfsError::IsADirectory) && b1 == b0
    } else if offset >= e.data.len() {
        r == Ok::<usize, VfsError>(0) && b1 == b0
    } else {
        let n = if b0.len() < e.data.len() - offset { b0.len() as int } else { e.data.len() - offset };
        &&& r == Ok::<usize, VfsError>(n as usize)
        &&& b1.len() == b0.len()
        &&& b1.subrange(0, n) == e.data.subrange(offset as int, offset + n)
        &&& b1.subrange(n, b1.len() as int) == b0.subrange(n, b0.len() as int)
    }
}

/// The initramfs as a mounted filesystem.
pub struct InitramfsFs {
    inner: Initramfs,
}

impl InitramfsFs {
    /// Mount `initramfs`.
    pub fn new(initramfs: Initramfs) -> (r: InitramfsFs)
        ensures
            r.fs() == initramfs,
    {
        InitramfsFs { inner: initramfs }
    }

    /// The mounted initramfs.
    pub closed spec fn fs(&self) -> Initramfs {
        self.inner
    }

    /// The mounted initramfs.
    pub fn inner(&self) -> (r: &Initramfs)
        ensures
            *r == self.fs(),
    {
        &self.inner
    }

    /// The root inode, entry 0.
    pub fn root_inode(&self) -> (r: InodeNum)
        ensures
            r == 0,
    {
        0
    }

    /// The filesystem's name.
    pub fn name(&self) -> (r: &'static str)
        ensures
            r@ == "initramfs"@,
    {
        "initramfs"
    }
}

/// The table of a new initramfs: the root directory "/".
pub open spec fn root_table() -> Seq<EntryView> {
    seq![new_entry(seq!['/'], 0, FileType::Directory, Seq::empty())]
}

/// The magic bytes "RACRAMFS" that open a packed image.
pub open spec fn image_magic() -> Seq<u8> {
    seq![82u8, 65u8, 67u8, 82u8, 65u8, 77u8, 70u8, 83u8]
}

/// An image has its twelve header bytes and starts with the magic.
pub open spec fn image_header_ok(d: Seq<u8>) -> bool {
    d.len() >= 12 && d.subrange(0, 8) == image_magic()
}

/// The entry at `off`: its name, its data and where the next entry
/// starts; None when it is cut short or its name is not UTF-8.
pub open spec fn image_entry(d: Seq<u8>, off: int) -> Option<(Seq<char>, Seq<u8>, int)> {
    if off + 2 > d.len() {
        None
    } else {
        let o1 = off + 2;
        let o2 = o1 + le16(d, off);
        if o2 > d.len() || !valid_utf8(d.subrange(o1, o2)) || o2 + 4 > d.len() {
            None
        } else {
            let o3 = o2 + 4;
            let o4 = o3 + le32(d, o2);
            if o4 > d.len() {
                None
            } else {
                Some((decode_utf8(d.subrange(o1, o2)), d.subrange(o3, o4), o4))
            }
        }
    }
}

/// The files of up to `count` entries from `off`, up to the first
/// malformed one.
pub open spec fn image_files(d: Seq<u8>, off: int, count: nat) -> Seq<(Seq<char>, Seq<u8>)>
    decreases count,
{
    if count == 0 {
        Seq::empty()
    } else {
        match image_entry(d, off) {
            None => Seq::empty(),
            Some(e) => seq![(e.0, e.1)] + image_files(d, e.2, (count - 1) as nat),
        }
    }
}

/// The table after adding each file, in order, with [`insert_path`].
pub open spec fn load_files(ev: Seq<EntryView>, files: Seq<(Seq<char>, Seq<u8>)>) -> Seq<EntryView>
    decreases files.len(),
{
    if files.len() == 0 {
        ev
    } else {
        insert_path(load_files(ev, files.drop_last()), 0, components(files.last().0, false), files.last().1)
    }
}

/// The entry at `off`: its name, and where its data starts and ends (the
/// end is where the next entry starts).
fn next_image_entry(data: &[u8], off: usize) -> (r: Option<(&str, usize, usize)>)
    requires
        off <= data@.len(),
    ensures
        r is None <==> image_entry(data@, off as int) is None,
        r matches Some((name, start, end)) ==> {
            let e = image_entry(data@, off as int)->0;
            &&& name@ == e.0
            &&& off + 6 <= start <= end <= data@.len()
            &&& data@.subrange(start as int, end as int) == e.1
            &&& end == e.2
            &&& start - 4 - (off + 2) == le16(data@, off as int)
            &&& valid_utf8(data@.subrange(off + 2, start - 4))
            &&& name@ == decode_utf8(data@.subrange(off + 2, start - 4))
        },
{
    if data.len() - off < 2 {
        return None;
    }
    let name_len = data[off] as usize + data[off + 1] as usize * 256;
    let o1 = off + 2;
    if data.len() - o1 < name_len {
        return None;
    }
    let o2 = o1 + name_len;
    let name = match utf8_str(&data[o1..o2]) {
        Some(s) => s,
        None => return None,
    };
    if data.len() - o2 < 4 {
        return None;
    }
    let data_len = read_le32(data, o2) as usize;
    let o3 = o2 + 4;
    if data.len() - o3 < data_len {
        return None;
    }
    Some((name, o3, o3 + data_len))
}

/// Adding a path adds at most one entry per component.
proof fn lemma_insert_path_len(ev: Seq<EntryView>, parent: InodeNum, comps: Seq<Seq<char>>, data: Seq<u8>)
    ensures
        insert_path(ev, parent, comps, data).len() <= ev.len() + comps.len(),
    decreases comps.len(),
{
    if comps.len() > 1 {
        match child_named(ev, parent, comps[0]) {
            Some(c) => lemma_insert_path_len(ev, c, comps.skip(1), data),
            None => lemma_insert_path_len(
                with_entry(ev, parent, new_entry(comps[0], ev.len() as InodeNum, FileType::Directory, Seq::empty())),
                ev.len() as InodeNum, comps.skip(1), data),
        }
    }
}

/// A path has at most as many components as characters (one more when a
/// piece is already under way).
proof fn lemma_comps_len(s: Seq<char>, acc: Seq<char>, skip_dot: bool)
    ensures
        comps_acc(s, acc, skip_dot).len() <= s.len() + (if acc.len() > 0 { 1int } else { 0int }),
    decreases s.len(),
{
    if s.len() > 0 {
        if s[0] == '/' {
            lemma_comps_len(s.skip(1), Seq::empty(), skip_dot);
        } else {
            lemma_comps_len(s.skip(1), acc.push(s[0]), skip_dot);
        }
    }
}

/// Follow `comps` from entry `cur` the way repeated [`Initramfs::lookup`]
/// calls do.
pub open spec fn resolve(ev: Seq<EntryView>, cur: InodeNum, comps: Seq<Seq<char>>) -> VfsResult<InodeNum>
    decreases comps.len(),
{
    if comps.len() == 0 {
        Ok(cur)
    } else if ev[cur as int].file_type != FileType::Directory {
        Err(VfsError::NotADirectory)
    } else {
        match child_named(ev, cur, comps[0]) {
            None => Err(VfsError::NotFound),
            Some(c) => resolve(ev, c, comps.skip(1)),
        }
    }
}

/// Adding a file at `comps` below `cur` leaves it reachable: every
/// existing entry met on the way is a directory and the last name is not
/// taken yet.
pub open spec fn path_clear(ev: Seq<EntryView>, cur: InodeNum, comps: Seq<Seq<char>>) -> bool
    decreases comps.len(),
{
    if comps.len() == 0 {
        true
    } else if comps.len() == 1 {
        child_named(ev, cur, comps[0]) is None
    } else {
        match child_named(ev, cur, comps[0]) {
            Some(c) => ev[c as int].file_type == FileType::Directory && path_clear(ev, c, comps.skip(1)),
            None => true,
        }
    }
}

/// `ev2` only adds to `ev`: more entries, and the old ones keep their
/// name, type and data, with children only appended.
pub open spec fn extends(ev: Seq<EntryView>, ev2: Seq<EntryView>) -> bool {
    &&& ev.len() <= ev2.len()
    &&& forall|i: int| 0 <= i < ev.len() ==> {
        &&& (#[trigger] ev2[i]).name == ev[i].name
        &&& ev2[i].file_type == ev[i].file_type
        &&& ev2[i].data == ev[i].data
        &&& ev[i].children.len() <= ev2[i].children.len()
        &&& ev2[i].children.subrange(0, ev[i].children.len() as int) == ev[i].children
    }
}

/// Adding an entry keeps the table's invariant and only adds.
proof fn lemma_with_entry(ev: Seq<EntryView>, parent: InodeNum, e: EntryView)
    requires
        table_wf(ev),
        ev.len() + 1 < u64::MAX,
        e.ino == ev.len(),
        e.children.len() == 0,
    ensures
        table_wf(with_entry(ev, parent, e)),
        extends(ev, with_entry(ev, parent, e)),
        with_entry(ev, parent, e).len() == ev.len() + 1,
{
    let ev2 = with_entry(ev, parent, e);
    assert(ev2[0].file_type == FileType::Directory);
    assert forall|i: int| 0 <= i < ev2.len() implies (#[trigger] ev2[i]).ino == i by {
        if i < ev.len() {
            assert(ev2[i].ino == ev[i].ino);
        }
    }
    assert forall|i: int, k: int| 0 <= i < ev2.len() && 0 <= k < ev2[i].children.len() implies
        #[trigger] ev2[i].children[k] < ev2.len() by {
        if i < ev.len() && k < ev[i].children.len() {
            assert(ev2[i].children[k] == ev[i].children[k]);
        }
    }
    assert forall|i: int| 0 <= i < ev.len() implies
        (#[trigger] ev2[i]).children.subrange(0, ev[i].children.len() as int) == ev[i].children by {
        assert(ev2[i].children.subrange(0, ev[i].children.len() as int) =~= ev[i].children);
    }
}

/// Adding to a table that only added to another only adds to that one.
proof fn lemma_extends_trans(a: Seq<EntryView>, b: Seq<EntryView>, c: Seq<EntryView>)
    requires
        extends(a, b),
        extends(b, c),
    ensures
        extends(a, c),
{
    assert forall|i: int| 0 <= i < a.len() implies {
        &&& (#[trigger] c[i]).name == a[i].name
        &&& c[i].file_type == a[i].file_type
        &&& c[i].data == a[i].data
        &&& a[i].children.len() <= c[i].children.len()
        &&& c[i].children.subrange(0, a[i].children.len() as int) == a[i].children
    } by {
        assert(b[i].name == a[i].name);
        assert(c[i].children.subrange(0, a[i].children.len() as int)
            =~= c[i].children.subrange(0, b[i].children.len() as int).subrange(0, a[i].children.len() as int));
    }
}

/// Adding a path keeps the table's invariant and only adds.
proof fn lemma_insert_path_extends(ev: Seq<EntryView>, parent: InodeNum, comps: Seq<Seq<char>>, data: Seq<u8>)
    requires
        table_wf(ev),
        ev.len() + comps.len() < u64::MAX,
    ensures
        table_wf(insert_path(ev, parent, comps, data)),
        extends(ev, insert_path(ev, parent, comps, data)),
    decreases comps.len(),
{
    if comps.len() == 0 {
        assert forall|i: int| 0 <= i < ev.len() implies
            (#[trigger] ev[i]).children.subrange(0, ev[i].children.len() as int) == ev[i].children by {
            assert(ev[i].children.subrange(0, ev[i].children.len() as int) =~= ev[i].children);
        }
    } else if comps.len() == 1 {
        lemma_with_entry(ev, parent, new_entry(comps[0], ev.len() as InodeNum, FileType::Regular, data));
    } else if comps.len() > 1 {
        match child_named(ev, parent, comps[0]) {
            Some(c) => lemma_insert_path_extends(ev, c, comps.skip(1), data),
            None => {
                let ev1 = with_entry(ev, parent, new_entry(comps[0], ev.len() as InodeNum, FileType::Directory, Seq::empty()));
                lemma_with_entry(ev, parent, new_entry(comps[0], ev.len() as InodeNum, FileType::Directory, Seq::empty()));
                lemma_insert_path_extends(ev1, ev.len() as InodeNum, comps.skip(1), data);
                lemma_extends_trans(ev, ev1, insert_path(ev1, ev.len() as InodeNum, comps.skip(1), data));
            }
        }
    }
}

/// Looking a name up among the same children gives the same answer in a
/// table whose entries there have the same names.
proof fn lemma_first_same_names(ev: Seq<EntryView>, ev2: Seq<EntryView>, kids: Seq<InodeNum>, name: Seq<char>)
    requires
        extends(ev, ev2),
        forall|k: int| 0 <= k < kids.len() ==> (#[trigger] kids[k] as int) < ev.len(),
    ensures
        first_child_named(ev2, kids, name) == first_child_named(ev, kids, name),
    decreases kids.len(),
{
    if kids.len() > 0 {
        assert(kids.last() == kids[kids.len() - 1]);
        lemma_first_same_names(ev, ev2, kids.drop_last(), name);
    }
}

/// A name found among a directory's children is still found, the same,
/// once entries and children are added.
proof fn lemma_child_named_stable(ev: Seq<EntryView>, ev2: Seq<EntryView>, cur: InodeNum, name: Seq<char>)
    requires
        table_wf(ev),
        extends(ev, ev2),
        (cur as int) < ev.len(),
        child_named(ev, cur, name) is Some,
    ensures
        child_named(ev2, cur, name) == child_named(ev, cur, name),
{
    let kids = ev[cur as int].children;
    let kids2 = ev2[cur as int].children;
    assert(kids2.take(kids.len() as int) =~= kids);
    lemma_first_same_names(ev, ev2, kids, name);
    lemma_first_prefix(ev2, kids2, kids.len() as int, name);
}

/// A file added at a clear path is found again by following that path,
/// and holds the data it was added with.
pub proof fn lemma_add_path_then_resolve(ev: Seq<EntryView>, cur: InodeNum, comps: Seq<Seq<char>>, data: Seq<u8>)
    requires
        table_wf(ev),
        (cur as int) < ev.len(),
        ev[cur as int].file_type == FileType::Directory,
        comps.len() > 0,
        ev.len() + comps.len() < u64::MAX,
        path_clear(ev, cur, comps),
    ensures
        resolve(insert_path(ev, cur, comps, data), cur, comps) is Ok,
        ({
            let ev2 = insert_path(ev, cur, comps, data);
            let f = resolve(ev2, cur, comps)->Ok_0;
            &&& (f as int) < ev2.len()
            &&& ev2[f as int].file_type == FileType::Regular
            &&& ev2[f as int].data == data
        }),
    decreases comps.len(),
{
    let n = ev.len() as InodeNum;
    let ev2 = insert_path(ev, cur, comps, data);
    lemma_insert_path_extends(ev, cur, comps, data);
    if comps.len() == 1 {
        let kids = ev[cur as int].children;
        let kids2 = ev2[cur as int].children;
        assert(kids2 =~= kids.push(n));
        assert(kids2.drop_last() =~= kids);
        lemma_first_same_names(ev, ev2, kids, comps[0]);
        assert(child_named(ev2, cur, comps[0]) == Some(n));
        assert(comps.skip(1).len() == 0);
        assert(ev2[cur as int].file_type == FileType::Directory);
        assert(resolve(ev2, n, comps.skip(1)) == Ok::<InodeNum, VfsError>(n));
        assert(resolve(ev2, cur, comps) == Ok::<InodeNum, VfsError>(n));
        assert(ev2[n as int].data == data);
    } else {
        match child_named(ev, cur, comps[0]) {
            Some(c) => {
                lemma_first_child_in_table(ev, ev[cur as int].children, comps[0]);
                lemma_child_named_stable(ev, ev2, cur, comps[0]);
                lemma_add_path_then_resolve(ev, c, comps.skip(1), data);
                assert(ev2 == insert_path(ev, c, comps.skip(1), data));
                assert(ev2[cur as int].file_type == FileType::Directory);
                assert(resolve(ev2, cur, comps) == resolve(ev2, c, comps.skip(1)));
            }
            None => {
                let e = new_entry(comps[0], n, FileType::Directory, Seq::empty());
                let ev1 = with_entry(ev, cur, e);
                lemma_with_entry(ev, cur, e);
                let kids = ev[cur as int].children;
                assert(ev1[cur as int].children =~= kids.push(n));
                assert(ev1[cur as int].children.drop_last() =~= kids);
                lemma_first_same_names(ev, ev1, kids, comps[0]);
                assert(child_named(ev1, cur, comps[0]) == Some(n));
                assert(ev1[n as int].children.len() == 0);
                assert(child_named(ev1, n, comps.skip(1)[0]) is None);
                assert(path_clear(ev1, n, comps.skip(1)));
                lemma_insert_path_extends(ev1, n, comps.skip(1), data);
                lemma_child_named_stable(ev1, ev2, cur, comps[0]);
                lemma_add_path_then_resolve(ev1, n, comps.skip(1), data);
                assert(ev2 == insert_path(ev1, n, comps.skip(1), data));
                assert(ev2[cur as int].file_type == FileType::Directory);
                assert(resolve(ev2, cur, comps) == resolve(ev2, n, comps.skip(1)));
            }
        }
    }
}

/// A child found by name is an entry of the table.
proof fn lemma_first_child_in_table(ev: Seq<EntryView>, kids: Seq<InodeNum>, name: Seq<char>)
    ensures
        first_child_named(ev, kids, name) matches Some(c) ==> (c as int) < ev.len(),
    decreases kids.len(),
{
    if kids.len() > 0 {
        lemma_first_child_in_table(ev, kids.drop_last(), name);
    }
}

/// Once a prefix of the children has a match, the whole list has the same.
proof fn lemma_first_prefix(ev: Seq<EntryView>, kids: Seq<InodeNum>, j: int, name: Seq<char>)
    requires
        0 <= j <= kids.len(),
        first_child_named(ev, kids.take(j), name) is Some,
    ensures
        first_child_named(ev, kids, name) == first_child_named(ev, kids.take(j), name),
    decreases kids.len() - j,
{
    if j == kids.len() {
        assert(kids.take(j) =~= kids);
    } else {
        assert(kids.take(j + 1).drop_last() =~= kids.take(j));
        lemma_first_prefix(ev, kids, j + 1, name);
    }
}

} // verus!
