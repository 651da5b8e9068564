//! The decisions of the `rpkg` command: where an installed package's
//! records go, the index of the files it owns, and the package names a
//! directory listing of the database shows.

use vstd::prelude::*;
use crate::encoding::utf8_str;
use crate::pkg::rpkg::{
    manifest_summary, opt_view, parse_header, parse_header_result, scan_lines, section, section_result, split_nl,
    SectionKind,
};
use vstd::utf8::{decode_utf8, valid_utf8, encode_utf8};

verus! {

/// The largest `.rpk` file `rpkg install` reads.
pub const MAX_RPK_BYTES: usize = 65536;

/// The directory under which each installed package keeps its records.
pub fn info_root() -> (r: &'static str)
    ensures
        r@ == seq!['/', 'v', 'a', 'r', '/', 'l', 'i', 'b', '/', 'r', 'p', 'k', 'g', '/', 'i', 'n', 'f', 'o'],
{
    proof { reveal_strlit("/var/lib/rpkg/info"); }
    "/var/lib/rpkg/info"
}

/// `base`, less one trailing `/`, then `/`, then `tail`, less one leading
/// `/`.
pub open spec fn joined_path(base: Seq<u8>, tail: Seq<u8>) -> Seq<u8> {
    let b = if base.len() > 0 && base.last() == 47u8 { base.drop_last() } else { base };
    let t = if tail.len() > 0 && tail[0] == 47u8 { tail.skip(1) } else { tail };
    b.push(47u8) + t
}

/// Append `src` to `out`.
fn extend_bytes(out: &mut Vec<u8>, src: &[u8])
    ensures
        final(out)@ == old(out)@ + src@,
{
    let mut i: usize = 0;
    while i < src.len()
        invariant
            i <= src@.len(),
            out@ == old(out)@ + src@.take(i as int),
        decreases src@.len() - i,
    {
        out.push(src[i]);
        assert(src@.take(i + 1) =~= src@.take(i as int).push(src@[i as int]));
        i = i + 1;
    }
    assert(src@.take(src@.len() as int) =~= src@);
}

/// Join two path fragments with a single `/` (see [`joined_path`]).
pub fn join_path(base: &[u8], tail: &[u8]) -> (r: Vec<u8>)
    ensures
        r@ == joined_path(base@, tail@),
{
    let mut out: Vec<u8> = Vec::new();
    let blen = if base.len() > 0 && base[base.len() - 1] == 47u8 { base.len() - 1 } else { base.len() };
    let b = vstd::slice::slice_subrange(base, 0, blen);
    extend_bytes(&mut out, b);
    out.push(47u8);
    let tstart: usize = if tail.len() > 0 && tail[0] == 47u8 { 1 } else { 0 };
    let t = vstd::slice::slice_subrange(tail, tstart, tail.len());
    extend_bytes(&mut out, t);
    proof {
        assert(base@.subrange(0, base@.len() as int) =~= base@);
        assert(base@.len() > 0 ==> base@.subrange(0, base@.len() - 1) =~= base@.drop_last());
        assert(tail@.subrange(0, tail@.len() as int) =~= tail@);
        assert(tail@.subrange(1, tail@.len() as int) =~= tail@.skip(1));
    }
    out
}

/// A path with a NUL byte at its end (none added when it already ends in
/// one), as the system calls take it.
pub fn with_nul(path: &[u8]) -> (r: Vec<u8>)
    ensures
        r@ == if path@.len() > 0 && path@.last() == 0u8 { path@ } else { path@.push(0u8) },
{
    let mut out: Vec<u8> = Vec::new();
    extend_bytes(&mut out, path);
    if !(path.len() > 0 && path[path.len() - 1] == 0u8) {
        out.push(0u8);
    }
    out
}

/// The bytes as text: their UTF-8 decoding, or the empty string when they
/// are not UTF-8.
pub fn bytes_to_string(b: &[u8]) -> (r: String)
    ensures
        r@ == if valid_utf8(b@) { decode_utf8(b@) } else { Seq::empty() },
{
    match utf8_str(b) {
        Some(s) => String::from_str(s),
        None => String::new(),
    }
}

/// The files index: each path followed by a newline.
pub open spec fn files_text(files: Seq<Seq<char>>) -> Seq<char>
    decreases files.len(),
{
    if files.len() == 0 {
        Seq::empty()
    } else {
        files_text(files.drop_last()) + files.last().push('\n')
    }
}

/// The lines of `lines` that are not empty, in order.
pub open spec fn nonempty(lines: Seq<Seq<char>>) -> Seq<Seq<char>>
    decreases lines.len(),
{
    if lines.len() == 0 {
        Seq::empty()
    } else if lines.last().len() == 0 {
        nonempty(lines.drop_last())
    } else {
        nonempty(lines.drop_last()).push(lines.last())
    }
}

/// The paths a files index lists: its non-empty lines.
pub open spec fn listed_files(text: Seq<char>) -> Seq<Seq<char>> {
    nonempty(split_nl(text))
}

/// The characters of each string.
pub open spec fn strings_view(v: Seq<String>) -> Seq<Seq<char>> {
    v.map_values(|s: String| s@)
}

/// Write the files index of `files` (see [`files_text`]).
pub fn serialize_files_list(files: &Vec<String>) -> (r: String)
    ensures
        r@ == files_text(strings_view(files@)),
{
    let mut out = String::new();
    let mut i: usize = 0;
    while i < files.len()
        invariant
            i <= files@.len(),
            out@ == files_text(strings_view(files@.take(i as int))),
        decreases files@.len() - i,
    {
        out.append(files[i].as_str());
        out.append("\n");
        proof {
            reveal_strlit("\n");
            let t = strings_view(files@.take(i + 1));
            assert(t.drop_last() =~= strings_view(files@.take(i as int)));
            assert(t.last() == files@[i as int]@);
        }
        i = i + 1;
    }
    assert(files@.take(files@.len() as int) =~= files@);
    out
}

/// Read a files index: its non-empty lines (see [`listed_files`]).
pub fn parse_files_list(text: &str) -> (r: Vec<String>)
    ensures
        strings_view(r@) == listed_files(text@),
{
    let mut out: Vec<String> = Vec::new();
    let n = text.unicode_len();
    let mut start: usize = 0;
    let mut i: usize = 0;
    let ghost mut done: Seq<Seq<char>> = Seq::empty();
    assert(text@.take(0) =~= Seq::<char>::empty());
    assert(split_nl(text@.take(0)) =~= done.push(text@.subrange(0, 0)));
    while i < n
        invariant
            n == text@.len(),
            start <= i <= n,
            split_nl(text@.take(i as int)) == done.push(text@.subrange(start as int, i as int)),
            strings_view(out@) == nonempty(done),
        decreases n - i,
    {
        let c = text.get_char(i);
        let ghost p = split_nl(text@.take(i as int));
        assert(text@.take(i + 1).drop_last() =~= text@.take(i as int));
        assert(text@.take(i + 1).last() == c);
        if c == '\n' {
            let ghost d2 = done.push(text@.subrange(start as int, i as int));
            assert(d2.drop_last() =~= done);
            if start < i {
                out.push(String::from_str(text.substring_char(start, i)));
                assert(strings_view(out@) =~= nonempty(done).push(text@.subrange(start as int, i as int)));
            }
            proof {
                done = d2;
                assert(text@.subrange(i + 1, i + 1) =~= Seq::<char>::empty());
            }
            start = i + 1;
        } else {
            assert(text@.subrange(start as int, i + 1) =~= text@.subrange(start as int, i as int).push(c));
            assert(p.update(p.len() - 1, p.last().push(c)) =~= done.push(text@.subrange(start as int, i + 1)));
        }
        i = i + 1;
    }
    let ghost d2 = done.push(text@.subrange(start as int, n as int));
    assert(d2.drop_last() =~= done);
    assert(text@.take(n as int) =~= text@);
    if start < n {
        out.push(String::from_str(text.substring_char(start, n)));
        assert(strings_view(out@) =~= nonempty(done).push(text@.subrange(start as int, n as int)));
    }
    out
}

/// Characters after which no newline occurs.
pub open spec fn no_newline(s: Seq<char>) -> bool {
    forall|i: int| 0 <= i < s.len() ==> s[i] != '\n'
}

/// Splitting `s + l` at newlines, for `l` without one, extends the last
/// piece of `s` by `l`.
proof fn lemma_split_nl_append(s: Seq<char>, l: Seq<char>)
    requires
        no_newline(l),
    ensures
        split_nl(s + l) == split_nl(s).update(split_nl(s).len() - 1, split_nl(s).last() + l),
        split_nl(s).len() >= 1,
    decreases l.len(),
{
    lemma_split_nl_len(s);
    if l.len() == 0 {
        assert(s + l =~= s);
        assert(split_nl(s).last() + l =~= split_nl(s).last());
        assert(split_nl(s).update(split_nl(s).len() - 1, split_nl(s).last()) =~= split_nl(s));
    } else {
        let l0 = l.drop_last();
        lemma_split_nl_append(s, l0);
        assert((s + l).drop_last() =~= s + l0);
        assert((s + l).last() == l.last());
        assert(split_nl(s).last() + l0 + seq![l.last()] =~= split_nl(s).last() + l);
        assert((split_nl(s).last() + l0).push(l.last()) =~= split_nl(s).last() + l);
        assert(split_nl(s + l) =~= split_nl(s).update(split_nl(s).len() - 1, split_nl(s).last() + l));
    }
}

/// Splitting gives at least one piece.
proof fn lemma_split_nl_len(s: Seq<char>)
    ensures
        split_nl(s).len() >= 1,
    decreases s.len(),
{
    if s.len() > 0 {
        lemma_split_nl_len(s.drop_last());
    }
}

/// The index of `files` splits into the files, then an empty piece.
proof fn lemma_split_files_text(files: Seq<Seq<char>>)
    requires
        forall|i: int| 0 <= i < files.len() ==> no_newline(#[trigger] files[i]),
    ensures
        split_nl(files_text(files)) == files.push(Seq::empty()),
    decreases files.len(),
{
    if files.len() == 0 {
        assert(files_text(files) =~= Seq::<char>::empty());
        assert(split_nl(Seq::<char>::empty()) =~= files.push(Seq::empty()));
    } else {
        let init = files.drop_last();
        let l = files.last();
        assert forall|i: int| 0 <= i < init.len() implies no_newline(#[trigger] init[i]) by {
            assert(init[i] == files[i]);
        }
        assert(no_newline(files[files.len() - 1]));
        lemma_split_files_text(init);
        let s = files_text(init);
        lemma_split_nl_append(s, l);
        let t = files_text(files);
        assert(t =~= (s + l).push('\n'));
        assert(t.drop_last() =~= s + l);
        assert(split_nl(s + l) =~= init.push(l));
        assert(init.push(l) =~= files);
        assert(split_nl(t) =~= files.push(Seq::empty()));
    }
}

/// Dropping the empty lines of lines that are all non-empty keeps them.
proof fn lemma_nonempty_all(lines: Seq<Seq<char>>)
    requires
        forall|i: int| 0 <= i < lines.len() ==> (#[trigger] lines[i]).len() > 0,
    ensures
        nonempty(lines) == lines,
    decreases lines.len(),
{
    if lines.len() > 0 {
        let init = lines.drop_last();
        assert forall|i: int| 0 <= i < init.len() implies (#[trigger] init[i]).len() > 0 by {
            assert(init[i] == lines[i]);
        }
        lemma_nonempty_all(init);
        assert(lines[lines.len() - 1].len() > 0);
        assert(init.push(lines.last()) =~= lines);
    }
}

/// Reading back a written files index gives the paths written, when none
/// is empty or holds a newline.
pub proof fn lemma_files_list_round_trip(files: Seq<Seq<char>>)
    requires
        forall|i: int| 0 <= i < files.len() ==> (#[trigger] files[i]).len() > 0 && no_newline(files[i]),
    ensures
        listed_files(files_text(files)) == files,
{
    assert forall|i: int| 0 <= i < files.len() implies no_newline(#[trigger] files[i]) by {}
    lemma_split_files_text(files);
    let withe = files.push(Seq::<char>::empty());
    assert(withe.drop_last() =~= files);
    assert(withe.last().len() == 0);
    assert forall|i: int| 0 <= i < files.len() implies (#[trigger] files[i]).len() > 0 by {}
    lemma_nonempty_all(files);
}

/// The names a directory listing of `getdents` records in `b[off..n]`
/// shows (each record: an 8-byte inode number, a type byte, a name-length
/// byte, then the name), without `.`, `..` and empty names; the listing
/// stops at a record that does not fit.
pub open spec fn dirent_names(b: Seq<u8>, off: int, n: int) -> Seq<Seq<u8>>
    decreases n - off,
{
    if off < 0 || off + 10 > n {
        Seq::empty()
    } else {
        let len = b[off + 9] as int;
        if off + 10 + len > n {
            Seq::empty()
        } else {
            let name = b.subrange(off + 10, off + 10 + len);
            let rest = dirent_names(b, off + 10 + len, n);
            if name.len() == 0 || name == seq![46u8] || name == seq![46u8, 46u8] {
                rest
            } else {
                seq![name] + rest
            }
        }
    }
}

/// The contents of a list of byte vectors.
pub open spec fn bytes_view(v: Seq<Vec<u8>>) -> Seq<Seq<u8>> {
    v.map_values(|x: Vec<u8>| x@)
}

/// The package names in the first `n` bytes of a `getdents` listing of
/// the database (see [`dirent_names`]).
pub fn listed_packages(buf: &[u8], n: usize) -> (r: Vec<Vec<u8>>)
    requires
        n <= buf@.len(),
    ensures
        bytes_view(r@) == dirent_names(buf@, 0, n as int),
{
    let mut out: Vec<Vec<u8>> = Vec::new();
    let mut off: usize = 0;
    while n - off >= 10
        invariant
            n <= buf@.len(),
            off <= n,
            bytes_view(out@) + dirent_names(buf@, off as int, n as int) == dirent_names(buf@, 0, n as int),
        decreases n - off,
    {
        let name_len = buf[off + 9] as usize;
        let entry_size = 10 + name_len;
        if entry_size > n - off {
            assert(bytes_view(out@) + Seq::<Seq<u8>>::empty() =~= bytes_view(out@));
            return out;
        }
        let name = vstd::slice::slice_subrange(buf, off + 10, off + 10 + name_len);
        let ghost rest = dirent_names(buf@, (off + entry_size) as int, n as int);
        let dot = name_len == 1 && name[0] == 46u8;
        let dotdot = name_len == 2 && name[0] == 46u8 && name[1] == 46u8;
        proof {
            if name@ == seq![46u8] { assert(name@[0] == 46u8); }
            if name@ == seq![46u8, 46u8] { assert(name@[0] == 46u8 && name@[1] == 46u8); }
            if dot { assert(name@ =~= seq![46u8]); }
            if dotdot { assert(name@ =~= seq![46u8, 46u8]); }
        }
        if !dot && !dotdot && name_len > 0 {
            let mut v: Vec<u8> = Vec::new();
            extend_bytes(&mut v, name);
            let ghost before = bytes_view(out@);
            out.push(v);
            assert(bytes_view(out@) =~= before.push(name@));
            assert(before.push(name@) + rest =~= before + (seq![name@] + rest));
        }
        off = off + entry_size;
    }
    assert(bytes_view(out@) + Seq::<Seq<u8>>::empty() =~= bytes_view(out@));
    out
}

/// Why `rpkg install` refuses a package file.
#[derive(Debug, Clone, Copy, PartialEq, Eq, Structural)]
pub enum InstallError {
    InvalidHeader,
    MissingManifest,
    MissingData,
    MalformedManifest,
    MissingName,
}

/// What installing one package writes: its name, the manifest and data
/// sections of the package file, the record directory and the paths of
/// the three records in it, and the files index.
pub struct InstallFiles<'a> {
    pub name: String,
    pub manifest: &'a [u8],
    pub data: &'a [u8],
    pub info_dir: Vec<u8>,
    pub manifest_path: Vec<u8>,
    pub data_path: Vec<u8>,
    pub files_path: Vec<u8>,
    pub files_index: String,
}

/// The record directory of package `name` under [`info_root`].
pub open spec fn info_dir_path(name: Seq<u8>) -> Seq<u8> {
    joined_path(encode_utf8(seq!['/', 'v', 'a', 'r', '/', 'l', 'i', 'b', '/', 'r', 'p', 'k', 'g', '/', 'i', 'n', 'f', 'o']), name)
}

/// Record leaf names.
pub open spec fn manifest_leaf() -> Seq<u8> {
    encode_utf8(seq!['m', 'a', 'n', 'i', 'f', 'e', 's', 't', '.', 't', 'o', 'm', 'l'])
}

pub open spec fn data_leaf() -> Seq<u8> {
    encode_utf8(seq!['d', 'a', 't', 'a'])
}

pub open spec fn files_leaf() -> Seq<u8> {
    encode_utf8(seq!['f', 'i', 'l', 'e', 's'])
}

/// Bytes as text, empty when they are not UTF-8.
pub open spec fn text_of(b: Seq<u8>) -> Seq<char> {
    if valid_utf8(b) { decode_utf8(b) } else { Seq::empty() }
}

/// Work out what installing the package file `bytes` writes: its header
/// must parse, it must have a manifest and a data section, the manifest
/// must be UTF-8 and name the package (a non-empty `name` in
/// `[package]`); each failure has its error, in that order. The files
/// index lists the manifest and data records.
pub fn plan_package_install<'a>(bytes: &'a [u8]) -> (r: Result<InstallFiles<'a>, InstallError>)
    ensures
        match parse_header_result(bytes@) {
            Err(_) => r matches Err(InstallError::InvalidHeader),
            Ok(h) => match section_result(bytes@, h, SectionKind::Manifest) {
                Err(_) => r matches Err(InstallError::MissingManifest),
                Ok(m) => match section_result(bytes@, h, SectionKind::Data) {
                    Err(_) => r matches Err(InstallError::MissingData),
                    Ok(dd) => if !valid_utf8(m) {
                        r matches Err(InstallError::MalformedManifest)
                    } else {
                        match scan_lines(split_nl(decode_utf8(m))).name {
                            None => r matches Err(InstallError::MissingName),
                            Some(nm) => if nm.len() == 0 {
                                r matches Err(InstallError::MissingName)
                            } else {
                                r matches Ok(f) && {
                                    &&& f.name@ == nm
                                    &&& f.manifest@ == m
                                    &&& f.data@ == dd
                                    &&& f.info_dir@ == info_dir_path(encode_utf8(nm))
                                    &&& f.manifest_path@ == joined_path(f.info_dir@, manifest_leaf())
                                    &&& f.data_path@ == joined_path(f.info_dir@, data_leaf())
                                    &&& f.files_path@ == joined_path(f.info_dir@, files_leaf())
                                    &&& f.files_index@ == files_text(seq![text_of(f.manifest_path@), text_of(f.data_path@)])
                                }
                            },
                        }
                    },
                },
            },
        },
{
    let header = match parse_header(bytes) {
        Ok(h) => h,
        Err(_) => return Err(InstallError::InvalidHeader),
    };
    let manifest = match section(bytes, &header, SectionKind::Manifest) {
        Ok(s) => s,
        Err(_) => return Err(InstallError::MissingManifest),
    };
    let data = match section(bytes, &header, SectionKind::Data) {
        Ok(s) => s,
        Err(_) => return Err(InstallError::MissingData),
    };
    let summary = match manifest_summary(manifest) {
        Ok(s) => s,
        Err(_) => return Err(InstallError::MalformedManifest),
    };
    let name = match summary.name {
        Some(n) => n,
        None => return Err(InstallError::MissingName),
    };
    if name.as_str().unicode_len() == 0 {
        return Err(InstallError::MissingName);
    }
    let info_dir = join_path(info_root().as_bytes(), name.as_str().as_bytes());
    proof {
        reveal_strlit("manifest.toml");
        reveal_strlit("data");
        reveal_strlit("files");
        assert("manifest.toml"@ =~= seq!['m', 'a', 'n', 'i', 'f', 'e', 's', 't', '.', 't', 'o', 'm', 'l']);
        assert("data"@ =~= seq!['d', 'a', 't', 'a']);
        assert("files"@ =~= seq!['f', 'i', 'l', 'e', 's']);
    }
    let manifest_path = join_path(&info_dir, "manifest.toml".as_bytes());
    let data_path = join_path(&info_dir, "data".as_bytes());
    let files_path = join_path(&info_dir, "files".as_bytes());
    let mut files: Vec<String> = Vec::new();
    files.push(bytes_to_string(&manifest_path));
    files.push(bytes_to_string(&data_path));
    let files_index = serialize_files_list(&files);
    proof {
        let fv = strings_view(files@);
        assert(fv =~= seq![text_of(manifest_path@), text_of(data_path@)]);
    }
    Ok(InstallFiles { name, manifest, data, info_dir, manifest_path, data_path, files_path, files_index })
}

/// The records `rpkg remove` deletes for package `name`: its record
/// directory and, in it, the files index, the manifest and the data.
pub struct RemovalPaths {
    pub info_dir: Vec<u8>,
    pub files_path: Vec<u8>,
    pub manifest_path: Vec<u8>,
    pub data_path: Vec<u8>,
}

/// Where the records of package `name` are (see [`info_dir_path`]).
pub fn removal_paths(name: &[u8]) -> (r: RemovalPaths)
    ensures
        r.info_dir@ == info_dir_path(name@),
        r.files_path@ == joined_path(r.info_dir@, files_leaf()),
        r.manifest_path@ == joined_path(r.info_dir@, manifest_leaf()),
        r.data_path@ == joined_path(r.info_dir@, data_leaf()),
{
    let info_dir = join_path(info_root().as_bytes(), name);
    proof {
        reveal_strlit("manifest.toml");
        reveal_strlit("data");
        reveal_strlit("files");
        assert("manifest.toml"@ =~= seq!['m', 'a', 'n', 'i', 'f', 'e', 's', 't', '.', 't', 'o', 'm', 'l']);
        assert("data"@ =~= seq!['d', 'a', 't', 'a']);
        assert("files"@ =~= seq!['f', 'i', 'l', 'e', 's']);
    }
    let files_path = join_path(&info_dir, "files".as_bytes());
    let manifest_path = join_path(&info_dir, "manifest.toml".as_bytes());
    let data_path = join_path(&info_dir, "data".as_bytes());
    RemovalPaths { info_dir, files_path, manifest_path, data_path }
}

} // verus!
