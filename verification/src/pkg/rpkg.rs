//! rpkg: the `.rpk` package format (header, sections, manifest summary)
//! and install planning for a single package file.

use vstd::prelude::*;
use crate::encoding::{
    find_char, find_char_spec, le32, le64, read_le32, read_le64, str_eq, trim, trim_char, trim_end_char,
    trim_end_from, trim_start_char, trim_str, utf8_str,
};
use vstd::utf8::{decode_utf8, valid_utf8};

verus! {

/// The magic bytes that open an `.rpk` file: "RPK" and format byte 1.
pub const RPK_MAGIC: [u8; 4] = [82u8, 80u8, 75u8, 1u8];

/// The fixed header of an `.rpk` file.
#[derive(Debug, Clone, Copy, PartialEq, Eq, Structural)]
pub struct PackageHeader {
    pub format_version: u32,
    pub manifest_offset: u64,
    pub manifest_size: u64,
    pub signature_offset: u64,
    pub signature_size: u64,
    pub data_offset: u64,
    pub data_size: u64,
}

/// The sections of an `.rpk` file.
#[derive(Debug, Clone, Copy, PartialEq, Eq, Structural)]
pub enum SectionKind {
    Manifest,
    Signature,
    Data,
}

/// The `[package]` fields of a manifest.
#[derive(Debug, Clone, PartialEq, Eq)]
pub struct ManifestSummary {
    pub name: Option<String>,
    pub version: Option<String>,
    pub arch: Option<String>,
}

/// What installing one package file amounts to.
#[derive(Debug, Clone, PartialEq, Eq)]
pub struct InstallPlan {
    pub package_name: Option<String>,
    pub package_version: Option<String>,
    pub source_file: String,
    pub db_root: String,
    pub info_dir: String,
}

/// Why a package file was refused.
#[derive(Debug, Clone, Copy, PartialEq, Eq, Structural)]
pub enum Error {
    TooShort,
    InvalidMagic,
    InvalidBounds,
    InvalidUtf8,
    MissingSection,
}

/// The magic bytes, as seen by the contracts.
pub open spec fn rpk_magic() -> Seq<u8> {
    seq![82u8, 80u8, 75u8, 1u8]
}

/// The header fields as stored at the start of `d`.
pub open spec fn header_of(d: Seq<u8>) -> PackageHeader {
    PackageHeader {
        format_version: le32(d, 4) as u32,
        manifest_offset: le64(d, 8) as u64,
        manifest_size: le64(d, 16) as u64,
        signature_offset: le64(d, 24) as u64,
        signature_size: le64(d, 32) as u64,
        data_offset: le64(d, 40) as u64,
        data_size: le64(d, 48) as u64,
    }
}

/// A header is valid for a file of `file_len` bytes when its three
/// sections lie inside the file and the manifest and data are not empty.
pub open spec fn header_valid(h: PackageHeader, file_len: u64) -> bool {
    &&& h.manifest_offset + h.manifest_size <= file_len
    &&& h.signature_offset + h.signature_size <= file_len
    &&& h.data_offset + h.data_size <= file_len
    &&& h.manifest_size != 0
    &&& h.data_size != 0
}

/// What [`parse_header`] gives for the file `d`.
pub open spec fn parse_header_result(d: Seq<u8>) -> Result<PackageHeader, Error> {
    if d.len() < 56 {
        Err(Error::TooShort)
    } else if d.subrange(0, 4) != rpk_magic() {
        Err(Error::InvalidMagic)
    } else if !header_valid(header_of(d), d.len() as u64) {
        Err(Error::InvalidBounds)
    } else {
        Ok(header_of(d))
    }
}

/// What [`section`] gives: InvalidBounds when the section's end
/// overflows, MissingSection when it does not lie inside `d` (offsets
/// taken as `usize`), else its bytes.
pub open spec fn section_result(d: Seq<u8>, h: PackageHeader, kind: SectionKind) -> Result<Seq<u8>, Error> {
    let (off, size) = section_range(h, kind);
    if off + size > u64::MAX {
        Err(Error::InvalidBounds)
    } else {
        let start = off as usize;
        let end = (off + size) as u64 as usize;
        if start <= end && end <= d.len() {
            Ok(d.subrange(start as int, end as int))
        } else {
            Err(Error::MissingSection)
        }
    }
}

/// The little-endian `u32` at `off`; TooShort when it does not fit.
fn read_u32_le(buf: &[u8], off: usize) -> (r: Result<u32, Error>)
    requires
        off + 4 <= usize::MAX,
    ensures
        off + 4 > buf@.len() ==> r == Err::<u32, Error>(Error::TooShort),
        off + 4 <= buf@.len() ==> r == Ok::<u32, Error>(le32(buf@, off as int) as u32),
{
    if buf.len() < off + 4 {
        return Err(Error::TooShort);
    }
    Ok(read_le32(buf, off))
}

/// The little-endian `u64` at `off`; TooShort when it does not fit.
fn read_u64_le(buf: &[u8], off: usize) -> (r: Result<u64, Error>)
    requires
        off + 8 <= usize::MAX,
    ensures
        off + 8 > buf@.len() ==> r == Err::<u64, Error>(Error::TooShort),
        off + 8 <= buf@.len() ==> r == Ok::<u64, Error>(le64(buf@, off as int) as u64),
{
    if buf.len() < off + 8 {
        return Err(Error::TooShort);
    }
    Ok(read_le64(buf, off))
}

/// Check a header against the length of its file: InvalidBounds unless
/// [`header_valid`].
pub fn validate_header(header: &PackageHeader, file_len: u64) -> (r: Result<(), Error>)
    ensures
        header_valid(*header, file_len) ==> r == Ok::<(), Error>(()),
        !header_valid(*header, file_len) ==> r == Err::<(), Error>(Error::InvalidBounds),
{
    let mend = match header.manifest_offset.checked_add(header.manifest_size) {
        Some(e) => e,
        None => return Err(Error::InvalidBounds),
    };
    let send = match header.signature_offset.checked_add(header.signature_size) {
        Some(e) => e,
        None => return Err(Error::InvalidBounds),
    };
    let dend = match header.data_offset.checked_add(header.data_size) {
        Some(e) => e,
        None => return Err(Error::InvalidBounds),
    };
    if mend > file_len || send > file_len || dend > file_len {
        return Err(Error::InvalidBounds);
    }
    if header.manifest_size == 0 || header.data_size == 0 {
        return Err(Error::InvalidBounds);
    }
    Ok(())
}

/// Parse and check the header of an `.rpk` file: TooShort below 56 bytes,
/// InvalidMagic without the magic, InvalidBounds when the header is not
/// valid for the file.
pub fn parse_header(rpk: &[u8]) -> (r: Result<PackageHeader, Error>)
    ensures
        r == parse_header_result(rpk@),
{
    if rpk.len() < 56 {
        return Err(Error::TooShort);
    }
    let magic = RPK_MAGIC;
    let mut m: usize = 0;
    while m < 4
        invariant
            m <= 4,
            rpk@.len() >= 56,
            magic@ == rpk_magic(),
            forall|j: int| 0 <= j < m ==> rpk@[j] == #[trigger] magic@[j],
        decreases 4 - m,
    {
        if rpk[m] != magic[m] {
            proof { assert(rpk@.subrange(0, 4)[m as int] != rpk_magic()[m as int]); }
            return Err(Error::InvalidMagic);
        }
        m = m + 1;
    }
    assert(rpk@.subrange(0, 4) =~= rpk_magic());
    let header = PackageHeader {
        format_version: read_u32_le(rpk, 4)?,
        manifest_offset: read_u64_le(rpk, 8)?,
        manifest_size: read_u64_le(rpk, 16)?,
        signature_offset: read_u64_le(rpk, 24)?,
        signature_size: read_u64_le(rpk, 32)?,
        data_offset: read_u64_le(rpk, 40)?,
        data_size: read_u64_le(rpk, 48)?,
    };
    validate_header(&header, rpk.len() as u64)?;
    Ok(header)
}

/// The offset and size of a section.
pub open spec fn section_range(h: PackageHeader, kind: SectionKind) -> (u64, u64) {
    match kind {
        SectionKind::Manifest => (h.manifest_offset, h.manifest_size),
        SectionKind::Signature => (h.signature_offset, h.signature_size),
        SectionKind::Data => (h.data_offset, h.data_size),
    }
}

/// The bytes of a section: InvalidBounds when its end overflows,
/// MissingSection when it does not lie inside `rpk` (offsets taken as
/// `usize`).
pub fn section<'a>(rpk: &'a [u8], header: &PackageHeader, kind: SectionKind) -> (r: Result<&'a [u8], Error>)
    ensures
        match section_result(rpk@, *header, kind) {
            Ok(b) => r is Ok && r->Ok_0@ == b,
            Err(e) => r is Err && r->Err_0 == e,
        },
{
    let (off, size) = match kind {
        SectionKind::Manifest => (header.manifest_offset, header.manifest_size),
        SectionKind::Signature => (header.signature_offset, header.signature_size),
        SectionKind::Data => (header.data_offset, header.data_size),
    };
    let start = off as usize;
    let end = match off.checked_add(size) {
        Some(e) => e as usize,
        None => return Err(Error::InvalidBounds),
    };
    if start <= end && end <= rpk.len() {
        Ok(&rpk[start..end])
    } else {
        Err(Error::MissingSection)
    }
}

/// The pieces of `s` between newlines (what `str::lines` gives, up to a
/// trailing empty piece and carriage returns, which the manifest reader
/// trims away anyway).
pub open spec fn split_nl(s: Seq<char>) -> Seq<Seq<char>>
    decreases s.len(),
{
    if s.len() == 0 {
        seq![Seq::empty()]
    } else {
        let p = split_nl(s.drop_last());
        if s.last() == '\n' {
            p.push(Seq::empty())
        } else {
            p.update(p.len() - 1, p.last().push(s.last()))
        }
    }
}

/// What the manifest reader knows after some lines: whether it is inside
/// the `[package]` table, and the fields seen there.
pub ghost struct ManifestScan {
    pub in_package: bool,
    pub name: Option<Seq<char>>,
    pub version: Option<Seq<char>>,
    pub arch: Option<Seq<char>>,
}

/// Read one manifest line: blank lines and `#` comments are skipped; a
/// `[table]` header says whether the `[package]` table follows; inside it,
/// `key = value` sets `name`, `version` or `arch` to the value trimmed of
/// whitespace and then of double quotes (a later line wins).
pub open spec fn scan_line(st: ManifestScan, line: Seq<char>) -> ManifestScan {
    let l = trim(line);
    if l.len() == 0 || l[0] == '#' {
        st
    } else if l[0] == '[' && l.last() == ']' {
        ManifestScan { in_package: l == seq!['[', 'p', 'a', 'c', 'k', 'a', 'g', 'e', ']'], ..st }
    } else if !st.in_package {
        st
    } else {
        match find_char_spec(l, '=') {
            None => st,
            Some(i) => {
                let key = trim(l.take(i));
                let val = trim_end_char(trim_start_char(trim(l.skip(i + 1)), '"'), '"');
                if key == seq!['n', 'a', 'm', 'e'] {
                    ManifestScan { name: Some(val), ..st }
                } else if key == seq!['v', 'e', 'r', 's', 'i', 'o', 'n'] {
                    ManifestScan { version: Some(val), ..st }
                } else if key == seq!['a', 'r', 'c', 'h'] {
                    ManifestScan { arch: Some(val), ..st }
                } else {
                    st
                }
            },
        }
    }
}

/// The reader's state after all of `lines`, from outside any table.
pub open spec fn scan_lines(lines: Seq<Seq<char>>) -> ManifestScan
    decreases lines.len(),
{
    if lines.len() == 0 {
        ManifestScan { in_package: false, name: None, version: None, arch: None }
    } else {
        scan_line(scan_lines(lines.drop_last()), lines.last())
    }
}

/// The characters of an optional string.
pub open spec fn opt_view(o: Option<String>) -> Option<Seq<char>> {
    match o {
        Some(s) => Some(s@),
        None => None,
    }
}

/// The reader's state in executable form.
struct Scan {
    in_package: bool,
    name: Option<String>,
    version: Option<String>,
    arch: Option<String>,
}

spec fn scan_view(sc: Scan) -> ManifestScan {
    ManifestScan { in_package: sc.in_package, name: opt_view(sc.name), version: opt_view(sc.version), arch: opt_view(sc.arch) }
}

/// Read one manifest line (see [`scan_line`]).
fn read_manifest_line(sc: &mut Scan, line: &str)
    ensures
        scan_view(*final(sc)) == scan_line(scan_view(*old(sc)), line@),
{
    let l = trim_str(line);
    let n = l.unicode_len();
    if n == 0 || l.get_char(0) == '#' {
        return;
    }
    if l.get_char(0) == '[' && l.get_char(n - 1) == ']' {
        proof { reveal_strlit("[package]"); }
        assert("[package]"@ =~= seq!['[', 'p', 'a', 'c', 'k', 'a', 'g', 'e', ']']);
        sc.in_package = str_eq(l, "[package]");
        return;
    }
    if !sc.in_package {
        return;
    }
    if let Some(i) = find_char(l, '=') {
        assert(l@.take(i as int) =~= l@.subrange(0, i as int));
        assert(l@.skip(i + 1) =~= l@.subrange(i + 1, n as int));
        let key = trim_str(l.substring_char(0, i));
        let val = trim_char(trim_str(l.substring_char(i + 1, n)), '"');
        proof {
            reveal_strlit("name");
            reveal_strlit("version");
            reveal_strlit("arch");
        }
        assert("name"@ =~= seq!['n', 'a', 'm', 'e']);
        assert("version"@ =~= seq!['v', 'e', 'r', 's', 'i', 'o', 'n']);
        assert("arch"@ =~= seq!['a', 'r', 'c', 'h']);
        if str_eq(key, "name") {
            sc.name = Some(val.to_owned());
        } else if str_eq(key, "version") {
            sc.version = Some(val.to_owned());
        } else if str_eq(key, "arch") {
            sc.arch = Some(val.to_owned());
        }
    }
}

/// The `[package]` fields of a manifest: InvalidUtf8 unless the bytes are
/// UTF-8, else what [`scan_lines`] finds in its lines.
pub fn manifest_summary(manifest_bytes: &[u8]) -> (r: Result<ManifestSummary, Error>)
    ensures
        !valid_utf8(manifest_bytes@) ==> r == Err::<ManifestSummary, Error>(Error::InvalidUtf8),
        valid_utf8(manifest_bytes@) ==> r is Ok && {
            let st = scan_lines(split_nl(decode_utf8(manifest_bytes@)));
            &&& opt_view(r->Ok_0.name) == st.name
            &&& opt_view(r->Ok_0.version) == st.version
            &&& opt_view(r->Ok_0.arch) == st.arch
        },
{
    let s = match utf8_str(manifest_bytes) {
        Some(s) => s,
        None => return Err(Error::InvalidUtf8),
    };
    let mut sc = Scan { in_package: false, name: None, version: None, arch: None };
    let n = s.unicode_len();
    let mut start: usize = 0;
    let mut i: usize = 0;
    let ghost mut done: Seq<Seq<char>> = Seq::empty();
    assert(s@.take(0) =~= Seq::<char>::empty());
    assert(split_nl(s@.take(0)) =~= done.push(s@.subrange(0, 0)));
    while i < n
        invariant
            n == s@.len(),
            start <= i <= n,
            split_nl(s@.take(i as int)) == done.push(s@.subrange(start as int, i as int)),
            scan_view(sc) == scan_lines(done),
        decreases n - i,
    {
        let c = s.get_char(i);
        let ghost p = split_nl(s@.take(i as int));
        assert(s@.take(i + 1).drop_last() =~= s@.take(i as int));
        assert(s@.take(i + 1).last() == c);
        if c == '\n' {
            let line = s.substring_char(start, i);
            read_manifest_line(&mut sc, line);
            proof {
                let d2 = done.push(s@.subrange(start as int, i as int));
                assert(d2.drop_last() =~= done);
                done = d2;
                assert(s@.subrange(i + 1, i + 1) =~= Seq::<char>::empty());
            }
            start = i + 1;
        } else {
            assert(s@.subrange(start as int, i + 1) =~= s@.subrange(start as int, i as int).push(c));
            assert(p.update(p.len() - 1, p.last().push(c)) =~= done.push(s@.subrange(start as int, i + 1)));
        }
        i = i + 1;
    }
    let line = s.substring_char(start, n);
    read_manifest_line(&mut sc, line);
    proof {
        let d2 = done.push(s@.subrange(start as int, n as int));
        assert(d2.drop_last() =~= done);
        assert(s@.take(n as int) =~= s@);
    }
    Ok(ManifestSummary { name: sc.name, version: sc.version, arch: sc.arch })
}

/// The directory holding the records of package `name` (or "unknown")
/// under the package database `db_root`: the root without its trailing
/// slashes, then "/info/", then the name.
pub open spec fn info_dir_of(db_root: Seq<char>, name: Option<Seq<char>>) -> Seq<char> {
    let leaf = match name {
        Some(n) => n,
        None => seq!['u', 'n', 'k', 'n', 'o', 'w', 'n'],
    };
    trim_end_char(db_root, '/') + seq!['/', 'i', 'n', 'f', 'o', '/'] + leaf
}

/// Plan the installation of the package file `rpk_bytes` (read from
/// `source_file`) into the database `db_root`: its header, manifest
/// section and manifest summary must be valid (their errors are passed
/// on); the plan names the package and its version and the directory for
/// its records (see [`info_dir_of`]).
pub fn build_install_plan(rpk_bytes: &[u8], source_file: &str, db_root: &str) -> (r: Result<InstallPlan, Error>)
    ensures
        match parse_header_result(rpk_bytes@) {
            Err(e) => r == Err::<InstallPlan, Error>(e),
            Ok(h) => match section_result(rpk_bytes@, h, SectionKind::Manifest) {
                Err(e) => r == Err::<InstallPlan, Error>(e),
                Ok(m) => if !valid_utf8(m) {
                    r == Err::<InstallPlan, Error>(Error::InvalidUtf8)
                } else {
                    let st = scan_lines(split_nl(decode_utf8(m)));
                    &&& r is Ok
                    &&& opt_view(r->Ok_0.package_name) == st.name
                    &&& opt_view(r->Ok_0.package_version) == st.version
                    &&& r->Ok_0.source_file@ == source_file@
                    &&& r->Ok_0.db_root@ == db_root@
                    &&& r->Ok_0.info_dir@ == info_dir_of(db_root@, st.name)
                },
            },
        },
{
    let header = parse_header(rpk_bytes)?;
    let manifest = section(rpk_bytes, &header, SectionKind::Manifest)?;
    let summary = manifest_summary(manifest)?;
    let info_leaf = match &summary.name {
        Some(n) => n.clone(),
        None => String::from_str("unknown"),
    };
    let end = trim_end_from(db_root, 0, '/');
    let mut info_dir = String::from_str(db_root.substring_char(0, end));
    info_dir.append("/info/");
    info_dir.append(info_leaf.as_str());
    proof {
        reveal_strlit("unknown");
        reveal_strlit("/info/");
        assert(db_root@.subrange(0, db_root@.len() as int) =~= db_root@);
        assert(info_dir@ =~= info_dir_of(db_root@, opt_view(summary.name)));
    }
    Ok(InstallPlan {
        package_name: summary.name,
        package_version: summary.version,
        source_file: String::from_str(source_file),
        db_root: String::from_str(db_root),
        info_dir,
    })
}

} // verus!
