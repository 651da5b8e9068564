//! FAT32: directory entries and 8.3 names, the BIOS parameter block and
//! the volume geometry derived from it, FAT entry rules, and the layout a
//! format writes.

use vstd::prelude::*;
use crate::encoding::{le16, le32, push_char, read_le16, read_le32, write_le16, write_le32};
use vstd::string::StringSliceAdditionalSpecFns;
use crate::vfs::inode::{VfsError, VfsResult};

verus! {

/// The 28 low bits of a FAT entry hold the next cluster.
pub const FAT_ENTRY_MASK: u32 = 0x0FFF_FFFF;
pub const FAT_ENTRY_FREE: u32 = 0x0000_0000;
/// Entries from here up mark the end of a chain.
pub const FAT_ENTRY_EOC_MIN: u32 = 0x0FFF_FFF8;
pub const FAT_ENTRY_EOC: u32 = 0x0FFF_FFFF;
pub const FAT_ENTRY_BAD: u32 = 0x0FFF_FFF7;

pub const ATTR_READ_ONLY: u8 = 0x01;
pub const ATTR_HIDDEN: u8 = 0x02;
pub const ATTR_SYSTEM: u8 = 0x04;
pub const ATTR_VOLUME_ID: u8 = 0x08;
pub const ATTR_DIRECTORY: u8 = 0x10;
pub const ATTR_ARCHIVE: u8 = 0x20;
/// A long-file-name entry has all four of these bits.
pub const ATTR_LFN: u8 = 0x0F;

pub const DIR_ENTRY_SIZE: usize = 32;
/// Most clusters a walk along one chain visits.
pub const MAX_SCAN_CLUSTERS: u32 = 1_048_576;
/// First name byte of the entry that ends a directory.
pub const DIR_END: u8 = 0x00;
/// First name byte of a deleted entry.
pub const DIR_FREE: u8 = 0xE5;

/// A 32-byte FAT directory entry.
#[derive(Debug, Clone, Copy)]
pub struct FatDirEntry {
    pub name: [u8; 8],
    pub ext: [u8; 3],
    pub attr: u8,
    pub nt_reserved: u8,
    pub creation_time_tenths: u8,
    pub creation_time: u16,
    pub creation_date: u16,
    pub last_access_date: u16,
    pub first_cluster_high: u16,
    pub write_time: u16,
    pub write_date: u16,
    pub first_cluster_low: u16,
    pub size: u32,
}

/// The bytes of `b` before its first space.
pub open spec fn until_space(b: Seq<u8>) -> Seq<u8>
    decreases b.len(),
{
    if b.len() == 0 {
        Seq::empty()
    } else if b[0] == 32u8 {
        Seq::empty()
    } else {
        seq![b[0]] + until_space(b.skip(1))
    }
}

/// Bytes read as Latin-1 characters.
pub open spec fn latin1(b: Seq<u8>) -> Seq<char> {
    b.map_values(|x: u8| x as char)
}

/// The name an entry shows: the name field up to its first space, then,
/// unless the extension starts with a space, a dot and the extension up
/// to its first space.
pub open spec fn entry_name(e: FatDirEntry) -> Seq<char> {
    let base = latin1(until_space(e.name@));
    if e.ext@[0] != 32u8 {
        base.push('.') + latin1(until_space(e.ext@))
    } else {
        base
    }
}

/// The first cluster an entry records.
pub open spec fn entry_cluster(e: FatDirEntry) -> u32 {
    (e.first_cluster_high as int * 65536 + e.first_cluster_low as int) as u32
}

impl FatDirEntry {
    /// This entry ends the directory.
    pub fn is_end(&self) -> (r: bool)
        ensures
            r == (self.name@[0] == DIR_END),
    {
        self.name[0] == DIR_END
    }

    /// This entry was deleted.
    pub fn is_deleted(&self) -> (r: bool)
        ensures
            r == (self.name@[0] == DIR_FREE),
    {
        self.name[0] == DIR_FREE
    }

    /// This entry is part of a long file name.
    pub fn is_lfn(&self) -> (r: bool)
        ensures
            r == (self.attr & ATTR_LFN == ATTR_LFN),
    {
        (self.attr & ATTR_LFN) == ATTR_LFN
    }

    /// This entry is the volume label.
    pub fn is_volume(&self) -> (r: bool)
        ensures
            r == (self.attr & ATTR_VOLUME_ID != 0),
    {
        self.attr & ATTR_VOLUME_ID != 0
    }

    /// This entry is a directory.
    pub fn is_dir(&self) -> (r: bool)
        ensures
            r == (self.attr & ATTR_DIRECTORY != 0),
    {
        self.attr & ATTR_DIRECTORY != 0
    }

    /// The entry's name as `NAME.EXT` (see [`entry_name`]).
    pub fn get_name(&self) -> (r: String)
        ensures
            r@ == entry_name(*self),
    {
        let mut name = String::new();
        append_field(&mut name, &self.name);
        if self.ext[0] != 32u8 {
            push_char(&mut name, '.');
            append_field(&mut name, &self.ext);
        }
        name
    }

    /// The entry's first cluster: high half, then low half.
    pub fn get_cluster(&self) -> (r: u32)
        ensures
            r == entry_cluster(*self),
    {
        let h = self.first_cluster_high as u32;
        let l = self.first_cluster_low as u32;
        assert(h < 65536 && l < 65536 ==> (h << 16) | l == h * 65536 + l) by (bit_vector);
        (h << 16) | l
    }

    /// Record `cluster` as the entry's first cluster (its two halves).
    pub fn set_cluster(&mut self, cluster: u32)
        ensures
            final(self).first_cluster_low == cluster % 65536,
            final(self).first_cluster_high == cluster / 65536,
            entry_cluster(*final(self)) == cluster,
            *final(self) == (FatDirEntry {
                first_cluster_low: final(self).first_cluster_low,
                first_cluster_high: final(self).first_cluster_high,
                ..*old(self)
            }),
    {
        self.first_cluster_low = (cluster & 0xFFFF) as u16;
        self.first_cluster_high = ((cluster >> 16) & 0xFFFF) as u16;
        assert(cluster & 0xFFFF == cluster % 65536) by (bit_vector);
        assert((cluster >> 16) & 0xFFFF == cluster / 65536) by (bit_vector);
    }
}

/// Append the bytes of `field` before its first space, as Latin-1.
fn append_field(s: &mut String, field: &[u8])
    ensures
        final(s)@ == old(s)@ + latin1(until_space(field@)),
{
    let mut i: usize = 0;
    while i < field.len() && field[i] != 32u8
        invariant
            i <= field@.len(),
            forall|k: int| 0 <= k < i ==> field@[k] != 32u8,
            s@ == old(s)@ + latin1(field@.subrange(0, i as int)),
        decreases field@.len() - i,
    {
        let c = field[i] as char;
        push_char(s, c);
        assert(latin1(field@.subrange(0, i + 1)) =~= latin1(field@.subrange(0, i as int)).push(c));
        i = i + 1;
    }
    proof { lemma_until_space(field@, i as int); }
}

/// The bytes before the first space are those up to a space (or the end)
/// with no space before it.
proof fn lemma_until_space(b: Seq<u8>, i: int)
    requires
        0 <= i <= b.len(),
        forall|k: int| 0 <= k < i ==> b[k] != 32u8,
        i == b.len() || b[i] == 32u8,
    ensures
        until_space(b) == b.subrange(0, i),
    decreases b.len(),
{
    if b.len() > 0 && i > 0 {
        lemma_until_space(b.skip(1), i - 1);
        assert(seq![b[0]] + b.skip(1).subrange(0, i - 1) =~= b.subrange(0, i));
    } else if b.len() > 0 {
        assert(b.subrange(0, 0) =~= Seq::<u8>::empty());
    } else {
        assert(b.subrange(0, 0) =~= Seq::<u8>::empty());
    }
}

/// Characters allowed in an 8.3 name: letters, digits and
/// `! # $ % & ' ( ) - @ ^ _ ` { } ~`.
pub open spec fn legal_short_char(c: u8) -> bool {
    ||| 65 <= c <= 90
    ||| 97 <= c <= 122
    ||| 48 <= c <= 57
    ||| c == 33 || c == 35 || c == 36 || c == 37 || c == 38 || c == 39
    ||| c == 40 || c == 41 || c == 45 || c == 64 || c == 94 || c == 95
    ||| c == 96 || c == 123 || c == 125 || c == 126
}

/// ASCII lower case letters made upper case.
pub open spec fn upper(c: u8) -> u8 {
    if 97 <= c <= 122 { (c - 32) as u8 } else { c }
}

/// The position of the last `.` in `b`.
pub open spec fn last_dot(b: Seq<u8>) -> Option<int>
    decreases b.len(),
{
    if b.len() == 0 {
        None
    } else if b.last() == 46u8 {
        Some(b.len() - 1)
    } else {
        last_dot(b.drop_last())
    }
}

/// A name split at its last dot into base and extension, when that dot is
/// neither first nor last; otherwise the whole name is the base.
pub open spec fn split_ext(b: Seq<u8>) -> (Seq<u8>, Seq<u8>) {
    match last_dot(b) {
        Some(i) => if 0 < i < b.len() - 1 { (b.take(i), b.skip(i + 1)) } else { (b, Seq::empty()) },
        None => (b, Seq::empty()),
    }
}

/// `b` upper-cased and padded with spaces to `n` bytes.
pub open spec fn padded_upper(b: Seq<u8>, n: int) -> Seq<u8> {
    Seq::new(n as nat, |k: int| if k < b.len() { upper(b[k]) } else { 32u8 })
}

/// The 8.3 form of a name (by its UTF-8 bytes), if it has one: not empty,
/// not `.` or `..`, a base of at most 8 and an extension of at most 3
/// legal characters.
pub open spec fn short_name(b: Seq<u8>) -> Option<(Seq<u8>, Seq<u8>)> {
    let (base, ext) = split_ext(b);
    if b.len() == 0 || b == seq![46u8] || b == seq![46u8, 46u8] {
        None
    } else if base.len() > 8 || ext.len() > 3 {
        None
    } else if exists|k: int| 0 <= k < base.len() && !legal_short_char(#[trigger] base[k]) {
        None
    } else if exists|k: int| 0 <= k < ext.len() && !legal_short_char(#[trigger] ext[k]) {
        None
    } else {
        Some((padded_upper(base, 8), padded_upper(ext, 3)))
    }
}

/// Is `c` allowed in an 8.3 name?
pub fn is_legal_short_char(c: u8) -> (r: bool)
    ensures
        r == legal_short_char(c),
{
    (65 <= c && c <= 90) || (97 <= c && c <= 122) || (48 <= c && c <= 57)
        || c == 33 || c == 35 || c == 36 || c == 37 || c == 38 || c == 39
        || c == 40 || c == 41 || c == 45 || c == 64 || c == 94 || c == 95
        || c == 96 || c == 123 || c == 125 || c == 126
}

/// ASCII upper case of `c`.
pub fn ascii_upper(c: u8) -> (r: u8)
    ensures
        r == upper(c),
{
    if 97 <= c && c <= 122 { c - 32 } else { c }
}

/// Copy `src` upper-cased into the start of a space-filled field;
/// InvalidArgument at the first illegal character.
fn fill_field(dst: &mut [u8], src: &[u8]) -> (r: VfsResult<()>)
    requires
        src@.len() <= old(dst)@.len(),
        forall|k: int| 0 <= k < old(dst)@.len() ==> old(dst)@[k] == 32u8,
    ensures
        final(dst)@.len() == old(dst)@.len(),
        r is Ok <==> forall|k: int| 0 <= k < src@.len() ==> legal_short_char(#[trigger] src@[k]),
        r is Err ==> r == Err::<(), VfsError>(VfsError::InvalidArgument),
        r is Ok ==> final(dst)@ == padded_upper(src@, old(dst)@.len() as int),
{
    let mut i: usize = 0;
    while i < src.len()
        invariant
            i <= src@.len(),
            src@.len() <= dst@.len(),
            dst@.len() == old(dst)@.len(),
            forall|k: int| 0 <= k < i ==> legal_short_char(#[trigger] src@[k]),
            forall|k: int| 0 <= k < i ==> dst@[k] == upper(src@[k]),
            forall|k: int| i <= k < dst@.len() ==> dst@[k] == 32u8,
        decreases src@.len() - i,
    {
        if !is_legal_short_char(src[i]) {
            return Err(VfsError::InvalidArgument);
        }
        dst[i] = ascii_upper(src[i]);
        i = i + 1;
    }
    assert(dst@ =~= padded_upper(src@, old(dst)@.len() as int));
    Ok(())
}

/// The position of the last `.` in `b`.
fn find_last_dot(b: &[u8]) -> (r: Option<usize>)
    ensures
        match r {
            Some(i) => last_dot(b@) == Some(i as int),
            None => last_dot(b@) is None,
        },
        r matches Some(i) ==> i < b@.len(),
{
    let mut j: usize = b.len();
    assert(b@.take(j as int) =~= b@);
    while j > 0
        invariant
            j <= b@.len(),
            last_dot(b@) == last_dot(b@.take(j as int)),
        decreases j,
    {
        assert(b@.take(j as int).last() == b@[j - 1]);
        assert(b@.take(j as int).drop_last() =~= b@.take(j - 1));
        if b[j - 1] == 46u8 {
            return Some(j - 1);
        }
        j = j - 1;
    }
    None
}

/// Encode a name as an 8.3 directory name (upper case, space padded);
/// InvalidArgument when it has no such form (see [`short_name`]).
pub fn encode_short_name(name: &str) -> (r: VfsResult<([u8; 8], [u8; 3])>)
    ensures
        match short_name(name.spec_bytes()) {
            None => r == Err::<([u8; 8], [u8; 3]), VfsError>(VfsError::InvalidArgument),
            Some((n, e)) => r is Ok && r->Ok_0.0@ == n && r->Ok_0.1@ == e,
        },
{
    let b = name.as_bytes();
    let ghost bs = b@;
    let n = b.len();
    if n == 0 || (n == 1 && b[0] == 46u8) || (n == 2 && b[0] == 46u8 && b[1] == 46u8) {
        proof {
            if n == 1 { assert(bs =~= seq![46u8]); }
            if n == 2 { assert(bs =~= seq![46u8, 46u8]); }
        }
        return Err(VfsError::InvalidArgument);
    }
    assert(bs != seq![46u8] && bs != seq![46u8, 46u8]) by {
        if bs == seq![46u8] { assert(bs[0] == 46u8); }
        if bs == seq![46u8, 46u8] { assert(bs[0] == 46u8 && bs[1] == 46u8); }
    }
    let (base_end, ext_start) = match find_last_dot(b) {
        Some(i) => if i > 0 && i < n - 1 { (i, i + 1) } else { (n, n) },
        None => (n, n),
    };
    let base = vstd::slice::slice_subrange(b, 0, base_end);
    let ext = vstd::slice::slice_subrange(b, ext_start, n);
    assert(base@ == split_ext(bs).0 && ext@ == split_ext(bs).1) by {
        assert(bs.take(n as int) =~= bs);
        assert(bs.subrange(n as int, n as int) =~= Seq::<u8>::empty());
        assert(bs.subrange(0, base_end as int) =~= bs.take(base_end as int));
        assert(bs.subrange(ext_start as int, n as int) =~= bs.skip(ext_start as int));
    }
    if base.len() > 8 || ext.len() > 3 {
        return Err(VfsError::InvalidArgument);
    }
    let mut name_bytes = [32u8; 8];
    let mut ext_bytes = [32u8; 3];
    match fill_field(&mut name_bytes, base) {
        Err(e) => return Err(e),
        Ok(()) => {}
    }
    match fill_field(&mut ext_bytes, ext) {
        Err(e) => return Err(e),
        Ok(()) => {}
    }
    if name_bytes[0] == 0u8 || name_bytes[0] == 0xE5u8 {
        proof {
            if base@.len() > 0 {
                assert(legal_short_char(base@[0]));
            }
        }
        return Err(VfsError::InvalidArgument);
    }
    Ok((name_bytes, ext_bytes))
}

/// The BIOS parameter block of a FAT32 volume (first 90 bytes of sector 0).
#[derive(Debug, Clone, Copy)]
pub struct BpbFat32 {
    pub jmp: [u8; 3],
    pub oem_name: [u8; 8],
    pub bytes_per_sector: u16,
    pub sectors_per_cluster: u8,
    pub reserved_sectors: u16,
    pub fat_count: u8,
    pub root_entry_count: u16,
    pub total_sectors_16: u16,
    pub media_type: u8,
    pub sectors_per_fat_16: u16,
    pub sectors_per_track: u16,
    pub head_count: u16,
    pub hidden_sectors: u32,
    pub total_sectors_32: u32,
    pub sectors_per_fat_32: u32,
    pub flags: u16,
    pub version: u16,
    pub root_cluster: u32,
    pub fs_info_sector: u16,
    pub backup_boot_sector: u16,
    pub reserved_bytes: [u8; 12],
    pub drive_number: u8,
    pub nt_reserved: u8,
    pub signature: u8,
    pub serial_number: u32,
    pub vol_label: [u8; 11],
    pub sys_id: [u8; 8],
}

/// `b` holds the bytes of `d` from `o` on.
pub open spec fn bytes_at(d: Seq<u8>, o: int, b: Seq<u8>) -> bool {
    forall|k: int| 0 <= k < b.len() ==> #[trigger] b[k] == d[o + k]
}

/// `b` is the parameter block stored at the start of `d`.
pub open spec fn bpb_decodes_to(d: Seq<u8>, b: BpbFat32) -> bool {
    &&& bytes_at(d, 0, b.jmp@)
    &&& bytes_at(d, 3, b.oem_name@)
    &&& b.bytes_per_sector == le16(d, 11)
    &&& b.sectors_per_cluster == d[13]
    &&& b.reserved_sectors == le16(d, 14)
    &&& b.fat_count == d[16]
    &&& b.root_entry_count == le16(d, 17)
    &&& b.total_sectors_16 == le16(d, 19)
    &&& b.media_type == d[21]
    &&& b.sectors_per_fat_16 == le16(d, 22)
    &&& b.sectors_per_track == le16(d, 24)
    &&& b.head_count == le16(d, 26)
    &&& b.hidden_sectors == le32(d, 28)
    &&& b.total_sectors_32 == le32(d, 32)
    &&& b.sectors_per_fat_32 == le32(d, 36)
    &&& b.flags == le16(d, 40)
    &&& b.version == le16(d, 42)
    &&& b.root_cluster == le32(d, 44)
    &&& b.fs_info_sector == le16(d, 48)
    &&& b.backup_boot_sector == le16(d, 50)
    &&& bytes_at(d, 52, b.reserved_bytes@)
    &&& b.drive_number == d[64]
    &&& b.nt_reserved == d[65]
    &&& b.signature == d[66]
    &&& b.serial_number == le32(d, 67)
    &&& bytes_at(d, 71, b.vol_label@)
    &&& bytes_at(d, 82, b.sys_id@)
}

/// Copy `n` bytes from `src[o..]` into `dst`.
pub(crate) fn copy_in(dst: &mut [u8], src: &[u8], o: usize)
    requires
        o + old(dst)@.len() <= src@.len(),
    ensures
        final(dst)@.len() == old(dst)@.len(),
        bytes_at(src@, o as int, final(dst)@),
{
    let n = src.len();
    let mut k: usize = 0;
    while k < dst.len()
        invariant
            k <= dst@.len(),
            dst@.len() == old(dst)@.len(),
            o + dst@.len() <= src@.len(),
            n == src@.len(),
            forall|m: int| 0 <= m < k ==> #[trigger] dst@[m] == src@[o + m],
        decreases dst@.len() - k,
    {
        dst[k] = src[o + k];
        k = k + 1;
    }
}

/// Copy `src` into `dst[o..]`, leaving the other bytes alone.
pub(crate) fn copy_out(dst: &mut [u8], src: &[u8], o: usize)
    requires
        o + src@.len() <= old(dst)@.len(),
    ensures
        final(dst)@.len() == old(dst)@.len(),
        bytes_at(final(dst)@, o as int, src@),
        forall|j: int| 0 <= j < old(dst)@.len() && !(o <= j < o + src@.len()) ==> final(dst)@[j] == old(dst)@[j],
{
    let n = dst.len();
    let mut k: usize = 0;
    while k < src.len()
        invariant
            k <= src@.len(),
            dst@.len() == old(dst)@.len(),
            o + src@.len() <= dst@.len(),
            n == dst@.len(),
            forall|m: int| 0 <= m < k ==> #[trigger] src@[m] == dst@[o + m],
            forall|j: int| 0 <= j < dst@.len() && !(o <= j < o + k) ==> dst@[j] == old(dst)@[j],
        decreases src@.len() - k,
    {
        dst[o + k] = src[k];
        k = k + 1;
    }
}

impl BpbFat32 {
    /// Decode the parameter block from the start of sector 0.
    pub fn from_bytes(buf: &[u8]) -> (r: BpbFat32)
        requires
            buf@.len() >= 90,
        ensures
            bpb_decodes_to(buf@, r),
    {
        let mut jmp = [0u8; 3];
        copy_in(&mut jmp, buf, 0);
        let mut oem_name = [0u8; 8];
        copy_in(&mut oem_name, buf, 3);
        let mut reserved_bytes = [0u8; 12];
        copy_in(&mut reserved_bytes, buf, 52);
        let mut vol_label = [0u8; 11];
        copy_in(&mut vol_label, buf, 71);
        let mut sys_id = [0u8; 8];
        copy_in(&mut sys_id, buf, 82);
        BpbFat32 {
            jmp,
            oem_name,
            bytes_per_sector: read_le16(buf, 11),
            sectors_per_cluster: buf[13],
            reserved_sectors: read_le16(buf, 14),
            fat_count: buf[16],
            root_entry_count: read_le16(buf, 17),
            total_sectors_16: read_le16(buf, 19),
            media_type: buf[21],
            sectors_per_fat_16: read_le16(buf, 22),
            sectors_per_track: read_le16(buf, 24),
            head_count: read_le16(buf, 26),
            hidden_sectors: read_le32(buf, 28),
            total_sectors_32: read_le32(buf, 32),
            sectors_per_fat_32: read_le32(buf, 36),
            flags: read_le16(buf, 40),
            version: read_le16(buf, 42),
            root_cluster: read_le32(buf, 44),
            fs_info_sector: read_le16(buf, 48),
            backup_boot_sector: read_le16(buf, 50),
            reserved_bytes,
            drive_number: buf[64],
            nt_reserved: buf[65],
            signature: buf[66],
            serial_number: read_le32(buf, 67),
            vol_label,
            sys_id,
        }
    }

    /// Store the parameter block in the first 90 bytes of `buf`, leaving
    /// the rest alone; decoding them gives it back.
    pub fn to_bytes(&self, buf: &mut [u8])
        requires
            old(buf)@.len() >= 90,
        ensures
            final(buf)@.len() == old(buf)@.len(),
            bpb_decodes_to(final(buf)@, *self),
            forall|j: int| 90 <= j < old(buf)@.len() ==> final(buf)@[j] == old(buf)@[j],
    {
        copy_out(buf, &self.jmp, 0);
        copy_out(buf, &self.oem_name, 3);
        write_le16(buf, 11, self.bytes_per_sector);
        buf[13] = self.sectors_per_cluster;
        write_le16(buf, 14, self.reserved_sectors);
        buf[16] = self.fat_count;
        write_le16(buf, 17, self.root_entry_count);
        write_le16(buf, 19, self.total_sectors_16);
        buf[21] = self.media_type;
        write_le16(buf, 22, self.sectors_per_fat_16);
        write_le16(buf, 24, self.sectors_per_track);
        write_le16(buf, 26, self.head_count);
        write_le32(buf, 28, self.hidden_sectors);
        write_le32(buf, 32, self.total_sectors_32);
        write_le32(buf, 36, self.sectors_per_fat_32);
        write_le16(buf, 40, self.flags);
        write_le16(buf, 42, self.version);
        write_le32(buf, 44, self.root_cluster);
        write_le16(buf, 48, self.fs_info_sector);
        write_le16(buf, 50, self.backup_boot_sector);
        copy_out(buf, &self.reserved_bytes, 52);
        buf[64] = self.drive_number;
        buf[65] = self.nt_reserved;
        buf[66] = self.signature;
        write_le32(buf, 67, self.serial_number);
        copy_out(buf, &self.vol_label, 71);
        copy_out(buf, &self.sys_id, 82);
    }
}

/// A mounted FAT32 volume: its parameter block and the geometry derived
/// from it (in sectors, bytes and clusters).
pub struct Fat32Fs {
    pub bpb: BpbFat32,
    /// First sector of the first FAT.
    pub fat_offset: u64,
    /// First sector of the data area (cluster 2).
    pub data_offset: u64,
    /// Bytes per cluster.
    pub cluster_size: u64,
    /// Clusters in the data area.
    pub total_clusters: u32,
}

/// Total sectors of a volume: the 32-bit count, or the 16-bit one when the
/// former is 0.
pub open spec fn volume_sectors(b: BpbFat32) -> int {
    if b.total_sectors_32 != 0 { b.total_sectors_32 as int } else { b.total_sectors_16 as int }
}

/// A parameter block this driver mounts: an extended boot signature
/// (0x28 or 0x29), 512-byte sectors, and non-zero FAT and cluster sizes.
pub open spec fn bpb_mountable(b: BpbFat32) -> bool {
    &&& (b.signature == 0x28 || b.signature == 0x29)
    &&& b.bytes_per_sector == 512
    &&& b.sectors_per_fat_32 != 0
    &&& b.sectors_per_cluster != 0
}

impl Fat32Fs {
    /// Mount the volume whose boot sector is `boot`: InvalidArgument unless
    /// its parameter block is mountable; the FATs start after the reserved
    /// sectors, the data area after the FATs, and the cluster count is what
    /// fits in the remaining sectors.
    pub fn new(boot: &[u8]) -> (r: VfsResult<Fat32Fs>)
        requires
            boot@.len() >= 90,
        ensures
            ({
                let b = BpbFat32::spec_from(boot@);
                if !bpb_mountable(b) {
                    r is Err && r->Err_0 == VfsError::InvalidArgument
                } else {
                    let data = b.reserved_sectors as int + b.fat_count as int * b.sectors_per_fat_32 as int;
                    let rest = if volume_sectors(b) > data { volume_sectors(b) - data } else { 0 };
                    &&& r is Ok
                    &&& bpb_decodes_to(boot@, r->Ok_0.bpb)
                    &&& r->Ok_0.fat_offset == b.reserved_sectors
                    &&& r->Ok_0.data_offset == data
                    &&& r->Ok_0.cluster_size == b.sectors_per_cluster as int * 512
                    &&& r->Ok_0.total_clusters == rest / (b.sectors_per_cluster as int)
                }
            }),
    {
        let bpb = BpbFat32::from_bytes(boot);
        proof { lemma_bpb_decode_unique(boot@, bpb); }
        if bpb.signature != 0x28 && bpb.signature != 0x29 {
            return Err(VfsError::InvalidArgument);
        }
        if bpb.bytes_per_sector != 512 {
            return Err(VfsError::InvalidArgument);
        }
        if bpb.sectors_per_fat_32 == 0 || bpb.sectors_per_cluster == 0 {
            return Err(VfsError::InvalidArgument);
        }
        let fat_offset = bpb.reserved_sectors as u64;
        let fc = bpb.fat_count as u64;
        let spf = bpb.sectors_per_fat_32 as u64;
        assert(fc * spf <= 255 * 0xFFFF_FFFFu64) by (nonlinear_arith)
            requires
                fc <= 255,
                spf <= 0xFFFF_FFFF;
        let data_offset = fat_offset + fc * spf;
        let cluster_size = bpb.sectors_per_cluster as u64 * 512;
        let total_sectors: u64 = if bpb.total_sectors_32 != 0 {
            bpb.total_sectors_32 as u64
        } else {
            bpb.total_sectors_16 as u64
        };
        let data_sectors = total_sectors.saturating_sub(data_offset);
        let clusters64 = data_sectors / bpb.sectors_per_cluster as u64;
        assert(clusters64 <= data_sectors);
        let total_clusters = clusters64 as u32;
        Ok(Fat32Fs { bpb, fat_offset, data_offset, cluster_size, total_clusters })
    }

    /// First sector of data cluster `cluster` (clusters count from 2).
    pub fn cluster_to_lba(&self, cluster: u32) -> (r: u64)
        requires
            cluster >= 2,
            self.data_offset + (cluster - 2) * self.bpb.sectors_per_cluster <= u64::MAX,
        ensures
            r == self.data_offset + (cluster - 2) * self.bpb.sectors_per_cluster,
    {
        self.data_offset + ((cluster as u64 - 2) * self.bpb.sectors_per_cluster as u64)
    }

    /// Where the FAT entry of `cluster` lies: the sector of the first FAT
    /// and the byte offset in it (four bytes per entry).
    pub fn fat_entry_location(&self, cluster: u32) -> (r: (u64, usize))
        requires
            self.fat_offset + cluster * 4 / 512 <= u64::MAX,
        ensures
            r.0 == self.fat_offset + cluster * 4 / 512,
            r.1 == (cluster * 4) % 512,
            r.1 + 4 <= 512,
    {
        let sector = self.fat_offset + (cluster as u64 * 4 / 512);
        let offset = ((cluster as u64 * 4) % 512) as usize;
        assert(((cluster as int) * 4) % 512 <= 508) by (nonlinear_arith);
        (sector, offset)
    }
}

impl BpbFat32 {
    /// The parameter block stored at the start of `d`.
    pub closed spec fn spec_from(d: Seq<u8>) -> BpbFat32 {
        choose|b: BpbFat32| bpb_decodes_to(d, b)
    }
}

/// The bytes of `d` determine the parameter block they decode to.
pub proof fn lemma_bpb_decode_unique(d: Seq<u8>, b: BpbFat32)
    requires
        bpb_decodes_to(d, b),
    ensures
        BpbFat32::spec_from(d) == b,
{
    let c = BpbFat32::spec_from(d);
    assert(bpb_decodes_to(d, c));
    assert(c.jmp@ =~= b.jmp@);
    assert(c.oem_name@ =~= b.oem_name@);
    assert(c.reserved_bytes@ =~= b.reserved_bytes@);
    assert(c.vol_label@ =~= b.vol_label@);
    assert(c.sys_id@ =~= b.sys_id@);
    assert(c.jmp == b.jmp);
    assert(c.oem_name == b.oem_name);
    assert(c.reserved_bytes == b.reserved_bytes);
    assert(c.vol_label == b.vol_label);
    assert(c.sys_id == b.sys_id);
}

/// The next-cluster value a FAT entry holds: its low 28 bits.
pub open spec fn fat_next(raw: u32) -> u32 {
    raw & FAT_ENTRY_MASK
}

/// The FAT entry with next-cluster value `value`, keeping the top four bits
/// of the entry it replaces (as FAT32 requires).
pub fn merge_fat_entry(old_raw: u32, value: u32) -> (r: u32)
    ensures
        r == (old_raw & 0xF000_0000) | (value & FAT_ENTRY_MASK),
        fat_next(r) == value & FAT_ENTRY_MASK,
        r & 0xF000_0000 == old_raw & 0xF000_0000,
{
    let r = (old_raw & 0xF000_0000) | (value & FAT_ENTRY_MASK);
    assert(((old_raw & 0xF000_0000u32) | (value & 0x0FFF_FFFFu32)) & 0x0FFF_FFFFu32 == value & 0x0FFF_FFFFu32) by (bit_vector);
    assert(((old_raw & 0xF000_0000u32) | (value & 0x0FFF_FFFFu32)) & 0xF000_0000u32 == old_raw & 0xF000_0000u32) by (bit_vector);
    r
}

/// The next cluster recorded for the entry at `offset` of a FAT sector.
pub fn fat_entry_in_sector(sector: &[u8], offset: usize) -> (r: u32)
    requires
        offset + 4 <= sector@.len(),
    ensures
        r == fat_next(le32(sector@, offset as int) as u32),
{
    read_le32(sector, offset) & FAT_ENTRY_MASK
}

/// Set the entry at `offset` of a FAT sector to `value`, keeping the top
/// four bits it had (the read-modify-write of `write_fat_entry`).
pub fn set_fat_entry_in_sector(sector: &mut [u8], offset: usize, value: u32)
    requires
        offset + 4 <= old(sector)@.len(),
    ensures
        final(sector)@.len() == old(sector)@.len(),
        le32(final(sector)@, offset as int)
            == ((le32(old(sector)@, offset as int) as u32) & 0xF000_0000) | (value & FAT_ENTRY_MASK),
        forall|j: int| 0 <= j < old(sector)@.len() && !(offset <= j < offset + 4) ==> final(sector)@[j] == old(sector)@[j],
{
    let old_raw = read_le32(sector, offset);
    let new_raw = merge_fat_entry(old_raw, value);
    write_le32(sector, offset, new_raw);
}

/// The FAT sectors that `format_fat32` finds needed when the FAT has `spf`
/// sectors: the data sectors that remain, counted as a 32-bit cluster
/// number, plus the two reserved entries (a 32-bit sum), four bytes each.
pub open spec fn fat_sectors_needed(total: int, spf: int) -> int {
    let clusters = (total - (32 + spf)) % 0x1_0000_0000;
    let entries = if clusters + 2 > u32::MAX { clusters + 2 - 0x1_0000_0000 } else { clusters + 2 };
    (entries * 4 + 511) / 512
}

/// The sector count that a parameter block records: the device's, capped
/// at 2^32 - 1.
pub open spec fn recorded_sectors(total: int) -> int {
    if total > u32::MAX { u32::MAX as int } else { total }
}

/// The parameter block `format_fat32` writes for a device of `total`
/// sectors with a FAT of `spf` sectors and the volume label `label`.
pub open spec fn is_format_bpb(b: BpbFat32, total: int, spf: int, label: Seq<u8>) -> bool {
    &&& b.jmp@ == seq![0xEBu8, 0x58u8, 0x90u8]
    &&& b.oem_name@ == seq![82u8, 65u8, 67u8, 79u8, 83u8, 49u8, 46u8, 48u8]
    &&& b.bytes_per_sector == 512
    &&& b.sectors_per_cluster == 1
    &&& b.reserved_sectors == 32
    &&& b.fat_count == 1
    &&& b.root_entry_count == 0
    &&& b.total_sectors_16 == 0
    &&& b.media_type == 0xF8
    &&& b.sectors_per_fat_16 == 0
    &&& b.sectors_per_track == 0
    &&& b.head_count == 0
    &&& b.hidden_sectors == 0
    &&& b.total_sectors_32 == recorded_sectors(total)
    &&& b.sectors_per_fat_32 == spf
    &&& b.flags == 0
    &&& b.version == 0
    &&& b.root_cluster == 2
    &&& b.fs_info_sector == 1
    &&& b.backup_boot_sector == 6
    &&& forall|k: int| 0 <= k < 12 ==> b.reserved_bytes@[k] == 0u8
    &&& b.drive_number == 0x80
    &&& b.nt_reserved == 0
    &&& b.signature == 0x29
    &&& b.serial_number == 0x5241_4332
    &&& forall|k: int| 0 <= k < 11 ==> #[trigger] b.vol_label@[k] == (if k < label.len() { upper(label[k]) } else { 32u8 })
    &&& b.sys_id@ == seq![70u8, 65u8, 84u8, 51u8, 50u8, 32u8, 32u8, 32u8]
}

/// `b` is what `format_fat32` gives for `total` sectors and label `label`:
/// its FAT size is the least fixed point, from one sector, of "enough FAT
/// sectors for the clusters that remain".
pub open spec fn fresh_format(b: BpbFat32, total: int, label: Seq<u8>) -> bool {
    let spf = b.sectors_per_fat_32 as int;
    &&& 1 <= spf
    &&& fat_sectors_needed(total, spf) <= spf
    &&& (spf == 1 || spf == fat_sectors_needed(total, 1))
    &&& is_format_bpb(b, total, spf, label)
}

/// The parameter block of a fresh FAT32 volume on a device of
/// `total_sectors` sectors: NoSpace below 256 sectors; one-sector clusters,
/// 32 reserved sectors, one FAT sized as the least fixed point, from one
/// sector, of [`fat_sectors_needed`], the root directory at cluster 2, the
/// sector count capped at 2^32 - 1, and the label's first 11 bytes
/// upper-cased and space padded.
pub fn format_fat32(total_sectors: u64, label: &str) -> (r: VfsResult<BpbFat32>)
    ensures
        total_sectors < 256 ==> r == Err::<BpbFat32, VfsError>(VfsError::NoSpace),
        total_sectors >= 256 ==> r is Ok && fresh_format(r->Ok_0, total_sectors as int, label.spec_bytes()),
{
    if total_sectors < 256 {
        return Err(VfsError::NoSpace);
    }
    let ghost total = total_sectors as int;
    let mut sectors_per_fat: u32 = 1;
    let mut round: u32 = 0;
    while round < 32
        invariant
            256 <= total_sectors,
            total == total_sectors,
            round <= 32,
            1 <= sectors_per_fat,
            sectors_per_fat == 1 || sectors_per_fat == fat_sectors_needed(total, 1),
            round >= 1 ==> fat_sectors_needed(total, sectors_per_fat as int) <= sectors_per_fat,
        decreases 32 - round,
    {
        proof { lemma_fat_size_fits(total_sectors as int, sectors_per_fat as int); }
        let data_offset = 32 + sectors_per_fat as u64;
        if data_offset >= total_sectors {
            return Err(VfsError::NoSpace);
        }
        let data_sectors = total_sectors - data_offset;
        assert(data_sectors as u32 == data_sectors % 0x1_0000_0000) by (bit_vector);
        let clusters = #[verifier::truncate] (data_sectors as u32);
        let entries = clusters.wrapping_add(2);
        let needed_fat_bytes = entries as u64 * 4;
        let needed_fat_sectors = ((needed_fat_bytes + 511) / 512) as u32;
        assert(needed_fat_sectors == fat_sectors_needed(total, sectors_per_fat as int));
        if needed_fat_sectors <= sectors_per_fat {
            round = 32;
        } else {
            proof { lemma_fat_size_settles(total); }
            sectors_per_fat = needed_fat_sectors;
            round = round + 1;
        }
    }
    let label_bytes = label.as_bytes();
    let mut vol_label = [32u8; 11];
    let mut i: usize = 0;
    while i < 11 && i < label_bytes.len()
        invariant
            i <= 11,
            i <= label_bytes@.len(),
            forall|k: int| 0 <= k < i ==> #[trigger] vol_label@[k] == upper(label_bytes@[k]),
            forall|k: int| i <= k < 11 ==> #[trigger] vol_label@[k] == 32u8,
        decreases 11 - i,
    {
        vol_label[i] = ascii_upper(label_bytes[i]);
        i = i + 1;
    }
    let bpb = BpbFat32 {
        jmp: [0xEBu8, 0x58u8, 0x90u8],
        oem_name: [82u8, 65u8, 67u8, 79u8, 83u8, 49u8, 46u8, 48u8],
        bytes_per_sector: 512,
        sectors_per_cluster: 1,
        reserved_sectors: 32,
        fat_count: 1,
        root_entry_count: 0,
        total_sectors_16: 0,
        media_type: 0xF8,
        sectors_per_fat_16: 0,
        sectors_per_track: 0,
        head_count: 0,
        hidden_sectors: 0,
        total_sectors_32: if total_sectors > 0xFFFF_FFFF { 0xFFFF_FFFFu32 } else { total_sectors as u32 },
        sectors_per_fat_32: sectors_per_fat,
        flags: 0,
        version: 0,
        root_cluster: 2,
        fs_info_sector: 1,
        backup_boot_sector: 6,
        reserved_bytes: [0u8; 12],
        drive_number: 0x80,
        nt_reserved: 0,
        signature: 0x29,
        serial_number: 0x5241_4332,
        vol_label,
        sys_id: [70u8, 65u8, 84u8, 51u8, 50u8, 32u8, 32u8, 32u8],
    };
    proof {
        assert forall|k: int| 0 <= k < 11 implies #[trigger] bpb.vol_label@[k]
            == (if k < label.spec_bytes().len() { upper(label.spec_bytes()[k]) } else { 32u8 }) by {
            if k < i {
            } else if k < label.spec_bytes().len() {
                assert(i == 11);
            }
        }
        assert(bpb.jmp@ =~= seq![0xEBu8, 0x58u8, 0x90u8]);
        assert(bpb.oem_name@ =~= seq![82u8, 65u8, 67u8, 79u8, 83u8, 49u8, 46u8, 48u8]);
        assert(bpb.sys_id@ =~= seq![70u8, 65u8, 84u8, 51u8, 50u8, 32u8, 32u8, 32u8]);
        assert(is_format_bpb(bpb, total, sectors_per_fat as int, label.spec_bytes()));
    }
    Ok(bpb)
}

/// With at least 256 sectors, a FAT sized from one sector still leaves a
/// data area.
proof fn lemma_fat_size_fits(total: int, spf: int)
    requires
        256 <= total,
        spf == 1 || spf == fat_sectors_needed(total, 1),
    ensures
        32 + spf < total,
{
    if spf != 1 {
        let a = (total - 33) % 0x1_0000_0000;
        vstd::arithmetic::div_mod::lemma_fundamental_div_mod(total - 33, 0x1_0000_0000);
        assert(0 <= (total - 33) / 0x1_0000_0000) by (nonlinear_arith)
            requires
                total - 33 >= 0;
        assert(a <= total - 33);
        let e = if a + 2 > u32::MAX { a + 2 - 0x1_0000_0000 } else { a + 2 };
        assert(e <= total - 31);
        assert((e * 4 + 511) / 512 <= ((total - 31) * 4 + 511) / 512) by (nonlinear_arith)
            requires
                e <= total - 31;
        assert(((total - 31) * 4 + 511) / 512 <= total / 128 + 1) by (nonlinear_arith)
            requires
                256 <= total;
        assert(total / 128 + 1 + 32 < total) by (nonlinear_arith)
            requires
                256 <= total;
    }
}

/// Once one sector proves too small, the FAT size it asks for is enough:
/// the sizing settles in its second round.
proof fn lemma_fat_size_settles(total: int)
    requires
        256 <= total,
        fat_sectors_needed(total, 1) > 1,
    ensures
        fat_sectors_needed(total, fat_sectors_needed(total, 1)) <= fat_sectors_needed(total, 1),
{
    let m: int = 0x1_0000_0000;
    let x = total - 33;
    let a = x % m;
    let q = x / m;
    vstd::arithmetic::div_mod::lemma_fundamental_div_mod(x, m);
    let s1 = fat_sectors_needed(total, 1);
    assert(a + 2 <= u32::MAX);
    assert(s1 == ((a + 2) * 4 + 511) / 512);
    assert(s1 <= a + 1) by (nonlinear_arith)
        requires
            s1 == ((a + 2) * 4 + 511) / 512,
            s1 > 1,
            a >= 0;
    let b = a - (s1 - 1);
    assert(total - (32 + s1) == q * m + b) by (nonlinear_arith)
        requires
            x == m * q + a,
            x == total - 33,
            b == a - (s1 - 1);
    vstd::arithmetic::div_mod::lemma_fundamental_div_mod_converse(total - (32 + s1), m, q, b);
    assert(((b + 2) * 4 + 511) / 512 <= ((a + 2) * 4 + 511) / 512) by (nonlinear_arith)
        requires
            b <= a;
}

/// Sector 0 of a fresh volume: the parameter block, zeros, and the boot
/// signature 0x55 0xAA at the end.
pub fn boot_sector(bpb: &BpbFat32) -> (r: [u8; 512])
    ensures
        bpb_decodes_to(r@, *bpb),
        r@[510] == 0x55u8 && r@[511] == 0xAAu8,
        forall|j: int| 90 <= j < 510 ==> r@[j] == 0u8,
{
    let mut boot = [0u8; 512];
    assert(forall|j: int| 0 <= j < 512 ==> boot@[j] == 0u8);
    bpb.to_bytes(&mut boot);
    boot[510] = 0x55;
    boot[511] = 0xAA;
    boot
}

/// The FSInfo sector: its lead, structure and trail signatures, with the
/// free count and next-free hint unknown (all ones).
pub fn fsinfo_sector() -> (r: [u8; 512])
    ensures
        le32(r@, 0) == 0x4161_5252,
        le32(r@, 484) == 0x6141_7272,
        le32(r@, 488) == 0xFFFF_FFFF,
        le32(r@, 492) == 0xFFFF_FFFF,
        le32(r@, 508) == 0xAA55_0000,
        forall|j: int| 4 <= j < 484 || 496 <= j < 508 ==> r@[j] == 0u8,
{
    let mut s = [0u8; 512];
    assert(forall|j: int| 0 <= j < 512 ==> s@[j] == 0u8);
    write_le32(&mut s, 0, 0x4161_5252);
    write_le32(&mut s, 484, 0x6141_7272);
    write_le32(&mut s, 488, 0xFFFF_FFFF);
    write_le32(&mut s, 492, 0xFFFF_FFFF);
    write_le32(&mut s, 508, 0xAA55_0000);
    s
}

/// The first sector of a fresh FAT: entries 0 and 1 hold the media byte
/// and an end-of-chain mark, entry 2 (the root directory) ends its chain,
/// every other cluster is free.
pub fn first_fat_sector(media_type: u8) -> (r: [u8; 512])
    ensures
        le32(r@, 0) == (0x0FFF_FF00u32 | media_type as u32),
        le32(r@, 4) == FAT_ENTRY_EOC,
        le32(r@, 8) == FAT_ENTRY_EOC,
        forall|j: int| 12 <= j < 512 ==> r@[j] == 0u8,
{
    let mut s = [0u8; 512];
    assert(forall|j: int| 0 <= j < 512 ==> s@[j] == 0u8);
    write_le32(&mut s, 0, 0x0FFF_FF00u32 | media_type as u32);
    write_le32(&mut s, 4, FAT_ENTRY_EOC);
    write_le32(&mut s, 8, FAT_ENTRY_EOC);
    s
}

/// A freshly formatted volume mounts again, recording the device's sector
/// count capped at 2^32 - 1; on a device of at most 2^32 - 1 sectors its
/// FAT covers every cluster of its data area.
pub proof fn lemma_format_mounts(b: BpbFat32, total: int, label: Seq<u8>)
    requires
        256 <= total,
        fresh_format(b, total, label),
    ensures
        bpb_mountable(b),
        volume_sectors(b) == recorded_sectors(total),
        b.reserved_sectors + b.fat_count * b.sectors_per_fat_32 < recorded_sectors(total),
        total <= u32::MAX ==> (total - (b.reserved_sectors + b.fat_count * b.sectors_per_fat_32) + 2) * 4
            <= b.sectors_per_fat_32 * 512,
{
    let spf = b.sectors_per_fat_32 as int;
    lemma_fat_size_fits(total, spf);
    lemma_fat_size_bound(total, 1);
    if total <= u32::MAX {
        let c = total - (32 + spf);
        assert(c % 0x1_0000_0000 == c);
        assert((c + 2) * 4 <= spf * 512) by (nonlinear_arith)
            requires
                ((c + 2) * 4 + 511) / 512 <= spf,
                c > 0;
    }
}

/// However large the device, a FAT never needs more than 2^25 sectors.
proof fn lemma_fat_size_bound(total: int, spf: int)
    ensures
        fat_sectors_needed(total, spf) <= 0x200_0000,
{
    let c = (total - (32 + spf)) % 0x1_0000_0000;
    let e = if c + 2 > u32::MAX { c + 2 - 0x1_0000_0000 } else { c + 2 };
    assert(0 <= e <= u32::MAX);
    assert((e * 4 + 511) / 512 <= 0x200_0000) by (nonlinear_arith)
        requires
            0 <= e <= u32::MAX;
}

} // verus!
