//! Reading one named entry out of a ZIP/JAR archive held in memory.
use vstd::prelude::*;
use crate::inflate::{inflate, inflate_raw, le16, le32, read_u16, read_u32};
use vstd::string::StringSliceAdditionalSpecFns;

verus! {

/// The largest compressed `fabric.mod.json` that will be read.
pub const MAX_METADATA_COMPRESSED_BYTES: usize = 4194304;

/// The largest expanded `fabric.mod.json` that will be read.
pub const MAX_METADATA_BYTES: usize = 1048576;

/// One step of the reflected CRC-32 register (polynomial 0xEDB88320).
pub open spec fn crc_step(c: u32) -> u32 {
    if c & 1 == 1 {
        (c >> 1) ^ 0xedb8_8320u32
    } else {
        c >> 1
    }
}

/// `n` steps of the CRC-32 register.
pub open spec fn crc_steps(c: u32, n: nat) -> u32
    decreases n,
{
    if n == 0 {
        c
    } else {
        crc_step(crc_steps(c, (n - 1) as nat))
    }
}

/// The CRC-32 register after the bytes of `data`, starting from all ones.
pub open spec fn crc_register(data: Seq<u8>) -> u32
    decreases data.len(),
{
    if data.len() == 0 {
        0xffff_ffffu32
    } else {
        crc_steps(crc_register(data.drop_last()) ^ (data.last() as u32), 8)
    }
}

/// The CRC-32 (ISO-HDLC, as used by ZIP) of `data`.
pub open spec fn crc32_spec(data: Seq<u8>) -> u32 {
    !crc_register(data)
}

/// Computes the CRC-32 checksum of `bytes`.
pub fn crc32(bytes: &[u8]) -> (r: u32)
    ensures
        r == crc32_spec(bytes@),
{
    let mut crc = 0xffff_ffffu32;
    let mut i: usize = 0;
    while i < bytes.len()
        invariant
            i <= bytes@.len(),
            crc == crc_register(bytes@.subrange(0, i as int)),
        decreases bytes@.len() - i,
    {
        proof {
            let prefix = bytes@.subrange(0, i + 1);
            assert(prefix.drop_last() == bytes@.subrange(0, i as int));
            assert(prefix.last() == bytes@[i as int]);
        }
        crc = crc ^ (bytes[i] as u32);
        let ghost start = crc;
        let mut k: usize = 0;
        while k < 8
            invariant
                k <= 8,
                crc == crc_steps(start, k as nat),
            decreases 8 - k,
        {
            let mask: u32 = if crc & 1 == 1 { 0xffff_ffff } else { 0 };
            proof {
                let c = crc;
                assert(((c >> 1) ^ (0xedb8_8320u32 & 0xffff_ffffu32)) == ((c >> 1) ^ 0xedb8_8320u32)) by (bit_vector);
                assert(((c >> 1) ^ (0xedb8_8320u32 & 0u32)) == (c >> 1)) by (bit_vector);
            }
            crc = (crc >> 1) ^ (0xedb8_8320 & mask);
            k = k + 1;
        }
        i = i + 1;
    }
    proof {
        assert(bytes@.subrange(0, bytes@.len() as int) == bytes@);
    }
    !crc
}

/// Why an archive entry could not be read.
#[derive(Debug, Clone, Copy, PartialEq, Eq)]
pub enum ZipError {
    /// The archive is malformed, uses an unsupported feature, lacks the entry,
    /// or the entry exceeds the metadata limits or fails its checksum.
    Invalid,
}

/// An end-of-central-directory record whose comment ends the file starts at `o`.
pub open spec fn is_eocd_at(b: Seq<u8>, o: int) -> bool {
    &&& 0 <= o
    &&& o + 22 <= b.len()
    &&& b[o] == 0x50u8
    &&& b[o + 1] == 0x4bu8
    &&& b[o + 2] == 5u8
    &&& b[o + 3] == 6u8
    &&& o + 22 + le16(b, o + 20) == b.len()
}

/// Where the search for the end-of-central-directory record starts: a record
/// with the longest possible comment.
pub open spec fn eocd_search_start(len: int) -> int {
    if len >= 22 + 65535 {
        len - 22 - 65535
    } else {
        0
    }
}

/// The last end-of-central-directory record at or below `o` and not below `start`.
pub open spec fn find_eocd_from(b: Seq<u8>, o: int, start: int) -> Option<int>
    decreases o - start + 1,
{
    if o < start {
        None
    } else if is_eocd_at(b, o) {
        Some(o)
    } else {
        find_eocd_from(b, o - 1, start)
    }
}

/// The end-of-central-directory record of an archive: the last one whose
/// comment reaches exactly to the end of the file.
pub open spec fn eocd_spec(b: Seq<u8>) -> Option<int> {
    if b.len() < 22 {
        None
    } else {
        find_eocd_from(b, b.len() - 22, eocd_search_start(b.len() as int))
    }
}

/// Locates the end-of-central-directory record.
pub fn find_eocd(bytes: &[u8]) -> (r: Result<usize, ZipError>)
    requires
        bytes@.len() <= isize::MAX,
    ensures
        r is Ok <==> eocd_spec(bytes@) is Some,
        r matches Ok(o) ==> o == eocd_spec(bytes@).unwrap() && is_eocd_at(bytes@, o as int),
{
    let len = bytes.len();
    if len < 22 {
        return Err(ZipError::Invalid);
    }
    let start = if len >= 22 + 65535 { len - 22 - 65535 } else { 0 };
    let mut offset = len - 22;
    loop
        invariant
            len == bytes@.len() <= isize::MAX,
            len >= 22,
            start == eocd_search_start(len as int),
            start <= offset + 1,
            offset <= len - 22,
            eocd_spec(bytes@) == find_eocd_from(bytes@, offset as int, start as int),
        decreases offset + 1 - start,
    {
        if offset < start {
            return Err(ZipError::Invalid);
        }
        if bytes[offset] == 0x50 && bytes[offset + 1] == 0x4b && bytes[offset + 2] == 5 && bytes[offset + 3] == 6 {
            let comment_len = match read_u16(bytes, offset + 20) {
                Ok(v) => v as usize,
                Err(_) => {
                    return Err(ZipError::Invalid);
                },
            };
            if offset + 22 + comment_len == len {
                assert(is_eocd_at(bytes@, offset as int));
                return Ok(offset);
            }
        }
        if offset == 0 {
            assert(find_eocd_from(bytes@, -1, start as int) is None);
            return Err(ZipError::Invalid);
        }
        offset = offset - 1;
    }
}

/// A central-directory entry for the wanted file.
#[derive(Debug, Clone, Copy, PartialEq, Eq)]
pub struct ZipEntry {
    pub compression: u16,
    pub crc32: u32,
    pub compressed_size: usize,
    pub uncompressed_size: usize,
    pub local_header_offset: usize,
}

/// The central-directory entry at `c`, if its fixed part is present and it
/// uses only supported features: its entry data and where its name ends.
pub open spec fn central_entry(b: Seq<u8>, c: int) -> Option<(ZipEntry, int)> {
    if c + 46 > b.len() {
        None
    } else if le32(b, c) != 0x0201_4b50 || le16(b, c + 8) % 2 == 1 {
        None
    } else if le32(b, c + 20) == 0xffff_ffff || le32(b, c + 24) == 0xffff_ffff || le32(b, c + 42)
        == 0xffff_ffff || le16(b, c + 34) != 0 {
        None
    } else {
        Some(
            (
                ZipEntry {
                    compression: le16(b, c + 10) as u16,
                    crc32: le32(b, c + 16) as u32,
                    compressed_size: le32(b, c + 20) as usize,
                    uncompressed_size: le32(b, c + 24) as usize,
                    local_header_offset: le32(b, c + 42) as usize,
                },
                c + 46 + le16(b, c + 28),
            ),
        )
    }
}

/// Walking `remaining` central-directory entries from `cursor`, which must
/// stay within `cend`: the single entry named `wanted`, if any.
#[verifier::opaque]
pub open spec fn walk_central(
    b: Seq<u8>,
    cursor: int,
    remaining: nat,
    cend: int,
    wanted: Seq<u8>,
    found: Option<ZipEntry>,
) -> Option<Option<ZipEntry>>
    decreases remaining,
{
    if remaining == 0 {
        Some(found)
    } else {
        match central_entry(b, cursor) {
            None => None,
            Some(e) => {
                let name_end = e.1;
                if name_end > b.len() {
                    None
                } else {
                    let matched = b.subrange(cursor + 46, name_end) == wanted;
                    if matched && found is Some {
                        None
                    } else {
                        let next = name_end + le16(b, cursor + 30) + le16(b, cursor + 32);
                        if next > cend {
                            None
                        } else {
                            walk_central(
                                b,
                                next,
                                (remaining - 1) as nat,
                                cend,
                                wanted,
                                if matched {
                                    Some(e.0)
                                } else {
                                    found
                                },
                            )
                        }
                    }
                }
            },
        }
    }
}

/// The central-directory entry named `wanted` in archive `b`.
pub open spec fn entry_spec(b: Seq<u8>, wanted: Seq<u8>) -> Option<ZipEntry> {
    match eocd_spec(b) {
        None => None,
        Some(e) => {
            if le16(b, e + 4) != 0 || le16(b, e + 6) != 0 {
                None
            } else if le16(b, e + 8) != le16(b, e + 10) || le16(b, e + 10) == 65535 {
                None
            } else {
                let cend = (le32(b, e + 16) + le32(b, e + 12)) as int;
                if cend > b.len() || cend > e {
                    None
                } else {
                    match walk_central(
                        b,
                        le32(b, e + 16) as int,
                        le16(b, e + 10),
                        cend,
                        wanted,
                        None,
                    ) {
                        Some(Some(entry)) => Some(entry),
                        _ => None,
                    }
                }
            }
        }
    }
}

/// The contents of `entry`, read through its local header, expanded and
/// checked against its size and CRC-32.
pub open spec fn extract_spec(b: Seq<u8>, entry: ZipEntry) -> Option<Seq<u8>> {
    let local = entry.local_header_offset as int;
    if local + 30 > b.len() || le32(b, local) != 0x0403_4b50 {
        None
    } else if le16(b, local + 6) % 2 == 1 || le16(b, local + 8) != entry.compression {
        None
    } else {
        let start = local + 30 + le16(b, local + 26) + le16(b, local + 28);
        let end = start + entry.compressed_size;
        if end > b.len() {
            None
        } else {
            let compressed = b.subrange(start, end);
            let output = if entry.compression == 0 {
                Some(compressed)
            } else if entry.compression == 8 {
                inflate(compressed, entry.uncompressed_size as nat, MAX_METADATA_BYTES as nat)
            } else {
                None
            };
            match output {
                None => None,
                Some(o) => if o.len() == entry.uncompressed_size && crc32_spec(o) == entry.crc32 {
                    Some(o)
                } else {
                    None
                },
            }
        }
    }
}

/// The contents of the entry named `wanted`, within the metadata limits.
pub open spec fn zip_entry_spec(b: Seq<u8>, wanted: Seq<u8>) -> Option<Seq<u8>> {
    match entry_spec(b, wanted) {
        None => None,
        Some(entry) => if entry.compressed_size > MAX_METADATA_COMPRESSED_BYTES
            || entry.uncompressed_size > MAX_METADATA_BYTES {
            None
        } else {
            extract_spec(b, entry)
        },
    }
}


/// Reads the fixed part of the central-directory entry at `cursor`.
fn read_central_entry(bytes: &[u8], cursor: usize) -> (r: Result<(ZipEntry, usize, usize, usize), ZipError>)
    requires
        bytes@.len() <= isize::MAX,
        cursor <= bytes@.len(),
    ensures
        r is Ok <==> central_entry(bytes@, cursor as int) is Some,
        r matches Ok(v) ==> ({
            let e = central_entry(bytes@, cursor as int).unwrap();
            &&& v.0 == e.0
            &&& v.1 == e.1
            &&& v.2 == le16(bytes@, cursor + 30)
            &&& v.3 == le16(bytes@, cursor + 32)
        }),
{
    if bytes.len() - cursor < 46 {
        return Err(ZipError::Invalid);
    }
    let signature = match read_u32(bytes, cursor) { Ok(v) => v, Err(_) => { return Err(ZipError::Invalid); } };
    if signature != 0x0201_4b50 {
        return Err(ZipError::Invalid);
    }
    let flags = match read_u16(bytes, cursor + 8) { Ok(v) => v, Err(_) => { return Err(ZipError::Invalid); } };
    if flags % 2 == 1 {
        return Err(ZipError::Invalid);
    }
    let compression = match read_u16(bytes, cursor + 10) { Ok(v) => v, Err(_) => { return Err(ZipError::Invalid); } };
    let crc = match read_u32(bytes, cursor + 16) { Ok(v) => v, Err(_) => { return Err(ZipError::Invalid); } };
    let compressed_size = match read_u32(bytes, cursor + 20) { Ok(v) => v, Err(_) => { return Err(ZipError::Invalid); } };
    let uncompressed_size = match read_u32(bytes, cursor + 24) { Ok(v) => v, Err(_) => { return Err(ZipError::Invalid); } };
    let name_len = match read_u16(bytes, cursor + 28) { Ok(v) => v as usize, Err(_) => { return Err(ZipError::Invalid); } };
    let extra_len = match read_u16(bytes, cursor + 30) { Ok(v) => v as usize, Err(_) => { return Err(ZipError::Invalid); } };
    let comment_len = match read_u16(bytes, cursor + 32) { Ok(v) => v as usize, Err(_) => { return Err(ZipError::Invalid); } };
    let disk_start = match read_u16(bytes, cursor + 34) { Ok(v) => v, Err(_) => { return Err(ZipError::Invalid); } };
    let local_offset = match read_u32(bytes, cursor + 42) { Ok(v) => v, Err(_) => { return Err(ZipError::Invalid); } };
    if compressed_size == 0xffff_ffff || uncompressed_size == 0xffff_ffff || local_offset == 0xffff_ffff
        || disk_start != 0 {
        return Err(ZipError::Invalid);
    }
    let entry = ZipEntry {
        compression,
        crc32: crc,
        compressed_size: compressed_size as usize,
        uncompressed_size: uncompressed_size as usize,
        local_header_offset: local_offset as usize,
    };
    Ok((entry, cursor + 46 + name_len, extra_len, comment_len))
}

/// Whether `bytes[start..end]` equals `wanted`.
fn slice_equals(bytes: &[u8], start: usize, end: usize, wanted: &[u8]) -> (r: bool)
    requires
        start <= end <= bytes@.len(),
    ensures
        r == (bytes@.subrange(start as int, end as int) == wanted@),
{
    if end - start != wanted.len() {
        return false;
    }
    let mut i: usize = 0;
    while i < wanted.len()
        invariant
            start <= end <= bytes@.len(),
            end - start == wanted@.len(),
            i <= wanted@.len(),
            forall|j: int| 0 <= j < i ==> bytes@[start + j] == wanted@[j],
        decreases wanted@.len() - i,
    {
        if bytes[start + i] != wanted[i] {
            assert(bytes@.subrange(start as int, end as int)[i as int] != wanted@[i as int]);
            return false;
        }
        i = i + 1;
    }
    assert(bytes@.subrange(start as int, end as int) =~= wanted@);
    true
}

/// Processes the central-directory entry at `cursor`.
fn walk_one(
    bytes: &[u8],
    cursor: usize,
    central_end: usize,
    wanted: &[u8],
    found: Option<ZipEntry>,
    remaining: Ghost<nat>,
) -> (r: Result<(usize, Option<ZipEntry>), ZipError>)
    requires
        bytes@.len() <= isize::MAX,
        cursor <= central_end <= bytes@.len(),
    ensures
        r is Err ==> walk_central(bytes@, cursor as int, remaining@ + 1, central_end as int, wanted@, found) is None,
        r matches Ok(v) ==> v.0 <= central_end && walk_central(bytes@, cursor as int, remaining@ + 1, central_end as int, wanted@, found)
            == walk_central(bytes@, v.0 as int, remaining@, central_end as int, wanted@, v.1),
{
    reveal(walk_central);
    let (entry, name_end, extra_len, comment_len) = read_central_entry(bytes, cursor)?;
    if name_end > bytes.len() {
        return Err(ZipError::Invalid);
    }
    let matched = slice_equals(bytes, cursor + 46, name_end, wanted);
    let mut next_found = found;
    if matched {
        if found.is_some() {
            return Err(ZipError::Invalid);
        }
        next_found = Some(entry);
    }
    if name_end > central_end || extra_len > central_end - name_end || comment_len > central_end - name_end - extra_len {
        return Err(ZipError::Invalid);
    }
    Ok((name_end + extra_len + comment_len, next_found))
}

/// Finds the central-directory entry named `wanted`.
fn find_entry(bytes: &[u8], wanted: &[u8]) -> (r: Result<ZipEntry, ZipError>)
    requires
        bytes@.len() <= isize::MAX,
    ensures
        r is Ok <==> entry_spec(bytes@, wanted@) is Some,
        r matches Ok(e) ==> e == entry_spec(bytes@, wanted@).unwrap(),
{
    let eocd = find_eocd(bytes)?;
    let ghost b = bytes@;
    let r4 = match read_u16(bytes, eocd + 4) { Ok(v) => v, Err(_) => { return Err(ZipError::Invalid); } };
    let r6 = match read_u16(bytes, eocd + 6) { Ok(v) => v, Err(_) => { return Err(ZipError::Invalid); } };
    if r4 != 0 || r6 != 0 {
        return Err(ZipError::Invalid);
    }
    let entries_on_disk = match read_u16(bytes, eocd + 8) { Ok(v) => v, Err(_) => { return Err(ZipError::Invalid); } };
    let total_entries = match read_u16(bytes, eocd + 10) { Ok(v) => v, Err(_) => { return Err(ZipError::Invalid); } };
    if entries_on_disk != total_entries || total_entries == 65535 {
        return Err(ZipError::Invalid);
    }
    let central_size = match read_u32(bytes, eocd + 12) { Ok(v) => v as usize, Err(_) => { return Err(ZipError::Invalid); } };
    let central_offset = match read_u32(bytes, eocd + 16) { Ok(v) => v as usize, Err(_) => { return Err(ZipError::Invalid); } };
    if central_offset > bytes.len() || central_size > bytes.len() - central_offset {
        return Err(ZipError::Invalid);
    }
    let central_end = central_offset + central_size;
    if central_end > eocd {
        return Err(ZipError::Invalid);
    }
    let mut cursor = central_offset;
    let mut found: Option<ZipEntry> = None;
    let mut index: u16 = 0;
    let ghost cend = central_end as int;
    while index < total_entries
        invariant
            b == bytes@,
            b.len() <= isize::MAX,
            cursor <= central_end <= b.len(),
            cend == central_end,
            index <= total_entries,
            walk_central(b, central_offset as int, total_entries as nat, cend, wanted@, None)
                == walk_central(b, cursor as int, (total_entries - index) as nat, cend, wanted@, found),
            entry_spec(b, wanted@) == match walk_central(b, central_offset as int, total_entries as nat, cend, wanted@, None) {
                Some(Some(e)) => Some(e),
                _ => None,
            },
        decreases total_entries - index,
    {
        let ghost rem = (total_entries - index - 1) as nat;
        assert(rem + 1 == (total_entries - index) as nat);
        let (next, next_found) = match walk_one(bytes, cursor, central_end, wanted, found, Ghost(rem)) {
            Ok(v) => v,
            Err(e) => {
                return Err(e);
            },
        };
        cursor = next;
        found = next_found;
        index = index + 1;
    }
    proof {
        reveal(walk_central);
    }
    match found {
        Some(entry) => Ok(entry),
        None => Err(ZipError::Invalid),
    }
}

/// Reads, expands and checks the data of `entry`.
fn extract_zip_entry(bytes: &[u8], entry: &ZipEntry) -> (r: Result<Vec<u8>, ZipError>)
    requires
        bytes@.len() <= isize::MAX,
        entry.compressed_size <= MAX_METADATA_COMPRESSED_BYTES,
    ensures
        r is Ok <==> extract_spec(bytes@, *entry) is Some,
        r matches Ok(v) ==> v@ == extract_spec(bytes@, *entry).unwrap(),
{
    let local = entry.local_header_offset;
    if local > bytes.len() || bytes.len() - local < 30 {
        return Err(ZipError::Invalid);
    }
    let signature = match read_u32(bytes, local) { Ok(v) => v, Err(_) => { return Err(ZipError::Invalid); } };
    if signature != 0x0403_4b50 {
        return Err(ZipError::Invalid);
    }
    let flags = match read_u16(bytes, local + 6) { Ok(v) => v, Err(_) => { return Err(ZipError::Invalid); } };
    let method = match read_u16(bytes, local + 8) { Ok(v) => v, Err(_) => { return Err(ZipError::Invalid); } };
    if flags % 2 == 1 || method != entry.compression {
        return Err(ZipError::Invalid);
    }
    let name_len = match read_u16(bytes, local + 26) { Ok(v) => v as usize, Err(_) => { return Err(ZipError::Invalid); } };
    let extra_len = match read_u16(bytes, local + 28) { Ok(v) => v as usize, Err(_) => { return Err(ZipError::Invalid); } };
    let data_start = local + 30 + name_len + extra_len;
    if data_start > bytes.len() || entry.compressed_size > bytes.len() - data_start {
        return Err(ZipError::Invalid);
    }
    let data_end = data_start + entry.compressed_size;
    let mut compressed: Vec<u8> = Vec::new();
    let mut i = data_start;
    while i < data_end
        invariant
            data_start <= i <= data_end <= bytes@.len(),
            compressed@ == bytes@.subrange(data_start as int, i as int),
        decreases data_end - i,
    {
        compressed.push(bytes[i]);
        assert(bytes@.subrange(data_start as int, i + 1) == bytes@.subrange(data_start as int, i as int).push(bytes@[i as int]));
        i = i + 1;
    }
    let output = if entry.compression == 0 {
        compressed
    } else if entry.compression == 8 {
        match inflate_raw(compressed.as_slice(), entry.uncompressed_size, MAX_METADATA_BYTES) {
            Ok(v) => v,
            Err(_) => {
                return Err(ZipError::Invalid);
            },
        }
    } else {
        return Err(ZipError::Invalid);
    };
    if output.len() != entry.uncompressed_size {
        return Err(ZipError::Invalid);
    }
    if crc32(output.as_slice()) != entry.crc32 {
        return Err(ZipError::Invalid);
    }
    Ok(output)
}

/// Reads the root entry named `wanted` out of an archive, enforcing the
/// metadata size limits and the entry's CRC-32.
pub fn read_zip_entry(bytes: &[u8], wanted: &str) -> (r: Result<Vec<u8>, ZipError>)
    requires
        bytes@.len() <= isize::MAX,
    ensures
        r is Ok <==> zip_entry_spec(bytes@, wanted.spec_bytes()) is Some,
        r matches Ok(v) ==> v@ == zip_entry_spec(bytes@, wanted.spec_bytes()).unwrap(),
{
    let entry = find_entry(bytes, wanted.as_bytes())?;
    if entry.compressed_size > MAX_METADATA_COMPRESSED_BYTES || entry.uncompressed_size > MAX_METADATA_BYTES {
        return Err(ZipError::Invalid);
    }
    extract_zip_entry(bytes, &entry)
}

/// The end record at `e` describes one disk and a consistent entry count.
pub open spec fn single_disk_end(b: Seq<u8>, e: int) -> bool {
    le16(b, e + 4) == 0 && le16(b, e + 6) == 0 && le16(b, e + 8) == le16(b, e + 10) && le16(b, e + 10) != 65535
}

/// The checks `v`, read as `entry`, passed: sizes within the metadata
/// bounds, stored or deflated as its local header also says, and exactly
/// the declared size and CRC-32.
pub open spec fn entry_checked(b: Seq<u8>, entry: ZipEntry, v: Seq<u8>) -> bool {
    let local = entry.local_header_offset as int;
    &&& entry.compressed_size <= MAX_METADATA_COMPRESSED_BYTES
    &&& entry.uncompressed_size <= MAX_METADATA_BYTES
    &&& entry.compression == 0 || entry.compression == 8
    &&& local + 30 <= b.len() && le32(b, local) == 0x0403_4b50
    &&& le16(b, local + 8) == entry.compression
    &&& le16(b, local + 6) % 2 == 0
    &&& v.len() == entry.uncompressed_size
    &&& crc32_spec(v) == entry.crc32
}

/// What an entry read out of an archive has passed: the archive has its end
/// record on a single disk with a consistent entry count, the central
/// directory holds the entry under the wanted name, and the entry passed
/// every check of `entry_checked`.
pub proof fn lemma_read_entry_passed_every_check(b: Seq<u8>, wanted: Seq<u8>)
    requires
        zip_entry_spec(b, wanted) is Some,
    ensures
        eocd_spec(b) is Some,
        single_disk_end(b, eocd_spec(b)->Some_0),
        entry_spec(b, wanted) is Some,
        entry_checked(b, entry_spec(b, wanted)->Some_0, zip_entry_spec(b, wanted)->Some_0),
{
}

/// The little-endian bytes of a 16-bit value.
pub open spec fn u16_bytes(v: u16) -> Seq<u8> {
    seq![(v & 0xff) as u8, ((v >> 8u16) & 0xff) as u8]
}

/// The little-endian bytes of a 32-bit value.
pub open spec fn u32_bytes(v: u32) -> Seq<u8> {
    seq![(v & 0xff) as u8, ((v >> 8u32) & 0xff) as u8, ((v >> 16u32) & 0xff) as u8, ((v >> 24u32) & 0xff) as u8]
}

proof fn lemma_le16_of_bytes(b: Seq<u8>, o: int, v: u16)
    requires
        0 <= o,
        o + 2 <= b.len(),
        b.subrange(o, o + 2) == u16_bytes(v),
    ensures
        le16(b, o) == v,
{
    assert(b[o] == b.subrange(o, o + 2)[0]);
    assert(b[o + 1] == b.subrange(o, o + 2)[1]);
    assert((v & 0xff) as u8 as nat + 256 * (((v >> 8u16) & 0xff) as u8 as nat) == v as nat) by (bit_vector);
}

proof fn lemma_le32_of_bytes(b: Seq<u8>, o: int, v: u32)
    requires
        0 <= o,
        o + 4 <= b.len(),
        b.subrange(o, o + 4) == u32_bytes(v),
    ensures
        le32(b, o) == v,
{
    let s = b.subrange(o, o + 4);
    assert(b[o] == s[0] && b[o + 1] == s[1] && b[o + 2] == s[2] && b[o + 3] == s[3]);
    assert((v & 0xff) as u8 as nat + 256 * (((v >> 8u32) & 0xff) as u8 as nat) + 65536 * (((v >> 16u32) & 0xff) as u8
        as nat) + 16777216 * (((v >> 24u32) & 0xff) as u8 as nat) == v as nat) by (bit_vector);
}

/// The local header of a stored single entry.
pub open spec fn stored_local_header(name: Seq<u8>, c: Seq<u8>) -> Seq<u8> {
    seq![0x50u8, 0x4bu8, 3u8, 4u8, 20u8, 0u8, 0u8, 0u8, 0u8, 0u8, 0u8, 0u8, 0u8, 0u8] + u32_bytes(crc32_spec(c))
        + u32_bytes(c.len() as u32) + u32_bytes(c.len() as u32) + u16_bytes(name.len() as u16) + seq![0u8, 0u8]
}

/// The central-directory entry of a stored single entry at offset 0.
pub open spec fn stored_central_entry(name: Seq<u8>, c: Seq<u8>) -> Seq<u8> {
    seq![0x50u8, 0x4bu8, 1u8, 2u8, 20u8, 0u8, 20u8, 0u8, 0u8, 0u8, 0u8, 0u8, 0u8, 0u8, 0u8, 0u8] + u32_bytes(
        crc32_spec(c),
    ) + u32_bytes(c.len() as u32) + u32_bytes(c.len() as u32) + u16_bytes(name.len() as u16) + seq![
        0u8,
        0u8,
        0u8,
        0u8,
        0u8,
        0u8,
        0u8,
        0u8,
        0u8,
        0u8,
        0u8,
        0u8,
    ] + u32_bytes(0)
}

/// The end record of an archive of one entry.
pub open spec fn stored_end_record(name: Seq<u8>, c: Seq<u8>) -> Seq<u8> {
    seq![0x50u8, 0x4bu8, 5u8, 6u8, 0u8, 0u8, 0u8, 0u8] + u16_bytes(1) + u16_bytes(1) + u32_bytes(
        (46 + name.len()) as u32,
    ) + u32_bytes((30 + name.len() + c.len()) as u32) + seq![0u8, 0u8]
}

/// An archive holding `c`, stored uncompressed under `name`, as its only
/// entry, with no comment.
#[verifier::opaque]
pub open spec fn stored_archive(name: Seq<u8>, c: Seq<u8>) -> Seq<u8> {
    stored_local_header(name, c) + name + c + stored_central_entry(name, c) + name + stored_end_record(name, c)
}

proof fn lemma_local_header_fields(name: Seq<u8>, c: Seq<u8>)
    requires
        name.len() <= 65535,
        c.len() <= MAX_METADATA_BYTES,
    ensures
        ({
            let h = stored_local_header(name, c);
            &&& h.len() == 30
            &&& h[0] == 0x50u8 && h[1] == 0x4bu8 && h[2] == 3u8 && h[3] == 4u8
            &&& le16(h, 6) == 0 && le16(h, 8) == 0 && le16(h, 26) == name.len() && le16(h, 28) == 0
        }),
{
    let h = stored_local_header(name, c);
    assert(h.subrange(26, 28) =~= u16_bytes(name.len() as u16));
    lemma_le16_of_bytes(h, 26, name.len() as u16);
}

proof fn lemma_central_entry_fields(name: Seq<u8>, c: Seq<u8>)
    requires
        name.len() <= 65535,
        c.len() <= MAX_METADATA_BYTES,
    ensures
        ({
            let h = stored_central_entry(name, c);
            let m = c.len();
            &&& h.len() == 46
            &&& h[0] == 0x50u8 && h[1] == 0x4bu8 && h[2] == 1u8 && h[3] == 2u8
            &&& le16(h, 8) == 0 && le16(h, 10) == 0 && le32(h, 16) == crc32_spec(c)
            &&& le32(h, 20) == m && le32(h, 24) == m && le16(h, 28) == name.len()
            &&& le16(h, 30) == 0 && le16(h, 32) == 0 && le16(h, 34) == 0 && le32(h, 42) == 0
        }),
{
    let h = stored_central_entry(name, c);
    let len = c.len() as u32;
    assert(h.subrange(16, 20) =~= u32_bytes(crc32_spec(c)));
    lemma_le32_of_bytes(h, 16, crc32_spec(c));
    assert(h.subrange(20, 24) =~= u32_bytes(len));
    lemma_le32_of_bytes(h, 20, len);
    assert(h.subrange(24, 28) =~= u32_bytes(len));
    lemma_le32_of_bytes(h, 24, len);
    assert(h.subrange(28, 30) =~= u16_bytes(name.len() as u16));
    lemma_le16_of_bytes(h, 28, name.len() as u16);
    assert(h.subrange(42, 46) =~= u32_bytes(0));
    lemma_le32_of_bytes(h, 42, 0);
}

proof fn lemma_end_record_fields(name: Seq<u8>, c: Seq<u8>)
    requires
        name.len() <= 65535,
        c.len() <= MAX_METADATA_BYTES,
    ensures
        ({
            let h = stored_end_record(name, c);
            &&& h.len() == 22
            &&& h[0] == 0x50u8 && h[1] == 0x4bu8 && h[2] == 5u8 && h[3] == 6u8
            &&& le16(h, 4) == 0 && le16(h, 6) == 0 && le16(h, 8) == 1 && le16(h, 10) == 1
            &&& le32(h, 12) == 46 + name.len() && le32(h, 16) == 30 + name.len() + c.len() && le16(h, 20) == 0
        }),
{
    let h = stored_end_record(name, c);
    assert(h.subrange(8, 10) =~= u16_bytes(1));
    lemma_le16_of_bytes(h, 8, 1);
    assert(h.subrange(10, 12) =~= u16_bytes(1));
    lemma_le16_of_bytes(h, 10, 1);
    assert(h.subrange(12, 16) =~= u32_bytes((46 + name.len()) as u32));
    lemma_le32_of_bytes(h, 12, (46 + name.len()) as u32);
    assert(h.subrange(16, 20) =~= u32_bytes((30 + name.len() + c.len()) as u32));
    lemma_le32_of_bytes(h, 16, (30 + name.len() + c.len()) as u32);
}

/// The fields of a stored single-entry archive read back as written.
#[verifier::rlimit(40)]
proof fn lemma_stored_archive_fields(name: Seq<u8>, c: Seq<u8>)
    requires
        name.len() <= 65535,
        c.len() <= MAX_METADATA_BYTES,
    ensures
        ({
            let b = stored_archive(name, c);
            let n = name.len() as int;
            let m = c.len() as int;
            let cd = 30 + n + m;
            let e = cd + 46 + n;
            &&& b.len() == e + 22
            &&& b.subrange(30 + n, cd) == c
            &&& b.subrange(cd + 46, e) == name
            &&& b[0] == 0x50u8 && b[1] == 0x4bu8 && b[2] == 3u8 && b[3] == 4u8
            &&& le16(b, 6) == 0 && le16(b, 8) == 0 && le16(b, 26) == n && le16(b, 28) == 0
            &&& b[cd] == 0x50u8 && b[cd + 1] == 0x4bu8 && b[cd + 2] == 1u8 && b[cd + 3] == 2u8
            &&& le16(b, cd + 8) == 0 && le16(b, cd + 10) == 0 && le32(b, cd + 16) == crc32_spec(c)
            &&& le32(b, cd + 20) == m && le32(b, cd + 24) == m && le16(b, cd + 28) == n
            &&& le16(b, cd + 30) == 0 && le16(b, cd + 32) == 0 && le16(b, cd + 34) == 0 && le32(b, cd + 42) == 0
            &&& b[e] == 0x50u8 && b[e + 1] == 0x4bu8 && b[e + 2] == 5u8 && b[e + 3] == 6u8
            &&& le16(b, e + 4) == 0 && le16(b, e + 6) == 0 && le16(b, e + 8) == 1 && le16(b, e + 10) == 1
            &&& le32(b, e + 12) == 46 + n && le32(b, e + 16) == cd && le16(b, e + 20) == 0
        }),
{
    reveal(stored_archive);
    let b = stored_archive(name, c);
    let n = name.len() as int;
    let m = c.len() as int;
    let cd = 30 + n + m;
    let e = cd + 46 + n;
    let lh = stored_local_header(name, c);
    let ce = stored_central_entry(name, c);
    let er = stored_end_record(name, c);
    lemma_local_header_fields(name, c);
    lemma_central_entry_fields(name, c);
    lemma_end_record_fields(name, c);
    assert(b.len() == e + 22);
    assert forall|k: int| 0 <= k < 30 implies b[k] == lh[k] by {}
    assert forall|k: int| 0 <= k < 46 implies #[trigger] b[cd + k] == ce[k] by {}
    assert forall|k: int| 0 <= k < 22 implies #[trigger] b[e + k] == er[k] by {}
    assert(b.subrange(30 + n, cd) =~= c);
    assert(b.subrange(cd + 46, e) =~= name);
}

/// The central-directory entry of a stored single-entry archive.
pub open spec fn stored_entry(c: Seq<u8>) -> ZipEntry {
    ZipEntry {
        compression: 0,
        crc32: crc32_spec(c),
        compressed_size: c.len() as usize,
        uncompressed_size: c.len() as usize,
        local_header_offset: 0,
    }
}

proof fn lemma_end_record_found(b: Seq<u8>, e: int)
    requires
        0 <= e,
        b.len() == e + 22,
        b[e] == 0x50u8 && b[e + 1] == 0x4bu8 && b[e + 2] == 5u8 && b[e + 3] == 6u8,
        le16(b, e + 20) == 0,
    ensures
        eocd_spec(b) == Some(e),
{
    assert(is_eocd_at(b, e));
}

proof fn lemma_stored_end_found(name: Seq<u8>, c: Seq<u8>)
    requires
        name.len() <= 65535,
        c.len() <= MAX_METADATA_BYTES,
    ensures
        eocd_spec(stored_archive(name, c)) == Some(30 + 2 * name.len() + c.len() + 46int),
{
    lemma_stored_archive_fields(name, c);
    lemma_end_record_found(stored_archive(name, c), 30 + 2 * name.len() + c.len() + 46int);
}

proof fn lemma_single_entry_found(b: Seq<u8>, cd: int, e: int, name: Seq<u8>, c: Seq<u8>, w: Seq<u8>)
    requires
        0 <= cd,
        e == cd + 46 + name.len(),
        b.len() == e + 22,
        eocd_spec(b) == Some(e),
        b.subrange(cd + 46, e) == name,
        c.len() <= MAX_METADATA_BYTES,
        b[cd] == 0x50u8 && b[cd + 1] == 0x4bu8 && b[cd + 2] == 1u8 && b[cd + 3] == 2u8,
        le16(b, cd + 8) == 0 && le16(b, cd + 10) == 0 && le32(b, cd + 16) == crc32_spec(c),
        le32(b, cd + 20) == c.len() && le32(b, cd + 24) == c.len() && le16(b, cd + 28) == name.len(),
        le16(b, cd + 30) == 0 && le16(b, cd + 32) == 0 && le16(b, cd + 34) == 0 && le32(b, cd + 42) == 0,
        le16(b, e + 4) == 0 && le16(b, e + 6) == 0 && le16(b, e + 8) == 1 && le16(b, e + 10) == 1,
        le32(b, e + 12) == 46 + name.len() && le32(b, e + 16) == cd,
    ensures
        entry_spec(b, w) == if w == name {
            Some(stored_entry(c))
        } else {
            None
        },
{
    let entry = stored_entry(c);
    assert(central_entry(b, cd) == Some((entry, e)));
    reveal_with_fuel(walk_central, 2);
    if w == name {
        assert(walk_central(b, cd, 1, e, w, None) == Some(Some(entry)));
    } else {
        assert(walk_central(b, cd, 1, e, w, None) == Some(None::<ZipEntry>));
    }
}

proof fn lemma_stored_entry_found(name: Seq<u8>, c: Seq<u8>, w: Seq<u8>)
    requires
        name.len() <= 65535,
        c.len() <= MAX_METADATA_BYTES,
    ensures
        entry_spec(stored_archive(name, c), w) == if w == name {
            Some(stored_entry(c))
        } else {
            None
        },
{
    lemma_stored_archive_fields(name, c);
    lemma_stored_end_found(name, c);
    let cd = 30 + name.len() + c.len() as int;
    lemma_single_entry_found(stored_archive(name, c), cd, cd + 46 + name.len(), name, c, w);
}

proof fn lemma_stored_local_fields(name: Seq<u8>, c: Seq<u8>)
    requires
        name.len() <= 65535,
        c.len() <= MAX_METADATA_BYTES,
    ensures
        ({
            let b = stored_archive(name, c);
            let n = name.len() as int;
            let m = c.len() as int;
            &&& 30 + n + m <= b.len()
            &&& b.subrange(30 + n, 30 + n + m) == c
            &&& le32(b, 0) == 0x0403_4b50
            &&& le16(b, 6) == 0 && le16(b, 8) == 0 && le16(b, 26) == n && le16(b, 28) == 0
        }),
{
    lemma_stored_archive_fields(name, c);
}

proof fn lemma_stored_entry_extracted(name: Seq<u8>, c: Seq<u8>)
    requires
        name.len() <= 65535,
        c.len() <= MAX_METADATA_BYTES,
    ensures
        extract_spec(stored_archive(name, c), stored_entry(c)) == Some(c),
{
    lemma_stored_local_fields(name, c);
    lemma_stored_bytes_extracted(stored_archive(name, c), name.len() as int, c);
}

proof fn lemma_stored_bytes_extracted(b: Seq<u8>, n: int, c: Seq<u8>)
    requires
        0 <= n,
        c.len() <= MAX_METADATA_BYTES,
        30 + n + c.len() <= b.len(),
        b.subrange(30 + n, 30 + n + c.len()) == c,
        le32(b, 0) == 0x0403_4b50,
        le16(b, 6) == 0 && le16(b, 8) == 0 && le16(b, 26) == n && le16(b, 28) == 0,
    ensures
        extract_spec(b, stored_entry(c)) == Some(c),
{
}

/// Reading the single entry of a stored archive gives back its contents
/// under its own name, and nothing under any other name.
pub proof fn lemma_stored_archive_round_trip(name: Seq<u8>, c: Seq<u8>, other: Seq<u8>)
    requires
        name.len() <= 65535,
        c.len() <= MAX_METADATA_BYTES,
        other != name,
    ensures
        zip_entry_spec(stored_archive(name, c), name) == Some(c),
        zip_entry_spec(stored_archive(name, c), other) is None,
{
    lemma_stored_entry_found(name, c, name);
    lemma_stored_entry_found(name, c, other);
    lemma_stored_entry_extracted(name, c);
}

/// The names of the `remaining` central-directory entries from `cursor`, in
/// order, when every one of them is present, supported and within `cend`.
pub open spec fn central_names(b: Seq<u8>, cursor: int, remaining: nat, cend: int) -> Option<Seq<Seq<u8>>>
    decreases remaining,
{
    if remaining == 0 {
        Some(Seq::empty())
    } else {
        match central_entry(b, cursor) {
            None => None,
            Some(e) => {
                let name_end = e.1;
                let next = name_end + le16(b, cursor + 30) + le16(b, cursor + 32);
                if name_end > b.len() || next > cend {
                    None
                } else {
                    match central_names(b, next, (remaining - 1) as nat, cend) {
                        None => None,
                        Some(rest) => Some(seq![b.subrange(cursor + 46, name_end)] + rest),
                    }
                }
            },
        }
    }
}

/// How many of `names` are `wanted`.
pub open spec fn name_count(names: Seq<Seq<u8>>, wanted: Seq<u8>) -> nat
    decreases names.len(),
{
    if names.len() == 0 {
        0
    } else {
        (if names[0] == wanted {
            1nat
        } else {
            0nat
        }) + name_count(names.drop_first(), wanted)
    }
}

/// One when an entry was already found.
pub open spec fn found_count(found: Option<ZipEntry>) -> nat {
    if found is Some {
        1
    } else {
        0
    }
}

/// The central directory of the archive whose end record is at `e`, as the
/// end record describes it.
pub open spec fn directory_names(b: Seq<u8>, e: int) -> Option<Seq<Seq<u8>>> {
    central_names(b, le32(b, e + 16) as int, le16(b, e + 10), (le32(b, e + 16) + le32(b, e + 12)) as int)
}

proof fn lemma_walk_names(b: Seq<u8>, cursor: int, remaining: nat, cend: int, wanted: Seq<u8>, found: Option<ZipEntry>)
    ensures
        walk_central(b, cursor, remaining, cend, wanted, found) is Some ==> {
            &&& central_names(b, cursor, remaining, cend) is Some
            &&& name_count(central_names(b, cursor, remaining, cend)->Some_0, wanted) + found_count(found) <= 1
            &&& (walk_central(b, cursor, remaining, cend, wanted, found)->Some_0 is Some <==> name_count(
                central_names(b, cursor, remaining, cend)->Some_0,
                wanted,
            ) + found_count(found) == 1)
        },
        central_names(b, cursor, remaining, cend) is Some && name_count(
            central_names(b, cursor, remaining, cend)->Some_0,
            wanted,
        ) + found_count(found) >= 2 ==> walk_central(b, cursor, remaining, cend, wanted, found) is None,
    decreases remaining,
{
    reveal(walk_central);
    if remaining > 0 {
        match central_entry(b, cursor) {
            None => {},
            Some(e) => {
                let name_end = e.1;
                let next = name_end + le16(b, cursor + 30) + le16(b, cursor + 32);
                if name_end <= b.len() {
                    let matched = b.subrange(cursor + 46, name_end) == wanted;
                    let found2 = if matched {
                        Some(e.0)
                    } else {
                        found
                    };
                    lemma_walk_names(b, next, (remaining - 1) as nat, cend, wanted, found2);
                    if let Some(rest) = central_names(b, next, (remaining - 1) as nat, cend) {
                        if next <= cend {
                            let ns = seq![b.subrange(cursor + 46, name_end)] + rest;
                            assert(ns.drop_first() =~= rest);
                            assert(ns[0] == b.subrange(cursor + 46, name_end));
                        }
                    }
                }
            },
        }
    }
}

/// An entry read out of an archive is the only one of its name: the
/// central directory that the end record describes is well formed, and
/// lists the wanted name exactly once.
pub proof fn lemma_read_entry_is_unique(b: Seq<u8>, wanted: Seq<u8>)
    requires
        zip_entry_spec(b, wanted) is Some,
    ensures
        directory_names(b, eocd_spec(b)->Some_0) is Some,
        name_count(directory_names(b, eocd_spec(b)->Some_0)->Some_0, wanted) == 1,
{
    let e = eocd_spec(b)->Some_0;
    lemma_walk_names(b, le32(b, e + 16) as int, le16(b, e + 10), (le32(b, e + 16) + le32(b, e + 12)) as int, wanted, None);
}

/// A name that the central directory lists twice or more is never read,
/// and neither is any entry of an archive that spans disks, or whose end
/// record carries the ZIP64 entry-count marker.
pub proof fn lemma_duplicate_and_multi_disk_refused(b: Seq<u8>, wanted: Seq<u8>)
    requires
        eocd_spec(b) is Some,
        !single_disk_end(b, eocd_spec(b)->Some_0) || (directory_names(b, eocd_spec(b)->Some_0) is Some
            && name_count(directory_names(b, eocd_spec(b)->Some_0)->Some_0, wanted) >= 2),
    ensures
        zip_entry_spec(b, wanted) is None,
{
    let e = eocd_spec(b)->Some_0;
    lemma_walk_names(b, le32(b, e + 16) as int, le16(b, e + 10), (le32(b, e + 16) + le32(b, e + 12)) as int, wanted, None);
}

} // verus!
