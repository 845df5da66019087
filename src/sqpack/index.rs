//! Archive and index headers, and the per-chunk index of file locations.
use vstd::prelude::*;
use vstd::string::StringSliceAdditionalSpecFns;
use crate::binary::{fits, le_u32, le_u64, read_u32, read_u64, read_u8};
use crate::error::{Error, ErrorValue, Result};
use crate::sqpack::path::{path_hash, path_hash_spec};

verus! {

/// Size of an index header.
pub const INDEX_HEADER_SIZE: usize = 1024;
/// Size of one index entry.
pub const INDEX_ENTRY_SIZE: usize = 16;

/// The platform an archive was built for.
#[derive(Debug, Clone, Copy, PartialEq, Eq, Structural)]
pub enum PlatformId {
    Win32,
    PS3,
    PS4,
}

/// The header that starts every archive file.
#[derive(Debug, Clone, Copy, PartialEq, Eq, Structural)]
pub struct SqPackHeader {
    pub platform: PlatformId,
    /// Size of this header; what follows it starts there.
    pub size: u32,
    pub version: u32,
    pub kind: u32,
}

/// A region of a file.
#[derive(Debug, Clone, Copy, PartialEq, Eq, Structural)]
pub struct Section {
    pub offset: u32,
    pub size: u32,
}

/// The header of an index file, after the archive header.
#[derive(Debug, Clone, Copy, PartialEq, Eq, Structural)]
pub struct IndexHeader {
    pub size: u32,
    pub version: u32,
    /// Where the table of file entries lies.
    pub index_data: Section,
    pub data_file_count: u32,
}

/// Whether `b` starts with `SqPack\0\0`.
pub open spec fn sqpack_magic(b: Seq<u8>) -> bool {
    &&& b.len() >= 8
    &&& b[0] == 0x53u8 && b[1] == 0x71u8 && b[2] == 0x50u8 && b[3] == 0x61u8
    &&& b[4] == 0x63u8 && b[5] == 0x6Bu8 && b[6] == 0u8 && b[7] == 0u8
}

pub open spec fn platform_of(code: u8) -> Option<PlatformId> {
    if code == 0 {
        Some(PlatformId::Win32)
    } else if code == 1 {
        Some(PlatformId::PS3)
    } else if code == 2 {
        Some(PlatformId::PS4)
    } else {
        None
    }
}

/// Whether `b` starts with a well-formed archive header.
pub open spec fn sqpack_header_valid(b: Seq<u8>) -> bool {
    fits(b, 0, 24) && sqpack_magic(b) && platform_of(b[8]) is Some
}

pub open spec fn sqpack_header_of(b: Seq<u8>) -> SqPackHeader {
    SqPackHeader {
        platform: platform_of(b[8])->Some_0,
        size: le_u32(b, 12) as u32,
        version: le_u32(b, 16) as u32,
        kind: le_u32(b, 20) as u32,
    }
}

fn invalid(structure: &str, why: &str) -> (r: Error)
    ensures
        r is Invalid,
{
    Error::Invalid(ErrorValue::Structure(structure.to_string()), why.to_string())
}

impl SqPackHeader {
    /// Parses the archive header; a bad magic, an unknown platform or short
    /// input is `Invalid`.
    pub fn read(b: &[u8]) -> (r: Result<SqPackHeader>)
        ensures
            r is Ok <==> sqpack_header_valid(b@),
            r matches Ok(h) ==> h == sqpack_header_of(b@),
            r matches Err(e) ==> e is Invalid,
    {
        let n: usize = b.len();
        if n < 24 {
            return Err(invalid("archive header", "truncated"));
        }
        if !(b[0] == 0x53u8 && b[1] == 0x71u8 && b[2] == 0x50u8 && b[3] == 0x61u8 && b[4] == 0x63u8
            && b[5] == 0x6Bu8 && b[6] == 0u8 && b[7] == 0u8) {
            return Err(invalid("archive header", "magic"));
        }
        let platform = match read_u8(b, 8) {
            0 => PlatformId::Win32,
            1 => PlatformId::PS3,
            2 => PlatformId::PS4,
            _ => return Err(invalid("archive header", "platform")),
        };
        Ok(SqPackHeader { platform, size: read_u32(b, 12), version: read_u32(b, 16), kind: read_u32(b, 20) })
    }
}

pub open spec fn index_header_of(b: Seq<u8>, at: int) -> IndexHeader {
    IndexHeader {
        size: le_u32(b, at) as u32,
        version: le_u32(b, at + 4) as u32,
        index_data: Section { offset: le_u32(b, at + 8) as u32, size: le_u32(b, at + 12) as u32 },
        data_file_count: le_u32(b, at + 80) as u32,
    }
}

impl IndexHeader {
    /// Parses the index header at `at`; it spans 1024 bytes, else `Invalid`.
    pub fn read(b: &[u8], at: usize) -> (r: Result<IndexHeader>)
        ensures
            r is Ok <==> fits(b@, at as int, INDEX_HEADER_SIZE as int),
            r matches Ok(h) ==> h == index_header_of(b@, at as int),
            r matches Err(e) ==> e is Invalid,
    {
        let n: usize = b.len();
        if at > n || INDEX_HEADER_SIZE > n - at {
            return Err(invalid("index header", "truncated"));
        }
        Ok(IndexHeader {
            size: read_u32(b, at),
            version: read_u32(b, at + 4),
            index_data: Section { offset: read_u32(b, at + 8), size: read_u32(b, at + 12) },
            data_file_count: read_u32(b, at + 80),
        })
    }
}

/// Where a file's data lies: which data file of the index, and at what offset.
#[derive(Debug, Clone, Copy, PartialEq, Eq, Structural)]
pub struct FileMetadata {
    pub is_synonym: bool,
    pub data_file_id: u8,
    pub offset: u64,
}

/// The meaning of a packed index value: bit 0 the synonym flag, bits 1 to 3
/// the data file, bits 4 to 31 the offset in units of 128 bytes.
pub open spec fn file_metadata_of(packed: u32) -> FileMetadata {
    FileMetadata {
        is_synonym: packed % 2 == 1,
        data_file_id: ((packed / 2) % 8) as u8,
        offset: ((packed / 16) * 128) as u64,
    }
}

impl FileMetadata {
    /// Unpacks an index value.
    pub fn read(input: u32) -> (r: FileMetadata)
        ensures
            r == file_metadata_of(input),
            r.data_file_id < 8,
            r.offset % 8 == 0,
    {
        FileMetadata {
            is_synonym: input % 2 == 1,
            data_file_id: ((input / 2) % 8) as u8,
            offset: (input / 16) as u64 * 128,
        }
    }
}

/// A file's location in the archive.
#[derive(Debug, Clone, Copy, PartialEq, Eq, Structural)]
pub struct Location {
    pub chunk_id: u8,
    pub data_file_id: u8,
    pub offset: u64,
}

/// The index of one chunk: `(path hash, packed value)` pairs in stored order.
#[derive(Debug)]
pub struct Index {
    pub entries: Vec<(u64, u32)>,
}

pub open spec fn index_entry_of(b: Seq<u8>, at: int, i: int) -> (u64, u32) {
    (le_u64(b, at + i * 16) as u64, le_u32(b, at + i * 16 + 8) as u32)
}

/// Whether `b` is a well-formed index file.
pub open spec fn index_valid(b: Seq<u8>) -> bool {
    &&& sqpack_header_valid(b)
    &&& fits(b, sqpack_header_of(b).size as int, INDEX_HEADER_SIZE as int)
    &&& ({
        let data = index_header_of(b, sqpack_header_of(b).size as int).index_data;
        fits(b, data.offset as int, data.size as int) && data.size % 16 == 0
    })
}

/// The entries of a well-formed index file.
pub open spec fn index_entries_of(b: Seq<u8>) -> Seq<(u64, u32)> {
    let data = index_header_of(b, sqpack_header_of(b).size as int).index_data;
    Seq::new((data.size / 16) as nat, |i: int| index_entry_of(b, data.offset as int, i))
}

/// The first entry listed under `hash`.
pub open spec fn find_hash(entries: Seq<(u64, u32)>, hash: u64) -> Option<int>
    decreases entries.len(),
{
    if entries.len() == 0 {
        None
    } else {
        match find_hash(entries.drop_last(), hash) {
            Some(i) => Some(i),
            None => if entries.last().0 == hash { Some(entries.len() - 1) } else { None },
        }
    }
}

pub proof fn lemma_find_hash(entries: Seq<(u64, u32)>, hash: u64)
    ensures
        find_hash(entries, hash) matches Some(i) ==> 0 <= i < entries.len() && entries[i].0 == hash
            && forall|j: int| 0 <= j < i ==> (#[trigger] entries[j]).0 != hash,
        find_hash(entries, hash) is None <==> forall|j: int| 0 <= j < entries.len() ==> (#[trigger] entries[j]).0 != hash,
    decreases entries.len(),
{
    if entries.len() > 0 {
        lemma_find_hash(entries.drop_last(), hash);
        assert forall|j: int| 0 <= j < entries.len() - 1 implies entries.drop_last()[j] == entries[j] by {}
    }
}

/// What an index lists under `hash`.
pub open spec fn lookup_spec(entries: Seq<(u64, u32)>, hash: u64) -> Option<FileMetadata> {
    match find_hash(entries, hash) {
        Some(i) => Some(file_metadata_of(entries[i].1)),
        None => None,
    }
}

/// Every hash that an index lists resolves to a data file below 8, at an
/// offset that is a multiple of 8.
pub proof fn lemma_listed_hash_locates(entries: Seq<(u64, u32)>, hash: u64)
    requires
        exists|i: int| 0 <= i < entries.len() && (#[trigger] entries[i]).0 == hash,
    ensures
        lookup_spec(entries, hash) matches Some(m) && m.data_file_id < 8 && m.offset % 8 == 0,
{
    lemma_find_hash(entries, hash);
    let i = find_hash(entries, hash)->Some_0;
    let packed = entries[i].1;
    assert((packed / 16) * 128 == 8 * ((packed / 16) * 16));
}

impl Index {
    /// Parses an index file: the archive header, the index header after it,
    /// and the entry table that the index header points at.
    pub fn read(b: &[u8]) -> (r: Result<Index>)
        ensures
            r is Ok <==> index_valid(b@),
            r matches Ok(index) ==> index.entries@ == index_entries_of(b@),
            r matches Err(e) ==> e is Invalid,
    {
        let n: usize = b.len();
        let sqpack = SqPackHeader::read(b)?;
        let header = IndexHeader::read(b, sqpack.size as usize)?;
        let at = header.index_data.offset as usize;
        let size = header.index_data.size as usize;
        if at > n || size > n - at {
            return Err(invalid("index", "entry table lies outside the file"));
        }
        if size % INDEX_ENTRY_SIZE != 0 {
            return Err(invalid("index", "entry table holds a partial entry"));
        }
        let count = size / INDEX_ENTRY_SIZE;
        let ghost bs = b@;
        let mut entries: Vec<(u64, u32)> = Vec::new();
        let mut i: usize = 0;
        while i < count
            invariant
                bs == b@,
                n == bs.len(),
                at + size <= n,
                count * 16 == size,
                i <= count,
                entries@ == Seq::new(i as nat, |j: int| index_entry_of(bs, at as int, j)),
            decreases count - i,
        {
            let e = at + i * INDEX_ENTRY_SIZE;
            let hash = read_u64(b, e);
            let packed = read_u32(b, e + 8);
            entries.push((hash, packed));
            i += 1;
            assert(entries@ =~= Seq::new(i as nat, |j: int| index_entry_of(bs, at as int, j)));
        }
        Ok(Index { entries })
    }

    /// What this index lists under `hash`; the first entry wins.
    pub fn lookup(&self, hash: u64) -> (r: Option<FileMetadata>)
        ensures
            r == lookup_spec(self.entries@, hash),
    {
        proof { lemma_find_hash(self.entries@, hash); }
        let mut i: usize = 0;
        while i < self.entries.len()
            invariant
                i <= self.entries@.len(),
                forall|j: int| 0 <= j < i ==> (#[trigger] self.entries@[j]).0 != hash,
            decreases self.entries@.len() - i,
        {
            let (h, packed) = self.entries[i];
            if h == hash {
                proof {
                    lemma_find_hash(self.entries@, hash);
                    if let Some(k) = find_hash(self.entries@, hash) {
                        if k > i { assert(self.entries@[i as int].0 != hash); }
                        if k < i { assert(self.entries@[k].0 != hash); }
                    }
                }
                return Some(FileMetadata::read(packed));
            }
            i += 1;
        }
        None
    }

    /// What this index lists under the hash of `path`.
    pub fn get_file_location(&self, path: &str) -> (r: Option<FileMetadata>)
        ensures
            r == lookup_spec(self.entries@, path_hash_spec(path.spec_bytes())),
    {
        self.lookup(path_hash(path))
    }
}

} // verus!
