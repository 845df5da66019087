//! Data files: a file header, then a chain of raw or deflated blocks.
use vstd::prelude::*;
use vstd::string::StringSliceAdditionalSpecFns;
use crate::binary::{copy_range, fits, le_u16, le_u32, read_u16, read_u32};
use crate::error::{Error, ErrorValue, Result};
use crate::sqpack::index::{index_entries_of, index_valid, lookup_spec, Index, Location};
use crate::sqpack::path::path_hash_spec;

verus! {

/// Size of the fixed part of a file header.
pub const FILE_HEADER_SIZE: usize = 24;
/// Size of one block descriptor.
pub const BLOCK_INFO_SIZE: usize = 8;
/// Size of the header in front of each block's payload.
pub const BLOCK_HEADER_SIZE: usize = 16;
/// Compressed size that marks a block stored raw.
pub const UNCOMPRESSED_SENTINEL: u32 = 32000;
/// File kind of standard content.
pub const STANDARD_FILE: u32 = 2;

/// The result of inflating a raw deflate stream; `None` when it is corrupt.
pub uninterp spec fn inflate_of(b: Seq<u8>) -> Option<Seq<u8>>;

/// Relies on flate2::read::DeflateDecoder read to its end: it decodes a raw
/// deflate stream, or fails on corrupt input, depending on the bytes alone.
#[verifier::external_body]
fn inflate(b: &[u8]) -> (r: Option<Vec<u8>>)
    ensures
        r is Some <==> inflate_of(b@) is Some,
        r matches Some(v) ==> v@ == inflate_of(b@)->Some_0,
{
    let mut out = Vec::new();
    match std::io::Read::read_to_end(&mut flate2::read::DeflateDecoder::new(b), &mut out) {
        Ok(_) => Some(out),
        Err(_) => None,
    }
}

/// A block descriptor of a file header.
#[derive(Debug, Clone, Copy, PartialEq, Eq, Structural)]
pub struct BlockInfo {
    /// Offset of the block from the end of the file header.
    pub offset: u32,
    /// Bytes the block occupies, its header included.
    pub compressed_size: u16,
    pub uncompressed_size: u16,
}

/// The header in front of a file's blocks.
#[derive(Debug)]
pub struct FileHeader {
    /// Size of this header; the blocks' offsets count from its end.
    pub size: u32,
    pub kind: u32,
    /// Size of the file once decoded.
    pub uncompressed_size: u32,
    pub blocks: Vec<BlockInfo>,
}

pub open spec fn block_info_of(b: Seq<u8>, i: int) -> BlockInfo {
    let at = FILE_HEADER_SIZE + i * BLOCK_INFO_SIZE;
    BlockInfo {
        offset: le_u32(b, at) as u32,
        compressed_size: le_u16(b, at + 4) as u16,
        uncompressed_size: le_u16(b, at + 6) as u16,
    }
}

/// Whether `b` starts with a well-formed header of a standard file.
pub open spec fn file_header_valid(b: Seq<u8>) -> bool {
    &&& fits(b, 0, FILE_HEADER_SIZE as int)
    &&& le_u32(b, 4) == STANDARD_FILE
    &&& fits(b, FILE_HEADER_SIZE as int, le_u32(b, 20) * BLOCK_INFO_SIZE)
}

pub open spec fn file_header_describes(b: Seq<u8>, h: FileHeader) -> bool {
    &&& h.size == le_u32(b, 0)
    &&& h.kind == le_u32(b, 4)
    &&& h.uncompressed_size == le_u32(b, 8)
    &&& h.blocks@ == Seq::new(le_u32(b, 20) as nat, |i: int| block_info_of(b, i))
}

fn invalid(why: &str) -> (r: Error)
    ensures
        r is Invalid,
{
    Error::Invalid(ErrorValue::Structure("file".to_string()), why.to_string())
}

impl FileHeader {
    /// Parses a file header; a kind other than standard, or short input, is `Invalid`.
    pub fn read(b: &[u8]) -> (r: Result<FileHeader>)
        ensures
            r is Ok <==> file_header_valid(b@),
            r matches Ok(h) ==> file_header_describes(b@, h),
            r matches Err(e) ==> e is Invalid,
    {
        let n: usize = b.len();
        if n < FILE_HEADER_SIZE {
            return Err(invalid("truncated header"));
        }
        let size = read_u32(b, 0);
        let kind = read_u32(b, 4);
        let uncompressed_size = read_u32(b, 8);
        let count = read_u32(b, 20);
        if kind != STANDARD_FILE {
            return Err(invalid("unsupported kind"));
        }
        if count as u64 * BLOCK_INFO_SIZE as u64 > (n - FILE_HEADER_SIZE) as u64 {
            return Err(invalid("truncated block table"));
        }
        let ghost bs = b@;
        let mut blocks: Vec<BlockInfo> = Vec::new();
        let mut i: usize = 0;
        while i < count as usize
            invariant
                bs == b@,
                n == bs.len(),
                count == le_u32(bs, 20),
                FILE_HEADER_SIZE + count * BLOCK_INFO_SIZE <= n,
                i <= count,
                blocks@ == Seq::new(i as nat, |j: int| block_info_of(bs, j)),
            decreases count - i,
        {
            let at = FILE_HEADER_SIZE + i * BLOCK_INFO_SIZE;
            blocks.push(BlockInfo {
                offset: read_u32(b, at),
                compressed_size: read_u16(b, at + 4),
                uncompressed_size: read_u16(b, at + 6),
            });
            i += 1;
            assert(blocks@ =~= Seq::new(i as nat, |j: int| block_info_of(bs, j)));
        }
        Ok(FileHeader { size, kind, uncompressed_size, blocks })
    }

    /// How many bytes from the start of the header the file spans: up to
    /// the end of its furthest block.
    pub fn span(&self) -> (r: u64)
        ensures
            r >= self.size,
            forall|i: int| 0 <= i < self.blocks@.len() ==> r >= self.size + (#[trigger] self.blocks@[i]).offset
                + self.blocks@[i].compressed_size,
    {
        let mut end: u64 = self.size as u64;
        let mut i: usize = 0;
        while i < self.blocks.len()
            invariant
                i <= self.blocks@.len(),
                end >= self.size,
                forall|j: int| 0 <= j < i ==> end >= self.size + (#[trigger] self.blocks@[j]).offset
                    + self.blocks@[j].compressed_size,
            decreases self.blocks@.len() - i,
        {
            let block = self.blocks[i];
            let block_end = self.size as u64 + block.offset as u64 + block.compressed_size as u64;
            if block_end > end {
                end = block_end;
            }
            i += 1;
        }
        end
    }
}

/// Where a block's payload lies, and whether it is stored raw.
#[derive(Debug, Clone, Copy, PartialEq, Eq, Structural)]
pub struct BlockPayload {
    pub start: usize,
    pub len: usize,
    pub raw: bool,
}

/// Where block `i` of a file starts in `b`, `b` starting at the file header.
pub open spec fn block_at(h: FileHeader, i: int) -> int {
    h.size + h.blocks@[i].offset
}

/// The payload of block `i`: after its header, `uncompressed_size` raw bytes
/// when the compressed size is the sentinel, else `compressed_size` bytes of deflate.
pub open spec fn block_payload_spec(h: FileHeader, b: Seq<u8>, i: int) -> Option<BlockPayload> {
    let at = block_at(h, i);
    if !fits(b, at, BLOCK_HEADER_SIZE as int) {
        None
    } else {
        let start = at + le_u32(b, at);
        let raw = le_u32(b, at + 12) == UNCOMPRESSED_SENTINEL;
        let len = if raw { le_u32(b, at + 8) } else { le_u32(b, at + 12) };
        if fits(b, start, len) {
            Some(BlockPayload { start: start as usize, len: len as usize, raw })
        } else {
            None
        }
    }
}

/// The decoded bytes of block `i`.
pub open spec fn block_output(h: FileHeader, b: Seq<u8>, i: int) -> Option<Seq<u8>> {
    match block_payload_spec(h, b, i) {
        None => None,
        Some(p) => {
            let bytes = b.subrange(p.start as int, p.start + p.len);
            if p.raw { Some(bytes) } else { inflate_of(bytes) }
        },
    }
}

/// The decoded bytes of the first `n` blocks, in order.
pub open spec fn blocks_output(h: FileHeader, b: Seq<u8>, n: int) -> Option<Seq<u8>>
    decreases n,
{
    if n <= 0 {
        Some(Seq::empty())
    } else {
        match (blocks_output(h, b, n - 1), block_output(h, b, n - 1)) {
            (Some(front), Some(last)) => Some(front + last),
            _ => None,
        }
    }
}

/// The decoded file: all blocks in order, when their total is the size the
/// header announces.
pub open spec fn decode_spec(h: FileHeader, b: Seq<u8>) -> Option<Seq<u8>> {
    match blocks_output(h, b, h.blocks@.len() as int) {
        Some(out) => if out.len() == h.uncompressed_size { Some(out) } else { None },
        None => None,
    }
}

/// Locates the payload of block `i` in `b`; a header or payload outside `b` is `Invalid`.
pub fn block_payload(h: &FileHeader, b: &[u8], i: usize) -> (r: Result<BlockPayload>)
    requires
        i < h.blocks@.len(),
    ensures
        r matches Ok(p) ==> block_payload_spec(*h, b@, i as int) == Some(p),
        r is Err ==> block_payload_spec(*h, b@, i as int) is None,
        r matches Err(e) ==> e is Invalid,
{
    let n: usize = b.len();
    let at = h.size as u64 + h.blocks[i].offset as u64;
    if at > n as u64 || BLOCK_HEADER_SIZE as u64 > n as u64 - at {
        return Err(invalid("block header outside the file"));
    }
    let at = at as usize;
    let header_size = read_u32(b, at);
    let uncompressed = read_u32(b, at + 8);
    let compressed = read_u32(b, at + 12);
    let raw = compressed == UNCOMPRESSED_SENTINEL;
    let len = if raw { uncompressed } else { compressed };
    let start = at as u64 + header_size as u64;
    if start > n as u64 || len as u64 > n as u64 - start {
        return Err(invalid("block payload outside the file"));
    }
    Ok(BlockPayload { start: start as usize, len: len as usize, raw })
}

/// Decodes a file whose header `h` was read from the start of `b`: each
/// block in order, raw or inflated, concatenated. A block outside `b`, a
/// corrupt deflate stream, or a total other than `h.uncompressed_size` is
/// `Invalid`.
pub fn decode(h: &FileHeader, b: &[u8]) -> (r: Result<Vec<u8>>)
    ensures
        r matches Ok(v) ==> decode_spec(*h, b@) == Some(v@) && v@.len() == h.uncompressed_size,
        r is Err ==> decode_spec(*h, b@) is None,
        r matches Err(e) ==> e is Invalid,
{
    let mut out: Vec<u8> = Vec::new();
    let mut i: usize = 0;
    while i < h.blocks.len()
        invariant
            i <= h.blocks@.len(),
            blocks_output(*h, b@, i as int) == Some(out@),
        decreases h.blocks@.len() - i,
    {
        let p = match block_payload(h, b, i) {
            Ok(p) => p,
            Err(e) => {
                proof { lemma_blocks_output_stops(*h, b@, i as int, h.blocks@.len() as int); }
                return Err(e);
            },
        };
        let bytes = copy_range(b, p.start, p.len);
        let mut decoded = if p.raw {
            bytes
        } else {
            match inflate(bytes.as_slice()) {
                Some(v) => v,
                None => {
                    proof { lemma_blocks_output_stops(*h, b@, i as int, h.blocks@.len() as int); }
                    return Err(invalid("corrupt deflate stream"));
                },
            }
        };
        out.append(&mut decoded);
        i += 1;
    }
    if out.len() as u64 != h.uncompressed_size as u64 {
        return Err(invalid("decoded size differs from the header"));
    }
    Ok(out)
}

/// Once a block fails to decode, so do all longer prefixes.
pub proof fn lemma_blocks_output_stops(h: FileHeader, b: Seq<u8>, i: int, n: int)
    requires
        0 <= i < n,
        block_output(h, b, i) is None,
    ensures
        blocks_output(h, b, n) is None,
    decreases n,
{
    if n - 1 > i {
        lemma_blocks_output_stops(h, b, i, n - 1);
    }
}

/// A repository and category of the archive, with the index of each of its
/// chunks in chunk order.
#[derive(Debug)]
pub struct DatReader {
    pub repository: u8,
    pub category: u8,
    pub chunks: Vec<Index>,
}

/// Most chunks a category can have.
pub const MAX_CHUNKS: usize = 256;

impl DatReader {
    /// Builds the reader of one repository and category from the bytes of its
    /// index files, chunk 0 first. A malformed index is `Invalid`, as is more
    /// than 256 chunks.
    pub fn new(repository: u8, category: u8, index_files: &Vec<Vec<u8>>) -> (r: Result<DatReader>)
        ensures
            r is Ok <==> index_files@.len() <= MAX_CHUNKS
                && forall|i: int| 0 <= i < index_files@.len() ==> index_valid((#[trigger] index_files@[i])@),
            r matches Ok(d) ==> d.repository == repository && d.category == category
                && d.chunks@.len() == index_files@.len()
                && forall|i: int| 0 <= i < d.chunks@.len() ==> (#[trigger] d.chunks@[i]).entries@
                    == index_entries_of(index_files@[i]@),
            r matches Err(e) ==> e is Invalid,
    {
        if index_files.len() > MAX_CHUNKS {
            return Err(Error::Invalid(ErrorValue::Structure("category".to_string()), "too many chunks".to_string()));
        }
        let mut chunks: Vec<Index> = Vec::new();
        let mut i: usize = 0;
        while i < index_files.len()
            invariant
                i <= index_files@.len(),
                chunks@.len() == i,
                forall|j: int| 0 <= j < i ==> index_valid((#[trigger] index_files@[j])@),
                forall|j: int| 0 <= j < i ==> (#[trigger] chunks@[j]).entries@ == index_entries_of(index_files@[j]@),
            decreases index_files@.len() - i,
        {
            let index = Index::read(index_files[i].as_slice())?;
            chunks.push(index);
            i += 1;
        }
        Ok(DatReader { repository, category, chunks })
    }

    /// The location of `path`: the first chunk whose index lists it, else `NotFound`.
    pub fn locate(&self, path: &str) -> (r: Result<Location>)
        requires
            self.chunks@.len() <= MAX_CHUNKS,
        ensures
            ({
                let hash = path_hash_spec(path.spec_bytes());
                match r {
                    Ok(loc) => {
                        &&& loc.chunk_id < self.chunks@.len()
                        &&& forall|d: int| 0 <= d < loc.chunk_id ==> lookup_spec((#[trigger] self.chunks@[d]).entries@, hash) is None
                        &&& (lookup_spec(self.chunks@[loc.chunk_id as int].entries@, hash) matches Some(m)
                            && m.data_file_id == loc.data_file_id && m.offset == loc.offset)
                    },
                    Err(e) => e is NotFound && forall|d: int| 0 <= d < self.chunks@.len()
                        ==> lookup_spec((#[trigger] self.chunks@[d]).entries@, hash) is None,
                }
            }),
    {
        let mut c: usize = 0;
        while c < self.chunks.len()
            invariant
                c <= self.chunks@.len() <= MAX_CHUNKS,
                forall|d: int| 0 <= d < c ==> lookup_spec((#[trigger] self.chunks@[d]).entries@,
                    path_hash_spec(path.spec_bytes())) is None,
            decreases self.chunks@.len() - c,
        {
            match self.chunks[c].get_file_location(path) {
                Some(m) => {
                    return Ok(Location { chunk_id: c as u8, data_file_id: m.data_file_id, offset: m.offset });
                },
                None => {},
            }
            c += 1;
        }
        Err(Error::NotFound(ErrorValue::Path(path.to_string())))
    }
}

} // verus!
