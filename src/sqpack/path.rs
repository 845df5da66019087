//! Path keys: the 64-bit hash under which an index lists a file.
use vstd::prelude::*;
use vstd::string::StringSliceAdditionalSpecFns;

verus! {

/// The CRC-32 (zlib polynomial, reflected, final xor) of a byte string.
pub uninterp spec fn crc32_of(b: Seq<u8>) -> u32;

/// Relies on flate2::Crc (`new`, `update`, `sum`): the zlib CRC-32 of the
/// bytes, which depends on those bytes alone.
#[verifier::external_body]
fn crc32(b: &[u8]) -> (r: u32)
    ensures
        r == crc32_of(b@),
{
    let mut crc = flate2::Crc::new();
    crc.update(b);
    crc.sum()
}

/// ASCII lowercasing of one byte.
pub open spec fn ascii_lower(c: u8) -> u8 {
    if 0x41 <= c <= 0x5A { (c + 0x20) as u8 } else { c }
}

/// ASCII lowercasing of a byte string.
pub open spec fn lower(s: Seq<u8>) -> Seq<u8> {
    s.map_values(|c: u8| ascii_lower(c))
}

/// The position of the last `/` of `s`.
pub open spec fn last_slash(s: Seq<u8>) -> Option<int>
    decreases s.len(),
{
    if s.len() == 0 {
        None
    } else if s.last() == 0x2Fu8 {
        Some(s.len() - 1)
    } else {
        last_slash(s.drop_last())
    }
}

pub proof fn lemma_last_slash(s: Seq<u8>)
    ensures
        last_slash(s) matches Some(i) ==> 0 <= i < s.len() && s[i] == 0x2Fu8
            && forall|j: int| i < j < s.len() ==> s[j] != 0x2Fu8,
        last_slash(s) is None ==> forall|j: int| 0 <= j < s.len() ==> s[j] != 0x2Fu8,
    decreases s.len(),
{
    if s.len() > 0 {
        lemma_last_slash(s.drop_last());
        assert forall|j: int| 0 <= j < s.len() - 1 implies s.drop_last()[j] == s[j] by {}
    }
}

/// The directory part of a path: everything before its last `/`.
pub open spec fn folder_of(s: Seq<u8>) -> Seq<u8> {
    match last_slash(s) {
        Some(i) => s.subrange(0, i),
        None => Seq::empty(),
    }
}

/// The file part of a path: everything after its last `/`.
pub open spec fn file_of(s: Seq<u8>) -> Seq<u8> {
    match last_slash(s) {
        Some(i) => s.subrange(i + 1, s.len() as int),
        None => s,
    }
}

/// The 64-bit key of two 32-bit halves.
pub open spec fn combine_spec(folder: u32, file: u32) -> u64 {
    (folder as int * 0x1_0000_0000 + file as int) as u64
}

/// The key of a path: the CRC-32 of the lowercased folder in the high half,
/// that of the lowercased file name in the low half.
pub open spec fn path_hash_spec(path: Seq<u8>) -> u64 {
    combine_spec(crc32_of(lower(folder_of(path))), crc32_of(lower(file_of(path))))
}

/// `(folder << 32) | file`.
pub fn combine_hash(folder: u32, file: u32) -> (r: u64)
    ensures
        r == combine_spec(folder, file),
        r as int == folder as int * 0x1_0000_0000 + file as int,
{
    folder as u64 * 0x1_0000_0000 + file as u64
}

/// ASCII lowercase copy of `s[from..to]`.
pub fn lower_range(s: &[u8], from: usize, to: usize) -> (r: Vec<u8>)
    requires
        from <= to <= s@.len(),
    ensures
        r@ == lower(s@.subrange(from as int, to as int)),
{
    let mut r: Vec<u8> = Vec::new();
    let mut i: usize = from;
    while i < to
        invariant
            from <= i <= to <= s@.len(),
            r@ == lower(s@.subrange(from as int, i as int)),
        decreases to - i,
    {
        let c = s[i];
        let l = if 0x41 <= c && c <= 0x5A { c + 0x20 } else { c };
        r.push(l);
        i += 1;
        assert(r@ =~= lower(s@.subrange(from as int, i as int)));
    }
    r
}

/// Position of the last `/` in `s`.
pub fn find_last_slash(s: &[u8]) -> (r: Option<usize>)
    ensures
        r == (match last_slash(s@) {
            Some(i) => Some(i as usize),
            None => None::<usize>,
        }),
{
    proof { lemma_last_slash(s@); }
    let mut i: usize = s.len();
    while i > 0
        invariant
            i <= s@.len(),
            forall|j: int| i <= j < s@.len() ==> s@[j] != 0x2Fu8,
        decreases i,
    {
        if s[i - 1] == 0x2Fu8 {
            proof {
                lemma_last_slash(s@);
                if let Some(k) = last_slash(s@) {
                    if k > i - 1 { assert(s@[k] != 0x2Fu8); }
                    if k < i - 1 { assert(s@[i - 1] != 0x2Fu8); }
                }
            }
            return Some(i - 1);
        }
        i -= 1;
    }
    None
}

/// The index key of `path`, split at its last `/`, both halves ASCII
/// lowercased. An empty folder hashes as the CRC of the empty string.
pub fn path_hash(path: &str) -> (r: u64)
    ensures
        r == path_hash_spec(path.spec_bytes()),
{
    let bytes = path.as_bytes();
    let n: usize = bytes.len();
    proof { lemma_last_slash(bytes@); }
    let (folder, file) = match find_last_slash(bytes) {
        Some(i) => (lower_range(bytes, 0, i), lower_range(bytes, i + 1, n)),
        None => (lower_range(bytes, 0, 0), lower_range(bytes, 0, n)),
    };
    proof {
        assert(bytes@.subrange(0, bytes@.len() as int) =~= bytes@);
        assert(bytes@.subrange(0, 0) =~= Seq::<u8>::empty());
    }
    combine_hash(crc32(folder.as_slice()), crc32(file.as_slice()))
}

} // verus!
