//! Which repository and category of the archive a virtual path belongs to.
use vstd::prelude::*;
use vstd::string::StringSliceAdditionalSpecFns;
use crate::error::{Error, ErrorValue, Result};

verus! {

/// Whether `s[from..to]` equals `lit`.
pub fn bytes_eq(s: &[u8], from: usize, to: usize, lit: &[u8]) -> (r: bool)
    requires
        from <= to <= s@.len(),
    ensures
        r == (s@.subrange(from as int, to as int) == lit@),
{
    if to - from != lit.len() {
        proof { assert(s@.subrange(from as int, to as int).len() != lit@.len()); }
        return false;
    }
    let mut i: usize = 0;
    while i < lit.len()
        invariant
            to - from == lit@.len(),
            from <= to <= s@.len(),
            i <= lit@.len(),
            forall|j: int| 0 <= j < i ==> s@[from + j] == lit@[j],
        decreases lit@.len() - i,
    {
        if s[from + i] != lit[i] {
            proof { assert(s@.subrange(from as int, to as int)[i as int] != lit@[i as int]); }
            return false;
        }
        i += 1;
    }
    proof { assert(s@.subrange(from as int, to as int) =~= lit@); }
    true
}

/// The category id of a first path segment.
pub open spec fn category_of(name: Seq<u8>) -> Option<u8> {
    if name == "common".spec_bytes() { Some(0x00) }
    else if name == "bgcommon".spec_bytes() { Some(0x01) }
    else if name == "bg".spec_bytes() { Some(0x02) }
    else if name == "cut".spec_bytes() { Some(0x03) }
    else if name == "chara".spec_bytes() { Some(0x04) }
    else if name == "shader".spec_bytes() { Some(0x05) }
    else if name == "ui".spec_bytes() { Some(0x06) }
    else if name == "sound".spec_bytes() { Some(0x07) }
    else if name == "vfx".spec_bytes() { Some(0x08) }
    else if name == "ui_script".spec_bytes() { Some(0x09) }
    else if name == "exd".spec_bytes() { Some(0x0A) }
    else if name == "game_script".spec_bytes() { Some(0x0B) }
    else if name == "music".spec_bytes() { Some(0x0C) }
    else { None }
}

/// The repository of a second path segment: `exN` for a digit N from 1 to 9
/// names expansion N; anything else is the base repository 0.
pub open spec fn repository_of(name: Seq<u8>) -> u8 {
    if name.len() == 3 && name[0] == 0x65u8 && name[1] == 0x78u8 && 0x31 <= name[2] <= 0x39 {
        (name[2] - 0x30) as u8
    } else {
        0
    }
}

/// The category id of `s[from..to]`.
pub fn category_id(s: &[u8], from: usize, to: usize) -> (r: Option<u8>)
    requires
        from <= to <= s@.len(),
    ensures
        r == category_of(s@.subrange(from as int, to as int)),
{
    if bytes_eq(s, from, to, "common".as_bytes()) { Some(0x00) }
    else if bytes_eq(s, from, to, "bgcommon".as_bytes()) { Some(0x01) }
    else if bytes_eq(s, from, to, "bg".as_bytes()) { Some(0x02) }
    else if bytes_eq(s, from, to, "cut".as_bytes()) { Some(0x03) }
    else if bytes_eq(s, from, to, "chara".as_bytes()) { Some(0x04) }
    else if bytes_eq(s, from, to, "shader".as_bytes()) { Some(0x05) }
    else if bytes_eq(s, from, to, "ui".as_bytes()) { Some(0x06) }
    else if bytes_eq(s, from, to, "sound".as_bytes()) { Some(0x07) }
    else if bytes_eq(s, from, to, "vfx".as_bytes()) { Some(0x08) }
    else if bytes_eq(s, from, to, "ui_script".as_bytes()) { Some(0x09) }
    else if bytes_eq(s, from, to, "exd".as_bytes()) { Some(0x0A) }
    else if bytes_eq(s, from, to, "game_script".as_bytes()) { Some(0x0B) }
    else if bytes_eq(s, from, to, "music".as_bytes()) { Some(0x0C) }
    else { None }
}

/// The repository of `s[from..to]`.
pub fn repository_id(s: &[u8], from: usize, to: usize) -> (r: u8)
    requires
        from <= to <= s@.len(),
    ensures
        r == repository_of(s@.subrange(from as int, to as int)),
{
    if to - from == 3 && s[from] == 0x65u8 && s[from + 1] == 0x78u8 && 0x31 <= s[from + 2] && s[from + 2] <= 0x39 {
        s[from + 2] - 0x30
    } else {
        0
    }
}

/// The end of the path segment that starts at `from`: the next `/` or the end.
pub open spec fn segment_end(s: Seq<u8>, from: int) -> int
    decreases s.len() - from,
{
    if from >= s.len() || s[from] == 0x2Fu8 { from } else { segment_end(s, from + 1) }
}

pub proof fn lemma_segment_end(s: Seq<u8>, from: int)
    requires
        0 <= from <= s.len(),
    ensures
        from <= segment_end(s, from) <= s.len(),
    decreases s.len() - from,
{
    if !(from >= s.len() || s[from] == 0x2Fu8) {
        lemma_segment_end(s, from + 1);
    }
}

/// The end of the path segment of `s` that starts at `from`.
pub fn find_segment_end(s: &[u8], from: usize) -> (r: usize)
    requires
        from <= s@.len(),
    ensures
        r == segment_end(s@, from as int),
        from <= r <= s@.len(),
{
    proof { lemma_segment_end(s@, from as int); }
    let n: usize = s.len();
    let mut i: usize = from;
    while i < n && s[i] != 0x2Fu8
        invariant
            from <= i <= n,
            n == s@.len(),
            segment_end(s@, i as int) == segment_end(s@, from as int),
        decreases n - i,
    {
        i += 1;
    }
    i
}

/// The `(repository, category)` of a path: its first segment names the
/// category; its second names the repository when it is a known one.
pub open spec fn classify_spec(path: Seq<u8>) -> Option<(u8, u8)> {
    let first = segment_end(path, 0);
    let second_end = if first < path.len() { segment_end(path, first + 1) } else { first };
    let second = if first < path.len() { path.subrange(first + 1, second_end) } else { Seq::empty() };
    match category_of(path.subrange(0, first)) {
        Some(category) => Some((repository_of(second), category)),
        None => None,
    }
}

/// The `(repository, category)` that `path` belongs to; an unknown category is `NotFound`.
pub fn classify(path: &str) -> (r: Result<(u8, u8)>)
    ensures
        r matches Ok(v) ==> classify_spec(path.spec_bytes()) == Some(v),
        r matches Err(e) ==> classify_spec(path.spec_bytes()) is None && e is NotFound,
{
    let s = path.as_bytes();
    let n: usize = s.len();
    let first = find_segment_end(s, 0);
    let category = match category_id(s, 0, first) {
        Some(c) => c,
        None => return Err(Error::NotFound(ErrorValue::Path(path.to_string()))),
    };
    let repository = if first < n {
        let second = find_segment_end(s, first + 1);
        repository_id(s, first + 1, second)
    } else {
        proof { assert(s@.subrange(0, 0) =~= Seq::<u8>::empty()); }
        repository_id(s, 0, 0)
    };
    Ok((repository, category))
}

} // verus!
