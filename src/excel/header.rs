//! The sheet header: row layout, columns, pages and languages.
use vstd::prelude::*;
use crate::binary::{le_u16, le_u32, read_u16, read_u32, read_u8};
use crate::error::{Error, ErrorValue, Result};

verus! {

/// Size of the fixed part of a sheet header.
pub const EXH_HEADER_SIZE: usize = 32;
/// Size of one column definition.
pub const COLUMN_SIZE: usize = 4;
/// Size of one page definition.
pub const PAGE_SIZE: usize = 8;
/// Size of one language entry.
pub const LANGUAGE_SIZE: usize = 2;

/// Whether a row holds one record, or an array of subrecords.
#[derive(Debug, Clone, Copy, PartialEq, Eq, Structural)]
pub enum SheetKind {
    Default,
    Subrows,
}

/// The stored code of a sheet kind, if it names one.
pub open spec fn sheet_kind_of(code: int) -> Option<SheetKind> {
    if code == 1 {
        Some(SheetKind::Default)
    } else if code == 2 {
        Some(SheetKind::Subrows)
    } else {
        None
    }
}

/// Kind of data held in a column.
#[derive(Debug, Clone, Copy, PartialEq, Eq, Structural)]
pub enum ColumnKind {
    String,
    Bool,
    Int8,
    UInt8,
    Int16,
    UInt16,
    Int32,
    UInt32,
    Float32,
    Int64,
    UInt64,
    PackedBool0,
    PackedBool1,
    PackedBool2,
    PackedBool3,
    PackedBool4,
    PackedBool5,
    PackedBool6,
    PackedBool7,
}

/// The column kind stored as `code`, if it names one.
pub open spec fn column_kind_of(code: int) -> Option<ColumnKind> {
    if code == 0x0 { Some(ColumnKind::String) }
    else if code == 0x1 { Some(ColumnKind::Bool) }
    else if code == 0x2 { Some(ColumnKind::Int8) }
    else if code == 0x3 { Some(ColumnKind::UInt8) }
    else if code == 0x4 { Some(ColumnKind::Int16) }
    else if code == 0x5 { Some(ColumnKind::UInt16) }
    else if code == 0x6 { Some(ColumnKind::Int32) }
    else if code == 0x7 { Some(ColumnKind::UInt32) }
    else if code == 0x9 { Some(ColumnKind::Float32) }
    else if code == 0xA { Some(ColumnKind::Int64) }
    else if code == 0xB { Some(ColumnKind::UInt64) }
    else if code == 0x19 { Some(ColumnKind::PackedBool0) }
    else if code == 0x1A { Some(ColumnKind::PackedBool1) }
    else if code == 0x1B { Some(ColumnKind::PackedBool2) }
    else if code == 0x1C { Some(ColumnKind::PackedBool3) }
    else if code == 0x1D { Some(ColumnKind::PackedBool4) }
    else if code == 0x1E { Some(ColumnKind::PackedBool5) }
    else if code == 0x1F { Some(ColumnKind::PackedBool6) }
    else if code == 0x20 { Some(ColumnKind::PackedBool7) }
    else { None }
}

/// Decodes a stored column kind.
pub fn column_kind_from_code(code: u16) -> (r: Option<ColumnKind>)
    ensures
        r == column_kind_of(code as int),
{
    match code {
        0x0 => Some(ColumnKind::String),
        0x1 => Some(ColumnKind::Bool),
        0x2 => Some(ColumnKind::Int8),
        0x3 => Some(ColumnKind::UInt8),
        0x4 => Some(ColumnKind::Int16),
        0x5 => Some(ColumnKind::UInt16),
        0x6 => Some(ColumnKind::Int32),
        0x7 => Some(ColumnKind::UInt32),
        0x9 => Some(ColumnKind::Float32),
        0xA => Some(ColumnKind::Int64),
        0xB => Some(ColumnKind::UInt64),
        0x19 => Some(ColumnKind::PackedBool0),
        0x1A => Some(ColumnKind::PackedBool1),
        0x1B => Some(ColumnKind::PackedBool2),
        0x1C => Some(ColumnKind::PackedBool3),
        0x1D => Some(ColumnKind::PackedBool4),
        0x1E => Some(ColumnKind::PackedBool5),
        0x1F => Some(ColumnKind::PackedBool6),
        0x20 => Some(ColumnKind::PackedBool7),
        _ => None,
    }
}

/// Where a column's data sits within a row.
#[derive(Debug, Clone, Copy, PartialEq, Eq, Structural)]
pub struct ColumnDefinition {
    pub kind: ColumnKind,
    pub offset: u16,
}

/// The rows `[start_id, start_id + row_count)` stored in one page.
#[derive(Debug, Clone, Copy, PartialEq, Eq, Structural)]
pub struct PageDefinition {
    pub start_id: u32,
    pub row_count: u32,
}

impl PageDefinition {
    pub open spec fn contains(self, row_id: u32) -> bool {
        self.start_id <= row_id && row_id < self.start_id + self.row_count
    }

    /// First row of this page.
    pub fn start_id(&self) -> (r: u32)
        ensures
            r == self.start_id,
    {
        self.start_id
    }
}

/// A parsed sheet header.
#[derive(Debug)]
pub struct Header {
    pub kind: SheetKind,
    pub row_size: u16,
    pub row_count: u32,
    pub columns: Vec<ColumnDefinition>,
    pub pages: Vec<PageDefinition>,
    pub languages: Vec<u8>,
}

/// Whether the pages are sorted by first row and their ranges are disjoint.
pub open spec fn pages_disjoint(pages: Seq<PageDefinition>) -> bool {
    forall|i: int|
        0 <= i < pages.len() - 1 ==> #[trigger] pages[i].start_id + pages[i].row_count
            <= pages[i + 1].start_id
}

/// Whether every column lies within the fixed part of a row.
pub open spec fn columns_in_row(columns: Seq<ColumnDefinition>, row_size: u16) -> bool {
    forall|i: int| 0 <= i < columns.len() ==> #[trigger] columns[i].offset <= row_size
}

impl Header {
    /// The invariant that parsing establishes.
    pub open spec fn wf(&self) -> bool {
        &&& pages_disjoint(self.pages@)
        &&& columns_in_row(self.columns@, self.row_size)
    }

    /// Pages of this sheet, in stored order.
    pub fn pages(&self) -> (r: &Vec<PageDefinition>)
        ensures
            r@ == self.pages@,
    {
        &self.pages
    }
}

// Field positions of the fixed part.
pub open spec fn exh_row_size(b: Seq<u8>) -> int { le_u16(b, 6) }
pub open spec fn exh_column_count(b: Seq<u8>) -> int { le_u16(b, 8) }
pub open spec fn exh_page_count(b: Seq<u8>) -> int { le_u16(b, 10) }
pub open spec fn exh_language_count(b: Seq<u8>) -> int { le_u16(b, 12) }
pub open spec fn exh_kind(b: Seq<u8>) -> int { b[17] as int }
pub open spec fn exh_row_count(b: Seq<u8>) -> int { le_u32(b, 20) }

pub open spec fn exh_columns_at(b: Seq<u8>) -> int { EXH_HEADER_SIZE as int }
pub open spec fn exh_pages_at(b: Seq<u8>) -> int {
    exh_columns_at(b) + exh_column_count(b) * COLUMN_SIZE
}
pub open spec fn exh_languages_at(b: Seq<u8>) -> int {
    exh_pages_at(b) + exh_page_count(b) * PAGE_SIZE
}
pub open spec fn exh_end(b: Seq<u8>) -> int {
    exh_languages_at(b) + exh_language_count(b) * LANGUAGE_SIZE
}

/// Whether `b` starts with the sheet header magic `EXHF`.
pub open spec fn exh_magic(b: Seq<u8>) -> bool {
    b.len() >= 4 && b[0] == 0x45u8 && b[1] == 0x58u8 && b[2] == 0x48u8 && b[3] == 0x46u8
}

/// The column stored at slot `i`, if its kind is known.
pub open spec fn exh_column(b: Seq<u8>, i: int) -> Option<ColumnDefinition> {
    let at = exh_columns_at(b) + i * COLUMN_SIZE;
    match column_kind_of(le_u16(b, at)) {
        Some(kind) => Some(ColumnDefinition { kind, offset: le_u16(b, at + 2) as u16 }),
        None => None,
    }
}

pub open spec fn exh_page(b: Seq<u8>, i: int) -> PageDefinition {
    let at = exh_pages_at(b) + i * PAGE_SIZE;
    PageDefinition { start_id: le_u32(b, at) as u32, row_count: le_u32(b, at + 4) as u32 }
}

pub open spec fn exh_language(b: Seq<u8>, i: int) -> u8 {
    b[exh_languages_at(b) + i * LANGUAGE_SIZE]
}

/// Whether `b` is a well-formed sheet header.
pub open spec fn exh_valid(b: Seq<u8>) -> bool {
    &&& b.len() >= EXH_HEADER_SIZE
    &&& exh_magic(b)
    &&& sheet_kind_of(exh_kind(b)) is Some
    &&& exh_end(b) <= b.len()
    &&& forall|i: int| 0 <= i < exh_column_count(b) ==> (#[trigger] exh_column(b, i)) is Some
    &&& columns_in_row(Seq::new(exh_column_count(b) as nat, |i: int| exh_column(b, i)->Some_0), exh_row_size(b) as u16)
    &&& pages_disjoint(Seq::new(exh_page_count(b) as nat, |i: int| exh_page(b, i)))
}

/// Whether `h` is the header that `b` describes.
pub open spec fn exh_describes(b: Seq<u8>, h: Header) -> bool {
    &&& Some(h.kind) == sheet_kind_of(exh_kind(b))
    &&& h.row_size == exh_row_size(b)
    &&& h.row_count == exh_row_count(b)
    &&& h.columns@ == Seq::new(exh_column_count(b) as nat, |i: int| exh_column(b, i)->Some_0)
    &&& h.pages@ == Seq::new(exh_page_count(b) as nat, |i: int| exh_page(b, i))
    &&& h.languages@ == Seq::new(exh_language_count(b) as nat, |i: int| exh_language(b, i))
}

fn invalid_header(why: &str) -> (r: Error)
    ensures
        r is Invalid,
{
    Error::Invalid(ErrorValue::Structure("sheet header".to_string()), why.to_string())
}

impl Header {
    /// Parses a sheet header; rejects unknown kinds, columns outside the row,
    /// overlapping pages and truncated input as `Invalid`.
    pub fn read(b: &[u8]) -> (r: Result<Header>)
        ensures
            r is Ok <==> exh_valid(b@),
            r matches Ok(h) ==> exh_describes(b@, h) && h.wf(),
            r matches Err(e) ==> e is Invalid,
    {
        let n: usize = b.len();
        if n < EXH_HEADER_SIZE {
            return Err(invalid_header("truncated"));
        }
        if !(b[0] == 0x45u8 && b[1] == 0x58u8 && b[2] == 0x48u8 && b[3] == 0x46u8) {
            return Err(invalid_header("magic"));
        }
        let row_size = read_u16(b, 6);
        let column_count = read_u16(b, 8) as usize;
        let page_count = read_u16(b, 10) as usize;
        let language_count = read_u16(b, 12) as usize;
        let kind_code = read_u8(b, 17);
        let row_count = read_u32(b, 20);
        let kind = if kind_code == 1 {
            SheetKind::Default
        } else if kind_code == 2 {
            SheetKind::Subrows
        } else {
            return Err(invalid_header("kind"));
        };
        let pages_at = EXH_HEADER_SIZE + column_count * COLUMN_SIZE;
        let languages_at = pages_at + page_count * PAGE_SIZE;
        let end = languages_at + language_count * LANGUAGE_SIZE;
        if end > n {
            return Err(invalid_header("truncated"));
        }
        let ghost bs = b@;

        let mut columns: Vec<ColumnDefinition> = Vec::new();
        let mut i: usize = 0;
        while i < column_count
            invariant
                bs == b@,
                n == bs.len(),
                column_count == exh_column_count(bs),
                row_size == exh_row_size(bs),
                exh_end(bs) <= n,
                exh_pages_at(bs) == pages_at,
                i <= column_count,
                columns@ == Seq::new(i as nat, |j: int| exh_column(bs, j)->Some_0),
                forall|j: int| 0 <= j < i ==> (#[trigger] exh_column(bs, j)) is Some,
                columns_in_row(columns@, row_size),
            decreases column_count - i,
        {
            let at = EXH_HEADER_SIZE + i * COLUMN_SIZE;
            let code = read_u16(b, at);
            let offset = read_u16(b, at + 2);
            let kind = match column_kind_from_code(code) {
                Some(k) => k,
                None => {
                    assert(exh_column(bs, i as int) is None);
                    return Err(invalid_header("column kind"));
                },
            };
            if offset > row_size {
                proof {
                    let s = Seq::new(exh_column_count(bs) as nat, |j: int| exh_column(bs, j)->Some_0);
                    assert(s[i as int].offset > row_size);
                }
                return Err(invalid_header("column offset"));
            }
            columns.push(ColumnDefinition { kind, offset });
            i += 1;
            assert(columns@ =~= Seq::new(i as nat, |j: int| exh_column(bs, j)->Some_0));
        }
        assert(columns@ =~= Seq::new(exh_column_count(bs) as nat, |j: int| exh_column(bs, j)->Some_0));

        let mut pages: Vec<PageDefinition> = Vec::new();
        let mut i: usize = 0;
        while i < page_count
            invariant
                bs == b@,
                n == bs.len(),
                page_count == exh_page_count(bs),
                exh_end(bs) <= n,
                exh_pages_at(bs) == pages_at,
                i <= page_count,
                pages@ == Seq::new(i as nat, |j: int| exh_page(bs, j)),
                pages_disjoint(pages@),
            decreases page_count - i,
        {
            let at = pages_at + i * PAGE_SIZE;
            let start_id = read_u32(b, at);
            let rows = read_u32(b, at + 4);
            if i > 0 {
                let prev = pages[i - 1];
                if prev.start_id as u64 + prev.row_count as u64 > start_id as u64 {
                    proof {
                        let s = Seq::new(exh_page_count(bs) as nat, |j: int| exh_page(bs, j));
                        assert(s[i - 1] == prev);
                        assert(s[(i - 1) + 1].start_id == start_id);
                    }
                    return Err(invalid_header("overlapping pages"));
                }
            }
            pages.push(PageDefinition { start_id, row_count: rows });
            i += 1;
            assert(pages@ =~= Seq::new(i as nat, |j: int| exh_page(bs, j)));
        }
        assert(pages@ =~= Seq::new(exh_page_count(bs) as nat, |j: int| exh_page(bs, j)));

        let mut languages: Vec<u8> = Vec::new();
        let mut i: usize = 0;
        while i < language_count
            invariant
                bs == b@,
                n == bs.len(),
                language_count == exh_language_count(bs),
                exh_end(bs) <= n,
                exh_languages_at(bs) == languages_at,
                i <= language_count,
                languages@ == Seq::new(i as nat, |j: int| exh_language(bs, j)),
            decreases language_count - i,
        {
            languages.push(b[languages_at + i * LANGUAGE_SIZE]);
            i += 1;
            assert(languages@ =~= Seq::new(i as nat, |j: int| exh_language(bs, j)));
        }
        assert(languages@ =~= Seq::new(exh_language_count(bs) as nat, |j: int| exh_language(bs, j)));

        Ok(Header { kind, row_size, row_count, columns, pages, languages })
    }
}

} // verus!

verus! {

/// Language code of data that is not language-specific.
pub const LANGUAGE_NONE: u8 = 0;

/// The stored language that serves a request for `requested`: the requested
/// code itself when the sheet offers it, else the neutral code when offered.
pub open spec fn resolve_language_spec(languages: Seq<u8>, requested: u8) -> Option<u8> {
    if languages.contains(requested) {
        Some(requested)
    } else if languages.contains(LANGUAGE_NONE) {
        Some(LANGUAGE_NONE)
    } else {
        None
    }
}

/// The first page whose range holds `row_id`.
pub open spec fn find_page_spec(pages: Seq<PageDefinition>, row_id: u32) -> Option<int>
    decreases pages.len(),
{
    if pages.len() == 0 {
        None
    } else {
        match find_page_spec(pages.drop_last(), row_id) {
            Some(i) => Some(i),
            None => if pages.last().contains(row_id) { Some(pages.len() - 1) } else { None },
        }
    }
}

pub proof fn lemma_find_page(pages: Seq<PageDefinition>, row_id: u32)
    ensures
        find_page_spec(pages, row_id) matches Some(i) ==> 0 <= i < pages.len() && pages[i].contains(row_id)
            && forall|j: int| 0 <= j < i ==> !(#[trigger] pages[j]).contains(row_id),
        find_page_spec(pages, row_id) is None <==> forall|j: int| 0 <= j < pages.len() ==> !(#[trigger] pages[j]).contains(row_id),
    decreases pages.len(),
{
    if pages.len() > 0 {
        lemma_find_page(pages.drop_last(), row_id);
        assert forall|j: int| 0 <= j < pages.len() - 1 implies pages.drop_last()[j] == pages[j] by {}
    }
}

impl Header {
    /// Whether this sheet holds subrows.
    pub open spec fn has_subrows(&self) -> bool {
        self.kind == SheetKind::Subrows
    }

    /// Resolves a requested language to the stored one: the requested code
    /// if offered, else the neutral code if offered, else `NotFound`.
    pub fn resolve_language(&self, requested: u8) -> (r: Result<u8>)
        ensures
            r matches Ok(l) ==> resolve_language_spec(self.languages@, requested) == Some(l),
            r is Err ==> resolve_language_spec(self.languages@, requested) is None
                && r == Err::<u8, Error>(Error::NotFound(ErrorValue::Language(requested))),
    {
        let mut found_none = false;
        let mut i: usize = 0;
        while i < self.languages.len()
            invariant
                i <= self.languages@.len(),
                found_none <==> exists|j: int| 0 <= j < i && self.languages@[j] == LANGUAGE_NONE,
                forall|j: int| 0 <= j < i ==> self.languages@[j] != requested,
            decreases self.languages@.len() - i,
        {
            let code = self.languages[i];
            if code == requested {
                assert(self.languages@.contains(requested));
                return Ok(requested);
            }
            if code == LANGUAGE_NONE {
                found_none = true;
            }
            i += 1;
        }
        if found_none {
            Ok(LANGUAGE_NONE)
        } else {
            Err(Error::NotFound(ErrorValue::Language(requested)))
        }
    }

    /// The index of the first page whose range holds `row_id`.
    pub fn find_page(&self, row_id: u32) -> (r: Option<usize>)
        ensures
            r == (match find_page_spec(self.pages@, row_id) {
                Some(i) => Some(i as usize),
                None => None::<usize>,
            }),
            r matches Some(i) ==> i < self.pages@.len() && self.pages@[i as int].contains(row_id),
    {
        proof { lemma_find_page(self.pages@, row_id); }
        let mut i: usize = 0;
        while i < self.pages.len()
            invariant
                i <= self.pages@.len(),
                forall|j: int| 0 <= j < i ==> !(#[trigger] self.pages@[j]).contains(row_id),
            decreases self.pages@.len() - i,
        {
            let p = self.pages[i];
            if p.start_id <= row_id && (row_id as u64) < p.start_id as u64 + p.row_count as u64 {
                proof {
                    lemma_find_page(self.pages@, row_id);
                    let k = find_page_spec(self.pages@, row_id);
                    if let Some(k) = k {
                        if k > i { assert(!self.pages@[i as int].contains(row_id)); }
                        if k < i { assert(!self.pages@[k].contains(row_id)); }
                    }
                }
                return Some(i);
            }
            i += 1;
        }
        None
    }
}

/// Pages that are sorted and disjoint stay so across any distance: each
/// page ends at or before the start of every later page, so no row lies in two pages.
pub proof fn lemma_pages_ordered(pages: Seq<PageDefinition>, i: int, j: int)
    requires
        pages_disjoint(pages),
        0 <= i < j < pages.len(),
    ensures
        pages[i].start_id + pages[i].row_count <= pages[j].start_id,
        forall|row_id: u32| !(pages[i].contains(row_id) && pages[j].contains(row_id)),
    decreases j - i,
{
    if j > i + 1 {
        lemma_pages_ordered(pages, i + 1, j);
        assert(pages[i].start_id + pages[i].row_count <= pages[i + 1].start_id);
    } else {
        assert(pages[i].start_id + pages[i].row_count <= pages[i + 1].start_id);
    }
}

} // verus!
