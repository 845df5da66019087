//! One page of one sheet in one language: a row directory and a data blob.
use vstd::prelude::*;
use crate::binary::{copy_range, fits, le_u16, le_u32, read_u16, read_u32};
use crate::error::{is_row_not_found_for, Error, ErrorValue, Result};
use crate::excel::header::{Header, SheetKind};

verus! {

/// Size of the fixed part of a page.
pub const EXD_HEADER_SIZE: usize = 32;
/// Size of one row directory entry.
pub const ROW_DEFINITION_SIZE: usize = 8;
/// Size of the header in front of each row's data.
pub const ROW_HEADER_SIZE: usize = 6;
/// Size of the header in front of each subrow's data.
pub const SUBROW_HEADER_SIZE: usize = 2;

/// A row directory entry: the row's id and the offset of its row header in the data blob.
#[derive(Debug, Clone, Copy, PartialEq, Eq, Structural)]
pub struct RowDefinition {
    pub id: u32,
    pub offset: u32,
}

impl RowDefinition {
    /// Id of the row.
    pub fn id(&self) -> (r: u32)
        ensures
            r == self.id,
    {
        self.id
    }
}

/// A parsed page.
#[derive(Debug)]
pub struct Page {
    pub rows: Vec<RowDefinition>,
    pub data: Vec<u8>,
}

pub open spec fn exd_magic(b: Seq<u8>) -> bool {
    b.len() >= 4 && b[0] == 0x45u8 && b[1] == 0x58u8 && b[2] == 0x44u8 && b[3] == 0x46u8
}

pub open spec fn exd_index_size(b: Seq<u8>) -> int { le_u32(b, 8) }
pub open spec fn exd_data_size(b: Seq<u8>) -> int { le_u32(b, 12) }
pub open spec fn exd_data_at(b: Seq<u8>) -> int { EXD_HEADER_SIZE + exd_index_size(b) }

pub open spec fn exd_row(b: Seq<u8>, i: int) -> RowDefinition {
    let at = EXD_HEADER_SIZE + i * ROW_DEFINITION_SIZE;
    RowDefinition { id: le_u32(b, at) as u32, offset: le_u32(b, at + 4) as u32 }
}

/// Whether `b` is a well-formed page.
pub open spec fn exd_valid(b: Seq<u8>) -> bool {
    &&& b.len() >= EXD_HEADER_SIZE
    &&& exd_magic(b)
    &&& exd_index_size(b) % (ROW_DEFINITION_SIZE as int) == 0
    &&& exd_data_at(b) + exd_data_size(b) <= b.len()
}

/// Whether `p` is the page that `b` describes.
pub open spec fn exd_describes(b: Seq<u8>, p: Page) -> bool {
    &&& p.rows@ == Seq::new((exd_index_size(b) / (ROW_DEFINITION_SIZE as int)) as nat, |i: int| exd_row(b, i))
    &&& p.data@ == b.subrange(exd_data_at(b), exd_data_at(b) + exd_data_size(b))
}

/// The first directory entry for `row_id`.
pub open spec fn find_row_spec(rows: Seq<RowDefinition>, row_id: u32) -> Option<int>
    decreases rows.len(),
{
    if rows.len() == 0 {
        None
    } else {
        match find_row_spec(rows.drop_last(), row_id) {
            Some(i) => Some(i),
            None => if rows.last().id == row_id { Some(rows.len() - 1) } else { None },
        }
    }
}

pub proof fn lemma_find_row(rows: Seq<RowDefinition>, row_id: u32)
    ensures
        find_row_spec(rows, row_id) matches Some(i) ==> 0 <= i < rows.len() && rows[i].id == row_id
            && forall|j: int| 0 <= j < i ==> (#[trigger] rows[j]).id != row_id,
        find_row_spec(rows, row_id) is None <==> forall|j: int| 0 <= j < rows.len() ==> (#[trigger] rows[j]).id != row_id,
    decreases rows.len(),
{
    if rows.len() > 0 {
        lemma_find_row(rows.drop_last(), row_id);
        assert forall|j: int| 0 <= j < rows.len() - 1 implies rows.drop_last()[j] == rows[j] by {}
    }
}

/// Where a lookup of one (sub)row within a page ends.
pub ghost enum RowSlice {
    /// The row's bytes are `data[start..start + len]`.
    Found { start: int, len: int },
    /// The page does not hold this subrow.
    Absent,
    /// The page contradicts the sheet header or its own structure.
    Malformed,
}

/// The outcome of looking up subrow `subrow_id` of row `row_id` in a page:
/// the row must be listed; its row header must fit; the subrow must be below
/// the header's count; in a subrow sheet the subrow's own header must fit and
/// name it; and the sliced bytes must lie within the data blob. A default row
/// spans `row_size + data_size` bytes after its header, a subrow `row_size`.
pub open spec fn row_slice(kind: SheetKind, row_size: u16, rows: Seq<RowDefinition>, data: Seq<u8>, row_id: u32, subrow_id: u16) -> RowSlice {
    match find_row_spec(rows, row_id) {
        None => RowSlice::Malformed,
        Some(i) => {
            let at = rows[i].offset as int;
            if !fits(data, at, ROW_HEADER_SIZE as int) {
                RowSlice::Malformed
            } else if subrow_id >= le_u16(data, at + 4) {
                RowSlice::Absent
            } else if kind == SheetKind::Subrows {
                let sub_at = at + ROW_HEADER_SIZE + subrow_id * (SUBROW_HEADER_SIZE + row_size);
                if !fits(data, sub_at, SUBROW_HEADER_SIZE as int) {
                    RowSlice::Malformed
                } else if le_u16(data, sub_at) != subrow_id {
                    RowSlice::Malformed
                } else if !fits(data, sub_at + SUBROW_HEADER_SIZE, row_size as int) {
                    RowSlice::Malformed
                } else {
                    RowSlice::Found { start: sub_at + SUBROW_HEADER_SIZE, len: row_size as int }
                }
            } else {
                let len = row_size + le_u32(data, at);
                if !fits(data, at + ROW_HEADER_SIZE, len) {
                    RowSlice::Malformed
                } else {
                    RowSlice::Found { start: at + ROW_HEADER_SIZE, len }
                }
            }
        },
    }
}

/// The raw bytes of one (sub)row.
#[derive(Debug)]
pub struct RowData {
    pub row_id: u32,
    pub subrow_id: u16,
    pub data: Vec<u8>,
}

fn invalid_page(why: &str) -> (r: Error)
    ensures
        r is Invalid,
{
    Error::Invalid(ErrorValue::Structure("sheet page".to_string()), why.to_string())
}

impl Page {
    /// Parses a page; rejects truncated input, a bad magic and a directory of
    /// partial entries as `Invalid`.
    pub fn read(b: &[u8]) -> (r: Result<Page>)
        ensures
            r is Ok <==> exd_valid(b@),
            r matches Ok(p) ==> exd_describes(b@, p),
            r matches Err(e) ==> e is Invalid,
    {
        let n: usize = b.len();
        if n < EXD_HEADER_SIZE {
            return Err(invalid_page("truncated"));
        }
        if !(b[0] == 0x45u8 && b[1] == 0x58u8 && b[2] == 0x44u8 && b[3] == 0x46u8) {
            return Err(invalid_page("magic"));
        }
        let index_size = read_u32(b, 8) as usize;
        let data_size = read_u32(b, 12) as usize;
        if index_size % ROW_DEFINITION_SIZE != 0 {
            return Err(invalid_page("row directory"));
        }
        if index_size > n - EXD_HEADER_SIZE || data_size > n - EXD_HEADER_SIZE - index_size {
            return Err(invalid_page("truncated"));
        }
        let ghost bs = b@;
        let count = index_size / ROW_DEFINITION_SIZE;
        let mut rows: Vec<RowDefinition> = Vec::new();
        let mut i: usize = 0;
        while i < count
            invariant
                bs == b@,
                n == bs.len(),
                count == exd_index_size(bs) / (ROW_DEFINITION_SIZE as int),
                exd_index_size(bs) % (ROW_DEFINITION_SIZE as int) == 0,
                EXD_HEADER_SIZE + exd_index_size(bs) <= n,
                i <= count,
                rows@ == Seq::new(i as nat, |j: int| exd_row(bs, j)),
            decreases count - i,
        {
            let at = EXD_HEADER_SIZE + i * ROW_DEFINITION_SIZE;
            let id = read_u32(b, at);
            let offset = read_u32(b, at + 4);
            rows.push(RowDefinition { id, offset });
            i += 1;
            assert(rows@ =~= Seq::new(i as nat, |j: int| exd_row(bs, j)));
        }
        let data = copy_range(b, EXD_HEADER_SIZE + index_size, data_size);
        Ok(Page { rows, data })
    }

    /// Rows listed in this page's directory.
    pub fn rows(&self) -> (r: &Vec<RowDefinition>)
        ensures
            r@ == self.rows@,
    {
        &self.rows
    }

    /// The directory position of `row_id`.
    pub fn find_row(&self, row_id: u32) -> (r: Option<usize>)
        ensures
            r == (match find_row_spec(self.rows@, row_id) {
                Some(i) => Some(i as usize),
                None => None::<usize>,
            }),
            r matches Some(i) ==> i < self.rows@.len() && self.rows@[i as int].id == row_id,
    {
        proof { lemma_find_row(self.rows@, row_id); }
        let mut i: usize = 0;
        while i < self.rows.len()
            invariant
                i <= self.rows@.len(),
                forall|j: int| 0 <= j < i ==> (#[trigger] self.rows@[j]).id != row_id,
            decreases self.rows@.len() - i,
        {
            if self.rows[i].id == row_id {
                proof {
                    lemma_find_row(self.rows@, row_id);
                    let k = find_row_spec(self.rows@, row_id);
                    if let Some(k) = k {
                        if k > i { assert(self.rows@[i as int].id != row_id); }
                        if k < i { assert(self.rows@[k].id != row_id); }
                    }
                }
                return Some(i);
            }
            i += 1;
        }
        None
    }

    /// The count of subrows recorded in the row header of `row_id`:
    /// `NotFound` when the row is not listed, `Invalid` when its header does
    /// not fit in the data blob.
    pub fn subrow_count(&self, row_id: u32) -> (r: Result<u16>)
        ensures
            match find_row_spec(self.rows@, row_id) {
                None => r matches Err(e) && e is NotFound,
                Some(i) => {
                    let at = self.rows@[i].offset as int;
                    if fits(self.data@, at, ROW_HEADER_SIZE as int) {
                        r == Ok::<u16, Error>(le_u16(self.data@, at + 4) as u16)
                    } else {
                        r matches Err(e) && e is Invalid
                    }
                },
            },
    {
        proof { lemma_find_row(self.rows@, row_id); }
        match self.find_row(row_id) {
            None => Err(Error::NotFound(ErrorValue::Row { row: row_id, subrow: 0, sheet: String::new() })),
            Some(i) => {
                let at = self.rows[i].offset as usize;
                if at > self.data.len() || ROW_HEADER_SIZE > self.data.len() - at {
                    return Err(invalid_page("row header"));
                }
                Ok(read_u16(self.data.as_slice(), at + 4))
            },
        }
    }

    /// Slices subrow `subrow_id` of row `row_id` out of this page, as laid out
    /// by `header`. A row that the page does not list, or whose bytes do not
    /// fit, is `Invalid`; a subrow at or past the row's count is `NotFound`.
    pub fn read_row(&self, header: &Header, row_id: u32, subrow_id: u16) -> (r: Result<RowData>)
        ensures
            match row_slice(header.kind, header.row_size, self.rows@, self.data@, row_id, subrow_id) {
                RowSlice::Found { start, len } => r matches Ok(row) && row.row_id == row_id
                    && row.subrow_id == (if header.kind == SheetKind::Subrows { subrow_id } else { 0 })
                    && row.data@ == self.data@.subrange(start, start + len),
                RowSlice::Absent => r matches Err(e) && is_row_not_found_for(e, row_id, subrow_id),
                RowSlice::Malformed => r matches Err(e) && e is Invalid,
            },
    {
        proof { lemma_find_row(self.rows@, row_id); }
        let data = self.data.as_slice();
        let n: usize = data.len();
        let i = match self.find_row(row_id) {
            Some(i) => i,
            None => return Err(invalid_page("sheet header lists a row that the page does not")),
        };
        let at = self.rows[i].offset as usize;
        if at > n || ROW_HEADER_SIZE > n - at {
            return Err(invalid_page("row header"));
        }
        let data_size = read_u32(data, at);
        let count = read_u16(data, at + 4);
        if subrow_id >= count {
            return Err(Error::NotFound(ErrorValue::Row { row: row_id, subrow: subrow_id, sheet: String::new() }));
        }
        let row_size = header.row_size as usize;
        let mut start = at + ROW_HEADER_SIZE;
        let mut resource_subrow: u16 = 0;
        let len: usize;
        if header.kind == SheetKind::Subrows {
            let stride = SUBROW_HEADER_SIZE + row_size;
            assert(subrow_id as u64 * stride as u64 <= 0xFFFF * 0x10001) by (nonlinear_arith)
                requires
                    subrow_id <= 0xFFFF,
                    stride <= 0x10001,
            ;
            let skip = subrow_id as u64 * stride as u64;
            if skip > (n - start) as u64 || SUBROW_HEADER_SIZE > n - start - skip as usize {
                return Err(invalid_page("subrow header"));
            }
            let sub_at = start + skip as usize;
            let id = read_u16(data, sub_at);
            if id != subrow_id {
                return Err(invalid_page("subrow self-reports another id"));
            }
            resource_subrow = id;
            start = sub_at + SUBROW_HEADER_SIZE;
            len = row_size;
        } else {
            let total = row_size as u64 + data_size as u64;
            if total > (n - start) as u64 {
                return Err(invalid_page("row data"));
            }
            len = total as usize;
        }
        if len > n - start {
            return Err(invalid_page("row data"));
        }
        let bytes = copy_range(data, start, len);
        Ok(RowData { row_id, subrow_id: resource_subrow, data: bytes })
    }
}

/// A (sub)row that a page serves is one its directory lists: when the page
/// does not list a row that the sheet header places in it, the lookup is
/// `Malformed`, never `Found`.
pub proof fn lemma_found_row_is_listed(kind: SheetKind, row_size: u16, rows: Seq<RowDefinition>, data: Seq<u8>, row_id: u32, subrow_id: u16)
    requires
        row_slice(kind, row_size, rows, data, row_id, subrow_id) is Found,
    ensures
        exists|i: int| 0 <= i < rows.len() && (#[trigger] rows[i]).id == row_id,
{
    lemma_find_row(rows, row_id);
    let i = find_row_spec(rows, row_id)->Some_0;
    assert(rows[i].id == row_id);
}

} // verus!
