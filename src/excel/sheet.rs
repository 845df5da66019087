//! A sheet: binds its metadata and a resource, caches its header and pages,
//! and looks (sub)rows up.
use vstd::prelude::*;
use crate::error::{is_invalid_row, is_row_not_found, is_row_not_found_for, Error, ErrorValue, Result};
use crate::excel::header::{
    exh_describes, exh_valid, find_page_spec, lemma_find_page, resolve_language_spec, ColumnKind, Header,
    SheetKind,
};
use crate::excel::page::{row_slice, Page, RowData, RowSlice};

verus! {

/// Where a sheet's bytes come from.
pub trait Resource {
    /// The header bytes of sheet `sheet`.
    fn header(&self, sheet: &str) -> core::result::Result<Vec<u8>, String>;

    /// The bytes of the page of `sheet` starting at `start_id`, in stored language `language`.
    fn page(&self, sheet: &str, start_id: u32, language: u8) -> core::result::Result<Vec<u8>, String>;
}

/// What a sheet knows of itself: its name, and how its rows are materialised.
pub trait SheetMetadata {
    /// The user-visible row.
    type Row;

    /// Name of the sheet.
    fn name(&self) -> String;

    /// Turns a row's raw bytes into the user-visible row.
    fn populate_row(&self, header: &Header, row: RowData) -> core::result::Result<Self::Row, String>;
}

/// Metadata about a column within a sheet.
#[derive(Debug)]
pub struct Column {
    index: usize,
    offset: u16,
    kind: ColumnKind,
}

impl Column {
    /// Index of this column within the sheet header.
    pub fn index(&self) -> (r: usize)
        ensures
            r == self.spec_index(),
    {
        self.index
    }

    /// Offset of this column's data within row binary data.
    pub fn offset(&self) -> (r: u16)
        ensures
            r == self.spec_offset(),
    {
        self.offset
    }

    /// Kind of data held in this column.
    pub fn kind(&self) -> (r: ColumnKind)
        ensures
            r == self.spec_kind(),
    {
        self.kind
    }

    pub closed spec fn spec_index(&self) -> usize { self.index }
    pub closed spec fn spec_offset(&self) -> u16 { self.offset }
    pub closed spec fn spec_kind(&self) -> ColumnKind { self.kind }
}

/// Options of one lookup.
#[derive(Debug, Clone, Copy, PartialEq, Eq, Structural)]
pub struct RowOptions {
    /// Requested language; the sheet's default when absent.
    pub language: Option<u8>,
}

impl RowOptions {
    /// Options that change nothing.
    pub fn new() -> (r: RowOptions)
        ensures
            r.language is None,
    {
        RowOptions { language: None }
    }

    /// Requests `language`.
    pub fn language(self, language: u8) -> (r: RowOptions)
        ensures
            r.language == Some(language),
    {
        RowOptions { language: Some(language) }
    }
}

/// A page held in a sheet's cache, under its first row and stored language.
#[derive(Debug)]
pub struct CachedPage {
    pub start_id: u32,
    pub language: u8,
    pub page: Page,
}

/// The position of the cache entry for `(start_id, language)`.
pub open spec fn find_cached(pages: Seq<CachedPage>, start_id: u32, language: u8) -> Option<int>
    decreases pages.len(),
{
    if pages.len() == 0 {
        None
    } else {
        match find_cached(pages.drop_last(), start_id, language) {
            Some(i) => Some(i),
            None => if pages.last().start_id == start_id && pages.last().language == language {
                Some(pages.len() - 1)
            } else {
                None
            },
        }
    }
}

pub proof fn lemma_find_cached(pages: Seq<CachedPage>, start_id: u32, language: u8)
    ensures
        find_cached(pages, start_id, language) matches Some(i) ==> 0 <= i < pages.len()
            && pages[i].start_id == start_id && pages[i].language == language
            && forall|j: int| 0 <= j < i ==> !((#[trigger] pages[j]).start_id == start_id
                && pages[j].language == language),
        find_cached(pages, start_id, language) is None <==> forall|j: int| 0 <= j < pages.len()
            ==> !((#[trigger] pages[j]).start_id == start_id && pages[j].language == language),
    decreases pages.len(),
{
    if pages.len() > 0 {
        lemma_find_cached(pages.drop_last(), start_id, language);
        assert forall|j: int| 0 <= j < pages.len() - 1 implies pages.drop_last()[j] == pages[j] by {}
    }
}

/// Whether no two cache entries share a key.
#[verifier::opaque]
pub open spec fn keys_unique(pages: Seq<CachedPage>) -> bool {
    forall|i: int, j: int|
        0 <= i < pages.len() && 0 <= j < pages.len() && i != j ==> !((#[trigger] pages[i]).start_id
            == (#[trigger] pages[j]).start_id && pages[i].language == pages[j].language)
}

/// A sheet within an Excel database.
pub struct Sheet<'r, S, R> {
    sheet_metadata: S,
    default_language: u8,
    resource: &'r R,
    header: Option<Header>,
    pages: Vec<CachedPage>,
    /// Every page key handed to the resource, in order.
    page_loads: Ghost<Seq<(u32, u8)>>,
    /// What each header request returned, in order; `None` when the resource failed.
    header_loads: Ghost<Seq<Option<Seq<u8>>>>,
    /// Every `(row, subrow, bytes)` handed to the materialiser, in order.
    materialised: Ghost<Seq<(u32, u16, Seq<u8>)>>,
}

impl<'r, S: SheetMetadata, R: Resource> Sheet<'r, S, R> {
    /// The cache invariant.
    pub open spec fn wf(&self) -> bool {
        &&& self.cached_header() matches Some(h) ==> h.wf()
        &&& keys_unique(self.cached_pages())
    }

    pub closed spec fn cached_header(&self) -> Option<Header> { self.header }
    pub closed spec fn cached_pages(&self) -> Seq<CachedPage> { self.pages@ }
    /// Every page key handed to the resource so far, in order.
    pub closed spec fn page_loads(&self) -> Seq<(u32, u8)> { self.page_loads@ }
    pub closed spec fn spec_default_language(&self) -> u8 { self.default_language }
    /// What each header request returned so far; `None` when the resource failed.
    pub closed spec fn header_loads(&self) -> Seq<Option<Seq<u8>>> { self.header_loads@ }
    /// Every `(row, subrow, bytes)` handed to the materialiser so far.
    pub closed spec fn materialised(&self) -> Seq<(u32, u16, Seq<u8>)> { self.materialised@ }

    /// Loading the header: with the slot filled nothing is asked and the
    /// result is `Ok`; else the resource is asked once, and its failure is
    /// `Resource`, a malformed header `Invalid` (the slot staying empty), and
    /// a well-formed one fills the slot.
    pub open spec fn header_step(old: &Self, new: &Self, r: Result<()>) -> bool {
        if old.cached_header() is Some {
            &&& new.header_loads() == old.header_loads()
            &&& new.cached_header() == old.cached_header()
            &&& r is Ok
        } else {
            &&& new.header_loads().len() == old.header_loads().len() + 1
            &&& new.header_loads() == old.header_loads().push(new.header_loads().last())
            &&& match new.header_loads().last() {
                None => new.cached_header() is None && (r matches Err(e) && e is Resource),
                Some(b) => if exh_valid(b) {
                    r is Ok && (new.cached_header() matches Some(h) && exh_describes(b, h))
                } else {
                    new.cached_header() is None && (r matches Err(e) && e is Invalid)
                },
            }
        }
    }

    /// Asking for the page `(start_id, language)`: a cached page is taken as
    /// it is; else the resource is asked once, and the cache gains at most
    /// that page.
    pub open spec fn page_step(old: &Self, new: &Self, start_id: u32, language: u8) -> bool {
        if old.is_cached(start_id, language) {
            &&& new.page_loads() == old.page_loads()
            &&& new.cached_pages() == old.cached_pages()
        } else {
            &&& new.page_loads() == old.page_loads().push((start_id, language))
            &&& new.cached_pages() == old.cached_pages() || (new.cached_pages()
                == old.cached_pages().push(new.cached_pages().last()) && new.cached_pages().last().start_id
                == start_id && new.cached_pages().last().language == language)
        }
    }

    /// Whether the page cache, its request log and the materialiser log are as they were.
    pub open spec fn pages_untouched(old: &Self, new: &Self) -> bool {
        &&& new.cached_pages() == old.cached_pages()
        &&& new.page_loads() == old.page_loads()
        &&& new.materialised() == old.materialised()
    }

    pub open spec fn is_cached(&self, start_id: u32, language: u8) -> bool {
        find_cached(self.cached_pages(), start_id, language) is Some
    }

    /// Whether the caches of `self` keep what those of `old` held.
    pub open spec fn extends(&self, old: &Self) -> bool {
        &&& old.cached_header() is Some ==> self.cached_header() == old.cached_header()
        &&& old.cached_pages().len() <= self.cached_pages().len()
        &&& old.cached_pages() == self.cached_pages().subrange(0, old.cached_pages().len() as int)
        &&& old.spec_default_language() == self.spec_default_language()
    }

    /// A sheet with empty caches.
    pub fn new(sheet_metadata: S, default_language: u8, resource: &'r R) -> (r: Self)
        ensures
            r.wf(),
            r.cached_header() is None,
            r.cached_pages().len() == 0,
            r.page_loads().len() == 0,
            r.header_loads().len() == 0,
            r.materialised().len() == 0,
            r.spec_default_language() == default_language,
    {
        proof { reveal(keys_unique); }
        Sheet {
            sheet_metadata,
            default_language,
            resource,
            header: None,
            pages: Vec::new(),
            page_loads: Ghost(Seq::empty()),
            header_loads: Ghost(Seq::empty()),
            materialised: Ghost(Seq::empty()),
        }
    }

    /// Loads the header into its cache slot unless it is there; a failure of
    /// the resource is `Resource`, a malformed header `Invalid`.
    pub fn header(&mut self) -> (r: Result<()>)
        requires
            old(self).wf(),
        ensures
            final(self).wf(),
            final(self).extends(old(self)),
            Self::pages_untouched(old(self), final(self)),
            Self::header_step(old(self), final(self), r),
            r is Ok <==> final(self).cached_header() is Some,
            r matches Err(e) ==> e is Resource || e is Invalid,
    {
        proof { assert(self.pages@.subrange(0, self.pages@.len() as int) =~= self.pages@); }
        if self.header.is_none() {
            let name = self.sheet_metadata.name();
            let bytes = match self.resource.header(name.as_str()) {
                Ok(b) => b,
                Err(e) => {
                    self.header_loads = Ghost(self.header_loads@.push(None));
                    return Err(Error::Resource(e));
                },
            };
            self.header_loads = Ghost(self.header_loads@.push(Some(bytes@)));
            let header = Header::read(bytes.as_slice())?;
            self.header = Some(header);
        }
        Ok(())
    }

    /// The cache position of the page `(start_id, language)`, loading it from
    /// the resource on a miss. The resource is asked only on a miss, and a
    /// failed load leaves the cache as it was.
    fn page_slot(&mut self, start_id: u32, language: u8) -> (r: Result<usize>)
        requires
            old(self).wf(),
        ensures
            final(self).wf(),
            final(self).extends(old(self)),
            final(self).header == old(self).header,
            final(self).header_loads@ == old(self).header_loads@,
            final(self).materialised@ == old(self).materialised@,
            Self::page_step(old(self), final(self), start_id, language),
            old(self).is_cached(start_id, language) ==> final(self).pages@ == old(self).pages@
                && final(self).page_loads@ == old(self).page_loads@,
            !old(self).is_cached(start_id, language) ==> final(self).page_loads@
                == old(self).page_loads@.push((start_id, language)),
            r is Ok <==> final(self).is_cached(start_id, language),
            r matches Ok(i) ==> find_cached(final(self).pages@, start_id, language) == Some(i as int),
            r matches Err(e) ==> final(self).pages@ == old(self).pages@ && (e is Resource || e is Invalid),
    {
        proof {
            lemma_find_cached(self.pages@, start_id, language);
            assert(self.pages@.subrange(0, self.pages@.len() as int) =~= self.pages@);
        }
        let mut i: usize = 0;
        while i < self.pages.len()
            invariant
                *self == *old(self),
                old(self).wf(),
                i <= self.pages@.len(),
                forall|j: int| 0 <= j < i ==> !((#[trigger] self.pages@[j]).start_id == start_id
                    && self.pages@[j].language == language),
            decreases self.pages@.len() - i,
        {
            if self.pages[i].start_id == start_id && self.pages[i].language == language {
                proof {
                    lemma_find_cached(self.pages@, start_id, language);
                    assert(self.pages@.subrange(0, self.pages@.len() as int) =~= self.pages@);
                    let k = find_cached(self.pages@, start_id, language);
                    if let Some(k) = k {
                        if k > i { assert(!(self.pages@[i as int].start_id == start_id && self.pages@[i as int].language == language)); }
                        if k < i { assert(!(self.pages@[k].start_id == start_id && self.pages@[k].language == language)); }
                    }
                }
                return Ok(i);
            }
            i += 1;
        }
        let ghost old_pages = self.pages@;
        proof { reveal(keys_unique); }
        self.page_loads = Ghost(self.page_loads@.push((start_id, language)));
        let name = self.sheet_metadata.name();
        let bytes = match self.resource.page(name.as_str(), start_id, language) {
            Ok(b) => b,
            Err(e) => return Err(Error::Resource(e)),
        };
        let page = Page::read(bytes.as_slice())?;
        self.pages.push(CachedPage { start_id, language, page });
        proof {
            assert(old_pages =~= self.pages@.subrange(0, old_pages.len() as int));
            assert(self.pages@.drop_last() =~= old_pages);
            lemma_find_cached(self.pages@, start_id, language);
        }
        Ok(self.pages.len() - 1)
    }

    /// The cached header, if loaded.
    pub fn cached(&self) -> (r: Option<&Header>)
        ensures
            r is None <==> self.cached_header() is None,
            r matches Some(h) ==> self.cached_header() == Some(*h),
    {
        match &self.header {
            Some(h) => Some(h),
            None => None,
        }
    }

    /// The language that a lookup with `options` requests.
    pub open spec fn requested_language(&self, options: RowOptions) -> u8 {
        match options.language {
            Some(l) => l,
            None => self.spec_default_language(),
        }
    }

    /// What a lookup of subrow `subrow_id` of row `row_id` in language
    /// `requested` returns, given the header `h` and the state after it:
    /// a subrow past 0 of a sheet without subrows, and a row outside every
    /// page, are `NotFound`; an unsupported language falls back to the
    /// neutral one, else is `NotFound`; the page is asked of the resource only
    /// when it is not cached; then the page decides as `row_slice` says.
    pub open spec fn lookup_outcome(
        old: &Self,
        new: &Self,
        h: Header,
        row_id: u32,
        subrow_id: u16,
        requested: u8,
        r: Result<S::Row>,
    ) -> bool {
        if h.kind != SheetKind::Subrows && subrow_id > 0 {
            (r matches Err(e) && is_row_not_found_for(e, row_id, subrow_id)) && Self::pages_untouched(old, new)
        } else {
            match resolve_language_spec(h.languages@, requested) {
                None => r == Err::<S::Row, Error>(Error::NotFound(ErrorValue::Language(requested)))
                    && Self::pages_untouched(old, new),
                Some(language) => match find_page_spec(h.pages@, row_id) {
                    None => (r matches Err(e) && is_row_not_found_for(e, row_id, subrow_id))
                        && Self::pages_untouched(old, new),
                    Some(p) => {
                        let start_id = h.pages@[p].start_id;
                        &&& Self::page_step(old, new, start_id, language)
                        &&& match find_cached(new.cached_pages(), start_id, language) {
                            None => (r matches Err(e) && (e is Resource || e is Invalid))
                                && new.materialised() == old.materialised(),
                            Some(c) => {
                                let page = new.cached_pages()[c].page;
                                match row_slice(h.kind, h.row_size, page.rows@, page.data@, row_id, subrow_id) {
                                    RowSlice::Found { start, len } => {
                                        &&& new.materialised() == old.materialised().push(
                                            (row_id, subrow_id, page.data@.subrange(start, start + len)))
                                        &&& r is Ok || (r matches Err(e) && is_invalid_row(e, row_id, subrow_id))
                                    },
                                    RowSlice::Absent => (r matches Err(e) && is_row_not_found_for(e, row_id, subrow_id))
                                        && new.materialised() == old.materialised(),
                                    RowSlice::Malformed => (r matches Err(e) && e is Invalid)
                                        && new.materialised() == old.materialised(),
                                }
                            },
                        }
                    },
                },
            }
        }
    }

    /// What `lookup_outcome` says of the result alone, read against the caches
    /// of `self` after the lookup.
    pub open spec fn lookup_result(&self, h: Header, row_id: u32, subrow_id: u16, requested: u8, r: Result<S::Row>) -> bool {
        if h.kind != SheetKind::Subrows && subrow_id > 0 {
            r matches Err(e) && is_row_not_found_for(e, row_id, subrow_id)
        } else {
            match resolve_language_spec(h.languages@, requested) {
                None => r == Err::<S::Row, Error>(Error::NotFound(ErrorValue::Language(requested))),
                Some(language) => match find_page_spec(h.pages@, row_id) {
                    None => r matches Err(e) && is_row_not_found_for(e, row_id, subrow_id),
                    Some(p) => match find_cached(self.cached_pages(), h.pages@[p].start_id, language) {
                        None => r matches Err(e) && (e is Resource || e is Invalid),
                        Some(c) => {
                            let page = self.cached_pages()[c].page;
                            match row_slice(h.kind, h.row_size, page.rows@, page.data@, row_id, subrow_id) {
                                RowSlice::Found { .. } => r is Ok || (r matches Err(e) && is_invalid_row(e, row_id, subrow_id)),
                                RowSlice::Absent => r matches Err(e) && is_row_not_found_for(e, row_id, subrow_id),
                                RowSlice::Malformed => r matches Err(e) && e is Invalid,
                            }
                        },
                    },
                },
            }
        }
    }

    pub proof fn lemma_outcome_result(old: &Self, new: &Self, h: Header, row_id: u32, subrow_id: u16, requested: u8, r: Result<S::Row>)
        requires
            Self::lookup_outcome(old, new, h, row_id, subrow_id, requested, r),
        ensures
            new.lookup_result(h, row_id, subrow_id, requested, r),
    {
    }

    fn row_not_found(&self, row_id: u32, subrow_id: u16) -> (r: Error)
        ensures
            is_row_not_found_for(r, row_id, subrow_id),
    {
        Error::NotFound(ErrorValue::Row { row: row_id, subrow: subrow_id, sheet: self.sheet_metadata.name() })
    }

    /// The page key that serves subrow `subrow_id` of row `row_id` in
    /// language `requested`, by the cached header.
    fn locate(&self, row_id: u32, subrow_id: u16, requested: u8) -> (r: Result<(u32, u8)>)
        requires
            self.cached_header() is Some,
        ensures
            ({
                let h = self.cached_header()->Some_0;
                if h.kind != SheetKind::Subrows && subrow_id > 0 {
                    r matches Err(e) && is_row_not_found_for(e, row_id, subrow_id)
                } else {
                    match resolve_language_spec(h.languages@, requested) {
                        None => r matches Err(e) && e == Error::NotFound(ErrorValue::Language(requested)),
                        Some(language) => match find_page_spec(h.pages@, row_id) {
                            None => r matches Err(e) && is_row_not_found_for(e, row_id, subrow_id),
                            Some(p) => r == Ok::<(u32, u8), Error>((h.pages@[p].start_id, language)),
                        },
                    }
                }
            }),
    {
        match &self.header {
            Some(h) => {
                proof { lemma_find_page(h.pages@, row_id); }
                if h.kind != SheetKind::Subrows && subrow_id > 0 {
                    return Err(self.row_not_found(row_id, subrow_id));
                }
                let language = h.resolve_language(requested)?;
                match h.find_page(row_id) {
                    Some(p) => Ok((h.pages[p].start_id, language)),
                    None => Err(self.row_not_found(row_id, subrow_id)),
                }
            },
            None => Err(Error::Resource("sheet header".to_string())),
        }
    }

    /// Hands `row` to the materialiser and records exactly what it was
    /// handed; its failure is `Invalid` for that (sub)row.
    fn materialise(metadata: &S, h: &Header, row: RowData, log: &mut Ghost<Seq<(u32, u16, Seq<u8>)>>) -> (r: Result<S::Row>)
        ensures
            final(log)@ == old(log)@.push((row.row_id, row.subrow_id, row.data@)),
            r is Ok || (r matches Err(e) && is_invalid_row(e, row.row_id, row.subrow_id)),
    {
        let row_id = row.row_id;
        let subrow_id = row.subrow_id;
        *log = Ghost(log@.push((row.row_id, row.subrow_id, row.data@)));
        match metadata.populate_row(h, row) {
            Ok(v) => Ok(v),
            Err(why) => Err(Error::Invalid(ErrorValue::Row { row: row_id, subrow: subrow_id, sheet: metadata.name() }, why)),
        }
    }

    /// Reads the (sub)row out of the cached page at `slot` and materialises it.
    fn read_cached(&mut self, slot: usize, row_id: u32, subrow_id: u16) -> (r: Result<S::Row>)
        requires
            old(self).cached_header() is Some,
            slot < old(self).cached_pages().len(),
            old(self).cached_header()->Some_0.kind == SheetKind::Subrows || subrow_id == 0,
        ensures
            final(self).header == old(self).header,
            final(self).pages@ == old(self).pages@,
            final(self).page_loads@ == old(self).page_loads@,
            final(self).header_loads@ == old(self).header_loads@,
            final(self).default_language == old(self).default_language,
            ({
                let h = old(self).cached_header()->Some_0;
                let page = old(self).cached_pages()[slot as int].page;
                match row_slice(h.kind, h.row_size, page.rows@, page.data@, row_id, subrow_id) {
                    RowSlice::Found { start, len } => {
                        &&& final(self).materialised() == old(self).materialised().push(
                            (row_id, subrow_id, page.data@.subrange(start, start + len)))
                        &&& r is Ok || (r matches Err(e) && is_invalid_row(e, row_id, subrow_id))
                    },
                    RowSlice::Absent => (r matches Err(e) && is_row_not_found_for(e, row_id, subrow_id))
                        && final(self).materialised() == old(self).materialised(),
                    RowSlice::Malformed => (r matches Err(e) && e is Invalid)
                        && final(self).materialised() == old(self).materialised(),
                }
            }),
    {
        match &self.header {
            Some(h) => {
                let row = match self.pages[slot].page.read_row(h, row_id, subrow_id) {
                    Ok(row) => row,
                    Err(e) => {
                        if e.is_row_not_found() {
                            return Err(self.row_not_found(row_id, subrow_id));
                        }
                        return Err(e);
                    },
                };
                Self::materialise(&self.sheet_metadata, h, row, &mut self.materialised)
            },
            None => Err(Error::Resource("sheet header".to_string())),
        }
    }

    /// Fetches subrow `subrow_id` of row `row_id` with `options`.
    pub fn subrow_with_options(&mut self, row_id: u32, subrow_id: u16, options: &RowOptions) -> (r: Result<S::Row>)
        requires
            old(self).wf(),
        ensures
            final(self).wf(),
            final(self).extends(old(self)),
            r is Ok ==> final(self).cached_header() is Some,
            final(self).cached_header() is None ==> (r matches Err(e) && (e is Resource || e is Invalid))
                && Self::header_step(old(self), final(self), Err(r->Err_0))
                && Self::pages_untouched(old(self), final(self)),
            final(self).cached_header() is Some ==> Self::header_step(old(self), final(self), Ok(())),
            final(self).cached_header() matches Some(h) ==> Self::lookup_outcome(
                old(self), final(self), h, row_id, subrow_id, old(self).requested_language(*options), r),
    {
        self.header()?;
        let requested = match options.language {
            Some(l) => l,
            None => self.default_language,
        };
        let (start_id, language) = self.locate(row_id, subrow_id, requested)?;
        let ghost mid = *self;
        let slot = self.page_slot(start_id, language)?;
        proof { lemma_find_cached(self.pages@, start_id, language); }
        self.read_cached(slot, row_id, subrow_id)
    }

    /// A row options builder for this sheet.
    pub fn with(&self) -> (r: RowOptions)
        ensures
            r.language is None,
    {
        RowOptions::new()
    }

    /// Fetches a row by id with `options`; in a sheet with subrows, subrow 0.
    pub fn row_with_options(&mut self, row_id: u32, options: &RowOptions) -> (r: Result<S::Row>)
        requires
            old(self).wf(),
        ensures
            final(self).wf(),
            final(self).extends(old(self)),
            r is Ok ==> final(self).cached_header() is Some,
            final(self).cached_header() is None ==> (r matches Err(e) && (e is Resource || e is Invalid)),
            final(self).cached_header() matches Some(h) ==> Self::lookup_outcome(
                old(self), final(self), h, row_id, 0, old(self).requested_language(*options), r),
    {
        self.subrow_with_options(row_id, 0, options)
    }

    /// Fetches a row by id in the default language; in a sheet with subrows, subrow 0.
    pub fn row(&mut self, row_id: u32) -> (r: Result<S::Row>)
        requires
            old(self).wf(),
        ensures
            final(self).wf(),
            final(self).extends(old(self)),
            r is Ok ==> final(self).cached_header() is Some,
            final(self).cached_header() is None ==> (r matches Err(e) && (e is Resource || e is Invalid)),
            final(self).cached_header() matches Some(h) ==> Self::lookup_outcome(
                old(self), final(self), h, row_id, 0, old(self).spec_default_language(), r),
    {
        self.subrow_with_options(row_id, 0, &RowOptions::new())
    }

    /// Fetches a subrow by row id and subrow id in the default language.
    pub fn subrow(&mut self, row_id: u32, subrow_id: u16) -> (r: Result<S::Row>)
        requires
            old(self).wf(),
        ensures
            final(self).wf(),
            final(self).extends(old(self)),
            r is Ok ==> final(self).cached_header() is Some,
            final(self).cached_header() is None ==> (r matches Err(e) && (e is Resource || e is Invalid)),
            final(self).cached_header() matches Some(h) ==> Self::lookup_outcome(
                old(self), final(self), h, row_id, subrow_id, old(self).spec_default_language(), r),
    {
        self.subrow_with_options(row_id, subrow_id, &RowOptions::new())
    }

    /// Metadata for all columns of this sheet, in header order.
    pub fn columns(&mut self) -> (r: Result<Vec<Column>>)
        requires
            old(self).wf(),
        ensures
            final(self).wf(),
            final(self).extends(old(self)),
            Self::pages_untouched(old(self), final(self)),
            Self::header_step(old(self), final(self), if r is Ok { Ok::<(), Error>(()) } else { Err(r->Err_0) }),
            r is Ok <==> final(self).cached_header() is Some,
            r matches Ok(cs) ==> ({
                let h = final(self).cached_header()->Some_0;
                &&& cs@.len() == h.columns@.len()
                &&& forall|i: int| 0 <= i < cs@.len() ==> {
                    &&& (#[trigger] cs@[i]).spec_index() == i
                    &&& cs@[i].spec_offset() == h.columns@[i].offset
                    &&& cs@[i].spec_kind() == h.columns@[i].kind
                }
            }),
    {
        self.header()?;
        let mut columns: Vec<Column> = Vec::new();
        match &self.header {
            Some(h) => {
                let mut i: usize = 0;
                while i < h.columns.len()
                    invariant
                        i <= h.columns@.len(),
                        columns@.len() == i,
                        forall|j: int| 0 <= j < i ==> {
                            &&& (#[trigger] columns@[j]).spec_index() == j
                            &&& columns@[j].spec_offset() == h.columns@[j].offset
                            &&& columns@[j].spec_kind() == h.columns@[j].kind
                        },
                    decreases h.columns@.len() - i,
                {
                    let definition = h.columns[i];
                    columns.push(Column { index: i, offset: definition.offset, kind: definition.kind });
                    i += 1;
                }
                Ok(columns)
            },
            None => Err(Error::Resource("sheet header".to_string())),
        }
    }

    /// The kind of this sheet, loading its header.
    pub fn kind(&mut self) -> (r: Result<SheetKind>)
        requires
            old(self).wf(),
        ensures
            final(self).wf(),
            final(self).extends(old(self)),
            Self::pages_untouched(old(self), final(self)),
            Self::header_step(old(self), final(self), if r is Ok { Ok::<(), Error>(()) } else { Err(r->Err_0) }),
            r is Ok <==> final(self).cached_header() is Some,
            r matches Ok(k) ==> final(self).cached_header()->Some_0.kind == k,
    {
        self.header()?;
        match &self.header {
            Some(h) => Ok(h.kind),
            None => Err(Error::Resource("sheet header".to_string())),
        }
    }

    /// The cache slot of the page at `page_index` of the header, in the
    /// stored language that `options` resolves to.
    pub fn page_at(&mut self, page_index: usize, options: &RowOptions) -> (r: Result<usize>)
        requires
            old(self).wf(),
        ensures
            final(self).wf(),
            final(self).extends(old(self)),
            final(self).materialised() == old(self).materialised(),
            final(self).cached_header() is None ==> r is Err
                && Self::header_step(old(self), final(self), Err(r->Err_0))
                && Self::pages_untouched(old(self), final(self)),
            final(self).cached_header() is Some ==> Self::header_step(old(self), final(self), Ok(())),
            final(self).cached_header() matches Some(h) ==> ({
                let requested = old(self).requested_language(*options);
                if page_index >= h.pages@.len() {
                    (r matches Err(e) && e is NotFound) && Self::pages_untouched(old(self), final(self))
                } else {
                    match resolve_language_spec(h.languages@, requested) {
                        None => r == Err::<usize, Error>(Error::NotFound(ErrorValue::Language(requested)))
                            && Self::pages_untouched(old(self), final(self)),
                        Some(language) => {
                            &&& Self::page_step(old(self), final(self), h.pages@[page_index as int].start_id, language)
                            &&& r is Ok <==> final(self).is_cached(h.pages@[page_index as int].start_id, language)
                        },
                    }
                }
            }),
            r matches Err(e) ==> !is_row_not_found(e),
            final(self).cached_header() matches Some(h) ==> ({
                let requested = old(self).requested_language(*options);
                if page_index >= h.pages@.len() {
                    true
                } else {
                    match resolve_language_spec(h.languages@, requested) {
                        None => true,
                        Some(language) => r is Ok <==> final(self).is_cached(h.pages@[page_index as int].start_id, language),
                    }
                }
            }),
            r matches Ok(slot) ==> slot < final(self).cached_pages().len()
                && final(self).cached_header() is Some
                && page_index < final(self).cached_header()->Some_0.pages@.len()
                && final(self).cached_pages()[slot as int].start_id
                    == final(self).cached_header()->Some_0.pages@[page_index as int].start_id
                && resolve_language_spec(final(self).cached_header()->Some_0.languages@,
                    old(self).requested_language(*options)) is Some
                && find_cached(final(self).cached_pages(),
                    final(self).cached_header()->Some_0.pages@[page_index as int].start_id,
                    resolve_language_spec(final(self).cached_header()->Some_0.languages@,
                        old(self).requested_language(*options))->Some_0) == Some(slot as int),
    {
        self.header()?;
        let requested = match options.language {
            Some(l) => l,
            None => self.default_language,
        };
        let (start_id, language) = match &self.header {
            Some(h) => {
                if page_index >= h.pages.len() {
                    return Err(Error::NotFound(ErrorValue::Structure("page".to_string())));
                }
                (h.pages[page_index].start_id, h.resolve_language(requested)?)
            },
            None => return Err(Error::Resource("sheet header".to_string())),
        };
        let slot = self.page_slot(start_id, language)?;
        proof { lemma_find_cached(self.pages@, start_id, language); }
        Ok(slot)
    }

    /// The cached page at `slot`.
    pub fn cached_page(&self, slot: usize) -> (r: &Page)
        requires
            slot < self.cached_pages().len(),
        ensures
            *r == self.cached_pages()[slot as int].page,
    {
        &self.pages[slot].page
    }

    /// Keeping what the caches held is reflexive.
    pub proof fn lemma_extends_refl(a: &Self)
        ensures
            a.extends(a),
    {
        assert(a.cached_pages().subrange(0, a.cached_pages().len() as int) =~= a.cached_pages());
    }

    /// Keeping what the caches held is transitive.
    pub proof fn lemma_extends_trans(a: &Self, b: &Self, c: &Self)
        requires
            b.extends(a),
            c.extends(b),
        ensures
            c.extends(a),
    {
        let n = a.cached_pages().len() as int;
        assert(a.cached_pages() =~= c.cached_pages().subrange(0, n)) by {
            assert forall|i: int| 0 <= i < n implies a.cached_pages()[i] == c.cached_pages()[i] by {
                assert(a.cached_pages()[i] == b.cached_pages().subrange(0, n)[i]);
                assert(b.cached_pages()[i] == c.cached_pages().subrange(0, b.cached_pages().len() as int)[i]);
            }
        }
    }

    /// Whether, with the caches of `self` and header `h`, subrow `subrow_id`
    /// of row `row_id` in language `requested` is found: the subrow is allowed
    /// by the sheet kind, the language resolves, a page holds the row, that
    /// page is cached, and it holds the subrow's bytes.
    pub open spec fn serves(&self, h: Header, row_id: u32, subrow_id: u16, requested: u8) -> bool {
        &&& h.kind == SheetKind::Subrows || subrow_id == 0
        &&& match resolve_language_spec(h.languages@, requested) {
            None => false,
            Some(language) => match find_page_spec(h.pages@, row_id) {
                None => false,
                Some(p) => match find_cached(self.cached_pages(), h.pages@[p].start_id, language) {
                    None => false,
                    Some(c) => {
                        let page = self.cached_pages()[c].page;
                        row_slice(h.kind, h.row_size, page.rows@, page.data@, row_id, subrow_id) is Found
                    },
                },
            },
        }
    }

    /// A successful lookup is one that the caches serve.
    pub proof fn lemma_ok_serves(old: &Self, new: &Self, h: Header, row_id: u32, subrow_id: u16, requested: u8, r: Result<S::Row>)
        requires
            Self::lookup_outcome(old, new, h, row_id, subrow_id, requested, r),
            r is Ok,
        ensures
            new.serves(h, row_id, subrow_id, requested),
    {
    }

    /// What the caches serve stays served as they grow.
    pub proof fn lemma_serves_kept(a: &Self, b: &Self, h: Header, row_id: u32, subrow_id: u16, requested: u8)
        requires
            a.serves(h, row_id, subrow_id, requested),
            b.extends(a),
        ensures
            b.serves(h, row_id, subrow_id, requested),
    {
        let language = resolve_language_spec(h.languages@, requested)->Some_0;
        let p = find_page_spec(h.pages@, row_id)->Some_0;
        let start_id = h.pages@[p].start_id;
        let c = find_cached(a.cached_pages(), start_id, language)->Some_0;
        lemma_find_cached(a.cached_pages(), start_id, language);
        lemma_find_cached(b.cached_pages(), start_id, language);
        let n = a.cached_pages().len() as int;
        assert(b.cached_pages()[c] == a.cached_pages()[c]) by {
            assert(a.cached_pages()[c] == b.cached_pages().subrange(0, n)[c]);
        }
        assert forall|j: int| 0 <= j < c implies !((#[trigger] b.cached_pages()[j]).start_id == start_id
            && b.cached_pages()[j].language == language) by {
            assert(a.cached_pages()[j] == b.cached_pages().subrange(0, n)[j]);
        }
        let k = find_cached(b.cached_pages(), start_id, language);
        if let Some(k) = k {
            if k < c {
                assert(!(b.cached_pages()[k].start_id == start_id && b.cached_pages()[k].language == language));
            }
            if k > c {
                assert(!(b.cached_pages()[c].start_id == start_id && b.cached_pages()[c].language == language));
            }
        }
    }

    /// Two lookups of the same (sub)row in the same language, the first of
    /// which succeeded, ask the resource for its page at most once between
    /// them: the first asks only on a miss, the second not at all.
    pub proof fn lemma_single_load(
        s0: &Self,
        s1: &Self,
        s2: &Self,
        h: Header,
        row_id: u32,
        subrow_id: u16,
        requested: u8,
        r1: Result<S::Row>,
        r2: Result<S::Row>,
    )
        requires
            Self::lookup_outcome(s0, s1, h, row_id, subrow_id, requested, r1),
            r1 is Ok,
            Self::lookup_outcome(s1, s2, h, row_id, subrow_id, requested, r2),
        ensures
            s2.page_loads() == s1.page_loads(),
            s1.page_loads() == s0.page_loads() || s1.page_loads().len() == s0.page_loads().len() + 1,
    {
        let language = resolve_language_spec(h.languages@, requested)->Some_0;
        let p = find_page_spec(h.pages@, row_id)->Some_0;
        let start_id = h.pages@[p].start_id;
        assert(s1.is_cached(start_id, language));
    }

    /// The (row, subrow) ids at position `q` (page index, directory index,
    /// subrow) when the page is cached in stored language `language` and its
    /// directory has that entry.
    pub open spec fn pair_at(&self, h: Header, language: u8, q: (usize, usize, u16)) -> Option<(u32, u16)> {
        if q.0 >= h.pages@.len() {
            None
        } else {
            match find_cached(self.cached_pages(), h.pages@[q.0 as int].start_id, language) {
                None => None,
                Some(c) => {
                    let rows = self.cached_pages()[c].page.rows@;
                    if q.1 < rows.len() { Some((rows[q.1 as int].id, q.2)) } else { None }
                },
            }
        }
    }

    /// Whether every cached page of the header lists only rows of its own range.
    pub open spec fn agrees(&self, h: Header, language: u8) -> bool {
        forall|p: int| 0 <= p < h.pages@.len() ==> match #[trigger] find_cached(self.cached_pages(), h.pages@[p].start_id, language) {
            None => true,
            Some(c) => forall|i: int| 0 <= i < self.cached_pages()[c].page.rows@.len()
                ==> h.pages@[p].contains(#[trigger] self.cached_pages()[c].page.rows@[i].id),
        }
    }

    /// A cache entry stays where it is as the caches grow.
    pub proof fn lemma_cached_kept(a: &Self, b: &Self, start_id: u32, language: u8)
        requires
            b.extends(a),
            find_cached(a.cached_pages(), start_id, language) is Some,
        ensures
            find_cached(b.cached_pages(), start_id, language) == find_cached(a.cached_pages(), start_id, language),
            b.cached_pages()[find_cached(a.cached_pages(), start_id, language)->Some_0]
                == a.cached_pages()[find_cached(a.cached_pages(), start_id, language)->Some_0],
    {
        let c = find_cached(a.cached_pages(), start_id, language)->Some_0;
        lemma_find_cached(a.cached_pages(), start_id, language);
        lemma_find_cached(b.cached_pages(), start_id, language);
        let n = a.cached_pages().len() as int;
        assert(b.cached_pages()[c] == a.cached_pages()[c]) by {
            assert(a.cached_pages()[c] == b.cached_pages().subrange(0, n)[c]);
        }
        assert forall|j: int| 0 <= j < c implies !((#[trigger] b.cached_pages()[j]).start_id == start_id
            && b.cached_pages()[j].language == language) by {
            assert(a.cached_pages()[j] == b.cached_pages().subrange(0, n)[j]);
        }
        let k = find_cached(b.cached_pages(), start_id, language);
        if let Some(k) = k {
            if k < c {
                assert(!(b.cached_pages()[k].start_id == start_id && b.cached_pages()[k].language == language));
            }
            if k > c {
                assert(!(b.cached_pages()[c].start_id == start_id && b.cached_pages()[c].language == language));
            }
        }
    }

    /// Agreement of grown caches holds of the caches they grew from.
    pub proof fn lemma_agrees_shrinks(a: &Self, b: &Self, h: Header, language: u8)
        requires
            b.extends(a),
            b.agrees(h, language),
        ensures
            a.agrees(h, language),
    {
        assert forall|p: int| 0 <= p < h.pages@.len() implies match #[trigger] find_cached(a.cached_pages(), h.pages@[p].start_id, language) {
            None => true,
            Some(c) => forall|i: int| 0 <= i < a.cached_pages()[c].page.rows@.len()
                ==> h.pages@[p].contains(#[trigger] a.cached_pages()[c].page.rows@[i].id),
        } by {
            if find_cached(a.cached_pages(), h.pages@[p].start_id, language) is Some {
                Self::lemma_cached_kept(a, b, h.pages@[p].start_id, language);
            }
        }
    }

    /// Under agreement, the row at a position is looked up in that position's page.
    pub proof fn lemma_pair_page(&self, h: Header, language: u8, q: (usize, usize, u16))
        requires
            h.wf(),
            self.agrees(h, language),
            self.pair_at(h, language, q) is Some,
        ensures
            find_page_spec(h.pages@, self.pair_at(h, language, q)->Some_0.0) == Some(q.0 as int),
    {
        let id = self.pair_at(h, language, q)->Some_0.0;
        let p = q.0 as int;
        let c = find_cached(self.cached_pages(), h.pages@[p].start_id, language)->Some_0;
        assert(h.pages@[p].contains(self.cached_pages()[c].page.rows@[q.1 as int].id));
        lemma_find_page(h.pages@, id);
        let k = find_page_spec(h.pages@, id);
        if let Some(k) = k {
            if k < p {
                crate::excel::header::lemma_pages_ordered(h.pages@, k, p);
            }
        }
    }

    /// Whether every position from `from` (inclusive unless `skip_from`) up
    /// to `to` (exclusive) lies in a cached page, and none holds a (sub)row
    /// that a lookup in `requested` finds.
    #[verifier::opaque]
    pub open spec fn checked_range(
        &self,
        h: Header,
        language: u8,
        requested: u8,
        from: (usize, usize, u16),
        to: (usize, usize, u16),
        skip_from: bool,
    ) -> bool {
        forall|q: (usize, usize, u16)| #![trigger self.pair_at(h, language, q)]
            (position_lt(from, q) || (q == from && !skip_from)) && position_lt(q, to)
                ==> self.position_checked(h, language, requested, q)
    }

    /// Whether position `q` lies in a cached page and holds no (sub)row that a
    /// lookup in `requested` finds.
    pub open spec fn position_checked(&self, h: Header, language: u8, requested: u8, q: (usize, usize, u16)) -> bool {
        &&& q.0 < h.pages@.len() ==> self.is_cached(h.pages@[q.0 as int].start_id, language)
        &&& self.pair_at(h, language, q) matches Some(pr) ==> self.refuses(h, pr.0, pr.1, requested)
    }

    /// Whether, with the caches of `self` and header `h`, a lookup of subrow
    /// `subrow_id` of row `row_id` in language `requested` reports it absent:
    /// a subrow past 0 of a sheet without subrows, a row outside every page,
    /// or a cached page whose row header has fewer subrows.
    pub open spec fn refuses(&self, h: Header, row_id: u32, subrow_id: u16, requested: u8) -> bool {
        ||| h.kind != SheetKind::Subrows && subrow_id > 0
        ||| match resolve_language_spec(h.languages@, requested) {
            None => false,
            Some(language) => match find_page_spec(h.pages@, row_id) {
                None => true,
                Some(p) => match find_cached(self.cached_pages(), h.pages@[p].start_id, language) {
                    None => false,
                    Some(c) => {
                        let page = self.cached_pages()[c].page;
                        row_slice(h.kind, h.row_size, page.rows@, page.data@, row_id, subrow_id) is Absent
                    },
                },
            },
        }
    }

    /// A (sub)row that a lookup reports absent is not one the caches serve.
    pub proof fn lemma_refuses_not_served(&self, h: Header, row_id: u32, subrow_id: u16, requested: u8)
        requires
            self.refuses(h, row_id, subrow_id, requested),
        ensures
            !self.serves(h, row_id, subrow_id, requested),
    {
    }

    /// An empty range is checked.
    pub proof fn lemma_checked_empty(&self, h: Header, language: u8, requested: u8, from: (usize, usize, u16))
        ensures
            self.checked_range(h, language, requested, from, from, false),
    {
        reveal(Sheet::checked_range);
    }

    /// Two checked ranges that meet at a checked position join.
    pub proof fn lemma_checked_join(
        &self,
        h: Header,
        language: u8,
        requested: u8,
        a: (usize, usize, u16),
        y: (usize, usize, u16),
        b: (usize, usize, u16),
    )
        requires
            self.checked_range(h, language, requested, a, y, false),
            self.position_checked(h, language, requested, y),
            self.checked_range(h, language, requested, y, b, true),
        ensures
            self.checked_range(h, language, requested, a, b, false),
    {
        reveal(Sheet::checked_range);
        assert forall|q: (usize, usize, u16)| (position_lt(a, q) || q == a) && position_lt(q, b)
            implies self.position_checked(h, language, requested, q) by {
            assert(self.pair_at(h, language, q) == self.pair_at(h, language, q));
            if position_lt(q, y) {
            } else if q == y {
            } else {
                assert(position_lt(y, q));
            }
        }
    }

    /// A checked range extends over the positions past a cached page's
    /// directory, up to the start of the next page.
    pub proof fn lemma_checked_past_directory(
        &self,
        h: Header,
        language: u8,
        requested: u8,
        a: (usize, usize, u16),
        y: (usize, usize, u16),
    )
        requires
            self.checked_range(h, language, requested, a, y, false),
            y.0 < h.pages@.len(),
            y.0 < usize::MAX,
            find_cached(self.cached_pages(), h.pages@[y.0 as int].start_id, language) matches Some(c)
                && self.cached_pages()[c].page.rows@.len() <= y.1,
        ensures
            self.checked_range(h, language, requested, a, ((y.0 + 1) as usize, 0usize, 0u16), false),
    {
        reveal(Sheet::checked_range);
        assert forall|q: (usize, usize, u16)| (position_lt(a, q) || q == a) && position_lt(q, ((y.0 + 1) as usize, 0usize, 0u16))
            implies self.position_checked(h, language, requested, q) by {
            assert(self.pair_at(h, language, q) == self.pair_at(h, language, q));
            if !position_lt(q, y) {
                assert(q.0 == y.0);
            }
        }
    }

    /// What was checked stays checked as the caches grow, provided the grown
    /// caches agree with the header.
    pub proof fn lemma_checked_kept(
        a: &Self,
        b: &Self,
        h: Header,
        language: u8,
        requested: u8,
        from: (usize, usize, u16),
        to: (usize, usize, u16),
        skip_from: bool,
    )
        requires
            h.wf(),
            b.extends(a),
            resolve_language_spec(h.languages@, requested) is Some ==> resolve_language_spec(h.languages@, requested)
                == Some(language),
            a.agrees(h, language) ==> a.checked_range(h, language, requested, from, to, skip_from),
        ensures
            b.agrees(h, language) ==> b.checked_range(h, language, requested, from, to, skip_from),
    {
        reveal(Sheet::checked_range);
        if b.agrees(h, language) {
            Self::lemma_agrees_shrinks(a, b, h, language);
            assert forall|q: (usize, usize, u16)| (position_lt(from, q) || (q == from && !skip_from)) && position_lt(q, to)
                implies b.position_checked(h, language, requested, q) by {
                assert(a.pair_at(h, language, q) == a.pair_at(h, language, q));
                if q.0 < h.pages@.len() {
                    Self::lemma_cached_kept(a, b, h.pages@[q.0 as int].start_id, language);
                    assert(b.pair_at(h, language, q) == a.pair_at(h, language, q));
                    if a.pair_at(h, language, q) is Some {
                        a.lemma_pair_page(h, language, q);
                        let pr = a.pair_at(h, language, q)->Some_0;
                        assert(b.refuses(h, pr.0, pr.1, requested) == a.refuses(h, pr.0, pr.1, requested));
                    }
                }
            }
        }
    }

    /// Every (sub)row that the caches serve stands at a position: in the page
    /// the header places it, at its directory entry, at its subrow.
    pub proof fn lemma_served_has_position(&self, h: Header, row_id: u32, subrow_id: u16, requested: u8)
        requires
            self.serves(h, row_id, subrow_id, requested),
            h.pages@.len() <= usize::MAX,
            forall|c: int| 0 <= c < self.cached_pages().len() ==> (#[trigger] self.cached_pages()[c]).page.rows@.len() <= usize::MAX,
        ensures
            exists|q: (usize, usize, u16)| self.pair_at(h, resolve_language_spec(h.languages@, requested)->Some_0, q)
                == Some((row_id, subrow_id)),
    {
        let language = resolve_language_spec(h.languages@, requested)->Some_0;
        lemma_find_page(h.pages@, row_id);
        let p = find_page_spec(h.pages@, row_id)->Some_0;
        lemma_find_cached(self.cached_pages(), h.pages@[p].start_id, language);
        let c = find_cached(self.cached_pages(), h.pages@[p].start_id, language)->Some_0;
        let rows = self.cached_pages()[c].page.rows@;
        crate::excel::page::lemma_find_row(rows, row_id);
        let i = crate::excel::page::find_row_spec(rows, row_id)->Some_0;
        let q = (p as usize, i as usize, subrow_id);
        assert(self.pair_at(h, language, q) == Some((row_id, subrow_id)));
    }

    /// A lookup that reports its (sub)row absent is one the caches refuse.
    pub proof fn lemma_not_found_refuses(old: &Self, new: &Self, h: Header, row_id: u32, subrow_id: u16, requested: u8, r: Result<S::Row>)
        requires
            Self::lookup_outcome(old, new, h, row_id, subrow_id, requested, r),
            r matches Err(e) && is_row_not_found_for(e, row_id, subrow_id),
        ensures
            new.refuses(h, row_id, subrow_id, requested),
    {
    }

    /// What holds of one checked position stays true as the caches grow,
    /// provided the grown caches agree with the header.
    pub proof fn lemma_position_kept(
        a: &Self,
        b: &Self,
        h: Header,
        language: u8,
        requested: u8,
        q: (usize, usize, u16),
    )
        requires
            h.wf(),
            b.extends(a),
            resolve_language_spec(h.languages@, requested) is Some ==> resolve_language_spec(h.languages@, requested)
                == Some(language),
            q.0 < h.pages@.len(),
            a.is_cached(h.pages@[q.0 as int].start_id, language),
            a.agrees(h, language) ==> a.position_checked(h, language, requested, q),
        ensures
            b.is_cached(h.pages@[q.0 as int].start_id, language),
            b.pair_at(h, language, q) == a.pair_at(h, language, q),
            b.agrees(h, language) ==> b.position_checked(h, language, requested, q),
    {
        Self::lemma_cached_kept(a, b, h.pages@[q.0 as int].start_id, language);
        if b.agrees(h, language) {
            Self::lemma_agrees_shrinks(a, b, h, language);
            if a.pair_at(h, language, q) is Some {
                a.lemma_pair_page(h, language, q);
                let pr = a.pair_at(h, language, q)->Some_0;
                assert(b.refuses(h, pr.0, pr.1, requested) == a.refuses(h, pr.0, pr.1, requested));
            }
        }
    }
}

/// Whether position `a` comes strictly before position `b`, ordered by page,
/// then directory index, then subrow.
pub open spec fn position_lt(a: (usize, usize, u16), b: (usize, usize, u16)) -> bool {
    a.0 < b.0 || (a.0 == b.0 && a.1 < b.1) || (a.0 == b.0 && a.1 == b.1 && a.2 < b.2)
}


} // verus!
