//! Sequential traversal of a sheet's (sub)rows across its pages.
use vstd::prelude::*;
use crate::binary::{fits, le_u16};
use crate::error::{is_row_not_found, is_row_not_found_for, Error, ErrorValue, Result};
use crate::excel::header::{resolve_language_spec, Header, SheetKind};
use crate::excel::page::{find_row_spec, lemma_find_row, Page, ROW_HEADER_SIZE};
use crate::excel::sheet::{find_cached, position_lt, Resource, RowOptions, Sheet, SheetMetadata};

verus! {

/// An iterator over the rows of a sheet, in page order, then directory
/// order, then ascending subrow; rows or subrows that are absent are skipped.
pub struct SheetIterator {
    config: RowOptions,
    page_index: usize,
    row_index: usize,
    subrow_id: u16,
    /// The (row, subrow) ids of the last row handed out.
    last: Ghost<Option<(u32, u16)>>,
    /// The position the last row handed out was read at.
    last_position: Ghost<(usize, usize, u16)>,
    /// The error that ended the last call of `next`, if one did.
    failure: Ghost<Option<Error>>,
}

/// The subrow count of the row at directory index `row_index` of `page`:
/// 1 in a sheet without subrows; in one with subrows the count that the row
/// header records, when that header lies within the data blob.
pub open spec fn count_at(h: Header, page: Page, row_index: int) -> Option<u16> {
    if h.kind == SheetKind::Default {
        Some(1)
    } else {
        match find_row_spec(page.rows@, page.rows@[row_index].id) {
            Some(i) => if fits(page.data@, page.rows@[i].offset as int, ROW_HEADER_SIZE as int) {
                Some(le_u16(page.data@, page.rows@[i].offset + 4) as u16)
            } else {
                None
            },
            None => None,
        }
    }
}

/// The position after `pos`: the next subrow while below `count`, else the
/// next row at subrow 0 while below `rows`, else the next page.
pub open spec fn next_position(pos: (usize, usize, u16), count: u16, rows: int) -> (usize, usize, u16) {
    if pos.2 < u16::MAX && pos.2 + 1 < count {
        (pos.0, pos.1, (pos.2 + 1) as u16)
    } else if pos.1 + 1 < rows {
        (pos.0, (pos.1 + 1) as usize, 0u16)
    } else {
        ((pos.0 + 1) as usize, 0usize, 0u16)
    }
}

impl SheetIterator {
    pub closed spec fn position(&self) -> (usize, usize, u16) {
        (self.page_index, self.row_index, self.subrow_id)
    }

    pub closed spec fn last_yielded(&self) -> Option<(u32, u16)> {
        self.last@
    }

    pub closed spec fn last_position(&self) -> (usize, usize, u16) {
        self.last_position@
    }

    pub closed spec fn options(&self) -> RowOptions {
        self.config
    }

    /// The error that ended the last call of `next`, if one did.
    pub closed spec fn failure(&self) -> Option<Error> {
        self.failure@
    }

    /// An iterator at the first subrow of the first row of the first page.
    pub fn new(config: RowOptions) -> (r: SheetIterator)
        ensures
            r.position() == (0usize, 0usize, 0u16),
            r.last_yielded() is None,
            r.options() == config,
    {
        SheetIterator {
            config,
            page_index: 0,
            row_index: 0,
            subrow_id: 0,
            last: Ghost(None),
            last_position: Ghost((0, 0, 0)),
            failure: Ghost(None),
        }
    }

    /// The cache slot of the current page.
    fn page<'r, S: SheetMetadata, R: Resource>(&self, sheet: &mut Sheet<'r, S, R>) -> (r: Result<usize>)
        requires
            old(sheet).wf(),
        ensures
            final(sheet).wf(),
            final(sheet).extends(old(sheet)),
            r matches Ok(slot) ==> slot < final(sheet).cached_pages().len()
                && final(sheet).cached_header() is Some
                && self.page_index < final(sheet).cached_header()->Some_0.pages@.len()
                && resolve_language_spec(final(sheet).cached_header()->Some_0.languages@,
                    old(sheet).requested_language(self.config)) is Some
                && crate::excel::sheet::find_cached(final(sheet).cached_pages(),
                    final(sheet).cached_header()->Some_0.pages@[self.page_index as int].start_id,
                    resolve_language_spec(final(sheet).cached_header()->Some_0.languages@,
                        old(sheet).requested_language(self.config))->Some_0) == Some(slot as int),
            r matches Err(e) ==> !is_row_not_found(e),
            r matches Err(e) ==> (final(sheet).cached_header() matches Some(h) ==> self.page_index < h.pages@.len() ==> ({
                let requested = old(sheet).requested_language(self.config);
                match resolve_language_spec(h.languages@, requested) {
                    None => e == Error::NotFound(ErrorValue::Language(requested)),
                    Some(language) => !final(sheet).is_cached(h.pages@[self.page_index as int].start_id, language),
                }
            })),
            r is Err ==> (final(sheet).cached_header() is None ==> Sheet::header_step(old(sheet), final(sheet), Err(r->Err_0))),
    {
        sheet.page_at(self.page_index, &self.config)
    }

    /// The number of subrows of the current row: 1 in a sheet without
    /// subrows; in one with subrows the count its row header records.
    fn subrow_count<'r, S: SheetMetadata, R: Resource>(&self, sheet: &mut Sheet<'r, S, R>, slot: usize) -> (r: Result<u16>)
        requires
            old(sheet).wf(),
            old(sheet).cached_header() is Some,
            slot < old(sheet).cached_pages().len(),
            self.row_index < old(sheet).cached_pages()[slot as int].page.rows@.len(),
        ensures
            final(sheet).wf(),
            final(sheet).extends(old(sheet)),
            final(sheet).cached_pages() == old(sheet).cached_pages(),
            final(sheet).cached_header() == old(sheet).cached_header(),
            ({
                let h = old(sheet).cached_header()->Some_0;
                let page = old(sheet).cached_pages()[slot as int].page;
                match count_at(h, page, self.row_index as int) {
                    Some(count) => r == Ok::<u16, Error>(count),
                    None => r matches Err(e) && e is Invalid,
                }
            }),
    {
        match sheet.kind()? {
            SheetKind::Subrows => {
                let page = sheet.cached_page(slot);
                let row_id = page.rows[self.row_index].id;
                proof {
                    lemma_find_row(page.rows@, row_id);
                    assert(page.rows@[self.row_index as int].id == row_id);
                }
                page.subrow_count(row_id)
            },
            SheetKind::Default => Ok(1),
        }
    }

    /// Moves to the next subrow, row or page. The positions passed over lie
    /// past the current row's subrow count or past the page's directory, so
    /// none of them holds a row that a lookup finds.
    fn step<'r, S: SheetMetadata, R: Resource>(
        &mut self,
        sheet: &mut Sheet<'r, S, R>,
        slot: usize,
        Ghost(h): Ghost<Header>,
        Ghost(language): Ghost<u8>,
        Ghost(requested): Ghost<u8>,
    ) -> (r: Result<()>)
        requires
            old(sheet).wf(),
            old(sheet).cached_header() == Some(h),
            resolve_language_spec(h.languages@, requested) == Some(language),
            old(self).page_index < h.pages@.len(),
            old(self).page_index < usize::MAX,
            crate::excel::sheet::find_cached(old(sheet).cached_pages(), h.pages@[old(self).page_index as int].start_id,
                language) == Some(slot as int),
            old(self).row_index < old(sheet).cached_pages()[slot as int].page.rows@.len(),
        ensures
            final(sheet).wf(),
            final(sheet).extends(old(sheet)),
            final(sheet).cached_pages() == old(sheet).cached_pages(),
            final(sheet).cached_header() == old(sheet).cached_header(),
            r is Ok ==> position_lt(old(self).position(), final(self).position()),
            r is Err ==> final(self).position() == old(self).position(),
            ({
                let page = old(sheet).cached_pages()[slot as int].page;
                match count_at(h, page, old(self).row_index as int) {
                    Some(count) => r is Ok && final(self).position() == next_position(old(self).position(), count,
                        page.rows@.len() as int),
                    None => r matches Err(e) && e is Invalid,
                }
            }),
            final(self).failure() == old(self).failure(),
            final(self).page_index <= old(self).page_index + 1,
            final(self).last_yielded() == old(self).last_yielded(),
            final(self).last_position() == old(self).last_position(),
            final(self).options() == old(self).options(),
            r is Ok ==> (final(sheet).agrees(h, language) ==> final(sheet).checked_range(h, language, requested,
                old(self).position(), final(self).position(), true)),
    {
        proof {
            crate::excel::sheet::lemma_find_cached(sheet.cached_pages(), h.pages@[self.page_index as int].start_id, language);
        }
        let rows = sheet.cached_page(slot).rows.len();
        let count = self.subrow_count(sheet, slot)?;
        let ghost p = self.page_index;
        let ghost row = self.row_index;
        let ghost sub = self.subrow_id;
        if self.subrow_id < u16::MAX && self.subrow_id + 1 < count {
            self.subrow_id = self.subrow_id + 1;
        } else {
            self.subrow_id = 0;
            if self.row_index + 1 < rows {
                self.row_index = self.row_index + 1;
            } else {
                self.row_index = 0;
                self.page_index = self.page_index + 1;
            }
        }
        proof {
            reveal(Sheet::checked_range);
            if sheet.agrees(h, language) {
                let page = sheet.cached_pages()[slot as int].page;
                assert forall|q: (usize, usize, u16)|
                    (position_lt((p, row, sub), q) || (q == (p, row, sub) && !true)) && position_lt(q, self.position())
                    implies sheet.position_checked(h, language, requested, q) by {
                    assert(q.0 == p);
                    if sheet.pair_at(h, language, q) is Some {
                        assert(q.1 == row);
                        assert(q.2 > sub);
                        assert(q.2 >= count);
                        sheet.lemma_pair_page(h, language, q);
                        let id = page.rows@[row as int].id;
                        lemma_find_row(page.rows@, id);
                    }
                }
            }
        }
        Ok(())
    }

    /// The next row of `sheet`. Absent rows and subrows are skipped; any
    /// other failure ends the iteration. Every position passed over, but the
    /// one whose row is returned, holds no row that a lookup finds, provided
    /// the cached pages list only rows of their own ranges.
    #[verifier::rlimit(100)]
    pub fn next<'r, S: SheetMetadata, R: Resource>(&mut self, sheet: &mut Sheet<'r, S, R>) -> (r: Option<S::Row>)
        requires
            old(sheet).wf(),
        ensures
            final(sheet).wf(),
            final(sheet).extends(old(sheet)),
            final(self).options() == old(self).options(),
            r is Some ==> final(self).failure() is None,
            r is None ==> ({
                ||| final(self).failure() matches Some(e) && !is_row_not_found(e)
                ||| final(self).failure() is None && (final(sheet).cached_header() matches Some(h)
                    && final(self).position().0 >= h.pages@.len())
            }),
            final(self).failure() is Some ==> (final(sheet).cached_header() matches Some(h)
                ==> final(self).position().0 < h.pages@.len()),
            final(self).failure() matches Some(e) ==> match final(sheet).cached_header() {
                None => Sheet::header_step(old(sheet), final(sheet), Err(e)),
                Some(h) => {
                    let requested = old(sheet).requested_language(old(self).options());
                    let language = resolve_language_spec(h.languages@, requested)->Some_0;
                    let pos = final(self).position();
                    let start_id = h.pages@[pos.0 as int].start_id;
                    ||| resolve_language_spec(h.languages@, requested) is None
                        && e == Error::NotFound(ErrorValue::Language(requested))
                    ||| resolve_language_spec(h.languages@, requested) is Some
                        && !final(sheet).is_cached(start_id, language)
                    ||| final(sheet).pair_at(h, language, pos) matches Some(pr)
                        && final(sheet).lookup_result(h, pr.0, pr.1, requested, Err(e))
                    ||| final(sheet).is_cached(start_id, language) && e is Invalid && count_at(h,
                        final(sheet).cached_pages()[find_cached(final(sheet).cached_pages(), start_id, language)->Some_0].page,
                        pos.1 as int) is None
                },
            },
            r is Some ==> position_lt(old(self).position(), final(self).position()),
            r is Some ==> !position_lt(final(self).last_position(), old(self).position())
                && position_lt(final(self).last_position(), final(self).position()),
            r is Some ==> (final(self).last_yielded() matches Some(pair) && (final(sheet).cached_header()
                matches Some(h) && final(sheet).serves(h, pair.0, pair.1,
                old(sheet).requested_language(old(self).options())))),
            final(sheet).cached_header() matches Some(h) ==> ({
                let requested = old(sheet).requested_language(old(self).options());
                let language = resolve_language_spec(h.languages@, requested)->Some_0;
                &&& r is Some ==> final(sheet).pair_at(h, language, final(self).last_position())
                    == final(self).last_yielded()
                &&& r is None ==> (final(sheet).agrees(h, language) ==> final(sheet).checked_range(h, language,
                    requested, old(self).position(), final(self).position(), false))
                &&& r is Some ==> (final(sheet).agrees(h, language) ==> final(sheet).checked_range(h, language,
                    requested, old(self).position(), final(self).last_position(), false)
                    && final(sheet).checked_range(h, language, requested, final(self).last_position(),
                    final(self).position(), true))
            }),
    {
        self.failure = Ghost(None);
        match sheet.header() {
            Ok(_) => {},
            Err(e) => {
                self.failure = Ghost(Some(e));
                return None;
            },
        }
        let page_count = match sheet.cached() {
            Some(h) => h.pages.len(),
            None => return None,
        };
        let ghost h0 = sheet.cached_header()->Some_0;
        let ghost requested = old(sheet).requested_language(old(self).options());
        let ghost language = resolve_language_spec(h0.languages@, requested)->Some_0;
        let ghost start = self.position();
        proof { sheet.lemma_checked_empty(h0, language, requested, start); }
        if self.page_index >= page_count {
            return None;
        }
        let ghost sheet0 = *sheet;
        proof { Sheet::lemma_extends_refl(&sheet0); }
        loop
            invariant
                sheet.wf(),
                sheet.extends(&sheet0),
                sheet0.extends(old(sheet)),
                sheet.cached_header() == Some(h0),
                h0.wf(),
                page_count == h0.pages@.len(),
                self.page_index <= page_count,
                self.options() == old(self).options(),
                self.failure() is None,
                start == old(self).position(),
                self.position() == start || position_lt(start, self.position()),
                requested == sheet.requested_language(self.config),
                language == resolve_language_spec(h0.languages@, requested)->Some_0,
                sheet.agrees(h0, language) ==> sheet.checked_range(h0, language, requested, start, self.position(), false),
            decreases page_count - self.page_index, usize::MAX - self.row_index, u16::MAX - self.subrow_id,
        {
            let ghost before = *sheet;
            if self.page_index >= page_count {
                proof { Sheet::lemma_extends_trans(old(sheet), &sheet0, &before); }
                return None;
            }
            let slot = match self.page(sheet) {
                Ok(slot) => slot,
                Err(e) => {
                    self.failure = Ghost(Some(e));
                    proof {
                        Sheet::lemma_extends_trans(&sheet0, &before, sheet);
                        Sheet::lemma_extends_trans(old(sheet), &sheet0, sheet);
                        Sheet::lemma_checked_kept(&before, sheet, h0, language, requested, start, self.position(), false);
                    }
                    return None;
                },
            };
            proof {
                Sheet::lemma_extends_trans(&sheet0, &before, sheet);
                Sheet::lemma_checked_kept(&before, sheet, h0, language, requested, start, self.position(), false);
                crate::excel::sheet::lemma_find_cached(sheet.cached_pages(), h0.pages@[self.page_index as int].start_id, language);
            }
            let rows = sheet.cached_page(slot).rows.len();
            if self.row_index >= rows {
                proof {
                    if sheet.agrees(h0, language) {
                        sheet.lemma_checked_past_directory(h0, language, requested, start, self.position());
                    }
                }
                self.row_index = 0;
                self.subrow_id = 0;
                self.page_index = self.page_index + 1;
                continue;
            }
            let row_id = sheet.cached_page(slot).rows[self.row_index].id;
            let subrow_id = self.subrow_id;
            let ghost y = self.position();
            let ghost before_row = *sheet;
            let row = sheet.subrow_with_options(row_id, subrow_id, &self.config);
            let ghost before_step = *sheet;
            proof {
                Sheet::lemma_extends_trans(&sheet0, &before_row, &before_step);
                Sheet::lemma_checked_kept(&before_row, &before_step, h0, language, requested, start, y, false);
                Sheet::lemma_cached_kept(&before_row, &before_step, h0.pages@[y.0 as int].start_id, language);
                assert(before_row.pair_at(h0, language, y) == Some((row_id, subrow_id)));
                if row is Err && is_row_not_found_for(row->Err_0, row_id, subrow_id) {
                    Sheet::lemma_not_found_refuses(&before_row, &before_step, h0, row_id, subrow_id, requested, row);
                    assert(before_step.position_checked(h0, language, requested, y));
                }
            }
            match &row {
                Ok(_) => {},
                Err(e) => {
                    if !e.is_row_not_found() {
                        proof { Sheet::lemma_extends_trans(old(sheet), &sheet0, sheet); }
                        proof {
                            Sheet::lemma_outcome_result(&before_row, &before_step, h0, row_id, subrow_id, requested, row);
                        }
                        self.failure = Ghost(Some(row->Err_0));
                        return None;
                    }
                },
            }
            let stepped = self.step(sheet, slot, Ghost(h0), Ghost(language), Ghost(requested));
            proof {
                Sheet::lemma_extends_trans(&sheet0, &before_step, sheet);
                Sheet::lemma_extends_trans(old(sheet), &sheet0, sheet);
                Sheet::lemma_checked_kept(&before_step, sheet, h0, language, requested, start, y, false);
                assert(sheet.cached_pages() == before_step.cached_pages());
                assert(sheet.pair_at(h0, language, y) == Some((row_id, subrow_id)));
            }
            if stepped.is_err() {
                self.failure = Ghost(Some(stepped->Err_0));
                return None;
            }
            match row {
                Ok(v) => {
                    proof {
                        Sheet::lemma_ok_serves(&before_row, &before_step, h0, row_id, subrow_id, requested, Ok(v));
                        Sheet::lemma_serves_kept(&before_step, sheet, h0, row_id, subrow_id, requested);
                    }
                    self.last = Ghost(Some((row_id, subrow_id)));
                    self.last_position = Ghost(y);
                    return Some(v);
                },
                Err(_) => {
                    proof {
                        if sheet.agrees(h0, language) {
                            sheet.lemma_checked_join(h0, language, requested, start, y, self.position());
                        }
                    }
                },
            }
        }
    }
}

} // verus!
