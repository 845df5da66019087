use std::cell::Cell;
use std::collections::HashMap;

use ironworks::error::{Error, ErrorValue};
use ironworks::excel::header::{ColumnKind, Header, SheetKind};
use ironworks::excel::iterator::SheetIterator;
use ironworks::excel::page::{Page, RowData};
use ironworks::excel::sheet::{Resource, RowOptions, Sheet, SheetMetadata};

const JAPANESE: u8 = 1;
const ENGLISH: u8 = 2;
const GERMAN: u8 = 3;
const FRENCH: u8 = 4;

fn exh(kind: u8, row_size: u16, columns: &[(u16, u16)], pages: &[(u32, u32)], languages: &[u8]) -> Vec<u8> {
    let mut b = vec![0u8; 32];
    b[0..4].copy_from_slice(b"EXHF");
    b[6..8].copy_from_slice(&row_size.to_le_bytes());
    b[8..10].copy_from_slice(&(columns.len() as u16).to_le_bytes());
    b[10..12].copy_from_slice(&(pages.len() as u16).to_le_bytes());
    b[12..14].copy_from_slice(&(languages.len() as u16).to_le_bytes());
    b[17] = kind;
    let rows: u32 = pages.iter().map(|p| p.1).sum();
    b[20..24].copy_from_slice(&rows.to_le_bytes());
    for (kind, offset) in columns {
        b.extend_from_slice(&kind.to_le_bytes());
        b.extend_from_slice(&offset.to_le_bytes());
    }
    for (start, count) in pages {
        b.extend_from_slice(&start.to_le_bytes());
        b.extend_from_slice(&count.to_le_bytes());
    }
    for l in languages {
        b.push(*l);
        b.push(0);
    }
    b
}

/// A page whose rows are `(id, row bytes from the row header on)`.
fn exd(rows: &[(u32, Vec<u8>)]) -> Vec<u8> {
    let mut directory = Vec::new();
    let mut blob = Vec::new();
    for (id, bytes) in rows {
        directory.extend_from_slice(&id.to_le_bytes());
        directory.extend_from_slice(&(blob.len() as u32).to_le_bytes());
        blob.extend_from_slice(bytes);
    }
    let mut b = vec![0u8; 32];
    b[0..4].copy_from_slice(b"EXDF");
    b[8..12].copy_from_slice(&(directory.len() as u32).to_le_bytes());
    b[12..16].copy_from_slice(&(blob.len() as u32).to_le_bytes());
    b.extend_from_slice(&directory);
    b.extend_from_slice(&blob);
    b
}

fn default_row(fixed: &[u8], tail: &[u8]) -> Vec<u8> {
    let mut b = Vec::new();
    b.extend_from_slice(&(tail.len() as u32).to_le_bytes());
    b.extend_from_slice(&1u16.to_le_bytes());
    b.extend_from_slice(fixed);
    b.extend_from_slice(tail);
    b
}

/// A subrow row: `subrows[i]` is the data of subrow `i`, stored under id `ids[i]`.
fn subrow_row(subrows: &[Vec<u8>], ids: &[u16]) -> Vec<u8> {
    let mut b = Vec::new();
    b.extend_from_slice(&0u32.to_le_bytes());
    b.extend_from_slice(&(subrows.len() as u16).to_le_bytes());
    for (data, id) in subrows.iter().zip(ids) {
        b.extend_from_slice(&id.to_le_bytes());
        b.extend_from_slice(data);
    }
    b
}

#[derive(Default)]
struct Memory {
    headers: HashMap<String, Vec<u8>>,
    pages: HashMap<(String, u32, u8), Vec<u8>>,
    page_calls: Cell<usize>,
    header_calls: Cell<usize>,
}

impl Resource for Memory {
    fn header(&self, sheet: &str) -> Result<Vec<u8>, String> {
        self.header_calls.set(self.header_calls.get() + 1);
        self.headers.get(sheet).cloned().ok_or_else(|| format!("no header for {sheet}"))
    }

    fn page(&self, sheet: &str, start_id: u32, language: u8) -> Result<Vec<u8>, String> {
        self.page_calls.set(self.page_calls.get() + 1);
        self.pages
            .get(&(sheet.to_string(), start_id, language))
            .cloned()
            .ok_or_else(|| format!("no page {sheet}:{start_id}:{language}"))
    }
}

struct Raw(String);

impl SheetMetadata for Raw {
    type Row = RowData;

    fn name(&self) -> String {
        self.0.clone()
    }

    fn populate_row(&self, _header: &Header, row: RowData) -> Result<RowData, String> {
        Ok(row)
    }
}

struct Refusing;

impl SheetMetadata for Refusing {
    type Row = RowData;

    fn name(&self) -> String {
        "CompanionTransient".to_string()
    }

    fn populate_row(&self, _header: &Header, _row: RowData) -> Result<RowData, String> {
        Err("no".to_string())
    }
}

fn companion_transient(m: &mut Memory) {
    m.headers.insert(
        "CompanionTransient".into(),
        exh(1, 8, &[(0, 0), (7, 4)], &[(100, 10), (110, 10)], &[JAPANESE, ENGLISH, GERMAN]),
    );
    m.pages.insert(
        ("CompanionTransient".into(), 100, ENGLISH),
        exd(&[(100, default_row(b"en-fix00", b"")), (101, default_row(b"en101fix", b"tail"))]),
    );
    m.pages.insert(
        ("CompanionTransient".into(), 100, GERMAN),
        exd(&[(101, default_row(b"de101fix", b"")), (102, default_row(b"de102fix", b"Ende"))]),
    );
}

fn behavior(m: &mut Memory) {
    m.headers.insert("Behavior".into(), exh(2, 4, &[(7, 0)], &[(30000, 100)], &[0]));
    let subrows: Vec<Vec<u8>> = (0..5u8).map(|i| vec![i, i, i, i]).collect();
    m.pages.insert(
        ("Behavior".into(), 30000, 0),
        exd(&[(30010, subrow_row(&subrows[..1], &[0])), (30016, subrow_row(&subrows, &[0, 1, 2, 3, 4]))]),
    );
}

#[test]
fn english_row_spans_row_size_and_data_size() {
    let mut m = Memory::default();
    companion_transient(&mut m);
    let mut sheet = Sheet::new(Raw("CompanionTransient".into()), GERMAN, &m);
    let options = sheet.with().language(ENGLISH);
    let row = sheet.row_with_options(101, &options).unwrap();
    assert_eq!(row.row_id, 101);
    assert_eq!(row.subrow_id, 0);
    assert_eq!(row.data, b"en101fixtail".to_vec());
    assert_eq!(row.data.len(), 8 + 4);
}

#[test]
fn default_language_german_is_used() {
    let mut m = Memory::default();
    companion_transient(&mut m);
    let mut sheet = Sheet::new(Raw("CompanionTransient".into()), GERMAN, &m);
    let row = sheet.row(102).unwrap();
    assert_eq!(row.data, b"de102fixEnde".to_vec());
    let row = sheet.row(101).unwrap();
    assert_eq!(row.data, b"de101fix".to_vec());
}

#[test]
fn subrow_three_is_read_at_its_stride() {
    let mut m = Memory::default();
    behavior(&mut m);
    let mut sheet = Sheet::new(Raw("Behavior".into()), ENGLISH, &m);
    let row = sheet.subrow(30016, 3).unwrap();
    assert_eq!(row.row_id, 30016);
    assert_eq!(row.subrow_id, 3);
    assert_eq!(row.data, vec![3, 3, 3, 3]);
}

#[test]
fn subrow_past_count_is_not_found() {
    let mut m = Memory::default();
    behavior(&mut m);
    let mut sheet = Sheet::new(Raw("Behavior".into()), ENGLISH, &m);
    match sheet.subrow(30016, 99) {
        Err(Error::NotFound(ErrorValue::Row { row, subrow, sheet })) => {
            assert_eq!((row, subrow), (30016, 99));
            assert_eq!(sheet, "Behavior");
        },
        other => panic!("unexpected {:?}", other.map(|r| r.row_id)),
    }
    assert!(matches!(sheet.subrow(30016, 5), Err(Error::NotFound(ErrorValue::Row { .. }))));
}

#[test]
fn nonexistent_sheet_is_a_resource_error() {
    let m = Memory::default();
    let mut sheet = Sheet::new(Raw("NonexistentSheet".into()), ENGLISH, &m);
    assert!(matches!(sheet.row(0), Err(Error::Resource(_))));
}

#[test]
fn subrow_on_default_sheet_is_not_found() {
    let mut m = Memory::default();
    companion_transient(&mut m);
    let mut sheet = Sheet::new(Raw("CompanionTransient".into()), ENGLISH, &m);
    assert!(matches!(sheet.subrow(101, 1), Err(Error::NotFound(ErrorValue::Row { .. }))));
    assert_eq!(m.page_calls.get(), 0);
}

#[test]
fn row_outside_every_page_is_not_found() {
    let mut m = Memory::default();
    companion_transient(&mut m);
    let mut sheet = Sheet::new(Raw("CompanionTransient".into()), ENGLISH, &m);
    assert!(matches!(sheet.row(99), Err(Error::NotFound(ErrorValue::Row { row: 99, .. }))));
    assert!(matches!(sheet.row(120), Err(Error::NotFound(ErrorValue::Row { row: 120, .. }))));
}

#[test]
fn unsupported_language_falls_back_to_neutral() {
    let mut m = Memory::default();
    behavior(&mut m);
    let mut sheet = Sheet::new(Raw("Behavior".into()), FRENCH, &m);
    let options = RowOptions::new().language(ENGLISH);
    assert_eq!(sheet.subrow_with_options(30016, 1, &options).unwrap().data, vec![1, 1, 1, 1]);
    assert_eq!(sheet.subrow(30016, 2).unwrap().data, vec![2, 2, 2, 2]);
    // Both requests resolve to the neutral page, which is loaded once.
    assert_eq!(m.page_calls.get(), 1);
}

#[test]
fn unsupported_language_without_neutral_is_not_found() {
    let mut m = Memory::default();
    companion_transient(&mut m);
    let mut sheet = Sheet::new(Raw("CompanionTransient".into()), FRENCH, &m);
    assert!(matches!(sheet.row(101), Err(Error::NotFound(ErrorValue::Language(4)))));
}

#[test]
fn resolve_language_prefers_exact_then_neutral() {
    let h = Header::read(&exh(1, 4, &[], &[], &[0, ENGLISH])).unwrap();
    assert_eq!(h.resolve_language(ENGLISH).unwrap(), ENGLISH);
    assert_eq!(h.resolve_language(GERMAN).unwrap(), 0);
    let h = Header::read(&exh(1, 4, &[], &[], &[ENGLISH])).unwrap();
    assert!(matches!(h.resolve_language(GERMAN), Err(Error::NotFound(ErrorValue::Language(3)))));
}

#[test]
fn repeated_lookups_load_a_page_once() {
    let mut m = Memory::default();
    companion_transient(&mut m);
    let mut sheet = Sheet::new(Raw("CompanionTransient".into()), ENGLISH, &m);
    for _ in 0..5 {
        sheet.row(101).unwrap();
    }
    sheet.row(100).unwrap();
    assert_eq!(m.page_calls.get(), 1);
}

#[test]
fn failed_page_load_is_retried() {
    let mut m = Memory::default();
    companion_transient(&mut m);
    let mut sheet = Sheet::new(Raw("CompanionTransient".into()), JAPANESE, &m);
    assert!(matches!(sheet.row(101), Err(Error::Resource(_))));
    assert!(matches!(sheet.row(101), Err(Error::Resource(_))));
    assert_eq!(m.page_calls.get(), 2);
}

#[test]
fn page_missing_a_listed_row_is_invalid() {
    let mut m = Memory::default();
    companion_transient(&mut m);
    let mut sheet = Sheet::new(Raw("CompanionTransient".into()), ENGLISH, &m);
    assert!(matches!(sheet.row(105), Err(Error::Invalid(..))));
}

#[test]
fn subrow_with_wrong_self_id_is_invalid() {
    let mut m = Memory::default();
    m.headers.insert("S".into(), exh(2, 1, &[], &[(0, 10)], &[0]));
    m.pages.insert(("S".into(), 0, 0), exd(&[(1, subrow_row(&[vec![9], vec![8]], &[0, 7]))]));
    let mut sheet = Sheet::new(Raw("S".into()), 0, &m);
    assert_eq!(sheet.subrow(1, 0).unwrap().data, vec![9]);
    assert!(matches!(sheet.subrow(1, 1), Err(Error::Invalid(..))));
}

#[test]
fn failing_materializer_is_invalid() {
    let mut m = Memory::default();
    companion_transient(&mut m);
    let mut sheet = Sheet::new(Refusing, ENGLISH, &m);
    assert!(matches!(sheet.row(101), Err(Error::Invalid(ErrorValue::Row { row: 101, .. }, _))));
}

#[test]
fn columns_follow_header_order() {
    let mut m = Memory::default();
    companion_transient(&mut m);
    let mut sheet = Sheet::new(Raw("CompanionTransient".into()), ENGLISH, &m);
    let columns = sheet.columns().unwrap();
    assert_eq!(columns.len(), 2);
    assert_eq!((columns[0].index(), columns[0].offset(), columns[0].kind()), (0, 0, ColumnKind::String));
    assert_eq!((columns[1].index(), columns[1].offset(), columns[1].kind()), (1, 4, ColumnKind::UInt32));
    assert_eq!(sheet.kind().unwrap(), SheetKind::Default);
}

#[test]
fn header_rejects_overlapping_pages() {
    assert!(Header::read(&exh(1, 4, &[], &[(0, 10), (10, 5)], &[0])).is_ok());
    assert!(matches!(Header::read(&exh(1, 4, &[], &[(0, 10), (9, 5)], &[0])), Err(Error::Invalid(..))));
}

#[test]
fn header_rejects_columns_past_row_size_and_unknown_kinds() {
    assert!(Header::read(&exh(1, 4, &[(0, 4)], &[], &[0])).is_ok());
    assert!(matches!(Header::read(&exh(1, 4, &[(0, 5)], &[], &[0])), Err(Error::Invalid(..))));
    assert!(matches!(Header::read(&exh(1, 4, &[(8, 0)], &[], &[0])), Err(Error::Invalid(..))));
    assert!(matches!(Header::read(&exh(3, 4, &[], &[], &[0])), Err(Error::Invalid(..))));
    assert!(matches!(Header::read(b"EXHF"), Err(Error::Invalid(..))));
}

#[test]
fn header_reads_every_field() {
    let h = Header::read(&exh(2, 12, &[(0x19, 3)], &[(5, 7)], &[0, 2])).unwrap();
    assert_eq!(h.kind, SheetKind::Subrows);
    assert_eq!(h.row_size, 12);
    assert_eq!(h.row_count, 7);
    assert_eq!(h.columns[0].kind, ColumnKind::PackedBool0);
    assert_eq!(h.columns[0].offset, 3);
    assert_eq!((h.pages[0].start_id, h.pages[0].row_count), (5, 7));
    assert_eq!(h.languages, vec![0, 2]);
    assert_eq!(h.find_page(11), Some(0));
    assert_eq!(h.find_page(12), None);
}

#[test]
fn page_reads_directory_and_counts_subrows() {
    let p = Page::read(&exd(&[(4, subrow_row(&[vec![1], vec![2], vec![3]], &[0, 1, 2]))])).unwrap();
    assert_eq!(p.rows().len(), 1);
    assert_eq!(p.rows()[0].id(), 4);
    assert_eq!(p.subrow_count(4).unwrap(), 3);
    assert!(matches!(p.subrow_count(5), Err(Error::NotFound(_))));
    let mut bad = exd(&[]);
    bad[8] = 3;
    assert!(matches!(Page::read(&bad), Err(Error::Invalid(..))));
}

/// Three pages; the middle one holds a row with no subrows between two rows that have some.
fn holes(m: &mut Memory) {
    m.headers.insert("Holes".into(), exh(2, 1, &[], &[(0, 10), (10, 10), (20, 10)], &[0]));
    m.pages.insert(("Holes".into(), 0, 0), exd(&[(1, subrow_row(&[vec![10], vec![11]], &[0, 1]))]));
    m.pages.insert(
        ("Holes".into(), 10, 0),
        exd(&[
            (12, subrow_row(&[vec![12]], &[0])),
            (13, subrow_row(&[], &[])),
            (14, subrow_row(&[vec![14], vec![15]], &[0, 1])),
        ]),
    );
    m.pages.insert(("Holes".into(), 20, 0), exd(&[(25, subrow_row(&[vec![25]], &[0]))]));
}

#[test]
fn iterator_skips_rows_without_subrows() {
    let mut m = Memory::default();
    holes(&mut m);
    let mut sheet = Sheet::new(Raw("Holes".into()), 0, &m);
    let mut it = SheetIterator::new(RowOptions::new());
    let mut seen = Vec::new();
    while let Some(row) = it.next(&mut sheet) {
        seen.push((row.row_id, row.subrow_id, row.data[0]));
    }
    assert_eq!(seen, vec![(1, 0, 10), (1, 1, 11), (12, 0, 12), (14, 0, 14), (14, 1, 15), (25, 0, 25)]);
    assert!(it.next(&mut sheet).is_none());
}

#[test]
fn iterator_yields_each_row_of_a_default_sheet() {
    let mut m = Memory::default();
    companion_transient(&mut m);
    m.pages.insert(("CompanionTransient".into(), 110, ENGLISH), exd(&[(111, default_row(b"en111fix", b""))]));
    let mut sheet = Sheet::new(Raw("CompanionTransient".into()), ENGLISH, &m);
    let mut it = SheetIterator::new(RowOptions::new());
    let mut seen = Vec::new();
    while let Some(row) = it.next(&mut sheet) {
        seen.push(row.row_id);
    }
    assert_eq!(seen, vec![100, 101, 111]);
}

#[test]
fn iterator_stops_on_other_errors() {
    let mut m = Memory::default();
    companion_transient(&mut m);
    let mut sheet = Sheet::new(Raw("CompanionTransient".into()), ENGLISH, &m);
    let mut it = SheetIterator::new(RowOptions::new());
    assert_eq!(it.next(&mut sheet).unwrap().row_id, 100);
    assert_eq!(it.next(&mut sheet).unwrap().row_id, 101);
    // The second page has no English data: the resource fails and iteration ends.
    assert!(it.next(&mut sheet).is_none());
}

#[test]
fn header_is_requested_once_and_retried_after_failure() {
    let mut m = Memory::default();
    companion_transient(&mut m);
    let mut sheet = Sheet::new(Raw("CompanionTransient".into()), ENGLISH, &m);
    sheet.row(100).unwrap();
    sheet.row(101).unwrap();
    sheet.columns().unwrap();
    assert_eq!(m.header_calls.get(), 1);
    let mut missing = Sheet::new(Raw("NonexistentSheet".into()), ENGLISH, &m);
    assert!(matches!(missing.row(0), Err(Error::Resource(_))));
    assert!(matches!(missing.columns(), Err(Error::Resource(_))));
    assert_eq!(m.header_calls.get(), 3);
    assert_eq!(m.page_calls.get(), 1);
}

#[test]
fn malformed_header_is_invalid() {
    let mut m = Memory::default();
    m.headers.insert("Broken".into(), b"EXHF".to_vec());
    let mut sheet = Sheet::new(Raw("Broken".into()), 0, &m);
    assert!(matches!(sheet.row(0), Err(Error::Invalid(..))));
    assert_eq!(m.page_calls.get(), 0);
}

#[test]
fn iterator_stops_at_a_malformed_row() {
    let mut m = Memory::default();
    m.headers.insert("Bad".into(), exh(2, 1, &[], &[(0, 10)], &[0]));
    m.pages.insert(
        ("Bad".into(), 0, 0),
        exd(&[(1, subrow_row(&[vec![1]], &[0])), (2, subrow_row(&[vec![2]], &[5])), (3, subrow_row(&[vec![3]], &[0]))]),
    );
    let mut sheet = Sheet::new(Raw("Bad".into()), 0, &m);
    let mut it = SheetIterator::new(RowOptions::new());
    assert_eq!(it.next(&mut sheet).unwrap().row_id, 1);
    assert!(it.next(&mut sheet).is_none());
}

#[test]
fn early_lookup_errors_request_no_page() {
    let mut m = Memory::default();
    companion_transient(&mut m);
    let mut sheet = Sheet::new(Raw("CompanionTransient".into()), FRENCH, &m);
    assert!(sheet.row(101).is_err());
    let mut sheet = Sheet::new(Raw("CompanionTransient".into()), ENGLISH, &m);
    assert!(sheet.row(5000).is_err());
    assert!(sheet.subrow(101, 2).is_err());
    assert_eq!(m.page_calls.get(), 0);
}
