use std::io::Write;

use ironworks::error::Error;
use ironworks::sqpack::archive::classify;
use ironworks::sqpack::dat::{block_payload, decode, DatReader, FileHeader};
use ironworks::sqpack::index::{FileMetadata, Index, PlatformId, SqPackHeader};
use ironworks::sqpack::path::{combine_hash, path_hash};

fn put_u16(b: &mut Vec<u8>, at: usize, v: u16) {
    b[at..at + 2].copy_from_slice(&v.to_le_bytes());
}

fn put_u32(b: &mut Vec<u8>, at: usize, v: u32) {
    b[at..at + 4].copy_from_slice(&v.to_le_bytes());
}

fn put_u64(b: &mut Vec<u8>, at: usize, v: u64) {
    b[at..at + 8].copy_from_slice(&v.to_le_bytes());
}

/// An index file listing `entries`.
fn index_file(entries: &[(u64, u32)]) -> Vec<u8> {
    let mut b = vec![0u8; 2048 + entries.len() * 16];
    b[0..8].copy_from_slice(b"SqPack\0\0");
    put_u32(&mut b, 12, 1024);
    put_u32(&mut b, 1024, 1024);
    put_u32(&mut b, 1024 + 8, 2048);
    put_u32(&mut b, 1024 + 12, (entries.len() * 16) as u32);
    for (i, (hash, packed)) in entries.iter().enumerate() {
        put_u64(&mut b, 2048 + i * 16, *hash);
        put_u32(&mut b, 2048 + i * 16 + 8, *packed);
    }
    b
}

fn crc(b: &[u8]) -> u32 {
    let mut c = flate2::Crc::new();
    c.update(b);
    c.sum()
}

#[test]
fn path_hash_splits_at_last_slash_and_lowercases() {
    let expected = ((crc(b"music/ffxiv") as u64) << 32) | crc(b"bgm_system_title.scd") as u64;
    assert_eq!(path_hash("music/ffxiv/BGM_System_Title.scd"), expected);
    assert_eq!(path_hash("MUSIC/FFXIV/bgm_system_title.SCD"), expected);
}

#[test]
fn path_hash_known_values() {
    assert_eq!(path_hash("exd/root.exl"), 0x1c648666_ae4a8143);
    assert_eq!(path_hash("abc"), 0x352441c2);
    assert_eq!(path_hash(""), 0);
    assert_eq!(path_hash("a/"), 0xe8b7be43_00000000);
}

#[test]
fn combine_hash_places_folder_high() {
    assert_eq!(combine_hash(0x12345678, 0x9abcdef0), 0x12345678_9abcdef0);
    assert_eq!(combine_hash(0, 0xffffffff), 0xffffffff);
}

#[test]
fn file_metadata_unpacks_fields() {
    let m = FileMetadata::read(0b1_0000 | 0b1010 | 1);
    assert!(m.is_synonym);
    assert_eq!(m.data_file_id, 5);
    assert_eq!(m.offset, 128);
    let m = FileMetadata::read(0xFFFF_FFFF);
    assert_eq!(m.data_file_id, 7);
    assert_eq!(m.offset, 0x0FFF_FFFF * 128);
    assert_eq!(m.offset % 8, 0);
}

#[test]
fn sqpack_header_rejects_bad_magic_and_platform() {
    let mut b = index_file(&[]);
    let h = SqPackHeader::read(&b).unwrap();
    assert_eq!(h.platform, PlatformId::Win32);
    assert_eq!(h.size, 1024);
    b[8] = 9;
    assert!(matches!(SqPackHeader::read(&b), Err(Error::Invalid(..))));
    b[8] = 0;
    b[0] = b'X';
    assert!(matches!(SqPackHeader::read(&b), Err(Error::Invalid(..))));
}

#[test]
fn index_lookup_finds_listed_paths() {
    let hash = path_hash("exd/root.exl");
    let index = Index::read(&index_file(&[(1, 0x30), (hash, 0x1234_5672)])).unwrap();
    let m = index.get_file_location("exd/root.exl").unwrap();
    assert_eq!(m.data_file_id, 1);
    assert_eq!(m.offset, 0x0123_4567 * 128);
    assert!(m.data_file_id < 8 && m.offset % 8 == 0);
    assert!(index.get_file_location("exd/missing.exh").is_none());
    assert_eq!(index.lookup(1).unwrap().data_file_id, 0);
}

#[test]
fn index_rejects_partial_entry_table() {
    let mut b = index_file(&[(1, 2)]);
    put_u32(&mut b, 1024 + 12, 15);
    assert!(matches!(Index::read(&b), Err(Error::Invalid(..))));
    let mut b = index_file(&[(1, 2)]);
    put_u32(&mut b, 1024 + 12, 32);
    assert!(matches!(Index::read(&b), Err(Error::Invalid(..))));
}

#[test]
fn dat_reader_probes_chunks_in_order() {
    let hash = path_hash("exd/a.exh");
    let files = vec![index_file(&[(7, 0)]), index_file(&[(hash, 0x22)]), index_file(&[(hash, 0x44)])];
    let reader = DatReader::new(0, 0x0a, &files).unwrap();
    let loc = reader.locate("exd/a.exh").unwrap();
    assert_eq!(loc.chunk_id, 1);
    assert_eq!(loc.data_file_id, 1);
    assert_eq!(loc.offset, 256);
    assert!(matches!(reader.locate("exd/b.exh"), Err(Error::NotFound(_))));
    let bad = vec![index_file(&[]), vec![0u8; 10]];
    assert!(matches!(DatReader::new(0, 0, &bad), Err(Error::Invalid(..))));
}

/// A standard file whose blocks are `(header-relative offset, payload, raw)`.
fn dat_file(uncompressed_size: u32, blocks: &[(Vec<u8>, bool, u32)]) -> Vec<u8> {
    let header_size = 128usize;
    let mut b = vec![0u8; header_size];
    put_u32(&mut b, 0, header_size as u32);
    put_u32(&mut b, 4, 2);
    put_u32(&mut b, 8, uncompressed_size);
    put_u32(&mut b, 20, blocks.len() as u32);
    for (i, (payload, raw, decoded_len)) in blocks.iter().enumerate() {
        let offset = b.len() - header_size;
        let mut block = vec![0u8; 16];
        put_u32(&mut block, 0, 16);
        put_u32(&mut block, 8, *decoded_len);
        put_u32(&mut block, 12, if *raw { 32000 } else { payload.len() as u32 });
        block.extend_from_slice(payload);
        let at = 24 + i * 8;
        put_u32(&mut b, at, offset as u32);
        put_u16(&mut b, at + 4, block.len() as u16);
        put_u16(&mut b, at + 6, *decoded_len as u16);
        b.extend_from_slice(&block);
    }
    b
}

fn deflate(data: &[u8]) -> Vec<u8> {
    let mut e = flate2::write::DeflateEncoder::new(Vec::new(), flate2::Compression::default());
    e.write_all(data).unwrap();
    e.finish().unwrap()
}

#[test]
fn decode_concatenates_raw_and_deflated_blocks() {
    let text = b"hello hello hello hello world".to_vec();
    let b = dat_file(5 + text.len() as u32, &[(b"abcde".to_vec(), true, 5), (deflate(&text), false, text.len() as u32)]);
    let h = FileHeader::read(&b).unwrap();
    assert_eq!(h.blocks.len(), 2);
    let out = decode(&h, &b).unwrap();
    let mut expected = b"abcde".to_vec();
    expected.extend_from_slice(&text);
    assert_eq!(out, expected);
    assert_eq!(out.len() as u32, h.uncompressed_size);
    assert!(h.span() as usize <= b.len());
}

#[test]
fn decode_rejects_size_mismatch_and_corrupt_deflate() {
    let b = dat_file(6, &[(b"abcde".to_vec(), true, 5)]);
    let h = FileHeader::read(&b).unwrap();
    assert!(matches!(decode(&h, &b), Err(Error::Invalid(..))));
    let b = dat_file(5, &[(vec![0xff, 0xff, 0xff, 0xff], false, 5)]);
    let h = FileHeader::read(&b).unwrap();
    assert!(matches!(decode(&h, &b), Err(Error::Invalid(..))));
}

#[test]
fn decode_of_zero_blocks_is_empty() {
    let b = dat_file(0, &[]);
    let h = FileHeader::read(&b).unwrap();
    assert_eq!(decode(&h, &b).unwrap(), Vec::<u8>::new());
}

#[test]
fn block_payload_locates_raw_payload() {
    let b = dat_file(3, &[(b"xyz".to_vec(), true, 3)]);
    let h = FileHeader::read(&b).unwrap();
    let p = block_payload(&h, &b, 0).unwrap();
    assert!(p.raw);
    assert_eq!(&b[p.start..p.start + p.len], b"xyz");
}

#[test]
fn file_header_rejects_other_kinds() {
    let mut b = dat_file(0, &[]);
    put_u32(&mut b, 4, 3);
    assert!(matches!(FileHeader::read(&b), Err(Error::Invalid(..))));
    assert!(matches!(FileHeader::read(&b[..10]), Err(Error::Invalid(..))));
}

#[test]
fn classify_reads_category_and_repository() {
    assert_eq!(classify("exd/root.exl").unwrap(), (0, 0x0a));
    assert_eq!(classify("bg/ex2/01_xxx/level.lvb").unwrap(), (2, 0x02));
    assert_eq!(classify("music/ffxiv/x.scd").unwrap(), (0, 0x0c));
    assert!(matches!(classify("nothing/x"), Err(Error::NotFound(_))));
}
