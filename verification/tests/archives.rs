use std::io::{Cursor, Write};

use gacho::file::archive::{decode_raw, Archive, ArchiveFile};
use gacho::file::book::{Book, Loaded, TargetKind};
use gacho::GachoError;
use zip::write::SimpleFileOptions;
use zip::{CompressionMethod, ZipWriter};

fn crc32(data: &[u8]) -> u32 {
    let mut crc: u32 = 0xFFFF_FFFF;
    for &b in data {
        crc ^= b as u32;
        for _ in 0..8 {
            let mask = (!(crc & 1)).wrapping_add(1);
            crc = (crc >> 1) ^ (0xEDB8_8320 & mask);
        }
    }
    !crc
}

fn chunk(out: &mut Vec<u8>, kind: &[u8; 4], data: &[u8]) {
    out.extend_from_slice(&(data.len() as u32).to_be_bytes());
    let mut body = kind.to_vec();
    body.extend_from_slice(data);
    out.extend_from_slice(&body);
    out.extend_from_slice(&crc32(&body).to_be_bytes());
}

/// The start of a PNG image of the given size.
fn png(width: u32, height: u32) -> Vec<u8> {
    let mut out = vec![0x89, b'P', b'N', b'G', 0x0D, 0x0A, 0x1A, 0x0A];
    let mut ihdr = Vec::new();
    ihdr.extend_from_slice(&width.to_be_bytes());
    ihdr.extend_from_slice(&height.to_be_bytes());
    ihdr.extend_from_slice(&[8, 2, 0, 0, 0]);
    chunk(&mut out, b"IHDR", &ihdr);
    chunk(&mut out, b"IDAT", &[0x78, 0x9C, 0x03, 0x00, 0x00, 0x00, 0x00, 0x01]);
    chunk(&mut out, b"IEND", &[]);
    out
}

fn zip_of(entries: &[(&str, Option<Vec<u8>>)]) -> Vec<u8> {
    let mut w = ZipWriter::new(Cursor::new(Vec::new()));
    let options = SimpleFileOptions::default().compression_method(CompressionMethod::Stored);
    for (name, data) in entries {
        match data {
            Some(d) => {
                w.start_file(*name, options).unwrap();
                w.write_all(d).unwrap();
            }
            None => {
                w.add_directory(*name, options).unwrap();
            }
        }
    }
    w.finish().unwrap().into_inner()
}

fn sample() -> Vec<u8> {
    zip_of(&[
        ("b/", None),
        ("b/10.png", Some(png(30, 40))),
        ("b/readme.txt", Some(b"hello".to_vec())),
        ("b/2.png", Some(png(50, 20))),
        (".hidden.png", Some(png(1, 1))),
        ("__MACOSX/b/._1.png", Some(vec![0, 1, 2])),
        ("b/1.jpg", Some(vec![1, 2, 3, 4])),
    ])
}

#[test]
fn decode_raw_tries_utf8_then_shift_jis() {
    assert_eq!(decode_raw(b"abc/d.png"), "abc/d.png");
    assert_eq!(decode_raw("日本.png".as_bytes()), "日本.png");
    assert_eq!(decode_raw(&[0x82, 0xA0]), "あ");
    assert_eq!(decode_raw(&[0xFF]), "\u{FFFD}");
    assert_eq!(decode_raw(&[]), "");
}

#[test]
fn unarchive_lists_pages_in_natural_order() {
    let mut archive = Archive::new();
    archive.unarchive(sample()).unwrap();
    assert_eq!(archive.len(), 7);
    let paths: Vec<&str> = archive.files().iter().map(|f| f.relative_path().as_str()).collect();
    assert_eq!(paths, vec!["b/1.jpg", "b/2.png", "b/10.png"]);
    let names: Vec<&str> = archive.files().iter().map(|f| f.file_name().as_str()).collect();
    assert_eq!(names, vec!["1.jpg", "2.png", "10.png"]);
    let indices: Vec<usize> = archive.files().iter().map(|f| *f.index()).collect();
    assert_eq!(indices, vec![6, 3, 1]);
    assert!(archive.files().iter().all(|f| f.bytes().is_empty()));
}

#[test]
fn unarchive_reads_sizes_from_headers() {
    let mut archive = Archive::new();
    archive.unarchive(sample()).unwrap();
    let sizes: Vec<(u32, u32)> = archive.files().iter().map(|f| f.size()).collect();
    assert_eq!(sizes, vec![(0, 0), (50, 20), (30, 40)]);
}

#[test]
fn unarchive_refuses_what_is_not_a_zip() {
    let mut archive = Archive::new();
    assert!(archive.unarchive(b"not a zip at all".to_vec()).is_err());
    assert!(archive.files().is_empty());
}

#[test]
fn get_zipfile_reads_bytes_once() {
    let mut archive = Archive::new();
    archive.unarchive(sample()).unwrap();
    let f = archive.get_zipfile(1).unwrap();
    assert_eq!(f.bytes(), &png(30, 40));
    assert_eq!(f.relative_path(), "b/10.png");
    // the bytes are kept in the page
    assert_eq!(archive.files()[2].bytes(), &png(30, 40));
    let again = archive.get_zipfile(1).unwrap();
    assert_eq!(again.bytes(), &png(30, 40));
    assert_eq!(archive.get_zipfile(6).unwrap().bytes(), &vec![1, 2, 3, 4]);
}

#[test]
fn get_zipfile_of_no_page_fails() {
    let mut archive = Archive::new();
    archive.unarchive(sample()).unwrap();
    // entry 2 is the text file: not a page
    assert!(archive.get_zipfile(2).is_err());
    assert!(archive.get_zipfile(100).is_err());
    let mut empty = Archive::new();
    assert!(empty.get_zipfile(0).is_err());
}

#[test]
fn a_book_of_an_archive() {
    let mut book = Book::new();
    assert_eq!(book.target_kind("x/(C1)[Me]Story(Fan).zip"), TargetKind::Archive);
    book.image_new("x/(C1)[Me]Story(Fan).zip", "x", Loaded::Archive(Ok(sample()))).unwrap();
    assert_eq!(book.open_from_path("x/(C1)[Me]Story(Fan).zip", true), None);
    assert_eq!(book.len(), 3);
    assert_eq!(book.title(), "Story");
    assert_eq!(book.image_ids(), vec![1, 2, 3]);
    let first = book.get_image_by_index(0).unwrap();
    assert!(first.is_archive());
    assert!(first.is_empty_bytes());
    assert_eq!(first.relative_path(), "b/1.jpg");
    assert_eq!(first.archive_index(), &6);
    let page = book.ensure_image_by_index(2).unwrap().unwrap();
    assert_eq!(page.bytes(), &png(30, 40));
    assert_eq!(page.size(), (30, 40));
    assert!(!page.is_empty_bytes());
    assert!(!book.get_image_by_index(2).unwrap().is_empty_bytes());
    let again = book.ensure_image_by_index(2).unwrap().unwrap();
    assert_eq!(again.bytes(), page.bytes());
    assert_eq!(again.id(), page.id());
    assert_eq!(again.size(), page.size());
}

#[test]
fn a_broken_archive_is_an_archive_error() {
    let mut book = Book::new();
    let r = book.image_new("x/b.cbz", "x", Loaded::Archive(Ok(b"PK broken".to_vec())));
    assert!(matches!(r, Err(GachoError::ArchiveError(_))));
    assert_eq!(book.len(), 0);
}

#[test]
fn a_page_takes_the_size_read_from_its_header() {
    let f = ArchiveFile::new(3, "p.png".to_string(), "b/p.png".to_string(), Some((30, 40)));
    assert_eq!(*f.index(), 3);
    assert_eq!(f.file_name(), "p.png");
    assert_eq!(f.relative_path(), "b/p.png");
    assert_eq!(f.size(), (30, 40));
    assert!(f.bytes().is_empty());
    let g = ArchiveFile::new(0, "q.jpg".to_string(), "q.jpg".to_string(), None);
    assert_eq!(g.size(), (0, 0));
}
