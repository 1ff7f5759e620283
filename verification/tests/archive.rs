use std::io::{Cursor, Write};

use manga_reader::archive::{load_archive, name_bytes, read_entry};
use manga_reader::order::page_order;
use manga_reader::pages::PageList;
use manga_reader::source::{Entry, LoadError};
use zip::write::SimpleFileOptions;
use zip::{CompressionMethod, ZipWriter};

enum Item<'a> {
    File(&'a str, &'a [u8], CompressionMethod),
    Dir(&'a str),
}

fn archive_of(items: &[Item]) -> Vec<u8> {
    let mut writer = ZipWriter::new(Cursor::new(Vec::new()));
    for item in items {
        match item {
            Item::File(name, bytes, method) => {
                let options = SimpleFileOptions::default().compression_method(*method);
                writer.start_file(*name, options).unwrap();
                writer.write_all(bytes).unwrap();
            }
            Item::Dir(name) => {
                writer.add_directory(*name, SimpleFileOptions::default()).unwrap();
            }
        }
    }
    writer.finish().unwrap().into_inner()
}

fn stored<'a>(name: &'a str, bytes: &'a [u8]) -> Item<'a> {
    Item::File(name, bytes, CompressionMethod::Stored)
}

fn pages_of(list: &PageList) -> Vec<Vec<u8>> {
    (0..list.len()).map(|i| list.page(i).clone()).collect()
}

#[test]
fn archive_pages_follow_the_sorted_names() {
    let data = archive_of(&[
        stored("b.png", b"bytes of b"),
        stored("a.png", b"bytes of a"),
        stored("c.png", b"bytes of c"),
    ]);
    let list = load_archive(&data).unwrap();
    let mut names = vec!["b.png", "a.png", "c.png"];
    names.sort();
    let expected: Vec<Vec<u8>> =
        names.iter().map(|name| format!("bytes of {}", &name[..1]).into_bytes()).collect();
    assert_eq!(pages_of(&list), expected);
    assert_eq!(pages_of(&list), vec![
        b"bytes of a".to_vec(),
        b"bytes of b".to_vec(),
        b"bytes of c".to_vec(),
    ]);
}

#[test]
fn archive_directories_are_no_pages() {
    let data = archive_of(&[
        Item::Dir("chapter/"),
        stored("chapter/02.jpg", b"two"),
        stored("chapter/01.jpg", b"one"),
        Item::Dir("empty/"),
    ]);
    let list = load_archive(&data).unwrap();
    assert_eq!(list.len(), 2);
    assert_eq!(pages_of(&list), vec![b"one".to_vec(), b"two".to_vec()]);
}

#[test]
fn compressed_entries_are_inflated() {
    let long: Vec<u8> = (0..5000u32).map(|i| (i % 7) as u8).collect();
    let data = archive_of(&[
        Item::File("2.png", &long, CompressionMethod::Deflated),
        Item::File("1.png", b"short", CompressionMethod::Deflated),
    ]);
    assert!(data.len() < long.len());
    let list = load_archive(&data).unwrap();
    assert_eq!(pages_of(&list), vec![b"short".to_vec(), long]);
}

#[test]
fn archive_orders_page10_before_page2() {
    let data = archive_of(&[
        stored("page1", b"1"),
        stored("page2", b"2"),
        stored("page10", b"10"),
    ]);
    let list = load_archive(&data).unwrap();
    assert_eq!(pages_of(&list), vec![b"1".to_vec(), b"10".to_vec(), b"2".to_vec()]);
}

#[test]
fn empty_archive_gives_an_empty_page_list() {
    let data = archive_of(&[]);
    let list = load_archive(&data).unwrap();
    assert_eq!(list.len(), 0);
    let data = archive_of(&[Item::Dir("only/")]);
    assert_eq!(load_archive(&data).unwrap().len(), 0);
}

#[test]
fn bytes_that_are_no_archive_are_unreadable() {
    assert_eq!(load_archive(b"this is not a zip file").unwrap_err(), LoadError::UnreadableArchive);
    assert_eq!(load_archive(&[]).unwrap_err(), LoadError::UnreadableArchive);
}

#[test]
fn damaged_entry_is_an_io_failure() {
    let payload = b"0123456789abcdefghij";
    let mut data = archive_of(&[stored("a.png", b"fine"), stored("b.png", payload)]);
    let at = data.windows(payload.len()).position(|window| window == payload).unwrap();
    data[at + 3] ^= 0xff;
    assert_eq!(load_archive(&data).unwrap_err(), LoadError::IoFailure);
    assert!(matches!(read_entry(&data, "a.png"), Entry::Page(bytes) if bytes == b"fine"));
    assert!(matches!(read_entry(&data, "b.png"), Entry::Unreadable));
}

#[test]
fn entries_are_read_by_name() {
    let data = archive_of(&[Item::Dir("dir/"), stored("dir/x", b"xx"), stored("y", b"")]);
    assert!(matches!(read_entry(&data, "dir/x"), Entry::Page(bytes) if bytes == b"xx"));
    assert!(matches!(read_entry(&data, "y"), Entry::Page(bytes) if bytes.is_empty()));
    assert!(matches!(read_entry(&data, "dir/"), Entry::Skipped));
    assert!(matches!(read_entry(&data, "absent"), Entry::Unreadable));
    assert!(matches!(read_entry(b"no archive", "y"), Entry::Unreadable));
}

#[test]
fn names_are_ordered_by_their_utf8_bytes() {
    let names = vec!["é.png".to_string(), "z.png".to_string(), "a.png".to_string()];
    let keys = name_bytes(&names);
    assert_eq!(keys, vec![
        "é.png".as_bytes().to_vec(),
        b"z.png".to_vec(),
        b"a.png".to_vec(),
    ]);
    assert_eq!(page_order(&keys), vec![2, 1, 0]);
    let data = archive_of(&[stored("é.png", b"e"), stored("z.png", b"z"), stored("a.png", b"a")]);
    let list = load_archive(&data).unwrap();
    assert_eq!(pages_of(&list), vec![b"a".to_vec(), b"z".to_vec(), b"e".to_vec()]);
}

#[test]
fn many_entries_keep_every_page() {
    let mut contents = Vec::new();
    for i in 0..40u8 {
        contents.push((format!("p{:02}.png", 39 - i), vec![39 - i; 3]));
    }
    let items: Vec<Item> = contents
        .iter()
        .map(|(name, bytes)| Item::File(name.as_str(), bytes.as_slice(), CompressionMethod::Deflated))
        .collect();
    let data = archive_of(&items);
    let list = load_archive(&data).unwrap();
    assert_eq!(list.len(), 40);
    for i in 0..40usize {
        assert_eq!(list.page(i), &vec![i as u8; 3]);
    }
}
