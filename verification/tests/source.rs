use manga_reader::pages::PageList;
use manga_reader::source::{
    collect_pages, load_directory, source_kind, Child, Entry, LoadError, SourceKind,
};

fn child(name: &str, entry: Entry) -> Child {
    Child { name: name.as_bytes().to_vec(), entry }
}

fn pages_of(list: &PageList) -> Vec<Vec<u8>> {
    (0..list.len()).map(|i| list.page(i).clone()).collect()
}

#[test]
fn missing_path_is_not_found() {
    assert_eq!(source_kind(false, false), Err(LoadError::NotFound));
    assert_eq!(source_kind(false, true), Err(LoadError::NotFound));
}

#[test]
fn directory_and_archive_are_told_apart() {
    assert_eq!(source_kind(true, true), Ok(SourceKind::Directory));
    assert_eq!(source_kind(true, false), Ok(SourceKind::Archive));
}

#[test]
fn files_become_pages_in_their_order() {
    let entries = vec![
        Entry::Page(vec![1]),
        Entry::Skipped,
        Entry::Page(vec![2, 2]),
        Entry::Page(Vec::new()),
        Entry::Skipped,
    ];
    let list = collect_pages(entries).unwrap();
    assert_eq!(pages_of(&list), vec![vec![1], vec![2, 2], vec![]]);
}

#[test]
fn one_unreadable_entry_fails_the_source() {
    let entries = vec![Entry::Page(vec![1]), Entry::Unreadable, Entry::Page(vec![2])];
    assert_eq!(collect_pages(entries).unwrap_err(), LoadError::IoFailure);
    assert_eq!(collect_pages(vec![Entry::Unreadable]).unwrap_err(), LoadError::IoFailure);
}

#[test]
fn no_entries_give_an_empty_page_list() {
    let list = collect_pages(Vec::new()).unwrap();
    assert_eq!(list.len(), 0);
    assert!(list.is_empty());
    let list = collect_pages(vec![Entry::Skipped, Entry::Skipped]).unwrap();
    assert_eq!(list.len(), 0);
}

#[test]
fn directory_pages_follow_the_names() {
    let children = vec![
        child("b.png", Entry::Page(vec![b'b'])),
        child("a.png", Entry::Page(vec![b'a'])),
        child("sub", Entry::Skipped),
        child("c.png", Entry::Page(vec![b'c'])),
    ];
    let list = load_directory(children).unwrap();
    assert_eq!(pages_of(&list), vec![vec![b'a'], vec![b'b'], vec![b'c']]);
}

#[test]
fn directory_with_ten_pages_puts_page10_before_page2() {
    let mut children = Vec::new();
    for i in 1..=10u8 {
        children.push(child(&format!("page{}", i), Entry::Page(vec![i])));
    }
    let list = load_directory(children).unwrap();
    assert_eq!(list.len(), 10);
    assert_eq!(pages_of(&list), vec![
        vec![1], vec![10], vec![2], vec![3], vec![4], vec![5], vec![6], vec![7], vec![8], vec![9],
    ]);
}

#[test]
fn empty_directory_gives_an_empty_page_list() {
    let list = load_directory(Vec::new()).unwrap();
    assert_eq!(list.len(), 0);
    let list = load_directory(vec![child("sub", Entry::Skipped)]).unwrap();
    assert_eq!(list.len(), 0);
}

#[test]
fn unreadable_child_fails_the_directory() {
    let children = vec![
        child("a.png", Entry::Page(vec![1])),
        child("b.png", Entry::Unreadable),
    ];
    assert_eq!(load_directory(children).unwrap_err(), LoadError::IoFailure);
}

#[test]
fn each_error_has_its_message() {
    assert_eq!(LoadError::NotFound.message(), "no file or directory at the given path");
    assert_eq!(LoadError::UnreadableArchive.message(), "the archive could not be opened");
    assert_eq!(LoadError::IoFailure.message(), "a page could not be read");
}

#[test]
fn page_list_gives_pages_by_index() {
    let mut list = PageList::new();
    assert!(list.is_empty());
    assert!(list.get(0).is_none());
    list.push(vec![7, 8]);
    list.push(vec![9]);
    assert_eq!(list.len(), 2);
    assert!(!list.is_empty());
    assert_eq!(list.page(0), &vec![7, 8]);
    assert_eq!(list.get(1), Some(&vec![9]));
    assert_eq!(list.get(2), None);
    let list = PageList::from_pages(vec![vec![1], vec![2], vec![3]]);
    assert_eq!(pages_of(&list), vec![vec![1], vec![2], vec![3]]);
}
