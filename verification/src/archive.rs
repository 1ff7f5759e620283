//! Pages from a zip-style archive held in memory. The `zip` crate reads the
//! archive; which entries become pages, and in what order, is decided here.

use std::io::{Cursor, Read};
use vstd::prelude::*;
use vstd::string::StrSliceExecFns;
use vstd::utf8::encode_utf8;
use zip::result::ZipError;
use zip::ZipArchive;
use crate::order::{key_bytes, page_order, the_page_order};
use crate::pages::PageList;
use crate::source::{
    any_unreadable, collect_pages, entry_views, gives, load_outcome, Entry, EntryView, LoadError,
};

verus! {

/// The error type of the `zip` crate. Nothing is read from it: any error
/// of the archive reader is one failure.
#[verifier::external_type_specification]
#[verifier::external_body]
pub struct ExZipError(zip::result::ZipError);

/// The names of the entries of the archive `data`, in the order in which
/// `zip::ZipArchive::file_names` gives them, or nothing where
/// `zip::ZipArchive::new` does not accept `data` as an archive.
pub uninterp spec fn zip_names(data: Seq<u8>) -> Option<Seq<Seq<char>>>;

/// Whether `zip::read::ZipFile::is_file` holds of the entry `name` of the
/// archive `data`, or nothing where the archive cannot be opened or
/// `zip::ZipArchive::by_name` gives no entry.
pub uninterp spec fn zip_is_file(data: Seq<u8>, name: Seq<char>) -> Option<bool>;

/// The bytes that reading the entry `name` of the archive `data` to its end
/// gives, or nothing where the archive cannot be opened, the entry cannot be
/// had, or its bytes cannot be read in full.
pub uninterp spec fn zip_bytes(data: Seq<u8>, name: Seq<char>) -> Option<Seq<u8>>;

/// Opens `data` with `zip::ZipArchive::new` and lists the names of its
/// entries with `zip::ZipArchive::file_names`. Trusted: the result is
/// `zip_names` of the bytes, an error standing for nothing.
#[verifier::external_body]
fn archive_names(data: &[u8]) -> (listing: Result<Vec<String>, ZipError>)
    ensures
        match listing {
            Ok(names) => zip_names(data@) == Some(names@.map_values(|name: String| name@)),
            Err(_) => zip_names(data@) is None,
        },
{
    let archive = ZipArchive::new(Cursor::new(data))?;
    Ok(archive.file_names().map(String::from).collect())
}

/// Opens `data` with `zip::ZipArchive::new`, looks the entry up with
/// `zip::ZipArchive::by_name` and asks `zip::read::ZipFile::is_file` of it.
/// Trusted: the result is `zip_is_file` of the bytes and the name, an error
/// standing for nothing.
#[verifier::external_body]
fn archive_entry_is_file(data: &[u8], name: &str) -> (kind: Result<bool, ZipError>)
    ensures
        match kind {
            Ok(is_file) => zip_is_file(data@, name@) == Some(is_file),
            Err(_) => zip_is_file(data@, name@) is None,
        },
{
    let mut archive = ZipArchive::new(Cursor::new(data))?;
    let file = archive.by_name(name)?;
    Ok(file.is_file())
}

/// Opens `data` with `zip::ZipArchive::new`, looks the entry up with
/// `zip::ZipArchive::by_name` and reads it to its end through its
/// `std::io::Read`. Trusted: the result is `zip_bytes` of the bytes and the
/// name, an error standing for nothing.
#[verifier::external_body]
fn archive_entry_bytes(data: &[u8], name: &str) -> (content: Result<Vec<u8>, ZipError>)
    ensures
        match content {
            Ok(bytes) => zip_bytes(data@, name@) == Some(bytes@),
            Err(_) => zip_bytes(data@, name@) is None,
        },
{
    let mut archive = ZipArchive::new(Cursor::new(data))?;
    let mut file = archive.by_name(name)?;
    let mut bytes = Vec::new();
    file.read_to_end(&mut bytes)?;
    Ok(bytes)
}

/// What the entry `name` of the archive `data` gives: a page where it is a
/// file whose bytes can be read, nothing to show where it is no file, and a
/// failure where the entry cannot be had or read.
pub open spec fn archive_entry(data: Seq<u8>, name: Seq<char>) -> EntryView {
    match zip_is_file(data, name) {
        None => EntryView::Unreadable,
        Some(false) => EntryView::Skipped,
        Some(true) => match zip_bytes(data, name) {
            None => EntryView::Unreadable,
            Some(bytes) => EntryView::Page(bytes),
        },
    }
}

/// The names `names` as the byte strings by which they are ordered.
pub open spec fn name_keys(names: Seq<Seq<char>>) -> Seq<Seq<u8>> {
    names.map_values(|name: Seq<char>| encode_utf8(name))
}

/// The entries of the archive `data` named `names`, taken in the order
/// `order`.
pub open spec fn archive_entries(data: Seq<u8>, names: Seq<Seq<char>>, order: Seq<usize>) -> Seq<EntryView> {
    Seq::new(order.len(), |k: int| archive_entry(data, names[order[k] as int]))
}

/// What loading the archive `data` gives: `UnreadableArchive` where the
/// archive cannot be opened, and else what its entries give when they are
/// taken in the page order of their names.
pub open spec fn archive_outcome(data: Seq<u8>) -> Result<Seq<Seq<u8>>, LoadError> {
    match zip_names(data) {
        None => Err(LoadError::UnreadableArchive),
        Some(names) => load_outcome(
            archive_entries(data, names, the_page_order(name_keys(names))),
        ),
    }
}

/// Reads the entry `name` of the archive `data`.
pub fn read_entry(data: &[u8], name: &str) -> (entry: Entry)
    ensures
        entry@ == archive_entry(data@, name@),
{
    match archive_entry_is_file(data, name) {
        Err(_) => Entry::Unreadable,
        Ok(false) => Entry::Skipped,
        Ok(true) => match archive_entry_bytes(data, name) {
            Err(_) => Entry::Unreadable,
            Ok(bytes) => Entry::Page(bytes),
        },
    }
}

/// The byte strings by which `names` are ordered: each name in UTF-8.
pub fn name_bytes(names: &Vec<String>) -> (keys: Vec<Vec<u8>>)
    ensures
        key_bytes(keys@) == name_keys(names@.map_values(|name: String| name@)),
{
    let mut keys: Vec<Vec<u8>> = Vec::new();
    let mut i: usize = 0;
    while i < names.len()
        invariant
            i <= names.len(),
            keys.len() == i,
            forall|j: int| 0 <= j < i ==> (#[trigger] keys[j])@ == encode_utf8(names[j]@),
        decreases names.len() - i,
    {
        let key = names[i].as_str().as_bytes_vec();
        keys.push(key);
        i = i + 1;
    }
    assert(key_bytes(keys@) =~= name_keys(names@.map_values(|name: String| name@)));
    keys
}

/// Loads the pages of the archive `data`: the entries that are files, in
/// the byte-wise order of their names, whatever the order in which the
/// archive lists them. An archive that cannot be opened is
/// `UnreadableArchive`; an entry that cannot be had or read is `IoFailure`,
/// and no page list is given then. An archive without file entries gives an
/// empty page list.
pub fn load_archive(data: &[u8]) -> (result: Result<PageList, LoadError>)
    ensures
        gives(result, archive_outcome(data@)),
{
    match archive_names(data) {
        Err(_) => Err(LoadError::UnreadableArchive),
        Ok(names) => {
            let ghost listed = names@.map_values(|name: String| name@);
            let keys = name_bytes(&names);
            let order = page_order(&keys);
            let ghost all = archive_entries(data@, listed, order@);
            let mut entries: Vec<Entry> = Vec::new();
            let mut k: usize = 0;
            while k < order.len()
                invariant
                    k <= order.len(),
                    order.len() == names.len(),
                    forall|i: int| 0 <= i < order.len() ==> (#[trigger] order[i]) < names.len(),
                    listed == names@.map_values(|name: String| name@),
                    zip_names(data@) == Some(listed),
                    order@ == the_page_order(name_keys(listed)),
                    all == archive_entries(data@, listed, order@),
                    entries.len() == k,
                    entry_views(entries@) == all.take(k as int),
                decreases order.len() - k,
            {
                let entry = read_entry(data, names[order[k]].as_str());
                proof {
                    assert(entry@ == all[k as int]);
                }
                if let Entry::Unreadable = entry {
                    proof {
                        assert(all[k as int] is Unreadable);
                        assert(any_unreadable(all));
                    }
                    return Err(LoadError::IoFailure);
                }
                let ghost before = entries@;
                let ghost read = entry@;
                entries.push(entry);
                proof {
                    assert(entries@[k as int]@ == read);
                    assert(forall|i: int| 0 <= i < k ==> entries@[i] == before[i]);
                    assert(forall|i: int|
                        0 <= i < k ==> (#[trigger] entry_views(before)[i]) == all.take(k as int)[i]);
                    assert(entry_views(entries@) =~= all.take(k + 1));
                }
                k = k + 1;
            }
            proof {
                assert(all.take(k as int) =~= all);
            }
            collect_pages(entries)
        },
    }
}

} // verus!
