//! From the entries of a source to its page list: which entries become
//! pages, and when the whole source is given up.

use vstd::prelude::*;
use vstd::slice::slice_to_vec;
use crate::order::{is_page_order, key_bytes, lemma_page_order_distinct, page_order, the_page_order};
use crate::pages::PageList;

verus! {

/// Why a source could not be loaded.
#[derive(Debug, Clone, Copy, PartialEq, Eq, Structural)]
pub enum LoadError {
    /// Nothing exists at the path.
    NotFound,
    /// The archive could not be opened or its directory not understood.
    UnreadableArchive,
    /// The bytes of an entry could not be read in full.
    IoFailure,
}

/// The cause of `error` in words.
pub open spec fn error_text(error: LoadError) -> Seq<char> {
    match error {
        LoadError::NotFound => "no file or directory at the given path"@,
        LoadError::UnreadableArchive => "the archive could not be opened"@,
        LoadError::IoFailure => "a page could not be read"@,
    }
}

impl LoadError {
    /// The cause of the failure in words, for the host to show.
    pub fn message(&self) -> (text: &'static str)
        ensures
            text@ == error_text(*self),
    {
        match self {
            LoadError::NotFound => "no file or directory at the given path",
            LoadError::UnreadableArchive => "the archive could not be opened",
            LoadError::IoFailure => "a page could not be read",
        }
    }
}

/// What stands at the path that the viewer was started with.
#[derive(Debug, Clone, Copy, PartialEq, Eq, Structural)]
pub enum SourceKind {
    /// A directory, whose files are the pages.
    Directory,
    /// A zip-style archive, whose file entries are the pages.
    Archive,
}

/// What one entry of a source gave when it was read.
#[derive(Debug)]
pub enum Entry {
    /// A file, with its bytes.
    Page(Vec<u8>),
    /// Not a file: a directory or a link. It is no page.
    Skipped,
    /// A file whose bytes could not be read in full.
    Unreadable,
}

/// An `Entry` as plain values.
pub enum EntryView {
    Page(Seq<u8>),
    Skipped,
    Unreadable,
}

impl View for Entry {
    type V = EntryView;

    open spec fn view(&self) -> EntryView {
        match self {
            Entry::Page(bytes) => EntryView::Page(bytes@),
            Entry::Skipped => EntryView::Skipped,
            Entry::Unreadable => EntryView::Unreadable,
        }
    }
}

/// The entries of `entries` as plain values.
pub open spec fn entry_views(entries: Seq<Entry>) -> Seq<EntryView> {
    entries.map_values(|entry: Entry| entry@)
}

/// One of `entries` could not be read.
pub open spec fn any_unreadable(entries: Seq<EntryView>) -> bool {
    exists|i: int| 0 <= i < entries.len() && (#[trigger] entries[i]) is Unreadable
}

/// The pages among `entries`, in the order of the entries.
pub open spec fn pages_among(entries: Seq<EntryView>) -> Seq<Seq<u8>>
    decreases entries.len(),
{
    if entries.len() == 0 {
        Seq::empty()
    } else {
        let before = pages_among(entries.drop_last());
        match entries.last() {
            EntryView::Page(bytes) => before.push(bytes),
            _ => before,
        }
    }
}

/// How many of `entries` are pages.
pub open spec fn page_count_among(entries: Seq<EntryView>) -> nat
    decreases entries.len(),
{
    if entries.len() == 0 {
        0
    } else {
        page_count_among(entries.drop_last()) + if entries.last() is Page {
            1nat
        } else {
            0nat
        }
    }
}

/// What loading gives for `entries`: no page list at all where an entry
/// could not be read, and else the pages among them.
pub open spec fn load_outcome(entries: Seq<EntryView>) -> Result<Seq<Seq<u8>>, LoadError> {
    if any_unreadable(entries) {
        Err(LoadError::IoFailure)
    } else {
        Ok(pages_among(entries))
    }
}

/// `result` is the page list, or the failure, that `outcome` describes.
pub open spec fn gives(result: Result<PageList, LoadError>, outcome: Result<Seq<Seq<u8>>, LoadError>) -> bool {
    match (result, outcome) {
        (Ok(list), Ok(pages)) => list@ == pages,
        (Err(error), Err(expected)) => error == expected,
        _ => false,
    }
}

/// There are as many pages as entries that are pages.
pub proof fn lemma_pages_among_len(entries: Seq<EntryView>)
    ensures
        pages_among(entries).len() == page_count_among(entries),
        page_count_among(entries) <= entries.len(),
    decreases entries.len(),
{
    if entries.len() > 0 {
        lemma_pages_among_len(entries.drop_last());
    }
}

/// Entries without a page give an empty page list, and no entries at all
/// do so without failing.
pub proof fn lemma_no_pages(entries: Seq<EntryView>)
    requires
        forall|i: int| 0 <= i < entries.len() ==> (#[trigger] entries[i]) is Skipped,
    ensures
        load_outcome(entries) == Ok::<Seq<Seq<u8>>, LoadError>(Seq::empty()),
    decreases entries.len(),
{
    if entries.len() > 0 {
        lemma_no_pages(entries.drop_last());
        assert(entries.last() == entries[entries.len() - 1]);
    }
}

/// Decides from what was found at the path how the source is read: nothing
/// there is `NotFound`, a directory is read as one, anything else as an
/// archive.
pub fn source_kind(exists: bool, is_dir: bool) -> (kind: Result<SourceKind, LoadError>)
    ensures
        !exists ==> kind == Err::<SourceKind, LoadError>(LoadError::NotFound),
        exists && is_dir ==> kind == Ok::<SourceKind, LoadError>(SourceKind::Directory),
        exists && !is_dir ==> kind == Ok::<SourceKind, LoadError>(SourceKind::Archive),
{
    if !exists {
        Err(LoadError::NotFound)
    } else if is_dir {
        Ok(SourceKind::Directory)
    } else {
        Ok(SourceKind::Archive)
    }
}

/// Builds the page list from the entries of a source, taken in page order.
/// Every file becomes a page and keeps its place; what is no file is left
/// out; one unreadable entry fails the whole source.
pub fn collect_pages(entries: Vec<Entry>) -> (result: Result<PageList, LoadError>)
    ensures
        gives(result, load_outcome(entry_views(entries@))),
{
    let ghost all = entry_views(entries@);
    let mut list = PageList::new();
    let mut failed = false;
    for entry in it: entries
        invariant
            all == entry_views(it.seq()),
            failed == any_unreadable(all.take(it.index() as int)),
            list@ == pages_among(all.take(it.index() as int)),
    {
        let ghost seen = it.index() as int;
        let ghost upto = all.take(seen);
        let ghost next = all.take(seen + 1);
        proof {
            assert(next.drop_last() =~= upto);
            assert(next.last() == entry@);
            if any_unreadable(upto) {
                let i = choose|i: int| 0 <= i < upto.len() && (#[trigger] upto[i]) is Unreadable;
                assert(next[i] is Unreadable);
            }
            if any_unreadable(next) && !(entry@ is Unreadable) {
                let i = choose|i: int| 0 <= i < next.len() && (#[trigger] next[i]) is Unreadable;
                assert(upto[i] is Unreadable);
            }
            if entry@ is Unreadable {
                assert(next[seen] is Unreadable);
            }
        }
        match entry {
            Entry::Page(bytes) => {
                list.push(bytes);
            },
            Entry::Skipped => {},
            Entry::Unreadable => {
                failed = true;
            },
        }
    }
    proof {
        assert(all.take(all.len() as int) =~= all);
    }
    if failed {
        Err(LoadError::IoFailure)
    } else {
        Ok(list)
    }
}

/// One child of a directory: its name as bytes, and what reading it gave.
#[derive(Debug)]
pub struct Child {
    pub name: Vec<u8>,
    pub entry: Entry,
}

/// The names of `children`.
pub open spec fn child_names(children: Seq<Child>) -> Seq<Seq<u8>> {
    children.map_values(|child: Child| child.name@)
}

/// What `children` gave when they were read, taken in the order `order`.
pub open spec fn children_in_order(children: Seq<Child>, order: Seq<usize>) -> Seq<EntryView> {
    Seq::new(order.len(), |k: int| children[order[k] as int].entry@)
}

/// What loading a directory with the children `children` gives: what they
/// give when they are taken in the page order of their names.
pub open spec fn directory_outcome(children: Seq<Child>) -> Result<Seq<Seq<u8>>, LoadError> {
    load_outcome(children_in_order(children, the_page_order(child_names(children))))
}

/// Loads the pages of a directory from its children, listed in any order:
/// the children that are files, in the byte-wise order of their names. A
/// child that could not be read is `IoFailure`, and no page list is given
/// then. A directory without files gives an empty page list.
pub fn load_directory(children: Vec<Child>) -> (result: Result<PageList, LoadError>)
    ensures
        gives(result, directory_outcome(children@)),
{
    let ghost listed = children@;
    let mut children = children;
    let mut keys: Vec<Vec<u8>> = Vec::new();
    let mut i: usize = 0;
    while i < children.len()
        invariant
            children@ == listed,
            i <= children.len(),
            keys.len() == i,
            forall|j: int| 0 <= j < i ==> (#[trigger] keys[j])@ == listed[j].name@,
        decreases children.len() - i,
    {
        keys.push(slice_to_vec(children[i].name.as_slice()));
        i = i + 1;
    }
    assert(key_bytes(keys@) =~= child_names(listed));
    let order = page_order(&keys);
    let ghost all = children_in_order(listed, order@);
    let mut entries: Vec<Entry> = Vec::new();
    let mut k: usize = 0;
    while k < order.len()
        invariant
            k <= order.len(),
            children.len() == listed.len(),
            is_page_order(child_names(listed), order@),
            all == children_in_order(listed, order@),
            forall|p: int| k <= p < order.len() ==> (#[trigger] children[order[p] as int]).entry == listed[order[p] as int].entry,
            entries.len() == k,
            entry_views(entries@) == all.take(k as int),
        decreases order.len() - k,
    {
        let index = order[k];
        let ghost before = entries@;
        let ghost held = children@;
        let mut taken = Entry::Skipped;
        core::mem::swap(&mut children[index].entry, &mut taken);
        entries.push(taken);
        proof {
            assert forall|p: int| k + 1 <= p < order.len() implies (#[trigger] children[order[p] as int]).entry
                == listed[order[p] as int].entry by {
                lemma_page_order_distinct(child_names(listed), order@, k as int, p);
                assert(children[order[p] as int] == held[order[p] as int]);
            }
            assert(entries@[k as int]@ == all[k as int]);
            assert(forall|j: int| 0 <= j < k ==> entries@[j] == before[j]);
            assert(forall|j: int|
                0 <= j < k ==> (#[trigger] entry_views(before)[j]) == all.take(k as int)[j]);
            assert(entry_views(entries@) =~= all.take(k + 1));
        }
        k = k + 1;
    }
    proof {
        assert(all.take(k as int) =~= all);
    }
    collect_pages(entries)
}

} // verus!
