//! The ordered list of pages, each an encoded image kept as it was read.

use vstd::prelude::*;

verus! {

/// The pages of one source in reading order. A page is the byte buffer of
/// one encoded image; the list never looks inside it.
#[derive(Debug)]
pub struct PageList {
    pages: Vec<Vec<u8>>,
}

impl View for PageList {
    type V = Seq<Seq<u8>>;

    closed spec fn view(&self) -> Seq<Seq<u8>> {
        self.pages@.map_values(|page: Vec<u8>| page@)
    }
}

impl PageList {
    /// The list without pages.
    pub fn new() -> (list: PageList)
        ensures
            list@ == Seq::<Seq<u8>>::empty(),
    {
        let list = PageList { pages: Vec::new() };
        assert(list@ =~= Seq::<Seq<u8>>::empty());
        list
    }

    /// The list that holds `pages` in their order.
    pub fn from_pages(pages: Vec<Vec<u8>>) -> (list: PageList)
        ensures
            list@ == pages@.map_values(|page: Vec<u8>| page@),
    {
        PageList { pages }
    }

    /// Adds `page` behind the pages that are there.
    pub fn push(&mut self, page: Vec<u8>)
        ensures
            final(self)@ == old(self)@.push(page@),
    {
        let ghost before = self.pages@;
        self.pages.push(page);
        assert(self.pages@.map_values(|page: Vec<u8>| page@) =~= before.map_values(
            |page: Vec<u8>| page@,
        ).push(page@));
    }

    /// The number of pages.
    pub fn len(&self) -> (n: usize)
        ensures
            n == self@.len(),
    {
        self.pages.len()
    }

    /// Whether the list holds no page.
    pub fn is_empty(&self) -> (empty: bool)
        ensures
            empty == (self@.len() == 0),
    {
        self.pages.len() == 0
    }

    /// The page at `index`, or nothing where the list is shorter.
    pub fn get(&self, index: usize) -> (page: Option<&Vec<u8>>)
        ensures
            index < self@.len() ==> page is Some && page.unwrap()@ == self@[index as int],
            index >= self@.len() ==> page is None,
    {
        if index < self.pages.len() {
            Some(&self.pages[index])
        } else {
            None
        }
    }

    /// The page at `index`.
    pub fn page(&self, index: usize) -> (page: &Vec<u8>)
        requires
            index < self@.len(),
        ensures
            page@ == self@[index as int],
    {
        &self.pages[index]
    }
}

} // verus!
