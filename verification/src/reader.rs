//! The viewer's state: the pages, the cursor and the reading options, and
//! the transition that each message causes.

use vstd::prelude::*;
use crate::navigation::{advance, last_viewable, retreat, Message, Nav};
use crate::pages::PageList;

verus! {

/// The reading options that outlive a session.
#[derive(Debug, Clone, Copy, PartialEq, Eq, Structural)]
pub struct Options {
    /// Two pages are shown side by side.
    pub dual_page_mode: bool,
    /// The book is read from right to left.
    pub manga_mode: bool,
}

impl Default for Options {
    fn default() -> (options: Options)
        ensures
            options == (Options { dual_page_mode: false, manga_mode: false }),
    {
        Options { dual_page_mode: false, manga_mode: false }
    }
}

/// The layout that is drawn.
#[derive(Debug, Clone, Copy, PartialEq, Eq, Structural)]
pub enum Screen {
    SinglePage,
    DualPage,
}

/// What the host has to do once a message has been handled.
#[derive(Debug, Clone, Copy, PartialEq, Eq, Structural)]
pub enum Outcome {
    /// Draw the state again.
    Redraw,
    /// Store the options, then draw the state again.
    StoreOptions,
    /// End the session.
    Quit,
}

/// The pages to draw, by index and from left to right.
#[derive(Debug, Clone, Copy, PartialEq, Eq, Structural)]
pub enum Spread {
    /// There is no page to draw.
    Blank,
    /// One page.
    Single(usize),
    /// The left and the right page of a pair.
    Double(usize, usize),
}

/// What the host does after `message`: the two toggles change the options,
/// which are then stored, and `Close` ends the session.
pub open spec fn outcome_of(message: Message) -> Outcome {
    match message {
        Message::Close => Outcome::Quit,
        Message::DualPageToggle | Message::MangaModeToggle => Outcome::StoreOptions,
        _ => Outcome::Redraw,
    }
}

/// The layout drawn for `nav`: two pages side by side where the dual-page
/// option is set and there are two pages to show, one page otherwise.
pub open spec fn screen_of(nav: Nav) -> Screen {
    if nav.dual && nav.count >= 2 {
        Screen::DualPage
    } else {
        Screen::SinglePage
    }
}

/// The pages drawn for `nav`. A pair is the page under the cursor and the
/// one after it; manga mode puts the later page on the left.
pub open spec fn spread_of(nav: Nav) -> Spread {
    if nav.count == 0 {
        Spread::Blank
    } else if screen_of(nav) == Screen::DualPage {
        if nav.manga {
            Spread::Double((nav.cursor + 1) as usize, nav.cursor as usize)
        } else {
            Spread::Double(nav.cursor as usize, (nav.cursor + 1) as usize)
        }
    } else {
        Spread::Single(nav.cursor as usize)
    }
}

/// The bytes drawn for the spread `spread` of `pages`, from left to right:
/// one buffer for a single page, two for a pair, none for a blank spread.
pub open spec fn frame_of(pages: Seq<Seq<u8>>, spread: Spread) -> (Option<Seq<u8>>, Option<Seq<u8>>) {
    match spread {
        Spread::Blank => (None, None),
        Spread::Single(only) => (Some(pages[only as int]), None),
        Spread::Double(left, right) => (Some(pages[left as int]), Some(pages[right as int])),
    }
}

/// The viewer's state.
pub struct Reader {
    page: usize,
    entries: PageList,
    options: Options,
}

impl View for Reader {
    type V = Nav;

    closed spec fn view(&self) -> Nav {
        Nav {
            cursor: self.page as nat,
            count: self.entries@.len(),
            dual: self.options.dual_page_mode,
            manga: self.options.manga_mode,
        }
    }
}

impl Reader {
    #[verifier::type_invariant]
    spec fn cursor_in_range(self) -> bool {
        self@.in_range()
    }

    /// The pages that the reader shows.
    pub closed spec fn pages(&self) -> Seq<Seq<u8>> {
        self.entries@
    }

    /// The reader of `entries` with `options`, on the first page.
    pub fn new(entries: PageList, options: Options) -> (reader: Reader)
        ensures
            reader@ == (Nav {
                cursor: 0,
                count: entries@.len(),
                dual: options.dual_page_mode,
                manga: options.manga_mode,
            }),
            reader.pages() == entries@,
    {
        Reader { page: 0, entries, options }
    }

    /// The cursor.
    pub fn page(&self) -> (page: usize)
        ensures
            page == self@.cursor,
            self@.in_range(),
    {
        proof {
            use_type_invariant(self);
        }
        self.page
    }

    /// The reading options.
    pub fn options(&self) -> (options: Options)
        ensures
            options.dual_page_mode == self@.dual,
            options.manga_mode == self@.manga,
    {
        self.options
    }

    /// The pages.
    pub fn entries(&self) -> (entries: &PageList)
        ensures
            entries@ == self.pages(),
            entries@.len() == self@.count,
    {
        &self.entries
    }

    /// The number of pages.
    pub fn page_count(&self) -> (count: usize)
        ensures
            count == self@.count,
    {
        self.entries.len()
    }

    /// The last position that the cursor can take in the current layout.
    pub fn last_index(&self) -> (last: usize)
        ensures
            last == self@.last(),
    {
        last_position(self.entries.len(), self.options.dual_page_mode)
    }

    /// The layout that is drawn.
    pub fn screen(&self) -> (screen: Screen)
        ensures
            screen == screen_of(self@),
    {
        if self.options.dual_page_mode && self.entries.len() >= 2 {
            Screen::DualPage
        } else {
            Screen::SinglePage
        }
    }

    /// The pages to draw, from left to right. Every index it gives is the
    /// index of a page.
    pub fn spread(&self) -> (spread: Spread)
        ensures
            spread == spread_of(self@),
            spread matches Spread::Single(only) ==> only < self@.count,
            spread matches Spread::Double(left, right) ==> left < self@.count && right
                < self@.count && left != right,
    {
        proof {
            use_type_invariant(self);
        }
        let count = self.entries.len();
        if count == 0 {
            Spread::Blank
        } else if self.options.dual_page_mode && count >= 2 {
            if self.options.manga_mode {
                Spread::Double(self.page + 1, self.page)
            } else {
                Spread::Double(self.page, self.page + 1)
            }
        } else {
            Spread::Single(self.page)
        }
    }

    /// The bytes of the pages to draw, from left to right.
    pub fn frame(&self) -> (frame: (Option<&Vec<u8>>, Option<&Vec<u8>>))
        ensures
            (match frame.0 {
                Some(bytes) => Some(bytes@),
                None => None,
            }, match frame.1 {
                Some(bytes) => Some(bytes@),
                None => None,
            }) == frame_of(self.pages(), spread_of(self@)),
    {
        match self.spread() {
            Spread::Blank => (None, None),
            Spread::Single(only) => (Some(self.entries.page(only)), None),
            Spread::Double(left, right) => (
                Some(self.entries.page(left)),
                Some(self.entries.page(right)),
            ),
        }
    }
}

/// Handles `message`: moves the cursor or changes an option as the
/// navigation rules say, keeps the pages as they are, and tells the host what
/// to do next. No message takes the cursor out of the positions that the
/// layout shows, whatever the number of pages; over no pages every position
/// change is a step from 0 to 0.
pub fn update(state: &mut Reader, message: Message) -> (outcome: Outcome)
    ensures
        final(state)@ == old(state)@.step(message),
        final(state)@.in_range(),
        final(state).pages() == old(state).pages(),
        outcome == outcome_of(message),
{
    proof {
        use_type_invariant(&*state);
    }
    let dual = state.options.dual_page_mode;
    let last = last_position(state.entries.len(), dual);
    match message {
        Message::NextImage => {
            if state.options.manga_mode {
                state.page = step_back(state.page, dual);
            } else {
                state.page = step_on(state.page, last, dual);
            }
            Outcome::Redraw
        },
        Message::PreviousImage => {
            if state.options.manga_mode {
                state.page = step_on(state.page, last, dual);
            } else {
                state.page = step_back(state.page, dual);
            }
            Outcome::Redraw
        },
        Message::Open => Outcome::Redraw,
        Message::Close => Outcome::Quit,
        Message::FirstImage => {
            state.page = 0;
            Outcome::Redraw
        },
        Message::LastImage => {
            state.page = last;
            Outcome::Redraw
        },
        Message::DualPageToggle => {
            if state.page == last && state.page >= 1 {
                state.page = state.page - 1;
            }
            state.options.dual_page_mode = !dual;
            Outcome::StoreOptions
        },
        Message::MangaModeToggle => {
            state.options.manga_mode = !state.options.manga_mode;
            Outcome::StoreOptions
        },
    }
}

/// The cursor one step nearer to the last position `last`, and never past
/// it.
pub fn step_on(cursor: usize, last: usize, dual: bool) -> (next: usize)
    ensures
        next == advance(cursor as nat, last as nat, dual),
        next <= last,
        cursor <= last ==> cursor <= next,
{
    if cursor >= last {
        last
    } else if dual && last - cursor >= 2 {
        cursor + 2
    } else {
        cursor + 1
    }
}

/// The cursor one step nearer to the first page.
pub fn step_back(cursor: usize, dual: bool) -> (next: usize)
    ensures
        next == retreat(cursor as nat, dual),
        next <= cursor,
{
    if dual && cursor >= 2 {
        cursor - 2
    } else if cursor >= 1 {
        cursor - 1
    } else {
        0
    }
}

/// The last position of the cursor over `count` pages.
pub fn last_position(count: usize, dual: bool) -> (last: usize)
    ensures
        last == last_viewable(count as nat, dual),
{
    if dual {
        if count >= 2 {
            count - 2
        } else {
            0
        }
    } else {
        if count >= 1 {
            count - 1
        } else {
            0
        }
    }
}

} // verus!
