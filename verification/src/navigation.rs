//! The navigation rules as mathematics: a cursor over `count` pages that
//! moves one page at a time in the single-page layout and two in the
//! dual-page layout, forwards or backwards according to the reading
//! direction, and never leaves the positions the layout can show.

use vstd::prelude::*;

verus! {

/// What the user can ask of the viewer.
#[derive(Debug, Clone, Copy, PartialEq, Eq, Structural)]
pub enum Message {
    NextImage,
    PreviousImage,
    Open,
    Close,
    FirstImage,
    LastImage,
    DualPageToggle,
    MangaModeToggle,
}

/// The navigation state as plain numbers: the cursor, the number of pages,
/// and the two mode flags.
pub struct Nav {
    pub cursor: nat,
    pub count: nat,
    pub dual: bool,
    pub manga: bool,
}

/// The last position the cursor can take: the last page in the single-page
/// layout, the start of the last pair in the dual-page layout. With fewer
/// pages than the layout shows at once it is position 0.
pub open spec fn last_viewable(count: nat, dual: bool) -> nat {
    if dual {
        if count >= 2 {
            (count - 2) as nat
        } else {
            0
        }
    } else {
        if count >= 1 {
            (count - 1) as nat
        } else {
            0
        }
    }
}

/// The smaller of two positions.
pub open spec fn lower(a: nat, b: nat) -> nat {
    if a <= b {
        a
    } else {
        b
    }
}

/// One position below `cursor`, stopping at 0.
pub open spec fn one_back(cursor: nat) -> nat {
    if cursor >= 1 {
        (cursor - 1) as nat
    } else {
        0
    }
}

/// The cursor after a step towards the last page. The dual-page layout
/// moves by a whole pair while another pair starts two pages on, and by a
/// single page otherwise, so that the final page is never skipped.
pub open spec fn advance(cursor: nat, last: nat, dual: bool) -> nat {
    if dual && cursor + 2 <= last {
        cursor + 2
    } else {
        lower(cursor + 1, last)
    }
}

/// The cursor after a step towards the first page: a whole pair in the
/// dual-page layout where two pages lie before the cursor, a single page
/// otherwise, never below 0.
pub open spec fn retreat(cursor: nat, dual: bool) -> nat {
    if dual && cursor >= 2 {
        (cursor - 2) as nat
    } else {
        one_back(cursor)
    }
}

impl Nav {
    /// The last position of the cursor in the current layout.
    pub open spec fn last(self) -> nat {
        last_viewable(self.count, self.dual)
    }

    /// The cursor lies within the positions that the current layout shows.
    pub open spec fn in_range(self) -> bool {
        self.cursor <= self.last()
    }

    /// The state with the cursor moved to `cursor`.
    pub open spec fn at(self, cursor: nat) -> Nav {
        Nav { cursor, ..self }
    }

    /// The state that follows `self` when `message` arrives.
    ///
    /// `NextImage` goes on in reading order, so it moves towards the last
    /// page when reading left to right and towards the first page in manga
    /// mode; `PreviousImage` does the opposite. `DualPageToggle` steps one
    /// page back when the cursor stands on the last position of the layout
    /// it leaves, and then changes the layout. `MangaModeToggle` changes the
    /// reading direction and leaves the cursor. `Open` and `Close` leave the
    /// state as it is.
    pub open spec fn step(self, message: Message) -> Nav {
        match message {
            Message::NextImage => if self.manga {
                self.at(retreat(self.cursor, self.dual))
            } else {
                self.at(advance(self.cursor, self.last(), self.dual))
            },
            Message::PreviousImage => if self.manga {
                self.at(advance(self.cursor, self.last(), self.dual))
            } else {
                self.at(retreat(self.cursor, self.dual))
            },
            Message::FirstImage => self.at(0),
            Message::LastImage => self.at(self.last()),
            Message::DualPageToggle => Nav {
                cursor: if self.cursor == self.last() {
                    one_back(self.cursor)
                } else {
                    self.cursor
                },
                dual: !self.dual,
                ..self
            },
            Message::MangaModeToggle => Nav { manga: !self.manga, ..self },
            Message::Open | Message::Close => self,
        }
    }

    /// The state after the messages of `messages` have arrived in turn.
    pub open spec fn run(self, messages: Seq<Message>) -> Nav
        decreases messages.len(),
    {
        if messages.len() == 0 {
            self
        } else {
            self.run(messages.drop_last()).step(messages.last())
        }
    }
}

/// No message takes the cursor out of range: from a state whose cursor lies
/// within the positions of its layout, every message leads to such a state
/// over the same pages.
pub proof fn lemma_step_stays_in_range(nav: Nav, message: Message)
    requires
        nav.in_range(),
    ensures
        nav.step(message).in_range(),
        nav.step(message).count == nav.count,
{
}

/// No sequence of messages takes the cursor out of range, and none changes
/// the number of pages: in the single-page layout the cursor stays on a
/// page, in the dual-page layout on the start of a pair, and over pages it
/// never reaches their number.
pub proof fn lemma_run_stays_in_range(nav: Nav, messages: Seq<Message>)
    requires
        nav.in_range(),
    ensures
        nav.run(messages).in_range(),
        nav.run(messages).count == nav.count,
        nav.run(messages).dual && nav.count >= 2 ==> nav.run(messages).cursor <= nav.count - 2,
        nav.run(messages).dual && nav.count < 2 ==> nav.run(messages).cursor == 0,
        !nav.run(messages).dual && nav.count >= 1 ==> nav.run(messages).cursor <= nav.count - 1,
        nav.count >= 1 ==> nav.run(messages).cursor < nav.count,
        nav.count == 0 ==> nav.run(messages).cursor == 0,
    decreases messages.len(),
{
    if messages.len() > 0 {
        lemma_run_stays_in_range(nav, messages.drop_last());
        lemma_step_stays_in_range(nav.run(messages.drop_last()), messages.last());
    }
}

/// Within range the cursor names a page wherever there is one: it is below
/// the number of pages, and in the dual-page layout over two or more pages
/// the page after it exists too.
pub proof fn lemma_in_range_names_pages(nav: Nav)
    requires
        nav.in_range(),
        nav.count >= 1,
    ensures
        nav.cursor < nav.count,
        !nav.dual ==> nav.cursor <= nav.count - 1,
        nav.dual && nav.count >= 2 ==> nav.cursor + 1 < nav.count,
        nav.dual && nav.count < 2 ==> nav.cursor == 0,
{
}

/// Over no pages every message leaves the cursor at 0.
pub proof fn lemma_no_pages_no_move(nav: Nav, message: Message)
    requires
        nav.in_range(),
        nav.count == 0,
    ensures
        nav.cursor == 0,
        nav.step(message).cursor == 0,
{
}

/// Reading left to right, `PreviousImage` after `FirstImage` leaves the
/// cursor at 0, and `NextImage` after `LastImage` leaves it at the last
/// position. The same holds in manga mode where the layout has a single
/// position.
pub proof fn lemma_ends_hold(nav: Nav)
    requires
        !nav.manga || nav.last() == 0,
    ensures
        nav.step(Message::FirstImage).step(Message::PreviousImage).cursor == 0,
        nav.step(Message::LastImage).step(Message::NextImage).cursor == nav.last(),
{
}

/// In manga mode the two ends change roles: `NextImage` after `FirstImage`
/// leaves the cursor at 0, and `PreviousImage` after `LastImage` leaves it at
/// the last position.
pub proof fn lemma_ends_hold_in_manga_mode(nav: Nav)
    requires
        nav.manga,
    ensures
        nav.step(Message::FirstImage).step(Message::NextImage).cursor == 0,
        nav.step(Message::LastImage).step(Message::PreviousImage).cursor == nav.last(),
{
}

/// Manga mode turns the two directions round: `NextImage` there moves the
/// cursor as `PreviousImage` does when reading left to right, and the other
/// way round.
pub proof fn lemma_manga_reverses(nav: Nav)
    ensures
        (Nav { manga: true, ..nav }).step(Message::NextImage).cursor == (Nav {
            manga: false,
            ..nav
        }).step(Message::PreviousImage).cursor,
        (Nav { manga: true, ..nav }).step(Message::PreviousImage).cursor == (Nav {
            manga: false,
            ..nav
        }).step(Message::NextImage).cursor,
{
}

/// In the single-page layout with a page on either side of the cursor,
/// `NextImage` goes one page up when reading left to right and one page
/// down in manga mode.
pub proof fn lemma_single_page_next(nav: Nav)
    requires
        !nav.dual,
        1 <= nav.cursor,
        nav.cursor + 1 < nav.count,
    ensures
        !nav.manga ==> nav.step(Message::NextImage).cursor == nav.cursor + 1,
        nav.manga ==> nav.step(Message::NextImage).cursor == nav.cursor - 1,
{
}

/// In the dual-page layout a step towards the last page moves by two pages
/// and stops at the start of the last pair, so it never passes a page by.
pub proof fn lemma_dual_page_advance(cursor: nat, last: nat)
    requires
        cursor <= last,
    ensures
        advance(cursor, last, true) == lower(cursor + 2, last),
        advance(cursor, last, true) <= cursor + 2,
{
}

/// After `DualPageToggle` the cursor lies within the positions of the new
/// layout, and it has moved by one page at most.
pub proof fn lemma_toggle_is_safe(nav: Nav)
    requires
        nav.in_range(),
    ensures
        nav.step(Message::DualPageToggle).dual == !nav.dual,
        nav.step(Message::DualPageToggle).cursor <= last_viewable(nav.count, !nav.dual),
        nav.step(Message::DualPageToggle).cursor <= nav.cursor,
        nav.cursor <= nav.step(Message::DualPageToggle).cursor + 1,
{
}

/// `MangaModeToggle` changes the reading direction and nothing else, and a
/// second one restores the state.
pub proof fn lemma_manga_toggle(nav: Nav)
    ensures
        nav.step(Message::MangaModeToggle) == (Nav { manga: !nav.manga, ..nav }),
        nav.step(Message::MangaModeToggle).step(Message::MangaModeToggle) == nav,
{
}

} // verus!
