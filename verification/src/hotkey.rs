//! The keys that the viewer answers to.

use vstd::prelude::*;
use vstd::string::StrSliceExecFns;
use crate::navigation::Message;

verus! {

/// A key press, as far as the viewer tells keys apart.
#[derive(Debug)]
pub enum Key {
    Escape,
    ArrowRight,
    ArrowLeft,
    Home,
    End,
    /// A key that types the given text.
    Character(String),
    /// Any other key.
    Other,
}

/// A `Key` as plain values.
pub enum KeyView {
    Escape,
    ArrowRight,
    ArrowLeft,
    Home,
    End,
    Character(Seq<char>),
    Other,
}

impl View for Key {
    type V = KeyView;

    open spec fn view(&self) -> KeyView {
        match self {
            Key::Escape => KeyView::Escape,
            Key::ArrowRight => KeyView::ArrowRight,
            Key::ArrowLeft => KeyView::ArrowLeft,
            Key::Home => KeyView::Home,
            Key::End => KeyView::End,
            Key::Character(text) => KeyView::Character(text@),
            Key::Other => KeyView::Other,
        }
    }
}

/// The message that `key` sends, if it sends one: Escape and `q` close the
/// viewer, the right and left arrows ask for the next and the previous
/// image, Home and End for the first and the last.
pub open spec fn hotkey_of(key: KeyView) -> Option<Message> {
    match key {
        KeyView::Escape => Some(Message::Close),
        KeyView::Character(text) => if text == seq!['q'] {
            Some(Message::Close)
        } else {
            None
        },
        KeyView::ArrowRight => Some(Message::NextImage),
        KeyView::ArrowLeft => Some(Message::PreviousImage),
        KeyView::Home => Some(Message::FirstImage),
        KeyView::End => Some(Message::LastImage),
        KeyView::Other => None,
    }
}

/// The message that `key` sends, if it sends one.
pub fn handle_hotkey(key: &Key) -> (message: Option<Message>)
    ensures
        message == hotkey_of(key@),
{
    match key {
        Key::Escape => Some(Message::Close),
        Key::Character(text) => {
            let typed = text.as_str();
            if typed.unicode_len() == 1 && typed.get_char(0) == 'q' {
                assert(text@ =~= seq!['q']);
                Some(Message::Close)
            } else {
                assert(text@ != seq!['q']) by {
                    if text@ == seq!['q'] {
                        assert(seq!['q'].len() == 1);
                        assert(seq!['q'][0] == 'q');
                    }
                }
                None
            }
        },
        Key::ArrowRight => Some(Message::NextImage),
        Key::ArrowLeft => Some(Message::PreviousImage),
        Key::Home => Some(Message::FirstImage),
        Key::End => Some(Message::LastImage),
        Key::Other => None,
    }
}

} // verus!
