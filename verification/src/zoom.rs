//! How a page image is fitted into the space given to it.

use vstd::prelude::*;

verus! {

/// The fitting policies a page image can be drawn with.
#[derive(Debug, Clone, Copy, PartialEq, Eq, Structural)]
pub enum Zoom {
    Contain,
    Cover,
    Fill,
    /// The image at its own size; its label is `None`.
    Unscaled,
    ScaleDown,
}

/// The label of `zoom` as a sequence of characters.
pub open spec fn zoom_label(zoom: Zoom) -> Seq<char> {
    match zoom {
        Zoom::Contain => "Contain"@,
        Zoom::Cover => "Cover"@,
        Zoom::Fill => "Fill"@,
        Zoom::Unscaled => "None"@,
        Zoom::ScaleDown => "ScaleDown"@,
    }
}

/// Every policy, in the order in which a chooser lists them.
pub open spec fn zoom_all() -> Seq<Zoom> {
    seq![Zoom::Contain, Zoom::Cover, Zoom::Fill, Zoom::Unscaled, Zoom::ScaleDown]
}

impl Zoom {
    /// Every policy, in the order in which a chooser lists them.
    pub fn all() -> (list: [Zoom; 5])
        ensures
            list@ == zoom_all(),
    {
        let list = [Zoom::Contain, Zoom::Cover, Zoom::Fill, Zoom::Unscaled, Zoom::ScaleDown];
        assert(list@ =~= zoom_all());
        list
    }

    /// The label shown for this policy.
    pub fn label(&self) -> (text: &'static str)
        ensures
            text@ == zoom_label(*self),
    {
        match self {
            Zoom::Contain => "Contain",
            Zoom::Cover => "Cover",
            Zoom::Fill => "Fill",
            Zoom::Unscaled => "None",
            Zoom::ScaleDown => "ScaleDown",
        }
    }
}

impl Default for Zoom {
    fn default() -> (zoom: Zoom)
        ensures
            zoom == Zoom::Contain,
    {
        Zoom::Contain
    }
}

} // verus!
