//! Output is produced as a sequence of styled text segments. The library
//! decides what text is printed and which of a few fixed styles it carries;
//! actually colouring a terminal is left to the caller.

use vstd::prelude::*;

verus! {

/// How one run of output text is to be styled.
#[derive(Clone, Copy, PartialEq, Eq, Structural, Debug)]
pub enum Style {
    /// No styling at all.
    Plain,
    /// A fixed foreground colour, as an RGB triple.
    Fg { red: u8, green: u8, blue: u8 },
    /// Bold text in the terminal's blue: used for directory names.
    BoldBlue,
}

/// One run of output text under a single style. A style applies to its own
/// segment only; the terminal is assumed to be reset after each segment.
pub struct Segment {
    pub style: Style,
    pub text: String,
}

/// The mathematical image of a segment: its style and the characters of
/// its text.
#[verifier::ext_equal]
pub struct SegView {
    pub style: Style,
    pub text: Seq<char>,
}

impl View for Segment {
    type V = SegView;

    open spec fn view(&self) -> SegView {
        SegView { style: self.style, text: self.text@ }
    }
}

/// The image of a whole list of segments.
pub open spec fn segs_view(s: Seq<Segment>) -> Seq<SegView> {
    s.map_values(|seg: Segment| seg@)
}

} // verus!
