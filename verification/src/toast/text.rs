//! Text lines of a toast.

use vstd::prelude::*;

verus! {

/// Where a text line is placed.
#[derive(Debug, Clone, Copy, PartialEq, Eq, Structural)]
pub enum TextPlacement {
    /// At the bottom, beside the app identity or timestamp.
    Attribution,
}

impl TextPlacement {
    /// The attribute value naming this placement.
    pub fn as_str(&self) -> (r: &'static str)
        ensures
            r@ == "attribution"@,
    {
        "attribution"
    }
}

/// One text line.
#[derive(Debug)]
pub struct Text {
    pub content: Vec<u8>,
    pub placement: Option<TextPlacement>,
}

impl Text {
    /// A new text line.
    pub fn new(content: Vec<u8>) -> (r: Self)
        ensures
            r.content@ == content@,
            r.placement is None,
    {
        Text { content, placement: None }
    }

    /// The placement of the line.
    pub fn with_placement(self, placement: TextPlacement) -> (r: Self)
        ensures
            r == (Text { placement: Some(placement), ..self }),
    {
        Text { placement: Some(placement), ..self }
    }

    /// Place the line as the attribution.
    pub fn as_attribution(self) -> (r: Self)
        ensures
            r == (Text { placement: Some(TextPlacement::Attribution), ..self }),
    {
        self.with_placement(TextPlacement::Attribution)
    }
}

} // verus!
