//! Headers grouping toasts in the notification center.

use vstd::prelude::*;

verus! {

/// How a click on the header is delivered.
#[derive(Debug, Clone, Copy, PartialEq, Eq, Structural)]
pub enum ActivationType {
    /// The activation event is sent to a foreground app.
    Foreground,
    /// The activation event is sent via a protocol.
    Protocol,
}

impl ActivationType {
    /// The attribute value naming this activation type.
    pub fn as_str(&self) -> (r: &'static str)
        ensures
            r@ == match self {
                ActivationType::Foreground => "foreground"@,
                ActivationType::Protocol => "protocol"@,
            },
    {
        match self {
            ActivationType::Foreground => "foreground",
            ActivationType::Protocol => "protocol",
        }
    }
}

/// A custom header that groups several toasts together.
#[derive(Debug)]
pub struct Header {
    pub id: Vec<u8>,
    pub title: Vec<u8>,
    pub arguments: Vec<u8>,
    pub activation_type: Option<ActivationType>,
}

impl Header {
    /// A new header with the given id, shown title and click argument.
    pub fn new(id: Vec<u8>, title: Vec<u8>, arguments: Vec<u8>) -> (r: Self)
        ensures
            r.id@ == id@,
            r.title@ == title@,
            r.arguments@ == arguments@,
            r.activation_type is None,
    {
        Header { id, title, arguments, activation_type: None }
    }

    /// The activation type used when the header is clicked.
    pub fn with_activation_type(self, activation_type: ActivationType) -> (r: Self)
        ensures
            r == (Header { activation_type: Some(activation_type), ..self }),
    {
        Header { activation_type: Some(activation_type), ..self }
    }
}

} // verus!
