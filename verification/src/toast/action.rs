//! Buttons shown on a toast.

use vstd::prelude::*;

use crate::bytes::clone_bytes;

verus! {

/// How the user's interaction with an action is delivered.
#[derive(Debug, Clone, Copy, PartialEq, Eq, Structural)]
pub enum ActivationType {
    /// The foreground app is launched.
    Foreground,
    /// The corresponding background task is triggered.
    Background,
    /// A different app is launched through protocol activation.
    Protocol,
}

impl ActivationType {
    /// The attribute value naming this activation type.
    pub fn as_str(&self) -> (r: &'static str)
        ensures
            r@ == match self {
                ActivationType::Foreground => "foreground"@,
                ActivationType::Background => "background"@,
                ActivationType::Protocol => "protocol"@,
            },
    {
        match self {
            ActivationType::Foreground => "foreground",
            ActivationType::Background => "background",
            ActivationType::Protocol => "protocol",
        }
    }
}

/// Where the action is placed.
#[derive(Debug, Clone, Copy, PartialEq, Eq, Structural)]
pub enum ActionPlacement {
    /// In the toast's context menu rather than as a button.
    ContextMenu,
}

impl ActionPlacement {
    /// The attribute value naming this placement.
    pub fn as_str(&self) -> (r: &'static str)
        ensures
            r@ == "contextMenu"@,
    {
        "contextMenu"
    }
}

/// One button: its label, the argument it hands back, and its type string.
#[derive(Debug)]
pub struct Action {
    pub content: Vec<u8>,
    pub arguments: Vec<u8>,
    pub typ: Vec<u8>,
    pub activation_type: Option<ActivationType>,
    pub placement: Option<ActionPlacement>,
}

impl Action {
    /// A new action with the given label, argument string and type.
    pub fn new(content: Vec<u8>, arguments: Vec<u8>, typ: Vec<u8>) -> (r: Self)
        ensures
            r.content@ == content@,
            r.arguments@ == arguments@,
            r.typ@ == typ@,
            r.activation_type is None,
            r.placement is None,
    {
        Action { content, arguments, typ, activation_type: None, placement: None }
    }

    /// The activation type of the action.
    pub fn with_activation_type(self, activation_type: ActivationType) -> (r: Self)
        ensures
            r == (Action { activation_type: Some(activation_type), ..self }),
    {
        Action { activation_type: Some(activation_type), ..self }
    }

    /// The placement of the action.
    pub fn with_placement(self, placement: ActionPlacement) -> (r: Self)
        ensures
            r == (Action { placement: Some(placement), ..self }),
    {
        Action { placement: Some(placement), ..self }
    }
}

} // verus!
