//! The clipboard plugin's data: what the host clipboard held, and when.

use vstd::prelude::*;

use crate::bytes::clone_bytes;
use crate::json::{Json, JsonView};
use crate::packet::{find_field, obj_get};

verus! {

/// "content"
pub open spec fn key_content() -> Seq<u8> {
    seq![0x63u8, 0x6fu8, 0x6eu8, 0x74u8, 0x65u8, 0x6eu8, 0x74u8]
}

/// "content" as bytes.
fn key_content_bytes() -> (r: Vec<u8>)
    ensures
        r@ == key_content(),
{
    let mut r: Vec<u8> = Vec::new();
    r.push(0x63);
    r.push(0x6f);
    r.push(0x6e);
    r.push(0x74);
    r.push(0x65);
    r.push(0x6e);
    r.push(0x74);
    assert(r@ =~= key_content());
    r
}

/// What the host clipboard holds.
#[derive(Debug)]
pub enum ClipboardContent {
    /// Plain text, UTF-8.
    Text(Vec<u8>),
    /// A list of file paths.
    Files(Vec<Vec<u8>>),
    /// A format this peer does not carry.
    Unsupported,
}

/// The clipboard content this peer last observed, stamped with the moment
/// it was read.
#[derive(Debug)]
pub struct CurrentClipboardContent {
    pub content: ClipboardContent,
    /// Milliseconds since the epoch at the time of reading.
    pub ts: u64,
}

impl CurrentClipboardContent {
    /// Record content as read just now.
    pub fn new_now(content: ClipboardContent) -> (r: Self)
        ensures
            match (r.content, content) {
                (ClipboardContent::Text(a), ClipboardContent::Text(b)) => a@ == b@,
                (ClipboardContent::Files(a), ClipboardContent::Files(b)) => a@ == b@,
                (ClipboardContent::Unsupported, ClipboardContent::Unsupported) => true,
                _ => false,
            },
    {
        CurrentClipboardContent { content, ts: crate::utils::unix_ts_ms() }
    }
}

/// The body of an outbound clipboard packet carrying `text`.
pub fn clipboard_packet_body(text: &Vec<u8>) -> (r: Json)
    ensures
        r@ == JsonView::Obj(seq![(key_content(), JsonView::Str(text@))]),
{
    let mut fields: Vec<(Vec<u8>, Json)> = Vec::new();
    fields.push((key_content_bytes(), Json::Str(clone_bytes(text.as_slice()))));
    proof {
        crate::json::lemma_views_of_fields(fields@);
        assert(crate::json::views_of_fields(fields@)
            =~= seq![(key_content(), JsonView::Str(text@))]);
    }
    Json::Obj(fields)
}

/// The body to send for the current clipboard, if any: only plain text is
/// shared; files and unsupported formats stay local.
pub fn clipboard_send_body(current: &ClipboardContent) -> (r: Option<Json>)
    ensures
        match current {
            ClipboardContent::Text(text) => r matches Some(body) && body@ == JsonView::Obj(
                seq![(key_content(), JsonView::Str(text@))],
            ),
            _ => r is None,
        },
{
    match current {
        ClipboardContent::Text(text) => Some(clipboard_packet_body(text)),
        _ => None,
    }
}

/// The text an inbound clipboard body asks this host to place on its
/// clipboard, when it carries one.
pub fn clipboard_inbound_text(body: &Json) -> (r: Option<Vec<u8>>)
    ensures
        match body@ {
            JsonView::Obj(fs) => match obj_get(fs, key_content()) {
                Some(JsonView::Str(t)) => r matches Some(c) && c@ == t,
                _ => r is None,
            },
            _ => r is None,
        },
{
    match body {
        Json::Obj(fields) => {
            let ghost fs = crate::json::views_of_fields(fields@);
            proof {
                crate::json::lemma_views_of_fields(fields@);
            }
            let kc = key_content_bytes();
            match find_field(fields, kc.as_slice()) {
                Some(i) => match &fields[i].1 {
                    Json::Str(t) => Some(clone_bytes(t.as_slice())),
                    _ => None,
                },
                None => None,
            }
        },
        _ => None,
    }
}

} // verus!
