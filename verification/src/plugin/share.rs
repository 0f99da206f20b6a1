//! The share plugin's decisions: what to do with a share request.

use vstd::prelude::*;

use crate::bytes::clone_bytes;
use crate::json::{Json, JsonView};
use crate::packet::{find_field, obj_get};

verus! {

/// "text"
pub open spec fn key_text() -> Seq<u8> {
    seq![0x74u8, 0x65u8, 0x78u8, 0x74u8]
}

/// "text" as bytes.
fn key_text_bytes() -> (r: Vec<u8>)
    ensures
        r@ == key_text(),
{
    let mut r: Vec<u8> = Vec::new();
    r.push(0x74);
    r.push(0x65);
    r.push(0x78);
    r.push(0x74);
    assert(r@ =~= key_text());
    r
}

/// "url"
pub open spec fn key_url() -> Seq<u8> {
    seq![0x75u8, 0x72u8, 0x6cu8]
}

/// "url" as bytes.
fn key_url_bytes() -> (r: Vec<u8>)
    ensures
        r@ == key_url(),
{
    let mut r: Vec<u8> = Vec::new();
    r.push(0x75);
    r.push(0x72);
    r.push(0x6c);
    assert(r@ =~= key_url());
    r
}

/// What a share request asks of this peer.
#[derive(Debug)]
pub enum ShareAction {
    /// Text was shared: place it on the host clipboard.
    CopyText(Vec<u8>),
    /// A URL was shared: open it in the default browser.
    OpenUrl(Vec<u8>),
    /// Nothing this peer acts on (a file transfer or an unknown shape).
    Ignore,
}

/// The decision for a share-request body: a `text` member is copied, else
/// a `url` member is opened, anything else is ignored.
pub fn share_action(body: &Json) -> (r: ShareAction)
    ensures
        match body@ {
            JsonView::Obj(fs) => match obj_get(fs, key_text()) {
                Some(JsonView::Str(t)) => r matches ShareAction::CopyText(c) && c@ == t,
                _ => match obj_get(fs, key_url()) {
                    Some(JsonView::Str(u)) => r matches ShareAction::OpenUrl(c) && c@ == u,
                    _ => r is Ignore,
                },
            },
            _ => r is Ignore,
        },
{
    match body {
        Json::Obj(fields) => {
            let ghost fs = crate::json::views_of_fields(fields@);
            proof {
                crate::json::lemma_views_of_fields(fields@);
            }
            let kt = key_text_bytes();
            match find_field(fields, kt.as_slice()) {
                Some(i) => match &fields[i].1 {
                    Json::Str(t) => {
                        return ShareAction::CopyText(clone_bytes(t.as_slice()));
                    },
                    _ => {
                    },
                },
                None => {
                },
            }
            let ku = key_url_bytes();
            match find_field(fields, ku.as_slice()) {
                Some(i) => match &fields[i].1 {
                    Json::Str(u) => {
                        return ShareAction::OpenUrl(clone_bytes(u.as_slice()));
                    },
                    _ => {
                    },
                },
                None => {
                },
            }
            ShareAction::Ignore
        },
        _ => ShareAction::Ignore,
    }
}

} // verus!
