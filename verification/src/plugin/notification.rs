//! The notification plugin's data: the peer's notifications, mirrored as
//! host toasts.
//!
//! The peer reports every posted or dismissed notification. A posted one
//! with a title and text becomes a toast, tagged so that a repost updates
//! it in place; a cancelled one is dismissed. Dismissing a toast locally
//! asks the peer to cancel its notification over the wire.

use vstd::prelude::*;

use crate::bytes::clone_bytes;
use crate::json::{Json, JsonView};
use crate::packet::{find_field, obj_get};
use crate::toast::{header::Header, text::Text, DismissalReason, Toast};
use crate::utils::{artifact_cache_name, md5_hex_of};

verus! {

/// "id"
pub open spec fn key_nid() -> Seq<u8> {
    seq![0x69u8, 0x64u8]
}

/// "isCancel"
pub open spec fn key_is_cancel() -> Seq<u8> {
    seq![0x69u8, 0x73u8, 0x43u8, 0x61u8, 0x6eu8, 0x63u8, 0x65u8, 0x6cu8]
}

/// "onlyOnce"
pub open spec fn key_only_once() -> Seq<u8> {
    seq![0x6fu8, 0x6eu8, 0x6cu8, 0x79u8, 0x4fu8, 0x6eu8, 0x63u8, 0x65u8]
}

/// "isClearable"
pub open spec fn key_is_clearable() -> Seq<u8> {
    seq![0x69u8, 0x73u8, 0x43u8, 0x6cu8, 0x65u8, 0x61u8, 0x72u8, 0x61u8, 0x62u8, 0x6cu8, 0x65u8]
}

/// "appName"
pub open spec fn key_app_name() -> Seq<u8> {
    seq![0x61u8, 0x70u8, 0x70u8, 0x4eu8, 0x61u8, 0x6du8, 0x65u8]
}

/// "time"
pub open spec fn key_time() -> Seq<u8> {
    seq![0x74u8, 0x69u8, 0x6du8, 0x65u8]
}

/// "payloadHash"
pub open spec fn key_payload_hash() -> Seq<u8> {
    seq![0x70u8, 0x61u8, 0x79u8, 0x6cu8, 0x6fu8, 0x61u8, 0x64u8, 0x48u8, 0x61u8, 0x73u8, 0x68u8]
}

/// "ticker"
pub open spec fn key_ticker() -> Seq<u8> {
    seq![0x74u8, 0x69u8, 0x63u8, 0x6bu8, 0x65u8, 0x72u8]
}

/// "title"
pub open spec fn key_title() -> Seq<u8> {
    seq![0x74u8, 0x69u8, 0x74u8, 0x6cu8, 0x65u8]
}

/// "text"
pub open spec fn key_ntext() -> Seq<u8> {
    seq![0x74u8, 0x65u8, 0x78u8, 0x74u8]
}

/// "cancel"
pub open spec fn key_cancel() -> Seq<u8> {
    seq![0x63u8, 0x61u8, 0x6eu8, 0x63u8, 0x65u8, 0x6cu8]
}

/// A notification the peer posted.
#[derive(Debug, PartialEq, Eq)]
pub struct IncomingNotification {
    /// The peer's unique notification id; a repost under the same id
    /// updates the existing toast.
    pub id: Vec<u8>,
    pub only_once: bool,
    /// Whether the peer can be asked to dismiss it.
    pub is_clearable: bool,
    pub app_name: Vec<u8>,
    /// The peer's timestamp, as decimal text.
    pub time: Vec<u8>,
    /// Digest naming the icon payload in the artifact cache, when an icon
    /// accompanies the notification.
    pub payload_hash: Option<Vec<u8>>,
    pub ticker: Option<Vec<u8>>,
    pub title: Option<Vec<u8>>,
    pub text: Option<Vec<u8>>,
}

/// Mathematical image of a posted notification.
#[verifier::ext_equal]
pub struct IncomingNotificationView {
    pub id: Seq<u8>,
    pub only_once: bool,
    pub is_clearable: bool,
    pub app_name: Seq<u8>,
    pub time: Seq<u8>,
    pub payload_hash: Option<Seq<u8>>,
    pub ticker: Option<Seq<u8>>,
    pub title: Option<Seq<u8>>,
    pub text: Option<Seq<u8>>,
}

/// View of an optional byte string.
pub open spec fn opt_view(o: Option<Vec<u8>>) -> Option<Seq<u8>> {
    match o {
        Some(v) => Some(v@),
        None => None,
    }
}

impl IncomingNotification {
    pub open spec fn view(&self) -> IncomingNotificationView {
        IncomingNotificationView {
            id: self.id@,
            only_once: self.only_once,
            is_clearable: self.is_clearable,
            app_name: self.app_name@,
            time: self.time@,
            payload_hash: opt_view(self.payload_hash),
            ticker: opt_view(self.ticker),
            title: opt_view(self.title),
            text: opt_view(self.text),
        }
    }
}

/// The body of a notification packet.
#[derive(Debug, PartialEq, Eq)]
pub enum NotificationBody {
    /// The peer dismissed the notification.
    Cancelled { id: Vec<u8>, is_cancel: bool },
    /// The peer posted or updated the notification.
    Posted(IncomingNotification),
}

/// Mathematical image of a notification body.
#[verifier::ext_equal]
pub enum NotificationBodyView {
    Cancelled { id: Seq<u8>, is_cancel: bool },
    Posted(IncomingNotificationView),
}

impl NotificationBody {
    pub open spec fn view(&self) -> NotificationBodyView {
        match self {
            NotificationBody::Cancelled { id, is_cancel } => NotificationBodyView::Cancelled {
                id: id@,
                is_cancel: *is_cancel,
            },
            NotificationBody::Posted(n) => NotificationBodyView::Posted(n@),
        }
    }
}

/// An optional string member: absent or null is no value, a string is a
/// value, anything else is malformed.
pub open spec fn opt_str(fs: Seq<(Seq<u8>, JsonView)>, key: Seq<u8>) -> Option<Option<Seq<u8>>> {
    match obj_get(fs, key) {
        Some(JsonView::Str(s)) => Some(Some(s)),
        Some(JsonView::Null) => Some(None),
        Some(_) => None,
        None => Some(None),
    }
}

/// How a notification body is read: a body carrying a string `id` and a
/// boolean `isCancel` is a dismissal; otherwise the posted form needs its
/// required members.
pub open spec fn spec_notification_from_json(j: JsonView) -> Option<NotificationBodyView> {
    match j {
        JsonView::Obj(fs) => match (obj_get(fs, key_nid()), obj_get(fs, key_is_cancel())) {
            (Some(JsonView::Str(id)), Some(JsonView::Bool(c))) => Some(
                NotificationBodyView::Cancelled { id: id, is_cancel: c },
            ),
            _ => match (
                obj_get(fs, key_nid()),
                obj_get(fs, key_only_once()),
                obj_get(fs, key_is_clearable()),
                obj_get(fs, key_app_name()),
                obj_get(fs, key_time()),
            ) {
                (
                    Some(JsonView::Str(id)),
                    Some(JsonView::Bool(only_once)),
                    Some(JsonView::Bool(is_clearable)),
                    Some(JsonView::Str(app_name)),
                    Some(JsonView::Str(time)),
                ) => match (
                    opt_str(fs, key_payload_hash()),
                    opt_str(fs, key_ticker()),
                    opt_str(fs, key_title()),
                    opt_str(fs, key_ntext()),
                ) {
                    (Some(payload_hash), Some(ticker), Some(title), Some(text)) => Some(
                        NotificationBodyView::Posted(
                            IncomingNotificationView {
                                id,
                                only_once,
                                is_clearable,
                                app_name,
                                time,
                                payload_hash,
                                ticker,
                                title,
                                text,
                            },
                        ),
                    ),
                    _ => None,
                },
                _ => None,
            },
        },
        _ => None,
    }
}

/// Read an optional string member.
fn read_opt_str(fields: &Vec<(Vec<u8>, Json)>, key: &Vec<u8>) -> (r: Result<Option<Vec<u8>>, ()>)
    ensures
        ({
            let fs = crate::json::views_of_fields(fields@);
            match r {
                Ok(v) => opt_str(fs, key@) == Some(opt_view(v)),
                Err(e) => opt_str(fs, key@) is None,
            }
        }),
{
    let ghost fs = crate::json::views_of_fields(fields@);
    proof {
        crate::json::lemma_views_of_fields(fields@);
    }
    match find_field(fields, key.as_slice()) {
        Some(i) => match &fields[i].1 {
            Json::Str(s) => Ok(Some(clone_bytes(s.as_slice()))),
            Json::Null => Ok(None),
            _ => Err(()),
        },
        None => Ok(None),
    }
}

/// Read a notification body off a parsed packet body.
pub fn notification_from_json(body: &Json) -> (r: Result<NotificationBody, ()>)
    ensures
        match r {
            Ok(n) => spec_notification_from_json(body@) == Some(n@),
            Err(e) => spec_notification_from_json(body@) is None,
        },
{
    match body {
        Json::Obj(fields) => {
            let ghost fs = crate::json::views_of_fields(fields@);
            proof {
                crate::json::lemma_views_of_fields(fields@);
                assert(body@ == JsonView::Obj(fs));
            }
            let kid = ascii_key_id();
            let kcancel = ascii_key_is_cancel();
            let id_field = find_field(fields, kid.as_slice());
            let cancel_field = find_field(fields, kcancel.as_slice());
            match (id_field, cancel_field) {
                (Some(i), Some(c)) => {
                    match (&fields[i].1, &fields[c].1) {
                        (Json::Str(id), Json::Bool(is_cancel)) => {
                            return Ok(NotificationBody::Cancelled {
                                id: clone_bytes(id.as_slice()),
                                is_cancel: *is_cancel,
                            });
                        },
                        _ => {
                        },
                    }
                },
                _ => {
                },
            }
            let id: Vec<u8> = match id_field {
                Some(i) => match &fields[i].1 {
                    Json::Str(s) => clone_bytes(s.as_slice()),
                    _ => {
                        return Err(());
                    },
                },
                None => {
                    return Err(());
                },
            };
            let konly = ascii_key_only_once();
            let only_once: bool = match find_field(fields, konly.as_slice()) {
                Some(i) => match &fields[i].1 {
                    Json::Bool(b) => *b,
                    _ => {
                        return Err(());
                    },
                },
                None => {
                    return Err(());
                },
            };
            let kclear = ascii_key_is_clearable();
            let is_clearable: bool = match find_field(fields, kclear.as_slice()) {
                Some(i) => match &fields[i].1 {
                    Json::Bool(b) => *b,
                    _ => {
                        return Err(());
                    },
                },
                None => {
                    return Err(());
                },
            };
            let kapp = ascii_key_app_name();
            let app_name: Vec<u8> = match find_field(fields, kapp.as_slice()) {
                Some(i) => match &fields[i].1 {
                    Json::Str(s) => clone_bytes(s.as_slice()),
                    _ => {
                        return Err(());
                    },
                },
                None => {
                    return Err(());
                },
            };
            let ktime = ascii_key_time();
            let time: Vec<u8> = match find_field(fields, ktime.as_slice()) {
                Some(i) => match &fields[i].1 {
                    Json::Str(s) => clone_bytes(s.as_slice()),
                    _ => {
                        return Err(());
                    },
                },
                None => {
                    return Err(());
                },
            };
            let khash = ascii_key_payload_hash();
            let payload_hash = match read_opt_str(fields, &khash) {
                Ok(v) => v,
                Err(()) => {
                    return Err(());
                },
            };
            let kticker = ascii_key_ticker();
            let ticker = match read_opt_str(fields, &kticker) {
                Ok(v) => v,
                Err(()) => {
                    return Err(());
                },
            };
            let ktitle = ascii_key_title();
            let title = match read_opt_str(fields, &ktitle) {
                Ok(v) => v,
                Err(()) => {
                    return Err(());
                },
            };
            let ktext = ascii_key_ntext();
            let text = match read_opt_str(fields, &ktext) {
                Ok(v) => v,
                Err(()) => {
                    return Err(());
                },
            };
            Ok(NotificationBody::Posted(IncomingNotification {
                id,
                only_once,
                is_clearable,
                app_name,
                time,
                payload_hash,
                ticker,
                title,
                text,
            }))
        },
        _ => Err(()),
    }
}

/// The toast shown for a posted notification: titled lines, the device
/// name as attribution, tagged by the digest of the notification id so a
/// repost updates it in place, grouped by the given group tag, alive for
/// twelve hours. A notification without both title and text shows nothing.
pub fn notification_toast(
    n: &IncomingNotification,
    device_name: &Vec<u8>,
    group: Vec<u8>,
) -> (r: Option<Toast>)
    ensures
        match r {
            Some(t) => {
                &&& n@.title is Some
                &&& n@.text is Some
                &&& t.header matches Some(h) && h.id@ == md5_hex_of(n@.app_name)
                    && h.title@ == n@.app_name
                &&& t.text.0 matches Some(l) && l.content@ == n@.title->0
                &&& t.text.1 matches Some(l) && l.content@ == n@.text->0
                &&& t.text.2 matches Some(l) && l.content@ == device_name@
                &&& t.tag matches Some(tag) && tag@ == md5_hex_of(n@.id)
                &&& t.group matches Some(g) && g@ == group@
                &&& t.remote_id matches Some(rid) && rid@ == n@.id
                &&& t.expires_in_secs == Some(43200u64)
            },
            None => n@.title is None || n@.text is None,
        },
{
    let (title, text) = match (&n.title, &n.text) {
        (Some(title), Some(text)) => (clone_bytes(title.as_slice()), clone_bytes(text.as_slice())),
        _ => {
            return None;
        },
    };
    let id_hash = artifact_cache_name(&n.id, &[]);
    let app_name_hash = artifact_cache_name(&n.app_name, &[]);
    proof {
        assert(md5_hex_of(n.id@) + Seq::<u8>::empty() =~= md5_hex_of(n.id@));
        assert(md5_hex_of(n.app_name@) + Seq::<u8>::empty() =~= md5_hex_of(n.app_name@));
    }
    let mut toast = Toast::new();
    let arguments = crate::bytes::ascii_bytes("action=headerClick");
    toast.header(Header::new(app_name_hash, clone_bytes(n.app_name.as_slice()), arguments));
    toast.text1(Text::new(title));
    toast.text2(Text::new(text));
    toast.text3(Text::new(clone_bytes(device_name.as_slice())).as_attribution());
    toast.expires_in(43200);
    toast.tag(id_hash);
    toast.group(group);
    toast.remote_id(clone_bytes(n.id.as_slice()));
    Some(toast)
}

/// The body asking the peer to cancel a notification: `{"cancel": id}`.
pub fn notification_cancel_body(id: &Vec<u8>) -> (r: Json)
    ensures
        r@ == JsonView::Obj(seq![(key_cancel(), JsonView::Str(id@))]),
{
    let mut key: Vec<u8> = Vec::new();
    key.push(0x63);
    key.push(0x61);
    key.push(0x6e);
    key.push(0x63);
    key.push(0x65);
    key.push(0x6c);
    assert(key@ =~= key_cancel());
    let mut fields: Vec<(Vec<u8>, Json)> = Vec::new();
    fields.push((key, Json::Str(clone_bytes(id.as_slice()))));
    proof {
        crate::json::lemma_views_of_fields(fields@);
        assert(crate::json::views_of_fields(fields@)
            =~= seq![(key_cancel(), JsonView::Str(id@))]);
    }
    Json::Obj(fields)
}

/// Only a dismissal by the user is forwarded to the peer; hiding or timing
/// out leaves the peer's notification standing.
pub fn should_request_remote_dismiss(reason: DismissalReason) -> (r: bool)
    ensures
        r == (reason == DismissalReason::UserCanceled),
{
    match reason {
        DismissalReason::UserCanceled => true,
        _ => false,
    }
}

fn ascii_key_id() -> (r: Vec<u8>)
    ensures
        r@ == key_nid(),
{
    let mut r: Vec<u8> = Vec::new();
    r.push(0x69);
    r.push(0x64);
    assert(r@ =~= key_nid());
    r
}

fn ascii_key_is_cancel() -> (r: Vec<u8>)
    ensures
        r@ == key_is_cancel(),
{
    let mut r: Vec<u8> = Vec::new();
    r.push(0x69);
    r.push(0x73);
    r.push(0x43);
    r.push(0x61);
    r.push(0x6e);
    r.push(0x63);
    r.push(0x65);
    r.push(0x6c);
    assert(r@ =~= key_is_cancel());
    r
}

fn ascii_key_only_once() -> (r: Vec<u8>)
    ensures
        r@ == key_only_once(),
{
    let mut r: Vec<u8> = Vec::new();
    r.push(0x6f);
    r.push(0x6e);
    r.push(0x6c);
    r.push(0x79);
    r.push(0x4f);
    r.push(0x6e);
    r.push(0x63);
    r.push(0x65);
    assert(r@ =~= key_only_once());
    r
}

fn ascii_key_is_clearable() -> (r: Vec<u8>)
    ensures
        r@ == key_is_clearable(),
{
    let mut r: Vec<u8> = Vec::new();
    r.push(0x69);
    r.push(0x73);
    r.push(0x43);
    r.push(0x6c);
    r.push(0x65);
    r.push(0x61);
    r.push(0x72);
    r.push(0x61);
    r.push(0x62);
    r.push(0x6c);
    r.push(0x65);
    assert(r@ =~= key_is_clearable());
    r
}

fn ascii_key_app_name() -> (r: Vec<u8>)
    ensures
        r@ == key_app_name(),
{
    let mut r: Vec<u8> = Vec::new();
    r.push(0x61);
    r.push(0x70);
    r.push(0x70);
    r.push(0x4e);
    r.push(0x61);
    r.push(0x6d);
    r.push(0x65);
    assert(r@ =~= key_app_name());
    r
}

fn ascii_key_time() -> (r: Vec<u8>)
    ensures
        r@ == key_time(),
{
    let mut r: Vec<u8> = Vec::new();
    r.push(0x74);
    r.push(0x69);
    r.push(0x6d);
    r.push(0x65);
    assert(r@ =~= key_time());
    r
}

fn ascii_key_payload_hash() -> (r: Vec<u8>)
    ensures
        r@ == key_payload_hash(),
{
    let mut r: Vec<u8> = Vec::new();
    r.push(0x70);
    r.push(0x61);
    r.push(0x79);
    r.push(0x6c);
    r.push(0x6f);
    r.push(0x61);
    r.push(0x64);
    r.push(0x48);
    r.push(0x61);
    r.push(0x73);
    r.push(0x68);
    assert(r@ =~= key_payload_hash());
    r
}

fn ascii_key_ticker() -> (r: Vec<u8>)
    ensures
        r@ == key_ticker(),
{
    let mut r: Vec<u8> = Vec::new();
    r.push(0x74);
    r.push(0x69);
    r.push(0x63);
    r.push(0x6b);
    r.push(0x65);
    r.push(0x72);
    assert(r@ =~= key_ticker());
    r
}

fn ascii_key_title() -> (r: Vec<u8>)
    ensures
        r@ == key_title(),
{
    let mut r: Vec<u8> = Vec::new();
    r.push(0x74);
    r.push(0x69);
    r.push(0x74);
    r.push(0x6c);
    r.push(0x65);
    assert(r@ =~= key_title());
    r
}

fn ascii_key_ntext() -> (r: Vec<u8>)
    ensures
        r@ == key_ntext(),
{
    let mut r: Vec<u8> = Vec::new();
    r.push(0x74);
    r.push(0x65);
    r.push(0x78);
    r.push(0x74);
    assert(r@ =~= key_ntext());
    r
}

} // verus!
