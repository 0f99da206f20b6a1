//! The media-remote plugin's data: requests from the peer about the
//! media sessions this host plays.
//!
//! The peer asks for the player list, for what is playing, for album art,
//! or sends a transport action; the host media stack performs the action.
//! Album art is content-addressed in the payload cache and served as a
//! payload.

use vstd::prelude::*;

use crate::bytes::clone_bytes;
use crate::json::{Json, JsonView};
use crate::packet::{find_field, obj_get};

verus! {

/// "player"
pub open spec fn key_player() -> Seq<u8> {
    seq![0x70u8, 0x6cu8, 0x61u8, 0x79u8, 0x65u8, 0x72u8]
}

/// "player" as bytes.
fn key_player_bytes() -> (r: Vec<u8>)
    ensures
        r@ == key_player(),
{
    let mut r: Vec<u8> = Vec::new();
    r.push(0x70);
    r.push(0x6c);
    r.push(0x61);
    r.push(0x79);
    r.push(0x65);
    r.push(0x72);
    assert(r@ =~= key_player());
    r
}

/// "requestPlayerList"
pub open spec fn key_request_player_list() -> Seq<u8> {
    seq![0x72u8, 0x65u8, 0x71u8, 0x75u8, 0x65u8, 0x73u8, 0x74u8, 0x50u8, 0x6cu8, 0x61u8, 0x79u8, 0x65u8, 0x72u8, 0x4cu8, 0x69u8, 0x73u8, 0x74u8]
}

/// "requestPlayerList" as bytes.
fn key_request_player_list_bytes() -> (r: Vec<u8>)
    ensures
        r@ == key_request_player_list(),
{
    let mut r: Vec<u8> = Vec::new();
    r.push(0x72);
    r.push(0x65);
    r.push(0x71);
    r.push(0x75);
    r.push(0x65);
    r.push(0x73);
    r.push(0x74);
    r.push(0x50);
    r.push(0x6c);
    r.push(0x61);
    r.push(0x79);
    r.push(0x65);
    r.push(0x72);
    r.push(0x4c);
    r.push(0x69);
    r.push(0x73);
    r.push(0x74);
    assert(r@ =~= key_request_player_list());
    r
}

/// "requestNowPlaying"
pub open spec fn key_request_now_playing() -> Seq<u8> {
    seq![0x72u8, 0x65u8, 0x71u8, 0x75u8, 0x65u8, 0x73u8, 0x74u8, 0x4eu8, 0x6fu8, 0x77u8, 0x50u8, 0x6cu8, 0x61u8, 0x79u8, 0x69u8, 0x6eu8, 0x67u8]
}

/// "requestNowPlaying" as bytes.
fn key_request_now_playing_bytes() -> (r: Vec<u8>)
    ensures
        r@ == key_request_now_playing(),
{
    let mut r: Vec<u8> = Vec::new();
    r.push(0x72);
    r.push(0x65);
    r.push(0x71);
    r.push(0x75);
    r.push(0x65);
    r.push(0x73);
    r.push(0x74);
    r.push(0x4e);
    r.push(0x6f);
    r.push(0x77);
    r.push(0x50);
    r.push(0x6c);
    r.push(0x61);
    r.push(0x79);
    r.push(0x69);
    r.push(0x6e);
    r.push(0x67);
    assert(r@ =~= key_request_now_playing());
    r
}

/// "albumArtUrl"
pub open spec fn key_album_art_url() -> Seq<u8> {
    seq![0x61u8, 0x6cu8, 0x62u8, 0x75u8, 0x6du8, 0x41u8, 0x72u8, 0x74u8, 0x55u8, 0x72u8, 0x6cu8]
}

/// "albumArtUrl" as bytes.
fn key_album_art_url_bytes() -> (r: Vec<u8>)
    ensures
        r@ == key_album_art_url(),
{
    let mut r: Vec<u8> = Vec::new();
    r.push(0x61);
    r.push(0x6c);
    r.push(0x62);
    r.push(0x75);
    r.push(0x6d);
    r.push(0x41);
    r.push(0x72);
    r.push(0x74);
    r.push(0x55);
    r.push(0x72);
    r.push(0x6c);
    assert(r@ =~= key_album_art_url());
    r
}

/// "action"
pub open spec fn key_action() -> Seq<u8> {
    seq![0x61u8, 0x63u8, 0x74u8, 0x69u8, 0x6fu8, 0x6eu8]
}

/// "action" as bytes.
fn key_action_bytes() -> (r: Vec<u8>)
    ensures
        r@ == key_action(),
{
    let mut r: Vec<u8> = Vec::new();
    r.push(0x61);
    r.push(0x63);
    r.push(0x74);
    r.push(0x69);
    r.push(0x6f);
    r.push(0x6e);
    assert(r@ =~= key_action());
    r
}

/// "PlayPause"
pub open spec fn key_play_pause() -> Seq<u8> {
    seq![0x50u8, 0x6cu8, 0x61u8, 0x79u8, 0x50u8, 0x61u8, 0x75u8, 0x73u8, 0x65u8]
}

/// "PlayPause" as bytes.
fn key_play_pause_bytes() -> (r: Vec<u8>)
    ensures
        r@ == key_play_pause(),
{
    let mut r: Vec<u8> = Vec::new();
    r.push(0x50);
    r.push(0x6c);
    r.push(0x61);
    r.push(0x79);
    r.push(0x50);
    r.push(0x61);
    r.push(0x75);
    r.push(0x73);
    r.push(0x65);
    assert(r@ =~= key_play_pause());
    r
}

/// "Play"
pub open spec fn key_play() -> Seq<u8> {
    seq![0x50u8, 0x6cu8, 0x61u8, 0x79u8]
}

/// "Play" as bytes.
fn key_play_bytes() -> (r: Vec<u8>)
    ensures
        r@ == key_play(),
{
    let mut r: Vec<u8> = Vec::new();
    r.push(0x50);
    r.push(0x6c);
    r.push(0x61);
    r.push(0x79);
    assert(r@ =~= key_play());
    r
}

/// "Pause"
pub open spec fn key_pause() -> Seq<u8> {
    seq![0x50u8, 0x61u8, 0x75u8, 0x73u8, 0x65u8]
}

/// "Pause" as bytes.
fn key_pause_bytes() -> (r: Vec<u8>)
    ensures
        r@ == key_pause(),
{
    let mut r: Vec<u8> = Vec::new();
    r.push(0x50);
    r.push(0x61);
    r.push(0x75);
    r.push(0x73);
    r.push(0x65);
    assert(r@ =~= key_pause());
    r
}

/// "Stop"
pub open spec fn key_stop() -> Seq<u8> {
    seq![0x53u8, 0x74u8, 0x6fu8, 0x70u8]
}

/// "Stop" as bytes.
fn key_stop_bytes() -> (r: Vec<u8>)
    ensures
        r@ == key_stop(),
{
    let mut r: Vec<u8> = Vec::new();
    r.push(0x53);
    r.push(0x74);
    r.push(0x6f);
    r.push(0x70);
    assert(r@ =~= key_stop());
    r
}

/// "Previous"
pub open spec fn key_previous() -> Seq<u8> {
    seq![0x50u8, 0x72u8, 0x65u8, 0x76u8, 0x69u8, 0x6fu8, 0x75u8, 0x73u8]
}

/// "Previous" as bytes.
fn key_previous_bytes() -> (r: Vec<u8>)
    ensures
        r@ == key_previous(),
{
    let mut r: Vec<u8> = Vec::new();
    r.push(0x50);
    r.push(0x72);
    r.push(0x65);
    r.push(0x76);
    r.push(0x69);
    r.push(0x6f);
    r.push(0x75);
    r.push(0x73);
    assert(r@ =~= key_previous());
    r
}

/// "Next"
pub open spec fn key_next() -> Seq<u8> {
    seq![0x4eu8, 0x65u8, 0x78u8, 0x74u8]
}

/// "Next" as bytes.
fn key_next_bytes() -> (r: Vec<u8>)
    ensures
        r@ == key_next(),
{
    let mut r: Vec<u8> = Vec::new();
    r.push(0x4e);
    r.push(0x65);
    r.push(0x78);
    r.push(0x74);
    assert(r@ =~= key_next());
    r
}

/// A transport action the peer may request.
#[derive(Debug, Clone, Copy, PartialEq, Eq, Structural)]
pub enum MediaAction {
    PlayPause,
    Play,
    Pause,
    Stop,
    Previous,
    Next,
}

/// The action a name denotes, if any; an unknown name is ignored.
pub open spec fn media_action_of(s: Seq<u8>) -> Option<MediaAction> {
    if s == key_play_pause() {
        Some(MediaAction::PlayPause)
    } else if s == key_play() {
        Some(MediaAction::Play)
    } else if s == key_pause() {
        Some(MediaAction::Pause)
    } else if s == key_stop() {
        Some(MediaAction::Stop)
    } else if s == key_previous() {
        Some(MediaAction::Previous)
    } else if s == key_next() {
        Some(MediaAction::Next)
    } else {
        None
    }
}

/// One parsed media request.
#[derive(Debug, PartialEq, Eq)]
pub struct MprisRequest {
    /// Which player the request addresses, when one is named.
    pub player: Option<Vec<u8>>,
    pub request_player_list: bool,
    pub request_now_playing: bool,
    /// The art URL the peer wants served as a payload.
    pub album_art_url: Option<Vec<u8>>,
    /// A transport action for the addressed player.
    pub action: Option<MediaAction>,
}

/// Mathematical image of a media request.
#[verifier::ext_equal]
pub struct MprisRequestView {
    pub player: Option<Seq<u8>>,
    pub request_player_list: bool,
    pub request_now_playing: bool,
    pub album_art_url: Option<Seq<u8>>,
    pub action: Option<MediaAction>,
}

impl MprisRequest {
    pub open spec fn view(&self) -> MprisRequestView {
        MprisRequestView {
            player: match self.player {
                Some(p) => Some(p@),
                None => None,
            },
            request_player_list: self.request_player_list,
            request_now_playing: self.request_now_playing,
            album_art_url: match self.album_art_url {
                Some(u) => Some(u@),
                None => None,
            },
            action: self.action,
        }
    }
}

/// An optional string member read leniently: a string is taken, anything
/// else counts as absent.
pub open spec fn lenient_str(fs: Seq<(Seq<u8>, JsonView)>, key: Seq<u8>) -> Option<Seq<u8>> {
    match obj_get(fs, key) {
        Some(JsonView::Str(s)) => Some(s),
        _ => None,
    }
}

/// A boolean member read leniently: only a literal `true` counts.
pub open spec fn lenient_flag(fs: Seq<(Seq<u8>, JsonView)>, key: Seq<u8>) -> bool {
    obj_get(fs, key) == Some(JsonView::Bool(true))
}

/// How a media request body is read. Members are taken leniently, as the
/// peer sends only the ones it needs; an unknown action name leaves the
/// action empty.
pub open spec fn spec_mpris_request(j: JsonView) -> Option<MprisRequestView> {
    match j {
        JsonView::Obj(fs) => Some(
            MprisRequestView {
                player: lenient_str(fs, key_player()),
                request_player_list: lenient_flag(fs, key_request_player_list()),
                request_now_playing: lenient_flag(fs, key_request_now_playing()),
                album_art_url: lenient_str(fs, key_album_art_url()),
                action: match lenient_str(fs, key_action()) {
                    Some(name) => media_action_of(name),
                    None => None,
                },
            },
        ),
        _ => None,
    }
}

/// Read an optional string member leniently.
fn read_lenient_str(fields: &Vec<(Vec<u8>, Json)>, key: &Vec<u8>) -> (r: Option<Vec<u8>>)
    ensures
        ({
            let fs = crate::json::views_of_fields(fields@);
            match r {
                Some(v) => lenient_str(fs, key@) == Some(v@),
                None => lenient_str(fs, key@) is None,
            }
        }),
{
    let ghost fs = crate::json::views_of_fields(fields@);
    proof {
        crate::json::lemma_views_of_fields(fields@);
    }
    match find_field(fields, key.as_slice()) {
        Some(i) => match &fields[i].1 {
            Json::Str(s) => Some(clone_bytes(s.as_slice())),
            _ => None,
        },
        None => None,
    }
}

/// Read a boolean member leniently.
fn read_lenient_flag(fields: &Vec<(Vec<u8>, Json)>, key: &Vec<u8>) -> (r: bool)
    ensures
        r == lenient_flag(crate::json::views_of_fields(fields@), key@),
{
    let ghost fs = crate::json::views_of_fields(fields@);
    proof {
        crate::json::lemma_views_of_fields(fields@);
    }
    match find_field(fields, key.as_slice()) {
        Some(i) => match &fields[i].1 {
            Json::Bool(b) => *b,
            _ => false,
        },
        None => false,
    }
}

/// The action a name denotes.
fn media_action_from_name(name: &Vec<u8>) -> (r: Option<MediaAction>)
    ensures
        r == media_action_of(name@),
{
    if crate::bytes::bytes_eq(name.as_slice(), key_play_pause_bytes().as_slice()) {
        Some(MediaAction::PlayPause)
    } else if crate::bytes::bytes_eq(name.as_slice(), key_play_bytes().as_slice()) {
        Some(MediaAction::Play)
    } else if crate::bytes::bytes_eq(name.as_slice(), key_pause_bytes().as_slice()) {
        Some(MediaAction::Pause)
    } else if crate::bytes::bytes_eq(name.as_slice(), key_stop_bytes().as_slice()) {
        Some(MediaAction::Stop)
    } else if crate::bytes::bytes_eq(name.as_slice(), key_previous_bytes().as_slice()) {
        Some(MediaAction::Previous)
    } else if crate::bytes::bytes_eq(name.as_slice(), key_next_bytes().as_slice()) {
        Some(MediaAction::Next)
    } else {
        None
    }
}

/// Read a media request off a parsed packet body.
pub fn mpris_request_from_json(body: &Json) -> (r: Result<MprisRequest, ()>)
    ensures
        match r {
            Ok(req) => spec_mpris_request(body@) == Some(req@),
            Err(e) => spec_mpris_request(body@) is None,
        },
{
    match body {
        Json::Obj(fields) => {
            let ghost fs = crate::json::views_of_fields(fields@);
            proof {
                crate::json::lemma_views_of_fields(fields@);
                assert(body@ == JsonView::Obj(fs));
            }
            let kp = key_player_bytes();
            let player = read_lenient_str(fields, &kp);
            let kl = key_request_player_list_bytes();
            let request_player_list = read_lenient_flag(fields, &kl);
            let kn = key_request_now_playing_bytes();
            let request_now_playing = read_lenient_flag(fields, &kn);
            let ka = key_album_art_url_bytes();
            let album_art_url = read_lenient_str(fields, &ka);
            let kc = key_action_bytes();
            let action = match read_lenient_str(fields, &kc) {
                Some(name) => media_action_from_name(&name),
                None => None,
            };
            Ok(MprisRequest { player, request_player_list, request_now_playing, album_art_url, action })
        },
        _ => Err(()),
    }
}

} // verus!
