//! The system-volume plugin's data: sink lists and volume updates.
//!
//! The host audio stack reports its outputs; this peer answers sink
//! requests with the list and announces volume changes. Adjusting the
//! volume itself is host-side work.

use vstd::prelude::*;

use crate::audio::AudioSinkInfo;
use crate::bytes::clone_bytes;
use crate::json::{Json, JsonView};

verus! {

/// "sinkList"
pub open spec fn key_sink_list() -> Seq<u8> {
    seq![0x73u8, 0x69u8, 0x6eu8, 0x6bu8, 0x4cu8, 0x69u8, 0x73u8, 0x74u8]
}

/// "name"
pub open spec fn key_name() -> Seq<u8> {
    seq![0x6eu8, 0x61u8, 0x6du8, 0x65u8]
}

/// "description"
pub open spec fn key_description() -> Seq<u8> {
    seq![
        0x64u8, 0x65u8, 0x73u8, 0x63u8, 0x72u8, 0x69u8, 0x70u8, 0x74u8, 0x69u8, 0x6fu8, 0x6eu8,
    ]
}

/// "muted"
pub open spec fn key_muted() -> Seq<u8> {
    seq![0x6du8, 0x75u8, 0x74u8, 0x65u8, 0x64u8]
}

/// "volume"
pub open spec fn key_volume() -> Seq<u8> {
    seq![0x76u8, 0x6fu8, 0x6cu8, 0x75u8, 0x6du8, 0x65u8]
}

/// "maxVolume"
pub open spec fn key_max_volume() -> Seq<u8> {
    seq![0x6du8, 0x61u8, 0x78u8, 0x56u8, 0x6fu8, 0x6cu8, 0x75u8, 0x6du8, 0x65u8]
}

/// "enabled"
pub open spec fn key_enabled() -> Seq<u8> {
    seq![0x65u8, 0x6eu8, 0x61u8, 0x62u8, 0x6cu8, 0x65u8, 0x64u8]
}

/// The JSON object describing one sink: its identity, state, and the
/// fixed maximum of 100.
pub open spec fn sink_fields(s: AudioSinkInfo) -> Seq<(Seq<u8>, JsonView)> {
    seq![
        (key_name(), JsonView::Str(s.name@)),
        (key_description(), JsonView::Str(s.description@)),
        (key_muted(), JsonView::Bool(s.is_muted)),
        (key_volume(), JsonView::UInt(s.volume as u64)),
        (key_max_volume(), JsonView::UInt(100u64)),
        (key_enabled(), JsonView::Bool(s.is_active)),
    ]
}

/// One sink as a JSON object.
fn sink_to_json(s: &AudioSinkInfo) -> (r: Json)
    ensures
        r@ == JsonView::Obj(sink_fields(*s)),
{
    let mut fields: Vec<(Vec<u8>, Json)> = Vec::new();
    let mut k: Vec<u8> = Vec::new();
    k.push(0x6e);
    k.push(0x61);
    k.push(0x6d);
    k.push(0x65);
    assert(k@ =~= key_name());
    fields.push((k, Json::Str(clone_bytes(s.name.as_slice()))));
    let mut k2: Vec<u8> = Vec::new();
    k2.push(0x64);
    k2.push(0x65);
    k2.push(0x73);
    k2.push(0x63);
    k2.push(0x72);
    k2.push(0x69);
    k2.push(0x70);
    k2.push(0x74);
    k2.push(0x69);
    k2.push(0x6f);
    k2.push(0x6e);
    assert(k2@ =~= key_description());
    fields.push((k2, Json::Str(clone_bytes(s.description.as_slice()))));
    let mut k3: Vec<u8> = Vec::new();
    k3.push(0x6d);
    k3.push(0x75);
    k3.push(0x74);
    k3.push(0x65);
    k3.push(0x64);
    assert(k3@ =~= key_muted());
    fields.push((k3, Json::Bool(s.is_muted)));
    let mut k4: Vec<u8> = Vec::new();
    k4.push(0x76);
    k4.push(0x6f);
    k4.push(0x6c);
    k4.push(0x75);
    k4.push(0x6d);
    k4.push(0x65);
    assert(k4@ =~= key_volume());
    fields.push((k4, Json::UInt(s.volume as u64)));
    let mut k5: Vec<u8> = Vec::new();
    k5.push(0x6d);
    k5.push(0x61);
    k5.push(0x78);
    k5.push(0x56);
    k5.push(0x6f);
    k5.push(0x6c);
    k5.push(0x75);
    k5.push(0x6d);
    k5.push(0x65);
    assert(k5@ =~= key_max_volume());
    fields.push((k5, Json::UInt(100)));
    let mut k6: Vec<u8> = Vec::new();
    k6.push(0x65);
    k6.push(0x6e);
    k6.push(0x61);
    k6.push(0x62);
    k6.push(0x6c);
    k6.push(0x65);
    k6.push(0x64);
    assert(k6@ =~= key_enabled());
    fields.push((k6, Json::Bool(s.is_active)));
    proof {
        crate::json::lemma_views_of_fields(fields@);
        assert(crate::json::views_of_fields(fields@) =~= sink_fields(*s));
    }
    Json::Obj(fields)
}

/// The sinks as JSON objects, in order.
pub open spec fn sinks_json(sinks: Seq<AudioSinkInfo>) -> Seq<JsonView> {
    Seq::new(sinks.len(), |i: int| JsonView::Obj(sink_fields(sinks[i])))
}

/// The body answering a sink request: `{"sinkList": [...]}` with one
/// object per reported sink, in the reported order.
pub fn sink_list_body(sinks: &Vec<AudioSinkInfo>) -> (r: Json)
    ensures
        r@ == JsonView::Obj(
            seq![(key_sink_list(), JsonView::Arr(sinks_json(sinks@)))],
        ),
{
    let n: usize = sinks.len();
    let mut items: Vec<Json> = Vec::new();
    let mut i: usize = 0;
    while i < n
        invariant
            n == sinks@.len(),
            0 <= i <= n,
            items@.len() == i,
            forall|k: int| 0 <= k < i ==> items@[k]@ == JsonView::Obj(sink_fields(sinks@[k])),
        decreases n - i,
    {
        items.push(sink_to_json(&sinks[i]));
        i = i + 1;
    }
    proof {
        crate::json::lemma_views_of(items@);
        assert(crate::json::views_of(items@) =~= sinks_json(sinks@));
    }
    let mut key: Vec<u8> = Vec::new();
    key.push(0x73);
    key.push(0x69);
    key.push(0x6e);
    key.push(0x6b);
    key.push(0x4c);
    key.push(0x69);
    key.push(0x73);
    key.push(0x74);
    assert(key@ =~= key_sink_list());
    let mut fields: Vec<(Vec<u8>, Json)> = Vec::new();
    fields.push((key, Json::Arr(items)));
    proof {
        crate::json::lemma_views_of_fields(fields@);
        assert(crate::json::views_of_fields(fields@)
            =~= seq![(key_sink_list(), JsonView::Arr(sinks_json(sinks@)))]);
    }
    Json::Obj(fields)
}

/// The body announcing one sink's new state.
pub fn volume_update_body(name: &Vec<u8>, volume: u8, muted: bool) -> (r: Json)
    ensures
        r@ == JsonView::Obj(
            seq![
                (key_name(), JsonView::Str(name@)),
                (key_volume(), JsonView::UInt(volume as u64)),
                (key_muted(), JsonView::Bool(muted)),
            ],
        ),
{
    let mut k: Vec<u8> = Vec::new();
    k.push(0x6e);
    k.push(0x61);
    k.push(0x6d);
    k.push(0x65);
    assert(k@ =~= key_name());
    let mut k2: Vec<u8> = Vec::new();
    k2.push(0x76);
    k2.push(0x6f);
    k2.push(0x6c);
    k2.push(0x75);
    k2.push(0x6d);
    k2.push(0x65);
    assert(k2@ =~= key_volume());
    let mut k3: Vec<u8> = Vec::new();
    k3.push(0x6d);
    k3.push(0x75);
    k3.push(0x74);
    k3.push(0x65);
    k3.push(0x64);
    assert(k3@ =~= key_muted());
    let mut fields: Vec<(Vec<u8>, Json)> = Vec::new();
    fields.push((k, Json::Str(clone_bytes(name.as_slice()))));
    fields.push((k2, Json::UInt(volume as u64)));
    fields.push((k3, Json::Bool(muted)));
    proof {
        crate::json::lemma_views_of_fields(fields@);
        assert(crate::json::views_of_fields(fields@) =~= seq![
            (key_name(), JsonView::Str(name@)),
            (key_volume(), JsonView::UInt(volume as u64)),
            (key_muted(), JsonView::Bool(muted)),
        ]);
    }
    Json::Obj(fields)
}

} // verus!
