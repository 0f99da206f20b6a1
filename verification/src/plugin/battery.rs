//! The battery plugin's data: reports of battery state.
//!
//! Battery packets carry the charge percentage, whether the battery is
//! charging, and a threshold event flag. This peer reads its own state
//! from the host power status and answers battery requests with a report.

use vstd::prelude::*;

use crate::json::{Json, JsonView};
use crate::packet::{find_field, obj_get};

verus! {

/// "currentCharge"
pub open spec fn key_current_charge() -> Seq<u8> {
    seq![0x63u8, 0x75u8, 0x72u8, 0x72u8, 0x65u8, 0x6eu8, 0x74u8, 0x43u8, 0x68u8, 0x61u8, 0x72u8, 0x67u8, 0x65u8]
}

/// "currentCharge" as bytes.
fn key_current_charge_bytes() -> (r: Vec<u8>)
    ensures
        r@ == key_current_charge(),
{
    let mut r: Vec<u8> = Vec::new();
    r.push(0x63);
    r.push(0x75);
    r.push(0x72);
    r.push(0x72);
    r.push(0x65);
    r.push(0x6e);
    r.push(0x74);
    r.push(0x43);
    r.push(0x68);
    r.push(0x61);
    r.push(0x72);
    r.push(0x67);
    r.push(0x65);
    assert(r@ =~= key_current_charge());
    r
}

/// "isCharging"
pub open spec fn key_is_charging() -> Seq<u8> {
    seq![0x69u8, 0x73u8, 0x43u8, 0x68u8, 0x61u8, 0x72u8, 0x67u8, 0x69u8, 0x6eu8, 0x67u8]
}

/// "isCharging" as bytes.
fn key_is_charging_bytes() -> (r: Vec<u8>)
    ensures
        r@ == key_is_charging(),
{
    let mut r: Vec<u8> = Vec::new();
    r.push(0x69);
    r.push(0x73);
    r.push(0x43);
    r.push(0x68);
    r.push(0x61);
    r.push(0x72);
    r.push(0x67);
    r.push(0x69);
    r.push(0x6e);
    r.push(0x67);
    assert(r@ =~= key_is_charging());
    r
}

/// "thresholdEvent"
pub open spec fn key_threshold_event() -> Seq<u8> {
    seq![0x74u8, 0x68u8, 0x72u8, 0x65u8, 0x73u8, 0x68u8, 0x6fu8, 0x6cu8, 0x64u8, 0x45u8, 0x76u8, 0x65u8, 0x6eu8, 0x74u8]
}

/// "thresholdEvent" as bytes.
fn key_threshold_event_bytes() -> (r: Vec<u8>)
    ensures
        r@ == key_threshold_event(),
{
    let mut r: Vec<u8> = Vec::new();
    r.push(0x74);
    r.push(0x68);
    r.push(0x72);
    r.push(0x65);
    r.push(0x73);
    r.push(0x68);
    r.push(0x6f);
    r.push(0x6c);
    r.push(0x64);
    r.push(0x45);
    r.push(0x76);
    r.push(0x65);
    r.push(0x6e);
    r.push(0x74);
    assert(r@ =~= key_threshold_event());
    r
}

/// One battery report, this peer's or a peer's.
#[derive(Debug, Clone, Copy, PartialEq, Eq, Structural)]
pub struct BatteryReport {
    /// Charge in percent.
    pub current_charge: u8,
    pub is_charging: bool,
    /// 1 when the battery entered the low state, else 0.
    pub threshold_event: u8,
}

/// The members of a battery report body.
pub open spec fn battery_fields(r: BatteryReport) -> Seq<(Seq<u8>, JsonView)> {
    seq![
        (key_current_charge(), JsonView::UInt(r.current_charge as u64)),
        (key_is_charging(), JsonView::Bool(r.is_charging)),
        (key_threshold_event(), JsonView::UInt(r.threshold_event as u64)),
    ]
}

impl BatteryReport {
    /// This report as a battery packet body.
    pub fn to_json(&self) -> (r: Json)
        ensures
            r@ == JsonView::Obj(battery_fields(*self)),
    {
        let mut fields: Vec<(Vec<u8>, Json)> = Vec::new();
        fields.push((key_current_charge_bytes(), Json::UInt(self.current_charge as u64)));
        fields.push((key_is_charging_bytes(), Json::Bool(self.is_charging)));
        fields.push((key_threshold_event_bytes(), Json::UInt(self.threshold_event as u64)));
        proof {
            crate::json::lemma_views_of_fields(fields@);
            assert(crate::json::views_of_fields(fields@) =~= battery_fields(*self));
        }
        Json::Obj(fields)
    }
}

/// How a peer's battery report is read back: all three members, each in
/// its range.
pub open spec fn spec_battery_from_json(j: JsonView) -> Option<BatteryReport> {
    match j {
        JsonView::Obj(fs) => match (
            obj_get(fs, key_current_charge()),
            obj_get(fs, key_is_charging()),
            obj_get(fs, key_threshold_event()),
        ) {
            (Some(JsonView::UInt(c)), Some(JsonView::Bool(ch)), Some(JsonView::UInt(t))) => {
                if c <= 0xff && t <= 0xff {
                    Some(BatteryReport {
                        current_charge: c as u8,
                        is_charging: ch,
                        threshold_event: t as u8,
                    })
                } else {
                    None
                }
            },
            _ => None,
        },
        _ => None,
    }
}

/// Read a peer's battery report off a parsed packet body; the stored
/// report then drives the tray display.
pub fn battery_report_from_json(body: &Json) -> (r: Result<BatteryReport, ()>)
    ensures
        match r {
            Ok(rep) => spec_battery_from_json(body@) == Some(rep),
            Err(e) => spec_battery_from_json(body@) is None,
        },
{
    match body {
        Json::Obj(fields) => {
            let ghost fs = crate::json::views_of_fields(fields@);
            proof {
                crate::json::lemma_views_of_fields(fields@);
                assert(body@ == JsonView::Obj(fs));
            }
            let kc = key_current_charge_bytes();
            let current_charge: u8 = match find_field(fields, kc.as_slice()) {
                Some(i) => match &fields[i].1 {
                    Json::UInt(n) => if *n <= 0xff {
                        *n as u8
                    } else {
                        return Err(());
                    },
                    _ => {
                        return Err(());
                    },
                },
                None => {
                    return Err(());
                },
            };
            let ki = key_is_charging_bytes();
            let is_charging: bool = match find_field(fields, ki.as_slice()) {
                Some(i) => match &fields[i].1 {
                    Json::Bool(b) => *b,
                    _ => {
                        return Err(());
                    },
                },
                None => {
                    return Err(());
                },
            };
            let kt = key_threshold_event_bytes();
            let threshold_event: u8 = match find_field(fields, kt.as_slice()) {
                Some(i) => match &fields[i].1 {
                    Json::UInt(n) => if *n <= 0xff {
                        *n as u8
                    } else {
                        return Err(());
                    },
                    _ => {
                        return Err(());
                    },
                },
                None => {
                    return Err(());
                },
            };
            Ok(BatteryReport { current_charge, is_charging, threshold_event })
        },
        _ => Err(()),
    }
}

/// Read this peer's report off the host power status, as the fields of the
/// host's power structure report it. No report is made when the status is
/// unknown (line status 255, flag 255) or no battery is fitted (flag bit
/// 128).
pub fn battery_report_from_power_status(
    ac_line_status: u8,
    battery_flag: u8,
    battery_life_percent: u8,
    system_status_flag: u8,
) -> (r: Option<BatteryReport>)
    ensures
        match r {
            Some(rep) => ac_line_status != 255 && battery_flag & 128 == 0 && battery_flag != 255
                && rep == (BatteryReport {
                    current_charge: battery_life_percent,
                    is_charging: ac_line_status == 1,
                    threshold_event: system_status_flag,
                }),
            None => ac_line_status == 255 || battery_flag & 128 != 0 || battery_flag == 255,
        },
{
    if ac_line_status == 255 || battery_flag & 128 != 0 || battery_flag == 255 {
        None
    } else {
        Some(BatteryReport {
            current_charge: battery_life_percent,
            is_charging: ac_line_status == 1,
            threshold_event: system_status_flag,
        })
    }
}

} // verus!
