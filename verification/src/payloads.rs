//! The typed device payloads the handlers consume.
//!
//! Each record mirrors one JSON schema: every named field must be present
//! with the stated type, unknown fields are ignored.  Numeric fields are
//! validated as JSON numbers and kept as their raw text, since no handler
//! reads their value.

use vstd::prelude::*;
use vstd::string::StringSliceAdditionalSpecFns;
use crate::filter::slice_to_vec;
use crate::json::{
    MemberSpan,
    member_views,
    spec_lookup,
    spec_bool_at,
    spec_number_at,
    spec_string_at,
    spec_u64_at,
    spec_parse_object,
    lookup,
    bool_at,
    number_at,
    string_at,
    u64_at,
    parse_object,
    lemma_scan_number_bounds,
};

verus! {

/// The boolean member named `key`, if present and boolean.
pub open spec fn spec_bool_field(s: Seq<u8>, ms: Seq<(Seq<u8>, int, int)>, key: Seq<u8>) -> Option<
    bool,
> {
    match spec_lookup(ms, key) {
        Some((vs, ve)) => spec_bool_at(s, vs, ve),
        None => None,
    }
}

pub fn get_bool_field(s: &[u8], v: &Vec<MemberSpan>, key: &[u8]) -> (r: Option<bool>)
    ensures
        r == spec_bool_field(s@, member_views(v@), key@),
{
    match lookup(v, key) {
        Some((vs, ve)) => {
            if vs <= s.len() {
                bool_at(s, vs, ve)
            } else {
                None
            }
        },
        None => None,
    }
}

/// The raw text of the numeric member named `key`, if present and a number.
pub open spec fn spec_number_field(
    s: Seq<u8>,
    ms: Seq<(Seq<u8>, int, int)>,
    key: Seq<u8>,
) -> Option<Seq<u8>> {
    match spec_lookup(ms, key) {
        Some((vs, ve)) => if spec_number_at(s, vs, ve) {
            Some(s.subrange(vs, ve))
        } else {
            None
        },
        None => None,
    }
}

pub fn get_number_field(s: &[u8], v: &Vec<MemberSpan>, key: &[u8]) -> (r: Option<Vec<u8>>)
    ensures
        r is Some <==> spec_number_field(s@, member_views(v@), key@) is Some,
        r matches Some(t) ==> spec_number_field(s@, member_views(v@), key@) == Some(t@),
{
    match lookup(v, key) {
        Some((vs, ve)) => {
            if vs <= s.len() && number_at(s, vs, ve) {
                proof {
                    lemma_scan_number_bounds(s@, vs as int);
                }
                Some(slice_to_vec(&s[vs..ve]))
            } else {
                None
            }
        },
        None => None,
    }
}

/// The decoded string member named `key`, if present and a string.
pub open spec fn spec_string_field(
    s: Seq<u8>,
    ms: Seq<(Seq<u8>, int, int)>,
    key: Seq<u8>,
) -> Option<Seq<u8>> {
    match spec_lookup(ms, key) {
        Some((vs, ve)) => spec_string_at(s, vs, ve),
        None => None,
    }
}

pub fn get_string_field(s: &[u8], v: &Vec<MemberSpan>, key: &[u8]) -> (r: Option<Vec<u8>>)
    ensures
        r is Some <==> spec_string_field(s@, member_views(v@), key@) is Some,
        r matches Some(t) ==> spec_string_field(s@, member_views(v@), key@) == Some(t@),
{
    match lookup(v, key) {
        Some((vs, ve)) => {
            if vs < s.len() {
                string_at(s, vs, ve)
            } else {
                None
            }
        },
        None => None,
    }
}

/// The unsigned integer member named `key`, if present, integral and in
/// range.
pub open spec fn spec_u64_field(s: Seq<u8>, ms: Seq<(Seq<u8>, int, int)>, key: Seq<u8>) -> Option<
    u64,
> {
    match spec_lookup(ms, key) {
        Some((vs, ve)) => spec_u64_at(s, vs, ve),
        None => None,
    }
}

pub fn get_u64_field(s: &[u8], v: &Vec<MemberSpan>, key: &[u8]) -> (r: Option<u64>)
    ensures
        r == spec_u64_field(s@, member_views(v@), key@),
{
    match lookup(v, key) {
        Some((vs, ve)) => {
            if ve <= s.len() {
                u64_at(s, vs, ve)
            } else {
                None
            }
        },
        None => None,
    }
}

/// A door contact sensor's report.
#[derive(Debug, Clone, PartialEq, Eq)]
pub struct DoorSensor {
    pub battery: Vec<u8>,
    pub battery_low: bool,
    pub contact: bool,
    pub linkquality: Vec<u8>,
    pub tamper: bool,
    pub voltage: Vec<u8>,
}

/// The fields a well-formed door sensor payload decodes to, in declaration
/// order: contact, battery_low, tamper, then the raw battery, linkquality and
/// voltage number texts.
pub open spec fn spec_door_fields(s: Seq<u8>) -> Option<
    (bool, bool, bool, Seq<u8>, Seq<u8>, Seq<u8>),
> {
    match spec_parse_object(s) {
        None => None,
        Some(ms) => {
            let contact = spec_bool_field(s, ms, "contact".spec_bytes());
            let battery_low = spec_bool_field(s, ms, "battery_low".spec_bytes());
            let tamper = spec_bool_field(s, ms, "tamper".spec_bytes());
            let battery = spec_number_field(s, ms, "battery".spec_bytes());
            let linkquality = spec_number_field(s, ms, "linkquality".spec_bytes());
            let voltage = spec_number_field(s, ms, "voltage".spec_bytes());
            if contact is Some && battery_low is Some && tamper is Some && battery is Some
                && linkquality is Some && voltage is Some {
                Some(
                    (
                        contact.unwrap(),
                        battery_low.unwrap(),
                        tamper.unwrap(),
                        battery.unwrap(),
                        linkquality.unwrap(),
                        voltage.unwrap(),
                    ),
                )
            } else {
                None
            }
        },
    }
}

impl DoorSensor {
    /// Decodes a door sensor payload; nothing on any schema violation.
    pub fn parse(payload: &[u8]) -> (r: Option<DoorSensor>)
        ensures
            r is Some <==> spec_door_fields(payload@) is Some,
            r matches Some(d) ==> spec_door_fields(payload@) == Some(
                (d.contact, d.battery_low, d.tamper, d.battery@, d.linkquality@, d.voltage@),
            ),
    {
        let v = match parse_object(payload) {
            Some(v) => v,
            None => {
                return None;
            },
        };
        let contact = get_bool_field(payload, &v, "contact".as_bytes());
        let battery_low = get_bool_field(payload, &v, "battery_low".as_bytes());
        let tamper = get_bool_field(payload, &v, "tamper".as_bytes());
        let battery = get_number_field(payload, &v, "battery".as_bytes());
        let linkquality = get_number_field(payload, &v, "linkquality".as_bytes());
        let voltage = get_number_field(payload, &v, "voltage".as_bytes());
        match (contact, battery_low, tamper, battery, linkquality, voltage) {
            (Some(c), Some(bl), Some(t), Some(b), Some(l), Some(vo)) => Some(
                DoorSensor {
                    battery: b,
                    battery_low: bl,
                    contact: c,
                    linkquality: l,
                    tamper: t,
                    voltage: vo,
                },
            ),
            _ => None,
        }
    }
}

/// A motion sensor's report.
#[derive(Debug, Clone, PartialEq, Eq)]
pub struct MotionSensorData {
    pub battery: Vec<u8>,
    pub battery_low: bool,
    pub linkquality: Vec<u8>,
    pub occupancy: bool,
    pub tamper: bool,
    pub voltage: Vec<u8>,
}

/// The fields a well-formed motion sensor payload decodes to: occupancy,
/// battery_low, tamper, then the raw battery, linkquality and voltage number
/// texts.
pub open spec fn spec_motion_fields(s: Seq<u8>) -> Option<
    (bool, bool, bool, Seq<u8>, Seq<u8>, Seq<u8>),
> {
    match spec_parse_object(s) {
        None => None,
        Some(ms) => {
            let occupancy = spec_bool_field(s, ms, "occupancy".spec_bytes());
            let battery_low = spec_bool_field(s, ms, "battery_low".spec_bytes());
            let tamper = spec_bool_field(s, ms, "tamper".spec_bytes());
            let battery = spec_number_field(s, ms, "battery".spec_bytes());
            let linkquality = spec_number_field(s, ms, "linkquality".spec_bytes());
            let voltage = spec_number_field(s, ms, "voltage".spec_bytes());
            if occupancy is Some && battery_low is Some && tamper is Some && battery is Some
                && linkquality is Some && voltage is Some {
                Some(
                    (
                        occupancy.unwrap(),
                        battery_low.unwrap(),
                        tamper.unwrap(),
                        battery.unwrap(),
                        linkquality.unwrap(),
                        voltage.unwrap(),
                    ),
                )
            } else {
                None
            }
        },
    }
}

impl MotionSensorData {
    /// Decodes a motion sensor payload; nothing on any schema violation.
    pub fn parse(payload: &[u8]) -> (r: Option<MotionSensorData>)
        ensures
            r is Some <==> spec_motion_fields(payload@) is Some,
            r matches Some(d) ==> spec_motion_fields(payload@) == Some(
                (d.occupancy, d.battery_low, d.tamper, d.battery@, d.linkquality@, d.voltage@),
            ),
    {
        let v = match parse_object(payload) {
            Some(v) => v,
            None => {
                return None;
            },
        };
        let occupancy = get_bool_field(payload, &v, "occupancy".as_bytes());
        let battery_low = get_bool_field(payload, &v, "battery_low".as_bytes());
        let tamper = get_bool_field(payload, &v, "tamper".as_bytes());
        let battery = get_number_field(payload, &v, "battery".as_bytes());
        let linkquality = get_number_field(payload, &v, "linkquality".as_bytes());
        let voltage = get_number_field(payload, &v, "voltage".as_bytes());
        match (occupancy, battery_low, tamper, battery, linkquality, voltage) {
            (Some(o), Some(bl), Some(t), Some(b), Some(l), Some(vo)) => Some(
                MotionSensorData {
                    battery: b,
                    battery_low: bl,
                    linkquality: l,
                    occupancy: o,
                    tamper: t,
                    voltage: vo,
                },
            ),
            _ => None,
        }
    }
}

/// How a wall switch was pressed.
#[derive(Debug, Clone, Copy, PartialEq, Eq, Structural)]
pub enum Action {
    Single,
    Double,
    Long,
}

/// The action a payload's `action` string names.
pub open spec fn spec_action_of(d: Seq<u8>) -> Option<Action> {
    if d == "single".spec_bytes() {
        Some(Action::Single)
    } else if d == "double".spec_bytes() {
        Some(Action::Double)
    } else if d == "long".spec_bytes() {
        Some(Action::Long)
    } else {
        None
    }
}

/// A wall switch's report.
#[derive(Debug, Clone, PartialEq, Eq)]
pub struct SwitchPayload {
    pub action: Action,
    pub battery: Vec<u8>,
    pub linkquality: Vec<u8>,
    pub voltage: Vec<u8>,
}

/// The fields a well-formed switch payload decodes to: the action, then the
/// raw battery, linkquality and voltage number texts.
pub open spec fn spec_switch_fields(s: Seq<u8>) -> Option<(Action, Seq<u8>, Seq<u8>, Seq<u8>)> {
    match spec_parse_object(s) {
        None => None,
        Some(ms) => {
            let action = match spec_string_field(s, ms, "action".spec_bytes()) {
                Some(d) => spec_action_of(d),
                None => None,
            };
            let battery = spec_number_field(s, ms, "battery".spec_bytes());
            let linkquality = spec_number_field(s, ms, "linkquality".spec_bytes());
            let voltage = spec_number_field(s, ms, "voltage".spec_bytes());
            if action is Some && battery is Some && linkquality is Some && voltage is Some {
                Some((action.unwrap(), battery.unwrap(), linkquality.unwrap(), voltage.unwrap()))
            } else {
                None
            }
        },
    }
}

impl SwitchPayload {
    /// Decodes a switch payload; nothing on any schema violation, among them
    /// an `action` string that names no known press.
    pub fn parse(payload: &[u8]) -> (r: Option<SwitchPayload>)
        ensures
            r is Some <==> spec_switch_fields(payload@) is Some,
            r matches Some(d) ==> spec_switch_fields(payload@) == Some(
                (d.action, d.battery@, d.linkquality@, d.voltage@),
            ),
    {
        let v = match parse_object(payload) {
            Some(v) => v,
            None => {
                return None;
            },
        };
        let action = match get_string_field(payload, &v, "action".as_bytes()) {
            Some(d) => {
                if crate::filter::bytes_eq(d.as_slice(), "single".as_bytes()) {
                    Some(Action::Single)
                } else if crate::filter::bytes_eq(d.as_slice(), "double".as_bytes()) {
                    Some(Action::Double)
                } else if crate::filter::bytes_eq(d.as_slice(), "long".as_bytes()) {
                    Some(Action::Long)
                } else {
                    None
                }
            },
            None => None,
        };
        let battery = get_number_field(payload, &v, "battery".as_bytes());
        let linkquality = get_number_field(payload, &v, "linkquality".as_bytes());
        let voltage = get_number_field(payload, &v, "voltage".as_bytes());
        match (action, battery, linkquality, voltage) {
            (Some(a), Some(b), Some(l), Some(vo)) => Some(
                SwitchPayload { action: a, battery: b, linkquality: l, voltage: vo },
            ),
            _ => None,
        }
    }
}

} // verus!
