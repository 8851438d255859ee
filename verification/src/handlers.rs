//! The fixed handler set: each handler turns one `(topic, payload)` envelope
//! into one chat action, or rejects the payload.
//!
//! Handlers are pure decisions here: the chat action they return names the
//! side effect (send text, send a file reference, show typing) and its
//! destination channel; performing the call against the chat platform is the
//! embedding application's business.

use vstd::prelude::*;
use vstd::string::StringSliceAdditionalSpecFns;
use crate::filter::{split_topic, split_segments, slice_to_vec};
use crate::payloads::{
    Action,
    DoorSensor,
    MotionSensorData,
    SwitchPayload,
    spec_door_fields,
    spec_motion_fields,
    spec_switch_fields,
    spec_u64_field,
    spec_string_field,
    get_u64_field,
    get_string_field,
};
use crate::json::{spec_parse_object, parse_object};

verus! {

/// One chat side effect a handler asks for.
#[derive(Debug, Clone, PartialEq, Eq)]
pub enum ChatAction {
    /// Send `text` to the channel.
    SendText { channel_id: u64, text: Vec<u8> },
    /// Send a named file reference to the channel.
    SendFile { channel_id: u64, file_name: Vec<u8>, file_url: Vec<u8> },
    /// Show a typing indicator in the channel.
    ShowTyping { channel_id: u64 },
}

/// The spec-level form of a chat action.
pub enum ChatActionV {
    SendText { channel_id: u64, text: Seq<u8> },
    SendFile { channel_id: u64, file_name: Seq<u8>, file_url: Seq<u8> },
    ShowTyping { channel_id: u64 },
}

impl View for ChatAction {
    type V = ChatActionV;

    open spec fn view(&self) -> ChatActionV {
        match self {
            ChatAction::SendText { channel_id, text } => ChatActionV::SendText {
                channel_id: *channel_id,
                text: text@,
            },
            ChatAction::SendFile { channel_id, file_name, file_url } => ChatActionV::SendFile {
                channel_id: *channel_id,
                file_name: file_name@,
                file_url: file_url@,
            },
            ChatAction::ShowTyping { channel_id } => ChatActionV::ShowTyping {
                channel_id: *channel_id,
            },
        }
    }
}

/// Why a handler declined or failed an envelope.
#[derive(Debug, Clone, Copy, PartialEq, Eq, Structural)]
pub enum HandlerError {
    /// The payload does not decode into the handler's schema.
    MalformedPayload,
    /// The chat-side call failed; raised by the embedding application when it
    /// performs a handler's chat action.
    UpstreamError,
}

/// Notifies about the front door's contact sensor.
#[derive(Debug, Clone, Copy, PartialEq, Eq, Structural)]
pub struct DoorSensorHandler {
    pub discord_channel_id: u64,
}

impl DoorSensorHandler {
    pub fn new(discord_channel_id: u64) -> (h: Self)
        ensures
            h.discord_channel_id == discord_channel_id,
    {
        DoorSensorHandler { discord_channel_id }
    }
}

/// Notifies about a motion sensor.
#[derive(Debug, Clone, Copy, PartialEq, Eq, Structural)]
pub struct MotionSensorHandler {
    pub discord_channel_id: u64,
}

impl MotionSensorHandler {
    pub fn new(discord_channel_id: u64) -> (h: Self)
        ensures
            h.discord_channel_id == discord_channel_id,
    {
        MotionSensorHandler { discord_channel_id }
    }
}

/// Notifies about a wall switch, named after the topic's final segment.
#[derive(Debug, Clone, Copy, PartialEq, Eq, Structural)]
pub struct SwitchHandler {
    pub discord_channel_id: u64,
}

impl SwitchHandler {
    pub fn new(discord_channel_id: u64) -> (h: Self)
        ensures
            h.discord_channel_id == discord_channel_id,
    {
        SwitchHandler { discord_channel_id }
    }
}

/// Relays broker-originated text into the channel the payload names.
#[derive(Debug, Clone, Copy, PartialEq, Eq, Structural)]
pub struct DiscordChannelMessageHandler {}

impl DiscordChannelMessageHandler {
    pub fn new() -> (h: Self) {
        DiscordChannelMessageHandler {  }
    }
}

/// Relays a broker-originated file reference into the channel the payload
/// names.
#[derive(Debug, Clone, Copy, PartialEq, Eq, Structural)]
pub struct DiscordChannelFileMessageHandler {}

impl DiscordChannelFileMessageHandler {
    pub fn new() -> (h: Self) {
        DiscordChannelFileMessageHandler {  }
    }
}

/// Shows a typing indicator in the channel the payload names.
#[derive(Debug, Clone, Copy, PartialEq, Eq, Structural)]
pub struct DiscordChannelShowTypingHandler {}

impl DiscordChannelShowTypingHandler {
    pub fn new() -> (h: Self) {
        DiscordChannelShowTypingHandler {  }
    }
}

/// The closed handler set, as a tagged union.
#[derive(Debug, Clone, Copy, PartialEq, Eq, Structural)]
pub enum Handler {
    DoorSensor(DoorSensorHandler),
    MotionSensor(MotionSensorHandler),
    Switch(SwitchHandler),
    ChannelMessage(DiscordChannelMessageHandler),
    ChannelFileMessage(DiscordChannelFileMessageHandler),
    ChannelShowTyping(DiscordChannelShowTypingHandler),
}

/// The door sensor's message for a contact state.
pub open spec fn spec_door_text(contact: bool) -> Seq<u8> {
    if contact {
        "Front door was closed".spec_bytes()
    } else {
        "Front door was opened".spec_bytes()
    }
}

/// The motion sensor's message for an occupancy state.
pub open spec fn spec_motion_text(occupancy: bool) -> Seq<u8> {
    if occupancy {
        "Motion sensor detected motion".spec_bytes()
    } else {
        "Motion sensors not detecting any motion".spec_bytes()
    }
}

/// The switch's message for a press of the switch the topic names.
pub open spec fn spec_switch_text(action: Action, name: Seq<u8>) -> Seq<u8> {
    match action {
        Action::Single => "switch ".spec_bytes() + name + " was clicked once".spec_bytes(),
        Action::Double => "switch ".spec_bytes() + name + " was double clicked".spec_bytes(),
        Action::Long => "switch ".spec_bytes() + name + " was long pressed".spec_bytes(),
    }
}

/// What one handler decides for one envelope.
pub open spec fn spec_handler_call(h: Handler, topic: Seq<u8>, payload: Seq<u8>) -> Result<
    ChatActionV,
    HandlerError,
> {
    match h {
        Handler::DoorSensor(d) => match spec_door_fields(payload) {
            None => Err(HandlerError::MalformedPayload),
            Some(f) => Ok(
                ChatActionV::SendText {
                    channel_id: d.discord_channel_id,
                    text: spec_door_text(f.0),
                },
            ),
        },
        Handler::MotionSensor(m) => match spec_motion_fields(payload) {
            None => Err(HandlerError::MalformedPayload),
            Some(f) => Ok(
                ChatActionV::SendText {
                    channel_id: m.discord_channel_id,
                    text: spec_motion_text(f.0),
                },
            ),
        },
        Handler::Switch(sw) => match spec_switch_fields(payload) {
            None => Err(HandlerError::MalformedPayload),
            Some(f) => Ok(
                ChatActionV::SendText {
                    channel_id: sw.discord_channel_id,
                    text: spec_switch_text(f.0, split_segments(topic).last()),
                },
            ),
        },
        Handler::ChannelMessage(_) => match spec_say_fields(payload) {
            None => Err(HandlerError::MalformedPayload),
            Some((ch, content)) => Ok(ChatActionV::SendText { channel_id: ch, text: content }),
        },
        Handler::ChannelFileMessage(_) => match spec_file_fields(payload) {
            None => Err(HandlerError::MalformedPayload),
            Some((ch, name, url)) => Ok(
                ChatActionV::SendFile { channel_id: ch, file_name: name, file_url: url },
            ),
        },
        Handler::ChannelShowTyping(_) => match spec_typing_fields(payload) {
            None => Err(HandlerError::MalformedPayload),
            Some(ch) => Ok(ChatActionV::ShowTyping { channel_id: ch }),
        },
    }
}

/// The fields of a text relay payload: the channel and the message content.
pub open spec fn spec_say_fields(s: Seq<u8>) -> Option<(u64, Seq<u8>)> {
    match spec_parse_object(s) {
        None => None,
        Some(ms) => {
            let ch = spec_u64_field(s, ms, "channel_id".spec_bytes());
            let content = spec_string_field(s, ms, "content".spec_bytes());
            if ch is Some && content is Some {
                Some((ch.unwrap(), content.unwrap()))
            } else {
                None
            }
        },
    }
}

/// The fields of a file relay payload: the channel, the file's name and its
/// location.
pub open spec fn spec_file_fields(s: Seq<u8>) -> Option<(u64, Seq<u8>, Seq<u8>)> {
    match spec_parse_object(s) {
        None => None,
        Some(ms) => {
            let ch = spec_u64_field(s, ms, "channel_id".spec_bytes());
            let name = spec_string_field(s, ms, "file_name".spec_bytes());
            let url = spec_string_field(s, ms, "file_url".spec_bytes());
            if ch is Some && name is Some && url is Some {
                Some((ch.unwrap(), name.unwrap(), url.unwrap()))
            } else {
                None
            }
        },
    }
}

/// The field of a typing relay payload: the channel.
pub open spec fn spec_typing_fields(s: Seq<u8>) -> Option<u64> {
    match spec_parse_object(s) {
        None => None,
        Some(ms) => spec_u64_field(s, ms, "channel_id".spec_bytes()),
    }
}

/// An executable result agrees with a spec-level one, field for field.
pub open spec fn action_result_matches(
    r: Result<ChatAction, HandlerError>,
    s: Result<ChatActionV, HandlerError>,
) -> bool {
    match (r, s) {
        (Ok(a), Ok(av)) => a@ == av,
        (Err(e), Err(ev)) => e == ev,
        _ => false,
    }
}

fn door_call(d: &DoorSensorHandler, payload: &[u8]) -> (r: Result<ChatAction, HandlerError>)
    ensures
        action_result_matches(
            r,
            spec_handler_call(Handler::DoorSensor(*d), Seq::<u8>::empty(), payload@),
        ),
{
    match DoorSensor::parse(payload) {
        None => Err(HandlerError::MalformedPayload),
        Some(ds) => {
            let text: &str = if ds.contact {
                "Front door was closed"
            } else {
                "Front door was opened"
            };
            Ok(
                ChatAction::SendText {
                    channel_id: d.discord_channel_id,
                    text: slice_to_vec(text.as_bytes()),
                },
            )
        },
    }
}

fn motion_call(m: &MotionSensorHandler, payload: &[u8]) -> (r: Result<ChatAction, HandlerError>)
    ensures
        action_result_matches(
            r,
            spec_handler_call(Handler::MotionSensor(*m), Seq::<u8>::empty(), payload@),
        ),
{
    match MotionSensorData::parse(payload) {
        None => Err(HandlerError::MalformedPayload),
        Some(md) => {
            let text: &str = if md.occupancy {
                "Motion sensor detected motion"
            } else {
                "Motion sensors not detecting any motion"
            };
            Ok(
                ChatAction::SendText {
                    channel_id: m.discord_channel_id,
                    text: slice_to_vec(text.as_bytes()),
                },
            )
        },
    }
}

fn switch_call(sw: &SwitchHandler, topic: &[u8], payload: &[u8]) -> (r: Result<
    ChatAction,
    HandlerError,
>)
    ensures
        action_result_matches(r, spec_handler_call(Handler::Switch(*sw), topic@, payload@)),
{
    match SwitchPayload::parse(payload) {
        None => Err(HandlerError::MalformedPayload),
        Some(sp) => {
            let segs = split_topic(topic);
            proof {
                crate::filter::lemma_split_segments_nonempty(topic@);
                assert(crate::filter::views(segs@).len() == segs@.len());
            }
            let name = &segs[segs.len() - 1];
            proof {
                assert(crate::filter::views(segs@).last() == segs@[segs@.len() - 1]@);
            }
            let mut text: Vec<u8> = Vec::new();
            text.extend_from_slice("switch ".as_bytes());
            text.extend_from_slice(name.as_slice());
            match sp.action {
                Action::Single => text.extend_from_slice(" was clicked once".as_bytes()),
                Action::Double => text.extend_from_slice(" was double clicked".as_bytes()),
                Action::Long => text.extend_from_slice(" was long pressed".as_bytes()),
            }
            proof {
                assert(text@ =~= spec_switch_text(sp.action, split_segments(topic@).last()));
            }
            Ok(ChatAction::SendText { channel_id: sw.discord_channel_id, text })
        },
    }
}

fn say_call(payload: &[u8]) -> (r: Result<ChatAction, HandlerError>)
    ensures
        action_result_matches(
            r,
            spec_handler_call(
                Handler::ChannelMessage(DiscordChannelMessageHandler {  }),
                Seq::<u8>::empty(),
                payload@,
            ),
        ),
{
    let v = match parse_object(payload) {
        Some(v) => v,
        None => {
            return Err(HandlerError::MalformedPayload);
        },
    };
    let ch = get_u64_field(payload, &v, "channel_id".as_bytes());
    let content = get_string_field(payload, &v, "content".as_bytes());
    match (ch, content) {
        (Some(c), Some(t)) => Ok(ChatAction::SendText { channel_id: c, text: t }),
        _ => Err(HandlerError::MalformedPayload),
    }
}

fn file_call(payload: &[u8]) -> (r: Result<ChatAction, HandlerError>)
    ensures
        action_result_matches(
            r,
            spec_handler_call(
                Handler::ChannelFileMessage(DiscordChannelFileMessageHandler {  }),
                Seq::<u8>::empty(),
                payload@,
            ),
        ),
{
    let v = match parse_object(payload) {
        Some(v) => v,
        None => {
            return Err(HandlerError::MalformedPayload);
        },
    };
    let ch = get_u64_field(payload, &v, "channel_id".as_bytes());
    let name = get_string_field(payload, &v, "file_name".as_bytes());
    let url = get_string_field(payload, &v, "file_url".as_bytes());
    match (ch, name, url) {
        (Some(c), Some(n), Some(u)) => Ok(
            ChatAction::SendFile { channel_id: c, file_name: n, file_url: u },
        ),
        _ => Err(HandlerError::MalformedPayload),
    }
}

fn typing_call(payload: &[u8]) -> (r: Result<ChatAction, HandlerError>)
    ensures
        action_result_matches(
            r,
            spec_handler_call(
                Handler::ChannelShowTyping(DiscordChannelShowTypingHandler {  }),
                Seq::<u8>::empty(),
                payload@,
            ),
        ),
{
    let v = match parse_object(payload) {
        Some(v) => v,
        None => {
            return Err(HandlerError::MalformedPayload);
        },
    };
    match get_u64_field(payload, &v, "channel_id".as_bytes()) {
        Some(c) => Ok(ChatAction::ShowTyping { channel_id: c }),
        None => Err(HandlerError::MalformedPayload),
    }
}

impl Handler {
    /// Decides the chat action for one envelope; `MalformedPayload` exactly
    /// when the payload misses the handler's schema.
    pub fn call(&self, topic: &[u8], payload: &[u8]) -> (r: Result<ChatAction, HandlerError>)
        ensures
            action_result_matches(r, spec_handler_call(*self, topic@, payload@)),
    {
        match self {
            Handler::DoorSensor(d) => door_call(d, payload),
            Handler::MotionSensor(m) => motion_call(m, payload),
            Handler::Switch(sw) => switch_call(sw, topic, payload),
            Handler::ChannelMessage(_) => say_call(payload),
            Handler::ChannelFileMessage(_) => file_call(payload),
            Handler::ChannelShowTyping(_) => typing_call(payload),
        }
    }
}


} // verus!
