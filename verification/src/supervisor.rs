//! The connection supervisor's decisions.
//!
//! The embedding application polls the broker connection and classifies each
//! low-level notification into an inbound event — a published envelope or a
//! completed reconnection; unrecognized notifications are discarded before
//! they reach this module.  The supervisor is two-state in spirit, `Connected`
//! and transiently `Reconnecting`: every event leaves it connected again, a
//! reconnection only after the full subscription list has been re-issued,
//! since a fresh broker connection remembers no prior subscriptions.  A
//! handler failure or an unmatched topic never halts the loop: each envelope's
//! outcome is returned for logging and the loop goes on unconditionally.

use vstd::prelude::*;
use vstd::string::StringSliceAdditionalSpecFns;
use crate::router::{
    Router,
    DispatchOutcome,
    DispatchOutcomeV,
    spec_dispatch,
    spec_subscription_topics,
};
use crate::filter::{views, FilterError};
use crate::handlers::{
    Handler,
    DoorSensorHandler,
    MotionSensorHandler,
    SwitchHandler,
    DiscordChannelMessageHandler,
    DiscordChannelFileMessageHandler,
    DiscordChannelShowTypingHandler,
};

verus! {

/// One classified broker notification.
#[derive(Debug, Clone, PartialEq, Eq)]
pub enum InboundEvent {
    /// An envelope published on a topic.
    Publish { topic: Vec<u8>, payload: Vec<u8> },
    /// The connection was re-established and carries no subscriptions.
    Reconnect,
}

/// The spec-level form of an inbound event.
pub enum InboundEventV {
    Publish { topic: Seq<u8>, payload: Seq<u8> },
    Reconnect,
}

impl View for InboundEvent {
    type V = InboundEventV;

    open spec fn view(&self) -> InboundEventV {
        match self {
            InboundEvent::Publish { topic, payload } => InboundEventV::Publish {
                topic: topic@,
                payload: payload@,
            },
            InboundEvent::Reconnect => InboundEventV::Reconnect,
        }
    }
}

/// What the supervisor asks the connection loop to do for one event.
#[derive(Debug, PartialEq, Eq)]
pub enum StepAction {
    /// The envelope was dispatched; log the outcome and perform its chat
    /// action, if any.
    Dispatched(DispatchOutcome),
    /// Re-issue exactly these subscription filters, in order.
    Resubscribe(Vec<Vec<u8>>),
}

/// The spec-level form of a step action.
pub enum StepActionV {
    Dispatched(DispatchOutcomeV),
    Resubscribe(Seq<Seq<u8>>),
}

impl View for StepAction {
    type V = StepActionV;

    open spec fn view(&self) -> StepActionV {
        match self {
            StepAction::Dispatched(o) => StepActionV::Dispatched(o@),
            StepAction::Resubscribe(ts) => StepActionV::Resubscribe(views(ts@)),
        }
    }
}

/// The supervisor's decision for one event over a frozen route table.
pub open spec fn spec_supervise(routes: Seq<crate::router::Route>, ev: InboundEventV)
    -> StepActionV {
    match ev {
        InboundEventV::Publish { topic, payload } => StepActionV::Dispatched(
            spec_dispatch(routes, topic, payload),
        ),
        InboundEventV::Reconnect => StepActionV::Resubscribe(spec_subscription_topics(routes)),
    }
}

/// Handles one classified event: a published envelope is dispatched through
/// the route table, a reconnection asks for the full, unchanged subscription
/// list.
pub fn supervise_step(router: &Router, ev: &InboundEvent) -> (r: StepAction)
    ensures
        r@ == spec_supervise(router.routes@, ev@),
{
    match ev {
        InboundEvent::Publish { topic, payload } => StepAction::Dispatched(
            router.dispatch(topic.as_slice(), payload.as_slice()),
        ),
        InboundEvent::Reconnect => StepAction::Resubscribe(router.topics_for_subscription()),
    }
}

/// How loudly a dispatch outcome should be logged: an unmatched topic is a
/// warning, a failed handler an error, a delivered action nothing at all.
#[derive(Debug, Clone, Copy, PartialEq, Eq, Structural)]
pub enum LogSeverity {
    Silent,
    Warning,
    Error,
}

/// The log severity the supervisor gives each outcome.
pub open spec fn spec_outcome_severity(o: DispatchOutcomeV) -> LogSeverity {
    match o {
        DispatchOutcomeV::NoMatch => LogSeverity::Warning,
        DispatchOutcomeV::Matched(res) => match res {
            Ok(_) => LogSeverity::Silent,
            Err(_) => LogSeverity::Error,
        },
    }
}

/// Classifies a dispatch outcome for logging.
pub fn outcome_severity(o: &DispatchOutcome) -> (r: LogSeverity)
    ensures
        r == spec_outcome_severity(o@),
{
    match o {
        DispatchOutcome::NoMatch => LogSeverity::Warning,
        DispatchOutcome::Matched(res) => match res {
            Ok(_) => LogSeverity::Silent,
            Err(_) => LogSeverity::Error,
        },
    }
}

/// Resubscription is idempotent: over an unchanged route table, every
/// reconnect event asks for the one same subscription list — the literal
/// filter strings in registration order — however many times the connection
/// drops.
pub proof fn lemma_resubscription_idempotent(routes: Seq<crate::router::Route>)
    ensures
        spec_supervise(routes, InboundEventV::Reconnect) == StepActionV::Resubscribe(
            spec_subscription_topics(routes),
        ),
        forall|e1: InboundEventV, e2: InboundEventV|
            e1 is Reconnect && e2 is Reconnect ==> #[trigger] spec_supervise(routes, e1)
                == #[trigger] spec_supervise(routes, e2),
{
    assert forall|e1: InboundEventV, e2: InboundEventV|
        e1 is Reconnect && e2 is Reconnect implies #[trigger] spec_supervise(routes, e1)
        == #[trigger] spec_supervise(routes, e2) by {
        assert(e1 == InboundEventV::Reconnect);
        assert(e2 == InboundEventV::Reconnect);
    }
}

/// The six filter patterns the bridge subscribes, in registration order: the
/// fixed device namespace, then the chat-bound relay topics under the base
/// topic.
pub open spec fn spec_default_patterns(base: Seq<u8>) -> Seq<Seq<u8>> {
    seq![
        "zigbee2mqtt/main_door".spec_bytes(),
        "zigbee2mqtt/switch/#".spec_bytes(),
        "zigbee2mqtt/motion/#".spec_bytes(),
        base + "/say_channel".spec_bytes(),
        base + "/send_file_channel".spec_bytes(),
        base + "/show_typing_channel".spec_bytes(),
    ]
}

/// The handlers bound to the default patterns, in the same order.
pub open spec fn spec_default_handlers(spam_channel_id: u64) -> Seq<Handler> {
    seq![
        Handler::DoorSensor(DoorSensorHandler { discord_channel_id: spam_channel_id }),
        Handler::Switch(SwitchHandler { discord_channel_id: spam_channel_id }),
        Handler::MotionSensor(MotionSensorHandler { discord_channel_id: spam_channel_id }),
        Handler::ChannelMessage(DiscordChannelMessageHandler {  }),
        Handler::ChannelFileMessage(DiscordChannelFileMessageHandler {  }),
        Handler::ChannelShowTyping(DiscordChannelShowTypingHandler {  }),
    ]
}

/// Joins a base topic and a suffix.
fn derived_topic(base: &[u8], suffix: &str) -> (r: Vec<u8>)
    ensures
        r@ == base@ + suffix.spec_bytes(),
{
    let mut r = crate::filter::slice_to_vec(base);
    r.extend_from_slice(suffix.as_bytes());
    r
}

/// Builds the startup route table: the three device-sensor routes into the
/// spam channel, then the three chat relays under the base topic.  Fails with
/// `InvalidFilter` exactly when one of the derived patterns is malformed —
/// which only a wildcard byte inside the base topic can cause.
pub fn build_router(base_topic: &[u8], spam_channel_id: u64) -> (r: Result<Router, FilterError>)
    ensures
        r is Ok <==> (forall|k: int|
            0 <= k < 6 ==> crate::filter::valid_pattern(
                #[trigger] spec_default_patterns(base_topic@)[k],
            )),
        r matches Ok(router) ==> {
            &&& router.wf()
            &&& spec_subscription_topics(router.routes@) == spec_default_patterns(base_topic@)
            &&& Seq::new(router.routes@.len(), |k: int| router.routes@[k].handler)
                == spec_default_handlers(spam_channel_id)
        },
{
    let mut router = Router::new();
    let ghost pats = spec_default_patterns(base_topic@);
    let ghost hs = spec_default_handlers(spam_channel_id);
    let r0 = router.add_route(
        "zigbee2mqtt/main_door".as_bytes(),
        Handler::DoorSensor(DoorSensorHandler::new(spam_channel_id)),
    );
    if let Err(e) = r0 {
        return Err(e);
    }
    let r1 = router.add_route(
        "zigbee2mqtt/switch/#".as_bytes(),
        Handler::Switch(SwitchHandler::new(spam_channel_id)),
    );
    if let Err(e) = r1 {
        return Err(e);
    }
    let r2 = router.add_route(
        "zigbee2mqtt/motion/#".as_bytes(),
        Handler::MotionSensor(MotionSensorHandler::new(spam_channel_id)),
    );
    if let Err(e) = r2 {
        return Err(e);
    }
    let t3 = derived_topic(base_topic, "/say_channel");
    let r3 = router.add_route(
        t3.as_slice(),
        Handler::ChannelMessage(DiscordChannelMessageHandler::new()),
    );
    if let Err(e) = r3 {
        return Err(e);
    }
    let t4 = derived_topic(base_topic, "/send_file_channel");
    let r4 = router.add_route(
        t4.as_slice(),
        Handler::ChannelFileMessage(DiscordChannelFileMessageHandler::new()),
    );
    if let Err(e) = r4 {
        return Err(e);
    }
    let t5 = derived_topic(base_topic, "/show_typing_channel");
    let r5 = router.add_route(
        t5.as_slice(),
        Handler::ChannelShowTyping(DiscordChannelShowTypingHandler::new()),
    );
    if let Err(e) = r5 {
        return Err(e);
    }
    proof {
        assert(spec_subscription_topics(router.routes@) =~= pats);
        assert(Seq::new(router.routes@.len(), |k: int| router.routes@[k].handler) =~= hs);
        assert forall|k: int| 0 <= k < 6 implies crate::filter::valid_pattern(#[trigger] pats[k]) by {
            assert(router.routes@[k].filter.wf());
            assert(router.routes@[k].filter.pattern@ == pats[k]);
        }
    }
    Ok(router)
}

} // verus!
