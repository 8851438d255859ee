use whole_sum_boi_discord::config::default_mqtt_port;
use whole_sum_boi_discord::handlers::{ChatAction, Handler, HandlerError};
use whole_sum_boi_discord::handlers::{
    DiscordChannelFileMessageHandler, DiscordChannelMessageHandler, DiscordChannelShowTypingHandler,
    DoorSensorHandler, MotionSensorHandler, SwitchHandler,
};
use whole_sum_boi_discord::payloads::{Action, DoorSensor, MotionSensorData, SwitchPayload};
use whole_sum_boi_discord::router::DispatchOutcome;
use whole_sum_boi_discord::supervisor::{
    build_router, outcome_severity, supervise_step, InboundEvent, LogSeverity, StepAction,
};

const DOOR_PAYLOAD: &[u8] =
    b"{\"battery\":90,\"battery_low\":false,\"contact\":true,\"linkquality\":80,\"tamper\":false,\"voltage\":3000}";

#[test]
fn door_sensor_scenario_closed() {
    let r = build_router(b"wholesumboi", 42).unwrap();
    let out = r.dispatch(b"zigbee2mqtt/main_door", DOOR_PAYLOAD);
    assert_eq!(
        out,
        DispatchOutcome::Matched(Ok(ChatAction::SendText {
            channel_id: 42,
            text: b"Front door was closed".to_vec(),
        }))
    );
}

#[test]
fn door_sensor_open_text() {
    let h = Handler::DoorSensor(DoorSensorHandler::new(9));
    let payload =
        b"{\"battery\":90,\"battery_low\":false,\"contact\":false,\"linkquality\":80,\"tamper\":false,\"voltage\":3000}";
    let action = h.call(b"zigbee2mqtt/main_door", payload).unwrap();
    assert_eq!(
        action,
        ChatAction::SendText { channel_id: 9, text: b"Front door was opened".to_vec() }
    );
}

#[test]
fn switch_scenario_double_click() {
    let r = build_router(b"wholesumboi", 42).unwrap();
    let payload = b"{\"action\":\"double\",\"battery\":80,\"linkquality\":70,\"voltage\":3000}";
    let out = r.dispatch(b"zigbee2mqtt/switch/kitchen", payload);
    assert_eq!(
        out,
        DispatchOutcome::Matched(Ok(ChatAction::SendText {
            channel_id: 42,
            text: b"switch kitchen was double clicked".to_vec(),
        }))
    );
}

#[test]
fn switch_single_and_long_texts() {
    let h = Handler::Switch(SwitchHandler::new(1));
    let single = b"{\"action\":\"single\",\"battery\":80,\"linkquality\":70,\"voltage\":3000}";
    let long = b"{\"action\":\"long\",\"battery\":80,\"linkquality\":70,\"voltage\":3000}";
    match h.call(b"zigbee2mqtt/switch/hall", single).unwrap() {
        ChatAction::SendText { text, .. } => {
            assert_eq!(text, b"switch hall was clicked once".to_vec())
        },
        other => panic!("unexpected action: {:?}", other),
    }
    match h.call(b"zigbee2mqtt/switch/hall", long).unwrap() {
        ChatAction::SendText { text, .. } => {
            assert_eq!(text, b"switch hall was long pressed".to_vec())
        },
        other => panic!("unexpected action: {:?}", other),
    }
}

#[test]
fn motion_sensor_texts() {
    let h = Handler::MotionSensor(MotionSensorHandler::new(2));
    let on =
        b"{\"battery\":90,\"battery_low\":false,\"linkquality\":80,\"occupancy\":true,\"tamper\":false,\"voltage\":3000}";
    let off =
        b"{\"battery\":90,\"battery_low\":false,\"linkquality\":80,\"occupancy\":false,\"tamper\":false,\"voltage\":3000}";
    match h.call(b"zigbee2mqtt/motion/hall", on).unwrap() {
        ChatAction::SendText { text, .. } => {
            assert_eq!(text, b"Motion sensor detected motion".to_vec())
        },
        other => panic!("unexpected action: {:?}", other),
    }
    match h.call(b"zigbee2mqtt/motion/hall", off).unwrap() {
        ChatAction::SendText { text, .. } => {
            assert_eq!(text, b"Motion sensors not detecting any motion".to_vec())
        },
        other => panic!("unexpected action: {:?}", other),
    }
}

#[test]
fn reconnect_resubscribes_registered_filters_in_order() {
    let mut r = whole_sum_boi_discord::router::Router::new();
    r.add_route(b"zigbee2mqtt/main_door", Handler::DoorSensor(DoorSensorHandler::new(1)))
        .unwrap();
    r.add_route(b"zigbee2mqtt/switch/#", Handler::Switch(SwitchHandler::new(1))).unwrap();
    r.add_route(b"zigbee2mqtt/motion/#", Handler::MotionSensor(MotionSensorHandler::new(1)))
        .unwrap();
    let expected = vec![
        b"zigbee2mqtt/main_door".to_vec(),
        b"zigbee2mqtt/switch/#".to_vec(),
        b"zigbee2mqtt/motion/#".to_vec(),
    ];
    // Repeated reconnect events each yield the identical subscription list.
    for _ in 0..3 {
        match supervise_step(&r, &InboundEvent::Reconnect) {
            StepAction::Resubscribe(topics) => assert_eq!(topics, expected),
            other => panic!("unexpected step: {:?}", other),
        }
    }
}

#[test]
fn malformed_then_valid_payload_scenario() {
    let r = build_router(b"wholesumboi", 42).unwrap();
    let bad = r.dispatch(b"zigbee2mqtt/main_door", b"not json at all");
    assert_eq!(bad, DispatchOutcome::Matched(Err(HandlerError::MalformedPayload)));
    assert_eq!(outcome_severity(&bad), LogSeverity::Error);
    let good = r.dispatch(b"zigbee2mqtt/main_door", DOOR_PAYLOAD);
    assert_eq!(
        good,
        DispatchOutcome::Matched(Ok(ChatAction::SendText {
            channel_id: 42,
            text: b"Front door was closed".to_vec(),
        }))
    );
    assert_eq!(outcome_severity(&good), LogSeverity::Silent);
    assert_eq!(outcome_severity(&DispatchOutcome::NoMatch), LogSeverity::Warning);
}

#[test]
fn supervise_step_dispatches_publish_events() {
    let r = build_router(b"wholesumboi", 42).unwrap();
    let ev = InboundEvent::Publish {
        topic: b"zigbee2mqtt/main_door".to_vec(),
        payload: DOOR_PAYLOAD.to_vec(),
    };
    match supervise_step(&r, &ev) {
        StepAction::Dispatched(DispatchOutcome::Matched(Ok(ChatAction::SendText {
            text, ..
        }))) => assert_eq!(text, b"Front door was closed".to_vec()),
        other => panic!("unexpected step: {:?}", other),
    }
}

#[test]
fn build_router_registers_six_topics() {
    let r = build_router(b"wholesumboi", 42).unwrap();
    let topics = r.topics_for_subscription();
    assert_eq!(
        topics,
        vec![
            b"zigbee2mqtt/main_door".to_vec(),
            b"zigbee2mqtt/switch/#".to_vec(),
            b"zigbee2mqtt/motion/#".to_vec(),
            b"wholesumboi/say_channel".to_vec(),
            b"wholesumboi/send_file_channel".to_vec(),
            b"wholesumboi/show_typing_channel".to_vec(),
        ]
    );
}

#[test]
fn build_router_rejects_wildcard_in_base_topic() {
    assert!(build_router(b"bad#base", 42).is_err());
}

#[test]
fn chat_relays_use_payload_channel() {
    let say = Handler::ChannelMessage(DiscordChannelMessageHandler::new());
    let action = say
        .call(b"wholesumboi/say_channel", b"{\"channel_id\":5,\"content\":\"hello there\"}")
        .unwrap();
    assert_eq!(
        action,
        ChatAction::SendText { channel_id: 5, text: b"hello there".to_vec() }
    );

    let file = Handler::ChannelFileMessage(DiscordChannelFileMessageHandler::new());
    let action = file
        .call(
            b"wholesumboi/send_file_channel",
            b"{\"channel_id\":6,\"file_name\":\"cat.png\",\"file_url\":\"https://x/cat.png\"}",
        )
        .unwrap();
    assert_eq!(
        action,
        ChatAction::SendFile {
            channel_id: 6,
            file_name: b"cat.png".to_vec(),
            file_url: b"https://x/cat.png".to_vec(),
        }
    );

    let typing = Handler::ChannelShowTyping(DiscordChannelShowTypingHandler::new());
    let action = typing.call(b"wholesumboi/show_typing_channel", b"{\"channel_id\":7}").unwrap();
    assert_eq!(action, ChatAction::ShowTyping { channel_id: 7 });

    // A relay payload missing a required member is malformed.
    assert_eq!(
        say.call(b"wholesumboi/say_channel", b"{\"content\":\"hi\"}"),
        Err(HandlerError::MalformedPayload)
    );
}

#[test]
fn typed_payload_records_keep_number_texts() {
    let d = DoorSensor::parse(DOOR_PAYLOAD).unwrap();
    assert!(d.contact);
    assert!(!d.battery_low);
    assert!(!d.tamper);
    assert_eq!(d.battery, b"90".to_vec());
    assert_eq!(d.linkquality, b"80".to_vec());
    assert_eq!(d.voltage, b"3000".to_vec());

    let m = MotionSensorData::parse(
        b"{\"battery\":90,\"battery_low\":false,\"linkquality\":80,\"occupancy\":true,\"tamper\":false,\"voltage\":3000}",
    )
    .unwrap();
    assert!(m.occupancy);

    let s =
        SwitchPayload::parse(b"{\"action\":\"double\",\"battery\":80,\"linkquality\":70,\"voltage\":3000}")
            .unwrap();
    assert_eq!(s.action, Action::Double);
    assert!(SwitchPayload::parse(
        b"{\"action\":\"held\",\"battery\":80,\"linkquality\":70,\"voltage\":3000}"
    )
    .is_none());
}

#[test]
fn default_port_matches_broker_convention() {
    assert_eq!(default_mqtt_port(), 1883);
}
