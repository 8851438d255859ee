use whole_sum_boi_discord::filter::{FilterError, FilterSegment, TopicFilter};
use whole_sum_boi_discord::handlers::{ChatAction, Handler, HandlerError, MotionSensorHandler};
use whole_sum_boi_discord::handlers::DoorSensorHandler;
use whole_sum_boi_discord::router::{DispatchOutcome, Router};

fn door(ch: u64) -> Handler {
    Handler::DoorSensor(DoorSensorHandler::new(ch))
}

fn motion(ch: u64) -> Handler {
    Handler::MotionSensor(MotionSensorHandler::new(ch))
}

const DOOR_PAYLOAD: &[u8] =
    b"{\"battery\":90,\"battery_low\":false,\"contact\":true,\"linkquality\":80,\"tamper\":false,\"voltage\":3000}";

#[test]
fn multi_wildcard_matches_any_depth() {
    let f = TopicFilter::parse(b"a/#").unwrap();
    assert!(f.matches(b"a"));
    assert!(f.matches(b"a/b"));
    assert!(f.matches(b"a/b/c"));
    assert!(!f.matches(b"b"));
}

#[test]
fn single_wildcard_matches_exactly_one_segment() {
    let f = TopicFilter::parse(b"+/b").unwrap();
    assert!(f.matches(b"x/b"));
    assert!(f.matches(b"y/b"));
    assert!(!f.matches(b"x/y/b"));
    assert!(!f.matches(b"b"));
}

#[test]
fn parse_accepts_wildcard_segments() {
    let f = TopicFilter::parse(b"a/+/c/#").unwrap();
    assert_eq!(f.segments.len(), 4);
    assert_eq!(f.segments[1], FilterSegment::SingleWildcard);
    assert_eq!(f.segments[3], FilterSegment::MultiWildcard);
    assert_eq!(f.pattern, b"a/+/c/#".to_vec());
}

#[test]
fn parse_rejects_inner_multi_wildcard() {
    assert_eq!(TopicFilter::parse(b"a/#/b"), Err(FilterError::InvalidFilter));
}

#[test]
fn parse_rejects_wildcard_inside_segment() {
    assert_eq!(TopicFilter::parse(b"a#b"), Err(FilterError::InvalidFilter));
    assert_eq!(TopicFilter::parse(b"a/b+"), Err(FilterError::InvalidFilter));
}

#[test]
fn parse_accepts_lone_multi_wildcard() {
    let f = TopicFilter::parse(b"#").unwrap();
    assert!(f.matches(b"anything/at/all"));
    assert!(f.matches(b""));
}

#[test]
fn add_route_rejects_malformed_pattern_and_keeps_table() {
    let mut r = Router::new();
    r.add_route(b"a/b", door(1)).unwrap();
    assert_eq!(r.add_route(b"a/#/b", motion(1)), Err(FilterError::InvalidFilter));
    assert_eq!(r.routes.len(), 1);
}

#[test]
fn first_match_wins_over_later_routes() {
    let mut r = Router::new();
    r.add_route(b"zigbee2mqtt/#", door(7)).unwrap();
    r.add_route(b"zigbee2mqtt/main_door", motion(8)).unwrap();
    let out = r.dispatch(b"zigbee2mqtt/main_door", DOOR_PAYLOAD);
    // Both routes match; only the first one's handler runs.
    match out {
        DispatchOutcome::Matched(Ok(ChatAction::SendText { channel_id, text })) => {
            assert_eq!(channel_id, 7);
            assert_eq!(text, b"Front door was closed".to_vec());
        },
        other => panic!("unexpected outcome: {:?}", other),
    }
}

#[test]
fn dispatch_without_matching_route_is_no_match() {
    let mut r = Router::new();
    r.add_route(b"a/b", door(1)).unwrap();
    assert_eq!(r.dispatch(b"c/d", b"{}"), DispatchOutcome::NoMatch);
}

#[test]
fn subscription_topics_keep_order_and_duplicates() {
    let mut r = Router::new();
    r.add_route(b"a/b", door(1)).unwrap();
    r.add_route(b"c/+", motion(1)).unwrap();
    r.add_route(b"a/b", motion(2)).unwrap();
    let topics = r.topics_for_subscription();
    assert_eq!(topics, vec![b"a/b".to_vec(), b"c/+".to_vec(), b"a/b".to_vec()]);
}

#[test]
fn malformed_payload_is_isolated_from_later_dispatch() {
    let mut r = Router::new();
    r.add_route(b"zigbee2mqtt/main_door", door(3)).unwrap();
    let first = r.dispatch(b"zigbee2mqtt/main_door", b"{\"contact\":tru");
    assert_eq!(
        first,
        DispatchOutcome::Matched(Err(HandlerError::MalformedPayload))
    );
    let second = r.dispatch(b"zigbee2mqtt/main_door", DOOR_PAYLOAD);
    match second {
        DispatchOutcome::Matched(Ok(ChatAction::SendText { channel_id, text })) => {
            assert_eq!(channel_id, 3);
            assert_eq!(text, b"Front door was closed".to_vec());
        },
        other => panic!("unexpected outcome: {:?}", other),
    }
}
