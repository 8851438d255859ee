use whole_sum_boi_discord::json::{lookup, parse_object, string_at, u64_at};
use whole_sum_boi_discord::outbound::{
    encode_outbound_message, is_ping, outbound_native_topic, outbound_topic, parse_outbound_message,
    MessageAttachment, OutboundChatMessage,
};
use whole_sum_boi_discord::payloads::DoorSensor;

#[test]
fn object_scan_ignores_unknown_members_and_whitespace() {
    let payload = b" { \"contact\" : true , \"extra\" : [1, {\"deep\": null}, \"x\"] } ";
    let members = parse_object(payload).unwrap();
    assert_eq!(members.len(), 2);
    assert_eq!(members[0].key, b"contact".to_vec());
    let door = b"{\"battery\":90,\"battery_low\":false,\"contact\":true,\"linkquality\":80,\"tamper\":false,\"voltage\":3000,\"mystery\":{\"a\":[]}}";
    assert!(DoorSensor::parse(door).is_some());
}

#[test]
fn object_scan_rejects_duplicates_and_trailing_text() {
    assert!(parse_object(b"{\"a\":1,\"a\":2}").is_none());
    assert!(parse_object(b"{\"a\":1} trailing").is_none());
    assert!(parse_object(b"[1,2]").is_none());
    assert!(parse_object(b"{\"a\":1,}").is_none());
}

#[test]
fn string_values_decode_escapes() {
    let payload = b"{\"s\":\"a\\\"b\\\\c\\n\\u0001\"}";
    let members = parse_object(payload).unwrap();
    let (vs, ve) = lookup(&members, b"s").unwrap();
    let decoded = string_at(payload, vs, ve).unwrap();
    assert_eq!(decoded, vec![b'a', b'"', b'b', b'\\', b'c', b'\n', 1u8]);
    // An escape outside the accepted set rejects the string.
    assert!(parse_object(b"{\"s\":\"\\u0041\"}").is_none());
}

#[test]
fn u64_values_reject_overflow_and_leading_zeroes() {
    let payload = b"{\"big\":18446744073709551615,\"huge\":18446744073709551616,\"zero\":0}";
    let members = parse_object(payload).unwrap();
    let (vs, ve) = lookup(&members, b"big").unwrap();
    assert_eq!(u64_at(payload, vs, ve), Some(u64::MAX));
    let (vs, ve) = lookup(&members, b"huge").unwrap();
    assert_eq!(u64_at(payload, vs, ve), None);
    let (vs, ve) = lookup(&members, b"zero").unwrap();
    assert_eq!(u64_at(payload, vs, ve), Some(0));
    // A number with a leading zero never scans as one value.
    assert!(parse_object(b"{\"pad\":0123}").is_none());
}

fn sample_message() -> OutboundChatMessage {
    OutboundChatMessage {
        message_id: 111,
        author_id: 222,
        is_author_bot: false,
        channel_id: 333,
        content: b"hello \"world\"\nbye".to_vec(),
        attachments: vec![
            MessageAttachment {
                id: 1,
                filename: b"cat.png".to_vec(),
                height: Some(480),
                proxy_url: b"https://proxy/cat.png".to_vec(),
                size: 2048,
                url: b"https://cdn/cat.png".to_vec(),
                width: Some(640),
                content_type: Some(b"image/png".to_vec()),
                ephemeral: false,
            },
            MessageAttachment {
                id: 2,
                filename: b"notes.txt".to_vec(),
                height: None,
                proxy_url: b"https://proxy/notes.txt".to_vec(),
                size: 5,
                url: b"https://cdn/notes.txt".to_vec(),
                width: None,
                content_type: None,
                ephemeral: true,
            },
        ],
    }
}

#[test]
fn encode_produces_exact_canonical_envelope() {
    let m = OutboundChatMessage {
        message_id: 7,
        author_id: 8,
        is_author_bot: true,
        channel_id: 9,
        content: b"hi".to_vec(),
        attachments: vec![],
    };
    let json = encode_outbound_message(&m);
    assert_eq!(
        String::from_utf8(json).unwrap(),
        "{\"message_id\":7,\"author_id\":8,\"is_author_bot\":true,\"channel_id\":9,\"content\":\"hi\",\"attachments\":[]}"
    );
}

#[test]
fn encoded_envelope_is_valid_json_with_the_given_fields() {
    let m = sample_message();
    let json = encode_outbound_message(&m);
    let v: serde_json::Value = serde_json::from_slice(&json).unwrap();
    assert_eq!(v["message_id"].as_u64(), Some(111));
    assert_eq!(v["author_id"].as_u64(), Some(222));
    assert_eq!(v["is_author_bot"].as_bool(), Some(false));
    assert_eq!(v["channel_id"].as_u64(), Some(333));
    assert_eq!(v["content"].as_str(), Some("hello \"world\"\nbye"));
    let atts = v["attachments"].as_array().unwrap();
    assert_eq!(atts.len(), 2);
    assert_eq!(atts[0]["id"].as_u64(), Some(1));
    assert_eq!(atts[0]["filename"].as_str(), Some("cat.png"));
    assert_eq!(atts[0]["height"].as_u64(), Some(480));
    assert_eq!(atts[0]["content_type"].as_str(), Some("image/png"));
    assert!(atts[1]["height"].is_null());
    assert!(atts[1]["content_type"].is_null());
    assert_eq!(atts[1]["ephemeral"].as_bool(), Some(true));
}

#[test]
fn envelope_round_trips_with_attachments() {
    let m = sample_message();
    let parsed = parse_outbound_message(&encode_outbound_message(&m)).unwrap();
    assert_eq!(parsed, m);
}

#[test]
fn envelope_round_trips_without_attachments() {
    let m = OutboundChatMessage {
        message_id: 0,
        author_id: u64::MAX,
        is_author_bot: true,
        channel_id: 1,
        content: b"\x01\x02 control \\ \"quotes\" and \x7f bytes \xc3\xa9".to_vec(),
        attachments: vec![],
    };
    let parsed = parse_outbound_message(&encode_outbound_message(&m)).unwrap();
    assert_eq!(parsed, m);
}

#[test]
fn parse_outbound_rejects_non_canonical_text() {
    assert!(parse_outbound_message(b"{}").is_none());
    assert!(parse_outbound_message(b"").is_none());
    let m = sample_message();
    let mut enc = encode_outbound_message(&m);
    enc.push(b' ');
    // Trailing bytes after the closing brace are refused.
    assert!(parse_outbound_message(&enc).is_none());
}

#[test]
fn derived_topics_append_fixed_suffixes() {
    assert_eq!(outbound_topic(b"wholesumboi"), b"wholesumboi/new_message/v1".to_vec());
    assert_eq!(
        outbound_native_topic(b"wholesumboi"),
        b"wholesumboi/new_message/serenity_format/v1".to_vec()
    );
}

#[test]
fn ping_is_case_insensitive_and_exact() {
    assert!(is_ping(b"ping"));
    assert!(is_ping(b"PiNg"));
    assert!(!is_ping(b"pings"));
    assert!(!is_ping(b"pin"));
    assert!(!is_ping(b""));
}
