//! The wire codec: encoding, parsing, and agreement with a stock JSON
//! implementation.

use ghostwire::codec::encode_envelope;
use ghostwire::codec::parse_envelope;
use ghostwire::protocol::MessageMeta;
use ghostwire::protocol::MessageType;
use ghostwire::protocol::WireMessage;

fn envelope(kind: MessageType, payload: &str, channel: &str, sender: &str, ts: i64) -> WireMessage {
    WireMessage {
        msg_type: kind,
        payload: payload.to_string(),
        channel: channel.to_string(),
        meta: MessageMeta {
            sender: sender.to_string(),
            timestamp: ts,
        },
    }
}

#[test]
fn encoding_writes_the_fixed_wire_form() {
    let m = envelope(MessageType::Message, "hi", "global", "alice", 1234567890);
    assert_eq!(
        encode_envelope(&m),
        r#"{"type":"MSG","payload":"hi","channel":"global","meta":{"sender":"alice","timestamp":1234567890}}"#
    );
    let m = envelope(MessageType::Auth, "bob", "global", "bob", -5);
    assert_eq!(
        encode_envelope(&m),
        r#"{"type":"AUTH","payload":"bob","channel":"global","meta":{"sender":"bob","timestamp":-5}}"#
    );
}

#[test]
fn encoding_escapes_what_json_requires() {
    let m = envelope(MessageType::System, "say \"hi\"\\\n", "global", "sys", 0);
    assert_eq!(
        encode_envelope(&m),
        r#"{"type":"SYS","payload":"say \"hi\"\\\n","channel":"global","meta":{"sender":"sys","timestamp":0}}"#
    );
}

#[test]
fn parsing_undoes_encoding() {
    let cases = vec![
        envelope(MessageType::Message, "hi", "global", "alice", 1234567890),
        envelope(MessageType::Auth, "bob", "global", "bob", 0),
        envelope(MessageType::System, "x joined the chat", "global", "x", -42),
        envelope(MessageType::Message, "quote \" slash \\ tab \t", "dm:a:b", "a", i64::MAX),
        envelope(MessageType::Message, "", "", "", i64::MIN),
        envelope(MessageType::Message, "unicode ✓ Ω", "global", "ümlaut", 7),
    ];
    for m in cases {
        let text = encode_envelope(&m);
        let back = parse_envelope(&text).expect(&text);
        assert_eq!(back, m);
    }
}

#[test]
fn parsing_accepts_any_member_order_and_whitespace() {
    let text = " { \"meta\" : { \"timestamp\" : 9 , \"sender\" : \"zed\" } ,\n \"payload\" : \"ok\" , \"type\" : \"MSG\" , \"channel\" : \"global\" } ";
    let m = parse_envelope(text).unwrap();
    assert_eq!(m.payload, "ok");
    assert_eq!(m.channel, "global");
    assert_eq!(m.meta.sender, "zed");
    assert_eq!(m.meta.timestamp, 9);
    assert!(matches!(m.msg_type, MessageType::Message));
}

#[test]
fn parsing_defaults_a_missing_channel_to_global() {
    let text = r#"{"type":"MSG","payload":"old sender","meta":{"sender":"relic","timestamp":1}}"#;
    let m = parse_envelope(text).unwrap();
    assert_eq!(m.channel, "global");
}

#[test]
fn parsing_decodes_string_escapes() {
    let text = r#"{"type":"MSG","payload":"a\"b\\c\nd\u0041e\u00e9f","channel":"global","meta":{"sender":"s","timestamp":0}}"#;
    let m = parse_envelope(text).unwrap();
    assert_eq!(m.payload, "a\"b\\c\ndAe\u{e9}f");
}

#[test]
fn malformed_frames_are_refused() {
    let bad = vec![
        "",
        "not json",
        "{}",
        r#"{"type":"MSG","payload":"x"}"#,
        r#"{"type":"NOPE","payload":"x","meta":{"sender":"s","timestamp":0}}"#,
        r#"{"type":"MSG","payload":"x","meta":{"sender":"s"}}"#,
        r#"{"type":"MSG","payload":"x","meta":{"sender":"s","timestamp":0}} trailing"#,
        r#"{"type":"MSG","type":"MSG","payload":"x","meta":{"sender":"s","timestamp":0}}"#,
        r#"{"type":"MSG","payload":"x","meta":{"sender":"s","timestamp":99999999999999999999}}"#,
        r#"{"type":"MSG","payload":"x","meta":{"sender":"s","timestamp":0},}"#,
    ];
    for text in bad {
        assert!(parse_envelope(text).is_err(), "accepted: {}", text);
    }
}

#[test]
fn a_stock_json_reader_accepts_what_we_write() {
    let m = envelope(MessageType::Message, "hi \"there\"", "dm:a:b", "alice", 77);
    let text = encode_envelope(&m);
    let value: serde_json::Value = serde_json::from_str(&text).unwrap();
    assert_eq!(value["type"], serde_json::Value::String("MSG".to_string()));
    assert_eq!(
        value["payload"],
        serde_json::Value::String("hi \"there\"".to_string())
    );
    assert_eq!(
        value["channel"],
        serde_json::Value::String("dm:a:b".to_string())
    );
    assert_eq!(
        value["meta"]["sender"],
        serde_json::Value::String("alice".to_string())
    );
    assert_eq!(value["meta"]["timestamp"], serde_json::Value::from(77i64));
}

#[test]
fn we_accept_what_a_stock_json_writer_produces() {
    let mut meta = serde_json::Map::new();
    meta.insert(
        "sender".to_string(),
        serde_json::Value::String("bob".to_string()),
    );
    meta.insert("timestamp".to_string(), serde_json::Value::from(123i64));
    let mut obj = serde_json::Map::new();
    obj.insert(
        "type".to_string(),
        serde_json::Value::String("SYS".to_string()),
    );
    obj.insert(
        "payload".to_string(),
        serde_json::Value::String("bob joined the chat".to_string()),
    );
    obj.insert(
        "channel".to_string(),
        serde_json::Value::String("global".to_string()),
    );
    obj.insert("meta".to_string(), serde_json::Value::Object(meta));
    let text = serde_json::Value::Object(obj).to_string();
    let m = parse_envelope(&text).unwrap();
    assert!(matches!(m.msg_type, MessageType::System));
    assert_eq!(m.payload, "bob joined the chat");
    assert_eq!(m.meta.sender, "bob");
    assert_eq!(m.meta.timestamp, 123);
}
