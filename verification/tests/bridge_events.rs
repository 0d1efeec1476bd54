//! The bridge: classification of inbound envelopes, outbound encoding, and
//! how events and keystrokes drive the state model.

use ghostwire::bridge::apply_network_event;
use ghostwire::bridge::command_to_wire;
use ghostwire::bridge::handle_inbound_text;
use ghostwire::bridge::handle_key_event;
use ghostwire::bridge::handle_wire_message;
use ghostwire::bridge::outbound_json;
use ghostwire::bridge::KeyInput;
use ghostwire::bridge::NetworkCommand;
use ghostwire::bridge::NetworkEvent;
use ghostwire::codec::encode_envelope;
use ghostwire::codec::parse_envelope;
use ghostwire::protocol::MessageMeta;
use ghostwire::protocol::MessageType;
use ghostwire::state::App;

fn wire(kind: MessageType, payload: &str, channel: &str, sender: &str, ts: i64) -> ghostwire::protocol::WireMessage {
    ghostwire::protocol::WireMessage {
        msg_type: kind,
        payload: payload.to_string(),
        channel: channel.to_string(),
        meta: MessageMeta {
            sender: sender.to_string(),
            timestamp: ts,
        },
    }
}

#[test]
fn a_join_notice_becomes_a_user_joined_event() {
    // a system envelope whose text says someone joined is a roster event,
    // not a generic system message
    let m = wire(MessageType::System, "bob joined the chat", "global", "bob", 1);
    assert_eq!(
        handle_wire_message(m),
        NetworkEvent::UserJoined {
            username: "bob".to_string()
        }
    );
}

#[test]
fn system_envelopes_classify_by_their_text() {
    let m = wire(MessageType::System, "bob left the chat", "global", "bob", 1);
    assert_eq!(
        handle_wire_message(m),
        NetworkEvent::UserLeft {
            username: "bob".to_string()
        }
    );
    let m = wire(MessageType::System, "server restarting soon", "global", "sys", 1);
    assert_eq!(
        handle_wire_message(m),
        NetworkEvent::SystemMessage {
            content: "server restarting soon".to_string()
        }
    );
    let m = wire(MessageType::Auth, "carol", "global", "carol", 1);
    assert_eq!(
        handle_wire_message(m),
        NetworkEvent::UserJoined {
            username: "carol".to_string()
        }
    );
    let m = wire(MessageType::Message, "hey", "dm:a:b", "a", 9);
    assert_eq!(
        handle_wire_message(m),
        NetworkEvent::Message {
            sender: "a".to_string(),
            content: "hey".to_string(),
            timestamp: 9,
            channel_id: "dm:a:b".to_string()
        }
    );
}

#[test]
fn inbound_text_parses_or_reports_an_error() {
    let text = r#"{"type":"SYS","payload":"bob joined the chat","channel":"global","meta":{"sender":"bob","timestamp":3}}"#;
    assert_eq!(
        handle_inbound_text(text),
        NetworkEvent::UserJoined {
            username: "bob".to_string()
        }
    );
    assert_eq!(
        handle_inbound_text("{{ not a frame"),
        NetworkEvent::Error {
            message: "Failed to parse message".to_string()
        }
    );
}

#[test]
fn send_command_becomes_a_stamped_message_envelope() {
    let cmd = NetworkCommand::SendMessage {
        content: "hi".to_string(),
        channel_id: "global".to_string(),
    };
    let m = command_to_wire(&cmd, "alice", 1000).unwrap();
    assert!(matches!(m.msg_type, MessageType::Message));
    assert_eq!(m.payload, "hi");
    assert_eq!(m.channel, "global");
    assert_eq!(m.meta.sender, "alice");
    assert_eq!(m.meta.timestamp, 1000);
    // and its wire text reads back as the same envelope
    let back = parse_envelope(&encode_envelope(&m)).unwrap();
    assert_eq!(back, m);
}

#[test]
fn authenticate_and_disconnect_commands() {
    let cmd = NetworkCommand::Authenticate {
        username: "alice".to_string(),
    };
    let m = command_to_wire(&cmd, "alice", 7).unwrap();
    assert!(matches!(m.msg_type, MessageType::Auth));
    assert_eq!(m.payload, "alice");
    assert_eq!(m.channel, "global");
    assert_eq!(m.meta.sender, "alice");
    assert!(command_to_wire(&NetworkCommand::Disconnect, "alice", 7).is_none());
    assert!(outbound_json(&NetworkCommand::Disconnect, "alice").is_none());
}

#[test]
fn outbound_json_round_trips_through_the_parser() {
    let cmd = NetworkCommand::SendMessage {
        content: "there".to_string(),
        channel_id: "dm:alice:bob".to_string(),
    };
    let text = outbound_json(&cmd, "alice").unwrap();
    let m = parse_envelope(&text).unwrap();
    assert_eq!(m.payload, "there");
    assert_eq!(m.channel, "dm:alice:bob");
    assert_eq!(m.meta.sender, "alice");
}

#[test]
fn typing_and_sending_shows_the_message_before_any_reply() {
    let mut app = App::new("alice".to_string());
    assert!(handle_key_event(&mut app, KeyInput::Char('i')).is_none());
    assert!(handle_key_event(&mut app, KeyInput::Char('h')).is_none());
    assert!(handle_key_event(&mut app, KeyInput::Char('i')).is_none());
    let cmd = handle_key_event(&mut app, KeyInput::Enter);
    assert_eq!(
        cmd,
        Some(NetworkCommand::SendMessage {
            content: "hi".to_string(),
            channel_id: "global".to_string()
        })
    );
    // optimistic echo: the global channel already shows it, no reply needed
    let last = app.channels[0].messages.back().unwrap();
    assert_eq!(last.content, "hi");
    assert_eq!(last.sender, "alice");
    assert!(!last.is_system);
    assert_eq!(app.telemetry.messages_sent, 1);
    assert!(app.input.is_empty());
    // an empty line sends nothing
    handle_key_event(&mut app, KeyInput::Enter);
    assert!(handle_key_event(&mut app, KeyInput::Enter).is_none());
}

#[test]
fn navigation_keys_drive_the_cursors() {
    let mut app = App::new("alice".to_string());
    apply_network_event(&mut app, NetworkEvent::UserJoined { username: "bob".to_string() });
    apply_network_event(&mut app, NetworkEvent::UserJoined { username: "zoe".to_string() });
    assert!(handle_key_event(&mut app, KeyInput::Char('J')).is_none());
    assert_eq!(app.selected_user, 1);
    handle_key_event(&mut app, KeyInput::Char('K'));
    assert_eq!(app.selected_user, 0);
    handle_key_event(&mut app, KeyInput::Char('d'));
    assert_eq!(app.active_channel, "dm:alice:bob");
    handle_key_event(&mut app, KeyInput::Char('#'));
    assert_eq!(app.active_channel, "global");
    handle_key_event(&mut app, KeyInput::Char('l'));
    assert_eq!(app.selected_channel, 1);
    handle_key_event(&mut app, KeyInput::Tab);
    assert_eq!(app.active_channel, "dm:alice:bob");
    handle_key_event(&mut app, KeyInput::Char('q'));
    assert!(app.should_quit);
}

#[test]
fn inbound_message_event_updates_roster_channel_and_counters() {
    let mut app = App::new("alice".to_string());
    apply_network_event(
        &mut app,
        NetworkEvent::Message {
            sender: "carol".to_string(),
            content: "welcome".to_string(),
            timestamp: 11,
            channel_id: "global".to_string(),
        },
    );
    assert_eq!(app.telemetry.messages_received, 1);
    assert_eq!(app.users.len(), 1);
    assert_eq!(app.users[0].username, "carol");
    assert!(app.users[0].is_online);
    let last = app.channels[0].messages.back().unwrap();
    assert_eq!(last.content, "welcome");
    assert_eq!(last.sender, "carol");
    assert_eq!(last.timestamp, 11);
}

#[test]
fn error_and_status_events_surface_as_system_notices() {
    let mut app = App::new("alice".to_string());
    apply_network_event(&mut app, NetworkEvent::Connected);
    assert!(app.is_connected);
    apply_network_event(
        &mut app,
        NetworkEvent::Error {
            message: "boom".to_string(),
        },
    );
    let last = app.channels[0].messages.back().unwrap();
    assert!(last.is_system);
    assert_eq!(last.content, "Error: boom");
    apply_network_event(&mut app, NetworkEvent::Disconnected);
    assert!(!app.is_connected);
    assert_eq!(
        app.channels[0].messages.back().unwrap().content,
        "Disconnected"
    );
}

#[test]
fn leave_event_removes_the_user() {
    let mut app = App::new("alice".to_string());
    apply_network_event(&mut app, NetworkEvent::UserJoined { username: "bob".to_string() });
    assert_eq!(app.users.len(), 1);
    apply_network_event(&mut app, NetworkEvent::UserLeft { username: "bob".to_string() });
    assert!(app.users.is_empty());
    assert_eq!(
        app.channels[0].messages.back().unwrap().content,
        "bob left the chat"
    );
}
