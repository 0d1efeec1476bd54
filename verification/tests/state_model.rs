//! The client state model: channels, roster, telemetry, input.

use ghostwire::state::App;
use ghostwire::state::Channel;
use ghostwire::state::ChatMessage;
use ghostwire::state::InputMode;
use ghostwire::state::User;
use ghostwire::text::format_bytes;

fn msg(sender: &str, content: &str) -> ChatMessage {
    ChatMessage {
        sender: sender.to_string(),
        content: content.to_string(),
        timestamp: 0,
        is_system: false,
    }
}

#[test]
fn new_app_greets_in_the_global_channel() {
    let app = App::new("alice".to_string());
    assert_eq!(app.active_channel, "global");
    assert_eq!(app.channels.len(), 1);
    let global = &app.channels[0];
    assert_eq!(global.id, "global");
    assert_eq!(global.messages.len(), 1);
    let greeting = &global.messages[0];
    assert!(greeting.is_system);
    assert_eq!(greeting.sender, "SYSTEM");
    assert_eq!(greeting.content, "Welcome to GhostWire, alice!");
    assert!(!app.is_connected);
    assert!(!app.should_quit);
    assert_eq!(app.telemetry.network_activity.len(), 60);
}

#[test]
fn channel_at_capacity_evicts_the_oldest() {
    let mut channel = Channel::global();
    for i in 0..1000 {
        channel.add_message(msg("alice", &format!("m{}", i)));
    }
    assert_eq!(channel.messages.len(), 1000);
    assert_eq!(channel.messages.front().unwrap().content, "m0");
    channel.add_message(msg("alice", "m1000"));
    // still at capacity, the oldest message is gone, the newest is present
    assert_eq!(channel.messages.len(), 1000);
    assert_eq!(channel.messages.front().unwrap().content, "m1");
    assert_eq!(channel.messages.back().unwrap().content, "m1000");
}

#[test]
fn dm_identifier_is_the_same_from_both_sides() {
    let a = Channel::dm("alice", "bob".to_string());
    let b = Channel::dm("bob", "alice".to_string());
    assert_eq!(a.id, "dm:alice:bob");
    assert_eq!(a.id, b.id);
}

#[test]
fn switching_clears_only_the_target_unread_count() {
    let mut app = App::new("carol".to_string());
    // two direct-message channels, neither active
    app.add_message_to_channel("dm:alice:carol", msg("alice", "hi"));
    app.add_message_to_channel("dm:bob:carol", msg("bob", "yo"));
    app.add_message_to_channel("dm:bob:carol", msg("bob", "there?"));
    let unread = |app: &App, id: &str| {
        app.channels
            .iter()
            .find(|c| c.id == id)
            .unwrap()
            .unread_count
    };
    assert_eq!(unread(&app, "dm:alice:carol"), 1);
    assert_eq!(unread(&app, "dm:bob:carol"), 2);
    app.switch_channel("dm:alice:carol".to_string());
    assert_eq!(app.active_channel, "dm:alice:carol");
    // the activated channel's counter is zeroed, the other is untouched
    assert_eq!(unread(&app, "dm:alice:carol"), 0);
    assert_eq!(unread(&app, "dm:bob:carol"), 2);
}

#[test]
fn unknown_channel_id_drops_the_message() {
    let mut app = App::new("carol".to_string());
    app.add_message_to_channel("group:nowhere", msg("alice", "lost"));
    assert_eq!(app.channels.len(), 1);
    assert_eq!(app.channels[0].messages.len(), 1);
}

#[test]
fn inbound_dm_creates_its_channel_named_after_the_peer() {
    let mut app = App::new("bob".to_string());
    app.add_message_to_channel("dm:alice:bob", msg("alice", "psst"));
    assert_eq!(app.channels.len(), 2);
    let dm = app.channels.iter().find(|c| c.id == "dm:alice:bob").unwrap();
    assert_eq!(dm.messages.len(), 1);
    assert_eq!(dm.unread_count, 1);
    match &dm.channel_type {
        ghostwire::state::ChannelType::DirectMessage { other_user } => {
            assert_eq!(other_user, "alice");
        }
        other => panic!("not a direct message channel: {:?}", other),
    }
}

#[test]
fn roster_add_and_remove_post_notices() {
    let mut app = App::new("alice".to_string());
    app.add_user(User::new("bob".to_string()));
    assert_eq!(app.users.len(), 1);
    // adding the same name again changes nothing
    app.add_user(User::new("bob".to_string()));
    assert_eq!(app.users.len(), 1);
    // the local user is never added
    app.add_user(User::new("alice".to_string()));
    assert_eq!(app.users.len(), 1);
    let global = &app.channels[0];
    let last = global.messages.back().unwrap();
    assert!(last.is_system);
    assert_eq!(last.content, "bob joined the chat");
    app.remove_user("bob");
    assert!(app.users.is_empty());
    let global = &app.channels[0];
    let last = global.messages.back().unwrap();
    assert_eq!(last.content, "bob left the chat");
    // removing an unknown user changes nothing
    let before = app.channels[0].messages.len();
    app.remove_user("nobody");
    assert_eq!(app.channels[0].messages.len(), before);
}

#[test]
fn user_activity_and_offline_marking() {
    let mut app = App::new("alice".to_string());
    app.add_user(User::new("bob".to_string()));
    app.mark_user_offline("bob");
    assert!(!app.users[0].is_online);
    app.update_user_activity("bob");
    assert!(app.users[0].is_online);
}

#[test]
fn input_line_editing() {
    let mut app = App::new("alice".to_string());
    app.enter_edit_mode();
    assert_eq!(app.input_mode, InputMode::Editing);
    app.input_char('h');
    app.input_char('i');
    app.input_cursor_left();
    app.input_char('!');
    // inserted at the cursor, not at the end
    assert_eq!(app.input.iter().collect::<String>(), "h!i");
    app.input_backspace();
    assert_eq!(app.input.iter().collect::<String>(), "hi");
    app.input_cursor_right();
    let taken = app.take_input();
    assert_eq!(taken, "hi");
    assert!(app.input.is_empty());
    assert_eq!(app.input_cursor, 0);
    app.exit_edit_mode();
    assert_eq!(app.input_mode, InputMode::Normal);
}

#[test]
fn channel_list_is_sorted_with_global_first() {
    let mut app = App::new("mia".to_string());
    app.open_dm("zoe".to_string());
    app.open_dm("abe".to_string());
    let list = app.get_channel_list();
    assert_eq!(list, vec!["global", "dm:abe:mia", "dm:mia:zoe"]);
}

#[test]
fn activity_ring_records_per_second_deltas() {
    let mut app = App::new("alice".to_string());
    app.telemetry.messages_sent = 5;
    app.update_network_activity();
    assert_eq!(app.telemetry.network_activity.len(), 60);
    assert_eq!(*app.telemetry.network_activity.last().unwrap(), 5);
    app.telemetry.messages_received = 2;
    app.update_network_activity();
    assert_eq!(app.telemetry.network_activity.len(), 60);
    // only the delta since the last advance lands in the newest slot
    assert_eq!(*app.telemetry.network_activity.last().unwrap(), 2);
    assert_eq!(app.telemetry.network_activity[58], 5);
    assert_eq!(app.telemetry.network_activity[0], 0);
}

#[test]
fn uptime_and_latency_counters() {
    let mut app = App::new("alice".to_string());
    app.increment_uptime(1);
    app.increment_uptime(1);
    assert_eq!(app.telemetry.connection_uptime, 2);
    app.update_latency(42);
    assert_eq!(app.telemetry.latency_ms, 42);
}

#[test]
fn scrolling_stays_in_range() {
    let mut app = App::new("alice".to_string());
    for i in 0..3 {
        app.add_message(msg("alice", &format!("m{}", i)));
    }
    // four messages now (greeting plus three): bottom is index 3
    assert_eq!(app.scroll_position, 3);
    app.scroll_down();
    assert_eq!(app.scroll_position, 3);
    app.scroll_up();
    app.scroll_up();
    assert_eq!(app.scroll_position, 1);
    app.scroll_to_bottom();
    assert_eq!(app.scroll_position, 3);
}

#[test]
fn connection_status_changes_are_announced_once() {
    let mut app = App::new("alice".to_string());
    app.set_connected(true);
    assert!(app.is_connected);
    assert_eq!(app.channels[0].messages.back().unwrap().content, "Connected");
    let count = app.channels[0].messages.len();
    // setting the same status again posts nothing
    app.set_connected(true);
    assert_eq!(app.channels[0].messages.len(), count);
    app.set_connected(false);
    assert_eq!(
        app.channels[0].messages.back().unwrap().content,
        "Disconnected"
    );
}

#[test]
fn byte_counts_format_with_two_decimals() {
    assert_eq!(format_bytes(0), "0B");
    assert_eq!(format_bytes(999), "999B");
    assert_eq!(format_bytes(1024), "1.00KB");
    assert_eq!(format_bytes(1536), "1.50KB");
    assert_eq!(format_bytes(1024 * 1024), "1.00MB");
    assert_eq!(format_bytes(2621440), "2.50MB");
    assert_eq!(format_bytes(1073741824), "1.00GB");
    assert_eq!(format_bytes(1610612736), "1.50GB");
}
