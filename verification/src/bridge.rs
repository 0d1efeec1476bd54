//! The client side of the wire: how inbound frames become events, how
//! commands become outbound frames, and how events and keystrokes drive the
//! state model.
//!
//! The socket pump around this module only moves frames and commands
//! between the transport and these functions; every decision is here.

use vstd::prelude::*;
use crate::clock::now_ts;
use crate::codec::encode_envelope;
use crate::codec::envelope_json;
use crate::codec::parse_envelope;
use crate::codec::spec_parse_envelope;
use crate::codec::wire_view;
use crate::codec::EnvelopeData;
use crate::protocol::MessageMeta;
use crate::protocol::MessageType;
use crate::protocol::WireMessage;
use crate::state::appended_system;
use crate::state::dm_id;
use crate::state::first_user_index;
use crate::state::is_dm_id;
use crate::state::ring_append;
use crate::state::App;
use crate::state::Channel;
use crate::state::ChatMessage;
use crate::state::InputMode;
use crate::state::Telemetry;
use crate::state::User;
use crate::text::has_substring;
use crate::text::str_contains;

verus! {

/// What the bridge reports to the interactive loop.
#[derive(Debug, Clone, PartialEq)]
pub enum NetworkEvent {
    /// The transport is up.
    Connected,
    /// The transport ended.
    Disconnected,
    /// A chat message arrived.
    Message { sender: String, content: String, timestamp: i64, channel_id: String },
    /// Someone announced themselves or was seen joining.
    UserJoined { username: String },
    /// Someone left.
    UserLeft { username: String },
    /// A system notice that is neither a join nor a leave.
    SystemMessage { content: String },
    /// Something went wrong; the connection may or may not survive.
    Error { message: String },
}

/// What the interactive loop asks the bridge to do.
#[derive(Debug, Clone, PartialEq)]
pub enum NetworkCommand {
    /// Send a chat message to a channel.
    SendMessage { content: String, channel_id: String },
    /// Announce an identity (for reconnection scenarios).
    Authenticate { username: String },
    /// Close the connection and end the bridge.
    Disconnect,
}

/// The event an envelope turns into: a chat message carries its fields; a
/// system notice whose text mentions joining or leaving becomes the
/// corresponding roster event for its sender, otherwise it stays a system
/// notice; an identity announcement joins its sender.
pub open spec fn event_for(d: EnvelopeData, e: NetworkEvent) -> bool {
    match d.kind {
        MessageType::Message => e matches NetworkEvent::Message {
            sender,
            content,
            timestamp,
            channel_id,
        } && sender@ == d.sender && content@ == d.payload && timestamp as int == d.timestamp
            && channel_id@ == d.channel,
        MessageType::System => if has_substring(d.payload, "joined"@) {
            e matches NetworkEvent::UserJoined { username } && username@ == d.sender
        } else if has_substring(d.payload, "left"@) {
            e matches NetworkEvent::UserLeft { username } && username@ == d.sender
        } else {
            e matches NetworkEvent::SystemMessage { content } && content@ == d.payload
        },
        MessageType::Auth => e matches NetworkEvent::UserJoined { username } && username@
            == d.sender,
    }
}

/// Turns one decoded envelope into the event the state model sees.
pub fn handle_wire_message(msg: WireMessage) -> (e: NetworkEvent)
    ensures
        event_for(wire_view(msg), e),
{
    match msg.msg_type {
        MessageType::Message => NetworkEvent::Message {
            sender: msg.meta.sender,
            content: msg.payload,
            timestamp: msg.meta.timestamp,
            channel_id: msg.channel,
        },
        MessageType::System => {
            if str_contains(msg.payload.as_str(), "joined") {
                NetworkEvent::UserJoined { username: msg.meta.sender }
            } else if str_contains(msg.payload.as_str(), "left") {
                NetworkEvent::UserLeft { username: msg.meta.sender }
            } else {
                NetworkEvent::SystemMessage { content: msg.payload }
            }
        },
        MessageType::Auth => NetworkEvent::UserJoined { username: msg.meta.sender },
    }
}

/// Turns one inbound text frame into an event: a well-formed envelope is
/// classified; anything else is reported as an error and dropped, the
/// connection stays open.
pub fn handle_inbound_text(text: &str) -> (e: NetworkEvent)
    ensures
        match spec_parse_envelope(text@) {
            Some(d) => event_for(d, e),
            None => e matches NetworkEvent::Error { message } && message@
                == "Failed to parse message"@,
        },
{
    match parse_envelope(text) {
        Ok(msg) => handle_wire_message(msg),
        Err(_) => NetworkEvent::Error { message: String::from_str("Failed to parse message") },
    }
}

/// The envelope a command stands for, carrying the sender's identity and
/// clock; a disconnect sends no envelope.
pub open spec fn wire_for_command(c: NetworkCommand, user: Seq<char>, m: WireMessage) -> bool {
    match c {
        NetworkCommand::SendMessage { content, channel_id } => m.msg_type is Message
            && m.payload@ == content@ && m.channel@ == channel_id@ && m.meta.sender@ == user,
        NetworkCommand::Authenticate { username } => m.msg_type is Auth && m.payload@ == username@
            && m.channel@ == "global"@ && m.meta.sender@ == username@,
        NetworkCommand::Disconnect => false,
    }
}

/// Builds the envelope for a command, stamped with the given identity and
/// timestamp. A disconnect yields none: it becomes a close frame instead.
pub fn command_to_wire(command: &NetworkCommand, username: &str, timestamp: i64) -> (r: Option<
    WireMessage,
>)
    ensures
        match command {
            NetworkCommand::SendMessage { content, channel_id } => r matches Some(m) && m.msg_type
                is Message && m.payload@ == content@ && m.channel@ == channel_id@
                && m.meta.sender@ == username@ && m.meta.timestamp == timestamp,
            NetworkCommand::Authenticate { username: u } => r matches Some(m) && m.msg_type is Auth
                && m.payload@ == u@ && m.channel@ == "global"@ && m.meta.sender@ == u@
                && m.meta.timestamp == timestamp,
            NetworkCommand::Disconnect => r is None,
        },
{
    match command {
        NetworkCommand::SendMessage { content, channel_id } => Some(
            WireMessage {
                msg_type: MessageType::Message,
                payload: content.clone(),
                channel: channel_id.clone(),
                meta: MessageMeta {
                    sender: username.to_owned(),
                    timestamp,
                },
            },
        ),
        NetworkCommand::Authenticate { username: u } => Some(
            WireMessage {
                msg_type: MessageType::Auth,
                payload: u.clone(),
                channel: String::from_str("global"),
                meta: MessageMeta { sender: u.clone(), timestamp },
            },
        ),
        NetworkCommand::Disconnect => None,
    }
}

/// The identity announcement sent right after connecting.
pub fn auth_envelope(username: &str, timestamp: i64) -> (m: WireMessage)
    ensures
        m.msg_type is Auth,
        m.payload@ == username@,
        m.channel@ == "global"@,
        m.meta.sender@ == username@,
        m.meta.timestamp == timestamp,
{
    WireMessage {
        msg_type: MessageType::Auth,
        payload: username.to_owned(),
        channel: String::from_str("global"),
        meta: MessageMeta { sender: username.to_owned(), timestamp },
    }
}

/// The wire text for a command, stamped with the current clock: the
/// encoding of the command's envelope, or nothing for a disconnect.
pub fn outbound_json(command: &NetworkCommand, username: &str) -> (r: Option<String>)
    ensures
        (command is Disconnect) <==> (r is None),
        match r {
            Some(t) => exists|m: WireMessage|
                #[trigger] wire_for_command(*command, username@, m) && t@ == envelope_json(m),
            None => true,
        },
{
    let ts = now_ts();
    match command_to_wire(command, username, ts) {
        Some(m) => {
            let ghost gm = m;
            let t = encode_envelope(&m);
            proof {
                assert(wire_for_command(*command, username@, gm) && t@ == envelope_json(gm));
            }
            Some(t)
        },
        None => None,
    }
}

/// The wire text of the identity announcement, stamped with the current
/// clock.
pub fn auth_json(username: &str) -> (r: String)
    ensures
        exists|m: WireMessage|
            (#[trigger] envelope_json(m)) == r@ && m.msg_type is Auth && m.payload@ == username@
                && m.channel@ == "global"@ && m.meta.sender@ == username@,
{
    let ts = now_ts();
    let m = auth_envelope(username, ts);
    let ghost gm = m;
    let r = encode_envelope(&m);
    proof {
        assert(envelope_json(gm) == r@);
    }
    r
}

/// One non-system chat message with these fields was appended, under the
/// ring bound; its timestamp is whatever clock stamped it.
pub open spec fn appended_chat(
    old_msgs: Seq<ChatMessage>,
    new_msgs: Seq<ChatMessage>,
    sender: Seq<char>,
    content: Seq<char>,
) -> bool {
    exists|m: ChatMessage|
        !m.is_system && m.sender@ == sender && m.content@ == content && new_msgs == #[trigger]
        ring_append(old_msgs, m)
}

/// One non-system chat message with exactly these fields was appended,
/// under the ring bound.
pub open spec fn appended_chat_exact(
    old_msgs: Seq<ChatMessage>,
    new_msgs: Seq<ChatMessage>,
    sender: Seq<char>,
    content: Seq<char>,
    ts: i64,
) -> bool {
    exists|cm: ChatMessage|
        !cm.is_system && cm.sender@ == sender && cm.content@ == content && cm.timestamp == ts
            && new_msgs == #[trigger] ring_append(old_msgs, cm)
}

/// A join notice for `name`, then a chat message with exactly these fields.
pub open spec fn appended_join_then_chat(
    old_msgs: Seq<ChatMessage>,
    new_msgs: Seq<ChatMessage>,
    name: Seq<char>,
    sender: Seq<char>,
    content: Seq<char>,
    ts: i64,
) -> bool {
    exists|jm: ChatMessage|
        jm.is_system && jm.sender@ == "SYSTEM"@ && jm.content@ == name + " joined the chat"@
            && appended_chat_exact(
            #[trigger] ring_append(old_msgs, jm),
            new_msgs,
            sender,
            content,
            ts,
        )
}

/// Applies one network event to the state model, exactly as the event
/// warrants: status changes post a notice, chat messages are routed to
/// their channel (discovering their sender on the way), roster events add
/// or remove users, and errors surface as system-styled notices rather
/// than ending the loop. Each case fixes the whole new state.
pub fn apply_network_event(app: &mut App, event: NetworkEvent)
    requires
        old(app).wf(),
        forall|j: int|
            0 <= j < old(app).channels@.len() ==> (#[trigger] old(app).channels@[j]).unread_count
                < usize::MAX,
        old(app).telemetry.messages_received < u64::MAX,
    ensures
        final(app).wf(),
        final(app).username == old(app).username,
        match event {
            NetworkEvent::Connected => {
                &&& final(app).is_connected
                &&& old(app).is_connected ==> *final(app) == *old(app)
                &&& !old(app).is_connected ==> {
                    &&& final(app).channels@.len() == old(app).channels@.len()
                    &&& forall|j: int|
                        0 <= j < old(app).channels@.len() && (#[trigger] old(
                            app,
                        ).channels@[j]).id@ == old(app).active_channel@ ==> appended_system(
                            old(app).channels@[j].messages@,
                            final(app).channels@[j].messages@,
                            "Connected"@,
                        ) && final(app).channels@[j].id == old(app).channels@[j].id && final(app).channels@[j].channel_type == old(app).channels@[j].channel_type && final(app).channels@[j].unread_count == old(app).channels@[j].unread_count
                    &&& forall|j: int|
                        0 <= j < old(app).channels@.len() && (#[trigger] old(
                            app,
                        ).channels@[j]).id@ != old(app).active_channel@ ==> final(app).channels@[j] == old(app).channels@[j]
                    &&& *final(app) == (App {
                        is_connected: true,
                        channels: final(app).channels,
                        scroll_position: final(app).scroll_position,
                        ..*old(app)
                    })
                }
            },
            NetworkEvent::Disconnected => {
                &&& !final(app).is_connected
                &&& !old(app).is_connected ==> *final(app) == *old(app)
                &&& old(app).is_connected ==> {
                    &&& final(app).channels@.len() == old(app).channels@.len()
                    &&& forall|j: int|
                        0 <= j < old(app).channels@.len() && (#[trigger] old(
                            app,
                        ).channels@[j]).id@ == old(app).active_channel@ ==> appended_system(
                            old(app).channels@[j].messages@,
                            final(app).channels@[j].messages@,
                            "Disconnected"@,
                        ) && final(app).channels@[j].id == old(app).channels@[j].id && final(app).channels@[j].channel_type == old(app).channels@[j].channel_type && final(app).channels@[j].unread_count == old(app).channels@[j].unread_count
                    &&& forall|j: int|
                        0 <= j < old(app).channels@.len() && (#[trigger] old(
                            app,
                        ).channels@[j]).id@ != old(app).active_channel@ ==> final(app).channels@[j] == old(app).channels@[j]
                    &&& *final(app) == (App {
                        is_connected: false,
                        channels: final(app).channels,
                        scroll_position: final(app).scroll_position,
                        ..*old(app)
                    })
                }
            },
            NetworkEvent::Message { sender, content, timestamp, channel_id } => {
                let p0 = first_user_index(old(app).users@, sender@);
                let first_seen = sender@ != old(app).username@ && p0 == -1;
                &&& *final(app) == (App {
                    users: final(app).users,
                    channels: final(app).channels,
                    scroll_position: final(app).scroll_position,
                    telemetry: (Telemetry {
                        messages_received: final(app).telemetry.messages_received,
                        ..old(app).telemetry
                    }),
                    ..*old(app)
                })
                &&& final(app).telemetry.messages_received == old(
                    app,
                ).telemetry.messages_received + 1
                &&& (p0 >= 0 ==> {
                    &&& final(app).users@.len() == old(app).users@.len()
                    &&& forall|q: int|
                        0 <= q < old(app).users@.len() && q != p0 ==> final(app).users@[q] == old(
                            app,
                        ).users@[q]
                    &&& final(app).users@[p0].username == old(app).users@[p0].username
                    &&& final(app).users@[p0].is_online
                })
                &&& (sender@ == old(app).username@ && p0 == -1 ==> final(app).users@ == old(
                    app,
                ).users@)
                &&& (first_seen ==> {
                    &&& final(app).users@.len() == old(app).users@.len() + 1
                    &&& forall|q: int|
                        0 <= q < old(app).users@.len() ==> final(app).users@[q] == (#[trigger] old(
                            app,
                        ).users@[q])
                    &&& final(app).users@.last().username@ == sender@
                    &&& final(app).users@.last().is_online
                })
                &&& final(app).channels@.len() == (if old(app).has_channel(channel_id@) {
                    old(app).channels@.len() as int
                } else if (exists|u1: Seq<char>, u2: Seq<char>|
                    #[trigger] is_dm_id(channel_id@, u1, u2)) {
                    old(app).channels@.len() + 1int
                } else {
                    old(app).channels@.len() as int
                })
                &&& forall|j: int|
                    0 <= j < old(app).channels@.len() && (#[trigger] old(app).channels@[j]).id@
                        != channel_id@ && old(app).channels@[j].id@ != old(app).active_channel@
                        ==> final(app).channels@[j] == old(app).channels@[j]
                &&& (!first_seen ==> forall|j: int|
                    0 <= j < old(app).channels@.len() && (#[trigger] old(app).channels@[j]).id@
                        == old(app).active_channel@ && old(app).channels@[j].id@ != channel_id@
                        ==> final(app).channels@[j] == old(app).channels@[j])
                &&& (first_seen ==> forall|j: int|
                    0 <= j < old(app).channels@.len() && (#[trigger] old(app).channels@[j]).id@
                        == old(app).active_channel@ && old(app).channels@[j].id@ != channel_id@
                        ==> appended_system(
                        old(app).channels@[j].messages@,
                        final(app).channels@[j].messages@,
                        sender@ + " joined the chat"@,
                    ) && final(app).channels@[j].id == old(app).channels@[j].id && final(app).channels@[j].channel_type == old(app).channels@[j].channel_type && final(app).channels@[j].unread_count == old(app).channels@[j].unread_count)
                &&& (old(app).has_channel(channel_id@) ==> forall|j: int|
                    0 <= j < old(app).channels@.len() && (#[trigger] old(app).channels@[j]).id@
                        == channel_id@ ==> {
                        &&& (if first_seen && channel_id@ == old(app).active_channel@ {
                            appended_join_then_chat(
                                old(app).channels@[j].messages@,
                                final(app).channels@[j].messages@,
                                sender@,
                                sender@,
                                content@,
                                timestamp,
                            )
                        } else {
                            appended_chat_exact(
                                old(app).channels@[j].messages@,
                                final(app).channels@[j].messages@,
                                sender@,
                                content@,
                                timestamp,
                            )
                        })
                        &&& final(app).channels@[j].id == old(app).channels@[j].id
                        &&& final(app).channels@[j].channel_type == old(
                            app,
                        ).channels@[j].channel_type
                        &&& final(app).channels@[j].unread_count == (if channel_id@ != old(
                            app,
                        ).active_channel@ {
                            old(app).channels@[j].unread_count + 1
                        } else {
                            old(app).channels@[j].unread_count as int
                        })
                    })
                &&& ((!old(app).has_channel(channel_id@) && (exists|u1: Seq<char>, u2: Seq<char>|
                    #[trigger] is_dm_id(channel_id@, u1, u2))) ==> {
                    &&& final(app).channels@.last().id@ == channel_id@
                    &&& appended_chat_exact(
                        Seq::empty(),
                        final(app).channels@.last().messages@,
                        sender@,
                        content@,
                        timestamp,
                    )
                    &&& final(app).channels@.last().unread_count == 1
                })
            },
            NetworkEvent::UserJoined { username } => {
                &&& (username@ == old(app).username@ || first_user_index(
                    old(app).users@,
                    username@,
                ) >= 0) ==> *final(app) == *old(app)
                &&& (username@ != old(app).username@ && first_user_index(
                    old(app).users@,
                    username@,
                ) == -1) ==> {
                    &&& final(app).users@ == old(app).users@.push(final(app).users@.last())
                    &&& final(app).users@.last().username@ == username@
                    &&& final(app).users@.last().is_online
                    &&& final(app).channels@.len() == old(app).channels@.len()
                    &&& forall|j: int|
                        0 <= j < old(app).channels@.len() && (#[trigger] old(
                            app,
                        ).channels@[j]).id@ == old(app).active_channel@ ==> appended_system(
                            old(app).channels@[j].messages@,
                            final(app).channels@[j].messages@,
                            username@ + " joined the chat"@,
                        ) && final(app).channels@[j].id == old(app).channels@[j].id && final(app).channels@[j].channel_type == old(app).channels@[j].channel_type && final(app).channels@[j].unread_count == old(app).channels@[j].unread_count
                    &&& forall|j: int|
                        0 <= j < old(app).channels@.len() && (#[trigger] old(
                            app,
                        ).channels@[j]).id@ != old(app).active_channel@ ==> final(app).channels@[j] == old(app).channels@[j]
                    &&& *final(app) == (App {
                        users: final(app).users,
                        channels: final(app).channels,
                        scroll_position: final(app).scroll_position,
                        ..*old(app)
                    })
                }
            },
            NetworkEvent::UserLeft { username } => {
                &&& first_user_index(old(app).users@, username@) == -1 ==> *final(app) == *old(
                    app,
                )
                &&& first_user_index(old(app).users@, username@) >= 0 ==> {
                    let p = first_user_index(old(app).users@, username@);
                    &&& final(app).users@ == old(app).users@.remove(p)
                    &&& final(app).selected_user == (if old(app).selected_user >= old(
                        app,
                    ).users@.len() - 1 && old(app).selected_user > 0 {
                        old(app).users@.len() - 2
                    } else {
                        old(app).selected_user as int
                    })
                    &&& final(app).channels@.len() == old(app).channels@.len()
                    &&& forall|j: int|
                        0 <= j < old(app).channels@.len() && (#[trigger] old(
                            app,
                        ).channels@[j]).id@ == old(app).active_channel@ ==> appended_system(
                            old(app).channels@[j].messages@,
                            final(app).channels@[j].messages@,
                            username@ + " left the chat"@,
                        ) && final(app).channels@[j].id == old(app).channels@[j].id && final(app).channels@[j].channel_type == old(app).channels@[j].channel_type && final(app).channels@[j].unread_count == old(app).channels@[j].unread_count
                    &&& forall|j: int|
                        0 <= j < old(app).channels@.len() && (#[trigger] old(
                            app,
                        ).channels@[j]).id@ != old(app).active_channel@ ==> final(app).channels@[j] == old(app).channels@[j]
                    &&& *final(app) == (App {
                        users: final(app).users,
                        selected_user: final(app).selected_user,
                        channels: final(app).channels,
                        scroll_position: final(app).scroll_position,
                        ..*old(app)
                    })
                }
            },
            NetworkEvent::SystemMessage { content } => {
                &&& final(app).channels@.len() == old(app).channels@.len()
                &&& forall|j: int|
                    0 <= j < old(app).channels@.len() && (#[trigger] old(app).channels@[j]).id@
                        == old(app).active_channel@ ==> appended_system(
                        old(app).channels@[j].messages@,
                        final(app).channels@[j].messages@,
                        content@,
                    ) && final(app).channels@[j].id == old(app).channels@[j].id && final(app).channels@[j].channel_type == old(app).channels@[j].channel_type && final(app).channels@[j].unread_count == old(app).channels@[j].unread_count
                &&& forall|j: int|
                    0 <= j < old(app).channels@.len() && (#[trigger] old(app).channels@[j]).id@
                        != old(app).active_channel@ ==> final(app).channels@[j] == old(
                        app,
                    ).channels@[j]
                &&& *final(app) == (App {
                    channels: final(app).channels,
                    scroll_position: final(app).scroll_position,
                    ..*old(app)
                })
            },
            NetworkEvent::Error { message } => {
                &&& final(app).channels@.len() == old(app).channels@.len()
                &&& forall|j: int|
                    0 <= j < old(app).channels@.len() && (#[trigger] old(app).channels@[j]).id@
                        == old(app).active_channel@ ==> appended_system(
                        old(app).channels@[j].messages@,
                        final(app).channels@[j].messages@,
                        "Error: "@ + message@,
                    ) && final(app).channels@[j].id == old(app).channels@[j].id && final(app).channels@[j].channel_type == old(app).channels@[j].channel_type && final(app).channels@[j].unread_count == old(app).channels@[j].unread_count
                &&& forall|j: int|
                    0 <= j < old(app).channels@.len() && (#[trigger] old(app).channels@[j]).id@
                        != old(app).active_channel@ ==> final(app).channels@[j] == old(
                        app,
                    ).channels@[j]
                &&& *final(app) == (App {
                    channels: final(app).channels,
                    scroll_position: final(app).scroll_position,
                    ..*old(app)
                })
            },
        },
{
    match event {
        NetworkEvent::Connected => {
            app.set_connected(true);
        },
        NetworkEvent::Disconnected => {
            app.set_connected(false);
        },
        NetworkEvent::Message { sender, content, timestamp, channel_id } => {
            let msg = ChatMessage {
                sender: sender.clone(),
                content,
                timestamp,
                is_system: false,
            };
            let ghost gmsg = msg;
            let new_user = User::new(sender.clone());
            let ghost guser = new_user;
            app.add_user(new_user);
            let ghost au = *app;
            proof {
                assert forall|j: int| 0 <= j < au.channels@.len() implies (#[trigger]
                au.channels@[j]).unread_count < usize::MAX && au.channels@[j].id@ == old(
                    app,
                ).channels@[j].id@ by {
                    if old(app).channels@[j].id@ != old(app).active_channel@ {
                        assert(au.channels@[j] == old(app).channels@[j]);
                    }
                };
                assert(au.has_channel(channel_id@) <==> old(app).has_channel(channel_id@)) by {
                    if old(app).has_channel(channel_id@) {
                        let j = choose|j: int|
                            0 <= j < old(app).channels@.len() && (#[trigger] old(
                                app,
                            ).channels@[j]).id@ == channel_id@;
                        assert(au.channels@[j].id@ == channel_id@);
                    }
                    if au.has_channel(channel_id@) {
                        let j = choose|j: int|
                            0 <= j < au.channels@.len() && (#[trigger] au.channels@[j]).id@
                                == channel_id@;
                        assert(old(app).channels@[j].id@ == channel_id@);
                    }
                };
            }
            app.add_message_to_channel(channel_id.as_str(), msg);
            let ghost am = *app;
            app.telemetry.messages_received = app.telemetry.messages_received + 1;
            app.update_user_activity(sender.as_str());
            proof {
                let p0 = first_user_index(old(app).users@, sender@);
                crate::state::lemma_first_user_index(old(app).users@, sender@);
                assert(am.users@ == au.users@);
                // the roster, case by case
                if sender@ != old(app).username@ {
                    if p0 >= 0 {
                        assert(au.users@ == old(app).users@);
                        assert(au.users@[p0].username@ == sender@);
                    } else {
                        assert(au.users@ == old(app).users@.push(guser));
                        assert(au.users@[old(app).users@.len() as int] == guser);
                    }
                    crate::state::lemma_first_user_index(am.users@, sender@);
                    let q = first_user_index(am.users@, sender@);
                    assert(q >= 0) by {
                        if q == -1 {
                            if p0 >= 0 {
                                assert(am.users@[p0].username@ != sender@);
                            } else {
                                assert(am.users@[old(app).users@.len() as int].username@
                                    != sender@);
                            }
                        }
                    };
                    if p0 >= 0 {
                        assert(q == p0) by {
                            if q < p0 {
                                assert(old(app).users@[q].username@ != sender@);
                            }
                            if q > p0 {
                                assert(am.users@[p0].username@ != sender@);
                            }
                        };
                    } else {
                        assert(q == old(app).users@.len()) by {
                            if q < old(app).users@.len() {
                                assert(am.users@[q] == old(app).users@[q]);
                                assert(old(app).users@[q].username@ != sender@);
                            }
                        };
                        assert forall|t: int| 0 <= t < old(app).users@.len() implies app.users@[t]
                            == (#[trigger] old(app).users@[t]) by {
                            assert(app.users@[t] == am.users@[t]);
                        };
                        assert(app.users@.last().username@ == am.users@[q].username@);
                    }
                } else {
                    assert(au.users@ == old(app).users@);
                    if p0 == -1 {
                        crate::state::lemma_first_user_index(am.users@, sender@);
                        assert(first_user_index(am.users@, sender@) == -1) by {
                            let q2 = first_user_index(am.users@, sender@);
                            if q2 >= 0 {
                                assert(old(app).users@[q2].username@ != sender@);
                            }
                        };
                    } else {
                        crate::state::lemma_first_user_index(am.users@, sender@);
                        let q = first_user_index(am.users@, sender@);
                        assert(q == p0) by {
                            if q == -1 {
                                assert(am.users@[p0].username@ != sender@);
                            }
                            if 0 <= q < p0 {
                                assert(old(app).users@[q].username@ != sender@);
                            }
                            if q > p0 {
                                assert(am.users@[p0].username@ != sender@);
                            }
                        };
                    }
                }
                // the channels, clause by clause
                let first_seen = sender@ != old(app).username@ && p0 == -1;
                let dm_shaped = exists|u1: Seq<char>, u2: Seq<char>|
                    #[trigger] is_dm_id(channel_id@, u1, u2);
                assert(app.channels@ == am.channels@);
                assert(au.active_channel@ == old(app).active_channel@);
                if !first_seen {
                    assert(au == *old(app));
                }
                assert forall|j: int|
                    0 <= j < old(app).channels@.len() && (#[trigger] old(app).channels@[j]).id@
                        != channel_id@ implies am.channels@[j] == au.channels@[j] by {
                    assert(au.channels@[j].id@ == old(app).channels@[j].id@);
                };
                if old(app).has_channel(channel_id@) {
                    assert forall|j: int|
                        0 <= j < old(app).channels@.len() && (#[trigger] old(
                            app,
                        ).channels@[j]).id@ == channel_id@ implies {
                        &&& am.channels@[j].messages@ == ring_append(
                            au.channels@[j].messages@,
                            gmsg,
                        )
                        &&& am.channels@[j].id == au.channels@[j].id
                        &&& am.channels@[j].channel_type == au.channels@[j].channel_type
                        &&& am.channels@[j].unread_count == (if channel_id@ != old(
                            app,
                        ).active_channel@ {
                            au.channels@[j].unread_count + 1
                        } else {
                            au.channels@[j].unread_count as int
                        })
                    } by {
                        assert(au.channels@[j].id@ == channel_id@);
                    };
                    if first_seen && channel_id@ == old(app).active_channel@ {
                        assert forall|j: int|
                            0 <= j < old(app).channels@.len() && (#[trigger] old(
                                app,
                            ).channels@[j]).id@ == channel_id@ implies appended_join_then_chat(
                            old(app).channels@[j].messages@,
                            app.channels@[j].messages@,
                            sender@,
                            sender@,
                            content@,
                            timestamp,
                        ) by {
                            assert(appended_system(
                                old(app).channels@[j].messages@,
                                au.channels@[j].messages@,
                                sender@ + " joined the chat"@,
                            ));
                            let jm = choose|jm: ChatMessage|
                                jm.is_system && jm.sender@ == "SYSTEM"@ && jm.content@ == sender@
                                    + " joined the chat"@ && au.channels@[j].messages@
                                    == #[trigger] ring_append(
                                    old(app).channels@[j].messages@,
                                    jm,
                                );
                            assert(app.channels@[j].messages@ == ring_append(
                                ring_append(old(app).channels@[j].messages@, jm),
                                gmsg,
                            ));
                        };
                    }
                } else if dm_shaped {
                    assert(!au.has_channel(channel_id@));
                    assert(am.channels@.last().messages@ == seq![gmsg]);
                    assert(ring_append(Seq::<ChatMessage>::empty(), gmsg) =~= seq![gmsg]);
                    assert forall|j: int|
                        0 <= j < old(app).channels@.len() implies am.channels@[j] == (#[trigger]
                    au.channels@[j]) by {};
                } else {
                    assert(!au.has_channel(channel_id@));
                    assert(am == au);
                }
            }
        },
        NetworkEvent::UserJoined { username } => {
            let ghost pre = *app;
            let u = User::new(username);
            let ghost gu = u;
            app.add_user(u);
            proof {
                if gu.username@ != pre.username@ && first_user_index(pre.users@, gu.username@)
                    == -1 {
                    assert(app.users@ == pre.users@.push(gu));
                    assert(app.users@.last() == gu);
                }
            }
        },
        NetworkEvent::UserLeft { username } => {
            app.remove_user(username.as_str());
        },
        NetworkEvent::SystemMessage { content } => {
            app.add_message(ChatMessage::system(content));
        },
        NetworkEvent::Error { message } => {
            let mut text = String::from_str("Error: ");
            text.append(message.as_str());
            app.add_message(ChatMessage::system(text));
        },
    }
}

/// The keys the interactive loop feeds the state model, as plain values.
#[derive(Debug, Clone, PartialEq, Eq)]
pub enum KeyInput {
    Char(char),
    Enter,
    Esc,
    Backspace,
    Left,
    Right,
    Up,
    Down,
    Tab,
}

/// In navigation mode these keys move cursors and scroll; nothing else of
/// the state changes under them.
pub open spec fn normal_mode_nav_key(key: KeyInput) -> bool {
    ||| key == KeyInput::Char('j')
    ||| key == KeyInput::Down
    ||| key == KeyInput::Char('k')
    ||| key == KeyInput::Up
    ||| key == KeyInput::Char('G')
    ||| key == KeyInput::Char('h')
    ||| key == KeyInput::Left
    ||| key == KeyInput::Char('l')
    ||| key == KeyInput::Right
    ||| key == KeyInput::Char('J')
    ||| key == KeyInput::Char('K')
}

/// Applies one keystroke. In navigation mode keys move cursors, switch
/// channels, open conversations or quit; in editing mode they edit the
/// input line. The one key that yields a command is the editing-mode enter
/// on a non-empty line: the typed text is sent to the active channel, and —
/// before any reply — already appended there under the local identity (the
/// optimistic echo).
pub fn handle_key_event(app: &mut App, key: KeyInput) -> (cmd: Option<NetworkCommand>)
    requires
        old(app).wf(),
        old(app).telemetry.messages_sent < u64::MAX,
        old(app).input@.len() < usize::MAX,
    ensures
        final(app).wf(),
        (cmd is Some) <==> (old(app).input_mode is Editing && key == KeyInput::Enter && old(
            app,
        ).input@.len() > 0),
        cmd matches Some(c) ==> c matches NetworkCommand::SendMessage { content, channel_id }
            && content@ == old(app).input@ && channel_id@ == old(app).active_channel@,
        old(app).input_mode is Normal ==> {
            &&& (key == KeyInput::Char('q') || key == KeyInput::Esc) ==> *final(app) == (App {
                should_quit: true,
                ..*old(app)
            })
            &&& (key == KeyInput::Char('i') || key == KeyInput::Enter) ==> final(app).input_mode
                is Editing && final(app).input@ == old(app).input@
            &&& (key == KeyInput::Char('#')) ==> (final(app).active_channel@ == "global"@
                || *final(app) == *old(app))
            &&& (key == KeyInput::Char('d')) ==> (old(app).users@.len() == 0 ==> *final(app)
                == *old(app)) && (old(app).users@.len() > 0 ==> final(app).active_channel@
                == dm_id(
                old(app).username@,
                old(app).users@[old(app).selected_user as int].username@,
            ))
            &&& normal_mode_nav_key(key) ==> {
                &&& final(app).channels@ == old(app).channels@
                &&& final(app).users@ == old(app).users@
                &&& final(app).input@ == old(app).input@
                &&& final(app).input_mode == old(app).input_mode
                &&& final(app).active_channel == old(app).active_channel
                &&& final(app).should_quit == old(app).should_quit
                &&& final(app).telemetry == old(app).telemetry
            }
        },
        old(app).input_mode is Editing ==> {
            &&& key == KeyInput::Esc ==> *final(app) == (App {
                input_mode: InputMode::Normal,
                ..*old(app)
            })
            &&& key matches KeyInput::Char(c) ==> final(app).input@ == old(app).input@.insert(
                old(app).input_cursor as int,
                c,
            ) && final(app).input_mode is Editing
            &&& key == KeyInput::Enter ==> {
                &&& final(app).input@.len() == 0
                &&& final(app).input_cursor == 0
                &&& final(app).input_mode is Normal
                &&& old(app).input@.len() > 0 ==> {
                    &&& final(app).telemetry.messages_sent == old(app).telemetry.messages_sent + 1
                    &&& forall|j: int|
                        0 <= j < old(app).channels@.len() && (#[trigger] old(
                            app,
                        ).channels@[j]).id@ == old(app).active_channel@ ==> appended_chat(
                            old(app).channels@[j].messages@,
                            final(app).channels@[j].messages@,
                            old(app).username@,
                            old(app).input@,
                        )
                }
                &&& old(app).input@.len() == 0 ==> final(app).channels@ == old(app).channels@
                    && final(app).telemetry == old(app).telemetry
            }
            &&& key == KeyInput::Backspace ==> final(app).input@ == (if old(app).input_cursor > 0 {
                old(app).input@.remove(old(app).input_cursor - 1)
            } else {
                old(app).input@
            })
        },
{
    let mode_is_normal = match app.input_mode {
        InputMode::Normal => true,
        InputMode::Editing => false,
    };
    if mode_is_normal {
        match key {
            KeyInput::Char(c) => {
                if c == 'q' {
                    app.quit();
                } else if c == 'i' {
                    app.enter_edit_mode();
                } else if c == 'j' {
                    app.scroll_down();
                } else if c == 'k' {
                    app.scroll_up();
                } else if c == 'G' {
                    app.scroll_to_bottom();
                } else if c == 'h' {
                    app.select_previous_channel();
                } else if c == 'l' {
                    app.select_next_channel();
                } else if c == '#' {
                    app.switch_channel(String::from_str("global"));
                } else if c == 'd' {
                    if app.users.len() > 0 {
                        let other = app.users[app.selected_user].username.clone();
                        app.open_dm(other);
                    }
                } else if c == 'J' {
                    app.select_next_user();
                } else if c == 'K' {
                    app.select_previous_user();
                }
            },
            KeyInput::Esc => {
                app.quit();
            },
            KeyInput::Enter => {
                app.enter_edit_mode();
            },
            KeyInput::Down => {
                app.scroll_down();
            },
            KeyInput::Up => {
                app.scroll_up();
            },
            KeyInput::Left => {
                app.select_previous_channel();
            },
            KeyInput::Right => {
                app.select_next_channel();
            },
            KeyInput::Tab => {
                app.activate_selected_channel();
            },
            KeyInput::Backspace => {},
        }
        None
    } else {
        match key {
            KeyInput::Esc => {
                app.exit_edit_mode();
                None
            },
            KeyInput::Enter => {
                let input = app.take_input();
                let ghost after_take = *app;
                let mut cmd: Option<NetworkCommand> = None;
                if !input.as_str().is_empty() {
                    cmd = Some(
                        NetworkCommand::SendMessage {
                            content: input.clone(),
                            channel_id: app.active_channel.clone(),
                        },
                    );
                    let echo = ChatMessage::new(app.username.clone(), input, false);
                    let ghost gecho = echo;
                    app.add_message(echo);
                    proof {
                        assert forall|j: int|
                            0 <= j < old(app).channels@.len() && (#[trigger] old(
                                app,
                            ).channels@[j]).id@ == old(app).active_channel@ implies appended_chat(
                            old(app).channels@[j].messages@,
                            app.channels@[j].messages@,
                            old(app).username@,
                            old(app).input@,
                        ) by {
                            assert(after_take.channels@[j] == old(app).channels@[j]);
                            assert(app.channels@[j].messages@ == ring_append(
                                after_take.channels@[j].messages@,
                                gecho,
                            ));
                        };
                    }
                    app.telemetry.messages_sent = app.telemetry.messages_sent + 1;
                }
                app.exit_edit_mode();
                cmd
            },
            KeyInput::Char(c) => {
                app.input_char(c);
                None
            },
            KeyInput::Backspace => {
                app.input_backspace();
                None
            },
            KeyInput::Left => {
                app.input_cursor_left();
                None
            },
            KeyInput::Right => {
                app.input_cursor_right();
                None
            },
            KeyInput::Up => None,
            KeyInput::Down => None,
            KeyInput::Tab => None,
        }
    }
}

} // verus!
