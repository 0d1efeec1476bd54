//! The client's local state model: channels with their bounded message
//! rings, the user roster, telemetry, and the input line, together with the
//! mutators that network events and local actions drive.

use vstd::prelude::*;
use crate::clock::now_ts;
use crate::text::chars_to_string;
use crate::text::lemma_lex_lt_asymmetric;
use crate::text::lemma_lex_lt_connex;
use crate::text::lex_lt;
use crate::text::push_char;
use crate::text::str_lex_lt;

verus! {

/// Each channel keeps at most this many messages; the oldest goes first.
pub const MAX_MESSAGES: usize = 1000;

/// The activity ring holds one message-rate sample per second for this long.
pub const ACTIVITY_SLOTS: usize = 60;

/// One chat message as the client stores and shows it. Immutable once
/// created; the timestamp is in seconds since the epoch.
#[derive(Debug, Clone, PartialEq)]
pub struct ChatMessage {
    pub sender: String,
    pub content: String,
    pub timestamp: i64,
    pub is_system: bool,
}

impl ChatMessage {
    /// A message stamped with the current wall clock.
    pub fn new(sender: String, content: String, is_system: bool) -> (m: ChatMessage)
        ensures
            m.sender@ == sender@,
            m.content@ == content@,
            m.is_system == is_system,
    {
        ChatMessage { sender, content, timestamp: now_ts(), is_system }
    }

    /// A system-styled notice.
    pub fn system(content: String) -> (m: ChatMessage)
        ensures
            m.sender@ == "SYSTEM"@,
            m.content@ == content@,
            m.is_system,
    {
        ChatMessage::new(String::from_str("SYSTEM"), content, true)
    }
}

/// One user in the roster, keyed by username.
#[derive(Debug, Clone, PartialEq)]
pub struct User {
    pub username: String,
    pub is_online: bool,
    pub last_seen: i64,
}

impl User {
    /// A user first seen now, online.
    pub fn new(username: String) -> (u: User)
        ensures
            u.username@ == username@,
            u.is_online,
    {
        User { username, is_online: true, last_seen: now_ts() }
    }
}

/// What kind of conversation a channel is.
#[derive(Debug, Clone)]
pub enum ChannelType {
    /// The one channel every client shares.
    Global,
    /// A two-party conversation with the named other user.
    DirectMessage { other_user: String },
    /// A named group conversation.
    Group { name: String, members: Vec<String> },
}

/// The deterministic identifier of the two-party channel between `a` and
/// `b`: the two names sorted, joined with colons behind a `dm` tag.
pub open spec fn dm_id(a: Seq<char>, b: Seq<char>) -> Seq<char> {
    if lex_lt(a, b) {
        "dm:"@ + a + seq![':'] + b
    } else {
        "dm:"@ + b + seq![':'] + a
    }
}

/// Both parties derive the same identifier for their conversation, whoever
/// builds it.
pub proof fn lemma_dm_id_symmetric(a: Seq<char>, b: Seq<char>)
    ensures
        dm_id(a, b) == dm_id(b, a),
{
    if lex_lt(a, b) {
        lemma_lex_lt_asymmetric(a, b);
    } else if lex_lt(b, a) {
    } else {
        lemma_lex_lt_connex(a, b);
    }
}

/// A chat channel: its identifier, kind, bounded message ring, and unread
/// counter.
#[derive(Debug, Clone)]
pub struct Channel {
    /// Unique channel id: the global identifier, `dm:user1:user2`, or
    /// `group:name`.
    pub id: String,
    pub channel_type: ChannelType,
    /// At most `MAX_MESSAGES` entries; overflowing evicts the oldest first.
    pub messages: std::collections::VecDeque<ChatMessage>,
    pub unread_count: usize,
}

/// The ring after appending one message: grow while below capacity, else
/// drop the oldest.
pub open spec fn ring_append(msgs: Seq<ChatMessage>, m: ChatMessage) -> Seq<ChatMessage> {
    if msgs.len() < MAX_MESSAGES {
        msgs.push(m)
    } else {
        msgs.drop_first().push(m)
    }
}

impl Channel {
    /// The ring never exceeds its capacity.
    pub open spec fn wf(&self) -> bool {
        self.messages@.len() <= MAX_MESSAGES
    }

    /// The shared global channel, empty and read.
    pub fn global() -> (c: Channel)
        ensures
            c.wf(),
            c.id@ == "global"@,
            c.channel_type is Global,
            c.messages@.len() == 0,
            c.unread_count == 0,
    {
        Channel {
            id: String::from_str("global"),
            channel_type: ChannelType::Global,
            messages: std::collections::VecDeque::new(),
            unread_count: 0,
        }
    }

    /// The two-party channel between the current user and `other_user`,
    /// under the identifier both sides agree on.
    pub fn dm(current_user: &str, other_user: String) -> (c: Channel)
        ensures
            c.wf(),
            c.id@ == dm_id(current_user@, other_user@),
            c.channel_type matches ChannelType::DirectMessage { other_user: o } && o@
                == other_user@,
            c.messages@.len() == 0,
            c.unread_count == 0,
    {
        let mut id = String::from_str("dm:");
        if str_lex_lt(current_user, other_user.as_str()) {
            id.append(current_user);
            push_char(&mut id, ':');
            id.append(other_user.as_str());
        } else {
            id.append(other_user.as_str());
            push_char(&mut id, ':');
            id.append(current_user);
        }
        proof {
            assert(("dm:"@ + current_user@).push(':') =~= "dm:"@ + current_user@ + seq![':']);
            assert(("dm:"@ + other_user@).push(':') =~= "dm:"@ + other_user@ + seq![':']);
        }
        Channel {
            id,
            channel_type: ChannelType::DirectMessage { other_user },
            messages: std::collections::VecDeque::new(),
            unread_count: 0,
        }
    }

    /// A group channel under `group:name`.
    pub fn group(name: String, members: Vec<String>) -> (c: Channel)
        ensures
            c.wf(),
            c.id@ == "group:"@ + name@,
            c.channel_type matches ChannelType::Group { name: n, members: m } && n@ == name@
                && m == members,
            c.messages@.len() == 0,
            c.unread_count == 0,
    {
        let mut id = String::from_str("group:");
        id.append(name.as_str());
        Channel {
            id,
            channel_type: ChannelType::Group { name, members },
            messages: std::collections::VecDeque::new(),
            unread_count: 0,
        }
    }

    /// Appends a message; at capacity the oldest message is evicted first,
    /// so the ring never grows past `MAX_MESSAGES`.
    pub fn add_message(&mut self, message: ChatMessage)
        requires
            old(self).wf(),
        ensures
            final(self).wf(),
            final(self).messages@ == ring_append(old(self).messages@, message),
            old(self).messages@.len() == MAX_MESSAGES ==> final(self).messages@.len()
                == MAX_MESSAGES,
            final(self).id == old(self).id,
            final(self).channel_type == old(self).channel_type,
            final(self).unread_count == old(self).unread_count,
    {
        self.messages.push_back(message);
        if self.messages.len() > MAX_MESSAGES {
            self.messages.pop_front();
            proof {
                assert(final(self).messages@ =~= ring_append(old(self).messages@, message));
            }
        }
    }

    /// The name the channel list shows for this channel.
    pub fn display_name(&self) -> (r: String)
        ensures
            r@ == spec_display_name(self.channel_type),
    {
        match &self.channel_type {
            ChannelType::Global => String::from_str("# global"),
            ChannelType::DirectMessage { other_user } => {
                let mut s = String::from_str("@ ");
                s.append(other_user.as_str());
                s
            },
            ChannelType::Group { name, .. } => {
                let mut s = String::from_str("# ");
                s.append(name.as_str());
                s
            },
        }
    }
}

/// What `display_name` renders for each kind of channel.
pub open spec fn spec_display_name(t: ChannelType) -> Seq<char> {
    match t {
        ChannelType::Global => "# global"@,
        ChannelType::DirectMessage { other_user } => "@ "@ + other_user@,
        ChannelType::Group { name, members } => "# "@ + name@,
    }
}

/// Counters and samples shown in the telemetry pane. All counters only ever
/// grow; the activity ring advances one slot per second.
#[derive(Debug, Clone)]
pub struct Telemetry {
    pub messages_sent: u64,
    pub messages_received: u64,
    pub bytes_sent: u64,
    pub bytes_received: u64,
    /// Connection uptime, in seconds.
    pub connection_uptime: u64,
    pub latency_ms: u64,
    /// Messages per second over the last `ACTIVITY_SLOTS` seconds, oldest
    /// first.
    pub network_activity: Vec<u64>,
    /// The counter total when the ring last advanced, so the next advance
    /// stores a delta. Explicit state here, not hidden process-wide state.
    pub last_activity_total: u64,
}

/// Fresh telemetry: every counter at zero and a full ring of zero samples.
pub open spec fn telemetry_zeroed(t: Telemetry) -> bool {
    &&& t.messages_sent == 0
    &&& t.messages_received == 0
    &&& t.bytes_sent == 0
    &&& t.bytes_received == 0
    &&& t.connection_uptime == 0
    &&& t.latency_ms == 0
    &&& t.network_activity@.len() == ACTIVITY_SLOTS
    &&& forall|i: int|
        0 <= i < t.network_activity@.len() ==> #[trigger] t.network_activity@[i] == 0
    &&& t.last_activity_total == 0
}

impl Telemetry {
    /// The ring always holds exactly one slot per tracked second.
    pub open spec fn wf(&self) -> bool {
        self.network_activity@.len() == ACTIVITY_SLOTS
    }
}

impl Default for Telemetry {
    /// Fresh telemetry, all zeros.
    fn default() -> (t: Telemetry)
        ensures
            t.wf(),
            telemetry_zeroed(t),
    {
        let mut ring: Vec<u64> = Vec::new();
        let mut i: usize = 0;
        while i < ACTIVITY_SLOTS
            invariant
                i <= ACTIVITY_SLOTS,
                ring@.len() == i,
                forall|k: int| 0 <= k < i ==> #[trigger] ring@[k] == 0,
            decreases ACTIVITY_SLOTS - i,
        {
            ring.push(0);
            i = i + 1;
        }
        Telemetry {
            messages_sent: 0,
            messages_received: 0,
            bytes_sent: 0,
            bytes_received: 0,
            connection_uptime: 0,
            latency_ms: 0,
            network_activity: ring,
            last_activity_total: 0,
        }
    }
}

/// Whether keys navigate or type into the input line.
#[derive(Debug, Clone, PartialEq, Eq)]
pub enum InputMode {
    Normal,
    Editing,
}

/// The first position in `s` holding a user of that name, or -1 if none.
pub open spec fn first_user_index(s: Seq<User>, name: Seq<char>) -> int
    decreases s.len(),
{
    if s.len() == 0 {
        -1
    } else if s[0].username@ == name {
        0
    } else {
        let r = first_user_index(s.drop_first(), name);
        if r < 0 {
            -1
        } else {
            r + 1
        }
    }
}

pub proof fn lemma_first_user_index(s: Seq<User>, name: Seq<char>)
    ensures
        first_user_index(s, name) == -1 ==> forall|k: int|
            0 <= k < s.len() ==> (#[trigger] s[k]).username@ != name,
        first_user_index(s, name) >= 0 ==> {
            let r = first_user_index(s, name);
            &&& r < s.len()
            &&& s[r].username@ == name
            &&& forall|k: int| 0 <= k < r ==> (#[trigger] s[k]).username@ != name
        },
    decreases s.len(),
{
    if s.len() > 0 && s[0].username@ != name {
        lemma_first_user_index(s.drop_first(), name);
        let rd = first_user_index(s.drop_first(), name);
        if rd < 0 {
            assert forall|k: int| 0 <= k < s.len() implies (#[trigger] s[k]).username@ != name by {
                if k > 0 {
                    assert(s.drop_first()[k - 1] == s[k]);
                }
            }
        } else {
            assert(s.drop_first()[rd] == s[rd + 1]);
            assert forall|k: int| 0 <= k < rd + 1 implies (#[trigger] s[k]).username@ != name by {
                if k > 0 {
                    assert(s.drop_first()[k - 1] == s[k]);
                }
            }
        }
    }
}

/// The first position in `s` holding a channel with that id, or -1 if none.
pub open spec fn first_channel_index(s: Seq<Channel>, id: Seq<char>) -> int
    decreases s.len(),
{
    if s.len() == 0 {
        -1
    } else if s[0].id@ == id {
        0
    } else {
        let r = first_channel_index(s.drop_first(), id);
        if r < 0 {
            -1
        } else {
            r + 1
        }
    }
}

pub proof fn lemma_first_channel_index(s: Seq<Channel>, id: Seq<char>)
    ensures
        first_channel_index(s, id) == -1 ==> forall|k: int|
            0 <= k < s.len() ==> (#[trigger] s[k]).id@ != id,
        first_channel_index(s, id) >= 0 ==> {
            let r = first_channel_index(s, id);
            &&& r < s.len()
            &&& s[r].id@ == id
            &&& forall|k: int| 0 <= k < r ==> (#[trigger] s[k]).id@ != id
        },
    decreases s.len(),
{
    if s.len() > 0 && s[0].id@ != id {
        lemma_first_channel_index(s.drop_first(), id);
        let rd = first_channel_index(s.drop_first(), id);
        if rd < 0 {
            assert forall|k: int| 0 <= k < s.len() implies (#[trigger] s[k]).id@ != id by {
                if k > 0 {
                    assert(s.drop_first()[k - 1] == s[k]);
                }
            }
        } else {
            assert(s.drop_first()[rd] == s[rd + 1]);
            assert forall|k: int| 0 <= k < rd + 1 implies (#[trigger] s[k]).id@ != id by {
                if k > 0 {
                    assert(s.drop_first()[k - 1] == s[k]);
                }
            }
        }
    }
}

/// A well-formed two-party channel id: the tag, then the two usernames
/// joined by a colon, neither holding a colon itself.
pub open spec fn is_dm_id(s: Seq<char>, u1: Seq<char>, u2: Seq<char>) -> bool {
    &&& s == "dm:"@ + u1 + seq![':'] + u2
    &&& !u1.contains(':')
    &&& !u2.contains(':')
}

/// The characters of `v` from `a` up to `b`.
fn vec_slice(v: &Vec<char>, a: usize, b: usize) -> (r: Vec<char>)
    requires
        a <= b <= v@.len(),
    ensures
        r@ == v@.subrange(a as int, b as int),
{
    let mut r: Vec<char> = Vec::new();
    let mut i: usize = a;
    while i < b
        invariant
            a <= i <= b <= v@.len(),
            r@ == v@.subrange(a as int, i as int),
        decreases b - i,
    {
        r.push(v[i]);
        i = i + 1;
        assert(r@ =~= v@.subrange(a as int, i as int));
    }
    r
}

/// Splits a two-party channel id into its two usernames; `None` when the id
/// is not of that form.
pub fn parse_dm_id(s: &str) -> (r: Option<(String, String)>)
    ensures
        match r {
            Some(p) => is_dm_id(s@, p.0@, p.1@),
            None => forall|u1: Seq<char>, u2: Seq<char>| !is_dm_id(s@, u1, u2),
        },
{
    proof {
        reveal_strlit("dm:");
    }
    let v = crate::text::str_to_chars(s);
    let n = v.len();
    if n < 4 || v[0] != 'd' || v[1] != 'm' || v[2] != ':' {
        proof {
            assert forall|u1: Seq<char>, u2: Seq<char>| true implies !is_dm_id(s@, u1, u2) by {
                if is_dm_id(s@, u1, u2) {
                    let t = "dm:"@ + u1 + seq![':'] + u2;
                    assert(s@.len() == 4 + u1.len() + u2.len());
                    assert(t[0] == 'd');
                    assert(t[1] == 'm');
                    assert(t[2] == ':');
                }
            };
        }
        return None;
    }
    let mut colon: usize = 0;
    let mut found = false;
    let mut multiple = false;
    let ghost mut colon2: int = 0;
    let mut i: usize = 3;
    while i < n
        invariant
            v@ == s@,
            n == v@.len(),
            3 <= i <= n,
            found ==> 3 <= colon < i && v@[colon as int] == ':',
            !found ==> forall|t: int| 3 <= t < i ==> v@[t] != ':',
            multiple ==> found && colon < colon2 < i && v@[colon2] == ':',
            (found && !multiple) ==> forall|t: int|
                3 <= t < i && t != colon ==> v@[t] != ':',
        decreases n - i,
    {
        if v[i] == ':' {
            if found {
                if !multiple {
                    multiple = true;
                    proof {
                        colon2 = i as int;
                    }
                }
            } else {
                found = true;
                colon = i;
            }
        }
        i = i + 1;
    }
    if !found {
        proof {
            assert forall|u1: Seq<char>, u2: Seq<char>| true implies !is_dm_id(s@, u1, u2) by {
                if is_dm_id(s@, u1, u2) {
                    let t = "dm:"@ + u1 + seq![':'] + u2;
                    let p = 3 + u1.len() as int;
                    assert(t[p] == ':');
                    assert(3 <= p < n);
                }
            };
        }
        return None;
    }
    if multiple {
        proof {
            assert forall|u1: Seq<char>, u2: Seq<char>| true implies !is_dm_id(s@, u1, u2) by {
                if is_dm_id(s@, u1, u2) {
                    let t = "dm:"@ + u1 + seq![':'] + u2;
                    let p = 3 + u1.len() as int;
                    // any colon at or after the tag sits exactly at `p`
                    assert(colon == p) by {
                        if colon < p {
                            assert(t[colon as int] == u1[colon - 3]);
                            assert(u1.contains(':'));
                        }
                        if colon > p {
                            assert(t[colon as int] == u2[colon - p - 1]);
                            assert(u2.contains(':'));
                        }
                    };
                    assert(colon2 == p) by {
                        if colon2 < p {
                            assert(t[colon2] == u1[colon2 - 3]);
                            assert(u1.contains(':'));
                        }
                        if colon2 > p {
                            assert(t[colon2] == u2[colon2 - p - 1]);
                            assert(u2.contains(':'));
                        }
                    };
                }
            };
        }
        return None;
    }
    let u1v = vec_slice(&v, 3, colon);
    let u2v = vec_slice(&v, colon + 1, n);
    let a = crate::text::chars_to_string(&u1v);
    let b = crate::text::chars_to_string(&u2v);
    proof {
        assert(s@ =~= "dm:"@ + u1v@ + seq![':'] + u2v@);
        assert(!u1v@.contains(':')) by {
            if u1v@.contains(':') {
                let j = choose|j: int| 0 <= j < u1v@.len() && u1v@[j] == ':';
                assert(v@[3 + j] == ':');
            }
        };
        assert(!u2v@.contains(':')) by {
            if u2v@.contains(':') {
                let j = choose|j: int| 0 <= j < u2v@.len() && u2v@[j] == ':';
                assert(v@[colon + 1 + j] == ':');
            }
        };
    }
    Some((a, b))
}

/// The new messages are the old ones with exactly one system notice of this
/// content appended, under the ring bound.
pub open spec fn appended_system(
    old_msgs: Seq<ChatMessage>,
    new_msgs: Seq<ChatMessage>,
    content: Seq<char>,
) -> bool {
    exists|m: ChatMessage|
        m.is_system && m.sender@ == "SYSTEM"@ && m.content@ == content && new_msgs == #[trigger]
        ring_append(old_msgs, m)
}

/// Finds the position of the channel carrying this id, if any.
fn find_channel(channels: &Vec<Channel>, id: &str) -> (r: Option<usize>)
    ensures
        match r {
            Some(k) => k == first_channel_index(channels@, id@) && k < channels@.len()
                && channels@[k as int].id@ == id@,
            None => first_channel_index(channels@, id@) == -1 && forall|j: int|
                0 <= j < channels@.len() ==> (#[trigger] channels@[j]).id@ != id@,
        },
{
    let mut k: usize = 0;
    let n = channels.len();
    while k < n
        invariant
            n == channels@.len(),
            k <= n,
            forall|t: int| 0 <= t < k ==> (#[trigger] channels@[t]).id@ != id@,
        decreases n - k,
    {
        if crate::text::str_eq(channels[k].id.as_str(), id) {
            proof {
                lemma_first_channel_index(channels@, id@);
                let r = first_channel_index(channels@, id@);
                if r == -1 {
                    assert(channels@[k as int].id@ != id@);
                }
                if 0 <= r < k {
                    assert(channels@[r].id@ != id@);
                }
                if r > k {
                    assert(channels@[k as int].id@ != id@);
                }
            }
            return Some(k);
        }
        k = k + 1;
    }
    proof {
        lemma_first_channel_index(channels@, id@);
        let r = first_channel_index(channels@, id@);
        if r >= 0 {
            assert(channels@[r].id@ != id@);
        }
    }
    None
}

/// Finds the position of the first user of this name, if any.
fn find_user(users: &Vec<User>, name: &str) -> (r: Option<usize>)
    ensures
        match r {
            Some(k) => k == first_user_index(users@, name@) && k < users@.len()
                && users@[k as int].username@ == name@,
            None => first_user_index(users@, name@) == -1 && forall|j: int|
                0 <= j < users@.len() ==> (#[trigger] users@[j]).username@ != name@,
        },
{
    let mut k: usize = 0;
    let n = users.len();
    while k < n
        invariant
            n == users@.len(),
            k <= n,
            forall|t: int| 0 <= t < k ==> (#[trigger] users@[t]).username@ != name@,
        decreases n - k,
    {
        if crate::text::str_eq(users[k].username.as_str(), name) {
            proof {
                lemma_first_user_index(users@, name@);
                let r = first_user_index(users@, name@);
                if r == -1 {
                    assert(users@[k as int].username@ != name@);
                }
                if 0 <= r < k {
                    assert(users@[r].username@ != name@);
                }
                if r > k {
                    assert(users@[k as int].username@ != name@);
                }
            }
            return Some(k);
        }
        k = k + 1;
    }
    proof {
        lemma_first_user_index(users@, name@);
        let r = first_user_index(users@, name@);
        if r >= 0 {
            assert(users@[r].username@ != name@);
        }
    }
    None
}

/// The sidebar's order on channel ids: the global channel first, the rest
/// lexicographically.
pub open spec fn channel_le(a: Seq<char>, b: Seq<char>) -> bool {
    if a == "global"@ {
        true
    } else if b == "global"@ {
        false
    } else {
        a == b || lex_lt(a, b)
    }
}

/// Any two ids are ordered one way or the other.
pub proof fn lemma_channel_le_total(a: Seq<char>, b: Seq<char>)
    ensures
        channel_le(a, b) || channel_le(b, a),
{
    if a != "global"@ && b != "global"@ && a != b {
        if !lex_lt(a, b) && !lex_lt(b, a) {
            lemma_lex_lt_connex(a, b);
        }
    }
}

/// The order chains.
pub proof fn lemma_channel_le_trans(a: Seq<char>, b: Seq<char>, c: Seq<char>)
    requires
        channel_le(a, b),
        channel_le(b, c),
    ensures
        channel_le(a, c),
{
    if a != "global"@ {
        assert(b != "global"@);
        assert(c != "global"@ || !channel_le(b, c) || b == "global"@);
        if a != b && b != c {
            crate::text::lemma_lex_lt_transitive(a, b, c);
        }
    }
}

/// Some entry of the list reads `x`.
pub open spec fn list_has(l: Seq<String>, x: Seq<char>) -> bool {
    exists|i: int| 0 <= i < l.len() && (#[trigger] l[i])@ == x
}

fn channel_le_exec(a: &str, b: &str) -> (r: bool)
    ensures
        r == channel_le(a@, b@),
{
    if crate::text::str_eq(a, "global") {
        true
    } else if crate::text::str_eq(b, "global") {
        false
    } else {
        crate::text::str_eq(a, b) || str_lex_lt(a, b)
    }
}

/// The whole client-side state model. Mutated only through the methods
/// below, by network events and local actions, never by the transport
/// directly.
pub struct App {
    /// The local user's identity.
    pub username: String,
    /// All channels, each under a unique id. The global channel exists from
    /// the start; channels are never destroyed during a session.
    pub channels: Vec<Channel>,
    /// The id of the channel being shown; always one of `channels`.
    pub active_channel: String,
    /// Cursor in the channel sidebar.
    pub selected_channel: usize,
    /// The input line being typed, and the cursor position in it.
    pub input: Vec<char>,
    pub input_cursor: usize,
    pub input_mode: InputMode,
    /// Everyone seen so far, except the local user.
    pub users: Vec<User>,
    /// Cursor in the roster, for opening a conversation.
    pub selected_user: usize,
    /// Scroll position in the active channel.
    pub scroll_position: usize,
    pub telemetry: Telemetry,
    pub is_connected: bool,
    pub should_quit: bool,
}

impl App {
    /// The channel ids, in storage order.
    pub open spec fn channel_ids(&self) -> Seq<Seq<char>> {
        self.channels@.map_values(|c: Channel| c.id@)
    }

    /// Some channel carries this id.
    pub open spec fn has_channel(&self, id: Seq<char>) -> bool {
        exists|j: int| 0 <= j < self.channels@.len() && (#[trigger] self.channels@[j]).id@ == id
    }

    /// State sanity: channel ids are unique, the active channel exists,
    /// every ring is within capacity, the telemetry ring is full-length, the
    /// input cursor is inside the line, and the roster cursor is in range.
    pub open spec fn wf(&self) -> bool {
        &&& forall|i: int, j: int|
            0 <= i < j < self.channels@.len() ==> (#[trigger] self.channels@[i]).id@ != (
            #[trigger] self.channels@[j]).id@
        &&& self.has_channel(self.active_channel@)
        &&& forall|i: int| 0 <= i < self.channels@.len() ==> (#[trigger] self.channels@[i]).wf()
        &&& self.telemetry.wf()
        &&& self.input_cursor <= self.input@.len()
        &&& self.users@.len() == 0 ==> self.selected_user == 0
        &&& self.users@.len() > 0 ==> self.selected_user < self.users@.len()
    }

    /// A fresh session for `username`: one global channel greeting the user,
    /// an empty roster, zeroed telemetry, not yet connected.
    pub fn new(username: String) -> (app: App)
        ensures
            app.wf(),
            app.username@ == username@,
            app.channels@.len() == 1,
            app.channels@[0].id@ == "global"@,
            app.channels@[0].channel_type is Global,
            app.channels@[0].unread_count == 0,
            app.channels@[0].messages@.len() == 1,
            app.channels@[0].messages@[0].is_system,
            app.channels@[0].messages@[0].sender@ == "SYSTEM"@,
            app.channels@[0].messages@[0].content@ == "Welcome to GhostWire, "@ + username@
                + "!"@,
            app.active_channel@ == "global"@,
            app.selected_channel == 0,
            app.input@.len() == 0,
            app.input_cursor == 0,
            app.input_mode is Normal,
            app.users@.len() == 0,
            app.selected_user == 0,
            app.scroll_position == 0,
            telemetry_zeroed(app.telemetry),
            !app.is_connected,
            !app.should_quit,
    {
        let mut greeting = String::from_str("Welcome to GhostWire, ");
        greeting.append(username.as_str());
        greeting.append("!");
        let mut global_channel = Channel::global();
        global_channel.add_message(ChatMessage::system(greeting));
        let mut channels: Vec<Channel> = Vec::new();
        channels.push(global_channel);
        let app = App {
            username,
            channels,
            active_channel: String::from_str("global"),
            selected_channel: 0,
            input: Vec::new(),
            input_cursor: 0,
            input_mode: InputMode::Normal,
            users: Vec::new(),
            selected_user: 0,
            scroll_position: 0,
            telemetry: Telemetry::default(),
            is_connected: false,
            should_quit: false,
        };
        proof {
            assert(app.channels@[0].id@ == app.active_channel@);
        }
        app
    }

    /// Starts typing: the cursor lands at the end of the line.
    pub fn enter_edit_mode(&mut self)
        requires
            old(self).wf(),
        ensures
            final(self).wf(),
            final(self).input_mode is Editing,
            final(self).input_cursor == old(self).input@.len(),
            *final(self) == (App {
                input_mode: InputMode::Editing,
                input_cursor: final(self).input_cursor,
                ..*old(self)
            }),
    {
        self.input_mode = InputMode::Editing;
        self.input_cursor = self.input.len();
    }

    /// Back to navigation; the line keeps its contents.
    pub fn exit_edit_mode(&mut self)
        requires
            old(self).wf(),
        ensures
            final(self).wf(),
            *final(self) == (App { input_mode: InputMode::Normal, ..*old(self) }),
    {
        self.input_mode = InputMode::Normal;
    }

    /// Types one character at the cursor.
    pub fn input_char(&mut self, c: char)
        requires
            old(self).wf(),
            old(self).input@.len() < usize::MAX,
        ensures
            final(self).wf(),
            final(self).input@ == old(self).input@.insert(old(self).input_cursor as int, c),
            final(self).input_cursor == old(self).input_cursor + 1,
            *final(self) == (App {
                input: final(self).input,
                input_cursor: final(self).input_cursor,
                ..*old(self)
            }),
    {
        self.input.insert(self.input_cursor, c);
        self.input_cursor = self.input_cursor + 1;
    }

    /// Deletes the character before the cursor, if any.
    pub fn input_backspace(&mut self)
        requires
            old(self).wf(),
        ensures
            final(self).wf(),
            old(self).input_cursor == 0 ==> *final(self) == *old(self),
            old(self).input_cursor > 0 ==> final(self).input@ == old(self).input@.remove(
                old(self).input_cursor - 1,
            ) && final(self).input_cursor == old(self).input_cursor - 1,
            *final(self) == (App {
                input: final(self).input,
                input_cursor: final(self).input_cursor,
                ..*old(self)
            }),
    {
        if self.input_cursor > 0 {
            self.input.remove(self.input_cursor - 1);
            self.input_cursor = self.input_cursor - 1;
        }
    }

    /// Moves the cursor one character left, stopping at the start.
    pub fn input_cursor_left(&mut self)
        requires
            old(self).wf(),
        ensures
            final(self).wf(),
            final(self).input_cursor == (if old(self).input_cursor > 0 {
                old(self).input_cursor - 1
            } else {
                0int
            }),
            *final(self) == (App { input_cursor: final(self).input_cursor, ..*old(self) }),
    {
        if self.input_cursor > 0 {
            self.input_cursor = self.input_cursor - 1;
        }
    }

    /// Moves the cursor one character right, stopping at the end.
    pub fn input_cursor_right(&mut self)
        requires
            old(self).wf(),
        ensures
            final(self).wf(),
            final(self).input_cursor == (if old(self).input_cursor < old(self).input@.len() {
                old(self).input_cursor + 1
            } else {
                old(self).input_cursor as int
            }),
            *final(self) == (App { input_cursor: final(self).input_cursor, ..*old(self) }),
    {
        if self.input_cursor < self.input.len() {
            self.input_cursor = self.input_cursor + 1;
        }
    }

    /// Hands back the typed line and clears it.
    pub fn take_input(&mut self) -> (r: String)
        requires
            old(self).wf(),
        ensures
            final(self).wf(),
            r@ == old(self).input@,
            final(self).input@.len() == 0,
            final(self).input_cursor == 0,
            *final(self) == (App {
                input: final(self).input,
                input_cursor: 0,
                ..*old(self)
            }),
    {
        let r = chars_to_string(&self.input);
        self.input = Vec::new();
        self.input_cursor = 0;
        r
    }

    /// Scrolls the chat one message up, stopping at the oldest.
    pub fn scroll_up(&mut self)
        requires
            old(self).wf(),
        ensures
            final(self).wf(),
            final(self).scroll_position == (if old(self).scroll_position > 0 {
                old(self).scroll_position - 1
            } else {
                0int
            }),
            *final(self) == (App { scroll_position: final(self).scroll_position, ..*old(self) }),
    {
        if self.scroll_position > 0 {
            self.scroll_position = self.scroll_position - 1;
        }
    }

    /// Moves the sidebar cursor one channel up.
    pub fn select_previous_channel(&mut self)
        requires
            old(self).wf(),
        ensures
            final(self).wf(),
            final(self).selected_channel == (if old(self).selected_channel > 0 {
                old(self).selected_channel - 1
            } else {
                0int
            }),
            *final(self) == (App {
                selected_channel: final(self).selected_channel,
                ..*old(self)
            }),
    {
        if self.selected_channel > 0 {
            self.selected_channel = self.selected_channel - 1;
        }
    }

    /// Moves the sidebar cursor one channel down, stopping at the last.
    pub fn select_next_channel(&mut self)
        requires
            old(self).wf(),
        ensures
            final(self).wf(),
            final(self).selected_channel == (if old(self).selected_channel + 1
                < old(self).channels@.len() {
                old(self).selected_channel + 1
            } else {
                old(self).selected_channel as int
            }),
            *final(self) == (App {
                selected_channel: final(self).selected_channel,
                ..*old(self)
            }),
    {
        let channel_count = self.channels.len();
        if self.selected_channel < channel_count.saturating_sub(1) {
            self.selected_channel = self.selected_channel + 1;
        }
    }

    /// Moves the roster cursor one user up.
    pub fn select_previous_user(&mut self)
        requires
            old(self).wf(),
        ensures
            final(self).wf(),
            final(self).selected_user == (if old(self).selected_user > 0 {
                old(self).selected_user - 1
            } else {
                0int
            }),
            *final(self) == (App { selected_user: final(self).selected_user, ..*old(self) }),
    {
        if self.selected_user > 0 {
            self.selected_user = self.selected_user - 1;
        }
    }

    /// Moves the roster cursor one user down, stopping at the last.
    pub fn select_next_user(&mut self)
        requires
            old(self).wf(),
        ensures
            final(self).wf(),
            final(self).selected_user == (if old(self).selected_user + 1 < old(self).users@.len() {
                old(self).selected_user + 1
            } else {
                old(self).selected_user as int
            }),
            *final(self) == (App { selected_user: final(self).selected_user, ..*old(self) }),
    {
        if self.selected_user < self.users.len().saturating_sub(1) {
            self.selected_user = self.selected_user + 1;
        }
    }

    /// Replaces the whole telemetry block.
    pub fn update_telemetry(&mut self, telemetry: Telemetry)
        requires
            old(self).wf(),
            telemetry.wf(),
        ensures
            final(self).wf(),
            *final(self) == (App { telemetry, ..*old(self) }),
    {
        self.telemetry = telemetry;
    }

    /// Advances the uptime counter.
    pub fn increment_uptime(&mut self, seconds: u64)
        requires
            old(self).wf(),
            old(self).telemetry.connection_uptime + seconds <= u64::MAX,
        ensures
            final(self).wf(),
            final(self).telemetry.connection_uptime == old(self).telemetry.connection_uptime
                + seconds,
            *final(self) == (App {
                telemetry: (Telemetry {
                    connection_uptime: final(self).telemetry.connection_uptime,
                    ..old(self).telemetry
                }),
                ..*old(self)
            }),
    {
        self.telemetry.connection_uptime = self.telemetry.connection_uptime + seconds;
    }

    /// Records a fresh latency estimate.
    pub fn update_latency(&mut self, latency_ms: u64)
        requires
            old(self).wf(),
        ensures
            final(self).wf(),
            *final(self) == (App {
                telemetry: (Telemetry { latency_ms, ..old(self).telemetry }),
                ..*old(self)
            }),
    {
        self.telemetry.latency_ms = latency_ms;
    }

    /// Scrolls the chat to the newest message of the active channel.
    pub fn scroll_to_bottom(&mut self)
        requires
            old(self).wf(),
        ensures
            final(self).wf(),
            forall|j: int|
                0 <= j < old(self).channels@.len() && (#[trigger] old(self).channels@[j]).id@
                    == old(self).active_channel@ ==> final(self).scroll_position == (
                if old(self).channels@[j].messages@.len() > 0 {
                    old(self).channels@[j].messages@.len() - 1
                } else {
                    0int
                }),
            *final(self) == (App { scroll_position: final(self).scroll_position, ..*old(self) }),
    {
        if let Some(k) = find_channel(&self.channels, self.active_channel.as_str()) {
            self.scroll_position = self.channels[k].messages.len().saturating_sub(1);
            proof {
                assert forall|j: int|
                    0 <= j < self.channels@.len() && (#[trigger] self.channels@[j]).id@
                        == self.active_channel@ implies j == k by {
                    if j != k {
                        assert(self.channels@[j].id@ != self.channels@[k as int].id@);
                    }
                };
            }
        }
    }

    /// Scrolls the chat one message down, stopping at the newest.
    pub fn scroll_down(&mut self)
        requires
            old(self).wf(),
        ensures
            final(self).wf(),
            forall|j: int|
                0 <= j < old(self).channels@.len() && (#[trigger] old(self).channels@[j]).id@
                    == old(self).active_channel@ ==> final(self).scroll_position == ({
                    let max_scroll = if old(self).channels@[j].messages@.len() > 0 {
                        old(self).channels@[j].messages@.len() - 1
                    } else {
                        0int
                    };
                    if old(self).scroll_position < max_scroll {
                        old(self).scroll_position + 1
                    } else {
                        old(self).scroll_position as int
                    }
                }),
            *final(self) == (App { scroll_position: final(self).scroll_position, ..*old(self) }),
    {
        if let Some(k) = find_channel(&self.channels, self.active_channel.as_str()) {
            let max_scroll = self.channels[k].messages.len().saturating_sub(1);
            if self.scroll_position < max_scroll {
                self.scroll_position = self.scroll_position + 1;
            }
            proof {
                assert forall|j: int|
                    0 <= j < self.channels@.len() && (#[trigger] self.channels@[j]).id@
                        == self.active_channel@ implies j == k by {
                    if j != k {
                        assert(self.channels@[j].id@ != self.channels@[k as int].id@);
                    }
                };
            }
        }
    }

    /// Appends a message to the active channel and scrolls to it. Every
    /// other channel is left alone.
    pub fn add_message(&mut self, message: ChatMessage)
        requires
            old(self).wf(),
        ensures
            final(self).wf(),
            final(self).channels@.len() == old(self).channels@.len(),
            forall|j: int|
                0 <= j < old(self).channels@.len() && (#[trigger] old(self).channels@[j]).id@
                    == old(self).active_channel@ ==> {
                    &&& final(self).channels@[j].messages@ == ring_append(
                        old(self).channels@[j].messages@,
                        message,
                    )
                    &&& final(self).channels@[j].id == old(self).channels@[j].id
                    &&& final(self).channels@[j].channel_type == old(self).channels@[j].channel_type
                    &&& final(self).channels@[j].unread_count
                        == old(self).channels@[j].unread_count
                    &&& final(self).scroll_position == final(self).channels@[j].messages@.len() - 1
                },
            forall|j: int|
                0 <= j < old(self).channels@.len() && (#[trigger] old(self).channels@[j]).id@
                    != old(self).active_channel@ ==> final(self).channels@[j]
                    == old(self).channels@[j],
            *final(self) == (App {
                channels: final(self).channels,
                scroll_position: final(self).scroll_position,
                ..*old(self)
            }),
    {
        let ghost pre = *old(self);
        if let Some(k) = find_channel(&self.channels, self.active_channel.as_str()) {
            let mut ch = self.channels.remove(k);
            ch.add_message(message);
            self.channels.insert(k, ch);
            proof {
                assert(self.channels@ =~= pre.channels@.update(
                    k as int,
                    self.channels@[k as int],
                ));
                assert forall|j: int|
                    0 <= j < pre.channels@.len() && (#[trigger] pre.channels@[j]).id@
                        == pre.active_channel@ implies j == k by {
                    if j != k {
                        assert(pre.channels@[j].id@ != pre.channels@[k as int].id@);
                    }
                };
                assert(self.has_channel(self.active_channel@)) by {
                    assert(self.channels@[k as int].id@ == self.active_channel@);
                };
            }
            self.scroll_to_bottom();
        }
    }

    /// Switches the shown conversation: the target channel's unread counter
    /// is zeroed — and only its counter — and the view scrolls to its newest
    /// message. An id no channel carries changes nothing.
    pub fn switch_channel(&mut self, channel_id: String)
        requires
            old(self).wf(),
        ensures
            final(self).wf(),
            !old(self).has_channel(channel_id@) ==> *final(self) == *old(self),
            old(self).has_channel(channel_id@) ==> {
                &&& final(self).active_channel@ == channel_id@
                &&& final(self).channels@.len() == old(self).channels@.len()
                &&& forall|j: int|
                    0 <= j < old(self).channels@.len() && (#[trigger] old(self).channels@[j]).id@
                        == channel_id@ ==> final(self).channels@[j] == (Channel {
                        unread_count: 0,
                        ..old(self).channels@[j]
                    }) && final(self).scroll_position == (
                    if old(self).channels@[j].messages@.len() > 0 {
                        old(self).channels@[j].messages@.len() - 1
                    } else {
                        0int
                    })
                &&& forall|j: int|
                    0 <= j < old(self).channels@.len() && (#[trigger] old(self).channels@[j]).id@
                        != channel_id@ ==> final(self).channels@[j] == old(self).channels@[j]
                &&& *final(self) == (App {
                    channels: final(self).channels,
                    active_channel: final(self).active_channel,
                    scroll_position: final(self).scroll_position,
                    ..*old(self)
                })
            },
    {
        let ghost pre = *old(self);
        if let Some(k) = find_channel(&self.channels, channel_id.as_str()) {
            self.active_channel = channel_id;
            proof {
                assert(self.has_channel(self.active_channel@)) by {
                    assert(self.channels@[k as int].id@ == self.active_channel@);
                };
            }
            self.scroll_to_bottom();
            let mut ch = self.channels.remove(k);
            ch.unread_count = 0;
            self.channels.insert(k, ch);
            proof {
                assert(self.channels@ =~= pre.channels@.update(
                    k as int,
                    self.channels@[k as int],
                ));
                assert forall|j: int|
                    0 <= j < pre.channels@.len() && (#[trigger] pre.channels@[j]).id@
                        == pre.active_channel@ implies self.channels@[j].messages@
                    == pre.channels@[j].messages@ by {}
                assert forall|j: int|
                    0 <= j < pre.channels@.len() && (#[trigger] pre.channels@[j]).id@ == channel_id@
                        implies j == k by {
                    if j != k {
                        assert(pre.channels@[j].id@ != pre.channels@[k as int].id@);
                    }
                };
                assert(self.has_channel(self.active_channel@)) by {
                    assert(self.channels@[k as int].id@ == self.active_channel@);
                };
            }
        }
    }

    /// Adds a newly seen user to the roster and posts a join notice to the
    /// active channel. The local user's own name is never added, and a name
    /// already present is left alone.
    pub fn add_user(&mut self, user: User)
        requires
            old(self).wf(),
        ensures
            final(self).wf(),
            user.username@ == old(self).username@ ==> *final(self) == *old(self),
            user.username@ != old(self).username@ && first_user_index(
                old(self).users@,
                user.username@,
            ) >= 0 ==> *final(self) == *old(self),
            user.username@ != old(self).username@ && first_user_index(
                old(self).users@,
                user.username@,
            ) == -1 ==> {
                &&& final(self).users@ == old(self).users@.push(user)
                &&& final(self).channels@.len() == old(self).channels@.len()
                &&& forall|j: int|
                    0 <= j < old(self).channels@.len() && (#[trigger] old(self).channels@[j]).id@
                        == old(self).active_channel@ ==> appended_system(
                        old(self).channels@[j].messages@,
                        final(self).channels@[j].messages@,
                        user.username@ + " joined the chat"@,
                    ) && final(self).channels@[j].id == old(self).channels@[j].id
                        && final(self).channels@[j].channel_type == old(self).channels@[j].channel_type
                        && final(self).channels@[j].unread_count == old(self).channels@[j].unread_count
                &&& forall|j: int|
                    0 <= j < old(self).channels@.len() && (#[trigger] old(self).channels@[j]).id@
                        != old(self).active_channel@ ==> final(self).channels@[j]
                        == old(self).channels@[j]
                &&& *final(self) == (App {
                    users: final(self).users,
                    channels: final(self).channels,
                    scroll_position: final(self).scroll_position,
                    ..*old(self)
                })
            },
    {
        if crate::text::str_eq(user.username.as_str(), self.username.as_str()) {
            return ;
        }
        if find_user(&self.users, user.username.as_str()).is_none() {
            let content = user.username.clone().concat(" joined the chat");
            self.users.push(user);
            let m = ChatMessage::system(content);
            let ghost gm = m;
            self.add_message(m);
            proof {
                assert forall|j: int|
                    0 <= j < old(self).channels@.len() && (#[trigger] old(self).channels@[j]).id@
                        == old(self).active_channel@ implies appended_system(
                    old(self).channels@[j].messages@,
                    self.channels@[j].messages@,
                    user.username@ + " joined the chat"@,
                ) by {
                    assert(self.channels@[j].messages@ == ring_append(
                        old(self).channels@[j].messages@,
                        gm,
                    ));
                };
            }
        }
    }

    /// Removes a user from the roster on an explicit leave notice, posts the
    /// leave message, and keeps the roster cursor in range.
    pub fn remove_user(&mut self, username: &str)
        requires
            old(self).wf(),
        ensures
            final(self).wf(),
            first_user_index(old(self).users@, username@) == -1 ==> *final(self) == *old(self),
            first_user_index(old(self).users@, username@) >= 0 ==> {
                let p = first_user_index(old(self).users@, username@);
                &&& final(self).users@ == old(self).users@.remove(p)
                &&& final(self).selected_user == (if old(self).selected_user >= old(
                    self,
                ).users@.len() - 1 && old(self).selected_user > 0 {
                    old(self).users@.len() - 2
                } else {
                    old(self).selected_user as int
                })
                &&& final(self).channels@.len() == old(self).channels@.len()
                &&& forall|j: int|
                    0 <= j < old(self).channels@.len() && (#[trigger] old(self).channels@[j]).id@
                        == old(self).active_channel@ ==> appended_system(
                        old(self).channels@[j].messages@,
                        final(self).channels@[j].messages@,
                        username@ + " left the chat"@,
                    ) && final(self).channels@[j].id == old(self).channels@[j].id
                        && final(self).channels@[j].channel_type == old(self).channels@[j].channel_type
                        && final(self).channels@[j].unread_count == old(self).channels@[j].unread_count
                &&& forall|j: int|
                    0 <= j < old(self).channels@.len() && (#[trigger] old(self).channels@[j]).id@
                        != old(self).active_channel@ ==> final(self).channels@[j]
                        == old(self).channels@[j]
                &&& *final(self) == (App {
                    users: final(self).users,
                    selected_user: final(self).selected_user,
                    channels: final(self).channels,
                    scroll_position: final(self).scroll_position,
                    ..*old(self)
                })
            },
    {
        if let Some(k) = find_user(&self.users, username) {
            self.users.remove(k);
            if self.selected_user >= self.users.len() && self.selected_user > 0 {
                self.selected_user = self.users.len() - 1;
            }
            let content = username.to_owned().concat(" left the chat");
            let m = ChatMessage::system(content);
            let ghost gm = m;
            self.add_message(m);
            proof {
                assert forall|j: int|
                    0 <= j < old(self).channels@.len() && (#[trigger] old(self).channels@[j]).id@
                        == old(self).active_channel@ implies appended_system(
                    old(self).channels@[j].messages@,
                    self.channels@[j].messages@,
                    username@ + " left the chat"@,
                ) by {
                    assert(self.channels@[j].messages@ == ring_append(
                        old(self).channels@[j].messages@,
                        gm,
                    ));
                };
            }
        }
    }

    /// Marks a user's most recent activity as now; they are online.
    pub fn update_user_activity(&mut self, username: &str)
        requires
            old(self).wf(),
        ensures
            final(self).wf(),
            first_user_index(old(self).users@, username@) == -1 ==> *final(self) == *old(self),
            first_user_index(old(self).users@, username@) >= 0 ==> {
                let p = first_user_index(old(self).users@, username@);
                &&& final(self).users@.len() == old(self).users@.len()
                &&& forall|j: int|
                    0 <= j < old(self).users@.len() && j != p ==> final(self).users@[j] == old(
                        self,
                    ).users@[j]
                &&& final(self).users@[p].username == old(self).users@[p].username
                &&& final(self).users@[p].is_online
                &&& *final(self) == (App { users: final(self).users, ..*old(self) })
            },
    {
        let ghost pre = *old(self);
        if let Some(k) = find_user(&self.users, username) {
            let mut u = self.users.remove(k);
            u.is_online = true;
            u.last_seen = now_ts();
            self.users.insert(k, u);
            proof {
                assert(self.users@ =~= pre.users@.update(k as int, self.users@[k as int]));
            }
        }
    }

    /// Marks a user offline; their last-seen time stays what it was.
    pub fn mark_user_offline(&mut self, username: &str)
        requires
            old(self).wf(),
        ensures
            final(self).wf(),
            first_user_index(old(self).users@, username@) == -1 ==> *final(self) == *old(self),
            first_user_index(old(self).users@, username@) >= 0 ==> {
                let p = first_user_index(old(self).users@, username@);
                &&& final(self).users@.len() == old(self).users@.len()
                &&& forall|j: int|
                    0 <= j < old(self).users@.len() && j != p ==> final(self).users@[j] == old(
                        self,
                    ).users@[j]
                &&& final(self).users@[p] == (User {
                    is_online: false,
                    ..old(self).users@[p]
                })
                &&& *final(self) == (App { users: final(self).users, ..*old(self) })
            },
    {
        let ghost pre = *old(self);
        if let Some(k) = find_user(&self.users, username) {
            let mut u = self.users.remove(k);
            u.is_online = false;
            self.users.insert(k, u);
            proof {
                assert(self.users@ =~= pre.users@.update(k as int, self.users@[k as int]));
            }
        }
    }

    /// Records a connection status change and posts it as a system notice;
    /// setting the status it already has changes nothing.
    pub fn set_connected(&mut self, connected: bool)
        requires
            old(self).wf(),
        ensures
            final(self).wf(),
            connected == old(self).is_connected ==> *final(self) == *old(self),
            connected != old(self).is_connected ==> {
                &&& final(self).is_connected == connected
                &&& final(self).channels@.len() == old(self).channels@.len()
                &&& forall|j: int|
                    0 <= j < old(self).channels@.len() && (#[trigger] old(self).channels@[j]).id@
                        == old(self).active_channel@ ==> appended_system(
                        old(self).channels@[j].messages@,
                        final(self).channels@[j].messages@,
                        if connected {
                            "Connected"@
                        } else {
                            "Disconnected"@
                        },
                    ) && final(self).channels@[j].id == old(self).channels@[j].id
                        && final(self).channels@[j].channel_type == old(self).channels@[j].channel_type
                        && final(self).channels@[j].unread_count == old(self).channels@[j].unread_count
                &&& forall|j: int|
                    0 <= j < old(self).channels@.len() && (#[trigger] old(self).channels@[j]).id@
                        != old(self).active_channel@ ==> final(self).channels@[j]
                        == old(self).channels@[j]
                &&& *final(self) == (App {
                    is_connected: connected,
                    channels: final(self).channels,
                    scroll_position: final(self).scroll_position,
                    ..*old(self)
                })
            },
    {
        if connected != self.is_connected {
            self.is_connected = connected;
            let status = if connected {
                String::from_str("Connected")
            } else {
                String::from_str("Disconnected")
            };
            let m = ChatMessage::system(status);
            let ghost gm = m;
            self.add_message(m);
            proof {
                assert forall|j: int|
                    0 <= j < old(self).channels@.len() && (#[trigger] old(self).channels@[j]).id@
                        == old(self).active_channel@ implies appended_system(
                    old(self).channels@[j].messages@,
                    self.channels@[j].messages@,
                    if connected {
                        "Connected"@
                    } else {
                        "Disconnected"@
                    },
                ) by {
                    assert(self.channels@[j].messages@ == ring_append(
                        old(self).channels@[j].messages@,
                        gm,
                    ));
                };
            }
        }
    }

    /// Advances the activity ring by one second: the oldest sample drops
    /// off and the newest slot takes how many messages the last second saw,
    /// measured against the stored last total.
    pub fn update_network_activity(&mut self)
        requires
            old(self).wf(),
            old(self).telemetry.messages_sent + old(self).telemetry.messages_received
                <= u64::MAX,
        ensures
            final(self).wf(),
            ({
                let total = old(self).telemetry.messages_sent
                    + old(self).telemetry.messages_received;
                let last = old(self).telemetry.last_activity_total;
                let delta = if total >= last {
                    total - last
                } else {
                    0int
                };
                &&& final(self).telemetry.network_activity@ == old(
                    self,
                ).telemetry.network_activity@.subrange(1, ACTIVITY_SLOTS as int).push(delta as u64)
                &&& final(self).telemetry.last_activity_total == total
            }),
            *final(self) == (App {
                telemetry: (Telemetry {
                    network_activity: final(self).telemetry.network_activity,
                    last_activity_total: final(self).telemetry.last_activity_total,
                    ..old(self).telemetry
                }),
                ..*old(self)
            }),
    {
        let current_total = self.telemetry.messages_sent + self.telemetry.messages_received;
        let delta = current_total.saturating_sub(self.telemetry.last_activity_total);
        self.telemetry.network_activity.remove(0);
        self.telemetry.network_activity.push(delta);
        self.telemetry.last_activity_total = current_total;
        proof {
            assert(self.telemetry.network_activity@ =~= old(
                self,
            ).telemetry.network_activity@.subrange(1, ACTIVITY_SLOTS as int).push(delta));
        }
    }

    /// Routes a message to the channel with this id. A two-party id not seen
    /// before creates its channel on the spot, named after whichever of the
    /// two embedded usernames is not the local user. A message landing in a
    /// channel that is not being shown bumps that channel's unread counter —
    /// and only that one; a message to the shown channel scrolls to it
    /// instead. An unknown id of any other shape drops the message.
    pub fn add_message_to_channel(&mut self, channel_id: &str, message: ChatMessage)
        requires
            old(self).wf(),
            forall|j: int|
                0 <= j < old(self).channels@.len() ==> (#[trigger] old(
                    self,
                ).channels@[j]).unread_count < usize::MAX,
        ensures
            final(self).wf(),
            old(self).has_channel(channel_id@) ==> {
                &&& final(self).channels@.len() == old(self).channels@.len()
                &&& forall|j: int|
                    0 <= j < old(self).channels@.len() && (#[trigger] old(self).channels@[j]).id@
                        == channel_id@ ==> {
                        &&& final(self).channels@[j].messages@ == ring_append(
                            old(self).channels@[j].messages@,
                            message,
                        )
                        &&& final(self).channels@[j].id == old(self).channels@[j].id
                        &&& final(self).channels@[j].channel_type == old(
                            self,
                        ).channels@[j].channel_type
                        &&& final(self).channels@[j].unread_count == (if channel_id@ != old(
                            self,
                        ).active_channel@ {
                            old(self).channels@[j].unread_count + 1
                        } else {
                            old(self).channels@[j].unread_count as int
                        })
                        &&& (channel_id@ == old(self).active_channel@
                            ==> final(self).scroll_position == final(self).channels@[j].messages@.len()
                                - 1)
                    }
                &&& forall|j: int|
                    0 <= j < old(self).channels@.len() && (#[trigger] old(self).channels@[j]).id@
                        != channel_id@ ==> final(self).channels@[j] == old(self).channels@[j]
                &&& channel_id@ != old(self).active_channel@ ==> final(self).scroll_position
                    == old(self).scroll_position
                &&& *final(self) == (App {
                    channels: final(self).channels,
                    scroll_position: final(self).scroll_position,
                    ..*old(self)
                })
            },
            (!old(self).has_channel(channel_id@) && (exists|u1: Seq<char>, u2: Seq<char>|
                #[trigger] is_dm_id(channel_id@, u1, u2))) ==> {
                &&& final(self).channels@.len() == old(self).channels@.len() + 1
                &&& forall|j: int|
                    0 <= j < old(self).channels@.len() ==> final(self).channels@[j] == (
                    #[trigger] old(self).channels@[j])
                &&& final(self).channels@.last().id@ == channel_id@
                &&& final(self).channels@.last().messages@ == seq![message]
                &&& final(self).channels@.last().unread_count == 1
                &&& (exists|u1: Seq<char>, u2: Seq<char>|
                    {
                        &&& #[trigger] is_dm_id(channel_id@, u1, u2)
                        &&& final(self).channels@.last().channel_type
                            matches ChannelType::DirectMessage { other_user } && other_user@ == (
                        if u1 == old(self).username@ {
                            u2
                        } else {
                            u1
                        })
                    })
                &&& *final(self) == (App { channels: final(self).channels, ..*old(self) })
            },
            (!old(self).has_channel(channel_id@) && (forall|u1: Seq<char>, u2: Seq<char>|
                !is_dm_id(channel_id@, u1, u2))) ==> *final(self) == *old(self),
    {
        let ghost pre = *old(self);
        if find_channel(&self.channels, channel_id).is_none() {
            if let Some((u1, u2)) = parse_dm_id(channel_id) {
                let ghost gu1 = u1@;
                let ghost gu2 = u2@;
                let other = if crate::text::str_eq(u1.as_str(), self.username.as_str()) {
                    u2
                } else {
                    u1
                };
                let mut ch = Channel::dm(self.username.as_str(), other);
                ch.id = channel_id.to_owned();
                self.channels.push(ch);
                proof {
                    assert(self.has_channel(self.active_channel@)) by {
                        let j = choose|j: int|
                            0 <= j < pre.channels@.len() && pre.channels@[j].id@
                                == pre.active_channel@;
                        assert(self.channels@[j].id@ == self.active_channel@);
                    };
                    assert(self.wf());
                }
            }
        }
        if let Some(k) = find_channel(&self.channels, channel_id) {
            let ghost mid = *self;
            let mut ch = self.channels.remove(k);
            ch.add_message(message);
            if !crate::text::str_eq(channel_id, self.active_channel.as_str()) {
                proof {
                    if k < pre.channels@.len() && mid.channels@ == pre.channels@ {
                        assert(pre.channels@[k as int].unread_count < usize::MAX);
                    }
                }
                ch.unread_count = ch.unread_count + 1;
                self.channels.insert(k, ch);
                proof {
                    assert(self.channels@ =~= mid.channels@.update(
                        k as int,
                        self.channels@[k as int],
                    ));
                    assert(self.has_channel(self.active_channel@)) by {
                        let j = choose|j: int|
                            0 <= j < mid.channels@.len() && mid.channels@[j].id@
                                == mid.active_channel@;
                        assert(self.channels@[j].id@ == self.active_channel@);
                    };
                }
            } else {
                self.channels.insert(k, ch);
                proof {
                    assert(self.channels@ =~= mid.channels@.update(
                        k as int,
                        self.channels@[k as int],
                    ));
                    assert(self.has_channel(self.active_channel@)) by {
                        assert(self.channels@[k as int].id@ == self.active_channel@);
                    };
                }
                self.scroll_to_bottom();
            }
            proof {
                assert forall|j: int|
                    0 <= j < mid.channels@.len() && (#[trigger] mid.channels@[j]).id@
                        == channel_id@ implies j == k by {
                    if j != k {
                        assert(mid.channels@[j].id@ != mid.channels@[k as int].id@);
                    }
                };
                if pre.has_channel(channel_id@) {
                    assert(mid.channels@ == pre.channels@);
                } else {
                    assert(k == pre.channels@.len()) by {
                        if k < pre.channels@.len() {
                            assert(pre.channels@[k as int].id@ == channel_id@);
                        }
                    };
                    assert(self.channels@.last() == self.channels@[k as int]);
                    assert(ring_append(Seq::<ChatMessage>::empty(), message) =~= seq![message]);
                }
            }
        }
    }

    /// Opens (creating it if needed) the two-party conversation with
    /// `other_user` and makes it the shown channel.
    pub fn open_dm(&mut self, other_user: String)
        requires
            old(self).wf(),
        ensures
            final(self).wf(),
            final(self).active_channel@ == dm_id(old(self).username@, other_user@),
            final(self).has_channel(dm_id(old(self).username@, other_user@)),
            old(self).has_channel(dm_id(old(self).username@, other_user@)) ==> {
                &&& final(self).channels@.len() == old(self).channels@.len()
                &&& forall|j: int|
                    0 <= j < old(self).channels@.len() && (#[trigger] old(self).channels@[j]).id@
                        == dm_id(old(self).username@, other_user@) ==> final(self).channels@[j]
                        == (Channel { unread_count: 0, ..old(self).channels@[j] })
                        && final(self).scroll_position == (
                    if old(self).channels@[j].messages@.len() > 0 {
                        old(self).channels@[j].messages@.len() - 1
                    } else {
                        0int
                    })
                &&& forall|j: int|
                    0 <= j < old(self).channels@.len() && (#[trigger] old(self).channels@[j]).id@
                        != dm_id(old(self).username@, other_user@) ==> final(self).channels@[j]
                        == old(self).channels@[j]
            },
            !old(self).has_channel(dm_id(old(self).username@, other_user@)) ==> {
                &&& final(self).channels@.len() == old(self).channels@.len() + 1
                &&& forall|j: int|
                    0 <= j < old(self).channels@.len() ==> final(self).channels@[j] == (
                    #[trigger] old(self).channels@[j])
                &&& final(self).channels@.last().id@ == dm_id(old(self).username@, other_user@)
                &&& final(self).channels@.last().messages@.len() == 0
                &&& final(self).channels@.last().unread_count == 0
                &&& final(self).channels@.last().channel_type
                    matches ChannelType::DirectMessage { other_user: o } && o@ == other_user@
                &&& final(self).scroll_position == 0
            },
            *final(self) == (App {
                channels: final(self).channels,
                active_channel: final(self).active_channel,
                scroll_position: final(self).scroll_position,
                ..*old(self)
            }),
    {
        let ghost pre = *old(self);
        let ch = Channel::dm(self.username.as_str(), other_user);
        let ghost gch = ch;
        let channel_id = ch.id.clone();
        if find_channel(&self.channels, ch.id.as_str()).is_none() {
            self.channels.push(ch);
            proof {
                assert(self.has_channel(self.active_channel@)) by {
                    let j = choose|j: int|
                        0 <= j < pre.channels@.len() && pre.channels@[j].id@
                            == pre.active_channel@;
                    assert(self.channels@[j].id@ == self.active_channel@);
                };
                assert(self.wf());
            }
        }
        let ghost mid = *self;
        proof {
            assert(self.has_channel(channel_id@)) by {
                if pre.has_channel(channel_id@) {
                    let j = choose|j: int|
                        0 <= j < pre.channels@.len() && pre.channels@[j].id@ == channel_id@;
                    assert(self.channels@[j].id@ == channel_id@);
                } else {
                    assert(self.channels@.last().id@ == channel_id@);
                }
            };
        }
        self.switch_channel(channel_id);
        proof {
            if !pre.has_channel(gch.id@) {
                assert(mid.channels@ == pre.channels@.push(gch));
                let last_i = pre.channels@.len() as int;
                assert(mid.channels@[last_i] == gch);
                assert forall|j: int| 0 <= j < pre.channels@.len() implies self.channels@[j] == (
                #[trigger] pre.channels@[j]) by {
                    assert(mid.channels@[j] == pre.channels@[j]);
                    assert(mid.channels@[j].id@ != gch.id@);
                };
                assert(self.channels@[last_i] == (Channel {
                    unread_count: 0,
                    ..mid.channels@[last_i]
                }));
                assert(self.channels@.last() == self.channels@[last_i]);
            }
        }
    }

    /// The channel ids as the sidebar lists them: the global channel first,
    /// the rest in lexicographic order; exactly the existing channels, each
    /// once.
    pub fn get_channel_list(&self) -> (r: Vec<String>)
        requires
            self.wf(),
        ensures
            r@.len() == self.channels@.len(),
            forall|i: int, j: int|
                0 <= i < j < r@.len() ==> channel_le((#[trigger] r@[i])@, (#[trigger] r@[j])@),
            forall|i: int, j: int|
                0 <= i < j < r@.len() ==> (#[trigger] r@[i])@ != (#[trigger] r@[j])@,
            forall|x: Seq<char>| #[trigger] list_has(r@, x) <==> self.has_channel(x),
    {
        let mut out: Vec<String> = Vec::new();
        let mut k: usize = 0;
        let n = self.channels.len();
        while k < n
            invariant
                self.wf(),
                n == self.channels@.len(),
                k <= n,
                out@.len() == k,
                forall|i: int, j: int|
                    0 <= i < j < out@.len() ==> channel_le(
                        (#[trigger] out@[i])@,
                        (#[trigger] out@[j])@,
                    ),
                forall|i: int, j: int|
                    0 <= i < j < out@.len() ==> (#[trigger] out@[i])@ != (#[trigger] out@[j])@,
                forall|x: Seq<char>| #[trigger]
                    list_has(out@, x) <==> exists|t: int|
                        0 <= t < k && (#[trigger] self.channels@[t]).id@ == x,
            decreases n - k,
        {
            let id = self.channels[k].id.clone();
            let ghost pre_out = out@;
            let mut p: usize = 0;
            while p < out.len() && channel_le_exec(out[p].as_str(), id.as_str())
                invariant
                    p <= out@.len(),
                    out@ == pre_out,
                    id@ == self.channels@[k as int].id@,
                    forall|t: int| 0 <= t < p ==> channel_le((#[trigger] out@[t])@, id@),
                decreases out@.len() - p,
            {
                p = p + 1;
            }
            proof {
                if (p as int) < pre_out.len() {
                    lemma_channel_le_total(pre_out[p as int]@, id@);
                }
            }
            out.insert(p, id);
            proof {
                let cur = out@;
                // inserted element stays below everything that was at or
                // past the insertion point
                assert forall|j: int| p < j < cur.len() implies channel_le(
                    (cur[p as int])@,
                    (#[trigger] cur[j])@,
                ) by {
                    assert(cur[j] == pre_out[j - 1]);
                    if j - 1 > p {
                        assert(channel_le(pre_out[p as int]@, pre_out[j - 1]@));
                        lemma_channel_le_trans(cur[p as int]@, pre_out[p as int]@, pre_out[j - 1]@);
                    }
                };
                assert forall|i: int, j: int| 0 <= i < j < cur.len() implies channel_le(
                    (#[trigger] cur[i])@,
                    (#[trigger] cur[j])@,
                ) by {
                    if i < p && j < p {
                        assert(cur[i] == pre_out[i] && cur[j] == pre_out[j]);
                    } else if i < p && j == p {
                        assert(cur[i] == pre_out[i]);
                    } else if i < p && j > p {
                        assert(cur[i] == pre_out[i] && cur[j] == pre_out[j - 1]);
                    } else if i == p && j > p {
                    } else if i > p && j > p {
                        assert(cur[i] == pre_out[i - 1] && cur[j] == pre_out[j - 1]);
                    }
                };
                assert(!list_has(pre_out, id@)) by {
                    if list_has(pre_out, id@) {
                        let t = choose|t: int|
                            0 <= t < k && (#[trigger] self.channels@[t]).id@ == id@;
                        assert(self.channels@[t].id@ != self.channels@[k as int].id@);
                    }
                };
                assert forall|i: int, j: int| 0 <= i < j < cur.len() implies (#[trigger] cur[i])@
                    != (#[trigger] cur[j])@ by {
                    if i < p && j < p {
                        assert(cur[i] == pre_out[i] && cur[j] == pre_out[j]);
                    } else if i < p && j == p {
                        assert(cur[i] == pre_out[i]);
                        assert(list_has(pre_out, pre_out[i]@));
                    } else if i < p && j > p {
                        assert(cur[i] == pre_out[i] && cur[j] == pre_out[j - 1]);
                    } else if i == p && j > p {
                        assert(cur[j] == pre_out[j - 1]);
                        assert(list_has(pre_out, pre_out[j - 1]@));
                    } else if i > p && j > p {
                        assert(cur[i] == pre_out[i - 1] && cur[j] == pre_out[j - 1]);
                    }
                };
                assert forall|x: Seq<char>| true implies (#[trigger] list_has(out@, x) <==> exists|
                    t: int,
                | 0 <= t < k + 1 && (#[trigger] self.channels@[t]).id@ == x) by {
                    if list_has(out@, x) {
                        let i = choose|i: int| 0 <= i < out@.len() && (out@[i])@ == x;
                        if i < p {
                            assert(pre_out[i]@ == x);
                            assert(list_has(pre_out, x));
                        } else if i == p {
                            assert(self.channels@[k as int].id@ == x);
                        } else {
                            assert(pre_out[i - 1]@ == x);
                            assert(list_has(pre_out, x));
                        }
                    }
                    if exists|t: int| 0 <= t < k + 1 && (#[trigger] self.channels@[t]).id@ == x {
                        let t = choose|t: int|
                            0 <= t < k + 1 && (#[trigger] self.channels@[t]).id@ == x;
                        if t < k {
                            assert(list_has(pre_out, x));
                            let i = choose|i: int| 0 <= i < pre_out.len() && (pre_out[i])@ == x;
                            if i < p {
                                assert((out@[i])@ == x);
                            } else {
                                assert((out@[i + 1])@ == x);
                            }
                        } else {
                            assert((out@[p as int])@ == x);
                        }
                    }
                };
            }
            k = k + 1;
        }
        proof {
            assert forall|x: Seq<char>| true implies (#[trigger] list_has(out@, x)
                <==> self.has_channel(x)) by {};
            assert forall|i: int, j: int| 0 <= i < j < out@.len() implies (#[trigger] out@[i])@ != (
            #[trigger] out@[j])@ by {
                if (out@[i])@ == (out@[j])@ {
                    let x = (out@[i])@;
                    assert(list_has(out@, x));
                }
            };
        }
        out
    }

    /// Makes the channel under the sidebar cursor the shown one: its unread
    /// count is zeroed, every other channel is untouched. A cursor past the
    /// end changes nothing.
    pub fn activate_selected_channel(&mut self)
        requires
            old(self).wf(),
        ensures
            final(self).wf(),
            old(self).selected_channel >= old(self).channels@.len() ==> *final(self) == *old(
                self,
            ),
            old(self).selected_channel < old(self).channels@.len() ==> {
                &&& old(self).has_channel(final(self).active_channel@)
                &&& final(self).channels@.len() == old(self).channels@.len()
                &&& forall|j: int|
                    0 <= j < old(self).channels@.len() && (#[trigger] old(self).channels@[j]).id@
                        == final(self).active_channel@ ==> final(self).channels@[j] == (Channel {
                        unread_count: 0,
                        ..old(self).channels@[j]
                    })
                &&& forall|j: int|
                    0 <= j < old(self).channels@.len() && (#[trigger] old(self).channels@[j]).id@
                        != final(self).active_channel@ ==> final(self).channels@[j] == old(
                        self,
                    ).channels@[j]
                &&& *final(self) == (App {
                    channels: final(self).channels,
                    active_channel: final(self).active_channel,
                    scroll_position: final(self).scroll_position,
                    ..*old(self)
                })
            },
    {
        let list = self.get_channel_list();
        if self.selected_channel < list.len() {
            let id = list[self.selected_channel].clone();
            proof {
                assert(list_has(list@, id@)) by {
                    assert((list@[old(self).selected_channel as int])@ == id@);
                };
            }
            self.switch_channel(id);
        }
    }

    /// Asks the interactive loop to end.
    pub fn quit(&mut self)
        requires
            old(self).wf(),
        ensures
            final(self).wf(),
            *final(self) == (App { should_quit: true, ..*old(self) }),
    {
        self.should_quit = true;
    }
}

} // verus!
