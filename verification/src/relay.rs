//! The relay's connection registry and broadcast engine.
//!
//! The registry maps each connected client to the sending half of its
//! outbound queue. Broadcasting walks the registry, enqueues the payload for
//! every client but the origin, and prunes the clients whose queue is gone.
//! The surrounding socket pumps live outside the library; they drive these
//! methods and drain the returned receivers.

use vstd::prelude::*;
use tokio::sync::mpsc::UnboundedReceiver;
use tokio::sync::mpsc::UnboundedSender;

verus! {

/// Unique identifier for each connected client, assigned at accept time,
/// monotonically increasing and never reused while the process runs.
pub type ClientId = usize;

#[verifier::external_type_specification]
#[verifier::external_body]
#[verifier::reject_recursive_types(T)]
pub struct ExUnboundedSender<T>(UnboundedSender<T>);

#[verifier::external_type_specification]
#[verifier::external_body]
#[verifier::reject_recursive_types(T)]
pub struct ExUnboundedReceiver<T>(UnboundedReceiver<T>);

/// Relies on tokio's `sync::mpsc::unbounded_channel`: returns the two halves
/// of a fresh unbounded queue.
#[verifier::external_body]
fn new_outbound_queue() -> (r: (UnboundedSender<String>, UnboundedReceiver<String>)) {
    tokio::sync::mpsc::unbounded_channel()
}

/// A message handed to the broadcast engine: the raw payload and the client
/// it came from, so it is not echoed back.
#[derive(Debug, Clone)]
pub struct BroadcastMessage {
    /// The client who sent this message.
    pub from: ClientId,
    /// The raw frame content; the relay never inspects it.
    pub content: String,
}

/// What one broadcast did: who got the payload enqueued, and who was dropped
/// from the registry because their queue was gone.
pub struct BroadcastReport {
    pub delivered: Vec<ClientId>,
    pub removed: Vec<ClientId>,
}

struct Entry {
    id: ClientId,
    tx: UnboundedSender<String>,
    /// Everything the relay has put on this client's queue, oldest first.
    sent: Ghost<Seq<Seq<char>>>,
}

/// Relies on tokio's `sync::mpsc::UnboundedSender::send`: `Ok` means the
/// text — exactly this text, after everything sent before — was appended to
/// the client's queue, which the entry's transcript records; `Err` (the
/// receiving half is gone) means nothing was enqueued. Whether it succeeds
/// depends on the receiver's state at the moment of the call, so which
/// outcome comes back is not promised.
#[verifier::external_body]
fn enqueue_text(e: &mut Entry, text: &String) -> (ok: bool)
    ensures
        ok ==> *final(e) == (Entry {
            sent: Ghost(old(e).sent@.push(text@)),
            ..*old(e)
        }),
        !ok ==> *final(e) == *old(e),
{
    e.tx.send(text.clone()).is_ok()
}

/// The connection registry: one entry per live client, in registration order,
/// plus the counter the next client id comes from.
pub struct RelayState {
    entries: Vec<Entry>,
    next_client_id: ClientId,
}

/// The first position in `s` holding the entry for this id, or -1 if none.
spec fn entry_index(s: Seq<Entry>, id: ClientId) -> int
    decreases s.len(),
{
    if s.len() == 0 {
        -1
    } else if s[0].id == id {
        0
    } else {
        let r = entry_index(s.drop_first(), id);
        if r < 0 {
            -1
        } else {
            r + 1
        }
    }
}

/// Everything the relay has enqueued for the client with this id, oldest
/// first; empty for an id with no entry.
spec fn transcript_in(s: Seq<Entry>, id: ClientId) -> Seq<Seq<char>> {
    let j = entry_index(s, id);
    if j >= 0 {
        s[j].sent@
    } else {
        Seq::empty()
    }
}

proof fn lemma_entry_index_props(s: Seq<Entry>, id: ClientId)
    ensures
        entry_index(s, id) == -1 ==> forall|k: int|
            0 <= k < s.len() ==> (#[trigger] s[k]).id != id,
        entry_index(s, id) >= 0 ==> {
            let r = entry_index(s, id);
            &&& r < s.len()
            &&& s[r].id == id
            &&& forall|k: int| 0 <= k < r ==> (#[trigger] s[k]).id != id
        },
    decreases s.len(),
{
    if s.len() > 0 && s[0].id != id {
        lemma_entry_index_props(s.drop_first(), id);
        let rd = entry_index(s.drop_first(), id);
        if rd < 0 {
            assert forall|k: int| 0 <= k < s.len() implies (#[trigger] s[k]).id != id by {
                if k > 0 {
                    assert(s.drop_first()[k - 1] == s[k]);
                }
            }
        } else {
            assert(s.drop_first()[rd] == s[rd + 1]);
            assert forall|k: int| 0 <= k < rd + 1 implies (#[trigger] s[k]).id != id by {
                if k > 0 {
                    assert(s.drop_first()[k - 1] == s[k]);
                }
            }
        }
    }
}

/// Under unique ids, position `k` is where its id's transcript lives.
proof fn lemma_transcript_at(s: Seq<Entry>, k: int)
    requires
        0 <= k < s.len(),
        forall|i: int, j: int| 0 <= i < j < s.len() ==> (#[trigger] s[i]).id != (#[trigger] s[j]).id,
    ensures
        transcript_in(s, s[k].id) == s[k].sent@,
{
    lemma_entry_index_props(s, s[k].id);
    let r = entry_index(s, s[k].id);
    if r == -1 {
        assert(s[k].id != s[k].id);
    }
    if r < k {
        assert(s[r].id != s[k].id);
    }
    if r > k {
        assert(s[k].id != s[k].id);
    }
}

/// Replacing the entry at `k` by one with the same id moves that one
/// transcript and no other.
proof fn lemma_transcript_update(s: Seq<Entry>, k: int, e2: Entry, x: ClientId)
    requires
        0 <= k < s.len(),
        e2.id == s[k].id,
        forall|i: int, j: int| 0 <= i < j < s.len() ==> (#[trigger] s[i]).id != (#[trigger] s[j]).id,
    ensures
        transcript_in(s.update(k, e2), x) == (if x == s[k].id {
            e2.sent@
        } else {
            transcript_in(s, x)
        }),
{
    let t = s.update(k, e2);
    assert(forall|i: int| 0 <= i < s.len() ==> (#[trigger] t[i]).id == s[i].id);
    lemma_entry_index_same_ids(s, t, x);
    lemma_entry_index_props(s, x);
    let r = entry_index(s, x);
    if x == s[k].id {
        if r == -1 {
            assert(s[k].id != x);
        }
        if r < k {
            assert(s[r].id != s[k].id);
        }
        if r > k {
            assert(s[k].id != x);
        }
        assert(t[k] == e2);
    } else {
        if r >= 0 {
            assert(s[r].id == x);
            assert(r != k);
            assert(t[r] == s[r]);
        }
    }
}

/// The entry index depends only on the ids.
proof fn lemma_entry_index_same_ids(s: Seq<Entry>, t: Seq<Entry>, x: ClientId)
    requires
        s.len() == t.len(),
        forall|i: int| 0 <= i < s.len() ==> (#[trigger] t[i]).id == s[i].id,
    ensures
        entry_index(s, x) == entry_index(t, x),
    decreases s.len(),
{
    if s.len() > 0 {
        assert(t[0].id == s[0].id);
        assert(forall|i: int|
            0 <= i < s.drop_first().len() ==> (#[trigger] s.drop_first()[i]) == s[i + 1]);
        assert(forall|i: int|
            0 <= i < t.drop_first().len() ==> (#[trigger] t.drop_first()[i]) == t[i + 1]);
        lemma_entry_index_same_ids(s.drop_first(), t.drop_first(), x);
    }
}

/// Appending an entry with a fresh id creates its transcript and leaves
/// every other one alone.
proof fn lemma_transcript_push(s: Seq<Entry>, e2: Entry, x: ClientId)
    requires
        forall|k: int| 0 <= k < s.len() ==> (#[trigger] s[k]).id != e2.id,
    ensures
        transcript_in(s.push(e2), e2.id) == e2.sent@,
        x != e2.id ==> transcript_in(s.push(e2), x) == transcript_in(s, x),
    decreases s.len(),
{
    let t = s.push(e2);
    if s.len() == 0 {
        assert(t[0] == e2);
    } else {
        assert(t[0] == s[0]);
        assert(t.drop_first() =~= s.drop_first().push(e2));
        assert(forall|k: int|
            0 <= k < s.drop_first().len() ==> (#[trigger] s.drop_first()[k]) == s[k + 1]);
        assert(forall|k: int|
            0 <= k < t.drop_first().len() ==> (#[trigger] t.drop_first()[k]) == t[k + 1]);
        assert(s[0].id != e2.id);
        lemma_transcript_push(s.drop_first(), e2, e2.id);
        lemma_transcript_push(s.drop_first(), e2, x);
        // the new entry's transcript: its index in the tail, shifted by one
        lemma_entry_index_props(t.drop_first(), e2.id);
        let rd = entry_index(t.drop_first(), e2.id);
        assert(t.drop_first()[t.drop_first().len() - 1] == e2);
        if rd == -1 {
            assert(t.drop_first()[t.drop_first().len() - 1].id != e2.id);
        }
        assert(entry_index(t, e2.id) == rd + 1);
        assert(t[rd + 1] == t.drop_first()[rd]);
        assert(transcript_in(t.drop_first(), e2.id) == t.drop_first()[rd].sent@);
        // any other id: both indexes shift together
        if x != e2.id {
            if s[0].id == x {
                assert(entry_index(t, x) == 0 && entry_index(s, x) == 0);
            } else {
                let rt = entry_index(t.drop_first(), x);
                let rs = entry_index(s.drop_first(), x);
                if rt >= 0 {
                    lemma_entry_index_props(t.drop_first(), x);
                    assert(entry_index(t, x) == rt + 1);
                    assert(t[rt + 1] == t.drop_first()[rt]);
                    assert(transcript_in(t, x) == t.drop_first()[rt].sent@);
                } else {
                    assert(entry_index(t, x) == -1);
                }
                if rs >= 0 {
                    lemma_entry_index_props(s.drop_first(), x);
                    assert(entry_index(s, x) == rs + 1);
                    assert(s[rs + 1] == s.drop_first()[rs]);
                    assert(transcript_in(s, x) == s.drop_first()[rs].sent@);
                } else {
                    assert(entry_index(s, x) == -1);
                }
            }
        }
    }
}

/// Removing the entry at `k` leaves every other id's transcript alone.
proof fn lemma_transcript_remove(s: Seq<Entry>, k: int, x: ClientId)
    requires
        0 <= k < s.len(),
        x != s[k].id,
    ensures
        transcript_in(s.remove(k), x) == transcript_in(s, x),
    decreases k,
{
    if k == 0 {
        assert(s.remove(0) =~= s.drop_first());
        let rs = entry_index(s.drop_first(), x);
        assert(forall|i: int|
            0 <= i < s.drop_first().len() ==> (#[trigger] s.drop_first()[i]) == s[i + 1]);
        if rs >= 0 {
            lemma_entry_index_props(s.drop_first(), x);
            assert(entry_index(s, x) == rs + 1);
            assert(s[rs + 1] == s.drop_first()[rs]);
            assert(transcript_in(s, x) == s.drop_first()[rs].sent@);
            assert(transcript_in(s.drop_first(), x) == s.drop_first()[rs].sent@);
        } else {
            assert(entry_index(s, x) == -1);
        }
    } else {
        let t = s.remove(k);
        assert(t =~= seq![s[0]] + s.drop_first().remove(k - 1));
        assert(t.drop_first() =~= s.drop_first().remove(k - 1));
        assert(t[0] == s[0]);
        assert(s.drop_first()[k - 1] == s[k]);
        lemma_transcript_remove(s.drop_first(), k - 1, x);
        if s[0].id == x {
            assert(entry_index(t, x) == 0);
            assert(entry_index(s, x) == 0);
            assert(transcript_in(t, x) == t[0].sent@);
            assert(transcript_in(s, x) == s[0].sent@);
        } else {
            let rt = entry_index(t.drop_first(), x);
            let rs = entry_index(s.drop_first(), x);
            assert(forall|i: int|
                0 <= i < t.drop_first().len() ==> (#[trigger] t.drop_first()[i]) == t[i + 1]);
            assert(forall|i: int|
                0 <= i < s.drop_first().len() ==> (#[trigger] s.drop_first()[i]) == s[i + 1]);
            if rt >= 0 {
                lemma_entry_index_props(t.drop_first(), x);
                assert(entry_index(t, x) == rt + 1);
                assert(t[rt + 1] == t.drop_first()[rt]);
                assert(transcript_in(t, x) == t.drop_first()[rt].sent@);
            } else {
                assert(entry_index(t, x) == -1);
            }
            if rs >= 0 {
                lemma_entry_index_props(s.drop_first(), x);
                assert(entry_index(s, x) == rs + 1);
                assert(s[rs + 1] == s.drop_first()[rs]);
                assert(transcript_in(s, x) == s.drop_first()[rs].sent@);
            } else {
                assert(entry_index(s, x) == -1);
            }
            assert(transcript_in(t.drop_first(), x) == transcript_in(s.drop_first(), x));
        }
    }
}

/// `s` with every occurrence of `id` taken out, order otherwise kept.
pub open spec fn remove_id(s: Seq<ClientId>, id: ClientId) -> Seq<ClientId>
    decreases s.len(),
{
    if s.len() == 0 {
        Seq::empty()
    } else if s[0] == id {
        remove_id(s.drop_first(), id)
    } else {
        seq![s[0]] + remove_id(s.drop_first(), id)
    }
}

/// `s` with every id in `rem` taken out, order otherwise kept.
pub open spec fn remove_ids(s: Seq<ClientId>, rem: Seq<ClientId>) -> Seq<ClientId>
    decreases rem.len(),
{
    if rem.len() == 0 {
        s
    } else {
        remove_ids(remove_id(s, rem[0]), rem.drop_first())
    }
}

proof fn lemma_contains_unfold(s: Seq<ClientId>, x: ClientId)
    requires
        s.len() > 0,
    ensures
        s.contains(x) <==> (s[0] == x || s.drop_first().contains(x)),
{
    if s.contains(x) {
        let i = choose|i: int| 0 <= i < s.len() && s[i] == x;
        if i > 0 {
            assert(s.drop_first()[i - 1] == x);
        }
    }
    if s.drop_first().contains(x) {
        let i = choose|i: int| 0 <= i < s.drop_first().len() && s.drop_first()[i] == x;
        assert(s[i + 1] == x);
    }
}

pub proof fn lemma_remove_id_membership(s: Seq<ClientId>, id: ClientId, x: ClientId)
    ensures
        remove_id(s, id).contains(x) <==> (s.contains(x) && x != id),
    decreases s.len(),
{
    if s.len() > 0 {
        lemma_remove_id_membership(s.drop_first(), id, x);
        lemma_contains_unfold(s, x);
        if s[0] != id {
            let rest = remove_id(s.drop_first(), id);
            assert(remove_id(s, id) == seq![s[0]] + rest);
            lemma_contains_unfold(seq![s[0]] + rest, x);
            assert((seq![s[0]] + rest).drop_first() =~= rest);
        }
    }
}

pub proof fn lemma_remove_id_absent(s: Seq<ClientId>, id: ClientId)
    requires
        !s.contains(id),
    ensures
        remove_id(s, id) == s,
    decreases s.len(),
{
    if s.len() > 0 {
        lemma_contains_unfold(s, id);
        lemma_remove_id_absent(s.drop_first(), id);
        assert(remove_id(s, id) =~= s);
    }
}

/// Removing the only occurrence of an id by index is the same as removing the
/// id everywhere.
proof fn lemma_remove_at_only_occurrence(s: Seq<ClientId>, pos: int)
    requires
        0 <= pos < s.len(),
        forall|k: int| 0 <= k < s.len() && k != pos ==> s[k] != s[pos],
    ensures
        s.remove(pos) == remove_id(s, s[pos]),
    decreases pos,
{
    let id = s[pos];
    if pos == 0 {
        assert(!s.drop_first().contains(id)) by {
            if s.drop_first().contains(id) {
                let i = choose|i: int|
                    0 <= i < s.drop_first().len() && s.drop_first()[i] == id;
                assert(s[i + 1] == id);
            }
        };
        lemma_remove_id_absent(s.drop_first(), id);
        assert(s.remove(0) =~= s.drop_first());
    } else {
        assert(forall|k: int|
            0 <= k < s.drop_first().len() && k != pos - 1 ==> #[trigger] s.drop_first()[k]
                != s.drop_first()[pos - 1]) by {
            assert(forall|k: int|
                0 <= k < s.drop_first().len() ==> #[trigger] s.drop_first()[k] == s[k + 1]);
        };
        lemma_remove_at_only_occurrence(s.drop_first(), pos - 1);
        assert(s.drop_first()[pos - 1] == id);
        assert(remove_id(s, id) == seq![s[0]] + remove_id(s.drop_first(), id));
        assert(s.remove(pos) =~= seq![s[0]] + s.drop_first().remove(pos - 1));
    }
}

/// Taking an id out of a duplicate-free sequence keeps it duplicate-free.
pub proof fn lemma_remove_id_distinct(s: Seq<ClientId>, id: ClientId)
    requires
        s.no_duplicates(),
    ensures
        remove_id(s, id).no_duplicates(),
    decreases s.len(),
{
    if s.len() > 0 {
        assert(s.drop_first().no_duplicates()) by {
            assert(forall|k: int|
                0 <= k < s.drop_first().len() ==> #[trigger] s.drop_first()[k] == s[k + 1]);
        };
        lemma_remove_id_distinct(s.drop_first(), id);
        if s[0] != id {
            let rest = remove_id(s.drop_first(), id);
            assert(!rest.contains(s[0])) by {
                lemma_remove_id_membership(s.drop_first(), id, s[0]);
                if s.drop_first().contains(s[0]) {
                    let i = choose|i: int|
                        0 <= i < s.drop_first().len() && s.drop_first()[i] == s[0];
                    assert(s[i + 1] == s[0]);
                }
            };
            let c = seq![s[0]] + rest;
            assert(c.no_duplicates()) by {
                assert forall|i: int, j: int|
                    0 <= i < c.len() && 0 <= j < c.len() && i != j implies c[i] != c[j] by {
                    if i == 0 {
                        assert(c[j] == rest[j - 1]);
                        assert(rest.contains(rest[j - 1]));
                    } else if j == 0 {
                        assert(c[i] == rest[i - 1]);
                        assert(rest.contains(rest[i - 1]));
                    } else {
                        assert(c[i] == rest[i - 1]);
                        assert(c[j] == rest[j - 1]);
                    }
                }
            };
        }
    }
}

impl RelayState {
    /// The ids of the currently registered clients, in registration order.
    pub closed spec fn ids(&self) -> Seq<ClientId> {
        self.entries@.map_values(|e: Entry| e.id)
    }

    /// The id the next accepted client will get.
    pub closed spec fn next_id_spec(&self) -> ClientId {
        self.next_client_id
    }

    /// Everything the relay has enqueued for this client, oldest first;
    /// empty for an id with no registry entry.
    pub closed spec fn transcript_of(&self, id: ClientId) -> Seq<Seq<char>> {
        transcript_in(self.entries@, id)
    }

    /// Registry sanity: no id appears twice, and every registered id was
    /// assigned before the counter's current value.
    pub open spec fn wf(&self) -> bool {
        &&& self.ids().no_duplicates()
        &&& forall|i: int|
            0 <= i < self.ids().len() ==> #[trigger] self.ids()[i] < self.next_id_spec()
    }

    /// A fresh registry with no clients.
    pub fn new() -> (r: RelayState)
        ensures
            r.wf(),
            r.ids() == Seq::<ClientId>::empty(),
            r.next_id_spec() == 0,
    {
        let r = RelayState { entries: Vec::new(), next_client_id: 0 };
        assert(r.ids() =~= Seq::<ClientId>::empty());
        r
    }

    /// Allocates the next client id, creates the client's outbound queue,
    /// inserts the mapping, and returns the id with the receiving half for
    /// the session's sender task to drain. The new id is one no client ever
    /// had before, and every previously granted id lies below it.
    pub fn register_client(&mut self) -> (r: (ClientId, UnboundedReceiver<String>))
        requires
            old(self).wf(),
            old(self).next_id_spec() < usize::MAX,
        ensures
            final(self).wf(),
            r.0 == old(self).next_id_spec(),
            !old(self).ids().contains(r.0),
            forall|i: int|
                0 <= i < old(self).ids().len() ==> #[trigger] old(self).ids()[i] < r.0,
            final(self).ids() == old(self).ids().push(r.0),
            final(self).next_id_spec() == r.0 + 1,
            final(self).transcript_of(r.0) == Seq::<Seq<char>>::empty(),
            forall|x: ClientId|
                x != r.0 ==> #[trigger] final(self).transcript_of(x) == old(self).transcript_of(
                    x,
                ),
    {
        let id = self.next_client_id;
        self.next_client_id = id + 1;
        let (tx, rx) = new_outbound_queue();
        self.entries.push(Entry { id, tx, sent: Ghost(Seq::empty()) });
        proof {
            assert forall|k: int|
                0 <= k < old(self).entries@.len() implies (#[trigger] old(
                self,
            ).entries@[k]).id != id by {
                assert(old(self).ids()[k] == old(self).entries@[k].id);
                assert(old(self).ids()[k] < id);
            };
            assert forall|x: ClientId| true implies (#[trigger] self.transcript_of(x) == (if x
                == id {
                Seq::<Seq<char>>::empty()
            } else {
                old(self).transcript_of(x)
            })) by {
                lemma_transcript_push(old(self).entries@, self.entries@.last(), x);
                assert(self.entries@ =~= old(self).entries@.push(self.entries@.last()));
            };
            let pre = old(self).ids();
            assert(self.ids() =~= pre.push(id));
            assert(!pre.contains(id)) by {
                if pre.contains(id) {
                    let i = choose|i: int| 0 <= i < pre.len() && pre[i] == id;
                    assert(pre[i] < id);
                }
            };
            let s = self.ids();
            assert(s.no_duplicates()) by {
                assert forall|i: int, j: int|
                    0 <= i < s.len() && 0 <= j < s.len() && i != j implies s[i] != s[j] by {
                    if i < pre.len() && j < pre.len() {
                        assert(pre.no_duplicates());
                        assert(pre[i] != pre[j]);
                    } else if j == pre.len() {
                        assert(pre[i] < id);
                    } else {
                        assert(pre[j] < id);
                    }
                }
            };
        }
        (id, rx)
    }

    /// Removes the client's registry entry if it is present; doing it again,
    /// or unregistering an id that was never granted, changes nothing.
    pub fn unregister_client(&mut self, id: ClientId)
        requires
            old(self).wf(),
        ensures
            final(self).wf(),
            final(self).ids() == remove_id(old(self).ids(), id),
            final(self).next_id_spec() == old(self).next_id_spec(),
            forall|x: ClientId|
                #[trigger] final(self).ids().contains(x) <==> (old(self).ids().contains(x) && x
                    != id),
            forall|x: ClientId|
                x != id ==> #[trigger] final(self).transcript_of(x) == old(self).transcript_of(
                    x,
                ),
    {
        let ghost pre = *self;
        let ghost old_ids = self.ids();
        let mut k: usize = 0;
        let n = self.entries.len();
        loop
            invariant
                *self == pre,
                old_ids == self.ids(),
                n == self.entries@.len(),
                k <= n,
                forall|t: int| 0 <= t < k ==> #[trigger] self.ids()[t] != id,
            ensures
                *self == pre,
                old_ids == self.ids(),
                n == self.entries@.len(),
                (k == n && !self.ids().contains(id)) || (k < n && self.ids()[k as int] == id),
                forall|t: int| 0 <= t < k ==> #[trigger] self.ids()[t] != id,
            decreases n - k,
        {
            if k == n {
                assert(!self.ids().contains(id)) by {
                    if self.ids().contains(id) {
                        let i = choose|i: int|
                            0 <= i < self.ids().len() && self.ids()[i] == id;
                        assert(self.ids()[i] != id);
                    }
                };
                break;
            }
            if self.entries[k].id == id {
                assert(self.ids()[k as int] == id);
                break;
            }
            assert(self.ids()[k as int] != id);
            k = k + 1;
        }
        if k < n {
            let ghost pos = k as int;
            self.entries.remove(k);
            proof {
                assert(self.ids() =~= old_ids.remove(pos));
                assert(forall|t: int|
                    0 <= t < old_ids.len() && t != pos ==> old_ids[t] != old_ids[pos]) by {
                    assert(old_ids.no_duplicates());
                };
                lemma_remove_at_only_occurrence(old_ids, pos);
                lemma_remove_id_distinct(old_ids, id);
                assert(self.entries@ =~= pre.entries@.remove(pos));
                assert(pre.entries@[pos].id == id) by {
                    assert(pre.ids()[pos] == pre.entries@[pos].id);
                };
                assert forall|x: ClientId| x != id implies #[trigger] self.transcript_of(x)
                    == pre.transcript_of(x) by {
                    lemma_transcript_remove(pre.entries@, pos, x);
                };
            }
        } else {
            proof {
                lemma_remove_id_absent(old_ids, id);
            }
        }
        proof {
            assert forall|x: ClientId| true implies (#[trigger] self.ids().contains(x) <==> (
            old_ids.contains(x) && x != id)) by {
                lemma_remove_id_membership(old_ids, id, x);
            };
            assert forall|i: int| 0 <= i < self.ids().len() implies #[trigger] self.ids()[i]
                < self.next_id_spec() by {
                let x = self.ids()[i];
                assert(self.ids().contains(x));
                lemma_remove_id_membership(old_ids, id, x);
                let j = choose|j: int| 0 <= j < old_ids.len() && old_ids[j] == x;
                assert(old_ids[j] < pre.next_id_spec());
            };
        }
    }

    /// The number of currently registered clients.
    pub fn client_count(&self) -> (n: usize)
        ensures
            n == self.ids().len(),
    {
        self.entries.len()
    }

    /// How many ids have been granted so far — also the id the next client
    /// would get. Callers check it is below the counter's ceiling before
    /// registering.
    pub fn ids_granted(&self) -> (n: ClientId)
        ensures
            n == self.next_id_spec(),
    {
        self.next_client_id
    }

    /// The fan-out pass: attempts a non-blocking enqueue of the payload to
    /// every registered client except the origin, records each success in
    /// that entry's transcript, and reports who took it and who did not.
    /// The origin is never attempted and no transcript but the delivered
    /// clients' changes.
    fn fan_out(&mut self, msg: &BroadcastMessage) -> (report: BroadcastReport)
        requires
            old(self).wf(),
        ensures
            final(self).wf(),
            final(self).ids() == old(self).ids(),
            final(self).next_id_spec() == old(self).next_id_spec(),
            report.delivered@.no_duplicates(),
            report.removed@.no_duplicates(),
            !report.delivered@.contains(msg.from),
            !report.removed@.contains(msg.from),
            forall|x: ClientId|
                !(#[trigger] report.delivered@.contains(x) && report.removed@.contains(x)),
            forall|x: ClientId|
                #[trigger] report.delivered@.contains(x) ==> old(self).ids().contains(x) && x
                    != msg.from,
            forall|x: ClientId|
                #[trigger] report.removed@.contains(x) ==> old(self).ids().contains(x) && x
                    != msg.from,
            forall|x: ClientId|
                #[trigger] old(self).ids().contains(x) && x != msg.from ==> (
                report.delivered@.contains(x) || report.removed@.contains(x)),
            forall|x: ClientId|
                #[trigger] report.delivered@.contains(x) ==> final(self).transcript_of(x) == old(
                    self,
                ).transcript_of(x).push(msg.content@),
            forall|x: ClientId|
                !report.delivered@.contains(x) ==> #[trigger] final(self).transcript_of(x) == old(
                    self,
                ).transcript_of(x),
    {
        broadcast use vstd::seq_lib::lemma_seq_contains_after_push;

        let ghost pre = *self;
        let ghost ids = self.ids();
        let mut delivered: Vec<ClientId> = Vec::new();
        let mut failed: Vec<ClientId> = Vec::new();
        let mut k: usize = 0;
        let n = self.entries.len();
        while k < n
            invariant
                self.wf(),
                ids == self.ids(),
                ids == pre.ids(),
                self.next_client_id == pre.next_client_id,
                n == self.entries@.len(),
                k <= n,
                delivered@.no_duplicates(),
                failed@.no_duplicates(),
                !delivered@.contains(msg.from),
                !failed@.contains(msg.from),
                forall|x: ClientId|
                    !(#[trigger] delivered@.contains(x) && failed@.contains(x)),
                forall|x: ClientId|
                    #[trigger] delivered@.contains(x) ==> exists|t: int|
                        0 <= t < k && ids[t] == x,
                forall|x: ClientId|
                    #[trigger] failed@.contains(x) ==> exists|t: int| 0 <= t < k && ids[t] == x,
                forall|t: int|
                    0 <= t < k && #[trigger] ids[t] != msg.from ==> (delivered@.contains(ids[t])
                        || failed@.contains(ids[t])),
                forall|x: ClientId|
                    #[trigger] delivered@.contains(x) ==> transcript_in(self.entries@, x)
                        == transcript_in(pre.entries@, x).push(msg.content@),
                forall|x: ClientId|
                    !delivered@.contains(x) ==> #[trigger] transcript_in(self.entries@, x)
                        == transcript_in(pre.entries@, x),
            decreases n - k,
        {
            let ghost cur = self.entries@;
            proof {
                assert forall|i: int, j: int| 0 <= i < j < cur.len() implies (#[trigger] cur[i]).id
                    != (#[trigger] cur[j]).id by {
                    assert(self.ids()[i] == cur[i].id && self.ids()[j] == cur[j].id);
                };
            }
            proof {
                assert(ids[k as int] == cur[k as int].id);
            }
            let mut e = self.entries.remove(k);
            let id = e.id;
            proof {
                assert(cur[k as int] == e);
                assert(ids[k as int] == id);
            }
            let mut ok = false;
            if id != msg.from {
                ok = enqueue_text(&mut e, &msg.content);
            }
            self.entries.insert(k, e);
            proof {
                let e2 = self.entries@[k as int];
                assert(self.entries@ =~= cur.update(k as int, e2));
                assert(e2.id == id);
                assert(self.ids() =~= ids) by {
                    assert(forall|i: int|
                        0 <= i < cur.len() ==> (#[trigger] self.entries@[i]).id == cur[i].id);
                    assert(forall|i: int| 0 <= i < ids.len() ==> ids[i] == cur[i].id);
                };
                assert(!delivered@.contains(id)) by {
                    if delivered@.contains(id) {
                        let t = choose|t: int| 0 <= t < k && ids[t] == id;
                        assert(ids[t] == ids[k as int]);
                    }
                };
                assert(!failed@.contains(id)) by {
                    if failed@.contains(id) {
                        let t = choose|t: int| 0 <= t < k && ids[t] == id;
                        assert(ids[t] == ids[k as int]);
                    }
                };
                lemma_transcript_at(cur, k as int);
                assert(transcript_in(cur, id) == cur[k as int].sent@);
                assert forall|x: ClientId| true implies (#[trigger] transcript_in(
                    self.entries@,
                    x,
                ) == (if ok && x == id {
                    transcript_in(cur, x).push(msg.content@)
                } else {
                    transcript_in(cur, x)
                })) by {
                    lemma_transcript_update(cur, k as int, e2, x);
                    if x == id {
                        if ok {
                            assert(e2.sent@ == cur[k as int].sent@.push(msg.content@));
                        } else {
                            assert(e2 == cur[k as int]);
                        }
                    }
                };
                assert(!delivered@.contains(id) ==> transcript_in(cur, id) == transcript_in(
                    pre.entries@,
                    id,
                ));
            }
            if id != msg.from {
                let ghost pre_delivered = delivered@;
                let ghost pre_failed = failed@;
                if ok {
                    delivered.push(id);
                    proof {
                        lemma_push_keeps_distinct(pre_delivered, id);
                    }
                } else {
                    failed.push(id);
                    proof {
                        lemma_push_keeps_distinct(pre_failed, id);
                    }
                }
                proof {
                    assert forall|x: ClientId| true implies (#[trigger] delivered@.contains(x)
                        <==> (pre_delivered.contains(x) || (ok && x == id))) by {
                        if ok {
                            lemma_push_contains(pre_delivered, id, x);
                        }
                    };
                    assert forall|x: ClientId| true implies (#[trigger] failed@.contains(x) <==> (
                    pre_failed.contains(x) || (!ok && x == id))) by {
                        if !ok {
                            lemma_push_contains(pre_failed, id, x);
                        }
                    };
                    assert(delivered@.contains(id) || failed@.contains(id));
                    assert forall|x: ClientId| #[trigger] delivered@.contains(x) implies exists|
                        t: int,
                    | 0 <= t < k + 1 && ids[t] == x by {
                        if x == id {
                            assert(ids[k as int] == x);
                        } else {
                            let t = choose|t: int| 0 <= t < k && ids[t] == x;
                            assert(0 <= t < k + 1 && ids[t] == x);
                        }
                    };
                    assert forall|x: ClientId| #[trigger] failed@.contains(x) implies exists|
                        t: int,
                    | 0 <= t < k + 1 && ids[t] == x by {
                        if x == id {
                            assert(ids[k as int] == x);
                        } else {
                            let t = choose|t: int| 0 <= t < k && ids[t] == x;
                            assert(0 <= t < k + 1 && ids[t] == x);
                        }
                    };
                }
            }
            k = k + 1;
        }
        proof {
            assert forall|x: ClientId| #[trigger]
                self.ids().contains(x) && x != msg.from implies (delivered@.contains(x)
                || failed@.contains(x)) by {
                let t = choose|t: int| 0 <= t < ids.len() && ids[t] == x;
                assert(ids[t] != msg.from);
            };
            assert forall|x: ClientId| #[trigger] delivered@.contains(x) implies self.ids(
            ).contains(x) && x != msg.from by {
                let t = choose|t: int| 0 <= t < n && ids[t] == x;
                assert(self.ids().contains(ids[t]));
            };
            assert forall|x: ClientId| #[trigger] failed@.contains(x) implies self.ids().contains(
                x,
            ) && x != msg.from by {
                let t = choose|t: int| 0 <= t < n && ids[t] == x;
                assert(self.ids().contains(ids[t]));
            };
        }
        BroadcastReport { delivered, removed: failed }
    }

    /// Delivers the payload to every registered client except its origin.
    ///
    /// First pass: a read-only walk enqueues the payload to each target's
    /// outbound queue. Second pass: every target whose queue was gone is
    /// removed from the registry, so a closed recipient is absent as soon as
    /// the broadcast completes. A failed delivery is recorded in the report,
    /// never surfaced as an error. The origin's own queue is never touched,
    /// and the origin is never pruned.
    pub fn broadcast(&mut self, msg: BroadcastMessage) -> (report: BroadcastReport)
        requires
            old(self).wf(),
        ensures
            final(self).wf(),
            final(self).next_id_spec() == old(self).next_id_spec(),
            report.delivered@.no_duplicates(),
            report.removed@.no_duplicates(),
            !report.delivered@.contains(msg.from),
            !report.removed@.contains(msg.from),
            forall|x: ClientId|
                !(#[trigger] report.delivered@.contains(x) && report.removed@.contains(x)),
            forall|x: ClientId|
                #[trigger] report.delivered@.contains(x) ==> old(self).ids().contains(x) && x
                    != msg.from,
            forall|x: ClientId|
                #[trigger] report.removed@.contains(x) ==> old(self).ids().contains(x) && x
                    != msg.from,
            forall|x: ClientId|
                #[trigger] old(self).ids().contains(x) && x != msg.from ==> (
                report.delivered@.contains(x) || report.removed@.contains(x)),
            final(self).ids() == remove_ids(old(self).ids(), report.removed@),
            forall|x: ClientId|
                #[trigger] final(self).ids().contains(x) <==> (old(self).ids().contains(x)
                    && !report.removed@.contains(x)),
            old(self).ids().contains(msg.from) ==> final(self).ids().contains(msg.from),
            forall|x: ClientId|
                #[trigger] report.delivered@.contains(x) ==> final(self).transcript_of(x) == old(
                    self,
                ).transcript_of(x).push(msg.content@),
            forall|x: ClientId|
                !report.delivered@.contains(x) && !report.removed@.contains(x)
                    ==> #[trigger] final(self).transcript_of(x) == old(self).transcript_of(x),
            final(self).transcript_of(msg.from) == old(self).transcript_of(msg.from),
    {
        let ghost old_ids = self.ids();
        let report = self.fan_out(&msg);
        let ghost mid = *self;
        let ghost removed = report.removed@;
        let mut k: usize = 0;
        let n = report.removed.len();
        while k < n
            invariant
                self.wf(),
                n == removed.len(),
                removed == report.removed@,
                k <= n,
                self.next_id_spec() == old(self).next_id_spec(),
                self.ids() == remove_ids(old_ids, removed.subrange(0, k as int)),
                forall|x: ClientId|
                    !removed.contains(x) ==> #[trigger] self.transcript_of(x)
                        == mid.transcript_of(x),
            decreases n - k,
        {
            let id = report.removed[k];
            proof {
                assert(removed.contains(id)) by {
                    assert(removed[k as int] == id);
                };
            }
            self.unregister_client(id);
            proof {
                lemma_remove_ids_snoc(old_ids, removed.subrange(0, k as int), id);
                assert(removed.subrange(0, k as int).push(id) =~= removed.subrange(
                    0,
                    k as int + 1,
                ));
            }
            k = k + 1;
        }
        proof {
            assert(removed.subrange(0, n as int) =~= removed);
            assert forall|x: ClientId| true implies (#[trigger] self.ids().contains(x) <==> (
            old_ids.contains(x) && !removed.contains(x))) by {
                lemma_remove_ids_membership(old_ids, removed, x);
            };
            assert(!removed.contains(msg.from));
        }
        report
    }
}

/// One frame read from a client's socket, as the session's receiver task
/// sees it.
#[derive(Debug, Clone, PartialEq)]
pub enum InboundFrame {
    /// A text frame: the raw payload to fan out.
    Text(String),
    /// A binary frame; the relay ignores it.
    Binary,
    /// A liveness probe; answered at the transport level.
    Ping,
    /// A liveness answer; requires no relay action.
    Pong,
    /// The peer closed the connection.
    Close,
    /// The read failed.
    ReadError,
}

/// What the receiver task does next with one frame.
#[derive(Debug, Clone, PartialEq)]
pub enum SessionVerdict {
    /// Hand the text to the broadcast engine, verbatim.
    Broadcast(String),
    /// Do nothing and keep reading.
    Ignore,
    /// End the session; the registry entry is then retired.
    Stop,
}

/// The receiver task's decision for one inbound frame: text is broadcast
/// verbatim (the relay parses nothing), a close frame or a read error ends
/// the session, and control frames are ignored.
pub fn receiver_step(frame: InboundFrame) -> (v: SessionVerdict)
    ensures
        match frame {
            InboundFrame::Text(s) => v matches SessionVerdict::Broadcast(t) && t@ == s@,
            InboundFrame::Binary => v == SessionVerdict::Ignore,
            InboundFrame::Ping => v == SessionVerdict::Ignore,
            InboundFrame::Pong => v == SessionVerdict::Ignore,
            InboundFrame::Close => v == SessionVerdict::Stop,
            InboundFrame::ReadError => v == SessionVerdict::Stop,
        },
{
    match frame {
        InboundFrame::Text(s) => SessionVerdict::Broadcast(s),
        InboundFrame::Binary => SessionVerdict::Ignore,
        InboundFrame::Ping => SessionVerdict::Ignore,
        InboundFrame::Pong => SessionVerdict::Ignore,
        InboundFrame::Close => SessionVerdict::Stop,
        InboundFrame::ReadError => SessionVerdict::Stop,
    }
}

/// One registry operation, for stating what any interleaving of
/// registrations and unregistrations leaves behind.
pub enum RegistryOp {
    Register,
    Unregister(ClientId),
}

/// How one operation transforms the abstract registry: exactly the
/// transitions `register_client` and `unregister_client` promise.
pub open spec fn registry_step(
    ids: Seq<ClientId>,
    next: ClientId,
    op: RegistryOp,
) -> (Seq<ClientId>, ClientId) {
    match op {
        RegistryOp::Register => if next < usize::MAX {
            (ids.push(next), (next + 1) as ClientId)
        } else {
            (ids, next)
        },
        RegistryOp::Unregister(x) => (remove_id(ids, x), next),
    }
}

/// The registry after a whole sequence of operations.
pub open spec fn registry_run(
    ids: Seq<ClientId>,
    next: ClientId,
    ops: Seq<RegistryOp>,
) -> (Seq<ClientId>, ClientId)
    decreases ops.len(),
{
    if ops.len() == 0 {
        (ids, next)
    } else {
        let st = registry_step(ids, next, ops[0]);
        registry_run(st.0, st.1, ops.drop_first())
    }
}

/// Sanity of an abstract registry state: no duplicate ids, all below the
/// counter.
pub open spec fn model_wf(ids: Seq<ClientId>, next: ClientId) -> bool {
    &&& ids.no_duplicates()
    &&& forall|i: int| 0 <= i < ids.len() ==> #[trigger] ids[i] < next
}

/// `x` is registered after `ops`: it was there at the start and never
/// unregistered, or some operation granted it and no later one dropped it.
pub open spec fn granted_and_kept(
    ids0: Seq<ClientId>,
    next0: ClientId,
    ops: Seq<RegistryOp>,
    x: ClientId,
) -> bool
    decreases ops.len(),
{
    if ops.len() == 0 {
        ids0.contains(x)
    } else {
        let rest = ops.drop_last();
        let st = registry_run(ids0, next0, rest);
        match ops.last() {
            RegistryOp::Register => (st.1 < usize::MAX && x == st.1) || granted_and_kept(
                ids0,
                next0,
                rest,
                x,
            ),
            RegistryOp::Unregister(y) => x != y && granted_and_kept(ids0, next0, rest, x),
        }
    }
}

proof fn lemma_step_preserves_model_wf(ids: Seq<ClientId>, next: ClientId, op: RegistryOp)
    requires
        model_wf(ids, next),
    ensures
        model_wf(registry_step(ids, next, op).0, registry_step(ids, next, op).1),
{
    match op {
        RegistryOp::Register => {
            if next < usize::MAX {
                assert(!ids.contains(next)) by {
                    if ids.contains(next) {
                        let i = choose|i: int| 0 <= i < ids.len() && ids[i] == next;
                        assert(ids[i] < next);
                    }
                };
                lemma_push_keeps_distinct(ids, next);
            }
        },
        RegistryOp::Unregister(x) => {
            lemma_remove_id_distinct(ids, x);
            let r = remove_id(ids, x);
            assert forall|i: int| 0 <= i < r.len() implies #[trigger] r[i] < next by {
                assert(r.contains(r[i]));
                lemma_remove_id_membership(ids, x, r[i]);
                let j = choose|j: int| 0 <= j < ids.len() && ids[j] == r[i];
                assert(ids[j] < next);
            };
        },
    }
}

/// Sanity is kept across any run of operations.
pub proof fn lemma_registry_run_wf(ids: Seq<ClientId>, next: ClientId, ops: Seq<RegistryOp>)
    requires
        model_wf(ids, next),
    ensures
        model_wf(registry_run(ids, next, ops).0, registry_run(ids, next, ops).1),
    decreases ops.len(),
{
    if ops.len() > 0 {
        lemma_step_preserves_model_wf(ids, next, ops[0]);
        let st = registry_step(ids, next, ops[0]);
        lemma_registry_run_wf(st.0, st.1, ops.drop_first());
    }
}

proof fn lemma_registry_run_snoc(
    ids: Seq<ClientId>,
    next: ClientId,
    ops: Seq<RegistryOp>,
    op: RegistryOp,
)
    ensures
        registry_run(ids, next, ops.push(op)) == registry_step(
            registry_run(ids, next, ops).0,
            registry_run(ids, next, ops).1,
            op,
        ),
    decreases ops.len(),
{
    let o1 = ops.push(op);
    if ops.len() == 0 {
        assert(o1[0] == op);
        assert(o1.drop_first() =~= Seq::<RegistryOp>::empty());
        let st = registry_step(ids, next, op);
        assert(registry_run(ids, next, o1) == registry_run(st.0, st.1, o1.drop_first()));
        assert(registry_run(st.0, st.1, o1.drop_first()) == st);
    } else {
        assert(o1[0] == ops[0]);
        assert(o1.drop_first() =~= ops.drop_first().push(op));
        let st = registry_step(ids, next, ops[0]);
        assert(registry_run(ids, next, o1) == registry_run(
            st.0,
            st.1,
            ops.drop_first().push(op),
        ));
        lemma_registry_run_snoc(st.0, st.1, ops.drop_first(), op);
        assert(registry_run(ids, next, ops) == registry_run(st.0, st.1, ops.drop_first()));
    }
}

/// An id is in the registry after a run exactly when it was granted (or
/// present at the start) and not unregistered since.
pub proof fn lemma_live_iff_granted_and_kept(
    ids0: Seq<ClientId>,
    next0: ClientId,
    ops: Seq<RegistryOp>,
    x: ClientId,
)
    ensures
        registry_run(ids0, next0, ops).0.contains(x) <==> granted_and_kept(ids0, next0, ops, x),
    decreases ops.len(),
{
    if ops.len() > 0 {
        let rest = ops.drop_last();
        let last = ops.last();
        assert(rest.push(last) =~= ops);
        lemma_registry_run_snoc(ids0, next0, rest, last);
        let st = registry_run(ids0, next0, rest);
        lemma_live_iff_granted_and_kept(ids0, next0, rest, x);
        match last {
            RegistryOp::Register => {
                if st.1 < usize::MAX {
                    lemma_push_contains(st.0, st.1, x);
                }
            },
            RegistryOp::Unregister(y) => {
                lemma_remove_id_membership(st.0, y, x);
            },
        }
    }
}

/// For all sequences of register and unregister operations, the number of
/// registry entries — what `client_count` returns — equals the number of
/// distinct client ids that were granted and not unregistered since, at
/// every quiescent point.
pub proof fn lemma_client_count_is_net_registrations(ops: Seq<RegistryOp>)
    ensures
        ({
            let live = registry_run(Seq::empty(), 0, ops).0;
            let net = Set::new(|x: ClientId| granted_and_kept(Seq::empty(), 0, ops, x));
            live.len() == net.len() && live.to_set() == net
        }),
{
    let live = registry_run(Seq::empty(), 0, ops).0;
    let net = Set::new(|x: ClientId| granted_and_kept(Seq::empty(), 0, ops, x));
    assert(model_wf(Seq::empty(), 0));
    lemma_registry_run_wf(Seq::empty(), 0, ops);
    assert forall|x: ClientId| true implies (#[trigger] live.to_set().contains(x) <==> net.contains(
        x,
    )) by {
        lemma_live_iff_granted_and_kept(Seq::empty(), 0, ops, x);
    };
    assert(live.to_set() =~= net);
    live.unique_seq_to_set();
}

/// What a sequence holds after one push.
proof fn lemma_push_contains(s: Seq<ClientId>, v: ClientId, x: ClientId)
    ensures
        s.push(v).contains(x) <==> (s.contains(x) || x == v),
{
    if s.push(v).contains(x) {
        let i = choose|i: int| 0 <= i < s.push(v).len() && s.push(v)[i] == x;
        if i < s.len() {
            assert(s[i] == x);
        }
    }
    if s.contains(x) {
        let i = choose|i: int| 0 <= i < s.len() && s[i] == x;
        assert(s.push(v)[i] == x);
    }
    assert(s.push(v)[s.len() as int] == v);
}

/// Appending a fresh element keeps a sequence duplicate-free.
proof fn lemma_push_keeps_distinct(s: Seq<ClientId>, v: ClientId)
    requires
        s.no_duplicates(),
        !s.contains(v),
    ensures
        s.push(v).no_duplicates(),
{
    let c = s.push(v);
    assert forall|i: int, j: int|
        0 <= i < c.len() && 0 <= j < c.len() && i != j implies c[i] != c[j] by {
        if i < s.len() && j < s.len() {
        } else if j == s.len() && i < s.len() {
            assert(s.contains(s[i]));
        } else if i == s.len() && j < s.len() {
            assert(s.contains(s[j]));
        }
    }
}

/// Removing one more id after a batch is the same as removing the longer
/// batch at once.
proof fn lemma_remove_ids_snoc(s: Seq<ClientId>, rem: Seq<ClientId>, x: ClientId)
    ensures
        remove_id(remove_ids(s, rem), x) == remove_ids(s, rem.push(x)),
    decreases rem.len(),
{
    let r1 = rem.push(x);
    if rem.len() == 0 {
        assert(r1[0] == x);
        assert(r1.drop_first() =~= Seq::<ClientId>::empty());
        assert(remove_ids(s, r1) == remove_ids(remove_id(s, x), r1.drop_first()));
        assert(remove_ids(remove_id(s, x), r1.drop_first()) == remove_id(s, x));
        assert(remove_ids(s, rem) == s);
    } else {
        assert(r1[0] == rem[0]);
        assert(r1.drop_first() =~= rem.drop_first().push(x));
        assert(remove_ids(s, r1) == remove_ids(remove_id(s, rem[0]), rem.drop_first().push(x)));
        lemma_remove_ids_snoc(remove_id(s, rem[0]), rem.drop_first(), x);
        assert(remove_ids(s, rem) == remove_ids(remove_id(s, rem[0]), rem.drop_first()));
    }
}

/// An id survives a batch removal exactly when it was there and not in the
/// batch.
pub proof fn lemma_remove_ids_membership(s: Seq<ClientId>, rem: Seq<ClientId>, x: ClientId)
    ensures
        remove_ids(s, rem).contains(x) <==> (s.contains(x) && !rem.contains(x)),
    decreases rem.len(),
{
    if rem.len() > 0 {
        lemma_remove_id_membership(s, rem[0], x);
        lemma_remove_ids_membership(remove_id(s, rem[0]), rem.drop_first(), x);
        lemma_contains_unfold(rem, x);
    }
}

} // verus!
