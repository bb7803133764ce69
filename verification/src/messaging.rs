//! Direct messages: the store of sent and received messages and the summary
//! of the exchange with each peer.
//!
//! A message is signed over the text that [`signing_payload`] gives. A
//! message to send is drafted, signed with the node's key and stored; a
//! received message is stored once its signature verifies against the key
//! that its sender's identifier names.

use vstd::prelude::*;
use crate::clock::get_current_timestamp;
use crate::dht::text_bytes;
use crate::error::CoreError;
use crate::identity::{signature_valid, verify_text, Identity};
use crate::outside::ed25519_signature;
use crate::outside::random_uuid;
use crate::seqs::{first_index, lemma_filter_empty, lemma_filter_step, lemma_first_index, lemma_first_index_is, lemma_first_index_none};
use crate::text::{decimal, owned, push_decimal, push_text, same_text};
use crate::types::{clone_opt_text, opt_text, Conversation, ConversationView, Message, MessageRequest, MessageResponse, MessageView};

verus! {

/// Something that wants to hear of every message sent or received.
pub trait MessageHandler {
    /// Called once for each message. A failure is noted and otherwise
    /// ignored.
    fn handle_message(&self, message: &Message) -> Result<(), String>;
}

/// Counts over all messages and conversations.
#[derive(Debug, Clone, Copy, PartialEq, Eq, Structural)]
pub struct MessageStats {
    pub total_messages: usize,
    pub total_conversations: usize,
    pub unread_messages: usize,
}

/// The text that a message's signature covers: identifier, sender,
/// recipient, content and time, joined by colons.
pub open spec fn signed_text(m: MessageView) -> Seq<char> {
    m.id + ":"@ + m.from_did + ":"@ + m.to_did + ":"@ + m.content + ":"@ + decimal(m.timestamp as nat)
}

/// The condition "has the identifier `id`".
pub open spec fn has_id(id: Seq<char>) -> spec_fn(MessageView) -> bool {
    |m: MessageView| m.id == id
}

/// The condition "is the conversation with `peer`".
pub open spec fn with_peer(peer: Seq<char>) -> spec_fn(ConversationView) -> bool {
    |c: ConversationView| c.peer_did == peer
}

/// The condition "was exchanged between `local` and `peer`".
pub open spec fn between(local: Seq<char>, peer: Seq<char>) -> spec_fn(MessageView) -> bool {
    |m: MessageView| (m.from_did == local && m.to_did == peer) || (m.from_did == peer && m.to_did == local)
}

/// The condition "came from `peer` and has not been read".
pub open spec fn unread_from(peer: Seq<char>) -> spec_fn(MessageView) -> bool {
    |m: MessageView| m.from_did == peer && !m.is_read
}

/// The other party of a message, seen from `local`.
pub open spec fn peer_of(local: Seq<char>, m: MessageView) -> Seq<char> {
    if m.from_did == local {
        m.to_did
    } else {
        m.from_did
    }
}

/// `s`, which is in order of time, with `m` put in behind the messages that
/// are not later than it.
pub open spec fn insert_by_time(s: Seq<MessageView>, m: MessageView) -> Seq<MessageView>
    decreases s.len(),
{
    if s.len() == 0 {
        seq![m]
    } else if s.last().timestamp <= m.timestamp {
        s.push(m)
    } else {
        insert_by_time(s.drop_last(), m).push(s.last())
    }
}

/// The messages of `s` in order of time; messages of the same time keep the
/// order they have in `s`.
pub open spec fn sorted_by_time(s: Seq<MessageView>) -> Seq<MessageView>
    decreases s.len(),
{
    if s.len() == 0 {
        Seq::empty()
    } else {
        insert_by_time(sorted_by_time(s.drop_last()), s.last())
    }
}

/// Whether no message of `s` is earlier than the one before it.
pub open spec fn in_time_order(s: Seq<MessageView>) -> bool {
    forall|i: int, j: int| 0 <= i <= j < s.len() ==> s[i].timestamp <= s[j].timestamp
}

/// One more than `n`, unless `n` is the largest count.
pub open spec fn one_more(n: usize) -> usize {
    if n < usize::MAX {
        (n + 1) as usize
    } else {
        n
    }
}

/// The sum of the unread counts of `s`, capped at the largest count.
pub open spec fn unread_total(s: Seq<ConversationView>) -> usize
    decreases s.len(),
{
    if s.len() == 0 {
        0
    } else {
        let before = unread_total(s.drop_last());
        if before + s.last().unread_count > usize::MAX {
            usize::MAX
        } else {
            (before + s.last().unread_count) as usize
        }
    }
}

/// The message that `local` drafts from a request: unsigned and unread.
pub open spec fn drafted(
    local: Seq<char>,
    to_did: Seq<char>,
    content: Seq<char>,
    request: MessageRequest,
    id: Seq<char>,
    timestamp: u64,
) -> MessageView {
    MessageView {
        id,
        from_did: local,
        to_did,
        content,
        message_type: request.message_type,
        timestamp,
        signature: Seq::empty(),
        is_read: false,
        reply_to: opt_text(request.reply_to),
    }
}

/// Whether the signature of `m` is a valid signature of its sender for the
/// text that it covers.
pub open spec fn message_verifies(m: MessageView) -> bool {
    signature_valid(m.from_did, text_bytes(signed_text(m)), m.signature)
}

/// What a [`MessagingSystem`] stands for: its messages in the order in
/// which their identifiers first arrived, and its conversations in the
/// order in which they began.
pub struct MessagingView {
    pub local_did: Seq<char>,
    pub messages: Seq<MessageView>,
    pub conversations: Seq<ConversationView>,
}

impl MessagingView {
    /// No identifier is stored twice and no peer has two conversations.
    pub open spec fn wf(self) -> bool {
        &&& forall|i: int, j: int| 0 <= i < j < self.messages.len() ==> self.messages[i].id != self.messages[j].id
        &&& forall|i: int, j: int|
            0 <= i < j < self.conversations.len() ==> self.conversations[i].peer_did != self.conversations[j].peer_did
    }

    /// Where the message `id` is stored, if it is.
    pub open spec fn message_index(self, id: Seq<char>) -> Option<int> {
        first_index(self.messages, has_id(id))
    }

    /// Where the conversation with `peer` is kept, if there is one.
    pub open spec fn conversation_index(self, peer: Seq<char>) -> Option<int> {
        first_index(self.conversations, with_peer(peer))
    }

    /// The messages exchanged with `peer`, in order of time.
    pub open spec fn thread(self, peer: Seq<char>) -> Seq<MessageView> {
        sorted_by_time(self.messages.filter(between(self.local_did, peer)))
    }

    /// The messages after `m` is stored: it takes the place of the message
    /// with the same identifier, or is added at the end.
    pub open spec fn with_message(self, m: MessageView) -> MessagingView {
        match self.message_index(m.id) {
            Some(i) => MessagingView { messages: self.messages.update(i, m), ..self },
            None => MessagingView { messages: self.messages.push(m), ..self },
        }
    }

    /// The conversations after `m` was sent or received: the conversation
    /// with its other party, begun now if need be, has `m` as its last
    /// message and counts one message more, and one unread message more
    /// where `m` came from the peer unread.
    pub open spec fn touched(self, m: MessageView) -> MessagingView {
        let peer = peer_of(self.local_did, m);
        let unread = m.from_did != self.local_did && !m.is_read;
        match self.conversation_index(peer) {
            Some(i) => {
                let c = self.conversations[i];
                MessagingView {
                    conversations: self.conversations.update(
                        i,
                        ConversationView {
                            peer_did: c.peer_did,
                            last_message: Some(m),
                            unread_count: if unread {
                                one_more(c.unread_count)
                            } else {
                                c.unread_count
                            },
                            message_count: one_more(c.message_count),
                        },
                    ),
                    ..self
                }
            },
            None => MessagingView {
                conversations: self.conversations.push(
                    ConversationView {
                        peer_did: peer,
                        last_message: Some(m),
                        unread_count: if unread {
                            1
                        } else {
                            0
                        },
                        message_count: 1,
                    },
                ),
                ..self
            },
        }
    }

    /// The system after `m` was sent or received.
    pub open spec fn delivered(self, m: MessageView) -> MessagingView {
        self.with_message(m).touched(m)
    }

    /// The conversation with `peer` as the stored messages give it.
    pub open spec fn recounted(self, peer: Seq<char>) -> ConversationView {
        let thread = self.thread(peer);
        ConversationView {
            peer_did: peer,
            last_message: if thread.len() > 0 {
                Some(thread.last())
            } else {
                None
            },
            unread_count: thread.filter(unread_from(peer)).len() as usize,
            message_count: thread.len() as usize,
        }
    }

    /// The system after the conversation with `peer` is recomputed from the
    /// stored messages.
    pub open spec fn recalculated(self, peer: Seq<char>) -> MessagingView {
        match self.conversation_index(peer) {
            Some(i) => MessagingView { conversations: self.conversations.update(i, self.recounted(peer)), ..self },
            None => MessagingView { conversations: self.conversations.push(self.recounted(peer)), ..self },
        }
    }

    /// The system after the message `id` is marked as read. Nothing changes
    /// where there is no such message.
    pub open spec fn marked_read(self, id: Seq<char>) -> MessagingView {
        match self.message_index(id) {
            Some(i) => {
                let m = MessageView { is_read: true, ..self.messages[i] };
                MessagingView { messages: self.messages.update(i, m), ..self }.recalculated(
                    peer_of(self.local_did, m),
                )
            },
            None => self,
        }
    }

    /// The system after the message `id` is deleted. Nothing changes where
    /// there is no such message.
    pub open spec fn deleted(self, id: Seq<char>) -> MessagingView {
        match self.message_index(id) {
            Some(i) => MessagingView { messages: self.messages.remove(i), ..self }.recalculated(
                peer_of(self.local_did, self.messages[i]),
            ),
            None => self,
        }
    }

    /// The counts over all messages and conversations.
    pub open spec fn stats(self) -> MessageStats {
        MessageStats {
            total_messages: self.messages.len() as usize,
            total_conversations: self.conversations.len() as usize,
            unread_messages: unread_total(self.conversations),
        }
    }
}

/// Putting `m` in at position `p` is putting it in by time, where every
/// message from `p` on is later than `m` and the one before `p` is not.
proof fn lemma_insert_position(s: Seq<MessageView>, m: MessageView, p: int)
    requires
        0 <= p <= s.len(),
        forall|j: int| p <= j < s.len() ==> s[j].timestamp > m.timestamp,
        p > 0 ==> s[p - 1].timestamp <= m.timestamp,
    ensures
        insert_by_time(s, m) == s.insert(p, m),
    decreases s.len(),
{
    if s.len() == 0 {
        assert(s.insert(p, m) =~= seq![m]);
    } else if p == s.len() {
        assert(s.insert(p, m) =~= s.push(m));
    } else {
        let t = s.drop_last();
        lemma_insert_position(t, m, p);
        assert(t.insert(p, m).push(s.last()) =~= s.insert(p, m));
    }
}

/// Putting a message in by time keeps the order of time and adds one
/// message.
pub proof fn lemma_insert_keeps_order(s: Seq<MessageView>, m: MessageView)
    requires
        in_time_order(s),
    ensures
        in_time_order(insert_by_time(s, m)),
        insert_by_time(s, m).len() == s.len() + 1,
        insert_by_time(s, m).to_multiset() == s.to_multiset().insert(m),
    decreases s.len(),
{
    broadcast use vstd::seq_lib::group_to_multiset_ensures;

    if s.len() == 0 {
        assert(s =~= Seq::empty());
        assert(seq![m] =~= Seq::<MessageView>::empty().push(m));
    } else if s.last().timestamp <= m.timestamp {
    } else {
        let t = s.drop_last();
        assert(in_time_order(t)) by {
            assert forall|i: int, j: int| 0 <= i <= j < t.len() implies t[i].timestamp <= t[j].timestamp by {
                assert(t[i] == s[i] && t[j] == s[j]);
            }
        }
        lemma_insert_keeps_order(t, m);
        let u = insert_by_time(t, m);
        let r = u.push(s.last());
        assert forall|i: int, j: int| 0 <= i <= j < r.len() implies r[i].timestamp <= r[j].timestamp by {
            if j == r.len() - 1 && i < j {
                assert(u.to_multiset().count(u[i]) > 0);
                if u[i] != m {
                    assert(t.to_multiset().count(u[i]) > 0);
                    assert(t.contains(u[i]));
                    let w = choose|w: int| 0 <= w < t.len() && t[w] == u[i];
                    assert(s[w] == u[i]);
                }
            }
        }
        assert(s =~= t.push(s.last()));
        assert(r.to_multiset() =~= s.to_multiset().insert(m));
    }
}

/// Sorting by time gives the same messages, in order of time.
pub proof fn lemma_sorted_by_time(s: Seq<MessageView>)
    ensures
        in_time_order(sorted_by_time(s)),
        sorted_by_time(s).len() == s.len(),
        sorted_by_time(s).to_multiset() == s.to_multiset(),
    decreases s.len(),
{
    broadcast use vstd::seq_lib::group_to_multiset_ensures;

    if s.len() == 0 {
        assert(s =~= Seq::empty());
    } else {
        lemma_sorted_by_time(s.drop_last());
        lemma_insert_keeps_order(sorted_by_time(s.drop_last()), s.last());
        assert(s =~= s.drop_last().push(s.last()));
    }
}

fn insert_sorted(out: &mut Vec<Message>, m: Message)
    ensures
        final(out).deep_view() == insert_by_time(old(out).deep_view(), m@),
{
    let mut p: usize = out.len();
    while p > 0 && out[p - 1].timestamp > m.timestamp
        invariant
            p <= out.len(),
            forall|j: int| p <= j < out.len() ==> out@[j].timestamp > m.timestamp,
        decreases p,
    {
        p = p - 1;
    }
    proof {
        lemma_insert_position(out.deep_view(), m@, p as int);
    }
    let ghost before = out.deep_view();
    let ghost added = m@;
    out.insert(p, m);
    assert(out.deep_view() =~= before.insert(p as int, added));
}

/// The text that the signature of `message` covers.
pub fn signing_payload(message: &Message) -> (payload: String)
    ensures
        payload@ == signed_text(message@),
{
    let mut payload = message.id.clone();
    push_text(&mut payload, ":");
    push_text(&mut payload, message.from_did.as_str());
    push_text(&mut payload, ":");
    push_text(&mut payload, message.to_did.as_str());
    push_text(&mut payload, ":");
    push_text(&mut payload, message.content.as_str());
    push_text(&mut payload, ":");
    push_decimal(&mut payload, message.timestamp);
    payload
}

/// The store of direct messages of one node, with handlers of type `H`.
pub struct MessagingSystem<H: MessageHandler> {
    messages: Vec<Message>,
    conversations: Vec<Conversation>,
    local_did: String,
    message_handlers: Vec<H>,
}

impl<H: MessageHandler> View for MessagingSystem<H> {
    type V = MessagingView;

    closed spec fn view(&self) -> MessagingView {
        MessagingView {
            local_did: self.local_did@,
            messages: self.messages.deep_view(),
            conversations: self.conversations.deep_view(),
        }
    }
}

impl<H: MessageHandler> MessagingSystem<H> {
    /// Whether the system keeps its invariant.
    pub open spec fn wf(&self) -> bool {
        self@.wf()
    }

    /// How many handlers are registered.
    pub open spec fn handler_count(&self) -> nat {
        self.handlers().len()
    }

    /// An empty store for the node whose identity is `local_did`.
    pub fn new(local_did: String) -> (s: MessagingSystem<H>)
        ensures
            s.wf(),
            s@ == (MessagingView { local_did: local_did@, messages: Seq::empty(), conversations: Seq::empty() }),
            s.handler_count() == 0,
    {
        let s = MessagingSystem {
            messages: Vec::new(),
            conversations: Vec::new(),
            local_did,
            message_handlers: Vec::new(),
        };
        assert(s.messages.deep_view() =~= Seq::empty());
        assert(s.conversations.deep_view() =~= Seq::empty());
        s
    }

    /// The message that this node sends for `request`, with the given
    /// identifier and time, not yet signed.
    pub fn draft_message_with(&self, request: &MessageRequest, id: String, timestamp: u64) -> (m: Message)
        ensures
            m@ == drafted(self@.local_did, request.to_did@, request.content@, *request, id@, timestamp),
    {
        Message {
            id,
            from_did: self.local_did.clone(),
            to_did: request.to_did.clone(),
            content: request.content.clone(),
            message_type: request.message_type,
            timestamp,
            signature: Vec::new(),
            is_read: false,
            reply_to: clone_opt_text(&request.reply_to),
        }
    }

    /// The message that this node sends for `request`, with a fresh random
    /// identifier and the time of the system clock, not yet signed.
    pub fn draft_message(&self, request: &MessageRequest) -> (m: Message)
        ensures
            m@ == drafted(self@.local_did, request.to_did@, request.content@, *request, m@.id, m@.timestamp),
            m@.id.len() == 36,
    {
        let id = random_uuid();
        let timestamp = get_current_timestamp();
        self.draft_message_with(request, id, timestamp)
    }

    fn find_message(&self, id: &str) -> (r: Option<usize>)
        ensures
            match r {
                Some(i) => self@.message_index(id@) == Some(i as int) && i < self.messages.len(),
                None => self@.message_index(id@).is_none(),
            },
    {
        let mut i: usize = 0;
        while i < self.messages.len()
            invariant
                i <= self.messages.len(),
                forall|j: int| 0 <= j < i ==> !has_id(id@)(#[trigger] self@.messages[j]),
            decreases self.messages.len() - i,
        {
            if same_text(self.messages[i].id.as_str(), id) {
                proof {
                    lemma_first_index_is(self@.messages, has_id(id@), i as int);
                }
                return Some(i);
            }
            i = i + 1;
        }
        proof {
            lemma_first_index_none(self@.messages, has_id(id@));
        }
        None
    }

    fn find_conversation(&self, peer: &str) -> (r: Option<usize>)
        ensures
            match r {
                Some(i) => self@.conversation_index(peer@) == Some(i as int) && i < self.conversations.len(),
                None => self@.conversation_index(peer@).is_none(),
            },
    {
        let mut i: usize = 0;
        while i < self.conversations.len()
            invariant
                i <= self.conversations.len(),
                forall|j: int| 0 <= j < i ==> !with_peer(peer@)(#[trigger] self@.conversations[j]),
            decreases self.conversations.len() - i,
        {
            if same_text(self.conversations[i].peer_did.as_str(), peer) {
                proof {
                    lemma_first_index_is(self@.conversations, with_peer(peer@), i as int);
                }
                return Some(i);
            }
            i = i + 1;
        }
        proof {
            lemma_first_index_none(self@.conversations, with_peer(peer@));
        }
        None
    }

    fn store_message(&mut self, message: Message)
        requires
            old(self).wf(),
        ensures
            final(self).wf(),
            final(self)@ == old(self)@.with_message(message@),
            final(self).handlers() == old(self).handlers(),
    {
        proof {
            lemma_first_index(self@.messages, has_id(message@.id));
        }
        let ghost before = self.messages.deep_view();
        let ghost added = message@;
        match self.find_message(message.id.as_str()) {
            Some(i) => {
                self.messages[i] = message;
                assert(self.messages.deep_view() =~= before.update(i as int, added));
                assert(has_id(added.id)(before[i as int]));
                assert(self@.conversations == old(self)@.conversations);
                assert(forall|a: int, b: int|
                    0 <= a < b < self@.messages.len() ==> self@.messages[a].id != self@.messages[b].id);
            },
            None => {
                assert(forall|j: int| 0 <= j < before.len() ==> !has_id(added.id)(#[trigger] before[j]));
                self.messages.push(message);
                assert(self.messages.deep_view() =~= before.push(added));
                assert(self@.conversations == old(self)@.conversations);
                assert(forall|a: int, b: int|
                    0 <= a < b < self@.messages.len() ==> self@.messages[a].id != self@.messages[b].id);
            },
        }
    }

    /// Brings the conversation with the other party of `message` up to date
    /// after the message was sent or received.
    fn update_conversation(&mut self, message: &Message)
        requires
            old(self).wf(),
        ensures
            final(self).wf(),
            final(self)@ == old(self)@.touched(message@),
            final(self).handlers() == old(self).handlers(),
    {
        let from_local = same_text(message.from_did.as_str(), self.local_did.as_str());
        let peer = if from_local {
            message.to_did.clone()
        } else {
            message.from_did.clone()
        };
        let unread = !from_local && !message.is_read;
        proof {
            lemma_first_index(self@.conversations, with_peer(peer@));
        }
        let ghost before = self.conversations.deep_view();
        match self.find_conversation(peer.as_str()) {
            Some(i) => {
                let c = &self.conversations[i];
                let unread_count = if unread && c.unread_count < usize::MAX {
                    c.unread_count + 1
                } else {
                    c.unread_count
                };
                let message_count = if c.message_count < usize::MAX {
                    c.message_count + 1
                } else {
                    c.message_count
                };
                let updated = Conversation {
                    peer_did: c.peer_did.clone(),
                    last_message: Some(message.clone()),
                    unread_count,
                    message_count,
                };
                let ghost added = updated@;
                self.conversations[i] = updated;
                assert(self.conversations.deep_view() =~= before.update(i as int, added));
                assert(with_peer(peer@)(before[i as int]));
                assert(self@.messages == old(self)@.messages);
                assert(forall|a: int, b: int|
                    0 <= a < b < self@.conversations.len() ==> self@.conversations[a].peer_did
                        != self@.conversations[b].peer_did);
            },
            None => {
                assert(forall|j: int| 0 <= j < before.len() ==> !with_peer(peer@)(#[trigger] before[j]));
                let created = Conversation {
                    peer_did: peer,
                    last_message: Some(message.clone()),
                    unread_count: if unread {
                        1
                    } else {
                        0
                    },
                    message_count: 1,
                };
                let ghost added = created@;
                self.conversations.push(created);
                assert(self.conversations.deep_view() =~= before.push(added));
                assert(self@.messages == old(self)@.messages);
                assert(forall|a: int, b: int|
                    0 <= a < b < self@.conversations.len() ==> self@.conversations[a].peer_did
                        != self@.conversations[b].peer_did);
            },
        }
    }

    /// Recomputes the conversation with `peer_did` from the stored messages.
    fn recalculate_conversation(&mut self, peer_did: &str)
        requires
            old(self).wf(),
        ensures
            final(self).wf(),
            final(self)@ == old(self)@.recalculated(peer_did@),
            final(self).handlers() == old(self).handlers(),
    {
        let thread = self.get_messages(peer_did);
        let mut unread: usize = 0;
        let mut i: usize = 0;
        proof {
            lemma_filter_empty(thread.deep_view().take(0), unread_from(peer_did@));
        }
        while i < thread.len()
            invariant
                i <= thread.len(),
                unread <= i,
                unread == thread.deep_view().take(i as int).filter(unread_from(peer_did@)).len(),
            decreases thread.len() - i,
        {
            proof {
                lemma_filter_step(thread.deep_view(), unread_from(peer_did@), i as int);
            }
            if same_text(thread[i].from_did.as_str(), peer_did) && !thread[i].is_read {
                unread = unread + 1;
            }
            i = i + 1;
        }
        assert(thread.deep_view().take(thread.len() as int) =~= thread.deep_view());
        let last = if thread.len() > 0 {
            Some(thread[thread.len() - 1].clone())
        } else {
            None
        };
        let recounted = Conversation {
            peer_did: owned(peer_did),
            last_message: last,
            unread_count: unread,
            message_count: thread.len(),
        };
        proof {
            lemma_first_index(self@.conversations, with_peer(peer_did@));
        }
        let ghost before = self.conversations.deep_view();
        let ghost added = recounted@;
        assert(added == self@.recounted(peer_did@));
        match self.find_conversation(peer_did) {
            Some(k) => {
                self.conversations[k] = recounted;
                assert(self.conversations.deep_view() =~= before.update(k as int, added));
                assert(with_peer(peer_did@)(before[k as int]));
                assert(self@.messages == old(self)@.messages);
                assert(forall|a: int, b: int|
                    0 <= a < b < self@.conversations.len() ==> self@.conversations[a].peer_did
                        != self@.conversations[b].peer_did);
            },
            None => {
                assert(forall|j: int| 0 <= j < before.len() ==> !with_peer(peer_did@)(#[trigger] before[j]));
                self.conversations.push(recounted);
                assert(self.conversations.deep_view() =~= before.push(added));
                assert(self@.messages == old(self)@.messages);
                assert(forall|a: int, b: int|
                    0 <= a < b < self@.conversations.len() ==> self@.conversations[a].peer_did
                        != self@.conversations[b].peer_did);
            },
        }
    }

    /// Hands `message` to every registered handler, in the order of their
    /// registration. Returns how many of their answers were failures.
    fn notify_handlers(&self, message: &Message) -> (failed: usize)
        ensures
            failed <= self.handler_count(),
            exists|outcomes: Seq<Result<(), String>>|
                self.heard(message, outcomes) && failed == #[trigger] failures(outcomes),
    {
        let mut failed: usize = 0;
        let mut i: usize = 0;
        let ghost mut outcomes: Seq<Result<(), String>> = Seq::empty();
        while i < self.message_handlers.len()
            invariant
                i <= self.message_handlers.len(),
                failed <= i,
                outcomes.len() == i,
                failed == failures(outcomes),
                forall|j: int|
                    0 <= j < i ==> call_ensures(
                        H::handle_message,
                        (&self.message_handlers@[j], message),
                        #[trigger] outcomes[j],
                    ),
            decreases self.message_handlers.len() - i,
        {
            let outcome = self.message_handlers[i].handle_message(message);
            proof {
                assert(outcomes.push(outcome).drop_last() =~= outcomes);
                outcomes = outcomes.push(outcome);
            }
            match outcome {
                Ok(()) => {},
                Err(_) => {
                    failed = failed + 1;
                },
            }
            i = i + 1;
        }
        assert(self.heard(message, outcomes));
        failed
    }

    /// The registered handlers, in the order of their registration.
    pub closed spec fn handlers(&self) -> Seq<H> {
        self.message_handlers@
    }

    /// Whether `outcomes` are what the registered handlers, each in its
    /// turn, can have answered when they were handed `message`.
    pub open spec fn heard(&self, message: &Message, outcomes: Seq<Result<(), String>>) -> bool {
        &&& outcomes.len() == self.handlers().len()
        &&& forall|i: int|
            0 <= i < outcomes.len() ==> call_ensures(
                H::handle_message,
                (&self.handlers()[i], message),
                #[trigger] outcomes[i],
            )
    }

    /// Whether every registered handler, each in its turn, was handed the
    /// message that `m` stands for and has answered.
    pub open spec fn told(&self, m: MessageView) -> bool {
        exists|message: Message, outcomes: Seq<Result<(), String>>|
            message@ == m && #[trigger] self.heard(&message, outcomes)
    }

    /// Sends what `request` asks for in the name of `identity`: the message
    /// is drafted with a fresh random identifier and the time of the system
    /// clock, signed with the identity's key, stored, and told to the
    /// handlers, and the conversation with its recipient is brought up to
    /// date. An identity that is not this node's is refused, and nothing
    /// changes.
    pub fn send_message(&mut self, identity: &Identity, request: MessageRequest) -> (r: Result<
        MessageResponse,
        CoreError,
    >)
        requires
            old(self).wf(),
        ensures
            final(self).wf(),
            final(self).handlers() == old(self).handlers(),
            identity.id() != old(self)@.local_did ==> r == Err::<MessageResponse, CoreError>(CoreError::NotAuthorized)
                && final(self)@ == old(self)@,
            identity.id() == old(self)@.local_did ==> r is Ok && r.unwrap().success && r.unwrap().message@
                == "Message sent successfully"@ && exists|timestamp: u64|
                {
                    let draft = #[trigger] drafted(
                        old(self)@.local_did,
                        request.to_did@,
                        request.content@,
                        request,
                        r.unwrap().message_id@,
                        timestamp,
                    );
                    let signature = ed25519_signature(identity.secret_key(), text_bytes(signed_text(draft)));
                    &&& signature is Some
                    &&& final(self)@ == old(self)@.delivered(MessageView { signature: signature.unwrap(), ..draft })
                    &&& final(self).told(MessageView { signature: signature.unwrap(), ..draft })
                },
    {
        if !same_text(identity.local_did().id.as_str(), self.local_did.as_str()) {
            return Err(CoreError::NotAuthorized);
        }
        let mut message = self.draft_message(&request);
        let ghost draft = message@;
        let payload = signing_payload(&message);
        message.signature = identity.sign_text(payload.as_str());
        assert(message@ == MessageView { signature: message.signature@, ..draft });
        assert(draft == drafted(
            self@.local_did,
            request.to_did@,
            request.content@,
            request,
            draft.id,
            draft.timestamp,
        ));
        self.send_signed(message)
    }

    /// Stores a signed message of this node, brings the conversation with
    /// its recipient up to date and tells the handlers. A message whose
    /// sender is not this node is refused: nothing changes and no handler
    /// is told.
    pub fn send_signed(&mut self, message: Message) -> (r: Result<MessageResponse, CoreError>)
        requires
            old(self).wf(),
        ensures
            final(self).wf(),
            final(self).handlers() == old(self).handlers(),
            message@.from_did != old(self)@.local_did ==> r == Err::<MessageResponse, CoreError>(
                CoreError::NotAuthorized,
            ) && final(self)@ == old(self)@,
            message@.from_did == old(self)@.local_did ==> final(self)@ == old(self)@.delivered(message@) && r is Ok
                && r.unwrap().message_id@ == message@.id && r.unwrap().success && r.unwrap().message@
                == "Message sent successfully"@ && final(self).told(message@),
    {
        if !same_text(message.from_did.as_str(), self.local_did.as_str()) {
            return Err(CoreError::NotAuthorized);
        }
        let message_id = message.id.clone();
        let copy = message.clone();
        self.store_message(message);
        self.update_conversation(&copy);
        self.notify_handlers(&copy);
        Ok(MessageResponse { message_id, success: true, message: owned("Message sent successfully") })
    }

    /// Stores a message from a peer, brings the conversation with the peer
    /// up to date and tells the handlers, once the message's signature has
    /// verified against the key that its sender's identifier names. A
    /// message whose signature does not verify is refused, and nothing
    /// changes.
    pub fn receive_message(&mut self, message: Message) -> (r: Result<(), CoreError>)
        requires
            old(self).wf(),
        ensures
            final(self).wf(),
            final(self).handlers() == old(self).handlers(),
            !message_verifies(message@) ==> r == Err::<(), CoreError>(CoreError::BadSignature) && final(self)@ == old(self)@,
            message_verifies(message@) ==> r is Ok && final(self)@ == old(self)@.delivered(message@) && final(self).told(message@),
    {
        let payload = signing_payload(&message);
        let valid = verify_text(message.from_did.as_str(), payload.as_str(), &message.signature);
        self.receive_message_with(message, valid)
    }

    /// Stores a message from a peer, brings the conversation with the peer
    /// up to date and tells the handlers. `signature_valid` says whether the
    /// message's signature verified against its sender's key over
    /// [`signed_text`]; where it did not, the message is refused and
    /// nothing changes.
    pub fn receive_message_with(&mut self, message: Message, signature_valid: bool) -> (r: Result<(), CoreError>)
        requires
            old(self).wf(),
        ensures
            final(self).wf(),
            final(self).handlers() == old(self).handlers(),
            !signature_valid ==> r == Err::<(), CoreError>(CoreError::BadSignature) && final(self)@ == old(self)@,
            signature_valid ==> r is Ok && final(self)@ == old(self)@.delivered(message@) && final(self).told(
                message@,
            ),
    {
        if !signature_valid {
            return Err(CoreError::BadSignature);
        }
        let copy = message.clone();
        self.store_message(message);
        self.update_conversation(&copy);
        self.notify_handlers(&copy);
        Ok(())
    }

    /// The messages exchanged with `peer_did`, in order of time; messages of
    /// the same time in the order in which they are stored.
    pub fn get_messages(&self, peer_did: &str) -> (r: Vec<Message>)
        ensures
            r.deep_view() == self@.thread(peer_did@),
            r.len() <= self@.messages.len(),
            in_time_order(r.deep_view()),
    {
        let mut out: Vec<Message> = Vec::new();
        let mut i: usize = 0;
        let ghost cond = between(self@.local_did, peer_did@);
        proof {
            lemma_filter_empty(self@.messages.take(0), cond);
            assert(out.deep_view() =~= Seq::empty());
        }
        while i < self.messages.len()
            invariant
                i <= self.messages.len(),
                cond == between(self@.local_did, peer_did@),
                out.deep_view() == sorted_by_time(self@.messages.take(i as int).filter(cond)),
                out.len() <= i,
            decreases self.messages.len() - i,
        {
            proof {
                lemma_filter_step(self@.messages, cond, i as int);
                lemma_sorted_by_time(self@.messages.take(i + 1).filter(cond));
                self@.messages.take(i + 1).lemma_filter_len(cond);
            }
            let m = &self.messages[i];
            let sent = same_text(m.from_did.as_str(), self.local_did.as_str()) && same_text(m.to_did.as_str(), peer_did);
            let received = same_text(m.from_did.as_str(), peer_did) && same_text(
                m.to_did.as_str(),
                self.local_did.as_str(),
            );
            if sent || received {
                proof {
                    let f = self@.messages.take(i as int).filter(cond);
                    assert(f.push(m@).drop_last() =~= f);
                }
                insert_sorted(&mut out, m.clone());
            }
            i = i + 1;
        }
        assert(self@.messages.take(self.messages.len() as int) =~= self@.messages);
        proof {
            lemma_sorted_by_time(self@.messages.filter(cond));
        }
        out
    }

    /// All conversations, in the order in which they began.
    pub fn get_conversations(&self) -> (r: Vec<Conversation>)
        ensures
            r.deep_view() == self@.conversations,
    {
        let mut r: Vec<Conversation> = Vec::new();
        let mut i: usize = 0;
        while i < self.conversations.len()
            invariant
                i <= self.conversations.len(),
                r.len() == i,
                forall|j: int| 0 <= j < i ==> r@[j]@ == self.conversations@[j]@,
            decreases self.conversations.len() - i,
        {
            r.push(self.conversations[i].clone());
            i = i + 1;
        }
        assert(r.deep_view() =~= self.conversations.deep_view());
        r
    }

    /// Marks the message `message_id` as read and recomputes the
    /// conversation it belongs to. Nothing changes where there is no such
    /// message.
    pub fn mark_message_read(&mut self, message_id: &str) -> (found: bool)
        requires
            old(self).wf(),
        ensures
            final(self).wf(),
            final(self).handlers() == old(self).handlers(),
            final(self)@ == old(self)@.marked_read(message_id@),
            found == old(self)@.message_index(message_id@).is_some(),
    {
        proof {
            lemma_first_index(self@.messages, has_id(message_id@));
        }
        match self.find_message(message_id) {
            Some(i) => {
                let ghost before = self.messages.deep_view();
                self.messages[i].is_read = true;
                let m = &self.messages[i];
                let peer = if same_text(m.from_did.as_str(), self.local_did.as_str()) {
                    m.to_did.clone()
                } else {
                    m.from_did.clone()
                };
                assert(self.messages.deep_view() =~= before.update(
                    i as int,
                    MessageView { is_read: true, ..before[i as int] },
                ));
                assert(self@.conversations == old(self)@.conversations);
                assert(forall|a: int, b: int|
                    0 <= a < b < self@.messages.len() ==> self@.messages[a].id != self@.messages[b].id);
                self.recalculate_conversation(peer.as_str());
                true
            },
            None => false,
        }
    }

    /// Deletes the message `message_id` and recomputes the conversation it
    /// belonged to. Nothing changes where there is no such message.
    pub fn delete_message(&mut self, message_id: &str) -> (found: bool)
        requires
            old(self).wf(),
        ensures
            final(self).wf(),
            final(self).handlers() == old(self).handlers(),
            final(self)@ == old(self)@.deleted(message_id@),
            found == old(self)@.message_index(message_id@).is_some(),
    {
        match self.find_message(message_id) {
            Some(i) => {
                let ghost before = self.messages.deep_view();
                let m = self.messages.remove(i);
                let peer = if same_text(m.from_did.as_str(), self.local_did.as_str()) {
                    m.to_did
                } else {
                    m.from_did
                };
                assert(self.messages.deep_view() =~= before.remove(i as int));
                assert(self@.conversations == old(self)@.conversations);
                assert(forall|a: int, b: int|
                    0 <= a < b < self@.messages.len() ==> self@.messages[a].id != self@.messages[b].id) by {
                    assert forall|a: int, b: int| 0 <= a < b < before.len() - 1 implies before.remove(i as int)[a].id
                        != before.remove(i as int)[b].id by {
                        let a0 = if a < i { a } else { a + 1 };
                        let b0 = if b < i { b } else { b + 1 };
                        assert(before.remove(i as int)[a] == before[a0]);
                        assert(before.remove(i as int)[b] == before[b0]);
                    }
                }
                self.recalculate_conversation(peer.as_str());
                true
            },
            None => false,
        }
    }

    /// Registers a handler; it is told of every message from now on.
    pub fn add_message_handler(&mut self, handler: H)
        ensures
            final(self)@ == old(self)@,
            final(self).handlers() == old(self).handlers().push(handler),
            final(self).handler_count() == old(self).handler_count() + 1,
    {
        self.message_handlers.push(handler);
    }

    /// The counts over all messages and conversations.
    pub fn get_message_stats(&self) -> (r: MessageStats)
        ensures
            r == self@.stats(),
    {
        let mut unread: usize = 0;
        let mut i: usize = 0;
        while i < self.conversations.len()
            invariant
                i <= self.conversations.len(),
                unread == unread_total(self@.conversations.take(i as int)),
            decreases self.conversations.len() - i,
        {
            proof {
                assert(self@.conversations.take(i + 1).drop_last() =~= self@.conversations.take(i as int));
                assert(self@.conversations.take(i + 1).last() == self@.conversations[i as int]);
            }
            unread = unread.saturating_add(self.conversations[i].unread_count);
            i = i + 1;
        }
        assert(self@.conversations.take(self.conversations.len() as int) =~= self@.conversations);
        MessageStats {
            total_messages: self.messages.len(),
            total_conversations: self.conversations.len(),
            unread_messages: unread,
        }
    }
}

/// How many of `outcomes` are failures.
pub open spec fn failures(outcomes: Seq<Result<(), String>>) -> nat
    decreases outcomes.len(),
{
    if outcomes.len() == 0 {
        0
    } else if outcomes.last() is Err {
        failures(outcomes.drop_last()) + 1
    } else {
        failures(outcomes.drop_last())
    }
}

} // verus!
