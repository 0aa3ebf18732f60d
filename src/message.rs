//! Message identities, parsed messages, and the two stores the ingestion
//! pipeline keeps: the accepted messages and the outstanding requests.

use vstd::prelude::*;

verus! {

/// Length in bytes of a message identity.
pub const MESSAGE_ID_LENGTH: usize = 32;

/// The identity of a message: the digest of its byte encoding.
#[derive(Clone, Copy, Debug)]
pub struct MessageId {
    pub bytes: [u8; 32],
}

impl View for MessageId {
    type V = Seq<u8>;

    open spec fn view(&self) -> Seq<u8> {
        self.bytes@
    }
}

impl MessageId {
    pub fn new(bytes: [u8; 32]) -> (r: MessageId)
        ensures
            r.bytes == bytes,
    {
        MessageId { bytes }
    }

    /// Whether two identities hold the same bytes.
    pub fn same(&self, other: &MessageId) -> (r: bool)
        ensures
            r == (self@ == other@),
    {
        let mut i: usize = 0;
        while i < MESSAGE_ID_LENGTH
            invariant
                i <= MESSAGE_ID_LENGTH,
                self@.len() == MESSAGE_ID_LENGTH,
                other@.len() == MESSAGE_ID_LENGTH,
                forall|k: int| 0 <= k < i ==> self@[k] == other@[k],
            decreases MESSAGE_ID_LENGTH - i,
        {
            if self.bytes[i] != other.bytes[i] {
                return false;
            }
            i = i + 1;
        }
        assert(self@ =~= other@);
        true
    }
}

/// The kind of payload a message carries, as far as ingestion cares.
#[derive(Clone, Copy, Debug, PartialEq, Eq, Structural)]
pub enum Payload {
    Milestone,
    Indexation,
    Other,
}

/// A parsed message: the network it belongs to, its two parents (which may
/// be equal), and its payload, if any.
#[derive(Clone, Copy, Debug)]
pub struct Message {
    pub network_id: u64,
    pub parent1: MessageId,
    pub parent2: MessageId,
    pub payload: Option<Payload>,
}

/// What is recorded about a message when it is accepted.
#[derive(Clone, Copy, Debug)]
pub struct MessageMetadata {
    pub arrival_timestamp: u64,
    pub requested: bool,
}

/// A message held by the store.
#[derive(Clone, Copy, Debug)]
pub struct StoredMessage {
    pub id: MessageId,
    pub message: Message,
    pub metadata: MessageMetadata,
}

/// The identities held by `s`, in order.
pub open spec fn stored_ids(s: Seq<StoredMessage>) -> Seq<Seq<u8>> {
    s.map_values(|e: StoredMessage| e.id@)
}

/// The store of accepted messages: each identity at most once.
pub struct MessageStore {
    entries: Vec<StoredMessage>,
}

impl View for MessageStore {
    type V = Seq<StoredMessage>;

    closed spec fn view(&self) -> Seq<StoredMessage> {
        self.entries@
    }
}

impl MessageStore {
    pub open spec fn ids(&self) -> Seq<Seq<u8>> {
        stored_ids(self@)
    }

    pub open spec fn wf(&self) -> bool {
        self.ids().no_duplicates()
    }

    pub fn new() -> (r: MessageStore)
        ensures
            r.wf(),
            r@ == Seq::<StoredMessage>::empty(),
    {
        let r = MessageStore { entries: Vec::new() };
        assert(r.ids() =~= Seq::<Seq<u8>>::empty());
        r
    }

    pub fn len(&self) -> (r: usize)
        ensures
            r == self@.len(),
    {
        self.entries.len()
    }

    /// Whether a message with identity `id` is stored.
    pub fn contains(&self, id: &MessageId) -> (r: bool)
        ensures
            r == self.ids().contains(id@),
    {
        let mut i: usize = 0;
        while i < self.entries.len()
            invariant
                i <= self@.len(),
                forall|k: int| 0 <= k < i ==> self@[k].id@ != id@,
            decreases self@.len() - i,
        {
            if self.entries[i].id.same(id) {
                assert(self.ids()[i as int] == id@);
                return true;
            }
            i = i + 1;
        }
        proof {
            if self.ids().contains(id@) {
                let k = choose|k: int| 0 <= k < self.ids().len() && self.ids()[k] == id@;
                assert(self@[k].id@ == id@);
            }
        }
        false
    }

    /// Stores the message under `id` unless that identity is already held.
    /// Returns the message when it was new, `None` when it was known (the
    /// stored entry is then left as it was).
    pub fn insert(&mut self, message: Message, id: MessageId, metadata: MessageMetadata) -> (r: Option<Message>)
        requires
            old(self).wf(),
        ensures
            final(self).wf(),
            old(self).ids().contains(id@) ==> r is None && final(self)@ == old(self)@,
            !old(self).ids().contains(id@) ==> r == Some(message) && final(self)@ == old(self)@.push(
                StoredMessage { id, message, metadata },
            ),
    {
        if self.contains(&id) {
            return None;
        }
        let ghost before = self.ids();
        self.entries.push(StoredMessage { id, message, metadata });
        assert(self.ids() =~= before.push(id@));
        Some(message)
    }
}

/// An outstanding request for a message: the milestone index it was
/// requested for and when.
#[derive(Clone, Copy, Debug)]
pub struct RequestEntry {
    pub id: MessageId,
    pub index: u32,
    pub requested_at: u64,
}

pub open spec fn request_ids(s: Seq<RequestEntry>) -> Seq<Seq<u8>> {
    s.map_values(|e: RequestEntry| e.id@)
}

/// Position of the request for `id` in `s` (meaningful when there is one).
pub open spec fn request_pos(s: Seq<RequestEntry>, id: Seq<u8>) -> int {
    choose|i: int| 0 <= i < s.len() && s[i].id@ == id
}

/// The outstanding requests, each identity at most once.
pub struct RequestedMessages {
    entries: Vec<RequestEntry>,
}

impl View for RequestedMessages {
    type V = Seq<RequestEntry>;

    closed spec fn view(&self) -> Seq<RequestEntry> {
        self.entries@
    }
}

impl RequestedMessages {
    pub open spec fn ids(&self) -> Seq<Seq<u8>> {
        request_ids(self@)
    }

    pub open spec fn wf(&self) -> bool {
        self.ids().no_duplicates()
    }

    pub fn new() -> (r: RequestedMessages)
        ensures
            r.wf(),
            r@ == Seq::<RequestEntry>::empty(),
    {
        let r = RequestedMessages { entries: Vec::new() };
        assert(r.ids() =~= Seq::<Seq<u8>>::empty());
        r
    }

    pub fn len(&self) -> (r: usize)
        ensures
            r == self@.len(),
    {
        self.entries.len()
    }

    fn find(&self, id: &MessageId) -> (r: Option<usize>)
        ensures
            r is None <==> !self.ids().contains(id@),
            r matches Some(i) ==> i < self@.len() && self@[i as int].id@ == id@,
    {
        let mut i: usize = 0;
        while i < self.entries.len()
            invariant
                i <= self@.len(),
                forall|k: int| 0 <= k < i ==> self@[k].id@ != id@,
            decreases self@.len() - i,
        {
            if self.entries[i].id.same(id) {
                assert(self.ids()[i as int] == id@);
                return Some(i);
            }
            i = i + 1;
        }
        proof {
            if self.ids().contains(id@) {
                let k = choose|k: int| 0 <= k < self.ids().len() && self.ids()[k] == id@;
                assert(self@[k].id@ == id@);
            }
        }
        None
    }

    /// Whether `id` is requested.
    pub fn contains_key(&self, id: &MessageId) -> (r: bool)
        ensures
            r == self.ids().contains(id@),
    {
        self.find(id).is_some()
    }

    /// Records a request for `id` unless one is outstanding; says whether it did.
    pub fn insert(&mut self, id: MessageId, index: u32, requested_at: u64) -> (r: bool)
        requires
            old(self).wf(),
        ensures
            final(self).wf(),
            r == !old(self).ids().contains(id@),
            r ==> final(self)@ == old(self)@.push(RequestEntry { id, index, requested_at }),
            !r ==> final(self)@ == old(self)@,
    {
        if self.contains_key(&id) {
            return false;
        }
        let ghost before = self.ids();
        self.entries.push(RequestEntry { id, index, requested_at });
        assert(self.ids() =~= before.push(id@));
        true
    }

    /// Takes out the request for `id`, if there is one.
    pub fn remove(&mut self, id: &MessageId) -> (r: Option<RequestEntry>)
        requires
            old(self).wf(),
        ensures
            final(self).wf(),
            r is None <==> !old(self).ids().contains(id@),
            r is None ==> final(self)@ == old(self)@,
            r matches Some(e) ==> e == old(self)@[request_pos(old(self)@, id@)] && final(self)@
                == old(self)@.remove(request_pos(old(self)@, id@)),
            !final(self).ids().contains(id@),
    {
        match self.find(id) {
            None => None,
            Some(i) => {
                let ghost before = self@;
                let ghost bids = self.ids();
                proof {
                    let j = request_pos(before, id@);
                    assert(before[j].id@ == id@);
                    assert(bids[j] == bids[i as int]);
                }
                let e = self.entries.remove(i);
                proof {
                    assert(self.ids() =~= bids.remove(i as int));
                    assert(self.ids().no_duplicates()) by {
                        assert forall|a: int, b: int|
                            0 <= a < self.ids().len() && 0 <= b < self.ids().len() && a != b implies self.ids()[a]
                            != self.ids()[b] by {
                            let sa = if a < i { a } else { a + 1 };
                            let sb = if b < i { b } else { b + 1 };
                            assert(self.ids()[a] == bids[sa]);
                            assert(self.ids()[b] == bids[sb]);
                        }
                    }
                    if self.ids().contains(id@) {
                        let k = choose|k: int| 0 <= k < self.ids().len() && self.ids()[k] == id@;
                        let sk = if k < i { k } else { k + 1 };
                        assert(self.ids()[k] == bids[sk]);
                        assert(bids[i as int] == id@);
                    }
                }
                Some(e)
            },
        }
    }
}

} // verus!
