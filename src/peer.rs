//! Peer records and the bounded, ordered peer lists that hold them.

use vstd::prelude::*;

verus! {

/// Identity of a peer in the network, compared by equality only.
#[derive(Clone, Copy, Debug, PartialEq, Eq, Structural, Hash)]
pub struct PeerId {
    pub id: u64,
}

impl PeerId {
    pub fn new(id: u64) -> (r: PeerId)
        ensures
            r.id == id,
    {
        PeerId { id }
    }
}

/// A verified peer together with the metrics the scheduler reads.
#[derive(Clone, Copy, Debug)]
pub struct ActivePeer {
    pub peer_id: PeerId,
    pub verified_count: u64,
    pub last_new_peers: u64,
}

impl ActivePeer {
    /// A freshly known peer: never verified, never queried.
    pub fn new(peer_id: PeerId) -> (r: ActivePeer)
        ensures
            r.peer_id == peer_id,
            r.verified_count == 0,
            r.last_new_peers == 0,
    {
        ActivePeer { peer_id, verified_count: 0, last_new_peers: 0 }
    }

    pub fn peer_id(&self) -> (r: PeerId)
        ensures
            r == self.peer_id,
    {
        self.peer_id
    }

    pub fn verified_count(&self) -> (r: u64)
        ensures
            r == self.verified_count,
    {
        self.verified_count
    }

    pub fn last_new_peers(&self) -> (r: u64)
        ensures
            r == self.last_new_peers,
    {
        self.last_new_peers
    }

    pub fn set_last_new_peers(&mut self, n: u64)
        ensures
            *final(self) == (ActivePeer { last_new_peers: n, ..*old(self) }),
    {
        self.last_new_peers = n;
    }

    /// Records one more successful verification; the counter saturates at its maximum.
    pub fn increment_verified_count(&mut self)
        ensures
            final(self).peer_id == old(self).peer_id,
            final(self).last_new_peers == old(self).last_new_peers,
            final(self).verified_count == if old(self).verified_count == u64::MAX {
                u64::MAX as int
            } else {
                old(self).verified_count + 1
            },
    {
        self.verified_count = self.verified_count.saturating_add(1);
    }
}

/// True when some entry of `s` carries the identity `id`.
pub open spec fn contains_id(s: Seq<ActivePeer>, id: PeerId) -> bool {
    exists|i: int| 0 <= i < s.len() && s[i].peer_id == id
}

/// No identity occurs twice in `s`.
pub open spec fn unique_ids(s: Seq<ActivePeer>) -> bool {
    forall|i: int, j: int| 0 <= i < s.len() && 0 <= j < s.len() && i != j ==> s[i].peer_id != s[j].peer_id
}

/// `s` without the entries that carry `id`.
pub open spec fn without_id(s: Seq<ActivePeer>, id: PeerId) -> Seq<ActivePeer> {
    s.filter(|p: ActivePeer| p.peer_id != id)
}

/// The entries of `s` that were verified at least once, in list order.
pub open spec fn verified_peers(s: Seq<ActivePeer>) -> Seq<ActivePeer>
    decreases s.len(),
{
    if s.len() == 0 {
        Seq::empty()
    } else if s.last().verified_count >= 1 {
        verified_peers(s.drop_last()).push(s.last())
    } else {
        verified_peers(s.drop_last())
    }
}

/// A bounded list of peers, newest at the front and oldest at the back.
pub struct PeerList {
    peers: Vec<ActivePeer>,
    capacity: usize,
}

/// The peers that are currently verified and in use.
pub type ActivePeersList = PeerList;

/// The pool of peers demoted from the active list.
pub type ReplacementPeersList = PeerList;

impl View for PeerList {
    type V = Seq<ActivePeer>;

    closed spec fn view(&self) -> Seq<ActivePeer> {
        self.peers@
    }
}

impl PeerList {
    pub closed spec fn spec_capacity(&self) -> nat {
        self.capacity as nat
    }

    /// At most `capacity` entries, each identity once.
    pub open spec fn wf(&self) -> bool {
        &&& self@.len() <= self.spec_capacity()
        &&& unique_ids(self@)
    }

    pub fn new(capacity: usize) -> (r: PeerList)
        ensures
            r.wf(),
            r@ == Seq::<ActivePeer>::empty(),
            r.spec_capacity() == capacity,
    {
        PeerList { peers: Vec::new(), capacity }
    }

    pub fn len(&self) -> (r: usize)
        ensures
            r == self@.len(),
    {
        self.peers.len()
    }

    pub fn is_empty(&self) -> (r: bool)
        ensures
            r == (self@.len() == 0),
    {
        self.peers.len() == 0
    }

    pub fn capacity(&self) -> (r: usize)
        ensures
            r == self.spec_capacity(),
    {
        self.capacity
    }

    pub fn is_full(&self) -> (r: bool)
        ensures
            r == (self@.len() >= self.spec_capacity()),
    {
        self.peers.len() >= self.capacity
    }

    /// The entry at position `index`, counted from the newest.
    pub fn get(&self, index: usize) -> (r: Option<ActivePeer>)
        ensures
            r == if index < self@.len() { Some(self@[index as int]) } else { None::<ActivePeer> },
    {
        if index < self.peers.len() {
            Some(self.peers[index])
        } else {
            None
        }
    }

    /// The newest entry, if any.
    pub fn get_newest(&self) -> (r: Option<ActivePeer>)
        ensures
            r == if self@.len() == 0 { None::<ActivePeer> } else { Some(self@[0]) },
    {
        self.get(0)
    }

    /// The oldest entry, if any.
    pub fn get_oldest(&self) -> (r: Option<ActivePeer>)
        ensures
            r == if self@.len() == 0 { None::<ActivePeer> } else { Some(self@.last()) },
    {
        if self.peers.len() == 0 {
            None
        } else {
            Some(self.peers[self.peers.len() - 1])
        }
    }

    /// Position of the entry with identity `id`, if there is one.
    pub fn find(&self, id: PeerId) -> (r: Option<usize>)
        ensures
            r matches Some(i) ==> i < self@.len() && self@[i as int].peer_id == id,
            r is None <==> !contains_id(self@, id),
    {
        let mut i: usize = 0;
        while i < self.peers.len()
            invariant
                i <= self@.len(),
                forall|k: int| 0 <= k < i ==> self@[k].peer_id != id,
            decreases self@.len() - i,
        {
            if self.peers[i].peer_id == id {
                return Some(i);
            }
            i = i + 1;
        }
        None
    }

    pub fn contains(&self, id: PeerId) -> (r: bool)
        ensures
            r == contains_id(self@, id),
    {
        self.find(id).is_some()
    }

    /// Adds `peer` as the newest entry, unless the list is full or already
    /// holds its identity; says whether it was added.
    pub fn insert(&mut self, peer: ActivePeer) -> (r: bool)
        requires
            old(self).wf(),
        ensures
            final(self).wf(),
            final(self).spec_capacity() == old(self).spec_capacity(),
            r == (old(self)@.len() < old(self).spec_capacity() && !contains_id(old(self)@, peer.peer_id)),
            r ==> final(self)@ == seq![peer] + old(self)@,
            !r ==> final(self)@ == old(self)@,
    {
        if self.is_full() || self.contains(peer.peer_id) {
            return false;
        }
        let ghost before = self@;
        self.peers.insert(0, peer);
        assert(self@ =~= seq![peer] + before);
        assert(unique_ids(self@)) by {
            assert forall|i: int, j: int|
                0 <= i < self@.len() && 0 <= j < self@.len() && i != j implies self@[i].peer_id
                != self@[j].peer_id by {
                if i == 0 {
                    assert(before[j - 1] == self@[j]);
                } else if j == 0 {
                    assert(before[i - 1] == self@[i]);
                } else {
                    assert(before[i - 1] == self@[i]);
                    assert(before[j - 1] == self@[j]);
                }
            }
        }
        true
    }

    /// Takes out the entry with identity `id`, if there is one.
    pub fn remove(&mut self, id: PeerId) -> (r: Option<ActivePeer>)
        requires
            old(self).wf(),
        ensures
            final(self).wf(),
            final(self).spec_capacity() == old(self).spec_capacity(),
            r is Some <==> contains_id(old(self)@, id),
            r matches Some(p) ==> p.peer_id == id,
            r matches Some(p) ==> exists|i: int|
                0 <= i < old(self)@.len() && old(self)@[i] == p && final(self)@ == old(self)@.remove(i),
            final(self)@ == without_id(old(self)@, id),
            !contains_id(final(self)@, id),
    {
        match self.find(id) {
            None => {
                proof {
                    lemma_without_absent(self@, id);
                }
                None
            },
            Some(i) => {
                let ghost before = self@;
                let p = self.peers.remove(i);
                proof {
                    lemma_without_at(before, id, i as int);
                }
                Some(p)
            },
        }
    }

    /// Moves the oldest entry to the front.
    pub fn rotate_forwards(&mut self)
        requires
            old(self).wf(),
        ensures
            final(self).wf(),
            final(self).spec_capacity() == old(self).spec_capacity(),
            old(self)@.len() == 0 ==> final(self)@ == old(self)@,
            old(self)@.len() > 0 ==> final(self)@ == seq![old(self)@.last()] + old(self)@.drop_last(),
    {
        if self.peers.len() == 0 {
            return;
        }
        let ghost before = self@;
        let p = self.peers.pop().unwrap();
        self.peers.insert(0, p);
        assert(self@ =~= seq![before.last()] + before.drop_last());
        assert(unique_ids(self@)) by {
            let n = before.len() - 1;
            assert forall|i: int, j: int|
                0 <= i < self@.len() && 0 <= j < self@.len() && i != j implies self@[i].peer_id
                != self@[j].peer_id by {
                let bi = if i == 0 { n } else { i - 1 };
                let bj = if j == 0 { n } else { j - 1 };
                assert(self@[i] == before[bi]);
                assert(self@[j] == before[bj]);
            }
        }
    }

    /// Adds `peer` as the newest entry, first dropping the oldest entry when
    /// the list is full; an entry already present with the same identity
    /// leaves the list unchanged.
    pub fn insert_evicting(&mut self, peer: ActivePeer)
        requires
            old(self).wf(),
            old(self).spec_capacity() > 0,
        ensures
            final(self).wf(),
            final(self).spec_capacity() == old(self).spec_capacity(),
            contains_id(old(self)@, peer.peer_id) ==> final(self)@ == old(self)@,
            !contains_id(old(self)@, peer.peer_id) ==> final(self)@ == seq![peer] + evicted(
                old(self)@,
                old(self).spec_capacity(),
            ),
    {
        if self.contains(peer.peer_id) {
            return;
        }
        let ghost before = self@;
        if self.is_full() {
            self.peers.pop();
            proof {
                assert forall|k: int| 0 <= k < self@.len() implies self@[k] == before[k] by {}
            }
        }
        assert(self@ =~= evicted(before, self.spec_capacity()));
        assert(!contains_id(self@, peer.peer_id));
        let added = self.insert(peer);
        assert(added);
    }
}

/// `s` after its oldest entry is dropped to make room, when it is at `capacity`.
pub open spec fn evicted(s: Seq<ActivePeer>, capacity: nat) -> Seq<ActivePeer> {
    if s.len() >= capacity && s.len() > 0 {
        s.drop_last()
    } else {
        s
    }
}

pub proof fn lemma_without_absent(s: Seq<ActivePeer>, id: PeerId)
    requires
        !contains_id(s, id),
    ensures
        without_id(s, id) == s,
    decreases s.len(),
{
    reveal(Seq::filter);
    if s.len() > 0 {
        assert(!contains_id(s.drop_last(), id)) by {
            if contains_id(s.drop_last(), id) {
                let i = choose|i: int| 0 <= i < s.drop_last().len() && s.drop_last()[i].peer_id == id;
                assert(s[i].peer_id == id);
            }
        }
        lemma_without_absent(s.drop_last(), id);
        assert(s.last().peer_id != id);
        assert(s.drop_last().push(s.last()) =~= s);
    }
}

pub proof fn lemma_without_at(s: Seq<ActivePeer>, id: PeerId, i: int)
    requires
        unique_ids(s),
        0 <= i < s.len(),
        s[i].peer_id == id,
    ensures
        without_id(s, id) == s.remove(i),
        unique_ids(s.remove(i)),
        !contains_id(s.remove(i), id),
    decreases s.len(),
{
    reveal(Seq::filter);
    let r = s.remove(i);
    assert(unique_ids(r)) by {
        assert forall|a: int, b: int| 0 <= a < r.len() && 0 <= b < r.len() && a != b implies r[a].peer_id
            != r[b].peer_id by {
            let sa = if a < i { a } else { a + 1 };
            let sb = if b < i { b } else { b + 1 };
            assert(r[a] == s[sa]);
            assert(r[b] == s[sb]);
        }
    }
    assert(!contains_id(r, id)) by {
        if contains_id(r, id) {
            let k = choose|k: int| 0 <= k < r.len() && r[k].peer_id == id;
            let sk = if k < i { k } else { k + 1 };
            assert(r[k] == s[sk]);
        }
    }
    if i == s.len() - 1 {
        assert(r =~= s.drop_last());
        lemma_without_absent(r, id);
    } else {
        let d = s.drop_last();
        assert(unique_ids(d));
        assert(d[i] == s[i]);
        lemma_without_at(d, id, i);
        assert(s.last().peer_id != id);
        assert(r =~= d.remove(i).push(s.last()));
        assert(r.drop_last() =~= d.remove(i));
    }
}

} // verus!
