//! The node's view of its peers, and the demotion of a peer that failed.

use vstd::prelude::*;
use crate::peer::{ActivePeer, ActivePeersList, PeerId, PeerList, ReplacementPeersList, contains_id, unique_ids, without_id, evicted};

verus! {

/// No identity is held by both sequences.
pub open spec fn disjoint_ids(a: Seq<ActivePeer>, b: Seq<ActivePeer>) -> bool {
    forall|i: int, j: int| 0 <= i < a.len() && 0 <= j < b.len() ==> a[i].peer_id != b[j].peer_id
}

/// The entry of `s` with identity `id` (meaningful when there is one).
pub open spec fn entry_with_id(s: Seq<ActivePeer>, id: PeerId) -> ActivePeer {
    choose|p: ActivePeer| s.contains(p) && p.peer_id == id
}

/// The active list and the replacement pool after the peer `id` is demoted:
/// taken out of the active list and put in front of the pool, whose oldest
/// entry is dropped first when it is full. A peer that is not active changes
/// nothing.
pub open spec fn demoted(
    active: Seq<ActivePeer>,
    replacements: Seq<ActivePeer>,
    capacity: nat,
    id: PeerId,
) -> (Seq<ActivePeer>, Seq<ActivePeer>) {
    if contains_id(active, id) {
        (
            without_id(active, id),
            if capacity > 0 {
                seq![entry_with_id(active, id)] + evicted(replacements, capacity)
            } else {
                replacements
            },
        )
    } else {
        (active, replacements)
    }
}

/// The active peers and the replacement pool, which never share an identity.
pub struct PeerRegistry {
    pub active: ActivePeersList,
    pub replacements: ReplacementPeersList,
}

impl PeerRegistry {
    pub open spec fn wf(&self) -> bool {
        &&& self.active.wf()
        &&& self.replacements.wf()
        &&& disjoint_ids(self.active@, self.replacements@)
    }

    pub fn new(active_capacity: usize, replacement_capacity: usize) -> (r: PeerRegistry)
        ensures
            r.wf(),
            r.active@.len() == 0,
            r.replacements@.len() == 0,
            r.active.spec_capacity() == active_capacity,
            r.replacements.spec_capacity() == replacement_capacity,
    {
        PeerRegistry { active: PeerList::new(active_capacity), replacements: PeerList::new(replacement_capacity) }
    }

    /// Adds a peer to the active list, unless it is full or the identity is
    /// already known to the registry; says whether it was added.
    pub fn add_active(&mut self, peer: ActivePeer) -> (r: bool)
        requires
            old(self).wf(),
        ensures
            final(self).wf(),
            final(self).active.spec_capacity() == old(self).active.spec_capacity(),
            final(self).replacements == old(self).replacements,
            r == (old(self).active@.len() < old(self).active.spec_capacity()
                && !contains_id(old(self).active@, peer.peer_id)
                && !contains_id(old(self).replacements@, peer.peer_id)),
            r ==> final(self).active@ == seq![peer] + old(self).active@,
            !r ==> final(self).active@ == old(self).active@,
    {
        if self.replacements.contains(peer.peer_id) {
            return false;
        }
        let ghost a = self.active@;
        let added = self.active.insert(peer);
        proof {
            if added {
                assert forall|i: int, j: int|
                    0 <= i < self.active@.len() && 0 <= j < self.replacements@.len() implies
                    self.active@[i].peer_id != self.replacements@[j].peer_id by {
                    if i > 0 {
                        assert(self.active@[i] == a[i - 1]);
                    }
                }
            }
        }
        added
    }

    /// Demotes the active peer `id` after a failed verification or query:
    /// it leaves the active list and enters the replacement pool. Returns the
    /// demoted record, or `None` when `id` was not active.
    pub fn demote(&mut self, id: PeerId) -> (r: Option<ActivePeer>)
        requires
            old(self).wf(),
        ensures
            final(self).wf(),
            final(self).active.spec_capacity() == old(self).active.spec_capacity(),
            final(self).replacements.spec_capacity() == old(self).replacements.spec_capacity(),
            r is Some <==> contains_id(old(self).active@, id),
            r matches Some(p) ==> p.peer_id == id,
            (final(self).active@, final(self).replacements@) == demoted(
                old(self).active@,
                old(self).replacements@,
                old(self).replacements.spec_capacity(),
                id,
            ),
    {
        let ghost a = self.active@;
        let ghost rp = self.replacements@;
        let removed = self.active.remove(id);
        match removed {
            None => {
                proof {
                    crate::peer::lemma_without_absent(a, id);
                }
                None
            },
            Some(p) => {
                proof {
                    let i = choose|i: int| 0 <= i < a.len() && a[i] == p && self.active@ == a.remove(i);
                    assert(a.contains(p));
                    let q = entry_with_id(a, id);
                    assert(a.contains(q) && q.peer_id == id);
                    let k = choose|k: int| 0 <= k < a.len() && a[k] == q;
                    assert(k == i);
                    assert forall|x: int, y: int|
                        0 <= x < self.active@.len() && 0 <= y < rp.len() implies self.active@[x].peer_id
                        != rp[y].peer_id by {
                        let ax = if x < i { x } else { x + 1 };
                        assert(self.active@[x] == a[ax]);
                    }
                    assert(!contains_id(rp, id)) by {
                        if contains_id(rp, id) {
                            let y = choose|y: int| 0 <= y < rp.len() && rp[y].peer_id == id;
                            assert(a[i].peer_id != rp[y].peer_id);
                        }
                    }
                }
                if self.replacements.capacity() > 0 {
                    self.replacements.insert_evicting(p);
                    proof {
                        let na = self.active@;
                        let nr = self.replacements@;
                        let e = evicted(rp, self.replacements.spec_capacity());
                        assert(nr == seq![p] + e);
                        assert forall|x: int, y: int| 0 <= x < na.len() && 0 <= y < nr.len() implies na[x].peer_id
                            != nr[y].peer_id by {
                            if y == 0 {
                                assert(!contains_id(na, id));
                            } else {
                                assert(nr[y] == e[y - 1]);
                                assert(e[y - 1] == rp[y - 1]);
                            }
                        }
                    }
                }
                Some(p)
            },
        }
    }
}

/// Demoting a peer leaves it out of the active list and, where the pool has
/// room for any entry, exactly once in the replacement pool; demoting it a
/// second time changes nothing.
pub proof fn lemma_demotion_is_final(
    active: Seq<ActivePeer>,
    replacements: Seq<ActivePeer>,
    capacity: nat,
    id: PeerId,
)
    requires
        unique_ids(active),
        unique_ids(replacements),
        disjoint_ids(active, replacements),
        contains_id(active, id),
    ensures
        ({
            let (a1, r1) = demoted(active, replacements, capacity, id);
            &&& !contains_id(a1, id)
            &&& capacity > 0 ==> r1[0].peer_id == id
            &&& capacity > 0 ==> forall|k: int| 0 < k < r1.len() ==> r1[k].peer_id != id
            &&& demoted(a1, r1, capacity, id) == (a1, r1)
        }),
{
    let (a1, r1) = demoted(active, replacements, capacity, id);
    let i = choose|i: int| 0 <= i < active.len() && active[i].peer_id == id;
    crate::peer::lemma_without_at(active, id, i);
    assert(active.contains(active[i]));
    let q = entry_with_id(active, id);
    assert(q.peer_id == id);
    if capacity > 0 {
        let e = evicted(replacements, capacity);
        assert forall|k: int| 0 < k < r1.len() implies r1[k].peer_id != id by {
            assert(r1[k] == e[k - 1]);
            assert(e[k - 1] == replacements[k - 1]);
        }
    }
}

} // verus!
