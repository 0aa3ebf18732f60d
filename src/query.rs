//! The two periodic discovery jobs: choosing whom to reverify and whom to
//! query, and what a failed answer does to the registry.

use vstd::prelude::*;
use crate::peer::{ActivePeer, ActivePeersList, PeerId, verified_peers, contains_id};
use crate::registry::{PeerRegistry, demoted};

verus! {

/// How many of the peers other than the latest are kept as the heaviest.
pub const HEAVIEST_KEPT: usize = 3;

/// Below this many verified peers every one of them is queried.
pub const MIN_VERIFIED_FOR_CHOICE: usize = 3;

/// Peer `i` of `s` ranks before peer `j`: it returned more new peers last
/// time, or as many and it comes earlier in the list.
pub open spec fn beats(s: Seq<ActivePeer>, i: int, j: int) -> bool {
    s[i].last_new_peers > s[j].last_new_peers || (s[i].last_new_peers == s[j].last_new_peers && i < j)
}

/// How many of the first `n` peers of `s` rank before peer `j`.
pub open spec fn beaten_by(s: Seq<ActivePeer>, j: int, n: int) -> nat
    decreases n,
{
    if n <= 0 {
        0
    } else {
        beaten_by(s, j, n - 1) + if beats(s, n - 1, j) { 1nat } else { 0nat }
    }
}

/// The place of peer `j` when `s` is ordered heaviest first, ties by list order.
pub open spec fn rank(s: Seq<ActivePeer>, j: int) -> nat {
    beaten_by(s, j, s.len() as int)
}

/// Positions among the first `n` of `s` whose rank is among the heaviest, in list order.
pub open spec fn heaviest_prefix(s: Seq<ActivePeer>, n: int) -> Seq<int>
    decreases n,
{
    if n <= 0 {
        Seq::empty()
    } else if rank(s, n - 1) < HEAVIEST_KEPT {
        heaviest_prefix(s, n - 1).push(n - 1)
    } else {
        heaviest_prefix(s, n - 1)
    }
}

/// Positions of the (at most three) heaviest peers of `s`, in list order.
pub open spec fn heaviest(s: Seq<ActivePeer>) -> Seq<int> {
    heaviest_prefix(s, s.len() as int)
}

pub open spec fn ids_of(s: Seq<ActivePeer>) -> Seq<PeerId> {
    s.map_values(|p: ActivePeer| p.peer_id)
}

/// The peers to query, given the verified peers `v` in list order and the
/// choice `pick` among the heaviest: all of them when fewer than three,
/// else the latest and the `pick`-th of the heaviest of the others.
pub open spec fn query_candidates(v: Seq<ActivePeer>, pick: int) -> Seq<PeerId> {
    if v.len() < MIN_VERIFIED_FOR_CHOICE {
        ids_of(v)
    } else {
        let rest = v.drop_first();
        seq![v[0].peer_id, rest[heaviest(rest)[pick]].peer_id]
    }
}

/// `pick` is an admissible choice for the verified peers `v`.
pub open spec fn valid_pick(v: Seq<ActivePeer>, pick: int) -> bool {
    v.len() >= MIN_VERIFIED_FOR_CHOICE ==> 0 <= pick < heaviest(v.drop_first()).len()
}

/// The peer to reverify: the oldest active one.
pub fn peer_to_reverify(active_peers: &ActivePeersList) -> (r: Option<PeerId>)
    ensures
        r == if active_peers@.len() == 0 { None::<PeerId> } else { Some(active_peers@.last().peer_id) },
{
    match active_peers.get_oldest() {
        Some(p) => Some(p.peer_id),
        None => None,
    }
}

/// The active peers verified at least once, in list order.
pub fn get_verified_peers(active_peers: &ActivePeersList) -> (r: Vec<ActivePeer>)
    ensures
        r@ == verified_peers(active_peers@),
{
    let mut out: Vec<ActivePeer> = Vec::new();
    let n = active_peers.len();
    let mut i: usize = 0;
    while i < n
        invariant
            n == active_peers@.len(),
            i <= n,
            out@ == verified_peers(active_peers@.subrange(0, i as int)),
        decreases n - i,
    {
        let p = active_peers.get(i).unwrap();
        proof {
            let s = active_peers@.subrange(0, i + 1);
            assert(s.drop_last() =~= active_peers@.subrange(0, i as int));
            assert(s.last() == p);
        }
        if p.verified_count >= 1 {
            out.push(p);
        }
        i = i + 1;
    }
    assert(active_peers@.subrange(0, n as int) =~= active_peers@);
    out
}

/// The rank of peer `j` of `peers`.
fn rank_of(peers: &Vec<ActivePeer>, j: usize) -> (r: usize)
    requires
        j < peers@.len(),
    ensures
        r == rank(peers@, j as int),
{
    let mut count: usize = 0;
    let mut i: usize = 0;
    while i < peers.len()
        invariant
            j < peers@.len(),
            i <= peers@.len(),
            count == beaten_by(peers@, j as int, i as int),
            count <= i,
        decreases peers@.len() - i,
    {
        let a = peers[i].last_new_peers;
        let b = peers[j].last_new_peers;
        if a > b || (a == b && i < j) {
            count = count + 1;
        }
        i = i + 1;
    }
    count
}

/// Positions of the heaviest peers of `peers`: the (at most three) that
/// returned the most new peers last time, ties going to the earlier one.
pub fn heaviest_positions(peers: &Vec<ActivePeer>) -> (r: Vec<usize>)
    ensures
        r@.len() == heaviest(peers@).len(),
        forall|k: int| 0 <= k < r@.len() ==> r@[k] as int == #[trigger] heaviest(peers@)[k],
        forall|k: int| 0 <= k < r@.len() ==> r@[k] < peers@.len(),
{
    let mut out: Vec<usize> = Vec::new();
    let mut j: usize = 0;
    while j < peers.len()
        invariant
            j <= peers@.len(),
            out@.len() == heaviest_prefix(peers@, j as int).len(),
            forall|k: int| 0 <= k < out@.len() ==> out@[k] as int == #[trigger] heaviest_prefix(peers@, j as int)[k],
            forall|k: int| 0 <= k < out@.len() ==> out@[k] < j,
        decreases peers@.len() - j,
    {
        if rank_of(peers, j) < HEAVIEST_KEPT {
            out.push(j);
        }
        j = j + 1;
    }
    out
}

/// `v` without its first entry.
fn without_first(v: &Vec<ActivePeer>) -> (r: Vec<ActivePeer>)
    requires
        v@.len() > 0,
    ensures
        r@ == v@.drop_first(),
{
    let mut out: Vec<ActivePeer> = Vec::new();
    let mut i: usize = 1;
    while i < v.len()
        invariant
            1 <= i <= v@.len(),
            out@ == v@.subrange(1, i as int),
        decreases v@.len() - i,
    {
        out.push(v[i]);
        assert(v@.subrange(1, i + 1) =~= v@.subrange(1, i as int).push(v@[i as int]));
        i = i + 1;
    }
    assert(v@.subrange(1, v@.len() as int) =~= v@.drop_first());
    out
}

/// How many choices the verified peers `verified` leave for the second
/// query target: the number of heaviest peers besides the latest, or zero
/// when all of them are queried anyway.
pub fn pick_range(verified: &Vec<ActivePeer>) -> (r: usize)
    ensures
        verified@.len() < MIN_VERIFIED_FOR_CHOICE ==> r == 0,
        verified@.len() >= MIN_VERIFIED_FOR_CHOICE ==> r == heaviest(verified@.drop_first()).len(),
{
    if verified.len() < MIN_VERIFIED_FOR_CHOICE {
        0
    } else {
        let rest = without_first(verified);
        heaviest_positions(&rest).len()
    }
}

/// The peers to query among the verified peers `verified`, for the choice
/// `pick` among the heaviest.
pub fn select_from_verified(verified: &Vec<ActivePeer>, pick: usize) -> (r: Vec<PeerId>)
    requires
        valid_pick(verified@, pick as int),
    ensures
        r@ == query_candidates(verified@, pick as int),
{
    if verified.len() < MIN_VERIFIED_FOR_CHOICE {
        let mut out: Vec<PeerId> = Vec::new();
        let mut i: usize = 0;
        while i < verified.len()
            invariant
                i <= verified@.len(),
                out@ == ids_of(verified@.subrange(0, i as int)),
            decreases verified@.len() - i,
        {
            out.push(verified[i].peer_id);
            assert(ids_of(verified@.subrange(0, i + 1)) =~= ids_of(verified@.subrange(0, i as int)).push(
                verified@[i as int].peer_id,
            ));
            i = i + 1;
        }
        assert(verified@.subrange(0, verified@.len() as int) =~= verified@);
        out
    } else {
        let latest = verified[0].peer_id;
        let rest = without_first(verified);
        let positions = heaviest_positions(&rest);
        let chosen = rest[positions[pick]].peer_id;
        let out = vec![latest, chosen];
        assert(out@ =~= query_candidates(verified@, pick as int));
        out
    }
}

/// Relies on rand's `thread_rng().gen_range(0..upper)`: a value drawn below
/// `upper`, which must be positive (an empty range panics).
#[verifier::external_body]
fn random_below(upper: usize) -> (r: usize)
    requires
        upper > 0,
    ensures
        r < upper,
{
    rand::Rng::gen_range(&mut rand::thread_rng(), 0..upper)
}

/// Some peer of `s` ranks first.
proof fn lemma_some_peer_ranks_first(s: Seq<ActivePeer>)
    requires
        s.len() > 0,
    ensures
        heaviest(s).len() > 0,
{
    let b = best_of(s, s.len() as int);
    lemma_best_unbeaten(s, s.len() as int);
    lemma_unbeaten_count(s, b, s.len() as int);
    lemma_heaviest_prefix_nonempty(s, s.len() as int, b);
}

spec fn best_of(s: Seq<ActivePeer>, n: int) -> int
    decreases n,
{
    if n <= 1 {
        0
    } else {
        let b = best_of(s, n - 1);
        if s[n - 1].last_new_peers > s[b].last_new_peers { n - 1 } else { b }
    }
}

proof fn lemma_best_unbeaten(s: Seq<ActivePeer>, n: int)
    requires
        1 <= n <= s.len(),
    ensures
        0 <= best_of(s, n) < n,
        forall|i: int| 0 <= i < n ==> !beats(s, i, best_of(s, n)),
    decreases n,
{
    if n > 1 {
        lemma_best_unbeaten(s, n - 1);
        let b = best_of(s, n - 1);
        assert forall|i: int| 0 <= i < n implies !beats(s, i, best_of(s, n)) by {
            if i < n - 1 {
                assert(!beats(s, i, b));
            }
        }
    }
}

proof fn lemma_unbeaten_count(s: Seq<ActivePeer>, j: int, n: int)
    requires
        0 <= n <= s.len(),
        forall|i: int| 0 <= i < n ==> !beats(s, i, j),
    ensures
        beaten_by(s, j, n) == 0,
    decreases n,
{
    if n > 0 {
        lemma_unbeaten_count(s, j, n - 1);
    }
}

proof fn lemma_heaviest_prefix_nonempty(s: Seq<ActivePeer>, n: int, j: int)
    requires
        0 <= j < n,
        rank(s, j) < HEAVIEST_KEPT,
    ensures
        heaviest_prefix(s, n).len() > 0,
    decreases n,
{
    if j < n - 1 {
        lemma_heaviest_prefix_nonempty(s, n - 1, j);
    }
}

/// The peers to query now: every verified peer when there are fewer than
/// three, else the latest and one of the heaviest of the others, drawn at
/// random.
pub fn select_peers_to_query(active_peers: &ActivePeersList) -> (r: Vec<PeerId>)
    ensures
        verified_peers(active_peers@).len() < MIN_VERIFIED_FOR_CHOICE ==> r@ == ids_of(
            verified_peers(active_peers@),
        ),
        exists|pick: int|
            valid_pick(verified_peers(active_peers@), pick) && r@ == query_candidates(
                verified_peers(active_peers@),
                pick,
            ),
{
    let verified = get_verified_peers(active_peers);
    let range = pick_range(&verified);
    if range == 0 {
        proof {
            if verified@.len() >= MIN_VERIFIED_FOR_CHOICE {
                lemma_some_peer_ranks_first(verified@.drop_first());
            }
        }
        select_from_verified(&verified, 0)
    } else {
        let pick = random_below(range);
        select_from_verified(&verified, pick)
    }
}

/// What a finished verification or query means for the registry: on
/// failure the peer is demoted. Says whether the peer was removed from the
/// active list, which is when a removal event is due.
pub fn settle_peer_task(registry: &mut PeerRegistry, peer_id: PeerId, succeeded: bool) -> (removed: bool)
    requires
        old(registry).wf(),
    ensures
        final(registry).wf(),
        final(registry).active.spec_capacity() == old(registry).active.spec_capacity(),
        final(registry).replacements.spec_capacity() == old(registry).replacements.spec_capacity(),
        succeeded ==> *final(registry) == *old(registry),
        removed == (!succeeded && contains_id(old(registry).active@, peer_id)),
        !succeeded ==> (final(registry).active@, final(registry).replacements@) == demoted(
            old(registry).active@,
            old(registry).replacements@,
            old(registry).replacements.spec_capacity(),
            peer_id,
        ),
{
    if succeeded {
        false
    } else {
        registry.demote(peer_id).is_some()
    }
}

} // verus!
