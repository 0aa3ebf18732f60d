use bee_core::peer::{ActivePeer, ActivePeersList, PeerId, PeerList};
use bee_core::query::{peer_to_reverify, select_peers_to_query, select_from_verified, get_verified_peers, pick_range, settle_peer_task};
use bee_core::registry::PeerRegistry;

fn create_peerlist_of_size(n: usize) -> ActivePeersList {
    // Each peer's `last_new_peers` ends up equal to its index in the list,
    // and every peer is verified once.
    let mut pl = PeerList::new(16);
    for i in 0..n {
        let mut entry = ActivePeer::new(PeerId::new(i as u64));
        entry.set_last_new_peers(((n - 1) - i) as u64);
        entry.increment_verified_count();
        assert!(pl.insert(entry));
    }
    pl
}

fn id_at(pl: &ActivePeersList, index: usize) -> PeerId {
    pl.get(index).unwrap().peer_id()
}

#[test]
fn find_peers_to_query_in_peerlist_1() {
    let peerlist = create_peerlist_of_size(1);

    let selected = select_peers_to_query(&peerlist);
    assert_eq!(1, selected.len());
}

#[test]
fn find_peers_to_query_in_peerlist_2() {
    let peerlist = create_peerlist_of_size(2);

    let selected = select_peers_to_query(&peerlist);
    assert_eq!(2, selected.len());
}

#[test]
fn find_peers_to_query_in_peerlist_3() {
    let peerlist = create_peerlist_of_size(3);

    let selected = select_peers_to_query(&peerlist);
    assert_eq!(2, selected.len());

    assert!(selected[0] == id_at(&peerlist, 0));
    assert!(selected[1] == id_at(&peerlist, 1) || selected[1] == id_at(&peerlist, 2));
}

#[test]
fn find_peers_to_query_in_peerlist_10() {
    let mut peerlist = create_peerlist_of_size(10);

    let selected = select_peers_to_query(&peerlist);
    assert_eq!(2, selected.len());

    // Always the newest peer (index 0) is selected.
    assert!(selected[0] == id_at(&peerlist, 0));
    // Either of the 3 "heaviest" peers is selected.
    assert!(
        selected[1] == id_at(&peerlist, 7) || selected[1] == id_at(&peerlist, 8) || selected[1] == id_at(&peerlist, 9)
    );

    peerlist.rotate_forwards();
    peerlist.rotate_forwards();

    let selected = select_peers_to_query(&peerlist);
    assert_eq!(2, selected.len());

    assert!(selected[0] == id_at(&peerlist, 0));
    assert!(
        selected[1] == id_at(&peerlist, 1) || selected[1] == id_at(&peerlist, 8) || selected[1] == id_at(&peerlist, 9)
    );
}

#[test]
fn empty_registry_has_no_candidates() {
    let peerlist = create_peerlist_of_size(0);
    assert!(select_peers_to_query(&peerlist).is_empty());
    assert_eq!(None, peer_to_reverify(&peerlist));
}

#[test]
fn unverified_peers_are_not_queried() {
    let mut pl = PeerList::new(4);
    assert!(pl.insert(ActivePeer::new(PeerId::new(1))));
    let mut verified = ActivePeer::new(PeerId::new(2));
    verified.increment_verified_count();
    assert!(pl.insert(verified));
    assert!(pl.insert(ActivePeer::new(PeerId::new(3))));
    assert_eq!(vec![PeerId::new(2)], select_peers_to_query(&pl));
}

#[test]
fn two_verified_peers_are_queried_in_list_order() {
    let peerlist = create_peerlist_of_size(2);
    assert_eq!(vec![id_at(&peerlist, 0), id_at(&peerlist, 1)], select_peers_to_query(&peerlist));
}

#[test]
fn every_heaviest_pick_is_reachable() {
    let peerlist = create_peerlist_of_size(10);
    let verified = get_verified_peers(&peerlist);
    assert_eq!(3, pick_range(&verified));
    // The heaviest are at positions 7, 8 and 9, offered in list order.
    assert_eq!(vec![id_at(&peerlist, 0), id_at(&peerlist, 7)], select_from_verified(&verified, 0));
    assert_eq!(vec![id_at(&peerlist, 0), id_at(&peerlist, 8)], select_from_verified(&verified, 1));
    assert_eq!(vec![id_at(&peerlist, 0), id_at(&peerlist, 9)], select_from_verified(&verified, 2));
}

#[test]
fn query_picks_stay_among_the_heaviest_over_many_trials() {
    let peerlist = create_peerlist_of_size(10);
    let mut seen = [false; 10];
    for _ in 0..300 {
        let selected = select_peers_to_query(&peerlist);
        assert!(selected[0] == id_at(&peerlist, 0));
        let pos = (0..10).find(|&i| id_at(&peerlist, i) == selected[1]).unwrap();
        assert!(pos >= 7);
        seen[pos] = true;
    }
    assert!(seen[7] && seen[8] && seen[9]);
}

#[test]
fn heaviest_ties_go_to_the_earlier_peer() {
    // Metrics by position: 0 (latest), then 5, 5, 5, 5.
    let mut pl = PeerList::new(8);
    for (id, metric) in [(5u64, 5u64), (4, 5), (3, 5), (2, 5), (1, 0)] {
        let mut p = ActivePeer::new(PeerId::new(id));
        p.set_last_new_peers(metric);
        p.increment_verified_count();
        assert!(pl.insert(p));
    }
    let verified = get_verified_peers(&pl);
    assert_eq!(3, pick_range(&verified));
    let picks: Vec<PeerId> = (0..3).map(|k| select_from_verified(&verified, k)[1]).collect();
    assert_eq!(vec![id_at(&pl, 1), id_at(&pl, 2), id_at(&pl, 3)], picks);
}

#[test]
fn reverify_targets_the_oldest_peer() {
    let peerlist = create_peerlist_of_size(4);
    assert_eq!(Some(id_at(&peerlist, 3)), peer_to_reverify(&peerlist));
    assert_eq!(Some(PeerId::new(0)), peer_to_reverify(&peerlist));
}

#[test]
fn failed_peer_is_demoted_once() {
    let mut reg = PeerRegistry::new(8, 2);
    for i in 0..3u64 {
        assert!(reg.add_active(ActivePeer::new(PeerId::new(i))));
    }
    assert!(settle_peer_task(&mut reg, PeerId::new(1), false));
    assert!(!reg.active.contains(PeerId::new(1)));
    assert_eq!(Some(PeerId::new(1)), reg.replacements.get_newest().map(|p| p.peer_id()));
    assert_eq!(1, reg.replacements.len());

    // A second failure report changes nothing.
    assert!(!settle_peer_task(&mut reg, PeerId::new(1), false));
    assert_eq!(2, reg.active.len());
    assert_eq!(1, reg.replacements.len());
}

#[test]
fn successful_peer_task_keeps_the_peer() {
    let mut reg = PeerRegistry::new(8, 2);
    assert!(reg.add_active(ActivePeer::new(PeerId::new(7))));
    assert!(!settle_peer_task(&mut reg, PeerId::new(7), true));
    assert!(reg.active.contains(PeerId::new(7)));
    assert_eq!(0, reg.replacements.len());
}

#[test]
fn full_replacement_pool_drops_its_oldest() {
    let mut reg = PeerRegistry::new(8, 2);
    for i in 0..3u64 {
        assert!(reg.add_active(ActivePeer::new(PeerId::new(i))));
    }
    for i in 0..3u64 {
        assert!(settle_peer_task(&mut reg, PeerId::new(i), false));
    }
    assert_eq!(2, reg.replacements.len());
    assert_eq!(Some(PeerId::new(2)), reg.replacements.get_newest().map(|p| p.peer_id()));
    assert_eq!(Some(PeerId::new(1)), reg.replacements.get_oldest().map(|p| p.peer_id()));
    assert!(!reg.replacements.contains(PeerId::new(0)));
    assert!(reg.active.is_empty());
}

#[test]
fn replacement_identity_cannot_become_active_twice() {
    let mut reg = PeerRegistry::new(8, 2);
    assert!(reg.add_active(ActivePeer::new(PeerId::new(1))));
    assert!(!reg.add_active(ActivePeer::new(PeerId::new(1))));
    assert!(settle_peer_task(&mut reg, PeerId::new(1), false));
    assert!(!reg.add_active(ActivePeer::new(PeerId::new(1))));
}

#[test]
fn active_list_respects_capacity_and_rotation() {
    let mut pl = PeerList::new(2);
    assert!(pl.insert(ActivePeer::new(PeerId::new(1))));
    assert!(pl.insert(ActivePeer::new(PeerId::new(2))));
    assert!(pl.is_full());
    assert!(!pl.insert(ActivePeer::new(PeerId::new(3))));
    assert_eq!(PeerId::new(2), id_at(&pl, 0));
    pl.rotate_forwards();
    assert_eq!(PeerId::new(1), id_at(&pl, 0));
    assert_eq!(Some(PeerId::new(1)), pl.remove(PeerId::new(1)).map(|p| p.peer_id()));
    assert_eq!(None, pl.remove(PeerId::new(1)).map(|p| p.peer_id()));
    assert_eq!(1, pl.len());
}
