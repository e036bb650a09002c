use state_synchronizer::coordinator::{
    ChunkError, ChunkRequest, Delivery, OutboundRequest, RoleType, ServeAction, ServeError,
    StateSyncConfig, Subscription, SyncCoordinator, SyncStart,
};
use state_synchronizer::peer_manager::MAX_SCORE;

fn config() -> StateSyncConfig {
    StateSyncConfig {
        tick_interval_ms: 100,
        long_poll_timeout_ms: 30_000,
        chunk_limit: 50,
        max_chunk_limit: 1000,
        max_timeout_ms: 120_000,
    }
}

fn validator(peers: &[u64]) -> SyncCoordinator {
    let mut c = SyncCoordinator::new(RoleType::Validator, config(), vec![]);
    for p in peers {
        c.new_peer(*p);
    }
    c
}

fn full_node(upstream: &[u64]) -> SyncCoordinator {
    let mut c = SyncCoordinator::new(RoleType::FullNode, config(), upstream.to_vec());
    for p in upstream {
        c.new_peer(*p);
    }
    c
}

fn started(r: SyncStart) -> OutboundRequest {
    match r {
        SyncStart::Started(Some(o)) => o,
        other => panic!("expected a first chunk request, got {:?}", other),
    }
}

#[test]
fn trivial_sync_needs_no_chunk() {
    let mut c = validator(&[1, 2]);
    let r = c.request_sync(100, vec![1, 2], 100, 0, 0);
    assert_eq!(r, SyncStart::AlreadySynced);
    assert_eq!(c.get_state(), 100);
    assert_eq!(c.sync_target(), None);
}

#[test]
fn target_below_known_version_is_already_synced() {
    let mut c = validator(&[1]);
    c.commit(120, 0);
    assert_eq!(c.request_sync(100, vec![1], 110, 0, 0), SyncStart::AlreadySynced);
    assert_eq!(c.get_state(), 120);
}

#[test]
fn happy_two_chunk_sync() {
    let mut c = validator(&[1, 2]);
    let first = started(c.request_sync(100, vec![1, 2], 0, 1000, 7));
    assert!(first.peer_id == 1 || first.peer_id == 2);
    assert_eq!(first.request, ChunkRequest { known_version: 0, limit: 50, timeout: 0 });
    assert!(first.with_target);
    assert_eq!(c.sync_target(), Some(100));

    let peer = first.peer_id;
    let next = c.begin_chunk_response(peer, Some(1), 50, true, 1010, 3).unwrap().unwrap();
    assert_eq!(next.request.known_version, 50);
    let out = c.finish_chunk_response(peer, 50, true, 1020);
    assert!(!out.sync_completed);
    assert_eq!(c.get_state(), 50);

    let peer = next.peer_id;
    assert!(c.peer_manager().has_requested(51, peer));
    c.begin_chunk_response(peer, Some(51), 50, true, 1030, 5).unwrap();
    let out = c.finish_chunk_response(peer, 100, true, 1040);
    assert!(out.sync_completed);
    assert_eq!(c.get_state(), 100);
    assert_eq!(c.sync_target(), None);
}

#[test]
fn non_sequential_chunk_is_refused() {
    let mut c = validator(&[1]);
    let first = started(c.request_sync(20, vec![1], 10, 1000, 0));
    assert_eq!(first.peer_id, 1);
    assert!(c.peer_manager().has_requested(11, 1));
    let r = c.begin_chunk_response(1, Some(13), 5, true, 1010, 0);
    assert_eq!(r, Err(ChunkError::NonSequential { known: 10, received: 13 }));
    // Peer 1 was asked for 11, not 13: no penalty, and the request for 11 stays.
    assert_eq!(c.peer_manager().score(1), Some(MAX_SCORE));
    assert!(c.peer_manager().has_requested(11, 1));
    assert_eq!(c.get_state(), 10);
    // The watchdog asks for 11 again once the request has timed out.
    assert_eq!(c.check_progress(1150, 0), None);
    let retry = c.check_progress(1201, 0).unwrap();
    assert_eq!(retry.request.known_version, 10);
    assert_eq!(c.peer_manager().score(1), Some(8000));
}

#[test]
fn penalty_for_requested_non_sequential_chunk() {
    let mut c = validator(&[1]);
    started(c.request_sync(50, vec![1], 10, 1000, 0));
    // Chunk 11..15 arrives; the next one (from 16) is requested at once.
    let next = c.begin_chunk_response(1, Some(11), 5, true, 1010, 0).unwrap().unwrap();
    assert_eq!(next.request.known_version, 15);
    assert!(c.peer_manager().has_requested(16, 1));
    // Storage did not apply it: the ledger is still at 10.
    c.finish_chunk_response(1, 10, false, 1020);
    assert_eq!(c.peer_manager().score(1), Some(5000));
    // Chunk 16.. does not follow 10, and peer 1 was asked for it.
    let r = c.begin_chunk_response(1, Some(16), 5, true, 1030, 0);
    assert_eq!(r, Err(ChunkError::NonSequential { known: 10, received: 16 }));
    assert_eq!(c.peer_manager().score(1), Some(2500));
    assert!(!c.peer_manager().has_requested(16, 1));
}

#[test]
fn long_poll_fulfilment() {
    let mut c = full_node(&[9]);
    c.commit(50, 0);
    let r = c.process_chunk_request(9, ChunkRequest { known_version: 50, limit: 10, timeout: 5000 }, 1000);
    assert_eq!(r, Ok(ServeAction::Subscribed));
    assert_eq!(
        c.subscription(9),
        Some(Subscription { expires_at: 6000, known_version: 50, limit: 10 })
    );
    let out = c.commit(55, 2000);
    assert_eq!(out.deliveries, vec![Delivery { peer_id: 9, known_version: 50, limit: 10 }]);
    assert_eq!(c.subscription(9), None);
}

#[test]
fn expired_long_poll_is_dropped_without_delivery() {
    let mut c = full_node(&[9]);
    c.commit(50, 0);
    c.process_chunk_request(9, ChunkRequest { known_version: 50, limit: 10, timeout: 5000 }, 1000)
        .unwrap();
    let out = c.commit(55, 6000);
    assert!(out.deliveries.is_empty());
    assert_eq!(c.subscription(9), None);
}

#[test]
fn long_poll_ahead_of_commit_keeps_waiting() {
    let mut c = full_node(&[9]);
    c.commit(50, 0);
    c.process_chunk_request(9, ChunkRequest { known_version: 60, limit: 10, timeout: 5000 }, 1000)
        .unwrap();
    let out = c.commit(55, 2000);
    assert!(out.deliveries.is_empty());
    assert!(c.subscription(9).is_some());
}

#[test]
fn watchdog_retry() {
    let mut c = validator(&[1, 2]);
    let first = started(c.request_sync(100, vec![1, 2], 0, 1000, 0));
    assert_eq!(first.peer_id, 1);
    assert_eq!(c.check_progress(1000 + 2 * 100 - 1, 0), None);
    let retry = c.check_progress(1000 + 2 * 100 + 1, 0).unwrap();
    assert_eq!(retry.request, ChunkRequest { known_version: 0, limit: 50, timeout: 0 });
    assert_eq!(c.peer_manager().score(1), Some(8000));
    assert_eq!(c.peer_manager().get_request_time(1), Some(1201));
}

#[test]
fn full_node_watchdog_waits_for_long_poll() {
    let mut c = full_node(&[4]);
    assert_eq!(c.check_progress(30_099, 0), None);
    let first = c.check_progress(30_100, 0).unwrap();
    assert_eq!(first.peer_id, 4);
    assert_eq!(first.request, ChunkRequest { known_version: 0, limit: 50, timeout: 30_000 });
    assert!(!first.with_target);
    assert_eq!(c.check_progress(60_199, 0), None);
    assert!(c.check_progress(60_200, 0).is_some());
}

#[test]
fn validator_without_sync_request_stays_idle() {
    let mut c = validator(&[1]);
    assert_eq!(c.check_progress(1_000_000, 0), None);
}

#[test]
fn inbound_request_over_limits() {
    let mut c = full_node(&[9]);
    let r = c.process_chunk_request(9, ChunkRequest { known_version: 0, limit: 1001, timeout: 0 }, 0);
    assert_eq!(r, Err(ServeError::LimitExceeded));
    let r = c.process_chunk_request(9, ChunkRequest { known_version: 0, limit: 10, timeout: 120_001 }, 0);
    assert_eq!(r, Err(ServeError::LimitExceeded));
    assert_eq!(c.subscription(9), None);
    assert_eq!(c.peer_manager().score(9), Some(MAX_SCORE));
}

#[test]
fn inbound_request_from_unconnected_peer() {
    let mut c = full_node(&[9]);
    c.commit(10, 0);
    let r = c.process_chunk_request(5, ChunkRequest { known_version: 0, limit: 10, timeout: 0 }, 0);
    assert_eq!(r, Err(ServeError::PeerNotConnected));
}

#[test]
fn zero_timeout_never_subscribes() {
    let mut c = full_node(&[9]);
    c.commit(50, 0);
    let r = c.process_chunk_request(9, ChunkRequest { known_version: 50, limit: 10, timeout: 0 }, 0);
    assert_eq!(r, Ok(ServeAction::Deliver(Delivery { peer_id: 9, known_version: 50, limit: 10 })));
    assert_eq!(c.subscription(9), None);
}

#[test]
fn known_version_never_decreases() {
    let mut c = validator(&[1]);
    c.commit(40, 0);
    c.commit(30, 0);
    assert_eq!(c.get_state(), 40);
    c.request_sync(100, vec![1], 20, 0, 0);
    assert_eq!(c.get_state(), 40);
}

#[test]
fn replayed_commit_changes_nothing() {
    let mut c = full_node(&[9]);
    c.process_chunk_request(9, ChunkRequest { known_version: 0, limit: 10, timeout: 5000 }, 0)
        .unwrap();
    let first = c.commit(5, 10);
    assert_eq!(first.deliveries.len(), 1);
    let state = (c.get_state(), c.sync_target(), c.subscription(9));
    let again = c.commit(5, 20);
    assert!(again.deliveries.is_empty());
    assert!(!again.sync_completed);
    assert_eq!((c.get_state(), c.sync_target(), c.subscription(9)), state);
}

#[test]
fn get_state_during_pending_sync() {
    let mut c = validator(&[1]);
    started(c.request_sync(100, vec![1], 30, 0, 0));
    assert_eq!(c.get_state(), 30);
    assert_eq!(c.sync_target(), Some(100));
}

#[test]
fn commit_clears_requests_up_to_version() {
    let mut c = validator(&[1]);
    started(c.request_sync(100, vec![1], 0, 0, 0));
    assert!(c.peer_manager().has_requested(1, 1));
    c.commit(10, 5);
    assert!(!c.peer_manager().has_requested(1, 1));
    assert_eq!(c.peer_manager().get_request_time(1), None);
}

#[test]
fn chunk_without_ledger_info_is_refused() {
    let mut c = validator(&[1]);
    started(c.request_sync(100, vec![1], 0, 0, 0));
    let r = c.begin_chunk_response(1, Some(1), 10, false, 5, 0);
    assert_eq!(r, Err(ChunkError::MissingLedgerInfo));
    assert!(!c.peer_manager().has_requested(1, 1));
    assert!(!c.peer_manager().has_requested(11, 1));
    assert_eq!(c.peer_manager().score(1), Some(MAX_SCORE));
}

#[test]
fn empty_chunk_is_accepted_and_requests_next() {
    let mut c = validator(&[1]);
    started(c.request_sync(100, vec![1], 0, 0, 0));
    let next = c.begin_chunk_response(1, None, 0, true, 10, 0).unwrap().unwrap();
    assert_eq!(next.request.known_version, 0);
}

#[test]
fn sync_request_only_targets_signers() {
    let mut c = validator(&[1, 2]);
    let first = started(c.request_sync(100, vec![2], 0, 0, 0));
    assert_eq!(first.peer_id, 2);
    c.lost_peer(2);
    let mut c2 = validator(&[1]);
    assert_eq!(c2.request_sync(100, vec![2], 0, 0, 0), SyncStart::Started(None));
}
