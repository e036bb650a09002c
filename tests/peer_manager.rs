use state_synchronizer::peer_manager::{adjust_score, PeerManager, ScoreUpdate, MAX_SCORE, MIN_SCORE};

fn upstream(ids: &[u64]) -> PeerManager {
    let mut pm = PeerManager::new(false, ids.to_vec());
    for id in ids {
        pm.enable_peer(*id);
    }
    pm
}

#[test]
fn score_adjustments() {
    assert_eq!(adjust_score(10_000, ScoreUpdate::Timeout), 8000);
    assert_eq!(adjust_score(10_000, ScoreUpdate::InvalidChunk), 5000);
    assert_eq!(adjust_score(10_000, ScoreUpdate::EmptyChunk), 9500);
    assert_eq!(adjust_score(5000, ScoreUpdate::Success), 5100);
    assert_eq!(adjust_score(9950, ScoreUpdate::Success), MAX_SCORE);
    assert_eq!(adjust_score(150, ScoreUpdate::InvalidChunk), MIN_SCORE);
    assert_eq!(adjust_score(MIN_SCORE, ScoreUpdate::Timeout), MIN_SCORE);
}

#[test]
fn weighted_pick_follows_the_draw() {
    let pm = upstream(&[1, 2]);
    assert_eq!(pm.pick_peer(0), Some(1));
    assert_eq!(pm.pick_peer(9_999), Some(1));
    assert_eq!(pm.pick_peer(10_000), Some(2));
    assert_eq!(pm.pick_peer(20_000), Some(1));
}

#[test]
fn weighted_pick_uses_scores() {
    let mut pm = upstream(&[1, 2]);
    pm.update_score(1, ScoreUpdate::InvalidChunk);
    assert_eq!(pm.score(1), Some(5000));
    assert_eq!(pm.pick_peer(4_999), Some(1));
    assert_eq!(pm.pick_peer(5_000), Some(2));
    assert_eq!(pm.pick_peer(14_999), Some(2));
    assert_eq!(pm.pick_peer(15_000), Some(1));
}

#[test]
fn only_eligible_peers_are_picked() {
    let mut pm = upstream(&[1]);
    pm.enable_peer(3);
    for draw in 0..40_000u64 {
        assert_eq!(pm.pick_peer(draw * 7), Some(1));
    }
    pm.disable_peer(1);
    assert!(pm.is_empty());
    assert_eq!(pm.pick_peer(0), None);
    assert!(!pm.is_connected(1));
    assert_eq!(pm.score(1), Some(MAX_SCORE));
}

#[test]
fn empty_manager_picks_nothing() {
    let pm = PeerManager::new(true, vec![]);
    assert!(pm.is_empty());
    assert_eq!(pm.pick_peer(5), None);
}

#[test]
fn validator_eligibility_follows_signers() {
    let mut pm = PeerManager::new(true, vec![]);
    pm.enable_peer(1);
    pm.enable_peer(2);
    assert!(pm.is_empty());
    pm.set_peers(vec![2]);
    assert!(!pm.is_empty());
    assert_eq!(pm.pick_peer(123), Some(2));
}

#[test]
fn request_bookkeeping() {
    let mut pm = upstream(&[1, 2]);
    pm.process_request(11, 1, 100);
    pm.process_request(12, 2, 200);
    assert!(pm.has_requested(11, 1));
    assert!(!pm.has_requested(11, 2));
    assert_eq!(pm.get_request_time(12), Some(200));
    pm.process_request(11, 2, 300);
    assert!(pm.has_requested(11, 2));
    assert_eq!(pm.get_request_time(11), Some(300));
    pm.process_response(11);
    assert_eq!(pm.get_request_time(11), None);
    pm.process_request(13, 1, 400);
    pm.remove_requests(12);
    assert_eq!(pm.get_request_time(12), None);
    assert_eq!(pm.get_request_time(13), Some(400));
}

#[test]
fn timeout_penalizes_holder() {
    let mut pm = upstream(&[1, 2]);
    pm.process_request(11, 2, 100);
    pm.process_timeout(11, false);
    assert_eq!(pm.score(2), Some(8000));
    assert!(pm.has_requested(11, 2));
    pm.process_timeout(11, true);
    assert_eq!(pm.score(2), Some(6400));
    assert!(!pm.has_requested(11, 2));
    pm.process_timeout(11, true);
    assert_eq!(pm.score(2), Some(6400));
    assert_eq!(pm.score(1), Some(MAX_SCORE));
}

#[test]
fn success_raises_score_up_to_max() {
    let mut pm = upstream(&[1]);
    pm.update_score(1, ScoreUpdate::Success);
    assert_eq!(pm.score(1), Some(MAX_SCORE));
    pm.update_score(1, ScoreUpdate::EmptyChunk);
    assert_eq!(pm.score(1), Some(9500));
    pm.update_score(1, ScoreUpdate::Success);
    assert_eq!(pm.score(1), Some(9600));
    pm.update_score(7, ScoreUpdate::Success);
    assert_eq!(pm.score(7), None);
}
