use std::collections::HashMap;
use tracker_cluster::app_state::{AppState, FOLLOWER_ROLE, LEADER_ROLE};
use tracker_cluster::config::Config;

fn state(leading: bool) -> AppState<&'static str> {
    let config = Config::from_values("2", "leader-db".to_string(), "follower-db".to_string(), "1=a,2=b").unwrap();
    AppState::new(leading, "leader-pool", "follower-pool", config)
}

#[test]
fn follower_uses_follower_database() {
    let s = state(false);
    assert!(!s.is_leader());
    assert_eq!(*s.get_database(), "follower-pool");
    assert_eq!(s.role_code(), FOLLOWER_ROLE);
}

#[test]
fn becoming_leader_switches_database() {
    let mut s = state(false);
    s.become_leader();
    assert!(s.is_leader());
    assert_eq!(*s.get_database(), "leader-pool");
    assert_eq!(s.role_code(), LEADER_ROLE);
    s.become_follower();
    assert_eq!(*s.get_database(), "follower-pool");
    assert_eq!(s.role_code(), 1);
}

#[test]
fn last_role_change_counts() {
    let mut s = state(true);
    s.become_follower();
    s.become_leader();
    assert_eq!(*s.get_database(), "leader-pool");
}

#[test]
fn settings_are_kept() {
    let mut s = state(true);
    s.become_follower();
    assert_eq!(s.get_peer_id(), 2);
    let mut expected = HashMap::new();
    expected.insert(1, "a".to_string());
    expected.insert(2, "b".to_string());
    assert_eq!(s.get_peers_connections(), &expected);
}
