use tracker_cluster::tracker_proxy::TrackerConnection;

fn routes() -> TrackerConnection<&'static str> {
    TrackerConnection::new(vec!["node-1", "node-2", "node-3"])
}

#[test]
fn first_node_leads_at_start() {
    let t = routes();
    assert_eq!(*t.leader_client(), "node-1");
    assert_eq!(*t.read_client(), "node-1");
}

#[test]
fn update_leader_counts_nodes_from_one() {
    let mut t = routes();
    t.update_leader(3);
    assert_eq!(*t.leader_client(), "node-3");
    t.update_leader(1);
    assert_eq!(*t.leader_client(), "node-1");
}

#[test]
fn leader_report_is_followed_and_stops_scan() {
    let mut t = routes();
    assert!(t.apply_role_report(2, 0));
    assert_eq!(*t.leader_client(), "node-2");
    assert_eq!(*t.read_client(), "node-1");
}

#[test]
fn follower_report_changes_nothing() {
    let mut t = routes();
    t.update_leader(2);
    assert!(!t.apply_role_report(3, 1));
    assert_eq!(*t.leader_client(), "node-2");
}

#[test]
fn round_follows_first_leader_report() {
    let mut t = routes();
    let reports = [(1u32, 1i32), (3, 0), (2, 0)];
    let mut taken = 0;
    for (peer_id, role) in reports {
        taken += 1;
        if t.apply_role_report(peer_id, role) {
            break;
        }
    }
    assert_eq!(taken, 2);
    assert_eq!(*t.leader_client(), "node-3");
}

#[test]
fn round_without_leader_report_keeps_leader() {
    let mut t = routes();
    t.update_leader(2);
    for (peer_id, role) in [(1u32, 1i32), (3, 1)] {
        assert!(!t.apply_role_report(peer_id, role));
    }
    assert_eq!(*t.leader_client(), "node-2");
}
