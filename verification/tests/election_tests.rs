use std::collections::HashMap;
use tracker_cluster::peer_client::{Action, ClientServer, Event, Phase};

fn cluster(ids: &[u32]) -> HashMap<u32, String> {
    ids.iter().map(|id| (*id, format!("http://app-node-{}:50051", id))).collect()
}

fn node(me: u32, ids: &[u32]) -> ClientServer {
    ClientServer::new(&cluster(ids), me)
}

fn sorted(v: &[u32]) -> Vec<u32> {
    let mut v = v.to_vec();
    v.sort();
    v
}

#[test]
fn peers_are_the_other_nodes() {
    let cs = node(2, &[1, 2, 3]);
    assert_eq!(sorted(cs.peers()), vec![1, 3]);
    assert_eq!(cs.peer_id(), 2);
    assert_eq!(cs.leader_id(), None);
    assert!(matches!(cs.phase(), Phase::Idle));
}

#[test]
fn nodes_with_invalid_address_are_not_peers() {
    let mut nodes = cluster(&[1, 2]);
    nodes.insert(3, "http://bad host:50051".to_string());
    nodes.insert(4, String::new());
    let cs = ClientServer::new(&nodes, 1);
    assert_eq!(sorted(cs.peers()), vec![2]);
}

#[test]
fn highest_node_declares_victory_after_three_pauses() {
    let mut cs = node(3, &[1, 2, 3]);
    assert!(matches!(cs.step(Event::Started), Action::PauseBeforeRetry));
    assert!(matches!(cs.step(Event::PauseElapsed), Action::PauseBeforeRetry));
    assert!(matches!(cs.step(Event::PauseElapsed), Action::PauseBeforeRetry));
    match cs.step(Event::PauseElapsed) {
        Action::AnnounceVictory(targets) => assert_eq!(sorted(&targets), vec![1, 2]),
        other => panic!("unexpected {:?}", other),
    }
    assert_eq!(cs.leader_id(), Some(3));
    assert!(matches!(cs.phase(), Phase::Idle));
}

#[test]
fn answer_from_higher_node_ends_election() {
    let mut cs = node(1, &[1, 2, 3]);
    match cs.step(Event::Started) {
        Action::SendElection(t) => assert!(t == 2 || t == 3),
        other => panic!("unexpected {:?}", other),
    }
    assert!(matches!(cs.step(Event::ElectionAnswered), Action::Nothing));
    assert!(matches!(cs.phase(), Phase::Idle));
    assert_eq!(cs.leader_id(), None);
}

#[test]
fn every_higher_node_is_asked_each_round() {
    let mut cs = node(1, &[1, 2, 3]);
    for _round in 0..3 {
        let mut asked = Vec::new();
        let mut action = if _round == 0 { cs.step(Event::Started) } else { cs.step(Event::PauseElapsed) };
        while let Action::SendElection(t) = action {
            asked.push(t);
            action = cs.step(Event::ElectionFailed);
        }
        assert!(matches!(action, Action::PauseBeforeRetry));
        assert_eq!(sorted(&asked), vec![2, 3]);
    }
    match cs.step(Event::PauseElapsed) {
        Action::AnnounceVictory(targets) => assert_eq!(sorted(&targets), vec![2, 3]),
        other => panic!("unexpected {:?}", other),
    }
    assert_eq!(cs.leader_id(), Some(1));
}

#[test]
fn lower_nodes_are_never_asked() {
    let mut cs = node(2, &[1, 2, 3]);
    assert!(matches!(cs.step(Event::Started), Action::SendElection(3)));
    assert!(matches!(cs.step(Event::ElectionFailed), Action::PauseBeforeRetry));
}

#[test]
fn coordinator_from_other_node_makes_node_step_down() {
    let mut cs = node(1, &[1, 2, 3]);
    assert!(matches!(cs.step(Event::CoordinatorReceived(3)), Action::StepDown));
    assert_eq!(cs.leader_id(), Some(3));
    assert!(matches!(cs.step(Event::HeartbeatTick), Action::SendHeartbeat(3)));
}

#[test]
fn coordinator_naming_itself_changes_no_role() {
    let mut cs = node(3, &[1, 2, 3]);
    assert!(matches!(cs.step(Event::CoordinatorReceived(3)), Action::Nothing));
    assert_eq!(cs.leader_id(), Some(3));
    assert!(matches!(cs.step(Event::HeartbeatTick), Action::Nothing));
}

#[test]
fn no_heartbeat_without_leader() {
    let mut cs = node(1, &[1, 2]);
    assert!(matches!(cs.step(Event::HeartbeatTick), Action::Nothing));
}

#[test]
fn heartbeat_to_unknown_leader_is_reported() {
    let mut cs = node(1, &[1, 2]);
    assert!(matches!(cs.step(Event::CoordinatorReceived(7)), Action::StepDown));
    assert!(matches!(cs.step(Event::HeartbeatTick), Action::LeaderUnreachable(7)));
}

#[test]
fn failed_heartbeat_starts_election() {
    let mut cs = node(1, &[1, 2]);
    cs.step(Event::CoordinatorReceived(2));
    assert!(matches!(cs.step(Event::HeartbeatFailed), Action::SendElection(2)));
    assert!(matches!(cs.phase(), Phase::AwaitingReply { round: 0, .. }));
}

#[test]
fn events_outside_their_phase_change_nothing() {
    let mut cs = node(1, &[1, 2]);
    assert!(matches!(cs.step(Event::ElectionAnswered), Action::Nothing));
    assert!(matches!(cs.step(Event::PauseElapsed), Action::Nothing));
    assert!(matches!(cs.step(Event::Started), Action::SendElection(2)));
    assert!(matches!(cs.step(Event::HeartbeatTick), Action::Nothing));
    assert!(matches!(cs.step(Event::CoordinatorReceived(2)), Action::Nothing));
    assert_eq!(cs.leader_id(), None);
    assert!(matches!(cs.phase(), Phase::AwaitingReply { round: 0, next: 1 }));
}

#[test]
fn lone_node_leads() {
    let mut cs = node(5, &[5]);
    assert!(cs.peers().is_empty());
    assert!(matches!(cs.step(Event::Started), Action::PauseBeforeRetry));
    cs.step(Event::PauseElapsed);
    cs.step(Event::PauseElapsed);
    match cs.step(Event::PauseElapsed) {
        Action::AnnounceVictory(targets) => assert!(targets.is_empty()),
        other => panic!("unexpected {:?}", other),
    }
    assert_eq!(cs.leader_id(), Some(5));
}

#[test]
fn election_ends_within_budget() {
    // three rounds over two higher peers: at most 3 * (2 + 1) awaited events
    let mut cs = node(1, &[1, 2, 3]);
    let mut action = cs.step(Event::Started);
    let mut events = 0;
    loop {
        action = match action {
            Action::SendElection(_) => cs.step(Event::ElectionFailed),
            Action::PauseBeforeRetry => cs.step(Event::PauseElapsed),
            _ => break,
        };
        events += 1;
    }
    assert!(events <= 9);
    assert!(matches!(action, Action::AnnounceVictory(_)));
}

#[test]
fn leader_always_knows_itself() {
    // The role follows the actions; whenever the node leads, it names itself leader.
    let mut cs = node(2, &[1, 2]);
    let mut leading = false;
    let events = [
        Event::Started,
        Event::PauseElapsed,
        Event::PauseElapsed,
        Event::PauseElapsed,
        Event::CoordinatorReceived(1),
        Event::CoordinatorReceived(2),
        Event::HeartbeatTick,
    ];
    for e in events {
        match cs.step(e) {
            Action::AnnounceVictory(_) => leading = true,
            Action::StepDown => leading = false,
            _ => {}
        }
        if leading {
            assert_eq!(cs.leader_id(), Some(2));
        }
    }
}

#[test]
fn announcement_during_election_waits() {
    let mut cs = node(1, &[1, 2]);
    assert!(matches!(cs.step(Event::Started), Action::SendElection(2)));
    assert!(matches!(cs.step(Event::CoordinatorReceived(2)), Action::Nothing));
    assert_eq!(cs.leader_id(), None);
    assert!(matches!(cs.step(Event::ElectionAnswered), Action::Nothing));
    assert!(matches!(cs.step(Event::CoordinatorReceived(2)), Action::StepDown));
    assert_eq!(cs.leader_id(), Some(2));
}

#[test]
fn failed_heartbeat_starts_new_election() {
    let mut cs = node(1, &[1, 2, 3]);
    assert!(matches!(cs.step(Event::CoordinatorReceived(3)), Action::StepDown));
    assert!(matches!(cs.step(Event::HeartbeatTick), Action::SendHeartbeat(3)));
    match cs.step(Event::HeartbeatFailed) {
        Action::SendElection(t) => assert!(t == 2 || t == 3),
        other => panic!("unexpected {:?}", other),
    }
    assert_eq!(cs.leader_id(), Some(3));
    assert!(matches!(cs.phase(), Phase::AwaitingReply { round: 0, .. }));
}
