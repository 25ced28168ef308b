use tracker_cluster::peer_server::{announced_leader, replica_id_text};
use tracker_cluster::restaurant_config::Config;
use tracker_cluster::redis_factory::RedisFactory;
use tracker_cluster::text::decimal_text;
use tracker_cluster::web_server::greeting;

#[test]
fn replica_id_is_decimal() {
    assert_eq!(replica_id_text(0), "0");
    assert_eq!(replica_id_text(42), "42");
    assert_eq!(replica_id_text(4294967295), "4294967295");
    for n in [0u32, 7, 10, 99, 100, 65535, 1234567890] {
        assert_eq!(decimal_text(n), n.to_string());
    }
}

#[test]
fn announced_leader_reads_replica_id() {
    assert_eq!(announced_leader("3"), 3);
    assert_eq!(announced_leader("+3"), 3);
    assert_eq!(announced_leader("node-3"), 0);
    assert_eq!(announced_leader(""), 0);
    assert_eq!(announced_leader("4294967296"), 0);
}

#[test]
fn announcement_names_its_sender() {
    for n in [0u32, 1, 2, 3, 19, 4294967295] {
        assert_eq!(announced_leader(&replica_id_text(n)), n);
    }
}

#[test]
fn greeting_names_the_caller() {
    assert_eq!(greeting("Ana"), "Hello, Ana!");
    assert_eq!(greeting(""), "Hello, !");
}

#[test]
fn restaurant_config_keeps_tracker_address() {
    let c = Config::new("http://tracker:3000".to_string());
    assert_eq!(c.get_tracker_service_url(), "http://tracker:3000");
}

#[test]
fn redis_clients_open_on_their_own_address() {
    let f = RedisFactory::new("redis://master:6379".to_string(), "not an address".to_string());
    assert!(f.create_leader_client().is_ok());
    assert!(f.create_follower_client().is_err());
    let g = RedisFactory::new("http://master".to_string(), "redis://replica:6379".to_string());
    assert!(g.create_leader_client().is_err());
    assert!(g.create_follower_client().is_ok());
}

#[test]
fn tracker_url_validity_follows_tonic() {
    assert!(Config::new("http://tracker:3000".to_string()).tracker_url_valid());
    assert!(Config::new("unix:/tmp/tracker.sock".to_string()).tracker_url_valid());
    assert!(!Config::new("http://bad host:3000".to_string()).tracker_url_valid());
    assert!(!Config::new(String::new()).tracker_url_valid());
}

#[test]
fn redis_clients_carry_their_own_address() {
    let f = RedisFactory::new("redis://master:6379/2".to_string(), "redis://replica:6380/3".to_string());
    let leader = f.create_leader_client().ok().unwrap();
    let follower = f.create_follower_client().ok().unwrap();
    assert_eq!(leader.get_connection_info().addr.to_string(), "master:6379");
    assert_eq!(leader.get_connection_info().redis.db, 2);
    assert_eq!(follower.get_connection_info().addr.to_string(), "replica:6380");
    assert_eq!(follower.get_connection_info().redis.db, 3);
}
