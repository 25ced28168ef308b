use std::collections::HashMap;
use tracker_cluster::config::{parse_cluster_nodes, Config, ConfigError};
use tracker_cluster::text::parse_u32;

fn table(pairs: &[(u32, &str)]) -> HashMap<u32, String> {
    pairs.iter().map(|(k, v)| (*k, v.to_string())).collect()
}

#[test]
fn parses_cluster_entries() {
    let nodes = parse_cluster_nodes("1=http://app-node-1:50051,2=http://app-node-2:50051").unwrap();
    assert_eq!(nodes, table(&[(1, "http://app-node-1:50051"), (2, "http://app-node-2:50051")]));
}

#[test]
fn empty_cluster_text_gives_empty_table() {
    assert_eq!(parse_cluster_nodes("").unwrap(), HashMap::new());
}

#[test]
fn entries_without_equals_are_skipped() {
    let nodes = parse_cluster_nodes("1=a,junk,,2=b,").unwrap();
    assert_eq!(nodes, table(&[(1, "a"), (2, "b")]));
}

#[test]
fn later_entry_for_an_id_wins() {
    let nodes = parse_cluster_nodes("1=first,2=x,1=second").unwrap();
    assert_eq!(nodes, table(&[(1, "second"), (2, "x")]));
}

#[test]
fn address_keeps_later_equals_signs() {
    let nodes = parse_cluster_nodes("3=http://h/?a=b").unwrap();
    assert_eq!(nodes, table(&[(3, "http://h/?a=b")]));
}

#[test]
fn address_may_be_empty() {
    let nodes = parse_cluster_nodes("5=").unwrap();
    assert_eq!(nodes, table(&[(5, "")]));
}

#[test]
fn plus_sign_in_node_id_is_read() {
    let nodes = parse_cluster_nodes("+4=u").unwrap();
    assert_eq!(nodes, table(&[(4, "u")]));
}

#[test]
fn non_numeric_node_id_is_refused() {
    assert!(matches!(parse_cluster_nodes("x=a"), Err(ConfigError::InvalidNodeId)));
    assert!(matches!(parse_cluster_nodes("1=a, 2=b"), Err(ConfigError::InvalidNodeId)));
    assert!(matches!(parse_cluster_nodes("=a"), Err(ConfigError::InvalidNodeId)));
    assert!(matches!(parse_cluster_nodes("1=a,-2=b"), Err(ConfigError::InvalidNodeId)));
}

#[test]
fn node_id_must_fit_in_32_bits() {
    assert_eq!(parse_cluster_nodes("4294967295=u").unwrap(), table(&[(4294967295, "u")]));
    assert!(matches!(parse_cluster_nodes("4294967296=u"), Err(ConfigError::InvalidNodeId)));
}

#[test]
fn parse_u32_follows_std() {
    for text in ["", "+", "-", "-1", "1a", " 1", "1 ", "0", "007", "+12", "4294967295", "4294967296", "99999999999"] {
        assert_eq!(parse_u32(text), text.parse::<u32>().ok(), "text {:?}", text);
    }
}

#[test]
fn config_from_values_reads_all_settings() {
    let c = Config::from_values("2", "postgres://leader".to_string(), "postgres://follower".to_string(), "1=a,2=b,3=c").unwrap();
    assert_eq!(c.peer_id, 2);
    assert_eq!(c.database_leader_url, "postgres://leader");
    assert_eq!(c.database_follower_url, "postgres://follower");
    assert_eq!(c.cluster_nodes, table(&[(1, "a"), (2, "b"), (3, "c")]));
}

#[test]
fn config_refuses_non_numeric_peer_id_first() {
    let r = Config::from_values("two", String::new(), String::new(), "x=a");
    assert!(matches!(r, Err(ConfigError::InvalidPeerId)));
}

#[test]
fn config_refuses_bad_cluster_entry() {
    let r = Config::from_values("1", String::new(), String::new(), "1=a,b=c");
    assert!(matches!(r, Err(ConfigError::InvalidNodeId)));
}
