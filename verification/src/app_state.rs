//! The shared state of a cluster node: whether it currently leads, the two
//! database handles it writes to, and its settings. The database handle type
//! is a parameter: the node keeps one handle to the leader's database and one
//! to the follower's, and hands out the one that matches its role.
use crate::config::Config;
use std::collections::HashMap;
use vstd::prelude::*;

verus! {

/// The role number a node reports when it leads the cluster.
pub const LEADER_ROLE: i32 = 0;

/// The role number a node reports when it follows.
pub const FOLLOWER_ROLE: i32 = 1;

pub struct AppState<D> {
    is_leader: bool,
    pool_to_leader: D,
    pool_to_follower: D,
    config: Config,
}

impl<D> AppState<D> {
    /// Whether the node leads.
    pub closed spec fn leading(&self) -> bool {
        self.is_leader
    }

    /// The handle to the leader's database.
    pub closed spec fn leader_store(&self) -> D {
        self.pool_to_leader
    }

    /// The handle to the follower's database.
    pub closed spec fn follower_store(&self) -> D {
        self.pool_to_follower
    }

    /// The node's own id.
    pub closed spec fn own_id(&self) -> u32 {
        self.config.peer_id
    }

    /// The cluster table: node id to address.
    pub closed spec fn nodes(&self) -> Map<u32, String> {
        self.config.cluster_nodes@
    }

    /// The same state with the role set to `leading`.
    pub closed spec fn with_role(self, leading: bool) -> Self {
        AppState { is_leader: leading, ..self }
    }

    /// The database handle that matches the role.
    pub open spec fn database(&self) -> D {
        if self.leading() {
            self.leader_store()
        } else {
            self.follower_store()
        }
    }

    /// The role number the node reports.
    pub open spec fn role(&self) -> i32 {
        if self.leading() {
            LEADER_ROLE
        } else {
            FOLLOWER_ROLE
        }
    }

    /// The state of a node that starts as leader or follower, with its two
    /// database handles and its settings.
    pub fn new(is_leader: bool, pool_to_leader: D, pool_to_follower: D, config: Config) -> (r: Self)
        ensures
            r.leading() == is_leader,
            r.leader_store() == pool_to_leader,
            r.follower_store() == pool_to_follower,
            r.own_id() == config.peer_id,
            r.nodes() == config.cluster_nodes@,
    {
        AppState { is_leader, pool_to_leader, pool_to_follower, config }
    }

    pub fn become_leader(&mut self)
        ensures
            *final(self) == old(self).with_role(true),
    {
        self.is_leader = true;
    }

    pub fn become_follower(&mut self)
        ensures
            *final(self) == old(self).with_role(false),
    {
        self.is_leader = false;
    }

    pub fn is_leader(&self) -> (r: bool)
        ensures
            r == self.leading(),
    {
        self.is_leader
    }

    /// The cluster table: node id to address.
    pub fn get_peers_connections(&self) -> (r: &HashMap<u32, String>)
        ensures
            r@ == self.nodes(),
    {
        &self.config.cluster_nodes
    }

    pub fn get_peer_id(&self) -> (r: u32)
        ensures
            r == self.own_id(),
    {
        self.config.peer_id
    }

    /// The leader's database while the node leads, the follower's otherwise.
    pub fn get_database(&self) -> (r: &D)
        ensures
            *r == self.database(),
    {
        if self.is_leader {
            &self.pool_to_leader
        } else {
            &self.pool_to_follower
        }
    }

    /// The role number the node answers a role check with.
    pub fn role_code(&self) -> (r: i32)
        ensures
            r == self.role(),
    {
        if self.is_leader {
            LEADER_ROLE
        } else {
            FOLLOWER_ROLE
        }
    }
}

/// A role change only changes the role: the handles and the settings stay,
/// and from then on the node hands out the database that matches the new role
/// (the leader's after becoming leader, the follower's after stepping down).
pub proof fn law_role_change_selects_database<D>(s: AppState<D>, leading: bool)
    ensures
        s.with_role(leading).leading() == leading,
        s.with_role(leading).leader_store() == s.leader_store(),
        s.with_role(leading).follower_store() == s.follower_store(),
        s.with_role(leading).own_id() == s.own_id(),
        s.with_role(leading).nodes() == s.nodes(),
        s.with_role(leading).database() == if leading {
            s.leader_store()
        } else {
            s.follower_store()
        },
        s.with_role(leading).role() == if leading {
            LEADER_ROLE
        } else {
            FOLLOWER_ROLE
        },
{
}

/// Changing the role twice is the same as changing it once, to the second role.
pub proof fn law_last_role_change_counts<D>(s: AppState<D>, first: bool, second: bool)
    ensures
        s.with_role(first).with_role(second) == s.with_role(second),
{
}

} // verus!
