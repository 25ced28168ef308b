//! The routing table of the tracker proxy: one client per tracker node, in
//! node order, and which of them leads. Writes go to the leader, reads to the
//! first node. The client type is a parameter.
use crate::app_state::LEADER_ROLE;
use vstd::prelude::*;

verus! {

pub struct TrackerConnection<C> {
    all_clients: Vec<C>,
    leader: usize,
}

impl<C> TrackerConnection<C> {
    /// The clients, node `k + 1` at index `k`.
    pub closed spec fn clients(&self) -> Seq<C> {
        self.all_clients@
    }

    /// The index of the leader's client.
    pub closed spec fn leader_index(&self) -> int {
        self.leader as int
    }

    pub open spec fn wf(&self) -> bool {
        0 <= self.leader_index() < self.clients().len()
    }

    /// The routing table over `all_clients`, with the first node as leader
    /// until a node reports otherwise.
    pub fn new(all_clients: Vec<C>) -> (r: Self)
        requires
            all_clients.len() > 0,
        ensures
            r.wf(),
            r.clients() == all_clients@,
            r.leader_index() == 0,
    {
        TrackerConnection { all_clients, leader: 0 }
    }

    /// Makes node `leader_id` (counted from 1) the leader.
    pub fn update_leader(&mut self, leader_id: u32)
        requires
            1 <= leader_id <= old(self).clients().len(),
        ensures
            final(self).wf(),
            final(self).clients() == old(self).clients(),
            final(self).leader_index() == leader_id - 1,
    {
        self.leader = leader_id as usize - 1;
    }

    /// Takes the role a node reported: when the node leads, it becomes the
    /// leader and the scan of the nodes stops (`true`); otherwise nothing changes.
    pub fn apply_role_report(&mut self, peer_id: u32, role: i32) -> (stop: bool)
        requires
            old(self).wf(),
            role == LEADER_ROLE ==> 1 <= peer_id <= old(self).clients().len(),
        ensures
            stop == (role == LEADER_ROLE),
            final(self).wf(),
            final(self).clients() == old(self).clients(),
            final(self).leader_index() == if stop {
                peer_id - 1
            } else {
                old(self).leader_index()
            },
    {
        if role == LEADER_ROLE {
            self.update_leader(peer_id);
            true
        } else {
            false
        }
    }

    /// How many nodes the table routes to.
    pub fn node_count(&self) -> (r: usize)
        ensures
            r == self.clients().len(),
    {
        self.all_clients.len()
    }

    /// The client that takes writes.
    pub fn leader_client(&self) -> (r: &C)
        requires
            self.wf(),
        ensures
            *r == self.clients()[self.leader_index()],
    {
        &self.all_clients[self.leader]
    }

    /// The client that takes reads: the first node's.
    pub fn read_client(&self) -> (r: &C)
        requires
            self.wf(),
        ensures
            *r == self.clients()[0],
    {
        &self.all_clients[0]
    }
}

/// One round of the proxy's role check: the role reports of the nodes that
/// answered, in node order, taken until the first leader report. The result is
/// the leader's index afterwards and how many reports were taken.
pub open spec fn scan_round(leader: int, reports: Seq<(u32, i32)>) -> (int, int)
    decreases reports.len(),
{
    if reports.len() == 0 {
        (leader, 0)
    } else if reports[0].1 == LEADER_ROLE {
        (reports[0].0 - 1, 1)
    } else {
        let (l, n) = scan_round(leader, reports.drop_first());
        (l, n + 1)
    }
}

/// In a round of role checks the proxy follows the first node, in node order,
/// that reports itself leader, and asks no node after it; when no node reports
/// itself leader the leader stays as it was and every report is taken.
/// Each step of the round is [`TrackerConnection::apply_role_report`].
pub proof fn law_first_leader_report_wins(leader: int, reports: Seq<(u32, i32)>)
    ensures
        forall|k: int|
            0 <= k < reports.len() && reports[k].1 == LEADER_ROLE && (forall|j: int|
                0 <= j < k ==> reports[j].1 != LEADER_ROLE) ==> #[trigger] scan_round(leader, reports) == (
            reports[k].0 - 1, k + 1),
        (forall|j: int| 0 <= j < reports.len() ==> reports[j].1 != LEADER_ROLE) ==> scan_round(
            leader,
            reports,
        ) == (leader, reports.len() as int),
    decreases reports.len(),
{
    if reports.len() > 0 {
        let rest = reports.drop_first();
        law_first_leader_report_wins(leader, rest);
        assert forall|k: int|
            0 <= k < reports.len() && reports[k].1 == LEADER_ROLE && (forall|j: int|
                0 <= j < k ==> reports[j].1 != LEADER_ROLE) implies #[trigger] scan_round(leader, reports) == (
            reports[k].0 - 1, k + 1) by {
            if k > 0 {
                assert(reports[0].1 != LEADER_ROLE);
                assert(rest[k - 1] == reports[k]);
                assert forall|j: int| 0 <= j < k - 1 implies rest[j].1 != LEADER_ROLE by {
                    assert(rest[j] == reports[j + 1]);
                }
                assert(scan_round(leader, rest) == (rest[k - 1].0 - 1, k));
            }
        }
        if forall|j: int| 0 <= j < reports.len() ==> reports[j].1 != LEADER_ROLE {
            assert(reports[0].1 != LEADER_ROLE);
            assert forall|j: int| 0 <= j < rest.len() implies rest[j].1 != LEADER_ROLE by {
                assert(rest[j] == reports[j + 1]);
            }
        }
    }
}

} // verus!
