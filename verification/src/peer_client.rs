//! The election side of a node: the bully algorithm that picks the leader
//! of the cluster, written as a state machine. Each call of
//! [`ClientServer::step`] takes one event (a reply from a peer, a timer, a
//! leader announcement) and returns the one action the node performs next.
use crate::endpoint::{endpoint_accepts, endpoint_is_valid};
use std::collections::HashMap;
use vstd::prelude::*;
use vstd::seq_lib::*;
use vstd::std_specs::hash::*;
use vstd::std_specs::iter::IteratorSpec;

verus! {

broadcast use vstd::std_specs::hash::group_hash_axioms;

/// How many times a node asks the higher nodes before it declares itself leader.
pub const ELECTION_ROUNDS: u32 = 3;

/// Where the node stands in the election.
#[derive(Clone, Copy, Debug)]
pub enum Phase {
    /// No election is running.
    Idle,
    /// An election message went to `peers[next - 1]` in round `round`; its reply is awaited.
    AwaitingReply { round: u32, next: usize },
    /// Round `round` asked every higher peer without an answer; the node pauses before the next round.
    Pausing { round: u32 },
}

/// What happened to the node.
#[derive(Clone, Copy, Debug)]
pub enum Event {
    /// The client loop begins; the first election starts.
    Started,
    /// A peer announced itself as coordinator (leader) of the cluster.
    CoordinatorReceived(u32),
    /// The heartbeat interval elapsed.
    HeartbeatTick,
    /// The heartbeat to the leader could not be delivered (the send reported an
    /// error, or the leader is not among the peers): the leader is taken for dead.
    HeartbeatFailed,
    /// The peer last asked answered the election message.
    ElectionAnswered,
    /// The peer last asked could not be reached.
    ElectionFailed,
    /// The pause between two election rounds is over.
    PauseElapsed,
}

/// What the node does next.
#[derive(Debug)]
pub enum Action {
    /// Nothing to send.
    Nothing,
    /// Send an election message to this peer and report its reply.
    SendElection(u32),
    /// Wait for the pause between rounds, then report `PauseElapsed`.
    PauseBeforeRetry,
    /// The node is the leader: announce it as coordinator to these peers and mark the node leader.
    AnnounceVictory(Vec<u32>),
    /// Another node leads: mark this node follower.
    StepDown,
    /// Send a heartbeat to the leader.
    SendHeartbeat(u32),
    /// The leader is not among the peers this node can reach.
    LeaderUnreachable(u32),
}

/// The mathematical form of an [`Action`].
pub enum ActionView {
    Nothing,
    SendElection(u32),
    PauseBeforeRetry,
    AnnounceVictory(Seq<u32>),
    StepDown,
    SendHeartbeat(u32),
    LeaderUnreachable(u32),
}

impl View for Action {
    type V = ActionView;

    open spec fn view(&self) -> ActionView {
        match self {
            Action::Nothing => ActionView::Nothing,
            Action::SendElection(t) => ActionView::SendElection(*t),
            Action::PauseBeforeRetry => ActionView::PauseBeforeRetry,
            Action::AnnounceVictory(ts) => ActionView::AnnounceVictory(ts@),
            Action::StepDown => ActionView::StepDown,
            Action::SendHeartbeat(t) => ActionView::SendHeartbeat(*t),
            Action::LeaderUnreachable(t) => ActionView::LeaderUnreachable(*t),
        }
    }
}

/// The election state of one node.
pub struct ClientServer {
    peers: Vec<u32>,
    peer_id: u32,
    leader_id: Option<u32>,
    phase: Phase,
}

/// The mathematical form of a [`ClientServer`].
pub struct ClientView {
    /// The nodes this node can reach, in the order an election round walks them.
    pub peers: Seq<u32>,
    pub peer_id: u32,
    pub leader_id: Option<u32>,
    pub phase: Phase,
}

impl View for ClientServer {
    type V = ClientView;

    closed spec fn view(&self) -> ClientView {
        ClientView { peers: self.peers@, peer_id: self.peer_id, leader_id: self.leader_id, phase: self.phase }
    }
}

/// The predicate "is not `me`".
pub open spec fn other_than(me: u32) -> spec_fn(u32) -> bool {
    |p: u32| p != me
}

/// The index of the first peer at or after `from` whose id is higher than `me`.
pub open spec fn first_higher_from(peers: Seq<u32>, me: u32, from: int) -> Option<int>
    decreases peers.len() - from,
{
    if from < 0 || from >= peers.len() {
        None
    } else if peers[from] > me {
        Some(from)
    } else {
        first_higher_from(peers, me, from + 1)
    }
}

impl ClientView {
    pub open spec fn wf(self) -> bool {
        &&& self.peers.len() <= usize::MAX
        &&& self.peers.no_duplicates()
        &&& !self.peers.contains(self.peer_id)
        &&& match self.phase {
            Phase::Idle => true,
            Phase::AwaitingReply { round, next } => {
                &&& round < ELECTION_ROUNDS
                &&& 1 <= next <= self.peers.len()
                &&& self.peers[next - 1] > self.peer_id
            },
            Phase::Pausing { round } => round < ELECTION_ROUNDS,
        }
    }

    pub open spec fn with_phase(self, phase: Phase) -> ClientView {
        ClientView { phase, ..self }
    }

    /// Continue round `round` at index `from`: ask the next higher peer, or pause when none is left.
    pub open spec fn canvass(self, round: u32, from: int) -> (ClientView, ActionView) {
        match first_higher_from(self.peers, self.peer_id, from) {
            Some(j) => (
                self.with_phase(Phase::AwaitingReply { round, next: (j + 1) as usize }),
                ActionView::SendElection(self.peers[j]),
            ),
            None => (self.with_phase(Phase::Pausing { round }), ActionView::PauseBeforeRetry),
        }
    }

    /// No higher peer answered in any round: the node leads and tells every other peer.
    pub open spec fn victory(self) -> (ClientView, ActionView) {
        (
            ClientView { leader_id: Some(self.peer_id), phase: Phase::Idle, ..self },
            ActionView::AnnounceVictory(self.peers.filter(other_than(self.peer_id))),
        )
    }

    /// What the node does on a heartbeat tick.
    pub open spec fn heartbeat(self) -> ActionView {
        match self.leader_id {
            Some(t) => if t != self.peer_id {
                if self.peers.contains(t) {
                    ActionView::SendHeartbeat(t)
                } else {
                    ActionView::LeaderUnreachable(t)
                }
            } else {
                ActionView::Nothing
            },
            None => ActionView::Nothing,
        }
    }

    /// The transition relation: the next state and action for `event`.
    /// Events that the current phase does not wait for change nothing.
    pub open spec fn next(self, event: Event) -> (ClientView, ActionView) {
        match self.phase {
            Phase::Idle => match event {
                Event::Started => self.canvass(0, 0),
                Event::HeartbeatFailed => self.canvass(0, 0),
                Event::CoordinatorReceived(leader) => (
                    ClientView { leader_id: Some(leader), ..self },
                    if leader != self.peer_id { ActionView::StepDown } else { ActionView::Nothing },
                ),
                Event::HeartbeatTick => (self, self.heartbeat()),
                _ => (self, ActionView::Nothing),
            },
            Phase::AwaitingReply { round, next } => match event {
                Event::ElectionAnswered => (self.with_phase(Phase::Idle), ActionView::Nothing),
                Event::ElectionFailed => self.canvass(round, next as int),
                _ => (self, ActionView::Nothing),
            },
            Phase::Pausing { round } => match event {
                Event::PauseElapsed => if round + 1 < ELECTION_ROUNDS {
                    self.canvass((round + 1) as u32, 0)
                } else {
                    self.victory()
                },
                _ => (self, ActionView::Nothing),
            },
        }
    }
}

fn first_higher(peers: &Vec<u32>, me: u32, from: usize) -> (r: Option<usize>)
    requires
        from <= peers.len(),
    ensures
        match first_higher_from(peers@, me, from as int) {
            Some(j) => r == Some(j as usize),
            None => r is None,
        },
{
    let mut j = from;
    while j < peers.len()
        invariant
            from <= j <= peers.len(),
            first_higher_from(peers@, me, from as int) == first_higher_from(peers@, me, j as int),
        decreases peers.len() - j,
    {
        if peers[j] > me {
            return Some(j);
        }
        j = j + 1;
    }
    None
}

fn contains_id(peers: &Vec<u32>, id: u32) -> (r: bool)
    ensures
        r == peers@.contains(id),
{
    let mut i: usize = 0;
    while i < peers.len()
        invariant
            i <= peers.len(),
            forall|k: int| 0 <= k < i ==> peers@[k] != id,
        decreases peers.len() - i,
    {
        if peers[i] == id {
            return true;
        }
        i = i + 1;
    }
    false
}

fn all_but(peers: &Vec<u32>, me: u32) -> (r: Vec<u32>)
    ensures
        r@ == peers@.filter(other_than(me)),
{
    let mut r: Vec<u32> = Vec::new();
    let mut i: usize = 0;
    while i < peers.len()
        invariant
            i <= peers.len(),
            r@ == peers@.take(i as int).filter(other_than(me)),
        decreases peers.len() - i,
    {
        proof {
            assert(peers@.take(i + 1) =~= peers@.take(i as int).push(peers@[i as int]));
            peers@.take(i as int).lemma_filter_push(peers@[i as int], other_than(me));
        }
        if peers[i] != me {
            r.push(peers[i]);
        }
        i = i + 1;
    }
    assert(peers@.take(peers.len() as int) =~= peers@);
    r
}

/// Node `id` of the cluster becomes a peer of node `me`: it is another node and its
/// address is one tonic accepts.
pub open spec fn admits(nodes: Map<u32, String>, me: u32, id: u32) -> bool {
    &&& nodes.contains_key(id)
    &&& id != me
    &&& endpoint_accepts(nodes[id]@)
}

spec fn seen_key(s: Seq<(&u32, &String)>, n: int, x: u32) -> bool {
    exists|k: int| 0 <= k < n && #[trigger] s[k].0 == x
}

impl ClientServer {
    /// The election state of node `current_id` in the cluster `cluster_nodes`
    /// (node id to address): its peers are the other nodes whose address is valid,
    /// no leader is known and no election runs.
    pub fn new(cluster_nodes: &HashMap<u32, String>, current_id: u32) -> (r: ClientServer)
        ensures
            r.wf(),
            r@.peer_id == current_id,
            r@.leader_id is None,
            r@.phase == Phase::Idle,
            forall|id: u32| #[trigger] r@.peers.contains(id) <==> admits(cluster_nodes@, current_id, id),
    {
        let mut peers: Vec<u32> = Vec::new();
        let ghost m = cluster_nodes@;
        for entry in it: cluster_nodes.iter()
            invariant
                m == cluster_nodes@,
                it.seq() == spec_hash_map_iter(cluster_nodes).remaining(),
                it.seq().no_duplicates(),
                peers@.no_duplicates(),
                !peers@.contains(current_id),
                forall|x: u32| #[trigger] peers@.contains(x) <==> (seen_key(it.seq(), it.index(), x) && admits(m, current_id, x)),
        {
            let id = *entry.0;
            let url = entry.1;
            proof {
                let s = it.seq();
                let i = it.index();
                assert(s[i] == entry);
                assert forall|x: u32| seen_key(s, i + 1, x) <==> (seen_key(s, i, x) || x == id) by {
                    if seen_key(s, i + 1, x) && x != id {
                        let k = choose|k: int| 0 <= k < i + 1 && #[trigger] s[k].0 == x;
                        assert(k != i);
                        assert(seen_key(s, i, x));
                    }
                    if x == id {
                        assert(s[i].0 == x);
                    }
                    if seen_key(s, i, x) {
                        let k = choose|k: int| 0 <= k < i && #[trigger] s[k].0 == x;
                        assert(s[k].0 == x);
                    }
                }
                if seen_key(s, i, id) {
                    let k = choose|k: int| 0 <= k < i && #[trigger] s[k].0 == id;
                    assert(m.contains_key(*s[k].0) && m[*s[k].0] == *s[k].1);
                    assert(m.contains_key(*s[i].0) && m[*s[i].0] == *s[i].1);
                    assert(s[k] == s[i]);
                }
                assert(m.contains_key(id) && m[id] == *url);
                assert(!seen_key(s, i, id));
            }
            let ghost before = peers@;
            let admitted = id != current_id && endpoint_is_valid(url.as_str());
            if admitted {
                peers.push(id);
            }
            proof {
                let s = it.seq();
                let i = it.index();
                assert(admitted == admits(m, current_id, id));
                assert(!before.contains(id));
                assert forall|x: u32| #[trigger] peers@.contains(x) <==> (before.contains(x) || (admitted && x == id)) by {
                    if admitted && x == id {
                        assert(peers@[peers@.len() - 1] == id);
                    }
                    if before.contains(x) {
                        let k = choose|k: int| 0 <= k < before.len() && before[k] == x;
                        assert(peers@[k] == x);
                    }
                }
            }
        }
        assert(peers@.len() == peers.len());
        proof {
            let s = spec_hash_map_iter(cluster_nodes).remaining();
            assert forall|x: u32| seen_key(s, s.len() as int, x) <==> m.contains_key(x) by {
                if seen_key(s, s.len() as int, x) {
                    let k = choose|k: int| 0 <= k < s.len() && #[trigger] s[k].0 == x;
                    assert(m.contains_key(*s[k].0));
                }
                if m.contains_key(x) {
                    assert(s.contains((&x, &m[x])));
                    let k = choose|k: int| 0 <= k < s.len() && s[k] == (&x, &m[x]);
                    assert(s[k].0 == x);
                }
            }
        }
        ClientServer { peers, peer_id: current_id, leader_id: None, phase: Phase::Idle }
    }

    pub open spec fn wf(&self) -> bool {
        self@.wf()
    }

    fn canvass(&mut self, round: u32, from: usize) -> (a: Action)
        requires
            old(self)@.wf(),
            round < ELECTION_ROUNDS,
            from <= old(self)@.peers.len(),
        ensures
            (final(self)@, a@) == old(self)@.canvass(round, from as int),
    {
        proof {
            lemma_first_higher_bounds(self@.peers, self.peer_id, from as int);
        }
        match first_higher(&self.peers, self.peer_id, from) {
            Some(j) => {
                self.phase = Phase::AwaitingReply { round, next: j + 1 };
                Action::SendElection(self.peers[j])
            },
            None => {
                self.phase = Phase::Pausing { round };
                Action::PauseBeforeRetry
            },
        }
    }

    /// Takes one event and returns the action the node performs next, as
    /// [`ClientView::next`] states.
    pub fn step(&mut self, event: Event) -> (a: Action)
        requires
            old(self).wf(),
        ensures
            (final(self)@, a@) == old(self)@.next(event),
            final(self).wf(),
    {
        proof {
            law_transitions_keep_state_well_formed(self@, event);
        }
        match self.phase {
            Phase::Idle => match event {
                Event::Started => self.canvass(0, 0),
                Event::HeartbeatFailed => self.canvass(0, 0),
                Event::CoordinatorReceived(leader) => {
                    self.leader_id = Some(leader);
                    if leader != self.peer_id {
                        Action::StepDown
                    } else {
                        Action::Nothing
                    }
                },
                Event::HeartbeatTick => match self.leader_id {
                    Some(t) => if t != self.peer_id {
                        if contains_id(&self.peers, t) {
                            Action::SendHeartbeat(t)
                        } else {
                            Action::LeaderUnreachable(t)
                        }
                    } else {
                        Action::Nothing
                    },
                    None => Action::Nothing,
                },
                _ => Action::Nothing,
            },
            Phase::AwaitingReply { round, next } => match event {
                Event::ElectionAnswered => {
                    self.phase = Phase::Idle;
                    Action::Nothing
                },
                Event::ElectionFailed => self.canvass(round, next),
                _ => Action::Nothing,
            },
            Phase::Pausing { round } => match event {
                Event::PauseElapsed => if round + 1 < ELECTION_ROUNDS {
                    self.canvass(round + 1, 0)
                } else {
                    let targets = all_but(&self.peers, self.peer_id);
                    self.leader_id = Some(self.peer_id);
                    self.phase = Phase::Idle;
                    Action::AnnounceVictory(targets)
                },
                _ => Action::Nothing,
            },
        }
    }

    /// This node's id.
    pub fn peer_id(&self) -> (r: u32)
        ensures
            r == self@.peer_id,
    {
        self.peer_id
    }

    /// The leader this node currently knows of.
    pub fn leader_id(&self) -> (r: Option<u32>)
        ensures
            r == self@.leader_id,
    {
        self.leader_id
    }

    /// The peers this node can reach.
    pub fn peers(&self) -> (r: &Vec<u32>)
        ensures
            r@ == self@.peers,
    {
        &self.peers
    }

    /// Where the node stands in the election.
    pub fn phase(&self) -> (r: Phase)
        ensures
            r == self@.phase,
    {
        self.phase
    }
}

proof fn lemma_first_higher_bounds(peers: Seq<u32>, me: u32, from: int)
    requires
        0 <= from,
    ensures
        first_higher_from(peers, me, from) matches Some(j) ==> from <= j < peers.len() && peers[j] > me,
    decreases peers.len() - from,
{
    if from < peers.len() && !(peers[from] > me) {
        lemma_first_higher_bounds(peers, me, from + 1);
    }
}

/// Every transition keeps the election state well formed.
pub proof fn law_transitions_keep_state_well_formed(v: ClientView, event: Event)
    requires
        v.wf(),
    ensures
        v.next(event).0.wf(),
{
    match v.phase {
        Phase::AwaitingReply { round, next } => lemma_first_higher_bounds(v.peers, v.peer_id, next as int),
        _ => lemma_first_higher_bounds(v.peers, v.peer_id, 0),
    }
}


/// The largest number of election events (replies and pauses) that can still
/// happen before the running election ends; zero when no election runs.
pub open spec fn election_budget(v: ClientView) -> nat {
    let width = v.peers.len() + 2;
    match v.phase {
        Phase::Idle => 0,
        Phase::AwaitingReply { round, next } => {
            ((ELECTION_ROUNDS - 1 - round) * width + 1 + (v.peers.len() + 1 - next)) as nat
        },
        Phase::Pausing { round } => ((ELECTION_ROUNDS - 1 - round) * width + 1) as nat,
    }
}

/// The event the current phase waits for (a reply, or the end of a pause).
pub open spec fn awaited(v: ClientView, event: Event) -> bool {
    match v.phase {
        Phase::Idle => false,
        Phase::AwaitingReply { .. } => event is ElectionAnswered || event is ElectionFailed,
        Phase::Pausing { .. } => event is PauseElapsed,
    }
}

/// An election always ends: every awaited event (a reply or the end of a pause)
/// strictly shrinks the election budget, and an election that has run out of
/// budget is over. So after a bounded number of replies and pauses the node is
/// idle again, having either heard from a higher node or declared itself leader.
pub proof fn law_election_terminates(v: ClientView, event: Event)
    requires
        v.wf(),
        awaited(v, event),
    ensures
        election_budget(v) > 0,
        election_budget(v.next(event).0) < election_budget(v),
        election_budget(v.next(event).0) == 0 ==> v.next(event).0.phase is Idle,
{
    let width = v.peers.len() + 2;
    match v.phase {
        Phase::AwaitingReply { round, next } => {
            lemma_first_higher_bounds(v.peers, v.peer_id, next as int);
            assert(0 <= (ELECTION_ROUNDS - 1 - round) * width) by (nonlinear_arith)
                requires
                    round < ELECTION_ROUNDS,
                    width >= 0,
            ;
        },
        Phase::Pausing { round } => {
            if round + 1 < ELECTION_ROUNDS {
                lemma_first_higher_bounds(v.peers, v.peer_id, 0);
                assert((ELECTION_ROUNDS - 1 - round) * width == (ELECTION_ROUNDS - 1 - (round + 1))
                    * width + width) by (nonlinear_arith);
                assert(0 <= (ELECTION_ROUNDS - 1 - (round + 1)) * width) by (nonlinear_arith)
                    requires
                        round + 1 < ELECTION_ROUNDS,
                        width >= 0,
                ;
            }
        },
        Phase::Idle => {},
    }
}

/// Bully rule: a node only ever asks peers with a higher id than its own.
pub proof fn law_election_asks_only_higher_peers(v: ClientView, event: Event)
    requires
        v.wf(),
    ensures
        v.next(event).1 matches ActionView::SendElection(t) ==> v.peers.contains(t) && t > v.peer_id,
{
    match v.phase {
        Phase::AwaitingReply { round, next } => lemma_first_higher_bounds(
            v.peers,
            v.peer_id,
            next as int,
        ),
        _ => lemma_first_higher_bounds(v.peers, v.peer_id, 0),
    }
}

proof fn lemma_filter_keeps_all(s: Seq<u32>, me: u32)
    requires
        !s.contains(me),
    ensures
        s.filter(other_than(me)) == s,
    decreases s.len(),
{
    if s.len() > 0 {
        let init = s.drop_last();
        assert(!init.contains(me)) by {
            if init.contains(me) {
                let k = choose|k: int| 0 <= k < init.len() && init[k] == me;
                assert(s[k] == me);
            }
        }
        lemma_filter_keeps_all(init, me);
        assert(init.push(s.last()) =~= s);
        init.lemma_filter_push(s.last(), other_than(me));
    } else {
        reveal(Seq::filter);
    }
}

/// A node declares itself leader only when the pause after its last round
/// ends; it then records itself as leader and announces it to every peer.
pub proof fn law_victory_announces_to_every_peer(v: ClientView, event: Event)
    requires
        v.wf(),
    ensures
        v.next(event).1 matches ActionView::AnnounceVictory(targets) ==> {
            &&& v.phase == (Phase::Pausing { round: (ELECTION_ROUNDS - 1) as u32 })
            &&& event is PauseElapsed
            &&& targets == v.peers
            &&& v.next(event).0.leader_id == Some(v.peer_id)
            &&& v.next(event).0.phase is Idle
        },
{
    lemma_filter_keeps_all(v.peers, v.peer_id);
}

/// An answer from a higher peer ends the election at once: the node stays
/// as it was, without a leader claim of its own.
pub proof fn law_answer_ends_election(v: ClientView)
    requires
        v.wf(),
        v.phase is AwaitingReply,
    ensures
        v.next(Event::ElectionAnswered).0 == v.with_phase(Phase::Idle),
        v.next(Event::ElectionAnswered).1 is Nothing,
{
}

/// A coordinator announcement received while idle makes the announcer the
/// known leader; the node steps down exactly when the announcer is another
/// node, and its role stays as it was when the announcer is the node itself.
/// During an election the announcement waits: the program leaves it in its
/// channel until the election is over, and the machine changes nothing if it
/// is handed one earlier.
pub proof fn law_coordinator_sets_leader(v: ClientView, leader: u32)
    ensures
        v.phase is Idle ==> {
            &&& v.next(Event::CoordinatorReceived(leader)).0 == (ClientView { leader_id: Some(leader), ..v })
            &&& (v.next(Event::CoordinatorReceived(leader)).1 is StepDown <==> leader != v.peer_id)
            &&& (leader == v.peer_id ==> v.next(Event::CoordinatorReceived(leader)).1 is Nothing)
        },
        !(v.phase is Idle) ==> v.next(Event::CoordinatorReceived(leader)) == (v, ActionView::Nothing),
{
}

/// Whether the node leads once `action` is performed, when it led (`leading`) before.
pub open spec fn role_after(leading: bool, action: ActionView) -> bool {
    match action {
        ActionView::AnnounceVictory(_) => true,
        ActionView::StepDown => false,
        _ => leading,
    }
}

/// The role after performing each of `actions` in order.
pub open spec fn role_after_all(leading: bool, actions: Seq<ActionView>) -> bool
    decreases actions.len(),
{
    if actions.len() == 0 {
        leading
    } else {
        role_after_all(role_after(leading, actions[0]), actions.drop_first())
    }
}

proof fn lemma_leadership_step(v: ClientView, leading: bool, event: Event)
    requires
        v.wf(),
        leading ==> v.leader_id == Some(v.peer_id),
    ensures
        role_after(leading, v.next(event).1) ==> v.next(event).0.leader_id == Some(v.peer_id),
        v.next(event).0.peer_id == v.peer_id,
{
}

/// A node that performs every action its election decides leads only while it
/// knows itself as the leader: if that held before a run of events (for
/// instance at the start, as a follower), it holds after it.
pub proof fn law_leader_knows_itself(v: ClientView, leading: bool, events: Seq<Event>)
    requires
        v.wf(),
        leading ==> v.leader_id == Some(v.peer_id),
    ensures
        role_after_all(leading, run(v, events).1) ==> run(v, events).0.leader_id == Some(v.peer_id),
    decreases events.len(),
{
    if events.len() > 0 {
        let (first, a) = v.next(events[0]);
        lemma_leadership_step(v, leading, events[0]);
        law_transitions_keep_state_well_formed(v, events[0]);
        law_leader_knows_itself(first, role_after(leading, a), events.drop_first());
        let rest = run(first, events.drop_first()).1;
        assert((seq![a] + rest).drop_first() =~= rest);
        assert((seq![a] + rest)[0] == a);
    }
}

/// Within a round the node moves forward through its peers: after a failed
/// election message it asks only a peer further along than the one just asked,
/// so each round asks each higher peer at most once, and an election (at most
/// `ELECTION_ROUNDS` rounds) asks it at most `ELECTION_ROUNDS` times.
pub proof fn law_each_round_asks_each_peer_once(v: ClientView, round: u32, next: usize)
    requires
        v.wf(),
        v.phase == (Phase::AwaitingReply { round, next }),
    ensures
        v.next(Event::ElectionFailed).0.phase matches Phase::AwaitingReply { round: r, next: n } ==> r == round
            && n > next,
        v.next(Event::ElectionFailed).1 matches ActionView::SendElection(t) ==> exists|j: int|
            next <= j < v.peers.len() && v.peers[j] == t && v.next(Event::ElectionFailed).0.phase == (
            Phase::AwaitingReply { round, next: (j + 1) as usize }),
        v.next(Event::ElectionFailed).0.phase matches Phase::Pausing { round: r } ==> r == round,
{
    lemma_first_higher_bounds(v.peers, v.peer_id, next as int);
}

/// Rounds only advance at the end of a pause, one at a time, and never past
/// the last round.
pub proof fn law_rounds_advance_after_pauses(v: ClientView, round: u32)
    requires
        v.wf(),
        v.phase == (Phase::Pausing { round }),
    ensures
        v.next(Event::PauseElapsed).0.phase matches Phase::AwaitingReply { round: r, .. } ==> r == round + 1,
        v.next(Event::PauseElapsed).0.phase matches Phase::Pausing { round: r } ==> r == round + 1,
        round + 1 == ELECTION_ROUNDS ==> v.next(Event::PauseElapsed).0.phase is Idle,
{
}

/// A dead leader triggers another election: when the heartbeat to the leader
/// cannot be delivered, an idle node starts a new election at once (asking its
/// first higher peer, or pausing when it has none), keeping the leader it knew.
pub proof fn law_failed_heartbeat_starts_election(v: ClientView)
    requires
        v.wf(),
        v.phase is Idle,
    ensures
        v.next(Event::HeartbeatFailed) == v.canvass(0, 0),
        v.next(Event::HeartbeatFailed).0.phase matches Phase::AwaitingReply { round, .. } ==> round == 0,
        v.next(Event::HeartbeatFailed).0.phase matches Phase::Pausing { round } ==> round == 0,
        !(v.next(Event::HeartbeatFailed).0.phase is Idle),
        v.next(Event::HeartbeatFailed).1 is SendElection || v.next(Event::HeartbeatFailed).1 is PauseBeforeRetry,
        v.next(Event::HeartbeatFailed).0.leader_id == v.leader_id,
{
}

/// `j` is the first index at or after `from` of a peer with a higher id than `me`.
pub open spec fn is_first_higher(peers: Seq<u32>, me: u32, from: int, j: int) -> bool {
    &&& from <= j < peers.len()
    &&& peers[j] > me
    &&& forall|k: int| from <= k < j ==> peers[k] <= me
}

/// No peer at or after index `from` has a higher id than `me`.
pub open spec fn none_higher_from(peers: Seq<u32>, me: u32, from: int) -> bool {
    forall|k: int| from <= k < peers.len() ==> peers[k] <= me
}

proof fn lemma_first_higher_is_least(peers: Seq<u32>, me: u32, from: int)
    requires
        0 <= from,
    ensures
        first_higher_from(peers, me, from) matches Some(j) ==> is_first_higher(peers, me, from, j),
        first_higher_from(peers, me, from) is None ==> none_higher_from(peers, me, from),
    decreases peers.len() - from,
{
    if from < peers.len() && !(peers[from] > me) {
        lemma_first_higher_is_least(peers, me, from + 1);
    }
}

/// Every election round asks every higher peer in turn, starting with the
/// first one: when an election starts (at start-up, or after a failed
/// heartbeat) the node asks the first peer with a higher id, or pauses at
/// once only when no peer has a higher id. The known leader is kept.
pub proof fn law_election_starts_with_first_higher_peer(v: ClientView, event: Event, j: int)
    requires
        v.wf(),
        v.phase is Idle,
        event is Started || event is HeartbeatFailed,
    ensures
        is_first_higher(v.peers, v.peer_id, 0, j) ==> v.next(event) == (
            v.with_phase(Phase::AwaitingReply { round: 0, next: (j + 1) as usize }),
            ActionView::SendElection(v.peers[j]),
        ),
        none_higher_from(v.peers, v.peer_id, 0) ==> v.next(event) == (
            v.with_phase(Phase::Pausing { round: 0 }),
            ActionView::PauseBeforeRetry,
        ),
{
    lemma_first_higher_is_least(v.peers, v.peer_id, 0);
}

/// An unanswered election message never ends an election: the node asks the
/// next higher peer after the one that did not answer, in the same round, and
/// pauses only when no higher peer is left in the round.
pub proof fn law_unanswered_message_moves_on(v: ClientView, round: u32, next: usize, j: int)
    requires
        v.wf(),
        v.phase == (Phase::AwaitingReply { round, next }),
    ensures
        is_first_higher(v.peers, v.peer_id, next as int, j) ==> v.next(Event::ElectionFailed) == (
            v.with_phase(Phase::AwaitingReply { round, next: (j + 1) as usize }),
            ActionView::SendElection(v.peers[j]),
        ),
        none_higher_from(v.peers, v.peer_id, next as int) ==> v.next(Event::ElectionFailed) == (
            v.with_phase(Phase::Pausing { round }),
            ActionView::PauseBeforeRetry,
        ),
        !(v.next(Event::ElectionFailed).0.phase is Idle),
{
    lemma_first_higher_is_least(v.peers, v.peer_id, next as int);
}

/// The end of a pause that is not the last starts the next round from the
/// first peer: the node asks the first higher peer again, or pauses again when
/// it has none; it never stops the election before the last round.
pub proof fn law_pause_starts_next_round(v: ClientView, round: u32, j: int)
    requires
        v.wf(),
        v.phase == (Phase::Pausing { round }),
        round + 1 < ELECTION_ROUNDS,
    ensures
        is_first_higher(v.peers, v.peer_id, 0, j) ==> v.next(Event::PauseElapsed) == (
            v.with_phase(Phase::AwaitingReply { round: (round + 1) as u32, next: (j + 1) as usize }),
            ActionView::SendElection(v.peers[j]),
        ),
        none_higher_from(v.peers, v.peer_id, 0) ==> v.next(Event::PauseElapsed) == (
            v.with_phase(Phase::Pausing { round: (round + 1) as u32 }),
            ActionView::PauseBeforeRetry,
        ),
        !(v.next(Event::PauseElapsed).0.phase is Idle),
{
    lemma_first_higher_is_least(v.peers, v.peer_id, 0);
}

/// On a heartbeat tick an idle node heartbeats its known leader whenever that
/// leader is another node among its peers, whatever its id; it reports the
/// leader unreachable only when the leader is another node outside its peers;
/// with no known leader, or leading itself, it sends nothing. The state stays.
pub proof fn law_heartbeat_tick(v: ClientView, t: u32)
    requires
        v.phase is Idle,
    ensures
        v.leader_id == Some(t) && t != v.peer_id && v.peers.contains(t) ==> v.next(Event::HeartbeatTick)
            == (v, ActionView::SendHeartbeat(t)),
        v.leader_id == Some(t) && t != v.peer_id && !v.peers.contains(t) ==> v.next(Event::HeartbeatTick)
            == (v, ActionView::LeaderUnreachable(t)),
        (v.leader_id is None || v.leader_id == Some(v.peer_id)) ==> v.next(Event::HeartbeatTick) == (
            v,
            ActionView::Nothing,
        ),
{
}

/// Heartbeats go only to a known leader other than the node itself, and only
/// when that leader is one of its peers.
pub proof fn law_heartbeat_targets_leader(v: ClientView, event: Event)
    ensures
        v.next(event).1 matches ActionView::SendHeartbeat(t) ==> {
            &&& v.leader_id == Some(t)
            &&& t != v.peer_id
            &&& v.peers.contains(t)
            &&& v.next(event).0 == v
        },
{
}

/// The states and actions of a node that takes `events` in order.
pub open spec fn run(v: ClientView, events: Seq<Event>) -> (ClientView, Seq<ActionView>)
    decreases events.len(),
{
    if events.len() == 0 {
        (v, Seq::empty())
    } else {
        let (first, a) = v.next(events[0]);
        let (last, rest) = run(first, events.drop_first());
        (last, seq![a] + rest)
    }
}

proof fn lemma_none_higher(peers: Seq<u32>, me: u32, from: int)
    requires
        0 <= from,
        forall|i: int| 0 <= i < peers.len() ==> peers[i] < me,
    ensures
        first_higher_from(peers, me, from) is None,
    decreases peers.len() - from,
{
    if from < peers.len() {
        lemma_none_higher(peers, me, from + 1);
    }
}

/// The node with the highest id sends no election message: once started, it
/// pauses through every round and then declares itself leader to all its peers.
pub proof fn law_highest_node_wins(v: ClientView)
    requires
        v.wf(),
        v.phase is Idle,
        forall|i: int| 0 <= i < v.peers.len() ==> v.peers[i] < v.peer_id,
    ensures
        ({
            let events = seq![Event::Started, Event::PauseElapsed, Event::PauseElapsed, Event::PauseElapsed];
            let (last, actions) = run(v, events);
            &&& actions == seq![
                ActionView::PauseBeforeRetry,
                ActionView::PauseBeforeRetry,
                ActionView::PauseBeforeRetry,
                ActionView::AnnounceVictory(v.peers),
            ]
            &&& last.leader_id == Some(v.peer_id)
            &&& last.phase is Idle
        }),
{
    lemma_none_higher(v.peers, v.peer_id, 0);
    lemma_filter_keeps_all(v.peers, v.peer_id);
    let events = seq![Event::Started, Event::PauseElapsed, Event::PauseElapsed, Event::PauseElapsed];
    let v1 = v.next(Event::Started).0;
    let v2 = v1.next(Event::PauseElapsed).0;
    let v3 = v2.next(Event::PauseElapsed).0;
    let v4 = v3.next(Event::PauseElapsed).0;
    assert(events.drop_first() =~= seq![Event::PauseElapsed, Event::PauseElapsed, Event::PauseElapsed]);
    assert(events.drop_first().drop_first() =~= seq![Event::PauseElapsed, Event::PauseElapsed]);
    assert(events.drop_first().drop_first().drop_first() =~= seq![Event::PauseElapsed]);
    assert(events.drop_first().drop_first().drop_first().drop_first() =~= Seq::<Event>::empty());
    reveal_with_fuel(run, 5);
    assert(run(v, events).1 =~= seq![
        ActionView::PauseBeforeRetry,
        ActionView::PauseBeforeRetry,
        ActionView::PauseBeforeRetry,
        ActionView::AnnounceVictory(v.peers),
    ]);
}

} // verus!
