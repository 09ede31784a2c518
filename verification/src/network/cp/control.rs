//! A control plane node: what it keeps for itself, and how it reacts to what
//! happens around it.

use crate::collections::{has_key, reversed, Table};
use crate::expert::{ExpertDeclaration, ExpertId};
use crate::hitl::client::HITL_TOPIC;
use crate::id::{GlobalAgentId, SessionId, WorkspaceId, ID};
use crate::job::JobId;
use crate::mode::state_graph::catalog::{
    load_state_graph_catalog_from_store, stored_map, StoredStateGraph,
};
use crate::model::declaration::{Model, ModelId};
use crate::network::cp::jobs::JobRecord;
use crate::network::cp::registry::{names_of, without_peer, DynamicRpcRegistry, RpcRegistryGossip};
use crate::network::cp::resume::{resume_after_hitl_answer, waiting_agents, YieldWatch};
use crate::network::cp::schedule::{
    cycle, fresh_health, health_after, loss_requests, meet_worker, orphans,
    reassign_and_unregister_dead_worker, reconcile, without_jobs, ControlAction, NodeHealth,
};
use crate::network::cp::state::ControlPlaneState;
use crate::network::cp::types::{ControlPlaneRequest, RaftNode, RaftNodeId, WorkerInfo};
use crate::network::cp::RPC_REGISTRY_TOPIC;
use crate::network::peer::PeerId;
use crate::text::{same_text, texts};
use crate::tools::{ToolDeclaration, ToolId};
use vstd::prelude::*;

verus! {

impl Clone for RaftNode {
    fn clone(&self) -> (r: Self)
        ensures
            r == *self,
    {
        RaftNode {
            peer_id: match &self.peer_id {
                Some(peer) => Some(peer.clone()),
                None => None,
            },
            addr: self.addr.clone(),
        }
    }
}

/// Whether `id` is the lowest key of `members`.
pub open spec fn is_lowest(members: Map<u64, RaftNode>, id: RaftNodeId) -> bool {
    &&& members.contains_key(id)
    &&& forall|other: u64| #[trigger] members.contains_key(other) ==> id <= other
}

/// Who starts the cluster, without any message about it: the known member with
/// the lowest number, or this node where it knows nobody.
pub fn elect_bootstrap_leader(
    local_node_id: RaftNodeId,
    known_members: &Table<u64, RaftNode>,
) -> (r: RaftNodeId)
    ensures
        known_members.entries().len() == 0 ==> r == local_node_id,
        known_members.entries().len() > 0 ==> is_lowest(known_members@, r),
        known_members.entries().len() > 0 ==> known_members@.contains_key(r) && forall|other: u64|
            #[trigger]
            known_members@.contains_key(other) ==> r <= other,
{
    let ghost entries = known_members.entries();
    let n: usize = known_members.len();
    if n == 0 {
        return local_node_id;
    }
    let mut lowest: u64 = *known_members.key_at(0);
    let mut i: usize = 1;
    while i < n
        invariant
            1 <= i <= n,
            n == entries.len(),
            entries == known_members.entries(),
            exists|k: int| 0 <= k < i && (#[trigger] entries[k]).0 == lowest,
            forall|k: int| 0 <= k < i ==> lowest <= (#[trigger] entries[k]).0,
        decreases n - i,
    {
        let id: u64 = *known_members.key_at(i);
        if id < lowest {
            lowest = id;
            assert(entries[i as int].0 == lowest);
        } else {
            let ghost k = choose|k: int| 0 <= k < i && (#[trigger] entries[k]).0 == lowest;
            assert(0 <= k < i + 1 && entries[k].0 == lowest);
        }
        i = i + 1;
    }
    proof {
        let k = choose|k: int| 0 <= k < n && (#[trigger] entries[k]).0 == lowest;
        assert(known_members@.contains_key(entries[k].0@));
        assert forall|other: u64| #[trigger] known_members@.contains_key(other) implies lowest
            <= other by {
            assert(has_key(entries, other));
            let j = crate::collections::key_index(entries, other);
            assert(entries[j].0@ == other);
        }
    }
    lowest
}

/// Nodes that know the same members agree on who starts the cluster.
pub proof fn lemma_election_agrees(members: Map<u64, RaftNode>, a: RaftNodeId, b: RaftNodeId)
    requires
        is_lowest(members, a),
        is_lowest(members, b),
    ensures
        a == b,
{
}

/// What became of the wish to stop.
#[derive(Debug, Clone, Copy, PartialEq, Eq, Structural)]
pub enum ShutdownSignal {
    /// A stop was asked for.
    Requested,
    /// The signal changed, but no stop was asked for.
    NotRequested,
    /// Nobody can ask for a stop any more; the node runs on.
    Gone,
}

/// What a gossiped message is about.
#[derive(Debug, Clone, Copy, PartialEq, Eq, Structural)]
pub enum GossipKind {
    /// Who executes which procedure: see [`DynamicRpcRegistry::apply_gossip`].
    Registry,
    /// Questions to humans: see [`ControlPlane::on_hitl_answer`].
    Hitl,
    /// None of a control plane's business.
    Other,
}

/// What a message on `topic` is about.
pub fn gossip_kind(topic: &str) -> (r: GossipKind)
    ensures
        r == (if topic@ == RPC_REGISTRY_TOPIC@ {
            GossipKind::Registry
        } else if topic@ == HITL_TOPIC@ {
            GossipKind::Hitl
        } else {
            GossipKind::Other
        }),
        r == GossipKind::Registry <==> topic@ == "marie/cp/rpc-registry/1.0.0"@,
        r == GossipKind::Hitl ==> topic@ == HITL_TOPIC@,
        r == GossipKind::Other ==> topic@ != HITL_TOPIC@,
{
    if same_text(topic, RPC_REGISTRY_TOPIC) {
        GossipKind::Registry
    } else if same_text(topic, HITL_TOPIC) {
        GossipKind::Hitl
    } else {
        GossipKind::Other
    }
}

/// What a node does once its wait for others is over.
#[derive(Debug, Clone, Copy, PartialEq, Eq, Structural)]
pub enum BootstrapDecision {
    /// The wait was over before.
    Nothing,
    /// This node starts the cluster with the members it knows.
    Initialize,
    /// Another node starts the cluster, and will take this one in.
    WaitForLeader,
}

/// The state of a control plane node that is not replicated. It is lost when
/// the node restarts, which costs time but nothing else.
pub struct ControlPlane {
    pub node_id: RaftNodeId,
    pub known_members: Table<u64, RaftNode>,
    pub bootstrapped: bool,
    pub health: Table<PeerId, NodeHealth>,
    pub assignments: Table<JobId, PeerId>,
    pub yield_watch: Table<GlobalAgentId, YieldWatch>,
    pub rpc_registry: DynamicRpcRegistry,
    pub shutdown_gone: bool,
}

/// The messages that withdraw `peer` from each of `names`.
pub open spec fn withdrawals(names: Seq<Seq<char>>, peer: PeerId, messages: Seq<RpcRegistryGossip>) -> bool {
    &&& messages.len() == names.len()
    &&& forall|i: int|
        0 <= i < names.len() ==> ((#[trigger] messages[i]) matches RpcRegistryGossip::Unregister {
            name,
            peer_id,
        } && name@ == names[i] && peer_id == peer)
}

impl ControlPlane {
    /// A node that knows only itself.
    pub fn new(node_id: RaftNodeId, local_peer_id: PeerId) -> (r: Self)
        ensures
            r.node_id == node_id,
            r.known_members@.dom() == set![node_id],
            r.known_members@[node_id].peer_id == Some(local_peer_id),
            r.known_members@[node_id].addr@ == Seq::<char>::empty(),
            !r.bootstrapped,
            r.health@ == Map::<Seq<char>, NodeHealth>::empty(),
            r.assignments@ == Map::<u128, PeerId>::empty(),
            r.yield_watch@ == Map::<(u128, u128), YieldWatch>::empty(),
            r.rpc_registry@ == Seq::<(Seq<char>, Seq<char>)>::empty(),
            !r.shutdown_gone,
    {
        let mut known_members: Table<u64, RaftNode> = Table::new();
        let _ = known_members.insert(
            node_id,
            RaftNode { peer_id: Some(local_peer_id), addr: String::new() },
        );
        assert(known_members@.dom() =~= set![node_id]);
        ControlPlane {
            node_id,
            known_members,
            bootstrapped: false,
            health: Table::new(),
            assignments: Table::new(),
            yield_watch: Table::new(),
            rpc_registry: DynamicRpcRegistry::new(),
            shutdown_gone: false,
        }
    }

    /// A control plane was met. Says whether it must be taken into the running
    /// cluster: those met before the start are taken in by the start itself.
    pub fn on_control_plane_discovered(&mut self, node_id: RaftNodeId, node: RaftNode) -> (r: bool)
        ensures
            r == (!old(self).known_members@.contains_key(node_id) && old(self).bootstrapped),
            final(self).known_members@ == old(self).known_members@.insert(node_id, node),
            final(self).node_id == old(self).node_id,
            final(self).bootstrapped == old(self).bootstrapped,
            final(self).health == old(self).health,
            final(self).assignments == old(self).assignments,
            final(self).yield_watch == old(self).yield_watch,
            final(self).rpc_registry == old(self).rpc_registry,
            final(self).shutdown_gone == old(self).shutdown_gone,
    {
        let replaced = self.known_members.insert(node_id, node);
        replaced.is_none() && self.bootstrapped
    }

    /// A worker was met: it counts as alive from now on, and is registered.
    pub fn on_worker_discovered(&mut self, peer_id: PeerId, now: u64) -> (r: ControlPlaneRequest)
        ensures
            r == (ControlPlaneRequest::RegisterWorker { worker: WorkerInfo { peer_id } }),
            final(self).health@ == (if old(self).health@.contains_key(peer_id@) {
                old(self).health@
            } else {
                old(self).health@.insert(peer_id@, fresh_health(now))
            }),
            final(self).node_id == old(self).node_id,
            final(self).known_members == old(self).known_members,
            final(self).bootstrapped == old(self).bootstrapped,
            final(self).assignments == old(self).assignments,
            final(self).yield_watch == old(self).yield_watch,
            final(self).rpc_registry == old(self).rpc_registry,
            final(self).shutdown_gone == old(self).shutdown_gone,
    {
        meet_worker(&mut self.health, &peer_id, now);
        ControlPlaneRequest::RegisterWorker { worker: WorkerInfo { peer_id } }
    }

    /// A persistency node was met: it is registered.
    pub fn on_persistency_discovered(&self, peer_id: PeerId) -> (r: ControlPlaneRequest)
        ensures
            r == (ControlPlaneRequest::RegisterPersistency { peer_id }),
    {
        ControlPlaneRequest::RegisterPersistency { peer_id }
    }

    /// A connection was lost. The procedures that the peer executed are
    /// withdrawn, and the others are told. Where it was a worker, the leader
    /// reacts at once rather than at the next cycle.
    pub fn on_peer_disconnected(
        &mut self,
        state: &ControlPlaneState,
        leader: Option<RaftNodeId>,
        peer_id: &PeerId,
    ) -> (r: (Vec<RpcRegistryGossip>, Vec<ControlPlaneRequest>))
        ensures
            withdrawals(names_of(old(self).rpc_registry@, peer_id@), *peer_id, r.0@),
            final(self).rpc_registry@ == without_peer(old(self).rpc_registry@, peer_id@),
            ({
                let lost = leader == Some(old(self).node_id) && state.workers@.contains_key(peer_id@);
                &&& r.1@ == (if lost {
                    loss_requests(state.jobs.entries(), *peer_id)
                } else {
                    Seq::empty()
                })
                &&& final(self).assignments@ == (if lost {
                    without_jobs(
                        old(self).assignments@,
                        orphans(state.jobs.entries(), peer_id@),
                    )
                } else {
                    old(self).assignments@
                })
                &&& final(self).health@ == (if lost {
                    old(self).health@.remove(peer_id@)
                } else {
                    old(self).health@
                })
            }),
            final(self).node_id == old(self).node_id,
            final(self).known_members == old(self).known_members,
            final(self).bootstrapped == old(self).bootstrapped,
            final(self).yield_watch == old(self).yield_watch,
            final(self).shutdown_gone == old(self).shutdown_gone,
    {
        let names = self.rpc_registry.remove_peer(peer_id);
        let mut messages: Vec<RpcRegistryGossip> = Vec::new();
        let mut i: usize = 0;
        while i < names.len()
            invariant
                i <= names@.len(),
                messages@.len() == i,
                forall|k: int|
                    0 <= k < i ==> ((#[trigger] messages@[k]) matches RpcRegistryGossip::Unregister {
                        name,
                        peer_id: p,
                    } && name@ == texts(names@)[k] && p == *peer_id),
            decreases names@.len() - i,
        {
            messages.push(
                RpcRegistryGossip::Unregister { name: names[i].clone(), peer_id: peer_id.clone() },
            );
            i = i + 1;
        }
        let mut requests: Vec<ControlPlaneRequest> = Vec::new();
        if leader == Some(self.node_id) && state.workers.contains_key(peer_id) {
            requests =
            reassign_and_unregister_dead_worker(
                state,
                &mut self.assignments,
                &mut self.health,
                peer_id,
            );
        }
        (messages, requests)
    }

    /// A human answered: the agents that the leader resumes. Every control
    /// plane hears of the answer, so the others must not.
    pub fn on_hitl_answer(
        &self,
        state: &ControlPlaneState,
        leader: Option<RaftNodeId>,
        request_id: ID,
    ) -> (r: Vec<GlobalAgentId>)
        ensures
            r@ == (if leader == Some(self.node_id) {
                waiting_agents(state.jobs.entries(), request_id)
            } else {
                Seq::empty()
            }),
    {
        if leader == Some(self.node_id) {
            resume_after_hitl_answer(state, request_id)
        } else {
            Vec::new()
        }
    }

    /// The wait for others is over.
    pub fn on_bootstrap_delay(&mut self) -> (r: BootstrapDecision)
        requires
            old(self).known_members@.contains_key(old(self).node_id),
        ensures
            r == (if old(self).bootstrapped {
                BootstrapDecision::Nothing
            } else if is_lowest(old(self).known_members@, old(self).node_id) {
                BootstrapDecision::Initialize
            } else {
                BootstrapDecision::WaitForLeader
            }),
            r == BootstrapDecision::Nothing <==> old(self).bootstrapped,
            r == BootstrapDecision::Initialize ==> forall|other: u64| #[trigger]
                old(self).known_members@.contains_key(other) ==> old(self).node_id <= other,
            r == BootstrapDecision::WaitForLeader ==> exists|other: u64| #[trigger]
                old(self).known_members@.contains_key(other) && other < old(self).node_id,
            final(self).bootstrapped,
            final(self).node_id == old(self).node_id,
            final(self).known_members == old(self).known_members,
            final(self).health == old(self).health,
            final(self).assignments == old(self).assignments,
            final(self).yield_watch == old(self).yield_watch,
            final(self).rpc_registry == old(self).rpc_registry,
            final(self).shutdown_gone == old(self).shutdown_gone,
    {
        if self.bootstrapped {
            return BootstrapDecision::Nothing;
        }
        self.bootstrapped = true;
        let members: usize = self.known_members.len();
        let leader: RaftNodeId = elect_bootstrap_leader(self.node_id, &self.known_members);
        proof {
            assert(has_key(self.known_members.entries(), self.node_id));
            assert(members > 0);
        }
        if leader == self.node_id {
            BootstrapDecision::Initialize
        } else {
            BootstrapDecision::WaitForLeader
        }
    }

    /// The control cycle is due; `connected[i]` says whether the i-th worker
    /// of `state` answers.
    pub fn on_tick(
        &mut self,
        state: &ControlPlaneState,
        connected: &Vec<bool>,
        leader: Option<RaftNodeId>,
        now: u64,
    ) -> (r: Vec<ControlAction>)
        requires
            connected@.len() == state.workers.entries().len(),
        ensures
            leader != Some(old(self).node_id) ==> {
                &&& r@ == Seq::<ControlAction>::empty()
                &&& final(self).health@ == health_after(
                    state.workers.entries(),
                    connected@,
                    old(self).health@,
                    now,
                )
                &&& final(self).assignments@ == old(self).assignments@
                &&& final(self).yield_watch@ == old(self).yield_watch@
            },
            leader == Some(old(self).node_id) ==> {
                let all = cycle(
                    state,
                    connected@,
                    old(self).health@,
                    old(self).assignments@,
                    old(self).yield_watch@,
                    now,
                );
                &&& r@ == all.actions
                &&& final(self).health@ == all.health
                &&& final(self).assignments@ == all.assignments
                &&& final(self).yield_watch@ == all.watch
            },
            final(self).node_id == old(self).node_id,
            final(self).known_members == old(self).known_members,
            final(self).bootstrapped == old(self).bootstrapped,
            final(self).rpc_registry == old(self).rpc_registry,
            final(self).shutdown_gone == old(self).shutdown_gone,
    {
        let is_leader = leader == Some(self.node_id);
        reconcile(
            state,
            connected,
            is_leader,
            &mut self.health,
            &mut self.assignments,
            &mut self.yield_watch,
            now,
        )
    }

    /// The signal to stop changed. Says whether the node stops. Dropping the
    /// handle that could ask for a stop does not stop the node: the signal is
    /// merely not looked at any more.
    pub fn on_shutdown(&mut self, signal: ShutdownSignal) -> (r: bool)
        ensures
            r == (signal is Requested),
            final(self).shutdown_gone == (old(self).shutdown_gone || signal is Gone),
            final(self).node_id == old(self).node_id,
            final(self).known_members == old(self).known_members,
            final(self).bootstrapped == old(self).bootstrapped,
            final(self).health == old(self).health,
            final(self).assignments == old(self).assignments,
            final(self).yield_watch == old(self).yield_watch,
            final(self).rpc_registry == old(self).rpc_registry,
    {
        match signal {
            ShutdownSignal::Requested => true,
            ShutdownSignal::NotRequested => false,
            ShutdownSignal::Gone => {
                self.shutdown_gone = true;
                false
            },
        }
    }
}

/// The catalog that a list of entries makes up: an entry that could not be
/// read is left out, and of two with the same identifier the later one stands.
pub open spec fn readable_map<K: View, V, E>(stored: Seq<(K, Result<V, E>)>) -> Map<K::V, V>
    decreases stored.len(),
{
    if stored.len() == 0 {
        Map::empty()
    } else {
        match stored.last().1 {
            Ok(v) => readable_map(stored.drop_last()).insert(stored.last().0@, v),
            Err(_) => readable_map(stored.drop_last()),
        }
    }
}

/// The catalog of models to start with: what of the local store could be
/// decrypted, or nothing where the store could not be read at all.
pub fn load_catalog_from_store(stored: Option<Vec<(ModelId, Result<Model, String>)>>) -> (r: Table<
    ModelId,
    Model,
>)
    ensures
        r@ == (match stored {
            Some(list) => readable_map(list@),
            None => Map::empty(),
        }),
{
    let mut catalog: Table<ModelId, Model> = Table::new();
    match stored {
        None => catalog,
        Some(list) => {
            let ghost all = list@;
            let mut rest = reversed(list);
            assert(rest@ =~= all.skip(0).reverse());
            while rest.len() > 0
                invariant
                    rest@.len() <= all.len(),
                    catalog@ == readable_map(all.take(all.len() - rest@.len())),
                    rest@ == all.skip(all.len() - rest@.len()).reverse(),
                decreases rest@.len(),
            {
                let ghost done = all.len() - rest@.len();
                match rest.pop() {
                    Some(entry) => {
                        proof {
                            assert(entry == all[done]);
                            assert(rest@ =~= all.skip(done + 1).reverse());
                            assert(all.take(done + 1).drop_last() =~= all.take(done));
                        }
                        match entry.1 {
                            Ok(model) => {
                                let _ = catalog.insert(entry.0, model);
                            },
                            Err(_) => {},
                        }
                    },
                    None => {},
                }
            }
            assert(all.take(all.len() as int) =~= all);
            catalog
        },
    }
}

/// The catalog that a list of entries makes up: of two with the same
/// identifier the later one stands.
pub open spec fn latest_map<K: View, V>(stored: Seq<(K, V)>) -> Map<K::V, V>
    decreases stored.len(),
{
    if stored.len() == 0 {
        Map::empty()
    } else {
        latest_map(stored.drop_last()).insert(stored.last().0@, stored.last().1)
    }
}

/// The catalog that a list of entries makes up.
fn load_latest<K: crate::collections::Key, V>(stored: Option<Vec<(K, V)>>) -> (r: Table<K, V>)
    ensures
        r@ == (match stored {
            Some(list) => latest_map(list@),
            None => Map::empty(),
        }),
{
    let mut catalog: Table<K, V> = Table::new();
    match stored {
        None => catalog,
        Some(list) => {
            let ghost all = list@;
            let mut rest = reversed(list);
            assert(rest@ =~= all.skip(0).reverse());
            while rest.len() > 0
                invariant
                    rest@.len() <= all.len(),
                    catalog@ == latest_map(all.take(all.len() - rest@.len())),
                    rest@ == all.skip(all.len() - rest@.len()).reverse(),
                decreases rest@.len(),
            {
                let ghost done = all.len() - rest@.len();
                match rest.pop() {
                    Some(entry) => {
                        proof {
                            assert(entry == all[done]);
                            assert(rest@ =~= all.skip(done + 1).reverse());
                            assert(all.take(done + 1).drop_last() =~= all.take(done));
                        }
                        let _ = catalog.insert(entry.0, entry.1);
                    },
                    None => {},
                }
            }
            assert(all.take(all.len() as int) =~= all);
            catalog
        },
    }
}

/// The catalog of tools to start with: what the local store holds, or nothing
/// where it could not be read.
pub fn load_tool_catalog_from_store(stored: Option<Vec<(ToolId, ToolDeclaration)>>) -> (r: Table<
    ToolId,
    ToolDeclaration,
>)
    ensures
        r@ == (match stored {
            Some(list) => latest_map(list@),
            None => Map::empty(),
        }),
{
    load_latest(stored)
}

/// The catalog of experts to start with: what the local store holds, or
/// nothing where it could not be read.
pub fn load_expert_catalog_from_store(stored: Option<Vec<(ExpertId, ExpertDeclaration)>>) -> (r:
    Table<ExpertId, ExpertDeclaration>)
    ensures
        r@ == (match stored {
            Some(list) => latest_map(list@),
            None => Map::empty(),
        }),
{
    load_latest(stored)
}

/// The state that a control plane starts with, from what its local stores
/// hold: `None` where one could not be read, and an error in place of a model
/// that could not be decrypted.
pub fn initial_state(
    models: Option<Vec<(ModelId, Result<Model, String>)>>,
    tools: Option<Vec<(ToolId, ToolDeclaration)>>,
    experts: Option<Vec<(ExpertId, ExpertDeclaration)>>,
    state_graphs: Option<Vec<StoredStateGraph>>,
) -> (r: ControlPlaneState)
    ensures
        r.models@ == (match models {
            Some(list) => readable_map(list@),
            None => Map::empty(),
        }),
        r.tools@ == (match tools {
            Some(list) => latest_map(list@),
            None => Map::empty(),
        }),
        r.experts@ == (match experts {
            Some(list) => latest_map(list@),
            None => Map::empty(),
        }),
        r.state_graphs@ == (match state_graphs {
            Some(list) => stored_map(list@),
            None => Map::empty(),
        }),
        r.jobs.entries() == Seq::<(JobId, JobRecord)>::empty(),
        r.jobs@ == Map::<u128, JobRecord>::empty(),
        r.workers.entries() == Seq::<(PeerId, WorkerInfo)>::empty(),
        r.workers@ == Map::<Seq<char>, WorkerInfo>::empty(),
        r.persistency_nodes.entries() == Seq::<(PeerId, ())>::empty(),
        r.persistency_nodes@ == Map::<Seq<char>, ()>::empty(),
        r.session_workspaces.entries() == Seq::<(SessionId, WorkspaceId)>::empty(),
        r.session_workspaces@ == Map::<u128, WorkspaceId>::empty(),
{
    let mut r = ControlPlaneState::new();
    r.models = load_catalog_from_store(models);
    r.tools = load_tool_catalog_from_store(tools);
    r.experts = load_expert_catalog_from_store(experts);
    r.state_graphs = load_state_graph_catalog_from_store(state_graphs);
    r
}

/// What is told of the loss of a peer withdraws it from each of the procedures
/// named, in their order, and nothing else.
pub proof fn lemma_withdrawals_unregister(
    names: Seq<Seq<char>>,
    peer: PeerId,
    messages: Seq<RpcRegistryGossip>,
    i: int,
)
    requires
        withdrawals(names, peer, messages),
        0 <= i < messages.len(),
    ensures
        messages.len() == names.len(),
        messages[i] matches RpcRegistryGossip::Unregister { name, peer_id } && name@ == names[i]
            && peer_id == peer,
{
    assert(messages[i] == messages[i]);
}

/// The model that a catalog starts with under an identifier is the last one stored
/// there that could be decrypted.
pub proof fn lemma_last_readable_counts<K: View, V, E>(
    stored: Seq<(K, Result<V, E>)>,
    i: int,
    value: V,
)
    requires
        0 <= i < stored.len(),
        stored[i].1 == Ok::<V, E>(value),
        forall|j: int|
            i < j < stored.len() ==> (#[trigger] stored[j]).0@ != stored[i].0@ || stored[j].1
                is Err,
    ensures
        readable_map(stored).contains_key(stored[i].0@),
        readable_map(stored)[stored[i].0@] == value,
    decreases stored.len(),
{
    let front = stored.drop_last();
    if i < stored.len() - 1 {
        let last = stored[stored.len() - 1];
        assert(last.0@ != stored[i].0@ || last.1 is Err);
        assert(front[i] == stored[i]);
        assert forall|j: int| i < j < front.len() implies (#[trigger] front[j]).0@ != front[i].0@
            || front[j].1 is Err by {
            let same = stored[j];
        }
        lemma_last_readable_counts(front, i, value);
    }
}

/// A catalog starts with nothing under an identifier where nothing stored there
/// could be decrypted.
pub proof fn lemma_unreadable_is_left_out<K: View, V, E>(
    stored: Seq<(K, Result<V, E>)>,
    id: K::V,
)
    requires
        forall|j: int|
            0 <= j < stored.len() ==> (#[trigger] stored[j]).0@ != id || stored[j].1 is Err,
    ensures
        !readable_map(stored).contains_key(id),
    decreases stored.len(),
{
    if stored.len() > 0 {
        let front = stored.drop_last();
        let last = stored[stored.len() - 1];
        assert(last.0@ != id || last.1 is Err);
        assert forall|j: int| 0 <= j < front.len() implies (#[trigger] front[j]).0@ != id
            || front[j].1 is Err by {
            let same = stored[j];
        }
        lemma_unreadable_is_left_out(front, id);
    }
}

/// What a catalog starts with under an identifier is the last entry stored there.
pub proof fn lemma_last_stored_counts<K: View, V>(stored: Seq<(K, V)>, i: int)
    requires
        0 <= i < stored.len(),
        forall|j: int| i < j < stored.len() ==> (#[trigger] stored[j]).0@ != stored[i].0@,
    ensures
        latest_map(stored).contains_key(stored[i].0@),
        latest_map(stored)[stored[i].0@] == stored[i].1,
    decreases stored.len(),
{
    let front = stored.drop_last();
    if i < stored.len() - 1 {
        let last = stored[stored.len() - 1];
        assert(last.0@ != stored[i].0@);
        assert(front[i] == stored[i]);
        assert forall|j: int| i < j < front.len() implies (#[trigger] front[j]).0@
            != front[i].0@ by {
            let same = stored[j];
        }
        lemma_last_stored_counts(front, i);
    }
}

/// A catalog starts with nothing under an identifier where nothing is stored.
pub proof fn lemma_only_stored_is_loaded<K: View, V>(stored: Seq<(K, V)>, id: K::V)
    requires
        forall|j: int| 0 <= j < stored.len() ==> (#[trigger] stored[j]).0@ != id,
    ensures
        !latest_map(stored).contains_key(id),
    decreases stored.len(),
{
    if stored.len() > 0 {
        let front = stored.drop_last();
        let last = stored[stored.len() - 1];
        assert(last.0@ != id);
        assert forall|j: int| 0 <= j < front.len() implies (#[trigger] front[j]).0@ != id by {
            let same = stored[j];
        }
        lemma_only_stored_is_loaded(front, id);
    }
}

} // verus!
