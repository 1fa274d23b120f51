//! The manager: the bookkeeping half of agent lifecycle control. Admission
//! checks the worker cap before anything else, then wires the bus inbox, the
//! registry row and the runtime row; release unwinds all three. The per
//! message driver decision is a pure function of the message and the paused
//! flag; the host's scheduler performs the surrounding work.

use vstd::prelude::*;

use crate::bus::{MessageBus, MessageBusConfig};
use crate::errors::{AgentError, AgentErrorView};
use crate::json::JsonView;
use crate::message::{ControlCommand, Message, MessageTypeView};
use crate::registry::{AgentInfo, AgentRegistry, RegistryConfig};
use crate::types::{AgentCapability, AgentLifecycleState, AgentStatus, AgentType, AgentTypeView};

verus! {

/// Manager configuration.
#[derive(Debug)]
pub struct AgentManagerConfig {
    pub message_bus_config: MessageBusConfig,
    pub registry_config: RegistryConfig,
    pub max_agents: usize,
    pub enable_auto_scaling: bool,
}

impl core::default::Default for AgentManagerConfig {
    /// The conventional defaults.
    fn default() -> (r: AgentManagerConfig)
        ensures
            r.message_bus_config.broadcast_capacity == 1000,
            r.message_bus_config.p2p_capacity == 100,
            r.message_bus_config.history_size == 1000,
            !r.message_bus_config.enable_persistence,
            r.registry_config.heartbeat_timeout_secs == 30,
            r.registry_config.cleanup_interval_secs == 60,
            r.max_agents == 100,
            !r.enable_auto_scaling,
    {
        AgentManagerConfig {
            message_bus_config: MessageBusConfig {
                broadcast_capacity: 1000,
                p2p_capacity: 100,
                history_size: 1000,
                enable_persistence: false,
            },
            registry_config: RegistryConfig { heartbeat_timeout_secs: 30, cleanup_interval_secs: 60 },
            max_agents: 100,
            enable_auto_scaling: false,
        }
    }
}

/// Aggregate counters over registry and bus.
#[derive(Debug, Clone, Copy, PartialEq, Eq, Structural)]
pub struct ManagerStats {
    pub total_agents: usize,
    pub alive_agents: usize,
    pub idle_agents: usize,
    pub busy_agents: usize,
    pub total_messages: u64,
    pub failed_messages: u64,
}

/// The manager's record of one admitted worker.
#[derive(Debug)]
pub struct AgentRuntime {
    pub agent_id: String,
    pub agent_type: AgentType,
    pub state: AgentLifecycleState,
}

/// Ghost form of [`AgentRuntime`].
pub struct AgentRuntimeView {
    pub agent_id: Seq<char>,
    pub agent_type: AgentTypeView,
    pub state: AgentLifecycleState,
}

impl View for AgentRuntime {
    type V = AgentRuntimeView;

    open spec fn view(&self) -> AgentRuntimeView {
        AgentRuntimeView {
            agent_id: self.agent_id@,
            agent_type: self.agent_type@,
            state: self.state,
        }
    }
}

impl DeepView for AgentRuntime {
    type V = AgentRuntimeView;

    open spec fn deep_view(&self) -> AgentRuntimeView {
        self.view()
    }
}

/// The manager: it owns the bus and the registry, and tracks one runtime
/// row per admitted worker. The host drives the bus and registry through
/// the public fields; the runtime rows change only through admission and
/// release.
pub struct AgentManager {
    /// The message fabric.
    pub bus: MessageBus,
    /// The agent directory.
    pub registry: AgentRegistry,
    /// One row per admitted worker.
    pub runtime: Vec<AgentRuntime>,
    /// The worker cap, enforced before anything else on admission.
    pub max_agents: usize,
    /// Whether the host may scale workers on its own.
    pub enable_auto_scaling: bool,
}

impl AgentManager {
    /// Ghost form of the runtime rows.
    pub open spec fn runtime_v(&self) -> Seq<AgentRuntimeView> {
        self.runtime.deep_view()
    }

    /// The worker cap.
    pub open spec fn max_agents_v(&self) -> int {
        self.max_agents as int
    }

    /// Well-formedness: the components are well-formed and runtime rows
    /// carry distinct ids.
    pub open spec fn wf(&self) -> bool {
        &&& self.bus.wf()
        &&& self.registry.wf()
        &&& forall|i: int, j: int|
            0 <= i < j < self.runtime_v().len() ==> self.runtime_v()[i].agent_id
                != self.runtime_v()[j].agent_id
    }

    /// A fresh manager with an empty bus, registry and runtime table.
    pub fn new(config: AgentManagerConfig) -> (r: AgentManager)
        ensures
            r.wf(),
            r.runtime_v() =~= Seq::<AgentRuntimeView>::empty(),
            r.max_agents_v() == config.max_agents,
            r.bus.config_v() == config.message_bus_config,
            r.registry.config_v() == config.registry_config,
    {
        let r = AgentManager {
            bus: MessageBus::new(config.message_bus_config),
            registry: AgentRegistry::new(config.registry_config),
            runtime: Vec::new(),
            max_agents: config.max_agents,
            enable_auto_scaling: config.enable_auto_scaling,
        };
        proof {
            assert(r.runtime_v() =~= Seq::<AgentRuntimeView>::empty());
        }
        r
    }

    /// The position of the runtime row for `id`, if any.
    #[verifier::loop_isolation(false)]
    fn find_runtime(&self, agent_id: &str) -> (r: Option<usize>)
        ensures
            match r {
                Some(j) => j < self.runtime_v().len() && self.runtime_v()[j as int].agent_id
                    == agent_id@,
                None => forall|i: int|
                    0 <= i < self.runtime_v().len() ==> (#[trigger] self.runtime_v()[
                    i]).agent_id != agent_id@,
            },
    {
        let id_owned = agent_id.to_owned();
        let mut k: usize = 0;
        while k < self.runtime.len()
            invariant
                k <= self.runtime.len(),
                forall|j: int| 0 <= j < k ==> self.runtime_v()[j].agent_id != agent_id@,
            decreases self.runtime.len() - k,
        {
            if self.runtime[k].agent_id == id_owned {
                return Some(k);
            }
            k += 1;
        }
        None
    }

    /// Admits a worker: the cap is checked before anything else, then the
    /// bus inbox, the registry row and the runtime row are created in that
    /// order. A failure leaves the manager as it was.
    pub fn admit_agent(
        &mut self,
        agent_id: String,
        agent_type: AgentType,
        capabilities: Vec<AgentCapability>,
    ) -> (r: Result<(), AgentError>)
        requires
            old(self).wf(),
        ensures
            final(self).wf(),
            final(self).max_agents_v() == old(self).max_agents_v(),
            match r {
                Ok(()) => ({
                    &&& old(self).runtime_v().len() < old(self).max_agents_v()
                    &&& final(self).runtime_v() =~= old(self).runtime_v().push(
                        AgentRuntimeView {
                            agent_id: agent_id@,
                            agent_type: agent_type@,
                            state: AgentLifecycleState::Running,
                        },
                    )
                    &&& final(self).bus.registered(agent_id@)
                    &&& final(self).registry.registered(agent_id@)
                    &&& final(self).registry.agents_v() =~= old(self).registry.agents_v().push(
                        final(self).registry.agents_v().last(),
                    )
                    &&& final(self).registry.agents_v().last().id == agent_id@
                    &&& final(self).registry.agents_v().last().agent_type == agent_type@
                    &&& final(self).registry.agents_v().last().capabilities
                        == capabilities.deep_view()
                    &&& final(self).registry.agents_v().last().status == AgentStatus::Active
                }),
                Err(e) => ({
                    &&& final(self).runtime_v() == old(self).runtime_v()
                    &&& final(self).bus.inboxes_v() =~= old(self).bus.inboxes_v()
                    &&& final(self).registry.agents_v() == old(self).registry.agents_v()
                    &&& (e@ is ResourceExhausted <==> old(self).runtime_v().len() >= old(self).max_agents_v())
                    &&& (e@ is ResourceExhausted || e@ is InternalError)
                }),
            },
    {
        if self.runtime.len() >= self.max_agents {
            return Err(AgentError::ResourceExhausted("maximum agent limit reached".to_owned()));
        }
        if self.find_runtime(agent_id.as_str()).is_some() {
            return Err(AgentError::InternalError("agent id already admitted".to_owned()));
        }
        let ghost bpre = self.bus.inboxes_v();
        match self.bus.register_agent(agent_id.clone()) {
            Ok(()) => {},
            Err(e) => {
                return Err(e);
            },
        }
        let ghost bmid = self.bus.inboxes_v();
        let info = AgentInfo::new(agent_id.clone(), agent_type.duplicate(), capabilities);
        let ghost iv = info@;
        let ghost gpre = self.registry.agents_v();
        match self.registry.register(info) {
            Ok(()) => {},
            Err(e) => {
                let rollback = self.bus.unregister_agent(agent_id.as_str());
                proof {
                    assert(rollback is Ok);
                    assert(bmid =~= bpre.push(
                        crate::bus::InboxView {
                            agent_id: agent_id@,
                            p2p: Seq::empty(),
                            bcast: Seq::empty(),
                        },
                    ));
                    assert(forall|i: int|
                        0 <= i < bpre.len() ==> (#[trigger] bpre[i]).agent_id != agent_id@);
                    assert(bmid[bpre.len() as int].agent_id == agent_id@);
                    let jj = choose|jj: int|
                        0 <= jj < bmid.len() && (#[trigger] bmid[jj]).agent_id == agent_id@
                            && self.bus.inboxes_v() =~= bmid.remove(jj);
                    if jj < bpre.len() {
                        assert(bmid[jj] == bpre[jj]);
                        assert(false);
                    }
                    assert(bmid.remove(bpre.len() as int) =~= bpre);
                    assert(self.bus.inboxes_v() =~= bpre);
                }
                return Err(e);
            },
        }
        let ghost rpre = self.runtime_v();
        self.runtime.push(
            AgentRuntime { agent_id, agent_type, state: AgentLifecycleState::Running },
        );
        proof {
            assert(self.runtime_v() =~= rpre.push(
                AgentRuntimeView {
                    agent_id: agent_id@,
                    agent_type: agent_type@,
                    state: AgentLifecycleState::Running,
                },
            ));
            assert(self.bus.inboxes_v()[bpre.len() as int].agent_id == agent_id@);
            assert(self.bus.registered(agent_id@));
            assert(self.registry.agents_v() =~= gpre.push(iv));
            assert(self.registry.agents_v().last() == iv);
            assert(self.registry.agents_v()[gpre.len() as int].id == agent_id@);
            assert(self.registry.registered(agent_id@));
        }
        Ok(())
    }

    /// Releases a worker: the runtime row goes, and the registry row and
    /// the bus inbox are unwound. An id with no runtime row is unknown.
    pub fn release_agent(&mut self, agent_id: &str) -> (r: Result<(), AgentError>)
        requires
            old(self).wf(),
        ensures
            final(self).wf(),
            final(self).max_agents_v() == old(self).max_agents_v(),
            match r {
                Ok(()) => ({
                    &&& exists|j: int|
                        0 <= j < old(self).runtime_v().len() && (#[trigger] old(self).runtime_v()[j]).agent_id == agent_id@ && final(self).runtime_v() =~= old(self).runtime_v().remove(j)
                    &&& !final(self).registry.registered(agent_id@)
                    &&& !final(self).bus.registered(agent_id@)
                }),
                Err(e) => ({
                    &&& e@ == AgentErrorView::AgentNotFound(agent_id@)
                    &&& final(self).runtime_v() == old(self).runtime_v()
                    &&& final(self).bus.inboxes_v() == old(self).bus.inboxes_v()
                    &&& final(self).registry.agents_v() == old(self).registry.agents_v()
                    &&& forall|i: int|
                        0 <= i < old(self).runtime_v().len() ==> (#[trigger] old(self).runtime_v()[i]).agent_id != agent_id@
                }),
            },
    {
        let j = match self.find_runtime(agent_id) {
            None => {
                return Err(AgentError::AgentNotFound(agent_id.to_owned()));
            },
            Some(j) => j,
        };
        let ghost rpre = self.runtime_v();
        self.runtime.remove(j);
        proof {
            assert(self.runtime_v() =~= rpre.remove(j as int));
            assert(forall|i: int|
                0 <= i < self.runtime_v().len() ==> (#[trigger] self.runtime_v()[i]) == if i
                    < j {
                    rpre[i]
                } else {
                    rpre[i + 1]
                });
        }
        let _ = self.registry.unregister(agent_id);
        let unsub = self.bus.unregister_agent(agent_id);
        proof {
            assert(unsub is Ok);
        }
        Ok(())
    }

    /// Releases every admitted worker, first to last.
    #[verifier::loop_isolation(false)]
    pub fn shutdown_all(&mut self)
        requires
            old(self).wf(),
        ensures
            final(self).wf(),
            final(self).runtime_v() =~= Seq::<AgentRuntimeView>::empty(),
    {
        while self.runtime.len() > 0
            invariant
                self.wf(),
            decreases self.runtime.len(),
        {
            let ghost rpre = self.runtime_v();
            let id = self.runtime[0].agent_id.clone();
            let res = self.release_agent(id.as_str());
            proof {
                assert(rpre[0].agent_id == id@);
                assert(res is Ok);
                let jj = choose|jj: int|
                    0 <= jj < rpre.len() && (#[trigger] rpre[jj]).agent_id == id@
                        && self.runtime_v() =~= rpre.remove(jj);
                assert(self.runtime_v().len() == rpre.len() - 1);
            }
        }
        proof {
            assert(self.runtime_v() =~= Seq::<AgentRuntimeView>::empty());
        }
    }

    /// How many workers are admitted.
    pub fn agent_count(&self) -> (r: usize)
        ensures
            r == self.runtime_v().len(),
    {
        self.runtime.len()
    }

    /// Aggregate counters: registry totals beside bus totals.
    pub fn get_stats(&self, now: u64) -> (r: ManagerStats)
        ensures
            r.total_agents == self.registry.agents_v().len(),
            r.alive_agents == crate::registry::alive_rows(
                self.registry.agents_v(),
                self.registry.config_v().heartbeat_timeout_secs as int,
                now as int,
            ).len(),
            r.idle_agents == crate::registry::idle_rows(self.registry.agents_v()).len(),
            r.busy_agents == crate::registry::count_status(
                self.registry.agents_v(),
                AgentStatus::Busy,
            ),
            r.total_messages == self.bus.stats_v().total_messages,
            r.failed_messages == self.bus.stats_v().failed_deliveries,
    {
        let rs = self.registry.get_stats(now);
        let bs = self.bus.get_stats();
        ManagerStats {
            total_agents: rs.total_agents,
            alive_agents: rs.alive_agents,
            idle_agents: rs.idle_agents,
            busy_agents: rs.busy_agents,
            total_messages: bs.total_messages,
            failed_messages: bs.failed_deliveries,
        }
    }
}

/// What the driver does with one inbound message.
#[derive(Debug, Clone, Copy, PartialEq, Eq, Structural)]
pub enum DriverAction {
    /// Leave the select loop; the manager proceeds to teardown.
    Stop,
    /// Hold non-control messages from now on.
    Pause,
    /// Deliver held and new messages again.
    Resume,
    /// Record this status for the agent in the registry.
    UpdateStatus(AgentStatus),
    /// Hand the message to the worker's own handler.
    Deliver,
    /// Keep the message back until the driver resumes.
    Hold,
}

/// The text form under which a status travels in a payload.
pub open spec fn status_of_label(s: Seq<char>) -> Option<AgentStatus> {
    if s == "Active"@ {
        Some(AgentStatus::Active)
    } else if s == "Busy"@ {
        Some(AgentStatus::Busy)
    } else if s == "Idle"@ {
        Some(AgentStatus::Idle)
    } else if s == "Offline"@ {
        Some(AgentStatus::Offline)
    } else if s == "Failed"@ {
        Some(AgentStatus::Failed)
    } else {
        None
    }
}

/// Parses a status label.
pub fn parse_status_label(s: &str) -> (r: Option<AgentStatus>)
    ensures
        r == status_of_label(s@),
{
    let owned = s.to_owned();
    if owned == "Active".to_owned() {
        Some(AgentStatus::Active)
    } else if owned == "Busy".to_owned() {
        Some(AgentStatus::Busy)
    } else if owned == "Idle".to_owned() {
        Some(AgentStatus::Idle)
    } else if owned == "Offline".to_owned() {
        Some(AgentStatus::Offline)
    } else if owned == "Failed".to_owned() {
        Some(AgentStatus::Failed)
    } else {
        None
    }
}

/// The driver's decision for one inbound message while `paused` or not:
/// stop on `Stop`/`Shutdown`, toggle on `Pause`/`Resume`, record a carried
/// status, hold anything else while paused, otherwise deliver.
pub open spec fn dispatch_spec(paused: bool, kind: MessageTypeView, payload: JsonView) -> DriverAction {
    match kind {
        MessageTypeView::Control(ControlCommand::Stop) => DriverAction::Stop,
        MessageTypeView::Control(ControlCommand::Shutdown) => DriverAction::Stop,
        MessageTypeView::Control(ControlCommand::Pause) => DriverAction::Pause,
        MessageTypeView::Control(ControlCommand::Resume) => DriverAction::Resume,
        MessageTypeView::Control(ControlCommand::Start) => DriverAction::Deliver,
        MessageTypeView::StatusUpdate => (match payload.lookup("status"@) {
            Some(JsonView::Str(label)) => (match status_of_label(label) {
                Some(st) => DriverAction::UpdateStatus(st),
                None => DriverAction::Deliver,
            }),
            _ => DriverAction::Deliver,
        }),
        _ => if paused {
            DriverAction::Hold
        } else {
            DriverAction::Deliver
        },
    }
}

/// Decides what the driver does with one inbound message.
pub fn dispatch_inbound(paused: bool, message: &Message) -> (r: DriverAction)
    ensures
        r == dispatch_spec(paused, message@.message_type, message@.payload),
{
    match &message.message_type {
        crate::message::MessageType::Control(cmd) => match cmd {
            ControlCommand::Stop => DriverAction::Stop,
            ControlCommand::Shutdown => DriverAction::Stop,
            ControlCommand::Pause => DriverAction::Pause,
            ControlCommand::Resume => DriverAction::Resume,
            ControlCommand::Start => DriverAction::Deliver,
        },
        crate::message::MessageType::StatusUpdate => match message.payload.get("status") {
            Some(v) => match v.as_str() {
                Some(label) => match parse_status_label(label.as_str()) {
                    Some(st) => DriverAction::UpdateStatus(st),
                    None => DriverAction::Deliver,
                },
                None => DriverAction::Deliver,
            },
            None => DriverAction::Deliver,
        },
        _ => {
            if paused {
                DriverAction::Hold
            } else {
                DriverAction::Deliver
            }
        },
    }
}

} // verus!
