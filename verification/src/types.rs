//! Core enumerations shared by every component: agent classification,
//! capabilities, statuses, task kinds, priorities and access levels.

use vstd::prelude::*;

verus! {

/// Status of one plan step.
#[derive(Debug, Clone, Copy, PartialEq, Eq, Structural)]
pub enum StepStatus {
    Pending,
    Executing,
    Done,
    Failed,
}

/// Lifecycle state of an agent as observed by the manager.
#[derive(Debug, Clone, Copy, PartialEq, Eq, Structural)]
pub enum AgentLifecycleState {
    Created,
    Initializing,
    Running,
    Paused,
    Stopping,
    Stopped,
    Failed,
}

/// What kind of worker an agent is.
#[derive(Debug, Clone)]
pub enum AgentType {
    Master,
    Planner,
    Executor,
    Verifier,
    Monitor,
    Custom(String),
}

/// Ghost form of [`AgentType`]: the custom name as a character sequence.
pub enum AgentTypeView {
    Master,
    Planner,
    Executor,
    Verifier,
    Monitor,
    Custom(Seq<char>),
}

impl View for AgentType {
    type V = AgentTypeView;

    open spec fn view(&self) -> AgentTypeView {
        match self {
            AgentType::Master => AgentTypeView::Master,
            AgentType::Planner => AgentTypeView::Planner,
            AgentType::Executor => AgentTypeView::Executor,
            AgentType::Verifier => AgentTypeView::Verifier,
            AgentType::Monitor => AgentTypeView::Monitor,
            AgentType::Custom(name) => AgentTypeView::Custom(name@),
        }
    }
}

impl DeepView for AgentType {
    type V = AgentTypeView;

    open spec fn deep_view(&self) -> AgentTypeView {
        self.view()
    }
}

impl AgentType {
    /// Value-preserving copy; `==` on the views states exactly that nothing
    /// was altered.
    pub fn duplicate(&self) -> (r: AgentType)
        ensures
            r@ == self@,
    {
        match self {
            AgentType::Master => AgentType::Master,
            AgentType::Planner => AgentType::Planner,
            AgentType::Executor => AgentType::Executor,
            AgentType::Verifier => AgentType::Verifier,
            AgentType::Monitor => AgentType::Monitor,
            AgentType::Custom(name) => AgentType::Custom(name.clone()),
        }
    }

    /// Band number of the variant, used to decide equality at run time.
    pub open spec fn discriminant_spec(v: AgentTypeView) -> int {
        match v {
            AgentTypeView::Master => 0,
            AgentTypeView::Planner => 1,
            AgentTypeView::Executor => 2,
            AgentTypeView::Verifier => 3,
            AgentTypeView::Monitor => 4,
            AgentTypeView::Custom(_) => 5,
        }
    }

    /// Run-time variant number, matching `discriminant_spec`.
    pub fn discriminant(&self) -> (k: u8)
        ensures
            k as int == AgentType::discriminant_spec(self@),
    {
        match self {
            AgentType::Master => 0,
            AgentType::Planner => 1,
            AgentType::Executor => 2,
            AgentType::Verifier => 3,
            AgentType::Monitor => 4,
            AgentType::Custom(_) => 5,
        }
    }

    /// The custom name, where there is one.
    fn custom_name(&self) -> (r: Option<&String>)
        ensures
            match r {
                Some(s) => self@ is Custom && self@->0 == s@,
                None => !(self@ is Custom),
            },
    {
        match self {
            AgentType::Custom(s) => Some(s),
            _ => None,
        }
    }

    /// Structural equality, decided at run time, reflected to the views.
    pub fn same_as(&self, other: &AgentType) -> (r: bool)
        ensures
            r == (self@ == other@),
    {
        match self.custom_name() {
            Some(a) => match other.custom_name() {
                Some(b) => *a == *b,
                None => false,
            },
            None => match other.custom_name() {
                Some(_) => false,
                None => self.discriminant() == other.discriminant(),
            },
        }
    }
}

/// A routing tag declaring what a worker can do.
#[derive(Debug, Clone)]
pub enum AgentCapability {
    TaskPlanning,
    TaskExecution,
    TaskVerification,
    Monitoring,
    Coordination,
    ToolCalling(String),
    Custom(String),
}

/// Ghost form of [`AgentCapability`].
pub enum CapabilityView {
    TaskPlanning,
    TaskExecution,
    TaskVerification,
    Monitoring,
    Coordination,
    ToolCalling(Seq<char>),
    Custom(Seq<char>),
}

impl View for AgentCapability {
    type V = CapabilityView;

    open spec fn view(&self) -> CapabilityView {
        match self {
            AgentCapability::TaskPlanning => CapabilityView::TaskPlanning,
            AgentCapability::TaskExecution => CapabilityView::TaskExecution,
            AgentCapability::TaskVerification => CapabilityView::TaskVerification,
            AgentCapability::Monitoring => CapabilityView::Monitoring,
            AgentCapability::Coordination => CapabilityView::Coordination,
            AgentCapability::ToolCalling(name) => CapabilityView::ToolCalling(name@),
            AgentCapability::Custom(name) => CapabilityView::Custom(name@),
        }
    }
}

impl DeepView for AgentCapability {
    type V = CapabilityView;

    open spec fn deep_view(&self) -> CapabilityView {
        self.view()
    }
}

impl AgentCapability {
    /// Value-preserving copy.
    pub fn duplicate(&self) -> (r: AgentCapability)
        ensures
            r@ == self@,
    {
        match self {
            AgentCapability::TaskPlanning => AgentCapability::TaskPlanning,
            AgentCapability::TaskExecution => AgentCapability::TaskExecution,
            AgentCapability::TaskVerification => AgentCapability::TaskVerification,
            AgentCapability::Monitoring => AgentCapability::Monitoring,
            AgentCapability::Coordination => AgentCapability::Coordination,
            AgentCapability::ToolCalling(name) => AgentCapability::ToolCalling(name.clone()),
            AgentCapability::Custom(name) => AgentCapability::Custom(name.clone()),
        }
    }

    /// Variant number of the capability, used to decide equality.
    pub open spec fn discriminant_spec(v: CapabilityView) -> int {
        match v {
            CapabilityView::TaskPlanning => 0,
            CapabilityView::TaskExecution => 1,
            CapabilityView::TaskVerification => 2,
            CapabilityView::Monitoring => 3,
            CapabilityView::Coordination => 4,
            CapabilityView::ToolCalling(_) => 5,
            CapabilityView::Custom(_) => 6,
        }
    }

    /// Run-time variant number, matching `discriminant_spec`.
    pub fn discriminant(&self) -> (k: u8)
        ensures
            k as int == AgentCapability::discriminant_spec(self@),
    {
        match self {
            AgentCapability::TaskPlanning => 0,
            AgentCapability::TaskExecution => 1,
            AgentCapability::TaskVerification => 2,
            AgentCapability::Monitoring => 3,
            AgentCapability::Coordination => 4,
            AgentCapability::ToolCalling(_) => 5,
            AgentCapability::Custom(_) => 6,
        }
    }

    /// The name argument of the variant, where there is one.
    fn name_part(&self) -> (r: Option<&String>)
        ensures
            match r {
                Some(s) => (self@ is ToolCalling && self@->ToolCalling_0 == s@) || (self@
                    is Custom && self@->Custom_0 == s@),
                None => !(self@ is ToolCalling) && !(self@ is Custom),
            },
    {
        match self {
            AgentCapability::ToolCalling(s) => Some(s),
            AgentCapability::Custom(s) => Some(s),
            _ => None,
        }
    }

    /// Structural equality, reflected to the views.
    pub fn same_as(&self, other: &AgentCapability) -> (r: bool)
        ensures
            r == (self@ == other@),
    {
        if self.discriminant() != other.discriminant() {
            return false;
        }
        match self.name_part() {
            Some(a) => match other.name_part() {
                Some(b) => *a == *b,
                None => false,
            },
            None => true,
        }
    }
}

/// Duplicates a capability list element by element.
pub fn duplicate_capabilities(caps: &Vec<AgentCapability>) -> (r: Vec<AgentCapability>)
    ensures
        r.deep_view() == caps.deep_view(),
{
    let mut out: Vec<AgentCapability> = Vec::new();
    let mut k: usize = 0;
    while k < caps.len()
        invariant
            k <= caps.len(),
            out.len() == k,
            forall|j: int| 0 <= j < k ==> out@[j]@ == caps@[j]@,
        decreases caps.len() - k,
    {
        out.push(caps[k].duplicate());
        k += 1;
    }
    proof {
        assert(out.deep_view() =~= caps.deep_view());
    }
    out
}

/// What kind of work a task is.
#[derive(Debug, Clone, Copy, PartialEq, Eq, Structural)]
pub enum TaskType {
    Planning,
    Execution,
    Verification,
    Analysis,
    Monitoring,
    Composite,
}

/// Priority band of a task: a four-level total order.
#[derive(Debug, Clone, Copy, PartialEq, Eq, PartialOrd, Ord, Hash, Structural)]
pub enum Priority {
    Low,
    Normal,
    High,
    Critical,
}

impl Priority {
    /// Numeric rank of the band; larger means more urgent.
    pub open spec fn rank_spec(self) -> int {
        match self {
            Priority::Low => 0,
            Priority::Normal => 1,
            Priority::High => 2,
            Priority::Critical => 3,
        }
    }

    /// Numeric rank of the band, usable at run time.
    pub fn rank(&self) -> (r: u8)
        ensures
            r as int == self.rank_spec(),
    {
        match self {
            Priority::Low => 0,
            Priority::Normal => 1,
            Priority::High => 2,
            Priority::Critical => 3,
        }
    }
}

/// Status of a task in the queue.
#[derive(Debug, Clone)]
pub enum TaskStatus {
    Pending,
    Assigned(String),
    InProgress,
    Completed,
    Failed(String),
    Cancelled,
}

/// Ghost form of [`TaskStatus`].
pub enum TaskStatusView {
    Pending,
    Assigned(Seq<char>),
    InProgress,
    Completed,
    Failed(Seq<char>),
    Cancelled,
}

impl View for TaskStatus {
    type V = TaskStatusView;

    open spec fn view(&self) -> TaskStatusView {
        match self {
            TaskStatus::Pending => TaskStatusView::Pending,
            TaskStatus::Assigned(id) => TaskStatusView::Assigned(id@),
            TaskStatus::InProgress => TaskStatusView::InProgress,
            TaskStatus::Completed => TaskStatusView::Completed,
            TaskStatus::Failed(reason) => TaskStatusView::Failed(reason@),
            TaskStatus::Cancelled => TaskStatusView::Cancelled,
        }
    }
}

impl DeepView for TaskStatus {
    type V = TaskStatusView;

    open spec fn deep_view(&self) -> TaskStatusView {
        self.view()
    }
}

impl TaskStatus {
    /// Value-preserving copy.
    pub fn duplicate(&self) -> (r: TaskStatus)
        ensures
            r@ == self@,
    {
        match self {
            TaskStatus::Pending => TaskStatus::Pending,
            TaskStatus::Assigned(id) => TaskStatus::Assigned(id.clone()),
            TaskStatus::InProgress => TaskStatus::InProgress,
            TaskStatus::Completed => TaskStatus::Completed,
            TaskStatus::Failed(reason) => TaskStatus::Failed(reason.clone()),
            TaskStatus::Cancelled => TaskStatus::Cancelled,
        }
    }
}

/// Momentary condition of an agent, as reported to the registry.
#[derive(Debug, Clone, Copy, PartialEq, Eq, Structural)]
pub enum AgentStatus {
    Active,
    Busy,
    Idle,
    Offline,
    Failed,
}

/// Visibility of a shared-memory entry.
#[derive(Debug, Clone, Copy, PartialEq, Eq, Structural)]
pub enum AccessLevel {
    Public,
    Private,
    Shared,
}

/// Whether the runtime hosts a single worker or a cooperating set.
#[derive(Debug, Clone, Copy, PartialEq, Eq, Structural)]
pub enum RuntimeMode {
    SingleAgent,
    MultiAgent,
}

} // verus!

