use vstd::prelude::*;

verus! {

/// The observed lifecycle state of one workload instance.
#[derive(Debug, Clone, Copy, PartialEq, Eq, Structural)]
pub enum ExecutionState {
    Pending,
    WaitingToStart,
    Running,
    Succeeded,
    Failed,
    Stopping,
    WaitingToStop,
    Removed,
}

/// What an upstream workload must have reached before a dependent one is created.
#[derive(Debug, Clone, Copy, PartialEq, Eq, Structural)]
pub enum AddCondition {
    Running,
    Succeeded,
    Failed,
}

/// What a downstream workload must have reached before a workload it depends on is deleted.
#[derive(Debug, Clone, Copy, PartialEq, Eq, Structural)]
pub enum DeleteCondition {
    /// The downstream workload is running.
    Running,
    /// The downstream workload is stopped: neither pending nor running.
    NotPendingNorRunning,
}

pub open spec fn is_pending_state(s: ExecutionState) -> bool {
    s == ExecutionState::Pending || s == ExecutionState::WaitingToStart
}

pub open spec fn add_condition_met(c: AddCondition, s: ExecutionState) -> bool {
    match c {
        AddCondition::Running => s == ExecutionState::Running,
        AddCondition::Succeeded => s == ExecutionState::Succeeded,
        AddCondition::Failed => s == ExecutionState::Failed,
    }
}

pub open spec fn delete_condition_met(c: DeleteCondition, s: ExecutionState) -> bool {
    match c {
        DeleteCondition::Running => s == ExecutionState::Running,
        DeleteCondition::NotPendingNorRunning => !is_pending_state(s) && s
            != ExecutionState::Running,
    }
}

impl AddCondition {
    pub fn fulfilled_by(&self, state: ExecutionState) -> (r: bool)
        ensures
            r == add_condition_met(*self, state),
    {
        match self {
            AddCondition::Running => matches!(state, ExecutionState::Running),
            AddCondition::Succeeded => matches!(state, ExecutionState::Succeeded),
            AddCondition::Failed => matches!(state, ExecutionState::Failed),
        }
    }
}

impl DeleteCondition {
    pub fn fulfilled_by(&self, state: ExecutionState) -> (r: bool)
        ensures
            r == delete_condition_met(*self, state),
    {
        match self {
            DeleteCondition::Running => matches!(state, ExecutionState::Running),
            DeleteCondition::NotPendingNorRunning => !matches!(
                state,
                ExecutionState::Pending | ExecutionState::WaitingToStart | ExecutionState::Running
            ),
        }
    }
}

/// The identity of one incarnation of a workload on one agent.
#[derive(Debug, PartialEq, Eq)]
pub struct WorkloadInstanceName {
    pub workload_name: String,
    pub agent_name: String,
    /// Content hash of the workload's configuration.
    pub id: String,
}

pub struct InstanceNameView {
    pub workload_name: Seq<char>,
    pub agent_name: Seq<char>,
    pub id: Seq<char>,
}

impl View for WorkloadInstanceName {
    type V = InstanceNameView;

    open spec fn view(&self) -> InstanceNameView {
        InstanceNameView {
            workload_name: self.workload_name@,
            agent_name: self.agent_name@,
            id: self.id@,
        }
    }
}

impl Clone for WorkloadInstanceName {
    fn clone(&self) -> (r: Self)
        ensures
            r == *self,
    {
        WorkloadInstanceName {
            workload_name: self.workload_name.clone(),
            agent_name: self.agent_name.clone(),
            id: self.id.clone(),
        }
    }
}

impl WorkloadInstanceName {
    pub fn new(workload_name: String, agent_name: String, id: String) -> (r: Self)
        ensures
            r.workload_name == workload_name,
            r.agent_name == agent_name,
            r.id == id,
    {
        WorkloadInstanceName { workload_name, agent_name, id }
    }

    /// Whether both names denote the same workload instance.
    pub fn same_instance(&self, other: &WorkloadInstanceName) -> (r: bool)
        ensures
            r == (self@ == other@),
    {
        self.workload_name == other.workload_name && self.agent_name == other.agent_name
            && self.id == other.id
    }

    pub fn workload_name(&self) -> (r: &String)
        ensures
            r == self.workload_name,
    {
        &self.workload_name
    }

    pub fn agent_name(&self) -> (r: &String)
        ensures
            r == self.agent_name,
    {
        &self.agent_name
    }
}

/// One entry of a workload's create dependencies: the upstream workload and
/// the state it has to reach.
#[derive(Debug, PartialEq, Eq)]
pub struct AddDependency {
    pub workload_name: String,
    pub condition: AddCondition,
}

impl Clone for AddDependency {
    fn clone(&self) -> (r: Self)
        ensures
            r == *self,
    {
        AddDependency { workload_name: self.workload_name.clone(), condition: self.condition }
    }
}

/// One entry of a workload's delete dependencies: the downstream workload and
/// the state it has to reach.
#[derive(Debug, PartialEq, Eq)]
pub struct DeleteDependency {
    pub workload_name: String,
    pub condition: DeleteCondition,
}

impl Clone for DeleteDependency {
    fn clone(&self) -> (r: Self)
        ensures
            r == *self,
    {
        DeleteDependency { workload_name: self.workload_name.clone(), condition: self.condition }
    }
}

/// The desired state of a workload.
#[derive(Debug, PartialEq, Eq)]
pub struct WorkloadSpec {
    pub instance_name: WorkloadInstanceName,
    pub runtime: String,
    pub dependencies: Vec<AddDependency>,
    pub runtime_config: String,
}

pub struct WorkloadSpecView {
    pub instance_name: InstanceNameView,
    pub runtime: Seq<char>,
    pub dependencies: Seq<(Seq<char>, AddCondition)>,
    pub runtime_config: Seq<char>,
}

pub open spec fn add_dependencies_view(deps: Seq<AddDependency>) -> Seq<(Seq<char>, AddCondition)> {
    deps.map_values(|d: AddDependency| (d.workload_name@, d.condition))
}

pub open spec fn delete_dependencies_view(deps: Seq<DeleteDependency>) -> Seq<
    (Seq<char>, DeleteCondition),
> {
    deps.map_values(|d: DeleteDependency| (d.workload_name@, d.condition))
}

impl View for WorkloadSpec {
    type V = WorkloadSpecView;

    open spec fn view(&self) -> WorkloadSpecView {
        WorkloadSpecView {
            instance_name: self.instance_name@,
            runtime: self.runtime@,
            dependencies: add_dependencies_view(self.dependencies@),
            runtime_config: self.runtime_config@,
        }
    }
}

impl Clone for WorkloadSpec {
    fn clone(&self) -> (r: Self)
        ensures
            r@ == self@,
    {
        let dependencies = self.dependencies.clone();
        assert(dependencies@ =~= self.dependencies@);
        WorkloadSpec {
            instance_name: self.instance_name.clone(),
            runtime: self.runtime.clone(),
            dependencies,
            runtime_config: self.runtime_config.clone(),
        }
    }
}

/// A workload that is to be removed, with the conditions its removal waits for.
#[derive(Debug, PartialEq, Eq)]
pub struct DeletedWorkload {
    pub instance_name: WorkloadInstanceName,
    pub dependencies: Vec<DeleteDependency>,
}

pub struct DeletedWorkloadView {
    pub instance_name: InstanceNameView,
    pub dependencies: Seq<(Seq<char>, DeleteCondition)>,
}

impl View for DeletedWorkload {
    type V = DeletedWorkloadView;

    open spec fn view(&self) -> DeletedWorkloadView {
        DeletedWorkloadView {
            instance_name: self.instance_name@,
            dependencies: delete_dependencies_view(self.dependencies@),
        }
    }
}

impl Clone for DeletedWorkload {
    fn clone(&self) -> (r: Self)
        ensures
            r@ == self@,
    {
        let dependencies = self.dependencies.clone();
        assert(dependencies@ =~= self.dependencies@);
        DeletedWorkload { instance_name: self.instance_name.clone(), dependencies }
    }
}

/// An observed state of a workload instance.
#[derive(Debug, PartialEq, Eq)]
pub struct WorkloadState {
    pub instance_name: WorkloadInstanceName,
    pub execution_state: ExecutionState,
}

pub struct WorkloadStateView {
    pub instance_name: InstanceNameView,
    pub execution_state: ExecutionState,
}

impl View for WorkloadState {
    type V = WorkloadStateView;

    open spec fn view(&self) -> WorkloadStateView {
        WorkloadStateView {
            instance_name: self.instance_name@,
            execution_state: self.execution_state,
        }
    }
}

impl Clone for WorkloadState {
    fn clone(&self) -> (r: Self)
        ensures
            r == *self,
    {
        WorkloadState {
            instance_name: self.instance_name.clone(),
            execution_state: self.execution_state,
        }
    }
}

} // verus!
