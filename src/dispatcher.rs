use crate::objects::{
    DeletedWorkload, ExecutionState, InstanceNameView, WorkloadSpec, WorkloadState,
    WorkloadStateView,
};
use crate::parameter_storage::ParameterStorage;
use crate::pending_entry::PendingEntryView;
use crate::scheduler::{drain_pass, enqueue_filtered, Pass, WorkloadScheduler};
use crate::workload_operation::{
    deleted_view, operations_for, ops_view, specs_view, workload_operations_from,
    WorkloadOperation,
};
use vstd::prelude::*;

verus! {

/// A change of the desired state of this agent's workloads.
#[derive(Debug, PartialEq, Eq)]
pub struct UpdateWorkload {
    pub added_workloads: Vec<WorkloadSpec>,
    pub deleted_workloads: Vec<DeletedWorkload>,
}

/// Observed states of workloads.
#[derive(Debug, PartialEq, Eq)]
pub struct UpdateWorkloadState {
    pub workload_states: Vec<WorkloadState>,
}

/// A response to a request of a workload, passed through to that workload.
#[derive(Debug, PartialEq, Eq)]
pub struct Response {
    pub request_id: String,
    pub content: String,
}

/// A message from the server.
#[derive(Debug, PartialEq, Eq)]
pub enum FromServer {
    UpdateWorkload(UpdateWorkload),
    UpdateWorkloadState(UpdateWorkloadState),
    Response(Response),
    Stop,
}

/// A message to the server.
#[derive(Debug, PartialEq, Eq)]
pub enum ToServer {
    UpdateWorkloadState(UpdateWorkloadState),
    /// The agent leaves.
    Goodbye,
}

pub open spec fn states_view(states: Seq<WorkloadState>) -> Seq<WorkloadStateView> {
    states.map_values(|s: WorkloadState| s@)
}

pub open spec fn messages_view(messages: Seq<UpdateWorkloadState>) -> Seq<Seq<WorkloadStateView>> {
    messages.map_values(|m: UpdateWorkloadState| states_view(m.workload_states@))
}

/// One message to the server for each report.
pub open spec fn report_messages(reports: Seq<WorkloadStateView>) -> Seq<Seq<WorkloadStateView>> {
    reports.map_values(|s: WorkloadStateView| seq![s])
}

/// Records the observed states one after the other, and after each one
/// runs a pass of the scheduler. Yields the final observed states and the
/// queue, reports and ready operations of all passes.
pub open spec fn observe_states(
    storage: Map<InstanceNameView, ExecutionState>,
    q: Seq<PendingEntryView>,
    states: Seq<WorkloadStateView>,
) -> (Map<InstanceNameView, ExecutionState>, Pass)
    decreases states.len(),
{
    if states.len() == 0 {
        (storage, Pass { queue: q, reports: Seq::empty(), ready: Seq::empty() })
    } else {
        let (st, p) = observe_states(storage, q, states.drop_last());
        let s = states.last();
        let st2 = st.insert(s.instance_name, s.execution_state);
        let d = drain_pass(p.queue, st2);
        (st2, Pass { queue: d.queue, reports: p.reports + d.reports, ready: p.ready + d.ready })
    }
}

/// What the caller has to carry out after a message was handled, in this
/// order: send `to_server`, pass `response` on, execute `ready_operations`;
/// then go on receiving unless `keep_running` is false.
pub struct DispatchOutcome {
    pub to_server: Vec<UpdateWorkloadState>,
    pub response: Option<Response>,
    pub ready_operations: Vec<WorkloadOperation>,
    pub keep_running: bool,
}

pub struct DispatcherView {
    pub storage: Map<InstanceNameView, ExecutionState>,
    pub queue: Seq<PendingEntryView>,
}

/// The decisions of the agent's message loop: it owns the observed states
/// and the scheduler.
pub struct Dispatcher {
    storage: ParameterStorage,
    scheduler: WorkloadScheduler,
}

impl View for Dispatcher {
    type V = DispatcherView;

    closed spec fn view(&self) -> DispatcherView {
        DispatcherView { storage: self.storage@, queue: self.scheduler@.queue }
    }
}

fn to_messages(reports: Vec<WorkloadState>) -> (r: Vec<UpdateWorkloadState>)
    ensures
        messages_view(r@) == report_messages(states_view(reports@)),
{
    let ghost want = report_messages(states_view(reports@));
    let mut r: Vec<UpdateWorkloadState> = Vec::new();
    for state in it: reports
        invariant
            want.len() == it.seq().len(),
            forall|j: int| 0 <= j < want.len() ==> #[trigger] want[j] == seq![it.seq()[j]@],
            messages_view(r@) == want.take(it.index() as int),
    {
        let ghost k = it.index() as int;
        let ghost sv = state@;
        let ghost before = messages_view(r@);
        let mut workload_states: Vec<WorkloadState> = Vec::new();
        workload_states.push(state);
        assert(states_view(workload_states@) =~= seq![sv]);
        r.push(UpdateWorkloadState { workload_states });
        assert(messages_view(r@) =~= before.push(seq![sv]));
        assert(want.take(k + 1) =~= want.take(k).push(want[k]));
    }
    assert(want.take(want.len() as int) =~= want);
    r
}

impl Dispatcher {
    /// The observed states are well formed, the queue has one entry per
    /// workload name, and every report has been handed out.
    pub closed spec fn wf(&self) -> bool {
        &&& self.storage.wf()
        &&& self.scheduler.wf()
        &&& self.scheduler@.reports.len() == 0
    }

    pub fn new() -> (r: Self)
        ensures
            r.wf(),
            r@.storage == Map::<InstanceNameView, ExecutionState>::empty(),
            r@.queue == Seq::<PendingEntryView>::empty(),
    {
        Dispatcher { storage: ParameterStorage::new(), scheduler: WorkloadScheduler::new() }
    }

    /// The latest observed state of each workload instance.
    pub fn storage(&self) -> (r: &ParameterStorage)
        requires
            self.wf(),
        ensures
            r.wf(),
            r@ == self@.storage,
    {
        &self.storage
    }

    /// The scheduler, with its queue.
    pub fn scheduler(&self) -> (r: &WorkloadScheduler)
        requires
            self.wf(),
        ensures
            r.wf(),
            r@.queue == self@.queue,
            r@.reports.len() == 0,
    {
        &self.scheduler
    }

    fn observe(&mut self, workload_states: &Vec<WorkloadState>) -> (r: (
        Vec<WorkloadState>,
        Vec<WorkloadOperation>,
    ))
        requires
            old(self).wf(),
        ensures
            final(self).wf(),
            final(self)@.storage == observe_states(
                old(self)@.storage,
                old(self)@.queue,
                states_view(workload_states@),
            ).0,
            final(self)@.queue == observe_states(
                old(self)@.storage,
                old(self)@.queue,
                states_view(workload_states@),
            ).1.queue,
            states_view(r.0@) == observe_states(
                old(self)@.storage,
                old(self)@.queue,
                states_view(workload_states@),
            ).1.reports,
            ops_view(r.1@) == observe_states(
                old(self)@.storage,
                old(self)@.queue,
                states_view(workload_states@),
            ).1.ready,
    {
        let ghost sv = states_view(workload_states@);
        let ghost st0 = old(self)@.storage;
        let ghost q0 = old(self)@.queue;
        let mut reports: Vec<WorkloadState> = Vec::new();
        let mut ready: Vec<WorkloadOperation> = Vec::new();
        proof {
            assert(sv.take(0) =~= Seq::<WorkloadStateView>::empty());
            assert(states_view(reports@) =~= Seq::<WorkloadStateView>::empty());
            assert(ops_view(ready@) =~= Seq::<crate::workload_operation::OperationView>::empty());
        }
        for i in 0..workload_states.len()
            invariant
                sv == states_view(workload_states@),
                self.wf(),
                self@.storage == observe_states(st0, q0, sv.take(i as int)).0,
                self@.queue == observe_states(st0, q0, sv.take(i as int)).1.queue,
                states_view(reports@) == observe_states(st0, q0, sv.take(i as int)).1.reports,
                ops_view(ready@) == observe_states(st0, q0, sv.take(i as int)).1.ready,
        {
            proof {
                assert(sv.take(i + 1).drop_last() =~= sv.take(i as int));
                assert(sv.take(i + 1).last() == workload_states@[i as int]@);
            }
            let state = &workload_states[i];
            self.storage.set(state.instance_name.clone(), state.execution_state);
            let ghost ready_before = ops_view(ready@);
            let mut now_ready = self.scheduler.next_workload_operations(&self.storage);
            let ghost now_ready_v = ops_view(now_ready@);
            ready.append(&mut now_ready);
            assert(ops_view(ready@) =~= ready_before + now_ready_v);
            let ghost reports_before = states_view(reports@);
            let mut new_reports = self.scheduler.take_reports();
            let ghost new_reports_v = states_view(new_reports@);
            reports.append(&mut new_reports);
            assert(states_view(reports@) =~= reports_before + new_reports_v);
            assert(self.scheduler@.reports.len() == 0);
        }
        assert(sv.take(workload_states.len() as int) =~= sv);
        (reports, ready)
    }

    /// Handles a message from the server. A change of the desired state goes
    /// through the scheduler; observed states are recorded one by one, each
    /// followed by a pass of the scheduler; a response is passed on; `Stop`
    /// ends the loop. Every pending-state report becomes a message of its own.
    pub fn execute_from_server_command(&mut self, from_server_msg: FromServer) -> (r: DispatchOutcome)
        requires
            old(self).wf(),
        ensures
            final(self).wf(),
            r.keep_running == !(from_server_msg is Stop),
            from_server_msg matches FromServer::UpdateWorkload(m) ==> {
                let p = enqueue_filtered(
                    old(self)@.queue,
                    operations_for(
                        specs_view(m.added_workloads@),
                        deleted_view(m.deleted_workloads@),
                    ),
                    old(self)@.storage,
                );
                &&& final(self)@.storage == old(self)@.storage
                &&& final(self)@.queue == p.queue
                &&& messages_view(r.to_server@) == report_messages(p.reports)
                &&& ops_view(r.ready_operations@) == p.ready
                &&& r.response is None
            },
            from_server_msg matches FromServer::UpdateWorkloadState(m) ==> {
                let (st, p) = observe_states(
                    old(self)@.storage,
                    old(self)@.queue,
                    states_view(m.workload_states@),
                );
                &&& final(self)@.storage == st
                &&& final(self)@.queue == p.queue
                &&& messages_view(r.to_server@) == report_messages(p.reports)
                &&& ops_view(r.ready_operations@) == p.ready
                &&& r.response is None
            },
            from_server_msg matches FromServer::Response(m) ==> {
                &&& final(self)@ == old(self)@
                &&& r.to_server@.len() == 0
                &&& r.ready_operations@.len() == 0
                &&& r.response == Some(m)
            },
            from_server_msg is Stop ==> {
                &&& final(self)@ == old(self)@
                &&& r.to_server@.len() == 0
                &&& r.ready_operations@.len() == 0
                &&& r.response is None
            },
    {
        match from_server_msg {
            FromServer::UpdateWorkload(method_obj) => {
                let operations = workload_operations_from(
                    &method_obj.added_workloads,
                    &method_obj.deleted_workloads,
                );
                let ready_operations = self.scheduler.enqueue_filtered_workload_operations(
                    operations,
                    &self.storage,
                );
                let reports = self.scheduler.take_reports();
                DispatchOutcome {
                    to_server: to_messages(reports),
                    response: None,
                    ready_operations,
                    keep_running: true,
                }
            },
            FromServer::UpdateWorkloadState(method_obj) => {
                let (reports, ready_operations) = self.observe(&method_obj.workload_states);
                DispatchOutcome {
                    to_server: to_messages(reports),
                    response: None,
                    ready_operations,
                    keep_running: true,
                }
            },
            FromServer::Response(method_obj) => DispatchOutcome {
                to_server: Vec::new(),
                response: Some(method_obj),
                ready_operations: Vec::new(),
                keep_running: true,
            },
            FromServer::Stop => DispatchOutcome {
                to_server: Vec::new(),
                response: None,
                ready_operations: Vec::new(),
                keep_running: false,
            },
        }
    }

    /// Handles states that this agent observed itself: they are recorded one
    /// by one, each followed by a pass of the scheduler, and then forwarded
    /// to the server as one message, after the pending-state reports, unless
    /// there are none.
    pub fn store_and_forward_own_workload_states(&mut self, workload_states: Vec<WorkloadState>) -> (r: DispatchOutcome)
        requires
            old(self).wf(),
        ensures
            final(self).wf(),
            ({
                let (st, p) = observe_states(
                    old(self)@.storage,
                    old(self)@.queue,
                    states_view(workload_states@),
                );
                &&& final(self)@.storage == st
                &&& final(self)@.queue == p.queue
                &&& messages_view(r.to_server@) == if workload_states@.len() == 0 {
                    report_messages(p.reports)
                } else {
                    report_messages(p.reports).push(states_view(workload_states@))
                }
                &&& ops_view(r.ready_operations@) == p.ready
            }),
            r.response is None,
            r.keep_running,
    {
        let (reports, ready_operations) = self.observe(&workload_states);
        let mut to_server = to_messages(reports);
        if workload_states.len() > 0 {
            let ghost before = messages_view(to_server@);
            let ghost sv = states_view(workload_states@);
            to_server.push(UpdateWorkloadState { workload_states });
            assert(messages_view(to_server@) =~= before.push(sv));
        }
        DispatchOutcome { to_server, response: None, ready_operations, keep_running: true }
    }
}

} // verus!
