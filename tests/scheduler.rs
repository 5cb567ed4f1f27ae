use agent::objects::{
    AddCondition, AddDependency, DeleteCondition, DeleteDependency, DeletedWorkload,
    ExecutionState, WorkloadInstanceName, WorkloadSpec, WorkloadState,
};
use agent::parameter_storage::ParameterStorage;
use agent::pending_entry::{PendingEntry, QueueState};
use agent::scheduler::WorkloadScheduler;
use agent::workload_operation::WorkloadOperation;

const AGENT_A: &str = "agent_A";
const WORKLOAD_NAME_1: &str = "workload_1";
const RUNTIME: &str = "runtime";
const UPSTREAM: &str = "upstream";
const DOWNSTREAM: &str = "downstream";

fn instance(workload_name: &str, agent_name: &str, id: &str) -> WorkloadInstanceName {
    WorkloadInstanceName::new(workload_name.to_string(), agent_name.to_string(), id.to_string())
}

fn spec(workload_name: &str, deps: Vec<(&str, AddCondition)>) -> WorkloadSpec {
    WorkloadSpec {
        instance_name: instance(workload_name, AGENT_A, "new_hash"),
        runtime: RUNTIME.to_string(),
        dependencies: deps
            .into_iter()
            .map(|(name, condition)| AddDependency { workload_name: name.to_string(), condition })
            .collect(),
        runtime_config: "image: alpine".to_string(),
    }
}

fn deleted(workload_name: &str, deps: Vec<(&str, DeleteCondition)>) -> DeletedWorkload {
    DeletedWorkload {
        instance_name: instance(workload_name, AGENT_A, "old_hash"),
        dependencies: deps
            .into_iter()
            .map(|(name, condition)| DeleteDependency { workload_name: name.to_string(), condition })
            .collect(),
    }
}

/// A workload spec that waits for the upstream workload to run.
fn gated_spec() -> WorkloadSpec {
    spec(WORKLOAD_NAME_1, vec![(UPSTREAM, AddCondition::Running)])
}

/// A deleted workload that waits for the downstream workload to stop.
fn gated_deleted() -> DeletedWorkload {
    deleted(WORKLOAD_NAME_1, vec![(DOWNSTREAM, DeleteCondition::NotPendingNorRunning)])
}

fn storage(create_ok: bool, delete_ok: bool) -> ParameterStorage {
    let mut s = ParameterStorage::new();
    if create_ok {
        s.set(instance(UPSTREAM, AGENT_A, "u"), ExecutionState::Running);
    }
    if delete_ok {
        s.set(instance(DOWNSTREAM, AGENT_A, "d"), ExecutionState::Removed);
    }
    s
}

fn state(instance_name: &WorkloadInstanceName, execution_state: ExecutionState) -> WorkloadState {
    WorkloadState { instance_name: instance_name.clone(), execution_state }
}

fn key() -> String {
    WORKLOAD_NAME_1.to_string()
}

#[test]
fn utest_enqueue_and_report_workload_state_for_pending_create() {
    let mut workload_scheduler = WorkloadScheduler::new();
    let pending_workload = gated_spec();
    let ready = workload_scheduler.enqueue_filtered_workload_operations(
        vec![WorkloadOperation::Create(pending_workload.clone())],
        &storage(false, false),
    );
    // a plain create is not reported as pending
    assert!(workload_scheduler.take_reports().is_empty());
    assert!(workload_scheduler.contains_key(pending_workload.instance_name.workload_name()));
    assert!(ready.is_empty());
}

#[test]
fn utest_no_enqueue_and_report_for_ready_create() {
    let mut workload_scheduler = WorkloadScheduler::new();
    let ready_workload = gated_spec();
    let ready = workload_scheduler.enqueue_filtered_workload_operations(
        vec![WorkloadOperation::Create(ready_workload.clone())],
        &storage(true, false),
    );
    assert_eq!(vec![WorkloadOperation::Create(ready_workload)], ready);
    assert!(workload_scheduler.is_empty());
    assert!(workload_scheduler.take_reports().is_empty());
}

#[test]
fn utest_enqueue_and_report_workload_state_for_pending_delete() {
    let mut workload_scheduler = WorkloadScheduler::new();
    let pending_deleted_workload = gated_deleted();
    let ready = workload_scheduler.enqueue_filtered_workload_operations(
        vec![WorkloadOperation::Delete(pending_deleted_workload.clone())],
        &storage(false, false),
    );
    assert!(ready.is_empty());
    assert_eq!(
        Some(&PendingEntry::Delete(pending_deleted_workload.clone())),
        workload_scheduler.get(pending_deleted_workload.instance_name.workload_name())
    );
    assert_eq!(
        vec![state(&pending_deleted_workload.instance_name, ExecutionState::WaitingToStop)],
        workload_scheduler.take_reports()
    );
}

#[test]
fn utest_no_enqueue_and_report_workload_state_for_ready_delete() {
    let mut workload_scheduler = WorkloadScheduler::new();
    let ready_deleted_workload = gated_deleted();
    let ready = workload_scheduler.enqueue_filtered_workload_operations(
        vec![WorkloadOperation::Delete(ready_deleted_workload.clone())],
        &storage(false, true),
    );
    assert_eq!(vec![WorkloadOperation::Delete(ready_deleted_workload.clone())], ready);
    assert!(workload_scheduler.is_empty());
    // a delete is reported as waiting to stop when it is taken in
    assert_eq!(
        vec![state(&ready_deleted_workload.instance_name, ExecutionState::WaitingToStop)],
        workload_scheduler.take_reports()
    );
}

#[test]
fn utest_enqueue_and_report_workload_state_for_pending_update_delete_at_most_once() {
    let mut workload_scheduler = WorkloadScheduler::new();
    let ready_new_workload = gated_spec();
    let pending_deleted_workload = gated_deleted();
    let ready = workload_scheduler.enqueue_filtered_workload_operations(
        vec![WorkloadOperation::Update(ready_new_workload.clone(), pending_deleted_workload.clone())],
        &storage(true, false),
    );
    assert!(ready.is_empty());
    assert_eq!(
        Some(&PendingEntry::UpdateDelete(ready_new_workload, pending_deleted_workload.clone())),
        workload_scheduler.get(pending_deleted_workload.instance_name.workload_name())
    );
    assert_eq!(
        vec![state(&pending_deleted_workload.instance_name, ExecutionState::WaitingToStop)],
        workload_scheduler.take_reports()
    );
}

#[test]
fn utest_enqueue_and_report_workload_state_for_pending_update_at_most_once() {
    let mut workload_scheduler = WorkloadScheduler::new();
    let ready_new_workload = gated_spec();
    let pending_deleted_workload = gated_deleted();
    let ready = workload_scheduler.enqueue_filtered_workload_operations(
        vec![WorkloadOperation::Update(ready_new_workload.clone(), pending_deleted_workload.clone())],
        &storage(false, false),
    );
    assert!(ready.is_empty());
    assert_eq!(
        Some(&PendingEntry::UpdateDelete(ready_new_workload, pending_deleted_workload.clone())),
        workload_scheduler.get(pending_deleted_workload.instance_name.workload_name())
    );
    assert_eq!(
        vec![state(&pending_deleted_workload.instance_name, ExecutionState::WaitingToStop)],
        workload_scheduler.take_reports()
    );
}

#[test]
fn utest_enqueue_and_report_workload_state_for_pending_update_create_at_most_once() {
    let mut workload_scheduler = WorkloadScheduler::new();
    let pending_new_workload = gated_spec();
    let ready_deleted_workload = gated_deleted();
    workload_scheduler.enqueue_filtered_workload_operations(
        vec![WorkloadOperation::Update(pending_new_workload.clone(), ready_deleted_workload.clone())],
        &storage(false, true),
    );
    assert_eq!(
        Some(&PendingEntry::UpdateCreate(pending_new_workload.clone(), ready_deleted_workload)),
        workload_scheduler.get(pending_new_workload.instance_name.workload_name())
    );
    assert_eq!(
        vec![state(&pending_new_workload.instance_name, ExecutionState::WaitingToStart)],
        workload_scheduler.take_reports()
    );
}

#[test]
fn utest_immediate_delete_for_pending_update_create_at_most_once() {
    let mut workload_scheduler = WorkloadScheduler::new();
    let pending_new_workload = gated_spec();
    let ready_deleted_workload = gated_deleted();
    let ready = workload_scheduler.enqueue_filtered_workload_operations(
        vec![WorkloadOperation::Update(pending_new_workload, ready_deleted_workload.clone())],
        &storage(false, true),
    );
    assert_eq!(vec![WorkloadOperation::UpdateDeleteOnly(ready_deleted_workload)], ready);
}

#[test]
fn utest_no_enqueue_and_report_pending_state_on_fulfilled_update_at_most_once() {
    let mut workload_scheduler = WorkloadScheduler::new();
    let ready_new_workload = gated_spec();
    let ready_deleted_workload = gated_deleted();
    let ready = workload_scheduler.enqueue_filtered_workload_operations(
        vec![WorkloadOperation::Update(ready_new_workload.clone(), ready_deleted_workload.clone())],
        &storage(true, true),
    );
    assert_eq!(vec![WorkloadOperation::Update(ready_new_workload, ready_deleted_workload)], ready);
    assert!(workload_scheduler.is_empty());
    assert!(workload_scheduler.take_reports().is_empty());
}

#[test]
fn utest_enqueue_filtered_workload_operations_get_next_ready_workload_operations() {
    let mut workload_scheduler = WorkloadScheduler::new();
    let ready_new_workload = gated_spec();
    let ready_deleted_workload = gated_deleted();
    workload_scheduler.insert(PendingEntry::UpdateCreate(
        ready_new_workload.clone(),
        ready_deleted_workload.clone(),
    ));
    let ready = workload_scheduler.enqueue_filtered_workload_operations(vec![], &storage(true, false));
    assert_eq!(vec![WorkloadOperation::Update(ready_new_workload, ready_deleted_workload)], ready);
    assert!(workload_scheduler.is_empty());
}

#[test]
fn utest_enqueue_filtered_workload_operations_ignore_update_delete_only_workload_operations() {
    let mut workload_scheduler = WorkloadScheduler::new();
    let ready_deleted_workload = gated_deleted();
    let ready = workload_scheduler.enqueue_filtered_workload_operations(
        vec![WorkloadOperation::UpdateDeleteOnly(ready_deleted_workload)],
        &storage(true, true),
    );
    assert!(ready.is_empty());
    assert!(workload_scheduler.is_empty());
    assert!(workload_scheduler.take_reports().is_empty());
}

#[test]
fn utest_next_workload_operations_enqueue_pending_update_create_on_delete_fulfilled_update() {
    let mut workload_scheduler = WorkloadScheduler::new();
    let new_workload_spec = gated_spec();
    let ready_deleted_workload = gated_deleted();
    workload_scheduler.insert(PendingEntry::UpdateDelete(
        new_workload_spec.clone(),
        ready_deleted_workload.clone(),
    ));
    let ready = workload_scheduler.next_workload_operations(&storage(false, true));
    assert_eq!(vec![WorkloadOperation::UpdateDeleteOnly(ready_deleted_workload.clone())], ready);
    assert_eq!(
        Some(&PendingEntry::UpdateCreate(new_workload_spec, ready_deleted_workload)),
        workload_scheduler.get(&key())
    );
}

#[test]
fn utest_next_workload_operations_report_pending_create_on_delete_fulfilled_update() {
    let mut workload_scheduler = WorkloadScheduler::new();
    let new_workload_spec = gated_spec();
    let instance_name_new_workload = new_workload_spec.instance_name.clone();
    workload_scheduler.insert(PendingEntry::UpdateDelete(new_workload_spec, gated_deleted()));
    workload_scheduler.next_workload_operations(&storage(false, true));
    assert_eq!(
        vec![state(&instance_name_new_workload, ExecutionState::WaitingToStart)],
        workload_scheduler.take_reports()
    );
}

#[test]
fn utest_next_workload_operations_keep_pending_delete_in_queue() {
    let mut workload_scheduler = WorkloadScheduler::new();
    let pending_deleted_workload = gated_deleted();
    let instance_name_deleted_workload = pending_deleted_workload.instance_name.clone();
    workload_scheduler.insert(PendingEntry::Delete(pending_deleted_workload));
    let ready = workload_scheduler.next_workload_operations(&storage(false, false));
    assert!(ready.is_empty());
    assert!(workload_scheduler.contains_key(instance_name_deleted_workload.workload_name()));
}

#[test]
fn utest_next_workload_operations_no_report_pending_delete_on_reenqueue() {
    let mut workload_scheduler = WorkloadScheduler::new();
    workload_scheduler.insert(PendingEntry::Delete(gated_deleted()));
    workload_scheduler.next_workload_operations(&storage(false, false));
    assert!(workload_scheduler.take_reports().is_empty());
}

#[test]
fn utest_next_workload_operations_keep_pending_create_in_queue() {
    let mut workload_scheduler = WorkloadScheduler::new();
    let pending_workload_spec = gated_spec();
    let instance_name_create_workload = pending_workload_spec.instance_name.clone();
    workload_scheduler.insert(PendingEntry::Create(pending_workload_spec));
    let ready = workload_scheduler.next_workload_operations(&storage(false, false));
    assert!(ready.is_empty());
    assert!(workload_scheduler.contains_key(instance_name_create_workload.workload_name()));
}

#[test]
fn utest_next_workload_operations_no_report_pending_create_on_reenqueue() {
    let mut workload_scheduler = WorkloadScheduler::new();
    workload_scheduler.insert(PendingEntry::Create(gated_spec()));
    workload_scheduler.next_workload_operations(&storage(false, false));
    assert!(workload_scheduler.take_reports().is_empty());
}

#[test]
fn utest_next_workload_operations_keep_pending_update_in_queue() {
    let mut workload_scheduler = WorkloadScheduler::new();
    let ready_workload_spec = gated_spec();
    let instance_name = ready_workload_spec.instance_name.clone();
    workload_scheduler.insert(PendingEntry::UpdateDelete(ready_workload_spec, gated_deleted()));
    let ready = workload_scheduler.next_workload_operations(&storage(true, false));
    assert!(ready.is_empty());
    assert!(workload_scheduler.contains_key(instance_name.workload_name()));
}

#[test]
fn utest_next_workload_operations_no_report_pending_delete_on_pending_update_reenqueue() {
    let mut workload_scheduler = WorkloadScheduler::new();
    workload_scheduler.insert(PendingEntry::UpdateDelete(gated_spec(), gated_deleted()));
    workload_scheduler.next_workload_operations(&storage(true, false));
    assert!(workload_scheduler.take_reports().is_empty());
}

#[test]
fn utest_next_workload_operations_remove_ready_create_from_queue() {
    let mut workload_scheduler = WorkloadScheduler::new();
    let ready_workload_spec = gated_spec();
    workload_scheduler.insert(PendingEntry::Create(ready_workload_spec.clone()));
    let ready = workload_scheduler.next_workload_operations(&storage(true, false));
    assert_eq!(vec![WorkloadOperation::Create(ready_workload_spec)], ready);
    assert!(workload_scheduler.is_empty());
}

#[test]
fn utest_next_workload_operations_remove_ready_delete_from_queue() {
    let mut workload_scheduler = WorkloadScheduler::new();
    let ready_deleted_workload = gated_deleted();
    workload_scheduler.insert(PendingEntry::Delete(ready_deleted_workload.clone()));
    let ready = workload_scheduler.next_workload_operations(&storage(false, true));
    assert_eq!(vec![WorkloadOperation::Delete(ready_deleted_workload)], ready);
    assert!(workload_scheduler.is_empty());
}

#[test]
fn utest_next_workload_operations_remove_ready_update_create_at_most_once_from_queue() {
    let mut workload_scheduler = WorkloadScheduler::new();
    let ready_workload_spec = gated_spec();
    let ready_deleted_workload = gated_deleted();
    workload_scheduler.insert(PendingEntry::UpdateCreate(
        ready_workload_spec.clone(),
        ready_deleted_workload.clone(),
    ));
    let ready = workload_scheduler.next_workload_operations(&storage(true, true));
    assert_eq!(vec![WorkloadOperation::Update(ready_workload_spec, ready_deleted_workload)], ready);
    assert!(workload_scheduler.is_empty());
}

#[test]
fn utest_next_workload_operations_remove_ready_update_delete_at_most_once_from_queue() {
    let mut workload_scheduler = WorkloadScheduler::new();
    let ready_workload_spec = gated_spec();
    let ready_deleted_workload = gated_deleted();
    workload_scheduler.insert(PendingEntry::UpdateDelete(
        ready_workload_spec.clone(),
        ready_deleted_workload.clone(),
    ));
    let ready = workload_scheduler.next_workload_operations(&storage(true, true));
    assert_eq!(vec![WorkloadOperation::Update(ready_workload_spec, ready_deleted_workload)], ready);
    assert!(workload_scheduler.is_empty());
}

// Scenarios

#[test]
fn pending_create_is_not_reported_and_runs_once_upstream_runs() {
    let mut workload_scheduler = WorkloadScheduler::new();
    let w1 = spec("w1", vec![("u", AddCondition::Running)]);
    let mut observed = ParameterStorage::new();
    let ready = workload_scheduler
        .enqueue_filtered_workload_operations(vec![WorkloadOperation::Create(w1.clone())], &observed);
    assert!(ready.is_empty());
    assert!(workload_scheduler.take_reports().is_empty());

    observed.set(instance("u", AGENT_A, "u_hash"), ExecutionState::Running);
    let ready = workload_scheduler.next_workload_operations(&observed);
    assert_eq!(vec![WorkloadOperation::Create(w1)], ready);
    assert!(workload_scheduler.is_empty());
    assert!(workload_scheduler.take_reports().is_empty());
}

#[test]
fn pending_delete_reports_waiting_to_stop_once() {
    let mut workload_scheduler = WorkloadScheduler::new();
    let d1 = deleted("w1", vec![("d", DeleteCondition::NotPendingNorRunning)]);
    let observed = ParameterStorage::new();
    let ready = workload_scheduler
        .enqueue_filtered_workload_operations(vec![WorkloadOperation::Delete(d1.clone())], &observed);
    assert!(ready.is_empty());
    assert_eq!(
        vec![state(&d1.instance_name, ExecutionState::WaitingToStop)],
        workload_scheduler.take_reports()
    );
    assert_eq!(Some(&PendingEntry::Delete(d1.clone())), workload_scheduler.get(&"w1".to_string()));

    // a later pass with unchanged states keeps the entry and reports nothing
    let ready = workload_scheduler.next_workload_operations(&observed);
    assert!(ready.is_empty());
    assert!(workload_scheduler.take_reports().is_empty());
    assert_eq!(Some(&PendingEntry::Delete(d1)), workload_scheduler.get(&"w1".to_string()));
}

fn update_pair() -> (WorkloadSpec, DeletedWorkload) {
    (
        spec("w1", vec![("u", AddCondition::Running)]),
        deleted("w1", vec![("d", DeleteCondition::NotPendingNorRunning)]),
    )
}

fn observed(upstream_running: bool, downstream_stopped: bool) -> ParameterStorage {
    let mut s = ParameterStorage::new();
    if upstream_running {
        s.set(instance("u", AGENT_A, "u_hash"), ExecutionState::Running);
    }
    if downstream_stopped {
        s.set(instance("d", AGENT_A, "d_hash"), ExecutionState::Succeeded);
    }
    s
}

#[test]
fn update_with_only_create_met_waits_whole() {
    let mut workload_scheduler = WorkloadScheduler::new();
    let (s, d) = update_pair();
    let ready = workload_scheduler.enqueue_filtered_workload_operations(
        vec![WorkloadOperation::Update(s.clone(), d.clone())],
        &observed(true, false),
    );
    assert!(ready.is_empty());
    assert_eq!(vec![state(&d.instance_name, ExecutionState::WaitingToStop)], workload_scheduler.take_reports());
    assert_eq!(Some(&PendingEntry::UpdateDelete(s, d)), workload_scheduler.get(&"w1".to_string()));
}

#[test]
fn update_with_only_delete_met_emits_delete_half() {
    let mut workload_scheduler = WorkloadScheduler::new();
    let (s, d) = update_pair();
    let ready = workload_scheduler.enqueue_filtered_workload_operations(
        vec![WorkloadOperation::Update(s.clone(), d.clone())],
        &observed(false, true),
    );
    assert_eq!(vec![WorkloadOperation::UpdateDeleteOnly(d.clone())], ready);
    assert_eq!(vec![state(&s.instance_name, ExecutionState::WaitingToStart)], workload_scheduler.take_reports());
    assert_eq!(Some(&PendingEntry::UpdateCreate(s, d)), workload_scheduler.get(&"w1".to_string()));
}

#[test]
fn update_with_both_met_is_emitted_whole() {
    let mut workload_scheduler = WorkloadScheduler::new();
    let (s, d) = update_pair();
    let ready = workload_scheduler.enqueue_filtered_workload_operations(
        vec![WorkloadOperation::Update(s.clone(), d.clone())],
        &observed(true, true),
    );
    assert_eq!(vec![WorkloadOperation::Update(s, d)], ready);
    assert!(workload_scheduler.take_reports().is_empty());
    assert!(workload_scheduler.is_empty());
}

#[test]
fn update_split_then_completed() {
    let mut workload_scheduler = WorkloadScheduler::new();
    let (s, d) = update_pair();
    let ready = workload_scheduler.enqueue_filtered_workload_operations(
        vec![WorkloadOperation::Update(s.clone(), d.clone())],
        &observed(false, true),
    );
    assert_eq!(vec![WorkloadOperation::UpdateDeleteOnly(d.clone())], ready);
    let ready = workload_scheduler.next_workload_operations(&observed(true, true));
    assert_eq!(vec![WorkloadOperation::Update(s.clone(), d)], ready);
    assert_eq!(vec![state(&s.instance_name, ExecutionState::WaitingToStart)], workload_scheduler.take_reports());
    assert!(workload_scheduler.is_empty());
}

#[test]
fn one_entry_per_workload_name() {
    let mut workload_scheduler = WorkloadScheduler::new();
    let (s, d) = update_pair();
    let ready = workload_scheduler.enqueue_filtered_workload_operations(
        vec![
            WorkloadOperation::Create(s.clone()),
            WorkloadOperation::Delete(d.clone()),
            WorkloadOperation::Update(s.clone(), d.clone()),
        ],
        &ParameterStorage::new(),
    );
    assert!(ready.is_empty());
    assert_eq!(1, workload_scheduler.len());
    assert_eq!(Some(&PendingEntry::UpdateDelete(s, d.clone())), workload_scheduler.get(&"w1".to_string()));
    assert_eq!(
        vec![
            state(&d.instance_name, ExecutionState::WaitingToStop),
            state(&d.instance_name, ExecutionState::WaitingToStop)
        ],
        workload_scheduler.take_reports()
    );
}

#[test]
fn newer_create_supersedes_pending_delete() {
    let mut workload_scheduler = WorkloadScheduler::new();
    let (s, d) = update_pair();
    workload_scheduler.insert(PendingEntry::Delete(d));
    workload_scheduler.insert(PendingEntry::Create(s.clone()));
    assert_eq!(1, workload_scheduler.len());
    assert_eq!(Some(&PendingEntry::Create(s)), workload_scheduler.get(&"w1".to_string()));
}

#[test]
fn reports_only_for_entries_that_split() {
    let mut workload_scheduler = WorkloadScheduler::new();
    let (s1, d1) = (
        spec("w1", vec![("u", AddCondition::Running)]),
        deleted("w1", vec![("d", DeleteCondition::NotPendingNorRunning)]),
    );
    let (s2, d2) = (
        spec("w2", vec![("u", AddCondition::Running)]),
        deleted("w2", vec![("d", DeleteCondition::NotPendingNorRunning)]),
    );
    let s3 = spec("w3", vec![("u", AddCondition::Running)]);
    let d4 = deleted("w4", vec![("x", DeleteCondition::Running)]);
    workload_scheduler.insert(PendingEntry::UpdateDelete(s1.clone(), d1.clone()));
    workload_scheduler.insert(PendingEntry::UpdateDelete(s2.clone(), d2.clone()));
    workload_scheduler.insert(PendingEntry::Create(s3));
    workload_scheduler.insert(PendingEntry::Delete(d4));
    let ready = workload_scheduler.next_workload_operations(&observed(false, true));
    assert_eq!(
        vec![WorkloadOperation::UpdateDeleteOnly(d1), WorkloadOperation::UpdateDeleteOnly(d2)],
        ready
    );
    assert_eq!(
        vec![
            state(&s1.instance_name, ExecutionState::WaitingToStart),
            state(&s2.instance_name, ExecutionState::WaitingToStart)
        ],
        workload_scheduler.take_reports()
    );
    assert_eq!(4, workload_scheduler.len());
}

#[test]
fn no_create_for_a_name_with_pending_delete() {
    let mut workload_scheduler = WorkloadScheduler::new();
    let d1 = deleted("w1", vec![("d", DeleteCondition::NotPendingNorRunning)]);
    let s2 = spec("w2", vec![]);
    let ready = workload_scheduler.enqueue_filtered_workload_operations(
        vec![WorkloadOperation::Delete(d1.clone()), WorkloadOperation::Create(s2.clone())],
        &ParameterStorage::new(),
    );
    // only the create of the other workload is emitted
    assert_eq!(vec![WorkloadOperation::Create(s2)], ready);
    assert_eq!(Some(&PendingEntry::Delete(d1)), workload_scheduler.get(&"w1".to_string()));
    let ready = workload_scheduler.next_workload_operations(&observed(true, false));
    assert!(ready.is_empty());
}

#[test]
fn next_state_follows_transition_table() {
    let (s, d) = update_pair();
    let entry = PendingEntry::UpdateDelete(s.clone(), d.clone());
    assert_eq!(QueueState::Same, entry.next_state(&observed(true, false)));
    assert_eq!(QueueState::Same, entry.next_state(&observed(false, false)));
    assert_eq!(
        QueueState::NewUpdateCreateState(
            PendingEntry::UpdateCreate(s.clone(), d.clone()),
            WorkloadOperation::UpdateDeleteOnly(d.clone())
        ),
        entry.next_state(&observed(false, true))
    );
    assert_eq!(
        QueueState::Ready(WorkloadOperation::Update(s.clone(), d.clone())),
        entry.next_state(&observed(true, true))
    );
    let entry = PendingEntry::UpdateCreate(s.clone(), d.clone());
    assert_eq!(QueueState::Same, entry.next_state(&observed(false, true)));
    assert_eq!(
        QueueState::Ready(WorkloadOperation::Update(s.clone(), d.clone())),
        entry.next_state(&observed(true, false))
    );
    assert_eq!(s.instance_name, entry.instance_name());
    assert_eq!(d.instance_name, PendingEntry::Delete(d.clone()).instance_name());
}
