use crate::dependency_state_validator::{
    create_fulfilled, create_fulfilled_spec, delete_fulfilled, delete_fulfilled_spec,
};
use crate::objects::{
    DeletedWorkload, DeletedWorkloadView, ExecutionState, InstanceNameView, WorkloadInstanceName,
    WorkloadSpec, WorkloadSpecView,
};
use crate::parameter_storage::ParameterStorage;
use crate::workload_operation::{OperationView, WorkloadOperation};
use vstd::prelude::*;

verus! {

/// An operation held back until its dependencies are met.
#[derive(Debug, PartialEq, Eq)]
pub enum PendingEntry {
    Create(WorkloadSpec),
    Delete(DeletedWorkload),
    /// The old instance is already deleted; the new one waits for its
    /// create dependencies.
    UpdateCreate(WorkloadSpec, DeletedWorkload),
    /// Neither half of the update has been carried out yet.
    UpdateDelete(WorkloadSpec, DeletedWorkload),
}

pub enum PendingEntryView {
    Create(WorkloadSpecView),
    Delete(DeletedWorkloadView),
    UpdateCreate(WorkloadSpecView, DeletedWorkloadView),
    UpdateDelete(WorkloadSpecView, DeletedWorkloadView),
}

impl PendingEntryView {
    /// The instance the entry reports on: the new one for an update.
    pub open spec fn instance_name(self) -> InstanceNameView {
        match self {
            PendingEntryView::Create(s) => s.instance_name,
            PendingEntryView::Delete(d) => d.instance_name,
            PendingEntryView::UpdateCreate(s, _) => s.instance_name,
            PendingEntryView::UpdateDelete(s, _) => s.instance_name,
        }
    }

    /// The key of the entry in the scheduler's queue.
    pub open spec fn workload_name(self) -> Seq<char> {
        self.instance_name().workload_name
    }
}

impl View for PendingEntry {
    type V = PendingEntryView;

    open spec fn view(&self) -> PendingEntryView {
        match self {
            PendingEntry::Create(s) => PendingEntryView::Create(s@),
            PendingEntry::Delete(d) => PendingEntryView::Delete(d@),
            PendingEntry::UpdateCreate(s, d) => PendingEntryView::UpdateCreate(s@, d@),
            PendingEntry::UpdateDelete(s, d) => PendingEntryView::UpdateDelete(s@, d@),
        }
    }
}

impl Clone for PendingEntry {
    fn clone(&self) -> (r: Self)
        ensures
            r@ == self@,
    {
        match self {
            PendingEntry::Create(s) => PendingEntry::Create(s.clone()),
            PendingEntry::Delete(d) => PendingEntry::Delete(d.clone()),
            PendingEntry::UpdateCreate(s, d) => PendingEntry::UpdateCreate(s.clone(), d.clone()),
            PendingEntry::UpdateDelete(s, d) => PendingEntry::UpdateDelete(s.clone(), d.clone()),
        }
    }
}

/// What becomes of a pending entry once the observed states are consulted.
#[derive(Debug, PartialEq, Eq)]
pub enum QueueState {
    /// The entry keeps waiting, unchanged.
    Same,
    /// The delete half of an update is ready: the entry is replaced and the
    /// operation is carried out now.
    NewUpdateCreateState(PendingEntry, WorkloadOperation),
    /// The entry is done: the operation is carried out and the entry leaves the queue.
    Ready(WorkloadOperation),
}

pub enum QueueStateView {
    Same,
    NewUpdateCreateState(PendingEntryView, OperationView),
    Ready(OperationView),
}

impl View for QueueState {
    type V = QueueStateView;

    open spec fn view(&self) -> QueueStateView {
        match self {
            QueueState::Same => QueueStateView::Same,
            QueueState::NewUpdateCreateState(e, op) => QueueStateView::NewUpdateCreateState(
                e@,
                op@,
            ),
            QueueState::Ready(op) => QueueStateView::Ready(op@),
        }
    }
}

/// The transition of a pending entry under the observed states `storage`.
pub open spec fn next_state_of(
    entry: PendingEntryView,
    storage: Map<InstanceNameView, ExecutionState>,
) -> QueueStateView {
    match entry {
        PendingEntryView::Create(s) => if create_fulfilled_spec(s, storage) {
            QueueStateView::Ready(OperationView::Create(s))
        } else {
            QueueStateView::Same
        },
        PendingEntryView::Delete(d) => if delete_fulfilled_spec(d, storage) {
            QueueStateView::Ready(OperationView::Delete(d))
        } else {
            QueueStateView::Same
        },
        PendingEntryView::UpdateCreate(s, d) => if create_fulfilled_spec(s, storage) {
            QueueStateView::Ready(OperationView::Update(s, d))
        } else {
            QueueStateView::Same
        },
        PendingEntryView::UpdateDelete(s, d) => {
            let create_ok = create_fulfilled_spec(s, storage);
            let delete_ok = delete_fulfilled_spec(d, storage);
            if create_ok && delete_ok {
                QueueStateView::Ready(OperationView::Update(s, d))
            } else if delete_ok {
                QueueStateView::NewUpdateCreateState(
                    PendingEntryView::UpdateCreate(s, d),
                    OperationView::UpdateDeleteOnly(d),
                )
            } else {
                QueueStateView::Same
            }
        },
    }
}

impl PendingEntry {
    /// Decides whether the entry keeps waiting, moves on to its create half,
    /// or is ready.
    pub fn next_state(&self, storage: &ParameterStorage) -> (r: QueueState)
        requires
            storage.wf(),
        ensures
            r@ == next_state_of(self@, storage@),
    {
        match self {
            PendingEntry::Create(spec) => {
                if create_fulfilled(spec, storage) {
                    QueueState::Ready(WorkloadOperation::Create(spec.clone()))
                } else {
                    QueueState::Same
                }
            },
            PendingEntry::Delete(deleted) => {
                if delete_fulfilled(deleted, storage) {
                    QueueState::Ready(WorkloadOperation::Delete(deleted.clone()))
                } else {
                    QueueState::Same
                }
            },
            PendingEntry::UpdateCreate(spec, deleted) => {
                if create_fulfilled(spec, storage) {
                    QueueState::Ready(WorkloadOperation::Update(spec.clone(), deleted.clone()))
                } else {
                    QueueState::Same
                }
            },
            PendingEntry::UpdateDelete(spec, deleted) => {
                let create_ok = create_fulfilled(spec, storage);
                let delete_ok = delete_fulfilled(deleted, storage);
                if create_ok && delete_ok {
                    // both halves may run now
                    QueueState::Ready(WorkloadOperation::Update(spec.clone(), deleted.clone()))
                } else if delete_ok {
                    // at most one instance may run: the old one goes first, the
                    // new one waits for its own dependencies
                    QueueState::NewUpdateCreateState(
                        PendingEntry::UpdateCreate(spec.clone(), deleted.clone()),
                        WorkloadOperation::UpdateDeleteOnly(deleted.clone()),
                    )
                } else {
                    QueueState::Same
                }
            },
        }
    }

    /// The instance the entry reports on: the new one for an update.
    pub fn instance_name(&self) -> (r: WorkloadInstanceName)
        ensures
            r@ == self@.instance_name(),
    {
        match self {
            PendingEntry::Create(spec) => spec.instance_name.clone(),
            PendingEntry::Delete(deleted) => deleted.instance_name.clone(),
            PendingEntry::UpdateCreate(spec, _) => spec.instance_name.clone(),
            PendingEntry::UpdateDelete(spec, _) => spec.instance_name.clone(),
        }
    }

    /// The key of the entry in the scheduler's queue.
    pub fn workload_name(&self) -> (r: &String)
        ensures
            r@ == self@.workload_name(),
    {
        match self {
            PendingEntry::Create(spec) => &spec.instance_name.workload_name,
            PendingEntry::Delete(deleted) => &deleted.instance_name.workload_name,
            PendingEntry::UpdateCreate(spec, _) => &spec.instance_name.workload_name,
            PendingEntry::UpdateDelete(spec, _) => &spec.instance_name.workload_name,
        }
    }
}

} // verus!
