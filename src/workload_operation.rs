use crate::objects::{DeletedWorkload, DeletedWorkloadView, WorkloadSpec, WorkloadSpecView};
use vstd::prelude::*;

verus! {

/// An operation on a workload, as handed to the scheduler and, once its
/// dependencies are met, to the runtime layer.
#[derive(Debug, PartialEq, Eq)]
pub enum WorkloadOperation {
    Create(WorkloadSpec),
    Delete(DeletedWorkload),
    /// Replace the deleted instance by the new one.
    Update(WorkloadSpec, DeletedWorkload),
    /// The delete half of an update whose create half still waits. It is only
    /// ever emitted, never accepted as input.
    UpdateDeleteOnly(DeletedWorkload),
}

pub enum OperationView {
    Create(WorkloadSpecView),
    Delete(DeletedWorkloadView),
    Update(WorkloadSpecView, DeletedWorkloadView),
    UpdateDeleteOnly(DeletedWorkloadView),
}

impl View for WorkloadOperation {
    type V = OperationView;

    open spec fn view(&self) -> OperationView {
        match self {
            WorkloadOperation::Create(s) => OperationView::Create(s@),
            WorkloadOperation::Delete(d) => OperationView::Delete(d@),
            WorkloadOperation::Update(s, d) => OperationView::Update(s@, d@),
            WorkloadOperation::UpdateDeleteOnly(d) => OperationView::UpdateDeleteOnly(d@),
        }
    }
}

impl Clone for WorkloadOperation {
    fn clone(&self) -> (r: Self)
        ensures
            r@ == self@,
    {
        match self {
            WorkloadOperation::Create(s) => WorkloadOperation::Create(s.clone()),
            WorkloadOperation::Delete(d) => WorkloadOperation::Delete(d.clone()),
            WorkloadOperation::Update(s, d) => WorkloadOperation::Update(s.clone(), d.clone()),
            WorkloadOperation::UpdateDeleteOnly(d) => WorkloadOperation::UpdateDeleteOnly(
                d.clone(),
            ),
        }
    }
}

pub open spec fn ops_view(ops: Seq<WorkloadOperation>) -> Seq<OperationView> {
    ops.map_values(|op: WorkloadOperation| op@)
}

pub open spec fn specs_view(specs: Seq<WorkloadSpec>) -> Seq<WorkloadSpecView> {
    specs.map_values(|s: WorkloadSpec| s@)
}

pub open spec fn deleted_view(deleted: Seq<DeletedWorkload>) -> Seq<DeletedWorkloadView> {
    deleted.map_values(|d: DeletedWorkload| d@)
}

/// The last added workload called `name`, if any.
pub open spec fn added_with_name(added: Seq<WorkloadSpecView>, name: Seq<char>) -> Option<
    WorkloadSpecView,
>
    decreases added.len(),
{
    if added.len() == 0 {
        None
    } else if added.last().instance_name.workload_name == name {
        Some(added.last())
    } else {
        added_with_name(added.drop_last(), name)
    }
}

/// Some deleted workload is called `name`.
pub open spec fn deleted_has_name(deleted: Seq<DeletedWorkloadView>, name: Seq<char>) -> bool {
    exists|i: int| 0 <= i < deleted.len() && #[trigger] deleted[i].instance_name.workload_name == name
}

/// A deleted workload becomes an update when a workload of its name is added,
/// else a delete.
pub open spec fn operation_for_deleted(added: Seq<WorkloadSpecView>, d: DeletedWorkloadView) -> OperationView {
    match added_with_name(added, d.instance_name.workload_name) {
        Some(s) => OperationView::Update(s, d),
        None => OperationView::Delete(d),
    }
}

/// The creates for the added workloads of which no workload of the same name
/// is deleted, in order.
pub open spec fn creates_for(added: Seq<WorkloadSpecView>, deleted: Seq<DeletedWorkloadView>) -> Seq<
    OperationView,
>
    decreases added.len(),
{
    if added.len() == 0 {
        Seq::empty()
    } else if deleted_has_name(deleted, added.last().instance_name.workload_name) {
        creates_for(added.drop_last(), deleted)
    } else {
        creates_for(added.drop_last(), deleted).push(OperationView::Create(added.last()))
    }
}

/// The operations for one change of the desired state: one per deleted
/// workload, in order, then the creates.
pub open spec fn operations_for(added: Seq<WorkloadSpecView>, deleted: Seq<DeletedWorkloadView>) -> Seq<
    OperationView,
> {
    deleted.map_values(|d: DeletedWorkloadView| operation_for_deleted(added, d)) + creates_for(
        added,
        deleted,
    )
}

fn find_added(added: &Vec<WorkloadSpec>, name: &String) -> (r: Option<WorkloadSpec>)
    ensures
        r matches Some(s) ==> added_with_name(specs_view(added@), name@) == Some(s@),
        r is None ==> added_with_name(specs_view(added@), name@) is None,
{
    let ghost v = specs_view(added@);
    let mut found: Option<WorkloadSpec> = None;
    for i in 0..added.len()
        invariant
            v == specs_view(added@),
            found matches Some(s) ==> added_with_name(v.take(i as int), name@) == Some(s@),
            found is None ==> added_with_name(v.take(i as int), name@) is None,
    {
        proof {
            assert(v.take(i + 1).drop_last() =~= v.take(i as int));
            assert(v.take(i + 1).last() == added@[i as int]@);
        }
        if added[i].instance_name.workload_name == *name {
            found = Some(added[i].clone());
        }
    }
    proof {
        assert(v.take(added.len() as int) =~= v);
    }
    found
}

fn is_deleted(deleted: &Vec<DeletedWorkload>, name: &String) -> (r: bool)
    ensures
        r == deleted_has_name(deleted_view(deleted@), name@),
{
    let ghost v = deleted_view(deleted@);
    for i in 0..deleted.len()
        invariant
            v == deleted_view(deleted@),
            forall|j: int| 0 <= j < i ==> #[trigger] v[j].instance_name.workload_name != name@,
    {
        if deleted[i].instance_name.workload_name == *name {
            assert(v[i as int].instance_name.workload_name == name@);
            return true;
        }
    }
    false
}

/// Turns a change of the desired state into operations: a deleted workload
/// for which a workload of the same name is added becomes an update, the
/// other deleted workloads deletes, the other added workloads creates.
pub fn workload_operations_from(added: &Vec<WorkloadSpec>, deleted: &Vec<DeletedWorkload>) -> (r: Vec<
    WorkloadOperation,
>)
    ensures
        ops_view(r@) == operations_for(specs_view(added@), deleted_view(deleted@)),
{
    let ghost av = specs_view(added@);
    let ghost dv = deleted_view(deleted@);
    let ghost deletes = dv.map_values(|d: DeletedWorkloadView| operation_for_deleted(av, d));
    let mut r: Vec<WorkloadOperation> = Vec::new();
    for i in 0..deleted.len()
        invariant
            av == specs_view(added@),
            dv == deleted_view(deleted@),
            deletes == dv.map_values(|d: DeletedWorkloadView| operation_for_deleted(av, d)),
            ops_view(r@) == deletes.take(i as int),
    {
        let d = &deleted[i];
        let op = match find_added(added, &d.instance_name.workload_name) {
            Some(s) => WorkloadOperation::Update(s, d.clone()),
            None => WorkloadOperation::Delete(d.clone()),
        };
        proof {
            assert(dv[i as int] == d@);
            assert(deletes[i as int] == op@);
            assert(deletes.take(i + 1) =~= deletes.take(i as int).push(op@));
        }
        let ghost before = ops_view(r@);
        r.push(op);
        assert(ops_view(r@) =~= before.push(deletes[i as int]));
    }
    assert(deletes.take(deleted.len() as int) =~= deletes);
    let ghost n = r@.len();
    for i in 0..added.len()
        invariant
            av == specs_view(added@),
            dv == deleted_view(deleted@),
            n <= r@.len(),
            ops_view(r@) == deletes + creates_for(av.take(i as int), dv),
    {
        proof {
            assert(av.take(i + 1).drop_last() =~= av.take(i as int));
            assert(av.take(i + 1).last() == added@[i as int]@);
        }
        if !is_deleted(deleted, &added[i].instance_name.workload_name) {
            let ghost before = ops_view(r@);
            r.push(WorkloadOperation::Create(added[i].clone()));
            assert(ops_view(r@) =~= before.push(OperationView::Create(added@[i as int]@)));
        }
        assert(ops_view(r@) =~= deletes + creates_for(av.take(i + 1), dv));
    }
    assert(av.take(added.len() as int) =~= av);
    r
}

} // verus!
