use crate::objects::{
    add_condition_met, delete_condition_met, AddCondition, DeleteCondition, DeletedWorkload,
    DeletedWorkloadView, ExecutionState, InstanceNameView, WorkloadSpec, WorkloadSpecView,
};
use crate::parameter_storage::ParameterStorage;
use vstd::prelude::*;

verus! {

/// Some instance of the workload called `name` was observed in a state that meets `c`.
pub open spec fn upstream_meets(
    storage: Map<InstanceNameView, ExecutionState>,
    name: Seq<char>,
    c: AddCondition,
) -> bool {
    exists|k: InstanceNameView|
        #[trigger] storage.contains_key(k) && k.workload_name == name && add_condition_met(
            c,
            storage[k],
        )
}

/// Some instance of the workload called `name` was observed in a state that meets `c`.
pub open spec fn downstream_meets(
    storage: Map<InstanceNameView, ExecutionState>,
    name: Seq<char>,
    c: DeleteCondition,
) -> bool {
    exists|k: InstanceNameView|
        #[trigger] storage.contains_key(k) && k.workload_name == name && delete_condition_met(
            c,
            storage[k],
        )
}

/// Every create dependency of `spec` is met by an observed state.
pub open spec fn create_fulfilled_spec(
    spec: WorkloadSpecView,
    storage: Map<InstanceNameView, ExecutionState>,
) -> bool {
    forall|i: int|
        0 <= i < spec.dependencies.len() ==> upstream_meets(
            storage,
            #[trigger] spec.dependencies[i].0,
            spec.dependencies[i].1,
        )
}

/// Every delete dependency of `deleted` is met by an observed state.
pub open spec fn delete_fulfilled_spec(
    deleted: DeletedWorkloadView,
    storage: Map<InstanceNameView, ExecutionState>,
) -> bool {
    forall|i: int|
        0 <= i < deleted.dependencies.len() ==> downstream_meets(
            storage,
            #[trigger] deleted.dependencies[i].0,
            deleted.dependencies[i].1,
        )
}

fn some_state_meets_add(states: &Vec<ExecutionState>, c: AddCondition) -> (r: bool)
    ensures
        r == exists|i: int| 0 <= i < states.len() && add_condition_met(c, #[trigger] states@[i]),
{
    for i in 0..states.len()
        invariant
            forall|j: int| 0 <= j < i ==> !add_condition_met(c, #[trigger] states@[j]),
    {
        if c.fulfilled_by(states[i]) {
            return true;
        }
    }
    false
}

fn some_state_meets_delete(states: &Vec<ExecutionState>, c: DeleteCondition) -> (r: bool)
    ensures
        r == exists|i: int| 0 <= i < states.len() && delete_condition_met(c, #[trigger] states@[i]),
{
    for i in 0..states.len()
        invariant
            forall|j: int| 0 <= j < i ==> !delete_condition_met(c, #[trigger] states@[j]),
    {
        if c.fulfilled_by(states[i]) {
            return true;
        }
    }
    false
}

/// Whether every create dependency of `spec` is met. A dependency on a
/// workload of which no state was observed is not met.
pub fn create_fulfilled(spec: &WorkloadSpec, storage: &ParameterStorage) -> (r: bool)
    requires
        storage.wf(),
    ensures
        r == create_fulfilled_spec(spec@, storage@),
{
    let ghost deps = spec@.dependencies;
    for i in 0..spec.dependencies.len()
        invariant
            storage.wf(),
            deps == spec@.dependencies,
            forall|j: int| 0 <= j < i ==> upstream_meets(storage@, #[trigger] deps[j].0, deps[j].1),
    {
        let dependency = &spec.dependencies[i];
        let states = storage.all_for_workload_name(&dependency.workload_name);
        let met = some_state_meets_add(&states, dependency.condition);
        proof {
            let name = dependency.workload_name@;
            let c = dependency.condition;
            assert(deps[i as int] == (name, c));
            if met {
                let j = choose|j: int| 0 <= j < states.len() && add_condition_met(c, #[trigger] states@[j]);
                assert(states@.contains(states@[j]));
            } else {
                if upstream_meets(storage@, name, c) {
                    let k = choose|k: InstanceNameView|
                        #[trigger] storage@.contains_key(k) && k.workload_name == name
                            && add_condition_met(c, storage@[k]);
                    assert(states@.contains(storage@[k]));
                    let j = choose|j: int| 0 <= j < states.len() && states@[j] == storage@[k];
                    assert(add_condition_met(c, states@[j]));
                }
                assert(!upstream_meets(storage@, deps[i as int].0, deps[i as int].1));
            }
        }
        if !met {
            return false;
        }
    }
    true
}

/// Whether every delete dependency of `deleted` is met. A dependency on a
/// workload of which no state was observed is not met.
pub fn delete_fulfilled(deleted: &DeletedWorkload, storage: &ParameterStorage) -> (r: bool)
    requires
        storage.wf(),
    ensures
        r == delete_fulfilled_spec(deleted@, storage@),
{
    let ghost deps = deleted@.dependencies;
    for i in 0..deleted.dependencies.len()
        invariant
            storage.wf(),
            deps == deleted@.dependencies,
            forall|j: int| 0 <= j < i ==> downstream_meets(storage@, #[trigger] deps[j].0, deps[j].1),
    {
        let dependency = &deleted.dependencies[i];
        let states = storage.all_for_workload_name(&dependency.workload_name);
        let met = some_state_meets_delete(&states, dependency.condition);
        proof {
            let name = dependency.workload_name@;
            let c = dependency.condition;
            assert(deps[i as int] == (name, c));
            if met {
                let j = choose|j: int| 0 <= j < states.len() && delete_condition_met(c, #[trigger] states@[j]);
                assert(states@.contains(states@[j]));
            } else {
                if downstream_meets(storage@, name, c) {
                    let k = choose|k: InstanceNameView|
                        #[trigger] storage@.contains_key(k) && k.workload_name == name
                            && delete_condition_met(c, storage@[k]);
                    assert(states@.contains(storage@[k]));
                    let j = choose|j: int| 0 <= j < states.len() && states@[j] == storage@[k];
                    assert(delete_condition_met(c, states@[j]));
                }
                assert(!downstream_meets(storage@, deps[i as int].0, deps[i as int].1));
            }
        }
        if !met {
            return false;
        }
    }
    true
}

} // verus!
