use crate::objects::{ExecutionState, InstanceNameView, WorkloadInstanceName, WorkloadState};
use vstd::prelude::*;

verus! {

/// The most recently observed execution state of each workload instance.
///
/// Its model is a map from instance name to state; recording a state for a
/// name replaces the one held before.
pub struct ParameterStorage {
    states: Vec<WorkloadState>,
}

impl View for ParameterStorage {
    type V = Map<InstanceNameView, ExecutionState>;

    closed spec fn view(&self) -> Map<InstanceNameView, ExecutionState> {
        Map::new(
            |k: InstanceNameView| self.has_index_for(k),
            |k: InstanceNameView| self.states@[self.index_for(k)].execution_state,
        )
    }
}

impl ParameterStorage {
    /// No instance name is recorded twice.
    pub closed spec fn wf(&self) -> bool {
        forall|i: int, j: int|
            0 <= i < self.states.len() && 0 <= j < self.states.len() && i != j
                ==> #[trigger] self.states@[i].instance_name@ != #[trigger] self.states@[j].instance_name@
    }

    closed spec fn has_index_for(&self, k: InstanceNameView) -> bool {
        exists|i: int| 0 <= i < self.states.len() && #[trigger] self.states@[i].instance_name@ == k
    }

    closed spec fn index_for(&self, k: InstanceNameView) -> int {
        choose|i: int| 0 <= i < self.states.len() && #[trigger] self.states@[i].instance_name@ == k
    }

    proof fn lemma_entry_in_view(&self, i: int)
        requires
            self.wf(),
            0 <= i < self.states.len(),
        ensures
            self@.contains_key(self.states@[i].instance_name@),
            self@[self.states@[i].instance_name@] == self.states@[i].execution_state,
    {
        let k = self.states@[i].instance_name@;
        assert(self.has_index_for(k));
        let j = self.index_for(k);
        assert(self.states@[j].instance_name@ == k);
    }

    pub fn new() -> (r: Self)
        ensures
            r.wf(),
            r@ == Map::<InstanceNameView, ExecutionState>::empty(),
    {
        let r = ParameterStorage { states: Vec::new() };
        assert(r@ =~= Map::<InstanceNameView, ExecutionState>::empty());
        r
    }

    /// Records `state` as the latest state of `instance_name`.
    pub fn set(&mut self, instance_name: WorkloadInstanceName, state: ExecutionState)
        requires
            old(self).wf(),
        ensures
            final(self).wf(),
            final(self)@ == old(self)@.insert(instance_name@, state),
    {
        let ghost before = *self;
        let mut i: usize = 0;
        while i < self.states.len()
            invariant
                *self == before,
                before == *old(self),
                self.wf(),
                0 <= i <= self.states.len(),
                forall|j: int| 0 <= j < i ==> self.states@[j].instance_name@ != instance_name@,
            decreases self.states.len() - i,
        {
            if self.states[i].instance_name.same_instance(&instance_name) {
                let ghost k = instance_name@;
                self.states.set(i, WorkloadState { instance_name, execution_state: state });
                proof {
                    assert forall|a: int, b: int|
                        0 <= a < self.states.len() && 0 <= b < self.states.len() && a != b
                            implies #[trigger] self.states@[a].instance_name@
                            != #[trigger] self.states@[b].instance_name@ by {
                        assert(before.states@[a].instance_name@ != before.states@[b].instance_name@);
                    }
                    assert forall|key: InstanceNameView|
                        #[trigger] self@.contains_key(key) == before@.insert(k, state).contains_key(key)
                            && (self@.contains_key(key) ==> self@[key] == before@.insert(k, state)[key]) by {
                        if key == k {
                            self.lemma_entry_in_view(i as int);
                        } else {
                            if self.has_index_for(key) {
                                let j = self.index_for(key);
                                self.lemma_entry_in_view(j);
                                before.lemma_entry_in_view(j);
                            }
                            if before.has_index_for(key) {
                                let j = before.index_for(key);
                                self.lemma_entry_in_view(j);
                                before.lemma_entry_in_view(j);
                            }
                        }
                    }
                    assert(self@ =~= before@.insert(k, state));
                }
                return;
            }
            i = i + 1;
        }
        let ghost k = instance_name@;
        self.states.push(WorkloadState { instance_name, execution_state: state });
        proof {
            let n = before.states.len() as int;
            assert forall|key: InstanceNameView|
                #[trigger] self@.contains_key(key) == before@.insert(k, state).contains_key(key)
                    && (self@.contains_key(key) ==> self@[key] == before@.insert(k, state)[key]) by {
                if key == k {
                    self.lemma_entry_in_view(n);
                } else {
                    if self.has_index_for(key) {
                        let j = self.index_for(key);
                        self.lemma_entry_in_view(j);
                        before.lemma_entry_in_view(j);
                    }
                    if before.has_index_for(key) {
                        let j = before.index_for(key);
                        self.lemma_entry_in_view(j);
                        before.lemma_entry_in_view(j);
                    }
                }
            }
            assert(self@ =~= before@.insert(k, state));
        }
    }

    /// The latest state recorded for `instance_name`, if any.
    pub fn get(&self, instance_name: &WorkloadInstanceName) -> (r: Option<ExecutionState>)
        requires
            self.wf(),
        ensures
            r == (if self@.contains_key(instance_name@) {
                Some(self@[instance_name@])
            } else {
                None
            }),
    {
        let mut i: usize = 0;
        while i < self.states.len()
            invariant
                self.wf(),
                0 <= i <= self.states.len(),
                forall|j: int| 0 <= j < i ==> self.states@[j].instance_name@ != instance_name@,
            decreases self.states.len() - i,
        {
            if self.states[i].instance_name.same_instance(instance_name) {
                proof {
                    self.lemma_entry_in_view(i as int);
                }
                return Some(self.states[i].execution_state);
            }
            i = i + 1;
        }
        proof {
            if self.has_index_for(instance_name@) {
                let j = self.index_for(instance_name@);
                assert(self.states@[j].instance_name@ == instance_name@);
            }
        }
        None
    }

    /// The states of every recorded instance of the workload called `workload_name`.
    pub fn all_for_workload_name(&self, workload_name: &String) -> (r: Vec<ExecutionState>)
        requires
            self.wf(),
        ensures
            forall|s: ExecutionState|
                r@.contains(s) <==> exists|k: InstanceNameView|
                    #[trigger] self@.contains_key(k) && k.workload_name == workload_name@
                        && self@[k] == s,
    {
        let mut r: Vec<ExecutionState> = Vec::new();
        let mut i: usize = 0;
        while i < self.states.len()
            invariant
                self.wf(),
                0 <= i <= self.states.len(),
                forall|s: ExecutionState|
                    r@.contains(s) <==> exists|j: int|
                        0 <= j < i && #[trigger] self.states@[j].instance_name@.workload_name
                            == workload_name@ && self.states@[j].execution_state == s,
            decreases self.states.len() - i,
        {
            if self.states[i].instance_name.workload_name == *workload_name {
                let ghost r0 = r@;
                r.push(self.states[i].execution_state);
                proof {
                    assert forall|s: ExecutionState|
                        r@.contains(s) <==> exists|j: int|
                            0 <= j < i + 1 && #[trigger] self.states@[j].instance_name@.workload_name
                                == workload_name@ && self.states@[j].execution_state == s by {
                        if r@.contains(s) && !r0.contains(s) {
                            let idx = choose|idx: int| 0 <= idx < r@.len() && r@[idx] == s;
                            if idx < r0.len() {
                                assert(r0[idx] == s);
                            }
                            assert(self.states@[i as int].instance_name@.workload_name == workload_name@);
                        }
                        if r0.contains(s) {
                            let idx = choose|idx: int| 0 <= idx < r0.len() && r0[idx] == s;
                            assert(r@[idx] == s);
                        }
                        if s == self.states@[i as int].execution_state {
                            assert(r@[r@.len() - 1] == s);
                        }
                    }
                }
            }
            i = i + 1;
        }
        proof {
            assert forall|s: ExecutionState|
                r@.contains(s) <==> exists|k: InstanceNameView|
                    #[trigger] self@.contains_key(k) && k.workload_name == workload_name@
                        && self@[k] == s by {
                if r@.contains(s) {
                    let j = choose|j: int|
                        0 <= j < i && #[trigger] self.states@[j].instance_name@.workload_name
                            == workload_name@ && self.states@[j].execution_state == s;
                    self.lemma_entry_in_view(j);
                }
                if exists|k: InstanceNameView|
                    #[trigger] self@.contains_key(k) && k.workload_name == workload_name@
                        && self@[k] == s {
                    let k = choose|k: InstanceNameView|
                        #[trigger] self@.contains_key(k) && k.workload_name == workload_name@
                            && self@[k] == s;
                    let j = self.index_for(k);
                    assert(self.states@[j].instance_name@.workload_name == workload_name@);
                }
            }
        }
        r
    }
}

} // verus!
