use crate::objects::{
    ExecutionState, InstanceNameView, WorkloadInstanceName, WorkloadState, WorkloadStateView,
};
use crate::parameter_storage::ParameterStorage;
use crate::pending_entry::{next_state_of, PendingEntry, PendingEntryView, QueueState, QueueStateView};
use crate::workload_operation::{ops_view, OperationView, WorkloadOperation};
use vstd::prelude::*;

verus! {

/// The report sent to the server when an entry starts waiting for its create half.
pub open spec fn waiting_to_start(name: InstanceNameView) -> WorkloadStateView {
    WorkloadStateView { instance_name: name, execution_state: ExecutionState::WaitingToStart }
}

/// The report sent to the server when an entry starts waiting for its delete half.
pub open spec fn waiting_to_stop(name: InstanceNameView) -> WorkloadStateView {
    WorkloadStateView { instance_name: name, execution_state: ExecutionState::WaitingToStop }
}

/// No workload name is the key of two entries.
pub open spec fn keys_unique(q: Seq<PendingEntryView>) -> bool {
    forall|i: int, j: int|
        0 <= i < q.len() && 0 <= j < q.len() && i != j ==> #[trigger] q[i].workload_name()
            != #[trigger] q[j].workload_name()
}

/// The queue holds an entry under `name`.
pub open spec fn has_key(q: Seq<PendingEntryView>, name: Seq<char>) -> bool {
    exists|i: int| 0 <= i < q.len() && #[trigger] q[i].workload_name() == name
}

/// The entry the queue holds under `name`.
pub open spec fn entry_at(q: Seq<PendingEntryView>, name: Seq<char>) -> PendingEntryView
    recommends
        has_key(q, name),
{
    q[choose|i: int| 0 <= i < q.len() && #[trigger] q[i].workload_name() == name]
}

/// Puts `e` under its workload name, replacing the entry held there before.
pub open spec fn queue_insert(q: Seq<PendingEntryView>, e: PendingEntryView) -> Seq<
    PendingEntryView,
> {
    if has_key(q, e.workload_name()) {
        q.update(
            choose|i: int| 0 <= i < q.len() && #[trigger] q[i].workload_name() == e.workload_name(),
            e,
        )
    } else {
        q.push(e)
    }
}

/// What a run of the scheduler leaves behind: the queue, the pending-state
/// reports for the server, and the operations that are ready.
pub struct Pass {
    pub queue: Seq<PendingEntryView>,
    pub reports: Seq<WorkloadStateView>,
    pub ready: Seq<OperationView>,
}

/// One pass over the queue `q`: each entry is evaluated in order; an entry
/// that stays is kept without a new report.
pub open spec fn drain_pass(q: Seq<PendingEntryView>, storage: Map<InstanceNameView, ExecutionState>) -> Pass
    decreases q.len(),
{
    if q.len() == 0 {
        Pass { queue: Seq::empty(), reports: Seq::empty(), ready: Seq::empty() }
    } else {
        let p = drain_pass(q.drop_last(), storage);
        let e = q.last();
        match next_state_of(e, storage) {
            QueueStateView::Same => Pass { queue: p.queue.push(e), reports: p.reports, ready: p.ready },
            QueueStateView::NewUpdateCreateState(n, op) => Pass {
                queue: p.queue.push(n),
                reports: p.reports.push(waiting_to_start(n.instance_name())),
                ready: p.ready.push(op),
            },
            QueueStateView::Ready(op) => Pass { queue: p.queue, reports: p.reports, ready: p.ready.push(op) },
        }
    }
}

/// The effect of one operation handed to the scheduler.
pub open spec fn enqueue_step(
    p: Pass,
    op: OperationView,
    storage: Map<InstanceNameView, ExecutionState>,
) -> Pass {
    match op {
        OperationView::Create(s) => Pass {
            queue: queue_insert(p.queue, PendingEntryView::Create(s)),
            reports: p.reports,
            ready: p.ready,
        },
        OperationView::Delete(d) => Pass {
            queue: queue_insert(p.queue, PendingEntryView::Delete(d)),
            reports: p.reports.push(waiting_to_stop(d.instance_name)),
            ready: p.ready,
        },
        OperationView::Update(s, d) => match next_state_of(PendingEntryView::UpdateDelete(s, d), storage) {
            QueueStateView::Same => Pass {
                queue: queue_insert(p.queue, PendingEntryView::UpdateDelete(s, d)),
                reports: p.reports.push(waiting_to_stop(d.instance_name)),
                ready: p.ready,
            },
            QueueStateView::NewUpdateCreateState(n, o) => Pass {
                queue: queue_insert(p.queue, n),
                reports: p.reports.push(waiting_to_start(n.instance_name())),
                ready: p.ready.push(o),
            },
            QueueStateView::Ready(o) => Pass { queue: p.queue, reports: p.reports, ready: p.ready.push(o) },
        },
        OperationView::UpdateDeleteOnly(_) => p,
    }
}

/// The effect of the operations `ops`, one after the other, starting from `p`.
pub open spec fn enqueue_all(
    p: Pass,
    ops: Seq<OperationView>,
    storage: Map<InstanceNameView, ExecutionState>,
) -> Pass
    decreases ops.len(),
{
    if ops.len() == 0 {
        p
    } else {
        enqueue_step(enqueue_all(p, ops.drop_last(), storage), ops.last(), storage)
    }
}

/// The full effect of `enqueue_filtered_workload_operations`: the operations
/// in order, then one pass over the resulting queue. The reports and ready
/// operations of the pass follow those of the operations.
pub open spec fn enqueue_filtered(
    q: Seq<PendingEntryView>,
    ops: Seq<OperationView>,
    storage: Map<InstanceNameView, ExecutionState>,
) -> Pass {
    let p = enqueue_all(Pass { queue: q, reports: Seq::empty(), ready: Seq::empty() }, ops, storage);
    let d = drain_pass(p.queue, storage);
    Pass { queue: d.queue, reports: p.reports + d.reports, ready: p.ready + d.ready }
}

pub proof fn lemma_queue_insert(q: Seq<PendingEntryView>, e: PendingEntryView)
    requires
        keys_unique(q),
    ensures
        keys_unique(queue_insert(q, e)),
        has_key(queue_insert(q, e), e.workload_name()),
        entry_at(queue_insert(q, e), e.workload_name()) == e,
        forall|name: Seq<char>| name != e.workload_name() ==> #[trigger] has_key(queue_insert(q, e), name) == has_key(q, name),
        forall|name: Seq<char>| name != e.workload_name() && has_key(q, name) ==> #[trigger] entry_at(queue_insert(q, e), name) == entry_at(q, name),
{
    let r = queue_insert(q, e);
    let k = e.workload_name();
    if has_key(q, k) {
        let i = choose|i: int| 0 <= i < q.len() && #[trigger] q[i].workload_name() == k;
        assert(r[i] == e);
        assert forall|a: int, b: int| 0 <= a < r.len() && 0 <= b < r.len() && a != b
            implies #[trigger] r[a].workload_name() != #[trigger] r[b].workload_name() by {
            if a != i && b != i {
                assert(q[a].workload_name() != q[b].workload_name());
            } else if a == i {
                assert(q[i].workload_name() != q[b].workload_name());
            } else {
                assert(q[a].workload_name() != q[i].workload_name());
            }
        }
        let j = choose|j: int| 0 <= j < r.len() && #[trigger] r[j].workload_name() == k;
        assert(j == i) by {
            if j != i {
                assert(r[j].workload_name() != r[i].workload_name());
            }
        }
        assert forall|name: Seq<char>| name != k implies #[trigger] has_key(r, name) == has_key(q, name) by {
            if has_key(q, name) {
                let a = choose|a: int| 0 <= a < q.len() && #[trigger] q[a].workload_name() == name;
                assert(r[a].workload_name() == name);
            }
            if has_key(r, name) {
                let a = choose|a: int| 0 <= a < r.len() && #[trigger] r[a].workload_name() == name;
                assert(q[a].workload_name() == name);
            }
        }
        assert forall|name: Seq<char>| name != k && has_key(q, name) implies #[trigger] entry_at(r, name) == entry_at(q, name) by {
            let a = choose|a: int| 0 <= a < q.len() && #[trigger] q[a].workload_name() == name;
            let b = choose|b: int| 0 <= b < r.len() && #[trigger] r[b].workload_name() == name;
            assert(r[a].workload_name() == name);
            if a != b {
                assert(r[a].workload_name() != r[b].workload_name());
            }
        }
    } else {
        let n = q.len() as int;
        assert(r[n] == e);
        assert forall|a: int, b: int| 0 <= a < r.len() && 0 <= b < r.len() && a != b
            implies #[trigger] r[a].workload_name() != #[trigger] r[b].workload_name() by {
            if a != n && b != n {
                assert(q[a].workload_name() != q[b].workload_name());
            } else if a == n {
                assert(r[b] == q[b]);
            } else {
                assert(r[a] == q[a]);
            }
        }
        let j = choose|j: int| 0 <= j < r.len() && #[trigger] r[j].workload_name() == k;
        assert(j == n) by {
            if j != n {
                assert(r[j] == q[j]);
            }
        }
        assert forall|name: Seq<char>| name != k implies #[trigger] has_key(r, name) == has_key(q, name) by {
            if has_key(q, name) {
                let a = choose|a: int| 0 <= a < q.len() && #[trigger] q[a].workload_name() == name;
                assert(r[a].workload_name() == name);
            }
            if has_key(r, name) {
                let a = choose|a: int| 0 <= a < r.len() && #[trigger] r[a].workload_name() == name;
                assert(q[a].workload_name() == name);
            }
        }
        assert forall|name: Seq<char>| name != k && has_key(q, name) implies #[trigger] entry_at(r, name) == entry_at(q, name) by {
            let a = choose|a: int| 0 <= a < q.len() && #[trigger] q[a].workload_name() == name;
            let b = choose|b: int| 0 <= b < r.len() && #[trigger] r[b].workload_name() == name;
            assert(r[a].workload_name() == name);
            if a != b {
                assert(r[a].workload_name() != r[b].workload_name());
            }
        }
    }
}

/// A transition keeps the entry under its workload name.
pub proof fn lemma_next_state_keeps_key(e: PendingEntryView, storage: Map<InstanceNameView, ExecutionState>)
    ensures
        next_state_of(e, storage) matches QueueStateView::NewUpdateCreateState(n, _)
            ==> n.workload_name() == e.workload_name() && n.instance_name() == e.instance_name(),
{
}

/// Every key after a pass was a key before it, and keys stay unique.
pub proof fn lemma_drain_pass_keys(q: Seq<PendingEntryView>, storage: Map<InstanceNameView, ExecutionState>)
    ensures
        forall|name: Seq<char>| #[trigger] has_key(drain_pass(q, storage).queue, name) ==> has_key(q, name),
        keys_unique(q) ==> keys_unique(drain_pass(q, storage).queue),
    decreases q.len(),
{
    if q.len() > 0 {
        let q0 = q.drop_last();
        lemma_drain_pass_keys(q0, storage);
        lemma_next_state_keeps_key(q.last(), storage);
        let p = drain_pass(q0, storage);
        let r = drain_pass(q, storage).queue;
        let k = q.last().workload_name();
        assert forall|name: Seq<char>| #[trigger] has_key(r, name) implies has_key(q, name) by {
            let a = choose|a: int| 0 <= a < r.len() && #[trigger] r[a].workload_name() == name;
            if a < p.queue.len() {
                assert(p.queue[a] == r[a]);
                assert(has_key(p.queue, name));
                let b = choose|b: int| 0 <= b < q0.len() && #[trigger] q0[b].workload_name() == name;
                assert(q[b] == q0[b]);
            } else {
                assert(q[q.len() - 1].workload_name() == name);
            }
        }
        if keys_unique(q) {
            assert(keys_unique(q0)) by {
                assert forall|a: int, b: int| 0 <= a < q0.len() && 0 <= b < q0.len() && a != b
                    implies #[trigger] q0[a].workload_name() != #[trigger] q0[b].workload_name() by {
                    assert(q[a] == q0[a] && q[b] == q0[b]);
                }
            }
            assert(!has_key(p.queue, k)) by {
                if has_key(p.queue, k) {
                    let b = choose|b: int| 0 <= b < q0.len() && #[trigger] q0[b].workload_name() == k;
                    assert(q[b] == q0[b]);
                    assert(q[b].workload_name() != q[q.len() - 1].workload_name());
                }
            }
            assert forall|a: int, b: int| 0 <= a < r.len() && 0 <= b < r.len() && a != b
                implies #[trigger] r[a].workload_name() != #[trigger] r[b].workload_name() by {
                if a < p.queue.len() && b < p.queue.len() {
                    assert(r[a] == p.queue[a] && r[b] == p.queue[b]);
                } else if a < p.queue.len() {
                    assert(r[a] == p.queue[a]);
                    assert(r[b].workload_name() == k);
                } else {
                    assert(r[b] == p.queue[b]);
                    assert(r[a].workload_name() == k);
                }
            }
        }
    }
}

/// Processing operations keeps keys unique.
pub proof fn lemma_enqueue_all_keys(p: Pass, ops: Seq<OperationView>, storage: Map<InstanceNameView, ExecutionState>)
    requires
        keys_unique(p.queue),
    ensures
        keys_unique(enqueue_all(p, ops, storage).queue),
    decreases ops.len(),
{
    if ops.len() > 0 {
        let p0 = enqueue_all(p, ops.drop_last(), storage);
        lemma_enqueue_all_keys(p, ops.drop_last(), storage);
        match ops.last() {
            OperationView::Create(s) => lemma_queue_insert(p0.queue, PendingEntryView::Create(s)),
            OperationView::Delete(d) => lemma_queue_insert(p0.queue, PendingEntryView::Delete(d)),
            OperationView::Update(s, d) => {
                lemma_queue_insert(p0.queue, PendingEntryView::UpdateDelete(s, d));
                lemma_queue_insert(p0.queue, PendingEntryView::UpdateCreate(s, d));
            },
            OperationView::UpdateDeleteOnly(_) => {},
        }
    }
}

/// The scheduler's model: the queue in order, and the reports not yet taken.
pub struct SchedulerView {
    pub queue: Seq<PendingEntryView>,
    pub reports: Seq<WorkloadStateView>,
}

/// Holds workload operations until their dependencies are met, and collects
/// the pending-state reports for the server.
pub struct WorkloadScheduler {
    queue: Vec<PendingEntry>,
    reports: Vec<WorkloadState>,
}

impl View for WorkloadScheduler {
    type V = SchedulerView;

    closed spec fn view(&self) -> SchedulerView {
        SchedulerView {
            queue: self.queue@.map_values(|e: PendingEntry| e@),
            reports: self.reports@.map_values(|s: WorkloadState| s@),
        }
    }
}

impl WorkloadScheduler {
    /// At most one entry per workload name.
    pub open spec fn wf(&self) -> bool {
        keys_unique(self@.queue)
    }

    pub fn new() -> (r: Self)
        ensures
            r.wf(),
            r@.queue == Seq::<PendingEntryView>::empty(),
            r@.reports == Seq::<WorkloadStateView>::empty(),
    {
        let r = WorkloadScheduler { queue: Vec::new(), reports: Vec::new() };
        assert(r@.queue =~= Seq::<PendingEntryView>::empty());
        assert(r@.reports =~= Seq::<WorkloadStateView>::empty());
        r
    }

    /// Hands out the pending-state reports collected so far, oldest first.
    pub fn take_reports(&mut self) -> (r: Vec<WorkloadState>)
        ensures
            r@.map_values(|s: WorkloadState| s@) == old(self)@.reports,
            final(self)@.queue == old(self)@.queue,
            final(self)@.reports == Seq::<WorkloadStateView>::empty(),
    {
        let mut r: Vec<WorkloadState> = Vec::new();
        std::mem::swap(&mut r, &mut self.reports);
        assert(self@.reports =~= Seq::<WorkloadStateView>::empty());
        r
    }

    /// The entry queued under `workload_name`, if any.
    pub fn get(&self, workload_name: &String) -> (r: Option<&PendingEntry>)
        requires
            self.wf(),
        ensures
            r is None <==> !has_key(self@.queue, workload_name@),
            r matches Some(e) ==> e@ == entry_at(self@.queue, workload_name@),
    {
        let ghost q = self@.queue;
        for i in 0..self.queue.len()
            invariant
                q == self@.queue,
                keys_unique(q),
                forall|j: int| 0 <= j < i ==> #[trigger] q[j].workload_name() != workload_name@,
        {
            if *self.queue[i].workload_name() == *workload_name {
                proof {
                    assert(q[i as int] == self.queue@[i as int]@);
                    let c = choose|c: int| 0 <= c < q.len() && #[trigger] q[c].workload_name() == workload_name@;
                    if c != i {
                        assert(q[c].workload_name() != q[i as int].workload_name());
                    }
                }
                return Some(&self.queue[i]);
            }
            assert(q[i as int] == self.queue@[i as int]@);
        }
        None
    }

    pub fn contains_key(&self, workload_name: &String) -> (r: bool)
        requires
            self.wf(),
        ensures
            r == has_key(self@.queue, workload_name@),
    {
        self.get(workload_name).is_some()
    }

    pub fn len(&self) -> (r: usize)
        ensures
            r == self@.queue.len(),
    {
        self.queue.len()
    }

    pub fn is_empty(&self) -> (r: bool)
        ensures
            r == (self@.queue.len() == 0),
    {
        self.queue.len() == 0
    }

    fn report(&mut self, instance_name: WorkloadInstanceName, execution_state: ExecutionState)
        ensures
            final(self)@.queue == old(self)@.queue,
            final(self)@.reports == old(self)@.reports.push(
                WorkloadStateView { instance_name: instance_name@, execution_state },
            ),
    {
        self.reports.push(WorkloadState { instance_name, execution_state });
        assert(self@.reports =~= old(self)@.reports.push(
            WorkloadStateView { instance_name: instance_name@, execution_state },
        ));
    }

    fn report_pending_create_state(&mut self, instance_name: WorkloadInstanceName)
        ensures
            final(self)@.queue == old(self)@.queue,
            final(self)@.reports == old(self)@.reports.push(waiting_to_start(instance_name@)),
    {
        self.report(instance_name, ExecutionState::WaitingToStart);
    }

    fn report_pending_delete_state(&mut self, instance_name: WorkloadInstanceName)
        ensures
            final(self)@.queue == old(self)@.queue,
            final(self)@.reports == old(self)@.reports.push(waiting_to_stop(instance_name@)),
    {
        self.report(instance_name, ExecutionState::WaitingToStop);
    }

    /// Puts `entry` under its workload name, replacing the entry held there.
    pub fn insert(&mut self, entry: PendingEntry)
        requires
            old(self).wf(),
        ensures
            final(self).wf(),
            final(self)@.queue == queue_insert(old(self)@.queue, entry@),
            final(self)@.reports == old(self)@.reports,
    {
        let ghost q = self@.queue;
        let ghost e = entry@;
        proof {
            lemma_queue_insert(q, e);
        }
        let mut i: usize = 0;
        while i < self.queue.len()
            invariant
                q == self@.queue,
                self@.reports == old(self)@.reports,
                q == old(self)@.queue,
                e == entry@,
                keys_unique(q),
                0 <= i <= q.len(),
                forall|j: int| 0 <= j < i ==> #[trigger] q[j].workload_name() != e.workload_name(),
            decreases q.len() - i,
        {
            assert(q[i as int] == self.queue@[i as int]@);
            if *self.queue[i].workload_name() == *entry.workload_name() {
                self.queue.set(i, entry);
                proof {
                    let c = choose|c: int| 0 <= c < q.len() && #[trigger] q[c].workload_name() == e.workload_name();
                    if c != i {
                        assert(q[c].workload_name() != q[i as int].workload_name());
                    }
                    assert(self@.queue =~= q.update(i as int, e));
                }
                return;
            }
            i = i + 1;
        }
        self.queue.push(entry);
        assert(self@.queue =~= q.push(e));
    }

    /// Evaluates every queued entry once against `storage`. Entries whose
    /// dependencies are met leave the queue and their operations are
    /// returned; an update whose delete half is ready emits that half, stays
    /// as its create half, and is reported as waiting to start. Entries that
    /// keep waiting are not reported again.
    pub fn next_workload_operations(&mut self, storage: &ParameterStorage) -> (r: Vec<WorkloadOperation>)
        requires
            old(self).wf(),
            storage.wf(),
        ensures
            final(self).wf(),
            final(self)@.queue == drain_pass(old(self)@.queue, storage@).queue,
            final(self)@.reports == old(self)@.reports + drain_pass(old(self)@.queue, storage@).reports,
            ops_view(r@) == drain_pass(old(self)@.queue, storage@).ready,
    {
        let ghost q = old(self)@.queue;
        let ghost reports0 = old(self)@.reports;
        let mut existing: Vec<PendingEntry> = Vec::new();
        std::mem::swap(&mut existing, &mut self.queue);
        assert(existing@.map_values(|e: PendingEntry| e@) == q);
        let mut ready: Vec<WorkloadOperation> = Vec::new();
        proof {
            assert(self@.queue =~= drain_pass(q.take(0), storage@).queue);
            assert(self@.reports =~= reports0 + drain_pass(q.take(0), storage@).reports);
            assert(ops_view(ready@) =~= drain_pass(q.take(0), storage@).ready);
        }
        for entry in it: existing
            invariant
                q.len() == it.seq().len(),
                forall|j: int| 0 <= j < q.len() ==> #[trigger] q[j] == it.seq()[j]@,
                storage.wf(),
                self@.queue == drain_pass(q.take(it.index() as int), storage@).queue,
                self@.reports == reports0 + drain_pass(q.take(it.index() as int), storage@).reports,
                ops_view(ready@) == drain_pass(q.take(it.index() as int), storage@).ready,
        {
            let ghost k = it.index() as int;
            let ghost before = drain_pass(q.take(k), storage@);
            let ghost self_before = self@;
            let ghost ready_before = ops_view(ready@);
            proof {
                assert(q.take(k + 1).drop_last() =~= q.take(k));
                assert(q.take(k + 1).last() == entry@);
            }
            match entry.next_state(storage) {
                QueueState::Same => {
                    self.queue.push(entry);
                    assert(self@.queue =~= before.queue.push(q[k]));
                },
                QueueState::NewUpdateCreateState(pending_update_create, ready_delete_operation) => {
                    let name = pending_update_create.instance_name();
                    self.report_pending_create_state(name);
                    self.queue.push(pending_update_create);
                    assert(self@.queue =~= self_before.queue.push(pending_update_create@));
                    ready.push(ready_delete_operation);
                    assert(ops_view(ready@) =~= ready_before.push(ready_delete_operation@));
                    assert(self@.reports =~= reports0 + before.reports.push(
                        waiting_to_start(pending_update_create@.instance_name()),
                    ));
                },
                QueueState::Ready(workload_operation) => {
                    ready.push(workload_operation);
                    assert(ops_view(ready@) =~= ready_before.push(workload_operation@));
                },
            }
        }
        proof {
            assert(q.take(q.len() as int) =~= q);
            lemma_drain_pass_keys(q, storage@);
        }
        ready
    }

    /// Takes in new operations, in order: a create is queued; a delete is
    /// queued and reported as waiting to stop; an update is evaluated at once
    /// and either emitted, split into its delete half (emitted) and its create
    /// half (queued, reported as waiting to start), or queued whole (reported
    /// as waiting to stop); an `UpdateDeleteOnly` is dropped. A queued entry
    /// replaces the one held under the same workload name. Then the whole
    /// queue is evaluated once, and its ready operations follow those above.
    pub fn enqueue_filtered_workload_operations(
        &mut self,
        new_workload_operations: Vec<WorkloadOperation>,
        storage: &ParameterStorage,
    ) -> (r: Vec<WorkloadOperation>)
        requires
            old(self).wf(),
            storage.wf(),
        ensures
            final(self).wf(),
            final(self)@.queue == enqueue_filtered(old(self)@.queue, ops_view(new_workload_operations@), storage@).queue,
            final(self)@.reports == old(self)@.reports + enqueue_filtered(
                old(self)@.queue,
                ops_view(new_workload_operations@),
                storage@,
            ).reports,
            ops_view(r@) == enqueue_filtered(old(self)@.queue, ops_view(new_workload_operations@), storage@).ready,
    {
        let ghost ops = ops_view(new_workload_operations@);
        let ghost start = Pass { queue: old(self)@.queue, reports: Seq::empty(), ready: Seq::empty() };
        let ghost reports0 = old(self)@.reports;
        let mut ready: Vec<WorkloadOperation> = Vec::new();
        proof {
            assert(ops.take(0) =~= Seq::<OperationView>::empty());
            assert(self@.reports =~= reports0 + start.reports);
            assert(ops_view(ready@) =~= start.ready);
        }
        for workload_operation in it: new_workload_operations
            invariant
                ops.len() == it.seq().len(),
                forall|j: int| 0 <= j < ops.len() ==> #[trigger] ops[j] == it.seq()[j]@,
                storage.wf(),
                self.wf(),
                self@.queue == enqueue_all(start, ops.take(it.index() as int), storage@).queue,
                self@.reports == reports0 + enqueue_all(start, ops.take(it.index() as int), storage@).reports,
                ops_view(ready@) == enqueue_all(start, ops.take(it.index() as int), storage@).ready,
        {
            let ghost k = it.index() as int;
            let ghost before = enqueue_all(start, ops.take(k), storage@);
            let ghost ready_before = ops_view(ready@);
            proof {
                assert(ops.take(k + 1).drop_last() =~= ops.take(k));
                assert(ops.take(k + 1).last() == workload_operation@);
            }
            match workload_operation {
                WorkloadOperation::Create(new_workload_spec) => {
                    self.insert(PendingEntry::Create(new_workload_spec));
                },
                WorkloadOperation::Update(new_workload_spec, deleted_workload) => {
                    let deleted_name = deleted_workload.instance_name.clone();
                    let pending_update = PendingEntry::UpdateDelete(new_workload_spec, deleted_workload);
                    match pending_update.next_state(storage) {
                        QueueState::Same => {
                            self.report_pending_delete_state(deleted_name);
                            self.insert(pending_update);
                            assert(self@.reports =~= reports0 + before.reports.push(waiting_to_stop(deleted_name@)));
                        },
                        QueueState::NewUpdateCreateState(pending_update_create, ready_delete_operation) => {
                            let name = pending_update_create.instance_name();
                            self.report_pending_create_state(name);
                            self.insert(pending_update_create);
                            ready.push(ready_delete_operation);
                            assert(ops_view(ready@) =~= ready_before.push(ready_delete_operation@));
                            assert(self@.reports =~= reports0 + before.reports.push(
                                waiting_to_start(pending_update_create@.instance_name()),
                            ));
                        },
                        QueueState::Ready(ready_operation) => {
                            ready.push(ready_operation);
                            assert(ops_view(ready@) =~= ready_before.push(ready_operation@));
                        },
                    }
                },
                WorkloadOperation::Delete(deleted_workload) => {
                    let deleted_name = deleted_workload.instance_name.clone();
                    self.report_pending_delete_state(deleted_name);
                    self.insert(PendingEntry::Delete(deleted_workload));
                    assert(self@.reports =~= reports0 + before.reports.push(waiting_to_stop(deleted_name@)));
                },
                WorkloadOperation::UpdateDeleteOnly(_) => {
                    // an output-only operation: never queued
                },
            }
        }
        proof {
            assert(ops.take(ops.len() as int) =~= ops);
        }
        let ghost p = enqueue_all(start, ops, storage@);
        let mut rest = self.next_workload_operations(storage);
        let ghost ready_ops = ops_view(ready@);
        let ghost rest_ops = ops_view(rest@);
        ready.append(&mut rest);
        assert(ops_view(ready@) =~= ready_ops + rest_ops);
        assert(self@.reports =~= reports0 + (p.reports + drain_pass(p.queue, storage@).reports));
        ready
    }
}

} // verus!
