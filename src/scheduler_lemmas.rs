use crate::dependency_state_validator::{create_fulfilled_spec, delete_fulfilled_spec};
use crate::objects::{
    DeletedWorkloadView, ExecutionState, InstanceNameView, WorkloadSpecView, WorkloadStateView,
};
use crate::pending_entry::{next_state_of, PendingEntryView, QueueStateView};
use crate::scheduler::{
    drain_pass, enqueue_all, enqueue_filtered, enqueue_step, entry_at, has_key, keys_unique,
    lemma_drain_pass_keys, lemma_enqueue_all_keys, lemma_queue_insert, waiting_to_start, Pass,
};
use crate::workload_operation::OperationView;
use vstd::prelude::*;

verus! {

/// The operation a transition hands to the runtime layer, if any.
pub open spec fn emitted(t: QueueStateView) -> Option<OperationView> {
    match t {
        QueueStateView::Same => None,
        QueueStateView::NewUpdateCreateState(_, op) => Some(op),
        QueueStateView::Ready(op) => Some(op),
    }
}

/// Some operation of `ops` creates a workload called `name`.
pub open spec fn emits_create_for(ops: Seq<OperationView>, name: Seq<char>) -> bool {
    exists|i: int|
        0 <= i < ops.len() && (#[trigger] ops[i] matches OperationView::Create(s)
            && s.instance_name.workload_name == name)
}

/// The entry that stands in the queue after a transition that keeps one.
pub open spec fn kept_entry(
    e: PendingEntryView,
    storage: Map<InstanceNameView, ExecutionState>,
) -> PendingEntryView {
    match next_state_of(e, storage) {
        QueueStateView::NewUpdateCreateState(n, _) => n,
        _ => e,
    }
}

/// The number of entries of `q` whose delete half becomes ready under `storage`.
pub open spec fn count_splits(
    q: Seq<PendingEntryView>,
    storage: Map<InstanceNameView, ExecutionState>,
) -> nat
    decreases q.len(),
{
    if q.len() == 0 {
        0
    } else {
        count_splits(q.drop_last(), storage) + if next_state_of(q.last(), storage) is NewUpdateCreateState {
            1nat
        } else {
            0nat
        }
    }
}

proof fn lemma_entry_at_index(q: Seq<PendingEntryView>, i: int)
    requires
        keys_unique(q),
        0 <= i < q.len(),
    ensures
        has_key(q, q[i].workload_name()),
        entry_at(q, q[i].workload_name()) == q[i],
{
    let name = q[i].workload_name();
    assert(has_key(q, name));
    let j = choose|j: int| 0 <= j < q.len() && #[trigger] q[j].workload_name() == name;
    if j != i {
        assert(q[j].workload_name() != q[i].workload_name());
    }
}

proof fn lemma_prefix_unique(q: Seq<PendingEntryView>)
    requires
        keys_unique(q),
        q.len() > 0,
    ensures
        keys_unique(q.drop_last()),
        !has_key(q.drop_last(), q.last().workload_name()),
        forall|name: Seq<char>|
            name != q.last().workload_name() ==> #[trigger] has_key(q, name) == has_key(
                q.drop_last(),
                name,
            ),
        forall|name: Seq<char>|
            name != q.last().workload_name() && has_key(q, name) ==> #[trigger] entry_at(q, name)
                == entry_at(q.drop_last(), name),
{
    let q0 = q.drop_last();
    let n = q.len() - 1;
    assert forall|a: int, b: int| 0 <= a < q0.len() && 0 <= b < q0.len() && a != b implies #[trigger] q0[a].workload_name()
        != #[trigger] q0[b].workload_name() by {
        assert(q[a] == q0[a] && q[b] == q0[b]);
    }
    if has_key(q0, q.last().workload_name()) {
        let j = choose|j: int| 0 <= j < q0.len() && #[trigger] q0[j].workload_name() == q.last().workload_name();
        assert(q[j] == q0[j]);
        assert(q[j].workload_name() != q[n].workload_name());
    }
    assert forall|name: Seq<char>| name != q.last().workload_name() implies #[trigger] has_key(q, name) == has_key(q0, name) by {
        if has_key(q, name) {
            let j = choose|j: int| 0 <= j < q.len() && #[trigger] q[j].workload_name() == name;
            assert(j != n);
            assert(q0[j].workload_name() == name);
        }
        if has_key(q0, name) {
            let j = choose|j: int| 0 <= j < q0.len() && #[trigger] q0[j].workload_name() == name;
            assert(q[j].workload_name() == name);
        }
    }
    assert forall|name: Seq<char>| name != q.last().workload_name() && has_key(q, name) implies #[trigger] entry_at(q, name)
        == entry_at(q0, name) by {
        let j = choose|j: int| 0 <= j < q.len() && #[trigger] q[j].workload_name() == name;
        assert(j != n);
        lemma_entry_at_index(q, j);
        lemma_entry_at_index(q0, j);
        assert(q[j] == q0[j]);
    }
}

/// After a pass, the queue holds an entry under a name exactly when it held
/// one before and that entry did not become ready; the entry is the old one,
/// or its create half where the delete half became ready.
pub proof fn lemma_drain_pass_entries(
    q: Seq<PendingEntryView>,
    storage: Map<InstanceNameView, ExecutionState>,
)
    requires
        keys_unique(q),
    ensures
        forall|name: Seq<char>|
            #[trigger] has_key(drain_pass(q, storage).queue, name) == (has_key(q, name)
                && !(next_state_of(entry_at(q, name), storage) is Ready)),
        forall|name: Seq<char>|
            has_key(drain_pass(q, storage).queue, name) ==> #[trigger] entry_at(
                drain_pass(q, storage).queue,
                name,
            ) == kept_entry(entry_at(q, name), storage),
    decreases q.len(),
{
    if q.len() > 0 {
        let q0 = q.drop_last();
        let e = q.last();
        let k = e.workload_name();
        lemma_prefix_unique(q);
        lemma_drain_pass_entries(q0, storage);
        lemma_drain_pass_keys(q0, storage);
        lemma_drain_pass_keys(q, storage);
        lemma_entry_at_index(q, q.len() - 1);
        let r0 = drain_pass(q0, storage).queue;
        let r = drain_pass(q, storage).queue;
        assert(!has_key(r0, k));
        assert forall|name: Seq<char>| name != k implies #[trigger] has_key(r, name) == has_key(r0, name) by {
            if has_key(r, name) {
                let j = choose|j: int| 0 <= j < r.len() && #[trigger] r[j].workload_name() == name;
                if j < r0.len() {
                    assert(r0[j] == r[j]);
                } else {
                    assert(r[j].workload_name() == k);
                }
            }
            if has_key(r0, name) {
                let j = choose|j: int| 0 <= j < r0.len() && #[trigger] r0[j].workload_name() == name;
                assert(r[j] == r0[j]);
            }
        }
        assert forall|name: Seq<char>| has_key(r, name) implies #[trigger] entry_at(r, name) == kept_entry(entry_at(q, name), storage) by {
            let j = choose|j: int| 0 <= j < r.len() && #[trigger] r[j].workload_name() == name;
            lemma_entry_at_index(r, j);
            if j < r0.len() {
                assert(r0[j] == r[j]);
                lemma_entry_at_index(r0, j);
                assert(name != k);
            } else {
                assert(name == k);
            }
        }
        assert forall|name: Seq<char>|
            #[trigger] has_key(r, name) == (has_key(q, name) && !(next_state_of(entry_at(q, name), storage) is Ready)) by {
            if name == k {
                if !(next_state_of(e, storage) is Ready) {
                    assert(r[r.len() - 1].workload_name() == k);
                } else {
                    assert(r == r0);
                }
            }
        }
    }
}

/// Every operation a pass emits comes from an entry of the queue, and every
/// entry that emits an operation has it among the pass's ready operations.
pub proof fn lemma_drain_pass_ready(
    q: Seq<PendingEntryView>,
    storage: Map<InstanceNameView, ExecutionState>,
)
    ensures
        forall|i: int|
            #![trigger drain_pass(q, storage).ready[i]]
            0 <= i < drain_pass(q, storage).ready.len() ==> exists|j: int|
                0 <= j < q.len() && emitted(#[trigger] next_state_of(q[j], storage)) == Some(
                    drain_pass(q, storage).ready[i],
                ),
        forall|j: int|
            0 <= j < q.len() && emitted(#[trigger] next_state_of(q[j], storage)) is Some
                ==> drain_pass(q, storage).ready.contains(
                emitted(next_state_of(q[j], storage))->0,
            ),
    decreases q.len(),
{
    if q.len() > 0 {
        let q0 = q.drop_last();
        lemma_drain_pass_ready(q0, storage);
        let r0 = drain_pass(q0, storage).ready;
        let r = drain_pass(q, storage).ready;
        let n = q.len() - 1;
        assert forall|i: int| #![trigger r[i]] 0 <= i < r.len() implies exists|j: int|
            0 <= j < q.len() && emitted(#[trigger] next_state_of(q[j], storage)) == Some(r[i]) by {
            if i < r0.len() {
                assert(r[i] == r0[i]);
                let j = choose|j: int| 0 <= j < q0.len() && emitted(#[trigger] next_state_of(q0[j], storage)) == Some(r0[i]);
                assert(q[j] == q0[j]);
            } else {
                assert(emitted(next_state_of(q[n], storage)) == Some(r[i]));
            }
        }
        assert forall|j: int| 0 <= j < q.len() && emitted(#[trigger] next_state_of(q[j], storage)) is Some
            implies r.contains(emitted(next_state_of(q[j], storage))->0) by {
            let o = emitted(next_state_of(q[j], storage))->0;
            if j < n {
                assert(q[j] == q0[j]);
                assert(r0.contains(o));
                let i = choose|i: int| 0 <= i < r0.len() && r0[i] == o;
                assert(r[i] == o);
            } else {
                assert(r[r.len() - 1] == o);
            }
        }
    }
}

/// A queue with one entry per workload name keeps that shape through a call
/// of `next_workload_operations` and of `enqueue_filtered_workload_operations`.
pub proof fn lemma_one_entry_per_name(
    q: Seq<PendingEntryView>,
    ops: Seq<OperationView>,
    storage: Map<InstanceNameView, ExecutionState>,
)
    requires
        keys_unique(q),
    ensures
        keys_unique(drain_pass(q, storage).queue),
        keys_unique(enqueue_filtered(q, ops, storage).queue),
{
    lemma_drain_pass_keys(q, storage);
    let start = Pass { queue: q, reports: Seq::empty(), ready: Seq::empty() };
    lemma_enqueue_all_keys(start, ops, storage);
    lemma_drain_pass_keys(enqueue_all(start, ops, storage).queue, storage);
}

/// A pending create half never emits a delete: it either waits or becomes the
/// whole update.
pub proof fn lemma_update_create_emits_no_delete(
    s: WorkloadSpecView,
    d: DeletedWorkloadView,
    storage: Map<InstanceNameView, ExecutionState>,
)
    ensures
        next_state_of(PendingEntryView::UpdateCreate(s, d), storage) == (if create_fulfilled_spec(
            s,
            storage,
        ) {
            QueueStateView::Ready(OperationView::Update(s, d))
        } else {
            QueueStateView::Same
        }),
{
}

/// In a pass, an entry that is a pending create half afterwards either was
/// that same entry before, or was the whole update before and the pass
/// emitted its delete half.
pub proof fn lemma_update_create_after_delete_half(
    q: Seq<PendingEntryView>,
    storage: Map<InstanceNameView, ExecutionState>,
    name: Seq<char>,
    s: WorkloadSpecView,
    d: DeletedWorkloadView,
)
    requires
        keys_unique(q),
        has_key(drain_pass(q, storage).queue, name),
        entry_at(drain_pass(q, storage).queue, name) == PendingEntryView::UpdateCreate(s, d),
    ensures
        has_key(q, name),
        entry_at(q, name) == PendingEntryView::UpdateCreate(s, d) || (entry_at(q, name)
            == PendingEntryView::UpdateDelete(s, d) && drain_pass(q, storage).ready.contains(
            OperationView::UpdateDeleteOnly(d),
        )),
{
    lemma_drain_pass_entries(q, storage);
    lemma_drain_pass_ready(q, storage);
    let e = entry_at(q, name);
    let j = choose|j: int| 0 <= j < q.len() && #[trigger] q[j].workload_name() == name;
    lemma_entry_at_index(q, j);
    if next_state_of(e, storage) is NewUpdateCreateState {
        assert(emitted(next_state_of(q[j], storage)) is Some);
    }
}

/// A pass emits no create for a workload name under which a delete is pending.
pub proof fn lemma_no_create_while_delete_pending(
    q: Seq<PendingEntryView>,
    storage: Map<InstanceNameView, ExecutionState>,
    d: DeletedWorkloadView,
)
    requires
        keys_unique(q),
        has_key(q, d.instance_name.workload_name),
        entry_at(q, d.instance_name.workload_name) == PendingEntryView::Delete(d),
    ensures
        !emits_create_for(drain_pass(q, storage).ready, d.instance_name.workload_name),
{
    lemma_drain_pass_ready(q, storage);
    let r = drain_pass(q, storage).ready;
    let name = d.instance_name.workload_name;
    if emits_create_for(r, name) {
        let i = choose|i: int|
            0 <= i < r.len() && (#[trigger] r[i] matches OperationView::Create(s)
                && s.instance_name.workload_name == name);
        if r[i] matches OperationView::Create(s) && s.instance_name.workload_name == name {
            let j = choose|j: int| 0 <= j < q.len() && emitted(#[trigger] next_state_of(q[j], storage)) == Some(r[i]);
            assert(q[j] matches PendingEntryView::Create(_));
            lemma_entry_at_index(q, j);
            assert(q[j].workload_name() == name);
        }
    }
}

/// A pass sends one report for each entry whose delete half becomes ready,
/// and none for the entries that keep waiting.
pub proof fn lemma_reports_count_splits(
    q: Seq<PendingEntryView>,
    storage: Map<InstanceNameView, ExecutionState>,
)
    ensures
        drain_pass(q, storage).reports.len() == count_splits(q, storage),
    decreases q.len(),
{
    if q.len() > 0 {
        lemma_reports_count_splits(q.drop_last(), storage);
    }
}

/// An update whose create and delete dependencies are both met is emitted at
/// once, as it is, and nothing is queued or reported for it.
pub proof fn lemma_fulfilled_update_not_queued(
    p: Pass,
    s: WorkloadSpecView,
    d: DeletedWorkloadView,
    storage: Map<InstanceNameView, ExecutionState>,
)
    requires
        create_fulfilled_spec(s, storage),
        delete_fulfilled_spec(d, storage),
    ensures
        enqueue_step(p, OperationView::Update(s, d), storage) == (Pass {
            queue: p.queue,
            reports: p.reports,
            ready: p.ready.push(OperationView::Update(s, d)),
        }),
{
}

/// A create enqueued on an empty queue while its dependencies are not met is
/// emitted exactly once, by the first pass after they are met, which leaves
/// the queue empty.
pub proof fn lemma_create_round_trip(
    s: WorkloadSpecView,
    before: Map<InstanceNameView, ExecutionState>,
    after: Map<InstanceNameView, ExecutionState>,
)
    requires
        !create_fulfilled_spec(s, before),
        create_fulfilled_spec(s, after),
    ensures
        enqueue_filtered(Seq::empty(), seq![OperationView::Create(s)], before).ready == Seq::<
            OperationView,
        >::empty(),
        enqueue_filtered(Seq::empty(), seq![OperationView::Create(s)], before).queue == seq![
            PendingEntryView::Create(s),
        ],
        drain_pass(enqueue_filtered(Seq::empty(), seq![OperationView::Create(s)], before).queue, after).ready
            == seq![OperationView::Create(s)],
        drain_pass(enqueue_filtered(Seq::empty(), seq![OperationView::Create(s)], before).queue, after).queue
            == Seq::<PendingEntryView>::empty(),
{
    let ops = seq![OperationView::Create(s)];
    let start = Pass { queue: Seq::empty(), reports: Seq::empty(), ready: Seq::empty() };
    assert(ops.drop_last() =~= Seq::<OperationView>::empty());
    let e = PendingEntryView::Create(s);
    assert(!has_key(Seq::<PendingEntryView>::empty(), e.workload_name()));
    assert(enqueue_all(start, ops.drop_last(), before) == start);
    assert(ops.last() == OperationView::Create(s));
    let q1 = enqueue_all(start, ops, before).queue;
    assert(q1 == seq![e]) by {
        assert(Seq::<PendingEntryView>::empty().push(e) =~= seq![e]);
    }
    assert(seq![e].drop_last() =~= Seq::<PendingEntryView>::empty());
    assert(seq![e].last() == e);
    assert(drain_pass(seq![e].drop_last(), before) == drain_pass(Seq::<PendingEntryView>::empty(), before));
    assert(drain_pass(seq![e].drop_last(), after) == drain_pass(Seq::<PendingEntryView>::empty(), after));
    let d1 = drain_pass(q1, before);
    assert(d1.ready =~= Seq::<OperationView>::empty());
    assert(Seq::<OperationView>::empty() + Seq::<OperationView>::empty() =~= Seq::<OperationView>::empty());
    assert(d1.queue =~= seq![e]);
    let d2 = drain_pass(seq![e], after);
    assert(d2.ready =~= seq![OperationView::Create(s)]);
    assert(d2.queue =~= Seq::<PendingEntryView>::empty());
}

/// An update enqueued on an empty queue while only its delete dependencies
/// are met emits its delete half at once and is reported as waiting to start;
/// the first pass after its create dependencies are met emits the whole
/// update, reports nothing, and leaves the queue empty.
pub proof fn lemma_update_round_trip(
    s: WorkloadSpecView,
    d: DeletedWorkloadView,
    before: Map<InstanceNameView, ExecutionState>,
    after: Map<InstanceNameView, ExecutionState>,
)
    requires
        delete_fulfilled_spec(d, before),
        !create_fulfilled_spec(s, before),
        create_fulfilled_spec(s, after),
    ensures
        enqueue_filtered(Seq::empty(), seq![OperationView::Update(s, d)], before).ready == seq![
            OperationView::UpdateDeleteOnly(d),
        ],
        enqueue_filtered(Seq::empty(), seq![OperationView::Update(s, d)], before).reports == seq![
            waiting_to_start(s.instance_name),
        ],
        drain_pass(enqueue_filtered(Seq::empty(), seq![OperationView::Update(s, d)], before).queue, after).ready
            == seq![OperationView::Update(s, d)],
        drain_pass(enqueue_filtered(Seq::empty(), seq![OperationView::Update(s, d)], before).queue, after).reports
            == Seq::<WorkloadStateView>::empty(),
        drain_pass(enqueue_filtered(Seq::empty(), seq![OperationView::Update(s, d)], before).queue, after).queue
            == Seq::<PendingEntryView>::empty(),
{
    let ops = seq![OperationView::Update(s, d)];
    let start = Pass { queue: Seq::empty(), reports: Seq::empty(), ready: Seq::empty() };
    assert(ops.drop_last() =~= Seq::<OperationView>::empty());
    let e = PendingEntryView::UpdateCreate(s, d);
    assert(!has_key(Seq::<PendingEntryView>::empty(), e.workload_name()));
    assert(enqueue_all(start, ops.drop_last(), before) == start);
    assert(ops.last() == OperationView::Update(s, d));
    let p1 = enqueue_all(start, ops, before);
    assert(p1.queue == seq![e]) by {
        assert(Seq::<PendingEntryView>::empty().push(e) =~= seq![e]);
    }
    assert(seq![e].last() == e);
    assert(drain_pass(seq![e].drop_last(), before) == drain_pass(Seq::<PendingEntryView>::empty(), before));
    assert(drain_pass(seq![e].drop_last(), after) == drain_pass(Seq::<PendingEntryView>::empty(), after));
    assert(p1.ready =~= seq![OperationView::UpdateDeleteOnly(d)]);
    assert(p1.reports =~= seq![waiting_to_start(s.instance_name)]);
    assert(seq![e].drop_last() =~= Seq::<PendingEntryView>::empty());
    let d1 = drain_pass(p1.queue, before);
    assert(d1.ready =~= Seq::<OperationView>::empty());
    assert(d1.reports =~= Seq::<WorkloadStateView>::empty());
    assert(d1.queue =~= seq![e]);
    assert(p1.ready + d1.ready =~= p1.ready);
    assert(p1.reports + d1.reports =~= p1.reports);
    let d2 = drain_pass(seq![e], after);
    assert(d2.ready =~= seq![OperationView::Update(s, d)]);
    assert(d2.reports =~= Seq::<WorkloadStateView>::empty());
    assert(d2.queue =~= Seq::<PendingEntryView>::empty());
}

proof fn lemma_enqueue_all_ready_grows(
    p: Pass,
    ops: Seq<OperationView>,
    storage: Map<InstanceNameView, ExecutionState>,
)
    ensures
        p.ready.len() <= enqueue_all(p, ops, storage).ready.len(),
        forall|i: int| 0 <= i < p.ready.len() ==> #[trigger] enqueue_all(p, ops, storage).ready[i] == p.ready[i],
    decreases ops.len(),
{
    if ops.len() > 0 {
        lemma_enqueue_all_ready_grows(p, ops.drop_last(), storage);
    }
}

proof fn lemma_enqueue_all_update_create(
    p: Pass,
    ops: Seq<OperationView>,
    storage: Map<InstanceNameView, ExecutionState>,
    name: Seq<char>,
    s: WorkloadSpecView,
    d: DeletedWorkloadView,
)
    requires
        keys_unique(p.queue),
        has_key(enqueue_all(p, ops, storage).queue, name),
        entry_at(enqueue_all(p, ops, storage).queue, name) == PendingEntryView::UpdateCreate(s, d),
    ensures
        (has_key(p.queue, name) && entry_at(p.queue, name) == PendingEntryView::UpdateCreate(s, d))
            || enqueue_all(p, ops, storage).ready.contains(OperationView::UpdateDeleteOnly(d)),
    decreases ops.len(),
{
    if ops.len() > 0 {
        let p0 = enqueue_all(p, ops.drop_last(), storage);
        let r = enqueue_all(p, ops, storage);
        lemma_enqueue_all_keys(p, ops.drop_last(), storage);
        let target = PendingEntryView::UpdateCreate(s, d);
        let udo = OperationView::UpdateDeleteOnly(d);
        // the entry under `name` either is put there by the last operation,
        // or stood there before it
        let carried = has_key(p0.queue, name) && entry_at(p0.queue, name) == target;
        match ops.last() {
            OperationView::Create(s1) => {
                lemma_queue_insert(p0.queue, PendingEntryView::Create(s1));
            },
            OperationView::Delete(d1) => {
                lemma_queue_insert(p0.queue, PendingEntryView::Delete(d1));
            },
            OperationView::Update(s1, d1) => {
                lemma_queue_insert(p0.queue, PendingEntryView::UpdateDelete(s1, d1));
                lemma_queue_insert(p0.queue, PendingEntryView::UpdateCreate(s1, d1));
                if next_state_of(PendingEntryView::UpdateDelete(s1, d1), storage) is NewUpdateCreateState
                    && name == s1.instance_name.workload_name {
                    assert(r.ready[r.ready.len() - 1] == udo);
                }
            },
            OperationView::UpdateDeleteOnly(_) => {},
        }
        if carried {
            lemma_enqueue_all_update_create(p, ops.drop_last(), storage, name, s, d);
            if p0.ready.contains(udo) {
                let i = choose|i: int| 0 <= i < p0.ready.len() && p0.ready[i] == udo;
                assert(r.ready[i] == udo);
            }
        }
    }
}

/// A call of `enqueue_filtered_workload_operations` leaves a pending create
/// half under a name only where that same entry stood there before the call,
/// or where the call emitted the delete half of its update.
pub proof fn lemma_enqueue_update_create_after_delete_half(
    q: Seq<PendingEntryView>,
    ops: Seq<OperationView>,
    storage: Map<InstanceNameView, ExecutionState>,
    name: Seq<char>,
    s: WorkloadSpecView,
    d: DeletedWorkloadView,
)
    requires
        keys_unique(q),
        has_key(enqueue_filtered(q, ops, storage).queue, name),
        entry_at(enqueue_filtered(q, ops, storage).queue, name) == PendingEntryView::UpdateCreate(s, d),
    ensures
        (has_key(q, name) && entry_at(q, name) == PendingEntryView::UpdateCreate(s, d))
            || enqueue_filtered(q, ops, storage).ready.contains(OperationView::UpdateDeleteOnly(d)),
{
    let start = Pass { queue: q, reports: Seq::empty(), ready: Seq::empty() };
    let p = enqueue_all(start, ops, storage);
    let dp = drain_pass(p.queue, storage);
    let r = enqueue_filtered(q, ops, storage);
    let udo = OperationView::UpdateDeleteOnly(d);
    lemma_enqueue_all_keys(start, ops, storage);
    lemma_update_create_after_delete_half(p.queue, storage, name, s, d);
    if entry_at(p.queue, name) == PendingEntryView::UpdateCreate(s, d) {
        lemma_enqueue_all_update_create(start, ops, storage, name, s, d);
        if p.ready.contains(udo) {
            let i = choose|i: int| 0 <= i < p.ready.len() && p.ready[i] == udo;
            assert(r.ready[i] == udo);
        }
    } else {
        let i = choose|i: int| 0 <= i < dp.ready.len() && dp.ready[i] == udo;
        assert(r.ready[p.ready.len() + i] == udo);
    }
}

proof fn lemma_enqueue_all_emits_no_create(
    p: Pass,
    ops: Seq<OperationView>,
    storage: Map<InstanceNameView, ExecutionState>,
)
    ensures
        forall|i: int|
            p.ready.len() <= i < enqueue_all(p, ops, storage).ready.len() ==> !(
            #[trigger] enqueue_all(p, ops, storage).ready[i] is Create),
    decreases ops.len(),
{
    if ops.len() > 0 {
        lemma_enqueue_all_emits_no_create(p, ops.drop_last(), storage);
        lemma_enqueue_all_ready_grows(p, ops.drop_last(), storage);
    }
}

/// A call of `enqueue_filtered_workload_operations` emits no create for a
/// workload name under which a delete is pending once the new operations are
/// taken in: creates are only emitted by the pass that follows them.
pub proof fn lemma_enqueue_no_create_while_delete_pending(
    q: Seq<PendingEntryView>,
    ops: Seq<OperationView>,
    storage: Map<InstanceNameView, ExecutionState>,
    d: DeletedWorkloadView,
)
    requires
        keys_unique(q),
        has_key(
            enqueue_all(Pass { queue: q, reports: Seq::empty(), ready: Seq::empty() }, ops, storage).queue,
            d.instance_name.workload_name,
        ),
        entry_at(
            enqueue_all(Pass { queue: q, reports: Seq::empty(), ready: Seq::empty() }, ops, storage).queue,
            d.instance_name.workload_name,
        ) == PendingEntryView::Delete(d),
    ensures
        !emits_create_for(enqueue_filtered(q, ops, storage).ready, d.instance_name.workload_name),
{
    let start = Pass { queue: q, reports: Seq::empty(), ready: Seq::empty() };
    let p = enqueue_all(start, ops, storage);
    let dp = drain_pass(p.queue, storage);
    let r = enqueue_filtered(q, ops, storage);
    lemma_enqueue_all_keys(start, ops, storage);
    lemma_enqueue_all_emits_no_create(start, ops, storage);
    lemma_no_create_while_delete_pending(p.queue, storage, d);
    if emits_create_for(r.ready, d.instance_name.workload_name) {
        let i = choose|i: int|
            0 <= i < r.ready.len() && (#[trigger] r.ready[i] matches OperationView::Create(s)
                && s.instance_name.workload_name == d.instance_name.workload_name);
        if i < p.ready.len() {
            assert(r.ready[i] == p.ready[i]);
        } else {
            assert(r.ready[i] == dp.ready[i - p.ready.len()]);
        }
    }
}

} // verus!
