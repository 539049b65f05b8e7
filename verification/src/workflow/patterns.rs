//! Workflows of common shapes.

use vstd::prelude::*;
use crate::routing::Task;
use crate::types::{CapabilityId, NodeId, StepId, TaskId, Timestamp, WorkflowId};
use crate::workflow::{
    is_completed, is_ready, Workflow, WorkflowStatus, WorkflowStep, WorkflowType,
};

verus! {

/// Whether a step is a fresh step of the pattern: pending, given to no node,
/// without a result, with the given identifier, and with a task that comes
/// from `origin` and needs the one capability.
pub open spec fn fresh_step(step: WorkflowStep, id: int, origin: NodeId, cap: CapabilityId) -> bool {
    &&& step.id.0 == id
    &&& step.task.required_caps@ == seq![cap]
    &&& step.task.origin == origin
    &&& step.task.constraints.min_trust.is_none()
    &&& step.task.constraints.min_quality.is_none()
    &&& step.task.constraints.preferred_nodes@.len() == 0
    &&& step.task.constraints.excluded_nodes@.len() == 0
    &&& step.status is Pending
    &&& step.assigned_to.is_none()
    &&& step.result.is_none()
}

/// Whether the steps are a chain over the capabilities: one step for each
/// capability, numbered from zero, each but the first waiting for the one
/// before it.
pub open spec fn is_chain(
    steps: Seq<WorkflowStep>,
    origin: NodeId,
    capabilities: Seq<CapabilityId>,
) -> bool {
    &&& steps.len() == capabilities.len()
    &&& forall|i: int|
        0 <= i < steps.len() ==> fresh_step(#[trigger] steps[i], i, origin, capabilities[i])
    &&& forall|i: int|
        0 <= i < steps.len() ==> (#[trigger] steps[i]).depends_on@ == if i == 0 {
            Seq::<StepId>::empty()
        } else {
            seq![StepId((i - 1) as u64)]
        }
}

/// A chain: one step for each capability, each waiting for the one before
/// it. The workflow and its tasks get random identifiers.
pub fn chain(origin: NodeId, capabilities: Vec<CapabilityId>, now: Timestamp) -> (w: Workflow)
    ensures
        w.wf(),
        w.workflow_type == WorkflowType::Sequential,
        w.status == WorkflowStatus::Pending,
        w.created == now,
        w.started.is_none(),
        w.completed.is_none(),
        w.context.workflow_id == w.id,
        w.context.prior_results@.len() == 0,
        w.context.lineage@.len() == 0,
        is_chain(w.steps@, origin, capabilities@),
{
    let id = WorkflowId::random();
    let mut workflow = Workflow::new(id, WorkflowType::Sequential, now);
    let mut prev_step: Option<StepId> = None;
    let mut i: usize = 0;
    while i < capabilities.len()
        invariant
            i <= capabilities.len(),
            workflow.wf(),
            workflow.id == id,
            workflow.workflow_type == WorkflowType::Sequential,
            workflow.status == WorkflowStatus::Pending,
            workflow.created == now,
            workflow.started.is_none(),
            workflow.completed.is_none(),
            workflow.context.workflow_id == id,
            workflow.context.prior_results@.len() == 0,
            workflow.context.lineage@.len() == 0,
            prev_step == if i == 0 {
                None
            } else {
                Some(StepId((i - 1) as u64))
            },
            is_chain(workflow.steps@, origin, capabilities@.take(i as int)),
        decreases capabilities.len() - i,
    {
        let step_id = StepId::new(i as u64);
        let task = Task::new(TaskId::random(), origin, capabilities[i], now);
        let mut step = WorkflowStep::new(step_id, task);
        if let Some(prev) = prev_step {
            step = step.depends_on(prev);
        }
        let ghost held = workflow.steps@;
        workflow.add_step(step);
        prev_step = Some(step_id);
        proof {
            let caps = capabilities@.take(i as int + 1);
            assert forall|j: int| 0 <= j < workflow.steps@.len() implies fresh_step(
                #[trigger] workflow.steps@[j],
                j,
                origin,
                caps[j],
            ) by {
                if j < i {
                    assert(workflow.steps@[j] == held[j]);
                    assert(capabilities@.take(i as int)[j] == caps[j]);
                }
            }
            assert forall|j: int| 0 <= j < workflow.steps@.len() implies (
            #[trigger] workflow.steps@[j]).depends_on@ == if j == 0 {
                Seq::<StepId>::empty()
            } else {
                seq![StepId((j - 1) as u64)]
            } by {
                if j < i {
                    assert(workflow.steps@[j] == held[j]);
                } else if j > 0 {
                    assert(workflow.steps@[j].depends_on@ =~= seq![StepId((j - 1) as u64)]);
                }
            }
        }
        i += 1;
    }
    assert(capabilities@.take(i as int) =~= capabilities@);
    workflow
}

/// Whether the steps fan out and in: `parallelism` steps that wait for
/// nothing, numbered from zero, and behind them one step that waits for them
/// all.
pub open spec fn is_fan(
    steps: Seq<WorkflowStep>,
    origin: NodeId,
    parallel_cap: CapabilityId,
    parallelism: int,
    merge_cap: CapabilityId,
) -> bool {
    &&& steps.len() == parallelism + 1
    &&& forall|i: int|
        0 <= i < parallelism ==> fresh_step(#[trigger] steps[i], i, origin, parallel_cap)
            && steps[i].depends_on@.len() == 0
    &&& fresh_step(steps[parallelism], parallelism, origin, merge_cap)
    &&& steps[parallelism].depends_on@ == Seq::new(parallelism as nat, |i: int| StepId(i as u64))
}

/// A workflow that fans out and in: `parallelism` steps side by side, and a
/// step that merges what they gave. The workflow and its tasks get random
/// identifiers.
pub fn fan_out_fan_in(
    origin: NodeId,
    parallel_cap: CapabilityId,
    parallelism: usize,
    merge_cap: CapabilityId,
    now: Timestamp,
) -> (w: Workflow)
    ensures
        w.wf(),
        w.workflow_type == WorkflowType::Dag,
        w.status == WorkflowStatus::Pending,
        w.created == now,
        w.started.is_none(),
        w.completed.is_none(),
        w.context.workflow_id == w.id,
        w.context.prior_results@.len() == 0,
        w.context.lineage@.len() == 0,
        is_fan(w.steps@, origin, parallel_cap, parallelism as int, merge_cap),
{
    let id = WorkflowId::random();
    let mut workflow = Workflow::new(id, WorkflowType::Dag, now);
    let merge_step_id = StepId::new(parallelism as u64);
    let merge_task = Task::new(TaskId::random(), origin, merge_cap, now);
    let mut merge_step = WorkflowStep::new(merge_step_id, merge_task);
    let mut i: usize = 0;
    while i < parallelism
        invariant
            i <= parallelism,
            workflow.wf(),
            workflow.id == id,
            workflow.workflow_type == WorkflowType::Dag,
            workflow.status == WorkflowStatus::Pending,
            workflow.created == now,
            workflow.started.is_none(),
            workflow.completed.is_none(),
            workflow.context.workflow_id == id,
            workflow.context.prior_results@.len() == 0,
            workflow.context.lineage@.len() == 0,
            workflow.steps@.len() == i,
            forall|j: int|
                0 <= j < i ==> fresh_step(#[trigger] workflow.steps@[j], j, origin, parallel_cap)
                    && workflow.steps@[j].depends_on@.len() == 0,
            fresh_step(merge_step, parallelism as int, origin, merge_cap),
            merge_step.depends_on@ == Seq::new(i as nat, |j: int| StepId(j as u64)),
        decreases parallelism - i,
    {
        let step_id = StepId::new(i as u64);
        let task = Task::new(TaskId::random(), origin, parallel_cap, now);
        let step = WorkflowStep::new(step_id, task);
        let ghost held = workflow.steps@;
        workflow.add_step(step);
        merge_step = merge_step.depends_on(step_id);
        proof {
            assert forall|j: int| 0 <= j < i + 1 implies fresh_step(
                #[trigger] workflow.steps@[j],
                j,
                origin,
                parallel_cap,
            ) && workflow.steps@[j].depends_on@.len() == 0 by {
                if j < i {
                    assert(workflow.steps@[j] == held[j]);
                }
            }
            assert(merge_step.depends_on@ =~= Seq::new((i + 1) as nat, |j: int| StepId(j as u64)));
        }
        i += 1;
    }
    let ghost held = workflow.steps@;
    workflow.add_step(merge_step);
    proof {
        assert forall|j: int| 0 <= j < parallelism implies fresh_step(
            #[trigger] workflow.steps@[j],
            j,
            origin,
            parallel_cap,
        ) && workflow.steps@[j].depends_on@.len() == 0 by {
            assert(workflow.steps@[j] == held[j]);
        }
    }
    workflow
}

/// In a workflow that fans out and in, the merging step is ready exactly
/// when it is pending and every step beside it is completed.
pub proof fn lemma_merge_waits_for_all(steps: Seq<WorkflowStep>, parallelism: int)
    requires
        0 <= parallelism < 0x1_0000_0000_0000_0000,
        steps.len() == parallelism + 1,
        forall|i: int| 0 <= i <= parallelism ==> (#[trigger] steps[i]).id.0 == i,
        steps[parallelism].depends_on@ == Seq::new(parallelism as nat, |i: int| StepId(i as u64)),
    ensures
        steps[parallelism].depends_on@.len() == parallelism,
        is_ready(steps, steps[parallelism]) == (steps[parallelism].status is Pending && forall|
            i: int,
        | 0 <= i < parallelism ==> (#[trigger] steps[i]).status is Completed),
{
    let merge = steps[parallelism];
    if is_ready(steps, merge) {
        assert forall|i: int| 0 <= i < parallelism implies (#[trigger] steps[i]).status
            is Completed by {
            assert(merge.depends_on@[i] == StepId(i as u64));
            assert(is_completed(steps, merge.depends_on@[i]));
            let j = choose|j: int|
                0 <= j < steps.len() && (#[trigger] steps[j]).id == StepId(i as u64)
                    && steps[j].status is Completed;
            assert(steps[j].id.0 == j);
            assert(j == i);
        }
    }
    if merge.status is Pending && forall|i: int|
        0 <= i < parallelism ==> (#[trigger] steps[i]).status is Completed {
        assert forall|d: int| 0 <= d < merge.depends_on@.len() implies is_completed(
            steps,
            #[trigger] merge.depends_on@[d],
        ) by {
            assert(steps[d].id == StepId(d as u64) && steps[d].status is Completed);
        }
    }
}

} // verus!
