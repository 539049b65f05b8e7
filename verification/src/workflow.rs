//! Workflows: tasks in steps, of which some wait for others.

use vstd::prelude::*;
use crate::node::Node;
use crate::routing::{route_task, routes_to, RoutingFactors, RoutingResult, Task};
use crate::scalar::{bump, bumped};
use crate::table::Table;
use crate::types::{
    contains_node, copy_bytes, NodeId, Real, Score, StepId, Timestamp, WorkflowId,
};

pub mod patterns;

verus! {

/// The shape of a workflow.
#[derive(Clone, Copy, Debug, PartialEq, Eq, Structural, Hash)]
pub enum WorkflowType {
    /// One task for one node.
    Single,
    /// One step after the other.
    Sequential,
    /// All steps at once.
    Parallel,
    /// Steps that wait for other steps, without a cycle.
    Dag,
}

/// How far a workflow is.
#[derive(Clone, Copy, Debug, PartialEq, Eq, Structural, Hash)]
pub enum WorkflowStatus {
    /// Not begun.
    Pending,
    /// Begun, and not at its end.
    Running,
    /// At its end, with no step failed.
    Completed,
    /// At its end, with a step failed.
    Failed,
    /// Given up.
    Cancelled,
}

/// How far a step is.
#[derive(Clone, Copy, Debug, PartialEq, Eq, Structural, Hash)]
pub enum StepStatus {
    /// Waits for other steps.
    Pending,
    /// Waits for nothing, and is not begun.
    Ready,
    /// Begun.
    Running,
    /// Done, with success.
    Completed,
    /// Done, without success.
    Failed,
    /// Left out.
    Skipped,
}

/// What a step gave.
#[derive(Debug)]
pub struct StepResult {
    /// The step.
    pub step_id: StepId,
    /// Whether the step succeeded.
    pub success: bool,
    /// What the step put out.
    pub output: Vec<u8>,
    /// The quality of the result.
    pub quality: Score,
    /// The node that did the step.
    pub executor: NodeId,
    /// How long the step took, in milliseconds.
    pub duration_ms: u64,
}

/// What a step gave, as plain values.
pub struct StepResultView {
    pub step_id: StepId,
    pub success: bool,
    pub output: Seq<u8>,
    pub quality: Score,
    pub executor: NodeId,
    pub duration_ms: u64,
}

impl View for StepResult {
    type V = StepResultView;

    open spec fn view(&self) -> StepResultView {
        StepResultView {
            step_id: self.step_id,
            success: self.success,
            output: self.output@,
            quality: self.quality,
            executor: self.executor,
            duration_ms: self.duration_ms,
        }
    }
}

impl StepResult {
    /// A copy of the result.
    pub fn duplicate(&self) -> (r: Self)
        ensures
            r@ == self@,
    {
        Self {
            step_id: self.step_id,
            success: self.success,
            output: copy_bytes(&self.output),
            quality: self.quality,
            executor: self.executor,
            duration_ms: self.duration_ms,
        }
    }
}

/// A step of a workflow.
#[derive(Debug)]
pub struct WorkflowStep {
    /// The identifier.
    pub id: StepId,
    /// The task of the step.
    pub task: Task,
    /// The node that the step is given to, once it is given to one.
    pub assigned_to: Option<NodeId>,
    /// The steps that this step waits for.
    pub depends_on: Vec<StepId>,
    /// How far the step is.
    pub status: StepStatus,
    /// What the step gave, once it is done.
    pub result: Option<StepResult>,
}

/// Whether `id` is among `ids`.
fn step_among(ids: &[StepId], id: StepId) -> (r: bool)
    ensures
        r == ids@.contains(id),
{
    let mut i: usize = 0;
    while i < ids.len()
        invariant
            i <= ids.len(),
            forall|j: int| 0 <= j < i ==> ids@[j] != id,
        decreases ids.len() - i,
    {
        if ids[i].0 == id.0 {
            return true;
        }
        i += 1;
    }
    false
}

impl WorkflowStep {
    /// Whether every step that this step waits for is among `completed`.
    pub open spec fn satisfied_by(&self, completed: Seq<StepId>) -> bool {
        forall|i: int|
            0 <= i < self.depends_on@.len() ==> completed.contains(#[trigger] self.depends_on@[i])
    }

    /// A pending step that waits for no other step and is given to no node.
    pub fn new(id: StepId, task: Task) -> (s: Self)
        ensures
            s.id == id,
            s.task == task,
            s.assigned_to.is_none(),
            s.depends_on@.len() == 0,
            s.status == StepStatus::Pending,
            s.result.is_none(),
    {
        Self {
            id,
            task,
            assigned_to: None,
            depends_on: Vec::new(),
            status: StepStatus::Pending,
            result: None,
        }
    }

    /// The same step, waiting for one step more.
    pub fn depends_on(self, step_id: StepId) -> (s: Self)
        ensures
            s.depends_on@ == self.depends_on@.push(step_id),
            s == (WorkflowStep { depends_on: s.depends_on, ..self }),
    {
        let mut s = self;
        s.depends_on.push(step_id);
        s
    }

    /// Whether every step that this step waits for is among `completed_steps`.
    pub fn dependencies_satisfied(&self, completed_steps: &[StepId]) -> (r: bool)
        ensures
            r == self.satisfied_by(completed_steps@),
    {
        let mut i: usize = 0;
        while i < self.depends_on.len()
            invariant
                i <= self.depends_on.len(),
                forall|j: int| 0 <= j < i ==> completed_steps@.contains(#[trigger] self.depends_on@[j]),
            decreases self.depends_on.len() - i,
        {
            if !step_among(completed_steps, self.depends_on[i]) {
                return false;
            }
            i += 1;
        }
        true
    }
}

/// What a workflow has gathered while it ran.
#[derive(Debug)]
pub struct WorkflowContext {
    /// The workflow.
    pub workflow_id: WorkflowId,
    /// The number of results that were taken in.
    pub step_index: u32,
    /// The results of the steps that are done, in the order in which they
    /// came.
    pub prior_results: Vec<StepResult>,
    /// Named data.
    pub data: DataStore,
    /// The nodes that have worked on the workflow, each once, in the order
    /// in which they first did.
    pub lineage: Vec<NodeId>,
}

/// Data by name.
#[derive(Debug)]
pub struct DataStore {
    names: Vec<String>,
    values: Vec<Vec<u8>>,
}

impl DataStore {
    /// The names, in the order in which they were first set.
    pub closed spec fn names(&self) -> Seq<Seq<char>> {
        Seq::new(self.names@.len(), |i: int| self.names@[i]@)
    }

    /// The data, each at the place of its name.
    pub closed spec fn values(&self) -> Seq<Seq<u8>> {
        Seq::new(self.values@.len(), |i: int| self.values@[i]@)
    }

    /// Every name has data, and no name occurs twice.
    pub open spec fn wf(&self) -> bool {
        self.names().len() == self.values().len() && self.names().no_duplicates()
    }

    /// The store as a map.
    pub open spec fn view_map(&self) -> Map<Seq<char>, Seq<u8>> {
        Map::new(
            |name: Seq<char>| self.names().contains(name),
            |name: Seq<char>| self.values()[self.names().index_of(name)],
        )
    }

    /// An empty store.
    pub fn new() -> (d: Self)
        ensures
            d.wf(),
            d.view_map() == Map::<Seq<char>, Seq<u8>>::empty(),
            d.names().len() == 0,
    {
        let d = Self { names: Vec::new(), values: Vec::new() };
        assert(d.view_map() =~= Map::<Seq<char>, Seq<u8>>::empty());
        d
    }

    /// The place of a name, if the store holds it.
    fn position(&self, name: &str) -> (r: Option<usize>)
        requires
            self.wf(),
        ensures
            match r {
                Some(i) => i < self.names().len() && self.names()[i as int] == name@
                    && self.names().index_of(name@) == i,
                None => !self.names().contains(name@),
            },
    {
        let wanted = name.to_owned();
        let mut i: usize = 0;
        while i < self.names.len()
            invariant
                self.wf(),
                i <= self.names.len(),
                wanted@ == name@,
                forall|j: int| 0 <= j < i ==> self.names()[j] != name@,
            decreases self.names.len() - i,
        {
            if self.names[i] == wanted {
                proof {
                    assert(self.names()[i as int] == name@);
                    let j = self.names().index_of(name@);
                    assert(self.names().contains(name@));
                    assert(self.names()[j] == name@);
                }
                return Some(i);
            }
            i += 1;
        }
        None
    }

    /// Sets the data of a name.
    pub fn set(&mut self, name: &str, value: Vec<u8>)
        requires
            old(self).wf(),
        ensures
            final(self).wf(),
            final(self).view_map() == old(self).view_map().insert(name@, value@),
            final(self).names() == if old(self).names().contains(name@) {
                old(self).names()
            } else {
                old(self).names().push(name@)
            },
    {
        match self.position(name) {
            Some(i) => {
                self.values[i] = value;
                proof {
                    assert(self.names() =~= old(self).names());
                    assert(self.values() =~= old(self).values().update(i as int, value@));
                    assert(self.view_map() =~= old(self).view_map().insert(name@, value@)) by {
                        assert forall|other: Seq<char>| self.names().contains(other) implies (
                        #[trigger] self.view_map()[other]) == old(self).view_map().insert(
                            name@,
                            value@,
                        )[other] by {
                            let j = self.names().index_of(other);
                            assert(self.names()[j] == other);
                        }
                    }
                }
            },
            None => {
                self.names.push(name.to_owned());
                self.values.push(value);
                proof {
                    let before = old(self).names();
                    let after = self.names();
                    assert(after =~= before.push(name@));
                    assert(self.values() =~= old(self).values().push(value@));
                    assert(after[before.len() as int] == name@);
                    assert(self.view_map() =~= old(self).view_map().insert(name@, value@)) by {
                        assert forall|other: Seq<char>|
                            before.push(name@).contains(other) == (before.contains(other) || other
                                == name@) by {
                            if before.contains(other) {
                                let j = before.index_of(other);
                                assert(before.push(name@)[j] == other);
                            }
                            if before.push(name@).contains(other) {
                                let j = before.push(name@).index_of(other);
                                assert(before.push(name@)[j] == other);
                                if j < before.len() {
                                    assert(before[j] == other);
                                }
                            }
                        }
                        assert forall|other: Seq<char>| after.contains(other) implies (
                        #[trigger] self.view_map()[other]) == old(self).view_map().insert(
                            name@,
                            value@,
                        )[other] by {
                            let j = after.index_of(other);
                            assert(after[j] == other);
                            if other != name@ {
                                assert(j < before.len());
                                let j0 = before.index_of(other);
                                assert(before[j0] == other);
                                assert(after[j0] == other);
                            }
                        }
                    }
                }
            },
        }
    }

    /// The data of a name, if there is any.
    pub fn get(&self, name: &str) -> (r: Option<&Vec<u8>>)
        requires
            self.wf(),
        ensures
            match r {
                Some(value) => self.view_map().dom().contains(name@) && value@
                    == self.view_map()[name@],
                None => !self.view_map().dom().contains(name@),
            },
    {
        match self.position(name) {
            Some(i) => Some(&self.values[i]),
            None => None,
        }
    }

    /// The number of names.
    pub fn len(&self) -> (n: usize)
        requires
            self.wf(),
        ensures
            n == self.names().len(),
    {
        self.names.len()
    }

    /// The name and the data at a place.
    pub fn entry_at(&self, i: usize) -> (r: (&String, &Vec<u8>))
        requires
            self.wf(),
            i < self.names().len(),
        ensures
            r.0@ == self.names()[i as int],
            r.1@ == self.values()[i as int],
    {
        (&self.names[i], &self.values[i])
    }
}

/// A lineage with one more node that worked: the node is added at the end
/// unless it is in the lineage already.
pub open spec fn lineage_with(lineage: Seq<NodeId>, node: NodeId) -> Seq<NodeId> {
    if lineage.contains(node) {
        lineage
    } else {
        lineage.push(node)
    }
}

/// A lineage keeps each node once when a node is added to it.
pub proof fn lemma_lineage_with(lineage: Seq<NodeId>, node: NodeId)
    requires
        lineage.no_duplicates(),
    ensures
        lineage_with(lineage, node).no_duplicates(),
        lineage_with(lineage, node).contains(node),
        forall|i: int| 0 <= i < lineage.len() ==> lineage_with(lineage, node)[i] == lineage[i],
{
    if lineage.contains(node) {
        let i = lineage.index_of(node);
        assert(lineage[i] == node);
    } else {
        let longer = lineage.push(node);
        assert(longer[lineage.len() as int] == node);
    }
}

impl WorkflowContext {
    /// The results that were taken in, as plain values.
    pub open spec fn results(&self) -> Seq<StepResultView> {
        Seq::new(self.prior_results@.len(), |i: int| self.prior_results@[i]@)
    }

    /// The store of named data is well formed, and no node occurs twice in
    /// the lineage.
    pub open spec fn wf(&self) -> bool {
        self.data.wf() && self.lineage@.no_duplicates()
    }

    /// The context of a workflow that has not begun.
    pub fn new(workflow_id: WorkflowId) -> (c: Self)
        ensures
            c.wf(),
            c.workflow_id == workflow_id,
            c.step_index == 0,
            c.prior_results@.len() == 0,
            c.data.names().len() == 0,
            c.lineage@.len() == 0,
    {
        Self {
            workflow_id,
            step_index: 0,
            prior_results: Vec::new(),
            data: DataStore::new(),
            lineage: Vec::new(),
        }
    }

    /// Takes in the result of a step: the result comes behind the others,
    /// its executor comes into the lineage if it was not in it, and one more
    /// result is counted.
    pub fn add_result(&mut self, result: StepResult)
        ensures
            final(self).lineage@ == lineage_with(old(self).lineage@, result.executor),
            final(self).prior_results@ == old(self).prior_results@.push(result),
            final(self).results() == old(self).results().push(result@),
            final(self).step_index == bumped(old(self).step_index),
            final(self).workflow_id == old(self).workflow_id,
            final(self).data == old(self).data,
            old(self).wf() ==> final(self).wf(),
    {
        proof {
            if self.lineage@.no_duplicates() {
                lemma_lineage_with(self.lineage@, result.executor);
            }
        }
        if !contains_node(&self.lineage, &result.executor) {
            self.lineage.push(result.executor);
        }
        self.prior_results.push(result);
        self.step_index = bump(self.step_index);
        assert(self.results() =~= old(self).results().push(result@));
    }

    /// Sets named data.
    pub fn set_data(&mut self, key: &str, value: Vec<u8>)
        requires
            old(self).wf(),
        ensures
            final(self).wf(),
            final(self).data.view_map() == old(self).data.view_map().insert(key@, value@),
            final(self).workflow_id == old(self).workflow_id,
            final(self).step_index == old(self).step_index,
            final(self).prior_results == old(self).prior_results,
            final(self).lineage == old(self).lineage,
    {
        self.data.set(key, value);
    }

    /// The data of a name, if there is any.
    pub fn get_data(&self, key: &str) -> (r: Option<&Vec<u8>>)
        requires
            self.wf(),
        ensures
            match r {
                Some(value) => self.data.view_map().dom().contains(key@) && value@
                    == self.data.view_map()[key@],
                None => !self.data.view_map().dom().contains(key@),
            },
    {
        self.data.get(key)
    }
}

/// A workflow.
#[derive(Debug)]
pub struct Workflow {
    /// The identifier.
    pub id: WorkflowId,
    /// The shape.
    pub workflow_type: WorkflowType,
    /// The steps.
    pub steps: Vec<WorkflowStep>,
    /// What the workflow has gathered.
    pub context: WorkflowContext,
    /// How far the workflow is.
    pub status: WorkflowStatus,
    /// When the workflow was made.
    pub created: Timestamp,
    /// When the first step was started.
    pub started: Option<Timestamp>,
    /// When the last step was done.
    pub completed: Option<Timestamp>,
}

/// The identifiers of the steps that are completed, in the order of the
/// steps.
pub open spec fn completed_ids(steps: Seq<WorkflowStep>) -> Seq<StepId> {
    steps.filter(|s: WorkflowStep| s.status is Completed).map_values(|s: WorkflowStep| s.id)
}

/// Whether a step with the given identifier is completed.
pub open spec fn is_completed(steps: Seq<WorkflowStep>, id: StepId) -> bool {
    exists|i: int| 0 <= i < steps.len() && (#[trigger] steps[i]).id == id && steps[i].status is Completed
}

/// Whether a step is ready to be started: it is pending, and every step that
/// it waits for is completed.
pub open spec fn is_ready(steps: Seq<WorkflowStep>, step: WorkflowStep) -> bool {
    &&& step.status is Pending
    &&& forall|d: int|
        0 <= d < step.depends_on@.len() ==> is_completed(steps, #[trigger] step.depends_on@[d])
}

/// The place of the first step with the given identifier, or the number of
/// steps where there is none.
pub open spec fn place_of_step(steps: Seq<WorkflowStep>, id: StepId) -> int
    decreases steps.len(),
{
    if steps.len() == 0 {
        0
    } else if steps[0].id == id {
        0
    } else {
        1 + place_of_step(steps.drop_first(), id)
    }
}

/// The place of a step lies among the steps or at their end; no step before
/// it has the identifier, and the step at it has.
pub proof fn lemma_place_of_step(steps: Seq<WorkflowStep>, id: StepId)
    ensures
        0 <= place_of_step(steps, id) <= steps.len(),
        forall|i: int| 0 <= i < place_of_step(steps, id) ==> (#[trigger] steps[i]).id != id,
        place_of_step(steps, id) < steps.len() ==> steps[place_of_step(steps, id)].id == id,
    decreases steps.len(),
{
    if steps.len() > 0 && steps[0].id != id {
        lemma_place_of_step(steps.drop_first(), id);
        assert forall|i: int| 0 <= i < place_of_step(steps, id) implies (#[trigger] steps[i]).id
            != id by {
            if i > 0 {
                assert(steps.drop_first()[i - 1] == steps[i]);
            }
        }
    }
}

/// Whether every step is done: completed, failed or skipped.
pub open spec fn all_done(steps: Seq<WorkflowStep>) -> bool {
    forall|i: int|
        0 <= i < steps.len() ==> ((#[trigger] steps[i]).status is Completed || steps[i].status
            is Failed || steps[i].status is Skipped)
}

/// Whether some step has failed.
pub open spec fn any_failed(steps: Seq<WorkflowStep>) -> bool {
    exists|i: int| 0 <= i < steps.len() && (#[trigger] steps[i]).status is Failed
}

/// Whether every result that a completed step holds is one of success.
pub open spec fn results_sound(steps: Seq<WorkflowStep>) -> bool {
    forall|i: int|
        0 <= i < steps.len() && (#[trigger] steps[i]).status is Completed ==> steps[i].result.is_some()
            && steps[i].result.unwrap().success
}

/// Whether every running step waits for completed steps only.
pub open spec fn orderly(steps: Seq<WorkflowStep>) -> bool {
    forall|i: int, d: int|
        0 <= i < steps.len() && (#[trigger] steps[i]).status is Running && 0 <= d
            < steps[i].depends_on@.len() ==> is_completed(steps, #[trigger] steps[i].depends_on@[d])
}

/// The test whether a step is ready among the given steps.
pub open spec fn ready_among(steps: Seq<WorkflowStep>) -> spec_fn(WorkflowStep) -> bool {
    |s: WorkflowStep| is_ready(steps, s)
}

/// Whether `after` is the step `before`, started by `executor`.
pub open spec fn started_by(before: WorkflowStep, after: WorkflowStep, executor: NodeId) -> bool {
    after == (WorkflowStep {
        status: StepStatus::Running,
        assigned_to: Some(executor),
        ..before
    })
}

/// Whether `after` is the step `before`, done with the given result.
pub open spec fn done_with(before: WorkflowStep, after: WorkflowStep, result: StepResultView) -> bool {
    &&& after.id == before.id
    &&& after.task == before.task
    &&& after.assigned_to == before.assigned_to
    &&& after.depends_on == before.depends_on
    &&& after.status == if result.success {
        StepStatus::Completed
    } else {
        StepStatus::Failed
    }
    &&& after.result matches Some(r) && r@ == result
}

impl Workflow {
    /// The context of the workflow is well formed.
    pub open spec fn wf(&self) -> bool {
        self.context.wf()
    }

    /// A pending workflow without steps, made at the time `now`.
    pub fn new(id: WorkflowId, workflow_type: WorkflowType, now: Timestamp) -> (w: Self)
        ensures
            w.wf(),
            w.id == id,
            w.workflow_type == workflow_type,
            w.steps@.len() == 0,
            w.context.workflow_id == id,
            w.context.step_index == 0,
            w.context.prior_results@.len() == 0,
            w.context.data.names().len() == 0,
            w.context.lineage@.len() == 0,
            w.status == WorkflowStatus::Pending,
            w.created == now,
            w.started.is_none(),
            w.completed.is_none(),
    {
        Self {
            id,
            workflow_type,
            steps: Vec::new(),
            context: WorkflowContext::new(id),
            status: WorkflowStatus::Pending,
            created: now,
            started: None,
            completed: None,
        }
    }

    /// Puts a step behind the others.
    pub fn add_step(&mut self, step: WorkflowStep)
        ensures
            final(self).steps@ == old(self).steps@.push(step),
            *final(self) == (Workflow { steps: final(self).steps, ..*old(self) }),
    {
        self.steps.push(step);
    }

    /// The steps that are ready to be started, in their order: the pending
    /// steps that wait for completed steps only.
    pub fn ready_steps(&self) -> (ready: Vec<&WorkflowStep>)
        ensures
            Seq::new(ready@.len(), |i: int| *ready@[i]) == self.steps@.filter(
                ready_among(self.steps@),
            ),
    {
        let mut completed: Vec<StepId> = Vec::new();
        let mut i: usize = 0;
        while i < self.steps.len()
            invariant
                i <= self.steps.len(),
                forall|id: StepId|
                    completed@.contains(id) == exists|j: int|
                        0 <= j < i && (#[trigger] self.steps@[j]).id == id && self.steps@[j].status
                            is Completed,
            decreases self.steps.len() - i,
        {
            let ghost held = completed@;
            if matches!(self.steps[i].status, StepStatus::Completed) {
                completed.push(self.steps[i].id);
            }
            proof {
                assert forall|id: StepId|
                    completed@.contains(id) == exists|j: int|
                        0 <= j < i + 1 && (#[trigger] self.steps@[j]).id == id
                            && self.steps@[j].status is Completed by {
                    if completed@.contains(id) {
                        let k = completed@.index_of(id);
                        assert(completed@[k] == id);
                        if k < held.len() {
                            assert(held[k] == id);
                            assert(held.contains(id));
                            let j = choose|j: int|
                                0 <= j < i && (#[trigger] self.steps@[j]).id == id
                                    && self.steps@[j].status is Completed;
                            assert(0 <= j < i + 1);
                        } else {
                            assert(self.steps@[i as int].id == id);
                        }
                    }
                    if exists|j: int|
                        0 <= j < i + 1 && (#[trigger] self.steps@[j]).id == id
                            && self.steps@[j].status is Completed {
                        let j = choose|j: int|
                            0 <= j < i + 1 && (#[trigger] self.steps@[j]).id == id
                                && self.steps@[j].status is Completed;
                        if j < i {
                            assert(held.contains(id));
                            let k = held.index_of(id);
                            assert(held[k] == id);
                            assert(completed@[k] == id);
                        } else {
                            assert(completed@[held.len() as int] == id);
                        }
                    }
                }
            }
            i += 1;
        }
        proof {
            assert forall|id: StepId| completed@.contains(id) == is_completed(self.steps@, id) by {}
        }
        let mut ready: Vec<&WorkflowStep> = Vec::new();
        let mut i: usize = 0;
        while i < self.steps.len()
            invariant
                i <= self.steps.len(),
                forall|id: StepId| completed@.contains(id) == is_completed(self.steps@, id),
                Seq::new(ready@.len(), |k: int| *ready@[k]) == self.steps@.take(i as int).filter(
                    ready_among(self.steps@),
                ),
            decreases self.steps.len() - i,
        {
            let step = &self.steps[i];
            let ghost held = Seq::new(ready@.len(), |k: int| *ready@[k]);
            proof {
                let part = self.steps@.take(i as int);
                assert(self.steps@.take(i as int + 1) =~= part.push(*step));
                part.lemma_filter_push(*step, ready_among(self.steps@));
            }
            if matches!(step.status, StepStatus::Pending) && step.dependencies_satisfied(
                completed.as_slice(),
            ) {
                ready.push(step);
                assert(Seq::new(ready@.len(), |k: int| *ready@[k]) =~= held.push(*step));
            }
            i += 1;
        }
        assert(self.steps@.take(i as int) =~= self.steps@);
        ready
    }

    /// The place of the first step with the identifier, if there is one.
    fn find_step(&self, step_id: StepId) -> (r: Option<usize>)
        ensures
            match r {
                Some(i) => i == place_of_step(self.steps@, step_id) && i < self.steps@.len(),
                None => place_of_step(self.steps@, step_id) == self.steps@.len(),
            },
    {
        let mut i: usize = 0;
        assert(self.steps@.skip(0) =~= self.steps@);
        while i < self.steps.len()
            invariant
                i <= self.steps.len(),
                place_of_step(self.steps@, step_id) == i + place_of_step(
                    self.steps@.skip(i as int),
                    step_id,
                ),
            decreases self.steps.len() - i,
        {
            let ghost rest = self.steps@.skip(i as int);
            assert(rest[0] == self.steps@[i as int]);
            if self.steps[i].id.0 == step_id.0 {
                return Some(i);
            }
            assert(rest.drop_first() =~= self.steps@.skip(i as int + 1));
            i += 1;
        }
        assert(self.steps@.skip(i as int).len() == 0);
        None
    }

    /// Starts the first step with the given identifier, if there is one, at
    /// the time `now`: the step is running, and given to `executor`. A
    /// pending workflow is running from then on.
    ///
    /// Where the step was ready, and every running step waited for completed
    /// steps only, that is so afterwards too.
    pub fn start_step(&mut self, step_id: StepId, executor: NodeId, now: Timestamp)
        ensures
            final(self).steps@.len() == old(self).steps@.len(),
            forall|i: int|
                0 <= i < old(self).steps@.len() && i != place_of_step(old(self).steps@, step_id)
                    ==> final(self).steps@[i] == old(self).steps@[i],
            place_of_step(old(self).steps@, step_id) < old(self).steps@.len() ==> started_by(
                old(self).steps@[place_of_step(old(self).steps@, step_id)],
                final(self).steps@[place_of_step(old(self).steps@, step_id)],
                executor,
            ),
            final(self).status == if old(self).status is Pending {
                WorkflowStatus::Running
            } else {
                old(self).status
            },
            final(self).started == if old(self).status is Pending {
                Some(now)
            } else {
                old(self).started
            },
            *final(self) == (Workflow {
                steps: final(self).steps,
                status: final(self).status,
                started: final(self).started,
                ..*old(self)
            }),
            results_sound(old(self).steps@) ==> results_sound(final(self).steps@),
            orderly(old(self).steps@) && place_of_step(old(self).steps@, step_id) < old(self).steps@.len() && is_ready(
                old(self).steps@,
                old(self).steps@[place_of_step(old(self).steps@, step_id)],
            ) ==> orderly(final(self).steps@),
    {
        match self.find_step(step_id) {
            Some(i) => {
                let step = &mut self.steps[i];
                step.status = StepStatus::Running;
                step.assigned_to = Some(executor);
                proof {
                    lemma_started_orderly(old(self).steps@, self.steps@, i as int, executor);
                }
            },
            None => {
                assert(self.steps@ =~= old(self).steps@);
            },
        }
        if matches!(self.status, WorkflowStatus::Pending) {
            self.status = WorkflowStatus::Running;
            self.started = Some(now);
        }
    }

    /// Takes in the result of the first step with the given identifier, at
    /// the time `now`.
    ///
    /// The step, if there is one, is completed where the result is one of
    /// success and failed where it is not, and holds the result. The context
    /// takes the result in. Once every step is completed, failed or skipped,
    /// the workflow is done: it has failed if a step has, it is completed if
    /// none has, and it was done at `now`.
    ///
    /// A completed step holds a result of success afterwards if that was so
    /// before. Every running step waits for completed steps only afterwards
    /// if that was so before, unless the result is one of failure for a step
    /// that was completed.
    pub fn complete_step(&mut self, step_id: StepId, result: StepResult, now: Timestamp)
        ensures
            final(self).steps@.len() == old(self).steps@.len(),
            forall|i: int|
                0 <= i < old(self).steps@.len() && i != place_of_step(old(self).steps@, step_id)
                    ==> final(self).steps@[i] == old(self).steps@[i],
            place_of_step(old(self).steps@, step_id) < old(self).steps@.len() ==> done_with(
                old(self).steps@[place_of_step(old(self).steps@, step_id)],
                final(self).steps@[place_of_step(old(self).steps@, step_id)],
                result@,
            ),
            final(self).context.results() == old(self).context.results().push(result@),
            final(self).context.lineage@ == lineage_with(
                old(self).context.lineage@,
                result.executor,
            ),
            final(self).context.step_index == bumped(old(self).context.step_index),
            final(self).context.workflow_id == old(self).context.workflow_id,
            final(self).context.data == old(self).context.data,
            final(self).status == if all_done(final(self).steps@) {
                if any_failed(final(self).steps@) {
                    WorkflowStatus::Failed
                } else {
                    WorkflowStatus::Completed
                }
            } else {
                old(self).status
            },
            final(self).completed == if all_done(final(self).steps@) {
                Some(now)
            } else {
                old(self).completed
            },
            final(self).id == old(self).id,
            final(self).workflow_type == old(self).workflow_type,
            final(self).created == old(self).created,
            final(self).started == old(self).started,
            old(self).wf() ==> final(self).wf(),
            results_sound(old(self).steps@) ==> results_sound(final(self).steps@),
            orderly(old(self).steps@) && (result.success || !(place_of_step(
                old(self).steps@,
                step_id,
            ) < old(self).steps@.len() && old(self).steps@[place_of_step(
                old(self).steps@,
                step_id,
            )].status is Completed)) ==> orderly(final(self).steps@),
    {
        match self.find_step(step_id) {
            Some(i) => {
                let copy = result.duplicate();
                let step = &mut self.steps[i];
                step.status = if result.success {
                    StepStatus::Completed
                } else {
                    StepStatus::Failed
                };
                step.result = Some(copy);
                proof {
                    lemma_done_orderly(old(self).steps@, self.steps@, i as int, result@);
                }
            },
            None => {
                assert(self.steps@ =~= old(self).steps@);
            },
        }
        self.context.add_result(result);
        self.check_completion(now);
    }

    /// Sees whether the workflow is done.
    fn check_completion(&mut self, now: Timestamp)
        ensures
            final(self).status == if all_done(old(self).steps@) {
                if any_failed(old(self).steps@) {
                    WorkflowStatus::Failed
                } else {
                    WorkflowStatus::Completed
                }
            } else {
                old(self).status
            },
            final(self).completed == if all_done(old(self).steps@) {
                Some(now)
            } else {
                old(self).completed
            },
            *final(self) == (Workflow {
                status: final(self).status,
                completed: final(self).completed,
                ..*old(self)
            }),
    {
        let mut done = true;
        let mut failed = false;
        let mut i: usize = 0;
        while i < self.steps.len()
            invariant
                i <= self.steps.len(),
                done == all_done(self.steps@.take(i as int)),
                failed == any_failed(self.steps@.take(i as int)),
            decreases self.steps.len() - i,
        {
            let ghost part = self.steps@.take(i as int);
            let ghost more = self.steps@.take(i as int + 1);
            proof {
                assert(more[i as int] == self.steps@[i as int]);
                assert forall|j: int| 0 <= j < i implies more[j] == part[j] by {}
                if any_failed(part) {
                    let j = choose|j: int| 0 <= j < part.len() && (#[trigger] part[j]).status is Failed;
                    assert(more[j].status is Failed);
                }
                if any_failed(more) {
                    let j = choose|j: int| 0 <= j < more.len() && (#[trigger] more[j]).status is Failed;
                    if j < i {
                        assert(part[j].status is Failed);
                    }
                }
                if all_done(more) {
                    assert forall|j: int| 0 <= j < part.len() implies ((
                    #[trigger] part[j]).status is Completed || part[j].status is Failed
                        || part[j].status is Skipped) by {
                        assert(more[j] == part[j]);
                    }
                }
            }
            match self.steps[i].status {
                StepStatus::Completed | StepStatus::Skipped => {},
                StepStatus::Failed => {
                    failed = true;
                },
                _ => {
                    done = false;
                },
            }
            i += 1;
        }
        assert(self.steps@.take(i as int) =~= self.steps@);
        if done {
            self.status = if failed {
                WorkflowStatus::Failed
            } else {
                WorkflowStatus::Completed
            };
            self.completed = Some(now);
        }
    }

    /// The qualities of the results of success that the steps hold, in the
    /// order of the steps.
    pub fn successful_qualities(&self) -> (qualities: Vec<Score>)
        ensures
            qualities@ == success_qualities(self.steps@),
    {
        let mut qualities: Vec<Score> = Vec::new();
        let mut i: usize = 0;
        while i < self.steps.len()
            invariant
                i <= self.steps.len(),
                qualities@ == success_qualities(self.steps@.take(i as int)),
            decreases self.steps.len() - i,
        {
            let step = &self.steps[i];
            proof {
                let part = self.steps@.take(i as int);
                assert(self.steps@.take(i as int + 1) =~= part.push(*step));
                part.lemma_filter_push(*step, succeeded());
                let kept = part.filter(succeeded());
                assert(kept.push(*step).map_values(success_quality()) =~= kept.map_values(
                    success_quality(),
                ).push(success_quality()(*step)));
            }
            match &step.result {
                Some(r) => {
                    if r.success {
                        qualities.push(r.quality);
                    }
                },
                None => {},
            }
            i += 1;
        }
        assert(self.steps@.take(i as int) =~= self.steps@);
        qualities
    }

    /// The quality of the workflow as a whole: zero where no step holds a
    /// result of success, and else what `mean` gives for the qualities of
    /// the results of success.
    pub fn overall_quality<M: Fn(&Vec<Score>) -> Score>(&self, mean: &M) -> (q: Score)
        requires
            forall|given: &Vec<Score>| call_requires(*mean, (given,)),
        ensures
            success_qualities(self.steps@).len() == 0 ==> q.rank() == 0,
            success_qualities(self.steps@).len() > 0 ==> exists|given: Vec<Score>| #[trigger]
                call_ensures(*mean, (&given,), q) && given@ == success_qualities(self.steps@),
    {
        let given = self.successful_qualities();
        if given.len() == 0 {
            return Score::zero();
        }
        let q = mean(&given);
        assert(call_ensures(*mean, (&given,), q));
        q
    }
}

/// The quality of the result that a step holds.
pub open spec fn success_quality() -> spec_fn(WorkflowStep) -> Score {
    |s: WorkflowStep| s.result.unwrap().quality
}

/// The qualities of the results of success that the steps hold, in the
/// order of the steps.
pub open spec fn success_qualities(steps: Seq<WorkflowStep>) -> Seq<Score> {
    steps.filter(succeeded()).map_values(success_quality())
}

/// The test whether a step holds a result of success.
pub open spec fn succeeded() -> spec_fn(WorkflowStep) -> bool {
    |s: WorkflowStep| s.result.is_some() && s.result.unwrap().success
}

/// A completed step holds a result of success: where that is so, taking in
/// the result of a step keeps it so. Taking in a result also keeps every
/// running step waiting for completed steps only, unless it is a result of
/// failure for a step that was completed.
pub proof fn lemma_done_orderly(
    before: Seq<WorkflowStep>,
    after: Seq<WorkflowStep>,
    p: int,
    result: StepResultView,
)
    requires
        0 <= p < before.len(),
        after.len() == before.len(),
        forall|i: int| 0 <= i < before.len() && i != p ==> after[i] == before[i],
        done_with(before[p], after[p], result),
    ensures
        results_sound(before) ==> results_sound(after),
        orderly(before) && (result.success || !(before[p].status is Completed)) ==> orderly(after),
{
    if results_sound(before) {
        assert forall|i: int| 0 <= i < after.len() && (#[trigger] after[i]).status
            is Completed implies after[i].result.is_some() && after[i].result.unwrap().success by {
            if i != p {
                assert(before[i].status is Completed);
            }
        }
    }
    if orderly(before) && (result.success || !(before[p].status is Completed)) {
        assert forall|id: StepId| is_completed(before, id) implies is_completed(after, id) by {
            let j = choose|j: int|
                0 <= j < before.len() && (#[trigger] before[j]).id == id && before[j].status
                    is Completed;
            if j == p {
                assert(result.success);
                assert(after[p].id == id && after[p].status is Completed);
            } else {
                assert(after[j].id == id && after[j].status is Completed);
            }
        }
        assert forall|i: int, d: int|
            0 <= i < after.len() && (#[trigger] after[i]).status is Running && 0 <= d
                < after[i].depends_on@.len() implies is_completed(
            after,
            #[trigger] after[i].depends_on@[d],
        ) by {
            assert(i != p);
            assert(before[i].status is Running);
            assert(is_completed(before, before[i].depends_on@[d]));
        }
    }
}

/// A step runs only after the steps that it waits for are completed: where
/// every running step waits for completed steps only, starting a step that
/// is ready keeps it so. Starting a step also keeps every completed step
/// with a result of success.
pub proof fn lemma_started_orderly(
    before: Seq<WorkflowStep>,
    after: Seq<WorkflowStep>,
    p: int,
    executor: NodeId,
)
    requires
        0 <= p < before.len(),
        after.len() == before.len(),
        forall|i: int| 0 <= i < before.len() && i != p ==> after[i] == before[i],
        started_by(before[p], after[p], executor),
    ensures
        results_sound(before) ==> results_sound(after),
        orderly(before) && is_ready(before, before[p]) ==> orderly(after),
{
    if results_sound(before) {
        assert forall|i: int| 0 <= i < after.len() && (#[trigger] after[i]).status
            is Completed implies after[i].result.is_some() && after[i].result.unwrap().success by {
            assert(i != p);
            assert(before[i].status is Completed);
        }
    }
    if orderly(before) && is_ready(before, before[p]) {
        assert forall|id: StepId| is_completed(before, id) implies is_completed(after, id) by {
            let j = choose|j: int|
                0 <= j < before.len() && (#[trigger] before[j]).id == id && before[j].status
                    is Completed;
            assert(j != p);
            assert(after[j].id == id && after[j].status is Completed);
        }
        assert forall|i: int, d: int|
            0 <= i < after.len() && (#[trigger] after[i]).status is Running && 0 <= d
                < after[i].depends_on@.len() implies is_completed(
            after,
            #[trigger] after[i].depends_on@[d],
        ) by {
            if i == p {
                assert(after[p].depends_on == before[p].depends_on);
                assert(is_completed(before, before[p].depends_on@[d]));
            } else {
                assert(before[i].status is Running);
                assert(is_completed(before, before[i].depends_on@[d]));
            }
        }
    }
}

/// How the execution of a workflow ended.
#[derive(Debug)]
pub enum WorkflowResult {
    /// The workflow is completed.
    Success(WorkflowContext),
    /// The workflow failed at a step.
    Failed {
        /// The step.
        step_id: StepId,
        /// Why.
        reason: String,
    },
    /// The workflow goes on.
    InProgress,
}

/// Whether `after` is the step `before` once it was routed: a pending step
/// is ready and given to the node that routing chose for its task, and any
/// other step is as it was.
pub open spec fn assigned<F: Fn(RoutingFactors) -> Real>(
    before: WorkflowStep,
    after: WorkflowStep,
    current_node: Node,
    network: Table<NodeId, Node>,
    score: F,
) -> bool {
    if before.status is Pending {
        exists|result: RoutingResult| #[trigger]
            routes_to(current_node, before.task, network, score, result) && result is Success
                && after == (WorkflowStep {
                assigned_to: result.selected(),
                status: StepStatus::Ready,
                ..before
            })
    } else {
        after == before
    }
}

/// Whether a step is pending and routing finds no node for its task.
pub open spec fn unroutable<F: Fn(RoutingFactors) -> Real>(
    step: WorkflowStep,
    current_node: Node,
    network: Table<NodeId, Node>,
    score: F,
) -> bool {
    &&& step.status is Pending
    &&& exists|result: RoutingResult| #[trigger]
        routes_to(current_node, step.task, network, score, result) && !(result is Success)
}

/// Routes the pending steps of a workflow, one after the other.
///
/// Each pending step is routed from `current_node` over the network (see
/// `routes_to`). A step for which routing chooses a node is ready, and given
/// to that node. At the first step for which routing chooses none, the step
/// and the workflow have failed, the steps behind it are left as they were,
/// and the execution ends in failure at that step. Where every pending step
/// was given to a node, the workflow goes on.
pub fn execute_sequential_workflow<F: Fn(RoutingFactors) -> Real>(
    workflow: &mut Workflow,
    current_node: &Node,
    network: &Table<NodeId, Node>,
    score: &F,
) -> (result: WorkflowResult)
    requires
        current_node.wf(),
        network.wf(),
        forall|i: int| 0 <= i < network.values().len() ==> (#[trigger] network.values()[i]).wf(),
        forall|factors: RoutingFactors| call_requires(*score, (factors,)),
    ensures
        final(workflow).steps@.len() == old(workflow).steps@.len(),
        match result {
            WorkflowResult::InProgress => {
                &&& forall|i: int|
                    0 <= i < old(workflow).steps@.len() ==> assigned(
                        old(workflow).steps@[i],
                        #[trigger] final(workflow).steps@[i],
                        *current_node,
                        *network,
                        *score,
                    )
                &&& final(workflow).status == old(workflow).status
            },
            WorkflowResult::Failed { step_id, reason } => {
                &&& final(workflow).status == WorkflowStatus::Failed
                &&& reason@ == "No suitable candidates"@
                &&& exists|p: int|
                    {
                        &&& 0 <= p < old(workflow).steps@.len()
                        &&& forall|i: int|
                            0 <= i < p ==> assigned(
                                old(workflow).steps@[i],
                                #[trigger] final(workflow).steps@[i],
                                *current_node,
                                *network,
                                *score,
                            )
                        &&& unroutable(
                            #[trigger] old(workflow).steps@[p],
                            *current_node,
                            *network,
                            *score,
                        )
                        &&& final(workflow).steps@[p] == (WorkflowStep {
                            status: StepStatus::Failed,
                            ..old(workflow).steps@[p]
                        })
                        &&& step_id == old(workflow).steps@[p].id
                        &&& forall|i: int|
                            p < i < old(workflow).steps@.len() ==> (
                            #[trigger] final(workflow).steps@[i]) == old(workflow).steps@[i]
                    }
            },
            WorkflowResult::Success(_) => false,
        },
        *final(workflow) == (Workflow {
            steps: final(workflow).steps,
            status: final(workflow).status,
            ..*old(workflow)
        }),
{
    let n = workflow.steps.len();
    let mut i: usize = 0;
    while i < n
        invariant
            i <= n,
            n == old(workflow).steps@.len(),
            workflow.steps@.len() == n,
            current_node.wf(),
            network.wf(),
            forall|j: int| 0 <= j < network.values().len() ==> (#[trigger] network.values()[j]).wf(),
            forall|factors: RoutingFactors| call_requires(*score, (factors,)),
            forall|j: int|
                0 <= j < i ==> assigned(
                    old(workflow).steps@[j],
                    #[trigger] workflow.steps@[j],
                    *current_node,
                    *network,
                    *score,
                ),
            forall|j: int| i <= j < n ==> (#[trigger] workflow.steps@[j]) == old(workflow).steps@[j],
            *workflow == (Workflow { steps: workflow.steps, ..*old(workflow) }),
        decreases n - i,
    {
        let ghost held = workflow.steps@;
        if matches!(workflow.steps[i].status, StepStatus::Pending) {
            let routing = route_task(current_node, &workflow.steps[i].task, network, score);
            match routing {
                RoutingResult::Success(candidate) => {
                    let step = &mut workflow.steps[i];
                    step.assigned_to = Some(candidate.node_id);
                    step.status = StepStatus::Ready;
                    proof {
                        assert(routes_to(
                            *current_node,
                            old(workflow).steps@[i as int].task,
                            *network,
                            *score,
                            routing,
                        ));
                        assert forall|j: int| 0 <= j < i implies assigned(
                            old(workflow).steps@[j],
                            #[trigger] workflow.steps@[j],
                            *current_node,
                            *network,
                            *score,
                        ) by {
                            assert(workflow.steps@[j] == held[j]);
                        }
                    }
                },
                RoutingResult::NoCandidates | RoutingResult::ConstraintsNotMet => {
                    let step = &mut workflow.steps[i];
                    step.status = StepStatus::Failed;
                    let step_id = step.id;
                    workflow.status = WorkflowStatus::Failed;
                    proof {
                        assert(routes_to(
                            *current_node,
                            old(workflow).steps@[i as int].task,
                            *network,
                            *score,
                            routing,
                        ));
                        assert(unroutable(
                            old(workflow).steps@[i as int],
                            *current_node,
                            *network,
                            *score,
                        ));
                        assert forall|j: int| 0 <= j < i implies assigned(
                            old(workflow).steps@[j],
                            #[trigger] workflow.steps@[j],
                            *current_node,
                            *network,
                            *score,
                        ) by {
                            assert(workflow.steps@[j] == held[j]);
                        }
                        assert forall|j: int| i < j < n implies (#[trigger] workflow.steps@[j])
                            == old(workflow).steps@[j] by {
                            assert(workflow.steps@[j] == held[j]);
                        }
                    }
                    return WorkflowResult::Failed {
                        step_id,
                        reason: "No suitable candidates".to_owned(),
                    };
                },
            }
        }
        i += 1;
    }
    WorkflowResult::InProgress
}

} // verus!
