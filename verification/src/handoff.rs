//! The handoff of a task from one node to another.

use vstd::prelude::*;
use vstd::string::StringExecFns;
use crate::node::Node;
use crate::routing::Task;
use crate::types::hex::{decimal, decimal_chars, hex_chars};
use crate::types::{
    blake3_digest, contains_node, copy_bytes, copy_nodes, NodeId, Signature, Timestamp, WorkflowId,
};
use crate::workflow::{lemma_lineage_with, lineage_with, WorkflowContext};

verus! {

/// What goes along with a handoff.
#[derive(Debug)]
pub struct HandoffContext {
    /// The workflow that the handoff belongs to, if it belongs to one.
    pub workflow_id: Option<WorkflowId>,
    /// The number of results that the workflow had taken in.
    pub step_index: u32,
    /// What the steps before put out.
    pub prior_results: Vec<Vec<u8>>,
    /// Named data.
    pub accumulated: Vec<(String, Vec<u8>)>,
    /// The nodes that have worked on the task, each once.
    pub lineage: Vec<NodeId>,
}

impl HandoffContext {
    /// The outputs that go along, as plain values.
    pub open spec fn outputs(&self) -> Seq<Seq<u8>> {
        Seq::new(self.prior_results@.len(), |i: int| self.prior_results@[i]@)
    }

    /// The named data that goes along, as plain values.
    pub open spec fn entries(&self) -> Seq<(Seq<char>, Seq<u8>)> {
        Seq::new(self.accumulated@.len(), |i: int| (self.accumulated@[i].0@, self.accumulated@[i].1@))
    }

    /// A context that belongs to no workflow and holds nothing.
    pub fn new() -> (c: Self)
        ensures
            c.workflow_id.is_none(),
            c.step_index == 0,
            c.prior_results@.len() == 0,
            c.accumulated@.len() == 0,
            c.lineage@.len() == 0,
    {
        Self {
            workflow_id: None,
            step_index: 0,
            prior_results: Vec::new(),
            accumulated: Vec::new(),
            lineage: Vec::new(),
        }
    }

    /// The context that a workflow hands on: its identifier, the number of
    /// results that it has taken in, what the steps put out, its named data
    /// and its lineage.
    pub fn from_workflow(ctx: &WorkflowContext) -> (c: Self)
        requires
            ctx.wf(),
        ensures
            c.workflow_id == Some(ctx.workflow_id),
            c.step_index == ctx.step_index,
            c.outputs() == Seq::new(ctx.prior_results@.len(), |i: int| ctx.prior_results@[i].output@),
            c.entries() == Seq::new(
                ctx.data.names().len(),
                |i: int| (ctx.data.names()[i], ctx.data.values()[i]),
            ),
            c.lineage@ == ctx.lineage@,
    {
        let mut prior_results: Vec<Vec<u8>> = Vec::new();
        let mut i: usize = 0;
        while i < ctx.prior_results.len()
            invariant
                i <= ctx.prior_results.len(),
                prior_results@.len() == i,
                forall|j: int| 0 <= j < i ==> (#[trigger] prior_results@[j])@ == ctx.prior_results@[j].output@,
            decreases ctx.prior_results.len() - i,
        {
            prior_results.push(copy_bytes(&ctx.prior_results[i].output));
            i += 1;
        }
        let mut accumulated: Vec<(String, Vec<u8>)> = Vec::new();
        let n = ctx.data.len();
        let mut i: usize = 0;
        while i < n
            invariant
                i <= n,
                n == ctx.data.names().len(),
                ctx.data.wf(),
                accumulated@.len() == i,
                forall|j: int|
                    0 <= j < i ==> (#[trigger] accumulated@[j]).0@ == ctx.data.names()[j]
                        && accumulated@[j].1@ == ctx.data.values()[j],
            decreases n - i,
        {
            let (name, value) = ctx.data.entry_at(i);
            accumulated.push((name.clone(), copy_bytes(value)));
            i += 1;
        }
        let lineage = copy_nodes(&ctx.lineage);
        let c = Self {
            workflow_id: Some(ctx.workflow_id),
            step_index: ctx.step_index,
            prior_results,
            accumulated,
            lineage,
        };
        assert(c.outputs() =~= Seq::new(
            ctx.prior_results@.len(),
            |i: int| ctx.prior_results@[i].output@,
        ));
        assert(c.entries() =~= Seq::new(
            ctx.data.names().len(),
            |i: int| (ctx.data.names()[i], ctx.data.values()[i]),
        ));
        c
    }

    /// Puts a node into the lineage, unless it is in it already.
    pub fn add_to_lineage(&mut self, node: NodeId)
        ensures
            final(self).lineage@ == lineage_with(old(self).lineage@, node),
            old(self).lineage@.no_duplicates() ==> final(self).lineage@.no_duplicates(),
            final(self).workflow_id == old(self).workflow_id,
            final(self).step_index == old(self).step_index,
            final(self).prior_results == old(self).prior_results,
            final(self).accumulated == old(self).accumulated,
    {
        proof {
            if self.lineage@.no_duplicates() {
                lemma_lineage_with(self.lineage@, node);
            }
        }
        let found = contains_node(&self.lineage, &node);
        if !found {
            self.lineage.push(node);
        }
    }
}

impl Default for HandoffContext {
    /// A context that belongs to no workflow and holds nothing.
    fn default() -> (c: Self)
        ensures
            c.workflow_id.is_none(),
            c.step_index == 0,
            c.prior_results@.len() == 0,
            c.accumulated@.len() == 0,
            c.lineage@.len() == 0,
    {
        Self::new()
    }
}

/// A handoff of a task from one node to another.
#[derive(Debug)]
pub struct Handoff {
    /// The node that hands the task off.
    pub from_node: NodeId,
    /// The node that is to take it.
    pub to_node: NodeId,
    /// The task.
    pub task: Task,
    /// What goes along.
    pub context: HandoffContext,
    /// When the task was handed off.
    pub timestamp: Timestamp,
    /// The signature of the node that hands the task off.
    pub signature: Signature,
}

/// What is digested of a handoff: the two nodes in writing, the number of
/// the task and the millisecond of the handoff in decimal, with colons
/// between them.
pub open spec fn handoff_text(from_node: NodeId, to_node: NodeId, task: u64, millis: u64) -> Seq<
    char,
> {
    hex_chars(from_node@.take(8)) + seq![':'] + hex_chars(to_node@.take(8)) + seq![':']
        + decimal_chars(task as nat) + seq![':'] + decimal_chars(millis as nat)
}

impl Handoff {
    /// A handoff at the time `now`, not yet signed.
    pub fn new(from_node: NodeId, to_node: NodeId, task: Task, context: HandoffContext, now: Timestamp) -> (h:
        Self)
        ensures
            h.from_node == from_node,
            h.to_node == to_node,
            h.task == task,
            h.context == context,
            h.timestamp == now,
            h.signature@ == Seq::new(64, |i: int| 0u8),
    {
        Self {
            from_node,
            to_node,
            task,
            context,
            timestamp: now,
            signature: Signature::placeholder(),
        }
    }

    /// The digest of the handoff, which is what a signature is made of (see
    /// `handoff_text`).
    pub fn compute_hash(&self) -> (h: crate::types::Hash)
        ensures
            h@ == blake3_digest(
                vstd::utf8::encode_utf8(
                    handoff_text(self.from_node, self.to_node, self.task.id.0, self.timestamp.0),
                ),
            ),
    {
        proof {
            reveal_strlit(":");
        }
        let mut text = self.from_node.to_string();
        text.append(":");
        text.append(self.to_node.to_string().as_str());
        text.append(":");
        text.append(decimal(self.task.id.0).as_str());
        text.append(":");
        text.append(decimal(self.timestamp.millis()).as_str());
        assert(text@ =~= handoff_text(
            self.from_node,
            self.to_node,
            self.task.id.0,
            self.timestamp.0,
        ));
        crate::types::Hash::compute(text.as_str().as_bytes())
    }

    /// Whether, at the time `now`, the handoff is no older than `max_age_ms`
    /// milliseconds.
    pub fn is_valid(&self, max_age_ms: u64, now: Timestamp) -> (r: bool)
        ensures
            r == (self.timestamp.age_at(now) <= max_age_ms),
    {
        !self.timestamp.is_older_at(now, max_age_ms)
    }
}

/// What came of a handoff.
#[derive(Debug)]
pub enum HandoffResult {
    /// The task was taken.
    Success {
        /// What the task put out.
        output: Vec<u8>,
    },
    /// The signature does not hold.
    InvalidSignature,
    /// The node does not have the capability that the task needs.
    MissingCapability,
    /// The node takes no more work.
    Overloaded,
    /// The handoff is too old.
    Expired,
    /// The task was taken, and failed.
    ExecutionFailed {
        /// Why.
        reason: String,
    },
}

impl HandoffResult {
    /// Whether the task was taken.
    pub fn is_success(&self) -> (r: bool)
        ensures
            r == (*self is Success),
    {
        matches!(self, HandoffResult::Success { .. })
    }
}

/// Takes handoffs in for a node.
#[derive(Debug)]
pub struct HandoffHandler {
    max_age_ms: u64,
}

impl HandoffHandler {
    /// The age in milliseconds beyond which a handoff is too old.
    pub closed spec fn max_age(&self) -> u64 {
        self.max_age_ms
    }

    /// A handler that takes handoffs of up to the given age in.
    pub fn new(max_age_ms: u64) -> (h: Self)
        ensures
            h.max_age() == max_age_ms,
    {
        Self { max_age_ms }
    }

    /// Whether a handoff is too old at the time `now`.
    pub open spec fn expired(&self, handoff: Handoff, now: Timestamp) -> bool {
        handoff.timestamp.age_at(now) > self.max_age()
    }

    /// Holds a handoff against the rules: gives the reason why it is refused,
    /// or nothing where it is not. A handoff is refused when it is too old.
    /// No signature is verified.
    pub fn validate(&self, handoff: &Handoff, now: Timestamp) -> (r: Option<HandoffResult>)
        ensures
            self.expired(*handoff, now) ==> r matches Some(HandoffResult::Expired),
            !self.expired(*handoff, now) ==> r.is_none(),
    {
        if !handoff.is_valid(self.max_age_ms, now) {
            return Some(HandoffResult::Expired);
        }
        None
    }

    /// Takes a handoff in for a node at the time `now`.
    ///
    /// A handoff that is too old has expired. Where the task needs a
    /// capability, the node must have the first that it needs, or the
    /// capability is missing, and must take work for it, or the node is
    /// overloaded: a capability that the node has but does not offer at
    /// present overloads it. Otherwise the task is taken, and puts out
    /// nothing.
    pub fn process(&self, handoff: &Handoff, node: &Node, now: Timestamp) -> (r: HandoffResult)
        requires
            node.wf(),
        ensures
            if self.expired(*handoff, now) {
                r is Expired
            } else if handoff.task.required_caps@.len() > 0 && !node.capabilities.has(
                handoff.task.required_caps@[0],
            ) {
                r is MissingCapability
            } else if handoff.task.required_caps@.len() > 0 && !node.accepts_capability_work(
                handoff.task.required_caps@[0],
            ) {
                r is Overloaded
            } else {
                r matches HandoffResult::Success { output } && output@.len() == 0
            },
    {
        if let Some(result) = self.validate(handoff, now) {
            return result;
        }
        if handoff.task.required_caps.len() > 0 {
            let cap = handoff.task.required_caps[0];
            if !node.capabilities.contains_key(&cap) {
                return HandoffResult::MissingCapability;
            }
            if !node.can_accept_capability_work(cap) {
                return HandoffResult::Overloaded;
            }
        }
        HandoffResult::Success { output: Vec::new() }
    }
}

impl Default for HandoffHandler {
    /// A handler that takes handoffs of up to one minute in.
    fn default() -> (h: Self)
        ensures
            h.max_age() == 60_000,
    {
        Self::new(60_000)
    }
}

/// The handoff of a task from a node to another at the time `now`, with
/// what the workflow hands on, if the task belongs to one.
pub fn create_handoff(
    from: &Node,
    to_node: NodeId,
    task: Task,
    workflow_ctx: Option<&WorkflowContext>,
    now: Timestamp,
) -> (h: Handoff)
    requires
        workflow_ctx matches Some(ctx) ==> ctx.wf(),
    ensures
        h.from_node == from.id,
        h.to_node == to_node,
        h.task == task,
        h.timestamp == now,
        match workflow_ctx {
            Some(ctx) => {
                &&& h.context.workflow_id == Some(ctx.workflow_id)
                &&& h.context.step_index == ctx.step_index
                &&& h.context.outputs() == Seq::new(
                    ctx.prior_results@.len(),
                    |i: int| ctx.prior_results@[i].output@,
                )
                &&& h.context.entries() == Seq::new(
                    ctx.data.names().len(),
                    |i: int| (ctx.data.names()[i], ctx.data.values()[i]),
                )
                &&& h.context.lineage@ == ctx.lineage@
            },
            None => {
                &&& h.context.workflow_id.is_none()
                &&& h.context.step_index == 0
                &&& h.context.prior_results@.len() == 0
                &&& h.context.accumulated@.len() == 0
                &&& h.context.lineage@.len() == 0
            },
        },
{
    let context = match workflow_ctx {
        Some(ctx) => HandoffContext::from_workflow(ctx),
        None => HandoffContext::new(),
    };
    Handoff::new(from.id, to_node, task, context, now)
}

} // verus!
