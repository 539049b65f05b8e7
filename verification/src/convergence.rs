//! How far the positions of nodes on a decision have come together, and how
//! a decision is taken where they have not.
//!
//! Means, variances and sums of reals are worked out by the caller, in real
//! arithmetic. What is decided here is which positions are kept, which
//! figures are asked for, and what follows from them: the state and the
//! trend of a decision, the side that a position stands on, and the side
//! that wins.

use vstd::prelude::*;
use vstd::slice::slice_subrange;
use crate::constants::{
    CONVERGED_ABOVE, CONVERGING_ABOVE, CRITICAL_TASK, EXPLORING_ABOVE, MIN_ROUNDS, STUCK_ABOVE,
    TREND_MARGIN, TREND_WINDOW,
};
use crate::scalar::{bump, bumped, rank_of, HALF_BITS, ONE_BITS};
use crate::table::Table;
use crate::types::{NodeId, Real, Score, TaskId, Timestamp};

verus! {

/// How far positions have come together.
#[derive(Clone, Copy, Debug, PartialEq, Eq, Structural, Hash)]
pub enum ConvergenceState {
    /// Far apart.
    Polarized,
    /// Little together, and not moving.
    Stuck,
    /// Trying positions out.
    Exploring,
    /// Coming together.
    Converging,
    /// Together.
    Converged,
}

impl ConvergenceState {
    /// The state that a convergence score stands for: each state begins
    /// above its mark.
    pub open spec fn of_score(score: Score) -> ConvergenceState {
        if score.rank() > rank_of(CONVERGED_ABOVE) {
            ConvergenceState::Converged
        } else if score.rank() > rank_of(CONVERGING_ABOVE) {
            ConvergenceState::Converging
        } else if score.rank() > rank_of(EXPLORING_ABOVE) {
            ConvergenceState::Exploring
        } else if score.rank() > rank_of(STUCK_ABOVE) {
            ConvergenceState::Stuck
        } else {
            ConvergenceState::Polarized
        }
    }

    /// The state that a convergence score stands for.
    pub fn from_score(score: Score) -> (state: Self)
        ensures
            state == Self::of_score(score),
    {
        if score.above(CONVERGED_ABOVE) {
            ConvergenceState::Converged
        } else if score.above(CONVERGING_ABOVE) {
            ConvergenceState::Converging
        } else if score.above(EXPLORING_ABOVE) {
            ConvergenceState::Exploring
        } else if score.above(STUCK_ABOVE) {
            ConvergenceState::Stuck
        } else {
            ConvergenceState::Polarized
        }
    }
}

/// Where convergence is heading.
#[derive(Clone, Copy, Debug, PartialEq, Eq, Structural, Hash)]
pub enum ConvergenceTrend {
    /// Up.
    Improving,
    /// Nowhere.
    Stable,
    /// Down.
    Declining,
}

impl ConvergenceTrend {
    /// The trend that a change of the mean convergence score stands for:
    /// improving above the trend margin, declining below its negative, and
    /// stable between the two.
    pub open spec fn of_change(change: Real) -> ConvergenceTrend {
        if change.rank() > rank_of(TREND_MARGIN) {
            ConvergenceTrend::Improving
        } else if change.rank() < -rank_of(TREND_MARGIN) {
            ConvergenceTrend::Declining
        } else {
            ConvergenceTrend::Stable
        }
    }

    /// The trend that a change of the mean convergence score stands for.
    pub fn from_change(change: Real) -> (trend: Self)
        ensures
            trend == Self::of_change(change),
    {
        let margin = Real::from_bits(TREND_MARGIN);
        let negative = Real::from_bits(TREND_MARGIN + crate::scalar::SIGN_BIT);
        if change.gt(&margin) {
            ConvergenceTrend::Improving
        } else if change.lt(&negative) {
            ConvergenceTrend::Declining
        } else {
            ConvergenceTrend::Stable
        }
    }
}

/// A position that a node holds on a decision.
#[derive(Clone, Copy, Debug)]
pub struct Position {
    /// The node that holds the position.
    pub node_id: NodeId,
    /// The position; what it means depends on the task.
    pub value: Real,
    /// How sure the node is of it.
    pub confidence: Score,
    /// When the node stated it.
    pub timestamp: Timestamp,
}

/// The values of positions, in their order.
pub open spec fn values_of(positions: Seq<Position>) -> Seq<Real> {
    positions.map_values(|p: Position| p.value)
}

/// The nodes that hold positions, in the order of the positions.
pub open spec fn holders_of(positions: Seq<Position>) -> Seq<NodeId> {
    positions.map_values(|p: Position| p.node_id)
}

/// Whether `m` is the mean of the positions: zero where there is none, and
/// else what `mean` gives for their values.
pub open spec fn mean_of<M: Fn(&Vec<Real>) -> Real>(positions: Seq<Position>, mean: M, m: Real) -> bool {
    if positions.len() == 0 {
        m.0 == 0
    } else {
        exists|given: Vec<Real>| #[trigger]
            call_ensures(mean, (&given,), m) && given@ == values_of(positions)
    }
}

/// Whether `trend` is the trend over the last `window` scores of a history.
///
/// A history of no more than `window` scores has no trend, nor has a window
/// of fewer than two scores. Else the trend is the one that `change` stands
/// for, which is worked out from the earlier half of the window and the
/// later; of a window of odd length the later half is the longer.
pub open spec fn trend_found<F: Fn(&[(Timestamp, Score)], &[(Timestamp, Score)]) -> Real>(
    history: Seq<(Timestamp, Score)>,
    window: int,
    change: F,
    trend: ConvergenceTrend,
) -> bool {
    if window < 2 || history.len() <= window {
        trend is Stable
    } else {
        let from = history.len() - window;
        let mid = from + window / 2;
        exists|early: &[(Timestamp, Score)], late: &[(Timestamp, Score)], c: Real| #[trigger]
            call_ensures(change, (early, late), c) && early@ == history.subrange(from, mid)
                && late@ == history.subrange(mid, history.len() as int) && trend
                == ConvergenceTrend::of_change(c)
    }
}

/// What is kept on the convergence of the nodes on one task.
#[derive(Debug)]
pub struct ConvergenceTracker {
    /// The task.
    pub task_id: TaskId,
    /// The position of each node, the latest that it stated.
    pub positions: Table<NodeId, Position>,
    /// The convergence scores so far, each with its time.
    pub score_history: Vec<(Timestamp, Score)>,
    /// The number of rounds.
    pub round_count: u32,
    /// The variance at which the positions count as wholly apart.
    pub max_variance: Real,
    /// The convergence score at present.
    pub current_score: Score,
}

impl ConvergenceTracker {
    /// No node has two positions, and each position stands under the node
    /// that holds it.
    pub open spec fn wf(&self) -> bool {
        &&& self.positions.wf()
        &&& forall|i: int|
            0 <= i < self.positions.values().len() ==> (#[trigger] self.positions.values()[i]).node_id
                == self.positions.keys()[i]
    }

    /// Whether `after` is `before` with its score brought up to date at the
    /// time `now`.
    ///
    /// With fewer than two positions the score is one, and the history
    /// stays as it is. Else the score is what `convergence` gives for the
    /// values of the positions and the largest variance, and it is put
    /// behind the history with its time.
    pub open spec fn scored<F: Fn(&Vec<Real>, Real) -> Score>(
        before: ConvergenceTracker,
        after: ConvergenceTracker,
        convergence: F,
        now: Timestamp,
    ) -> bool {
        if after.positions.keys().len() < 2 {
            after.current_score.rank() == ONE_BITS && after.score_history@ == before.score_history@
        } else {
            &&& exists|given: Vec<Real>| #[trigger]
                call_ensures(convergence, (&given, before.max_variance), after.current_score)
                    && given@ == values_of(after.positions.values())
            &&& after.score_history@ == before.score_history@.push((now, after.current_score))
        }
    }

    /// A tracker for a task, without positions, rounds or scores.
    pub fn new(task_id: TaskId, max_variance: Real) -> (t: Self)
        ensures
            t.wf(),
            t.task_id == task_id,
            t.positions.keys().len() == 0,
            t.score_history@.len() == 0,
            t.round_count == 0,
            t.max_variance == max_variance,
            t.current_score.rank() == 0,
    {
        Self {
            task_id,
            positions: Table::new(),
            score_history: Vec::new(),
            round_count: 0,
            max_variance,
            current_score: Score::zero(),
        }
    }

    /// Takes in the position of a node at the time `now`, in place of the
    /// one that the node held, and brings the score up to date (see
    /// `scored`).
    pub fn record_position<F: Fn(&Vec<Real>, Real) -> Score>(
        &mut self,
        position: Position,
        convergence: &F,
        now: Timestamp,
    )
        requires
            old(self).wf(),
            forall|given: &Vec<Real>, limit: Real| call_requires(*convergence, (given, limit)),
        ensures
            final(self).wf(),
            final(self).positions.has(position.node_id),
            final(self).positions.at(position.node_id) == position,
            final(self).positions.keys() == if old(self).positions.has(position.node_id) {
                old(self).positions.keys()
            } else {
                old(self).positions.keys().push(position.node_id)
            },
            forall|other: NodeId|
                other != position.node_id && old(self).positions.has(other) ==> final(self).positions.at(other) == old(self).positions.at(other),
            final(self).task_id == old(self).task_id,
            final(self).round_count == old(self).round_count,
            final(self).max_variance == old(self).max_variance,
            Self::scored(*old(self), *final(self), *convergence, now),
    {
        let ghost held = self.positions;
        self.positions.insert(position.node_id, position);
        proof {
            assert forall|i: int| 0 <= i < self.positions.values().len() implies (
            #[trigger] self.positions.values()[i]).node_id == self.positions.keys()[i] by {
                if held.has(position.node_id) {
                    let at = held.keys().index_of(position.node_id);
                    assert(held.keys()[at] == position.node_id);
                    if i != at {
                        assert(self.positions.values()[i] == held.values()[i]);
                    }
                } else if i < held.values().len() {
                    assert(self.positions.values()[i] == held.values()[i]);
                }
            }
        }
        if self.positions.len() < 2 {
            self.current_score = Score::one();
        } else {
            let all = copy_positions(&self.positions);
            let given = values(&all);
            let score = convergence(&given, self.max_variance);
            self.current_score = score;
            self.score_history.push((now, score));
        }
    }

    /// The convergence score at present.
    pub fn score(&self) -> (s: Score)
        ensures
            s == self.current_score,
    {
        self.current_score
    }

    /// The state that the score at present stands for.
    pub fn state(&self) -> (state: ConvergenceState)
        ensures
            state == ConvergenceState::of_score(self.current_score),
    {
        ConvergenceState::from_score(self.current_score)
    }

    /// The trend over the last `window` scores (see `trend_found`).
    pub fn trend<F: Fn(&[(Timestamp, Score)], &[(Timestamp, Score)]) -> Real>(
        &self,
        window: usize,
        change: &F,
    ) -> (trend: ConvergenceTrend)
        requires
            forall|early: &[(Timestamp, Score)], late: &[(Timestamp, Score)]|
                call_requires(*change, (early, late)),
        ensures
            trend_found(self.score_history@, window as int, *change, trend),
    {
        let n = self.score_history.len();
        if window < 2 || n <= window {
            return ConvergenceTrend::Stable;
        }
        let from = n - window;
        let mid = from + window / 2;
        let all = self.score_history.as_slice();
        let early = slice_subrange(all, from, mid);
        let late = slice_subrange(all, mid, n);
        let c = change(early, late);
        assert(call_ensures(*change, (early, late), c));
        ConvergenceTrend::from_change(c)
    }

    /// Counts one round more. The count stays at the largest number that it
    /// can hold.
    pub fn advance_round(&mut self)
        ensures
            *final(self) == (ConvergenceTracker {
                round_count: bumped(old(self).round_count),
                ..*old(self)
            }),
    {
        self.round_count = bump(self.round_count);
    }

    /// The positions, by the node that holds them.
    pub fn positions(&self) -> (r: &Table<NodeId, Position>)
        ensures
            *r == self.positions,
    {
        &self.positions
    }

    /// The mean of the positions: zero where there is none, and else what
    /// `mean` gives for their values.
    pub fn mean_position<M: Fn(&Vec<Real>) -> Real>(&self, mean: &M) -> (m: Real)
        requires
            self.wf(),
            forall|given: &Vec<Real>| call_requires(*mean, (given,)),
        ensures
            mean_of(self.positions.values(), *mean, m),
    {
        if self.positions.len() == 0 {
            return Real::zero();
        }
        let all = copy_positions(&self.positions);
        let given = values(&all);
        let m = mean(&given);
        assert(call_ensures(*mean, (&given,), m));
        m
    }
}

/// The positions of a table, in its order.
fn copy_positions(positions: &Table<NodeId, Position>) -> (all: Vec<Position>)
    requires
        positions.wf(),
    ensures
        all@ == positions.values(),
{
    let mut all: Vec<Position> = Vec::new();
    let n = positions.len();
    let mut i: usize = 0;
    while i < n
        invariant
            i <= n,
            n == positions.keys().len(),
            positions.wf(),
            all@ == positions.values().take(i as int),
        decreases n - i,
    {
        all.push(*positions.value_at(i));
        assert(all@ =~= positions.values().take(i as int + 1));
        i += 1;
    }
    assert(positions.values().take(n as int) =~= positions.values());
    all
}

/// The values of positions, in their order.
fn values(positions: &Vec<Position>) -> (given: Vec<Real>)
    ensures
        given@ == values_of(positions@),
{
    let mut given: Vec<Real> = Vec::new();
    let mut i: usize = 0;
    while i < positions.len()
        invariant
            i <= positions.len(),
            given@ == values_of(positions@.take(i as int)),
        decreases positions.len() - i,
    {
        given.push(positions[i].value);
        assert(given@ =~= values_of(positions@.take(i as int + 1)));
        i += 1;
    }
    assert(positions@.take(i as int) =~= positions@);
    given
}

/// The nodes that hold positions, in the order of the positions.
fn holders(positions: &Vec<Position>) -> (ids: Vec<NodeId>)
    ensures
        ids@ == holders_of(positions@),
{
    let mut ids: Vec<NodeId> = Vec::new();
    let mut i: usize = 0;
    while i < positions.len()
        invariant
            i <= positions.len(),
            ids@ == holders_of(positions@.take(i as int)),
        decreases positions.len() - i,
    {
        ids.push(positions[i].node_id);
        assert(ids@ =~= holders_of(positions@.take(i as int + 1)));
        i += 1;
    }
    assert(positions@.take(i as int) =~= positions@);
    ids
}

/// Whether the nodes should agree to differ, as far as that goes by the
/// number of rounds, the state and the trend of the decision, and the
/// criticality of the task: at least five rounds have passed, the positions
/// are stuck or polarized, there is no trend, and the task is not critical.
pub open spec fn atd_called_for(
    round_count: u32,
    state: ConvergenceState,
    trend: ConvergenceTrend,
    task_criticality: Score,
) -> bool {
    round_count >= MIN_ROUNDS && (state is Stuck || state is Polarized) && trend is Stable
        && task_criticality.rank() < rank_of(CRITICAL_TASK)
}

/// Whether the nodes should agree to differ on the task of the tracker (see
/// `atd_called_for`). The trend is taken over the last five scores.
pub fn should_invoke_atd<F: Fn(&[(Timestamp, Score)], &[(Timestamp, Score)]) -> Real>(
    tracker: &ConvergenceTracker,
    task_criticality: Score,
    change: &F,
) -> (r: bool)
    requires
        forall|early: &[(Timestamp, Score)], late: &[(Timestamp, Score)]|
            call_requires(*change, (early, late)),
    ensures
        exists|trend: ConvergenceTrend| #[trigger]
            trend_found(tracker.score_history@, TREND_WINDOW as int, *change, trend) && r
                == atd_called_for(
                tracker.round_count,
                ConvergenceState::of_score(tracker.current_score),
                trend,
                task_criticality,
            ),
{
    let state = tracker.state();
    let trend = tracker.trend(TREND_WINDOW, change);
    assert(trend_found(tracker.score_history@, TREND_WINDOW as int, *change, trend));
    tracker.round_count >= MIN_ROUNDS && matches!(
        state,
        ConvergenceState::Stuck | ConvergenceState::Polarized
    ) && matches!(trend, ConvergenceTrend::Stable) && task_criticality.below(CRITICAL_TASK)
}

/// What the nodes agreed on when they agreed to differ.
#[derive(Debug)]
pub struct AgreeToDisagreeResult {
    /// The position that was chosen.
    pub chosen_position: Real,
    /// The nodes on the side that won.
    pub agreeing_nodes: Vec<NodeId>,
    /// The nodes on the other side. Their dissent is kept, and costs them
    /// nothing.
    pub dissenting_nodes: Vec<NodeId>,
    /// How sure the decision is.
    pub confidence: Score,
}

/// The test whether a position lies at or above `m`.
pub open spec fn at_or_above(m: Real) -> spec_fn(Position) -> bool {
    |p: Position| p.value.rank() >= m.rank()
}

/// The test whether a position lies below `m`.
pub open spec fn beneath(m: Real) -> spec_fn(Position) -> bool {
    |p: Position| p.value.rank() < m.rank()
}

/// Whether `given` are the trusts in the nodes that hold the positions, in
/// the order of the positions: for each node the trust that the table has
/// for it, and one half where the table has none.
pub open spec fn trusts_in(
    positions: Seq<Position>,
    node_trusts: Table<NodeId, Score>,
    given: Seq<Score>,
) -> bool {
    &&& given.len() == positions.len()
    &&& forall|i: int|
        0 <= i < positions.len() ==> if node_trusts.has(positions[i].node_id) {
            #[trigger] given[i] == node_trusts.at(positions[i].node_id)
        } else {
            given[i].rank() == HALF_BITS
        }
}

/// Whether `weight` is the weight of a side: what `total` gives for the
/// trusts in the nodes of the side.
pub open spec fn weighs<T: Fn(&Vec<Score>) -> Real>(
    side: Seq<Position>,
    node_trusts: Table<NodeId, Score>,
    total: T,
    weight: Real,
) -> bool {
    exists|given: Vec<Score>| #[trigger]
        call_ensures(total, (&given,), weight) && trusts_in(side, node_trusts, given@)
}

/// Whether `chosen` is the position of the side that won: the mean of all
/// positions where the side is empty, and else what `weighted` gives for the
/// values of its positions and the trusts in the nodes that hold them.
pub open spec fn chosen_by<W: Fn(&Vec<Real>, &Vec<Score>) -> Real>(
    winners: Seq<Position>,
    node_trusts: Table<NodeId, Score>,
    weighted: W,
    m: Real,
    chosen: Real,
) -> bool {
    if winners.len() == 0 {
        chosen == m
    } else {
        exists|given: Vec<Real>, trusts: Vec<Score>| #[trigger]
            call_ensures(weighted, (&given, &trusts), chosen) && given@ == values_of(winners)
                && trusts_in(winners, node_trusts, trusts@)
    }
}

/// Whether `r` is what the nodes agree on, given the mean `m` of their
/// positions and the weights of the two sides.
///
/// The positions at or above the mean are one side, those below it the
/// other. The side at or above the mean wins unless the other weighs more.
/// The nodes of the side that won agree, those of the other dissent, each
/// in the order of the positions.
pub open spec fn settled<W: Fn(&Vec<Real>, &Vec<Score>) -> Real, C: Fn(Real, Real) -> Score>(
    positions: Seq<Position>,
    node_trusts: Table<NodeId, Score>,
    weighted: W,
    confide: C,
    m: Real,
    above_weight: Real,
    below_weight: Real,
    r: AgreeToDisagreeResult,
) -> bool {
    let above = positions.filter(at_or_above(m));
    let below = positions.filter(beneath(m));
    let winners = if above_weight.rank() >= below_weight.rank() {
        above
    } else {
        below
    };
    let losers = if above_weight.rank() >= below_weight.rank() {
        below
    } else {
        above
    };
    &&& r.agreeing_nodes@ == holders_of(winners)
    &&& r.dissenting_nodes@ == holders_of(losers)
    &&& chosen_by(winners, node_trusts, weighted, m, r.chosen_position)
    &&& call_ensures(confide, (above_weight, below_weight), r.confidence)
}

/// Whether `m` is the mean of the positions, and the two weights are those
/// of the side at or above it and of the side below it.
pub open spec fn weighed<M: Fn(&Vec<Real>) -> Real, T: Fn(&Vec<Score>) -> Real>(
    positions: Seq<Position>,
    node_trusts: Table<NodeId, Score>,
    mean: M,
    total: T,
    m: Real,
    above_weight: Real,
    below_weight: Real,
) -> bool {
    &&& mean_of(positions, mean, m)
    &&& weighs(positions.filter(at_or_above(m)), node_trusts, total, above_weight)
    &&& weighs(positions.filter(beneath(m)), node_trusts, total, below_weight)
}

/// Whether `r` is what the nodes agree on when they agree to differ.
///
/// With fewer than two positions there is nothing to differ on: the mean
/// position is chosen, every node agrees, and the decision is sure. Else
/// the positions are split at their mean, each side weighs what the trust
/// in its nodes comes to, and the heavier side wins (see `settled`).
pub open spec fn agreed<
    M: Fn(&Vec<Real>) -> Real,
    T: Fn(&Vec<Score>) -> Real,
    W: Fn(&Vec<Real>, &Vec<Score>) -> Real,
    C: Fn(Real, Real) -> Score,
>(
    positions: Seq<Position>,
    node_trusts: Table<NodeId, Score>,
    mean: M,
    total: T,
    weighted: W,
    confide: C,
    r: AgreeToDisagreeResult,
) -> bool {
    if positions.len() < 2 {
        &&& mean_of(positions, mean, r.chosen_position)
        &&& r.agreeing_nodes@ == holders_of(positions)
        &&& r.dissenting_nodes@.len() == 0
        &&& r.confidence.rank() == ONE_BITS
    } else {
        exists|m: Real, above_weight: Real, below_weight: Real| #[trigger]
            weighed(positions, node_trusts, mean, total, m, above_weight, below_weight) && settled(
                positions,
                node_trusts,
                weighted,
                confide,
                m,
                above_weight,
                below_weight,
                r,
            )
    }
}

/// The positions at or above `m`, and those below it, each in their order.
fn split(positions: &Vec<Position>, m: Real) -> (sides: (Vec<Position>, Vec<Position>))
    ensures
        sides.0@ == positions@.filter(at_or_above(m)),
        sides.1@ == positions@.filter(beneath(m)),
{
    let mut above: Vec<Position> = Vec::new();
    let mut below: Vec<Position> = Vec::new();
    let mut i: usize = 0;
    while i < positions.len()
        invariant
            i <= positions.len(),
            above@ == positions@.take(i as int).filter(at_or_above(m)),
            below@ == positions@.take(i as int).filter(beneath(m)),
        decreases positions.len() - i,
    {
        let p = positions[i];
        proof {
            let seen = positions@.take(i as int);
            assert(positions@.take(i as int + 1) =~= seen.push(p));
            seen.lemma_filter_push(p, at_or_above(m));
            seen.lemma_filter_push(p, beneath(m));
        }
        if p.value.ge(&m) {
            above.push(p);
        } else {
            below.push(p);
        }
        i += 1;
    }
    assert(positions@.take(i as int) =~= positions@);
    (above, below)
}

/// The trusts in the nodes that hold the positions, in the order of the
/// positions.
fn trusts_for(positions: &Vec<Position>, node_trusts: &Table<NodeId, Score>) -> (given: Vec<Score>)
    requires
        node_trusts.wf(),
    ensures
        trusts_in(positions@, *node_trusts, given@),
{
    let mut given: Vec<Score> = Vec::new();
    let mut i: usize = 0;
    while i < positions.len()
        invariant
            i <= positions.len(),
            node_trusts.wf(),
            trusts_in(positions@.take(i as int), *node_trusts, given@),
        decreases positions.len() - i,
    {
        let trust = match node_trusts.get(&positions[i].node_id) {
            Some(held) => *held,
            None => Score::half(),
        };
        given.push(trust);
        i += 1;
    }
    assert(positions@.take(i as int) =~= positions@);
    given
}

/// Lets the nodes agree to differ: chooses between the positions at or
/// above the mean and those below it, by the trust in the nodes that hold
/// them (see `agreed`).
pub fn execute_atd<
    M: Fn(&Vec<Real>) -> Real,
    T: Fn(&Vec<Score>) -> Real,
    W: Fn(&Vec<Real>, &Vec<Score>) -> Real,
    C: Fn(Real, Real) -> Score,
>(
    tracker: &ConvergenceTracker,
    node_trusts: &Table<NodeId, Score>,
    mean: &M,
    total: &T,
    weighted: &W,
    confide: &C,
) -> (r: AgreeToDisagreeResult)
    requires
        tracker.wf(),
        node_trusts.wf(),
        forall|given: &Vec<Real>| call_requires(*mean, (given,)),
        forall|given: &Vec<Score>| call_requires(*total, (given,)),
        forall|given: &Vec<Real>, trusts: &Vec<Score>| call_requires(*weighted, (given, trusts)),
        forall|above: Real, below: Real| call_requires(*confide, (above, below)),
    ensures
        agreed(tracker.positions.values(), *node_trusts, *mean, *total, *weighted, *confide, r),
{
    let all = copy_positions(&tracker.positions);
    let m = tracker.mean_position(mean);
    if all.len() < 2 {
        return AgreeToDisagreeResult {
            chosen_position: m,
            agreeing_nodes: holders(&all),
            dissenting_nodes: Vec::new(),
            confidence: Score::one(),
        };
    }
    let (above, below) = split(&all, m);
    let above_trusts = trusts_for(&above, node_trusts);
    let below_trusts = trusts_for(&below, node_trusts);
    let above_weight = total(&above_trusts);
    let below_weight = total(&below_trusts);
    assert(call_ensures(*total, (&above_trusts,), above_weight));
    assert(call_ensures(*total, (&below_trusts,), below_weight));
    assert(weighed(all@, *node_trusts, *mean, *total, m, above_weight, below_weight));
    let above_wins = above_weight.ge(&below_weight);
    let (winners, winner_trusts, losers) = if above_wins {
        (above, above_trusts, below)
    } else {
        (below, below_trusts, above)
    };
    let chosen = if winners.len() == 0 {
        m
    } else {
        let given = values(&winners);
        let chosen = weighted(&given, &winner_trusts);
        assert(call_ensures(*weighted, (&given, &winner_trusts), chosen));
        chosen
    };
    let confidence = confide(above_weight, below_weight);
    let r = AgreeToDisagreeResult {
        chosen_position: chosen,
        agreeing_nodes: holders(&winners),
        dissenting_nodes: holders(&losers),
        confidence,
    };
    assert(settled(
        all@,
        *node_trusts,
        *weighted,
        *confide,
        m,
        above_weight,
        below_weight,
        r,
    ));
    r
}

} // verus!
