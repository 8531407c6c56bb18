//! One leaf-range query as a sequence of steps.
//!
//! The state engine is reached by the caller, so a query is a small machine:
//! each step says what the caller does next (ask the engine for its current
//! snapshot, fetch one leaf, or hand out the answer), and the caller feeds what
//! the engine gave into the next transition. The range guard comes first, and
//! a range that it refuses never asks anything of the engine.

use vstd::prelude::*;
use crate::error::EngineError;
use crate::error::QueryError;

verus! {

/// The content commitment of one leaf.
pub type Leaf = [u8; 32];

/// What the engine gives for one fetch: a failure, an unwritten slot
/// (`Ok(None)`), or the leaf that is present.
pub type Fetched = Result<Option<Leaf>, EngineError>;

/// What a fetch gives where `leaf` is present.
pub open spec fn holds(leaf: Leaf) -> Fetched {
    Ok(Some(leaf))
}

/// What a fetch gives at a slot that was never written.
pub open spec fn unwritten() -> Fetched {
    Ok(None)
}

/// A range that spans this many indices or more is refused.
pub const MAX_SPAN: usize = 512;

/// A validated range of a tree: `from <= to` and `to - from < MAX_SPAN`.
pub struct RangeModel {
    pub tree_id: u32,
    pub from: int,
    pub to: int,
}

/// A query in progress: the leaves of `[from, next)` that were present are
/// collected, and the leaf at `next` is the one to fetch.
pub struct QueryModel<S> {
    pub tree_id: u32,
    pub from: int,
    pub to: int,
    pub snapshot: S,
    pub next: int,
    pub leaves: Seq<Leaf>,
}

/// The model of a step.
pub enum StepModel<S> {
    /// The engine's current snapshot is wanted.
    Resolve(RangeModel),
    /// The leaf at `(snapshot, tree_id, next)` is wanted.
    Fetch(QueryModel<S>),
    /// The call is over, with its answer.
    Done(Result<Seq<Leaf>, QueryError>),
}

/// Goes on fetching while indices are left, and answers with the collected
/// leaves once the range is exhausted.
pub open spec fn settle<S>(q: QueryModel<S>) -> StepModel<S> {
    if q.next < q.to {
        StepModel::Fetch(q)
    } else {
        StepModel::Done(Ok(q.leaves))
    }
}

/// The first step of a query on a validated range once its snapshot is known.
pub open spec fn pinned<S>(range: RangeModel, snapshot: S) -> StepModel<S> {
    settle(
        QueryModel {
            tree_id: range.tree_id,
            from: range.from,
            to: range.to,
            snapshot,
            next: range.from,
            leaves: Seq::empty(),
        },
    )
}

/// An answer as a sequence of leaves.
pub open spec fn answer_model(answer: Result<Vec<Leaf>, QueryError>) -> Result<Seq<Leaf>, QueryError> {
    match answer {
        Ok(leaves) => Ok(leaves@),
        Err(e) => Err(e),
    }
}

/// The first step of a call. An inverted range is `InvalidRange`; a span of
/// `MAX_SPAN` or more is `RangeTooLarge`; both end the call at once. Otherwise
/// a call without a snapshot asks for the engine's current one, and a call
/// with a snapshot goes on with it.
pub open spec fn opened<S>(tree_id: u32, from: int, to: int, at: Option<S>) -> StepModel<S> {
    if to < from {
        StepModel::Done(Err(QueryError::InvalidRange))
    } else if to - from >= MAX_SPAN {
        StepModel::Done(Err(QueryError::RangeTooLarge))
    } else {
        match at {
            Some(snapshot) => pinned(RangeModel { tree_id, from, to }, snapshot),
            None => StepModel::Resolve(RangeModel { tree_id, from, to }),
        }
    }
}

/// The step after a fetch. A failure of the engine ends the call with that
/// failure; an unwritten slot is passed over; a present leaf is appended.
pub open spec fn supplied<S>(q: QueryModel<S>, fetched: Fetched) -> StepModel<S> {
    match fetched {
        Err(e) => StepModel::Done(Err(QueryError::Engine(e))),
        Ok(None) => settle(QueryModel { next: q.next + 1, ..q }),
        Ok(Some(leaf)) => settle(QueryModel { next: q.next + 1, leaves: q.leaves.push(leaf), ..q }),
    }
}

/// A validated range whose snapshot is still to be resolved.
#[derive(Debug)]
pub struct Unresolved {
    tree_id: u32,
    from: usize,
    to: usize,
}

/// A query with its snapshot, waiting for the leaf at `index()`.
#[derive(Debug)]
pub struct LeafQuery<S> {
    tree_id: u32,
    from: usize,
    to: usize,
    snapshot: S,
    next: usize,
    leaves: Vec<Leaf>,
}

/// What the caller does next.
#[derive(Debug)]
pub enum Step<S> {
    /// Ask the engine for its current snapshot and call `Unresolved::resolve`.
    Resolve(Unresolved),
    /// Fetch the leaf that the query names and call `LeafQuery::supply`.
    Fetch(LeafQuery<S>),
    /// Return this answer.
    Done(Result<Vec<Leaf>, QueryError>),
}

impl View for Unresolved {
    type V = RangeModel;

    closed spec fn view(&self) -> RangeModel {
        RangeModel { tree_id: self.tree_id, from: self.from as int, to: self.to as int }
    }
}

impl<S> View for LeafQuery<S> {
    type V = QueryModel<S>;

    closed spec fn view(&self) -> QueryModel<S> {
        QueryModel {
            tree_id: self.tree_id,
            from: self.from as int,
            to: self.to as int,
            snapshot: self.snapshot,
            next: self.next as int,
            leaves: self.leaves@,
        }
    }
}

impl<S> View for Step<S> {
    type V = StepModel<S>;

    open spec fn view(&self) -> StepModel<S> {
        match self {
            Step::Resolve(range) => StepModel::Resolve(range@),
            Step::Fetch(query) => StepModel::Fetch(query@),
            Step::Done(Ok(leaves)) => StepModel::Done(Ok(leaves@)),
            Step::Done(Err(e)) => StepModel::Done(Err(*e)),
        }
    }
}

impl Unresolved {
    #[verifier::type_invariant]
    spec fn valid(self) -> bool {
        self.from <= self.to && self.to - self.from < MAX_SPAN
    }

    /// Goes on with `head`, the engine's current snapshot, for every fetch of
    /// the call.
    pub fn resolve<S>(self, head: S) -> (step: Step<S>)
        ensures
            step@ == pinned(self@, head),
    {
        proof {
            use_type_invariant(&self);
        }
        begin(self.tree_id, self.from, self.to, head)
    }
}

impl<S> LeafQuery<S> {
    #[verifier::type_invariant]
    spec fn valid(self) -> bool {
        &&& self.from <= self.next < self.to
        &&& self.to - self.from < MAX_SPAN
        &&& self.leaves@.len() <= self.next - self.from
    }

    /// The snapshot that every fetch of this call reads.
    pub fn snapshot(&self) -> (s: &S)
        ensures
            *s == self@.snapshot,
    {
        &self.snapshot
    }

    /// The tree that is read.
    pub fn tree_id(&self) -> (t: u32)
        ensures
            t == self@.tree_id,
    {
        self.tree_id
    }

    /// The index of the leaf to fetch. It lies in the range that was asked
    /// for.
    pub fn index(&self) -> (i: usize)
        ensures
            i == self@.next,
            self@.from <= i < self@.to,
    {
        proof {
            use_type_invariant(self);
        }
        self.next
    }

    /// Takes what the engine gave for the leaf at `index()` and says what
    /// comes next.
    pub fn supply(self, fetched: Fetched) -> (step: Step<S>)
        ensures
            step@ == supplied(self@, fetched),
    {
        proof {
            use_type_invariant(&self);
        }
        let LeafQuery { tree_id, from, to, snapshot, next, leaves } = self;
        let mut leaves = leaves;
        match fetched {
            Err(e) => Step::Done(Err(QueryError::Engine(e))),
            Ok(found) => {
                match found {
                    Some(leaf) => {
                        leaves.push(leaf);
                    },
                    None => {},
                }
                proceed(tree_id, from, to, snapshot, next + 1, leaves)
            },
        }
    }
}

/// The step of a query that has collected `leaves` from `[from, next)`.
fn proceed<S>(tree_id: u32, from: usize, to: usize, snapshot: S, next: usize, leaves: Vec<Leaf>) -> (step: Step<S>)
    requires
        from <= next <= to,
        to - from < MAX_SPAN,
        leaves@.len() <= next - from,
    ensures
        step@ == settle(
            QueryModel {
                tree_id,
                from: from as int,
                to: to as int,
                snapshot,
                next: next as int,
                leaves: leaves@,
            },
        ),
{
    if next < to {
        Step::Fetch(LeafQuery { tree_id, from, to, snapshot, next, leaves })
    } else {
        Step::Done(Ok(leaves))
    }
}

/// The first step of a query on a validated range with its snapshot.
fn begin<S>(tree_id: u32, from: usize, to: usize, snapshot: S) -> (step: Step<S>)
    requires
        from <= to,
        to - from < MAX_SPAN,
    ensures
        step@ == pinned(RangeModel { tree_id, from: from as int, to: to as int }, snapshot),
{
    proceed(tree_id, from, to, snapshot, from, Vec::new())
}

/// Opens a call for the leaves of `tree_id` in `[from, to)`, read at `at` or,
/// without it, at the engine's current snapshot, and says what the caller
/// does first.
///
/// The range guard is applied before anything is asked of the engine: an
/// inverted range is `InvalidRange`, a span of `MAX_SPAN` or more is
/// `RangeTooLarge`, and either ends the call here. The steps that follow fetch
/// the indices in ascending order, all at one snapshot.
pub fn open<S>(tree_id: u32, from: usize, to: usize, at: Option<S>) -> (step: Step<S>)
    ensures
        step@ == opened(tree_id, from as int, to as int, at),
{
    if to < from {
        Step::Done(Err(QueryError::InvalidRange))
    } else if to - from >= MAX_SPAN {
        Step::Done(Err(QueryError::RangeTooLarge))
    } else {
        match at {
            Some(snapshot) => begin(tree_id, from, to, snapshot),
            None => Step::Resolve(Unresolved { tree_id, from, to }),
        }
    }
}

} // verus!
