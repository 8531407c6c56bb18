//! What a whole call returns, and what it asks of the engine.
//!
//! The engine is modelled by its current snapshot and by what a fetch gives
//! at each `(snapshot, tree, index)`. `run` and `fetches` follow the steps of
//! a call against such an engine; `answer` and `asked` say the same thing
//! directly, and the laws below relate them.

use vstd::prelude::*;
use crate::error::QueryError;
use crate::query::opened;
use crate::query::pinned;
use crate::query::settle;
use crate::query::supplied;
use crate::query::holds;
use crate::query::unwritten;
use crate::query::Fetched;
use crate::query::Leaf;
use crate::query::QueryModel;
use crate::query::StepModel;
use crate::query::MAX_SPAN;

verus! {

/// A state engine as a call sees it.
#[verifier::reject_recursive_types(S)]
pub struct EngineModel<S> {
    /// The most recent snapshot.
    pub head: S,
    /// What a fetch at `(snapshot, tree, index)` gives.
    pub leaf: spec_fn(S, u32, int) -> Fetched,
}

/// One fetch: the snapshot, the tree and the index that are handed to the
/// engine.
pub type Request<S> = (S, u32, int);

/// A bound on the number of steps that remain.
pub open spec fn weight<S>(step: StepModel<S>) -> nat {
    match step {
        StepModel::Done(_) => 0,
        StepModel::Fetch(q) => if q.next < q.to {
            (1 + q.to - q.next) as nat
        } else {
            1
        },
        StepModel::Resolve(range) => if range.from < range.to {
            (2 + range.to - range.from) as nat
        } else {
            2
        },
    }
}

/// The answer that the steps from `step` on reach against `engine`.
pub open spec fn run<S>(engine: EngineModel<S>, step: StepModel<S>) -> Result<Seq<Leaf>, QueryError>
    decreases weight(step),
{
    match step {
        StepModel::Done(answer) => answer,
        StepModel::Resolve(range) => run(engine, pinned(range, engine.head)),
        StepModel::Fetch(q) => run(engine, supplied(q, (engine.leaf)(q.snapshot, q.tree_id, q.next))),
    }
}

/// The fetches that the steps from `step` on make against `engine`, in the
/// order in which they are made.
pub open spec fn fetches<S>(engine: EngineModel<S>, step: StepModel<S>) -> Seq<Request<S>>
    decreases weight(step),
{
    match step {
        StepModel::Done(_) => Seq::empty(),
        StepModel::Resolve(range) => fetches(engine, pinned(range, engine.head)),
        StepModel::Fetch(q) => seq![(q.snapshot, q.tree_id, q.next)] + fetches(
            engine,
            supplied(q, (engine.leaf)(q.snapshot, q.tree_id, q.next)),
        ),
    }
}

/// The least index of `[from, to)` at which the engine fails, if there is one.
pub open spec fn first_failure<S>(engine: EngineModel<S>, snapshot: S, tree_id: u32, from: int, to: int) -> Option<int>
    decreases to - from,
{
    if from >= to {
        None
    } else if (engine.leaf)(snapshot, tree_id, from) is Err {
        Some(from)
    } else {
        first_failure(engine, snapshot, tree_id, from + 1, to)
    }
}

/// The leaves that are present in `[from, to)`, in ascending index order; an
/// index without a leaf contributes nothing.
pub open spec fn present<S>(engine: EngineModel<S>, snapshot: S, tree_id: u32, from: int, to: int) -> Seq<Leaf>
    decreases to - from,
{
    if from >= to {
        Seq::empty()
    } else {
        match (engine.leaf)(snapshot, tree_id, from) {
            Ok(Some(leaf)) => seq![leaf] + present(engine, snapshot, tree_id, from + 1, to),
            _ => present(engine, snapshot, tree_id, from + 1, to),
        }
    }
}

/// One fetch for each index of `[from, to)`, ascending, all at `snapshot`.
pub open spec fn range_fetches<S>(snapshot: S, tree_id: u32, from: int, to: int) -> Seq<Request<S>> {
    Seq::new((to - from) as nat, |k: int| (snapshot, tree_id, from + k))
}

/// The snapshot that a call reads: the one it names or, without one, the
/// engine's current snapshot.
pub open spec fn snapshot_read<S>(engine: EngineModel<S>, at: Option<S>) -> S {
    match at {
        Some(snapshot) => snapshot,
        None => engine.head,
    }
}

/// What a call returns. A range that the guard refuses gives the guard's
/// error. Otherwise the first failure of the engine in the range is the
/// answer, and without a failure the answer is the present leaves.
pub open spec fn answer<S>(engine: EngineModel<S>, tree_id: u32, from: int, to: int, at: Option<S>) -> Result<Seq<Leaf>, QueryError> {
    let snapshot = snapshot_read(engine, at);
    if to < from {
        Err(QueryError::InvalidRange)
    } else if to - from >= MAX_SPAN {
        Err(QueryError::RangeTooLarge)
    } else {
        match first_failure(engine, snapshot, tree_id, from, to) {
            Some(i) => Err(QueryError::Engine((engine.leaf)(snapshot, tree_id, i)->Err_0)),
            None => Ok(present(engine, snapshot, tree_id, from, to)),
        }
    }
}

/// What a call asks of the engine. A range that the guard refuses asks
/// nothing. Otherwise the indices are fetched in ascending order up to the
/// end of the range or to the first failure, whichever comes first.
pub open spec fn asked<S>(engine: EngineModel<S>, tree_id: u32, from: int, to: int, at: Option<S>) -> Seq<Request<S>> {
    let snapshot = snapshot_read(engine, at);
    if to < from || to - from >= MAX_SPAN {
        Seq::empty()
    } else {
        match first_failure(engine, snapshot, tree_id, from, to) {
            Some(i) => range_fetches(snapshot, tree_id, from, i + 1),
            None => range_fetches(snapshot, tree_id, from, to),
        }
    }
}

/// The engine that gave `seen`, one after the other, for the indices from
/// `from` on, read at any snapshot of any tree; every other slot is unwritten.
pub open spec fn recorded<S>(head: S, from: int, seen: Seq<Fetched>) -> EngineModel<S> {
    EngineModel {
        head,
        leaf: |snapshot: S, tree_id: u32, i: int|
            if from <= i < from + seen.len() {
                seen[i - from]
            } else {
                unwritten()
            },
    }
}

/// A failure that `first_failure` finds lies in the range, is a failure, and
/// has no failure before it.
pub proof fn lemma_first_failure<S>(engine: EngineModel<S>, snapshot: S, tree_id: u32, from: int, to: int)
    ensures
        match first_failure(engine, snapshot, tree_id, from, to) {
            Some(i) => {
                &&& from <= i < to
                &&& (engine.leaf)(snapshot, tree_id, i) is Err
                &&& forall|j: int| from <= j < i ==> (#[trigger] (engine.leaf)(snapshot, tree_id, j)) is Ok
            },
            None => forall|j: int| from <= j < to ==> (#[trigger] (engine.leaf)(snapshot, tree_id, j)) is Ok,
        },
    decreases to - from,
{
    if from < to {
        lemma_first_failure(engine, snapshot, tree_id, from + 1, to);
    }
}

/// From any state of a query, the steps collect the present leaves of the
/// indices that are left, or stop at the first failure among them.
proof fn lemma_run_from<S>(engine: EngineModel<S>, q: QueryModel<S>)
    requires
        q.next <= q.to,
    ensures
        run(engine, settle(q)) == (match first_failure(engine, q.snapshot, q.tree_id, q.next, q.to) {
            Some(i) => Err(QueryError::Engine((engine.leaf)(q.snapshot, q.tree_id, i)->Err_0)),
            None => Ok(q.leaves + present(engine, q.snapshot, q.tree_id, q.next, q.to)),
        }),
        fetches(engine, settle(q)) == (match first_failure(engine, q.snapshot, q.tree_id, q.next, q.to) {
            Some(i) => range_fetches(q.snapshot, q.tree_id, q.next, i + 1),
            None => range_fetches(q.snapshot, q.tree_id, q.next, q.to),
        }),
    decreases q.to - q.next,
{
    let tail = present(engine, q.snapshot, q.tree_id, q.next + 1, q.to);
    if q.next < q.to {
        let fetched = (engine.leaf)(q.snapshot, q.tree_id, q.next);
        let here = seq![(q.snapshot, q.tree_id, q.next)];
        let then = supplied(q, fetched);
        assert(run(engine, settle(q)) == run(engine, then));
        assert(fetches(engine, settle(q)) == here + fetches(engine, then));
        match fetched {
            Err(_) => {
                assert(run(engine, then) == then->Done_0);
                assert(fetches(engine, then) =~= Seq::<Request<S>>::empty());
                assert(here + Seq::<Request<S>>::empty() =~= here);
                assert(here =~= range_fetches(q.snapshot, q.tree_id, q.next, q.next + 1));
            },
            Ok(found) => {
                let after = match found {
                    Some(leaf) => QueryModel { next: q.next + 1, leaves: q.leaves.push(leaf), ..q },
                    None => QueryModel { next: q.next + 1, ..q },
                };
                assert(supplied(q, fetched) == settle(after));
                lemma_run_from(engine, after);
                lemma_first_failure(engine, q.snapshot, q.tree_id, q.next + 1, q.to);
                match found {
                    Some(leaf) => {
                        assert(q.leaves.push(leaf) + tail =~= q.leaves + (seq![leaf] + tail));
                    },
                    None => {},
                }
                let end = match first_failure(engine, q.snapshot, q.tree_id, q.next, q.to) {
                    Some(i) => i + 1,
                    None => q.to,
                };
                assert(here + range_fetches(q.snapshot, q.tree_id, q.next + 1, end) =~= range_fetches(
                    q.snapshot,
                    q.tree_id,
                    q.next,
                    end,
                ));
            },
        }
    } else {
        assert(run(engine, settle(q)) == Ok::<Seq<Leaf>, QueryError>(q.leaves));
        assert(fetches(engine, settle(q)) =~= Seq::<Request<S>>::empty());
        assert(q.leaves + Seq::<Leaf>::empty() =~= q.leaves);
        assert(range_fetches(q.snapshot, q.tree_id, q.next, q.to) =~= Seq::<Request<S>>::empty());
    }
}

/// Following the steps of a call against an engine gives `answer`, and the
/// fetches made on the way are `asked`: for every tree, range and snapshot,
/// whatever the engine holds.
pub proof fn law_call_gives_answer<S>(engine: EngineModel<S>, tree_id: u32, from: int, to: int, at: Option<S>)
    ensures
        run(engine, opened(tree_id, from, to, at)) == answer(engine, tree_id, from, to, at),
        fetches(engine, opened(tree_id, from, to, at)) == asked(engine, tree_id, from, to, at),
{
    if from <= to && to - from < MAX_SPAN {
        let snapshot = snapshot_read(engine, at);
        let start = QueryModel { tree_id, from, to, snapshot, next: from, leaves: Seq::<Leaf>::empty() };
        lemma_run_from(engine, start);
        let all = present(engine, snapshot, tree_id, from, to);
        assert(Seq::<Leaf>::empty() + all =~= all);
    }
}

/// A range that spans `MAX_SPAN` indices or more is refused with
/// `RangeTooLarge` at the first step, and nothing is fetched: whatever the
/// tree, the snapshot and the engine.
pub proof fn law_oversized_range_is_refused<S>(engine: EngineModel<S>, tree_id: u32, from: int, to: int, at: Option<S>)
    requires
        to - from >= MAX_SPAN,
    ensures
        opened(tree_id, from, to, at) == StepModel::<S>::Done(Err(QueryError::RangeTooLarge)),
        run(engine, opened(tree_id, from, to, at)) == Err::<Seq<Leaf>, QueryError>(QueryError::RangeTooLarge),
        fetches(engine, opened(tree_id, from, to, at)) == Seq::<Request<S>>::empty(),
{
    law_call_gives_answer(engine, tree_id, from, to, at);
}

/// An empty range passes the guard and is answered with no leaves and
/// without a fetch.
pub proof fn law_empty_range<S>(engine: EngineModel<S>, tree_id: u32, from: int, at: Option<S>)
    ensures
        run(engine, opened(tree_id, from, from, at)) == Ok::<Seq<Leaf>, QueryError>(Seq::empty()),
        fetches(engine, opened(tree_id, from, from, at)) == Seq::<Request<S>>::empty(),
{
    law_call_gives_answer(engine, tree_id, from, from, at);
    assert(range_fetches(snapshot_read(engine, at), tree_id, from, from) =~= Seq::<Request<S>>::empty());
}

/// The present leaves of a range are those of its first part followed by
/// those of the rest: the order of the leaves is the order of their indices.
pub proof fn law_present_splits<S>(engine: EngineModel<S>, snapshot: S, tree_id: u32, from: int, mid: int, to: int)
    requires
        from <= mid <= to,
    ensures
        present(engine, snapshot, tree_id, from, to) == present(engine, snapshot, tree_id, from, mid) + present(
            engine,
            snapshot,
            tree_id,
            mid,
            to,
        ),
    decreases mid - from,
{
    let rest = present(engine, snapshot, tree_id, mid, to);
    if from < mid {
        law_present_splits(engine, snapshot, tree_id, from + 1, mid, to);
        let inner = present(engine, snapshot, tree_id, from + 1, mid);
        match (engine.leaf)(snapshot, tree_id, from) {
            Ok(Some(leaf)) => {
                assert(seq![leaf] + (inner + rest) =~= (seq![leaf] + inner) + rest);
            },
            _ => {},
        }
    } else {
        assert(Seq::<Leaf>::empty() + rest =~= rest);
    }
}

/// What the engine gives at each index of `[from, to)`, in ascending order.
pub open spec fn range_contents<S>(engine: EngineModel<S>, snapshot: S, tree_id: u32, from: int, to: int) -> Seq<Fetched> {
    Seq::new((to - from) as nat, |k: int| (engine.leaf)(snapshot, tree_id, from + k))
}

/// The leaf that a fetch gave, if it gave one.
pub open spec fn leaf_of(fetched: Fetched) -> Option<Leaf> {
    match fetched {
        Ok(Some(leaf)) => Some(leaf),
        _ => None,
    }
}

/// The present leaves of a range are what the engine gives at its indices,
/// taken in ascending order, with everything but the leaves dropped: no
/// placeholder stands for an index without a leaf, and no leaf changes place
/// with another.
pub proof fn law_present_is_contents_without_gaps<S>(
    engine: EngineModel<S>,
    snapshot: S,
    tree_id: u32,
    from: int,
    to: int,
)
    requires
        from <= to,
    ensures
        present(engine, snapshot, tree_id, from, to) == range_contents(engine, snapshot, tree_id, from, to).filter_map(
            |fetched: Fetched| leaf_of(fetched),
        ),
    decreases to - from,
{
    let pick = |fetched: Fetched| leaf_of(fetched);
    let contents = range_contents(engine, snapshot, tree_id, from, to);
    if from < to {
        law_present_is_contents_without_gaps(engine, snapshot, tree_id, from, to - 1);
        law_present_splits(engine, snapshot, tree_id, from, to - 1, to);
        assert(contents.drop_last() =~= range_contents(engine, snapshot, tree_id, from, to - 1));
        assert(contents.last() == (engine.leaf)(snapshot, tree_id, to - 1));
        assert(present(engine, snapshot, tree_id, to, to) == Seq::<Leaf>::empty());
        let before = present(engine, snapshot, tree_id, from, to - 1);
        match (engine.leaf)(snapshot, tree_id, to - 1) {
            Ok(Some(leaf)) => {
                assert(present(engine, snapshot, tree_id, to - 1, to) =~= seq![leaf]);
            },
            _ => {
                assert(present(engine, snapshot, tree_id, to - 1, to) =~= Seq::<Leaf>::empty());
                assert(before + Seq::<Leaf>::empty() =~= before);
            },
        }
    } else {
        assert(contents.len() == 0);
    }
}

/// No more leaves are present in a range than it has indices. Where every
/// index holds a leaf, the leaves stand at their places; where an index holds
/// none, they are fewer than the indices.
pub proof fn lemma_present_length<S>(engine: EngineModel<S>, snapshot: S, tree_id: u32, from: int, to: int)
    requires
        from <= to,
    ensures
        present(engine, snapshot, tree_id, from, to).len() <= to - from,
        (forall|i: int| from <= i < to ==> (#[trigger] (engine.leaf)(snapshot, tree_id, i)) matches Ok(Some(_))) ==> {
            &&& present(engine, snapshot, tree_id, from, to).len() == to - from
            &&& forall|k: int|
                0 <= k < to - from ==> (engine.leaf)(snapshot, tree_id, from + k) == holds(#[trigger] present(engine, snapshot, tree_id, from, to)[k])
        },
        (exists|i: int| from <= i < to && !((#[trigger] (engine.leaf)(snapshot, tree_id, i)) matches Ok(Some(_))))
            ==> present(engine, snapshot, tree_id, from, to).len() < to - from,
    decreases to - from,
{
    if from < to {
        lemma_present_length(engine, snapshot, tree_id, from + 1, to);
        let all = present(engine, snapshot, tree_id, from, to);
        let tail = present(engine, snapshot, tree_id, from + 1, to);
        if forall|i: int| from <= i < to ==> (#[trigger] (engine.leaf)(snapshot, tree_id, i)) matches Ok(Some(_)) {
            assert((engine.leaf)(snapshot, tree_id, from) matches Ok(Some(_)));
            assert forall|k: int| 0 <= k < to - from implies (engine.leaf)(snapshot, tree_id, from + k) == holds(#[trigger] all[k]) by {
                if k > 0 {
                    assert(all[k] == tail[k - 1]);
                    assert(from + k == (from + 1) + (k - 1));
                }
            }
        }
    }
}

/// Where every index of an admitted range holds a leaf, the call returns as
/// many leaves as the range has indices, each at the place of its index.
pub proof fn law_dense_range<S>(engine: EngineModel<S>, tree_id: u32, from: int, to: int, at: Option<S>)
    requires
        from <= to,
        to - from < MAX_SPAN,
        forall|i: int|
            from <= i < to ==> (#[trigger] (engine.leaf)(snapshot_read(engine, at), tree_id, i)) matches Ok(Some(_)),
    ensures
        run(engine, opened(tree_id, from, to, at)) is Ok,
        run(engine, opened(tree_id, from, to, at))->Ok_0.len() == to - from,
        forall|k: int|
            0 <= k < to - from ==> (engine.leaf)(snapshot_read(engine, at), tree_id, from + k) == holds(
                #[trigger] run(engine, opened(tree_id, from, to, at))->Ok_0[k],
            ),
{
    let snapshot = snapshot_read(engine, at);
    law_call_gives_answer(engine, tree_id, from, to, at);
    lemma_first_failure(engine, snapshot, tree_id, from, to);
    lemma_present_length(engine, snapshot, tree_id, from, to);
}

/// Where the engine fails nowhere in an admitted range and some index holds
/// no leaf, the call returns exactly the present leaves in ascending index
/// order, and they are fewer than the indices.
pub proof fn law_sparse_range<S>(engine: EngineModel<S>, tree_id: u32, from: int, to: int, at: Option<S>)
    requires
        from <= to,
        to - from < MAX_SPAN,
        forall|i: int| from <= i < to ==> (#[trigger] (engine.leaf)(snapshot_read(engine, at), tree_id, i)) is Ok,
        exists|i: int|
            from <= i < to && (#[trigger] (engine.leaf)(snapshot_read(engine, at), tree_id, i)) == unwritten(),
    ensures
        run(engine, opened(tree_id, from, to, at)) == Ok::<Seq<Leaf>, QueryError>(
            present(engine, snapshot_read(engine, at), tree_id, from, to),
        ),
        run(engine, opened(tree_id, from, to, at)) == Ok::<Seq<Leaf>, QueryError>(
            range_contents(engine, snapshot_read(engine, at), tree_id, from, to).filter_map(
                |fetched: Fetched| leaf_of(fetched),
            ),
        ),
        run(engine, opened(tree_id, from, to, at))->Ok_0.len() < to - from,
{
    let snapshot = snapshot_read(engine, at);
    law_call_gives_answer(engine, tree_id, from, to, at);
    lemma_first_failure(engine, snapshot, tree_id, from, to);
    lemma_present_length(engine, snapshot, tree_id, from, to);
    law_present_is_contents_without_gaps(engine, snapshot, tree_id, from, to);
}

/// Two engines that give the same at every index of a range, read at one
/// snapshot, have the same first failure and the same present leaves there.
proof fn lemma_same_contents<S>(a: EngineModel<S>, b: EngineModel<S>, snapshot: S, tree_id: u32, from: int, to: int)
    requires
        forall|i: int| from <= i < to ==> (#[trigger] (a.leaf)(snapshot, tree_id, i)) == (b.leaf)(snapshot, tree_id, i),
    ensures
        first_failure(a, snapshot, tree_id, from, to) == first_failure(b, snapshot, tree_id, from, to),
        present(a, snapshot, tree_id, from, to) == present(b, snapshot, tree_id, from, to),
    decreases to - from,
{
    if from < to {
        assert((a.leaf)(snapshot, tree_id, from) == (b.leaf)(snapshot, tree_id, from));
        lemma_same_contents(a, b, snapshot, tree_id, from + 1, to);
    }
}

/// One more recorded fetch leaves the present leaves of the indices before it
/// as they were and adds its own leaf, if it gave one.
pub proof fn lemma_record_one<S>(head: S, snapshot: S, tree_id: u32, from: int, seen: Seq<Fetched>, fetched: Fetched)
    ensures
        present(recorded(head, from, seen.push(fetched)), snapshot, tree_id, from, from + seen.len() + 1) == present(
            recorded(head, from, seen),
            snapshot,
            tree_id,
            from,
            from + seen.len(),
        ) + (match fetched {
            Ok(Some(leaf)) => seq![leaf],
            _ => Seq::empty(),
        }),
{
    let old_engine = recorded(head, from, seen);
    let new_engine = recorded(head, from, seen.push(fetched));
    let next = from + seen.len();
    assert forall|i: int| from <= i < next implies (#[trigger] (old_engine.leaf)(snapshot, tree_id, i)) == (
    new_engine.leaf)(snapshot, tree_id, i) by {
        assert(seen.push(fetched)[i - from] == seen[i - from]);
    }
    lemma_same_contents(old_engine, new_engine, snapshot, tree_id, from, next);
    law_present_splits(new_engine, snapshot, tree_id, from, next, next + 1);
    assert((new_engine.leaf)(snapshot, tree_id, next) == fetched);
    assert(present(new_engine, snapshot, tree_id, next + 1, next + 1) == Seq::<Leaf>::empty());
    let last = present(new_engine, snapshot, tree_id, next, next + 1);
    match fetched {
        Ok(Some(leaf)) => {
            assert(last =~= seq![leaf]);
        },
        _ => {
            assert(last =~= Seq::<Leaf>::empty());
        },
    }
}

/// Two calls with the same tree, range and snapshot argument return the
/// same and fetch the same whenever they read the same snapshot and the
/// engine holds the same under it at the indices of the range. In
/// particular, a call repeated against an unchanged engine repeats its
/// answer.
pub proof fn law_same_snapshot_same_answer<S>(
    first: EngineModel<S>,
    second: EngineModel<S>,
    tree_id: u32,
    from: int,
    to: int,
    at: Option<S>,
)
    requires
        snapshot_read(first, at) == snapshot_read(second, at),
        forall|i: int|
            from <= i < to ==> (#[trigger] (first.leaf)(snapshot_read(first, at), tree_id, i)) == (second.leaf)(
                snapshot_read(first, at),
                tree_id,
                i,
            ),
    ensures
        run(first, opened(tree_id, from, to, at)) == run(second, opened(tree_id, from, to, at)),
        fetches(first, opened(tree_id, from, to, at)) == fetches(second, opened(tree_id, from, to, at)),
{
    let snapshot = snapshot_read(first, at);
    law_call_gives_answer(first, tree_id, from, to, at);
    law_call_gives_answer(second, tree_id, from, to, at);
    lemma_same_contents(first, second, snapshot, tree_id, from, to);
    lemma_first_failure(first, snapshot, tree_id, from, to);
    if let Some(i) = first_failure(first, snapshot, tree_id, from, to) {
        assert((first.leaf)(snapshot, tree_id, i) == (second.leaf)(snapshot, tree_id, i));
    }
}

/// A call that names its snapshot is not touched by what happens to the
/// engine afterwards: as long as the engine holds the same under that
/// snapshot, the call returns the same, whatever the engine's current
/// snapshot has become and whatever its other snapshots hold.
pub proof fn law_pinned_call_ignores_later_state<S>(
    before: EngineModel<S>,
    after: EngineModel<S>,
    tree_id: u32,
    from: int,
    to: int,
    snapshot: S,
)
    requires
        forall|i: int|
            from <= i < to ==> (#[trigger] (before.leaf)(snapshot, tree_id, i)) == (after.leaf)(snapshot, tree_id, i),
    ensures
        run(before, opened(tree_id, from, to, Some(snapshot))) == run(after, opened(tree_id, from, to, Some(snapshot))),
        fetches(before, opened(tree_id, from, to, Some(snapshot))) == fetches(
            after,
            opened(tree_id, from, to, Some(snapshot)),
        ),
{
    law_same_snapshot_same_answer(before, after, tree_id, from, to, Some(snapshot));
}

/// A call that names no snapshot reads the engine's current one: it returns
/// and fetches what a call pinned to that snapshot does.
pub proof fn law_unpinned_call_reads_head<S>(engine: EngineModel<S>, tree_id: u32, from: int, to: int)
    ensures
        run(engine, opened(tree_id, from, to, None)) == run(engine, opened(tree_id, from, to, Some(engine.head))),
        fetches(engine, opened(tree_id, from, to, None)) == fetches(
            engine,
            opened(tree_id, from, to, Some(engine.head)),
        ),
{
    law_call_gives_answer(engine, tree_id, from, to, None);
    law_call_gives_answer(engine, tree_id, from, to, Some(engine.head));
}

} // verus!
