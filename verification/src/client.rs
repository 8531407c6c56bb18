//! The service that answers leaf-range queries through one client of the
//! engine.

use vstd::prelude::*;
use std::marker::PhantomData;
use std::sync::Arc;
use crate::error::QueryError;
use crate::laws::asked;
use crate::laws::first_failure;
use crate::laws::law_call_gives_answer;
use crate::laws::lemma_first_failure;
use crate::laws::lemma_present_length;
use crate::laws::lemma_record_one;
use crate::laws::present;
use crate::laws::recorded;
use crate::laws::run;
use crate::laws::snapshot_read;
use crate::laws::EngineModel;
use crate::query::answer_model;
use crate::query::open;
use crate::query::opened;
use crate::query::Fetched;
use crate::query::Leaf;
use crate::query::Step;
use crate::query::MAX_SPAN;

verus! {

/// Answers leaf-range queries on behalf of `client`, the handle through which
/// the state engine is reached. `M` marks the kind of block that the engine
/// works on.
pub struct MerkleClient<C, M> {
    client: Arc<C>,
    _marker: PhantomData<M>,
}

impl<C, M> MerkleClient<C, M> {
    /// The handle that this service was made with.
    pub closed spec fn client_spec(self) -> Arc<C> {
        self.client
    }

    /// Creates the service with the given reference to the client.
    pub fn new(client: Arc<C>) -> (service: Self)
        ensures
            service.client_spec() == client,
    {
        MerkleClient { client, _marker: PhantomData }
    }

    /// The handle through which the engine is reached.
    pub fn client(&self) -> (client: &Arc<C>)
        ensures
            *client == self.client_spec(),
    {
        &self.client
    }

    /// Whether `engine` is what `head` and `fetch` gave during a call: its
    /// current snapshot is what `head` returned, where the call had to ask,
    /// and at every fetch that the call makes against it, it holds what
    /// `fetch` returned.
    pub open spec fn consulted<H, R: FnOnce(&Arc<C>) -> H, F: Fn(&Arc<C>, &H, u32, usize) -> Fetched>(
        self,
        engine: EngineModel<H>,
        tree_id: u32,
        from: usize,
        to: usize,
        at: Option<H>,
        head: R,
        fetch: F,
    ) -> bool {
        let requests = asked(engine, tree_id, from as int, to as int, at);
        &&& at is None && from <= to && to - from < MAX_SPAN ==> head.ensures((&self.client_spec(),), engine.head)
        &&& forall|k: int|
            0 <= k < requests.len() ==> from + k < to && fetch.ensures(
                (&self.client_spec(), &snapshot_read(engine, at), tree_id, (from + k) as usize),
                #[trigger] (engine.leaf)(snapshot_read(engine, at), tree_id, from + k),
            )
    }

    /// Returns the leaves of `tree_id` that are present in `[from, to)`, in
    /// ascending index order, read at `at` or, without it, at the snapshot
    /// that `head` gives. `fetch` reads one leaf of the engine.
    ///
    /// The range guard comes first: an inverted range is `InvalidRange`, a
    /// span of `MAX_SPAN` or more is `RangeTooLarge`, and neither `head` nor
    /// `fetch` is called. Otherwise `head` is called once if `at` is absent,
    /// and `fetch` once for each index, ascending, always with the same
    /// snapshot, up to its first failure, which then is the answer. What is
    /// returned is what the steps of a call reach against the engine that
    /// `head` and `fetch` showed.
    pub fn tree_leaves<H, R: FnOnce(&Arc<C>) -> H, F: Fn(&Arc<C>, &H, u32, usize) -> Fetched>(
        &self,
        tree_id: u32,
        from: usize,
        to: usize,
        at: Option<H>,
        head: R,
        fetch: F,
    ) -> (answer: Result<Vec<Leaf>, QueryError>)
        requires
            at is None && from <= to && to - from < MAX_SPAN ==> head.requires((&self.client_spec(),)),
            forall|snapshot: H, i: usize|
                from <= i < to ==> #[trigger] fetch.requires((&self.client_spec(), &snapshot, tree_id, i)),
        ensures
            exists|engine: EngineModel<H>|
                {
                    &&& #[trigger] self.consulted(engine, tree_id, from, to, at, head, fetch)
                    &&& answer_model(answer) == run(engine, opened(tree_id, from as int, to as int, at))
                },
            to < from ==> answer == Err::<Vec<Leaf>, QueryError>(QueryError::InvalidRange),
            to - from >= MAX_SPAN ==> answer == Err::<Vec<Leaf>, QueryError>(QueryError::RangeTooLarge),
            from == to ==> answer is Ok,
            answer matches Ok(leaves) ==> from <= to && leaves@.len() <= to - from,
    {
        let ghost mut snapshot: H = if at is Some {
            at->Some_0
        } else {
            arbitrary()
        };
        let ghost mut seen: Seq<Fetched> = Seq::empty();
        let step = match open(tree_id, from, to, at) {
            Step::Resolve(range) => {
                let current = head(&self.client);
                proof {
                    snapshot = current;
                }
                range.resolve(current)
            },
            other => other,
        };
        let mut query = match step {
            Step::Fetch(query) => query,
            Step::Done(answer) => {
                proof {
                    let engine = recorded(snapshot, from as int, seen);
                    law_call_gives_answer(engine, tree_id, from as int, to as int, at);
                    assert(self.consulted(engine, tree_id, from, to, at, head, fetch));
                }
                return answer;
            },
            Step::Resolve(_) => {
                return unreached();
            },
        };
        loop
            invariant
                from <= to,
                to - from < MAX_SPAN,
                at is Some ==> at == Some(snapshot),
                at is None ==> head.ensures((&self.client_spec(),), snapshot),
                forall|snapshot: H, i: usize|
                    from <= i < to ==> #[trigger] fetch.requires((&self.client_spec(), &snapshot, tree_id, i)),
                query@.tree_id == tree_id,
                query@.from == from,
                query@.to == to,
                query@.snapshot == snapshot,
                query@.next == from + seen.len(),
                query@.next < to,
                query@.leaves == present(
                    recorded(snapshot, from as int, seen),
                    snapshot,
                    tree_id,
                    from as int,
                    from + seen.len(),
                ),
                forall|k: int|
                    0 <= k < seen.len() ==> (#[trigger] seen[k]) is Ok && fetch.ensures(
                        (&self.client_spec(), &snapshot, tree_id, (from + k) as usize),
                        seen[k],
                    ),
            decreases to - query@.next,
        {
            let index = query.index();
            let fetched = fetch(&self.client, query.snapshot(), query.tree_id(), index);
            let ghost before = seen;
            proof {
                lemma_record_one(snapshot, snapshot, tree_id, from as int, seen, fetched);
                seen = seen.push(fetched);
                match fetched {
                    Ok(Some(leaf)) => {
                        assert(query@.leaves.push(leaf) =~= query@.leaves + seq![leaf]);
                    },
                    _ => {
                        assert(query@.leaves + Seq::<Leaf>::empty() =~= query@.leaves);
                    },
                }
            }
            match query.supply(fetched) {
                Step::Fetch(next) => {
                    query = next;
                },
                Step::Done(answer) => {
                    proof {
                        let engine = recorded(snapshot, from as int, seen);
                        let last = from + seen.len() - 1;
                        assert(snapshot_read(engine, at) == snapshot);
                        assert forall|k: int| 0 <= k < seen.len() implies (#[trigger] (engine.leaf)(
                            snapshot,
                            tree_id,
                            from + k,
                        )) == seen[k] && fetch.ensures(
                            (&self.client_spec(), &snapshot, tree_id, (from + k) as usize),
                            seen[k],
                        ) by {
                            if k < seen.len() - 1 {
                                assert(seen[k] == before[k]);
                            }
                        }
                        assert((engine.leaf)(snapshot, tree_id, last) == fetched);
                        lemma_first_failure(engine, snapshot, tree_id, from as int, to as int);
                        match first_failure(engine, snapshot, tree_id, from as int, to as int) {
                            Some(i) => {
                                assert((engine.leaf)(snapshot, tree_id, from + (i - from)) is Err);
                                if i < last {
                                    assert(seen[i - from] == before[i - from]);
                                }
                                assert(i == last);
                            },
                            None => {
                                assert(fetched is Ok);
                            },
                        }
                        law_call_gives_answer(engine, tree_id, from as int, to as int, at);
                        lemma_present_length(engine, snapshot, tree_id, from as int, to as int);
                        assert(asked(engine, tree_id, from as int, to as int, at).len() == seen.len());
                        assert(self.consulted(engine, tree_id, from, to, at, head, fetch));
                    }
                    return answer;
                },
                Step::Resolve(_) => {
                    return unreached();
                },
            }
        }
    }
}

} // verus!
