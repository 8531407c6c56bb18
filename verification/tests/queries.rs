use std::cell::RefCell;
use std::sync::Arc;

use merkle_rpc::client::MerkleClient;
use merkle_rpc::error::EngineError;
use merkle_rpc::error::QueryError;
use merkle_rpc::query::Fetched;
use merkle_rpc::query::Leaf;
use merkle_rpc::query::open;
use merkle_rpc::query::Step;
use merkle_rpc::query::MAX_SPAN;

/// An engine in memory: for each written slot its snapshot, tree, index and
/// what a fetch gives there. Every other slot is unwritten.
struct Engine {
    head: u64,
    slots: Vec<(u64, u32, usize, Fetched)>,
    fetched: RefCell<Vec<(u64, u32, usize)>>,
    resolved: RefCell<usize>,
}

impl Engine {
    fn new(head: u64) -> Engine {
        Engine { head, slots: Vec::new(), fetched: RefCell::new(Vec::new()), resolved: RefCell::new(0) }
    }

    fn write(&mut self, snapshot: u64, tree_id: u32, index: usize, leaf: Leaf) {
        self.slots.push((snapshot, tree_id, index, Ok(Some(leaf))));
    }

    fn fail(&mut self, snapshot: u64, tree_id: u32, index: usize, error: EngineError) {
        self.slots.push((snapshot, tree_id, index, Err(error)));
    }

    fn current_snapshot(&self) -> u64 {
        *self.resolved.borrow_mut() += 1;
        self.head
    }

    fn get_leaf(&self, snapshot: u64, tree_id: u32, index: usize) -> Fetched {
        self.fetched.borrow_mut().push((snapshot, tree_id, index));
        for slot in self.slots.iter().rev() {
            if slot.0 == snapshot && slot.1 == tree_id && slot.2 == index {
                return slot.3;
            }
        }
        Ok(None)
    }

    fn fetch_count(&self) -> usize {
        self.fetched.borrow().len()
    }
}

fn leaf(byte: u8) -> Leaf {
    [byte; 32]
}

/// Answers one call through the service.
fn call(engine: &Arc<Engine>, tree_id: u32, from: usize, to: usize, at: Option<u64>) -> Result<Vec<Leaf>, QueryError> {
    let service: MerkleClient<Engine, ()> = MerkleClient::new(engine.clone());
    service.tree_leaves(
        tree_id,
        from,
        to,
        at,
        |client: &Arc<Engine>| client.current_snapshot(),
        |client: &Arc<Engine>, snapshot: &u64, tree_id: u32, index: usize| client.get_leaf(*snapshot, tree_id, index),
    )
}

/// Runs one call step by step against the engine.
fn call_by_steps(
    engine: &Arc<Engine>,
    tree_id: u32,
    from: usize,
    to: usize,
    at: Option<u64>,
) -> Result<Vec<Leaf>, QueryError> {
    let service: MerkleClient<Engine, ()> = MerkleClient::new(engine.clone());
    let mut step = open(tree_id, from, to, at);
    loop {
        step = match step {
            Step::Done(answer) => return answer,
            Step::Resolve(range) => range.resolve(service.client().current_snapshot()),
            Step::Fetch(query) => {
                let fetched = service.client().get_leaf(*query.snapshot(), query.tree_id(), query.index());
                query.supply(fetched)
            }
        };
    }
}

fn tree_seven() -> Engine {
    let mut engine = Engine::new(1);
    engine.write(1, 7, 0, leaf(0xA));
    engine.write(1, 7, 1, leaf(0xB));
    engine.write(1, 7, 3, leaf(0xD));
    engine
}

#[test]
fn sparse_tree_omits_the_absent_leaf() {
    let engine = Arc::new(tree_seven());
    assert_eq!(call(&engine, 7, 0, 4, None), Ok(vec![leaf(0xA), leaf(0xB), leaf(0xD)]));
    assert_eq!(*engine.fetched.borrow(), vec![(1, 7, 0), (1, 7, 1), (1, 7, 2), (1, 7, 3)]);
}

#[test]
fn span_of_512_is_refused_and_511_is_served() {
    let engine = Arc::new(tree_seven());
    assert_eq!(call(&engine, 7, 0, 512, None), Err(QueryError::RangeTooLarge));
    assert_eq!(engine.fetch_count(), 0);
    assert_eq!(*engine.resolved.borrow(), 0);
    assert_eq!(call(&engine, 7, 0, 511, None), Ok(vec![leaf(0xA), leaf(0xB), leaf(0xD)]));
    assert_eq!(engine.fetch_count(), 511);
    assert_eq!(*engine.resolved.borrow(), 1);
}

#[test]
fn max_span_is_512() {
    assert_eq!(MAX_SPAN, 512);
}

#[test]
fn oversized_range_fetches_nothing() {
    let engine = Arc::new(tree_seven());
    assert_eq!(call(&engine, 7, 3, 603, Some(1)), Err(QueryError::RangeTooLarge));
    assert_eq!(call(&engine, 7, 0, usize::MAX, None), Err(QueryError::RangeTooLarge));
    assert_eq!(call(&engine, 9, 100, 612, None), Err(QueryError::RangeTooLarge));
    assert_eq!(engine.fetch_count(), 0);
    assert_eq!(*engine.resolved.borrow(), 0);
}

#[test]
fn oversized_range_ends_at_the_first_step() {
    let step = open(7, 10, 522, Some(1u64));
    assert!(matches!(step, Step::Done(Err(QueryError::RangeTooLarge))));
    let step = open::<u64>(7, 10, 522, None);
    assert!(matches!(step, Step::Done(Err(QueryError::RangeTooLarge))));
}

#[test]
fn inverted_range_ends_at_the_first_step() {
    let step = open(7, 10, 9, Some(1u64));
    assert!(matches!(step, Step::Done(Err(QueryError::InvalidRange))));
}

#[test]
fn steps_and_service_agree() {
    let mut engine = tree_seven();
    engine.fail(1, 7, 6, EngineError::EngineUnavailable);
    let engine = Arc::new(engine);
    for (from, to) in [(0usize, 4usize), (0, 0), (2, 3), (0, 6), (0, 7), (5, 600), (4, 1), (6, 7), (7, 9)] {
        for at in [None, Some(1u64), Some(2u64)] {
            assert_eq!(call(&engine, 7, from, to, at), call_by_steps(&engine, 7, from, to, at));
        }
    }
}

#[test]
fn steps_fetch_what_the_service_fetches() {
    let by_service = Arc::new(tree_seven());
    let by_steps = Arc::new(tree_seven());
    assert_eq!(call(&by_service, 7, 1, 5, None), call_by_steps(&by_steps, 7, 1, 5, None));
    assert_eq!(*by_service.fetched.borrow(), *by_steps.fetched.borrow());
    assert_eq!(*by_steps.fetched.borrow(), vec![(1, 7, 1), (1, 7, 2), (1, 7, 3), (1, 7, 4)]);
    assert_eq!(*by_service.resolved.borrow(), 1);
    assert_eq!(*by_steps.resolved.borrow(), 1);
}

#[test]
fn inverted_range_is_invalid() {
    let engine = Arc::new(tree_seven());
    assert_eq!(call(&engine, 7, 4, 3, None), Err(QueryError::InvalidRange));
    assert_eq!(call(&engine, 7, usize::MAX, 0, Some(1)), Err(QueryError::InvalidRange));
    assert_eq!(call(&engine, 7, 1, 0, None), Err(QueryError::InvalidRange));
    assert_eq!(engine.fetch_count(), 0);
    assert_eq!(*engine.resolved.borrow(), 0);
}

#[test]
fn dense_range_returns_every_leaf_in_order() {
    let mut engine = Engine::new(4);
    for i in 10..20usize {
        engine.write(4, 2, i, leaf(i as u8));
    }
    let engine = Arc::new(engine);
    let leaves = call(&engine, 2, 10, 20, None).unwrap();
    assert_eq!(leaves.len(), 10);
    for k in 0..10usize {
        assert_eq!(leaves[k], leaf((10 + k) as u8));
    }
}

#[test]
fn sparse_range_is_shorter_than_its_span() {
    let mut engine = Engine::new(4);
    for i in [10usize, 12, 13, 17] {
        engine.write(4, 2, i, leaf(i as u8));
    }
    let engine = Arc::new(engine);
    let leaves = call(&engine, 2, 10, 20, Some(4)).unwrap();
    assert_eq!(leaves, vec![leaf(10), leaf(12), leaf(13), leaf(17)]);
    assert!(leaves.len() < 20 - 10);
}

#[test]
fn wholly_unwritten_range_is_empty() {
    let engine = Arc::new(tree_seven());
    assert_eq!(call(&engine, 8, 0, 4, None), Ok(vec![]));
    assert_eq!(engine.fetch_count(), 4);
}

#[test]
fn written_zero_leaf_is_kept() {
    let mut engine = Engine::new(1);
    engine.write(1, 7, 1, leaf(0));
    let engine = Arc::new(engine);
    assert_eq!(call(&engine, 7, 0, 3, None), Ok(vec![leaf(0)]));
}

#[test]
fn identical_calls_return_identical_answers() {
    let engine = Arc::new(tree_seven());
    let first = call(&engine, 7, 0, 4, Some(1));
    let second = call(&engine, 7, 0, 4, Some(1));
    assert_eq!(first, second);
    assert_eq!(first, Ok(vec![leaf(0xA), leaf(0xB), leaf(0xD)]));
}

#[test]
fn pinned_call_ignores_later_snapshots() {
    let mut engine = tree_seven();
    let before = call(&Arc::new(tree_seven()), 7, 0, 4, Some(1));
    engine.head = 2;
    engine.write(2, 7, 0, leaf(0xA));
    engine.write(2, 7, 1, leaf(0xB));
    engine.write(2, 7, 2, leaf(0xC));
    engine.write(2, 7, 3, leaf(0xD));
    let engine = Arc::new(engine);
    assert_eq!(call(&engine, 7, 0, 4, Some(1)), before);
    assert_eq!(*engine.resolved.borrow(), 0);
    assert_eq!(call(&engine, 7, 0, 4, None), Ok(vec![leaf(0xA), leaf(0xB), leaf(0xC), leaf(0xD)]));
    assert_eq!(*engine.resolved.borrow(), 1);
}

#[test]
fn unpinned_call_reads_the_head_once() {
    let engine = Arc::new(tree_seven());
    assert_eq!(call(&engine, 7, 0, 4, None), call(&engine, 7, 0, 4, Some(1)));
    assert_eq!(*engine.resolved.borrow(), 1);
    assert!(engine.fetched.borrow().iter().all(|request| request.0 == 1 && request.1 == 7));
}

#[test]
fn empty_range_is_served_without_a_fetch() {
    let engine = Arc::new(tree_seven());
    assert_eq!(call(&engine, 7, 0, 0, None), Ok(vec![]));
    assert_eq!(call(&engine, 7, 3, 3, Some(1)), Ok(vec![]));
    assert_eq!(call(&engine, 7, usize::MAX, usize::MAX, Some(1)), Ok(vec![]));
    assert_eq!(engine.fetch_count(), 0);
}

#[test]
fn range_at_the_top_of_the_index_space() {
    let mut engine = Engine::new(1);
    engine.write(1, 3, usize::MAX - 1, leaf(9));
    let engine = Arc::new(engine);
    assert_eq!(call(&engine, 3, usize::MAX - 3, usize::MAX, None), Ok(vec![leaf(9)]));
    assert_eq!(
        *engine.fetched.borrow(),
        vec![(1, 3, usize::MAX - 3), (1, 3, usize::MAX - 2), (1, 3, usize::MAX - 1)]
    );
}

#[test]
fn engine_failure_ends_the_call() {
    let mut engine = tree_seven();
    engine.fail(1, 7, 2, EngineError::EngineUnavailable);
    let engine = Arc::new(engine);
    assert_eq!(call(&engine, 7, 0, 4, None), Err(QueryError::Engine(EngineError::EngineUnavailable)));
    assert_eq!(*engine.fetched.borrow(), vec![(1, 7, 0), (1, 7, 1), (1, 7, 2)]);
}

#[test]
fn first_engine_failure_is_the_answer() {
    let mut engine = tree_seven();
    engine.fail(1, 7, 1, EngineError::TreeNotFound);
    engine.fail(1, 7, 3, EngineError::EngineUnavailable);
    let engine = Arc::new(engine);
    assert_eq!(call(&engine, 7, 0, 4, None), Err(QueryError::Engine(EngineError::TreeNotFound)));
    assert_eq!(engine.fetch_count(), 2);
}

#[test]
fn missing_snapshot_is_passed_on() {
    let mut engine = tree_seven();
    engine.fail(5, 7, 0, EngineError::SnapshotNotFound);
    let engine = Arc::new(engine);
    assert_eq!(call(&engine, 7, 0, 4, Some(5)), Err(QueryError::Engine(EngineError::SnapshotNotFound)));
    assert_eq!(engine.fetch_count(), 1);
}

#[test]
fn steps_name_the_fetch_to_make() {
    let step = open(7, 5, 7, Some(11u64));
    let query = match step {
        Step::Fetch(query) => query,
        other => panic!("a fetch was expected, not {:?}", other),
    };
    assert_eq!((*query.snapshot(), query.tree_id(), query.index()), (11, 7, 5));
    let query = match query.supply(Ok(Some(leaf(1)))) {
        Step::Fetch(query) => query,
        other => panic!("a fetch was expected, not {:?}", other),
    };
    assert_eq!((*query.snapshot(), query.tree_id(), query.index()), (11, 7, 6));
    match query.supply(Ok(None)) {
        Step::Done(answer) => assert_eq!(answer, Ok(vec![leaf(1)])),
        other => panic!("the answer was expected, not {:?}", other),
    }
}

#[test]
fn unpinned_call_asks_for_the_snapshot_first() {
    let range = match open::<u64>(7, 5, 6, None) {
        Step::Resolve(range) => range,
        other => panic!("a snapshot was expected to be asked for, not {:?}", other),
    };
    let query = match range.resolve(42u64) {
        Step::Fetch(query) => query,
        other => panic!("a fetch was expected, not {:?}", other),
    };
    assert_eq!((*query.snapshot(), query.tree_id(), query.index()), (42, 7, 5));
}

#[test]
fn unpinned_empty_range_resolves_and_answers() {
    let range = match open::<u64>(7, 5, 5, None) {
        Step::Resolve(range) => range,
        other => panic!("a snapshot was expected to be asked for, not {:?}", other),
    };
    assert!(matches!(range.resolve(42u64), Step::Done(Ok(leaves)) if leaves.is_empty()));
}

#[test]
fn service_keeps_its_client() {
    let client = Arc::new(tree_seven());
    let service: MerkleClient<Engine, ()> = MerkleClient::new(client.clone());
    assert!(Arc::ptr_eq(service.client(), &client));
}
