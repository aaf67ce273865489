use behavior_tree::behavior::{
    Behavior, BehaviorNode, BehaviorTree, CompositeNode, CompositeNodeKind, LeafNode, Status,
};
use behavior_tree::pool::Handle;

/// A test leaf that reports a fixed status and records each invocation in
/// the context, so short-circuiting is observable.
#[derive(Debug, PartialEq, Clone)]
struct Probe {
    id: usize,
    verdict: Status,
}

impl Behavior for Probe {
    type Context = Vec<u32>;

    // Specification hooks of the `Behavior` trait: outside verification
    // they are required stubs that nothing ever calls.
    fn next_state(self, _: Self::Context) -> Self {
        unreachable!()
    }

    fn next_context(self, _: Self::Context) -> Self::Context {
        unreachable!()
    }

    fn next_status(self, _: Self::Context) -> Status {
        unreachable!()
    }

    fn tick(&mut self, context: &mut Self::Context) -> Status {
        context[self.id] += 1;
        self.verdict
    }
}

fn probe_tree(verdicts: &[Status], kind: CompositeNodeKind) -> BehaviorTree<Probe> {
    let mut tree = BehaviorTree::new();
    let mut children = Vec::new();
    for (id, verdict) in verdicts.iter().enumerate() {
        children.push(
            LeafNode::new(Probe {
                id,
                verdict: *verdict,
            })
            .add(&mut tree),
        );
    }
    let entry = CompositeNode::new(kind, children).add(&mut tree);
    tree.set_entry_node(entry);
    tree
}

#[test]
fn empty_sequence_ticks_success() {
    let mut tree = probe_tree(&[], CompositeNodeKind::Sequence);
    let mut counts: Vec<u32> = vec![];
    assert_eq!(tree.tick(&mut counts), Status::Success);
}

#[test]
fn empty_selector_ticks_failure() {
    let mut tree = probe_tree(&[], CompositeNodeKind::Selector);
    let mut counts: Vec<u32> = vec![];
    assert_eq!(tree.tick(&mut counts), Status::Failure);
}

#[test]
fn null_entry_ticks_success() {
    let mut tree: BehaviorTree<Probe> = BehaviorTree::new();
    let mut counts: Vec<u32> = vec![];
    assert_eq!(tree.tick(&mut counts), Status::Success);
}

#[test]
fn sequence_short_circuits_on_running() {
    let mut tree = probe_tree(
        &[Status::Success, Status::Running, Status::Success],
        CompositeNodeKind::Sequence,
    );
    let mut counts: Vec<u32> = vec![0, 0, 0];
    assert_eq!(tree.tick(&mut counts), Status::Running);
    assert_eq!(counts, vec![1, 1, 0]);
}

#[test]
fn sequence_short_circuits_on_failure() {
    let mut tree = probe_tree(
        &[Status::Success, Status::Failure, Status::Success],
        CompositeNodeKind::Sequence,
    );
    let mut counts: Vec<u32> = vec![0, 0, 0];
    assert_eq!(tree.tick(&mut counts), Status::Failure);
    assert_eq!(counts, vec![1, 1, 0]);
}

#[test]
fn sequence_all_success() {
    let mut tree = probe_tree(
        &[Status::Success, Status::Success, Status::Success],
        CompositeNodeKind::Sequence,
    );
    let mut counts: Vec<u32> = vec![0, 0, 0];
    assert_eq!(tree.tick(&mut counts), Status::Success);
    assert_eq!(counts, vec![1, 1, 1]);
}

#[test]
fn selector_first_win() {
    let mut tree = probe_tree(
        &[Status::Failure, Status::Running, Status::Success],
        CompositeNodeKind::Selector,
    );
    let mut counts: Vec<u32> = vec![0, 0, 0];
    assert_eq!(tree.tick(&mut counts), Status::Running);
    assert_eq!(counts, vec![1, 1, 0]);
}

#[test]
fn selector_stops_at_first_success() {
    let mut tree = probe_tree(
        &[Status::Failure, Status::Success, Status::Failure],
        CompositeNodeKind::Selector,
    );
    let mut counts: Vec<u32> = vec![0, 0, 0];
    assert_eq!(tree.tick(&mut counts), Status::Success);
    assert_eq!(counts, vec![1, 1, 0]);
}

#[test]
fn selector_all_failure() {
    let mut tree = probe_tree(
        &[Status::Failure, Status::Failure, Status::Failure],
        CompositeNodeKind::Selector,
    );
    let mut counts: Vec<u32> = vec![0, 0, 0];
    assert_eq!(tree.tick(&mut counts), Status::Failure);
    assert_eq!(counts, vec![1, 1, 1]);
}

#[test]
fn nested_composites_aggregate() {
    // selector( sequence(Failure-leaf) , leaf(Success) ): the sequence
    // fails, the selector falls through to the second branch.
    let mut tree = BehaviorTree::new();
    let fail_leaf = LeafNode::new(Probe {
        id: 0,
        verdict: Status::Failure,
    })
    .add(&mut tree);
    let seq = CompositeNode::new(CompositeNodeKind::Sequence, vec![fail_leaf]).add(&mut tree);
    let ok_leaf = LeafNode::new(Probe {
        id: 1,
        verdict: Status::Success,
    })
    .add(&mut tree);
    let sel = CompositeNode::new(CompositeNodeKind::Selector, vec![seq, ok_leaf]).add(&mut tree);
    tree.set_entry_node(sel);

    let mut counts: Vec<u32> = vec![0, 0];
    assert_eq!(tree.tick(&mut counts), Status::Success);
    assert_eq!(counts, vec![1, 1]);
}

#[test]
fn node_mut_edits_a_leaf_in_place() {
    let mut tree = BehaviorTree::new();
    let leaf = LeafNode::new(Probe {
        id: 0,
        verdict: Status::Failure,
    })
    .add(&mut tree);
    let seq = CompositeNode::new(CompositeNodeKind::Sequence, vec![leaf]).add(&mut tree);
    tree.set_entry_node(seq);

    let mut counts: Vec<u32> = vec![0];
    assert_eq!(tree.tick(&mut counts), Status::Failure);

    match tree.node_mut(leaf) {
        Some(BehaviorNode::Leaf(l)) => l.behavior.verdict = Status::Success,
        _ => panic!("live leaf handle must resolve"),
    }
    assert_eq!(tree.tick(&mut counts), Status::Success);
    assert_eq!(counts, vec![2]);

    assert!(tree.node_mut(Handle::none()).is_none());
    assert!(tree.node(Handle::none()).is_none());
}
