use behavior_tree::behavior::{
    Behavior, BehaviorNode, BehaviorTree, CompositeNode, CompositeNodeKind, LeafNode, Status,
    TreeSnapshot,
};
use behavior_tree::pool::{Entry, Handle};

/// A leaf with internal progress state, so a save in mid-flight is
/// distinguishable from a fresh tree.
#[derive(Debug, PartialEq, Clone)]
struct Countdown {
    remaining: u32,
}

impl Behavior for Countdown {
    type Context = u32;

    // Specification hooks of the `Behavior` trait: outside verification
    // they are required stubs that nothing ever calls.
    fn next_state(self, _: Self::Context) -> Self {
        unreachable!()
    }

    fn next_context(self, _: Self::Context) -> Self::Context {
        unreachable!()
    }

    fn next_status(self, _: Self::Context) -> Status {
        unreachable!()
    }

    fn tick(&mut self, context: &mut Self::Context) -> Status {
        *context += 1;
        if self.remaining == 0 {
            Status::Success
        } else {
            self.remaining -= 1;
            Status::Running
        }
    }
}

fn build_tree() -> BehaviorTree<Countdown> {
    let mut tree = BehaviorTree::new();
    let a = LeafNode::new(Countdown { remaining: 3 }).add(&mut tree);
    let b = LeafNode::new(Countdown { remaining: 1 }).add(&mut tree);
    let entry = CompositeNode::new(CompositeNodeKind::Sequence, vec![a, b]).add(&mut tree);
    tree.set_entry_node(entry);
    tree
}

fn clone_snapshot(s: &TreeSnapshot<Countdown>) -> TreeSnapshot<Countdown> {
    let mut entries: Vec<Entry<BehaviorNode<Countdown>>> = Vec::new();
    for e in s.entries.iter() {
        entries.push(Entry {
            generation: e.generation,
            value: e.value.clone(),
        });
    }
    TreeSnapshot {
        entries,
        root: s.root,
    }
}

fn node_eq(a: &BehaviorNode<Countdown>, b: &BehaviorNode<Countdown>) -> bool {
    match (a, b) {
        (BehaviorNode::Unknown, BehaviorNode::Unknown) => true,
        (BehaviorNode::Root(r1), BehaviorNode::Root(r2)) => r1 == r2,
        (BehaviorNode::Composite(c1), BehaviorNode::Composite(c2)) => {
            c1.kind == c2.kind && c1.children == c2.children
        }
        (BehaviorNode::Leaf(l1), BehaviorNode::Leaf(l2)) => l1.behavior == l2.behavior,
        _ => false,
    }
}

fn snapshots_equal(a: &TreeSnapshot<Countdown>, b: &TreeSnapshot<Countdown>) -> bool {
    if a.root != b.root || a.entries.len() != b.entries.len() {
        return false;
    }
    for (ea, eb) in a.entries.iter().zip(b.entries.iter()) {
        if ea.generation != eb.generation {
            return false;
        }
        match (&ea.value, &eb.value) {
            (None, None) => {}
            (Some(na), Some(nb)) => {
                if !node_eq(na, nb) {
                    return false;
                }
            }
            _ => return false,
        }
    }
    true
}

#[test]
fn snapshot_round_trip_preserves_tree() {
    let mut tree = build_tree();
    let mut ctx: u32 = 0;

    // Tick twice so the first leaf carries partial progress at save time.
    assert_eq!(tree.tick(&mut ctx), Status::Running);
    assert_eq!(tree.tick(&mut ctx), Status::Running);
    assert_eq!(ctx, 2);

    let saved = tree.into_snapshot();
    let reloaded = BehaviorTree::from_snapshot(clone_snapshot(&saved))
        .expect("an image of a live tree must load");

    // The reloaded tree is structurally and data-equal to the original,
    // leaf progress included.
    let reloaded_image = reloaded.into_snapshot();
    assert!(snapshots_equal(&saved, &reloaded_image));

    // And it resumes exactly where the original left off: one more tick
    // finishes the first leaf, two more run and finish the second.
    let mut resumed = BehaviorTree::from_snapshot(reloaded_image)
        .expect("an image of a live tree must load");
    assert_eq!(resumed.tick(&mut ctx), Status::Running);
    assert_eq!(resumed.tick(&mut ctx), Status::Running);
    assert_eq!(resumed.tick(&mut ctx), Status::Success);
}

#[test]
fn snapshot_rejects_corrupt_images() {
    // A dangling root handle is refused.
    let tree = build_tree();
    let mut image = tree.into_snapshot();
    image.root = Handle::none();
    assert!(BehaviorTree::<Countdown>::from_snapshot(image).is_none());

    // A composite whose child list names the root node (never a valid
    // child) is refused.
    let tree = build_tree();
    let mut image = tree.into_snapshot();
    let root = image.root;
    for entry in image.entries.iter_mut() {
        if let Some(BehaviorNode::Composite(c)) = &mut entry.value {
            c.children = vec![root];
        }
    }
    assert!(BehaviorTree::<Countdown>::from_snapshot(image).is_none());
}

#[test]
fn node_lookup_after_load() {
    let tree = build_tree();
    let image = tree.into_snapshot();
    let root = image.root;
    let reloaded = BehaviorTree::from_snapshot(image).expect("valid image");
    match reloaded.node(root) {
        Some(BehaviorNode::Root(_)) => {}
        _ => panic!("root handle must resolve to the root node"),
    }
}
