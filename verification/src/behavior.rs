//! Behavior trees: hierarchical sequence/selector control structures over
//! user-defined leaf behaviors, evaluated once per discrete time step.
//!
//! A tree owns an arena of nodes and records the handle of its single root.
//! Ticking the tree walks from the root's entry child down to the leaves,
//! aggregating the tri-state [`Status`] results: a Sequence succeeds only if
//! every child succeeds and stops at the first `Failure` or `Running`; a
//! Selector returns the first `Success` or `Running` and fails only if every
//! child fails. The whole walk is specified by the spec-level interpreter
//! [`eval_node`], and [`BehaviorTree::tick`] is proved to compute exactly
//! that interpretation.

use vstd::prelude::*;

use crate::pool::{Entry, Handle, Pool};

verus! {

/// Status of execution of a behavior tree node: the tri-state outcome of one
/// evaluation pass. It is produced fresh on every tick; no node stores it.
#[derive(Clone, Copy, PartialEq, Eq, Structural, Debug)]
pub enum Status {
    /// The action was successful.
    Success,
    /// The action failed.
    Failure,
    /// The action needs another tick to finish.
    Running,
}

/// The capability of a user-defined leaf action: a single per-tick
/// evaluation function, free to mutate both its own state and the
/// caller-owned context.
///
/// The three spec functions name, per implementation, what one evaluation
/// does; `tick`'s contract binds the executable code to them. Leaf payloads
/// know nothing of the tree around them: they are reached only through
/// [`BehaviorTree::tick`], which threads the context from leaf to leaf.
pub trait Behavior: Sized {
    /// The caller-owned environment the behavior reads and writes.
    type Context;

    /// The behavior's own state after one evaluation in `context`.
    spec fn next_state(self, context: Self::Context) -> Self;

    /// The context after one evaluation.
    spec fn next_context(self, context: Self::Context) -> Self::Context;

    /// The status one evaluation reports.
    spec fn next_status(self, context: Self::Context) -> Status;

    /// Performs one evaluation step against `context`.
    fn tick(&mut self, context: &mut Self::Context) -> (status: Status)
        ensures
            *final(self) == old(self).next_state(*old(context)),
            *final(context) == old(self).next_context(*old(context)),
            status == old(self).next_status(*old(context)),
    ;
}

/// The root node of a tree: holds the handle of the single entry child, or
/// the null handle while the tree is empty.
#[derive(Clone, Copy, PartialEq, Eq, Structural, Debug)]
pub struct RootNode {
    /// The tree's entry point; evaluation starts here on every tick.
    pub child: Handle,
}

impl Default for RootNode {
    /// A root with no entry child.
    fn default() -> (r: RootNode)
        ensures
            r.child.is_null(),
            r == (RootNode { child: Handle::null() }),
    {
        RootNode { child: Handle::none() }
    }
}

/// How a composite node aggregates its children.
#[derive(Clone, Copy, PartialEq, Eq, Structural, Debug)]
pub enum CompositeNodeKind {
    /// Short-circuit AND: succeed only if every child succeeds, in order.
    Sequence,
    /// Short-circuit OR: return the first `Success` or `Running`, in order.
    Selector,
}

/// An internal node holding an ordered list of children. Order is
/// significant: it is the evaluation order, and for a Selector the
/// tie-break order.
#[derive(Clone, Debug)]
pub struct CompositeNode {
    /// The aggregation rule for this node's children.
    pub kind: CompositeNodeKind,
    /// The children, in evaluation order.
    pub children: Vec<Handle>,
}

impl CompositeNode {
    /// Builds a composite over `children` with the given aggregation kind.
    pub fn new(kind: CompositeNodeKind, children: Vec<Handle>) -> (c: CompositeNode)
        ensures
            c == (CompositeNode { kind, children }),
    {
        CompositeNode { kind, children }
    }

    /// Inserts this composite into `tree` and returns its handle.
    pub fn add<B>(self, tree: &mut BehaviorTree<B>) -> (h: Handle)
        requires
            old(tree).wf(),
            forall|k: int|
                0 <= k < self.children@.len() ==> old(tree).entry_target_ok(
                    #[trigger] self.children@[k],
                ),
        ensures
            final(tree).wf(),
            final(tree).arena().has(h),
            !h.is_null(),
            final(tree).arena().at(h) == BehaviorNode::Composite::<B>(self),
            h.idx() == old(tree).arena().slot_count(),
            final(tree).arena().slot_count() == old(tree).arena().slot_count() + 1,
            final(tree).root_handle() == old(tree).root_handle(),
            final(tree).entry() == old(tree).entry(),
            forall|i: int|
                0 <= i < old(tree).arena().slot_count()
                    ==> #[trigger] final(tree).arena().payload_at(i) == old(tree).arena().payload_at(i)
                        && final(tree).arena().gen_at(i) == old(tree).arena().gen_at(i),
    {
        tree.add_node(BehaviorNode::Composite(self))
    }
}

/// A terminal node: owns one instance of a user-supplied behavior payload.
#[derive(Clone, Debug)]
pub struct LeafNode<B> {
    /// The owned behavior the node delegates to on every tick.
    pub behavior: B,
}

impl<B> LeafNode<B> {
    /// Wraps `behavior` in a leaf node.
    pub fn new(behavior: B) -> (l: LeafNode<B>)
        ensures
            l == (LeafNode { behavior }),
    {
        LeafNode { behavior }
    }

    /// Inserts this leaf into `tree` and returns its handle.
    pub fn add(self, tree: &mut BehaviorTree<B>) -> (h: Handle)
        requires
            old(tree).wf(),
        ensures
            final(tree).wf(),
            final(tree).arena().has(h),
            !h.is_null(),
            final(tree).arena().at(h) == BehaviorNode::Leaf(self),
            h.idx() == old(tree).arena().slot_count(),
            final(tree).arena().slot_count() == old(tree).arena().slot_count() + 1,
            final(tree).root_handle() == old(tree).root_handle(),
            final(tree).entry() == old(tree).entry(),
            forall|i: int|
                0 <= i < old(tree).arena().slot_count()
                    ==> #[trigger] final(tree).arena().payload_at(i) == old(tree).arena().payload_at(i)
                        && final(tree).arena().gen_at(i) == old(tree).arena().gen_at(i),
    {
        tree.add_node(BehaviorNode::Leaf(self))
    }
}

/// The closed set of node kinds a tree is made of.
#[derive(Clone, Debug)]
pub enum BehaviorNode<B> {
    /// The placeholder state of a slot before real data is written into it;
    /// never a valid member of an assembled tree.
    Unknown,
    /// The root node of the tree.
    Root(RootNode),
    /// A composite (Sequence or Selector) node.
    Composite(CompositeNode),
    /// A node with custom, user-supplied logic.
    Leaf(LeafNode<B>),
}

impl<B> Default for BehaviorNode<B> {
    /// The placeholder variant.
    fn default() -> (r: BehaviorNode<B>)
        ensures
            r == BehaviorNode::<B>::Unknown,
    {
        BehaviorNode::Unknown
    }
}

/// The status a composite with no children reports: the identity of its
/// aggregation. A Sequence is an AND, whose identity is `Success`; a
/// Selector is an OR, whose identity is `Failure`.
pub open spec fn vacuous_status(kind: CompositeNodeKind) -> Status {
    match kind {
        CompositeNodeKind::Sequence => Status::Success,
        CompositeNodeKind::Selector => Status::Failure,
    }
}

/// The spec-level interpreter: evaluates the node in slot `i` of `nodes`
/// against `ctx`, yielding the reported status, the slots after the pass
/// (leaf payloads may have stepped), and the context after the pass.
///
/// Recursion is well-founded because in a well-formed tree every composite
/// stores only children that sit in strictly lower slots (see
/// [`BehaviorTree::wf`]); outside that guard the result is unconstrained.
pub open spec fn eval_node<B: Behavior>(
    nodes: Seq<Option<BehaviorNode<B>>>,
    i: int,
    ctx: B::Context,
) -> (Status, Seq<Option<BehaviorNode<B>>>, B::Context)
    decreases i, 1int, 0int,
{
    if 0 <= i < nodes.len() {
        match nodes[i] {
            Some(BehaviorNode::Leaf(leaf)) => (
                leaf.behavior.next_status(ctx),
                nodes.update(
                    i,
                    Some(BehaviorNode::Leaf(LeafNode { behavior: leaf.behavior.next_state(ctx) })),
                ),
                leaf.behavior.next_context(ctx),
            ),
            Some(BehaviorNode::Composite(c)) => eval_children(nodes, c.kind, c.children@, 0, i, ctx),
            _ => (arbitrary(), nodes, ctx),
        }
    } else {
        (arbitrary(), nodes, ctx)
    }
}

/// Evaluates `children[k..]` under the aggregation rule `kind`, threading
/// slots and context left to right. `bound` is the parent's slot index;
/// every child must sit strictly below it.
pub open spec fn eval_children<B: Behavior>(
    nodes: Seq<Option<BehaviorNode<B>>>,
    kind: CompositeNodeKind,
    children: Seq<Handle>,
    k: int,
    bound: int,
    ctx: B::Context,
) -> (Status, Seq<Option<BehaviorNode<B>>>, B::Context)
    decreases bound, 0int, children.len() - k,
{
    if !(0 <= k < children.len()) {
        (vacuous_status(kind), nodes, ctx)
    } else if 0 <= children[k].idx() < bound {
        let (status, stepped, threaded) = eval_node(nodes, children[k].idx(), ctx);
        match kind {
            CompositeNodeKind::Sequence => match status {
                Status::Failure => (Status::Failure, stepped, threaded),
                Status::Running => (Status::Running, stepped, threaded),
                Status::Success => eval_children(stepped, kind, children, k + 1, bound, threaded),
            },
            CompositeNodeKind::Selector => match status {
                Status::Success => (Status::Success, stepped, threaded),
                Status::Running => (Status::Running, stepped, threaded),
                Status::Failure => eval_children(stepped, kind, children, k + 1, bound, threaded),
            },
        }
    } else {
        (arbitrary(), nodes, ctx)
    }
}

/// Whether `a` and `b` hold nodes of identical shape: the same occupancy and
/// variant everywhere, with roots and composites exactly equal. Only leaf
/// payload state may differ — which is exactly what a tick may change.
pub open spec fn node_shape_eq<B>(a: Option<BehaviorNode<B>>, b: Option<BehaviorNode<B>>) -> bool {
    match (a, b) {
        (Option::None, Option::None) => true,
        (Option::Some(x), Option::Some(y)) => match (x, y) {
            (BehaviorNode::Unknown, BehaviorNode::Unknown) => true,
            (BehaviorNode::Root(r1), BehaviorNode::Root(r2)) => r1 == r2,
            (BehaviorNode::Composite(c1), BehaviorNode::Composite(c2)) => c1 == c2,
            (BehaviorNode::Leaf(_), BehaviorNode::Leaf(_)) => true,
            _ => false,
        },
        _ => false,
    }
}

/// Whether every slot of `a` and `b` has the same shape (see
/// [`node_shape_eq`]): ticking never edits the topology, only leaf state.
pub open spec fn same_shape<B>(
    a: Seq<Option<BehaviorNode<B>>>,
    b: Seq<Option<BehaviorNode<B>>>,
) -> bool {
    &&& a.len() == b.len()
    &&& forall|i: int| 0 <= i < a.len() ==> node_shape_eq(#[trigger] a[i], #[trigger] b[i])
}

/// See the module docs: the tree owns the node arena and records the handle
/// of its single root node.
pub struct BehaviorTree<B> {
    nodes: Pool<BehaviorNode<B>>,
    root: Handle,
}

impl<B> BehaviorTree<B> {
    /// The arena holding the tree's nodes.
    pub closed spec fn arena(self) -> Pool<BehaviorNode<B>> {
        self.nodes
    }

    /// The handle of the tree's root node.
    pub closed spec fn root_handle(self) -> Handle {
        self.root
    }

    /// The arena's slots as a sequence of optional nodes, the form the
    /// spec-level interpreter works on.
    pub open spec fn slots(self) -> Seq<Option<BehaviorNode<B>>> {
        Seq::new(self.arena().slot_count() as nat, |i: int| self.arena().payload_at(i))
    }

    /// Whether `h` refers to a node that may stand below the root: a live
    /// composite or leaf (never another root, never a placeholder).
    pub open spec fn entry_target_ok(self, h: Handle) -> bool {
        &&& self.arena().has(h)
        &&& (self.arena().at(h) is Composite || self.arena().at(h) is Leaf)
    }

    /// Whether `h` may be a child of the composite in slot `parent`: a valid
    /// target in a strictly lower slot, which makes every downward walk
    /// well-founded.
    pub open spec fn child_link_ok(self, h: Handle, parent: int) -> bool {
        &&& self.entry_target_ok(h)
        &&& h.idx() < parent
    }

    /// Whether the composite in slot `i`, if any, links only well-placed
    /// children.
    pub open spec fn composite_ok(self, i: int) -> bool {
        match self.arena().payload_at(i) {
            Some(BehaviorNode::Composite(c)) => forall|k: int|
                0 <= k < c.children@.len() ==> self.child_link_ok(#[trigger] c.children@[k], i),
            _ => true,
        }
    }

    /// Whether the recorded root handle refers to a live root node whose
    /// entry child, if any, is a valid composite or leaf.
    pub open spec fn root_ok(self) -> bool {
        &&& self.arena().has(self.root_handle())
        &&& match self.arena().at(self.root_handle()) {
            BehaviorNode::Root(r) => r.child.is_null() || self.entry_target_ok(r.child),
            _ => false,
        }
    }

    /// The tree's well-formedness invariant, established by [`Self::new`]
    /// and preserved by the assembly API: the arena is sound and has no
    /// vacant slots awaiting reuse (this tree only appends), the root is a
    /// live root node, and every composite links only live composites or
    /// leaves in strictly lower slots — children are inserted before the
    /// composite that adopts them, which the assembly API produces
    /// naturally.
    pub open spec fn wf(self) -> bool {
        &&& self.arena().wf()
        &&& self.arena().n_free() == 0
        &&& self.root_ok()
        &&& forall|i: int| 0 <= i < self.arena().slot_count() ==> #[trigger] self.composite_ok(i)
    }

    /// The tree's entry point: the root node's child handle.
    pub open spec fn entry(self) -> Handle {
        match self.arena().at(self.root_handle()) {
            BehaviorNode::Root(r) => r.child,
            _ => arbitrary(),
        }
    }

    /// Creates a new behavior tree holding a single root node with no entry
    /// child. Ticking it trivially succeeds.
    pub fn new() -> (t: BehaviorTree<B>)
        ensures
            t.wf(),
            t.entry().is_null(),
            t.arena().slot_count() == 1,
            t.root_handle().idx() == 0,
    {
        let mut nodes = Pool::new();
        let root = nodes.spawn(BehaviorNode::Root(RootNode { child: Handle::none() }));
        BehaviorTree { nodes, root }
    }

    /// Adds a composite or leaf node to the tree (never another root) and
    /// returns its handle. The caller is responsible for linking it into the
    /// topology; a composite must arrive with its children already inserted.
    pub fn add_node(&mut self, node: BehaviorNode<B>) -> (h: Handle)
        requires
            old(self).wf(),
            node is Composite || node is Leaf,
            node matches BehaviorNode::Composite(c) ==> forall|k: int|
                0 <= k < c.children@.len() ==> old(self).entry_target_ok(#[trigger] c.children@[k]),
        ensures
            final(self).wf(),
            final(self).arena().has(h),
            !h.is_null(),
            final(self).arena().at(h) == node,
            h.idx() == old(self).arena().slot_count(),
            final(self).arena().slot_count() == old(self).arena().slot_count() + 1,
            final(self).root_handle() == old(self).root_handle(),
            final(self).entry() == old(self).entry(),
            forall|i: int|
                0 <= i < old(self).arena().slot_count()
                    ==> #[trigger] final(self).arena().payload_at(i) == old(self).arena().payload_at(i)
                        && final(self).arena().gen_at(i) == old(self).arena().gen_at(i),
    {
        let h = self.nodes.spawn(node);
        proof {
            assert forall|i: int|
                0 <= i < self.arena().slot_count() implies #[trigger] self.composite_ok(i) by {
                if i < old(self).arena().slot_count() {
                    assert(old(self).composite_ok(i));
                }
            }
            assert(self.root_ok()) by {
                assert(old(self).root_ok());
            }
        }
        h
    }

    /// Overwrites the root node's child with `entry`, making it the tree's
    /// entry point. The new entry must be null or a live composite or leaf.
    pub fn set_entry_node(&mut self, entry: Handle)
        requires
            old(self).wf(),
            entry.is_null() || old(self).entry_target_ok(entry),
        ensures
            final(self).wf(),
            final(self).entry() == entry,
            final(self).root_handle() == old(self).root_handle(),
            final(self).arena().slot_count() == old(self).arena().slot_count(),
            forall|i: int|
                0 <= i < old(self).arena().slot_count() && i != old(self).root_handle().idx()
                    ==> #[trigger] final(self).arena().payload_at(i) == old(self).arena().payload_at(i)
                        && final(self).arena().gen_at(i) == old(self).arena().gen_at(i),
            final(self).arena().payload_at(old(self).root_handle().idx()) == Some(
                BehaviorNode::<B>::Root(RootNode { child: entry }),
            ),
    {
        let root = self.root;
        let _previous = self.nodes.replace(root, BehaviorNode::Root(RootNode { child: entry }));
        proof {
            assert forall|i: int|
                0 <= i < self.arena().slot_count() implies #[trigger] self.composite_ok(i) by {
                assert(old(self).composite_ok(i));
                if i != old(self).root_handle().idx() {
                    assert(self.arena().payload_at(i) == old(self).arena().payload_at(i));
                }
            }
        }
    }

    /// Tries to get a shared reference to a node by handle; absent for a
    /// stale, null, or out-of-range handle.
    pub fn node(&self, handle: Handle) -> (r: Option<&BehaviorNode<B>>)
        ensures
            match r {
                Some(n) => self.arena().has(handle) && *n == self.arena().at(handle),
                None => !self.arena().has(handle),
            },
    {
        self.nodes.try_borrow(handle)
    }

    /// Tries to get a mutable reference to a node by handle, for tree
    /// editing tools; absent for a stale, null, or out-of-range handle.
    ///
    /// The slot's occupant becomes whatever the caller leaves behind the
    /// returned reference. An edit may therefore break [`Self::wf`]; a
    /// caller that keeps the shape rules intact can restore it with
    /// [`lemma_tree_wf_restored`].
    pub fn node_mut(&mut self, handle: Handle) -> (r: Option<&mut BehaviorNode<B>>)
        ensures
            final(self).root_handle() == old(self).root_handle(),
            match r {
                Some(n) => {
                    &&& old(self).arena().has(handle)
                    &&& *n == old(self).arena().at(handle)
                    &&& final(self).arena().slot_count() == old(self).arena().slot_count()
                    &&& final(self).arena().n_free() == old(self).arena().n_free()
                    &&& final(self).arena().payload_at(handle.idx()) == Some(*final(n))
                    &&& final(self).arena().has(handle)
                    &&& forall|i: int|
                        0 <= i < old(self).arena().slot_count()
                            ==> #[trigger] final(self).arena().gen_at(i)
                                == old(self).arena().gen_at(i)
                    &&& forall|k: int|
                        0 <= k < old(self).arena().n_free()
                            ==> #[trigger] final(self).arena().free_at(k)
                                == old(self).arena().free_at(k)
                    &&& forall|i: int|
                        0 <= i < old(self).arena().slot_count() && i != handle.idx()
                            ==> #[trigger] final(self).arena().payload_at(i)
                                == old(self).arena().payload_at(i)
                },
                None => {
                    &&& !old(self).arena().has(handle)
                    &&& *final(self) == *old(self)
                },
            },
    {
        self.nodes.try_borrow_mut(handle)
    }
}

/// A tree stays well formed across an edit through
/// [`BehaviorTree::node_mut`] as long as the edit leaves the shape rules
/// intact: the root slot still holds a root with a sound entry, and every
/// composite still links only live composites or leaves in strictly lower
/// slots.
pub proof fn lemma_tree_wf_restored<B>(t1: BehaviorTree<B>, t2: BehaviorTree<B>)
    requires
        t1.wf(),
        t2.root_handle() == t1.root_handle(),
        t2.arena().slot_count() == t1.arena().slot_count(),
        t2.arena().n_free() == t1.arena().n_free(),
        forall|k: int|
            0 <= k < t1.arena().n_free() ==> #[trigger] t2.arena().free_at(k)
                == t1.arena().free_at(k),
        forall|i: int|
            0 <= i < t1.arena().slot_count() ==> #[trigger] t2.arena().gen_at(i)
                == t1.arena().gen_at(i),
        forall|i: int|
            0 <= i < t1.arena().slot_count() ==> (#[trigger] t2.arena().payload_at(i) is Some
                <==> t1.arena().payload_at(i) is Some),
        t2.root_ok(),
        forall|i: int| 0 <= i < t2.arena().slot_count() ==> #[trigger] t2.composite_ok(i),
    ensures
        t2.wf(),
{
    crate::pool::lemma_wf_value_change(t1.arena(), t2.arena());
}


/// Every slot sequence has the same shape as itself.
pub proof fn lemma_same_shape_refl<B>(a: Seq<Option<BehaviorNode<B>>>)
    ensures
        same_shape(a, a),
{
    assert forall|i: int| 0 <= i < a.len() implies node_shape_eq(#[trigger] a[i], #[trigger] a[i]) by {
        match a[i] {
            Option::None => {},
            Option::Some(x) => {},
        }
    }
}

/// Shape agreement is transitive.
pub proof fn lemma_same_shape_trans<B>(
    a: Seq<Option<BehaviorNode<B>>>,
    b: Seq<Option<BehaviorNode<B>>>,
    c: Seq<Option<BehaviorNode<B>>>,
)
    requires
        same_shape(a, b),
        same_shape(b, c),
    ensures
        same_shape(a, c),
{
    assert forall|i: int| 0 <= i < a.len() implies node_shape_eq(#[trigger] a[i], #[trigger] c[i]) by {
        assert(node_shape_eq(a[i], b[i]));
        assert(node_shape_eq(b[i], c[i]));
    }
}

/// One evaluation pass never changes the shape of the slots: occupancy,
/// variants, roots and composites all stay exactly as they were; only leaf
/// payload state may step.
pub proof fn lemma_eval_node_shape<B: Behavior>(
    nodes: Seq<Option<BehaviorNode<B>>>,
    i: int,
    ctx: B::Context,
)
    ensures
        same_shape(nodes, eval_node(nodes, i, ctx).1),
    decreases i, 1int, 0int,
{
    if 0 <= i < nodes.len() {
        match nodes[i] {
            Some(BehaviorNode::Leaf(leaf)) => {
                let stepped = eval_node(nodes, i, ctx).1;
                assert forall|j: int| 0 <= j < nodes.len() implies node_shape_eq(
                    #[trigger] nodes[j],
                    #[trigger] stepped[j],
                ) by {
                    if j != i {
                        lemma_node_shape_eq_refl(nodes[j]);
                    }
                }
            },
            Some(BehaviorNode::Composite(c)) => {
                lemma_eval_children_shape(nodes, c.kind, c.children@, 0, i, ctx);
            },
            _ => {
                lemma_same_shape_refl(nodes);
            },
        }
    } else {
        lemma_same_shape_refl(nodes);
    }
}

/// Companion to [`lemma_eval_node_shape`] for child lists.
pub proof fn lemma_eval_children_shape<B: Behavior>(
    nodes: Seq<Option<BehaviorNode<B>>>,
    kind: CompositeNodeKind,
    children: Seq<Handle>,
    k: int,
    bound: int,
    ctx: B::Context,
)
    ensures
        same_shape(nodes, eval_children(nodes, kind, children, k, bound, ctx).1),
    decreases bound, 0int, children.len() - k,
{
    if !(0 <= k < children.len()) {
        lemma_same_shape_refl(nodes);
    } else if 0 <= children[k].idx() < bound {
        lemma_eval_node_shape(nodes, children[k].idx(), ctx);
        let (status, stepped, threaded) = eval_node(nodes, children[k].idx(), ctx);
        let keep_going = match kind {
            CompositeNodeKind::Sequence => status is Success,
            CompositeNodeKind::Selector => status is Failure,
        };
        if keep_going {
            lemma_eval_children_shape(stepped, kind, children, k + 1, bound, threaded);
            lemma_same_shape_trans(
                nodes,
                stepped,
                eval_children(stepped, kind, children, k + 1, bound, threaded).1,
            );
        }
    } else {
        lemma_same_shape_refl(nodes);
    }
}

/// A slot always has its own shape.
proof fn lemma_node_shape_eq_refl<B>(a: Option<BehaviorNode<B>>)
    ensures
        node_shape_eq(a, a),
{
}

impl<B: Behavior> BehaviorTree<B> {
    /// Evaluates the composite or leaf node `handle` refers to, exactly as
    /// the spec-level interpreter [`eval_node`] describes.
    #[verifier::loop_isolation(false)]
    fn tick_recursive(&mut self, handle: Handle, context: &mut B::Context) -> (status: Status)
        requires
            old(self).wf(),
            old(self).entry_target_ok(handle),
        ensures
            final(self).wf(),
            final(self).root_handle() == old(self).root_handle(),
            final(self).arena().slot_count() == old(self).arena().slot_count(),
            final(self).arena().n_free() == old(self).arena().n_free(),
            forall|i: int|
                0 <= i < old(self).arena().slot_count() ==> #[trigger] final(self).arena().gen_at(i)
                    == old(self).arena().gen_at(i),
            same_shape(old(self).slots(), final(self).slots()),
            ({
                let r = eval_node(old(self).slots(), handle.idx(), *old(context));
                status == r.0 && final(self).slots() == r.1 && *final(context) == r.2
            }),
        decreases handle.idx(),
    {
        let ghost slots0 = self.slots();
        let ghost ctx0 = *context;
        let composite: Option<(CompositeNodeKind, usize)> = match self.nodes.borrow(handle) {
            BehaviorNode::Composite(c) => Some((c.kind, c.children.len())),
            BehaviorNode::Leaf(_) => None,
            _ => {
                proof {
                    assert(false);
                }
                vstd::pervasive::unreached()
            },
        };
        match composite {
            None => {
                let taken = self.nodes.replace(handle, BehaviorNode::Unknown);
                match taken {
                    BehaviorNode::Leaf(mut leaf) => {
                        let ghost behavior0 = leaf.behavior;
                        let status = leaf.behavior.tick(context);
                        let _ = self.nodes.replace(handle, BehaviorNode::Leaf(leaf));
                        proof {
                            let r = eval_node(slots0, handle.idx(), ctx0);
                            assert(slots0[handle.idx()] == Some(
                                BehaviorNode::Leaf(LeafNode { behavior: behavior0 }),
                            ));
                            assert(self.slots() =~= r.1);
                            assert forall|i: int|
                                0 <= i < slots0.len() implies node_shape_eq(
                                #[trigger] slots0[i],
                                #[trigger] self.slots()[i],
                            ) by {
                                if i != handle.idx() {
                                    lemma_node_shape_eq_refl(slots0[i]);
                                }
                            }
                            assert forall|i: int|
                                0 <= i < self.arena().slot_count() implies #[trigger] self.composite_ok(
                                i,
                            ) by {
                                assert(old(self).composite_ok(i));
                                if i != handle.idx() {
                                    assert(self.arena().payload_at(i) == old(
                                        self,
                                    ).arena().payload_at(i));
                                }
                            }
                            assert(self.root_ok()) by {
                                assert(old(self).root_ok());
                            }
                            assert forall|i: int|
                                0 <= i < old(self).arena().slot_count() implies #[trigger] self.arena().gen_at(i) == old(self).arena().gen_at(i) by {
                                if i != handle.idx() {
                                    assert(self.arena().payload_at(i) == old(self).arena().payload_at(i));
                                }
                            }
                        }
                        status
                    },
                    _ => {
                        proof {
                            assert(false);
                        }
                        vstd::pervasive::unreached()
                    },
                }
            },
            Some((kind, child_count)) => {
                let ghost c0 = match old(self).arena().at(handle) {
                    BehaviorNode::Composite(c) => c,
                    _ => arbitrary(),
                };
                proof {
                    assert(eval_node(slots0, handle.idx(), ctx0) == eval_children(
                        slots0,
                        kind,
                        c0.children@,
                        0,
                        handle.idx(),
                        ctx0,
                    ));
                    lemma_same_shape_refl(slots0);
                }
                let mut k: usize = 0;
                while k < child_count
                    invariant
                        self.wf(),
                        self.entry_target_ok(handle),
                        self.arena().at(handle) == BehaviorNode::<B>::Composite(c0),
                        kind == c0.kind,
                        child_count == c0.children@.len(),
                        0 <= k <= child_count,
                        self.root_handle() == old(self).root_handle(),
                        self.arena().slot_count() == old(self).arena().slot_count(),
                        self.arena().n_free() == old(self).arena().n_free(),
                        forall|i: int|
                            0 <= i < old(self).arena().slot_count() ==> #[trigger] self.arena().gen_at(
                                i,
                            ) == old(self).arena().gen_at(i),
                        same_shape(slots0, self.slots()),
                        eval_children(slots0, kind, c0.children@, 0, handle.idx(), ctx0)
                            == eval_children(
                            self.slots(),
                            kind,
                            c0.children@,
                            k as int,
                            handle.idx(),
                            *context,
                        ),
                    decreases child_count - k,
                {
                    proof {
                        assert(self.composite_ok(handle.idx()));
                        assert(self.child_link_ok(c0.children@[k as int], handle.idx()));
                    }
                    let child: Handle = match self.nodes.borrow(handle) {
                        BehaviorNode::Composite(c) => c.children[k],
                        _ => {
                            proof {
                                assert(false);
                            }
                            vstd::pervasive::unreached()
                        },
                    };
                    let ghost slots_pre = self.slots();
                    let ghost ctx_pre = *context;
                    let child_status = self.tick_recursive(child, context);
                    proof {
                        lemma_same_shape_trans(slots0, slots_pre, self.slots());
                        assert(node_shape_eq(
                            slots_pre[handle.idx()],
                            self.slots()[handle.idx()],
                        ));
                        assert(self.arena().payload_at(handle.idx()) == self.slots()[handle.idx()]);
                        assert(self.arena().at(handle) == BehaviorNode::<B>::Composite(c0));
                        assert(self.arena().has(handle));
                        assert(eval_children(
                            slots_pre,
                            kind,
                            c0.children@,
                            k as int,
                            handle.idx(),
                            ctx_pre,
                        ) == ({
                            let (st, stepped, threaded) = eval_node(
                                slots_pre,
                                child.idx(),
                                ctx_pre,
                            );
                            match kind {
                                CompositeNodeKind::Sequence => match st {
                                    Status::Failure => (Status::Failure, stepped, threaded),
                                    Status::Running => (Status::Running, stepped, threaded),
                                    Status::Success => eval_children(
                                        stepped,
                                        kind,
                                        c0.children@,
                                        k as int + 1,
                                        handle.idx(),
                                        threaded,
                                    ),
                                },
                                CompositeNodeKind::Selector => match st {
                                    Status::Success => (Status::Success, stepped, threaded),
                                    Status::Running => (Status::Running, stepped, threaded),
                                    Status::Failure => eval_children(
                                        stepped,
                                        kind,
                                        c0.children@,
                                        k as int + 1,
                                        handle.idx(),
                                        threaded,
                                    ),
                                },
                            }
                        }));
                    }
                    match kind {
                        CompositeNodeKind::Sequence => match child_status {
                            Status::Failure => {
                                return Status::Failure;
                            },
                            Status::Running => {
                                return Status::Running;
                            },
                            Status::Success => {},
                        },
                        CompositeNodeKind::Selector => match child_status {
                            Status::Success => {
                                return Status::Success;
                            },
                            Status::Running => {
                                return Status::Running;
                            },
                            Status::Failure => {},
                        },
                    }
                    k = k + 1;
                }
                proof {
                    assert(eval_children(
                        self.slots(),
                        kind,
                        c0.children@,
                        k as int,
                        handle.idx(),
                        *context,
                    ) == (vacuous_status(kind), self.slots(), *context));
                }
                match kind {
                    CompositeNodeKind::Sequence => Status::Success,
                    CompositeNodeKind::Selector => Status::Failure,
                }
            },
        }
    }

    /// Performs a single evaluation pass ("tick") against `context`.
    ///
    /// If the root has no entry child the tree trivially succeeds — an
    /// empty tree has nothing to do, which is not a failure. Otherwise the
    /// result, the stepped leaf payloads and the updated context are exactly
    /// what the spec-level interpreter [`eval_node`] yields for the entry
    /// node. The walk never changes the tree's topology.
    pub fn tick(&mut self, context: &mut B::Context) -> (status: Status)
        requires
            old(self).wf(),
        ensures
            final(self).wf(),
            final(self).root_handle() == old(self).root_handle(),
            final(self).entry() == old(self).entry(),
            final(self).arena().slot_count() == old(self).arena().slot_count(),
            forall|i: int|
                0 <= i < old(self).arena().slot_count() ==> #[trigger] final(self).arena().gen_at(i)
                    == old(self).arena().gen_at(i),
            same_shape(old(self).slots(), final(self).slots()),
            old(self).entry().is_null() ==> status == Status::Success && final(self).slots()
                == old(self).slots() && *final(context) == *old(context),
            !old(self).entry().is_null() ==> ({
                let r = eval_node(old(self).slots(), old(self).entry().idx(), *old(context));
                status == r.0 && final(self).slots() == r.1 && *final(context) == r.2
            }),
    {
        let child: Handle = match self.nodes.borrow(self.root) {
            BehaviorNode::Root(r) => r.child,
            _ => {
                proof {
                    assert(false);
                }
                vstd::pervasive::unreached()
            },
        };
        if child.is_none() {
            proof {
                lemma_same_shape_refl(old(self).slots());
            }
            Status::Success
        } else {
            let status = self.tick_recursive(child, context);
            proof {
                let ri = self.root_handle().idx();
                assert(node_shape_eq(old(self).slots()[ri], self.slots()[ri]));
                assert(self.arena().payload_at(ri) == self.slots()[ri]);
                assert(self.entry() == old(self).entry());
            }
            status
        }
    }
}


/// A plain-data image of a whole tree: every arena slot (generation and
/// occupant, in slot order) together with the root handle. This is the
/// traversal boundary for persistence: an external serializer walks these
/// public fields to produce its wire form, and reconstructs an image for
/// [`BehaviorTree::from_snapshot`] to validate and reload.
pub struct TreeSnapshot<B> {
    /// The arena slots, in slot order.
    pub entries: Vec<Entry<BehaviorNode<B>>>,
    /// The handle of the root node.
    pub root: Handle,
}

/// Whether, in the slot sequence `es`, handle `h` refers to a live
/// composite or leaf.
pub open spec fn snap_target_ok<B>(es: Seq<Entry<BehaviorNode<B>>>, h: Handle) -> bool {
    &&& 0 <= h.idx() < es.len()
    &&& es[h.idx()].generation as int == h.ver()
    &&& match es[h.idx()].value {
        Some(BehaviorNode::Composite(_)) => true,
        Some(BehaviorNode::Leaf(_)) => true,
        _ => false,
    }
}

/// Whether the composite in slot `i` of `es`, if any, links only live
/// composites or leaves in strictly lower slots.
pub open spec fn snap_composite_ok<B>(es: Seq<Entry<BehaviorNode<B>>>, i: int) -> bool {
    match es[i].value {
        Some(BehaviorNode::Composite(c)) => forall|k: int|
            0 <= k < c.children@.len() ==> snap_target_ok(es, #[trigger] c.children@[k])
                && c.children@[k].idx() < i,
        _ => true,
    }
}

impl<B> TreeSnapshot<B> {
    /// Whether this image describes a well-formed tree, so that loading it
    /// succeeds: generations at least one, a live root slot whose entry
    /// child (if any) is a live composite or leaf, and every composite
    /// linking only live composites or leaves in strictly lower slots.
    pub open spec fn valid(self) -> bool {
        &&& forall|i: int| 0 <= i < self.entries@.len() ==> #[trigger] self.entries@[i].generation >= 1
        &&& 0 <= self.root.idx() < self.entries@.len()
        &&& self.entries@[self.root.idx()].generation as int == self.root.ver()
        &&& match self.entries@[self.root.idx()].value {
            Some(BehaviorNode::Root(r)) => r.child.is_null() || snap_target_ok(
                self.entries@,
                r.child,
            ),
            _ => false,
        }
        &&& forall|i: int|
            0 <= i < self.entries@.len() ==> #[trigger] snap_composite_ok(self.entries@, i)
    }
}

/// Whether `s` is an exact image of `t`: same root handle and, slot by
/// slot, the same generation and the same occupant (leaf payload state
/// included).
pub open spec fn snapshot_matches<B>(s: TreeSnapshot<B>, t: BehaviorTree<B>) -> bool {
    &&& s.root == t.root_handle()
    &&& s.entries@.len() == t.arena().slot_count()
    &&& forall|i: int|
        0 <= i < s.entries@.len() ==> #[trigger] s.entries@[i].generation as int == t.arena().gen_at(
            i,
        ) && s.entries@[i].value == t.arena().payload_at(i)
}

/// Whether, in the slots of `entries`, handle `h` refers to a live
/// composite or leaf.
fn check_target<B>(entries: &Vec<Entry<BehaviorNode<B>>>, h: Handle) -> (b: bool)
    ensures
        b == snap_target_ok(entries@, h),
{
    let i = h.index();
    if i < entries.len() && entries[i].generation == h.generation() {
        match &entries[i].value {
            Some(BehaviorNode::Composite(_)) => true,
            Some(BehaviorNode::Leaf(_)) => true,
            _ => false,
        }
    } else {
        false
    }
}

/// Decides [`TreeSnapshot::valid`].
#[verifier::loop_isolation(false)]
fn snapshot_check<B>(s: &TreeSnapshot<B>) -> (b: bool)
    ensures
        b == s.valid(),
{
    let n = s.entries.len();
    let mut i: usize = 0;
    while i < n
        invariant
            0 <= i <= n,
            forall|j: int| 0 <= j < i ==> #[trigger] s.entries@[j].generation >= 1,
        decreases n - i,
    {
        if s.entries[i].generation == 0 {
            return false;
        }
        i = i + 1;
    }
    let ri = s.root.index();
    if !(ri < n && s.entries[ri].generation == s.root.generation()) {
        return false;
    }
    let root_child_ok = match &s.entries[ri].value {
        Some(BehaviorNode::Root(r)) => {
            let child = r.child;
            child.is_none() || check_target(&s.entries, child)
        },
        _ => {
            return false;
        },
    };
    if !root_child_ok {
        return false;
    }
    let mut i: usize = 0;
    while i < n
        invariant
            0 <= i <= n,
            forall|j: int| 0 <= j < i ==> #[trigger] snap_composite_ok(s.entries@, j),
        decreases n - i,
    {
        let children_len: usize = match &s.entries[i].value {
            Some(BehaviorNode::Composite(c)) => c.children.len(),
            _ => 0,
        };
        let mut k: usize = 0;
        while k < children_len
            invariant
                0 <= k <= children_len,
                0 <= i < n,
                s.entries@[i as int].value matches Some(BehaviorNode::Composite(c)) ==> {
                    &&& children_len == c.children@.len()
                    &&& forall|kk: int|
                        0 <= kk < k ==> snap_target_ok(s.entries@, #[trigger] c.children@[kk])
                            && c.children@[kk].idx() < i
                },
                children_len > 0 ==> s.entries@[i as int].value matches Some(
                    BehaviorNode::Composite(c),
                ),
            decreases children_len - k,
        {
            let child: Handle = match &s.entries[i].value {
                Some(BehaviorNode::Composite(c)) => c.children[k],
                _ => {
                    proof {
                        assert(false);
                    }
                    vstd::pervasive::unreached()
                },
            };
            if !(check_target(&s.entries, child) && child.index() < i) {
                proof {
                    assert(!snap_composite_ok(s.entries@, i as int));
                }
                return false;
            }
            k = k + 1;
        }
        proof {
            assert(snap_composite_ok(s.entries@, i as int));
        }
        i = i + 1;
    }
    true
}

impl<B> BehaviorTree<B> {
    /// Dissolves the tree into a plain-data image of itself, for an
    /// external serializer to walk. The image records every slot —
    /// generations, topology, and leaf payload state — and the root
    /// handle, so a reload reconstructs the tree exactly.
    pub fn into_snapshot(self) -> (s: TreeSnapshot<B>)
        ensures
            snapshot_matches(s, self),
    {
        let root = self.root;
        TreeSnapshot { entries: self.nodes.into_entries(), root }
    }

    /// Rebuilds a tree from an image, after checking that the image
    /// describes a well-formed tree; reports `None` exactly on images that
    /// do not. Loading an image of a well-formed tree always succeeds and
    /// reproduces that tree slot for slot (see the round-trip laws).
    pub fn from_snapshot(snapshot: TreeSnapshot<B>) -> (r: Option<BehaviorTree<B>>)
        ensures
            match r {
                Some(t) => snapshot.valid() && t.wf() && snapshot_matches(snapshot, t),
                None => !snapshot.valid(),
            },
    {
        if !snapshot_check(&snapshot) {
            return None;
        }
        let root = snapshot.root;
        let ghost snap = snapshot;
        let nodes = Pool::from_entries(snapshot.entries);
        let t = BehaviorTree { nodes, root };
        proof {
            assert forall|i: int|
                0 <= i < t.arena().slot_count() implies #[trigger] t.composite_ok(i) by {
                assert(snap_composite_ok(snap.entries@, i));
                match t.arena().payload_at(i) {
                    Some(BehaviorNode::Composite(c)) => {
                        assert forall|k: int|
                            0 <= k < c.children@.len() implies t.child_link_ok(
                            #[trigger] c.children@[k],
                            i,
                        ) by {
                            assert(snap_target_ok(snap.entries@, c.children@[k]));
                        }
                    },
                    _ => {},
                }
            }
            assert(t.root_ok()) by {
                match t.arena().payload_at(t.root_handle().idx()) {
                    Some(BehaviorNode::Root(r)) => {
                        if !r.child.is_null() {
                            assert(snap_target_ok(snap.entries@, r.child));
                        }
                    },
                    _ => {},
                }
            }
        }
        Some(t)
    }
}

} // verus!
