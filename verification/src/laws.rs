//! The library's laws: properties that relate several operations, stated
//! and proved over the same spec functions the operations' contracts use.
//!
//! The vacuous-identity laws live here, as do the save/load round-trip
//! laws. Two more laws live beside their subjects: a stale handle is never
//! confused with a live one ([`crate::pool::lemma_stale_handle_excluded`]),
//! and a tree whose root has no entry child ticks to `Success`, which is a
//! clause of [`crate::behavior::BehaviorTree::tick`]'s contract.

use vstd::prelude::*;

use crate::behavior::{
    eval_node, snapshot_matches, Behavior, BehaviorNode, BehaviorTree, CompositeNodeKind, Status,
    TreeSnapshot,
};
use crate::pool::lemma_wf_gens;

verus! {

/// Vacuous identity of Sequence: a Sequence with no children evaluates to
/// `Success` — the identity of AND — and leaves every slot and the context
/// untouched.
pub proof fn lemma_empty_sequence_success<B: Behavior>(
    nodes: Seq<Option<BehaviorNode<B>>>,
    i: int,
    ctx: B::Context,
)
    requires
        0 <= i < nodes.len(),
        nodes[i] matches Some(BehaviorNode::Composite(c)) && c.kind
            == CompositeNodeKind::Sequence && c.children@.len() == 0,
    ensures
        eval_node(nodes, i, ctx) == (Status::Success, nodes, ctx),
{
}

/// Vacuous identity of Selector: a Selector with no children evaluates to
/// `Failure` — the identity of OR — and leaves every slot and the context
/// untouched.
pub proof fn lemma_empty_selector_failure<B: Behavior>(
    nodes: Seq<Option<BehaviorNode<B>>>,
    i: int,
    ctx: B::Context,
)
    requires
        0 <= i < nodes.len(),
        nodes[i] matches Some(BehaviorNode::Composite(c)) && c.kind
            == CompositeNodeKind::Selector && c.children@.len() == 0,
    ensures
        eval_node(nodes, i, ctx) == (Status::Failure, nodes, ctx),
{
}

/// Whether `b` carries exactly the state of `a`: the same root handle and,
/// slot for slot, the same generation and the same occupant.
pub open spec fn same_model<B>(a: BehaviorTree<B>, b: BehaviorTree<B>) -> bool {
    &&& b.root_handle() == a.root_handle()
    &&& b.arena().slot_count() == a.arena().slot_count()
    &&& forall|i: int|
        0 <= i < a.arena().slot_count() ==> #[trigger] b.arena().gen_at(i) == a.arena().gen_at(i)
            && b.arena().payload_at(i) == a.arena().payload_at(i)
}

/// Round trip, first half: an image of a well-formed tree is valid, so
/// reloading it through [`BehaviorTree::from_snapshot`] is guaranteed to
/// succeed.
pub proof fn lemma_snapshot_of_wf_tree_valid<B>(t: BehaviorTree<B>, s: TreeSnapshot<B>)
    requires
        t.wf(),
        snapshot_matches(s, t),
    ensures
        s.valid(),
{
    lemma_wf_gens(t.arena());
    let es = s.entries@;
    assert forall|i: int| 0 <= i < es.len() implies (#[trigger] es[i]).generation >= 1 by {
        assert(t.arena().gen_at(i) >= 1);
    }
    assert forall|i: int|
        0 <= i < es.len() implies #[trigger] crate::behavior::snap_composite_ok(es, i) by {
        assert(t.composite_ok(i));
        assert(es[i].value == t.arena().payload_at(i));
        match es[i].value {
            Some(BehaviorNode::Composite(c)) => {
                assert forall|k: int|
                    0 <= k < c.children@.len() implies crate::behavior::snap_target_ok(
                    es,
                    #[trigger] c.children@[k],
                ) && c.children@[k].idx() < i by {
                    assert(t.child_link_ok(c.children@[k], i));
                    let ci = c.children@[k].idx();
                    assert(es[ci].generation as int == t.arena().gen_at(ci));
                    assert(es[ci].value == t.arena().payload_at(ci));
                }
            },
            _ => {},
        }
    }
    let ri = t.root_handle().idx();
    assert(es[ri].generation as int == t.arena().gen_at(ri));
    assert(es[ri].value == t.arena().payload_at(ri));
    match t.arena().at(t.root_handle()) {
        BehaviorNode::Root(r) => {
            if !r.child.is_null() {
                let ci = r.child.idx();
                assert(es[ci].generation as int == t.arena().gen_at(ci));
                assert(es[ci].value == t.arena().payload_at(ci));
            }
        },
        _ => {},
    }
}

/// Round trip, second half: any two trees that match the same image carry
/// the same state, slot for slot and leaf payload state included. With
/// the contracts of [`BehaviorTree::into_snapshot`] and
/// [`BehaviorTree::from_snapshot`], a tree reloaded from the image of a
/// well-formed tree is therefore an exact structural and data copy of the
/// original.
pub proof fn lemma_snapshot_restores_tree<B>(
    s: TreeSnapshot<B>,
    t: BehaviorTree<B>,
    reloaded: BehaviorTree<B>,
)
    requires
        snapshot_matches(s, t),
        snapshot_matches(s, reloaded),
    ensures
        same_model(t, reloaded),
{
    assert forall|i: int|
        0 <= i < t.arena().slot_count() implies #[trigger] reloaded.arena().gen_at(i)
        == t.arena().gen_at(i) && reloaded.arena().payload_at(i) == t.arena().payload_at(i) by {
        assert(s.entries@[i].generation as int == t.arena().gen_at(i));
        assert(s.entries@[i].generation as int == reloaded.arena().gen_at(i));
    }
}

} // verus!
