//! The tree filter: a depth-first search over the window manager's layout
//! tree that selects every node of a requested kind, at any depth, the root
//! included.

use vstd::prelude::*;

verus! {

/// The kind of a layout node. The tracker only ever distinguishes workspaces
/// and window-bearing containers; every other kind the window manager reports
/// is lumped into `Other`.
#[derive(Clone, Copy, Debug, PartialEq, Eq, Structural)]
pub enum NodeKind {
    Workspace,
    Container,
    Other,
}

/// A node of the window manager's layout tree: its kind, an optional display
/// name, an optional window handle, and the ordered children it owns. Each
/// tree query constructs the nodes fresh; the tree has no cycles and no
/// shared ownership.
#[derive(Debug, PartialEq, Eq)]
pub struct LayoutNode {
    pub nodetype: NodeKind,
    pub name: Option<String>,
    pub window: Option<u32>,
    pub nodes: Vec<LayoutNode>,
}

/// The nodes of the subtree rooted at `n` whose kind is `kind`, in preorder.
pub open spec fn matching_nodes(n: LayoutNode, kind: NodeKind) -> Seq<LayoutNode>
    decreases n, 1int,
{
    let own: Seq<LayoutNode> = if n.nodetype == kind {
        seq![n]
    } else {
        seq![]
    };
    own + matching_in_forest(n.nodes@, kind)
}

/// The matching nodes of a sequence of subtrees, in order.
pub open spec fn matching_in_forest(forest: Seq<LayoutNode>, kind: NodeKind) -> Seq<LayoutNode>
    decreases forest, 0int,
{
    if forest.len() == 0 {
        seq![]
    } else {
        matching_nodes(forest[0], kind) + matching_in_forest(forest.drop_first(), kind)
    }
}

/// All nodes of the subtree rooted at `n`, in preorder.
pub open spec fn all_nodes(n: LayoutNode) -> Seq<LayoutNode>
    decreases n, 1int,
{
    seq![n] + all_in_forest(n.nodes@)
}

/// All nodes of a sequence of subtrees, in order.
pub open spec fn all_in_forest(forest: Seq<LayoutNode>) -> Seq<LayoutNode>
    decreases forest, 0int,
{
    if forest.len() == 0 {
        seq![]
    } else {
        all_nodes(forest[0]) + all_in_forest(forest.drop_first())
    }
}

/// The number of nodes in the subtree rooted at `n`.
pub open spec fn tree_size(n: LayoutNode) -> nat
    decreases n, 1int,
{
    1 + forest_size(n.nodes@)
}

/// The total number of nodes in a sequence of subtrees.
pub open spec fn forest_size(forest: Seq<LayoutNode>) -> nat
    decreases forest, 0int,
{
    if forest.len() == 0 {
        0
    } else {
        tree_size(forest[0]) + forest_size(forest.drop_first())
    }
}

/// The values behind a sequence of node references.
pub open spec fn views_of(s: Seq<&LayoutNode>) -> Seq<LayoutNode> {
    s.map_values(|p: &LayoutNode| *p)
}

/// The matching nodes still owed by a work stack, top (last element) first.
pub open spec fn pending(stack: Seq<LayoutNode>, kind: NodeKind) -> Seq<LayoutNode>
    decreases stack.len(),
{
    if stack.len() == 0 {
        seq![]
    } else {
        matching_nodes(stack.last(), kind) + pending(stack.drop_last(), kind)
    }
}

/// The tree nodes still owed by a work stack, counted with their subtrees.
pub open spec fn stack_size(stack: Seq<LayoutNode>) -> nat
    decreases stack.len(),
{
    if stack.len() == 0 {
        0
    } else {
        tree_size(stack.last()) + stack_size(stack.drop_last())
    }
}

proof fn lemma_forest_snoc(forest: Seq<LayoutNode>, x: LayoutNode, kind: NodeKind)
    ensures
        matching_in_forest(forest.push(x), kind) == matching_in_forest(forest, kind)
            + matching_nodes(x, kind),
        forest_size(forest.push(x)) == forest_size(forest) + tree_size(x),
    decreases forest.len(),
{
    let pushed = forest.push(x);
    let empty = Seq::<LayoutNode>::empty();
    assert(matching_in_forest(empty, kind) == Seq::<LayoutNode>::empty());
    assert(forest_size(empty) == 0);
    if forest.len() == 0 {
        assert(pushed[0] == x);
        assert(pushed.drop_first() =~= empty);
        assert(matching_in_forest(pushed, kind) == matching_nodes(x, kind) + matching_in_forest(
            empty,
            kind,
        ));
        assert(matching_in_forest(forest, kind) == Seq::<LayoutNode>::empty());
        assert(matching_in_forest(pushed, kind) =~= matching_in_forest(forest, kind)
            + matching_nodes(x, kind));
        assert(forest_size(pushed) == tree_size(x) + forest_size(empty));
    } else {
        assert(pushed.drop_first() =~= forest.drop_first().push(x));
        assert(pushed[0] == forest[0]);
        lemma_forest_snoc(forest.drop_first(), x, kind);
        assert(matching_in_forest(pushed, kind) == matching_nodes(forest[0], kind)
            + matching_in_forest(forest.drop_first().push(x), kind));
        assert(matching_in_forest(pushed, kind) =~= matching_in_forest(forest, kind)
            + matching_nodes(x, kind));
        assert(forest_size(pushed) == tree_size(forest[0]) + forest_size(
            forest.drop_first().push(x),
        ));
    }
}

/// Collects every node of the subtree rooted at `root` whose kind equals
/// `nodetype`, the root included, by an explicit-stack depth-first search.
/// The result lists exactly the matching nodes, in preorder.
pub fn filter_childs_by_type<'a>(root: &'a LayoutNode, nodetype: NodeKind) -> (found: Vec<
    &'a LayoutNode,
>)
    ensures
        views_of(found@) == matching_nodes(*root, nodetype),
{
    let mut stack: Vec<&'a LayoutNode> = Vec::new();
    stack.push(root);
    let mut found: Vec<&'a LayoutNode> = Vec::new();
    proof {
        assert(views_of(stack@) =~= seq![*root]);
        assert(views_of(stack@).drop_last() =~= Seq::<LayoutNode>::empty());
        assert(views_of(found@) =~= Seq::<LayoutNode>::empty());
        assert(pending(Seq::<LayoutNode>::empty(), nodetype) == Seq::<LayoutNode>::empty());
        assert(views_of(stack@).last() == *root);
        assert(pending(views_of(stack@), nodetype) == matching_nodes(*root, nodetype) + pending(
            Seq::<LayoutNode>::empty(),
            nodetype,
        ));
        assert(pending(views_of(stack@), nodetype) =~= matching_nodes(*root, nodetype));
        assert(views_of(found@) + pending(views_of(stack@), nodetype) =~= matching_nodes(
            *root,
            nodetype,
        ));
    }
    while stack.len() != 0
        invariant
            views_of(found@) + pending(views_of(stack@), nodetype) == matching_nodes(
                *root,
                nodetype,
            ),
        decreases stack_size(views_of(stack@)),
    {
        let ghost stack_before = views_of(stack@);
        let node = stack.pop().unwrap();
        proof {
            assert(views_of(stack@) =~= stack_before.drop_last());
            assert(stack_before.last() == *node);
        }
        let ghost rest = views_of(stack@);
        if node.nodetype == nodetype {
            let ghost found_before = views_of(found@);
            found.push(node);
            proof {
                assert(views_of(found@) =~= found_before.push(*node));
                assert(views_of(found@) =~= found_before + seq![*node]);
            }
        }
        let ghost found_now = views_of(found@);
        let children = &node.nodes;
        proof {
            assert(matching_nodes(*node, nodetype) == (if node.nodetype == nodetype {
                seq![*node]
            } else {
                seq![]
            }) + matching_in_forest(children@, nodetype));
            assert(found_now + matching_in_forest(children@, nodetype) + pending(rest, nodetype)
                =~= matching_nodes(*root, nodetype));
        }
        let n_children = children.len();
        let mut j: usize = n_children;
        proof {
            assert(children@.take(j as int) =~= children@);
        }
        while j > 0
            invariant
                j <= n_children,
                n_children == children@.len(),
                found_now == views_of(found@),
                found_now + matching_in_forest(children@.take(j as int), nodetype) + pending(
                    views_of(stack@),
                    nodetype,
                ) == matching_nodes(*root, nodetype),
                stack_size(views_of(stack@)) + forest_size(children@.take(j as int)) == stack_size(
                    rest,
                ) + forest_size(children@),
            decreases j,
        {
            j -= 1;
            let ghost stack_mid = views_of(stack@);
            stack.push(&children[j]);
            proof {
                assert(views_of(stack@) =~= stack_mid.push(children@[j as int]));
                assert(views_of(stack@).drop_last() =~= stack_mid);
                assert(views_of(stack@).last() == children@[j as int]);
                assert(children@.take(j as int + 1) =~= children@.take(j as int).push(
                    children@[j as int],
                ));
                lemma_forest_snoc(children@.take(j as int), children@[j as int], nodetype);
                assert(found_now + matching_in_forest(children@.take(j as int), nodetype) + (
                matching_nodes(children@[j as int], nodetype) + pending(stack_mid, nodetype)) =~= (
                found_now + (matching_in_forest(children@.take(j as int), nodetype)
                    + matching_nodes(children@[j as int], nodetype))) + pending(
                    stack_mid,
                    nodetype,
                ));
            }
        }
        proof {
            assert(children@.take(0) =~= Seq::<LayoutNode>::empty());
            assert(matching_in_forest(children@.take(0), nodetype) =~= Seq::<LayoutNode>::empty());
            assert(found_now + Seq::<LayoutNode>::empty() =~= found_now);
            assert(found_now + Seq::<LayoutNode>::empty() + pending(views_of(stack@), nodetype)
                =~= found_now + pending(views_of(stack@), nodetype));
            assert(stack_size(stack_before) == tree_size(*node) + stack_size(rest));
        }
    }
    proof {
        assert(views_of(stack@).len() == 0);
        assert(pending(views_of(stack@), nodetype) =~= Seq::<LayoutNode>::empty());
        assert(views_of(found@) + Seq::<LayoutNode>::empty() =~= views_of(found@));
    }
    found
}

proof fn lemma_forest_matches_exactly(forest: Seq<LayoutNode>, kind: NodeKind)
    ensures
        matching_in_forest(forest, kind) == all_in_forest(forest).filter(
            |m: LayoutNode| m.nodetype == kind,
        ),
    decreases forest, 0int,
{
    reveal(Seq::filter);
    broadcast use Seq::filter_distributes_over_add;

    let pred = |m: LayoutNode| m.nodetype == kind;
    if forest.len() == 0 {
        assert(all_in_forest(forest).filter(pred) =~= Seq::<LayoutNode>::empty());
    } else {
        lemma_tree_matches_exactly(forest[0], kind);
        lemma_forest_matches_exactly(forest.drop_first(), kind);
    }
}

/// A tree of one node whose kind does not match yields the empty listing:
/// absence of matches is a valid, non-error result.
pub proof fn lemma_empty_tree_no_matches(n: LayoutNode, kind: NodeKind)
    requires
        n.nodes@.len() == 0,
        n.nodetype != kind,
    ensures
        matching_nodes(n, kind) == Seq::<LayoutNode>::empty(),
{
    assert(matching_in_forest(n.nodes@, kind) == Seq::<LayoutNode>::empty());
    assert(matching_nodes(n, kind) =~= Seq::<LayoutNode>::empty());
}

/// The tree filter is exact: the matching nodes of a tree are precisely the
/// preorder listing of all its nodes, restricted to those whose kind equals
/// the target. In particular every matching node of the tree appears exactly
/// once, however deeply it is nested, and a tree without matches yields the
/// empty listing.
pub proof fn lemma_tree_matches_exactly(n: LayoutNode, kind: NodeKind)
    ensures
        matching_nodes(n, kind) == all_nodes(n).filter(|m: LayoutNode| m.nodetype == kind),
    decreases n, 1int,
{
    reveal(Seq::filter);
    broadcast use Seq::filter_distributes_over_add;

    let pred = |m: LayoutNode| m.nodetype == kind;
    lemma_forest_matches_exactly(n.nodes@, kind);
    assert(Seq::<LayoutNode>::empty().filter(pred) == Seq::<LayoutNode>::empty());
    assert(seq![n].drop_last() =~= Seq::<LayoutNode>::empty());
    assert(all_nodes(n).filter(pred) == seq![n].filter(pred) + all_in_forest(n.nodes@).filter(
        pred,
    ));
    if n.nodetype == kind {
        assert(seq![n].filter(pred) =~= seq![n]);
        assert(matching_nodes(n, kind) =~= seq![n] + matching_in_forest(n.nodes@, kind));
    } else {
        assert(seq![n].filter(pred) =~= Seq::<LayoutNode>::empty());
        assert(matching_nodes(n, kind) =~= matching_in_forest(n.nodes@, kind));
        assert(all_nodes(n).filter(pred) =~= matching_in_forest(n.nodes@, kind));
    }
}

} // verus!
