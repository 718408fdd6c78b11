use vstd::prelude::*;
use crate::calc::INode;
use crate::layout_tree::Style;
use crate::node_state::{
    NodeState, has_flags, lemma_dirty_bits, lemma_flags_known, lemma_summary_bits, CHILDREN_DIRTY,
    SELF_DIRTY, VNODE, SIZE_DEFINED, ABS, SELF_RECT, CHILDREN_ABS, CHILDREN_RECT,
    CHILDREN_NO_ALIGN_SELF, CHILDREN_INDEX,
};
use crate::style::{AlignSelf, Display, PositionType};
use crate::node_tree::NodeTree;
use crate::null::{null_index, null_id, is_null_id};

verus! {

/// The flags of each node.
pub open spec fn states_of<T: Default>(nodes: Seq<INode<T>>) -> Seq<u32> {
    Seq::new(nodes.len(), |i: int| nodes[i].state@)
}

/// Two nodes differ at most in their flags.
pub open spec fn same_but_state<T: Default>(a: INode<T>, b: INode<T>) -> bool {
    &&& a.text == b.text
    &&& a.char_index == b.char_index
    &&& a.scale == b.scale
    &&& a.is_sample == b.is_sample
}

/// A node with these flags passes dirtiness on to its parent: a virtual node
/// always, a real one only when its size is automatic (not defined) and it is
/// not absolutely positioned.
pub open spec fn propagates(s: u32) -> bool {
    has_flags(s, VNODE) || !(has_flags(s, SIZE_DEFINED) || has_flags(s, ABS))
}

/// `id` is a node on the tree whose children are not yet dirty, where marking
/// children dirty goes on.
pub open spec fn marks_here(s: Seq<u32>, tree: NodeTree, id: usize) -> bool {
    &&& id != null_index()
    &&& id < s.len()
    &&& !has_flags(s[id as int], CHILDREN_DIRTY)
    &&& tree.layer_or_null(id) != null_index()
}

/// The nodes that marking the children of `id` dirty visits and flags: `id` and
/// then its ancestors, while a node is on the tree, not yet children-dirty, and
/// the node before it passes dirtiness on.
pub open spec fn dirty_path(s: Seq<u32>, tree: NodeTree, id: usize) -> Seq<usize>
    decreases tree.depth(id),
{
    if !marks_here(s, tree, id) {
        seq![]
    } else if propagates(s[id as int]) && tree.depth(tree.parent(id)) < tree.depth(id) {
        seq![id] + dirty_path(s, tree, tree.parent(id))
    } else {
        seq![id]
    }
}

/// The entry queued for `id` when it turns children-dirty: one for a real node
/// that is not already self-dirty (and so already queued).
pub open spec fn mark_of(s: Seq<u32>, tree: NodeTree, id: usize) -> Seq<(usize, usize)> {
    if !has_flags(s[id as int], VNODE) && !has_flags(s[id as int], SELF_DIRTY) {
        seq![(id, tree.layer_or_null(id))]
    } else {
        seq![]
    }
}

/// The entries that marking the children of `id` dirty queues, in order.
pub open spec fn dirty_marks(s: Seq<u32>, tree: NodeTree, id: usize) -> Seq<(usize, usize)>
    decreases tree.depth(id),
{
    if !marks_here(s, tree, id) {
        seq![]
    } else if propagates(s[id as int]) && tree.depth(tree.parent(id)) < tree.depth(id) {
        mark_of(s, tree, id) + dirty_marks(s, tree, tree.parent(id))
    } else {
        mark_of(s, tree, id)
    }
}

/// The flags after the real nodes of `path` are made children-dirty.
pub open spec fn mark_states(s: Seq<u32>, path: Seq<usize>) -> Seq<u32> {
    Seq::new(
        s.len(),
        |i: int|
            if path.contains(i as usize) && !has_flags(s[i], VNODE) {
                s[i] | CHILDREN_DIRTY
            } else {
                s[i]
            },
    )
}

/// Every node of the path lies no deeper than its start.
pub proof fn lemma_path_depth(s: Seq<u32>, tree: NodeTree, id: usize)
    requires
        tree.wf(),
        s.len() == tree.len_spec(),
    ensures
        forall|j: int|
            0 <= j < dirty_path(s, tree, id).len() ==> tree.depth(#[trigger] dirty_path(s, tree, id)[j])
                <= tree.depth(id),
        forall|j: int| 0 <= j < dirty_path(s, tree, id).len() ==> #[trigger] dirty_path(s, tree, id)[j] < s.len(),
    decreases tree.depth(id),
{
    if marks_here(s, tree, id) && propagates(s[id as int]) && tree.depth(tree.parent(id)) < tree.depth(id) {
        lemma_path_depth(s, tree, tree.parent(id));
        let p = dirty_path(s, tree, id);
        let q = dirty_path(s, tree, tree.parent(id));
        assert(p == seq![id] + q);
        assert forall|j: int| 0 <= j < p.len() implies tree.depth(#[trigger] p[j]) <= tree.depth(id) && p[j] < s.len() by {
            if j > 0 {
                assert(p[j] == q[j - 1]);
            }
        }
    }
}

/// Every real node on the tree that is dirty (self or children) has an entry
/// `(node, layer)` in the queue of nodes to compute.
pub open spec fn queued(s: Seq<u32>, tree: NodeTree, dirty: Seq<(usize, usize)>) -> bool {
    forall|i: int|
        #![trigger s[i]]
        0 <= i < s.len() && tree.layer_or_null(i as usize) != null_index() && !has_flags(s[i], VNODE)
            && (has_flags(s[i], SELF_DIRTY) || has_flags(s[i], CHILDREN_DIRTY)) ==> dirty.contains(
            (i as usize, tree.layer_or_null(i as usize)),
        )
}

/// Flags and queue after marking the children of `id` dirty.
pub open spec fn mark_effect(s: Seq<u32>, d: Seq<(usize, usize)>, tree: NodeTree, id: usize) -> (
    Seq<u32>,
    Seq<(usize, usize)>,
) {
    (mark_states(s, dirty_path(s, tree, id)), d + dirty_marks(s, tree, id))
}

/// Making a node self-dirty changes it: it is real and not yet self-dirty.
pub open spec fn self_dirty_applies(x: u32) -> bool {
    !has_flags(x, VNODE) && !has_flags(x, SELF_DIRTY)
}

/// Flags and queue after making `id` (on layer `layer`) self-dirty: the node is
/// flagged, and queued when it is on the tree and was not queued as children-dirty.
pub open spec fn self_dirty_effect(s: Seq<u32>, d: Seq<(usize, usize)>, id: usize, layer: usize) -> (
    Seq<u32>,
    Seq<(usize, usize)>,
) {
    if self_dirty_applies(s[id as int]) {
        (
            s.update(id as int, s[id as int] | SELF_DIRTY),
            if layer != null_index() && !has_flags(s[id as int], CHILDREN_DIRTY) {
                d.push((id, layer))
            } else {
                d
            },
        )
    } else {
        (s, d)
    }
}

/// The node whose children must be marked dirty next after making `id`
/// self-dirty: its parent when the node changed, is on the tree and passes
/// dirtiness on; null otherwise.
pub open spec fn self_dirty_next(s: Seq<u32>, id: usize, parent: usize, layer: usize) -> usize {
    if self_dirty_applies(s[id as int]) && layer != null_index() && propagates(s[id as int]) {
        parent
    } else {
        null_index()
    }
}

/// `x` with `flag` set when `b` holds and cleared otherwise.
pub open spec fn with_flag(x: u32, flag: u32, b: bool) -> u32 {
    if b {
        x | flag
    } else {
        x & !flag
    }
}

/// The style makes the node absolutely positioned.
pub open spec fn abs_of<T: Default>(style: Style<T>) -> bool {
    style.position_type == PositionType::Absolute
}

/// The style fixes the node's rectangle by itself: left, top, the left and top
/// margins, width and height are all in points.
pub open spec fn rect_of<T: Default>(style: Style<T>) -> bool {
    &&& style.position.left is Points
    &&& style.position.top is Points
    &&& style.margin.left is Points
    &&& style.margin.top is Points
    &&& style.size.width is Points
    &&& style.size.height is Points
}

/// The style defines both width and height (in points or percent).
pub open spec fn size_defined_of<T: Default>(style: Style<T>) -> bool {
    &&& (style.size.width is Points || style.size.width is Percent)
    &&& (style.size.height is Points || style.size.height is Percent)
}

/// A parent's summary flags once a child with flags `child` is known: the
/// parent's children are no longer all absolute, all self-determined, all
/// without `align_self`, or in index order, as far as this child shows.
pub open spec fn parent_summary(x: u32, child: u32, align_self: AlignSelf, order: isize) -> u32 {
    let a = if !has_flags(child, ABS) {
        x & !CHILDREN_ABS
    } else {
        x
    };
    let b = if !has_flags(child, SELF_RECT) {
        a & !CHILDREN_RECT
    } else {
        a
    };
    let c = if align_self != AlignSelf::Auto {
        b & !CHILDREN_NO_ALIGN_SELF
    } else {
        b
    };
    if order != 0 {
        c & !CHILDREN_INDEX
    } else {
        c
    }
}

/// Flags and queue after a child with flags `child` reports to `parent`: the
/// parent's summary flags are updated and, when `mark` holds and the parent is on
/// the tree, its children are marked dirty.
pub open spec fn set_parent_effect(
    s: Seq<u32>,
    d: Seq<(usize, usize)>,
    tree: NodeTree,
    child: u32,
    parent: usize,
    mark: bool,
    align_self: AlignSelf,
    order: isize,
) -> (Seq<u32>, Seq<(usize, usize)>) {
    if parent == null_index() {
        (s, d)
    } else {
        let s1 = s.update(parent as int, parent_summary(s[parent as int], child, align_self, order));
        if mark && tree.layer_or_null(parent) != null_index() {
            mark_effect(s1, d, tree, parent)
        } else {
            (s1, d)
        }
    }
}

/// `s` with node `id`'s flag `flag` set when `b` holds, cleared otherwise.
pub open spec fn flag_node(s: Seq<u32>, id: usize, flag: u32, b: bool) -> Seq<u32> {
    s.update(id as int, with_flag(s[id as int], flag, b))
}

/// Flags and queue after `id` is shown or hidden with `style`. A shown node
/// takes `SELF_RECT`, `ABS` and `SIZE_DEFINED` from the style, becomes
/// self-dirty and reports (with its flags from before) to its parent, whose
/// children are marked dirty. A hidden node below the top layer marks its
/// parent's children dirty.
pub open spec fn set_display_effect<T: Default>(
    s: Seq<u32>,
    d: Seq<(usize, usize)>,
    tree: NodeTree,
    id: usize,
    style: Style<T>,
) -> (Seq<u32>, Seq<(usize, usize)>) {
    if style.display != Display::Hidden {
        let s1 = flag_node(
            flag_node(flag_node(s, id, SELF_RECT, rect_of(style)), id, ABS, abs_of(style)),
            id,
            SIZE_DEFINED,
            size_defined_of(style),
        );
        let e = self_dirty_effect(s1, d, id, tree.layer_or_null(id));
        set_parent_effect(e.0, e.1, tree, s[id as int], tree.parent(id), true, style.align_self, style.order)
    } else if tree.layer_or_null(id) > 0 {
        mark_effect(s, d, tree, tree.parent(id))
    } else {
        (s, d)
    }
}

/// Flags and queue after a style change that concerns the node itself: a shown
/// node becomes self-dirty and, where that passes on, its parent's children
/// are marked dirty.
pub open spec fn set_self_style_effect<T: Default>(
    s: Seq<u32>,
    d: Seq<(usize, usize)>,
    tree: NodeTree,
    id: usize,
    style: Style<T>,
) -> (Seq<u32>, Seq<(usize, usize)>) {
    if style.display == Display::Hidden {
        (s, d)
    } else {
        let e = self_dirty_effect(s, d, id, tree.layer_or_null(id));
        let next = self_dirty_next(s, id, tree.parent(id), tree.layer_or_null(id));
        if next != null_index() {
            mark_effect(e.0, e.1, tree, next)
        } else {
            e
        }
    }
}

/// Flags and queue after a style change that concerns the node's children: a
/// shown node's children are marked dirty.
pub open spec fn set_children_style_effect<T: Default>(
    s: Seq<u32>,
    d: Seq<(usize, usize)>,
    tree: NodeTree,
    id: usize,
    style: Style<T>,
) -> (Seq<u32>, Seq<(usize, usize)>) {
    if style.display == Display::Hidden {
        (s, d)
    } else {
        mark_effect(s, d, tree, id)
    }
}

/// Flags and queue after a style change that concerns the node's place among
/// its siblings: a shown node reports to its parent, whose children are marked dirty.
pub open spec fn set_normal_style_effect<T: Default>(
    s: Seq<u32>,
    d: Seq<(usize, usize)>,
    tree: NodeTree,
    id: usize,
    style: Style<T>,
) -> (Seq<u32>, Seq<(usize, usize)>) {
    if style.display == Display::Hidden {
        (s, d)
    } else {
        set_parent_effect(s, d, tree, s[id as int], tree.parent(id), true, style.align_self, style.order)
    }
}

/// Flags and queue after a change of position, margin or size. A shown node
/// takes `ABS` (when `is_abs`) and `SIZE_DEFINED` (when `is_size`) from the
/// style, becomes self-dirty, takes `SELF_RECT`, and reports its new flags to
/// its parent, whose children are marked dirty unless the node is absolute.
pub open spec fn set_rect_effect<T: Default>(
    s: Seq<u32>,
    d: Seq<(usize, usize)>,
    tree: NodeTree,
    id: usize,
    is_abs: bool,
    is_size: bool,
    style: Style<T>,
) -> (Seq<u32>, Seq<(usize, usize)>) {
    if style.display == Display::Hidden {
        (s, d)
    } else {
        let s1 = if is_abs {
            flag_node(s, id, ABS, abs_of(style))
        } else {
            s
        };
        let s2 = if is_size {
            flag_node(s1, id, SIZE_DEFINED, size_defined_of(style))
        } else {
            s1
        };
        let e = self_dirty_effect(s2, d, id, tree.layer_or_null(id));
        let s3 = flag_node(e.0, id, SELF_RECT, rect_of(style));
        set_parent_effect(
            s3,
            e.1,
            tree,
            s3[id as int],
            tree.parent(id),
            style.position_type != PositionType::Absolute,
            style.align_self,
            style.order,
        )
    }
}

/// Replacing one node's data changes the flags at that node only.
pub proof fn lemma_states_update<T: Default>(before: Seq<INode<T>>, after: Seq<INode<T>>, id: usize)
    requires
        id < before.len(),
        after.len() == before.len(),
        forall|i: int| 0 <= i < before.len() && i != id ==> after[i] == before[i],
    ensures
        states_of(after) == states_of(before).update(id as int, after[id as int].state@),
{
    assert(states_of(after) =~= states_of(before).update(id as int, after[id as int].state@));
}

/// Changing flags other than the dirty and virtual-node flags keeps every
/// dirty node queued.
pub proof fn lemma_queued_same_dirty(s0: Seq<u32>, s1: Seq<u32>, tree: NodeTree, d: Seq<(usize, usize)>)
    requires
        s1.len() == s0.len(),
        forall|i: int|
            0 <= i < s0.len() ==> {
                &&& has_flags(#[trigger] s1[i], VNODE) == has_flags(s0[i], VNODE)
                &&& has_flags(s1[i], SELF_DIRTY) == has_flags(s0[i], SELF_DIRTY)
                &&& has_flags(s1[i], CHILDREN_DIRTY) == has_flags(s0[i], CHILDREN_DIRTY)
            },
    ensures
        queued(s0, tree, d) ==> queued(s1, tree, d),
{
    if queued(s0, tree, d) {
        assert forall|i: int|
            #![trigger s1[i]]
            0 <= i < s1.len() && tree.layer_or_null(i as usize) != null_index() && !has_flags(s1[i], VNODE)
                && (has_flags(s1[i], SELF_DIRTY) || has_flags(s1[i], CHILDREN_DIRTY))
            implies d.contains((i as usize, tree.layer_or_null(i as usize))) by {
            assert(has_flags(s0[i], VNODE) == has_flags(s1[i], VNODE));
        }
    }
}

/// Setting or clearing a node's own `ABS`, `SIZE_DEFINED` or `SELF_RECT` flag
/// keeps every dirty node queued.
pub proof fn lemma_queued_flag_node(s: Seq<u32>, tree: NodeTree, d: Seq<(usize, usize)>, id: usize, flag: u32, b: bool)
    requires
        id < s.len(),
        flag == ABS || flag == SIZE_DEFINED || flag == SELF_RECT,
    ensures
        queued(s, tree, d) ==> queued(flag_node(s, id, flag, b), tree, d),
{
    lemma_summary_bits(s[id as int]);
    let s1 = flag_node(s, id, flag, b);
    assert forall|i: int| 0 <= i < s.len() implies {
        &&& has_flags(#[trigger] s1[i], VNODE) == has_flags(s[i], VNODE)
        &&& has_flags(s1[i], SELF_DIRTY) == has_flags(s[i], SELF_DIRTY)
        &&& has_flags(s1[i], CHILDREN_DIRTY) == has_flags(s[i], CHILDREN_DIRTY)
    } by {
        if i == id {
            lemma_summary_bits(s[i]);
        }
    }
    lemma_queued_same_dirty(s, s1, tree, d);
}

/// After marking with the nodes of `q`, which include the whole path from `x`,
/// marking again from `x` only passes through virtual nodes and queues nothing.
proof fn lemma_remark_path(s: Seq<u32>, tree: NodeTree, q: Seq<usize>, x: usize)
    requires
        tree.wf(),
        s.len() == tree.len_spec(),
        forall|j: int| 0 <= j < dirty_path(s, tree, x).len() ==> q.contains(#[trigger] dirty_path(s, tree, x)[j]),
    ensures
        forall|j: int|
            0 <= j < dirty_path(mark_states(s, q), tree, x).len() ==> has_flags(
                mark_states(s, q)[#[trigger] dirty_path(mark_states(s, q), tree, x)[j] as int],
                VNODE,
            ),
        dirty_marks(mark_states(s, q), tree, x) == Seq::<(usize, usize)>::empty(),
    decreases tree.depth(x),
{
    let s1 = mark_states(s, q);
    if marks_here(s1, tree, x) {
        lemma_dirty_bits(s[x as int]);
        assert(marks_here(s, tree, x));
        assert(dirty_path(s, tree, x)[0] == x);
        assert(q.contains(x));
        assert(has_flags(s[x as int], VNODE));
        assert(s1[x as int] == s[x as int]);
        assert(mark_of(s1, tree, x) == Seq::<(usize, usize)>::empty());
        if propagates(s1[x as int]) && tree.depth(tree.parent(x)) < tree.depth(x) {
            let p = tree.parent(x);
            assert(dirty_path(s, tree, x) == seq![x] + dirty_path(s, tree, p));
            assert forall|j: int| 0 <= j < dirty_path(s, tree, p).len() implies q.contains(
                #[trigger] dirty_path(s, tree, p)[j],
            ) by {
                assert(dirty_path(s, tree, p)[j] == dirty_path(s, tree, x)[j + 1]);
            }
            lemma_remark_path(s, tree, q, p);
            let r = dirty_path(s1, tree, x);
            assert(r == seq![x] + dirty_path(s1, tree, p));
            assert forall|j: int| 0 <= j < r.len() implies has_flags(s1[#[trigger] r[j] as int], VNODE) by {
                if j > 0 {
                    assert(r[j] == dirty_path(s1, tree, p)[j - 1]);
                }
            }
            assert(dirty_marks(s1, tree, x) =~= Seq::<(usize, usize)>::empty());
        } else {
            assert(dirty_path(s1, tree, x) == seq![x]);
        }
    }
}

/// Marking the children of a node dirty a second time changes nothing: the
/// flags and the queue stay as the first marking left them.
pub proof fn lemma_mark_idempotent(s: Seq<u32>, d: Seq<(usize, usize)>, tree: NodeTree, id: usize)
    requires
        tree.wf(),
        s.len() == tree.len_spec(),
    ensures
        ({
            let e = mark_effect(s, d, tree, id);
            mark_effect(e.0, e.1, tree, id) == e
        }),
{
    let q = dirty_path(s, tree, id);
    let s1 = mark_states(s, q);
    assert forall|j: int| 0 <= j < q.len() implies q.contains(#[trigger] q[j]) by {}
    lemma_remark_path(s, tree, q, id);
    tree.lemma_len_bound();
    let p1 = dirty_path(s1, tree, id);
    assert(mark_states(s1, p1) =~= s1) by {
        assert forall|i: int| 0 <= i < s1.len() implies #[trigger] mark_states(s1, p1)[i] == s1[i] by {
            if p1.contains(i as usize) {
                let j = choose|j: int| 0 <= j < p1.len() && p1[j] == i as usize;
                assert(has_flags(s1[p1[j] as int], VNODE));
                assert(p1[j] as int == i);
            }
        }
    }
    assert(d + dirty_marks(s, tree, id) + dirty_marks(s1, tree, id) =~= d + dirty_marks(s, tree, id));
}

/// What to lay out for a node taken from the queue.
#[derive(Clone, Copy, Debug, PartialEq, Eq, Structural)]
pub enum ComputeAction {
    /// Nothing: the node has no layer entry, is not dirty, or is virtual.
    Skip,
    /// An absolute layout with no containing block: the node has no real ancestor.
    Root,
    /// An absolute layout of a self-determined rectangle; the given real
    /// ancestor supplies the container style.
    AbsRect(usize),
    /// An absolute layout within the padding box of the given real ancestor.
    Abs(usize),
    /// A relative layout within the content box of the given real ancestor.
    Rel(usize),
}

/// The first node from `p` upwards that is not virtual (null if there is none).
pub open spec fn real_ancestor(s: Seq<u32>, tree: NodeTree, p: usize) -> usize
    decreases tree.depth(p),
{
    if p == null_index() || p >= s.len() || !has_flags(s[p as int], VNODE) {
        p
    } else if tree.depth(tree.parent(p)) < tree.depth(p) {
        real_ancestor(s, tree, tree.parent(p))
    } else {
        null_index()
    }
}

/// The node has a dirty flag.
pub open spec fn is_dirty(x: u32) -> bool {
    has_flags(x, SELF_DIRTY) || has_flags(x, CHILDREN_DIRTY)
}

/// Flags and action after taking `id` from the queue: a dirty node on the tree
/// loses both dirty flags; a real one is laid out within its first real
/// ancestor, absolutely when it is absolute (as a fixed rectangle when it is also
/// self-determined) or when it has no real ancestor, relatively otherwise.
pub open spec fn compute_step_effect(s: Seq<u32>, tree: NodeTree, id: usize) -> (Seq<u32>, ComputeAction) {
    if tree.layer_entry(id) is None || !is_dirty(s[id as int]) {
        (s, ComputeAction::Skip)
    } else {
        let x = s[id as int];
        let s1 = s.update(id as int, x & !(CHILDREN_DIRTY | SELF_DIRTY));
        let p = real_ancestor(s1, tree, tree.parent(id));
        (
            s1,
            if has_flags(x, VNODE) {
                ComputeAction::Skip
            } else if p == null_index() {
                ComputeAction::Root
            } else if has_flags(x, ABS) && has_flags(x, SELF_RECT) {
                ComputeAction::AbsRect(p)
            } else if has_flags(x, ABS) {
                ComputeAction::Abs(p)
            } else {
                ComputeAction::Rel(p)
            },
        )
    }
}

/// Once every queued node has been taken and made clean, while nothing else
/// made a node dirty or changed which nodes are virtual, no real node on the
/// tree is dirty: the queue can be cleared.
pub proof fn lemma_compute_drains_queue(s0: Seq<u32>, s1: Seq<u32>, tree: NodeTree, dirty: Seq<(usize, usize)>)
    requires
        queued(s0, tree, dirty),
        s0.len() <= usize::MAX,
        s1.len() == s0.len(),
        forall|i: int| #![trigger s1[i]] 0 <= i < s0.len() ==> has_flags(s1[i], VNODE) == has_flags(s0[i], VNODE),
        forall|i: int| #![trigger s1[i]] 0 <= i < s0.len() && is_dirty(s1[i]) ==> is_dirty(s0[i]),
        forall|j: int|
            0 <= j < dirty.len() && #[trigger] dirty[j].0 < s1.len() && tree.layer_entry(dirty[j].0) is Some
                ==> !is_dirty(s1[dirty[j].0 as int]),
    ensures
        queued(s1, tree, Seq::empty()),
        forall|i: int|
            0 <= i < s1.len() && tree.layer_or_null(i as usize) != null_index() && !has_flags(s1[i], VNODE)
                ==> !is_dirty(#[trigger] s1[i]),
{
    assert forall|i: int|
        0 <= i < s1.len() && tree.layer_or_null(i as usize) != null_index() && !has_flags(s1[i], VNODE)
            implies !is_dirty(#[trigger] s1[i]) by {
        if is_dirty(s1[i]) {
            assert(is_dirty(s0[i]));
            assert(has_flags(s0[i], VNODE) == has_flags(s1[i], VNODE));
            assert(0 <= i < s0.len() && tree.layer_or_null(i as usize) != null_index() && !has_flags(s0[i], VNODE)
                && (has_flags(s0[i], SELF_DIRTY) || has_flags(s0[i], CHILDREN_DIRTY)));
            assert(dirty.contains((i as usize, tree.layer_or_null(i as usize))));
            let j = choose|j: int| 0 <= j < dirty.len() && dirty[j] == (i as usize, tree.layer_or_null(i as usize));
            assert(dirty[j].0 < s1.len());
            assert(tree.layer_entry(dirty[j].0) is Some);
            assert(!is_dirty(s1[dirty[j].0 as int]));
        }
    }
}

/// The layout state that dirty marking works on: the per-node data and the tree.
pub struct Layout<T: Default> {
    pub i_nodes: Vec<INode<T>>,
    pub tree: NodeTree,
}

impl<T: Default + Copy> Layout<T> {
    /// The tree is well formed and every node of it has its data.
    pub open spec fn wf(&self) -> bool {
        &&& self.tree.wf()
        &&& self.i_nodes@.len() == self.tree.len_spec()
    }

    /// The flags of each node.
    pub open spec fn states(&self) -> Seq<u32> {
        states_of(self.i_nodes@)
    }

    /// Marks `id` children-dirty and walks up: every real node on the way is
    /// flagged and queued unless it already was self-dirty; the walk stops at a
    /// node off the tree, a node already children-dirty, or above a real node
    /// that has a defined size or is absolute.
    pub fn mark_children_dirty(&mut self, dirty: &mut Vec<(usize, usize)>, id: usize)
        requires
            old(self).wf(),
            id == null_index() || id < old(self).i_nodes@.len(),
        ensures
            final(self).wf(),
            final(self).tree == old(self).tree,
            final(self).i_nodes@.len() == old(self).i_nodes@.len(),
            forall|i: int|
                0 <= i < old(self).i_nodes@.len() ==> same_but_state(
                    #[trigger] final(self).i_nodes@[i],
                    old(self).i_nodes@[i],
                ),
            final(self).states() == mark_states(
                old(self).states(),
                dirty_path(old(self).states(), old(self).tree, id),
            ),
            final(dirty)@ == old(dirty)@ + dirty_marks(old(self).states(), old(self).tree, id),
            queued(old(self).states(), old(self).tree, old(dirty)@) ==> queued(
                final(self).states(),
                final(self).tree,
                final(dirty)@,
            ),
    {
        let ghost s0 = self.states();
        let ghost nodes0 = self.i_nodes@;
        let ghost d0 = dirty@;
        let ghost tree = self.tree;
        let ghost id0 = id;
        let ghost mut prefix: Seq<usize> = seq![];
        let ghost mut pmarks: Seq<(usize, usize)> = seq![];
        let mut id = id;
        let mut done = false;
        proof {
            lemma_flags_known();
            assert(mark_states(s0, prefix) =~= s0);
            assert(d0 + pmarks =~= d0);
        }
        while !done && !is_null_id(id)
            invariant
                self.wf(),
                self.tree == tree,
                s0 == states_of(nodes0),
                nodes0.len() == tree.len_spec(),
                self.i_nodes@.len() == nodes0.len(),
                id == null_index() || id < nodes0.len(),
                forall|i: int| 0 <= i < nodes0.len() ==> same_but_state(#[trigger] self.i_nodes@[i], nodes0[i]),
                self.states() == mark_states(s0, prefix),
                dirty@ == d0 + pmarks,
                dirty_path(s0, tree, id0) == prefix + (if done {
                    seq![]
                } else {
                    dirty_path(s0, tree, id)
                }),
                dirty_marks(s0, tree, id0) == pmarks + (if done {
                    seq![]
                } else {
                    dirty_marks(s0, tree, id)
                }),
                queued(s0, tree, d0) ==> queued(self.states(), tree, dirty@),
                !done && id != null_index() ==> forall|j: int|
                    0 <= j < prefix.len() ==> tree.depth(#[trigger] prefix[j]) > tree.depth(id),
            decreases (if done || id == null_index() {
                0
            } else {
                tree.depth(id) + 1
            }),
        {
            let layer = match self.tree.get_layer(id) {
                Some(l) => l,
                None => null_id(),
            };
            let s = self.i_nodes[id].state;
            proof {
                assert(!prefix.contains(id)) by {
                    if prefix.contains(id) {
                        let j = choose|j: int| 0 <= j < prefix.len() && prefix[j] == id;
                        assert(tree.depth(prefix[j]) > tree.depth(id));
                    }
                }
                assert(self.states()[id as int] == self.i_nodes@[id as int].state@);
                assert(mark_states(s0, prefix)[id as int] == s0[id as int]);
                assert(s@ == s0[id as int]);
                lemma_dirty_bits(s@);
                lemma_flags_known();
                tree.lemma_depth_positive(id);
                tree.lemma_len_bound();
            }
            if s.contains(NodeState::from_bits_truncate(CHILDREN_DIRTY)) || is_null_id(layer) {
                proof {
                    assert(dirty_path(s0, tree, id) == Seq::<usize>::empty());
                    assert(dirty_marks(s0, tree, id) == Seq::<(usize, usize)>::empty());
                    assert(prefix + Seq::<usize>::empty() =~= prefix);
                    assert(pmarks + Seq::<(usize, usize)>::empty() =~= pmarks);
                }
                done = true;
            } else {
                let ghost before = self.i_nodes@;
                let ghost dirty_before = dirty@;
                if !s.contains(NodeState::from_bits_truncate(VNODE)) {
                    self.i_nodes[id].state.set_true(NodeState::from_bits_truncate(CHILDREN_DIRTY));
                    if !s.contains(NodeState::from_bits_truncate(SELF_DIRTY)) {
                        dirty.push((id, layer));
                    }
                }
                let s2 = self.i_nodes[id].state;
                proof {
                    assert(forall|i: int| 0 <= i < before.len() && i != id ==> self.i_nodes@[i] == before[i]);
                    if !has_flags(s@, VNODE) {
                        assert(s2@ == s@ | CHILDREN_DIRTY);
                    } else {
                        assert(self.i_nodes@ == before);
                    }
                }
                let ghost old_prefix = prefix;
                let ghost old_pmarks = pmarks;
                proof {
                    prefix = prefix.push(id);
                    pmarks = pmarks + mark_of(s0, tree, id);
                    assert(self.states() =~= mark_states(s0, prefix)) by {
                        assert forall|i: int| 0 <= i < s0.len() implies #[trigger] self.states()[i]
                            == mark_states(s0, prefix)[i] by {
                            if i != id {
                                assert(self.i_nodes@[i] == before[i]);
                                assert(states_of(before)[i] == mark_states(s0, old_prefix)[i]);
                                assert(prefix.contains(i as usize) == old_prefix.contains(i as usize)) by {
                                    if prefix.contains(i as usize) {
                                        let k = choose|k: int| 0 <= k < prefix.len() && prefix[k] == i as usize;
                                        if k < old_prefix.len() {
                                            assert(old_prefix[k] == prefix[k]);
                                        } else {
                                            assert(prefix[k] == id);
                                            assert(i as usize != id);
                                        }
                                    }
                                    if old_prefix.contains(i as usize) {
                                        let k = choose|k: int| 0 <= k < old_prefix.len() && old_prefix[k] == i as usize;
                                        assert(prefix[k] == old_prefix[k]);
                                    }
                                }
                            } else {
                                assert(prefix[prefix.len() - 1] == id);
                            }
                        }
                    }
                    assert(dirty@ =~= d0 + pmarks);
                    assert(propagates(s2@) == propagates(s0[id as int]));
                    if queued(s0, tree, d0) {
                        assert(queued(states_of(before), tree, dirty_before));
                        assert forall|k: (usize, usize)| dirty_before.contains(k) implies dirty@.contains(k) by {
                            let j = choose|j: int| 0 <= j < dirty_before.len() && dirty_before[j] == k;
                            assert(dirty@[j] == k);
                        }
                        let st = self.states();
                        assert forall|i: int|
                            #![trigger st[i]]
                            0 <= i < st.len() && tree.layer_or_null(i as usize) != null_index() && !has_flags(st[i], VNODE)
                                && (has_flags(st[i], SELF_DIRTY) || has_flags(st[i], CHILDREN_DIRTY))
                            implies dirty@.contains((i as usize, tree.layer_or_null(i as usize))) by {
                            if i != id {
                                assert(st[i] == states_of(before)[i]);
                            } else if !has_flags(s@, SELF_DIRTY) {
                                assert(dirty@[dirty@.len() - 1] == (id, layer));
                            } else {
                                assert(states_of(before)[i] == s@);
                                assert(dirty_before.contains((id, layer)));
                            }
                        }
                    }
                }
                if s2.contains(NodeState::from_bits_truncate(VNODE)) || !(s2.contains(
                    NodeState::from_bits_truncate(SIZE_DEFINED),
                ) || s2.contains(NodeState::from_bits_truncate(ABS))) {
                    let parent = self.tree.get_parent(id);
                    proof {
                        if parent != null_index() {
                            tree.lemma_parent(id);
                        }
                        assert(dirty_path(s0, tree, id) == seq![id] + dirty_path(s0, tree, parent));
                        assert(dirty_marks(s0, tree, id) == mark_of(s0, tree, id) + dirty_marks(s0, tree, parent));
                        assert(prefix + dirty_path(s0, tree, parent) =~= old_prefix + (seq![id] + dirty_path(s0, tree, parent)));
                        assert(pmarks + dirty_marks(s0, tree, parent) =~= old_pmarks + (mark_of(s0, tree, id) + dirty_marks(s0, tree, parent)));
                        assert forall|j: int| 0 <= j < prefix.len() implies tree.depth(#[trigger] prefix[j]) > tree.depth(parent) by {
                            if parent != null_index() {
                                if j < old_prefix.len() {
                                    assert(prefix[j] == old_prefix[j]);
                                }
                            }
                        }
                    }
                    id = parent;
                } else {
                    proof {
                        assert(dirty_path(s0, tree, id) == seq![id]);
                        assert(dirty_marks(s0, tree, id) == mark_of(s0, tree, id));
                        assert(prefix =~= old_prefix + seq![id]);
                        assert(pmarks =~= old_pmarks + mark_of(s0, tree, id));
                    }
                    done = true;
                }
            }
        }
        proof {
            if !done {
                assert(dirty_path(s0, tree, id) == Seq::<usize>::empty());
                assert(dirty_marks(s0, tree, id) == Seq::<(usize, usize)>::empty());
            }
            assert(prefix + Seq::<usize>::empty() =~= prefix);
            assert(pmarks + Seq::<(usize, usize)>::empty() =~= pmarks);
        }
    }

    /// Makes `id` self-dirty unless it is virtual or already self-dirty; queues it
    /// when it is on the tree (`layer` not null) and not already queued as
    /// children-dirty. Returns the node whose children must then be marked dirty:
    /// `parent` when the node changed, is on the tree and passes dirtiness on,
    /// null otherwise.
    pub fn set_self_dirty(&mut self, dirty: &mut Vec<(usize, usize)>, id: usize, parent: usize, layer: usize) -> (r: usize)
        requires
            old(self).wf(),
            id < old(self).i_nodes@.len(),
        ensures
            final(self).wf(),
            final(self).tree == old(self).tree,
            final(self).i_nodes@.len() == old(self).i_nodes@.len(),
            forall|i: int|
                0 <= i < old(self).i_nodes@.len() ==> same_but_state(
                    #[trigger] final(self).i_nodes@[i],
                    old(self).i_nodes@[i],
                ),
            (final(self).states(), final(dirty)@) == self_dirty_effect(old(self).states(), old(dirty)@, id, layer),
            r == self_dirty_next(old(self).states(), id, parent, layer),
            layer == old(self).tree.layer_or_null(id) && queued(old(self).states(), old(self).tree, old(dirty)@)
                ==> queued(final(self).states(), final(self).tree, final(dirty)@),
    {
        let ghost s0 = self.states();
        let ghost d0 = dirty@;
        let ghost before = self.i_nodes@;
        let s = self.i_nodes[id].state;
        proof {
            lemma_flags_known();
            lemma_dirty_bits(s@);
            assert(s@ == s0[id as int]);
        }
        if !s.contains(NodeState::from_bits_truncate(VNODE)) && !s.contains(NodeState::from_bits_truncate(SELF_DIRTY)) {
            self.i_nodes[id].state.set_true(NodeState::from_bits_truncate(SELF_DIRTY));
            proof {
                assert(forall|i: int| 0 <= i < before.len() && i != id ==> self.i_nodes@[i] == before[i]);
                assert(self.states() =~= s0.update(id as int, s0[id as int] | SELF_DIRTY));
            }
            if !is_null_id(layer) {
                if !s.contains(NodeState::from_bits_truncate(CHILDREN_DIRTY)) {
                    dirty.push((id, layer));
                }
                let s2 = self.i_nodes[id].state;
                proof {
                    self.lemma_queued_self_dirty(s0, d0, dirty@, id, layer);
                }
                if s2.contains(NodeState::from_bits_truncate(VNODE)) || !(s2.contains(
                    NodeState::from_bits_truncate(SIZE_DEFINED),
                ) || s2.contains(NodeState::from_bits_truncate(ABS))) {
                    return parent;
                }
            } else {
                proof {
                    self.lemma_queued_self_dirty(s0, d0, dirty@, id, layer);
                }
            }
        }
        null_id()
    }

    /// Making a node self-dirty keeps every dirty node queued.
    proof fn lemma_queued_self_dirty(&self, s0: Seq<u32>, d0: Seq<(usize, usize)>, d1: Seq<(usize, usize)>, id: usize, layer: usize)
        requires
            id < s0.len(),
            self.states() == s0.update(id as int, s0[id as int] | SELF_DIRTY),
            self_dirty_applies(s0[id as int]),
            d1 == self_dirty_effect(s0, d0, id, layer).1,
        ensures
            layer == self.tree.layer_or_null(id) && queued(s0, self.tree, d0) ==> queued(self.states(), self.tree, d1),
    {
        if layer == self.tree.layer_or_null(id) && queued(s0, self.tree, d0) {
            lemma_dirty_bits(s0[id as int]);
            let st = self.states();
            assert forall|k: (usize, usize)| d0.contains(k) implies d1.contains(k) by {
                let j = choose|j: int| 0 <= j < d0.len() && d0[j] == k;
                assert(d1[j] == k);
            }
            assert forall|i: int|
                #![trigger st[i]]
                0 <= i < st.len() && self.tree.layer_or_null(i as usize) != null_index() && !has_flags(st[i], VNODE)
                    && (has_flags(st[i], SELF_DIRTY) || has_flags(st[i], CHILDREN_DIRTY))
                implies d1.contains((i as usize, self.tree.layer_or_null(i as usize))) by {
                if i != id {
                    assert(st[i] == s0[i]);
                } else if !has_flags(s0[id as int], CHILDREN_DIRTY) {
                    assert(d1[d1.len() - 1] == (id, layer));
                } else {
                    assert(d0.contains((id, layer)));
                }
            }
        }
    }

    /// Sets the node's `ABS` flag from the style; returns whether it is set.
    pub fn calc_abs(style: &Style<T>, n: &mut INode<T>) -> (r: bool)
        ensures
            r == abs_of(*style),
            final(n).state@ == with_flag(old(n).state@, ABS, r),
            same_but_state(*final(n), *old(n)),
    {
        proof {
            lemma_flags_known();
        }
        if style.position_type == PositionType::Absolute {
            n.state.set_true(NodeState::from_bits_truncate(ABS));
            true
        } else {
            n.state.set_false(NodeState::from_bits_truncate(ABS));
            false
        }
    }

    /// Sets the node's `SELF_RECT` flag from the style; returns whether it is set.
    pub fn calc_rect(style: &Style<T>, n: &mut INode<T>) -> (r: bool)
        ensures
            r == rect_of(*style),
            final(n).state@ == with_flag(old(n).state@, SELF_RECT, r),
            same_but_state(*final(n), *old(n)),
    {
        proof {
            lemma_flags_known();
        }
        if style.position.left.is_points() && style.position.top.is_points() && style.margin.left.is_points()
            && style.margin.top.is_points() && style.size.width.is_points() && style.size.height.is_points() {
            n.state.set_true(NodeState::from_bits_truncate(SELF_RECT));
            true
        } else {
            n.state.set_false(NodeState::from_bits_truncate(SELF_RECT));
            false
        }
    }

    /// Sets the node's `SIZE_DEFINED` flag from the style; returns whether it is set.
    pub fn calc_size_defined(style: &Style<T>, n: &mut INode<T>) -> (r: bool)
        ensures
            r == size_defined_of(*style),
            final(n).state@ == with_flag(old(n).state@, SIZE_DEFINED, r),
            same_but_state(*final(n), *old(n)),
    {
        proof {
            lemma_flags_known();
        }
        if style.size.width.is_defined() && style.size.height.is_defined() {
            n.state.set_true(NodeState::from_bits_truncate(SIZE_DEFINED));
            true
        } else {
            n.state.set_false(NodeState::from_bits_truncate(SIZE_DEFINED));
            false
        }
    }

    /// A child with flags `state` reports to `parent`: the parent's summary
    /// flags lose what the child contradicts (all children absolute, all
    /// self-determined, none with `align_self`, all in index order) and, when
    /// `mark` holds and the parent is on the tree, the parent's children are
    /// marked dirty. Nothing happens for a null parent.
    pub fn set_parent(
        &mut self,
        dirty: &mut Vec<(usize, usize)>,
        state: NodeState,
        parent: usize,
        mark: bool,
        align_self: AlignSelf,
        order: isize,
    )
        requires
            old(self).wf(),
            parent == null_index() || parent < old(self).i_nodes@.len(),
        ensures
            final(self).wf(),
            final(self).tree == old(self).tree,
            final(self).i_nodes@.len() == old(self).i_nodes@.len(),
            forall|i: int|
                0 <= i < old(self).i_nodes@.len() ==> same_but_state(
                    #[trigger] final(self).i_nodes@[i],
                    old(self).i_nodes@[i],
                ),
            (final(self).states(), final(dirty)@) == set_parent_effect(
                old(self).states(),
                old(dirty)@,
                old(self).tree,
                state@,
                parent,
                mark,
                align_self,
                order,
            ),
            queued(old(self).states(), old(self).tree, old(dirty)@) ==> queued(
                final(self).states(),
                final(self).tree,
                final(dirty)@,
            ),
    {
        if is_null_id(parent) {
            return;
        }
        let layer = match self.tree.get_layer(parent) {
            Some(l) => l,
            None => null_id(),
        };
        let ghost s0 = self.states();
        let ghost before = self.i_nodes@;
        proof {
            lemma_flags_known();
        }
        if !state.contains(NodeState::from_bits_truncate(ABS)) {
            self.i_nodes[parent].state.set_false(NodeState::from_bits_truncate(CHILDREN_ABS));
        }
        if !state.contains(NodeState::from_bits_truncate(SELF_RECT)) {
            self.i_nodes[parent].state.set_false(NodeState::from_bits_truncate(CHILDREN_RECT));
        }
        if align_self != AlignSelf::Auto {
            self.i_nodes[parent].state.set_false(NodeState::from_bits_truncate(CHILDREN_NO_ALIGN_SELF));
        }
        if order != 0 {
            self.i_nodes[parent].state.set_false(NodeState::from_bits_truncate(CHILDREN_INDEX));
        }
        proof {
            let x = s0[parent as int];
            assert(before[parent as int].state@ == x);
            assert(forall|i: int| 0 <= i < before.len() && i != parent ==> self.i_nodes@[i] == before[i]);
            assert(self.states() =~= s0.update(parent as int, parent_summary(x, state@, align_self, order)));
            self.lemma_queued_summary(s0, dirty@, parent, state@, align_self, order);
        }
        if mark && !is_null_id(layer) {
            self.mark_children_dirty(dirty, parent);
        }
    }

    /// Updating a parent's summary flags keeps every dirty node queued.
    proof fn lemma_queued_summary(&self, s0: Seq<u32>, d: Seq<(usize, usize)>, parent: usize, child: u32, align_self: AlignSelf, order: isize)
        requires
            parent < s0.len(),
            self.states() == s0.update(parent as int, parent_summary(s0[parent as int], child, align_self, order)),
        ensures
            queued(s0, self.tree, d) ==> queued(self.states(), self.tree, d),
    {
        let x = s0[parent as int];
        let a = if !has_flags(child, ABS) { x & !CHILDREN_ABS } else { x };
        let b = if !has_flags(child, SELF_RECT) { a & !CHILDREN_RECT } else { a };
        let c = if align_self != AlignSelf::Auto { b & !CHILDREN_NO_ALIGN_SELF } else { b };
        lemma_summary_bits(x);
        lemma_summary_bits(a);
        lemma_summary_bits(b);
        lemma_summary_bits(c);
        let y = parent_summary(x, child, align_self, order);
        assert(has_flags(y, VNODE) == has_flags(x, VNODE));
        assert(has_flags(y, SELF_DIRTY) == has_flags(x, SELF_DIRTY));
        assert(has_flags(y, CHILDREN_DIRTY) == has_flags(x, CHILDREN_DIRTY));
        let st = self.states();
        if queued(s0, self.tree, d) {
            assert forall|i: int|
                #![trigger st[i]]
                0 <= i < st.len() && self.tree.layer_or_null(i as usize) != null_index() && !has_flags(st[i], VNODE)
                    && (has_flags(st[i], SELF_DIRTY) || has_flags(st[i], CHILDREN_DIRTY))
                implies d.contains((i as usize, self.tree.layer_or_null(i as usize))) by {
                assert(has_flags(s0[i], VNODE) == has_flags(st[i], VNODE));
                assert(has_flags(s0[i], SELF_DIRTY) == has_flags(st[i], SELF_DIRTY));
                assert(has_flags(s0[i], CHILDREN_DIRTY) == has_flags(st[i], CHILDREN_DIRTY));
            }
        }
    }

    /// The node's display changed (see `set_display_effect`).
    pub fn set_display(&mut self, id: usize, dirty: &mut Vec<(usize, usize)>, style: &Style<T>)
        requires
            old(self).wf(),
            id < old(self).i_nodes@.len(),
            style.display == Display::Hidden ==> old(self).tree.layer_entry(id) is Some,
        ensures
            final(self).wf(),
            final(self).tree == old(self).tree,
            final(self).i_nodes@.len() == old(self).i_nodes@.len(),
            forall|i: int|
                0 <= i < old(self).i_nodes@.len() ==> same_but_state(
                    #[trigger] final(self).i_nodes@[i],
                    old(self).i_nodes@[i],
                ),
            (final(self).states(), final(dirty)@) == set_display_effect(
                old(self).states(),
                old(dirty)@,
                old(self).tree,
                id,
                *style,
            ),
            queued(old(self).states(), old(self).tree, old(dirty)@) ==> queued(
                final(self).states(),
                final(self).tree,
                final(dirty)@,
            ),
    {
        let layer = match self.tree.get_layer(id) {
            Some(l) => l,
            None => null_id(),
        };
        let parent = self.tree.get_parent(id);
        proof {
            if parent != null_index() {
                self.tree.lemma_parent(id);
            }
        }
        let state = self.i_nodes[id].state;
        if style.display != Display::Hidden {
            let ghost s0 = self.states();
            let ghost n0 = self.i_nodes@;
            let ghost d0 = dirty@;
            Self::calc_rect(style, &mut self.i_nodes[id]);
            Self::calc_abs(style, &mut self.i_nodes[id]);
            Self::calc_size_defined(style, &mut self.i_nodes[id]);
            proof {
                lemma_states_update(n0, self.i_nodes@, id);
                let sa = flag_node(s0, id, SELF_RECT, rect_of(*style));
                let sb = flag_node(sa, id, ABS, abs_of(*style));
                let sc = flag_node(sb, id, SIZE_DEFINED, size_defined_of(*style));
                assert(self.states() =~= sc);
                lemma_queued_flag_node(s0, self.tree, d0, id, SELF_RECT, rect_of(*style));
                lemma_queued_flag_node(sa, self.tree, d0, id, ABS, abs_of(*style));
                lemma_queued_flag_node(sb, self.tree, d0, id, SIZE_DEFINED, size_defined_of(*style));
            }
            self.set_self_dirty(dirty, id, parent, layer);
            self.set_parent(dirty, state, parent, true, style.align_self, style.order);
        } else if self.tree.layer(id) > 0 {
            self.mark_children_dirty(dirty, parent);
        }
    }

    /// A style of the node itself changed (see `set_self_style_effect`).
    pub fn set_self_style(&mut self, id: usize, dirty: &mut Vec<(usize, usize)>, style: &Style<T>)
        requires
            old(self).wf(),
            id < old(self).i_nodes@.len(),
        ensures
            final(self).wf(),
            final(self).tree == old(self).tree,
            final(self).i_nodes@.len() == old(self).i_nodes@.len(),
            forall|i: int|
                0 <= i < old(self).i_nodes@.len() ==> same_but_state(
                    #[trigger] final(self).i_nodes@[i],
                    old(self).i_nodes@[i],
                ),
            (final(self).states(), final(dirty)@) == set_self_style_effect(
                old(self).states(),
                old(dirty)@,
                old(self).tree,
                id,
                *style,
            ),
            queued(old(self).states(), old(self).tree, old(dirty)@) ==> queued(
                final(self).states(),
                final(self).tree,
                final(dirty)@,
            ),
    {
        if style.display == Display::Hidden {
            return;
        }
        let layer = match self.tree.get_layer(id) {
            Some(l) => l,
            None => null_id(),
        };
        let parent = self.tree.get_parent(id);
        proof {
            if parent != null_index() {
                self.tree.lemma_parent(id);
            }
        }
        let next = self.set_self_dirty(dirty, id, parent, layer);
        if !is_null_id(next) {
            self.mark_children_dirty(dirty, next);
        }
    }

    /// A style that concerns the node's children changed (see `set_children_style_effect`).
    pub fn set_children_style(&mut self, dirty: &mut Vec<(usize, usize)>, id: usize, style: &Style<T>)
        requires
            old(self).wf(),
            id < old(self).i_nodes@.len(),
        ensures
            final(self).wf(),
            final(self).tree == old(self).tree,
            final(self).i_nodes@.len() == old(self).i_nodes@.len(),
            forall|i: int|
                0 <= i < old(self).i_nodes@.len() ==> same_but_state(
                    #[trigger] final(self).i_nodes@[i],
                    old(self).i_nodes@[i],
                ),
            (final(self).states(), final(dirty)@) == set_children_style_effect(
                old(self).states(),
                old(dirty)@,
                old(self).tree,
                id,
                *style,
            ),
            queued(old(self).states(), old(self).tree, old(dirty)@) ==> queued(
                final(self).states(),
                final(self).tree,
                final(dirty)@,
            ),
    {
        if style.display == Display::Hidden {
            return;
        }
        self.mark_children_dirty(dirty, id);
    }

    /// A style that concerns the node's place among its siblings changed (see
    /// `set_normal_style_effect`).
    pub fn set_normal_style(&mut self, dirty: &mut Vec<(usize, usize)>, id: usize, style: &Style<T>)
        requires
            old(self).wf(),
            id < old(self).i_nodes@.len(),
        ensures
            final(self).wf(),
            final(self).tree == old(self).tree,
            final(self).i_nodes@.len() == old(self).i_nodes@.len(),
            forall|i: int|
                0 <= i < old(self).i_nodes@.len() ==> same_but_state(
                    #[trigger] final(self).i_nodes@[i],
                    old(self).i_nodes@[i],
                ),
            (final(self).states(), final(dirty)@) == set_normal_style_effect(
                old(self).states(),
                old(dirty)@,
                old(self).tree,
                id,
                *style,
            ),
            queued(old(self).states(), old(self).tree, old(dirty)@) ==> queued(
                final(self).states(),
                final(self).tree,
                final(dirty)@,
            ),
    {
        if style.display == Display::Hidden {
            return;
        }
        let parent = self.tree.get_parent(id);
        proof {
            if parent != null_index() {
                self.tree.lemma_parent(id);
            }
        }
        let state = self.i_nodes[id].state;
        self.set_parent(dirty, state, parent, true, style.align_self, style.order);
    }

    /// Position, margin or size changed (see `set_rect_effect`).
    pub fn set_rect(&mut self, dirty: &mut Vec<(usize, usize)>, id: usize, is_abs: bool, is_size: bool, style: &Style<T>)
        requires
            old(self).wf(),
            id < old(self).i_nodes@.len(),
        ensures
            final(self).wf(),
            final(self).tree == old(self).tree,
            final(self).i_nodes@.len() == old(self).i_nodes@.len(),
            forall|i: int|
                0 <= i < old(self).i_nodes@.len() ==> same_but_state(
                    #[trigger] final(self).i_nodes@[i],
                    old(self).i_nodes@[i],
                ),
            (final(self).states(), final(dirty)@) == set_rect_effect(
                old(self).states(),
                old(dirty)@,
                old(self).tree,
                id,
                is_abs,
                is_size,
                *style,
            ),
            queued(old(self).states(), old(self).tree, old(dirty)@) ==> queued(
                final(self).states(),
                final(self).tree,
                final(dirty)@,
            ),
    {
        if style.display == Display::Hidden {
            return;
        }
        let layer = match self.tree.get_layer(id) {
            Some(l) => l,
            None => null_id(),
        };
        let parent = self.tree.get_parent(id);
        proof {
            if parent != null_index() {
                self.tree.lemma_parent(id);
            }
        }
        let ghost s0 = self.states();
        let ghost d0 = dirty@;
        if is_abs {
            let ghost n0 = self.i_nodes@;
            Self::calc_abs(style, &mut self.i_nodes[id]);
            proof {
                lemma_states_update(n0, self.i_nodes@, id);
                assert(self.states() =~= flag_node(s0, id, ABS, abs_of(*style)));
                lemma_queued_flag_node(s0, self.tree, d0, id, ABS, abs_of(*style));
            }
        }
        let ghost s1 = self.states();
        if is_size {
            let ghost n1 = self.i_nodes@;
            Self::calc_size_defined(style, &mut self.i_nodes[id]);
            proof {
                lemma_states_update(n1, self.i_nodes@, id);
                assert(self.states() =~= flag_node(s1, id, SIZE_DEFINED, size_defined_of(*style)));
                lemma_queued_flag_node(s1, self.tree, d0, id, SIZE_DEFINED, size_defined_of(*style));
            }
        }
        self.set_self_dirty(dirty, id, parent, layer);
        let ghost s2 = self.states();
        let ghost n2 = self.i_nodes@;
        let ghost d2 = dirty@;
        let _is_rect = Self::calc_rect(style, &mut self.i_nodes[id]);
        proof {
            lemma_states_update(n2, self.i_nodes@, id);
            assert(self.states() =~= flag_node(s2, id, SELF_RECT, rect_of(*style)));
            lemma_queued_flag_node(s2, self.tree, d2, id, SELF_RECT, rect_of(*style));
        }
        let mark = style.position_type != PositionType::Absolute;
        let state = self.i_nodes[id].state;
        self.set_parent(dirty, state, parent, mark, style.align_self, style.order);
    }

    /// Takes `id` from the queue (see `compute_step_effect`); the caller lays
    /// the node out as the returned action says.
    pub fn compute_step(&mut self, id: usize) -> (r: ComputeAction)
        requires
            old(self).wf(),
        ensures
            final(self).wf(),
            final(self).tree == old(self).tree,
            final(self).i_nodes@.len() == old(self).i_nodes@.len(),
            forall|i: int|
                0 <= i < old(self).i_nodes@.len() ==> same_but_state(
                    #[trigger] final(self).i_nodes@[i],
                    old(self).i_nodes@[i],
                ),
            (final(self).states(), r) == compute_step_effect(old(self).states(), old(self).tree, id),
    {
        match self.tree.get_layer(id) {
            Some(_) => {},
            None => {
                return ComputeAction::Skip;
            },
        }
        let state = self.i_nodes[id].state;
        proof {
            lemma_flags_known();
            lemma_dirty_bits(state@);
        }
        if !(state.contains(NodeState::from_bits_truncate(SELF_DIRTY)) || state.contains(
            NodeState::from_bits_truncate(CHILDREN_DIRTY),
        )) {
            return ComputeAction::Skip;
        }
        let ghost n0 = self.i_nodes@;
        self.i_nodes[id].state.set_false(NodeState::from_bits_truncate(CHILDREN_DIRTY | SELF_DIRTY));
        proof {
            lemma_states_update(n0, self.i_nodes@, id);
        }
        if state.contains(NodeState::from_bits_truncate(VNODE)) {
            return ComputeAction::Skip;
        }
        let ghost s1 = self.states();
        let ghost tree = self.tree;
        let mut parent = self.tree.get_parent(id);
        proof {
            if parent != null_index() {
                tree.lemma_parent(id);
            }
        }
        while !is_null_id(parent) && self.i_nodes[parent].state.contains(NodeState::from_bits_truncate(VNODE))
            invariant
                self.wf(),
                self.tree == tree,
                self.states() == s1,
                parent == null_index() || parent < s1.len(),
                real_ancestor(s1, tree, parent) == real_ancestor(s1, tree, tree.parent(id)),
            decreases (if parent == null_index() {
                0
            } else {
                tree.depth(parent)
            }),
        {
            proof {
                lemma_flags_known();
                assert(self.states()[parent as int] == self.i_nodes@[parent as int].state@);
            }
            let next = self.tree.get_parent(parent);
            proof {
                tree.lemma_depth_positive(parent);
                if next != null_index() {
                    tree.lemma_parent(parent);
                }
            }
            parent = next;
        }
        proof {
            if parent != null_index() {
                assert(self.states()[parent as int] == self.i_nodes@[parent as int].state@);
            }
        }
        if is_null_id(parent) {
            ComputeAction::Root
        } else if state.contains(NodeState::from_bits_truncate(ABS)) && state.contains(
            NodeState::from_bits_truncate(SELF_RECT),
        ) {
            ComputeAction::AbsRect(parent)
        } else if state.contains(NodeState::from_bits_truncate(ABS)) {
            ComputeAction::Abs(parent)
        } else {
            ComputeAction::Rel(parent)
        }
    }
}

} // verus!
