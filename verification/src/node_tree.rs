use vstd::prelude::*;
use crate::null::{null_index, null_id, is_null_id};

verus! {

/// The parent of `i`, or null where `i` has none or is out of range.
pub open spec fn parent_of(parents: Seq<usize>, i: usize) -> usize {
    if i < parents.len() {
        parents[i as int]
    } else {
        null_index()
    }
}

/// The node reached from `i` after `k` steps up the parent links (null absorbs).
pub open spec fn ancestor(parents: Seq<usize>, i: usize, k: nat) -> usize
    decreases k,
{
    if k == 0 {
        i
    } else {
        parent_of(parents, ancestor(parents, i, (k - 1) as nat))
    }
}

/// Every parent link is null or in range, and every chain of parents reaches
/// null within as many steps as there are nodes: the links form a forest.
pub open spec fn links_form_forest(parents: Seq<usize>) -> bool {
    &&& forall|i: int|
        0 <= i < parents.len() ==> (#[trigger] parents[i] == null_index() || parents[i] < parents.len())
    &&& forall|i: int|
        0 <= i < parents.len() ==> #[trigger] ancestor(parents, i as usize, parents.len()) == null_index()
}

/// The parent links of the layout tree and the layer of each node on it.
///
/// A node's layer is `None` where the tree storage has no layer entry for it,
/// and `Some(null)` where the node is not attached below a root.
pub struct NodeTree {
    parents: Vec<usize>,
    layers: Vec<Option<usize>>,
    depths: Ghost<Seq<nat>>,
}

impl NodeTree {
    /// Number of nodes.
    pub closed spec fn len_spec(&self) -> nat {
        self.parents@.len()
    }

    /// The parent links.
    pub closed spec fn parents_spec(&self) -> Seq<usize> {
        self.parents@
    }

    /// The layer entries.
    pub closed spec fn layers_spec(&self) -> Seq<Option<usize>> {
        self.layers@
    }

    /// The parent of `id` (null for a root or an index out of range).
    pub open spec fn parent(&self, id: usize) -> usize {
        parent_of(self.parents_spec(), id)
    }

    /// The layer entry of `id` (`None` out of range).
    pub open spec fn layer_entry(&self, id: usize) -> Option<usize> {
        if id < self.len_spec() {
            self.layers_spec()[id as int]
        } else {
            None
        }
    }

    /// The layer of `id`, null where there is no entry.
    pub open spec fn layer_or_null(&self, id: usize) -> usize {
        match self.layer_entry(id) {
            Some(l) => l,
            None => null_index(),
        }
    }

    /// Steps from `id` to the top of its tree; it decreases towards the root.
    pub closed spec fn depth(&self, id: usize) -> nat {
        if id < self.len_spec() && id != null_index() {
            self.depths@[id as int]
        } else {
            0
        }
    }

    /// The links form a forest, with a depth that every parent link decreases.
    pub closed spec fn wf(&self) -> bool {
        &&& self.parents@.len() == self.layers@.len()
        &&& self.parents@.len() <= usize::MAX
        &&& self.depths@.len() == self.parents@.len()
        &&& links_form_forest(self.parents@)
        &&& forall|i: int|
            0 <= i < self.parents@.len() && #[trigger] self.parents@[i] != null_index()
                ==> self.depths@[self.parents@[i] as int] < self.depths@[i]
        &&& forall|i: int| 0 <= i < self.parents@.len() ==> #[trigger] self.depths@[i] >= 1
    }

    /// The number of nodes fits in a `usize`.
    pub proof fn lemma_len_bound(&self)
        requires
            self.wf(),
        ensures
            self.len_spec() <= usize::MAX,
    {
    }

    /// Every node lies at depth at least one, so the null index (depth zero) is below it.
    pub proof fn lemma_depth_positive(&self, id: usize)
        requires
            self.wf(),
            id < self.len_spec(),
        ensures
            self.depth(id) >= 1,
            self.depth(null_index()) == 0,
    {
        assert(self.depths@[id as int] >= 1);
    }

    /// A parent is in range and lies strictly closer to the root.
    pub proof fn lemma_parent(&self, id: usize)
        requires
            self.wf(),
            id < self.len_spec(),
            self.parent(id) != null_index(),
        ensures
            self.parent(id) < self.len_spec(),
            self.depth(self.parent(id)) < self.depth(id),
    {
        assert(self.depths@[id as int] >= 1);
        assert(self.parents@[id as int] == null_index() || self.parents@[id as int] < self.parents@.len());
    }

    /// Builds the tree from each node's parent (null for a root) and layer entry.
    /// Succeeds exactly when the lengths agree and the links form a forest.
    pub fn new(parents: Vec<usize>, layers: Vec<Option<usize>>) -> (r: Option<Self>)
        ensures
            r is Some <==> (parents@.len() == layers@.len() && links_form_forest(parents@)),
            r matches Some(t) ==> {
                &&& t.wf()
                &&& t.len_spec() == parents@.len()
                &&& t.parents_spec() == parents@
                &&& t.layers_spec() == layers@
            },
    {
        let n = parents.len();
        if layers.len() != n {
            return None;
        }
        let null = null_id();
        // every link is null or in range
        let mut i: usize = 0;
        while i < n
            invariant
                n == parents@.len(),
                null == null_index(),
                i <= n,
                forall|j: int| 0 <= j < i ==> (#[trigger] parents@[j] == null_index() || parents@[j] < n),
            decreases n - i,
        {
            let p = parents[i];
            if p != null && p >= n {
                assert(!(parents@[i as int] == null_index() || parents@[i as int] < parents@.len()));
                return None;
            }
            i = i + 1;
        }
        // the depth of each node is the number of steps until its chain reaches null
        let ghost mut depths: Seq<nat> = Seq::empty();
        let mut i: usize = 0;
        while i < n
            invariant
                n == parents@.len(),
                null == null_index(),
                i <= n,
                forall|j: int| 0 <= j < n ==> (#[trigger] parents@[j] == null_index() || parents@[j] < n),
                forall|j: int| 0 <= j < i ==> #[trigger] ancestor(parents@, j as usize, n as nat) == null_index(),
                depths.len() == i,
                forall|j: int| 0 <= j < i ==> Self::first_null(parents@, j as usize, #[trigger] depths[j]),
                forall|j: int| 0 <= j < i ==> #[trigger] depths[j] >= 1,
            decreases n - i,
        {
            let mut p = i;
            let mut d: usize = 0;
            while !is_null_id(p) && d < n
                invariant
                    n == parents@.len(),
                    d <= n,
                    p == ancestor(parents@, i, d as nat),
                    p == null_index() || p < n,
                    i < n,
                    forall|k: nat| k < d ==> #[trigger] ancestor(parents@, i, k) != null_index(),
                    forall|j: int| 0 <= j < n ==> (#[trigger] parents@[j] == null_index() || parents@[j] < n),
                decreases n - d,
            {
                assert(p < n);
                p = parents[p];
                d = d + 1;
            }
            if !is_null_id(p) {
                assert(ancestor(parents@, (i as int) as usize, parents@.len()) != null_index());
                return None;
            }
            proof {
                Self::lemma_null_stays(parents@, i, d as nat, n as nat);
                assert(ancestor(parents@, i, 0) == i);
                depths = depths.push(d as nat);
            }
            i = i + 1;
        }
        let tree = NodeTree { parents, layers, depths: Ghost(depths) };
        proof {
            assert forall|j: int|
                0 <= j < n && #[trigger] tree.parents@[j] != null_index()
                    implies depths[tree.parents@[j] as int] < depths[j] by {
                let p = tree.parents@[j];
                Self::lemma_step(parents@, j as usize, depths[j]);
                assert(Self::first_null(parents@, p, depths[p as int]));
                if depths[p as int] > depths[j] - 1 {
                    assert(ancestor(parents@, p, (depths[j] - 1) as nat) != null_index());
                }
            }
        }
        Some(tree)
    }

    /// `d` is the first step count at which the chain from `i` reaches null.
    pub open spec fn first_null(parents: Seq<usize>, i: usize, d: nat) -> bool {
        &&& ancestor(parents, i, d) == null_index()
        &&& forall|k: nat| k < d ==> #[trigger] ancestor(parents, i, k) != null_index()
    }

    /// Once null is reached it stays.
    proof fn lemma_null_stays(parents: Seq<usize>, i: usize, d: nat, e: nat)
        requires
            d <= e,
            parents.len() <= usize::MAX,
            ancestor(parents, i, d) == null_index(),
        ensures
            ancestor(parents, i, e) == null_index(),
        decreases e - d,
    {
        if d < e {
            Self::lemma_null_stays(parents, i, d, (e - 1) as nat);
            assert(ancestor(parents, i, e) == parent_of(parents, ancestor(parents, i, (e - 1) as nat)));
        }
    }

    /// Walking `k` steps from `i`'s parent is walking `k + 1` steps from `i`.
    proof fn lemma_shift(parents: Seq<usize>, i: usize, k: nat)
        ensures
            ancestor(parents, parent_of(parents, i), k) == ancestor(parents, i, k + 1),
        decreases k,
    {
        let p = parent_of(parents, i);
        assert(ancestor(parents, i, 0) == i);
        assert(ancestor(parents, i, 1) == parent_of(parents, ancestor(parents, i, 0)));
        if k > 0 {
            Self::lemma_shift(parents, i, (k - 1) as nat);
            assert(ancestor(parents, p, k) == parent_of(parents, ancestor(parents, p, (k - 1) as nat)));
            assert(ancestor(parents, i, k + 1) == parent_of(parents, ancestor(parents, i, k)));
        } else {
            assert(ancestor(parents, p, 0) == p);
        }
    }

    /// The first null of a non-root node's chain comes one step after its parent's.
    proof fn lemma_step(parents: Seq<usize>, i: usize, d: nat)
        requires
            Self::first_null(parents, i, d),
            i != null_index(),
        ensures
            d >= 1,
            Self::first_null(parents, parent_of(parents, i), (d - 1) as nat),
    {
        assert(ancestor(parents, i, 0) == i);
        let p = parent_of(parents, i);
        Self::lemma_shift(parents, i, (d - 1) as nat);
        assert forall|k: nat| k < d - 1 implies #[trigger] ancestor(parents, p, k) != null_index() by {
            Self::lemma_shift(parents, i, k);
            assert(ancestor(parents, i, k + 1) != null_index());
        }
    }

    /// Number of nodes.
    pub fn len(&self) -> (r: usize)
        ensures
            r == self.len_spec(),
    {
        self.parents.len()
    }

    /// The layer entry of `id`.
    pub fn get_layer(&self, id: usize) -> (r: Option<usize>)
        requires
            self.wf(),
        ensures
            r == self.layer_entry(id),
    {
        if id < self.parents.len() {
            self.layers[id]
        } else {
            None
        }
    }

    /// The layer of a node that has a layer entry.
    pub fn layer(&self, id: usize) -> (r: usize)
        requires
            self.wf(),
            self.layer_entry(id) is Some,
        ensures
            Some(r) == self.layer_entry(id),
    {
        self.layers[id].unwrap()
    }

    /// The parent of `id` (null for a root or out of range).
    pub fn get_parent(&self, id: usize) -> (r: usize)
        ensures
            r == self.parent(id),
    {
        if id < self.parents.len() {
            self.parents[id]
        } else {
            null_id()
        }
    }
}

} // verus!
