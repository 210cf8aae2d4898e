//! The node store and the evaluator.
use std::collections::HashMap;
use vstd::prelude::*;

use crate::operation::{Operable, Operation, OperationId, Scalar};

verus! {

broadcast use vstd::std_specs::hash::group_hash_axioms;

/// A stored node: its operation and whether its value is memoized.
pub struct Node<V, C> {
    pub op: Operation<V, C>,
    pub cacheable: bool,
}

/// The identifiers that the node at `id` depends on.
pub open spec fn children<V: Scalar, C: Operable<V>>(nodes: Seq<Node<V, C>>, id: usize) -> Seq<
    OperationId,
> {
    nodes[id - 1].op.spec_children()
}

/// `id` names a node of `nodes`: identifiers count from one.
pub open spec fn holds(nodes: Seq<Node<impl Sized, impl Sized>>, id: usize) -> bool {
    1 <= id <= nodes.len()
}

/// Every node refers only to nodes added before it.
pub open spec fn well_formed<V: Scalar, C: Operable<V>>(nodes: Seq<Node<V, C>>) -> bool {
    forall|id: usize, i: int|
        #![trigger children(nodes, id)[i]]
        1 <= id <= nodes.len() && 0 <= i < children(nodes, id).len() ==> 1
            <= children(nodes, id)[i]@ < id
}

/// The values of the first `k` children of the node at `id`, in order.
pub open spec fn child_values<V: Scalar, C: Operable<V>>(
    nodes: Seq<Node<V, C>>,
    id: usize,
    k: nat,
) -> Seq<V>
    decreases id, k,
{
    if k == 0 {
        Seq::empty()
    } else {
        let c = children(nodes, id)[k - 1]@;
        let v = if 1 <= c < id {
            nodes[c - 1].op.spec_compute(child_values(nodes, c, children(nodes, c).len()))
        } else {
            arbitrary()
        };
        child_values(nodes, id, (k - 1) as nat).push(v)
    }
}

/// The value of the node at `id`: its operation applied to the values of its
/// children, taken in order.
pub open spec fn value_of<V: Scalar, C: Operable<V>>(nodes: Seq<Node<V, C>>, id: usize) -> V {
    nodes[id - 1].op.spec_compute(child_values(nodes, id, children(nodes, id).len()))
}

/// The node at `to` lies at or below one of the first `k` children of the
/// node at `from`.
pub open spec fn reaches_within<V: Scalar, C: Operable<V>>(
    nodes: Seq<Node<V, C>>,
    from: usize,
    k: nat,
    to: usize,
) -> bool
    decreases from, k,
{
    if k == 0 {
        false
    } else {
        let c = children(nodes, from)[k - 1]@;
        reaches_within(nodes, from, (k - 1) as nat, to) || (1 <= c < from && (c == to
            || reaches_within(nodes, c, children(nodes, c).len(), to)))
    }
}

/// The node at `to` is the node at `from` or lies below it.
pub open spec fn reaches<V: Scalar, C: Operable<V>>(
    nodes: Seq<Node<V, C>>,
    from: usize,
    to: usize,
) -> bool {
    from == to || (holds(nodes, from) && reaches_within(
        nodes,
        from,
        children(nodes, from).len(),
        to,
    ))
}

/// Two spaces for each level of depth.
pub open spec fn indent(depth: nat) -> Seq<char>
    decreases depth,
{
    if depth == 0 {
        Seq::empty()
    } else {
        indent((depth - 1) as nat) + "  "@
    }
}

/// The line that describes the node at `id`, followed by the trees of its
/// first `k` children one level deeper. A node reached along two paths is
/// described once for each.
pub open spec fn tree_text<V: Scalar, C: Operable<V>>(
    nodes: Seq<Node<V, C>>,
    id: usize,
    depth: nat,
    k: nat,
) -> Seq<char>
    decreases id, k,
{
    if k == 0 {
        indent(depth) + nodes[id - 1].op.spec_label() + "\n"@
    } else {
        let c = children(nodes, id)[k - 1]@;
        tree_text(nodes, id, depth, (k - 1) as nat) + if 1 <= c < id {
            tree_text(nodes, c, depth + 1, children(nodes, c).len())
        } else {
            Seq::empty()
        }
    }
}

/// The whole tree below the node at `id`, one node per line.
pub open spec fn debug_tree<V: Scalar, C: Operable<V>>(nodes: Seq<Node<V, C>>, id: usize) -> Seq<
    char,
> {
    tree_text(nodes, id, 0, children(nodes, id).len())
}

/// The store of nodes. Identifiers are issued from one upwards and are never
/// reused; nodes are never changed or removed.
pub struct Graph<V, C> {
    nodes: Vec<Node<V, C>>,
}

impl<V, C> View for Graph<V, C> {
    type V = Seq<Node<V, C>>;

    closed spec fn view(&self) -> Seq<Node<V, C>> {
        self.nodes@
    }
}

/// Values memoized for the cacheable nodes of one graph.
pub struct GraphCache<V> {
    cache: HashMap<usize, V>,
}

impl<V> View for GraphCache<V> {
    type V = Map<usize, V>;

    closed spec fn view(&self) -> Map<usize, V> {
        self.cache@
    }
}

impl<V: Scalar, C: Operable<V>> Graph<V, C> {
    pub open spec fn wf(&self) -> bool {
        well_formed(self@)
    }

    pub open spec fn is_cacheable(&self, id: usize) -> bool {
        holds(self@, id) && self@[id - 1].cacheable
    }

    /// What a memo table for this graph may hold: only values of cacheable
    /// nodes, each the node's value, and with a node every cacheable node
    /// below it.
    pub open spec fn cache_agrees(&self, m: Map<usize, V>) -> bool {
        forall|k: usize|
            #![trigger m.contains_key(k)]
            m.contains_key(k) ==> {
                &&& self.is_cacheable(k)
                &&& m[k] == value_of(self@, k)
                &&& forall|j: usize|
                    #![trigger reaches(self@, k, j)]
                    reaches(self@, k, j) && self.is_cacheable(j) ==> m.contains_key(j)
            }
    }

    /// An empty graph; the first identifier it issues is one.
    pub fn new() -> (r: Self)
        ensures
            r@ == Seq::<Node<V, C>>::empty(),
            r.wf(),
    {
        Graph { nodes: Vec::new() }
    }

    /// The number of nodes, which is the last identifier issued.
    pub fn node_count(&self) -> (r: usize)
        ensures
            r == self@.len(),
    {
        self.nodes.len()
    }

    /// Whether `id` names a node of this graph.
    pub fn contains(&self, id: OperationId) -> (r: bool)
        ensures
            r == holds(self@, id@),
    {
        1 <= id.index() && id.index() <= self.nodes.len()
    }

    fn push_node(&mut self, op: Operation<V, C>, cacheable: bool) -> (r: OperationId)
        requires
            old(self).wf(),
            old(self)@.len() + 1 < usize::MAX,
            forall|i: int|
                0 <= i < op.spec_children().len() ==> holds(old(self)@, #[trigger] op.spec_children()[i]@),
        ensures
            final(self)@ == old(self)@.push(Node { op, cacheable }),
            r@ == final(self)@.len(),
            final(self).wf(),
            forall|m: Map<usize, V>| old(self).cache_agrees(m) ==> #[trigger] final(self).cache_agrees(m),
    {
        let ghost before = self@;
        self.nodes.push(Node { op, cacheable });
        let id = OperationId::from_index(self.nodes.len());
        proof {
            assert forall|k: usize, i: int|
                #![trigger children(self@, k)[i]]
                1 <= k <= self@.len() && 0 <= i < children(self@, k).len() implies 1
                    <= children(self@, k)[i]@ < k by {
                if k < self@.len() {
                    assert(children(self@, k) == children(before, k));
                }
            }
            assert forall|m: Map<usize, V>| #[trigger] old(self).cache_agrees(m) implies self.cache_agrees(m) by {
                assert forall|k: usize| #[trigger] m.contains_key(k) implies {
                    &&& self.is_cacheable(k)
                    &&& m[k] == value_of(self@, k)
                    &&& forall|j: usize|
                        #![trigger reaches(self@, k, j)]
                        reaches(self@, k, j) && self.is_cacheable(j) ==> m.contains_key(j)
                } by {
                    lemma_push_keeps_value(before, Node { op, cacheable }, k);
                    assert forall|j: usize| #[trigger] reaches(self@, k, j) && self.is_cacheable(j) implies m.contains_key(j) by {
                        lemma_push_keeps_reach(before, Node { op, cacheable }, k, j);
                        lemma_reach_descends(before, k, j);
                        assert(before[j - 1] == self@[j - 1]);
                    }
                }
            }
        }
        id
    }

    /// Adds a node whose value is recomputed at each evaluation that reaches it.
    pub fn add_op(&mut self, op: Operation<V, C>) -> (r: OperationId)
        requires
            old(self).wf(),
            old(self)@.len() + 1 < usize::MAX,
            forall|i: int|
                0 <= i < op.spec_children().len() ==> holds(old(self)@, #[trigger] op.spec_children()[i]@),
        ensures
            final(self)@ == old(self)@.push(Node { op, cacheable: false }),
            r@ == final(self)@.len(),
            final(self).wf(),
            forall|m: Map<usize, V>| old(self).cache_agrees(m) ==> #[trigger] final(self).cache_agrees(m),
    {
        self.push_node(op, false)
    }

    /// Adds a node whose value is memoized by the evaluations that reach it.
    pub fn add_cached_op(&mut self, op: Operation<V, C>) -> (r: OperationId)
        requires
            old(self).wf(),
            old(self)@.len() + 1 < usize::MAX,
            forall|i: int|
                0 <= i < op.spec_children().len() ==> holds(old(self)@, #[trigger] op.spec_children()[i]@),
        ensures
            final(self)@ == old(self)@.push(Node { op, cacheable: true }),
            r@ == final(self)@.len(),
            final(self).wf(),
            forall|m: Map<usize, V>| old(self).cache_agrees(m) ==> #[trigger] final(self).cache_agrees(m),
    {
        self.push_node(op, true)
    }

    fn append_tree(&self, out: &mut String, idx: usize, depth: usize)
        requires
            self.wf(),
            1 <= idx <= self@.len(),
            depth + idx <= self@.len(),
        ensures
            final(out)@ == old(out)@ + tree_text(self@, idx, depth as nat, children(self@, idx).len()),
        decreases idx,
    {
        let ghost nodes = self@;
        let mut d: usize = 0;
        while d < depth
            invariant
                d <= depth,
                out@ == old(out)@ + indent(d as nat),
            decreases depth - d,
        {
            proof {
                reveal_strlit("  ");
            }
            out.append("  ");
            d = d + 1;
            proof {
                assert(out@ =~= old(out)@ + indent(d as nat));
            }
        }
        let node = &self.nodes[idx - 1];
        let label = node.op.debug_string();
        out.append(label.as_str());
        proof {
            reveal_strlit("\n");
        }
        out.append("\n");
        proof {
            assert(out@ =~= old(out)@ + tree_text(nodes, idx, depth as nat, 0));
        }
        let children_ids = node.op.debug_children();
        let count = self.nodes.len();
        let mut i: usize = 0;
        while i < children_ids.len()
            invariant
                self.wf(),
                nodes == self@,
                count == nodes.len(),
                1 <= idx <= nodes.len(),
                depth + idx <= nodes.len(),
                children_ids@ == children(nodes, idx),
                i <= children_ids@.len(),
                out@ == old(out)@ + tree_text(nodes, idx, depth as nat, i as nat),
            decreases children_ids.len() - i,
        {
            let c = children_ids[i].index();
            proof {
                assert(1 <= children(nodes, idx)[i as int]@ < idx);
            }
            self.append_tree(out, c, depth + 1);
            i = i + 1;
            proof {
                assert(out@ =~= old(out)@ + tree_text(nodes, idx, depth as nat, i as nat));
            }
        }
    }

    /// An indented description of the tree below `id`: a line for each node,
    /// its children one level deeper, in order. `None` when `id` names no node
    /// of this graph.
    pub fn get_debug_tree(&self, id: OperationId) -> (r: Option<String>)
        requires
            self.wf(),
        ensures
            holds(self@, id@) ==> r.is_some() && r.unwrap()@ == debug_tree(self@, id@),
            !holds(self@, id@) ==> r.is_none(),
    {
        let idx = id.index();
        if idx == 0 || idx > self.nodes.len() {
            return None;
        }
        let mut out = String::new();
        self.append_tree(&mut out, idx, 0);
        Some(out)
    }

    /// The value of the node `id`, computed depth first, children in order.
    ///
    /// A cacheable node already in `cache` is not computed again; one that is
    /// computed is put there. `None` when `id` names no node of this graph.
    pub fn compute_from_root(&self, cache: &mut GraphCache<V>, id: OperationId) -> (r: Option<V>)
        requires
            self.wf(),
            self.cache_agrees(old(cache)@),
        ensures
            holds(self@, id@) ==> r == Some(value_of(self@, id@)),
            !holds(self@, id@) ==> r.is_none() && final(cache)@ == old(cache)@,
            self.cache_agrees(final(cache)@),
            old(cache)@.submap_of(final(cache)@),
            old(cache)@.contains_key(id@) ==> final(cache)@ == old(cache)@,
            (forall|j: usize|
                reaches(self@, id@, j) && #[trigger] self.is_cacheable(j) ==> old(cache)@.contains_key(j))
                ==> final(cache)@ == old(cache)@,
            forall|j: usize|
                reaches(self@, id@, j) && #[trigger] self.is_cacheable(j) ==> final(cache)@.contains_key(j),
        decreases id@,
    {
        let idx = id.index();
        if idx == 0 || idx > self.nodes.len() {
            return None;
        }
        let node = &self.nodes[idx - 1];
        if node.cacheable {
            match cache.cache.get(&idx) {
                Some(v) => {
                    return Some(*v);
                },
                None => {},
            }
        }
        let ghost nodes = self@;
        let ghost start = cache@;
        let ghost all_in = forall|j: usize|
            reaches(nodes, idx, j) && #[trigger] self.is_cacheable(j) ==> start.contains_key(j);
        let children_ids = node.op.debug_children();
        let mut values: Vec<V> = Vec::new();
        let mut i: usize = 0;
        while i < children_ids.len()
            invariant
                self.wf(),
                nodes == self@,
                1 <= idx <= nodes.len(),
                idx == id@,
                children_ids@ == children(nodes, idx),
                i <= children_ids@.len(),
                values@ == child_values(nodes, idx, i as nat),
                self.cache_agrees(cache@),
                start.submap_of(cache@),
                forall|j: usize|
                    reaches_within(nodes, idx, i as nat, j) && #[trigger] self.is_cacheable(j)
                        ==> cache@.contains_key(j),
                all_in == (forall|j: usize|
                    reaches(nodes, idx, j) && #[trigger] self.is_cacheable(j) ==> start.contains_key(j)),
                all_in ==> cache@ == start,
            decreases children_ids.len() - i,
        {
            let c = children_ids[i];
            proof {
                assert(1 <= children(nodes, idx)[i as int]@ < idx);
                assert forall|j: usize| reaches(nodes, c@, j) implies reaches(nodes, idx, j) by {
                    lemma_reach_child(nodes, idx, i as nat, j);
                }
            }
            let ghost before = cache@;
            let v = match self.compute_from_root(cache, c) {
                Some(v) => v,
                None => {
                    return None;
                },
            };
            values.push(v);
            i = i + 1;
            proof {
                assert(values@ =~= child_values(nodes, idx, i as nat));
                assert forall|k: usize| start.contains_key(k) implies #[trigger] cache@.contains_key(k)
                    && cache@[k] == start[k] by {
                    assert(before.contains_key(k));
                }
            }
        }
        proof {
            lemma_child_values_len(nodes, idx, i as nat);
        }
        let value = node.op.compute(&values);
        proof {
            assert(value == value_of(nodes, idx));
        }
        if node.cacheable {
            cache.cache.insert(idx, value);
        }
        Some(value)
    }
}

impl<V: Copy> GraphCache<V> {
    /// An empty memo table.
    pub fn new() -> (r: Self)
        ensures
            r@ == Map::<usize, V>::empty(),
    {
        GraphCache { cache: HashMap::new() }
    }

    /// The value memoized for `id`, if any.
    pub fn cached_value(&self, id: OperationId) -> (r: Option<V>)
        ensures
            r == (if self@.contains_key(id@) {
                Some(self@[id@])
            } else {
                None
            }),
    {
        match self.cache.get(&id.index()) {
            Some(v) => Some(*v),
            None => None,
        }
    }
}

impl<V: Scalar, C: Operable<V>> Default for Graph<V, C> {
    fn default() -> (r: Self)
        ensures
            r@ == Seq::<Node<V, C>>::empty(),
            r.wf(),
    {
        Graph::new()
    }
}

impl<V: Copy> Default for GraphCache<V> {
    fn default() -> (r: Self)
        ensures
            r@ == Map::<usize, V>::empty(),
    {
        GraphCache::new()
    }
}

/// Reaching more children reaches at least as much.
pub proof fn lemma_reach_within_grows<V: Scalar, C: Operable<V>>(
    nodes: Seq<Node<V, C>>,
    id: usize,
    k1: nat,
    k2: nat,
    to: usize,
)
    requires
        k1 <= k2,
        reaches_within(nodes, id, k1, to),
    ensures
        reaches_within(nodes, id, k2, to),
    decreases k2,
{
    if k1 < k2 {
        lemma_reach_within_grows(nodes, id, k1, (k2 - 1) as nat, to);
    }
}

/// What a child reaches, its parent reaches.
pub proof fn lemma_reach_child<V: Scalar, C: Operable<V>>(
    nodes: Seq<Node<V, C>>,
    id: usize,
    i: nat,
    to: usize,
)
    requires
        well_formed(nodes),
        1 <= id <= nodes.len(),
        i < children(nodes, id).len(),
        reaches(nodes, children(nodes, id)[i as int]@, to),
    ensures
        reaches(nodes, id, to),
{
    let c = children(nodes, id)[i as int]@;
    assert(1 <= c < id);
    assert(reaches_within(nodes, id, i + 1, to));
    lemma_reach_within_grows(nodes, id, i + 1, children(nodes, id).len(), to);
}

/// There is one value for each of the first `k` children.
pub proof fn lemma_child_values_len<V: Scalar, C: Operable<V>>(
    nodes: Seq<Node<V, C>>,
    id: usize,
    k: nat,
)
    ensures
        child_values(nodes, id, k).len() == k,
    decreases k,
{
    if k > 0 {
        lemma_child_values_len(nodes, id, (k - 1) as nat);
    }
}

/// Appending a node leaves the values of the children of every earlier node
/// as they were.
pub proof fn lemma_push_keeps_child_values<V: Scalar, C: Operable<V>>(
    nodes: Seq<Node<V, C>>,
    n: Node<V, C>,
    id: usize,
    k: nat,
)
    requires
        well_formed(nodes),
        1 <= id <= nodes.len(),
        k <= children(nodes, id).len(),
    ensures
        child_values(nodes.push(n), id, k) == child_values(nodes, id, k),
    decreases id, k,
{
    assert(nodes.push(n)[id - 1] == nodes[id - 1]);
    if k > 0 {
        let c = children(nodes, id)[k - 1]@;
        assert(1 <= c < id);
        assert(nodes.push(n)[c - 1] == nodes[c - 1]);
        lemma_push_keeps_child_values(nodes, n, c, children(nodes, c).len());
        lemma_push_keeps_child_values(nodes, n, id, (k - 1) as nat);
    }
}

/// Appending a node leaves the value of every earlier node as it was.
pub proof fn lemma_push_keeps_value<V: Scalar, C: Operable<V>>(
    nodes: Seq<Node<V, C>>,
    n: Node<V, C>,
    id: usize,
)
    requires
        well_formed(nodes),
        1 <= id <= nodes.len(),
    ensures
        value_of(nodes.push(n), id) == value_of(nodes, id),
{
    assert(nodes.push(n)[id - 1] == nodes[id - 1]);
    lemma_push_keeps_child_values(nodes, n, id, children(nodes, id).len());
}

/// Appending a node adds no path below the children of an earlier node.
pub proof fn lemma_push_keeps_reach_within<V: Scalar, C: Operable<V>>(
    nodes: Seq<Node<V, C>>,
    n: Node<V, C>,
    from: usize,
    k: nat,
    to: usize,
)
    requires
        well_formed(nodes),
        1 <= from <= nodes.len(),
        k <= children(nodes, from).len(),
    ensures
        reaches_within(nodes.push(n), from, k, to) == reaches_within(nodes, from, k, to),
    decreases from, k,
{
    assert(nodes.push(n)[from - 1] == nodes[from - 1]);
    if k > 0 {
        let c = children(nodes, from)[k - 1]@;
        assert(1 <= c < from);
        assert(nodes.push(n)[c - 1] == nodes[c - 1]);
        lemma_push_keeps_reach_within(nodes, n, c, children(nodes, c).len(), to);
        lemma_push_keeps_reach_within(nodes, n, from, (k - 1) as nat, to);
    }
}

/// Appending a node adds no path below an earlier node.
pub proof fn lemma_push_keeps_reach<V: Scalar, C: Operable<V>>(
    nodes: Seq<Node<V, C>>,
    n: Node<V, C>,
    from: usize,
    to: usize,
)
    requires
        well_formed(nodes),
        1 <= from <= nodes.len(),
    ensures
        reaches(nodes.push(n), from, to) == reaches(nodes, from, to),
{
    assert(nodes.push(n)[from - 1] == nodes[from - 1]);
    lemma_push_keeps_reach_within(nodes, n, from, children(nodes, from).len(), to);
}

/// Below the children of a node lie only nodes added before it.
pub proof fn lemma_reach_within_descends<V: Scalar, C: Operable<V>>(
    nodes: Seq<Node<V, C>>,
    from: usize,
    k: nat,
    to: usize,
)
    requires
        well_formed(nodes),
        1 <= from <= nodes.len(),
        k <= children(nodes, from).len(),
        reaches_within(nodes, from, k, to),
    ensures
        1 <= to < from,
    decreases from, k,
{
    let c = children(nodes, from)[k - 1]@;
    assert(1 <= c < from);
    if reaches_within(nodes, from, (k - 1) as nat, to) {
        lemma_reach_within_descends(nodes, from, (k - 1) as nat, to);
    } else if c != to {
        lemma_reach_within_descends(nodes, c, children(nodes, c).len(), to);
    }
}

/// A node reaches only itself and nodes added before it.
pub proof fn lemma_reach_descends<V: Scalar, C: Operable<V>>(
    nodes: Seq<Node<V, C>>,
    from: usize,
    to: usize,
)
    requires
        well_formed(nodes),
        1 <= from <= nodes.len(),
        reaches(nodes, from, to),
    ensures
        1 <= to <= from,
{
    if from != to {
        lemma_reach_within_descends(nodes, from, children(nodes, from).len(), to);
    }
}

/// The `i`-th of the child values is the value of the `i`-th child.
pub proof fn lemma_child_values_index<V: Scalar, C: Operable<V>>(
    nodes: Seq<Node<V, C>>,
    id: usize,
    k: nat,
    i: int,
)
    requires
        well_formed(nodes),
        1 <= id <= nodes.len(),
        k <= children(nodes, id).len(),
        0 <= i < k,
    ensures
        child_values(nodes, id, k)[i] == value_of(nodes, children(nodes, id)[i]@),
    decreases k,
{
    assert(1 <= children(nodes, id)[k - 1]@ < id);
    lemma_child_values_len(nodes, id, (k - 1) as nat);
    if i < k - 1 {
        lemma_child_values_index(nodes, id, (k - 1) as nat, i);
    }
}

/// Evaluation follows the expression: the value of a node is its operation
/// applied to the values of its children, in order. Shared children are the
/// same node and so have one value.
pub proof fn lemma_value_is_structural<V: Scalar, C: Operable<V>>(
    nodes: Seq<Node<V, C>>,
    id: usize,
)
    requires
        well_formed(nodes),
        1 <= id <= nodes.len(),
    ensures
        ({
            let cs = children(nodes, id);
            let vals = child_values(nodes, id, cs.len());
            &&& vals.len() == cs.len()
            &&& forall|i: int| 0 <= i < cs.len() ==> #[trigger] vals[i] == value_of(nodes, cs[i]@)
            &&& value_of(nodes, id) == nodes[id - 1].op.spec_compute(vals)
        }),
{
    let cs = children(nodes, id);
    lemma_child_values_len(nodes, id, cs.len());
    assert forall|i: int| 0 <= i < cs.len() implies #[trigger] child_values(nodes, id, cs.len())[i]
        == value_of(nodes, cs[i]@) by {
        lemma_child_values_index(nodes, id, cs.len(), i);
    }
}

/// The value of a sum, difference, product or quotient node is that
/// operation on the values of its two operands.
pub proof fn lemma_value_of_arithmetic<V: Scalar, C: Operable<V>>(
    nodes: Seq<Node<V, C>>,
    id: usize,
)
    requires
        well_formed(nodes),
        1 <= id <= nodes.len(),
    ensures
        match nodes[id - 1].op {
            Operation::Leaf(v) => value_of(nodes, id) == v,
            Operation::Sum(a, b) => value_of(nodes, id) == V::spec_sum(
                value_of(nodes, a@),
                value_of(nodes, b@),
            ),
            Operation::Diff(a, b) => value_of(nodes, id) == V::spec_diff(
                value_of(nodes, a@),
                value_of(nodes, b@),
            ),
            Operation::Product(a, b) => value_of(nodes, id) == V::spec_product(
                value_of(nodes, a@),
                value_of(nodes, b@),
            ),
            Operation::Div(a, b) => value_of(nodes, id) == V::spec_div(
                value_of(nodes, a@),
                value_of(nodes, b@),
            ),
            Operation::Custom(_) => true,
        },
{
    lemma_value_is_structural(nodes, id);
    let cs = children(nodes, id);
    let vals = child_values(nodes, id, cs.len());
    if cs.len() == 2 {
        assert(vals[0] == value_of(nodes, cs[0]@));
        assert(vals[1] == value_of(nodes, cs[1]@));
    }
}

/// A memoized value is the value the node would be computed to, so a cache
/// hit and a fresh computation give the same result.
pub proof fn lemma_memo_is_value<V: Scalar, C: Operable<V>>(
    graph: &Graph<V, C>,
    m: Map<usize, V>,
    id: usize,
)
    requires
        graph.cache_agrees(m),
        m.contains_key(id),
    ensures
        m[id] == value_of(graph@, id),
        graph.is_cacheable(id),
{
}

/// A node added in the non-cacheable form never has a memo entry.
pub proof fn lemma_no_memo_for_uncached<V: Scalar, C: Operable<V>>(
    graph: &Graph<V, C>,
    m: Map<usize, V>,
    id: usize,
)
    requires
        graph.cache_agrees(m),
        !graph.is_cacheable(id),
    ensures
        !m.contains_key(id),
{
}

/// A fresh memo table suits every graph.
pub proof fn lemma_empty_cache_agrees<V: Scalar, C: Operable<V>>(graph: &Graph<V, C>)
    ensures
        graph.cache_agrees(Map::<usize, V>::empty()),
{
}

} // verus!
