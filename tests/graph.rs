use dag_experiment::{Graph, GraphCache, Operable, Operation, OperationId, Scalar};

#[derive(Clone, Copy, Debug, PartialEq)]
struct F32(f32);

impl Scalar for F32 {
    fn sum(a: Self, b: Self) -> Self {
        F32(a.0 + b.0)
    }

    fn diff(a: Self, b: Self) -> Self {
        F32(a.0 - b.0)
    }

    fn product(a: Self, b: Self) -> Self {
        F32(a.0 * b.0)
    }

    fn div(a: Self, b: Self) -> Self {
        F32(a.0 / b.0)
    }

    fn debug_string(&self) -> String {
        self.0.to_string()
    }
}

struct MyOperation(OperationId, OperationId);

impl Operable<F32> for MyOperation {
    fn compute(&self, child_values: &Vec<F32>) -> F32 {
        F32(child_values[0].0 * 10.0 + child_values[1].0 * 3.0)
    }

    fn debug_string(&self) -> String {
        "x, y -> 10 * x + 3 * y".to_string()
    }

    fn debug_children(&self) -> Vec<OperationId> {
        vec![self.0, self.1]
    }
}

type FloatGraph = Graph<F32, MyOperation>;

#[test]
fn graph_single_node() {
    let mut graph = FloatGraph::new();
    let mut cache = GraphCache::new();
    let root_id = graph.add_op(Operation::Leaf(F32(42.0)));

    assert_eq!(graph.compute_from_root(&mut cache, root_id), Some(F32(42.0)));
}

#[test]
fn graph_basic_tree() {
    let mut graph = FloatGraph::new();
    let mut cache = GraphCache::new();
    let id_1 = graph.add_op(Operation::Leaf(F32(42.0)));
    let id_2 = graph.add_op(Operation::Leaf(F32(10.0)));
    let id_sum = graph.add_op(Operation::Sum(id_1, id_2));
    let id_3 = graph.add_op(Operation::Leaf(F32(2.0)));
    let id_product = graph.add_op(Operation::Product(id_sum, id_3));

    assert_eq!(graph.compute_from_root(&mut cache, id_product), Some(F32(104.0)));
}

#[test]
fn graph_non_tree_graph() {
    let mut graph = FloatGraph::new();
    let mut cache = GraphCache::new();
    let id_1 = graph.add_op(Operation::Leaf(F32(48.0)));
    let id_2 = graph.add_op(Operation::Leaf(F32(10.0)));
    let id_sum = graph.add_op(Operation::Sum(id_1, id_2));
    let id_3 = graph.add_op(Operation::Leaf(F32(8.0)));
    let id_diff = graph.add_op(Operation::Diff(id_sum, id_3));
    let id_product = graph.add_op(Operation::Product(id_diff, id_2));

    assert_eq!(graph.compute_from_root(&mut cache, id_product), Some(F32(500.0)));
}

#[test]
fn operation_cache() {
    let mut graph = FloatGraph::new();
    let mut cache = GraphCache::new();
    let id_1 = graph.add_op(Operation::Leaf(F32(42.0)));
    let id_2 = graph.add_op(Operation::Leaf(F32(10.0)));
    let id_sum = graph.add_cached_op(Operation::Sum(id_1, id_2));
    let id_3 = graph.add_op(Operation::Leaf(F32(2.0)));
    let id_product = graph.add_op(Operation::Product(id_sum, id_3));

    graph.compute_from_root(&mut cache, id_product);
    assert_eq!(cache.cached_value(id_sum), Some(F32(52.0)));
    assert_eq!(cache.cached_value(id_product), None);
}

#[test]
fn ids_count_up_from_one() {
    let mut graph = FloatGraph::new();
    let id_1 = graph.add_op(Operation::Leaf(F32(1.0)));
    let id_2 = graph.add_cached_op(Operation::Leaf(F32(2.0)));
    let id_3 = graph.add_op(Operation::Sum(id_1, id_2));
    assert_eq!(id_1.index(), 1);
    assert_eq!(id_2.index(), 2);
    assert_eq!(id_3.index(), 3);
    assert!(graph.contains(id_3));
}

#[test]
fn unknown_id_is_reported() {
    let mut graph = FloatGraph::new();
    let mut cache = GraphCache::new();
    let mut other = FloatGraph::new();
    other.add_op(Operation::Leaf(F32(1.0)));
    let foreign = other.add_op(Operation::Leaf(F32(2.0)));
    graph.add_op(Operation::Leaf(F32(3.0)));

    assert!(!graph.contains(foreign));
    assert_eq!(graph.compute_from_root(&mut cache, foreign), None);
    assert_eq!(graph.get_debug_tree(foreign), None);
    assert_eq!(cache.cached_value(foreign), None);
}

#[test]
fn division_by_zero_is_a_value() {
    let mut graph = FloatGraph::new();
    let mut cache = GraphCache::new();
    let one = graph.add_op(Operation::Leaf(F32(1.0)));
    let zero = graph.add_op(Operation::Leaf(F32(0.0)));
    let quotient = graph.add_op(Operation::Div(one, zero));
    let nan = graph.add_op(Operation::Div(zero, zero));

    assert_eq!(graph.compute_from_root(&mut cache, quotient), Some(F32(f32::INFINITY)));
    assert!(graph.compute_from_root(&mut cache, nan).unwrap().0.is_nan());
}

#[test]
fn second_evaluation_uses_the_memo() {
    let mut graph = FloatGraph::new();
    let mut cache = GraphCache::new();
    let a = graph.add_op(Operation::Leaf(F32(6.0)));
    let b = graph.add_cached_op(Operation::Leaf(F32(7.0)));
    let prod = graph.add_cached_op(Operation::Product(a, b));
    let top = graph.add_op(Operation::Diff(prod, a));

    let first = graph.compute_from_root(&mut cache, top);
    assert_eq!(first, Some(F32(36.0)));
    assert_eq!(cache.cached_value(prod), Some(F32(42.0)));
    assert_eq!(cache.cached_value(b), Some(F32(7.0)));
    assert_eq!(cache.cached_value(a), None);
    assert_eq!(cache.cached_value(top), None);

    let second = graph.compute_from_root(&mut cache, top);
    assert_eq!(second, first);
    assert_eq!(cache.cached_value(prod), Some(F32(42.0)));
    assert_eq!(cache.cached_value(top), None);
}

#[test]
fn uncached_node_never_enters_the_memo() {
    let mut graph = FloatGraph::new();
    let mut cache = GraphCache::new();
    let a = graph.add_op(Operation::Leaf(F32(2.0)));
    let b = graph.add_op(Operation::Sum(a, a));
    for _ in 0..3 {
        assert_eq!(graph.compute_from_root(&mut cache, b), Some(F32(4.0)));
    }
    assert_eq!(cache.cached_value(a), None);
    assert_eq!(cache.cached_value(b), None);
}

#[test]
fn memo_persists_across_roots() {
    let mut graph = FloatGraph::new();
    let mut cache = GraphCache::default();
    let a = graph.add_cached_op(Operation::Leaf(F32(3.0)));
    let b = graph.add_op(Operation::Leaf(F32(4.0)));
    let s = graph.add_cached_op(Operation::Sum(a, b));
    assert_eq!(graph.compute_from_root(&mut cache, a), Some(F32(3.0)));
    assert_eq!(cache.cached_value(s), None);
    let d = graph.add_op(Operation::Div(s, b));
    assert_eq!(graph.compute_from_root(&mut cache, d), Some(F32(1.75)));
    assert_eq!(cache.cached_value(a), Some(F32(3.0)));
    assert_eq!(cache.cached_value(s), Some(F32(7.0)));
}

#[test]
fn debug_tree_lists_every_occurrence() {
    let mut graph = FloatGraph::default();
    let a = graph.add_op(Operation::Leaf(F32(1.5)));
    let b = graph.add_op(Operation::Leaf(F32(2.0)));
    let s = graph.add_op(Operation::Sum(a, b));
    let p = graph.add_op(Operation::Product(s, a));
    assert_eq!(
        graph.get_debug_tree(p),
        Some("x, y -> x * y\n  x, y -> x + y\n    1.5\n    2\n  1.5\n".to_string())
    );
    assert_eq!(graph.get_debug_tree(a), Some("1.5\n".to_string()));
}

#[test]
fn debug_tree_of_custom_node() {
    let mut graph = FloatGraph::new();
    let a = graph.add_op(Operation::Leaf(F32(1.0)));
    let b = graph.add_op(Operation::Leaf(F32(2.0)));
    let c = graph.add_op(Operation::new_custom(MyOperation(a, b)));
    let q = graph.add_op(Operation::Div(c, b));
    assert_eq!(
        graph.get_debug_tree(q),
        Some("x, y -> x / y\n  x, y -> 10 * x + 3 * y\n    1\n    2\n  2\n".to_string())
    );
}

#[test]
fn operation_reports_children_and_label() {
    let a = dag_experiment::try_make_id(4).unwrap();
    let b = dag_experiment::try_make_id(9).unwrap();
    let op: Operation<F32, MyOperation> = Operation::Diff(a, b);
    assert_eq!(op.debug_children(), vec![a, b]);
    assert_eq!(op.debug_string(), "x, y -> x - y".to_string());
    assert_eq!(op.compute(&vec![F32(5.0), F32(8.0)]), F32(-3.0));
    let leaf: Operation<F32, MyOperation> = Operation::Leaf(F32(0.25));
    assert!(leaf.debug_children().is_empty());
    assert_eq!(leaf.debug_string(), "0.25".to_string());
    assert!(dag_experiment::try_make_id(0).is_none());
}
