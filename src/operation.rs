//! Identifiers, the number abstraction, and the operations a graph holds.
use vstd::prelude::*;
use vstd::string::StringExecFns;

verus! {

/// Handle of a node in a [`crate::Graph`]: a positive integer issued by the
/// graph that holds the node.
#[derive(Clone, Copy, Debug, PartialEq, Eq, Hash, Structural)]
pub struct OperationId {
    id: usize,
}

impl View for OperationId {
    type V = usize;

    closed spec fn view(&self) -> usize {
        self.id
    }
}

impl OperationId {
    /// The identifier with the given positive number.
    pub(crate) fn from_index(id: usize) -> (r: OperationId)
        requires
            id >= 1,
        ensures
            r@ == id,
    {
        OperationId { id }
    }

    /// The integer this identifier wraps.
    pub fn index(&self) -> (r: usize)
        ensures
            r == self@,
    {
        self.id
    }
}

/// The identifier wrapping `id`, or `None` for `0`, which is never issued.
pub fn try_make_id(id: usize) -> (r: Option<OperationId>)
    ensures
        id == 0 ==> r.is_none(),
        id != 0 ==> r.is_some() && r.unwrap()@ == id,
{
    if id == 0 {
        None
    } else {
        Some(OperationId::from_index(id))
    }
}

/// A number type the built-in operations compute with.
///
/// Each operation is specified by a spec function, so that results of a whole
/// graph can be stated over them. An implementation that is not verified
/// keeps the default spec functions, which say nothing of its results.
pub trait Scalar: Sized + Copy {
    closed spec fn spec_sum(a: Self, b: Self) -> Self {
        arbitrary()
    }

    closed spec fn spec_diff(a: Self, b: Self) -> Self {
        arbitrary()
    }

    closed spec fn spec_product(a: Self, b: Self) -> Self {
        arbitrary()
    }

    closed spec fn spec_div(a: Self, b: Self) -> Self {
        arbitrary()
    }

    /// Text describing the value.
    closed spec fn spec_label(&self) -> Seq<char> {
        arbitrary()
    }

    fn sum(a: Self, b: Self) -> (r: Self)
        ensures
            r == Self::spec_sum(a, b),
    ;

    fn diff(a: Self, b: Self) -> (r: Self)
        ensures
            r == Self::spec_diff(a, b),
    ;

    fn product(a: Self, b: Self) -> (r: Self)
        ensures
            r == Self::spec_product(a, b),
    ;

    fn div(a: Self, b: Self) -> (r: Self)
        ensures
            r == Self::spec_div(a, b),
    ;

    fn debug_string(&self) -> (r: String)
        ensures
            r@ == self.spec_label(),
    ;
}

/// An operation that computes a value from the values of the nodes it depends
/// on.
///
/// Implementors list their dependencies in `debug_children`; the graph
/// resolves them in that order and hands their values to `compute`. As with
/// [`Scalar`], an implementation that is not verified keeps the default spec
/// functions, which say nothing of it.
pub trait Operable<V>: Sized {
    /// The identifiers this operation depends on, in order.
    closed spec fn spec_children(&self) -> Seq<OperationId> {
        arbitrary()
    }

    /// The value computed from the values of the children, in order.
    closed spec fn spec_compute(&self, child_values: Seq<V>) -> V {
        arbitrary()
    }

    /// A short description of the operation.
    closed spec fn spec_label(&self) -> Seq<char> {
        arbitrary()
    }

    fn compute(&self, child_values: &Vec<V>) -> (r: V)
        requires
            child_values@.len() == self.spec_children().len(),
        ensures
            r == self.spec_compute(child_values@),
    ;

    fn debug_string(&self) -> (r: String)
        ensures
            r@ == self.spec_label(),
    ;

    fn debug_children(&self) -> (r: Vec<OperationId>)
        ensures
            r@ == self.spec_children(),
    ;
}

/// A node's operation: a literal, one of the four arithmetic operations on two
/// earlier nodes, or a custom operation.
pub enum Operation<V, C> {
    Leaf(V),
    Sum(OperationId, OperationId),
    Diff(OperationId, OperationId),
    Product(OperationId, OperationId),
    Div(OperationId, OperationId),
    Custom(C),
}

impl<V, C> Operation<V, C> {
    /// Wraps a custom operation.
    pub fn new_custom(inner: C) -> (r: Self)
        ensures
            r == Operation::<V, C>::Custom(inner),
    {
        Operation::Custom(inner)
    }
}

impl<V: Scalar, C: Operable<V>> Operable<V> for Operation<V, C> {
    open spec fn spec_children(&self) -> Seq<OperationId> {
        match self {
            Operation::Leaf(_) => Seq::empty(),
            Operation::Sum(a, b) => seq![*a, *b],
            Operation::Diff(a, b) => seq![*a, *b],
            Operation::Product(a, b) => seq![*a, *b],
            Operation::Div(a, b) => seq![*a, *b],
            Operation::Custom(c) => c.spec_children(),
        }
    }

    open spec fn spec_compute(&self, child_values: Seq<V>) -> V {
        match self {
            Operation::Leaf(v) => *v,
            Operation::Sum(_, _) => V::spec_sum(child_values[0], child_values[1]),
            Operation::Diff(_, _) => V::spec_diff(child_values[0], child_values[1]),
            Operation::Product(_, _) => V::spec_product(child_values[0], child_values[1]),
            Operation::Div(_, _) => V::spec_div(child_values[0], child_values[1]),
            Operation::Custom(c) => c.spec_compute(child_values),
        }
    }

    open spec fn spec_label(&self) -> Seq<char> {
        match self {
            Operation::Leaf(v) => v.spec_label(),
            Operation::Sum(_, _) => "x, y -> x + y"@,
            Operation::Diff(_, _) => "x, y -> x - y"@,
            Operation::Product(_, _) => "x, y -> x * y"@,
            Operation::Div(_, _) => "x, y -> x / y"@,
            Operation::Custom(c) => c.spec_label(),
        }
    }

    fn compute(&self, child_values: &Vec<V>) -> (r: V) {
        match self {
            Operation::Leaf(v) => *v,
            Operation::Sum(_, _) => V::sum(child_values[0], child_values[1]),
            Operation::Diff(_, _) => V::diff(child_values[0], child_values[1]),
            Operation::Product(_, _) => V::product(child_values[0], child_values[1]),
            Operation::Div(_, _) => V::div(child_values[0], child_values[1]),
            Operation::Custom(c) => c.compute(child_values),
        }
    }

    fn debug_string(&self) -> (r: String) {
        match self {
            Operation::Leaf(v) => v.debug_string(),
            Operation::Sum(_, _) => String::from_str("x, y -> x + y"),
            Operation::Diff(_, _) => String::from_str("x, y -> x - y"),
            Operation::Product(_, _) => String::from_str("x, y -> x * y"),
            Operation::Div(_, _) => String::from_str("x, y -> x / y"),
            Operation::Custom(c) => c.debug_string(),
        }
    }

    fn debug_children(&self) -> (r: Vec<OperationId>) {
        match self {
            Operation::Leaf(_) => Vec::new(),
            Operation::Sum(a, b) => vec![*a, *b],
            Operation::Diff(a, b) => vec![*a, *b],
            Operation::Product(a, b) => vec![*a, *b],
            Operation::Div(a, b) => vec![*a, *b],
            Operation::Custom(c) => c.debug_children(),
        }
    }
}

} // verus!
