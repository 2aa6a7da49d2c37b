//! Nodes, the operations they perform, and what it means for an operation to
//! mention another node.

use crate::error::FoldError;
use vstd::prelude::*;
use vstd::std_specs::convert::FromSpecImpl;

verus! {

/// Stable handle of a node in the arena.
///
/// Two handles are the same node exactly when their `raw` values are equal.
#[derive(Clone, Copy, Debug, PartialEq, Eq, Hash, Structural)]
pub struct NodeIdentifier {
    pub raw: u64,
}

/// Wraps a `NodeIdentifier` to have type-safe autodiff.
#[derive(Clone, Copy, Debug, PartialEq, Eq)]
pub struct Parameter {
    pub node: NodeIdentifier,
}

impl From<Parameter> for NodeIdentifier {
    fn from(value: Parameter) -> (id: NodeIdentifier) {
        value.node
    }
}

impl FromSpecImpl<Parameter> for NodeIdentifier {
    open spec fn obeys_from_spec() -> bool {
        true
    }

    open spec fn from_spec(value: Parameter) -> NodeIdentifier {
        value.node
    }
}

/// Placeholder bound at execution time.
#[derive(Clone, Debug, PartialEq, Eq)]
pub struct ParameterBinding {
    pub name: String,
}

/// Payload of a constant node.
///
/// The elements are held in single precision, each as its IEEE-754 bit
/// pattern, flattened in row-major order; they only make sense together with
/// the owning node's `dimension`. `None` stands for a payload that has no
/// single-precision form.
#[derive(Clone, Debug, PartialEq, Eq)]
pub struct ConstantBinding {
    pub value: Option<Vec<u32>>,
}

/// `bits` is a single-precision zero. Both signed zeros compare equal to `0.0`.
pub open spec fn is_zero_bits(bits: u32) -> bool {
    bits == 0 || bits == 0x8000_0000
}

/// `bits` is the single-precision `1.0`; no other pattern compares equal to it.
pub open spec fn is_one_bits(bits: u32) -> bool {
    bits == 0x3f80_0000
}

/// Every element of `elements` is a single-precision zero.
pub open spec fn all_zero_bits(elements: Seq<u32>) -> bool {
    forall|i: int| 0 <= i < elements.len() ==> is_zero_bits(#[trigger] elements[i])
}

/// Every element of `elements` is the single-precision `1.0`.
pub open spec fn all_one_bits(elements: Seq<u32>) -> bool {
    forall|i: int| 0 <= i < elements.len() ==> is_one_bits(#[trigger] elements[i])
}

impl ConstantBinding {
    /// The payload has a single-precision form and every element of it equals
    /// `0.0` exactly. A payload without elements qualifies.
    pub open spec fn all_zero(self) -> bool {
        self.value matches Some(elements) && all_zero_bits(elements@)
    }

    /// The payload has a single-precision form and every element of it equals
    /// `1.0` exactly. A payload without elements qualifies.
    pub open spec fn all_one(self) -> bool {
        self.value matches Some(elements) && all_one_bits(elements@)
    }

    /// Compares every element with `0.0`. `None` when the payload has no
    /// single-precision form.
    pub fn is_zero(&self) -> (zero: Option<bool>)
        ensures
            zero is None <==> self.value is None,
            zero matches Some(all) ==> all == self.all_zero(),
    {
        match &self.value {
            None => None,
            Some(elements) => {
                let mut i: usize = 0;
                while i < elements.len()
                    invariant
                        self.value == Some(*elements),
                        i <= elements@.len(),
                        forall|j: int| 0 <= j < i ==> is_zero_bits(#[trigger] elements@[j]),
                    decreases elements@.len() - i,
                {
                    if elements[i] != 0 && elements[i] != 0x8000_0000 {
                        return Some(false);
                    }
                    i += 1;
                }
                Some(true)
            },
        }
    }

    /// Compares every element with `1.0`. `None` when the payload has no
    /// single-precision form.
    pub fn is_one(&self) -> (one: Option<bool>)
        ensures
            one is None <==> self.value is None,
            one matches Some(all) ==> all == self.all_one(),
    {
        match &self.value {
            None => None,
            Some(elements) => {
                let mut i: usize = 0;
                while i < elements.len()
                    invariant
                        self.value == Some(*elements),
                        i <= elements@.len(),
                        forall|j: int| 0 <= j < i ==> is_one_bits(#[trigger] elements@[j]),
                    decreases elements@.len() - i,
                {
                    if elements[i] != 0x3f80_0000 {
                        return Some(false);
                    }
                    i += 1;
                }
                Some(true)
            },
        }
    }
}

/// Element types a `TypeCast` can target.
#[derive(Clone, Copy, Debug, PartialEq, Eq, Hash, Structural)]
pub enum ElementType {
    Pred,
    S8,
    S16,
    S32,
    S64,
    U8,
    U16,
    U32,
    U64,
    F16,
    F32,
    Bf16,
    F64,
    F8E5M2,
    F8E4M3FN,
    F4E2M1FN,
    F8E8M0FNU,
    C64,
    C128,
}

/// What a node computes. Every `NodeIdentifier` held directly by a variant is an
/// operand slot, except the `Parameter` of a `Diff`.
#[derive(Clone, Debug, PartialEq, Eq)]
pub enum Operation {
    Constant(ConstantBinding),
    Parameter(ParameterBinding),
    Add(NodeIdentifier, NodeIdentifier),
    Sub(NodeIdentifier, NodeIdentifier),
    Mul(NodeIdentifier, NodeIdentifier),
    GreaterThan(NodeIdentifier, NodeIdentifier),
    GreaterThanEq(NodeIdentifier, NodeIdentifier),
    Equal(NodeIdentifier, NodeIdentifier),
    NotEqual(NodeIdentifier, NodeIdentifier),
    LessThan(NodeIdentifier, NodeIdentifier),
    LessThanEq(NodeIdentifier, NodeIdentifier),
    Neg(NodeIdentifier),
    StopGradient(NodeIdentifier),
    ZerosLike(NodeIdentifier),
    TypeCast(NodeIdentifier, ElementType),
    Select { pred: NodeIdentifier, on_true: NodeIdentifier, on_false: NodeIdentifier },
    ReduceMax { node: NodeIdentifier, dim: i64, keepdims: bool },
    SliceInDim { node: NodeIdentifier, start: i64, stop: i64, stride: i64, dim: i64 },
    Diff(NodeIdentifier, Parameter),
}

/// The kind of an operation, without its payload.
#[derive(Clone, Copy, Debug, PartialEq, Eq, Hash, Structural)]
pub enum OperationDiscriminants {
    Constant,
    Parameter,
    Add,
    Sub,
    Mul,
    GreaterThan,
    GreaterThanEq,
    Equal,
    NotEqual,
    LessThan,
    LessThanEq,
    Neg,
    StopGradient,
    ZerosLike,
    TypeCast,
    Select,
    ReduceMax,
    SliceInDim,
    Diff,
}

/// Where in the user's source a node was created.
#[derive(Clone, Debug, PartialEq, Eq)]
pub struct Callsite {
    pub file: String,
    pub line: u32,
    pub column: u32,
}

/// Dimensionality of a node's output.
#[derive(Clone, Debug, PartialEq, Eq)]
pub struct Dimension {
    pub sizes: Vec<u16>,
}

/// A node in the compute graph.
#[derive(Clone, Debug, PartialEq, Eq)]
pub struct Node {
    /// helps identify where in the user's source code this node originated
    pub callsite: Callsite,
    /// dimensionality of the output of this node
    pub dimension: Dimension,
    /// the operation this node performs
    pub operation: Operation,
}

/// `slot` after every mention of `from` has been redirected to `to`.
pub open spec fn redirect(slot: NodeIdentifier, from: NodeIdentifier, to: NodeIdentifier)
    -> NodeIdentifier {
    if slot == from {
        to
    } else {
        slot
    }
}

impl Operation {
    /// The kind of this operation.
    pub open spec fn kind(self) -> OperationDiscriminants {
        match self {
            Operation::Constant(_) => OperationDiscriminants::Constant,
            Operation::Parameter(_) => OperationDiscriminants::Parameter,
            Operation::Add(_, _) => OperationDiscriminants::Add,
            Operation::Sub(_, _) => OperationDiscriminants::Sub,
            Operation::Mul(_, _) => OperationDiscriminants::Mul,
            Operation::GreaterThan(_, _) => OperationDiscriminants::GreaterThan,
            Operation::GreaterThanEq(_, _) => OperationDiscriminants::GreaterThanEq,
            Operation::Equal(_, _) => OperationDiscriminants::Equal,
            Operation::NotEqual(_, _) => OperationDiscriminants::NotEqual,
            Operation::LessThan(_, _) => OperationDiscriminants::LessThan,
            Operation::LessThanEq(_, _) => OperationDiscriminants::LessThanEq,
            Operation::Neg(_) => OperationDiscriminants::Neg,
            Operation::StopGradient(_) => OperationDiscriminants::StopGradient,
            Operation::ZerosLike(_) => OperationDiscriminants::ZerosLike,
            Operation::TypeCast(_, _) => OperationDiscriminants::TypeCast,
            Operation::Select { .. } => OperationDiscriminants::Select,
            Operation::ReduceMax { .. } => OperationDiscriminants::ReduceMax,
            Operation::SliceInDim { .. } => OperationDiscriminants::SliceInDim,
            Operation::Diff(_, _) => OperationDiscriminants::Diff,
        }
    }

    /// The kind of this operation.
    pub fn discriminant(&self) -> (kind: OperationDiscriminants)
        ensures
            kind == self.kind(),
    {
        match self {
            Operation::Constant(_) => OperationDiscriminants::Constant,
            Operation::Parameter(_) => OperationDiscriminants::Parameter,
            Operation::Add(_, _) => OperationDiscriminants::Add,
            Operation::Sub(_, _) => OperationDiscriminants::Sub,
            Operation::Mul(_, _) => OperationDiscriminants::Mul,
            Operation::GreaterThan(_, _) => OperationDiscriminants::GreaterThan,
            Operation::GreaterThanEq(_, _) => OperationDiscriminants::GreaterThanEq,
            Operation::Equal(_, _) => OperationDiscriminants::Equal,
            Operation::NotEqual(_, _) => OperationDiscriminants::NotEqual,
            Operation::LessThan(_, _) => OperationDiscriminants::LessThan,
            Operation::LessThanEq(_, _) => OperationDiscriminants::LessThanEq,
            Operation::Neg(_) => OperationDiscriminants::Neg,
            Operation::StopGradient(_) => OperationDiscriminants::StopGradient,
            Operation::ZerosLike(_) => OperationDiscriminants::ZerosLike,
            Operation::TypeCast(_, _) => OperationDiscriminants::TypeCast,
            Operation::Select { .. } => OperationDiscriminants::Select,
            Operation::ReduceMax { .. } => OperationDiscriminants::ReduceMax,
            Operation::SliceInDim { .. } => OperationDiscriminants::SliceInDim,
            Operation::Diff(_, _) => OperationDiscriminants::Diff,
        }
    }

    /// `Constant` and `Parameter` have no operand slots.
    pub open spec fn is_leaf(self) -> bool {
        self is Constant || self is Parameter
    }

    /// Some operand slot of this operation holds `id`.
    pub open spec fn references(self, id: NodeIdentifier) -> bool {
        match self {
            Operation::Constant(_) | Operation::Parameter(_) => false,
            Operation::Add(a, b)
            | Operation::Sub(a, b)
            | Operation::Mul(a, b)
            | Operation::GreaterThan(a, b)
            | Operation::GreaterThanEq(a, b)
            | Operation::Equal(a, b)
            | Operation::NotEqual(a, b)
            | Operation::LessThan(a, b)
            | Operation::LessThanEq(a, b) => a == id || b == id,
            Operation::Neg(a)
            | Operation::StopGradient(a)
            | Operation::ZerosLike(a)
            | Operation::TypeCast(a, _)
            | Operation::Diff(a, _) => a == id,
            Operation::Select { pred, on_true, on_false } => pred == id || on_true == id
                || on_false == id,
            Operation::ReduceMax { node, .. } | Operation::SliceInDim { node, .. } => node == id,
        }
    }

    /// This operation with every operand slot that holds `from` now holding `to`.
    /// The kind and every field that is not an operand slot stay as they are.
    pub open spec fn substitute(self, from: NodeIdentifier, to: NodeIdentifier) -> Operation {
        match self {
            Operation::Constant(_) | Operation::Parameter(_) => self,
            Operation::Add(a, b) => Operation::Add(redirect(a, from, to), redirect(b, from, to)),
            Operation::Sub(a, b) => Operation::Sub(redirect(a, from, to), redirect(b, from, to)),
            Operation::Mul(a, b) => Operation::Mul(redirect(a, from, to), redirect(b, from, to)),
            Operation::GreaterThan(a, b) => Operation::GreaterThan(
                redirect(a, from, to),
                redirect(b, from, to),
            ),
            Operation::GreaterThanEq(a, b) => Operation::GreaterThanEq(
                redirect(a, from, to),
                redirect(b, from, to),
            ),
            Operation::Equal(a, b) => Operation::Equal(
                redirect(a, from, to),
                redirect(b, from, to),
            ),
            Operation::NotEqual(a, b) => Operation::NotEqual(
                redirect(a, from, to),
                redirect(b, from, to),
            ),
            Operation::LessThan(a, b) => Operation::LessThan(
                redirect(a, from, to),
                redirect(b, from, to),
            ),
            Operation::LessThanEq(a, b) => Operation::LessThanEq(
                redirect(a, from, to),
                redirect(b, from, to),
            ),
            Operation::Neg(a) => Operation::Neg(redirect(a, from, to)),
            Operation::StopGradient(a) => Operation::StopGradient(redirect(a, from, to)),
            Operation::ZerosLike(a) => Operation::ZerosLike(redirect(a, from, to)),
            Operation::TypeCast(a, ty) => Operation::TypeCast(redirect(a, from, to), ty),
            Operation::Select { pred, on_true, on_false } => Operation::Select {
                pred: redirect(pred, from, to),
                on_true: redirect(on_true, from, to),
                on_false: redirect(on_false, from, to),
            },
            Operation::ReduceMax { node, dim, keepdims } => Operation::ReduceMax {
                node: redirect(node, from, to),
                dim,
                keepdims,
            },
            Operation::SliceInDim { node, start, stop, stride, dim } => Operation::SliceInDim {
                node: redirect(node, from, to),
                start,
                stop,
                stride,
                dim,
            },
            Operation::Diff(a, wrt) => Operation::Diff(redirect(a, from, to), wrt),
        }
    }

    /// The operand slots in the order the variant declares them.
    pub open spec fn operands(self) -> Seq<NodeIdentifier> {
        match self {
            Operation::Constant(_) | Operation::Parameter(_) => seq![],
            Operation::Add(a, b)
            | Operation::Sub(a, b)
            | Operation::Mul(a, b)
            | Operation::GreaterThan(a, b)
            | Operation::GreaterThanEq(a, b)
            | Operation::Equal(a, b)
            | Operation::NotEqual(a, b)
            | Operation::LessThan(a, b)
            | Operation::LessThanEq(a, b) => seq![a, b],
            Operation::Neg(a)
            | Operation::StopGradient(a)
            | Operation::ZerosLike(a)
            | Operation::TypeCast(a, _)
            | Operation::Diff(a, _) => seq![a],
            Operation::Select { pred, on_true, on_false } => seq![pred, on_true, on_false],
            Operation::ReduceMax { node, .. } | Operation::SliceInDim { node, .. } => seq![node],
        }
    }

    /// An identifier is referenced exactly when it sits in one of the operand
    /// slots.
    pub proof fn lemma_operands_are_references(self, id: NodeIdentifier)
        ensures
            self.operands().contains(id) <==> self.references(id),
            self.operands().len() <= 3,
    {
        let slots = self.operands();
        if self.references(id) {
            let i = choose|i: int| 0 <= i < slots.len() && slots[i] == id;
            assert(0 <= i < slots.len() && slots[i] == id) by {
                if slots.len() > 0 && slots[0] == id {
                } else if slots.len() > 1 && slots[1] == id {
                } else if slots.len() > 2 && slots[2] == id {
                }
            }
        }
    }

    /// After a substitution an operation references `id` exactly when it did
    /// so before and `id` is not the node removed, or `id` is the replacement
    /// and the operation referenced the node removed.
    pub proof fn lemma_substitute_references(
        self,
        from: NodeIdentifier,
        to: NodeIdentifier,
        id: NodeIdentifier,
    )
        ensures
            self.substitute(from, to).references(id) <==> (id != from && self.references(id)) || (
            id == to && self.references(from)),
    {
    }

    /// Substitution leaves alone a leaf and an operation that does not
    /// reference the node removed, substituting a node for itself changes
    /// nothing, and no substitution changes the kind of an operation.
    pub proof fn lemma_substitute_identity(self, from: NodeIdentifier, to: NodeIdentifier)
        ensures
            !self.references(from) ==> self.substitute(from, to) == self,
            self.substitute(from, from) == self,
            self.substitute(from, to).is_leaf() == self.is_leaf(),
            self.substitute(from, to).kind() == self.kind(),
            self.is_leaf() ==> self.substitute(from, to) == self,
    {
    }

    /// The operand slots, in declaration order.
    pub fn operand_list(&self) -> (slots: Vec<NodeIdentifier>)
        ensures
            slots@ == self.operands(),
    {
        let mut slots: Vec<NodeIdentifier> = Vec::new();
        match self {
            Operation::Constant(_) | Operation::Parameter(_) => {},
            Operation::Add(a, b)
            | Operation::Sub(a, b)
            | Operation::Mul(a, b)
            | Operation::GreaterThan(a, b)
            | Operation::GreaterThanEq(a, b)
            | Operation::Equal(a, b)
            | Operation::NotEqual(a, b)
            | Operation::LessThan(a, b)
            | Operation::LessThanEq(a, b) => {
                slots.push(*a);
                slots.push(*b);
            },
            Operation::Neg(a)
            | Operation::StopGradient(a)
            | Operation::ZerosLike(a)
            | Operation::TypeCast(a, _)
            | Operation::Diff(a, _) => {
                slots.push(*a);
            },
            Operation::Select { pred, on_true, on_false } => {
                slots.push(*pred);
                slots.push(*on_true);
                slots.push(*on_false);
            },
            Operation::ReduceMax { node, .. } | Operation::SliceInDim { node, .. } => {
                slots.push(*node);
            },
        }
        slots
    }

    /// The operation with every operand slot that holds `from` redirected to
    /// `to`, or `None` when no slot holds `from`.
    pub fn rewritten(&self, from: NodeIdentifier, to: NodeIdentifier) -> (rewritten: Option<
        Operation,
    >)
        ensures
            rewritten is Some <==> self.references(from),
            rewritten matches Some(operation) ==> operation == self.substitute(from, to),
    {
        match self {
            Operation::Constant(_) | Operation::Parameter(_) => None,
            Operation::Add(a, b) => if *a == from || *b == from {
                Some(Operation::Add(retarget(*a, from, to), retarget(*b, from, to)))
            } else {
                None
            },
            Operation::Sub(a, b) => if *a == from || *b == from {
                Some(Operation::Sub(retarget(*a, from, to), retarget(*b, from, to)))
            } else {
                None
            },
            Operation::Mul(a, b) => if *a == from || *b == from {
                Some(Operation::Mul(retarget(*a, from, to), retarget(*b, from, to)))
            } else {
                None
            },
            Operation::GreaterThan(a, b) => if *a == from || *b == from {
                Some(Operation::GreaterThan(retarget(*a, from, to), retarget(*b, from, to)))
            } else {
                None
            },
            Operation::GreaterThanEq(a, b) => if *a == from || *b == from {
                Some(Operation::GreaterThanEq(retarget(*a, from, to), retarget(*b, from, to)))
            } else {
                None
            },
            Operation::Equal(a, b) => if *a == from || *b == from {
                Some(Operation::Equal(retarget(*a, from, to), retarget(*b, from, to)))
            } else {
                None
            },
            Operation::NotEqual(a, b) => if *a == from || *b == from {
                Some(Operation::NotEqual(retarget(*a, from, to), retarget(*b, from, to)))
            } else {
                None
            },
            Operation::LessThan(a, b) => if *a == from || *b == from {
                Some(Operation::LessThan(retarget(*a, from, to), retarget(*b, from, to)))
            } else {
                None
            },
            Operation::LessThanEq(a, b) => if *a == from || *b == from {
                Some(Operation::LessThanEq(retarget(*a, from, to), retarget(*b, from, to)))
            } else {
                None
            },
            Operation::Neg(a) => if *a == from {
                Some(Operation::Neg(to))
            } else {
                None
            },
            Operation::StopGradient(a) => if *a == from {
                Some(Operation::StopGradient(to))
            } else {
                None
            },
            Operation::ZerosLike(a) => if *a == from {
                Some(Operation::ZerosLike(to))
            } else {
                None
            },
            Operation::TypeCast(a, ty) => if *a == from {
                Some(Operation::TypeCast(to, *ty))
            } else {
                None
            },
            Operation::Select { pred, on_true, on_false } => if *pred == from || *on_true == from
                || *on_false == from {
                Some(
                    Operation::Select {
                        pred: retarget(*pred, from, to),
                        on_true: retarget(*on_true, from, to),
                        on_false: retarget(*on_false, from, to),
                    },
                )
            } else {
                None
            },
            Operation::ReduceMax { node, dim, keepdims } => if *node == from {
                Some(Operation::ReduceMax { node: to, dim: *dim, keepdims: *keepdims })
            } else {
                None
            },
            Operation::SliceInDim { node, start, stop, stride, dim } => if *node == from {
                Some(
                    Operation::SliceInDim {
                        node: to,
                        start: *start,
                        stop: *stop,
                        stride: *stride,
                        dim: *dim,
                    },
                )
            } else {
                None
            },
            Operation::Diff(a, wrt) => if *a == from {
                Some(Operation::Diff(to, *wrt))
            } else {
                None
            },
        }
    }
}

/// `to` where `slot` is `from`, else `slot`.
fn retarget(slot: NodeIdentifier, from: NodeIdentifier, to: NodeIdentifier) -> (slot_after:
    NodeIdentifier)
    ensures
        slot_after == redirect(slot, from, to),
{
    if slot == from {
        to
    } else {
        slot
    }
}

impl Node {
    /// What comparing this node with zero gives: `false` for a node that is no
    /// constant, a failure for a constant without single-precision form.
    pub open spec fn zero_test(self) -> Result<bool, FoldError> {
        match self.operation {
            Operation::Constant(binding) => if binding.value is None {
                Err(FoldError::NumericConversion)
            } else {
                Ok(binding.all_zero())
            },
            _ => Ok(false),
        }
    }

    /// What comparing this node with one gives: `false` for a node that is no
    /// constant, a failure for a constant without single-precision form.
    pub open spec fn one_test(self) -> Result<bool, FoldError> {
        match self.operation {
            Operation::Constant(binding) => if binding.value is None {
                Err(FoldError::NumericConversion)
            } else {
                Ok(binding.all_one())
            },
            _ => Ok(false),
        }
    }

    /// This node is a constant with every element exactly `0.0`.
    pub open spec fn is_all_zero(self) -> bool {
        self.operation matches Operation::Constant(binding) && binding.all_zero()
    }

    /// This node is a constant with every element exactly `1.0`.
    pub open spec fn is_all_one(self) -> bool {
        self.operation matches Operation::Constant(binding) && binding.all_one()
    }

    /// This node is a constant without single-precision form.
    pub open spec fn is_malformed(self) -> bool {
        self.operation matches Operation::Constant(binding) && binding.value is None
    }

    /// The payload, when this node is a constant.
    pub fn is_const(&self) -> (binding: Option<&ConstantBinding>)
        ensures
            binding is Some <==> self.operation is Constant,
            binding matches Some(payload) ==> self.operation == Operation::Constant(*payload),
    {
        match &self.operation {
            Operation::Constant(binding) => Some(binding),
            _ => None,
        }
    }

    /// Whether this node is a constant whose every element is exactly `0.0`.
    pub fn is_zero(&self) -> (zero: Result<bool, FoldError>)
        ensures
            zero == self.zero_test(),
    {
        match self.is_const() {
            None => Ok(false),
            Some(binding) => match binding.is_zero() {
                None => Err(FoldError::NumericConversion),
                Some(all) => Ok(all),
            },
        }
    }

    /// Whether this node is a constant whose every element is exactly `1.0`.
    pub fn is_one(&self) -> (one: Result<bool, FoldError>)
        ensures
            one == self.one_test(),
    {
        match self.is_const() {
            None => Ok(false),
            Some(binding) => match binding.is_one() {
                None => Err(FoldError::NumericConversion),
                Some(all) => Ok(all),
            },
        }
    }
}

} // verus!
