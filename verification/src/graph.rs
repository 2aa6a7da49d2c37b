//! The graph as a mathematical object: a map from identifiers to nodes, and the
//! notions the contracts of this crate are written in.

use crate::arena::key_shaped;
use crate::operation::{Node, NodeIdentifier, Operation};
use vstd::prelude::*;

verus! {

/// The nodes of a graph, each under its identifier.
pub type Graph = Map<NodeIdentifier, Node>;

/// The nodes of `graph` that hold `id` in an operand slot.
pub open spec fn dependents(graph: Graph, id: NodeIdentifier) -> Set<NodeIdentifier> {
    Set::new(
        |user: NodeIdentifier| graph.dom().contains(user) && graph[user].operation.references(id),
    )
}

/// Some node of `graph` holds `id` in an operand slot.
pub open spec fn is_referenced(graph: Graph, id: NodeIdentifier) -> bool {
    exists|user: NodeIdentifier| #[trigger] dependents(graph, id).contains(user)
}

/// Every operand slot of `operation` names a node of `graph`.
pub open spec fn operands_present(graph: Graph, operation: Operation) -> bool {
    forall|id: NodeIdentifier| #[trigger] operation.references(id) ==> graph.dom().contains(id)
}

/// What an arena can hold: finitely many nodes, under identifiers that are slot
/// map keys, none of them with an operand slot that names a missing node.
pub open spec fn well_formed(graph: Graph) -> bool {
    &&& graph.dom().finite()
    &&& forall|id: NodeIdentifier| #[trigger] graph.dom().contains(id) ==> key_shaped(id)
    &&& forall|user: NodeIdentifier, id: NodeIdentifier|
        graph.dom().contains(user) && #[trigger] graph[user].operation.references(id)
            ==> graph.dom().contains(id)
}

/// `node` with `operation` in place of its own; provenance and shape stay.
pub open spec fn with_operation(node: Node, operation: Operation) -> Node {
    Node { callsite: node.callsite, dimension: node.dimension, operation }
}

/// `graph` after every operand slot that held `from` has been made to hold `to`.
/// No node leaves or enters, and no node changes its kind.
pub open spec fn substituted(graph: Graph, from: NodeIdentifier, to: NodeIdentifier) -> Graph {
    Map::new(
        |id: NodeIdentifier| graph.dom().contains(id),
        |id: NodeIdentifier| with_operation(graph[id], graph[id].operation.substitute(from, to)),
    )
}

/// `after` has the nodes of `before`, each with its provenance, its shape and
/// its kind, and each leaf exactly as it was.
pub open spec fn same_nodes(before: Graph, after: Graph) -> bool {
    &&& after.dom() == before.dom()
    &&& forall|id: NodeIdentifier| #[trigger]
        before.dom().contains(id) ==> {
            &&& after[id].callsite == before[id].callsite
            &&& after[id].dimension == before[id].dimension
            &&& after[id].operation.kind() == before[id].operation.kind()
            &&& before[id].operation.is_leaf() ==> after[id] == before[id]
        }
}

/// Substitution touches operand slots only: every node keeps its identifier,
/// provenance, shape and kind, and leaves stay exactly as they are.
pub proof fn lemma_substituted_same_nodes(graph: Graph, from: NodeIdentifier, to: NodeIdentifier)
    ensures
        same_nodes(graph, substituted(graph, from, to)),
{
    let after = substituted(graph, from, to);
    assert(after.dom() =~= graph.dom());
    assert forall|id: NodeIdentifier| #[trigger] graph.dom().contains(id) implies {
        &&& after[id].operation.kind() == graph[id].operation.kind()
        &&& graph[id].operation.is_leaf() ==> after[id] == graph[id]
    } by {
        graph[id].operation.lemma_substitute_identity(from, to);
    }
}

/// `rank` orders the graph: it gives every operand a smaller number than it
/// gives each of the operand's users.
pub open spec fn ranked(graph: Graph, rank: Map<NodeIdentifier, nat>) -> bool {
    forall|user: NodeIdentifier, id: NodeIdentifier|
        graph.dom().contains(user) && #[trigger] graph[user].operation.references(id) ==> rank[id]
            < rank[user]
}

/// No node reaches itself through operand slots: some ranking orders the graph.
pub open spec fn acyclic(graph: Graph) -> bool {
    exists|rank: Map<NodeIdentifier, nat>| ranked(graph, rank)
}

/// Substitution keeps a graph well formed when the replacement is one of its
/// nodes.
pub proof fn lemma_substituted_well_formed(graph: Graph, from: NodeIdentifier, to: NodeIdentifier)
    requires
        well_formed(graph),
        graph.dom().contains(to),
    ensures
        well_formed(substituted(graph, from, to)),
        substituted(graph, from, to).dom() == graph.dom(),
{
    let after = substituted(graph, from, to);
    assert(after.dom() =~= graph.dom());
    assert forall|user: NodeIdentifier, id: NodeIdentifier|
        after.dom().contains(user) && #[trigger] after[user].operation.references(
            id,
        ) implies after.dom().contains(id) by {
        graph[user].operation.lemma_substitute_references(from, to, id);
    }
}

/// What substitution does to the users of each node: the node removed keeps
/// none, the replacement gains those of the node removed, and the users of
/// every other node stay the same.
pub proof fn lemma_substituted_dependents(
    graph: Graph,
    from: NodeIdentifier,
    to: NodeIdentifier,
    id: NodeIdentifier,
)
    requires
        from != to,
    ensures
        dependents(substituted(graph, from, to), from) == Set::<NodeIdentifier>::empty(),
        !is_referenced(substituted(graph, from, to), from),
        dependents(substituted(graph, from, to), to) == dependents(graph, to).union(
            dependents(graph, from),
        ),
        id != from && id != to ==> dependents(substituted(graph, from, to), id) == dependents(
            graph,
            id,
        ),
{
    let after = substituted(graph, from, to);
    assert forall|user: NodeIdentifier, other: NodeIdentifier|
        graph.dom().contains(user) implies (#[trigger] after[user].operation.references(other) <==> (
        other != from && graph[user].operation.references(other)) || (other == to
            && graph[user].operation.references(from))) by {
        graph[user].operation.lemma_substitute_references(from, to, other);
    }
}

/// Replacing a node by one of its own operands keeps every ranking of the
/// graph, and with it the absence of cycles.
pub proof fn lemma_substituted_ranked(
    graph: Graph,
    from: NodeIdentifier,
    to: NodeIdentifier,
    rank: Map<NodeIdentifier, nat>,
)
    requires
        ranked(graph, rank),
        graph.dom().contains(from),
        graph[from].operation.references(to),
    ensures
        ranked(substituted(graph, from, to), rank),
{
    let after = substituted(graph, from, to);
    assert forall|user: NodeIdentifier, id: NodeIdentifier|
        after.dom().contains(user) && #[trigger] after[user].operation.references(
            id,
        ) implies rank[id] < rank[user] by {
        graph[user].operation.lemma_substitute_references(from, to, id);
    }
}

/// In a graph without cycles no node is its own operand.
pub proof fn lemma_acyclic_no_self_reference(graph: Graph, id: NodeIdentifier)
    requires
        acyclic(graph),
        graph.dom().contains(id),
    ensures
        !graph[id].operation.references(id),
{
    let rank = choose|rank: Map<NodeIdentifier, nat>| ranked(graph, rank);
    assert(graph[id].operation.references(id) ==> rank[id] < rank[id]);
}

/// A number above the rank of every operand of `operation`.
pub open spec fn rank_above(operation: Operation, rank: Map<NodeIdentifier, nat>) -> nat {
    let slots = operation.operands();
    1 + if slots.len() > 0 {
        rank[slots[0]]
    } else {
        0
    } + if slots.len() > 1 {
        rank[slots[1]]
    } else {
        0
    } + if slots.len() > 2 {
        rank[slots[2]]
    } else {
        0
    }
}

/// Adding a node whose operands are all nodes already there, under an
/// identifier not yet in use, cannot close a cycle.
pub proof fn lemma_insert_acyclic(graph: Graph, id: NodeIdentifier, node: Node)
    requires
        well_formed(graph),
        acyclic(graph),
        !graph.dom().contains(id),
        operands_present(graph, node.operation),
    ensures
        acyclic(graph.insert(id, node)),
{
    let rank = choose|rank: Map<NodeIdentifier, nat>| ranked(graph, rank);
    let above = rank_above(node.operation, rank);
    let extended = rank.insert(id, above);
    let after = graph.insert(id, node);
    assert forall|user: NodeIdentifier, operand: NodeIdentifier|
        after.dom().contains(user) && #[trigger] after[user].operation.references(
            operand,
        ) implies extended[operand] < extended[user] by {
        if user == id {
            node.operation.lemma_operands_are_references(operand);
        }
    }
    assert(ranked(after, extended));
}

} // verus!
