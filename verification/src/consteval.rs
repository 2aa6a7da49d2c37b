//! Constant folding: a bounded worklist pass that redirects the users of
//! `0 + x`, `x - 0`, `0 * x`, `1 * x` and their mirror images to the operand
//! that already holds the result.

use crate::context::Context;
use crate::error::FoldError;
use crate::graph::{
    acyclic, dependents, is_referenced, lemma_substituted_dependents, lemma_substituted_ranked,
    lemma_substituted_same_nodes, lemma_substituted_well_formed, ranked, same_nodes, substituted,
    well_formed, Graph,
};
use crate::operation::{ConstantBinding, NodeIdentifier, Operation};
use std::collections::HashSet;
use vstd::prelude::*;

verus! {

/// A folding pass between two steps.
pub struct FoldState {
    /// The graph as rewritten so far.
    pub graph: Graph,
    /// The worklist; its last element is taken next.
    pub to_visit: Seq<NodeIdentifier>,
    /// The nodes the pass has dealt with; none of them is dealt with again.
    pub visited: Set<NodeIdentifier>,
    /// What has been charged against the budget.
    pub modifications: nat,
    /// How many substitutions have been made.
    pub substitutions: nat,
}

/// How a folding pass ends.
pub struct FoldOutcome {
    /// The graph the pass leaves behind. After a failure it holds the
    /// substitutions made before the failing step.
    pub graph: Graph,
    /// Whether a substitution was made, or why the pass stopped.
    pub result: Result<bool, FoldError>,
    /// How many substitutions were made.
    pub substitutions: nat,
}

/// The two operands, when the pass looks into `operation`: sums, differences,
/// products and the comparisons `>`, `>=`, `<`, `<=`, `==`.
pub open spec fn explorable(operation: Operation) -> Option<(NodeIdentifier, NodeIdentifier)> {
    match operation {
        Operation::Add(a, b)
        | Operation::Sub(a, b)
        | Operation::Mul(a, b)
        | Operation::GreaterThan(a, b)
        | Operation::GreaterThanEq(a, b)
        | Operation::LessThan(a, b)
        | Operation::LessThanEq(a, b)
        | Operation::Equal(a, b) => Some((a, b)),
        _ => None,
    }
}

/// The pass charges one unit for visiting a sum, a difference or a product.
pub open spec fn is_arithmetic(operation: Operation) -> bool {
    operation is Add || operation is Sub || operation is Mul
}

/// The node that takes the place of node `id` in every operand slot, if the
/// pass folds `id`.
///
/// A sum or difference `a ∘ b` folds to `b` when `a` is all zero, else to `a`
/// when `b` is all zero. A product `a * b` folds to `a` when `a` is all zero,
/// else to `b` when `a` is all one, else to `b` when `b` is all zero, else to
/// `a` when `b` is all one. Nothing else folds. A constant without
/// single-precision form fails the comparison that reaches it.
pub open spec fn fold_target(graph: Graph, id: NodeIdentifier) -> Result<
    Option<NodeIdentifier>,
    FoldError,
> {
    match graph[id].operation {
        Operation::Add(a, b) | Operation::Sub(a, b) => match graph[a].zero_test() {
            Err(e) => Err(e),
            Ok(true) => Ok(Some(b)),
            Ok(false) => match graph[b].zero_test() {
                Err(e) => Err(e),
                Ok(true) => Ok(Some(a)),
                Ok(false) => Ok(None),
            },
        },
        Operation::Mul(a, b) => match graph[a].zero_test() {
            Err(e) => Err(e),
            Ok(true) => Ok(Some(a)),
            Ok(false) => if graph[a].one_test() == Ok::<bool, FoldError>(true) {
                Ok(Some(b))
            } else {
                match graph[b].zero_test() {
                    Err(e) => Err(e),
                    Ok(true) => Ok(Some(b)),
                    Ok(false) => if graph[b].one_test() == Ok::<bool, FoldError>(true) {
                        Ok(Some(a))
                    } else {
                        Ok(None)
                    },
                }
            },
        },
        _ => Ok(None),
    }
}

/// The operands of node `id` that the pass puts on the worklist, in the order
/// it puts them there: those of an explorable operation that are no constants.
pub open spec fn explored(graph: Graph, id: NodeIdentifier) -> Seq<NodeIdentifier> {
    match explorable(graph[id].operation) {
        Some((a, b)) => {
            let first = if graph[a].operation is Constant {
                Seq::<NodeIdentifier>::empty()
            } else {
                seq![a]
            };
            if graph[b].operation is Constant {
                first
            } else {
                first.push(b)
            }
        },
        None => Seq::<NodeIdentifier>::empty(),
    }
}

/// What visiting node `id` costs: one unit for a sum, difference or product,
/// and one more when it is folded.
pub open spec fn charge(graph: Graph, id: NodeIdentifier, target: Option<NodeIdentifier>) -> nat {
    if is_arithmetic(graph[id].operation) {
        if target is Some {
            2
        } else {
            1
        }
    } else {
        0
    }
}

/// One step of the pass on a state whose worklist is not empty.
///
/// The last identifier leaves the worklist. It is skipped when it was visited
/// before or the budget `limit` is used up. Otherwise it must name a node; the
/// node is folded if `fold_target` says so, charged for, marked as visited, and
/// its explored operands join the worklist.
pub open spec fn fold_step(state: FoldState, limit: nat) -> Result<FoldState, FoldError>
    recommends
        state.to_visit.len() > 0,
{
    let id = state.to_visit.last();
    let rest = state.to_visit.drop_last();
    if state.visited.contains(id) || state.modifications >= limit {
        Ok(FoldState { to_visit: rest, ..state })
    } else if !state.graph.dom().contains(id) {
        Err(FoldError::DanglingReference)
    } else {
        match fold_target(state.graph, id) {
            Err(e) => Err(e),
            Ok(target) => Ok(
                FoldState {
                    graph: match target {
                        Some(replacement) => substituted(state.graph, id, replacement),
                        None => state.graph,
                    },
                    to_visit: rest + explored(state.graph, id),
                    visited: state.visited.insert(id),
                    modifications: state.modifications + charge(state.graph, id, target),
                    substitutions: state.substitutions + if target is Some {
                        1nat
                    } else {
                        0nat
                    },
                },
            ),
        }
    }
}

/// The nodes the pass has not dealt with yet.
pub open spec fn unvisited(state: FoldState) -> Set<NodeIdentifier> {
    state.graph.dom().difference(state.visited)
}

/// Every step either visits a node for the first time or shortens the
/// worklist, and none changes which nodes there are.
pub proof fn lemma_step_progress(state: FoldState, limit: nat)
    requires
        state.graph.dom().finite(),
        state.to_visit.len() > 0,
        fold_step(state, limit) is Ok,
    ensures
        ({
            let next = fold_step(state, limit)->Ok_0;
            &&& next.graph.dom() == state.graph.dom()
            &&& unvisited(next).len() < unvisited(state).len() || (unvisited(next).len()
                == unvisited(state).len() && next.to_visit.len() < state.to_visit.len())
        }),
{
    let next = fold_step(state, limit)->Ok_0;
    let id = state.to_visit.last();
    if state.visited.contains(id) || state.modifications >= limit {
        assert(unvisited(next) =~= unvisited(state));
    } else {
        assert(unvisited(next) =~= unvisited(state).remove(id));
    }
}

/// The pass run to its end from `state`: steps are taken until the worklist is
/// empty or a step fails.
pub open spec fn fold_run(state: FoldState, limit: nat) -> FoldOutcome
    decreases unvisited(state).len(), state.to_visit.len(),
    when state.graph.dom().finite()
    via fold_run_terminates
{
    if state.to_visit.len() == 0 {
        FoldOutcome {
            graph: state.graph,
            result: Ok(state.substitutions > 0),
            substitutions: state.substitutions,
        }
    } else {
        match fold_step(state, limit) {
            Err(e) => FoldOutcome {
                graph: state.graph,
                result: Err(e),
                substitutions: state.substitutions,
            },
            Ok(next) => fold_run(next, limit),
        }
    }
}

#[via_fn]
proof fn fold_run_terminates(state: FoldState, limit: nat) {
    if state.to_visit.len() > 0 && fold_step(state, limit) is Ok {
        lemma_step_progress(state, limit);
    }
}

/// The state a pass starts in: only `root` on the worklist, nothing visited,
/// nothing charged.
pub open spec fn fold_start(graph: Graph, root: NodeIdentifier) -> FoldState {
    FoldState { graph, to_visit: seq![root], visited: Set::empty(), modifications: 0, substitutions: 0 }
}

/// A whole pass over `graph` from `root` with budget `limit`. A budget of zero
/// does nothing, whatever `root` is.
pub open spec fn fold(graph: Graph, root: NodeIdentifier, limit: nat) -> FoldOutcome {
    if limit == 0 {
        FoldOutcome { graph, result: Ok(false), substitutions: 0 }
    } else {
        fold_run(fold_start(graph, root), limit)
    }
}

/// The substitution a step makes, as the node removed and its replacement.
pub open spec fn step_substitution(state: FoldState, limit: nat) -> Option<
    (NodeIdentifier, NodeIdentifier),
> {
    let id = state.to_visit.last();
    if state.visited.contains(id) || state.modifications >= limit || !state.graph.dom().contains(
        id,
    ) {
        None
    } else {
        match fold_target(state.graph, id) {
            Ok(Some(replacement)) => Some((id, replacement)),
            _ => None,
        }
    }
}

/// No sum, difference or product of `graph` has an operand that makes it
/// redundant: a pass finds nothing to fold.
pub open spec fn fully_folded(graph: Graph) -> bool {
    forall|id: NodeIdentifier|
        graph.dom().contains(id) ==> !(#[trigger] fold_target(graph, id) matches Ok(Some(_)))
}

/// What the budget still allows.
pub open spec fn budget_left(state: FoldState, limit: nat) -> nat {
    if state.modifications < limit {
        (limit - state.modifications) as nat
    } else {
        0
    }
}

/// Only sums, differences and products are folded, and only to one of their
/// two operands.
pub proof fn lemma_fold_target_is_operand(graph: Graph, id: NodeIdentifier)
    ensures
        fold_target(graph, id) matches Ok(Some(replacement)) ==> is_arithmetic(graph[id].operation)
            && graph[id].operation.references(replacement),
{
}

/// A step either leaves the graph alone or replaces one node, in all its
/// users, by one of that node's operands; it makes the substitution only
/// while budget is left and charges two units for it.
pub proof fn lemma_step_substitution(state: FoldState, limit: nat)
    requires
        state.to_visit.len() > 0,
        fold_step(state, limit) is Ok,
    ensures
        ({
            let next = fold_step(state, limit)->Ok_0;
            match step_substitution(state, limit) {
                Some((from, to)) => {
                    &&& state.graph.dom().contains(from)
                    &&& state.graph[from].operation.references(to)
                    &&& next.graph == substituted(state.graph, from, to)
                    &&& next.substitutions == state.substitutions + 1
                    &&& state.modifications < limit
                    &&& next.modifications == state.modifications + 2
                },
                None => {
                    &&& next.graph == state.graph
                    &&& next.substitutions == state.substitutions
                    &&& next.modifications >= state.modifications
                },
            }
        }),
{
    lemma_fold_target_is_operand(state.graph, state.to_visit.last());
}

/// A step keeps the graph well formed and every node's provenance, shape and
/// kind.
pub proof fn lemma_step_keeps_nodes(state: FoldState, limit: nat)
    requires
        well_formed(state.graph),
        state.to_visit.len() > 0,
        fold_step(state, limit) is Ok,
    ensures
        well_formed(fold_step(state, limit)->Ok_0.graph),
        same_nodes(state.graph, fold_step(state, limit)->Ok_0.graph),
{
    lemma_step_substitution(state, limit);
    match step_substitution(state, limit) {
        Some((from, to)) => {
            lemma_substituted_well_formed(state.graph, from, to);
            lemma_substituted_same_nodes(state.graph, from, to);
        },
        None => {},
    }
}

/// A pass never adds, removes or retypes a node: the graph it leaves behind is
/// well formed and holds the nodes it started with, each with its provenance,
/// shape and kind. Only operand slots change.
pub proof fn lemma_run_keeps_nodes(state: FoldState, limit: nat)
    requires
        well_formed(state.graph),
    ensures
        well_formed(fold_run(state, limit).graph),
        same_nodes(state.graph, fold_run(state, limit).graph),
    decreases unvisited(state).len(), state.to_visit.len(),
{
    if state.to_visit.len() > 0 {
        if let Ok(next) = fold_step(state, limit) {
            lemma_step_keeps_nodes(state, limit);
            lemma_step_progress(state, limit);
            lemma_run_keeps_nodes(next, limit);
        }
    }
}

/// Every ranking of the graph a pass starts from orders the graph it ends
/// with.
pub proof fn lemma_run_keeps_ranking(state: FoldState, limit: nat, rank: Map<NodeIdentifier, nat>)
    requires
        well_formed(state.graph),
        ranked(state.graph, rank),
    ensures
        ranked(fold_run(state, limit).graph, rank),
    decreases unvisited(state).len(), state.to_visit.len(),
{
    if state.to_visit.len() > 0 {
        if let Ok(next) = fold_step(state, limit) {
            lemma_step_keeps_nodes(state, limit);
            lemma_step_progress(state, limit);
            lemma_step_substitution(state, limit);
            if let Some((from, to)) = step_substitution(state, limit) {
                lemma_substituted_ranked(state.graph, from, to, rank);
            }
            lemma_run_keeps_ranking(next, limit, rank);
        }
    }
}

/// From any state on, a pass makes no more substitutions than the budget
/// still allows.
pub proof fn lemma_run_respects_budget(state: FoldState, limit: nat)
    requires
        well_formed(state.graph),
    ensures
        fold_run(state, limit).substitutions <= state.substitutions + budget_left(state, limit),
    decreases unvisited(state).len(), state.to_visit.len(),
{
    if state.to_visit.len() > 0 {
        if let Ok(next) = fold_step(state, limit) {
            lemma_step_keeps_nodes(state, limit);
            lemma_step_progress(state, limit);
            lemma_step_substitution(state, limit);
            lemma_run_respects_budget(next, limit);
        }
    }
}

/// A node that nothing references when a pass is under way is referenced by
/// nothing when the pass ends.
pub proof fn lemma_run_keeps_unreferenced(state: FoldState, limit: nat, id: NodeIdentifier)
    requires
        well_formed(state.graph),
        !is_referenced(state.graph, id),
    ensures
        !is_referenced(fold_run(state, limit).graph, id),
    decreases unvisited(state).len(), state.to_visit.len(),
{
    if state.to_visit.len() > 0 {
        if let Ok(next) = fold_step(state, limit) {
            lemma_step_keeps_nodes(state, limit);
            lemma_step_progress(state, limit);
            lemma_step_substitution(state, limit);
            if let Some((from, to)) = step_substitution(state, limit) {
                assert(dependents(state.graph, to).contains(from));
                assert forall|user: NodeIdentifier|
                    !(#[trigger] dependents(next.graph, id).contains(user)) by {
                    if state.graph.dom().contains(user) {
                        state.graph[user].operation.lemma_substitute_references(from, to, id);
                        assert(!dependents(state.graph, id).contains(user));
                    }
                }
            }
            lemma_run_keeps_unreferenced(next, limit, id);
        }
    }
}

/// On a graph in which nothing is left to fold, a pass from any state makes no
/// substitution and leaves the graph as it is.
pub proof fn lemma_run_on_fully_folded(state: FoldState, limit: nat)
    requires
        well_formed(state.graph),
        fully_folded(state.graph),
    ensures
        fold_run(state, limit).graph == state.graph,
        fold_run(state, limit).substitutions == state.substitutions,
    decreases unvisited(state).len(), state.to_visit.len(),
{
    if state.to_visit.len() > 0 {
        if let Ok(next) = fold_step(state, limit) {
            lemma_step_progress(state, limit);
            lemma_step_substitution(state, limit);
            lemma_run_on_fully_folded(next, limit);
        }
    }
}

/// A pass keeps the identifiers, the provenance, the shape and the kind of
/// every node, and leaves a well-formed graph.
pub proof fn lemma_fold_keeps_nodes(graph: Graph, root: NodeIdentifier, limit: nat)
    requires
        well_formed(graph),
    ensures
        well_formed(fold(graph, root, limit).graph),
        same_nodes(graph, fold(graph, root, limit).graph),
{
    if limit > 0 {
        lemma_run_keeps_nodes(fold_start(graph, root), limit);
    }
}

/// A pass with budget `limit` makes at most `limit` substitutions, however
/// many nodes could be folded. With a budget of zero it makes none, reports
/// `false` and leaves the graph untouched.
pub proof fn lemma_fold_respects_budget(graph: Graph, root: NodeIdentifier, limit: nat)
    requires
        well_formed(graph),
    ensures
        fold(graph, root, limit).substitutions <= limit,
        limit == 0 ==> fold(graph, root, limit).graph == graph && fold(graph, root, limit).result
            == Ok::<bool, FoldError>(false),
        fold(graph, root, limit).substitutions == 0 ==> fold(graph, root, limit).graph == graph,
{
    if limit > 0 {
        lemma_run_respects_budget(fold_start(graph, root), limit);
        lemma_run_counts_changes(fold_start(graph, root), limit);
    }
}

/// A pass that makes no substitution leaves the graph as it is, and a pass
/// that ends without failure reports `true` exactly when it made one.
pub proof fn lemma_run_counts_changes(state: FoldState, limit: nat)
    requires
        well_formed(state.graph),
    ensures
        fold_run(state, limit).substitutions >= state.substitutions,
        fold_run(state, limit).substitutions == state.substitutions ==> fold_run(state, limit).graph
            == state.graph,
        fold_run(state, limit).result matches Ok(changed) ==> changed == (fold_run(
            state,
            limit,
        ).substitutions > 0),
    decreases unvisited(state).len(), state.to_visit.len(),
{
    if state.to_visit.len() > 0 {
        if let Ok(next) = fold_step(state, limit) {
            lemma_step_keeps_nodes(state, limit);
            lemma_step_progress(state, limit);
            lemma_step_substitution(state, limit);
            lemma_run_counts_changes(next, limit);
        }
    }
}

/// A pass over a graph in which nothing is left to fold changes nothing and
/// does not report a change, whatever the root and the budget. So a second
/// pass right after one that folded everything is idle.
pub proof fn lemma_fold_idempotent(graph: Graph, root: NodeIdentifier, limit: nat)
    requires
        well_formed(graph),
        fully_folded(graph),
    ensures
        fold(graph, root, limit).graph == graph,
        fold(graph, root, limit).substitutions == 0,
        fold(graph, root, limit).result != Ok::<bool, FoldError>(true),
{
    if limit > 0 {
        lemma_run_on_fully_folded(fold_start(graph, root), limit);
        lemma_run_counts_changes(fold_start(graph, root), limit);
    }
}

/// A pass over a graph without cycles leaves a graph without cycles: every
/// ranking of the one orders the other. In particular no node of the result
/// is its own operand.
pub proof fn lemma_fold_keeps_acyclic(
    graph: Graph,
    root: NodeIdentifier,
    limit: nat,
    rank: Map<NodeIdentifier, nat>,
)
    requires
        well_formed(graph),
        ranked(graph, rank),
    ensures
        ranked(fold(graph, root, limit).graph, rank),
        forall|id: NodeIdentifier| #[trigger]
            fold(graph, root, limit).graph.dom().contains(id) ==> !fold(
                graph,
                root,
                limit,
            ).graph[id].operation.references(id),
{
    if limit > 0 {
        lemma_run_keeps_ranking(fold_start(graph, root), limit, rank);
    }
    let after = fold(graph, root, limit).graph;
    assert forall|id: NodeIdentifier| #[trigger]
        after.dom().contains(id) implies !after[id].operation.references(id) by {
        assert(after[id].operation.references(id) ==> rank[id] < rank[id]);
    }
}

/// The pass folds node `id` to `replacement`.
pub open spec fn folds_to(graph: Graph, id: NodeIdentifier, replacement: NodeIdentifier) -> bool {
    fold_target(graph, id) == Ok::<Option<NodeIdentifier>, FoldError>(Some(replacement))
}

/// The pass keeps node `id` as it is.
pub open spec fn is_kept(graph: Graph, id: NodeIdentifier) -> bool {
    fold_target(graph, id) == Ok::<Option<NodeIdentifier>, FoldError>(None)
}

/// A pass from a node that folds to `replacement`, with any budget above
/// zero, begins by redirecting every user of the node to `replacement`, the
/// very identifier the node held as operand, and ends with no node
/// referencing the folded node.
pub proof fn lemma_fold_redirects_users(
    graph: Graph,
    node: NodeIdentifier,
    replacement: NodeIdentifier,
    limit: nat,
)
    requires
        well_formed(graph),
        graph.dom().contains(node),
        folds_to(graph, node, replacement),
        replacement != node,
        limit > 0,
    ensures
        fold_step(fold_start(graph, node), limit) matches Ok(next) && next.graph == substituted(
            graph,
            node,
            replacement,
        ),
        forall|user: NodeIdentifier| #[trigger]
            dependents(graph, node).contains(user) ==> substituted(
                graph,
                node,
                replacement,
            )[user].operation.references(replacement),
        !is_referenced(substituted(graph, node, replacement), node),
        !is_referenced(fold(graph, node, limit).graph, node),
        fold(graph, node, limit).substitutions >= 1,
{
    let start = fold_start(graph, node);
    let next = fold_step(start, limit)->Ok_0;
    lemma_step_substitution(start, limit);
    lemma_step_keeps_nodes(start, limit);
    lemma_substituted_dependents(graph, node, replacement, replacement);
    assert forall|user: NodeIdentifier| #[trigger]
        dependents(graph, node).contains(user) implies substituted(
        graph,
        node,
        replacement,
    )[user].operation.references(replacement) by {
        graph[user].operation.lemma_substitute_references(node, replacement, replacement);
    }
    lemma_run_keeps_unreferenced(next, limit, node);
    lemma_run_counts_changes(next, limit);
}

/// Identity elimination: a sum or difference whose first operand is an
/// all-zero constant folds to its second operand; one whose second operand
/// alone is all zero folds to its first.
pub proof fn lemma_zero_plus_folds(
    graph: Graph,
    node: NodeIdentifier,
    a: NodeIdentifier,
    b: NodeIdentifier,
)
    requires
        graph[node].operation == Operation::Add(a, b) || graph[node].operation == Operation::Sub(
            a,
            b,
        ),
    ensures
        graph[a].is_all_zero() ==> folds_to(graph, node, b),
        !graph[a].is_all_zero() && !graph[a].is_malformed() && graph[b].is_all_zero() ==> folds_to(
            graph,
            node,
            a,
        ),
{
}

/// Zero absorption: a product whose first operand is an all-zero constant
/// folds to that operand itself, not to a new zero.
pub proof fn lemma_zero_times_folds(
    graph: Graph,
    node: NodeIdentifier,
    a: NodeIdentifier,
    b: NodeIdentifier,
)
    requires
        graph[node].operation == Operation::Mul(a, b),
        graph[a].is_all_zero(),
    ensures
        folds_to(graph, node, a),
{
}

/// One elimination: a product whose first operand is a constant with every
/// element exactly one, and not every element zero, folds to its second
/// operand.
pub proof fn lemma_one_times_folds(
    graph: Graph,
    node: NodeIdentifier,
    a: NodeIdentifier,
    b: NodeIdentifier,
)
    requires
        graph[node].operation == Operation::Mul(a, b),
        graph[a].is_all_one(),
        !graph[a].is_all_zero(),
    ensures
        folds_to(graph, node, b),
{
}

/// The comparison with one is exact: a constant with an element whose bit
/// pattern is not that of `1.0` is not all one, however close the element
/// is. A product with such a first operand, not all zero either, is kept
/// unless its second operand is an all-zero or all-one constant.
pub proof fn lemma_one_is_exact(
    graph: Graph,
    node: NodeIdentifier,
    a: NodeIdentifier,
    b: NodeIdentifier,
    elements: Vec<u32>,
    i: int,
)
    requires
        graph[node].operation == Operation::Mul(a, b),
        graph[a].operation == Operation::Constant(ConstantBinding { value: Some(elements) }),
        0 <= i < elements@.len(),
        elements@[i] != 0x3f80_0000,
        !graph[a].is_all_zero(),
        !graph[b].is_all_zero(),
        !graph[b].is_all_one(),
        !graph[b].is_malformed(),
    ensures
        !graph[a].is_all_one(),
        is_kept(graph, node),
{
}

/// What every pass guarantees, whatever it finds: the nodes stay, with
/// their provenance, shape and kind; at most `limit` substitutions are made
/// and none with a budget of zero; a graph without cycles stays without
/// cycles; a graph with nothing left to fold is left alone; and a root that
/// is folded, and is not its own operand, ends up referenced by nothing.
pub proof fn lemma_fold_guarantees(graph: Graph, root: NodeIdentifier, limit: nat)
    requires
        well_formed(graph),
    ensures
        well_formed(fold(graph, root, limit).graph),
        same_nodes(graph, fold(graph, root, limit).graph),
        fold(graph, root, limit).substitutions <= limit,
        fold(graph, root, limit).result matches Ok(changed) ==> changed == (fold(
            graph,
            root,
            limit,
        ).substitutions > 0),
        fold(graph, root, limit).substitutions == 0 ==> fold(graph, root, limit).graph == graph,
        limit == 0 ==> fold(graph, root, limit).result == Ok::<bool, FoldError>(false),
        acyclic(graph) ==> acyclic(fold(graph, root, limit).graph),
        fully_folded(graph) ==> fold(graph, root, limit).substitutions == 0,
        forall|replacement: NodeIdentifier|
            limit > 0 && graph.dom().contains(root) && !graph[root].operation.references(root)
                && #[trigger] folds_to(graph, root, replacement) ==> !is_referenced(
                fold(graph, root, limit).graph,
                root,
            ),
{
    lemma_fold_keeps_nodes(graph, root, limit);
    lemma_fold_respects_budget(graph, root, limit);
    if limit > 0 {
        lemma_run_counts_changes(fold_start(graph, root), limit);
    }
    if acyclic(graph) {
        let rank = choose|rank: Map<NodeIdentifier, nat>| ranked(graph, rank);
        lemma_fold_keeps_acyclic(graph, root, limit, rank);
    }
    if fully_folded(graph) {
        lemma_fold_idempotent(graph, root, limit);
    }
    assert forall|replacement: NodeIdentifier|
        limit > 0 && graph.dom().contains(root) && !graph[root].operation.references(root)
            && #[trigger] folds_to(graph, root, replacement) implies !is_referenced(
        fold(graph, root, limit).graph,
        root,
    ) by {
        lemma_fold_target_is_operand(graph, root);
        lemma_fold_redirects_users(graph, root, replacement, limit);
    }
}

impl Context {
    /// Compares node `id` with zero.
    fn zero_at(&self, id: NodeIdentifier) -> (zero: Result<bool, FoldError>)
        requires
            self.wf(),
            self@.dom().contains(id),
        ensures
            zero == self@[id].zero_test(),
    {
        match self.get(id) {
            Ok(node) => node.is_zero(),
            Err(_) => Ok(false),
        }
    }

    /// Compares node `id` with one.
    fn one_at(&self, id: NodeIdentifier) -> (one: Result<bool, FoldError>)
        requires
            self.wf(),
            self@.dom().contains(id),
        ensures
            one == self@[id].one_test(),
    {
        match self.get(id) {
            Ok(node) => node.is_one(),
            Err(_) => Ok(false),
        }
    }

    /// Whether node `id` is a constant.
    fn const_at(&self, id: NodeIdentifier) -> (constant: bool)
        requires
            self.wf(),
            self@.dom().contains(id),
        ensures
            constant == (self@[id].operation is Constant),
    {
        match self.get(id) {
            Ok(node) => node.is_const().is_some(),
            Err(_) => false,
        }
    }

    /// The node that is to take the place of node `id`, if `id` is a sum,
    /// difference or product with an operand that makes it redundant.
    pub fn fold_target(&self, id: NodeIdentifier) -> (target: Result<
        Option<NodeIdentifier>,
        FoldError,
    >)
        requires
            self.wf(),
            self@.dom().contains(id),
        ensures
            target == fold_target(self@, id),
    {
        let operation = match self.get(id) {
            Ok(node) => &node.operation,
            Err(_) => {
                return Ok(None);
            },
        };
        match operation {
            Operation::Add(a, b) | Operation::Sub(a, b) => {
                assert(operation.references(*a) && operation.references(*b));
                match self.zero_at(*a) {
                    Err(e) => Err(e),
                    Ok(true) => Ok(Some(*b)),
                    Ok(false) => match self.zero_at(*b) {
                        Err(e) => Err(e),
                        Ok(true) => Ok(Some(*a)),
                        Ok(false) => Ok(None),
                    },
                }
            },
            Operation::Mul(a, b) => {
                assert(operation.references(*a) && operation.references(*b));
                match self.zero_at(*a) {
                    Err(e) => Err(e),
                    Ok(true) => Ok(Some(*a)),
                    Ok(false) => match self.one_at(*a) {
                        Ok(true) => Ok(Some(*b)),
                        _ => match self.zero_at(*b) {
                            Err(e) => Err(e),
                            Ok(true) => Ok(Some(*b)),
                            Ok(false) => match self.one_at(*b) {
                                Ok(true) => Ok(Some(*a)),
                                _ => Ok(None),
                            },
                        },
                    },
                }
            },
            _ => Ok(None),
        }
    }

    /// The operands of node `id` that a pass goes on to, in the order in which
    /// it puts them on its worklist, and whether visiting `id` is charged for.
    fn explore(&self, id: NodeIdentifier) -> (found: (Vec<NodeIdentifier>, bool))
        requires
            self.wf(),
            self@.dom().contains(id),
        ensures
            found.0@ == explored(self@, id),
            found.1 == is_arithmetic(self@[id].operation),
    {
        let mut operands: Vec<NodeIdentifier> = Vec::new();
        let operation = match self.get(id) {
            Ok(node) => &node.operation,
            Err(_) => {
                return (operands, false);
            },
        };
        let arithmetic = match operation {
            Operation::Add(_, _) | Operation::Sub(_, _) | Operation::Mul(_, _) => true,
            _ => false,
        };
        match operation {
            Operation::Add(a, b)
            | Operation::Sub(a, b)
            | Operation::Mul(a, b)
            | Operation::GreaterThan(a, b)
            | Operation::GreaterThanEq(a, b)
            | Operation::LessThan(a, b)
            | Operation::LessThanEq(a, b)
            | Operation::Equal(a, b) => {
                assert(operation.references(*a) && operation.references(*b));
                if !self.const_at(*a) {
                    operands.push(*a);
                }
                if !self.const_at(*b) {
                    operands.push(*b);
                }
            },
            _ => {},
        }
        (operands, arithmetic)
    }

    /// Folds constants in place: starting from `input`, every sum, difference
    /// or product that the pass reaches and that has an all-zero or all-one
    /// constant operand making it redundant is replaced, in all its users, by
    /// the operand that holds its value. The identifiers of the replaced nodes
    /// stay valid. One unit is charged for each sum, difference or product
    /// visited and one more for each substitution; once `modification_limit`
    /// units are charged no further node is visited, so that at most
    /// `modification_limit` substitutions are made.
    ///
    /// Returns whether a substitution was made, be it one that found no user
    /// to redirect. With a limit of zero nothing is looked at and the answer
    /// is `false`. A failure leaves the substitutions made before it in place.
    pub fn fold_consts(&mut self, input: NodeIdentifier, modification_limit: usize) -> (changed:
        Result<bool, FoldError>)
        requires
            old(self).wf(),
        ensures
            final(self).wf(),
            final(self)@ == fold(old(self)@, input, modification_limit as nat).graph,
            changed == fold(old(self)@, input, modification_limit as nat).result,
            same_nodes(old(self)@, final(self)@),
            changed matches Ok(false) ==> final(self)@ == old(self)@,
            modification_limit == 0 ==> changed matches Ok(false),
            fold(old(self)@, input, modification_limit as nat).substitutions <= modification_limit,
            acyclic(old(self)@) ==> acyclic(final(self)@),
            fully_folded(old(self)@) ==> final(self)@ == old(self)@ && !(changed matches Ok(true)),
            forall|replacement: NodeIdentifier|
                modification_limit > 0 && old(self)@.dom().contains(input) && !old(
                    self,
                )@[input].operation.references(input) && #[trigger] folds_to(
                    old(self)@,
                    input,
                    replacement,
                ) ==> !is_referenced(final(self)@, input),
    {
        if modification_limit == 0 {
            proof {
                lemma_fold_guarantees(old(self)@, input, 0);
            }
            return Ok(false);
        }
        let ghost limit = modification_limit as nat;
        let mut modifications: usize = 0;
        let mut changed = false;
        let mut to_visit: Vec<NodeIdentifier> = Vec::new();
        to_visit.push(input);
        let mut visited: HashSet<u64> = HashSet::new();
        let ghost mut state = fold_start(self@, input);

        while to_visit.len() > 0
            invariant
                self.wf(),
                limit == modification_limit,
                state.graph == self@,
                state.to_visit == to_visit@,
                forall|id: NodeIdentifier| #[trigger]
                    state.visited.contains(id) <==> visited@.contains(id.raw),
                modifications == if state.modifications <= usize::MAX {
                    state.modifications
                } else {
                    usize::MAX as nat
                },
                changed == (state.substitutions > 0),
                fold_run(state, limit) == fold(old(self)@, input, limit),
                old(self).wf(),
            decreases unvisited(state).len(), state.to_visit.len(),
        {
            proof {
                lemma_fold_guarantees(old(self)@, input, limit);
            }
            let ghost before = state;
            let node_id = to_visit.pop().unwrap();
            if visited.contains(&node_id.raw) || modifications >= modification_limit {
                proof {
                    state = fold_step(before, limit)->Ok_0;
                    lemma_step_progress(before, limit);
                }
            } else {
                if !self.contains(node_id) {
                    return Err(FoldError::DanglingReference);
                }
                let target = match self.fold_target(node_id) {
                    Ok(target) => target,
                    Err(e) => {
                        return Err(e);
                    },
                };
                let (mut operands, arithmetic) = self.explore(node_id);
                proof {
                    state = fold_step(before, limit)->Ok_0;
                    lemma_step_progress(before, limit);
                }
                match target {
                    Some(replacement) => {
                        assert(self@[node_id].operation.references(replacement));
                        match self.replace_index(node_id, replacement) {
                            Ok(_) => {},
                            Err(_) => {
                                return Err(FoldError::DanglingReference);
                            },
                        }
                        modifications = modifications.saturating_add(1);
                        changed = true;
                    },
                    None => {},
                }
                if arithmetic {
                    modifications = modifications.saturating_add(1);
                }
                to_visit.append(&mut operands);
                visited.insert(node_id.raw);
            }
        }
        proof {
            lemma_fold_guarantees(old(self)@, input, limit);
        }
        Ok(changed)
    }
}

} // verus!
