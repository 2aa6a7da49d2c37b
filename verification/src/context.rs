//! The graph itself: the arena of nodes together with the reverse dependency
//! index, and the substitution of one node for another.

use crate::arena::{
    arena_get, arena_insert, arena_len, arena_new, arena_nodes, arena_set_operation, key_shaped,
    Arena, ARENA_CAPACITY,
};
use crate::error::{DanglingReference, SubstitutionError};
use crate::graph::{
    acyclic, dependents, is_referenced, lemma_insert_acyclic, lemma_substituted_dependents,
    lemma_substituted_same_nodes, operands_present, ranked, same_nodes, substituted, well_formed,
    with_operation, Graph,
};
use crate::operation::{Node, NodeIdentifier};
use std::collections::{HashMap, HashSet};
use vstd::prelude::*;
use vstd::std_specs::iter::IteratorSpec;

verus! {

broadcast use {vstd::std_specs::hash::group_hash_axioms, vstd::seq_lib::group_seq_properties};

/// A computation graph under construction or simplification.
#[derive(Debug)]
pub struct Context {
    nodes: Arena,
    dependent_nodes: HashMap<u64, HashSet<u64>>,
}

impl View for Context {
    type V = Graph;

    closed spec fn view(&self) -> Graph {
        arena_nodes(self.nodes)
    }
}

impl Context {
    /// The reverse index has an entry for every node and for nothing else, and
    /// the entry of a node is the set of nodes that reference it.
    pub closed spec fn index_consistent(&self) -> bool {
        &&& forall|id: NodeIdentifier| #[trigger]
            self.dependent_nodes@.contains_key(id.raw) <==> self@.dom().contains(id)
        &&& forall|id: NodeIdentifier, user: NodeIdentifier|
            self@.dom().contains(id) ==> (#[trigger] self.dependent_nodes@[id.raw]@.contains(
                user.raw,
            ) <==> dependents(self@, id).contains(user))
    }

    /// The reverse dependency index: for every identifier it has an entry for,
    /// the nodes recorded as users of that node.
    pub closed spec fn index(&self) -> Map<NodeIdentifier, Set<NodeIdentifier>> {
        Map::new(
            |id: NodeIdentifier| self.dependent_nodes@.contains_key(id.raw),
            |id: NodeIdentifier|
                Set::new(|user: NodeIdentifier| self.dependent_nodes@[id.raw]@.contains(user.raw)),
        )
    }

    /// In a well-formed context the index is exact: it has an entry for every
    /// node and for nothing else, and the entry of a node is the set of the
    /// nodes that hold it in an operand slot.
    pub proof fn lemma_index_exact(&self)
        requires
            self.wf(),
        ensures
            self.index().dom() == self@.dom(),
            forall|id: NodeIdentifier| #[trigger]
                self@.dom().contains(id) ==> self.index()[id] == dependents(self@, id),
    {
        assert(self.index().dom() =~= self@.dom());
        assert forall|id: NodeIdentifier| #[trigger]
            self@.dom().contains(id) implies self.index()[id] == dependents(self@, id) by {
            assert(self.index()[id] =~= dependents(self@, id));
        }
    }

    /// The graph is one an arena can hold and the reverse index agrees with it.
    /// Every `Context` this crate hands out is well formed, and every method
    /// keeps it so.
    pub open spec fn wf(&self) -> bool {
        &&& well_formed(self@)
        &&& self.index_consistent()
    }

    /// A graph without nodes.
    pub fn new() -> (ctx: Context)
        ensures
            ctx.wf(),
            ctx@ == Map::<NodeIdentifier, Node>::empty(),
            acyclic(ctx@),
    {
        let ctx = Context { nodes: arena_new(), dependent_nodes: HashMap::new() };
        assert(ranked(ctx@, Map::<NodeIdentifier, nat>::empty()));
        ctx
    }

    /// The number of nodes.
    pub fn len(&self) -> (len: usize)
        requires
            self.wf(),
        ensures
            len == self@.len(),
    {
        arena_len(&self.nodes)
    }

    /// Whether `id` names a node of this graph.
    pub fn contains(&self, id: NodeIdentifier) -> (present: bool)
        requires
            self.wf(),
        ensures
            present == self@.dom().contains(id),
    {
        if (id.raw >> 32) & 1 == 1 {
            arena_get(&self.nodes, id).is_some()
        } else {
            false
        }
    }

    /// The node that `id` names.
    pub fn get(&self, id: NodeIdentifier) -> (found: Result<&Node, DanglingReference>)
        requires
            self.wf(),
        ensures
            found is Ok <==> self@.dom().contains(id),
            found matches Ok(node) ==> *node == self@[id],
    {
        if (id.raw >> 32) & 1 == 1 {
            match arena_get(&self.nodes, id) {
                Some(node) => Ok(node),
                None => Err(DanglingReference),
            }
        } else {
            Err(DanglingReference)
        }
    }

    /// The nodes that reference `node`, in no particular order and each once:
    /// what the reverse index holds for `node`. Empty for a node that nothing
    /// uses and for an identifier that names no node.
    pub fn collect_deps(&self, node: NodeIdentifier) -> (deps: Vec<NodeIdentifier>)
        requires
            self.wf(),
        ensures
            deps@.no_duplicates(),
            deps@.to_set() == dependents(self@, node),
            self@.dom().contains(node) ==> deps@.to_set() == self.index()[node],
    {
        proof {
            self.lemma_index_exact();
        }
        let mut deps: Vec<NodeIdentifier> = Vec::new();
        match self.dependent_nodes.get(&node.raw) {
            None => {},
            Some(users) => {
                for raw in iter: users.iter()
                    invariant
                        iter.seq() == users.iter().remaining(),
                        deps@.len() == iter.index(),
                        forall|i: int| 0 <= i < deps@.len() ==> deps@[i].raw == iter.seq()[i],
                {
                    deps.push(NodeIdentifier { raw: *raw });
                }
                proof {
                    let keys = users.iter().remaining();
                    assert forall|user: NodeIdentifier|
                        deps@.contains(user) <==> users@.contains(user.raw) by {
                        if deps@.contains(user) {
                            let i = choose|i: int| 0 <= i < deps@.len() && deps@[i] == user;
                            assert(keys.unref()[i] == user.raw);
                        }
                        if users@.contains(user.raw) {
                            let i = choose|i: int|
                                0 <= i < keys.unref().len() && keys.unref()[i] == user.raw;
                            assert(deps@[i] == user);
                        }
                    }
                    assert forall|i: int, j: int|
                        0 <= i < deps@.len() && 0 <= j < deps@.len() && i != j implies deps@[i]
                        != deps@[j] by {
                        assert(keys[i] != keys[j]);
                    }
                }
            },
        }
        deps
    }

    /// Stores `node` under a fresh identifier and records it as a user of each
    /// of its operands. A node with an operand slot that names no node of this
    /// graph is refused, and the graph stays as it was.
    pub fn insert(&mut self, node: Node) -> (inserted: Result<NodeIdentifier, DanglingReference>)
        requires
            old(self).wf(),
            old(self)@.len() < ARENA_CAPACITY,
        ensures
            final(self).wf(),
            inserted is Ok <==> operands_present(old(self)@, node.operation),
            inserted matches Ok(id) ==> !old(self)@.dom().contains(id) && final(self)@ == old(
                self,
            )@.insert(id, node),
            inserted is Err ==> final(self)@ == old(self)@,
            acyclic(old(self)@) ==> acyclic(final(self)@),
    {
        let slots = node.operation.operand_list();
        let ghost operation = node.operation;
        let mut checked: usize = 0;
        while checked < slots.len()
            invariant
                self.wf(),
                *self == *old(self),
                node.operation == operation,
                slots@ == operation.operands(),
                checked <= slots@.len(),
                forall|j: int| 0 <= j < checked ==> self@.dom().contains(#[trigger] slots@[j]),
            decreases slots@.len() - checked,
        {
            if !self.contains(slots[checked]) {
                proof {
                    operation.lemma_operands_are_references(slots@[checked as int]);
                }
                return Err(DanglingReference);
            }
            checked += 1;
        }
        proof {
            assert forall|id: NodeIdentifier| #[trigger]
                operation.references(id) implies self@.dom().contains(id) by {
                operation.lemma_operands_are_references(id);
            }
        }
        let id = arena_insert(&mut self.nodes, node);
        proof {
            if acyclic(old(self)@) {
                lemma_insert_acyclic(old(self)@, id, node);
            }
        }
        self.dependent_nodes.insert(id.raw, HashSet::new());
        let mut recorded: usize = 0;
        while recorded < slots.len()
            invariant
                slots@ == operation.operands(),
                recorded <= slots@.len(),
                old(self).wf(),
                operands_present(old(self)@, operation),
                !old(self)@.dom().contains(id),
                key_shaped(id),
                self@ == old(self)@.insert(id, node),
                node.operation == operation,
                forall|k: NodeIdentifier| #[trigger]
                    self.dependent_nodes@.contains_key(k.raw) <==> self@.dom().contains(k),
                forall|m: NodeIdentifier, user: NodeIdentifier|
                    self@.dom().contains(m) ==> (#[trigger] self.dependent_nodes@[m.raw]@.contains(
                        user.raw,
                    ) <==> (user != id && dependents(old(self)@, m).contains(user)) || (user == id
                        && exists|j: int| 0 <= j < recorded && slots@[j] == m)),
            decreases slots@.len() - recorded,
        {
            let operand = slots[recorded];
            proof {
                operation.lemma_operands_are_references(operand);
            }
            record_user(&mut self.dependent_nodes, operand.raw, id.raw);
            recorded += 1;
        }
        proof {
            assert forall|m: NodeIdentifier, user: NodeIdentifier|
                self@.dom().contains(m) implies (#[trigger] self.dependent_nodes@[m.raw]@.contains(
                user.raw,
            ) <==> dependents(self@, m).contains(user)) by {
                operation.lemma_operands_are_references(m);
            }
        }
        Ok(id)
    }

    /// Makes every node that references `to_remove` reference `rep_with`
    /// instead, in every operand slot that held `to_remove`, and moves those
    /// nodes from the index entry of `to_remove` to that of `rep_with`. Reports
    /// whether any node referenced `to_remove`. No node is deleted.
    ///
    /// Fails, changing nothing, when either identifier names no node.
    pub fn replace_index(&mut self, to_remove: NodeIdentifier, rep_with: NodeIdentifier) -> (changed:
        Result<bool, SubstitutionError>)
        requires
            old(self).wf(),
        ensures
            final(self).wf(),
            changed is Ok <==> old(self)@.dom().contains(to_remove) && old(self)@.dom().contains(
                rep_with,
            ),
            changed matches Ok(any) ==> any == is_referenced(old(self)@, to_remove) && final(self)@
                == substituted(old(self)@, to_remove, rep_with),
            changed is Err ==> final(self)@ == old(self)@,
            same_nodes(old(self)@, final(self)@),
            changed is Ok && to_remove != rep_with ==> dependents(final(self)@, to_remove)
                == Set::<NodeIdentifier>::empty() && dependents(final(self)@, rep_with)
                == dependents(old(self)@, rep_with).union(dependents(old(self)@, to_remove)),
            changed is Ok && to_remove != rep_with ==> final(self).index()[to_remove]
                == Set::<NodeIdentifier>::empty() && final(self).index()[rep_with] == old(
                self,
            ).index()[rep_with].union(old(self).index()[to_remove]),
    {
        proof {
            lemma_substituted_same_nodes(old(self)@, to_remove, rep_with);
            if to_remove != rep_with {
                lemma_substituted_dependents(old(self)@, to_remove, rep_with, rep_with);
            }
        }
        if !self.contains(to_remove) || !self.contains(rep_with) {
            return Err(SubstitutionError::DanglingReference);
        }
        let deps = self.collect_deps(to_remove);
        let mut rewritten: usize = 0;
        while rewritten < deps.len()
            invariant
                old(self).wf(),
                rewritten <= deps@.len(),
                deps@.no_duplicates(),
                deps@.to_set() == dependents(old(self)@, to_remove),
                self.dependent_nodes == old(self).dependent_nodes,
                self@.dom() == old(self)@.dom(),
                forall|id: NodeIdentifier| #[trigger]
                    self@.dom().contains(id) ==> self@[id] == if exists|j: int|
                        0 <= j < rewritten && deps@[j] == id {
                        with_operation(
                            old(self)@[id],
                            old(self)@[id].operation.substitute(to_remove, rep_with),
                        )
                    } else {
                        old(self)@[id]
                    },
            decreases deps@.len() - rewritten,
        {
            let user = deps[rewritten];
            assert(deps@.to_set().contains(user));
            let operation = match arena_get(&self.nodes, user) {
                Some(node) => node.operation.rewritten(to_remove, rep_with),
                None => None,
            };
            match operation {
                Some(operation) => {
                    arena_set_operation(&mut self.nodes, user, operation);
                },
                None => {},
            }
            rewritten += 1;
        }
        proof {
            assert(self@ =~= substituted(old(self)@, to_remove, rep_with)) by {
                assert forall|id: NodeIdentifier| #[trigger]
                    self@.dom().contains(id) implies self@[id] == substituted(
                    old(self)@,
                    to_remove,
                    rep_with,
                )[id] by {
                    old(self)@[id].operation.lemma_substitute_identity(to_remove, rep_with);
                    if !(exists|j: int| 0 <= j < deps@.len() && deps@[j] == id) {
                        assert(!dependents(old(self)@, to_remove).contains(id));
                    }
                }
            }
            if deps@.len() > 0 {
                assert(deps@.to_set().contains(deps@[0]));
            }
        }
        if to_remove != rep_with {
            self.dependent_nodes.insert(to_remove.raw, HashSet::new());
            let mut moved: usize = 0;
            while moved < deps.len()
                invariant
                    old(self).wf(),
                    to_remove != rep_with,
                    moved <= deps@.len(),
                    deps@.to_set() == dependents(old(self)@, to_remove),
                    self@ == substituted(old(self)@, to_remove, rep_with),
                    old(self)@.dom().contains(to_remove),
                    old(self)@.dom().contains(rep_with),
                    forall|k: NodeIdentifier| #[trigger]
                        self.dependent_nodes@.contains_key(k.raw) <==> self@.dom().contains(k),
                    forall|m: NodeIdentifier, user: NodeIdentifier|
                        self@.dom().contains(m) ==> (
                        #[trigger] self.dependent_nodes@[m.raw]@.contains(user.raw) <==> if m
                            == to_remove {
                            false
                        } else if m == rep_with {
                            dependents(old(self)@, m).contains(user) || exists|j: int|
                                0 <= j < moved && deps@[j] == user
                        } else {
                            dependents(old(self)@, m).contains(user)
                        }),
                decreases deps@.len() - moved,
            {
                record_user(&mut self.dependent_nodes, rep_with.raw, deps[moved].raw);
                moved += 1;
            }
        }
        proof {
            assert forall|m: NodeIdentifier, user: NodeIdentifier|
                self@.dom().contains(m) implies (#[trigger] self.dependent_nodes@[m.raw]@.contains(
                user.raw,
            ) <==> dependents(self@, m).contains(user)) by {
                if old(self)@.dom().contains(user) {
                    old(self)@[user].operation.lemma_substitute_references(to_remove, rep_with, m);
                }
            }
            assert forall|user: NodeIdentifier, id: NodeIdentifier|
                self@.dom().contains(user) && #[trigger] self@[user].operation.references(
                    id,
                ) implies self@.dom().contains(id) by {
                old(self)@[user].operation.lemma_substitute_references(to_remove, rep_with, id);
            }
            old(self).lemma_index_exact();
            self.lemma_index_exact();
        }
        Ok(deps.len() > 0)
    }
}

/// Adds `user` to the entry that the index has for `id`.
fn record_user(index: &mut HashMap<u64, HashSet<u64>>, id: u64, user: u64)
    requires
        old(index)@.contains_key(id),
    ensures
        final(index)@.dom() == old(index)@.dom(),
        final(index)@[id]@ == old(index)@[id]@.insert(user),
        forall|other: u64|
            other != id && old(index)@.contains_key(other) ==> #[trigger] final(index)@[other]
                == old(index)@[other],
{
    match index.remove(&id) {
        Some(mut users) => {
            users.insert(user);
            index.insert(id, users);
        },
        None => {},
    }
}

} // verus!
