use vstd::prelude::*;
use crate::model::{RuntimeError, MAX_CALL_DEPTH};
use crate::types::{same_node, ValueId};
use crate::values::{find_node, has_node, unique_ids, RENode};

verus! {

/// Whether `id` is among `ids`.
pub open spec fn has_id(ids: Seq<ValueId>, id: ValueId) -> bool {
    exists|i: int| 0 <= i < ids.len() && same_node(#[trigger] ids[i], id)
}

fn contains_id(ids: &Vec<ValueId>, id: &ValueId) -> (r: bool)
    ensures
        r == has_id(ids@, *id),
{
    let mut i: usize = 0;
    while i < ids.len()
        invariant
            i <= ids@.len(),
            forall|j: int| 0 <= j < i ==> !same_node(#[trigger] ids@[j], *id),
        decreases ids@.len() - i,
    {
        if ids[i] == *id {
            return true;
        }
        i = i + 1;
    }
    false
}

/// Entering a frame at `depth` is allowed only up to the maximum call depth.
pub fn check_call_depth(depth: usize) -> (r: Result<(), RuntimeError>)
    ensures
        r is Ok <==> depth <= MAX_CALL_DEPTH,
        r is Err ==> (r matches Err(RuntimeError::MaxCallDepthExceeded(d)) && d == depth),
{
    if depth > MAX_CALL_DEPTH {
        Err(RuntimeError::MaxCallDepthExceeded(depth))
    } else {
        Ok(())
    }
}

/// A write that replaces a stored value must keep every node the old value stored: the
/// first stored id of `old_ids` missing from `new_ids` fails with `StoredNodeRemoved`.
pub fn verify_stored_nodes_kept(old_ids: &Vec<ValueId>, new_ids: &Vec<ValueId>) -> (r: Result<
    (),
    RuntimeError,
>)
    ensures
        r is Ok <==> forall|i: int| 0 <= i < old_ids@.len() ==> has_id(new_ids@, #[trigger] old_ids@[i]),
        r is Err ==> exists|i: int|
            0 <= i < old_ids@.len() && !has_id(new_ids@, #[trigger] old_ids@[i]) && (r matches Err(
                RuntimeError::StoredNodeRemoved(id),
            ) && id == old_ids@[i]),
{
    let mut i: usize = 0;
    while i < old_ids.len()
        invariant
            i <= old_ids@.len(),
            forall|j: int| 0 <= j < i ==> has_id(new_ids@, #[trigger] old_ids@[j]),
        decreases old_ids@.len() - i,
    {
        if !contains_id(new_ids, &old_ids[i]) {
            return Err(RuntimeError::StoredNodeRemoved(old_ids[i]));
        }
        i = i + 1;
    }
    Ok(())
}

/// The nodes owned by a call frame, each under its id.
pub struct OwnedNodes {
    pub nodes: Vec<(ValueId, RENode)>,
}

impl OwnedNodes {
    /// Each id is held once.
    pub open spec fn wf(&self) -> bool {
        unique_ids(self.nodes@)
    }

    pub fn new() -> (r: Self)
        ensures
            r.wf(),
            r.nodes@.len() == 0,
    {
        OwnedNodes { nodes: Vec::new() }
    }

    /// Adds a node created in this frame; an id already held is refused.
    pub fn insert(&mut self, id: ValueId, node: RENode) -> (r: Result<(), RuntimeError>)
        requires
            old(self).wf(),
        ensures
            final(self).wf(),
            r is Ok <==> !has_node(old(self).nodes@, id),
            r is Ok ==> final(self).nodes@ == old(self).nodes@.push((id, node)),
            r is Err ==> final(self).nodes@ == old(self).nodes@,
    {
        if find_node(&self.nodes, &id).is_some() {
            return Err(RuntimeError::BorrowConflict);
        }
        proof {
            assert forall|j: int| 0 <= j < self.nodes@.len() implies !same_node(
                #[trigger] self.nodes@[j].0,
                id,
            ) by {}
        }
        self.nodes.push((id, node));
        proof {
            assert forall|a: int, b: int|
                0 <= a < b < self.nodes@.len() implies !same_node(
                #[trigger] self.nodes@[a].0,
                #[trigger] self.nodes@[b].0,
            ) by {
                if b == self.nodes@.len() - 1 {
                    lemma_same_node_sym(self.nodes@[a].0, id);
                }
            }
        }
        Ok(())
    }

    /// Moves the nodes named by `ids` out of this frame, for a new owner. Every id must be
    /// owned here and named once; the first that is not fails with
    /// `RENodeCreateNodeNotFound` and nothing moves. Once moved, a node is no longer owned
    /// here, so it cannot be given to a second owner.
    pub fn take_nodes(&mut self, ids: &Vec<ValueId>) -> (r: Result<
        Vec<(ValueId, RENode)>,
        RuntimeError,
    >)
        requires
            old(self).wf(),
        ensures
            final(self).wf(),
            r is Ok <==> movable(old(self).nodes@, ids@),
            r is Err ==> final(self).nodes@ == old(self).nodes@,
            r is Err ==> (r matches Err(RuntimeError::RENodeCreateNodeNotFound(id)) && has_id(
                ids@,
                id,
            )),
            r is Ok ==> r->Ok_0@.len() == ids@.len(),
            r is Ok ==> forall|i: int|
                0 <= i < ids@.len() ==> same_node(#[trigger] r->Ok_0@[i].0, ids@[i]),
            r is Ok ==> forall|i: int|
                0 <= i < ids@.len() ==> !has_node(final(self).nodes@, #[trigger] ids@[i]),
    {
        let mut i: usize = 0;
        while i < ids.len()
            invariant
                unique_ids(self.nodes@),
                self.nodes@ == old(self).nodes@,
                i <= ids@.len(),
                forall|k: int| 0 <= k < i ==> has_node(self.nodes@, #[trigger] ids@[k]),
                forall|k: int, m: int|
                    0 <= k < m < i ==> !same_node(#[trigger] ids@[k], #[trigger] ids@[m]),
            decreases ids@.len() - i,
        {
            let id = ids[i];
            if find_node(&self.nodes, &id).is_none() {
                proof {
                    assert(!has_node(self.nodes@, ids@[i as int]));
                    assert(!movable(self.nodes@, ids@));
                }
                return Err(RuntimeError::RENodeCreateNodeNotFound(id));
            }
            let mut k: usize = 0;
            while k < i
                invariant
                    k <= i,
                    i < ids@.len(),
                    id == ids@[i as int],
                    unique_ids(self.nodes@),
                    self.nodes@ == old(self).nodes@,
                    forall|m: int| 0 <= m < k ==> !same_node(#[trigger] ids@[m], id),
                decreases i - k,
            {
                if ids[k] == id {
                    proof {
                        assert(same_node(ids@[k as int], ids@[i as int]));
                        assert(!movable(self.nodes@, ids@));
                    }
                    return Err(RuntimeError::RENodeCreateNodeNotFound(id));
                }
                k = k + 1;
            }
            i = i + 1;
            proof {
                assert forall|a: int, b: int|
                    0 <= a < b < i implies !same_node(#[trigger] ids@[a], #[trigger] ids@[b]) by {
                    if b == i - 1 {
                        assert(!same_node(ids@[a], id));
                    }
                }
            }
        }
        let ghost start = self.nodes@;
        let mut taken: Vec<(ValueId, RENode)> = Vec::new();
        let mut i: usize = 0;
        while i < ids.len()
            invariant
                unique_ids(self.nodes@),
                i <= ids@.len(),
                taken@.len() == i,
                movable(start, ids@),
                forall|k: int| 0 <= k < i ==> same_node(#[trigger] taken@[k].0, ids@[k]),
                forall|k: int| 0 <= k < i ==> !has_node(self.nodes@, #[trigger] ids@[k]),
                forall|k: int| i <= k < ids@.len() ==> has_node(self.nodes@, #[trigger] ids@[k]),
            decreases ids@.len() - i,
        {
            let id = ids[i];
            let j = find_node(&self.nodes, &id).unwrap();
            let ghost before = self.nodes@;
            let entry = self.nodes.remove(j);
            proof {
                lemma_remove_keeps(before, j as int, ids@, i as int);
            }
            taken.push(entry);
            i = i + 1;
            proof {
                assert(same_node(taken@[i - 1].0, ids@[i - 1]));
            }
        }
        Ok(taken)
    }
}

/// Every id of `ids` is owned in `nodes`, and no id is named twice.
pub open spec fn movable(nodes: Seq<(ValueId, RENode)>, ids: Seq<ValueId>) -> bool {
    &&& forall|k: int| 0 <= k < ids.len() ==> has_node(nodes, #[trigger] ids[k])
    &&& forall|k: int, m: int| 0 <= k < m < ids.len() ==> !same_node(#[trigger] ids[k], #[trigger] ids[m])
}

proof fn lemma_remove_keeps(nodes: Seq<(ValueId, RENode)>, j: int, ids: Seq<ValueId>, i: int)
    requires
        unique_ids(nodes),
        0 <= j < nodes.len(),
        0 <= i < ids.len(),
        same_node(nodes[j].0, ids[i]),
        forall|k: int, m: int| 0 <= k < m < ids.len() ==> !same_node(#[trigger] ids[k], #[trigger] ids[m]),
        forall|k: int| 0 <= k < i ==> !has_node(nodes, #[trigger] ids[k]),
        forall|k: int| i <= k < ids.len() ==> has_node(nodes, #[trigger] ids[k]),
    ensures
        unique_ids(nodes.remove(j)),
        forall|k: int| 0 <= k <= i ==> !has_node(nodes.remove(j), #[trigger] ids[k]),
        forall|k: int| i < k < ids.len() ==> has_node(nodes.remove(j), #[trigger] ids[k]),
{
    let rest = nodes.remove(j);
    assert forall|a: int, b: int| 0 <= a < b < rest.len() implies !same_node(
        #[trigger] rest[a].0,
        #[trigger] rest[b].0,
    ) by {
        let a0 = if a < j { a } else { a + 1 };
        let b0 = if b < j { b } else { b + 1 };
        assert(rest[a] == nodes[a0]);
        assert(rest[b] == nodes[b0]);
    }
    assert forall|k: int| 0 <= k <= i implies !has_node(rest, #[trigger] ids[k]) by {
        if has_node(rest, ids[k]) {
            let m = choose|m: int| 0 <= m < rest.len() && same_node(#[trigger] rest[m].0, ids[k]);
            let m0 = if m < j { m } else { m + 1 };
            assert(rest[m] == nodes[m0]);
            if k < i {
                assert(has_node(nodes, ids[k]));
            } else {
                assert(same_node(nodes[m0].0, nodes[j].0));
            }
        }
    }
    assert forall|k: int| i < k < ids.len() implies has_node(rest, #[trigger] ids[k]) by {
        assert(has_node(nodes, ids[k]));
        let m = choose|m: int| 0 <= m < nodes.len() && same_node(#[trigger] nodes[m].0, ids[k]);
        assert(!same_node(ids[i], ids[k]));
        assert(m != j);
        let m1 = if m < j { m } else { m - 1 };
        assert(rest[m1] == nodes[m]);
    }
}

proof fn lemma_same_node_sym(a: ValueId, b: ValueId)
    ensures
        same_node(a, b) <==> same_node(b, a),
{
}

} // verus!
