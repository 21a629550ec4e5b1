//! Ordering of small directed graphs whose nodes are named by `u32` ids.
//!
//! Both node graphs of the sequencer (the Note Grid and the Mod Grid) keep
//! their nodes sorted by id and their connections as a list of edges. This
//! module decides whether such an edge set is acyclic and, when it is,
//! produces the deterministic evaluation order that Kahn's algorithm yields
//! when the ready set is always drained smallest id first.
use vstd::prelude::*;

verus! {

/// The ids are strictly ascending (as the keys of an ordered map are).
pub open spec fn strictly_ascending(ids: Seq<u32>) -> bool {
    forall|i: int, j: int| 0 <= i < j < ids.len() ==> ids[i] < ids[j]
}

/// Every edge joins two nodes of `ids`.
pub open spec fn edges_within(ids: Seq<u32>, edges: Seq<(u32, u32)>) -> bool {
    forall|e: int| 0 <= e < edges.len() ==> ids.contains(#[trigger] edges[e].0) && ids.contains(
        edges[e].1,
    )
}

/// `order` lists every node, and each occurrence of an edge's target comes
/// after some occurrence of that edge's source.
pub open spec fn is_topological(ids: Seq<u32>, edges: Seq<(u32, u32)>, order: Seq<u32>) -> bool {
    &&& forall|k: int| 0 <= k < ids.len() ==> order.contains(#[trigger] ids[k])
    &&& forall|e: int, j: int|
        #![trigger edges[e], order[j]]
        0 <= e < edges.len() && 0 <= j < order.len() && order[j] == edges[e].1 ==> exists|i: int|
            0 <= i < j && order[i] == edges[e].0
}

/// The edge set admits a topological order of the nodes, i.e. it has no cycle.
pub open spec fn is_acyclic(ids: Seq<u32>, edges: Seq<(u32, u32)>) -> bool {
    exists|order: Seq<u32>| is_topological(ids, edges, order)
}

/// Node `n` can be evaluated once the nodes in `placed` have been: it is a
/// node not yet placed, and the source of every edge into it is placed.
pub open spec fn is_ready(ids: Seq<u32>, edges: Seq<(u32, u32)>, placed: Seq<u32>, n: u32) -> bool {
    &&& ids.contains(n)
    &&& !placed.contains(n)
    &&& forall|e: int| 0 <= e < edges.len() && #[trigger] edges[e].1 == n ==> placed.contains(edges[e].0)
}

/// `order` is the order Kahn's algorithm produces when it always takes the
/// smallest ready id: every node appears, and each step takes a ready node no
/// larger than any other ready node.
pub open spec fn is_kahn_order(ids: Seq<u32>, edges: Seq<(u32, u32)>, order: Seq<u32>) -> bool {
    &&& forall|k: int| 0 <= k < ids.len() ==> order.contains(#[trigger] ids[k])
    &&& forall|k: int|
        0 <= k < order.len() ==> is_ready(ids, edges, #[trigger] order.subrange(0, k), order[k])
    &&& forall|k: int, m: u32|
        0 <= k < order.len() && #[trigger] is_ready(ids, edges, order.subrange(0, k), m) ==> order[k]
            <= m
}

/// Number of `false` entries.
pub open spec fn count_false(s: Seq<bool>) -> nat
    decreases s.len(),
{
    if s.len() == 0 {
        0
    } else {
        count_false(s.drop_last()) + if s.last() {
            0nat
        } else {
            1nat
        }
    }
}

proof fn lemma_count_false_set(s: Seq<bool>, i: int)
    requires
        0 <= i < s.len(),
        !s[i],
    ensures
        count_false(s.update(i, true)) + 1 == count_false(s),
    decreases s.len(),
{
    if i == s.len() - 1 {
        assert(s.update(i, true).drop_last() =~= s.drop_last());
    } else {
        lemma_count_false_set(s.drop_last(), i);
        assert(s.update(i, true).drop_last() =~= s.drop_last().update(i, true));
    }
}

/// A Kahn order is a topological order.
pub proof fn lemma_kahn_order_is_topological(ids: Seq<u32>, edges: Seq<(u32, u32)>, order: Seq<u32>)
    requires
        is_kahn_order(ids, edges, order),
    ensures
        is_topological(ids, edges, order),
{
    assert forall|e: int, j: int|
        #![trigger edges[e], order[j]]
        0 <= e < edges.len() && 0 <= j < order.len() && order[j] == edges[e].1 implies exists|
        i: int,
    | 0 <= i < j && order[i] == edges[e].0 by {
        let prefix = order.subrange(0, j);
        assert(is_ready(ids, edges, prefix, order[j]));
        assert(prefix.contains(edges[e].0));
        let i = choose|i: int| 0 <= i < prefix.len() && prefix[i] == edges[e].0;
        assert(order[i] == edges[e].0);
    }
}

/// There is only one Kahn order of a graph.
pub proof fn lemma_kahn_order_unique(
    ids: Seq<u32>,
    edges: Seq<(u32, u32)>,
    a: Seq<u32>,
    b: Seq<u32>,
)
    requires
        is_kahn_order(ids, edges, a),
        is_kahn_order(ids, edges, b),
    ensures
        a == b,
{
    let n = if a.len() < b.len() {
        a.len()
    } else {
        b.len()
    };
    assert forall|k: int| 0 <= k < n implies a[k] == b[k] by {
        lemma_kahn_prefix_agree(ids, edges, a, b, k);
    }
    if a.len() < b.len() {
        assert(a =~= b.subrange(0, a.len() as int)) by {
            assert forall|k: int| 0 <= k < a.len() implies a[k] == b[k] by {
                lemma_kahn_prefix_agree(ids, edges, a, b, k);
            }
        }
        let m = b[a.len() as int];
        assert(is_ready(ids, edges, b.subrange(0, a.len() as int), m));
        let k = choose|k: int| 0 <= k < ids.len() && ids[k] == m;
        assert(a.contains(ids[k]));
    } else if b.len() < a.len() {
        assert(b =~= a.subrange(0, b.len() as int)) by {
            assert forall|k: int| 0 <= k < b.len() implies a[k] == b[k] by {
                lemma_kahn_prefix_agree(ids, edges, a, b, k);
            }
        }
        let m = a[b.len() as int];
        assert(is_ready(ids, edges, a.subrange(0, b.len() as int), m));
        let k = choose|k: int| 0 <= k < ids.len() && ids[k] == m;
        assert(b.contains(ids[k]));
    }
    assert(a =~= b);
}

proof fn lemma_kahn_prefix_agree(
    ids: Seq<u32>,
    edges: Seq<(u32, u32)>,
    a: Seq<u32>,
    b: Seq<u32>,
    k: int,
)
    requires
        is_kahn_order(ids, edges, a),
        is_kahn_order(ids, edges, b),
        0 <= k < a.len(),
        k < b.len(),
    ensures
        a.subrange(0, k) == b.subrange(0, k),
        a[k] == b[k],
    decreases k,
{
    if k > 0 {
        lemma_kahn_prefix_agree(ids, edges, a, b, k - 1);
        assert(a.subrange(0, k) =~= a.subrange(0, k - 1).push(a[k - 1]));
        assert(b.subrange(0, k) =~= b.subrange(0, k - 1).push(b[k - 1]));
    } else {
        assert(a.subrange(0, 0) =~= b.subrange(0, 0));
    }
    let p = a.subrange(0, k);
    assert(is_ready(ids, edges, p, a[k]));
    assert(is_ready(ids, edges, b.subrange(0, k), b[k]));
    assert(a[k] <= b[k]);
    assert(b[k] <= a[k]);
}

/// The first position of `order` that holds a node outside `placed`.
proof fn lemma_first_unplaced(ids: Seq<u32>, placed: Seq<u32>, order: Seq<u32>, j0: int) -> (j: int)
    requires
        0 <= j0 < order.len(),
        ids.contains(order[j0]),
        !placed.contains(order[j0]),
    ensures
        0 <= j <= j0,
        ids.contains(order[j]),
        !placed.contains(order[j]),
        forall|i: int| 0 <= i < j ==> !(ids.contains(order[i]) && !placed.contains(order[i])),
    decreases j0,
{
    if exists|i: int| 0 <= i < j0 && ids.contains(order[i]) && !placed.contains(order[i]) {
        let i = choose|i: int| 0 <= i < j0 && ids.contains(order[i]) && !placed.contains(order[i]);
        lemma_first_unplaced(ids, placed, order, i)
    } else {
        j0
    }
}

/// When some node is left over and every left-over node has an edge from a
/// left-over node, the graph has a cycle.
proof fn lemma_stuck_is_cyclic(ids: Seq<u32>, edges: Seq<(u32, u32)>, placed: Seq<u32>, r: u32)
    requires
        edges_within(ids, edges),
        ids.contains(r),
        !placed.contains(r),
        forall|n: u32|
            ids.contains(n) && !placed.contains(n) ==> !#[trigger] is_ready(ids, edges, placed, n),
    ensures
        !is_acyclic(ids, edges),
{
    assert forall|order: Seq<u32>| !is_topological(ids, edges, order) by {
        if is_topological(ids, edges, order) {
            let kr = choose|k: int| 0 <= k < ids.len() && ids[k] == r;
            assert(order.contains(ids[kr]));
            let j0 = choose|j: int| 0 <= j < order.len() && order[j] == r;
            let j = lemma_first_unplaced(ids, placed, order, j0);
            let n = order[j];
            assert(!is_ready(ids, edges, placed, n));
            let e = choose|e: int|
                0 <= e < edges.len() && #[trigger] edges[e].1 == n && !placed.contains(edges[e].0);
            assert(ids.contains(edges[e].0));
            let i = choose|i: int| 0 <= i < j && order[i] == edges[e].0;
            assert(ids.contains(order[i]) && !placed.contains(order[i]));
        }
    }
}

/// Whether `v` holds `x`.
pub fn contains_id(v: &Vec<u32>, x: u32) -> (r: bool)
    ensures
        r == v@.contains(x),
{
    let mut i: usize = 0;
    while i < v.len()
        invariant
            i <= v.len(),
            forall|k: int| 0 <= k < i ==> v@[k] != x,
        decreases v.len() - i,
    {
        if v[i] == x {
            return true;
        }
        i += 1;
    }
    false
}

/// Whether `n` is ready after `placed` (see [`is_ready`]), for a node `n` of
/// the graph that is not yet placed.
fn ready_after(edges: &Vec<(u32, u32)>, placed: &Vec<u32>, n: u32) -> (r: bool)
    ensures
        r == (forall|e: int|
            0 <= e < edges@.len() && #[trigger] edges@[e].1 == n ==> placed@.contains(edges@[e].0)),
{
    let mut e: usize = 0;
    while e < edges.len()
        invariant
            e <= edges.len(),
            forall|k: int| 0 <= k < e && #[trigger] edges@[k].1 == n ==> placed@.contains(edges@[k].0),
        decreases edges.len() - e,
    {
        if edges[e].1 == n && !contains_id(placed, edges[e].0) {
            return false;
        }
        e += 1;
    }
    true
}

/// Kahn's topological sort, draining the ready set smallest id first.
///
/// Returns `None` exactly when the edges contain a cycle; otherwise the
/// unique order described by [`is_kahn_order`].
pub fn kahn_order(ids: &Vec<u32>, edges: &Vec<(u32, u32)>) -> (r: Option<Vec<u32>>)
    requires
        strictly_ascending(ids@),
        edges_within(ids@, edges@),
    ensures
        r is Some <==> is_acyclic(ids@, edges@),
        r matches Some(order) ==> is_kahn_order(ids@, edges@, order@),
{
    let n = ids.len();
    let mut placed: Vec<bool> = Vec::new();
    while placed.len() < n
        invariant
            placed.len() <= n,
            n == ids.len(),
            forall|i: int| 0 <= i < placed.len() ==> !placed@[i],
        decreases n - placed.len(),
    {
        placed.push(false);
    }
    let mut order: Vec<u32> = Vec::new();
    loop
        invariant
            n == ids.len(),
            placed.len() == n,
            strictly_ascending(ids@),
            edges_within(ids@, edges@),
            forall|i: int| 0 <= i < n ==> (placed@[i] <==> order@.contains(#[trigger] ids@[i])),
            forall|k: int|
                0 <= k < order.len() ==> is_ready(
                    ids@,
                    edges@,
                    #[trigger] order@.subrange(0, k),
                    order@[k],
                ),
            forall|k: int, m: u32|
                0 <= k < order.len() && #[trigger] is_ready(ids@, edges@, order@.subrange(0, k), m)
                    ==> order@[k] <= m,
        decreases count_false(placed@),
    {
        let mut idx: usize = 0;
        let mut found = false;
        while !found && idx < n
            invariant
                n == ids.len(),
                placed.len() == n,
                idx <= n,
                forall|i: int| 0 <= i < n ==> (placed@[i] <==> order@.contains(#[trigger] ids@[i])),
                found ==> idx < n && !placed@[idx as int] && is_ready(
                    ids@,
                    edges@,
                    order@,
                    ids@[idx as int],
                ),
                forall|j: int|
                    0 <= j < idx ==> !(!placed@[j] && is_ready(
                        ids@,
                        edges@,
                        order@,
                        #[trigger] ids@[j],
                    )),
            decreases (n - idx) + (if found {
                0int
            } else {
                1int
            }),
        {
            if !placed[idx] && ready_after(edges, &order, ids[idx]) {
                assert(ids@.contains(ids@[idx as int]));
                found = true;
            } else {
                proof {
                    if !placed@[idx as int] {
                        assert(!order@.contains(ids@[idx as int]));
                    }
                }
                idx += 1;
            }
        }
        if !found {
            // No node can be placed: either every node is placed, or the
            // leftover nodes all wait on each other.
            let mut k: usize = 0;
            while k < n
                invariant
                    n == ids.len(),
                    placed.len() == n,
                    k <= n,
                    forall|i: int| 0 <= i < k ==> placed@[i],
                    edges_within(ids@, edges@),
                    forall|i: int| 0 <= i < n ==> (placed@[i] <==> order@.contains(#[trigger] ids@[i])),
                    forall|j: int|
                        0 <= j < n ==> !(!placed@[j] && is_ready(
                            ids@,
                            edges@,
                            order@,
                            #[trigger] ids@[j],
                        )),
                decreases n - k,
            {
                if !placed[k] {
                    proof {
                        let r = ids@[k as int];
                        assert(ids@.contains(r));
                        assert forall|m: u32|
                            ids@.contains(m) && !order@.contains(m) implies !#[trigger] is_ready(
                            ids@,
                            edges@,
                            order@,
                            m,
                        ) by {
                            let j = choose|j: int| 0 <= j < ids@.len() && ids@[j] == m;
                            assert(!placed@[j]);
                        }
                        lemma_stuck_is_cyclic(ids@, edges@, order@, r);
                    }
                    return None;
                }
                k += 1;
            }
            proof {
                assert forall|i: int| 0 <= i < ids@.len() implies order@.contains(#[trigger] ids@[i]) by {
                    assert(placed@[i]);
                }
                lemma_kahn_order_is_topological(ids@, edges@, order@);
            }
            return Some(order);
        }
        let ghost old_order = order@;
        let ghost old_placed = placed@;
        let chosen = ids[idx];
        proof {
            // The chosen node is the smallest ready one.
            assert forall|m: u32| is_ready(ids@, edges@, old_order, m) implies chosen <= m by {
                let j = choose|j: int| 0 <= j < ids@.len() && ids@[j] == m;
                assert(!placed@[j]);
                if j < idx {
                    assert(!(!placed@[j] && is_ready(ids@, edges@, order@, ids@[j])));
                }
            }
            lemma_count_false_set(placed@, idx as int);
        }
        placed.set(idx, true);
        order.push(chosen);
        proof {
            assert(order@.subrange(0, old_order.len() as int) =~= old_order);
            assert forall|k: int| 0 <= k < order@.len() implies #[trigger] order@.subrange(0, k)
                == old_order.subrange(0, k) || k == old_order.len() by {
                if k < old_order.len() {
                    assert(order@.subrange(0, k) =~= old_order.subrange(0, k));
                }
            }
            assert forall|i: int| 0 <= i < n implies (placed@[i] <==> order@.contains(
                #[trigger] ids@[i],
            )) by {
                if i == idx {
                    assert(order@[old_order.len() as int] == chosen);
                } else {
                    assert(ids@[i] != chosen);
                    if old_order.contains(ids@[i]) {
                        let w = choose|w: int| 0 <= w < old_order.len() && old_order[w] == ids@[i];
                        assert(order@[w] == ids@[i]);
                    }
                    if order@.contains(ids@[i]) {
                        let w = choose|w: int| 0 <= w < order@.len() && order@[w] == ids@[i];
                        assert(w < old_order.len());
                        assert(old_order[w] == ids@[i]);
                    }
                }
            }
        }
    }
}


/// `order` lists every node once, each only after the sources of all the
/// edges into it: a permutation of the nodes consistent with the edges.
pub open spec fn is_ready_order(ids: Seq<u32>, edges: Seq<(u32, u32)>, order: Seq<u32>) -> bool {
    &&& forall|k: int| 0 <= k < ids.len() ==> order.contains(#[trigger] ids[k])
    &&& forall|k: int| 0 <= k < order.len() ==> is_ready(ids, edges, #[trigger] order.subrange(0, k), order[k])
}

/// `a` comes first in lexicographic order, or equals `b`.
pub open spec fn lex_le(a: Seq<u32>, b: Seq<u32>) -> bool {
    ||| a == b
    ||| exists|k: int| 0 <= k < a.len() && k < b.len() && a.subrange(0, k) == b.subrange(0, k) && a[k] < b[k]
}

/// The Kahn order (smallest ready id first) is the lexicographically
/// smallest of all the orders that list every node once after the sources of
/// its incoming edges.
pub proof fn lemma_kahn_order_lex_smallest(ids: Seq<u32>, edges: Seq<(u32, u32)>, a: Seq<u32>, o: Seq<u32>)
    requires
        is_kahn_order(ids, edges, a),
        is_ready_order(ids, edges, o),
    ensures
        lex_le(a, o),
{
    assert(a.subrange(0, 0) =~= o.subrange(0, 0));
    lemma_lex_from(ids, edges, a, o, 0);
}

proof fn lemma_lex_from(ids: Seq<u32>, edges: Seq<(u32, u32)>, a: Seq<u32>, o: Seq<u32>, k: int)
    requires
        is_kahn_order(ids, edges, a),
        is_ready_order(ids, edges, o),
        0 <= k <= a.len(),
        k <= o.len(),
        a.subrange(0, k) == o.subrange(0, k),
    ensures
        lex_le(a, o),
    decreases a.len() - k,
{
    if k == a.len() && k == o.len() {
        assert(a =~= a.subrange(0, k));
        assert(o =~= o.subrange(0, k));
    } else if k == a.len() {
        let m = o[k];
        assert(is_ready(ids, edges, o.subrange(0, k), m));
        let w = choose|w: int| 0 <= w < ids.len() && ids[w] == m;
        assert(a.contains(ids[w]));
        assert(a =~= a.subrange(0, k));
        assert(o.subrange(0, k).contains(m));
    } else if k == o.len() {
        let m = a[k];
        assert(is_ready(ids, edges, a.subrange(0, k), m));
        let w = choose|w: int| 0 <= w < ids.len() && ids[w] == m;
        assert(o.contains(ids[w]));
        assert(o =~= o.subrange(0, k));
        assert(a.subrange(0, k).contains(m));
    } else if a[k] == o[k] {
        assert(a.subrange(0, k + 1) =~= a.subrange(0, k).push(a[k]));
        assert(o.subrange(0, k + 1) =~= o.subrange(0, k).push(o[k]));
        lemma_lex_from(ids, edges, a, o, k + 1);
    } else {
        assert(is_ready(ids, edges, o.subrange(0, k), o[k]));
        assert(is_ready(ids, edges, a.subrange(0, k), o[k]));
        assert(a[k] <= o[k]);
        assert(a[k] < o[k]);
    }
}

} // verus!
