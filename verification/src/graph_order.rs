//! Processing order of the audio graph: every node after the nodes that
//! feed it.
use vstd::prelude::*;
use crate::event::NodeId;
use crate::graph::{AudioGraph, Connection};
use vstd::set_lib::{lemma_int_range, lemma_len_subset, set_int_range};

verus! {

/// Connections among the first `m` that lead into `v` from a node not in
/// `done`.
pub open spec fn live_in(conns: Seq<Connection>, v: int, done: Seq<NodeId>, m: int) -> nat
    decreases m,
{
    if m <= 0 {
        0
    } else {
        live_in(conns, v, done, m - 1) + if conns[m - 1].to == v && !done.contains(conns[m - 1].from) { 1nat } else { 0nat }
    }
}

/// Connections among the first `m` from `u` to `v`.
pub open spec fn edges_between(conns: Seq<Connection>, u: int, v: int, m: int) -> nat
    decreases m,
{
    if m <= 0 {
        0
    } else {
        edges_between(conns, u, v, m - 1) + if conns[m - 1].from == u && conns[m - 1].to == v { 1nat } else { 0nat }
    }
}

/// Every connection into `v` comes from a node in `done`.
pub open spec fn fed_by(conns: Seq<Connection>, v: int, done: Seq<NodeId>) -> bool {
    forall|j: int| 0 <= j < conns.len() && (#[trigger] conns[j]).to == v ==> done.contains(conns[j].from)
}

proof fn lemma_live_bound(conns: Seq<Connection>, v: int, done: Seq<NodeId>, m: int)
    requires
        0 <= m,
    ensures
        live_in(conns, v, done, m) <= m,
    decreases m,
{
    if m > 0 {
        lemma_live_bound(conns, v, done, m - 1);
    }
}

/// Finishing a node removes exactly its connections into `v` from the live ones.
proof fn lemma_live_push(conns: Seq<Connection>, v: int, done: Seq<NodeId>, u: NodeId, m: int)
    requires
        0 <= m <= conns.len(),
        !done.contains(u),
    ensures
        live_in(conns, v, done.push(u), m) + edges_between(conns, u as int, v, m) == live_in(conns, v, done, m),
    decreases m,
{
    if m > 0 {
        lemma_live_push(conns, v, done, u, m - 1);
        let c = conns[m - 1];
        assert(done.push(u).contains(c.from) <==> (done.contains(c.from) || c.from == u)) by {
            if c.from == u {
                assert(done.push(u)[done.len() as int] == u);
            }
            if done.push(u).contains(c.from) && c.from != u {
                let i = choose|i: int| 0 <= i < done.push(u).len() && done.push(u)[i] == c.from;
                assert(i < done.len());
                assert(done[i] == c.from);
            }
            if done.contains(c.from) {
                let i = choose|i: int| 0 <= i < done.len() && done[i] == c.from;
                assert(done.push(u)[i] == c.from);
            }
        }
    }
}

/// The connections from `u` to `v` are live while `u` is not finished.
proof fn lemma_edges_live(conns: Seq<Connection>, v: int, done: Seq<NodeId>, u: NodeId, m: int)
    requires
        0 <= m <= conns.len(),
        !done.contains(u),
    ensures
        edges_between(conns, u as int, v, m) <= live_in(conns, v, done, m),
    decreases m,
{
    if m > 0 {
        lemma_edges_live(conns, v, done, u, m - 1);
    }
}

/// No live connection into `v` means every connection into it comes from `done`.
proof fn lemma_live_zero(conns: Seq<Connection>, v: int, done: Seq<NodeId>, m: int)
    requires
        0 <= m <= conns.len(),
    ensures
        live_in(conns, v, done, m) == 0 <==>
            forall|j: int| 0 <= j < m && (#[trigger] conns[j]).to == v ==> done.contains(conns[j].from),
    decreases m,
{
    if m > 0 {
        lemma_live_zero(conns, v, done, m - 1);
    }
}

/// A list of distinct node ids below `n` has at most `n` entries.
proof fn lemma_distinct_ids_bound(s: Seq<NodeId>, n: int)
    requires
        0 <= n,
        s.no_duplicates(),
        forall|i: int| 0 <= i < s.len() ==> (#[trigger] s[i]) < n,
    ensures
        s.len() <= n,
{
    let t = s.map_values(|x: NodeId| x as int);
    assert(t.no_duplicates()) by {
        assert forall|i: int, j: int| 0 <= i < t.len() && 0 <= j < t.len() && i != j implies t[i] != t[j] by {
            assert(s[i] != s[j]);
        }
    }
    t.unique_seq_to_set();
    lemma_int_range(0, n);
    assert(t.to_set().subset_of(set_int_range(0, n))) by {
        assert forall|x: int| t.to_set().contains(x) implies set_int_range(0, n).contains(x) by {
            let i = choose|i: int| 0 <= i < t.len() && t[i] == x;
            assert(s[i] < n);
        }
    }
    lemma_len_subset(t.to_set(), set_int_range(0, n));
}

/// Order the nodes so that every node comes after the nodes connected into
/// it (Kahn's algorithm: nodes are taken as their last input is placed).
/// Nodes on a cycle, or fed by a connection from a node that does not
/// exist, are left out: the order holds exactly the nodes all of whose
/// inputs come from nodes placed before them.
pub fn topological_sort(graph: &AudioGraph) -> (r: Vec<NodeId>)
    requires
        graph.connections@.len() <= u32::MAX,
    ensures
        r@.no_duplicates(),
        forall|i: int| 0 <= i < r@.len() ==> (#[trigger] r@[i]) < graph.nodes@.len(),
        forall|i: int| 0 <= i < r@.len() ==> fed_by(graph.connections@, #[trigger] r@[i] as int, r@.take(i)),
        graph.nodes@.len() <= 65535 ==> forall|v: int|
            0 <= v < graph.nodes@.len() && fed_by(graph.connections@, v, r@) ==> r@.contains(v as NodeId),
{
    let n = graph.nodes.len();
    let ghost conns = graph.connections@;
    let ghost l = conns.len() as int;
    if n == 0 {
        let r: Vec<NodeId> = Vec::new();
        proof {
            assert(r@.no_duplicates());
        }
        return r;
    }
    // in-degree of every node
    let mut in_degree: Vec<u32> = Vec::new();
    while in_degree.len() < n
        invariant
            in_degree@.len() <= n,
            forall|v: int| 0 <= v < in_degree@.len() ==> #[trigger] in_degree@[v] == 0,
        decreases n - in_degree@.len(),
    {
        in_degree.push(0);
    }
    let mut k: usize = 0;
    while k < graph.connections.len()
        invariant
            n == graph.nodes@.len(),
            conns == graph.connections@,
            l == conns.len(),
            l <= u32::MAX,
            k <= l,
            in_degree@.len() == n,
            forall|v: int| 0 <= v < n ==> #[trigger] in_degree@[v] == live_in(conns, v, Seq::empty(), k as int),
        decreases l - k,
    {
        let to = graph.connections[k].to as usize;
        proof {
            assert forall|v: int| 0 <= v < n implies live_in(conns, v, Seq::empty(), k + 1)
                == live_in(conns, v, Seq::empty(), k as int) + if conns[k as int].to == v { 1nat } else { 0nat } by {
                assert(!Seq::<NodeId>::empty().contains(conns[k as int].from));
            }
        }
        if to < n {
            proof {
                lemma_live_bound(conns, to as int, Seq::empty(), k as int);
            }
            let d = in_degree[to];
            in_degree.set(to, d + 1);
        }
        k = k + 1;
    }
    // nodes without inputs
    // ids are 16 bits wide: only those below the node count taken to 16 bits are seeded
    let limit = n as NodeId;
    let lim = limit as usize;
    let mut queue: Vec<NodeId> = Vec::new();
    let mut id: usize = 0;
    while id < lim
        invariant
            n == graph.nodes@.len(),
            lim <= n,
            lim < 65536,
            conns == graph.connections@,
            l == conns.len(),
            id <= lim,
            in_degree@.len() == n,
            forall|v: int| 0 <= v < n ==> #[trigger] in_degree@[v] == live_in(conns, v, Seq::empty(), l),
            queue@.no_duplicates(),
            forall|i: int| 0 <= i < queue@.len() ==> (#[trigger] queue@[i]) < id,
            forall|i: int| 0 <= i < queue@.len() ==> in_degree@[#[trigger] queue@[i] as int] == 0,
            forall|v: int| 0 <= v < id && in_degree@[v] == 0 ==> queue@.contains(v as NodeId),
        decreases lim - id,
    {
        if in_degree[id] == 0 {
            let ghost q0 = queue@;
            queue.push(id as NodeId);
            proof {
                assert(queue@[q0.len() as int] == id as NodeId);
                assert forall|v: int| 0 <= v < id + 1 && in_degree@[v] == 0 implies queue@.contains(v as NodeId) by {
                    if v < id {
                        let i = choose|i: int| 0 <= i < q0.len() && q0[i] == v as NodeId;
                        assert(queue@[i] == v as NodeId);
                    }
                }
            }
        }
        id = id + 1;
    }
    let mut result: Vec<NodeId> = Vec::new();
    proof {
        assert forall|v: int| 0 <= v < n implies #[trigger] in_degree@[v] == live_in(conns, v, result@, l) by {
            assert(result@ =~= Seq::<NodeId>::empty());
        }
    }
    while queue.len() > 0
        invariant
            n == graph.nodes@.len(),
            lim <= n,
            n <= 65535 ==> lim == n,
            conns == graph.connections@,
            l == conns.len(),
            in_degree@.len() == n,
            forall|v: int| 0 <= v < n ==> #[trigger] in_degree@[v] == live_in(conns, v, result@, l),
            queue@.no_duplicates(),
            result@.no_duplicates(),
            forall|i: int| 0 <= i < queue@.len() ==> (#[trigger] queue@[i]) < n,
            forall|i: int| 0 <= i < result@.len() ==> (#[trigger] result@[i]) < n,
            forall|i: int, j: int| 0 <= i < queue@.len() && 0 <= j < result@.len() ==> queue@[i] != result@[j],
            forall|i: int| 0 <= i < queue@.len() ==> in_degree@[#[trigger] queue@[i] as int] == 0,
            forall|i: int| 0 <= i < result@.len() ==> in_degree@[#[trigger] result@[i] as int] == 0,
            forall|v: int| 0 <= v < n && in_degree@[v] == 0 && (v < lim || live_in(conns, v, Seq::empty(), l) > 0)
                ==> queue@.contains(v as NodeId) || result@.contains(v as NodeId),
            forall|i: int| 0 <= i < result@.len() ==> fed_by(conns, #[trigger] result@[i] as int, result@.take(i)),
        decreases n - result@.len(),
    {
        let ghost q0 = queue@;
        let ghost r0 = result@;
        let u = queue.pop().unwrap();
        proof {
            assert(q0 == queue@.push(u));
            assert(!r0.contains(u)) by {
                if r0.contains(u) {
                    let j = choose|j: int| 0 <= j < r0.len() && r0[j] == u;
                    assert(q0[q0.len() - 1] != r0[j]);
                }
            }
            lemma_live_zero(conns, u as int, r0, l);
        }
        result.push(u);
        proof {
            assert(result@ == r0.push(u));
            assert(result@.take(r0.len() as int) =~= r0);
            assert forall|i: int| 0 <= i < result@.len() implies fed_by(conns, #[trigger] result@[i] as int, result@.take(i)) by {
                if i < r0.len() {
                    assert(result@.take(i) =~= r0.take(i));
                }
            }
            lemma_distinct_ids_bound(result@, n as int);
            assert forall|v: int| 0 <= v < n && in_degree@[v] == 0 && (v < lim || live_in(conns, v, Seq::empty(), l) > 0)
                implies queue@.contains(v as NodeId) || result@.contains(v as NodeId) by {
                if r0.contains(v as NodeId) {
                    let i = choose|i: int| 0 <= i < r0.len() && r0[i] == v as NodeId;
                    assert(result@[i] == v as NodeId);
                } else {
                    let i = choose|i: int| 0 <= i < q0.len() && q0[i] == v as NodeId;
                    if i == q0.len() - 1 {
                        assert(result@[r0.len() as int] == v as NodeId);
                    } else {
                        assert(queue@[i] == v as NodeId);
                    }
                }
            }
        }
        let mut k: usize = 0;
        while k < graph.connections.len()
            invariant
                n == graph.nodes@.len(),
                lim <= n,
                n <= 65535 ==> lim == n,
                conns == graph.connections@,
                l == conns.len(),
                k <= l,
                in_degree@.len() == n,
                !r0.contains(u),
                result@ == r0.push(u),
                u < n,
                forall|v: int| 0 <= v < n ==> #[trigger] in_degree@[v] + edges_between(conns, u as int, v, k as int) == live_in(conns, v, r0, l),
                queue@.no_duplicates(),
                result@.no_duplicates(),
                forall|i: int| 0 <= i < queue@.len() ==> (#[trigger] queue@[i]) < n,
                forall|i: int| 0 <= i < result@.len() ==> (#[trigger] result@[i]) < n,
                forall|i: int, j: int| 0 <= i < queue@.len() && 0 <= j < result@.len() ==> queue@[i] != result@[j],
                forall|i: int| 0 <= i < queue@.len() ==> in_degree@[#[trigger] queue@[i] as int] == 0,
                forall|i: int| 0 <= i < result@.len() ==> in_degree@[#[trigger] result@[i] as int] == 0,
                forall|v: int| 0 <= v < n && in_degree@[v] == 0 && (v < lim || live_in(conns, v, Seq::empty(), l) > 0)
                ==> queue@.contains(v as NodeId) || result@.contains(v as NodeId),
                forall|i: int| 0 <= i < result@.len() ==> fed_by(conns, #[trigger] result@[i] as int, result@.take(i)),
            decreases l - k,
        {
            let c = graph.connections[k];
            proof {
                assert forall|v: int| 0 <= v < n implies edges_between(conns, u as int, v, k + 1)
                    == edges_between(conns, u as int, v, k as int) + if c.from == u && c.to == v { 1nat } else { 0nat } by {}
            }
            if c.from == u && (c.to as usize) < n {
                let to = c.to as usize;
                proof {
                    lemma_edges_live(conns, to as int, r0, u, k + 1);
                    lemma_live_bound(conns, to as int, r0, l);
                    lemma_live_below_fresh(conns, to as int, r0, l);
                    assert(live_in(conns, to as int, r0, k + 1) <= live_in(conns, to as int, r0, l)) by {
                        lemma_live_mono(conns, to as int, r0, k + 1, l);
                    }
                }
                let d = in_degree[to];
                let ghost q1 = queue@;
                proof {
                    // the node is still waiting for an input: neither queued nor placed
                    assert forall|i: int| 0 <= i < q1.len() implies q1[i] != c.to by {
                        assert(in_degree@[q1[i] as int] == 0);
                    }
                    assert forall|i: int| 0 <= i < result@.len() implies result@[i] != c.to by {
                        assert(in_degree@[result@[i] as int] == 0);
                    }
                }
                in_degree.set(to, d - 1);
                if d - 1 == 0 {
                    queue.push(c.to);
                    proof {
                        assert(queue@[q1.len() as int] == c.to);
                        assert forall|v: int| 0 <= v < n && in_degree@[v] == 0 && (v < lim || live_in(conns, v, Seq::empty(), l) > 0)
                implies queue@.contains(v as NodeId) || result@.contains(v as NodeId) by {
                            if v == to {
                                assert(queue@[q1.len() as int] == v as NodeId);
                            } else if q1.contains(v as NodeId) {
                                let i = choose|i: int| 0 <= i < q1.len() && q1[i] == v as NodeId;
                                assert(queue@[i] == v as NodeId);
                            }
                        }
                    }
                }
            }
            k = k + 1;
        }
        proof {
            assert forall|v: int| 0 <= v < n implies #[trigger] in_degree@[v] == live_in(conns, v, result@, l) by {
                lemma_live_push(conns, v, r0, u, l);
            }
        }
    }
    proof {
        assert forall|v: int| n <= 65535 && 0 <= v < n && fed_by(conns, v, result@) implies result@.contains(v as NodeId) by {
            lemma_live_zero(conns, v, result@, l);
            assert(in_degree@[v] == live_in(conns, v, result@, l));
            if !result@.contains(v as NodeId) {
                assert(queue@.contains(v as NodeId));
                let i = choose|i: int| 0 <= i < queue@.len() && queue@[i] == v as NodeId;
                assert(false);
            }
        }
    }
    result
}

proof fn lemma_live_mono(conns: Seq<Connection>, v: int, done: Seq<NodeId>, a: int, b: int)
    requires
        0 <= a <= b,
    ensures
        live_in(conns, v, done, a) <= live_in(conns, v, done, b),
    decreases b - a,
{
    if a < b {
        lemma_live_mono(conns, v, done, a, b - 1);
    }
}

/// Placing nodes can only take live connections away.
proof fn lemma_live_below_fresh(conns: Seq<Connection>, v: int, done: Seq<NodeId>, m: int)
    ensures
        live_in(conns, v, done, m) <= live_in(conns, v, Seq::empty(), m),
    decreases m,
{
    if m > 0 {
        lemma_live_below_fresh(conns, v, done, m - 1);
        assert(!Seq::<NodeId>::empty().contains(conns[m - 1].from));
    }
}

} // verus!
