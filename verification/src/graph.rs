//! Maximum flow (Edmonds–Karp: breadth-first augmenting paths over a residual graph) on a
//! directed network whose capacities are a [`Scalar`].
use vstd::prelude::*;

use crate::linalg_dense::{copy_row, rows_view};
use crate::scalar::{tiny, tiny_exec, Scalar};

verus! {

/// Errors of the graph algorithms.
#[derive(Debug, Clone, PartialEq, Eq)]
pub enum GraphError {
    /// The source equals the sink.
    SourceEqualsSink,
    /// A topological order was asked of a graph with a cycle.
    Cycle,
}

// ===========================================================================
// Networks
// ===========================================================================

/// A directed network: nodes `0 .. node_count` and its edges `(from, to, capacity)`, an
/// edge's index being its position.
#[derive(Clone, Debug)]
pub struct FlowNetwork<T> {
    nodes: usize,
    edges: Vec<(usize, usize, T)>,
}

impl<T: Copy> FlowNetwork<T> {
    /// The number of nodes.
    pub closed spec fn node_count_spec(&self) -> nat {
        self.nodes as nat
    }

    /// The edges, in index order.
    pub closed spec fn edges_spec(&self) -> Seq<(usize, usize, T)> {
        self.edges@
    }

    /// Every edge joins two nodes of the network.
    pub open spec fn well_formed(&self) -> bool {
        forall|e: int|
            0 <= e < self.edges_spec().len() ==> (#[trigger] self.edges_spec()[e]).0 < self.node_count_spec()
                && self.edges_spec()[e].1 < self.node_count_spec()
    }

    /// The empty network.
    pub fn new() -> (r: Self)
        ensures
            r.node_count_spec() == 0,
            r.edges_spec() == Seq::<(usize, usize, T)>::empty(),
            r.well_formed(),
    {
        FlowNetwork { nodes: 0, edges: Vec::new() }
    }

    /// Adds a node and returns its index (the node count must stay within `usize`).
    pub fn add_node(&mut self) -> (r: usize)
        requires
            old(self).node_count_spec() < usize::MAX,
        ensures
            r == old(self).node_count_spec(),
            final(self).node_count_spec() == old(self).node_count_spec() + 1,
            final(self).edges_spec() == old(self).edges_spec(),
            old(self).well_formed() ==> final(self).well_formed(),
    {
        let r = self.nodes;
        self.nodes = self.nodes + 1;
        proof {
            if old(self).well_formed() {
                assert forall|e: int| 0 <= e < self.edges_spec().len() implies (#[trigger] self.edges_spec()[e]).0
                    < self.node_count_spec() && self.edges_spec()[e].1 < self.node_count_spec() by {
                    assert(old(self).edges_spec()[e] == self.edges_spec()[e]);
                }
            }
        }
        r
    }

    /// Adds the edge `from -> to` with capacity `cap` and returns its index.
    pub fn add_edge(&mut self, from: usize, to: usize, cap: T) -> (r: usize)
        requires
            from < old(self).node_count_spec(),
            to < old(self).node_count_spec(),
        ensures
            r == old(self).edges_spec().len(),
            final(self).node_count_spec() == old(self).node_count_spec(),
            final(self).edges_spec() == old(self).edges_spec().push((from, to, cap)),
            old(self).well_formed() ==> final(self).well_formed(),
    {
        let r = self.edges.len();
        self.edges.push((from, to, cap));
        r
    }

    /// The number of nodes.
    pub fn node_count(&self) -> (r: usize)
        ensures
            r == self.node_count_spec(),
    {
        self.nodes
    }

    /// The number of edges.
    pub fn edge_count(&self) -> (r: usize)
        ensures
            r == self.edges_spec().len(),
    {
        self.edges.len()
    }

    /// The edges `(from, to, capacity)`, in index order.
    pub fn edges(&self) -> (r: &[(usize, usize, T)])
        ensures
            r@ == self.edges_spec(),
    {
        self.edges.as_slice()
    }
}

// ===========================================================================
// The residual graph
// ===========================================================================

/// An edge of the residual graph: its head, its remaining capacity and the index of its
/// reverse edge in the head's list.
#[derive(Clone, Copy, Debug)]
pub struct ResEdge<T> {
    pub to: usize,
    pub cap: T,
    pub rev: usize,
}

/// The residual graph (adjacency lists of `n` nodes) of the first `k` edges, with the
/// position `(node, index)` of each edge's forward residual edge: edge `(u, v, c)` adds
/// `v` with capacity `c` to `u`'s list and `u` with capacity zero to `v`'s, each naming the
/// other's index.
pub open spec fn residual_build<T: Scalar>(edges: Seq<(usize, usize, T)>, n: nat, k: int) -> (Seq<Seq<ResEdge<T>>>, Seq<(usize, usize)>)
    decreases k,
{
    if k <= 0 {
        (Seq::new(n, |i: int| Seq::empty()), Seq::empty())
    } else {
        let (res, fwd) = residual_build(edges, n, k - 1);
        let (u, v, c) = edges[k - 1];
        let f = res[u as int].len();
        let b = res[v as int].len();
        let res1 = res.update(u as int, res[u as int].push(ResEdge { to: v, cap: c, rev: b as usize }));
        let res2 = res1.update(v as int, res1[v as int].push(ResEdge { to: u, cap: T::zero_spec(), rev: f as usize }));
        (res2, fwd.push((u, f as usize)))
    }
}

/// The residual graph is closed: every edge's head is a node and its reverse index lies in
/// the head's list.
pub open spec fn residual_ok<T>(res: Seq<Seq<ResEdge<T>>>, n: nat) -> bool {
    &&& res.len() == n
    &&& forall|u: int, k: int|
        0 <= u < n && 0 <= k < res[u].len() ==> (#[trigger] res[u][k]).to < n && res[u][k].rev < res[res[u][k].to as int].len()
}

/// The forward positions name edges of the residual graph.
pub open spec fn forward_ok<T>(res: Seq<Seq<ResEdge<T>>>, fwd: Seq<(usize, usize)>, n: nat) -> bool {
    forall|e: int| 0 <= e < fwd.len() ==> (#[trigger] fwd[e]).0 < n && fwd[e].1 < res[fwd[e].0 as int].len()
}

/// Building keeps the residual graph closed and the forward positions valid, one per edge.
pub proof fn lemma_residual_build<T: Scalar>(edges: Seq<(usize, usize, T)>, n: nat, k: int)
    requires
        0 <= k <= edges.len(),
        forall|e: int| 0 <= e < edges.len() ==> (#[trigger] edges[e]).0 < n && edges[e].1 < n,
    ensures
        residual_ok(residual_build(edges, n, k).0, n),
        forward_ok(residual_build(edges, n, k).0, residual_build(edges, n, k).1, n),
        residual_build(edges, n, k).1.len() == k,
    decreases k,
{
    if k > 0 {
        lemma_residual_build(edges, n, k - 1);
        let (res, fwd) = residual_build(edges, n, k - 1);
        let (u, v, c) = edges[k - 1];
        let (res2, fwd2) = residual_build(edges, n, k);
        assert(edges[k - 1].0 < n && edges[k - 1].1 < n);
        assert forall|x: int, j: int| 0 <= x < n && 0 <= j < res2[x].len() implies (#[trigger] res2[x][j]).to < n
            && res2[x][j].rev < res2[res2[x][j].to as int].len() by {
            assert(res2[x].len() >= res[x].len());
            if j < res[x].len() {
                assert(res2[x][j] == res[x][j]);
                assert(res2[res[x][j].to as int].len() >= res[res[x][j].to as int].len());
            }
        }
        assert forall|e: int| 0 <= e < fwd2.len() implies (#[trigger] fwd2[e]).0 < n && fwd2[e].1 < res2[fwd2[e].0 as int].len() by {
            if e < fwd.len() {
                assert(res2[fwd[e].0 as int].len() >= res[fwd[e].0 as int].len());
            }
        }
    }
}

/// The residual graph of the network's edges (see [`residual_build`]).
fn build_residual<T: Scalar>(net: &FlowNetwork<T>) -> (r: (Vec<Vec<ResEdge<T>>>, Vec<(usize, usize)>))
    requires
        net.well_formed(),
    ensures
        (rows_view(r.0@), r.1@) == residual_build(net.edges_spec(), net.node_count_spec(), net.edges_spec().len() as int),
        r.0@.len() == net.node_count_spec(),
{
    let n = net.node_count();
    let edges = net.edges();
    let mut res: Vec<Vec<ResEdge<T>>> = Vec::new();
    for i in 0..n
        invariant
            res@.len() == i,
            forall|t: int| 0 <= t < i ==> (#[trigger] res@[t])@ == Seq::<ResEdge<T>>::empty(),
    {
        res.push(Vec::new());
    }
    assert(rows_view(res@) =~= residual_build(edges@, n as nat, 0).0);
    let mut fwd_of: Vec<(usize, usize)> = Vec::new();
    for e in 0..edges.len()
        invariant
            n == net.node_count_spec(),
            edges@ == net.edges_spec(),
            net.well_formed(),
            res@.len() == n,
            (rows_view(res@), fwd_of@) == residual_build(edges@, n as nat, e as int),
    {
        proof {
            lemma_residual_build(edges@, n as nat, e as int);
        }
        let (u, v, c) = edges[e];
        assert(edges@[e as int].0 < n && edges@[e as int].1 < n);
        let ghost before = rows_view(res@);
        let f = res[u].len();
        let b = res[v].len();
        let mut ru = copy_row(&res[u]);
        ru.push(ResEdge { to: v, cap: c, rev: b });
        res.set(u, ru);
        let ghost mid = rows_view(res@);
        assert(mid =~= before.update(u as int, before[u as int].push(ResEdge { to: v, cap: c, rev: b })));
        let mut rv = copy_row(&res[v]);
        rv.push(ResEdge { to: u, cap: T::zero(), rev: f });
        res.set(v, rv);
        assert(rows_view(res@) =~= mid.update(v as int, mid[v as int].push(ResEdge { to: u, cap: T::zero_spec(), rev: f })));
        fwd_of.push((u, f));
    }
    (res, fwd_of)
}

// ===========================================================================
// Breadth-first search for an augmenting path
// ===========================================================================

/// The search state: each node's parent (`usize::MAX` while unreached) and the index of the
/// residual edge it was reached by, the bottleneck capacity to it, the queue of reached
/// nodes in order, and whether the sink was reached.
pub struct BfsState<T> {
    pub parent: Seq<usize>,
    pub parent_edge: Seq<usize>,
    pub cap_to: Seq<T>,
    pub queue: Seq<usize>,
    pub found: bool,
}

/// The scan of `u`'s residual edges from index `ki`: an edge with capacity above `10^-12` to
/// an unreached node reaches it (its bottleneck being the edge's capacity out of the source,
/// else the smaller of `u`'s bottleneck and the capacity); reaching the sink ends the search,
/// any other node joins the queue.
pub open spec fn bfs_scan<T: Scalar>(res: Seq<Seq<ResEdge<T>>>, s: usize, t: usize, st: BfsState<T>, u: usize, ki: int) -> BfsState<T>
    decreases res[u as int].len() - ki,
{
    if ki < 0 || ki >= res[u as int].len() || st.found {
        st
    } else {
        let re = res[u as int][ki];
        if tiny::<T>().lt_spec(re.cap) && st.parent[re.to as int] == usize::MAX {
            let ct = if u == s {
                re.cap
            } else {
                st.cap_to[u as int].min_spec(re.cap)
            };
            let parent = st.parent.update(re.to as int, u);
            let parent_edge = st.parent_edge.update(re.to as int, ki as usize);
            let cap_to = st.cap_to.update(re.to as int, ct);
            if re.to == t {
                BfsState { parent, parent_edge, cap_to, queue: st.queue, found: true }
            } else {
                bfs_scan(res, s, t, BfsState { parent, parent_edge, cap_to, queue: st.queue.push(re.to), found: false }, u, ki + 1)
            }
        } else {
            bfs_scan(res, s, t, st, u, ki + 1)
        }
    }
}

/// The search from queue position `head` on: scan the queued nodes in order until the sink
/// is reached or the queue is exhausted (a queue never holds more than `n` nodes).
pub open spec fn bfs_from<T: Scalar>(res: Seq<Seq<ResEdge<T>>>, s: usize, t: usize, st: BfsState<T>, head: int, n: nat) -> BfsState<T>
    decreases n - head,
{
    if st.found || head < 0 || head >= st.queue.len() || head >= n {
        st
    } else {
        bfs_from(res, s, t, bfs_scan(res, s, t, st, st.queue[head], 0), head + 1, n)
    }
}

/// The starting state: only the source reached (its own parent), queued alone.
pub open spec fn bfs_start<T: Scalar>(n: nat, s: usize) -> BfsState<T> {
    BfsState {
        parent: Seq::new(n, |i: int| usize::MAX).update(s as int, s),
        parent_edge: Seq::new(n, |i: int| 0usize),
        cap_to: Seq::new(n, |i: int| T::zero_spec()),
        queue: seq![s],
        found: false,
    }
}

/// The breadth-first search from `s` for `t` in the residual graph `res` of `n` nodes.
pub open spec fn bfs<T: Scalar>(res: Seq<Seq<ResEdge<T>>>, s: usize, t: usize, n: nat) -> BfsState<T> {
    bfs_from(res, s, t, bfs_start(n, s), 0, n)
}

/// The number of unreached nodes among the first `k`.
pub open spec fn pending_count(p: Seq<usize>, k: int) -> nat
    decreases k,
{
    if k <= 0 {
        0
    } else {
        pending_count(p, k - 1) + if p[k - 1] == usize::MAX {
            1nat
        } else {
            0nat
        }
    }
}

/// Reaching node `j` lowers the count by one.
proof fn lemma_pending_update(p: Seq<usize>, j: int, v: usize, k: int)
    requires
        0 <= j < p.len(),
        0 <= k <= p.len(),
        p[j] == usize::MAX,
        v != usize::MAX,
    ensures
        pending_count(p.update(j, v), k) + (if j < k { 1nat } else { 0nat }) == pending_count(p, k),
    decreases k,
{
    if k > 0 {
        lemma_pending_update(p, j, v, k - 1);
    }
}

/// With nothing reached, every node counts.
proof fn lemma_pending_all(n: nat, k: int)
    requires
        0 <= k <= n,
    ensures
        pending_count(Seq::new(n, |i: int| usize::MAX), k) == k,
    decreases k,
{
    if k > 0 {
        lemma_pending_all(n, k - 1);
    }
}

/// The search tree: the source is its own parent; every other reached node has a reached
/// parent of smaller rank, reached along the residual edge `parent_edge` that leads to it.
pub open spec fn tree_ok<T>(res: Seq<Seq<ResEdge<T>>>, parent: Seq<usize>, parent_edge: Seq<usize>, rank: Seq<int>, s: usize, n: nat) -> bool {
    &&& parent.len() == n
    &&& parent_edge.len() == n
    &&& rank.len() == n
    &&& s < n
    &&& parent[s as int] == s
    &&& rank[s as int] == 0
    &&& forall|v: int|
        0 <= v < n && v != s && #[trigger] parent[v] != usize::MAX ==> {
            &&& parent[v] < n
            &&& parent[parent[v] as int] != usize::MAX
            &&& 0 <= rank[parent[v] as int] < rank[v]
            &&& parent_edge[v] < res[parent[v] as int].len()
            &&& res[parent[v] as int][parent_edge[v] as int].to == v
        }
}

/// The breadth-first search for `t` from `s` (see [`bfs`]), with the ranks of the search
/// tree it builds.
#[verifier::rlimit(40)]
fn bfs_exec<T: Scalar>(res: &Vec<Vec<ResEdge<T>>>, s: usize, t: usize) -> (r: (Vec<usize>, Vec<usize>, Vec<T>, Ghost<Seq<int>>))
    requires
        residual_ok(rows_view(res@), res@.len() as nat),
        s < res@.len(),
        t < res@.len(),
        s != t,
    ensures
        r.0@ == bfs(rows_view(res@), s, t, res@.len() as nat).parent,
        r.1@ == bfs(rows_view(res@), s, t, res@.len() as nat).parent_edge,
        r.2@ == bfs(rows_view(res@), s, t, res@.len() as nat).cap_to,
        r.2@.len() == res@.len(),
        tree_ok(rows_view(res@), r.0@, r.1@, r.3@, s, res@.len() as nat),
        r.0@[t as int] != usize::MAX ==> r.3@[t as int] < res@.len(),
{
    let n = res.len();
    let ghost rv = rows_view(res@);
    let eps = tiny_exec::<T>();
    let mut parent = filled_usize(n, usize::MAX);
    proof {
        lemma_pending_all(n as nat, n as int);
        lemma_pending_update(parent@, s as int, s, n as int);
    }
    parent.set(s, s);
    let mut parent_edge = filled_usize(n, 0);
    let mut cap_to: Vec<T> = Vec::new();
    for i in 0..n
        invariant
            cap_to@ == Seq::new(i as nat, |j: int| T::zero_spec()),
    {
        cap_to.push(T::zero());
        assert(cap_to@ =~= Seq::new((i + 1) as nat, |j: int| T::zero_spec()));
    }
    let mut queue: Vec<usize> = Vec::new();
    queue.push(s);
    let mut found = false;
    let mut head: usize = 0;
    let ghost mut rank: Seq<int> = Seq::new(n as nat, |i: int| 0int);
    let ghost spec = bfs(rv, s, t, n as nat);
    assert(BfsState { parent: parent@, parent_edge: parent_edge@, cap_to: cap_to@, queue: queue@, found } == bfs_start::<T>(n as nat, s)) by {
        assert(parent@ =~= Seq::new(n as nat, |i: int| usize::MAX).update(s as int, s));
        assert(queue@ =~= seq![s]);
    }
    while !found && head < queue.len()
        invariant
            n == res@.len(),
            rv == rows_view(res@),
            residual_ok(rv, n as nat),
            s < n,
            t < n,
            s != t,
            eps == tiny::<T>(),
            spec == bfs(rv, s, t, n as nat),
            parent@.len() == n,
            parent_edge@.len() == n,
            cap_to@.len() == n,
            rank.len() == n,
            head <= queue@.len(),
            queue@.len() + pending_count(parent@, n as int) + (if found { 1int } else { 0int }) == n,
            forall|i: int| 0 <= i < queue@.len() ==> (#[trigger] queue@[i]) < n && rank[queue@[i] as int] == i
                && parent@[queue@[i] as int] != usize::MAX,
            found ==> parent@[t as int] != usize::MAX && rank[t as int] == queue@.len(),
            !found ==> parent@[t as int] == usize::MAX,
            tree_ok(rv, parent@, parent_edge@, rank, s, n as nat),
            bfs_from(rv, s, t, BfsState { parent: parent@, parent_edge: parent_edge@, cap_to: cap_to@, queue: queue@, found }, head as int, n as nat) == spec,
        decreases n - head,
    {
        proof {
            lemma_pending_bound(parent@, n as int);
        }
        let u = queue[head];
        let ghost st0 = BfsState { parent: parent@, parent_edge: parent_edge@, cap_to: cap_to@, queue: queue@, found };
        let ghost scanned = bfs_scan(rv, s, t, st0, u, 0);
        let deg = res[u].len();
        let mut ki: usize = 0;
        while ki < deg && !found
            invariant
                n == res@.len(),
                rv == rows_view(res@),
                residual_ok(rv, n as nat),
                s < n,
                t < n,
                s != t,
                u < n,
                deg == rv[u as int].len(),
                eps == tiny::<T>(),
                head < queue@.len(),
                queue@[head as int] == u,
                parent@.len() == n,
                parent_edge@.len() == n,
                cap_to@.len() == n,
                rank.len() == n,
                rank[u as int] == head,
                parent@[u as int] != usize::MAX,
                queue@.len() + pending_count(parent@, n as int) + (if found { 1int } else { 0int }) == n,
                forall|i: int| 0 <= i < queue@.len() ==> (#[trigger] queue@[i]) < n && rank[queue@[i] as int] == i
                    && parent@[queue@[i] as int] != usize::MAX,
                found ==> parent@[t as int] != usize::MAX && rank[t as int] == queue@.len(),
                !found ==> parent@[t as int] == usize::MAX,
                tree_ok(rv, parent@, parent_edge@, rank, s, n as nat),
                bfs_scan(rv, s, t, BfsState { parent: parent@, parent_edge: parent_edge@, cap_to: cap_to@, queue: queue@, found }, u, ki as int) == scanned,
            decreases deg - ki,
        {
            let re = res[u][ki];
            assert(re == rv[u as int][ki as int]);
            if eps.lt(re.cap) && parent[re.to] == usize::MAX {
                let ct = if u == s {
                    re.cap
                } else {
                    cap_to[u].min(re.cap)
                };
                let to = re.to;
                proof {
                    lemma_pending_update(parent@, to as int, u, n as int);
                    lemma_pending_bound(parent@.update(to as int, u), n as int);
                }
                let ghost old_parent = parent@;
                parent.set(to, u);
                parent_edge.set(to, ki);
                cap_to.set(to, ct);
                proof {
                    rank = rank.update(to as int, queue@.len() as int);
                    assert forall|v: int| 0 <= v < n && v != s && #[trigger] parent@[v] != usize::MAX implies {
                        &&& parent@[v] < n
                        &&& parent@[parent@[v] as int] != usize::MAX
                        &&& 0 <= rank[parent@[v] as int] < rank[v]
                        &&& parent_edge@[v] < rv[parent@[v] as int].len()
                        &&& rv[parent@[v] as int][parent_edge@[v] as int].to == v
                    } by {
                        if v != to {
                            assert(old_parent[v] != usize::MAX);
                        }
                    }
                }
                if to == t {
                    found = true;
                } else {
                    queue.push(to);
                }
            }
            ki = ki + 1;
        }
        head = head + 1;
    }
    proof {
        lemma_pending_bound(parent@, n as int);
    }
    (parent, parent_edge, cap_to, Ghost(rank))
}

/// At most `k` of the first `k` nodes are unreached.
proof fn lemma_pending_bound(p: Seq<usize>, k: int)
    requires
        0 <= k <= p.len(),
    ensures
        pending_count(p, k) <= k,
    decreases k,
{
    if k > 0 {
        lemma_pending_bound(p, k - 1);
    }
}

/// `m` copies of `c`.
fn filled_usize(m: usize, c: usize) -> (r: Vec<usize>)
    ensures
        r@ == Seq::new(m as nat, |j: int| c),
{
    let mut out: Vec<usize> = Vec::new();
    for j in 0..m
        invariant
            out@ == Seq::new(j as nat, |t: int| c),
    {
        out.push(c);
        assert(out@ =~= Seq::new((j + 1) as nat, |t: int| c));
    }
    out
}

// ===========================================================================
// Augmentation and the flow loop
// ===========================================================================

/// `res` with the capacity of edge `k` of node `u` replaced by `cap`.
pub open spec fn with_cap<T>(res: Seq<Seq<ResEdge<T>>>, u: int, k: int, cap: T) -> Seq<Seq<ResEdge<T>>> {
    res.update(u, res[u].update(k, ResEdge { to: res[u][k].to, cap, rev: res[u][k].rev }))
}

/// Pushes `flow` back along the search tree from `v` to the source `s` (at most `fuel`
/// steps): each tree edge loses `flow` and its reverse edge gains it.
pub open spec fn augment<T: Scalar>(res: Seq<Seq<ResEdge<T>>>, parent: Seq<usize>, parent_edge: Seq<usize>, s: usize, v: usize, flow: T, fuel: int) -> Seq<Seq<ResEdge<T>>>
    decreases fuel,
{
    if v == s || fuel <= 0 {
        res
    } else {
        let u = parent[v as int];
        let k = parent_edge[v as int];
        let e = res[u as int][k as int];
        let res1 = with_cap(res, u as int, k as int, e.cap.minus_spec(flow));
        let rev = e.rev;
        let res2 = with_cap(res1, v as int, rev as int, res1[v as int][rev as int].cap.plus_spec(flow));
        augment(res2, parent, parent_edge, s, u, flow, fuel - 1)
    }
}

/// The same adjacency structure (heads and reverse indices), capacities aside.
pub open spec fn same_shape<T>(a: Seq<Seq<ResEdge<T>>>, b: Seq<Seq<ResEdge<T>>>) -> bool {
    &&& a.len() == b.len()
    &&& forall|u: int| 0 <= u < a.len() ==> (#[trigger] a[u]).len() == b[u].len()
    &&& forall|u: int, k: int| 0 <= u < a.len() && 0 <= k < a[u].len() ==> (#[trigger] a[u][k]).to == b[u][k].to && a[u][k].rev
        == b[u][k].rev
}

/// Changing a capacity keeps the shape.
proof fn lemma_with_cap_shape<T>(res: Seq<Seq<ResEdge<T>>>, u: int, k: int, cap: T)
    requires
        0 <= u < res.len(),
        0 <= k < res[u].len(),
    ensures
        same_shape(res, with_cap(res, u, k, cap)),
{
    let r2 = with_cap(res, u, k, cap);
    assert forall|x: int, j: int| 0 <= x < res.len() && 0 <= j < res[x].len() implies (#[trigger] res[x][j]).to
        == r2[x][j].to && res[x][j].rev == r2[x][j].rev by {
        if x == u && j == k {
        } else if x == u {
            assert(r2[x][j] == res[x][j]);
        }
    }
}

/// A graph of the same shape as a closed one is closed.
proof fn lemma_same_shape_ok<T>(a: Seq<Seq<ResEdge<T>>>, b: Seq<Seq<ResEdge<T>>>, n: nat)
    requires
        residual_ok(a, n),
        same_shape(a, b),
    ensures
        residual_ok(b, n),
{
    assert forall|u: int, k: int| 0 <= u < n && 0 <= k < b[u].len() implies (#[trigger] b[u][k]).to < n && b[u][k].rev
        < b[b[u][k].to as int].len() by {
        assert(a[u][k].to == b[u][k].to);
        assert(a[a[u][k].to as int].len() == b[b[u][k].to as int].len());
    }
}

/// Same shape is transitive.
proof fn lemma_same_shape_trans<T>(a: Seq<Seq<ResEdge<T>>>, b: Seq<Seq<ResEdge<T>>>, c: Seq<Seq<ResEdge<T>>>)
    requires
        same_shape(a, b),
        same_shape(b, c),
    ensures
        same_shape(a, c),
{
    assert forall|u: int, k: int| 0 <= u < a.len() && 0 <= k < a[u].len() implies (#[trigger] a[u][k]).to == c[u][k].to
        && a[u][k].rev == c[u][k].rev by {
        assert(b[u][k].to == c[u][k].to);
    }
}

/// Sets the capacity of edge `k` of node `u` (see [`with_cap`]).
fn set_cap<T: Scalar>(res: &mut Vec<Vec<ResEdge<T>>>, u: usize, k: usize, cap: T)
    requires
        u < old(res)@.len(),
        k < old(res)@[u as int]@.len(),
    ensures
        final(res)@.len() == old(res)@.len(),
        rows_view(final(res)@) == with_cap(rows_view(old(res)@), u as int, k as int, cap),
{
    let ghost before = rows_view(res@);
    let mut row = copy_row(&res[u]);
    let e = row[k];
    row.set(k, ResEdge { to: e.to, cap, rev: e.rev });
    res.set(u, row);
    assert(rows_view(res@) =~= with_cap(before, u as int, k as int, cap));
}

/// Pushes `flow` along the search tree from `t` back to `s` (see [`augment`]).
fn augment_exec<T: Scalar>(res: &mut Vec<Vec<ResEdge<T>>>, parent: &Vec<usize>, parent_edge: &Vec<usize>, s: usize, t: usize, flow: T, Ghost(rank): Ghost<Seq<int>>)
    requires
        residual_ok(rows_view(old(res)@), old(res)@.len() as nat),
        tree_ok(rows_view(old(res)@), parent@, parent_edge@, rank, s, old(res)@.len() as nat),
        t < old(res)@.len(),
        parent@[t as int] != usize::MAX,
        rank[t as int] < old(res)@.len(),
    ensures
        final(res)@.len() == old(res)@.len(),
        rows_view(final(res)@) == augment(rows_view(old(res)@), parent@, parent_edge@, s, t, flow, old(res)@.len() as int),
        same_shape(rows_view(old(res)@), rows_view(final(res)@)),
{
    let n = res.len();
    let ghost r0 = rows_view(res@);
    let ghost target = augment(r0, parent@, parent_edge@, s, t, flow, n as int);
    let mut v = t;
    let ghost mut fuel: int = n as int;
    assert(same_shape(r0, r0));
    while v != s
        invariant
            n == res@.len(),
            v < n,
            parent@[v as int] != usize::MAX,
            0 <= rank[v as int] < fuel,
            residual_ok(rows_view(res@), n as nat),
            same_shape(r0, rows_view(res@)),
            tree_ok(r0, parent@, parent_edge@, rank, s, n as nat),
            augment(rows_view(res@), parent@, parent_edge@, s, v, flow, fuel) == target,
        decreases rank[v as int],
    {
        let ghost cur = rows_view(res@);
        let u = parent[v];
        let k = parent_edge[v];
        assert(cur[u as int].len() == r0[u as int].len());
        assert(cur[u as int][k as int].to == r0[u as int][k as int].to);
        let e = res[u][k];
        set_cap(res, u, k, e.cap.minus(flow));
        proof {
            lemma_with_cap_shape(cur, u as int, k as int, e.cap.minus_spec(flow));
            lemma_same_shape_trans(r0, cur, rows_view(res@));
            lemma_same_shape_ok(cur, rows_view(res@), n as nat);
        }
        let ghost mid = rows_view(res@);
        let rev = res[u][k].rev;
        assert(rev == e.rev);
        assert(e.rev < cur[v as int].len());
        let back = res[v][rev].cap;
        set_cap(res, v, rev, back.plus(flow));
        proof {
            lemma_with_cap_shape(mid, v as int, rev as int, back.plus_spec(flow));
            lemma_same_shape_trans(r0, mid, rows_view(res@));
            lemma_same_shape_ok(mid, rows_view(res@), n as nat);
            fuel = fuel - 1;
        }
        v = u;
    }
}

/// The augmentations from iteration `it` on, at most `limit` in all: search for a path; if
/// the sink is unreached, stop; else push the path's bottleneck along it and add it to the
/// total.
pub open spec fn flow_run<T: Scalar>(res: Seq<Seq<ResEdge<T>>>, total: T, s: usize, t: usize, n: nat, it: int, limit: int) -> (Seq<Seq<ResEdge<T>>>, T)
    decreases limit - it,
{
    if it >= limit {
        (res, total)
    } else {
        let st = bfs(res, s, t, n);
        if st.parent[t as int] == usize::MAX {
            (res, total)
        } else {
            let flow = st.cap_to[t as int];
            flow_run(augment(res, st.parent, st.parent_edge, s, t, flow, n as int), total.plus_spec(flow), s, t, n, it + 1, limit)
        }
    }
}

/// The cap on augmentations, `n m + 1` (saturating at `usize::MAX`): Edmonds–Karp's
/// shortest augmenting paths need at most `n m`.
pub open spec fn augment_limit(n: nat, m: nat) -> int {
    if n * m < usize::MAX {
        (n * m + 1) as int
    } else {
        usize::MAX as int
    }
}

/// The result of a maximum-flow computation.
#[derive(Debug, Clone)]
pub struct MaxFlow<T> {
    /// The total flow from source to sink.
    pub value: T,
    /// The flow on each edge, by edge index.
    pub edge_flow: Vec<T>,
}

/// The maximum flow from `s` to `t` in the network with edges `edges` over `n` nodes: the
/// total of the augmentations, and on each edge its capacity minus what is left of it.
pub open spec fn max_flow_result<T: Scalar>(edges: Seq<(usize, usize, T)>, n: nat, s: usize, t: usize) -> (T, Seq<T>) {
    let m = edges.len();
    let (res0, fwd) = residual_build(edges, n, m as int);
    let (res, total) = flow_run(res0, T::zero_spec(), s, t, n, 0, augment_limit(n, m));
    (total, Seq::new(m, |e: int| edges[e].2.minus_spec(res[fwd[e].0 as int][fwd[e].1 as int].cap)))
}

/// The maximum flow from `source` to `sink` by Edmonds–Karp (see [`max_flow_result`]): an
/// error when they are the same node.
pub fn max_flow<T: Scalar>(net: &FlowNetwork<T>, source: usize, sink: usize) -> (r: Result<MaxFlow<T>, GraphError>)
    requires
        net.well_formed(),
        source != sink ==> source < net.node_count_spec() && sink < net.node_count_spec(),
    ensures
        source == sink ==> r == Err::<MaxFlow<T>, GraphError>(GraphError::SourceEqualsSink),
        source != sink ==> (r matches Ok(mf) && (mf.value, mf.edge_flow@) == max_flow_result(
            net.edges_spec(),
            net.node_count_spec(),
            source,
            sink,
        )),
{
    if source == sink {
        return Err(GraphError::SourceEqualsSink);
    }
    let n = net.node_count();
    let m = net.edge_count();
    let (mut res, fwd_of) = build_residual(net);
    proof {
        lemma_residual_build(net.edges_spec(), n as nat, m as int);
    }
    let ghost r0 = rows_view(res@);
    let limit: usize = match n.checked_mul(m) {
        Some(p) => if p < usize::MAX {
            p + 1
        } else {
            usize::MAX
        },
        None => usize::MAX,
    };
    assert(limit == augment_limit(n as nat, m as nat)) by (nonlinear_arith)
        requires
            limit == (if n * m <= usize::MAX { if n * m < usize::MAX { n * m + 1 } else { usize::MAX as int } } else { usize::MAX as int }),
    ;
    let ghost spec = flow_run(r0, T::zero_spec(), source, sink, n as nat, 0, limit as int);
    let mut total = T::zero();
    let mut it: usize = 0;
    let mut done = false;
    while it < limit && !done
        invariant
            n == res@.len(),
            source < n,
            sink < n,
            source != sink,
            residual_ok(rows_view(res@), n as nat),
            same_shape(r0, rows_view(res@)),
            done ==> spec == (rows_view(res@), total),
            !done ==> flow_run(rows_view(res@), total, source, sink, n as nat, it as int, limit as int) == spec,
        decreases limit - it,
    {
        let (parent, parent_edge, cap_to, rank) = bfs_exec(&res, source, sink);
        if parent[sink] == usize::MAX {
            done = true;
            it = it + 1;
            continue;
        }
        let flow = cap_to[sink];
        let ghost before = rows_view(res@);
        augment_exec(&mut res, &parent, &parent_edge, source, sink, flow, rank);
        proof {
            lemma_same_shape_trans(r0, before, rows_view(res@));
            lemma_same_shape_ok(before, rows_view(res@), n as nat);
        }
        total = total.plus(flow);
        it = it + 1;
    }
    let ghost rfin = rows_view(res@);
    assert(spec == (rfin, total));
    let edges = net.edges();
    let mut edge_flow: Vec<T> = Vec::new();
    for e in 0..m
        invariant
            m == edges@.len(),
            edges@ == net.edges_spec(),
            n == res@.len(),
            rfin == rows_view(res@),
            same_shape(r0, rfin),
            fwd_of@ == residual_build(net.edges_spec(), n as nat, m as int).1,
            forward_ok(r0, fwd_of@, n as nat),
            fwd_of@.len() == m,
            edge_flow@ == Seq::new(e as nat, |j: int| edges@[j].2.minus_spec(rfin[fwd_of@[j].0 as int][fwd_of@[j].1 as int].cap)),
    {
        let (ui, fi) = fwd_of[e];
        assert(fwd_of@[e as int].0 < n && fwd_of@[e as int].1 < r0[fwd_of@[e as int].0 as int].len());
        assert(rfin[ui as int].len() == r0[ui as int].len());
        edge_flow.push(edges[e].2.minus(res[ui][fi].cap));
        assert(edge_flow@ =~= Seq::new((e + 1) as nat, |j: int| edges@[j].2.minus_spec(rfin[fwd_of@[j].0 as int][fwd_of@[j].1 as int].cap)));
    }
    assert(spec == (rfin, total));
    Ok(MaxFlow { value: total, edge_flow })
}

// ===========================================================================
// A* search
// ===========================================================================

/// A search table: the best known cost of each node, its predecessor on that path, and the
/// estimate `cost + heuristic` of each open node.
pub type SearchTable<T> = (Seq<Option<T>>, Seq<Option<usize>>, Seq<Option<T>>);

/// What one expansion observes through the closures: whether the node is a goal, and for
/// each edge the heuristic value at its head (looked at only for an edge that lowers a cost).
pub type Expansion<T> = (bool, Seq<T>);

/// A known cost, or infinity for an unknown one.
pub open spec fn cost_or_infinity<T: Scalar>(c: Option<T>) -> T {
    match c {
        Some(x) => x,
        None => T::infinity_spec(),
    }
}

/// There is an edge from `a` to `b`.
pub open spec fn has_edge<T>(edges: Seq<(usize, usize, T)>, a: usize, b: usize) -> bool {
    exists|k: int| 0 <= k < edges.len() && (#[trigger] edges[k]).0 == a && edges[k].1 == b
}

/// The open node that the search expands, scanning from position `k` with the best
/// estimate so far `best` and its node `pick`: the first node whose estimate is strictly
/// below every earlier one, starting from infinity (`None` when no estimate is below
/// infinity).
pub open spec fn select_open<T: Scalar>(open: Seq<Option<T>>, k: int, best: T, pick: Option<usize>) -> Option<usize>
    decreases open.len() - k,
{
    if k >= open.len() {
        pick
    } else {
        match open[k] {
            Some(f) => if f.lt_spec(best) {
                select_open(open, k + 1, f, Some(k as usize))
            } else {
                select_open(open, k + 1, best, pick)
            },
            None => select_open(open, k + 1, best, pick),
        }
    }
}

/// The table after relaxing the first `k` edges out of the expanded node `u` of cost `gu`,
/// with the heuristic values `hs` (`None` when a value used is not one the heuristic can
/// give): an edge `u -> b` of weight `w` with `gu + w` below the known cost of `b` makes `u`
/// the predecessor of `b`, `gu + w` its cost and `gu + w + h(b)` its estimate.
pub open spec fn relax_edges<T: Scalar, H: Fn(usize) -> T>(
    edges: Seq<(usize, usize, T)>,
    heuristic: H,
    u: usize,
    gu: T,
    st: SearchTable<T>,
    hs: Seq<T>,
    k: int,
) -> Option<SearchTable<T>>
    decreases k,
{
    if k <= 0 {
        Some(st)
    } else {
        match relax_edges(edges, heuristic, u, gu, st, hs, k - 1) {
            None => None,
            Some(prev) => {
                let (a, b, w) = edges[k - 1];
                let tent = gu.plus_spec(w);
                if a != u || !tent.lt_spec(cost_or_infinity(prev.0[b as int])) {
                    Some(prev)
                } else if !heuristic.ensures((b,), hs[k - 1]) {
                    None
                } else {
                    Some(
                        (
                            prev.0.update(b as int, Some(tent)),
                            prev.1.update(b as int, Some(u)),
                            prev.2.update(b as int, Some(tent.plus_spec(hs[k - 1]))),
                        ),
                    )
                }
            },
        }
    }
}

/// The path from `start` to `cur` read back through the predecessors, with at most `fuel`
/// steps back (`None` when they run out: the predecessors then form a cycle); a node without
/// a predecessor starts the path.
pub open spec fn rebuild_path(came: Seq<Option<usize>>, start: usize, cur: usize, fuel: nat) -> Option<Seq<usize>>
    decreases fuel,
{
    if cur == start {
        Some(seq![cur])
    } else if fuel == 0 {
        None
    } else {
        match came[cur as int] {
            None => Some(seq![cur]),
            Some(p) => match rebuild_path(came, start, p, (fuel - 1) as nat) {
                None => None,
                Some(s) => Some(s.push(cur)),
            },
        }
    }
}

/// The initial table: cost zero at `start`, its estimate `h0`, nothing else known.
pub open spec fn initial_table<T: Scalar>(n: nat, start: usize, h0: T) -> SearchTable<T> {
    (
        Seq::new(n, |v: int| if v == start { Some(T::zero_spec()) } else { None }),
        Seq::new(n, |v: int| None),
        Seq::new(n, |v: int| if v == start { Some(h0) } else { None }),
    )
}

/// What the search returns from table `st` with `left` expansions allowed, for the
/// observations `obs` of its expansions (`None` when they do not fit a run): the selected
/// node (see [`select_open`]) leaves the open set; a goal gives its cost and the path read
/// back to `start` (see [`rebuild_path`]); otherwise its outgoing edges are relaxed (see
/// [`relax_edges`]). No selectable node, or no expansion left, gives `None`.
pub open spec fn astar_outcome<T: Scalar, F: Fn(usize) -> bool, H: Fn(usize) -> T>(
    edges: Seq<(usize, usize, T)>,
    n: nat,
    start: usize,
    is_goal: F,
    heuristic: H,
    st: SearchTable<T>,
    obs: Seq<Expansion<T>>,
    left: nat,
) -> Option<Option<(T, Seq<usize>)>>
    decreases left,
{
    if left == 0 {
        if obs.len() == 0 {
            Some(None)
        } else {
            None
        }
    } else {
        match select_open(st.2, 0, T::infinity_spec(), None) {
            None => if obs.len() == 0 {
                Some(None)
            } else {
                None
            },
            Some(u) => if obs.len() == 0 || !is_goal.ensures((u,), obs[0].0) {
                None
            } else {
                let st1 = (st.0, st.1, st.2.update(u as int, None));
                let gu = cost_or_infinity(st.0[u as int]);
                if obs[0].0 {
                    if obs.len() == 1 {
                        Some(
                            match rebuild_path(st.1, start, u, n) {
                                None => None,
                                Some(p) => Some((gu, p)),
                            },
                        )
                    } else {
                        None
                    }
                } else {
                    match relax_edges(edges, heuristic, u, gu, st1, obs[0].1, edges.len() as int) {
                        None => None,
                        Some(st2) => astar_outcome(
                            edges,
                            n,
                            start,
                            is_goal,
                            heuristic,
                            st2,
                            obs.drop_first(),
                            (left - 1) as nat,
                        ),
                    }
                }
            },
        }
    }
}

/// The result of a search as plain values.
pub open spec fn found_view<T>(r: Option<(T, Vec<usize>)>) -> Option<(T, Seq<usize>)> {
    match r {
        None => None,
        Some((c, p)) => Some((c, p@)),
    }
}

/// The table's shape and the facts that make every read-back path start at `start` and
/// follow edges: every node with a known cost other than `start` has a predecessor, every
/// open node has a known cost, and a predecessor is a node with a known cost joined to its
/// successor by an edge.
pub open spec fn table_ok<T>(edges: Seq<(usize, usize, T)>, n: nat, start: usize, st: SearchTable<T>) -> bool {
    &&& st.0.len() == n && st.1.len() == n && st.2.len() == n
    &&& start < n
    &&& st.0[start as int] is Some
    &&& forall|v: int| 0 <= v < n && v != start && (#[trigger] st.0[v]) is Some ==> st.1[v] is Some
    &&& forall|v: int| 0 <= v < n && (#[trigger] st.2[v]) is Some ==> st.0[v] is Some
    &&& forall|v: int|
        0 <= v < n && (#[trigger] st.1[v]) is Some ==> st.1[v]->0 < n && st.0[st.1[v]->0 as int] is Some
            && has_edge(edges, st.1[v]->0, v as usize)
}

/// The open node to expand (see [`select_open`]).
fn select<T: Scalar>(open: &Vec<Option<T>>) -> (r: Option<usize>)
    ensures
        r == select_open(open@, 0, T::infinity_spec(), None),
        r matches Some(u) ==> u < open@.len() && open@[u as int] is Some,
{
    let mut best = T::infinity();
    let mut pick: Option<usize> = None;
    for k in 0..open.len()
        invariant
            select_open(open@, 0, T::infinity_spec(), None) == select_open(open@, k as int, best, pick),
            pick matches Some(u) ==> u < k && open@[u as int] is Some,
    {
        match open[k] {
            Some(f) => {
                if f.lt(best) {
                    best = f;
                    pick = Some(k);
                }
            },
            None => {},
        }
    }
    pick
}

/// Reads the path back from `u` to `start` (see [`rebuild_path`] with `n` steps).
#[verifier::rlimit(60)]
fn rebuild<T>(edges: Ghost<Seq<(usize, usize, T)>>, came: &Vec<Option<usize>>, g: Ghost<Seq<Option<T>>>, start: usize, u: usize) -> (r: Option<Vec<usize>>)
    requires
        u < came@.len(),
        g@[u as int] is Some,
        table_ok(edges@, came@.len() as nat, start, (g@, came@, g@)),
    ensures
        match rebuild_path(came@, start, u, came@.len() as nat) {
            None => r is None,
            Some(p) => r matches Some(v) && v@ == p,
        },
        r matches Some(p) ==> p@.len() >= 1 && p@[0] == start && p@.last() == u && forall|i: int|
            0 <= i < p@.len() - 1 ==> has_edge(edges@, #[trigger] p@[i], p@[i + 1]),
{
    let n = came.len();
    let mut back: Vec<usize> = Vec::new();
    let mut cur = u;
    let mut fuel = n;
    while cur != start
        invariant
            n == came@.len(),
            cur < n,
            fuel <= n,
            g@[cur as int] is Some,
            table_ok(edges@, n as nat, start, (g@, came@, g@)),
            rebuild_path(came@, start, u, n as nat) == match rebuild_path(came@, start, cur, fuel as nat) {
                None => None,
                Some(s) => Some(s + back@.reverse()),
            },
            back@.len() == 0 ==> cur == u,
            back@.len() > 0 ==> back@[0] == u && came@[back@.last() as int] == Some(cur),
            forall|i: int| 0 <= i < back@.len() - 1 ==> came@[(#[trigger] back@[i]) as int] == Some(back@[i + 1]),
            forall|i: int| 0 <= i < back@.len() ==> (#[trigger] back@[i]) < n,
        decreases fuel,
    {
        if fuel == 0 {
            return None;
        }
        let p = match came[cur] {
            Some(p) => p,
            None => {
                assert(false);
                return None;
            },
        };
        proof {
            assert(back@.push(cur).reverse() =~= seq![cur] + back@.reverse());
            assert forall|s: Seq<usize>| #[trigger] (s.push(cur) + back@.reverse()) == s + back@.push(cur).reverse() by {
                assert(s.push(cur) + back@.reverse() =~= s + (seq![cur] + back@.reverse()));
            }
        }
        let ghost old_back = back@;
        back.push(cur);
        proof {
            assert forall|i: int| 0 <= i < back@.len() - 1 implies came@[(#[trigger] back@[i]) as int] == Some(back@[i + 1]) by {
                if i < old_back.len() - 1 {
                    assert(back@[i] == old_back[i] && back@[i + 1] == old_back[i + 1]);
                } else {
                    assert(back@[i] == old_back.last() && back@[i + 1] == cur);
                }
            }
        }
        cur = p;
        fuel = fuel - 1;
    }
    proof {
        assert(back@.push(cur).reverse() =~= seq![cur] + back@.reverse());
    }
    let ghost old_back = back@;
    back.push(cur);
    let ghost full = back@;
    proof {
        assert forall|i: int| 0 <= i < full.len() - 1 implies came@[(#[trigger] full[i]) as int] == Some(full[i + 1]) by {
            if i < old_back.len() - 1 {
                assert(full[i] == old_back[i] && full[i + 1] == old_back[i + 1]);
            } else {
                assert(full[i] == old_back.last() && full[i + 1] == cur);
            }
        }
        assert forall|i: int| 0 <= i < full.len() implies (#[trigger] full[i]) < n by {
            if i < old_back.len() {
                assert(full[i] == old_back[i]);
            }
        }
    }
    let m = back.len();
    let mut path: Vec<usize> = Vec::new();
    let mut j = m;
    while j > 0
        invariant
            m == back@.len(),
            full == back@,
            j <= m,
            path@ == full.reverse().take((m - j) as int),
        decreases j,
    {
        j = j - 1;
        path.push(back[j]);
        assert(path@ =~= full.reverse().take((m - j) as int));
    }
    assert(path@ =~= full.reverse());
    proof {
        let rv = full.reverse();
        assert(rv[0] == start);
        assert(rv.last() == full[0]);
        assert forall|i: int| 0 <= i < rv.len() - 1 implies has_edge(edges@, #[trigger] rv[i], rv[i + 1]) by {
            let q = m - 2 - i;
            assert(rv[i] == full[q + 1] && rv[i + 1] == full[q]);
            assert(came@[full[q] as int] == Some(full[q + 1]));
            assert(full[q] < n);
        }
    }
    Some(path)
}

/// The relaxation of the first `k` edges reads only the first `k` heuristic values.
proof fn lemma_relax_prefix<T: Scalar, H: Fn(usize) -> T>(
    edges: Seq<(usize, usize, T)>,
    heuristic: H,
    u: usize,
    gu: T,
    st: SearchTable<T>,
    hs1: Seq<T>,
    hs2: Seq<T>,
    k: int,
)
    requires
        k <= hs1.len(),
        k <= hs2.len(),
        forall|i: int| 0 <= i < k ==> hs1[i] == hs2[i],
    ensures
        relax_edges(edges, heuristic, u, gu, st, hs1, k) == relax_edges(edges, heuristic, u, gu, st, hs2, k),
    decreases k,
{
    if k > 0 {
        lemma_relax_prefix(edges, heuristic, u, gu, st, hs1, hs2, k - 1);
    }
}

/// One expansion of the search unfolded.
proof fn lemma_astar_unfold<T: Scalar, F: Fn(usize) -> bool, H: Fn(usize) -> T>(
    edges: Seq<(usize, usize, T)>,
    n: nat,
    start: usize,
    is_goal: F,
    heuristic: H,
    st: SearchTable<T>,
    u: usize,
    ob: Expansion<T>,
    rest: Seq<Expansion<T>>,
    left: nat,
)
    requires
        left > 0,
        select_open(st.2, 0, T::infinity_spec(), None) == Some(u),
        is_goal.ensures((u,), ob.0),
    ensures
        astar_outcome(edges, n, start, is_goal, heuristic, st, seq![ob] + rest, left) == if ob.0 {
            if rest.len() == 0 {
                Some(
                    match rebuild_path(st.1, start, u, n) {
                        None => None,
                        Some(p) => Some((cost_or_infinity(st.0[u as int]), p)),
                    },
                )
            } else {
                None
            }
        } else {
            match relax_edges(
                edges,
                heuristic,
                u,
                cost_or_infinity(st.0[u as int]),
                (st.0, st.1, st.2.update(u as int, None)),
                ob.1,
                edges.len() as int,
            ) {
                None => None,
                Some(st2) => astar_outcome(edges, n, start, is_goal, heuristic, st2, rest, (left - 1) as nat),
            }
        },
{
    assert((seq![ob] + rest).drop_first() =~= rest);
    assert((seq![ob] + rest)[0] == ob);
}

/// A* search on `net` from `start`, the capacities serving as edge costs and `heuristic` as
/// the estimate of the remaining cost: the open node of least estimate is expanded (the
/// first such by index); a goal (per `is_goal`) gives its cost and the path read back to
/// `start`; otherwise each outgoing edge that lowers a node's cost records the new cost, the
/// predecessor and the estimate (see [`astar_outcome`]). `None` when no open node is left
/// whose estimate is below infinity, or after `u64::MAX` expansions, or when the
/// predecessors form a cycle (possible only with negative costs). A `start` that is not a
/// node of `net` is a path of its own when it is a goal.
pub fn astar<T: Scalar, F: Fn(usize) -> bool, H: Fn(usize) -> T>(
    net: &FlowNetwork<T>,
    start: usize,
    is_goal: F,
    heuristic: H,
) -> (r: Option<(T, Vec<usize>)>)
    requires
        net.well_formed(),
        forall|v: usize| #[trigger] is_goal.requires((v,)),
        forall|v: usize| #[trigger] heuristic.requires((v,)),
    ensures
        start >= net.node_count_spec() ==> exists|b: bool|
            #[trigger] is_goal.ensures((start,), b) && found_view(r) == if b {
                Some((T::zero_spec(), seq![start]))
            } else {
                None
            },
        start < net.node_count_spec() ==> exists|h0: T, obs: Seq<Expansion<T>>|
            #![trigger astar_outcome(net.edges_spec(), net.node_count_spec(), start, is_goal, heuristic, initial_table(net.node_count_spec(), start, h0), obs, u64::MAX as nat)]
            heuristic.ensures((start,), h0) && astar_outcome(
                net.edges_spec(),
                net.node_count_spec(),
                start,
                is_goal,
                heuristic,
                initial_table(net.node_count_spec(), start, h0),
                obs,
                u64::MAX as nat,
            ) == Some(found_view(r)),
        r matches Some((c, p)) ==> p@.len() >= 1 && p@[0] == start && is_goal.ensures((p@.last(),), true) && forall|i: int|
            0 <= i < p@.len() - 1 ==> has_edge(net.edges_spec(), #[trigger] p@[i], p@[i + 1]),
{
    let n = net.node_count();
    if start >= n {
        let b = is_goal(start);
        if b {
            let mut p: Vec<usize> = Vec::new();
            p.push(start);
            assert(p@ =~= seq![start]);
            return Some((T::zero(), p));
        } else {
            return None;
        }
    }
    let edges = net.edges();
    let ghost es = edges@;
    let h0 = heuristic(start);
    let mut g: Vec<Option<T>> = Vec::new();
    let mut came: Vec<Option<usize>> = Vec::new();
    let mut open: Vec<Option<T>> = Vec::new();
    let ghost st0 = initial_table(n as nat, start, h0);
    for v in 0..n
        invariant
            g@ == st0.0.take(v as int),
            came@ == st0.1.take(v as int),
            open@ == st0.2.take(v as int),
            st0 == initial_table(n as nat, start, h0),
    {
        if v == start {
            g.push(Some(T::zero()));
            open.push(Some(h0));
        } else {
            g.push(None);
            open.push(None);
        }
        came.push(None);
        assert(g@ =~= st0.0.take(v + 1));
        assert(came@ =~= st0.1.take(v + 1));
        assert(open@ =~= st0.2.take(v + 1));
    }
    assert(g@ =~= st0.0 && came@ =~= st0.1 && open@ =~= st0.2);
    let ghost mut done: Seq<Expansion<T>> = Seq::empty();
    assert forall|rest: Seq<Expansion<T>>| #[trigger]
        astar_outcome(es, n as nat, start, is_goal, heuristic, st0, done + rest, u64::MAX as nat) == astar_outcome(
            es,
            n as nat,
            start,
            is_goal,
            heuristic,
            (g@, came@, open@),
            rest,
            u64::MAX as nat,
        ) by {
        assert(done + rest =~= rest);
    }
    let mut attempts: u64 = 0;
    while attempts < u64::MAX
        invariant
            n == net.node_count_spec(),
            es == net.edges_spec(),
            edges@ == es,
            net.well_formed(),
            forall|v: usize| #[trigger] is_goal.requires((v,)),
            forall|v: usize| #[trigger] heuristic.requires((v,)),
            heuristic.ensures((start,), h0),
            st0 == initial_table(n as nat, start, h0),
            table_ok(es, n as nat, start, (g@, came@, open@)),
            forall|rest: Seq<Expansion<T>>| #[trigger]
                astar_outcome(es, n as nat, start, is_goal, heuristic, st0, done + rest, u64::MAX as nat)
                    == astar_outcome(
                    es,
                    n as nat,
                    start,
                    is_goal,
                    heuristic,
                    (g@, came@, open@),
                    rest,
                    (u64::MAX - attempts) as nat,
                ),
        decreases u64::MAX - attempts,
    {
        let ghost st: SearchTable<T> = (g@, came@, open@);
        let u = match select(&open) {
            Some(u) => u,
            None => {
                proof {
                    let e = Seq::<Expansion<T>>::empty();
                    assert(done + e =~= done);
                    assert(astar_outcome(es, n as nat, start, is_goal, heuristic, st, e, (u64::MAX - attempts) as nat)
                        == Some(None::<(T, Seq<usize>)>));
                    assert(astar_outcome(es, n as nat, start, is_goal, heuristic, st0, done + e, u64::MAX as nat)
                        == Some(None::<(T, Seq<usize>)>));
                    assert(astar_outcome(es, n as nat, start, is_goal, heuristic, st0, done, u64::MAX as nat)
                        == Some(None::<(T, Seq<usize>)>));
                }
                return None;
            },
        };
        let goal = is_goal(u);
        let gu = match g[u] {
            Some(x) => x,
            None => T::infinity(),
        };
        if goal {
            let path = rebuild::<T>(Ghost(es), &came, Ghost(g@), start, u);
            let r = match path {
                None => None,
                Some(p) => Some((gu, p)),
            };
            proof {
                let ob: Expansion<T> = (true, Seq::empty());
                lemma_astar_unfold(es, n as nat, start, is_goal, heuristic, st, u, ob, Seq::empty(), (u64::MAX - attempts) as nat);
                assert(done + seq![ob] =~= done.push(ob));
                assert(astar_outcome(es, n as nat, start, is_goal, heuristic, st0, done + seq![ob], u64::MAX as nat) == Some(found_view(r)));
            }
            return r;
        }
        open.set(u, None);
        let ghost st1: SearchTable<T> = (g@, came@, open@);
        let ghost mut hs: Seq<T> = Seq::empty();
        for k in 0..edges.len()
            invariant
                n == net.node_count_spec(),
                es == net.edges_spec(),
                edges@ == es,
                net.well_formed(),
                u < n,
                forall|v: usize| #[trigger] heuristic.requires((v,)),
                st1.0.len() == n,
                hs.len() == k,
                relax_edges(es, heuristic, u, gu, st1, hs, k as int) == Some((g@, came@, open@)),
                table_ok(es, n as nat, start, (g@, came@, open@)),
                g@[u as int] is Some,
        {
            let (a, b, w) = edges[k];
            let ghost hs_old = hs;
            let ghost before: SearchTable<T> = (g@, came@, open@);
            assert(es[k as int] == (a, b, w));
            if a == u {
                let tent = gu.plus(w);
                let vg = match g[b] {
                    Some(x) => x,
                    None => T::infinity(),
                };
                if tent.lt(vg) {
                    let hb = heuristic(b);
                    g.set(b, Some(tent));
                    came.set(b, Some(u));
                    open.set(b, Some(tent.plus(hb)));
                    proof {
                        hs = hs.push(hb);
                        assert(has_edge(es, u, b));
                    }
                } else {
                    proof {
                        hs = hs.push(gu);
                    }
                }
            } else {
                proof {
                    hs = hs.push(gu);
                }
            }
            proof {
                lemma_relax_prefix(es, heuristic, u, gu, st1, hs_old, hs, k as int);
                assert((g@, came@, open@) == before || (g@ =~= before.0.update(b as int, Some(gu.plus_spec(w)))
                    && came@ =~= before.1.update(b as int, Some(u)) && open@ =~= before.2.update(
                    b as int,
                    Some(gu.plus_spec(w).plus_spec(hs[k as int])),
                )));
            }
        }
        proof {
            let ob: Expansion<T> = (false, hs);
            assert(st1 == (st.0, st.1, st.2.update(u as int, None)));
            assert(gu == cost_or_infinity(st.0[u as int]));
            lemma_astar_unfold(es, n as nat, start, is_goal, heuristic, st, u, ob, Seq::empty(), (u64::MAX - attempts) as nat);
            assert forall|rest: Seq<Expansion<T>>| #[trigger]
                astar_outcome(es, n as nat, start, is_goal, heuristic, st0, done.push(ob) + rest, u64::MAX as nat)
                    == astar_outcome(
                    es,
                    n as nat,
                    start,
                    is_goal,
                    heuristic,
                    (g@, came@, open@),
                    rest,
                    (u64::MAX - attempts - 1) as nat,
                ) by {
                assert(done.push(ob) + rest =~= done + (seq![ob] + rest));
                lemma_astar_unfold(es, n as nat, start, is_goal, heuristic, st, u, ob, rest, (u64::MAX - attempts) as nat);
            }
            done = done.push(ob);
        }
        attempts = attempts + 1;
    }
    proof {
        let e = Seq::<Expansion<T>>::empty();
        assert(done + e =~= done);
        assert(astar_outcome(es, n as nat, start, is_goal, heuristic, (g@, came@, open@), e, 0) == Some(None::<(T, Seq<usize>)>));
        assert(astar_outcome(es, n as nat, start, is_goal, heuristic, st0, done + e, u64::MAX as nat)
            == Some(None::<(T, Seq<usize>)>));
        assert(astar_outcome(es, n as nat, start, is_goal, heuristic, st0, done, u64::MAX as nat)
            == Some(None::<(T, Seq<usize>)>));
    }
    None
}

} // verus!
