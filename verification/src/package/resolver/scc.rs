//! Tarjan's algorithm for the strongly connected components of the
//! dependency graph, over node indices.
use vstd::prelude::*;

verus! {

/// Number of unvisited nodes (discovery time 0).
pub open spec fn unvisited(disc: Seq<i32>) -> nat
    decreases disc.len(),
{
    if disc.len() == 0 {
        0
    } else {
        unvisited(disc.drop_last()) + if disc.last() == 0 {
            1nat
        } else {
            0nat
        }
    }
}

proof fn lemma_unvisited_bound(disc: Seq<i32>)
    ensures
        unvisited(disc) <= disc.len(),
    decreases disc.len(),
{
    if disc.len() > 0 {
        lemma_unvisited_bound(disc.drop_last());
    }
}

/// Marking an unvisited node visited leaves one fewer unvisited node.
proof fn lemma_unvisited_visit(disc: Seq<i32>, v: int, t: i32)
    requires
        0 <= v < disc.len(),
        disc[v] == 0,
        t != 0,
    ensures
        unvisited(disc.update(v, t)) + 1 == unvisited(disc),
    decreases disc.len(),
{
    if v < disc.len() - 1 {
        assert(disc.update(v, t).drop_last() =~= disc.drop_last().update(v, t));
        lemma_unvisited_visit(disc.drop_last(), v, t);
    } else {
        assert(disc.update(v, t).drop_last() =~= disc.drop_last());
    }
}

/// When no node becomes unvisited, there are no more unvisited nodes.
proof fn lemma_unvisited_mono(a: Seq<i32>, b: Seq<i32>)
    requires
        a.len() == b.len(),
        forall|i: int| 0 <= i < a.len() && a[i] != 0 ==> b[i] != 0,
    ensures
        unvisited(b) <= unvisited(a),
    decreases a.len(),
{
    if a.len() > 0 {
        lemma_unvisited_mono(a.drop_last(), b.drop_last());
    }
}

/// All components, one after the other.
pub open spec fn flat(s: Seq<Vec<usize>>) -> Seq<usize>
    decreases s.len(),
{
    if s.len() == 0 {
        Seq::empty()
    } else {
        flat(s.drop_last()) + s.last()@
    }
}

/// The shape of the search state.
pub open spec fn search_wf(
    n: nat,
    adj: Seq<Vec<usize>>,
    disc: Seq<i32>,
    low: Seq<i32>,
    on_stack: Seq<bool>,
    stack: Seq<usize>,
    time: i32,
    sccs: Seq<Vec<usize>>,
) -> bool {
    &&& adj.len() == n
    &&& forall|v: int, j: int| 0 <= v < n && 0 <= j < adj[v]@.len() ==> #[trigger] adj[v]@[j] < n
    &&& disc.len() == n && low.len() == n && on_stack.len() == n
    &&& 0 <= time && time as int + unvisited(disc) == n
    &&& stack.no_duplicates()
    &&& forall|i: int| 0 <= i < stack.len() ==> #[trigger] stack[i] < n && disc[stack[i] as int] != 0
        && on_stack[stack[i] as int]
    &&& forall|x: int| 0 <= x < n && on_stack[x] ==> stack.contains(x as usize)
    &&& flat(sccs).no_duplicates()
    &&& forall|i: int| 0 <= i < flat(sccs).len() ==> #[trigger] flat(sccs)[i] < n && !on_stack[flat(sccs)[i] as int]
        && disc[flat(sccs)[i] as int] != 0
    &&& forall|i: int| 0 <= i < sccs.len() ==> #[trigger] sccs[i]@.len() >= 2
}

proof fn lemma_flat_push(s: Seq<Vec<usize>>, c: Vec<usize>)
    ensures
        flat(s.push(c)) == flat(s) + c@,
{
    assert(s.push(c).drop_last() =~= s);
}

/// `b` is one of the edges of `a`.
pub open spec fn edge(adj: Seq<Vec<usize>>, a: usize, b: usize) -> bool {
    a < adj.len() && adj[a as int]@.contains(b)
}

/// A walk along the edges of the graph.
pub open spec fn is_walk(adj: Seq<Vec<usize>>, p: Seq<usize>) -> bool {
    p.len() >= 1 && forall|i: int| 0 <= i < p.len() - 1 ==> #[trigger] edge(adj, p[i], p[i + 1])
}

/// Node `b` can be reached from node `a` (every node reaches itself).
pub open spec fn reaches(adj: Seq<Vec<usize>>, a: usize, b: usize) -> bool {
    exists|p: Seq<usize>| #[trigger] is_walk(adj, p) && p[0] == a && p.last() == b
}

pub proof fn lemma_reaches_refl(adj: Seq<Vec<usize>>, a: usize)
    ensures
        reaches(adj, a, a),
{
    let p = seq![a];
    assert(is_walk(adj, p));
}

/// An edge followed by a walk is a walk.
pub proof fn lemma_reaches_step(adj: Seq<Vec<usize>>, a: usize, b: usize, c: usize)
    requires
        edge(adj, a, b),
        reaches(adj, b, c),
    ensures
        reaches(adj, a, c),
{
    let p = choose|p: Seq<usize>| #[trigger] is_walk(adj, p) && p[0] == b && p.last() == c;
    let q = seq![a] + p;
    assert forall|i: int| 0 <= i < q.len() - 1 implies #[trigger] edge(adj, q[i], q[i + 1]) by {
        if i == 0 {
            assert(q[1] == p[0]);
        } else {
            assert(q[i] == p[i - 1]);
            assert(q[i + 1] == p[i]);
            assert(edge(adj, p[i - 1], p[(i - 1) + 1]));
        }
    }
    assert(is_walk(adj, q));
    assert(q.last() == p.last());
}

/// Walks join: what `b` reaches, whatever reaches `b` reaches.
pub proof fn lemma_reaches_trans(adj: Seq<Vec<usize>>, a: usize, b: usize, c: usize)
    requires
        reaches(adj, a, b),
        reaches(adj, b, c),
    ensures
        reaches(adj, a, c),
{
    let p = choose|p: Seq<usize>| #[trigger] is_walk(adj, p) && p[0] == a && p.last() == b;
    let q = choose|q: Seq<usize>| #[trigger] is_walk(adj, q) && q[0] == b && q.last() == c;
    let w = p + q.drop_first();
    assert forall|i: int| 0 <= i < w.len() - 1 implies #[trigger] edge(adj, w[i], w[i + 1]) by {
        if i < p.len() - 1 {
            assert(w[i] == p[i]);
            assert(w[i + 1] == p[i + 1]);
        } else if i == p.len() - 1 {
            assert(w[i] == p.last());
            assert(w[i + 1] == q[1]);
            assert(edge(adj, q[0], q[0int + 1]));
        } else {
            let j = i - p.len() + 1;
            assert(w[i] == q[j]);
            assert(w[i + 1] == q[j + 1]);
        }
    }
    assert(is_walk(adj, w));
    if q.len() == 1 {
        assert(w =~= p);
    } else {
        assert(w.last() == q.last());
    }
}

/// The nodes on the stack have increasing discovery times.
pub open spec fn sorted_disc(disc: Seq<i32>, stack: Seq<usize>) -> bool {
    forall|i: int, j: int| 0 <= i < j < stack.len() ==> disc[#[trigger] stack[i] as int] < disc[#[trigger] stack[j] as int]
}

/// The node at position `k` of the stack, at or below position `i`, has the
/// discovery time that is the low link of the node at `i`, and the node at
/// `i` reaches it.
pub open spec fn low_at(adj: Seq<Vec<usize>>, disc: Seq<i32>, low: Seq<i32>, stack: Seq<usize>, i: int, k: int) -> bool {
    &&& 0 <= k <= i
    &&& disc[stack[k] as int] == low[stack[i] as int]
    &&& reaches(adj, stack[i], stack[k])
}

pub open spec fn low_ok(adj: Seq<Vec<usize>>, disc: Seq<i32>, low: Seq<i32>, stack: Seq<usize>, i: int) -> bool {
    &&& low[stack[i] as int] <= disc[stack[i] as int]
    &&& exists|k: int| #[trigger] low_at(adj, disc, low, stack, i, k)
}

/// The low links of the nodes on the stack.
pub open spec fn low_inv(adj: Seq<Vec<usize>>, disc: Seq<i32>, low: Seq<i32>, stack: Seq<usize>) -> bool {
    &&& sorted_disc(disc, stack)
    &&& forall|i: int| 0 <= i < stack.len() ==> #[trigger] low_ok(adj, disc, low, stack, i)
}

/// Every node on the stack reaches `v`.
pub open spec fn reach_all(adj: Seq<Vec<usize>>, stack: Seq<usize>, v: usize) -> bool {
    forall|i: int| 0 <= i < stack.len() ==> reaches(adj, #[trigger] stack[i], v)
}

/// Discovery times are at most the clock.
pub open spec fn time_inv(disc: Seq<i32>, time: i32) -> bool {
    forall|x: int| 0 <= x < disc.len() ==> 0 <= #[trigger] disc[x] <= time
}

proof fn lemma_low_inv_prefix(adj: Seq<Vec<usize>>, disc: Seq<i32>, low: Seq<i32>, s: Seq<usize>, m: int)
    requires
        low_inv(adj, disc, low, s),
        0 <= m <= s.len(),
    ensures
        low_inv(adj, disc, low, s.subrange(0, m)),
{
    let t = s.subrange(0, m);
    assert forall|i: int, j: int| 0 <= i < j < t.len() implies disc[#[trigger] t[i] as int] < disc[#[trigger] t[j] as int] by {
        assert(t[i] == s[i] && t[j] == s[j]);
        assert(disc[s[i] as int] < disc[s[j] as int]);
    }
    assert forall|i: int| 0 <= i < t.len() implies #[trigger] low_ok(adj, disc, low, t, i) by {
        assert(low_ok(adj, disc, low, s, i));
        let k = choose|k: int| #[trigger] low_at(adj, disc, low, s, i, k);
        assert(t[i] == s[i] && t[k] == s[k]);
        assert(low_at(adj, disc, low, t, i, k));
    }
}

proof fn lemma_low_inv_frame(
    adj: Seq<Vec<usize>>,
    disc: Seq<i32>,
    low: Seq<i32>,
    disc2: Seq<i32>,
    low2: Seq<i32>,
    s: Seq<usize>,
)
    requires
        low_inv(adj, disc, low, s),
        forall|i: int| 0 <= i < s.len() ==> disc2[#[trigger] s[i] as int] == disc[s[i] as int] && low2[s[i] as int]
            == low[s[i] as int],
    ensures
        low_inv(adj, disc2, low2, s),
{
    assert forall|i: int, j: int| 0 <= i < j < s.len() implies disc2[#[trigger] s[i] as int] < disc2[#[trigger] s[j] as int] by {
        assert(disc[s[i] as int] < disc[s[j] as int]);
    }
    assert forall|i: int| 0 <= i < s.len() implies #[trigger] low_ok(adj, disc2, low2, s, i) by {
        assert(low_ok(adj, disc, low, s, i));
        let k = choose|k: int| #[trigger] low_at(adj, disc, low, s, i, k);
        assert(disc2[s[k] as int] == disc[s[k] as int]);
        assert(low_at(adj, disc2, low2, s, i, k));
    }
}

proof fn lemma_low_inv_push(adj: Seq<Vec<usize>>, disc: Seq<i32>, low: Seq<i32>, s: Seq<usize>, v: usize)
    requires
        low_inv(adj, disc, low, s),
        forall|i: int| 0 <= i < s.len() ==> disc[#[trigger] s[i] as int] < disc[v as int],
        low[v as int] == disc[v as int],
    ensures
        low_inv(adj, disc, low, s.push(v)),
{
    let t = s.push(v);
    assert forall|i: int, j: int| 0 <= i < j < t.len() implies disc[#[trigger] t[i] as int] < disc[#[trigger] t[j] as int] by {
        assert(t[i] == s[i]);
        if j < s.len() {
            assert(t[j] == s[j]);
            assert(disc[s[i] as int] < disc[s[j] as int]);
        }
    }
    assert forall|i: int| 0 <= i < t.len() implies #[trigger] low_ok(adj, disc, low, t, i) by {
        if i < s.len() {
            assert(low_ok(adj, disc, low, s, i));
            let k = choose|k: int| #[trigger] low_at(adj, disc, low, s, i, k);
            assert(t[i] == s[i] && t[k] == s[k]);
            assert(low_at(adj, disc, low, t, i, k));
        } else {
            lemma_reaches_refl(adj, v);
            assert(low_at(adj, disc, low, t, i, i));
        }
    }
}

/// Lowering the low link of the node at `b` to the discovery time of a node
/// at or below it that it reaches keeps the low links right.
proof fn lemma_low_update(adj: Seq<Vec<usize>>, disc: Seq<i32>, low: Seq<i32>, s: Seq<usize>, b: int, nv: i32, k: int)
    requires
        low_inv(adj, disc, low, s),
        s.no_duplicates(),
        0 <= k <= b < s.len(),
        nv <= disc[s[b] as int],
        disc[s[k] as int] == nv,
        reaches(adj, s[b], s[k]),
        forall|i: int| 0 <= i < s.len() ==> 0 <= #[trigger] s[i] < low.len(),
    ensures
        low_inv(adj, disc, low.update(s[b] as int, nv), s),
{
    let low2 = low.update(s[b] as int, nv);
    assert forall|i: int| 0 <= i < s.len() implies #[trigger] low_ok(adj, disc, low2, s, i) by {
        if i == b {
            assert(low_at(adj, disc, low2, s, i, k));
        } else {
            assert(s[i] != s[b]);
            assert(low_ok(adj, disc, low, s, i));
            let kk = choose|kk: int| #[trigger] low_at(adj, disc, low, s, i, kk);
            assert(low_at(adj, disc, low2, s, i, kk));
        }
    }
}

/// Each node of each component reaches the component's last node.
pub open spec fn comps_back(adj: Seq<Vec<usize>>, sccs: Seq<Vec<usize>>) -> bool {
    forall|i: int, m: int|
        0 <= i < sccs.len() && 0 <= m < sccs[i]@.len() ==> reaches(adj, #[trigger] sccs[i]@[m], sccs[i]@.last())
}

/// A node whose component was closed: visited and off the stack.
pub open spec fn popped(disc: Seq<i32>, on_stack: Seq<bool>, x: int) -> bool {
    disc[x] != 0 && !on_stack[x]
}

/// The search is done with the edges of `x`: each leads to a visited node,
/// and a node still on the stack that it leads to was discovered no
/// earlier than `x`'s low link.
pub open spec fn edges_done(adj: Seq<Vec<usize>>, disc: Seq<i32>, low: Seq<i32>, on_stack: Seq<bool>, x: usize) -> bool {
    forall|j: int|
        0 <= j < adj[x as int]@.len() ==> disc[#[trigger] adj[x as int]@[j] as int] != 0 && (on_stack[adj[x as int]@[j] as int]
            ==> low[x as int] <= disc[adj[x as int]@[j] as int])
}

/// Every edge out of a closed component leads to a closed component.
pub open spec fn closed(adj: Seq<Vec<usize>>, disc: Seq<i32>, on_stack: Seq<bool>) -> bool {
    forall|x: int, j: int|
        0 <= x < adj.len() && popped(disc, on_stack, x) && 0 <= j < adj[x]@.len() ==> popped(
            disc,
            on_stack,
            #[trigger] adj[x]@[j] as int,
        )
}

/// Every closed node that lies on a cycle with another node is in one of
/// the components kept.
pub open spec fn complete(adj: Seq<Vec<usize>>, disc: Seq<i32>, on_stack: Seq<bool>, sccs: Seq<Vec<usize>>) -> bool {
    forall|x: usize, y: usize|
        x < adj.len() && popped(disc, on_stack, x as int) && x != y && #[trigger] reaches(adj, x, y) && #[trigger] reaches(
            adj,
            y,
            x,
        ) ==> flat(sccs).contains(x)
}

/// Every closed node and each node it lies on a cycle with are in one
/// component kept.
pub open spec fn together(adj: Seq<Vec<usize>>, disc: Seq<i32>, on_stack: Seq<bool>, sccs: Seq<Vec<usize>>) -> bool {
    forall|x: usize, y: usize|
        x < adj.len() && popped(disc, on_stack, x as int) && x != y && #[trigger] reaches(adj, x, y) && #[trigger] reaches(
            adj,
            y,
            x,
        ) ==> exists|i: int| 0 <= i < sccs.len() && (#[trigger] sccs[i]@).contains(x) && sccs[i]@.contains(y)
}

/// What a closed node reaches is closed.
proof fn lemma_closed_walk(adj: Seq<Vec<usize>>, disc: Seq<i32>, on_stack: Seq<bool>, x: usize, y: usize)
    requires
        closed(adj, disc, on_stack),
        x < adj.len(),
        forall|v: int, j: int| 0 <= v < adj.len() && 0 <= j < adj[v]@.len() ==> #[trigger] adj[v]@[j] < adj.len(),
        popped(disc, on_stack, x as int),
        reaches(adj, x, y),
    ensures
        popped(disc, on_stack, y as int),
{
    let p = choose|p: Seq<usize>| #[trigger] is_walk(adj, p) && p[0] == x && p.last() == y;
    lemma_closed_walk_from(adj, disc, on_stack, p, 0);
}

proof fn lemma_closed_walk_from(adj: Seq<Vec<usize>>, disc: Seq<i32>, on_stack: Seq<bool>, p: Seq<usize>, i: int)
    requires
        closed(adj, disc, on_stack),
        forall|v: int, j: int| 0 <= v < adj.len() && 0 <= j < adj[v]@.len() ==> #[trigger] adj[v]@[j] < adj.len(),
        is_walk(adj, p),
        0 <= i < p.len(),
        p[i] < adj.len(),
        popped(disc, on_stack, p[i] as int),
    ensures
        popped(disc, on_stack, p.last() as int),
    decreases p.len() - i,
{
    if i < p.len() - 1 {
        assert(edge(adj, p[i], p[i + 1]));
        let j = choose|j: int| 0 <= j < adj[p[i] as int]@.len() && adj[p[i] as int]@[j] == p[i + 1];
        assert(popped(disc, on_stack, adj[p[i] as int]@[j] as int));
        lemma_closed_walk_from(adj, disc, on_stack, p, i + 1);
    }
}

proof fn lemma_edges_done_stable(
    adj: Seq<Vec<usize>>,
    disc: Seq<i32>,
    low: Seq<i32>,
    os: Seq<bool>,
    disc2: Seq<i32>,
    low2: Seq<i32>,
    os2: Seq<bool>,
    x: usize,
)
    requires
        edges_done(adj, disc, low, os, x),
        x < adj.len(),
        forall|v: int, j: int| 0 <= v < adj.len() && 0 <= j < adj[v]@.len() ==> #[trigger] adj[v]@[j] < adj.len(),
        low2[x as int] == low[x as int],
        forall|y: int| 0 <= y < adj.len() && disc[y] != 0 ==> #[trigger] disc2[y] == disc[y],
        forall|y: int| 0 <= y < adj.len() && disc[y] != 0 && #[trigger] os2[y] ==> os[y],
    ensures
        edges_done(adj, disc2, low2, os2, x),
{
    assert forall|j: int| 0 <= j < adj[x as int]@.len() implies disc2[#[trigger] adj[x as int]@[j] as int] != 0 && (
    os2[adj[x as int]@[j] as int] ==> low2[x as int] <= disc2[adj[x as int]@[j] as int]) by {
        let y = adj[x as int]@[j] as int;
        assert(disc[y] != 0);
        assert(disc2[y] == disc[y]);
    }
}

/// What one step of the edge loop of `v` (along its edge to `w`) keeps.
pub open spec fn iter_ok(
    adj: Seq<Vec<usize>>,
    v: usize,
    w: usize,
    disc_s: Seq<i32>,
    os_s: Seq<bool>,
    low_s: Seq<i32>,
    stack_s: Seq<usize>,
    disc: Seq<i32>,
    os: Seq<bool>,
    low: Seq<i32>,
    stack: Seq<usize>,
) -> bool {
    &&& forall|y: int| 0 <= y < adj.len() && disc_s[y] != 0 ==> #[trigger] disc[y] == disc_s[y]
    &&& forall|y: int| 0 <= y < adj.len() && disc_s[y] != 0 && #[trigger] os[y] ==> os_s[y]
    &&& low[v as int] <= low_s[v as int]
    &&& forall|i: int|
        0 <= i < stack_s.len() && stack_s[i] != v ==> low[#[trigger] stack_s[i] as int] == low_s[stack_s[i] as int]
    &&& stack_s.len() <= stack.len()
    &&& forall|i: int| 0 <= i < stack_s.len() ==> #[trigger] stack[i] == stack_s[i]
    &&& forall|i: int| stack_s.len() <= i < stack.len() ==> edges_done(adj, disc, low, os, #[trigger] stack[i])
    &&& disc[w as int] != 0 && (os[w as int] ==> low[v as int] <= disc[w as int])
}

proof fn lemma_iter_step(
    adj: Seq<Vec<usize>>,
    v: usize,
    w: usize,
    j: int,
    base: int,
    disc_s: Seq<i32>,
    os_s: Seq<bool>,
    low_s: Seq<i32>,
    stack_s: Seq<usize>,
    disc: Seq<i32>,
    os: Seq<bool>,
    low: Seq<i32>,
    stack: Seq<usize>,
)
    requires
        forall|x: int, k: int| 0 <= x < adj.len() && 0 <= k < adj[x]@.len() ==> #[trigger] adj[x]@[k] < adj.len(),
        v < adj.len(),
        0 <= j < adj[v as int]@.len(),
        w == adj[v as int]@[j],
        iter_ok(adj, v, w, disc_s, os_s, low_s, stack_s, disc, os, low, stack),
        forall|jj: int|
            0 <= jj < j ==> disc_s[#[trigger] adj[v as int]@[jj] as int] != 0 && (os_s[adj[v as int]@[jj] as int]
                ==> low_s[v as int] <= disc_s[adj[v as int]@[jj] as int]),
        forall|i: int| base < i < stack_s.len() ==> edges_done(adj, disc_s, low_s, os_s, #[trigger] stack_s[i]),
        stack_s.no_duplicates(),
        0 <= base < stack_s.len(),
        stack_s[base] == v,
        forall|i: int| 0 <= i < stack_s.len() ==> #[trigger] stack_s[i] < adj.len(),
    ensures
        forall|jj: int|
            0 <= jj < j + 1 ==> disc[#[trigger] adj[v as int]@[jj] as int] != 0 && (os[adj[v as int]@[jj] as int] ==> low[v as int]
                <= disc[adj[v as int]@[jj] as int]),
        forall|i: int| base < i < stack.len() ==> edges_done(adj, disc, low, os, #[trigger] stack[i]),
{
    assert forall|jj: int| 0 <= jj < j + 1 implies disc[#[trigger] adj[v as int]@[jj] as int] != 0 && (os[adj[v as int]@[jj] as int]
        ==> low[v as int] <= disc[adj[v as int]@[jj] as int]) by {
        if jj < j {
            let y = adj[v as int]@[jj] as int;
            assert(disc_s[y] != 0);
            assert(disc[y] == disc_s[y]);
        }
    }
    assert forall|i: int| base < i < stack.len() implies edges_done(adj, disc, low, os, #[trigger] stack[i]) by {
        if i < stack_s.len() {
            assert(stack[i] == stack_s[i]);
            assert(stack_s[i] != stack_s[base]);
            assert(low[stack_s[i] as int] == low_s[stack_s[i] as int]);
            assert(edges_done(adj, disc_s, low_s, os_s, stack_s[i]));
            lemma_edges_done_stable(adj, disc_s, low_s, os_s, disc, low, os, stack_s[i]);
        }
    }
}

proof fn lemma_reach_bound(adj: Seq<Vec<usize>>, x: usize, y: usize)
    requires
        x < adj.len(),
        forall|v: int, j: int| 0 <= v < adj.len() && 0 <= j < adj[v]@.len() ==> #[trigger] adj[v]@[j] < adj.len(),
        reaches(adj, x, y),
    ensures
        y < adj.len(),
{
    let p = choose|p: Seq<usize>| #[trigger] is_walk(adj, p) && p[0] == x && p.last() == y;
    if p.len() > 1 {
        let i = p.len() - 2;
        assert(edge(adj, p[i], p[i + 1]));
        let j = choose|j: int| 0 <= j < adj[p[i] as int]@.len() && adj[p[i] as int]@[j] == p[i + 1];
        assert(adj[p[i] as int]@[j] < adj.len());
    }
}

/// Closing the component on the stack from `base` up keeps every edge out
/// of a closed node pointing at a closed node.
proof fn lemma_pop_closed(
    adj: Seq<Vec<usize>>,
    disc: Seq<i32>,
    low: Seq<i32>,
    os_e: Seq<bool>,
    os2: Seq<bool>,
    full: Seq<usize>,
    base: int,
    v: usize,
)
    requires
        forall|x: int, k: int| 0 <= x < adj.len() && 0 <= k < adj[x]@.len() ==> #[trigger] adj[x]@[k] < adj.len(),
        disc.len() == adj.len() && os_e.len() == adj.len() && os2.len() == adj.len(),
        adj.len() <= usize::MAX,
        closed(adj, disc, os_e),
        sorted_disc(disc, full),
        0 <= base < full.len(),
        full[base] == v,
        forall|i: int| 0 <= i < full.len() ==> #[trigger] full[i] < adj.len() && os_e[full[i] as int] && disc[full[i] as int] != 0,
        forall|x: int| 0 <= x < adj.len() && #[trigger] os_e[x] ==> full.contains(x as usize),
        forall|i: int|
            base <= i < full.len() ==> edges_done(adj, disc, low, os_e, #[trigger] full[i]) && low[full[i] as int] >= disc[v as int],
        forall|x: int|
            0 <= x < adj.len() ==> (full.subrange(base, full.len() as int).contains(x as usize) ==> !#[trigger] os2[x]) && (
            !full.subrange(base, full.len() as int).contains(x as usize) ==> os2[x] == os_e[x]),
    ensures
        closed(adj, disc, os2),
{
    let seg = full.subrange(base, full.len() as int);
    assert forall|x: int, jj: int| 0 <= x < adj.len() && popped(disc, os2, x) && 0 <= jj < adj[x]@.len() implies popped(
        disc,
        os2,
        #[trigger] adj[x]@[jj] as int,
    ) by {
        let y = adj[x]@[jj] as int;
        if seg.contains(x as usize) {
            let i = choose|i: int| 0 <= i < seg.len() && seg[i] == x as usize;
            let xu = full[base + i];
            assert(xu == x as usize);
            assert(xu as int == x);
            assert(edges_done(adj, disc, low, os_e, xu));
            assert(adj[xu as int]@[jj] as int == y);
            assert(disc[adj[xu as int]@[jj] as int] != 0);
            assert(disc[y] != 0);
            if os_e[y] {
                assert(low[xu as int] <= disc[adj[xu as int]@[jj] as int]);
                assert(low[x] <= disc[y]);
                assert(full.contains(y as usize));
                let q = choose|q: int| 0 <= q < full.len() && full[q] == y as usize;
                if q < base {
                    assert(disc[full[q] as int] < disc[full[base] as int]);
                }
                assert(seg[q - base] == y as usize);
            } else {
                if seg.contains(y as usize) {
                    let m = choose|m: int| 0 <= m < seg.len() && seg[m] == y as usize;
                    assert(full[base + m] == y as usize);
                }
            }
        } else {
            assert(popped(disc, os_e, x));
            assert(popped(disc, os_e, y));
            if seg.contains(y as usize) {
                let m = choose|m: int| 0 <= m < seg.len() && seg[m] == y as usize;
                assert(full[base + m] == y as usize);
            }
        }
    }
}

/// Closing the component on the stack from `base` up, and keeping it when
/// it has more than one node, keeps every closed node that lies on a cycle
/// among the components kept.
proof fn lemma_pop_complete(
    adj: Seq<Vec<usize>>,
    disc: Seq<i32>,
    os_e: Seq<bool>,
    os2: Seq<bool>,
    full: Seq<usize>,
    base: int,
    sccs_pre: Seq<Vec<usize>>,
    sccs2: Seq<Vec<usize>>,
    c: Seq<usize>,
    pushed: bool,
)
    requires
        forall|x: int, k: int| 0 <= x < adj.len() && 0 <= k < adj[x]@.len() ==> #[trigger] adj[x]@[k] < adj.len(),
        disc.len() == adj.len() && os_e.len() == adj.len() && os2.len() == adj.len(),
        closed(adj, disc, os_e),
        closed(adj, disc, os2),
        complete(adj, disc, os_e, sccs_pre),
        0 <= base < full.len(),
        forall|i: int| 0 <= i < full.len() ==> #[trigger] full[i] < adj.len() && os_e[full[i] as int] && disc[full[i] as int] != 0,
        forall|x: int|
            0 <= x < adj.len() ==> (full.subrange(base, full.len() as int).contains(x as usize) ==> !#[trigger] os2[x]) && (
            !full.subrange(base, full.len() as int).contains(x as usize) ==> os2[x] == os_e[x]),
        pushed == (full.len() - base > 1),
        pushed ==> sccs2 == sccs_pre.push(sccs2.last()) && sccs2.last()@ == c && c == full.subrange(base, full.len() as int).reverse(),
        !pushed ==> sccs2 == sccs_pre,
    ensures
        complete(adj, disc, os2, sccs2),
{
    let seg = full.subrange(base, full.len() as int);
    if pushed {
        lemma_flat_push(sccs_pre, sccs2.last());
    }
    assert forall|x: usize, y: usize|
        x < adj.len() && popped(disc, os2, x as int) && x != y && #[trigger] reaches(adj, x, y) && #[trigger] reaches(adj, y, x)
        implies flat(sccs2).contains(x) by {
        lemma_reach_bound(adj, x, y);
        if seg.contains(x) {
            let i = choose|i: int| 0 <= i < seg.len() && seg[i] == x;
            assert(full[base + i] == x);
            lemma_closed_walk(adj, disc, os2, x, y);
            if popped(disc, os_e, y as int) {
                lemma_closed_walk(adj, disc, os_e, y, x);
            }
            assert(seg.contains(y));
            let m = choose|m: int| 0 <= m < seg.len() && seg[m] == y;
            assert(i != m);
            assert(pushed);
            assert(c[seg.len() - 1 - i] == seg[i]);
            assert(flat(sccs2)[flat(sccs_pre).len() + seg.len() - 1 - i] == x);
        } else {
            assert(popped(disc, os_e, x as int));
            assert(flat(sccs_pre).contains(x));
            if pushed {
                let k = choose|k: int| 0 <= k < flat(sccs_pre).len() && flat(sccs_pre)[k] == x;
                assert(flat(sccs2)[k] == x);
            }
        }
    }
}

/// Closing the component on the stack from `base` up, and keeping it when
/// it has more than one node, keeps each closed node in one component with
/// the nodes it lies on a cycle with.
proof fn lemma_pop_together(
    adj: Seq<Vec<usize>>,
    disc: Seq<i32>,
    os_e: Seq<bool>,
    os2: Seq<bool>,
    full: Seq<usize>,
    base: int,
    sccs_pre: Seq<Vec<usize>>,
    sccs2: Seq<Vec<usize>>,
    c: Seq<usize>,
    pushed: bool,
)
    requires
        forall|x: int, k: int| 0 <= x < adj.len() && 0 <= k < adj[x]@.len() ==> #[trigger] adj[x]@[k] < adj.len(),
        disc.len() == adj.len() && os_e.len() == adj.len() && os2.len() == adj.len(),
        closed(adj, disc, os_e),
        closed(adj, disc, os2),
        together(adj, disc, os_e, sccs_pre),
        0 <= base < full.len(),
        forall|i: int| 0 <= i < full.len() ==> #[trigger] full[i] < adj.len() && os_e[full[i] as int] && disc[full[i] as int] != 0,
        forall|x: int|
            0 <= x < adj.len() ==> (full.subrange(base, full.len() as int).contains(x as usize) ==> !#[trigger] os2[x]) && (
            !full.subrange(base, full.len() as int).contains(x as usize) ==> os2[x] == os_e[x]),
        pushed == (full.len() - base > 1),
        pushed ==> sccs2 == sccs_pre.push(sccs2.last()) && sccs2.last()@ == c && c == full.subrange(base, full.len() as int).reverse(),
        !pushed ==> sccs2 == sccs_pre,
    ensures
        together(adj, disc, os2, sccs2),
{
    let seg = full.subrange(base, full.len() as int);
    assert forall|x: usize, y: usize|
        x < adj.len() && popped(disc, os2, x as int) && x != y && #[trigger] reaches(adj, x, y) && #[trigger] reaches(adj, y, x)
        implies exists|i: int| 0 <= i < sccs2.len() && (#[trigger] sccs2[i]@).contains(x) && sccs2[i]@.contains(y) by {
        lemma_reach_bound(adj, x, y);
        if seg.contains(x) {
            let i = choose|i: int| 0 <= i < seg.len() && seg[i] == x;
            assert(full[base + i] == x);
            lemma_closed_walk(adj, disc, os2, x, y);
            if popped(disc, os_e, y as int) {
                lemma_closed_walk(adj, disc, os_e, y, x);
            }
            assert(seg.contains(y));
            let m = choose|m: int| 0 <= m < seg.len() && seg[m] == y;
            assert(i != m);
            assert(pushed);
            let last = sccs2.len() - 1;
            assert(sccs2[last]@ == c);
            assert(c[seg.len() - 1 - i] == x);
            assert(c[seg.len() - 1 - m] == y);
            assert(sccs2[last]@.contains(x) && sccs2[last]@.contains(y));
        } else {
            assert(popped(disc, os_e, x as int));
            let k = choose|k: int| 0 <= k < sccs_pre.len() && (#[trigger] sccs_pre[k]@).contains(x) && sccs_pre[k]@.contains(y);
            assert(sccs2[k] == sccs_pre[k]);
        }
    }
}

/// Each component is reached, node by node, from its last node.
pub open spec fn comps_rooted(adj: Seq<Vec<usize>>, sccs: Seq<Vec<usize>>) -> bool {
    forall|i: int, m: int|
        0 <= i < sccs.len() && 0 <= m < sccs[i]@.len() ==> reaches(adj, sccs[i]@.last(), #[trigger] sccs[i]@[m])
}

/// Visits `v` and everything reachable from it that is unvisited, adding
/// the components it closes to `sccs`.
fn strongconnect(
    v: usize,
    adj: &Vec<Vec<usize>>,
    disc: &mut Vec<i32>,
    low: &mut Vec<i32>,
    on_stack: &mut Vec<bool>,
    stack: &mut Vec<usize>,
    time: &mut i32,
    sccs: &mut Vec<Vec<usize>>,
)
    requires
        v < adj@.len() < i32::MAX,
        old(disc)@[v as int] == 0,
        search_wf(adj@.len(), adj@, old(disc)@, old(low)@, old(on_stack)@, old(stack)@, *old(time), old(sccs)@),
        comps_rooted(adj@, old(sccs)@),
        comps_back(adj@, old(sccs)@),
        low_inv(adj@, old(disc)@, old(low)@, old(stack)@),
        time_inv(old(disc)@, *old(time)),
        reach_all(adj@, old(stack)@, v),
        closed(adj@, old(disc)@, old(on_stack)@),
        complete(adj@, old(disc)@, old(on_stack)@, old(sccs)@),
        together(adj@, old(disc)@, old(on_stack)@, old(sccs)@),
    ensures
        closed(adj@, final(disc)@, final(on_stack)@),
        complete(adj@, final(disc)@, final(on_stack)@, final(sccs)@),
        together(adj@, final(disc)@, final(on_stack)@, final(sccs)@),
        forall|y: int|
            0 <= y < adj@.len() && popped(old(disc)@, old(on_stack)@, y) ==> #[trigger] popped(final(disc)@, final(on_stack)@, y),
        forall|i: int|
            old(stack)@.len() <= i < final(stack)@.len() ==> edges_done(
                adj@,
                final(disc)@,
                final(low)@,
                final(on_stack)@,
                #[trigger] final(stack)@[i],
            ),
        forall|i: int|
            old(stack)@.len() <= i < final(stack)@.len() ==> final(low)@[#[trigger] final(stack)@[i] as int] >= final(low)@[v as int],
        search_wf(adj@.len(), adj@, final(disc)@, final(low)@, final(on_stack)@, final(stack)@, *final(time), final(sccs)@),
        comps_rooted(adj@, final(sccs)@),
        comps_back(adj@, final(sccs)@),
        low_inv(adj@, final(disc)@, final(low)@, final(stack)@),
        time_inv(final(disc)@, *final(time)),
        final(disc)@[v as int] == *old(time) + 1,
        forall|i: int| 0 <= i < adj@.len() && old(disc)@[i] != 0 ==> #[trigger] final(disc)@[i] == old(disc)@[i],
        forall|i: int|
            0 <= i < old(stack)@.len() ==> final(low)@[#[trigger] old(stack)@[i] as int] == old(low)@[old(stack)@[i] as int],
        reach_all(adj@, final(stack)@, v),
        final(low)@[v as int] == final(disc)@[v as int] ==> final(stack)@ == old(stack)@,
        final(low)@[v as int] != final(disc)@[v as int] ==> final(stack)@.len() > old(stack)@.len()
            && final(stack)@[old(stack)@.len() as int] == v,
        forall|i: int| old(stack)@.len() <= i < final(stack)@.len() ==> reaches(adj@, v, #[trigger] final(stack)@[i]),
        final(disc)@[v as int] != 0,
        forall|i: int| 0 <= i < adj@.len() && old(disc)@[i] != 0 ==> final(disc)@[i] != 0,
        unvisited(final(disc)@) < unvisited(old(disc)@),
        old(stack)@.len() <= final(stack)@.len(),
        final(stack)@.subrange(0, old(stack)@.len() as int) == old(stack)@,
        old(sccs)@.len() <= final(sccs)@.len(),
        final(sccs)@.subrange(0, old(sccs)@.len() as int) == old(sccs)@,
    decreases unvisited(old(disc)@),
{
    let ghost n = adj@.len();
    let ghost disc0 = disc@;
    let ghost low0 = low@;
    let ghost os0 = on_stack@;
    let ghost time0 = *time;
    let ghost stack0 = stack@;
    let ghost sccs0 = sccs@;
    proof {
        lemma_unvisited_visit(disc@, v as int, (*time + 1) as i32);
        lemma_unvisited_bound(disc@.update(v as int, (*time + 1) as i32));
    }
    *time = *time + 1;
    disc.set(v, *time);
    low.set(v, *time);
    proof {
        assert(!stack@.contains(v)) by {
            if stack@.contains(v) {
                let i = choose|i: int| 0 <= i < stack@.len() && stack@[i] == v;
                assert(disc0[stack@[i] as int] != 0);
            }
        }
        assert(!flat(sccs@).contains(v)) by {
            if flat(sccs@).contains(v) {
                let i = choose|i: int| 0 <= i < flat(sccs@).len() && flat(sccs@)[i] == v;
                assert(disc0[flat(sccs@)[i] as int] != 0);
            }
        }
    }
    stack.push(v);
    on_stack.set(v, true);
    let ghost base = stack0.len();
    proof {
        assert(stack@.subrange(0, base as int) =~= stack0);
        assert forall|i: int| 0 <= i < stack@.len() implies #[trigger] stack@[i] < n && disc@[stack@[i] as int] != 0
            && on_stack@[stack@[i] as int] by {
            if i < base {
                assert(stack@[i] == stack0[i]);
                assert(stack0[i] != v);
            }
        }
        assert forall|x: int| 0 <= x < n && on_stack@[x] implies stack@.contains(x as usize) by {
            if x != v {
                let i = choose|i: int| 0 <= i < stack0.len() && stack0[i] == x as usize;
                assert(stack@[i] == x as usize);
            } else {
                assert(stack@[base as int] == v);
            }
        }
        assert forall|i: int| 0 <= i < flat(sccs@).len() implies #[trigger] flat(sccs@)[i] < n && !on_stack@[flat(sccs@)[i] as int]
            && disc@[flat(sccs@)[i] as int] != 0 by {
            assert(flat(sccs@)[i] != v);
        }
        assert(stack@.no_duplicates()) by {
            assert forall|i: int, k: int| 0 <= i < k < stack@.len() implies stack@[i] != stack@[k] by {
                if k == base {
                    assert(stack0.contains(stack@[i]) ==> stack@[i] != v);
                    assert(stack@[i] == stack0[i]);
                } else {
                    assert(stack@[i] == stack0[i]);
                    assert(stack@[k] == stack0[k]);
                }
            }
        }
        assert(sccs@.subrange(0, sccs0.len() as int) =~= sccs0);
        lemma_reaches_refl(adj@, v);
        assert(stack@[base as int] == v);
        assert(stack@ == stack0.push(v));
        assert forall|i: int| 0 <= i < stack0.len() implies disc@[#[trigger] stack0[i] as int] == disc0[stack0[i] as int]
            && low@[stack0[i] as int] == low0[stack0[i] as int] by {
            assert(stack0[i] != v);
        }
        lemma_low_inv_frame(adj@, disc0, low0, disc@, low@, stack0);
        assert forall|i: int| 0 <= i < stack0.len() implies disc@[#[trigger] stack0[i] as int] < disc@[v as int] by {
            assert(disc0[stack0[i] as int] <= time0);
        }
        lemma_low_inv_push(adj@, disc@, low@, stack0, v);
        assert forall|x: int| 0 <= x < disc@.len() implies 0 <= #[trigger] disc@[x] <= *time by {
            assert(0 <= disc0[x] <= time0);
        }
        assert forall|i: int| 0 <= i < stack@.len() implies reaches(adj@, #[trigger] stack@[i], v) by {
            if i < base {
                assert(stack@[i] == stack0[i]);
            }
        }
        assert forall|x: int| 0 <= x < n implies #[trigger] popped(disc@, on_stack@, x) == popped(disc0, os0, x) by {
            if x == v {
            } else {
                assert(disc@[x] == disc0[x]);
                assert(on_stack@[x] == os0[x]);
            }
        }
        assert(closed(adj@, disc@, on_stack@)) by {
            assert forall|x: int, jj: int| 0 <= x < adj@.len() && popped(disc@, on_stack@, x) && 0 <= jj < adj@[x]@.len()
                implies popped(disc@, on_stack@, #[trigger] adj@[x]@[jj] as int) by {
                assert(popped(disc0, os0, x));
                assert(popped(disc0, os0, adj@[x]@[jj] as int));
            }
        }
        assert(complete(adj@, disc@, on_stack@, sccs@)) by {
            assert forall|x: usize, y: usize|
                x < adj@.len() && popped(disc@, on_stack@, x as int) && x != y && #[trigger] reaches(adj@, x, y) && #[trigger] reaches(adj@, y, x)
                implies flat(sccs@).contains(x) by {
                assert(popped(disc0, os0, x as int));
            }
        }
        assert(together(adj@, disc@, on_stack@, sccs@)) by {
            assert forall|x: usize, y: usize|
                x < adj@.len() && popped(disc@, on_stack@, x as int) && x != y && #[trigger] reaches(adj@, x, y) && #[trigger] reaches(adj@, y, x)
                implies exists|i: int| 0 <= i < sccs@.len() && (#[trigger] sccs@[i]@).contains(x) && sccs@[i]@.contains(y) by {
                assert(popped(disc0, os0, x as int));
            }
        }
    }
    let mut j: usize = 0;
    while j < adj[v].len()
        invariant
            n == adj@.len() < i32::MAX,
            v < n,
            j <= adj@[v as int]@.len(),
            disc0 == old(disc)@,
            search_wf(n, adj@, disc@, low@, on_stack@, stack@, *time, sccs@),
            disc@[v as int] != 0,
            forall|i: int| 0 <= i < n && disc0[i] != 0 ==> disc@[i] != 0,
            unvisited(disc@) < unvisited(disc0),
            base < stack@.len(),
            stack@.subrange(0, base as int) == stack0,
            stack@[base as int] == v,
            sccs0.len() <= sccs@.len(),
            sccs@.subrange(0, sccs0.len() as int) == sccs0,
            comps_rooted(adj@, sccs@),
            forall|i: int| base <= i < stack@.len() ==> reaches(adj@, v, #[trigger] stack@[i]),
            comps_back(adj@, sccs@),
            low_inv(adj@, disc@, low@, stack@),
            time_inv(disc@, *time),
            disc@[v as int] == time0 + 1,
            forall|i: int| 0 <= i < n && disc0[i] != 0 ==> #[trigger] disc@[i] == disc0[i],
            forall|i: int| 0 <= i < base ==> low@[#[trigger] stack0[i] as int] == low0[stack0[i] as int],
            reach_all(adj@, stack@, v),
            stack0 == old(stack)@,
            disc0 == old(disc)@,
            low0 == old(low)@,
            time0 == *old(time),
            os0 == old(on_stack)@,
            closed(adj@, disc@, on_stack@),
            complete(adj@, disc@, on_stack@, sccs@),
            together(adj@, disc@, on_stack@, sccs@),
            forall|y: int| 0 <= y < n && popped(disc0, os0, y) ==> #[trigger] popped(disc@, on_stack@, y),
            forall|jj: int|
                0 <= jj < j ==> disc@[#[trigger] adj@[v as int]@[jj] as int] != 0 && (on_stack@[adj@[v as int]@[jj] as int]
                    ==> low@[v as int] <= disc@[adj@[v as int]@[jj] as int]),
            forall|i: int| base < i < stack@.len() ==> edges_done(adj@, disc@, low@, on_stack@, #[trigger] stack@[i]),
            forall|i: int| base <= i < stack@.len() ==> low@[#[trigger] stack@[i] as int] >= low@[v as int],
        decreases adj@[v as int]@.len() - j,
    {
        let w = adj[v][j];
        assert(w < n);
        let ghost disc_s = disc@;
        let ghost os_s = on_stack@;
        let ghost low_s = low@;
        let ghost stack_s = stack@;
        if disc[w] == 0 {
            let ghost stack1 = stack@;
            let ghost sccs1 = sccs@;
            let ghost disc1 = disc@;
            let ghost low1 = low@;
            let ghost os1 = on_stack@;
            let ghost time1 = *time;
            proof {
                assert(edge(adj@, v, w)) by {
                    assert(adj@[v as int]@[j as int] == w);
                }
                lemma_reaches_refl(adj@, w);
                lemma_reaches_step(adj@, v, w, w);
                assert forall|i: int| 0 <= i < stack@.len() implies reaches(adj@, #[trigger] stack@[i], w) by {
                    lemma_reaches_trans(adj@, stack@[i], v, w);
                }
            }
            strongconnect(w, adj, disc, low, on_stack, stack, time, sccs);
            proof {
                assert(stack@.subrange(0, base as int) =~= stack1.subrange(0, base as int));
                assert(stack@[base as int] == stack1[base as int]) by {
                    assert(stack@.subrange(0, stack1.len() as int)[base as int] == stack1[base as int]);
                }
                assert(sccs@.subrange(0, sccs0.len() as int) =~= sccs1.subrange(0, sccs0.len() as int)) by {
                    assert forall|i: int| 0 <= i < sccs0.len() implies sccs@[i] == sccs1[i] by {
                        assert(sccs@.subrange(0, sccs1.len() as int)[i] == sccs1[i]);
                    }
                }
                assert forall|i: int| 0 <= i < n && disc0[i] != 0 implies disc@[i] != 0 by {
                    assert(disc1[i] != 0);
                }
                assert(edge(adj@, v, w)) by {
                    assert(adj@[v as int]@[j as int] == w);
                }
                assert forall|i: int| base <= i < stack@.len() implies reaches(adj@, v, #[trigger] stack@[i]) by {
                    if i < stack1.len() {
                        assert(stack@.subrange(0, stack1.len() as int)[i] == stack1[i]);
                        assert(stack@[i] == stack1[i]);
                    } else {
                        lemma_reaches_step(adj@, v, w, stack@[i]);
                    }
                }
                assert forall|i: int| 0 <= i < n && disc0[i] != 0 implies #[trigger] disc@[i] == disc0[i] by {
                    assert(disc1[i] == disc0[i]);
                }
                assert forall|i: int| 0 <= i < base implies low@[#[trigger] stack0[i] as int] == low0[stack0[i] as int] by {
                    assert(stack1[i] == stack0[i]);
                    assert(low@[stack1[i] as int] == low1[stack1[i] as int]);
                }
                assert(low@[v as int] == low1[v as int]) by {
                    assert(stack1[base as int] == v);
                }
                assert(disc@[v as int] == disc1[v as int]);
                assert(disc1[v as int] <= time1);
                if low@[w as int] != disc@[w as int] {
                    let p = stack1.len() as int;
                    assert(stack@[p] == w);
                    assert(low_ok(adj@, disc@, low@, stack@, p));
                    let k = choose|k: int| #[trigger] low_at(adj@, disc@, low@, stack@, p, k);
                    assert(k < p);
                    assert(stack@[k] == stack1[k]) by {
                        assert(stack@.subrange(0, stack1.len() as int)[k] == stack1[k]);
                    }
                    assert forall|i: int| 0 <= i < stack@.len() implies reaches(adj@, #[trigger] stack@[i], v) by {
                        if i < p {
                            assert(stack@.subrange(0, stack1.len() as int)[i] == stack1[i]);
                        } else {
                            lemma_reaches_trans(adj@, w, stack@[k], v);
                            lemma_reaches_trans(adj@, stack@[i], w, v);
                        }
                    }
                } else {
                    assert(stack@ == stack1);
                }
            }
            let ghost low_c = low@;
            let lw = low[w];
            if lw < low[v] {
                proof {
                    let p = stack1.len() as int;
                    assert(low_ok(adj@, disc@, low@, stack@, base as int));
                    assert(low@[v as int] <= disc@[v as int]);
                    assert(low@[w as int] != disc@[w as int]);
                    assert(stack@[p] == w);
                    assert(low_ok(adj@, disc@, low@, stack@, p));
                    let k = choose|k: int| #[trigger] low_at(adj@, disc@, low@, stack@, p, k);
                    assert(low_ok(adj@, disc@, low@, stack@, base as int));
                    if k > base {
                        assert(disc@[stack@[base as int] as int] < disc@[stack@[k] as int]);
                    }
                    lemma_reaches_step(adj@, v, w, stack@[k]);
                    lemma_low_update(adj@, disc@, low@, stack@, base as int, lw, k);
                }
                low.set(v, lw);
            }
            proof {
                assert(forall|y: int| 0 <= y < n && popped(disc1, os1, y) ==> #[trigger] popped(disc@, on_stack@, y));
                assert forall|y: int| 0 <= y < n && disc_s[y] != 0 && #[trigger] on_stack@[y] implies os_s[y] by {
                    if !os_s[y] {
                        assert(popped(disc1, os1, y));
                        assert(popped(disc@, on_stack@, y));
                    }
                }
                assert forall|i: int| 0 <= i < stack_s.len() && stack_s[i] != v implies low@[#[trigger] stack_s[i] as int]
                    == low_s[stack_s[i] as int] by {
                    assert(stack1[i] == stack_s[i]);
                    assert(low_c[stack1[i] as int] == low1[stack1[i] as int]);
                }
                assert forall|i: int| 0 <= i < stack_s.len() implies #[trigger] stack@[i] == stack_s[i] by {
                    assert(stack@.subrange(0, stack1.len() as int)[i] == stack1[i]);
                }
                assert forall|i: int| stack_s.len() <= i < stack@.len() implies edges_done(adj@, disc@, low@, on_stack@, #[trigger] stack@[i]) by {
                    assert(edges_done(adj@, disc@, low_c, on_stack@, stack@[i]));
                    assert(stack@[i] != stack@[base as int]);
                    lemma_edges_done_stable(adj@, disc@, low_c, on_stack@, disc@, low@, on_stack@, stack@[i]);
                }
                if on_stack@[w as int] {
                    assert(stack@.contains(w));
                    if low_c[w as int] == disc@[w as int] {
                        assert(stack@ == stack1);
                        let q = choose|q: int| 0 <= q < stack@.len() && stack@[q] == w;
                        assert(disc1[stack1[q] as int] != 0);
                    }
                    let p = stack1.len() as int;
                    assert(stack@[p] == w);
                    assert(low_ok(adj@, disc@, low_c, stack@, p));
                }
                assert(iter_ok(adj@, v, w, disc_s, os_s, low_s, stack_s, disc@, on_stack@, low@, stack@));
            }
        } else if on_stack[w] {
            let dw = disc[w];
            if dw < low[v] {
                proof {
                    assert(stack@.contains(w));
                    let k = choose|k: int| 0 <= k < stack@.len() && stack@[k] == w;
                    assert(low_ok(adj@, disc@, low@, stack@, base as int));
                    if k >= base {
                        if k > base {
                            assert(disc@[stack@[base as int] as int] < disc@[stack@[k] as int]);
                        }
                    }
                    assert(edge(adj@, v, w)) by {
                        assert(adj@[v as int]@[j as int] == w);
                    }
                    lemma_reaches_refl(adj@, w);
                    lemma_reaches_step(adj@, v, w, w);
                    lemma_low_update(adj@, disc@, low@, stack@, base as int, dw, k);
                }
                low.set(v, dw);
            }
            proof {
                assert forall|i: int| 0 <= i < stack_s.len() && stack_s[i] != v implies low@[#[trigger] stack_s[i] as int]
                    == low_s[stack_s[i] as int] by {}
                assert(iter_ok(adj@, v, w, disc_s, os_s, low_s, stack_s, disc@, on_stack@, low@, stack@));
            }
        } else {
            proof {
                assert(iter_ok(adj@, v, w, disc_s, os_s, low_s, stack_s, disc@, on_stack@, low@, stack@));
            }
        }
        proof {
            assert(stack_s.no_duplicates());
            lemma_iter_step(adj@, v, w, j as int, base as int, disc_s, os_s, low_s, stack_s, disc@, on_stack@, low@, stack@);
        }
        j += 1;
    }
    if low[v] == disc[v] {
        let mut scc: Vec<usize> = Vec::new();
        let ghost full = stack@;
        let ghost disc_e = disc@;
        let ghost low_e = low@;
        let ghost time_e = *time;
        let ghost os_e = on_stack@;
        let ghost sccs_e = sccs@;
        proof {
            assert(edges_done(adj@, disc@, low@, on_stack@, v));
            assert forall|i: int| base <= i < full.len() implies edges_done(adj@, disc_e, low_e, os_e, #[trigger] full[i])
                && low_e[full[i] as int] >= disc_e[v as int] by {
                if i == base {
                    assert(full[i] == v);
                } else {
                    assert(full[i] == stack@[i]);
                }
            }
            assert(low_inv(adj@, disc_e, low_e, full));
            assert forall|i: int| base <= i < full.len() implies reaches(adj@, v, #[trigger] full[i]) by {
                assert(full[i] == stack@[i]);
            }
            assert forall|i: int| base <= i < full.len() implies !flat(sccs@).contains(#[trigger] full[i]) by {
                if flat(sccs@).contains(full[i]) {
                    let m = choose|m: int| 0 <= m < flat(sccs@).len() && flat(sccs@)[m] == full[i];
                    assert(!on_stack@[flat(sccs@)[m] as int]);
                }
            }
        }
        loop
            invariant_except_break
                base < stack@.len(),
            invariant
                n == adj@.len() < i32::MAX,
                v < n,
                base < full.len(),
                full.subrange(0, base as int) == stack0,
                full[base as int] == v,
                full.no_duplicates(),
                forall|i: int| 0 <= i < full.len() ==> #[trigger] full[i] < n && disc@[full[i] as int] != 0,
                forall|i: int| base <= i < full.len() ==> !flat(sccs@).contains(#[trigger] full[i]),
                stack@.len() <= full.len(),
                stack@ == full.subrange(0, stack@.len() as int),
                scc@ == full.subrange(stack@.len() as int, full.len() as int).reverse(),
                search_wf(n, adj@, disc@, low@, on_stack@, stack@, *time, sccs@),
                forall|i: int| stack@.len() <= i < full.len() ==> !on_stack@[#[trigger] full[i] as int],
                comps_rooted(adj@, sccs@),
                forall|i: int| base <= i < full.len() ==> reaches(adj@, v, #[trigger] full[i]),
                comps_back(adj@, sccs@),
                disc@ == disc_e,
                low@ == low_e,
                *time == time_e,
                sccs@ == sccs_e,
                os_e.len() == n,
                forall|x: int|
                    0 <= x < n ==> (full.subrange(stack@.len() as int, full.len() as int).contains(x as usize) ==> !#[trigger] on_stack@[x])
                        && (!full.subrange(stack@.len() as int, full.len() as int).contains(x as usize) ==> on_stack@[x] == os_e[x]),
            ensures
                sccs@ == sccs_e,
                forall|x: int|
                    0 <= x < n ==> (full.subrange(base as int, full.len() as int).contains(x as usize) ==> !#[trigger] on_stack@[x])
                        && (!full.subrange(base as int, full.len() as int).contains(x as usize) ==> on_stack@[x] == os_e[x]),
                stack@ == stack0,
                scc@ == full.subrange(base as int, full.len() as int).reverse(),
                search_wf(n, adj@, disc@, low@, on_stack@, stack@, *time, sccs@),
                forall|i: int| base <= i < full.len() ==> !on_stack@[#[trigger] full[i] as int],
                comps_rooted(adj@, sccs@),
                forall|i: int| base <= i < full.len() ==> reaches(adj@, v, #[trigger] full[i]),
                comps_back(adj@, sccs@),
                disc@ == disc_e,
                low@ == low_e,
                *time == time_e,
            decreases stack@.len(),
        {
            let ghost before = stack@;
            let ghost os_b = on_stack@;
            let w = stack.pop().unwrap();
            let ghost k: int = stack@.len() as int;
            assert(w == full[k]);
            on_stack.set(w, false);
            scc.push(w);
            proof {
                let seg_old = full.subrange(k + 1, full.len() as int);
                let seg_new = full.subrange(k, full.len() as int);
                assert forall|x: int| 0 <= x < n implies (seg_new.contains(x as usize) ==> !#[trigger] on_stack@[x]) && (
                !seg_new.contains(x as usize) ==> on_stack@[x] == os_e[x]) by {
                    if seg_new.contains(x as usize) {
                        let m = choose|m: int| 0 <= m < seg_new.len() && seg_new[m] == x as usize;
                        if m > 0 {
                            assert(seg_old[m - 1] == x as usize);
                        }
                    } else {
                        assert(x != w as int) by {
                            assert(seg_new[0] == w);
                        }
                        if seg_old.contains(x as usize) {
                            let m = choose|m: int| 0 <= m < seg_old.len() && seg_old[m] == x as usize;
                            assert(seg_new[m + 1] == x as usize);
                        }
                    }
                }
                assert(stack@ =~= full.subrange(0, k));
                assert(scc@ =~= full.subrange(k, full.len() as int).reverse());
                assert forall|x: int| 0 <= x < n && on_stack@[x] implies stack@.contains(x as usize) by {
                    assert(before.contains(x as usize));
                    let i = choose|i: int| 0 <= i < before.len() && before[i] == x as usize;
                    assert(before[k] == w);
                    assert(!on_stack@[w as int]);
                    assert(x != w as int);
                    assert((x as usize) as int == x);
                    assert(i != k);
                    assert(stack@[i] == x as usize);
                }
                assert forall|i: int| k <= i < full.len() implies !on_stack@[#[trigger] full[i] as int] by {
                    if i > k {
                        assert(full[i] != full[k]);
                    }
                }
                assert forall|i: int| 0 <= i < stack@.len() implies #[trigger] stack@[i] < n && disc@[stack@[i] as int] != 0
                    && on_stack@[stack@[i] as int] by {
                    assert(stack@[i] == before[i]);
                    assert(before[i] != before[k]);
                }
                assert forall|i: int| 0 <= i < flat(sccs@).len() implies #[trigger] flat(sccs@)[i] < n && !on_stack@[flat(sccs@)[i] as int]
                    && disc@[flat(sccs@)[i] as int] != 0 by {
                }
                assert(stack@.no_duplicates()) by {
                    assert forall|i: int, m: int| 0 <= i < m < stack@.len() implies stack@[i] != stack@[m] by {
                        assert(stack@[i] == before[i]);
                        assert(stack@[m] == before[m]);
                    }
                }
            }
            if w == v {
                proof {
                    assert(k == base as int) by {
                        if k != base as int {
                            assert(full[k] != full[base as int]);
                        }
                    }
                }
                break;
            }
        }
        proof {
            lemma_low_inv_prefix(adj@, disc@, low@, full, base as int);
            assert forall|x: int| 0 <= x < n && #[trigger] os_e[x] implies full.contains(x as usize) by {}
            lemma_pop_closed(adj@, disc@, low@, os_e, on_stack@, full, base as int, v);
        }
        proof {
            let c = full.subrange(base as int, full.len() as int);
            assert forall|i: int, m: int| 0 <= i < m < scc@.len() implies scc@[i] != scc@[m] by {
                assert(scc@[i] == c[c.len() - 1 - i]);
                assert(scc@[m] == c[c.len() - 1 - m]);
                assert(c[c.len() - 1 - i] == full[base + c.len() - 1 - i]);
                assert(c[c.len() - 1 - m] == full[base + c.len() - 1 - m]);
            }
        }
        if scc.len() > 1 {
            let ghost before = sccs@;
            sccs.push(scc);
            proof {
                assert(comps_rooted(adj@, sccs@)) by {
                    let c = full.subrange(base as int, full.len() as int);
                    let sc = sccs@.last()@;
                    assert(sc.last() == v) by {
                        assert(sc[sc.len() - 1] == c[0]);
                        assert(c[0] == full[base as int]);
                    }
                    assert forall|i: int, m: int|
                        0 <= i < sccs@.len() && 0 <= m < sccs@[i]@.len() implies reaches(
                        adj@,
                        sccs@[i]@.last(),
                        #[trigger] sccs@[i]@[m],
                    ) by {
                        if i < before.len() {
                            assert(sccs@[i] == before[i]);
                        } else {
                            assert(sc[m] == c[c.len() - 1 - m]);
                            assert(c[c.len() - 1 - m] == full[base + c.len() - 1 - m]);
                        }
                    }
                }
                lemma_flat_push(before, sccs@.last());
                let c = full.subrange(base as int, full.len() as int);
                let f = flat(sccs@);
                let fb = flat(before);
                let sc = sccs@.last()@;
                assert forall|i: int| 0 <= i < sc.len() implies !fb.contains(#[trigger] sc[i]) && sc[i] < n
                    && !on_stack@[sc[i] as int] && disc@[sc[i] as int] != 0 by {
                    assert(sc[i] == c[c.len() - 1 - i]);
                    assert(c[c.len() - 1 - i] == full[base + c.len() - 1 - i]);
                }
                assert(f.no_duplicates()) by {
                    assert forall|i: int, m: int| 0 <= i < m < f.len() implies f[i] != f[m] by {
                        if m < fb.len() {
                            assert(f[i] == fb[i]);
                            assert(f[m] == fb[m]);
                        } else if i < fb.len() {
                            assert(f[i] == fb[i]);
                            assert(f[m] == sc[m - fb.len()]);
                            assert(fb.contains(f[i]));
                        } else {
                            assert(f[i] == sc[i - fb.len()]);
                            assert(f[m] == sc[m - fb.len()]);
                        }
                    }
                }
                assert forall|i: int| 0 <= i < f.len() implies #[trigger] f[i] < n && !on_stack@[f[i] as int]
                    && disc@[f[i] as int] != 0 by {
                    if i < fb.len() {
                        assert(f[i] == fb[i]);
                    } else {
                        assert(f[i] == sc[i - fb.len()]);
                    }
                }
                assert(sccs@.subrange(0, sccs0.len() as int) =~= sccs0) by {
                    assert forall|i: int| 0 <= i < sccs0.len() implies sccs@[i] == sccs0[i] by {
                        assert(before.subrange(0, sccs0.len() as int)[i] == sccs0[i]);
                    }
                }
                assert(sccs@ == before.push(sccs@.last()));
                lemma_pop_complete(
                    adj@,
                    disc@,
                    os_e,
                    on_stack@,
                    full,
                    base as int,
                    before,
                    sccs@,
                    sccs@.last()@,
                    true,
                );
                lemma_pop_together(
                    adj@,
                    disc@,
                    os_e,
                    on_stack@,
                    full,
                    base as int,
                    before,
                    sccs@,
                    sccs@.last()@,
                    true,
                );
            }
        } else {
            proof {
                lemma_pop_complete(adj@, disc@, os_e, on_stack@, full, base as int, sccs@, sccs@, scc@, false);
                lemma_pop_together(adj@, disc@, os_e, on_stack@, full, base as int, sccs@, sccs@, scc@, false);
            }
        }
    }
}

/// The strongly connected components of the graph `adj` (node `v` has
/// the edges `adj[v]`) that have more than one node, as Tarjan's search
/// closes them.  Each node is in at most one of them; the nodes of one reach
/// one another (through its last node); and every node that lies on a cycle
/// with another node is in one of them, together with all the nodes it lies
/// on a cycle with.
pub fn scc_indices(adj: &Vec<Vec<usize>>) -> (r: Vec<Vec<usize>>)
    requires
        adj@.len() < i32::MAX,
        forall|v: int, j: int| 0 <= v < adj@.len() && 0 <= j < adj@[v]@.len() ==> #[trigger] adj@[v]@[j] < adj@.len(),
    ensures
        forall|i: int| 0 <= i < r@.len() ==> #[trigger] r@[i]@.len() >= 2,
        flat(r@).no_duplicates(),
        forall|i: int| 0 <= i < flat(r@).len() ==> #[trigger] flat(r@)[i] < adj@.len(),
        comps_rooted(adj@, r@),
        comps_back(adj@, r@),
        forall|x: usize, y: usize|
            x < adj@.len() && x != y && #[trigger] reaches(adj@, x, y) && #[trigger] reaches(adj@, y, x) ==> flat(
                r@,
            ).contains(x),
        forall|x: usize, y: usize|
            x < adj@.len() && x != y && #[trigger] reaches(adj@, x, y) && #[trigger] reaches(adj@, y, x) ==> exists|i: int|
                0 <= i < r@.len() && (#[trigger] r@[i]@).contains(x) && r@[i]@.contains(y),
{
    let n = adj.len();
    let mut disc: Vec<i32> = Vec::new();
    let mut low: Vec<i32> = Vec::new();
    let mut on_stack: Vec<bool> = Vec::new();
    let mut i: usize = 0;
    while i < n
        invariant
            i <= n == adj@.len(),
            disc@.len() == i && low@.len() == i && on_stack@.len() == i,
            unvisited(disc@) == i,
            forall|x: int| 0 <= x < i ==> !on_stack@[x],
            forall|x: int| 0 <= x < i ==> #[trigger] disc@[x] == 0,
        decreases n - i,
    {
        proof {
            assert(disc@.push(0).drop_last() =~= disc@);
        }
        disc.push(0);
        low.push(0);
        on_stack.push(false);
        i += 1;
    }
    let mut stack: Vec<usize> = Vec::new();
    let mut time: i32 = 0;
    let mut sccs: Vec<Vec<usize>> = Vec::new();
    proof {
        assert(flat(sccs@) =~= Seq::<usize>::empty());
    }
    proof {
        assert forall|x: usize, y: usize|
            x < adj@.len() && popped(disc@, on_stack@, x as int) && x != y && #[trigger] reaches(adj@, x, y) && #[trigger] reaches(
                adj@,
                y,
                x,
            ) implies flat(sccs@).contains(x) by {
            assert(disc@[x as int] == 0);
        }
        assert forall|x: usize, y: usize|
            x < adj@.len() && popped(disc@, on_stack@, x as int) && x != y && #[trigger] reaches(adj@, x, y) && #[trigger] reaches(
                adj@,
                y,
                x,
            ) implies exists|i: int| 0 <= i < sccs@.len() && (#[trigger] sccs@[i]@).contains(x) && sccs@[i]@.contains(y) by {
            assert(disc@[x as int] == 0);
        }
    }
    let mut v: usize = 0;
    while v < n
        invariant
            v <= n == adj@.len() < i32::MAX,
            search_wf(n as nat, adj@, disc@, low@, on_stack@, stack@, time, sccs@),
            comps_rooted(adj@, sccs@),
            comps_back(adj@, sccs@),
            stack@.len() == 0,
            time_inv(disc@, time),
            closed(adj@, disc@, on_stack@),
            complete(adj@, disc@, on_stack@, sccs@),
            together(adj@, disc@, on_stack@, sccs@),
            forall|x: int| 0 <= x < v ==> #[trigger] disc@[x] != 0,
        decreases n - v,
    {
        if disc[v] == 0 {
            proof {
                assert(low_inv(adj@, disc@, low@, stack@));
                assert(reach_all(adj@, stack@, v));
            }
            strongconnect(v, adj, &mut disc, &mut low, &mut on_stack, &mut stack, &mut time, &mut sccs);
            proof {
                if low@[v as int] != disc@[v as int] {
                    assert(stack@[0] == v);
                    assert(low_ok(adj@, disc@, low@, stack@, 0));
                    let k = choose|k: int| #[trigger] low_at(adj@, disc@, low@, stack@, 0, k);
                    assert(k == 0);
                }
            }
        }
        v += 1;
    }
    proof {
        assert forall|x: usize, y: usize|
            x < adj@.len() && x != y && #[trigger] reaches(adj@, x, y) && #[trigger] reaches(adj@, y, x) implies flat(
                sccs@,
            ).contains(x) by {
            assert(disc@[x as int] != 0);
            if on_stack@[x as int] {
                assert(stack@.contains(x));
            }
            assert(popped(disc@, on_stack@, x as int));
        }
        assert forall|x: usize, y: usize|
            x < adj@.len() && x != y && #[trigger] reaches(adj@, x, y) && #[trigger] reaches(adj@, y, x) implies exists|i: int|
                0 <= i < sccs@.len() && (#[trigger] sccs@[i]@).contains(x) && sccs@[i]@.contains(y) by {
            assert(disc@[x as int] != 0);
            if on_stack@[x as int] {
                assert(stack@.contains(x));
            }
            assert(popped(disc@, on_stack@, x as int));
        }
    }
    sccs
}

/// The nodes of component `i` are among the flattened nodes.
pub proof fn lemma_flat_bound(s: Seq<Vec<usize>>, i: int, n: nat)
    requires
        0 <= i < s.len(),
        forall|k: int| 0 <= k < flat(s).len() ==> #[trigger] flat(s)[k] < n,
    ensures
        forall|m: int| 0 <= m < s[i]@.len() ==> #[trigger] s[i]@[m] < n,
    decreases s.len(),
{
    let f = flat(s);
    let p = flat(s.drop_last());
    if i == s.len() - 1 {
        assert forall|m: int| 0 <= m < s[i]@.len() implies #[trigger] s[i]@[m] < n by {
            assert(f[p.len() + m] == s[i]@[m]);
        }
    } else {
        assert forall|k: int| 0 <= k < p.len() implies #[trigger] p[k] < n by {
            assert(f[k] == p[k]);
        }
        lemma_flat_bound(s.drop_last(), i, n);
        assert(s.drop_last()[i] == s[i]);
    }
}

} // verus!
