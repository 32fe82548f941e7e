//! The graph distance oracle: breadth-first search over the adjacency
//! index, answering how many hops separate two faces.  The result is
//! proved to be the exact minimum hop count, with a typed sentinel for
//! disconnected pairs.
use vstd::prelude::*;
use crate::adjacency::AdjacencyIndex;
use crate::adjacency::spec_edge;
use crate::adjacency::spec_linked;
use crate::mesh::SpecFace;

verus! {

broadcast use vstd::seq_lib::lemma_seq_contains_after_push;

/// The answer to a distance query: a hop count, or a typed sentinel
/// when the target is disconnected from the source.  Callers treat the
/// sentinel as "maximally far".
#[derive(Clone, Copy, Debug, PartialEq, Eq, Structural)]
pub enum Distance {
    Hops(usize),
    Unreachable,
}

/// Every listed neighbor is a valid 1-based face id.
pub open spec fn wf_adj(adj: Seq<Seq<usize>>) -> bool {
    forall|i: usize, j: usize| #[trigger] spec_edge(adj, i, j) ==> 1 <= j <= adj.len()
}

/// The adjacency relation is symmetric.
pub open spec fn sym_adj(adj: Seq<Seq<usize>>) -> bool {
    forall|i: usize, j: usize| #[trigger] spec_edge(adj, i, j) == spec_edge(adj, j, i)
}

/// The ids one hop out from a set of ids.
pub open spec fn next_layer(adj: Seq<Seq<usize>>, s: Set<usize>) -> Set<usize> {
    Set::new(|j: usize| exists|i: usize| #[trigger] s.contains(i) && spec_edge(adj, i, j))
}

/// The ids reachable from `from` in at most `k` hops.
pub open spec fn reach(adj: Seq<Seq<usize>>, from: usize, k: nat) -> Set<usize>
    decreases k,
{
    if k == 0 {
        set!{from}
    } else {
        let prev = reach(adj, from, (k - 1) as nat);
        prev.union(next_layer(adj, prev))
    }
}

/// `d` is the exact graph distance from `from` to `to`.
pub open spec fn dist_is(adj: Seq<Seq<usize>>, from: usize, to: usize, d: nat) -> bool {
    reach(adj, from, d).contains(to)
        && (d == 0 || !reach(adj, from, (d - 1) as nat).contains(to))
}

/// No number of hops reaches `to` from `from`.
pub open spec fn unreachable_from(adj: Seq<Seq<usize>>, from: usize, to: usize) -> bool {
    forall|k: nat| !(#[trigger] reach(adj, from, k)).contains(to)
}

pub proof fn lemma_reach_from(adj: Seq<Seq<usize>>, from: usize, k: nat)
    ensures
        reach(adj, from, k).contains(from),
    decreases k,
{
    if k > 0 {
        lemma_reach_from(adj, from, (k - 1) as nat);
    }
}

pub proof fn lemma_reach_mono_one(adj: Seq<Seq<usize>>, from: usize, k: nat)
    ensures
        reach(adj, from, k).subset_of(reach(adj, from, k + 1)),
{
    assert(reach(adj, from, k + 1) == reach(adj, from, k).union(
        next_layer(adj, reach(adj, from, k))));
}

pub proof fn lemma_reach_mono(adj: Seq<Seq<usize>>, from: usize, k1: nat, k2: nat)
    requires
        k1 <= k2,
    ensures
        reach(adj, from, k1).subset_of(reach(adj, from, k2)),
    decreases k2 - k1,
{
    if k1 < k2 {
        lemma_reach_mono(adj, from, k1, (k2 - 1) as nat);
        lemma_reach_mono_one(adj, from, (k2 - 1) as nat);
    }
}

/// Taking one edge out of a reach set lands in the next reach set.
pub proof fn lemma_reach_step(adj: Seq<Seq<usize>>, from: usize, k: nat, i: usize, j: usize)
    requires
        reach(adj, from, k).contains(i),
        spec_edge(adj, i, j),
    ensures
        reach(adj, from, k + 1).contains(j),
{
    assert(next_layer(adj, reach(adj, from, k)).contains(j));
}

/// A newly reached id has a predecessor in the previous layer.
pub proof fn lemma_reach_pred(adj: Seq<Seq<usize>>, from: usize, k: nat, j: usize)
    requires
        reach(adj, from, k + 1).contains(j),
        !reach(adj, from, k).contains(j),
    ensures
        exists|i: usize| #[trigger] reach(adj, from, k).contains(i) && spec_edge(adj, i, j),
{
    assert(next_layer(adj, reach(adj, from, k)).contains(j));
}

/// Once one round adds nothing, no later round adds anything.
pub proof fn lemma_reach_stable(adj: Seq<Seq<usize>>, from: usize, d: nat, m: nat)
    requires
        reach(adj, from, d + 1) == reach(adj, from, d),
        d <= m,
    ensures
        reach(adj, from, m) == reach(adj, from, d),
    decreases m,
{
    if m > d {
        lemma_reach_stable(adj, from, d, (m - 1) as nat);
        assert(reach(adj, from, m) == reach(adj, from, (m - 1) as nat).union(
            next_layer(adj, reach(adj, from, (m - 1) as nat))));
        assert(reach(adj, from, d + 1) == reach(adj, from, d).union(
            next_layer(adj, reach(adj, from, d))));
    }
}

/// Reach sets hold only valid ids.
pub proof fn lemma_reach_valid(adj: Seq<Seq<usize>>, from: usize, k: nat)
    requires
        wf_adj(adj),
        1 <= from <= adj.len(),
    ensures
        forall|id: usize| #[trigger] reach(adj, from, k).contains(id) ==> 1 <= id <= adj.len(),
    decreases k,
{
    if k > 0 {
        lemma_reach_valid(adj, from, (k - 1) as nat);
        let prev = reach(adj, from, (k - 1) as nat);
        assert forall|id: usize| #[trigger] reach(adj, from, k).contains(id)
            implies 1 <= id <= adj.len() by {
            if !prev.contains(id) {
                assert(next_layer(adj, prev).contains(id));
                let i = choose|i: usize| #[trigger] prev.contains(i) && spec_edge(adj, i, id);
            }
        }
    }
}

/// Reachability composes: `p` hops to `b` and `q` hops from `b` to `c`
/// give `p + q` hops to `c`.
pub proof fn lemma_reach_compose(
    adj: Seq<Seq<usize>>,
    a: usize,
    b: usize,
    c: usize,
    p: nat,
    q: nat,
)
    requires
        reach(adj, a, p).contains(b),
        reach(adj, b, q).contains(c),
    ensures
        reach(adj, a, p + q).contains(c),
    decreases q,
{
    if q == 0 {
        assert(c == b);
    } else {
        let prev = reach(adj, b, (q - 1) as nat);
        if prev.contains(c) {
            lemma_reach_compose(adj, a, b, c, p, (q - 1) as nat);
            lemma_reach_mono_one(adj, a, (p + q - 1) as nat);
        } else {
            assert(next_layer(adj, prev).contains(c));
            let i = choose|i: usize| #[trigger] prev.contains(i) && spec_edge(adj, i, c);
            lemma_reach_compose(adj, a, b, i, p, (q - 1) as nat);
            lemma_reach_step(adj, a, (p + q - 1) as nat, i, c);
        }
    }
}

/// Over a symmetric adjacency relation, reachability is symmetric.
pub proof fn lemma_reach_sym(adj: Seq<Seq<usize>>, x: usize, y: usize, k: nat)
    requires
        sym_adj(adj),
        reach(adj, x, k).contains(y),
    ensures
        reach(adj, y, k).contains(x),
    decreases k,
{
    if k == 0 {
        assert(y == x);
    } else {
        let prev = reach(adj, x, (k - 1) as nat);
        if prev.contains(y) {
            lemma_reach_sym(adj, x, y, (k - 1) as nat);
            lemma_reach_mono_one(adj, y, (k - 1) as nat);
        } else {
            assert(next_layer(adj, prev).contains(y));
            let i = choose|i: usize| #[trigger] prev.contains(i) && spec_edge(adj, i, y);
            lemma_reach_sym(adj, x, i, (k - 1) as nat);
            assert(spec_edge(adj, y, i));
            lemma_reach_from(adj, y, 0);
            lemma_reach_step(adj, y, 0, y, i);
            lemma_reach_compose(adj, y, i, x, 1, (k - 1) as nat);
        }
    }
}

/// The distance from any face to itself is zero.
pub proof fn lemma_distance_identity(adj: Seq<Seq<usize>>, x: usize)
    ensures
        dist_is(adj, x, x, 0),
{
}

/// Over a symmetric adjacency relation, distance is symmetric.
pub proof fn lemma_distance_symmetric(adj: Seq<Seq<usize>>, x: usize, y: usize, d: nat)
    requires
        sym_adj(adj),
        dist_is(adj, x, y, d),
    ensures
        dist_is(adj, y, x, d),
{
    lemma_reach_sym(adj, x, y, d);
    if d > 0 {
        if reach(adj, y, (d - 1) as nat).contains(x) {
            lemma_reach_sym(adj, y, x, (d - 1) as nat);
        }
    }
}

/// Unreachability is symmetric as well.
pub proof fn lemma_unreachable_symmetric(adj: Seq<Seq<usize>>, x: usize, y: usize)
    requires
        sym_adj(adj),
        unreachable_from(adj, x, y),
    ensures
        unreachable_from(adj, y, x),
{
    assert forall|k: nat| !(#[trigger] reach(adj, y, k)).contains(x) by {
        if reach(adj, y, k).contains(x) {
            lemma_reach_sym(adj, y, x, k);
        }
    }
}

/// Distance one means adjacency, and conversely.
pub proof fn lemma_distance_one_iff_adjacent(adj: Seq<Seq<usize>>, x: usize, y: usize)
    ensures
        dist_is(adj, x, y, 1) <==> (spec_edge(adj, x, y) && y != x),
{
    if dist_is(adj, x, y, 1) {
        assert(!reach(adj, x, 0).contains(y));
        assert(y != x);
        lemma_reach_pred(adj, x, 0, y);
        let i = choose|i: usize| #[trigger] reach(adj, x, 0).contains(i) && spec_edge(adj, i, y);
        assert(i == x);
    }
    if spec_edge(adj, x, y) && y != x {
        lemma_reach_from(adj, x, 0);
        lemma_reach_step(adj, x, 0, x, y);
        assert(!reach(adj, x, 0).contains(y));
    }
}

/// An index built over a mesh has a symmetric relation: sharing a
/// vertex is symmetric.
pub proof fn lemma_built_adj_sym(adj: Seq<Seq<usize>>, m: Seq<SpecFace>)
    requires
        forall|i: usize, j: usize| #[trigger] spec_edge(adj, i, j) <==> spec_linked(m, i, j),
    ensures
        sym_adj(adj),
{
    assert forall|i: usize, j: usize| #[trigger] spec_edge(adj, i, j)
        == spec_edge(adj, j, i) by {
        crate::adjacency::lemma_linked_symmetric(m, i, j);
    }
}

/// An index built over a mesh lists only valid ids.
pub proof fn lemma_built_adj_wf(adj: Seq<Seq<usize>>, m: Seq<SpecFace>)
    requires
        adj.len() == m.len(),
        forall|i: usize, j: usize| #[trigger] spec_edge(adj, i, j) <==> spec_linked(m, i, j),
    ensures
        wf_adj(adj),
{
}

/// How many entries of a boolean sequence are set.
pub open spec fn count_true(s: Seq<bool>) -> int
    decreases s.len(),
{
    if s.len() == 0 {
        0
    } else {
        count_true(s.drop_last()) + if s.last() { 1int } else { 0int }
    }
}

proof fn lemma_count_true_le(s: Seq<bool>)
    ensures
        0 <= count_true(s) <= s.len(),
    decreases s.len(),
{
    if s.len() > 0 {
        lemma_count_true_le(s.drop_last());
    }
}

proof fn lemma_count_true_all_false(s: Seq<bool>)
    requires
        forall|i: int| 0 <= i < s.len() ==> !s[i],
    ensures
        count_true(s) == 0,
    decreases s.len(),
{
    if s.len() > 0 {
        lemma_count_true_all_false(s.drop_last());
    }
}

proof fn lemma_count_true_first_false(s: Seq<bool>)
    requires
        s.len() >= 1,
        !s[0],
    ensures
        count_true(s) <= s.len() - 1,
    decreases s.len(),
{
    assert(count_true(s) == count_true(s.drop_last()) + if s.last() { 1int } else { 0int });
    if s.len() == 1 {
        assert(s.drop_last().len() == 0);
        assert(count_true(s.drop_last()) == 0);
        assert(s.last() == s[0]);
    } else {
        assert(s.drop_last()[0] == s[0]);
        lemma_count_true_first_false(s.drop_last());
    }
}

proof fn lemma_count_true_update(s: Seq<bool>, i: int)
    requires
        0 <= i < s.len(),
        !s[i],
    ensures
        count_true(s.update(i, true)) == count_true(s) + 1,
    decreases s.len(),
{
    let t = s.update(i, true);
    if i == s.len() - 1 {
        assert(t.drop_last() =~= s.drop_last());
        assert(t.last());
        assert(!s.last());
    } else {
        assert(t.drop_last() =~= s.drop_last().update(i, true));
        lemma_count_true_update(s.drop_last(), i);
        assert(t.last() == s.last());
    }
}

/// Breadth-first distance between two faces: 0 for the same face, the
/// number of hops when a path exists (a direct neighbor is 1), and the
/// `Unreachable` sentinel exactly when no path exists.
pub fn distance(from: usize, to: usize, adj: &AdjacencyIndex) -> (r: Distance)
    requires
        wf_adj(adj@),
        1 <= from <= adj@.len(),
        1 <= to <= adj@.len(),
        adj@.len() <= 100_000_000,
    ensures
        r matches Distance::Hops(d) ==> dist_is(adj@, from, to, d as nat),
        r == Distance::Unreachable <==> unreachable_from(adj@, from, to),
{
    if from == to {
        proof {
            lemma_reach_from(adj@, from, 0);
        }
        return Distance::Hops(0);
    }
    let n = adj.len();
    // visited[id] holds exactly for the ids reached so far.
    let mut visited: Vec<bool> = Vec::new();
    let mut z: usize = 0;
    while z <= n
        invariant
            0 <= z <= n + 1,
            n <= 100_000_000,
            visited@.len() == z,
            forall|p: int| 0 <= p < z ==> !visited@[p],
        decreases n + 1 - z,
    {
        visited.push(false);
        z = z + 1;
    }
    let ghost visited0 = visited@;
    let mut count: usize = 1;
    visited[from] = true;
    proof {
        lemma_count_true_all_false(visited0);
        lemma_count_true_update(visited0, from as int);
    }
    let mut frontier: Vec<usize> = Vec::new();
    frontier.push(from);
    let mut depth: usize = 0;
    proof {
        lemma_reach_from(adj@, from, 0);
        assert forall|id: usize| frontier@.contains(id) implies dist_is(adj@, from, id, 0) by {
            assert(frontier@[0] == from);
            let p = choose|p: int| 0 <= p < frontier@.len() && frontier@[p] == id;
            assert(id == from);
        }
    }
    loop
        invariant
            wf_adj(adj@),
            1 <= from <= n,
            1 <= to <= n,
            from != to,
            n == adj@.len() <= 100_000_000,
            visited@.len() == n + 1,
            !visited@[0],
            forall|id: int| 1 <= id <= n
                ==> #[trigger] visited@[id] == reach(adj@, from, depth as nat).contains(
                    id as usize),
            forall|id: usize| #[trigger] frontier@.contains(id)
                <==> dist_is(adj@, from, id, depth as nat),
            forall|p: int| 0 <= p < frontier@.len() ==> 1 <= #[trigger] frontier@[p] <= n,
            !reach(adj@, from, depth as nat).contains(to),
            count == count_true(visited@),
            depth < count <= n,
        decreases n - count,
    {
        let mut next: Vec<usize> = Vec::new();
        let mut fi: usize = 0;
        let ghost count0 = count as int;
        while fi < frontier.len()
            invariant
                wf_adj(adj@),
                1 <= from <= n,
                1 <= to <= n,
                from != to,
                n == adj@.len() <= 100_000_000,
                visited@.len() == n + 1,
                !visited@[0],
                0 <= fi <= frontier@.len(),
                forall|id: usize| #[trigger] frontier@.contains(id)
                    <==> dist_is(adj@, from, id, depth as nat),
                forall|p: int| 0 <= p < frontier@.len() ==> 1 <= #[trigger] frontier@[p] <= n,
                forall|id: int| 1 <= id <= n
                    ==> #[trigger] visited@[id] == (reach(adj@, from, depth as nat).contains(
                        id as usize) || next@.contains(id as usize)),
                forall|id: usize| #[trigger] next@.contains(id)
                    ==> reach(adj@, from, depth as nat + 1).contains(id)
                        && !reach(adj@, from, depth as nat).contains(id)
                        && 1 <= id <= n,
                forall|q: int, j: usize| 0 <= q < fi
                    && #[trigger] spec_edge(adj@, frontier@[q], j)
                    ==> reach(adj@, from, depth as nat).contains(j) || next@.contains(j),
                !reach(adj@, from, depth as nat).contains(to),
                !next@.contains(to),
                count == count_true(visited@),
                count as int == count0 + next@.len(),
                count <= n,
                depth < count,
            decreases frontier@.len() - fi,
        {
            let u = frontier[fi];
            proof {
                assert(frontier@.contains(frontier@[fi as int]));
                assert(dist_is(adj@, from, u, depth as nat));
            }
            let row = adj.neighbors(u);
            let row_len = row.len();
            let ghost row_snap = row@;
            let mut t: usize = 0;
            while t < row_len
                invariant
                    wf_adj(adj@),
                    1 <= from <= n,
                    1 <= to <= n,
                    from != to,
                    n == adj@.len() <= 100_000_000,
                    visited@.len() == n + 1,
                    !visited@[0],
                    0 <= fi < frontier@.len(),
                    0 <= t <= row_snap.len(),
                    row_len == row_snap.len(),
                    1 <= u <= n,
                    u == frontier@[fi as int],
                    row_snap == adj@[u - 1],
                    reach(adj@, from, depth as nat).contains(u),
                    forall|id: usize| #[trigger] frontier@.contains(id)
                        <==> dist_is(adj@, from, id, depth as nat),
                    forall|p: int| 0 <= p < frontier@.len() ==> 1 <= #[trigger] frontier@[p] <= n,
                    forall|id: int| 1 <= id <= n
                        ==> #[trigger] visited@[id] == (reach(adj@, from, depth as nat).contains(
                            id as usize) || next@.contains(id as usize)),
                    forall|id: usize| #[trigger] next@.contains(id)
                        ==> reach(adj@, from, depth as nat + 1).contains(id)
                            && !reach(adj@, from, depth as nat).contains(id)
                            && 1 <= id <= n,
                    forall|q: int, j: usize| 0 <= q < fi
                        && #[trigger] spec_edge(adj@, frontier@[q], j)
                        ==> reach(adj@, from, depth as nat).contains(j) || next@.contains(j),
                    forall|p: int| 0 <= p < t
                        ==> reach(adj@, from, depth as nat).contains(#[trigger] row_snap[p])
                            || next@.contains(row_snap[p]),
                    !reach(adj@, from, depth as nat).contains(to),
                    !next@.contains(to),
                    count == count_true(visited@),
                    count as int == count0 + next@.len(),
                    count <= n,
                    depth < count,
                decreases row_snap.len() - t,
            {
                let w = adj.neighbors(u)[t];
                proof {
                    assert(adj@[u - 1].contains(w)) by {
                        assert(adj@[u - 1][t as int] == w);
                    }
                    assert(spec_edge(adj@, u, w));
                    assert(1 <= w <= n);
                    lemma_reach_step(adj@, from, depth as nat, u, w);
                }
                if !visited[w] {
                    proof {
                        assert(!reach(adj@, from, depth as nat).contains(w));
                        lemma_count_true_update(visited@, w as int);
                    }
                    visited[w] = true;
                    proof {
                        lemma_count_true_first_false(visited@);
                    }
                    count = count + 1;
                    if w == to {
                        proof {
                            assert(dist_is(adj@, from, to, depth as nat + 1));
                        }
                        return Distance::Hops(depth + 1);
                    }
                    next.push(w);
                }
                t = t + 1;
            }
            proof {
                assert forall|q: int, j: usize| 0 <= q < fi + 1
                    && #[trigger] spec_edge(adj@, frontier@[q], j)
                    implies reach(adj@, from, depth as nat).contains(j) || next@.contains(j) by {
                    if q == fi {
                        assert(adj@[frontier@[q] - 1].contains(j));
                        let p = choose|p: int|
                            0 <= p < adj@[u - 1].len() && #[trigger] adj@[u - 1][p] == j;
                        assert(row_snap[p] == j);
                    }
                }
            }
            fi = fi + 1;
        }
        // The next layer is exactly what the invariant says `next`
        // holds: everything first reached in `depth + 1` hops.
        proof {
            let d = depth as nat;
            assert forall|id: usize| reach(adj@, from, d + 1).contains(id)
                && !reach(adj@, from, d).contains(id) implies next@.contains(id) by {
                lemma_reach_pred(adj@, from, d, id);
                let i = choose|i: usize|
                    #[trigger] reach(adj@, from, d).contains(i) && spec_edge(adj@, i, id);
                if d == 0 {
                    assert(i == from);
                    assert(frontier@.contains(i));
                } else {
                    if !reach(adj@, from, (d - 1) as nat).contains(i) {
                        assert(dist_is(adj@, from, i, d));
                        assert(frontier@.contains(i));
                    } else {
                        lemma_reach_step(adj@, from, (d - 1) as nat, i, id);
                    }
                }
                if frontier@.contains(i) {
                    let q = choose|q: int| 0 <= q < frontier@.len() && frontier@[q] == i;
                    assert(spec_edge(adj@, frontier@[q], id));
                }
            }
            lemma_reach_mono_one(adj@, from, d);
        }
        if next.len() == 0 {
            proof {
                let d = depth as nat;
                assert forall|id: usize| reach(adj@, from, d + 1).contains(id)
                    implies reach(adj@, from, d).contains(id) by {
                    if !reach(adj@, from, d).contains(id) {
                        assert(next@.contains(id));
                        let p = choose|p: int| 0 <= p < next@.len() && next@[p] == id;
                        assert(false);
                    }
                }
                assert(reach(adj@, from, d + 1) =~= reach(adj@, from, d));
                assert forall|k: nat| !(#[trigger] reach(adj@, from, k)).contains(to) by {
                    if k <= d {
                        lemma_reach_mono(adj@, from, k, d);
                    } else {
                        lemma_reach_stable(adj@, from, d, k);
                    }
                }
            }
            return Distance::Unreachable;
        }
        proof {
            let d = depth as nat;
            assert forall|id: usize| #[trigger] next@.contains(id)
                implies dist_is(adj@, from, id, d + 1) by {}
            assert forall|id: usize| dist_is(adj@, from, id, d + 1)
                implies next@.contains(id) by {}
            assert(!reach(adj@, from, d + 1).contains(to));
            assert forall|p: int| 0 <= p < next@.len() implies 1 <= #[trigger] next@[p] <= n by {
                assert(next@.contains(next@[p]));
            }
        }
        frontier = next;
        depth = depth + 1;
    }
}

/// Distances never disagree: the exact hop count is unique.
pub proof fn lemma_dist_unique(adj: Seq<Seq<usize>>, from: usize, to: usize, d1: nat, d2: nat)
    requires
        dist_is(adj, from, to, d1),
        dist_is(adj, from, to, d2),
    ensures
        d1 == d2,
{
    if d1 < d2 {
        lemma_reach_mono(adj, from, d1, (d2 - 1) as nat);
    }
    if d2 < d1 {
        lemma_reach_mono(adj, from, d2, (d1 - 1) as nat);
    }
}

/// The discrete classification the coloring layer consumes: the current
/// face, a direct neighbor, or anything farther (the unreachable
/// sentinel counts as maximally far).
#[derive(Clone, Copy, Debug, PartialEq, Eq, Structural)]
pub enum Band {
    Current,
    Neighbor,
    Far,
}

/// Maps a distance to its display band: 0 is the current face, 1 a
/// neighbor, everything else (including unreachable) is far.
pub fn classify_distance(d: Distance) -> (b: Band)
    ensures
        (b == Band::Current) == (d == Distance::Hops(0usize)),
        (b == Band::Neighbor) == (d == Distance::Hops(1usize)),
        (b == Band::Far) == (d != Distance::Hops(0usize) && d != Distance::Hops(1usize)),
{
    match d {
        Distance::Hops(h) => {
            if h == 0 {
                Band::Current
            } else if h == 1 {
                Band::Neighbor
            } else {
                Band::Far
            }
        },
        Distance::Unreachable => Band::Far,
    }
}

/// What a band says about the pair of faces it was computed from.
proof fn lemma_band_char(adj: Seq<Seq<usize>>, from: usize, to: usize, r: Distance, b: Band)
    requires
        r matches Distance::Hops(d) ==> dist_is(adj, from, to, d as nat),
        (r == Distance::Unreachable) <==> unreachable_from(adj, from, to),
        (b == Band::Current) == (r == Distance::Hops(0usize)),
        (b == Band::Neighbor) == (r == Distance::Hops(1usize)),
        (b == Band::Far) == (r != Distance::Hops(0usize) && r != Distance::Hops(1usize)),
    ensures
        (b == Band::Current) <==> to == from,
        (b == Band::Neighbor) <==> to != from && spec_edge(adj, from, to),
        (b == Band::Far) <==> to != from && !spec_edge(adj, from, to),
{
    lemma_reach_from(adj, from, 0);
    lemma_distance_one_iff_adjacent(adj, from, to);
    match r {
        Distance::Hops(d) => {
            if to == from {
                lemma_distance_identity(adj, from);
                lemma_dist_unique(adj, from, to, d as nat, 0);
            }
            if d == 0 {
                assert(reach(adj, from, 0).contains(to));
                assert(to == from);
            }
            if spec_edge(adj, from, to) && to != from {
                lemma_dist_unique(adj, from, to, d as nat, 1);
            }
        },
        Distance::Unreachable => {
            assert(reach(adj, from, 0).contains(from));
            assert(to != from);
            if spec_edge(adj, from, to) {
                assert(reach(adj, from, 1).contains(to));
            }
        },
    }
}

/// One band per face, in face order: how far each face is from the
/// face `current`, banded for display.
pub fn face_bands(
    mesh: &crate::mesh::Mesh,
    adj: &AdjacencyIndex,
    current: usize,
) -> (bands: Vec<Band>)
    requires
        crate::mesh::wf_mesh(mesh@),
        wf_adj(adj@),
        adj@.len() == mesh@.len() <= 100_000_000,
        1 <= current <= mesh@.len(),
    ensures
        bands@.len() == mesh@.len(),
        forall|i: int| 0 <= i < mesh@.len()
            ==> ((#[trigger] bands@[i] == Band::Current) <==> i + 1 == current)
                && ((bands@[i] == Band::Neighbor) <==> i + 1 != current
                    && spec_edge(adj@, current, (i + 1) as usize))
                && ((bands@[i] == Band::Far) <==> i + 1 != current
                    && !spec_edge(adj@, current, (i + 1) as usize)),
{
    let n = mesh.faces.len();
    let mut bands: Vec<Band> = Vec::new();
    let mut i: usize = 0;
    while i < n
        invariant
            0 <= i <= n,
            n == mesh@.len() == adj@.len() <= 100_000_000,
            crate::mesh::wf_mesh(mesh@),
            wf_adj(adj@),
            1 <= current <= n,
            bands@.len() == i,
            forall|q: int| 0 <= q < i
                ==> ((#[trigger] bands@[q] == Band::Current) <==> q + 1 == current)
                    && ((bands@[q] == Band::Neighbor) <==> q + 1 != current
                        && spec_edge(adj@, current, (q + 1) as usize))
                    && ((bands@[q] == Band::Far) <==> q + 1 != current
                        && !spec_edge(adj@, current, (q + 1) as usize)),
        decreases n - i,
    {
        let fid = mesh.faces[i].id;
        proof {
            assert(crate::mesh::wf_face(mesh@[i as int]));
            assert(fid == i + 1);
        }
        let d = distance(current, fid, adj);
        let b = classify_distance(d);
        proof {
            lemma_band_char(adj@, current, fid, d, b);
        }
        bands.push(b);
        i = i + 1;
    }
    bands
}

} // verus!
