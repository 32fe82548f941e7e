//! The face adjacency index: two faces are linked when they share at
//! least one vertex position, within a small tolerance.  Sharing a
//! single corner counts exactly like sharing a whole edge; downstream
//! distance semantics depend on this permissive relation.  Collinear
//! (degenerate) faces are skipped and surfaced as diagnostics.
use vstd::prelude::*;
use crate::mesh::Face;
use crate::mesh::Mesh;
use crate::mesh::SpecFace;
use crate::mesh::wf_face;
use crate::mesh::wf_mesh;
use crate::vec3::SpecVec3;
use crate::vec3::Vec3;
use crate::vec3::bounded;
use crate::vec3::sabs;
use crate::vec3::spec_cross;
use crate::vec3::spec_sub;
use crate::fixed::COMP_MAX;

verus! {

broadcast use vstd::seq_lib::lemma_seq_contains_after_push;

/// Two positions within this distance in every coordinate are the same
/// vertex.  Vertices that coincide by construction are bit-identical,
/// so any small tolerance works; this one absorbs nothing but rounding.
pub const VERTEX_EPS: i64 = 16;

/// Epsilon-tolerant positional equality of vertices.
pub open spec fn close(p: SpecVec3, q: SpecVec3) -> bool {
    sabs(p.x - q.x) <= VERTEX_EPS && sabs(p.y - q.y) <= VERTEX_EPS
        && sabs(p.z - q.z) <= VERTEX_EPS
}

/// Some vertex of `f` coincides with some vertex of `g`.
pub open spec fn spec_shares_vertex(f: SpecFace, g: SpecFace) -> bool {
    close(f.a, g.a) || close(f.a, g.b) || close(f.a, g.c)
        || close(f.b, g.a) || close(f.b, g.b) || close(f.b, g.c)
        || close(f.c, g.a) || close(f.c, g.b) || close(f.c, g.c)
}

pub open spec fn spec_zero_vec() -> SpecVec3 {
    SpecVec3 { x: 0, y: 0, z: 0 }
}

/// A face is degenerate when its fixed-point edge cross product
/// vanishes: true for every collinear face, and for none whose area is
/// above the fixed-point resolution.
pub open spec fn spec_degenerate(f: SpecFace) -> bool {
    spec_cross(spec_sub(f.b, f.a), spec_sub(f.c, f.a)) == spec_zero_vec()
}

/// Face ids `i` and `j` are linked in mesh `m`: both valid, distinct,
/// neither degenerate, and sharing a vertex position.
pub open spec fn spec_linked(m: Seq<SpecFace>, i: usize, j: usize) -> bool {
    &&& 1 <= i <= m.len()
    &&& 1 <= j <= m.len()
    &&& i != j
    &&& !spec_degenerate(m[i - 1])
    &&& !spec_degenerate(m[j - 1])
    &&& spec_shares_vertex(m[i - 1], m[j - 1])
}

/// `j` appears in the neighbor list of face id `i`.
pub open spec fn spec_edge(adj: Seq<Seq<usize>>, i: usize, j: usize) -> bool {
    1 <= i <= adj.len() && adj[i - 1].contains(j)
}

/// Sharing a vertex is symmetric, so the linked relation is too.
pub proof fn lemma_linked_symmetric(m: Seq<SpecFace>, i: usize, j: usize)
    ensures
        spec_linked(m, i, j) == spec_linked(m, j, i),
{
}

/// The adjacency index over one mesh generation: `lists[k]` holds the
/// neighbor ids of face id `k + 1` in ascending order, and `skipped`
/// the ids of the degenerate faces left out of the relation.
pub struct AdjacencyIndex {
    pub lists: Vec<Vec<usize>>,
    pub skipped: Vec<usize>,
}

pub open spec fn rows_view(s: Seq<Vec<usize>>) -> Seq<Seq<usize>> {
    s.map_values(|l: Vec<usize>| l@)
}

impl View for AdjacencyIndex {
    type V = Seq<Seq<usize>>;

    open spec fn view(&self) -> Seq<Seq<usize>> {
        rows_view(self.lists@)
    }
}

pub open spec fn sorted_strict(s: Seq<usize>) -> bool {
    forall|p: int, q: int| 0 <= p < q < s.len() ==> s[p] < s[q]
}

fn vertices_close(p: &Vec3, q: &Vec3) -> (r: bool)
    requires
        bounded(p@, COMP_MAX as int),
        bounded(q@, COMP_MAX as int),
    ensures
        r == close(p@, q@),
{
    let dx = if p.x >= q.x { p.x - q.x } else { q.x - p.x };
    let dy = if p.y >= q.y { p.y - q.y } else { q.y - p.y };
    let dz = if p.z >= q.z { p.z - q.z } else { q.z - p.z };
    dx <= VERTEX_EPS && dy <= VERTEX_EPS && dz <= VERTEX_EPS
}

/// Whether two faces share a vertex position, the raw test behind the
/// adjacency relation.
pub fn shares_vertex(f: &Face, g: &Face) -> (r: bool)
    requires
        wf_face(f@),
        wf_face(g@),
    ensures
        r == spec_shares_vertex(f@, g@),
{
    vertices_close(&f.a, &g.a) || vertices_close(&f.a, &g.b) || vertices_close(&f.a, &g.c)
        || vertices_close(&f.b, &g.a) || vertices_close(&f.b, &g.b)
        || vertices_close(&f.b, &g.c) || vertices_close(&f.c, &g.a)
        || vertices_close(&f.c, &g.b) || vertices_close(&f.c, &g.c)
}

/// Whether a face's vertices are collinear at the fixed-point
/// resolution; checked before any normal is computed.
pub fn is_degenerate(f: &Face) -> (r: bool)
    requires
        wf_face(f@),
    ensures
        r == spec_degenerate(f@),
{
    let e1 = f.b.sub(&f.a);
    let e2 = f.c.sub(&f.a);
    let c = e1.cross(&e2);
    c.x == 0 && c.y == 0 && c.z == 0
}

impl AdjacencyIndex {
    /// The number of faces the index covers.
    pub fn len(&self) -> (n: usize)
        ensures
            n == self@.len(),
    {
        self.lists.len()
    }

    /// The neighbor ids of face `id`, ascending.
    pub fn neighbors(&self, id: usize) -> (r: &Vec<usize>)
        requires
            1 <= id <= self@.len(),
        ensures
            r@ == self@[id - 1],
    {
        &self.lists[id - 1]
    }

    /// Whether face `j` is recorded as a neighbor of face `i`.
    pub fn is_adjacent(&self, i: usize, j: usize) -> (r: bool)
        ensures
            r == spec_edge(self@, i, j),
    {
        if i < 1 || i > self.lists.len() {
            return false;
        }
        let row = &self.lists[i - 1];
        let mut t: usize = 0;
        while t < row.len()
            invariant
                0 <= t <= row@.len(),
                1 <= i <= self@.len(),
                row@ == self@[i - 1],
                forall|p: int| 0 <= p < t ==> row@[p] != j,
            decreases row@.len() - t,
        {
            if row[t] == j {
                return true;
            }
            t = t + 1;
        }
        proof {
            assert(!self@[i - 1].contains(j));
        }
        false
    }
}

/// Builds the adjacency index of a mesh: for every pair of distinct,
/// non-degenerate faces, each is listed as the other's neighbor exactly
/// when they share at least one vertex position.
pub fn build_adjacency(mesh: &Mesh) -> (a: AdjacencyIndex)
    requires
        wf_mesh(mesh@),
        mesh@.len() <= 100_000_000,
    ensures
        a@.len() == mesh@.len(),
        forall|i: usize, j: usize| #[trigger] spec_edge(a@, i, j) <==> spec_linked(mesh@, i, j),
        forall|k: int| 0 <= k < a@.len() ==> sorted_strict(#[trigger] a@[k]),
        forall|j: usize| #[trigger] a.skipped@.contains(j)
            <==> 1 <= j <= mesh@.len() && spec_degenerate(mesh@[j - 1]),
        sorted_strict(a.skipped@),
{
    let n = mesh.faces.len();
    let mut deg: Vec<bool> = Vec::new();
    let mut skipped: Vec<usize> = Vec::new();
    let mut u: usize = 0;
    while u < n
        invariant
            0 <= u <= n,
            n == mesh@.len() <= 100_000_000,
            wf_mesh(mesh@),
            deg@.len() == u,
            forall|t: int| 0 <= t < u ==> #[trigger] deg@[t] == spec_degenerate(mesh@[t]),
            forall|j: usize| #[trigger] skipped@.contains(j)
                <==> 1 <= j <= u && spec_degenerate(mesh@[j - 1]),
            sorted_strict(skipped@),
            forall|p: int| 0 <= p < skipped@.len() ==> #[trigger] skipped@[p] <= u,
        decreases n - u,
    {
        proof {
            assert(wf_face(mesh@[u as int]));
        }
        let d = is_degenerate(&mesh.faces[u]);
        deg.push(d);
        if d {
            skipped.push(u + 1);
        }
        u = u + 1;
    }
    let mut lists: Vec<Vec<usize>> = Vec::new();
    let mut i: usize = 0;
    while i < n
        invariant
            0 <= i <= n,
            n == mesh@.len() <= 100_000_000,
            wf_mesh(mesh@),
            deg@.len() == n,
            forall|t: int| 0 <= t < n ==> #[trigger] deg@[t] == spec_degenerate(mesh@[t]),
            lists@.len() == i,
            forall|x: usize, j: usize| #[trigger] spec_edge(rows_view(lists@), x, j)
                <==> 1 <= x <= i && spec_linked(mesh@, x, j),
            forall|k: int| 0 <= k < i
                ==> sorted_strict(#[trigger] rows_view(lists@)[k]),
        decreases n - i,
    {
        let mut row: Vec<usize> = Vec::new();
        if !deg[i] {
            let mut t: usize = 0;
            while t < n
                invariant
                    0 <= t <= n,
                    0 <= i < n,
                    n == mesh@.len() <= 100_000_000,
                    wf_mesh(mesh@),
                    deg@.len() == n,
                    forall|s: int| 0 <= s < n ==> #[trigger] deg@[s] == spec_degenerate(mesh@[s]),
                    !spec_degenerate(mesh@[i as int]),
                    forall|j: usize| #[trigger] row@.contains(j)
                        <==> 1 <= j <= t && spec_linked(mesh@, (i + 1) as usize, j),
                    sorted_strict(row@),
                    forall|p: int| 0 <= p < row@.len() ==> #[trigger] row@[p] <= t,
                decreases n - t,
            {
                proof {
                    assert(wf_face(mesh@[i as int]));
                    assert(wf_face(mesh@[t as int]));
                }
                if t != i && !deg[t] && shares_vertex(&mesh.faces[i], &mesh.faces[t]) {
                    row.push(t + 1);
                }
                t = t + 1;
            }
        } else {
            proof {
                assert forall|j: usize| #[trigger] row@.contains(j)
                    <==> 1 <= j <= n && spec_linked(mesh@, (i + 1) as usize, j) by {
                    assert(spec_degenerate(mesh@[i as int]));
                    assert(!spec_linked(mesh@, (i + 1) as usize, j));
                }
            }
        }
        let ghost lists_before = lists@;
        lists.push(row);
        proof {
            let lv = rows_view(lists@);
            let lv_before = rows_view(lists_before);
            assert forall|x: usize, j: usize| #[trigger] spec_edge(lv, x, j)
                <==> 1 <= x <= i + 1 && spec_linked(mesh@, x, j) by {
                if 1 <= x <= i + 1 {
                    if x == i + 1 {
                        assert(lv[x - 1] == row@);
                    } else {
                        assert(lv[x - 1] == lv_before[x - 1]);
                        assert(spec_edge(lv, x, j) == spec_edge(lv_before, x, j));
                    }
                }
            }
            assert forall|k: int| 0 <= k < i + 1
                implies sorted_strict(#[trigger] lv[k]) by {
                if k < i {
                    assert(lv[k] == lv_before[k]);
                }
            }
        }
        i = i + 1;
    }
    AdjacencyIndex { lists, skipped }
}


/// Positional vertex equality is reflexive and symmetric.
pub proof fn lemma_close_refl_sym(p: SpecVec3, q: SpecVec3)
    ensures
        close(p, p),
        close(p, q) == close(q, p),
{
}

/// The four children a face leaves under subdivision pairwise share a
/// vertex: each face's offspring form a connected cluster of the next
/// mesh, whatever ids they are given.
pub proof fn lemma_children_share_vertex(f: SpecFace, j1: int, j2: int, id1: int, id2: int)
    requires
        0 <= j1 < 4,
        0 <= j2 < 4,
    ensures
        spec_shares_vertex(crate::mesh::spec_child(f, j1, id1), crate::mesh::spec_child(
            f, j2, id2)),
{
    let c1 = crate::mesh::spec_child(f, j1, id1);
    let c2 = crate::mesh::spec_child(f, j2, id2);
    lemma_close_refl_sym(c1.a, c1.a);
    lemma_close_refl_sym(c1.b, c1.b);
    lemma_close_refl_sym(c1.c, c1.c);
}

/// Vertex contact survives subdivision: when two faces share a vertex
/// position, some corner child of the one shares a vertex position with
/// some corner child of the other, whatever ids the children are given.
/// Together with the cluster law above, this is why subdividing a
/// connected mesh cannot disconnect it.
pub proof fn lemma_subdivision_keeps_contact(
    f: SpecFace,
    g: SpecFace,
    id1: int,
    id2: int,
)
    requires
        spec_shares_vertex(f, g),
    ensures
        exists|j1: int, j2: int| 0 <= j1 < 3 && 0 <= j2 < 3
            && #[trigger] spec_shares_vertex(
            crate::mesh::spec_child(f, j1, id1),
            crate::mesh::spec_child(g, j2, id2),
        ),
{
    if close(f.a, g.a) {
        assert(spec_shares_vertex(crate::mesh::spec_child(f, 0, id1),
            crate::mesh::spec_child(g, 0, id2)));
    } else if close(f.a, g.b) {
        assert(spec_shares_vertex(crate::mesh::spec_child(f, 0, id1),
            crate::mesh::spec_child(g, 1, id2)));
    } else if close(f.a, g.c) {
        assert(spec_shares_vertex(crate::mesh::spec_child(f, 0, id1),
            crate::mesh::spec_child(g, 2, id2)));
    } else if close(f.b, g.a) {
        assert(spec_shares_vertex(crate::mesh::spec_child(f, 1, id1),
            crate::mesh::spec_child(g, 0, id2)));
    } else if close(f.b, g.b) {
        assert(spec_shares_vertex(crate::mesh::spec_child(f, 1, id1),
            crate::mesh::spec_child(g, 1, id2)));
    } else if close(f.b, g.c) {
        assert(spec_shares_vertex(crate::mesh::spec_child(f, 1, id1),
            crate::mesh::spec_child(g, 2, id2)));
    } else if close(f.c, g.a) {
        assert(spec_shares_vertex(crate::mesh::spec_child(f, 2, id1),
            crate::mesh::spec_child(g, 0, id2)));
    } else if close(f.c, g.b) {
        assert(spec_shares_vertex(crate::mesh::spec_child(f, 2, id1),
            crate::mesh::spec_child(g, 1, id2)));
    } else {
        assert(spec_shares_vertex(crate::mesh::spec_child(f, 2, id1),
            crate::mesh::spec_child(g, 2, id2)));
    }
}

} // verus!
