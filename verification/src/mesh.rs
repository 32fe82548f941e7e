//! The geodesic mesh builder: the 20 faces of a regular icosahedron
//! inscribed in the unit sphere, refined by repeated quadrisection with
//! every new vertex pushed back onto the sphere.  Face ids are dense,
//! start at 1, and are assigned in emission order.
use vstd::prelude::*;
use crate::GeoError;
use crate::fixed::COMP_MAX;
use crate::fixed::MIN_NORM_SQ;
use crate::fixed::SCALE;
use crate::fixed::lemma_div_trunc_bounds;
use crate::vec3::SpecVec3;
use crate::vec3::Vec3;
use crate::vec3::bounded;
use crate::vec3::lemma_normalize_bounds;
use crate::vec3::spec_midpoint;
use crate::vec3::spec_normalize;
use crate::vec3::spec_normalize_or;
use crate::vec3::spec_norm_sq;
use crate::vec3::unit_vec;

verus! {

/// The golden ratio in fixed point; the icosahedron's vertices are the
/// cyclic permutations of `(+-1, +-PHI, 0)`, normalized.
pub const PHI_FP: i64 = 1_618_034;

/// Practical cap on the subdivision level: keeps the face count (and
/// every face id) comfortably inside `usize` on every platform.
pub const LEVEL_CAP: u32 = 10;

/// The mathematical model of a face: a dense 1-based id and three
/// vertices on the unit sphere.
pub struct SpecFace {
    pub id: int,
    pub a: SpecVec3,
    pub b: SpecVec3,
    pub c: SpecVec3,
}

/// One triangular facet of the geodesic mesh.
#[derive(Clone, Copy, Debug, PartialEq, Eq, Structural)]
pub struct Face {
    pub id: usize,
    pub a: Vec3,
    pub b: Vec3,
    pub c: Vec3,
}

impl View for Face {
    type V = SpecFace;

    open spec fn view(&self) -> SpecFace {
        SpecFace { id: self.id as int, a: self.a@, b: self.b@, c: self.c@ }
    }
}

/// An ordered face list produced by one builder invocation.
#[derive(Debug)]
pub struct Mesh {
    pub faces: Vec<Face>,
}

pub open spec fn faces_view(s: Seq<Face>) -> Seq<SpecFace> {
    s.map_values(|f: Face| f@)
}

impl View for Mesh {
    type V = Seq<SpecFace>;

    open spec fn view(&self) -> Seq<SpecFace> {
        faces_view(self.faces@)
    }
}

/// All three vertices lie on the unit sphere (up to rounding).
pub open spec fn wf_face(f: SpecFace) -> bool {
    unit_vec(f.a) && unit_vec(f.b) && unit_vec(f.c)
}

/// Every face is well formed and ids are dense, 1-based, in order.
pub open spec fn wf_mesh(m: Seq<SpecFace>) -> bool {
    forall|i: int| 0 <= i < m.len() ==> wf_face(#[trigger] m[i]) && m[i].id == i + 1
}

/// The icosahedron's vertices before normalization.
pub open spec fn spec_icosa_raw(i: int) -> SpecVec3 {
    let k = SCALE as int;
    let p = PHI_FP as int;
    if i == 0 { SpecVec3 { x: -k, y: p, z: 0 } }
    else if i == 1 { SpecVec3 { x: k, y: p, z: 0 } }
    else if i == 2 { SpecVec3 { x: -k, y: -p, z: 0 } }
    else if i == 3 { SpecVec3 { x: k, y: -p, z: 0 } }
    else if i == 4 { SpecVec3 { x: 0, y: -k, z: p } }
    else if i == 5 { SpecVec3 { x: 0, y: k, z: p } }
    else if i == 6 { SpecVec3 { x: 0, y: -k, z: -p } }
    else if i == 7 { SpecVec3 { x: 0, y: k, z: -p } }
    else if i == 8 { SpecVec3 { x: p, y: 0, z: -k } }
    else if i == 9 { SpecVec3 { x: p, y: 0, z: k } }
    else if i == 10 { SpecVec3 { x: -p, y: 0, z: -k } }
    else { SpecVec3 { x: -p, y: 0, z: k } }
}

pub open spec fn spec_icosa_vertex(i: int) -> SpecVec3 {
    spec_normalize(spec_icosa_raw(i))
}

/// Which icosahedron vertices make up base face `i`, with the fixed
/// outward winding.
pub open spec fn spec_base_face_verts(i: int) -> (int, int, int) {
    if i == 0 { (0, 11, 5) }
    else if i == 1 { (0, 5, 1) }
    else if i == 2 { (0, 1, 7) }
    else if i == 3 { (0, 7, 10) }
    else if i == 4 { (0, 10, 11) }
    else if i == 5 { (1, 5, 9) }
    else if i == 6 { (5, 11, 4) }
    else if i == 7 { (11, 10, 2) }
    else if i == 8 { (10, 7, 6) }
    else if i == 9 { (7, 1, 8) }
    else if i == 10 { (3, 9, 4) }
    else if i == 11 { (3, 4, 2) }
    else if i == 12 { (3, 2, 6) }
    else if i == 13 { (3, 6, 8) }
    else if i == 14 { (3, 8, 9) }
    else if i == 15 { (4, 9, 5) }
    else if i == 16 { (2, 4, 11) }
    else if i == 17 { (6, 2, 10) }
    else if i == 18 { (8, 6, 7) }
    else { (9, 8, 1) }
}

pub open spec fn spec_base_face(i: int) -> SpecFace {
    let (va, vb, vc) = spec_base_face_verts(i);
    SpecFace {
        id: i + 1,
        a: spec_icosa_vertex(va),
        b: spec_icosa_vertex(vb),
        c: spec_icosa_vertex(vc),
    }
}

/// The 20 faces of the base icosahedron.
pub open spec fn spec_base() -> Seq<SpecFace> {
    Seq::new(20, |i: int| spec_base_face(i))
}

/// Child `j` of a face under quadrisection: the three corner triangles
/// and the middle triangle, built from the renormalized edge midpoints.
/// A midpoint too short to normalize (only possible for antipodal
/// corners, which no sphere mesh has) falls back to a corner so that
/// subdivision is total.
pub open spec fn spec_child(f: SpecFace, j: int, id: int) -> SpecFace {
    let ab = spec_normalize_or(spec_midpoint(f.a, f.b), f.a);
    let bc = spec_normalize_or(spec_midpoint(f.b, f.c), f.b);
    let ca = spec_normalize_or(spec_midpoint(f.c, f.a), f.c);
    if j == 0 { SpecFace { id: id, a: f.a, b: ab, c: ca } }
    else if j == 1 { SpecFace { id: id, a: f.b, b: bc, c: ab } }
    else if j == 2 { SpecFace { id: id, a: f.c, b: ca, c: bc } }
    else { SpecFace { id: id, a: ab, b: bc, c: ca } }
}

/// One round of subdivision: each face emits its four children, ids
/// reassigned densely in emission order.
pub open spec fn spec_subdiv(m: Seq<SpecFace>) -> Seq<SpecFace> {
    Seq::new(m.len() * 4, |i: int| spec_child(m[i / 4], i % 4, i + 1))
}

/// The mesh at a given subdivision level.
pub open spec fn spec_build(level: nat) -> Seq<SpecFace>
    decreases level,
{
    if level == 0 {
        spec_base()
    } else {
        spec_subdiv(spec_build((level - 1) as nat))
    }
}

pub open spec fn pow4(n: nat) -> nat
    decreases n,
{
    if n == 0 { 1 } else { 4 * pow4((n - 1) as nat) }
}

/// The midpoint of two vectors in the unit ball stays in the unit ball.
pub proof fn lemma_midpoint_bounded(a: SpecVec3, b: SpecVec3)
    requires
        bounded(a, SCALE as int),
        bounded(b, SCALE as int),
    ensures
        bounded(spec_midpoint(a, b), SCALE as int),
{
    lemma_div_trunc_bounds(a.x + b.x, 2);
    lemma_div_trunc_bounds(a.y + b.y, 2);
    lemma_div_trunc_bounds(a.z + b.z, 2);
}

/// Total normalization lands on the unit sphere whenever the fallback
/// does.
pub proof fn lemma_normalize_or_unit(v: SpecVec3, fb: SpecVec3)
    requires
        bounded(v, COMP_MAX as int),
        unit_vec(fb),
    ensures
        unit_vec(spec_normalize_or(v, fb)),
{
    if spec_norm_sq(v) >= MIN_NORM_SQ {
        lemma_normalize_bounds(v);
    }
}

/// Subdivision preserves mesh well-formedness.
pub proof fn lemma_subdiv_wf(m: Seq<SpecFace>)
    requires
        wf_mesh(m),
    ensures
        wf_mesh(spec_subdiv(m)),
{
    let out = spec_subdiv(m);
    assert forall|i: int| 0 <= i < out.len() implies wf_face(#[trigger] out[i])
        && out[i].id == i + 1 by {
        let f = m[i / 4];
        assert(0 <= i / 4 < m.len());
        assert(wf_face(f));
        lemma_midpoint_bounded(f.a, f.b);
        lemma_midpoint_bounded(f.b, f.c);
        lemma_midpoint_bounded(f.c, f.a);
        lemma_normalize_or_unit(spec_midpoint(f.a, f.b), f.a);
        lemma_normalize_or_unit(spec_midpoint(f.b, f.c), f.b);
        lemma_normalize_or_unit(spec_midpoint(f.c, f.a), f.c);
    }
}

/// Every face of every built mesh is well formed, with dense 1-based
/// ids; in particular every vertex has squared length within rounding
/// distance of one.
pub proof fn lemma_build_wf(level: nat)
    ensures
        wf_mesh(spec_build(level)),
    decreases level,
{
    if level == 0 {
        assert forall|i: int| 0 <= i < spec_base().len() implies
            wf_face(#[trigger] spec_base()[i]) && spec_base()[i].id == i + 1 by {
            lemma_icosa_vertex_unit(spec_base_face_verts(i).0);
            lemma_icosa_vertex_unit(spec_base_face_verts(i).1);
            lemma_icosa_vertex_unit(spec_base_face_verts(i).2);
        }
    } else {
        lemma_build_wf((level - 1) as nat);
        lemma_subdiv_wf(spec_build((level - 1) as nat));
    }
}

proof fn lemma_sq_nonneg(x: int)
    by (nonlinear_arith)
    ensures
        x * x >= 0,
{
}

proof fn lemma_sq_scale(x: int)
    by (nonlinear_arith)
    requires
        x == SCALE as int || x == -(SCALE as int),
    ensures
        x * x == 1_000_000_000_000,
{
}

/// Each unnormalized icosahedron vertex has one coordinate of magnitude
/// `SCALE`, so it is long enough to normalize.
pub proof fn lemma_icosa_raw_bounds(i: int)
    ensures
        bounded(spec_icosa_raw(i), COMP_MAX as int),
        spec_norm_sq(spec_icosa_raw(i)) >= MIN_NORM_SQ,
{
    let v = spec_icosa_raw(i);
    lemma_sq_nonneg(v.x);
    lemma_sq_nonneg(v.y);
    lemma_sq_nonneg(v.z);
    assert(v.x == SCALE as int || v.x == -(SCALE as int)
        || v.y == SCALE as int || v.y == -(SCALE as int)
        || v.z == SCALE as int || v.z == -(SCALE as int));
    if v.x == SCALE as int || v.x == -(SCALE as int) {
        lemma_sq_scale(v.x);
    } else if v.y == SCALE as int || v.y == -(SCALE as int) {
        lemma_sq_scale(v.y);
    } else {
        lemma_sq_scale(v.z);
    }
}

pub proof fn lemma_icosa_vertex_unit(i: int)
    ensures
        unit_vec(spec_icosa_vertex(i)),
{
    lemma_icosa_raw_bounds(i);
    lemma_normalize_bounds(spec_icosa_raw(i));
}

/// The face count is exactly `20 * 4^level`.
pub proof fn lemma_build_count(level: nat)
    ensures
        spec_build(level).len() == 20 * pow4(level),
    decreases level,
{
    if level > 0 {
        lemma_build_count((level - 1) as nat);
    }
}

/// Building twice at the same level yields identical meshes, ids and
/// all: the builder is a pure function of the level.
pub proof fn lemma_build_deterministic(m1: Seq<SpecFace>, m2: Seq<SpecFace>, level: nat)
    requires
        m1 == spec_build(level),
        m2 == spec_build(level),
    ensures
        m1 == m2,
{
}

/// The 20 base faces, ids 1 through 20.
fn base_faces() -> (out: Vec<Face>)
    ensures
        faces_view(out@) == spec_base(),
        wf_mesh(faces_view(out@)),
{
    proof {
        lemma_icosa_raw_bounds(0);
        lemma_icosa_raw_bounds(1);
        lemma_icosa_raw_bounds(2);
        lemma_icosa_raw_bounds(3);
        lemma_icosa_raw_bounds(4);
        lemma_icosa_raw_bounds(5);
        lemma_icosa_raw_bounds(6);
        lemma_icosa_raw_bounds(7);
        lemma_icosa_raw_bounds(8);
        lemma_icosa_raw_bounds(9);
        lemma_icosa_raw_bounds(10);
        lemma_icosa_raw_bounds(11);
    }
    let v0 = Vec3 { x: -SCALE, y: PHI_FP, z: 0 }.normalize();
    let v1 = Vec3 { x: SCALE, y: PHI_FP, z: 0 }.normalize();
    let v2 = Vec3 { x: -SCALE, y: -PHI_FP, z: 0 }.normalize();
    let v3 = Vec3 { x: SCALE, y: -PHI_FP, z: 0 }.normalize();
    let v4 = Vec3 { x: 0, y: -SCALE, z: PHI_FP }.normalize();
    let v5 = Vec3 { x: 0, y: SCALE, z: PHI_FP }.normalize();
    let v6 = Vec3 { x: 0, y: -SCALE, z: -PHI_FP }.normalize();
    let v7 = Vec3 { x: 0, y: SCALE, z: -PHI_FP }.normalize();
    let v8 = Vec3 { x: PHI_FP, y: 0, z: -SCALE }.normalize();
    let v9 = Vec3 { x: PHI_FP, y: 0, z: SCALE }.normalize();
    let v10 = Vec3 { x: -PHI_FP, y: 0, z: -SCALE }.normalize();
    let v11 = Vec3 { x: -PHI_FP, y: 0, z: SCALE }.normalize();
    let mut out: Vec<Face> = Vec::new();
    out.push(Face { id: 1, a: v0, b: v11, c: v5 });
    out.push(Face { id: 2, a: v0, b: v5, c: v1 });
    out.push(Face { id: 3, a: v0, b: v1, c: v7 });
    out.push(Face { id: 4, a: v0, b: v7, c: v10 });
    out.push(Face { id: 5, a: v0, b: v10, c: v11 });
    out.push(Face { id: 6, a: v1, b: v5, c: v9 });
    out.push(Face { id: 7, a: v5, b: v11, c: v4 });
    out.push(Face { id: 8, a: v11, b: v10, c: v2 });
    out.push(Face { id: 9, a: v10, b: v7, c: v6 });
    out.push(Face { id: 10, a: v7, b: v1, c: v8 });
    out.push(Face { id: 11, a: v3, b: v9, c: v4 });
    out.push(Face { id: 12, a: v3, b: v4, c: v2 });
    out.push(Face { id: 13, a: v3, b: v2, c: v6 });
    out.push(Face { id: 14, a: v3, b: v6, c: v8 });
    out.push(Face { id: 15, a: v3, b: v8, c: v9 });
    out.push(Face { id: 16, a: v4, b: v9, c: v5 });
    out.push(Face { id: 17, a: v2, b: v4, c: v11 });
    out.push(Face { id: 18, a: v6, b: v2, c: v10 });
    out.push(Face { id: 19, a: v8, b: v6, c: v7 });
    out.push(Face { id: 20, a: v9, b: v8, c: v1 });
    proof {
        assert(faces_view(out@) =~= spec_base());
        lemma_build_wf(0);
    }
    out
}

/// One round of quadrisection over a whole face list.
fn subdivide(faces: &Vec<Face>) -> (out: Vec<Face>)
    requires
        wf_mesh(faces_view(faces@)),
        faces@.len() * 4 <= 100_000_000,
    ensures
        faces_view(out@) == spec_subdiv(faces_view(faces@)),
        wf_mesh(faces_view(out@)),
{
    let ghost full = spec_subdiv(faces_view(faces@));
    let mut out: Vec<Face> = Vec::new();
    let mut i: usize = 0;
    while i < faces.len()
        invariant
            0 <= i <= faces@.len(),
            faces@.len() * 4 <= 100_000_000,
            wf_mesh(faces_view(faces@)),
            full == spec_subdiv(faces_view(faces@)),
            out@.len() == 4 * i,
            forall|j: int| 0 <= j < 4 * i ==> #[trigger] faces_view(out@)[j] == full[j],
        decreases faces@.len() - i,
    {
        let f = faces[i];
        proof {
            assert(wf_face(faces_view(faces@)[i as int]));
            assert(f@ == faces_view(faces@)[i as int]);
        }
        let ab = f.a.midpoint(&f.b).normalize_or(&f.a);
        let bc = f.b.midpoint(&f.c).normalize_or(&f.b);
        let ca = f.c.midpoint(&f.a).normalize_or(&f.c);
        let ghost out_before = out@;
        let base_id = out.len();
        out.push(Face { id: base_id + 1, a: f.a, b: ab, c: ca });
        out.push(Face { id: base_id + 2, a: f.b, b: bc, c: ab });
        out.push(Face { id: base_id + 3, a: f.c, b: ca, c: bc });
        out.push(Face { id: base_id + 4, a: ab, b: bc, c: ca });
        proof {
            let fv = faces_view(faces@);
            let ii = i as int;
            assert forall|j: int| 0 <= j < 4 * ii + 4 implies
                #[trigger] faces_view(out@)[j] == full[j] by {
                if j < 4 * ii {
                    assert(out@[j] == out_before[j]);
                    assert(faces_view(out_before)[j] == full[j]);
                } else {
                    assert(j / 4 == ii && j % 4 == j - 4 * ii) by (nonlinear_arith)
                        requires 4 * ii <= j < 4 * ii + 4, ii >= 0;
                    assert(full[j] == spec_child(fv[ii], j - 4 * ii, j + 1));
                }
            }
        }
        i = i + 1;
    }
    proof {
        assert(faces_view(out@) =~= full);
        lemma_subdiv_wf(faces_view(faces@));
    }
    out
}

impl Mesh {
    /// The number of faces.
    pub fn len(&self) -> (n: usize)
        ensures
            n == self@.len(),
    {
        self.faces.len()
    }
}

/// Builds the geodesic mesh at the requested subdivision level.
/// Rejected before building if the level exceeds the caller-imposed
/// bound or the builder's own cap; never partially built.
pub fn build_mesh(level: u32, max_level: u32) -> (r: Result<Mesh, GeoError>)
    ensures
        r is Ok <==> level <= max_level && level <= LEVEL_CAP,
        r matches Ok(m) ==> m@ == spec_build(level as nat)
            && wf_mesh(m@)
            && m@.len() == 20 * pow4(level as nat),
        r matches Err(e) ==> e == GeoError::InvalidLevel,
{
    if level > max_level || level > LEVEL_CAP {
        return Err(GeoError::InvalidLevel);
    }
    let mut faces = base_faces();
    proof {
        assert(faces_view(faces@).len() == faces@.len());
        assert(spec_base().len() == 20);
        assert(pow4(0) == 1);
    }
    let mut l: u32 = 0;
    while l < level
        invariant
            0 <= l <= level <= LEVEL_CAP,
            faces_view(faces@) == spec_build(l as nat),
            wf_mesh(faces_view(faces@)),
            faces@.len() == 20 * pow4(l as nat),
        decreases level - l,
    {
        proof {
            lemma_pow4_le(l as nat, LEVEL_CAP as nat);
            assert(pow4(LEVEL_CAP as nat) == 1048576) by {
                reveal_with_fuel(pow4, 12);
            }
        }
        let ghost len_before = faces@.len();
        faces = subdivide(&faces);
        proof {
            assert(faces_view(faces@).len() == faces@.len());
            assert(faces@.len() == 4 * len_before);
            assert(pow4((l + 1) as nat) == 4 * pow4(l as nat));
        }
        l = l + 1;
    }
    proof {
        lemma_build_count(level as nat);
    }
    Ok(Mesh { faces })
}

pub proof fn lemma_pow4_le(a: nat, b: nat)
    requires
        a <= b,
    ensures
        pow4(a) <= pow4(b),
    decreases b,
{
    if a < b {
        lemma_pow4_le(a, (b - 1) as nat);
        assert(pow4(b) == 4 * pow4((b - 1) as nat));
    }
}

/// A byte per face: the face id truncated to eight bits, the layout the
/// index texture uses.
pub fn triangle_index_texture(mesh: &Mesh) -> (t: Vec<u8>)
    ensures
        t@.len() == mesh@.len(),
        forall|i: int| 0 <= i < t@.len() ==> #[trigger] t@[i] == (mesh@[i].id % 256) as u8,
{
    let mut t: Vec<u8> = Vec::new();
    let mut i: usize = 0;
    while i < mesh.faces.len()
        invariant
            0 <= i <= mesh@.len(),
            mesh@.len() == mesh.faces@.len(),
            t@.len() == i,
            forall|j: int| 0 <= j < i ==> #[trigger] t@[j] == (mesh@[j].id % 256) as u8,
        decreases mesh@.len() - i,
    {
        t.push((mesh.faces[i].id % 256) as u8);
        i = i + 1;
    }
    t
}

/// Raises a subdivision level by one, saturating at the caller's bound;
/// the increment control's behaviour.
pub fn increment_level(level: u32, max_level: u32) -> (r: u32)
    ensures
        level < max_level ==> r == level + 1,
        level >= max_level ==> r == level,
{
    if level < max_level { level + 1 } else { level }
}

/// Lowers a subdivision level by one, saturating at zero; the decrement
/// control's behaviour.
pub fn decrement_level(level: u32) -> (r: u32)
    ensures
        level > 0 ==> r == level - 1,
        level == 0 ==> r == 0,
{
    if level > 0 { level - 1 } else { level }
}

} // verus!
