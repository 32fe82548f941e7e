//! The surface navigator: one agent moving over the geodesic sphere.
//! Each tick applies the sphere's incremental rotation, rebuilds the
//! tangent frame by Gram-Schmidt correction, integrates translation and
//! turning, and locks onto the nearest face by centroid distance.
//! Every frame vector is proved to stay within rounding distance of
//! unit length after every tick.
use vstd::prelude::*;
use crate::GeoError;
use crate::fixed::SCALE;
use crate::fixed::div_trunc;
use crate::fixed::lemma_div_trunc_bounds;
use crate::fixed::mul_fp;
use crate::fixed::spec_div_trunc;
use crate::fixed::spec_mul_fp;
use crate::mesh::Mesh;
use crate::mesh::SpecFace;
use crate::mesh::wf_mesh;
use crate::vec3::SpecVec3;
use crate::vec3::Vec3;
use crate::vec3::bounded;
use crate::vec3::lemma_mul_abs_bound;
use crate::vec3::lemma_mul_abs_bound2;
use crate::vec3::sabs;
use crate::vec3::spec_add;
use crate::vec3::spec_cross;
use crate::vec3::spec_dot;
use crate::vec3::spec_dot_raw;
use crate::vec3::spec_norm_sq;
use crate::vec3::spec_normalize;
use crate::vec3::spec_normalize_or;
use crate::vec3::spec_scale;
use crate::vec3::spec_sub;
use crate::vec3::spec_upscale;
use crate::vec3::unit_vec;
use crate::fixed::MIN_NORM_SQ;
use crate::mesh::lemma_normalize_or_unit;
use crate::vec3::lemma_dot_ball_bound;
use crate::vec3::lemma_frame_orthogonal;
use crate::vec3::lemma_gs_unit;
use crate::vec3::lemma_scale_ball_bound;
use crate::vec3::spec_gs_diff;

verus! {

/// Largest magnitude accepted for a rotation matrix entry: twice the
/// unit scale, comfortably past any rotation's true range of one.
pub const MAT_MAX: i64 = 2_000_000;

/// Largest magnitude accepted for `speed * dt` and `turn_rate * dt`
/// before rescaling: a third of a unit per tick, the small-step regime
/// the tangent-plane integration is meant for.
pub const STEP_MAX_RAW: i64 = 333_333_000_000;

/// The mathematical model of a 3x3 matrix, held as rows.
pub struct SpecMat3 {
    pub r0: SpecVec3,
    pub r1: SpecVec3,
    pub r2: SpecVec3,
}

/// A fixed-point 3x3 matrix, held as rows; the host supplies the
/// sphere's orientation and per-tick rotation delta in this form.
#[derive(Clone, Copy, Debug, PartialEq, Eq, Structural)]
pub struct Mat3 {
    pub r0: Vec3,
    pub r1: Vec3,
    pub r2: Vec3,
}

impl View for Mat3 {
    type V = SpecMat3;

    open spec fn view(&self) -> SpecMat3 {
        SpecMat3 { r0: self.r0@, r1: self.r1@, r2: self.r2@ }
    }
}

pub open spec fn wf_mat(m: SpecMat3) -> bool {
    bounded(m.r0, MAT_MAX as int) && bounded(m.r1, MAT_MAX as int)
        && bounded(m.r2, MAT_MAX as int)
}

pub open spec fn spec_mat_apply(m: SpecMat3, v: SpecVec3) -> SpecVec3 {
    SpecVec3 { x: spec_dot(m.r0, v), y: spec_dot(m.r1, v), z: spec_dot(m.r2, v) }
}

/// The identity rotation, for hosts that do not rotate the sphere.
pub fn mat_identity() -> (m: Mat3)
    ensures
        m@ == (SpecMat3 {
            r0: SpecVec3 { x: SCALE as int, y: 0, z: 0 },
            r1: SpecVec3 { x: 0, y: SCALE as int, z: 0 },
            r2: SpecVec3 { x: 0, y: 0, z: SCALE as int },
        }),
        wf_mat(m@),
{
    Mat3 {
        r0: Vec3 { x: SCALE, y: 0, z: 0 },
        r1: Vec3 { x: 0, y: SCALE, z: 0 },
        r2: Vec3 { x: 0, y: 0, z: SCALE },
    }
}

fn mat_row_apply(row: &Vec3, v: &Vec3) -> (r: i64)
    requires
        bounded(row@, MAT_MAX as int),
        bounded(v@, 2_000_000),
    ensures
        r == spec_dot(row@, v@),
        -12_000_001 <= r <= 12_000_001,
{
    proof {
        lemma_mul_abs_bound(row@.x, v@.x, 2_000_000);
        lemma_mul_abs_bound(row@.y, v@.y, 2_000_000);
        lemma_mul_abs_bound(row@.z, v@.z, 2_000_000);
        lemma_div_trunc_bounds(spec_dot_raw(row@, v@), SCALE as int);
    }
    let raw = row.x * v.x + row.y * v.y + row.z * v.z;
    div_trunc(raw, SCALE)
}

/// Applies a rotation matrix to a vector.
pub fn mat_apply(m: &Mat3, v: &Vec3) -> (r: Vec3)
    requires
        wf_mat(m@),
        bounded(v@, 2_000_000),
    ensures
        r@ == spec_mat_apply(m@, v@),
        bounded(r@, 12_000_001),
{
    Vec3 {
        x: mat_row_apply(&m.r0, v),
        y: mat_row_apply(&m.r1, v),
        z: mat_row_apply(&m.r2, v),
    }
}

/// The rotation applied to the sphere since the previous tick, given
/// its previous and current orientations: the product of the current
/// matrix with the transpose of the previous one (a rotation's inverse
/// is its transpose).  Entry `(i, j)` is the dot product of row `i` of
/// the current matrix with row `j` of the previous one.
pub open spec fn spec_rotation_delta(current: SpecMat3, previous: SpecMat3) -> SpecMat3 {
    SpecMat3 {
        r0: SpecVec3 {
            x: spec_dot(current.r0, previous.r0),
            y: spec_dot(current.r0, previous.r1),
            z: spec_dot(current.r0, previous.r2),
        },
        r1: SpecVec3 {
            x: spec_dot(current.r1, previous.r0),
            y: spec_dot(current.r1, previous.r1),
            z: spec_dot(current.r1, previous.r2),
        },
        r2: SpecVec3 {
            x: spec_dot(current.r2, previous.r0),
            y: spec_dot(current.r2, previous.r1),
            z: spec_dot(current.r2, previous.r2),
        },
    }
}

/// Computes the incremental sphere rotation between two ticks from the
/// previous and current orientations, the form `tick` consumes.  For
/// genuine rotations the result is again a rotation up to rounding; the
/// entry bound proved here is only the coarse one that holds for any
/// two well-formed matrices, so a host checks `wf_mat`-sized entries
/// before handing the delta to `tick`.
pub fn rotation_delta(current: &Mat3, previous: &Mat3) -> (d: Mat3)
    requires
        wf_mat(current@),
        wf_mat(previous@),
    ensures
        d@ == spec_rotation_delta(current@, previous@),
        bounded(d@.r0, 12_000_001),
        bounded(d@.r1, 12_000_001),
        bounded(d@.r2, 12_000_001),
{
    Mat3 {
        r0: Vec3 {
            x: mat_row_apply(&current.r0, &previous.r0),
            y: mat_row_apply(&current.r0, &previous.r1),
            z: mat_row_apply(&current.r0, &previous.r2),
        },
        r1: Vec3 {
            x: mat_row_apply(&current.r1, &previous.r0),
            y: mat_row_apply(&current.r1, &previous.r1),
            z: mat_row_apply(&current.r1, &previous.r2),
        },
        r2: Vec3 {
            x: mat_row_apply(&current.r2, &previous.r0),
            y: mat_row_apply(&current.r2, &previous.r1),
            z: mat_row_apply(&current.r2, &previous.r2),
        },
    }
}

/// The mathematical model of the agent.
pub struct SpecAgent {
    pub center: SpecVec3,
    pub forward: SpecVec3,
    pub up: SpecVec3,
    pub right: SpecVec3,
    pub current_face_id: int,
}

/// The agent's state: its true position on the unit sphere, its
/// orthonormal tangent frame, and the id of the nearest face.
#[derive(Clone, Copy, Debug)]
pub struct AgentState {
    pub center: Vec3,
    pub forward: Vec3,
    pub up: Vec3,
    pub right: Vec3,
    pub current_face_id: usize,
}

impl View for AgentState {
    type V = SpecAgent;

    open spec fn view(&self) -> SpecAgent {
        SpecAgent {
            center: self.center@,
            forward: self.forward@,
            up: self.up@,
            right: self.right@,
            current_face_id: self.current_face_id as int,
        }
    }
}

/// Every frame vector lies on the unit sphere, up to rounding.
pub open spec fn wf_agent(s: SpecAgent) -> bool {
    unit_vec(s.center) && unit_vec(s.forward) && unit_vec(s.up) && unit_vec(s.right)
}

/// The mathematical model of a render transform.
pub struct SpecFrame {
    pub position: SpecVec3,
    pub right: SpecVec3,
    pub up: SpecVec3,
    pub forward: SpecVec3,
}

/// The render transform handed to the host: a position and the
/// orthonormal frame (right, up, forward).
#[derive(Clone, Copy, Debug, PartialEq, Eq, Structural)]
pub struct Frame {
    pub position: Vec3,
    pub right: Vec3,
    pub up: Vec3,
    pub forward: Vec3,
}

impl View for Frame {
    type V = SpecFrame;

    open spec fn view(&self) -> SpecFrame {
        SpecFrame {
            position: self.position@,
            right: self.right@,
            up: self.up@,
            forward: self.forward@,
        }
    }
}

/// What one tick returns: the new agent state, its render transform,
/// and whether a nearest face existed (`false` only on an empty mesh,
/// in which case the face id is left unchanged).
pub struct TickOutput {
    pub state: AgentState,
    pub transform: Frame,
    pub face_found: bool,
}

/// The agent the host starts with: at the sphere's +z pole, facing +y.
pub fn initial_agent() -> (s: AgentState)
    ensures
        s@.center == (SpecVec3 { x: 0, y: 0, z: SCALE as int }),
        s@.forward == (SpecVec3 { x: 0, y: SCALE as int, z: 0 }),
        s@.up == (SpecVec3 { x: 0, y: 0, z: SCALE as int }),
        s@.right == (SpecVec3 { x: SCALE as int, y: 0, z: 0 }),
        s@.current_face_id == 0,
        wf_agent(s@),
{
    proof {
        assert((SCALE as int) * (SCALE as int) == 1_000_000_000_000) by (nonlinear_arith);
    }
    AgentState {
        center: Vec3 { x: 0, y: 0, z: SCALE },
        forward: Vec3 { x: 0, y: SCALE, z: 0 },
        up: Vec3 { x: 0, y: 0, z: SCALE },
        right: Vec3 { x: SCALE, y: 0, z: 0 },
        current_face_id: 0,
    }
}

/// The centroid of a face after the sphere's rotation is applied.
pub open spec fn spec_rot_centroid(f: SpecFace, ori: SpecMat3) -> SpecVec3 {
    let ra = spec_mat_apply(ori, f.a);
    let rb = spec_mat_apply(ori, f.b);
    let rc = spec_mat_apply(ori, f.c);
    SpecVec3 {
        x: spec_div_trunc(ra.x + rb.x + rc.x, 3),
        y: spec_div_trunc(ra.y + rb.y + rc.y, 3),
        z: spec_div_trunc(ra.z + rb.z + rc.z, 3),
    }
}

/// Squared distance from `c` to the rotated centroid of `f`.
pub open spec fn spec_face_dist(f: SpecFace, ori: SpecMat3, c: SpecVec3) -> int {
    spec_norm_sq(spec_sub(c, spec_rot_centroid(f, ori)))
}

/// The position of the nearest face among the first `k`, ties resolved
/// to the earliest (lowest id); paired with its squared distance.
pub open spec fn spec_nearest_upto(
    m: Seq<SpecFace>,
    ori: SpecMat3,
    c: SpecVec3,
    k: nat,
) -> (int, int)
    decreases k,
{
    if k <= 1 {
        (0, spec_face_dist(m[0], ori, c))
    } else {
        let (bp, bd) = spec_nearest_upto(m, ori, c, (k - 1) as nat);
        let d = spec_face_dist(m[(k - 1) as int], ori, c);
        if d < bd {
            (k - 1, d)
        } else {
            (bp, bd)
        }
    }
}

/// The position of the face whose rotated centroid is nearest to `c`.
pub open spec fn spec_nearest_pos(m: Seq<SpecFace>, ori: SpecMat3, c: SpecVec3) -> int {
    spec_nearest_upto(m, ori, c, m.len()).0
}

proof fn lemma_nearest_pos_range(m: Seq<SpecFace>, ori: SpecMat3, c: SpecVec3, k: nat)
    requires
        k >= 1,
    ensures
        0 <= spec_nearest_upto(m, ori, c, k).0 < k,
    decreases k,
{
    if k > 1 {
        lemma_nearest_pos_range(m, ori, c, (k - 1) as nat);
    }
}

fn rot_centroid(f_a: &Vec3, f_b: &Vec3, f_c: &Vec3, ori: &Mat3, ghost_f: Ghost<SpecFace>) -> (r: Vec3)
    requires
        wf_mat(ori@),
        bounded(f_a@, 2_000_000),
        bounded(f_b@, 2_000_000),
        bounded(f_c@, 2_000_000),
        ghost_f@.a == f_a@,
        ghost_f@.b == f_b@,
        ghost_f@.c == f_c@,
    ensures
        r@ == spec_rot_centroid(ghost_f@, ori@),
        bounded(r@, 12_000_001),
{
    let ra = mat_apply(ori, f_a);
    let rb = mat_apply(ori, f_b);
    let rc = mat_apply(ori, f_c);
    proof {
        lemma_div_trunc_bounds(ra@.x + rb@.x + rc@.x, 3);
        lemma_div_trunc_bounds(ra@.y + rb@.y + rc@.y, 3);
        lemma_div_trunc_bounds(ra@.z + rb@.z + rc@.z, 3);
    }
    Vec3 {
        x: div_trunc(ra.x + rb.x + rc.x, 3),
        y: div_trunc(ra.y + rb.y + rc.y, 3),
        z: div_trunc(ra.z + rb.z + rc.z, 3),
    }
}

fn face_dist(f: &crate::mesh::Face, ori: &Mat3, c: &Vec3) -> (d: i64)
    requires
        wf_mat(ori@),
        bounded(f@.a, 2_000_000),
        bounded(f@.b, 2_000_000),
        bounded(f@.c, 2_000_000),
        bounded(c@, 2_000_000),
    ensures
        d == spec_face_dist(f@, ori@, c@),
        d >= 0,
{
    let cen = rot_centroid(&f.a, &f.b, &f.c, ori, Ghost(f@));
    let diff = c.sub(&cen);
    proof {
        crate::vec3::lemma_sq_bounds(diff@.x, 14_000_002);
        crate::vec3::lemma_sq_bounds(diff@.y, 14_000_002);
        crate::vec3::lemma_sq_bounds(diff@.z, 14_000_002);
    }
    diff.norm_sq()
}

/// Finds the face whose rotated centroid is nearest to `c` (ties to the
/// lowest id); `None` exactly when the mesh is empty.
pub fn nearest_face(mesh: &Mesh, ori: &Mat3, c: &Vec3) -> (r: Option<usize>)
    requires
        wf_mesh(mesh@),
        wf_mat(ori@),
        bounded(c@, 2_000_000),
    ensures
        (mesh@.len() == 0) == (r is None),
        r matches Some(p) ==> p == spec_nearest_pos(mesh@, ori@, c@) && p < mesh@.len(),
{
    let n = mesh.faces.len();
    if n == 0 {
        return None;
    }
    proof {
        assert(crate::mesh::wf_face(mesh@[0]));
    }
    let mut best_pos: usize = 0;
    let mut best_d: i64 = face_dist(&mesh.faces[0], ori, c);
    let mut i: usize = 1;
    while i < n
        invariant
            1 <= i <= n,
            n == mesh@.len(),
            wf_mesh(mesh@),
            wf_mat(ori@),
            bounded(c@, 2_000_000),
            (best_pos as int, best_d as int) == spec_nearest_upto(mesh@, ori@, c@, i as nat),
            best_pos < i,
        decreases n - i,
    {
        proof {
            assert(crate::mesh::wf_face(mesh@[i as int]));
        }
        let d = face_dist(&mesh.faces[i], ori, c);
        if d < best_d {
            best_pos = i;
            best_d = d;
        }
        i = i + 1;
    }
    Some(best_pos)
}

/// The full per-tick update of the agent, as a function of the old
/// state and the tick's inputs.  Every normalization falls back to the
/// previous vector if its input is degenerate, so the update is total.
pub open spec fn spec_tick(
    s: SpecAgent,
    m: Seq<SpecFace>,
    speed: int,
    turn_rate: int,
    dt: int,
    delta: SpecMat3,
    ori: SpecMat3,
) -> SpecAgent {
    let sd = spec_mul_fp(speed, dt);
    let td = spec_mul_fp(turn_rate, dt);
    // 1. Carry the agent along with the sphere's incremental rotation.
    let c1 = spec_normalize_or(spec_mat_apply(delta, s.center), s.center);
    let f1 = spec_normalize_or(spec_mat_apply(delta, s.forward), s.forward);
    // 2. The surface normal at the agent's position.
    let u1 = spec_normalize_or(c1, s.up);
    // 3. Re-orthogonalize forward against up.
    let f2 = spec_normalize_or(spec_sub(f1, spec_scale(u1, spec_dot(u1, f1))), f1);
    // 4. Rebuild right from the corrected frame.
    let r1 = spec_normalize_or(spec_cross(u1, f2), s.right);
    // 5. Integrate translation along forward, back onto the sphere.
    let c2 = spec_normalize_or(spec_add(c1, spec_scale(f2, sd)), c1);
    // 6. Blend forward toward right by the turn amount, and right back.
    let f3 = spec_normalize_or(spec_sub(f2, spec_scale(r1, td)), f2);
    let r2 = spec_normalize_or(spec_add(r1, spec_scale(f3, td)), r1);
    // 7. Gram-Schmidt pass: up fixed, then forward, then right.
    let f4 = spec_normalize_or(spec_sub(f3, spec_scale(u1, spec_dot(u1, f3))), f3);
    let r3 = spec_normalize_or(spec_sub(r2, spec_scale(u1, spec_dot(u1, r2))), r2);
    let r4 = spec_normalize_or(spec_sub(r3, spec_scale(f4, spec_dot(f4, r3))), r3);
    // 8. Up follows the translated position.
    let u2 = spec_normalize_or(c2, u1);
    // 9. Lock onto the nearest face of the rotated mesh.
    let fid = if m.len() == 0 {
        s.current_face_id
    } else {
        m[spec_nearest_pos(m, ori, c2)].id
    };
    SpecAgent { center: c2, forward: f4, up: u2, right: r4, current_face_id: fid }
}

/// Advances the agent by one tick: translation intent `speed`, turn
/// intent `turn_rate`, elapsed time `dt`, the sphere's incremental
/// rotation since the last tick, and its current orientation for the
/// nearest-face search.  The returned frame stays within rounding
/// distance of unit length, whatever the inputs; on an empty mesh the
/// face id is left unchanged and `face_found` is false.
pub fn tick(
    state: &AgentState,
    mesh: &Mesh,
    speed: i64,
    turn_rate: i64,
    dt: i64,
    delta: &Mat3,
    orientation: &Mat3,
) -> (out: TickOutput)
    requires
        wf_agent(state@),
        wf_mesh(mesh@),
        wf_mat(delta@),
        wf_mat(orientation@),
        0 <= dt <= SCALE,
        -1_000_000_000 <= speed <= 1_000_000_000,
        -1_000_000_000 <= turn_rate <= 1_000_000_000,
        -STEP_MAX_RAW <= speed * dt <= STEP_MAX_RAW,
        -STEP_MAX_RAW <= turn_rate * dt <= STEP_MAX_RAW,
    ensures
        out.state@ == spec_tick(state@, mesh@, speed as int, turn_rate as int, dt as int,
            delta@, orientation@),
        wf_agent(out.state@),
        out.face_found == (mesh@.len() > 0),
        !out.face_found ==> out.state@.current_face_id == state@.current_face_id,
        out.face_found ==> 1 <= out.state@.current_face_id <= mesh@.len(),
        out.transform.position == out.state.center,
        out.transform.right == out.state.right,
        out.transform.up == out.state.up,
        out.transform.forward == out.state.forward,
{
    let sd = mul_fp(speed, dt);
    let td = mul_fp(turn_rate, dt);
    proof {
        lemma_div_trunc_bounds((speed * dt) as int, SCALE as int);
        lemma_div_trunc_bounds((turn_rate * dt) as int, SCALE as int);
        assert(-333_334 <= sd as int <= 333_334);
        assert(-333_334 <= td as int <= 333_334);
    }
    let c1 = mat_apply(delta, &state.center).normalize_or(&state.center);
    let f1 = mat_apply(delta, &state.forward).normalize_or(&state.forward);
    let u1 = c1.normalize_or(&state.up);
    let duf = u1.dot(&f1);
    proof {
        lemma_dot_unit_bound(u1@, f1@);
        lemma_div_trunc_bounds(u1@.x * duf, SCALE as int);
        lemma_div_trunc_bounds(u1@.y * duf, SCALE as int);
        lemma_div_trunc_bounds(u1@.z * duf, SCALE as int);
    }
    let f2 = f1.sub(&u1.scale(duf)).normalize_or(&f1);
    let r1 = u1.cross(&f2).normalize_or(&state.right);
    let c2 = c1.add(&f2.scale(sd)).normalize_or(&c1);
    let f3 = f2.sub(&r1.scale(td)).normalize_or(&f2);
    let r2 = r1.add(&f3.scale(td)).normalize_or(&r1);
    let duf3 = u1.dot(&f3);
    proof {
        lemma_dot_unit_bound(u1@, f3@);
    }
    let f4 = f3.sub(&u1.scale(duf3)).normalize_or(&f3);
    let dur2 = u1.dot(&r2);
    proof {
        lemma_dot_unit_bound(u1@, r2@);
    }
    let r3 = r2.sub(&u1.scale(dur2)).normalize_or(&r2);
    let dfr3 = f4.dot(&r3);
    proof {
        lemma_dot_unit_bound(f4@, r3@);
    }
    let r4 = r3.sub(&f4.scale(dfr3)).normalize_or(&r3);
    let u2 = c2.normalize_or(&u1);
    let (fid, found) = match nearest_face(mesh, orientation, &c2) {
        Some(p) => {
            proof {
                assert(crate::mesh::wf_face(mesh@[p as int]));
                assert(mesh@[p as int].id == p + 1);
            }
            (mesh.faces[p].id, true)
        },
        None => (state.current_face_id, false),
    };
    let new_state = AgentState {
        center: c2,
        forward: f4,
        up: u2,
        right: r4,
        current_face_id: fid,
    };
    TickOutput {
        state: new_state,
        transform: Frame { position: c2, right: r4, up: u2, forward: f4 },
        face_found: found,
    }
}

/// The fixed-point dot product of two unit vectors is within a few
/// units of the unit scale in magnitude.
pub proof fn lemma_dot_unit_bound(a: SpecVec3, b: SpecVec3)
    requires
        bounded(a, SCALE as int),
        bounded(b, SCALE as int),
    ensures
        -3_000_000 <= spec_dot(a, b) <= 3_000_000,
{
    lemma_mul_abs_bound(a.x, b.x, SCALE as int);
    lemma_mul_abs_bound(a.y, b.y, SCALE as int);
    lemma_mul_abs_bound(a.z, b.z, SCALE as int);
    lemma_div_trunc_bounds(spec_dot_raw(a, b), SCALE as int);
}

/// Projects the agent onto the plane of its nearest face and builds the
/// render frame there: position on the face's plane, `up` along the
/// face normal, `forward` and `right` projected into the plane.
/// Fails with `EmptyMesh` on a mesh with no faces and with
/// `DegenerateNormal` when the nearest face is collinear, leaving the
/// caller's state untouched.
#[verifier::rlimit(80)]
pub fn visual_transform(
    state: &AgentState,
    mesh: &Mesh,
    orientation: &Mat3,
) -> (r: Result<Frame, GeoError>)
    requires
        wf_agent(state@),
        wf_mesh(mesh@),
        wf_mat(orientation@),
    ensures
        r is Ok <==> mesh@.len() > 0 && spec_visual_frame(state@, mesh@, orientation@) is Some,
        r == Err::<Frame, GeoError>(GeoError::EmptyMesh) <==> mesh@.len() == 0,
        r matches Ok(fr) ==> spec_visual_frame(state@, mesh@, orientation@) matches Some(sf)
            && fr@ == sf,
        r matches Ok(fr) ==> unit_vec(fr@.up) && unit_vec(fr@.forward) && unit_vec(fr@.right),
        r == Err::<Frame, GeoError>(GeoError::DegenerateNormal) <==> mesh@.len() > 0
            && spec_visual_frame(state@, mesh@, orientation@) is None,
{
    let n = mesh.faces.len();
    if n == 0 {
        return Err(GeoError::EmptyMesh);
    }
    let p = match nearest_face(mesh, orientation, &state.center) {
        Some(p) => p,
        None => {
            proof {
                assert(false);
            }
            0
        },
    };
    proof {
        assert(crate::mesh::wf_face(mesh@[p as int]));
    }
    let f = &mesh.faces[p];
    let ra = mat_apply(orientation, &f.a);
    let rb = mat_apply(orientation, &f.b);
    let rc = mat_apply(orientation, &f.c);
    let e1 = rb.sub(&ra);
    let e2 = rc.sub(&ra);
    let cr = e1.cross(&e2);
    let normal = match cr.normalize_dir() {
        Some(nv) => nv,
        None => {
            return Err(GeoError::DegenerateNormal);
        },
    };
    let cen = rot_centroid(&f.a, &f.b, &f.c, orientation, Ghost(f@));
    let offset = state.center.sub(&cen);
    let dno = normal.dot(&offset);
    proof {
        lemma_dot_wide_bound(normal@, offset@);
    }
    let position = state.center.sub(&normal.scale(dno));
    let dnf = normal.dot(&state.forward);
    proof {
        lemma_dot_unit_bound(normal@, state@.forward);
    }
    let fwd = state.forward.sub(&normal.scale(dnf)).normalize_or(&state.forward);
    let right = normal.cross(&fwd).normalize_or(&state.right);
    Ok(Frame { position, right, up: normal, forward: fwd })
}

/// The frame `visual_transform` produces, or `None` when the nearest
/// face is degenerate.
pub open spec fn spec_visual_frame(
    s: SpecAgent,
    m: Seq<SpecFace>,
    ori: SpecMat3,
) -> Option<SpecFrame> {
    let f = m[spec_nearest_pos(m, ori, s.center)];
    let ra = spec_mat_apply(ori, f.a);
    let rb = spec_mat_apply(ori, f.b);
    let rc = spec_mat_apply(ori, f.c);
    let cr = spec_cross(spec_sub(rb, ra), spec_sub(rc, ra));
    if spec_norm_sq(cr) == 0 {
        None
    } else {
        let normal = spec_normalize(spec_upscale(cr));
        let cen = spec_rot_centroid(f, ori);
        let position = spec_sub(s.center, spec_scale(normal, spec_dot(normal,
            spec_sub(s.center, cen))));
        let fwd = spec_normalize_or(spec_sub(s.forward, spec_scale(normal, spec_dot(normal,
            s.forward))), s.forward);
        let right = spec_normalize_or(spec_cross(normal, fwd), s.right);
        Some(SpecFrame { position, right, up: normal, forward: fwd })
    }
}

/// A dot product of a unit vector with a vector of moderate length
/// stays within the scaling range.
pub proof fn lemma_dot_wide_bound(a: SpecVec3, b: SpecVec3)
    requires
        bounded(a, SCALE as int),
        bounded(b, 27_000_000),
    ensures
        -81_000_001 <= spec_dot(a, b) <= 81_000_001,
{
    lemma_mul_abs_bound2(a.x, b.x, SCALE as int, 27_000_000);
    lemma_mul_abs_bound2(a.y, b.y, SCALE as int, 27_000_000);
    lemma_mul_abs_bound2(a.z, b.z, SCALE as int, 27_000_000);
    lemma_div_trunc_bounds(spec_dot_raw(a, b), SCALE as int);
}


/// The rows of a rotation matrix applied to a vector of the unit ball
/// give coordinates of a few units at most.
proof fn lemma_mat_apply_bounded(m: SpecMat3, v: SpecVec3)
    requires
        wf_mat(m),
        bounded(v, 2_000_000),
    ensures
        bounded(spec_mat_apply(m, v), 12_000_001),
{
    lemma_mat_row_bounded(m.r0, v);
    lemma_mat_row_bounded(m.r1, v);
    lemma_mat_row_bounded(m.r2, v);
}

proof fn lemma_mat_row_bounded(row: SpecVec3, v: SpecVec3)
    requires
        bounded(row, MAT_MAX as int),
        bounded(v, 2_000_000),
    ensures
        -12_000_001 <= spec_dot(row, v) <= 12_000_001,
{
    lemma_mul_abs_bound(row.x, v.x, 2_000_000);
    lemma_mul_abs_bound(row.y, v.y, 2_000_000);
    lemma_mul_abs_bound(row.z, v.z, 2_000_000);
    crate::fixed::lemma_div_trunc_bounds(spec_dot_raw(row, v), SCALE as int);
}

/// The cross product of two vectors of the unit ball stays within a
/// couple of units per coordinate.
proof fn lemma_cross_ball_bounded(a: SpecVec3, b: SpecVec3)
    requires
        bounded(a, SCALE as int),
        bounded(b, SCALE as int),
    ensures
        bounded(spec_cross(a, b), 2 * (SCALE as int) + 1),
{
    let k: int = SCALE as int;
    lemma_mul_abs_bound(a.y, b.z, k);
    lemma_mul_abs_bound(a.z, b.y, k);
    lemma_mul_abs_bound(a.z, b.x, k);
    lemma_mul_abs_bound(a.x, b.z, k);
    lemma_mul_abs_bound(a.x, b.y, k);
    lemma_mul_abs_bound(a.y, b.x, k);
    crate::fixed::lemma_div_trunc_bounds(a.y * b.z - a.z * b.y, k);
    crate::fixed::lemma_div_trunc_bounds(a.z * b.x - a.x * b.z, k);
    crate::fixed::lemma_div_trunc_bounds(a.x * b.y - a.y * b.x, k);
}

/// The inputs to the final Gram-Schmidt pass of a tick are long enough
/// to normalize directly.  This holds in all ordinary motion; it could
/// only fail if a rotation or turn step collapsed the frame onto one
/// line, in which case the tick falls back to the previous vectors.
pub open spec fn spec_tick_gs_ok(
    s: SpecAgent,
    speed: int,
    turn_rate: int,
    dt: int,
    delta: SpecMat3,
) -> bool {
    let sd = spec_mul_fp(speed, dt);
    let td = spec_mul_fp(turn_rate, dt);
    let c1 = spec_normalize_or(spec_mat_apply(delta, s.center), s.center);
    let f1 = spec_normalize_or(spec_mat_apply(delta, s.forward), s.forward);
    let u1 = spec_normalize_or(c1, s.up);
    let f2 = spec_normalize_or(spec_sub(f1, spec_scale(u1, spec_dot(u1, f1))), f1);
    let r1 = spec_normalize_or(spec_cross(u1, f2), s.right);
    let f3 = spec_normalize_or(spec_sub(f2, spec_scale(r1, td)), f2);
    let r2 = spec_normalize_or(spec_add(r1, spec_scale(f3, td)), r1);
    &&& MIN_NORM_SQ <= spec_norm_sq(spec_gs_diff(u1, f3))
    &&& MIN_NORM_SQ <= spec_norm_sq(spec_gs_diff(u1, r2))
    &&& MIN_NORM_SQ <= spec_norm_sq(spec_gs_diff(
        spec_normalize(spec_gs_diff(u1, f3)),
        spec_normalize(spec_gs_diff(u1, r2)),
    ))
}

/// Frame invariant of the navigator: after a tick from a well-formed
/// state, the output frame vectors are unit length, and -- whenever the
/// final Gram-Schmidt pass had enough length to work with, which is
/// every tick of ordinary motion -- the corrected forward and right are
/// orthogonal to the up vector the pass used and to each other, within
/// rounding noise (raw dots of a few hundred times `SCALE` against an
/// exact-orthogonality value of zero and a unit of `SCALE * SCALE`).
/// The tick's output `up` follows the freshly moved center, so its tilt
/// against the output forward and right carries one extra term linear
/// in the step scalar `speed * dt`, the arc the center moved this tick;
/// at zero speed it too is pure rounding noise.
pub proof fn lemma_tick_frame_orthogonal(
    s: SpecAgent,
    m: Seq<SpecFace>,
    speed: int,
    turn_rate: int,
    dt: int,
    delta: SpecMat3,
    ori: SpecMat3,
)
    requires
        wf_agent(s),
        wf_mat(delta),
        -333_334 <= spec_mul_fp(speed, dt) <= 333_334,
        -333_334 <= spec_mul_fp(turn_rate, dt) <= 333_334,
        spec_tick_gs_ok(s, speed, turn_rate, dt, delta),
    ensures
        ({
            let out = spec_tick(s, m, speed, turn_rate, dt, delta, ori);
            let u1 = spec_normalize_or(
                spec_normalize_or(spec_mat_apply(delta, s.center), s.center),
                s.up,
            );
            &&& unit_vec(out.center)
            &&& unit_vec(out.forward)
            &&& unit_vec(out.up)
            &&& unit_vec(out.right)
            &&& sabs(spec_dot_raw(u1, out.forward)) <= 131 * (SCALE as int)
            &&& sabs(spec_dot_raw(out.forward, out.right)) <= 131 * (SCALE as int)
            &&& sabs(spec_dot_raw(u1, out.right)) <= 2111 * (SCALE as int)
            &&& sabs(spec_dot_raw(out.up, out.forward)) <= 617 * (SCALE as int)
                + 12 * sabs(spec_mul_fp(speed, dt)) * (SCALE as int)
            &&& sabs(spec_dot_raw(out.up, out.right)) <= 8537 * (SCALE as int)
                + 12 * sabs(spec_mul_fp(speed, dt)) * (SCALE as int)
        }),
{
    let k: int = SCALE as int;
    let sd = spec_mul_fp(speed, dt);
    let td = spec_mul_fp(turn_rate, dt);
    let c1 = spec_normalize_or(spec_mat_apply(delta, s.center), s.center);
    let f1 = spec_normalize_or(spec_mat_apply(delta, s.forward), s.forward);
    let u1 = spec_normalize_or(c1, s.up);
    lemma_mat_apply_bounded(delta, s.center);
    lemma_mat_apply_bounded(delta, s.forward);
    lemma_normalize_or_unit(spec_mat_apply(delta, s.center), s.center);
    lemma_normalize_or_unit(spec_mat_apply(delta, s.forward), s.forward);
    lemma_normalize_or_unit(c1, s.up);
    let f2 = spec_normalize_or(spec_sub(f1, spec_scale(u1, spec_dot(u1, f1))), f1);
    lemma_dot_ball_bound(u1, f1);
    lemma_scale_ball_bound(u1, spec_dot(u1, f1));
    lemma_normalize_or_unit(spec_sub(f1, spec_scale(u1, spec_dot(u1, f1))), f1);
    let r1 = spec_normalize_or(spec_cross(u1, f2), s.right);
    lemma_cross_ball_bounded(u1, f2);
    lemma_normalize_or_unit(spec_cross(u1, f2), s.right);
    let f3 = spec_normalize_or(spec_sub(f2, spec_scale(r1, td)), f2);
    lemma_scale_ball_bound(r1, td);
    lemma_normalize_or_unit(spec_sub(f2, spec_scale(r1, td)), f2);
    let r2 = spec_normalize_or(spec_add(r1, spec_scale(f3, td)), r1);
    lemma_scale_ball_bound(f3, td);
    lemma_normalize_or_unit(spec_add(r1, spec_scale(f3, td)), r1);
    let c2 = spec_normalize_or(spec_add(c1, spec_scale(f2, sd)), c1);
    lemma_scale_ball_bound(f2, sd);
    lemma_normalize_or_unit(spec_add(c1, spec_scale(f2, sd)), c1);
    let u2 = spec_normalize_or(c2, u1);
    lemma_normalize_or_unit(c2, u1);
    // The final pass is exactly the frame correction law.
    lemma_frame_orthogonal(u1, f3, r2);
    lemma_gs_unit(u1, f3);
    lemma_gs_unit(u1, r2);
    lemma_gs_unit(
        spec_normalize(spec_gs_diff(u1, f3)),
        spec_normalize(spec_gs_diff(u1, r2)),
    );
    let out = spec_tick(s, m, speed, turn_rate, dt, delta, ori);
    assert(out.forward == spec_normalize(spec_gs_diff(u1, f3)));
    assert(out.right == spec_normalize(spec_gs_diff(out.forward,
        spec_normalize(spec_gs_diff(u1, r2)))));
    assert(out.center == c2 && out.up == u2);
    // The refreshed up: the center was unit before the translation, so
    // up was its exact renormalization, and the tilt added by the move
    // is linear in the step scalar.
    assert(u1 == spec_normalize(c1));
    crate::vec3::lemma_up_refresh_dot(c1, u1, f2, sd, out.forward, 131 * k, sabs(sd));
    crate::vec3::lemma_up_refresh_dot(c1, u1, f2, sd, out.right, 2111 * k, sabs(sd));
}

} // verus!
