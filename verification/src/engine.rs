//! The ray-marching render engine.
//!
//! A [`BosonEngine`] owns a brightness buffer of `H` rows by `W` columns,
//! a vertex pool, a list of mesh objects (index triangles plus one model
//! transform each) and a view transform. [`BosonEngine::raytrace`] marches a
//! ray per cell: from a screen point on the near plane at one unit depth it
//! steps outward a fixed distance at a time, up to [`MAX_STEPS`] times, and
//! stops at the first triangle whose containment test accepts the current
//! position — first hit in iteration order, not necessarily the nearest in
//! depth. A hit shades the cell with the triangle normal against a fixed
//! light direction, remapped into `[0, 1]`; a miss leaves the background
//! sentinel. [`BosonEngine::display`] quantizes brightness to glyphs.
//!
//! Every brightness value is a fixed-point number as in [`crate::fixed`].

use vstd::prelude::*;

verus! {

use crate::fixed::SCALE;
use crate::fixed::tdiv;
use crate::linalg::Mat4x4;
use crate::linalg::V3;
use crate::linalg::Vec3;
use crate::linalg::check_inside;
use crate::linalg::check_inside_spec;
use crate::linalg::lemma_add_bounded;
use crate::linalg::lemma_cross_ok;
use crate::linalg::lemma_dot_ok;
use crate::linalg::lemma_mag_of_bounded;
use crate::linalg::lemma_mag_ge_comp;
use crate::linalg::lemma_mm_mul_bounded;
use crate::linalg::lemma_mv_mul_bounded;
use crate::linalg::lemma_scale_ok;
use crate::linalg::lemma_sub_bounded;
use crate::linalg::mat_bounded;
use crate::linalg::mm_mul;
use crate::linalg::mv_mul;
use crate::linalg::v3_add;
use crate::linalg::v3_bounded;
use crate::linalg::v3_cross;
use crate::linalg::v3_dot;
use crate::linalg::v3_mag;
use crate::linalg::v3_scale;
use crate::linalg::v3_sub;
use crate::linalg::v3_unit;
use vstd::arithmetic::div_mod::lemma_div_is_ordered;
use vstd::arithmetic::div_mod::lemma_multiply_divide_lt;
use vstd::arithmetic::div_mod::lemma_div_pos_is_pos;
use vstd::string::StrSliceExecFns;

/// Farthest distance a ray is marched, in fixed-point units: four units.
pub const MAX_STEP_DISTANCE: i64 = 262144;

/// Length of one marching step, in fixed-point units: the nearest
/// representation of a tenth of a unit.
pub const STEP_DISTANCE: i64 = 6554;

/// Number of marching steps per ray: the step count that covers
/// [`MAX_STEP_DISTANCE`] in steps of a tenth of a unit.
pub const MAX_STEPS: u32 = 40;

/// The background sentinel: minus one unit, the value a miss leaves in a
/// cell. The display maps every value below zero to a blank.
pub const BACKGROUND: i64 = -65536;

/// Largest magnitude allowed for a scene coordinate or matrix entry
/// (thirty-two units): keeps every intermediate of a traversal within the
/// 64-bit fixed-point range.
pub const SCENE_BOUND: i64 = 2097152;

/// Largest magnitude of a transformed vertex coordinate under
/// [`SCENE_BOUND`]-bounded input: the bound the matrix lemmas give for
/// `view * model * vertex`.
pub const VERTEX_BOUND: i64 = 26038239232;

/// Largest magnitude of a marching position coordinate: one unit of near
/// plane plus the full marching range.
pub const POS_BOUND: i64 = 327696;

/// Largest width or height of a frame buffer.
pub const SIDE_LIMIT: usize = 1048576;

/// The glyph ramp, densest first: index `k` renders a brightness around
/// `k / 68` of a unit.
pub const LUMA_INDEX: &'static str =
    "$@B%8&WM#*oahkbdpqwmZO0QLCJUYXzcvunxrjft/\\|()1{}[]?-_+~<>i!lI;:,\"^`'.";

/// A mesh: an ordered sequence of triangles, each three indices into the
/// shared vertex pool.
pub type Mesh = Vec<[usize; 3]>;

/// One scene object: a mesh plus the model transform applied to every
/// vertex the mesh references.
pub struct Object3D {
    pub mesh: Mesh,
    pub model_matrix: Mat4x4,
}

/// The render engine. It owns its scene: the caller populates the fields
/// (or uses [`BosonEngine::new`]), calls [`BosonEngine::raytrace`], reads
/// rows from [`BosonEngine::display`], and may replace the transforms
/// between passes.
pub struct BosonEngine<const W: usize, const H: usize> {
    pub ibuffer: Vec<Vec<i64>>,
    pub vertices: Vec<Vec3>,
    pub objects: Vec<Object3D>,
    pub view_matrix: Mat4x4,
}

/// Index of the glyph chosen for a nonnegative brightness `b`: the ramp
/// position `68 * b`, scaled down and clamped to the table.
pub open spec fn luma_index_of(b: int) -> int {
    if 68 * b / (SCALE as int) > 68 {
        68
    } else {
        68 * b / (SCALE as int)
    }
}

/// The glyph for a brightness value: blank below zero (the background
/// sentinel), otherwise the ramp glyph at [`luma_index_of`].
pub open spec fn luma_spec(b: int) -> char {
    if b < 0 {
        ' '
    } else {
        LUMA_INDEX@[luma_index_of(b)]
    }
}

/// The glyph for one brightness value. Negative values (the background
/// sentinel) give a blank; values above one unit are clamped to the last
/// glyph rather than read past the table.
pub fn get_luma(f: i64) -> (c: char)
    ensures
        c == luma_spec(f as int),
{
    proof {
        reveal_strlit("$@B%8&WM#*oahkbdpqwmZO0QLCJUYXzcvunxrjft/\\|()1{}[]?-_+~<>i!lI;:,\"^`'.");
    }
    if f < 0 {
        return ' ';
    }
    let scaled: i128 = 68i128 * (f as i128) / 65536;
    proof {
        lemma_div_pos_is_pos(68 * (f as int), SCALE as int);
    }
    let idx: usize = if scaled > 68 {
        68
    } else {
        scaled as usize
    };
    LUMA_INDEX.get_char(idx)
}

/// The glyph ramp is monotonic: a brighter value never picks an earlier
/// (denser) glyph, and the index never leaves the table.
pub proof fn lemma_luma_monotonic(b1: int, b2: int)
    requires
        0 <= b1 <= b2,
    ensures
        luma_index_of(b1) <= luma_index_of(b2),
        0 <= luma_index_of(b1) <= 68,
{
    lemma_div_is_ordered(68 * b1, 68 * b2, SCALE as int);
    lemma_div_pos_is_pos(68 * b1, SCALE as int);
    lemma_div_pos_is_pos(68 * b2, SCALE as int);
}

/// Any brightness below zero (the background sentinel in particular)
/// renders as the blank glyph.
pub proof fn lemma_luma_blank(b: int)
    requires
        b < 0,
    ensures
        luma_spec(b) == ' ',
{
}

/// The fixed light direction the shader compares normals against.
pub open spec fn light_v3() -> V3 {
    V3 { x: 0, y: -32768, z: 32768 }
}

/// Unit vector of `v`, with the zero vector passed through unchanged: the
/// engine's defence against normalizing degenerate geometry.
pub open spec fn safe_unit(v: V3) -> V3 {
    if v3_mag(v) == 0 {
        V3 { x: 0, y: 0, z: 0 }
    } else {
        v3_unit(v)
    }
}

/// The screen point of cell `(i, j)`: x spans `[-1, 1)` left to right,
/// y spans `(-1, 1]` top to bottom, at a fixed near-plane depth of one.
pub open spec fn origin_spec(i: int, j: int, w: int, h: int) -> V3 {
    V3 {
        x: tdiv(2 * (SCALE as int) * j, w) - SCALE as int,
        y: SCALE as int - tdiv(2 * (SCALE as int) * i, h),
        z: SCALE as int,
    }
}

/// The views of a pool of vertices.
pub open spec fn v3seq(s: Seq<Vec3>) -> Seq<V3> {
    s.map_values(|v: Vec3| v@)
}

/// A triangle's indices all lie within a pool of `n` vertices.
pub open spec fn tri_ok(tri: [usize; 3], n: nat) -> bool {
    tri@[0] < n && tri@[1] < n && tri@[2] < n
}

/// Every triangle of every object indexes within a pool of `n` vertices.
pub open spec fn mesh_valid(objects: Seq<Object3D>, n: nat) -> bool {
    forall|o: int, t: int|
        0 <= o < objects.len() && 0 <= t < objects[o].mesh@.len() ==> tri_ok(
            #[trigger] objects[o].mesh@[t],
            n,
        )
}

/// The scene a traversal accepts: every vertex coordinate and matrix entry
/// within [`SCENE_BOUND`], and every mesh index within the pool.
pub open spec fn scene_ok(vertices: Seq<Vec3>, objects: Seq<Object3D>, view: Seq<Seq<int>>) -> bool {
    &&& forall|k: int|
        0 <= k < vertices.len() ==> v3_bounded((#[trigger] vertices[k])@, SCENE_BOUND as int)
    &&& mat_bounded(view, SCENE_BOUND as int)
    &&& forall|o: int|
        0 <= o < objects.len() ==> mat_bounded(
            (#[trigger] objects[o]).model_matrix@,
            SCENE_BOUND as int,
        )
    &&& mesh_valid(objects, vertices.len())
}

/// One triangle's three transformed vertices written into the working
/// pool, each read from the untransformed pool.
pub open spec fn write_tri(pool0: Seq<V3>, acc: Seq<V3>, cm: Seq<Seq<int>>, tri: [usize; 3]) -> Seq<
    V3,
> {
    acc.update(tri@[0] as int, mv_mul(cm, pool0[tri@[0] as int])).update(
        tri@[1] as int,
        mv_mul(cm, pool0[tri@[1] as int]),
    ).update(tri@[2] as int, mv_mul(cm, pool0[tri@[2] as int]))
}

/// The working pool after the first `t` triangles of one mesh have written
/// their transformed vertices.
pub open spec fn mesh_fold(
    pool0: Seq<V3>,
    acc: Seq<V3>,
    cm: Seq<Seq<int>>,
    mesh: Seq<[usize; 3]>,
    t: int,
) -> Seq<V3>
    decreases t,
{
    if t <= 0 {
        acc
    } else {
        write_tri(pool0, mesh_fold(pool0, acc, cm, mesh, t - 1), cm, mesh[t - 1])
    }
}

/// The working pool after the first `o` objects have written their
/// transformed vertices, each through `view * model`.
pub open spec fn objs_fold(
    pool0: Seq<V3>,
    view: Seq<Seq<int>>,
    objects: Seq<Object3D>,
    o: int,
) -> Seq<V3>
    decreases o,
{
    if o <= 0 {
        pool0
    } else {
        mesh_fold(
            pool0,
            objs_fold(pool0, view, objects, o - 1),
            mm_mul(view, objects[o - 1].model_matrix@),
            objects[o - 1].mesh@,
            objects[o - 1].mesh@.len() as int,
        )
    }
}

/// The transformed vertex pool a traversal marches against: every object's
/// triangles write `view * model * vertex` over a copy of the pool, in
/// list order (a vertex shared between objects keeps the last write).
pub open spec fn tpool_spec(
    vertices: Seq<Vec3>,
    objects: Seq<Object3D>,
    view: Seq<Seq<int>>,
) -> Seq<V3> {
    objs_fold(v3seq(vertices), view, objects, objects.len() as int)
}

/// Whether the marching position is inside this triangle of the
/// transformed pool.
pub open spec fn tri_hit(tp: Seq<V3>, tri: [usize; 3], pos: V3) -> bool {
    check_inside_spec(tp[tri@[0] as int], tp[tri@[1] as int], tp[tri@[2] as int], pos)
}

/// The unit normal of a triangle of the transformed pool; a degenerate
/// triangle (zero cross product) keeps the zero normal.
pub open spec fn tri_normal(tp: Seq<V3>, tri: [usize; 3]) -> V3 {
    let p0 = tp[tri@[0] as int];
    let p1 = tp[tri@[1] as int];
    let p2 = tp[tri@[2] as int];
    safe_unit(v3_cross(v3_sub(p1, p0), v3_sub(p2, p0)))
}

/// First hit among this mesh's triangles from index `t` on, in list order:
/// the normal of the first triangle containing `pos`, if any.
pub open spec fn fh_mesh(tp: Seq<V3>, mesh: Seq<[usize; 3]>, pos: V3, t: int) -> Option<V3>
    decreases mesh.len() - t,
{
    if t < 0 || t >= mesh.len() {
        None
    } else if tri_hit(tp, mesh[t], pos) {
        Some(tri_normal(tp, mesh[t]))
    } else {
        fh_mesh(tp, mesh, pos, t + 1)
    }
}

/// First hit among the objects from index `o` on, in list order.
pub open spec fn fh_objs(tp: Seq<V3>, objects: Seq<Object3D>, pos: V3, o: int) -> Option<V3>
    decreases objects.len() - o,
{
    if o < 0 || o >= objects.len() {
        None
    } else {
        match fh_mesh(tp, objects[o].mesh@, pos, 0) {
            Some(n) => Some(n),
            None => fh_objs(tp, objects, pos, o + 1),
        }
    }
}

/// The march: test the current position against every triangle, and on a
/// miss advance one step, up to `fuel` tests in all.
pub open spec fn march_spec(
    tp: Seq<V3>,
    objects: Seq<Object3D>,
    pos: V3,
    step: V3,
    fuel: nat,
) -> Option<V3>
    decreases fuel,
{
    if fuel == 0 {
        None
    } else {
        match fh_objs(tp, objects, pos, 0) {
            Some(n) => Some(n),
            None => march_spec(tp, objects, v3_add(pos, step), step, (fuel - 1) as nat),
        }
    }
}

/// The brightness of a hit with unit normal `n`: the cosine against the
/// transformed unit light direction, remapped from `[-1, 1]` into `[0, 1]`.
pub open spec fn shade_spec(n: V3, view: Seq<Seq<int>>) -> int {
    tdiv(v3_dot(n, safe_unit(mv_mul(view, light_v3()))) + SCALE as int, 2)
}

/// The brightness of cell `(i, j)` against an already-transformed pool:
/// march from the cell's screen point along its unit direction, and shade
/// the first hit, or keep the background sentinel.
pub open spec fn pixel_from_pool(
    tp: Seq<V3>,
    objects: Seq<Object3D>,
    view: Seq<Seq<int>>,
    i: int,
    j: int,
    w: int,
    h: int,
) -> int {
    let origin = origin_spec(i, j, w, h);
    let step = v3_scale(v3_unit(origin), STEP_DISTANCE as int);
    match march_spec(tp, objects, origin, step, MAX_STEPS as nat) {
        Some(n) => shade_spec(n, view),
        None => BACKGROUND as int,
    }
}

/// The brightness [`BosonEngine::raytrace`] leaves in cell `(i, j)`.
pub open spec fn pixel_spec(
    vertices: Seq<Vec3>,
    objects: Seq<Object3D>,
    view: Seq<Seq<int>>,
    i: int,
    j: int,
    w: int,
    h: int,
) -> int {
    pixel_from_pool(tpool_spec(vertices, objects, view), objects, view, i, j, w, h)
}

/// A march against no objects never hits.
proof fn lemma_march_no_objects(
    tp: Seq<V3>,
    objects: Seq<Object3D>,
    pos: V3,
    step: V3,
    fuel: nat,
)
    requires
        objects.len() == 0,
    ensures
        march_spec(tp, objects, pos, step, fuel) == None::<V3>,
    decreases fuel,
{
    if fuel > 0 {
        lemma_march_no_objects(tp, objects, v3_add(pos, step), step, (fuel - 1) as nat);
    }
}

/// A traversal with an empty object list leaves every cell at the
/// background sentinel.
pub proof fn lemma_miss_leaves_background(
    vertices: Seq<Vec3>,
    objects: Seq<Object3D>,
    view: Seq<Seq<int>>,
    i: int,
    j: int,
    w: int,
    h: int,
)
    requires
        objects.len() == 0,
    ensures
        pixel_spec(vertices, objects, view, i, j, w, h) == BACKGROUND as int,
{
    let tp = tpool_spec(vertices, objects, view);
    let origin = origin_spec(i, j, w, h);
    let step = v3_scale(v3_unit(origin), STEP_DISTANCE as int);
    lemma_march_no_objects(tp, objects, origin, step, MAX_STEPS as nat);
}


/// Builds the working pool a traversal marches against: a copy of the
/// vertex pool, with every vertex some mesh references overwritten by its
/// object's `view * model` transform of it.
fn transform_pool(vertices: &Vec<Vec3>, objects: &Vec<Object3D>, view: &Mat4x4) -> (r: Vec<Vec3>)
    requires
        scene_ok(vertices@, objects@, view@),
    ensures
        r@.len() == vertices@.len(),
        v3seq(r@) == tpool_spec(vertices@, objects@, view@),
        forall|k: int| 0 <= k < r@.len() ==> v3_bounded((#[trigger] r@[k])@, VERTEX_BOUND as int),
{
    let ghost pool0 = v3seq(vertices@);
    let n = vertices.len();
    let mut out: Vec<Vec3> = Vec::new();
    let mut k: usize = 0;
    while k < n
        invariant
            k <= n,
            n == vertices@.len(),
            scene_ok(vertices@, objects@, view@),
            out@.len() == k,
            forall|m: int| 0 <= m < k ==> out@[m] == vertices@[m],
        decreases n - k,
    {
        out.push(vertices[k]);
        k += 1;
    }
    proof {
        assert(v3seq(out@) =~= objs_fold(pool0, view@, objects@, 0));
        assert forall|m: int| 0 <= m < out@.len() implies v3_bounded(
            (#[trigger] out@[m])@,
            VERTEX_BOUND as int,
        ) by {
            assert(out@[m] == vertices@[m]);
            assert(v3_bounded(vertices@[m]@, SCENE_BOUND as int));
        }
    }
    let mut o: usize = 0;
    while o < objects.len()
        invariant
            o <= objects@.len(),
            n == vertices@.len(),
            scene_ok(vertices@, objects@, view@),
            pool0 == v3seq(vertices@),
            out@.len() == n,
            v3seq(out@) == objs_fold(pool0, view@, objects@, o as int),
            forall|m: int|
                0 <= m < out@.len() ==> v3_bounded((#[trigger] out@[m])@, VERTEX_BOUND as int),
        decreases objects@.len() - o,
    {
        proof {
            assert(mat_bounded(objects@[o as int].model_matrix@, SCENE_BOUND as int));
            lemma_mm_mul_bounded(
                view@,
                objects@[o as int].model_matrix@,
                SCENE_BOUND as int,
                SCENE_BOUND as int,
            );
            assert((4 * ((SCENE_BOUND as int) * (SCENE_BOUND as int))) / (SCALE as int)
                == 268435456);
        }
        let obj = &objects[o];
        let cm = (*view).mul(obj.model_matrix);
        let mesh_len = obj.mesh.len();
        let ghost acc0 = objs_fold(pool0, view@, objects@, o as int);
        let mut t: usize = 0;
        while t < mesh_len
            invariant
                t <= mesh_len,
                o < objects@.len(),
                obj == &objects@[o as int],
                mesh_len == objects@[o as int].mesh@.len(),
                n == vertices@.len(),
                scene_ok(vertices@, objects@, view@),
                pool0 == v3seq(vertices@),
                cm@ == mm_mul(view@, objects@[o as int].model_matrix@),
                mat_bounded(cm@, 268435456),
                out@.len() == n,
                acc0 == objs_fold(pool0, view@, objects@, o as int),
                v3seq(out@) == mesh_fold(pool0, acc0, cm@, objects@[o as int].mesh@, t as int),
                forall|m: int|
                    0 <= m < out@.len() ==> v3_bounded((#[trigger] out@[m])@, VERTEX_BOUND as int),
            decreases mesh_len - t,
        {
            let tri = obj.mesh[t];
            proof {
                assert(tri_ok(objects@[o as int].mesh@[t as int], vertices@.len() as nat));
                assert(v3_bounded(vertices@[tri@[0] as int]@, SCENE_BOUND as int));
                assert(v3_bounded(vertices@[tri@[1] as int]@, SCENE_BOUND as int));
                assert(v3_bounded(vertices@[tri@[2] as int]@, SCENE_BOUND as int));
                lemma_mv_mul_bounded(cm@, vertices@[tri@[0] as int]@, 268435456, SCENE_BOUND as int);
                lemma_mv_mul_bounded(cm@, vertices@[tri@[1] as int]@, 268435456, SCENE_BOUND as int);
                lemma_mv_mul_bounded(cm@, vertices@[tri@[2] as int]@, 268435456, SCENE_BOUND as int);
                assert((3 * (268435456 * (SCENE_BOUND as int)) + 268435456 * (SCALE as int)) / (
                SCALE as int) == VERTEX_BOUND as int);
            }
            let i0 = tri[0];
            let i1 = tri[1];
            let i2 = tri[2];
            let tv0 = cm.mul_vec(vertices[i0]);
            out.set(i0, tv0);
            let tv1 = cm.mul_vec(vertices[i1]);
            out.set(i1, tv1);
            let tv2 = cm.mul_vec(vertices[i2]);
            out.set(i2, tv2);
            proof {
                assert(v3seq(out@) =~= write_tri(
                    pool0,
                    mesh_fold(pool0, acc0, cm@, objects@[o as int].mesh@, t as int),
                    cm@,
                    objects@[o as int].mesh@[t as int],
                ));
                assert(mesh_fold(pool0, acc0, cm@, objects@[o as int].mesh@, t + 1) == write_tri(
                    pool0,
                    mesh_fold(pool0, acc0, cm@, objects@[o as int].mesh@, t as int),
                    cm@,
                    objects@[o as int].mesh@[t as int],
                ));
            }
            t += 1;
        }
        proof {
            assert(objs_fold(pool0, view@, objects@, o + 1) == mesh_fold(
                pool0,
                acc0,
                mm_mul(view@, objects@[o as int].model_matrix@),
                objects@[o as int].mesh@,
                objects@[o as int].mesh@.len() as int,
            ));
        }
        o += 1;
    }
    out
}


/// First hit for the current marching position: the normal of the first
/// triangle, in object order then triangle order, whose containment test
/// accepts `pos`; `None` when no triangle does.
fn first_hit(tverts: &Vec<Vec3>, objects: &Vec<Object3D>, pos: &Vec3) -> (r: Option<Vec3>)
    requires
        forall|k: int|
            0 <= k < tverts@.len() ==> v3_bounded((#[trigger] tverts@[k])@, VERTEX_BOUND as int),
        mesh_valid(objects@, tverts@.len() as nat),
        v3_bounded(pos@, POS_BOUND as int),
    ensures
        match r {
            Some(n) => fh_objs(v3seq(tverts@), objects@, pos@, 0) == Some(n@) && v3_bounded(
                n@,
                SCALE as int,
            ),
            None => fh_objs(v3seq(tverts@), objects@, pos@, 0) == None::<V3>,
        },
{
    let ghost tp = v3seq(tverts@);
    let mut o: usize = 0;
    while o < objects.len()
        invariant
            o <= objects@.len(),
            forall|k: int|
                0 <= k < tverts@.len() ==> v3_bounded(
                    (#[trigger] tverts@[k])@,
                    VERTEX_BOUND as int,
                ),
            mesh_valid(objects@, tverts@.len() as nat),
            v3_bounded(pos@, POS_BOUND as int),
            tp == v3seq(tverts@),
            fh_objs(tp, objects@, pos@, 0) == fh_objs(tp, objects@, pos@, o as int),
        decreases objects@.len() - o,
    {
        let mesh_len = objects[o].mesh.len();
        let mut t: usize = 0;
        while t < mesh_len
            invariant
                t <= mesh_len,
                o < objects@.len(),
                mesh_len == objects@[o as int].mesh@.len(),
                forall|k: int|
                    0 <= k < tverts@.len() ==> v3_bounded(
                        (#[trigger] tverts@[k])@,
                        VERTEX_BOUND as int,
                    ),
                mesh_valid(objects@, tverts@.len() as nat),
                v3_bounded(pos@, POS_BOUND as int),
                tp == v3seq(tverts@),
                fh_objs(tp, objects@, pos@, 0) == fh_objs(tp, objects@, pos@, o as int),
                fh_mesh(tp, objects@[o as int].mesh@, pos@, 0) == fh_mesh(
                    tp,
                    objects@[o as int].mesh@,
                    pos@,
                    t as int,
                ),
            decreases mesh_len - t,
        {
            let tri = objects[o].mesh[t];
            let i0 = tri[0];
            let i1 = tri[1];
            let i2 = tri[2];
            proof {
                assert(tri_ok(objects@[o as int].mesh@[t as int], tverts@.len() as nat));
                let db = VERTEX_BOUND as int + POS_BOUND as int;
                lemma_sub_bounded(
                    tp[i0 as int],
                    pos@,
                    VERTEX_BOUND as int,
                    POS_BOUND as int,
                );
                lemma_sub_bounded(
                    tp[i1 as int],
                    pos@,
                    VERTEX_BOUND as int,
                    POS_BOUND as int,
                );
                lemma_sub_bounded(
                    tp[i2 as int],
                    pos@,
                    VERTEX_BOUND as int,
                    POS_BOUND as int,
                );
                let a = v3_sub(tp[i0 as int], pos@);
                let b = v3_sub(tp[i1 as int], pos@);
                let c = v3_sub(tp[i2 as int], pos@);
                lemma_cross_ok(a, b, db, db);
                lemma_cross_ok(b, c, db, db);
                lemma_cross_ok(c, a, db, db);
                let cb = (2 * (db * db)) / (SCALE as int);
                lemma_mag_of_bounded(v3_cross(a, b), cb);
                lemma_mag_of_bounded(v3_cross(b, c), cb);
                lemma_mag_of_bounded(v3_cross(c, a), cb);
            }
            let p0 = &tverts[i0];
            let p1 = &tverts[i1];
            let p2 = &tverts[i2];
            let inside = check_inside(p0, p1, p2, pos);
            if inside {
                proof {
                    let vb2 = 2 * (VERTEX_BOUND as int);
                    lemma_sub_bounded(
                        tp[i1 as int],
                        tp[i0 as int],
                        VERTEX_BOUND as int,
                        VERTEX_BOUND as int,
                    );
                    lemma_sub_bounded(
                        tp[i2 as int],
                        tp[i0 as int],
                        VERTEX_BOUND as int,
                        VERTEX_BOUND as int,
                    );
                    let e1 = v3_sub(tp[i1 as int], tp[i0 as int]);
                    let e2 = v3_sub(tp[i2 as int], tp[i0 as int]);
                    lemma_cross_ok(e1, e2, vb2, vb2);
                    lemma_mag_of_bounded(v3_cross(e1, e2), (2 * (vb2 * vb2)) / (SCALE as int));
                }
                let e1 = (*p1).sub(*p0);
                let e2 = (*p2).sub(*p0);
                let cn = e1.cross(&e2);
                let m = cn.get_magnitude();
                let normal = if m == 0 {
                    Vec3 { data: [0, 0, 0] }
                } else {
                    cn.get_unit()
                };
                proof {
                    assert(v3_bounded(normal@, SCALE as int));
                    assert(normal@ == tri_normal(tp, objects@[o as int].mesh@[t as int]));
                    assert(tri_hit(tp, objects@[o as int].mesh@[t as int], pos@));
                    assert(fh_mesh(tp, objects@[o as int].mesh@, pos@, t as int) == Some(
                        normal@,
                    ));
                    assert(fh_objs(tp, objects@, pos@, o as int) == Some(normal@));
                }
                return Some(normal);
            }
            proof {
                assert(!tri_hit(tp, objects@[o as int].mesh@[t as int], pos@));
                assert(fh_mesh(tp, objects@[o as int].mesh@, pos@, t as int) == fh_mesh(
                    tp,
                    objects@[o as int].mesh@,
                    pos@,
                    t + 1,
                ));
            }
            t += 1;
        }
        proof {
            assert(fh_mesh(tp, objects@[o as int].mesh@, pos@, mesh_len as int) == None::<V3>);
            assert(fh_objs(tp, objects@, pos@, o as int) == fh_objs(tp, objects@, pos@, o + 1));
        }
        o += 1;
    }
    None
}


/// The brightness of cell `(i, j)`: march a ray from the cell's screen
/// point along its unit direction, one step at a time, and shade the first
/// hit; the background sentinel when nothing is hit.
fn render_pixel(
    tverts: &Vec<Vec3>,
    objects: &Vec<Object3D>,
    view: &Mat4x4,
    i: usize,
    j: usize,
    w: usize,
    h: usize,
) -> (b: i64)
    requires
        i < h,
        j < w,
        w <= SIDE_LIMIT,
        h <= SIDE_LIMIT,
        forall|k: int|
            0 <= k < tverts@.len() ==> v3_bounded((#[trigger] tverts@[k])@, VERTEX_BOUND as int),
        mesh_valid(objects@, tverts@.len() as nat),
        mat_bounded(view@, SCENE_BOUND as int),
    ensures
        b == pixel_from_pool(
            v3seq(tverts@),
            objects@,
            view@,
            i as int,
            j as int,
            w as int,
            h as int,
        ),
{
    let ghost tp = v3seq(tverts@);
    proof {
        assert(2 * (SCALE as int) * (j as int) < (w as int) * (2 * (SCALE as int)))
            by (nonlinear_arith)
            requires
                0 <= j < w,
        ;
        assert(2 * (SCALE as int) * (i as int) < (h as int) * (2 * (SCALE as int)))
            by (nonlinear_arith)
            requires
                0 <= i < h,
        ;
        lemma_multiply_divide_lt(2 * (SCALE as int) * (j as int), w as int, 2 * (SCALE as int));
        lemma_multiply_divide_lt(2 * (SCALE as int) * (i as int), h as int, 2 * (SCALE as int));
        lemma_div_pos_is_pos(2 * (SCALE as int) * (j as int), w as int);
        lemma_div_pos_is_pos(2 * (SCALE as int) * (i as int), h as int);
    }
    let jj: i64 = j as i64;
    let ii: i64 = i as i64;
    let numx: i64 = 131072 * jj;
    let numy: i64 = 131072 * ii;
    proof {
        assert(2 * (SCALE as int) == 131072);
        assert(numx == 2 * (SCALE as int) * (j as int));
        assert(numy == 2 * (SCALE as int) * (i as int));
    }
    let x = numx / (w as i64) - SCALE;
    let y = SCALE - numy / (h as i64);
    let origin = Vec3 { data: [x, y, SCALE] };
    let ghost og = origin_spec(i as int, j as int, w as int, h as int);
    proof {
        assert(origin@ == og);
        assert(v3_bounded(og, SCALE as int));
        lemma_mag_ge_comp(og);
        lemma_mag_of_bounded(og, SCALE as int);
    }
    let dir = origin.get_unit();
    proof {
        lemma_scale_ok(dir@, STEP_DISTANCE as int, SCALE as int, STEP_DISTANCE as int);
        assert(((SCALE as int) * (STEP_DISTANCE as int)) / (SCALE as int)
            == STEP_DISTANCE as int);
    }
    let ray_step = dir.scale(STEP_DISTANCE);
    let ghost step = v3_scale(v3_unit(og), STEP_DISTANCE as int);
    let mut current = origin;
    let mut s_count: u32 = 0;
    let mut hit: Option<Vec3> = None;
    while s_count < MAX_STEPS && hit.is_none()
        invariant
            s_count <= MAX_STEPS,
            forall|k: int|
                0 <= k < tverts@.len() ==> v3_bounded(
                    (#[trigger] tverts@[k])@,
                    VERTEX_BOUND as int,
                ),
            mesh_valid(objects@, tverts@.len() as nat),
            tp == v3seq(tverts@),
            ray_step@ == step,
            v3_bounded(step, STEP_DISTANCE as int),
            match hit {
                Some(n) => march_spec(tp, objects@, og, step, MAX_STEPS as nat) == Some(n@)
                    && v3_bounded(n@, SCALE as int),
                None => {
                    &&& march_spec(tp, objects@, og, step, MAX_STEPS as nat) == march_spec(
                        tp,
                        objects@,
                        current@,
                        step,
                        (MAX_STEPS - s_count) as nat,
                    )
                    &&& v3_bounded(
                        current@,
                        SCALE as int + (s_count as int) * (STEP_DISTANCE as int),
                    )
                },
            },
        decreases (MAX_STEPS - s_count) + (if hit.is_none() { 1int } else { 0int }),
    {
        proof {
            assert(SCALE as int + (s_count as int) * (STEP_DISTANCE as int) <= POS_BOUND as int)
                by (nonlinear_arith)
                requires
                    0 <= s_count < 40,
            ;
        }
        match first_hit(tverts, objects, &current) {
            Some(n) => {
                hit = Some(n);
            },
            None => {
                proof {
                    lemma_add_bounded(
                        current@,
                        ray_step@,
                        SCALE as int + (s_count as int) * (STEP_DISTANCE as int),
                        STEP_DISTANCE as int,
                    );
                    assert(SCALE as int + (s_count as int) * (STEP_DISTANCE as int)
                        + STEP_DISTANCE as int == SCALE as int + (s_count + 1) * (
                    STEP_DISTANCE as int)) by (nonlinear_arith);
                }
                current = current.add(ray_step);
                s_count += 1;
            },
        }
    }
    match hit {
        Some(n) => {
            proof {
                lemma_mv_mul_bounded(view@, light_v3(), SCENE_BOUND as int, SCALE as int);
                lemma_mag_of_bounded(
                    mv_mul(view@, light_v3()),
                    (3 * ((SCENE_BOUND as int) * (SCALE as int)) + (SCENE_BOUND as int) * (
                    SCALE as int)) / (SCALE as int),
                );
            }
            let lv = (*view).mul_vec(Vec3 { data: [0, -32768, 32768] });
            let lm = lv.get_magnitude();
            let lu = if lm == 0 {
                Vec3 { data: [0, 0, 0] }
            } else {
                lv.get_unit()
            };
            proof {
                assert(lu@ == safe_unit(mv_mul(view@, light_v3())));
                lemma_dot_ok(n@, lu@, SCALE as int, SCALE as int);
            }
            let d = n.dot(&lu);
            (d + SCALE) / 2
        },
        None => BACKGROUND,
    }
}


impl<const W: usize, const H: usize> BosonEngine<W, H> {
    /// The scenes a traversal accepts: coordinates and transforms within
    /// [`SCENE_BOUND`], every mesh index within the vertex pool, and the
    /// buffer sides within [`SIDE_LIMIT`]. An empty pool or object list is
    /// a valid scene meaning "nothing to render".
    pub open spec fn scene_wf(&self) -> bool {
        &&& scene_ok(self.vertices@, self.objects@, self.view_matrix@)
        &&& W <= SIDE_LIMIT
        &&& H <= SIDE_LIMIT
    }

    /// A fresh engine over the given scene: every buffer cell starts at
    /// the background sentinel.
    pub fn new(vertices: Vec<Vec3>, objects: Vec<Object3D>, view_matrix: Mat4x4) -> (r: Self)
        ensures
            r.vertices == vertices,
            r.objects == objects,
            r.view_matrix == view_matrix,
            r.ibuffer@.len() == H,
            forall|i: int| 0 <= i < H ==> (#[trigger] r.ibuffer@[i])@.len() == W,
            forall|i: int, j: int|
                0 <= i < H && 0 <= j < W ==> #[trigger] r.ibuffer@[i]@[j] == BACKGROUND,
    {
        let mut buf: Vec<Vec<i64>> = Vec::new();
        let mut i: usize = 0;
        while i < H
            invariant
                i <= H,
                buf@.len() == i,
                forall|r: int| 0 <= r < i ==> (#[trigger] buf@[r])@.len() == W,
                forall|r: int, c: int|
                    0 <= r < i && 0 <= c < W ==> #[trigger] buf@[r]@[c] == BACKGROUND,
            decreases H - i,
        {
            let mut row: Vec<i64> = Vec::new();
            let mut j: usize = 0;
            while j < W
                invariant
                    j <= W,
                    row@.len() == j,
                    forall|c: int| 0 <= c < j ==> #[trigger] row@[c] == BACKGROUND,
                decreases W - j,
            {
                row.push(BACKGROUND);
                j += 1;
            }
            buf.push(row);
            i += 1;
        }
        BosonEngine { ibuffer: buf, vertices, objects, view_matrix }
    }

    /// One traversal pass: for every cell, in row-major order, march a ray
    /// from the cell's screen point and write the shaded brightness of the
    /// first hit, or the background sentinel. The scene is read, never
    /// changed; the transformed vertex pool is computed once per pass.
    pub fn raytrace(&mut self)
        requires
            old(self).scene_wf(),
        ensures
            final(self).vertices == old(self).vertices,
            final(self).objects == old(self).objects,
            final(self).view_matrix == old(self).view_matrix,
            final(self).ibuffer@.len() == H,
            forall|i: int| 0 <= i < H ==> (#[trigger] final(self).ibuffer@[i])@.len() == W,
            forall|i: int, j: int|
                0 <= i < H && 0 <= j < W ==> #[trigger] final(self).ibuffer@[i]@[j] == pixel_spec(
                    old(self).vertices@,
                    old(self).objects@,
                    old(self).view_matrix@,
                    i,
                    j,
                    W as int,
                    H as int,
                ),
    {
        let tverts = transform_pool(&self.vertices, &self.objects, &self.view_matrix);
        let ghost tp = tpool_spec(self.vertices@, self.objects@, self.view_matrix@);
        let mut buf: Vec<Vec<i64>> = Vec::new();
        let mut i: usize = 0;
        while i < H
            invariant
                i <= H,
                *self == *old(self),
                old(self).scene_wf(),
                tverts@.len() == self.vertices@.len(),
                v3seq(tverts@) == tp,
                tp == tpool_spec(self.vertices@, self.objects@, self.view_matrix@),
                forall|k: int|
                    0 <= k < tverts@.len() ==> v3_bounded(
                        (#[trigger] tverts@[k])@,
                        VERTEX_BOUND as int,
                    ),
                buf@.len() == i,
                forall|r: int| 0 <= r < i ==> (#[trigger] buf@[r])@.len() == W,
                forall|r: int, c: int|
                    0 <= r < i && 0 <= c < W ==> #[trigger] buf@[r]@[c] == pixel_spec(
                        self.vertices@,
                        self.objects@,
                        self.view_matrix@,
                        r,
                        c,
                        W as int,
                        H as int,
                    ),
            decreases H - i,
        {
            let mut row: Vec<i64> = Vec::new();
            let mut j: usize = 0;
            while j < W
                invariant
                    i < H,
                    j <= W,
                    *self == *old(self),
                    old(self).scene_wf(),
                    tverts@.len() == self.vertices@.len(),
                    v3seq(tverts@) == tp,
                    tp == tpool_spec(self.vertices@, self.objects@, self.view_matrix@),
                    forall|k: int|
                        0 <= k < tverts@.len() ==> v3_bounded(
                            (#[trigger] tverts@[k])@,
                            VERTEX_BOUND as int,
                        ),
                    row@.len() == j,
                    forall|c: int|
                        0 <= c < j ==> #[trigger] row@[c] == pixel_spec(
                            self.vertices@,
                            self.objects@,
                            self.view_matrix@,
                            i as int,
                            c,
                            W as int,
                            H as int,
                        ),
                decreases W - j,
            {
                let b = render_pixel(&tverts, &self.objects, &self.view_matrix, i, j, W, H);
                row.push(b);
                j += 1;
            }
            buf.push(row);
            i += 1;
        }
        self.ibuffer = buf;
    }

    /// Renders the buffer to glyph rows, row-major: each brightness value
    /// becomes its ramp glyph, the background sentinel a blank. Assumes
    /// the buffer is ready (a traversal has filled it, or it still holds
    /// the construction default).
    pub fn display(&self) -> (rows: Vec<Vec<char>>)
        requires
            self.ibuffer@.len() == H,
            forall|i: int| 0 <= i < H ==> (#[trigger] self.ibuffer@[i])@.len() == W,
        ensures
            rows@.len() == H,
            forall|i: int| 0 <= i < H ==> (#[trigger] rows@[i])@.len() == W,
            forall|i: int, j: int|
                0 <= i < H && 0 <= j < W ==> #[trigger] rows@[i]@[j] == luma_spec(
                    self.ibuffer@[i]@[j] as int,
                ),
    {
        let mut rows: Vec<Vec<char>> = Vec::new();
        let mut i: usize = 0;
        while i < H
            invariant
                i <= H,
                self.ibuffer@.len() == H,
                forall|r: int| 0 <= r < H ==> (#[trigger] self.ibuffer@[r])@.len() == W,
                rows@.len() == i,
                forall|r: int| 0 <= r < i ==> (#[trigger] rows@[r])@.len() == W,
                forall|r: int, c: int|
                    0 <= r < i && 0 <= c < W ==> #[trigger] rows@[r]@[c] == luma_spec(
                        self.ibuffer@[r]@[c] as int,
                    ),
            decreases H - i,
        {
            let mut row: Vec<char> = Vec::new();
            let mut j: usize = 0;
            while j < W
                invariant
                    i < H,
                    j <= W,
                    self.ibuffer@.len() == H,
                    forall|r: int| 0 <= r < H ==> (#[trigger] self.ibuffer@[r])@.len() == W,
                    row@.len() == j,
                    forall|c: int|
                        0 <= c < j ==> #[trigger] row@[c] == luma_spec(
                            self.ibuffer@[i as int]@[c] as int,
                        ),
                decreases W - j,
            {
                let c = get_luma(self.ibuffer[i][j]);
                row.push(c);
                j += 1;
            }
            rows.push(row);
            i += 1;
        }
        rows
    }
}

} // verus!
