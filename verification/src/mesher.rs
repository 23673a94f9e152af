use vstd::prelude::*;
use crate::voxel::{BlockType, block_definition};
use crate::math::IVec3;
use crate::fluid::solid;
use crate::greedy::{FaceInfo, SkyCorners, GreedyQuad, greedy_ok, greedy_quads};
use crate::mesh_input::{ChunkMeshInputData, mesh_chunk_ok};

verus! {

/// Texture layer of a block face for the mesher: stone 0, dirt 1, grass 2 on top, 1 below and 3
/// on its sides, everything else 0.
pub open spec fn texture_layer(block: BlockType, d: int, normal: i32) -> u32 {
    match block {
        BlockType::Stone => 0,
        BlockType::Dirt => 1,
        BlockType::Grass => if d == 1 && normal == 1 {
            2
        } else if d == 1 && normal == -1i32 {
            1
        } else {
            3
        },
        _ => 0,
    }
}

/// Texture layer of a block face for the mesher.
pub fn get_texture_layer(block: BlockType, d: usize, normal: i32) -> (r: u32)
    ensures
        r == texture_layer(block, d as int, normal),
{
    match block {
        BlockType::Stone => 0,
        BlockType::Dirt => 1,
        BlockType::Grass => {
            if d == 1 && normal == 1 {
                2
            } else if d == 1 && normal == -1 {
                1
            } else {
                3
            }
        },
        _ => 0,
    }
}

/// World position of the voxel at `a` along axis `d` and `(i, j)` across it in chunk
/// `chunk_pos`: across X the cells run along Y then Z, across Y along X then Z, across Z along
/// X then Y.
pub open spec fn axis_pos(chunk_pos: IVec3, d: int, a: int, i: int, j: int) -> IVec3 {
    let lx = if d == 0 { a } else { i };
    let ly = if d == 1 { a } else if d == 0 { i } else { j };
    let lz = if d == 2 { a } else { j };
    IVec3 {
        x: (chunk_pos.x * 32 + lx) as i32,
        y: (chunk_pos.y * 32 + ly) as i32,
        z: (chunk_pos.z * 32 + lz) as i32,
    }
}

/// `p` moved by `du` along the first and `dv` along the second axis across axis `d`.
pub open spec fn uv_offset(p: IVec3, d: int, du: int, dv: int) -> IVec3 {
    if d == 0 {
        IVec3 { x: p.x, y: (p.y + du) as i32, z: (p.z + dv) as i32 }
    } else if d == 1 {
        IVec3 { x: (p.x + du) as i32, y: p.y, z: (p.z + dv) as i32 }
    } else {
        IVec3 { x: (p.x + du) as i32, y: (p.y + dv) as i32, z: p.z }
    }
}

/// Smooth light at corner `(cu, cv)` of the face seen from air voxel `p`: the average (rounded
/// down) of the four voxels around that corner in the plane across axis `d`.
pub open spec fn corner_light(w: ChunkMeshInputData, d: int, p: IVec3, cu: int, cv: int) -> u8 {
    ((w.light_at(uv_offset(p, d, cu - 1, cv - 1)) + w.light_at(uv_offset(p, d, cu - 1, cv))
        + w.light_at(uv_offset(p, d, cu, cv - 1)) + w.light_at(uv_offset(p, d, cu, cv))) / 4) as u8
}

/// Corner light of a face seen from air voxel `p`: smooth per corner, or the voxel's own light.
#[verifier::opaque]
pub open spec fn face_sky(w: ChunkMeshInputData, d: int, p: IVec3, smooth: bool) -> SkyCorners {
    if smooth {
        SkyCorners(
            corner_light(w, d, p, 0, 0),
            corner_light(w, d, p, 1, 0),
            corner_light(w, d, p, 1, 1),
            corner_light(w, d, p, 0, 1),
        )
    } else {
        SkyCorners(w.light_at(p), w.light_at(p), w.light_at(p), w.light_at(p))
    }
}

/// Whether a block hides the faces of its neighbours: only opaque blocks do, so faces against
/// glass, leaves, torches or air are drawn.
pub open spec fn opaque(b: BlockType) -> bool {
    block_definition(b).is_opaque
}

/// The face, if any, between the voxel at `slice` and the one at `slice + 1` along axis `d`, at
/// `(i, j)` across it, on one side: the `positive` side is the face of the lower voxel looking
/// up the axis, the other the face of the upper voxel looking down it. A solid voxel shows a
/// face towards a neighbour that is not opaque, and only on the chunk's own side of its border.
pub open spec fn side_face(
    w: ChunkMeshInputData,
    chunk_pos: IVec3,
    d: int,
    slice: int,
    i: int,
    j: int,
    positive: bool,
    smooth: bool,
) -> Option<FaceInfo> {
    let gp0 = axis_pos(chunk_pos, d, slice, i, j);
    let gp1 = axis_pos(chunk_pos, d, slice + 1, i, j);
    let b0 = w.block_at(gp0);
    let b1 = w.block_at(gp1);
    if positive {
        if solid(b0) && !opaque(b1) && slice >= 0 {
            Some(
                FaceInfo {
                    block: b0,
                    normal: 1i32,
                    tex_layer: texture_layer(b0, d, 1i32),
                    sky_lights: face_sky(w, d, gp1, smooth),
                    y_offset_down: 0,
                },
            )
        } else {
            None
        }
    } else {
        if solid(b1) && !opaque(b0) && slice < 31 {
            Some(
                FaceInfo {
                    block: b1,
                    normal: -1i32,
                    tex_layer: texture_layer(b1, d, -1i32),
                    sky_lights: face_sky(w, d, gp0, smooth),
                    y_offset_down: 0,
                },
            )
        } else {
            None
        }
    }
}

/// The cell at `(i, j)` of a slice's main mask (`overflow` false) or of its overflow mask. The
/// main mask holds the face looking up the axis when there is one, else the face looking down
/// it; the overflow mask holds the face looking down the axis only where both faces show (two
/// solid blocks that are not opaque, side by side), so every face is in exactly one of them.
pub open spec fn face_cell(
    w: ChunkMeshInputData,
    chunk_pos: IVec3,
    d: int,
    slice: int,
    i: int,
    j: int,
    overflow: bool,
    smooth: bool,
) -> Option<FaceInfo> {
    let up = side_face(w, chunk_pos, d, slice, i, j, true, smooth);
    let down = side_face(w, chunk_pos, d, slice, i, j, false, smooth);
    if !overflow {
        if up is Some {
            up
        } else {
            down
        }
    } else if up is Some {
        down
    } else {
        None
    }
}

/// The main or overflow mask of faces of one slice: cell `j * 32 + i`.
pub open spec fn face_mask(
    w: ChunkMeshInputData,
    chunk_pos: IVec3,
    d: int,
    slice: int,
    overflow: bool,
    smooth: bool,
) -> Seq<Option<FaceInfo>> {
    Seq::new(1024, |c: int| face_cell(w, chunk_pos, d, slice, c % 32, c / 32, overflow, smooth))
}

/// World position of the voxel at `a` along axis `d` and `(i, j)` across it.
fn axis_pos_exec(chunk_pos: IVec3, d: usize, a: i32, i: i32, j: i32) -> (r: IVec3)
    requires
        mesh_chunk_ok(chunk_pos),
        d < 3,
        -1 <= a <= 32,
        0 <= i < 32,
        0 <= j < 32,
    ensures
        r == axis_pos(chunk_pos, d as int, a as int, i as int, j as int),
{
    let lx = if d == 0 { a } else { i };
    let ly = if d == 1 { a } else if d == 0 { i } else { j };
    let lz = if d == 2 { a } else { j };
    IVec3 { x: chunk_pos.x * 32 + lx, y: chunk_pos.y * 32 + ly, z: chunk_pos.z * 32 + lz }
}

/// `p` moved across axis `d`.
fn uv_offset_exec(p: IVec3, d: usize, du: i32, dv: i32) -> (r: IVec3)
    requires
        -2147483000 <= p.x <= 2147483000,
        -2147483000 <= p.y <= 2147483000,
        -2147483000 <= p.z <= 2147483000,
        -1 <= du <= 1,
        -1 <= dv <= 1,
    ensures
        r == uv_offset(p, d as int, du as int, dv as int),
{
    if d == 0 {
        IVec3 { x: p.x, y: p.y + du, z: p.z + dv }
    } else if d == 1 {
        IVec3 { x: p.x + du, y: p.y, z: p.z + dv }
    } else {
        IVec3 { x: p.x + du, y: p.y + dv, z: p.z }
    }
}

/// Smooth light at one corner of a face.
fn corner_light_exec(w: &ChunkMeshInputData, d: usize, p: IVec3, cu: i32, cv: i32) -> (r: u8)
    requires
        w.wf(),
        -2147483000 <= p.x <= 2147483000,
        -2147483000 <= p.y <= 2147483000,
        -2147483000 <= p.z <= 2147483000,
        0 <= cu <= 1,
        0 <= cv <= 1,
    ensures
        r == corner_light(*w, d as int, p, cu as int, cv as int),
{
    let a = w.get_light_global(uv_offset_exec(p, d, cu - 1, cv - 1)) as u32;
    let b = w.get_light_global(uv_offset_exec(p, d, cu - 1, cv)) as u32;
    let c = w.get_light_global(uv_offset_exec(p, d, cu, cv - 1)) as u32;
    let e = w.get_light_global(uv_offset_exec(p, d, cu, cv)) as u32;
    ((a + b + c + e) / 4) as u8
}

/// Corner light of a face seen from an air voxel.
fn face_sky_exec(w: &ChunkMeshInputData, d: usize, p: IVec3, smooth: bool) -> (r: SkyCorners)
    requires
        w.wf(),
        -2147483000 <= p.x <= 2147483000,
        -2147483000 <= p.y <= 2147483000,
        -2147483000 <= p.z <= 2147483000,
    ensures
        r == face_sky(*w, d as int, p, smooth),
{
    reveal(face_sky);
    if smooth {
        SkyCorners(
            corner_light_exec(w, d, p, 0, 0),
            corner_light_exec(w, d, p, 1, 0),
            corner_light_exec(w, d, p, 1, 1),
            corner_light_exec(w, d, p, 0, 1),
        )
    } else {
        let l = w.get_light_global(p);
        SkyCorners(l, l, l, l)
    }
}

/// The face, if any, at `(i, j)` between slices `slice` and `slice + 1` along axis `d`, on one
/// side.
#[verifier::rlimit(40)]
fn side_face_exec(
    world: &ChunkMeshInputData,
    chunk_pos: IVec3,
    d: usize,
    slice: i32,
    i: i32,
    j: i32,
    positive: bool,
    smooth: bool,
) -> (r: Option<FaceInfo>)
    requires
        world.wf(),
        mesh_chunk_ok(chunk_pos),
        d < 3,
        -1 <= slice < 32,
        0 <= i < 32,
        0 <= j < 32,
    ensures
        r == side_face(*world, chunk_pos, d as int, slice as int, i as int, j as int, positive, smooth),
{
    let gp0 = axis_pos_exec(chunk_pos, d, slice, i, j);
    let gp1 = axis_pos_exec(chunk_pos, d, slice + 1, i, j);
    let b0 = world.get_block_global(gp0);
    let b1 = world.get_block_global(gp1);
    if positive {
        if b0.is_solid() && !b1.is_opaque() && slice >= 0 {
            Some(
                FaceInfo {
                    block: b0,
                    normal: 1,
                    tex_layer: get_texture_layer(b0, d, 1),
                    sky_lights: face_sky_exec(world, d, gp1, smooth),
                    y_offset_down: 0,
                },
            )
        } else {
            None
        }
    } else if b1.is_solid() && !b0.is_opaque() && slice < 31 {
        Some(
            FaceInfo {
                block: b1,
                normal: -1,
                tex_layer: get_texture_layer(b1, d, -1),
                sky_lights: face_sky_exec(world, d, gp0, smooth),
                y_offset_down: 0,
            },
        )
    } else {
        None
    }
}

/// The cell at `(i, j)` of the main or overflow mask of a slice.
fn face_cell_exec(
    world: &ChunkMeshInputData,
    chunk_pos: IVec3,
    d: usize,
    slice: i32,
    i: i32,
    j: i32,
    overflow: bool,
    smooth: bool,
) -> (r: Option<FaceInfo>)
    requires
        world.wf(),
        mesh_chunk_ok(chunk_pos),
        d < 3,
        -1 <= slice < 32,
        0 <= i < 32,
        0 <= j < 32,
    ensures
        r == face_cell(*world, chunk_pos, d as int, slice as int, i as int, j as int, overflow, smooth),
{
    let up = side_face_exec(world, chunk_pos, d, slice, i, j, true, smooth);
    if !overflow {
        if up.is_some() {
            up
        } else {
            side_face_exec(world, chunk_pos, d, slice, i, j, false, smooth)
        }
    } else if up.is_some() {
        side_face_exec(world, chunk_pos, d, slice, i, j, false, smooth)
    } else {
        None
    }
}

/// The main or overflow mask of faces of one slice of the chunk at `chunk_pos`.
pub fn build_face_mask(
    world: &ChunkMeshInputData,
    chunk_pos: IVec3,
    d: usize,
    slice: i32,
    overflow: bool,
    smooth: bool,
) -> (mask: Vec<Option<FaceInfo>>)
    requires
        world.wf(),
        mesh_chunk_ok(chunk_pos),
        d < 3,
        -1 <= slice < 32,
    ensures
        mask@ == face_mask(*world, chunk_pos, d as int, slice as int, overflow, smooth),
{
    let mut mask: Vec<Option<FaceInfo>> = Vec::new();
    let mut n: usize = 0;
    while n < 1024
        invariant
            world.wf(),
            mesh_chunk_ok(chunk_pos),
            d < 3,
            -1 <= slice < 32,
            n <= 1024,
            mask@.len() == n,
            forall|c: int|
                0 <= c < n ==> #[trigger] mask@[c] == face_cell(
                    *world,
                    chunk_pos,
                    d as int,
                    slice as int,
                    c % 32,
                    c / 32,
                    overflow,
                    smooth,
                ),
        decreases 1024 - n,
    {
        let i = (n % 32) as i32;
        let j = (n / 32) as i32;
        let cell = face_cell_exec(world, chunk_pos, d, slice, i, j, overflow, smooth);
        mask.push(cell);
        n = n + 1;
    }
    proof {
        assert(mask@ =~= face_mask(*world, chunk_pos, d as int, slice as int, overflow, smooth));
    }
    mask
}


/// A mesh being built: packed vertices, triangle indices into them, and a flow vector per
/// vertex. A packed vertex holds x, y and z (6 bits each), the face id (3 bits), the texture
/// layer (4 bits), how far its top is lowered (3 bits) and its sky light (4 bits), from the low
/// bits up.
pub struct MeshData {
    pub packed: Vec<u32>,
    pub indices: Vec<u32>,
    pub flow: Vec<(i32, i32)>,
}

impl View for MeshData {
    type V = (Seq<u32>, Seq<u32>, Seq<(i32, i32)>);

    open spec fn view(&self) -> Self::V {
        (self.packed@, self.indices@, self.flow@)
    }
}

impl MeshData {
    /// An empty mesh.
    pub fn new() -> (r: Self)
        ensures
            r@ == (Seq::<u32>::empty(), Seq::<u32>::empty(), Seq::<(i32, i32)>::empty()),
    {
        MeshData { packed: Vec::new(), indices: Vec::new(), flow: Vec::new() }
    }
}

/// A packed vertex.
pub open spec fn pack_vertex(v: (i32, i32, i32), face_id: u32, tex: u32, yoff: u32, sky: u8) -> u32 {
    ((v.0 as u32) & 0x3Fu32) | (((v.1 as u32) & 0x3Fu32) << 6u32) | (((v.2 as u32) & 0x3Fu32)
        << 12u32) | ((face_id & 0x07u32) << 18u32) | ((tex & 0x0Fu32) << 21u32) | ((yoff
        & 0x07u32) << 25u32) | (((sky as u32) & 0x0Fu32) << 28u32)
}

/// Face id of a face across axis `d`: `2 * d` facing up the axis, `2 * d + 1` facing down.
pub open spec fn face_id_of(d: int, normal: i32) -> u32 {
    (d * 2 + if normal > 0 { 0int } else { 1int }) as u32
}

/// The two triangles of a quad whose first vertex is `base`, wound the other way round when
/// `rev` is set.
pub open spec fn quad_triangles(base: u32, rev: bool) -> Seq<u32> {
    if rev {
        seq![base, (base + 2) as u32, (base + 1) as u32, base, (base + 3) as u32, (base + 2) as u32]
    } else {
        seq![base, (base + 1) as u32, (base + 2) as u32, base, (base + 2) as u32, (base + 3) as u32]
    }
}

/// Directions in which the corners of a solid quad may be pushed out to close seams.
pub open spec fn corner_signs() -> Seq<(i32, i32)> {
    seq![(-1i32, -1i32), (1i32, -1i32), (1i32, 1i32), (-1i32, 1i32)]
}

/// A mesh after one more quad with corners `v1 .. v4`.
pub open spec fn with_quad(
    m: (Seq<u32>, Seq<u32>, Seq<(i32, i32)>),
    v1: (i32, i32, i32),
    v2: (i32, i32, i32),
    v3: (i32, i32, i32),
    v4: (i32, i32, i32),
    normal: i32,
    tex_layer: u32,
    sky: SkyCorners,
    y_offset_down: u8,
    rev: bool,
    d: int,
) -> (Seq<u32>, Seq<u32>, Seq<(i32, i32)>) {
    let fid = face_id_of(d, normal);
    let yo = y_offset_down as u32;
    (
        m.0 + seq![
            pack_vertex(v1, fid, tex_layer, yo, sky.0),
            pack_vertex(v2, fid, tex_layer, yo, sky.1),
            pack_vertex(v3, fid, tex_layer, yo, sky.2),
            pack_vertex(v4, fid, tex_layer, yo, sky.3),
        ],
        m.1 + quad_triangles(m.0.len() as u32, rev),
        m.2 + corner_signs(),
    )
}

/// Appends one quad with corners `v1 .. v4` (origin, width step, both steps, height step) facing
/// `normal` along axis `d`.
pub fn push_quad(
    bucket: &mut MeshData,
    v1: (i32, i32, i32),
    v2: (i32, i32, i32),
    v3: (i32, i32, i32),
    v4: (i32, i32, i32),
    normal: i32,
    tex_layer: u32,
    sky_lights: SkyCorners,
    y_offset_down: u8,
    rev: bool,
    d: usize,
)
    requires
        old(bucket).packed@.len() + 4 <= u32::MAX,
        d < 3,
    ensures
        final(bucket)@ == with_quad(
            old(bucket)@,
            v1,
            v2,
            v3,
            v4,
            normal,
            tex_layer,
            sky_lights,
            y_offset_down,
            rev,
            d as int,
        ),
{
    let base = bucket.packed.len() as u32;
    let face_id: u32 = (d as u32) * 2 + if normal > 0 { 0 } else { 1 };
    let yo = y_offset_down as u32;
    let p1 = ((v1.0 as u32) & 0x3F) | (((v1.1 as u32) & 0x3F) << 6) | (((v1.2 as u32) & 0x3F) << 12)
        | ((face_id & 0x07) << 18) | ((tex_layer & 0x0F) << 21) | ((yo & 0x07) << 25) | (((
    sky_lights.0 as u32) & 0x0F) << 28);
    let p2 = ((v2.0 as u32) & 0x3F) | (((v2.1 as u32) & 0x3F) << 6) | (((v2.2 as u32) & 0x3F) << 12)
        | ((face_id & 0x07) << 18) | ((tex_layer & 0x0F) << 21) | ((yo & 0x07) << 25) | (((
    sky_lights.1 as u32) & 0x0F) << 28);
    let p3 = ((v3.0 as u32) & 0x3F) | (((v3.1 as u32) & 0x3F) << 6) | (((v3.2 as u32) & 0x3F) << 12)
        | ((face_id & 0x07) << 18) | ((tex_layer & 0x0F) << 21) | ((yo & 0x07) << 25) | (((
    sky_lights.2 as u32) & 0x0F) << 28);
    let p4 = ((v4.0 as u32) & 0x3F) | (((v4.1 as u32) & 0x3F) << 6) | (((v4.2 as u32) & 0x3F) << 12)
        | ((face_id & 0x07) << 18) | ((tex_layer & 0x0F) << 21) | ((yo & 0x07) << 25) | (((
    sky_lights.3 as u32) & 0x0F) << 28);
    bucket.packed.push(p1);
    bucket.packed.push(p2);
    bucket.packed.push(p3);
    bucket.packed.push(p4);
    bucket.flow.push((-1, -1));
    bucket.flow.push((1, -1));
    bucket.flow.push((1, 1));
    bucket.flow.push((-1, 1));
    if rev {
        bucket.indices.push(base);
        bucket.indices.push(base + 2);
        bucket.indices.push(base + 1);
        bucket.indices.push(base);
        bucket.indices.push(base + 3);
        bucket.indices.push(base + 2);
    } else {
        bucket.indices.push(base);
        bucket.indices.push(base + 1);
        bucket.indices.push(base + 2);
        bucket.indices.push(base);
        bucket.indices.push(base + 2);
        bucket.indices.push(base + 3);
    }
    proof {
        assert(face_id == face_id_of(d as int, normal));
        assert(bucket.packed@ =~= old(bucket).packed@ + seq![p1, p2, p3, p4]);
        assert(bucket.flow@ =~= old(bucket).flow@ + corner_signs());
        assert(bucket.indices@ =~= old(bucket).indices@ + quad_triangles(base, rev));
    }
}


/// Mesh contents: packed vertices, triangle indices, flow vectors.
pub type MeshModel = (Seq<u32>, Seq<u32>, Seq<(i32, i32)>);

/// Corner of a quad on face plane `fc` across axis `d`, at `(ui, vj)` along the two axes across it.
pub open spec fn quad_corner(d: int, fc: int, ui: int, vj: int) -> (i32, i32, i32) {
    if d == 0 {
        (fc as i32, ui as i32, vj as i32)
    } else if d == 1 {
        (ui as i32, fc as i32, vj as i32)
    } else {
        (ui as i32, vj as i32, fc as i32)
    }
}

/// A mesh after one more greedy quad on face plane `fc` across axis `d`; faces are wound so that
/// they show on the side they face.
pub open spec fn with_greedy_quad(m: MeshModel, d: int, fc: int, q: GreedyQuad) -> MeshModel {
    let rev = if d == 1 {
        !(q.face.normal < 0)
    } else {
        q.face.normal < 0
    };
    with_quad(
        m,
        quad_corner(d, fc, q.i as int, q.j as int),
        quad_corner(d, fc, q.i + q.w, q.j as int),
        quad_corner(d, fc, q.i + q.w, q.j + q.h),
        quad_corner(d, fc, q.i as int, q.j + q.h),
        q.face.normal,
        q.face.tex_layer,
        q.face.sky_lights,
        q.face.y_offset_down,
        rev,
        d,
    )
}

/// A mesh after the greedy quads of one slice, in order.
pub open spec fn with_greedy_quads(m: MeshModel, d: int, fc: int, qs: Seq<GreedyQuad>) -> MeshModel
    decreases qs.len(),
{
    if qs.len() == 0 {
        m
    } else {
        with_greedy_quad(with_greedy_quads(m, d, fc, qs.drop_last()), d, fc, qs.last())
    }
}

/// Axis, slice and kind of mask `t` of a chunk: 66 masks per axis, two for each slice between voxel
/// layers `slice` and `slice + 1`, from -1 to 31: the main mask, then the overflow mask.
pub open spec fn mask_axis(t: int) -> int {
    t / 66
}

pub open spec fn mask_slice(t: int) -> int {
    (t % 66) / 2 - 1
}

pub open spec fn mask_overflow(t: int) -> bool {
    (t % 66) % 2 == 1
}

/// A mesh after the quads of the first `t` masks (see `mask_axis`), each drawn on the face plane
/// between its two voxel layers.
pub open spec fn with_slices(m: MeshModel, all: Seq<Seq<GreedyQuad>>, t: int) -> MeshModel
    decreases t,
{
    if t <= 0 {
        m
    } else {
        with_greedy_quads(with_slices(m, all, t - 1), mask_axis(t - 1), mask_slice(t - 1) + 1, all[t - 1])
    }
}

/// `m1` is `m0` with the solid faces of the chunk added: for each of the 198 masks (main and
/// overflow mask of each slice of each axis), the quads of greedy merging of the mask, mask after
/// mask.
pub open spec fn solid_mesh_of(
    w: ChunkMeshInputData,
    chunk_pos: IVec3,
    smooth: bool,
    m0: MeshModel,
    m1: MeshModel,
) -> bool {
    exists|all: Seq<Seq<GreedyQuad>>|
        {
            &&& all.len() == 198
            &&& forall|t: int|
                0 <= t < 198 ==> greedy_ok(
                    face_mask(w, chunk_pos, mask_axis(t), mask_slice(t), mask_overflow(t), smooth),
                    #[trigger] all[t],
                    smooth,
                )
            &&& m1 == with_slices(m0, all, 198)
        }
}

/// Adds the solid faces of the chunk at `chunk_pos` to `out`: for each axis and each slice between
/// voxel layers, its main mask and then its overflow mask are merged greedily and the quads are
/// added in order.
#[verifier::rlimit(60)]
pub fn generate_solid_mesh(
    chunk_pos: IVec3,
    world: &ChunkMeshInputData,
    out: &mut MeshData,
    is_smooth_lighting: bool,
)
    requires
        world.wf(),
        mesh_chunk_ok(chunk_pos),
        old(out).packed@.len() <= 1000000000,
    ensures
        solid_mesh_of(*world, chunk_pos, is_smooth_lighting, old(out)@, final(out)@),
        final(out).packed@.len() <= old(out).packed@.len() + 811008,
{
    let ghost m0 = out@;
    let ghost l0 = out.packed@.len();
    let ghost mut all: Seq<Seq<GreedyQuad>> = Seq::empty();
    let mut t: usize = 0;
    while t < 198
        invariant
            world.wf(),
            mesh_chunk_ok(chunk_pos),
            l0 == m0.0.len(),
            l0 <= 1000000000,
            t <= 198,
            all.len() == t,
            forall|tt: int|
                0 <= tt < t ==> greedy_ok(
                    face_mask(*world, chunk_pos, mask_axis(tt), mask_slice(tt), mask_overflow(tt), is_smooth_lighting),
                    #[trigger] all[tt],
                    is_smooth_lighting,
                ),
            out@ == with_slices(m0, all, t as int),
            out.packed@.len() <= l0 + 4096 * t,
        decreases 198 - t,
    {
        let d = t / 66;
        let slice = ((t % 66) / 2) as i32 - 1;
        let overflow = (t % 66) % 2 == 1;
        let face_coord = slice + 1;
        let mask = build_face_mask(world, chunk_pos, d, slice, overflow, is_smooth_lighting);
        let qs = greedy_quads(&mask, is_smooth_lighting);
        let ghost m_start = out@;
        let ghost len_start = out.packed@.len();
        let mut k: usize = 0;
        while k < qs.len()
            invariant
                0 <= k <= qs@.len(),
                qs@.len() <= 1024,
                d < 3,
                d == mask_axis(t as int),
                face_coord == mask_slice(t as int) + 1,
                len_start <= l0 + 4096 * t,
                l0 <= 1000000000,
                t < 198,
                greedy_ok(mask@, qs@, is_smooth_lighting),
                out@ == with_greedy_quads(m_start, d as int, face_coord as int, qs@.take(k as int)),
                out.packed@.len() == len_start + 4 * k,
            decreases qs@.len() - k,
        {
            let q = qs[k];
            proof {
                assert(crate::greedy::quad_ok(mask@, qs@, k as int, is_smooth_lighting));
            }
            let x0: i32 = q.i as i32;
            let y0: i32 = q.j as i32;
            let x1: i32 = (q.i + q.w) as i32;
            let y1: i32 = (q.j + q.h) as i32;
            let v1 = if d == 0 {
                (face_coord, x0, y0)
            } else if d == 1 {
                (x0, face_coord, y0)
            } else {
                (x0, y0, face_coord)
            };
            let v2 = if d == 0 {
                (face_coord, x1, y0)
            } else if d == 1 {
                (x1, face_coord, y0)
            } else {
                (x1, y0, face_coord)
            };
            let v3 = if d == 0 {
                (face_coord, x1, y1)
            } else if d == 1 {
                (x1, face_coord, y1)
            } else {
                (x1, y1, face_coord)
            };
            let v4 = if d == 0 {
                (face_coord, x0, y1)
            } else if d == 1 {
                (x0, face_coord, y1)
            } else {
                (x0, y1, face_coord)
            };
            let mut rev = q.face.normal < 0;
            if d == 1 {
                rev = !rev;
            }
            proof {
                assert(out.packed@.len() + 4 <= u32::MAX) by (nonlinear_arith)
                    requires
                        out.packed@.len() == len_start + 4 * k,
                        len_start <= l0 + 4096 * t,
                        l0 <= 1000000000,
                        t < 198,
                        k < 1024,
                ;
            }
            push_quad(
                out,
                v1,
                v2,
                v3,
                v4,
                q.face.normal,
                q.face.tex_layer,
                q.face.sky_lights,
                q.face.y_offset_down,
                rev,
                d,
            );
            proof {
                assert(qs@.take(k + 1).drop_last() =~= qs@.take(k as int));
                assert(qs@.take(k + 1).last() == q);
            }
            k = k + 1;
        }
        proof {
            assert(qs@.take(qs@.len() as int) =~= qs@);
            let all1 = all.push(qs@);
            assert(with_slices(m0, all1, t as int) == with_slices(m0, all, t as int)) by {
                lemma_with_slices_prefix(m0, all, all1, t as int);
            }
            assert(all1[t as int] == qs@);
            assert(out.packed@.len() <= l0 + 4096 * (t + 1)) by (nonlinear_arith)
                requires
                    out.packed@.len() == len_start + 4 * qs@.len(),
                    len_start <= l0 + 4096 * t,
                    qs@.len() <= 1024,
            ;
            assert forall|tt: int|
                0 <= tt < t + 1 implies greedy_ok(
                face_mask(*world, chunk_pos, mask_axis(tt), mask_slice(tt), mask_overflow(tt), is_smooth_lighting),
                #[trigger] all1[tt],
                is_smooth_lighting,
            ) by {
                if tt < t {
                    assert(all1[tt] == all[tt]);
                }
            }
            all = all1;
        }
        t = t + 1;
    }
    proof {
        assert(solid_mesh_of(*world, chunk_pos, is_smooth_lighting, m0, out@)) by {
            assert(all.len() == 198);
        }
    }
}

/// The mesh of the first `t` slices only depends on those slices.
proof fn lemma_with_slices_prefix(
    m: MeshModel,
    a: Seq<Seq<GreedyQuad>>,
    b: Seq<Seq<GreedyQuad>>,
    t: int,
)
    requires
        0 <= t <= a.len(),
        t <= b.len(),
        forall|i: int| 0 <= i < t ==> a[i] == b[i],
    ensures
        with_slices(m, a, t) == with_slices(m, b, t),
    decreases t,
{
    if t > 0 {
        lemma_with_slices_prefix(m, a, b, t - 1);
    }
}


/// The chunk one step along axis `d` from `cp`.
pub open spec fn next_chunk(cp: IVec3, d: int) -> IVec3 {
    IVec3 {
        x: (cp.x + if d == 0 { 1int } else { 0int }) as i32,
        y: (cp.y + if d == 1 { 1int } else { 0int }) as i32,
        z: (cp.z + if d == 2 { 1int } else { 0int }) as i32,
    }
}

/// A face on the border between a chunk and its neighbour along axis `d` is drawn by one chunk
/// only: the chunk draws the face of its own voxel (looking across the border) when that voxel is
/// solid and the neighbour's is not opaque, the neighbour draws the face of its voxel when that
/// one is solid and the chunk's is not opaque, and neither draws the other's face; the two
/// meshes only need to agree on the two voxels.
#[verifier::rlimit(50)]
pub proof fn law_border_face_drawn_once(
    wa: ChunkMeshInputData,
    wb: ChunkMeshInputData,
    cp: IVec3,
    d: int,
    i: int,
    j: int,
    smooth: bool,
)
    requires
        0 <= d < 3,
        0 <= i < 32,
        0 <= j < 32,
        mesh_chunk_ok(cp),
        mesh_chunk_ok(next_chunk(cp, d)),
        wb.block_at(axis_pos(cp, d, 31, i, j)) == wa.block_at(axis_pos(cp, d, 31, i, j)),
        wb.block_at(axis_pos(cp, d, 32, i, j)) == wa.block_at(axis_pos(cp, d, 32, i, j)),
    ensures
        face_cell(wa, cp, d, 31, i, j, false, smooth) is Some <==> (solid(wa.block_at(axis_pos(cp, d, 31, i, j)))
            && !opaque(wa.block_at(axis_pos(cp, d, 32, i, j)))),
        face_cell(wa, cp, d, 31, i, j, false, smooth) matches Some(f) ==> f.block == wa.block_at(
            axis_pos(cp, d, 31, i, j),
        ) && f.normal == 1,
        face_cell(wa, cp, d, 31, i, j, true, smooth) is None,
        face_cell(wb, next_chunk(cp, d), d, -1, i, j, false, smooth) is Some <==> (solid(
            wa.block_at(axis_pos(cp, d, 32, i, j)),
        ) && !opaque(wa.block_at(axis_pos(cp, d, 31, i, j)))),
        face_cell(wb, next_chunk(cp, d), d, -1, i, j, false, smooth) matches Some(f) ==> f.block
            == wa.block_at(axis_pos(cp, d, 32, i, j)) && f.normal == -1,
        face_cell(wb, next_chunk(cp, d), d, -1, i, j, true, smooth) is None,
{
    let g0 = axis_pos(cp, d, 31, i, j);
    let g1 = axis_pos(cp, d, 32, i, j);
    assert(axis_pos(next_chunk(cp, d), d, -1, i, j) == g0);
    assert(axis_pos(next_chunk(cp, d), d, 0, i, j) == g1);
    let b0 = wa.block_at(g0);
    let b1 = wa.block_at(g1);
    assert(wb.block_at(axis_pos(next_chunk(cp, d), d, -1, i, j)) == b0);
    assert(wb.block_at(axis_pos(next_chunk(cp, d), d, 0, i, j)) == b1);
}

} // verus!
