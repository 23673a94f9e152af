use vstd::prelude::*;
use crate::voxel::BlockType;
use crate::math::IVec3;
use crate::fluid::{solid, MAX_FLUID_LEVEL};
use crate::mesh_input::{ChunkMeshInputData, mesh_chunk_ok};
use crate::mesher::{MeshData, MeshModel, pack_vertex, solid_mesh_of, generate_solid_mesh};

verus! {

/// `p` moved by `(dx, dy, dz)`.
pub open spec fn at(p: IVec3, dx: int, dy: int, dz: int) -> IVec3 {
    IVec3 { x: (p.x + dx) as i32, y: (p.y + dy) as i32, z: (p.z + dz) as i32 }
}

/// Fluid level (low nibble) at a position of the mesh input.
pub open spec fn flevel(w: ChunkMeshInputData, p: IVec3) -> u8 {
    w.fluid_at(p) & 0x0Fu8
}

/// Whether the fluid at a position of the mesh input is a source.
pub open spec fn fsource(w: ChunkMeshInputData, p: IVec3) -> bool {
    w.fluid_at(p) & 0x80u8 != 0
}

/// Whether fluid stands right above a position.
pub open spec fn under_fluid(w: ChunkMeshInputData, p: IVec3) -> bool {
    flevel(w, at(p, 0, 1, 0)) > 0
}

/// The four columns around a top corner: the corner's own cell and those behind it in X, Z and
/// both.
pub open spec fn corner_cell(w: ChunkMeshInputData, c: IVec3, k: int) -> IVec3 {
    if k == 0 {
        c
    } else if k == 1 {
        at(c, -1, 0, 0)
    } else if k == 2 {
        at(c, 0, 0, -1)
    } else {
        at(c, -1, 0, -1)
    }
}

/// Whether a corner cell forces its corner to full height: a source, or fluid falling on it.
pub open spec fn forces_full(w: ChunkMeshInputData, p: IVec3) -> bool {
    fsource(w, p) || under_fluid(w, p)
}

/// Largest fluid level of four levels.
pub open spec fn max4(a: u8, b: u8, c: u8, d: u8) -> u8 {
    let ab = if a > b { a } else { b };
    let cd = if c > d { c } else { d };
    if ab > cd { ab } else { cd }
}

/// Height a corner cell contributes to a corner's average (solid cells count as the corner's
/// highest level; empty cells do not count), and whether it counts.
pub open spec fn corner_part(w: ChunkMeshInputData, p: IVec3, top: u8) -> (int, int) {
    if solid(w.block_at(p)) {
        (top as int, 1)
    } else if flevel(w, p) > 0 {
        (flevel(w, p) as int, 1)
    } else {
        (0, 0)
    }
}

/// How far below full height (0 to 7, or 8 when nothing counts) a top corner at `c` lies: the
/// average height of the cells around it, taken from full height and rounded down into range.
pub open spec fn lowering(sum: int, count: int) -> u8 {
    if count <= 0 {
        8
    } else if 8 * count - sum <= 0 {
        0
    } else if (8 * count - sum) / count > 7 {
        7
    } else {
        ((8 * count - sum) / count) as u8
    }
}

/// Lowering of the top corner at `c` (a corner position at the voxel's height) of a fluid voxel:
/// none for sources, falling columns, or when a cell around the corner forces full height.
pub open spec fn corner_offset(w: ChunkMeshInputData, c: IVec3, full: bool) -> u8 {
    if full {
        0
    } else if forces_full(w, corner_cell(w, c, 0)) || forces_full(w, corner_cell(w, c, 1))
        || forces_full(w, corner_cell(w, c, 2)) || forces_full(w, corner_cell(w, c, 3)) {
        0
    } else {
        let top = max4(
            flevel(w, corner_cell(w, c, 0)),
            flevel(w, corner_cell(w, c, 1)),
            flevel(w, corner_cell(w, c, 2)),
            flevel(w, corner_cell(w, c, 3)),
        );
        let p0 = corner_part(w, corner_cell(w, c, 0), top);
        let p1 = corner_part(w, corner_cell(w, c, 1), top);
        let p2 = corner_part(w, corner_cell(w, c, 2), top);
        let p3 = corner_part(w, corner_cell(w, c, 3), top);
        lowering(p0.0 + p1.0 + p2.0 + p3.0, p0.1 + p1.1 + p2.1 + p3.1)
    }
}

/// One face of a fluid voxel to draw: its id (+X, -X, +Y, -Y, +Z, -Z), the heights of its four
/// corners, how far each corner is lowered, whether the top's diagonal is flipped, and its flow.
#[derive(Clone, Copy, Debug)]
pub struct FluidFace {
    pub face_id: u8,
    pub y_coords: (i32, i32, i32, i32),
    pub offsets: (u8, u8, u8, u8),
    pub flip_diagonal: bool,
    pub flow: (i32, i32),
}

/// Bottom height and lowering of a side face next to fluid level `nf`: down to the voxel's floor
/// beside empty space, otherwise from its top, lowered to the neighbour's level.
pub open spec fn side_anchor(y: int, nf: u8) -> (i32, u8) {
    if nf == 0 {
        (y as i32, 0u8)
    } else {
        ((y + 1) as i32, ((MAX_FLUID_LEVEL - nf) % 256) as u8)
    }
}

/// Whether face `face_idx` of a fluid voxel of level `f0` shows against the voxel at `ngp`: the
/// top shows unless fluid is above or a full voxel is capped by a solid block; other faces hide
/// against solid blocks; the bottom shows over empty space; a side shows beside empty space or
/// where one of the two columns falls and the other does not.
pub open spec fn face_shows(
    w: ChunkMeshInputData,
    ngp: IVec3,
    face_idx: int,
    f0: u8,
    falling: bool,
) -> bool {
    let nb = w.block_at(ngp);
    let nf = flevel(w, ngp);
    if face_idx == 2 {
        !(nf > 0) && !(f0 == 8 && solid(nb))
    } else if solid(nb) {
        false
    } else if face_idx == 3 {
        nf == 0
    } else {
        nf == 0 || falling != under_fluid(w, ngp)
    }
}


/// Absolute difference of two lowerings.
pub open spec fn abs_diff(a: u8, b: u8) -> int {
    if a >= b { a - b } else { b - a }
}

/// Neighbour of `p` across face `k` (+X, -X, +Y, -Y, +Z, -Z).
pub open spec fn face_neighbor(p: IVec3, k: int) -> IVec3 {
    if k == 0 {
        at(p, 1, 0, 0)
    } else if k == 1 {
        at(p, -1, 0, 0)
    } else if k == 2 {
        at(p, 0, 1, 0)
    } else if k == 3 {
        at(p, 0, -1, 0)
    } else if k == 4 {
        at(p, 0, 0, 1)
    } else {
        at(p, 0, 0, -1)
    }
}

/// The six faces a fluid voxel at `(x, y, z)` of the chunk with corner `base` could show, in
/// order, before hidden ones are dropped. Side faces run from the anchor beside them to the
/// voxel's top; the top's corners are lowered by the corner offsets and its diagonal flipped
/// when that splits it along the flatter diagonal; the top flows from higher to lower
/// neighbours along X and Z, the sides flow down.
pub open spec fn fluid_face_candidates(w: ChunkMeshInputData, base: IVec3, x: int, y: int, z: int) -> Seq<
    FluidFace,
> {
    let gp = at(base, x, y, z);
    let full = fsource(w, gp) || under_fluid(w, gp);
    let nw = corner_offset(w, at(base, x, y, z), full);
    let ne = corner_offset(w, at(base, x + 1, y, z), full);
    let sw = corner_offset(w, at(base, x, y, z + 1), full);
    let se = corner_offset(w, at(base, x + 1, y, z + 1), full);
    let flip = abs_diff(nw, se) > abs_diff(ne, sw);
    let px = flevel(w, face_neighbor(gp, 0));
    let nx = flevel(w, face_neighbor(gp, 1));
    let pz = flevel(w, face_neighbor(gp, 4));
    let nz = flevel(w, face_neighbor(gp, 5));
    let top_flow = ((px - nx) as i32, (pz - nz) as i32);
    let side_flow = (0i32, -1i32);
    let top = (y + 1) as i32;
    let apx = side_anchor(y, px);
    let anx = side_anchor(y, nx);
    let apz = side_anchor(y, pz);
    let anz = side_anchor(y, nz);
    seq![
        FluidFace { face_id: 0, y_coords: (apx.0, apx.0, top, top), offsets: (apx.1, apx.1, ne, se), flip_diagonal: false, flow: side_flow },
        FluidFace { face_id: 1, y_coords: (anx.0, anx.0, top, top), offsets: (anx.1, anx.1, sw, nw), flip_diagonal: false, flow: side_flow },
        FluidFace { face_id: 2, y_coords: (top, top, top, top), offsets: (sw, se, ne, nw), flip_diagonal: flip, flow: top_flow },
        FluidFace { face_id: 3, y_coords: (top, top, top, top), offsets: (7u8, 7u8, 7u8, 7u8), flip_diagonal: false, flow: side_flow },
        FluidFace { face_id: 4, y_coords: (apz.0, apz.0, top, top), offsets: (apz.1, apz.1, sw, se), flip_diagonal: false, flow: side_flow },
        FluidFace { face_id: 5, y_coords: (anz.0, anz.0, top, top), offsets: (anz.1, anz.1, ne, nw), flip_diagonal: false, flow: side_flow },
    ]
}

/// The faces a voxel at `(x, y, z)` of the chunk with corner `base` shows: none unless it is air
/// holding fluid; otherwise the candidates whose face shows against the neighbour across it.
#[verifier::opaque]
pub open spec fn fluid_faces(w: ChunkMeshInputData, base: IVec3, x: int, y: int, z: int) -> Seq<FluidFace> {
    let gp = at(base, x, y, z);
    if !(w.block_at(gp) == BlockType::Air && flevel(w, gp) > 0) {
        Seq::empty()
    } else {
        let f0 = flevel(w, gp);
        let falling = under_fluid(w, gp);
        let c = fluid_face_candidates(w, base, x, y, z);
        Seq::new(6, |k: int| k).filter(|k: int| face_shows(w, face_neighbor(gp, k), k, f0, falling)).map_values(
            |k: int| c[k],
        )
    }
}

/// Candidate `k` of a fluid voxel is its face `k`.
proof fn lemma_candidate_face_id(w: ChunkMeshInputData, base: IVec3, x: int, y: int, z: int, k: int)
    requires
        0 <= k < 6,
    ensures
        fluid_face_candidates(w, base, x, y, z)[k].face_id == k,
{
}

/// A fluid voxel shows each of its faces towards a neighbour that is neither solid nor holds
/// fluid: its sides towards open air beside it, its top towards open air above, its bottom
/// towards open air below.
pub proof fn law_fluid_faces_show_to_open_air(
    w: ChunkMeshInputData,
    base: IVec3,
    x: int,
    y: int,
    z: int,
    k: int,
)
    requires
        0 <= k < 6,
        w.block_at(at(base, x, y, z)) == BlockType::Air,
        flevel(w, at(base, x, y, z)) > 0,
        !solid(w.block_at(face_neighbor(at(base, x, y, z), k))),
        flevel(w, face_neighbor(at(base, x, y, z), k)) == 0,
    ensures
        exists|j: int|
            0 <= j < fluid_faces(w, base, x, y, z).len() && #[trigger] fluid_faces(w, base, x, y, z)[j].face_id
                == k,
{
    reveal(fluid_faces);
    let gp = at(base, x, y, z);
    let f0 = flevel(w, gp);
    let falling = under_fluid(w, gp);
    let c = fluid_face_candidates(w, base, x, y, z);
    let idx = Seq::new(6, |kk: int| kk);
    let pred = |kk: int| face_shows(w, face_neighbor(gp, kk), kk, f0, falling);
    assert(face_shows(w, face_neighbor(gp, k), k, f0, falling));
    assert(pred(idx[k]));
    idx.lemma_filter_contains(pred, k);
    let fl = idx.filter(pred);
    let t = choose|t: int| 0 <= t < fl.len() && fl[t] == k;
    let faces = fl.map_values(|kk: int| c[kk]);
    assert(faces[t] == c[k]);
    lemma_candidate_face_id(w, base, x, y, z, k);
    assert(fluid_faces(w, base, x, y, z) == faces);
    assert(fluid_faces(w, base, x, y, z)[t].face_id == k);
}

/// Corner `i` of face `face_id` of the voxel at `(x, ?, z)`, at height `yc`.
pub open spec fn fluid_vertex(face_id: int, i: int, x: int, yc: int, z: int) -> (i32, i32, i32) {
    let (vx, vz) = if face_id == 0 {
        if i == 0 { (x + 1, z + 1) } else if i == 1 { (x + 1, z) } else if i == 2 { (x + 1, z) } else { (x + 1, z + 1) }
    } else if face_id == 1 {
        if i == 0 { (x, z) } else if i == 1 { (x, z + 1) } else if i == 2 { (x, z + 1) } else { (x, z) }
    } else if face_id == 2 {
        if i == 0 { (x, z + 1) } else if i == 1 { (x + 1, z + 1) } else if i == 2 { (x + 1, z) } else { (x, z) }
    } else if face_id == 3 {
        if i == 0 { (x, z) } else if i == 1 { (x + 1, z) } else if i == 2 { (x + 1, z + 1) } else { (x, z + 1) }
    } else if face_id == 4 {
        if i == 0 { (x + 1, z + 1) } else if i == 1 { (x, z + 1) } else if i == 2 { (x, z + 1) } else { (x + 1, z + 1) }
    } else {
        if i == 0 { (x, z) } else if i == 1 { (x + 1, z) } else if i == 2 { (x + 1, z) } else { (x, z) }
    };
    (vx as i32, yc as i32, vz as i32)
}

/// Offset along one axis of the `s`-th of the four light samples around a vertex of face
/// `face_id`: the face's own axis is fixed (0 in front of a face facing up the axis, -1 before a
/// face facing down it), the other two range over -1 and 0.
pub open spec fn sample_offset(face_id: int, s: int) -> (int, int, int) {
    let a = if s / 2 == 0 { -1int } else { 0int };
    let b = if s % 2 == 0 { -1int } else { 0int };
    if face_id == 0 {
        (0, a, b)
    } else if face_id == 1 {
        (-1, a, b)
    } else if face_id == 2 {
        (a, 0, b)
    } else if face_id == 3 {
        (a, -1, b)
    } else if face_id == 4 {
        (a, b, 0)
    } else {
        (a, b, -1)
    }
}

/// Smoothed light of a fluid vertex: the average, rounded down, of the four voxels around it on
/// the side the face looks at.
#[verifier::opaque]
pub open spec fn vertex_light(w: ChunkMeshInputData, base: IVec3, v: (i32, i32, i32), face_id: int) -> u8 {
    let l = |s: int| w.light_at(at(base, v.0 + sample_offset(face_id, s).0, v.1 + sample_offset(face_id, s).1, v.2 + sample_offset(face_id, s).2)) as int;
    ((l(0) + l(1) + l(2) + l(3)) / 4) as u8
}

/// Triangle corner pattern of a fluid face.
pub open spec fn fluid_pattern(face_id: int, flip: bool) -> Seq<int> {
    if face_id == 2 && flip {
        seq![1, 2, 3, 1, 3, 0]
    } else if face_id == 4 || face_id == 5 {
        seq![0, 2, 1, 0, 3, 2]
    } else {
        seq![0, 1, 2, 0, 2, 3]
    }
}

/// A mesh after one more face of the fluid voxel at `(x, ?, z)` of the chunk with corner `base`.
#[verifier::opaque]
pub open spec fn with_fluid_face(m: MeshModel, w: ChunkMeshInputData, base: IVec3, x: int, z: int, f: FluidFace) -> MeshModel {
    let fid = f.face_id as int;
    let v = |i: int| fluid_vertex(fid, i, x, if i == 0 { f.y_coords.0 as int } else if i == 1 { f.y_coords.1 as int } else if i == 2 { f.y_coords.2 as int } else { f.y_coords.3 as int }, z);
    let off = |i: int| if i == 0 { f.offsets.0 } else if i == 1 { f.offsets.1 } else if i == 2 { f.offsets.2 } else { f.offsets.3 };
    let pk = |i: int| pack_vertex(v(i), fid as u32, 4, off(i) as u32, vertex_light(w, base, v(i), fid));
    let b = m.0.len() as int;
    let pat = fluid_pattern(fid, f.flip_diagonal);
    (
        m.0 + seq![pk(0), pk(1), pk(2), pk(3)],
        m.1 + Seq::new(6, |t: int| (b + pat[t]) as u32),
        m.2 + seq![f.flow, f.flow, f.flow, f.flow],
    )
}

/// A mesh after a list of faces of one voxel.
pub open spec fn with_fluid_faces(m: MeshModel, w: ChunkMeshInputData, base: IVec3, x: int, z: int, fs: Seq<FluidFace>) -> MeshModel
    decreases fs.len(),
{
    if fs.len() == 0 {
        m
    } else {
        with_fluid_face(with_fluid_faces(m, w, base, x, z, fs.drop_last()), w, base, x, z, fs.last())
    }
}

/// A mesh after the fluid faces of the first `t` voxels of the chunk with corner `base`, voxel
/// `t` being `(t % 32, t / 1024, (t / 32) % 32)`: layer by layer from below, rows along Z,
/// voxels along X.
pub open spec fn with_fluid_voxels(m: MeshModel, w: ChunkMeshInputData, base: IVec3, t: int) -> MeshModel
    decreases t,
{
    if t <= 0 {
        m
    } else {
        let v = t - 1;
        let (x, y, z) = (v % 32, v / 1024, (v / 32) % 32);
        with_fluid_faces(with_fluid_voxels(m, w, base, t - 1), w, base, x, z, fluid_faces(w, base, x, y, z))
    }
}


/// A fluid level is at most 15.
pub proof fn lemma_low_nibble(v: u8)
    ensures
        v & 0x0Fu8 <= 15,
{
    assert(v & 0x0Fu8 <= 15) by (bit_vector);
}

/// Positions near a chunk whose offsets by a few voxels stay 32-bit.
pub open spec fn near_ok(p: IVec3) -> bool {
    &&& -2146000000 <= p.x <= 2146000000
    &&& -2146000000 <= p.y <= 2146000000
    &&& -2146000000 <= p.z <= 2146000000
}

/// Positions within a few voxels of a chunk that meshes.
pub open spec fn in_mesh_range(p: IVec3) -> bool {
    &&& -2145000000 <= p.x <= 2145000000
    &&& -2145000000 <= p.y <= 2145000000
    &&& -2145000000 <= p.z <= 2145000000
}

/// `p` moved by `(dx, dy, dz)`.
fn at_exec(p: IVec3, dx: i32, dy: i32, dz: i32) -> (r: IVec3)
    requires
        near_ok(p),
        -40 <= dx <= 40,
        -40 <= dy <= 40,
        -40 <= dz <= 40,
    ensures
        r == at(p, dx as int, dy as int, dz as int),
{
    IVec3 { x: p.x + dx, y: p.y + dy, z: p.z + dz }
}

/// Whether a corner cell forces its corner to full height.
fn forces_full_exec(w: &ChunkMeshInputData, p: IVec3) -> (r: bool)
    requires
        w.wf(),
        near_ok(p),
    ensures
        r == forces_full(*w, p),
{
    let raw = w.get_fluid_global(p);
    let above = w.get_fluid_global(at_exec(p, 0, 1, 0)) & 0x0F;
    (raw & 0x80) != 0 || above > 0
}

/// Contribution of a corner cell to its corner's average height.
fn corner_part_exec(w: &ChunkMeshInputData, p: IVec3, top: u8) -> (r: (i32, i32))
    requires
        w.wf(),
        top <= 15,
    ensures
        r.0 == corner_part(*w, p, top).0,
        r.1 == corner_part(*w, p, top).1,
        0 <= r.0 <= 15,
        0 <= r.1 <= 1,
{
    let raw = w.get_fluid_global(p);
    let f = raw & 0x0F;
    proof {
        lemma_low_nibble(raw);
    }
    if w.get_block_global(p).is_solid() {
        (top as i32, 1)
    } else if f > 0 {
        (f as i32, 1)
    } else {
        (0, 0)
    }
}

/// Lowering of a top corner of a fluid voxel.
#[verifier::rlimit(40)]
fn corner_offset_exec(w: &ChunkMeshInputData, c: IVec3, full: bool) -> (r: u8)
    requires
        w.wf(),
        in_mesh_range(c),
    ensures
        r == corner_offset(*w, c, full),
{
    if full {
        return 0;
    }
    let c0 = c;
    let c1 = at_exec(c, -1, 0, 0);
    let c2 = at_exec(c, 0, 0, -1);
    let c3 = at_exec(c, -1, 0, -1);
    proof {
        assert(c0 == corner_cell(*w, c, 0));
        assert(c1 == corner_cell(*w, c, 1));
        assert(c2 == corner_cell(*w, c, 2));
        assert(c3 == corner_cell(*w, c, 3));
    }
    if forces_full_exec(w, c0) || forces_full_exec(w, c1) || forces_full_exec(w, c2)
        || forces_full_exec(w, c3) {
        return 0;
    }
    let r0 = w.get_fluid_global(c0);
    let r1 = w.get_fluid_global(c1);
    let r2 = w.get_fluid_global(c2);
    let r3 = w.get_fluid_global(c3);
    let f0 = r0 & 0x0F;
    let f1 = r1 & 0x0F;
    let f2 = r2 & 0x0F;
    let f3 = r3 & 0x0F;
    proof {
        lemma_low_nibble(r0);
        lemma_low_nibble(r1);
        lemma_low_nibble(r2);
        lemma_low_nibble(r3);
    }
    let ab = if f0 > f1 { f0 } else { f1 };
    let cd = if f2 > f3 { f2 } else { f3 };
    let top = if ab > cd { ab } else { cd };
    let p0 = corner_part_exec(w, c0, top);
    let p1 = corner_part_exec(w, c1, top);
    let p2 = corner_part_exec(w, c2, top);
    let p3 = corner_part_exec(w, c3, top);
    let sum = p0.0 + p1.0 + p2.0 + p3.0;
    let count = p0.1 + p1.1 + p2.1 + p3.1;
    if count > 0 {
        let gap = 8 * count - sum;
        if gap <= 0 {
            0
        } else if gap / count > 7 {
            7
        } else {
            (gap / count) as u8
        }
    } else {
        8
    }
}

/// Neighbour of `p` across face `k`.
fn face_neighbor_exec(p: IVec3, k: usize) -> (r: IVec3)
    requires
        near_ok(p),
        k < 6,
    ensures
        r == face_neighbor(p, k as int),
{
    if k == 0 {
        at_exec(p, 1, 0, 0)
    } else if k == 1 {
        at_exec(p, -1, 0, 0)
    } else if k == 2 {
        at_exec(p, 0, 1, 0)
    } else if k == 3 {
        at_exec(p, 0, -1, 0)
    } else if k == 4 {
        at_exec(p, 0, 0, 1)
    } else {
        at_exec(p, 0, 0, -1)
    }
}

/// Bottom height and lowering of a side face next to fluid level `nf`.
fn side_anchor_exec(y: i32, nf: u8) -> (r: (i32, u8))
    requires
        0 <= y < 32,
    ensures
        r == side_anchor(y as int, nf),
{
    if nf == 0 {
        (y, 0)
    } else {
        (y + 1, MAX_FLUID_LEVEL.wrapping_sub(nf))
    }
}

/// Whether face `face_idx` of a fluid voxel shows against the voxel at `ngp`.
fn face_shows_exec(w: &ChunkMeshInputData, ngp: IVec3, face_idx: usize, f0: u8, falling: bool) -> (r:
    bool)
    requires
        w.wf(),
        near_ok(ngp),
    ensures
        r == face_shows(*w, ngp, face_idx as int, f0, falling),
{
    let nb = w.get_block_global(ngp);
    let nf = w.get_fluid_global(ngp) & 0x0F;
    if face_idx == 2 {
        if nf > 0 {
            return false;
        }
        if f0 == 8 && nb.is_solid() {
            return false;
        }
        return true;
    }
    if nb.is_solid() {
        return false;
    }
    if face_idx == 3 {
        return nf == 0;
    }
    let neighbor_is_waterfall = (w.get_fluid_global(at_exec(ngp, 0, 1, 0)) & 0x0F) > 0;
    nf == 0 || (falling != neighbor_is_waterfall)
}

/// The faces the voxel at `(x, y, z)` of the chunk with corner `base` shows.
#[verifier::rlimit(80)]
fn fluid_faces_exec(w: &ChunkMeshInputData, base: IVec3, x: i32, y: i32, z: i32) -> (r: Vec<FluidFace>)
    requires
        w.wf(),
        -2144000000 <= base.x <= 2144000000,
        -2144000000 <= base.y <= 2144000000,
        -2144000000 <= base.z <= 2144000000,
        0 <= x < 32,
        0 <= y < 32,
        0 <= z < 32,
    ensures
        r@ == fluid_faces(*w, base, x as int, y as int, z as int),
        r@.len() <= 6,
        forall|kk: int| 0 <= kk < r@.len() ==> {
            &&& (#[trigger] r@[kk]).face_id < 6
            &&& 0 <= r@[kk].y_coords.0 <= 32
            &&& 0 <= r@[kk].y_coords.1 <= 32
            &&& 0 <= r@[kk].y_coords.2 <= 32
            &&& 0 <= r@[kk].y_coords.3 <= 32
        },
{
    reveal(fluid_faces);
    let gp = at_exec(base, x, y, z);
    let b0 = w.get_block_global(gp);
    let raw0 = w.get_fluid_global(gp);
    let is_source0 = (raw0 & 0x80) != 0;
    let f0 = raw0 & 0x0F;
    let mut faces: Vec<FluidFace> = Vec::new();
    if !(b0 == BlockType::Air && f0 > 0) {
        proof {
            assert(faces@ =~= fluid_faces(*w, base, x as int, y as int, z as int));
        }
        return faces;
    }
    let is_waterfall_column = (w.get_fluid_global(at_exec(gp, 0, 1, 0)) & 0x0F) > 0;
    let full = is_source0 || is_waterfall_column;
    let nw_off = corner_offset_exec(w, at_exec(base, x, y, z), full);
    let ne_off = corner_offset_exec(w, at_exec(base, x + 1, y, z), full);
    let sw_off = corner_offset_exec(w, at_exec(base, x, y, z + 1), full);
    let se_off = corner_offset_exec(w, at_exec(base, x + 1, y, z + 1), full);
    let diff_a = if nw_off >= se_off { nw_off - se_off } else { se_off - nw_off };
    let diff_b = if ne_off >= sw_off { ne_off - sw_off } else { sw_off - ne_off };
    let flip_diagonal = diff_a > diff_b;
    let nf_px = w.get_fluid_global(face_neighbor_exec(gp, 0)) & 0x0F;
    let nf_nx = w.get_fluid_global(face_neighbor_exec(gp, 1)) & 0x0F;
    let nf_pz = w.get_fluid_global(face_neighbor_exec(gp, 4)) & 0x0F;
    let nf_nz = w.get_fluid_global(face_neighbor_exec(gp, 5)) & 0x0F;
    let top_flow = (nf_px as i32 - nf_nx as i32, nf_pz as i32 - nf_nz as i32);
    let side_flow = (0i32, -1i32);
    let top = y + 1;
    let apx = side_anchor_exec(y, nf_px);
    let anx = side_anchor_exec(y, nf_nx);
    let apz = side_anchor_exec(y, nf_pz);
    let anz = side_anchor_exec(y, nf_nz);
    let ghost cands = fluid_face_candidates(*w, base, x as int, y as int, z as int);
    let ghost pred = |k: int| face_shows(*w, face_neighbor(gp, k), k, f0, is_waterfall_column);
    let ghost ids = Seq::new(6, |k: int| k);
    let mut k: usize = 0;
    while k < 6
        invariant
            w.wf(),
            in_mesh_range(gp),
            0 <= k <= 6,
            ids == Seq::new(6, |kk: int| kk),
            pred == (|kk: int| face_shows(*w, face_neighbor(gp, kk), kk, f0, is_waterfall_column)),
            cands == fluid_face_candidates(*w, base, x as int, y as int, z as int),
            faces@ == ids.take(k as int).filter(pred).map_values(|kk: int| cands[kk]),
            faces@.len() <= k,
            0 <= y < 32,
            top == y + 1,
            apx.0 == y || apx.0 == y + 1,
            anx.0 == y || anx.0 == y + 1,
            apz.0 == y || apz.0 == y + 1,
            anz.0 == y || anz.0 == y + 1,
            forall|kk: int| 0 <= kk < faces@.len() ==> {
                &&& (#[trigger] faces@[kk]).face_id < 6
                &&& 0 <= faces@[kk].y_coords.0 <= 32
                &&& 0 <= faces@[kk].y_coords.1 <= 32
                &&& 0 <= faces@[kk].y_coords.2 <= 32
                &&& 0 <= faces@[kk].y_coords.3 <= 32
            },
            cands[0] == (FluidFace { face_id: 0, y_coords: (apx.0, apx.0, top, top), offsets: (apx.1, apx.1, ne_off, se_off), flip_diagonal: false, flow: side_flow }),
            cands[1] == (FluidFace { face_id: 1, y_coords: (anx.0, anx.0, top, top), offsets: (anx.1, anx.1, sw_off, nw_off), flip_diagonal: false, flow: side_flow }),
            cands[2] == (FluidFace { face_id: 2, y_coords: (top, top, top, top), offsets: (sw_off, se_off, ne_off, nw_off), flip_diagonal: flip_diagonal, flow: top_flow }),
            cands[3] == (FluidFace { face_id: 3, y_coords: (top, top, top, top), offsets: (7u8, 7u8, 7u8, 7u8), flip_diagonal: false, flow: side_flow }),
            cands[4] == (FluidFace { face_id: 4, y_coords: (apz.0, apz.0, top, top), offsets: (apz.1, apz.1, sw_off, se_off), flip_diagonal: false, flow: side_flow }),
            cands[5] == (FluidFace { face_id: 5, y_coords: (anz.0, anz.0, top, top), offsets: (anz.1, anz.1, ne_off, nw_off), flip_diagonal: false, flow: side_flow }),
        decreases 6 - k,
    {
        let ngp = face_neighbor_exec(gp, k);
        let shows = face_shows_exec(w, ngp, k, f0, is_waterfall_column);
        proof {
            assert(ids.take(k as int + 1) =~= ids.take(k as int).push(k as int));
            ids.take(k as int).lemma_filter_push(k as int, pred);
            assert(pred(k as int) == shows);
        }
        if shows {
            let face = if k == 0 {
                FluidFace { face_id: 0, y_coords: (apx.0, apx.0, top, top), offsets: (apx.1, apx.1, ne_off, se_off), flip_diagonal: false, flow: side_flow }
            } else if k == 1 {
                FluidFace { face_id: 1, y_coords: (anx.0, anx.0, top, top), offsets: (anx.1, anx.1, sw_off, nw_off), flip_diagonal: false, flow: side_flow }
            } else if k == 2 {
                FluidFace { face_id: 2, y_coords: (top, top, top, top), offsets: (sw_off, se_off, ne_off, nw_off), flip_diagonal, flow: top_flow }
            } else if k == 3 {
                FluidFace { face_id: 3, y_coords: (top, top, top, top), offsets: (7, 7, 7, 7), flip_diagonal: false, flow: side_flow }
            } else if k == 4 {
                FluidFace { face_id: 4, y_coords: (apz.0, apz.0, top, top), offsets: (apz.1, apz.1, sw_off, se_off), flip_diagonal: false, flow: side_flow }
            } else {
                FluidFace { face_id: 5, y_coords: (anz.0, anz.0, top, top), offsets: (anz.1, anz.1, ne_off, nw_off), flip_diagonal: false, flow: side_flow }
            };
            faces.push(face);
            proof {
                let a = ids.take(k as int).filter(pred);
                assert(a.push(k as int).map_values(|kk: int| cands[kk]) =~= a.map_values(|kk: int| cands[kk]).push(cands[k as int]));
            }
        }
        k = k + 1;
    }
    proof {
        assert(ids.take(6) =~= ids);
    }
    faces
}


/// Corner `i` of face `face_id` of the voxel at `(x, ?, z)`, at height `yc`.
fn fluid_vertex_exec(face_id: u8, i: usize, x: i32, yc: i32, z: i32) -> (r: (i32, i32, i32))
    requires
        face_id < 6,
        i < 4,
        0 <= x < 32,
        0 <= z < 32,
    ensures
        r == fluid_vertex(face_id as int, i as int, x as int, yc as int, z as int),
{
    let (vx, vz) = if face_id == 0 {
        if i == 0 { (x + 1, z + 1) } else if i == 1 { (x + 1, z) } else if i == 2 { (x + 1, z) } else { (x + 1, z + 1) }
    } else if face_id == 1 {
        if i == 0 { (x, z) } else if i == 1 { (x, z + 1) } else if i == 2 { (x, z + 1) } else { (x, z) }
    } else if face_id == 2 {
        if i == 0 { (x, z + 1) } else if i == 1 { (x + 1, z + 1) } else if i == 2 { (x + 1, z) } else { (x, z) }
    } else if face_id == 3 {
        if i == 0 { (x, z) } else if i == 1 { (x + 1, z) } else if i == 2 { (x + 1, z + 1) } else { (x, z + 1) }
    } else if face_id == 4 {
        if i == 0 { (x + 1, z + 1) } else if i == 1 { (x, z + 1) } else if i == 2 { (x, z + 1) } else { (x + 1, z + 1) }
    } else {
        if i == 0 { (x, z) } else if i == 1 { (x + 1, z) } else if i == 2 { (x + 1, z) } else { (x, z) }
    };
    (vx, yc, vz)
}

/// Offset of light sample `s` around a vertex of face `face_id`.
fn sample_offset_exec(face_id: u8, s: usize) -> (r: (i32, i32, i32))
    requires
        s < 4,
    ensures
        r.0 == sample_offset(face_id as int, s as int).0,
        r.1 == sample_offset(face_id as int, s as int).1,
        r.2 == sample_offset(face_id as int, s as int).2,
{
    let a: i32 = if s / 2 == 0 { -1 } else { 0 };
    let b: i32 = if s % 2 == 0 { -1 } else { 0 };
    if face_id == 0 {
        (0, a, b)
    } else if face_id == 1 {
        (-1, a, b)
    } else if face_id == 2 {
        (a, 0, b)
    } else if face_id == 3 {
        (a, -1, b)
    } else if face_id == 4 {
        (a, b, 0)
    } else {
        (a, b, -1)
    }
}

/// Smoothed light of a fluid vertex.
fn vertex_light_exec(w: &ChunkMeshInputData, base: IVec3, v: (i32, i32, i32), face_id: u8) -> (r: u8)
    requires
        w.wf(),
        -2144000000 <= base.x <= 2144000000,
        -2144000000 <= base.y <= 2144000000,
        -2144000000 <= base.z <= 2144000000,
        0 <= v.0 <= 33,
        0 <= v.1 <= 33,
        0 <= v.2 <= 33,
    ensures
        r == vertex_light(*w, base, v, face_id as int),
{
    reveal(vertex_light);
    let mut sum: u32 = 0;
    let mut s: usize = 0;
    let ghost l = |s: int| w.light_at(at(base, v.0 + sample_offset(face_id as int, s).0, v.1 + sample_offset(face_id as int, s).1, v.2 + sample_offset(face_id as int, s).2)) as int;
    while s < 4
        invariant
            w.wf(),
            -2144000000 <= base.x <= 2144000000,
            -2144000000 <= base.y <= 2144000000,
            -2144000000 <= base.z <= 2144000000,
            0 <= v.0 <= 33,
            0 <= v.1 <= 33,
            0 <= v.2 <= 33,
            s <= 4,
            l == (|s: int| w.light_at(at(base, v.0 + sample_offset(face_id as int, s).0, v.1 + sample_offset(face_id as int, s).1, v.2 + sample_offset(face_id as int, s).2)) as int),
            sum == (if s > 0 { l(0) } else { 0 }) + (if s > 1 { l(1) } else { 0 }) + (if s > 2 { l(2) } else { 0 }) + (if s > 3 { l(3) } else { 0 }),
            sum <= 15 * s,
        decreases 4 - s,
    {
        let o = sample_offset_exec(face_id, s);
        let p = IVec3 { x: base.x + v.0 + o.0, y: base.y + v.1 + o.1, z: base.z + v.2 + o.2 };
        proof {
            assert(p == at(base, v.0 + sample_offset(face_id as int, s as int).0, v.1 + sample_offset(face_id as int, s as int).1, v.2 + sample_offset(face_id as int, s as int).2));
        }
        sum = sum + w.get_light_global(p) as u32;
        s = s + 1;
    }
    (sum / 4) as u8
}

/// Appends one face of the fluid voxel at `(x, y, z)` of the chunk with corner `base_gp`: four
/// vertices on texture layer 4, lowered by `offsets` and lit by their smoothed light, the two
/// triangles of the face, and the flow at every vertex.
#[verifier::rlimit(60)]
pub fn push_fluid_quad(
    out: &mut MeshData,
    base_gp: IVec3,
    world: &ChunkMeshInputData,
    x: i32,
    y: i32,
    z: i32,
    face_id: u8,
    y_coords: (i32, i32, i32, i32),
    offsets: (u8, u8, u8, u8),
    flip_diagonal: bool,
    flow: (i32, i32),
)
    requires
        world.wf(),
        -2144000000 <= base_gp.x <= 2144000000,
        -2144000000 <= base_gp.y <= 2144000000,
        -2144000000 <= base_gp.z <= 2144000000,
        0 <= x < 32,
        0 <= y < 32,
        0 <= z < 32,
        face_id < 6,
        0 <= y_coords.0 <= 32 && 0 <= y_coords.1 <= 32 && 0 <= y_coords.2 <= 32 && 0 <= y_coords.3 <= 32,
        old(out).packed@.len() + 4 <= u32::MAX,
    ensures
        final(out)@ == with_fluid_face(old(out)@, *world, base_gp, x as int, z as int, FluidFace { face_id, y_coords, offsets, flip_diagonal, flow }),
        final(out).packed@.len() == old(out).packed@.len() + 4,
{
    reveal(with_fluid_face);
    let ghost f = FluidFace { face_id, y_coords, offsets, flip_diagonal, flow };
    let base = out.packed.len() as u32;
    let tex_layer: u32 = 4;
    let fid = face_id as u32;
    let mut i: usize = 0;
    let ghost m0 = out@;
    let ghost v = |i: int| fluid_vertex(face_id as int, i, x as int, if i == 0 { y_coords.0 as int } else if i == 1 { y_coords.1 as int } else if i == 2 { y_coords.2 as int } else { y_coords.3 as int }, z as int);
    let ghost off = |i: int| if i == 0 { offsets.0 } else if i == 1 { offsets.1 } else if i == 2 { offsets.2 } else { offsets.3 };
    let ghost pk = |i: int| pack_vertex(v(i), face_id as u32, 4, off(i) as u32, vertex_light(*world, base_gp, v(i), face_id as int));
    while i < 4
        invariant
            world.wf(),
            -2144000000 <= base_gp.x <= 2144000000,
            -2144000000 <= base_gp.y <= 2144000000,
            -2144000000 <= base_gp.z <= 2144000000,
            0 <= x < 32,
            0 <= z < 32,
            face_id < 6,
            fid == face_id as u32,
            tex_layer == 4,
            0 <= y_coords.0 <= 32 && 0 <= y_coords.1 <= 32 && 0 <= y_coords.2 <= 32 && 0 <= y_coords.3 <= 32,
            i <= 4,
            v == (|i: int| fluid_vertex(face_id as int, i, x as int, if i == 0 { y_coords.0 as int } else if i == 1 { y_coords.1 as int } else if i == 2 { y_coords.2 as int } else { y_coords.3 as int }, z as int)),
            off == (|i: int| if i == 0 { offsets.0 } else if i == 1 { offsets.1 } else if i == 2 { offsets.2 } else { offsets.3 }),
            pk == (|i: int| pack_vertex(v(i), face_id as u32, 4, off(i) as u32, vertex_light(*world, base_gp, v(i), face_id as int))),
            out.packed@ == m0.0 + Seq::new(i as nat, |k: int| pk(k)),
            out.flow@ == m0.2 + Seq::new(i as nat, |k: int| flow),
            out.indices@ == m0.1,
        decreases 4 - i,
    {
        let yc = if i == 0 { y_coords.0 } else if i == 1 { y_coords.1 } else if i == 2 { y_coords.2 } else { y_coords.3 };
        let yo = if i == 0 { offsets.0 } else if i == 1 { offsets.1 } else if i == 2 { offsets.2 } else { offsets.3 };
        let vtx = fluid_vertex_exec(face_id, i, x, yc, z);
        let smooth_light = vertex_light_exec(world, base_gp, vtx, face_id);
        let y_offset_down = yo as u32;
        let packed: u32 = ((vtx.0 as u32) & 0x3F) | (((vtx.1 as u32) & 0x3F) << 6) | (((vtx.2 as u32) & 0x3F) << 12)
            | ((fid & 0x07) << 18) | ((tex_layer & 0x0F) << 21) | ((y_offset_down & 0x07) << 25)
            | (((smooth_light as u32) & 0x0F) << 28);
        proof {
            assert(vtx == v(i as int));
            assert(packed == pk(i as int));
        }
        out.packed.push(packed);
        out.flow.push(flow);
        proof {
            assert(out.packed@ =~= m0.0 + Seq::new(i as nat + 1, |k: int| pk(k)));
            assert(out.flow@ =~= m0.2 + Seq::new(i as nat + 1, |k: int| flow));
        }
        i = i + 1;
    }
    let pattern: (u32, u32, u32, u32, u32, u32) = if face_id == 2 && flip_diagonal {
        (1, 2, 3, 1, 3, 0)
    } else if face_id == 4 || face_id == 5 {
        (0, 2, 1, 0, 3, 2)
    } else {
        (0, 1, 2, 0, 2, 3)
    };
    out.indices.push(base + pattern.0);
    out.indices.push(base + pattern.1);
    out.indices.push(base + pattern.2);
    out.indices.push(base + pattern.3);
    out.indices.push(base + pattern.4);
    out.indices.push(base + pattern.5);
    proof {
        let pat = fluid_pattern(face_id as int, flip_diagonal);
        let b = m0.0.len() as int;
        assert(out.indices@ =~= m0.1 + Seq::new(6, |t: int| (b + pat[t]) as u32));
        assert(out.packed@ =~= m0.0 + seq![pk(0), pk(1), pk(2), pk(3)]);
        assert(out.flow@ =~= m0.2 + seq![flow, flow, flow, flow]);
    }
}

/// `m1` is `m0` with the fluid faces of the chunk at `chunk_pos` added, voxel by voxel.
pub open spec fn fluid_mesh_of(w: ChunkMeshInputData, chunk_pos: IVec3, m0: MeshModel, m1: MeshModel) -> bool {
    m1 == with_fluid_voxels(m0, w, at(IVec3 { x: 0, y: 0, z: 0 }, chunk_pos.x * 32, chunk_pos.y * 32, chunk_pos.z * 32), 32768)
}

/// Adds the faces of the fluid in the chunk at `chunk_pos` to `out`, voxel by voxel.
#[verifier::rlimit(60)]
pub fn generate_fluid_mesh(chunk_pos: IVec3, world: &ChunkMeshInputData, out: &mut MeshData)
    requires
        world.wf(),
        mesh_chunk_ok(chunk_pos),
        old(out).packed@.len() <= 1000000000,
    ensures
        fluid_mesh_of(*world, chunk_pos, old(out)@, final(out)@),
        final(out).packed@.len() <= old(out).packed@.len() + 786432,
{
    let base_gp = IVec3 { x: chunk_pos.x * 32, y: chunk_pos.y * 32, z: chunk_pos.z * 32 };
    let ghost m0 = out@;
    let ghost l0 = out.packed@.len();
    proof {
        assert(base_gp == at(IVec3 { x: 0, y: 0, z: 0 }, chunk_pos.x * 32, chunk_pos.y * 32, chunk_pos.z * 32));
    }
    let mut t: usize = 0;
    while t < 32768
        invariant
            world.wf(),
            -2144000000 <= base_gp.x <= 2144000000,
            -2144000000 <= base_gp.y <= 2144000000,
            -2144000000 <= base_gp.z <= 2144000000,
            t <= 32768,
            l0 == m0.0.len(),
            l0 <= 1000000000,
            out@ == with_fluid_voxels(m0, *world, base_gp, t as int),
            out.packed@.len() <= l0 + 24 * t,
        decreases 32768 - t,
    {
        let x = (t % 32) as i32;
        let z = ((t / 32) % 32) as i32;
        let y = (t / 1024) as i32;
        let faces = fluid_faces_exec(world, base_gp, x, y, z);
        let ghost m_start = out@;
        let ghost len_start = out.packed@.len();
        let mut k: usize = 0;
        while k < faces.len()
            invariant
                world.wf(),
                -2144000000 <= base_gp.x <= 2144000000,
                -2144000000 <= base_gp.y <= 2144000000,
                -2144000000 <= base_gp.z <= 2144000000,
                0 <= x < 32,
                0 <= y < 32,
                0 <= z < 32,
                t < 32768,
                faces@ == fluid_faces(*world, base_gp, x as int, y as int, z as int),
                faces@.len() <= 6,
                k <= faces@.len(),
                len_start <= l0 + 24 * t,
                l0 <= 1000000000,
                out@ == with_fluid_faces(m_start, *world, base_gp, x as int, z as int, faces@.take(k as int)),
                out.packed@.len() == len_start + 4 * k,
                forall|kk: int| 0 <= kk < faces@.len() ==> {
                    &&& (#[trigger] faces@[kk]).face_id < 6
                    &&& 0 <= faces@[kk].y_coords.0 <= 32
                    &&& 0 <= faces@[kk].y_coords.1 <= 32
                    &&& 0 <= faces@[kk].y_coords.2 <= 32
                    &&& 0 <= faces@[kk].y_coords.3 <= 32
                },
            decreases faces@.len() - k,
        {
            let f = faces[k];
            proof {
                assert(out.packed@.len() + 4 <= u32::MAX) by (nonlinear_arith)
                    requires
                        out.packed@.len() == len_start + 4 * k,
                        len_start <= l0 + 24 * t,
                        l0 <= 1000000000,
                        t < 32768,
                        k < 6,
                ;
            }
            push_fluid_quad(out, base_gp, world, x, y, z, f.face_id, f.y_coords, f.offsets, f.flip_diagonal, f.flow);
            proof {
                assert(faces@.take(k + 1).drop_last() =~= faces@.take(k as int));
            }
            k = k + 1;
        }
        proof {
            assert(faces@.take(faces@.len() as int) =~= faces@);
            assert(out.packed@.len() <= l0 + 24 * (t + 1)) by (nonlinear_arith)
                requires
                    out.packed@.len() == len_start + 4 * faces@.len(),
                    len_start <= l0 + 24 * t,
                    faces@.len() <= 6,
            ;
        }
        t = t + 1;
    }
}

/// Adds the solid faces of the chunk at `chunk_pos` to `out`, or its fluid faces on the fluid
/// pass.
pub fn generate_greedy_mesh(
    chunk_pos: IVec3,
    world: &ChunkMeshInputData,
    fluid_pass: bool,
    out: &mut MeshData,
    is_smooth_lighting: bool,
)
    requires
        world.wf(),
        mesh_chunk_ok(chunk_pos),
        old(out).packed@.len() <= 1000000000,
    ensures
        fluid_pass ==> fluid_mesh_of(*world, chunk_pos, old(out)@, final(out)@),
        !fluid_pass ==> solid_mesh_of(*world, chunk_pos, is_smooth_lighting, old(out)@, final(out)@),
{
    if fluid_pass {
        generate_fluid_mesh(chunk_pos, world, out);
        return;
    }
    generate_solid_mesh(chunk_pos, world, out, is_smooth_lighting);
}

} // verus!
