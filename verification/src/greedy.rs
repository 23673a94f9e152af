use vstd::prelude::*;
use crate::voxel::BlockType;

verus! {

/// Sky light at the four corners of a face, in the order of the quad corners: origin, width
/// step, both steps, height step.
#[derive(Clone, Copy, PartialEq, Eq, Debug, Structural)]
pub struct SkyCorners(pub u8, pub u8, pub u8, pub u8);

/// What a visible face of one voxel looks like: its block, which way it faces along the slicing
/// axis (+1 or -1), its texture layer, the sky light at its four corners (in the order of the
/// quad corners: origin, width step, both steps, height step) and how far its top is lowered.
#[derive(Clone, Copy, PartialEq, Eq, Debug, Structural)]
pub struct FaceInfo {
    pub block: BlockType,
    pub normal: i32,
    pub tex_layer: u32,
    pub sky_lights: SkyCorners,
    pub y_offset_down: u8,
}

/// A merged rectangle of mask cells: cell columns `i .. i + w`, rows `j .. j + h`, and the face
/// it is drawn with.
#[derive(Clone, Copy, PartialEq, Eq, Debug, Structural)]
pub struct GreedyQuad {
    pub i: usize,
    pub j: usize,
    pub w: usize,
    pub h: usize,
    pub face: FaceInfo,
}

/// Index of the cell where the quad starts.
pub open spec fn quad_start(q: GreedyQuad) -> int {
    q.j * 32 + q.i
}

/// Whether a quad covers mask cell `c` (row `c / 32`, column `c % 32`).
pub open spec fn covers(q: GreedyQuad, c: int) -> bool {
    &&& q.j <= c / 32 < q.j + q.h
    &&& q.i <= c % 32 < q.i + q.w
}

/// Whether one of the quads covers cell `c`.
pub open spec fn covered_by(qs: Seq<GreedyQuad>, c: int) -> bool {
    exists|k: int| 0 <= k < qs.len() && covers(#[trigger] qs[k], c)
}

/// The mask with the cells of the given quads taken out.
pub open spec fn mask_after(m: Seq<Option<FaceInfo>>, qs: Seq<GreedyQuad>) -> Seq<Option<FaceInfo>> {
    Seq::new(m.len(), |c: int| if covered_by(qs, c) { None } else { m[c] })
}

/// Same block, direction and texture layer.
pub open spec fn basic_same(a: FaceInfo, b: FaceInfo) -> bool {
    a.block == b.block && a.normal == b.normal && a.tex_layer == b.tex_layer
}

/// Whether the cell `n + w` can join the row of a quad starting at `n` with face `face` that is
/// `w` cells wide so far: it must look the same; with smooth lighting its corner light must
/// continue its left neighbour's and change across it as across `face`.
pub open spec fn h_ok(cur: Seq<Option<FaceInfo>>, n: int, w: int, face: FaceInfo, smooth: bool) -> bool {
    match cur[n + w] {
        None => false,
        Some(next) => if smooth {
            let prev = cur[n + w - 1]->Some_0;
            &&& basic_same(next, face)
            &&& next.sky_lights.0 == prev.sky_lights.1
            &&& next.sky_lights.3 == prev.sky_lights.2
            &&& next.sky_lights.1 - next.sky_lights.0 == face.sky_lights.1 - face.sky_lights.0
            &&& next.sky_lights.2 - next.sky_lights.3 == face.sky_lights.2 - face.sky_lights.3
        } else {
            next == face
        },
    }
}

/// Whether cell `k` of row `h` below the start `n` can join a quad with face `face`: it must look
/// the same as the cell above it in the first row; with smooth lighting its corner light must
/// continue the cells above and to its left and change as the quad's first cells do.
pub open spec fn v_ok(
    cur: Seq<Option<FaceInfo>>,
    n: int,
    h: int,
    k: int,
    face: FaceInfo,
    smooth: bool,
) -> bool {
    match cur[n + h * 32 + k] {
        None => false,
        Some(curr) => if smooth {
            let above = cur[n + (h - 1) * 32 + k]->Some_0;
            let left = cur[n + h * 32 + k - 1]->Some_0;
            let base0 = cur[n + k]->Some_0;
            &&& basic_same(curr, face)
            &&& curr.sky_lights.0 == above.sky_lights.3
            &&& curr.sky_lights.1 == above.sky_lights.2
            &&& k > 0 ==> curr.sky_lights.0 == left.sky_lights.1 && curr.sky_lights.3
                == left.sky_lights.2
            &&& curr.sky_lights.1 - curr.sky_lights.0 == face.sky_lights.1 - face.sky_lights.0
            &&& curr.sky_lights.2 - curr.sky_lights.3 == face.sky_lights.2 - face.sky_lights.3
            &&& curr.sky_lights.3 - curr.sky_lights.0 == base0.sky_lights.3 - base0.sky_lights.0
            &&& curr.sky_lights.2 - curr.sky_lights.1 == base0.sky_lights.2 - base0.sky_lights.1
        } else {
            cur[n + k] == Some(curr)
        },
    }
}

/// Whether the whole of row `h` (first `w` cells) can join the quad.
pub open spec fn row_ok(
    cur: Seq<Option<FaceInfo>>,
    n: int,
    w: int,
    h: int,
    face: FaceInfo,
    smooth: bool,
) -> bool {
    forall|k: int| 0 <= k < w ==> #[trigger] v_ok(cur, n, h, k, face, smooth)
}

/// The face a quad is drawn with: the first cell's face, with smooth lighting taking each corner's
/// light from the cell at that corner.
pub open spec fn merged_face(
    cur: Seq<Option<FaceInfo>>,
    n: int,
    w: int,
    h: int,
    smooth: bool,
) -> FaceInfo {
    let face = cur[n]->Some_0;
    if smooth {
        FaceInfo {
            sky_lights: SkyCorners(
                face.sky_lights.0,
                cur[n + w - 1]->Some_0.sky_lights.1,
                cur[n + (h - 1) * 32 + w - 1]->Some_0.sky_lights.2,
                cur[n + (h - 1) * 32]->Some_0.sky_lights.3,
            ),
            ..face
        }
    } else {
        face
    }
}

/// Quad `k` is what greedy merging builds from the cells the earlier quads left: it starts at the
/// first cell left, grows along its row while cells can join, then grows down while whole rows
/// can join, and is drawn with the merged face.
pub open spec fn quad_ok(m: Seq<Option<FaceInfo>>, qs: Seq<GreedyQuad>, k: int, smooth: bool) -> bool {
    let q = qs[k];
    let cur = mask_after(m, qs.take(k));
    let n = quad_start(q);
    let face = cur[n]->Some_0;
    &&& 1 <= q.w && q.i + q.w <= 32
    &&& 1 <= q.h && q.j + q.h <= 32
    &&& q.i < 32 && q.j < 32
    &&& cur[n] is Some
    &&& forall|c: int| 0 <= c < n ==> #[trigger] cur[c] is None
    &&& forall|t: int| 1 <= t < q.w ==> #[trigger] h_ok(cur, n, t, face, smooth)
    &&& q.i + q.w == 32 || !h_ok(cur, n, q.w as int, face, smooth)
    &&& forall|t: int| 1 <= t < q.h ==> #[trigger] row_ok(cur, n, q.w as int, t, face, smooth)
    &&& q.j + q.h == 32 || !row_ok(cur, n, q.w as int, q.h as int, face, smooth)
    &&& q.face == merged_face(cur, n, q.w as int, q.h as int, smooth)
}

/// `qs` is the result of greedy merging of the 32x32 mask `m`: each quad is built greedily from
/// what the earlier ones left, and together they cover exactly the cells that hold a face.
pub open spec fn greedy_ok(m: Seq<Option<FaceInfo>>, qs: Seq<GreedyQuad>, smooth: bool) -> bool {
    &&& m.len() == 1024
    &&& forall|k: int| 0 <= k < qs.len() ==> quad_ok(m, qs, k, smooth)
    &&& forall|c: int| 0 <= c < 1024 ==> ((m[c] is Some) <==> covered_by(qs, c))
}


/// Row and column of the cell at row `r`, column `c`.
proof fn lemma_cell(r: int, c: int)
    requires
        0 <= c < 32,
        0 <= r,
    ensures
        (r * 32 + c) / 32 == r,
        (r * 32 + c) % 32 == c,
{
    assert((r * 32 + c) / 32 == r && (r * 32 + c) % 32 == c) by (nonlinear_arith)
        requires
            0 <= c < 32,
            0 <= r,
    ;
}

/// Whether the cell `n + w` can join the row of the quad being built.
fn h_ok_exec(cur: &Vec<Option<FaceInfo>>, n: usize, w: usize, face: FaceInfo, smooth: bool) -> (r:
    bool)
    requires
        cur@.len() == 1024,
        1 <= w,
        n + w < 1024,
        cur@[n + w - 1] is Some,
    ensures
        r == h_ok(cur@, n as int, w as int, face, smooth),
{
    match cur[n + w] {
        None => false,
        Some(next) => {
            if smooth {
                let prev = match cur[n + w - 1] {
                    Some(p) => p,
                    None => face,
                };
                let basic = next.block == face.block && next.normal == face.normal
                    && next.tex_layer == face.tex_layer;
                let conn = next.sky_lights.0 == prev.sky_lights.1 && next.sky_lights.3
                    == prev.sky_lights.2;
                let grad = next.sky_lights.1 as i32 - next.sky_lights.0 as i32 == face.sky_lights.1 as i32
                    - face.sky_lights.0 as i32 && next.sky_lights.2 as i32 - next.sky_lights.3 as i32
                    == face.sky_lights.2 as i32 - face.sky_lights.3 as i32;
                basic && conn && grad
            } else {
                next == face
            }
        },
    }
}

/// Whether cell `k` of row `h` can join the quad being built.
fn v_ok_exec(
    cur: &Vec<Option<FaceInfo>>,
    n: usize,
    h: usize,
    k: usize,
    face: FaceInfo,
    smooth: bool,
) -> (r: bool)
    requires
        cur@.len() == 1024,
        1 <= h,
        n + h * 32 + k < 1024,
        cur@[n + (h - 1) * 32 + k] is Some,
        k > 0 ==> cur@[n + h * 32 + k - 1] is Some,
        cur@[n + k as int] is Some,
    ensures
        r == v_ok(cur@, n as int, h as int, k as int, face, smooth),
{
    match cur[n + h * 32 + k] {
        None => false,
        Some(curr) => {
            if smooth {
                let above = match cur[n + (h - 1) * 32 + k] {
                    Some(a) => a,
                    None => face,
                };
                let base0 = match cur[n + k] {
                    Some(b) => b,
                    None => face,
                };
                let basic = curr.block == face.block && curr.normal == face.normal
                    && curr.tex_layer == face.tex_layer;
                let v_conn = curr.sky_lights.0 == above.sky_lights.3 && curr.sky_lights.1
                    == above.sky_lights.2;
                let mut h_conn = true;
                if k > 0 {
                    let left = match cur[n + h * 32 + k - 1] {
                        Some(l) => l,
                        None => face,
                    };
                    h_conn = curr.sky_lights.0 == left.sky_lights.1 && curr.sky_lights.3
                        == left.sky_lights.2;
                }
                let u_grad = curr.sky_lights.1 as i32 - curr.sky_lights.0 as i32 == face.sky_lights.1 as i32
                    - face.sky_lights.0 as i32 && curr.sky_lights.2 as i32 - curr.sky_lights.3 as i32
                    == face.sky_lights.2 as i32 - face.sky_lights.3 as i32;
                let v_grad = curr.sky_lights.3 as i32 - curr.sky_lights.0 as i32 == base0.sky_lights.3 as i32
                    - base0.sky_lights.0 as i32 && curr.sky_lights.2 as i32 - curr.sky_lights.1 as i32
                    == base0.sky_lights.2 as i32 - base0.sky_lights.1 as i32;
                basic && v_conn && h_conn && u_grad && v_grad
            } else {
                match cur[n + k] {
                    Some(f) => f == curr,
                    None => false,
                }
            }
        },
    }
}

/// Greedy merging of a 32x32 mask of faces into rectangles: scanning cells row by row, each
/// cell that still holds a face starts a quad that grows along its row while cells can join,
/// then down while whole rows can join; its cells are then taken out.
#[verifier::rlimit(100)]
pub fn greedy_quads(mask: &Vec<Option<FaceInfo>>, smooth: bool) -> (qs: Vec<GreedyQuad>)
    requires
        mask@.len() == 1024,
    ensures
        greedy_ok(mask@, qs@, smooth),
        qs@.len() <= 1024,
{
    let ghost m = mask@;
    let mut cur: Vec<Option<FaceInfo>> = mask.clone();
    let mut quads: Vec<GreedyQuad> = Vec::new();
    proof {
        assert(cur@ =~= m);
        assert(mask_after(m, quads@) =~= m);
    }
    let mut n: usize = 0;
    while n < 1024
        invariant
            m.len() == 1024,
            cur@.len() == 1024,
            n <= 1024,
            cur@ == mask_after(m, quads@),
            forall|c: int| 0 <= c < n ==> #[trigger] cur@[c] is None,
            forall|k: int| 0 <= k < quads@.len() ==> quad_ok(m, quads@, k, smooth),
            quads@.len() <= n,
        decreases 1024 - n,
    {
        let i = n % 32;
        let j = n / 32;
        proof {
            lemma_cell(j as int, i as int);
        }
        match cur[n] {
            None => {
                n = n + 1;
            },
            Some(face) => {
                let ghost cur0 = cur@;
                // Grow along the row.
                let mut w: usize = 1;
                let mut growing = true;
                while growing && i + w < 32
                    invariant
                        cur@ == cur0,
                        cur0.len() == 1024,
                        n == j * 32 + i,
                        i < 32,
                        j < 32,
                        cur0[n as int] == Some(face),
                        1 <= w <= 32 - i,
                        forall|t: int| 1 <= t < w ==> #[trigger] h_ok(cur0, n as int, t, face, smooth),
                        !growing ==> !h_ok(cur0, n as int, w as int, face, smooth),
                    decreases 32 - w - (if growing { 0int } else { 1int }),
                {
                    proof {
                        if w > 1 {
                            assert(h_ok(cur0, n as int, w - 1, face, smooth));
                        }
                    }
                    if h_ok_exec(&cur, n, w, face, smooth) {
                        w = w + 1;
                    } else {
                        growing = false;
                    }
                }
                proof {
                    assert forall|t: int| 0 <= t < w implies #[trigger] cur0[n + t] is Some by {
                        if t > 0 {
                            assert(h_ok(cur0, n as int, t, face, smooth));
                        }
                    }
                }
                // Grow down.
                let mut h: usize = 1;
                let mut growing_down = true;
                while growing_down && j + h < 32
                    invariant
                        cur@ == cur0,
                        cur0.len() == 1024,
                        n == j * 32 + i,
                        i < 32,
                        j < 32,
                        1 <= w <= 32 - i,
                        cur0[n as int] == Some(face),
                        forall|t: int| 0 <= t < w ==> #[trigger] cur0[n + t] is Some,
                        1 <= h <= 32 - j,
                        forall|t: int| 1 <= t < h ==> #[trigger] row_ok(cur0, n as int, w as int, t, face, smooth),
                        !growing_down ==> !row_ok(cur0, n as int, w as int, h as int, face, smooth),
                    decreases 32 - h - (if growing_down { 0int } else { 1int }),
                {
                    let mut k: usize = 0;
                    let mut row_good = true;
                    while row_good && k < w
                        invariant
                            cur@ == cur0,
                            cur0.len() == 1024,
                            n == j * 32 + i,
                            i < 32,
                            j < 32,
                            j + h < 32,
                            1 <= w <= 32 - i,
                            1 <= h,
                            0 <= k <= w,
                            forall|t: int| 0 <= t < w ==> #[trigger] cur0[n + t] is Some,
                            forall|t: int| 1 <= t < h ==> #[trigger] row_ok(cur0, n as int, w as int, t, face, smooth),
                            forall|kk: int| 0 <= kk < k ==> #[trigger] v_ok(cur0, n as int, h as int, kk, face, smooth),
                            !row_good ==> !v_ok(cur0, n as int, h as int, k as int, face, smooth),
                            !row_good ==> k < w,
                        decreases w - k + (if row_good { 1int } else { 0int }),
                    {
                        proof {
                            if h > 1 {
                                assert(row_ok(cur0, n as int, w as int, h - 1, face, smooth));
                                assert(v_ok(cur0, n as int, h - 1, k as int, face, smooth));
                            } else {
                                assert(cur0[n + k as int] is Some);
                            }
                            if k > 0 {
                                assert(v_ok(cur0, n as int, h as int, k - 1, face, smooth));
                            }
                            assert(cur0[n + k as int] is Some);
                            assert(n + h * 32 + k < 1024) by (nonlinear_arith)
                                requires
                                    n == j * 32 + i,
                                    j + h < 32,
                                    k < w,
                                    i + w <= 32,
                            ;
                        }
                        if v_ok_exec(&cur, n, h, k, face, smooth) {
                            k = k + 1;
                        } else {
                            row_good = false;
                        }
                    }
                    if row_good {
                        h = h + 1;
                    } else {
                        proof {
                            assert(!v_ok(cur0, n as int, h as int, k as int, face, smooth));
                            assert(!row_ok(cur0, n as int, w as int, h as int, face, smooth));
                        }
                        growing_down = false;
                    }
                }
                proof {
                    assert forall|t: int, kk: int| 0 <= t < h && 0 <= kk < w implies #[trigger] cur0[n + t * 32 + kk] is Some by {
                        if t == 0 {
                            assert(cur0[n + kk] is Some);
                        } else {
                            assert(row_ok(cur0, n as int, w as int, t, face, smooth));
                            assert(v_ok(cur0, n as int, t, kk, face, smooth));
                        }
                    }
                    assert(n + (h - 1) * 32 + w - 1 < 1024) by (nonlinear_arith)
                        requires
                            n == j * 32 + i,
                            j + h <= 32,
                            i + w <= 32,
                            1 <= h,
                            1 <= w,
                    ;
                    assert(cur0[n + (h - 1) * 32 + (w - 1)] is Some);
                    assert(cur0[n + (h - 1) * 32 + 0] is Some);
                    assert(cur0[n + 0 * 32 + (w - 1)] is Some);
                }
                let merged = if smooth {
                    let c1 = match cur[n + w - 1] {
                        Some(f) => f.sky_lights.1,
                        None => 0,
                    };
                    let c2 = match cur[n + (h - 1) * 32 + w - 1] {
                        Some(f) => f.sky_lights.2,
                        None => 0,
                    };
                    let c3 = match cur[n + (h - 1) * 32] {
                        Some(f) => f.sky_lights.3,
                        None => 0,
                    };
                    FaceInfo { sky_lights: SkyCorners(face.sky_lights.0, c1, c2, c3), ..face }
                } else {
                    face
                };
                let q = GreedyQuad { i, j, w, h, face: merged };
                proof {
                    assert(quad_start(q) == n);
                }
                // Take the quad's cells out.
                let mut l: usize = 0;
                while l < h
                    invariant
                        cur@.len() == 1024,
                        cur0.len() == 1024,
                        n == j * 32 + i,
                        i < 32,
                        j < 32,
                        1 <= w <= 32 - i,
                        1 <= h <= 32 - j,
                        0 <= l <= h,
                        q == (GreedyQuad { i, j, w, h, face: merged }),
                        forall|c: int|
                            0 <= c < 1024 ==> #[trigger] cur@[c] == if covers(q, c) && c / 32 < j + l {
                                None
                            } else {
                                cur0[c]
                            },
                    decreases h - l,
                {
                    let mut k: usize = 0;
                    while k < w
                        invariant
                            cur@.len() == 1024,
                            cur0.len() == 1024,
                            n == j * 32 + i,
                            i < 32,
                            j < 32,
                            1 <= w <= 32 - i,
                            1 <= h <= 32 - j,
                            0 <= l < h,
                            0 <= k <= w,
                            q == (GreedyQuad { i, j, w, h, face: merged }),
                            forall|c: int|
                                0 <= c < 1024 ==> #[trigger] cur@[c] == if covers(q, c) && (c / 32 < j + l
                                    || (c / 32 == j + l && c % 32 < i + k)) {
                                    None
                                } else {
                                    cur0[c]
                                },
                        decreases w - k,
                    {
                        let idx = n + l * 32 + k;
                        proof {
                            lemma_cell(j + l, i + k);
                            assert(idx == (j + l) * 32 + (i + k));
                        }
                        cur.set(idx, None);
                        k = k + 1;
                    }
                    l = l + 1;
                    proof {
                        assert forall|c: int| 0 <= c < 1024 implies #[trigger] cur@[c] == if covers(q, c)
                            && c / 32 < j + l {
                            None
                        } else {
                            cur0[c]
                        } by {}
                    }
                }
                let ghost qs0 = quads@;
                quads.push(q);
                proof {
                    let qs1 = quads@;
                    assert(qs1.take(qs0.len() as int) =~= qs0);
                    assert forall|c: int| covered_by(qs1, c) <==> (covered_by(qs0, c) || covers(q, c)) by {
                        if covered_by(qs1, c) {
                            let t = choose|t: int| 0 <= t < qs1.len() && covers(#[trigger] qs1[t], c);
                            if t < qs0.len() {
                                assert(qs0[t] == qs1[t]);
                            }
                        }
                        if covered_by(qs0, c) {
                            let t = choose|t: int| 0 <= t < qs0.len() && covers(#[trigger] qs0[t], c);
                            assert(qs1[t] == qs0[t]);
                        }
                        if covers(q, c) {
                            assert(qs1[qs0.len() as int] == q);
                        }
                    }
                    assert(cur@ =~= mask_after(m, qs1));
                    assert forall|k: int| 0 <= k < qs1.len() implies quad_ok(m, qs1, k, smooth) by {
                        if k < qs0.len() {
                            assert(qs1.take(k) =~= qs0.take(k));
                            assert(qs1[k] == qs0[k]);
                            assert(quad_ok(m, qs0, k, smooth));
                        } else {
                            assert(qs1.take(k) =~= qs0);
                            assert(mask_after(m, qs1.take(k)) == cur0);
                        }
                    }
                    assert forall|c: int| 0 <= c < n + w implies #[trigger] cur@[c] is None by {
                        if c >= n {
                            lemma_cell(j as int, i + (c - n));
                            assert(covers(q, c));
                        }
                    }
                }
                n = n + w;
            },
        }
    }
    proof {
        assert forall|c: int| 0 <= c < 1024 implies ((m[c] is Some) <==> covered_by(quads@, c)) by {
            assert(cur@[c] is None);
            if covered_by(quads@, c) {
                let t = choose|t: int| 0 <= t < quads@.len() && covers(#[trigger] quads@[t], c);
                assert(quad_ok(m, quads@, t, smooth));
                let qt = quads@[t];
                let cur_t = mask_after(m, quads@.take(t));
                let nt = quad_start(qt);
                let r = c / 32 - qt.j;
                let cc = c % 32 - qt.i;
                assert(c == nt + r * 32 + cc) by (nonlinear_arith)
                    requires
                        nt == qt.j * 32 + qt.i,
                        r == c / 32 - qt.j,
                        cc == c % 32 - qt.i,
                        0 <= c,
                ;
                if r == 0 {
                    if cc > 0 {
                        assert(h_ok(cur_t, nt, cc, cur_t[nt]->Some_0, smooth));
                    }
                    assert(cur_t[nt + cc] is Some);
                } else {
                    assert(row_ok(cur_t, nt, qt.w as int, r, cur_t[nt]->Some_0, smooth));
                    assert(v_ok(cur_t, nt, r, cc, cur_t[nt]->Some_0, smooth));
                }
                assert(cur_t[c] is Some);
            }
        }
    }
    quads
}


/// Every cell that quad `k` covers was still a face when the quad was built.
proof fn lemma_quad_cells_present(m: Seq<Option<FaceInfo>>, qs: Seq<GreedyQuad>, k: int, smooth: bool, c: int)
    requires
        0 <= k < qs.len(),
        quad_ok(m, qs, k, smooth),
        0 <= c,
        covers(qs[k], c),
    ensures
        mask_after(m, qs.take(k))[c] is Some,
{
    let q = qs[k];
    let cur = mask_after(m, qs.take(k));
    let n = quad_start(q);
    let r = c / 32 - q.j;
    let t = c % 32 - q.i;
    assert(c == n + r * 32 + t) by {
        assert(c == (c / 32) * 32 + c % 32);
    }
    if r == 0 {
        if t >= 1 {
            assert(h_ok(cur, n, t, cur[n]->Some_0, smooth));
        }
    } else {
        assert(row_ok(cur, n, q.w as int, r, cur[n]->Some_0, smooth));
        assert(v_ok(cur, n, r, t, cur[n]->Some_0, smooth));
    }
}

/// Greedy meshing never draws a face twice: no two quads of a slice share a cell.
pub proof fn law_greedy_quads_disjoint(m: Seq<Option<FaceInfo>>, qs: Seq<GreedyQuad>, smooth: bool)
    requires
        greedy_ok(m, qs, smooth),
    ensures
        forall|j: int, k: int, c: int|
            0 <= j < k < qs.len() && 0 <= c < 1024 && #[trigger] covers(qs[j], c) ==> !#[trigger] covers(
                qs[k],
                c,
            ),
{
    assert forall|j: int, k: int, c: int|
        0 <= j < k < qs.len() && 0 <= c < 1024 && #[trigger] covers(qs[j], c) implies !#[trigger] covers(
            qs[k],
            c,
        ) by {
        if covers(qs[k], c) {
            assert(quad_ok(m, qs, k, smooth));
            lemma_quad_cells_present(m, qs, k, smooth, c);
            assert(qs.take(k)[j] == qs[j]);
            assert(covered_by(qs.take(k), c));
        }
    }
}

/// Greedy merging only merges faces that look alike: every cell a quad covers holds a face
/// with the quad's block, direction and texture layer, with smooth lighting or without.
pub proof fn law_greedy_quads_same_look(m: Seq<Option<FaceInfo>>, qs: Seq<GreedyQuad>, smooth: bool)
    requires
        greedy_ok(m, qs, smooth),
    ensures
        forall|k: int, c: int|
            0 <= k < qs.len() && 0 <= c < 1024 && #[trigger] covers(qs[k], c) ==> {
                &&& m[c] is Some
                &&& m[c]->Some_0.block == qs[k].face.block
                &&& m[c]->Some_0.normal == qs[k].face.normal
                &&& m[c]->Some_0.tex_layer == qs[k].face.tex_layer
            },
{
    assert forall|k: int, c: int| 0 <= k < qs.len() && 0 <= c < 1024 && #[trigger] covers(qs[k], c) implies {
        &&& m[c] is Some
        &&& m[c]->Some_0.block == qs[k].face.block
        &&& m[c]->Some_0.normal == qs[k].face.normal
        &&& m[c]->Some_0.tex_layer == qs[k].face.tex_layer
    } by {
        let q = qs[k];
        let cur = mask_after(m, qs.take(k));
        let n = quad_start(q);
        assert(quad_ok(m, qs, k, smooth));
        lemma_quad_cells_present(m, qs, k, smooth, c);
        assert(cur[c] == m[c]);
        let r = c / 32 - q.j;
        let t = c % 32 - q.i;
        assert(c == n + r * 32 + t) by {
            assert(c == (c / 32) * 32 + c % 32);
        }
        let face = cur[n]->Some_0;
        if r == 0 {
            if t >= 1 {
                assert(h_ok(cur, n, t, face, smooth));
            }
        } else {
            assert(row_ok(cur, n, q.w as int, r, face, smooth));
            assert(v_ok(cur, n, r, t, face, smooth));
            if !smooth && t >= 1 {
                assert(h_ok(cur, n, t, face, smooth));
            }
        }
    }
}

} // verus!
