use vstd::prelude::*;
use crate::voxel::BlockType;
use crate::math::IVec3;
use crate::chunk::{ChunkBuffer, ChunkLightBuffer, ChunkData, count_non_air};
use crate::lighting::{initial_sky, init_sunlight, propagate_sky_light, sky_stable, sky_levels, sky_supported};
use crate::chunk::sky_of;
use vstd::std_specs::iter::IteratorSpec;
use crate::world::{WorldManager, WorldType, ChunkEntry, chunk_key, chunk_key_of, chunk_pos_of_key};

verus! {

broadcast use vstd::std_specs::hash::group_hash_axioms;

/// Chunk positions near which streaming arithmetic stays 32-bit.
pub open spec fn stream_pos_ok(p: IVec3) -> bool {
    &&& -60000000 <= p.x <= 60000000
    &&& -60000000 <= p.z <= 60000000
    &&& -60000000 <= p.y <= 60000000
}

/// Whether the world tracks a chunk position at all: loaded, being generated, or known empty.
pub open spec fn known_chunk(w: WorldManager, p: IVec3) -> bool {
    ||| w.chunks@.contains_key(chunk_key(p))
    ||| w.loading_chunks@.contains(chunk_key(p))
    ||| w.vacuum_chunks@.contains(chunk_key(p))
}

/// The `k`-th chunk position of the column box around `center` that streaming scans: `dx` from
/// `-r` to `r`, then layer from 0 to 7, then `dz` from `-r` to `r`.
pub open spec fn scan_pos(center: IVec3, r: int, k: int) -> IVec3 {
    let side = 2 * r + 1;
    let dx = k / (8 * side) - r;
    let cy = (k / side) % 8;
    let dz = k % side - r;
    IVec3 { x: (center.x + dx) as i32, y: cy as i32, z: (center.z + dz) as i32 }
}

/// Chunk positions of the column box around `center` that the world does not track yet, in
/// scan order.
pub open spec fn load_candidates(w: WorldManager, center: IVec3, r: int) -> Seq<IVec3> {
    Seq::new((8 * (2 * r + 1) * (2 * r + 1)) as nat, |k: int| scan_pos(center, r, k)).filter(
        |p: IVec3| !known_chunk(w, p),
    )
}

/// Loading priority of a chunk position (smaller first): horizontal distance squared to
/// `center`, then vertical distance.
pub open spec fn load_key(center: IVec3, p: IVec3) -> (int, int) {
    let dx = p.x - center.x;
    let dz = p.z - center.z;
    let dy = p.y - center.y;
    (dx * dx + dz * dz, if dy < 0 { -dy } else { dy })
}

/// Whether candidate `a` (at index `ia`) comes before candidate `b` (at index `ib`) when sorted
/// by priority, earlier candidates first among equals.
pub open spec fn before(center: IVec3, a: IVec3, ia: int, b: IVec3, ib: int) -> bool {
    let ka = load_key(center, a);
    let kb = load_key(center, b);
    ||| ka.0 < kb.0
    ||| (ka.0 == kb.0 && ka.1 < kb.1)
    ||| (ka.0 == kb.0 && ka.1 == kb.1 && ia < ib)
}

/// `r` holds the first `n` candidates of `cands` (or all of them when fewer) in priority order,
/// ties kept in scan order.
pub open spec fn first_by_priority(
    center: IVec3,
    cands: Seq<IVec3>,
    n: int,
    r: Seq<IVec3>,
) -> bool {
    exists|sel: Seq<int>|
        {
            &&& sel.len() == r.len()
            &&& r.len() == if cands.len() < n { cands.len() as int } else { n }
            &&& forall|k: int| 0 <= k < sel.len() ==> 0 <= #[trigger] sel[k] < cands.len()
            &&& forall|k: int| 0 <= k < sel.len() ==> r[k] == cands[#[trigger] sel[k]]
            &&& forall|a: int, b: int|
                0 <= a < b < sel.len() ==> before(center, cands[sel[a]], sel[a], cands[sel[b]], sel[b])
            &&& forall|j: int|
                0 <= j < cands.len() && !sel.contains(j) ==> forall|k: int|
                    0 <= k < sel.len() ==> before(center, cands[#[trigger] sel[k]], sel[k], cands[j], j)
        }
}


/// Chunks load nearest first: of two candidates, the one whose column is closer to the player's
/// (by squared horizontal distance), or whose column is as close and whose layer is closer (by
/// absolute vertical distance), is picked no later; a candidate left out is never nearer than
/// one picked.
pub proof fn law_nearest_chunks_first(center: IVec3, cands: Seq<IVec3>, n: int, r: Seq<IVec3>)
    requires
        first_by_priority(center, cands, n, r),
    ensures
        forall|j: int, kb: int|
            0 <= j < cands.len() && 0 <= kb < r.len() && #[trigger] nearer(center, cands[j], #[trigger] r[kb])
                ==> exists|ka: int| 0 <= ka < kb && r[ka] == cands[j],
{
    let sel = choose|sel: Seq<int>|
        {
            &&& sel.len() == r.len()
            &&& r.len() == if cands.len() < n { cands.len() as int } else { n }
            &&& forall|k: int| 0 <= k < sel.len() ==> 0 <= #[trigger] sel[k] < cands.len()
            &&& forall|k: int| 0 <= k < sel.len() ==> r[k] == cands[#[trigger] sel[k]]
            &&& forall|a: int, b: int|
                0 <= a < b < sel.len() ==> before(center, cands[sel[a]], sel[a], cands[sel[b]], sel[b])
            &&& forall|j: int|
                0 <= j < cands.len() && !sel.contains(j) ==> forall|k: int|
                    0 <= k < sel.len() ==> before(center, cands[#[trigger] sel[k]], sel[k], cands[j], j)
        };
    assert forall|j: int, kb: int|
        0 <= j < cands.len() && 0 <= kb < r.len() && #[trigger] nearer(center, cands[j], #[trigger] r[kb])
            implies exists|ka: int| 0 <= ka < kb && r[ka] == cands[j] by {
        assert(r[kb] == cands[sel[kb]]);
        if !sel.contains(j) {
            assert(before(center, cands[sel[kb]], sel[kb], cands[j], j));
            assert(false);
        }
        let ka = choose|ka: int| 0 <= ka < sel.len() && sel[ka] == j;
        assert(r[ka] == cands[j]);
        if ka > kb {
            assert(before(center, cands[sel[kb]], sel[kb], cands[sel[ka]], sel[ka]));
            assert(false);
        }
        if ka == kb {
            assert(false);
        }
    }
}

/// `a` is nearer the player's chunk `center` than `b`: its column is closer by squared
/// horizontal distance, or as close with its layer closer by absolute vertical distance.
pub open spec fn nearer(center: IVec3, a: IVec3, b: IVec3) -> bool {
    let ha = (a.x - center.x) * (a.x - center.x) + (a.z - center.z) * (a.z - center.z);
    let hb = (b.x - center.x) * (b.x - center.x) + (b.z - center.z) * (b.z - center.z);
    let va = if a.y >= center.y { a.y - center.y } else { center.y - a.y };
    let vb = if b.y >= center.y { b.y - center.y } else { center.y - b.y };
    ha < hb || (ha == hb && va < vb)
}

/// Priority of a chunk position, as computed.
fn load_key_exec(center: IVec3, p: IVec3) -> (r: (i128, i128))
    ensures
        r.0 == load_key(center, p).0,
        r.1 == load_key(center, p).1,
{
    let dx = p.x as i128 - center.x as i128;
    let dz = p.z as i128 - center.z as i128;
    let dy = p.y as i128 - center.y as i128;
    proof {
        assert(0 <= dx * dx <= 0x1_0000_0000_0000_0000) by (nonlinear_arith)
            requires
                -0x1_0000_0000 <= dx <= 0x1_0000_0000,
        ;
        assert(0 <= dz * dz <= 0x1_0000_0000_0000_0000) by (nonlinear_arith)
            requires
                -0x1_0000_0000 <= dz <= 0x1_0000_0000,
        ;
    }
    (dx * dx + dz * dz, if dy < 0 { -dy } else { dy })
}

/// Whether candidate `a` at index `ia` comes before candidate `b` at index `ib`.
fn before_exec(center: IVec3, a: IVec3, ia: usize, b: IVec3, ib: usize) -> (r: bool)
    ensures
        r == before(center, a, ia as int, b, ib as int),
{
    let ka = load_key_exec(center, a);
    let kb = load_key_exec(center, b);
    ka.0 < kb.0 || (ka.0 == kb.0 && ka.1 < kb.1) || (ka.0 == kb.0 && ka.1 == kb.1 && ia < ib)
}

/// The first `n` candidates by loading priority (all of them when fewer), in that order, ties
/// kept in the candidates' order.
pub fn select_nearest(center: IVec3, cands: &Vec<IVec3>, n: usize) -> (r: Vec<IVec3>)
    ensures
        first_by_priority(center, cands@, n as int, r@),
{
    let len = cands.len();
    let target = if len < n { len } else { n };
    let mut chosen: Vec<bool> = Vec::new();
    let mut t: usize = 0;
    while t < len
        invariant
            t <= len,
            len == cands@.len(),
            chosen@.len() == t,
            forall|j: int| 0 <= j < t ==> !chosen@[j],
        decreases len - t,
    {
        chosen.push(false);
        t = t + 1;
    }
    let mut r: Vec<IVec3> = Vec::new();
    let ghost mut sel: Seq<int> = Seq::empty();
    while r.len() < target
        invariant
            len == cands@.len(),
            target == if len < n { len } else { n },
            chosen@.len() == len,
            r@.len() <= target,
            sel.len() == r@.len(),
            forall|j: int| 0 <= j < len ==> (chosen@[j] <==> sel.contains(j)),
            forall|k: int| 0 <= k < sel.len() ==> 0 <= #[trigger] sel[k] < len,
            forall|k: int| 0 <= k < sel.len() ==> r@[k] == cands@[#[trigger] sel[k]],
            forall|a: int, b: int|
                0 <= a < b < sel.len() ==> before(center, cands@[sel[a]], sel[a], cands@[sel[b]], sel[b]),
            forall|j: int|
                0 <= j < len && !sel.contains(j) ==> forall|k: int|
                    0 <= k < sel.len() ==> before(center, cands@[#[trigger] sel[k]], sel[k], cands@[j], j),
            sel.no_duplicates(),
        decreases target - r@.len(),
    {
        let mut best: usize = len;
        let mut j: usize = 0;
        while j < len
            invariant
                len == cands@.len(),
                chosen@.len() == len,
                j <= len,
                best == len || (best < j && !chosen@[best as int]),
                best == len ==> forall|jj: int| 0 <= jj < j ==> chosen@[jj],
                best < len ==> forall|jj: int|
                    0 <= jj < j && !chosen@[jj] && jj != best ==> before(
                        center,
                        cands@[best as int],
                        best as int,
                        cands@[jj],
                        jj,
                    ),
            decreases len - j,
        {
            if !chosen[j] {
                if best == len || before_exec(center, cands[j], j, cands[best], best) {
                    proof {
                        if best < len {
                            assert forall|jj: int|
                                0 <= jj < j + 1 && !chosen@[jj] && jj != j implies before(
                                center,
                                cands@[j as int],
                                j as int,
                                cands@[jj],
                                jj,
                            ) by {
                                if jj != best {
                                    assert(before(center, cands@[best as int], best as int, cands@[jj], jj));
                                }
                            }
                        }
                    }
                    best = j;
                } else {
                    proof {
                        assert(!before(center, cands@[j as int], j as int, cands@[best as int], best as int));
                    }
                }
            }
            j = j + 1;
        }
        proof {
            if best == len {
                assert(sel.len() < len);
                assert forall|jj: int| 0 <= jj < len implies sel.contains(jj) by {
                    assert(chosen@[jj]);
                }
                assert(sel.to_set().len() == sel.len()) by {
                    sel.unique_seq_to_set();
                }
                assert(Set::new(|jj: int| 0 <= jj < len).subset_of(sel.to_set()));
                vstd::set_lib::lemma_int_range(0, len as int);
                vstd::set_lib::lemma_len_subset(Set::new(|jj: int| 0 <= jj < len), sel.to_set());
                assert(Set::new(|jj: int| 0 <= jj < len) =~= vstd::set_lib::set_int_range(0, len as int));
                assert(false);
            }
        }
        let ghost old_sel = sel;
        chosen.set(best, true);
        r.push(cands[best]);
        proof {
            sel = sel.push(best as int);
            assert forall|jj: int| 0 <= jj < len implies (chosen@[jj] <==> sel.contains(jj)) by {
                if jj != best {
                    if old_sel.contains(jj) {
                        let t = choose|t: int| 0 <= t < old_sel.len() && old_sel[t] == jj;
                        assert(sel[t] == jj);
                    }
                    if sel.contains(jj) {
                        let t = choose|t: int| 0 <= t < sel.len() && sel[t] == jj;
                        assert(t < old_sel.len());
                        assert(old_sel[t] == jj);
                    }
                } else {
                    assert(sel[sel.len() - 1] == jj);
                }
            }
            assert forall|k: int| 0 <= k < sel.len() implies r@[k] == cands@[#[trigger] sel[k]] by {
                if k < old_sel.len() {
                    assert(sel[k] == old_sel[k]);
                }
            }
            assert forall|a: int, b: int|
                0 <= a < b < sel.len() implies before(center, cands@[sel[a]], sel[a], cands@[sel[b]], sel[b]) by {
                if b < old_sel.len() {
                    assert(sel[a] == old_sel[a] && sel[b] == old_sel[b]);
                } else {
                    assert(sel[a] == old_sel[a]);
                    assert(!old_sel.contains(best as int));
                }
            }
            assert forall|jj: int| 0 <= jj < len && !sel.contains(jj) implies forall|k: int|
                0 <= k < sel.len() ==> before(center, cands@[#[trigger] sel[k]], sel[k], cands@[jj], jj) by {
                assert(jj != best);
                assert(!old_sel.contains(jj)) by {
                    if old_sel.contains(jj) {
                        let t = choose|t: int| 0 <= t < old_sel.len() && old_sel[t] == jj;
                        assert(sel[t] == jj);
                    }
                }
                assert(!chosen@[jj]);
                assert forall|k: int| 0 <= k < sel.len() implies before(center, cands@[#[trigger] sel[k]], sel[k], cands@[jj], jj) by {
                    if k < old_sel.len() {
                        assert(sel[k] == old_sel[k]);
                    } else {
                        assert(sel[k] == best);
                    }
                }
            }
            assert(sel.no_duplicates()) by {
                assert(!old_sel.contains(best as int));
                assert forall|a: int, b: int| 0 <= a < sel.len() && 0 <= b < sel.len() && a != b implies sel[a] != sel[b] by {
                    if a < old_sel.len() && b < old_sel.len() {
                        assert(sel[a] == old_sel[a] && sel[b] == old_sel[b]);
                    } else if a < old_sel.len() {
                        assert(sel[a] == old_sel[a]);
                    } else {
                        assert(sel[b] == old_sel[b]);
                    }
                }
            }
        }
    }
    proof {
        assert(first_by_priority(center, cands@, n as int, r@)) by {
            assert(r@.len() == target);
        }
    }
    r
}


/// Membership after appending.
pub proof fn lemma_push_contains<A>(s: Seq<A>, x: A, y: A)
    ensures
        s.push(x).contains(y) == (s.contains(y) || y == x),
{
    if s.contains(y) {
        let t = choose|t: int| 0 <= t < s.len() && s[t] == y;
        assert(s.push(x)[t] == y);
    }
    if y == x {
        assert(s.push(x)[s.len() as int] == y);
    }
    if s.push(x).contains(y) {
        let t = choose|t: int| 0 <= t < s.push(x).len() && s.push(x)[t] == y;
        if t < s.len() {
            assert(s[t] == y);
        }
    }
}

/// Whether a loaded chunk is beyond the unload distance `r + 1` from `center` along X or Z;
/// height does not count.
/// Render distances whose scan of `8 * (2 * r + 1)^2` chunk positions can be counted in a `usize`.
pub open spec fn scan_fits(r: int) -> bool {
    0 <= r && 8 * (2 * r + 1) * (2 * r + 1) <= usize::MAX
}

proof fn lemma_scan_fits(r: int)
    requires
        scan_fits(r),
    ensures
        r <= 800000000,
        2 * r + 1 <= usize::MAX,
{
    assert(r <= 800000000 && 2 * r + 1 <= usize::MAX) by (nonlinear_arith)
        requires
            0 <= r,
            8 * (2 * r + 1) * (2 * r + 1) <= usize::MAX,
            usize::MAX <= 0xffff_ffff_ffff_ffff,
    ;
}

pub open spec fn beyond(center: IVec3, p: IVec3, r: int) -> bool {
    let dx = p.x - center.x;
    let dz = p.z - center.z;
    (if dx < 0 { -dx } else { dx }) > r + 1 || (if dz < 0 { -dz } else { dz }) > r + 1
}

impl WorldManager {
    /// Whether the world tracks a chunk position: loaded, being generated, or known empty.
    pub fn is_known_chunk(&self, p: IVec3) -> (r: bool)
        ensures
            r == known_chunk(*self, p),
    {
        let key = chunk_key_of(p);
        self.chunks.contains_key(&key) || self.loading_chunks.contains(&key)
            || self.vacuum_chunks.contains(&key)
    }

    /// Chunk positions within `render_dist` columns of `player_chunk_pos` (in all eight
    /// layers) that the world does not track yet, in scan order.
    pub fn chunk_load_candidates(&self, player_chunk_pos: IVec3, render_dist: i32) -> (r: Vec<IVec3>)
        requires
            stream_pos_ok(player_chunk_pos),
            scan_fits(render_dist as int),
        ensures
            r@ == load_candidates(*self, player_chunk_pos, render_dist as int),
    {
        proof {
            lemma_scan_fits(render_dist as int);
        }
        let side: usize = (2 * render_dist as usize + 1) as usize;
        proof {
            assert(8 * side <= 8 * side * side) by (nonlinear_arith)
                requires
                    side >= 1,
            ;
        }
        let total: usize = 8 * side * side;
        let ghost all = Seq::new(total as nat, |k: int| scan_pos(player_chunk_pos, render_dist as int, k));
        let ghost pred = |p: IVec3| !known_chunk(*self, p);
        let mut r: Vec<IVec3> = Vec::new();
        let mut k: usize = 0;
        proof {
            assert(total == 8 * (2 * render_dist + 1) * (2 * render_dist + 1));
        }
        while k < total
            invariant
                stream_pos_ok(player_chunk_pos),
                scan_fits(render_dist as int),
                0 <= render_dist <= 800000000,
                side == 2 * render_dist + 1,
                total == 8 * side * side,
                k <= total,
                all == Seq::new(total as nat, |kk: int| scan_pos(player_chunk_pos, render_dist as int, kk)),
                pred == (|p: IVec3| !known_chunk(*self, p)),
                r@ == all.take(k as int).filter(pred),
            decreases total - k,
        {
            proof {
                assert(8 * side <= 8 * side * side) by (nonlinear_arith)
                    requires
                        side >= 1,
                ;
                assert((k as int) / (8 * side as int) <= 2 * render_dist) by (nonlinear_arith)
                    requires
                        k < 8 * side * side,
                        side == 2 * render_dist + 1,
                        render_dist >= 0,
                ;
                assert((k as int) % (side as int) < side) by (nonlinear_arith)
                    requires side > 0;
            }
            let dx = (k / (8 * side)) as i32 - render_dist;
            let cy = ((k / side) % 8) as i32;
            let dz = (k % side) as i32 - render_dist;
            let target = IVec3 { x: player_chunk_pos.x + dx, y: cy, z: player_chunk_pos.z + dz };
            proof {
                assert(target == scan_pos(player_chunk_pos, render_dist as int, k as int));
                assert(all.take(k as int + 1) =~= all.take(k as int).push(target));
                all.take(k as int).lemma_filter_push(target, pred);
            }
            if !self.is_known_chunk(target) {
                r.push(target);
            }
            k = k + 1;
        }
        proof {
            assert(all.take(total as int) =~= all);
        }
        r
    }

    /// Marks chunk positions as being generated.
    pub fn begin_loading(&mut self, positions: &Vec<IVec3>)
        requires
            old(self).wf(),
        ensures
            final(self).wf(),
            final(self).loading_chunks@ == old(self).loading_chunks@.union(
                positions@.map_values(|p: IVec3| chunk_key(p)).to_set(),
            ),
            final(self).chunks == old(self).chunks,
            final(self).vacuum_chunks == old(self).vacuum_chunks,
            final(self).heightmap_cache == old(self).heightmap_cache,
            final(self).dirty_chunks_for_meshing == old(self).dirty_chunks_for_meshing,
            final(self).fluid_queue == old(self).fluid_queue,
            final(self).world_type == old(self).world_type,
            final(self).seed == old(self).seed,
    {
        let mut k: usize = 0;
        while k < positions.len()
            invariant
                k <= positions@.len(),
                self.wf(),
                self.loading_chunks@ == old(self).loading_chunks@.union(
                    positions@.take(k as int).map_values(|p: IVec3| chunk_key(p)).to_set(),
                ),
                self.chunks == old(self).chunks,
                self.vacuum_chunks == old(self).vacuum_chunks,
                self.heightmap_cache == old(self).heightmap_cache,
                self.dirty_chunks_for_meshing == old(self).dirty_chunks_for_meshing,
                self.fluid_queue == old(self).fluid_queue,
                self.world_type == old(self).world_type,
                self.seed == old(self).seed,
            decreases positions@.len() - k,
        {
            let key = chunk_key_of(positions[k]);
            self.loading_chunks.insert(key);
            proof {
                let a = positions@.take(k as int).map_values(|p: IVec3| chunk_key(p));
                let b = positions@.take(k as int + 1).map_values(|p: IVec3| chunk_key(p));
                assert(b =~= a.push(key));
                assert(b.to_set() =~= a.to_set().insert(key)) by {
                    assert forall|x: u128| b.to_set().contains(x) implies a.to_set().insert(key).contains(x) by {
                        let t = choose|t: int| 0 <= t < b.len() && b[t] == x;
                        if t < a.len() {
                            assert(a[t] == x);
                        }
                    }
                    assert forall|x: u128| a.to_set().insert(key).contains(x) implies b.to_set().contains(x) by {
                        if x == key {
                            assert(b[a.len() as int] == x);
                        } else {
                            let t = choose|t: int| 0 <= t < a.len() && a[t] == x;
                            assert(b[t] == x);
                        }
                    }
                }
                assert(self.loading_chunks@ =~= old(self).loading_chunks@.union(b.to_set()));
            }
            k = k + 1;
        }
        proof {
            assert(positions@.take(positions@.len() as int) =~= positions@);
        }
    }

    /// Gives up generating a chunk that was planned: it no longer counts as being generated.
    pub fn abandon_loading(&mut self, pos: IVec3)
        requires
            old(self).wf(),
        ensures
            final(self).wf(),
            final(self).loading_chunks@ == old(self).loading_chunks@.remove(chunk_key(pos)),
            final(self).chunks == old(self).chunks,
            final(self).vacuum_chunks == old(self).vacuum_chunks,
            final(self).heightmap_cache == old(self).heightmap_cache,
            final(self).dirty_chunks_for_meshing == old(self).dirty_chunks_for_meshing,
            final(self).fluid_queue == old(self).fluid_queue,
            final(self).world_type == old(self).world_type,
            final(self).seed == old(self).seed,
    {
        let key = chunk_key_of(pos);
        self.loading_chunks.remove(&key);
    }

    /// Picks the (at most) four chunk positions to generate next around the player's chunk:
    /// untracked positions within `render_dist` columns, nearest columns first, then nearest
    /// layers, ties in scan order; marks them as being generated and returns them.
    pub fn plan_chunk_loads(&mut self, player_chunk_pos: IVec3, render_dist: i32) -> (r: Vec<IVec3>)
        requires
            old(self).wf(),
            stream_pos_ok(player_chunk_pos),
            scan_fits(render_dist as int),
        ensures
            final(self).wf(),
            first_by_priority(
                player_chunk_pos,
                load_candidates(*old(self), player_chunk_pos, render_dist as int),
                4,
                r@,
            ),
            final(self).loading_chunks@ == old(self).loading_chunks@.union(
                r@.map_values(|p: IVec3| chunk_key(p)).to_set(),
            ),
            final(self).chunks == old(self).chunks,
            final(self).vacuum_chunks == old(self).vacuum_chunks,
            final(self).heightmap_cache == old(self).heightmap_cache,
            final(self).dirty_chunks_for_meshing == old(self).dirty_chunks_for_meshing,
            final(self).fluid_queue == old(self).fluid_queue,
            final(self).world_type == old(self).world_type,
            final(self).seed == old(self).seed,
    {
        let cands = self.chunk_load_candidates(player_chunk_pos, render_dist);
        let chosen = select_nearest(player_chunk_pos, &cands, 4);
        self.begin_loading(&chosen);
        chosen
    }

    /// Loaded chunk positions beyond the unload distance `render_dist + 1` columns from the
    /// player's chunk, each once.
    pub fn far_chunks(&self, player_chunk_pos: IVec3, render_dist: i32) -> (r: Vec<IVec3>)
        requires
            0 <= render_dist,
        ensures
            r@.no_duplicates(),
            forall|p: IVec3|
                r@.contains(p) <==> (self.chunks@.contains_key(chunk_key(p)) && beyond(
                    player_chunk_pos,
                    p,
                    render_dist as int,
                )),
    {
        let mut r: Vec<IVec3> = Vec::new();
        let ghost m = self.chunks@;
        let ghost ks = vstd::std_specs::hash::spec_keys_iter(&self.chunks).remaining().unref();
        proof {
            vstd::std_specs::hash::axiom_spec_keys_iter(&self.chunks);
        }
        for k in it: self.chunks.keys()
            invariant
                it.seq() == vstd::std_specs::hash::spec_keys_iter(&self.chunks).remaining(),
                ks == it.seq().unref(),
                m == self.chunks@,
                ks.to_set() == m.dom(),
                ks.no_duplicates(),
                0 <= it.index() <= ks.len(),
                0 <= render_dist,
                r@.no_duplicates(),
                forall|p: IVec3|
                    r@.contains(p) <==> (ks.take(it.index()).contains(chunk_key(p)) && beyond(
                        player_chunk_pos,
                        p,
                        render_dist as int,
                    )),
        {
            let key = *k;
            proof {
                assert(key == ks[it.index()]);
                assert(ks.take(it.index() + 1) =~= ks.take(it.index()).push(key));
            }
            if key < 0x1_0000_0000_0000_0000_0000_0000 {
                let p = chunk_pos_of_key(key);
                let dx = (p.x as i64 - player_chunk_pos.x as i64);
                let dz = (p.z as i64 - player_chunk_pos.z as i64);
                let adx = if dx < 0 { -dx } else { dx };
                let adz = if dz < 0 { -dz } else { dz };
                let unload_distance = render_dist as i64 + 1;
                if adx > unload_distance || adz > unload_distance {
                    let ghost r0 = r@;
                    proof {
                        assert(!r0.contains(p)) by {
                            if r0.contains(p) {
                                let t = choose|t: int| 0 <= t < ks.take(it.index()).len() && ks.take(it.index())[t] == chunk_key(p);
                                assert(ks[t] == key);
                            }
                        }
                    }
                    r.push(p);
                    proof {
                        assert forall|a: int, b: int| 0 <= a < r@.len() && 0 <= b < r@.len() && a != b implies r@[a] != r@[b] by {
                            if a < r0.len() && b < r0.len() {
                                assert(r@[a] == r0[a] && r@[b] == r0[b]);
                            } else if a < r0.len() {
                                assert(r@[a] == r0[a]);
                                assert(r0.contains(r0[a]));
                            } else {
                                assert(r@[b] == r0[b]);
                                assert(r0.contains(r0[b]));
                            }
                        }
                        assert forall|q: IVec3| r@.contains(q) <==> (ks.take(it.index() + 1).contains(chunk_key(q)) && beyond(
                            player_chunk_pos,
                            q,
                            render_dist as int,
                        )) by {
                            crate::world::lemma_chunk_key_injective(q, p);
                            lemma_push_contains(ks.take(it.index()), key, chunk_key(q));
                            if r@.contains(q) && q != p {
                                let t = choose|t: int| 0 <= t < r@.len() && r@[t] == q;
                                assert(t < r0.len());
                                assert(r0[t] == q);
                            }
                            if r0.contains(q) {
                                let t = choose|t: int| 0 <= t < r0.len() && r0[t] == q;
                                assert(r@[t] == q);
                            }
                            if q == p {
                                assert(r@[r@.len() - 1] == p);
                            }
                        }
                    }
                } else {
                    proof {
                        assert forall|q: IVec3| r@.contains(q) <==> (ks.take(it.index() + 1).contains(chunk_key(q)) && beyond(
                            player_chunk_pos,
                            q,
                            render_dist as int,
                        )) by {
                            crate::world::lemma_chunk_key_injective(q, p);
                            lemma_push_contains(ks.take(it.index()), key, chunk_key(q));
                        }
                    }
                }
            } else {
                proof {
                    assert forall|q: IVec3| r@.contains(q) <==> (ks.take(it.index() + 1).contains(chunk_key(q)) && beyond(
                        player_chunk_pos,
                        q,
                        render_dist as int,
                    )) by {
                        assert(chunk_key(q) < 0x1_0000_0000_0000_0000_0000_0000);
                        lemma_push_contains(ks.take(it.index()), key, chunk_key(q));
                    }
                }
            }
        }
        proof {
            assert(ks.take(ks.len() as int) =~= ks);
            assert forall|p: IVec3| r@.contains(p) <==> (self.chunks@.contains_key(chunk_key(p)) && beyond(
                player_chunk_pos,
                p,
                render_dist as int,
            )) by {
                assert(ks.to_set().contains(chunk_key(p)) == ks.contains(chunk_key(p)));
            }
        }
        r
    }

    /// Drops the loaded chunk at a chunk position (returning it, for saving and for removing what
    /// draws it) and forgets that the position is empty.
    pub fn unload_chunk(&mut self, pos: IVec3) -> (r: Option<ChunkEntry>)
        requires
            old(self).wf(),
        ensures
            final(self).wf(),
            r == old(self).entry_at(pos),
            final(self).chunks@ == old(self).chunks@.remove(chunk_key(pos)),
            final(self).vacuum_chunks@ == old(self).vacuum_chunks@.remove(chunk_key(pos)),
            final(self).loading_chunks == old(self).loading_chunks,
            final(self).heightmap_cache == old(self).heightmap_cache,
            final(self).dirty_chunks_for_meshing == old(self).dirty_chunks_for_meshing,
            final(self).fluid_queue == old(self).fluid_queue,
            final(self).world_type == old(self).world_type,
            final(self).seed == old(self).seed,
    {
        let key = chunk_key_of(pos);
        let r = self.chunks.remove(&key);
        self.vacuum_chunks.remove(&key);
        proof {
            assert forall|k: u128| #[trigger] self.chunks@.contains_key(k) implies self.chunks@[k].wf() by {
                assert(old(self).chunks@.contains_key(k));
            }
            assert forall|cp: IVec3| #[trigger] self.chunks@.contains_key(chunk_key(cp)) implies crate::world::chunk_pos_bounded(cp) by {
                assert(old(self).chunks@.contains_key(chunk_key(cp)));
            }
        }
        r
    }
}

impl ChunkEntry {
    /// Splits an unloaded chunk into what goes to its save file (its blocks and fluid, only
    /// when it was modified since it was loaded) and the entity that drew it, to be removed.
    pub fn into_unload_parts(self) -> (r: (Option<ChunkData>, Option<u64>))
        ensures
            r.0 is Some <==> self.is_modified,
            r.0 matches Some(d) ==> d.buffer == self.buffer && d.fluid_buffer == self.fluid_buffer,
            r.1 == self.entity,
    {
        let save = if self.is_modified {
            Some(ChunkData { buffer: self.buffer, fluid_buffer: self.fluid_buffer })
        } else {
            None
        };
        (save, self.entity)
    }
}


/// Surface heights chunk columns are lit against: ground at 4 on flat worlds, none (-1) for
/// floating islands, and the generator's heights (`hills`) for hills.
pub open spec fn surface_map(world_type: WorldType, hills: Seq<i32>) -> Seq<i32> {
    match world_type {
        WorldType::Flat => Seq::new(1024, |i: int| 4i32),
        WorldType::PerlinHills => hills,
        WorldType::FloatingIslands => Seq::new(1024, |i: int| -1i32),
    }
}

/// Surface heights chunk columns are lit against.
pub fn surface_map_for(world_type: WorldType, hills: &Vec<i32>) -> (r: Vec<i32>)
    requires
        hills@.len() == 1024,
    ensures
        r@ == surface_map(world_type, hills@),
{
    match world_type {
        WorldType::Flat => {
            let r = vec![4i32; 1024];
            proof {
                assert(r@ =~= Seq::new(1024, |i: int| 4i32));
            }
            r
        },
        WorldType::PerlinHills => hills.clone(),
        WorldType::FloatingIslands => {
            let r = vec![-1i32; 1024];
            proof {
                assert(r@ =~= Seq::new(1024, |i: int| -1i32));
            }
            r
        },
    }
}

/// Fluid bytes fitted to one chunk: the first 32768 bytes, padded with zeros.
pub open spec fn fitted_fluid(v: Seq<u8>) -> Seq<u8> {
    Seq::new(32768, |i: int| if i < v.len() { v[i] } else { 0u8 })
}

/// Fluid bytes fitted to one chunk: the first 32768 bytes, padded with zeros.
pub fn fit_fluid(v: &Vec<u8>) -> (r: Vec<u8>)
    ensures
        r@ == fitted_fluid(v@),
{
    let mut r: Vec<u8> = Vec::new();
    let mut i: usize = 0;
    while i < 32768
        invariant
            i <= 32768,
            r@.len() == i,
            forall|j: int| 0 <= j < i ==> #[trigger] r@[j] == if j < v@.len() { v@[j] } else { 0u8 },
        decreases 32768 - i,
    {
        if i < v.len() {
            r.push(v[i]);
        } else {
            r.push(0);
        }
        i = i + 1;
    }
    proof {
        assert(r@ =~= fitted_fluid(v@));
    }
    r
}

/// What the generation of a chunk hands over: its data with the fluid fitted to the chunk, its
/// light (sunlight seeded against the column surfaces, then spread through the chunk), and its
/// number of voxels that are not air.
pub fn prepare_chunk(
    chunk_pos: IVec3,
    buffer: ChunkBuffer,
    fluid: Option<Vec<u8>>,
    max_surface_y_map: &Vec<i32>,
) -> (r: (ChunkData, ChunkLightBuffer, u16))
    requires
        buffer.wf(),
        max_surface_y_map@.len() == 1024,
        -30000000 <= chunk_pos.y <= 30000000,
    ensures
        r.0.buffer.blocks@ == buffer.blocks@,
        r.0.fluid_buffer matches Some(f) ==> fluid matches Some(g) && f@ == fitted_fluid(g@),
        r.0.fluid_buffer is None ==> fluid is None,
        r.2 as nat == count_non_air(buffer.blocks@),
        r.1.wf(),
        forall|i: int|
            0 <= i < 32768 ==> #[trigger] sky_levels(r.1.light_data@)[i] >= initial_sky(
                chunk_pos.y as int,
                buffer.blocks@,
                max_surface_y_map@,
                i,
            ),
        forall|i: int|
            0 <= i < 32768 && #[trigger] sky_levels(r.1.light_data@)[i] != initial_sky(
                chunk_pos.y as int,
                buffer.blocks@,
                max_surface_y_map@,
                i,
            ) ==> buffer.blocks@[i] == BlockType::Air && sky_supported(sky_levels(r.1.light_data@), i),
        forall|i: int| 0 <= i < 32768 ==> #[trigger] sky_stable(buffer.blocks@, sky_levels(r.1.light_data@), i),
        forall|i: int| 0 <= i < 32768 ==> #[trigger] r.1.light_data@[i] & 0x0Fu8 == 0,
{
    let non_air_count = buffer.non_air_count();
    let mut light_buffer = ChunkLightBuffer::default();
    init_sunlight(chunk_pos, &buffer, &mut light_buffer, max_surface_y_map);
    let ghost l1 = light_buffer.light_data@;
    propagate_sky_light(&buffer, &mut light_buffer);
    proof {
        assert forall|i: int| 0 <= i < 32768 implies #[trigger] sky_levels(l1)[i] == initial_sky(
            chunk_pos.y as int,
            buffer.blocks@,
            max_surface_y_map@,
            i,
        ) by {
            assert(sky_of(l1[i]) == initial_sky(chunk_pos.y as int, buffer.blocks@, max_surface_y_map@, i));
        }
        assert forall|i: int| 0 <= i < 32768 implies #[trigger] light_buffer.light_data@[i] & 0x0Fu8 == 0 by {
            assert((0u8 & 0x0Fu8) == 0u8) by (bit_vector);
        }
    }
    let fluid_buffer = match &fluid {
        Some(v) => Some(fit_fluid(v)),
        None => None,
    };
    (ChunkData { buffer, fluid_buffer }, light_buffer, non_air_count)
}

} // verus!
