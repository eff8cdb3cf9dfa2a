//! The world index: every loaded chunk keyed by its grid coordinate,
//! with running world bounds and a world-space center offset.
//!
//! The index is built once at load time by repeated insertion (last write
//! at a coordinate wins), then finalized, and is read-only afterwards.

use crate::chunk::TerrainChunkState;
use crate::viewport::DEFAULT_CHUNK_PADDING;
use crate::viewport::POS_LIMIT;
use crate::viewport::ceil_div;
use crate::viewport::floor_div;
use crate::viewport::spec_ceil_div;
use vstd::map::*;
use vstd::math::abs;
use vstd::prelude::*;

verus! {

/// World-space extent of one chunk: 32 cells of 13 world units each.
pub const CHUNK_WORLD_SIZE: i64 = 416;

/// The grid coordinate a chunk is keyed by.
pub open spec fn coord_of(c: TerrainChunkState) -> (int, int) {
    (c.chunk_x as int, c.chunk_z as int)
}

/// No two chunks of the sequence claim the same grid coordinate.
pub open spec fn unique_coords(s: Seq<TerrainChunkState>) -> bool {
    forall|i: int, j: int| 0 <= i < j < s.len() ==> coord_of(s[i]) != coord_of(s[j])
}

/// The coordinate-keyed reading of a chunk sequence, later entries
/// overwriting earlier ones at the same coordinate.
pub open spec fn chunk_map(s: Seq<TerrainChunkState>) -> Map<(int, int), TerrainChunkState>
    decreases s.len(),
{
    if s.len() == 0 {
        Map::empty()
    } else {
        chunk_map(s.drop_last()).insert(coord_of(s.last()), s.last())
    }
}

/// The domain of `chunk_map` is finite and holds exactly the coordinates
/// of the sequence's chunks.
pub proof fn lemma_chunk_map_dom(s: Seq<TerrainChunkState>)
    ensures
        chunk_map(s).dom().finite(),
        forall|p: (int, int)| #[trigger]
            chunk_map(s).dom().contains(p) <==> exists|i: int|
                0 <= i < s.len() && coord_of(s[i]) == p,
    decreases s.len(),
{
    if s.len() == 0 {
    } else {
        lemma_chunk_map_dom(s.drop_last());
        assert forall|p: (int, int)| #[trigger] chunk_map(s).dom().contains(p) implies exists|
            i: int,
        | 0 <= i < s.len() && coord_of(s[i]) == p by {
            if p == coord_of(s.last()) {
                assert(coord_of(s[s.len() - 1]) == p);
            } else {
                let i = choose|i: int| 0 <= i < s.drop_last().len() && coord_of(
                    s.drop_last()[i],
                ) == p;
                assert(coord_of(s[i]) == p);
            }
        }
        assert forall|p: (int, int)| (exists|i: int| 0 <= i < s.len() && coord_of(s[i]) == p)
            implies #[trigger] chunk_map(s).dom().contains(p) by {
            let i = choose|i: int| 0 <= i < s.len() && coord_of(s[i]) == p;
            if i < s.len() - 1 {
                assert(coord_of(s.drop_last()[i]) == p);
            }
        }
    }
}

/// In a sequence without duplicate coordinates, the map sends each
/// chunk's coordinate to that chunk.
pub proof fn lemma_chunk_map_get(s: Seq<TerrainChunkState>, i: int)
    requires
        unique_coords(s),
        0 <= i < s.len(),
    ensures
        chunk_map(s).dom().contains(coord_of(s[i])),
        chunk_map(s)[coord_of(s[i])] == s[i],
    decreases s.len(),
{
    lemma_chunk_map_dom(s);
    if i < s.len() - 1 {
        assert(unique_coords(s.drop_last()));
        assert(s.drop_last()[i] == s[i]);
        lemma_chunk_map_get(s.drop_last(), i);
        assert(coord_of(s[i]) != coord_of(s[s.len() - 1]));
    }
}

/// Replacing the chunk at a coordinate that is already present reads as a
/// map insertion at that coordinate.
pub proof fn lemma_chunk_map_update(s: Seq<TerrainChunkState>, i: int, c: TerrainChunkState)
    requires
        unique_coords(s),
        0 <= i < s.len(),
        coord_of(s[i]) == coord_of(c),
    ensures
        chunk_map(s.update(i, c)) =~= chunk_map(s).insert(coord_of(c), c),
    decreases s.len(),
{
    let t = s.update(i, c);
    if i == s.len() - 1 {
        assert(t.drop_last() =~= s.drop_last());
        assert(t.last() == c);
        assert(chunk_map(t) == chunk_map(s.drop_last()).insert(coord_of(c), c));
        assert(chunk_map(s.drop_last()).insert(coord_of(s.last()), s.last()).insert(
            coord_of(c),
            c,
        ) =~= chunk_map(s.drop_last()).insert(coord_of(c), c));
    } else {
        assert(unique_coords(s.drop_last()));
        assert(s.drop_last()[i] == s[i]);
        lemma_chunk_map_update(s.drop_last(), i, c);
        assert(t.drop_last() =~= s.drop_last().update(i, c));
        assert(t.last() == s.last());
        assert(coord_of(s[i]) != coord_of(s[s.len() - 1]));
        assert(chunk_map(t) == chunk_map(s.drop_last().update(i, c)).insert(
            coord_of(s.last()),
            s.last(),
        ));
        assert(chunk_map(s.drop_last()).insert(coord_of(c), c).insert(
            coord_of(s.last()),
            s.last(),
        ) =~= chunk_map(s.drop_last()).insert(coord_of(s.last()), s.last()).insert(
            coord_of(c),
            c,
        ));
    }
}

/// Appending a chunk reads as a map insertion at its coordinate.
pub proof fn lemma_chunk_map_push(s: Seq<TerrainChunkState>, c: TerrainChunkState)
    ensures
        chunk_map(s.push(c)) =~= chunk_map(s).insert(coord_of(c), c),
{
    assert(s.push(c).drop_last() =~= s);
    assert(s.push(c).last() == c);
}

/// All loaded terrain data: chunks keyed by grid coordinate, the exact
/// bounds of the loaded coordinates, and the world-space center offset
/// derived from the bounds at finalize time.
pub struct WorldData {
    /// All loaded chunks; no two entries share a grid coordinate.
    pub chunks: Vec<TerrainChunkState>,
    /// Exact running bounds of the loaded chunk coordinates, as
    /// `(min_x, max_x, min_z, max_z)`; the empty index carries the
    /// sentinel `(i32::MAX, i32::MIN, i32::MAX, i32::MIN)`.
    pub bounds: (i32, i32, i32, i32),
    /// World-space translation of the world's center, in world units;
    /// zero until `finalize` has computed it.
    pub center_offset: (i64, i64),
    /// Whether `finalize` has run; queries demand it.
    pub finalized: bool,
}

impl WorldData {
    /// The index read as a map from grid coordinate to chunk.
    pub open spec fn as_map(self) -> Map<(int, int), TerrainChunkState> {
        chunk_map(self.chunks@)
    }

    /// The set of loaded grid coordinates.
    pub open spec fn coord_set(self) -> Set<(int, int)> {
        self.as_map().dom()
    }

    /// The bounds fields are exactly the minima and maxima of the loaded
    /// coordinates (or the empty sentinel).
    pub open spec fn bounds_exact(self) -> bool {
        if self.chunks@.len() == 0 {
            self.bounds == (i32::MAX, i32::MIN, i32::MAX, i32::MIN)
        } else {
            let s = self.chunks@;
            &&& forall|i: int|
                0 <= i < s.len() ==> self.bounds.0 <= #[trigger] s[i].chunk_x <= self.bounds.1
                    && self.bounds.2 <= s[i].chunk_z <= self.bounds.3
            &&& exists|i: int| 0 <= i < s.len() && #[trigger] s[i].chunk_x == self.bounds.0
            &&& exists|i: int| 0 <= i < s.len() && #[trigger] s[i].chunk_x == self.bounds.1
            &&& exists|i: int| 0 <= i < s.len() && #[trigger] s[i].chunk_z == self.bounds.2
            &&& exists|i: int| 0 <= i < s.len() && #[trigger] s[i].chunk_z == self.bounds.3
        }
    }

    /// The center offset the bounds determine: the midpoint of the bounds
    /// rectangle, `(min + max) / 2` chunk units, scaled by the chunk
    /// extent of `CHUNK_WORLD_SIZE` world units. The division is exact
    /// because the chunk extent is even: the offset is the coordinate sum
    /// times half the chunk extent, `208`. The empty world is centered at
    /// the origin.
    pub open spec fn spec_center_offset(self) -> (int, int) {
        if self.chunks@.len() == 0 {
            (0, 0)
        } else {
            ((self.bounds.0 + self.bounds.1) * 208, (self.bounds.2 + self.bounds.3) * 208)
        }
    }

    /// Well-formedness: unique coordinates, exact bounds, and a center
    /// offset that is zero before `finalize` and bounds-derived after.
    pub open spec fn wf(self) -> bool {
        &&& unique_coords(self.chunks@)
        &&& self.bounds_exact()
        &&& if self.finalized {
            (self.center_offset.0 as int, self.center_offset.1 as int)
                == self.spec_center_offset()
        } else {
            self.center_offset == (0i64, 0i64)
        }
    }

    /// A fresh, empty, unfinalized index.
    pub fn new() -> (r: WorldData)
        ensures
            r.wf(),
            !r.finalized,
            r.chunks@.len() == 0,
            r.as_map() == Map::<(int, int), TerrainChunkState>::empty(),
    {
        let r = WorldData {
            chunks: Vec::new(),
            bounds: (i32::MAX, i32::MIN, i32::MAX, i32::MIN),
            center_offset: (0, 0),
            finalized: false,
        };
        r
    }

    /// Position of the chunk keyed by a grid coordinate, if any.
    fn find_coord(&self, chunk_x: i32, chunk_z: i32) -> (r: Option<usize>)
        ensures
            match r {
                Some(i) => i < self.chunks@.len() && coord_of(self.chunks@[i as int]) == (
                chunk_x as int, chunk_z as int),
                None => forall|j: int|
                    0 <= j < self.chunks@.len() ==> coord_of(self.chunks@[j]) != (
                    chunk_x as int, chunk_z as int),
            },
    {
        let n = self.chunks.len();
        let mut i: usize = 0;
        while i < n
            invariant
                n == self.chunks@.len(),
                i <= n,
                forall|j: int|
                    0 <= j < i ==> coord_of(self.chunks@[j]) != (chunk_x as int, chunk_z as int),
            decreases n - i,
        {
            if self.chunks[i].chunk_x == chunk_x && self.chunks[i].chunk_z == chunk_z {
                return Some(i);
            }
            i = i + 1;
        }
        None
    }

    /// Insert one chunk, overwriting any chunk already keyed by the same
    /// coordinate, and widen the bounds to cover it.
    fn insert_chunk(&mut self, c: TerrainChunkState)
        requires
            old(self).wf(),
            !old(self).finalized,
        ensures
            final(self).wf(),
            !final(self).finalized,
            final(self).center_offset == old(self).center_offset,
            final(self).as_map() == old(self).as_map().insert(coord_of(c), c),
    {
        match self.find_coord(c.chunk_x, c.chunk_z) {
            Some(i) => {
                proof {
                    let s = self.chunks@;
                    let t = s.update(i as int, c);
                    lemma_chunk_map_update(s, i as int, c);
                    assert(forall|k: int|
                        0 <= k < t.len() ==> #[trigger] t[k].chunk_x == s[k].chunk_x && t[k].chunk_z
                            == s[k].chunk_z);
                    assert(unique_coords(t));
                    let w0 = choose|w: int| 0 <= w < s.len() && #[trigger] s[w].chunk_x
                        == self.bounds.0;
                    assert(t[w0].chunk_x == self.bounds.0);
                    let w1 = choose|w: int| 0 <= w < s.len() && #[trigger] s[w].chunk_x
                        == self.bounds.1;
                    assert(t[w1].chunk_x == self.bounds.1);
                    let w2 = choose|w: int| 0 <= w < s.len() && #[trigger] s[w].chunk_z
                        == self.bounds.2;
                    assert(t[w2].chunk_z == self.bounds.2);
                    let w3 = choose|w: int| 0 <= w < s.len() && #[trigger] s[w].chunk_z
                        == self.bounds.3;
                    assert(t[w3].chunk_z == self.bounds.3);
                }
                self.chunks[i] = c;
            },
            None => {
                proof {
                    let s = self.chunks@;
                    let t = s.push(c);
                    lemma_chunk_map_push(s, c);
                    assert(forall|k: int| 0 <= k < s.len() ==> t[k] == s[k]);
                    assert(t[t.len() - 1] == c);
                    assert(unique_coords(t));
                }
                if c.chunk_x < self.bounds.0 {
                    self.bounds.0 = c.chunk_x;
                }
                if c.chunk_x > self.bounds.1 {
                    self.bounds.1 = c.chunk_x;
                }
                if c.chunk_z < self.bounds.2 {
                    self.bounds.2 = c.chunk_z;
                }
                if c.chunk_z > self.bounds.3 {
                    self.bounds.3 = c.chunk_z;
                }
                self.chunks.push(c);
                proof {
                    let s = old(self).chunks@;
                    let t = self.chunks@;
                    let last = t.len() - 1;
                    assert forall|i: int| 0 <= i < t.len() implies self.bounds.0 <= #[trigger] t[i].chunk_x
                        <= self.bounds.1 && self.bounds.2 <= t[i].chunk_z <= self.bounds.3 by {
                        if i < t.len() - 1 {
                            assert(old(self).bounds.0 <= t[i].chunk_x <= old(self).bounds.1 && old(
                                self,
                            ).bounds.2 <= t[i].chunk_z <= old(self).bounds.3);
                        }
                    }
                    if self.bounds.0 == c.chunk_x {
                        assert(t[last].chunk_x == self.bounds.0);
                    } else {
                        let w = choose|w: int| 0 <= w < s.len() && #[trigger] s[w].chunk_x == old(
                            self,
                        ).bounds.0;
                        assert(t[w].chunk_x == self.bounds.0);
                    }
                    if self.bounds.1 == c.chunk_x {
                        assert(t[last].chunk_x == self.bounds.1);
                    } else {
                        let w = choose|w: int| 0 <= w < s.len() && #[trigger] s[w].chunk_x == old(
                            self,
                        ).bounds.1;
                        assert(t[w].chunk_x == self.bounds.1);
                    }
                    if self.bounds.2 == c.chunk_z {
                        assert(t[last].chunk_z == self.bounds.2);
                    } else {
                        let w = choose|w: int| 0 <= w < s.len() && #[trigger] s[w].chunk_z == old(
                            self,
                        ).bounds.2;
                        assert(t[w].chunk_z == self.bounds.2);
                    }
                    if self.bounds.3 == c.chunk_z {
                        assert(t[last].chunk_z == self.bounds.3);
                    } else {
                        let w = choose|w: int| 0 <= w < s.len() && #[trigger] s[w].chunk_z == old(
                            self,
                        ).bounds.3;
                        assert(t[w].chunk_z == self.bounds.3);
                    }
                }
            },
        }
    }

    /// Insert a region of chunks, each keyed by its coordinate,
    /// overwriting earlier entries at duplicate coordinates (last write
    /// wins) and widening the bounds as it goes.
    pub fn add_region(&mut self, region: Vec<TerrainChunkState>)
        requires
            old(self).wf(),
            !old(self).finalized,
        ensures
            final(self).wf(),
            !final(self).finalized,
            final(self).center_offset == old(self).center_offset,
            final(self).as_map() == old(self).as_map().union_prefer_right(chunk_map(region@)),
    {
        let ghost orig = region@;
        let ghost m0 = self.as_map();
        let mut rest = region;
        let total = rest.len();
        let mut k: usize = 0;
        while rest.len() > 0
            invariant
                self.wf(),
                !self.finalized,
                self.center_offset == old(self).center_offset,
                total == orig.len(),
                k + rest@.len() == orig.len(),
                rest@ == orig.subrange(k as int, orig.len() as int),
                m0 == old(self).as_map(),
                self.as_map() == m0.union_prefer_right(chunk_map(orig.take(k as int))),
            decreases rest@.len(),
        {
            let c = rest.remove(0);
            proof {
                assert(c == orig[k as int]);
                assert(rest@ =~= orig.subrange(k as int + 1, orig.len() as int));
                assert(orig.take(k as int + 1).drop_last() =~= orig.take(k as int));
                assert(orig.take(k as int + 1).last() == orig[k as int]);
            }
            self.insert_chunk(c);
            proof {
                assert(chunk_map(orig.take(k as int + 1)) == chunk_map(
                    orig.take(k as int),
                ).insert(coord_of(c), c));
                assert(m0.union_prefer_right(chunk_map(orig.take(k as int))).insert(
                    coord_of(c),
                    c,
                ) =~= m0.union_prefer_right(chunk_map(orig.take(k as int + 1))));
            }
            k = k + 1;
        }
        proof {
            assert(orig.take(k as int) =~= orig);
        }
    }

    /// Compute the center offset from the recorded bounds. To be called
    /// exactly once, after all insertions and before any query.
    pub fn finalize(&mut self)
        requires
            old(self).wf(),
            !old(self).finalized,
        ensures
            final(self).wf(),
            final(self).finalized,
            final(self).chunks == old(self).chunks,
            final(self).bounds == old(self).bounds,
            ((final(self).center_offset.0 as int, final(self).center_offset.1 as int)
                == final(self).spec_center_offset()),
    {
        if self.chunks.len() > 0 {
            let sum_x = self.bounds.0 as i64 + self.bounds.1 as i64;
            let sum_z = self.bounds.2 as i64 + self.bounds.3 as i64;
            self.center_offset = (sum_x * 208, sum_z * 208);
        }
        self.finalized = true;
    }

    /// Look the chunk at a grid coordinate up.
    pub fn get_chunk(&self, chunk_x: i32, chunk_z: i32) -> (r: Option<&TerrainChunkState>)
        requires
            self.wf(),
        ensures
            match r {
                Some(c) => self.coord_set().contains((chunk_x as int, chunk_z as int)) && *c
                    == self.as_map()[(chunk_x as int, chunk_z as int)],
                None => !self.coord_set().contains((chunk_x as int, chunk_z as int)),
            },
    {
        proof {
            lemma_chunk_map_dom(self.chunks@);
        }
        let n = self.chunks.len();
        let mut i: usize = 0;
        while i < n
            invariant
                self.wf(),
                n == self.chunks@.len(),
                i <= n,
                forall|j: int|
                    0 <= j < i ==> coord_of(self.chunks@[j]) != (chunk_x as int, chunk_z as int),
            decreases n - i,
        {
            if self.chunks[i].chunk_x == chunk_x && self.chunks[i].chunk_z == chunk_z {
                proof {
                    lemma_chunk_map_get(self.chunks@, i as int);
                }
                return Some(&self.chunks[i]);
            }
            i = i + 1;
        }
        None
    }

    /// The chunk-grid coordinate nearest a world position (camera-local,
    /// translated by the center offset), ties rounded up.
    pub open spec fn spec_camera_chunk(self, center: (i64, i64)) -> (int, int) {
        (
            spec_round_to_chunk(center.0 + self.center_offset.0),
            spec_round_to_chunk(center.1 + self.center_offset.1),
        )
    }

    /// Chunks within a world-space radius of a camera-local center: the
    /// radius is converted to chunk units (rounded to nearest) and the
    /// chunks within that Manhattan distance of the camera's chunk are
    /// returned, in insertion order, as references only.
    pub fn get_chunks_in_radius(&self, center: (i64, i64), radius: i64) -> (r: Vec<
        &TerrainChunkState,
    >)
        requires
            self.wf(),
            self.finalized,
            -POS_LIMIT <= center.0 <= POS_LIMIT,
            -POS_LIMIT <= center.1 <= POS_LIMIT,
            0 <= radius <= POS_LIMIT,
        ensures
            r@.map_values(|c: &TerrainChunkState| *c) == radius_filtered(
                self.chunks@,
                self.spec_camera_chunk(center).0,
                self.spec_camera_chunk(center).1,
                spec_chunk_radius(radius as int),
            ),
    {
        proof {
            self.lemma_center_offset_bounded();
        }
        let ccx = floor_div(center.0 + self.center_offset.0 + 208, CHUNK_WORLD_SIZE);
        let ccz = floor_div(center.1 + self.center_offset.1 + 208, CHUNK_WORLD_SIZE);
        let chunk_radius = (2 * radius + CHUNK_WORLD_SIZE) / (2 * CHUNK_WORLD_SIZE);
        let n = self.chunks.len();
        let mut out: Vec<&TerrainChunkState> = Vec::new();
        let mut k: usize = 0;
        while k < n
            invariant
                self.wf(),
                n == self.chunks@.len(),
                k <= n,
                -0x1_0000_0000_0000 < ccx < 0x1_0000_0000_0000,
                -0x1_0000_0000_0000 < ccz < 0x1_0000_0000_0000,
                0 <= chunk_radius,
                out@.map_values(|c: &TerrainChunkState| *c) == radius_filtered(
                    self.chunks@.take(k as int),
                    ccx as int,
                    ccz as int,
                    chunk_radius as int,
                ),
            decreases n - k,
        {
            let c = &self.chunks[k];
            let dx = abs_i64(c.chunk_x as i64 - ccx);
            let dz = abs_i64(c.chunk_z as i64 - ccz);
            proof {
                assert(self.chunks@.take(k as int + 1).drop_last() =~= self.chunks@.take(
                    k as int,
                ));
            }
            if dx + dz <= chunk_radius {
                out.push(c);
            }
            proof {
                assert(out@.map_values(|c: &TerrainChunkState| *c) =~= radius_filtered(
                    self.chunks@.take(k as int + 1),
                    ccx as int,
                    ccz as int,
                    chunk_radius as int,
                ));
            }
            k = k + 1;
        }
        proof {
            assert(self.chunks@.take(n as int) =~= self.chunks@);
        }
        out
    }

    /// The inclusive chunk rectangle this index's older viewport query
    /// covers: the camera's chunk, extended by half the viewport's chunk
    /// span plus the default padding on each side.
    pub open spec fn spec_query_rect(self, center: (i64, i64), width: int, height: int) -> (
        int,
        int,
        int,
        int,
    ) {
        let ccx = (center.0 + self.center_offset.0) / (CHUNK_WORLD_SIZE as int);
        let ccz = (center.1 + self.center_offset.1) / (CHUNK_WORLD_SIZE as int);
        let half_w = spec_ceil_div(width, CHUNK_WORLD_SIZE as int) / 2 + (
        DEFAULT_CHUNK_PADDING as int);
        let half_h = spec_ceil_div(height, CHUNK_WORLD_SIZE as int) / 2 + (
        DEFAULT_CHUNK_PADDING as int);
        (ccx - half_w, ccx + half_w, ccz - half_h, ccz + half_h)
    }

    /// Chunks within the rectangular viewport of the given world-space
    /// width and height around a camera-local center, in insertion order,
    /// as references only.
    pub fn get_chunks_in_viewport(&self, center: (i64, i64), width: i64, height: i64) -> (r: Vec<
        &TerrainChunkState,
    >)
        requires
            self.wf(),
            self.finalized,
            -POS_LIMIT <= center.0 <= POS_LIMIT,
            -POS_LIMIT <= center.1 <= POS_LIMIT,
            0 <= width <= POS_LIMIT,
            0 <= height <= POS_LIMIT,
        ensures
            r@.map_values(|c: &TerrainChunkState| *c) == rect_filtered(
                self.chunks@,
                self.spec_query_rect(center, width as int, height as int),
            ),
    {
        proof {
            self.lemma_center_offset_bounded();
        }
        let ccx = floor_div(center.0 + self.center_offset.0, CHUNK_WORLD_SIZE);
        let ccz = floor_div(center.1 + self.center_offset.1, CHUNK_WORLD_SIZE);
        let half_w = ceil_div(width, CHUNK_WORLD_SIZE) / 2 + DEFAULT_CHUNK_PADDING;
        let half_h = ceil_div(height, CHUNK_WORLD_SIZE) / 2 + DEFAULT_CHUNK_PADDING;
        let min_x = ccx - half_w;
        let max_x = ccx + half_w;
        let min_z = ccz - half_h;
        let max_z = ccz + half_h;
        let ghost rect = self.spec_query_rect(center, width as int, height as int);
        proof {
            assert(rect == (min_x as int, max_x as int, min_z as int, max_z as int));
        }
        let n = self.chunks.len();
        let mut out: Vec<&TerrainChunkState> = Vec::new();
        let mut k: usize = 0;
        while k < n
            invariant
                self.wf(),
                n == self.chunks@.len(),
                k <= n,
                rect == (min_x as int, max_x as int, min_z as int, max_z as int),
                out@.map_values(|c: &TerrainChunkState| *c) == rect_filtered(
                    self.chunks@.take(k as int),
                    rect,
                ),
            decreases n - k,
        {
            let c = &self.chunks[k];
            proof {
                assert(self.chunks@.take(k as int + 1).drop_last() =~= self.chunks@.take(
                    k as int,
                ));
            }
            let cx = c.chunk_x as i64;
            let cz = c.chunk_z as i64;
            if cx >= min_x && cx <= max_x && cz >= min_z && cz <= max_z {
                out.push(c);
            }
            proof {
                assert(out@.map_values(|c: &TerrainChunkState| *c) =~= rect_filtered(
                    self.chunks@.take(k as int + 1),
                    rect,
                ));
            }
            k = k + 1;
        }
        proof {
            assert(self.chunks@.take(n as int) =~= self.chunks@);
        }
        out
    }

    /// The center offset a well-formed finalized index carries is small
    /// enough for the viewport arithmetic.
    pub proof fn lemma_center_offset_bounded(self)
        requires
            self.wf(),
        ensures
            -0x100_0000_0000_0000 < self.center_offset.0 < 0x100_0000_0000_0000,
            -0x100_0000_0000_0000 < self.center_offset.1 < 0x100_0000_0000_0000,
    {
    }
}

/// The chunk-grid index whose chunk contains a world position, rounded
/// to the nearest chunk boundary (ties toward positive infinity).
pub open spec fn spec_round_to_chunk(v: int) -> int {
    (v + 208) / (CHUNK_WORLD_SIZE as int)
}

/// World radius converted to a chunk-unit radius, rounded to nearest.
pub open spec fn spec_chunk_radius(radius: int) -> int {
    (2 * radius + CHUNK_WORLD_SIZE as int) / (2 * CHUNK_WORLD_SIZE as int)
}

/// Whether a chunk lies within a Manhattan chunk-grid distance of a
/// camera chunk coordinate.
pub open spec fn chunk_in_radius(c: TerrainChunkState, ccx: int, ccz: int, cr: int) -> bool {
    abs(c.chunk_x - ccx) + abs(c.chunk_z - ccz) <= cr
}

/// The subsequence of chunks within a Manhattan chunk-grid radius, in
/// their original order.
pub open spec fn radius_filtered(s: Seq<TerrainChunkState>, ccx: int, ccz: int, cr: int) -> Seq<
    TerrainChunkState,
>
    decreases s.len(),
{
    if s.len() == 0 {
        Seq::empty()
    } else {
        let rest = radius_filtered(s.drop_last(), ccx, ccz, cr);
        if chunk_in_radius(s.last(), ccx, ccz, cr) {
            rest.push(s.last())
        } else {
            rest
        }
    }
}

/// Whether a chunk lies within an inclusive chunk rectangle given as
/// `(min_x, max_x, min_z, max_z)`.
pub open spec fn chunk_in_rect(c: TerrainChunkState, rect: (int, int, int, int)) -> bool {
    rect.0 <= c.chunk_x <= rect.1 && rect.2 <= c.chunk_z <= rect.3
}

/// The subsequence of chunks within an inclusive chunk rectangle, in
/// their original order.
pub open spec fn rect_filtered(s: Seq<TerrainChunkState>, rect: (int, int, int, int)) -> Seq<
    TerrainChunkState,
>
    decreases s.len(),
{
    if s.len() == 0 {
        Seq::empty()
    } else {
        let rest = rect_filtered(s.drop_last(), rect);
        if chunk_in_rect(s.last(), rect) {
            rest.push(s.last())
        } else {
            rest
        }
    }
}

/// Absolute value, for bounded inputs.
fn abs_i64(v: i64) -> (r: i64)
    requires
        v > i64::MIN,
    ensures
        r == abs(v as int),
{
    if v < 0 {
        -v
    } else {
        v
    }
}

} // verus!
