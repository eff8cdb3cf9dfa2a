//! Terrain chunks and their per-cell decomposition.
//!
//! A chunk is a square tile of world terrain whose per-cell attributes are
//! stored as parallel flat arrays, one entry per cell. The per-side cell
//! count is the integer square root of the cell count.

use vstd::arithmetic::div_mod::lemma_fundamental_div_mod_converse;
use vstd::prelude::*;

verus! {

/// The terrain biomes a cell can belong to.
#[derive(Clone, PartialEq, Eq, Structural, Debug, Copy, Hash)]
pub enum Biome {
    Dev,
    CalmForest,
    PineWoods,
    SnowyPeaks,
    BreezyPlains,
    AutumnForest,
    Tundra,
    Desert,
    Swamp,
    Canyon,
    Ocean,
    SafeMeadows,
    Cave,
    Jungle,
    Sapwoods,
}

/// One grid position of a chunk, with world-space integer coordinates and
/// the terrain attributes read from the chunk's flat arrays. A value type:
/// cells are derived on demand, never stored.
#[derive(Clone, PartialEq, Eq, Structural, Debug, Copy, Hash)]
pub struct Cell {
    pub cell_x: i32,
    pub cell_z: i32,
    pub biome: u32,
    pub elevation: i16,
}

/// A loaded terrain chunk: its grid coordinate and the parallel per-cell
/// attribute arrays. Immutable once loaded.
#[derive(Clone, PartialEq, Debug)]
pub struct TerrainChunkState {
    pub chunk_index: u64,
    pub chunk_x: i32,
    pub chunk_z: i32,
    pub dimension: u32,
    pub biomes: Vec<u32>,
    pub biome_density: Vec<u32>,
    pub elevations: Vec<i16>,
    pub water_levels: Vec<i16>,
    pub water_body_types: Vec<u8>,
    pub zoning_types: Vec<u8>,
    pub original_elevations: Vec<i16>,
}

/// Largest `r` with `r * r <= n`: the floor of the square root.
pub open spec fn spec_isqrt(n: nat) -> nat
    decreases n,
{
    if n == 0 {
        0
    } else {
        let r = spec_isqrt((n - 1) as nat);
        if (r + 1) * (r + 1) <= n {
            r + 1
        } else {
            r
        }
    }
}

/// `spec_isqrt` indeed brackets `n` between two consecutive squares.
#[verifier::rlimit(30)]
pub proof fn lemma_isqrt_bounds(n: nat)
    ensures
        spec_isqrt(n) * spec_isqrt(n) <= n,
        n < (spec_isqrt(n) + 1) * (spec_isqrt(n) + 1),
    decreases n,
{
    if n > 0 {
        let m = (n - 1) as nat;
        lemma_isqrt_bounds(m);
        let r = spec_isqrt(m);
        if (r + 1) * (r + 1) <= n {
            assert(spec_isqrt(n) == r + 1);
            assert(n < (r + 2) * (r + 2)) by (nonlinear_arith)
                requires
                    n <= (r + 1) * (r + 1),
            ;
        } else {
            assert(spec_isqrt(n) == r);
            assert(r * r <= m);
        }
    } else {
        assert(spec_isqrt(n) == 0);
        assert(n < (spec_isqrt(n) + 1) * (spec_isqrt(n) + 1)) by (nonlinear_arith)
            requires
                n == 0,
                spec_isqrt(n) == 0,
        ;
    }
}

/// Any `r` bracketing `n` between `r * r` and `(r + 1) * (r + 1)` is the
/// floor of the square root.
pub proof fn lemma_isqrt_unique(n: nat, r: nat)
    requires
        r * r <= n,
        n < (r + 1) * (r + 1),
    ensures
        r == spec_isqrt(n),
{
    let s = spec_isqrt(n);
    lemma_isqrt_bounds(n);
    if r < s {
        assert((r + 1) * (r + 1) <= s * s) by (nonlinear_arith)
            requires
                r + 1 <= s,
        ;
    }
    if r > s {
        assert((s + 1) * (s + 1) <= r * r) by (nonlinear_arith)
            requires
                s + 1 <= r,
        ;
    }
}

/// Floor of the square root, by linear search from below.
pub fn isqrt(n: usize) -> (r: usize)
    ensures
        r == spec_isqrt(n as nat),
{
    let mut r: usize = 0;
    loop
        invariant
            r * r <= n,
            r <= n,
            r <= 0xFFFF_FFFF,
        ensures
            r * r <= n < (r + 1) * (r + 1),
        decreases n - r,
    {
        let next = r as u128 + 1;
        proof {
            assert(next * next < 0xFFFF_FFFF_FFFF_FFFF_FFFF_FFFF_FFFF_FFFF) by (nonlinear_arith)
                requires
                    next <= 0x1_0000_0000,
            ;
        }
        if next * next > n as u128 {
            break;
        }
        proof {
            assert(r + 1 <= (r + 1) * (r + 1)) by (nonlinear_arith);
            assert((r + 1) * (r + 1) < 0x1_0000_0000_0000_0000 ==> r + 1
                <= 0xFFFF_FFFF) by (nonlinear_arith);
        }
        r = r + 1;
    }
    proof {
        lemma_isqrt_unique(n as nat, r as nat);
    }
    r
}

impl TerrainChunkState {
    /// Data-integrity condition on the parallel arrays: every per-cell
    /// array holds exactly one entry per cell of the biome array.
    pub open spec fn arrays_consistent(self) -> bool {
        &&& self.biome_density@.len() == self.biomes@.len()
        &&& self.elevations@.len() == self.biomes@.len()
        &&& self.water_levels@.len() == self.biomes@.len()
        &&& self.water_body_types@.len() == self.biomes@.len()
        &&& self.zoning_types@.len() == self.biomes@.len()
        &&& self.original_elevations@.len() == self.biomes@.len()
    }

    /// The per-side cell count: floor of the square root of the cell count.
    pub open spec fn spec_side(self) -> nat {
        spec_isqrt(self.biomes@.len())
    }

    /// A chunk is valid when its parallel arrays are length-consistent and
    /// its cell count is a perfect square.
    pub open spec fn spec_valid(self) -> bool {
        &&& self.arrays_consistent()
        &&& self.spec_side() * self.spec_side() == self.biomes@.len()
    }

    /// The cell the decomposition yields at flat position `k` of the
    /// row-major order: local coordinates `(k / side, k % side)`.
    pub open spec fn spec_cell(self, k: int) -> Cell {
        let side = self.spec_side() as int;
        Cell {
            cell_x: (side * (self.chunk_x as int) + k / side) as i32,
            cell_z: (side * (self.chunk_z as int) + k % side) as i32,
            biome: self.biomes@[k],
            elevation: self.elevations@[k],
        }
    }

    /// Whether the world coordinates of every cell of this chunk fit in
    /// the cell coordinate type (a machine limit, not a data rule).
    pub open spec fn cell_coords_in_range(self) -> bool {
        let side = self.spec_side() as int;
        &&& i32::MIN <= side * (self.chunk_x as int)
        &&& side * (self.chunk_x as int) + side <= i32::MAX as int + 1
        &&& i32::MIN <= side * (self.chunk_z as int)
        &&& side * (self.chunk_z as int) + side <= i32::MAX as int + 1
    }

    /// Decompose the chunk into one cell per grid position, in row-major
    /// order (outer loop over local x, inner loop over local z). The world
    /// coordinate of local `(i, j)` is
    /// `(side * chunk_x + i, side * chunk_z + j)`.
    ///
    /// A chunk whose parallel arrays disagree in length is a data error:
    /// the decomposition yields no cells at all rather than coercing it.
    pub fn cells(&self) -> (r: Vec<Cell>)
        requires
            self.cell_coords_in_range(),
        ensures
            !self.arrays_consistent() ==> r@ == Seq::<Cell>::empty(),
            self.arrays_consistent() ==> r@.len() == self.spec_side() * self.spec_side(),
            self.arrays_consistent() ==> forall|k: int|
                0 <= k < r@.len() ==> r@[k] == self.spec_cell(k),
    {
        let len = self.biomes.len();
        if !(self.biome_density.len() == len && self.elevations.len() == len
            && self.water_levels.len() == len && self.water_body_types.len() == len
            && self.zoning_types.len() == len && self.original_elevations.len() == len) {
            let r: Vec<Cell> = Vec::new();
            return r;
        }
        let side = isqrt(len);
        proof {
            lemma_isqrt_bounds(len as nat);
            assert(side * side <= len && len < 0x1_0000_0000_0000_0000 ==> side
                < 0x1_0000_0000) by (nonlinear_arith);
        }
        let mut cells: Vec<Cell> = Vec::new();
        let mut i: usize = 0;
        while i < side
            invariant
                self.arrays_consistent(),
                self.cell_coords_in_range(),
                len == self.biomes@.len(),
                side == self.spec_side(),
                side * side <= len,
                side < 0x1_0000_0000,
                i <= side,
                cells@.len() == i * side,
                forall|k: int| 0 <= k < cells@.len() ==> cells@[k] == self.spec_cell(k),
            decreases side - i,
        {
            let mut j: usize = 0;
            proof {
                assert(i * side + side <= side * side) by (nonlinear_arith)
                    requires
                        i < side,
                ;
            }
            while j < side
                invariant
                    self.arrays_consistent(),
                    self.cell_coords_in_range(),
                    len == self.biomes@.len(),
                    side == self.spec_side(),
                    side * side <= len,
                    side < 0x1_0000_0000,
                    i < side,
                    j <= side,
                    i * side + side <= side * side,
                    cells@.len() == i * side + j,
                    forall|k: int| 0 <= k < cells@.len() ==> cells@[k] == self.spec_cell(k),
                decreases side - j,
            {
                let idx = i * side + j;
                let cell_x = (side as i64) * (self.chunk_x as i64) + i as i64;
                let cell_z = (side as i64) * (self.chunk_z as i64) + j as i64;
                proof {
                    lemma_fundamental_div_mod_converse(
                        idx as int,
                        side as int,
                        i as int,
                        j as int,
                    );
                    assert(0 <= i * (side as int) && i * (side as int) <= (side as int) * (
                    side as int) - (side as int)) by (nonlinear_arith)
                        requires
                            0 <= i < side,
                    ;
                }
                cells.push(
                    Cell {
                        cell_x: cell_x as i32,
                        cell_z: cell_z as i32,
                        biome: self.biomes[idx],
                        elevation: self.elevations[idx],
                    },
                );
                j = j + 1;
            }
            proof {
                assert((i + 1) * side == i * side + side) by (nonlinear_arith);
            }
            i = i + 1;
        }
        proof {
            assert(side * side == self.spec_side() * self.spec_side());
        }
        cells
    }

    /// Row-major reading of the decomposition: the cell at flat position
    /// `i * side + j` is the cell of local grid position `(i, j)`, and that
    /// position lies inside the decomposed range.
    pub proof fn lemma_cell_row_major(self, i: int, j: int)
        requires
            0 <= i < self.spec_side(),
            0 <= j < self.spec_side(),
        ensures
            0 <= i * self.spec_side() + j < self.spec_side() * self.spec_side(),
            self.spec_cell(i * self.spec_side() + j) == (Cell {
                cell_x: (self.spec_side() * self.chunk_x + i) as i32,
                cell_z: (self.spec_side() * self.chunk_z + j) as i32,
                biome: self.biomes@[i * self.spec_side() + j],
                elevation: self.elevations@[i * self.spec_side() + j],
            }),
    {
        let side = self.spec_side() as int;
        assert(0 <= i * side + j && i * side + j < side * side) by (nonlinear_arith)
            requires
                0 <= i < side,
                0 <= j < side,
        ;
        lemma_fundamental_div_mod_converse(i * side + j, side, i, j);
        assert((self.spec_side() as int) * (self.chunk_x as int) == self.spec_side()
            * self.chunk_x);
    }

    /// Data-integrity check a loader applies before insertion: a chunk that
    /// fails it is rejected alone, without aborting the rest of the load.
    pub fn validate(&self) -> (r: bool)
        ensures
            r == self.spec_valid(),
    {
        let side = isqrt(self.biomes.len());
        proof {
            lemma_isqrt_bounds(self.biomes@.len());
        }
        self.biome_density.len() == self.biomes.len()
            && self.elevations.len() == self.biomes.len()
            && self.water_levels.len() == self.biomes.len()
            && self.water_body_types.len() == self.biomes.len()
            && self.zoning_types.len() == self.biomes.len()
            && self.original_elevations.len() == self.biomes.len()
            && side * side == self.biomes.len()
    }
}

/// Whether a chunk sits at the origin grid coordinate `(0, 0)`.
pub open spec fn is_origin_chunk(c: TerrainChunkState) -> bool {
    c.chunk_x == 0 && c.chunk_z == 0
}

/// Whether the pre-insertion filter keeps the chunk at position `j` of a
/// raw region: origin-coordinate chunks are kept only as the region's
/// first entry, everything else is kept unconditionally.
pub open spec fn keeps_chunk(s: Seq<TerrainChunkState>, j: int) -> bool {
    !is_origin_chunk(s[j]) || j == 0
}

/// The filtered form of the first `i` entries of a raw region, in order.
pub open spec fn origin_filtered_prefix(s: Seq<TerrainChunkState>, i: int) -> Seq<
    TerrainChunkState,
>
    decreases i,
{
    if i <= 0 {
        Seq::empty()
    } else {
        let rest = origin_filtered_prefix(s, i - 1);
        if keeps_chunk(s, i - 1) {
            rest.push(s[i - 1])
        } else {
            rest
        }
    }
}

/// The filtered form of a whole raw region.
pub open spec fn origin_filtered(s: Seq<TerrainChunkState>) -> Seq<TerrainChunkState> {
    origin_filtered_prefix(s, s.len() as int)
}

/// Pre-insertion filter policy for raw region data: duplicate chunks at
/// the origin coordinate are a known data-quality issue, and only the
/// region's first entry may claim that coordinate. Chunks elsewhere pass
/// through unchanged, in their input order.
pub fn filter_origin_duplicates(region: Vec<TerrainChunkState>) -> (r: Vec<TerrainChunkState>)
    ensures
        r@ == origin_filtered(region@),
{
    let ghost orig = region@;
    let mut rest = region;
    let total = rest.len();
    let mut out: Vec<TerrainChunkState> = Vec::new();
    let mut k: usize = 0;
    while rest.len() > 0
        invariant
            total == orig.len(),
            k + rest@.len() == orig.len(),
            rest@ == orig.subrange(k as int, orig.len() as int),
            out@ == origin_filtered_prefix(orig, k as int),
        decreases rest@.len(),
    {
        let c = rest.remove(0);
        proof {
            assert(c == orig[k as int]);
            assert(rest@ =~= orig.subrange(k as int + 1, orig.len() as int));
        }
        if !(c.chunk_x == 0 && c.chunk_z == 0) || k == 0 {
            out.push(c);
        }
        k = k + 1;
    }
    proof {
        assert(out@ == origin_filtered(orig));
    }
    out
}

} // verus!
