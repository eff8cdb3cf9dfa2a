//! Conversion of a continuous camera pose into an inclusive chunk-grid
//! rectangle, clamped to the known world bounds.
//!
//! World positions are integer world units. The camera zoom is a
//! fixed-point scale: a zoom of one is [`ZOOM_UNIT`].

use crate::world_data::CHUNK_WORLD_SIZE;
use vstd::arithmetic::div_mod::lemma_div_is_ordered;
use vstd::arithmetic::div_mod::lemma_fundamental_div_mod;
use vstd::arithmetic::div_mod::lemma_fundamental_div_mod_converse;
use vstd::prelude::*;

verus! {

/// Fixed-point denominator for the camera zoom scale: a zoom of `1.0`
/// is represented as `ZOOM_UNIT`.
pub const ZOOM_UNIT: i64 = 1000;

/// Largest magnitude accepted for a camera world coordinate.
pub const POS_LIMIT: i64 = 1_000_000_000;

/// Largest accepted fixed-point zoom scale.
pub const ZOOM_LIMIT: i64 = 1_000_000_000;

/// Default padding around the viewport rectangle, in chunk units, for
/// smooth loading at the edges.
pub const DEFAULT_CHUNK_PADDING: i64 = 3;

/// Division rounding toward negative infinity. For a positive divisor
/// this coincides with the Euclidean `/` of spec arithmetic.
pub fn floor_div(a: i64, b: i64) -> (r: i64)
    requires
        b > 0,
        -0x2000_0000_0000_0000 < a < 0x2000_0000_0000_0000,
    ensures
        r == a as int / b as int,
        a >= 0 ==> 0 <= r <= a,
        a < 0 ==> a <= r <= 0,
{
    let q = a / b;
    let rem = a % b;
    proof {
        let ai = a as int;
        let bi = b as int;
        if a >= 0 {
            lemma_fundamental_div_mod(ai, bi);
            assert(0 <= ai / bi <= ai) by (nonlinear_arith)
                requires
                    ai >= 0,
                    bi > 0,
                    ai == bi * (ai / bi) + ai % bi,
                    0 <= ai % bi < bi,
            ;
        } else {
            let p = -ai;
            lemma_fundamental_div_mod(p, bi);
            if p % bi == 0 {
                assert(ai == (-(p / bi)) * bi + 0) by (nonlinear_arith)
                    requires
                        p == bi * (p / bi) + p % bi,
                        p % bi == 0,
                        p == -ai,
                ;
                lemma_fundamental_div_mod_converse(ai, bi, -(p / bi), 0);
            } else {
                assert(ai == (-(p / bi) - 1) * bi + (bi - p % bi)) by (nonlinear_arith)
                    requires
                        p == bi * (p / bi) + p % bi,
                        p == -ai,
                ;
                lemma_fundamental_div_mod_converse(ai, bi, -(p / bi) - 1, bi - p % bi);
            }
            lemma_fundamental_div_mod(ai, bi);
            assert(ai <= ai / bi <= 0) by (nonlinear_arith)
                requires
                    ai < 0,
                    bi > 0,
                    ai == bi * (ai / bi) + ai % bi,
                    0 <= ai % bi < bi,
            ;
        }
    }
    if rem != 0 && a < 0 {
        q - 1
    } else {
        q
    }
}

/// Ceiling division of spec arithmetic, for a positive divisor.
pub open spec fn spec_ceil_div(a: int, b: int) -> int {
    -((-a) / b)
}

/// Division rounding toward positive infinity.
pub fn ceil_div(a: i64, b: i64) -> (r: i64)
    requires
        b > 0,
        -0x2000_0000_0000_0000 < a < 0x2000_0000_0000_0000,
    ensures
        r == spec_ceil_div(a as int, b as int),
        a >= 0 ==> 0 <= r <= a,
        a < 0 ==> a <= r <= 0,
{
    let f = floor_div(-a, b);
    -f
}

/// Tunable parameters of the streaming engine. Invalid values (zero or
/// negative, or beyond the arithmetic limits) are a configuration error
/// and are rejected at construction time, before any streaming begins.
#[derive(Clone, Copy, PartialEq, Eq, Structural, Debug)]
pub struct ViewportConfig {
    /// Approximate window extent the viewport is sized from, in pixels.
    pub window_size: i64,
    /// Multiplier trading recall (chunks kept ready) against footprint.
    pub scale_factor: i64,
    /// Padding around the viewport rectangle, in chunk units.
    pub chunk_padding: i64,
    /// Camera movement, in world units, below which no recompute runs.
    pub movement_threshold: i64,
    /// Zoom change, in fixed-point zoom units, below which no recompute
    /// runs.
    pub zoom_threshold: i64,
}

impl ViewportConfig {
    /// Validity of a configuration: every knob positive and small enough
    /// for the viewport arithmetic.
    pub open spec fn wf(self) -> bool {
        &&& 0 < self.window_size <= 100_000
        &&& 0 < self.scale_factor <= 10_000
        &&& 0 < self.chunk_padding <= 1_000_000
        &&& 0 < self.movement_threshold <= POS_LIMIT
        &&& 0 < self.zoom_threshold <= ZOOM_LIMIT
    }

    /// Build a configuration, rejecting invalid knobs up front (a
    /// configuration error fails at startup, never mid-stream).
    pub fn new(
        window_size: i64,
        scale_factor: i64,
        chunk_padding: i64,
        movement_threshold: i64,
        zoom_threshold: i64,
    ) -> (r: Option<ViewportConfig>)
        ensures
            match r {
                Some(c) => c == (ViewportConfig {
                    window_size,
                    scale_factor,
                    chunk_padding,
                    movement_threshold,
                    zoom_threshold,
                }) && c.wf(),
                None => !(ViewportConfig {
                    window_size,
                    scale_factor,
                    chunk_padding,
                    movement_threshold,
                    zoom_threshold,
                }).wf(),
            },
    {
        let c = ViewportConfig {
            window_size,
            scale_factor,
            chunk_padding,
            movement_threshold,
            zoom_threshold,
        };
        if 0 < window_size && window_size <= 100_000 && 0 < scale_factor && scale_factor <= 10_000
            && 0 < chunk_padding && chunk_padding <= 1_000_000 && 0 < movement_threshold
            && movement_threshold <= POS_LIMIT && 0 < zoom_threshold && zoom_threshold
            <= ZOOM_LIMIT {
            Some(c)
        } else {
            None
        }
    }
}

impl Default for ViewportConfig {
    /// The default tuning: a 1000-pixel window, a recall factor of 25,
    /// 3 chunks of padding, a movement threshold of 100 world units and
    /// a zoom threshold of 0.05 (50 fixed-point units).
    fn default() -> (r: ViewportConfig)
        ensures
            r == (ViewportConfig {
                window_size: 1000,
                scale_factor: 25,
                chunk_padding: DEFAULT_CHUNK_PADDING,
                movement_threshold: 100,
                zoom_threshold: 50,
            }),
            r.wf(),
    {
        ViewportConfig {
            window_size: 1000,
            scale_factor: 25,
            chunk_padding: DEFAULT_CHUNK_PADDING,
            movement_threshold: 100,
            zoom_threshold: 50,
        }
    }
}

/// A camera pose sampled at one tick: camera-local world position and
/// fixed-point zoom scale.
#[derive(Clone, Copy, PartialEq, Eq, Structural, Debug)]
pub struct ViewportPose {
    pub x: i64,
    pub z: i64,
    pub zoom: i64,
}

impl ViewportPose {
    /// A pose the engine accepts: bounded position, positive bounded
    /// zoom.
    pub open spec fn wf(self) -> bool {
        &&& -POS_LIMIT <= self.x <= POS_LIMIT
        &&& -POS_LIMIT <= self.z <= POS_LIMIT
        &&& 0 < self.zoom <= ZOOM_LIMIT
    }

    /// Whether a pose lies within the accepted bounds; callers test this
    /// before handing a pose to the engine.
    pub fn in_bounds(&self) -> (r: bool)
        ensures
            r == self.wf(),
    {
        -POS_LIMIT <= self.x && self.x <= POS_LIMIT && -POS_LIMIT <= self.z && self.z <= POS_LIMIT
            && 0 < self.zoom && self.zoom <= ZOOM_LIMIT
    }
}

/// An inclusive rectangle of chunk-grid coordinates.
#[derive(Clone, Copy, PartialEq, Eq, Structural, Debug)]
pub struct ChunkRect {
    pub min_x: i64,
    pub max_x: i64,
    pub min_z: i64,
    pub max_z: i64,
}

impl ChunkRect {
    /// Whether a chunk coordinate lies within the rectangle.
    pub open spec fn contains(self, p: (int, int)) -> bool {
        self.min_x <= p.0 <= self.max_x && self.min_z <= p.1 <= self.max_z
    }

    /// The rectangle read as a quadruple `(min_x, max_x, min_z, max_z)`.
    pub open spec fn as_tuple(self) -> (int, int, int, int) {
        (self.min_x as int, self.max_x as int, self.min_z as int, self.max_z as int)
    }
}

/// Clamping into an inclusive range.
pub open spec fn spec_clamp(v: int, lo: int, hi: int) -> int {
    if v < lo {
        lo
    } else if v > hi {
        hi
    } else {
        v
    }
}

/// Division truncating toward zero, as the hardware division does.
pub open spec fn spec_trunc_div(a: int, b: int) -> int {
    if a >= 0 {
        a / b
    } else {
        -((-a) / b)
    }
}

/// The viewport half-extent in world units for a zoom scale: the window
/// extent scaled by the zoom and the recall factor, halved (the divisor
/// `2000` is twice `ZOOM_UNIT`).
pub open spec fn spec_half_extent(cfg: ViewportConfig, zoom: int) -> int {
    (cfg.window_size * cfg.scale_factor * zoom) / 2000
}

/// One axis of the viewport rectangle: the viewport edges are converted
/// to chunk units (floor for the low edge, ceiling for the high one),
/// padded, translated by the world-center chunk offset, clamped to the
/// world bounds of the axis, and finally collapsed onto the high bound
/// if clamping crossed the edges.
pub open spec fn spec_axis_range(
    cfg: ViewportConfig,
    pos: int,
    half: int,
    offset_chunks: int,
    lo: int,
    hi: int,
) -> (int, int) {
    let lo_edge = (pos - half) / (CHUNK_WORLD_SIZE as int);
    let hi_edge = spec_ceil_div(pos + half, CHUNK_WORLD_SIZE as int);
    let a = spec_clamp(lo_edge - cfg.chunk_padding + offset_chunks, lo, hi);
    let b = spec_clamp(hi_edge + cfg.chunk_padding + offset_chunks, lo, hi);
    (
        if a > b {
            b
        } else {
            a
        },
        b,
    )
}

/// The viewport rectangle for a camera pose: both axes of
/// `spec_axis_range`, with the center offset expressed in chunk units by
/// truncating division.
pub open spec fn spec_viewport_rect(
    cfg: ViewportConfig,
    pose: ViewportPose,
    bounds: (int, int, int, int),
    center_offset: (int, int),
) -> (int, int, int, int) {
    let half = spec_half_extent(cfg, pose.zoom as int);
    let x_range = spec_axis_range(
        cfg,
        pose.x as int,
        half,
        spec_trunc_div(center_offset.0, CHUNK_WORLD_SIZE as int),
        bounds.0,
        bounds.1,
    );
    let z_range = spec_axis_range(
        cfg,
        pose.z as int,
        half,
        spec_trunc_div(center_offset.1, CHUNK_WORLD_SIZE as int),
        bounds.2,
        bounds.3,
    );
    (x_range.0, x_range.1, z_range.0, z_range.1)
}

/// Clamping into an inclusive range, executably.
fn clamp_i64(v: i64, lo: i64, hi: i64) -> (r: i64)
    ensures
        r == spec_clamp(v as int, lo as int, hi as int),
{
    if v < lo {
        lo
    } else if v > hi {
        hi
    } else {
        v
    }
}

/// The ceiling is the floor, plus one exactly when the division is inexact.
pub proof fn lemma_ceil_div_floor(a: int, b: int)
    requires
        b > 0,
    ensures
        a % b == 0 ==> spec_ceil_div(a, b) == a / b,
        a % b != 0 ==> spec_ceil_div(a, b) == a / b + 1,
{
    lemma_fundamental_div_mod(a, b);
    if a % b == 0 {
        assert(-a == (-(a / b)) * b + 0) by (nonlinear_arith)
            requires
                a == b * (a / b) + a % b,
                a % b == 0,
        ;
        lemma_fundamental_div_mod_converse(-a, b, -(a / b), 0);
    } else {
        assert(-a == (-(a / b) - 1) * b + (b - a % b)) by (nonlinear_arith)
            requires
                a == b * (a / b) + a % b,
        ;
        lemma_fundamental_div_mod_converse(-a, b, -(a / b) - 1, b - a % b);
    }
}

/// Compute the inclusive viewport rectangle for a camera pose, against
/// the world bounds and world-space center offset of the world index.
/// The result is clamped into the bounds and is never degenerate:
/// a camera entirely outside the world collapses the rectangle onto the
/// nearest valid edge rather than emptying it.
pub fn compute_viewport_rect(
    cfg: &ViewportConfig,
    pose: &ViewportPose,
    bounds: (i32, i32, i32, i32),
    center_offset: (i64, i64),
) -> (r: ChunkRect)
    requires
        cfg.wf(),
        pose.wf(),
        -0x100_0000_0000_0000 < center_offset.0 < 0x100_0000_0000_0000,
        -0x100_0000_0000_0000 < center_offset.1 < 0x100_0000_0000_0000,
    ensures
        r.as_tuple() == spec_viewport_rect(
            *cfg,
            *pose,
            (bounds.0 as int, bounds.1 as int, bounds.2 as int, bounds.3 as int),
            (center_offset.0 as int, center_offset.1 as int),
        ),
        r.min_x <= r.max_x,
        r.min_z <= r.max_z,
        bounds.0 <= bounds.1 ==> bounds.0 <= r.min_x && r.max_x <= bounds.1,
        bounds.2 <= bounds.3 ==> bounds.2 <= r.min_z && r.max_z <= bounds.3,
{
    proof {
        assert(0 < cfg.window_size * cfg.scale_factor <= 1_000_000_000 && cfg.window_size
            * cfg.scale_factor * pose.zoom <= 1_000_000_000_000_000_000 && cfg.window_size
            * cfg.scale_factor * pose.zoom > 0) by (nonlinear_arith)
            requires
                0 < cfg.window_size <= 100_000,
                0 < cfg.scale_factor <= 10_000,
                0 < pose.zoom <= ZOOM_LIMIT,
        ;
    }
    let half = cfg.window_size * cfg.scale_factor * pose.zoom / 2000;
    let ccx = center_offset.0 / CHUNK_WORLD_SIZE;
    let ccz = center_offset.1 / CHUNK_WORLD_SIZE;
    let lo_x = floor_div(pose.x - half, CHUNK_WORLD_SIZE);
    let hi_x = ceil_div(pose.x + half, CHUNK_WORLD_SIZE);
    let lo_z = floor_div(pose.z - half, CHUNK_WORLD_SIZE);
    let hi_z = ceil_div(pose.z + half, CHUNK_WORLD_SIZE);
    let a_x = clamp_i64(lo_x - cfg.chunk_padding + ccx, bounds.0 as i64, bounds.1 as i64);
    let b_x = clamp_i64(hi_x + cfg.chunk_padding + ccx, bounds.0 as i64, bounds.1 as i64);
    let a_z = clamp_i64(lo_z - cfg.chunk_padding + ccz, bounds.2 as i64, bounds.3 as i64);
    let b_z = clamp_i64(hi_z + cfg.chunk_padding + ccz, bounds.2 as i64, bounds.3 as i64);
    let min_x = if a_x > b_x {
        b_x
    } else {
        a_x
    };
    let min_z = if a_z > b_z {
        b_z
    } else {
        a_z
    };
    ChunkRect { min_x, max_x: b_x, min_z, max_z: b_z }
}

/// Growing the viewport half-extent while the camera stands still can
/// only widen each axis of the rectangle.
proof fn lemma_axis_range_monotone(
    cfg: ViewportConfig,
    pos: int,
    half1: int,
    half2: int,
    offset_chunks: int,
    lo: int,
    hi: int,
)
    requires
        0 <= half1 <= half2,
        0 <= cfg.chunk_padding,
        lo <= hi,
    ensures
        spec_axis_range(cfg, pos, half2, offset_chunks, lo, hi).0 <= spec_axis_range(
            cfg,
            pos,
            half1,
            offset_chunks,
            lo,
            hi,
        ).0,
        spec_axis_range(cfg, pos, half1, offset_chunks, lo, hi).1 <= spec_axis_range(
            cfg,
            pos,
            half2,
            offset_chunks,
            lo,
            hi,
        ).1,
{
    let c = CHUNK_WORLD_SIZE as int;
    lemma_div_is_ordered(pos - half2, pos - half1, c);
    lemma_div_is_ordered(-(pos + half2), -(pos + half1), c);
    lemma_div_is_ordered(pos - half1, pos + half1, c);
    lemma_div_is_ordered(pos - half2, pos + half2, c);
    lemma_ceil_div_floor(pos + half1, c);
    lemma_ceil_div_floor(pos + half2, c);
}

/// The viewport half-extent grows with the zoom scale.
proof fn lemma_half_extent_monotone(cfg: ViewportConfig, zoom1: int, zoom2: int)
    requires
        cfg.wf(),
        0 < zoom1 <= zoom2,
    ensures
        0 <= spec_half_extent(cfg, zoom1) <= spec_half_extent(cfg, zoom2),
{
    assert(0 < cfg.window_size * cfg.scale_factor * zoom1 <= cfg.window_size * cfg.scale_factor
        * zoom2) by (nonlinear_arith)
        requires
            0 < cfg.window_size,
            0 < cfg.scale_factor,
            0 < zoom1 <= zoom2,
    ;
    lemma_div_is_ordered(
        cfg.window_size * cfg.scale_factor * zoom1,
        cfg.window_size * cfg.scale_factor * zoom2,
        2000,
    );
    lemma_div_is_ordered(0, cfg.window_size * cfg.scale_factor * zoom1, 2000);
}

/// Rectangle monotonicity: increasing the zoom while the camera position
/// is fixed only grows the viewport rectangle, never shrinks it — every
/// chunk coordinate the narrower rectangle covers, the wider one covers
/// too.
pub proof fn lemma_viewport_rect_zoom_monotone(
    cfg: ViewportConfig,
    pose1: ViewportPose,
    pose2: ViewportPose,
    bounds: (int, int, int, int),
    center_offset: (int, int),
)
    requires
        cfg.wf(),
        pose1.wf(),
        pose2.wf(),
        pose1.x == pose2.x,
        pose1.z == pose2.z,
        pose1.zoom <= pose2.zoom,
        bounds.0 <= bounds.1,
        bounds.2 <= bounds.3,
    ensures
        spec_viewport_rect(cfg, pose2, bounds, center_offset).0 <= spec_viewport_rect(
            cfg,
            pose1,
            bounds,
            center_offset,
        ).0,
        spec_viewport_rect(cfg, pose1, bounds, center_offset).1 <= spec_viewport_rect(
            cfg,
            pose2,
            bounds,
            center_offset,
        ).1,
        spec_viewport_rect(cfg, pose2, bounds, center_offset).2 <= spec_viewport_rect(
            cfg,
            pose1,
            bounds,
            center_offset,
        ).2,
        spec_viewport_rect(cfg, pose1, bounds, center_offset).3 <= spec_viewport_rect(
            cfg,
            pose2,
            bounds,
            center_offset,
        ).3,
{
    let half1 = spec_half_extent(cfg, pose1.zoom as int);
    let half2 = spec_half_extent(cfg, pose2.zoom as int);
    lemma_half_extent_monotone(cfg, pose1.zoom as int, pose2.zoom as int);
    let ox = spec_trunc_div(center_offset.0, CHUNK_WORLD_SIZE as int);
    let oz = spec_trunc_div(center_offset.1, CHUNK_WORLD_SIZE as int);
    lemma_axis_range_monotone(cfg, pose1.x as int, half1, half2, ox, bounds.0, bounds.1);
    lemma_axis_range_monotone(cfg, pose1.z as int, half1, half2, oz, bounds.2, bounds.3);
}

} // verus!
