//! Hysteresis-driven recomputation and active-set reconciliation: the
//! per-tick decision which chunks to spawn and which to despawn.

use crate::viewport::ChunkRect;
use crate::viewport::ViewportConfig;
use crate::viewport::ViewportPose;
use crate::viewport::compute_viewport_rect;
use crate::viewport::spec_viewport_rect;
use crate::world_data::WorldData;
use crate::world_data::lemma_chunk_map_dom;
use vstd::math::abs;
use vstd::prelude::*;

verus! {

/// The chunk coordinates of a coordinate list, as a set.
pub open spec fn coord_seq_set(s: Seq<(i32, i32)>) -> Set<(int, int)> {
    s.map_values(|c: (i32, i32)| (c.0 as int, c.1 as int)).to_set()
}

/// Membership in `coord_seq_set` is existence of a matching entry.
pub proof fn lemma_coord_seq_set_membership(s: Seq<(i32, i32)>, q: (int, int))
    ensures
        coord_seq_set(s).contains(q) <==> exists|k: int|
            0 <= k < s.len() && ((#[trigger] s[k]).0 as int, s[k].1 as int) == q,
{
    let m = s.map_values(|c: (i32, i32)| (c.0 as int, c.1 as int));
    if coord_seq_set(s).contains(q) {
        let k = choose|k: int| 0 <= k < m.len() && m[k] == q;
        assert((s[k].0 as int, s[k].1 as int) == q);
    }
    if exists|k: int| 0 <= k < s.len() && ((#[trigger] s[k]).0 as int, s[k].1 as int) == q {
        let k = choose|k: int| 0 <= k < s.len() && ((#[trigger] s[k]).0 as int, s[k].1 as int)
            == q;
        assert(m[k] == q);
        assert(m.contains(q));
    }
}

/// Appending one coordinate inserts it into the coordinate set.
pub proof fn lemma_coord_seq_set_push(s: Seq<(i32, i32)>, c: (i32, i32))
    ensures
        coord_seq_set(s.push(c)) == coord_seq_set(s).insert((c.0 as int, c.1 as int)),
{
    let f = |x: (i32, i32)| (x.0 as int, x.1 as int);
    assert(s.push(c).map_values(f) =~= s.map_values(f).push(f(c)));
    assert forall|q: (int, int)| #![auto] coord_seq_set(s.push(c)).contains(q) implies coord_seq_set(
        s,
    ).insert(f(c)).contains(q) by {
        let m = s.push(c).map_values(f);
        let k = choose|k: int| 0 <= k < m.len() && m[k] == q;
        if k < s.len() {
            assert(s.map_values(f)[k] == q);
            assert(s.map_values(f).contains(q));
        }
    }
    assert forall|q: (int, int)| #![auto] coord_seq_set(s).insert(f(c)).contains(q) implies coord_seq_set(
        s.push(c),
    ).contains(q) by {
        let mp = s.push(c).map_values(f);
        if q == f(c) {
            assert(mp[s.len() as int] == q);
            assert(mp.contains(q));
        } else {
            let k = choose|k: int| 0 <= k < s.map_values(f).len() && s.map_values(f)[k] == q;
            assert(mp[k] == q);
            assert(mp.contains(q));
        }
    }
    assert(coord_seq_set(s.push(c)) =~= coord_seq_set(s).insert(f(c)));
}

/// A list without duplicate coordinates has as many entries as its
/// coordinate set has elements, and the set is finite.
pub proof fn lemma_coord_seq_set_len(s: Seq<(i32, i32)>)
    requires
        s.no_duplicates(),
    ensures
        coord_seq_set(s).finite(),
        coord_seq_set(s).len() == s.len(),
{
    broadcast use vstd::seq_lib::seq_to_set_is_finite;

    let f = |x: (i32, i32)| (x.0 as int, x.1 as int);
    let m = s.map_values(f);
    assert forall|i: int, j: int| 0 <= i < m.len() && 0 <= j < m.len() && i != j implies m[i]
        != m[j] by {
        assert(s[i] != s[j]);
        assert((s[i].0 as int, s[i].1 as int) != (s[j].0 as int, s[j].1 as int));
    }
    assert(m.no_duplicates());
    m.unique_seq_to_set();
}

/// The tracker of the currently materialized chunks: their coordinates
/// (the active set, owned and mutated only by the reconciler) and the
/// camera pose of the last recompute, absent until the first tick.
pub struct SpawnedChunks {
    /// Coordinates of the chunks currently spawned; no duplicates.
    pub chunks: Vec<(i32, i32)>,
    /// The pose of the last recompute; `None` before the first one, so a
    /// legitimate all-zero pose is never mistaken for "not yet run".
    pub last_pose: Option<ViewportPose>,
}

impl SpawnedChunks {
    /// The active set: the coordinates currently spawned.
    pub open spec fn active_set(self) -> Set<(int, int)> {
        coord_seq_set(self.chunks@)
    }

    /// No duplicate coordinates, and a bounded pose if one is recorded.
    pub open spec fn wf(self) -> bool {
        &&& self.chunks@.no_duplicates()
        &&& match self.last_pose {
            Some(p) => p.wf(),
            None => true,
        }
    }

    /// An empty tracker: nothing spawned, no recompute recorded.
    pub fn new() -> (r: SpawnedChunks)
        ensures
            r.wf(),
            r.chunks@.len() == 0,
            r.active_set() == Set::<(int, int)>::empty(),
            r.last_pose is None,
    {
        let r = SpawnedChunks { chunks: Vec::new(), last_pose: None };
        proof {
            assert(r.active_set() =~= Set::<(int, int)>::empty());
        }
        r
    }
}

impl Default for SpawnedChunks {
    /// Same as `SpawnedChunks::new`.
    fn default() -> (r: SpawnedChunks)
        ensures
            r.wf(),
            r.chunks@.len() == 0,
            r.active_set() == Set::<(int, int)>::empty(),
            r.last_pose is None,
    {
        SpawnedChunks::new()
    }
}

/// The hysteresis rule: a recompute is warranted on the first tick, or
/// when the camera moved farther than the movement threshold (Euclidean
/// distance, compared by squares), or when the zoom changed by more than
/// the zoom threshold.
pub open spec fn spec_triggered(
    cfg: ViewportConfig,
    last: Option<ViewportPose>,
    current: ViewportPose,
) -> bool {
    match last {
        None => true,
        Some(l) => {
            let dx = current.x - l.x;
            let dz = current.z - l.z;
            ||| dx * dx + dz * dz > cfg.movement_threshold * cfg.movement_threshold
            ||| abs(current.zoom - l.zoom) > cfg.zoom_threshold
        },
    }
}

/// Decide whether this tick's pose warrants recomputing the active set.
pub fn should_recompute(cfg: &ViewportConfig, last: &Option<ViewportPose>, current: &ViewportPose) -> (r:
    bool)
    requires
        cfg.wf(),
        current.wf(),
        match *last {
            Some(l) => l.wf(),
            None => true,
        },
    ensures
        r == spec_triggered(*cfg, *last, *current),
{
    match last {
        None => true,
        Some(l) => {
            let dx = current.x - l.x;
            let dz = current.z - l.z;
            proof {
                assert(dx * dx + dz * dz <= 8_000_000_000_000_000_000 && dx * dx >= 0 && dz * dz
                    >= 0) by (nonlinear_arith)
                    requires
                        -2_000_000_000 <= dx <= 2_000_000_000,
                        -2_000_000_000 <= dz <= 2_000_000_000,
                ;
                assert(cfg.movement_threshold * cfg.movement_threshold
                    <= 1_000_000_000_000_000_000) by (nonlinear_arith)
                    requires
                        0 < cfg.movement_threshold <= 1_000_000_000,
                ;
            }
            let dist_sq = dx * dx + dz * dz;
            let zoom_delta = current.zoom - l.zoom;
            let zoom_abs = if zoom_delta < 0 {
                -zoom_delta
            } else {
                zoom_delta
            };
            dist_sq > cfg.movement_threshold * cfg.movement_threshold || zoom_abs
                > cfg.zoom_threshold
        },
    }
}

/// A camera that has not moved at all never triggers a recompute: the
/// thresholds are strictly positive, so a zero delta stays below both.
pub proof fn lemma_stationary_pose_no_recompute(cfg: ViewportConfig, pose: ViewportPose)
    requires
        cfg.wf(),
    ensures
        !spec_triggered(cfg, Some(pose), pose),
{
    assert(cfg.movement_threshold * cfg.movement_threshold > 0 && 0 * 0 + 0 * 0
        == 0) by (nonlinear_arith)
        requires
            cfg.movement_threshold > 0,
    ;
}

/// The candidate set of a rectangle over a world: the loaded coordinates
/// within it. A coordinate inside the rectangle but absent from the
/// index is an expected hole of a sparse world, not an error.
pub open spec fn spec_candidates(world: WorldData, rect: (int, int, int, int)) -> Set<(int, int)> {
    world.coord_set().filter(
        |p: (int, int)| rect.0 <= p.0 <= rect.1 && rect.2 <= p.1 <= rect.3,
    )
}

/// The viewport rectangle of this tick's pose over a world's bounds and
/// center offset.
pub open spec fn spec_world_rect(world: WorldData, cfg: ViewportConfig, pose: ViewportPose) -> (
    int,
    int,
    int,
    int,
) {
    spec_viewport_rect(
        cfg,
        pose,
        (
            world.bounds.0 as int,
            world.bounds.1 as int,
            world.bounds.2 as int,
            world.bounds.3 as int,
        ),
        (world.center_offset.0 as int, world.center_offset.1 as int),
    )
}

/// The candidate set of this tick: loaded coordinates within the pose's
/// viewport rectangle.
pub open spec fn spec_candidate_set(world: WorldData, cfg: ViewportConfig, pose: ViewportPose) -> Set<
    (int, int),
> {
    spec_candidates(world, spec_world_rect(world, cfg, pose))
}

/// The part of a rectangle's candidate set that lexicographically
/// precedes the scan position `(x, z)` of the enumeration.
spec fn candidates_below(
    world: WorldData,
    rect: (int, int, int, int),
    x: int,
    z: int,
) -> Set<(int, int)> {
    spec_candidates(world, rect).filter(|p: (int, int)| p.0 < x || (p.0 == x && p.1 < z))
}

/// Enumerate the candidate coordinates of a rectangle: every coordinate
/// inside it that the world index holds, each exactly once, scanned in
/// lexicographic order.
pub fn collect_candidates(world: &WorldData, rect: &ChunkRect) -> (r: Vec<(i32, i32)>)
    requires
        world.wf(),
        i32::MIN <= rect.min_x && rect.max_x <= i32::MAX,
        i32::MIN <= rect.min_z && rect.max_z <= i32::MAX,
    ensures
        r@.no_duplicates(),
        coord_seq_set(r@) == spec_candidates(*world, rect.as_tuple()),
{
    let ghost rt = rect.as_tuple();
    let mut out: Vec<(i32, i32)> = Vec::new();
    proof {
        assert(coord_seq_set(out@) =~= candidates_below(*world, rt, rect.min_x as int, rect.min_z as int));
    }
    let mut x: i64 = rect.min_x;
    while x <= rect.max_x
        invariant
            world.wf(),
            rt == rect.as_tuple(),
            i32::MIN <= rect.min_x && rect.max_x <= i32::MAX,
            i32::MIN <= rect.min_z && rect.max_z <= i32::MAX,
            rect.min_x <= x <= rect.max_x + 1 || (rect.min_x > rect.max_x && x == rect.min_x),
            out@.no_duplicates(),
            forall|m: int|
                0 <= m < out@.len() ==> (#[trigger] out@[m]).0 < x,
            coord_seq_set(out@) == candidates_below(*world, rt, x as int, rect.min_z as int),
        decreases rect.max_x + 1 - x,
    {
        let mut z: i64 = rect.min_z;
        while z <= rect.max_z
            invariant
                world.wf(),
                rt == rect.as_tuple(),
                i32::MIN <= rect.min_x && rect.max_x <= i32::MAX,
                i32::MIN <= rect.min_z && rect.max_z <= i32::MAX,
                rect.min_x <= x <= rect.max_x,
                rect.min_z <= z <= rect.max_z + 1 || (rect.min_z > rect.max_z && z == rect.min_z),
                out@.no_duplicates(),
                forall|m: int|
                    0 <= m < out@.len() ==> (#[trigger] out@[m]).0 < x || (out@[m].0 == x
                        && out@[m].1 < z),
                coord_seq_set(out@) == candidates_below(*world, rt, x as int, z as int),
            decreases rect.max_z + 1 - z,
        {
            let present = world.get_chunk(x as i32, z as i32).is_some();
            let ghost before = out@;
            if present {
                out.push((x as i32, z as i32));
            }
            proof {
                lemma_coord_seq_set_push(before, (x as i32, z as i32));
                lemma_coord_seq_set_membership(before, (x as int, z as int));
                if present {
                    assert(forall|m: int|
                        0 <= m < before.len() ==> (#[trigger] before[m]).0 < x || (before[m].0 == x
                            && before[m].1 < z));
                    assert(!before.contains((x as i32, z as i32)));
                }
                assert(coord_seq_set(out@) =~= candidates_below(*world, rt, x as int, z as int + 1));
            }
            z = z + 1;
        }
        proof {
            assert(candidates_below(*world, rt, x as int, z as int) =~= candidates_below(
                *world,
                rt,
                x as int + 1,
                rect.min_z as int,
            ));
        }
        x = x + 1;
    }
    proof {
        assert(candidates_below(*world, rt, x as int, rect.min_z as int) =~= spec_candidates(
            *world,
            rt,
        ));
    }
    out
}

/// The entries of `a` whose coordinates `b` does not hold, in `a`'s
/// order.
pub fn coord_difference(a: &Vec<(i32, i32)>, b: &Vec<(i32, i32)>) -> (r: Vec<(i32, i32)>)
    requires
        a@.no_duplicates(),
    ensures
        r@.no_duplicates(),
        coord_seq_set(r@) == coord_seq_set(a@).difference(coord_seq_set(b@)),
{
    let ghost bset = coord_seq_set(b@);
    let n = a.len();
    let mut out: Vec<(i32, i32)> = Vec::new();
    let mut k: usize = 0;
    proof {
        assert(coord_seq_set(out@) =~= coord_seq_set(a@.take(0)).difference(bset));
    }
    while k < n
        invariant
            a@.no_duplicates(),
            bset == coord_seq_set(b@),
            n == a@.len(),
            k <= n,
            out@.no_duplicates(),
            forall|m: int|
                0 <= m < out@.len() ==> exists|t: int|
                    0 <= t < k && a@[t] == #[trigger] out@[m],
            coord_seq_set(out@) == coord_seq_set(a@.take(k as int)).difference(bset),
        decreases n - k,
    {
        let c = a[k];
        let hit = coords_contain(b, c.0, c.1);
        let ghost before = out@;
        if !hit {
            out.push(c);
        }
        proof {
            assert(a@.take(k as int + 1) =~= a@.take(k as int).push(c));
            lemma_coord_seq_set_push(a@.take(k as int), c);
            lemma_coord_seq_set_push(before, c);
            if !hit {
                assert forall|m: int| 0 <= m < before.len() implies before[m] != c by {
                    let t = choose|t: int| 0 <= t < k && a@[t] == before[m];
                    assert(a@[t] != a@[k as int]);
                }
                assert(!before.contains(c));
                assert(forall|m: int|
                    0 <= m < out@.len() ==> exists|t: int|
                        0 <= t <= k && a@[t] == #[trigger] out@[m]);
            }
            assert(coord_seq_set(out@) =~= coord_seq_set(a@.take(k as int + 1)).difference(bset));
        }
        k = k + 1;
    }
    proof {
        assert(a@.take(n as int) =~= a@);
    }
    out
}

/// What one reconciliation spawns: the candidates not yet active.
pub open spec fn spawn_set(candidates: Set<(int, int)>, active: Set<(int, int)>) -> Set<
    (int, int),
> {
    candidates.difference(active)
}

/// What one reconciliation despawns: the active coordinates no longer
/// candidates.
pub open spec fn despawn_set(candidates: Set<(int, int)>, active: Set<(int, int)>) -> Set<
    (int, int),
> {
    active.difference(candidates)
}

/// The candidate set of any tick is finite.
pub proof fn lemma_candidate_set_finite(world: WorldData, cfg: ViewportConfig, pose: ViewportPose)
    ensures
        spec_candidate_set(world, cfg, pose).finite(),
{
    lemma_chunk_map_dom(world.chunks@);
    let cand = spec_candidate_set(world, cfg, pose);
    assert(cand.subset_of(world.coord_set()));
    vstd::set_lib::lemma_len_subset(cand, world.coord_set());
}

/// Idempotence of reconciliation: a run leaves the active set equal to
/// the candidate set, so a second run against the same candidate set
/// spawns nothing and despawns nothing.
pub proof fn lemma_reconcile_idempotent(candidates: Set<(int, int)>, active: Set<(int, int)>)
    requires
        active == candidates,
    ensures
        spawn_set(candidates, active).is_empty(),
        despawn_set(candidates, active).is_empty(),
{
    assert(spawn_set(candidates, active) =~= Set::<(int, int)>::empty());
    assert(despawn_set(candidates, active) =~= Set::<(int, int)>::empty());
}

/// A finite set splits into the part inside another set and the part
/// outside it.
proof fn lemma_len_split(s: Set<(int, int)>, t: Set<(int, int)>)
    requires
        s.finite(),
    ensures
        s.len() == s.intersect(t).len() + s.difference(t).len(),
    decreases s.len(),
{
    if s.is_empty() {
        assert(s.intersect(t) =~= s);
        assert(s.difference(t) =~= s);
    } else {
        let x = s.choose();
        lemma_len_split(s.remove(x), t);
        if t.contains(x) {
            assert(s.intersect(t) =~= s.remove(x).intersect(t).insert(x));
            assert(s.difference(t) =~= s.remove(x).difference(t));
            assert(!s.remove(x).intersect(t).contains(x));
            vstd::set_lib::lemma_len_intersect(s.remove(x), t);
        } else {
            assert(s.intersect(t) =~= s.remove(x).intersect(t));
            assert(s.difference(t) =~= s.remove(x).difference(t).insert(x));
            assert(!s.remove(x).difference(t).contains(x));
            vstd::set_lib::lemma_len_difference(s.remove(x), t);
        }
    }
}

/// Conservation: what a reconciliation spawns, minus what it despawns,
/// is exactly the growth of the active set — the candidate count minus
/// the count active before (the active set afterwards being the
/// candidate set).
pub proof fn lemma_reconcile_conservation(candidates: Set<(int, int)>, active: Set<(int, int)>)
    requires
        candidates.finite(),
        active.finite(),
    ensures
        spawn_set(candidates, active).len() as int - despawn_set(candidates, active).len() as int
            == candidates.len() as int - active.len() as int,
{
    lemma_len_split(candidates, active);
    lemma_len_split(active, candidates);
    assert(candidates.intersect(active) =~= active.intersect(candidates));
}

/// Conservation at the instruction level: on a recomputing tick the
/// spawn and despawn lists are duplicate-free and read as `spawn_set`
/// and `despawn_set`, so the number of spawn instructions minus the
/// number of despawn instructions is exactly the growth of the active
/// set — the candidate count (the size of the active set afterwards)
/// minus the count active before.
pub proof fn lemma_tick_conservation(
    spawned: Seq<(i32, i32)>,
    despawned: Seq<(i32, i32)>,
    candidates: Set<(int, int)>,
    active: Set<(int, int)>,
)
    requires
        candidates.finite(),
        active.finite(),
        spawned.no_duplicates(),
        coord_seq_set(spawned) == spawn_set(candidates, active),
        despawned.no_duplicates(),
        coord_seq_set(despawned) == despawn_set(candidates, active),
    ensures
        spawned.len() as int - despawned.len() as int == candidates.len() as int
            - active.len() as int,
{
    lemma_coord_seq_set_len(spawned);
    lemma_coord_seq_set_len(despawned);
    lemma_reconcile_conservation(candidates, active);
}

/// What one tick of the streaming engine did.
pub struct TickChanges {
    /// Whether the hysteresis rule let this tick recompute at all.
    pub recomputed: bool,
    /// Coordinates whose chunks this tick materialized.
    pub spawned: Vec<(i32, i32)>,
    /// Coordinates whose chunks this tick released.
    pub despawned: Vec<(i32, i32)>,
}

/// One update tick: decide through the hysteresis rule whether the pose
/// warrants a recompute; if so, map the pose to its viewport rectangle,
/// enumerate the candidate chunks the index holds there, and reconcile
/// the active set against them, reporting exactly the spawned and
/// despawned coordinates. Both instruction lists are decided from the
/// same candidate snapshot; untouched coordinates appear in neither.
pub fn update_dynamic_chunks(
    world: &WorldData,
    cfg: &ViewportConfig,
    state: &mut SpawnedChunks,
    pose: &ViewportPose,
) -> (r: TickChanges)
    requires
        world.wf(),
        world.finalized,
        cfg.wf(),
        pose.wf(),
        old(state).wf(),
    ensures
        final(state).wf(),
        r.recomputed == spec_triggered(*cfg, old(state).last_pose, *pose),
        !r.recomputed ==> *final(state) == *old(state) && r.spawned@.len() == 0
            && r.despawned@.len() == 0,
        r.recomputed ==> final(state).last_pose == Some(*pose),
        r.recomputed ==> final(state).active_set() == spec_candidate_set(*world, *cfg, *pose),
        r.recomputed ==> r.spawned@.no_duplicates() && coord_seq_set(r.spawned@) == spawn_set(
            spec_candidate_set(*world, *cfg, *pose),
            old(state).active_set(),
        ),
        r.recomputed ==> r.despawned@.no_duplicates() && coord_seq_set(r.despawned@)
            == despawn_set(spec_candidate_set(*world, *cfg, *pose), old(state).active_set()),
{
    let triggered = should_recompute(cfg, &state.last_pose, pose);
    if !triggered {
        return TickChanges { recomputed: false, spawned: Vec::new(), despawned: Vec::new() };
    }
    let candidates: Vec<(i32, i32)>;
    if world.chunks.len() == 0 {
        candidates = Vec::new();
        proof {
            lemma_chunk_map_dom(world.chunks@);
            assert(coord_seq_set(candidates@) =~= spec_candidate_set(*world, *cfg, *pose));
        }
    } else {
        proof {
            let s = world.chunks@;
            let w0 = choose|w: int| 0 <= w < s.len() && #[trigger] s[w].chunk_x == world.bounds.0;
            let w2 = choose|w: int| 0 <= w < s.len() && #[trigger] s[w].chunk_z == world.bounds.2;
            assert(world.bounds.0 <= s[w0].chunk_x <= world.bounds.1);
            assert(world.bounds.2 <= s[w2].chunk_z <= world.bounds.3);
            world.lemma_center_offset_bounded();
        }
        let rect = compute_viewport_rect(cfg, pose, world.bounds, world.center_offset);
        candidates = collect_candidates(world, &rect);
        proof {
            assert(rect.as_tuple() == spec_world_rect(*world, *cfg, *pose));
        }
    }
    let despawned = coord_difference(&state.chunks, &candidates);
    let spawned = coord_difference(&candidates, &state.chunks);
    state.chunks = candidates;
    state.last_pose = Some(*pose);
    TickChanges { recomputed: true, spawned, despawned }
}

/// Whether the list holds the coordinate.
fn coords_contain(v: &Vec<(i32, i32)>, x: i32, z: i32) -> (r: bool)
    ensures
        r == coord_seq_set(v@).contains((x as int, z as int)),
{
    proof {
        lemma_coord_seq_set_membership(v@, (x as int, z as int));
    }
    let n = v.len();
    let mut k: usize = 0;
    while k < n
        invariant
            n == v@.len(),
            k <= n,
            forall|t: int|
                0 <= t < k ==> ((#[trigger] v@[t]).0 as int, v@[t].1 as int) != (
                x as int, z as int),
        decreases n - k,
    {
        let c = v[k];
        if c.0 == x && c.1 == z {
            proof {
                lemma_coord_seq_set_membership(v@, (x as int, z as int));
                assert(((v@[k as int]).0 as int, v@[k as int].1 as int) == (x as int, z as int));
            }
            return true;
        }
        k = k + 1;
    }
    false
}

} // verus!
