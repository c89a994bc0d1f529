//! Light rays: normalization of raw emitter endpoints into a canonical ray,
//! the running emission counter, and the per-ray render data (rotation,
//! depth, tint, covered cells).
use vstd::prelude::*;

verus! {

/// A travel direction on the grid.
#[derive(Clone, Copy, PartialEq, Eq, Structural, Debug)]
pub enum Dir {
    Upwards,
    Downwards,
    Leftwards,
    Rightwards,
}

/// A canonical light ray. Endpoints are normalized so that
/// `src_x <= dest_x` and `src_y <= dest_y`; `horizontal` and `reversed`
/// record the original travel orientation (see `built_ray`). A smaller
/// `prio` value wins against rays with a higher value, both for player
/// motion and for visual stacking.
#[derive(Clone, Copy, PartialEq, Eq, Structural, Debug)]
pub struct Ray {
    pub src_x: i32,
    pub src_y: i32,
    pub dest_x: i32,
    pub dest_y: i32,
    pub reversed: bool,
    pub horizontal: bool,
    pub prio: i32,
}

/// Session-wide counter of rays emitted so far; assigns default priorities
/// to dynamically spawned rays. Monotonically increasing, never reset.
#[derive(Clone, Debug)]
pub struct GameState {
    pub ray_count: i32,
}

impl Default for GameState {
    /// A fresh session starts with no rays emitted.
    fn default() -> (s: GameState)
        ensures
            s.ray_count == 0,
    {
        GameState { ray_count: 0 }
    }
}

/// An emitter tile: where it sits on the grid and which way it fires.
#[derive(Clone, Copy, PartialEq, Eq, Structural, Debug)]
pub struct RayCaster {
    pub dir: Dir,
    pub pos_x: i32,
    pub pos_y: i32,
}

/// A ray's endpoints are normalized.
pub open spec fn ray_wf(r: Ray) -> bool {
    r.src_x <= r.dest_x && r.src_y <= r.dest_y
}

/// The canonical ray built from raw, unordered endpoints:
/// - `horizontal` comes from the original, unswapped endpoints;
/// - `reversed` starts as `true`; swapping the x endpoints clears it, and so
///   does an already-ordered y pair (`sy < dy`), so it ends up `true`
///   exactly when `sx <= dx && sy >= dy`.
pub open spec fn built_ray(sx: i32, sy: i32, dx: i32, dy: i32, prio: i32) -> Ray {
    Ray {
        src_x: if sx > dx { dx } else { sx },
        dest_x: if sx > dx { sx } else { dx },
        src_y: if sy >= dy { dy } else { sy },
        dest_y: if sy >= dy { sy } else { dy },
        reversed: sx <= dx && sy >= dy,
        horizontal: sy == dy,
        prio: prio,
    }
}

/// Normalizes an emitter's raw origin and destination cells, plus a
/// priority, into a canonical `Ray`: endpoints are swapped into order on
/// each axis, `horizontal` is decided by the original endpoints, and
/// `reversed` records whether normalization kept the original travel
/// direction (initial convention `true`, cleared by an x swap or by an
/// already-ordered y pair).
pub fn build_ray(src_x: i32, src_y: i32, dest_x: i32, dest_y: i32, prio: i32) -> (r: Ray)
    ensures
        r == built_ray(src_x, src_y, dest_x, dest_y, prio),
        ray_wf(r),
        r.horizontal == (src_y == dest_y),
        r.prio == prio,
{
    let mut sx = src_x;
    let mut sy = src_y;
    let mut dx = dest_x;
    let mut dy = dest_y;
    let horizontal = dy == sy;
    let mut reversed = true;

    if sx > dx {
        let tmp = sx;
        sx = dx;
        dx = tmp;
        reversed = false;
    }

    if sy >= dy {
        let tmp = sy;
        sy = dy;
        dy = tmp;
    } else {
        reversed = false;
    }

    Ray { src_x: sx, src_y: sy, dest_x: dx, dest_y: dy, reversed, horizontal, prio }
}

/// Law: the ray builder is a pure function of its raw inputs — two rays
/// built from the same raw endpoints and priority are identical, so
/// re-running it can never produce a different ray.
pub proof fn lemma_build_ray_deterministic(r1: Ray, r2: Ray, sx: i32, sy: i32, dx: i32, dy: i32, prio: i32)
    requires
        r1 == built_ray(sx, sy, dx, dy, prio),
        r2 == built_ray(sx, sy, dx, dy, prio),
    ensures
        r1 == r2,
{
}

/// A ray covers the rectangle of cells between its normalized endpoints,
/// inclusive.
pub open spec fn ray_covers(r: Ray, x: int, y: int) -> bool {
    r.src_x <= x <= r.dest_x && r.src_y <= y <= r.dest_y
}

/// The render rotation of a ray, in quarter turns: half a turn unless the
/// ray is reversed, plus a quarter turn if it is vertical.
pub open spec fn rotation_quarters_of(reversed: bool, horizontal: bool) -> int {
    (if reversed { 0int } else { 2 }) + (if horizontal { 0int } else { 1 })
}

/// Rotation for rendering a ray's tiles, in quarter turns (multiples of
/// half pi): 0 or 2 by `reversed`, plus 1 if vertical.
pub fn rotation_quarters(reversed: bool, horizontal: bool) -> (q: u8)
    ensures
        q == rotation_quarters_of(reversed, horizontal),
{
    let base: u8 = if reversed { 0 } else { 2 };
    if horizontal { base } else { base + 1 }
}

/// Base render depth of ray tiles; a ray's tiles sit at this depth minus
/// the ray's priority, so lower priority values draw on top.
pub const RAY_BASE_DEPTH: i32 = 99;

/// Render depth of a ray's tiles: the base depth minus the priority.
pub fn ray_depth(prio: i32) -> (d: i64)
    ensures
        d == RAY_BASE_DEPTH - prio as int,
{
    RAY_BASE_DEPTH as i64 - prio as i64
}

/// Number of tints in the fixed ray palette.
pub const RAY_PALETTE_SIZE: usize = 4;

/// A ray's tint index in the palette: its priority modulo the palette size
/// (mathematical modulus, so always in range, also for negative
/// priorities).
pub fn ray_color_index(prio: i32) -> (k: usize)
    ensures
        k == (prio as int) % (RAY_PALETTE_SIZE as int),
        k < RAY_PALETTE_SIZE,
{
    let m: i32 = prio % 4;
    let m2: i32 = if m < 0 { m + 4 } else { m };
    m2 as usize
}

/// Every cell a ray covers, one per animated render tile, in column-major
/// order starting from the normalized source.
pub fn ray_cells(r: &Ray) -> (cells: Vec<(i32, i32)>)
    requires
        ray_wf(*r),
        (r.dest_x - r.src_x + 1) * (r.dest_y - r.src_y + 1) <= usize::MAX,
    ensures
        cells@.len() == (r.dest_x - r.src_x + 1) * (r.dest_y - r.src_y + 1),
        forall|i: int, j: int|
            0 <= i <= r.dest_x - r.src_x && 0 <= j <= r.dest_y - r.src_y
                ==> #[trigger] cells@[i * (r.dest_y - r.src_y + 1) + j]
                    == (((r.src_x + i) as i32), ((r.src_y + j) as i32)),
        forall|k: int| 0 <= k < cells@.len()
            ==> ray_covers(*r, #[trigger] cells@[k].0 as int, cells@[k].1 as int),
{
    let ghost span_y: int = r.dest_y - r.src_y + 1;
    let mut cells: Vec<(i32, i32)> = Vec::new();
    let mut x: i64 = r.src_x as i64;
    while x <= r.dest_x as i64
        invariant
            ray_wf(*r),
            (r.dest_x - r.src_x + 1) * span_y <= usize::MAX,
            span_y == r.dest_y - r.src_y + 1,
            r.src_x <= x <= r.dest_x + 1,
            cells@.len() == (x - r.src_x) * span_y,
            forall|i: int, j: int|
                0 <= i < x - r.src_x && 0 <= j < span_y
                    ==> #[trigger] cells@[i * span_y + j]
                        == (((r.src_x + i) as i32), ((r.src_y + j) as i32)),
        decreases r.dest_x + 1 - x,
    {
        proof {
            lemma_col_bound(x - r.src_x, r.dest_x - r.src_x + 1, span_y);
            lemma_col_step(x - r.src_x, span_y);
        }
        let mut y: i64 = r.src_y as i64;
        while y <= r.dest_y as i64
            invariant
                ray_wf(*r),
                span_y == r.dest_y - r.src_y + 1,
                r.src_x <= x <= r.dest_x,
                r.src_y <= y <= r.dest_y + 1,
                (x - r.src_x) * span_y + span_y <= usize::MAX,
                cells@.len() == (x - r.src_x) * span_y + (y - r.src_y),
                forall|i: int, j: int|
                    0 <= i < x - r.src_x && 0 <= j < span_y
                        ==> #[trigger] cells@[i * span_y + j]
                            == (((r.src_x + i) as i32), ((r.src_y + j) as i32)),
                forall|j: int|
                    0 <= j < y - r.src_y
                        ==> #[trigger] cells@[(x - r.src_x) * span_y + j]
                            == ((x as i32), ((r.src_y + j) as i32)),
            decreases r.dest_y + 1 - y,
        {
            cells.push((x as i32, y as i32));
            y = y + 1;
            proof {
                assert forall|i: int, j: int|
                    0 <= i < x - r.src_x && 0 <= j < span_y
                        implies #[trigger] cells@[i * span_y + j]
                            == (((r.src_x + i) as i32), ((r.src_y + j) as i32)) by {
                    lemma_flat_index_bound(i, j, x - r.src_x, span_y);
                }
            }
        }
        proof {
            assert forall|i: int, j: int|
                0 <= i < x + 1 - r.src_x && 0 <= j < span_y
                    implies #[trigger] cells@[i * span_y + j]
                        == (((r.src_x + i) as i32), ((r.src_y + j) as i32)) by {
                if i == x - r.src_x {
                    assert(cells@[(x - r.src_x) * span_y + j] == ((x as i32), ((r.src_y + j) as i32)));
                } else {
                    lemma_flat_index_bound(i, j, x - r.src_x, span_y);
                }
            }
        }
        x = x + 1;
    }
    proof {
        assert forall|k: int| 0 <= k < cells@.len()
            implies ray_covers(*r, #[trigger] cells@[k].0 as int, cells@[k].1 as int) by {
            lemma_index_decompose(k, r.dest_x - r.src_x + 1, span_y);
            let i = k / span_y;
            let j = k % span_y;
            assert(cells@[i * span_y + j] == (((r.src_x + i) as i32), ((r.src_y + j) as i32)));
        }
    }
    cells
}

/// Filling one more full column stays within the overall cell count.
proof fn lemma_col_bound(i: int, span_x: int, span_y: int)
    requires
        0 <= i < span_x,
        0 <= span_y,
        span_x * span_y <= usize::MAX,
    ensures
        (i + 1) * span_y <= usize::MAX,
{
    assert((i + 1) * span_y <= span_x * span_y) by (nonlinear_arith)
        requires
            0 <= i < span_x,
            0 <= span_y,
    ;
}

/// A flat index inside the first `n` columns stays below the count of the
/// cells those columns hold.
proof fn lemma_flat_index_bound(i: int, j: int, n: int, span_y: int)
    requires
        0 <= i < n,
        0 <= j < span_y,
    ensures
        0 <= i * span_y + j < n * span_y,
{
    assert(0 <= i * span_y + j && (i + 1) * span_y <= n * span_y && i * span_y + j < (i + 1) * span_y)
        by (nonlinear_arith)
        requires
            0 <= i < n,
            0 <= j < span_y,
    ;
}

/// One column of `span_y` cells advances the flat index by `span_y`.
proof fn lemma_col_step(i: int, span_y: int)
    ensures
        (i + 1) * span_y == i * span_y + span_y,
{
    assert((i + 1) * span_y == i * span_y + span_y) by (nonlinear_arith);
}

/// A flat index below `span_x * span_y` splits into a column index below
/// `span_x` and a row index below `span_y`.
proof fn lemma_index_decompose(k: int, span_x: int, span_y: int)
    requires
        0 <= span_x,
        0 < span_y,
        0 <= k < span_x * span_y,
    ensures
        0 <= k / span_y < span_x,
        0 <= k % span_y < span_y,
        k == (k / span_y) * span_y + k % span_y,
{
    assert(0 <= k / span_y && 0 <= k % span_y < span_y && k == (k / span_y) * span_y + k % span_y)
        by (nonlinear_arith)
        requires
            0 < span_y,
            0 <= k,
    ;
    assert(k / span_y < span_x) by (nonlinear_arith)
        requires
            0 < span_y,
            0 <= k < span_x * span_y,
            k == (k / span_y) * span_y + k % span_y,
            0 <= k % span_y,
    ;
}

/// Handles a click on an emitter tile: the emission counter advances, and
/// an upward-firing emitter additionally spawns a vertical ray from its
/// cell to the top of the level, with the counter's previous value as the
/// ray's priority.
pub fn emit_ray(caster: &RayCaster, state: &mut GameState) -> (r: Option<Ray>)
    requires
        old(state).ray_count < i32::MAX,
    ensures
        final(state).ray_count == old(state).ray_count + 1,
        r == if caster.dir is Upwards {
            Some(built_ray(caster.pos_x, caster.pos_y, caster.pos_x, ((0 - crate::LEVEL_SIZE_Y as int) as i32), old(state).ray_count))
        } else {
            None::<Ray>
        },
{
    let ray = match caster.dir {
        Dir::Upwards => Some(build_ray(caster.pos_x, caster.pos_y, caster.pos_x, -crate::LEVEL_SIZE_Y, state.ray_count)),
        _ => None,
    };
    state.ray_count = state.ray_count + 1;
    ray
}

} // verus!
