//! Cursor picking: triangle-defined hitboxes attached to entities, and the
//! nearest-pickable resolution that selects, among all hitboxes containing
//! the cursor's world position, the entity closest to the camera.
use vstd::prelude::*;

use crate::geom::Point;
use crate::geom::Triangle;
use crate::geom::query_in_range;
use crate::geom::tri_contains;

verus! {

/// An entity's hitbox: a set of triangles in the entity's local space.
#[derive(Clone, Debug)]
pub struct Pickable {
    pub triangles: Vec<Triangle>,
}

/// Marker for the camera whose view the picking system uses.
#[derive(Clone, Copy, Debug)]
pub struct PickCamera;

/// The single-slot pick state: the identifier of the currently hovered
/// entity, if any; recomputed every tick.
#[derive(Clone, Copy, PartialEq, Eq, Structural, Debug)]
pub struct PickState {
    pub selected: Option<u64>,
}

impl Default for PickState {
    /// Initially nothing is hovered.
    fn default() -> (s: PickState)
        ensures
            s.selected is None,
    {
        PickState { selected: None }
    }
}

/// Marker for the picking subsystem; the engine adapter wires its per-tick
/// pass (cursor lookup, then nearest-pickable resolution) into the frame
/// loop.
#[derive(Clone, Copy, Debug)]
pub struct PickingPlugin;

/// One pickable entity as the resolution pass sees it: its hitbox, its
/// world translation (only the translation enters hit-testing), its depth
/// `z`, and its identifier.
#[derive(Clone, Debug)]
pub struct PickTarget {
    pub pickable: Pickable,
    pub x: i32,
    pub y: i32,
    pub z: i32,
    pub entity: u64,
}

/// A target is hit when some triangle of its hitbox contains the world
/// point shifted into the target's local space.
pub open spec fn target_hit(t: PickTarget, wx: int, wy: int) -> bool {
    exists|i: int| 0 <= i < t.pickable.triangles@.len()
        && tri_contains(#[trigger] t.pickable.triangles@[i], wx - t.x, wy - t.y)
}

/// The index of the selected target after scanning the whole list: a hit
/// target replaces the running selection only when its `z` is strictly
/// greater, so the first hit target with the greatest `z` wins.
pub open spec fn pick_winner(targets: Seq<PickTarget>, wx: int, wy: int) -> Option<int>
    decreases targets.len(),
{
    if targets.len() == 0 {
        None
    } else {
        let prev = pick_winner(targets.drop_last(), wx, wy);
        let i = targets.len() - 1;
        if target_hit(targets[i], wx, wy)
            && (prev is None || targets[i].z > targets[prev->0].z) {
            Some(i)
        } else {
            prev
        }
    }
}

/// Tests whether `t`'s hitbox contains the world point `(wx, wy)`.
fn target_contains(t: &PickTarget, wx: i32, wy: i32) -> (b: bool)
    ensures
        b == target_hit(*t, wx as int, wy as int),
{
    let qx: i64 = wx as i64 - t.x as i64;
    let qy: i64 = wy as i64 - t.y as i64;
    assert(query_in_range(qx) && query_in_range(qy));
    let mut k: usize = 0;
    while k < t.pickable.triangles.len()
        invariant
            query_in_range(qx),
            query_in_range(qy),
            qx == wx - t.x,
            qy == wy - t.y,
            k <= t.pickable.triangles@.len(),
            forall|i: int| 0 <= i < k as int
                ==> !tri_contains(#[trigger] t.pickable.triangles@[i], wx - t.x, wy - t.y),
        decreases t.pickable.triangles@.len() - k,
    {
        if t.pickable.triangles[k].contains_shifted(qx, qy) {
            return true;
        }
        k = k + 1;
    }
    false
}

/// Scans all pickable targets against the cursor's world position and
/// returns the identifier of the hit target nearest the camera — the one
/// with the greatest `z`, earlier targets winning ties — or nothing when no
/// hitbox contains the position.
pub fn pick_nearst(targets: &Vec<PickTarget>, world_pos: &Point) -> (r: Option<u64>)
    ensures
        r == match pick_winner(targets@, world_pos.x as int, world_pos.y as int) {
            Some(i) => Some(targets@[i].entity),
            None => None::<u64>,
        },
{
    let mut nearest: Option<u64> = None;
    let mut best_z: i32 = 0;
    let ghost mut w: Option<int> = None;

    let mut k: usize = 0;
    while k < targets.len()
        invariant
            w == pick_winner(targets@.take(k as int), world_pos.x as int, world_pos.y as int),
            match w {
                Some(i) => {
                    &&& 0 <= i < k as int
                    &&& nearest == Some(targets@[i].entity)
                    &&& best_z == targets@[i].z
                },
                None => nearest is None,
            },
            k <= targets.len(),
        decreases targets.len() - k,
    {
        let t = &targets[k];
        proof {
            assert(targets@.take(k as int + 1).drop_last() =~= targets@.take(k as int));
        }
        let skip = match nearest {
            Some(_) => t.z <= best_z,
            None => false,
        };
        if !skip {
            if target_contains(t, world_pos.x, world_pos.y) {
                nearest = Some(t.entity);
                best_z = t.z;
                proof {
                    w = Some(k as int);
                }
            }
        }
        k = k + 1;
    }
    proof {
        assert(targets@.take(targets@.len() as int) =~= targets@);
    }
    nearest
}

/// Law: the resolution picks the hit target nearest the camera. When some
/// target's hitbox contains the world point, the selection is a hit target
/// whose `z` is at least that of every hit target, and the first such
/// target in scan order; when no target is hit, nothing is selected.
pub proof fn lemma_pick_winner_nearest(targets: Seq<PickTarget>, wx: int, wy: int)
    ensures
        match pick_winner(targets, wx, wy) {
            Some(i) => {
                &&& 0 <= i < targets.len()
                &&& target_hit(targets[i], wx, wy)
                &&& forall|j: int| 0 <= j < targets.len() && target_hit(#[trigger] targets[j], wx, wy)
                    ==> targets[j].z <= targets[i].z
                &&& forall|j: int| 0 <= j < i && target_hit(#[trigger] targets[j], wx, wy)
                    ==> targets[j].z < targets[i].z
            },
            None => forall|j: int| 0 <= j < targets.len()
                ==> !target_hit(#[trigger] targets[j], wx, wy),
        },
    decreases targets.len(),
{
    if targets.len() > 0 {
        lemma_pick_winner_nearest(targets.drop_last(), wx, wy);
        assert(forall|j: int| 0 <= j < targets.len() - 1 ==> targets.drop_last()[j] == targets[j]);
    }
}

/// Half the side length of a tile's square hitbox, in world units.
pub const TILE_HALF: i32 = 16;

/// The hitbox of one emitter tile: two right triangles forming the tile's
/// square, centred on the tile's position.
pub fn tile_hitbox() -> (p: Pickable)
    ensures
        p.triangles@.len() == 2,
        p.triangles@[0] == (Triangle {
            p1: Point { x: (-16) as i32, y: 16 },
            p2: Point { x: 16, y: 16 },
            p3: Point { x: (-16) as i32, y: (-16) as i32 },
        }),
        p.triangles@[1] == (Triangle {
            p1: Point { x: 16, y: 16 },
            p2: Point { x: (-16) as i32, y: (-16) as i32 },
            p3: Point { x: 16, y: (-16) as i32 },
        }),
{
    let mut v: Vec<Triangle> = Vec::new();
    v.push(Triangle::new(
        Point { x: -16, y: 16 },
        Point { x: 16, y: 16 },
        Point { x: -16, y: -16 },
    ));
    v.push(Triangle::new(
        Point { x: 16, y: 16 },
        Point { x: -16, y: -16 },
        Point { x: 16, y: -16 },
    ));
    Pickable { triangles: v }
}

} // verus!
