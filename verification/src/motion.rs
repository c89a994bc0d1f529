//! Per-tick ray resolution: which ray currently carries the player, the
//! corner-offset disambiguation at junctions, the priority tie-break, and
//! the resulting velocity direction and player-direction bookkeeping.
//!
//! The player's continuous position and the frame-time integration live
//! with the engine adapter; this module works on the player's grid cell.
use vstd::prelude::*;

use crate::ray::Dir;
use crate::ray::Ray;

verus! {

/// The player's direction memory: the current travel direction, and the
/// direction held just before the last change, which disambiguates
/// corner turns.
#[derive(Clone, Copy, PartialEq, Eq, Structural, Debug)]
pub struct Player {
    pub direction: Option<Dir>,
    pub last_direction: Option<Dir>,
}

/// Horizontal corner offset: when the player is turning at a junction of a
/// vertical ray (moving left, or moving down or up straight after moving
/// left), the ray's box is tested one cell to the left.
pub open spec fn corner_x_offset(dir: Option<Dir>, last: Option<Dir>, r: Ray) -> int {
    if (dir == Some(Dir::Leftwards) || (dir == Some(Dir::Downwards) && last == Some(Dir::Leftwards)))
        && !r.reversed && !r.horizontal {
        -1
    } else if (dir == Some(Dir::Leftwards) || (dir == Some(Dir::Upwards) && last == Some(Dir::Leftwards)))
        && r.reversed && !r.horizontal {
        -1
    } else {
        0
    }
}

/// Vertical corner offset: when the player is turning at a junction of a
/// horizontal ray (moving up, or moving right or left straight after moving
/// up), the ray's box is tested one cell up.
pub open spec fn corner_y_offset(dir: Option<Dir>, last: Option<Dir>, r: Ray) -> int {
    if (dir == Some(Dir::Upwards) || (dir == Some(Dir::Rightwards) && last == Some(Dir::Upwards)))
        && r.reversed && r.horizontal {
        -1
    } else if (dir == Some(Dir::Upwards) || (dir == Some(Dir::Leftwards) && last == Some(Dir::Upwards)))
        && !r.reversed && r.horizontal {
        -1
    } else {
        0
    }
}

/// A ray is a candidate for the player's cell when its bounding box,
/// shifted by the corner offsets, contains the cell.
pub open spec fn ray_catches(r: Ray, px: int, py: int, dir: Option<Dir>, last: Option<Dir>) -> bool {
    let xo = corner_x_offset(dir, last, r);
    let yo = corner_y_offset(dir, last, r);
    r.src_x + xo <= px <= r.dest_x + xo && r.src_y + yo <= py <= r.dest_y + yo
}

/// The index of the winning ray after scanning the whole list: a candidate
/// replaces the running winner unless its priority value is strictly
/// larger, so the last candidate with the least priority value wins.
pub open spec fn winner(rays: Seq<Ray>, px: int, py: int, dir: Option<Dir>, last: Option<Dir>) -> Option<int>
    decreases rays.len(),
{
    if rays.len() == 0 {
        None
    } else {
        let prev = winner(rays.drop_last(), px, py, dir, last);
        let i = rays.len() - 1;
        if ray_catches(rays[i], px, py, dir, last)
            && (prev is None || rays[i].prio <= rays[prev->0].prio) {
            Some(i)
        } else {
            prev
        }
    }
}

/// The per-axis velocity sign a winning ray imposes: along x for a
/// horizontal ray (positive iff reversed), along y for a vertical one
/// (negative iff reversed).
pub open spec fn ray_step(r: Ray) -> (int, int) {
    if r.horizontal {
        (if r.reversed { 1int } else { -1 }, 0int)
    } else {
        (0int, if r.reversed { -1int } else { 1 })
    }
}

/// The direction a winning ray imposes on the player.
pub open spec fn ray_direction(r: Ray) -> Dir {
    if r.horizontal {
        if r.reversed { Dir::Rightwards } else { Dir::Leftwards }
    } else {
        if r.reversed { Dir::Upwards } else { Dir::Downwards }
    }
}

/// The velocity signs and direction the whole ray set imposes on a player
/// cell: those of the winning ray, or standstill with no direction.
pub open spec fn resolution(rays: Seq<Ray>, px: int, py: int, dir: Option<Dir>, last: Option<Dir>)
    -> (int, int, Option<Dir>) {
    match winner(rays, px, py, dir, last) {
        Some(i) => (ray_step(rays[i]).0, ray_step(rays[i]).1, Some(ray_direction(rays[i]))),
        None => (0int, 0int, None),
    }
}

/// Decides whether `r` catches the player's cell at `(px, py)`, applying
/// the corner offsets.
fn catches(r: &Ray, px: i32, py: i32, dir: &Option<Dir>, last: &Option<Dir>) -> (b: bool)
    ensures
        b == ray_catches(*r, px as int, py as int, *dir, *last),
{
    let mut x_offset: i64 = 0;
    let mut y_offset: i64 = 0;

    if (matches!(dir, Some(Dir::Upwards))
        || (matches!(dir, Some(Dir::Rightwards)) && matches!(last, Some(Dir::Upwards))))
        && r.reversed && r.horizontal {
        y_offset = -1;
    }
    if (matches!(dir, Some(Dir::Upwards))
        || (matches!(dir, Some(Dir::Leftwards)) && matches!(last, Some(Dir::Upwards))))
        && !r.reversed && r.horizontal {
        y_offset = -1;
    }
    if (matches!(dir, Some(Dir::Leftwards))
        || (matches!(dir, Some(Dir::Downwards)) && matches!(last, Some(Dir::Leftwards))))
        && !r.reversed && !r.horizontal {
        x_offset = -1;
    }
    if (matches!(dir, Some(Dir::Leftwards))
        || (matches!(dir, Some(Dir::Upwards)) && matches!(last, Some(Dir::Leftwards))))
        && r.reversed && !r.horizontal {
        x_offset = -1;
    }

    px as i64 >= r.src_x as i64 + x_offset && px as i64 <= r.dest_x as i64 + x_offset
        && py as i64 >= r.src_y as i64 + y_offset && py as i64 <= r.dest_y as i64 + y_offset
}

/// Scans all rays against the player's cell `(px, py)` and returns the
/// velocity signs and new direction of the winning ray — the candidate with
/// the least priority value, later candidates winning ties — or standstill
/// and no direction when no ray catches the cell.
pub fn resolve_rays(rays: &Vec<Ray>, px: i32, py: i32, dir: &Option<Dir>, last: &Option<Dir>)
    -> (res: (i32, i32, Option<Dir>))
    ensures
        (res.0 as int, res.1 as int, res.2) == resolution(rays@, px as int, py as int, *dir, *last),
{
    let mut x_diff: i32 = 0;
    let mut y_diff: i32 = 0;
    let mut new_direction: Option<Dir> = None;
    let mut best_prio: Option<i32> = None;
    let ghost mut w: Option<int> = None;

    let mut k: usize = 0;
    while k < rays.len()
        invariant
            w == winner(rays@.take(k as int), px as int, py as int, *dir, *last),
            match w {
                Some(i) => {
                    &&& 0 <= i < k as int
                    &&& best_prio == Some(rays@[i].prio)
                    &&& new_direction == Some(ray_direction(rays@[i]))
                    &&& x_diff as int == ray_step(rays@[i]).0
                    &&& y_diff as int == ray_step(rays@[i]).1
                },
                None => {
                    &&& best_prio is None
                    &&& new_direction is None
                    &&& x_diff == 0
                    &&& y_diff == 0
                },
            },
            k <= rays.len(),
        decreases rays.len() - k,
    {
        let ray = &rays[k];
        proof {
            assert(rays@.take(k as int + 1).drop_last() =~= rays@.take(k as int));
        }
        if catches(ray, px, py, dir, last) {
            let skip = match best_prio {
                Some(b) => ray.prio > b,
                None => false,
            };
            if !skip {
                best_prio = Some(ray.prio);
                if ray.horizontal {
                    y_diff = 0;
                    if ray.reversed {
                        x_diff = 1;
                        new_direction = Some(Dir::Rightwards);
                    } else {
                        x_diff = -1;
                        new_direction = Some(Dir::Leftwards);
                    }
                } else {
                    x_diff = 0;
                    if ray.reversed {
                        y_diff = -1;
                        new_direction = Some(Dir::Upwards);
                    } else {
                        y_diff = 1;
                        new_direction = Some(Dir::Downwards);
                    }
                }
                proof {
                    w = Some(k as int);
                }
            }
        }
        k = k + 1;
    }
    proof {
        assert(rays@.take(rays@.len() as int) =~= rays@);
    }
    (x_diff, y_diff, new_direction)
}

/// One tick of the player's motion logic: resolves the rays against the
/// player's cell, updates the direction memory — on a change, the previous
/// direction is remembered — and returns the velocity signs to integrate.
pub fn step_player(rays: &Vec<Ray>, px: i32, py: i32, player: &mut Player) -> (v: (i32, i32))
    ensures
        ({
            let r = resolution(rays@, px as int, py as int, old(player).direction, old(player).last_direction);
            &&& v.0 as int == r.0
            &&& v.1 as int == r.1
            &&& final(player).direction == r.2
            &&& final(player).last_direction == if r.2 != old(player).direction {
                old(player).direction
            } else {
                old(player).last_direction
            }
        }),
{
    let (vx, vy, new_direction) = resolve_rays(rays, px, py, &player.direction, &player.last_direction);
    if player.direction != new_direction {
        player.last_direction = player.direction;
        player.direction = new_direction;
    }
    (vx, vy)
}

/// Law: the scan picks a least-priority candidate. When some ray catches
/// the player's cell, the winner is a catching ray whose priority value is
/// no larger than that of any catching ray, and it is the last such ray in
/// scan order; when none catches it, there is no winner.
pub proof fn lemma_winner_least_priority(rays: Seq<Ray>, px: int, py: int, dir: Option<Dir>, last: Option<Dir>)
    ensures
        match winner(rays, px, py, dir, last) {
            Some(i) => {
                &&& 0 <= i < rays.len()
                &&& ray_catches(rays[i], px, py, dir, last)
                &&& forall|j: int| 0 <= j < rays.len() && ray_catches(#[trigger] rays[j], px, py, dir, last)
                    ==> rays[i].prio <= rays[j].prio
                &&& forall|j: int| i < j < rays.len() && ray_catches(#[trigger] rays[j], px, py, dir, last)
                    ==> rays[i].prio < rays[j].prio
            },
            None => forall|j: int| 0 <= j < rays.len()
                ==> !ray_catches(#[trigger] rays[j], px, py, dir, last),
        },
    decreases rays.len(),
{
    if rays.len() > 0 {
        lemma_winner_least_priority(rays.drop_last(), px, py, dir, last);
        assert(forall|j: int| 0 <= j < rays.len() - 1 ==> rays.drop_last()[j] == rays[j]);
    }
}

} // verus!
