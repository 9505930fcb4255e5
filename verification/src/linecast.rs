//! Supercover line collision: integer Bresenham stepping across one z level,
//! with corner checks so a diagonal step cannot slip between two solid
//! orthogonal neighbours.

use vstd::prelude::*;

verus! {

use crate::{AIR, BlockId};
use crate::coordinates::WorldCoord;

/// Whether a queried voxel blocks the line: present and not empty.
pub open spec fn is_solid_spec(block: Option<BlockId>) -> bool {
    match block {
        Some(b) => b != AIR,
        None => false,
    }
}

pub fn is_solid(block: Option<BlockId>) -> (r: bool)
    ensures
        r == is_solid_spec(block),
{
    match block {
        Some(b) => b != AIR,
        None => false,
    }
}

/// One Bresenham traversal state: the walk is at `(x0, y0)` with running
/// error `err`, heading for `(x1, y1)`; `first` marks the untested start
/// cell. The result is `None` only when the fuel runs out first, which a
/// sufficient fuel rules out.
pub open spec fn walk(
    blocks: spec_fn(WorldCoord) -> Option<BlockId>,
    start: WorldCoord,
    x1: int,
    y1: int,
    z: int,
    dx: int,
    dy: int,
    sx: int,
    sy: int,
    x0: int,
    y0: int,
    err: int,
    first: bool,
    fuel: nat,
) -> Option<Option<WorldCoord>>
    decreases fuel,
{
    if fuel == 0 {
        None
    } else {
        let current = WorldCoord { x: x0 as i32, y: y0 as i32, z: z as i32 };
        if !first && is_solid_spec(blocks(current)) {
            Some(Some(current))
        } else if x0 == x1 && y0 == y1 {
            Some(None)
        } else {
            let e2 = 2 * err;
            let step_x = e2 > -dy;
            let step_y = e2 < dx;
            let nx = if step_x {
                x0 + sx
            } else {
                x0
            };
            let ny = if step_y {
                y0 + sy
            } else {
                y0
            };
            let nerr = err - (if step_x {
                dy
            } else {
                0
            }) + (if step_y {
                dx
            } else {
                0
            });
            let neighbour_x = WorldCoord { x: (nx - sx) as i32, y: ny as i32, z: z as i32 };
            let neighbour_y = WorldCoord { x: nx as i32, y: (ny - sy) as i32, z: z as i32 };
            if step_x && step_y && neighbour_x != start && is_solid_spec(blocks(neighbour_x)) {
                Some(Some(neighbour_x))
            } else if step_x && step_y && neighbour_y != start && is_solid_spec(
                blocks(neighbour_y),
            ) {
                Some(Some(neighbour_y))
            } else {
                walk(blocks, start, x1, y1, z, dx, dy, sx, sy, nx, ny, nerr, false, (fuel
                    - 1) as nat)
            }
        }
    }
}

/// What a whole line query returns over the voxel map `blocks`: the first
/// cell strictly after `start` that is solid on the supercover path toward
/// `end`, or `None` for a clear line.
pub open spec fn line_query(
    blocks: spec_fn(WorldCoord) -> Option<BlockId>,
    start: WorldCoord,
    end: WorldCoord,
) -> Option<Option<WorldCoord>> {
    let dx = if end.x >= start.x {
        end.x - start.x
    } else {
        start.x - end.x
    };
    let dy = if end.y >= start.y {
        end.y - start.y
    } else {
        start.y - end.y
    };
    let sx: int = if start.x < end.x {
        1
    } else if start.x > end.x {
        -1
    } else {
        0
    };
    let sy: int = if start.y < end.y {
        1
    } else if start.y > end.y {
        -1
    } else {
        0
    };
    walk(
        blocks,
        start,
        end.x as int,
        end.y as int,
        start.z as int,
        dx,
        dy,
        sx,
        sy,
        start.x as int,
        start.y as int,
        dx - dy,
        true,
        (dx + dy + 1) as nat,
    )
}

} // verus!

verus! {

/// Walks the supercover line from `start` toward `end` on one z level and
/// returns the first solid cell strictly after `start`, or `None` for a
/// clear line. `blocks` is the voxel map that the query closure answers
/// from.
pub fn first_solid_supercover<F: Fn(WorldCoord) -> Option<BlockId>>(
    block_at_world: F,
    start: WorldCoord,
    end: WorldCoord,
    Ghost(blocks): Ghost<spec_fn(WorldCoord) -> Option<BlockId>>,
) -> (r: Option<WorldCoord>)
    requires
        start.z == end.z,
        -0x0100_0000 <= start.x <= 0x0100_0000,
        -0x0100_0000 <= start.y <= 0x0100_0000,
        -0x0100_0000 <= end.x <= 0x0100_0000,
        -0x0100_0000 <= end.y <= 0x0100_0000,
        forall|c: WorldCoord| #[trigger] block_at_world.requires((c,)),
        forall|c: WorldCoord, out: Option<BlockId>|
            block_at_world.ensures((c,), out) ==> out == blocks(c),
    ensures
        line_query(blocks, start, end) == Some(r),
{
    let mut x0: i32 = start.x;
    let mut y0: i32 = start.y;
    let x1: i32 = end.x;
    let y1: i32 = end.y;
    let z: i32 = start.z;

    let dx: i64 = if x1 >= x0 {
        (x1 as i64) - (x0 as i64)
    } else {
        (x0 as i64) - (x1 as i64)
    };
    let dy: i64 = if y1 >= y0 {
        (y1 as i64) - (y0 as i64)
    } else {
        (y0 as i64) - (y1 as i64)
    };
    let sx: i32 = if x0 < x1 {
        1
    } else if x0 > x1 {
        -1
    } else {
        0
    };
    let sy: i32 = if y0 < y1 {
        1
    } else if y0 > y1 {
        -1
    } else {
        0
    };

    let mut err: i64 = dx - dy;
    let mut first_point = true;

    let ghost mut px: int = 0;
    let ghost mut py: int = 0;
    let ghost mut iters: int = 0;
    let ghost fuel0: int = dx + dy + 1;

    proof {
        assert(walk(
            blocks,
            start,
            x1 as int,
            y1 as int,
            z as int,
            dx as int,
            dy as int,
            sx as int,
            sy as int,
            x0 as int,
            y0 as int,
            err as int,
            first_point,
            fuel0 as nat,
        ) == line_query(blocks, start, end));
    }
    while !(x0 == x1 && y0 == y1)
        invariant
            start.z == end.z,
            z == start.z,
            x1 == end.x,
            y1 == end.y,
            -0x0100_0000 <= start.x <= 0x0100_0000,
            -0x0100_0000 <= start.y <= 0x0100_0000,
            -0x0100_0000 <= end.x <= 0x0100_0000,
            -0x0100_0000 <= end.y <= 0x0100_0000,
            0 <= dx <= 0x0200_0000,
            0 <= dy <= 0x0200_0000,
            (sx == 1 && end.x - start.x == dx) || (sx == -1 && start.x - end.x == dx) || (sx == 0
                && dx == 0 && start.x == end.x),
            (sy == 1 && end.y - start.y == dy) || (sy == -1 && start.y - end.y == dy) || (sy == 0
                && dy == 0 && start.y == end.y),
            0 <= px <= dx,
            0 <= py <= dy,
            x0 == start.x + px * sx,
            y0 == start.y + py * sy,
            err == dx * (1 + py) - dy * (1 + px),
            iters <= px + py,
            fuel0 == dx + dy + 1,
            first_point ==> px == 0 && py == 0,
            forall|c: WorldCoord| #[trigger] block_at_world.requires((c,)),
            forall|c: WorldCoord, out: Option<BlockId>|
                block_at_world.ensures((c,), out) ==> out == blocks(c),
            walk(
                blocks,
                start,
                x1 as int,
                y1 as int,
                z as int,
                dx as int,
                dy as int,
                sx as int,
                sy as int,
                x0 as int,
                y0 as int,
                err as int,
                first_point,
                (fuel0 - iters) as nat,
            ) == line_query(blocks, start, end),
        decreases dx + dy - px - py,
    {
        proof {
            // steps already taken never overshoot their axis
            if sx != 0 {
                assert(x0 - x1 == sx * (px - dx)) by (nonlinear_arith)
                    requires
                        x0 == start.x + px * sx,
                        (sx == 1 && end.x - start.x == dx) || (sx == -1 && start.x - end.x == dx),
                        x1 == end.x,
                ;
            }
            if sy != 0 {
                assert(y0 - y1 == sy * (py - dy)) by (nonlinear_arith)
                    requires
                        y0 == start.y + py * sy,
                        (sy == 1 && end.y - start.y == dy) || (sy == -1 && start.y - end.y == dy),
                        y1 == end.y,
                ;
            }
            assert(!(px == dx && py == dy));
            // the running error stays within machine range
            assert(-(dy * (1 + dx)) <= err <= dx * (1 + dy)) by (nonlinear_arith)
                requires
                    err == dx * (1 + py) - dy * (1 + px),
                    0 <= px <= dx,
                    0 <= py <= dy,
            ;
            assert(dx * (1 + dy) <= 0x0200_0000 * 0x0200_0001 && dy * (1 + dx) <= 0x0200_0000
                * 0x0200_0001) by (nonlinear_arith)
                requires
                    0 <= dx <= 0x0200_0000,
                    0 <= dy <= 0x0200_0000,
            ;
        }
        let current = WorldCoord::new(x0, y0, z);
        if !first_point {
            if is_solid(block_at_world(current)) {
                return Some(current);
            }
        }
        first_point = false;

        let e2 = 2 * err;
        let mut step_x = false;
        let mut step_y = false;

        proof {
            if px == dx && py < dy {
                assert(e2 <= -dy) by (nonlinear_arith)
                    requires
                        e2 == 2 * (dx * (1 + py) - dy * (1 + px)),
                        px == dx,
                        0 <= py <= dy - 1,
                        0 <= dx,
                ;
            }
            if py == dy && px < dx {
                assert(e2 >= dx) by (nonlinear_arith)
                    requires
                        e2 == 2 * (dx * (1 + py) - dy * (1 + px)),
                        py == dy,
                        0 <= px <= dx - 1,
                        0 <= dy,
                ;
            }
        }
        if e2 > -dy {
            proof {
                assert(px < dx);
            }
            err = err - dy;
            x0 = x0 + sx;
            step_x = true;
            proof {
                px = px + 1;
                assert(err == dx * (1 + py) - dy * (1 + px)) by (nonlinear_arith)
                    requires
                        err == dx * (1 + py) - dy * (1 + (px - 1)) - dy,
                ;
            }
        }
        if e2 < dx {
            proof {
                assert(py < dy);
            }
            err = err + dx;
            y0 = y0 + sy;
            step_y = true;
            proof {
                py = py + 1;
                assert(err == dx * (1 + py) - dy * (1 + px)) by (nonlinear_arith)
                    requires
                        err == dx * (1 + (py - 1)) - dy * (1 + px) + dx,
                ;
            }
        }
        proof {
            assert(step_x || step_y);
            iters = iters + 1;
        }

        if step_x && step_y {
            let neighbour_x = WorldCoord::new(x0 - sx, y0, z);
            if !(neighbour_x == start) && is_solid(block_at_world(neighbour_x)) {
                return Some(neighbour_x);
            }
            let neighbour_y = WorldCoord::new(x0, y0 - sy, z);
            if !(neighbour_y == start) && is_solid(block_at_world(neighbour_y)) {
                return Some(neighbour_y);
            }
        }
    }
    let current = WorldCoord::new(x0, y0, z);
    if !first_point {
        if is_solid(block_at_world(current)) {
            return Some(current);
        }
    }
    None
}

} // verus!
