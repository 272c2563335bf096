use vstd::prelude::*;

verus! {

/// Width of the virtual drawing grid; the stored canvas is its left half.
pub const VIRTUAL_WIDTH: u64 = 64;

/// Height of the virtual drawing grid.
pub const HEIGHT: u64 = 64;

/// A quarter of the (square) virtual grid's side: the margin on each side, and the
/// span over which a direction's weight ramps up.
pub const QUARTER_SPAN: u64 = VIRTUAL_WIDTH / 4;

/// The walk stays in `LEFT_MARGIN..RIGHT_BOUNDARY` × `TOP_MARGIN..BOTTOM_BOUNDARY`.
pub const LEFT_MARGIN: u64 = VIRTUAL_WIDTH / 4;

pub const RIGHT_BOUNDARY: u64 = 3 * VIRTUAL_WIDTH / 4;

pub const TOP_MARGIN: u64 = HEIGHT / 4;

pub const BOTTOM_BOUNDARY: u64 = 3 * HEIGHT / 4;

/// Fixed-point unit of a direction's weight.
pub const SCALE: u32 = 1_000_000;

/// One step of a walk.
#[derive(Clone, Copy, Debug, PartialEq, Eq, Structural)]
pub enum Direction {
    Left,
    Right,
    Up,
    Down,
}

/// `a - b`, or 0 when `b` is the larger.
pub open spec fn gap(a: int, b: int) -> int {
    if a > b {
        a - b
    } else {
        0
    }
}

/// Weight of a direction with `room` cells before its margin: a linear ramp over a
/// quarter span, saturating at `SCALE`.
pub open spec fn pull_weight(room: int) -> int {
    if room >= QUARTER_SPAN {
        SCALE as int
    } else {
        room * SCALE / QUARTER_SPAN as int
    }
}

pub open spec fn left_weight(x: int) -> int {
    pull_weight(gap(x, LEFT_MARGIN as int))
}

pub open spec fn right_weight(x: int) -> int {
    pull_weight(gap(RIGHT_BOUNDARY as int, x))
}

pub open spec fn up_weight(y: int) -> int {
    pull_weight(gap(y, TOP_MARGIN as int))
}

pub open spec fn down_weight(y: int) -> int {
    pull_weight(gap(BOTTOM_BOUNDARY as int, y))
}

pub open spec fn total_weight(x: int, y: int) -> int {
    left_weight(x) + right_weight(x) + up_weight(y) + down_weight(y)
}

/// The direction that the draw `rand_val` picks at cursor `(x, y)`: the four weights
/// split `0..total` into consecutive buckets in the order Left, Right, Up, Down, and
/// `rand_val % total` falls into one of them.
pub open spec fn direction_of(rand_val: u32, x: int, y: int) -> Direction {
    let v = rand_val as int % total_weight(x, y);
    if v < left_weight(x) {
        Direction::Left
    } else if v < left_weight(x) + right_weight(x) {
        Direction::Right
    } else if v < left_weight(x) + right_weight(x) + up_weight(y) {
        Direction::Up
    } else {
        Direction::Down
    }
}

/// The cursor after a step: it moves one cell unless that would leave the region.
pub open spec fn moved(x: int, y: int, d: Direction) -> (int, int) {
    match d {
        Direction::Left => if x > LEFT_MARGIN {
            (x - 1, y)
        } else {
            (x, y)
        },
        Direction::Right => if x < RIGHT_BOUNDARY - 1 {
            (x + 1, y)
        } else {
            (x, y)
        },
        Direction::Up => if y > TOP_MARGIN {
            (x, y - 1)
        } else {
            (x, y)
        },
        Direction::Down => if y < BOTTOM_BOUNDARY - 1 {
            (x, y + 1)
        } else {
            (x, y)
        },
    }
}

/// The canvas column of virtual column `x`: the right half folds onto the left.
pub open spec fn fold_x(x: int) -> int {
    if x >= VIRTUAL_WIDTH / 2 {
        VIRTUAL_WIDTH - x - 1
    } else {
        x
    }
}

/// Whatever the cursor, one of Left and Right and one of Up and Down weigh `SCALE`,
/// and no weight exceeds it.
pub proof fn lemma_weights_bounded(x: int, y: int)
    ensures
        0 <= left_weight(x) <= SCALE,
        0 <= right_weight(x) <= SCALE,
        0 <= up_weight(y) <= SCALE,
        0 <= down_weight(y) <= SCALE,
        left_weight(x) + right_weight(x) >= SCALE,
        up_weight(y) + down_weight(y) >= SCALE,
        2 * SCALE <= total_weight(x, y) <= 4 * SCALE,
{
    lemma_pull_weight_bounded(gap(x, LEFT_MARGIN as int));
    lemma_pull_weight_bounded(gap(RIGHT_BOUNDARY as int, x));
    lemma_pull_weight_bounded(gap(y, TOP_MARGIN as int));
    lemma_pull_weight_bounded(gap(BOTTOM_BOUNDARY as int, y));
}

proof fn lemma_pull_weight_bounded(room: int)
    requires
        room >= 0,
    ensures
        0 <= pull_weight(room) <= SCALE,
{
    if room < QUARTER_SPAN {
        assert(0 <= room * 1_000_000 / 16 <= 1_000_000) by (nonlinear_arith)
            requires
                0 <= room < 16,
        ;
    }
}

fn weight(room: u64) -> (r: u32)
    ensures
        r == pull_weight(room as int),
{
    if room >= QUARTER_SPAN {
        SCALE
    } else {
        proof {
            lemma_pull_weight_bounded(room as int);
        }
        ((room * SCALE as u64) / QUARTER_SPAN) as u32
    }
}

/// Picks a direction from one keystream draw, with integer weights only.
pub fn decide_direction_fixed(rand_val: u32, cursor_x: u64, cursor_y: u64) -> (r: Direction)
    ensures
        r == direction_of(rand_val, cursor_x as int, cursor_y as int),
{
    proof {
        lemma_weights_bounded(cursor_x as int, cursor_y as int);
    }
    let left_prob = weight(cursor_x.saturating_sub(LEFT_MARGIN));
    let right_prob = weight(RIGHT_BOUNDARY.saturating_sub(cursor_x));
    let up_prob = weight(cursor_y.saturating_sub(TOP_MARGIN));
    let down_prob = weight(BOTTOM_BOUNDARY.saturating_sub(cursor_y));
    let total = left_prob + right_prob + up_prob + down_prob;
    let value = rand_val % total;
    if value < left_prob {
        Direction::Left
    } else if value < left_prob + right_prob {
        Direction::Right
    } else if value < left_prob + right_prob + up_prob {
        Direction::Up
    } else {
        Direction::Down
    }
}

/// Moves the cursor one cell in `direction`, unless that would leave the region.
pub fn move_cursor(cursor_x: u64, cursor_y: u64, direction: Direction) -> (r: (u64, u64))
    ensures
        (r.0 as int, r.1 as int) == moved(cursor_x as int, cursor_y as int, direction),
{
    match direction {
        Direction::Left => if cursor_x > LEFT_MARGIN {
            (cursor_x - 1, cursor_y)
        } else {
            (cursor_x, cursor_y)
        },
        Direction::Right => if cursor_x < RIGHT_BOUNDARY - 1 {
            (cursor_x + 1, cursor_y)
        } else {
            (cursor_x, cursor_y)
        },
        Direction::Up => if cursor_y > TOP_MARGIN {
            (cursor_x, cursor_y - 1)
        } else {
            (cursor_x, cursor_y)
        },
        Direction::Down => if cursor_y < BOTTOM_BOUNDARY - 1 {
            (cursor_x, cursor_y + 1)
        } else {
            (cursor_x, cursor_y)
        },
    }
}

/// The canvas column that virtual column `x` is stored in.
pub fn physical_x(x: u64) -> (r: u64)
    requires
        x < VIRTUAL_WIDTH,
    ensures
        r == fold_x(x as int),
        r < VIRTUAL_WIDTH / 2,
{
    if x >= VIRTUAL_WIDTH / 2 {
        VIRTUAL_WIDTH - x - 1
    } else {
        x
    }
}

} // verus!
