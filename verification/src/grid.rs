//! Cells of a square grid whose edges wrap around: how a cell is packed
//! into one number, and how many of its eight neighbours are alive.

use crate::cells::CoordinateSet;
use vstd::arithmetic::power2::pow2;
use vstd::prelude::*;

verus! {

/// The number that stands for cell `(x, y)` on a grid of side `n`: row
/// after row, `x * n + y`. Where `n` is a power of two this is `x` shifted
/// left by the position of `n`'s set bit, with `y` in the low bits.
pub open spec fn packed(x: int, y: int, n: int) -> int {
    x * n + y
}

/// Where `step` cells on from `position` lies on an axis of `n` cells that
/// wraps around.
pub open spec fn wrapped(position: int, step: int, n: int) -> int {
    (position + step) % n
}

/// Whether the cell `(dx, dy)` away from `(x, y)` is another cell than
/// `(x, y)` and is in `cells`.
pub open spec fn live_at(cells: Seq<u32>, x: int, y: int, dx: int, dy: int, n: int) -> bool {
    let nx = wrapped(x, dx, n);
    let ny = wrapped(y, dy, n);
    (nx != wrapped(x, 0, n) || ny != wrapped(y, 0, n)) && 0 <= packed(nx, ny, n) <= u32::MAX
        && cells.contains(packed(nx, ny, n) as u32)
}

/// 1 where `live_at` holds, else 0.
pub open spec fn live_count_at(cells: Seq<u32>, x: int, y: int, dx: int, dy: int, n: int) -> nat {
    if live_at(cells, x, y, dx, dy, n) {
        1
    } else {
        0
    }
}

/// The number of the eight offsets around `(x, y)` at which a live cell
/// other than `(x, y)` itself lies, on a grid of side `n` that wraps around.
/// A grid of side 0 has no cells, so no neighbours either.
pub open spec fn live_neighbours(cells: Seq<u32>, x: int, y: int, n: int) -> nat {
    if n <= 0 {
        0
    } else {
        live_count_at(cells, x, y, -1, -1, n) + live_count_at(cells, x, y, -1, 0, n)
            + live_count_at(cells, x, y, -1, 1, n) + live_count_at(cells, x, y, 0, -1, n)
            + live_count_at(cells, x, y, 0, 1, n) + live_count_at(cells, x, y, 1, -1, n)
            + live_count_at(cells, x, y, 1, 0, n) + live_count_at(cells, x, y, 1, 1, n)
    }
}

/// Packs cell `(x, y)` of a grid of side `grid_dimension`. There is no
/// packed value for a cell outside the grid, nor for one whose number does
/// not fit in 32 bits.
pub fn pack(x: u32, y: u32, grid_dimension: u32) -> (value: Option<u32>)
    ensures
        value == if x < grid_dimension && y < grid_dimension && packed(
            x as int,
            y as int,
            grid_dimension as int,
        ) <= u32::MAX {
            Some(packed(x as int, y as int, grid_dimension as int) as u32)
        } else {
            None
        },
{
    if x >= grid_dimension || y >= grid_dimension {
        return None;
    }
    assert(x as u64 * grid_dimension as u64 <= 0xffff_ffff * 0xffff_ffff) by (nonlinear_arith)
        requires
            x <= 0xffff_ffff,
            grid_dimension <= 0xffff_ffff,
    ;
    let value: u64 = x as u64 * grid_dimension as u64 + y as u64;
    if value > u32::MAX as u64 {
        None
    } else {
        Some(value as u32)
    }
}

/// The cell that a packed value stands for on a grid of side
/// `grid_dimension`; none if the value is not below the number of cells.
pub fn unpack(value: u32, grid_dimension: u32) -> (cell: Option<(u32, u32)>)
    ensures
        cell == if grid_dimension > 0 && value < grid_dimension * grid_dimension {
            Some(((value / grid_dimension) as u32, (value % grid_dimension) as u32))
        } else {
            None
        },
        cell matches Some((x, y)) ==> x < grid_dimension && y < grid_dimension && packed(
            x as int,
            y as int,
            grid_dimension as int,
        ) == value,
{
    if grid_dimension == 0 {
        return None;
    }
    let x = value / grid_dimension;
    let y = value % grid_dimension;
    proof {
        let n = grid_dimension as int;
        vstd::arithmetic::div_mod::lemma_fundamental_div_mod(value as int, n);
        assert(n * (value as int / n) == (value as int / n) * n) by (nonlinear_arith);
        if x < grid_dimension {
            assert((x as int) * n + y < n * n) by (nonlinear_arith)
                requires
                    0 <= x < n,
                    0 <= y < n,
            ;
        } else {
            assert((x as int) * n + y >= n * n) by (nonlinear_arith)
                requires
                    x >= n,
                    n > 0,
                    y >= 0,
            ;
        }
    }
    if x >= grid_dimension {
        None
    } else {
        Some((x, y))
    }
}

fn step_back(position: u32, n: u32) -> (place: u32)
    requires
        n > 0,
    ensures
        place == wrapped(position as int, -1, n as int),
        place < n,
{
    let here = position % n;
    proof {
        let p = position as int;
        let m = n as int;
        vstd::arithmetic::div_mod::lemma_fundamental_div_mod(p, m);
        assert(m * (p / m) == (p / m) * m) by (nonlinear_arith);
        if here == 0 {
            assert((p / m - 1) * m + (m - 1) == (p / m) * m - 1) by (nonlinear_arith);
            vstd::arithmetic::div_mod::lemma_fundamental_div_mod_converse(
                p - 1,
                m,
                p / m - 1,
                m - 1,
            );
        } else {
            vstd::arithmetic::div_mod::lemma_fundamental_div_mod_converse(
                p - 1,
                m,
                p / m,
                here - 1,
            );
        }
    }
    if here == 0 {
        n - 1
    } else {
        here - 1
    }
}

fn step_on(position: u32, n: u32) -> (place: u32)
    requires
        n > 0,
    ensures
        place == wrapped(position as int, 1, n as int),
        place < n,
{
    let here = position % n;
    proof {
        let p = position as int;
        let m = n as int;
        vstd::arithmetic::div_mod::lemma_fundamental_div_mod(p, m);
        assert(m * (p / m) == (p / m) * m) by (nonlinear_arith);
        if here == n - 1 {
            assert((p / m) * m + m == (p / m + 1) * m) by (nonlinear_arith);
            vstd::arithmetic::div_mod::lemma_fundamental_div_mod_converse(p + 1, m, p / m + 1, 0);
        } else {
            vstd::arithmetic::div_mod::lemma_fundamental_div_mod_converse(
                p + 1,
                m,
                p / m,
                here + 1,
            );
        }
    }
    if here == n - 1 {
        0
    } else {
        here + 1
    }
}

fn is_live(set: &CoordinateSet, nx: u32, ny: u32, n: u32) -> (alive: bool)
    requires
        nx < n,
        ny < n,
    ensures
        alive == (packed(nx as int, ny as int, n as int) <= u32::MAX && set@.contains(
            packed(nx as int, ny as int, n as int) as u32,
        )),
{
    match pack(nx, ny, n) {
        Some(value) => set.contains(value),
        None => false,
    }
}

fn live_in_direction(
    set: &CoordinateSet,
    x: u32,
    y: u32,
    nx: u32,
    ny: u32,
    n: u32,
    Ghost(dx): Ghost<int>,
    Ghost(dy): Ghost<int>,
) -> (count: usize)
    requires
        n > 0,
        nx == wrapped(x as int, dx, n as int),
        ny == wrapped(y as int, dy, n as int),
    ensures
        count == live_count_at(set@, x as int, y as int, dx, dy, n as int),
{
    if nx == x % n && ny == y % n {
        0
    } else if is_live(set, nx, ny, n) {
        1
    } else {
        0
    }
}

/// Counts the live cells among the eight neighbours of `coordinate`, given
/// as `(x, y)`, on a grid of side `grid_dimension` whose edges wrap around.
/// The cell itself is never counted, not even where the grid is so small
/// that a step leads back to it.
pub fn neighbour_count(set: &CoordinateSet, coordinate: (u32, u32), grid_dimension: u32) -> (count:
    usize)
    ensures
        count == live_neighbours(
            set@,
            coordinate.0 as int,
            coordinate.1 as int,
            grid_dimension as int,
        ),
        count <= 8,
{
    let n = grid_dimension;
    if n == 0 {
        return 0;
    }
    let (x, y) = coordinate;
    let left = step_back(x, n);
    let right = step_on(x, n);
    let column = x % n;
    let below = step_back(y, n);
    let above = step_on(y, n);
    let row = y % n;
    let mut count: usize = 0;
    count = count + live_in_direction(set, x, y, left, below, n, Ghost(-1), Ghost(-1));
    count = count + live_in_direction(set, x, y, left, row, n, Ghost(-1), Ghost(0));
    count = count + live_in_direction(set, x, y, left, above, n, Ghost(-1), Ghost(1));
    count = count + live_in_direction(set, x, y, column, below, n, Ghost(0), Ghost(-1));
    count = count + live_in_direction(set, x, y, column, above, n, Ghost(0), Ghost(1));
    count = count + live_in_direction(set, x, y, right, below, n, Ghost(1), Ghost(-1));
    count = count + live_in_direction(set, x, y, right, row, n, Ghost(1), Ghost(0));
    count = count + live_in_direction(set, x, y, right, above, n, Ghost(1), Ghost(1));
    count
}

impl CoordinateSet {
    /// Counts the live neighbours of the cell at position `index` of the
    /// set, read as a cell of a grid of side `grid_dimension`.
    pub fn neighbours(&self, index: usize, grid_dimension: u32) -> (count: usize)
        requires
            index < self@.len(),
        ensures
            count == live_neighbours(
                self@,
                self@[index as int] as int / grid_dimension as int,
                self@[index as int] as int % grid_dimension as int,
                grid_dimension as int,
            ),
            count <= 8,
    {
        if grid_dimension == 0 {
            return 0;
        }
        let value = match self.get(index) {
            Some(value) => value,
            None => 0,
        };
        neighbour_count(self, (value / grid_dimension, value % grid_dimension), grid_dimension)
    }
}

/// A cell of the grid is told from its packed value: the row is the value
/// divided by the side, the column is the remainder.
pub proof fn lemma_packed_splits(x: int, y: int, n: int)
    requires
        0 <= x,
        0 <= y < n,
    ensures
        packed(x, y, n) / n == x,
        packed(x, y, n) % n == y,
{
    vstd::arithmetic::div_mod::lemma_fundamental_div_mod_converse(packed(x, y, n), n, x, y);
}

/// On a grid whose side is two to the power `shift`, packing a cell is
/// shifting `x` left by `shift` and putting `y` in the low bits.
pub proof fn lemma_packed_is_shifted(x: u32, y: u32, shift: u32)
    requires
        shift <= 16,
        x < pow2(shift as nat),
        y < pow2(shift as nat),
    ensures
        packed(x as int, y as int, pow2(shift as nat) as int) == (x << shift) | y,
{
    vstd::arithmetic::power2::lemma2_to64();
    vstd::arithmetic::power2::lemma_pow2_strictly_increases(shift as nat, 17);
    vstd::bits::lemma_u32_shl_is_mul(1, shift);
    let side: u32 = 1u32 << shift;
    assert(x * side + y == (x << shift) | y) by (bit_vector)
        requires
            shift <= 16,
            side == 1u32 << shift,
            x < side,
            y < side,
    ;
}

} // verus!
