//! The Hilbert space-filling curve on a square grid of side `2^order`.
//!
//! `coords_to_rank` maps a pixel coordinate to its position along the curve,
//! `rank_to_coords` maps it back; both directions are proved to be exact
//! inverses, and the ranks of the full grid are proved to cover
//! `{0, ..., 4^order - 1}` exactly once.

use vstd::prelude::*;

verus! {

use vstd::arithmetic::power2::pow2;
use vstd::arithmetic::power2::lemma_pow2_strictly_increases;
use vstd::arithmetic::power2::lemma2_to64;
use vstd::arithmetic::div_mod::lemma_fundamental_div_mod_converse;

/// Side length of the grid of the given curve order.
pub open spec fn grid_side(order: nat) -> nat {
    pow2(order)
}

/// Number of cells in the grid of the given curve order: `4^order`.
pub open spec fn grid_cells(order: nat) -> nat {
    pow2(order) * pow2(order)
}

/// Rank of `(x, y)` along the Hilbert curve of the given order, by the
/// standard quadrant recursion: the four quadrants are visited in the order
/// lower-left, upper-left, upper-right, lower-right; the first quadrant is
/// entered transposed and the last one rotated by a half turn and transposed.
pub open spec fn hilbert_rank(x: int, y: int, order: nat) -> int
    decreases order,
{
    if order == 0 {
        0
    } else {
        let s = pow2((order - 1) as nat) as int;
        let cell = s * s;
        if x < s && y < s {
            hilbert_rank(y, x, (order - 1) as nat)
        } else if x < s {
            cell + hilbert_rank(x, y - s, (order - 1) as nat)
        } else if y >= s {
            2 * cell + hilbert_rank(x - s, y - s, (order - 1) as nat)
        } else {
            3 * cell + hilbert_rank(s - 1 - y, 2 * s - 1 - x, (order - 1) as nat)
        }
    }
}

/// Coordinates of the cell with the given rank along the Hilbert curve of the
/// given order: the inverse of `hilbert_rank`, quadrant by quadrant.
pub open spec fn hilbert_coords(r: int, order: nat) -> (int, int)
    decreases order,
{
    if order == 0 {
        (0, 0)
    } else {
        let s = pow2((order - 1) as nat) as int;
        let cell = s * s;
        let q = r / cell;
        let sub = hilbert_coords(r % cell, (order - 1) as nat);
        if q == 0 {
            (sub.1, sub.0)
        } else if q == 1 {
            (sub.0, sub.1 + s)
        } else if q == 2 {
            (sub.0 + s, sub.1 + s)
        } else {
            (2 * s - 1 - sub.1, s - 1 - sub.0)
        }
    }
}

/// Grids of order zero have one cell.
proof fn lemma_unit_grid()
    ensures
        grid_side(0) == 1,
        grid_cells(0) == 1,
{
    lemma2_to64();
}

/// Relates a grid of positive order to the quadrants it splits into.
proof fn lemma_quadrant_split(order: nat)
    requires
        1 <= order,
    ensures
        pow2(order) == 2 * pow2((order - 1) as nat),
        1 <= pow2((order - 1) as nat),
        grid_cells(order) == 4 * (pow2((order - 1) as nat) * pow2((order - 1) as nat)),
{
    vstd::arithmetic::power2::lemma_pow2_unfold(order);
    vstd::arithmetic::power2::lemma_pow2_pos((order - 1) as nat);
    let p = pow2((order - 1) as nat) as int;
    assert((2 * p) * (2 * p) == 4 * (p * p)) by (nonlinear_arith);
}

/// The rank of any grid cell lies in `[0, 4^order)`.
pub proof fn lemma_rank_in_range(x: int, y: int, order: nat)
    requires
        0 <= x < grid_side(order),
        0 <= y < grid_side(order),
    ensures
        0 <= hilbert_rank(x, y, order) < grid_cells(order),
    decreases order,
{
    if order == 0 {
        lemma_unit_grid();
    } else {
        let s = pow2((order - 1) as nat) as int;
        let cell = s * s;
        lemma_quadrant_split(order);
        if x < s && y < s {
            lemma_rank_in_range(y, x, (order - 1) as nat);
        } else if x < s {
            lemma_rank_in_range(x, y - s, (order - 1) as nat);
        } else if y >= s {
            lemma_rank_in_range(x - s, y - s, (order - 1) as nat);
        } else {
            lemma_rank_in_range(s - 1 - y, 2 * s - 1 - x, (order - 1) as nat);
        }
    }
}

/// The coordinates of any rank in `[0, 4^order)` lie inside the grid.
pub proof fn lemma_coords_in_range(r: int, order: nat)
    requires
        0 <= r < grid_cells(order),
    ensures
        0 <= hilbert_coords(r, order).0 < grid_side(order),
        0 <= hilbert_coords(r, order).1 < grid_side(order),
    decreases order,
{
    if order == 0 {
        lemma_unit_grid();
    } else {
        let s = pow2((order - 1) as nat) as int;
        let cell = s * s;
        lemma_quadrant_split(order);
        assert(cell >= 1) by {
            vstd::arithmetic::mul::lemma_mul_strictly_positive(s, s);
        }
        assert(0 <= r % cell < cell) by {
            vstd::arithmetic::div_mod::lemma_mod_bound(r, cell);
        }
        assert(0 <= r / cell <= 3) by {
            vstd::arithmetic::div_mod::lemma_div_pos_is_pos(r, cell);
            vstd::arithmetic::div_mod::lemma_div_is_ordered(r, 4 * cell - 1, cell);
            assert((4 * cell - 1) / cell == 3) by {
                lemma_fundamental_div_mod_converse(4 * cell - 1, cell, 3, cell - 1);
            }
        }
        lemma_coords_in_range(r % cell, (order - 1) as nat);
    }
}

/// Round trip out of coordinates: mapping a grid cell to its rank and back
/// returns the same cell.
pub proof fn lemma_coords_of_rank(x: int, y: int, order: nat)
    requires
        0 <= x < grid_side(order),
        0 <= y < grid_side(order),
    ensures
        hilbert_coords(hilbert_rank(x, y, order), order) == (x, y),
    decreases order,
{
    if order == 0 {
        lemma_unit_grid();
    } else {
        let s = pow2((order - 1) as nat) as int;
        let cell = s * s;
        lemma_quadrant_split(order);
        let o1 = (order - 1) as nat;
        if x < s && y < s {
            let t = hilbert_rank(y, x, o1);
            lemma_rank_in_range(y, x, o1);
            lemma_fundamental_div_mod_converse(t, cell, 0, t);
            lemma_coords_of_rank(y, x, o1);
        } else if x < s {
            let t = hilbert_rank(x, y - s, o1);
            lemma_rank_in_range(x, y - s, o1);
            lemma_fundamental_div_mod_converse(cell + t, cell, 1, t);
            lemma_coords_of_rank(x, y - s, o1);
        } else if y >= s {
            let t = hilbert_rank(x - s, y - s, o1);
            lemma_rank_in_range(x - s, y - s, o1);
            lemma_fundamental_div_mod_converse(2 * cell + t, cell, 2, t);
            lemma_coords_of_rank(x - s, y - s, o1);
        } else {
            let t = hilbert_rank(s - 1 - y, 2 * s - 1 - x, o1);
            lemma_rank_in_range(s - 1 - y, 2 * s - 1 - x, o1);
            lemma_fundamental_div_mod_converse(3 * cell + t, cell, 3, t);
            lemma_coords_of_rank(s - 1 - y, 2 * s - 1 - x, o1);
        }
    }
}

/// Round trip out of a rank: mapping a rank in `[0, 4^order)` to its grid
/// cell and back returns the same rank.
pub proof fn lemma_rank_of_coords(r: int, order: nat)
    requires
        0 <= r < grid_cells(order),
    ensures
        hilbert_rank(hilbert_coords(r, order).0, hilbert_coords(r, order).1, order) == r,
    decreases order,
{
    if order == 0 {
        lemma_unit_grid();
    } else {
        let s = pow2((order - 1) as nat) as int;
        let cell = s * s;
        lemma_quadrant_split(order);
        let o1 = (order - 1) as nat;
        assert(cell >= 1) by {
            vstd::arithmetic::mul::lemma_mul_strictly_positive(s, s);
        }
        assert(0 <= r % cell < cell) by {
            vstd::arithmetic::div_mod::lemma_mod_bound(r, cell);
        }
        assert(0 <= r / cell <= 3) by {
            vstd::arithmetic::div_mod::lemma_div_pos_is_pos(r, cell);
            vstd::arithmetic::div_mod::lemma_div_is_ordered(r, 4 * cell - 1, cell);
            assert((4 * cell - 1) / cell == 3) by {
                lemma_fundamental_div_mod_converse(4 * cell - 1, cell, 3, cell - 1);
            }
        }
        assert(r == (r / cell) * cell + r % cell) by {
            vstd::arithmetic::div_mod::lemma_fundamental_div_mod(r, cell);
        }
        lemma_coords_in_range(r % cell, o1);
        lemma_rank_of_coords(r % cell, o1);
    }
}

/// The curve visits every grid cell exactly once: over the full grid the
/// ranks cover `{0, ..., 4^order - 1}` with no rank repeated.
pub proof fn lemma_rank_bijective(order: nat)
    ensures
        forall|x: int, y: int|
            0 <= x < grid_side(order) && 0 <= y < grid_side(order) ==> 0 <= #[trigger] hilbert_rank(
                x,
                y,
                order,
            ) < grid_cells(order),
        forall|x1: int, y1: int, x2: int, y2: int|
            0 <= x1 < grid_side(order) && 0 <= y1 < grid_side(order) && 0 <= x2 < grid_side(order)
                && 0 <= y2 < grid_side(order) && #[trigger] hilbert_rank(x1, y1, order)
                == #[trigger] hilbert_rank(x2, y2, order) ==> x1 == x2 && y1 == y2,
        forall|r: int|
            0 <= r < grid_cells(order) ==> {
                let c = #[trigger] hilbert_coords(r, order);
                0 <= c.0 < grid_side(order) && 0 <= c.1 < grid_side(order) && hilbert_rank(
                    c.0,
                    c.1,
                    order,
                ) == r
            },
{
    assert forall|x: int, y: int|
        0 <= x < grid_side(order) && 0 <= y < grid_side(order) implies 0 <= #[trigger] hilbert_rank(
        x,
        y,
        order,
    ) < grid_cells(order) by {
        lemma_rank_in_range(x, y, order);
    }
    assert forall|x1: int, y1: int, x2: int, y2: int|
        0 <= x1 < grid_side(order) && 0 <= y1 < grid_side(order) && 0 <= x2 < grid_side(order) && 0
            <= y2 < grid_side(order) && #[trigger] hilbert_rank(x1, y1, order)
            == #[trigger] hilbert_rank(x2, y2, order) implies x1 == x2 && y1 == y2 by {
        lemma_coords_of_rank(x1, y1, order);
        lemma_coords_of_rank(x2, y2, order);
    }
    assert forall|r: int| 0 <= r < grid_cells(order) implies {
        let c = #[trigger] hilbert_coords(r, order);
        0 <= c.0 < grid_side(order) && 0 <= c.1 < grid_side(order) && hilbert_rank(c.0, c.1, order)
            == r
    } by {
        lemma_coords_in_range(r, order);
        lemma_rank_of_coords(r, order);
    }
}

/// Side length `2^order` of the grid, as a machine integer.
pub fn side_length(order: u8) -> (r: u32)
    requires
        order <= 31,
    ensures
        r == grid_side(order as nat),
    decreases order,
{
    if order == 0 {
        proof {
            lemma2_to64();
        }
        1
    } else {
        let half: u32 = side_length(order - 1);
        proof {
            lemma2_to64();
            if ((order - 1) as nat) < 31 {
                lemma_pow2_strictly_increases((order - 1) as nat, 31);
            }
            vstd::arithmetic::power2::lemma_pow2_unfold(order as nat);
        }
        2 * half
    }
}

/// Rank of the pixel `(x, y)` along the Hilbert curve of the given order.
pub fn coords_to_rank(x: u32, y: u32, order: u8) -> (r: u64)
    requires
        order <= 31,
        x < grid_side(order as nat),
        y < grid_side(order as nat),
    ensures
        r == hilbert_rank(x as int, y as int, order as nat),
        r < grid_cells(order as nat),
    decreases order,
{
    proof {
        lemma_rank_in_range(x as int, y as int, order as nat);
    }
    if order == 0 {
        0
    } else {
        let s: u32 = side_length(order - 1);
        proof {
            lemma2_to64();
            vstd::arithmetic::power2::lemma_pow2_pos((order - 1) as nat);
            if ((order - 1) as nat) < 30 {
                lemma_pow2_strictly_increases((order - 1) as nat, 30);
            }
            vstd::arithmetic::power2::lemma_pow2_unfold(order as nat);
            assert((s as int) * (s as int) <= 0x1000000000000000) by (nonlinear_arith)
                requires
                    0 <= (s as int) <= 0x40000000,
            ;
        }
        let cell: u64 = (s as u64) * (s as u64);
        if x < s && y < s {
            coords_to_rank(y, x, order - 1)
        } else if x < s {
            cell + coords_to_rank(x, y - s, order - 1)
        } else if y >= s {
            2 * cell + coords_to_rank(x - s, y - s, order - 1)
        } else {
            3 * cell + coords_to_rank(s - 1 - y, 2 * s - 1 - x, order - 1)
        }
    }
}

/// Grid cell of the pixel with the given rank: the exact inverse of
/// `coords_to_rank`.
pub fn rank_to_coords(r: u64, order: u8) -> (c: (u32, u32))
    requires
        order <= 31,
        r < grid_cells(order as nat),
    ensures
        (c.0 as int, c.1 as int) == hilbert_coords(r as int, order as nat),
        c.0 < grid_side(order as nat),
        c.1 < grid_side(order as nat),
        hilbert_rank(c.0 as int, c.1 as int, order as nat) == r,
    decreases order,
{
    proof {
        lemma_coords_in_range(r as int, order as nat);
        lemma_rank_of_coords(r as int, order as nat);
    }
    if order == 0 {
        (0, 0)
    } else {
        let s: u32 = side_length(order - 1);
        proof {
            lemma2_to64();
            vstd::arithmetic::power2::lemma_pow2_pos((order - 1) as nat);
            if ((order - 1) as nat) < 30 {
                lemma_pow2_strictly_increases((order - 1) as nat, 30);
            }
            vstd::arithmetic::power2::lemma_pow2_unfold(order as nat);
            vstd::arithmetic::mul::lemma_mul_strictly_positive(s as int, s as int);
            vstd::arithmetic::div_mod::lemma_mod_bound(r as int, (s as int) * (s as int));
            assert((s as int) * (s as int) <= 0x1000000000000000) by (nonlinear_arith)
                requires
                    0 <= (s as int) <= 0x40000000,
            ;
        }
        let cell: u64 = (s as u64) * (s as u64);
        let q: u64 = r / cell;
        let sub: (u32, u32) = rank_to_coords(r % cell, order - 1);
        if q == 0 {
            (sub.1, sub.0)
        } else if q == 1 {
            (sub.0, sub.1 + s)
        } else if q == 2 {
            (sub.0 + s, sub.1 + s)
        } else {
            (2 * s - 1 - sub.1, s - 1 - sub.0)
        }
    }
}

} // verus!
