//! Boundary detection and orientation on a material mask, the integer
//! part of turning an offset mask into toolpaths.
use vstd::prelude::*;
use crate::raster::{adjacent, lemma_index_in_grid, lemma_index_injective};

verus! {

/// Cell state: the cell touches a cell of the other kind.
pub const STATE_BOUNDARY: u8 = 1;

/// Cell state: material cell whose neighbours are all material.
pub const STATE_INTERIOR: u8 = 2;

/// Cell state: empty cell whose neighbours are all empty.
pub const STATE_EXTERIOR: u8 = 3;

/// The cell at column `x` of row `y` of a row-major grid `nx` wide.
pub open spec fn cell<T>(g: Seq<T>, nx: int, x: int, y: int) -> T {
    g[y * nx + x]
}

/// The neighbour at offset (`dx`, `dy`) lies in the grid and differs
/// from the cell.
pub open spec fn differs(b: Seq<bool>, nx: int, ny: int, x: int, y: int, dx: int, dy: int) -> bool {
    0 <= x + dx < nx && 0 <= y + dy < ny && cell(b, nx, x + dx, y + dy) != cell(b, nx, x, y)
}

/// Some of the eight neighbours of the cell differs from it.
pub open spec fn on_edge(b: Seq<bool>, nx: int, ny: int, x: int, y: int) -> bool {
    ||| differs(b, nx, ny, x, y, -1, -1)
    ||| differs(b, nx, ny, x, y, 0, -1)
    ||| differs(b, nx, ny, x, y, 1, -1)
    ||| differs(b, nx, ny, x, y, -1, 0)
    ||| differs(b, nx, ny, x, y, 1, 0)
    ||| differs(b, nx, ny, x, y, -1, 1)
    ||| differs(b, nx, ny, x, y, 0, 1)
    ||| differs(b, nx, ny, x, y, 1, 1)
}

/// The state of a cell: boundary, interior or exterior.
pub open spec fn edge_state(b: Seq<bool>, nx: int, ny: int, x: int, y: int) -> u8 {
    if on_edge(b, nx, ny, x, y) {
        STATE_BOUNDARY
    } else if cell(b, nx, x, y) {
        STATE_INTERIOR
    } else {
        STATE_EXTERIOR
    }
}

proof fn lemma_row_shift(nx: int, y: int)
    ensures
        (y + 1) * nx == y * nx + nx,
        (y - 1) * nx == y * nx - nx,
{
    assert((y + 1) * nx == y * nx + nx) by (nonlinear_arith);
    assert((y - 1) * nx == y * nx - nx) by (nonlinear_arith);
}

/// Whether the neighbour at (`x + dx`, `y + dy`) lies in the grid and
/// differs from the cell; `dx` and `dy` are -1, 0 or 1, given as
/// `0`, `1`, `2`.
fn neighbour_differs(b: &Vec<bool>, nx: usize, ny: usize, x: usize, y: usize, dx: usize, dy: usize) -> (r: bool)
    requires
        nx * ny <= b@.len(),
        x < nx,
        y < ny,
        dx <= 2,
        dy <= 2,
    ensures
        r == differs(b@, nx as int, ny as int, x as int, y as int, dx - 1, dy - 1),
{
    if (dx == 0 && x == 0) || (dx == 2 && x + 1 >= nx) || (dy == 0 && y == 0) || (dy == 2 && y + 1 >= ny) {
        return false;
    }
    let len = b.len();
    let xx = x + dx - 1;
    let yy = y + dy - 1;
    proof {
        lemma_index_in_grid(nx as int, ny as int, xx as int, yy as int);
        lemma_index_in_grid(nx as int, ny as int, x as int, y as int);
    }
    b[yy * nx + xx] != b[y * nx + x]
}

/// Classifies every cell of an `nx` by `ny` mask as boundary (some of
/// its eight neighbours differs), interior (material) or exterior.
pub fn detect_edges(binary_image: &Vec<bool>, nx: usize, ny: usize) -> (r: Vec<u8>)
    requires
        nx * ny <= binary_image@.len(),
    ensures
        r@.len() == nx * ny,
        forall|x: int, y: int|
            0 <= x < nx && 0 <= y < ny ==> #[trigger] cell(r@, nx as int, x, y) == edge_state(
                binary_image@,
                nx as int,
                ny as int,
                x,
                y,
            ),
{
    let mut states: Vec<u8> = Vec::new();
    let mut y: usize = 0;
    while y < ny
        invariant
            nx * ny <= binary_image@.len(),
            y <= ny,
            states@.len() == y * nx,
            forall|a: int, b: int|
                0 <= a < nx && 0 <= b < y ==> #[trigger] cell(states@, nx as int, a, b) == edge_state(
                    binary_image@,
                    nx as int,
                    ny as int,
                    a,
                    b,
                ),
        decreases ny - y,
    {
        let mut x: usize = 0;
        while x < nx
            invariant
                nx * ny <= binary_image@.len(),
                y < ny,
                x <= nx,
                states@.len() == y * nx + x,
                forall|a: int, b: int|
                    0 <= a < nx && 0 <= b < y ==> #[trigger] cell(states@, nx as int, a, b) == edge_state(
                        binary_image@,
                        nx as int,
                        ny as int,
                        a,
                        b,
                    ),
                forall|a: int| 0 <= a < x ==> #[trigger] states@[y * nx + a] == edge_state(
                    binary_image@,
                    nx as int,
                    ny as int,
                    a,
                    y as int,
                ),
            decreases nx - x,
        {
            let len = binary_image.len();
            proof {
                lemma_index_in_grid(nx as int, ny as int, x as int, y as int);
            }
            let val = binary_image[y * nx + x];
            let boundary = neighbour_differs(binary_image, nx, ny, x, y, 0, 0)
                || neighbour_differs(binary_image, nx, ny, x, y, 1, 0)
                || neighbour_differs(binary_image, nx, ny, x, y, 2, 0)
                || neighbour_differs(binary_image, nx, ny, x, y, 0, 1)
                || neighbour_differs(binary_image, nx, ny, x, y, 2, 1)
                || neighbour_differs(binary_image, nx, ny, x, y, 0, 2)
                || neighbour_differs(binary_image, nx, ny, x, y, 1, 2)
                || neighbour_differs(binary_image, nx, ny, x, y, 2, 2);
            let state = if boundary {
                STATE_BOUNDARY
            } else if val {
                STATE_INTERIOR
            } else {
                STATE_EXTERIOR
            };
            let ghost prev = states@;
            states.push(state);
            proof {
                assert forall|a: int, b: int|
                    0 <= a < nx && 0 <= b < y implies #[trigger] cell(states@, nx as int, a, b) == edge_state(
                    binary_image@,
                    nx as int,
                    ny as int,
                    a,
                    b,
                ) by {
                    lemma_index_in_grid(nx as int, y as int, a, b);
                    assert(cell(prev, nx as int, a, b) == edge_state(binary_image@, nx as int, ny as int, a, b));
                    assert(states@[b * nx + a] == prev[b * nx + a]);
                }
            }
            x += 1;
        }
        proof {
            lemma_row_shift(nx as int, y as int);
            assert forall|a: int, b: int|
                0 <= a < nx && 0 <= b < y + 1 implies #[trigger] cell(states@, nx as int, a, b) == edge_state(
                binary_image@,
                nx as int,
                ny as int,
                a,
                b,
            ) by {
                if b == y {
                    assert(states@[y * nx + a] == edge_state(binary_image@, nx as int, ny as int, a, y as int));
                }
            }
        }
        y += 1;
    }
    proof {
        assert(ny * nx == nx * ny) by (nonlinear_arith);
    }
    states
}

/// Direction flags of a boundary cell: which way a contour leaves it,
/// and whether a contour starts or stops there.
#[derive(Debug, Clone, Copy, PartialEq, Eq, Structural)]
pub struct OrientedPixel {
    pub northsouth: u8,
    pub eastwest: u8,
    pub startstop: u8,
}

/// Flag `north` of `northsouth`: the contour continues to row `y + 1`.
pub const NORTH: u8 = 128;

/// Flag `south` of `northsouth`: the contour continues to row `y - 1`.
pub const SOUTH: u8 = 64;

/// Flag `east` of `eastwest`: the contour continues to column `x + 1`.
pub const EAST: u8 = 128;

/// Flag `west` of `eastwest`: the contour continues to column `x - 1`.
pub const WEST: u8 = 64;

/// Flag `start` of `startstop`.
pub const START: u8 = 128;

/// Flag `stop` of `startstop`.
pub const STOP: u8 = 64;

pub open spec fn bnd(s: Seq<u8>, nx: int, x: int, y: int) -> bool {
    cell(s, nx, x, y) == STATE_BOUNDARY
}

pub open spec fn intr(s: Seq<u8>, nx: int, x: int, y: int) -> bool {
    cell(s, nx, x, y) == STATE_INTERIOR
}

pub open spec fn flag(c: bool, v: u8) -> u8 {
    if c { v } else { 0 }
}

pub open spec fn no_flags() -> OrientedPixel {
    OrientedPixel { northsouth: 0, eastwest: 0, startstop: 0 }
}

/// The orientation of the cell at (`x`, `y`): boundary cells get the
/// directions in which the material stays on one fixed side; cells on
/// the first or last row or column also mark where contours enter and
/// leave the grid; corners and non-boundary cells get no flags.
pub open spec fn orientation(s: Seq<u8>, nx: int, ny: int, x: int, y: int) -> OrientedPixel {
    if !bnd(s, nx, x, y) {
        no_flags()
    } else if 1 <= x < nx - 1 && 1 <= y < ny - 1 {
        OrientedPixel {
            northsouth: (flag(bnd(s, nx, x, y - 1) && (intr(s, nx, x + 1, y) || intr(s, nx, x + 1, y - 1)), NORTH)
                + flag(bnd(s, nx, x, y + 1) && (intr(s, nx, x - 1, y) || intr(s, nx, x - 1, y + 1)), SOUTH)) as u8,
            eastwest: (flag(bnd(s, nx, x + 1, y) && (intr(s, nx, x, y + 1) || intr(s, nx, x + 1, y + 1)), EAST)
                + flag(bnd(s, nx, x - 1, y) && (intr(s, nx, x, y - 1) || intr(s, nx, x - 1, y - 1)), WEST)) as u8,
            startstop: 0,
        }
    } else if y == ny - 1 && 1 <= x < nx - 1 {
        let c = bnd(s, nx, x, y - 1) && intr(s, nx, x + 1, y);
        OrientedPixel {
            northsouth: flag(c, NORTH),
            eastwest: 0,
            startstop: (flag(c, START) + flag(intr(s, nx, x - 1, y), STOP)) as u8,
        }
    } else if y == 0 && 1 <= x < nx - 1 {
        let c = bnd(s, nx, x, y + 1) && intr(s, nx, x - 1, y);
        OrientedPixel {
            northsouth: flag(c, SOUTH),
            eastwest: 0,
            startstop: (flag(intr(s, nx, x + 1, y), STOP) + flag(c, START)) as u8,
        }
    } else if x == 0 && 1 <= y < ny - 1 {
        let c = bnd(s, nx, x + 1, y) && intr(s, nx, x, y + 1);
        OrientedPixel {
            northsouth: 0,
            eastwest: flag(c, EAST),
            startstop: (flag(c, START) + flag(intr(s, nx, x, y - 1), STOP)) as u8,
        }
    } else if x == nx - 1 && 1 <= y < ny - 1 {
        let c = bnd(s, nx, x - 1, y) && intr(s, nx, x, y - 1);
        OrientedPixel {
            northsouth: 0,
            eastwest: flag(c, WEST),
            startstop: (flag(intr(s, nx, x, y + 1), STOP) + flag(c, START)) as u8,
        }
    } else {
        no_flags()
    }
}

/// The grids on which orienting never steps outside the grid: at least
/// two cells each way, or, on a single row or column, no boundary cell
/// away from its ends.
pub open spec fn orientable(s: Seq<u8>, nx: int, ny: int) -> bool {
    &&& nx >= 1
    &&& ny >= 1
    &&& nx * ny <= s.len()
    &&& ny == 1 ==> forall|x: int| 1 <= x < nx - 1 ==> !#[trigger] bnd(s, nx, x, 0)
    &&& nx == 1 ==> forall|y: int| 1 <= y < ny - 1 ==> !#[trigger] bnd(s, nx, 0, y)
}

fn state_at(states: &Vec<u8>, nx: usize, ny: usize, x: usize, y: usize) -> (r: u8)
    requires
        nx * ny <= states@.len(),
        x < nx,
        y < ny,
    ensures
        r == cell(states@, nx as int, x as int, y as int),
{
    let len = states.len();
    proof {
        lemma_index_in_grid(nx as int, ny as int, x as int, y as int);
    }
    states[y * nx + x]
}

fn flag_if(c: bool, v: u8) -> (r: u8)
    ensures
        r == flag(c, v),
{
    if c { v } else { 0 }
}

/// The orientation of one cell of a grid at least two cells each way.
fn orient_cell(states: &Vec<u8>, nx: usize, ny: usize, x: usize, y: usize) -> (r: OrientedPixel)
    requires
        nx >= 2,
        ny >= 2,
        nx * ny <= states@.len(),
        x < nx,
        y < ny,
    ensures
        r == orientation(states@, nx as int, ny as int, x as int, y as int),
{
    let b = |a: usize, c: usize| -> (r: bool)
        requires
            a < nx,
            c < ny,
        ensures
            r == bnd(states@, nx as int, a as int, c as int),
        { state_at(states, nx, ny, a, c) == STATE_BOUNDARY };
    let i = |a: usize, c: usize| -> (r: bool)
        requires
            a < nx,
            c < ny,
        ensures
            r == intr(states@, nx as int, a as int, c as int),
        { state_at(states, nx, ny, a, c) == STATE_INTERIOR };
    if !b(x, y) {
        return OrientedPixel { northsouth: 0, eastwest: 0, startstop: 0 };
    }
    if 1 <= x && x < nx - 1 && 1 <= y && y < ny - 1 {
        let ns = flag_if(b(x, y - 1) && (i(x + 1, y) || i(x + 1, y - 1)), NORTH)
            + flag_if(b(x, y + 1) && (i(x - 1, y) || i(x - 1, y + 1)), SOUTH);
        let ew = flag_if(b(x + 1, y) && (i(x, y + 1) || i(x + 1, y + 1)), EAST)
            + flag_if(b(x - 1, y) && (i(x, y - 1) || i(x - 1, y - 1)), WEST);
        OrientedPixel { northsouth: ns, eastwest: ew, startstop: 0 }
    } else if y == ny - 1 && 1 <= x && x < nx - 1 {
        let c = b(x, y - 1) && i(x + 1, y);
        OrientedPixel {
            northsouth: flag_if(c, NORTH),
            eastwest: 0,
            startstop: flag_if(c, START) + flag_if(i(x - 1, y), STOP),
        }
    } else if y == 0 && 1 <= x && x < nx - 1 {
        let c = b(x, y + 1) && i(x - 1, y);
        OrientedPixel {
            northsouth: flag_if(c, SOUTH),
            eastwest: 0,
            startstop: flag_if(i(x + 1, y), STOP) + flag_if(c, START),
        }
    } else if x == 0 && 1 <= y && y < ny - 1 {
        let c = b(x + 1, y) && i(x, y + 1);
        OrientedPixel {
            northsouth: 0,
            eastwest: flag_if(c, EAST),
            startstop: flag_if(c, START) + flag_if(i(x, y - 1), STOP),
        }
    } else if x == nx - 1 && 1 <= y && y < ny - 1 {
        let c = b(x - 1, y) && i(x, y - 1);
        OrientedPixel {
            northsouth: 0,
            eastwest: flag_if(c, WEST),
            startstop: flag_if(i(x, y + 1), STOP) + flag_if(c, START),
        }
    } else {
        OrientedPixel { northsouth: 0, eastwest: 0, startstop: 0 }
    }
}

/// Orients the boundary cells of an `nx` by `ny` grid of cell states
/// (see `orientation`).
pub fn orient_edges(states: &Vec<u8>, nx: usize, ny: usize) -> (r: Vec<OrientedPixel>)
    requires
        orientable(states@, nx as int, ny as int),
    ensures
        r@.len() == nx * ny,
        forall|x: int, y: int|
            0 <= x < nx && 0 <= y < ny ==> #[trigger] cell(r@, nx as int, x, y) == orientation(
                states@,
                nx as int,
                ny as int,
                x,
                y,
            ),
{
    let mut out: Vec<OrientedPixel> = Vec::new();
    let mut y: usize = 0;
    while y < ny
        invariant
            orientable(states@, nx as int, ny as int),
            y <= ny,
            out@.len() == y * nx,
            forall|a: int, b: int|
                0 <= a < nx && 0 <= b < y ==> #[trigger] cell(out@, nx as int, a, b) == orientation(
                    states@,
                    nx as int,
                    ny as int,
                    a,
                    b,
                ),
        decreases ny - y,
    {
        let mut x: usize = 0;
        while x < nx
            invariant
                orientable(states@, nx as int, ny as int),
                y < ny,
                x <= nx,
                out@.len() == y * nx + x,
                forall|a: int, b: int|
                    0 <= a < nx && 0 <= b < y ==> #[trigger] cell(out@, nx as int, a, b) == orientation(
                        states@,
                        nx as int,
                        ny as int,
                        a,
                        b,
                    ),
                forall|a: int| 0 <= a < x ==> #[trigger] out@[y * nx + a] == orientation(
                    states@,
                    nx as int,
                    ny as int,
                    a,
                    y as int,
                ),
            decreases nx - x,
        {
            let p = if nx >= 2 && ny >= 2 {
                orient_cell(states, nx, ny, x, y)
            } else {
                proof {
                    if ny == 1 && 1 <= x < nx - 1 {
                        assert(!bnd(states@, nx as int, x as int, 0));
                    }
                    if nx == 1 && 1 <= y < ny - 1 {
                        assert(!bnd(states@, nx as int, 0, y as int));
                    }
                }
                OrientedPixel { northsouth: 0, eastwest: 0, startstop: 0 }
            };
            let ghost prev = out@;
            out.push(p);
            proof {
                assert forall|a: int, b: int|
                    0 <= a < nx && 0 <= b < y implies #[trigger] cell(out@, nx as int, a, b) == orientation(
                    states@,
                    nx as int,
                    ny as int,
                    a,
                    b,
                ) by {
                    lemma_index_in_grid(nx as int, y as int, a, b);
                    assert(cell(prev, nx as int, a, b) == orientation(states@, nx as int, ny as int, a, b));
                    assert(out@[b * nx + a] == prev[b * nx + a]);
                }
            }
            x += 1;
        }
        proof {
            lemma_row_shift(nx as int, y as int);
            assert forall|a: int, b: int|
                0 <= a < nx && 0 <= b < y + 1 implies #[trigger] cell(out@, nx as int, a, b) == orientation(
                states@,
                nx as int,
                ny as int,
                a,
                b,
            ) by {
                if b == y {
                    assert(out@[y * nx + a] == orientation(states@, nx as int, ny as int, a, y as int));
                }
            }
        }
        y += 1;
    }
    proof {
        assert(ny * nx == nx * ny) by (nonlinear_arith);
    }
    out
}

/// Sum of the direction flags of all cells; tracing lowers it with
/// every step.
pub open spec fn flag_total(s: Seq<OrientedPixel>) -> nat
    decreases s.len(),
{
    if s.len() == 0 {
        0
    } else {
        flag_total(s.drop_last()) + s.last().northsouth as nat + s.last().eastwest as nat
    }
}

pub proof fn lemma_flag_total_update(s: Seq<OrientedPixel>, i: int, q: OrientedPixel)
    requires
        0 <= i < s.len(),
    ensures
        flag_total(s.update(i, q)) + s[i].northsouth + s[i].eastwest == flag_total(s) + q.northsouth + q.eastwest,
    decreases s.len(),
{
    if i == s.len() - 1 {
        assert(s.update(i, q).drop_last() =~= s.drop_last());
    } else {
        lemma_flag_total_update(s.drop_last(), i, q);
        assert(s.update(i, q).drop_last() =~= s.drop_last().update(i, q));
    }
}

pub proof fn lemma_clear_bits(v: u8)
    ensures
        v & 128 != 0 ==> (v & 127) < v,
        v & 64 != 0 ==> (v & 191) < v,
        (v & 127) & 128 == 0,
        (v & 127) & 64 == v & 64,
        (v & 191) & 64 == 0,
        (v & 191) & 128 == v & 128,
{
    assert(v & 128 != 0 ==> (v & 127) < v) by (bit_vector);
    assert(v & 64 != 0 ==> (v & 191) < v) by (bit_vector);
    assert((v & 127) & 128 == 0) by (bit_vector);
    assert((v & 127) & 64 == v & 64) by (bit_vector);
    assert((v & 191) & 64 == 0) by (bit_vector);
    assert((v & 191) & 128 == v & 128) by (bit_vector);
}

/// One tracing step from the cell (`x`, `y`): the first of its flags
/// north, south, east, west is cleared and the position moves that way;
/// none when the cell has none of them (or lies outside the grid).
pub open spec fn trace_step(buf: Seq<OrientedPixel>, nx: int, ny: int, x: int, y: int) -> Option<
    (Seq<OrientedPixel>, int, int),
> {
    if !(0 <= x < nx && 0 <= y < ny && y * nx + x < buf.len()) {
        None
    } else {
        let i = y * nx + x;
        let p = buf[i];
        if p.northsouth & NORTH != 0 {
            Some((buf.update(i, OrientedPixel { northsouth: p.northsouth & 127, ..p }), x, y + 1))
        } else if p.northsouth & SOUTH != 0 {
            Some((buf.update(i, OrientedPixel { northsouth: p.northsouth & 191, ..p }), x, y - 1))
        } else if p.eastwest & EAST != 0 {
            Some((buf.update(i, OrientedPixel { eastwest: p.eastwest & 127, ..p }), x + 1, y))
        } else if p.eastwest & WEST != 0 {
            Some((buf.update(i, OrientedPixel { eastwest: p.eastwest & 191, ..p }), x - 1, y))
        } else {
            None
        }
    }
}

pub proof fn lemma_trace_step_decreases(buf: Seq<OrientedPixel>, nx: int, ny: int, x: int, y: int)
    ensures
        trace_step(buf, nx, ny, x, y) matches Some((b2, _, _)) ==> flag_total(b2) < flag_total(buf),
{
    if 0 <= x < nx && 0 <= y < ny && y * nx + x < buf.len() {
        let i = y * nx + x;
        let p = buf[i];
        lemma_clear_bits(p.northsouth);
        lemma_clear_bits(p.eastwest);
        if p.northsouth & NORTH != 0 {
            lemma_flag_total_update(buf, i, OrientedPixel { northsouth: p.northsouth & 127, ..p });
        } else if p.northsouth & SOUTH != 0 {
            lemma_flag_total_update(buf, i, OrientedPixel { northsouth: p.northsouth & 191, ..p });
        } else if p.eastwest & EAST != 0 {
            lemma_flag_total_update(buf, i, OrientedPixel { eastwest: p.eastwest & 127, ..p });
        } else if p.eastwest & WEST != 0 {
            lemma_flag_total_update(buf, i, OrientedPixel { eastwest: p.eastwest & 191, ..p });
        }
    }
}

/// The positions visited when tracing from (`x`, `y`) until the current
/// cell has no direction flag left, and the flags that remain.
pub open spec fn trace_walk(buf: Seq<OrientedPixel>, nx: int, ny: int, x: int, y: int) -> (Seq<(int, int)>, Seq<
    OrientedPixel,
>)
    decreases flag_total(buf),
{
    match trace_step(buf, nx, ny, x, y) {
        None => (Seq::empty(), buf),
        Some((b2, x2, y2)) => {
            proof {
                lemma_trace_step_decreases(buf, nx, ny, x, y);
            }
            let (p, b3) = trace_walk(b2, nx, ny, x2, y2);
            (seq![(x2, y2)] + p, b3)
        },
    }
}

/// A contour traced from a start cell, when the cell has a flag.
pub open spec fn trace_from(buf: Seq<OrientedPixel>, nx: int, ny: int, start: (int, int)) -> (Option<
    Seq<(int, int)>,
>, Seq<OrientedPixel>) {
    let (x, y) = start;
    if 0 <= x < nx && 0 <= y < ny && y * nx + x < buf.len() && (buf[y * nx + x].northsouth != 0
        || buf[y * nx + x].eastwest != 0) {
        let (p, b) = trace_walk(buf, nx, ny, x, y);
        (Some(seq![(x, y)] + p), b)
    } else {
        (None, buf)
    }
}

/// The contours traced from each start cell in turn.
pub open spec fn trace_all(buf: Seq<OrientedPixel>, nx: int, ny: int, starts: Seq<(int, int)>) -> (Seq<
    Seq<(int, int)>,
>, Seq<OrientedPixel>)
    decreases starts.len(),
{
    if starts.len() == 0 {
        (Seq::empty(), buf)
    } else {
        let (paths, b) = trace_all(buf, nx, ny, starts.drop_last());
        let (p, b2) = trace_from(b, nx, ny, starts.last());
        (
            match p {
                Some(pp) => paths.push(pp),
                None => paths,
            },
            b2,
        )
    }
}

/// Start cells on the first and last column, row by row: (0, y) then
/// (nx - 1, y) for y in 1 .. y_end.
pub open spec fn column_starts(nx: int, y_end: int) -> Seq<(int, int)>
    decreases y_end,
{
    if y_end <= 1 {
        Seq::empty()
    } else {
        column_starts(nx, y_end - 1) + seq![(0, y_end - 1), (nx - 1, y_end - 1)]
    }
}

/// Start cells on the last and first row: (x, ny - 1) then (x, 0) for x
/// in 1 .. x_end.
pub open spec fn row_starts(ny: int, x_end: int) -> Seq<(int, int)>
    decreases x_end,
{
    if x_end <= 1 {
        Seq::empty()
    } else {
        row_starts(ny, x_end - 1) + seq![(x_end - 1, ny - 1), (x_end - 1, 0)]
    }
}

/// Inner cells (x, y) with 1 <= x < x_end, in order of x.
pub open spec fn inner_row(y: int, x_end: int) -> Seq<(int, int)>
    decreases x_end,
{
    if x_end <= 1 {
        Seq::empty()
    } else {
        inner_row(y, x_end - 1).push((x_end - 1, y))
    }
}

/// Inner cells row by row, for rows 1 .. y_end.
pub open spec fn inner_starts(nx: int, y_end: int) -> Seq<(int, int)>
    decreases y_end,
{
    if y_end <= 1 {
        Seq::empty()
    } else {
        inner_starts(nx, y_end - 1) + inner_row(y_end - 1, nx - 1)
    }
}

/// All start cells, in the order contours are looked for: the side
/// columns, then the top and bottom rows, then the inside.
pub open spec fn trace_starts(nx: int, ny: int) -> Seq<(int, int)> {
    column_starts(nx, ny - 1) + row_starts(ny, nx - 1) + inner_starts(nx, ny - 1)
}

/// No flag points out of the grid: nothing north on the last row, south
/// on the first row, east on the last column or west on the first.
pub open spec fn flags_inward(buf: Seq<OrientedPixel>, nx: int, ny: int) -> bool {
    forall|x: int, y: int|
        0 <= x < nx && 0 <= y < ny ==> {
            let p = #[trigger] cell(buf, nx, x, y);
            &&& (y == ny - 1 ==> p.northsouth & NORTH == 0)
            &&& (y == 0 ==> p.northsouth & SOUTH == 0)
            &&& (x == nx - 1 ==> p.eastwest & EAST == 0)
            &&& (x == 0 ==> p.eastwest & WEST == 0)
        }
}

/// No flag of the cell at (`x`, `y`) points out of the grid.
pub open spec fn inward_at(buf: Seq<OrientedPixel>, nx: int, ny: int, x: int, y: int) -> bool {
    let p = cell(buf, nx, x, y);
    &&& (y == ny - 1 ==> p.northsouth & NORTH == 0)
    &&& (y == 0 ==> p.northsouth & SOUTH == 0)
    &&& (x == nx - 1 ==> p.eastwest & EAST == 0)
    &&& (x == 0 ==> p.eastwest & WEST == 0)
}

/// Whether no flag of an oriented grid points out of it, the condition
/// under which its contours can be traced.
pub fn flags_point_inward(oriented: &Vec<OrientedPixel>, nx: usize, ny: usize) -> (r: bool)
    requires
        nx * ny <= oriented@.len(),
    ensures
        r == flags_inward(oriented@, nx as int, ny as int),
{
    let len = oriented.len();
    let mut y: usize = 0;
    while y < ny
        invariant
            y <= ny,
            len == oriented@.len(),
            nx * ny <= len,
            forall|a: int, b: int| 0 <= a < nx && 0 <= b < y ==> #[trigger] inward_at(oriented@, nx as int, ny as int, a, b),
        decreases ny - y,
    {
        let mut x: usize = 0;
        while x < nx
            invariant
                x <= nx,
                y < ny,
                len == oriented@.len(),
                nx * ny <= len,
                forall|a: int, b: int| 0 <= a < nx && 0 <= b < y ==> #[trigger] inward_at(oriented@, nx as int, ny as int, a, b),
                forall|a: int| 0 <= a < x ==> #[trigger] inward_at(oriented@, nx as int, ny as int, a, y as int),
            decreases nx - x,
        {
            proof {
                lemma_index_in_grid(nx as int, ny as int, x as int, y as int);
            }
            let p = oriented[y * nx + x];
            if (y + 1 == ny && p.northsouth & NORTH != 0) || (y == 0 && p.northsouth & SOUTH != 0) || (x + 1 == nx
                && p.eastwest & EAST != 0) || (x == 0 && p.eastwest & WEST != 0) {
                assert(!inward_at(oriented@, nx as int, ny as int, x as int, y as int));
                return false;
            }
            x += 1;
        }
        y += 1;
    }
    assert forall|a: int, b: int| 0 <= a < nx && 0 <= b < ny implies {
        let p = #[trigger] cell(oriented@, nx as int, a, b);
        &&& (b == ny - 1 ==> p.northsouth & NORTH == 0)
        &&& (b == 0 ==> p.northsouth & SOUTH == 0)
        &&& (a == nx - 1 ==> p.eastwest & EAST == 0)
        &&& (a == 0 ==> p.eastwest & WEST == 0)
    } by {
        assert(inward_at(oriented@, nx as int, ny as int, a, b));
    }
    true
}

/// Whether a state grid can be oriented (see `orientable`).
pub fn orientable_grid(states: &Vec<u8>, nx: usize, ny: usize) -> (r: bool)
    ensures
        r == orientable(states@, nx as int, ny as int),
{
    if nx == 0 || ny == 0 {
        return false;
    }
    let len = states.len();
    let cells = match nx.checked_mul(ny) {
        Some(c) => c,
        None => return false,
    };
    if cells > len {
        return false;
    }
    if ny == 1 {
        let mut x: usize = 1;
        while x < nx - 1
            invariant
                1 <= x <= nx,
                nx * ny <= states@.len(),
                ny == 1,
                forall|a: int| 1 <= a < x ==> !#[trigger] bnd(states@, nx as int, a, 0),
            decreases nx - x,
        {
            assert(cell(states@, nx as int, x as int, 0) == states@[x as int]);
            if states[x] == STATE_BOUNDARY {
                assert(bnd(states@, nx as int, x as int, 0));
                return false;
            }
            x += 1;
        }
    }
    if nx == 1 {
        let mut y: usize = 1;
        while y < ny - 1
            invariant
                1 <= y <= ny,
                nx * ny <= states@.len(),
                nx == 1,
                forall|b: int| 1 <= b < y ==> !#[trigger] bnd(states@, nx as int, 0, b),
            decreases ny - y,
        {
            assert(cell(states@, nx as int, 0, y as int) == states@[y as int]);
            if states[y] == STATE_BOUNDARY {
                assert(bnd(states@, nx as int, 0, y as int));
                return false;
            }
            y += 1;
        }
    }
    true
}

pub open spec fn points_view(p: Seq<(usize, usize)>) -> Seq<(int, int)> {
    p.map_values(|q: (usize, usize)| (q.0 as int, q.1 as int))
}

pub open spec fn paths_view(v: Seq<Vec<(usize, usize)>>) -> Seq<Seq<(int, int)>> {
    v.map_values(|p: Vec<(usize, usize)>| points_view(p@))
}

proof fn lemma_step_keeps_inward(buf: Seq<OrientedPixel>, nx: int, ny: int, x: int, y: int)
    requires
        flags_inward(buf, nx, ny),
        nx * ny <= buf.len(),
    ensures
        trace_step(buf, nx, ny, x, y) matches Some((b2, x2, y2)) ==> flags_inward(b2, nx, ny) && b2.len()
            == buf.len() && 0 <= x2 < nx && 0 <= y2 < ny,
{
    if 0 <= x < nx && 0 <= y < ny && y * nx + x < buf.len() {
        let i = y * nx + x;
        let p = buf[i];
        lemma_clear_bits(p.northsouth);
        lemma_clear_bits(p.eastwest);
        assert(cell(buf, nx, x, y) == p);
        if let Some((b2, x2, y2)) = trace_step(buf, nx, ny, x, y) {
            assert forall|a: int, b: int| 0 <= a < nx && 0 <= b < ny implies {
                let q = #[trigger] cell(b2, nx, a, b);
                &&& (b == ny - 1 ==> q.northsouth & NORTH == 0)
                &&& (b == 0 ==> q.northsouth & SOUTH == 0)
                &&& (a == nx - 1 ==> q.eastwest & EAST == 0)
                &&& (a == 0 ==> q.eastwest & WEST == 0)
            } by {
                lemma_index_in_grid(nx, ny, a, b);
                assert(cell(buf, nx, a, b) == buf[b * nx + a]);
                if b * nx + a == i {
                    lemma_index_injective(nx, a, b, x, y);
                }
            }
        }
    }
}

fn point_view_push(v: &mut Vec<(usize, usize)>, q: (usize, usize))
    ensures
        points_view(final(v)@) == points_view(old(v)@).push((q.0 as int, q.1 as int)),
{
    v.push(q);
    assert(points_view(v@) =~= points_view(old(v)@).push((q.0 as int, q.1 as int)));
}

/// Follows the direction flags from the start cell (`x`, `y`), clearing
/// each flag it takes, until the current cell has none left.
fn follow_edges(oriented: &mut Vec<OrientedPixel>, nx: usize, ny: usize, x_start: usize, y_start: usize) -> (r: Option<
    Vec<(usize, usize)>,
>)
    requires
        x_start < nx,
        y_start < ny,
        nx * ny <= old(oriented)@.len(),
        flags_inward(old(oriented)@, nx as int, ny as int),
    ensures
        ({
            let (p, b) = trace_from(old(oriented)@, nx as int, ny as int, (x_start as int, y_start as int));
            &&& final(oriented)@ == b
            &&& match r {
                Some(v) => p == Some(points_view(v@)),
                None => p is None,
            }
        }),
        final(oriented)@.len() == old(oriented)@.len(),
        flags_inward(final(oriented)@, nx as int, ny as int),
{
    let ghost b0 = oriented@;
    let len = oriented.len();
    proof {
        lemma_index_in_grid(nx as int, ny as int, x_start as int, y_start as int);
    }
    let start = oriented[y_start * nx + x_start];
    if start.northsouth == 0 && start.eastwest == 0 {
        return None;
    }
    let ghost full = trace_walk(b0, nx as int, ny as int, x_start as int, y_start as int);
    let mut x = x_start;
    let mut y = y_start;
    let mut segment: Vec<(usize, usize)> = Vec::new();
    segment.push((x, y));
    assert(points_view(segment@) =~= seq![(x as int, y as int)]);
    loop
        invariant
            x < nx,
            y < ny,
            nx * ny <= oriented@.len(),
            oriented@.len() == b0.len(),
            len == b0.len(),
            flags_inward(oriented@, nx as int, ny as int),
            points_view(segment@) + trace_walk(oriented@, nx as int, ny as int, x as int, y as int).0 == seq![
                (x_start as int, y_start as int),
            ] + full.0,
            trace_walk(oriented@, nx as int, ny as int, x as int, y as int).1 == full.1,
        ensures
            trace_step(oriented@, nx as int, ny as int, x as int, y as int) is None,
            points_view(segment@) + trace_walk(oriented@, nx as int, ny as int, x as int, y as int).0 == seq![
                (x_start as int, y_start as int),
            ] + full.0,
            trace_walk(oriented@, nx as int, ny as int, x as int, y as int).1 == full.1,
            flags_inward(oriented@, nx as int, ny as int),
            oriented@.len() == b0.len(),
        decreases flag_total(oriented@),
    {
        let ghost cur = oriented@;
        proof {
            lemma_index_in_grid(nx as int, ny as int, x as int, y as int);
            lemma_step_keeps_inward(cur, nx as int, ny as int, x as int, y as int);
            lemma_trace_step_decreases(cur, nx as int, ny as int, x as int, y as int);
            assert(cell(cur, nx as int, x as int, y as int) == cur[y * nx + x]);
        }
        let idx = y * nx + x;
        let ghost old_pos = (x as int, y as int);
        let p = oriented[idx];
        if p.northsouth & NORTH != 0 {
            oriented.set(idx, OrientedPixel { northsouth: p.northsouth & 127, ..p });
            y = y + 1;
        } else if p.northsouth & SOUTH != 0 {
            oriented.set(idx, OrientedPixel { northsouth: p.northsouth & 191, ..p });
            y = y - 1;
        } else if p.eastwest & EAST != 0 {
            oriented.set(idx, OrientedPixel { eastwest: p.eastwest & 127, ..p });
            x = x + 1;
        } else if p.eastwest & WEST != 0 {
            oriented.set(idx, OrientedPixel { eastwest: p.eastwest & 191, ..p });
            x = x - 1;
        } else {
            proof {
                assert(trace_step(cur, nx as int, ny as int, x as int, y as int) is None);
                assert(points_view(segment@) + Seq::<(int, int)>::empty() =~= points_view(segment@));
            }
            break;
        }
        let ghost seg_before = points_view(segment@);
        point_view_push(&mut segment, (x, y));
        proof {
            assert(trace_step(cur, nx as int, ny as int, old_pos.0, old_pos.1) == Some(
                (oriented@, x as int, y as int),
            ));
            let rest = trace_walk(oriented@, nx as int, ny as int, x as int, y as int).0;
            assert(seg_before.push((x as int, y as int)) + rest =~= seg_before + (seq![(x as int, y as int)]
                + rest));
        }
    }
    proof {
        assert(trace_walk(oriented@, nx as int, ny as int, x as int, y as int).0 == Seq::<(int, int)>::empty());
        assert(points_view(segment@) + Seq::<(int, int)>::empty() =~= points_view(segment@));
        assert(seq![(x_start as int, y_start as int)] + full.0 == points_view(segment@));
    }
    Some(segment)
}

/// The contours found so far and the flags left after the given
/// starts, as `trace_all` gives them.
pub open spec fn traced(
    b0: Seq<OrientedPixel>,
    nx: int,
    ny: int,
    done: Seq<(int, int)>,
    paths: Seq<Vec<(usize, usize)>>,
    buf: Seq<OrientedPixel>,
) -> bool {
    (paths_view(paths), buf) == trace_all(b0, nx, ny, done)
}

proof fn lemma_trace_all_push(b0: Seq<OrientedPixel>, nx: int, ny: int, done: Seq<(int, int)>, s: (int, int))
    ensures
        trace_all(b0, nx, ny, done.push(s)) == ({
            let (paths, b) = trace_all(b0, nx, ny, done);
            let (p, b2) = trace_from(b, nx, ny, s);
            (
                match p {
                    Some(pp) => paths.push(pp),
                    None => paths,
                },
                b2,
            )
        }),
{
    assert(done.push(s).drop_last() =~= done);
}

/// Looks for a contour from one start cell and records it.
fn trace_start(
    oriented: &mut Vec<OrientedPixel>,
    paths: &mut Vec<Vec<(usize, usize)>>,
    nx: usize,
    ny: usize,
    x: usize,
    y: usize,
)
    requires
        x < nx,
        y < ny,
        nx * ny <= old(oriented)@.len(),
        flags_inward(old(oriented)@, nx as int, ny as int),
    ensures
        ({
            let (p, b) = trace_from(old(oriented)@, nx as int, ny as int, (x as int, y as int));
            &&& final(oriented)@ == b
            &&& paths_view(final(paths)@) == match p {
                Some(pp) => paths_view(old(paths)@).push(pp),
                None => paths_view(old(paths)@),
            }
        }),
        final(oriented)@.len() == old(oriented)@.len(),
        flags_inward(final(oriented)@, nx as int, ny as int),
{
    match follow_edges(oriented, nx, ny, x, y) {
        Some(seg) => {
            let ghost before = paths@;
            paths.push(seg);
            assert(paths_view(paths@) =~= paths_view(before).push(points_view(seg@)));
        },
        None => {},
    }
}

proof fn lemma_starts_unfold(nx: int, ny: int, y: int, x: int)
    ensures
        y >= 1 ==> column_starts(nx, y + 1) == column_starts(nx, y) + seq![(0, y), (nx - 1, y)],
        x >= 1 ==> row_starts(ny, x + 1) == row_starts(ny, x) + seq![(x, ny - 1), (x, 0)],
        x >= 1 ==> inner_row(y, x + 1) == inner_row(y, x).push((x, y)),
        y >= 1 ==> inner_starts(nx, y + 1) == inner_starts(nx, y) + inner_row(y, nx - 1),
{
}

/// Traces the contours of an oriented grid: from every start cell in
/// turn (see `trace_starts`) that still has a flag, follows and clears
/// the flags. Each contour is the list of grid positions it passes.
pub fn trace_edges(oriented: &mut Vec<OrientedPixel>, nx: usize, ny: usize) -> (r: Vec<Vec<(usize, usize)>>)
    requires
        nx >= 1,
        ny >= 1,
        nx * ny <= old(oriented)@.len(),
        flags_inward(old(oriented)@, nx as int, ny as int),
    ensures
        (paths_view(r@), final(oriented)@) == trace_all(
            old(oriented)@,
            nx as int,
            ny as int,
            trace_starts(nx as int, ny as int),
        ),
{
    let ghost b0 = oriented@;
    let mut paths: Vec<Vec<(usize, usize)>> = Vec::new();
    assert(paths_view(paths@) =~= Seq::<Seq<(int, int)>>::empty());
    let mut y: usize = 1;
    while y < ny - 1
        invariant
            1 <= y,
            ny >= 1,
            nx >= 1,
            y <= ny - 1 || (ny == 1 && y == 1),
            nx * ny <= oriented@.len(),
            oriented@.len() == b0.len(),
            flags_inward(oriented@, nx as int, ny as int),
            traced(b0, nx as int, ny as int, column_starts(nx as int, y as int), paths@, oriented@),
        decreases ny - y,
    {
        let ghost d0 = column_starts(nx as int, y as int);
        trace_start(oriented, &mut paths, nx, ny, 0, y);
        proof {
            lemma_trace_all_push(b0, nx as int, ny as int, d0, (0, y as int));
        }
        trace_start(oriented, &mut paths, nx, ny, nx - 1, y);
        proof {
            lemma_trace_all_push(b0, nx as int, ny as int, d0.push((0, y as int)), ((nx - 1) as int, y as int));
            lemma_starts_unfold(nx as int, ny as int, y as int, 0);
            assert(d0.push((0, y as int)).push(((nx - 1) as int, y as int)) =~= column_starts(nx as int, y + 1));
        }
        y += 1;
    }
    let ghost cs = column_starts(nx as int, ny - 1);
    proof {
        if ny == 1 {
            assert(column_starts(nx as int, y as int) == cs);
        }
        assert(cs + row_starts(ny as int, 1) =~= cs);
    }
    let mut x: usize = 1;
    while x < nx - 1
        invariant
            1 <= x,
            nx >= 1,
            ny >= 1,
            x <= nx - 1 || (nx == 1 && x == 1),
            nx * ny <= oriented@.len(),
            oriented@.len() == b0.len(),
            flags_inward(oriented@, nx as int, ny as int),
            cs == column_starts(nx as int, ny - 1),
            traced(b0, nx as int, ny as int, cs + row_starts(ny as int, x as int), paths@, oriented@),
        decreases nx - x,
    {
        let ghost d0 = cs + row_starts(ny as int, x as int);
        trace_start(oriented, &mut paths, nx, ny, x, ny - 1);
        proof {
            lemma_trace_all_push(b0, nx as int, ny as int, d0, (x as int, ny - 1));
        }
        trace_start(oriented, &mut paths, nx, ny, x, 0);
        proof {
            lemma_trace_all_push(b0, nx as int, ny as int, d0.push((x as int, ny - 1)), (x as int, 0));
            lemma_starts_unfold(nx as int, ny as int, 0, x as int);
            assert(d0.push((x as int, ny - 1)).push((x as int, 0)) =~= cs + row_starts(ny as int, x + 1));
        }
        x += 1;
    }
    let ghost rs = cs + row_starts(ny as int, nx - 1);
    proof {
        if nx == 1 {
            assert(row_starts(ny as int, x as int) == row_starts(ny as int, nx - 1));
        }
        assert(rs + inner_starts(nx as int, 1) =~= rs);
    }
    let mut y: usize = 1;
    while y < ny - 1
        invariant
            1 <= y,
            ny >= 1,
            nx >= 1,
            y <= ny - 1 || (ny == 1 && y == 1),
            nx * ny <= oriented@.len(),
            oriented@.len() == b0.len(),
            flags_inward(oriented@, nx as int, ny as int),
            rs == column_starts(nx as int, ny - 1) + row_starts(ny as int, nx - 1),
            traced(b0, nx as int, ny as int, rs + inner_starts(nx as int, y as int), paths@, oriented@),
        decreases ny - y,
    {
        let ghost base = rs + inner_starts(nx as int, y as int);
        assert(base + inner_row(y as int, 1) =~= base);
        let mut x: usize = 1;
        while x < nx - 1
            invariant
                1 <= x,
                nx >= 1,
                1 <= y < ny - 1,
                x <= nx - 1 || (nx == 1 && x == 1),
                nx * ny <= oriented@.len(),
                oriented@.len() == b0.len(),
                flags_inward(oriented@, nx as int, ny as int),
                base == rs + inner_starts(nx as int, y as int),
                traced(b0, nx as int, ny as int, base + inner_row(y as int, x as int), paths@, oriented@),
            decreases nx - x,
        {
            let ghost d0 = base + inner_row(y as int, x as int);
            trace_start(oriented, &mut paths, nx, ny, x, y);
            proof {
                lemma_trace_all_push(b0, nx as int, ny as int, d0, (x as int, y as int));
                lemma_starts_unfold(nx as int, ny as int, y as int, x as int);
                assert(d0.push((x as int, y as int)) =~= base + inner_row(y as int, x + 1));
            }
            x += 1;
        }
        proof {
            if nx == 1 {
                assert(inner_row(y as int, x as int) == inner_row(y as int, nx - 1));
            }
            lemma_starts_unfold(nx as int, ny as int, y as int, 0);
            assert(base + inner_row(y as int, nx - 1) =~= rs + inner_starts(nx as int, y + 1));
        }
        y += 1;
    }
    proof {
        if ny == 1 {
            assert(inner_starts(nx as int, y as int) == inner_starts(nx as int, ny - 1));
        }
        assert(rs + inner_starts(nx as int, ny - 1) =~= trace_starts(nx as int, ny as int));
    }
    paths
}

/// A contour: at least one position, all inside the grid, each step to
/// a 4-neighbour.
pub open spec fn is_contour(p: Seq<(int, int)>, nx: int, ny: int) -> bool {
    &&& p.len() > 0
    &&& forall|k: int| 0 <= k < p.len() ==> 0 <= #[trigger] p[k].0 < nx && 0 <= p[k].1 < ny
    &&& forall|k: int| 0 <= k < p.len() - 1 ==> adjacent(#[trigger] p[k], p[k + 1])
}

proof fn lemma_walk_contour(buf: Seq<OrientedPixel>, nx: int, ny: int, x: int, y: int)
    requires
        flags_inward(buf, nx, ny),
        nx * ny <= buf.len(),
        0 <= x < nx,
        0 <= y < ny,
    ensures
        is_contour(seq![(x, y)] + trace_walk(buf, nx, ny, x, y).0, nx, ny),
        flags_inward(trace_walk(buf, nx, ny, x, y).1, nx, ny),
        trace_walk(buf, nx, ny, x, y).1.len() == buf.len(),
    decreases flag_total(buf),
{
    lemma_step_keeps_inward(buf, nx, ny, x, y);
    lemma_trace_step_decreases(buf, nx, ny, x, y);
    match trace_step(buf, nx, ny, x, y) {
        None => {
            assert(seq![(x, y)] + Seq::<(int, int)>::empty() =~= seq![(x, y)]);
        },
        Some((b2, x2, y2)) => {
            lemma_walk_contour(b2, nx, ny, x2, y2);
            let rest = seq![(x2, y2)] + trace_walk(b2, nx, ny, x2, y2).0;
            let whole = seq![(x, y)] + rest;
            assert(whole =~= seq![(x, y)] + trace_walk(buf, nx, ny, x, y).0);
            assert(adjacent((x, y), (x2, y2)));
            assert forall|k: int| 0 <= k < whole.len() - 1 implies adjacent(#[trigger] whole[k], whole[k + 1]) by {
                if k > 0 {
                    assert(whole[k] == rest[k - 1] && whole[k + 1] == rest[k]);
                }
            }
            assert forall|k: int| 0 <= k < whole.len() implies 0 <= #[trigger] whole[k].0 < nx && 0 <= whole[k].1
                < ny by {
                if k > 0 {
                    assert(whole[k] == rest[k - 1]);
                }
            }
        },
    }
}

/// Whether the cell at position `q` lies in the buffer and has a
/// direction flag.
pub open spec fn flagged(buf: Seq<OrientedPixel>, nx: int, q: (int, int)) -> bool {
    let i = q.1 * nx + q.0;
    &&& 0 <= i < buf.len()
    &&& (buf[i].northsouth != 0 || buf[i].eastwest != 0)
}

/// `cur` has flags only where `orig` has them.
pub open spec fn flags_within(cur: Seq<OrientedPixel>, orig: Seq<OrientedPixel>) -> bool {
    &&& cur.len() == orig.len()
    &&& forall|i: int|
        0 <= i < cur.len() ==> (#[trigger] cur[i].northsouth != 0 ==> orig[i].northsouth != 0) && (
        cur[i].eastwest != 0 ==> orig[i].eastwest != 0)
}

proof fn lemma_flags_within_trans(a: Seq<OrientedPixel>, b: Seq<OrientedPixel>, c: Seq<OrientedPixel>)
    requires
        flags_within(a, b),
        flags_within(b, c),
    ensures
        flags_within(a, c),
{
    assert forall|i: int| 0 <= i < a.len() implies (#[trigger] a[i].northsouth != 0 ==> c[i].northsouth != 0) && (
    a[i].eastwest != 0 ==> c[i].eastwest != 0) by {
        assert(a[i].northsouth != 0 ==> b[i].northsouth != 0);
        assert(b[i].northsouth != 0 ==> c[i].northsouth != 0);
    }
}

proof fn lemma_flags_within_refl(a: Seq<OrientedPixel>)
    ensures
        flags_within(a, a),
{
    assert forall|i: int| 0 <= i < a.len() implies (#[trigger] a[i].northsouth != 0 ==> a[i].northsouth != 0) && (
    a[i].eastwest != 0 ==> a[i].eastwest != 0) by {}
}

proof fn lemma_step_flags(buf: Seq<OrientedPixel>, nx: int, ny: int, x: int, y: int)
    ensures
        trace_step(buf, nx, ny, x, y) matches Some((b2, _, _)) ==> flagged(buf, nx, (x, y)) && flags_within(
            b2,
            buf,
        ),
{
    if 0 <= x < nx && 0 <= y < ny && y * nx + x < buf.len() {
        let i = y * nx + x;
        let p = buf[i];
        let ns = p.northsouth;
        let ew = p.eastwest;
        assert(ns & 128 != 0 ==> ns != 0) by (bit_vector);
        assert(ns & 64 != 0 ==> ns != 0) by (bit_vector);
        assert(ew & 128 != 0 ==> ew != 0) by (bit_vector);
        assert(ew & 64 != 0 ==> ew != 0) by (bit_vector);
        assert((ns & 127) != 0 ==> ns != 0) by (bit_vector);
        assert((ns & 191) != 0 ==> ns != 0) by (bit_vector);
        assert((ew & 127) != 0 ==> ew != 0) by (bit_vector);
        assert((ew & 191) != 0 ==> ew != 0) by (bit_vector);
    }
}

proof fn lemma_walk_flags(buf: Seq<OrientedPixel>, nx: int, ny: int, x: int, y: int)
    ensures
        flags_within(trace_walk(buf, nx, ny, x, y).1, buf),
        forall|k: int|
            0 <= k < trace_walk(buf, nx, ny, x, y).0.len() ==> flagged(
                buf,
                nx,
                #[trigger] (seq![(x, y)] + trace_walk(buf, nx, ny, x, y).0)[k],
            ),
    decreases flag_total(buf),
{
    lemma_step_flags(buf, nx, ny, x, y);
    lemma_trace_step_decreases(buf, nx, ny, x, y);
    match trace_step(buf, nx, ny, x, y) {
        None => {
            lemma_flags_within_refl(buf);
        },
        Some((b2, x2, y2)) => {
            lemma_walk_flags(b2, nx, ny, x2, y2);
            lemma_flags_within_trans(trace_walk(b2, nx, ny, x2, y2).1, b2, buf);
            let rest = seq![(x2, y2)] + trace_walk(b2, nx, ny, x2, y2).0;
            let whole = seq![(x, y)] + trace_walk(buf, nx, ny, x, y).0;
            assert(whole =~= seq![(x, y)] + rest);
            assert forall|k: int| 0 <= k < trace_walk(buf, nx, ny, x, y).0.len() implies flagged(
                buf,
                nx,
                #[trigger] whole[k],
            ) by {
                if k > 0 {
                    assert(whole[k] == rest[k - 1]);
                    assert(flagged(b2, nx, rest[k - 1]));
                    let q = rest[k - 1];
                    let i = q.1 * nx + q.0;
                    assert(b2[i].northsouth != 0 ==> buf[i].northsouth != 0);
                }
            }
        },
    }
}

/// Contours run along the marked boundary: every position of a traced
/// contour but its last is a cell that had a direction flag before the
/// tracing, and tracing only clears flags.
pub proof fn lemma_traced_cells_flagged(buf: Seq<OrientedPixel>, nx: int, ny: int, starts: Seq<(int, int)>)
    ensures
        flags_within(trace_all(buf, nx, ny, starts).1, buf),
        forall|k: int, j: int|
            0 <= k < trace_all(buf, nx, ny, starts).0.len() && 0 <= j < trace_all(buf, nx, ny, starts).0[k].len()
                - 1 ==> flagged(buf, nx, #[trigger] trace_all(buf, nx, ny, starts).0[k][j]),
    decreases starts.len(),
{
    if starts.len() == 0 {
        lemma_flags_within_refl(buf);
    } else {
        lemma_traced_cells_flagged(buf, nx, ny, starts.drop_last());
        let (paths, b) = trace_all(buf, nx, ny, starts.drop_last());
        let (x, y) = starts.last();
        let all = trace_all(buf, nx, ny, starts);
        if 0 <= x < nx && 0 <= y < ny && y * nx + x < b.len() && (b[y * nx + x].northsouth != 0
            || b[y * nx + x].eastwest != 0) {
            lemma_walk_flags(b, nx, ny, x, y);
            lemma_flags_within_trans(trace_walk(b, nx, ny, x, y).1, b, buf);
            let pp = seq![(x, y)] + trace_walk(b, nx, ny, x, y).0;
            assert(all.0 == paths.push(pp));
            assert forall|k: int, j: int|
                0 <= k < all.0.len() && 0 <= j < all.0[k].len() - 1 implies flagged(
                buf,
                nx,
                #[trigger] all.0[k][j],
            ) by {
                if k < paths.len() {
                    assert(all.0[k] == paths[k]);
                    assert(flagged(buf, nx, trace_all(buf, nx, ny, starts.drop_last()).0[k][j]));
                } else {
                    assert(all.0[k] == pp);
                    assert(flagged(b, nx, pp[j]));
                    let q = pp[j];
                    let i = q.1 * nx + q.0;
                    assert(b[i].northsouth != 0 ==> buf[i].northsouth != 0);
                }
            }
        }
    }
}

/// Every traced contour is a chain of 4-neighbours inside the grid.
pub proof fn lemma_traced_contours(buf: Seq<OrientedPixel>, nx: int, ny: int, starts: Seq<(int, int)>)
    requires
        flags_inward(buf, nx, ny),
        nx * ny <= buf.len(),
    ensures
        forall|k: int|
            0 <= k < trace_all(buf, nx, ny, starts).0.len() ==> is_contour(
                #[trigger] trace_all(buf, nx, ny, starts).0[k],
                nx,
                ny,
            ),
        flags_inward(trace_all(buf, nx, ny, starts).1, nx, ny),
        trace_all(buf, nx, ny, starts).1.len() == buf.len(),
    decreases starts.len(),
{
    if starts.len() > 0 {
        lemma_traced_contours(buf, nx, ny, starts.drop_last());
        let (paths, b) = trace_all(buf, nx, ny, starts.drop_last());
        let (x, y) = starts.last();
        if 0 <= x < nx && 0 <= y < ny && y * nx + x < b.len() && (b[y * nx + x].northsouth != 0
            || b[y * nx + x].eastwest != 0) {
            lemma_walk_contour(b, nx, ny, x, y);
        }
    }
}

/// Column of the nearest material cell at or left of column `x` in row
/// `y`, or `-nx` when there is none.
pub open spec fn nearest_left(b: Seq<bool>, nx: int, y: int, x: int) -> int
    decreases x + 1,
{
    if x < 0 {
        -nx
    } else if cell(b, nx, x, y) {
        x
    } else {
        nearest_left(b, nx, y, x - 1)
    }
}

/// Column of the nearest material cell at or right of column `x` in
/// row `y`, or `2 * nx` when there is none.
pub open spec fn nearest_right(b: Seq<bool>, nx: int, y: int, x: int) -> int
    decreases nx - x,
{
    if x >= nx {
        2 * nx
    } else if cell(b, nx, x, y) {
        x
    } else {
        nearest_right(b, nx, y, x + 1)
    }
}

/// Distance along the row from a cell to the nearest material cell of
/// its row (0 on material; at least `nx` when the row has none).
pub open spec fn row_gap(b: Seq<bool>, nx: int, y: int, x: int) -> int {
    if cell(b, nx, x, y) {
        0
    } else {
        let l = x - nearest_left(b, nx, y, x);
        let r = nearest_right(b, nx, y, x) - x;
        if r < l {
            r
        } else {
            l
        }
    }
}

proof fn lemma_nearest_bounds(b: Seq<bool>, nx: int, y: int, x: int)
    requires
        nx >= 0,
    ensures
        x >= 0 ==> -nx <= nearest_left(b, nx, y, x) <= x,
        x < nx ==> x <= nearest_right(b, nx, y, x) <= 2 * nx,
    decreases nx + 2 - x,
{
    if x >= 0 {
        lemma_nearest_left_bounds(b, nx, y, x);
    }
    if x < nx {
        if !cell(b, nx, x, y) && x + 1 < nx {
            lemma_nearest_bounds(b, nx, y, x + 1);
        }
        if x + 1 == nx {
            assert(nearest_right(b, nx, y, nx) == 2 * nx);
        }
    }
}

proof fn lemma_nearest_left_bounds(b: Seq<bool>, nx: int, y: int, x: int)
    requires
        nx >= 0,
        x >= 0,
    ensures
        -nx <= nearest_left(b, nx, y, x) <= x,
    decreases x,
{
    if !cell(b, nx, x, y) && x >= 1 {
        lemma_nearest_left_bounds(b, nx, y, x - 1);
    }
    if x == 0 {
        assert(nearest_left(b, nx, y, -1) == -nx);
    }
}

/// The first pass of the Euclidean distance transform: for every cell,
/// the distance along its row to the nearest material cell.
pub fn row_distances(binary_image: &Vec<bool>, nx: usize, ny: usize) -> (r: Vec<u32>)
    requires
        nx * ny <= binary_image@.len(),
        2 * nx <= u32::MAX,
    ensures
        r@.len() == nx * ny,
        forall|x: int, y: int|
            0 <= x < nx && 0 <= y < ny ==> #[trigger] cell(r@, nx as int, x, y) == row_gap(
                binary_image@,
                nx as int,
                y,
                x,
            ),
{
    let blen = binary_image.len();
    let mut g: Vec<u32> = Vec::new();
    let mut y: usize = 0;
    while y < ny
        invariant
            nx * ny <= binary_image@.len(),
            blen == binary_image@.len(),
            2 * nx <= u32::MAX,
            y <= ny,
            g@.len() == y * nx,
            forall|a: int, c: int|
                0 <= a < nx && 0 <= c < y ==> #[trigger] cell(g@, nx as int, a, c) == row_gap(
                    binary_image@,
                    nx as int,
                    c,
                    a,
                ),
        decreases ny - y,
    {
        let ghost gb = g@;
        proof {
            lemma_row_shift(nx as int, y as int);
            assert(y * nx + nx <= nx * ny) by (nonlinear_arith)
                requires
                    y < ny,
            ;
        }
        // distances to the nearest material cell on the left
        let mut left: Vec<u32> = Vec::new();
        let mut closest: i64 = -(nx as i64);
        let mut x: usize = 0;
        while x < nx
            invariant
                nx * ny <= binary_image@.len(),
                blen == binary_image@.len(),
                y * nx + nx <= nx * ny,
                2 * nx <= u32::MAX,
                x <= nx,
                left@.len() == x,
                closest == nearest_left(binary_image@, nx as int, y as int, x - 1),
                forall|a: int| 0 <= a < x ==> #[trigger] left@[a] == (if cell(binary_image@, nx as int, a, y as int) {
                    0
                } else {
                    a - nearest_left(binary_image@, nx as int, y as int, a)
                }),
            decreases nx - x,
        {
            proof {
                lemma_nearest_bounds(binary_image@, nx as int, y as int, x as int);
                if x >= 1 {
                    lemma_nearest_left_bounds(binary_image@, nx as int, y as int, x - 1);
                }
            }
            if binary_image[y * nx + x] {
                left.push(0);
                closest = x as i64;
            } else {
                left.push((x as i64 - closest) as u32);
            }
            x += 1;
        }
        // then the nearer of that and the nearest on the right
        let mut row: Vec<u32> = left;
        let mut closest: i64 = 2 * nx as i64;
        let mut x: usize = nx;
        while x > 0
            invariant
                nx * ny <= binary_image@.len(),
                blen == binary_image@.len(),
                y * nx + nx <= nx * ny,
                2 * nx <= u32::MAX,
                x <= nx,
                row@.len() == nx,
                closest == nearest_right(binary_image@, nx as int, y as int, x as int),
                forall|a: int| 0 <= a < x ==> #[trigger] row@[a] == (if cell(binary_image@, nx as int, a, y as int) {
                    0
                } else {
                    a - nearest_left(binary_image@, nx as int, y as int, a)
                }),
                forall|a: int| x <= a < nx ==> #[trigger] row@[a] == row_gap(binary_image@, nx as int, y as int, a),
            decreases x,
        {
            x -= 1;
            proof {
                lemma_nearest_bounds(binary_image@, nx as int, y as int, x as int);
            }
            if binary_image[y * nx + x] {
                closest = x as i64;
            } else {
                let d = (closest - x as i64) as u32;
                if d < row[x] {
                    row.set(x, d);
                }
            }
        }
        let mut x: usize = 0;
        while x < nx
            invariant
                g@.len() == y * nx + x,
                x <= nx,
                row@.len() == nx,
                forall|a: int| 0 <= a < nx ==> #[trigger] row@[a] == row_gap(binary_image@, nx as int, y as int, a),
                forall|i: int| 0 <= i < y * nx ==> #[trigger] g@[i] == gb[i],
                forall|a: int| 0 <= a < x ==> #[trigger] g@[y * nx + a] == row@[a],
                gb.len() == y * nx,
            decreases nx - x,
        {
            g.push(row[x]);
            x += 1;
        }
        proof {
            assert forall|a: int, c: int|
                0 <= a < nx && 0 <= c < y + 1 implies #[trigger] cell(g@, nx as int, a, c) == row_gap(
                binary_image@,
                nx as int,
                c,
                a,
            ) by {
                if c < y {
                    lemma_index_in_grid(nx as int, y as int, a, c);
                    assert(cell(gb, nx as int, a, c) == row_gap(binary_image@, nx as int, c, a));
                } else {
                    assert(g@[y * nx + a] == row@[a]);
                }
            }
        }
        y += 1;
    }
    proof {
        assert(ny * nx == nx * ny) by (nonlinear_arith);
    }
    g
}

} // verus!
