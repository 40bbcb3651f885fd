//! The 64×32 monochrome framebuffer and its sprite blit.
use vstd::arithmetic::div_mod::{
    lemma_div_by_multiple, lemma_div_is_ordered, lemma_div_pos_is_pos, lemma_fundamental_div_mod,
    lemma_fundamental_div_mod_converse, lemma_mod_bound,
};
use vstd::prelude::*;

verus! {

/// Columns of the screen.
pub const WIDTH: usize = 64;

/// Rows of the screen.
pub const HEIGHT: usize = 32;

/// Cells of the screen, row-major: the cell at column `x`, row `y` is `x + y * WIDTH`.
pub const CELLS: usize = 2048;

/// The framebuffer as a value: each cell, and whether a redraw was requested.
pub struct Screen {
    pub cells: Seq<u8>,
    pub redraw: bool,
}

/// Every cell holds 0 or 1.
pub open spec fn cells_binary(cells: Seq<u8>) -> bool {
    forall|c: int| 0 <= c < cells.len() ==> #[trigger] cells[c] <= 1
}

/// A screen with every cell off.
pub open spec fn blank() -> Seq<u8> {
    Seq::new(CELLS as nat, |c: int| 0u8)
}

/// Whether bit `col` of a sprite row is set; column 0 is the most significant bit.
pub open spec fn sprite_bit(row: u8, col: u8) -> bool {
    (row >> ((7 - col) as u8)) & 1u8 == 1u8
}

/// The column of cell `c` relative to a sprite whose left edge is at column
/// `x0`, wrapping around the screen.
pub open spec fn sprite_col(x0: int, c: int) -> int {
    (c % (WIDTH as int) - x0) % (WIDTH as int)
}

/// Whether row `j` of `sprite`, drawn with its top-left corner at column `x0`,
/// row `y0`, sets a bit over cell `c`. The sprite wraps around both edges of
/// the screen, so rows `j` and `j + HEIGHT` land on the same screen row.
pub open spec fn row_covers(x0: int, y0: int, sprite: Seq<u8>, j: int, c: int) -> bool {
    &&& (c / (WIDTH as int) - y0) % (HEIGHT as int) == j % (HEIGHT as int)
    &&& sprite_col(x0, c) < 8
    &&& sprite_bit(sprite[j], sprite_col(x0, c) as u8)
}

/// How many of the first `n` rows of `sprite` at (`x0`, `y0`) set a bit over
/// cell `c`.
pub open spec fn hits(x0: int, y0: int, sprite: Seq<u8>, c: int, n: int) -> nat
    decreases n,
{
    if n <= 0 {
        0
    } else {
        hits(x0, y0, sprite, c, n - 1) + if row_covers(x0, y0, sprite, n - 1, c) {
            1nat
        } else {
            0nat
        }
    }
}

/// A cell of 0 or 1 holding `v`, after being XOR-ed with 1 `k` times.
pub open spec fn flipped(v: u8, k: int) -> u8 {
    if k % 2 == 1 {
        if v == 1 {
            0u8
        } else {
            1u8
        }
    } else {
        v
    }
}

/// Whether a cell holding `v`, XOR-ed with 1 `k` times, goes from on to off
/// at one of them.
pub open spec fn turned_off(v: u8, k: int) -> bool {
    (v == 1 && k >= 1) || (v != 1 && k >= 2)
}

/// The cells after XOR-ing `sprite` onto them at (`x0`, `y0`): each cell is
/// flipped once for every set bit of the sprite that lands on it.
pub open spec fn drawn(cells: Seq<u8>, x0: int, y0: int, sprite: Seq<u8>) -> Seq<u8> {
    Seq::new(
        cells.len(),
        |c: int| flipped(cells[c], hits(x0, y0, sprite, c, sprite.len() as int) as int),
    )
}

/// Whether drawing `sprite` at (`x0`, `y0`) turns off, at some point, a cell
/// that was on.
pub open spec fn collides(cells: Seq<u8>, x0: int, y0: int, sprite: Seq<u8>) -> bool {
    exists|c: int|
        0 <= c < cells.len() && #[trigger] turned_off(
            cells[c],
            hits(x0, y0, sprite, c, sprite.len() as int) as int,
        )
}

/// The offset from `base` to `a` on a circle of `m` positions is `k`
/// exactly when `a` is `k` positions after `base`.
proof fn lemma_wrapped_offset(a: int, base: int, k: int, m: int)
    requires
        0 <= a < m,
        0 <= base < m,
        0 <= k < m,
    ensures
        ((a - base) % m == k) <==> (a == (base + k) % m),
{
    if a >= base {
        lemma_fundamental_div_mod_converse(a - base, m, 0, a - base);
    } else {
        lemma_fundamental_div_mod_converse(a - base, m, -1, a - base + m);
    }
    if base + k < m {
        lemma_fundamental_div_mod_converse(base + k, m, 0, base + k);
    } else {
        lemma_fundamental_div_mod_converse(base + k, m, 1, base + k - m);
    }
}

/// Column and row of cell `c`, and the cell at column `px`, row `py`.
proof fn lemma_cell_coordinates(c: int, px: int, py: int)
    requires
        0 <= px < WIDTH,
        0 <= py < HEIGHT,
    ensures
        0 <= px + py * (WIDTH as int) < CELLS,
        (px + py * (WIDTH as int)) % (WIDTH as int) == px,
        (px + py * (WIDTH as int)) / (WIDTH as int) == py,
        0 <= c < CELLS ==> 0 <= c % (WIDTH as int) < WIDTH && 0 <= c / (WIDTH as int) < HEIGHT,
        0 <= c < CELLS ==> c == c % (WIDTH as int) + (c / (WIDTH as int)) * (WIDTH as int),
{
    lemma_fundamental_div_mod_converse(px + py * (WIDTH as int), WIDTH as int, py, px);
    if 0 <= c < CELLS {
        lemma_fundamental_div_mod(c, WIDTH as int);
        lemma_mod_bound(c, WIDTH as int);
        lemma_div_bound(c);
    }
}

proof fn lemma_div_bound(c: int)
    requires
        0 <= c < CELLS,
    ensures
        0 <= c / (WIDTH as int) < HEIGHT,
{
    lemma_div_pos_is_pos(c, WIDTH as int);
    lemma_div_is_ordered(c, CELLS as int, WIDTH as int);
    lemma_div_by_multiple(HEIGHT as int, WIDTH as int);
    assert((CELLS as int) == (HEIGHT as int) * (WIDTH as int));
    if c / (WIDTH as int) >= HEIGHT {
        lemma_fundamental_div_mod(c, WIDTH as int);
        lemma_mod_bound(c, WIDTH as int);
        assert(c >= (WIDTH as int) * (c / (WIDTH as int))) by (nonlinear_arith)
            requires c == (WIDTH as int) * (c / (WIDTH as int)) + c % (WIDTH as int), c % (WIDTH as int) >= 0;
        assert((WIDTH as int) * (c / (WIDTH as int)) >= (WIDTH as int) * (HEIGHT as int)) by (nonlinear_arith)
            requires c / (WIDTH as int) >= HEIGHT;
    }
}

/// The set bits that land on cell `c` once the draw loop has finished the
/// rows before `j` and the columns before `i` of row `j`.
spec fn partial_hits(x0: int, y0: int, sprite: Seq<u8>, c: int, j: int, i: int) -> int {
    hits(x0, y0, sprite, c, j) + if row_covers(x0, y0, sprite, j, c) && sprite_col(x0, c) < i {
        1int
    } else {
        0int
    }
}

/// Whether the draw loop, that far, has turned off a cell that was on.
spec fn partly_collides(cells: Seq<u8>, x0: int, y0: int, sprite: Seq<u8>, j: int, i: int) -> bool {
    exists|c: int|
        0 <= c < CELLS && #[trigger] turned_off(cells[c], partial_hits(x0, y0, sprite, c, j, i))
}

/// The draw loop's visit of row `j`, column `i` of the sprite adds a hit to
/// the target cell if that bit is set, and to no other cell.
proof fn lemma_visit_step(x0: int, y0: int, sprite: Seq<u8>, j: int, i: int, c: int)
    requires
        0 <= x0 < WIDTH,
        0 <= y0 < HEIGHT,
        0 <= j < sprite.len(),
        0 <= i < 8,
        0 <= c < CELLS,
    ensures
        ({
            let target = (x0 + i) % (WIDTH as int) + ((y0 + j % (HEIGHT as int)) % (HEIGHT as int))
                * (WIDTH as int);
            partial_hits(x0, y0, sprite, c, j, i + 1) == partial_hits(x0, y0, sprite, c, j, i) + if c
                == target && sprite_bit(sprite[j], i as u8) {
                1int
            } else {
                0int
            }
        }),
{
    let px = c % (WIDTH as int);
    let py = c / (WIDTH as int);
    lemma_cell_coordinates(c, 0, 0);
    let tx = (x0 + i) % (WIDTH as int);
    let jr = j % (HEIGHT as int);
    lemma_mod_bound(j, HEIGHT as int);
    let ty = (y0 + jr) % (HEIGHT as int);
    lemma_mod_bound(x0 + i, WIDTH as int);
    lemma_mod_bound(y0 + jr, HEIGHT as int);
    lemma_cell_coordinates(c, tx, ty);
    lemma_wrapped_offset(px, x0, i, WIDTH as int);
    lemma_wrapped_offset(py, y0, jr, HEIGHT as int);
    lemma_mod_bound(px - x0, WIDTH as int);
}

/// One visit of the draw loop: which cell gains a hit, and how that changes
/// whether a cell that was on has turned off.
proof fn lemma_hit_step(start: Seq<u8>, x0: int, y0: int, sprite: Seq<u8>, j: int, i: int)
    requires
        0 <= x0 < WIDTH,
        0 <= y0 < HEIGHT,
        0 <= j < sprite.len(),
        0 <= i < 8,
        start.len() == CELLS,
        cells_binary(start),
    ensures
        ({
            let target = (x0 + i) % (WIDTH as int) + ((y0 + j % (HEIGHT as int)) % (HEIGHT as int))
                * (WIDTH as int);
            let bit = sprite_bit(sprite[j], i as u8);
            &&& 0 <= target < CELLS
            &&& forall|c: int|
                0 <= c < CELLS ==> #[trigger] partial_hits(x0, y0, sprite, c, j, i + 1)
                    == partial_hits(x0, y0, sprite, c, j, i) + if c == target && bit {
                    1int
                } else {
                    0int
                }
            &&& partly_collides(start, x0, y0, sprite, j, i + 1) == (partly_collides(
                start,
                x0,
                y0,
                sprite,
                j,
                i,
            ) || (bit && flipped(start[target], partial_hits(x0, y0, sprite, target, j, i)) == 1))
        }),
{
    let target = (x0 + i) % (WIDTH as int) + ((y0 + j % (HEIGHT as int)) % (HEIGHT as int)) * (
    WIDTH as int);
    let bit = sprite_bit(sprite[j], i as u8);
    lemma_mod_bound(x0 + i, WIDTH as int);
    lemma_mod_bound(j, HEIGHT as int);
    lemma_mod_bound(y0 + j % (HEIGHT as int), HEIGHT as int);
    lemma_cell_coordinates(
        0,
        (x0 + i) % (WIDTH as int),
        (y0 + j % (HEIGHT as int)) % (HEIGHT as int),
    );
    assert forall|c: int| 0 <= c < CELLS implies #[trigger] partial_hits(x0, y0, sprite, c, j, i + 1)
        == partial_hits(x0, y0, sprite, c, j, i) + if c == target && bit {
        1int
    } else {
        0int
    } by {
        lemma_visit_step(x0, y0, sprite, j, i, c);
    }
    let p = partial_hits(x0, y0, sprite, target, j, i);
    if partly_collides(start, x0, y0, sprite, j, i) {
        let w = choose|c: int|
            0 <= c < CELLS && #[trigger] turned_off(start[c], partial_hits(x0, y0, sprite, c, j, i));
        assert(turned_off(start[w], partial_hits(x0, y0, sprite, w, j, i + 1)));
    } else if bit && flipped(start[target], p) == 1 {
        assert(turned_off(start[target], partial_hits(x0, y0, sprite, target, j, i + 1)));
    } else {
        assert forall|c: int| 0 <= c < CELLS implies !#[trigger] turned_off(
            start[c],
            partial_hits(x0, y0, sprite, c, j, i + 1),
        ) by {
            assert(!turned_off(start[c], partial_hits(x0, y0, sprite, c, j, i)));
        }
    }
}

/// Once a row is finished, its hits are those of the rows before the next.
proof fn lemma_row_done(x0: int, y0: int, sprite: Seq<u8>, c: int, j: int)
    requires
        0 <= j,
    ensures
        partial_hits(x0, y0, sprite, c, j, 8) == hits(x0, y0, sprite, c, j + 1),
        partial_hits(x0, y0, sprite, c, j, 0) == hits(x0, y0, sprite, c, j),
{
    let px = c % (WIDTH as int);
    lemma_mod_bound(px - x0, WIDTH as int);
}

/// The framebuffer of the machine.
pub struct Display {
    gfx: [u8; 2048],
    draw_happened: bool,
}

impl View for Display {
    type V = Screen;

    closed spec fn view(&self) -> Screen {
        Screen { cells: self.gfx@, redraw: self.draw_happened }
    }
}

impl Display {
    /// Whether the display's invariant holds: every cell is 0 or 1.
    pub open spec fn wf(&self) -> bool {
        &&& self@.cells.len() == CELLS
        &&& cells_binary(self@.cells)
    }

    /// A blank display with no redraw pending.
    pub fn new() -> (d: Display)
        ensures
            d@.cells == blank(),
            !d@.redraw,
            d.wf(),
    {
        let d = Display { gfx: [0u8; 2048], draw_happened: false };
        assert(d@.cells =~= blank());
        d
    }

    /// Whether the cell at column `x`, row `y` is on.
    pub fn get_pixel(&self, x: usize, y: usize) -> (on: bool)
        requires
            x < WIDTH,
            y < HEIGHT,
        ensures
            on == (self@.cells[x + y * WIDTH] == 1),
    {
        self.gfx[x + y * WIDTH] == 1
    }

    /// Sets the cell at column `x`, row `y` and requests a redraw.
    pub fn set_pixel(&mut self, x: usize, y: usize, state: bool)
        requires
            x < WIDTH,
            y < HEIGHT,
        ensures
            final(self)@.cells == old(self)@.cells.update(x + y * WIDTH, if state {
                1u8
            } else {
                0u8
            }),
            final(self)@.redraw,
    {
        self.gfx[x + y * WIDTH] = if state {
            1
        } else {
            0
        };
        self.draw_happened = true;
    }

    /// Turns every cell off, with no redraw pending: the blank display.
    pub fn clear(&mut self)
        ensures
            final(self)@.cells == blank(),
            !final(self)@.redraw,
            final(self).wf(),
    {
        *self = Display::new();
    }

    /// XORs `sprite` onto the screen with its top-left corner at column
    /// `x % WIDTH`, row `y % HEIGHT`, wrapping around both edges, and requests
    /// a redraw. Returns whether some cell that was on turned off.
    pub fn display_sprite(&mut self, x: usize, y: usize, sprite: &[u8]) -> (collided: bool)
        requires
            old(self).wf(),
        ensures
            final(self).wf(),
            final(self)@.cells == drawn(
                old(self)@.cells,
                (x % WIDTH) as int,
                (y % HEIGHT) as int,
                sprite@,
            ),
            collided == collides(old(self)@.cells, (x % WIDTH) as int, (y % HEIGHT) as int, sprite@),
            final(self)@.redraw,
    {
        let x0 = x % WIDTH;
        let y0 = y % HEIGHT;
        let len = sprite.len();
        let ghost start = self@.cells;
        let ghost sp = sprite@;
        let mut collided = false;
        let mut j: usize = 0;
        while j < len
            invariant
                j <= len,
                len == sp.len(),
                sp == sprite@,
                x0 < WIDTH,
                y0 < HEIGHT,
                start.len() == CELLS,
                cells_binary(start),
                self@.cells.len() == CELLS,
                forall|c: int|
                    0 <= c < CELLS ==> #[trigger] self@.cells[c] == flipped(
                        start[c],
                        partial_hits(x0 as int, y0 as int, sp, c, j as int, 0),
                    ),
                collided == partly_collides(start, x0 as int, y0 as int, sp, j as int, 0),
            decreases len - j,
        {
            let row = sprite[j];
            let yj = (y0 + j % HEIGHT) % HEIGHT;
            let mut i: u8 = 0;
            while i < 8
                invariant
                    i <= 8,
                    j < len,
                    len == sp.len(),
                    row == sp[j as int],
                    x0 < WIDTH,
                    y0 < HEIGHT,
                    yj as int == (y0 + j % HEIGHT) % (HEIGHT as int),
                    start.len() == CELLS,
                    cells_binary(start),
                    self@.cells.len() == CELLS,
                    forall|c: int|
                        0 <= c < CELLS ==> #[trigger] self@.cells[c] == flipped(
                            start[c],
                            partial_hits(x0 as int, y0 as int, sp, c, j as int, i as int),
                        ),
                    collided == partly_collides(start, x0 as int, y0 as int, sp, j as int, i as int),
                decreases 8 - i,
            {
                let xi = (x0 + i as usize) % WIDTH;
                let ghost target = xi + yj * WIDTH;
                proof {
                    lemma_cell_coordinates(0, xi as int, yj as int);
                    lemma_hit_step(start, x0 as int, y0 as int, sp, j as int, i as int);
                }
                if (row >> (7 - i)) & 1 == 1 {
                    let was_on = self.get_pixel(xi, yj);
                    if was_on {
                        collided = true;
                    }
                    self.set_pixel(xi, yj, !was_on);
                }
                i += 1;
            }
            proof {
                assert forall|c: int| 0 <= c < CELLS implies #[trigger] partial_hits(
                    x0 as int,
                    y0 as int,
                    sp,
                    c,
                    j as int,
                    8,
                ) == partial_hits(x0 as int, y0 as int, sp, c, j + 1, 0) by {
                    lemma_row_done(x0 as int, y0 as int, sp, c, j as int);
                    lemma_row_done(x0 as int, y0 as int, sp, c, j + 1);
                }
                if collided {
                    let w = choose|c: int|
                        0 <= c < CELLS && #[trigger] turned_off(
                            start[c],
                            partial_hits(x0 as int, y0 as int, sp, c, j as int, 8),
                        );
                    assert(turned_off(start[w], partial_hits(x0 as int, y0 as int, sp, w, j + 1, 0)));
                } else {
                    assert forall|c: int| 0 <= c < CELLS implies !#[trigger] turned_off(
                        start[c],
                        partial_hits(x0 as int, y0 as int, sp, c, j + 1, 0),
                    ) by {
                        assert(!turned_off(
                            start[c],
                            partial_hits(x0 as int, y0 as int, sp, c, j as int, 8),
                        ));
                    }
                }
            }
            j += 1;
        }
        self.draw_happened = true;
        proof {
            assert forall|c: int| 0 <= c < CELLS implies #[trigger] partial_hits(
                x0 as int,
                y0 as int,
                sp,
                c,
                len as int,
                0,
            ) == hits(x0 as int, y0 as int, sp, c, len as int) by {
                lemma_row_done(x0 as int, y0 as int, sp, c, len as int);
            }
            if collided {
                let w = choose|c: int|
                    0 <= c < CELLS && #[trigger] turned_off(
                        start[c],
                        partial_hits(x0 as int, y0 as int, sp, c, len as int, 0),
                    );
                assert(turned_off(start[w], hits(x0 as int, y0 as int, sp, w, len as int) as int));
            } else {
                assert forall|c: int| 0 <= c < CELLS implies !#[trigger] turned_off(
                    start[c],
                    hits(x0 as int, y0 as int, sp, c, len as int) as int,
                ) by {
                    assert(!turned_off(
                        start[c],
                        partial_hits(x0 as int, y0 as int, sp, c, len as int, 0),
                    ));
                }
            }
            assert forall|c: int| 0 <= c < CELLS implies #[trigger] self@.cells[c] <= 1 by {}
        }
        assert(self@.cells =~= drawn(start, x0 as int, y0 as int, sp));
        collided
    }

    /// Whether a redraw was requested since the flag was last reset.
    pub fn draw_happened(&self) -> (r: bool)
        ensures
            r == self@.redraw,
    {
        self.draw_happened
    }

    /// Sets whether a redraw is pending; the cells are kept.
    pub fn set_draw_flag(&mut self, pending: bool)
        ensures
            final(self)@ == (Screen { redraw: pending, ..old(self)@ }),
    {
        self.draw_happened = pending;
    }

    /// The cells, row-major.
    pub fn cells(&self) -> (g: &[u8; 2048])
        ensures
            g@ == self@.cells,
    {
        &self.gfx
    }
}

} // verus!
