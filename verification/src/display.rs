//! The 64x32 monochrome framebuffer with XOR sprite drawing and collision
//! reporting.
//!
//! A sprite is a sequence of bytes; each byte is one 8-pixel-wide bitmap row,
//! most significant bit leftmost.  Drawing XORs the sprite onto the grid, with
//! both axes wrapping (toroidal blit), and reports a collision exactly when a
//! pixel that was on is turned off.

use vstd::prelude::*;
use vstd::arithmetic::div_mod::lemma_add_mod_noop;
use vstd::arithmetic::div_mod::lemma_small_mod;
use vstd::arithmetic::div_mod::lemma_fundamental_div_mod;
use vstd::arithmetic::div_mod::lemma_fundamental_div_mod_converse_mod;
use vstd::arithmetic::div_mod::lemma_fundamental_div_mod_converse_div;

verus! {

/// Row-major cell index of the pixel at column `x`, row `y`.
pub open spec fn pixel_index(x: int, y: int) -> int {
    y * 64 + x
}

/// Whether bit `i` (0 = leftmost, most significant) of sprite row byte `b` is set.
pub open spec fn byte_bit(b: u8, i: int) -> bool {
    (b >> ((7 - i) as u8)) & 1 == 1
}

/// Whether the sprite has a set bit at row `j`, bit position `i`.
pub open spec fn sprite_bit(sprite: Seq<u8>, j: int, i: int) -> bool {
    byte_bit(sprite[j], i)
}

/// Whether cell `c` is hit by some set sprite bit among those strictly before
/// position (`j0`, `i0`) in row-major sprite order, for a sprite drawn with its
/// top-left corner at (`x`, `y`).  Coordinates wrap: bit (`j`, `i`) lands on
/// column `(x + i) % 64`, row `(y + j) % 32`.
pub open spec fn covers_before(sprite: Seq<u8>, x: int, y: int, c: int, j0: int, i0: int) -> bool {
    exists|j: int, i: int|
        0 <= j < sprite.len() && 0 <= i < 8
        && (j < j0 || (j == j0 && i < i0))
        && #[trigger] sprite_bit(sprite, j, i)
        && c == pixel_index((x + i) % 64, (y + j) % 32)
}

/// Whether cell `c` is hit by any set bit of the sprite drawn at (`x`, `y`).
pub open spec fn covers(sprite: Seq<u8>, x: int, y: int, c: int) -> bool {
    covers_before(sprite, x, y, c, sprite.len() as int, 0)
}

/// The framebuffer after XOR-drawing `sprite` at (`x`, `y`): every covered
/// cell is toggled, every other cell keeps its value.
pub open spec fn spec_draw_screen(fb: Seq<bool>, x: int, y: int, sprite: Seq<u8>) -> Seq<bool> {
    Seq::new(fb.len(), |c: int| fb[c] != covers(sprite, x, y, c))
}

/// Whether XOR-drawing `sprite` at (`x`, `y`) turns some lit cell off, i.e.
/// some set sprite bit lands on a cell that is already on.
pub open spec fn spec_draw_collision(fb: Seq<bool>, x: int, y: int, sprite: Seq<u8>) -> bool {
    exists|c: int| 0 <= c < fb.len() && fb[c] && covers(sprite, x, y, c)
}

/// The fixed 64x32 monochrome pixel grid.  A cell value of 0 is off; any
/// other value is on.  The view is the grid as a row-major sequence of 2048
/// booleans.
pub struct Display {
    screen: Vec<u8>,
}

impl View for Display {
    type V = Seq<bool>;

    closed spec fn view(&self) -> Seq<bool> {
        self.screen@.map_values(|cell: u8| cell != 0)
    }
}

impl Display {
    /// A blank display with every cell off.
    pub fn new() -> (d: Display)
        ensures
            d@ == Seq::new(2048, |c: int| false),
    {
        let screen = vec![0u8; 2048];
        proof {
            assert forall|c: int| 0 <= c < 2048 implies #[trigger] screen@[c] == 0u8 by {
                assert(cloned(0u8, screen@[c]));
            }
            assert(screen@.map_values(|cell: u8| cell != 0) =~= Seq::new(2048, |c: int| false));
        }
        Display { screen }
    }

    /// Turn the single pixel at column `x`, row `y` on or off.
    pub fn set_pixel(&mut self, x: usize, y: usize, on: bool)
        requires
            old(self)@.len() == 2048,
            x < 64,
            y < 32,
        ensures
            final(self)@ == old(self)@.update(pixel_index(x as int, y as int), on),
    {
        let cell: u8 = if on { 1 } else { 0 };
        self.screen[y * 64 + x] = cell;
        proof {
            assert(self@ =~= old(self)@.update(pixel_index(x as int, y as int), on));
        }
    }

    /// Whether the pixel at column `x`, row `y` is on.
    pub fn get_pixel(&mut self, x: usize, y: usize) -> (on: bool)
        requires
            old(self)@.len() == 2048,
            x < 64,
            y < 32,
        ensures
            *final(self) == *old(self),
            on == old(self)@[pixel_index(x as int, y as int)],
    {
        self.screen[y * 64 + x] != 0
    }

    /// Turn every cell off.
    pub fn clear(&mut self)
        requires
            old(self)@.len() == 2048,
        ensures
            final(self)@ == Seq::new(2048, |c: int| false),
    {
        let mut x: usize = 0;
        while x < 64
            invariant
                x <= 64,
                self@.len() == 2048,
                forall|c: int| 0 <= c < 2048 && c % 64 < x ==> !self@[c],
            decreases 64 - x,
        {
            let mut y: usize = 0;
            while y < 32
                invariant
                    x < 64,
                    y <= 32,
                    self@.len() == 2048,
                    forall|c: int| 0 <= c < 2048 && c % 64 < x ==> !self@[c],
                    forall|c: int| 0 <= c < 2048 && c % 64 == x && c / 64 < y ==> !self@[c],
                decreases 32 - y,
            {
                self.set_pixel(x, y, false);
                proof {
                    lemma_cell_compose(x as int, y as int);
                }
                y = y + 1;
            }
            x = x + 1;
        }
        proof {
            assert forall|c: int| 0 <= c < 2048 implies !self@[c] by {
                lemma_cell_decomp(c);
            }
            assert(self@ =~= Seq::new(2048, |c: int| false));
        }
    }

    /// XOR-draw `sprite` with its top-left corner at column `x`, row `y`,
    /// wrapping on both axes, and report whether any lit pixel was turned off.
    pub fn draw(&mut self, x: usize, y: usize, sprite: &[u8]) -> (collision: bool)
        requires
            old(self)@.len() == 2048,
            sprite@.len() <= 15,
        ensures
            final(self)@ == spec_draw_screen(old(self)@, x as int, y as int, sprite@),
            collision == spec_draw_collision(old(self)@, x as int, y as int, sprite@),
    {
        let xb = x % 64;
        let yb = y % 32;
        let rows = sprite.len();
        let mut collision = false;
        let mut j: usize = 0;
        proof {
            assert(forall|c: int| !covers_before(sprite@, x as int, y as int, c, 0, 0));
        }
        while j < rows
            invariant
                rows == sprite@.len(),
                rows <= 15,
                j <= rows,
                xb < 64,
                yb < 32,
                xb as int == (x as int) % 64,
                yb as int == (y as int) % 32,
                old(self)@.len() == 2048,
                self@.len() == 2048,
                forall|c: int| 0 <= c < 2048 ==>
                    self@[c] == (old(self)@[c] != covers_before(sprite@, x as int, y as int, c, j as int, 0)),
                collision == exists|c: int|
                    0 <= c < 2048 && old(self)@[c]
                    && covers_before(sprite@, x as int, y as int, c, j as int, 0),
            decreases rows - j,
        {
            let row = sprite[j];
            let mut i: usize = 0;
            while i < 8
                invariant
                    rows == sprite@.len(),
                    rows <= 15,
                    j < rows,
                    i <= 8,
                    row == sprite@[j as int],
                    xb < 64,
                    yb < 32,
                    xb as int == (x as int) % 64,
                    yb as int == (y as int) % 32,
                    old(self)@.len() == 2048,
                    self@.len() == 2048,
                    forall|c: int| 0 <= c < 2048 ==>
                        self@[c] == (old(self)@[c] != covers_before(sprite@, x as int, y as int, c, j as int, i as int)),
                    collision == exists|c: int|
                        0 <= c < 2048 && old(self)@[c]
                        && covers_before(sprite@, x as int, y as int, c, j as int, i as int),
                decreases 8 - i,
            {
                let ghost prev = self@;
                let ghost prev_collision = collision;
                let ghost gx = x as int;
                let ghost gy = y as int;
                let ghost gs = sprite@;
                let ghost gj = j as int;
                let ghost gi = i as int;
                let ghost c0 = pixel_index((gx + gi) % 64, (gy + gj) % 32);
                proof {
                    lemma_mod_add_reduce(gx, gi, 64);
                    lemma_mod_add_reduce(gy, gj, 32);
                    lemma_cell_compose((gx + gi) % 64, (gy + gj) % 32);
                    lemma_covers_step(gs, gx, gy, gj, gi);
                }
                let bit = (row >> (7 - i) as u8) & 1;
                proof {
                    assert((bit == 1) == sprite_bit(gs, gj, gi));
                }
                if bit == 1 {
                    let xi = (xb + i) % 64;
                    let yj = (yb + j) % 32;
                    proof {
                        assert(xi as int == (gx + gi) % 64);
                        assert(yj as int == (gy + gj) % 32);
                    }
                    let old_v = self.get_pixel(xi, yj);
                    proof {
                        assert(old_v == old(self)@[c0]);
                    }
                    if old_v {
                        collision = true;
                    }
                    self.set_pixel(xi, yj, !old_v);
                    proof {
                        assert forall|c: int| 0 <= c < 2048 implies
                            self@[c] == (old(self)@[c] != covers_before(gs, gx, gy, c, gj, gi + 1)) by {
                            if c == c0 {
                                assert(self@[c] == !old_v);
                                assert(covers_before(gs, gx, gy, c, gj, gi + 1));
                            } else {
                                assert(self@[c] == prev[c]);
                                assert(covers_before(gs, gx, gy, c, gj, gi + 1)
                                    == covers_before(gs, gx, gy, c, gj, gi));
                            }
                        }
                        assert(collision == exists|c: int|
                            0 <= c < 2048 && old(self)@[c] && covers_before(gs, gx, gy, c, gj, gi + 1)) by {
                            if collision {
                                if prev_collision {
                                    let cw = choose|cw: int|
                                        0 <= cw < 2048 && old(self)@[cw]
                                        && covers_before(gs, gx, gy, cw, gj, gi);
                                    assert(covers_before(gs, gx, gy, cw, gj, gi + 1));
                                } else {
                                    assert(old(self)@[c0]);
                                    assert(covers_before(gs, gx, gy, c0, gj, gi + 1));
                                }
                            } else {
                                if exists|c: int| 0 <= c < 2048 && old(self)@[c]
                                    && covers_before(gs, gx, gy, c, gj, gi + 1) {
                                    let cw = choose|cw: int|
                                        0 <= cw < 2048 && old(self)@[cw]
                                        && covers_before(gs, gx, gy, cw, gj, gi + 1);
                                    if cw == c0 {
                                        assert(old_v);
                                        assert(false);
                                    } else {
                                        assert(covers_before(gs, gx, gy, cw, gj, gi));
                                        assert(false);
                                    }
                                }
                            }
                        }
                    }
                } else {
                    proof {
                        assert forall|c: int| 0 <= c < 2048 implies
                            self@[c] == (old(self)@[c] != covers_before(gs, gx, gy, c, gj, gi + 1)) by {
                            assert(covers_before(gs, gx, gy, c, gj, gi + 1)
                                == covers_before(gs, gx, gy, c, gj, gi));
                        }
                        assert forall|c: int| 0 <= c < 2048 implies
                            (old(self)@[c] && covers_before(gs, gx, gy, c, gj, gi + 1))
                            == (old(self)@[c] && covers_before(gs, gx, gy, c, gj, gi)) by {
                            assert(covers_before(gs, gx, gy, c, gj, gi + 1)
                                == covers_before(gs, gx, gy, c, gj, gi));
                        }
                    }
                }
                i = i + 1;
            }
            proof {
                lemma_covers_row_step(sprite@, x as int, y as int, j as int);
            }
            j = j + 1;
        }
        proof {
            assert(self@ =~= spec_draw_screen(old(self)@, x as int, y as int, sprite@));
        }
        collision
    }
}

/// An all-zero sprite leaves every pixel unchanged and reports no collision.
pub proof fn lemma_draw_zero_sprite(fb: Seq<bool>, x: int, y: int, sprite: Seq<u8>)
    requires
        forall|j: int| 0 <= j < sprite.len() ==> sprite[j] == 0,
    ensures
        spec_draw_screen(fb, x, y, sprite) == fb,
        !spec_draw_collision(fb, x, y, sprite),
{
    assert forall|j: int, i: int| 0 <= j < sprite.len() && 0 <= i < 8 implies
        !#[trigger] sprite_bit(sprite, j, i) by {
        let k = (7 - i) as u8;
        assert((0u8 >> k) & 1 != 1) by (bit_vector);
    }
    assert(forall|c: int| !covers(sprite, x, y, c));
    assert(spec_draw_screen(fb, x, y, sprite) =~= fb);
}

/// XOR involution: drawing the same sprite at the same spot twice restores
/// every pixel, and the second draw reports a collision exactly when some
/// covered cell is on after the first draw.
pub proof fn lemma_draw_involution(fb: Seq<bool>, x: int, y: int, sprite: Seq<u8>)
    ensures
        spec_draw_screen(spec_draw_screen(fb, x, y, sprite), x, y, sprite) == fb,
        spec_draw_collision(spec_draw_screen(fb, x, y, sprite), x, y, sprite)
            == exists|c: int| 0 <= c < fb.len()
                && spec_draw_screen(fb, x, y, sprite)[c] && covers(sprite, x, y, c),
{
    assert(spec_draw_screen(spec_draw_screen(fb, x, y, sprite), x, y, sprite) =~= fb);
}

/// Toroidal wrap: a set sprite bit at row `j`, position `i` toggles exactly
/// the pixel at column `(x + i) % 64`, row `(y + j) % 32`.
pub proof fn lemma_draw_wraps(fb: Seq<bool>, x: int, y: int, sprite: Seq<u8>, j: int, i: int)
    requires
        fb.len() == 2048,
        0 <= x,
        0 <= y,
        0 <= j < sprite.len(),
        0 <= i < 8,
        sprite_bit(sprite, j, i),
    ensures
        spec_draw_screen(fb, x, y, sprite)[pixel_index((x + i) % 64, (y + j) % 32)]
            == !fb[pixel_index((x + i) % 64, (y + j) % 32)],
{
    lemma_cell_compose((x + i) % 64, (y + j) % 32);
    let c0 = pixel_index((x + i) % 64, (y + j) % 32);
    assert(covers(sprite, x, y, c0));
}

/// A cell index decomposes into its column `c % 64` and row `c / 64`.
proof fn lemma_cell_decomp(c: int)
    requires
        0 <= c < 2048,
    ensures
        pixel_index(c % 64, c / 64) == c,
        0 <= c % 64 < 64,
        0 <= c / 64 < 32,
{
    lemma_fundamental_div_mod(c, 64);
}

/// Composing a column in [0, 64) and a row in [0, 32) gives an in-range cell
/// index with that column and row.
proof fn lemma_cell_compose(cx: int, cy: int)
    requires
        0 <= cx < 64,
        0 <= cy < 32,
    ensures
        0 <= pixel_index(cx, cy) < 2048,
        pixel_index(cx, cy) % 64 == cx,
        pixel_index(cx, cy) / 64 == cy,
{
    lemma_fundamental_div_mod_converse_mod(pixel_index(cx, cy), 64, cy, cx);
    lemma_fundamental_div_mod_converse_div(pixel_index(cx, cy), 64, cy, cx);
}

/// Reducing the base coordinate modulo `m` first does not change the wrapped
/// coordinate.
proof fn lemma_mod_add_reduce(x: int, i: int, m: int)
    requires
        0 < m,
        0 <= x,
        0 <= i < m,
    ensures
        ((x % m) + i) % m == (x + i) % m,
{
    lemma_add_mod_noop(x, i, m);
    lemma_small_mod(i as nat, m as nat);
}

/// Two distinct offsets below 32 land on distinct rows after wrapping.
proof fn lemma_mod_distinct_rows(y: u64, j1: u64, j2: u64)
    by (bit_vector)
    requires
        y < 32,
        j1 < 32,
        j2 < 32,
        j1 != j2,
    ensures
        (y + j1) % 32 != (y + j2) % 32,
{
}

/// Two distinct offsets below 64 land on distinct columns after wrapping.
proof fn lemma_mod_distinct_cols(x: u64, i1: u64, i2: u64)
    by (bit_vector)
    requires
        x < 64,
        i1 < 64,
        i2 < 64,
        i1 != i2,
    ensures
        (x + i1) % 64 != (x + i2) % 64,
{
}

/// Distinct sprite bit positions land on distinct cells: the sprite has at
/// most 32 rows of 8 bits, so no two bits wrap onto the same pixel.
proof fn lemma_distinct_cells(x: int, y: int, j1: int, i1: int, j2: int, i2: int)
    requires
        0 <= x,
        0 <= y,
        0 <= j1 < 32,
        0 <= j2 < 32,
        0 <= i1 < 8,
        0 <= i2 < 8,
        !(j1 == j2 && i1 == i2),
    ensures
        pixel_index((x + i1) % 64, (y + j1) % 32) != pixel_index((x + i2) % 64, (y + j2) % 32),
{
    lemma_mod_add_reduce(y, j1, 32);
    lemma_mod_add_reduce(y, j2, 32);
    lemma_mod_add_reduce(x, i1, 64);
    lemma_mod_add_reduce(x, i2, 64);
    let yb = y % 32;
    let xb = x % 64;
    if j1 != j2 {
        lemma_mod_distinct_rows(yb as u64, j1 as u64, j2 as u64);
        assert((yb + j1) % 32 != (yb + j2) % 32);
    } else {
        lemma_mod_distinct_cols(xb as u64, i1 as u64, i2 as u64);
        assert((xb + i1) % 64 != (xb + i2) % 64);
    }
    lemma_cell_compose((x + i1) % 64, (y + j1) % 32);
    lemma_cell_compose((x + i2) % 64, (y + j2) % 32);
}

/// How coverage grows when one more bit position is processed: a set bit adds
/// exactly its own cell, a clear bit adds nothing, and the added cell was not
/// covered by any earlier position.
proof fn lemma_covers_step(sprite: Seq<u8>, x: int, y: int, j: int, i: int)
    requires
        0 <= x,
        0 <= y,
        sprite.len() <= 32,
        0 <= j < sprite.len(),
        0 <= i < 8,
    ensures
        !covers_before(sprite, x, y, pixel_index((x + i) % 64, (y + j) % 32), j, i),
        sprite_bit(sprite, j, i) ==> forall|c: int|
            covers_before(sprite, x, y, c, j, i + 1)
                == (covers_before(sprite, x, y, c, j, i)
                    || c == pixel_index((x + i) % 64, (y + j) % 32)),
        !sprite_bit(sprite, j, i) ==> forall|c: int|
            covers_before(sprite, x, y, c, j, i + 1) == covers_before(sprite, x, y, c, j, i),
{
    let c0 = pixel_index((x + i) % 64, (y + j) % 32);
    assert(!covers_before(sprite, x, y, c0, j, i)) by {
        if covers_before(sprite, x, y, c0, j, i) {
            let (j2, i2) = choose|j2: int, i2: int|
                0 <= j2 < sprite.len() && 0 <= i2 < 8
                && (j2 < j || (j2 == j && i2 < i))
                && #[trigger] sprite_bit(sprite, j2, i2)
                && c0 == pixel_index((x + i2) % 64, (y + j2) % 32);
            lemma_distinct_cells(x, y, j, i, j2, i2);
        }
    }
    if sprite_bit(sprite, j, i) {
        assert forall|c: int| covers_before(sprite, x, y, c, j, i + 1)
            == (covers_before(sprite, x, y, c, j, i) || c == c0) by {
            if covers_before(sprite, x, y, c, j, i + 1) {
                let (j2, i2) = choose|j2: int, i2: int|
                    0 <= j2 < sprite.len() && 0 <= i2 < 8
                    && (j2 < j || (j2 == j && i2 < i + 1))
                    && #[trigger] sprite_bit(sprite, j2, i2)
                    && c == pixel_index((x + i2) % 64, (y + j2) % 32);
                if j2 == j && i2 == i {
                    assert(c == c0);
                } else {
                    assert(covers_before(sprite, x, y, c, j, i));
                }
            }
            if covers_before(sprite, x, y, c, j, i) {
                let (j2, i2) = choose|j2: int, i2: int|
                    0 <= j2 < sprite.len() && 0 <= i2 < 8
                    && (j2 < j || (j2 == j && i2 < i))
                    && #[trigger] sprite_bit(sprite, j2, i2)
                    && c == pixel_index((x + i2) % 64, (y + j2) % 32);
                assert(covers_before(sprite, x, y, c, j, i + 1));
            }
            if c == c0 {
                assert(sprite_bit(sprite, j, i)
                    && c == pixel_index((x + i) % 64, (y + j) % 32));
                assert(covers_before(sprite, x, y, c, j, i + 1));
            }
        }
    } else {
        assert forall|c: int| covers_before(sprite, x, y, c, j, i + 1)
            == covers_before(sprite, x, y, c, j, i) by {
            if covers_before(sprite, x, y, c, j, i + 1) {
                let (j2, i2) = choose|j2: int, i2: int|
                    0 <= j2 < sprite.len() && 0 <= i2 < 8
                    && (j2 < j || (j2 == j && i2 < i + 1))
                    && #[trigger] sprite_bit(sprite, j2, i2)
                    && c == pixel_index((x + i2) % 64, (y + j2) % 32);
                assert(!(j2 == j && i2 == i));
                assert(covers_before(sprite, x, y, c, j, i));
            }
            if covers_before(sprite, x, y, c, j, i) {
                let (j2, i2) = choose|j2: int, i2: int|
                    0 <= j2 < sprite.len() && 0 <= i2 < 8
                    && (j2 < j || (j2 == j && i2 < i))
                    && #[trigger] sprite_bit(sprite, j2, i2)
                    && c == pixel_index((x + i2) % 64, (y + j2) % 32);
                assert(covers_before(sprite, x, y, c, j, i + 1));
            }
        }
    }
}

/// Finishing a row: coverage up to the start of row `j + 1` is coverage up to
/// bit position 8 of row `j`.
proof fn lemma_covers_row_step(sprite: Seq<u8>, x: int, y: int, j: int)
    requires
        0 <= j,
    ensures
        forall|c: int| covers_before(sprite, x, y, c, j + 1, 0)
            == covers_before(sprite, x, y, c, j, 8),
{
    assert forall|c: int| covers_before(sprite, x, y, c, j + 1, 0)
        == covers_before(sprite, x, y, c, j, 8) by {
        if covers_before(sprite, x, y, c, j + 1, 0) {
            let (j2, i2) = choose|j2: int, i2: int|
                0 <= j2 < sprite.len() && 0 <= i2 < 8
                && (j2 < j + 1 || (j2 == j + 1 && i2 < 0))
                && #[trigger] sprite_bit(sprite, j2, i2)
                && c == pixel_index((x + i2) % 64, (y + j2) % 32);
            assert(j2 < j || (j2 == j && i2 < 8));
            assert(covers_before(sprite, x, y, c, j, 8));
        }
        if covers_before(sprite, x, y, c, j, 8) {
            let (j2, i2) = choose|j2: int, i2: int|
                0 <= j2 < sprite.len() && 0 <= i2 < 8
                && (j2 < j || (j2 == j && i2 < 8))
                && #[trigger] sprite_bit(sprite, j2, i2)
                && c == pixel_index((x + i2) % 64, (y + j2) % 32);
            assert(covers_before(sprite, x, y, c, j + 1, 0));
        }
    }
}

} // verus!
