//! Where the vertices of a map lie in a window: the columns are spread
//! evenly over its width and the rows over its height, each vertex in the
//! middle of its cell.
//!
//! Positions are exact fractions of a pixel, given as a numerator and a
//! positive denominator.

use crate::aco::{fits_in_memory, ACOMap};
use crate::grid::{in_grid, VerticeLoc};
use vstd::prelude::*;

verus! {

/// A position in a window: `x_num / x_den` pixels from the left edge and
/// `y_num / y_den` pixels from the top edge.
#[derive(Clone, Copy, PartialEq, Eq, Debug)]
pub struct ScreenPoint {
    pub x_num: u128,
    pub x_den: u128,
    pub y_num: u128,
    pub y_den: u128,
}

/// The size of a marker: `num / den` pixels.
#[derive(Clone, Copy, PartialEq, Eq, Debug)]
pub struct ScreenLength {
    pub num: u128,
    pub den: u128,
}

/// The numerator of the horizontal position of `v` over the denominator
/// `2 * width`: the columns lie `window.0 / width` pixels apart, the first
/// of them half of that from the left edge.
pub open spec fn screen_x_num(window: (usize, usize), v: VerticeLoc) -> int {
    window.0 * (2 * v.0 + 1)
}

/// The numerator of the vertical position of `v` over the denominator
/// `2 * height`: the rows lie `window.1 / height` pixels apart, the first
/// of them half of that from the top edge.
pub open spec fn screen_y_num(window: (usize, usize), v: VerticeLoc) -> int {
    window.1 * (2 * v.1 + 1)
}

/// The position of `v` in a window of `window.0` by `window.1` pixels.
pub open spec fn screen_point(width: usize, height: usize, window: (usize, usize), v: VerticeLoc) -> ScreenPoint {
    ScreenPoint {
        x_num: screen_x_num(window, v) as u128,
        x_den: (2 * width) as u128,
        y_num: screen_y_num(window, v) as u128,
        y_den: (2 * height) as u128,
    }
}

/// The radius of the marker of a vertex: a twentieth of the distance
/// between two columns or two rows, whichever is less.
pub open spec fn marker_radius(width: usize, height: usize, window: (usize, usize)) -> ScreenLength {
    let across = window.0 * height;
    let down = window.1 * width;
    ScreenLength {
        num: (if across < down {
            across
        } else {
            down
        }) as u128,
        den: (20 * (width * height)) as u128,
    }
}

/// A grid whose tables fit in memory has fewer than 2^31 vertices.
pub proof fn lemma_grid_size(width: usize, height: usize)
    requires
        fits_in_memory(width, height),
    ensures
        width * height < 0x8000_0000,
        height > 0 ==> width < 0x8000_0000,
        width > 0 ==> height < 0x8000_0000,
{
    let n = width * height;
    assert(n < 0x8000_0000) by (nonlinear_arith)
        requires
            4 * (n * n) <= 0x7fff_ffff_ffff_ffff,
            n >= 0,
    ;
    assert(height > 0 ==> width <= width * height) by (nonlinear_arith);
    assert(width > 0 ==> height <= width * height) by (nonlinear_arith);
}

/// The numerators of a position on the grid fit in 128 bits.
pub proof fn lemma_screen_fits(width: usize, height: usize, window: (usize, usize), v: VerticeLoc)
    requires
        fits_in_memory(width, height),
        in_grid(width, height, v),
    ensures
        0 <= screen_x_num(window, v) < 0x1_0000_0000_0000_0000_0000_0000,
        0 <= screen_y_num(window, v) < 0x1_0000_0000_0000_0000_0000_0000,
{
    lemma_grid_size(width, height);
    let w = window.0 as int;
    let h = window.1 as int;
    let vx = v.0 as int;
    let vy = v.1 as int;
    assert(0 <= w * (2 * vx + 1) < 0x1_0000_0000_0000_0000_0000_0000) by (nonlinear_arith)
        requires
            0 <= w < 0x1_0000_0000_0000_0000,
            0 <= vx < 0x8000_0000,
    ;
    assert(0 <= h * (2 * vy + 1) < 0x1_0000_0000_0000_0000_0000_0000) by (nonlinear_arith)
        requires
            0 <= h < 0x1_0000_0000_0000_0000,
            0 <= vy < 0x8000_0000,
    ;
}

/// No two vertices of a grid share a position in a window that has some
/// width, where the grid has more than one column, and some height, where
/// it has more than one row: vertices of different columns differ in their
/// horizontal position, vertices of different rows in their vertical one.
pub proof fn lemma_screen_injective(
    width: usize,
    height: usize,
    window: (usize, usize),
    a: VerticeLoc,
    b: VerticeLoc,
)
    requires
        in_grid(width, height, a),
        in_grid(width, height, b),
        a != b,
        width >= 2 ==> window.0 > 0,
        height >= 2 ==> window.1 > 0,
    ensures
        a.0 != b.0 ==> screen_x_num(window, a) != screen_x_num(window, b),
        a.1 != b.1 ==> screen_y_num(window, a) != screen_y_num(window, b),
        fits_in_memory(width, height) ==> screen_point(width, height, window, a) != screen_point(
            width,
            height,
            window,
            b,
        ),
{
    if fits_in_memory(width, height) {
        lemma_screen_fits(width, height, window, a);
        lemma_screen_fits(width, height, window, b);
    }
    if a.0 != b.0 {
        let w = window.0 as int;
        let ka = 2 * a.0 + 1;
        let kb = 2 * b.0 + 1;
        assert(w * ka != w * kb) by (nonlinear_arith)
            requires
                w > 0,
                ka != kb,
        ;
    }
    if a.1 != b.1 {
        let h = window.1 as int;
        let ka = 2 * a.1 + 1;
        let kb = 2 * b.1 + 1;
        assert(h * ka != h * kb) by (nonlinear_arith)
            requires
                h > 0,
                ka != kb,
        ;
    }
}

/// Every vertex of the grid lies within the window, and strictly inside
/// it where the window has some width and some height.
pub proof fn lemma_screen_inside(width: usize, height: usize, window: (usize, usize), v: VerticeLoc)
    requires
        in_grid(width, height, v),
    ensures
        0 <= screen_x_num(window, v) <= window.0 * (2 * width),
        0 <= screen_y_num(window, v) <= window.1 * (2 * height),
        window.0 > 0 ==> 0 < screen_x_num(window, v) < window.0 * (2 * width),
        window.1 > 0 ==> 0 < screen_y_num(window, v) < window.1 * (2 * height),
{
    let w = window.0 as int;
    let h = window.1 as int;
    let kx = 2 * v.0 + 1;
    let ky = 2 * v.1 + 1;
    let cx = 2 * width;
    let cy = 2 * height;
    assert(0 <= w * kx <= w * cx && (w > 0 ==> 0 < w * kx < w * cx)) by (nonlinear_arith)
        requires
            0 <= w,
            0 < kx < cx,
    ;
    assert(0 <= h * ky <= h * cy && (h > 0 ==> 0 < h * ky < h * cy)) by (nonlinear_arith)
        requires
            0 <= h,
            0 < ky < cy,
    ;
}

/// The columns and the rows are spread evenly: from one column to the
/// next the horizontal position grows by `window.0 / width`, from one row
/// to the next the vertical position grows by `window.1 / height`, and
/// neither depends on the other coordinate.
pub proof fn lemma_screen_spacing(window: (usize, usize), v: VerticeLoc, next: VerticeLoc)
    ensures
        next.0 == v.0 + 1 ==> screen_x_num(window, next) - screen_x_num(window, v) == 2 * window.0,
        next.1 == v.1 + 1 ==> screen_y_num(window, next) - screen_y_num(window, v) == 2 * window.1,
        next.0 == v.0 ==> screen_x_num(window, next) == screen_x_num(window, v),
        next.1 == v.1 ==> screen_y_num(window, next) == screen_y_num(window, v),
{
    let w = window.0 as int;
    let h = window.1 as int;
    let kx = 2 * v.0 + 1;
    let ky = 2 * v.1 + 1;
    assert(w * (kx + 2) - w * kx == 2 * w) by (nonlinear_arith);
    assert(h * (ky + 2) - h * ky == 2 * h) by (nonlinear_arith);
}

impl ACOMap {
    /// The position of `vertice` in a window of `window_size.0` by
    /// `window_size.1` pixels.
    pub fn get_vertice_coordinates(&self, window_size: (usize, usize), vertice: VerticeLoc) -> (point:
        ScreenPoint)
        requires
            self.wf(),
            in_grid(self@.width, self@.height, vertice),
        ensures
            point == screen_point(self@.width, self@.height, window_size, vertice),
            point.x_num == window_size.0 * (2 * vertice.0 + 1),
            point.x_den == 2 * self@.width,
            point.y_num == window_size.1 * (2 * vertice.1 + 1),
            point.y_den == 2 * self@.height,
    {
        let width: usize = self.width();
        let height: usize = self.height();
        proof {
            lemma_grid_size(width, height);
            lemma_screen_fits(width, height, window_size, vertice);
        }
        let twice_x: u128 = 2 * vertice.0 as u128 + 1;
        let twice_y: u128 = 2 * vertice.1 as u128 + 1;
        ScreenPoint {
            x_num: window_size.0 as u128 * twice_x,
            x_den: 2 * width as u128,
            y_num: window_size.1 as u128 * twice_y,
            y_den: 2 * height as u128,
        }
    }

    /// The radius of the marker of a vertex in a window of `window_size.0`
    /// by `window_size.1` pixels.
    pub fn get_marker_radius(&self, window_size: (usize, usize)) -> (radius: ScreenLength)
        requires
            self.wf(),
        ensures
            radius == marker_radius(self@.width, self@.height, window_size),
            radius.den == 20 * (self@.width * self@.height),
            radius.num == (if window_size.0 * self@.height < window_size.1 * self@.width {
                window_size.0 * self@.height
            } else {
                window_size.1 * self@.width
            }),
    {
        let width: usize = self.width();
        let height: usize = self.height();
        proof {
            lemma_grid_size(width, height);
        }
        assert(0 <= window_size.0 * height < 0x8000_0000_0000_0000_0000_0000) by (nonlinear_arith)
            requires
                0 <= window_size.0 < 0x1_0000_0000_0000_0000,
                0 < height < 0x8000_0000,
        ;
        assert(0 <= window_size.1 * width < 0x8000_0000_0000_0000_0000_0000) by (nonlinear_arith)
            requires
                0 <= window_size.1 < 0x1_0000_0000_0000_0000,
                0 < width < 0x8000_0000,
        ;
        let across: u128 = window_size.0 as u128 * height as u128;
        let down: u128 = window_size.1 as u128 * width as u128;
        let cells: u128 = width as u128 * height as u128;
        ScreenLength {
            num: if across < down {
                across
            } else {
                down
            },
            den: 20 * cells,
        }
    }
}

} // verus!
