//! Grid geometry: icon cells, desktop grid positions, horizontal snapping
//! and the size of an organize box.
//!
//! Every function computes in `i32` like the screen coordinates it serves;
//! each `requires` states exactly that the intermediate values stay inside
//! `i32` (outside that range the arithmetic would overflow) and that no
//! division by zero happens.
use vstd::prelude::*;

verus! {

/// Left margin of the desktop icon area.
pub const DESKTOP_MARGIN_X: i32 = 20;

/// Top margin of the desktop icon area.
pub const DESKTOP_MARGIN_Y: i32 = 16;

/// Height of the label row under an icon.
pub const ICON_ROW_H: i32 = 30;

/// Horizontal gap between organize boxes.
pub const BOX_GAP_X: i32 = 16;

/// Vertical gap between rows of organize boxes.
pub const BOX_GAP_Y: i32 = 20;

/// `x` is a value of `i32`.
pub open spec fn fits(x: int) -> bool {
    i32::MIN <= x <= i32::MAX
}

/// The larger of two integers.
pub open spec fn max_int(a: int, b: int) -> int {
    if a >= b {
        a
    } else {
        b
    }
}

/// The smaller of two integers.
pub open spec fn min_int(a: int, b: int) -> int {
    if a <= b {
        a
    } else {
        b
    }
}

/// Division rounding toward zero, as Rust's `/` on signed integers.
pub open spec fn trunc_div(a: int, b: int) -> int {
    if (a >= 0) == (b >= 0) {
        abs_int(a) / abs_int(b)
    } else {
        -(abs_int(a) / abs_int(b))
    }
}

/// Absolute value.
pub open spec fn abs_int(a: int) -> int {
    if a >= 0 {
        a
    } else {
        -a
    }
}

/// Side of an icon's drawing: the icon plus its padding.
pub open spec fn icon_total_of(icon_size: int) -> int {
    icon_size + 16
}

/// One grid cell: icon side plus the gap.
pub open spec fn cell_of(icon_size: int, gap: int) -> int {
    icon_total_of(icon_size) + gap
}

/// Height of one grid row: icon side plus its label row.
pub open spec fn row_height_of(icon_size: int) -> int {
    icon_total_of(icon_size) + ICON_ROW_H
}

/// Icons per row in a width, never below one.
pub open spec fn max_per_row_of(avail_w: int, icon_size: int, gap: int) -> int {
    max_int(trunc_div(avail_w, cell_of(icon_size, gap)), 1)
}

/// `x / c` rounded to the nearest integer, halves away from zero
/// (as `f64::round`), for `c != 0`.
pub open spec fn round_div(x: int, c: int) -> int
    decreases (if c < 0 { 1int } else { 0int }),
{
    if c > 0 {
        let q = x / c;
        let r = x % c;
        if 2 * r > c || (2 * r == c && x >= 0) {
            q + 1
        } else {
            q
        }
    } else if c < 0 {
        round_div(-x, -c)
    } else {
        0
    }
}

/// The grid line nearest to `x` for cell `c` (zero for an empty cell).
pub open spec fn nearest_line(x: int, c: int) -> int {
    c * round_div(x, c)
}

/// Requirements of `snap_x` that keep its arithmetic inside `i32`.
pub open spec fn snap_fits(x: int, icon_size: int, gap: int, snap: int) -> bool {
    let c = cell_of(icon_size, gap);
    &&& fits(icon_total_of(icon_size))
    &&& fits(c)
    &&& fits(round_div(x, c))
    &&& fits(nearest_line(x, c))
    &&& i32::MIN < nearest_line(x, c) - x <= i32::MAX
    &&& fits(snap + trunc_div(gap, 2))
}

/// The x coordinate of the nearest grid line when it lies closer than
/// `snap + gap / 2`, else nothing.
pub open spec fn snap_x_of(x: int, icon_size: int, gap: int, snap: int) -> Option<int> {
    let nx = nearest_line(x, cell_of(icon_size, gap));
    if abs_int(nx - x) < snap + trunc_div(gap, 2) {
        Some(nx)
    } else {
        None
    }
}

/// Number of icon rows of a box holding `count` icons (one row when empty).
pub open spec fn box_rows_of(count: int, max_per_row: int) -> int {
    let m = max_int(max_per_row, 1);
    if count == 0 {
        1
    } else {
        max_int((count + m - 1) / m, 1)
    }
}

/// Number of icon columns of a box holding `count` icons (at least one).
pub open spec fn box_cols_of(count: int, max_per_row: int) -> int {
    max_int(min_int(count, max_int(max_per_row, 1)), 1)
}

/// Width of a box: its columns of cells plus padding on both sides.
pub open spec fn box_width_of(count: int, max_per_row: int, icon_size: int, gap: int, padding: int) -> int {
    box_cols_of(count, max_per_row) * cell_of(icon_size, gap) + padding * 2
}

/// Height of a box: title bar, padding, its icon rows and a border line.
pub open spec fn box_height_of(
    count: int,
    max_per_row: int,
    icon_size: int,
    title_h: int,
    padding: int,
) -> int {
    title_h + padding * 2 + box_rows_of(count, max_per_row) * row_height_of(icon_size) + 4
}

/// Side of an icon's drawing: the icon plus its padding.
pub fn icon_total(icon_size: i32) -> (r: i32)
    requires
        fits(icon_total_of(icon_size as int)),
    ensures
        r == icon_total_of(icon_size as int),
{
    icon_size + 16
}

/// One grid cell: icon side plus gap.
pub fn cell(icon_size: i32, gap: i32) -> (r: i32)
    requires
        fits(icon_total_of(icon_size as int)),
        fits(cell_of(icon_size as int, gap as int)),
    ensures
        r == cell_of(icon_size as int, gap as int),
{
    icon_total(icon_size) + gap
}

/// Division rounding toward zero.
pub fn div_trunc(a: i32, b: i32) -> (r: i32)
    requires
        b != 0,
        fits(trunc_div(a as int, b as int)),
    ensures
        r == trunc_div(a as int, b as int),
{
    let ua: i64 = if a >= 0 { a as i64 } else { -(a as i64) };
    let ub: i64 = if b >= 0 { b as i64 } else { -(b as i64) };
    let q: i64 = ua / ub;
    if (a >= 0) == (b >= 0) {
        q as i32
    } else {
        (-q) as i32
    }
}

/// Icons that fit in a row of width `avail_w`, never below one.
pub fn max_per_row(avail_w: i32, icon_size: i32, gap: i32) -> (r: i32)
    requires
        fits(icon_total_of(icon_size as int)),
        fits(cell_of(icon_size as int, gap as int)),
        cell_of(icon_size as int, gap as int) != 0,
        fits(trunc_div(avail_w as int, cell_of(icon_size as int, gap as int))),
    ensures
        r == max_per_row_of(avail_w as int, icon_size as int, gap as int),
        r >= 1,
{
    let q = div_trunc(avail_w, cell(icon_size, gap));
    if q >= 1 {
        q
    } else {
        1
    }
}

/// Desktop grid position of column `col`, row `row`.
pub fn desktop_pos(col: i32, row: i32, icon_size: i32, gap: i32) -> (r: (i32, i32))
    requires
        fits(icon_total_of(icon_size as int)),
        fits(cell_of(icon_size as int, gap as int)),
        fits(row_height_of(icon_size as int)),
        fits(col * cell_of(icon_size as int, gap as int)),
        fits(DESKTOP_MARGIN_X + col * cell_of(icon_size as int, gap as int)),
        fits(row * row_height_of(icon_size as int)),
        fits(DESKTOP_MARGIN_Y + row * row_height_of(icon_size as int)),
    ensures
        r.0 == DESKTOP_MARGIN_X + col * cell_of(icon_size as int, gap as int),
        r.1 == DESKTOP_MARGIN_Y + row * row_height_of(icon_size as int),
{
    let c = cell(icon_size, gap);
    let rh = icon_total(icon_size) + ICON_ROW_H;
    (DESKTOP_MARGIN_X + col * c, DESKTOP_MARGIN_Y + row * rh)
}

/// Euclidean division of `a` by a positive `b`: quotient and remainder.
pub fn div_rem_euclid(a: i64, b: i64) -> (r: (i64, i64))
    requires
        b > 0,
        a > i64::MIN,
    ensures
        r.0 == a / b,
        r.1 == a % b,
{
    if a >= 0 {
        (a / b, a % b)
    } else {
        let na: i64 = -a;
        let q0: i64 = na / b;
        let r0: i64 = na % b;
        proof {
            vstd::arithmetic::div_mod::lemma_fundamental_div_mod(na as int, b as int);
        }
        if r0 == 0 {
            proof {
                assert(a == b * (-q0) + 0) by (nonlinear_arith)
                    requires
                        na == b * q0 + r0,
                        r0 == 0,
                        a == -na,
                ;
                vstd::arithmetic::div_mod::lemma_fundamental_div_mod_converse(
                    a as int,
                    b as int,
                    -q0 as int,
                    0,
                );
            }
            (-q0, 0)
        } else {
            proof {
                assert(a == b * (-q0 - 1) + (b - r0)) by (nonlinear_arith)
                    requires
                        na == b * q0 + r0,
                        a == -na,
                ;
                vstd::arithmetic::div_mod::lemma_fundamental_div_mod_converse(
                    a as int,
                    b as int,
                    -q0 - 1,
                    b - r0,
                );
            }
            (-q0 - 1, b - r0)
        }
    }
}

/// `x` rounded to the nearest multiple of `c`, halves away from zero.
fn nearest_grid_line(x: i32, c: i32) -> (r: i64)
    ensures
        r == nearest_line(x as int, c as int),
        c != 0 ==> r == c * round_div(x as int, c as int),
{
    if c == 0 {
        return 0;
    }
    let (xx, cc): (i64, i64) = if c > 0 {
        (x as i64, c as i64)
    } else {
        (-(x as i64), -(c as i64))
    };
    assert(round_div(x as int, c as int) == round_div(xx as int, cc as int));
    let (q, r) = div_rem_euclid(xx, cc);
    proof {
        vstd::arithmetic::div_mod::lemma_fundamental_div_mod(xx as int, cc as int);
        assert(-0x8000_0000 <= q <= 0x8000_0000) by (nonlinear_arith)
            requires
                xx == cc * q + r,
                0 <= r < cc,
                -0x8000_0000 <= xx <= 0x8000_0000,
                1 <= cc <= 0x8000_0000,
        ;
    }
    let k: i64 = if 2 * r > cc || (2 * r == cc && xx >= 0) {
        q + 1
    } else {
        q
    };
    assert(k == round_div(xx as int, cc as int));
    proof {
        vstd::arithmetic::div_mod::lemma_fundamental_div_mod(xx as int, cc as int);
        assert(-0x8000_0000 <= k <= 0x8000_0001) by (nonlinear_arith)
            requires
                xx == cc * q + r,
                0 <= r < cc,
                k == q || k == q + 1,
                -0x8000_0000 <= xx <= 0x8000_0000,
                1 <= cc <= 0x8000_0000,
        ;
        assert(-0x8000_0000 * 0x8000_0001 <= (c as int) * k <= 0x8000_0000 * 0x8000_0001)
            by (nonlinear_arith)
            requires
                -0x8000_0000 <= k <= 0x8000_0001,
                -0x8000_0000 <= c <= 0x7fff_ffff,
        ;
    }
    (c as i64) * k
}

/// Horizontal snapping: the nearest grid line when it lies closer than
/// `snap + gap / 2`, else nothing.
pub fn snap_x(x: i32, icon_size: i32, gap: i32, snap: i32) -> (r: Option<i32>)
    requires
        snap_fits(x as int, icon_size as int, gap as int, snap as int),
    ensures
        match r {
            Some(v) => snap_x_of(x as int, icon_size as int, gap as int, snap as int) == Some(
                v as int,
            ),
            None => snap_x_of(x as int, icon_size as int, gap as int, snap as int) is None,
        },
{
    let c = cell(icon_size, gap);
    let nx = nearest_grid_line(x, c) as i32;
    let d = nx - x;
    let ad = if d >= 0 {
        d
    } else {
        -d
    };
    if ad < snap + gap / 2 {
        Some(nx)
    } else {
        None
    }
}

/// Position inside a box of the icon at `index` (row-major grid).
pub fn box_icon_pos(index: i32, max_per_row: i32, icon_size: i32, gap: i32, padding: i32) -> (r: (
    i32,
    i32,
))
    requires
        fits(icon_total_of(icon_size as int)),
        fits(cell_of(icon_size as int, gap as int)),
        fits(row_height_of(icon_size as int)),
        fits(((index as int) % max_int(max_per_row as int, 1)) * cell_of(icon_size as int, gap as int)),
        fits(padding + ((index as int) % max_int(max_per_row as int, 1)) * cell_of(
            icon_size as int,
            gap as int,
        )),
        fits(((index as int) / max_int(max_per_row as int, 1)) * row_height_of(icon_size as int)),
        fits(padding + ((index as int) / max_int(max_per_row as int, 1)) * row_height_of(
            icon_size as int,
        )),
    ensures
        r.0 == padding + ((index as int) % max_int(max_per_row as int, 1)) * cell_of(
            icon_size as int,
            gap as int,
        ),
        r.1 == padding + ((index as int) / max_int(max_per_row as int, 1)) * row_height_of(
            icon_size as int,
        ),
{
    let c = cell(icon_size, gap);
    let mpr: i32 = if max_per_row >= 1 {
        max_per_row
    } else {
        1
    };
    let (row, col) = div_rem_euclid(index as i64, mpr as i64);
    proof {
        vstd::arithmetic::div_mod::lemma_fundamental_div_mod(index as int, mpr as int);
        assert(-0x8000_0000 <= row <= 0x7fff_ffff) by (nonlinear_arith)
            requires
                index == mpr * row + col,
                0 <= col < mpr,
                mpr >= 1,
                -0x8000_0000 <= index <= 0x7fff_ffff,
        ;
    }
    let rh = icon_total(icon_size) + ICON_ROW_H;
    (padding + (col as i32) * c, padding + (row as i32) * rh)
}

/// Number of icon rows of a box holding `count` icons (one row when empty).
pub fn box_rows(count: usize, max_per_row: i32) -> (r: usize)
    requires
        count + max_int(max_per_row as int, 1) - 1 <= i32::MAX,
    ensures
        r == box_rows_of(count as int, max_per_row as int),
        r >= 1,
{
    let mpr: i32 = if max_per_row >= 1 {
        max_per_row
    } else {
        1
    };
    if count == 0 {
        return 1;
    }
    let n = count as i32;
    assert(n == count);
    let q = (n + (mpr - 1)) / mpr;
    if q >= 1 {
        q as usize
    } else {
        1
    }
}

/// Width of a box: its columns of cells plus padding on both sides.
pub fn box_width(count: usize, max_per_row: i32, icon_size: i32, gap: i32, padding: i32) -> (r: i32)
    requires
        count <= i32::MAX,
        fits(icon_total_of(icon_size as int)),
        fits(cell_of(icon_size as int, gap as int)),
        fits(box_cols_of(count as int, max_per_row as int) * cell_of(icon_size as int, gap as int)),
        fits(padding * 2),
        fits(box_width_of(count as int, max_per_row as int, icon_size as int, gap as int, padding as int)),
    ensures
        r == box_width_of(count as int, max_per_row as int, icon_size as int, gap as int, padding as int),
{
    let mpr: i32 = if max_per_row >= 1 {
        max_per_row
    } else {
        1
    };
    let n = count as i32;
    let m = if n <= mpr {
        n
    } else {
        mpr
    };
    let cols = if m >= 1 {
        m
    } else {
        1
    };
    cols * cell(icon_size, gap) + padding * 2
}

/// Height of a box: title bar, padding, its icon rows and a border line.
pub fn box_height(count: usize, max_per_row: i32, icon_size: i32, title_h: i32, padding: i32) -> (r: i32)
    requires
        count + max_int(max_per_row as int, 1) - 1 <= i32::MAX,
        fits(icon_total_of(icon_size as int)),
        fits(row_height_of(icon_size as int)),
        fits(padding * 2),
        fits(title_h + padding * 2),
        fits(box_rows_of(count as int, max_per_row as int) * row_height_of(icon_size as int)),
        fits(title_h + padding * 2 + box_rows_of(count as int, max_per_row as int) * row_height_of(icon_size as int)),
        fits(box_height_of(count as int, max_per_row as int, icon_size as int, title_h as int, padding as int)),
    ensures
        r == box_height_of(count as int, max_per_row as int, icon_size as int, title_h as int, padding as int),
{
    let rows = box_rows(count, max_per_row) as i32;
    title_h + padding * 2 + rows * (icon_total(icon_size) + ICON_ROW_H) + 4
}

/// Whether the point lies in the rectangle, edges included.
pub fn point_in_rect(px: i32, py: i32, rx: i32, ry: i32, rw: i32, rh: i32) -> (r: bool)
    requires
        fits(rx + rw),
        fits(ry + rh),
    ensures
        r == (px >= rx && px <= rx + rw && py >= ry && py <= ry + rh),
{
    px >= rx && px <= rx + rw && py >= ry && py <= ry + rh
}

/// Law: a box has room for all its icons and no empty row: with `count`
/// icons and `m = max(max_per_row, 1)` per row, `(rows - 1) * m < count <=
/// rows * m` (one row when empty).
pub proof fn lemma_box_rows_capacity(count: int, max_per_row: int)
    requires
        count >= 1,
    ensures
        ({
            let m = max_int(max_per_row, 1);
            let rows = box_rows_of(count, max_per_row);
            (rows - 1) * m < count && count <= rows * m
        }),
{
    let m = max_int(max_per_row, 1);
    let q = (count + m - 1) / m;
    vstd::arithmetic::div_mod::lemma_fundamental_div_mod(count + m - 1, m);
    let r = (count + m - 1) % m;
    assert(q >= 1) by (nonlinear_arith)
        requires
            count + m - 1 == m * q + r,
            0 <= r < m,
            count >= 1,
            m >= 1,
    ;
    assert((q - 1) * m < count && count <= q * m) by (nonlinear_arith)
        requires
            count + m - 1 == m * q + r,
            0 <= r < m,
    ;
}

/// Law: two different icons of a box never share a position (for positive
/// cells and row heights).
pub proof fn lemma_box_icon_positions_distinct(i: int, j: int, max_per_row: int, icon_size: int, gap: int, padding: int)
    requires
        0 <= i < j,
        cell_of(icon_size, gap) > 0,
        row_height_of(icon_size) > 0,
    ensures
        ({
            let m = max_int(max_per_row, 1);
            (padding + (i % m) * cell_of(icon_size, gap), padding + (i / m) * row_height_of(icon_size)) != (
            padding + (j % m) * cell_of(icon_size, gap), padding + (j / m) * row_height_of(icon_size))
        }),
{
    let m = max_int(max_per_row, 1);
    let c = cell_of(icon_size, gap);
    let h = row_height_of(icon_size);
    vstd::arithmetic::div_mod::lemma_fundamental_div_mod(i, m);
    vstd::arithmetic::div_mod::lemma_fundamental_div_mod(j, m);
    if (i % m) * c == (j % m) * c && (i / m) * h == (j / m) * h {
        assert(i % m == j % m) by (nonlinear_arith)
            requires
                (i % m) * c == (j % m) * c,
                c > 0,
        ;
        assert(i / m == j / m) by (nonlinear_arith)
            requires
                (i / m) * h == (j / m) * h,
                h > 0,
        ;
        assert(i == j) by (nonlinear_arith)
            requires
                i == m * (i / m) + i % m,
                j == m * (j / m) + j % m,
                i % m == j % m,
                i / m == j / m,
        ;
    }
}

/// Law: a grid line snaps to itself, and a snapped coordinate always lies
/// on a grid line (for a positive cell and a positive snap distance).
pub proof fn lemma_snap_grid(k: int, x: int, icon_size: int, gap: int, snap: int)
    requires
        cell_of(icon_size, gap) > 0,
        snap + trunc_div(gap, 2) > 0,
    ensures
        snap_x_of(k * cell_of(icon_size, gap), icon_size, gap, snap) == Some(k * cell_of(icon_size, gap)),
        match snap_x_of(x, icon_size, gap, snap) {
            Some(nx) => nx == cell_of(icon_size, gap) * round_div(x, cell_of(icon_size, gap)),
            None => true,
        },
{
    let c = cell_of(icon_size, gap);
    let x0 = k * c;
    assert(x0 / c == k && x0 % c == 0) by {
        vstd::arithmetic::div_mod::lemma_div_multiples_vanish(k, c);
        vstd::arithmetic::div_mod::lemma_mod_multiples_basic(k, c);
        assert(c * k == k * c) by (nonlinear_arith);
    }
    assert(round_div(x0, c) == k);
    assert(nearest_line(x0, c) == c * k);
    assert(c * k == k * c) by (nonlinear_arith);
}

/// Law: snapping goes to the nearest grid line. For a positive cell, the
/// grid line `nearest_line` picks is a multiple of the cell and no grid line
/// `k * cell` lies closer to `x`; snapping gives nothing exactly when that
/// nearest line is not closer than `snap + gap / 2`, so whenever some grid
/// line is that close, snapping moves to the nearest one.
pub proof fn lemma_snap_nearest(x: int, k: int, icon_size: int, gap: int, snap: int)
    requires
        cell_of(icon_size, gap) > 0,
    ensures
        ({
            let c = cell_of(icon_size, gap);
            let t = snap + trunc_div(gap, 2);
            let nx = nearest_line(x, c);
            &&& nx % c == 0
            &&& abs_int(nx - x) <= abs_int(k * c - x)
            &&& (snap_x_of(x, icon_size, gap, snap) is None <==> abs_int(nx - x) >= t)
            &&& abs_int(k * c - x) < t ==> snap_x_of(x, icon_size, gap, snap) == Some(nx)
        }),
{
    let c = cell_of(icon_size, gap);
    let q = x / c;
    let r = x % c;
    vstd::arithmetic::div_mod::lemma_fundamental_div_mod(x, c);
    assert(0 <= r < c);
    let m = round_div(x, c);
    assert(m == q || m == q + 1);
    assert(c * (q + 1) == c * q + c) by (nonlinear_arith);
    if m == q {
        assert(2 * r <= c);
        assert(nearest_line(x, c) - x == -r);
    } else {
        assert(2 * r >= c);
        assert(nearest_line(x, c) - x == c - r);
    }
    if k <= q {
        assert((k - q) * c <= 0) by (nonlinear_arith)
            requires
                k <= q,
                c > 0,
        ;
        assert(k * c - x == (k - q) * c - r) by (nonlinear_arith)
            requires
                x == c * q + r,
        ;
    } else {
        assert((k - q) * c >= c) by (nonlinear_arith)
            requires
                k >= q + 1,
                c > 0,
        ;
        assert(k * c - x == (k - q) * c - r) by (nonlinear_arith)
            requires
                x == c * q + r,
        ;
    }
    vstd::arithmetic::div_mod::lemma_mod_multiples_basic(m, c);
    assert(m * c == c * m) by (nonlinear_arith);
}

/// Law: every icon position of a box lies inside the box. With `count`
/// icons, the `index`-th icon's cell (icon and gap) stays within the box's
/// width less its padding, and its row (icon, label and padding below)
/// stays within the box's height under the title bar.
pub proof fn lemma_box_icon_inside(
    index: int,
    count: int,
    max_per_row: int,
    icon_size: int,
    gap: int,
    title_h: int,
    padding: int,
)
    requires
        0 <= index < count,
        cell_of(icon_size, gap) >= 0,
        icon_size + 46 >= 0,
    ensures
        ({
            let m = max_int(max_per_row, 1);
            let x = padding + (index % m) * cell_of(icon_size, gap);
            let y = padding + (index / m) * row_height_of(icon_size);
            &&& padding <= x
            &&& x + cell_of(icon_size, gap) + padding <= box_width_of(count, max_per_row, icon_size, gap, padding)
            &&& padding <= y
            &&& y + row_height_of(icon_size) + padding + title_h + 4 <= box_height_of(
                count,
                max_per_row,
                icon_size,
                title_h,
                padding,
            )
        }),
{
    let m = max_int(max_per_row, 1);
    let c = cell_of(icon_size, gap);
    let rh = row_height_of(icon_size);
    let col = index % m;
    let row = index / m;
    vstd::arithmetic::div_mod::lemma_fundamental_div_mod(index, m);
    assert(0 <= col < m);
    assert(row >= 0) by (nonlinear_arith)
        requires
            index >= 0,
            m >= 1,
            row == index / m,
    ;
    assert(col <= index) by (nonlinear_arith)
        requires
            index == m * row + col,
            row >= 0,
            m >= 1,
            col >= 0,
    ;
    let cols = box_cols_of(count, max_per_row);
    assert(col + 1 <= cols);
    assert((col + 1) * c == col * c + c) by (nonlinear_arith);
    assert(col * c >= 0 && (col + 1) * c <= cols * c) by (nonlinear_arith)
        requires
            0 <= col,
            col + 1 <= cols,
            c >= 0,
    ;
    let rows = box_rows_of(count, max_per_row);
    let q = (count + m - 1) / m;
    vstd::arithmetic::div_mod::lemma_fundamental_div_mod(count + m - 1, m);
    assert(row + 1 <= q) by (nonlinear_arith)
        requires
            index == m * row + col,
            0 <= col < m,
            index < count,
            count + m - 1 == m * q + (count + m - 1) % m,
            0 <= (count + m - 1) % m < m,
            m >= 1,
    ;
    assert(rows == q);
    assert((row + 1) * rh == row * rh + rh) by (nonlinear_arith);
    assert(row * rh >= 0 && (row + 1) * rh <= rows * rh) by (nonlinear_arith)
        requires
            0 <= row,
            row + 1 <= rows,
            rh >= 0,
    ;
}

} // verus!
