//! Grid geometry and labeling.
//!
//! A grid layout splits a rectangle into `rows x cols` cells in row-major
//! order. Cell boundaries are placed at `off + (k * len) / n`, so the cells
//! tile the rectangle exactly: no pixel is lost and no pixel is covered
//! twice. The main grid names each cell with a two-character label (the row
//! picks the first character, the column the second, from fixed alphabets);
//! the sub-grid names cells with single letters `A`..`Z`, truncating the
//! label list when there are more cells than letters.

use vstd::prelude::*;
use vstd::string::*;
use vstd::arithmetic::div_mod::{
    lemma_div_is_ordered, lemma_div_pos_is_pos, lemma_div_multiples_vanish,
    lemma_fundamental_div_mod, lemma_fundamental_div_mod_converse,
    lemma_mod_division_less_than_divisor,
};
use vstd::arithmetic::mul::{lemma_mul_inequality, lemma_mul_nonnegative, lemma_mul_upper_bound};
use crate::geom::{Point, Rect};

verus! {

/// Column count of the coarse full-screen grid.
pub const MAIN_GRID_COLS: usize = 12;
/// Row count of the coarse full-screen grid.
pub const MAIN_GRID_ROWS: usize = 12;
/// Column count of the refined grid inside a chosen main cell.
pub const SUB_GRID_COLS: usize = 5;
/// Row count of the refined grid inside a chosen main cell.
pub const SUB_GRID_ROWS: usize = 5;

/// Rows and columns the main-grid alphabets can name.
pub const MAIN_ALPHABET_LEN: usize = 12;
/// Cells the single-letter sub-grid alphabet can name.
pub const SUB_ALPHABET_LEN: usize = 26;

/// A rectangle edge must strictly exceed this many pixels before cell
/// rectangles are produced; below it the layout is "not yet available".
pub const DEGENERATE_EDGE: i32 = 1;

/// Which grid the overlay is currently showing.
#[derive(Debug, PartialEq, Eq, Clone, Copy, Structural)]
pub enum DisplayMode {
    MainGrid,
    SubGrid,
}

/// First character of a main-grid label, chosen by the cell's row.
pub open spec fn first_char_at(r: int) -> char {
    if r == 0 { 'A' } else if r == 1 { 'S' } else if r == 2 { 'D' } else if r == 3 { 'F' }
    else if r == 4 { 'G' } else if r == 5 { 'H' } else if r == 6 { 'J' } else if r == 7 { 'K' }
    else if r == 8 { 'L' } else if r == 9 { 'Q' } else if r == 10 { 'W' } else { 'E' }
}

/// Second character of a main-grid label, chosen by the cell's column.
pub open spec fn second_char_at(c: int) -> char {
    if c == 0 { 'H' } else if c == 1 { 'J' } else if c == 2 { 'K' } else if c == 3 { 'L' }
    else if c == 4 { 'Q' } else if c == 5 { 'W' } else if c == 6 { 'E' } else if c == 7 { 'R' }
    else if c == 8 { 'T' } else if c == 9 { 'Y' } else if c == 10 { 'A' } else { 'S' }
}

/// Single-letter sub-grid label character: `A` for cell 0 up to `Z` for cell 25.
pub open spec fn sub_char_at(i: int) -> char {
    ((65 + i) as u8) as char
}

/// The two-character label of main-grid cell `i` (row-major, `cols` columns).
pub open spec fn main_label_at(cols: int, i: int) -> Seq<char> {
    seq![first_char_at(i / cols), second_char_at(i % cols)]
}

/// The one-character label of sub-grid cell `i`.
pub open spec fn sub_label_at(i: int) -> Seq<char> {
    seq![sub_char_at(i)]
}

/// Boundary `k` when the range `[off, off + len)` is split into `n` parts.
pub open spec fn grid_step(off: int, len: int, n: int, k: int) -> int {
    off + (k * len) / n
}

/// The rectangle of cell `i` (row-major) when `rect` is split into
/// `rows x cols` cells.
pub open spec fn cell_rect_at(rect: Rect, cols: int, rows: int, i: int) -> Rect {
    let c = i % cols;
    let r = i / cols;
    Rect {
        x: grid_step(rect.x as int, rect.w as int, cols, c) as i32,
        y: grid_step(rect.y as int, rect.h as int, rows, r) as i32,
        w: (grid_step(rect.x as int, rect.w as int, cols, c + 1)
            - grid_step(rect.x as int, rect.w as int, cols, c)) as i32,
        h: (grid_step(rect.y as int, rect.h as int, rows, r + 1)
            - grid_step(rect.y as int, rect.h as int, rows, r)) as i32,
    }
}

/// The cell rectangles of a `rows x cols` split of `rect`: all of them when
/// both edges exceed the degenerate threshold, none otherwise.
pub open spec fn grid_rects_ok(rs: Seq<Rect>, rect: Rect, cols: int, rows: int) -> bool {
    if rect.w > DEGENERATE_EDGE && rect.h > DEGENERATE_EDGE {
        &&& rs.len() == rows * cols
        &&& forall|i: int| 0 <= i < rows * cols ==> rs[i] == cell_rect_at(rect, cols, rows, i)
    } else {
        rs.len() == 0
    }
}

/// The full main-grid label list for a `rows x cols` grid.
pub open spec fn main_labels_ok(ls: Seq<String>, cols: int, rows: int) -> bool {
    &&& ls.len() == rows * cols
    &&& forall|i: int| 0 <= i < rows * cols ==> (#[trigger] ls[i])@ == main_label_at(cols, i)
}

/// The sub-grid label list: one letter per cell, truncated to the alphabet.
pub open spec fn sub_labels_ok(ls: Seq<String>, cols: int, rows: int) -> bool {
    &&& ls.len() == if rows * cols < SUB_ALPHABET_LEN as int { rows * cols } else { SUB_ALPHABET_LEN as int }
    &&& forall|i: int| 0 <= i < ls.len() ==> (#[trigger] ls[i])@ == sub_label_at(i)
}

/// The views of a list of labels.
pub open spec fn label_views(ls: Seq<String>) -> Seq<Seq<char>> {
    ls.map_values(|s: String| s@)
}

/// The main-grid label list as one sequence value.
pub open spec fn main_labels_seq(cols: int, rows: int) -> Seq<Seq<char>> {
    Seq::new((rows * cols) as nat, |i: int| main_label_at(cols, i))
}

/// The sub-grid label list as one sequence value.
pub open spec fn sub_labels_seq(cols: int, rows: int) -> Seq<Seq<char>> {
    Seq::new(
        (if rows * cols < SUB_ALPHABET_LEN as int {
            rows * cols
        } else {
            SUB_ALPHABET_LEN as int
        }) as nat,
        |i: int| sub_label_at(i),
    )
}

/// The cell-rectangle list as one sequence value: the exact tiling when the
/// rectangle is not degenerate, empty otherwise.
pub open spec fn rects_seq(rect: Rect, cols: int, rows: int) -> Seq<Rect> {
    if rect.w > DEGENERATE_EDGE && rect.h > DEGENERATE_EDGE {
        Seq::new((rows * cols) as nat, |i: int| cell_rect_at(rect, cols, rows, i))
    } else {
        Seq::empty()
    }
}

/// A label list meeting the main-grid description is the main-grid label
/// sequence, viewed.
pub proof fn lemma_main_labels_views(ls: Seq<String>, cols: int, rows: int)
    requires
        main_labels_ok(ls, cols, rows),
    ensures
        label_views(ls) == main_labels_seq(cols, rows),
{
    assert(label_views(ls) =~~= main_labels_seq(cols, rows));
}

/// A label list meeting the sub-grid description is the sub-grid label
/// sequence, viewed.
pub proof fn lemma_sub_labels_views(ls: Seq<String>, cols: int, rows: int)
    requires
        sub_labels_ok(ls, cols, rows),
    ensures
        label_views(ls) == sub_labels_seq(cols, rows),
{
    assert(label_views(ls) =~~= sub_labels_seq(cols, rows));
}

/// A rectangle list meeting the grid description is the cell-rectangle
/// sequence.
pub proof fn lemma_rects_seq_of_ok(rs: Seq<Rect>, rect: Rect, cols: int, rows: int)
    requires
        grid_rects_ok(rs, rect, cols, rows),
    ensures
        rs == rects_seq(rect, cols, rows),
{
    assert(rs =~= rects_seq(rect, cols, rows));
}

/// Every cell of the tiling is well-formed and lies inside the split
/// rectangle.
pub proof fn lemma_rects_seq_within(rect: Rect, cols: int, rows: int)
    requires
        rect.wf(),
        0 <= cols,
        0 <= rows,
    ensures
        forall|i: int|
            0 <= i < rects_seq(rect, cols, rows).len() ==> (#[trigger] rects_seq(
                rect,
                cols,
                rows,
            )[i]).wf() && rects_seq(rect, cols, rows)[i].spec_within(rect),
{
    if rect.w > DEGENERATE_EDGE && rect.h > DEGENERATE_EDGE {
        assert forall|i: int|
            0 <= i < rects_seq(rect, cols, rows).len() implies (#[trigger] rects_seq(
            rect,
            cols,
            rows,
        )[i]).wf() && rects_seq(rect, cols, rows)[i].spec_within(rect) by {
            lemma_row_col_in_range(i, cols, rows);
            lemma_cell_rect_unfold(rect, cols, rows, i);
            lemma_grid_step_bounds(rect.x as int, rect.w as int, cols, i % cols);
            lemma_grid_step_bounds(rect.x as int, rect.w as int, cols, i % cols + 1);
            lemma_grid_step_bounds(rect.y as int, rect.h as int, rows, i / cols);
            lemma_grid_step_bounds(rect.y as int, rect.h as int, rows, i / cols + 1);
        }
    }
}

/// One-character slice of the row alphabet.
fn first_letter(r: usize) -> (s: &'static str)
    requires
        r < MAIN_ALPHABET_LEN,
    ensures
        s@ == seq![first_char_at(r as int)],
{
    let a = "ASDFGHJKLQWE";
    proof {
        reveal_strlit("ASDFGHJKLQWE");
        assert(a@.subrange(r as int, r as int + 1) =~= seq![first_char_at(r as int)]);
    }
    a.substring_char(r, r + 1)
}

/// One-character slice of the column alphabet.
fn second_letter(c: usize) -> (s: &'static str)
    requires
        c < MAIN_ALPHABET_LEN,
    ensures
        s@ == seq![second_char_at(c as int)],
{
    let a = "HJKLQWERTYAS";
    proof {
        reveal_strlit("HJKLQWERTYAS");
        assert(a@.subrange(c as int, c as int + 1) =~= seq![second_char_at(c as int)]);
    }
    a.substring_char(c, c + 1)
}

/// One-character slice of the sub-grid alphabet.
fn sub_letter(i: usize) -> (s: &'static str)
    requires
        i < SUB_ALPHABET_LEN,
    ensures
        s@ == seq![sub_char_at(i as int)],
{
    let a = "ABCDEFGHIJKLMNOPQRSTUVWXYZ";
    proof {
        reveal_strlit("ABCDEFGHIJKLMNOPQRSTUVWXYZ");
        assert(a@.subrange(i as int, i as int + 1) =~= seq![sub_char_at(i as int)]);
    }
    a.substring_char(i, i + 1)
}

/// Boundary `k` of an `n`-way split of `[off, off + len)`, computed without
/// overflow.
fn boundary(off: i32, len: i32, n: usize, k: usize) -> (b: i32)
    requires
        0 <= len,
        off + len <= i32::MAX,
        1 <= n <= 0x1000_0000,
        k <= n,
    ensures
        b as int == grid_step(off as int, len as int, n as int, k as int),
        off <= b <= off + len,
{
    proof {
        lemma_mul_upper_bound(k as int, 0x1000_0000, len as int, 0x7fff_ffff);
    }
    let q: i64 = (k as i64) * (len as i64) / (n as i64);
    proof {
        lemma_mul_nonnegative(k as int, len as int);
        lemma_div_pos_is_pos(k as int * len as int, n as int);
        lemma_mul_inequality(k as int, n as int, len as int);
        lemma_div_is_ordered(k as int * len as int, n as int * len as int, n as int);
        lemma_div_multiples_vanish(len as int, n as int);
    }
    off + (q as i32)
}

/// Lay out the coarse grid: `num_rows * num_cols` two-character labels, and
/// the cell rectangles of an exact `num_rows x num_cols` tiling of
/// `screen_rect` (empty when the rectangle is degenerate).
///
/// The alphabets bound the grid: past `MAIN_ALPHABET_LEN` rows or columns,
/// labels would collide, so such a request is excluded outright.
pub fn generate_main_grid_layout(num_cols: usize, num_rows: usize, screen_rect: Rect) -> (r: (
    Vec<String>,
    Vec<Rect>,
))
    requires
        num_cols <= MAIN_ALPHABET_LEN,
        num_rows <= MAIN_ALPHABET_LEN,
        screen_rect.wf(),
    ensures
        main_labels_ok(r.0@, num_cols as int, num_rows as int),
        grid_rects_ok(r.1@, screen_rect, num_cols as int, num_rows as int),
{
    proof {
        lemma_mul_upper_bound(num_rows as int, 12, num_cols as int, 12);
        lemma_mul_upper_bound(num_cols as int, 12, num_rows as int, 12);
    }
    let total = num_rows * num_cols;
    let mut labels: Vec<String> = Vec::new();
    let mut i: usize = 0;
    while i < total
        invariant
            total == num_rows * num_cols,
            num_cols <= MAIN_ALPHABET_LEN,
            num_rows <= MAIN_ALPHABET_LEN,
            i <= total,
            labels@.len() == i,
            forall|j: int| 0 <= j < i ==> (#[trigger] labels@[j])@ == main_label_at(
                num_cols as int,
                j,
            ),
        decreases total - i,
    {
        let row = i / num_cols;
        let col = i % num_cols;
        proof {
            lemma_row_col_in_range(i as int, num_cols as int, num_rows as int);
        }
        let s1 = first_letter(row);
        let s2 = second_letter(col);
        let lab = String::from_str(s1).concat(s2);
        proof {
            assert(lab@ =~= main_label_at(num_cols as int, i as int));
        }
        labels.push(lab);
        i = i + 1;
    }
    proof {
        lemma_mul_upper_bound(num_cols as int, 12, num_rows as int, 12);
    }
    let rects = generate_grid_rects(screen_rect, num_cols, num_rows);
    (labels, rects)
}

/// Lay out the refined grid inside a chosen main cell: single-letter labels
/// (truncated to the alphabet when there are more cells than letters — a
/// documented lossy case, not an error) and the exact cell tiling of
/// `main_cell_rect` (empty when the rectangle is degenerate).
pub fn generate_sub_grid_layout(main_cell_rect: Rect, num_cols: usize, num_rows: usize) -> (r: (
    Vec<String>,
    Vec<Rect>,
))
    requires
        main_cell_rect.wf(),
        num_cols * num_rows <= 0x1000_0000,
    ensures
        sub_labels_ok(r.0@, num_cols as int, num_rows as int),
        grid_rects_ok(r.1@, main_cell_rect, num_cols as int, num_rows as int),
{
    let total = num_cols * num_rows;
    proof {
        assert(num_cols as int * num_rows as int == num_rows as int * num_cols as int) by (nonlinear_arith);
    }
    let lim = if total < SUB_ALPHABET_LEN { total } else { SUB_ALPHABET_LEN };
    let mut labels: Vec<String> = Vec::new();
    let mut i: usize = 0;
    while i < lim
        invariant
            lim <= SUB_ALPHABET_LEN,
            i <= lim,
            labels@.len() == i,
            forall|j: int| 0 <= j < i ==> (#[trigger] labels@[j])@ == sub_label_at(j),
        decreases lim - i,
    {
        let s = sub_letter(i);
        let lab = String::from_str(s);
        proof {
            assert(lab@ =~= sub_label_at(i as int));
        }
        labels.push(lab);
        i = i + 1;
    }
    let rects = generate_grid_rects(main_cell_rect, num_cols, num_rows);
    (labels, rects)
}

/// Row and column of a row-major cell index stay inside the grid.
proof fn lemma_row_col_in_range(i: int, cols: int, rows: int)
    requires
        0 <= cols,
        0 <= rows,
        0 <= i < rows * cols,
    ensures
        1 <= cols,
        1 <= rows,
        0 <= i / cols < rows,
        0 <= i % cols < cols,
{
    if cols == 0 {
        assert(rows * cols == 0) by (nonlinear_arith)
            requires cols == 0;
        assert(false);
    }
    if rows == 0 {
        assert(rows * cols == 0) by (nonlinear_arith)
            requires rows == 0;
        assert(false);
    }
    lemma_mod_division_less_than_divisor(i, cols);
    lemma_div_pos_is_pos(i, cols);
    if i / cols >= rows {
        lemma_fundamental_div_mod(i, cols);
        lemma_mul_inequality(rows, i / cols, cols);
        assert(rows * cols <= (i / cols) * cols);
        assert(cols * (i / cols) == (i / cols) * cols) by (nonlinear_arith);
        assert(false);
    }
}

/// The cell rectangles of a `num_rows x num_cols` split of `rect`, in
/// row-major order; none when the rectangle is degenerate.
fn generate_grid_rects(rect: Rect, num_cols: usize, num_rows: usize) -> (rs: Vec<Rect>)
    requires
        rect.wf(),
        num_cols * num_rows <= 0x1000_0000,
    ensures
        grid_rects_ok(rs@, rect, num_cols as int, num_rows as int),
{
    let mut rects: Vec<Rect> = Vec::new();
    if rect.w > DEGENERATE_EDGE && rect.h > DEGENERATE_EDGE {
        let total = num_rows * num_cols;
        proof {
            assert(num_rows as int * num_cols as int == num_cols as int * num_rows as int) by (nonlinear_arith);
        }
        let mut i: usize = 0;
        while i < total
            invariant
                total == num_rows * num_cols,
                total <= 0x1000_0000,
                rect.wf(),
                rect.w > DEGENERATE_EDGE,
                rect.h > DEGENERATE_EDGE,
                i <= total,
                rects@.len() == i,
                forall|j: int| 0 <= j < i ==> rects@[j] == cell_rect_at(
                    rect,
                    num_cols as int,
                    num_rows as int,
                    j,
                ),
            decreases total - i,
        {
            let row = i / num_cols;
            let col = i % num_cols;
            proof {
                lemma_row_col_in_range(i as int, num_cols as int, num_rows as int);
                assert(num_cols as int <= total as int && num_rows as int <= total as int)
                    by (nonlinear_arith)
                    requires
                        total as int == num_rows as int * num_cols as int,
                        1 <= num_rows as int,
                        1 <= num_cols as int,
                ;
            }
            let x0 = boundary(rect.x, rect.w, num_cols, col);
            let x1 = boundary(rect.x, rect.w, num_cols, col + 1);
            let y0 = boundary(rect.y, rect.h, num_rows, row);
            let y1 = boundary(rect.y, rect.h, num_rows, row + 1);
            proof {
                lemma_grid_step_mono(rect.x as int, rect.w as int, num_cols as int, col as int, col as int + 1);
                lemma_grid_step_mono(rect.y as int, rect.h as int, num_rows as int, row as int, row as int + 1);
            }
            rects.push(Rect { x: x0, y: y0, w: x1 - x0, h: y1 - y0 });
            i = i + 1;
        }
    }
    rects
}

/// Boundaries move right (weakly) as the boundary index grows.
pub proof fn lemma_grid_step_mono(off: int, len: int, n: int, k1: int, k2: int)
    requires
        0 <= len,
        1 <= n,
        k1 <= k2,
    ensures
        grid_step(off, len, n, k1) <= grid_step(off, len, n, k2),
{
    lemma_mul_inequality(k1, k2, len);
    lemma_div_is_ordered(k1 * len, k2 * len, n);
}

/// Every boundary stays within the split range.
pub proof fn lemma_grid_step_bounds(off: int, len: int, n: int, k: int)
    requires
        0 <= len,
        1 <= n,
        0 <= k <= n,
    ensures
        off <= grid_step(off, len, n, k) <= off + len,
{
    lemma_mul_nonnegative(k, len);
    lemma_div_pos_is_pos(k * len, n);
    lemma_mul_inequality(k, n, len);
    lemma_div_is_ordered(k * len, n * len, n);
    lemma_div_multiples_vanish(len, n);
}

/// The first boundary is the range's start and the last is its end.
pub proof fn lemma_grid_step_ends(off: int, len: int, n: int)
    requires
        0 <= len,
        1 <= n,
    ensures
        grid_step(off, len, n, 0) == off,
        grid_step(off, len, n, n) == off + len,
{
    assert(0 * len == 0) by (nonlinear_arith);
    assert((0 * len) / n == 0);
    lemma_div_multiples_vanish(len, n);
}

/// An offset below boundary `k` falls in one of the first `k` intervals.
proof fn lemma_step_cover(len: int, n: int, k: int, d: int)
    requires
        0 <= len,
        1 <= n,
        0 <= k <= n,
        0 <= d,
        d < (k * len) / n,
    ensures
        exists|c: int|
            0 <= c < k && ((#[trigger] (c * len)) / n <= d < ((c + 1) * len) / n),
    decreases k,
{
    if k == 0 {
        assert(0 * len == 0) by (nonlinear_arith);
        assert(false);
    } else {
        if d < ((k - 1) * len) / n {
            lemma_step_cover(len, n, k - 1, d);
            let c = choose|c: int| 0 <= c < k - 1 && ((#[trigger] (c * len)) / n <= d < ((c + 1) * len) / n);
            assert(0 <= c < k && ((c * len) / n <= d < ((c + 1) * len) / n));
        } else {
            let c = k - 1;
            assert(0 <= c < k && ((c * len) / n <= d < ((c + 1) * len) / n));
        }
    }
}

/// The four edges of cell `i`, written over the shared boundary function,
/// and the cell's well-formedness.
proof fn lemma_cell_rect_unfold(rect: Rect, cols: int, rows: int, i: int)
    requires
        rect.wf(),
        0 <= cols,
        0 <= rows,
        0 <= i < rows * cols,
    ensures
        ({
            let cell = cell_rect_at(rect, cols, rows, i);
            let c = i % cols;
            let r = i / cols;
            &&& cell.x == grid_step(rect.x as int, rect.w as int, cols, c)
            &&& cell.y == grid_step(rect.y as int, rect.h as int, rows, r)
            &&& cell.x + cell.w == grid_step(rect.x as int, rect.w as int, cols, c + 1)
            &&& cell.y + cell.h == grid_step(rect.y as int, rect.h as int, rows, r + 1)
            &&& cell.wf()
        }),
{
    lemma_row_col_in_range(i, cols, rows);
    let c = i % cols;
    let r = i / cols;
    lemma_grid_step_bounds(rect.x as int, rect.w as int, cols, c);
    lemma_grid_step_bounds(rect.x as int, rect.w as int, cols, c + 1);
    lemma_grid_step_bounds(rect.y as int, rect.h as int, rows, r);
    lemma_grid_step_bounds(rect.y as int, rect.h as int, rows, r + 1);
    lemma_grid_step_mono(rect.x as int, rect.w as int, cols, c, c + 1);
    lemma_grid_step_mono(rect.y as int, rect.h as int, rows, r, r + 1);
}

/// Exact tiling: a point lies in the target rectangle exactly when it lies
/// in some grid cell, and never in two distinct cells. The cells cover the
/// rectangle with no gap and no overlap.
pub proof fn lemma_grid_cells_tile(rect: Rect, cols: int, rows: int, p: Point)
    requires
        rect.wf(),
        1 <= cols,
        1 <= rows,
    ensures
        rect.spec_contains(p) <==> exists|i: int|
            0 <= i < rows * cols && (#[trigger] cell_rect_at(rect, cols, rows, i)).spec_contains(
                p,
            ),
        forall|i: int, j: int|
            0 <= i < rows * cols && 0 <= j < rows * cols && i != j ==> !(cell_rect_at(
                rect,
                cols,
                rows,
                i,
            ).spec_contains(p) && cell_rect_at(rect, cols, rows, j).spec_contains(p)),
{
    // A point in the rectangle lies in the cell of the covering column and row.
    if rect.spec_contains(p) {
        let dx = p.x - rect.x;
        let dy = p.y - rect.y;
        lemma_grid_step_ends(rect.x as int, rect.w as int, cols);
        lemma_grid_step_ends(rect.y as int, rect.h as int, rows);
        assert(dx < (cols * rect.w as int) / cols);
        assert(dy < (rows * rect.h as int) / rows);
        lemma_step_cover(rect.w as int, cols, cols, dx);
        lemma_step_cover(rect.h as int, rows, rows, dy);
        let c = choose|c: int|
            0 <= c < cols && ((#[trigger] (c * rect.w as int)) / cols <= dx < ((c + 1) * rect.w
                as int) / cols);
        let r = choose|r: int|
            0 <= r < rows && ((#[trigger] (r * rect.h as int)) / rows <= dy < ((r + 1) * rect.h
                as int) / rows);
        let i = r * cols + c;
        lemma_mul_nonnegative(r, cols);
        lemma_mul_inequality(r, rows - 1, cols);
        assert(i < rows * cols) by (nonlinear_arith)
            requires
                i == r * cols + c,
                r <= rows - 1,
                c < cols,
                0 <= cols,
        ;
        lemma_fundamental_div_mod_converse(i, cols, r, c);
        lemma_cell_rect_unfold(rect, cols, rows, i);
        assert(cell_rect_at(rect, cols, rows, i).spec_contains(p));
    }
    // A point in any cell lies in the rectangle.
    assert forall|i: int|
        0 <= i < rows * cols && cell_rect_at(rect, cols, rows, i).spec_contains(
            p,
        ) implies rect.spec_contains(p) by {
        lemma_cell_rect_unfold(rect, cols, rows, i);
        lemma_row_col_in_range(i, cols, rows);
        lemma_grid_step_bounds(rect.x as int, rect.w as int, cols, i % cols);
        lemma_grid_step_bounds(rect.x as int, rect.w as int, cols, i % cols + 1);
        lemma_grid_step_bounds(rect.y as int, rect.h as int, rows, i / cols);
        lemma_grid_step_bounds(rect.y as int, rect.h as int, rows, i / cols + 1);
    }
    // Distinct cells are disjoint: they differ in row or in column, and the
    // boundary intervals of distinct indices do not meet.
    assert forall|i: int, j: int|
        0 <= i < rows * cols && 0 <= j < rows * cols && i != j implies !(cell_rect_at(
        rect,
        cols,
        rows,
        i,
    ).spec_contains(p) && cell_rect_at(rect, cols, rows, j).spec_contains(p)) by {
        lemma_row_col_in_range(i, cols, rows);
        lemma_row_col_in_range(j, cols, rows);
        lemma_cell_rect_unfold(rect, cols, rows, i);
        lemma_cell_rect_unfold(rect, cols, rows, j);
        if cell_rect_at(rect, cols, rows, i).spec_contains(p) && cell_rect_at(
            rect,
            cols,
            rows,
            j,
        ).spec_contains(p) {
            if i / cols == j / cols && i % cols == j % cols {
                lemma_fundamental_div_mod(i, cols);
                lemma_fundamental_div_mod(j, cols);
                assert(false);
            } else if i / cols == j / cols {
                if i % cols < j % cols {
                    lemma_grid_step_mono(rect.x as int, rect.w as int, cols, i % cols + 1, j % cols);
                } else {
                    lemma_grid_step_mono(rect.x as int, rect.w as int, cols, j % cols + 1, i % cols);
                }
                assert(false);
            } else {
                if i / cols < j / cols {
                    lemma_grid_step_mono(rect.y as int, rect.h as int, rows, i / cols + 1, j / cols);
                } else {
                    lemma_grid_step_mono(rect.y as int, rect.h as int, rows, j / cols + 1, i / cols);
                }
                assert(false);
            }
        }
    }
}

/// No two cells of the main grid share a label: the row picks the first
/// character and the column the second, each from an alphabet without
/// repeated characters.
pub proof fn lemma_main_labels_distinct(cols: int, rows: int)
    requires
        1 <= cols <= MAIN_ALPHABET_LEN as int,
        0 <= rows <= MAIN_ALPHABET_LEN as int,
    ensures
        forall|i: int, j: int|
            0 <= i < rows * cols && 0 <= j < rows * cols && i != j ==> main_label_at(cols, i)
                != main_label_at(cols, j),
{
    assert forall|i: int, j: int|
        0 <= i < rows * cols && 0 <= j < rows * cols && i != j implies main_label_at(cols, i)
        != main_label_at(cols, j) by {
        lemma_row_col_in_range(i, cols, rows);
        lemma_row_col_in_range(j, cols, rows);
        if i / cols == j / cols && i % cols == j % cols {
            lemma_fundamental_div_mod(i, cols);
            lemma_fundamental_div_mod(j, cols);
            assert(false);
        } else if i / cols == j / cols {
            assert(second_char_at(i % cols) != second_char_at(j % cols));
            assert(main_label_at(cols, i)[1] != main_label_at(cols, j)[1]);
        } else {
            assert(first_char_at(i / cols) != first_char_at(j / cols));
            assert(main_label_at(cols, i)[0] != main_label_at(cols, j)[0]);
        }
    }
}

/// The sub-grid layout is a pure function of the cell rectangle and the
/// cell counts: two layouts of the same inputs are identical, label for
/// label and cell for cell.
pub proof fn lemma_sub_grid_layout_deterministic(
    l1: Seq<String>,
    r1: Seq<Rect>,
    l2: Seq<String>,
    r2: Seq<Rect>,
    rect: Rect,
    cols: int,
    rows: int,
)
    requires
        sub_labels_ok(l1, cols, rows),
        grid_rects_ok(r1, rect, cols, rows),
        sub_labels_ok(l2, cols, rows),
        grid_rects_ok(r2, rect, cols, rows),
    ensures
        l1.map_values(|s: String| s@) == l2.map_values(|s: String| s@),
        r1 == r2,
{
    assert(l1.map_values(|s: String| s@) =~~= l2.map_values(|s: String| s@));
    assert(r1 =~= r2);
}

} // verus!
