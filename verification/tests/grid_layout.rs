use mouseless::geom::Rect;
use mouseless::grid::{
    generate_main_grid_layout, generate_sub_grid_layout, MAIN_GRID_COLS, MAIN_GRID_ROWS,
    SUB_GRID_COLS, SUB_GRID_ROWS,
};

fn rect(x: i32, y: i32, w: i32, h: i32) -> Rect {
    Rect { x, y, w, h }
}

#[test]
fn main_grid_full_window_counts() {
    let (labels, rects) = generate_main_grid_layout(
        MAIN_GRID_COLS,
        MAIN_GRID_ROWS,
        rect(0, 0, 1200, 1200),
    );
    assert_eq!(labels.len(), 144);
    assert_eq!(rects.len(), 144);
}

#[test]
fn main_grid_labels_pairwise_distinct() {
    let (labels, _) = generate_main_grid_layout(
        MAIN_GRID_COLS,
        MAIN_GRID_ROWS,
        rect(0, 0, 1200, 1200),
    );
    for i in 0..labels.len() {
        for j in 0..labels.len() {
            if i != j {
                assert_ne!(labels[i], labels[j], "labels {} and {} collide", i, j);
            }
        }
    }
}

#[test]
fn main_grid_label_values() {
    let (labels, _) = generate_main_grid_layout(
        MAIN_GRID_COLS,
        MAIN_GRID_ROWS,
        rect(0, 0, 1200, 1200),
    );
    // Row 0 uses 'A' as first character; columns walk the column alphabet.
    assert_eq!(labels[0], "AH");
    assert_eq!(labels[1], "AJ");
    assert_eq!(labels[11], "AS");
    // Row 1 starts with 'S'.
    assert_eq!(labels[12], "SH");
    // Last cell: row 11 = 'E', column 11 = 'S'.
    assert_eq!(labels[143], "ES");
}

#[test]
fn main_grid_cell_rect_values() {
    let (_, rects) = generate_main_grid_layout(
        MAIN_GRID_COLS,
        MAIN_GRID_ROWS,
        rect(0, 0, 1200, 1200),
    );
    assert_eq!(rects[0], rect(0, 0, 100, 100));
    assert_eq!(rects[1], rect(100, 0, 100, 100));
    assert_eq!(rects[12], rect(0, 100, 100, 100));
    assert_eq!(rects[143], rect(1100, 1100, 100, 100));
}

#[test]
fn main_grid_tiles_exactly() {
    // An uneven split: widths differ by one pixel but the union is exact.
    let target = rect(3, 7, 100, 90);
    let (_, rects) = generate_main_grid_layout(7, 3, target);
    assert_eq!(rects.len(), 21);
    let mut area: i64 = 0;
    for r in &rects {
        assert!(r.w >= 0 && r.h >= 0);
        assert!(r.x >= target.x && r.x + r.w <= target.x + target.w);
        assert!(r.y >= target.y && r.y + r.h <= target.y + target.h);
        area += r.w as i64 * r.h as i64;
    }
    assert_eq!(area, 100 * 90);
    // Cells in one row abut without gap or overlap.
    for c in 0..6 {
        assert_eq!(rects[c].x + rects[c].w, rects[c + 1].x);
    }
    // Rows abut as well.
    assert_eq!(rects[0].y + rects[0].h, rects[7].y);
}

#[test]
fn main_grid_degenerate_rect_keeps_labels() {
    let (labels, rects) = generate_main_grid_layout(MAIN_GRID_COLS, MAIN_GRID_ROWS, rect(0, 0, 1, 600));
    assert_eq!(labels.len(), 144);
    assert!(rects.is_empty());
    let (labels2, rects2) = generate_main_grid_layout(MAIN_GRID_COLS, MAIN_GRID_ROWS, rect(0, 0, 600, 0));
    assert_eq!(labels2.len(), 144);
    assert!(rects2.is_empty());
}

#[test]
fn sub_grid_five_by_five() {
    let (labels, rects) = generate_sub_grid_layout(rect(100, 200, 100, 100), SUB_GRID_COLS, SUB_GRID_ROWS);
    assert_eq!(labels.len(), 25);
    assert_eq!(rects.len(), 25);
    assert_eq!(labels[0], "A");
    assert_eq!(labels[24], "Y");
    assert_eq!(rects[0], rect(100, 200, 20, 20));
    assert_eq!(rects[24], rect(180, 280, 20, 20));
}

#[test]
fn sub_grid_truncates_labels_past_alphabet() {
    // 6 x 5 = 30 cells, but only 26 letters: the label list is truncated,
    // the rectangles are not.
    let (labels, rects) = generate_sub_grid_layout(rect(0, 0, 600, 500), 6, 5);
    assert_eq!(labels.len(), 26);
    assert_eq!(rects.len(), 30);
    assert_eq!(labels[25], "Z");
}

#[test]
fn sub_grid_degenerate_rect_keeps_labels() {
    let (labels, rects) = generate_sub_grid_layout(rect(0, 0, 1, 1), SUB_GRID_COLS, SUB_GRID_ROWS);
    assert_eq!(labels.len(), 25);
    assert!(rects.is_empty());
}

#[test]
fn sub_grid_layout_is_idempotent() {
    let cell = rect(300, 400, 103, 97);
    let (l1, r1) = generate_sub_grid_layout(cell, SUB_GRID_COLS, SUB_GRID_ROWS);
    let (l2, r2) = generate_sub_grid_layout(cell, SUB_GRID_COLS, SUB_GRID_ROWS);
    assert_eq!(l1, l2);
    assert_eq!(r1, r2);
}

#[test]
fn main_grid_layout_is_idempotent() {
    let target = rect(0, 0, 997, 1003);
    let (l1, r1) = generate_main_grid_layout(MAIN_GRID_COLS, MAIN_GRID_ROWS, target);
    let (l2, r2) = generate_main_grid_layout(MAIN_GRID_COLS, MAIN_GRID_ROWS, target);
    assert_eq!(l1, l2);
    assert_eq!(r1, r2);
}

#[test]
fn main_grid_handles_largest_rect() {
    let target = rect(0, 0, i32::MAX - 1, i32::MAX - 1);
    let (labels, rects) = generate_main_grid_layout(MAIN_GRID_COLS, MAIN_GRID_ROWS, target);
    assert_eq!(labels.len(), 144);
    assert_eq!(rects.len(), 144);
    let mut area: i64 = 0;
    for r in &rects {
        area += r.w as i64 * r.h as i64;
    }
    assert_eq!(area, (i32::MAX as i64 - 1) * (i32::MAX as i64 - 1));
    let last = rects[143];
    assert_eq!(last.x + last.w, i32::MAX - 1);
    assert_eq!(last.y + last.h, i32::MAX - 1);
}
