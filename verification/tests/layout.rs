use kylin_desktop_organizer::domain::layout::{
    box_height, box_icon_pos, box_rows, box_width, cell, desktop_pos, icon_total, max_per_row,
    point_in_rect, snap_x,
};

#[test]
fn icon_total_and_cell() {
    assert_eq!(icon_total(48), 64);
    assert_eq!(icon_total(40), 56);
    assert_eq!(cell(48, 10), 74);
    assert_eq!(cell(40, 5), 61);
}

#[test]
fn max_per_row_never_below_one() {
    assert_eq!(max_per_row(1000, 48, 10), 13); // 920/74 = 12.43 -> 12
    assert_eq!(max_per_row(0, 48, 10), 1);
    assert_eq!(max_per_row(10, 48, 10), 1);
}

#[test]
fn desktop_pos_layout() {
    // icon_size=48 gap=10 -> cell=74, 行高 = 64+30 = 94
    assert_eq!(desktop_pos(0, 0, 48, 10), (20, 16));
    assert_eq!(desktop_pos(1, 0, 48, 10), (94, 16));
    assert_eq!(desktop_pos(0, 1, 48, 10), (20, 110));
    assert_eq!(desktop_pos(2, 3, 48, 10), (20 + 2 * 74, 16 + 3 * 94));
}

#[test]
fn snap_at_grid_is_kept() {
    // 48/10 -> cell=74, SNAP=6 -> 阈值 6+5=11
    assert_eq!(snap_x(74, 48, 10, 6), Some(74));
    assert_eq!(snap_x(80, 48, 10, 6), Some(74)); // 差 6 < 11
    assert_eq!(snap_x(64, 48, 10, 6), Some(74)); // 差 10 < 11
    assert_eq!(snap_x(90, 48, 10, 6), None); // 差 16 >= 11
                                             // 负坐标也能吸附到 0
    assert_eq!(snap_x(-3, 48, 10, 6), Some(0));
}

#[test]
fn box_icon_pos_wraps_by_row() {
    let padding = 8;
    let (i0, _) = box_icon_pos(0, 4, 48, 10, padding);
    assert_eq!(i0, 8);
    let (x, y) = box_icon_pos(4, 4, 48, 10, padding);
    // index 4 -> col 0, row 1
    assert_eq!(x, 8);
    assert_eq!(y, padding + 1 * (64 + 30));
    let (x5, _) = box_icon_pos(5, 4, 48, 10, padding);
    assert_eq!(x5, padding + 74);
}

#[test]
fn box_rows_calculation() {
    assert_eq!(box_rows(0, 4), 1);
    assert_eq!(box_rows(1, 4), 1);
    assert_eq!(box_rows(4, 4), 1);
    assert_eq!(box_rows(5, 4), 2);
    assert_eq!(box_rows(8, 4), 2);
    assert_eq!(box_rows(9, 4), 3);
    assert_eq!(box_rows(10, 0), 10); // 防御 max_per_row<=0
}

#[test]
fn box_dimensions() {
    let w = box_width(3, 4, 48, 10, 8);
    assert_eq!(w, 3 * 74 + 16); // 238
    assert_eq!(box_width(0, 4, 48, 10, 8), 74 + 16); // 至少一个单元格宽
    let h = box_height(3, 4, 48, 34, 8);
    assert_eq!(h, 34 + 16 + 1 * 94 + 4); // 148
    let h2 = box_height(5, 4, 48, 34, 8);
    assert_eq!(h2, 34 + 16 + 2 * 94 + 4); // 242
}

#[test]
fn point_in_rect_bounds() {
    assert!(point_in_rect(0, 0, 0, 0, 100, 100));
    assert!(point_in_rect(100, 100, 0, 0, 100, 100));
    assert!(!point_in_rect(101, 100, 0, 0, 100, 100));
    assert!(!point_in_rect(50, 101, 0, 0, 100, 100));
}

#[test]
fn snap_rounds_halves_away_from_zero() {
    // cell 74: 37 is exactly half way -> rounds up to 74; -37 -> -74
    assert_eq!(snap_x(37, 48, 10, 40), Some(74));
    assert_eq!(snap_x(-37, 48, 10, 40), Some(-74));
    assert_eq!(snap_x(36, 48, 10, 40), Some(0));
    // grid lines snap to themselves
    for k in -3..4 {
        assert_eq!(snap_x(k * 74, 48, 10, 1), Some(k * 74));
    }
    // a zero threshold never snaps
    assert_eq!(snap_x(74, 48, 10, -5), None);
}

#[test]
fn max_per_row_rounds_toward_zero() {
    assert_eq!(max_per_row(147, 48, 10), 1);
    assert_eq!(max_per_row(148, 48, 10), 2);
    assert_eq!(max_per_row(-500, 48, 10), 1);
}

#[test]
fn box_rows_hold_every_icon_without_empty_rows() {
    for m in 1..6 {
        for n in 1..30usize {
            let rows = box_rows(n, m) as i32;
            assert!((rows - 1) * m < n as i32 && n as i32 <= rows * m, "n={n} m={m}");
        }
    }
}

#[test]
fn box_icon_positions_are_distinct() {
    let mut seen = std::collections::BTreeSet::new();
    for i in 0..20 {
        assert!(seen.insert(box_icon_pos(i, 3, 48, 10, 8)));
    }
    // negative indices wrap with euclidean division
    assert_eq!(box_icon_pos(-1, 4, 48, 10, 8), (8 + 3 * 74, 8 - 94));
}

#[test]
fn snap_goes_to_the_nearest_line_or_nowhere() {
    // cell 74: 150 is 2 from 148 and 72 from 222
    assert_eq!(snap_x(150, 48, 10, 6), Some(148));
    // 111 lies 37 from both 74 and 148: no line within 11
    assert_eq!(snap_x(111, 48, 10, 6), None);
    assert_eq!(snap_x(-150, 48, 10, 6), Some(-148));
}

#[test]
fn every_icon_position_lies_inside_its_box() {
    let (count, mpr) = (10usize, 4);
    let w = box_width(count, mpr, 48, 10, 8);
    let h = box_height(count, mpr, 48, 34, 8);
    assert_eq!((w, h), (312, 336));
    for i in 0..count as i32 {
        let (x, y) = box_icon_pos(i, mpr, 48, 10, 8);
        assert!(x >= 8 && x + cell(48, 10) + 8 <= w);
        assert!(y >= 8 && y + icon_total(48) + 30 + 8 + 34 + 4 <= h);
    }
    assert_eq!(box_icon_pos(9, mpr, 48, 10, 8), (82, 196));
}
