use kylin_desktop_organizer::domain::desktop::{
    drag_target, is_drag_move, move_icon_into_box, remove_box_icon,
    assign_box_ids, blank_click_organizes, box_containing, box_rename_accepted, box_size_request,
    collapse_height, collapse_label, copy_destination, delete_prompt, is_blank_double_click,
    is_repeat_press, new_box_state, place_new_icons, reflow_box_plan, rename_accepted, BoxRect,
};

fn entries(v: &[(&str, bool)]) -> Vec<(String, bool)> {
    v.iter().map(|(p, d)| (p.to_string(), *d)).collect()
}

#[test]
fn scan_places_dirs_first_then_by_path() {
    let e = entries(&[
        ("/d/zeta.txt", false),
        ("/d/.hidden", false),
        ("/d/beta", true),
        ("/d/alpha.txt", false),
        ("/d/known.txt", false),
        ("/d/alpha", true),
    ]);
    let known = vec!["/d/known.txt".to_string()];
    // desktop 300 wide: (300-80)/74 = 2 icons per row
    let r = place_new_icons(&e, &known, 300, 48, 10);
    let got: Vec<(&str, i32, i32)> = r.iter().map(|i| (i.path.as_str(), i.x, i.y)).collect();
    assert_eq!(
        got,
        vec![
            ("/d/alpha", 20, 16),
            ("/d/beta", 94, 16),
            ("/d/alpha.txt", 20, 110),
            ("/d/zeta.txt", 94, 110),
        ]
    );
}

#[test]
fn scan_on_a_narrow_desktop_uses_one_column() {
    let e = entries(&[("/d/a", false), ("/d/b", false)]);
    let r = place_new_icons(&e, &[], 50, 48, 10);
    assert_eq!((r[1].x, r[1].y), (20, 110));
    assert!(place_new_icons(&[], &[], 1920, 48, 10).is_empty());
}

#[test]
fn reflow_lays_icons_in_rows_and_grows_only() {
    // box 240 wide: (240-16)/74 = 3 per row
    let plan = reflow_box_plan(4, 240, 48, 10, 100);
    assert_eq!(plan.positions, vec![(8, 8), (82, 8), (156, 8), (8, 102)]);
    // 4 icons / 3 per row + 1 = 2 rows -> 34 + 16 + 2*94 + 4 = 242
    assert_eq!(plan.target_h, 242);
    // a full last row reserves one more row
    assert_eq!(reflow_box_plan(3, 240, 48, 10, 0).target_h, 242);
    // never shrinks
    assert_eq!(reflow_box_plan(1, 240, 48, 10, 500).target_h, 500);
    assert_eq!(reflow_box_plan(0, 240, 48, 10, 0).target_h, 148);
}

#[test]
fn drop_target_is_the_first_open_box_under_the_icon_centre() {
    let boxes = [
        BoxRect { x: 0, y: 0, w: 100, h: 100, open: false },
        BoxRect { x: 0, y: 0, w: 200, h: 200, open: true },
        BoxRect { x: 0, y: 0, w: 300, h: 300, open: true },
    ];
    // centre of a 48 icon at (60, 60) is (92, 92)
    assert_eq!(box_containing(60, 60, 48, &boxes), Some(1));
    assert_eq!(box_containing(200, 200, 48, &boxes), Some(2));
    assert_eq!(box_containing(400, 400, 48, &boxes), None);
}

#[test]
fn blank_double_click_rules() {
    let boxes = [BoxRect { x: 10, y: 10, w: 50, h: 50, open: false }];
    assert!(!blank_click_organizes(20, 20, &boxes, true));
    assert!(blank_click_organizes(100, 100, &boxes, true));
    assert!(!blank_click_organizes(100, 100, &boxes, false));
    assert!(is_blank_double_click(1300, 1000, 5, 5, 0, 0));
    assert!(!is_blank_double_click(1320, 1000, 5, 5, 0, 0));
    assert!(!is_blank_double_click(1100, 1000, 8, 0, 0, 0));
    assert!(!is_blank_double_click(100, 0, 0, 0, 0, 0));
    assert!(is_repeat_press(1100, 1000, "/d/a", "/d/a"));
    assert!(!is_repeat_press(1100, 1000, "/d/a", "/d/b"));
}

#[test]
fn organize_reuses_boxes_then_numbers_new_ones() {
    let existing = vec!["box-1".to_string(), "auto-3".to_string()];
    let a = assign_box_ids(&existing, 4, 9);
    assert_eq!(a.ids, vec!["box-1", "auto-3", "auto-10", "auto-11"]);
    assert_eq!(a.created, vec![false, false, true, true]);
    assert!(a.closed.is_empty());
    assert_eq!(a.box_seq, 11);
    let b = assign_box_ids(&existing, 1, 9);
    assert_eq!(b.ids, vec!["box-1"]);
    assert_eq!(b.closed, vec!["auto-3"]);
    assert_eq!(b.box_seq, 9);
}

#[test]
fn new_box_defaults() {
    let (bs, seq) = new_box_state("新建盒子", 41);
    assert_eq!(seq, 42);
    assert_eq!(bs.id, "box-42");
    assert_eq!(bs.title, "新建盒子");
    assert_eq!((bs.x, bs.y, bs.w, bs.h), (40, 40, 320, 240));
    assert!(!bs.collapsed && bs.color.is_none() && bs.icons.is_empty());
    assert_eq!(new_box_state("x", 0).0.id, "box-1");
}

#[test]
fn box_sizes_and_labels() {
    assert_eq!(box_size_request(50, 50, false), (96, 96));
    assert_eq!(box_size_request(320, 240, true), (320, 38));
    assert_eq!(collapse_height(true, 500), 40);
    assert_eq!(collapse_height(false, 50), 96);
    assert_eq!(collapse_height(false, 300), 300);
    assert_eq!(collapse_label(true), "▢");
    assert_eq!(collapse_label(false), "─");
}

#[test]
fn icon_operations_text() {
    assert_eq!(copy_destination("/d/a.txt"), "/d/a.txt.copy");
    assert_eq!(delete_prompt("/d/firefox.desktop"), "确定删除「firefox」？");
    assert!(rename_accepted("a.txt", "b.txt", true));
    assert!(!rename_accepted("a.txt", "a.txt", true));
    assert!(!rename_accepted("a.txt", "", true));
    assert!(!rename_accepted("a.txt", "b.txt", false));
    assert!(box_rename_accepted("应用", true));
    assert!(!box_rename_accepted("", true));
}

#[test]
fn drags_start_at_four_pixels_and_stay_on_screen() {
    assert!(!is_drag_move(10, 10, 12, 11));
    assert!(is_drag_move(10, 10, 12, 12));
    assert!(is_drag_move(10, 10, 6, 10));
    assert!(is_drag_move(i32::MIN, 0, i32::MAX, 0));
    assert_eq!(drag_target(100, 50, 5, 5, 15, 0), (110, 45));
    assert_eq!(drag_target(3, 4, 10, 10, 0, 0), (0, 0));
}

fn strs(v: &[&str]) -> Vec<String> {
    v.iter().map(|s| s.to_string()).collect()
}

#[test]
fn removing_an_icon_takes_its_first_occurrence() {
    let mut icons = strs(&["/d/a", "/d/b", "/d/a"]);
    assert!(remove_box_icon(&mut icons, "/d/a"));
    assert_eq!(icons, strs(&["/d/b", "/d/a"]));
    assert!(!remove_box_icon(&mut icons, "/d/x"));
    assert_eq!(icons, strs(&["/d/b", "/d/a"]));
}

#[test]
fn moving_an_icon_leaves_other_boxes_and_joins_the_target() {
    let mut lists = vec![strs(&["/d/a", "/d/b"]), strs(&["/d/c"]), strs(&["/d/b", "/d/d"])];
    move_icon_into_box(&mut lists, 1, "/d/b");
    assert_eq!(lists, vec![strs(&["/d/a"]), strs(&["/d/c", "/d/b"]), strs(&["/d/d"])]);
    // an icon already in the target is appended again, as adding does
    move_icon_into_box(&mut lists, 1, "/d/c");
    assert_eq!(lists[1], strs(&["/d/c", "/d/b", "/d/c"]));
}
