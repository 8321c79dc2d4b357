use kylin_desktop_organizer::domain::categorize::classify_desktop_item;
use kylin_desktop_organizer::domain::organize::{
    build_groups, group_by_category, organize_max_per_row, plan_organize,
};

/// 测试用的固定分类函数
fn classify(cat: &str) -> impl Fn(&str) -> String + '_ {
    move |_: &str| cat.to_string()
}

#[test]
fn empty_input_yields_empty_plan() {
    let groups = build_groups(&[], true, classify("应用"));
    assert!(groups.is_empty());
    let plan = plan_organize(&groups, 1920, 48, 10, 34, 8);
    assert!(plan.boxes.is_empty());
}

#[test]
fn groups_are_sorted_by_category_order() {
    let paths = vec![
        "/d/txt.txt".into(),
        "/d/firefox.desktop".into(),
        "/d/电脑".into(),
        "/d/weird.unknownext".into(),
    ];
    let groups = build_groups(&paths, true, |p| {
        let name = p.rsplit('/').next().unwrap_or("");
        match name {
            "电脑" => "我的电脑".into(),
            "firefox.desktop" => "应用".into(),
            _ if name.ends_with(".txt") => "文件".into(),
            _ => "未知类".into(),
        }
    });
    let titles: Vec<&str> = groups.iter().map(|(t, _)| t.as_str()).collect();
    assert_eq!(titles, vec!["我的电脑", "应用", "文件", "未知类"]);
}

#[test]
fn hide_files_filters_file_groups() {
    let paths = vec![
        "/d/a.txt".into(),
        "/d/pic.jpg".into(),
        "/d/arch.zip".into(),
        "/d/资料".into(),
        "/d/firefox.desktop".into(),
    ];
    let groups = build_groups(&paths, false, |p| {
        let name = p.rsplit('/').next().unwrap_or("");
        match name {
            "firefox.desktop" => "应用".into(),
            "资料" => "文件夹".into(),
            _ if name.ends_with(".jpg") => "图片视频".into(),
            _ if name.ends_with(".zip") => "压缩包".into(),
            _ => "文件".into(),
        }
    });
    let titles: Vec<&str> = groups.iter().map(|(t, _)| t.as_str()).collect();
    // 文件/图片视频/压缩包/文件夹 全被过滤，只剩 应用
    assert_eq!(titles, vec!["应用"]);
}

#[test]
fn empty_folder_group_is_dropped() {
    let groups = build_groups(&["/d/x.desktop".into()], true, classify("文件夹"));
    // 只有一个「文件夹」组且它是空组 -> 被剔除
    assert!(groups.is_empty());
}

#[test]
fn non_empty_folder_group_is_kept() {
    let groups = build_groups(&["/d/a".into()], true, classify("文件夹"));
    assert_eq!(groups.len(), 1);
    assert_eq!(groups[0].0, "文件夹");
}

#[test]
fn plan_places_boxes_left_to_right_and_wraps() {
    // desktop_w=800, icon 48/gap 10 -> cell 74; mpr = max(2, 720/74)=max(2,9)=9
    // 每组 3 个图标 -> box_width = 3*74+16 = 238
    let groups = vec![
        ("应用".to_string(), vec!["a".into(), "b".into(), "c".into()]),
        ("文件".to_string(), vec!["d".into(), "e".into(), "f".into()]),
        (
            "文件夹".to_string(),
            vec!["g".into(), "h".into(), "i".into()],
        ),
    ];
    let plan = plan_organize(&groups, 800, 48, 10, 34, 8);
    assert_eq!(plan.boxes.len(), 3);
    assert_eq!(plan.boxes[0].x, 20);
    assert_eq!(plan.boxes[0].y, 16);
    assert_eq!(plan.boxes[0].w, 238);
    // 第二个盒子紧随其后
    assert_eq!(plan.boxes[1].x, 20 + 238 + 16);
    assert_eq!(plan.boxes[1].y, 16);
    // 第三个盒子如果放不下就换行（x+238 > 800-40=760?）
    // 前两个占 20+238+16+238=512 < 760，第三个仍在同一行
    assert_eq!(plan.boxes[2].x, 20 + 2 * (238 + 16));
    assert_eq!(plan.boxes[2].y, 16);
}

#[test]
fn plan_wraps_to_next_row_when_too_wide() {
    // 每个盒子 480 宽，桌面 800：一行只能放 1 个
    let groups = vec![
        (
            "应用".to_string(),
            (0..10).map(|i| format!("a{i}")).collect(),
        ),
        (
            "文件".to_string(),
            (0..10).map(|i| format!("b{i}")).collect(),
        ),
    ];
    let plan = plan_organize(&groups, 800, 48, 10, 34, 8);
    assert_eq!(plan.boxes.len(), 2);
    // 第二个盒子换行
    assert_eq!(plan.boxes[1].x, 20);
    assert!(plan.boxes[1].y > plan.boxes[0].y);
}

#[test]
fn plan_icons_fit_multiple_rows() {
    // 10 个图标，mpr=4（桌面很窄） -> 3 行
    let groups = vec![(
        "文件".to_string(),
        (0..10).map(|i| format!("f{i}")).collect(),
    )];
    let plan = plan_organize(&groups, 400, 48, 10, 34, 8);
    assert_eq!(plan.boxes.len(), 1);
    assert_eq!(plan.boxes[0].icons.len(), 10);
    // 3 行 -> 高度 = 34+16+3*94+4 = 336
    assert_eq!(plan.boxes[0].h, 336);
}

#[test]
fn organize_max_per_row_minimum_is_two() {
    assert_eq!(organize_max_per_row(1, 48, 10), 2);
    assert_eq!(organize_max_per_row(100, 48, 10), 2);
}

/// The classification used by the desktop window, from plain facts.
fn classify_entry(path: &str) -> String {
    let name = path.rsplit('/').next().unwrap_or("");
    let is_dir = !name.contains('.') && name != "回收站";
    let content = if name == "firefox.desktop" {
        Some("[Desktop Entry]\nIcon=firefox\n")
    } else {
        None
    };
    classify_desktop_item(name, path, is_dir, content)
}

fn fake_desktop() -> Vec<String> {
    [
        "/home/t/Desktop/firefox.desktop",
        "/home/t/Desktop/notes.txt",
        "/home/t/Desktop/holiday.jpg",
        "/home/t/Desktop/backup-2026.zip",
        "/home/t/Desktop/项目资料",
        "/home/t/Desktop/computer",
        "/home/t/Desktop/回收站",
    ]
    .iter()
    .map(|s| s.to_string())
    .collect()
}

#[test]
fn empty_desktop_yields_empty_plan() {
    let groups = build_groups(&[], true, classify_entry);
    assert!(groups.is_empty());
    let plan = plan_organize(&groups, 1920, 48, 10, 34, 8);
    assert!(plan.boxes.is_empty());
}

#[test]
fn pipeline_groups_orders_and_keeps_every_icon() {
    let paths = fake_desktop();
    let groups = build_groups(&paths, true, classify_entry);
    let titles: Vec<&str> = groups.iter().map(|(t, _)| t.as_str()).collect();
    assert_eq!(titles, vec!["我的电脑", "回收站", "文件夹", "文件", "图片视频", "压缩包", "浏览器"]);
    let plan = plan_organize(&groups, 1920, 48, 10, 34, 8);
    assert_eq!(plan.boxes.len(), groups.len());
    let total: usize = plan.boxes.iter().map(|b| b.icons.len()).sum();
    assert_eq!(total, paths.len());
    for b in &plan.boxes {
        assert!(b.x >= 20 && b.y >= 16 && b.w > 0 && b.h > 0);
    }
}

#[test]
fn pipeline_without_files_keeps_apps_only() {
    let groups = build_groups(&fake_desktop(), false, classify_entry);
    let titles: Vec<&str> = groups.iter().map(|(t, _)| t.as_str()).collect();
    assert_eq!(titles, vec!["我的电脑", "回收站", "浏览器"]);
}

#[test]
fn narrow_screen_wraps_boxes() {
    let groups = build_groups(&fake_desktop(), true, classify_entry);
    let plan = plan_organize(&groups, 320, 48, 10, 34, 8);
    let mut rows = std::collections::BTreeSet::new();
    let mut prev_y = i32::MIN;
    for b in &plan.boxes {
        assert!(b.y >= prev_y);
        prev_y = b.y;
        rows.insert(b.y);
        assert!(b.x == 20 || b.x + b.w <= 320);
    }
    assert!(rows.len() >= 2);
    for (i, a) in plan.boxes.iter().enumerate() {
        for b in plan.boxes.iter().skip(i + 1) {
            let apart = a.x + a.w < b.x || b.x + b.w < a.x || a.y + a.h < b.y || b.y + b.h < a.y;
            assert!(apart, "{a:?} overlaps {b:?}");
        }
    }
}

#[test]
fn next_row_starts_below_the_previous_box() {
    let groups = vec![
        ("应用".to_string(), (0..12).map(|i| format!("a{i}")).collect()),
        ("文件".to_string(), vec!["b".to_string()]),
        ("压缩包".to_string(), (0..9).map(|i| format!("c{i}")).collect()),
    ];
    let plan = plan_organize(&groups, 800, 48, 10, 34, 8);
    // mpr 9: first box 9 cols (682 wide) x 2 rows (242 high); it ends its row
    assert_eq!((plan.boxes[0].w, plan.boxes[0].h), (682, 242));
    assert_eq!((plan.boxes[1].x, plan.boxes[1].y), (20, 16 + 242 + 20));
    // the third box does not fit next to the second one: below the second box
    assert_eq!(plan.boxes[1].h, 148);
    assert_eq!(plan.boxes[2].x, 20);
    assert_eq!(plan.boxes[2].y, 16 + 242 + 20 + 148 + 20);
}

#[test]
fn multi_row_box_ends_its_row() {
    let groups = vec![
        ("应用".to_string(), (0..25).map(|i| format!("a{i}")).collect()),
        ("文件".to_string(), vec!["b".to_string()]),
        ("压缩包".to_string(), vec!["c".to_string()]),
    ];
    let plan = plan_organize(&groups, 1920, 48, 10, 34, 8);
    // mpr 24: the first box takes two rows (1792 x 242) and ends its row
    assert_eq!((plan.boxes[0].x, plan.boxes[0].y, plan.boxes[0].w, plan.boxes[0].h), (20, 16, 1792, 242));
    assert_eq!((plan.boxes[1].x, plan.boxes[1].y), (20, 278));
    // one-row boxes share a row
    assert_eq!((plan.boxes[2].x, plan.boxes[2].y), (20 + 90 + 16, 278));
}

#[test]
fn grouping_from_given_categories() {
    let paths: Vec<String> = vec!["/d/b".into(), "/d/a".into(), "/d/c".into(), "/d/x.desktop".into()];
    let cats: Vec<String> = vec!["zeta".into(), "文件".into(), "alpha".into(), "其他".into()];
    let groups = group_by_category(&paths, &cats, true);
    let titles: Vec<&str> = groups.iter().map(|(t, _)| t.as_str()).collect();
    // known categories by rank, unknown ones by code point order; the
    // "其他" group holding only a launcher is dropped
    assert_eq!(titles, vec!["文件", "alpha", "zeta"]);
    assert_eq!(groups[0].1, vec!["/d/a".to_string()]);
    // files hidden
    let hidden = group_by_category(&paths, &cats, false);
    let titles: Vec<&str> = hidden.iter().map(|(t, _)| t.as_str()).collect();
    assert_eq!(titles, vec!["alpha", "zeta"]);
}

#[test]
fn empty_groups_get_no_box() {
    let groups = vec![
        ("应用".to_string(), vec![]),
        ("文件".to_string(), vec!["f".to_string()]),
    ];
    let plan = plan_organize(&groups, 800, 48, 10, 34, 8);
    assert_eq!(plan.boxes.len(), 1);
    assert_eq!(plan.boxes[0].title, "文件");
    assert_eq!((plan.boxes[0].x, plan.boxes[0].y), (20, 16));
}
