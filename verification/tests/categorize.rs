use kylin_desktop_organizer::domain::categorize::{
    classify_desktop_item, classify_dir_name, classify_file_by_ext, classify_launcher_content,
    classify_special_name, is_empty_folder, ARCHIVE_CATEGORY, FILE_CATEGORY, FOLDER_CATEGORY,
    IMAGE_VIDEO_CATEGORY,
};

#[test]
fn special_names_by_keyword() {
    assert_eq!(classify_special_name("computer"), Some("我的电脑"));
    assert_eq!(classify_special_name("mycomputer"), Some("我的电脑"));
    assert_eq!(classify_special_name("电脑"), Some("我的电脑"));
    assert_eq!(classify_special_name("trash-can"), Some("回收站"));
    assert_eq!(classify_special_name("recycle.bin"), Some("回收站"));
    assert_eq!(classify_special_name("firefox"), None);
    assert_eq!(classify_special_name(""), None);
}

#[test]
fn special_names_are_case_insensitive() {
    assert_eq!(classify_special_name("TRASH"), Some("回收站"));
    assert_eq!(classify_special_name("Computer.svg"), Some("我的电脑"));
}

#[test]
fn dir_names_map_to_special_groups() {
    assert_eq!(classify_dir_name("图片收藏"), Some(IMAGE_VIDEO_CATEGORY));
    assert_eq!(classify_dir_name("照片2026"), Some(IMAGE_VIDEO_CATEGORY));
    assert_eq!(classify_dir_name("截图"), Some(IMAGE_VIDEO_CATEGORY));
    assert_eq!(classify_dir_name("my-photos"), Some(IMAGE_VIDEO_CATEGORY));
    assert_eq!(classify_dir_name("压缩备份"), Some(ARCHIVE_CATEGORY));
    assert_eq!(classify_dir_name("backup-2026"), Some(ARCHIVE_CATEGORY));
    assert_eq!(classify_dir_name("资料"), None);
    assert_eq!(classify_dir_name(""), None);
}

#[test]
fn file_extensions_grouping() {
    // 图片视频
    for ext in [
        "jpg", "jpeg", "png", "gif", "bmp", "svg", "webp", "ico", "tif", "tiff", "mp4", "avi",
        "mkv", "mov", "mp3", "wav",
    ] {
        assert_eq!(classify_file_by_ext(ext), IMAGE_VIDEO_CATEGORY, "ext={ext}");
    }
    // 压缩包
    for ext in [
        "zip", "rar", "7z", "tar", "gz", "bz2", "xz", "iso", "tgz", "deb", "rpm",
    ] {
        assert_eq!(classify_file_by_ext(ext), ARCHIVE_CATEGORY, "ext={ext}");
    }
    // 普通文件
    assert_eq!(classify_file_by_ext("txt"), FILE_CATEGORY);
    assert_eq!(classify_file_by_ext("docx"), FILE_CATEGORY);
    assert_eq!(classify_file_by_ext(""), FILE_CATEGORY);
    assert_eq!(classify_file_by_ext("none"), FILE_CATEGORY);
}

#[test]
fn launcher_content_keyword_match() {
    assert_eq!(
        classify_launcher_content("[Desktop Entry]\nIcon=firefox\n"),
        Some("浏览器".into())
    );
    assert_eq!(
        classify_launcher_content("[Desktop Entry]\nName=微信\n"),
        Some("微信".into())
    );
    assert_eq!(
        classify_launcher_content("[Desktop Entry]\nExec=notepad\n"),
        None
    );
    assert_eq!(classify_launcher_content(""), None);
}

#[test]
fn empty_folder_names() {
    assert!(is_empty_folder("文件夹"));
    assert!(is_empty_folder("其他"));
    assert!(!is_empty_folder("应用"));
    assert!(!is_empty_folder(""));
}

#[test]
fn remaining_extensions_are_grouped_too() {
    for ext in ["wmv", "flv", "flac", "ogg", "m4a", "rmvb"] {
        assert_eq!(classify_file_by_ext(ext), IMAGE_VIDEO_CATEGORY, "ext={ext}");
    }
    // extensions are expected lower-cased
    assert_eq!(classify_file_by_ext("JPG"), FILE_CATEGORY);
}

#[test]
fn launcher_content_ignores_case_and_keeps_table_order() {
    assert_eq!(
        classify_launcher_content("[Desktop Entry]\nIcon=FIREFOX\n"),
        Some("浏览器".into())
    );
    // "computer" comes before "firefox" in the table
    assert_eq!(
        classify_launcher_content("Icon=firefox\nComment=computer"),
        Some("我的电脑".into())
    );
    assert_eq!(classify_launcher_content("Exec=gedit %U"), Some("文本编辑".into()));
}

#[test]
fn desktop_item_classification_from_parts() {
    // directories
    assert_eq!(classify_desktop_item("项目资料", "/d/项目资料", true, None), FOLDER_CATEGORY);
    assert_eq!(classify_desktop_item("旅行照片", "/d/旅行照片", true, None), IMAGE_VIDEO_CATEGORY);
    // plain files by extension of the path, ignoring case
    assert_eq!(classify_desktop_item("notes.txt", "/d/notes.txt", false, None), FILE_CATEGORY);
    assert_eq!(classify_desktop_item("release.zip", "/d/release.zip", false, None), ARCHIVE_CATEGORY);
    assert_eq!(classify_desktop_item("Holiday.JPG", "/d/Holiday.JPG", false, None), IMAGE_VIDEO_CATEGORY);
    assert_eq!(classify_desktop_item("README", "/d/README", false, None), FILE_CATEGORY);
    // launchers
    assert_eq!(
        classify_desktop_item("firefox.desktop", "/d/firefox.desktop", false, Some("[Desktop Entry]\nIcon=firefox\n")),
        "浏览器"
    );
    assert_eq!(
        classify_desktop_item("tool.desktop", "/d/tool.desktop", false, Some("[Desktop Entry]\nExec=tool\n")),
        "应用"
    );
    assert_eq!(classify_desktop_item("tool.desktop", "/d/tool.desktop", false, None), "应用");
    // special names win over everything, ignoring case
    assert_eq!(classify_desktop_item("Computer", "/d/Computer", true, None), "我的电脑");
    assert_eq!(classify_desktop_item("回收站", "/d/回收站", true, None), "回收站");
}

#[test]
fn classify_handles_mixed_case_and_special_names() {
    let cat = classify_desktop_item("Computer", "/tmp/desk/Computer", true, None);
    assert_eq!(cat, "我的电脑");
}

#[test]
fn launcher_keywords_come_before_category_names() {
    assert_eq!(classify_launcher_content("我的电脑firefox"), Some("浏览器".into()));
    assert_eq!(classify_launcher_content("Icon=Firefox-Settings"), Some("浏览器".into()));
    assert_eq!(classify_launcher_content("Name=微信\nComment=回收站"), Some("回收站".into()));
    assert_eq!(classify_launcher_content("Name=音乐播放"), Some("音乐".into()));
}
