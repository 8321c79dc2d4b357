//! Classification rules for desktop entries: "My Computer", "Recycle Bin",
//! applications, folders, plain files, images/videos and archives.
//!
//! The rules are pure functions of names and contents; reading the file
//! system (is it a directory, what does a launcher file hold) is left to
//! the caller, who hands the answers in as plain values.
use vstd::prelude::*;
use crate::paths::{path_extension, path_extension_of};
use crate::text::{
    contains, ends_with, lowercase_of, seq_contains, seq_ends_with, str_eq, to_lowercase,
};

verus! {

/// Category of folders.
pub const FOLDER_CATEGORY: &'static str = "文件夹";

/// Category of plain files.
pub const FILE_CATEGORY: &'static str = "文件";

/// Category of pictures and videos.
pub const IMAGE_VIDEO_CATEGORY: &'static str = "图片视频";

/// Category of archives.
pub const ARCHIVE_CATEGORY: &'static str = "压缩包";

/// Category of launchers that match no keyword.
pub const APP_CATEGORY: &'static str = "应用";

/// Category of "My Computer".
pub const COMPUTER_CATEGORY: &'static str = "我的电脑";

/// Category of the recycle bin.
pub const TRASH_CATEGORY: &'static str = "回收站";

/// Category of everything else.
pub const OTHER_CATEGORY: &'static str = "其他";

/// The launcher keyword table: (keyword, category), searched in order.
pub open spec fn app_keyword_table() -> Seq<(Seq<char>, Seq<char>)> {
    seq![
        ("computer"@, "我的电脑"@),
        ("computer-symbolic"@, "我的电脑"@),
        ("computer.svg"@, "我的电脑"@),
        ("pc"@, "我的电脑"@),
        ("trash"@, "回收站"@),
        ("user-trash"@, "回收站"@),
        ("firefox"@, "浏览器"@),
        ("browser"@, "浏览器"@),
        ("chromium"@, "浏览器"@),
        ("word"@, "WPS办公"@),
        ("wps"@, "WPS办公"@),
        ("et"@, "WPS办公"@),
        ("wpp"@, "WPS办公"@),
        ("calc"@, "计算器"@),
        ("calculator"@, "计算器"@),
        ("terminal"@, "终端"@),
        ("konsole"@, "终端"@),
        ("system-file-manager"@, "文件管理器"@),
        ("file-manager"@, "文件管理器"@),
        ("folder"@, "文件管理器"@),
        ("weixin"@, "微信"@),
        ("wechat"@, "微信"@),
        ("qq"@, "QQ"@),
        ("music"@, "音乐"@),
        ("audacious"@, "音乐"@),
        ("video"@, "视频"@),
        ("vlc"@, "视频"@),
        ("image"@, "图片"@),
        ("photo"@, "图片"@),
        ("gimp"@, "图片"@),
        ("pdf"@, "PDF阅读"@),
        ("document"@, "文档"@),
        ("text-editor"@, "文本编辑"@),
        ("gedit"@, "文本编辑"@),
        ("editor"@, "文本编辑"@),
        ("settings"@, "系统设置"@),
        ("control-center"@, "系统设置"@),
        ("preferences"@, "系统设置"@),
    ]
}

/// The launcher keyword table of desktop icons common on UKUI desktops.
pub fn app_keywords() -> (v: Vec<(&'static str, &'static str)>)
    ensures
        v@.len() == app_keyword_table().len(),
        forall|i: int|
            0 <= i < v@.len() ==> (#[trigger] v@[i]).0@ == app_keyword_table()[i].0
                && v@[i].1@ == app_keyword_table()[i].1,
{
    vec![
        ("computer", "我的电脑"),
        ("computer-symbolic", "我的电脑"),
        ("computer.svg", "我的电脑"),
        ("pc", "我的电脑"),
        ("trash", "回收站"),
        ("user-trash", "回收站"),
        ("firefox", "浏览器"),
        ("browser", "浏览器"),
        ("chromium", "浏览器"),
        ("word", "WPS办公"),
        ("wps", "WPS办公"),
        ("et", "WPS办公"),
        ("wpp", "WPS办公"),
        ("calc", "计算器"),
        ("calculator", "计算器"),
        ("terminal", "终端"),
        ("konsole", "终端"),
        ("system-file-manager", "文件管理器"),
        ("file-manager", "文件管理器"),
        ("folder", "文件管理器"),
        ("weixin", "微信"),
        ("wechat", "微信"),
        ("qq", "QQ"),
        ("music", "音乐"),
        ("audacious", "音乐"),
        ("video", "视频"),
        ("vlc", "视频"),
        ("image", "图片"),
        ("photo", "图片"),
        ("gimp", "图片"),
        ("pdf", "PDF阅读"),
        ("document", "文档"),
        ("text-editor", "文本编辑"),
        ("gedit", "文本编辑"),
        ("editor", "文本编辑"),
        ("settings", "系统设置"),
        ("control-center", "系统设置"),
        ("preferences", "系统设置"),
    ]
}

/// The order in which the organize boxes are laid out.
pub open spec fn category_order() -> Seq<Seq<char>> {
    seq!["我的电脑"@, "回收站"@, "应用"@, "文件夹"@, "文件"@, "图片视频"@, "压缩包"@, "其他"@]
}

/// The order in which the organize boxes are laid out.
pub fn category_order_list() -> (v: Vec<&'static str>)
    ensures
        v@.len() == category_order().len(),
        forall|i: int| 0 <= i < v@.len() ==> (#[trigger] v@[i])@ == category_order()[i],
{
    vec!["我的电脑", "回收站", "应用", "文件夹", "文件", "图片视频", "压缩包", "其他"]
}

/// Special icon of an already lower-cased name: "My Computer" or the recycle bin.
pub open spec fn special_category(lower: Seq<char>) -> Option<Seq<char>> {
    if seq_contains(lower, "computer"@) || seq_contains(lower, "我的电脑"@) || seq_contains(
        lower,
        "mycomputer"@,
    ) || lower == "电脑"@ {
        Some("我的电脑"@)
    } else if seq_contains(lower, "trash"@) || seq_contains(lower, "回收站"@) || seq_contains(
        lower,
        "recycle"@,
    ) {
        Some("回收站"@)
    } else {
        None
    }
}

/// Image/video or archive group of an already lower-cased directory name.
pub open spec fn dir_category(lower: Seq<char>) -> Option<Seq<char>> {
    if seq_contains(lower, "图片"@) || seq_contains(lower, "照片"@) || seq_contains(lower, "截图"@)
        || seq_contains(lower, "pic"@) || seq_contains(lower, "photo"@) {
        Some("图片视频"@)
    } else if seq_contains(lower, "压缩"@) || seq_contains(lower, "backup"@) || seq_contains(
        lower,
        "备份"@,
    ) {
        Some("压缩包"@)
    } else {
        None
    }
}

/// Extensions of pictures, videos and audio.
pub open spec fn image_video_exts() -> Seq<Seq<char>> {
    seq![
        "jpg"@, "jpeg"@, "png"@, "gif"@, "bmp"@, "svg"@, "webp"@, "ico"@, "tif"@, "tiff"@,
        "mp4"@, "avi"@, "mkv"@, "mov"@, "wmv"@, "flv"@, "mp3"@, "wav"@, "flac"@, "ogg"@,
        "m4a"@, "rmvb"@,
    ]
}

/// Extensions of archives and packages.
pub open spec fn archive_exts() -> Seq<Seq<char>> {
    seq!["zip"@, "rar"@, "7z"@, "tar"@, "gz"@, "bz2"@, "xz"@, "iso"@, "tgz"@, "deb"@, "rpm"@]
}

/// Category of a plain file by its (lower-cased) extension.
pub open spec fn file_category(ext: Seq<char>) -> Seq<char> {
    if image_video_exts().contains(ext) {
        "图片视频"@
    } else if archive_exts().contains(ext) {
        "压缩包"@
    } else {
        "文件"@
    }
}

/// Whether a keyword-table entry matches lower-cased launcher content: by
/// its keyword, or (with `by_category`) by its category name.
pub open spec fn keyword_entry_matches(lower: Seq<char>, entry: (Seq<char>, Seq<char>), by_category: bool) -> bool {
    if by_category {
        seq_contains(lower, entry.1)
    } else {
        seq_contains(lower, entry.0)
    }
}

/// Category of the first table entry that matches the content, if any.
pub open spec fn first_keyword_match(
    lower: Seq<char>,
    table: Seq<(Seq<char>, Seq<char>)>,
    by_category: bool,
) -> Option<Seq<char>>
    decreases table.len(),
{
    if table.len() == 0 {
        None
    } else if keyword_entry_matches(lower, table[0], by_category) {
        Some(table[0].1)
    } else {
        first_keyword_match(lower, table.drop_first(), by_category)
    }
}

/// Category of lower-cased launcher content: the category of the first
/// keyword (in table order) that occurs in it; only when no keyword occurs,
/// the first category name (in table order) that occurs in it.
pub open spec fn launcher_category(lower: Seq<char>) -> Option<Seq<char>> {
    match first_keyword_match(lower, app_keyword_table(), false) {
        Some(c) => Some(c),
        None => first_keyword_match(lower, app_keyword_table(), true),
    }
}

/// The view of an optional string.
pub open spec fn opt_view(o: Option<String>) -> Option<Seq<char>> {
    match o {
        Some(s) => Some(s@),
        None => None,
    }
}

/// The view of an optional static string.
pub open spec fn opt_str_view(o: Option<&str>) -> Option<Seq<char>> {
    match o {
        Some(s) => Some(s@),
        None => None,
    }
}

/// Whether `s` is one of the strings of `list`.
pub fn str_in_list(s: &str, list: &Vec<&'static str>) -> (r: bool)
    ensures
        r == exists|i: int| 0 <= i < list@.len() && (#[trigger] list@[i])@ == s@,
{
    let mut i: usize = 0;
    while i < list.len()
        invariant
            i <= list.len(),
            forall|k: int| 0 <= k < i ==> (#[trigger] list@[k])@ != s@,
        decreases list.len() - i,
    {
        if str_eq(list[i], s) {
            return true;
        }
        i += 1;
    }
    false
}

/// Special icon of an already lower-cased name ("My Computer" / recycle bin).
pub fn classify_special_lower(lower: &str) -> (r: Option<&'static str>)
    ensures
        opt_str_view(r) == special_category(lower@),
{
    if contains(lower, "computer") || contains(lower, "我的电脑") || contains(lower, "mycomputer")
        || str_eq(lower, "电脑") {
        return Some("我的电脑");
    }
    if contains(lower, "trash") || contains(lower, "回收站") || contains(lower, "recycle") {
        return Some("回收站");
    }
    None
}

/// Special icon of a file name, ignoring case: "My Computer" or the recycle bin.
pub fn classify_special_name(name: &str) -> (r: Option<&'static str>)
    ensures
        opt_str_view(r) == special_category(lowercase_of(name@)),
{
    let lower = to_lowercase(name);
    classify_special_lower(lower.as_str())
}

/// Image/video or archive group of a directory by its lower-cased name.
pub fn classify_dir_name(lower: &str) -> (r: Option<&'static str>)
    ensures
        opt_str_view(r) == dir_category(lower@),
{
    if contains(lower, "图片") || contains(lower, "照片") || contains(lower, "截图") || contains(
        lower,
        "pic",
    ) || contains(lower, "photo") {
        return Some(IMAGE_VIDEO_CATEGORY);
    }
    if contains(lower, "压缩") || contains(lower, "backup") || contains(lower, "备份") {
        return Some(ARCHIVE_CATEGORY);
    }
    None
}

/// Category of a plain file by its extension (already lower-cased).
pub fn classify_file_by_ext(ext: &str) -> (r: &'static str)
    ensures
        r@ == file_category(ext@),
{
    let images = vec![
        "jpg", "jpeg", "png", "gif", "bmp", "svg", "webp", "ico", "tif", "tiff", "mp4", "avi",
        "mkv", "mov", "wmv", "flv", "mp3", "wav", "flac", "ogg", "m4a", "rmvb",
    ];
    let archives = vec!["zip", "rar", "7z", "tar", "gz", "bz2", "xz", "iso", "tgz", "deb", "rpm"];
    assert(images@.map_values(|s: &str| s@) =~= image_video_exts());
    assert(archives@.map_values(|s: &str| s@) =~= archive_exts());
    if str_in_list(ext, &images) {
        proof {
            let i = choose|i: int| 0 <= i < images@.len() && (#[trigger] images@[i])@ == ext@;
            assert(images@.map_values(|s: &str| s@)[i] == ext@);
        }
        IMAGE_VIDEO_CATEGORY
    } else if str_in_list(ext, &archives) {
        proof {
            let i = choose|i: int| 0 <= i < archives@.len() && (#[trigger] archives@[i])@ == ext@;
            assert(archives@.map_values(|s: &str| s@)[i] == ext@);
            assert forall|k: int| 0 <= k < image_video_exts().len() implies image_video_exts()[k]
                != ext@ by {
                assert(images@.map_values(|s: &str| s@)[k] == images@[k]@);
            }
        }
        ARCHIVE_CATEGORY
    } else {
        proof {
            assert forall|k: int| 0 <= k < image_video_exts().len() implies image_video_exts()[k]
                != ext@ by {
                assert(images@.map_values(|s: &str| s@)[k] == images@[k]@);
            }
            assert forall|k: int| 0 <= k < archive_exts().len() implies archive_exts()[k]
                != ext@ by {
                assert(archives@.map_values(|s: &str| s@)[k] == archives@[k]@);
            }
        }
        FILE_CATEGORY
    }
}

/// The category of the first keyword-table entry whose keyword (or, with
/// `by_category`, whose category name) occurs in `lower`.
fn first_table_match(lower: &str, by_category: bool) -> (r: Option<String>)
    ensures
        opt_view(r) == first_keyword_match(lower@, app_keyword_table(), by_category),
{
    let table = app_keywords();
    assert(app_keyword_table().skip(0) =~= app_keyword_table());
    let mut i: usize = 0;
    while i < table.len()
        invariant
            i <= table@.len(),
            table@.len() == app_keyword_table().len(),
            forall|k: int|
                0 <= k < table@.len() ==> (#[trigger] table@[k]).0@ == app_keyword_table()[k].0
                    && table@[k].1@ == app_keyword_table()[k].1,
            first_keyword_match(lower@, app_keyword_table(), by_category) == first_keyword_match(
                lower@,
                app_keyword_table().skip(i as int),
                by_category,
            ),
        decreases table.len() - i,
    {
        let (kw, cat) = table[i];
        assert(app_keyword_table().skip(i as int)[0] == app_keyword_table()[i as int]);
        assert(app_keyword_table().skip(i as int).drop_first() =~= app_keyword_table().skip(
            i + 1,
        ));
        let hit = if by_category {
            contains(lower, cat)
        } else {
            contains(lower, kw)
        };
        if hit {
            return Some(String::from_str(cat));
        }
        i += 1;
    }
    None
}

/// Category named by already lower-cased launcher (`.desktop`) content:
/// the first keyword of the table that occurs in it, else the first
/// category name of the table that occurs in it.
pub fn classify_launcher_lower(lower: &str) -> (r: Option<String>)
    ensures
        opt_view(r) == launcher_category(lower@),
{
    match first_table_match(lower, false) {
        Some(c) => Some(c),
        None => first_table_match(lower, true),
    }
}

/// Category named by launcher (`.desktop`) content, ignoring case:
/// the first keyword of the table that occurs in it, else the first
/// category name of the table that occurs in it.
pub fn classify_launcher_content(content: &str) -> (r: Option<String>)
    ensures
        opt_view(r) == launcher_category(lowercase_of(content@)),
{
    let lower = to_lowercase(content);
    classify_launcher_lower(lower.as_str())
}

/// Groups whose title names an "empty" holder (folders, everything else).
pub fn is_empty_folder(name: &str) -> (r: bool)
    ensures
        r == (name@ == "文件夹"@ || name@ == "其他"@),
{
    str_eq(name, FOLDER_CATEGORY) || str_eq(name, OTHER_CATEGORY)
}

/// Category of a desktop entry from its parts: the lower-cased file name,
/// the file name, whether it is a directory, the lower-cased content of a
/// launcher (`None` when unreadable) and the lower-cased extension.
pub open spec fn desktop_item_category(
    lower_name: Seq<char>,
    file_name: Seq<char>,
    is_dir: bool,
    launcher_lower: Option<Seq<char>>,
    ext_lower: Seq<char>,
) -> Seq<char> {
    match special_category(lower_name) {
        Some(c) => c,
        None => if seq_ends_with(file_name, ".desktop"@) {
            match launcher_lower {
                Some(l) => match launcher_category(l) {
                    Some(c) => c,
                    None => "应用"@,
                },
                None => "应用"@,
            }
        } else if is_dir {
            match dir_category(lower_name) {
                Some(c) => c,
                None => "文件夹"@,
            }
        } else {
            file_category(ext_lower)
        },
    }
}

/// The extension text, empty when there is none.
pub open spec fn ext_or_empty(e: Option<Seq<char>>) -> Seq<char> {
    match e {
        Some(x) => x,
        None => seq![],
    }
}

/// Category of a desktop entry from its lower-cased parts: special icons
/// first, then launchers (by keyword, else "应用"), directories (by name,
/// else "文件夹") and plain files by extension.
pub fn classify_desktop_parts(
    lower_name: &str,
    file_name: &str,
    is_dir: bool,
    launcher_lower: Option<&str>,
    ext_lower: &str,
) -> (r: String)
    ensures
        r@ == desktop_item_category(lower_name@, file_name@, is_dir, opt_str_view(launcher_lower), ext_lower@),
{
    if let Some(cat) = classify_special_lower(lower_name) {
        return String::from_str(cat);
    }
    if ends_with(file_name, ".desktop") {
        if let Some(l) = launcher_lower {
            if let Some(cat) = classify_launcher_lower(l) {
                return cat;
            }
        }
        return String::from_str(APP_CATEGORY);
    }
    if is_dir {
        if let Some(cat) = classify_dir_name(lower_name) {
            return String::from_str(cat);
        }
        return String::from_str(FOLDER_CATEGORY);
    }
    String::from_str(classify_file_by_ext(ext_lower))
}

/// Category of a desktop entry. The caller tells whether `path` is a
/// directory and hands in the launcher's content when `file_name` ends with
/// `.desktop` (`None` when it could not be read). Names and contents are
/// compared without case; plain files go by the extension of `path`.
pub fn classify_desktop_item(file_name: &str, path: &str, is_dir: bool, launcher_content: Option<&str>) -> (r: String)
    ensures
        r@ == desktop_item_category(
            lowercase_of(file_name@),
            file_name@,
            is_dir,
            match launcher_content {
                Some(c) => Some(lowercase_of(c@)),
                None => None,
            },
            lowercase_of(ext_or_empty(path_extension_of(path@))),
        ),
        is_dir && no_special_keyword(lowercase_of(file_name@)) && !seq_ends_with(file_name@, ".desktop"@)
            ==> r@ == match dir_category(lowercase_of(file_name@)) {
            Some(c) => c,
            None => "文件夹"@,
        },
{
    let lower = to_lowercase(file_name);
    let launcher_lower: Option<String> = match launcher_content {
        Some(c) => Some(to_lowercase(c)),
        None => None,
    };
    let ext = match path_extension(path) {
        Some(e) => e,
        None => String::new(),
    };
    let ext_lower = to_lowercase(ext.as_str());
    let ll: Option<&str> = match &launcher_lower {
        Some(l) => Some(l.as_str()),
        None => None,
    };
    classify_desktop_parts(lower.as_str(), file_name, is_dir, ll, ext_lower.as_str())
}

/// The lower-cased name holds no special-icon keyword.
pub open spec fn no_special_keyword(lower: Seq<char>) -> bool {
    &&& !seq_contains(lower, "computer"@)
    &&& !seq_contains(lower, "我的电脑"@)
    &&& !seq_contains(lower, "mycomputer"@)
    &&& lower != "电脑"@
    &&& !seq_contains(lower, "trash"@)
    &&& !seq_contains(lower, "回收站"@)
    &&& !seq_contains(lower, "recycle"@)
}

/// Law: classification ignores the case of the name. A name whose
/// lower-cased form holds "computer", "我的电脑" or "mycomputer" (or is
/// "电脑") is "My Computer"; else one holding "trash", "回收站" or "recycle"
/// is the recycle bin. Otherwise a directory (not named `*.desktop`) goes
/// by its lower-cased name: "图片", "照片", "截图", "pic" or "photo" gives
/// 图片视频; else "压缩", "backup" or "备份" gives 压缩包; else 文件夹.
pub proof fn lemma_desktop_item_rules(
    file_name: Seq<char>,
    is_dir: bool,
    launcher_lower: Option<Seq<char>>,
    ext_lower: Seq<char>,
)
    ensures
        ({
            let lower = lowercase_of(file_name);
            let r = desktop_item_category(lower, file_name, is_dir, launcher_lower, ext_lower);
            let image = seq_contains(lower, "图片"@) || seq_contains(lower, "照片"@) || seq_contains(lower, "截图"@)
                || seq_contains(lower, "pic"@) || seq_contains(lower, "photo"@);
            let archive = seq_contains(lower, "压缩"@) || seq_contains(lower, "backup"@) || seq_contains(lower, "备份"@);
            let plain_dir = is_dir && no_special_keyword(lower) && !seq_ends_with(file_name, ".desktop"@);
            &&& (seq_contains(lower, "computer"@) || seq_contains(lower, "我的电脑"@) || seq_contains(lower, "mycomputer"@)
                || lower == "电脑"@) ==> r == "我的电脑"@
            &&& (!(seq_contains(lower, "computer"@) || seq_contains(lower, "我的电脑"@) || seq_contains(lower, "mycomputer"@)
                || lower == "电脑"@) && (seq_contains(lower, "trash"@) || seq_contains(lower, "回收站"@) || seq_contains(
                lower,
                "recycle"@,
            ))) ==> r == "回收站"@
            &&& (plain_dir && image) ==> r == "图片视频"@
            &&& (plain_dir && !image && archive) ==> r == "压缩包"@
            &&& (plain_dir && !image && !archive) ==> r == "文件夹"@
        }),
{
}

} // verus!
