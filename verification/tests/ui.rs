use kylin_desktop_organizer::domain::config::{BoxStyle, Theme};
use kylin_desktop_organizer::ui::desktop_icon::short_name;
use kylin_desktop_organizer::ui::icon_surface::{icon_names_for, launcher_icon};
use kylin_desktop_organizer::ui::settings::{
    box_style_choice, box_style_for_choice, icon_size_choice, icon_size_for_choice, theme_choice,
    theme_for_choice,
};

#[test]
fn short_name_strips_desktop_suffix() {
    assert_eq!(short_name("/home/u/Desktop/firefox.desktop"), "firefox");
    assert_eq!(short_name("/home/u/Desktop/notes.txt"), "notes.txt");
    assert_eq!(short_name("/a/b"), "b");
    assert_eq!(short_name(""), "");
}

#[test]
fn short_name_edge_cases() {
    assert_eq!(short_name(".desktop"), "");
    assert_eq!(short_name("/a/dir/"), "");
    assert_eq!(short_name("plain"), "plain");
}

#[test]
fn launcher_icon_line() {
    assert_eq!(launcher_icon("[Desktop Entry]\nIcon=firefox\n"), Some("firefox".to_string()));
    assert_eq!(launcher_icon("Icon=\n  Icon=vlc  \r\nIcon=x"), Some("vlc".to_string()));
    assert_eq!(launcher_icon("Name=x\nExec=y"), None);
    assert_eq!(launcher_icon(""), None);
    assert_eq!(launcher_icon("Icon=a"), Some("a".to_string()));
}

fn names(v: Vec<String>) -> Vec<String> {
    v
}

#[test]
fn icon_names_by_kind() {
    assert_eq!(
        names(icon_names_for("/d/firefox.desktop", true, false, Some("Icon=firefox\n"))),
        vec!["firefox", "application-x-executable", "text-x-generic"]
    );
    assert_eq!(
        names(icon_names_for("/d/tool.desktop", true, false, None)),
        vec!["application-x-executable", "text-x-generic"]
    );
    assert_eq!(
        names(icon_names_for("/d/docs", false, true, None)),
        vec!["folder", "folder-symbolic", "inode-directory", "system-file-manager"]
    );
    assert_eq!(
        names(icon_names_for("/d/Pic.PNG", true, false, None)),
        vec!["image-x-generic", "image", "photo"]
    );
    assert_eq!(
        names(icon_names_for("/d/a.tar.gz", true, false, None)),
        vec!["package-x-generic", "application-x-archive", "archive"]
    );
    assert_eq!(
        names(icon_names_for("/d/x.deb", true, false, None)),
        vec!["package-x-generic", "application-x-archive"]
    );
    assert_eq!(
        names(icon_names_for("/d/README", true, false, None)),
        vec!["text-x-generic", "application-octet-stream"]
    );
}

#[test]
fn settings_choices_round_trip() {
    for t in [Theme::Light, Theme::Dark] {
        assert_eq!(Theme::parse(theme_for_choice(Some(theme_choice(t)))), t);
    }
    for b in [BoxStyle::Card, BoxStyle::Solid, BoxStyle::Plain] {
        assert_eq!(BoxStyle::parse(box_style_for_choice(Some(box_style_choice(b)))), b);
    }
    for s in [40, 48, 56] {
        assert_eq!(icon_size_for_choice(Some(icon_size_choice(s))), s);
    }
    assert_eq!(icon_size_choice(64), 1);
    assert_eq!(icon_size_for_choice(None), 48);
    assert_eq!(theme_for_choice(None), "light");
    assert_eq!(box_style_for_choice(Some(7)), "card");
}
