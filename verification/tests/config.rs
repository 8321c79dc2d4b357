use kylin_desktop_organizer::domain::config::{BoxState, BoxStyle, IconState, Preferences, Theme};
use kylin_desktop_organizer::domain::config_store::{ConfigStore, APP_ID};

#[test]
fn typed_theme_and_box_style() {
    assert_eq!(Theme::parse("dark"), Theme::Dark);
    assert_eq!(Theme::parse("light"), Theme::Light);
    assert_eq!(Theme::parse("unknown"), Theme::Light);
    assert_eq!(Theme::parse("").as_str(), "light");
    assert_eq!(Theme::parse("DARK"), Theme::Light);
    assert_eq!(Theme::Dark.as_str(), "dark");

    assert_eq!(BoxStyle::parse("solid"), BoxStyle::Solid);
    assert_eq!(BoxStyle::parse("plain"), BoxStyle::Plain);
    assert_eq!(BoxStyle::parse("card"), BoxStyle::Card);
    assert_eq!(BoxStyle::parse("whatever"), BoxStyle::Card);
    assert_eq!(BoxStyle::Solid.as_str(), "solid");

    let c = Preferences::default();
    assert_eq!(c.theme(), Theme::Light);
    assert_eq!(c.box_style(), BoxStyle::Card);
}

#[test]
fn preference_defaults_are_sane() {
    let c = Preferences::default();
    assert!(c.first_run);
    assert_eq!(c.icon_size, 48);
    assert_eq!(c.grid_gap, 10);
    assert!(c.double_click_organize);
    assert!(!c.auto_organize);
    assert!(c.show_files);
    assert!(c.show_desktop_icons);
    assert_eq!(c.theme, "light");
    assert_eq!(c.box_style, "card");
    assert_eq!(c.box_seq, 0);
}

#[test]
fn names_parse_back() {
    for t in [Theme::Light, Theme::Dark] {
        assert_eq!(Theme::parse(t.as_str()), t);
    }
    for b in [BoxStyle::Card, BoxStyle::Solid, BoxStyle::Plain] {
        assert_eq!(BoxStyle::parse(b.as_str()), b);
    }
}

#[test]
fn pid_path_is_under_config_dir() {
    let dir = std::path::PathBuf::from("/tmp/kylin-organizer-test");
    let store = ConfigStore::new(dir.to_str().unwrap().as_bytes().to_vec());
    assert_eq!(
        std::path::PathBuf::from(String::from_utf8(store.pid_path()).unwrap()),
        dir.join("app.pid")
    );
}

#[test]
fn store_paths_join_like_path_join() {
    let store = ConfigStore::new(b"/home/u/.config/kylin-desktop-organizer".to_vec());
    assert_eq!(store.config_dir(), b"/home/u/.config/kylin-desktop-organizer");
    assert_eq!(store.config_path(), b"/home/u/.config/kylin-desktop-organizer/config.json".to_vec());
    let trailing = ConfigStore::new(b"/cfg/".to_vec());
    assert_eq!(trailing.config_path(), b"/cfg/config.json".to_vec());
    let empty = ConfigStore::new(Vec::new());
    assert_eq!(empty.pid_path(), b"app.pid".to_vec());
    let base = ConfigStore::from_config_base(Some(b"/home/u/.config".to_vec()));
    assert_eq!(base.config_dir(), format!("/home/u/.config/{APP_ID}").as_bytes());
    let none = ConfigStore::from_config_base(None);
    assert_eq!(none.config_dir(), b"./.kylin-desktop-organizer");
}

#[test]
fn store_keeps_directories_that_are_not_text() {
    // a Latin-1 "é" (0xe9) is not valid UTF-8; the bytes are kept as they are
    let base = ConfigStore::from_config_base(Some(b"/home/caf\xe9/.config".to_vec()));
    assert_eq!(base.config_path(), b"/home/caf\xe9/.config/kylin-desktop-organizer/config.json".to_vec());
    assert!(String::from_utf8(base.config_path()).is_err());
}

#[test]
fn default_store_ends_with_app_id() {
    let store = ConfigStore::from_env();
    let dir = store.config_dir();
    assert!(dir.ends_with(b".kylin-desktop-organizer") || dir.ends_with(APP_ID.as_bytes()));
}

#[test]
fn states_compare_by_fields() {
    let a = IconState { path: "/d/a".into(), x: 1, y: 2 };
    let b = BoxState {
        id: "box-1".into(),
        title: "应用".into(),
        x: 5,
        y: 6,
        w: 300,
        h: 200,
        collapsed: false,
        color: Some("#ff0000".into()),
        icons: vec![a.clone()],
    };
    assert_eq!(b.clone(), b);
    assert_ne!(a, IconState { path: "/d/a".into(), x: 1, y: 3 });
}
