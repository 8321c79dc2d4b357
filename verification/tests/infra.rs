use kylin_desktop_organizer::infra::autostart::{autostart_entry, autostart_path, autostart_path_in};
use kylin_desktop_organizer::infra::launch::{is_desktop_file, is_executable};
use kylin_desktop_organizer::infra::single_instance::{other_pid, parse_pid, pid_path};

#[test]
fn executable_and_desktop_detection() {
    assert!(is_executable("run.sh"));
    assert!(is_executable("install.run"));
    assert!(is_executable("foo.AppImage"));
    assert!(is_executable("app.desktop"));
    assert!(!is_executable("notes.txt"));
    assert!(!is_executable(""));
    assert!(is_desktop_file("/x/y.desktop"));
    assert!(!is_desktop_file("/x/y.txt"));
}

#[test]
fn executable_detection_ignores_case() {
    assert!(is_executable("SETUP.SH"));
    assert!(is_executable("tool.appimage"));
    assert!(!is_desktop_file("/x/y.DESKTOP"));
}

#[test]
fn pid_file_content_parses_like_str_parse() {
    assert_eq!(parse_pid("1234"), Some(1234));
    assert_eq!(parse_pid("  1234\n"), Some(1234));
    assert_eq!(parse_pid("+7"), Some(7));
    assert_eq!(parse_pid("4294967295"), Some(u32::MAX));
    assert_eq!(parse_pid("4294967296"), None);
    assert_eq!(parse_pid("-1"), None);
    assert_eq!(parse_pid("+"), None);
    assert_eq!(parse_pid(""), None);
    assert_eq!(parse_pid("12 34"), None);
    assert_eq!(parse_pid("\u{3000}42\u{a0}"), Some(42));
    for s in ["0", "99", " 5 ", "x", "007"] {
        assert_eq!(parse_pid(s), s.trim().parse::<u32>().ok(), "{s:?}");
    }
}

#[test]
fn other_instance_is_another_process() {
    assert_eq!(other_pid(None, 10), None);
    assert_eq!(other_pid(Some("10\n"), 10), None);
    assert_eq!(other_pid(Some("11\n"), 10), Some(11));
    assert_eq!(other_pid(Some("garbage"), 10), None);
}

#[test]
fn pid_file_lives_in_the_config_store() {
    assert!(pid_path().ends_with(b"kylin-desktop-organizer/app.pid"));
}

#[test]
fn autostart_entry_location_and_text() {
    assert_eq!(
        autostart_path_in(Some(b"/home/u/.config".to_vec())),
        b"/home/u/.config/autostart/kylin-desktop-organizer.desktop".to_vec()
    );
    assert_eq!(autostart_path_in(None), b"./autostart/kylin-desktop-organizer.desktop".to_vec());
    assert!(autostart_path().ends_with(b"/autostart/kylin-desktop-organizer.desktop"));
    let text = autostart_entry("/usr/bin/kdo");
    assert!(text.starts_with("[Desktop Entry]\nType=Application\n"));
    assert!(text.contains("\nExec=/usr/bin/kdo\n"));
    assert!(text.ends_with("X-GNOME-Autostart-enabled=true\n"));
}
