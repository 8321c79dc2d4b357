use kylin_desktop_organizer::paths::{join, join_bytes, last_segment_of, path_extension};

fn ext(p: &str) -> Option<String> {
    path_extension(p)
}

#[test]
fn extension_follows_the_file_name() {
    assert_eq!(ext("/d/notes.txt"), Some("txt".to_string()));
    assert_eq!(ext("/d/b.tar.gz"), Some("gz".to_string()));
    assert_eq!(ext("/d/.bashrc"), None);
    assert_eq!(ext("/d/.config.json"), Some("json".to_string()));
    assert_eq!(ext("/d/README"), None);
    assert_eq!(ext("/d/b."), Some(String::new()));
    assert_eq!(ext("..."), Some(String::new()));
    assert_eq!(ext("/d/b.c/"), Some("c".to_string()));
    assert_eq!(ext("/d/b.c/."), Some("c".to_string()));
    assert_eq!(ext("/d/b.c//./"), Some("c".to_string()));
    assert_eq!(ext("/d/x.y/.."), None);
    assert_eq!(ext("."), None);
    assert_eq!(ext("./"), None);
    assert_eq!(ext("/"), None);
    assert_eq!(ext(""), None);
}

#[test]
fn joining_and_last_components() {
    assert_eq!(join("/a", "b"), "/a/b");
    assert_eq!(join("/a/", "b"), "/a/b");
    assert_eq!(join("", "b"), "b");
    assert_eq!(join("/a", "/b"), "/b");
    assert_eq!(join_bytes(b"/a", b"b"), b"/a/b".to_vec());
    assert_eq!(join_bytes(b"/a/", b"/b"), b"/b".to_vec());
    assert_eq!(last_segment_of("/a/b.txt"), "b.txt");
    assert_eq!(last_segment_of("plain"), "plain");
    assert_eq!(last_segment_of("/a/"), "");
}
