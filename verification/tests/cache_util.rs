use audioserve::audio_meta::AudioFolderInner;
use audioserve::cache::util::{kv_to_audiofolder, parent_path, split_path, update_path};
use audioserve::error::Error;
use audioserve::timestamp::TimeStamp;

#[test]
fn test_parent_path() {
    let p1 = "usak/kulisak";
    assert_eq!("usak", parent_path(p1));
    let p2 = "usak";
    assert_eq!("", parent_path(p2));
}

#[test]
fn moved_paths_keep_what_is_below() {
    assert_eq!(update_path("a/b", "c", "a/b/x/y").unwrap(), "c/x/y");
    assert_eq!(update_path("a/b", "c", "a/b").unwrap(), "c");
    assert_eq!(update_path("a/b", "c", "a/b/").unwrap(), "c");
    assert_eq!(update_path("", "c", "a/b").unwrap(), "c/a/b");
    assert_eq!(update_path("a", "", "a/b").unwrap(), "b");
    assert_eq!(update_path("c", "a/b", &update_path("a/b", "c", "a/b/x").unwrap()).unwrap(), "a/b/x");
    assert!(matches!(update_path("a", "c", "ab"), Err(Error::InvalidPath)));
}

#[test]
fn paths_are_split_at_the_last_separator() {
    assert_eq!(split_path("a/b/c.mp3"), ("a/b", "c.mp3"));
    assert_eq!(split_path("c.mp3"), ("", "c.mp3"));
    assert_eq!(split_path("a/"), ("a", ""));
    assert_eq!(split_path("/a"), ("", "a"));
    assert_eq!(split_path(""), ("", ""));
    assert_eq!(split_path("\u{e1}/\u{10d}"), ("\u{e1}", "\u{10d}"));
}

#[test]
fn rows_become_folders() {
    let f = AudioFolderInner {
        is_file: false,
        is_collapsed: false,
        modified: Some(TimeStamp::from(5u64)),
        total_time: None,
        files: vec![],
        subfolders: vec![],
        cover: None,
        description: None,
        tags: None,
    };
    let r = kv_to_audiofolder("a/b", Some(&f));
    assert_eq!((r.name.as_str(), r.path.as_str(), r.is_file, r.finished), ("b", "a/b", false, false));
    assert_eq!(r.modified.unwrap().as_millis(), 5);
    assert!(kv_to_audiofolder("a/b", None).modified.is_none());
}
