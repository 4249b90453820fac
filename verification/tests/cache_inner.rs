use audioserve::audio_meta::{AudioFileInner, AudioFolderInner, AudioFolderShort, AudioMeta, TypedFile};
use audioserve::cache::inner::CacheInner;
use audioserve::cache::positions::{BackupRecord, FolderFacts};
use audioserve::error::Error;
use audioserve::position::{Offset, PositionFilter, PositionItem};
use audioserve::timestamp::TimeStamp;
use dashmap::DashMap;

fn offset(seconds: u32) -> Offset {
    Offset { bits: (seconds as f32).to_bits(), seconds }
}

fn file(path: &str, duration: Option<u32>) -> AudioFileInner {
    AudioFileInner {
        id: 1,
        name: path.rsplit('/').next().unwrap().to_string(),
        path: path.to_string(),
        meta: duration.map(|duration| AudioMeta { duration, bitrate: 128, tags: None }),
        mime: "audio/mpeg".to_string(),
        section: None,
    }
}

fn folder(files: Vec<AudioFileInner>, subfolders: Vec<AudioFolderShort>) -> AudioFolderInner {
    AudioFolderInner {
        is_file: false,
        is_collapsed: false,
        modified: Some(TimeStamp::from(1000u64)),
        total_time: None,
        files,
        subfolders,
        cover: None,
        description: None,
        tags: None,
    }
}

fn cache() -> CacheInner {
    let mut c = CacheInner::new("/music".to_string(), false, 2, DashMap::new());
    c.update("author", folder(vec![], vec![AudioFolderShort::from_path_and_name(
        "book".to_string(),
        "author/book".to_string(),
        false,
    )]));
    c.update(
        "author/book",
        folder(vec![file("author/book/one.mp3", Some(60)), file("author/book/two.mp3", Some(100))], vec![]),
    );
    c.update("author2", folder(vec![file("author2/x.mp3", None)], vec![]));
    c
}

fn insert(c: &mut CacheInner, group: &str, path: &str, secs: u32, ts: u64) -> Result<(), Error> {
    c.insert_position(group, path, offset(secs), false, Some(TimeStamp::from(ts)), true)
}

#[test]
fn folders_are_stored_and_numbered() {
    let c = cache();
    assert_eq!(c.dir_count(), 3);
    assert_eq!(c.path_by_index(1).unwrap(), "author/book");
    assert!(c.path_by_index(3).is_none());
    assert!(c.has_key("author"));
    assert!(!c.has_key("auth"));
    assert_eq!(c.full_path("author"), "/music/author");
    assert_eq!(c.strip_base("/music/author/book"), "author/book");
    assert_eq!(c.base_dir(), "/music");
    assert_eq!(c.get_last_file("author/book"), Some(("two.mp3".to_string(), Some(100))));
    assert_eq!(c.get_last_file("author"), None);
    assert_eq!(c.get_last_file("nowhere"), None);
}

#[test]
fn every_number_below_the_count_leads_to_a_folder() {
    let mut c = cache();
    c.update("author", folder(vec![], vec![]));
    assert_eq!(c.dir_count(), 4);
    assert!((0..c.dir_count()).all(|i| c.path_by_index(i).is_some()));
    assert_eq!(c.path_by_index(0), c.path_by_index(3));
}

#[test]
fn only_actual_folders_are_given() {
    let c = cache();
    let at = |n: u64| Some(TimeStamp::from(n));
    assert!(c.get_if_actual("author", at(1000)).is_some());
    assert!(c.get_if_actual("author", at(999)).is_some());
    assert!(c.get_if_actual("author", at(1001)).is_none());
    assert!(c.get_if_actual("author", None).is_none());
    assert!(c.get_if_actual("nowhere", at(0)).is_none());
}

#[test]
fn stored_positions_are_read_back() {
    let mut c = cache();
    insert(&mut c, "g", "author/book/one.mp3", 12, 500).unwrap();
    let p = c.get_position("g", Some("author/book")).unwrap();
    assert_eq!(p.file, "one.mp3");
    assert_eq!(p.folder, "author/book");
    assert_eq!(p.timestamp.as_millis(), 500);
    assert_eq!(p.position, offset(12));
    assert_eq!(p.collection, 0);
    assert!(!p.folder_finished);
    assert_eq!(c.get_position("g", None).unwrap().file, "one.mp3");
    assert!(c.get_position("h", None).is_none());
    assert!(c.get_position("g", Some("author2")).is_none());
}

#[test]
fn older_positions_are_ignored() {
    let mut c = cache();
    insert(&mut c, "g", "author/book/one.mp3", 12, 500).unwrap();
    assert!(matches!(insert(&mut c, "g", "author/book/one.mp3", 1, 499), Err(Error::IgnoredPosition)));
    assert_eq!(c.get_position("g", None).unwrap().position, offset(12));
    insert(&mut c, "g", "author/book/one.mp3", 1, 500).unwrap();
    assert_eq!(c.get_position("g", None).unwrap().position, offset(1));
    assert!(matches!(insert(&mut c, "g", "nowhere/one.mp3", 1, 1), Err(Error::IgnoredPosition)));
    assert!(matches!(insert(&mut c, "g", "author/x.mp3", 1, 1), Err(Error::IgnoredPosition)));
}

#[test]
fn groups_are_limited() {
    let mut c = cache();
    insert(&mut c, "a", "author/book/one.mp3", 1, 1).unwrap();
    insert(&mut c, "b", "author/book/one.mp3", 1, 1).unwrap();
    assert!(matches!(insert(&mut c, "c", "author/book/one.mp3", 1, 1), Err(Error::TooManyGroups)));
    insert(&mut c, "b", "author/book/one.mp3", 2, 2).unwrap();
    insert(&mut c, "c", "author2/x.mp3", 2, 2).unwrap();
}

#[test]
fn the_end_of_the_last_file_finishes_a_folder() {
    let mut c = cache();
    insert(&mut c, "g", "author/book/two.mp3", 90, 1).unwrap();
    assert!(!c.is_finished("g", "author/book"));
    insert(&mut c, "g", "author/book/two.mp3", 91, 2).unwrap();
    assert!(c.is_finished("g", "author/book"));
    insert(&mut c, "g", "author/book/one.mp3", 59, 3).unwrap();
    assert!(!c.is_finished("g", "author/book"));
    insert(&mut c, "g", "author/book/two.mp3", 200, 4).unwrap();
    assert!(c.is_finished("g", "author/book"));
    c.insert_position("g", "author/book/one.mp3", offset(0), true, None, false).unwrap();
    assert!(c.is_finished("g", "author/book"));
    assert!(c.get_position("g", None).unwrap().timestamp.as_millis() > 1_600_000_000_000);
    let mut sf = vec![AudioFolderShort::from_path_and_name("b".to_string(), "author/book".to_string(), false)];
    c.update_subfolders("g", &mut sf);
    assert!(sf[0].finished);
    c.update_subfolders("h", &mut sf);
    assert!(!sf[0].finished);
}

#[test]
fn positions_are_listed_by_group_and_folder() {
    let mut c = cache();
    insert(&mut c, "g", "author2/x.mp3", 1, 1).unwrap();
    insert(&mut c, "g", "author/book/one.mp3", 2, 2).unwrap();
    insert(&mut c, "h", "author/book/one.mp3", 3, 3).unwrap();
    let mut all = Vec::new();
    c.get_all_positions_for_group("g", 7, &mut all);
    assert_eq!(all.iter().map(|p| p.folder.as_str()).collect::<Vec<_>>(), ["author/book", "author2"]);
    assert!(all.iter().all(|p| p.collection == 7));
    let mut some = Vec::new();
    c.get_positions_recursive("g", "author/", 1, &mut some);
    assert_eq!(some.len(), 1);
    assert_eq!(some[0].position, offset(2));
}

#[test]
fn removing_a_tree_goes_by_the_text_of_its_path() {
    let mut c = cache();
    insert(&mut c, "g", "author/book/one.mp3", 2, 2).unwrap();
    c.remove_tree("author/book");
    assert!(c.has_key("author") && !c.has_key("author/book"));
    assert!(c.get_position("g", Some("author/book")).is_none());
    c.remove_tree("author");
    assert!(!c.has_key("author2"));
    assert!(c.remove("author").is_none());
}

#[test]
fn renaming_moves_folders_and_what_they_refer_to() {
    let mut c = CacheInner::new("/music".to_string(), false, 5, DashMap::new());
    let mut f = folder(
        vec![file("a/b/one.mp3", Some(1))],
        vec![AudioFolderShort::from_path_and_name("c".to_string(), "a/b/c".to_string(), false)],
    );
    f.cover = Some(TypedFile::new("a/b/cover.jpg".to_string()));
    f.description = Some(TypedFile::new("a/b/about.txt".to_string()));
    c.update("a/b", f);
    c.update("a/b/c", folder(vec![file("a/b/c/two.mp3", Some(1))], vec![]));
    c.update("other", folder(vec![file("other/x.mp3", Some(1))], vec![]));
    insert(&mut c, "g", "a/b/c/two.mp3", 0, 5).unwrap();
    insert(&mut c, "h", "other/x.mp3", 0, 5).unwrap();
    let stamp = TimeStamp::from(77u64);
    c.update_recursive_after_rename("a/b", "z", Some(stamp)).unwrap();
    c.rename_positions("a/b", "z").unwrap();
    assert!(!c.has_key("a/b") && !c.has_key("a/b/c") && c.has_key("other"));
    let z = c.get("z").unwrap();
    assert_eq!(z.files[0].path, "z/one.mp3");
    assert_eq!(z.subfolders[0].path, "z/c");
    assert_eq!(z.cover.as_ref().unwrap().path, "z/cover.jpg");
    assert_eq!(z.cover.as_ref().unwrap().mime, "image/jpeg");
    assert_eq!(z.description.as_ref().unwrap().path, "z/about.txt");
    assert_eq!(z.modified.unwrap().as_millis(), 77);
    assert_eq!(c.get("z/c").unwrap().modified.unwrap().as_millis(), 1000);
    let p = c.get_position("g", None).unwrap();
    assert_eq!((p.folder.as_str(), p.file.as_str()), ("z/c", "two.mp3"));
    assert!(c.get_position("g", Some("a/b/c")).is_none());
    assert_eq!(c.get_position("h", None).unwrap().folder, "other");
}

#[test]
fn a_renaming_that_cannot_be_done_changes_nothing() {
    let mut c = cache();
    insert(&mut c, "g", "author2/x.mp3", 0, 5).unwrap();
    assert!(matches!(c.update_recursive_after_rename("author", "z", None), Err(Error::InvalidPath)));
    assert!(matches!(c.rename_positions("author", "z"), Err(Error::InvalidPath)));
    assert!(c.has_key("author") && c.has_key("author2") && !c.has_key("z"));
    assert_eq!(c.get_position("g", None).unwrap().folder, "author2");
}

#[test]
fn stale_folders_and_their_positions_are_cleaned_up() {
    let mut c = cache();
    insert(&mut c, "g", "author/book/one.mp3", 2, 2).unwrap();
    insert(&mut c, "g", "author2/x.mp3", 2, 2).unwrap();
    let keep = FolderFacts { exists: true, is_collapsable: false };
    let gone = FolderFacts { exists: false, is_collapsable: false };
    let merged = FolderFacts { exists: true, is_collapsable: true };
    c.clean_up_folders(&vec![keep, gone, merged]);
    assert!(c.has_key("author") && !c.has_key("author/book") && !c.has_key("author2"));
    assert!(c.get_position("g", Some("author2")).is_some());
    c.clean_up_positions();
    assert!(c.get_position("g", Some("author2")).is_none());
    assert!(c.get_position("g", Some("author/book")).is_none());
}

#[test]
fn backups_are_framed_line_by_line() {
    let mut c = cache();
    assert_eq!(c.write_json_positions(&vec![]), "{}");
    insert(&mut c, "g", "author/book/one.mp3", 2, 2).unwrap();
    insert(&mut c, "g", "author2/x.mp3", 2, 2).unwrap();
    let text = c.write_json_positions(&vec!["{\"a\":1}".to_string(), "{}".to_string()]);
    assert_eq!(text, "{\"author/book\":{\"a\":1},\n\"author2\":{}\n}");
}

fn item(file: &str, ts: u64) -> PositionItem {
    PositionItem {
        file: file.to_string(),
        timestamp: TimeStamp::from(ts),
        position: offset(3),
        folder_finished: false,
    }
}

#[test]
fn backups_are_restored() {
    let mut c = cache();
    insert(&mut c, "new", "author/book/one.mp3", 9, 100).unwrap();
    let data = vec![
        (
            "author/book".to_string(),
            BackupRecord::Object(vec![
                ("new".to_string(), Ok(item("two.mp3", 50))),
                ("old".to_string(), Ok(item("two.mp3", 60))),
            ]),
        ),
        ("lost".to_string(), BackupRecord::Object(vec![("old".to_string(), Ok(item("x", 1)))])),
    ];
    c.read_json_positions(&data).unwrap();
    assert_eq!(c.get_position("new", Some("author/book")).unwrap().file, "one.mp3");
    let p = c.get_position("old", Some("author/book")).unwrap();
    assert_eq!((p.file.as_str(), p.timestamp.as_millis()), ("two.mp3", 60));
}

#[test]
fn a_bad_backup_stops_where_it_is() {
    let mut c = cache();
    let data = vec![
        ("author2".to_string(), BackupRecord::Object(vec![("g".to_string(), Ok(item("x.mp3", 1)))])),
        ("odd".to_string(), BackupRecord::Other),
        ("author/book".to_string(), BackupRecord::Object(vec![("g".to_string(), Ok(item("one.mp3", 1)))])),
    ];
    match c.read_json_positions(&data) {
        Err(Error::JsonSchemaError(m)) => assert_eq!(m, "Expected object for key odd"),
        _ => panic!("should be refused"),
    }
    assert!(c.get_position("g", Some("author2")).is_some());
    assert!(c.get_position("g", Some("author/book")).is_none());
    let bad = vec![(
        "author/book".to_string(),
        BackupRecord::Object(vec![("g".to_string(), Err("no number".to_string()))]),
    )];
    assert!(matches!(c.read_json_positions(&bad), Err(Error::Json(m)) if m == "no number"));
    let many = vec![(
        "author/book".to_string(),
        BackupRecord::Object(vec![
            ("a".to_string(), Ok(item("one.mp3", 1))),
            ("b".to_string(), Ok(item("one.mp3", 1))),
            ("c".to_string(), Ok(item("one.mp3", 1))),
        ]),
    )];
    assert!(matches!(c.read_json_positions(&many), Err(Error::TooManyGroups)));
}

#[test]
fn the_first_failed_flush_is_reported() {
    assert!(CacheInner::flush(Ok(1), Ok(2), Ok(3)).is_ok());
    assert!(matches!(
        CacheInner::flush(Ok(1), Err(Error::InvalidPath), Err(Error::TooManyGroups)),
        Err(Error::InvalidPath)
    ));
    assert!(matches!(CacheInner::flush(Ok(1), Ok(2), Err(Error::TooManyGroups)), Err(Error::TooManyGroups)));
}

#[test]
fn a_listed_folder_is_stored_and_given_back_on_demand() {
    let mut c = cache();
    let r = c.force_update("new", Ok(folder(vec![file("new/a.mp3", None)], vec![])), true);
    assert_eq!(r.unwrap().unwrap().files.len(), 1);
    assert!(c.force_update("new", Ok(folder(vec![], vec![])), false).unwrap().is_none());
    assert_eq!(c.get("new").unwrap().files.len(), 0);
    assert!(matches!(c.force_update("bad", Err(Error::InvalidPath), true), Err(Error::InvalidPath)));
    assert!(!c.has_key("bad"));
    assert_eq!(c.path_by_index(3).unwrap(), "new");
    assert_eq!(c.path_by_index(4).unwrap(), "new");
}

#[test]
fn positions_get_the_present_time() {
    let mut c = cache();
    let before = TimeStamp::now();
    c.insert_position("g", "author/book/one.mp3", offset(5), false, Some(TimeStamp::from(7u64)), false).unwrap();
    let at = c.get_position("g", None).unwrap().timestamp;
    assert!(before <= at && at <= TimeStamp::now());
    insert(&mut c, "h", "author/book/one.mp3", 5, 7).unwrap();
    assert!(c.get_position("h", None).unwrap().timestamp == 7u64);
}

#[test]
fn positions_are_filtered_by_state_and_time() {
    let mut c = cache();
    insert(&mut c, "g", "author/book/one.mp3", 5, 7).unwrap();
    let p = c.get_position("g", None).unwrap();
    let wanted = |finished, from: Option<u64>, to: Option<u64>| {
        PositionFilter::new(finished, from.map(TimeStamp::from), to.map(TimeStamp::from)).is_wanted(&p)
    };
    assert!(wanted(None, None, None));
    assert!(wanted(Some(false), Some(7), Some(7)));
    assert!(!wanted(Some(true), None, None));
    assert!(!wanted(None, Some(8), None));
    assert!(!wanted(None, None, Some(6)));
}
