use audioserve::audio_meta::{
    get_audio_properties, is_audio, is_cover, is_description, shown_chapters, AudioFolderShort, FolderByModification,
    FoldersOrdering, Info, MediaInfo, TimeSpan, TypedFile,
};
use audioserve::error::Error;
use audioserve::media_info;
use audioserve::mime_type::{guess_mime_type, parse_mime_type};
use audioserve::no_cache::DirEntry;
use audioserve::timestamp::TimeStamp;
use std::cmp::Ordering;
use std::time::{Duration, SystemTime};

#[test]
fn test_is_audio() {
    assert!(is_audio("my/song.mp3"));
    assert!(is_audio("other/chapter.opus"));
    assert!(!is_audio("cover.jpg"));
}

#[test]
fn test_is_cover() {
    assert!(is_cover("cover.jpg"));
    assert!(!is_cover("my/song.mp3"));
}

#[test]
fn test_is_description() {
    assert!(!is_description("cover.jpg"));
    assert!(is_description("about.html"));
    assert!(is_description("about.txt"));
    assert!(is_description("some/folder/text.md"));
}

#[test]
fn test_timestamp() {
    let now = SystemTime::now();
    let now_ts: TimeStamp = now.into();
    let in_future = now + Duration::from_secs(120);
    let in_future_ts: TimeStamp = in_future.into();
    assert!(now_ts < in_future_ts);
    assert!(now_ts < in_future);
    assert!(in_future_ts > now_ts);
    assert!(in_future_ts > now);
}

#[test]
fn timestamps_count_milliseconds() {
    let t = SystemTime::UNIX_EPOCH + Duration::from_millis(1234);
    assert_eq!(TimeStamp::from(t).as_millis(), 1234);
    assert_eq!(TimeStamp::from(SystemTime::UNIX_EPOCH - Duration::from_secs(1)).as_millis(), 0);
    assert_eq!(TimeStamp::from(7u64).as_millis(), 7);
    assert!(TimeStamp::from(7u64) == 7u64);
    assert!(TimeStamp::from(7u64) < 8u64);
    assert!(TimeStamp::from(7u64) == TimeStamp::from(7u64));
    assert!(TimeStamp::from(1234u64) == t);
    assert!(TimeStamp::from(t) <= TimeStamp::from(t + Duration::from_nanos(1)));
    assert!(TimeStamp::from(t) < TimeStamp::from(t + Duration::from_millis(1)));
    assert!(TimeStamp::from(0u64) == SystemTime::UNIX_EPOCH - Duration::from_secs(1));
    assert_eq!(TimeStamp::from_epoch(Some((1u128 << 64) + 3)).as_millis(), 3);
    assert!(TimeStamp::now().as_millis() > 1_600_000_000_000);
}

#[test]
fn media_types_go_by_extension() {
    let f = TypedFile::new("a/Cover.JPG".to_string());
    assert_eq!((f.path.as_str(), f.mime.as_str()), ("a/Cover.JPG", "image/jpeg"));
    assert_eq!(guess_mime_type("x").text, "application/octet-stream");
    let m = parse_mime_type("Text/HTML; charset=utf-8").unwrap();
    assert_eq!((m.type_.as_str(), m.subtype.as_str()), ("text", "html"));
    assert!(matches!(parse_mime_type("nonsense"), Err(Error::InvalidMimeType)));
    assert!(is_audio("x.flac") && is_audio("x.m4b") && !is_audio("x.wav"));
    assert!(is_cover("x.png") && !is_cover("x.gif"));
    assert!(!is_description("x.css"));
}

#[test]
fn orderings_are_named_by_letters() {
    assert_eq!(FoldersOrdering::from_letter("m"), FoldersOrdering::RecentFirst);
    assert_eq!(FoldersOrdering::from_letter("a"), FoldersOrdering::Alphabetical);
    assert_eq!(FoldersOrdering::from_letter(""), FoldersOrdering::Alphabetical);
}

#[test]
fn time_spans_are_written_with_a_dash() {
    assert_eq!(TimeSpan { start: 10, duration: Some(250) }.to_text(), "10-250");
    assert_eq!(TimeSpan { start: 0, duration: None }.to_text(), "0");
}

fn short(name: &str, modified: Option<u64>) -> AudioFolderShort {
    AudioFolderShort {
        name: name.to_string(),
        modified: modified.map(TimeStamp::from),
        path: name.to_string(),
        is_file: false,
        finished: false,
    }
}

#[test]
fn folders_are_ordered_without_regard_to_case() {
    let alpha = FoldersOrdering::Alphabetical;
    let recent = FoldersOrdering::RecentFirst;
    assert_eq!(short("b", None).compare_as(alpha, &short("A", None)), Ordering::Greater);
    assert_eq!(short("a", None).compare_as(alpha, &short("B", None)), Ordering::Less);
    assert_eq!(short("\u{c1}x", None).compare_as(alpha, &short("\u{e1}y", None)), Ordering::Less);
    assert_eq!(short("stra\u{df}e", None).compare_as(alpha, &short("STRASSE", None)), Ordering::Greater);
    assert_eq!(short("a", Some(1)).compare_as(alpha, &short("a", Some(2))), Ordering::Less);
    assert_eq!(short("a", None).compare_as(alpha, &short("a", Some(0))), Ordering::Less);
    assert_eq!(short("a", Some(1)).compare_as(recent, &short("b", Some(2))), Ordering::Greater);
    assert_eq!(short("a", Some(1)).compare_as(recent, &short("b", None)), Ordering::Less);
    assert_eq!(short("a", None).compare_as(recent, &short("b", None)), Ordering::Equal);
    assert_eq!(short("z", None).collate_by(Ordering::Less, &short("a", None)), Ordering::Less);
    assert_eq!(short("a", Some(3)).collate_by(Ordering::Equal, &short("b", Some(2))), Ordering::Greater);
    assert!(short("a", None) == short("a", None));
    assert!(short("a", None) != short("b", None));
    assert!(short("A", None) < short("b", None));
}

#[test]
fn recently_modified_folders_come_first() {
    let f = |n: &str, t: Option<u64>| FolderByModification::from(short(n, t));
    assert!(f("a", Some(2)) < f("b", Some(1)));
    assert!(f("a", Some(1)) < f("b", None));
    assert!(f("a", Some(1)) < f("b", Some(1)));
    assert!(f("a", None) == f("a", None));
    assert_eq!(AudioFolderShort::from(f("a", None)).name, "a");
}

#[test]
fn folders_are_named_after_their_paths() {
    let f = AudioFolderShort::from_path("/base", "/base/a/b");
    assert_eq!((f.name.as_str(), f.path.as_str()), ("b", "a/b"));
    let g = AudioFolderShort::from_dir_entry("n".to_string(), Some(SystemTime::UNIX_EPOCH), "p".to_string(), true);
    assert_eq!((g.name.as_str(), g.path.as_str(), g.is_file), ("n", "p", true));
    assert_eq!(g.modified.unwrap().as_millis(), 0);
}

#[test]
fn the_oldest_entry_is_on_top() {
    let e = |p: &str, created| DirEntry { path: p.to_string(), created };
    assert!(e("a", 5) < e("a", 4));
    assert!(e("a", 5) < e("b", 5));
    assert!(e("a", 5) == e("a/", 5));
    assert!(e("a", 5) != e("a", 6));
}

fn tag(artist: Option<&str>) -> media_info::Tag {
    media_info::Tag { artist: artist.map(|a| a.to_string()), title: Some("T".to_string()), year: None, genre: None }
}

fn tagged(primary: Option<media_info::Tag>, first: Option<media_info::Tag>) -> media_info::TaggedFile {
    media_info::TaggedFile {
        millis: (1u128 << 64) + 61_500,
        seconds: 62,
        audio_bitrate: Some(192),
        primary_tag: primary,
        first_tag: first,
    }
}

#[test]
fn tags_come_from_the_primary_tag_or_the_first_one() {
    let info = get_audio_properties(Some("a/x.mp3"), Some(tagged(Some(tag(Some("P"))), Some(tag(Some("F")))))).unwrap();
    let meta = info.get_audio_info(&None).unwrap();
    assert_eq!((meta.duration, meta.bitrate), (62, 192));
    let tags = meta.tags.unwrap();
    assert_eq!(tags.get("Artist").unwrap(), "P");
    assert_eq!(tags.get("Title").unwrap(), "T");
    assert_eq!(tags.get("Year").unwrap(), "None");
    assert_eq!(tags.get("Genre").unwrap(), "None");
    assert_eq!(tags.len(), 4);
    assert!(!info.has_chapters());
    assert!(info.get_chapters().is_none());
    assert_eq!(info.media_file.duration(), 61_500);
    let info = Info::from_file(Some("a/x.mp3"), Some(tagged(None, Some(tag(None))))).unwrap();
    assert_eq!(info.collect_tags(&None).unwrap().get("Artist").unwrap(), "None");
    let info = Info::from_file(Some("a/x.mp3"), Some(tagged(None, None))).unwrap();
    let tags = info.collect_tags(&None).unwrap();
    assert_eq!((tags.len(), tags.get("Title").unwrap().as_str()), (1, "x.mp3"));
}

#[test]
fn unreadable_files_have_no_properties() {
    assert!(matches!(Info::from_file(None, None), Err(Error::InvalidPath)));
    assert!(matches!(
        Info::from_file(Some("a/x.mp3"), None),
        Err(Error::Media(media_info::Error::InvalidFile(f))) if f == "a/x.mp3"
    ));
}

#[test]
fn chapters_are_shown_as_they_are() {
    let c = media_info::Chapter { number: 3, title: "t".to_string(), start: 1, end: 2 };
    let r = shown_chapters(vec![c]);
    assert_eq!((r[0].number, r[0].title.as_str(), r[0].start, r[0].end), (3, "t", 1, 2));
}
