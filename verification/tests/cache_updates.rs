use audioserve::cache::events::{DirKind, EventFacts, FollowUp, PathFacts};
use audioserve::cache::inner::CacheInner;
use audioserve::cache::update::{
    filter_event, FilteredEvent, FsEvent, OngoingUpdater, QueueEvent, UpdateAction,
};
use audioserve::audio_meta::AudioFolderInner;
use dashmap::DashMap;

fn refresh(p: &str) -> UpdateAction {
    UpdateAction::RefreshFolder(p.to_string())
}

fn deep(p: &str) -> UpdateAction {
    UpdateAction::RefreshFolderRecursive(p.to_string())
}

fn remove(p: &str) -> UpdateAction {
    UpdateAction::RemoveFolder(p.to_string())
}

fn rename(a: &str, b: &str) -> UpdateAction {
    UpdateAction::RenameFolder { from: a.to_string(), to: b.to_string() }
}

fn shown(v: &[UpdateAction]) -> Vec<String> {
    v.iter().map(|a| format!("{:?}", a)).collect()
}

#[test]
fn updates_that_cover_each_other_are_the_same() {
    let all = [refresh("a"), refresh("a/b"), deep("a"), deep("a/"), remove("a"), rename("a", "b"), rename("a", "c")];
    for (i, a) in all.iter().enumerate() {
        for (j, b) in all.iter().enumerate() {
            let same = i == j || (i.min(j), i.max(j)) == (2, 3);
            assert_eq!(a.is_covered_by(b) && b.is_covered_by(a), same);
        }
    }
}

#[test]
fn covering_goes_by_kind_and_path() {
    assert!(refresh("a/b").is_covered_by(&refresh("a//b/")));
    assert!(!refresh("a/b").is_covered_by(&refresh("a")));
    assert!(refresh("a/b").is_covered_by(&deep("a")));
    assert!(refresh("a/b").is_covered_by(&remove("a")));
    assert!(!refresh("ab").is_covered_by(&remove("a")));
    assert!(!refresh("a").is_covered_by(&rename("a", "b")));
    assert!(!deep("a").is_covered_by(&refresh("a")));
    assert!(deep("a/b").is_covered_by(&deep("a")));
    assert!(deep("a/b").is_covered_by(&remove("a/b")));
    assert!(!remove("a").is_covered_by(&deep("a")));
    assert!(remove("a/b").is_covered_by(&remove("a")));
    assert!(rename("a", "b").is_covered_by(&rename("a", "b/")));
    assert!(!rename("a", "b").is_covered_by(&rename("a", "c")));
    assert!(!rename("a", "b").is_covered_by(&remove("a")));
    assert_eq!(rename("a", "b").as_ref(), "a");
}

#[test]
fn waiting_updates_are_sent_oldest_first_without_the_covered_ones() {
    let mut u = OngoingUpdater::new();
    for (a, t) in [(refresh("a"), 1), (refresh("x"), 2), (deep("a"), 3), (refresh("b"), 4), (remove("x"), 5)] {
        let (now, stop) = u.run(QueueEvent::Action(a, t));
        assert!(now.is_empty() && !stop);
    }
    let (now, stop) = u.run(QueueEvent::Timeout);
    assert_eq!(shown(&now), shown(&[deep("a"), refresh("b"), remove("x")]));
    assert!(!stop);
    assert!(u.run(QueueEvent::Timeout).0.is_empty());
}

#[test]
fn an_update_that_is_asked_for_again_waits_with_its_new_time() {
    let mut u = OngoingUpdater::new();
    u.run(QueueEvent::Action(refresh("a"), 1));
    u.run(QueueEvent::Action(refresh("b"), 2));
    u.run(QueueEvent::Action(refresh("a/"), 3));
    u.run(QueueEvent::Action(refresh("c"), 0));
    let (now, stop) = u.run(QueueEvent::Finished);
    assert_eq!(shown(&now), shown(&[refresh("c"), refresh("b"), refresh("a")]));
    assert!(stop);
    assert!(u.run(QueueEvent::Disconnected).1);
}

#[test]
fn an_update_is_not_covered_by_one_that_is_far_behind() {
    let mut u = OngoingUpdater::new();
    u.run(QueueEvent::Action(refresh("a/x"), 0));
    for i in 0..100 {
        u.run(QueueEvent::Action(refresh(&format!("b{}", i)), 1 + i));
    }
    u.run(QueueEvent::Action(remove("a"), 1000));
    let (now, _) = u.run(QueueEvent::Timeout);
    assert_eq!(now.len(), 102);
    u.run(QueueEvent::Action(refresh("a/x"), 0));
    for i in 0..99 {
        u.run(QueueEvent::Action(refresh(&format!("b{}", i)), 1 + i));
    }
    u.run(QueueEvent::Action(remove("a"), 1000));
    let (now, _) = u.run(QueueEvent::Timeout);
    assert_eq!(now.len(), 100);
}

#[test]
fn only_changes_that_matter_pass() {
    let p = || "/m/x".to_string();
    assert!(matches!(filter_event(FsEvent::Create(p())), FilteredEvent::Pass(FsEvent::Create(_))));
    assert!(matches!(filter_event(FsEvent::Write(p())), FilteredEvent::Pass(FsEvent::Write(_))));
    assert!(matches!(filter_event(FsEvent::Remove(p())), FilteredEvent::Pass(FsEvent::Remove(_))));
    assert!(matches!(filter_event(FsEvent::Rename(p(), p())), FilteredEvent::Pass(FsEvent::Rename(_, _))));
    assert!(matches!(filter_event(FsEvent::NoticeWrite(p())), FilteredEvent::Ignore));
    assert!(matches!(filter_event(FsEvent::NoticeRemove(p())), FilteredEvent::Ignore));
    assert!(matches!(filter_event(FsEvent::Chmod(p())), FilteredEvent::Ignore));
    assert!(matches!(filter_event(FsEvent::Rescan), FilteredEvent::Rescan));
    assert!(matches!(
        filter_event(FsEvent::Error("e".to_string(), Some(p()))),
        FilteredEvent::Error(e, Some(_)) if e == "e"
    ));
}

fn empty_folder() -> AudioFolderInner {
    AudioFolderInner {
        is_file: false,
        is_collapsed: false,
        modified: None,
        total_time: None,
        files: vec![],
        subfolders: vec![],
        cover: None,
        description: None,
        tags: None,
    }
}

fn cache(collapse: bool, known: &[&str]) -> CacheInner {
    let mut c = CacheInner::new("/m".to_string(), collapse, 10, DashMap::new());
    for k in known {
        c.update(k, empty_folder());
    }
    c
}

fn facts(kind: DirKind) -> PathFacts {
    PathFacts { kind, is_collapsable: false, is_collapsable_below: false }
}

fn about(path: PathFacts, parent: PathFacts, dest: PathFacts, dest_parent: PathFacts) -> EventFacts {
    EventFacts { path, parent, dest, dest_parent }
}

fn event(c: &CacheInner, e: FsEvent, f: EventFacts) -> Vec<String> {
    shown(&c.proceed_event(&e, f))
}

#[test]
fn creations_refresh_the_folder_and_its_parent() {
    let c = cache(false, &["a"]);
    let dir = facts(DirKind::Dir);
    let other = facts(DirKind::Other);
    let f = about(dir, dir, other, other);
    assert_eq!(event(&c, FsEvent::Create("/m/a/b".to_string()), f), shown(&[deep("a/b"), refresh("a")]));
    let f = about(other, dir, other, other);
    assert_eq!(event(&c, FsEvent::Create("/m/a/x.txt".to_string()), f), shown(&[refresh("a")]));
    assert_eq!(event(&c, FsEvent::Create("/m/x.txt".to_string()), f), shown(&[refresh("")]));
}

#[test]
fn merged_parents_are_passed_over() {
    let c = cache(true, &["a"]);
    let cd = PathFacts { kind: DirKind::Dir, is_collapsable: true, is_collapsable_below: true };
    let other = facts(DirKind::Other);
    let f = about(other, cd, other, other);
    assert_eq!(event(&c, FsEvent::Create("/m/a/CD1/x.mp3".to_string()), f), shown(&[refresh("a")]));
    let d = cache(false, &["a"]);
    assert_eq!(event(&d, FsEvent::Create("/m/a/CD1/x.mp3".to_string()), f), shown(&[refresh("a/CD1")]));
}

#[test]
fn writes_refresh_the_folder_of_the_file() {
    let c = cache(false, &["a", "a/book.m4b"]);
    let f = about(facts(DirKind::File), facts(DirKind::Dir), facts(DirKind::Other), facts(DirKind::Other));
    assert_eq!(event(&c, FsEvent::Write("/m/a/book.m4b".to_string()), f), shown(&[refresh("a/book.m4b")]));
    let f = about(facts(DirKind::Other), facts(DirKind::Dir), facts(DirKind::Other), facts(DirKind::Other));
    assert_eq!(event(&c, FsEvent::Write("/m/a/x.mp3".to_string()), f), shown(&[refresh("a")]));
}

#[test]
fn removals_depend_on_what_the_cache_knew() {
    let c = cache(false, &["a", "a/b"]);
    let f = about(facts(DirKind::NotFound), facts(DirKind::Dir), facts(DirKind::Other), facts(DirKind::Other));
    assert_eq!(event(&c, FsEvent::Remove("/m/a/b".to_string()), f), shown(&[remove("a/b"), refresh("a")]));
    assert_eq!(event(&c, FsEvent::Remove("/m/a/x.mp3".to_string()), f), shown(&[refresh("a")]));
    let f = about(facts(DirKind::Failed), facts(DirKind::Dir), facts(DirKind::Other), facts(DirKind::Other));
    assert_eq!(event(&c, FsEvent::Remove("/m/a/b".to_string()), f), shown(&[refresh("a")]));
}

#[test]
fn renamings_move_remove_or_refresh() {
    let c = cache(false, &["a", "a/b"]);
    let gone = facts(DirKind::NotFound);
    let dir = facts(DirKind::Dir);
    let other = facts(DirKind::Other);
    let e = |p: &str, q: &str| FsEvent::Rename(p.to_string(), q.to_string());
    assert_eq!(
        event(&c, e("/m/a/b", "/m/a/c"), about(gone, dir, dir, dir)),
        shown(&[rename("a/b", "a/c"), refresh("a")])
    );
    assert_eq!(
        event(&c, e("/m/a/b", "/m/z/c"), about(gone, dir, dir, dir)),
        shown(&[rename("a/b", "z/c"), refresh("a"), refresh("z")])
    );
    let cd = PathFacts { kind: DirKind::Dir, is_collapsable: true, is_collapsable_below: true };
    assert_eq!(
        event(&c, e("/m/a/b", "/m/z/CD1"), about(gone, dir, cd, dir)),
        shown(&[remove("a/b"), refresh("a"), refresh("z")])
    );
    assert_eq!(
        event(&c, e("/m/a/b", "/elsewhere/b"), about(gone, dir, dir, dir)),
        shown(&[remove("a/b"), refresh("a")])
    );
    assert_eq!(
        event(&c, e("/m/a/x.mp3", "/elsewhere/x"), about(gone, dir, other, dir)),
        shown(&[refresh("a")])
    );
    assert_eq!(
        event(&c, e("/m/a/x.mp3", "/m/z/x.mp3"), about(gone, dir, other, dir)),
        shown(&[refresh("a"), refresh("z")])
    );
    assert_eq!(
        event(&c, e("/m/a/x", "/m/z/x"), about(gone, dir, dir, dir)),
        shown(&[refresh("a"), refresh("z"), deep("z/x")])
    );
    assert!(event(&c, FsEvent::Rescan, about(gone, dir, dir, dir)).is_empty());
}

#[test]
fn events_outside_of_the_collection_cannot_be_handled() {
    let dir = facts(DirKind::Dir);
    let f = about(facts(DirKind::Other), dir, facts(DirKind::Other), dir);
    let c = cache(false, &[]);
    assert!(c.can_proceed(&FsEvent::Create("/m/x".to_string()), f));
    assert!(c.can_proceed(&FsEvent::Create("/m".to_string()), f));
    assert!(!c.can_proceed(&FsEvent::Create("/other/x".to_string()), f));
    assert!(!c.can_proceed(&FsEvent::Write("m/x".to_string()), f));
    assert!(c.can_proceed(&FsEvent::Rename("/m/x".to_string(), "/other/x".to_string()), f));
    assert!(c.can_proceed(&FsEvent::Rescan, f));
    let c = cache(true, &[]);
    assert!(!c.can_proceed(&FsEvent::Create("/m".to_string()), f));
    assert!(c.can_proceed(&FsEvent::Create("/m/x".to_string()), f));
}

#[test]
fn updates_are_done_as_far_as_the_cache_can() {
    let mut c = cache(false, &["a", "a/b", "ab"]);
    assert!(matches!(c.proceed_update(&refresh("a"), None), FollowUp::List(p) if p == "a"));
    assert!(matches!(c.proceed_update(&deep("a"), None), FollowUp::ListRecursive(p) if p == "a"));
    assert!(matches!(c.proceed_update(&rename("a/b", "c"), None), FollowUp::Nothing));
    assert!(c.has_key("c") && !c.has_key("a/b"));
    assert!(matches!(c.proceed_update(&rename("a", "z"), None), FollowUp::ListRecursive(p) if p == "z"));
    assert!(!c.has_key("a") && !c.has_key("ab") && c.has_key("c"));
    assert!(matches!(c.proceed_update(&remove("c"), None), FollowUp::Nothing));
    assert!(!c.has_key("c"));
    let af = CacheInner::force_update_recursive("x/y".to_string());
    assert_eq!((af.name.as_str(), af.path.as_str(), af.is_file), ("y", "x/y", false));
}
