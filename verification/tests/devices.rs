use audioserve::audio_meta::{AudioFileInner, AudioFolderInner, AudioFolderShort, FoldersOrdering};
use audioserve::cache::positions::join_file;
use audioserve::error::Error;
use audioserve::server::{
    generate_server_secret, next_backup_delay, url_path, watch_for_positions_backup_signal, BackupStep, Delay, Secret,
    Wake,
};
use audioserve::services::devices::{Devices, MsgIn, MsgOut, Outgoing, ShuffleMode, SocketEvent};
use audioserve::services::routing::Reply;
use audioserve::services::search::{Collections, Scored, Search, SearchTrait};
use audioserve::services::subs::{
    collections_list, download_folder, get_all, insert_position, path_to_subfolder, pathbuf_to_str_vec,
    send_file_simple, serve_file_from_fs, Download, PositionReply,
};
use audioserve::services::types::DownloadFormat;

fn two() -> Devices {
    let mut d = Devices::new();
    d.connect("one".to_string(), "id1".to_string());
    d.connect("two".to_string(), "id2".to_string());
    d
}

fn register(d: &mut Devices, addr: &str, name: &str) -> Vec<Outgoing> {
    d.process_message(Some(MsgIn::RegisterDevice { name: name.to_string() }), addr, 0)
}

#[test]
fn devices_register_and_are_listed() {
    let mut d = Devices::new();
    d.connect("one".to_string(), "id1".to_string());
    let out = register(&mut d, "one", "Phone");
    match &out[..] {
        [Outgoing::To { addr, msg: MsgOut::RegisterDeviceEvent { device_id } }, Outgoing::DeviceList] => {
            assert_eq!((addr.as_str(), device_id.as_str()), ("one", "id1"))
        }
        o => panic!("{:?}", o),
    }
    d.connect("two".to_string(), "id2".to_string());
    assert!(!d.all_registered());
    register(&mut d, "two", "Tablet");
    assert!(d.all_registered());
    let mut list: Vec<(String, String, bool)> =
        d.send_updated_device_list().into_iter().map(|c| (c.id, c.name, c.active)).collect();
    list.sort();
    assert_eq!(
        list,
        vec![
            ("id1".to_string(), "Phone".to_string(), true),
            ("id2".to_string(), "Tablet".to_string(), false)
        ]
    );
}

#[test]
fn a_device_becomes_active_by_its_identifier() {
    let mut d = two();
    register(&mut d, "one", "a");
    register(&mut d, "two", "b");
    assert_eq!(d.find_device_key_by_id("id2"), "two");
    let out = d.process_message(Some(MsgIn::MakeDeviceActive { device_id: "id2".to_string() }), "one", 0);
    assert!(matches!(
        &out[..],
        [Outgoing::All { msg: MsgOut::MakeDeviceActiveEvent { device_id }, excluding: None }] if device_id == "id2"
    ));
    let active: Vec<String> =
        d.send_updated_device_list().into_iter().filter(|c| c.active).map(|c| c.id).collect();
    assert_eq!(active, vec!["id2".to_string()]);
}

#[test]
fn messages_go_to_the_others() {
    let mut d = two();
    for (m, back) in [
        (MsgIn::Pause {}, false),
        (MsgIn::Resume {}, false),
        (MsgIn::CurrentPos { collection: 1, track_id: 2, time: 3 }, false),
        (MsgIn::RewindTo { time: 5 }, false),
        (MsgIn::VolumeChange { value: 9 }, false),
        (MsgIn::PlayTrack { collection: 0, track_id: 4 }, true),
    ] {
        let out = d.process_message(Some(m), "one", 0);
        match &out[..] {
            [Outgoing::All { msg: _, excluding }] => assert_eq!(excluding.is_none(), back),
            o => panic!("{:?}", o),
        }
    }
    assert_eq!(d.send_to_all_devices_excluding(Some("one")), vec!["two".to_string()]);
    let mut all = d.send_to_all_devices();
    all.sort();
    assert_eq!(all, vec!["one".to_string(), "two".to_string()]);
    assert!(d.process_message(None, "one", 0).is_empty());
}

#[test]
fn the_next_track_is_picked_in_two_modes() {
    let mut d = two();
    assert!(!d.picks_random_track(&MsgIn::NextTrack { collection: 1 }));
    assert!(d.process_message(Some(MsgIn::NextTrack { collection: 1 }), "one", 5).is_empty());
    for mode in [ShuffleMode::CurrentDir, ShuffleMode::CollectionWide] {
        let out = d.process_message(Some(MsgIn::SwitchShuffle { mode }), "one", 0);
        assert!(matches!(
            &out[..],
            [Outgoing::All { msg: MsgOut::SwitchShuffleEvent { mode: m }, excluding: Some(a) }] if *m == mode && a == "one"
        ));
        assert!(d.picks_random_track(&MsgIn::NextTrack { collection: 1 }));
        let mut seen = [false; 5];
        for _ in 0..500 {
            match &d.process_message(Some(MsgIn::NextTrack { collection: 1 }), "one", 5)[..] {
                [Outgoing::All { msg: MsgOut::PlayTrackEvent { collection: 1, track_id }, excluding: None }] => {
                    seen[*track_id as usize] = true
                }
                o => panic!("{:?}", o),
            }
        }
        assert_eq!(seen, [true; 5]);
    }
    d.process_message(Some(MsgIn::SwitchShuffle { mode: ShuffleMode::Global }), "one", 0);
    assert!(d.process_message(Some(MsgIn::NextTrack { collection: 1 }), "one", 0).is_empty());
    let out = d.proceed_message(MsgIn::SwitchShuffle { mode: ShuffleMode::CurrentDir }, "one", 0, "");
    assert_eq!(out.len(), 1);
    match &d.proceed_message(MsgIn::NextTrack { collection: 2 }, "one", (1 << 32) + 7, "")[..] {
        [Outgoing::All { msg: MsgOut::PlayTrackEvent { collection: 2, track_id: 7 }, .. }] => {}
        o => panic!("{:?}", o),
    }
}

#[test]
fn messages_are_checked_before_they_are_handled() {
    let mut d = two();
    let register = MsgIn::RegisterDevice { name: "x".to_string() };
    assert!(d.can_process(&register, "one", 0));
    assert!(!d.can_process(&register, "three", 0));
    assert!(d.can_process(&MsgIn::MakeDeviceActive { device_id: "id1".to_string() }, "three", 0));
    assert!(!d.can_process(&MsgIn::MakeDeviceActive { device_id: "id9".to_string() }, "one", 0));
    assert!(d.has_device_id("id2") && !d.has_device_id("id3"));
    assert!(d.can_process(&MsgIn::NextTrack { collection: 0 }, "one", 0));
    d.process_message(Some(MsgIn::SwitchShuffle { mode: ShuffleMode::CurrentDir }), "one", 0);
    assert!(!d.can_process(&MsgIn::NextTrack { collection: 0 }, "one", 0));
    assert!(d.can_process(&MsgIn::NextTrack { collection: 0 }, "one", 1));
}

#[test]
fn connections_come_and_go() {
    let mut d = Devices::new();
    d.open_connection("one".to_string());
    d.open_connection("two".to_string());
    assert!(d.is_connected("one") && !d.is_connected("three"));
    register(&mut d, "one", "a");
    register(&mut d, "two", "b");
    let ids: Vec<String> = d.send_updated_device_list().into_iter().map(|c| c.id).collect();
    assert_ne!(ids[0], ids[1]);
    for id in &ids {
        let id: Vec<char> = id.chars().collect();
        assert_eq!(id.len(), 36);
        for (i, c) in id.iter().enumerate() {
            if [8, 13, 18, 23].contains(&i) {
                assert_eq!(*c, '-');
            } else {
                assert!(c.is_ascii_digit() || ('a'..='f').contains(c));
            }
        }
        assert!(id[14] == '4' && ['8', '9', 'a', 'b'].contains(&id[19]));
    }
    assert!(d.handle_connection(SocketEvent::Binary, "one", 0).is_empty());
    assert!(d.handle_connection(SocketEvent::PingPong, "one", 0).is_empty());
    assert!(d.handle_connection(SocketEvent::Frame, "one", 0).is_empty());
    assert_eq!(d.handle_connection(SocketEvent::Text(Some(MsgIn::Pause {})), "one", 0).len(), 1);
    assert!(matches!(&d.handle_connection(SocketEvent::Close, "one", 0)[..], [Outgoing::DeviceList]));
    assert!(!d.is_connected("one"));
    d.remove_devices(&vec!["two".to_string(), "nobody".to_string()]);
    assert!(d.send_to_all_devices().is_empty());
}

fn file(id: u32, path: &str) -> AudioFileInner {
    AudioFileInner {
        id,
        name: "n".to_string(),
        path: path.to_string(),
        meta: None,
        mime: "audio/mpeg".to_string(),
        section: None,
    }
}

struct Source;

impl Collections for Source {
    type Meta = String;

    fn search(
        &self,
        collection: usize,
        query: &str,
        _ordering: FoldersOrdering,
        _group: Option<String>,
    ) -> Result<Vec<Scored>, Error> {
        if collection == 0 {
            Ok(vec![Scored { score: 5, item: file(7, query) }])
        } else {
            Err(Error::InvalidPath)
        }
    }

    fn recent(&self, collection: usize, limit: usize, _group: Option<String>) -> Result<Vec<AudioFolderShort>, Error> {
        if collection == 0 {
            Ok(vec![AudioFolderShort::from_path_and_name(limit.to_string(), "p".to_string(), false)])
        } else {
            Err(Error::InvalidPath)
        }
    }

    fn track_meta(&self, collection: usize, id: u32) -> Option<String> {
        if id < 10 {
            Some(format!("{}:{}", collection, id))
        } else {
            None
        }
    }
}

#[test]
fn searches_find_files_and_recent_folders() {
    let s = Search::new(Some(Source));
    let r = s.search(0, "a/b.mp3", FoldersOrdering::Alphabetical, None);
    assert_eq!((r.files.len(), r.subfolders.len()), (1, 0));
    assert_eq!((r.files[0].score, r.files[0].item.id), (5, 7));
    assert_eq!(r.files[0].item.path, vec!["a".to_string(), "b.mp3".to_string()]);
    assert_eq!(r.files[0].item.track_meta, "0:7");
    assert!(s.search(1, "x", FoldersOrdering::Alphabetical, None).files.is_empty());
    let r = s.recent(0, None);
    assert_eq!((r.files.len(), r.subfolders[0].name.as_str()), (0, "100"));
    assert!(s.recent(1, None).subfolders.is_empty());
}

#[test]
fn all_files_are_listed_with_their_components() {
    let folder = AudioFolderInner {
        is_file: false,
        is_collapsed: false,
        modified: None,
        total_time: Some(9),
        files: vec![file(1, "a/x.mp3"), file(12, "y.mp3")],
        subfolders: vec![],
        cover: None,
        description: None,
        tags: None,
    };
    let r = get_all(&Source, 3, Ok(folder)).unwrap();
    assert_eq!((r.total_time, r.files.len()), (Some(9), 2));
    assert_eq!(r.files[0].path, vec!["a".to_string(), "x.mp3".to_string()]);
    assert_eq!((r.files[0].id, r.files[0].track_meta.as_str()), (1, "3:1"));
    assert_eq!((r.files[1].id, r.files[1].track_meta.as_str()), (12, ""));
    assert!(r.modified.is_none() && r.cover.is_none() && r.description.is_none() && r.tags.is_none());
    assert!(matches!(get_all(&Source, 3, Err(Error::InvalidPath)), Err(Reply::NotFound)));
}

#[test]
fn paths_are_taken_apart() {
    assert_eq!(path_to_subfolder("a/b").unwrap(), "a");
    assert_eq!(path_to_subfolder("/a/b"), None);
    assert_eq!(path_to_subfolder("../b"), None);
    assert_eq!(path_to_subfolder(""), None);
    assert_eq!(pathbuf_to_str_vec("/a//b/./c"), vec!["/", "a", "b", "c"]);
    assert_eq!(send_file_simple("/base", "a/b"), "/base/a/b");
    assert_eq!(join_file("", "f"), "f");
    assert_eq!(join_file("a/b", "f"), "a/b/f");
}

#[test]
fn files_are_sent_under_a_media_type() {
    let (name, mime) = serve_file_from_fs("/cwd", "x.mp3", None).unwrap();
    assert_eq!((name.as_str(), mime.text.as_str()), ("/cwd/x.mp3", "audio/mpeg"));
    let (name, mime) = serve_file_from_fs("/cwd", "/y.mp3", Some("audio/ogg")).unwrap();
    assert_eq!((name.as_str(), mime.text.as_str()), ("/y.mp3", "audio/ogg"));
    assert!(matches!(serve_file_from_fs("/cwd", "x.mp3", Some("?")), Err(Error::InvalidMimeType)));
}

#[test]
fn folders_are_downloaded_under_their_name() {
    match download_folder("/base", "a/My Book", false, DownloadFormat::Zip, true) {
        Download::Folder(p) => {
            assert_eq!(p.name, "My Book.zip");
            assert_eq!(p.disposition, "attachment; filename=\"My Book.zip\"");
            assert_eq!((p.mime, p.with_subfolders), ("application/zip", true));
        }
        d => panic!("{:?}", d),
    }
    match download_folder("/base", "", false, DownloadFormat::Tar, false) {
        Download::Folder(p) => assert_eq!((p.name.as_str(), p.mime), ("audio.tar", "application/x-tar")),
        d => panic!("{:?}", d),
    }
    assert!(matches!(
        download_folder("/base", "a.m4b", true, DownloadFormat::Tar, false),
        Download::File(p) if p == "/base/a.m4b"
    ));
}

#[test]
fn collections_are_counted_and_named() {
    let c = collections_list("1.0".to_string(), true, true, 2, vec!["a".to_string(), "b".to_string()]);
    assert_eq!((c.version.as_str(), c.folder_download, c.shared_positions, c.count), ("1.0", false, true, 2));
    assert_eq!(c.names.len(), 2);
}

#[test]
fn stored_positions_are_answered() {
    assert!(matches!(insert_position(Ok(())), PositionReply::Created));
    assert!(matches!(insert_position(Err(Error::IgnoredPosition)), PositionReply::Ignored));
    assert!(matches!(insert_position(Err(Error::TooManyGroups)), PositionReply::Failed(Error::TooManyGroups)));
}

#[test]
fn secrets_are_read_or_made() {
    assert!(matches!(generate_server_secret(Some(128)), Ok(Secret::Read)));
    assert!(matches!(generate_server_secret(Some(129)), Err(Error::SecretTooLong)));
    let secret = || match generate_server_secret(None) {
        Ok(Secret::Write(s)) => s,
        s => panic!("{:?}", s),
    };
    let a = secret();
    assert_eq!(a.len(), 32);
    assert_ne!(a, secret());
    let again = generate_server_secret(Some(a.len() as u64)).unwrap();
    assert_eq!(again.into_bytes(a.clone()), a);
    assert_eq!(Secret::Write(vec![1, 2]).into_bytes(vec![3]), vec![1, 2]);
}

#[test]
fn backups_wait_for_their_time() {
    assert_eq!(next_backup_delay(None), Delay { seconds: u64::MAX, nanos: 0 });
    assert_eq!(next_backup_delay(Some(-1)), Delay { seconds: 0, nanos: 100_000_000 });
    assert_eq!(next_backup_delay(Some(3_500_000_000)), Delay { seconds: 3, nanos: 500_000_000 });
    let f = || Some("f".to_string());
    assert!(matches!(watch_for_positions_backup_signal(Wake::SignalsEnded, f()), BackupStep::Stop));
    assert!(matches!(watch_for_positions_backup_signal(Wake::Signal, f()), BackupStep::WriteTo(p) if p == "f"));
    assert!(matches!(watch_for_positions_backup_signal(Wake::Timeout, None), BackupStep::NoFile));
    assert_eq!(url_path(Some("/srv")), "/srv/");
    assert_eq!(url_path(None), "");
}
