use audioserve::audio_meta::FoldersOrdering;
use audioserve::services::files::{
    choose_range, requested_range, serve_opened_file, to_satisfiable_range, ByteRange, CachePolicy, ChunkStream,
    Edge, RangeRefusal, CHUNK_SIZE,
};
use audioserve::services::gate::{
    add_cors_headers, cors_origin, handle_request, preflight, preflight_cors_response, process_authenticated,
    process_request, upgrade_response, Admission, Answer, AuthResult, ConnectionFacts,
};
use audioserve::services::request::{QueryParams, RemoteIpAddr, RequestError, RequestWrapper};
use audioserve::services::routing::{
    collection_number, extract_collection_number, extract_group, has_readable_number, is_json_type, is_static_file,
    position_params, process_checked, process_download, Method, PositionGroup, Reply, RequestHead, Route, RouteConfig,
};
use audioserve::services::types::DownloadFormat;

#[test]
fn test_extract_group() {
    if let PositionGroup::Group(x) = extract_group("/positions/usak") {
        assert_eq!(x, "usak");
    } else {
        panic!("group does not match")
    }

    if let PositionGroup::Last(x) = extract_group("/positions/usak/last") {
        assert_eq!(x, "usak");
    } else {
        panic!("group does not match")
    }

    if let PositionGroup::Path { path, collection, group } = extract_group("/positions/usak/0/hrabe/drakula") {
        assert_eq!(group, "usak");
        assert_eq!(collection, 0);
        assert_eq!(path, "hrabe/drakula");
    } else {
        panic!("group does not match")
    }

    if let PositionGroup::Malformed = extract_group("/positions/chcip/pes") {
    } else {
        panic!("should be invalid")
    }
}

#[test]
fn groups_need_a_collection_and_a_path() {
    assert!(matches!(extract_group("/positions"), PositionGroup::Malformed));
    assert!(matches!(extract_group("/positions/g/1"), PositionGroup::Malformed));
    assert!(matches!(extract_group("/positions/g/1/"), PositionGroup::Path { path, .. } if path.is_empty()));
    assert!(matches!(extract_group("/positions/g/+2/x"), PositionGroup::Path { collection: 2, .. }));
    assert!(matches!(extract_group("/positions/"), PositionGroup::Group(g) if g.is_empty()));
}

fn request(path: &str, prefix: Option<&str>) -> Result<RequestWrapper, RequestError> {
    RequestWrapper::new(path, None, prefix, "10.0.0.1".to_string(), false, false)
}

#[test]
fn paths_of_requests_are_decoded_and_checked() {
    assert_eq!(request("/folder/a%20b%C3%A1%2", None).unwrap().path(), "/folder/a b\u{e1}%2");
    assert_eq!(request("/%zz/%4", None).unwrap().path(), "/%zz/%4");
    assert!(matches!(request("/%ff", None), Err(RequestError::NotUtf8)));
    assert!(matches!(request("/a/../b", None), Err(RequestError::HiddenSegment)));
    assert!(matches!(request("/a/%2e%2e/b", None), Err(RequestError::HiddenSegment)));
    assert!(matches!(request("/.hidden", None), Err(RequestError::HiddenSegment)));
    assert_eq!(request("/a.b/c.", None).unwrap().path(), "/a.b/c.");
    assert_eq!(request("/srv/folder", Some("/srv")).unwrap().path(), "/folder");
    assert_eq!(request("/srv", Some("/srv")).unwrap().path(), "/");
    assert!(matches!(request("/other", Some("/srv")), Err(RequestError::MissingPrefix(p)) if p == "/srv"));
}

#[test]
fn the_last_value_of_a_parameter_counts() {
    let r = RequestWrapper::new(
        "/x",
        Some("a=1&b=x+y%26&a=2&&c".to_string()),
        None,
        String::new(),
        false,
        false,
    )
    .unwrap();
    let p = r.params();
    assert_eq!(p.get("a"), Some("2"));
    assert_eq!(p.get_string("b").unwrap(), "x y&");
    assert!(p.is_present("c"));
    assert!(!p.is_present("d"));
    assert!(!request("/x", None).unwrap().params().is_present("a"));
}

#[test]
fn proxies_tell_of_clients() {
    let direct = RequestWrapper::new("/", None, None, "1.2.3.4".to_string(), false, false).unwrap();
    let proxied = RequestWrapper::new("/", None, None, "1.2.3.4".to_string(), false, true).unwrap();
    let a = || Some("a".to_string());
    let b = || Some("b".to_string());
    assert_eq!(direct.remote_addr(a(), b()).unwrap().to_text(), "1.2.3.4");
    assert_eq!(proxied.remote_addr(a(), b()).unwrap().to_text(), "Proxied: a");
    assert_eq!(proxied.remote_addr(None, b()).unwrap().as_ref(), "b");
    assert!(proxied.remote_addr(None, None).is_none());
    assert_eq!(RemoteIpAddr::Direct("x".to_string()).as_ref(), "x");
    assert!(!direct.is_https(Some("https"), Some("https")));
    assert!(proxied.is_https(Some("https"), None));
    assert!(proxied.is_https(Some("http"), Some("https")));
    assert!(!proxied.is_https(None, Some("http")));
    let ssl = RequestWrapper::new("/", None, None, String::new(), true, false).unwrap();
    assert!(ssl.is_https(None, None));
}

#[test]
fn bodies_are_put_together_up_to_the_first_error() {
    let ok: Vec<Result<Vec<u8>, u8>> = vec![Ok(vec![1, 2]), Ok(vec![]), Ok(vec![3])];
    assert_eq!(RequestWrapper::body_bytes(ok), Ok(vec![1, 2, 3]));
    let bad: Vec<Result<Vec<u8>, u8>> = vec![Ok(vec![1]), Err(7), Err(8)];
    assert_eq!(RequestWrapper::body_bytes(bad), Err(7));
    assert_eq!(RequestWrapper::body_bytes(Vec::<Result<Vec<u8>, u8>>::new()), Ok(vec![]));
}

fn config() -> RouteConfig {
    RouteConfig {
        collections: 3,
        shared_positions: true,
        folder_download: true,
        disable_folder_download: false,
        collapse_regex: Some("^CD".to_string()),
        folder_file_cache_age: Some(60),
    }
}

fn head(method: Method) -> RequestHead {
    RequestHead { method, content_type: None, range: None }
}

fn get_with(path: &str, query: Option<&str>, range: Option<&str>, cfg: &RouteConfig) -> Route {
    let req = RequestWrapper::new(path, query.map(|q| q.to_string()), None, String::new(), false, false).unwrap();
    let mut h = head(Method::Get);
    h.range = range.map(|r| r.as_bytes().to_vec());
    process_checked(&req, &h, cfg)
}

fn get(path: &str, query: Option<&str>) -> Route {
    get_with(path, query, None, &config())
}

#[test]
fn numbers_choose_collections() {
    assert_eq!(extract_collection_number("/1/folder/x", 3), Ok(("/folder/x", 1)));
    assert_eq!(extract_collection_number("/folder/x", 3), Ok(("/folder/x", 0)));
    assert_eq!(extract_collection_number("/2/", 3), Ok(("/2/", 0)));
    assert_eq!(extract_collection_number("/1/\n", 3), Ok(("/1/\n", 0)));
    assert_eq!(extract_collection_number("/3/x", 3), Err(()));
    assert!(has_readable_number("/18446744073709551615/x"));
    assert!(!has_readable_number("/18446744073709551616/x"));
    assert!(!has_readable_number("/\u{661}/x"));
    assert!(matches!(get("/99/folder/x", None), Route::Plain(Reply::NotFound)));
    assert!(matches!(get("/99999999999999999999999/all", None), Route::Unservable));
    assert!(matches!(get("/2/all", None), Route::All { collection: 2 }));
}

#[test]
fn outside_results_are_taken_as_they_come() {
    assert_eq!(collection_number("2", 3), Some(Ok(2)));
    assert_eq!(collection_number("3", 3), Some(Err(())));
    assert_eq!(collection_number("\u{661}", 3), None);
    assert!(is_json_type(&Some(b"APPLICATION/json".to_vec())));
    assert!(!is_json_type(&Some(b"application/json; charset=utf-8".to_vec())));
    assert!(!is_json_type(&Some("application/j\u{17f}on".as_bytes().to_vec())));
    assert!(!is_json_type(&Some(b"application/json\n".to_vec())));
    assert!(!is_json_type(&None));
    let params = QueryParams::from_pairs(None);
    assert!(matches!(
        process_download("/download/x", 1, &params, Some("re".to_string()), &config()),
        Route::Download { collection: 1, merged: Some(m), .. } if m == "re"
    ));
    let (status, lines) = upgrade_response("key".to_string());
    assert_eq!((status, lines[2].value.as_str()), (101, "key"));
}

#[test]
fn requests_find_their_way() {
    assert!(matches!(get("/collections", None), Route::Collections));
    assert!(matches!(get("/ws", None), Route::WebSocket));
    assert!(matches!(get("/position", None), Route::PositionSocket));
    match get("/1/folder/a/b/", Some("ord=m&group=g")) {
        Route::Folder { collection: 1, path, ord: FoldersOrdering::RecentFirst, group } => {
            assert_eq!(path, "a/b");
            assert_eq!(group.unwrap(), "g");
        }
        r => panic!("{:?}", r),
    }
    match get("/search", Some("q=hello+you")) {
        Route::Search { collection: 0, query, ord: FoldersOrdering::Alphabetical, group: None } => {
            assert_eq!(query, "hello you")
        }
        r => panic!("{:?}", r),
    }
    assert!(matches!(get("/search", None), Route::Plain(Reply::NotFound)));
    assert!(matches!(get("/recent", None), Route::Recent { collection: 0, group: None }));
    assert!(matches!(
        get("/cover/a/c.jpg", None),
        Route::FolderFile { collection: 0, path, cache: Some(60) } if path == "a/c.jpg"
    ));
    assert!(matches!(get("/desc/a/d.txt", None), Route::FolderFile { path, .. } if path == "a/d.txt"));
    assert!(matches!(get("/media/12", None), Route::Media { track_id: 12, range: None, .. }));
    assert!(matches!(get("/media/x", None), Route::Unservable));
    assert!(matches!(get("/audio/a/x.mp3", None), Route::Audio { path, range: None, .. } if path == "a/x.mp3"));
    assert!(matches!(get("/nothing", None), Route::Plain(Reply::NotFound)));
}

#[test]
fn downloads_depend_on_the_set_up() {
    match get("/download/a/b", Some("fmt=zip&collapsed=1")) {
        Route::Download { collection: 0, path, format: DownloadFormat::Zip, merged } => {
            assert_eq!(path, "a/b");
            assert_eq!(merged.unwrap(), "^CD");
        }
        r => panic!("{:?}", r),
    }
    match get("/download/a", Some("fmt=rar")) {
        Route::Download { format: DownloadFormat::Tar, merged: None, .. } => {}
        r => panic!("{:?}", r),
    }
    let mut cfg = config();
    cfg.collapse_regex = Some("(".to_string());
    assert!(matches!(
        get_with("/download/a", Some("collapsed"), None, &cfg),
        Route::Download { merged: None, .. }
    ));
    assert!(matches!(get("/downloads/a", None), Route::Unservable));
    cfg.disable_folder_download = true;
    assert!(matches!(get_with("/download/a", None, None, &cfg), Route::Plain(Reply::NotFound)));
    cfg.disable_folder_download = false;
    cfg.folder_download = false;
    assert!(matches!(get_with("/download/a", None, None, &cfg), Route::Plain(Reply::NotFound)));
}

#[test]
fn positions_are_asked_for_by_group() {
    match get("/positions/g", Some("finished&from=5&to=9")) {
        Route::AllPositions { group, filter } => {
            assert_eq!(group, "g");
            assert_eq!(filter.finished, Some(true));
            assert_eq!(filter.from.unwrap().as_millis(), 5);
            assert_eq!(filter.to.unwrap().as_millis(), 9);
        }
        r => panic!("{:?}", r),
    }
    match get("/positions/g/1/a/b", Some("rec&unfinished")) {
        Route::FolderPosition { group, collection: 1, path, recursive: true, filter } => {
            assert_eq!((group.as_str(), path.as_str()), ("g", "a/b"));
            assert_eq!(filter.finished, Some(false));
            assert!(filter.from.is_none() && filter.to.is_none());
        }
        r => panic!("{:?}", r),
    }
    assert!(matches!(get("/positions/g/last", None), Route::LastPosition { group } if group == "g"));
    assert!(matches!(get("/positions/g", Some("from=x")), Route::Plain(Reply::BadRequest)));
    assert!(matches!(get("/positions/g/1/a", Some("to=-1")), Route::Plain(Reply::BadRequest)));
    assert!(matches!(get("/positions", None), Route::Plain(Reply::BadRequest)));
    let both = QueryParams::from_pairs(Some(vec![
        ("finished".to_string(), String::new()),
        ("unfinished".to_string(), String::new()),
    ]));
    assert_eq!(position_params(&both).unwrap().finished, None);
}

fn post(path: &str, content_type: Option<&str>, cfg: &RouteConfig) -> Route {
    let mut h = head(Method::Post);
    h.content_type = content_type.map(|c| c.as_bytes().to_vec());
    process_checked(&request(path, None).unwrap(), &h, cfg)
}

#[test]
fn positions_are_sent_as_json() {
    let cfg = config();
    assert!(matches!(post("/positions/g", Some("Application/JSON"), &cfg), Route::InsertPosition { group } if group == "g"));
    assert!(matches!(post("/positions/g", Some("text/plain"), &cfg), Route::Plain(Reply::BadRequest)));
    assert!(matches!(post("/positions/g", None, &cfg), Route::Plain(Reply::BadRequest)));
    assert!(matches!(post("/positions/g/last", Some("application/json"), &cfg), Route::Plain(Reply::BadRequest)));
    assert!(matches!(post("/folder/x", Some("application/json"), &cfg), Route::Plain(Reply::NotFound)));
    let mut cfg = cfg;
    cfg.shared_positions = false;
    assert!(matches!(post("/positions/g", None, &cfg), Route::Plain(Reply::MethodNotSupported)));
    assert!(matches!(
        process_checked(&request("/", None).unwrap(), &head(Method::Other), &cfg),
        Route::Plain(Reply::MethodNotSupported)
    ));
    assert!(matches!(get_with("/positions/g", None, None, &cfg), Route::Plain(Reply::NotFound)));
}

fn span(start: Edge, end: Edge) -> ByteRange {
    ByteRange { start, end }
}

#[test]
fn just_one_range_is_served() {
    let r = |s: &str| requested_range(&Some(s.as_bytes().to_vec()));
    assert_eq!(r("bytes=5-10"), Ok(Some(span(Edge::Included(5), Edge::Included(10)))));
    assert_eq!(r("bytes=5-"), Ok(Some(span(Edge::Included(5), Edge::Unbounded))));
    assert_eq!(r("bytes=-7"), Ok(Some(span(Edge::Unbounded, Edge::Included(7)))));
    assert_eq!(r("bytes=0-1,5-6"), Err(RangeRefusal::ManyRanges));
    assert_eq!(r("bytes=x-y"), Err(RangeRefusal::NoRange));
    assert_eq!(r("lines=1-2"), Ok(None));
    assert_eq!(requested_range(&None), Ok(None));
    assert_eq!(choose_range(Some(vec![])), Err(RangeRefusal::NoRange));
    assert!(matches!(get_with("/audio/x", None, Some("bytes=a"), &config()), Route::Plain(Reply::BadRequest)));
    assert!(matches!(
        get_with("/media/1", None, Some("bytes=0-1,2-3"), &config()),
        Route::Plain(Reply::NotImplemented)
    ));
    assert!(matches!(
        get_with("/audio/x", None, Some("bytes=3-"), &config()),
        Route::Audio { range: Some(ByteRange { start: Edge::Included(3), end: Edge::Unbounded }), .. }
    ));
}

#[test]
fn ranges_are_cut_to_the_file() {
    assert_eq!(to_satisfiable_range(span(Edge::Included(2), Edge::Included(9)), 5), Some((2, 4)));
    assert_eq!(to_satisfiable_range(span(Edge::Included(2), Edge::Included(3)), 5), Some((2, 3)));
    assert_eq!(to_satisfiable_range(span(Edge::Included(5), Edge::Unbounded), 5), None);
    assert_eq!(to_satisfiable_range(span(Edge::Included(3), Edge::Included(2)), 5), None);
    assert_eq!(to_satisfiable_range(span(Edge::Unbounded, Edge::Included(2)), 5), Some((3, 4)));
    assert_eq!(to_satisfiable_range(span(Edge::Unbounded, Edge::Included(0)), 5), None);
}

#[test]
fn files_are_answered_whole_or_in_part() {
    let r = serve_opened_file(100, None, None);
    assert_eq!((r.status, r.start, r.length, r.content_range), (200, 0, 100, None));
    assert_eq!((r.cache, r.tells_modified, r.accepts_ranges), (CachePolicy::NoStore, false, true));
    let r = serve_opened_file(100, Some(span(Edge::Included(10), Edge::Included(19))), Some(5));
    assert_eq!((r.status, r.start, r.length, r.content_range), (206, 10, 10, Some((10, 19))));
    assert_eq!((r.cache, r.tells_modified, r.accepts_ranges), (CachePolicy::PublicNoCache, true, false));
    let r = serve_opened_file(100, Some(span(Edge::Included(200), Edge::Unbounded)), Some(0));
    assert_eq!((r.status, r.start, r.length, r.content_range), (200, 0, 100, None));
    assert_eq!((r.cache, r.tells_modified, r.accepts_ranges), (CachePolicy::Unstated, true, false));
    assert_eq!(serve_opened_file(0, None, None).length, 1);
}

#[test]
fn streams_stop_at_their_limit() {
    let portions = vec![vec![1, 2, 3], vec![4, 5, 6], vec![7]];
    assert_eq!(ChunkStream::new_with_limit(5).send_all(&portions), vec![vec![1, 2, 3], vec![4, 5]]);
    assert_eq!(ChunkStream::new().send_all(&portions), portions);
    assert_eq!(ChunkStream::new().send_all(&vec![vec![1], vec![], vec![2]]), vec![vec![1]]);
    let mut s = ChunkStream::new_with_limit(2);
    assert!(s.wants_data());
    assert_eq!(s.poll_next(&vec![9, 8, 7]), Some(vec![9, 8]));
    assert!(!s.wants_data());
    assert!(s.send_all(&portions).is_empty());
    let mut s = ChunkStream::new();
    assert_eq!(s.poll_next(&vec![0; CHUNK_SIZE]).unwrap().len(), 8192);
    assert_eq!(s.poll_next(&vec![]), None);
    assert!(!s.wants_data());
    assert!(s.send_all(&portions).is_empty());
    assert!(!s.wants_data());
}

#[test]
fn files_of_the_user_interface_are_known() {
    assert!(is_static_file("/bundle.js"));
    assert!(is_static_file("/service-worker.js"));
    assert!(is_static_file("/static/x/y.png"));
    assert!(!is_static_file("/static"));
    assert!(!is_static_file("/bundle.jsx"));
}

fn facts(rejected: bool, cors_enabled: bool) -> ConnectionFacts {
    ConnectionFacts { rejected, cors_enabled, is_ssl: false, is_behind_proxy: false }
}

fn arrive(f: ConnectionFacts, method: Method, path: &str) -> Admission {
    process_request(f, method, path, None, None, "1.1.1.1".to_string(), Some(9))
}

#[test]
fn only_the_user_interface_needs_no_login() {
    assert!(matches!(arrive(facts(true, true), Method::Get, "/"), Admission::Plain(Reply::TooManyRequests)));
    assert!(matches!(arrive(facts(false, true), Method::Options, "/x"), Admission::Preflight));
    assert!(matches!(arrive(facts(false, false), Method::Options, "/x"), Admission::Login(_)));
    assert!(matches!(arrive(facts(false, false), Method::Get, "/a/.b"), Admission::Plain(Reply::NotFound)));
    assert!(matches!(
        arrive(facts(false, false), Method::Get, "/"),
        Admission::StaticFile { path, cache: Some(9) } if path == "index.html"
    ));
    assert!(matches!(
        arrive(facts(false, false), Method::Get, "/static/a.png"),
        Admission::StaticFile { path, .. } if path == "static/a.png"
    ));
    assert!(matches!(arrive(facts(false, false), Method::Post, "/bundle.js"), Admission::Login(_)));
    assert!(matches!(arrive(facts(false, false), Method::Get, "/folder/a"), Admission::Login(r) if r.path() == "/folder/a"));
}

#[test]
fn a_refused_login_is_answered_by_itself() {
    let req = request("/collections", None).unwrap();
    let h = head(Method::Get);
    let cfg = config();
    assert!(matches!(process_authenticated(Some(AuthResult::Rejected(401)), &req, &h, &cfg), Answer::Response(401)));
    assert!(matches!(process_authenticated(Some(AuthResult::LoggedIn(200)), &req, &h, &cfg), Answer::Response(200)));
    assert!(matches!(
        process_authenticated(Some(AuthResult::<u16>::Authenticated), &req, &h, &cfg),
        Answer::Route(Route::Collections)
    ));
    assert!(matches!(
        process_authenticated(None::<AuthResult<u16>>, &req, &h, &cfg),
        Answer::Route(Route::Collections)
    ));
}

#[test]
fn other_origins_are_allowed_where_enabled() {
    let o = || Some("http://a".to_string());
    assert_eq!(add_cors_headers(o(), true), o());
    assert_eq!(add_cors_headers(o(), false), None);
    assert_eq!(add_cors_headers(None, true), None);
    let p = preflight_cors_response(o(), Some(vec!["x-y".to_string()]));
    assert_eq!((p.status, p.max_age_seconds, p.origin), (204, 86400, o()));
    assert_eq!(p.methods, vec![Method::Get, Method::Post, Method::Options]);
    assert_eq!(p.headers.unwrap(), vec!["x-y".to_string()]);
}

fn values(v: &[&str]) -> Vec<Vec<u8>> {
    v.iter().map(|s| s.as_bytes().to_vec()).collect()
}

#[test]
fn origins_are_read_in_headers() {
    let o = |v: &[&str]| cors_origin(&values(v), true);
    assert_eq!(o(&["http://a.b:8000"]).unwrap(), "http://a.b:8000");
    assert_eq!(o(&["http://a.b/"]).unwrap(), "http://a.b");
    assert_eq!(o(&["null"]).unwrap(), "null");
    assert_eq!(o(&["http://a.b/c"]), None);
    assert_eq!(o(&["*"]), None);
    assert_eq!(o(&["http://a\n"]), None);
    assert_eq!(o(&["http://a", "http://a"]), None);
    assert_eq!(o(&[]), None);
    assert_eq!(cors_origin(&values(&["http://a.b"]), false), None);
}

#[test]
fn questions_about_origins_are_answered_from_headers() {
    let p = preflight(&values(&["https://a/"]), &values(&["X-One, content-type", "b@d, two"]));
    assert_eq!((p.status, p.max_age_seconds), (204, 86400));
    assert_eq!(p.methods, vec![Method::Get, Method::Post, Method::Options]);
    assert_eq!(p.origin.unwrap(), "https://a");
    assert_eq!(p.headers.unwrap(), vec!["x-one", "content-type", "two"]);
    let p = preflight(&vec![], &vec![]);
    assert!(p.origin.is_none() && p.headers.is_none());
    assert!(preflight(&vec![], &values(&[""])).headers.unwrap().is_empty());
    assert!(preflight(&vec![], &values(&["x\n"])).headers.is_none());
}

#[test]
fn web_sockets_are_accepted_by_their_key() {
    let key = b"dGhlIHNhbXBsZSBub25jZQ==".to_vec();
    let (status, lines) = handle_request(Some(&key));
    assert_eq!(status, 101);
    let shown: Vec<(&str, &str)> = lines.iter().map(|l| (l.name, l.value.as_str())).collect();
    assert_eq!(
        shown,
        [
            ("connection", "Upgrade"),
            ("upgrade", "websocket"),
            ("sec-websocket-accept", "s3pPLMBiTxaQ9kYGzzhZRbK+xOo=")
        ]
    );
}
