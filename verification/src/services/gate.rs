//! Who is let in, and what is answered before that.

use crate::services::files;
use crate::services::request;
use crate::services::request::{RequestView, RequestWrapper};
use crate::services::routing;
use crate::services::routing::{Method, Reply, RequestHead, Route, RouteConfig};
use crate::services::types;
use crate::text;
use headers::{Header, HeaderValue};
use vstd::prelude::*;
use vstd::string::*;

verus! {

/// What happens to a request before anyone has to log in.
#[derive(Debug)]
pub enum Admission {
    /// It is answered without contents.
    Plain(Reply),
    /// It asks what it may ask from another origin.
    Preflight,
    /// It gets a file of the client's user interface, relative to its directory.
    StaticFile { path: String, cache: Option<u32> },
    /// It has to be let in.
    Login(RequestWrapper),
}

/// What happens to a request, with texts for its parts.
pub enum AdmissionView {
    Plain(Reply),
    Preflight,
    StaticFile { path: Seq<char>, cache: Option<u32> },
    Login(RequestView),
}

impl View for Admission {
    type V = AdmissionView;

    open spec fn view(&self) -> AdmissionView {
        match self {
            Admission::Plain(r) => AdmissionView::Plain(*r),
            Admission::Preflight => AdmissionView::Preflight,
            Admission::StaticFile { path, cache } => AdmissionView::StaticFile {
                path: path@,
                cache: *cache,
            },
            Admission::Login(r) => AdmissionView::Login(r@),
        }
    }
}

/// What happens to a request with a checked path.
pub open spec fn admission_of(req: RequestView, method: Method, cache: Option<u32>) -> AdmissionView {
    if method is Get && (req.path == "/"@ || req.path == "/index.html"@) {
        AdmissionView::StaticFile { path: "index.html"@, cache }
    } else if method is Get && routing::is_static_path(req.path) {
        AdmissionView::StaticFile { path: req.path.skip(1), cache }
    } else {
        AdmissionView::Login(req)
    }
}

/// What happens to a request: too many are turned away, questions about other origins are
/// answered, bad paths are not found, files of the user interface are sent to anyone, and all
/// others have to be let in.
pub open spec fn admission(
    rejected: bool,
    method: Method,
    cors_enabled: bool,
    raw_path: Seq<char>,
    prefix: Option<Seq<char>>,
    req: RequestView,
    cache: Option<u32>,
) -> AdmissionView {
    if rejected {
        AdmissionView::Plain(Reply::TooManyRequests)
    } else if method is Options && cors_enabled {
        AdmissionView::Preflight
    } else {
        match request::checked_path(raw_path, prefix) {
            Err(_) => AdmissionView::Plain(Reply::NotFound),
            Ok(path) => admission_of(RequestView { path, ..req }, method, cache),
        }
    }
}

/// Nothing but files of the user interface is sent to anyone who was not let in: another request
/// that is not turned away has to be let in, whatever it asks for.
pub proof fn everything_else_needs_login(
    rejected: bool,
    method: Method,
    cors_enabled: bool,
    raw_path: Seq<char>,
    prefix: Option<Seq<char>>,
    req: RequestView,
    cache: Option<u32>,
)
    ensures
        ({
            let a = admission(rejected, method, cors_enabled, raw_path, prefix, req, cache);
            let p = request::checked_path(raw_path, prefix);
            &&& a is StaticFile ==> method is Get && p is Ok && (p->Ok_0 == "/"@ || p->Ok_0
                == "/index.html"@ || routing::is_static_path(p->Ok_0))
            &&& p is Err ==> !(a is StaticFile) && !(a is Login)
            &&& method is Post && !rejected && p is Ok ==> a is Login
        }),
{
}

/// Requests over the limit are turned away, whatever they ask for, and no others are for that
/// reason; questions about other origins are answered only where those are allowed.
pub proof fn limits_come_first(
    rejected: bool,
    method: Method,
    cors_enabled: bool,
    raw_path: Seq<char>,
    prefix: Option<Seq<char>>,
    req: RequestView,
    cache: Option<u32>,
)
    ensures
        ({
            let a = admission(rejected, method, cors_enabled, raw_path, prefix, req, cache);
            &&& rejected <==> a == AdmissionView::Plain(Reply::TooManyRequests)
            &&& a is Preflight <==> !rejected && method is Options && cors_enabled
            &&& a is Plain && !rejected ==> a == AdmissionView::Plain(Reply::NotFound)
                && request::checked_path(raw_path, prefix) is Err
        }),
{
}

/// A request that has to be let in is the one that came, with its path checked: nothing else of it
/// changes.
pub proof fn requests_are_let_in_as_they_came(
    rejected: bool,
    method: Method,
    cors_enabled: bool,
    raw_path: Seq<char>,
    prefix: Option<Seq<char>>,
    req: RequestView,
    cache: Option<u32>,
)
    ensures
        match admission(rejected, method, cors_enabled, raw_path, prefix, req, cache) {
            AdmissionView::Login(r) => {
                &&& request::checked_path(raw_path, prefix) == Ok::<
                    Seq<char>,
                    request::Refusal,
                >(r.path)
                &&& r.query == req.query
                &&& r.remote_addr == req.remote_addr
                &&& r.is_ssl == req.is_ssl
                &&& r.is_behind_proxy == req.is_behind_proxy
            },
            _ => true,
        },
{
}

/// A file of the user interface that is sent is the one that is asked for, and the index where none
/// is, with the configured time for caching. It is one of six files, or lies in the directory
/// `static`.
pub proof fn user_interface_is_sent_as_asked(req: RequestView, method: Method, cache: Option<u32>)
    ensures
        match admission_of(req, method, cache) {
            AdmissionView::StaticFile { path, cache: age } => {
                &&& method is Get
                &&& age == cache
                &&& req.path == seq!['/'] + path || (req.path == "/"@ && path == "index.html"@)
                &&& {
                    ||| req.path == "/"@
                    ||| req.path == "/index.html"@
                    ||| req.path == "/bundle.js"@
                    ||| req.path == "/bundle.css"@
                    ||| req.path == "/global.css"@
                    ||| req.path == "/favicon.png"@
                    ||| req.path == "/app.webmanifest"@
                    ||| req.path == "/service-worker.js"@
                    ||| "/static/"@.is_prefix_of(req.path)
                }
            },
            AdmissionView::Login(r) => r == req && (method is Get ==> req.path != "/"@ && req.path
                != "/index.html"@ && req.path != "/bundle.js"@ && req.path != "/bundle.css"@
                && req.path != "/global.css"@ && req.path != "/favicon.png"@ && req.path
                != "/app.webmanifest"@ && req.path != "/service-worker.js"@
                && !"/static/"@.is_prefix_of(req.path)),
            _ => false,
        },
{
    reveal_strlit("/index.html");
    reveal_strlit("index.html");
    let p = req.path;
    let names = routing::static_names();
    assert("/index.html"@ =~= seq!['/'] + "index.html"@);
    if routing::is_static_path(p) {
        static_paths_are_not_empty(p);
        assert(p =~= seq!['/'] + p.skip(1));
    }
    if names.contains(p) {
        let i = choose|i: int| 0 <= i < names.len() && names[i] == p;
        assert(i == 0 || i == 1 || i == 2 || i == 3 || i == 4 || i == 5);
    }
    assert(names[0] == "/bundle.js"@);
    assert(names[1] == "/bundle.css"@);
    assert(names[2] == "/global.css"@);
    assert(names[3] == "/favicon.png"@);
    assert(names[4] == "/app.webmanifest"@);
    assert(names[5] == "/service-worker.js"@);
}

/// How the requests of a connection come in.
#[derive(Debug)]
pub struct ConnectionFacts {
    /// The limit of requests is reached.
    pub rejected: bool,
    /// Requests from the origin of this one are allowed.
    pub cors_enabled: bool,
    pub is_ssl: bool,
    pub is_behind_proxy: bool,
}

/// Decides what happens to a request before anyone has to log in.
pub fn process_request(
    facts: ConnectionFacts,
    method: Method,
    raw_path: &str,
    query: Option<String>,
    path_prefix: Option<&str>,
    remote_addr: String,
    static_cache_age: Option<u32>,
) -> (r: Admission)
    ensures
        r@ == admission(
            facts.rejected,
            method,
            facts.cors_enabled,
            raw_path@,
            match path_prefix {
                Some(p) => Some(p@),
                None => None,
            },
            (RequestView {
                path: Seq::empty(),
                query: routing::opt_text(query),
                remote_addr: remote_addr@,
                is_ssl: facts.is_ssl,
                is_behind_proxy: facts.is_behind_proxy,
            }),
            static_cache_age,
        ),
{
    if facts.rejected {
        return Admission::Plain(Reply::TooManyRequests);
    }
    let is_options = match method {
        Method::Options => true,
        _ => false,
    };
    if is_options && facts.cors_enabled {
        return Admission::Preflight;
    }
    let req = match RequestWrapper::new(
        raw_path,
        query,
        path_prefix,
        remote_addr,
        facts.is_ssl,
        facts.is_behind_proxy,
    ) {
        Ok(r) => r,
        Err(_) => return Admission::Plain(Reply::NotFound),
    };
    let is_get = match method {
        Method::Get => true,
        _ => false,
    };
    if is_get {
        if text::same_text(req.path(), "/") || text::same_text(req.path(), "/index.html") {
            return Admission::StaticFile {
                path: "index.html".to_owned(),
                cache: static_cache_age,
            };
        }
        if routing::is_static_file(req.path()) {
            proof {
                static_paths_are_not_empty(req@.path);
            }
            return Admission::StaticFile {
                path: text::after(req.path(), 1).to_owned(),
                cache: static_cache_age,
            };
        }
    }
    Admission::Login(req)
}

/// Paths of files of the user interface start with a separator.
proof fn static_paths_are_not_empty(path: Seq<char>)
    requires
        routing::is_static_path(path),
    ensures
        path.len() > 0,
        path[0] == '/',
{
    reveal_strlit("/bundle.js");
    reveal_strlit("/bundle.css");
    reveal_strlit("/global.css");
    reveal_strlit("/favicon.png");
    reveal_strlit("/app.webmanifest");
    reveal_strlit("/service-worker.js");
    reveal_strlit("/static/");
    if "/static/"@.is_prefix_of(path) {
        assert(path.subrange(0, "/static/"@.len() as int)[0] == path[0]);
    } else {
        let names = routing::static_names();
        let i = choose|i: int| 0 <= i < names.len() && names[i] == path;
        assert(names[i] == path);
    }
}

/// The outcome of logging in.
#[derive(Debug)]
pub enum AuthResult<R> {
    /// The client is let in.
    Authenticated,
    /// The client has just logged in and gets an answer.
    LoggedIn(R),
    /// The client is turned away with an answer.
    Rejected(R),
}

/// The answer to a request that had to be let in.
#[derive(Debug)]
pub enum Answer<R> {
    /// It is answered this way.
    Route(Route),
    /// It gets the answer to its login.
    Response(R),
}

/// Decides the answer after the login; without one everybody is let in.
pub fn process_authenticated<R>(
    auth: Option<AuthResult<R>>,
    req: &RequestWrapper,
    head: &RequestHead,
    cfg: &RouteConfig,
) -> (r: Answer<R>)
    ensures
        match auth {
            Some(AuthResult::LoggedIn(resp)) => r == Answer::Response(resp),
            Some(AuthResult::Rejected(resp)) => r == Answer::Response(resp),
            _ => {
                &&& r is Route
                &&& r->Route_0@ == routing::route_for(
                    req@.path,
                    routing::params_of(req@.query),
                    head.method,
                    routing::is_json(routing::opt_bytes(head.content_type)),
                    files::single_range(files::asked_ranges(routing::opt_bytes(head.range))),
                    *cfg,
                )
                &&& r->Route_0.filters_by(routing::params_of(req@.query))
            },
        },
{
    match auth {
        Some(AuthResult::LoggedIn(resp)) => Answer::Response(resp),
        Some(AuthResult::Rejected(resp)) => Answer::Response(resp),
        _ => Answer::Route(routing::process_checked(req, head, cfg)),
    }
}

/// Who is turned away, or has just logged in, gets the answer of the login and nothing else; who is
/// let in, or needs no login, gets what was asked for.
pub proof fn nothing_is_served_without_login<R>(
    auth: Option<AuthResult<R>>,
    req: &RequestWrapper,
    head: &RequestHead,
    cfg: &RouteConfig,
    r: Answer<R>,
)
    requires
        call_ensures(process_authenticated::<R>, (auth, req, head, cfg), r),
    ensures
        r is Route <==> auth is None || auth->0 is Authenticated,
        match (auth, r) {
            (Some(AuthResult::Rejected(answer)), Answer::Response(given)) => given == answer,
            (Some(AuthResult::LoggedIn(answer)), Answer::Response(given)) => given == answer,
            (_, Answer::Response(_)) => false,
            _ => true,
        },
{
}

/// Two requests with the same path and query are answered alike if their method, content type and
/// range are the same, whoever sent them.
pub proof fn answers_do_not_depend_on_the_client<R>(
    a: &RequestWrapper,
    b: &RequestWrapper,
    head: &RequestHead,
    cfg: &RouteConfig,
    ra: Answer<R>,
    rb: Answer<R>,
)
    requires
        a@.path == b@.path,
        a@.query == b@.query,
        call_ensures(process_authenticated::<R>, (None, a, head, cfg), ra),
        call_ensures(process_authenticated::<R>, (None, b, head, cfg), rb),
    ensures
        ra->Route_0@ == rb->Route_0@,
{
}

/// The origin whose pages may read an answer, together with credentials: the one of the request,
/// where that is enabled.
pub fn add_cors_headers(origin: Option<String>, enabled: bool) -> (r: Option<String>)
    ensures
        r == if enabled {
            origin
        } else {
            None
        },
{
    if !enabled {
        return None;
    }
    origin
}

/// The status of an answer without contents.
pub const NO_CONTENT: u16 = 204;

/// The status of an answer that changes the protocol.
pub const SWITCHING_PROTOCOLS: u16 = 101;

/// The answer to a question about other origins.
#[derive(Debug)]
pub struct Preflight {
    pub status: u16,
    /// The methods that may be used.
    pub methods: Vec<Method>,
    /// For how long this holds.
    pub max_age_seconds: u64,
    /// The headers that may be sent.
    pub headers: Option<Vec<String>>,
    /// The origin whose pages may read answers.
    pub origin: Option<String>,
}

/// The answer to a question about other origins: three methods and all headers that are asked
/// for may be used by the origin, for a day.
pub fn preflight_cors_response(
    origin: Option<String>,
    requested_headers: Option<Vec<String>>,
) -> (r: Preflight)
    ensures
        r.status == NO_CONTENT,
        r.methods@ == seq![Method::Get, Method::Post, Method::Options],
        r.max_age_seconds == 24 * 3600,
        r.headers == requested_headers,
        r.origin == origin,
{
    let mut methods: Vec<Method> = Vec::new();
    methods.push(Method::Get);
    methods.push(Method::Post);
    methods.push(Method::Options);
    assert(methods@ =~= seq![Method::Get, Method::Post, Method::Options]);
    Preflight {
        status: NO_CONTENT,
        methods,
        max_age_seconds: 24 * 3600,
        headers: requested_headers,
        origin: add_cors_headers(origin, true),
    }
}

/// Texts, if there are any.
pub open spec fn opt_texts(v: Option<Vec<String>>) -> Option<Seq<Seq<char>>> {
    match v {
        Some(names) => Some(types::string_views(names@)),
        None => None,
    }
}

/// The origin that `headers` reads in the values of all `Origin` headers, if it is one.
pub uninterp spec fn origin_of(values: Seq<Seq<u8>>) -> Option<Seq<char>>;

/// The origin that `headers` reads in the value of an `Access-Control-Allow-Origin` header, if it
/// is one.
pub uninterp spec fn named_origin(value: Seq<char>) -> Option<Seq<char>>;

/// The names that `headers` reads in the values of all `Access-Control-Request-Headers` headers.
pub uninterp spec fn header_names(values: Seq<Seq<u8>>) -> Option<Seq<Seq<char>>>;

/// `headers::Origin::decode`, with the origin as it is written: what the values give, which takes
/// exactly one, is a function of them alone. Values that no header can have give nothing.
#[verifier::external_body]
fn decode_origin(values: &Vec<Vec<u8>>) -> (r: Option<String>)
    ensures
        routing::opt_text(r) == origin_of(files::views(values@)),
        r is Some ==> values@.len() == 1,
{
    let values: Result<Vec<_>, _> = values.iter().map(|v| HeaderValue::from_bytes(v)).collect();
    headers::Origin::decode(&mut values.ok()?.iter()).ok().map(|o| o.to_string())
}

/// `headers::AccessControlAllowOrigin::decode` on one value, with the origin as it is written: a
/// function of the value alone. The value `*`, which stands for any origin, names none.
#[verifier::external_body]
fn decode_allowed_origin(value: &str) -> (r: Option<String>)
    ensures
        routing::opt_text(r) == named_origin(value@),
{
    let value = HeaderValue::from_str(value).ok()?;
    let allowed = headers::AccessControlAllowOrigin::decode(&mut std::iter::once(&value)).ok()?;
    allowed.origin().map(|o| o.to_string())
}

/// `headers::AccessControlRequestHeaders::decode` and `iter`: the names in the values, which are a
/// function of them alone. Values that no header can have give nothing.
#[verifier::external_body]
fn decode_header_names(values: &Vec<Vec<u8>>) -> (r: Option<Vec<String>>)
    ensures
        opt_texts(r) == header_names(files::views(values@)),
{
    let values: Result<Vec<_>, _> = values.iter().map(|v| HeaderValue::from_bytes(v)).collect();
    let names = headers::AccessControlRequestHeaders::decode(&mut values.ok()?.iter()).ok()?;
    Some(names.iter().map(|n| n.as_str().to_string()).collect())
}

/// The origin that may be allowed for the `Origin` headers of a request: the one that they give,
/// as far as an answer can name it.
pub open spec fn allowed_for(origin: Seq<Seq<u8>>) -> Option<Seq<char>> {
    match origin_of(origin) {
        Some(o) => named_origin(o),
        None => None,
    }
}

/// The headers that a question about other origins asks for, if it asks for any.
pub open spec fn asked_names(names: Seq<Seq<u8>>) -> Option<Seq<Seq<char>>> {
    if names.len() == 0 {
        None
    } else {
        header_names(names)
    }
}

/// The origin that may be allowed for the `Origin` headers of a request.
fn allowed_origin(origin: &Vec<Vec<u8>>) -> (r: Option<String>)
    ensures
        routing::opt_text(r) == allowed_for(files::views(origin@)),
        r is Some ==> origin@.len() == 1,
{
    match decode_origin(origin) {
        Some(o) => decode_allowed_origin(o.as_str()),
        None => None,
    }
}

/// The origin whose pages may read an answer, given the values of the request's `Origin` headers.
pub fn cors_origin(origin: &Vec<Vec<u8>>, enabled: bool) -> (r: Option<String>)
    ensures
        routing::opt_text(r) == if enabled {
            allowed_for(files::views(origin@))
        } else {
            None
        },
        r is Some ==> origin@.len() == 1,
{
    add_cors_headers(allowed_origin(origin), enabled)
}

/// The answer to a question about other origins, given the values of the request's `Origin` and
/// `Access-Control-Request-Headers` headers.
pub fn preflight(origin: &Vec<Vec<u8>>, names: &Vec<Vec<u8>>) -> (r: Preflight)
    ensures
        r.status == NO_CONTENT,
        r.methods@ == seq![Method::Get, Method::Post, Method::Options],
        r.max_age_seconds == 24 * 3600,
        opt_texts(r.headers) == asked_names(files::views(names@)),
        routing::opt_text(r.origin) == allowed_for(files::views(origin@)),
        names@.len() == 0 ==> r.headers is None,
        r.origin is Some ==> origin@.len() == 1,
{
    let requested = if names.is_empty() {
        None
    } else {
        decode_header_names(names)
    };
    preflight_cors_response(allowed_origin(origin), requested)
}

/// Pages of another origin may read an answer only where that is enabled, and only those of the
/// origin of the request.
pub proof fn only_the_asking_origin_is_allowed(
    origin: Option<String>,
    enabled: bool,
    r: Option<String>,
)
    requires
        call_ensures(add_cors_headers, (origin, enabled), r),
    ensures
        r is Some <==> enabled && origin is Some,
        r is Some ==> r == origin,
{
}

/// The answer to a question about other origins has no contents, allows to get, to send and to ask,
/// for a day, and allows just the headers and the origin that were asked for.
pub proof fn questions_allow_what_was_asked(
    origin: Option<String>,
    names: Option<Vec<String>>,
    r: Preflight,
    m: Method,
)
    requires
        call_ensures(preflight_cors_response, (origin, names), r),
    ensures
        r.status == 204,
        r.max_age_seconds == 86_400,
        r.methods@.contains(m) <==> !(m is Other),
        r.headers == names,
        r.origin == origin,
{
    let all = seq![Method::Get, Method::Post, Method::Options];
    assert(all[0] is Get && all[1] is Post && all[2] is Options);
    assert(all.contains(m) <==> !(m is Other)) by {
        if m is Get {
            assert(all[0] == m);
        } else if m is Post {
            assert(all[1] == m);
        } else if m is Options {
            assert(all[2] == m);
        }
    }
}

/// A header of an answer.
#[derive(Debug)]
pub struct HeaderLine {
    pub name: &'static str,
    pub value: String,
}

/// The names and values of headers.
pub open spec fn line_views(v: Seq<HeaderLine>) -> Seq<(Seq<char>, Seq<char>)> {
    v.map_values(|l: HeaderLine| (l.name@, l.value@))
}

/// The value by which a server shows that it has understood a web socket key.
pub uninterp spec fn accept_key(key: Seq<u8>) -> Seq<char>;

/// `tungstenite::handshake::derive_accept_key`, which depends on the key alone.
#[verifier::external_body]
fn accept_key_for(key: &Vec<u8>) -> (r: String)
    ensures
        r@ == accept_key(key@),
{
    tokio_tungstenite::tungstenite::handshake::derive_accept_key(key)
}

/// The headers of the answer that opens a web socket.
pub open spec fn upgrade_lines(accept: Seq<char>) -> Seq<(Seq<char>, Seq<char>)> {
    seq![
        ("connection"@, "Upgrade"@),
        ("upgrade"@, "websocket"@),
        ("sec-websocket-accept"@, accept),
    ]
}

/// The answer that opens a web socket, with the value that shows that its key was understood.
pub fn upgrade_response(accept: String) -> (r: (u16, Vec<HeaderLine>))
    ensures
        r.0 == SWITCHING_PROTOCOLS,
        line_views(r.1@) == upgrade_lines(accept@),
{
    let mut headers: Vec<HeaderLine> = Vec::new();
    headers.push(HeaderLine { name: "connection", value: "Upgrade".to_owned() });
    headers.push(HeaderLine { name: "upgrade", value: "websocket".to_owned() });
    headers.push(HeaderLine { name: "sec-websocket-accept", value: accept });
    assert(line_views(headers@) =~= upgrade_lines(accept@));
    (SWITCHING_PROTOCOLS, headers)
}

/// The answer to a request for a web socket, which has to bring a key.
pub fn handle_request(key: Option<&Vec<u8>>) -> (r: (u16, Vec<HeaderLine>))
    requires
        key is Some,
    ensures
        r.0 == SWITCHING_PROTOCOLS,
        line_views(r.1@) == upgrade_lines(accept_key(key->0@)),
{
    let accept = accept_key_for(key.unwrap());
    upgrade_response(accept)
}

/// A web socket is opened by the answer that changes the protocol, which upgrades the connection
/// and shows that the key of the request was understood.
pub proof fn socket_is_opened_for_its_key(key: Option<&Vec<u8>>, r: (u16, Vec<HeaderLine>))
    requires
        key is Some,
        call_ensures(handle_request, (key,), r),
    ensures
        r.0 == 101,
        r.1@.len() == 3,
        r.1@[0].name@ == "connection"@ && r.1@[0].value@ == "Upgrade"@,
        r.1@[1].name@ == "upgrade"@ && r.1@[1].value@ == "websocket"@,
        r.1@[2].name@ == "sec-websocket-accept"@ && r.1@[2].value@ == accept_key(key->0@),
{
    let v = line_views(r.1@);
    assert(v.len() == r.1@.len());
    assert(v[0] == (r.1@[0].name@, r.1@[0].value@));
    assert(v[1] == (r.1@[1].name@, r.1@[1].value@));
    assert(v[2] == (r.1@[2].name@, r.1@[2].value@));
}

/// What happens to a request is told by its texts without loss.
pub proof fn admission_views_tell_everything(a: Admission)
    ensures
        match (a, a@) {
            (Admission::Plain(r), AdmissionView::Plain(s)) => r == s,
            (Admission::Preflight, AdmissionView::Preflight) => true,
            (
                Admission::StaticFile { path, cache },
                AdmissionView::StaticFile { path: p, cache: c },
            ) => path@ == p && cache == c,
            (Admission::Login(r), AdmissionView::Login(s)) => r@ == s,
            _ => false,
        },
{
}

} // verus!
