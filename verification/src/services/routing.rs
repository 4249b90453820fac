//! Which request is answered in which way.

use crate::audio_meta;
use crate::audio_meta::FoldersOrdering;
use crate::error::Error;
use crate::paths;
use crate::position::PositionFilter;
use crate::services::files;
use crate::services::files::{ByteRange, RangeRefusal};
use crate::services::request;
use crate::services::request::{QueryParams, RequestWrapper};
use crate::services::types;
use crate::services::types::DownloadFormat;
use crate::text;
use crate::timestamp::TimeStamp;
use vstd::prelude::*;
use vstd::string::*;

verus! {

/// Whether the class `\d` of `regex` holds a character.
pub uninterp spec fn unicode_digit(c: char) -> bool;

/// The end of the run of marked characters that starts at `i`.
pub open spec fn run_end(marks: Seq<bool>, i: int) -> int
    decreases marks.len() - i,
{
    if 0 <= i < marks.len() && marks[i] {
        run_end(marks, i + 1)
    } else {
        i
    }
}

/// Where the number of a collection ends in a path whose digits are marked: behind the digits of
/// the first segment, if another segment follows that does not start with a line break.
pub open spec fn number_end(s: Seq<char>, marks: Seq<bool>) -> Option<int> {
    let k = run_end(marks, 1);
    if s.len() > 0 && s[0] == '/' && k > 1 && k + 1 < s.len() && s[k] == '/' && s[k + 1] != '\n' {
        Some(k)
    } else {
        None
    }
}

/// `regex::Regex::captures` with `^/(\d+)/.+`: the digits of the first segment of a path and
/// what follows them. Which characters are digits is left to `regex`, except that of ASCII only
/// the ten decimal digits are.
#[verifier::external_body]
fn match_collection(path: &str) -> (r: Option<(String, String)>)
    ensures
        match r {
            Some((d, rest)) => number_end(path@, path@.map_values(|c: char| unicode_digit(c)))
                == Some(1 + d@.len() as int) && d@ + rest@ == path@.skip(1),
            None => number_end(path@, path@.map_values(|c: char| unicode_digit(c))) is None,
        },
        text::is_ascii_text(path@) ==> match r {
            Some((d, rest)) => number_end(path@, path@.map_values(|c: char| text::is_digit(c)))
                == Some(1 + d@.len() as int),
            None => number_end(path@, path@.map_values(|c: char| text::is_digit(c))) is None,
        },
{
    let re = regex::Regex::new(r"^/(\d+)/.+").unwrap();
    let number = re.captures(path).and_then(|c| c.get(1));
    number.map(|m| (m.as_str().to_string(), path[m.end()..].to_string()))
}

/// What the first segment of a path says of the collection.
pub enum Numbered {
    /// It is made of digits, but not a number that fits.
    Unreadable,
    /// There is no collection of that number.
    OutOfRange,
    /// The path within the collection of the given number.
    At(Seq<char>, usize),
}

/// The collection of a path whose digits are marked: the one of the number that it starts with,
/// or the first one.
pub open spec fn collection_by(path: Seq<char>, marks: Seq<bool>, count: usize) -> Numbered {
    match number_end(path, marks) {
        None => Numbered::At(path, 0),
        Some(k) => match text::number_up_to(path.subrange(1, k), usize::MAX as nat) {
            None => Numbered::Unreadable,
            Some(n) => if n >= count {
                Numbered::OutOfRange
            } else {
                Numbered::At(path.skip(k), n as usize)
            },
        },
    }
}

/// The collection of a path: the one of the number that it starts with, or the first one.
pub open spec fn collection_of(path: Seq<char>, count: usize) -> Numbered {
    collection_by(path, path.map_values(|c: char| unicode_digit(c)), count)
}

/// The collection of a path that has no digits but the ten of ASCII.
pub open spec fn ascii_collection_of(path: Seq<char>, count: usize) -> Numbered {
    collection_by(path, path.map_values(|c: char| text::is_digit(c)), count)
}

/// The number of the collection that digits stand for: nothing if they are not a number that
/// fits, and an error if there is no such collection.
pub fn collection_number(digits: &str, count: usize) -> (r: Option<Result<usize, ()>>)
    ensures
        match text::number_up_to(digits@, usize::MAX as nat) {
            None => r is None,
            Some(n) => if n >= count {
                r == Some(Err::<usize, ()>(()))
            } else {
                r is Some && r->0 is Ok && r->0->Ok_0 == n
            },
        },
{
    match text::parse_number(digits, usize::MAX as u64) {
        Some(n) => if n >= count as u64 {
            Some(Err(()))
        } else {
            Some(Ok(n as usize))
        },
        None => None,
    }
}

/// Whether the collection of a path can be read.
pub fn has_readable_number(path: &str) -> (r: bool)
    ensures
        forall|count: usize| r == !(#[trigger] collection_of(path@, count) is Unreadable),
        text::is_ascii_text(path@) ==> forall|count: usize| #[trigger]
            collection_of(path@, count) == ascii_collection_of(path@, count),
{
    match match_collection(path) {
        Some((digits, rest)) => {
            assert(digits@ =~= path@.subrange(1, 1 + digits@.len() as int)) by {
                assert((digits@ + rest@).take(digits@.len() as int) =~= digits@);
            }
            collection_number(digits.as_str(), 0).is_some()
        },
        None => true,
    }
}

/// The path within its collection and the number of the collection; an error if there is no such
/// collection.
pub fn extract_collection_number(path: &str, count: usize) -> (r: Result<(&str, usize), ()>)
    requires
        !(collection_of(path@, count) is Unreadable),
    ensures
        collection_of(path@, count) == match r {
            Ok((p, n)) => Numbered::At(p@, n),
            Err(_) => Numbered::OutOfRange,
        },
        text::is_ascii_text(path@) ==> collection_of(path@, count) == ascii_collection_of(
            path@,
            count,
        ),
{
    match match_collection(path) {
        Some((digits, rest)) => {
            assert(digits@ =~= path@.subrange(1, 1 + digits@.len() as int)) by {
                assert((digits@ + rest@).take(digits@.len() as int) =~= digits@);
            }
            match collection_number(digits.as_str(), count) {
                Some(Ok(n)) => {
                    let whole = path.unicode_len();
                    let len = digits.as_str().unicode_len();
                    assert(1 + len < whole);
                    Ok((text::after(path, 1 + len), n))
                },
                _ => Err(()),
            }
        },
        None => Ok((path, 0)),
    }
}

/// Which positions a path asks for.
#[derive(Debug)]
pub enum PositionGroup {
    /// All of a group.
    Group(String),
    /// The last one of a group.
    Last(String),
    /// Those of a group in a folder of a collection.
    Path { group: String, collection: usize, path: String },
    /// None that can be told.
    Malformed,
}

/// Which positions a path asks for, with texts for its parts.
pub enum GroupView {
    Group(Seq<char>),
    Last(Seq<char>),
    Path { group: Seq<char>, collection: usize, path: Seq<char> },
    Malformed,
}

impl View for PositionGroup {
    type V = GroupView;

    open spec fn view(&self) -> GroupView {
        match self {
            PositionGroup::Group(g) => GroupView::Group(g@),
            PositionGroup::Last(g) => GroupView::Last(g@),
            PositionGroup::Path { group, collection, path } => GroupView::Path {
                group: group@,
                collection: *collection,
                path: path@,
            },
            PositionGroup::Malformed => GroupView::Malformed,
        }
    }
}

/// What a path asks for: after the first segment comes the group, then nothing, the word `last`,
/// or the number of a collection and a path within it.
pub open spec fn group_of(path: Seq<char>) -> GroupView {
    let p = text::pieces(path, '/', 5);
    if p.len() < 3 {
        GroupView::Malformed
    } else if p.len() == 3 {
        GroupView::Group(p[2])
    } else if p[3] == "last"@ {
        GroupView::Last(p[2])
    } else {
        match text::number_up_to(p[3], usize::MAX as nat) {
            Some(n) => if p.len() > 4 {
                GroupView::Path { group: p[2], collection: n as usize, path: p[4] }
            } else {
                GroupView::Malformed
            },
            None => GroupView::Malformed,
        }
    }
}

/// Which positions a path asks for.
pub fn extract_group(path: &str) -> (r: PositionGroup)
    ensures
        r@ == group_of(path@),
{
    let segments = text::split_at_most(path, '/', 5);
    let ghost p = text::pieces(path@, '/', 5);
    assert(p.len() == segments@.len());
    assert forall|i: int| 0 <= i < segments@.len() implies (#[trigger] segments@[i])@ == p[i] by {
        assert(text::texts(segments@)[i] == segments@[i]@);
    }
    let n = segments.len();
    if n < 3 {
        return PositionGroup::Malformed;
    }
    let group = segments[2].to_owned();
    if n == 3 {
        return PositionGroup::Group(group);
    }
    let last = segments[3];
    if text::same_text(last, "last") {
        return PositionGroup::Last(group);
    }
    match text::parse_number(last, usize::MAX as u64) {
        Some(collection) => if n > 4 {
            PositionGroup::Path {
                group,
                collection: collection as usize,
                path: segments[4].to_owned(),
            }
        } else {
            PositionGroup::Malformed
        },
        None => PositionGroup::Malformed,
    }
}

/// The point in time that a parameter gives: none if it is missing, an error if it is no number.
pub open spec fn time_param(params: Map<Seq<char>, Seq<char>>, name: Seq<char>) -> Result<
    Option<nat>,
    Seq<char>,
> {
    if params.contains_key(name) {
        match text::number_up_to(params[name], u64::MAX as nat) {
            Some(n) => Ok(Some(n)),
            None => Err(params[name]),
        }
    } else {
        Ok(None)
    }
}

/// The milliseconds of an optional point in time.
pub open spec fn millis_of(t: Option<TimeStamp>) -> Option<nat> {
    match t {
        Some(t) => Some(t.millis() as nat),
        None => None,
    }
}

/// Reads a parameter that is a point in time.
fn get_ts_param(params: &QueryParams, name: &str) -> (r: Result<Option<TimeStamp>, Error>)
    requires
        params.wf(),
    ensures
        match r {
            Ok(t) => time_param(params@, name@) == Ok::<Option<nat>, Seq<char>>(millis_of(t)),
            Err(Error::InvalidTimeStamp(s)) => time_param(params@, name@) == Err::<
                Option<nat>,
                Seq<char>,
            >(s@),
            Err(_) => false,
        },
{
    match params.get(name) {
        Some(s) => match text::parse_number(s, u64::MAX) {
            Some(n) => Ok(Some(TimeStamp::from_millis(n))),
            None => Err(Error::InvalidTimeStamp(s.to_owned())),
        },
        None => Ok(None),
    }
}

/// Which folders are asked for: the finished or the unfinished ones, if just one of them is.
pub open spec fn finished_param(params: Map<Seq<char>, Seq<char>>) -> Option<bool> {
    match (params.contains_key("finished"@), params.contains_key("unfinished"@)) {
        (true, false) => Some(true),
        (false, true) => Some(false),
        _ => None,
    }
}

/// Whether both times of a filter can be read.
pub open spec fn has_filter(params: Map<Seq<char>, Seq<char>>) -> bool {
    time_param(params, "from"@) is Ok && time_param(params, "to"@) is Ok
}

/// A filter is the one that the parameters ask for.
pub open spec fn is_filter(f: PositionFilter, params: Map<Seq<char>, Seq<char>>) -> bool {
    &&& f.finished == finished_param(params)
    &&& time_param(params, "from"@) == Ok::<Option<nat>, Seq<char>>(millis_of(f.from))
    &&& time_param(params, "to"@) == Ok::<Option<nat>, Seq<char>>(millis_of(f.to))
}

/// The filter that the parameters ask for; an error for the first time that is no number.
pub fn position_params(params: &QueryParams) -> (r: Result<PositionFilter, Error>)
    requires
        params.wf(),
    ensures
        match r {
            Ok(f) => is_filter(f, params@),
            Err(Error::InvalidTimeStamp(s)) => if time_param(params@, "from"@) is Err {
                time_param(params@, "from"@) == Err::<Option<nat>, Seq<char>>(s@)
            } else {
                time_param(params@, "to"@) == Err::<Option<nat>, Seq<char>>(s@)
            },
            Err(_) => false,
        },
{
    let finished = params.is_present("finished");
    let unfinished = params.is_present("unfinished");
    let finished = match (finished, unfinished) {
        (true, false) => Some(true),
        (false, true) => Some(false),
        _ => None,
    };
    let from = match get_ts_param(params, "from") {
        Ok(t) => t,
        Err(e) => return Err(e),
    };
    let to = match get_ts_param(params, "to") {
        Ok(t) => t,
        Err(e) => return Err(e),
    };
    Ok(PositionFilter::new(finished, from, to))
}

/// The names of the files of the client's user interface.
pub open spec fn static_names() -> Seq<Seq<char>> {
    seq![
        "/bundle.js"@,
        "/bundle.css"@,
        "/global.css"@,
        "/favicon.png"@,
        "/app.webmanifest"@,
        "/service-worker.js"@,
    ]
}

/// Whether a path is that of a file of the client's user interface.
pub open spec fn is_static_path(path: Seq<char>) -> bool {
    static_names().contains(path) || "/static/"@.is_prefix_of(path)
}

/// Whether a path is that of a file of the client's user interface.
pub fn is_static_file(path: &str) -> (r: bool)
    ensures
        r == is_static_path(path@),
{
    let names: [&str; 6] = [
        "/bundle.js",
        "/bundle.css",
        "/global.css",
        "/favicon.png",
        "/app.webmanifest",
        "/service-worker.js",
    ];
    let mut i: usize = 0;
    assert(text::texts(names@) =~= static_names());
    while i < 6
        invariant
            i <= 6,
            names@.len() == 6,
            text::texts(names@) == static_names(),
            forall|j: int| 0 <= j < i ==> static_names()[j] != path@,
        decreases 6 - i,
    {
        assert(text::texts(names@)[i as int] == names@[i as int]@);
        if text::same_text(names[i], path) {
            assert(static_names()[i as int] == path@);
            return true;
        }
        i += 1;
    }
    assert(!static_names().contains(path@)) by {
        if static_names().contains(path@) {
            let j = choose|j: int| 0 <= j < static_names().len() && static_names()[j] == path@;
            assert(static_names()[j] != path@);
        }
    }
    text::has_prefix(path, "/static/")
}

/// The part of a path below a prefix under which it lies.
pub fn get_subpath(path: &str, prefix: &str) -> (r: String)
    requires
        paths::is_under(path@, prefix@),
    ensures
        r@ == paths::rest_after(path@, prefix@),
{
    match paths::strip_prefix(path, prefix) {
        Some(p) => p.to_owned(),
        None => String::new(),
    }
}

/// The method of a request.
#[derive(Debug, Clone, Copy, PartialEq, Eq, Structural)]
pub enum Method {
    Get,
    Post,
    Options,
    Other,
}

/// An answer without contents of its own.
#[derive(Debug, Clone, Copy, PartialEq, Eq, Structural)]
pub enum Reply {
    TooManyRequests,
    NotFound,
    BadRequest,
    NotImplemented,
    MethodNotSupported,
}

/// What a server is set up to do.
#[derive(Debug)]
pub struct RouteConfig {
    /// How many collections there are.
    pub collections: usize,
    /// Positions can be shared.
    pub shared_positions: bool,
    /// Folders can be downloaded.
    pub folder_download: bool,
    /// The download of folders is switched off.
    pub disable_folder_download: bool,
    /// The expression for the names of folders that are merged into their parent.
    pub collapse_regex: Option<String>,
    /// For how long covers and descriptions may be kept.
    pub folder_file_cache_age: Option<u32>,
}

/// A request as far as its answer depends on it.
#[derive(Debug)]
pub struct RequestHead {
    pub method: Method,
    /// The value of the `Content-Type` header.
    pub content_type: Option<Vec<u8>>,
    /// The value of the `Range` header.
    pub range: Option<Vec<u8>>,
}

/// How a request is answered.
#[derive(Debug)]
#[allow(inconsistent_fields)]
pub enum Route {
    /// With an answer without contents.
    Plain(Reply),
    /// With the list of collections.
    Collections,
    /// By opening a web socket.
    WebSocket,
    /// By opening a web socket for positions.
    PositionSocket,
    /// With all positions of a group.
    AllPositions { group: String, filter: PositionFilter },
    /// With the last position of a group.
    LastPosition { group: String },
    /// With the positions of a group in a folder.
    FolderPosition {
        group: String,
        collection: usize,
        path: String,
        recursive: bool,
        filter: PositionFilter,
    },
    /// By storing the position that is sent.
    InsertPosition { group: String },
    /// With an audio file.
    Audio { collection: usize, path: String, range: Option<ByteRange> },
    /// With the audio file of a track.
    Media { collection: usize, track_id: u32, range: Option<ByteRange> },
    /// With the list of a folder.
    Folder { collection: usize, path: String, ord: FoldersOrdering, group: Option<String> },
    /// With the list of all files.
    All { collection: usize },
    /// With the files of a folder in one file; `merged` is the expression for the subfolders
    /// whose files are included.
    Download { collection: usize, path: String, format: DownloadFormat, merged: Option<String> },
    /// With what is found for a query.
    Search { collection: usize, query: String, ord: FoldersOrdering, group: Option<String> },
    /// With the folders that changed recently.
    Recent { collection: usize, group: Option<String> },
    /// With a cover or a description.
    FolderFile { collection: usize, path: String, cache: Option<u32> },
    /// Not at all: a number in the path does not fit, or the path is not below the expected one.
    Unservable,
}

/// How a request is answered, with texts for its parts; a filter is the one that the parameters
/// of the request ask for.
#[allow(inconsistent_fields)]
pub enum RouteView {
    Plain(Reply),
    Collections,
    WebSocket,
    PositionSocket,
    AllPositions { group: Seq<char> },
    LastPosition { group: Seq<char> },
    FolderPosition { group: Seq<char>, collection: usize, path: Seq<char>, recursive: bool },
    InsertPosition { group: Seq<char> },
    Audio { collection: usize, path: Seq<char>, range: Option<ByteRange> },
    Media { collection: usize, track_id: u32, range: Option<ByteRange> },
    Folder {
        collection: usize,
        path: Seq<char>,
        ord: FoldersOrdering,
        group: Option<Seq<char>>,
    },
    All { collection: usize },
    Download {
        collection: usize,
        path: Seq<char>,
        format: DownloadFormat,
        merged: Option<Seq<char>>,
    },
    Search {
        collection: usize,
        query: Seq<char>,
        ord: FoldersOrdering,
        group: Option<Seq<char>>,
    },
    Recent { collection: usize, group: Option<Seq<char>> },
    FolderFile { collection: usize, path: Seq<char>, cache: Option<u32> },
    Unservable,
}

/// The text of an optional string.
pub open spec fn opt_text(s: Option<String>) -> Option<Seq<char>> {
    match s {
        Some(s) => Some(s@),
        None => None,
    }
}

impl View for Route {
    type V = RouteView;

    open spec fn view(&self) -> RouteView {
        match self {
            Route::Plain(r) => RouteView::Plain(*r),
            Route::Collections => RouteView::Collections,
            Route::WebSocket => RouteView::WebSocket,
            Route::PositionSocket => RouteView::PositionSocket,
            Route::AllPositions { group, filter } => RouteView::AllPositions { group: group@ },
            Route::LastPosition { group } => RouteView::LastPosition { group: group@ },
            Route::FolderPosition { group, collection, path, recursive, filter } => {
                RouteView::FolderPosition {
                    group: group@,
                    collection: *collection,
                    path: path@,
                    recursive: *recursive,
                }
            },
            Route::InsertPosition { group } => RouteView::InsertPosition { group: group@ },
            Route::Audio { collection, path, range } => RouteView::Audio {
                collection: *collection,
                path: path@,
                range: *range,
            },
            Route::Media { collection, track_id, range } => RouteView::Media {
                collection: *collection,
                track_id: *track_id,
                range: *range,
            },
            Route::Folder { collection, path, ord, group } => RouteView::Folder {
                collection: *collection,
                path: path@,
                ord: *ord,
                group: opt_text(*group),
            },
            Route::All { collection } => RouteView::All { collection: *collection },
            Route::Download { collection, path, format, merged } => RouteView::Download {
                collection: *collection,
                path: path@,
                format: *format,
                merged: opt_text(*merged),
            },
            Route::Search { collection, query, ord, group } => RouteView::Search {
                collection: *collection,
                query: query@,
                ord: *ord,
                group: opt_text(*group),
            },
            Route::Recent { collection, group } => RouteView::Recent {
                collection: *collection,
                group: opt_text(*group),
            },
            Route::FolderFile { collection, path, cache } => RouteView::FolderFile {
                collection: *collection,
                path: path@,
                cache: *cache,
            },
            Route::Unservable => RouteView::Unservable,
        }
    }
}

impl Route {
    /// A filter of this answer is the one that the parameters ask for.
    pub open spec fn filters_by(&self, params: Map<Seq<char>, Seq<char>>) -> bool {
        match self {
            Route::AllPositions { group, filter } => is_filter(*filter, params),
            Route::FolderPosition { group, collection, path, recursive, filter } => is_filter(
                *filter,
                params,
            ),
            _ => true,
        }
    }
}

/// The value of a parameter, if it is there.
pub open spec fn param(params: Map<Seq<char>, Seq<char>>, name: Seq<char>) -> Option<Seq<char>> {
    if params.contains_key(name) {
        Some(params[name])
    } else {
        None
    }
}

/// The ordering that the parameters ask for.
pub open spec fn ord_param(params: Map<Seq<char>, Seq<char>>) -> FoldersOrdering {
    match param(params, "ord"@) {
        Some(l) => audio_meta::ordering_for(l),
        None => FoldersOrdering::Alphabetical,
    }
}

/// The format of a download that the parameters ask for.
pub open spec fn format_param(params: Map<Seq<char>, Seq<char>>) -> DownloadFormat {
    match param(params, "fmt"@) {
        Some(f) => match types::format_named(f) {
            Some(f) => f,
            None => DownloadFormat::Tar,
        },
        None => DownloadFormat::Tar,
    }
}

/// Whether `regex` takes a text for an expression.
pub uninterp spec fn is_regex(s: Seq<char>) -> bool;

/// `regex::Regex::new`: whether a text is an expression. It depends on the text alone.
#[verifier::external_body]
fn check_regex(s: &str) -> (r: bool)
    ensures
        r == is_regex(s@),
{
    regex::Regex::new(s).is_ok()
}

/// The expression for the subfolders whose files a download includes.
pub open spec fn merged_param(
    params: Map<Seq<char>, Seq<char>>,
    collapse_regex: Option<Seq<char>>,
) -> Option<Seq<char>> {
    match collapse_regex {
        Some(re) => if params.contains_key("collapsed"@) && is_regex(re) {
            Some(re)
        } else {
            None
        },
        None => None,
    }
}

/// The answer to a refused request for ranges.
pub open spec fn range_reply(r: RangeRefusal) -> Reply {
    match r {
        RangeRefusal::NoRange => Reply::BadRequest,
        RangeRefusal::ManyRanges => Reply::NotImplemented,
    }
}

/// The answer to a refused request for ranges.
fn reply_to_ranges(r: RangeRefusal) -> (p: Reply)
    ensures
        p == range_reply(r),
{
    match r {
        RangeRefusal::NoRange => Reply::BadRequest,
        RangeRefusal::ManyRanges => Reply::NotImplemented,
    }
}

/// The answer to a request for an audio file.
pub open spec fn audio_route(
    path: Seq<char>,
    collection: usize,
    range: Result<Option<ByteRange>, RangeRefusal>,
) -> RouteView {
    match range {
        Ok(range) => RouteView::Audio {
            collection,
            path: paths::rest_after(path, "/audio/"@),
            range,
        },
        Err(e) => RouteView::Plain(range_reply(e)),
    }
}

/// The answer to a request for the file of a track.
pub open spec fn media_route(
    path: Seq<char>,
    collection: usize,
    range: Result<Option<ByteRange>, RangeRefusal>,
) -> RouteView {
    match range {
        Ok(range) => match text::number_up_to(
            paths::rest_after(path, "/media/"@),
            u32::MAX as nat,
        ) {
            Some(id) => RouteView::Media { collection, track_id: id as u32, range },
            None => RouteView::Unservable,
        },
        Err(e) => RouteView::Plain(range_reply(e)),
    }
}

/// The answer to a request for the download of a folder.
pub open spec fn download_route(
    path: Seq<char>,
    collection: usize,
    params: Map<Seq<char>, Seq<char>>,
    merged: Option<Seq<char>>,
    cfg: RouteConfig,
) -> RouteView {
    if !cfg.folder_download {
        RouteView::Plain(Reply::NotFound)
    } else if paths::is_under(path, "/download/"@) {
        RouteView::Download {
            collection,
            path: paths::rest_after(path, "/download/"@),
            format: format_param(params),
            merged,
        }
    } else {
        RouteView::Unservable
    }
}

/// The answer to a request within a collection.
pub open spec fn collection_route(
    path: Seq<char>,
    collection: usize,
    params: Map<Seq<char>, Seq<char>>,
    range: Result<Option<ByteRange>, RangeRefusal>,
    cfg: RouteConfig,
) -> RouteView {
    let group = param(params, "group"@);
    let ord = ord_param(params);
    if "/audio/"@.is_prefix_of(path) {
        audio_route(path, collection, range)
    } else if "/media/"@.is_prefix_of(path) {
        media_route(path, collection, range)
    } else if "/folder/"@.is_prefix_of(path) {
        RouteView::Folder {
            collection,
            path: paths::rest_after(path, "/folder/"@),
            ord,
            group,
        }
    } else if "/all"@.is_prefix_of(path) {
        RouteView::All { collection }
    } else if !cfg.disable_folder_download && "/download"@.is_prefix_of(path) {
        download_route(
            path,
            collection,
            params,
            merged_param(params, opt_text(cfg.collapse_regex)),
            cfg,
        )
    } else if path == "/search"@ {
        match param(params, "q"@) {
            Some(query) => RouteView::Search { collection, query, ord, group },
            None => RouteView::Plain(Reply::NotFound),
        }
    } else if "/recent"@.is_prefix_of(path) {
        RouteView::Recent { collection, group }
    } else if "/cover/"@.is_prefix_of(path) {
        RouteView::FolderFile {
            collection,
            path: paths::rest_after(path, "/cover"@),
            cache: cfg.folder_file_cache_age,
        }
    } else if "/desc/"@.is_prefix_of(path) {
        RouteView::FolderFile {
            collection,
            path: paths::rest_after(path, "/desc"@),
            cache: cfg.folder_file_cache_age,
        }
    } else {
        RouteView::Plain(Reply::NotFound)
    }
}

/// The answer to a request for positions.
pub open spec fn positions_route(path: Seq<char>, params: Map<Seq<char>, Seq<char>>) -> RouteView {
    match group_of(path) {
        GroupView::Group(group) => if has_filter(params) {
            RouteView::AllPositions { group }
        } else {
            RouteView::Plain(Reply::BadRequest)
        },
        GroupView::Last(group) => RouteView::LastPosition { group },
        GroupView::Path { group, collection, path } => if has_filter(params) {
            RouteView::FolderPosition {
                group,
                collection,
                path,
                recursive: params.contains_key("rec"@),
            }
        } else {
            RouteView::Plain(Reply::BadRequest)
        },
        GroupView::Malformed => RouteView::Plain(Reply::BadRequest),
    }
}

/// The answer to a request that gets something.
pub open spec fn get_route(
    path: Seq<char>,
    params: Map<Seq<char>, Seq<char>>,
    range: Result<Option<ByteRange>, RangeRefusal>,
    cfg: RouteConfig,
) -> RouteView {
    if "/collections"@.is_prefix_of(path) {
        RouteView::Collections
    } else if "/ws"@.is_prefix_of(path) {
        RouteView::WebSocket
    } else if cfg.shared_positions && "/positions"@.is_prefix_of(path) {
        positions_route(path, params)
    } else if cfg.shared_positions && "/position"@.is_prefix_of(path) {
        RouteView::PositionSocket
    } else {
        match collection_of(path, cfg.collections) {
            Numbered::Unreadable => RouteView::Unservable,
            Numbered::OutOfRange => RouteView::Plain(Reply::NotFound),
            Numbered::At(p, n) => collection_route(p, n, params, range, cfg),
        }
    }
}

/// Whether all bytes of a header's value are visible ASCII, spaces or tabs.
pub open spec fn is_visible(value: Seq<u8>) -> bool {
    forall|i: int| 0 <= i < value.len() ==> 32 <= #[trigger] value[i] < 127 || value[i] == 9
}

/// Bytes of ASCII as a text.
pub open spec fn ascii_text(value: Seq<u8>) -> Seq<char> {
    value.map_values(|b: u8| b as char)
}

/// `http::HeaderValue::to_str`: the value as a text if all its bytes are visible ASCII, spaces or
/// tabs, and an error, here `None`, if one is not. `HeaderValue::from_bytes`, which makes the
/// value, takes all bytes that `to_str` does.
#[verifier::external_body]
fn header_text(value: &Vec<u8>) -> (r: Option<String>)
    ensures
        opt_text(r) == if is_visible(value@) {
            Some(ascii_text(value@))
        } else {
            None
        },
{
    headers::HeaderValue::from_bytes(value).ok()?.to_str().ok().map(|s| s.to_string())
}

/// Whether a content type is that of JSON, without regard to case. A value that is no text is not.
pub open spec fn is_json(content_type: Option<Seq<u8>>) -> bool {
    &&& content_type is Some
    &&& is_visible(content_type->0)
    &&& text::ascii_lower(ascii_text(content_type->0)) == "application/json"@
}

/// The bytes of a header's value, if there is one.
pub open spec fn opt_bytes(value: Option<Vec<u8>>) -> Option<Seq<u8>> {
    match value {
        Some(v) => Some(v@),
        None => None,
    }
}

/// Whether the value of a `Content-Type` header is that of JSON, without regard to case.
pub fn is_json_type(content_type: &Option<Vec<u8>>) -> (r: bool)
    ensures
        r == is_json(opt_bytes(*content_type)),
{
    match content_type {
        Some(v) => match header_text(v) {
            Some(t) => text::is_lower_of("application/json", t.as_str()),
            None => false,
        },
        None => false,
    }
}

/// The answer to a request that sends something.
pub open spec fn post_route(path: Seq<char>, is_json: bool, cfg: RouteConfig) -> RouteView {
    if !cfg.shared_positions {
        RouteView::Plain(Reply::MethodNotSupported)
    } else if !"/positions"@.is_prefix_of(path) {
        RouteView::Plain(Reply::NotFound)
    } else {
        match group_of(path) {
            GroupView::Group(group) => if is_json {
                RouteView::InsertPosition { group }
            } else {
                RouteView::Plain(Reply::BadRequest)
            },
            _ => RouteView::Plain(Reply::BadRequest),
        }
    }
}

/// The answer to a request.
pub open spec fn route_for(
    path: Seq<char>,
    params: Map<Seq<char>, Seq<char>>,
    method: Method,
    is_json: bool,
    range: Result<Option<ByteRange>, RangeRefusal>,
    cfg: RouteConfig,
) -> RouteView {
    match method {
        Method::Get => get_route(path, params, range, cfg),
        Method::Post => post_route(path, is_json, cfg),
        _ => RouteView::Plain(Reply::MethodNotSupported),
    }
}

/// The expression for the subfolders whose files go with a download, if it is one.
fn merged_folders(params: &QueryParams, cfg: &RouteConfig) -> (r: Option<String>)
    requires
        params.wf(),
    ensures
        opt_text(r) == merged_param(params@, opt_text(cfg.collapse_regex)),
{
    match &cfg.collapse_regex {
        Some(re) => if params.is_present("collapsed") && check_regex(re.as_str()) {
            Some(re.clone())
        } else {
            None
        },
        None => None,
    }
}

/// Decides the answer to a request for the download of a folder; `merged` is the expression for
/// the subfolders whose files go with it.
pub fn process_download(
    path: &str,
    collection: usize,
    params: &QueryParams,
    merged: Option<String>,
    cfg: &RouteConfig,
) -> (r: Route)
    requires
        params.wf(),
    ensures
        r@ == download_route(path@, collection, params@, opt_text(merged), *cfg),
        r.filters_by(params@),
{
    if !cfg.folder_download {
        return Route::Plain(Reply::NotFound);
    }
    let format = match params.get("fmt") {
        Some(f) => match DownloadFormat::from_name(f) {
            Some(f) => f,
            None => DownloadFormat::default(),
        },
        None => DownloadFormat::default(),
    };
    if paths::starts_with(path, "/download/") {
        Route::Download { collection, path: get_subpath(path, "/download/"), format, merged }
    } else {
        Route::Unservable
    }
}

/// A path whose text starts with a text that ends with a separator lies under it.
proof fn below(path: Seq<char>, prefix: Seq<char>)
    requires
        prefix.len() > 0,
        prefix.last() == '/',
    ensures
        prefix.is_prefix_of(path) ==> paths::is_under(path, prefix),
{
    if prefix.is_prefix_of(path) {
        paths::text_below_is_under(path, prefix);
    }
}

/// A path whose text goes on behind a separator lies under what stands before it.
proof fn below_open(path: Seq<char>, prefix: Seq<char>, open: Seq<char>)
    requires
        open.len() > 1,
        prefix == open.push('/'),
        open.last() != '/',
        open[0] == '/',
    ensures
        prefix.is_prefix_of(path) ==> paths::is_under(path, open),
{
    below(path, prefix);
    assert(prefix =~= paths::joined(open, Seq::empty()));
    paths::joining_appends_components(open, Seq::empty());
    assert(paths::components(Seq::<char>::empty()) =~= Seq::empty());
    assert(paths::components(prefix) =~= paths::components(open));
}

/// Decides the answer to a request within a collection.
pub fn process_collection(
    path: &str,
    collection: usize,
    params: &QueryParams,
    range: Result<Option<ByteRange>, RangeRefusal>,
    cfg: &RouteConfig,
) -> (r: Route)
    requires
        params.wf(),
    ensures
        r@ == collection_route(path@, collection, params@, range, *cfg),
        r.filters_by(params@),
{
    proof {
        reveal_strlit("/audio/");
        reveal_strlit("/media/");
        reveal_strlit("/folder/");
        reveal_strlit("/cover/");
        reveal_strlit("/cover");
        reveal_strlit("/desc/");
        reveal_strlit("/desc");
        below(path@, "/audio/"@);
        below(path@, "/media/"@);
        below(path@, "/folder/"@);
        assert("/cover/"@ =~= "/cover"@.push('/'));
        assert("/desc/"@ =~= "/desc"@.push('/'));
        below_open(path@, "/cover/"@, "/cover"@);
        below_open(path@, "/desc/"@, "/desc"@);
    }
    let ord = match params.get("ord") {
        Some(l) => FoldersOrdering::from_letter(l),
        None => FoldersOrdering::Alphabetical,
    };
    if text::has_prefix(path, "/audio/") {
        match range {
            Ok(range) => Route::Audio { collection, path: get_subpath(path, "/audio/"), range },
            Err(e) => Route::Plain(reply_to_ranges(e)),
        }
    } else if text::has_prefix(path, "/media/") {
        match range {
            Ok(range) => match text::parse_number(
                get_subpath(path, "/media/").as_str(),
                u32::MAX as u64,
            ) {
                Some(id) => Route::Media { collection, track_id: id as u32, range },
                None => Route::Unservable,
            },
            Err(e) => Route::Plain(reply_to_ranges(e)),
        }
    } else if text::has_prefix(path, "/folder/") {
        let group = params.get_string("group");
        Route::Folder { collection, path: get_subpath(path, "/folder/"), ord, group }
    } else if text::has_prefix(path, "/all") {
        Route::All { collection }
    } else if !cfg.disable_folder_download && text::has_prefix(path, "/download") {
        let merged = merged_folders(params, cfg);
        process_download(path, collection, params, merged, cfg)
    } else if text::same_text(path, "/search") {
        match params.get_string("q") {
            Some(query) => {
                let group = params.get_string("group");
                Route::Search { collection, query, ord, group }
            },
            None => Route::Plain(Reply::NotFound),
        }
    } else if text::has_prefix(path, "/recent") {
        let group = params.get_string("group");
        Route::Recent { collection, group }
    } else if text::has_prefix(path, "/cover/") {
        Route::FolderFile {
            collection,
            path: get_subpath(path, "/cover"),
            cache: cfg.folder_file_cache_age,
        }
    } else if text::has_prefix(path, "/desc/") {
        Route::FolderFile {
            collection,
            path: get_subpath(path, "/desc"),
            cache: cfg.folder_file_cache_age,
        }
    } else {
        Route::Plain(Reply::NotFound)
    }
}

/// Decides the answer to a request for positions.
pub fn process_positions(path: &str, params: &QueryParams) -> (r: Route)
    requires
        params.wf(),
    ensures
        r@ == positions_route(path@, params@),
        r.filters_by(params@),
{
    match extract_group(path) {
        PositionGroup::Group(group) => match position_params(params) {
            Ok(filter) => Route::AllPositions { group, filter },
            Err(_) => Route::Plain(Reply::BadRequest),
        },
        PositionGroup::Last(group) => Route::LastPosition { group },
        PositionGroup::Path { group, collection, path } => {
            let recursive = params.is_present("rec");
            match position_params(params) {
                Ok(filter) => Route::FolderPosition { group, collection, path, recursive, filter },
                Err(_) => Route::Plain(Reply::BadRequest),
            }
        },
        PositionGroup::Malformed => Route::Plain(Reply::BadRequest),
    }
}

/// Decides the answer to a request that gets something.
fn process_get(
    path: &str,
    params: &QueryParams,
    range: Result<Option<ByteRange>, RangeRefusal>,
    cfg: &RouteConfig,
) -> (r: Route)
    requires
        params.wf(),
    ensures
        r@ == get_route(path@, params@, range, *cfg),
        r.filters_by(params@),
{
    if text::has_prefix(path, "/collections") {
        Route::Collections
    } else if text::has_prefix(path, "/ws") {
        Route::WebSocket
    } else if cfg.shared_positions && text::has_prefix(path, "/positions") {
        process_positions(path, params)
    } else if cfg.shared_positions && text::has_prefix(path, "/position") {
        Route::PositionSocket
    } else if !has_readable_number(path) {
        assert(collection_of(path@, cfg.collections) is Unreadable);
        Route::Unservable
    } else {
        assert(!(collection_of(path@, cfg.collections) is Unreadable));
        match extract_collection_number(path, cfg.collections) {
            Ok((p, collection)) => process_collection(p, collection, params, range, cfg),
            Err(_) => Route::Plain(Reply::NotFound),
        }
    }
}

/// Decides the answer to a request that sends something.
fn process_post(path: &str, is_json: bool, cfg: &RouteConfig) -> (r: Route)
    ensures
        r@ == post_route(path@, is_json, *cfg),
        forall|params: Map<Seq<char>, Seq<char>>| r.filters_by(params),
{
    if !cfg.shared_positions {
        return Route::Plain(Reply::MethodNotSupported);
    }
    if !text::has_prefix(path, "/positions") {
        return Route::Plain(Reply::NotFound);
    }
    match extract_group(path) {
        PositionGroup::Group(group) => if is_json {
            Route::InsertPosition { group }
        } else {
            Route::Plain(Reply::BadRequest)
        },
        _ => Route::Plain(Reply::BadRequest),
    }
}

/// Decides the answer to a request with the given path and parameters.
pub fn process_path(
    path: &str,
    params: &QueryParams,
    method: Method,
    is_json: bool,
    range: Result<Option<ByteRange>, RangeRefusal>,
    cfg: &RouteConfig,
) -> (r: Route)
    requires
        params.wf(),
    ensures
        r@ == route_for(path@, params@, method, is_json, range, *cfg),
        r.filters_by(params@),
{
    match method {
        Method::Get => process_get(path, params, range, cfg),
        Method::Post => process_post(path, is_json, cfg),
        _ => Route::Plain(Reply::MethodNotSupported),
    }
}

/// The parameters of a request.
pub open spec fn params_of(query: Option<Seq<char>>) -> Map<Seq<char>, Seq<char>> {
    match query {
        Some(q) => request::last_values(request::form_pairs(q)),
        None => Map::empty(),
    }
}

/// Decides the answer to a request that was let in.
pub fn process_checked(req: &RequestWrapper, head: &RequestHead, cfg: &RouteConfig) -> (r: Route)
    ensures
        r@ == route_for(
            req@.path,
            params_of(req@.query),
            head.method,
            is_json(opt_bytes(head.content_type)),
            files::single_range(files::asked_ranges(opt_bytes(head.range))),
            *cfg,
        ),
        r.filters_by(params_of(req@.query)),
{
    let params = req.params();
    let json = is_json_type(&head.content_type);
    let range = files::requested_range(&head.range);
    process_path(req.path(), &params, head.method, json, range, cfg)
}

} // verus!
