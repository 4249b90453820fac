//! What holds of the answers to all requests.

use crate::paths;
use crate::position::{Position, PositionFilter};
use crate::services::files;
use crate::services::files::{ByteRange, RangeRefusal};
use crate::services::request;
use crate::services::request::RequestWrapper;
use crate::services::routing;
use crate::services::routing::{
    GroupView, Method, Numbered, PositionGroup, Reply, RequestHead, Route, RouteConfig, RouteView,
};
use crate::text;
use vstd::prelude::*;
use vstd::string::*;

verus! {

/// The parameters of a request, by name.
pub type Params = Map<Seq<char>, Seq<char>>;

/// The range that a request asks for.
pub type Asked = Result<Option<ByteRange>, RangeRefusal>;

/// The collection that an answer within a collection names.
pub open spec fn named_collection(r: Route) -> Option<usize> {
    match r {
        Route::Audio { collection, path: _, range: _ } => Some(collection),
        Route::Media { collection, track_id: _, range: _ } => Some(collection),
        Route::Folder { collection, path: _, ord: _, group: _ } => Some(collection),
        Route::All { collection } => Some(collection),
        Route::Download { collection, path: _, format: _, merged: _ } => Some(collection),
        Route::Search { collection, query: _, ord: _, group: _ } => Some(collection),
        Route::Recent { collection, group: _ } => Some(collection),
        Route::FolderFile { collection, path: _, cache: _ } => Some(collection),
        _ => None,
    }
}

/// Every answer within a collection names that collection, or nothing is served.
pub proof fn answers_name_their_collection(
    path: Seq<char>,
    collection: usize,
    params: Params,
    range: Asked,
    cfg: RouteConfig,
    r: Route,
)
    requires
        r@ == routing::collection_route(path, collection, params, range, cfg),
    ensures
        named_collection(r) == Some(collection) || r is Plain || r is Unservable,
{
}

/// The run of marked characters ends at the first one that is not marked.
proof fn run_ends_at_first_unmarked(marks: Seq<bool>, i: int)
    requires
        0 <= i <= marks.len(),
    ensures
        i <= routing::run_end(marks, i) <= marks.len(),
        forall|j: int| i <= j < routing::run_end(marks, i) ==> marks[j],
        routing::run_end(marks, i) < marks.len() ==> !marks[routing::run_end(marks, i)],
    decreases marks.len() - i,
{
    if i < marks.len() && marks[i] {
        run_ends_at_first_unmarked(marks, i + 1);
    }
}

/// A path starts with a number that ends at `k`: a separator, at least one digit, nothing but
/// digits, and a separator that something follows.
pub open spec fn starts_with_number(path: Seq<char>, marks: Seq<bool>, k: int) -> bool {
    &&& 1 < k < path.len() - 1
    &&& path[0] == '/'
    &&& forall|i: int| 1 <= i < k ==> #[trigger] marks[i]
    &&& !marks[k]
    &&& path[k] == '/'
    &&& path[k + 1] != '\n'
}

/// The number of a collection in a path is found where one stands, and nowhere else.
pub proof fn numbers_are_found_where_they_stand(path: Seq<char>, marks: Seq<bool>, k: int)
    requires
        marks.len() == path.len(),
    ensures
        routing::number_end(path, marks) == Some(k) <==> starts_with_number(path, marks, k),
{
    if path.len() > 0 {
        run_ends_at_first_unmarked(marks, 1);
        let e = routing::run_end(marks, 1);
        if starts_with_number(path, marks, k) {
            if e < k {
                assert(marks[e]);
            }
            if k < e {
                assert(!marks[k]);
            }
        }
    }
}

/// An answer within a collection names the one whose number the path starts with, which has to be
/// one of those there are, or the first one if the path starts with no number.
pub proof fn collection_is_the_one_of_the_path(
    path: Seq<char>,
    params: Params,
    range: Asked,
    cfg: RouteConfig,
    r: Route,
)
    requires
        r@ == routing::get_route(path, params, range, cfg),
        named_collection(r) is Some,
    ensures
        ({
            let marks = path.map_values(|c: char| routing::unicode_digit(c));
            &&& (forall|k: int| !starts_with_number(path, marks, k)) ==> named_collection(r)
                == Some(0usize)
            &&& forall|k: int| #[trigger]
                starts_with_number(path, marks, k) ==> {
                    &&& text::number_in(path.subrange(1, k)) == Some(named_collection(r)->0 as nat)
                    &&& named_collection(r)->0 < cfg.collections
                }
        }),
{
    let marks = path.map_values(|c: char| routing::unicode_digit(c));
    assert forall|k: int| #[trigger] starts_with_number(path, marks, k) implies {
        &&& text::number_in(path.subrange(1, k)) == Some(named_collection(r)->0 as nat)
        &&& named_collection(r)->0 < cfg.collections
    } by {
        numbers_are_found_where_they_stand(path, marks, k);
    }
    if routing::number_end(path, marks) is Some {
        let k = routing::number_end(path, marks)->0;
        numbers_are_found_where_they_stand(path, marks, k);
        assert(starts_with_number(path, marks, k));
    }
}

/// A path with the number of a collection before it leads to the same path in that collection; a
/// number without a collection leads nowhere.
pub proof fn number_leads_to_its_collection(n: nat, rest: Seq<char>, count: usize)
    requires
        rest.len() > 1,
        rest[0] == '/',
        rest[1] != '\n',
        n <= usize::MAX,
    ensures
        routing::ascii_collection_of(seq!['/'] + text::decimal(n) + rest, count) == if n < count {
            Numbered::At(rest, n as usize)
        } else {
            Numbered::OutOfRange
        },
{
    let digits = text::decimal(n);
    let path = seq!['/'] + digits + rest;
    let marks = path.map_values(|c: char| text::is_digit(c));
    let k = 1 + digits.len() as int;
    text::number_survives_writing(n);
    assert forall|i: int| 1 <= i < k implies #[trigger] marks[i] by {
        assert(path[i] == digits[i - 1]);
        assert(text::is_digit(digits[i - 1]));
    }
    assert(path[k] == rest[0]);
    assert(path[k + 1] == rest[1]);
    assert(path.subrange(1, k) =~= digits);
    assert(path.skip(k) =~= rest);
    numbers_are_found_where_they_stand(path, marks, k);
}

/// A path without the number of a collection is one of the first collection.
pub proof fn path_without_number_is_of_the_first_collection(path: Seq<char>, count: usize)
    requires
        path.len() > 1 ==> path[0] != '/' || !text::is_digit(path[1]),
    ensures
        routing::ascii_collection_of(path, count) == Numbered::At(path, 0),
{
    let marks = path.map_values(|c: char| text::is_digit(c));
    if path.len() > 1 {
        run_ends_at_first_unmarked(marks, 1);
        if routing::run_end(marks, 1) > 1 {
            assert(marks[1]);
        }
    } else if path.len() == 1 {
        run_ends_at_first_unmarked(marks, 1);
    }
}

/// An answer within a collection, in another collection.
pub open spec fn in_collection(r: RouteView, n: usize) -> RouteView {
    match r {
        RouteView::Audio { collection: _, path, range } => RouteView::Audio {
            collection: n,
            path,
            range,
        },
        RouteView::Media { collection: _, track_id, range } => RouteView::Media {
            collection: n,
            track_id,
            range,
        },
        RouteView::Folder { collection: _, path, ord, group } => RouteView::Folder {
            collection: n,
            path,
            ord,
            group,
        },
        RouteView::All { collection: _ } => RouteView::All { collection: n },
        RouteView::Download { collection: _, path, format, merged } => RouteView::Download {
            collection: n,
            path,
            format,
            merged,
        },
        RouteView::Search { collection: _, query, ord, group } => RouteView::Search {
            collection: n,
            query,
            ord,
            group,
        },
        RouteView::Recent { collection: _, group } => RouteView::Recent { collection: n, group },
        RouteView::FolderFile { collection: _, path, cache } => RouteView::FolderFile {
            collection: n,
            path,
            cache,
        },
        _ => r,
    }
}

/// The same request in another collection gets the same answer from there.
pub proof fn collections_are_served_alike(
    path: Seq<char>,
    a: usize,
    b: usize,
    params: Params,
    range: Asked,
    cfg: RouteConfig,
)
    ensures
        routing::collection_route(path, b, params, range, cfg) == in_collection(
            routing::collection_route(path, a, params, range, cfg),
            b,
        ),
{
}

/// A text that starts with another one has its characters.
proof fn starts_alike(path: Seq<char>, prefix: Seq<char>)
    requires
        prefix.is_prefix_of(path),
    ensures
        prefix.len() <= path.len(),
        forall|i: int| 0 <= i < prefix.len() ==> #[trigger] path[i] == prefix[i],
{
    assert forall|i: int| 0 <= i < prefix.len() implies #[trigger] path[i] == prefix[i] by {
        assert(path.subrange(0, prefix.len() as int)[i] == path[i]);
    }
}

/// The words with which paths within a collection start differ in their second or third character.
proof fn words_differ(path: Seq<char>)
    ensures
        "/audio/"@.is_prefix_of(path) ==> path[1] == 'a' && path[2] == 'u',
        "/media/"@.is_prefix_of(path) ==> path[1] == 'm',
        "/folder/"@.is_prefix_of(path) ==> path[1] == 'f',
        "/all"@.is_prefix_of(path) ==> path[1] == 'a' && path[2] == 'l',
        "/download"@.is_prefix_of(path) ==> path[1] == 'd' && path[2] == 'o',
        path == "/search"@ ==> path[1] == 's',
        "/recent"@.is_prefix_of(path) ==> path[1] == 'r',
        "/cover/"@.is_prefix_of(path) ==> path[1] == 'c' && path[2] == 'o' && path[3] == 'v',
        "/desc/"@.is_prefix_of(path) ==> path[1] == 'd' && path[2] == 'e',
        "/collections"@.is_prefix_of(path) ==> path[1] == 'c' && path[2] == 'o' && path[3] == 'l',
        "/ws"@.is_prefix_of(path) ==> path[1] == 'w',
        "/position"@.is_prefix_of(path) ==> path[1] == 'p',
        "/positions"@.is_prefix_of(path) ==> path[1] == 'p',
{
    reveal_strlit("/audio/");
    reveal_strlit("/media/");
    reveal_strlit("/folder/");
    reveal_strlit("/all");
    reveal_strlit("/download");
    reveal_strlit("/search");
    reveal_strlit("/recent");
    reveal_strlit("/cover/");
    reveal_strlit("/desc/");
    reveal_strlit("/collections");
    reveal_strlit("/ws");
    reveal_strlit("/position");
    reveal_strlit("/positions");
    if "/audio/"@.is_prefix_of(path) {
        starts_alike(path, "/audio/"@);
    }
    if "/media/"@.is_prefix_of(path) {
        starts_alike(path, "/media/"@);
    }
    if "/folder/"@.is_prefix_of(path) {
        starts_alike(path, "/folder/"@);
    }
    if "/all"@.is_prefix_of(path) {
        starts_alike(path, "/all"@);
    }
    if "/download"@.is_prefix_of(path) {
        starts_alike(path, "/download"@);
    }
    if "/recent"@.is_prefix_of(path) {
        starts_alike(path, "/recent"@);
    }
    if "/cover/"@.is_prefix_of(path) {
        starts_alike(path, "/cover/"@);
    }
    if "/desc/"@.is_prefix_of(path) {
        starts_alike(path, "/desc/"@);
    }
    if "/collections"@.is_prefix_of(path) {
        starts_alike(path, "/collections"@);
    }
    if "/ws"@.is_prefix_of(path) {
        starts_alike(path, "/ws"@);
    }
    if "/position"@.is_prefix_of(path) {
        starts_alike(path, "/position"@);
    }
    if "/positions"@.is_prefix_of(path) {
        starts_alike(path, "/positions"@);
    }
}

/// Each kind of answer within a collection belongs to the paths that start with its word: such a
/// request gets no other kind, and no other request gets this one.
pub proof fn each_service_has_its_paths(
    path: Seq<char>,
    collection: usize,
    params: Params,
    range: Asked,
    cfg: RouteConfig,
    r: Route,
)
    requires
        r@ == routing::collection_route(path, collection, params, range, cfg),
    ensures
        r is Audio <==> "/audio/"@.is_prefix_of(path) && range is Ok,
        r is Media ==> "/media/"@.is_prefix_of(path) && range is Ok,
        r is Folder <==> "/folder/"@.is_prefix_of(path),
        r is All <==> "/all"@.is_prefix_of(path),
        r is Download ==> "/download"@.is_prefix_of(path) && cfg.folder_download
            && !cfg.disable_folder_download,
        r is Search <==> path == "/search"@ && params.contains_key("q"@),
        r is Recent <==> "/recent"@.is_prefix_of(path),
        r is FolderFile <==> "/cover/"@.is_prefix_of(path) || "/desc/"@.is_prefix_of(path),
        r is Unservable ==> "/media/"@.is_prefix_of(path) || "/download"@.is_prefix_of(path),
        !(r is AllPositions || r is LastPosition || r is FolderPosition || r is InsertPosition || r
            is Collections || r is WebSocket || r is PositionSocket),
{
    words_differ(path);
}

/// A file is served with the range that is asked for, as one range; a request for no range is bad,
/// and one for several is not served.
pub proof fn ranges_are_handed_on(
    path: Seq<char>,
    collection: usize,
    params: Params,
    range: Asked,
    cfg: RouteConfig,
    r: Route,
)
    requires
        r@ == routing::collection_route(path, collection, params, range, cfg),
        "/audio/"@.is_prefix_of(path) || "/media/"@.is_prefix_of(path),
    ensures
        match r {
            Route::Audio { collection: _, path: _, range: asked } => range is Ok && range->Ok_0
                == asked,
            Route::Media { collection: _, track_id: _, range: asked } => range is Ok && range->Ok_0
                == asked,
            Route::Plain(Reply::BadRequest) => range is Err && range->Err_0 is NoRange,
            Route::Plain(Reply::NotImplemented) => range is Err && range->Err_0 is ManyRanges,
            Route::Unservable => range is Ok && "/media/"@.is_prefix_of(path),
            _ => false,
        },
{
    words_differ(path);
}

/// A path whose word is followed by a separator is one that is put below the word.
proof fn word_and_rest(word: Seq<char>, sub: Seq<char>)
    requires
        word.len() > 0,
        word.last() == '/',
        paths::is_tidy(sub),
    ensures
        word.is_prefix_of(word + sub),
        paths::is_under(word + sub, word),
        paths::rest_after(word + sub, word) == sub,
{
    assert((word + sub).subrange(0, word.len() as int) =~= word);
    assert(paths::joined(word, sub) == word + sub);
    paths::stripping_undoes_joining(word, sub);
}

/// The same for a word without the separator that follows it.
proof fn open_word_and_rest(word: Seq<char>, open: Seq<char>, sub: Seq<char>)
    requires
        open.len() > 0,
        open.last() != '/',
        word == open.push('/'),
        paths::is_tidy(sub),
    ensures
        word.is_prefix_of(word + sub),
        paths::rest_after(word + sub, open) == sub,
{
    assert((word + sub).subrange(0, word.len() as int) =~= word);
    assert(paths::joined(open, sub) =~= word + sub);
    paths::stripping_undoes_joining(open, sub);
}

/// What follows the word of a service in a path is what is served: the audio file, the folder, the
/// folder that is downloaded, the cover or the description of that path, and the track of that
/// number.
pub proof fn what_follows_the_word_is_served(
    sub: Seq<char>,
    id: u32,
    collection: usize,
    params: Params,
    range: Asked,
    cfg: RouteConfig,
)
    requires
        paths::is_tidy(sub),
    ensures
        range is Ok ==> match routing::collection_route(
            "/audio/"@ + sub,
            collection,
            params,
            range,
            cfg,
        ) {
            RouteView::Audio { collection: _, path, range: _ } => path == sub,
            _ => false,
        },
        range is Ok ==> match routing::collection_route(
            "/media/"@ + text::decimal(id as nat),
            collection,
            params,
            range,
            cfg,
        ) {
            RouteView::Media { collection: _, track_id, range: _ } => track_id == id,
            _ => false,
        },
        match routing::collection_route("/folder/"@ + sub, collection, params, range, cfg) {
            RouteView::Folder { collection: _, path, ord: _, group: _ } => path == sub,
            _ => false,
        },
        cfg.folder_download && !cfg.disable_folder_download ==> match routing::collection_route(
            "/download/"@ + sub,
            collection,
            params,
            range,
            cfg,
        ) {
            RouteView::Download { collection: _, path, format: _, merged: _ } => path == sub,
            _ => false,
        },
        match routing::collection_route("/cover/"@ + sub, collection, params, range, cfg) {
            RouteView::FolderFile { collection: _, path, cache } => path == sub && cache
                == cfg.folder_file_cache_age,
            _ => false,
        },
        match routing::collection_route("/desc/"@ + sub, collection, params, range, cfg) {
            RouteView::FolderFile { collection: _, path, cache } => path == sub && cache
                == cfg.folder_file_cache_age,
            _ => false,
        },
{
    reveal_strlit("/audio/");
    reveal_strlit("/media/");
    reveal_strlit("/folder/");
    reveal_strlit("/download/");
    reveal_strlit("/download");
    reveal_strlit("/cover/");
    reveal_strlit("/cover");
    reveal_strlit("/desc/");
    reveal_strlit("/desc");
    words_differ("/audio/"@ + sub);
    word_and_rest("/audio/"@, sub);
    let digits = text::decimal(id as nat);
    text::number_survives_writing(id as nat);
    assert(paths::is_tidy(digits)) by {
        assert(text::is_digit(digits[0]));
        assert(text::is_digit(digits.last()));
        assert('0' <= digits[0] <= '9' && '0' <= digits.last() <= '9');
    }
    words_differ("/media/"@ + digits);
    word_and_rest("/media/"@, digits);
    words_differ("/folder/"@ + sub);
    word_and_rest("/folder/"@, sub);
    words_differ("/download/"@ + sub);
    word_and_rest("/download/"@, sub);
    assert("/download"@ =~= ("/download/"@ + sub).subrange(0, 9));
    assert("/cover/"@ =~= "/cover"@.push('/'));
    words_differ("/cover/"@ + sub);
    open_word_and_rest("/cover/"@, "/cover"@, sub);
    assert("/desc/"@ =~= "/desc"@.push('/'));
    words_differ("/desc/"@ + sub);
    open_word_and_rest("/desc/"@, "/desc"@, sub);
}

/// What the parameters of a request ask for is handed on: the group, the words to be searched for,
/// the most recent folders first only for the letter `m`, a zip archive only for its name, and the
/// files of merged folders only where they are asked for and can be told.
pub proof fn parameters_are_handed_on(
    path: Seq<char>,
    collection: usize,
    params: Params,
    range: Asked,
    cfg: RouteConfig,
    r: Route,
)
    requires
        r@ == routing::collection_route(path, collection, params, range, cfg),
    ensures
        match r {
            Route::Folder { collection: _, path: _, ord, group } => {
                &&& group is Some <==> params.contains_key("group"@)
                &&& group is Some ==> group->0@ == params["group"@]
                &&& ord is RecentFirst <==> params.contains_key("ord"@) && params["ord"@] == "m"@
            },
            Route::Search { collection: _, query, ord, group } => {
                &&& query@ == params["q"@]
                &&& group is Some <==> params.contains_key("group"@)
                &&& group is Some ==> group->0@ == params["group"@]
                &&& ord is RecentFirst <==> params.contains_key("ord"@) && params["ord"@] == "m"@
            },
            Route::Recent { collection: _, group } => {
                &&& group is Some <==> params.contains_key("group"@)
                &&& group is Some ==> group->0@ == params["group"@]
            },
            Route::Download { collection: _, path: _, format, merged } => {
                &&& format is Zip <==> params.contains_key("fmt"@) && params["fmt"@] == "zip"@
                &&& merged is Some <==> params.contains_key("collapsed"@) && cfg.collapse_regex
                    is Some && routing::is_regex(cfg.collapse_regex->0@)
                &&& merged is Some ==> merged->0@ == cfg.collapse_regex->0@
            },
            _ => true,
        },
{
    reveal_strlit("tar");
    reveal_strlit("zip");
    assert("tar"@[0] != "zip"@[0]);
}

/// What is served outside of collections: the list of collections and web sockets to everyone,
/// positions only where they are shared.
pub proof fn services_outside_of_collections(
    path: Seq<char>,
    params: Params,
    range: Asked,
    cfg: RouteConfig,
    r: Route,
)
    requires
        r@ == routing::get_route(path, params, range, cfg),
    ensures
        r is Collections <==> "/collections"@.is_prefix_of(path),
        r is WebSocket <==> "/ws"@.is_prefix_of(path),
        r is AllPositions || r is LastPosition || r is FolderPosition ==> cfg.shared_positions
            && "/positions"@.is_prefix_of(path),
        r is PositionSocket <==> cfg.shared_positions && "/position"@.is_prefix_of(path)
            && !"/positions"@.is_prefix_of(path),
        !(r is InsertPosition),
        named_collection(r) is Some ==> !"/collections"@.is_prefix_of(path)
            && !"/ws"@.is_prefix_of(path) && (cfg.shared_positions ==> !"/positions"@.is_prefix_of(
            path,
        )),
{
    words_differ(path);
    reveal_strlit("/collections");
    reveal_strlit("/ws");
    if "/collections"@.is_prefix_of(path) {
        starts_alike(path, "/collections"@);
    }
    if let Numbered::At(p, n) = routing::collection_of(path, cfg.collections) {
        let v = routing::collection_route(p, n, params, range, cfg);
        assert(!(v is Collections || v is WebSocket || v is PositionSocket || v is AllPositions || v
            is LastPosition || v is FolderPosition || v is InsertPosition));
    }
}

/// A segment of a path: it holds no separator.
pub open spec fn is_segment(s: Seq<char>) -> bool {
    !s.contains('/')
}

/// The pieces of a path of segments are an empty one and the segments, as far as it is cut.
proof fn pieces_are_segments(a: Seq<char>, rest: Seq<char>, n: nat)
    requires
        is_segment(a),
        n >= 2,
    ensures
        text::pieces(seq!['/'] + a + seq!['/'] + rest, '/', n) == seq![Seq::<char>::empty()] + (
        if n == 2 {
            seq![a + seq!['/'] + rest]
        } else {
            seq![a] + text::pieces(rest, '/', (n - 2) as nat)
        }),
        text::pieces(seq!['/'] + a, '/', n) == seq![Seq::<char>::empty(), a],
{
    let empty = Seq::<char>::empty();
    let tail = a + seq!['/'] + rest;
    text::first_piece_ends_at_separator(empty, tail, '/', n);
    assert(empty + seq!['/'] + tail =~= seq!['/'] + a + seq!['/'] + rest);
    if n == 2 {
        text::uncut_text_is_one_piece(tail, '/', 1);
    } else {
        text::first_piece_ends_at_separator(a, rest, '/', (n - 1) as nat);
    }
    text::first_piece_ends_at_separator(empty, a, '/', n);
    text::uncut_text_is_one_piece(a, '/', (n - 1) as nat);
    assert(empty + seq!['/'] + a =~= seq!['/'] + a);
    assert(seq![empty] + seq![a] =~= seq![empty, a]);
}

/// The positions that a path asks for are those of the group that it names second: all of them, the
/// last one for the word `last`, and those of the folder that it names behind the number of a
/// collection. A path that names no group asks for none.
pub proof fn positions_are_those_of_the_named_group(
    first: Seq<char>,
    group: Seq<char>,
    n: nat,
    folder: Seq<char>,
)
    requires
        is_segment(first),
        is_segment(group),
        n <= usize::MAX,
    ensures
        routing::group_of(seq!['/'] + first) is Malformed,
        routing::group_of(seq!['/'] + first + seq!['/'] + group) == GroupView::Group(group),
        routing::group_of(seq!['/'] + first + seq!['/'] + group + seq!['/'] + "last"@)
            == GroupView::Last(group),
        routing::group_of(
            seq!['/'] + first + seq!['/'] + group + seq!['/'] + text::decimal(n) + seq!['/']
                + folder,
        ) == (GroupView::Path { group, collection: n as usize, path: folder }),
        routing::group_of(
            seq!['/'] + first + seq!['/'] + group + seq!['/'] + text::decimal(n),
        ) is Malformed,
{
    let slash = seq!['/'];
    let empty = Seq::<char>::empty();
    reveal_strlit("last");
    pieces_are_segments(first, group, 5);
    text::uncut_text_is_one_piece(group, '/', 3);
    let p3 = text::pieces(slash + first + slash + group, '/', 5);
    assert(p3 =~= seq![empty, first, group]);
    // a fourth piece
    let last = "last"@;
    assert(!last.contains('/')) by {
        if last.contains('/') {
            let i = choose|i: int| 0 <= i < last.len() && last[i] == '/';
            assert(last[i] == '/');
        }
    }
    pieces_are_segments(first, group + slash + last, 5);
    text::first_piece_ends_at_separator(group, last, '/', 3);
    text::uncut_text_is_one_piece(last, '/', 2);
    assert(slash + first + slash + group + slash + last =~= slash + first + slash + (group + slash
        + last));
    assert(text::pieces(slash + first + slash + (group + slash + last), '/', 5) =~= seq![
        empty,
        first,
        group,
        last,
    ]);
    let digits = text::decimal(n);
    text::number_survives_writing(n);
    assert(!digits.contains('/')) by {
        if digits.contains('/') {
            let i = choose|i: int| 0 <= i < digits.len() && digits[i] == '/';
            assert(text::is_digit(digits[i]));
        }
    }
    assert(digits != last) by {
        assert(text::is_digit(digits[0]));
        assert(last[0] == 'l');
    }
    pieces_are_segments(first, group + slash + digits, 5);
    text::first_piece_ends_at_separator(group, digits, '/', 3);
    text::uncut_text_is_one_piece(digits, '/', 2);
    assert(slash + first + slash + group + slash + digits =~= slash + first + slash + (group
        + slash + digits));
    assert(text::pieces(slash + first + slash + (group + slash + digits), '/', 5) =~= seq![
        empty,
        first,
        group,
        digits,
    ]);
    let tail = digits + slash + folder;
    pieces_are_segments(first, group + slash + tail, 5);
    text::first_piece_ends_at_separator(group, tail, '/', 3);
    text::first_piece_ends_at_separator(digits, folder, '/', 2);
    text::uncut_text_is_one_piece(folder, '/', 1);
    assert(slash + first + slash + group + slash + digits + slash + folder =~= slash + first
        + slash + (group + slash + tail));
    assert(text::pieces(slash + first + slash + (group + slash + tail), '/', 5) =~= seq![
        empty,
        first,
        group,
        digits,
        folder,
    ]);
}

/// A request for positions is answered with those of the group that the path names, as it was asked
/// for, and recursively exactly if that was asked for; it is bad if the path or a time cannot be
/// read.
pub proof fn positions_are_answered_as_asked(path: Seq<char>, params: Params, r: Route, g: PositionGroup)
    requires
        r@ == routing::positions_route(path, params),
        g@ == routing::group_of(path),
    ensures
        match r {
            Route::AllPositions { group, filter: _ } => match g {
                PositionGroup::Group(named) => group@ == named@,
                _ => false,
            },
            Route::LastPosition { group } => match g {
                PositionGroup::Last(named) => group@ == named@,
                _ => false,
            },
            Route::FolderPosition { group, collection, path: folder, recursive, filter: _ } => match g {
                PositionGroup::Path { group: named, collection: no, path: below } => {
                    &&& group@ == named@
                    &&& collection == no
                    &&& folder@ == below@
                    &&& recursive <==> params.contains_key("rec"@)
                },
                _ => false,
            },
            Route::Plain(Reply::BadRequest) => g is Malformed || (!(g is Last)
                && !routing::has_filter(params)),
            _ => false,
        },
        g is Malformed ==> r is Plain,
        !routing::has_filter(params) ==> r is Plain || r is LastPosition,
{
}

/// Which positions a filter lets through: without one of the words `finished` and `unfinished`, or
/// with both, those of all folders, else only those of such folders; and never one before the time
/// `from` or after the time `to`.
pub proof fn filters_let_through_what_is_asked_for(f: PositionFilter, params: Params, p: Position)
    requires
        routing::is_filter(f, params),
    ensures
        ({
            let finished = params.contains_key("finished"@);
            let unfinished = params.contains_key("unfinished"@);
            f.wants(p) <==> {
                &&& p.folder_finished ==> finished || !unfinished
                &&& !p.folder_finished ==> unfinished || !finished
                &&& params.contains_key("from"@) ==> text::number_in(params["from"@])->0
                    <= p.timestamp.millis()
                &&& params.contains_key("to"@) ==> p.timestamp.millis() <= text::number_in(
                    params["to"@],
                )->0
            }
        }),
        params.contains_key("from"@) ==> text::number_in(params["from"@]) is Some,
        params.contains_key("to"@) ==> text::number_in(params["to"@]) is Some,
{
}

/// Whether the times of a filter can be read: each of them is missing or a number that fits.
pub proof fn readable_times_are_numbers(params: Params)
    ensures
        routing::has_filter(params) <==> {
            &&& params.contains_key("from"@) ==> text::number_in(params["from"@]) is Some
                && text::number_in(params["from"@])->0 <= u64::MAX
            &&& params.contains_key("to"@) ==> text::number_in(params["to"@]) is Some
                && text::number_in(params["to"@])->0 <= u64::MAX
        },
{
}

/// A position is stored only for a group that the path names, only where positions are shared, and
/// only if it is sent as JSON; everything else that is sent is turned away.
pub proof fn only_positions_are_taken(
    path: Seq<char>,
    is_json: bool,
    cfg: RouteConfig,
    r: Route,
    g: PositionGroup,
)
    requires
        r@ == routing::post_route(path, is_json, cfg),
        g@ == routing::group_of(path),
    ensures
        r is InsertPosition <==> cfg.shared_positions && is_json && "/positions"@.is_prefix_of(path)
            && g is Group,
        match (r, g) {
            (Route::InsertPosition { group }, PositionGroup::Group(named)) => group@ == named@,
            (Route::InsertPosition { .. }, _) => false,
            (Route::Plain(reply), _) => {
                &&& reply is MethodNotSupported <==> !cfg.shared_positions
                &&& reply is NotFound <==> cfg.shared_positions && !"/positions"@.is_prefix_of(path)
                &&& reply is MethodNotSupported || reply is NotFound || reply is BadRequest
            },
            _ => false,
        },
{
}

/// Only what is to be got or sent is answered at all, and nothing that is got changes a position.
pub proof fn other_methods_are_not_supported(
    path: Seq<char>,
    params: Params,
    method: Method,
    is_json: bool,
    range: Asked,
    cfg: RouteConfig,
    r: Route,
)
    requires
        r@ == routing::route_for(path, params, method, is_json, range, cfg),
    ensures
        method is Options || method is Other ==> r@ == RouteView::Plain(Reply::MethodNotSupported),
        r is InsertPosition ==> method is Post,
        !(r is Plain || r is InsertPosition) ==> method is Get,
        method is Get ==> r@ == routing::get_route(path, params, range, cfg),
        method is Post ==> r@ == routing::post_route(path, is_json, cfg),
{
    if method is Get {
        services_outside_of_collections(path, params, range, cfg, r);
    }
}

/// A content type is that of JSON exactly if it is this text in small or capital letters.
pub proof fn json_is_told_without_regard_to_case(value: Seq<u8>)
    ensures
        routing::is_json(Some(value)) <==> value.len() == 16 && forall|i: int|
            0 <= i < 16 ==> {
                let small = "application/json"@[i];
                ||| #[trigger] value[i] as char == small
                ||| 65 <= value[i] <= 90 && (value[i] + 32) as u8 as char == small
            },
        !routing::is_json(None),
{
    reveal_strlit("application/json");
    let want = "application/json"@;
    let got = text::ascii_lower(routing::ascii_text(value));
    assert(got.len() == value.len());
    if value.len() == 16 {
        assert forall|i: int| 0 <= i < 16 implies (got[i] == want[i]) == (value[i] as char
            == want[i] || (65 <= value[i] <= 90 && (value[i] + 32) as u8 as char == want[i])) by {
            assert(routing::ascii_text(value)[i] == value[i] as char);
        }
        if routing::is_json(Some(value)) {
            assert forall|i: int| 0 <= i < 16 implies {
                let small = "application/json"@[i];
                ||| #[trigger] value[i] as char == small
                ||| 65 <= value[i] <= 90 && (value[i] + 32) as u8 as char == small
            } by {
                assert(got[i] == want[i]);
            }
        }
        if forall|i: int|
            0 <= i < 16 ==> {
                let small = "application/json"@[i];
                ||| #[trigger] value[i] as char == small
                ||| 65 <= value[i] <= 90 && (value[i] + 32) as u8 as char == small
            } {
            assert forall|i: int| 0 <= i < 16 implies got[i] == want[i] by {
                let _ = value[i];
            }
            assert(got =~= want);
            assert(routing::is_visible(value));
        }
    }
}

/// What a request says of itself is what its answer goes by: a position is stored only if it is
/// sent, as JSON; a file is served with the one range of its `Range` header, or whole without one;
/// and a group is the one that the last parameter of this name gives.
pub proof fn answers_go_by_what_requests_say(
    req: &RequestWrapper,
    head: &RequestHead,
    cfg: &RouteConfig,
    r: Route,
)
    requires
        call_ensures(routing::process_checked, (req, head, cfg), r),
    ensures
        r is InsertPosition ==> head.method is Post && head.content_type is Some
            && routing::is_json(Some(head.content_type->0@)),
        match r {
            Route::Audio { collection: _, path: _, range } => is_range_of(range, head.range),
            Route::Media { collection: _, track_id: _, range } => is_range_of(range, head.range),
            Route::Folder { collection: _, path: _, ord: _, group } => {
                &&& req@.query is None ==> group is None
                &&& req@.query is Some ==> {
                    let pairs = request::form_pairs(req@.query->0);
                    &&& group is Some <==> exists|i: int|
                        0 <= i < pairs.len() && (#[trigger] pairs[i]).0 == "group"@
                    &&& forall|i: int|
                        0 <= i < pairs.len() && (#[trigger] pairs[i]).0 == "group"@ && (forall|
                            j: int,
                        |
                            i < j < pairs.len() ==> (#[trigger] pairs[j]).0 != "group"@)
                            ==> group is Some && group->0@ == pairs[i].1
                }
            },
            _ => true,
        },
        !(r is Plain || r is InsertPosition) ==> head.method is Get,
{
    let params = routing::params_of(req@.query);
    let range = files::single_range(files::asked_ranges(routing::opt_bytes(head.range)));
    other_methods_are_not_supported(
        req@.path,
        params,
        head.method,
        routing::is_json(routing::opt_bytes(head.content_type)),
        range,
        *cfg,
        r,
    );
    if head.method is Get {
        if let Numbered::At(p, n) = routing::collection_of(req@.path, cfg.collections) {
            if r is Audio || r is Media || r is Folder {
                parameters_are_handed_on(p, n, params, range, *cfg, r);
                each_service_has_its_paths(p, n, params, range, *cfg, r);
            }
            if r is Audio || r is Media {
                ranges_are_handed_on(p, n, params, range, *cfg, r);
            }
        }
    }
    if req@.query is Some {
        let pairs = request::form_pairs(req@.query->0);
        request::last_value_counts(pairs, "group"@, 0);
        assert forall|i: int|
            r is Folder && 0 <= i < pairs.len() && (#[trigger] pairs[i]).0 == "group"@ && (forall|
                j: int,
            |
                i < j < pairs.len() ==> (#[trigger] pairs[j]).0 != "group"@) implies params[
        "group"@] == pairs[i].1 by {
            request::last_value_counts(pairs, "group"@, i);
        }
    }
}

/// A range is the one that the value of a `Range` header holds; without a value that can be read
/// there is none.
pub open spec fn is_range_of(range: Option<ByteRange>, header: Option<Vec<u8>>) -> bool {
    match header {
        None => range is None,
        Some(h) => match files::header_ranges(h@) {
            None => range is None,
            Some(v) => v.len() == 1 && range == Some(v[0]),
        },
    }
}

} // verus!
