//! Paths and records of the cache.

use crate::audio_meta::{AudioFolderInner, AudioFolderShort};
use crate::error::Error;
use crate::paths;
use crate::text;
use crate::timestamp::TimeStamp;
use vstd::prelude::*;
use vstd::string::*;

verus! {

/// Where a path that lies under `from` goes when `from` becomes `to`.
pub open spec fn moved(from: Seq<char>, to: Seq<char>, p: Seq<char>) -> Seq<char> {
    let rest = paths::rest_after(p, from);
    if rest.len() == 0 {
        to
    } else {
        paths::joined(to, rest)
    }
}

/// Moves a path from under `from` to under `to`; `from` itself becomes `to`, without a trailing
/// separator.
pub fn update_path(from: &str, to: &str, p: &str) -> (r: Result<String, Error>)
    ensures
        match r {
            Ok(q) => paths::is_under(p@, from@) && q@ == moved(from@, to@, p@),
            Err(e) => !paths::is_under(p@, from@) && e is InvalidPath,
        },
{
    match paths::strip_prefix(p, from) {
        Some(rest) => if rest.unicode_len() == 0 {
            Ok(to.to_owned())
        } else {
            Ok(paths::join(to, rest))
        },
        None => Err(Error::InvalidPath),
    }
}

/// A path whose move keeps what is below `from`: something is taken off it, or it is relative
/// and does not start with a dot.
pub open spec fn moves_cleanly(from: Seq<char>, p: Seq<char>) -> bool {
    &&& paths::is_under(p, from)
    &&& from.len() > 0 || (!paths::is_rooted(p) && !paths::is_dotted(p))
}

/// A moved path lies under its new place, with the same components below it.
pub proof fn moving_keeps_what_is_below(from: Seq<char>, to: Seq<char>, p: Seq<char>)
    requires
        moves_cleanly(from, p),
    ensures
        paths::components(moved(from, to, p)) == paths::components(to) + paths::components(p).skip(
            paths::components(from).len() as int,
        ),
        paths::is_under(moved(from, to, p), to),
{
    let rest = paths::rest_after(p, from);
    let n = paths::components(from).len() as int;
    paths::rest_has_remaining_components(p, from);
    paths::spans_are_ordered(from);
    paths::spans_are_ordered(p);
    if from.len() == 0 && p.len() > 0 {
        assert(rest[0] == p[0]);
        assert(rest =~= p.take(paths::spans(p).last().1));
        if paths::is_dotted(rest) {
            paths::spans_are_ordered(rest);
            paths::trimming_keeps_components(p);
            assert(paths::spans(p)[0] == (0int, 1int));
            text::index_from_is_first(p, '/', 0);
        }
    }
    if rest.len() > 0 {
        paths::joining_appends_components(to, rest);
    } else {
        assert(paths::components(Seq::<char>::empty()) =~= Seq::empty());
        assert(paths::components(to) + paths::components(p).skip(n) =~= paths::components(to));
    }
    let q = paths::components(moved(from, to, p));
    assert(q.subrange(0, paths::components(to).len() as int) =~= paths::components(to));
}

/// Moving a path there and back again gives the same path.
pub proof fn moving_back_undoes_a_move(from: Seq<char>, to: Seq<char>, p: Seq<char>)
    requires
        moves_cleanly(from, p),
        moves_cleanly(to, moved(from, to, p)),
    ensures
        paths::components(moved(to, from, moved(from, to, p))) == paths::components(p),
{
    let q = moved(from, to, p);
    moving_keeps_what_is_below(from, to, p);
    moving_keeps_what_is_below(to, from, q);
    let cf = paths::components(from);
    let ct = paths::components(to);
    let cp = paths::components(p);
    assert(paths::components(q).skip(ct.len() as int) =~= cp.skip(cf.len() as int));
    assert(cp.subrange(0, cf.len() as int) =~= cf);
    assert(cf + cp.skip(cf.len() as int) =~= cp);
}

/// What lies at a path below `from` goes to the same path below `to`, and `from` itself to `to`.
pub proof fn moving_puts_below_the_new_place(from: Seq<char>, to: Seq<char>, p: Seq<char>)
    requires
        paths::is_tidy(p),
    ensures
        moved(from, to, paths::joined(from, p)) == paths::joined(to, p),
        moved(from, to, from) == to,
{
    paths::stripping_undoes_joining(from, p);
}

/// The parent of a path, or the empty path.
pub open spec fn parent_or_empty(p: Seq<char>) -> Seq<char> {
    match paths::parent_of(p) {
        Some(q) => q,
        None => Seq::empty(),
    }
}

/// The parent of something in a folder is the folder; something in the root of the collection has
/// the root as its parent.
pub proof fn parent_is_the_folder(folder: Seq<char>, name: Seq<char>)
    requires
        paths::is_single_name(name),
    ensures
        paths::components(parent_or_empty(paths::joined(folder, name))) == paths::components(
            folder,
        ),
        folder.len() == 0 ==> parent_or_empty(paths::joined(folder, name)) == folder,
{
    paths::name_below_is_last(folder, name);
    if folder.len() == 0 {
        let s = paths::joined(folder, name);
        assert(s =~= name);
        paths::spans_are_ordered(folder);
        assert(paths::components(folder) =~= Seq::empty());
        assert(paths::spans(s).len() == paths::components(s).len());
        assert(parent_or_empty(s) =~= folder);
    }
}

/// The parent of a path, or the empty path where it has none.
pub fn parent_path(path: &str) -> (r: String)
    ensures
        r@ == parent_or_empty(path@),
{
    match paths::parent(path) {
        Some(p) => p.to_owned(),
        None => String::new(),
    }
}

/// The place of the last separator in a text, or -1.
pub open spec fn last_separator(s: Seq<char>) -> int
    decreases s.len(),
{
    if s.len() == 0 {
        -1
    } else if s.last() == '/' {
        s.len() - 1
    } else {
        last_separator(s.drop_last())
    }
}

/// The folder and the file of a path, as texts: what stands before and after its last separator.
pub open spec fn path_and_file(s: Seq<char>) -> (Seq<char>, Seq<char>) {
    let k = last_separator(s);
    if k < 0 {
        (Seq::empty(), s)
    } else {
        (s.take(k), s.skip(k + 1))
    }
}

/// The last separator is one, none follows it, and without one there is none.
pub proof fn last_separator_is_last(s: Seq<char>)
    ensures
        -1 <= last_separator(s) < s.len(),
        last_separator(s) >= 0 ==> s[last_separator(s)] == '/',
        forall|i: int| last_separator(s) < i < s.len() ==> s[i] != '/',
    decreases s.len(),
{
    if s.len() > 0 && s.last() != '/' {
        last_separator_is_last(s.drop_last());
        assert forall|i: int| last_separator(s) < i < s.len() implies s[i] != '/' by {
            if i < s.len() - 1 {
                assert(s.drop_last()[i] == s[i]);
            }
        }
    }
}

/// Splits a path at its last separator into folder and file.
pub fn split_path(p: &str) -> (r: (&str, &str))
    ensures
        (r.0@, r.1@) == path_and_file(p@),
{
    let x = text::chars_of(p);
    let n = x.len();
    let mut i: usize = n;
    assert(p@.take(n as int) =~= p@);
    while i > 0
        invariant
            n == x.len(),
            x@ == p@,
            i <= n,
            last_separator(p@) == last_separator(p@.take(i as int)),
        decreases i,
    {
        let ghost t = p@.take(i as int);
        assert(t.last() == p@[i - 1]);
        if x[i - 1] == '/' {
            assert(last_separator(p@) == i - 1);
            let path = p.substring_char(0, i - 1);
            let file = text::after(p, i);
            assert(path@ =~= p@.take(i - 1));
            return (path, file);
        }
        assert(t.drop_last() =~= p@.take(i - 1));
        i -= 1;
    }
    assert(p@.take(0).len() == 0);
    let path = p.substring_char(0, 0);
    assert(path@ =~= Seq::empty());
    (path, p)
}

/// Putting folder and file together again gives the path, and the file holds no separator.
pub proof fn splitting_loses_nothing(s: Seq<char>)
    ensures
        !path_and_file(s).1.contains('/'),
        s.contains('/') ==> s == path_and_file(s).0 + seq!['/'] + path_and_file(s).1,
        !s.contains('/') ==> path_and_file(s) == (Seq::<char>::empty(), s),
{
    last_separator_is_last(s);
    let k = last_separator(s);
    if k >= 0 {
        assert(s.contains('/'));
        assert(s =~= s.take(k) + seq!['/'] + s.skip(k + 1));
    } else if s.contains('/') {
        let i = choose|i: int| 0 <= i < s.len() && s[i] == '/';
        assert(s[i] != '/');
    }
}

/// A folder and a file name without separators are what a path put together of them is split
/// into.
pub proof fn splitting_undoes_joining(folder: Seq<char>, file: Seq<char>)
    requires
        !file.contains('/'),
    ensures
        path_and_file(folder + seq!['/'] + file) == (folder, file),
{
    let s = folder + seq!['/'] + file;
    last_separator_is_last(s);
    let k = last_separator(s);
    assert(s[folder.len() as int] == '/');
    if k > folder.len() {
        assert(s[k] == file[k - folder.len() - 1]);
    }
    assert(k == folder.len());
    assert(s.take(k) =~= folder);
    assert(s.skip(k + 1) =~= file);
}

/// The folder that a row of the cache stands for; its key has to end with a name.
pub fn kv_to_audiofolder(key: &str, folder: Option<&AudioFolderInner>) -> (r: AudioFolderShort)
    requires
        paths::name_of(key@) is Some,
    ensures
        Some(r.name@) == paths::name_of(key@),
        r.path@ == key@,
        !r.is_file,
        r.modified == match folder {
            Some(f) => f.modified,
            None => None::<TimeStamp>,
        },
        !r.finished,
{
    let name = match paths::file_name(key) {
        Some(n) => n.to_owned(),
        None => String::new(),
    };
    AudioFolderShort {
        name,
        path: key.to_owned(),
        is_file: false,
        modified: match folder {
            Some(f) => f.modified,
            None => None,
        },
        finished: false,
    }
}

/// The entry of a folder of the cache bears the name that its path ends with, its path, and the
/// time that is known of it.
pub proof fn entries_are_those_of_the_cache(
    key: &str,
    folder: Option<&AudioFolderInner>,
    r: AudioFolderShort,
    parent: Seq<char>,
    name: Seq<char>,
)
    requires
        call_ensures(kv_to_audiofolder, (key, folder), r),
        paths::is_single_name(name),
        key@ == paths::joined(parent, name),
    ensures
        r.name@ == name,
        r.path@ == key@,
        folder is Some ==> r.modified == folder->0.modified,
        folder is None ==> r.modified is None,
        !r.is_file && !r.finished,
{
    paths::name_below_is_last(parent, name);
}

} // verus!
