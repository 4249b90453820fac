//! What happens to the cache when a folder is removed or renamed.

use crate::audio_meta;
use crate::audio_meta::{
    AudioFileInner, AudioFolderInner, AudioFolderShort, FileView, FolderView, ShortView, TypedFile,
    TypedView,
};
use crate::cache::inner;
use crate::cache::inner::{CacheInner, CacheModel, PositionRecord, RecordView};
use crate::cache::util;
use crate::error::Error;
use crate::paths;
use crate::position::PositionView;
use crate::table;
use crate::table::Table;
use crate::text;
use crate::timestamp::TimeStamp;
use vstd::prelude::*;

verus! {

/// An entry of a list of folders, moved.
pub open spec fn moved_short(from: Seq<char>, to: Seq<char>, s: ShortView) -> ShortView {
    ShortView { path: util::moved(from, to, s.path), ..s }
}

/// A file of a folder, moved.
pub open spec fn moved_file(from: Seq<char>, to: Seq<char>, f: FileView) -> FileView {
    FileView { path: util::moved(from, to, f.path), ..f }
}

/// A cover or description, moved.
pub open spec fn moved_typed(from: Seq<char>, to: Seq<char>, f: Option<TypedView>) -> Option<
    TypedView,
> {
    match f {
        Some(f) => Some(TypedView { path: util::moved(from, to, f.path), ..f }),
        None => None,
    }
}

/// A folder moved with all that it refers to, with a new modification time.
pub open spec fn moved_folder(
    from: Seq<char>,
    to: Seq<char>,
    f: FolderView,
    modified: Option<TimeStamp>,
) -> FolderView {
    FolderView {
        modified,
        files: f.files.map_values(|x: FileView| moved_file(from, to, x)),
        subfolders: f.subfolders.map_values(|x: ShortView| moved_short(from, to, x)),
        cover: moved_typed(from, to, f.cover),
        description: moved_typed(from, to, f.description),
        ..f
    }
}

/// All that a folder refers to lies under `from`.
pub open spec fn is_movable(from: Seq<char>, f: FolderView) -> bool {
    &&& forall|i: int| 0 <= i < f.files.len() ==> paths::is_under((#[trigger] f.files[i]).path, from)
    &&& forall|i: int|
        0 <= i < f.subfolders.len() ==> paths::is_under((#[trigger] f.subfolders[i]).path, from)
    &&& f.cover is Some ==> paths::is_under(f.cover->0.path, from)
    &&& f.description is Some ==> paths::is_under(f.description->0.path, from)
}

/// Every key, and all that its folder refers to, lies under `from`.
pub open spec fn can_move_folders(
    m: Map<Seq<char>, FolderView>,
    keys: Seq<Seq<char>>,
    from: Seq<char>,
) -> bool {
    forall|i: int|
        0 <= i < keys.len() ==> paths::is_under(#[trigger] keys[i], from) && is_movable(
            from,
            m[keys[i]],
        )
}

/// The modification time of a moved folder: the new one for the first key that becomes `to`.
pub open spec fn stamp(
    m: Map<Seq<char>, FolderView>,
    keys: Seq<Seq<char>>,
    from: Seq<char>,
    to: Seq<char>,
    updated: Option<TimeStamp>,
    i: int,
) -> Option<TimeStamp> {
    if updated is Some && util::moved(from, to, keys[i]) == to && (forall|j: int|
        0 <= j < i ==> util::moved(from, to, #[trigger] keys[j]) != to) {
        updated
    } else {
        m[keys[i]].modified
    }
}

/// The rows that the folders under the given keys become.
pub open spec fn moved_folders(
    m: Map<Seq<char>, FolderView>,
    keys: Seq<Seq<char>>,
    from: Seq<char>,
    to: Seq<char>,
    updated: Option<TimeStamp>,
) -> Seq<(Seq<char>, FolderView)> {
    Seq::new(
        keys.len(),
        |i: int|
            (
                util::moved(from, to, keys[i]),
                moved_folder(from, to, m[keys[i]], stamp(m, keys, from, to, updated, i)),
            ),
    )
}

/// The folders after `from` was renamed to `to`.
pub open spec fn folders_renamed(
    m: Map<Seq<char>, FolderView>,
    keys: Seq<Seq<char>>,
    from: Seq<char>,
    to: Seq<char>,
    updated: Option<TimeStamp>,
) -> Map<Seq<char>, FolderView> {
    table::put_all(table::without_prefix(m, from), moved_folders(m, keys, from, to, updated))
}

/// The rows that the records under the given keys become.
pub open spec fn moved_records(
    m: Map<Seq<char>, RecordView>,
    keys: Seq<Seq<char>>,
    from: Seq<char>,
    to: Seq<char>,
) -> Seq<(Seq<char>, RecordView)> {
    Seq::new(keys.len(), |i: int| (util::moved(from, to, keys[i]), m[keys[i]]))
}

/// The positions after `from` was renamed to `to`.
pub open spec fn positions_renamed(
    m: Map<Seq<char>, RecordView>,
    keys: Seq<Seq<char>>,
    from: Seq<char>,
    to: Seq<char>,
) -> Map<Seq<char>, RecordView> {
    table::put_all(table::without_prefix(m, from), moved_records(m, keys, from, to))
}

/// The folders of last positions after `from` was renamed to `to`.
pub open spec fn latest_renamed(m: Map<Seq<char>, Seq<char>>, from: Seq<char>, to: Seq<char>) -> Map<
    Seq<char>,
    Seq<char>,
> {
    m.map_values(
        |f: Seq<char>|
            if paths::is_under(f, from) {
                util::moved(from, to, f)
            } else {
                f
            },
    )
}

/// Every key lies under `from`.
pub open spec fn all_under(keys: Seq<Seq<char>>, from: Seq<char>) -> bool {
    forall|i: int| 0 <= i < keys.len() ==> paths::is_under(#[trigger] keys[i], from)
}

/// Rows put one after the other: the last one under a key stays, and other keys keep theirs.
pub proof fn last_row_stays<V>(m: Map<Seq<char>, V>, rows: Seq<(Seq<char>, V)>)
    ensures
        forall|k: Seq<char>|
            (forall|i: int| 0 <= i < rows.len() ==> (#[trigger] rows[i]).0 != k)
                ==> #[trigger] table::put_all(m, rows).contains_key(k) == m.contains_key(k) && (
            m.contains_key(k) ==> table::put_all(m, rows)[k] == m[k]),
        forall|i: int|
            0 <= i < rows.len() && (forall|j: int|
                i < j < rows.len() ==> (#[trigger] rows[j]).0 != rows[i].0) ==> table::put_all(
                m,
                rows,
            ).contains_key((#[trigger] rows[i]).0) && table::put_all(m, rows)[rows[i].0]
                == rows[i].1,
    decreases rows.len(),
{
    if rows.len() > 0 {
        let front = rows.drop_last();
        last_row_stays(m, front);
        let n = rows.len() - 1;
        assert forall|k: Seq<char>|
            (forall|i: int| 0 <= i < rows.len() ==> (#[trigger] rows[i]).0 != k) implies
            #[trigger] table::put_all(m, rows).contains_key(k) == m.contains_key(k) && (
        m.contains_key(k) ==> table::put_all(m, rows)[k] == m[k]) by {
            assert(rows[n].0 != k);
            assert forall|i: int| 0 <= i < front.len() implies (#[trigger] front[i]).0 != k by {
                assert(rows[i].0 != k);
            }
            assert(table::put_all(m, front).contains_key(k) == m.contains_key(k));
        }
        assert forall|i: int|
            0 <= i < rows.len() && (forall|j: int|
                i < j < rows.len() ==> (#[trigger] rows[j]).0 != rows[i].0) implies table::put_all(
            m,
            rows,
        ).contains_key((#[trigger] rows[i]).0) && table::put_all(m, rows)[rows[i].0]
            == rows[i].1 by {
            if i < n {
                assert(rows[n].0 != rows[i].0);
                assert(front[i] == rows[i]);
                assert forall|j: int| i < j < front.len() implies (#[trigger] front[j]).0
                    != front[i].0 by {
                    assert(rows[j].0 != rows[i].0);
                }
            }
        }
    }
}

/// A folder whose path starts with `from` is found at its new place after a renaming, with its
/// contents moved, unless another one came to the same place after it.
pub proof fn renamed_folder_is_found(
    m: Map<Seq<char>, FolderView>,
    keys: Seq<Seq<char>>,
    from: Seq<char>,
    to: Seq<char>,
    updated: Option<TimeStamp>,
    i: int,
)
    requires
        0 <= i < keys.len(),
        forall|j: int|
            i < j < keys.len() ==> util::moved(from, to, #[trigger] keys[j]) != util::moved(
                from,
                to,
                keys[i],
            ),
    ensures
        folders_renamed(m, keys, from, to, updated).contains_key(util::moved(from, to, keys[i])),
        folders_renamed(m, keys, from, to, updated)[util::moved(from, to, keys[i])]
            == moved_folder(from, to, m[keys[i]], stamp(m, keys, from, to, updated, i)),
{
    let rows = moved_folders(m, keys, from, to, updated);
    last_row_stays(table::without_prefix(m, from), rows);
    assert(rows[i].0 == util::moved(from, to, keys[i]));
    assert forall|j: int| i < j < rows.len() implies (#[trigger] rows[j]).0 != rows[i].0 by {
        assert(util::moved(from, to, keys[j]) != util::moved(from, to, keys[i]));
    }
}

/// The renamed folder itself is found at its new place with its new modification time.
pub proof fn renamed_folder_gets_its_new_time(
    m: Map<Seq<char>, FolderView>,
    keys: Seq<Seq<char>>,
    from: Seq<char>,
    to: Seq<char>,
    updated: TimeStamp,
)
    requires
        keys.len() > 0,
        keys[0] == from,
        forall|j: int| 0 < j < keys.len() ==> util::moved(from, to, #[trigger] keys[j]) != to,
    ensures
        folders_renamed(m, keys, from, to, Some(updated)).contains_key(to),
        folders_renamed(m, keys, from, to, Some(updated))[to] == moved_folder(
            from,
            to,
            m[from],
            Some(updated),
        ),
{
    let rest = paths::rest_after(from, from);
    assert(rest.len() == 0);
    assert(util::moved(from, to, from) == to);
    renamed_folder_is_found(m, keys, from, to, Some(updated), 0);
}

/// A folder whose path does not start with `from` stays as it is, unless a renamed one takes its
/// place; one whose path does is gone from there, unless a renamed one comes.
pub proof fn other_folders_stay(
    m: Map<Seq<char>, FolderView>,
    keys: Seq<Seq<char>>,
    from: Seq<char>,
    to: Seq<char>,
    updated: Option<TimeStamp>,
    k: Seq<char>,
)
    requires
        forall|j: int| 0 <= j < keys.len() ==> util::moved(from, to, #[trigger] keys[j]) != k,
    ensures
        folders_renamed(m, keys, from, to, updated).contains_key(k) == (m.contains_key(k)
            && !from.is_prefix_of(k)),
        m.contains_key(k) && !from.is_prefix_of(k) ==> folders_renamed(
            m,
            keys,
            from,
            to,
            updated,
        )[k] == m[k],
{
    let rows = moved_folders(m, keys, from, to, updated);
    last_row_stays(table::without_prefix(m, from), rows);
    assert forall|j: int| 0 <= j < rows.len() implies (#[trigger] rows[j]).0 != k by {
        assert(util::moved(from, to, keys[j]) != k);
    }
    assert(table::put_all(table::without_prefix(m, from), rows).contains_key(k)
        == table::without_prefix(m, from).contains_key(k));
}

/// The positions of a renamed folder are found at its new place.
pub proof fn renamed_positions_are_found(
    m: Map<Seq<char>, RecordView>,
    keys: Seq<Seq<char>>,
    from: Seq<char>,
    to: Seq<char>,
    i: int,
)
    requires
        0 <= i < keys.len(),
        forall|j: int|
            i < j < keys.len() ==> util::moved(from, to, #[trigger] keys[j]) != util::moved(
                from,
                to,
                keys[i],
            ),
    ensures
        positions_renamed(m, keys, from, to).contains_key(util::moved(from, to, keys[i])),
        positions_renamed(m, keys, from, to)[util::moved(from, to, keys[i])] == m[keys[i]],
{
    let rows = moved_records(m, keys, from, to);
    last_row_stays(table::without_prefix(m, from), rows);
    assert(rows[i].0 == util::moved(from, to, keys[i]));
    assert forall|j: int| i < j < rows.len() implies (#[trigger] rows[j]).0 != rows[i].0 by {
        assert(util::moved(from, to, keys[j]) != util::moved(from, to, keys[i]));
    }
}

/// The last position of a group follows a renamed folder: it is the same but for the folder.
pub proof fn last_position_follows_renaming(
    m: CacheModel,
    keys: Seq<Seq<char>>,
    from: Seq<char>,
    to: Seq<char>,
    group: Seq<char>,
    i: int,
)
    requires
        0 <= i < keys.len(),
        m.latest.contains_key(group),
        m.latest[group] == keys[i],
        m.positions.contains_key(keys[i]),
        paths::is_under(keys[i], from),
        forall|j: int|
            i < j < keys.len() ==> util::moved(from, to, #[trigger] keys[j]) != util::moved(
                from,
                to,
                keys[i],
            ),
    ensures
        ({
            let after = CacheModel {
                positions: positions_renamed(m.positions, keys, from, to),
                latest: latest_renamed(m.latest, from, to),
                ..m
            };
            inner::position_of(after, group, None) == match inner::position_of(m, group, None) {
                Some(p) => Some(PositionView { folder: util::moved(from, to, keys[i]), ..p }),
                None => None,
            }
        }),
{
    renamed_positions_are_found(m.positions, keys, from, to, i);
}

/// A path was moved from under `from` to under `to`: its components below are the same.
pub open spec fn is_moved(
    before: Seq<char>,
    after: Seq<char>,
    from: Seq<char>,
    to: Seq<char>,
) -> bool {
    util::moves_cleanly(from, before) ==> paths::components(after) == paths::components(to)
        + paths::components(before).skip(paths::components(from).len() as int)
}

/// After a renaming each file of a moved folder is the same as before but for its path, which leads
/// to the new place; the same goes for its subfolders, cover and description, and the folder keeps
/// all else that is known of it.
pub proof fn renaming_changes_paths_alone(
    m: Map<Seq<char>, FolderView>,
    keys: Seq<Seq<char>>,
    from: Seq<char>,
    to: Seq<char>,
    updated: Option<TimeStamp>,
    i: int,
)
    requires
        0 <= i < keys.len(),
        forall|j: int|
            i < j < keys.len() ==> util::moved(from, to, #[trigger] keys[j]) != util::moved(
                from,
                to,
                keys[i],
            ),
    ensures
        ({
            let key = util::moved(from, to, keys[i]);
            let before = m[keys[i]];
            let after = folders_renamed(m, keys, from, to, updated)[key];
            &&& folders_renamed(m, keys, from, to, updated).contains_key(key)
            &&& is_moved(keys[i], key, from, to)
            &&& after.is_file == before.is_file
            &&& after.is_collapsed == before.is_collapsed
            &&& after.total_time == before.total_time
            &&& after.tags == before.tags
            &&& after.files.len() == before.files.len()
            &&& forall|n: int|
                0 <= n < before.files.len() ==> {
                    let (old_file, new_file) = (before.files[n], #[trigger] after.files[n]);
                    &&& new_file.id == old_file.id
                    &&& new_file.name == old_file.name
                    &&& new_file.meta == old_file.meta
                    &&& new_file.mime == old_file.mime
                    &&& new_file.section == old_file.section
                    &&& is_moved(old_file.path, new_file.path, from, to)
                }
            &&& after.subfolders.len() == before.subfolders.len()
            &&& forall|n: int|
                0 <= n < before.subfolders.len() ==> {
                    let (old_sub, new_sub) = (before.subfolders[n], #[trigger] after.subfolders[n]);
                    &&& new_sub.name == old_sub.name
                    &&& new_sub.modified == old_sub.modified
                    &&& new_sub.is_file == old_sub.is_file
                    &&& new_sub.finished == old_sub.finished
                    &&& is_moved(old_sub.path, new_sub.path, from, to)
                }
            &&& after.cover is Some == before.cover is Some
            &&& before.cover is Some ==> after.cover->0.mime == before.cover->0.mime && is_moved(
                before.cover->0.path,
                after.cover->0.path,
                from,
                to,
            )
            &&& after.description is Some == before.description is Some
            &&& before.description is Some ==> after.description->0.mime
                == before.description->0.mime && is_moved(
                before.description->0.path,
                after.description->0.path,
                from,
                to,
            )
        }),
{
    renamed_folder_is_found(m, keys, from, to, updated, i);
    let before = m[keys[i]];
    path_is_moved(from, to, keys[i]);
    assert forall|n: int| 0 <= n < before.files.len() implies is_moved(
        before.files[n].path,
        util::moved(from, to, (#[trigger] before.files[n]).path),
        from,
        to,
    ) by {
        path_is_moved(from, to, before.files[n].path);
    }
    assert forall|n: int| 0 <= n < before.subfolders.len() implies is_moved(
        before.subfolders[n].path,
        util::moved(from, to, (#[trigger] before.subfolders[n]).path),
        from,
        to,
    ) by {
        path_is_moved(from, to, before.subfolders[n].path);
    }
    if before.cover is Some {
        path_is_moved(from, to, before.cover->0.path);
    }
    if before.description is Some {
        path_is_moved(from, to, before.description->0.path);
    }
    let after = folders_renamed(m, keys, from, to, updated)[util::moved(from, to, keys[i])];
    assert forall|n: int| 0 <= n < before.files.len() implies (#[trigger] after.files[n]).path
        == util::moved(from, to, before.files[n].path) by {}
    assert forall|n: int| 0 <= n < before.subfolders.len() implies (
    #[trigger] after.subfolders[n]).path == util::moved(from, to, before.subfolders[n].path) by {}
}

/// A moved path has the same components below its new place.
proof fn path_is_moved(from: Seq<char>, to: Seq<char>, p: Seq<char>)
    ensures
        is_moved(p, util::moved(from, to, p), from, to),
{
    if util::moves_cleanly(from, p) {
        util::moving_keeps_what_is_below(from, to, p);
    }
}

/// A renaming gives no moved folder another modification time but the renamed one itself, and that
/// one only where a time is known.
pub proof fn renaming_keeps_other_times(
    m: Map<Seq<char>, FolderView>,
    keys: Seq<Seq<char>>,
    from: Seq<char>,
    to: Seq<char>,
    updated: Option<TimeStamp>,
    i: int,
)
    requires
        0 <= i < keys.len(),
        forall|j: int|
            i < j < keys.len() ==> util::moved(from, to, #[trigger] keys[j]) != util::moved(
                from,
                to,
                keys[i],
            ),
    ensures
        ({
            let key = util::moved(from, to, keys[i]);
            let after = folders_renamed(m, keys, from, to, updated)[key];
            &&& key != to || updated is None ==> after.modified == m[keys[i]].modified
            &&& after.modified == m[keys[i]].modified || after.modified == updated
            &&& i == 0 && key == to && updated is Some ==> after.modified == updated
        }),
{
    renamed_folder_is_found(m, keys, from, to, updated, i);
}

/// A renaming moves the positions of every folder under the renamed one as they are, to the place
/// where the folder has gone, and no others.
pub proof fn renaming_moves_positions_alike(
    m: Map<Seq<char>, RecordView>,
    keys: Seq<Seq<char>>,
    from: Seq<char>,
    to: Seq<char>,
    i: int,
    other: Seq<char>,
)
    requires
        0 <= i < keys.len(),
        forall|j: int|
            i < j < keys.len() ==> util::moved(from, to, #[trigger] keys[j]) != util::moved(
                from,
                to,
                keys[i],
            ),
        forall|j: int| 0 <= j < keys.len() ==> util::moved(from, to, #[trigger] keys[j]) != other,
    ensures
        ({
            let after = positions_renamed(m, keys, from, to);
            let key = util::moved(from, to, keys[i]);
            &&& is_moved(keys[i], key, from, to)
            &&& after.contains_key(key)
            &&& after[key] == m[keys[i]]
            &&& from.is_prefix_of(other) ==> !after.contains_key(other)
            &&& !from.is_prefix_of(other) ==> (after.contains_key(other) <==> m.contains_key(other))
                && (m.contains_key(other) ==> after[other] == m[other])
        }),
{
    renamed_positions_are_found(m, keys, from, to, i);
    path_is_moved(from, to, keys[i]);
    let rows = moved_records(m, keys, from, to);
    last_row_stays(table::without_prefix(m, from), rows);
    assert forall|j: int| 0 <= j < rows.len() implies (#[trigger] rows[j]).0 != other by {
        assert(util::moved(from, to, keys[j]) != other);
    }
    assert(table::put_all(table::without_prefix(m, from), rows).contains_key(other)
        == table::without_prefix(m, from).contains_key(other));
}

/// After a renaming the last position of every group is in the folder where it was, or in the one
/// that this has become.
pub proof fn renaming_moves_last_folders(
    m: Map<Seq<char>, Seq<char>>,
    from: Seq<char>,
    to: Seq<char>,
    group: Seq<char>,
)
    ensures
        latest_renamed(m, from, to).contains_key(group) <==> m.contains_key(group),
        m.contains_key(group) && !paths::is_under(m[group], from) ==> latest_renamed(
            m,
            from,
            to,
        )[group] == m[group],
        m.contains_key(group) && paths::is_under(m[group], from) ==> is_moved(
            m[group],
            latest_renamed(m, from, to)[group],
            from,
            to,
        ),
{
    if m.contains_key(group) {
        path_is_moved(from, to, m[group]);
    }
}

/// A renaming moves all folders whose path starts with `from`, or none where one of them, or
/// something that it refers to, does not lie under it.
pub proof fn folders_move_together(m: Map<Seq<char>, FolderView>, keys: Seq<Seq<char>>, from: Seq<char>)
    ensures
        can_move_folders(m, keys, from) <==> forall|i: int|
            0 <= i < keys.len() ==> {
                let f = m[#[trigger] keys[i]];
                &&& paths::is_under(keys[i], from)
                &&& forall|n: int|
                    0 <= n < f.files.len() ==> paths::is_under((#[trigger] f.files[n]).path, from)
                &&& forall|n: int|
                    0 <= n < f.subfolders.len() ==> paths::is_under(
                        (#[trigger] f.subfolders[n]).path,
                        from,
                    )
                &&& f.cover is Some ==> paths::is_under(f.cover->0.path, from)
                &&& f.description is Some ==> paths::is_under(f.description->0.path, from)
            },
{
}

/// The path of something that lies under `from`, moved.
fn moved_path(from: &str, to: &str, p: &str) -> (r: String)
    requires
        paths::is_under(p@, from@),
    ensures
        r@ == util::moved(from@, to@, p@),
{
    match util::update_path(from, to, p) {
        Ok(q) => q,
        Err(_) => String::new(),
    }
}

/// Whether all that a folder refers to lies under `from`.
fn check_movable(from: &str, f: &AudioFolderInner) -> (r: bool)
    ensures
        r == is_movable(from@, f@),
{
    let mut i: usize = 0;
    while i < f.files.len()
        invariant
            i <= f.files.len(),
            forall|j: int| 0 <= j < i ==> paths::is_under((#[trigger] f@.files[j]).path, from@),
        decreases f.files.len() - i,
    {
        assert(f@.files[i as int] == f.files@[i as int]@);
        if !paths::starts_with(f.files[i].path.as_str(), from) {
            return false;
        }
        i += 1;
    }
    let mut i: usize = 0;
    while i < f.subfolders.len()
        invariant
            i <= f.subfolders.len(),
            forall|j: int|
                0 <= j < i ==> paths::is_under((#[trigger] f@.subfolders[j]).path, from@),
        decreases f.subfolders.len() - i,
    {
        assert(f@.subfolders[i as int] == f.subfolders@[i as int]@);
        if !paths::starts_with(f.subfolders[i].path.as_str(), from) {
            return false;
        }
        i += 1;
    }
    if let Some(c) = &f.cover {
        if !paths::starts_with(c.path.as_str(), from) {
            return false;
        }
    }
    if let Some(d) = &f.description {
        if !paths::starts_with(d.path.as_str(), from) {
            return false;
        }
    }
    true
}

/// Moves the files of a folder.
fn move_files(from: &str, to: &str, v: Vec<AudioFileInner>) -> (r: Vec<AudioFileInner>)
    requires
        forall|i: int|
            0 <= i < v@.len() ==> paths::is_under(
                (#[trigger] audio_meta::file_views(v@)[i]).path,
                from@,
            ),
    ensures
        audio_meta::file_views(r@) == audio_meta::file_views(v@).map_values(
            |x: FileView| moved_file(from@, to@, x),
        ),
{
    let mut out: Vec<AudioFileInner> = Vec::new();
    let ghost want = audio_meta::file_views(v@).map_values(|x: FileView| moved_file(from@, to@, x));
    for f in it: v
        invariant
            it.seq() == v@,
            out@.len() == it.index(),
            want == audio_meta::file_views(v@).map_values(
                |x: FileView| moved_file(from@, to@, x),
            ),
            forall|i: int|
                0 <= i < v@.len() ==> paths::is_under(
                    (#[trigger] audio_meta::file_views(v@)[i]).path,
                    from@,
                ),
            forall|i: int| 0 <= i < out@.len() ==> (#[trigger] out@[i])@ == want[i],
    {
        assert(audio_meta::file_views(v@)[out@.len() as int] == f@);
        let path = moved_path(from, to, f.path.as_str());
        let g = AudioFileInner {
            id: f.id,
            name: f.name,
            path,
            meta: f.meta,
            mime: f.mime,
            section: f.section,
        };
        assert(g@ =~= moved_file(from@, to@, f@));
        out.push(g);
    }
    assert(audio_meta::file_views(out@) =~= want);
    out
}

/// Moves the subfolders of a folder.
fn move_shorts(from: &str, to: &str, v: Vec<AudioFolderShort>) -> (r: Vec<AudioFolderShort>)
    requires
        forall|i: int|
            0 <= i < v@.len() ==> paths::is_under(
                (#[trigger] audio_meta::short_views(v@)[i]).path,
                from@,
            ),
    ensures
        audio_meta::short_views(r@) == audio_meta::short_views(v@).map_values(
            |x: ShortView| moved_short(from@, to@, x),
        ),
{
    let mut out: Vec<AudioFolderShort> = Vec::new();
    let ghost want = audio_meta::short_views(v@).map_values(
        |x: ShortView| moved_short(from@, to@, x),
    );
    for f in it: v
        invariant
            it.seq() == v@,
            out@.len() == it.index(),
            want == audio_meta::short_views(v@).map_values(
                |x: ShortView| moved_short(from@, to@, x),
            ),
            forall|i: int|
                0 <= i < v@.len() ==> paths::is_under(
                    (#[trigger] audio_meta::short_views(v@)[i]).path,
                    from@,
                ),
            forall|i: int| 0 <= i < out@.len() ==> (#[trigger] out@[i])@ == want[i],
    {
        assert(audio_meta::short_views(v@)[out@.len() as int] == f@);
        let path = moved_path(from, to, f.path.as_str());
        let g = AudioFolderShort {
            name: f.name,
            modified: f.modified,
            path,
            is_file: f.is_file,
            finished: f.finished,
        };
        assert(g@ =~= moved_short(from@, to@, f@));
        out.push(g);
    }
    assert(audio_meta::short_views(out@) =~= want);
    out
}

/// Moves a cover or description.
fn move_typed(from: &str, to: &str, f: Option<TypedFile>) -> (r: Option<TypedFile>)
    requires
        f is Some ==> paths::is_under(f->0.path@, from@),
    ensures
        audio_meta::typed_view(r) == moved_typed(from@, to@, audio_meta::typed_view(f)),
{
    match f {
        Some(f) => {
            let path = moved_path(from, to, f.path.as_str());
            Some(TypedFile { path, mime: f.mime })
        },
        None => None,
    }
}

/// Moves a folder with all that it refers to.
fn move_folder(from: &str, to: &str, f: AudioFolderInner, modified: Option<TimeStamp>) -> (r:
    AudioFolderInner)
    requires
        is_movable(from@, f@),
    ensures
        r@ == moved_folder(from@, to@, f@, modified),
{
    let ghost v = f@;
    assert(forall|i: int|
        0 <= i < v.files.len() ==> paths::is_under((#[trigger] v.files[i]).path, from@));
    assert(forall|i: int|
        0 <= i < v.subfolders.len() ==> paths::is_under((#[trigger] v.subfolders[i]).path, from@));
    let r = AudioFolderInner {
        is_file: f.is_file,
        is_collapsed: f.is_collapsed,
        modified,
        total_time: f.total_time,
        files: move_files(from, to, f.files),
        subfolders: move_shorts(from, to, f.subfolders),
        cover: move_typed(from, to, f.cover),
        description: move_typed(from, to, f.description),
        tags: f.tags,
    };
    assert(r@ =~= moved_folder(from@, to@, v, modified));
    r
}

impl CacheInner {
    /// Takes out all folders and positions whose path starts with that of a folder.
    pub fn remove_tree(&mut self, dir_path: &str)
        requires
            old(self).wf(),
        ensures
            final(self).wf(),
            final(self).same_setup(old(self)),
            final(self).same_numbers(old(self)),
            final(self)@ == (CacheModel {
                folders: table::without_prefix(old(self)@.folders, dir_path@),
                positions: table::without_prefix(old(self)@.positions, dir_path@),
                ..old(self)@
            }),
            forall|k: Seq<char>| #[trigger]
                final(self)@.folders.contains_key(k) <==> old(self)@.folders.contains_key(k)
                    && !dir_path@.is_prefix_of(k),
            forall|k: Seq<char>| #[trigger]
                final(self)@.folders.contains_key(k) ==> final(self)@.folders[k]
                    == old(self)@.folders[k],
            forall|k: Seq<char>| #[trigger]
                final(self)@.positions.contains_key(k) <==> old(self)@.positions.contains_key(k)
                    && !dir_path@.is_prefix_of(k),
            forall|k: Seq<char>| #[trigger]
                final(self)@.positions.contains_key(k) ==> final(self)@.positions[k]
                    == old(self)@.positions[k],
            final(self)@.latest == old(self)@.latest,
    {
        self.folders.take_prefix(dir_path);
        self.pos_folder.take_prefix(dir_path);
        assert(self@.folders =~= table::without_prefix(old(self)@.folders, dir_path@));
        assert(self@.positions =~= table::without_prefix(old(self)@.positions, dir_path@));
    }

    /// Takes out all positions whose folder starts with the given path.
    pub fn remove_positions(&mut self, path: &str)
        requires
            old(self).wf(),
        ensures
            final(self).wf(),
            final(self).same_setup(old(self)),
            final(self).same_numbers(old(self)),
            final(self)@ == (CacheModel {
                positions: table::without_prefix(old(self)@.positions, path@),
                ..old(self)@
            }),
            forall|k: Seq<char>| #[trigger]
                final(self)@.positions.contains_key(k) <==> old(self)@.positions.contains_key(k)
                    && !path@.is_prefix_of(k),
            forall|k: Seq<char>| #[trigger]
                final(self)@.positions.contains_key(k) ==> final(self)@.positions[k]
                    == old(self)@.positions[k],
            final(self)@.folders == old(self)@.folders,
            final(self)@.latest == old(self)@.latest,
    {
        self.pos_folder.take_prefix(path);
        assert(self@.positions =~= table::without_prefix(old(self)@.positions, path@));
    }

    /// Whether all folders whose path starts with `from` can be moved.
    fn check_folders(&self, from: &str) -> (r: bool)
        requires
            self.wf(),
        ensures
            r == can_move_folders(
                self@.folders,
                table::prefixed(self.folders.keys(), from@, 0),
                from@,
            ),
    {
        let ghost keys = self.folders.keys();
        let n = self.folders.len();
        let mut i: usize = 0;
        proof {
            table::prefixed_finds_all(keys, from@, 0);
        }
        let ghost found = table::prefixed(keys, from@, 0);
        while i < n
            invariant
                self.wf(),
                i <= n,
                n == self.folders.size(),
                keys == self.folders.keys(),
                found == table::prefixed(keys, from@, 0),
                forall|k: Seq<char>| #[trigger]
                    found.contains(k) <==> from@.is_prefix_of(k) && exists|j: int|
                        0 <= j < keys.len() && #[trigger] keys[j] == k,
                forall|j: int|
                    0 <= j < i && from@.is_prefix_of(#[trigger] keys[j]) ==> paths::is_under(
                        keys[j],
                        from@,
                    ) && is_movable(from@, self@.folders[keys[j]]),
            decreases n - i,
        {
            let k = self.folders.key_at(i);
            assert(keys[i as int] == k@);
            if text::has_prefix(k, from) {
                let f = self.folders.value_at(i);
                assert(self@.folders[k@] == f@);
                if !paths::starts_with(k, from) || !check_movable(from, f) {
                    assert(found.contains(k@));
                    let ghost a = choose|a: int| 0 <= a < found.len() && found[a] == k@;
                    assert(found[a] == k@);
                    return false;
                }
            }
            i += 1;
        }
        assert forall|a: int| 0 <= a < found.len() implies paths::is_under(
            #[trigger] found[a],
            from@,
        ) && is_movable(from@, self@.folders[found[a]]) by {
            assert(found.contains(found[a]));
            let j = choose|j: int| 0 <= j < keys.len() && #[trigger] keys[j] == found[a];
            assert(from@.is_prefix_of(keys[j]));
        }
        true
    }

    /// Moves all folders whose path starts with `from` to `to`, together with what they refer
    /// to; the renamed folder itself gets the modification time `updated`.
    ///
    /// Where one of the paths does not lie under `from`, nothing is moved.
    pub fn update_recursive_after_rename(
        &mut self,
        from: &str,
        to: &str,
        updated: Option<TimeStamp>,
    ) -> (r: Result<(), Error>)
        requires
            old(self).wf(),
        ensures
            final(self).wf(),
            final(self).same_setup(old(self)),
            final(self).same_numbers(old(self)),
            final(self).pos_folder == old(self).pos_folder,
            final(self).pos_latest == old(self).pos_latest,
            ({
                let keys = table::prefixed(old(self).folders.keys(), from@, 0);
                if can_move_folders(old(self)@.folders, keys, from@) {
                    &&& r is Ok
                    &&& final(self)@ == (CacheModel {
                        folders: folders_renamed(old(self)@.folders, keys, from@, to@, updated),
                        ..old(self)@
                    })
                } else {
                    &&& r is Err
                    &&& r->Err_0 is InvalidPath
                    &&& final(self)@ == old(self)@
                }
            }),
    {
        if !self.check_folders(from) {
            return Err(Error::InvalidPath);
        }
        let ghost all = self.folders@;
        let ghost m = self@.folders;
        let ghost keys = table::prefixed(self.folders.keys(), from@, 0);
        let ghost rows = moved_folders(m, keys, from@, to@, updated);
        let mut taken = self.folders.take_prefix(from);
        let ghost base = table::without_prefix(m, from@);
        let n = taken.len();
        let mut fresh = true;
        assert(self@.folders =~= base);
        assert(rows.take(0) =~= Seq::empty());
        while taken.len() > 0
            invariant
                self.wf(),
                self.same_setup(old(self)),
                self.same_numbers(old(self)),
                self.pos_folder == old(self).pos_folder,
                self.pos_latest == old(self).pos_latest,
                n == keys.len(),
                taken@.len() <= n,
                m == all.map_values(|f: AudioFolderInner| f@),
                rows == moved_folders(m, keys, from@, to@, updated),
                can_move_folders(m, keys, from@),
                forall|j: int|
                    0 <= j < taken@.len() ==> (#[trigger] taken@[j]).0@ == keys[n - 1 - j]
                        && all.contains_key(taken@[j].0@) && taken@[j].1 == all[taken@[j].0@],
                fresh == (forall|j: int|
                    0 <= j < n - taken@.len() ==> util::moved(from@, to@, #[trigger] keys[j])
                        != to@),
                self@.folders == table::put_all(base, rows.take(n - taken@.len())),
            decreases taken.len(),
        {
            let ghost i = n - taken@.len();
            let ghost before = self@.folders;
            if let Some((k, f)) = taken.pop() {
                assert(k@ == keys[i]);
                assert(m[k@] == f@);
                let new_key = moved_path(from, to, k.as_str());
                let is_root = text::same_text(new_key.as_str(), to);
                let modified = if is_root && fresh && updated.is_some() {
                    updated
                } else {
                    f.modified
                };
                assert(modified == stamp(m, keys, from@, to@, updated, i));
                fresh = fresh && !is_root;
                let g = move_folder(from, to, f, modified);
                let ghost row = (new_key@, g@);
                self.folders.insert(new_key, g);
                assert(rows[i] == row);
                assert(self@.folders =~= before.insert(row.0, row.1));
                assert(rows.take(i + 1).drop_last() =~= rows.take(i));
                assert(rows.take(i + 1).last() == row);
            }
        }
        assert(rows.take(n as int) =~= rows);
        Ok(())
    }

    /// Whether all folders with positions whose path starts with `from` lie under it.
    fn check_positions(&self, from: &str) -> (r: bool)
        requires
            self.wf(),
        ensures
            r == all_under(table::prefixed(self.pos_folder.keys(), from@, 0), from@),
    {
        let ghost keys = self.pos_folder.keys();
        let n = self.pos_folder.len();
        let mut i: usize = 0;
        proof {
            table::prefixed_finds_all(keys, from@, 0);
        }
        let ghost found = table::prefixed(keys, from@, 0);
        while i < n
            invariant
                self.wf(),
                i <= n,
                n == self.pos_folder.size(),
                keys == self.pos_folder.keys(),
                found == table::prefixed(keys, from@, 0),
                forall|k: Seq<char>| #[trigger]
                    found.contains(k) <==> from@.is_prefix_of(k) && exists|j: int|
                        0 <= j < keys.len() && #[trigger] keys[j] == k,
                forall|j: int|
                    0 <= j < i && from@.is_prefix_of(#[trigger] keys[j]) ==> paths::is_under(
                        keys[j],
                        from@,
                    ),
            decreases n - i,
        {
            let k = self.pos_folder.key_at(i);
            assert(keys[i as int] == k@);
            if text::has_prefix(k, from) && !paths::starts_with(k, from) {
                assert(found.contains(k@));
                let ghost a = choose|a: int| 0 <= a < found.len() && found[a] == k@;
                assert(found[a] == k@);
                return false;
            }
            i += 1;
        }
        assert forall|a: int| 0 <= a < found.len() implies paths::is_under(
            #[trigger] found[a],
            from@,
        ) by {
            assert(found.contains(found[a]));
            let j = choose|j: int| 0 <= j < keys.len() && #[trigger] keys[j] == found[a];
            assert(from@.is_prefix_of(keys[j]));
        }
        true
    }

    /// Moves the folders of last positions that lie under `from` to `to`.
    fn rename_latest(&mut self, from: &str, to: &str)
        requires
            old(self).wf(),
        ensures
            final(self).wf(),
            final(self).same_setup(old(self)),
            final(self).same_numbers(old(self)),
            final(self)@ == (CacheModel {
                latest: latest_renamed(old(self)@.latest, from@, to@),
                ..old(self)@
            }),
    {
        let ghost before = self@.latest;
        let ghost want = latest_renamed(before, from@, to@);
        let mut fresh: Table<String> = Table::new();
        let n = self.pos_latest.len();
        let mut i: usize = 0;
        proof {
            self.pos_latest.reads_off();
        }
        while i < n
            invariant
                self.wf(),
                *self == *old(self),
                before == self@.latest,
                want == latest_renamed(before, from@, to@),
                n == self.pos_latest.size(),
                i <= n,
                fresh.wf(),
                forall|k: Seq<char>| #[trigger]
                    fresh@.contains_key(k) ==> before.contains_key(k) && fresh@[k]@ == want[k],
                forall|j: int| 0 <= j < i ==> fresh@.contains_key(#[trigger] self.pos_latest.key(j)),
            decreases n - i,
        {
            let k = self.pos_latest.key_at(i);
            let v = self.pos_latest.value_at(i);
            assert(before[k@] == v@);
            let new_path = if paths::starts_with(v.as_str(), from) {
                moved_path(from, to, v.as_str())
            } else {
                v.clone()
            };
            assert(want[k@] == new_path@);
            fresh.insert(k.to_owned(), new_path);
            i += 1;
        }
        self.pos_latest = fresh;
        proof {
            let t = old(self).pos_latest;
            t.reads_off();
            assert forall|k: Seq<char>| before.dom().contains(k) implies #[trigger] fresh@.dom().contains(
                k,
            ) by {
                assert(t@.contains_key(k));
                let j = choose|j: int| 0 <= j < t.size() && #[trigger] t.key(j) == k;
                assert(fresh@.contains_key(t.key(j)));
            }
            assert forall|k: Seq<char>| #[trigger] fresh@.dom().contains(k) implies
                before.dom().contains(k) by {
                assert(fresh@.contains_key(k));
            }
            assert(self@.latest =~= want);
        }
    }

    /// Moves all positions whose folder starts with `from` to `to`, and the last positions that
    /// lie under `from`.
    ///
    /// Where one of the folders does not lie under `from`, nothing is moved.
    pub fn rename_positions(&mut self, from: &str, to: &str) -> (r: Result<(), Error>)
        requires
            old(self).wf(),
        ensures
            final(self).wf(),
            final(self).same_setup(old(self)),
            final(self).same_numbers(old(self)),
            ({
                let keys = table::prefixed(old(self).pos_folder.keys(), from@, 0);
                if all_under(keys, from@) {
                    &&& r is Ok
                    &&& final(self)@ == (CacheModel {
                        positions: positions_renamed(old(self)@.positions, keys, from@, to@),
                        latest: latest_renamed(old(self)@.latest, from@, to@),
                        ..old(self)@
                    })
                } else {
                    &&& r is Err
                    &&& r->Err_0 is InvalidPath
                    &&& final(self)@ == old(self)@
                }
            }),
    {
        if !self.check_positions(from) {
            return Err(Error::InvalidPath);
        }
        let ghost all = self.pos_folder@;
        let ghost m = self@.positions;
        let ghost keys = table::prefixed(self.pos_folder.keys(), from@, 0);
        let ghost rows = moved_records(m, keys, from@, to@);
        let mut taken = self.pos_folder.take_prefix(from);
        let ghost base = table::without_prefix(m, from@);
        let n = taken.len();
        assert(self@.positions =~= base);
        assert(rows.take(0) =~= Seq::empty());
        while taken.len() > 0
            invariant
                self.wf(),
                self.same_setup(old(self)),
                self.same_numbers(old(self)),
                self@.folders == old(self)@.folders,
                self@.latest == old(self)@.latest,
                n == keys.len(),
                taken@.len() <= n,
                m == all.map_values(|r: PositionRecord| inner::record_view(r)),
                rows == moved_records(m, keys, from@, to@),
                all_under(keys, from@),
                forall|k: Seq<char>| #[trigger] all.contains_key(k) ==> all[k].wf(),
                forall|j: int|
                    0 <= j < taken@.len() ==> (#[trigger] taken@[j]).0@ == keys[n - 1 - j]
                        && all.contains_key(taken@[j].0@) && taken@[j].1 == all[taken@[j].0@],
                self@.positions == table::put_all(base, rows.take(n - taken@.len())),
            decreases taken.len(),
        {
            let ghost i = n - taken@.len();
            let ghost before = self@.positions;
            if let Some((k, v)) = taken.pop() {
                assert(k@ == keys[i]);
                assert(all.contains_key(k@));
                let new_key = moved_path(from, to, k.as_str());
                let ghost row = (new_key@, inner::record_view(v));
                self.pos_folder.insert(new_key, v);
                assert(rows[i] == row);
                assert(self@.positions =~= before.insert(row.0, row.1));
                assert(rows.take(i + 1).drop_last() =~= rows.take(i));
                assert(rows.take(i + 1).last() == row);
            }
        }
        assert(rows.take(n as int) =~= rows);
        self.rename_latest(from, to);
        Ok(())
    }
}

} // verus!
